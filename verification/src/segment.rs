//! Chain segments and their colors.
//!
//! Colors are integer RGB triples in per-mille (0 ..= 1000 per channel), so
//! the level-based tinting rules are exact.

use vstd::prelude::*;

verus! {

/// Radius of a freshly attached (level 1) chain segment, in world units.
pub const CHAIN_SEGMENT_SIZE: i64 = 12;

/// Distance between consecutive segment targets along the trail.
pub const CHAIN_SEGMENT_SPACING: i64 = 25;

/// An RGB color with per-mille channels (0 ..= 1000).
#[derive(Clone, Copy, PartialEq, Eq, Structural, Debug)]
pub struct Rgb {
    pub r: u16,
    pub g: u16,
    pub b: u16,
}

impl Rgb {
    pub open spec fn wf(self) -> bool {
        &&& self.r <= 1000
        &&& self.g <= 1000
        &&& self.b <= 1000
    }
}

/// The five base colors a collected option cycles through, keyed by
/// `option_id % 5`: blue, orange, green, pink, purple.
pub open spec fn spec_color_for_option(option_id: int) -> Rgb {
    let k = option_id % 5;
    if k == 0 {
        Rgb { r: 300, g: 500, b: 800 }
    } else if k == 1 {
        Rgb { r: 800, g: 500, b: 300 }
    } else if k == 2 {
        Rgb { r: 500, g: 800, b: 300 }
    } else if k == 3 {
        Rgb { r: 800, g: 300, b: 500 }
    } else {
        Rgb { r: 500, g: 300, b: 800 }
    }
}

/// Base color for a collected option, by its id.
pub fn color_for_option(option_id: usize) -> (r: Rgb)
    ensures
        r == spec_color_for_option(option_id as int),
        r.wf(),
{
    let k = option_id % 5;
    if k == 0 {
        Rgb { r: 300, g: 500, b: 800 }
    } else if k == 1 {
        Rgb { r: 800, g: 500, b: 300 }
    } else if k == 2 {
        Rgb { r: 500, g: 800, b: 300 }
    } else if k == 3 {
        Rgb { r: 800, g: 300, b: 500 }
    } else {
        Rgb { r: 500, g: 300, b: 800 }
    }
}

pub open spec fn sat_add_channel(c: int, d: int) -> int {
    if c + d >= 1000 {
        1000
    } else {
        c + d
    }
}

/// Display color of a segment by merge tier.  Tier 1 keeps the base color,
/// tiers 2 and 3 blend in fixed golden / platinum tints, and higher tiers
/// cycle the hue wheel (60 degrees per level, saturation 0.8, lightness
/// 0.7 -- exact in per-mille at these multiples of 60 degrees).
pub open spec fn spec_enhance_color_for_level(base: Rgb, level: int) -> Rgb {
    if level <= 1 {
        base
    } else if level == 2 {
        Rgb {
            r: sat_add_channel(base.r as int, 300) as u16,
            g: sat_add_channel(base.g as int, 200) as u16,
            b: base.b,
        }
    } else if level == 3 {
        Rgb {
            r: sat_add_channel(base.r as int, 400) as u16,
            g: sat_add_channel(base.g as int, 400) as u16,
            b: sat_add_channel(base.b as int, 200) as u16,
        }
    } else {
        let k = level % 6;
        if k == 0 {
            Rgb { r: 940, g: 460, b: 460 }
        } else if k == 1 {
            Rgb { r: 940, g: 940, b: 460 }
        } else if k == 2 {
            Rgb { r: 460, g: 940, b: 460 }
        } else if k == 3 {
            Rgb { r: 460, g: 940, b: 940 }
        } else if k == 4 {
            Rgb { r: 460, g: 460, b: 940 }
        } else {
            Rgb { r: 940, g: 460, b: 940 }
        }
    }
}

/// Display color of a segment by merge tier.
pub fn enhance_color_for_level(base: Rgb, level: u32) -> (r: Rgb)
    requires
        base.wf(),
    ensures
        r == spec_enhance_color_for_level(base, level as int),
        r.wf(),
{
    if level <= 1 {
        base
    } else if level == 2 {
        let nr = if base.r + 300 >= 1000 { 1000 } else { base.r + 300 };
        let ng = if base.g + 200 >= 1000 { 1000 } else { base.g + 200 };
        Rgb { r: nr, g: ng, b: base.b }
    } else if level == 3 {
        let nr = if base.r + 400 >= 1000 { 1000 } else { base.r + 400 };
        let ng = if base.g + 400 >= 1000 { 1000 } else { base.g + 400 };
        let nb = if base.b + 200 >= 1000 { 1000 } else { base.b + 200 };
        Rgb { r: nr, g: ng, b: nb }
    } else {
        let k = level % 6;
        if k == 0 {
            Rgb { r: 940, g: 460, b: 460 }
        } else if k == 1 {
            Rgb { r: 940, g: 940, b: 460 }
        } else if k == 2 {
            Rgb { r: 460, g: 940, b: 460 }
        } else if k == 3 {
            Rgb { r: 460, g: 940, b: 940 }
        } else if k == 4 {
            Rgb { r: 460, g: 460, b: 940 }
        } else {
            Rgb { r: 940, g: 460, b: 940 }
        }
    }
}

/// One link of a player's chain.
pub struct ChainSegment {
    /// Position along the chain; equals the array position after each
    /// cleanup pass.
    pub segment_index: usize,
    /// Display text of the collected option.
    pub option_text: String,
    /// Kind of the collected option; merge windows must agree on it.
    pub option_id: usize,
    pub base_color: Rgb,
    /// Idle-animation phase in milliradians.
    pub pulse_phase: u64,
    /// Merge tier; starts at 1.
    pub level: u32,
    /// How many original segments this one stands for.
    pub merge_value: u32,
}

/// Highest merge tier a segment can reach (windows at this tier no longer
/// merge).
pub const MAX_MERGE_LEVEL: u32 = 3;

/// Radius of a segment by merge tier: half the base size more per tier.
pub open spec fn spec_radius_for_level(level: int) -> int {
    (CHAIN_SEGMENT_SIZE * (level + 1)) / 2
}

impl ChainSegment {
    pub open spec fn wf(self) -> bool {
        &&& 1 <= self.level <= MAX_MERGE_LEVEL
        &&& self.base_color.wf()
        &&& self.segment_index <= 1_000_000
    }

    /// A fresh level-1 segment; the idle-animation phase is staggered by
    /// 0.3 radians (300 milliradians) per chain position.
    pub fn new(segment_index: usize, option_text: String, option_id: usize, base_color: Rgb) -> (r:
        ChainSegment)
        requires
            segment_index <= 1_000_000,
            base_color.wf(),
        ensures
            r == (ChainSegment {
                segment_index,
                option_text,
                option_id,
                base_color,
                pulse_phase: (segment_index * 300) as u64,
                level: 1,
                merge_value: 1,
            }),
            r.wf(),
    {
        let phase: u64 = (segment_index as u64) * 300;
        ChainSegment {
            segment_index,
            option_text,
            option_id,
            base_color,
            pulse_phase: phase,
            level: 1,
            merge_value: 1,
        }
    }

    /// Radius of the segment, grown by half the base size per merge tier.
    pub fn get_radius(&self) -> (r: i64)
        requires
            self.wf(),
        ensures
            r == spec_radius_for_level(self.level as int),
    {
        (CHAIN_SEGMENT_SIZE * (self.level as i64 + 1)) / 2
    }

    /// An owned copy equal to `self`.
    pub fn duplicate(&self) -> (r: ChainSegment)
        ensures
            r == *self,
    {
        ChainSegment {
            segment_index: self.segment_index,
            option_text: self.option_text.clone(),
            option_id: self.option_id,
            base_color: self.base_color,
            pulse_phase: self.pulse_phase,
            level: self.level,
            merge_value: self.merge_value,
        }
    }
}

} // verus!
