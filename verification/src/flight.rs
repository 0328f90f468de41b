//! The attachment pipeline: a collection event becomes a transient that
//! arcs from the pickup point to its chain slot, and on arrival turns into
//! a chain segment.

use crate::chain::{create_chain_segment_for_player, PlayerChain, SegmentArena, SegmentEntity};
use crate::geometry::{lerp_point_coord, lerp_toward, Vec2};
use crate::segment::{color_for_option, spec_color_for_option, Rgb, CHAIN_SEGMENT_SPACING};
use crate::timer::{CountdownTimer, MAX_TIME};
use crate::trail::{trail_point_at, MovementTrail};
use vstd::arithmetic::div_mod::{lemma_div_is_ordered, lemma_div_multiples_vanish, lemma_div_of0, lemma_div_pos_is_pos};
use vstd::prelude::*;

verus! {

/// Milliseconds a collected option takes to fly to its chain slot.
pub const FLY_TO_CHAIN_DURATION: u64 = 800;

/// Peak height of the flight arc, in world units.
pub const FLYING_CURVE_HEIGHT: i64 = 50;

/// A collection event handed in by the surrounding game: the player picked
/// an option, correctly or not.
pub struct OptionCollectedEvent {
    pub player_entity: u64,
    pub option_text: String,
    pub option_id: usize,
    pub is_correct: bool,
}

/// The request to extend a player's chain with a collected option.
pub struct ChainExtendEvent {
    pub player_entity: u64,
    pub option_text: String,
    pub option_id: usize,
    pub option_color: Rgb,
    pub collect_position: Vec2,
}

/// The transient flying from the pickup point to its chain slot.
pub struct FlyingToChain {
    pub start_position: Vec2,
    pub target_position: Vec2,
    pub flight_timer: CountdownTimer,
    pub option_text: String,
    pub option_id: usize,
    pub option_color: Rgb,
    pub curve_height: i64,
}

/// Parabolic vertical offset of the flight arc at elapsed fraction
/// `e / d`: `4 * h * t * (1 - t)`, peaking at half time.
pub open spec fn spec_arc_offset(h: int, e: int, d: int) -> int {
    (4 * h * e * (d - e)) / (d * d)
}

impl FlyingToChain {
    pub open spec fn wf(self) -> bool {
        &&& self.flight_timer.wf()
        &&& self.start_position.in_limit()
        &&& self.target_position.in_limit()
        &&& 0 <= self.curve_height <= 1000
        &&& self.option_color.wf()
    }

    pub fn new(
        start_pos: Vec2,
        target_pos: Vec2,
        option_text: String,
        option_id: usize,
        option_color: Rgb,
    ) -> (r: FlyingToChain)
        requires
            start_pos.in_limit(),
            target_pos.in_limit(),
            option_color.wf(),
        ensures
            r == (FlyingToChain {
                start_position: start_pos,
                target_position: target_pos,
                flight_timer: CountdownTimer { elapsed: 0, duration: FLY_TO_CHAIN_DURATION },
                option_text,
                option_id,
                option_color,
                curve_height: FLYING_CURVE_HEIGHT,
            }),
            r.wf(),
    {
        FlyingToChain {
            start_position: start_pos,
            target_position: target_pos,
            flight_timer: CountdownTimer::new(FLY_TO_CHAIN_DURATION),
            option_text,
            option_id,
            option_color,
            curve_height: FLYING_CURVE_HEIGHT,
        }
    }

    /// Position along the flight path: linear interpolation from start to
    /// target, lobbed by the parabolic arc offset on the y axis.
    pub fn current_position(&self) -> (r: Vec2)
        requires
            self.wf(),
        ensures
            r.x as int == lerp_toward(
                self.start_position.x as int,
                self.target_position.x - self.start_position.x,
                self.flight_timer.elapsed as int,
                self.flight_timer.duration as int,
            ),
            r.y as int == lerp_toward(
                self.start_position.y as int,
                self.target_position.y - self.start_position.y,
                self.flight_timer.elapsed as int,
                self.flight_timer.duration as int,
            ) + spec_arc_offset(
                self.curve_height as int,
                self.flight_timer.elapsed as int,
                self.flight_timer.duration as int,
            ),
            self.flight_timer.spec_finished() ==> r == self.target_position,
    {
        let e = self.flight_timer.elapsed;
        let d = self.flight_timer.duration;
        let x = lerp_point_coord(self.start_position.x, self.target_position.x, e, d);
        let y0 = lerp_point_coord(self.start_position.y, self.target_position.y, e, d);
        let off = arc_offset(self.curve_height, e, d);
        proof {
            if self.flight_timer.spec_finished() {
                let dx = self.target_position.x - self.start_position.x;
                let dy = self.target_position.y - self.start_position.y;
                lemma_lerp_full(self.start_position.x as int, dx, d as int);
                lemma_lerp_full(self.start_position.y as int, dy, d as int);
                let hi = self.curve_height as int;
                let di = d as int;
                assert(4 * hi * di * (di - di) == 0) by (nonlinear_arith);
                assert(di * di >= 1) by (nonlinear_arith)
                    requires
                        di >= 1,
                ;
                lemma_div_of0(di * di);
            }
        }
        Vec2 { x, y: y0 + off }
    }

    /// Scale of the transient in per-mille: a pop of up to 30 percent at
    /// the middle of the flight.
    pub fn current_scale_permille(&self) -> (r: u64)
        requires
            self.wf(),
        ensures
            r as int == 1000 + (1200 * (self.flight_timer.elapsed as int) * (
            self.flight_timer.duration - self.flight_timer.elapsed)) / (
            self.flight_timer.duration * self.flight_timer.duration),
            1000 <= r <= 1300,
    {
        let e = self.flight_timer.elapsed;
        let d = self.flight_timer.duration;
        proof {
            let ei = e as int;
            let di = d as int;
            assert(1200 * ei * (di - ei) <= 1_200_000_000_000_000_000_000_000_000 && 0 <= 1200
                * ei <= 1_200_000_000_000_000 && 1 <= di * di
                <= 1_000_000_000_000_000_000_000_000) by (nonlinear_arith)
                requires
                    0 <= ei <= di,
                    1 <= di <= 1_000_000_000_000,
            ;
        }
        let num: u128 = 1200 * (e as u128) * ((d - e) as u128);
        let den: u128 = (d as u128) * (d as u128);
        let frac: u128 = num / den;
        proof {
            let ei = e as int;
            let di = d as int;
            assert(1200 * ei * (di - ei) <= 300 * (di * di)) by (nonlinear_arith)
                requires
                    0 <= ei <= di,
            ;
            lemma_div_is_ordered(1200 * ei * (di - ei), 300 * (di * di), di * di);
            lemma_div_multiples_vanish(300, di * di);
            assert((300 * (di * di)) / (di * di) == 300);
            lemma_div_pos_is_pos(1200 * ei * (di - ei), di * di);
            assert(1200 * ei * (di - ei) >= 0) by (nonlinear_arith)
                requires
                    0 <= ei <= di,
            ;
        }
        1000 + frac as u64
    }
}

/// The parabolic arc offset `4 * h * e * (d - e) / d^2`, never above `h`.
fn arc_offset(h: i64, e: u64, d: u64) -> (r: i64)
    requires
        0 <= h <= 1000,
        1 <= d <= crate::timer::MAX_TIME,
        e <= d,
    ensures
        r as int == spec_arc_offset(h as int, e as int, d as int),
        0 <= r <= h,
{
    proof {
        let hi = h as int;
        let ei = e as int;
        let di = d as int;
        assert(4 * hi * ei * (di - ei) <= 4_000_000_000_000_000_000_000_000_000 && 0 <= 4 * hi
            * ei <= 4_000_000_000_000_000 && 1 <= di * di <= 1_000_000_000_000_000_000_000_000)
            by (nonlinear_arith)
            requires
                0 <= ei <= di,
                1 <= di <= 1_000_000_000_000,
                0 <= hi <= 1000,
        ;
    }
    let num: u128 = 4 * (h as u128) * (e as u128) * ((d - e) as u128);
    let den: u128 = (d as u128) * (d as u128);
    let frac: u128 = num / den;
    proof {
        let hi = h as int;
        let ei = e as int;
        let di = d as int;
        assert(4 * hi * ei * (di - ei) <= hi * (di * di)) by (nonlinear_arith)
            requires
                0 <= ei <= di,
                0 <= hi,
        ;
        lemma_div_is_ordered(4 * hi * ei * (di - ei), hi * (di * di), di * di);
        lemma_div_multiples_vanish(hi, di * di);
        lemma_div_pos_is_pos(4 * hi * ei * (di - ei), di * di);
        assert(4 * hi * ei * (di - ei) >= 0) by (nonlinear_arith)
            requires
                0 <= ei <= di,
                0 <= hi,
        ;
    }
    frac as i64
}

/// At full elapsed time a truncated interpolation lands exactly on the
/// far end.
proof fn lemma_lerp_full(a: int, delta: int, d: int)
    requires
        d >= 1,
    ensures
        lerp_toward(a, delta, d, d) == a + delta,
{
    if delta >= 0 {
        lemma_div_multiples_vanish(delta, d);
        assert(delta * d == d * delta) by (nonlinear_arith);
    } else {
        lemma_div_multiples_vanish(-delta, d);
        assert((-delta) * d == d * (-delta)) by (nonlinear_arith);
    }
}

/// Turns a collection event into a chain-extension request.  Incorrect
/// answers are filtered out here, upstream of the pipeline; the request
/// carries the player's position as the pickup point and the option's base
/// color.
pub fn handle_chain_extend_events(event: &OptionCollectedEvent, player_position: Vec2) -> (r:
    Option<ChainExtendEvent>)
    ensures
        (r is Some) == event.is_correct,
        r matches Some(ev) ==> ev == (ChainExtendEvent {
            player_entity: event.player_entity,
            option_text: event.option_text,
            option_id: event.option_id,
            option_color: spec_color_for_option(event.option_id as int),
            collect_position: player_position,
        }),
{
    if !event.is_correct {
        return None;
    }
    let color = color_for_option(event.option_id);
    Some(
        ChainExtendEvent {
            player_entity: event.player_entity,
            option_text: event.option_text.clone(),
            option_id: event.option_id,
            option_color: color,
            collect_position: player_position,
        },
    )
}

/// Spawns the flying transient for a chain-extension request.  Its target
/// is the trail point one spacing beyond the current chain tail, or the
/// raw pickup point while the trail is still empty.
pub fn create_flying_to_chain_objects(
    chain_len: usize,
    trail: &MovementTrail,
    event: &ChainExtendEvent,
) -> (r: FlyingToChain)
    requires
        trail.wf(),
        chain_len <= 1_000_000,
        event.collect_position.in_limit(),
        event.option_color.wf(),
    ensures
        r.start_position == event.collect_position,
        r.option_text == event.option_text,
        r.option_id == event.option_id,
        r.option_color == event.option_color,
        r.curve_height == FLYING_CURVE_HEIGHT,
        r.flight_timer == (CountdownTimer { elapsed: 0, duration: FLY_TO_CHAIN_DURATION }),
        trail.positions@.len() == 0 ==> r.target_position == event.collect_position,
        trail.positions@.len() > 0 ==> (r.target_position.x as int, r.target_position.y as int)
            == trail_point_at(
            trail.positions@,
            (chain_len + 1) * (CHAIN_SEGMENT_SPACING as int),
            None,
        ),
        r.wf(),
{
    let target_distance = (chain_len as i64 + 1) * CHAIN_SEGMENT_SPACING;
    let target = match trail.get_position_at_distance(target_distance) {
        Some(p) => p,
        None => event.collect_position,
    };
    FlyingToChain::new(
        event.collect_position,
        target,
        event.option_text.clone(),
        event.option_id,
        event.option_color,
    )
}

/// A flyer after one frame tick.
pub open spec fn spec_tick_flyer(f: FlyingToChain, delta: u64) -> FlyingToChain {
    FlyingToChain {
        start_position: f.start_position,
        target_position: f.target_position,
        flight_timer: f.flight_timer.spec_ticked(delta),
        option_text: f.option_text,
        option_id: f.option_id,
        option_color: f.option_color,
        curve_height: f.curve_height,
    }
}

/// The flyers still in flight after a tick, in order.
pub open spec fn surviving_flyers(fs: Seq<FlyingToChain>, delta: u64) -> Seq<FlyingToChain>
    decreases fs.len(),
{
    if fs.len() == 0 {
        Seq::empty()
    } else {
        let rest = surviving_flyers(fs.drop_last(), delta);
        let t = spec_tick_flyer(fs.last(), delta);
        if t.flight_timer.spec_finished() {
            rest
        } else {
            rest.push(t)
        }
    }
}

/// The flyers that arrive during a tick, in order.
pub open spec fn arrived_flyers(fs: Seq<FlyingToChain>, delta: u64) -> Seq<FlyingToChain>
    decreases fs.len(),
{
    if fs.len() == 0 {
        Seq::empty()
    } else {
        let rest = arrived_flyers(fs.drop_last(), delta);
        let t = spec_tick_flyer(fs.last(), delta);
        if t.flight_timer.spec_finished() {
            rest.push(t)
        } else {
            rest
        }
    }
}

pub open spec fn all_flyers_wf(fs: Seq<FlyingToChain>) -> bool {
    forall|i: int| 0 <= i < fs.len() ==> (#[trigger] fs[i]).wf()
}

/// What an arrival's slot must hold, as long as the segment has not been
/// despawned: the flyer's payload, attached for the player (its chain index
/// may have shifted since).
pub open spec fn arrival_slot_ok(
    slot: Option<SegmentEntity>,
    f: FlyingToChain,
    player: u64,
) -> bool {
    slot matches Some(e) ==> {
        &&& e.owner == player
        &&& e.segment.option_text == f.option_text
        &&& e.segment.option_id == f.option_id
        &&& e.segment.base_color == f.option_color
        &&& e.segment.level == 1
        &&& e.segment.merge_value == 1
        &&& e.position == f.target_position
        &&& e.reaction is None
        &&& e.merging is None
    }
}

pub open spec fn min_len(a: int, b: int) -> int {
    if a <= b {
        a
    } else {
        b
    }
}

/// Advances every flying transient by the frame delta.  A transient whose
/// countdown finishes lands exactly on its target and is converted into a
/// chain segment for the player (evicting the oldest segment if the chain
/// is full); the rest stay, ticked, in order.
pub fn update_flying_objects(
    flyers: &mut Vec<FlyingToChain>,
    arena: &mut SegmentArena,
    chain: &mut PlayerChain,
    player_entity: u64,
    delta: u64,
)
    requires
        all_flyers_wf(old(flyers)@),
        old(arena).wf(),
        old(chain).wf(*old(arena)),
        old(arena).slots@.len() + old(flyers)@.len() < 1_000_000_000,
        delta <= MAX_TIME,
    ensures
        final(arena).wf(),
        final(chain).wf(*final(arena)),
        final(chain).max_segments == old(chain).max_segments,
        all_flyers_wf(final(flyers)@),
        final(flyers)@ == surviving_flyers(old(flyers)@, delta),
        final(arena).slots@.len() == old(arena).slots@.len() + arrived_flyers(
            old(flyers)@,
            delta,
        ).len(),
        final(chain).segments@.len() == min_len(
            old(chain).segments@.len() as int + arrived_flyers(old(flyers)@, delta).len(),
            old(chain).max_segments as int,
        ),
        forall|j: int|
            0 <= j < arrived_flyers(old(flyers)@, delta).len() ==> arrival_slot_ok(
                final(arena).slots@[old(arena).slots@.len() + j],
                #[trigger] arrived_flyers(old(flyers)@, delta)[j],
                player_entity,
            ),
        old(chain).owned_by(*old(arena), player_entity) ==> final(chain).owned_by(
            *final(arena),
            player_entity,
        ),
{
    let ghost oldfs = flyers@;
    let ghost oldlen = arena.slots@.len();
    let ghost oldchainlen = chain.segments@.len();
    let n = flyers.len();
    let mut kept: Vec<FlyingToChain> = Vec::new();
    let mut i: usize = 0;
    while i < n
        invariant
            all_flyers_wf(oldfs),
            oldfs == flyers@,
            n == oldfs.len(),
            0 <= i <= n,
            delta <= MAX_TIME,
            kept@ == surviving_flyers(oldfs.take(i as int), delta),
            all_flyers_wf(kept@),
            arena.wf(),
            chain.wf(*arena),
            chain.max_segments == old(chain).max_segments,
            oldlen == old(arena).slots@.len(),
            oldchainlen == old(chain).segments@.len(),
            arena.slots@.len() == oldlen + arrived_flyers(oldfs.take(i as int), delta).len(),
            arena.slots@.len() + (n - i) < 1_000_000_000,
            chain.segments@.len() == min_len(
                oldchainlen as int + arrived_flyers(oldfs.take(i as int), delta).len(),
                chain.max_segments as int,
            ),
            forall|j: int|
                0 <= j < arrived_flyers(oldfs.take(i as int), delta).len() ==> arrival_slot_ok(
                    arena.slots@[oldlen + j],
                    #[trigger] arrived_flyers(oldfs.take(i as int), delta)[j],
                    player_entity,
                ),
            old(chain).owned_by(*old(arena), player_entity) ==> chain.owned_by(
                *arena,
                player_entity,
            ),
        decreases n - i,
    {
        let ghost prevarr = arrived_flyers(oldfs.take(i as int), delta);
        let ghost prevsurv = surviving_flyers(oldfs.take(i as int), delta);
        proof {
            assert(oldfs.take(i as int + 1).drop_last() =~= oldfs.take(i as int));
            assert(oldfs.take(i as int + 1).last() == oldfs[i as int]);
        }
        let f = &flyers[i];
        let mut moved = FlyingToChain {
            start_position: f.start_position,
            target_position: f.target_position,
            flight_timer: f.flight_timer,
            option_text: f.option_text.clone(),
            option_id: f.option_id,
            option_color: f.option_color,
            curve_height: f.curve_height,
        };
        moved.flight_timer.tick(delta);
        let ghost tf = spec_tick_flyer(oldfs[i as int], delta);
        proof {
            assert(*f == oldfs[i as int]);
            assert(moved == tf);
        }
        if moved.flight_timer.finished() {
            let ghost precall = arena.slots@;
            proof {
                assert(arrived_flyers(oldfs.take(i as int + 1), delta) == prevarr.push(tf));
                assert(surviving_flyers(oldfs.take(i as int + 1), delta) == prevsurv);
            }
            let position = moved.target_position;
            let h = create_chain_segment_for_player(
                arena,
                chain,
                player_entity,
                position,
                moved.option_text,
                moved.option_id,
                moved.option_color,
            );
            proof {
                assert forall|j: int|
                    0 <= j < prevarr.len() + 1 implies arrival_slot_ok(
                    arena.slots@[oldlen + j],
                    #[trigger] arrived_flyers(oldfs.take(i as int + 1), delta)[j],
                    player_entity,
                ) by {
                    if j < prevarr.len() {
                        assert(arrived_flyers(oldfs.take(i as int + 1), delta)[j] == prevarr[j]);
                        assert(0 <= oldlen + j < precall.len());
                        let oldslot = precall[oldlen + j];
                        let newslot = arena.slots@[oldlen + j];
                        assert(newslot is None || newslot == oldslot || (oldslot is Some && newslot
                            == Some(
                            crate::chain::with_index(
                                oldslot->0,
                                newslot->0.segment.segment_index,
                            ),
                        )));
                    } else {
                        assert(arrived_flyers(oldfs.take(i as int + 1), delta)[j] == tf);
                        assert(oldlen + j == h);
                    }
                }
            }
        } else {
            proof {
                assert(arrived_flyers(oldfs.take(i as int + 1), delta) == prevarr);
                assert(surviving_flyers(oldfs.take(i as int + 1), delta) == prevsurv.push(tf));
            }
            kept.push(moved);
        }
        i = i + 1;
    }
    proof {
        assert(oldfs.take(n as int) =~= oldfs);
    }
    *flyers = kept;
}

} // verus!
