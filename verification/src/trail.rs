//! The per-player movement trail: an append-only waypoint buffer, newest
//! first, with distance-indexed sampling.
//!
//! Sampling walks the buffer from the front, adding up the (optionally
//! wrap-aware) step lengths until the requested distance falls inside a
//! step, then interpolates within that step.  A distance beyond the whole
//! buffer clamps to the oldest stored point.

use crate::geometry::{
    dist2,
    euclidean_distance,
    interp_axis,
    interpolate_with_wraparound,
    lerp_toward,
    calculate_wraparound_distance,
    sqrt_floor,
    spec_euclidean_distance,
    wrapped_dist2,
    MapBounds,
    Vec2,
    COORD_LIMIT,
};
use crate::timer::{RepeatingTimer, MAX_TIME};
use vstd::prelude::*;

verus! {

/// Most points a trail stores before the oldest are discarded.
pub const MAX_TRAIL_LENGTH: usize = 1000;

/// A new sample closer than this to the stored front is dropped.
pub const MIN_SAMPLE_DISTANCE: i64 = 5;

/// Milliseconds between trail samples.
pub const MOVEMENT_SAMPLE_RATE: u64 = 100;

/// The step length between two consecutive trail points: wrap-aware when
/// map bounds are given, plain Euclidean otherwise.
pub open spec fn trail_step(a: Vec2, b: Vec2, ob: Option<MapBounds>) -> int {
    match ob {
        Some(bounds) => sqrt_floor(wrapped_dist2(a, b, bounds)),
        None => sqrt_floor(dist2(a, b)),
    }
}

/// Index of the step of `pts` in which the point at distance `d` from the
/// front lies; `pts.len() - 1` when the whole buffer is shorter than `d`.
pub open spec fn trail_index_at(pts: Seq<Vec2>, d: int, ob: Option<MapBounds>) -> int
    decreases pts.len(),
{
    if pts.len() <= 1 {
        0
    } else {
        let s = trail_step(pts[0], pts[1], ob);
        if d <= 0 {
            0
        } else if s >= d {
            0
        } else {
            1 + trail_index_at(pts.drop_first(), d - s, ob)
        }
    }
}

/// Distance left to walk into the step `trail_index_at` picked.
pub open spec fn trail_remaining_at(pts: Seq<Vec2>, d: int, ob: Option<MapBounds>) -> int
    decreases pts.len(),
{
    if pts.len() <= 1 {
        0
    } else {
        let s = trail_step(pts[0], pts[1], ob);
        if d <= 0 {
            0
        } else if s >= d {
            d
        } else {
            trail_remaining_at(pts.drop_first(), d - s, ob)
        }
    }
}

/// The point of `pts` at walked distance `d` from the front: the point of
/// the step `trail_index_at` picked, moved `trail_remaining_at` units into
/// that step; the oldest point when the buffer runs out first.
pub open spec fn trail_point_at(pts: Seq<Vec2>, d: int, ob: Option<MapBounds>) -> (int, int) {
    let i = trail_index_at(pts, d, ob);
    let rem = trail_remaining_at(pts, d, ob);
    if i >= pts.len() - 1 {
        (pts[pts.len() - 1].x as int, pts[pts.len() - 1].y as int)
    } else if rem == 0 {
        (pts[i].x as int, pts[i].y as int)
    } else {
        let s = trail_step(pts[i], pts[i + 1], ob);
        match ob {
            Some(bounds) => (
                interp_axis(pts[i].x as int, pts[i + 1].x as int, rem, s, bounds.half_width as int),
                interp_axis(pts[i].y as int, pts[i + 1].y as int, rem, s, bounds.half_height as int),
            ),
            None => (
                lerp_toward(pts[i].x as int, pts[i + 1].x - pts[i].x, rem, s),
                lerp_toward(pts[i].y as int, pts[i + 1].y - pts[i].y, rem, s),
            ),
        }
    }
}

pub open spec fn all_in_limit(pts: Seq<Vec2>) -> bool {
    forall|i: int| 0 <= i < pts.len() ==> (#[trigger] pts[i]).in_limit()
}

pub open spec fn all_in_bounds(pts: Seq<Vec2>, bounds: MapBounds) -> bool {
    forall|i: int| 0 <= i < pts.len() ==> (#[trigger] pts[i]).in_bounds(bounds)
}

/// A player's recorded movement history, newest point first.
pub struct MovementTrail {
    pub positions: Vec<Vec2>,
    pub sample_timer: RepeatingTimer,
    pub max_trail_length: usize,
    pub min_sample_distance: i64,
}

impl MovementTrail {
    pub open spec fn wf(self) -> bool {
        &&& self.sample_timer.wf()
        &&& 1 <= self.max_trail_length
        &&& 0 <= self.min_sample_distance <= COORD_LIMIT
        &&& self.positions@.len() <= self.max_trail_length
        &&& all_in_limit(self.positions@)
    }

    /// A fresh, empty trail with the standard sampling parameters.
    pub fn new() -> (r: MovementTrail)
        ensures
            r.positions@ == Seq::<Vec2>::empty(),
            r.sample_timer == (RepeatingTimer { acc: 0, period: MOVEMENT_SAMPLE_RATE }),
            r.max_trail_length == MAX_TRAIL_LENGTH,
            r.min_sample_distance == MIN_SAMPLE_DISTANCE,
            r.wf(),
    {
        MovementTrail {
            positions: Vec::new(),
            sample_timer: RepeatingTimer::new(MOVEMENT_SAMPLE_RATE),
            max_trail_length: MAX_TRAIL_LENGTH,
            min_sample_distance: MIN_SAMPLE_DISTANCE,
        }
    }

    /// Whether a sample at `p` would be dropped as a near-duplicate of the
    /// stored front point.
    pub open spec fn spec_skips(self, p: Vec2) -> bool {
        self.positions@.len() > 0 && spec_euclidean_distance(self.positions@[0], p)
            < self.min_sample_distance
    }

    /// Adds a sampled position to the front of the buffer, unless it is
    /// within the minimum sample distance of the current front; then drops
    /// the oldest points down to the capacity limit.
    pub fn add_position(&mut self, p: Vec2)
        requires
            old(self).wf(),
            p.in_limit(),
        ensures
            final(self).wf(),
            final(self).sample_timer == old(self).sample_timer,
            final(self).max_trail_length == old(self).max_trail_length,
            final(self).min_sample_distance == old(self).min_sample_distance,
            old(self).spec_skips(p) ==> final(self).positions@ == old(self).positions@,
            !old(self).spec_skips(p) ==> final(self).positions@ == (seq![p]
                + old(self).positions@).take(
                if old(self).positions@.len() + 1 <= old(self).max_trail_length {
                    old(self).positions@.len() as int + 1
                } else {
                    old(self).max_trail_length as int
                },
            ),
    {
        if self.positions.len() > 0 {
            let front = self.positions[0];
            let d = euclidean_distance(front, p);
            if d < self.min_sample_distance {
                return ;
            }
        }
        self.positions.insert(0, p);
        if self.positions.len() > self.max_trail_length {
            self.positions.truncate(self.max_trail_length);
        }
        proof {
            assert(self.positions@ =~= (seq![p] + old(self).positions@).take(
                if old(self).positions@.len() + 1 <= old(self).max_trail_length {
                    old(self).positions@.len() as int + 1
                } else {
                    old(self).max_trail_length as int
                },
            ));
        }
    }

    /// Ticks the sampling timer by the frame delta and records the player's
    /// position when the timer fires.
    pub fn track_player_movement(&mut self, position: Vec2, delta: u64)
        requires
            old(self).wf(),
            position.in_limit(),
            delta <= MAX_TIME,
        ensures
            final(self).wf(),
            final(self).max_trail_length == old(self).max_trail_length,
            final(self).min_sample_distance == old(self).min_sample_distance,
            final(self).sample_timer.period == old(self).sample_timer.period,
            final(self).sample_timer.acc == (old(self).sample_timer.acc + delta) % (old(self).sample_timer.period as int),
            old(self).sample_timer.acc + delta < old(self).sample_timer.period ==> final(
                self
            ).positions@ == old(self).positions@,
            old(self).sample_timer.acc + delta >= old(self).sample_timer.period ==> {
                let skipped = old(self).spec_skips(position);
                &&& skipped ==> final(self).positions@ == old(self).positions@
                &&& !skipped ==> final(self).positions@ == (seq![position]
                    + old(self).positions@).take(
                    if old(self).positions@.len() + 1 <= old(self).max_trail_length {
                        old(self).positions@.len() as int + 1
                    } else {
                        old(self).max_trail_length as int
                    },
                )
            },
    {
        let fired = self.sample_timer.tick(delta);
        if fired {
            self.add_position(position);
        }
    }

    /// Walks the buffer from the front until the accumulated step length
    /// reaches `d`, interpolating inside the step where the walk stops.
    /// Wrap-aware when `bounds` are given.  Returns the oldest point when
    /// the buffer is shorter than `d`, and nothing only when it is empty.
    fn position_at_distance_impl(&self, d: i64, ob: Option<MapBounds>) -> (r: Option<Vec2>)
        requires
            self.wf(),
            d >= 0,
            ob matches Some(bounds) ==> bounds.wf(),
        ensures
            (r is Some) <==> self.positions@.len() > 0,
            r matches Some(p) ==> {
                let spec_ob = if ob is Some {
                    Some(ob->0)
                } else {
                    None
                };
                (p.x as int, p.y as int) == trail_point_at(self.positions@, d as int, spec_ob)
            },
            r matches Some(p) ==> (ob is None ==> p.in_limit()),
            r matches Some(p) ==> (ob matches Some(bounds) ==> (all_in_bounds(
                self.positions@,
                bounds,
            ) ==> p.in_bounds(bounds))),
    {
        let ghost pts = self.positions@;
        let ghost spec_ob = if ob is Some { Some(ob->0) } else { None };
        let n = self.positions.len();
        if n == 0 {
            return None;
        }
        let mut acc: u64 = 0;
        let mut i: usize = 0;
        proof {
            assert(pts.skip(0) =~= pts);
        }
        while i < n - 1
            invariant
                self.wf(),
                pts == self.positions@,
                n == pts.len(),
                0 < n,
                ob matches Some(bounds) ==> bounds.wf(),
                spec_ob == if ob is Some { Some(ob->0) } else { None::<MapBounds> },
                0 <= i < n,
                0 <= d,
                acc <= d as u64,
                trail_index_at(pts, d as int, spec_ob) == i + trail_index_at(
                    pts.skip(i as int),
                    d - acc,
                    spec_ob,
                ),
                trail_remaining_at(pts, d as int, spec_ob) == trail_remaining_at(
                    pts.skip(i as int),
                    d - acc,
                    spec_ob,
                ),
            decreases n - i,
        {
            let cur = self.positions[i];
            let nxt = self.positions[i + 1];
            let s: i64 = match ob {
                Some(bounds) => calculate_wraparound_distance(cur, nxt, bounds),
                None => euclidean_distance(cur, nxt),
            };
            proof {
                assert(pts.skip(i as int)[0] == pts[i as int]);
                assert(pts.skip(i as int)[1] == pts[i as int + 1]);
                assert(pts.skip(i as int).drop_first() =~= pts.skip(i as int + 1));
            }
            let rem = d - acc as i64;
            if s >= rem {
                if rem == 0 {
                    return Some(cur);
                }
                let p = match ob {
                    Some(bounds) => interpolate_with_wraparound(
                        cur,
                        nxt,
                        rem as u64,
                        s as u64,
                        bounds,
                    ),
                    None => {
                        let x = crate::geometry::lerp_point_coord(cur.x, nxt.x, rem as u64, s as u64);
                        let y = crate::geometry::lerp_point_coord(cur.y, nxt.y, rem as u64, s as u64);
                        Vec2 { x, y }
                    },
                };
                return Some(p);
            }
            acc = acc + s as u64;
            i = i + 1;
        }
        proof {
            assert(pts.skip(i as int).len() == 1);
            assert(pts.skip(i as int)[0] == pts[i as int]);
        }
        Some(self.positions[n - 1])
    }

    /// Point at walked distance `d` behind the player, measuring steps with
    /// the plain Euclidean metric.
    pub fn get_position_at_distance(&self, d: i64) -> (r: Option<Vec2>)
        requires
            self.wf(),
            d >= 0,
        ensures
            (r is Some) <==> self.positions@.len() > 0,
            r matches Some(p) ==> (p.x as int, p.y as int) == trail_point_at(
                self.positions@,
                d as int,
                None,
            ),
            r matches Some(p) ==> p.in_limit(),
    {
        self.position_at_distance_impl(d, None)
    }

    /// Point at walked distance `d` behind the player, measuring steps and
    /// interpolating with wrap-around awareness.
    pub fn get_position_at_distance_with_wraparound(&self, d: i64, bounds: MapBounds) -> (r: Option<
        Vec2,
    >)
        requires
            self.wf(),
            d >= 0,
            bounds.wf(),
        ensures
            (r is Some) <==> self.positions@.len() > 0,
            r matches Some(p) ==> (p.x as int, p.y as int) == trail_point_at(
                self.positions@,
                d as int,
                Some(bounds),
            ),
            r matches Some(p) ==> (all_in_bounds(self.positions@, bounds) ==> p.in_bounds(
                bounds,
            )),
    {
        self.position_at_distance_impl(d, Some(bounds))
    }
}

/// Sampling never moves backward along the buffer: a smaller query distance
/// stops at an earlier step, or at the same step with no more of it walked.
pub proof fn lemma_trail_monotonic(pts: Seq<Vec2>, d1: int, d2: int, ob: Option<MapBounds>)
    requires
        0 <= d1 <= d2,
    ensures
        trail_index_at(pts, d1, ob) <= trail_index_at(pts, d2, ob),
        trail_index_at(pts, d1, ob) == trail_index_at(pts, d2, ob) ==> trail_remaining_at(
            pts,
            d1,
            ob,
        ) <= trail_remaining_at(pts, d2, ob),
    decreases pts.len(),
{
    lemma_trail_index_nonneg(pts, d1, ob);
    lemma_trail_index_nonneg(pts, d2, ob);
    if pts.len() <= 1 {
    } else {
        let s = trail_step(pts[0], pts[1], ob);
        if d2 <= 0 {
        } else if s >= d2 {
        } else {
            if d1 <= 0 {
                lemma_trail_index_nonneg(pts.drop_first(), d2 - s, ob);
            } else if s >= d1 {
                lemma_trail_index_nonneg(pts.drop_first(), d2 - s, ob);
            } else {
                lemma_trail_monotonic(pts.drop_first(), d1 - s, d2 - s, ob);
            }
        }
    }
}

pub proof fn lemma_trail_index_nonneg(pts: Seq<Vec2>, d: int, ob: Option<MapBounds>)
    ensures
        trail_index_at(pts, d, ob) >= 0,
        trail_index_at(pts, d, ob) <= pts.len() - 1 || pts.len() == 0,
    decreases pts.len(),
{
    if pts.len() <= 1 {
    } else {
        let s = trail_step(pts[0], pts[1], ob);
        if d <= 0 {
        } else if s >= d {
        } else {
            lemma_trail_index_nonneg(pts.drop_first(), d - s, ob);
        }
    }
}

} // verus!
