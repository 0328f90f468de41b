//! The merge engine: runs of equal-kind adjacent segments collapse into one
//! upgraded segment, rate-limited by a per-player cooldown.

use crate::chain::{is_live_slot, PlayerChain, SegmentArena, SegmentEntity};
use crate::geometry::{lerp_point_coord, lerp_toward, Vec2};
use crate::segment::{ChainSegment, Rgb, MAX_MERGE_LEVEL};
use crate::timer::{CountdownTimer, MAX_TIME};
use vstd::prelude::*;

verus! {

/// Milliseconds the merge animation takes.
pub const MERGE_ANIMATION_DURATION: u64 = 800;

/// Minimum milliseconds between two merges of the same player.
pub const MERGE_COOLDOWN_DURATION: u64 = 1000;

/// Window size: how many adjacent equal segments merge into one.
pub const MIN_SEGMENTS_TO_MERGE: usize = 3;

/// The merge animation attached to one participating segment.
#[derive(Clone, Copy, PartialEq, Eq, Structural, Debug)]
pub struct ChainMerging {
    pub merge_timer: CountdownTimer,
    /// Where donors travel to: the surviving segment's position, captured
    /// once when the merge starts.
    pub target_position: Vec2,
    /// The segment's own position when the merge started.
    pub original_position: Vec2,
    /// Whether this segment survives and absorbs the others.
    pub is_target_segment: bool,
}

impl ChainMerging {
    pub open spec fn wf(self) -> bool {
        &&& self.merge_timer.wf()
        &&& self.target_position.in_limit()
        &&& self.original_position.in_limit()
    }

    pub fn new(target_pos: Vec2, original_pos: Vec2, is_target: bool) -> (r: ChainMerging)
        requires
            target_pos.in_limit(),
            original_pos.in_limit(),
        ensures
            r == (ChainMerging {
                merge_timer: CountdownTimer { elapsed: 0, duration: MERGE_ANIMATION_DURATION },
                target_position: target_pos,
                original_position: original_pos,
                is_target_segment: is_target,
            }),
            r.wf(),
    {
        ChainMerging {
            merge_timer: CountdownTimer::new(MERGE_ANIMATION_DURATION),
            target_position: target_pos,
            original_position: original_pos,
            is_target_segment: is_target,
        }
    }
}

/// The log entries still younger than twice the cooldown window at
/// `current_time`, in order.
pub open spec fn pruned_log(log: Seq<(u64, u64)>, current_time: u64) -> Seq<(u64, u64)> {
    log.filter(|e: (u64, u64)| current_time < e.1 + 2 * MERGE_COOLDOWN_DURATION)
}

/// Per-player merge rate limiting: a global cooldown timer plus a bounded
/// log of recent merge timestamps (milliseconds of game time).
pub struct ChainMergeState {
    pub merge_cooldown: CountdownTimer,
    pub recent_merges: Vec<(u64, u64)>,
}

impl ChainMergeState {
    pub open spec fn wf(self) -> bool {
        &&& self.merge_cooldown.wf()
        &&& forall|i: int|
            0 <= i < self.recent_merges@.len() ==> (#[trigger] self.recent_merges@[i]).1 <= MAX_TIME
    }

    pub fn new() -> (r: ChainMergeState)
        ensures
            r.merge_cooldown == (CountdownTimer {
                elapsed: MERGE_COOLDOWN_DURATION,
                duration: MERGE_COOLDOWN_DURATION,
            }),
            r.recent_merges@.len() == 0,
            r.wf(),
    {
        let mut cooldown = CountdownTimer::new(MERGE_COOLDOWN_DURATION);
        cooldown.tick(MERGE_COOLDOWN_DURATION);
        ChainMergeState { merge_cooldown: cooldown, recent_merges: Vec::new() }
    }

    /// Whether the player may start a merge at `current_time`: the global
    /// cooldown has run out and the log shows no merge of this player
    /// within the cooldown window.
    pub open spec fn spec_can_merge(self, player: u64, current_time: u64) -> bool {
        &&& self.merge_cooldown.spec_finished()
        &&& forall|i: int|
            0 <= i < self.recent_merges@.len() && (#[trigger] self.recent_merges@[i]).0 == player
                ==> current_time >= self.recent_merges@[i].1 + MERGE_COOLDOWN_DURATION
    }

    pub fn can_merge(&self, player_entity: u64, current_time: u64) -> (r: bool)
        requires
            self.wf(),
            current_time <= MAX_TIME,
        ensures
            r == self.spec_can_merge(player_entity, current_time),
    {
        if !self.merge_cooldown.finished() {
            return false;
        }
        let n = self.recent_merges.len();
        let mut i: usize = 0;
        while i < n
            invariant
                self.wf(),
                current_time <= MAX_TIME,
                n == self.recent_merges@.len(),
                0 <= i <= n,
                forall|k: int|
                    0 <= k < i && (#[trigger] self.recent_merges@[k]).0 == player_entity
                        ==> current_time >= self.recent_merges@[k].1 + MERGE_COOLDOWN_DURATION,
            decreases n - i,
        {
            let e = self.recent_merges[i];
            if e.0 == player_entity && current_time < e.1 + MERGE_COOLDOWN_DURATION {
                return false;
            }
            i = i + 1;
        }
        true
    }

    /// Records a merge of the player at `current_time`: restarts the global
    /// cooldown, logs the timestamp and prunes log entries older than twice
    /// the cooldown window.
    pub fn record_merge(&mut self, player_entity: u64, current_time: u64)
        requires
            old(self).wf(),
            current_time <= MAX_TIME,
        ensures
            final(self).wf(),
            final(self).merge_cooldown == (CountdownTimer {
                elapsed: 0,
                duration: old(self).merge_cooldown.duration,
            }),
            final(self).recent_merges@ == pruned_log(
                old(self).recent_merges@.push((player_entity, current_time)),
                current_time,
            ),
    {
        self.recent_merges.push((player_entity, current_time));
        self.merge_cooldown.reset();
        let ghost full = self.recent_merges@;
        let n = self.recent_merges.len();
        let mut kept: Vec<(u64, u64)> = Vec::new();
        let mut i: usize = 0;
        proof {
            reveal_with_fuel(Seq::filter, 2);
            assert(pruned_log(full.take(0), current_time) =~= Seq::<(u64, u64)>::empty());
        }
        while i < n
            invariant
                current_time <= MAX_TIME,
                self.merge_cooldown == (CountdownTimer {
                    elapsed: 0,
                    duration: old(self).merge_cooldown.duration,
                }),
                old(self).merge_cooldown.wf(),
                full == self.recent_merges@,
                n == full.len(),
                0 <= i <= n,
                forall|k: int| 0 <= k < n ==> (#[trigger] full[k]).1 <= MAX_TIME,
                kept@ == pruned_log(full.take(i as int), current_time),
            decreases n - i,
        {
            let e = self.recent_merges[i];
            proof {
                reveal_with_fuel(Seq::filter, 2);
                assert(full.take(i + 1).drop_last() =~= full.take(i as int));
                assert(full.take(i + 1).last() == e);
            }
            if current_time < e.1 + 2 * MERGE_COOLDOWN_DURATION {
                kept.push(e);
            }
            i = i + 1;
        }
        proof {
            assert(full.take(n as int) =~= full);
        }
        self.recent_merges = kept;
        proof {
            lemma_filter_timestamps(
                old(self).recent_merges@.push((player_entity, current_time)),
                current_time,
            );
        }
    }
}

/// Filtering the merge log keeps only entries that already satisfied the
/// well-formedness bound.
proof fn lemma_filter_timestamps(entries: Seq<(u64, u64)>, current_time: u64)
    requires
        forall|i: int| 0 <= i < entries.len() ==> (#[trigger] entries[i]).1 <= MAX_TIME,
    ensures
        forall|i: int|
            0 <= i < pruned_log(entries, current_time).len() ==> (#[trigger] pruned_log(
                entries,
                current_time,
            )[i]).1 <= MAX_TIME,
    decreases entries.len(),
{
    let f = |e: (u64, u64)| current_time < e.1 + 2 * MERGE_COOLDOWN_DURATION;
    reveal_with_fuel(Seq::filter, 2);
    if entries.len() == 0 {
        assert(entries.filter(f) =~= Seq::<(u64, u64)>::empty());
    } else {
        let prefix = entries.drop_last();
        assert(forall|i: int| 0 <= i < prefix.len() ==> (#[trigger] prefix[i]).1 <= MAX_TIME);
        lemma_filter_timestamps(prefix, current_time);
        let fl = pruned_log(entries, current_time);
        let pfl = pruned_log(prefix, current_time);
        assert(entries.last().1 <= MAX_TIME);
        assert forall|i: int| 0 <= i < fl.len() implies (#[trigger] fl[i]).1 <= MAX_TIME by {
            if i < pfl.len() {
                assert(fl[i] == pfl[i]);
            } else {
                assert(fl[i] == entries.last());
            }
        }
    }
}


/// Pruning never drops a log entry that is still younger than twice the
/// cooldown window; in particular a merge logged less than one cooldown
/// ago survives every prune, so the cooldown check always sees it.
pub proof fn lemma_prune_keeps_recent(log: Seq<(u64, u64)>, current_time: u64, entry: (u64, u64))
    requires
        log.contains(entry),
        current_time < entry.1 + 2 * MERGE_COOLDOWN_DURATION,
    ensures
        pruned_log(log, current_time).contains(entry),
    decreases log.len(),
{
    reveal_with_fuel(Seq::filter, 2);
    let f = |e: (u64, u64)| current_time < e.1 + 2 * MERGE_COOLDOWN_DURATION;
    if log.len() == 0 {
    } else {
        let prefix = log.drop_last();
        if log.last() == entry {
            assert(f(entry));
            assert(pruned_log(log, current_time).last() == entry);
        } else {
            let k = choose|k: int| 0 <= k < log.len() && log[k] == entry;
            assert(prefix[k] == entry);
            assert(prefix.contains(entry));
            lemma_prune_keeps_recent(prefix, current_time, entry);
            let rest = pruned_log(prefix, current_time);
            let q = choose|q: int| 0 <= q < rest.len() && rest[q] == entry;
            if f(log.last()) {
                assert(pruned_log(log, current_time)[q] == entry);
            } else {
                assert(pruned_log(log, current_time) == rest);
            }
        }
    }
}

/// Cooldown enforcement: while a logged merge of the player is younger than
/// the cooldown window, no further merge of that player can start; so two
/// merges whose first is still in the log are at least the cooldown apart.
pub proof fn lemma_cooldown_enforced(
    state: ChainMergeState,
    player: u64,
    t1: u64,
    current_time: u64,
)
    requires
        state.recent_merges@.contains((player, t1)),
        state.spec_can_merge(player, current_time),
    ensures
        current_time >= t1 + MERGE_COOLDOWN_DURATION,
{
    let i = choose|i: int|
        0 <= i < state.recent_merges@.len() && state.recent_merges@[i] == (player, t1);
    assert(state.recent_merges@[i].0 == player);
}

/// What the merge scan reads of one live, idle segment.
#[derive(Clone, Copy, PartialEq, Eq, Structural, Debug)]
pub struct MergeCandidate {
    pub handle: usize,
    pub option_id: usize,
    pub level: u32,
    pub segment_index: usize,
    pub base_color: Rgb,
}

/// A live segment of the player that is neither reacting nor already
/// merging: only these take part in merge detection.
pub open spec fn merge_eligible(slots: Seq<Option<SegmentEntity>>, player: u64, h: int) -> bool {
    &&& is_live_slot(slots, h)
    &&& slots[h]->0.owner == player
    &&& slots[h]->0.reaction is None
    &&& slots[h]->0.merging is None
}

pub open spec fn candidate_of(slots: Seq<Option<SegmentEntity>>, h: usize) -> MergeCandidate {
    MergeCandidate {
        handle: h,
        option_id: slots[h as int]->0.segment.option_id,
        level: slots[h as int]->0.segment.level,
        segment_index: slots[h as int]->0.segment.segment_index,
        base_color: slots[h as int]->0.segment.base_color,
    }
}

/// The player's live, idle segments in chain order, as the merge scan
/// sees them.
pub open spec fn merge_candidates(
    slots: Seq<Option<SegmentEntity>>,
    handles: Seq<usize>,
    player: u64,
) -> Seq<MergeCandidate>
    decreases handles.len(),
{
    if handles.len() == 0 {
        Seq::empty()
    } else {
        let rest = merge_candidates(slots, handles.drop_last(), player);
        if merge_eligible(slots, player, handles.last() as int) {
            rest.push(candidate_of(slots, handles.last()))
        } else {
            rest
        }
    }
}

/// Whether the window of `MIN_SEGMENTS_TO_MERGE` candidates starting at
/// `w` is mergeable: same kind, same level, and that level below the top
/// tier.
pub open spec fn mergeable_at(cands: Seq<MergeCandidate>, w: int) -> bool {
    &&& 0 <= w
    &&& w + MIN_SEGMENTS_TO_MERGE <= cands.len()
    &&& forall|j: int|
        w <= j < w + MIN_SEGMENTS_TO_MERGE ==> (#[trigger] cands[j]).option_id == cands[w].option_id
            && cands[j].level == cands[w].level
    &&& cands[w].level < MAX_MERGE_LEVEL
}

/// A detected merge: the participating segments (handle and chain index),
/// their shared color, and the tier the survivor is upgraded to.
pub struct ChainMergeEvent {
    pub player_entity: u64,
    pub merge_segments: Vec<(usize, usize)>,
    pub option_color: Rgb,
    pub new_level: u32,
}

/// Slides the merge window across the player's live, idle segments and
/// reports the first mergeable run, if the player's cooldown allows a
/// merge at all.  At most one merge is triggered per detection pass: the
/// first window found wins, pacing chained merges through the cooldown.
pub fn detect_chain_merges(
    merge_state: &ChainMergeState,
    arena: &SegmentArena,
    chain: &PlayerChain,
    player_entity: u64,
    current_time: u64,
) -> (r: Option<ChainMergeEvent>)
    requires
        merge_state.wf(),
        arena.wf(),
        chain.wf(*arena),
        current_time <= MAX_TIME,
    ensures
        !merge_state.spec_can_merge(player_entity, current_time) ==> r is None,
        merge_state.spec_can_merge(player_entity, current_time) ==> {
            let cands = merge_candidates(arena.slots@, chain.segments@, player_entity);
            &&& ((r is Some) <==> exists|w: int| mergeable_at(cands, w))
            &&& (r matches Some(ev) ==> exists|w: int|
                {
                    &&& mergeable_at(cands, w)
                    &&& forall|w2: int| 0 <= w2 < w ==> !mergeable_at(cands, w2)
                    &&& ev.player_entity == player_entity
                    &&& ev.new_level == cands[w].level + 1
                    &&& ev.option_color == cands[w].base_color
                    &&& ev.merge_segments@.len() == MIN_SEGMENTS_TO_MERGE
                    &&& forall|j: int|
                        0 <= j < MIN_SEGMENTS_TO_MERGE ==> (#[trigger] ev.merge_segments@[j])
                            == (cands[w + j].handle, cands[w + j].segment_index)
                })
        },
{
    if !merge_state.can_merge(player_entity, current_time) {
        return None;
    }
    let ghost slots = arena.slots@;
    let ghost handles = chain.segments@;
    let n = chain.segments.len();
    let mut cands: Vec<MergeCandidate> = Vec::new();
    let mut i: usize = 0;
    while i < n
        invariant
            arena.wf(),
            chain.wf(*arena),
            slots == arena.slots@,
            handles == chain.segments@,
            n == handles.len(),
            0 <= i <= n,
            cands@ == merge_candidates(slots, handles.take(i as int), player_entity),
        decreases n - i,
    {
        let hd = chain.segments[i];
        proof {
            assert(handles.take(i as int + 1).drop_last() =~= handles.take(i as int));
            assert(handles.take(i as int + 1).last() == hd);
        }
        match arena.read(hd) {
            Some(e) => {
                if e.owner == player_entity && match e.reaction {
                    Some(_) => false,
                    None => true,
                } && match e.merging {
                    Some(_) => false,
                    None => true,
                } {
                    cands.push(
                        MergeCandidate {
                            handle: hd,
                            option_id: e.segment.option_id,
                            level: e.segment.level,
                            segment_index: e.segment.segment_index,
                            base_color: e.segment.base_color,
                        },
                    );
                }
            },
            None => {},
        }
        i = i + 1;
    }
    proof {
        assert(handles.take(n as int) =~= handles);
    }
    let m = cands.len();
    if m < MIN_SEGMENTS_TO_MERGE {
        proof {
            assert forall|w: int| !mergeable_at(cands@, w) by {}
        }
        return None;
    }
    let mut w: usize = 0;
    while w <= m - MIN_SEGMENTS_TO_MERGE
        invariant
            merge_state.spec_can_merge(player_entity, current_time),
            slots == arena.slots@,
            handles == chain.segments@,
            cands@ == merge_candidates(slots, handles, player_entity),
            m == cands@.len(),
            m >= MIN_SEGMENTS_TO_MERGE,
            0 <= w <= m - MIN_SEGMENTS_TO_MERGE + 1,
            forall|w2: int| 0 <= w2 < w ==> !mergeable_at(cands@, w2),
        decreases m - w,
    {
        let c0 = cands[w];
        let c1 = cands[w + 1];
        let c2 = cands[w + 2];
        let window_ok = c1.option_id == c0.option_id && c2.option_id == c0.option_id && c1.level
            == c0.level && c2.level == c0.level && c0.level < MAX_MERGE_LEVEL;
        if window_ok {
            proof {
                assert forall|j: int|
                    w <= j < w + MIN_SEGMENTS_TO_MERGE implies (#[trigger] cands@[j]).option_id
                        == cands@[w as int].option_id && cands@[j].level
                        == cands@[w as int].level by {
                    if j == w + 1 {
                        assert(cands@[j] == c1);
                    } else if j == w + 2 {
                        assert(cands@[j] == c2);
                    }
                }
                assert(mergeable_at(cands@, w as int));
            }
            let mut segs: Vec<(usize, usize)> = Vec::new();
            segs.push((c0.handle, c0.segment_index));
            segs.push((c1.handle, c1.segment_index));
            segs.push((c2.handle, c2.segment_index));
            return Some(
                ChainMergeEvent {
                    player_entity,
                    merge_segments: segs,
                    option_color: c0.base_color,
                    new_level: c0.level + 1,
                },
            );
        }
        proof {
            assert(!mergeable_at(cands@, w as int));
        }
        w = w + 1;
    }
    proof {
        assert forall|w2: int| !mergeable_at(cands@, w2) by {}
    }
    None
}

/// Where the participant at position `i` of the merge travels to: the
/// survivor keeps its own spot; donors head for the survivor's position as
/// it was when the merge started (or stay put if the survivor is already
/// gone).
pub open spec fn spec_merge_target(
    slots: Seq<Option<SegmentEntity>>,
    segs: Seq<(usize, usize)>,
    i: int,
) -> Vec2 {
    let target_idx = segs.len() as int / 2;
    let own = slots[segs[i].0 as int]->0.position;
    if i == target_idx {
        own
    } else if is_live_slot(slots, segs[target_idx].0 as int) {
        slots[segs[target_idx].0 as int]->0.position
    } else {
        own
    }
}

/// No participant handle occurs twice.
pub open spec fn distinct_participants(segs: Seq<(usize, usize)>) -> bool {
    forall|i: int, j: int| 0 <= i < j < segs.len() ==> (#[trigger] segs[i]).0 != (
    #[trigger] segs[j]).0
}

/// Starts the merge animation for a detected merge: the merge is logged
/// against the player's cooldown, the middle participant becomes the
/// survivor, and every living participant gets a merge animation from its
/// current spot toward the survivor's (captured once, before any motion).
/// Participants that died since detection are skipped.
pub fn handle_chain_merge_events(
    event: &ChainMergeEvent,
    merge_state: &mut ChainMergeState,
    arena: &mut SegmentArena,
    current_time: u64,
)
    requires
        old(merge_state).wf(),
        old(arena).wf(),
        current_time <= MAX_TIME,
        event.merge_segments@.len() > 0,
        distinct_participants(event.merge_segments@),
    ensures
        final(merge_state).wf(),
        final(arena).wf(),
        final(arena).slots@.len() == old(arena).slots@.len(),
        final(merge_state).merge_cooldown == (CountdownTimer {
            elapsed: 0,
            duration: old(merge_state).merge_cooldown.duration,
        }),
        final(merge_state).recent_merges@ == pruned_log(
            old(merge_state).recent_merges@.push((event.player_entity, current_time)),
            current_time,
        ),
        forall|i: int|
            0 <= i < event.merge_segments@.len() ==> {
                let hd = (#[trigger] event.merge_segments@[i]).0 as int;
                &&& (old(arena).live(hd) ==> final(arena).slots@[hd] == Some(
                    SegmentEntity {
                        owner: old(arena).entity(hd).owner,
                        segment: old(arena).entity(hd).segment,
                        position: old(arena).entity(hd).position,
                        scale_permille: old(arena).entity(hd).scale_permille,
                        reaction: old(arena).entity(hd).reaction,
                        merging: Some(
                            ChainMerging {
                                merge_timer: CountdownTimer {
                                    elapsed: 0,
                                    duration: MERGE_ANIMATION_DURATION,
                                },
                                target_position: spec_merge_target(
                                    old(arena).slots@,
                                    event.merge_segments@,
                                    i,
                                ),
                                original_position: old(arena).entity(hd).position,
                                is_target_segment: i == event.merge_segments@.len() as int / 2,
                            },
                        ),
                    },
                ))
                &&& (!old(arena).live(hd) && 0 <= hd < old(arena).slots@.len() ==> final(
                    arena
                ).slots@[hd] == old(arena).slots@[hd])
            },
        forall|j: int|
            0 <= j < old(arena).slots@.len() && (forall|i: int|
                0 <= i < event.merge_segments@.len() ==> (#[trigger] event.merge_segments@[i]).0
                    != j) ==> final(arena).slots@[j] == old(arena).slots@[j],
{
    let ghost oldslots = arena.slots@;
    let ghost segs = event.merge_segments@;
    merge_state.record_merge(event.player_entity, current_time);
    let n = event.merge_segments.len();
    let target_index = n / 2;
    let (target_handle, _ti) = event.merge_segments[target_index];
    let target_pos: Option<Vec2> = match arena.read(target_handle) {
        Some(te) => Some(te.position),
        None => None,
    };
    let mut i: usize = 0;
    while i < n
        invariant
            old(arena).wf(),
            segs == event.merge_segments@,
            n == segs.len(),
            n > 0,
            distinct_participants(segs),
            target_index == n / 2,
            target_handle == segs[target_index as int].0,
            oldslots == old(arena).slots@,
            (target_pos matches Some(p)) == is_live_slot(oldslots, target_handle as int),
            target_pos matches Some(p) ==> p == oldslots[target_handle as int]->0.position,
            0 <= i <= n,
            arena.slots@.len() == oldslots.len(),
            arena.wf(),
            forall|k: int|
                0 <= k < i ==> {
                    let hd = (#[trigger] segs[k]).0 as int;
                    &&& (is_live_slot(oldslots, hd) ==> arena.slots@[hd] == Some(
                        SegmentEntity {
                            owner: oldslots[hd]->0.owner,
                            segment: oldslots[hd]->0.segment,
                            position: oldslots[hd]->0.position,
                            scale_permille: oldslots[hd]->0.scale_permille,
                            reaction: oldslots[hd]->0.reaction,
                            merging: Some(
                                ChainMerging {
                                    merge_timer: CountdownTimer {
                                        elapsed: 0,
                                        duration: MERGE_ANIMATION_DURATION,
                                    },
                                    target_position: spec_merge_target(oldslots, segs, k),
                                    original_position: oldslots[hd]->0.position,
                                    is_target_segment: k == n as int / 2,
                                },
                            ),
                        },
                    ))
                    &&& (!is_live_slot(oldslots, hd) && 0 <= hd < oldslots.len()
                        ==> arena.slots@[hd] == oldslots[hd])
                },
            forall|j: int|
                0 <= j < oldslots.len() && (forall|k: int|
                    0 <= k < i ==> (#[trigger] segs[k]).0 != j) ==> arena.slots@[j] == oldslots[j],
        decreases n - i,
    {
        let (hd, _idx) = event.merge_segments[i];
        proof {
            assert forall|k: int| 0 <= k < i implies (#[trigger] segs[k]).0 != hd by {
                assert(segs[k].0 != segs[i as int].0);
            }
            assert(0 <= (hd as int) && (hd as int) < oldslots.len() ==> arena.slots@[hd as int] == oldslots[hd as int]);
        }
        match arena.read(hd) {
            Some(e) => {
                let is_target = i == target_index;
                let tpos = if is_target {
                    e.position
                } else {
                    match target_pos {
                        Some(p) => p,
                        None => e.position,
                    }
                };
                let own_pos = e.position;
                let mut updated = e;
                updated.merging = Some(ChainMerging::new(tpos, own_pos, is_target));
                arena.write(hd, updated);
            },
            None => {},
        }
        i = i + 1;
        proof {
            assert forall|j: int|
                0 <= j < oldslots.len() && (forall|k: int|
                    0 <= k < i ==> (#[trigger] segs[k]).0 != j) implies arena.slots@[j]
                == oldslots[j] by {
                assert(segs[i - 1].0 != j);
            }
        }
    }
}

/// A live segment of the player carrying a merge animation.
pub open spec fn merging_slot(slots: Seq<Option<SegmentEntity>>, player: u64, h: int) -> bool {
    &&& is_live_slot(slots, h)
    &&& slots[h]->0.owner == player
    &&& slots[h]->0.merging is Some
}

/// Scale (per-mille) of the surviving segment: grows to one and a half
/// times its size over the run (the fast pulse on top is a rendering
/// concern).
pub open spec fn merge_target_scale(elapsed: int, duration: int) -> int {
    1000 + (500 * elapsed) / duration
}

/// Scale (per-mille) of a donor segment: shrinks toward a tenth of its
/// size, never below it.
pub open spec fn merge_donor_scale(elapsed: int, duration: int) -> int {
    let s = 1000 - (800 * elapsed) / duration;
    if s < 100 {
        100
    } else {
        s
    }
}

/// A merging segment entity after one animation tick: the countdown
/// advances; the survivor grows in place while donors shrink and travel
/// from their starting spot to the survivor's.
pub open spec fn spec_merging_step(e: SegmentEntity, delta: u64) -> SegmentEntity
    recommends
        e.merging is Some,
{
    let m = e.merging->0;
    let t = m.merge_timer.spec_ticked(delta);
    let el = t.elapsed as int;
    let du = t.duration as int;
    let moved = ChainMerging {
        merge_timer: t,
        target_position: m.target_position,
        original_position: m.original_position,
        is_target_segment: m.is_target_segment,
    };
    if m.is_target_segment {
        SegmentEntity {
            owner: e.owner,
            segment: e.segment,
            position: e.position,
            scale_permille: merge_target_scale(el, du) as u64,
            reaction: e.reaction,
            merging: Some(moved),
        }
    } else {
        SegmentEntity {
            owner: e.owner,
            segment: e.segment,
            position: (Vec2 {
                x: lerp_toward(
                    m.original_position.x as int,
                    m.target_position.x - m.original_position.x,
                    el,
                    du,
                ) as i64,
                y: lerp_toward(
                    m.original_position.y as int,
                    m.target_position.y - m.original_position.y,
                    el,
                    du,
                ) as i64,
            }),
            scale_permille: merge_donor_scale(el, du) as u64,
            reaction: e.reaction,
            merging: Some(moved),
        }
    }
}

/// Whether the merge countdown runs out during this tick.
pub open spec fn merging_finished_after(e: SegmentEntity, delta: u64) -> bool {
    e.merging->0.merge_timer.spec_ticked(delta).spec_finished()
}

/// The survivor once its merge completes: one tier higher (capped at the
/// top tier), standing for the whole window, with the animation removed.
pub open spec fn spec_merge_completed(e: SegmentEntity, delta: u64) -> SegmentEntity {
    let stepped = spec_merging_step(e, delta);
    SegmentEntity {
        owner: stepped.owner,
        segment: ChainSegment {
            segment_index: stepped.segment.segment_index,
            option_text: stepped.segment.option_text,
            option_id: stepped.segment.option_id,
            base_color: stepped.segment.base_color,
            pulse_phase: stepped.segment.pulse_phase,
            level: if stepped.segment.level < MAX_MERGE_LEVEL {
                (stepped.segment.level + 1) as u32
            } else {
                stepped.segment.level
            },
            merge_value: MIN_SEGMENTS_TO_MERGE as u32,
        },
        position: stepped.position,
        scale_permille: stepped.scale_permille,
        reaction: stepped.reaction,
        merging: None,
    }
}

/// One animation tick of the player's merging segments.  Countdowns
/// advance; when one runs out, a donor despawns and the survivor is
/// upgraded in place.  Reports whether any merge completed, so the caller
/// runs the chain cleanup pass.
pub fn animate_merging_segments(arena: &mut SegmentArena, player_entity: u64, delta: u64) -> (
    cleanup: bool)
    requires
        old(arena).wf(),
        delta <= MAX_TIME,
    ensures
        final(arena).wf(),
        final(arena).slots@.len() == old(arena).slots@.len(),
        forall|h: int|
            0 <= h < old(arena).slots@.len() ==> {
                let slot = #[trigger] old(arena).slots@[h];
                &&& (merging_slot(old(arena).slots@, player_entity, h) ==> final(arena).slots@[h]
                    == (if merging_finished_after(slot->0, delta) {
                    if slot->0.merging->0.is_target_segment {
                        Some(spec_merge_completed(slot->0, delta))
                    } else {
                        None
                    }
                } else {
                    Some(spec_merging_step(slot->0, delta))
                }))
                &&& (!merging_slot(old(arena).slots@, player_entity, h)
                    ==> final(arena).slots@[h] == slot)
            },
        cleanup == exists|h: int|
            merging_slot(old(arena).slots@, player_entity, h) && merging_finished_after(
                (#[trigger] old(arena).slots@[h])->0,
                delta,
            ) && old(arena).slots@[h]->0.merging->0.is_target_segment,
{
    let ghost oldslots = arena.slots@;
    let nslots = arena.slots.len();
    let mut cleanup = false;
    let mut h: usize = 0;
    while h < nslots
        invariant
            old(arena).wf(),
            delta <= MAX_TIME,
            oldslots == old(arena).slots@,
            nslots == oldslots.len(),
            0 <= h <= nslots,
            arena.slots@.len() == nslots,
            arena.wf(),
            forall|j: int|
                0 <= j < h ==> {
                    let slot = #[trigger] oldslots[j];
                    &&& (merging_slot(oldslots, player_entity, j) ==> arena.slots@[j] == (
                    if merging_finished_after(slot->0, delta) {
                        if slot->0.merging->0.is_target_segment {
                            Some(spec_merge_completed(slot->0, delta))
                        } else {
                            None
                        }
                    } else {
                        Some(spec_merging_step(slot->0, delta))
                    }))
                    &&& (!merging_slot(oldslots, player_entity, j) ==> arena.slots@[j] == slot)
                },
            forall|j: int| h <= j < nslots ==> arena.slots@[j] == oldslots[j],
            cleanup == exists|j: int|
                0 <= j < h && merging_slot(oldslots, player_entity, j) && merging_finished_after(
                    (#[trigger] oldslots[j])->0,
                    delta,
                ) && oldslots[j]->0.merging->0.is_target_segment,
        decreases nslots - h,
    {
        let ghost oldcleanup = cleanup;
        let current = arena.read(h);
        match current {
            Some(e) => {
                if e.owner == player_entity {
                    match e.merging {
                        Some(m) => {
                            let mut timer = m.merge_timer;
                            timer.tick(delta);
                            let el = timer.elapsed;
                            let du = timer.duration;
                            if el >= du && !m.is_target_segment {
                                arena.despawn(h);
                            } else {
                                let mut updated = e;
                                if m.is_target_segment {
                                    updated.scale_permille = 1000 + (500 * el) / du;
                                } else {
                                    proof {
                                        assert((800 * el as int) / du as int <= 800) by {
                                            vstd::arithmetic::div_mod::lemma_div_is_ordered(
                                                800 * el as int,
                                                800 * du as int,
                                                du as int,
                                            );
                                            vstd::arithmetic::div_mod::lemma_div_multiples_vanish(
                                                800,
                                                du as int,
                                            );
                                            assert(800 * el as int <= 800 * du as int)
                                                by (nonlinear_arith)
                                                requires
                                                    0 <= el as int <= du as int,
                                            ;
                                            assert(800 * du as int == du as int * 800)
                                                by (nonlinear_arith);
                                        }
                                        vstd::arithmetic::div_mod::lemma_div_pos_is_pos(
                                            800 * el as int,
                                            du as int,
                                        );
                                    }
                                    let s = 1000 - (800 * el) / du;
                                    updated.scale_permille = if s < 100 {
                                        100
                                    } else {
                                        s
                                    };
                                    let x = lerp_point_coord(
                                        m.original_position.x,
                                        m.target_position.x,
                                        el,
                                        du,
                                    );
                                    let y = lerp_point_coord(
                                        m.original_position.y,
                                        m.target_position.y,
                                        el,
                                        du,
                                    );
                                    updated.position = Vec2 { x, y };
                                }
                                updated.merging = Some(
                                    ChainMerging {
                                        merge_timer: timer,
                                        target_position: m.target_position,
                                        original_position: m.original_position,
                                        is_target_segment: m.is_target_segment,
                                    },
                                );
                                if el >= du {
                                    let mut seg = updated.segment;
                                    if seg.level < MAX_MERGE_LEVEL {
                                        seg.level = seg.level + 1;
                                    }
                                    seg.merge_value = MIN_SEGMENTS_TO_MERGE as u32;
                                    updated.segment = seg;
                                    updated.merging = None;
                                    cleanup = true;
                                    proof {
                                        assert(merging_slot(oldslots, player_entity, h as int));
                                        assert(merging_finished_after(
                                            oldslots[h as int]->0,
                                            delta,
                                        ));
                                        assert(oldslots[h as int]->0.merging->0.is_target_segment);
                                    }
                                }
                                arena.write(h, updated);
                            }
                        },
                        None => {},
                    }
                }
            },
            None => {},
        }
        proof {
            if oldcleanup {
                let j0 = choose|j: int|
                    0 <= j < h && merging_slot(oldslots, player_entity, j)
                        && merging_finished_after(oldslots[j]->0, delta)
                        && oldslots[j]->0.merging->0.is_target_segment;
                assert(0 <= j0 < h + 1);
            }
        }
        h = h + 1;
    }
    cleanup
}

/// Advances the global merge cooldown by the frame delta.
pub fn update_merge_cooldown(merge_state: &mut ChainMergeState, delta: u64)
    requires
        old(merge_state).wf(),
        delta <= MAX_TIME,
    ensures
        final(merge_state).wf(),
        final(merge_state).recent_merges@ == old(merge_state).recent_merges@,
        final(merge_state).merge_cooldown == old(merge_state).merge_cooldown.spec_ticked(delta),
{
    merge_state.merge_cooldown.tick(delta);
}

} // verus!
