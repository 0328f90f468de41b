//! The chain registry: an arena of live segment entities addressed by
//! stable handles, and the per-player ordered chain of handles.
//!
//! The registry owns segment lifecycle (creation, eviction, despawning,
//! reindexing); the reaction and merge engines hold non-owning handles and
//! tolerate lookup misses.  Structural changes are deferred: removals leave
//! stale handles in the chain until the cleanup pass prunes and reindexes.

use crate::geometry::{MapBounds, Vec2};
use crate::merge::ChainMerging;
use crate::reaction::ChainReaction;
use crate::segment::{ChainSegment, Rgb, CHAIN_SEGMENT_SPACING};
use crate::trail::MovementTrail;
use vstd::prelude::*;

verus! {

/// Most segments a chain holds before the oldest is evicted.
pub const MAX_SEGMENTS: usize = 20;

/// Fraction (per-mille) of the gap to the trail target a segment covers
/// each repositioning pass: taut but elastic following.
pub const CHAIN_LERP_PERMILLE: u64 = 150;

/// One live entity of the arena: a chain segment together with its render
/// transform and any animation attached to it.
pub struct SegmentEntity {
    /// The player whose chain owns this segment.
    pub owner: u64,
    pub segment: ChainSegment,
    pub position: Vec2,
    /// Render scale in per-mille of the base size.
    pub scale_permille: u64,
    /// The destruction animation, while the reaction wave holds this
    /// segment.
    pub reaction: Option<ChainReaction>,
    /// The merge animation, while this segment takes part in a merge.
    pub merging: Option<ChainMerging>,
}

impl SegmentEntity {
    pub open spec fn wf(self) -> bool {
        &&& self.segment.wf()
        &&& self.position.in_limit()
        &&& (self.reaction matches Some(r) ==> r.wf())
        &&& (self.merging matches Some(m) ==> m.wf())
    }

    /// An owned copy equal to `self`.
    pub fn duplicate(&self) -> (r: SegmentEntity)
        ensures
            r == *self,
    {
        SegmentEntity {
            owner: self.owner,
            segment: self.segment.duplicate(),
            position: self.position,
            scale_permille: self.scale_permille,
            reaction: self.reaction,
            merging: self.merging,
        }
    }
}

pub open spec fn is_live_slot(slots: Seq<Option<SegmentEntity>>, h: int) -> bool {
    0 <= h < slots.len() && slots[h] is Some
}

/// The arena of segment entities.  A handle is a slot index; despawned
/// slots stay empty, so handles are stable and a stale handle reads as a
/// miss.
pub struct SegmentArena {
    pub slots: Vec<Option<SegmentEntity>>,
}

impl SegmentArena {
    /// The handle addresses a live (not despawned) entity.
    pub open spec fn live(self, h: int) -> bool {
        is_live_slot(self.slots@, h)
    }

    /// The entity behind a live handle.
    pub open spec fn entity(self, h: int) -> SegmentEntity
        recommends
            self.live(h),
    {
        self.slots@[h]->0
    }

    pub open spec fn wf(self) -> bool {
        forall|h: int|
            0 <= h < self.slots@.len() && self.slots@[h] is Some ==> (
            #[trigger] self.slots@[h])->0.wf()
    }

    /// Every live entity sits inside the map's canonical range.
    pub open spec fn in_bounds_for(self, bounds: MapBounds) -> bool {
        forall|h: int|
            0 <= h < self.slots@.len() && self.slots@[h] is Some ==> (
            #[trigger] self.slots@[h])->0.position.in_bounds(bounds)
    }

    pub fn new() -> (r: SegmentArena)
        ensures
            r.slots@.len() == 0,
            r.wf(),
    {
        SegmentArena { slots: Vec::new() }
    }

    pub fn len(&self) -> (r: usize)
        ensures
            r == self.slots@.len(),
    {
        self.slots.len()
    }

    pub fn is_live(&self, h: usize) -> (r: bool)
        ensures
            r == self.live(h as int),
    {
        if h < self.slots.len() {
            match &self.slots[h] {
                Some(_) => true,
                None => false,
            }
        } else {
            false
        }
    }

    /// A copy of the entity behind the handle; a miss for a stale handle.
    pub fn read(&self, h: usize) -> (r: Option<SegmentEntity>)
        ensures
            (r is Some) == self.live(h as int),
            r matches Some(e) ==> e == self.entity(h as int),
    {
        if h < self.slots.len() {
            match &self.slots[h] {
                Some(e) => Some(e.duplicate()),
                None => None,
            }
        } else {
            None
        }
    }

    /// Despawns the entity behind the handle (a miss does nothing).
    pub fn despawn(&mut self, h: usize)
        requires
            old(self).wf(),
        ensures
            final(self).wf(),
            final(self).slots@.len() == old(self).slots@.len(),
            h < old(self).slots@.len() ==> final(self).slots@ == old(self).slots@.update(
                h as int,
                None,
            ),
            h >= old(self).slots@.len() ==> final(self).slots@ == old(self).slots@,
    {
        if h < self.slots.len() {
            self.slots.set(h, None);
        }
    }

    /// Overwrites the entity behind a live handle.
    pub fn write(&mut self, h: usize, e: SegmentEntity)
        requires
            old(self).wf(),
            h < old(self).slots@.len(),
            e.wf(),
        ensures
            final(self).wf(),
            final(self).slots@ == old(self).slots@.update(h as int, Some(e)),
    {
        self.slots.set(h, Some(e));
    }
}

/// One player's ordered chain of segment handles.
pub struct PlayerChain {
    pub segments: Vec<usize>,
    pub max_segments: usize,
}

/// No handle occurs twice.
pub open spec fn distinct_handles(handles: Seq<usize>) -> bool {
    forall|i: int, j: int| 0 <= i < j < handles.len() ==> handles[i] != handles[j]
}

impl PlayerChain {
    pub open spec fn wf(self, arena: SegmentArena) -> bool {
        &&& 1 <= self.max_segments <= 1_000_000
        &&& self.segments@.len() <= self.max_segments
        &&& forall|i: int|
            0 <= i < self.segments@.len() ==> (#[trigger] self.segments@[i]) < arena.slots@.len()
        &&& distinct_handles(self.segments@)
    }

    /// Every live segment the chain references belongs to the player.
    pub open spec fn owned_by(self, arena: SegmentArena, player: u64) -> bool {
        forall|i: int|
            0 <= i < self.segments@.len() && arena.live(self.segments@[i] as int) ==> arena.entity(
                (#[trigger] self.segments@[i]) as int,
            ).owner == player
    }

    pub fn new() -> (r: PlayerChain)
        ensures
            r.segments@.len() == 0,
            r.max_segments == MAX_SEGMENTS,
    {
        PlayerChain { segments: Vec::new(), max_segments: MAX_SEGMENTS }
    }

    pub fn len(&self) -> (r: usize)
        ensures
            r == self.segments@.len(),
    {
        self.segments.len()
    }
}

impl SegmentArena {
    /// Spawns a new entity; its handle is the next slot index.
    pub fn spawn(&mut self, e: SegmentEntity) -> (h: usize)
        requires
            old(self).wf(),
            old(self).slots@.len() < 1_000_000_000,
            e.wf(),
        ensures
            final(self).wf(),
            h == old(self).slots@.len(),
            final(self).slots@ == old(self).slots@.push(Some(e)),
    {
        let h = self.slots.len();
        self.slots.push(Some(e));
        h
    }
}

/// The handles whose slot is live, in order.
pub open spec fn live_handles(slots: Seq<Option<SegmentEntity>>, handles: Seq<usize>) -> Seq<usize>
    decreases handles.len(),
{
    if handles.len() == 0 {
        Seq::empty()
    } else {
        let rest = live_handles(slots, handles.drop_last());
        if is_live_slot(slots, handles.last() as int) {
            rest.push(handles.last())
        } else {
            rest
        }
    }
}

/// Pruning dead handles keeps the survivors distinct, live, and drawn from
/// the original chain.
pub proof fn lemma_live_handles_props(slots: Seq<Option<SegmentEntity>>, handles: Seq<usize>)
    requires
        distinct_handles(handles),
    ensures
        live_handles(slots, handles).len() <= handles.len(),
        distinct_handles(live_handles(slots, handles)),
        forall|i: int|
            0 <= i < live_handles(slots, handles).len() ==> handles.contains(
                #[trigger] live_handles(slots, handles)[i],
            ) && is_live_slot(slots, live_handles(slots, handles)[i] as int),
    decreases handles.len(),
{
    if handles.len() == 0 {
    } else {
        let prefix = handles.drop_last();
        lemma_live_handles_props(slots, prefix);
        let rest = live_handles(slots, prefix);
        let whole = live_handles(slots, handles);
        assert forall|i: int| 0 <= i < rest.len() implies handles.contains(#[trigger] rest[i]) by {
            let k = choose|k: int| 0 <= k < prefix.len() && prefix[k] == rest[i];
            assert(handles[k] == rest[i]);
        }
        if is_live_slot(slots, handles.last() as int) {
            assert(whole == rest.push(handles.last()));
            assert forall|i: int, j: int| 0 <= i < j < whole.len() implies whole[i] != whole[j] by {
                if j < whole.len() - 1 {
                    assert(whole[i] == rest[i] && whole[j] == rest[j]);
                } else {
                    assert(whole[i] == rest[i]);
                    assert(prefix.contains(rest[i]));
                    let k = choose|k: int| 0 <= k < prefix.len() && prefix[k] == rest[i];
                    assert(handles[k] == rest[i]);
                    assert(handles[k] != handles.last());
                }
            }
            assert(handles.contains(handles.last()));
        }
    }
}

/// The handles left after every occurrence of `h` is dropped.
pub open spec fn without_handle(handles: Seq<usize>, h: usize) -> Seq<usize> {
    handles.filter(|x: usize| x != h)
}

/// Dropping a handle keeps the rest distinct and drawn from the original.
pub proof fn lemma_without_handle_props(handles: Seq<usize>, h: usize)
    requires
        distinct_handles(handles),
    ensures
        without_handle(handles, h).len() <= handles.len(),
        distinct_handles(without_handle(handles, h)),
        forall|i: int|
            0 <= i < without_handle(handles, h).len() ==> handles.contains(
                #[trigger] without_handle(handles, h)[i],
            ) && without_handle(handles, h)[i] != h,
    decreases handles.len(),
{
    reveal_with_fuel(Seq::filter, 2);
    let f = |x: usize| x != h;
    if handles.len() == 0 {
        assert(without_handle(handles, h) =~= Seq::<usize>::empty());
    } else {
        let prefix = handles.drop_last();
        lemma_without_handle_props(prefix, h);
        let rest = without_handle(prefix, h);
        let whole = without_handle(handles, h);
        assert forall|i: int| 0 <= i < rest.len() implies handles.contains(#[trigger] rest[i]) by {
            let k = choose|k: int| 0 <= k < prefix.len() && prefix[k] == rest[i];
            assert(handles[k] == rest[i]);
        }
        if f(handles.last()) {
            assert(whole == rest.push(handles.last()));
            assert forall|i: int, j: int| 0 <= i < j < whole.len() implies whole[i] != whole[j] by {
                if j < whole.len() - 1 {
                    assert(whole[i] == rest[i] && whole[j] == rest[j]);
                } else {
                    assert(whole[i] == rest[i]);
                    assert(prefix.contains(rest[i]));
                    let k = choose|k: int| 0 <= k < prefix.len() && prefix[k] == rest[i];
                    assert(handles[k] == rest[i]);
                    assert(handles[k] != handles.last());
                }
            }
            assert(handles.contains(handles.last()));
        } else {
            assert(whole == rest);
        }
    }
}

impl PlayerChain {
    /// Deletes a handle from the chain list without reindexing the rest:
    /// index repair is deferred to the cleanup pass, so index computations
    /// of the same frame's destruction cascade stay stable.
    pub fn remove_segment(&mut self, handle: usize)
        requires
            distinct_handles(old(self).segments@),
        ensures
            final(self).max_segments == old(self).max_segments,
            final(self).segments@ == without_handle(old(self).segments@, handle),
            final(self).segments@.len() <= old(self).segments@.len(),
            distinct_handles(final(self).segments@),
            forall|i: int|
                0 <= i < final(self).segments@.len() ==> old(self).segments@.contains(
                    #[trigger] final(self).segments@[i],
                ),
    {
        let ghost full = self.segments@;
        let n = self.segments.len();
        let mut kept: Vec<usize> = Vec::new();
        let mut i: usize = 0;
        proof {
            reveal_with_fuel(Seq::filter, 2);
            assert(without_handle(full.take(0), handle) =~= Seq::<usize>::empty());
        }
        while i < n
            invariant
                full == self.segments@,
                n == full.len(),
                self.max_segments == old(self).max_segments,
                0 <= i <= n,
                kept@ == without_handle(full.take(i as int), handle),
            decreases n - i,
        {
            let h = self.segments[i];
            proof {
                reveal_with_fuel(Seq::filter, 2);
                assert(full.take(i + 1).drop_last() =~= full.take(i as int));
                assert(full.take(i + 1).last() == h);
            }
            if h != handle {
                kept.push(h);
            }
            i = i + 1;
        }
        proof {
            assert(full.take(n as int) =~= full);
        }
        self.segments = kept;
        proof {
            lemma_without_handle_props(old(self).segments@, handle);
        }
    }

    /// Prunes handles of despawned segments, then writes each surviving
    /// segment's `segment_index` to match its array position.  After this
    /// pass, for every `i`, the segment at position `i` carries index `i`.
    pub fn cleanup_and_reindex(&mut self, arena: &mut SegmentArena)
        requires
            old(arena).wf(),
            old(self).wf(*old(arena)),
        ensures
            final(arena).wf(),
            final(self).wf(*final(arena)),
            final(self).max_segments == old(self).max_segments,
            final(arena).slots@.len() == old(arena).slots@.len(),
            final(self).segments@ == live_handles(old(arena).slots@, old(self).segments@),
            forall|i: int|
                0 <= i < final(self).segments@.len() ==> {
                    let hd = (#[trigger] final(self).segments@[i]) as int;
                    &&& final(arena).live(hd)
                    &&& final(arena).entity(hd) == (SegmentEntity {
                        owner: old(arena).entity(hd).owner,
                        segment: ChainSegment {
                            segment_index: i as usize,
                            option_text: old(arena).entity(hd).segment.option_text,
                            option_id: old(arena).entity(hd).segment.option_id,
                            base_color: old(arena).entity(hd).segment.base_color,
                            pulse_phase: old(arena).entity(hd).segment.pulse_phase,
                            level: old(arena).entity(hd).segment.level,
                            merge_value: old(arena).entity(hd).segment.merge_value,
                        },
                        position: old(arena).entity(hd).position,
                        scale_permille: old(arena).entity(hd).scale_permille,
                        reaction: old(arena).entity(hd).reaction,
                        merging: old(arena).entity(hd).merging,
                    })
                    &&& final(arena).entity(hd).segment.segment_index == i
                },
            forall|j: int|
                0 <= j < old(arena).slots@.len() && !final(self).segments@.contains(j as usize)
                    ==> final(arena).slots@[j] == old(arena).slots@[j],
    {
        let ghost oldslots = arena.slots@;
        let ghost oldhandles = self.segments@;
        proof {
            lemma_live_handles_props(oldslots, oldhandles);
        }
        let n = self.segments.len();
        let mut kept: Vec<usize> = Vec::new();
        let mut i: usize = 0;
        while i < n
            invariant
                oldslots == arena.slots@,
                oldhandles == self.segments@,
                n == oldhandles.len(),
                old(self).wf(*old(arena)),
                oldhandles == old(self).segments@,
                0 <= i <= n,
                kept@ == live_handles(oldslots, oldhandles.take(i as int)),
            decreases n - i,
        {
            let h = self.segments[i];
            proof {
                assert(oldhandles.take(i + 1).drop_last() =~= oldhandles.take(i as int));
                assert(oldhandles.take(i + 1).last() == h);
            }
            if arena.is_live(h) {
                kept.push(h);
            }
            i = i + 1;
        }
        proof {
            assert(oldhandles.take(n as int) =~= oldhandles);
        }
        self.segments = kept;
        let ghost survivors = self.segments@;
        let m = self.segments.len();
        let mut k: usize = 0;
        while k < m
            invariant
                old(self).wf(*old(arena)),
                old(arena).wf(),
                survivors == self.segments@,
                survivors == live_handles(oldslots, old(self).segments@),
                oldslots == old(arena).slots@,
                self.max_segments == old(self).max_segments,
                m == survivors.len(),
                m <= old(self).segments@.len(),
                distinct_handles(survivors),
                forall|i: int|
                    0 <= i < m ==> old(self).segments@.contains(#[trigger] survivors[i])
                        && is_live_slot(oldslots, survivors[i] as int),
                0 <= k <= m,
                arena.slots@.len() == oldslots.len(),
                forall|i: int|
                    0 <= i < k ==> {
                        let hd = (#[trigger] survivors[i]) as int;
                        &&& is_live_slot(arena.slots@, hd)
                        &&& arena.slots@[hd]->0 == (SegmentEntity {
                            owner: oldslots[hd]->0.owner,
                            segment: ChainSegment {
                                segment_index: i as usize,
                                option_text: oldslots[hd]->0.segment.option_text,
                                option_id: oldslots[hd]->0.segment.option_id,
                                base_color: oldslots[hd]->0.segment.base_color,
                                pulse_phase: oldslots[hd]->0.segment.pulse_phase,
                                level: oldslots[hd]->0.segment.level,
                                merge_value: oldslots[hd]->0.segment.merge_value,
                            },
                            position: oldslots[hd]->0.position,
                            scale_permille: oldslots[hd]->0.scale_permille,
                            reaction: oldslots[hd]->0.reaction,
                            merging: oldslots[hd]->0.merging,
                        })
                    },
                forall|j: int|
                    0 <= j < oldslots.len() && !survivors.take(k as int).contains(j as usize)
                        ==> arena.slots@[j] == oldslots[j],
                arena.wf(),
            decreases m - k,
        {
            let h = self.segments[k];
            proof {
                assert(survivors.take(k as int + 1)[k as int] == survivors[k as int]);
                assert(survivors.take(k as int + 1).contains(survivors[k as int]));
                assert(!survivors.take(k as int).contains(h)) by {
                    if survivors.take(k as int).contains(h) {
                        let q = choose|q: int|
                            0 <= q < k && survivors.take(k as int)[q] == h;
                        assert(survivors[q] == survivors[k as int]);
                    }
                }
                assert(arena.slots@[h as int] == oldslots[h as int]);
            }
            let mut updated = arena.read(h).unwrap();
            updated.segment.segment_index = k;
            arena.write(h, updated);
            k = k + 1;
            proof {
                assert forall|j: int|
                    0 <= j < oldslots.len() && !survivors.take(k as int).contains(j as usize)
                        implies arena.slots@[j] == oldslots[j] by {
                    assert(j != h as int);
                }
                assert forall|i: int| 0 <= i < k implies {
                    let hd = (#[trigger] survivors[i]) as int;
                    &&& is_live_slot(arena.slots@, hd)
                } by {
                    if i < k - 1 {
                        assert(survivors[i] != survivors[k - 1]);
                    }
                }
            }
        }
        proof {
            assert(survivors.take(m as int) =~= survivors);
            assert forall|j: int|
                0 <= j < oldslots.len() && !survivors.contains(j as usize) implies arena.slots@[j]
                == oldslots[j] by {}
        }
    }
}

/// The entity with its chain index replaced (lowered by one during an
/// eviction shift, floored at zero).
pub open spec fn with_index(e: SegmentEntity, idx: usize) -> SegmentEntity {
    SegmentEntity {
        owner: e.owner,
        segment: ChainSegment {
            segment_index: idx,
            option_text: e.segment.option_text,
            option_id: e.segment.option_id,
            base_color: e.segment.base_color,
            pulse_phase: e.segment.pulse_phase,
            level: e.segment.level,
            merge_value: e.segment.merge_value,
        },
        position: e.position,
        scale_permille: e.scale_permille,
        reaction: e.reaction,
        merging: e.merging,
    }
}

/// Appends a new segment for the player at the tail of their chain, at
/// `segment_index == len(chain)`.  A chain already at capacity first evicts
/// (despawns) its oldest segment and shifts the survivors' indices down by
/// one.  Returns the new segment's handle.
pub fn create_chain_segment_for_player(
    arena: &mut SegmentArena,
    chain: &mut PlayerChain,
    player_entity: u64,
    position: Vec2,
    option_text: String,
    option_id: usize,
    color: Rgb,
) -> (h: usize)
    requires
        old(arena).wf(),
        old(chain).wf(*old(arena)),
        position.in_limit(),
        color.wf(),
        old(arena).slots@.len() < 1_000_000_000,
    ensures
        final(arena).wf(),
        final(chain).wf(*final(arena)),
        final(chain).max_segments == old(chain).max_segments,
        h == old(arena).slots@.len(),
        final(arena).slots@.len() == old(arena).slots@.len() + 1,
        final(arena).live(h as int),
        final(chain).segments@.len() > 0,
        final(chain).segments@.last() == h,
        final(arena).entity(h as int) == (SegmentEntity {
            owner: player_entity,
            segment: ChainSegment {
                segment_index: (final(chain).segments@.len() - 1) as usize,
                option_text: option_text,
                option_id: option_id,
                base_color: color,
                pulse_phase: ((final(chain).segments@.len() - 1) * 300) as u64,
                level: 1,
                merge_value: 1,
            },
            position: position,
            scale_permille: 1000,
            reaction: None,
            merging: None,
        }),
        old(chain).segments@.len() < old(chain).max_segments ==> {
            &&& final(chain).segments@ == old(chain).segments@.push(h)
            &&& forall|j: int|
                0 <= j < old(arena).slots@.len() ==> final(arena).slots@[j] == old(arena).slots@[j]
        },
        old(chain).segments@.len() >= old(chain).max_segments ==> {
            let evicted = old(chain).segments@[0] as int;
            &&& final(chain).segments@ == old(chain).segments@.drop_first().push(h)
            &&& final(arena).slots@[evicted] is None
            &&& forall|i: int|
                1 <= i < old(chain).segments@.len() ==> {
                    let hd = (#[trigger] old(chain).segments@[i]) as int;
                    &&& old(arena).live(hd) ==> final(arena).slots@[hd] == Some(
                        with_index(
                            old(arena).entity(hd),
                            if old(arena).entity(hd).segment.segment_index > 0 {
                                (old(arena).entity(hd).segment.segment_index - 1) as usize
                            } else {
                                0
                            },
                        ),
                    )
                    &&& !old(arena).live(hd) ==> final(arena).slots@[hd] == old(arena).slots@[hd]
                }
            &&& forall|j: int|
                0 <= j < old(arena).slots@.len() && j != evicted && !old(
                    chain,
                ).segments@.contains(j as usize) ==> final(arena).slots@[j] == old(arena).slots@[j]
        },
        old(chain).owned_by(*old(arena), player_entity) ==> final(chain).owned_by(
            *final(arena),
            player_entity,
        ),
        forall|s: int|
            0 <= s < old(arena).slots@.len() ==> {
                let oldslot = old(arena).slots@[s];
                let newslot = #[trigger] final(arena).slots@[s];
                ||| newslot is None
                ||| newslot == oldslot
                ||| (oldslot is Some && newslot == Some(
                    with_index(oldslot->0, newslot->0.segment.segment_index),
                ))
            },
{
    let ghost oldslots = arena.slots@;
    let ghost oldhandles = chain.segments@;
    if chain.segments.len() >= chain.max_segments {
        let evicted = chain.segments[0];
        arena.despawn(evicted);
        chain.segments.remove(0);
        proof {
            assert(chain.segments@ =~= oldhandles.drop_first());
        }
        let ghost base = arena.slots@;
        let n = chain.segments.len();
        let mut i: usize = 0;
        while i < n
            invariant
                old(chain).wf(*old(arena)),
                oldslots == old(arena).slots@,
                oldhandles == old(chain).segments@,
                oldhandles.len() > 0,
                chain.segments@ == oldhandles.drop_first(),
                chain.max_segments == old(chain).max_segments,
                n == chain.segments@.len(),
                base == oldslots.update(oldhandles[0] as int, None),
                0 <= i <= n,
                arena.slots@.len() == base.len(),
                arena.wf(),
                forall|k: int|
                    0 <= k < i ==> {
                        let hd = (#[trigger] chain.segments@[k]) as int;
                        &&& (base[hd] is Some ==> arena.slots@[hd] == Some(
                            with_index(
                                base[hd]->0,
                                if base[hd]->0.segment.segment_index > 0 {
                                    (base[hd]->0.segment.segment_index - 1) as usize
                                } else {
                                    0
                                },
                            ),
                        ))
                        &&& (base[hd] is None ==> arena.slots@[hd] == base[hd])
                    },
                forall|j: int|
                    0 <= j < base.len() && !chain.segments@.take(i as int).contains(j as usize)
                        ==> arena.slots@[j] == base[j],
            decreases n - i,
        {
            let hd = chain.segments[i];
            proof {
                assert(oldhandles[i + 1] == chain.segments@[i as int]);
                assert(chain.segments@.take(i as int + 1)[i as int] == chain.segments@[i as int]);
                assert(chain.segments@.take(i as int + 1).contains(chain.segments@[i as int]));
                assert(!chain.segments@.take(i as int).contains(hd)) by {
                    if chain.segments@.take(i as int).contains(hd) {
                        let q = choose|q: int|
                            0 <= q < i && chain.segments@.take(i as int)[q] == hd;
                        assert(oldhandles[q + 1] == oldhandles[i + 1]);
                    }
                }
                assert(arena.slots@[hd as int] == base[hd as int]);
            }
            if arena.is_live(hd) {
                let mut e = arena.read(hd).unwrap();
                if e.segment.segment_index > 0 {
                    e.segment.segment_index = e.segment.segment_index - 1;
                }
                arena.write(hd, e);
            }
            i = i + 1;
            proof {
                assert forall|j: int|
                    0 <= j < base.len() && !chain.segments@.take(i as int).contains(j as usize)
                        implies arena.slots@[j] == base[j] by {
                    assert(j != hd as int);
                }
                assert forall|k: int| 0 <= k < i implies {
                    let hd2 = (#[trigger] chain.segments@[k]) as int;
                    &&& (base[hd2] is Some ==> arena.slots@[hd2] == Some(
                        with_index(
                            base[hd2]->0,
                            if base[hd2]->0.segment.segment_index > 0 {
                                (base[hd2]->0.segment.segment_index - 1) as usize
                            } else {
                                0
                            },
                        ),
                    ))
                    &&& (base[hd2] is None ==> arena.slots@[hd2] == base[hd2])
                } by {
                    if k < i - 1 {
                        assert(oldhandles[k + 1] != oldhandles[i - 1 + 1]);
                        assert(chain.segments@[k] != hd);
                    }
                }
            }
        }
        proof {
            assert(chain.segments@.take(n as int) =~= chain.segments@);
            let evicted = oldhandles[0] as int;
            assert(arena.slots@[evicted] is None) by {
                assert(!chain.segments@.contains(oldhandles[0])) by {
                    if chain.segments@.contains(oldhandles[0]) {
                        let q = choose|q: int|
                            0 <= q < chain.segments@.len() && chain.segments@[q] == oldhandles[0];
                        assert(oldhandles[q + 1] == oldhandles[0]);
                    }
                }
                assert(base[evicted] is None);
            }
            assert forall|i2: int| 1 <= i2 < oldhandles.len() implies {
                let hd = (#[trigger] oldhandles[i2]) as int;
                &&& (is_live_slot(oldslots, hd) ==> arena.slots@[hd] == Some(
                    with_index(
                        oldslots[hd]->0,
                        if oldslots[hd]->0.segment.segment_index > 0 {
                            (oldslots[hd]->0.segment.segment_index - 1) as usize
                        } else {
                            0
                        },
                    ),
                ))
                &&& (!is_live_slot(oldslots, hd) ==> arena.slots@[hd] == oldslots[hd])
            } by {
                let hd = oldhandles[i2] as int;
                assert(chain.segments@[i2 - 1] == oldhandles[i2]);
                assert(oldhandles[i2] != oldhandles[0]);
                assert(base[hd] == oldslots[hd]);
                if !is_live_slot(oldslots, hd) {
                    if 0 <= hd < oldslots.len() {
                        assert(base[hd] == oldslots[hd]);
                    }
                }
            }
            assert forall|j: int|
                0 <= j < oldslots.len() && j != evicted && !oldhandles.contains(j as usize)
                    implies arena.slots@[j] == oldslots[j] by {
                assert(!chain.segments@.contains(j as usize)) by {
                    if chain.segments@.contains(j as usize) {
                        let q = choose|q: int|
                            0 <= q < chain.segments@.len() && chain.segments@[q] == j as usize;
                        assert(oldhandles[q + 1] == j as usize);
                        assert(oldhandles.contains(j as usize));
                    }
                }
                assert(arena.slots@[j] == base[j]);
                assert(base[j] == oldslots[j]);
            }
        }
    }
    let segment_index = chain.segments.len();
    let seg = crate::segment::ChainSegment::new(segment_index, option_text, option_id, color);
    let entity = SegmentEntity {
        owner: player_entity,
        segment: seg,
        position,
        scale_permille: 1000,
        reaction: None,
        merging: None,
    };
    let h = arena.spawn(entity);
    chain.segments.push(h);
    proof {
        let fa = *arena;
        let fc = *chain;
        assert forall|i: int, j: int|
            0 <= i < j < fc.segments@.len() implies fc.segments@[i] != fc.segments@[j] by {
            if j < fc.segments@.len() - 1 {
            } else {
                assert(fc.segments@[i] < oldslots.len());
            }
        }
        assert forall|s: int| 0 <= s < oldslots.len() implies {
            let oldslot = oldslots[s];
            let newslot = #[trigger] fa.slots@[s];
            ||| newslot is None
            ||| newslot == oldslot
            ||| (oldslot is Some && newslot == Some(
                with_index(oldslot->0, newslot->0.segment.segment_index),
            ))
        } by {
            if oldhandles.len() >= old(chain).max_segments {
                if s == oldhandles[0] as int {
                } else if oldhandles.contains(s as usize) {
                    let q = choose|q: int|
                        0 <= q < oldhandles.len() && oldhandles[q] == s as usize;
                    assert(q != 0);
                    assert(oldhandles[q] == s as usize);
                }
            }
        }
        if old(chain).owned_by(*old(arena), player_entity) {
            assert forall|i: int|
                0 <= i < fc.segments@.len() && fa.live(fc.segments@[i] as int) implies fa.entity(
                (#[trigger] fc.segments@[i]) as int,
            ).owner == player_entity by {
                let hd = fc.segments@[i] as int;
                if i < fc.segments@.len() - 1 {
                    if oldhandles.len() >= old(chain).max_segments {
                        assert(fc.segments@[i] == oldhandles[i + 1]);
                    } else {
                        assert(fc.segments@[i] == oldhandles[i]);
                    }
                }
            }
        }
    }
    h
}

/// Moves every live, non-reacting segment of the chain one smoothing step
/// toward its trail target: the wrap-aware trail point at
/// `(segment_index + 1) * spacing` behind the player.
pub fn update_chain_positions(
    arena: &mut SegmentArena,
    chain: &PlayerChain,
    trail: &MovementTrail,
    bounds: MapBounds,
)
    requires
        old(arena).wf(),
        chain.wf(*old(arena)),
        trail.wf(),
        bounds.wf(),
        crate::trail::all_in_bounds(trail.positions@, bounds),
        old(arena).in_bounds_for(bounds),
    ensures
        final(arena).wf(),
        final(arena).in_bounds_for(bounds),
        final(arena).slots@.len() == old(arena).slots@.len(),
        forall|i: int|
            0 <= i < chain.segments@.len() ==> {
                let hd = (#[trigger] chain.segments@[i]) as int;
                &&& (old(arena).live(hd) && old(arena).entity(hd).reaction is None
                    && trail.positions@.len() > 0) ==> {
                    let e = old(arena).entity(hd);
                    let t = crate::trail::trail_point_at(
                        trail.positions@,
                        (e.segment.segment_index + 1) * (CHAIN_SEGMENT_SPACING as int),
                        Some(bounds),
                    );
                    let m = crate::geometry::spec_shortest_move(
                        e.position,
                        Vec2 { x: t.0 as i64, y: t.1 as i64 },
                        CHAIN_LERP_PERMILLE as int,
                        1000,
                        bounds,
                    );
                    final(arena).slots@[hd] == Some(
                        SegmentEntity {
                            owner: e.owner,
                            segment: e.segment,
                            position: (Vec2 { x: m.0 as i64, y: m.1 as i64 }),
                            scale_permille: e.scale_permille,
                            reaction: e.reaction,
                            merging: e.merging,
                        },
                    )
                }
                &&& !(old(arena).live(hd) && old(arena).entity(hd).reaction is None
                    && trail.positions@.len() > 0) ==> final(arena).slots@[hd] == old(
                    arena
                ).slots@[hd]
            },
        forall|j: int|
            0 <= j < old(arena).slots@.len() && !chain.segments@.contains(j as usize)
                ==> final(arena).slots@[j] == old(arena).slots@[j],
{
    let ghost oldslots = arena.slots@;
    let n = chain.segments.len();
    let mut i: usize = 0;
    while i < n
        invariant
            chain.wf(*old(arena)),
            trail.wf(),
            bounds.wf(),
            crate::trail::all_in_bounds(trail.positions@, bounds),
            oldslots == old(arena).slots@,
            n == chain.segments@.len(),
            0 <= i <= n,
            arena.slots@.len() == oldslots.len(),
            arena.wf(),
            arena.in_bounds_for(bounds),
            forall|k: int|
                0 <= k < i ==> {
                    let hd = (#[trigger] chain.segments@[k]) as int;
                    &&& (is_live_slot(oldslots, hd) && oldslots[hd]->0.reaction is None
                        && trail.positions@.len() > 0) ==> {
                        let e = oldslots[hd]->0;
                        let t = crate::trail::trail_point_at(
                            trail.positions@,
                            (e.segment.segment_index + 1) * (CHAIN_SEGMENT_SPACING as int),
                            Some(bounds),
                        );
                        let m = crate::geometry::spec_shortest_move(
                            e.position,
                            Vec2 { x: t.0 as i64, y: t.1 as i64 },
                            CHAIN_LERP_PERMILLE as int,
                            1000,
                            bounds,
                        );
                        arena.slots@[hd] == Some(
                            SegmentEntity {
                                owner: e.owner,
                                segment: e.segment,
                                position: (Vec2 { x: m.0 as i64, y: m.1 as i64 }),
                                scale_permille: e.scale_permille,
                                reaction: e.reaction,
                                merging: e.merging,
                            },
                        )
                    }
                    &&& !(is_live_slot(oldslots, hd) && oldslots[hd]->0.reaction is None
                        && trail.positions@.len() > 0) ==> arena.slots@[hd] == oldslots[hd]
                },
            forall|j: int|
                0 <= j < oldslots.len() && !chain.segments@.take(i as int).contains(j as usize)
                    ==> arena.slots@[j] == oldslots[j],
        decreases n - i,
    {
        let hd = chain.segments[i];
        proof {
            assert(chain.segments@.take(i as int + 1)[i as int] == chain.segments@[i as int]);
            assert(chain.segments@.take(i as int + 1).contains(chain.segments@[i as int]));
            assert(!chain.segments@.take(i as int).contains(hd)) by {
                if chain.segments@.take(i as int).contains(hd) {
                    let q = choose|q: int| 0 <= q < i && chain.segments@.take(i as int)[q] == hd;
                    assert(chain.segments@[q] == chain.segments@[i as int]);
                }
            }
            assert(arena.slots@[hd as int] == oldslots[hd as int]);
        }
        if arena.is_live(hd) {
            let mut e = arena.read(hd).unwrap();
            if match e.reaction {
                Some(_) => false,
                None => true,
            } {
                let d = (e.segment.segment_index as i64 + 1) * CHAIN_SEGMENT_SPACING;
                match trail.get_position_at_distance_with_wraparound(d, bounds) {
                    Some(target) => {
                        let np = crate::geometry::calculate_shortest_movement(
                            e.position,
                            target,
                            CHAIN_LERP_PERMILLE,
                            1000,
                            bounds,
                        );
                        e.position = np;
                        arena.write(hd, e);
                    },
                    None => {},
                }
            }
        }
        i = i + 1;
        proof {
            assert forall|j: int|
                0 <= j < oldslots.len() && !chain.segments@.take(i as int).contains(j as usize)
                    implies arena.slots@[j] == oldslots[j] by {
                assert(j != hd as int);
            }
            assert forall|k: int| 0 <= k < i - 1 implies chain.segments@[k] != hd by {
                assert(chain.segments@[k] != chain.segments@[i - 1]);
            }
        }
    }
    proof {
        assert(chain.segments@.take(n as int) =~= chain.segments@);
    }
}

/// Fresh per-player chain state: an empty chain and an empty movement
/// trail, handed to each player when gameplay starts.
pub fn setup_player_chain() -> (r: (PlayerChain, MovementTrail))
    ensures
        r.0.segments@.len() == 0,
        r.0.max_segments == MAX_SEGMENTS,
        r.1.positions@.len() == 0,
        r.1.wf(),
{
    (PlayerChain::new(), MovementTrail::new())
}

/// Advances the idle-animation phase of every live, non-reacting segment
/// by two milliradians per millisecond.  The sinusoidal pulse and drift
/// derived from the phase are a rendering concern; the core only keeps the
/// phase exact.
pub fn animate_chain_segments(arena: &mut SegmentArena, delta: u64)
    requires
        old(arena).wf(),
        delta <= crate::timer::MAX_TIME,
    ensures
        final(arena).wf(),
        final(arena).slots@.len() == old(arena).slots@.len(),
        forall|h: int|
            0 <= h < old(arena).slots@.len() ==> {
                let slot = #[trigger] old(arena).slots@[h];
                &&& (is_live_slot(old(arena).slots@, h) && slot->0.reaction is None ==> final(
                    arena
                ).slots@[h] == Some(
                    SegmentEntity {
                        owner: slot->0.owner,
                        segment: ChainSegment {
                            segment_index: slot->0.segment.segment_index,
                            option_text: slot->0.segment.option_text,
                            option_id: slot->0.segment.option_id,
                            base_color: slot->0.segment.base_color,
                            pulse_phase: if slot->0.segment.pulse_phase + 2 * delta
                                <= 0xffff_ffff_ffff_ffff {
                                (slot->0.segment.pulse_phase + 2 * delta) as u64
                            } else {
                                0xffff_ffff_ffff_ffff
                            },
                            level: slot->0.segment.level,
                            merge_value: slot->0.segment.merge_value,
                        },
                        position: slot->0.position,
                        scale_permille: slot->0.scale_permille,
                        reaction: slot->0.reaction,
                        merging: slot->0.merging,
                    },
                ))
                &&& (!(is_live_slot(old(arena).slots@, h) && slot->0.reaction is None) ==> final(
                    arena
                ).slots@[h] == slot)
            },
{
    let ghost oldslots = arena.slots@;
    let nslots = arena.slots.len();
    let mut h: usize = 0;
    while h < nslots
        invariant
            old(arena).wf(),
            delta <= crate::timer::MAX_TIME,
            oldslots == old(arena).slots@,
            nslots == oldslots.len(),
            0 <= h <= nslots,
            arena.slots@.len() == nslots,
            arena.wf(),
            forall|j: int|
                0 <= j < h ==> {
                    let slot = #[trigger] oldslots[j];
                    &&& (is_live_slot(oldslots, j) && slot->0.reaction is None ==> arena.slots@[j]
                        == Some(
                        SegmentEntity {
                            owner: slot->0.owner,
                            segment: ChainSegment {
                                segment_index: slot->0.segment.segment_index,
                                option_text: slot->0.segment.option_text,
                                option_id: slot->0.segment.option_id,
                                base_color: slot->0.segment.base_color,
                                pulse_phase: if slot->0.segment.pulse_phase + 2 * delta
                                    <= 0xffff_ffff_ffff_ffff {
                                    (slot->0.segment.pulse_phase + 2 * delta) as u64
                                } else {
                                    0xffff_ffff_ffff_ffff
                                },
                                level: slot->0.segment.level,
                                merge_value: slot->0.segment.merge_value,
                            },
                            position: slot->0.position,
                            scale_permille: slot->0.scale_permille,
                            reaction: slot->0.reaction,
                            merging: slot->0.merging,
                        },
                    ))
                    &&& (!(is_live_slot(oldslots, j) && slot->0.reaction is None)
                        ==> arena.slots@[j] == slot)
                },
            forall|j: int| h <= j < nslots ==> arena.slots@[j] == oldslots[j],
        decreases nslots - h,
    {
        match arena.read(h) {
            Some(e) => {
                if match e.reaction {
                    Some(_) => false,
                    None => true,
                } {
                    let mut updated = e;
                    let bump = 2 * delta;
                    updated.segment.pulse_phase = if updated.segment.pulse_phase
                        <= 0xffff_ffff_ffff_ffff - bump {
                        updated.segment.pulse_phase + bump
                    } else {
                        0xffff_ffff_ffff_ffff
                    };
                    arena.write(h, updated);
                }
            },
            None => {},
        }
        h = h + 1;
    }
}

impl Default for PlayerChain {
    /// An empty chain with the standard capacity.
    fn default() -> (r: PlayerChain)
        ensures
            r.segments@.len() == 0,
            r.max_segments == MAX_SEGMENTS,
    {
        PlayerChain::new()
    }
}

} // verus!
