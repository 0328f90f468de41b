//! The reaction cascade: a self-collision starts a wave of destruction
//! that spreads outward from the hit segment one chain index per tick.

use crate::chain::{is_live_slot, PlayerChain, SegmentArena, SegmentEntity};
use crate::geometry::{abs_i, dist2, sq, Vec2};
use crate::segment::{Rgb, CHAIN_SEGMENT_SIZE};
use crate::timer::{CountdownTimer, RepeatingTimer, MAX_TIME};
use vstd::prelude::*;

verus! {

/// Milliseconds between propagation ticks of the destruction wave.
pub const REACTION_SPREAD_INTERVAL: u64 = 100;

/// Milliseconds a caught segment takes to pulse and vanish.
pub const REACTION_BALL_DURATION: u64 = 500;

/// Points deducted per destroyed chain segment.
pub const POINTS_LOST_PER_SEGMENT: i32 = 5;

/// Furthest index distance the wave travels from the hit segment.
pub const MAX_SPREAD_DISTANCE: i32 = 20;

/// Phases of one segment's destruction animation.
#[derive(Clone, Copy, PartialEq, Eq, Structural, Debug)]
pub enum ReactionPhase {
    /// The segment pulses and grows before disappearing.
    Reacting,
    /// The segment shrinks away.
    Vanishing,
}

/// The destruction animation attached to one caught segment.
#[derive(Clone, Copy, PartialEq, Eq, Structural, Debug)]
pub struct ChainReaction {
    pub reaction_timer: CountdownTimer,
    pub reaction_phase: ReactionPhase,
}

impl ChainReaction {
    pub open spec fn wf(self) -> bool {
        self.reaction_timer.wf()
    }

    pub fn new(reaction_duration: u64) -> (r: ChainReaction)
        requires
            1 <= reaction_duration <= MAX_TIME,
        ensures
            r == (ChainReaction {
                reaction_timer: CountdownTimer { elapsed: 0, duration: reaction_duration },
                reaction_phase: ReactionPhase::Reacting,
            }),
            r.wf(),
    {
        ChainReaction {
            reaction_timer: CountdownTimer::new(reaction_duration),
            reaction_phase: ReactionPhase::Reacting,
        }
    }
}

/// One player's active destruction wave.
#[derive(Clone, Copy, PartialEq, Eq, Structural, Debug)]
pub struct PlayerReaction {
    pub player_entity: u64,
    pub hit_segment_index: usize,
    pub current_spread_distance: i32,
}

/// The shared registry of active destruction waves: one entry per player,
/// advanced by one shared repeating spread timer.
pub struct ChainReactionState {
    pub active_reactions: Vec<PlayerReaction>,
    pub reaction_spread_timer: RepeatingTimer,
    pub max_spread_distance: i32,
}

/// The entries that do not belong to the given player, in order.
pub open spec fn without_player(entries: Seq<PlayerReaction>, player: u64) -> Seq<PlayerReaction> {
    entries.filter(|e: PlayerReaction| e.player_entity != player)
}

/// No two entries belong to the same player.
pub open spec fn distinct_players(entries: Seq<PlayerReaction>) -> bool {
    forall|i: int, j: int|
        0 <= i < j < entries.len() ==> (#[trigger] entries[i]).player_entity != (
        #[trigger] entries[j]).player_entity
}

impl ChainReactionState {
    pub open spec fn wf(self) -> bool {
        &&& self.reaction_spread_timer.wf()
        &&& 0 <= self.max_spread_distance <= 1_000_000
        &&& distinct_players(self.active_reactions@)
        &&& forall|i: int|
            0 <= i < self.active_reactions@.len() ==> {
                let e = #[trigger] self.active_reactions@[i];
                e.hit_segment_index <= 1_000_000 && 0 <= e.current_spread_distance <= 2_000_001
            }
    }

    /// Whether the given player has an active wave.
    pub open spec fn spec_has_reaction(self, player: u64) -> bool {
        exists|i: int|
            0 <= i < self.active_reactions@.len() && (
            #[trigger] self.active_reactions@[i]).player_entity == player
    }

    pub fn new() -> (r: ChainReactionState)
        ensures
            r.active_reactions@ == Seq::<PlayerReaction>::empty(),
            r.reaction_spread_timer == (RepeatingTimer {
                acc: 0,
                period: REACTION_SPREAD_INTERVAL,
            }),
            r.max_spread_distance == MAX_SPREAD_DISTANCE,
            r.wf(),
    {
        ChainReactionState {
            active_reactions: Vec::new(),
            reaction_spread_timer: RepeatingTimer::new(REACTION_SPREAD_INTERVAL),
            max_spread_distance: MAX_SPREAD_DISTANCE,
        }
    }

    pub fn is_active(&self) -> (r: bool)
        ensures
            r == (self.active_reactions@.len() > 0),
    {
        self.active_reactions.len() > 0
    }

    pub fn has_reaction_for(&self, player: u64) -> (r: bool)
        ensures
            r == self.spec_has_reaction(player),
    {
        let n = self.active_reactions.len();
        let mut i: usize = 0;
        while i < n
            invariant
                n == self.active_reactions@.len(),
                0 <= i <= n,
                forall|k: int|
                    0 <= k < i ==> (#[trigger] self.active_reactions@[k]).player_entity != player,
            decreases n - i,
        {
            if self.active_reactions[i].player_entity == player {
                return true;
            }
            i = i + 1;
        }
        false
    }

    /// Starts a wave for the player at the hit index: any stale entry for
    /// the same player is dropped and a fresh one starts at spread 0; the
    /// shared spread timer restarts.
    pub fn start_reaction(&mut self, player_entity: u64, hit_segment_index: usize)
        requires
            old(self).wf(),
            hit_segment_index <= 1_000_000,
        ensures
            final(self).wf(),
            final(self).max_spread_distance == old(self).max_spread_distance,
            final(self).reaction_spread_timer == (RepeatingTimer {
                acc: 0,
                period: old(self).reaction_spread_timer.period,
            }),
            final(self).active_reactions@ == without_player(
                old(self).active_reactions@,
                player_entity,
            ).push(
                PlayerReaction { player_entity, hit_segment_index, current_spread_distance: 0 },
            ),
    {
        let n = self.active_reactions.len();
        let mut kept: Vec<PlayerReaction> = Vec::new();
        let mut i: usize = 0;
        proof {
            reveal_with_fuel(Seq::filter, 2);
            assert(self.active_reactions@.take(0).filter(
                |e: PlayerReaction| e.player_entity != player_entity,
            ) =~= Seq::<PlayerReaction>::empty());
        }
        while i < n
            invariant
                n == self.active_reactions@.len(),
                0 <= i <= n,
                self.active_reactions@ == old(self).active_reactions@,
                self.reaction_spread_timer == old(self).reaction_spread_timer,
                self.max_spread_distance == old(self).max_spread_distance,
                kept@ == self.active_reactions@.take(i as int).filter(
                    |e: PlayerReaction| e.player_entity != player_entity,
                ),
            decreases n - i,
        {
            let e = self.active_reactions[i];
            proof {
                assert(self.active_reactions@.take(i + 1).drop_last() =~= self.active_reactions@.take(
                    i as int,
                ));
                assert(self.active_reactions@.take(i + 1).last() == e);
                reveal_with_fuel(Seq::filter, 2);
            }
            if e.player_entity != player_entity {
                kept.push(e);
            }
            i = i + 1;
        }
        proof {
            assert(self.active_reactions@.take(n as int) =~= self.active_reactions@);
        }
        kept.push(PlayerReaction { player_entity, hit_segment_index, current_spread_distance: 0 });
        self.active_reactions = kept;
        self.reaction_spread_timer.reset();
        proof {
            lemma_filter_keeps_distinct(old(self).active_reactions@, player_entity);
            let fl = without_player(old(self).active_reactions@, player_entity);
            let pushed = self.active_reactions@;
            assert forall|i: int, j: int| 0 <= i < j < pushed.len() implies (
            #[trigger] pushed[i]).player_entity != (#[trigger] pushed[j]).player_entity by {
                if j < pushed.len() - 1 {
                    assert(pushed[i] == fl[i] && pushed[j] == fl[j]);
                } else {
                    assert(pushed[i] == fl[i]);
                }
            }
            assert forall|i: int| 0 <= i < pushed.len() implies {
                let e = #[trigger] pushed[i];
                e.hit_segment_index <= 1_000_000 && 0 <= e.current_spread_distance <= 2_000_001
            } by {
                if i < pushed.len() - 1 {
                    assert(pushed[i] == fl[i]);
                    assert(fl.contains(fl[i]));
                    assert(old(self).active_reactions@.contains(fl[i]));
                    let k = choose|k: int|
                        0 <= k < old(self).active_reactions@.len() && old(
                            self,
                        ).active_reactions@[k] == fl[i];
                    assert(old(self).active_reactions@[k] == pushed[i]);
                }
            }
        }
    }

    /// Drops the entry of a player whose wave has finished.
    pub fn remove_completed_reaction(&mut self, player_entity: u64)
        requires
            old(self).wf(),
        ensures
            final(self).wf(),
            final(self).max_spread_distance == old(self).max_spread_distance,
            final(self).reaction_spread_timer == old(self).reaction_spread_timer,
            final(self).active_reactions@ == without_player(
                old(self).active_reactions@,
                player_entity,
            ),
    {
        let n = self.active_reactions.len();
        let mut kept: Vec<PlayerReaction> = Vec::new();
        let mut i: usize = 0;
        proof {
            reveal_with_fuel(Seq::filter, 2);
            assert(self.active_reactions@.take(0).filter(
                |e: PlayerReaction| e.player_entity != player_entity,
            ) =~= Seq::<PlayerReaction>::empty());
        }
        while i < n
            invariant
                n == self.active_reactions@.len(),
                0 <= i <= n,
                self.active_reactions@ == old(self).active_reactions@,
                self.reaction_spread_timer == old(self).reaction_spread_timer,
                self.max_spread_distance == old(self).max_spread_distance,
                kept@ == self.active_reactions@.take(i as int).filter(
                    |e: PlayerReaction| e.player_entity != player_entity,
                ),
            decreases n - i,
        {
            let e = self.active_reactions[i];
            proof {
                assert(self.active_reactions@.take(i + 1).drop_last() =~= self.active_reactions@.take(
                    i as int,
                ));
                assert(self.active_reactions@.take(i + 1).last() == e);
                reveal_with_fuel(Seq::filter, 2);
            }
            if e.player_entity != player_entity {
                kept.push(e);
            }
            i = i + 1;
        }
        proof {
            assert(self.active_reactions@.take(n as int) =~= self.active_reactions@);
        }
        self.active_reactions = kept;
        proof {
            lemma_filter_keeps_distinct(old(self).active_reactions@, player_entity);
            let fl = self.active_reactions@;
            assert forall|i: int| 0 <= i < fl.len() implies {
                let e = #[trigger] fl[i];
                e.hit_segment_index <= 1_000_000 && 0 <= e.current_spread_distance <= 2_000_001
            } by {
                assert(fl.contains(fl[i]));
                assert(old(self).active_reactions@.contains(fl[i]));
                let k = choose|k: int|
                    0 <= k < old(self).active_reactions@.len() && old(self).active_reactions@[k]
                        == fl[i];
                assert(old(self).active_reactions@[k] == fl[i]);
            }
        }
    }
}

/// Filtering out one player's entries keeps the remaining entries distinct
/// per player and touches nothing else.
proof fn lemma_filter_keeps_distinct(entries: Seq<PlayerReaction>, player: u64)
    requires
        distinct_players(entries),
    ensures
        distinct_players(without_player(entries, player)),
        forall|i: int|
            0 <= i < without_player(entries, player).len() ==> (#[trigger] without_player(
                entries,
                player,
            )[i]).player_entity != player,
        forall|e: PlayerReaction|
            without_player(entries, player).contains(e) ==> entries.contains(e),
    decreases entries.len(),
{
    let f = |e: PlayerReaction| e.player_entity != player;
    reveal_with_fuel(Seq::filter, 2);
    if entries.len() == 0 {
        assert(entries.filter(f) =~= Seq::<PlayerReaction>::empty());
    } else {
        let prefix = entries.drop_last();
        lemma_filter_keeps_distinct(prefix, player);
        assert(entries.filter(f) == if f(entries.last()) {
            prefix.filter(f).push(entries.last())
        } else {
            prefix.filter(f)
        });
        assert forall|e: PlayerReaction| prefix.contains(e) implies entries.contains(e) by {
            let k = choose|k: int| 0 <= k < prefix.len() && prefix[k] == e;
            assert(entries[k] == e);
        }
        if f(entries.last()) {
            let filtered = prefix.filter(f).push(entries.last());
            assert forall|i: int, j: int|
                0 <= i < j < filtered.len() implies (#[trigger] filtered[i]).player_entity != (
            #[trigger] filtered[j]).player_entity by {
                if j < filtered.len() - 1 {
                } else {
                    assert(filtered[i] == prefix.filter(f)[i]);
                    assert(prefix.filter(f).contains(prefix.filter(f)[i]));
                    assert(prefix.contains(filtered[i]));
                    let k = choose|k: int|
                        0 <= k < prefix.len() && prefix[k] == filtered[i];
                    assert(entries[k] == filtered[i]);
                    assert(entries[k].player_entity != entries.last().player_entity);
                }
            }
        }
    }
}

/// A collision of a player with one of their own chain segments.
pub struct ChainReactionEvent {
    pub player_entity: u64,
    pub hit_segment_index: usize,
}

/// A chain segment destroyed by the cascade; carries the points to deduct.
pub struct ChainSegmentDestroyedEvent {
    pub player_entity: u64,
    pub segment_index: usize,
    pub option_text: String,
    pub points_lost: i32,
}

/// A one-shot visual-effect request, fired when a reacting segment starts
/// to vanish.
pub struct SpawnExplosionEvent {
    pub position: Vec2,
    pub color: Rgb,
    pub intensity_permille: u64,
}

/// Radius of the player body, for self-collision.
pub const PLAYER_SIZE: i64 = 20;

/// Whether the player at `player_position` touches the segment entity: the
/// Euclidean distance is within the player radius plus the segment radius.
pub open spec fn spec_collides(player_position: Vec2, e: SegmentEntity) -> bool {
    dist2(player_position, e.position) <= sq(PLAYER_SIZE + CHAIN_SEGMENT_SIZE as int)
}

/// Whether chain position `i` holds a qualifying self-collision: a live
/// segment, not the one nearest the player (index 0 is exempt), within
/// collision distance.
pub open spec fn spec_hit_at(
    arena: SegmentArena,
    chain: PlayerChain,
    player_position: Vec2,
    i: int,
) -> bool {
    let hd = chain.segments@[i] as int;
    &&& arena.live(hd)
    &&& arena.entity(hd).segment.segment_index != 0
    &&& spec_collides(player_position, arena.entity(hd))
}

/// Scans the player's chain for a self-collision, skipping the segment
/// nearest the player; the first hit in chain order wins.  A player whose
/// wave is already running reports nothing (duplicate triggers are
/// ignored).
pub fn detect_player_chain_collision(
    reaction_state: &ChainReactionState,
    arena: &SegmentArena,
    chain: &PlayerChain,
    player_entity: u64,
    player_position: Vec2,
) -> (r: Option<ChainReactionEvent>)
    requires
        arena.wf(),
        chain.wf(*arena),
        player_position.in_limit(),
    ensures
        reaction_state.spec_has_reaction(player_entity) ==> r is None,
        !reaction_state.spec_has_reaction(player_entity) ==> {
            &&& ((r is Some) <==> exists|i: int|
                0 <= i < chain.segments@.len() && spec_hit_at(*arena, *chain, player_position, i))
            &&& (r matches Some(ev) ==> exists|i: int|
                {
                    &&& 0 <= i < chain.segments@.len()
                    &&& spec_hit_at(*arena, *chain, player_position, i)
                    &&& forall|k: int| 0 <= k < i ==> !spec_hit_at(*arena, *chain, player_position, k)
                    &&& ev == (ChainReactionEvent {
                        player_entity,
                        hit_segment_index: arena.entity(
                            chain.segments@[i] as int,
                        ).segment.segment_index,
                    })
                })
        },
{
    if reaction_state.has_reaction_for(player_entity) {
        return None;
    }
    let n = chain.segments.len();
    let mut i: usize = 0;
    while i < n
        invariant
            arena.wf(),
            chain.wf(*arena),
            player_position.in_limit(),
            !reaction_state.spec_has_reaction(player_entity),
            n == chain.segments@.len(),
            0 <= i <= n,
            forall|k: int| 0 <= k < i ==> !spec_hit_at(*arena, *chain, player_position, k),
        decreases n - i,
    {
        let hd = chain.segments[i];
        match arena.read(hd) {
            Some(e) => {
                if e.segment.segment_index != 0 {
                    let dx = e.position.x - player_position.x;
                    let dy = e.position.y - player_position.y;
                    proof {
                        assert(dx * dx <= 4_000_000_000_000_000_000 && dx * dx >= 0)
                            by (nonlinear_arith)
                            requires
                                -2_000_000_000 <= dx <= 2_000_000_000,
                        ;
                        assert(dy * dy <= 4_000_000_000_000_000_000 && dy * dy >= 0)
                            by (nonlinear_arith)
                            requires
                                -2_000_000_000 <= dy <= 2_000_000_000,
                        ;
                    }
                    let d2 = dx * dx + dy * dy;
                    let limit = PLAYER_SIZE + CHAIN_SEGMENT_SIZE;
                    if d2 <= limit * limit {
                        proof {
                            assert(spec_hit_at(*arena, *chain, player_position, i as int));
                        }
                        return Some(
                            ChainReactionEvent {
                                player_entity,
                                hit_segment_index: e.segment.segment_index,
                            },
                        );
                    }
                }
            },
            None => {},
        }
        i = i + 1;
    }
    None
}

/// When no player entry matches, the player filter leaves the entries as
/// they are.
proof fn lemma_without_absent_player(entries: Seq<PlayerReaction>, player: u64)
    requires
        forall|i: int| 0 <= i < entries.len() ==> (#[trigger] entries[i]).player_entity != player,
    ensures
        without_player(entries, player) == entries,
    decreases entries.len(),
{
    reveal_with_fuel(Seq::filter, 2);
    let f = |e: PlayerReaction| e.player_entity != player;
    if entries.len() == 0 {
        assert(entries.filter(f) =~= entries);
    } else {
        let prefix = entries.drop_last();
        assert(forall|i: int|
            0 <= i < prefix.len() ==> (#[trigger] prefix[i]).player_entity != player);
        lemma_without_absent_player(prefix, player);
        assert(entries.filter(f) =~= prefix.push(entries.last()));
        assert(prefix.push(entries.last()) =~= entries);
    }
}

/// Starts the player's wave at the reported hit index, unless that player
/// already has one running (the duplicate trigger is ignored).
pub fn handle_chain_reaction_events(
    reaction_state: &mut ChainReactionState,
    event: &ChainReactionEvent,
)
    requires
        old(reaction_state).wf(),
        event.hit_segment_index <= 1_000_000,
    ensures
        final(reaction_state).wf(),
        final(reaction_state).max_spread_distance == old(reaction_state).max_spread_distance,
        old(reaction_state).spec_has_reaction(event.player_entity) ==> *final(reaction_state)
            == *old(reaction_state),
        !old(reaction_state).spec_has_reaction(event.player_entity) ==> {
            &&& final(reaction_state).active_reactions@ == old(
                reaction_state,
            ).active_reactions@.push(
                PlayerReaction {
                    player_entity: event.player_entity,
                    hit_segment_index: event.hit_segment_index,
                    current_spread_distance: 0,
                },
            )
            &&& final(reaction_state).reaction_spread_timer == (RepeatingTimer {
                acc: 0,
                period: old(reaction_state).reaction_spread_timer.period,
            })
        },
{
    if !reaction_state.has_reaction_for(event.player_entity) {
        proof {
            lemma_without_absent_player(reaction_state.active_reactions@, event.player_entity);
        }
        reaction_state.start_reaction(event.player_entity, event.hit_segment_index);
    }
}

/// Whether the wave of entry `e` catches the slot `h` this tick: a live
/// segment of that player, not yet animating, whose index distance from
/// the hit equals the current spread distance.
pub open spec fn wave_hits(slots: Seq<Option<SegmentEntity>>, e: PlayerReaction, h: int) -> bool {
    &&& is_live_slot(slots, h)
    &&& slots[h]->0.owner == e.player_entity
    &&& slots[h]->0.reaction is None
    &&& abs_i(slots[h]->0.segment.segment_index - e.hit_segment_index)
        == e.current_spread_distance as int
}

/// The slot after a propagation tick: a caught segment starts its
/// destruction animation, everything else stays.
pub open spec fn spec_marked(
    slots: Seq<Option<SegmentEntity>>,
    entries: Seq<PlayerReaction>,
    h: int,
) -> Option<SegmentEntity> {
    if is_live_slot(slots, h) && (exists|k: int|
        0 <= k < entries.len() && wave_hits(slots, #[trigger] entries[k], h)) {
        let e = slots[h]->0;
        Some(
            SegmentEntity {
                owner: e.owner,
                segment: e.segment,
                position: e.position,
                scale_permille: e.scale_permille,
                reaction: Some(
                    ChainReaction {
                        reaction_timer: CountdownTimer {
                            elapsed: 0,
                            duration: REACTION_BALL_DURATION,
                        },
                        reaction_phase: ReactionPhase::Reacting,
                    },
                ),
                merging: e.merging,
            },
        )
    } else {
        if 0 <= h < slots.len() {
            slots[h]
        } else {
            None
        }
    }
}

/// Whether any live segment of the player carries an active destruction
/// animation.
pub open spec fn player_has_reacting(slots: Seq<Option<SegmentEntity>>, player: u64) -> bool {
    exists|h: int|
        is_live_slot(slots, h) && (#[trigger] slots[h])->0.owner == player
            && slots[h]->0.reaction is Some
}

/// Spread distance after one tick; saturates far beyond any reachable
/// index distance, so the saturation is never observable.
pub open spec fn advance_spread(s: int) -> int {
    if s + 1 <= 2_000_001 {
        s + 1
    } else {
        2_000_001
    }
}

/// A wave entry after one propagation tick: the spread distance advances;
/// the entry is removed once the spread has left the configured range and
/// no segment of the player is still animating.
pub open spec fn entry_after_tick(e: PlayerReaction, max_spread: int, animating: bool) -> Option<
    PlayerReaction,
> {
    let advanced = PlayerReaction {
        player_entity: e.player_entity,
        hit_segment_index: e.hit_segment_index,
        current_spread_distance: advance_spread(e.current_spread_distance as int) as i32,
    };
    if advanced.current_spread_distance > max_spread && !animating {
        None
    } else {
        Some(advanced)
    }
}

/// All wave entries after one propagation tick over the already-marked
/// arena, in order.
pub open spec fn entries_after_tick(
    entries: Seq<PlayerReaction>,
    marked: Seq<Option<SegmentEntity>>,
    max_spread: int,
) -> Seq<PlayerReaction>
    decreases entries.len(),
{
    if entries.len() == 0 {
        Seq::empty()
    } else {
        let rest = entries_after_tick(entries.drop_last(), marked, max_spread);
        match entry_after_tick(
            entries.last(),
            max_spread,
            player_has_reacting(marked, entries.last().player_entity),
        ) {
            Some(a) => rest.push(a),
            None => rest,
        }
    }
}

/// Ticking preserves one-entry-per-player and the entry bounds.
proof fn lemma_entries_after_tick_props(
    entries: Seq<PlayerReaction>,
    marked: Seq<Option<SegmentEntity>>,
    max_spread: int,
)
    requires
        distinct_players(entries),
        forall|i: int|
            0 <= i < entries.len() ==> {
                let e = #[trigger] entries[i];
                e.hit_segment_index <= 1_000_000 && 0 <= e.current_spread_distance <= 2_000_001
            },
    ensures
        entries_after_tick(entries, marked, max_spread).len() <= entries.len(),
        distinct_players(entries_after_tick(entries, marked, max_spread)),
        forall|i: int|
            0 <= i < entries_after_tick(entries, marked, max_spread).len() ==> {
                let e = #[trigger] entries_after_tick(entries, marked, max_spread)[i];
                e.hit_segment_index <= 1_000_000 && 0 <= e.current_spread_distance <= 2_000_001
            },
        forall|i: int|
            0 <= i < entries_after_tick(entries, marked, max_spread).len() ==> exists|k: int|
                0 <= k < entries.len() && (#[trigger] entries_after_tick(
                    entries,
                    marked,
                    max_spread,
                )[i]).player_entity == entries[k].player_entity,
    decreases entries.len(),
{
    if entries.len() == 0 {
    } else {
        let prefix = entries.drop_last();
        lemma_entries_after_tick_props(prefix, marked, max_spread);
        let rest = entries_after_tick(prefix, marked, max_spread);
        let whole = entries_after_tick(entries, marked, max_spread);
        assert forall|i: int| 0 <= i < rest.len() implies exists|k: int|
            0 <= k < entries.len() && (#[trigger] rest[i]).player_entity
                == entries[k].player_entity by {
            let k = choose|k: int|
                0 <= k < prefix.len() && rest[i].player_entity == prefix[k].player_entity;
            assert(entries[k].player_entity == rest[i].player_entity);
        }
        match entry_after_tick(
            entries.last(),
            max_spread,
            player_has_reacting(marked, entries.last().player_entity),
        ) {
            Some(a) => {
                assert(whole == rest.push(a));
                assert forall|i: int, j: int|
                    0 <= i < j < whole.len() implies (#[trigger] whole[i]).player_entity != (
                #[trigger] whole[j]).player_entity by {
                    if j < whole.len() - 1 {
                        assert(whole[i] == rest[i] && whole[j] == rest[j]);
                    } else {
                        assert(whole[i] == rest[i]);
                        let k = choose|k: int|
                            0 <= k < prefix.len() && rest[i].player_entity
                                == prefix[k].player_entity;
                        assert(entries[k].player_entity != entries.last().player_entity);
                    }
                }
            },
            None => {
                assert(whole == rest);
            },
        }
    }
}

impl SegmentArena {
    /// Whether any live segment of the player carries an active
    /// destruction animation.
    pub fn has_reacting_segment(&self, player: u64) -> (r: bool)
        ensures
            r == player_has_reacting(self.slots@, player),
    {
        let n = self.slots.len();
        let mut h: usize = 0;
        while h < n
            invariant
                n == self.slots@.len(),
                0 <= h <= n,
                forall|k: int|
                    0 <= k < h ==> !(is_live_slot(self.slots@, k) && (
                    #[trigger] self.slots@[k])->0.owner == player && self.slots@[k]->0.reaction
                        is Some),
            decreases n - h,
        {
            match &self.slots[h] {
                Some(e) => {
                    if e.owner == player {
                        match e.reaction {
                            Some(_) => {
                                return true;
                            },
                            None => {},
                        }
                    }
                },
                None => {},
            }
            h = h + 1;
        }
        false
    }
}

/// One propagation tick of every active wave, driven by the shared spread
/// timer.  When the timer fires, each wave marks the segments at its
/// current index distance from the hit, advances its spread distance, and
/// retires once the spread has left the configured range with no segment
/// of that player still animating.  With no active wave nothing advances,
/// not even the timer.
pub fn update_chain_reaction(
    reaction_state: &mut ChainReactionState,
    arena: &mut SegmentArena,
    delta: u64,
)
    requires
        old(reaction_state).wf(),
        old(arena).wf(),
        delta <= MAX_TIME,
    ensures
        final(reaction_state).wf(),
        final(arena).wf(),
        final(reaction_state).max_spread_distance == old(reaction_state).max_spread_distance,
        final(arena).slots@.len() == old(arena).slots@.len(),
        old(reaction_state).active_reactions@.len() == 0 ==> (*final(reaction_state) == *old(
            reaction_state
        ) && *final(arena) == *old(arena)),
        old(reaction_state).active_reactions@.len() > 0 ==> {
            let fired = old(reaction_state).reaction_spread_timer.acc + delta >= old(
                reaction_state
            ).reaction_spread_timer.period;
            &&& final(reaction_state).reaction_spread_timer.period == old(
                reaction_state
            ).reaction_spread_timer.period
            &&& final(reaction_state).reaction_spread_timer.acc == (old(
                reaction_state
            ).reaction_spread_timer.acc + delta) % (old(
                reaction_state
            ).reaction_spread_timer.period as int)
            &&& !fired ==> (final(reaction_state).active_reactions@ == old(
                reaction_state
            ).active_reactions@ && *final(arena) == *old(arena))
            &&& fired ==> {
                &&& forall|h: int|
                    0 <= h < old(arena).slots@.len() ==> final(arena).slots@[h] == spec_marked(
                        old(arena).slots@,
                        old(reaction_state).active_reactions@,
                        h,
                    )
                &&& final(reaction_state).active_reactions@ == entries_after_tick(
                    old(reaction_state).active_reactions@,
                    final(arena).slots@,
                    old(reaction_state).max_spread_distance as int,
                )
            }
        },
{
    if self_is_empty(reaction_state) {
        return ;
    }
    let fired = reaction_state.reaction_spread_timer.tick(delta);
    if !fired {
        return ;
    }
    let ghost oldslots = arena.slots@;
    let ghost entries = reaction_state.active_reactions@;
    let nslots = arena.slots.len();
    let mut h: usize = 0;
    while h < nslots
        invariant
            old(reaction_state).wf(),
            old(arena).wf(),
            entries == reaction_state.active_reactions@,
            entries == old(reaction_state).active_reactions@,
            reaction_state.max_spread_distance == old(reaction_state).max_spread_distance,
            reaction_state.reaction_spread_timer.wf(),
            nslots == oldslots.len(),
            oldslots == old(arena).slots@,
            0 <= h <= nslots,
            arena.slots@.len() == nslots,
            arena.wf(),
            forall|j: int| 0 <= j < h ==> arena.slots@[j] == spec_marked(oldslots, entries, j),
            forall|j: int| h <= j < nslots ==> arena.slots@[j] == oldslots[j],
        decreases nslots - h,
    {
        let current = arena.read(h);
        match current {
            Some(e) => {
                if match e.reaction {
                    Some(_) => false,
                    None => true,
                } {
                    let nent = reaction_state.active_reactions.len();
                    let mut k: usize = 0;
                    let mut caught = false;
                    while k < nent && !caught
                        invariant
                            old(arena).wf(),
                            old(reaction_state).wf(),
                            entries == reaction_state.active_reactions@,
                            entries == old(reaction_state).active_reactions@,
                            nent == entries.len(),
                            0 <= k <= nent,
                            oldslots == old(arena).slots@,
                            0 <= h < nslots,
                            nslots == oldslots.len(),
                            arena.slots@.len() == nslots,
                            arena.slots@[h as int] == oldslots[h as int],
                            is_live_slot(oldslots, h as int),
                            e == oldslots[h as int]->0,
                            e.reaction is None,
                            !caught ==> forall|q: int|
                                0 <= q < k ==> !wave_hits(oldslots, #[trigger] entries[q], h as int),
                            caught ==> exists|q: int|
                                0 <= q < entries.len() && wave_hits(
                                    oldslots,
                                    #[trigger] entries[q],
                                    h as int,
                                ),
                        decreases nent - k + (if caught { 0int } else { 1int }),
                    {
                        let entry = reaction_state.active_reactions[k];
                        if entry.player_entity == e.owner {
                            let idx = e.segment.segment_index as i64;
                            let hit = entry.hit_segment_index as i64;
                            let dist = if idx >= hit {
                                idx - hit
                            } else {
                                hit - idx
                            };
                            if dist == entry.current_spread_distance as i64 {
                                caught = true;
                            }
                        }
                        k = k + 1;
                    }
                    if caught {
                        let mut marked = e;
                        marked.reaction = Some(ChainReaction::new(REACTION_BALL_DURATION));
                        arena.write(h, marked);
                    }
                }
            },
            None => {},
        }
        h = h + 1;
    }
    let ghost marked = arena.slots@;
    let nent = reaction_state.active_reactions.len();
    let mut kept: Vec<PlayerReaction> = Vec::new();
    let mut k: usize = 0;
    while k < nent
        invariant
            old(reaction_state).wf(),
            entries == reaction_state.active_reactions@,
            entries == old(reaction_state).active_reactions@,
            reaction_state.max_spread_distance == old(reaction_state).max_spread_distance,
            reaction_state.reaction_spread_timer.wf(),
            nent == entries.len(),
            0 <= k <= nent,
            marked == arena.slots@,
            arena.wf(),
            kept@ == entries_after_tick(
                entries.take(k as int),
                marked,
                reaction_state.max_spread_distance as int,
            ),
        decreases nent - k,
    {
        let entry = reaction_state.active_reactions[k];
        proof {
            assert(entries.take(k as int + 1).drop_last() =~= entries.take(k as int));
            assert(entries.take(k as int + 1).last() == entry);
        }
        let advanced_spread: i32 = if entry.current_spread_distance + 1 <= 2_000_001 {
            entry.current_spread_distance + 1
        } else {
            2_000_001
        };
        let advanced = PlayerReaction {
            player_entity: entry.player_entity,
            hit_segment_index: entry.hit_segment_index,
            current_spread_distance: advanced_spread,
        };
        let animating = arena.has_reacting_segment(entry.player_entity);
        if advanced.current_spread_distance > reaction_state.max_spread_distance && !animating {
        } else {
            kept.push(advanced);
        }
        k = k + 1;
    }
    proof {
        assert(entries.take(nent as int) =~= entries);
        lemma_entries_after_tick_props(
            entries,
            marked,
            reaction_state.max_spread_distance as int,
        );
    }
    reaction_state.active_reactions = kept;
}

/// Whether the registry currently has no active wave.
fn self_is_empty(reaction_state: &ChainReactionState) -> (r: bool)
    ensures
        r == (reaction_state.active_reactions@.len() == 0),
{
    reaction_state.active_reactions.len() == 0
}

/// Scale (per-mille) of a segment pulsing up: grows from the base size to
/// three times it over the run (the sinusoidal shimmer on top of this is a
/// rendering concern).
pub open spec fn reacting_scale(elapsed: int, duration: int) -> int {
    1000 + (2000 * elapsed) / duration
}

/// Scale (per-mille) of a vanishing segment: full size until 60 percent of
/// the run, then shrinking to nothing over the remaining 40 percent.
pub open spec fn vanish_scale(elapsed: int, duration: int) -> int {
    if 5 * elapsed <= 3 * duration {
        1000
    } else {
        let vp = (1000 * (5 * elapsed - 3 * duration)) / (2 * duration);
        if vp >= 1000 {
            0
        } else {
            1000 - vp
        }
    }
}

/// Whether this tick carries a pulsing segment past the 60 percent mark,
/// into its vanishing phase (the moment the explosion effect fires).
pub open spec fn reaction_transitions(r: ChainReaction, delta: u64) -> bool {
    &&& r.reaction_phase is Reacting
    &&& 5 * r.reaction_timer.spec_ticked(delta).elapsed > 3 * r.reaction_timer.duration
}

/// A reacting segment entity after one animation tick: the countdown
/// advances, the scale follows the phase it was in, and the phase flips to
/// vanishing past the 60 percent mark.
pub open spec fn spec_reaction_step(e: SegmentEntity, delta: u64) -> SegmentEntity
    recommends
        e.reaction is Some,
{
    let r0 = e.reaction->0;
    let t = r0.reaction_timer.spec_ticked(delta);
    let el = t.elapsed as int;
    let du = t.duration as int;
    match r0.reaction_phase {
        ReactionPhase::Reacting => SegmentEntity {
            owner: e.owner,
            segment: e.segment,
            position: e.position,
            scale_permille: reacting_scale(el, du) as u64,
            reaction: Some(
                ChainReaction {
                    reaction_timer: t,
                    reaction_phase: if 5 * el > 3 * du {
                        ReactionPhase::Vanishing
                    } else {
                        ReactionPhase::Reacting
                    },
                },
            ),
            merging: e.merging,
        },
        ReactionPhase::Vanishing => SegmentEntity {
            owner: e.owner,
            segment: e.segment,
            position: e.position,
            scale_permille: vanish_scale(el, du) as u64,
            reaction: Some(
                ChainReaction { reaction_timer: t, reaction_phase: ReactionPhase::Vanishing },
            ),
            merging: e.merging,
        },
    }
}

/// Whether the destruction countdown runs out during this tick.
pub open spec fn reaction_finished_after(e: SegmentEntity, delta: u64) -> bool {
    e.reaction->0.reaction_timer.spec_ticked(delta).spec_finished()
}

/// A live segment of the player carrying a destruction animation.
pub open spec fn reacting_slot(
    slots: Seq<Option<SegmentEntity>>,
    player: u64,
    h: int,
) -> bool {
    &&& is_live_slot(slots, h)
    &&& slots[h]->0.owner == player
    &&& slots[h]->0.reaction is Some
}

/// The chain handles left after this tick's finished reactions despawn
/// their segments, in order; stale handles of segments that died earlier
/// stay until the cleanup pass.
pub open spec fn chain_after_reactions(
    slots: Seq<Option<SegmentEntity>>,
    handles: Seq<usize>,
    player: u64,
    delta: u64,
) -> Seq<usize>
    decreases handles.len(),
{
    if handles.len() == 0 {
        Seq::empty()
    } else {
        let rest = chain_after_reactions(slots, handles.drop_last(), player, delta);
        let h = handles.last() as int;
        if reacting_slot(slots, player, h) && reaction_finished_after(slots[h]->0, delta) {
            rest
        } else {
            rest.push(handles.last())
        }
    }
}

/// The explosion requests this tick emits for the player, in slot order:
/// one per segment crossing into its vanishing phase, at the segment's
/// position and in its base color.
pub open spec fn explosion_events(
    slots: Seq<Option<SegmentEntity>>,
    player: u64,
    delta: u64,
) -> Seq<SpawnExplosionEvent>
    decreases slots.len(),
{
    if slots.len() == 0 {
        Seq::empty()
    } else {
        let rest = explosion_events(slots.drop_last(), player, delta);
        let h = slots.len() - 1;
        if reacting_slot(slots, player, h) && reaction_transitions(slots[h]->0.reaction->0, delta) {
            rest.push(
                SpawnExplosionEvent {
                    position: slots[h]->0.position,
                    color: slots[h]->0.segment.base_color,
                    intensity_permille: 1000,
                },
            )
        } else {
            rest
        }
    }
}

/// The destruction events this tick emits for the player, in slot order:
/// one per segment whose countdown runs out, with the points lost.
pub open spec fn destroyed_events(
    slots: Seq<Option<SegmentEntity>>,
    player: u64,
    delta: u64,
) -> Seq<ChainSegmentDestroyedEvent>
    decreases slots.len(),
{
    if slots.len() == 0 {
        Seq::empty()
    } else {
        let rest = destroyed_events(slots.drop_last(), player, delta);
        let h = slots.len() - 1;
        if reacting_slot(slots, player, h) && reaction_finished_after(slots[h]->0, delta) {
            rest.push(
                ChainSegmentDestroyedEvent {
                    player_entity: player,
                    segment_index: slots[h]->0.segment.segment_index,
                    option_text: slots[h]->0.segment.option_text,
                    points_lost: POINTS_LOST_PER_SEGMENT,
                },
            )
        } else {
            rest
        }
    }
}

/// The reaction filter keeps the chain distinct and drawn from the
/// original.
proof fn lemma_chain_after_reactions_props(
    slots: Seq<Option<SegmentEntity>>,
    handles: Seq<usize>,
    player: u64,
    delta: u64,
)
    requires
        crate::chain::distinct_handles(handles),
    ensures
        chain_after_reactions(slots, handles, player, delta).len() <= handles.len(),
        crate::chain::distinct_handles(chain_after_reactions(slots, handles, player, delta)),
        forall|i: int|
            0 <= i < chain_after_reactions(slots, handles, player, delta).len()
                ==> handles.contains(
                #[trigger] chain_after_reactions(slots, handles, player, delta)[i],
            ),
    decreases handles.len(),
{
    if handles.len() == 0 {
    } else {
        let prefix = handles.drop_last();
        lemma_chain_after_reactions_props(slots, prefix, player, delta);
        let rest = chain_after_reactions(slots, prefix, player, delta);
        let whole = chain_after_reactions(slots, handles, player, delta);
        assert forall|i: int| 0 <= i < rest.len() implies handles.contains(#[trigger] rest[i]) by {
            let k = choose|k: int| 0 <= k < prefix.len() && prefix[k] == rest[i];
            assert(handles[k] == rest[i]);
        }
        let h = handles.last() as int;
        if !(reacting_slot(slots, player, h) && reaction_finished_after(slots[h]->0, delta)) {
            assert(whole == rest.push(handles.last()));
            assert forall|i: int, j: int| 0 <= i < j < whole.len() implies whole[i] != whole[j] by {
                if j < whole.len() - 1 {
                    assert(whole[i] == rest[i] && whole[j] == rest[j]);
                } else {
                    assert(whole[i] == rest[i]);
                    assert(prefix.contains(rest[i]));
                    let k = choose|k: int| 0 <= k < prefix.len() && prefix[k] == rest[i];
                    assert(handles[k] == rest[i]);
                    assert(handles[k] != handles.last());
                }
            }
            assert(handles.contains(handles.last()));
        }
    }
}

/// One animation tick of the player's reacting segments: countdowns
/// advance, scales pulse then shrink, segments crossing the 60 percent
/// mark fire an explosion request, and segments whose countdown runs out
/// emit a destruction event, leave the chain list and despawn.
pub fn animate_reacting_segments(
    arena: &mut SegmentArena,
    chain: &mut PlayerChain,
    player_entity: u64,
    delta: u64,
    explosions: &mut Vec<SpawnExplosionEvent>,
    destroyed: &mut Vec<ChainSegmentDestroyedEvent>,
)
    requires
        old(arena).wf(),
        old(chain).wf(*old(arena)),
        delta <= MAX_TIME,
    ensures
        final(arena).wf(),
        final(chain).wf(*final(arena)),
        final(chain).max_segments == old(chain).max_segments,
        final(arena).slots@.len() == old(arena).slots@.len(),
        final(chain).segments@ == chain_after_reactions(
            old(arena).slots@,
            old(chain).segments@,
            player_entity,
            delta,
        ),
        forall|h: int|
            0 <= h < old(arena).slots@.len() ==> {
                let slot = #[trigger] old(arena).slots@[h];
                &&& (reacting_slot(old(arena).slots@, player_entity, h) ==> final(arena).slots@[h]
                    == (if reaction_finished_after(slot->0, delta) {
                    None
                } else {
                    Some(spec_reaction_step(slot->0, delta))
                }))
                &&& (!reacting_slot(old(arena).slots@, player_entity, h)
                    ==> final(arena).slots@[h] == slot)
            },
        final(explosions)@ == old(explosions)@ + explosion_events(
            old(arena).slots@,
            player_entity,
            delta,
        ),
        final(destroyed)@ == old(destroyed)@ + destroyed_events(
            old(arena).slots@,
            player_entity,
            delta,
        ),
{
    let ghost oldslots = arena.slots@;
    let ghost oldhandles = chain.segments@;
    let n = chain.segments.len();
    let mut kept: Vec<usize> = Vec::new();
    let mut i: usize = 0;
    while i < n
        invariant
            old(arena).wf(),
            old(chain).wf(*old(arena)),
            delta <= MAX_TIME,
            oldslots == arena.slots@,
            oldslots == old(arena).slots@,
            oldhandles == chain.segments@,
            oldhandles == old(chain).segments@,
            chain.max_segments == old(chain).max_segments,
            n == oldhandles.len(),
            0 <= i <= n,
            kept@ == chain_after_reactions(
                oldslots,
                oldhandles.take(i as int),
                player_entity,
                delta,
            ),
        decreases n - i,
    {
        let hd = chain.segments[i];
        proof {
            assert(oldhandles.take(i as int + 1).drop_last() =~= oldhandles.take(i as int));
            assert(oldhandles.take(i as int + 1).last() == hd);
        }
        let mut keep = true;
        match arena.read(hd) {
            Some(e) => {
                if e.owner == player_entity {
                    match e.reaction {
                        Some(r) => {
                            if delta >= r.reaction_timer.duration - r.reaction_timer.elapsed {
                                keep = false;
                            }
                        },
                        None => {},
                    }
                }
            },
            None => {},
        }
        if keep {
            kept.push(hd);
        }
        i = i + 1;
    }
    proof {
        assert(oldhandles.take(n as int) =~= oldhandles);
        lemma_chain_after_reactions_props(oldslots, oldhandles, player_entity, delta);
    }
    chain.segments = kept;
    let nslots = arena.slots.len();
    let mut h: usize = 0;
    while h < nslots
        invariant
            old(arena).wf(),
            delta <= MAX_TIME,
            oldslots == old(arena).slots@,
            nslots == oldslots.len(),
            0 <= h <= nslots,
            arena.slots@.len() == nslots,
            arena.wf(),
            forall|j: int|
                0 <= j < h ==> {
                    let slot = #[trigger] oldslots[j];
                    &&& (reacting_slot(oldslots, player_entity, j) ==> arena.slots@[j] == (
                    if reaction_finished_after(slot->0, delta) {
                        None
                    } else {
                        Some(spec_reaction_step(slot->0, delta))
                    }))
                    &&& (!reacting_slot(oldslots, player_entity, j) ==> arena.slots@[j] == slot)
                },
            forall|j: int| h <= j < nslots ==> arena.slots@[j] == oldslots[j],
            explosions@ == old(explosions)@ + explosion_events(
                oldslots.take(h as int),
                player_entity,
                delta,
            ),
            destroyed@ == old(destroyed)@ + destroyed_events(
                oldslots.take(h as int),
                player_entity,
                delta,
            ),
        decreases nslots - h,
    {
        proof {
            assert(oldslots.take(h as int + 1).drop_last() =~= oldslots.take(h as int));
            assert(oldslots.take(h as int + 1).last() == oldslots[h as int]);
            assert(oldslots.take(h as int + 1).len() - 1 == h as int);
            assert forall|q: int| 0 <= q < h + 1 implies oldslots.take(h as int + 1)[q]
                == oldslots[q] by {}
        }
        let current = arena.read(h);
        match current {
            Some(e) => {
                if e.owner == player_entity {
                    match e.reaction {
                        Some(r) => {
                            let mut timer = r.reaction_timer;
                            timer.tick(delta);
                            let transitions = match r.reaction_phase {
                                ReactionPhase::Reacting => 5 * timer.elapsed > 3 * timer.duration,
                                ReactionPhase::Vanishing => false,
                            };
                            if transitions {
                                explosions.push(
                                    SpawnExplosionEvent {
                                        position: e.position,
                                        color: e.segment.base_color,
                                        intensity_permille: 1000,
                                    },
                                );
                            }
                            if timer.elapsed >= timer.duration {
                                destroyed.push(
                                    ChainSegmentDestroyedEvent {
                                        player_entity,
                                        segment_index: e.segment.segment_index,
                                        option_text: e.segment.option_text.clone(),
                                        points_lost: POINTS_LOST_PER_SEGMENT,
                                    },
                                );
                                arena.despawn(h);
                            } else {
                                let scale: u64 = match r.reaction_phase {
                                    ReactionPhase::Reacting => 1000 + (2000 * timer.elapsed)
                                        / timer.duration,
                                    ReactionPhase::Vanishing => {
                                        if 5 * timer.elapsed <= 3 * timer.duration {
                                            1000
                                        } else {
                                            let vp = (1000 * (5 * timer.elapsed - 3
                                                * timer.duration)) / (2 * timer.duration);
                                            if vp >= 1000 {
                                                0
                                            } else {
                                                1000 - vp
                                            }
                                        }
                                    },
                                };
                                let phase = match r.reaction_phase {
                                    ReactionPhase::Reacting => {
                                        if 5 * timer.elapsed > 3 * timer.duration {
                                            ReactionPhase::Vanishing
                                        } else {
                                            ReactionPhase::Reacting
                                        }
                                    },
                                    ReactionPhase::Vanishing => ReactionPhase::Vanishing,
                                };
                                let mut updated = e;
                                updated.scale_permille = scale;
                                updated.reaction = Some(
                                    ChainReaction {
                                        reaction_timer: timer,
                                        reaction_phase: phase,
                                    },
                                );
                                arena.write(h, updated);
                            }
                        },
                        None => {},
                    }
                }
            },
            None => {},
        }
        h = h + 1;
    }
    proof {
        assert(oldslots.take(nslots as int) =~= oldslots);
    }
}

/// A wave entry after `n` propagation ticks during which the player has no
/// animating segment left.
pub open spec fn entry_after_idle_ticks(e: PlayerReaction, max_spread: int, n: nat) -> Option<
    PlayerReaction,
>
    decreases n,
{
    if n == 0 {
        Some(e)
    } else {
        match entry_after_idle_ticks(e, max_spread, (n - 1) as nat) {
            Some(e2) => entry_after_tick(e2, max_spread, false),
            None => None,
        }
    }
}

/// While the entry survives idle ticks, its spread distance counts them.
proof fn lemma_spread_counts_ticks(e: PlayerReaction, max_spread: int, n: nat)
    requires
        e.current_spread_distance == 0,
        0 <= max_spread <= 1_000_000,
        n <= max_spread,
    ensures
        entry_after_idle_ticks(e, max_spread, n) matches Some(e2) && e2.current_spread_distance
            == n && e2.player_entity == e.player_entity,
    decreases n,
{
    if n == 0 {
    } else {
        lemma_spread_counts_ticks(e, max_spread, (n - 1) as nat);
    }
}

/// Cascade termination: once no segment of the player is animating, the
/// player's wave entry is removed within `max_spread_distance + 1`
/// propagation ticks of the triggering collision (which started it at
/// spread 0), and stays removed.
pub proof fn lemma_cascade_terminates(e: PlayerReaction, max_spread: int, n: nat)
    requires
        e.current_spread_distance == 0,
        0 <= max_spread <= 1_000_000,
        n >= max_spread + 1,
    ensures
        entry_after_idle_ticks(e, max_spread, n) is None,
    decreases n,
{
    if n == max_spread + 1 {
        lemma_spread_counts_ticks(e, max_spread, (n - 1) as nat);
    } else {
        lemma_cascade_terminates(e, max_spread, (n - 1) as nat);
    }
}

} // verus!
