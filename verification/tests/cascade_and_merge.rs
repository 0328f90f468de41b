use chain_game::chain::{create_chain_segment_for_player, PlayerChain, SegmentArena};
use chain_game::geometry::Vec2;
use chain_game::merge::{
    animate_merging_segments, detect_chain_merges, handle_chain_merge_events,
    update_merge_cooldown, ChainMergeState, MERGE_ANIMATION_DURATION, MERGE_COOLDOWN_DURATION,
};
use chain_game::reaction::{
    animate_reacting_segments, detect_player_chain_collision, handle_chain_reaction_events,
    update_chain_reaction, ChainReactionEvent, ChainReactionState, ChainSegmentDestroyedEvent,
    ReactionPhase, SpawnExplosionEvent, POINTS_LOST_PER_SEGMENT, REACTION_SPREAD_INTERVAL,
};
use chain_game::segment::Rgb;
use chain_game::timer::RepeatingTimer;

fn p(x: i64, y: i64) -> Vec2 {
    Vec2 { x, y }
}

fn color() -> Rgb {
    Rgb { r: 500, g: 800, b: 300 }
}

fn attach_at(
    arena: &mut SegmentArena,
    chain: &mut PlayerChain,
    player: u64,
    id: usize,
    pos: Vec2,
) -> usize {
    create_chain_segment_for_player(
        arena,
        chain,
        player,
        pos,
        format!("opt{}", id),
        id,
        color(),
    )
}

fn reacting_indices(arena: &SegmentArena, chain: &PlayerChain) -> Vec<usize> {
    let mut out = Vec::new();
    for &h in &chain.segments {
        if let Some(e) = arena.read(h) {
            if e.reaction.is_some() {
                out.push(e.segment.segment_index);
            }
        }
    }
    out
}

#[test]
fn collision_skips_the_first_segment_and_reports_the_nearest_hit() {
    let mut arena = SegmentArena::new();
    let mut chain = PlayerChain::new();
    let state = ChainReactionState::new();
    let h0 = attach_at(&mut arena, &mut chain, 1, 0, p(0, 0));
    let h1 = attach_at(&mut arena, &mut chain, 1, 1, p(500, 0));
    // Player sits on segment 0 only: exempt, no reaction.
    assert!(
        detect_player_chain_collision(&state, &arena, &chain, 1, p(0, 0)).is_none()
    );
    // Player touches segment 1 (distance 10 <= 32).
    let ev = detect_player_chain_collision(&state, &arena, &chain, 1, p(490, 0)).unwrap();
    assert_eq!(ev.player_entity, 1);
    assert_eq!(ev.hit_segment_index, 1);
    let _ = (h0, h1);
}

#[test]
fn duplicate_reaction_triggers_are_ignored() {
    let mut state = ChainReactionState::new();
    handle_chain_reaction_events(
        &mut state,
        &ChainReactionEvent { player_entity: 1, hit_segment_index: 2 },
    );
    handle_chain_reaction_events(
        &mut state,
        &ChainReactionEvent { player_entity: 1, hit_segment_index: 4 },
    );
    assert_eq!(state.active_reactions.len(), 1);
    assert_eq!(state.active_reactions[0].hit_segment_index, 2);
    assert_eq!(state.active_reactions[0].current_spread_distance, 0);
}

#[test]
fn cascade_spreads_one_index_per_tick_and_retires() {
    let mut arena = SegmentArena::new();
    let mut chain = PlayerChain::new();
    for i in 0..5 {
        attach_at(&mut arena, &mut chain, 1, i, p((i as i64) * 30, 0));
    }
    let mut state = ChainReactionState {
        active_reactions: Vec::new(),
        reaction_spread_timer: RepeatingTimer::new(REACTION_SPREAD_INTERVAL),
        max_spread_distance: 2,
    };
    handle_chain_reaction_events(
        &mut state,
        &ChainReactionEvent { player_entity: 1, hit_segment_index: 2 },
    );
    let mut explosions: Vec<SpawnExplosionEvent> = Vec::new();
    let mut destroyed: Vec<ChainSegmentDestroyedEvent> = Vec::new();

    // Tick 1: the hit segment itself starts reacting.
    update_chain_reaction(&mut state, &mut arena, 100);
    assert_eq!(reacting_indices(&arena, &chain), vec![2]);
    // Tick 2: its direct neighbours.
    update_chain_reaction(&mut state, &mut arena, 100);
    assert_eq!(reacting_indices(&arena, &chain), vec![1, 2, 3]);
    // Tick 3: the chain ends.
    update_chain_reaction(&mut state, &mut arena, 100);
    assert_eq!(reacting_indices(&arena, &chain), vec![0, 1, 2, 3, 4]);
    assert_eq!(state.active_reactions.len(), 1);

    // Let every destruction animation run out: all segments are destroyed.
    animate_reacting_segments(&mut arena, &mut chain, 1, 500, &mut explosions, &mut destroyed);
    assert_eq!(chain.segments.len(), 0);
    assert_eq!(destroyed.len(), 5);

    // Tick 4: the spread has left the range and nothing is animating.
    update_chain_reaction(&mut state, &mut arena, 100);
    assert_eq!(state.active_reactions.len(), 0);
}

#[test]
fn reacting_segment_explodes_at_sixty_percent_and_scores_on_destruction() {
    let mut arena = SegmentArena::new();
    let mut chain = PlayerChain::new();
    attach_at(&mut arena, &mut chain, 1, 0, p(0, 0));
    attach_at(&mut arena, &mut chain, 1, 1, p(40, 0));
    let mut state = ChainReactionState::new();
    handle_chain_reaction_events(
        &mut state,
        &ChainReactionEvent { player_entity: 1, hit_segment_index: 1 },
    );
    update_chain_reaction(&mut state, &mut arena, 100);
    assert_eq!(reacting_indices(&arena, &chain), vec![1]);

    let mut explosions: Vec<SpawnExplosionEvent> = Vec::new();
    let mut destroyed: Vec<ChainSegmentDestroyedEvent> = Vec::new();
    // 60 percent of the 500 ms countdown is 300 ms; 301 ms crosses it.
    animate_reacting_segments(&mut arena, &mut chain, 1, 301, &mut explosions, &mut destroyed);
    assert_eq!(explosions.len(), 1);
    assert_eq!(explosions[0].position, p(40, 0));
    assert_eq!(explosions[0].color, color());
    assert!(destroyed.is_empty());
    let e = arena.read(chain.segments[1]).unwrap();
    assert_eq!(e.reaction.unwrap().reaction_phase, ReactionPhase::Vanishing);

    // The rest of the countdown destroys the segment and deducts points.
    animate_reacting_segments(&mut arena, &mut chain, 1, 199, &mut explosions, &mut destroyed);
    assert_eq!(explosions.len(), 1);
    assert_eq!(destroyed.len(), 1);
    assert_eq!(destroyed[0].segment_index, 1);
    assert_eq!(destroyed[0].option_text, "opt1");
    assert_eq!(destroyed[0].points_lost, POINTS_LOST_PER_SEGMENT);
    assert_eq!(chain.segments.len(), 1);
}

#[test]
fn merge_detection_covers_the_first_run_and_leaves_the_rest() {
    let mut arena = SegmentArena::new();
    let mut chain = PlayerChain::new();
    // A chain [A, A, A, B]: the first three match in kind and level.
    let ha0 = attach_at(&mut arena, &mut chain, 1, 7, p(0, 0));
    let ha1 = attach_at(&mut arena, &mut chain, 1, 7, p(30, 0));
    let ha2 = attach_at(&mut arena, &mut chain, 1, 7, p(60, 0));
    let hb = attach_at(&mut arena, &mut chain, 1, 8, p(90, 0));
    let merge_state = ChainMergeState::new();
    let ev = detect_chain_merges(&merge_state, &arena, &chain, 1, 0).unwrap();
    assert_eq!(ev.player_entity, 1);
    assert_eq!(ev.new_level, 2);
    assert_eq!(ev.option_color, color());
    assert_eq!(ev.merge_segments, vec![(ha0, 0), (ha1, 1), (ha2, 2)]);
    assert!(!ev.merge_segments.iter().any(|&(h, _)| h == hb));
}

#[test]
fn mixed_windows_never_merge() {
    let mut arena = SegmentArena::new();
    let mut chain = PlayerChain::new();
    attach_at(&mut arena, &mut chain, 1, 7, p(0, 0));
    attach_at(&mut arena, &mut chain, 1, 8, p(30, 0));
    attach_at(&mut arena, &mut chain, 1, 7, p(60, 0));
    attach_at(&mut arena, &mut chain, 1, 8, p(90, 0));
    let merge_state = ChainMergeState::new();
    assert!(detect_chain_merges(&merge_state, &arena, &chain, 1, 0).is_none());
}

#[test]
fn merge_runs_to_completion_and_upgrades_the_survivor() {
    let mut arena = SegmentArena::new();
    let mut chain = PlayerChain::new();
    let ha0 = attach_at(&mut arena, &mut chain, 1, 7, p(0, 0));
    let ha1 = attach_at(&mut arena, &mut chain, 1, 7, p(30, 0));
    let ha2 = attach_at(&mut arena, &mut chain, 1, 7, p(60, 0));
    let hb = attach_at(&mut arena, &mut chain, 1, 8, p(90, 0));
    let mut merge_state = ChainMergeState::new();
    let ev = detect_chain_merges(&merge_state, &arena, &chain, 1, 0).unwrap();
    handle_chain_merge_events(&ev, &mut merge_state, &mut arena, 0);

    // The middle participant is the survivor; donors head for its spot.
    let donor = arena.read(ha0).unwrap().merging.unwrap();
    assert!(!donor.is_target_segment);
    assert_eq!(donor.target_position, p(30, 0));
    let target = arena.read(ha1).unwrap().merging.unwrap();
    assert!(target.is_target_segment);

    let cleanup = animate_merging_segments(&mut arena, 1, MERGE_ANIMATION_DURATION);
    assert!(cleanup);
    assert!(arena.read(ha0).is_none());
    assert!(arena.read(ha2).is_none());
    let survivor = arena.read(ha1).unwrap();
    assert_eq!(survivor.segment.level, 2);
    assert_eq!(survivor.segment.merge_value, 3);
    assert!(survivor.merging.is_none());
    // B is untouched.
    let b = arena.read(hb).unwrap();
    assert_eq!(b.segment.level, 1);
    assert!(b.merging.is_none());

    chain.cleanup_and_reindex(&mut arena);
    assert_eq!(chain.segments, vec![ha1, hb]);
    assert_eq!(arena.read(ha1).unwrap().segment.segment_index, 0);
    assert_eq!(arena.read(hb).unwrap().segment.segment_index, 1);
}

#[test]
fn cooldown_blocks_a_second_merge_until_it_runs_out() {
    let mut arena = SegmentArena::new();
    let mut chain = PlayerChain::new();
    for i in 0..6 {
        attach_at(&mut arena, &mut chain, 1, 7, p((i as i64) * 30, 0));
    }
    let mut merge_state = ChainMergeState::new();
    let first = detect_chain_merges(&merge_state, &arena, &chain, 1, 0).unwrap();
    handle_chain_merge_events(&first, &mut merge_state, &mut arena, 0);
    // Immediately afterwards the same player may not merge again.
    assert!(detect_chain_merges(&merge_state, &arena, &chain, 1, 100).is_none());
    // Even with the global cooldown ticked down, the per-player log blocks
    // a merge until the full window has passed.
    update_merge_cooldown(&mut merge_state, MERGE_COOLDOWN_DURATION);
    assert!(detect_chain_merges(&merge_state, &arena, &chain, 1, 999).is_none());
    // After the cooldown window the player may merge again.
    assert!(
        detect_chain_merges(&merge_state, &arena, &chain, 1, MERGE_COOLDOWN_DURATION).is_some()
    );
}
