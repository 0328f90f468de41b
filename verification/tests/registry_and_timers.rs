use chain_game::chain::{
    create_chain_segment_for_player, setup_player_chain, PlayerChain, SegmentArena,
};
use chain_game::geometry::{handle_map_wraparound, MapBounds, Vec2};
use chain_game::reaction::ChainReactionState;
use chain_game::segment::Rgb;
use chain_game::timer::{CountdownTimer, RepeatingTimer};

fn p(x: i64, y: i64) -> Vec2 {
    Vec2 { x, y }
}

#[test]
fn countdown_saturates_and_resets() {
    let mut t = CountdownTimer::new(500);
    assert!(!t.finished());
    t.tick(499);
    assert!(!t.finished());
    t.tick(1);
    assert!(t.finished());
    t.tick(1000);
    assert_eq!(t.elapsed, 500);
    t.reset();
    assert!(!t.finished());
    assert_eq!(t.elapsed, 0);
}

#[test]
fn repeating_timer_keeps_the_remainder() {
    let mut t = RepeatingTimer::new(100);
    assert!(!t.tick(60));
    assert!(t.tick(60)); // 120 crosses the period, 20 carries over
    assert_eq!(t.acc, 20);
    assert!(t.tick(80));
    assert_eq!(t.acc, 0);
}

#[test]
fn fresh_player_state_is_empty() {
    let (chain, trail) = setup_player_chain();
    assert_eq!(chain.segments.len(), 0);
    assert_eq!(chain.max_segments, 20);
    assert_eq!(trail.positions.len(), 0);
    let defaulted = PlayerChain::default();
    assert_eq!(defaulted.max_segments, 20);
}

#[test]
fn remove_segment_defers_reindexing() {
    let mut arena = SegmentArena::new();
    let mut chain = PlayerChain::new();
    let color = Rgb { r: 300, g: 500, b: 800 };
    let h0 = create_chain_segment_for_player(
        &mut arena,
        &mut chain,
        1,
        p(0, 0),
        String::from("a"),
        0,
        color,
    );
    let h1 = create_chain_segment_for_player(
        &mut arena,
        &mut chain,
        1,
        p(30, 0),
        String::from("b"),
        1,
        color,
    );
    let h2 = create_chain_segment_for_player(
        &mut arena,
        &mut chain,
        1,
        p(60, 0),
        String::from("c"),
        2,
        color,
    );
    chain.remove_segment(h1);
    // The handle leaves the list, but indices are untouched until cleanup.
    assert_eq!(chain.segments, vec![h0, h2]);
    assert_eq!(arena.read(h2).unwrap().segment.segment_index, 2);
    arena.despawn(h1);
    chain.cleanup_and_reindex(&mut arena);
    assert_eq!(arena.read(h2).unwrap().segment.segment_index, 1);
}

#[test]
fn map_wraparound_reenters_on_the_opposite_edge() {
    let bounds = MapBounds { half_width: 400, half_height: 300 };
    assert_eq!(handle_map_wraparound(p(410, 0), bounds), p(-390, 0));
    assert_eq!(handle_map_wraparound(p(-410, -310), bounds), p(390, 290));
    assert_eq!(handle_map_wraparound(p(100, 200), bounds), p(100, 200));
}

#[test]
fn duplicate_wave_entries_replace_stale_state() {
    let mut state = ChainReactionState::new();
    state.start_reaction(1, 4);
    state.start_reaction(2, 7);
    state.start_reaction(1, 9); // restarts player 1's wave
    assert_eq!(state.active_reactions.len(), 2);
    let entry = state
        .active_reactions
        .iter()
        .find(|e| e.player_entity == 1)
        .unwrap();
    assert_eq!(entry.hit_segment_index, 9);
    assert_eq!(entry.current_spread_distance, 0);
    state.remove_completed_reaction(1);
    assert_eq!(state.active_reactions.len(), 1);
    assert_eq!(state.active_reactions[0].player_entity, 2);
}

#[test]
fn idle_pulse_phase_advances() {
    let mut arena = SegmentArena::new();
    let mut chain = PlayerChain::new();
    let color = Rgb { r: 300, g: 500, b: 800 };
    let h = create_chain_segment_for_player(
        &mut arena,
        &mut chain,
        1,
        p(0, 0),
        String::from("a"),
        0,
        color,
    );
    let before = arena.read(h).unwrap().segment.pulse_phase;
    chain_game::chain::animate_chain_segments(&mut arena, 50);
    let after = arena.read(h).unwrap().segment.pulse_phase;
    assert_eq!(after, before + 100);
}

#[test]
fn merge_detection_on_an_empty_chain_is_a_no_op() {
    let arena = SegmentArena::new();
    let chain = PlayerChain::new();
    let merge_state = chain_game::merge::ChainMergeState::new();
    assert!(chain_game::merge::detect_chain_merges(&merge_state, &arena, &chain, 1, 0).is_none());
}

#[test]
fn idle_reaction_registry_does_not_tick_its_timer() {
    let mut state = ChainReactionState::new();
    let mut arena = SegmentArena::new();
    chain_game::reaction::update_chain_reaction(&mut state, &mut arena, 1000);
    assert_eq!(state.reaction_spread_timer.acc, 0);
}

#[test]
fn trail_capacity_drops_the_oldest_points() {
    let mut trail = chain_game::trail::MovementTrail::new();
    for i in 0..1100 {
        trail.add_position(p(i * 10, 0));
    }
    assert_eq!(trail.positions.len(), 1000);
    assert_eq!(trail.positions[0], p(10990, 0)); // newest in front
    assert_eq!(trail.positions[999], p(1000, 0)); // oldest surviving point
}
