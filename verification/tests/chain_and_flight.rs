use chain_game::chain::{
    create_chain_segment_for_player, update_chain_positions, PlayerChain, SegmentArena,
};
use chain_game::flight::{
    create_flying_to_chain_objects, handle_chain_extend_events, update_flying_objects,
    ChainExtendEvent, FlyingToChain, OptionCollectedEvent,
};
use chain_game::geometry::{MapBounds, Vec2};
use chain_game::segment::{enhance_color_for_level, ChainSegment, Rgb};
use chain_game::trail::MovementTrail;

fn p(x: i64, y: i64) -> Vec2 {
    Vec2 { x, y }
}

fn blue() -> Rgb {
    Rgb { r: 300, g: 500, b: 800 }
}

fn attach(arena: &mut SegmentArena, chain: &mut PlayerChain, player: u64, id: usize) -> usize {
    create_chain_segment_for_player(
        arena,
        chain,
        player,
        p(0, 0),
        format!("opt{}", id),
        id,
        blue(),
    )
}

#[test]
fn attach_appends_at_the_tail() {
    let mut arena = SegmentArena::new();
    let mut chain = PlayerChain::new();
    let h0 = attach(&mut arena, &mut chain, 1, 7);
    let h1 = attach(&mut arena, &mut chain, 1, 8);
    assert_eq!(chain.segments, vec![h0, h1]);
    let e0 = arena.read(h0).unwrap();
    let e1 = arena.read(h1).unwrap();
    assert_eq!(e0.segment.segment_index, 0);
    assert_eq!(e1.segment.segment_index, 1);
    assert_eq!(e1.segment.option_id, 8);
    assert_eq!(e1.segment.level, 1);
    assert_eq!(e1.segment.merge_value, 1);
    assert_eq!(e1.owner, 1);
}

#[test]
fn attach_at_capacity_evicts_the_oldest_and_shifts_indices() {
    let mut arena = SegmentArena::new();
    let mut chain = PlayerChain::new();
    let mut handles = Vec::new();
    for i in 0..20 {
        handles.push(attach(&mut arena, &mut chain, 1, i));
    }
    assert_eq!(chain.segments.len(), 20);
    let newest = attach(&mut arena, &mut chain, 1, 99);
    assert_eq!(chain.segments.len(), 20);
    // The oldest segment is gone, the rest shifted down by one.
    assert!(arena.read(handles[0]).is_none());
    for i in 1..20 {
        let e = arena.read(handles[i]).unwrap();
        assert_eq!(e.segment.segment_index, i - 1);
    }
    let e = arena.read(newest).unwrap();
    assert_eq!(e.segment.segment_index, 19);
    assert_eq!(chain.segments[19], newest);
}

#[test]
fn cleanup_and_reindex_restores_contiguous_indices() {
    let mut arena = SegmentArena::new();
    let mut chain = PlayerChain::new();
    let h0 = attach(&mut arena, &mut chain, 1, 0);
    let h1 = attach(&mut arena, &mut chain, 1, 1);
    let h2 = attach(&mut arena, &mut chain, 1, 2);
    arena.despawn(h1);
    chain.cleanup_and_reindex(&mut arena);
    assert_eq!(chain.segments, vec![h0, h2]);
    for (i, &h) in chain.segments.iter().enumerate() {
        assert_eq!(arena.read(h).unwrap().segment.segment_index, i);
    }
}

#[test]
fn repositioning_moves_segments_toward_their_trail_targets() {
    let bounds = MapBounds {
        half_width: 1000,
        half_height: 1000,
    };
    let mut arena = SegmentArena::new();
    let mut chain = PlayerChain::new();
    let h = attach(&mut arena, &mut chain, 1, 0);
    let mut trail = MovementTrail::new();
    trail.add_position(p(0, 0));
    trail.add_position(p(100, 0));
    // Target for index 0 is 25 units behind the front (100,0): (75,0).
    // One pass covers 15 percent of the gap from (0,0).
    update_chain_positions(&mut arena, &chain, &trail, bounds);
    let e = arena.read(h).unwrap();
    assert_eq!(e.position, p(11, 0)); // 15 percent of 75, rounded down
}

#[test]
fn incorrect_answers_never_extend_the_chain() {
    let ev = OptionCollectedEvent {
        player_entity: 1,
        option_text: String::from("der"),
        option_id: 0,
        is_correct: false,
    };
    assert!(handle_chain_extend_events(&ev, p(0, 0)).is_none());
    let ok = OptionCollectedEvent {
        player_entity: 1,
        option_text: String::from("die"),
        option_id: 1,
        is_correct: true,
    };
    let ext = handle_chain_extend_events(&ok, p(5, 6)).unwrap();
    assert_eq!(ext.collect_position, p(5, 6));
    assert_eq!(ext.option_color, Rgb { r: 800, g: 500, b: 300 });
}

#[test]
fn flying_object_arcs_and_lands_on_its_target() {
    let mut f = FlyingToChain::new(p(0, 0), p(100, 0), String::from("x"), 0, blue());
    f.flight_timer.tick(400); // halfway through the 800 ms flight
    let mid = f.current_position();
    assert_eq!(mid, p(50, 50)); // linear midpoint plus full 50-unit arc peak
    assert_eq!(f.current_scale_permille(), 1300);
    f.flight_timer.tick(400);
    assert_eq!(f.current_position(), p(100, 0));
    assert_eq!(f.current_scale_permille(), 1000);
}

#[test]
fn flight_target_falls_back_to_the_pickup_point() {
    let trail = MovementTrail::new();
    let ev = ChainExtendEvent {
        player_entity: 1,
        option_text: String::from("x"),
        option_id: 0,
        option_color: blue(),
        collect_position: p(33, 44),
    };
    let f = create_flying_to_chain_objects(0, &trail, &ev);
    assert_eq!(f.target_position, p(33, 44));
}

#[test]
fn arrived_flyers_become_chain_segments() {
    let mut arena = SegmentArena::new();
    let mut chain = PlayerChain::new();
    let mut flyers = vec![
        FlyingToChain::new(p(0, 0), p(60, 0), String::from("der"), 3, blue()),
        FlyingToChain::new(p(0, 0), p(90, 0), String::from("die"), 4, blue()),
    ];
    update_flying_objects(&mut flyers, &mut arena, &mut chain, 1, 100);
    assert_eq!(flyers.len(), 2); // still in flight
    assert_eq!(chain.segments.len(), 0);
    update_flying_objects(&mut flyers, &mut arena, &mut chain, 1, 700);
    assert_eq!(flyers.len(), 0);
    assert_eq!(chain.segments.len(), 2);
    let e0 = arena.read(chain.segments[0]).unwrap();
    assert_eq!(e0.segment.option_text, "der");
    assert_eq!(e0.position, p(60, 0));
    let e1 = arena.read(chain.segments[1]).unwrap();
    assert_eq!(e1.segment.option_id, 4);
    assert_eq!(e1.position, p(90, 0));
}

#[test]
fn segment_radius_grows_with_level() {
    let mut s = ChainSegment::new(0, String::from("x"), 0, blue());
    assert_eq!(s.get_radius(), 12);
    s.level = 2;
    assert_eq!(s.get_radius(), 18);
    s.level = 3;
    assert_eq!(s.get_radius(), 24);
}

#[test]
fn color_enhancement_by_tier() {
    let base = blue();
    assert_eq!(enhance_color_for_level(base, 1), base);
    assert_eq!(
        enhance_color_for_level(base, 2),
        Rgb { r: 600, g: 700, b: 800 }
    );
    assert_eq!(
        enhance_color_for_level(base, 3),
        Rgb { r: 700, g: 900, b: 1000 }
    );
    // Tier 4 leaves the tints behind and cycles the hue wheel.
    assert_eq!(
        enhance_color_for_level(base, 4),
        Rgb { r: 460, g: 460, b: 940 }
    );
}
