use chain_game::geometry::{
    calculate_shortest_movement, calculate_wraparound_distance, euclidean_distance,
    interpolate_with_wraparound, isqrt, wrap_coordinate, MapBounds, Vec2,
};
use chain_game::trail::MovementTrail;

fn p(x: i64, y: i64) -> Vec2 {
    Vec2 { x, y }
}

#[test]
fn isqrt_exact_values() {
    assert_eq!(isqrt(0), 0);
    assert_eq!(isqrt(1), 1);
    assert_eq!(isqrt(24), 4);
    assert_eq!(isqrt(25), 5);
    assert_eq!(isqrt(26), 5);
    assert_eq!(isqrt(1_000_000_000_000), 1_000_000);
}

#[test]
fn euclidean_distance_three_four_five() {
    assert_eq!(euclidean_distance(p(0, 0), p(3, 4)), 5);
    assert_eq!(euclidean_distance(p(-3, 0), p(0, -4)), 5);
    assert_eq!(euclidean_distance(p(7, 7), p(7, 7)), 0);
}

#[test]
fn wrapped_distance_is_symmetric_and_bounded() {
    let bounds = MapBounds {
        half_width: 100,
        half_height: 100,
    };
    let a = p(90, 10);
    let b = p(-90, -10);
    let ab = calculate_wraparound_distance(a, b, bounds);
    let ba = calculate_wraparound_distance(b, a, bounds);
    assert_eq!(ab, ba);
    assert!(ab <= euclidean_distance(a, b));
    // direct delta is 180, through the edge it is 20; dy = 20 either way
    assert_eq!(ab, isqrt(20 * 20 + 20 * 20) as i64);
}

#[test]
fn wrapped_distance_prefers_direct_path_when_shorter() {
    let bounds = MapBounds {
        half_width: 100,
        half_height: 100,
    };
    let a = p(10, 0);
    let b = p(40, 0);
    assert_eq!(calculate_wraparound_distance(a, b, bounds), 30);
    assert_eq!(euclidean_distance(a, b), 30);
}

#[test]
fn wrap_coordinate_recanonicalizes() {
    assert_eq!(wrap_coordinate(120, 100), -80);
    assert_eq!(wrap_coordinate(-120, 100), 80);
    assert_eq!(wrap_coordinate(60, 100), 60);
}

#[test]
fn interpolation_cuts_across_the_edge() {
    let bounds = MapBounds {
        half_width: 100,
        half_height: 100,
    };
    // From x = 90 toward x = -90: the short way leads through the edge.
    let r = interpolate_with_wraparound(p(90, 0), p(-90, 0), 1, 2, bounds);
    // Half of the 20-unit wrapped delta: 90 + 10 = 100, still canonical.
    assert_eq!(r, p(100, 0));
    // Direct interpolation when the direct delta is shorter.
    let r2 = interpolate_with_wraparound(p(0, 10), p(0, 30), 1, 2, bounds);
    assert_eq!(r2, p(0, 20));
}

#[test]
fn shortest_movement_wraps_toward_target() {
    let bounds = MapBounds {
        half_width: 100,
        half_height: 100,
    };
    // Target on the far side: stepping toward its wrap-shifted copy at
    // x = -110 moves left, away from the long direct path.
    let r = calculate_shortest_movement(p(-95, 0), p(90, 0), 150, 1000, bounds);
    assert!(r.x < -95 || r.x > 95, "step should cut across the edge, got {:?}", r);
    // A close target is approached directly by 15 percent of the gap.
    let r2 = calculate_shortest_movement(p(0, 0), p(100, 0), 150, 1000, bounds);
    assert_eq!(r2, p(15, 0));
}

#[test]
fn trail_samples_and_drops_near_duplicates() {
    let mut trail = MovementTrail::new();
    trail.add_position(p(0, 0));
    trail.add_position(p(2, 0)); // closer than the minimum sample distance
    trail.add_position(p(10, 0));
    assert_eq!(trail.positions.len(), 2);
    assert_eq!(trail.positions[0], p(10, 0));
    assert_eq!(trail.positions[1], p(0, 0));
}

#[test]
fn trail_sampling_is_timer_gated() {
    let mut trail = MovementTrail::new();
    trail.track_player_movement(p(0, 0), 50);
    assert_eq!(trail.positions.len(), 0); // timer has not fired yet
    trail.track_player_movement(p(0, 0), 50);
    assert_eq!(trail.positions.len(), 1); // fired at 100 ms
    trail.track_player_movement(p(20, 0), 100);
    assert_eq!(trail.positions.len(), 2);
}

#[test]
fn position_at_distance_interpolates_within_a_step() {
    // Stored points (0,0), (10,0), (20,0); the newest (front) is (20,0).
    let mut trail = MovementTrail::new();
    trail.add_position(p(0, 0));
    trail.add_position(p(10, 0));
    trail.add_position(p(20, 0));
    assert_eq!(trail.get_position_at_distance(5), Some(p(15, 0)));
}

#[test]
fn position_at_distance_clamps_to_oldest_point() {
    let mut trail = MovementTrail::new();
    trail.add_position(p(0, 0));
    trail.add_position(p(10, 0));
    assert_eq!(trail.get_position_at_distance(500), Some(p(0, 0)));
    assert_eq!(trail.get_position_at_distance(0), Some(p(10, 0)));
    let empty = MovementTrail::new();
    assert_eq!(empty.get_position_at_distance(5), None);
}

#[test]
fn position_queries_never_move_backward_along_the_buffer() {
    let mut trail = MovementTrail::new();
    trail.add_position(p(0, 0));
    trail.add_position(p(10, 0));
    trail.add_position(p(20, 0));
    trail.add_position(p(30, 0));
    // Walking from the front at (30,0), larger distances must never land
    // nearer the front than smaller ones.
    let mut last_x = i64::MAX;
    for d in [0_i64, 5, 10, 15, 20, 25, 30, 100] {
        let q = trail.get_position_at_distance(d).unwrap();
        assert!(q.x <= last_x, "distance {} went forward: {:?}", d, q);
        last_x = q.x;
    }
}

#[test]
fn wraparound_sampling_measures_through_the_edge() {
    let bounds = MapBounds {
        half_width: 100,
        half_height: 100,
    };
    let mut trail = MovementTrail::new();
    trail.add_position(p(-90, 0));
    trail.add_position(p(90, 0)); // 20 units away through the edge
    let q = trail
        .get_position_at_distance_with_wraparound(10, bounds)
        .unwrap();
    assert_eq!(q, p(100, 0));
}
