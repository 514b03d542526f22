use networking_basic::fixed::UNIT;
use networking_basic::game::GameRules;
use networking_basic::game::GameState;
use networking_basic::game::COORDINATE_LIMIT;
use networking_basic::types::PlayerState;
use networking_basic::types::Timestamp;
use networking_basic::types::Vector2;
use std::time::Duration;

fn player(x: i64, y: i64, vx: i64, vy: i64) -> PlayerState {
    PlayerState {
        position: Vector2 { x, y },
        velocity: Vector2 { x: vx, y: vy },
        last_update: Timestamp::from_millis(0),
    }
}

fn distance_squared(a: &PlayerState, b: &PlayerState) -> i128 {
    let dx = (a.position.x - b.position.x) as i128;
    let dy = (a.position.y - b.position.y) as i128;
    dx * dx + dy * dy
}

#[test]
fn standard_rules_have_the_documented_values() {
    let rules = GameRules::default();
    assert_eq!(rules.map_bounds, (-100 * UNIT, 100 * UNIT));
    assert_eq!(rules.max_velocity, 10 * UNIT);
    assert_eq!(rules.collision_radius, 10 * UNIT);
    assert!(rules.collision_radius <= COORDINATE_LIMIT);
}

#[test]
fn free_player_moves_by_velocity_times_time() {
    let mut state = GameState::new();
    state.add_player("a".to_string(), player(3 * UNIT, -2 * UNIT, 2 * UNIT, -UNIT / 2));
    state.update_at(Duration::from_millis(250), Timestamp::from_millis(77));
    let a = state.get_player_state("a").unwrap();
    assert_eq!(a.position.x, 3 * UNIT + UNIT / 2);
    assert_eq!(a.position.y, -2 * UNIT - UNIT / 8);
    assert_eq!(a.velocity, Vector2 { x: 2 * UNIT, y: -UNIT / 2 });
    assert_eq!(a.last_update.as_millis(), 77);
}

#[test]
fn displacement_is_rounded_toward_zero() {
    let mut state = GameState::new();
    state.add_player("a".to_string(), player(0, 0, 1, -1));
    state.update_at(Duration::from_micros(999_999), Timestamp::from_millis(1));
    let a = state.get_player_state("a").unwrap();
    assert_eq!(a.position, Vector2 { x: 0, y: 0 });
    let mut state = GameState::new();
    state.add_player("a".to_string(), player(0, 0, 3, -3));
    state.update_at(Duration::from_micros(500_000), Timestamp::from_millis(1));
    let a = state.get_player_state("a").unwrap();
    assert_eq!(a.position, Vector2 { x: 1, y: -1 });
}

#[test]
fn sub_millisecond_ticks_count() {
    let mut state = GameState::new();
    state.add_player("a".to_string(), player(0, 0, UNIT, 0));
    state.update_at(Duration::from_micros(500), Timestamp::from_millis(1));
    assert_eq!(state.get_player_state("a").unwrap().position.x, 500);
}

#[test]
fn velocity_is_clamped_after_the_move() {
    let mut state = GameState::new();
    state.add_player("a".to_string(), player(0, 0, 50 * UNIT, -50 * UNIT));
    state.update_at(Duration::from_millis(100), Timestamp::from_millis(1));
    let a = state.get_player_state("a").unwrap();
    assert_eq!(a.position, Vector2 { x: 5 * UNIT, y: -5 * UNIT });
    assert_eq!(a.velocity, Vector2 { x: 10 * UNIT, y: -10 * UNIT });
}

#[test]
fn velocity_stays_in_range_for_any_magnitude() {
    let mut state = GameState::new();
    state.add_player("a".to_string(), player(0, 0, i64::MAX, i64::MIN));
    state.add_player("b".to_string(), player(50 * UNIT, 50 * UNIT, i64::MIN, 7));
    state.update_at(Duration::MAX, Timestamp::from_millis(1));
    let rules = GameRules::default();
    for id in ["a", "b"] {
        let p = state.get_player_state(id).unwrap();
        assert!(p.velocity.x.abs() <= rules.max_velocity);
        assert!(p.velocity.y.abs() <= rules.max_velocity);
    }
    let a = state.get_player_state("a").unwrap();
    assert_eq!(a.position, Vector2 { x: 100 * UNIT, y: -100 * UNIT });
    let b = state.get_player_state("b").unwrap();
    assert_eq!(b.position, Vector2 { x: -100 * UNIT, y: 100 * UNIT });
}

#[test]
fn player_far_outside_the_map_is_brought_to_its_edge() {
    let mut state = GameState::new();
    state.add_player("a".to_string(), player(i64::MIN, i64::MAX, 0, 0));
    state.update_at(Duration::from_millis(16), Timestamp::from_millis(1));
    let a = state.get_player_state("a").unwrap();
    assert_eq!(a.position, Vector2 { x: -100 * UNIT, y: 100 * UNIT });
}

#[test]
fn boundary_holds_on_every_side_and_over_two_ticks() {
    let mut state = GameState::new();
    state.add_player("right".to_string(), player(100 * UNIT, 0, 10 * UNIT, 0));
    state.add_player("left".to_string(), player(-100 * UNIT, 50 * UNIT, -3 * UNIT, 0));
    state.add_player("top".to_string(), player(50 * UNIT, 100 * UNIT, 0, 4 * UNIT));
    state.add_player("bottom".to_string(), player(-50 * UNIT, -100 * UNIT, 0, -UNIT));
    for tick in 1..3u64 {
        state.update_at(Duration::from_millis(16), Timestamp::from_millis(tick));
        assert_eq!(state.get_player_state("right").unwrap().position.x, 100 * UNIT);
        assert_eq!(state.get_player_state("left").unwrap().position.x, -100 * UNIT);
        assert_eq!(state.get_player_state("top").unwrap().position.y, 100 * UNIT);
        assert_eq!(state.get_player_state("bottom").unwrap().position.y, -100 * UNIT);
    }
}

#[test]
fn colliding_pair_swaps_velocities_and_ends_a_radius_apart() {
    let mut state = GameState::new();
    state.add_player("one".to_string(), player(0, 0, UNIT, 0));
    state.add_player("two".to_string(), player(9 * UNIT, 0, -UNIT, 0));
    state.update_at(Duration::from_millis(0), Timestamp::from_millis(1));
    let one = state.get_player_state("one").unwrap();
    let two = state.get_player_state("two").unwrap();
    assert_eq!(one.velocity, Vector2 { x: -UNIT, y: 0 });
    assert_eq!(two.velocity, Vector2 { x: UNIT, y: 0 });
    assert_eq!(one.position, Vector2 { x: -UNIT / 2, y: 0 });
    assert_eq!(two.position, Vector2 { x: 9 * UNIT + UNIT / 2, y: 0 });
    let r = GameRules::default().collision_radius as i128;
    assert!(distance_squared(one, two) >= r * r);
}

#[test]
fn collision_is_judged_on_the_positions_after_the_move() {
    let mut state = GameState::new();
    state.add_player("one".to_string(), player(0, 0, -10 * UNIT, 0));
    state.add_player("two".to_string(), player(9 * UNIT, 0, 10 * UNIT, 0));
    state.update_at(Duration::from_millis(100), Timestamp::from_millis(1));
    let one = state.get_player_state("one").unwrap();
    let two = state.get_player_state("two").unwrap();
    assert_eq!(one.position, Vector2 { x: -UNIT, y: 0 });
    assert_eq!(two.position, Vector2 { x: 10 * UNIT, y: 0 });
    assert_eq!(one.velocity, Vector2 { x: -10 * UNIT, y: 0 });
    assert_eq!(two.velocity, Vector2 { x: 10 * UNIT, y: 0 });
}

#[test]
fn players_exactly_a_radius_apart_do_not_collide() {
    let mut state = GameState::new();
    state.add_player("one".to_string(), player(0, 0, 1, 2));
    state.add_player("two".to_string(), player(6 * UNIT, 8 * UNIT, 3, 4));
    state.update_at(Duration::from_millis(0), Timestamp::from_millis(1));
    assert_eq!(state.get_player_state("one").unwrap().position, Vector2 { x: 0, y: 0 });
    assert_eq!(state.get_player_state("one").unwrap().velocity, Vector2 { x: 1, y: 2 });
    assert_eq!(state.get_player_state("two").unwrap().velocity, Vector2 { x: 3, y: 4 });
}

#[test]
fn diagonal_collision_pushes_along_the_connecting_line() {
    let mut state = GameState::new();
    state.add_player("one".to_string(), player(0, 0, 0, 0));
    state.add_player("two".to_string(), player(3 * UNIT, 4 * UNIT, 0, 0));
    state.update_at(Duration::from_millis(0), Timestamp::from_millis(1));
    let one = state.get_player_state("one").unwrap();
    let two = state.get_player_state("two").unwrap();
    assert_eq!(one.position, Vector2 { x: -3 * UNIT / 2, y: -2 * UNIT });
    assert_eq!(two.position, Vector2 { x: 3 * UNIT + 3 * UNIT / 2, y: 6 * UNIT });
    let r = GameRules::default().collision_radius as i128;
    assert_eq!(distance_squared(one, two), r * r);
}

#[test]
fn players_in_one_place_separate_along_the_fixed_axis() {
    let mut state = GameState::new();
    state.add_player("first".to_string(), player(5 * UNIT, 5 * UNIT, UNIT, 0));
    state.add_player("second".to_string(), player(5 * UNIT, 5 * UNIT, 0, UNIT));
    state.update_at(Duration::from_millis(0), Timestamp::from_millis(1));
    let first = state.get_player_state("first").unwrap();
    let second = state.get_player_state("second").unwrap();
    assert_eq!(first.position, Vector2 { x: 10 * UNIT, y: 5 * UNIT });
    assert_eq!(second.position, Vector2 { x: 0, y: 5 * UNIT });
    assert_eq!(first.velocity, Vector2 { x: 0, y: UNIT });
    assert_eq!(second.velocity, Vector2 { x: UNIT, y: 0 });
}

#[test]
fn nearly_touching_players_are_pushed_at_least_a_radius_apart() {
    let r = GameRules::default().collision_radius as i128;
    for (dx, dy) in [(1, 0), (0, 1), (1, 1), (-1, 2), (7, -3), (123_457, 1), (9_999_999, 0)] {
        let mut state = GameState::new();
        state.add_player("one".to_string(), player(0, 0, 0, 0));
        state.add_player("two".to_string(), player(dx, dy, 0, 0));
        state.update_at(Duration::from_millis(0), Timestamp::from_millis(1));
        let one = state.get_player_state("one").unwrap();
        let two = state.get_player_state("two").unwrap();
        let d2 = distance_squared(one, two);
        assert!(d2 >= r * r, "({}, {}) ends at {}", dx, dy, d2);
        let root = (d2 as f64).sqrt();
        assert!(root <= r as f64 * 1.0001 + 4.0, "({}, {}) ends at {}", dx, dy, root);
    }
}

#[test]
fn every_pair_uses_the_snapshot_and_the_last_pair_decides() {
    let mut state = GameState::new();
    state.add_player("a".to_string(), player(0, 0, 1, 0));
    state.add_player("b".to_string(), player(4 * UNIT, 0, 2, 0));
    state.add_player("c".to_string(), player(8 * UNIT, 0, 3, 0));
    state.update_at(Duration::from_millis(0), Timestamp::from_millis(1));
    let a = state.get_player_state("a").unwrap();
    let b = state.get_player_state("b").unwrap();
    let c = state.get_player_state("c").unwrap();
    // a meets b and c; the pair (a, c) comes after (a, b).
    assert_eq!(a.velocity, Vector2 { x: 3, y: 0 });
    assert_eq!(a.position, Vector2 { x: -UNIT, y: 0 });
    // b meets a and c; the pair (b, c) comes last, judged on the snapshot.
    assert_eq!(b.velocity, Vector2 { x: 3, y: 0 });
    assert_eq!(b.position, Vector2 { x: UNIT, y: 0 });
    // c meets a and b; the pair (b, c) comes last for it too.
    assert_eq!(c.velocity, Vector2 { x: 2, y: 0 });
    assert_eq!(c.position, Vector2 { x: 11 * UNIT, y: 0 });
}

#[test]
fn resolve_collisions_alone_keeps_time_stamps() {
    let mut state = GameState::new();
    state.add_player("one".to_string(), player(0, 0, 5, 6));
    state.add_player("two".to_string(), player(0, 9 * UNIT, 7, 8));
    state.resolve_collisions(&GameRules::default());
    let one = state.get_player_state("one").unwrap();
    let two = state.get_player_state("two").unwrap();
    assert_eq!(one.position, Vector2 { x: 0, y: -UNIT / 2 });
    assert_eq!(two.position, Vector2 { x: 0, y: 9 * UNIT + UNIT / 2 });
    assert_eq!(one.velocity, Vector2 { x: 7, y: 8 });
    assert_eq!(two.velocity, Vector2 { x: 5, y: 6 });
    assert_eq!(one.last_update.as_millis(), 0);
}

#[test]
fn add_remove_and_lookup_players() {
    let mut state = GameState::new();
    assert_eq!(state.get_player_count(), 0);
    state.add_player("a".to_string(), player(1, 2, 3, 4));
    state.add_player("b".to_string(), player(5, 6, 7, 8));
    state.add_player("a".to_string(), player(9, 9, 9, 9));
    assert_eq!(state.get_player_count(), 2);
    assert_eq!(state.get_player_state("a").unwrap().position, Vector2 { x: 9, y: 9 });
    assert!(state.get_player_state("c").is_none());
    state.remove_player("c");
    assert_eq!(state.get_player_count(), 2);
    state.remove_player("a");
    assert_eq!(state.get_player_count(), 1);
    assert!(state.get_player_state("a").is_none());
    assert_eq!(state.get_player_state("b").unwrap().velocity, Vector2 { x: 7, y: 8 });
    let copy = state.players();
    assert_eq!(copy.len(), 1);
    assert_eq!(copy.id_at(0), "b");
}

#[test]
fn advance_takes_any_number_of_microseconds() {
    let mut state = GameState::new();
    state.add_player("a".to_string(), player(0, 0, 2, -2));
    state.advance(1_500_000, Timestamp::from_millis(9));
    assert_eq!(state.get_player_state("a").unwrap().position, Vector2 { x: 3, y: -3 });
    assert_eq!(state.last_update().as_millis(), 9);
    state.advance(u128::MAX, Timestamp::from_millis(10));
    assert_eq!(
        state.get_player_state("a").unwrap().position,
        Vector2 { x: 100 * UNIT, y: -100 * UNIT }
    );
    state.advance(u128::MAX, Timestamp::from_millis(11));
    assert_eq!(
        state.get_player_state("a").unwrap().position,
        Vector2 { x: 100 * UNIT, y: -100 * UNIT }
    );
    let mut state = GameState::new();
    state.add_player("still".to_string(), player(7, 8, 0, 0));
    state.advance(u128::MAX, Timestamp::from_millis(1));
    assert_eq!(state.get_player_state("still").unwrap().position, Vector2 { x: 7, y: 8 });
}

#[test]
fn many_colliding_pairs_end_a_radius_apart_and_close_to_it() {
    let rules = GameRules::default();
    let r = rules.collision_radius as i128;
    let mut seed: u64 = 0x2545_F491_4F6C_DD1D;
    let mut next = move |span: i64| -> i64 {
        seed ^= seed << 13;
        seed ^= seed >> 7;
        seed ^= seed << 17;
        (seed % (2 * span as u64 + 1)) as i64 - span
    };
    let mut collided = 0;
    for _ in 0..2000 {
        let a = player(next(95 * UNIT), next(95 * UNIT), next(UNIT), next(UNIT));
        let b = PlayerState {
            position: Vector2 {
                x: a.position.x + next(8 * UNIT),
                y: a.position.y + next(8 * UNIT),
            },
            velocity: Vector2 { x: next(UNIT), y: next(UNIT) },
            last_update: Timestamp::from_millis(0),
        };
        let before = distance_squared(&a, &b);
        let mut state = GameState::new();
        state.add_player("a".to_string(), a);
        state.add_player("b".to_string(), b);
        state.resolve_collisions(&rules);
        let na = *state.get_player_state("a").unwrap();
        let nb = *state.get_player_state("b").unwrap();
        if before < r * r {
            collided += 1;
            let after = distance_squared(&na, &nb);
            assert!(after >= r * r);
            assert!((after as f64).sqrt() <= r as f64 * 1.00002 + 3.0);
            assert_eq!(na.velocity, b.velocity);
            assert_eq!(nb.velocity, a.velocity);
            if before > 0 {
                // Each moves away from the other along the line between them.
                let (dx, dy) = ((a.position.x - b.position.x) as i128, (a.position.y - b.position.y) as i128);
                let (mx, my) = ((na.position.x - a.position.x) as i128, (na.position.y - a.position.y) as i128);
                assert!(mx * dx >= 0 && my * dy >= 0);
                assert!((mx * dy - my * dx).abs() <= dx.abs() + dy.abs());
                assert_eq!(nb.position.x - b.position.x, -(na.position.x - a.position.x));
                assert_eq!(nb.position.y - b.position.y, -(na.position.y - a.position.y));
            }
        } else {
            assert_eq!(na.position, a.position);
            assert_eq!(nb.position, b.position);
            assert_eq!(na.velocity, a.velocity);
        }
    }
    assert!(collided > 500);
}

#[test]
fn collisions_are_resolved_far_from_the_origin() {
    let far = i64::MAX - COORDINATE_LIMIT;
    let mut state = GameState::new();
    state.add_player("a".to_string(), player(far, -far, 1, 2));
    state.add_player("b".to_string(), player(far - 6 * UNIT, -far, 3, 4));
    state.add_player("c".to_string(), player(-far, far, 5, 6));
    state.add_player("d".to_string(), player(i64::MIN + COORDINATE_LIMIT, 0, 7, 8));
    state.resolve_collisions(&GameRules::default());
    let a = state.get_player_state("a").unwrap();
    let b = state.get_player_state("b").unwrap();
    assert_eq!(a.position, Vector2 { x: far + 2 * UNIT, y: -far });
    assert_eq!(b.position, Vector2 { x: far - 8 * UNIT, y: -far });
    assert_eq!(a.velocity, Vector2 { x: 3, y: 4 });
    assert_eq!(b.velocity, Vector2 { x: 1, y: 2 });
    assert_eq!(state.get_player_state("c").unwrap().position, Vector2 { x: -far, y: far });
    assert_eq!(state.get_player_state("d").unwrap().velocity, Vector2 { x: 7, y: 8 });
}

#[test]
fn a_lone_player_moves_by_the_same_step_every_tick() {
    let mut state = GameState::new();
    state.add_player("a".to_string(), player(0, 0, UNIT, 0));
    for n in 1..=6250i64 {
        state.update_at(Duration::from_millis(16), Timestamp::from_millis(16 * n as u64));
        let a = state.get_player_state("a").unwrap();
        assert_eq!(a.position, Vector2 { x: 16_000 * n, y: 0 });
        assert_eq!(a.velocity, Vector2 { x: UNIT, y: 0 });
    }
    let a = state.get_player_state("a").unwrap();
    assert_eq!(a.position.x, 100 * UNIT);
}

/// The game after one collision pass over `players`, joined in the order given.
fn resolved_in_order(players: &[(&str, PlayerState)]) -> GameState {
    let mut state = GameState::new();
    for (id, player) in players {
        state.add_player(id.to_string(), *player);
    }
    state.resolve_collisions(&GameRules::default());
    state
}

#[test]
fn the_collision_pass_gives_the_same_result_for_every_joining_order() {
    let a = ("A", player(0, 0, 1, 10));
    let b = ("B", player(6 * UNIT, 0, 2, 20));
    let c = ("C", player(12 * UNIT, 0, 3, 30));
    let orders: [[(&str, PlayerState); 3]; 6] =
        [[a, b, c], [a, c, b], [b, a, c], [b, c, a], [c, a, b], [c, b, a]];
    for order in orders {
        let state = resolved_in_order(&order);
        // A collides with B alone; B with A and C, of which C has the later id; C with B alone.
        let ra = state.get_player_state("A").unwrap();
        let rb = state.get_player_state("B").unwrap();
        let rc = state.get_player_state("C").unwrap();
        assert_eq!(ra.velocity, Vector2 { x: 2, y: 20 });
        assert_eq!(rb.velocity, Vector2 { x: 3, y: 30 });
        assert_eq!(rc.velocity, Vector2 { x: 2, y: 20 });
        assert_eq!(ra.position, Vector2 { x: -2 * UNIT, y: 0 });
        assert_eq!(rb.position, Vector2 { x: 4 * UNIT, y: 0 });
        assert_eq!(rc.position, Vector2 { x: 14 * UNIT, y: 0 });
    }
}

#[test]
fn at_distance_zero_the_smaller_id_goes_right_whoever_joined_first() {
    let p = ("P", player(0, 0, 1, 0));
    let q = ("Q", player(0, 0, 0, 1));
    for order in [[p, q], [q, p]] {
        let state = resolved_in_order(&order);
        assert_eq!(state.get_player_state("P").unwrap().position, Vector2 { x: 5 * UNIT, y: 0 });
        assert_eq!(state.get_player_state("Q").unwrap().position, Vector2 { x: -5 * UNIT, y: 0 });
        assert_eq!(state.get_player_state("P").unwrap().velocity, Vector2 { x: 0, y: 1 });
        assert_eq!(state.get_player_state("Q").unwrap().velocity, Vector2 { x: 1, y: 0 });
    }
}

#[test]
fn a_whole_tick_gives_the_same_result_for_every_joining_order() {
    let players = [
        ("delta", player(0, 0, UNIT, 0)),
        ("alpha", player(3 * UNIT, 4 * UNIT, -UNIT, 2 * UNIT)),
        ("charlie", player(3 * UNIT, 4 * UNIT, 0, 0)),
        ("bravo", player(-2 * UNIT, 7 * UNIT, 5 * UNIT, -5 * UNIT)),
        ("echo", player(60 * UNIT, 60 * UNIT, 40 * UNIT, 0)),
    ];
    let tick = |order: &[usize]| {
        let mut state = GameState::new();
        for &k in order {
            state.add_player(players[k].0.to_string(), players[k].1);
        }
        state.update_at(Duration::from_millis(250), Timestamp::from_millis(9));
        players
            .iter()
            .map(|(id, _)| {
                let s = state.get_player_state(id).unwrap();
                (s.position, s.velocity)
            })
            .collect::<Vec<_>>()
    };
    let expected = tick(&[0, 1, 2, 3, 4]);
    for order in [[4, 3, 2, 1, 0], [2, 0, 4, 1, 3], [1, 2, 3, 4, 0], [3, 1, 4, 0, 2]] {
        assert_eq!(tick(&order), expected);
    }
}
