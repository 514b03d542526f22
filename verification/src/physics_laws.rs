//! What holds of every tick of the simulation, proved from the definitions
//! that the contracts of the world model use.

use vstd::prelude::*;

use crate::fixed::clamp;
use crate::fixed::div_rounded_up;
use crate::fixed::floor_sqrt;
use crate::fixed::is_floor_sqrt;
use crate::fixed::lemma_div_rounded_up;
use crate::fixed::lemma_floor_sqrt_exists;
use crate::fixed::magnitude;
use crate::fixed::scaled;
use crate::order::law_ids_are_ordered;
use crate::order::precedes;
use crate::game::ticked;
use crate::roster::distinct_ids;
use crate::roster::has_id;
use crate::roster::ids_of;
use crate::roster::index_of;
use crate::roster::lemma_index_of_unique;
use crate::roster::lookup;
use crate::roster::values_of;
use crate::game::advanced;
use crate::game::axis_push;
use crate::game::collides;
use crate::game::distance_squared;
use crate::game::all_different;
use crate::game::chosen_partner;
use crate::game::deciding_partner;
use crate::game::lemma_chosen_partner;
use crate::game::lemma_chosen_partner_collides;
use crate::game::integrate_axis;
use crate::game::integrated;
use crate::game::integrated_all;
use crate::game::lemma_axis_push;
use crate::game::lemma_integrated_in_bounds;
use crate::game::lemma_root_brackets;
use crate::game::push_apart;
use crate::game::resolved;
use crate::game::resolved_player;
use crate::game::separated;
use crate::game::within_limit;
use crate::game::GameRules;
use crate::game::COORDINATE_LIMIT;
use crate::game::ROOT_SCALE;
use crate::types::PlayerState;
use crate::types::Timestamp;

verus! {

/// The deciding partner is a player of the game, another one, and collides
/// with player `k`; there is none only where player `k` collides with nobody.
pub proof fn lemma_deciding_partner(ids: Seq<Seq<char>>, ps: Seq<PlayerState>, radius: int, k: int)
    requires
        0 <= k < ps.len(),
    ensures
        deciding_partner(ids, ps, radius, k) matches Some(p) ==> 0 <= p < ps.len() && p != k
            && collides(ps[k].position, ps[p].position, radius),
        deciding_partner(ids, ps, radius, k) is None ==> forall|m: int|
            0 <= m < ps.len() && m != k ==> !collides(
                ps[k].position,
                #[trigger] ps[m].position,
                radius,
            ),
{
    lemma_chosen_partner_collides(ids, ps, radius, k, ps.len() as int);
}

/// A player that collides with nobody after the integration pass ends the
/// tick where its velocity takes it, held inside the map: each coordinate is
/// `clamp(position + velocity * time, bounds)`.
pub proof fn law_free_player_moves_by_velocity(
    ids: Seq<Seq<char>>,
    ps: Seq<PlayerState>,
    micros: int,
    rules: GameRules,
    now: Timestamp,
    k: int,
)
    requires
        rules.well_formed(),
        0 <= k < ps.len(),
        deciding_partner(
            ids,
            integrated_all(ps, micros, rules, now),
            rules.collision_radius as int,
            k,
        ) is None,
    ensures
        advanced(ids, ps, micros, rules, now)[k].position.x == clamp(
            ps[k].position.x + scaled(ps[k].velocity.x as int, micros),
            rules.map_bounds.0 as int,
            rules.map_bounds.1 as int,
        ),
        advanced(ids, ps, micros, rules, now)[k].position.y == clamp(
            ps[k].position.y + scaled(ps[k].velocity.y as int, micros),
            rules.map_bounds.0 as int,
            rules.map_bounds.1 as int,
        ),
        rules.map_bounds.0 <= advanced(ids, ps, micros, rules, now)[k].position.x <= rules.map_bounds.1,
        rules.map_bounds.0 <= advanced(ids, ps, micros, rules, now)[k].position.y <= rules.map_bounds.1,
{
    lemma_integrated_in_bounds(ps[k], micros, rules, now);
}

/// Squares keep the order of non-negative numbers.
proof fn lemma_square_keeps_order(a: int, b: int)
    by (nonlinear_arith)
    requires
        0 <= a <= b,
    ensures
        a * a <= b * b,
{
}

/// The square of a product is the product of the squares.
proof fn lemma_square_of_product(t: int, r: int)
    by (nonlinear_arith)
    ensures
        (t * r) * (t * r) == (t * t) * (r * r),
{
}

/// The square of a product of three is the product of the three squares.
proof fn lemma_square_of_three(p: int, m: int, s: int)
    by (nonlinear_arith)
    ensures
        (p * m * s) * (p * m * s) == (p * p) * ((m * m) * (s * s)),
        p * m * s >= 0 <== (p >= 0 && m >= 0 && s >= 0),
{
}

/// A common factor can be taken out of a sum, on either side.
proof fn lemma_common_factor(x: int, y: int, r: int, p: int, a: int, b: int, s: int)
    by (nonlinear_arith)
    ensures
        x * r + y * r == (x + y) * r,
        p * (a * s) + p * (b * s) == p * ((a + b) * s),
{
}

/// A non-negative factor keeps the order.
proof fn lemma_factor_keeps_order(p: int, a: int, b: int)
    by (nonlinear_arith)
    requires
        0 <= p,
        a <= b,
    ensures
        p * a <= p * b,
{
}

/// A positive common factor can be cancelled from an inequality.
proof fn lemma_cancel_factor(x: int, p: int, r: int)
    by (nonlinear_arith)
    requires
        0 < r,
        x * r >= p * r,
    ensures
        x >= p,
{
}

/// The square of a number is the square of its magnitude, and not negative.
proof fn lemma_square_is_magnitude_squared(d: int)
    by (nonlinear_arith)
    ensures
        magnitude(d) * magnitude(d) == d * d,
        d * d >= 0,
{
}

/// Where the scaled root brackets the distance, the stretched offsets reach
/// the radius: the sum of their squares is at least the square of the radius.
proof fn lemma_targets_reach_radius(
    dx: int,
    dy: int,
    root: int,
    radius: int,
    scale: int,
    tx: int,
    ty: int,
)
    requires
        0 < scale,
        0 <= radius,
        0 < root,
        root * root <= (dx * dx + dy * dy) * (scale * scale),
        0 <= tx,
        0 <= ty,
        tx * root >= radius * magnitude(dx) * scale,
        ty * root >= radius * magnitude(dy) * scale,
    ensures
        tx * tx + ty * ty >= radius * radius,
{
    let mx = magnitude(dx);
    let my = magnitude(dy);
    let a = radius * mx * scale;
    let b = radius * my * scale;
    let root2 = root * root;
    let scale2 = scale * scale;
    let radius2 = radius * radius;
    lemma_square_is_magnitude_squared(dx);
    lemma_square_is_magnitude_squared(dy);
    lemma_square_is_magnitude_squared(radius);
    lemma_square_of_three(radius, mx, scale);
    lemma_square_of_three(radius, my, scale);
    lemma_square_keeps_order(a, tx * root);
    lemma_square_keeps_order(b, ty * root);
    lemma_square_of_product(tx, root);
    lemma_square_of_product(ty, root);
    // (tx^2 + ty^2) * root^2 >= a^2 + b^2 == radius^2 * ((dx^2 + dy^2) * scale^2)
    lemma_common_factor(tx * tx, ty * ty, root2, radius2, mx * mx, my * my, scale2);
    assert((tx * tx + ty * ty) * root2 >= radius2 * ((dx * dx + dy * dy) * scale2));
    lemma_factor_keeps_order(radius2, root2, (dx * dx + dy * dy) * scale2);
    lemma_square_keeps_order(1, root);
    lemma_cancel_factor(tx * tx + ty * ty, radius2, root2);
}

/// A number's square is at least the square of any bound below its magnitude.
proof fn lemma_square_of_magnitude(x: int, t: int)
    by (nonlinear_arith)
    requires
        0 <= t <= magnitude(x),
    ensures
        x * x >= t * t,
{
}

/// Two players that collide with each other are, once each has been pushed
/// away from the other, at least the collision radius apart. This holds of
/// two players in one place too.
pub proof fn law_pushed_pair_is_apart(a: PlayerState, b: PlayerState, radius: int)
    requires
        within_limit(a.position),
        within_limit(b.position),
        0 <= radius <= COORDINATE_LIMIT,
        collides(a.position, b.position, radius),
    ensures
        distance_squared(
            separated(a, b, radius, true).position,
            separated(b, a, radius, false).position,
        ) >= radius * radius,
        separated(a, b, radius, true).velocity == b.velocity,
        separated(b, a, radius, false).velocity == a.velocity,
{
    let dx = a.position.x - b.position.x;
    let dy = a.position.y - b.position.y;
    let q = dx * dx + dy * dy;
    let scale = ROOT_SCALE as int;
    assert((b.position.x - a.position.x) * (b.position.x - a.position.x) == dx * dx)
        by (nonlinear_arith)
        requires
            dx == a.position.x - b.position.x,
    ;
    assert((b.position.y - a.position.y) * (b.position.y - a.position.y) == dy * dy)
        by (nonlinear_arith)
        requires
            dy == a.position.y - b.position.y,
    ;
    let pa = push_apart(a.position, b.position, radius, true);
    let pb = push_apart(b.position, a.position, radius, false);
    if q == 0 {
        let h = (radius + 1) / 2;
        assert(pa == (h, 0int));
        assert(pb == (-h, 0int));
        let na = separated(a, b, radius, true).position;
        let nb = separated(b, a, radius, false).position;
        assert(dx == 0 && dy == 0) by (nonlinear_arith)
            requires
                dx * dx + dy * dy == 0,
        ;
        assert(na.x - nb.x == 2 * h);
        assert(na.y - nb.y == 0);
        assert((2 * h) * (2 * h) >= radius * radius) by (nonlinear_arith)
            requires
                2 * h >= radius,
                radius >= 0,
        ;
    } else {
        assert(q > 0) by (nonlinear_arith)
            requires
                q == dx * dx + dy * dy,
                q != 0,
        ;
        let n = q * scale * scale;
        assert(n >= 0) by (nonlinear_arith)
            requires
                n == q * scale * scale,
                q > 0,
        ;
        lemma_floor_sqrt_exists(n);
        let root = floor_sqrt(n);
        assert(is_floor_sqrt(n, root));
        lemma_root_brackets(dx, dy, root, radius, scale);
        lemma_root_brackets(dy, dx, root, radius, scale);
        assert(root > 0) by (nonlinear_arith)
            requires
                q >= 1,
                scale == 65536,
                (root + 1) * (root + 1) > q * scale * scale,
                root >= 0,
        ;
        lemma_axis_push(dx, root, radius);
        lemma_axis_push(dy, root, radius);
        assert(pa == (axis_push(dx, root, radius), axis_push(dy, root, radius)));
        assert(pb == (axis_push(-dx, root, radius), axis_push(-dy, root, radius)));
        let tx = div_rounded_up(radius * magnitude(dx) * scale, root);
        let ty = div_rounded_up(radius * magnitude(dy) * scale, root);
        assert(radius * magnitude(dx) * scale >= 0 && radius * magnitude(dy) * scale >= 0)
            by (nonlinear_arith)
            requires
                radius >= 0,
                magnitude(dx) >= 0,
                magnitude(dy) >= 0,
                scale > 0,
        ;
        lemma_div_rounded_up(radius * magnitude(dx) * scale, root);
        lemma_div_rounded_up(radius * magnitude(dy) * scale, root);
        assert(q * scale * scale == q * (scale * scale)) by (nonlinear_arith);
        lemma_targets_reach_radius(dx, dy, root, radius, scale, tx, ty);
        let na = separated(a, b, radius, true).position;
        let nb = separated(b, a, radius, false).position;
        let ndx = dx + 2 * axis_push(dx, root, radius);
        let ndy = dy + 2 * axis_push(dy, root, radius);
        assert(na.x - nb.x == ndx);
        assert(na.y - nb.y == ndy);
        lemma_square_of_magnitude(ndx, tx);
        lemma_square_of_magnitude(ndy, ty);
    }
}

/// After the collision pass two players that were each other's deciding
/// partner are at least the collision radius apart and have exchanged
/// velocities. A player for which a third player decides is not covered.
pub proof fn law_colliding_pair_ends_apart(
    ids: Seq<Seq<char>>,
    ps: Seq<PlayerState>,
    radius: int,
    i: int,
    j: int,
)
    requires
        ids.len() == ps.len(),
        all_different(ids),
        0 <= i < ps.len(),
        0 <= j < ps.len(),
        0 <= radius <= COORDINATE_LIMIT,
        within_limit(ps[i].position),
        within_limit(ps[j].position),
        deciding_partner(ids, ps, radius, i) == Some(j),
        deciding_partner(ids, ps, radius, j) == Some(i),
    ensures
        distance_squared(
            resolved(ids, ps, radius)[i].position,
            resolved(ids, ps, radius)[j].position,
        ) >= radius * radius,
        resolved(ids, ps, radius)[i].velocity == ps[j].velocity,
        resolved(ids, ps, radius)[j].velocity == ps[i].velocity,
{
    lemma_deciding_partner(ids, ps, radius, i);
    lemma_deciding_partner(ids, ps, radius, j);
    assert(i != j);
    if i < j {
        assert(ids[i] != ids[j]);
    } else {
        assert(ids[j] != ids[i]);
    }
    law_ids_are_ordered(ids[i], ids[j], ids[i]);
    let ri = resolved(ids, ps, radius)[i];
    let rj = resolved(ids, ps, radius)[j];
    assert(ri == separated(ps[i], ps[j], radius, precedes(ids[i], ids[j])));
    assert(rj == separated(ps[j], ps[i], radius, precedes(ids[j], ids[i])));
    if precedes(ids[i], ids[j]) {
        law_pushed_pair_is_apart(ps[i], ps[j], radius);
    } else {
        law_pushed_pair_is_apart(ps[j], ps[i], radius);
        lemma_distance_is_mutual(ri.position, rj.position);
    }
}

/// The distance from `a` to `b` is the distance from `b` to `a`.
pub proof fn lemma_distance_is_mutual(a: crate::types::Vector2, b: crate::types::Vector2)
    by (nonlinear_arith)
    ensures
        distance_squared(a, b) == distance_squared(b, a),
{
}

/// After a tick any two players that collided with nobody else are at least
/// the collision radius apart, whether the tick found them colliding or not.
pub proof fn law_tick_leaves_pair_apart(
    ids: Seq<Seq<char>>,
    ps: Seq<PlayerState>,
    micros: int,
    rules: GameRules,
    now: Timestamp,
    i: int,
    j: int,
)
    requires
        rules.well_formed(),
        ids.len() == ps.len(),
        all_different(ids),
        0 <= i < j < ps.len(),
        forall|m: int|
            0 <= m < ps.len() && m != i && m != j ==> {
                &&& !collides(
                    integrated(ps[i], micros, rules, now).position,
                    integrated(#[trigger] ps[m], micros, rules, now).position,
                    rules.collision_radius as int,
                )
                &&& !collides(
                    integrated(ps[j], micros, rules, now).position,
                    integrated(ps[m], micros, rules, now).position,
                    rules.collision_radius as int,
                )
            },
    ensures
        distance_squared(
            advanced(ids, ps, micros, rules, now)[i].position,
            advanced(ids, ps, micros, rules, now)[j].position,
        ) >= rules.collision_radius * rules.collision_radius,
{
    let mid = integrated_all(ps, micros, rules, now);
    let radius = rules.collision_radius as int;
    assert forall|m: int| 0 <= m < mid.len() implies within_limit((#[trigger] mid[m]).position) by {
        lemma_integrated_in_bounds(ps[m], micros, rules, now);
    }
    lemma_deciding_partner(ids, mid, radius, i);
    lemma_deciding_partner(ids, mid, radius, j);
    assert forall|m: int| 0 <= m < mid.len() && m != i && m != j implies !collides(
        mid[i].position,
        #[trigger] mid[m].position,
        radius,
    ) && !collides(mid[j].position, mid[m].position, radius) by {
        assert(mid[m] == integrated(ps[m], micros, rules, now));
    }
    let dx = mid[i].position.x - mid[j].position.x;
    let dy = mid[i].position.y - mid[j].position.y;
    assert((mid[j].position.x - mid[i].position.x) * (mid[j].position.x - mid[i].position.x) == dx
        * dx) by (nonlinear_arith)
        requires
            dx == mid[i].position.x - mid[j].position.x,
    ;
    assert((mid[j].position.y - mid[i].position.y) * (mid[j].position.y - mid[i].position.y) == dy
        * dy) by (nonlinear_arith)
        requires
            dy == mid[i].position.y - mid[j].position.y,
    ;
    assert(collides(mid[i].position, mid[j].position, radius) == collides(
        mid[j].position,
        mid[i].position,
        radius,
    ));
    if collides(mid[i].position, mid[j].position, radius) {
        assert(deciding_partner(ids, mid, radius, i) == Some(j)) by {
            if deciding_partner(ids, mid, radius, i) is None {
                assert(!collides(mid[i].position, mid[j].position, radius));
            }
        }
        assert(deciding_partner(ids, mid, radius, j) == Some(i)) by {
            if deciding_partner(ids, mid, radius, j) is None {
                assert(!collides(mid[j].position, mid[i].position, radius));
            }
        }
        law_colliding_pair_ends_apart(ids, mid, radius, i, j);
    } else {
        assert(deciding_partner(ids, mid, radius, i) is None);
        assert(deciding_partner(ids, mid, radius, j) is None);
        assert(resolved(ids, mid, radius)[i] == mid[i]);
        assert(resolved(ids, mid, radius)[j] == mid[j]);
    }
}

/// After a tick each velocity component of every player is within the speed
/// limit, whatever the velocities were before.
pub proof fn law_velocity_within_limit(
    ids: Seq<Seq<char>>,
    ps: Seq<PlayerState>,
    micros: int,
    rules: GameRules,
    now: Timestamp,
    k: int,
)
    requires
        rules.well_formed(),
        0 <= k < ps.len(),
    ensures
        -rules.max_velocity <= advanced(ids, ps, micros, rules, now)[k].velocity.x <= rules.max_velocity,
        -rules.max_velocity <= advanced(ids, ps, micros, rules, now)[k].velocity.y <= rules.max_velocity,
{
    let mid = integrated_all(ps, micros, rules, now);
    let radius = rules.collision_radius as int;
    lemma_deciding_partner(ids, mid, radius, k);
    lemma_integrated_in_bounds(ps[k], micros, rules, now);
    match deciding_partner(ids, mid, radius, k) {
        Some(p) => {
            lemma_integrated_in_bounds(ps[p], micros, rules, now);
            assert(mid[p] == integrated(ps[p], micros, rules, now));
            assert(advanced(ids, ps, micros, rules, now)[k].velocity == mid[p].velocity);
        },
        None => {
            assert(advanced(ids, ps, micros, rules, now)[k] == mid[k]);
        },
    }
}

/// Holding a value inside a range twice is holding it once.
pub proof fn law_clamp_idempotent(x: int, lo: int, hi: int)
    requires
        lo <= hi,
    ensures
        clamp(clamp(x, lo, hi), lo, hi) == clamp(x, lo, hi),
        lo <= clamp(x, lo, hi) <= hi,
{
}

/// A coordinate on a bound of the map, with a velocity that points outward
/// or is zero, stays on that bound however long the tick.
pub proof fn law_outward_coordinate_stays(p: int, v: int, micros: int, lo: int, hi: int)
    requires
        lo <= hi,
        0 <= micros,
    ensures
        p == hi && v >= 0 ==> integrate_axis(p, v, micros, lo, hi) == hi,
        p == lo && v <= 0 ==> integrate_axis(p, v, micros, lo, hi) == lo,
{
    if v >= 0 {
        assert(scaled(v, micros) >= 0) by (nonlinear_arith)
            requires
                v >= 0,
                micros >= 0,
                scaled(v, micros) == if v * micros >= 0 {
                    (v * micros) / 1_000_000
                } else {
                    -((-(v * micros)) / 1_000_000)
                },
        ;
    }
    if v <= 0 {
        assert(scaled(v, micros) <= 0) by (nonlinear_arith)
            requires
                v <= 0,
                micros >= 0,
                scaled(v, micros) == if v * micros >= 0 {
                    (v * micros) / 1_000_000
                } else {
                    -((-(v * micros)) / 1_000_000)
                },
        ;
    }
}

/// A player on the right edge of the map that moves outward is on that edge
/// after one integration pass and after a second one: the out-of-range
/// target is held to the same value each time.
pub proof fn law_boundary_holds_over_ticks(
    s: PlayerState,
    first: int,
    second: int,
    rules: GameRules,
    now: Timestamp,
    later: Timestamp,
)
    requires
        rules.well_formed(),
        0 <= first,
        0 <= second,
        s.position.x == rules.map_bounds.1,
        s.velocity.x >= 0,
    ensures
        integrated(s, first, rules, now).position.x == rules.map_bounds.1,
        integrated(integrated(s, first, rules, now), second, rules, later).position.x
            == rules.map_bounds.1,
{
    let lo = rules.map_bounds.0 as int;
    let hi = rules.map_bounds.1 as int;
    law_outward_coordinate_stays(s.position.x as int, s.velocity.x as int, first, lo, hi);
    let once = integrated(s, first, rules, now);
    assert(once.position.x == hi);
    assert(once.velocity.x >= 0);
    law_outward_coordinate_stays(once.position.x as int, once.velocity.x as int, second, lo, hi);
}

/// The players after one tick for each time of `nows`, each tick of
/// `micros` microseconds.
pub open spec fn advanced_times(
    ids: Seq<Seq<char>>,
    ps: Seq<PlayerState>,
    micros: int,
    rules: GameRules,
    nows: Seq<Timestamp>,
) -> Seq<PlayerState>
    decreases nows.len(),
{
    if nows.len() == 0 {
        ps
    } else {
        advanced(
            ids,
            advanced_times(ids, ps, micros, rules, nows.drop_last()),
            micros,
            rules,
            nows.last(),
        )
    }
}

/// A value between two values of a range is in the range: the steps from
/// `p` to `p + n * d` stay between the two ends.
proof fn lemma_steps_stay_inside(p: int, d: int, k: int, n: int, lo: int, hi: int)
    by (nonlinear_arith)
    requires
        0 <= k <= n,
        lo <= p <= hi,
        lo <= p + n * d <= hi,
    ensures
        lo <= p + k * d <= hi,
        (k + 1) * d == k * d + d,
{
    if d >= 0 {
        assert(0 <= k * d <= n * d);
    } else {
        assert(n * d <= k * d <= 0);
    }
}

/// A player alone in the game, with a velocity inside the speed limit and
/// with no input, moves by the same step in every tick: after `n` ticks
/// of `micros` microseconds each it has moved `n` times the step of one
/// tick, as far as that stays inside the map, and its velocity is what it
/// was.
pub proof fn law_lone_player_moves_steadily(
    id: Seq<char>,
    s: PlayerState,
    micros: int,
    rules: GameRules,
    nows: Seq<Timestamp>,
)
    requires
        rules.well_formed(),
        -rules.max_velocity <= s.velocity.x <= rules.max_velocity,
        -rules.max_velocity <= s.velocity.y <= rules.max_velocity,
        rules.map_bounds.0 <= s.position.x <= rules.map_bounds.1,
        rules.map_bounds.0 <= s.position.y <= rules.map_bounds.1,
        rules.map_bounds.0 <= s.position.x + nows.len() * scaled(s.velocity.x as int, micros)
            <= rules.map_bounds.1,
        rules.map_bounds.0 <= s.position.y + nows.len() * scaled(s.velocity.y as int, micros)
            <= rules.map_bounds.1,
    ensures
        advanced_times(seq![id], seq![s], micros, rules, nows).len() == 1,
        advanced_times(seq![id], seq![s], micros, rules, nows)[0].position.x == s.position.x + nows.len()
            * scaled(s.velocity.x as int, micros),
        advanced_times(seq![id], seq![s], micros, rules, nows)[0].position.y == s.position.y + nows.len()
            * scaled(s.velocity.y as int, micros),
        advanced_times(seq![id], seq![s], micros, rules, nows)[0].velocity == s.velocity,
    decreases nows.len(),
{
    let n = nows.len() as int;
    let lo = rules.map_bounds.0 as int;
    let hi = rules.map_bounds.1 as int;
    let dx = scaled(s.velocity.x as int, micros);
    let dy = scaled(s.velocity.y as int, micros);
    if n > 0 {
        let front = nows.drop_last();
        lemma_steps_stay_inside(s.position.x as int, dx, n - 1, n, lo, hi);
        lemma_steps_stay_inside(s.position.y as int, dy, n - 1, n, lo, hi);
        law_lone_player_moves_steadily(id, s, micros, rules, front);
        let before = advanced_times(seq![id], seq![s], micros, rules, front);
        let ids = seq![id];
        let mid = integrated_all(before, micros, rules, nows.last());
        let radius = rules.collision_radius as int;
        assert(mid.len() == 1);
        assert(chosen_partner(ids, mid, radius, 0, 0) is None);
        assert(chosen_partner(ids, mid, radius, 0, 1) is None);
        assert(deciding_partner(ids, mid, radius, 0) is None);
        assert(advanced(ids, before, micros, rules, nows.last())[0] == mid[0]);
        assert(mid[0] == integrated(before[0], micros, rules, nows.last()));
        assert(before[0].position.x + dx == s.position.x + n * dx);
        assert(before[0].position.y + dy == s.position.y + n * dy);
    } else {
        assert(n * dx == 0 && n * dy == 0) by (nonlinear_arith)
            requires
                n == 0,
        ;
    }
}

/// Two games hold the same players: every id has the same state in both,
/// or is in neither. The order of the players may differ.
pub open spec fn same_players(
    a: Seq<(Seq<char>, PlayerState)>,
    b: Seq<(Seq<char>, PlayerState)>,
) -> bool {
    forall|id: Seq<char>| lookup(a, id) == lookup(b, id)
}

/// The players of a game after the collision pass, each under its id.
pub open spec fn resolved_game(game: Seq<(Seq<char>, PlayerState)>, radius: int) -> Seq<
    (Seq<char>, PlayerState),
> {
    Seq::new(
        game.len(),
        |k: int| (game[k].0, resolved(ids_of(game), values_of(game), radius)[k]),
    )
}

/// The place that a player of one game has in another game that holds the
/// same players.
pub proof fn lemma_counterpart(
    a: Seq<(Seq<char>, PlayerState)>,
    b: Seq<(Seq<char>, PlayerState)>,
    i: int,
) -> (j: int)
    requires
        distinct_ids(a),
        distinct_ids(b),
        same_players(a, b),
        0 <= i < a.len(),
    ensures
        0 <= j < b.len(),
        b[j] == a[i],
{
    lemma_index_of_unique(a, i);
    assert(lookup(a, a[i].0) == Some(a[i].1));
    assert(lookup(b, a[i].0) == lookup(a, a[i].0));
    index_of(b, a[i].0)
}

/// A game with distinct ids has ids that all differ.
proof fn lemma_ids_all_differ(a: Seq<(Seq<char>, PlayerState)>)
    requires
        distinct_ids(a),
    ensures
        all_different(ids_of(a)),
        ids_of(a).len() == a.len(),
        values_of(a).len() == a.len(),
{
    assert forall|x: int, y: int| 0 <= x < y < ids_of(a).len() implies #[trigger] ids_of(a)[x]
        != #[trigger] ids_of(a)[y] by {
        assert(a[x].0 != a[y].0);
    }
}

/// What becomes of a player in the collision pass does not depend on where
/// it and the others stand in the game.
pub proof fn lemma_resolved_player_ignores_order(
    a: Seq<(Seq<char>, PlayerState)>,
    b: Seq<(Seq<char>, PlayerState)>,
    radius: int,
    i: int,
    j: int,
)
    requires
        distinct_ids(a),
        distinct_ids(b),
        same_players(a, b),
        0 <= i < a.len(),
        0 <= j < b.len(),
        a[i] == b[j],
    ensures
        resolved_player(ids_of(a), values_of(a), radius, i) == resolved_player(
            ids_of(b),
            values_of(b),
            radius,
            j,
        ),
{
    let (ia, pa) = (ids_of(a), values_of(a));
    let (ib, pb) = (ids_of(b), values_of(b));
    lemma_ids_all_differ(a);
    lemma_ids_all_differ(b);
    lemma_chosen_partner(ia, pa, radius, i, a.len() as int);
    lemma_chosen_partner(ib, pb, radius, j, b.len() as int);
    let da = deciding_partner(ia, pa, radius, i);
    let db = deciding_partner(ib, pb, radius, j);
    assert(same_players(b, a));
    match da {
        Some(p) => {
            let q = lemma_counterpart(a, b, p);
            assert(pa[p] == a[p].1 && pb[q] == b[q].1 && pa[i] == a[i].1 && pb[j] == b[j].1);
            assert(q != j) by {
                if q == j {
                    assert(a[p].0 == a[i].0);
                    if p < i {
                        assert(a[p].0 != a[i].0);
                    } else {
                        assert(a[i].0 != a[p].0);
                    }
                }
            }
            assert(collides(pb[j].position, pb[q].position, radius));
            assert(db is Some);
            let p2 = db.unwrap();
            if p2 != q {
                assert(precedes(ib[q], ib[p2]));
                let back = lemma_counterpart(b, a, p2);
                assert(pa[back] == a[back].1 && pb[p2] == b[p2].1);
                assert(back != p) by {
                    if back == p {
                        assert(b[p2].0 == b[q].0);
                        if p2 < q {
                            assert(b[p2].0 != b[q].0);
                        } else {
                            assert(b[q].0 != b[p2].0);
                        }
                    }
                }
                assert(back != i) by {
                    if back == i {
                        assert(b[p2].0 == b[j].0);
                        if p2 < j {
                            assert(b[p2].0 != b[j].0);
                        } else {
                            assert(b[j].0 != b[p2].0);
                        }
                    }
                }
                assert(collides(pa[i].position, pa[back].position, radius));
                assert(precedes(ia[back], ia[p]));
                assert(ia[back] == ib[p2] && ia[p] == ib[q]);
                law_ids_are_ordered(ib[q], ib[p2], ib[q]);
            }
            assert(p2 == q);
            assert(ia[i] == ib[j] && ia[p] == ib[q]);
        },
        None => {
            if db is Some {
                let p2 = db.unwrap();
                let back = lemma_counterpart(b, a, p2);
                assert(pa[back] == a[back].1 && pb[p2] == b[p2].1 && pa[i] == a[i].1 && pb[j]
                    == b[j].1);
                assert(back != i) by {
                    if back == i {
                        assert(b[p2].0 == b[j].0);
                        if p2 < j {
                            assert(b[p2].0 != b[j].0);
                        } else {
                            assert(b[j].0 != b[p2].0);
                        }
                    }
                }
                assert(collides(pa[i].position, pa[back].position, radius));
            }
        },
    }
}

/// The collision pass treats the game as a mapping from id to state: two
/// games that hold the same players, in whatever order, hold the same
/// players afterwards too.
pub proof fn law_collisions_ignore_order(
    a: Seq<(Seq<char>, PlayerState)>,
    b: Seq<(Seq<char>, PlayerState)>,
    radius: int,
)
    requires
        distinct_ids(a),
        distinct_ids(b),
        same_players(a, b),
    ensures
        same_players(resolved_game(a, radius), resolved_game(b, radius)),
        distinct_ids(resolved_game(a, radius)),
        distinct_ids(resolved_game(b, radius)),
{
    let ra = resolved_game(a, radius);
    let rb = resolved_game(b, radius);
    lemma_same_ids_stay_distinct(a, ra);
    lemma_same_ids_stay_distinct(b, rb);
    assert(same_players(b, a));
    assert forall|id: Seq<char>| lookup(ra, id) == lookup(rb, id) by {
        lemma_same_ids_have_same_members(a, ra, id);
        lemma_same_ids_have_same_members(b, rb, id);
        assert(has_id(a, id) == has_id(b, id)) by {
            assert(lookup(a, id) == lookup(b, id));
        }
        if has_id(a, id) {
            let i = index_of(a, id);
            let j = lemma_counterpart(a, b, i);
            lemma_resolved_player_ignores_order(a, b, radius, i, j);
            lemma_ids_all_differ(a);
            lemma_ids_all_differ(b);
            assert(ra[i] == (id, resolved_player(ids_of(a), values_of(a), radius, i)));
            assert(rb[j] == (id, resolved_player(ids_of(b), values_of(b), radius, j)));
            lemma_index_of_unique(ra, i);
            lemma_index_of_unique(rb, j);
        }
    }
}

/// A game whose ids are those of a game with distinct ids, place by place,
/// has distinct ids.
proof fn lemma_same_ids_stay_distinct(
    a: Seq<(Seq<char>, PlayerState)>,
    r: Seq<(Seq<char>, PlayerState)>,
)
    requires
        distinct_ids(a),
        r.len() == a.len(),
        forall|k: int| 0 <= k < a.len() ==> (#[trigger] r[k]).0 == a[k].0,
    ensures
        distinct_ids(r),
{
    assert forall|x: int, y: int| 0 <= x < y < r.len() implies (#[trigger] r[x]).0 != (
    #[trigger] r[y]).0 by {
        assert(a[x].0 != a[y].0);
    }
}

/// A game whose ids are those of another, place by place, holds the same ids.
proof fn lemma_same_ids_have_same_members(
    a: Seq<(Seq<char>, PlayerState)>,
    r: Seq<(Seq<char>, PlayerState)>,
    id: Seq<char>,
)
    requires
        r.len() == a.len(),
        forall|k: int| 0 <= k < a.len() ==> (#[trigger] r[k]).0 == a[k].0,
    ensures
        has_id(r, id) == has_id(a, id),
{
    if has_id(a, id) {
        let k = index_of(a, id);
        assert(r[k].0 == id);
    }
    if has_id(r, id) {
        let k = index_of(r, id);
        assert(a[k].0 == id);
    }
}

/// A whole tick treats the game as a mapping from id to state: two games
/// that hold the same players, in whatever order, hold the same players
/// after the tick too.
pub proof fn law_tick_ignores_order(
    a: Seq<(Seq<char>, PlayerState)>,
    b: Seq<(Seq<char>, PlayerState)>,
    micros: int,
    rules: GameRules,
    now: Timestamp,
)
    requires
        distinct_ids(a),
        distinct_ids(b),
        same_players(a, b),
    ensures
        same_players(ticked(a, micros, rules, now), ticked(b, micros, rules, now)),
{
    let ma = Seq::new(a.len(), |k: int| (a[k].0, integrated(a[k].1, micros, rules, now)));
    let mb = Seq::new(b.len(), |k: int| (b[k].0, integrated(b[k].1, micros, rules, now)));
    lemma_same_ids_stay_distinct(a, ma);
    lemma_same_ids_stay_distinct(b, mb);
    assert(same_players(b, a));
    assert forall|id: Seq<char>| lookup(ma, id) == lookup(mb, id) by {
        lemma_same_ids_have_same_members(a, ma, id);
        lemma_same_ids_have_same_members(b, mb, id);
        assert(lookup(a, id) == lookup(b, id));
        if has_id(a, id) {
            let i = index_of(a, id);
            let j = lemma_counterpart(a, b, i);
            assert(ma[i].0 == id && mb[j].0 == id);
            lemma_index_of_unique(ma, i);
            lemma_index_of_unique(mb, j);
        }
    }
    law_collisions_ignore_order(ma, mb, rules.collision_radius as int);
    assert(ids_of(ma) =~= ids_of(a));
    assert(ids_of(mb) =~= ids_of(b));
    assert(values_of(ma) =~= integrated_all(values_of(a), micros, rules, now));
    assert(values_of(mb) =~= integrated_all(values_of(b), micros, rules, now));
    assert(ticked(a, micros, rules, now) =~= resolved_game(ma, rules.collision_radius as int));
    assert(ticked(b, micros, rules, now) =~= resolved_game(mb, rules.collision_radius as int));
}

} // verus!
