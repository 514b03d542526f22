//! The world model: who is in the game, where, how fast, and how one tick of
//! simulated time changes that.

use std::time::Duration;
use vstd::prelude::*;

use crate::fixed::clamp;
use crate::fixed::div_rounded_up;
use crate::fixed::div_rounded_up_of;
use crate::fixed::floor_sqrt;
use crate::fixed::floor_sqrt_of;
use crate::fixed::is_floor_sqrt;
use crate::fixed::lemma_div_rounded_up;
use crate::fixed::magnitude;
use crate::fixed::magnitude_of;
use crate::fixed::scaled;
use crate::fixed::UNIT;
use crate::order::id_precedes;
use crate::order::law_ids_are_ordered;
use crate::order::precedes;
use crate::roster::texts_of;
use crate::errors::GameError;
use crate::roster::has_id;
use crate::roster::ids_of;
use crate::roster::index_of;
use crate::roster::lookup;
use crate::roster::values_of;
use crate::roster::with_entry;
use crate::roster::without_id;
use crate::roster::Roster;
use crate::types::duration_as_micros;
use crate::types::duration_micros;
use crate::types::PlayerState;
use crate::types::Timestamp;
use crate::types::Vector2;

verus! {

/// The greatest magnitude that a bound of the map or the collision radius may
/// have, in sub-units. It keeps every squared distance inside 128 bits.
pub const COORDINATE_LIMIT: i64 = 0x100_0000_0000;

/// The factor by which a distance is enlarged before its square root is
/// taken, so that the root keeps sixteen binary places.
pub const ROOT_SCALE: u128 = 65536;

/// The constants of the simulation, in fixed-point sub-units.
#[derive(Clone, Copy, Debug)]
pub struct GameRules {
    /// The least and the greatest value of either coordinate.
    pub map_bounds: (i64, i64),
    /// The greatest magnitude of either velocity component, per second.
    pub max_velocity: i64,
    /// Two players closer than this collide.
    pub collision_radius: i64,
}

impl GameRules {
    /// The bounds are ordered, nothing is negative that measures a size, and
    /// all of it is within `COORDINATE_LIMIT`.
    pub open spec fn well_formed(&self) -> bool {
        &&& -COORDINATE_LIMIT <= self.map_bounds.0 <= self.map_bounds.1 <= COORDINATE_LIMIT
        &&& 0 <= self.max_velocity
        &&& 0 <= self.collision_radius <= COORDINATE_LIMIT
    }

    /// The rules of the standard game: a map of 100 units either way, a speed
    /// limit of 10 units per second and a collision radius of 10 units.
    pub open spec fn standard() -> GameRules {
        GameRules {
            map_bounds: ((-100_000_000i64), 100_000_000i64),
            max_velocity: 10_000_000i64,
            collision_radius: 10_000_000i64,
        }
    }
}

impl Default for GameRules {
    fn default() -> (rules: Self)
        ensures
            rules == GameRules::standard(),
            rules.well_formed(),
    {
        GameRules {
            map_bounds: (-100 * UNIT, 100 * UNIT),
            max_velocity: 10 * UNIT,
            collision_radius: 10 * UNIT,
        }
    }
}

/// One coordinate after moving at speed `v` for `micros` microseconds from
/// `p`, held inside `[lo, hi]`.
pub open spec fn integrate_axis(p: int, v: int, micros: int, lo: int, hi: int) -> int {
    clamp(p + scaled(v, micros), lo, hi)
}

/// A player after the integration pass: moved by its velocity and held inside
/// the map, its velocity then held inside the speed limit, stamped `now`.
pub open spec fn integrated(
    s: PlayerState,
    micros: int,
    rules: GameRules,
    now: Timestamp,
) -> PlayerState {
    PlayerState {
        position: Vector2 {
            x: integrate_axis(
                s.position.x as int,
                s.velocity.x as int,
                micros,
                rules.map_bounds.0 as int,
                rules.map_bounds.1 as int,
            ) as i64,
            y: integrate_axis(
                s.position.y as int,
                s.velocity.y as int,
                micros,
                rules.map_bounds.0 as int,
                rules.map_bounds.1 as int,
            ) as i64,
        },
        velocity: Vector2 {
            x: clamp(
                s.velocity.x as int,
                -(rules.max_velocity as int),
                rules.max_velocity as int,
            ) as i64,
            y: clamp(
                s.velocity.y as int,
                -(rules.max_velocity as int),
                rules.max_velocity as int,
            ) as i64,
        },
        last_update: now,
    }
}

/// After the integration pass a player is inside the map and its velocity
/// inside the speed limit, whatever it was before and however long the tick.
pub proof fn lemma_integrated_in_bounds(
    s: PlayerState,
    micros: int,
    rules: GameRules,
    now: Timestamp,
)
    requires
        rules.well_formed(),
    ensures
        rules.map_bounds.0 <= integrated(s, micros, rules, now).position.x <= rules.map_bounds.1,
        rules.map_bounds.0 <= integrated(s, micros, rules, now).position.y <= rules.map_bounds.1,
        -rules.max_velocity <= integrated(s, micros, rules, now).velocity.x <= rules.max_velocity,
        -rules.max_velocity <= integrated(s, micros, rules, now).velocity.y <= rules.max_velocity,
        within_limit(integrated(s, micros, rules, now).position),
{
}

/// Every player after the integration pass.
pub open spec fn integrated_all(
    ps: Seq<PlayerState>,
    micros: int,
    rules: GameRules,
    now: Timestamp,
) -> Seq<PlayerState> {
    Seq::new(ps.len(), |k: int| integrated(ps[k], micros, rules, now))
}

/// The scaled value of `v` is the scaled magnitude of `v` with the sign of `v`.
proof fn lemma_scaled_by_magnitude(v: int, micros: int)
    requires
        0 <= micros,
    ensures
        scaled(v, micros) == if v >= 0 {
            (magnitude(v) * micros) / (UNIT as int)
        } else {
            -((magnitude(v) * micros) / (UNIT as int))
        },
{
    if v >= 0 {
        assert(v * micros >= 0) by (nonlinear_arith)
            requires
                v >= 0,
                micros >= 0,
        ;
    } else {
        assert(v * micros <= 0 && -(v * micros) == (-v) * micros) by (nonlinear_arith)
            requires
                v < 0,
                micros >= 0,
        ;
    }
}

/// Moves one coordinate and holds it inside `[lo, hi]`, for any speed and any
/// length of time.
fn integrate_axis_of(p: i64, v: i64, micros: u128, lo: i64, hi: i64) -> (r: i64)
    requires
        lo <= hi,
    ensures
        r == integrate_axis(p as int, v as int, micros as int, lo as int, hi as int),
{
    let speed = magnitude_of(v);
    proof {
        lemma_scaled_by_magnitude(v as int, micros as int);
    }
    let reach: Option<u128> = match speed.checked_mul(micros) {
        Some(product) => {
            let d = product / (UNIT as u128);
            if d < 0x1_0000_0000_0000_0000 {
                Some(d)
            } else {
                None
            }
        },
        None => None,
    };
    match reach {
        Some(d) => {
            let moved: i128 = if v >= 0 {
                p as i128 + d as i128
            } else {
                p as i128 - d as i128
            };
            if moved < lo as i128 {
                lo
            } else if moved > hi as i128 {
                hi
            } else {
                moved as i64
            }
        },
        None => {
            if v >= 0 {
                hi
            } else {
                lo
            }
        },
    }
}

/// `x` brought into `[lo, hi]`.
fn clamp_of(x: i64, lo: i64, hi: i64) -> (r: i64)
    requires
        lo <= hi,
    ensures
        r == clamp(x as int, lo as int, hi as int),
{
    if x < lo {
        lo
    } else if x > hi {
        hi
    } else {
        x
    }
}

/// The integration pass on one player.
fn integrate_player(s: &PlayerState, micros: u128, rules: &GameRules, now: Timestamp) -> (r:
    PlayerState)
    requires
        rules.well_formed(),
    ensures
        r == integrated(*s, micros as int, *rules, now),
{
    let lo = rules.map_bounds.0;
    let hi = rules.map_bounds.1;
    let top = rules.max_velocity;
    PlayerState {
        position: Vector2 {
            x: integrate_axis_of(s.position.x, s.velocity.x, micros, lo, hi),
            y: integrate_axis_of(s.position.y, s.velocity.y, micros, lo, hi),
        },
        velocity: Vector2 {
            x: clamp_of(s.velocity.x, -top, top),
            y: clamp_of(s.velocity.y, -top, top),
        },
        last_update: now,
    }
}

/// Either coordinate of `p` is at least `COORDINATE_LIMIT` away from both
/// ends of the range of `i64`: a push by a collision radius, which is at
/// most that long, cannot take the player out of the range.
pub open spec fn within_limit(p: Vector2) -> bool {
    &&& i64::MIN + COORDINATE_LIMIT <= p.x <= i64::MAX - COORDINATE_LIMIT
    &&& i64::MIN + COORDINATE_LIMIT <= p.y <= i64::MAX - COORDINATE_LIMIT
}

/// The square of the distance between `a` and `b`.
pub open spec fn distance_squared(a: Vector2, b: Vector2) -> int {
    (a.x - b.x) * (a.x - b.x) + (a.y - b.y) * (a.y - b.y)
}

/// Two players at `a` and `b` collide: they are closer than `radius`.
pub open spec fn collides(a: Vector2, b: Vector2, radius: int) -> bool {
    distance_squared(a, b) < radius * radius
}

/// How far a player moves along one axis to get `radius` away from another.
/// `d` is its offset from the other along that axis and `root` the scaled
/// distance between the two. The offset is stretched by `radius / distance`,
/// rounded up, and each of the two players takes half of the stretch, rounded
/// up again, away from the other.
pub open spec fn axis_push(d: int, root: int, radius: int) -> int {
    let target = div_rounded_up(radius * magnitude(d) * (ROOT_SCALE as int), root);
    let half = (target - magnitude(d) + 1) / 2;
    if d >= 0 {
        half
    } else {
        -half
    }
}

/// The displacement that takes the player at `a` away from the one at `b`.
/// Two players in one place have no line between them: the one whose id
/// comes first in the order of ids, for which `first` is set, then moves
/// half the radius to the right and the other to the left.
pub open spec fn push_apart(a: Vector2, b: Vector2, radius: int, first: bool) -> (int, int) {
    let dx = a.x - b.x;
    let dy = a.y - b.y;
    let q = dx * dx + dy * dy;
    if q == 0 {
        if first {
            ((radius + 1) / 2, 0)
        } else {
            (-((radius + 1) / 2), 0)
        }
    } else {
        let root = floor_sqrt(q * (ROOT_SCALE as int) * (ROOT_SCALE as int));
        (axis_push(dx, root, radius), axis_push(dy, root, radius))
    }
}

/// A player `a` after its collision with `b`: pushed away from `b`, and moving
/// as `b` did.
pub open spec fn separated(a: PlayerState, b: PlayerState, radius: int, first: bool) -> PlayerState {
    let push = push_apart(a.position, b.position, radius, first);
    PlayerState {
        position: Vector2 {
            x: (a.position.x + push.0) as i64,
            y: (a.position.y + push.1) as i64,
        },
        velocity: b.velocity,
        last_update: a.last_update,
    }
}

/// The partner that decides for player `k` among the first `upto` players:
/// of those that collide with player `k`, the one whose id comes last in
/// the order of ids.
pub open spec fn chosen_partner(
    ids: Seq<Seq<char>>,
    ps: Seq<PlayerState>,
    radius: int,
    k: int,
    upto: int,
) -> Option<int>
    decreases upto,
{
    if upto <= 0 {
        None
    } else {
        let before = chosen_partner(ids, ps, radius, k, upto - 1);
        let m = upto - 1;
        if m != k && collides(ps[k].position, ps[m].position, radius) && (match before {
            Some(p) => precedes(ids[p], ids[m]),
            None => true,
        }) {
            Some(m)
        } else {
            before
        }
    }
}

/// The partner whose collision decides what becomes of player `k`: of the
/// players that collide with it, the one whose id comes last in the order
/// of ids. Where the players stand in the game makes no difference.
pub open spec fn deciding_partner(
    ids: Seq<Seq<char>>,
    ps: Seq<PlayerState>,
    radius: int,
    k: int,
) -> Option<int> {
    chosen_partner(ids, ps, radius, k, ps.len() as int)
}

/// Player `k` after the collision pass over the snapshot `ps` of the
/// players `ids`: pushed away from its deciding partner and moving as that
/// partner did, or as it was if it collides with nobody. Of two players in
/// one place the one whose id comes first goes to the right.
pub open spec fn resolved_player(
    ids: Seq<Seq<char>>,
    ps: Seq<PlayerState>,
    radius: int,
    k: int,
) -> PlayerState {
    match deciding_partner(ids, ps, radius, k) {
        Some(p) => separated(ps[k], ps[p], radius, precedes(ids[k], ids[p])),
        None => ps[k],
    }
}

/// Every player after the collision pass. Each result is computed from the
/// snapshot `ps` alone, so no pair sees what another pair changed.
pub open spec fn resolved(ids: Seq<Seq<char>>, ps: Seq<PlayerState>, radius: int) -> Seq<
    PlayerState,
> {
    Seq::new(ps.len(), |k: int| resolved_player(ids, ps, radius, k))
}

/// Every player after one tick: the integration pass, then the collision pass.
pub open spec fn advanced(
    ids: Seq<Seq<char>>,
    ps: Seq<PlayerState>,
    micros: int,
    rules: GameRules,
    now: Timestamp,
) -> Seq<PlayerState> {
    resolved(ids, integrated_all(ps, micros, rules, now), rules.collision_radius as int)
}

/// The players of a game after one tick: the ids as they were, in their
/// order, and each state advanced.
pub open spec fn ticked(
    game: Seq<(Seq<char>, PlayerState)>,
    micros: int,
    rules: GameRules,
    now: Timestamp,
) -> Seq<(Seq<char>, PlayerState)> {
    Seq::new(
        game.len(),
        |k: int| (game[k].0, advanced(ids_of(game), values_of(game), micros, rules, now)[k]),
    )
}

/// Two players that collide are closer than the radius along either axis.
pub proof fn lemma_colliding_offsets(dx: int, dy: int, radius: int)
    by (nonlinear_arith)
    requires
        0 <= radius,
    ensures
        dx * dx + dy * dy < radius * radius ==> -radius < dx < radius && -radius < dy < radius,
{
}

/// Whether two players collide, wherever they are.
fn collides_of(a: &Vector2, b: &Vector2, radius: i64) -> (hit: bool)
    requires
        0 <= radius <= COORDINATE_LIMIT,
    ensures
        hit == collides(*a, *b, radius as int),
{
    let dx: i128 = a.x as i128 - b.x as i128;
    let dy: i128 = a.y as i128 - b.y as i128;
    let r: i128 = radius as i128;
    proof {
        lemma_colliding_offsets(dx as int, dy as int, r as int);
    }
    if dx >= r || dx <= -r || dy >= r || dy <= -r {
        return false;
    }
    proof {
        lemma_square_bound(dx as int, 0x200_0000_0000);
        lemma_square_bound(dy as int, 0x200_0000_0000);
        lemma_square_bound(r as int, 0x200_0000_0000);
    }
    dx * dx + dy * dy < r * r
}

/// A square is bounded by the square of a bound on the magnitude.
pub proof fn lemma_square_bound(d: int, limit: int)
    by (nonlinear_arith)
    requires
        -limit <= d <= limit,
    ensures
        0 <= d * d <= limit * limit,
{
}

/// Between two colliding players the scaled root lies between the scaled
/// offset along either axis and the scaled radius.
pub proof fn lemma_root_brackets(d: int, other: int, root: int, radius: int, scale: int)
    by (nonlinear_arith)
    requires
        0 < scale,
        0 <= radius,
        is_floor_sqrt((d * d + other * other) * scale * scale, root),
        d * d + other * other < radius * radius,
    ensures
        scale * magnitude(d) <= root,
        root < scale * radius,
{
    let m = magnitude(d);
    assert(m * m == d * d);
    assert((scale * m) * (scale * m) == m * m * scale * scale);
    assert(m * m * scale * scale <= (d * d + other * other) * scale * scale) by {
        assert(other * other >= 0);
        assert(scale * scale > 0);
    }
    if scale * m > root {
        assert(scale * m >= root + 1);
        assert((scale * m) * (scale * m) >= (root + 1) * (root + 1));
    }
    assert((scale * radius) * (scale * radius) == radius * radius * scale * scale);
    assert((d * d + other * other) * scale * scale < radius * radius * scale * scale) by {
        assert(scale * scale > 0);
    }
    if root >= scale * radius {
        assert(root * root >= (scale * radius) * (scale * radius));
    }
}

/// Between two colliding players the push along an axis is at most the
/// radius, points the way the offset points, and stretches the offset at
/// least to the length `target` that the radius asks for.
pub proof fn lemma_axis_push(d: int, root: int, radius: int)
    requires
        0 <= radius,
        0 < root,
        ROOT_SCALE * magnitude(d) <= root,
        root < ROOT_SCALE * radius,
    ensures
        -radius <= axis_push(d, root, radius) <= radius,
        d >= 0 ==> axis_push(d, root, radius) >= 0,
        d <= 0 ==> axis_push(d, root, radius) <= 0,
        axis_push(-d, root, radius) == -axis_push(d, root, radius),
        magnitude(d) <= div_rounded_up(radius * magnitude(d) * (ROOT_SCALE as int), root) <= radius,
        magnitude(d + 2 * axis_push(d, root, radius)) >= div_rounded_up(
            radius * magnitude(d) * (ROOT_SCALE as int),
            root,
        ),
{
    let m = magnitude(d);
    let scale = ROOT_SCALE as int;
    let numer = radius * m * scale;
    assert(numer >= 0) by (nonlinear_arith)
        requires
            numer == radius * m * scale,
            radius >= 0,
            m >= 0,
            scale > 0,
    ;
    let target = div_rounded_up(numer, root);
    lemma_div_rounded_up(numer, root);
    assert(target <= radius) by (nonlinear_arith)
        requires
            (target - 1) * root < numer,
            numer == radius * m * scale,
            scale * m <= root,
            0 < root,
            0 <= radius,
    ;
    assert(target >= m) by (nonlinear_arith)
        requires
            target * root >= numer,
            numer == radius * m * scale,
            root < scale * radius,
            0 < root,
            0 <= m,
            0 <= target,
    ;
    assert(magnitude(-d) == m);
    if d == 0 {
        assert(target == 0) by (nonlinear_arith)
            requires
                (target - 1) * root < numer,
                numer == radius * m * scale,
                m == 0,
                0 < root,
                0 <= target,
        ;
    }
}

/// The push along one axis.
fn axis_push_of(d: i128, root: u128, radius: i64) -> (push: i64)
    requires
        -0x200_0000_0000 <= d <= 0x200_0000_0000,
        0 <= radius <= COORDINATE_LIMIT,
        0 < root < 0x8000_0000_0000_0000,
        ROOT_SCALE * magnitude(d as int) <= root,
        root < ROOT_SCALE * radius,
    ensures
        push == axis_push(d as int, root as int, radius as int),
        -(radius as int) <= push <= radius,
{
    let m: u128 = if d >= 0 {
        d as u128
    } else {
        (-d) as u128
    };
    assert(radius * m <= 0x100_0000_0000 * 0x200_0000_0000) by (nonlinear_arith)
        requires
            0 <= radius <= 0x100_0000_0000,
            0 <= m <= 0x200_0000_0000,
    ;
    let numer: u128 = (radius as u128) * m * ROOT_SCALE;
    let target = div_rounded_up_of(numer, root);
    proof {
        lemma_axis_push(d as int, root as int, radius as int);
    }
    let half: u128 = (target - m + 1) / 2;
    if d >= 0 {
        half as i64
    } else {
        -(half as i64)
    }
}

/// A player after its collision with another.
fn separate(a: &PlayerState, b: &PlayerState, radius: i64, first: bool) -> (r: PlayerState)
    requires
        within_limit(a.position),
        0 <= radius <= COORDINATE_LIMIT,
        collides(a.position, b.position, radius as int),
    ensures
        r == separated(*a, *b, radius as int, first),
{
    let dx: i128 = a.position.x as i128 - b.position.x as i128;
    let dy: i128 = a.position.y as i128 - b.position.y as i128;
    proof {
        lemma_colliding_offsets(dx as int, dy as int, radius as int);
        lemma_square_bound(dx as int, 0x200_0000_0000);
        lemma_square_bound(dy as int, 0x200_0000_0000);
    }
    let q: u128 = (dx * dx + dy * dy) as u128;
    if q == 0 {
        let half = (radius + 1) / 2;
        let x = if first {
            a.position.x + half
        } else {
            a.position.x - half
        };
        PlayerState {
            position: Vector2 { x, y: a.position.y },
            velocity: b.velocity,
            last_update: a.last_update,
        }
    } else {
        let scaled_q: u128 = q * ROOT_SCALE * ROOT_SCALE;
        let root = floor_sqrt_of(scaled_q);
        proof {
            lemma_root_brackets(dx as int, dy as int, root as int, radius as int, ROOT_SCALE as int);
            lemma_root_brackets(dy as int, dx as int, root as int, radius as int, ROOT_SCALE as int);
            assert(root > 0) by (nonlinear_arith)
                requires
                    q >= 1,
                    (root + 1) * (root + 1) > q * ROOT_SCALE * ROOT_SCALE,
                    root >= 0,
            ;
        }
        let px = axis_push_of(dx, root, radius);
        let py = axis_push_of(dy, root, radius);
        PlayerState {
            position: Vector2 { x: a.position.x + px, y: a.position.y + py },
            velocity: b.velocity,
            last_update: a.last_update,
        }
    }
}

/// No two of `ids` are the same.
pub open spec fn all_different(ids: Seq<Seq<char>>) -> bool {
    forall|a: int, b: int| 0 <= a < b < ids.len() ==> #[trigger] ids[a] != #[trigger] ids[b]
}

/// What `chosen_partner` finds is a partner: another player, among those
/// searched, that collides with player `k`; and every other such player has
/// an id that comes before its id.
pub proof fn lemma_chosen_partner(
    ids: Seq<Seq<char>>,
    ps: Seq<PlayerState>,
    radius: int,
    k: int,
    upto: int,
)
    requires
        all_different(ids),
        0 <= upto <= ids.len(),
    ensures
        match chosen_partner(ids, ps, radius, k, upto) {
            Some(p) => {
                &&& 0 <= p < upto
                &&& p != k
                &&& collides(ps[k].position, ps[p].position, radius)
                &&& forall|m: int|
                    0 <= m < upto && m != k && m != p && collides(
                        ps[k].position,
                        #[trigger] ps[m].position,
                        radius,
                    ) ==> precedes(ids[m], ids[p])
            },
            None => forall|m: int|
                0 <= m < upto && m != k ==> !collides(
                    ps[k].position,
                    #[trigger] ps[m].position,
                    radius,
                ),
        },
    decreases upto,
{
    if upto > 0 {
        lemma_chosen_partner(ids, ps, radius, k, upto - 1);
        let before = chosen_partner(ids, ps, radius, k, upto - 1);
        let last = upto - 1;
        if last != k && collides(ps[k].position, ps[last].position, radius) {
            match before {
                Some(p) => {
                    law_ids_are_ordered(ids[p], ids[last], ids[p]);
                    assert(ids[p] != ids[last]);
                    if precedes(ids[p], ids[last]) {
                        assert forall|m: int|
                            0 <= m < upto && m != k && m != last && collides(
                                ps[k].position,
                                #[trigger] ps[m].position,
                                radius,
                            ) implies precedes(ids[m], ids[last]) by {
                            if m != p {
                                law_ids_are_ordered(ids[m], ids[p], ids[last]);
                            }
                        }
                    }
                },
                None => {},
            }
        }
    }
}

/// What `chosen_partner` finds is another player, among those searched,
/// that collides with player `k`; it finds none only where there is none.
pub proof fn lemma_chosen_partner_collides(
    ids: Seq<Seq<char>>,
    ps: Seq<PlayerState>,
    radius: int,
    k: int,
    upto: int,
)
    ensures
        match chosen_partner(ids, ps, radius, k, upto) {
            Some(p) => 0 <= p < upto && p != k && collides(ps[k].position, ps[p].position, radius),
            None => forall|m: int|
                0 <= m < upto && m != k ==> !collides(
                    ps[k].position,
                    #[trigger] ps[m].position,
                    radius,
                ),
        },
    decreases upto,
{
    if upto > 0 {
        lemma_chosen_partner_collides(ids, ps, radius, k, upto - 1);
    }
}

/// The partner that decides for player `k`.
fn find_deciding_partner(ids: &Vec<String>, ps: &Vec<PlayerState>, k: usize, radius: i64) -> (found:
    Option<usize>)
    requires
        k < ps@.len(),
        ids@.len() == ps@.len(),
        0 <= radius <= COORDINATE_LIMIT,
    ensures
        match found {
            Some(p) => deciding_partner(texts_of(ids@), ps@, radius as int, k as int) == Some(
                p as int,
            ) && p < ps@.len() && collides(
                ps@[k as int].position,
                ps@[p as int].position,
                radius as int,
            ),
            None => deciding_partner(texts_of(ids@), ps@, radius as int, k as int) is None,
        },
{
    let n = ps.len();
    let mut found: Option<usize> = None;
    let mut m: usize = 0;
    while m < n
        invariant
            k < n == ps@.len(),
            ids@.len() == n,
            m <= n,
            0 <= radius <= COORDINATE_LIMIT,
            match found {
                Some(p) => chosen_partner(texts_of(ids@), ps@, radius as int, k as int, m as int)
                    == Some(p as int) && p < m && collides(
                    ps@[k as int].position,
                    ps@[p as int].position,
                    radius as int,
                ),
                None => chosen_partner(texts_of(ids@), ps@, radius as int, k as int, m as int)
                    is None,
            },
        decreases n - m,
    {
        if m != k && collides_of(&ps[k].position, &ps[m].position, radius) {
            let later = match found {
                Some(p) => id_precedes(ids[p].as_str(), ids[m].as_str()),
                None => true,
            };
            if later {
                found = Some(m);
            }
        }
        m += 1;
    }
    found
}

/// The players of `game` with the velocity of `id` set to `direction`, if
/// `id` is in the game.
pub open spec fn with_velocity(
    game: Seq<(Seq<char>, PlayerState)>,
    id: Seq<char>,
    direction: Vector2,
    now: Timestamp,
) -> Seq<(Seq<char>, PlayerState)> {
    if has_id(game, id) {
        let at = index_of(game, id);
        game.update(
            at,
            (
                id,
                PlayerState { position: game[at].1.position, velocity: direction, last_update: now },
            ),
        )
    } else {
        game
    }
}

/// The players of the game, each under its id, in the order in which they
/// joined, and the time of the last tick.
pub struct GameState {
    players: Roster<PlayerState>,
    last_update: Timestamp,
}

impl View for GameState {
    type V = Seq<(Seq<char>, PlayerState)>;

    /// The players as `(id, state)` pairs, in joining order.
    closed spec fn view(&self) -> Seq<(Seq<char>, PlayerState)> {
        self.players@
    }
}

impl GameState {
    /// No id occurs twice.
    pub closed spec fn well_formed(&self) -> bool {
        self.players.well_formed()
    }

    /// The ids of the players, in joining order.
    pub open spec fn ids(&self) -> Seq<Seq<char>> {
        ids_of(self@)
    }

    /// The states of the players, in joining order.
    pub open spec fn states(&self) -> Seq<PlayerState> {
        values_of(self@)
    }

    /// The time of the last tick.
    pub closed spec fn updated_at(&self) -> Timestamp {
        self.last_update
    }

    /// A well-formed game holds each id once.
    pub proof fn lemma_distinct(&self)
        requires
            self.well_formed(),
        ensures
            crate::roster::distinct_ids(self@),
    {
        self.players.lemma_distinct();
    }

    /// A game without players, stamped with the current time.
    pub fn new() -> (state: Self)
        ensures
            state.well_formed(),
            state@ == Seq::<(Seq<char>, PlayerState)>::empty(),
    {
        GameState { players: Roster::new(), last_update: Timestamp::now() }
    }

    /// The integration pass: every player moves by its velocity and is held
    /// inside the map, and its velocity inside the speed limit.
    fn integrate_all(&mut self, rules: &GameRules, micros: u128, now: Timestamp)
        requires
            old(self).well_formed(),
            rules.well_formed(),
        ensures
            final(self).well_formed(),
            final(self).ids() == old(self).ids(),
            final(self).states() == integrated_all(old(self).states(), micros as int, *rules, now),
            final(self).updated_at() == old(self).updated_at(),
    {
        let ghost before = self@;
        let n = self.players.len();
        let mut i: usize = 0;
        while i < n
            invariant
                self.well_formed(),
                rules.well_formed(),
                self@.len() == n == before.len(),
                self.last_update == old(self).last_update,
                i <= n,
                forall|k: int| 0 <= k < n ==> (#[trigger] self@[k]).0 == before[k].0,
                forall|k: int|
                    0 <= k < i ==> (#[trigger] self@[k]).1 == integrated(
                        before[k].1,
                        micros as int,
                        *rules,
                        now,
                    ),
                forall|k: int| i <= k < n ==> (#[trigger] self@[k]).1 == before[k].1,
            decreases n - i,
        {
            let next = integrate_player(self.players.value_at(i), micros, rules, now);
            self.players.set_value(i, next);
            i += 1;
        }
        assert(self.ids() =~= old(self).ids());
        assert(self.states() =~= integrated_all(old(self).states(), micros as int, *rules, now));
    }

    /// A copy of every player's state, in order.
    fn snapshot(&self) -> (states: Vec<PlayerState>)
        requires
            self.well_formed(),
        ensures
            states@ == self.states(),
    {
        let n = self.players.len();
        let mut states: Vec<PlayerState> = Vec::new();
        let mut i: usize = 0;
        while i < n
            invariant
                self.well_formed(),
                self@.len() == n,
                i <= n,
                states@.len() == i,
                forall|k: int| 0 <= k < i ==> (#[trigger] states@[k]) == self@[k].1,
            decreases n - i,
        {
            states.push(*self.players.value_at(i));
            i += 1;
        }
        assert(states@ =~= self.states());
        states
    }

    /// The collision pass. Every pair of players closer than the collision
    /// radius exchanges velocities and is pushed apart along the line between
    /// them. All pairs are judged and resolved on the positions and
    /// velocities that the pass started with; where a player is in several
    /// pairs, the partner whose id comes last in the order of ids decides.
    /// The order in which the players joined makes no difference. The
    /// players may be anywhere but
    /// within a radius of the ends of the range of the coordinates, where a
    /// push could not be held.
    pub fn resolve_collisions(&mut self, rules: &GameRules)
        requires
            old(self).well_formed(),
            rules.well_formed(),
            forall|k: int|
                0 <= k < old(self)@.len() ==> within_limit((#[trigger] old(self)@[k]).1.position),
        ensures
            final(self).well_formed(),
            final(self).ids() == old(self).ids(),
            final(self).states() == resolved(
                old(self).ids(),
                old(self).states(),
                rules.collision_radius as int,
            ),
            final(self).updated_at() == old(self).updated_at(),
    {
        let ghost before = self@;
        let radius = rules.collision_radius;
        let snapshot = self.snapshot();
        let ids = self.players.ids();
        assert(texts_of(ids@) =~= ids_of(before));
        let n = snapshot.len();
        assert forall|m: int| 0 <= m < snapshot@.len() implies within_limit(
            (#[trigger] snapshot@[m]).position,
        ) by {
            assert(snapshot@[m] == before[m].1);
        }
        let mut k: usize = 0;
        while k < n
            invariant
                self.well_formed(),
                0 <= radius <= COORDINATE_LIMIT,
                self@.len() == n == before.len(),
                snapshot@ == values_of(before),
                texts_of(ids@) == ids_of(before),
                ids@.len() == n,
                self.last_update == old(self).last_update,
                k <= n,
                forall|m: int| 0 <= m < snapshot@.len() ==> within_limit((#[trigger] snapshot@[m]).position),
                forall|m: int| 0 <= m < n ==> (#[trigger] self@[m]).0 == before[m].0,
                forall|m: int|
                    0 <= m < k ==> (#[trigger] self@[m]).1 == resolved_player(
                        texts_of(ids@),
                        snapshot@,
                        radius as int,
                        m,
                    ),
                forall|m: int| k <= m < n ==> (#[trigger] self@[m]).1 == before[m].1,
            decreases n - k,
        {
            match find_deciding_partner(&ids, &snapshot, k, radius) {
                Some(p) => {
                    let first = id_precedes(ids[k].as_str(), ids[p].as_str());
                    let next = separate(&snapshot[k], &snapshot[p], radius, first);
                    self.players.set_value(k, next);
                },
                None => {
                    assert(self@[k as int].1 == snapshot@[k as int]);
                },
            }
            k += 1;
        }
        assert(self.ids() =~= old(self).ids());
        assert(self.states() =~= resolved(old(self).ids(), old(self).states(), radius as int));
    }

    /// One tick of `micros` microseconds, stamped `now`: the integration
    /// pass, then the collision pass, under the standard rules.
    pub fn advance(&mut self, micros: u128, now: Timestamp)
        requires
            old(self).well_formed(),
        ensures
            final(self).well_formed(),
            final(self).ids() == old(self).ids(),
            final(self).states() == advanced(
                old(self).ids(),
                old(self).states(),
                micros as int,
                GameRules::standard(),
                now,
            ),
            final(self)@ == ticked(
                old(self)@,
                micros as int,
                GameRules::standard(),
                now,
            ),
            final(self).updated_at() == now,
    {
        let rules = GameRules::default();
        self.integrate_all(&rules, micros, now);
        proof {
            let mid = self@;
            let first = old(self).states();
            let micros_int = micros as int;
            let moved = integrated_all(first, micros_int, rules, now);
            assert(self.states() == moved);
            assert(self.states().len() == mid.len() && moved.len() == first.len());
            assert forall|k: int| 0 <= k < mid.len() implies within_limit(
                (#[trigger] mid[k]).1.position,
            ) by {
                assert(mid[k].1 == self.states()[k]);
                assert(moved[k] == integrated(first[k], micros_int, rules, now));
                lemma_integrated_in_bounds(first[k], micros_int, rules, now);
            }
        }
        self.resolve_collisions(&rules);
        self.last_update = now;
        proof {
            let after = ticked(
                old(self)@,
                micros as int,
                GameRules::standard(),
                now,
            );
            assert(self.ids().len() == self@.len() && old(self).ids().len() == old(self)@.len());
            assert forall|k: int| 0 <= k < self@.len() implies self@[k] == after[k] by {
                assert(self@[k].0 == self.ids()[k]);
                assert(old(self)@[k].0 == old(self).ids()[k]);
                assert(self@[k].1 == self.states()[k]);
            }
            assert(self@ =~= after);
        }
    }

    /// One tick of `delta_time`, stamped `now`: the integration pass, then the
    /// collision pass, under the standard rules. The tick lasts the whole
    /// microseconds of `delta_time`.
    pub fn update_at(&mut self, delta_time: Duration, now: Timestamp)
        requires
            old(self).well_formed(),
        ensures
            final(self).well_formed(),
            final(self).ids() == old(self).ids(),
            final(self).states() == advanced(
                old(self).ids(),
                old(self).states(),
                duration_micros(delta_time) as int,
                GameRules::standard(),
                now,
            ),
            final(self)@ == ticked(
                old(self)@,
                duration_micros(delta_time) as int,
                GameRules::standard(),
                now,
            ),
            final(self).updated_at() == now,
    {
        self.advance(duration_as_micros(delta_time), now);
    }

    /// One tick of `delta_time`, stamped with the current time. It never fails.
    pub fn update(&mut self, delta_time: Duration) -> (done: Result<(), GameError>)
        requires
            old(self).well_formed(),
        ensures
            done is Ok,
            final(self).well_formed(),
            final(self).ids() == old(self).ids(),
            final(self).states() == advanced(
                old(self).ids(),
                old(self).states(),
                duration_micros(delta_time) as int,
                GameRules::standard(),
                final(self).updated_at(),
            ),
            final(self)@ == ticked(
                old(self)@,
                duration_micros(delta_time) as int,
                GameRules::standard(),
                final(self).updated_at(),
            ),
    {
        let now = Timestamp::now();
        self.update_at(delta_time, now);
        Ok(())
    }

    /// The time of the last tick.
    pub fn last_update(&self) -> (time: Timestamp)
        ensures
            time == self.updated_at(),
    {
        self.last_update
    }

    /// Puts a player into the game, or replaces the state of one that is in it.
    pub fn add_player(&mut self, player_id: String, state: PlayerState)
        requires
            old(self).well_formed(),
        ensures
            final(self).well_formed(),
            final(self)@ == with_entry(old(self)@, player_id@, state),
            final(self).updated_at() == old(self).updated_at(),
    {
        self.players.insert(player_id, state);
    }

    /// Takes a player out of the game; nothing happens if it is not in it.
    pub fn remove_player(&mut self, player_id: &str)
        requires
            old(self).well_formed(),
        ensures
            final(self).well_formed(),
            final(self)@ == without_id(old(self)@, player_id@),
            final(self).updated_at() == old(self).updated_at(),
    {
        let id = player_id.to_owned();
        self.players.remove(&id);
    }

    /// The state of a player, if it is in the game.
    pub fn get_player_state(&self, player_id: &str) -> (state: Option<&PlayerState>)
        requires
            self.well_formed(),
        ensures
            state is Some <==> has_id(self@, player_id@),
            state matches Some(s) ==> lookup(self@, player_id@) == Some(*s),
    {
        let id = player_id.to_owned();
        self.players.get(&id)
    }

    /// The number of players in the game.
    pub fn get_player_count(&self) -> (count: usize)
        requires
            self.well_formed(),
        ensures
            count == self@.len(),
    {
        self.players.len()
    }

    /// Whether a player is in the game.
    pub fn has_player(&self, player_id: &String) -> (present: bool)
        requires
            self.well_formed(),
        ensures
            present == has_id(self@, player_id@),
    {
        self.players.position(player_id).is_some()
    }

    /// Makes `direction` the velocity of a player, as it is, and stamps the
    /// player `now`. Nothing happens if the player is not in the game.
    pub fn set_velocity(&mut self, player_id: &String, direction: Vector2, now: Timestamp)
        requires
            old(self).well_formed(),
        ensures
            final(self).well_formed(),
            final(self)@ == with_velocity(old(self)@, player_id@, direction, now),
            final(self).updated_at() == old(self).updated_at(),
    {
        match self.players.position(player_id) {
            Some(i) => {
                let position = self.players.value_at(i).position;
                self.players.set_value(
                    i,
                    PlayerState { position, velocity: direction, last_update: now },
                );
            },
            None => {},
        }
    }

    /// A copy of the players, for a snapshot of the world.
    pub fn players(&self) -> (copy: Roster<PlayerState>)
        requires
            self.well_formed(),
        ensures
            copy.well_formed(),
            copy@ == self@,
    {
        let mut copy: Roster<PlayerState> = Roster::new();
        let n = self.players.len();
        let mut i: usize = 0;
        while i < n
            invariant
                self.well_formed(),
                copy.well_formed(),
                self@.len() == n,
                i <= n,
                copy@ == self@.subrange(0, i as int),
            decreases n - i,
        {
            proof {
                self.players.lemma_distinct();
                let id = self@[i as int].0;
                if has_id(copy@, id) {
                    let k = index_of(copy@, id);
                    assert(copy@[k] == self@[k]);
                    assert(self@[k].0 != self@[i as int].0);
                }
            }
            copy.insert(self.players.id_at(i).clone(), *self.players.value_at(i));
            assert(copy@ =~= self@.subrange(0, i + 1));
            i += 1;
        }
        assert(self@.subrange(0, n as int) =~= self@);
        copy
    }
}

} // verus!
