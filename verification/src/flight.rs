//! A shot over several ticks: when it arrives and what it does there.
use vstd::prelude::*;
use crate::configs::{ENTITY_PLAYER_SIZE, ENTITY_PROJECTILE_RADIUS, ENTITY_PROJECTILE_SPEED};
use crate::geometry::{lemma_square_bounded, lemma_square_exceeds, lemma_square_nonneg};
use crate::math::clamp_spec;
use crate::network::{OutboundView, ProjectileData};
use crate::player::Client;
use crate::resolver::{
    advanced,
    blocked,
    first_hit,
    hit,
    impact,
    is_hit,
    pass,
    step,
    touches_player,
    Pass,
    Step,
};
use crate::search::{lemma_first_where_found, lemma_first_where_none};
use crate::server::ServerEvent;
use crate::tick::{tick_outcome, InboundView};
use crate::tile::GameMap;

verus! {

/// Where a projectile that nothing stops is after `k` ticks.
pub open spec fn at(p: ProjectileData, k: int) -> (int, int) {
    (p.position.0 + k * p.velocity.0, p.position.1 + k * p.velocity.1)
}

/// The projectile after `k` ticks in which it ran into nothing.
pub open spec fn flown(p: ProjectileData, k: nat) -> ProjectileData
    decreases k,
{
    if k == 0 {
        p
    } else {
        advanced(flown(p, (k - 1) as nat))
    }
}

/// `n` ticks in which nobody connects, leaves or sends anything, seen
/// from the one projectile `p`: the players afterwards, the projectile if
/// it still flies, and everything sent. The tick of index `k` uses the
/// spawn cell `spawns[k]`.
pub open spec fn ticks(
    map: &GameMap,
    players: Seq<Client>,
    p: ProjectileData,
    spawns: Seq<(i32, i32)>,
    n: nat,
) -> Step
    decreases n,
{
    if n == 0 {
        Step { players, kept: Some(p), out: Seq::empty() }
    } else {
        let before = ticks(map, players, p, spawns, (n - 1) as nat);
        match before.kept {
            Some(q) => {
                let s = step(map, before.players, q, spawns[n - 1]);
                Step { players: s.players, kept: s.kept, out: before.out + s.out }
            },
            None => before,
        }
    }
}

/// A tick without events and messages, with one projectile in flight, is
/// one step of that projectile.
pub proof fn lemma_quiet_tick_is_one_step(
    map: &GameMap,
    players: Seq<Client>,
    q: ProjectileData,
    spawn: (i32, i32),
)
    ensures
        ({
            let done = tick_outcome(
                map,
                players,
                seq![q],
                Seq::<ServerEvent>::empty(),
                Seq::<(i32, i32)>::empty(),
                Seq::<InboundView>::empty(),
                seq![spawn],
            );
            let s = step(map, players, q, spawn);
            &&& done.players == s.players
            &&& done.out == s.out
            &&& done.kept == match s.kept {
                Some(moved) => seq![moved],
                None => Seq::<ProjectileData>::empty(),
            }
        }),
{
    let done = tick_outcome(
        map,
        players,
        seq![q],
        Seq::<ServerEvent>::empty(),
        Seq::<(i32, i32)>::empty(),
        Seq::<InboundView>::empty(),
        seq![spawn],
    );
    let s = step(map, players, q, spawn);
    let start: Pass = pass(map, players, seq![q], seq![spawn], 0);
    let walked: Pass = pass(map, players, seq![q], seq![spawn], 1);
    assert(start.players == players);
    assert(walked.players == s.players);
    assert(walked.out =~= s.out);
    assert(done.out =~= s.out);
    assert(done.kept =~= match s.kept {
        Some(moved) => seq![moved],
        None => Seq::<ProjectileData>::empty(),
    });
}

/// A projectile that nothing stops moves by its velocity every tick and
/// keeps its id, its shooter and its damage.
pub proof fn lemma_flown(p: ProjectileData, k: nat)
    requires
        forall|j: int|
            0 <= j <= k ==> i64::MIN <= (#[trigger] at(p, j)).0 <= i64::MAX && i64::MIN <= at(
                p,
                j,
            ).1 <= i64::MAX,
    ensures
        flown(p, k).position.0 == at(p, k as int).0,
        flown(p, k).position.1 == at(p, k as int).1,
        flown(p, k).velocity == p.velocity,
        flown(p, k).id == p.id,
        flown(p, k).shooter == p.shooter,
        flown(p, k).damage == p.damage,
    decreases k,
{
    let vx = p.velocity.0 as int;
    let vy = p.velocity.1 as int;
    if k == 0 {
        assert(0 * vx == 0 && 0 * vy == 0);
    } else {
        lemma_flown(p, (k - 1) as nat);
        assert(at(p, k as int).0 == at(p, k - 1).0 + vx) by (nonlinear_arith)
            requires
                at(p, k as int).0 == p.position.0 + k * vx,
                at(p, k - 1).0 == p.position.0 + (k - 1) * vx,
        ;
        assert(at(p, k as int).1 == at(p, k - 1).1 + vy) by (nonlinear_arith)
            requires
                at(p, k as int).1 == p.position.1 + k * vy,
                at(p, k - 1).1 == p.position.1 + (k - 1) * vy,
        ;
        assert(i64::MIN <= at(p, k as int).0 <= i64::MAX);
    }
}

/// Nothing is in the way of `p` during its ticks `from` to `to`: the
/// environment does not stop it and it touches no player.
pub open spec fn path_is_free(
    map: &GameMap,
    players: Seq<Client>,
    p: ProjectileData,
    from: int,
    to: int,
) -> bool {
    forall|k: int|
        from <= k <= to ==> !blocked(map, (#[trigger] at(p, k)).0, at(p, k).1) && forall|j: int|
            0 <= j < players.len() ==> !touches_player(#[trigger] players[j], at(p, k).0, at(p, k).1)
}

/// While nothing is in its way the projectile flies on, nobody is
/// changed and nothing is sent.
pub proof fn lemma_flight_goes_on(
    map: &GameMap,
    players: Seq<Client>,
    p: ProjectileData,
    spawns: Seq<(i32, i32)>,
    m: nat,
)
    requires
        path_is_free(map, players, p, 1, m as int),
    ensures
        ticks(map, players, p, spawns, m).players == players,
        ticks(map, players, p, spawns, m).kept == Some(flown(p, m)),
        ticks(map, players, p, spawns, m).out == Seq::<OutboundView>::empty(),
        flown(p, m).position.0 == at(p, m as int).0,
        flown(p, m).position.1 == at(p, m as int).1,
        flown(p, m).id == p.id,
        flown(p, m).shooter == p.shooter,
        flown(p, m).damage == p.damage,
    decreases m,
{
    lemma_path_fits(map, players, p, m);
    lemma_flown(p, m);
    if m > 0 {
        lemma_flight_goes_on(map, players, p, spawns, (m - 1) as nat);
        let q = flown(p, (m - 1) as nat);
        lemma_flown(p, (m - 1) as nat);
        let x = at(p, m as int).0;
        let y = at(p, m as int).1;
        assert(advanced(q) == flown(p, m));
        assert(!blocked(map, x, y));
        assert forall|j: int| 0 <= j < players.len() implies !#[trigger] is_hit(players, x, y)(
            j,
        ) by {
            assert(!touches_player(players[j], x, y));
        }
        lemma_first_where_none(players.len() as int, is_hit(players, x, y));
        assert(first_hit(players, x, y) is None);
        let before = ticks(map, players, p, spawns, (m - 1) as nat);
        let s = step(map, players, q, spawns[m - 1]);
        assert(s.kept == Some(flown(p, m)));
        assert(before.out + s.out =~= Seq::<OutboundView>::empty());
    }
}

/// A position that the environment lets pass lies in the world, so no
/// coordinate on a free path leaves the range of the coordinate type.
proof fn lemma_path_fits(map: &GameMap, players: Seq<Client>, p: ProjectileData, m: nat)
    requires
        path_is_free(map, players, p, 1, m as int),
    ensures
        forall|j: int|
            0 <= j <= m ==> i64::MIN <= (#[trigger] at(p, j)).0 <= i64::MAX && i64::MIN <= at(
                p,
                j,
            ).1 <= i64::MAX,
{
    reveal(blocked);
    assert forall|j: int| 0 <= j <= m implies i64::MIN <= (#[trigger] at(p, j)).0 <= i64::MAX
        && i64::MIN <= at(p, j).1 <= i64::MAX by {
        if j == 0 {
            assert(0 * (p.velocity.0 as int) == 0 && 0 * (p.velocity.1 as int) == 0);
        } else {
            assert(!blocked(map, at(p, j).0, at(p, j).1));
        }
    }
}

/// A shot whose way is free for `n - 1` ticks and that in its tick `n`
/// is let pass by the environment and touches the player at index `i`
/// before any other lands in that tick: the projectile is gone, the
/// players are those after one hit on that player, and all that was sent
/// in the `n` ticks is what that hit sends, first of all the notice to
/// everyone that names the victim.
pub proof fn lemma_flight_ends_in_hit(
    map: &GameMap,
    players: Seq<Client>,
    p: ProjectileData,
    spawns: Seq<(i32, i32)>,
    n: nat,
    i: int,
)
    requires
        n >= 1,
        0 <= i < players.len(),
        path_is_free(map, players, p, 1, n - 1),
        !blocked(map, at(p, n as int).0, at(p, n as int).1),
        touches_player(players[i], at(p, n as int).0, at(p, n as int).1),
        forall|j: int|
            0 <= j < i ==> !touches_player(#[trigger] players[j], at(p, n as int).0, at(p, n as int).1),
    ensures
        ticks(map, players, p, spawns, n).kept is None,
        ticks(map, players, p, spawns, n).players == hit(players, i, p, spawns[n - 1]).players,
        ticks(map, players, p, spawns, n).out == hit(players, i, p, spawns[n - 1]).out,
        ticks(map, players, p, spawns, n).out[0] == impact(p, Some(players[i].id)),
        forall|m: nat| m > n ==> ticks(map, players, p, spawns, m) == ticks(map, players, p, spawns, n),
{
    let x = at(p, n as int).0;
    let y = at(p, n as int).1;
    lemma_flight_goes_on(map, players, p, spawns, (n - 1) as nat);
    let q = flown(p, (n - 1) as nat);
    assert(i64::MIN <= x <= i64::MAX && i64::MIN <= y <= i64::MAX) by {
        reveal(blocked);
    }
    assert(x == q.position.0 + q.velocity.0 && y == q.position.1 + q.velocity.1) by {
        lemma_path_fits(map, players, p, (n - 1) as nat);
        lemma_flown(p, (n - 1) as nat);
        let vx = p.velocity.0 as int;
        let vy = p.velocity.1 as int;
        assert(n * vx == (n - 1) * vx + vx) by (nonlinear_arith);
        assert(n * vy == (n - 1) * vy + vy) by (nonlinear_arith);
    }
    assert(is_hit(players, x, y)(i));
    assert forall|j: int| 0 <= j < i implies !#[trigger] is_hit(players, x, y)(j) by {
        assert(!touches_player(players[j], x, y));
    }
    lemma_first_where_found(players.len() as int, is_hit(players, x, y), i);
    let before = ticks(map, players, p, spawns, (n - 1) as nat);
    let s = step(map, players, q, spawns[n - 1]);
    assert(s.players == hit(players, i, q, spawns[n - 1]).players);
    assert(hit(players, i, q, spawns[n - 1]).players == hit(players, i, p, spawns[n - 1]).players);
    assert(hit(players, i, q, spawns[n - 1]).out =~= hit(players, i, p, spawns[n - 1]).out);
    assert(before.out + s.out =~= hit(players, i, p, spawns[n - 1]).out);
    assert forall|m: nat| m > n implies ticks(map, players, p, spawns, m) == ticks(
        map,
        players,
        p,
        spawns,
        n,
    ) by {
        lemma_gone_stays_gone(map, players, p, spawns, n, m);
    }
}

/// Once the projectile is gone, further ticks change nothing.
pub proof fn lemma_gone_stays_gone(
    map: &GameMap,
    players: Seq<Client>,
    p: ProjectileData,
    spawns: Seq<(i32, i32)>,
    n: nat,
    m: nat,
)
    requires
        ticks(map, players, p, spawns, n).kept is None,
        m >= n,
    ensures
        ticks(map, players, p, spawns, m) == ticks(map, players, p, spawns, n),
    decreases m,
{
    if m > n {
        lemma_gone_stays_gone(map, players, p, spawns, n, (m - 1) as nat);
    }
}

/// The coordinate of a point along the axis of a shot: `x` if the shot
/// goes along the x axis, else `y`.
pub open spec fn along(c: (int, int), x_axis: bool) -> int {
    if x_axis {
        c.0
    } else {
        c.1
    }
}

/// The coordinate of a point across the axis of a shot.
pub open spec fn across(c: (int, int), x_axis: bool) -> int {
    if x_axis {
        c.1
    } else {
        c.0
    }
}

/// The low corner of a player's footprint.
pub open spec fn corner(c: Client) -> (int, int) {
    (c.data.position.0 as int, c.data.position.1 as int)
}

/// The displacement of a projectile in one tick.
pub open spec fn velocity(p: ProjectileData) -> (int, int) {
    (p.velocity.0 as int, p.velocity.1 as int)
}

/// How far, along the axis, the projectile has to go before it touches
/// the footprint of the player it heads for.
pub open spec fn distance(c: Client, p: ProjectileData, x_axis: bool) -> int {
    let start = along(at(p, 0), x_axis);
    let low = along(corner(c), x_axis);
    if along(velocity(p), x_axis) > 0 {
        low - ENTITY_PROJECTILE_RADIUS - start
    } else {
        start - (low + ENTITY_PLAYER_SIZE + ENTITY_PROJECTILE_RADIUS)
    }
}

/// How far the projectile goes along the axis in one tick.
pub open spec fn speed(p: ProjectileData, x_axis: bool) -> int {
    let v = along(velocity(p), x_axis);
    if v > 0 {
        v
    } else {
        -v
    }
}

/// The number of ticks to cover a distance at a speed: the quotient, rounded up.
pub open spec fn ticks_needed(distance: int, speed: int) -> int {
    (distance + speed - 1) / speed
}

/// The projectile `p` heads for the player `c` along an axis: it is not
/// yet in touch, it moves towards the footprint no faster than a
/// projectile may, and for the `n` ticks that the distance takes it
/// stays between the two sides of the footprint that run along the axis.
pub open spec fn heads_for(c: Client, p: ProjectileData, x_axis: bool, n: int) -> bool {
    &&& speed(p, x_axis) > 0
    &&& speed(p, x_axis) <= ENTITY_PROJECTILE_SPEED
    &&& distance(c, p, x_axis) > 0
    &&& n == ticks_needed(distance(c, p, x_axis), speed(p, x_axis))
    &&& forall|k: int|
        1 <= k <= n ==> across(corner(c), x_axis) <= across(#[trigger] at(p, k), x_axis) <= across(
            corner(c),
            x_axis,
        ) + ENTITY_PLAYER_SIZE
}

/// No wall and no edge of the map is in the way during the first `n` ticks.
pub open spec fn no_wall_on_the_way(map: &GameMap, p: ProjectileData, n: int) -> bool {
    forall|k: int| 1 <= k <= n ==> !blocked(map, (#[trigger] at(p, k)).0, at(p, k).1)
}

/// No player but the one at index `i` is touched during the first `n` ticks.
pub open spec fn nobody_else_on_the_way(
    players: Seq<Client>,
    i: int,
    p: ProjectileData,
    n: int,
) -> bool {
    forall|k: int, j: int|
        1 <= k <= n && 0 <= j < players.len() && j != i ==> !touches_player(
            #[trigger] players[j],
            (#[trigger] at(p, k)).0,
            at(p, k).1,
        )
}

/// Whether a projectile touches a footprint, read off its coordinate
/// along an axis: short of the footprint by more than the radius it does
/// not; within the radius of it, and between its other two sides, it does.
pub proof fn lemma_touch_by_axis(c: Client, x: int, y: int, x_axis: bool)
    ensures
        along((x, y), x_axis) < along(corner(c), x_axis) - ENTITY_PROJECTILE_RADIUS
            ==> !touches_player(c, x, y),
        along((x, y), x_axis) > along(corner(c), x_axis) + ENTITY_PLAYER_SIZE
            + ENTITY_PROJECTILE_RADIUS ==> !touches_player(c, x, y),
        along(corner(c), x_axis) - ENTITY_PROJECTILE_RADIUS <= along((x, y), x_axis) <= along(
            corner(c),
            x_axis,
        ) + ENTITY_PLAYER_SIZE + ENTITY_PROJECTILE_RADIUS && across(corner(c), x_axis) <= across(
            (x, y),
            x_axis,
        ) <= across(corner(c), x_axis) + ENTITY_PLAYER_SIZE ==> touches_player(c, x, y),
{
    let r = ENTITY_PROJECTILE_RADIUS as int;
    let bx = corner(c).0;
    let by = corner(c).1;
    let dx = x - clamp_spec(x, bx, bx + ENTITY_PLAYER_SIZE);
    let dy = y - clamp_spec(y, by, by + ENTITY_PLAYER_SIZE);
    lemma_square_nonneg(dx);
    lemma_square_nonneg(dy);
    if dx > r || dx < -r {
        lemma_square_exceeds(dx, r);
    } else {
        lemma_square_bounded(dx, r);
    }
    if dy > r || dy < -r {
        lemma_square_exceeds(dy, r);
    } else {
        lemma_square_bounded(dy, r);
    }
    assert(0 * 0 == 0);
}

/// A shot that heads for a player touches the footprint in the tick
/// that the distance takes at its speed, and in no tick before: at most
/// the speed of a projectile a tick, it cannot pass over a footprint.
pub proof fn lemma_shot_arrives(c: Client, p: ProjectileData, x_axis: bool, n: int)
    requires
        heads_for(c, p, x_axis, n),
    ensures
        n >= 1,
        forall|k: int| 1 <= k < n ==> !touches_player(c, (#[trigger] at(p, k)).0, at(p, k).1),
        touches_player(c, at(p, n).0, at(p, n).1),
{
    let d = distance(c, p, x_axis);
    let s = speed(p, x_axis);
    let v = along(velocity(p), x_axis);
    let start = along(at(p, 0), x_axis);
    assert(start == along((p.position.0 as int, p.position.1 as int), x_axis)) by {
        assert(0 * (p.velocity.0 as int) == 0 && 0 * (p.velocity.1 as int) == 0);
    }
    assert(n * s >= d && (n - 1) * s < d && n >= 1) by (nonlinear_arith)
        requires
            n == (d + s - 1) / s,
            s > 0,
            d > 0,
    ;
    assert forall|k: int| 1 <= k < n implies !touches_player(
        c,
        (#[trigger] at(p, k)).0,
        at(p, k).1,
    ) by {
        assert(k * s <= (n - 1) * s) by (nonlinear_arith)
            requires
                1 <= k <= n - 1,
                s > 0,
        ;
        assert(along(at(p, k), x_axis) == start + k * v);
        assert(k * v == k * s || k * v == -(k * s)) by (nonlinear_arith)
            requires
                v == s || v == -s,
        ;
        lemma_touch_by_axis(c, at(p, k).0, at(p, k).1, x_axis);
    }
    assert(along(at(p, n), x_axis) == start + n * v);
    assert((v > 0 ==> n * v == n * s) && (v <= 0 ==> n * v == -(n * s))) by (nonlinear_arith)
        requires
            (v > 0 ==> v == s) && (v <= 0 ==> v == -s),
    ;
    assert(n * s == (n - 1) * s + s) by (nonlinear_arith);
    assert(1 <= n <= n);
    assert(across(corner(c), x_axis) <= across(at(p, n), x_axis) <= across(corner(c), x_axis)
        + ENTITY_PLAYER_SIZE);
    lemma_touch_by_axis(c, at(p, n).0, at(p, n).1, x_axis);
}

/// The shot that reaches its target. A projectile heads for the player
/// at index `i` along an axis, no wall is on the way and it touches
/// nobody else. Then after as many ticks as the distance takes at its
/// speed, rounded up, and not before, the projectile is gone, exactly
/// one hit has landed, on that player, and everyone has been sent the
/// notice that names the victim and the damage. A victim with more
/// health than the damage has lost exactly the damage and blames the
/// shooter, and nothing else was sent.
pub proof fn lemma_shot_hits_after_distance_over_speed(
    map: &GameMap,
    players: Seq<Client>,
    p: ProjectileData,
    spawns: Seq<(i32, i32)>,
    i: int,
    x_axis: bool,
    n: int,
)
    requires
        0 <= i < players.len(),
        players[i].wf(),
        heads_for(players[i], p, x_axis, n),
        no_wall_on_the_way(map, p, n),
        nobody_else_on_the_way(players, i, p, n),
    ensures
        n == ticks_needed(distance(players[i], p, x_axis), speed(p, x_axis)),
        n >= 1,
        forall|m: nat|
            m < n ==> (#[trigger] ticks(map, players, p, spawns, m)).kept is Some && ticks(
                map,
                players,
                p,
                spawns,
                m,
            ).players == players,
        forall|m: nat|
            m >= n ==> (#[trigger] ticks(map, players, p, spawns, m)) == ticks(
                map,
                players,
                p,
                spawns,
                n as nat,
            ),
        ticks(map, players, p, spawns, n as nat).kept is None,
        ticks(map, players, p, spawns, n as nat).players == hit(
            players,
            i,
            p,
            spawns[n - 1],
        ).players,
        ticks(map, players, p, spawns, n as nat).out == hit(players, i, p, spawns[n - 1]).out,
        ticks(map, players, p, spawns, n as nat).out[0] == impact(p, Some(players[i].id)),
        players[i].data.health > p.damage ==> {
            let after = ticks(map, players, p, spawns, n as nat);
            &&& after.players == players.update(i, players[i].damaged(p.shooter, p.damage))
            &&& after.players[i].data.health == players[i].data.health - p.damage
            &&& after.players[i].data._last == Some(p.shooter)
            &&& after.out == seq![impact(p, Some(players[i].id))]
        },
{
    lemma_shot_arrives(players[i], p, x_axis, n);
    assert forall|k: int| 1 <= k <= n - 1 implies !blocked(
        map,
        (#[trigger] at(p, k)).0,
        at(p, k).1,
    ) && forall|j: int|
        0 <= j < players.len() ==> !touches_player(#[trigger] players[j], at(p, k).0, at(p, k).1) by {
        assert forall|j: int| 0 <= j < players.len() implies !touches_player(
            #[trigger] players[j],
            at(p, k).0,
            at(p, k).1,
        ) by {
            if j != i {
                assert(1 <= k <= n && 0 <= j < players.len() && j != i);
            }
        }
    }
    assert(path_is_free(map, players, p, 1, n - 1));
    assert forall|j: int| 0 <= j < i implies !touches_player(
        #[trigger] players[j],
        at(p, n).0,
        at(p, n).1,
    ) by {
        assert(1 <= n <= n && 0 <= j < players.len() && j != i);
    }
    lemma_flight_ends_in_hit(map, players, p, spawns, n as nat, i);
    assert forall|m: nat| m < n implies (#[trigger] ticks(map, players, p, spawns, m)).kept is Some
        && ticks(map, players, p, spawns, m).players == players by {
        assert(path_is_free(map, players, p, 1, m as int));
        lemma_flight_goes_on(map, players, p, spawns, m);
    }
    assert forall|m: nat| m >= n implies (#[trigger] ticks(map, players, p, spawns, m)) == ticks(
        map,
        players,
        p,
        spawns,
        n as nat,
    ) by {
        lemma_gone_stays_gone(map, players, p, spawns, n as nat, m);
    }
    crate::player::lemma_damage_is_exact(players[i], p.shooter, p.damage);
}

} // verus!
