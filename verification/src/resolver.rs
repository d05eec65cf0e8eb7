//! The collision and damage pass that ends every tick.
use vstd::prelude::*;
use crate::configs::{ENTITY_PLAYER_SIZE, ENTITY_PROJECTILE_RADIUS, WORLD_TILE_SIZE};
use crate::geometry::{
    cell_index,
    cell_of,
    check_collision_circle_rec,
    circle_meets_rect,
    in_world,
    is_in_world,
    lemma_touch_is_near,
    touches_tile,
};
use crate::network::{
    enqueue,
    enqueue_all,
    outbound,
    views,
    Channel,
    GameNetworkPacket,
    Outbound,
    OutboundView,
    PacketView,
    ProjectileData,
    Recipient,
};
use crate::player::{lemma_rules_keep_ranges, Client};
use crate::search::{
    first_where,
    lemma_first_where,
    lemma_first_where_found,
    lemma_first_where_none,
};
use crate::server::{
    find_player,
    has_id,
    lemma_update_keeps_ok,
    players_ok,
    projectile_ok,
    projectiles_ok,
    ServerState,
};
use crate::tile::{grid_fits, GameMap, TileVariant};
use crate::utils::{point_offsets, point_offsets_spec};
use crate::weapon::WeaponVariant;

verus! {

/// Every cell of the list is a ground cell of the map.
pub open spec fn all_ground(map: &GameMap, cells: Seq<(i32, i32)>) -> bool {
    forall|k: int|
        0 <= k < cells.len() ==> map.tile_at_spec((#[trigger] cells[k]).0 as int, cells[k].1 as int)
            == Some(TileVariant::GROUND)
}

/// A tile that stops projectiles.
pub open spec fn is_wall(t: Option<TileVariant>) -> bool {
    t == Some(TileVariant::WALL_SIDE) || t == Some(TileVariant::WALL_TOP)
}

/// A projectile at `(x, y)` is stopped by the environment: it has left
/// the world or the map, or it touches the tile of a wall.
#[verifier::opaque]
pub open spec fn blocked(map: &GameMap, x: int, y: int) -> bool {
    ||| !in_world(x)
    ||| !in_world(y)
    ||| map.tile_at_spec(cell_index(x), cell_index(y)) is None
    ||| exists|cx: int, cy: int|
        is_wall(#[trigger] map.tile_at_spec(cx, cy)) && touches_tile(x, y, cx, cy)
}

/// A projectile at `(x, y)` touches the footprint of a player.
pub open spec fn touches_player(c: Client, x: int, y: int) -> bool {
    circle_meets_rect(
        x,
        y,
        ENTITY_PROJECTILE_RADIUS as int,
        c.data.position.0 as int,
        c.data.position.1 as int,
        ENTITY_PLAYER_SIZE as int,
        ENTITY_PLAYER_SIZE as int,
    )
}

/// The player at index `i` is touched by a projectile at `(x, y)`.
pub open spec fn is_hit(players: Seq<Client>, x: int, y: int) -> spec_fn(int) -> bool {
    |i: int| touches_player(players[i], x, y)
}

/// The first player, in the order of the registry, that a projectile at
/// `(x, y)` touches.
pub open spec fn first_hit(players: Seq<Client>, x: int, y: int) -> Option<int> {
    first_where(players.len() as int, is_hit(players, x, y))
}

/// The projectile one tick later: moved by its velocity, in the cell
/// nearest to where it is then.
pub open spec fn advanced(p: ProjectileData) -> ProjectileData {
    ProjectileData {
        position: ((p.position.0 + p.velocity.0) as i64, (p.position.1 + p.velocity.1) as i64),
        grid: (
            cell_index(p.position.0 + p.velocity.0) as i32,
            cell_index(p.position.1 + p.velocity.1) as i32,
        ),
        ..p
    }
}

/// The notice that a projectile is gone, with the player it hit, if any.
pub open spec fn impact(p: ProjectileData, victim: Option<u64>) -> OutboundView {
    outbound(
        Recipient::All,
        Channel::ReliableUnordered,
        PacketView::NET_PROJECTILE_IMPACT(p.id, victim, p.damage),
    )
}

/// What one projectile does in a pass: the players afterwards, the
/// projectile if it flies on, and what is to be sent.
pub struct Step {
    pub players: Seq<Client>,
    pub kept: Option<ProjectileData>,
    pub out: Seq<OutboundView>,
}

/// The projectile `p` hits the player at index `i`. The victim takes the
/// damage and blames the shooter, and everyone is told. A victim left
/// without health pays the penalty and comes back at `spawn`, which
/// everyone is told in order; the shooter, if still connected, is
/// credited the reward and told so alone.
pub open spec fn hit(players: Seq<Client>, i: int, p: ProjectileData, spawn: (i32, i32)) -> Step {
    let victim = players[i].damaged(p.shooter, p.damage);
    let notice = impact(p, Some(victim.id));
    if victim.data.health > 0 {
        Step { players: players.update(i, victim), kept: None, out: seq![notice] }
    } else {
        let back = victim.respawned(spawn);
        let after = players.update(i, back);
        let news = outbound(
            Recipient::All,
            Channel::ReliableOrdered,
            PacketView::NET_PLAYER_RESPAWN(back.id, back.data),
        );
        match find_player(after, p.shooter) {
            Some(k) => Step {
                players: after.update(k, after[k].rewarded()),
                kept: None,
                out: seq![
                    notice,
                    news,
                    outbound(
                        Recipient::To(p.shooter),
                        Channel::ReliableOrdered,
                        PacketView::NET_PLAYER_KILL_REWARD(after[k].rewarded().data),
                    ),
                ],
            },
            None => Step { players: after, kept: None, out: seq![notice, news] },
        }
    }
}

/// One projectile in one pass. It moves by its velocity. Stopped by the
/// environment, it is gone and everyone is told, with no victim. Else
/// the first player it touches is hit. Else it flies on.
pub open spec fn step(map: &GameMap, players: Seq<Client>, p: ProjectileData, spawn: (i32, i32)) -> Step {
    let q = advanced(p);
    if blocked(map, q.position.0 as int, q.position.1 as int) {
        Step { players, kept: None, out: seq![impact(p, None)] }
    } else {
        match first_hit(players, q.position.0 as int, q.position.1 as int) {
            Some(i) => hit(players, i, p, spawn),
            None => Step { players, kept: Some(q), out: Seq::empty() },
        }
    }
}

/// What a projectile runs into after its move.
#[derive(Debug, Clone, Copy, PartialEq, Eq)]
pub enum Contact {
    /// It left the map or touched a wall.
    Environment,
    /// It touched the player at this index of the registry first.
    Player(usize),
    /// It flies on.
    Nothing,
}

/// `found` is what the projectile `p` runs into when it moves by one tick.
pub open spec fn is_contact(map: &GameMap, players: Seq<Client>, p: ProjectileData, found: Contact) -> bool {
    let q = advanced(p);
    let stopped = blocked(map, q.position.0 as int, q.position.1 as int);
    let first = first_hit(players, q.position.0 as int, q.position.1 as int);
    match found {
        Contact::Environment => stopped,
        Contact::Player(i) => !stopped && first == Some(i as int) && i < players.len(),
        Contact::Nothing => !stopped && first is None,
    }
}

/// The projectile `p` would leave the player at index `i` without health.
pub open spec fn lethal(players: Seq<Client>, i: int, p: ProjectileData) -> bool {
    players[i].damaged(p.shooter, p.damage).data.health <= 0
}

/// Only a projectile that kills makes use of the spawn cell.
pub open spec fn needs_spawn(map: &GameMap, players: Seq<Client>, p: ProjectileData) -> bool {
    let q = advanced(p);
    &&& !blocked(map, q.position.0 as int, q.position.1 as int)
    &&& first_hit(players, q.position.0 as int, q.position.1 as int) matches Some(i) && lethal(
        players,
        i,
        p,
    )
}

/// What a pass has done after its first `k` projectiles.
pub struct Pass {
    pub players: Seq<Client>,
    pub kept: Seq<ProjectileData>,
    pub out: Seq<OutboundView>,
}

/// The pass over the first `k` projectiles, oldest first, each with the
/// spawn cell drawn for it. A projectile that is gone leaves the list
/// only here, in what is kept: the list walked is the one the pass began with.
pub open spec fn pass(
    map: &GameMap,
    players: Seq<Client>,
    projectiles: Seq<ProjectileData>,
    spawns: Seq<(i32, i32)>,
    k: nat,
) -> Pass
    decreases k,
{
    if k == 0 {
        Pass { players, kept: Seq::empty(), out: Seq::empty() }
    } else {
        let before = pass(map, players, projectiles, spawns, (k - 1) as nat);
        let s = step(map, before.players, projectiles[k - 1], spawns[k - 1]);
        Pass {
            players: s.players,
            kept: match s.kept {
                Some(q) => before.kept.push(q),
                None => before.kept,
            },
            out: before.out + s.out,
        }
    }
}

/// The pass over the first `k` projectiles looks at the first `k` spawn cells only.
pub proof fn lemma_pass_prefix(
    map: &GameMap,
    players: Seq<Client>,
    projectiles: Seq<ProjectileData>,
    a: Seq<(i32, i32)>,
    b: Seq<(i32, i32)>,
    k: nat,
)
    requires
        forall|j: int| 0 <= j < k ==> a[j] == b[j],
    ensures
        pass(map, players, projectiles, a, k) == pass(map, players, projectiles, b, k),
    decreases k,
{
    if k > 0 {
        lemma_pass_prefix(map, players, projectiles, a, b, (k - 1) as nat);
        assert(a[k - 1] == b[k - 1]);
    }
}

/// A hit leaves the registry sound: the same players under the same ids,
/// each with health and cash within their ranges.
pub proof fn lemma_hit_keeps_players_ok(
    players: Seq<Client>,
    i: int,
    p: ProjectileData,
    spawn: (i32, i32),
)
    requires
        players_ok(players),
        0 <= i < players.len(),
    ensures
        players_ok(hit(players, i, p, spawn).players),
        hit(players, i, p, spawn).players.len() == players.len(),
        forall|k: int|
            0 <= k < players.len() ==> (#[trigger] hit(players, i, p, spawn).players[k]).id
                == players[k].id,
{
    let victim = players[i].damaged(p.shooter, p.damage);
    lemma_rules_keep_ranges(players[i], p.shooter, p.damage, spawn, WeaponVariant::DEAN_1911);
    lemma_update_keeps_ok(players, i, victim);
    if victim.data.health <= 0 {
        let back = victim.respawned(spawn);
        lemma_rules_keep_ranges(victim, p.shooter, p.damage, spawn, WeaponVariant::DEAN_1911);
        lemma_update_keeps_ok(players, i, back);
        let after = players.update(i, back);
        lemma_first_where(after.len() as int, has_id(after, p.shooter));
        match find_player(after, p.shooter) {
            Some(k) => {
                lemma_rules_keep_ranges(
                    after[k],
                    p.shooter,
                    p.damage,
                    spawn,
                    WeaponVariant::DEAN_1911,
                );
                lemma_update_keeps_ok(after, k, after[k].rewarded());
            },
            None => {},
        }
    }
}

/// One projectile leaves the registry sound, whatever it runs into.
pub proof fn lemma_step_keeps_players_ok(
    map: &GameMap,
    players: Seq<Client>,
    p: ProjectileData,
    spawn: (i32, i32),
)
    requires
        players_ok(players),
    ensures
        players_ok(step(map, players, p, spawn).players),
        step(map, players, p, spawn).players.len() == players.len(),
        forall|k: int|
            0 <= k < players.len() ==> (#[trigger] step(map, players, p, spawn).players[k]).id
                == players[k].id,
{
    let q = advanced(p);
    let x = q.position.0 as int;
    let y = q.position.1 as int;
    lemma_first_where(players.len() as int, is_hit(players, x, y));
    if !blocked(map, x, y) {
        match first_hit(players, x, y) {
            Some(i) => {
                lemma_hit_keeps_players_ok(players, i, p, spawn);
            },
            None => {},
        }
    }
}

/// A whole pass leaves the registry sound: after any number of hits,
/// kills and rewards every player's health and cash are within their ranges.
pub proof fn lemma_pass_keeps_players_ok(
    map: &GameMap,
    players: Seq<Client>,
    projectiles: Seq<ProjectileData>,
    spawns: Seq<(i32, i32)>,
    n: nat,
)
    requires
        players_ok(players),
    ensures
        players_ok(pass(map, players, projectiles, spawns, n).players),
        pass(map, players, projectiles, spawns, n).players.len() == players.len(),
    decreases n,
{
    if n > 0 {
        lemma_pass_keeps_players_ok(map, players, projectiles, spawns, (n - 1) as nat);
        lemma_step_keeps_players_ok(
            map,
            pass(map, players, projectiles, spawns, (n - 1) as nat).players,
            projectiles[n - 1],
            spawns[n - 1],
        );
    }
}

/// Every projectile that a pass keeps is one of those it walked, moved by
/// one tick, and it ran into nothing.
pub proof fn lemma_kept_flew_on(
    map: &GameMap,
    players: Seq<Client>,
    projectiles: Seq<ProjectileData>,
    spawns: Seq<(i32, i32)>,
    n: nat,
    a: int,
)
    requires
        0 <= a < pass(map, players, projectiles, spawns, n).kept.len(),
    ensures
        exists|j: int|
            0 <= j < n && (#[trigger] step(
                map,
                pass(map, players, projectiles, spawns, j as nat).players,
                projectiles[j],
                spawns[j],
            )).kept == Some(pass(map, players, projectiles, spawns, n).kept[a]) && pass(
                map,
                players,
                projectiles,
                spawns,
                n,
            ).kept[a] == advanced(projectiles[j]),
    decreases n,
{
    if n > 0 {
        let before = pass(map, players, projectiles, spawns, (n - 1) as nat);
        let s = step(map, before.players, projectiles[n - 1], spawns[n - 1]);
        if a < before.kept.len() {
            lemma_kept_flew_on(map, players, projectiles, spawns, (n - 1) as nat, a);
            let j = choose|j: int|
                0 <= j < n - 1 && (#[trigger] step(
                    map,
                    pass(map, players, projectiles, spawns, j as nat).players,
                    projectiles[j],
                    spawns[j],
                )).kept == Some(before.kept[a]) && before.kept[a] == advanced(projectiles[j]);
            assert(0 <= j < n);
        } else {
            assert(s.kept == Some(pass(map, players, projectiles, spawns, n).kept[a]));
            assert(0 <= n - 1 < n);
        }
    }
}

/// A projectile that runs into anything in a pass is not among those the
/// pass keeps: it cannot strike a second time.
pub proof fn lemma_gone_is_not_kept(
    map: &GameMap,
    players: Seq<Client>,
    projectiles: Seq<ProjectileData>,
    spawns: Seq<(i32, i32)>,
    k: int,
)
    requires
        projectiles_ok(projectiles),
        0 <= k < projectiles.len(),
        step(
            map,
            pass(map, players, projectiles, spawns, k as nat).players,
            projectiles[k],
            spawns[k],
        ).kept is None,
    ensures
        forall|a: int|
            0 <= a < pass(map, players, projectiles, spawns, projectiles.len()).kept.len() ==> (
            #[trigger] pass(map, players, projectiles, spawns, projectiles.len()).kept[a]).id
                != projectiles[k].id,
{
    let done = pass(map, players, projectiles, spawns, projectiles.len());
    assert forall|a: int| 0 <= a < done.kept.len() implies (#[trigger] done.kept[a]).id
        != projectiles[k].id by {
        lemma_kept_flew_on(map, players, projectiles, spawns, projectiles.len(), a);
        let j = choose|j: int|
            0 <= j < projectiles.len() && (#[trigger] step(
                map,
                pass(map, players, projectiles, spawns, j as nat).players,
                projectiles[j],
                spawns[j],
            )).kept == Some(done.kept[a]) && done.kept[a] == advanced(projectiles[j]);
        if j < k {
            assert(projectiles[j].id != projectiles[k].id);
        } else if k < j {
            assert(projectiles[k].id != projectiles[j].id);
        }
    }
}

/// A projectile that does not kill does the same whatever the spawn cell.
pub proof fn lemma_spawn_unused(
    map: &GameMap,
    players: Seq<Client>,
    p: ProjectileData,
    a: (i32, i32),
    b: (i32, i32),
)
    requires
        !needs_spawn(map, players, p),
    ensures
        step(map, players, p, a) == step(map, players, p, b),
{
}

/// A projectile that touches a wall after its move is gone in that very
/// pass, with a notice that names no victim, and no player is changed.
pub proof fn lemma_wall_stops_projectile(
    map: &GameMap,
    players: Seq<Client>,
    p: ProjectileData,
    spawn: (i32, i32),
    cx: int,
    cy: int,
)
    requires
        is_wall(map.tile_at_spec(cx, cy)),
        touches_tile(advanced(p).position.0 as int, advanced(p).position.1 as int, cx, cy),
    ensures
        step(map, players, p, spawn).kept is None,
        step(map, players, p, spawn).players == players,
        step(map, players, p, spawn).out == seq![impact(p, None)],
{
    reveal(blocked);
}

/// A projectile that the environment lets pass and that touches a player
/// is gone in that pass. Exactly one player is hit: the first it touches.
/// The victim's health drops by the projectile's damage, to zero at most;
/// a victim with health left keeps everything else, and nobody else's
/// health changes.
pub proof fn lemma_projectile_hits_once(
    map: &GameMap,
    players: Seq<Client>,
    p: ProjectileData,
    spawn: (i32, i32),
    i: int,
)
    requires
        players_ok(players),
        !blocked(map, advanced(p).position.0 as int, advanced(p).position.1 as int),
        first_hit(players, advanced(p).position.0 as int, advanced(p).position.1 as int) == Some(
            i,
        ),
    ensures
        0 <= i < players.len(),
        step(map, players, p, spawn).kept is None,
        step(map, players, p, spawn).players.len() == players.len(),
        step(map, players, p, spawn).out[0] == impact(p, Some(players[i].id)),
        Client::health_after(players[i].data.health, p.damage) == if players[i].data.health
            > p.damage {
            players[i].data.health - p.damage
        } else {
            0
        },
        players[i].data.health > p.damage ==> step(map, players, p, spawn).players[i]
            == players[i].damaged(p.shooter, p.damage) && step(map, players, p, spawn).out.len()
            == 1,
        forall|j: int|
            0 <= j < players.len() && j != i ==> (#[trigger] step(
                map,
                players,
                p,
                spawn,
            ).players[j]).data.health == players[j].data.health,
{
    let x = advanced(p).position.0 as int;
    let y = advanced(p).position.1 as int;
    lemma_first_where(players.len() as int, is_hit(players, x, y));
    let victim = players[i].damaged(p.shooter, p.damage);
    assert(players[i].wf());
    if victim.data.health <= 0 {
        let back = victim.respawned(spawn);
        let after = players.update(i, back);
        lemma_first_where(after.len() as int, has_id(after, p.shooter));
    }
}

/// Whether `tile`, the tile of the cell `(cx, cy)`, is a wall that a
/// projectile at `(x, y)` touches.
fn wall_touched_at(map: &GameMap, tile: Option<TileVariant>, x: i64, y: i64, cx: i64, cy: i64) -> (b:
    bool)
    requires
        grid_fits(map.grid()),
        tile == map.tile_at_spec(cx as int, cy as int),
        in_world(x as int),
        in_world(y as int),
    ensures
        b == (is_wall(map.tile_at_spec(cx as int, cy as int)) && touches_tile(
            x as int,
            y as int,
            cx as int,
            cy as int,
        )),
{
    match tile {
        Some(TileVariant::WALL_SIDE) | Some(TileVariant::WALL_TOP) => {
            assert(0 <= cx <= i32::MAX && 0 <= cy <= i32::MAX) by {
                assert(map.grid()[cy as int].len() <= i32::MAX);
            }
            check_collision_circle_rec(
                x,
                y,
                ENTITY_PROJECTILE_RADIUS,
                cx * WORLD_TILE_SIZE,
                cy * WORLD_TILE_SIZE,
                WORLD_TILE_SIZE,
                WORLD_TILE_SIZE,
            )
        },
        _ => false,
    }
}

/// Whether the environment stops a projectile at `(x, y)`. Only the cell
/// nearest to it and the eight around are looked at: it reaches no other.
pub fn is_blocked(map: &GameMap, x: i64, y: i64) -> (b: bool)
    requires
        grid_fits(map.grid()),
    ensures
        b == blocked(map, x as int, y as int),
        !b ==> in_world(x as int) && in_world(y as int),
{
    reveal(blocked);
    if !is_in_world(x) || !is_in_world(y) {
        return true;
    }
    let gx = cell_of(x);
    let gy = cell_of(y);
    let here = map.tile_at_wide(gx, gy);
    if here.is_none() || wall_touched_at(map, here, x, y, gx, gy) {
        return true;
    }
    let around = map.neighbors_of(gx as i32, gy as i32);
    let offsets = point_offsets();
    let mut i: usize = 0;
    while i < 8
        invariant
            grid_fits(map.grid()),
            in_world(x as int),
            in_world(y as int),
            gx == cell_index(x as int),
            gy == cell_index(y as int),
            i32::MIN <= gx <= i32::MAX,
            i32::MIN <= gy <= i32::MAX,
            i <= 8,
            offsets@.len() == 8,
            forall|k: int|
                0 <= k < 8 ==> (#[trigger] offsets@[k]).0 as int == point_offsets_spec()[k].0
                    && offsets@[k].1 as int == point_offsets_spec()[k].1,
            forall|k: int|
                0 <= k < 8 ==> #[trigger] around@[k] == map.tile_at_spec(
                    gx + point_offsets_spec()[k].0,
                    gy + point_offsets_spec()[k].1,
                ),
            forall|k: int|
                0 <= k < i ==> !(is_wall(
                    map.tile_at_spec(
                        gx + (#[trigger] point_offsets_spec()[k]).0,
                        gy + point_offsets_spec()[k].1,
                    ),
                ) && touches_tile(
                    x as int,
                    y as int,
                    gx + point_offsets_spec()[k].0,
                    gy + point_offsets_spec()[k].1,
                )),
        decreases 8 - i,
    {
        let (dx, dy) = offsets[i];
        assert(offsets@[i as int].0 as int == point_offsets_spec()[i as int].0);
        assert(-1 <= point_offsets_spec()[i as int].0 <= 1);
        assert(-1 <= point_offsets_spec()[i as int].1 <= 1);
        assert(around@[i as int] == map.tile_at_spec(
            gx + point_offsets_spec()[i as int].0,
            gy + point_offsets_spec()[i as int].1,
        ));
        assert(dx as int == point_offsets_spec()[i as int].0 && dy as int
            == point_offsets_spec()[i as int].1);
        if wall_touched_at(map, around[i], x, y, gx + dx as i64, gy + dy as i64) {
            proof {
                reveal(blocked);
                assert(is_wall(map.tile_at_spec(gx + dx, gy + dy)) && touches_tile(
                    x as int,
                    y as int,
                    gx + dx,
                    gy + dy,
                ));
            }
            return true;
        }
        i += 1;
    }
    proof {
        assert forall|cx: int, cy: int|
            !(is_wall(#[trigger] map.tile_at_spec(cx, cy)) && touches_tile(
                x as int,
                y as int,
                cx,
                cy,
            )) by {
            if touches_tile(x as int, y as int, cx, cy) {
                lemma_touch_is_near(x as int, y as int, cx, cy);
                let d = (cx - gx, cy - gy);
                if d != (0int, 0int) {
                    let k = neighbour_index(d.0, d.1);
                    assert(point_offsets_spec()[k] == d);
                }
            }
        }
    }
    false
}

/// Where the neighbour at offset `(dx, dy)` stands in the list of offsets.
pub open spec fn neighbour_index(dx: int, dy: int) -> int {
    if dx == 0 && dy == 1 {
        0
    } else if dx == 1 && dy == 1 {
        1
    } else if dx == 1 && dy == 0 {
        2
    } else if dx == 1 && dy == -1 {
        3
    } else if dx == 0 && dy == -1 {
        4
    } else if dx == -1 && dy == -1 {
        5
    } else if dx == -1 && dy == 0 {
        6
    } else {
        7
    }
}

impl ServerState {
    /// The first player that a projectile at `(x, y)` touches.
    pub fn first_player_hit(&self, x: i64, y: i64) -> (r: Option<usize>)
        requires
            self.wf(),
            in_world(x as int),
            in_world(y as int),
        ensures
            match r {
                Some(i) => i < self.players().len() && first_hit(
                    self.players(),
                    x as int,
                    y as int,
                ) == Some(i as int),
                None => first_hit(self.players(), x as int, y as int) is None,
            },
    {
        let n = self.players_count();
        let mut i: usize = 0;
        while i < n
            invariant
                self.wf(),
                n == self.players().len(),
                in_world(x as int),
                in_world(y as int),
                i <= n,
                forall|j: int|
                    0 <= j < i ==> !#[trigger] is_hit(self.players(), x as int, y as int)(j),
            decreases n - i,
        {
            let c = self.player_at(i);
            assert(c.wf());
            if check_collision_circle_rec(
                x,
                y,
                ENTITY_PROJECTILE_RADIUS,
                c.data.position.0,
                c.data.position.1,
                ENTITY_PLAYER_SIZE,
                ENTITY_PLAYER_SIZE,
            ) {
                proof {
                    lemma_first_where_found(
                        n as int,
                        is_hit(self.players(), x as int, y as int),
                        i as int,
                    );
                }
                return Some(i);
            }
            i += 1;
        }
        proof {
            lemma_first_where_none(n as int, is_hit(self.players(), x as int, y as int));
        }
        None
    }

    /// Lets the projectile `p` hit the player at index `i`.
    pub fn hit_player(&mut self, i: usize, p: ProjectileData, spawn: (i32, i32)) -> (out: Vec<
        Outbound,
    >)
        requires
            old(self).wf(),
            i < old(self).players().len(),
        ensures
            final(self).wf(),
            final(self).projectiles() == old(self).projectiles(),
            final(self).players() == hit(old(self).players(), i as int, p, spawn).players,
            views(out@) == hit(old(self).players(), i as int, p, spawn).out,
            final(self).players().len() == old(self).players().len(),
    {
        let mut out: Vec<Outbound> = Vec::new();
        let mut victim = self.player_at(i);
        assert(victim.wf());
        victim.take_damage(p.shooter, p.damage);
        enqueue(
            &mut out,
            Recipient::All,
            Channel::ReliableUnordered,
            GameNetworkPacket::NET_PROJECTILE_IMPACT(p.id, Some(victim.id), p.damage),
        );
        if victim.data.health > 0 {
            self.set_player(i, victim);
        } else {
            victim.respawn(spawn);
            self.set_player(i, victim);
            enqueue(
                &mut out,
                Recipient::All,
                Channel::ReliableOrdered,
                GameNetworkPacket::NET_PLAYER_RESPAWN(victim.id, victim.data),
            );
            if let Some(k) = self.index_of(p.shooter) {
                let mut killer = self.player_at(k);
                assert(killer.wf());
                killer.reward();
                self.set_player(k, killer);
                enqueue(
                    &mut out,
                    Recipient::To(p.shooter),
                    Channel::ReliableOrdered,
                    GameNetworkPacket::NET_PLAYER_KILL_REWARD(killer.data),
                );
            }
        }
        assert(views(out@) =~= hit(old(self).players(), i as int, p, spawn).out);
        out
    }

    /// What the projectile `p` runs into when it moves by one tick.
    pub fn survey(&self, map: &GameMap, p: ProjectileData) -> (c: Contact)
        requires
            self.wf(),
            grid_fits(map.grid()),
            projectile_ok(p),
        ensures
            is_contact(map, self.players(), p, c),
    {
        let x: i64 = p.position.0 + p.velocity.0;
        let y: i64 = p.position.1 + p.velocity.1;
        if is_blocked(map, x, y) {
            return Contact::Environment;
        }
        match self.first_player_hit(x, y) {
            Some(i) => Contact::Player(i),
            None => Contact::Nothing,
        }
    }

    /// Whether the projectile `p` would leave the player at index `i` without health.
    pub fn is_lethal(&self, i: usize, p: ProjectileData) -> (b: bool)
        requires
            self.wf(),
            i < self.players().len(),
        ensures
            b == lethal(self.players(), i as int, p),
    {
        let c = self.player_at(i);
        assert(c.wf());
        c.data.health as i64 - p.damage as i64 <= 0
    }

    /// Moves one projectile by one tick and settles what it runs into.
    /// Returns the projectile if it flies on, and what is to be sent.
    pub fn step_projectile(&mut self, map: &GameMap, p: ProjectileData, spawn: (i32, i32)) -> (r: (
        Option<ProjectileData>,
        Vec<Outbound>,
    ))
        requires
            old(self).wf(),
            grid_fits(map.grid()),
            projectile_ok(p),
        ensures
            final(self).wf(),
            final(self).projectiles() == old(self).projectiles(),
            final(self).players() == step(map, old(self).players(), p, spawn).players,
            final(self).players().len() == old(self).players().len(),
            r.0 == step(map, old(self).players(), p, spawn).kept,
            views(r.1@) == step(map, old(self).players(), p, spawn).out,
            r.0 matches Some(q) ==> projectile_ok(q) && q.id == p.id,
    {
        let found = self.survey(map, p);
        self.settle(map, p, found, spawn)
    }

    /// Settles what the projectile `p` ran into, as `survey` found it.
    pub fn settle(&mut self, map: &GameMap, p: ProjectileData, found: Contact, spawn: (i32, i32)) -> (r: (
        Option<ProjectileData>,
        Vec<Outbound>,
    ))
        requires
            old(self).wf(),
            projectile_ok(p),
            is_contact(map, old(self).players(), p, found),
        ensures
            final(self).wf(),
            final(self).projectiles() == old(self).projectiles(),
            final(self).players() == step(map, old(self).players(), p, spawn).players,
            final(self).players().len() == old(self).players().len(),
            r.0 == step(map, old(self).players(), p, spawn).kept,
            views(r.1@) == step(map, old(self).players(), p, spawn).out,
            r.0 matches Some(q) ==> projectile_ok(q) && q.id == p.id,
    {
        let mut out: Vec<Outbound> = Vec::new();
        match found {
            Contact::Environment => {
                enqueue(
                    &mut out,
                    Recipient::All,
                    Channel::ReliableUnordered,
                    GameNetworkPacket::NET_PROJECTILE_IMPACT(p.id, None, p.damage),
                );
                assert(views(out@) =~= seq![impact(p, None)]);
                (None, out)
            },
            Contact::Player(i) => {
                let out = self.hit_player(i, p, spawn);
                (None, out)
            },
            Contact::Nothing => {
                let x: i64 = p.position.0 + p.velocity.0;
                let y: i64 = p.position.1 + p.velocity.1;
                assert(in_world(x as int) && in_world(y as int)) by {
                    reveal(blocked);
                }
                let q = ProjectileData {
                    id: p.id,
                    position: (x, y),
                    velocity: p.velocity,
                    grid: (cell_of(x) as i32, cell_of(y) as i32),
                    orientation: p.orientation,
                    shooter: p.shooter,
                    damage: p.damage,
                };
                assert(views(out@) =~= Seq::<OutboundView>::empty());
                (Some(q), out)
            },
        }
    }

    /// The pass over every live projectile, oldest first, with the spawn
    /// cell to use should the projectile at the same index kill; cells
    /// beyond the last projectile are not looked at. The projectiles that
    /// are gone leave the registry when the pass is over.
    pub fn resolve_with(&mut self, map: &GameMap, spawns: &Vec<(i32, i32)>) -> (out: Vec<Outbound>)
        requires
            old(self).wf(),
            grid_fits(map.grid()),
            spawns@.len() >= old(self).projectiles().len(),
        ensures
            final(self).wf(),
            final(self).players().len() == old(self).players().len(),
            ({
                let done = pass(
                    map,
                    old(self).players(),
                    old(self).projectiles(),
                    spawns@,
                    old(self).projectiles().len(),
                );
                &&& final(self).players() == done.players
                &&& final(self).projectiles() == done.kept
                &&& views(out@) == done.out
            }),
    {
        let n = self.projectiles_count();
        let ghost players0 = self.players();
        let ghost projectiles0 = self.projectiles();
        let mut out: Vec<Outbound> = Vec::new();
        let mut kept: Vec<ProjectileData> = Vec::new();
        let ghost mut origin: Seq<int> = Seq::empty();
        let mut k: usize = 0;
        assert(views(out@) =~= Seq::<OutboundView>::empty());
        while k < n
            invariant
                self.wf(),
                grid_fits(map.grid()),
                self.projectiles() == projectiles0,
                projectiles_ok(projectiles0),
                self.players().len() == players0.len(),
                n == projectiles0.len(),
                spawns@.len() >= n,
                k <= n,
                self.players() == pass(map, players0, projectiles0, spawns@, k as nat).players,
                kept@ == pass(map, players0, projectiles0, spawns@, k as nat).kept,
                views(out@) == pass(map, players0, projectiles0, spawns@, k as nat).out,
                origin.len() == kept@.len(),
                forall|a: int|
                    0 <= a < kept@.len() ==> 0 <= #[trigger] origin[a] < k && kept@[a].id
                        == projectiles0[origin[a]].id && projectile_ok(kept@[a]),
                forall|a: int, b: int|
                    0 <= a < b < kept@.len() ==> #[trigger] origin[a] < #[trigger] origin[b],
            decreases n - k,
        {
            let p = self.projectile_at(k);
            let (flying, more) = self.step_projectile(map, p, spawns[k]);
            if let Some(q) = flying {
                kept.push(q);
                proof {
                    origin = origin.push(k as int);
                }
            }
            enqueue_all(&mut out, more);
            k += 1;
        }
        proof {
            assert forall|a: int, b: int| 0 <= a < b < kept@.len() implies (#[trigger] kept@[a]).id
                != (#[trigger] kept@[b]).id by {
                assert(origin[a] < origin[b]);
                assert(projectiles0[origin[a]].id != projectiles0[origin[b]].id);
            }
            assert forall|a: int| 0 <= a < kept@.len() implies projectile_ok(
                #[trigger] kept@[a],
            ) by {
                assert(0 <= origin[a] < k);
            }
        }
        self.set_projectiles(kept);
        out
    }

    /// The pass that ends a tick. Where a projectile kills, a ground cell
    /// is drawn at random for the victim to come back at. Whatever is
    /// drawn, the outcome is that of `resolve_with` for ground cells of the map.
    pub fn resolve(&mut self, map: &GameMap) -> (out: Vec<Outbound>)
        requires
            old(self).wf(),
            map.wf(),
        ensures
            final(self).wf(),
            final(self).players().len() == old(self).players().len(),
            exists|spawns: Seq<(i32, i32)>|
                {
                    let done = #[trigger] pass(
                        map,
                        old(self).players(),
                        old(self).projectiles(),
                        spawns,
                        old(self).projectiles().len(),
                    );
                    &&& spawns.len() == old(self).projectiles().len()
                    &&& all_ground(map, spawns)
                    &&& final(self).players() == done.players
                    &&& final(self).projectiles() == done.kept
                    &&& views(out@) == done.out
                },
    {
        let n = self.projectiles_count();
        let ghost players0 = self.players();
        let ghost projectiles0 = self.projectiles();
        let ghost mut spawns: Seq<(i32, i32)> = Seq::empty();
        let ghost spare: (i32, i32) = {
            map.lemma_ground_cell_exists();
            choose|c: (i32, i32)|
                #[trigger] map.tile_at_spec(c.0 as int, c.1 as int) == Some(TileVariant::GROUND)
        };
        let mut out: Vec<Outbound> = Vec::new();
        let mut kept: Vec<ProjectileData> = Vec::new();
        let ghost mut origin: Seq<int> = Seq::empty();
        let mut k: usize = 0;
        assert(views(out@) =~= Seq::<OutboundView>::empty());
        while k < n
            invariant
                self.wf(),
                map.wf(),
                map.tile_at_spec(spare.0 as int, spare.1 as int) == Some(TileVariant::GROUND),
                self.projectiles() == projectiles0,
                projectiles_ok(projectiles0),
                self.players().len() == players0.len(),
                n == projectiles0.len(),
                spawns.len() == k,
                all_ground(map, spawns),
                k <= n,
                self.players() == pass(map, players0, projectiles0, spawns, k as nat).players,
                kept@ == pass(map, players0, projectiles0, spawns, k as nat).kept,
                views(out@) == pass(map, players0, projectiles0, spawns, k as nat).out,
                origin.len() == kept@.len(),
                forall|a: int|
                    0 <= a < kept@.len() ==> 0 <= #[trigger] origin[a] < k && kept@[a].id
                        == projectiles0[origin[a]].id && projectile_ok(kept@[a]),
                forall|a: int, b: int|
                    0 <= a < b < kept@.len() ==> #[trigger] origin[a] < #[trigger] origin[b],
            decreases n - k,
        {
            let p = self.projectile_at(k);
            let found = self.survey(map, p);
            let kills = match found {
                Contact::Player(i) => self.is_lethal(i, p),
                _ => false,
            };
            let ghost before = self.players();
            let ghost drawn = spawns;
            let (flying, more) = if kills {
                let spawn = map.get_random_spawn_position();
                proof {
                    spawns = spawns.push(spawn);
                }
                self.settle(map, p, found, spawn)
            } else {
                proof {
                    spawns = spawns.push(spare);
                    lemma_spawn_unused(map, before, p, (0, 0), spare);
                }
                self.settle(map, p, found, (0, 0))
            };
            proof {
                lemma_pass_prefix(map, players0, projectiles0, drawn, spawns, k as nat);
            }
            if let Some(q) = flying {
                kept.push(q);
                proof {
                    origin = origin.push(k as int);
                }
            }
            enqueue_all(&mut out, more);
            k += 1;
        }
        proof {
            assert forall|a: int, b: int| 0 <= a < b < kept@.len() implies (#[trigger] kept@[a]).id
                != (#[trigger] kept@[b]).id by {
                assert(origin[a] < origin[b]);
                assert(projectiles0[origin[a]].id != projectiles0[origin[b]].id);
            }
            assert forall|a: int| 0 <= a < kept@.len() implies projectile_ok(
                #[trigger] kept@[a],
            ) by {
                assert(0 <= origin[a] < k);
            }
        }
        self.set_projectiles(kept);
        out
    }
}

} // verus!
