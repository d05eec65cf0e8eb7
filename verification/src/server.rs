//! The authoritative state and what connections and messages do to it.
use vstd::prelude::*;
use crate::configs::{RawClientId, RawProjectileId, ENTITY_PROJECTILE_SPEED};
use crate::geometry::{cell_index, in_world};
use crate::network::{
    enqueue,
    outbound,
    views,
    Channel,
    GameNetworkPacket,
    Outbound,
    OutboundView,
    PacketView,
    PlayerData,
    ProjectileData,
    Recipient,
};
use crate::player::{cell_position, spawn_position, Client};
use crate::search::{
    first_where,
    lemma_first_where,
    lemma_first_where_found,
    lemma_first_where_none,
};
use crate::tile::{GameMap, TileVariant};

verus! {

/// The player at index `i` has the id `id`.
pub open spec fn has_id(players: Seq<Client>, id: RawClientId) -> spec_fn(int) -> bool {
    |i: int| players[i].id == id
}

/// Index of the player with an id, if one is connected.
pub open spec fn find_player(players: Seq<Client>, id: RawClientId) -> Option<int> {
    first_where(players.len() as int, has_id(players, id))
}

/// The projectile at index `i` has the id `id`.
pub open spec fn has_projectile_id(projectiles: Seq<ProjectileData>, id: RawProjectileId) -> spec_fn(
    int,
) -> bool {
    |i: int| projectiles[i].id == id
}

/// Index of the live projectile with an id, if there is one.
pub open spec fn find_projectile(projectiles: Seq<ProjectileData>, id: RawProjectileId) -> Option<
    int,
> {
    first_where(projectiles.len() as int, has_projectile_id(projectiles, id))
}

/// Every player with its id: what a newcomer is told of the others.
pub open spec fn roster(players: Seq<Client>) -> Seq<(u64, PlayerData)> {
    Seq::new(players.len(), |i: int| (players[i].id, players[i].data))
}

/// Every player is well formed and no id is taken twice.
pub open spec fn players_ok(players: Seq<Client>) -> bool {
    &&& forall|i: int| 0 <= i < players.len() ==> (#[trigger] players[i]).wf()
    &&& forall|i: int, j: int|
        0 <= i < j < players.len() ==> (#[trigger] players[i]).id != (#[trigger] players[j]).id
}

/// A velocity that a projectile may have along one axis.
pub open spec fn speed_ok(v: int) -> bool {
    -(ENTITY_PROJECTILE_SPEED as int) <= v <= ENTITY_PROJECTILE_SPEED as int
}

/// A projectile that may be live: it is in the world, no faster than
/// allowed, and its cell is the one nearest to its position.
pub open spec fn projectile_ok(p: ProjectileData) -> bool {
    &&& in_world(p.position.0 as int)
    &&& in_world(p.position.1 as int)
    &&& speed_ok(p.velocity.0 as int)
    &&& speed_ok(p.velocity.1 as int)
    &&& p.grid.0 == cell_index(p.position.0 as int)
    &&& p.grid.1 == cell_index(p.position.1 as int)
}

/// Every projectile may be live and no id is taken twice.
pub open spec fn projectiles_ok(projectiles: Seq<ProjectileData>) -> bool {
    &&& forall|i: int| 0 <= i < projectiles.len() ==> projectile_ok(#[trigger] projectiles[i])
    &&& forall|i: int, j: int|
        0 <= i < j < projectiles.len() ==> (#[trigger] projectiles[i]).id
            != (#[trigger] projectiles[j]).id
}

/// What is sent when `joined` is admitted among `others`: to the newcomer
/// the map and then the roster of the others, to the others the news.
pub open spec fn welcome(map: &GameMap, others: Seq<Client>, joined: Client) -> Seq<OutboundView> {
    seq![
        outbound(
            Recipient::To(joined.id),
            Channel::ReliableOrdered,
            PacketView::NET_WORLD_MAP(map.snapshot()),
        ),
        outbound(
            Recipient::To(joined.id),
            Channel::ReliableOrdered,
            PacketView::NET_WORLD_PLAYERS(roster(others)),
        ),
        outbound(
            Recipient::AllExcept(joined.id),
            Channel::ReliableOrdered,
            PacketView::NET_PLAYER_JOINED(joined.data),
        ),
    ]
}

/// The players and the queue after `client_id` asks to be admitted at `cell`.
pub open spec fn admitted(
    map: &GameMap,
    players: Seq<Client>,
    client_id: RawClientId,
    cell: (i32, i32),
) -> (Seq<Client>, Seq<OutboundView>) {
    if find_player(players, client_id) is Some {
        (players, Seq::empty())
    } else {
        let joined = Client::new_spec(client_id, cell_position(cell));
        (players.push(joined), welcome(map, players, joined))
    }
}

/// The players and the queue after `client_id` is gone.
pub open spec fn departed(players: Seq<Client>, client_id: RawClientId) -> (
    Seq<Client>,
    Seq<OutboundView>,
) {
    match find_player(players, client_id) {
        Some(i) => (
            players.remove(i),
            seq![
                outbound(
                    Recipient::All,
                    Channel::ReliableUnordered,
                    PacketView::NET_PLAYER_LEFT(client_id),
                ),
            ],
        ),
        None => (players, Seq::empty()),
    }
}

/// Replacing a player by a well-formed one of the same id keeps the registry sound.
pub proof fn lemma_update_keeps_ok(players: Seq<Client>, i: int, c: Client)
    requires
        players_ok(players),
        0 <= i < players.len(),
        c.wf(),
        c.id == players[i].id,
    ensures
        players_ok(players.update(i, c)),
        players.update(i, c).len() == players.len(),
        forall|k: int| 0 <= k < players.len() ==> #[trigger] players.update(i, c)[k].id == players[k].id,
        forall|id: RawClientId| find_player(players.update(i, c), id) == find_player(players, id),
{
    let after = players.update(i, c);
    assert forall|a: int, b: int| 0 <= a < b < after.len() implies (#[trigger] after[a]).id != (
    #[trigger] after[b]).id by {
        assert(players[a].id != players[b].id);
    }
    assert forall|id: RawClientId| find_player(after, id) == find_player(players, id) by {
        let n = players.len() as int;
        lemma_first_where(n, has_id(players, id));
        match find_player(players, id) {
            Some(first) => {
                assert(has_id(players, id)(first));
                assert(after[first].id == players[first].id);
                assert(has_id(after, id)(first));
                assert forall|j: int| 0 <= j < first implies !#[trigger] has_id(after, id)(j) by {
                    assert(!has_id(players, id)(j));
                    assert(after[j].id == players[j].id);
                }
                lemma_first_where_found(n, has_id(after, id), first);
            },
            None => {
                assert forall|j: int| 0 <= j < n implies !#[trigger] has_id(after, id)(j) by {
                    assert(!has_id(players, id)(j));
                    assert(after[j].id == players[j].id);
                }
                lemma_first_where_none(n, has_id(after, id));
            },
        }
    }
}

/// A connection event of the transport.
#[derive(Debug, Clone, Copy, PartialEq, Eq, Structural)]
pub enum ServerEvent {
    ClientConnected { client_id: RawClientId },
    ClientDisconnected { client_id: RawClientId },
}

/// The whole truth of a running game: who is connected and what is in flight.
///
/// Both registries are lists, players in the order in which they joined
/// and projectiles in the order in which they were fired, with no id
/// twice. The order is part of the rules: a pass walks the projectiles
/// oldest first, and of several players that a projectile touches the
/// one who joined first is hit. A hash map would walk them in an order
/// of its own, and the outcome of a tick would no longer follow from the
/// state alone.
#[derive(Debug)]
pub struct ServerState {
    players: Vec<Client>,
    players_count: usize,
    projectiles: Vec<ProjectileData>,
}

impl Default for ServerState {
    fn default() -> (r: Self)
        ensures
            r.wf(),
            r.players().len() == 0,
            r.projectiles().len() == 0,
    {
        Self { players: Vec::new(), projectiles: Vec::new(), players_count: 0 }
    }
}

impl ServerState {
    /// The connected players, in the order in which they joined.
    pub closed spec fn players(&self) -> Seq<Client> {
        self.players@
    }

    /// The live projectiles, in the order in which they were fired.
    pub closed spec fn projectiles(&self) -> Seq<ProjectileData> {
        self.projectiles@
    }

    /// The number of connected players, as the state counts them.
    pub closed spec fn count(&self) -> nat {
        self.players_count as nat
    }

    /// Both registries are sound and the count is that of the players.
    pub open spec fn wf(&self) -> bool {
        &&& players_ok(self.players())
        &&& projectiles_ok(self.projectiles())
        &&& self.count() == self.players().len()
    }

    /// How many players are connected.
    pub fn players_count(&self) -> (n: usize)
        ensures
            n == self.count(),
    {
        self.players_count
    }

    /// Every player's public data under its id.
    pub fn get_players_raw(&self) -> (r: Vec<(u64, PlayerData)>)
        ensures
            r@ == roster(self.players()),
    {
        let mut out: Vec<(u64, PlayerData)> = Vec::new();
        let mut i: usize = 0;
        while i < self.players.len()
            invariant
                i <= self.players@.len(),
                out@ == roster(self.players@.subrange(0, i as int)),
            decreases self.players@.len() - i,
        {
            let c = self.players[i];
            out.push((c.id, c.data));
            i += 1;
            assert(out@ =~= roster(self.players@.subrange(0, i as int)));
        }
        assert(self.players@.subrange(0, i as int) =~= self.players@);
        out
    }

    /// The record of the player with an id, if one is connected.
    pub fn player(&self, id: RawClientId) -> (r: Option<Client>)
        ensures
            match find_player(self.players(), id) {
                Some(i) => r == Some(self.players()[i]),
                None => r is None,
            },
    {
        match self.index_of(id) {
            Some(i) => Some(self.players[i]),
            None => None,
        }
    }

    /// The live projectiles, oldest first.
    pub fn projectiles_raw(&self) -> (r: Vec<ProjectileData>)
        ensures
            r@ == self.projectiles(),
    {
        let mut out: Vec<ProjectileData> = Vec::new();
        let mut i: usize = 0;
        while i < self.projectiles.len()
            invariant
                i <= self.projectiles@.len(),
                out@ == self.projectiles@.subrange(0, i as int),
            decreases self.projectiles@.len() - i,
        {
            out.push(self.projectiles[i]);
            i += 1;
            assert(out@ =~= self.projectiles@.subrange(0, i as int));
        }
        assert(self.projectiles@.subrange(0, i as int) =~= self.projectiles@);
        out
    }

    /// The player at an index of the registry.
    pub fn player_at(&self, i: usize) -> (c: Client)
        requires
            i < self.players().len(),
        ensures
            c == self.players()[i as int],
    {
        self.players[i]
    }

    /// How many projectiles are live.
    pub fn projectiles_count(&self) -> (n: usize)
        ensures
            n == self.projectiles().len(),
    {
        self.projectiles.len()
    }

    /// The projectile at an index of the registry.
    pub fn projectile_at(&self, i: usize) -> (p: ProjectileData)
        requires
            i < self.projectiles().len(),
        ensures
            p == self.projectiles()[i as int],
    {
        self.projectiles[i]
    }

    /// Puts a new record in the place of a player's, under the same id.
    pub(crate) fn set_player(&mut self, i: usize, c: Client)
        requires
            old(self).wf(),
            i < old(self).players().len(),
            c.wf(),
            c.id == old(self).players()[i as int].id,
        ensures
            final(self).wf(),
            final(self).players() == old(self).players().update(i as int, c),
            final(self).projectiles() == old(self).projectiles(),
    {
        proof {
            lemma_update_keeps_ok(self.players@, i as int, c);
        }
        self.players.set(i, c);
    }

    /// Adds a projectile whose id is not live yet.
    pub(crate) fn add_projectile(&mut self, p: ProjectileData)
        requires
            old(self).wf(),
            projectile_ok(p),
            find_projectile(old(self).projectiles(), p.id) is None,
        ensures
            final(self).wf(),
            final(self).players() == old(self).players(),
            final(self).projectiles() == old(self).projectiles().push(p),
    {
        let ghost before = self.projectiles@;
        proof {
            lemma_first_where(before.len() as int, has_projectile_id(before, p.id));
        }
        self.projectiles.push(p);
        assert forall|i: int, j: int| 0 <= i < j < self.projectiles@.len() implies (
        #[trigger] self.projectiles@[i]).id != (#[trigger] self.projectiles@[j]).id by {
            if j == before.len() {
                assert(!has_projectile_id(before, p.id)(i));
            } else {
                assert(before[i].id != before[j].id);
            }
        }
    }

    /// Puts a new list in the place of the live projectiles.
    pub(crate) fn set_projectiles(&mut self, kept: Vec<ProjectileData>)
        requires
            old(self).wf(),
            projectiles_ok(kept@),
        ensures
            final(self).wf(),
            final(self).players() == old(self).players(),
            final(self).projectiles() == kept@,
    {
        self.projectiles = kept;
    }

    /// Index of the player with an id, if one is connected.
    pub(crate) fn index_of(&self, id: RawClientId) -> (r: Option<usize>)
        ensures
            match r {
                Some(i) => i < self.players().len() && find_player(self.players(), id) == Some(
                    i as int,
                ) && self.players()[i as int].id == id,
                None => find_player(self.players(), id) is None,
            },
    {
        let mut i: usize = 0;
        while i < self.players.len()
            invariant
                i <= self.players@.len(),
                forall|j: int| 0 <= j < i ==> !#[trigger] has_id(self.players@, id)(j),
            decreases self.players@.len() - i,
        {
            if self.players[i].id == id {
                proof {
                    lemma_first_where_found(
                        self.players@.len() as int,
                        has_id(self.players@, id),
                        i as int,
                    );
                }
                return Some(i);
            }
            i += 1;
        }
        proof {
            lemma_first_where_none(self.players@.len() as int, has_id(self.players@, id));
        }
        None
    }

    /// Index of the live projectile with an id, if there is one.
    pub(crate) fn projectile_index_of(&self, id: RawProjectileId) -> (r: Option<usize>)
        ensures
            match r {
                Some(i) => i < self.projectiles().len() && find_projectile(self.projectiles(), id)
                    == Some(i as int),
                None => find_projectile(self.projectiles(), id) is None && forall|j: int|
                    0 <= j < self.projectiles().len() ==> self.projectiles()[j].id != id,
            },
    {
        let mut i: usize = 0;
        while i < self.projectiles.len()
            invariant
                i <= self.projectiles@.len(),
                forall|j: int|
                    0 <= j < i ==> !#[trigger] has_projectile_id(self.projectiles@, id)(j),
            decreases self.projectiles@.len() - i,
        {
            if self.projectiles[i].id == id {
                proof {
                    lemma_first_where_found(
                        self.projectiles@.len() as int,
                        has_projectile_id(self.projectiles@, id),
                        i as int,
                    );
                }
                return Some(i);
            }
            i += 1;
        }
        assert forall|j: int| 0 <= j < self.projectiles@.len() implies self.projectiles@[j].id
            != id by {
            assert(!has_projectile_id(self.projectiles@, id)(j));
        }
        proof {
            lemma_first_where_none(
                self.projectiles@.len() as int,
                has_projectile_id(self.projectiles@, id),
            );
        }
        None
    }

    /// Admits the player `client_id` at the ground cell `cell`. The newcomer
    /// is sent the map and then the roster of the others, and the others
    /// are told of the newcomer, all in order. An id that is already
    /// connected is not admitted again.
    pub fn accept_at(&mut self, map: &GameMap, client_id: RawClientId, cell: (i32, i32)) -> (out:
        Vec<Outbound>)
        requires
            old(self).wf(),
            map.wf(),
        ensures
            final(self).wf(),
            final(self).projectiles() == old(self).projectiles(),
            final(self).players() == admitted(map, old(self).players(), client_id, cell).0,
            views(out@) == admitted(map, old(self).players(), client_id, cell).1,
    {
        let mut out: Vec<Outbound> = Vec::new();
        match self.index_of(client_id) {
            Some(_) => {},
            None => {
                let joined = Client::new(client_id, spawn_position(cell));
                let others = self.get_players_raw();
                let ghost before = self.players@;
                self.players.push(joined);
                self.players_count = self.players.len();
                proof {
                    lemma_first_where(
                        before.len() as int,
                        has_id(before, client_id),
                    );
                    assert forall|i: int, j: int| 0 <= i < j < self.players@.len() implies (
                    #[trigger] self.players@[i]).id != (#[trigger] self.players@[j]).id by {
                        if j == before.len() {
                            assert(!has_id(before, client_id)(i));
                        } else {
                            assert(before[i].id != before[j].id);
                        }
                    }
                }
                enqueue(
                    &mut out,
                    Recipient::To(client_id),
                    Channel::ReliableOrdered,
                    GameNetworkPacket::NET_WORLD_MAP(map.entries()),
                );
                enqueue(
                    &mut out,
                    Recipient::To(client_id),
                    Channel::ReliableOrdered,
                    GameNetworkPacket::NET_WORLD_PLAYERS(others),
                );
                enqueue(
                    &mut out,
                    Recipient::AllExcept(client_id),
                    Channel::ReliableOrdered,
                    GameNetworkPacket::NET_PLAYER_JOINED(joined.data),
                );
            },
        }
        assert(views(out@) =~= admitted(map, old(self).players(), client_id, cell).1);
        out
    }

    /// Admits the player `client_id` at a ground cell drawn at random.
    /// Whatever cell is drawn, the outcome is that of `accept_at` for a
    /// ground cell of the map.
    pub fn accept(&mut self, map: &GameMap, client_id: RawClientId) -> (out: Vec<Outbound>)
        requires
            old(self).wf(),
            map.wf(),
        ensures
            final(self).wf(),
            final(self).projectiles() == old(self).projectiles(),
            exists|cell: (i32, i32)|
                {
                    &&& map.tile_at_spec(cell.0 as int, cell.1 as int) == Some(TileVariant::GROUND)
                    &&& final(self).players() == (#[trigger] admitted(
                        map,
                        old(self).players(),
                        client_id,
                        cell,
                    )).0
                    &&& views(out@) == admitted(map, old(self).players(), client_id, cell).1
                },
    {
        let cell = map.get_random_spawn_position();
        self.accept_at(map, client_id, cell)
    }

    /// Forgets the player `client_id` and tells everyone. Projectiles stay
    /// in flight, whoever fired them. An id that is not connected changes
    /// nothing and nobody is told.
    pub fn disconnect(&mut self, client_id: RawClientId) -> (out: Vec<Outbound>)
        requires
            old(self).wf(),
        ensures
            final(self).wf(),
            final(self).projectiles() == old(self).projectiles(),
            final(self).players() == departed(old(self).players(), client_id).0,
            views(out@) == departed(old(self).players(), client_id).1,
            find_player(final(self).players(), client_id) is None,
    {
        let mut out: Vec<Outbound> = Vec::new();
        match self.index_of(client_id) {
            Some(i) => {
                let ghost before = self.players@;
                self.players.remove(i);
                self.players_count = self.players.len();
                proof {
                    let after = self.players@;
                    assert forall|a: int| 0 <= a < after.len() implies (#[trigger] after[a]).wf()
                        && after[a].id != client_id by {
                        if a < i {
                            assert(after[a] == before[a]);
                            assert(before[a].id != before[i as int].id);
                        } else {
                            assert(after[a] == before[a + 1]);
                            assert(before[i as int].id != before[a + 1].id);
                        }
                    }
                    assert forall|a: int, b: int| 0 <= a < b < after.len() implies (
                    #[trigger] after[a]).id != (#[trigger] after[b]).id by {
                        let a0 = if a < i { a } else { a + 1 };
                        let b0 = if b < i { b } else { b + 1 };
                        assert(after[a] == before[a0]);
                        assert(after[b] == before[b0]);
                        assert(before[a0].id != before[b0].id);
                    }
                    lemma_first_where(
                        after.len() as int,
                        has_id(after, client_id),
                    );
                }
                enqueue(
                    &mut out,
                    Recipient::All,
                    Channel::ReliableUnordered,
                    GameNetworkPacket::NET_PLAYER_LEFT(client_id),
                );
            },
            None => {},
        }
        assert(views(out@) =~= departed(old(self).players(), client_id).1);
        out
    }
}

} // verus!
