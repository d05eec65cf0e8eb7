//! One tick of the simulation: events, then messages, then the pass.
use vstd::prelude::*;
use crate::configs::RawClientId;
use crate::network::{
    enqueue_all,
    views,
    Channel,
    GameNetworkPacket,
    Outbound,
    OutboundView,
    PacketView,
    ProjectileData,
};
use crate::player::Client;
use crate::resolver::{all_ground, pass, Pass};
use crate::server::{admitted, departed, ServerEvent, ServerState};
use crate::session::{ignored, reaction, Reaction};
use crate::tile::{GameMap, TileVariant};

verus! {

/// A message of a client as the transport hands it in.
#[derive(Debug, PartialEq, Eq)]
pub struct Inbound {
    pub sender: RawClientId,
    pub channel: Channel,
    pub packet: GameNetworkPacket,
}

/// An inbound message as contracts see it.
pub struct InboundView {
    pub sender: RawClientId,
    pub channel: Channel,
    pub packet: PacketView,
}

impl View for Inbound {
    type V = InboundView;

    open spec fn view(&self) -> InboundView {
        InboundView { sender: self.sender, channel: self.channel, packet: self.packet@ }
    }
}

/// The messages of an inbound queue, in order, as contracts see them.
pub open spec fn inbound_views(queue: Seq<Inbound>) -> Seq<InboundView> {
    queue.map_values(|m: Inbound| m@)
}

/// The players and the queue after the first `k` connection events, in
/// order, each admission at the cell drawn for the event of the same index.
pub open spec fn after_events(
    map: &GameMap,
    players: Seq<Client>,
    events: Seq<ServerEvent>,
    cells: Seq<(i32, i32)>,
    k: nat,
) -> (Seq<Client>, Seq<OutboundView>)
    decreases k,
{
    if k == 0 {
        (players, Seq::empty())
    } else {
        let before = after_events(map, players, events, cells, (k - 1) as nat);
        let now = match events[k - 1] {
            ServerEvent::ClientConnected { client_id } => admitted(
                map,
                before.0,
                client_id,
                cells[k - 1],
            ),
            ServerEvent::ClientDisconnected { client_id } => departed(before.0, client_id),
        };
        (now.0, before.1 + now.1)
    }
}

/// The registries and the queue after the first `k` messages, in order.
pub open spec fn after_messages(
    players: Seq<Client>,
    projectiles: Seq<ProjectileData>,
    inbound: Seq<InboundView>,
    k: nat,
) -> Reaction
    decreases k,
{
    if k == 0 {
        ignored(players, projectiles)
    } else {
        let before = after_messages(players, projectiles, inbound, (k - 1) as nat);
        let now = reaction(
            before.players,
            before.projectiles,
            inbound[k - 1].sender,
            inbound[k - 1].channel,
            inbound[k - 1].packet,
        );
        Reaction { players: now.players, projectiles: now.projectiles, out: before.out + now.out }
    }
}

/// A whole tick: the connection events, then the messages, then the
/// pass over the projectiles. The queue holds what each part sends, in that order.
pub open spec fn tick_outcome(
    map: &GameMap,
    players: Seq<Client>,
    projectiles: Seq<ProjectileData>,
    events: Seq<ServerEvent>,
    cells: Seq<(i32, i32)>,
    inbound: Seq<InboundView>,
    spawns: Seq<(i32, i32)>,
) -> Pass {
    let joined = after_events(map, players, events, cells, events.len());
    let heard = after_messages(joined.0, projectiles, inbound, inbound.len());
    let done = pass(map, heard.players, heard.projectiles, spawns, heard.projectiles.len());
    Pass { players: done.players, kept: done.kept, out: joined.1 + heard.out + done.out }
}

/// Every connection among the events has a ground cell of the map at its index.
pub open spec fn ground_for_connections(
    map: &GameMap,
    events: Seq<ServerEvent>,
    cells: Seq<(i32, i32)>,
) -> bool {
    forall|k: int|
        0 <= k < cells.len() && k < events.len() && (#[trigger] events[k]) is ClientConnected
            ==> map.tile_at_spec(cells[k].0 as int, cells[k].1 as int) == Some(
            TileVariant::GROUND,
        )
}

/// A message brings at most one projectile into flight.
pub proof fn lemma_messages_add_at_most(
    players: Seq<Client>,
    projectiles: Seq<ProjectileData>,
    inbound: Seq<InboundView>,
    k: nat,
)
    ensures
        after_messages(players, projectiles, inbound, k).projectiles.len() <= projectiles.len()
            + k,
    decreases k,
{
    if k > 0 {
        lemma_messages_add_at_most(players, projectiles, inbound, (k - 1) as nat);
    }
}

/// The driver of the simulation. It holds nothing: the state and the map
/// are handed to each call.
#[derive(Debug, Clone, Copy)]
pub struct Server;

impl Server {
    /// Handles the connection events of a tick, in order, admitting the
    /// player of each connection at the cell of the same index.
    pub fn handle_events_at(
        state: &mut ServerState,
        map: &GameMap,
        events: &Vec<ServerEvent>,
        cells: &Vec<(i32, i32)>,
    ) -> (out: Vec<Outbound>)
        requires
            old(state).wf(),
            map.wf(),
            cells@.len() == events@.len(),
        ensures
            final(state).wf(),
            final(state).projectiles() == old(state).projectiles(),
            final(state).players() == after_events(
                map,
                old(state).players(),
                events@,
                cells@,
                events@.len(),
            ).0,
            views(out@) == after_events(
                map,
                old(state).players(),
                events@,
                cells@,
                events@.len(),
            ).1,
    {
        let ghost players0 = state.players();
        let mut out: Vec<Outbound> = Vec::new();
        let mut k: usize = 0;
        assert(views(out@) =~= Seq::<OutboundView>::empty());
        while k < events.len()
            invariant
                state.wf(),
                map.wf(),
                state.projectiles() == old(state).projectiles(),
                cells@.len() == events@.len(),
                k <= events@.len(),
                state.players() == after_events(map, players0, events@, cells@, k as nat).0,
                views(out@) == after_events(map, players0, events@, cells@, k as nat).1,
            decreases events@.len() - k,
        {
            let more = match events[k] {
                ServerEvent::ClientConnected { client_id } => state.accept_at(
                    map,
                    client_id,
                    cells[k],
                ),
                ServerEvent::ClientDisconnected { client_id } => state.disconnect(client_id),
            };
            enqueue_all(&mut out, more);
            k += 1;
        }
        out
    }

    /// Handles the connection events of a tick, in order. For every
    /// connection a ground cell is drawn at random; whatever is drawn,
    /// the outcome is that of `handle_events_at` with a ground cell of
    /// the map for every connection.
    pub fn handle_events(state: &mut ServerState, map: &GameMap, events: &Vec<ServerEvent>) -> (out:
        Vec<Outbound>)
        requires
            old(state).wf(),
            map.wf(),
        ensures
            final(state).wf(),
            final(state).projectiles() == old(state).projectiles(),
            exists|cells: Seq<(i32, i32)>|
                {
                    let done = #[trigger] after_events(
                        map,
                        old(state).players(),
                        events@,
                        cells,
                        events@.len(),
                    );
                    &&& cells.len() == events@.len()
                    &&& ground_for_connections(map, events@, cells)
                    &&& final(state).players() == done.0
                    &&& views(out@) == done.1
                },
    {
        let mut cells: Vec<(i32, i32)> = Vec::new();
        let mut k: usize = 0;
        while k < events.len()
            invariant
                map.wf(),
                k <= events@.len(),
                cells@.len() == k,
                ground_for_connections(map, events@, cells@),
            decreases events@.len() - k,
        {
            let cell = match events[k] {
                ServerEvent::ClientConnected { .. } => map.get_random_spawn_position(),
                ServerEvent::ClientDisconnected { .. } => (0, 0),
            };
            cells.push(cell);
            k += 1;
        }
        Self::handle_events_at(state, map, events, &cells)
    }

    /// Handles the messages of a tick, in the order given.
    pub fn handle_messages(state: &mut ServerState, inbound: &Vec<Inbound>) -> (out: Vec<Outbound>)
        requires
            old(state).wf(),
        ensures
            final(state).wf(),
            ({
                let done = after_messages(
                    old(state).players(),
                    old(state).projectiles(),
                    inbound_views(inbound@),
                    inbound@.len(),
                );
                &&& final(state).players() == done.players
                &&& final(state).projectiles() == done.projectiles
                &&& views(out@) == done.out
            }),
    {
        let ghost players0 = state.players();
        let ghost projectiles0 = state.projectiles();
        let ghost heard = inbound_views(inbound@);
        let mut out: Vec<Outbound> = Vec::new();
        let mut k: usize = 0;
        assert(views(out@) =~= Seq::<OutboundView>::empty());
        while k < inbound.len()
            invariant
                state.wf(),
                heard == inbound_views(inbound@),
                k <= inbound@.len(),
                state.players() == after_messages(players0, projectiles0, heard, k as nat).players,
                state.projectiles() == after_messages(
                    players0,
                    projectiles0,
                    heard,
                    k as nat,
                ).projectiles,
                views(out@) == after_messages(players0, projectiles0, heard, k as nat).out,
            decreases inbound@.len() - k,
        {
            let m = &inbound[k];
            assert(heard[k as int] == inbound@[k as int]@);
            let more = state.handle_message(m.sender, m.channel, &m.packet);
            enqueue_all(&mut out, more);
            k += 1;
        }
        out
    }

    /// One tick with every cell given: the connection events, each
    /// admission at the cell of the same index, then the messages, then
    /// the pass over the projectiles with the spawn cell of the same
    /// index. Returns what is to be sent, in order.
    pub fn tick_with(
        state: &mut ServerState,
        map: &GameMap,
        events: &Vec<ServerEvent>,
        cells: &Vec<(i32, i32)>,
        inbound: &Vec<Inbound>,
        spawns: &Vec<(i32, i32)>,
    ) -> (out: Vec<Outbound>)
        requires
            old(state).wf(),
            map.wf(),
            cells@.len() == events@.len(),
            spawns@.len() >= old(state).projectiles().len() + inbound@.len(),
        ensures
            final(state).wf(),
            ({
                let done = tick_outcome(
                    map,
                    old(state).players(),
                    old(state).projectiles(),
                    events@,
                    cells@,
                    inbound_views(inbound@),
                    spawns@,
                );
                &&& final(state).players() == done.players
                &&& final(state).projectiles() == done.kept
                &&& views(out@) == done.out
            }),
    {
        let mut out = Self::handle_events_at(state, map, events, cells);
        let ghost players1 = state.players();
        let ghost projectiles1 = state.projectiles();
        let heard = Self::handle_messages(state, inbound);
        enqueue_all(&mut out, heard);
        proof {
            lemma_messages_add_at_most(
                players1,
                projectiles1,
                inbound_views(inbound@),
                inbound@.len(),
            );
        }
        let settled = state.resolve_with(map, spawns);
        enqueue_all(&mut out, settled);
        proof {
            let done = tick_outcome(
                map,
                old(state).players(),
                old(state).projectiles(),
                events@,
                cells@,
                inbound_views(inbound@),
                spawns@,
            );
            assert(views(out@) =~= done.out);
        }
        out
    }

    /// One tick: the connection events, then the messages, then the pass
    /// over the projectiles. Returns what is to be sent, in order. Chance
    /// enters where a player spawns; whatever is drawn, the outcome is
    /// that of `tick_with` for ground cells of the map.
    pub fn tick(
        state: &mut ServerState,
        map: &GameMap,
        events: &Vec<ServerEvent>,
        inbound: &Vec<Inbound>,
    ) -> (out: Vec<Outbound>)
        requires
            old(state).wf(),
            map.wf(),
        ensures
            final(state).wf(),
            exists|cells: Seq<(i32, i32)>, spawns: Seq<(i32, i32)>|
                {
                    let done = #[trigger] tick_outcome(
                        map,
                        old(state).players(),
                        old(state).projectiles(),
                        events@,
                        cells,
                        inbound_views(inbound@),
                        spawns,
                    );
                    &&& cells.len() == events@.len()
                    &&& ground_for_connections(map, events@, cells)
                    &&& all_ground(map, spawns)
                    &&& final(state).players() == done.players
                    &&& final(state).projectiles() == done.kept
                    &&& views(out@) == done.out
                },
    {
        let ghost players0 = state.players();
        let ghost projectiles0 = state.projectiles();
        let mut out = Self::handle_events(state, map, events);
        let ghost cells = choose|cells: Seq<(i32, i32)>|
            {
                let done = #[trigger] after_events(map, players0, events@, cells, events@.len());
                &&& cells.len() == events@.len()
                &&& ground_for_connections(map, events@, cells)
                &&& state.players() == done.0
                &&& views(out@) == done.1
            };
        let heard = Self::handle_messages(state, inbound);
        enqueue_all(&mut out, heard);
        let ghost players2 = state.players();
        let ghost projectiles2 = state.projectiles();
        let settled = state.resolve(map);
        let ghost spawns = choose|spawns: Seq<(i32, i32)>|
            {
                let done = #[trigger] pass(
                    map,
                    players2,
                    projectiles2,
                    spawns,
                    projectiles2.len(),
                );
                &&& spawns.len() == projectiles2.len()
                &&& all_ground(map, spawns)
                &&& state.players() == done.players
                &&& state.projectiles() == done.kept
                &&& views(settled@) == done.out
            };
        enqueue_all(&mut out, settled);
        proof {
            let done = tick_outcome(
                map,
                players0,
                projectiles0,
                events@,
                cells,
                inbound_views(inbound@),
                spawns,
            );
            assert(views(out@) =~= done.out);
        }
        out
    }
}

} // verus!
