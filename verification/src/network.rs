//! The message taxonomy and the records that travel in it.
use vstd::prelude::*;
use crate::configs::{Cash, Damage, Health, RawClientId, RawProjectileId};
use crate::tile::TileVariant;
use crate::weapon::WeaponVariant;

verus! {

/// What everyone may know of a player. Positions are world coordinates,
/// the orientation is in thousandths of a radian.
#[derive(Debug, Clone, Copy, PartialEq, Eq)]
pub struct PlayerData {
    /// raw player id
    pub _id: RawClientId,
    /// last one who hit the player
    pub _last: Option<RawClientId>,
    pub position: (i64, i64),
    pub orientation: i32,
    pub weapon: WeaponVariant,
    pub health: Health,
    pub cash: Cash,
}

/// A projectile in flight. The velocity is the displacement of one tick.
#[derive(Debug, Clone, Copy, PartialEq, Eq)]
pub struct ProjectileData {
    pub id: RawProjectileId,
    pub position: (i64, i64),
    pub velocity: (i64, i64),
    pub grid: (i32, i32),
    pub orientation: i32,
    pub shooter: RawClientId,
    pub damage: Damage,
}

/// The three delivery classes of the transport.
#[derive(Debug, Clone, Copy, PartialEq, Eq, Structural)]
pub enum Channel {
    /// Exactly once, in the order sent.
    ReliableOrdered,
    /// Exactly once, in any order.
    ReliableUnordered,
    /// Best effort.
    Unreliable,
}

/// Who is to receive an outbound message.
#[derive(Debug, Clone, Copy, PartialEq, Eq, Structural)]
pub enum Recipient {
    To(RawClientId),
    All,
    AllExcept(RawClientId),
}

/// Every message that server and clients exchange.
#[derive(Debug, PartialEq, Eq)]
pub enum GameNetworkPacket {
    NET_WORLD_MAP(Vec<((i32, i32), TileVariant)>),
    NET_WORLD_PLAYERS(Vec<(u64, PlayerData)>),
    NET_PLAYER_JOINED(PlayerData),
    NET_PLAYER_DIED(RawClientId),
    NET_PLAYER_RESPAWN(RawClientId, PlayerData),
    NET_PLAYER_KILL_REWARD(PlayerData),
    NET_PLAYER_GRID_POSITION(RawClientId, (i32, i32)),
    NET_PLAYER_WORLD_POSITION(RawClientId, (i64, i64)),
    NET_PLAYER_ORIENTATION(u64, i32),
    NET_PLAYER_LEFT(RawClientId),
    NET_PLAYER_WEAPON_REQUEST(Cash, WeaponVariant),
    NET_PLAYER_WEAPON_RESPONSE(WeaponVariant),
    NET_PLAYER_WEAPON_SELECT(RawClientId, WeaponVariant),
    NET_PROJECTILE_CREATE(ProjectileData),
    NET_PROJECTILE_IMPACT(RawProjectileId, Option<RawClientId>, Damage),
}

/// A message as contracts see it: lists are sequences.
pub enum PacketView {
    NET_WORLD_MAP(Seq<((i32, i32), TileVariant)>),
    NET_WORLD_PLAYERS(Seq<(u64, PlayerData)>),
    NET_PLAYER_JOINED(PlayerData),
    NET_PLAYER_DIED(RawClientId),
    NET_PLAYER_RESPAWN(RawClientId, PlayerData),
    NET_PLAYER_KILL_REWARD(PlayerData),
    NET_PLAYER_GRID_POSITION(RawClientId, (i32, i32)),
    NET_PLAYER_WORLD_POSITION(RawClientId, (i64, i64)),
    NET_PLAYER_ORIENTATION(u64, i32),
    NET_PLAYER_LEFT(RawClientId),
    NET_PLAYER_WEAPON_REQUEST(Cash, WeaponVariant),
    NET_PLAYER_WEAPON_RESPONSE(WeaponVariant),
    NET_PLAYER_WEAPON_SELECT(RawClientId, WeaponVariant),
    NET_PROJECTILE_CREATE(ProjectileData),
    NET_PROJECTILE_IMPACT(RawProjectileId, Option<RawClientId>, Damage),
}

impl View for GameNetworkPacket {
    type V = PacketView;

    open spec fn view(&self) -> PacketView {
        match *self {
            GameNetworkPacket::NET_WORLD_MAP(tiles) => PacketView::NET_WORLD_MAP(tiles@),
            GameNetworkPacket::NET_WORLD_PLAYERS(players) => PacketView::NET_WORLD_PLAYERS(
                players@,
            ),
            GameNetworkPacket::NET_PLAYER_JOINED(p) => PacketView::NET_PLAYER_JOINED(p),
            GameNetworkPacket::NET_PLAYER_DIED(id) => PacketView::NET_PLAYER_DIED(id),
            GameNetworkPacket::NET_PLAYER_RESPAWN(id, p) => PacketView::NET_PLAYER_RESPAWN(id, p),
            GameNetworkPacket::NET_PLAYER_KILL_REWARD(p) => PacketView::NET_PLAYER_KILL_REWARD(p),
            GameNetworkPacket::NET_PLAYER_GRID_POSITION(id, c) => {
                PacketView::NET_PLAYER_GRID_POSITION(id, c)
            },
            GameNetworkPacket::NET_PLAYER_WORLD_POSITION(id, p) => {
                PacketView::NET_PLAYER_WORLD_POSITION(id, p)
            },
            GameNetworkPacket::NET_PLAYER_ORIENTATION(id, a) => PacketView::NET_PLAYER_ORIENTATION(
                id,
                a,
            ),
            GameNetworkPacket::NET_PLAYER_LEFT(id) => PacketView::NET_PLAYER_LEFT(id),
            GameNetworkPacket::NET_PLAYER_WEAPON_REQUEST(c, v) => {
                PacketView::NET_PLAYER_WEAPON_REQUEST(c, v)
            },
            GameNetworkPacket::NET_PLAYER_WEAPON_RESPONSE(v) => {
                PacketView::NET_PLAYER_WEAPON_RESPONSE(v)
            },
            GameNetworkPacket::NET_PLAYER_WEAPON_SELECT(id, v) => {
                PacketView::NET_PLAYER_WEAPON_SELECT(id, v)
            },
            GameNetworkPacket::NET_PROJECTILE_CREATE(p) => PacketView::NET_PROJECTILE_CREATE(p),
            GameNetworkPacket::NET_PROJECTILE_IMPACT(id, victim, damage) => {
                PacketView::NET_PROJECTILE_IMPACT(id, victim, damage)
            },
        }
    }
}

/// A message on its way out: to whom, on which channel, and what.
#[derive(Debug, PartialEq, Eq)]
pub struct Outbound {
    pub recipient: Recipient,
    pub channel: Channel,
    pub packet: GameNetworkPacket,
}

/// An outbound message as contracts see it.
pub struct OutboundView {
    pub recipient: Recipient,
    pub channel: Channel,
    pub packet: PacketView,
}

impl View for Outbound {
    type V = OutboundView;

    open spec fn view(&self) -> OutboundView {
        OutboundView { recipient: self.recipient, channel: self.channel, packet: self.packet@ }
    }
}

/// The messages of a queue, in order, as contracts see them.
pub open spec fn views(queue: Seq<Outbound>) -> Seq<OutboundView> {
    queue.map_values(|o: Outbound| o@)
}

/// An outbound message, as a value of contracts.
pub open spec fn outbound(recipient: Recipient, channel: Channel, packet: PacketView) -> OutboundView {
    OutboundView { recipient, channel, packet }
}

/// Puts one message at the end of a queue.
pub fn enqueue(queue: &mut Vec<Outbound>, recipient: Recipient, channel: Channel, packet: GameNetworkPacket)
    ensures
        views(final(queue)@) == views(old(queue)@).push(outbound(recipient, channel, packet@)),
{
    queue.push(Outbound { recipient, channel, packet });
    assert(views(queue@) =~= views(old(queue)@).push(outbound(recipient, channel, packet@)));
}

/// Moves every message of `more` to the end of `queue`, in order.
pub fn enqueue_all(queue: &mut Vec<Outbound>, more: Vec<Outbound>)
    ensures
        views(final(queue)@) == views(old(queue)@) + views(more@),
{
    let ghost tail = more@;
    let mut more = more;
    queue.append(&mut more);
    assert(views(queue@) =~= views(old(queue)@) + views(tail));
}

/// The display name in a join payload: the bytes before the first NUL.
/// A payload without NUL carries no name.
pub fn display_name(user_data: &[u8]) -> (r: Option<Vec<u8>>)
    ensures
        match r {
            Some(name) => {
                &&& name@.len() < user_data@.len()
                &&& user_data@[name@.len() as int] == 0
                &&& name@ == user_data@.subrange(0, name@.len() as int)
                &&& forall|i: int| 0 <= i < name@.len() ==> name@[i] != 0
            },
            None => forall|i: int| 0 <= i < user_data@.len() ==> user_data@[i] != 0,
        },
{
    let mut name: Vec<u8> = Vec::new();
    let mut i: usize = 0;
    while i < user_data.len()
        invariant
            i <= user_data@.len(),
            name@ == user_data@.subrange(0, i as int),
            forall|k: int| 0 <= k < i ==> user_data@[k] != 0,
        decreases user_data@.len() - i,
    {
        if user_data[i] == 0 {
            return Some(name);
        }
        name.push(user_data[i]);
        assert(name@ =~= user_data@.subrange(0, i + 1));
        i += 1;
    }
    None
}

} // verus!
