//! What the server does with each message of a client.
use vstd::prelude::*;
use crate::configs::{RawClientId, ENTITY_PROJECTILE_SPEED};
use crate::geometry::{cell_index, cell_of, in_world, is_in_world};
use crate::network::{
    enqueue,
    outbound,
    views,
    Channel,
    GameNetworkPacket,
    Outbound,
    OutboundView,
    PacketView,
    ProjectileData,
    Recipient,
};
use crate::player::{lemma_rules_keep_ranges, Client};
use crate::search::lemma_first_where;
use crate::server::{
    find_player,
    find_projectile,
    has_id,
    has_projectile_id,
    lemma_update_keeps_ok,
    players_ok,
    projectiles_ok,
    speed_ok,
    ServerState,
};
use crate::weapon::WeaponVariant;

verus! {

/// The registries after a message, and what is to be sent.
pub struct Reaction {
    pub players: Seq<Client>,
    pub projectiles: Seq<ProjectileData>,
    pub out: Seq<OutboundView>,
}

/// A message that changes nothing and is answered by nothing.
pub open spec fn ignored(players: Seq<Client>, projectiles: Seq<ProjectileData>) -> Reaction {
    Reaction { players, projectiles, out: Seq::empty() }
}

/// A position report: the sender moves there, and everyone else is told.
/// A position outside the world is dropped.
pub open spec fn on_position(
    players: Seq<Client>,
    projectiles: Seq<ProjectileData>,
    sender: RawClientId,
    position: (i64, i64),
) -> Reaction {
    match find_player(players, sender) {
        Some(i) => if Client::position_ok(position) {
            Reaction {
                players: players.update(i, players[i].moved(position)),
                projectiles,
                out: seq![
                    outbound(
                        Recipient::AllExcept(sender),
                        Channel::ReliableUnordered,
                        PacketView::NET_PLAYER_WORLD_POSITION(sender, position),
                    ),
                ],
            }
        } else {
            ignored(players, projectiles)
        },
        None => ignored(players, projectiles),
    }
}

/// An orientation report: the sender turns, and everyone else is told,
/// best effort.
pub open spec fn on_orientation(
    players: Seq<Client>,
    projectiles: Seq<ProjectileData>,
    sender: RawClientId,
    orientation: i32,
) -> Reaction {
    match find_player(players, sender) {
        Some(i) => Reaction {
            players: players.update(i, players[i].turned(orientation)),
            projectiles,
            out: seq![
                outbound(
                    Recipient::AllExcept(sender),
                    Channel::Unreliable,
                    PacketView::NET_PLAYER_ORIENTATION(sender, orientation),
                ),
            ],
        },
        None => ignored(players, projectiles),
    }
}

/// A purchase request: granted once per weapon and only if the cash
/// covers the price; the buyer alone is told. A refused request is
/// passed over in silence.
pub open spec fn on_purchase(
    players: Seq<Client>,
    projectiles: Seq<ProjectileData>,
    sender: RawClientId,
    variant: WeaponVariant,
) -> Reaction {
    match find_player(players, sender) {
        Some(i) => if players[i].can_buy(variant) {
            Reaction {
                players: players.update(i, players[i].bought(variant)),
                projectiles,
                out: seq![
                    outbound(
                        Recipient::To(sender),
                        Channel::ReliableUnordered,
                        PacketView::NET_PLAYER_WEAPON_RESPONSE(variant),
                    ),
                ],
            }
        } else {
            ignored(players, projectiles)
        },
        None => ignored(players, projectiles),
    }
}

/// A weapon selection: an owned weapon is taken in hand and everyone
/// else is told. A weapon that is not owned is not selected.
pub open spec fn on_select(
    players: Seq<Client>,
    projectiles: Seq<ProjectileData>,
    sender: RawClientId,
    variant: WeaponVariant,
) -> Reaction {
    match find_player(players, sender) {
        Some(i) => if players[i].inventory.has_spec(variant) {
            Reaction {
                players: players.update(i, players[i].equipped(variant)),
                projectiles,
                out: seq![
                    outbound(
                        Recipient::AllExcept(sender),
                        Channel::ReliableUnordered,
                        PacketView::NET_PLAYER_WEAPON_SELECT(sender, variant),
                    ),
                ],
            }
        } else {
            ignored(players, projectiles)
        },
        None => ignored(players, projectiles),
    }
}

/// A fire request is taken if the sender names itself as shooter, the
/// projectile starts in the world and is no faster than allowed, and its
/// id is not live.
pub open spec fn fire_ok(projectiles: Seq<ProjectileData>, sender: RawClientId, p: ProjectileData) -> bool {
    &&& p.shooter == sender
    &&& in_world(p.position.0 as int)
    &&& in_world(p.position.1 as int)
    &&& speed_ok(p.velocity.0 as int)
    &&& speed_ok(p.velocity.1 as int)
    &&& find_projectile(projectiles, p.id) is None
}

/// The projectile as the server keeps it: the damage is that of the
/// weapon in the shooter's hand, the cell is the one nearest to the position.
pub open spec fn fired(shooter: Client, p: ProjectileData) -> ProjectileData {
    ProjectileData {
        damage: shooter.data.weapon.stats_spec().damage,
        grid: (cell_index(p.position.0 as int) as i32, cell_index(p.position.1 as int) as i32),
        ..p
    }
}

/// A fire request: the projectile goes live and everyone is told, in order.
pub open spec fn on_fire(
    players: Seq<Client>,
    projectiles: Seq<ProjectileData>,
    sender: RawClientId,
    p: ProjectileData,
) -> Reaction {
    match find_player(players, sender) {
        Some(i) => if fire_ok(projectiles, sender, p) {
            Reaction {
                players,
                projectiles: projectiles.push(fired(players[i], p)),
                out: seq![
                    outbound(
                        Recipient::All,
                        Channel::ReliableOrdered,
                        PacketView::NET_PROJECTILE_CREATE(fired(players[i], p)),
                    ),
                ],
            }
        } else {
            ignored(players, projectiles)
        },
        None => ignored(players, projectiles),
    }
}

/// What a message does, by the channel it came on and its kind. A kind
/// that does not belong on the channel, or that only the server sends,
/// is dropped.
pub open spec fn reaction(
    players: Seq<Client>,
    projectiles: Seq<ProjectileData>,
    sender: RawClientId,
    channel: Channel,
    packet: PacketView,
) -> Reaction {
    match (channel, packet) {
        (Channel::ReliableOrdered, PacketView::NET_PROJECTILE_CREATE(p)) => on_fire(
            players,
            projectiles,
            sender,
            p,
        ),
        (Channel::ReliableUnordered, PacketView::NET_PLAYER_WORLD_POSITION(_, position)) => {
            on_position(players, projectiles, sender, position)
        },
        (Channel::ReliableUnordered, PacketView::NET_PLAYER_WEAPON_REQUEST(_, variant)) => {
            on_purchase(players, projectiles, sender, variant)
        },
        (Channel::ReliableUnordered, PacketView::NET_PLAYER_WEAPON_SELECT(_, variant)) => {
            on_select(players, projectiles, sender, variant)
        },
        (Channel::Unreliable, PacketView::NET_PLAYER_ORIENTATION(_, orientation)) => {
            on_orientation(players, projectiles, sender, orientation)
        },
        _ => ignored(players, projectiles),
    }
}

/// Whatever a client sends, on whatever channel, both registries stay
/// sound: every player's health and cash are within their ranges, the
/// weapon in hand is owned, and no id is taken twice.
pub proof fn lemma_reaction_keeps_ok(
    players: Seq<Client>,
    projectiles: Seq<ProjectileData>,
    sender: RawClientId,
    channel: Channel,
    packet: PacketView,
)
    requires
        players_ok(players),
        projectiles_ok(projectiles),
    ensures
        players_ok(reaction(players, projectiles, sender, channel, packet).players),
        projectiles_ok(reaction(players, projectiles, sender, channel, packet).projectiles),
{
    lemma_first_where(players.len() as int, has_id(players, sender));
    let after = reaction(players, projectiles, sender, channel, packet);
    match find_player(players, sender) {
        Some(i) => {
            let c = players[i];
            assert(c.wf());
            lemma_rules_keep_ranges(c, sender, 0, (0, 0), WeaponVariant::DEAN_1911);
            match (channel, packet) {
                (Channel::ReliableOrdered, PacketView::NET_PROJECTILE_CREATE(p)) => {
                    if fire_ok(projectiles, sender, p) {
                        let stored = fired(c, p);
                        lemma_first_where(
                            projectiles.len() as int,
                            has_projectile_id(projectiles, p.id),
                        );
                        let grown = projectiles.push(stored);
                        assert forall|a: int, b: int| 0 <= a < b < grown.len() implies (
                        #[trigger] grown[a]).id != (#[trigger] grown[b]).id by {
                            if b == projectiles.len() {
                                assert(!has_projectile_id(projectiles, p.id)(a));
                            } else {
                                assert(projectiles[a].id != projectiles[b].id);
                            }
                        }
                    }
                },
                (Channel::ReliableUnordered, PacketView::NET_PLAYER_WORLD_POSITION(_, position)) => {
                    if Client::position_ok(position) {
                        lemma_update_keeps_ok(players, i, c.moved(position));
                    }
                },
                (Channel::ReliableUnordered, PacketView::NET_PLAYER_WEAPON_REQUEST(_, variant)) => {
                    if c.can_buy(variant) {
                        lemma_rules_keep_ranges(c, sender, 0, (0, 0), variant);
                        lemma_update_keeps_ok(players, i, c.bought(variant));
                    }
                },
                (Channel::ReliableUnordered, PacketView::NET_PLAYER_WEAPON_SELECT(_, variant)) => {
                    if c.inventory.has_spec(variant) {
                        lemma_rules_keep_ranges(c, sender, 0, (0, 0), variant);
                        lemma_update_keeps_ok(players, i, c.equipped(variant));
                    }
                },
                (Channel::Unreliable, PacketView::NET_PLAYER_ORIENTATION(_, orientation)) => {
                    lemma_update_keeps_ok(players, i, c.turned(orientation));
                },
                _ => {},
            }
        },
        None => {},
    }
}

/// The state and the queue are what `r` says.
pub open spec fn matches_reaction(state: &ServerState, out: Seq<Outbound>, r: Reaction) -> bool {
    &&& state.players() == r.players
    &&& state.projectiles() == r.projectiles
    &&& views(out) == r.out
}

impl ServerState {
    /// Moves the sender and relays the position to everyone else.
    pub fn move_player(&mut self, sender: RawClientId, position: (i64, i64)) -> (out: Vec<Outbound>)
        requires
            old(self).wf(),
        ensures
            final(self).wf(),
            matches_reaction(
                final(self),
                out@,
                on_position(old(self).players(), old(self).projectiles(), sender, position),
            ),
    {
        let mut out: Vec<Outbound> = Vec::new();
        if let Some(i) = self.index_of(sender) {
            let mut c = self.player_at(i);
            if c.move_to(position) {
                self.set_player(i, c);
                enqueue(
                    &mut out,
                    Recipient::AllExcept(sender),
                    Channel::ReliableUnordered,
                    GameNetworkPacket::NET_PLAYER_WORLD_POSITION(sender, position),
                );
            }
        }
        assert(views(out@) =~= on_position(
            old(self).players(),
            old(self).projectiles(),
            sender,
            position,
        ).out);
        out
    }

    /// Turns the sender and relays the orientation to everyone else.
    pub fn turn_player(&mut self, sender: RawClientId, orientation: i32) -> (out: Vec<Outbound>)
        requires
            old(self).wf(),
        ensures
            final(self).wf(),
            matches_reaction(
                final(self),
                out@,
                on_orientation(old(self).players(), old(self).projectiles(), sender, orientation),
            ),
    {
        let mut out: Vec<Outbound> = Vec::new();
        if let Some(i) = self.index_of(sender) {
            let mut c = self.player_at(i);
            c.turn_to(orientation);
            self.set_player(i, c);
            enqueue(
                &mut out,
                Recipient::AllExcept(sender),
                Channel::Unreliable,
                GameNetworkPacket::NET_PLAYER_ORIENTATION(sender, orientation),
            );
        }
        assert(views(out@) =~= on_orientation(
            old(self).players(),
            old(self).projectiles(),
            sender,
            orientation,
        ).out);
        out
    }

    /// Sells a weapon to the sender, if the purchase is allowed.
    pub fn buy_weapon(&mut self, sender: RawClientId, variant: WeaponVariant) -> (out: Vec<Outbound>)
        requires
            old(self).wf(),
        ensures
            final(self).wf(),
            matches_reaction(
                final(self),
                out@,
                on_purchase(old(self).players(), old(self).projectiles(), sender, variant),
            ),
    {
        let mut out: Vec<Outbound> = Vec::new();
        if let Some(i) = self.index_of(sender) {
            let mut c = self.player_at(i);
            if c.purchase(variant) {
                self.set_player(i, c);
                enqueue(
                    &mut out,
                    Recipient::To(sender),
                    Channel::ReliableUnordered,
                    GameNetworkPacket::NET_PLAYER_WEAPON_RESPONSE(variant),
                );
            }
        }
        assert(views(out@) =~= on_purchase(
            old(self).players(),
            old(self).projectiles(),
            sender,
            variant,
        ).out);
        out
    }

    /// Puts an owned weapon in the sender's hand and tells everyone else.
    pub fn select_weapon(&mut self, sender: RawClientId, variant: WeaponVariant) -> (out: Vec<
        Outbound,
    >)
        requires
            old(self).wf(),
        ensures
            final(self).wf(),
            matches_reaction(
                final(self),
                out@,
                on_select(old(self).players(), old(self).projectiles(), sender, variant),
            ),
    {
        let mut out: Vec<Outbound> = Vec::new();
        if let Some(i) = self.index_of(sender) {
            let mut c = self.player_at(i);
            if c.equip(variant) {
                self.set_player(i, c);
                enqueue(
                    &mut out,
                    Recipient::AllExcept(sender),
                    Channel::ReliableUnordered,
                    GameNetworkPacket::NET_PLAYER_WEAPON_SELECT(sender, variant),
                );
            }
        }
        assert(views(out@) =~= on_select(
            old(self).players(),
            old(self).projectiles(),
            sender,
            variant,
        ).out);
        out
    }

    /// Takes a fire request of the sender: the projectile goes live with
    /// the damage of the weapon in the sender's hand.
    pub fn fire(&mut self, sender: RawClientId, p: ProjectileData) -> (out: Vec<Outbound>)
        requires
            old(self).wf(),
        ensures
            final(self).wf(),
            matches_reaction(
                final(self),
                out@,
                on_fire(old(self).players(), old(self).projectiles(), sender, p),
            ),
    {
        let mut out: Vec<Outbound> = Vec::new();
        if let Some(i) = self.index_of(sender) {
            if p.shooter == sender && is_in_world(p.position.0) && is_in_world(p.position.1)
                && -ENTITY_PROJECTILE_SPEED <= p.velocity.0 && p.velocity.0
                <= ENTITY_PROJECTILE_SPEED && -ENTITY_PROJECTILE_SPEED <= p.velocity.1
                && p.velocity.1 <= ENTITY_PROJECTILE_SPEED && self.projectile_index_of(
                p.id,
            ).is_none() {
                let shooter = self.player_at(i);
                let stored = ProjectileData {
                    id: p.id,
                    position: p.position,
                    velocity: p.velocity,
                    grid: (cell_of(p.position.0) as i32, cell_of(p.position.1) as i32),
                    orientation: p.orientation,
                    shooter: p.shooter,
                    damage: *shooter.data.weapon.stats().damage(),
                };
                self.add_projectile(stored);
                enqueue(
                    &mut out,
                    Recipient::All,
                    Channel::ReliableOrdered,
                    GameNetworkPacket::NET_PROJECTILE_CREATE(stored),
                );
            }
        }
        assert(views(out@) =~= on_fire(old(self).players(), old(self).projectiles(), sender, p).out);
        out
    }

    /// Handles one message of `sender` that came on `channel`.
    pub fn handle_message(
        &mut self,
        sender: RawClientId,
        channel: Channel,
        packet: &GameNetworkPacket,
    ) -> (out: Vec<Outbound>)
        requires
            old(self).wf(),
        ensures
            final(self).wf(),
            matches_reaction(
                final(self),
                out@,
                reaction(old(self).players(), old(self).projectiles(), sender, channel, packet@),
            ),
    {
        match (channel, packet) {
            (Channel::ReliableOrdered, GameNetworkPacket::NET_PROJECTILE_CREATE(p)) => self.fire(
                sender,
                *p,
            ),
            (Channel::ReliableUnordered, GameNetworkPacket::NET_PLAYER_WORLD_POSITION(_, position)) => {
                self.move_player(sender, *position)
            },
            (Channel::ReliableUnordered, GameNetworkPacket::NET_PLAYER_WEAPON_REQUEST(_, variant)) => {
                self.buy_weapon(sender, *variant)
            },
            (Channel::ReliableUnordered, GameNetworkPacket::NET_PLAYER_WEAPON_SELECT(_, variant)) => {
                self.select_weapon(sender, *variant)
            },
            (Channel::Unreliable, GameNetworkPacket::NET_PLAYER_ORIENTATION(_, orientation)) => {
                self.turn_player(sender, *orientation)
            },
            _ => {
                let out: Vec<Outbound> = Vec::new();
                assert(views(out@) =~= Seq::<OutboundView>::empty());
                out
            },
        }
    }
}

} // verus!
