use piw_pew::network::{
    display_name, Channel, GameNetworkPacket, Outbound, PlayerData, ProjectileData, Recipient,
};
use piw_pew::server::{ServerEvent, ServerState};
use piw_pew::tick::{Inbound, Server};
use piw_pew::tile::{GameMap, TileVariant};
use piw_pew::weapon::WeaponVariant;

fn open_field() -> GameMap {
    GameMap::load("......\n......\n......\n").unwrap()
}

fn fresh(id: u64, position: (i64, i64)) -> PlayerData {
    PlayerData {
        _id: id,
        _last: None,
        position,
        orientation: 0,
        weapon: WeaponVariant::DEAN_1911,
        health: 100,
        cash: 200,
    }
}

fn shot(id: u64, shooter: u64) -> ProjectileData {
    ProjectileData {
        id,
        position: (70_000, 98_000),
        velocity: (50_000, 0),
        grid: (0, 0),
        orientation: 0,
        shooter,
        damage: 99,
    }
}

#[test]
fn default_state_is_empty() {
    let state = ServerState::default();
    assert_eq!(state.players_count(), 0);
    assert_eq!(state.projectiles_count(), 0);
    assert!(state.get_players_raw().is_empty());
    assert!(state.player(1).is_none());
}

#[test]
fn accept_sends_map_roster_and_news_in_order() {
    let map = GameMap::load("S.\n").unwrap();
    let mut state = ServerState::default();
    let first = state.accept_at(&map, 10, (1, 0));
    assert_eq!(
        first,
        vec![
            Outbound {
                recipient: Recipient::To(10),
                channel: Channel::ReliableOrdered,
                packet: GameNetworkPacket::NET_WORLD_MAP(vec![
                    ((0, 0), TileVariant::WALL_SIDE),
                    ((1, 0), TileVariant::GROUND),
                ]),
            },
            Outbound {
                recipient: Recipient::To(10),
                channel: Channel::ReliableOrdered,
                packet: GameNetworkPacket::NET_WORLD_PLAYERS(vec![]),
            },
            Outbound {
                recipient: Recipient::AllExcept(10),
                channel: Channel::ReliableOrdered,
                packet: GameNetworkPacket::NET_PLAYER_JOINED(fresh(10, (70_000, 0))),
            },
        ]
    );
    let second = state.accept_at(&map, 11, (1, 0));
    assert_eq!(second.len(), 3);
    assert_eq!(
        second[1].packet,
        GameNetworkPacket::NET_WORLD_PLAYERS(vec![(10, fresh(10, (70_000, 0)))])
    );
    assert_eq!(second[2].recipient, Recipient::AllExcept(11));
    assert_eq!(state.players_count(), 2);
    assert_eq!(
        state.get_players_raw(),
        vec![(10, fresh(10, (70_000, 0))), (11, fresh(11, (70_000, 0)))]
    );
}

#[test]
fn accept_twice_changes_nothing() {
    let map = open_field();
    let mut state = ServerState::default();
    state.accept_at(&map, 1, (0, 0));
    let again = state.accept_at(&map, 1, (3, 1));
    assert!(again.is_empty());
    assert_eq!(state.players_count(), 1);
    assert_eq!(state.player(1).unwrap().data.position, (0, 0));
}

#[test]
fn accept_draws_a_ground_cell() {
    let map = GameMap::load("SSS\nS.S\nSSS\n").unwrap();
    let mut state = ServerState::default();
    let out = state.accept(&map, 4);
    assert_eq!(out.len(), 3);
    assert_eq!(state.player(4).unwrap().data.position, (70_000, 70_000));
}

#[test]
fn disconnect_removes_and_tells_everyone() {
    let map = open_field();
    let mut state = ServerState::default();
    state.accept_at(&map, 1, (0, 0));
    state.accept_at(&map, 2, (1, 0));
    state.accept_at(&map, 3, (2, 0));
    let out = state.disconnect(2);
    assert_eq!(
        out,
        vec![Outbound {
            recipient: Recipient::All,
            channel: Channel::ReliableUnordered,
            packet: GameNetworkPacket::NET_PLAYER_LEFT(2),
        }]
    );
    assert_eq!(state.players_count(), 2);
    assert!(state.player(2).is_none());
    assert_eq!(state.player_at(0).id, 1);
    assert_eq!(state.player_at(1).id, 3);
    assert!(state.disconnect(2).is_empty());
    assert_eq!(state.players_count(), 2);
}

#[test]
fn position_is_stored_and_relayed_to_the_others() {
    let map = open_field();
    let mut state = ServerState::default();
    state.accept_at(&map, 1, (0, 0));
    let out = state.handle_message(
        1,
        Channel::ReliableUnordered,
        &GameNetworkPacket::NET_PLAYER_WORLD_POSITION(999, (12_345, -6_789)),
    );
    assert_eq!(
        out,
        vec![Outbound {
            recipient: Recipient::AllExcept(1),
            channel: Channel::ReliableUnordered,
            packet: GameNetworkPacket::NET_PLAYER_WORLD_POSITION(1, (12_345, -6_789)),
        }]
    );
    assert_eq!(state.player(1).unwrap().data.position, (12_345, -6_789));
}

#[test]
fn position_outside_the_world_is_dropped() {
    let map = open_field();
    let mut state = ServerState::default();
    state.accept_at(&map, 1, (0, 0));
    let out = state.move_player(1, (i64::MAX, 0));
    assert!(out.is_empty());
    assert_eq!(state.player(1).unwrap().data.position, (0, 0));
}

#[test]
fn orientation_is_stored_and_relayed_unreliably() {
    let map = open_field();
    let mut state = ServerState::default();
    state.accept_at(&map, 1, (0, 0));
    let out = state.handle_message(
        1,
        Channel::Unreliable,
        &GameNetworkPacket::NET_PLAYER_ORIENTATION(1, -3141),
    );
    assert_eq!(
        out,
        vec![Outbound {
            recipient: Recipient::AllExcept(1),
            channel: Channel::Unreliable,
            packet: GameNetworkPacket::NET_PLAYER_ORIENTATION(1, -3141),
        }]
    );
    assert_eq!(state.player(1).unwrap().data.orientation, -3141);
}

#[test]
fn message_on_the_wrong_channel_is_dropped() {
    let map = open_field();
    let mut state = ServerState::default();
    state.accept_at(&map, 1, (0, 0));
    assert!(state
        .handle_message(
            1,
            Channel::ReliableOrdered,
            &GameNetworkPacket::NET_PLAYER_ORIENTATION(1, 5)
        )
        .is_empty());
    assert!(state
        .handle_message(
            1,
            Channel::Unreliable,
            &GameNetworkPacket::NET_PLAYER_WORLD_POSITION(1, (5, 5))
        )
        .is_empty());
    assert!(state
        .handle_message(
            1,
            Channel::ReliableUnordered,
            &GameNetworkPacket::NET_PROJECTILE_CREATE(shot(1, 1))
        )
        .is_empty());
    let c = state.player(1).unwrap();
    assert_eq!(c.data.orientation, 0);
    assert_eq!(c.data.position, (0, 0));
    assert_eq!(state.projectiles_count(), 0);
}

#[test]
fn server_only_messages_are_dropped() {
    let map = open_field();
    let mut state = ServerState::default();
    state.accept_at(&map, 1, (0, 0));
    for channel in [Channel::ReliableOrdered, Channel::ReliableUnordered, Channel::Unreliable] {
        assert!(state
            .handle_message(1, channel, &GameNetworkPacket::NET_PLAYER_DIED(1))
            .is_empty());
        assert!(state
            .handle_message(1, channel, &GameNetworkPacket::NET_PLAYER_LEFT(1))
            .is_empty());
        assert!(state
            .handle_message(
                1,
                channel,
                &GameNetworkPacket::NET_PLAYER_KILL_REWARD(fresh(1, (0, 0)))
            )
            .is_empty());
    }
    assert_eq!(state.get_players_raw(), vec![(1, fresh(1, (0, 0)))]);
}

#[test]
fn message_of_an_unknown_sender_is_dropped() {
    let mut state = ServerState::default();
    assert!(state.move_player(1, (0, 0)).is_empty());
    assert!(state.turn_player(1, 1).is_empty());
    assert!(state.buy_weapon(1, WeaponVariant::AKA_69).is_empty());
    assert!(state.select_weapon(1, WeaponVariant::DEAN_1911).is_empty());
    assert!(state.fire(1, shot(1, 1)).is_empty());
    assert_eq!(state.projectiles_count(), 0);
}

#[test]
fn purchase_without_the_cash_is_passed_over() {
    let map = open_field();
    let mut state = ServerState::default();
    state.accept_at(&map, 1, (0, 0));
    let out = state.handle_message(
        1,
        Channel::ReliableUnordered,
        &GameNetworkPacket::NET_PLAYER_WEAPON_REQUEST(999_999, WeaponVariant::SHOTPEW),
    );
    assert!(out.is_empty());
    let c = state.player(1).unwrap();
    assert_eq!(c.data.cash, 200);
    assert!(!c.inventory.has(&WeaponVariant::SHOTPEW));
}

#[test]
fn select_needs_an_owned_weapon() {
    let map = open_field();
    let mut state = ServerState::default();
    state.accept_at(&map, 1, (0, 0));
    assert!(state.select_weapon(1, WeaponVariant::PRRR).is_empty());
    assert_eq!(state.player(1).unwrap().data.weapon, WeaponVariant::DEAN_1911);
    let out = state.handle_message(
        1,
        Channel::ReliableUnordered,
        &GameNetworkPacket::NET_PLAYER_WEAPON_SELECT(77, WeaponVariant::DEAN_1911),
    );
    assert_eq!(
        out,
        vec![Outbound {
            recipient: Recipient::AllExcept(1),
            channel: Channel::ReliableUnordered,
            packet: GameNetworkPacket::NET_PLAYER_WEAPON_SELECT(1, WeaponVariant::DEAN_1911),
        }]
    );
}

#[test]
fn fire_stores_the_projectile_with_the_weapon_damage() {
    let map = open_field();
    let mut state = ServerState::default();
    state.accept_at(&map, 1, (0, 0));
    let out = state.handle_message(
        1,
        Channel::ReliableOrdered,
        &GameNetworkPacket::NET_PROJECTILE_CREATE(shot(55, 1)),
    );
    let stored = ProjectileData {
        id: 55,
        position: (70_000, 98_000),
        velocity: (50_000, 0),
        grid: (1, 1),
        orientation: 0,
        shooter: 1,
        damage: 25,
    };
    assert_eq!(
        out,
        vec![Outbound {
            recipient: Recipient::All,
            channel: Channel::ReliableOrdered,
            packet: GameNetworkPacket::NET_PROJECTILE_CREATE(stored),
        }]
    );
    assert_eq!(state.projectiles_raw(), vec![stored]);
    assert_eq!(state.projectile_at(0), stored);
}

#[test]
fn fire_is_refused_for_bad_requests() {
    let map = open_field();
    let mut state = ServerState::default();
    state.accept_at(&map, 1, (0, 0));
    state.accept_at(&map, 2, (1, 0));
    // somebody else's name
    assert!(state.fire(1, shot(5, 2)).is_empty());
    // too fast
    let mut fast = shot(5, 1);
    fast.velocity = (50_001, 0);
    assert!(state.fire(1, fast).is_empty());
    fast.velocity = (0, -50_001);
    assert!(state.fire(1, fast).is_empty());
    // outside the world
    let mut far = shot(5, 1);
    far.position = (0, i64::MIN);
    assert!(state.fire(1, far).is_empty());
    assert_eq!(state.projectiles_count(), 0);
    // an id that is live
    assert_eq!(state.fire(1, shot(5, 1)).len(), 1);
    assert!(state.fire(1, shot(5, 1)).is_empty());
    assert!(state.fire(2, shot(5, 2)).is_empty());
    assert_eq!(state.projectiles_count(), 1);
}

#[test]
fn messages_are_handled_in_order() {
    let map = open_field();
    let mut state = ServerState::default();
    state.accept_at(&map, 1, (0, 0));
    let inbound = vec![
        Inbound {
            sender: 1,
            channel: Channel::ReliableUnordered,
            packet: GameNetworkPacket::NET_PLAYER_WORLD_POSITION(1, (10, 10)),
        },
        Inbound {
            sender: 2,
            channel: Channel::ReliableUnordered,
            packet: GameNetworkPacket::NET_PLAYER_WORLD_POSITION(2, (30, 30)),
        },
        Inbound {
            sender: 1,
            channel: Channel::ReliableUnordered,
            packet: GameNetworkPacket::NET_PLAYER_WORLD_POSITION(1, (20, 20)),
        },
    ];
    let out = Server::handle_messages(&mut state, &inbound);
    assert_eq!(out.len(), 2);
    assert_eq!(out[0].packet, GameNetworkPacket::NET_PLAYER_WORLD_POSITION(1, (10, 10)));
    assert_eq!(out[1].packet, GameNetworkPacket::NET_PLAYER_WORLD_POSITION(1, (20, 20)));
    assert_eq!(state.player(1).unwrap().data.position, (20, 20));
}

#[test]
fn events_are_handled_in_order() {
    let map = GameMap::load("S.S\n").unwrap();
    let mut state = ServerState::default();
    let events = vec![
        ServerEvent::ClientConnected { client_id: 1 },
        ServerEvent::ClientConnected { client_id: 2 },
        ServerEvent::ClientDisconnected { client_id: 1 },
        ServerEvent::ClientDisconnected { client_id: 9 },
    ];
    let out = Server::handle_events(&mut state, &map, &events);
    assert_eq!(out.len(), 7);
    assert_eq!(out[6].packet, GameNetworkPacket::NET_PLAYER_LEFT(1));
    assert_eq!(state.get_players_raw(), vec![(2, fresh(2, (70_000, 0)))]);
}

#[test]
fn tick_joins_hears_and_resolves() {
    let map = open_field();
    let mut state = ServerState::default();
    let events = vec![ServerEvent::ClientConnected { client_id: 1 }];
    let inbound = vec![
        Inbound {
            sender: 1,
            channel: Channel::ReliableUnordered,
            packet: GameNetworkPacket::NET_PLAYER_WORLD_POSITION(1, (0, 0)),
        },
        Inbound {
            sender: 1,
            channel: Channel::ReliableOrdered,
            packet: GameNetworkPacket::NET_PROJECTILE_CREATE(shot(8, 1)),
        },
    ];
    let out = Server::tick(&mut state, &map, &events, &inbound);
    assert_eq!(out.len(), 5);
    assert_eq!(state.players_count(), 1);
    assert_eq!(state.projectiles_count(), 1);
    assert_eq!(state.projectile_at(0).position, (120_000, 98_000));
    assert_eq!(state.projectile_at(0).grid, (2, 1));
    let none: Vec<ServerEvent> = Vec::new();
    let quiet: Vec<Inbound> = Vec::new();
    for _ in 0..5 {
        assert!(Server::tick(&mut state, &map, &none, &quiet).is_empty());
    }
    assert_eq!(state.projectile_at(0).position, (370_000, 98_000));
    // x = 420000 belongs to cell 6, which the map does not have
    let out = Server::tick(&mut state, &map, &none, &quiet);
    assert_eq!(out.len(), 1);
    assert_eq!(out[0].packet, GameNetworkPacket::NET_PROJECTILE_IMPACT(8, None, 25));
    assert_eq!(state.projectiles_count(), 0);
}

#[test]
fn display_name_ends_at_the_first_nul() {
    let mut buffer = [0u8; 255];
    buffer[..3].copy_from_slice(b"bob");
    buffer[10] = b'x';
    assert_eq!(display_name(&buffer), Some(b"bob".to_vec()));
    assert_eq!(display_name(&[0u8]), Some(vec![]));
    assert_eq!(display_name(b"no end"), None);
    assert_eq!(display_name(&[]), None);
}

#[test]
fn two_players_duel_through_whole_ticks() {
    let map = open_field();
    let mut state = ServerState::default();
    let events = vec![
        ServerEvent::ClientConnected { client_id: 1 },
        ServerEvent::ClientConnected { client_id: 2 },
    ];
    let inbound = vec![Inbound {
        sender: 1,
        channel: Channel::ReliableOrdered,
        packet: GameNetworkPacket::NET_PROJECTILE_CREATE(shot(8, 1)),
    }];
    let spawn = vec![(0, 0)];
    let out = Server::tick_with(&mut state, &map, &events, &vec![(0, 1), (4, 1)], &inbound, &spawn);
    // three messages for each newcomer, then the shot
    assert_eq!(out.len(), 7);
    assert_eq!(out[0].recipient, Recipient::To(1));
    assert_eq!(out[3].recipient, Recipient::To(2));
    assert_eq!(
        out[4].packet,
        GameNetworkPacket::NET_WORLD_PLAYERS(vec![(1, fresh(1, (0, 70_000)))])
    );
    assert_eq!(out[5].packet, GameNetworkPacket::NET_PLAYER_JOINED(fresh(2, (280_000, 70_000))));
    assert_eq!(out[6].recipient, Recipient::All);
    assert_eq!(state.projectile_at(0).position, (120_000, 98_000));

    let none: Vec<ServerEvent> = Vec::new();
    let no_cells: Vec<(i32, i32)> = Vec::new();
    let quiet: Vec<Inbound> = Vec::new();
    for _ in 0..3 {
        assert!(Server::tick_with(&mut state, &map, &none, &no_cells, &quiet, &spawn).is_empty());
    }
    let out = Server::tick_with(&mut state, &map, &none, &no_cells, &quiet, &spawn);
    assert_eq!(
        out,
        vec![Outbound {
            recipient: Recipient::All,
            channel: Channel::ReliableUnordered,
            packet: GameNetworkPacket::NET_PROJECTILE_IMPACT(8, Some(2), 25),
        }]
    );
    assert_eq!(state.player(2).unwrap().data.health, 75);
    assert_eq!(state.player(2).unwrap().data._last, Some(1));
    assert_eq!(state.player(1).unwrap().data.health, 100);
    assert_eq!(state.projectiles_count(), 0);
    assert!(Server::tick_with(&mut state, &map, &none, &no_cells, &quiet, &spawn).is_empty());
    assert_eq!(state.player(2).unwrap().data.health, 75);
}

#[test]
fn events_at_given_cells() {
    let map = open_field();
    let mut state = ServerState::default();
    let events = vec![
        ServerEvent::ClientConnected { client_id: 5 },
        ServerEvent::ClientDisconnected { client_id: 5 },
        ServerEvent::ClientConnected { client_id: 5 },
    ];
    let out = Server::handle_events_at(&mut state, &map, &events, &vec![(1, 1), (9, 9), (2, 2)]);
    assert_eq!(out.len(), 7);
    assert_eq!(out[3].packet, GameNetworkPacket::NET_PLAYER_LEFT(5));
    assert_eq!(state.get_players_raw(), vec![(5, fresh(5, (140_000, 140_000)))]);
}
