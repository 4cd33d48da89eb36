use reversi::gateway::{
    check_player_name, new_game_table, player_key, player_to_append, GameTable, PlayerId,
    RedisKey, TableId,
};
use reversi::session::{assign_roles, start_game, table_state_of, Command, GameSessionManager, Reply};
use reversi::server::create_new_table;
use reversi::gateway::TableState;
use reversi::table::Table;
use reversi::Bitboard;
use reversi::{Action, Column, DiskColor, Position, PutConfig, Row};
use std::collections::HashMap;

#[test]
fn player_id_redis_key() {
    let player_id = PlayerId::new();
    let key = player_id.to_key();
    assert!(key.starts_with("player:"));
}

#[test]
fn player_key_is_the_uuid_text() {
    let player_id = PlayerId { id: 5 };
    assert_eq!(player_id.to_key(), "player:00000000-0000-0000-0000-000000000005");
    assert_eq!(player_key("abc"), "player:abc");
}

#[test]
fn player_names_are_at_most_ten_bytes() {
    assert_eq!(check_player_name("abcdefghij"), Ok(()));
    assert_eq!(
        check_player_name("abcdefghijk"),
        Err(String::from("Name exceeds maximum length of 10 characters."))
    );
    // Four characters of three bytes each.
    assert!(check_player_name("\u{3042}\u{3042}\u{3042}\u{3042}").is_err());
    assert_eq!(check_player_name(""), Ok(()));
}

#[test]
fn a_table_takes_two_players() {
    let table_id = TableId::new(String::from("abc"));
    let first = PlayerId { id: 1 };
    let second = PlayerId { id: 2 };
    let table = new_game_table(&first, String::from("{}"));
    assert_eq!(table.players(), &vec![String::from("00000000-0000-0000-0000-000000000001")]);
    assert_eq!(table.game_state(), "{}");
    assert_eq!(
        player_to_append(&table, &table_id, &second),
        Ok(String::from("00000000-0000-0000-0000-000000000002"))
    );
    let full = GameTable::new(
        vec![String::from("a"), String::from("b")],
        String::from("{}"),
    );
    assert_eq!(
        player_to_append(&full, &table_id, &second),
        Err(String::from("Table TableId { id: \"abc\" } is full."))
    );
}

#[test]
fn join_and_disconnect() {
    let mut manager = GameSessionManager::new();
    let table = TableId::new(String::from("t1"));
    let other = TableId::new(String::from("t2"));
    let a = manager.connect();
    let b = manager.connect();
    assert!(manager.has_session(&a));
    assert!(!manager.is_authenticated(&a));
    assert!(manager.table_of_connection(&a).is_none());
    assert!(manager.broadcast_recipients(&table).is_none());

    manager.join(&a, &table, &PlayerId { id: 10 });
    manager.join(&b, &table, &PlayerId { id: 20 });
    assert!(manager.is_authenticated(&a));
    assert_eq!(manager.table_of_connection(&b), Some(table.clone()));
    assert_eq!(manager.broadcast_recipients(&table), Some(vec![a, b]));
    assert_eq!(
        manager.player_ids(&table),
        Some(vec![PlayerId { id: 10 }, PlayerId { id: 20 }])
    );
    assert_eq!(manager.player_of(&b), Some(PlayerId { id: 20 }));
    assert!(manager.player_ids(&other).is_none());

    manager.disconnect(&a);
    assert!(!manager.has_session(&a));
    assert!(!manager.is_authenticated(&a));
    assert!(manager.table_of_connection(&a).is_none());
    assert_eq!(manager.broadcast_recipients(&table), Some(vec![b]));
    assert_eq!(manager.player_ids(&table), Some(vec![PlayerId { id: 20 }]));
}

#[test]
fn unauthenticated_members_have_no_player_list() {
    let mut manager = GameSessionManager::new();
    let table = TableId::new(String::from("t"));
    let a = manager.connect();
    let b = manager.connect();
    manager.join(&a, &table, &PlayerId { id: 1 });
    manager.join(&b, &table, &PlayerId { id: 2 });
    manager.disconnect(&b);
    // b has left the table as well, so the list is still complete.
    assert_eq!(manager.player_ids(&table), Some(vec![PlayerId { id: 1 }]));
    // A connection without a session keeps its seat when it disconnects.
    let c = manager.connect();
    manager.disconnect(&c);
    manager.join(&c, &table, &PlayerId { id: 3 });
    manager.disconnect(&c);
    assert_eq!(manager.table_of_connection(&c), Some(table.clone()));
    assert!(manager.player_ids(&table).is_none());
    assert_eq!(manager.broadcast_recipients(&table), Some(vec![a]));
}

#[test]
fn players_play_with_their_own_color() {
    let mut manager = GameSessionManager::new();
    let table = TableId::new(String::from("t"));
    let a = manager.connect();
    let stranger = manager.connect();
    manager.join(&a, &table, &PlayerId { id: 7 });
    let roles = HashMap::from([(8u128, DiskColor::Dark), (7u128, DiskColor::Light)]);
    let put = Action::PutDisk(PutConfig::new(DiskColor::Dark, Position::new(Row::Three, Column::D)));
    assert_eq!(
        manager.step_action(&a, &roles, &put),
        Some(Action::PutDisk(PutConfig::new(
            DiskColor::Light,
            Position::new(Row::Three, Column::D)
        )))
    );
    assert_eq!(
        manager.step_action(&a, &roles, &Action::PassTurn(DiskColor::Dark)),
        Some(Action::PassTurn(DiskColor::Light))
    );
    assert_eq!(manager.step_action(&stranger, &roles, &put), None);
    assert_eq!(manager.step_action(&a, &HashMap::new(), &put), None);
}

#[test]
fn suggestions_only_on_the_players_turn() {
    let mut manager = GameSessionManager::new();
    let table = TableId::new(String::from("t"));
    let a = manager.connect();
    let stranger = manager.connect();
    manager.join(&a, &table, &PlayerId { id: 7 });
    let roles = HashMap::from([(7u128, DiskColor::Light)]);
    assert_eq!(manager.suggestion_color(&a, &roles, DiskColor::Light), Ok(DiskColor::Light));
    assert_eq!(
        manager.suggestion_color(&a, &roles, DiskColor::Dark),
        Err(String::from("It's not your turn"))
    );
    assert_eq!(
        manager.suggestion_color(&stranger, &roles, DiskColor::Light),
        Err(String::from("Player not authenticated"))
    );
    assert_eq!(
        manager.suggestion_color(&a, &HashMap::new(), DiskColor::Light),
        Err(String::from("Player not found in this game"))
    );
}

#[test]
fn roles_give_each_player_a_color() {
    let players = vec![PlayerId { id: 1 }, PlayerId { id: 2 }];
    let (colors, roles) = assign_roles(&players);
    assert_eq!(colors.len(), 2);
    assert_ne!(colors[0], colors[1]);
    assert_eq!(roles, HashMap::from([(1u128, colors[0]), (2u128, colors[1])]));
    let (_, single) = assign_roles(&vec![PlayerId { id: 3 }]);
    assert_eq!(single.len(), 1);
}

#[test]
fn a_started_game_records_the_colors() {
    let mut state = create_new_table().0;
    let players = vec![PlayerId { id: 1 }, PlayerId { id: 2 }];
    let stored = start_game(&mut state, &players);
    let colors = state.player_colors().clone().unwrap();
    assert_eq!(colors.len(), 2);
    assert_ne!(colors[0], colors[1]);
    assert_eq!(stored.roles(), &HashMap::from([(1u128, colors[0]), (2u128, colors[1])]));
    assert_eq!(stored.table().board(), &Bitboard::default());
    assert_eq!(stored.puttable_positions(), state.puttable_positions());
    assert!(stored.judge_result().is_none());
}

#[test]
fn stored_state_keeps_the_answer() {
    let state = create_new_table().0;
    let roles = HashMap::from([(9u128, DiskColor::Dark)]);
    let stored = table_state_of(&state, roles.clone());
    assert_eq!(stored.roles(), &roles);
    assert_eq!(stored.table().turn(), DiskColor::Dark);
    assert_eq!(stored.puttable_positions().len(), 4);
    let direct = TableState::new(Table::default(), HashMap::new(), vec![], None);
    assert!(direct.roles().is_empty());
    assert!(direct.puttable_positions().is_empty());
}

#[test]
fn test_add_player_to_table_existing() {
    let table_id = TableId::new(String::from("table1"));
    let player1 = PlayerId::new();
    let player2 = PlayerId::new();
    // 1 player already joining the table.
    let one = new_game_table(&player1, String::from(""));
    let appended = player_to_append(&one, &table_id, &player2);
    assert!(appended.is_ok());
    // 2 player already joining the table.
    let first = one.players()[0].clone();
    let two = GameTable::new(vec![first, appended.unwrap()], String::from(""));
    let player3 = PlayerId::new();
    assert!(player_to_append(&two, &table_id, &player3).is_err());
    assert_eq!(two.players()[1].len(), 36);
}

#[test]
fn new_ids_are_version_4_uuids() {
    let player = PlayerId::new();
    assert_eq!((player.id >> 76) & 0xf, 4);
    assert_eq!((player.id >> 62) & 0x3, 2);
    let conn = reversi::gateway::ConnectionId::new();
    assert_eq!((conn.id() >> 76) & 0xf, 4);
    assert_eq!((conn.id() >> 62) & 0x3, 2);
    let text = player.to_key();
    assert_eq!(&text[7 + 14..7 + 15], "4");
}

#[test]
fn a_player_listed_twice_keeps_the_later_color() {
    let player = PlayerId { id: 4 };
    let (colors, roles) = assign_roles(&vec![player, player]);
    assert_eq!(roles, HashMap::from([(4u128, colors[1])]));
}

#[test]
fn authentication_follows_join_and_disconnect() {
    let mut manager = GameSessionManager::new();
    let table = TableId::new(String::from("t"));
    let c = manager.connect();
    assert!(!manager.is_authenticated(&c));
    manager.join(&c, &table, &PlayerId { id: 1 });
    assert!(manager.is_authenticated(&c));
    manager.disconnect(&c);
    assert!(!manager.is_authenticated(&c));
    manager.join(&c, &table, &PlayerId { id: 1 });
    assert!(manager.is_authenticated(&c));
}

#[test]
fn suggestions_go_to_the_model_endpoint() {
    let mut manager = GameSessionManager::new();
    let table = TableId::new(String::from("t"));
    let a = manager.connect();
    let stranger = manager.connect();
    manager.join(&a, &table, &PlayerId { id: 7 });
    let roles = HashMap::from([(7u128, DiskColor::Light)]);
    let base = "http://proxy:80/models";
    assert_eq!(
        manager.suggestion_request(&a, &roles, DiskColor::Light, base, "m1"),
        Ok(String::from("http://proxy/models/m1/suggest"))
    );
    assert_eq!(
        manager.suggestion_request(&a, &roles, DiskColor::Light, base, "a b"),
        Ok(String::from("http://proxy/models/a%20b/suggest"))
    );
    assert_eq!(
        manager.suggestion_request(&a, &roles, DiskColor::Dark, base, "m1"),
        Err(String::from("It's not your turn"))
    );
    assert_eq!(
        manager.suggestion_request(&stranger, &roles, DiskColor::Light, base, "m1"),
        Err(String::from("Player not authenticated"))
    );
    assert_eq!(
        manager.suggestion_request(&a, &roles, DiskColor::Light, "not a url", "m1"),
        Err(String::from("relative URL without a base"))
    );
    assert_eq!(
        manager.suggestion_request(&a, &roles, DiskColor::Light, "mailto:x@y", "m1"),
        Err(String::from("Cannot be a base URL"))
    );
}

#[test]
fn commands_run_through_the_manager() {
    let mut manager = GameSessionManager::new();
    let table = TableId::new(String::from("t"));
    let a = match manager.handle(Command::Connect) {
        Reply::Connected(a) => a,
        other => panic!("unexpected reply {:?}", other),
    };
    assert!(matches!(
        manager.handle(Command::CheckAuthenticated { connection_id: a }),
        Reply::Authenticated(false)
    ));
    let r = manager.handle(Command::Join {
        connection_id: a,
        table_id: table.clone(),
        player_id: PlayerId { id: 1 },
    });
    assert!(matches!(r, Reply::Joined(ref t) if *t == table));
    assert!(matches!(
        manager.handle(Command::CheckAuthenticated { connection_id: a }),
        Reply::Authenticated(true)
    ));
    let r = manager.handle(Command::BroadcastMessage { connection_id: a });
    assert!(matches!(r, Reply::Broadcast(Some(ref t)) if *t == table));
    assert!(matches!(
        manager.handle(Command::SendMessage { connection_id: a }),
        Reply::Send(c) if c == a
    ));
    assert!(matches!(manager.handle(Command::Step), Reply::Delegate));
    assert!(matches!(manager.handle(Command::Authenticate), Reply::Delegate));
    assert!(matches!(manager.handle(Command::FetchInitialState), Reply::Delegate));
    assert!(matches!(manager.handle(Command::SuggestPlacement), Reply::Delegate));
    let r = manager.handle(Command::Disconnect { connection_id: a, notify_table: true });
    assert!(matches!(r, Reply::DisconnectedNotify(Some(ref t)) if *t == table));
    assert!(matches!(
        manager.handle(Command::CheckAuthenticated { connection_id: a }),
        Reply::Authenticated(false)
    ));
    assert!(matches!(
        manager.handle(Command::BroadcastMessage { connection_id: a }),
        Reply::Broadcast(None)
    ));
    assert_eq!(manager.broadcast_recipients(&table), Some(vec![]));
    assert!(matches!(
        manager.handle(Command::Disconnect { connection_id: a, notify_table: false }),
        Reply::Disconnected
    ));
    assert!(matches!(
        manager.handle(Command::Disconnect { connection_id: a, notify_table: true }),
        Reply::DisconnectedNotify(None)
    ));
}
