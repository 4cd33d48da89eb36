use reversi::gateway::{
    action_with_color, convert_password_to_table_id, extract_bearer_token, GameTable, RedisKey,
    TableId,
};
use reversi::{Action, Column, DiskColor, Position, PutConfig, Row};

#[test]
fn table_id_redis_key() {
    let table_id = TableId::new("foo".to_string());
    let key = table_id.to_key();
    assert!(key.starts_with("table:"));
    assert_eq!(key, "table:foo");
}

#[test]
fn join_test_convert_password_to_table_id() {
    let password = "password";
    let salt = 12345;
    let table_id = convert_password_to_table_id(password, salt);
    assert_eq!(table_id.id(), "03NHKRfdHqCrvw==");

    let password = "foo";
    let salt = 98765;
    let table_id = convert_password_to_table_id(password, salt);
    assert_eq!(table_id.id(), "GkElquPDNXk6sA==");
}

#[test]
fn convert_password_depends_on_salt() {
    let a = convert_password_to_table_id("foo", 0);
    let b = convert_password_to_table_id("foo", 1);
    assert_ne!(a, b);
    assert_eq!(a.id().len(), 16);
}

#[test]
fn test_extract_bearer_token() {
    let token = extract_bearer_token(Some("Bearer test_token")).unwrap();
    assert_eq!(token, "test_token");
}

#[test]
fn test_extract_bearer_token_missing() {
    assert_eq!(
        extract_bearer_token(None),
        Err(String::from("Missing Bearer token."))
    );
}

#[test]
fn test_extract_bearer_token_invalid() {
    assert_eq!(
        extract_bearer_token(Some("foo bar")),
        Err(String::from("Invalid Bearer token."))
    );
}

#[test]
fn action_color_is_overridden() {
    let put = Action::PutDisk(PutConfig::new(
        DiskColor::Light,
        Position::new(Row::Three, Column::D),
    ));
    assert_eq!(
        action_with_color(&put, DiskColor::Dark),
        Action::PutDisk(PutConfig::new(
            DiskColor::Dark,
            Position::new(Row::Three, Column::D)
        ))
    );
    assert_eq!(
        action_with_color(&Action::PassTurn(DiskColor::Dark), DiskColor::Light),
        Action::PassTurn(DiskColor::Light)
    );
}

#[test]
fn game_table_holds_players() {
    let table = GameTable::new(vec![String::from("p1")], String::from("{}"));
    assert_eq!(table.players(), &vec![String::from("p1")]);
    assert_eq!(table.game_state(), "{}");
}

#[test]
fn joined_players_go_to_the_table() {
    let table_id = convert_password_to_table_id("password", 12345);
    assert_eq!(reversi::gateway::table_location(&table_id), "/03NHKRfdHqCrvw==");
}
