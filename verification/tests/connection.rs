use reversi::connection::{
    is_sent_to_client, on_client_frame, on_tick, route_message, ClientFrame, FrameAction,
    MessageAction, MessageKind, TickAction, CLIENT_HEARTBEAT_TIMEOUT_MS,
    CLIENT_UNAUTHENTICATED_TIMEOUT_MS, HEARTBEAT_INTERVAL_MS,
};

#[test]
fn tick_closes_an_unauthenticated_connection_after_its_grace() {
    assert_eq!(HEARTBEAT_INTERVAL_MS, 5000);
    assert_eq!(CLIENT_UNAUTHENTICATED_TIMEOUT_MS, 5000);
    assert_eq!(on_tick(5000, 0, 5000, false), TickAction::Ping);
    assert_eq!(on_tick(5001, 0, 5001, false), TickAction::DisconnectUnauthenticated);
    assert_eq!(on_tick(5001, 0, 5001, true), TickAction::Ping);
}

#[test]
fn tick_closes_a_silent_connection() {
    assert_eq!(CLIENT_HEARTBEAT_TIMEOUT_MS, 10000);
    assert_eq!(on_tick(20000, 0, 10000, true), TickAction::Ping);
    assert_eq!(on_tick(20001, 0, 10000, true), TickAction::Close);
    // The authentication check comes first.
    assert_eq!(on_tick(20001, 0, 10000, false), TickAction::DisconnectUnauthenticated);
    // A clock that reads earlier than the marks counts as no time.
    assert_eq!(on_tick(0, 100, 100, false), TickAction::Ping);
}

#[test]
fn heartbeats_come_from_pings_and_pongs() {
    assert_eq!(on_client_frame(ClientFrame::Ping, 70, 10), (70, FrameAction::Pong));
    assert_eq!(on_client_frame(ClientFrame::Pong, 70, 10), (70, FrameAction::Stay));
    assert_eq!(on_client_frame(ClientFrame::Text, 70, 10), (10, FrameAction::Process));
    assert_eq!(on_client_frame(ClientFrame::Binary, 70, 10), (10, FrameAction::Ignore));
    assert_eq!(on_client_frame(ClientFrame::Close, 70, 10), (10, FrameAction::Close));
    assert_eq!(on_client_frame(ClientFrame::StreamError, 70, 10), (10, FrameAction::Close));
    assert_eq!(on_client_frame(ClientFrame::StreamEnd, 70, 10), (10, FrameAction::Close));
}

#[test]
fn only_authentication_passes_before_authentication() {
    assert_eq!(route_message(MessageKind::Authenticate, false), MessageAction::Authenticate);
    assert_eq!(route_message(MessageKind::Step, false), MessageAction::Disconnect);
    assert_eq!(route_message(MessageKind::Start, false), MessageAction::Disconnect);
    assert_eq!(route_message(MessageKind::SuggestionRequest, false), MessageAction::Disconnect);
    assert_eq!(route_message(MessageKind::GameState, false), MessageAction::Disconnect);
}

#[test]
fn authenticated_messages_are_routed_by_kind() {
    assert_eq!(route_message(MessageKind::Authenticate, true), MessageAction::Authenticate);
    assert_eq!(route_message(MessageKind::Start, true), MessageAction::Start);
    assert_eq!(route_message(MessageKind::Step, true), MessageAction::Step);
    assert_eq!(route_message(MessageKind::SuggestionRequest, true), MessageAction::Suggest);
    assert_eq!(route_message(MessageKind::Players, true), MessageAction::Unexpected);
    assert_eq!(route_message(MessageKind::SuggestionResponse, true), MessageAction::Unexpected);
}

#[test]
fn server_messages_sent_to_the_client() {
    assert!(is_sent_to_client(MessageKind::Players));
    assert!(is_sent_to_client(MessageKind::GameState));
    assert!(is_sent_to_client(MessageKind::SuggestionResponse));
    assert!(is_sent_to_client(MessageKind::InternalServerError));
    assert!(!is_sent_to_client(MessageKind::Authenticate));
    assert!(!is_sent_to_client(MessageKind::Step));
    assert!(!is_sent_to_client(MessageKind::Start));
    assert!(!is_sent_to_client(MessageKind::SuggestionRequest));
}
