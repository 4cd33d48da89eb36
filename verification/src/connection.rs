//! The decisions of a game table's WebSocket connection: when a heartbeat
//! tick closes it, what a frame from the client does to it, and how a message
//! from the client is routed. The socket, the timer and the session manager
//! are driven around these functions; the times are milliseconds on one
//! monotonic clock.
use vstd::prelude::*;

verus! {

/// How often heartbeat pings are sent, in milliseconds.
pub const HEARTBEAT_INTERVAL_MS: u64 = 5000;

/// How long without a heartbeat from the client closes the connection.
pub const CLIENT_HEARTBEAT_TIMEOUT_MS: u64 = 10000;

/// How long a connection may stay unauthenticated.
pub const CLIENT_UNAUTHENTICATED_TIMEOUT_MS: u64 = 5000;

/// The time from `since` to `now`, or zero when `now` is earlier.
pub open spec fn elapsed(now: u64, since: u64) -> int {
    if now >= since {
        now - since
    } else {
        0
    }
}

/// What a heartbeat tick does to the connection.
#[derive(Clone, Copy, Debug, PartialEq, Eq, Structural)]
pub enum TickAction {
    /// The connection never authenticated in time: it leaves its table
    /// without notice to the others, and closes.
    DisconnectUnauthenticated,
    /// The client has not answered for too long: the connection closes.
    Close,
    /// The connection stays open and the client is pinged.
    Ping,
}

/// The decision of a heartbeat tick at time `now`, for a connection made at
/// `connected_at` that last heard from its client at `last_heartbeat`.
pub fn on_tick(now: u64, connected_at: u64, last_heartbeat: u64, authenticated: bool) -> (res:
    TickAction)
    ensures
        res == (if elapsed(now, connected_at) > CLIENT_UNAUTHENTICATED_TIMEOUT_MS
            && !authenticated {
            TickAction::DisconnectUnauthenticated
        } else if elapsed(now, last_heartbeat) > CLIENT_HEARTBEAT_TIMEOUT_MS {
            TickAction::Close
        } else {
            TickAction::Ping
        }),
{
    let since_connected = if now >= connected_at {
        now - connected_at
    } else {
        0
    };
    if since_connected > CLIENT_UNAUTHENTICATED_TIMEOUT_MS && !authenticated {
        return TickAction::DisconnectUnauthenticated;
    }
    let since_heartbeat = if now >= last_heartbeat {
        now - last_heartbeat
    } else {
        0
    };
    if since_heartbeat > CLIENT_HEARTBEAT_TIMEOUT_MS {
        TickAction::Close
    } else {
        TickAction::Ping
    }
}

/// What arrives from the client's side of the socket.
#[derive(Clone, Copy, Debug, PartialEq, Eq, Structural)]
pub enum ClientFrame {
    /// A ping.
    Ping,
    /// A pong.
    Pong,
    /// A text message.
    Text,
    /// A binary message.
    Binary,
    /// A close frame.
    Close,
    /// An error of the stream.
    StreamError,
    /// The end of the stream.
    StreamEnd,
}

/// What a frame from the client does to the connection.
#[derive(Clone, Copy, Debug, PartialEq, Eq, Structural)]
pub enum FrameAction {
    /// Answer the ping with a pong.
    Pong,
    /// Nothing but the heartbeat.
    Stay,
    /// Parse the text and process the message.
    Process,
    /// Ignore the frame (it is logged).
    Ignore,
    /// Close the connection.
    Close,
}

/// The action a frame from the client asks for.
pub open spec fn frame_action(frame: ClientFrame) -> FrameAction {
    match frame {
        ClientFrame::Ping => FrameAction::Pong,
        ClientFrame::Pong => FrameAction::Stay,
        ClientFrame::Text => FrameAction::Process,
        ClientFrame::Binary => FrameAction::Ignore,
        ClientFrame::Close | ClientFrame::StreamError | ClientFrame::StreamEnd => FrameAction::Close,
    }
}

/// The handling of a frame that arrives at time `now`: the time the client
/// was last heard from afterwards (pings and pongs count as heartbeats), and
/// the action.
pub fn on_client_frame(frame: ClientFrame, now: u64, last_heartbeat: u64) -> (res: (u64, FrameAction))
    ensures
        res.0 == (if frame == ClientFrame::Ping || frame == ClientFrame::Pong {
            now
        } else {
            last_heartbeat
        }),
        res.1 == frame_action(frame),
{
    match frame {
        ClientFrame::Ping => (now, FrameAction::Pong),
        ClientFrame::Pong => (now, FrameAction::Stay),
        ClientFrame::Text => (last_heartbeat, FrameAction::Process),
        ClientFrame::Binary => (last_heartbeat, FrameAction::Ignore),
        ClientFrame::Close => (last_heartbeat, FrameAction::Close),
        ClientFrame::StreamError => (last_heartbeat, FrameAction::Close),
        ClientFrame::StreamEnd => (last_heartbeat, FrameAction::Close),
    }
}

/// The kinds of message that travel over a game table's socket.
#[derive(Clone, Copy, Debug, PartialEq, Eq, Structural)]
pub enum MessageKind {
    /// The players at the table (server to client).
    Players,
    /// An authentication request with a token (client to server).
    Authenticate,
    /// The player is ready to start (client to server).
    Start,
    /// A move (client to server).
    Step,
    /// The state of the game (server to client).
    GameState,
    /// An internal error (server to client).
    InternalServerError,
    /// A request for a suggested move (client to server).
    SuggestionRequest,
    /// A suggested move (server to client).
    SuggestionResponse,
}

/// Whether a message of this kind, coming from the session manager, is
/// written to the client; the others are logged as unexpected.
pub fn is_sent_to_client(kind: MessageKind) -> (res: bool)
    ensures
        res == (kind == MessageKind::Players || kind == MessageKind::GameState || kind
            == MessageKind::SuggestionResponse || kind == MessageKind::InternalServerError),
{
    match kind {
        MessageKind::Players => true,
        MessageKind::GameState => true,
        MessageKind::SuggestionResponse => true,
        MessageKind::InternalServerError => true,
        _ => false,
    }
}

/// What a message from the client makes the connection do.
#[derive(Clone, Copy, Debug, PartialEq, Eq, Structural)]
pub enum MessageAction {
    /// Leave the table without notice to the others: the connection is not
    /// authenticated.
    Disconnect,
    /// Check the token, then join the table or disconnect.
    Authenticate,
    /// Fetch the first state of the game and send it to the table.
    Start,
    /// Step the game and send the new state (or the error) to the table.
    Step,
    /// Ask for a suggested move and answer this connection.
    Suggest,
    /// Answer that the message was not expected.
    Unexpected,
}

/// The routing of a message of kind `kind` from a client whose connection is
/// `authenticated` or not: anything but an authentication request from an
/// unauthenticated connection disconnects it.
pub fn route_message(kind: MessageKind, authenticated: bool) -> (res: MessageAction)
    ensures
        kind != MessageKind::Authenticate && !authenticated ==> res == MessageAction::Disconnect,
        kind == MessageKind::Authenticate ==> res == MessageAction::Authenticate,
        authenticated ==> res == match kind {
            MessageKind::Authenticate => MessageAction::Authenticate,
            MessageKind::Start => MessageAction::Start,
            MessageKind::Step => MessageAction::Step,
            MessageKind::SuggestionRequest => MessageAction::Suggest,
            _ => MessageAction::Unexpected,
        },
{
    if kind != MessageKind::Authenticate && !authenticated {
        return MessageAction::Disconnect;
    }
    match kind {
        MessageKind::Authenticate => MessageAction::Authenticate,
        MessageKind::Start => MessageAction::Start,
        MessageKind::Step => MessageAction::Step,
        MessageKind::SuggestionRequest => MessageAction::Suggest,
        _ => MessageAction::Unexpected,
    }
}

} // verus!
