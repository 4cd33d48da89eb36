//! The decisions of the game session manager of the gateway: which
//! connections are open, which of them are authenticated as which player,
//! which connections sit at which table, who hears a message, and which
//! color a player plays with.
//!
//! The manager's channels, its store and its token key stay with the
//! service that runs it; this state is what the manager decides with.
use crate::action::Action;
use crate::disk::DiskColor;
use crate::gateway::{is_uuid_v4, suggestion_endpoint, suggestion_url, url_error, with_color, ConnectionId, PlayerId, TableId, TableState};
use crate::message::StateResponseMessage;
use crate::table::copy_table;
use std::collections::{HashMap, HashSet};
use vstd::prelude::*;
use vstd::string::StringExecFns;

verus! {

broadcast use vstd::std_specs::hash::group_hash_axioms;

/// `members` without `conn`, in the same order.
pub open spec fn without(members: Seq<ConnectionId>, conn: ConnectionId) -> Seq<ConnectionId>
    decreases members.len(),
{
    if members.len() == 0 {
        members
    } else {
        let rest = without(members.drop_last(), conn);
        if members.last() == conn {
            rest
        } else {
            rest.push(members.last())
        }
    }
}

/// The members that have an open session, in the same order.
pub open spec fn with_session(members: Seq<ConnectionId>, sessions: Set<u128>) -> Seq<
    ConnectionId,
>
    decreases members.len(),
{
    if members.len() == 0 {
        members
    } else {
        let rest = with_session(members.drop_last(), sessions);
        if sessions.contains(members.last().id_of()) {
            rest.push(members.last())
        } else {
            rest
        }
    }
}

/// The color of `player` in `roles`, the colors of the players by the value
/// of their IDs.
pub open spec fn role_in(roles: Map<u128, DiskColor>, player: PlayerId) -> Option<DiskColor> {
    if roles.contains_key(player.id) {
        Some(roles[player.id])
    } else {
        None
    }
}

/// `after` is the tables `before` once `conn` has joined the table named
/// `name`: appended to its members if the table exists, otherwise at a new
/// table of its own.
pub open spec fn joined(
    before: Seq<(Seq<char>, Seq<ConnectionId>)>,
    after: Seq<(Seq<char>, Seq<ConnectionId>)>,
    name: Seq<char>,
    conn: ConnectionId,
) -> bool {
    if exists|k: int| 0 <= k < before.len() && #[trigger] before[k].0 == name {
        &&& after.len() == before.len()
        &&& forall|k: int|
            0 <= k < before.len() ==> #[trigger] after[k] == if before[k].0 == name {
                (name, before[k].1.push(conn))
            } else {
                before[k]
            }
    } else {
        after == before.push((name, seq![conn]))
    }
}

/// Shuffles `colors` (`fastrand::Rng::new`, then `Rng::shuffle`). Trusted:
/// the result holds the same colors; their order is left to chance.
#[verifier::external_body]
fn shuffle_colors(colors: &mut Vec<DiskColor>)
    ensures
        final(colors)@.to_multiset() == old(colors)@.to_multiset(),
{
    let mut rng = fastrand::Rng::new();
    rng.shuffle(colors.as_mut_slice());
}

/// A command to the game session manager, with the values that the manager
/// decides on. The channels that answer a command stay with the service that
/// runs the manager.
pub enum Command {
    /// Register a new connection.
    Connect,
    /// Unregister a connection; with `notify_table`, the players left at its
    /// table are told.
    Disconnect { connection_id: ConnectionId, notify_table: bool },
    /// Check a bearer token; the service checks it with its key.
    Authenticate,
    /// Ask whether a connection is authenticated.
    CheckAuthenticated { connection_id: ConnectionId },
    /// Seat a connection at a table as a player.
    Join { connection_id: ConnectionId, table_id: TableId, player_id: PlayerId },
    /// Send a message to the table of a connection.
    BroadcastMessage { connection_id: ConnectionId },
    /// Send a message to one connection.
    SendMessage { connection_id: ConnectionId },
    /// Fetch the first state of a game; the service asks the game endpoint.
    FetchInitialState,
    /// Step a game; the service reads the stored state and asks the game
    /// endpoint, with [`GameSessionManager::step_action`].
    Step,
    /// Ask a model for a suggestion; the service reads the stored state and
    /// asks the model, with [`GameSessionManager::suggestion_request`].
    SuggestPlacement,
}

/// What the service does once the manager has handled a command.
#[derive(Debug)]
pub enum Reply {
    /// Answer with the new connection.
    Connected(ConnectionId),
    /// Nothing more: the connection is gone.
    Disconnected,
    /// Tell the players at this table who is left; `None` if the connection
    /// sat at no table (a warning is logged).
    DisconnectedNotify(Option<TableId>),
    /// Answer whether the connection is authenticated.
    Authenticated(bool),
    /// Tell the players at this table who is there, then answer.
    Joined(TableId),
    /// Send the message to the connections at this table; `None` if the
    /// connection sits at no table (a warning is logged).
    Broadcast(Option<TableId>),
    /// Send the message to this connection.
    Send(ConnectionId),
    /// The service answers the command itself; the manager is unchanged.
    Delegate,
}

/// `after` is `before` with no connection, table or player changed.
pub open spec fn same_state(before: GameSessionManager, after: GameSessionManager) -> bool {
    &&& after.sessions_of() == before.sessions_of()
    &&& after.tables_of() == before.tables_of()
    &&& after.players_of() == before.players_of()
}

/// `after` is `before` once `conn` has disconnected: its session is closed,
/// it is no longer authenticated and, if its session was open, it has left
/// every table.
pub open spec fn disconnected(before: GameSessionManager, after: GameSessionManager, conn: ConnectionId) -> bool {
    &&& after.sessions_of() == before.sessions_of().remove(conn.id_of())
    &&& after.players_of() == before.players_of().remove(conn.id_of())
    &&& after.tables_of().len() == before.tables_of().len()
    &&& forall|k: int|
        0 <= k < before.tables_of().len() ==> #[trigger] after.tables_of()[k] == (
            before.tables_of()[k].0,
            if before.sessions_of().contains(conn.id_of()) {
                without(before.tables_of()[k].1, conn)
            } else {
                before.tables_of()[k].1
            },
        )
}

/// `found` is a table of `tables` at which `conn` sits, or `None` if it sits
/// at none.
pub open spec fn table_found(
    tables: Seq<(Seq<char>, Seq<ConnectionId>)>,
    conn: ConnectionId,
    found: Option<TableId>,
) -> bool {
    &&& found is None <==> forall|k: int|
        0 <= k < tables.len() ==> !(#[trigger] tables[k]).1.contains(conn)
    &&& found matches Some(t) ==> exists|k: int|
        0 <= k < tables.len() && (#[trigger] tables[k]).0 == t.id_of() && tables[k].1.contains(conn)
}

/// Handling `command` takes the manager from `before` to `after` and gives
/// `reply`.
pub open spec fn manager_step(
    before: GameSessionManager,
    command: Command,
    after: GameSessionManager,
    reply: Reply,
) -> bool {
    match command {
        Command::Connect => {
            &&& reply matches Reply::Connected(id)
            &&& is_uuid_v4(id.id_of())
            &&& after.sessions_of() == before.sessions_of().insert(id.id_of())
            &&& after.tables_of() == before.tables_of()
            &&& after.players_of() == before.players_of()
        },
        Command::Disconnect { connection_id, notify_table } => {
            &&& disconnected(before, after, connection_id)
            &&& if notify_table {
                reply matches Reply::DisconnectedNotify(found) && table_found(
                    before.tables_of(),
                    connection_id,
                    found,
                )
            } else {
                reply is Disconnected
            }
        },
        Command::CheckAuthenticated { connection_id } => {
            &&& same_state(before, after)
            &&& reply == Reply::Authenticated(before.players_of().contains_key(connection_id.id_of()))
        },
        Command::Join { connection_id, table_id, player_id } => {
            &&& joined(before.tables_of(), after.tables_of(), table_id.id_of(), connection_id)
            &&& after.players_of() == before.players_of().insert(connection_id.id_of(), player_id)
            &&& after.sessions_of() == before.sessions_of()
            &&& reply matches Reply::Joined(t) && t.id_of() == table_id.id_of()
        },
        Command::BroadcastMessage { connection_id } => {
            &&& same_state(before, after)
            &&& reply matches Reply::Broadcast(found) && table_found(before.tables_of(), connection_id, found)
        },
        Command::SendMessage { connection_id } => {
            &&& same_state(before, after)
            &&& reply == Reply::Send(connection_id)
        },
        _ => {
            &&& same_state(before, after)
            &&& reply is Delegate
        },
    }
}

/// Manages game sessions: the open connections, the tables they sit at and
/// the players they are authenticated as.
pub struct GameSessionManager {
    /// The open connections.
    sessions: HashSet<u128>,
    /// The connections at each table.
    tables: Vec<(TableId, Vec<ConnectionId>)>,
    /// The player of each authenticated connection.
    connection_player_map: HashMap<u128, PlayerId>,
}

impl GameSessionManager {
    /// The open connections, by value.
    pub closed spec fn sessions_of(self) -> Set<u128> {
        self.sessions@
    }

    /// Each table with the connections at it, in the order they joined.
    pub closed spec fn tables_of(self) -> Seq<(Seq<char>, Seq<ConnectionId>)> {
        Seq::new(self.tables@.len(), |k: int| (self.tables@[k].0.id_of(), self.tables@[k].1@))
    }

    /// The player of each authenticated connection, by connection value.
    pub closed spec fn players_of(self) -> Map<u128, PlayerId> {
        self.connection_player_map@
    }

    /// No two tables have the same name.
    #[verifier::type_invariant]
    closed spec fn tables_distinct(self) -> bool {
        forall|i: int, j: int|
            0 <= i < j < self.tables@.len() ==> self.tables@[i].0.id_of() != self.tables@[j].0.id_of()
    }

    /// Creates a game session manager with no connection and no table.
    pub fn new() -> (res: Self)
        ensures
            res.sessions_of() == Set::<u128>::empty(),
            res.tables_of() == Seq::<(Seq<char>, Seq<ConnectionId>)>::empty(),
            res.players_of() == Map::<u128, PlayerId>::empty(),
    {
        let res = Self { sessions: HashSet::new(), tables: Vec::new(), connection_player_map: HashMap::new() };
        assert(res.tables_of() =~= Seq::<(Seq<char>, Seq<ConnectionId>)>::empty());
        res
    }

    /// Registers a new session and assigns it a new connection ID.
    pub fn connect(&mut self) -> (res: ConnectionId)
        ensures
            is_uuid_v4(res.id_of()),
            final(self).sessions_of() == old(self).sessions_of().insert(res.id_of()),
            final(self).tables_of() == old(self).tables_of(),
            final(self).players_of() == old(self).players_of(),
    {
        proof {
            use_type_invariant(&*self);
        }
        let id = ConnectionId::new();
        let mut sessions = HashSet::new();
        std::mem::swap(&mut sessions, &mut self.sessions);
        sessions.insert(id.id());
        self.sessions = sessions;
        id
    }

    /// Unregisters a session: an open connection leaves every table, and the
    /// connection is no longer authenticated.
    pub fn disconnect(&mut self, conn_id: &ConnectionId)
        ensures
            final(self).sessions_of() == old(self).sessions_of().remove(conn_id.id_of()),
            final(self).players_of() == old(self).players_of().remove(conn_id.id_of()),
            final(self).tables_of().len() == old(self).tables_of().len(),
            forall|k: int|
                0 <= k < old(self).tables_of().len() ==> #[trigger] final(self).tables_of()[k] == (
                old(self).tables_of()[k].0,
                if old(self).sessions_of().contains(conn_id.id_of()) {
                    without(old(self).tables_of()[k].1, *conn_id)
                } else {
                    old(self).tables_of()[k].1
                },
            ),
    {
        proof {
            use_type_invariant(&*self);
        }
        let ghost old_tables = self.tables_of();
        // Remove sender.
        let mut sessions = HashSet::new();
        std::mem::swap(&mut sessions, &mut self.sessions);
        let was_open = sessions.remove(&conn_id.id());
        self.sessions = sessions;
        if was_open {
            let mut tables: Vec<(TableId, Vec<ConnectionId>)> = Vec::new();
            let mut k: usize = 0;
            while k < self.tables.len()
                invariant
                    k <= self.tables@.len(),
                    old_tables == Seq::new(
                        self.tables@.len(),
                        |i: int| (self.tables@[i].0.id_of(), self.tables@[i].1@),
                    ),
                    tables@.len() == k,
                    forall|i: int|
                        0 <= i < k ==> (#[trigger] tables@[i]).0.id_of() == old_tables[i].0
                            && tables@[i].1@ == without(old_tables[i].1, *conn_id),
                decreases self.tables@.len() - k,
            {
                let members = &self.tables[k].1;
                let mut kept: Vec<ConnectionId> = Vec::new();
                let mut m: usize = 0;
                while m < members.len()
                    invariant
                        m <= members@.len(),
                        kept@ == without(members@.subrange(0, m as int), *conn_id),
                    decreases members@.len() - m,
                {
                    proof {
                        assert(members@.subrange(0, m as int + 1).drop_last() =~= members@.subrange(
                            0,
                            m as int,
                        ));
                    }
                    if members[m].id() != conn_id.id() {
                        kept.push(members[m]);
                    } else {
                        proof {
                            crate::gateway::lemma_connection_id_ext(members@[m as int], *conn_id);
                        }
                    }
                    m = m + 1;
                }
                proof {
                    assert(members@.subrange(0, members@.len() as int) =~= members@);
                }
                let name = TableId::new(String::from_str(self.tables[k].0.id()));
                tables.push((name, kept));
                k = k + 1;
            }
            proof {
                assert forall|i: int, j: int| 0 <= i < j < tables@.len() implies tables@[i].0.id_of()
                    != tables@[j].0.id_of() by {
                    assert(tables@[i].0.id_of() == self.tables@[i].0.id_of());
                    assert(tables@[j].0.id_of() == self.tables@[j].0.id_of());
                }
            }
            self.tables = tables;
            proof {
                assert(self.tables_of() =~= Seq::new(
                    old_tables.len(),
                    |i: int| (old_tables[i].0, without(old_tables[i].1, *conn_id)),
                ));
            }
        }
        let mut players = HashMap::new();
        std::mem::swap(&mut players, &mut self.connection_player_map);
        players.remove(&conn_id.id());
        self.connection_player_map = players;
    }

    /// Checks if a connection is authenticated.
    pub fn is_authenticated(&self, conn_id: &ConnectionId) -> (res: bool)
        ensures
            res == self.players_of().contains_key(conn_id.id_of()),
    {
        self.connection_player_map.contains_key(&conn_id.id())
    }

    /// Checks if a connection has an open session.
    pub fn has_session(&self, conn_id: &ConnectionId) -> (res: bool)
        ensures
            res == self.sessions_of().contains(conn_id.id_of()),
    {
        self.sessions.contains(&conn_id.id())
    }

    /// Joins a table: the connection sits at the table and is authenticated
    /// as the player.
    pub fn join(&mut self, conn_id: &ConnectionId, table_id: &TableId, player_id: &PlayerId)
        ensures
            joined(old(self).tables_of(), final(self).tables_of(), table_id.id_of(), *conn_id),
            final(self).players_of() == old(self).players_of().insert(conn_id.id_of(), *player_id),
            final(self).sessions_of() == old(self).sessions_of(),
    {
        proof {
            use_type_invariant(&*self);
        }
        let ghost old_tables = self.tables_of();
        let mut found: Option<usize> = None;
        let mut k: usize = 0;
        while k < self.tables.len()
            invariant
                k <= self.tables@.len(),
                old_tables == self.tables_of(),
                found is None ==> forall|i: int| 0 <= i < k ==> old_tables[i].0 != table_id.id_of(),
                found matches Some(f) ==> f < self.tables@.len() && old_tables[f as int].0
                    == table_id.id_of(),
            decreases self.tables@.len() - k,
        {
            if found.is_none() && self.tables[k].0 == *table_id {
                found = Some(k);
            }
            k = k + 1;
        }
        let mut tables: Vec<(TableId, Vec<ConnectionId>)> = Vec::new();
        let mut i: usize = 0;
        while i < self.tables.len()
            invariant
                i <= self.tables@.len(),
                old_tables == self.tables_of(),
                found matches Some(f) ==> f < self.tables@.len() && old_tables[f as int].0
                    == table_id.id_of(),
                tables@.len() == i,
                forall|j: int|
                    0 <= j < i ==> (#[trigger] tables@[j]).0.id_of() == old_tables[j].0 && tables@[j].1@
                        == if found == Some(j as usize) {
                        old_tables[j].1.push(*conn_id)
                    } else {
                        old_tables[j].1
                    },
            decreases self.tables@.len() - i,
        {
            let name = TableId::new(String::from_str(self.tables[i].0.id()));
            let mut members: Vec<ConnectionId> = Vec::new();
            let source = &self.tables[i].1;
            let mut m: usize = 0;
            while m < source.len()
                invariant
                    m <= source@.len(),
                    members@ == source@.subrange(0, m as int),
                decreases source@.len() - m,
            {
                members.push(source[m]);
                m = m + 1;
                proof {
                    assert(members@ =~= source@.subrange(0, m as int));
                }
            }
            proof {
                assert(members@ =~= source@);
            }
            if found == Some(i) {
                members.push(*conn_id);
            }
            tables.push((name, members));
            i = i + 1;
        }
        if found.is_none() {
            let mut members: Vec<ConnectionId> = Vec::new();
            members.push(*conn_id);
            tables.push((TableId::new(String::from_str(table_id.id())), members));
        }
        proof {
            assert forall|a: int, b: int| 0 <= a < b < tables@.len() implies tables@[a].0.id_of()
                != tables@[b].0.id_of() by {
                if b < old_tables.len() {
                    assert(tables@[a].0.id_of() == self.tables@[a].0.id_of());
                    assert(tables@[b].0.id_of() == self.tables@[b].0.id_of());
                } else {
                    assert(tables@[a].0.id_of() == old_tables[a].0);
                }
            }
        }
        self.tables = tables;
        let mut players = HashMap::new();
        std::mem::swap(&mut players, &mut self.connection_player_map);
        players.insert(conn_id.id(), *player_id);
        self.connection_player_map = players;
        proof {
            let new_tables = self.tables_of();
            if found is None {
                assert(new_tables =~= old_tables.push((table_id.id_of(), seq![*conn_id])));
            } else {
                let f = found->0 as int;
                assert forall|j: int| 0 <= j < old_tables.len() implies #[trigger] new_tables[j] == if old_tables[j].0
                    == table_id.id_of() {
                    (table_id.id_of(), old_tables[j].1.push(*conn_id))
                } else {
                    old_tables[j]
                } by {
                    if old_tables[j].0 == table_id.id_of() && j != f {
                        assert(self.tables@[j].0.id_of() == old_tables[j].0);
                    }
                }
            }
        }
    }

    /// A table at which the connection sits, if any.
    pub fn table_of_connection(&self, conn_id: &ConnectionId) -> (res: Option<TableId>)
        ensures
            res is None <==> forall|k: int|
                0 <= k < self.tables_of().len() ==> !(#[trigger] self.tables_of()[k]).1.contains(
                    *conn_id,
                ),
            res matches Some(t) ==> exists|k: int|
                0 <= k < self.tables_of().len() && (#[trigger] self.tables_of()[k]).0 == t.id_of()
                    && self.tables_of()[k].1.contains(*conn_id),
    {
        let ghost tables = self.tables_of();
        let mut k: usize = 0;
        while k < self.tables.len()
            invariant
                k <= self.tables@.len(),
                tables == self.tables_of(),
                forall|i: int| 0 <= i < k ==> !(#[trigger] tables[i]).1.contains(*conn_id),
            decreases self.tables@.len() - k,
        {
            let members = &self.tables[k].1;
            assert(members@ == tables[k as int].1);
            let mut m: usize = 0;
            while m < members.len()
                invariant
                    m <= members@.len(),
                    k < self.tables@.len(),
                    tables == self.tables_of(),
                    members@ == tables[k as int].1,
                    forall|j: int| 0 <= j < m ==> members@[j] != *conn_id,
                decreases members@.len() - m,
            {
                if members[m].id() == conn_id.id() {
                    proof {
                        crate::gateway::lemma_connection_id_ext(members@[m as int], *conn_id);
                        assert(tables[k as int].1.contains(*conn_id));
                    }
                    return Some(TableId::new(String::from_str(self.tables[k].0.id())));
                }
                m = m + 1;
            }
            k = k + 1;
        }
        None
    }

    /// The connections at the table that a message to the table reaches:
    /// those with an open session, in the order they joined. `None` if there
    /// is no such table.
    pub fn broadcast_recipients(&self, table_id: &TableId) -> (res: Option<Vec<ConnectionId>>)
        ensures
            res is None <==> forall|k: int|
                0 <= k < self.tables_of().len() ==> (#[trigger] self.tables_of()[k]).0 != table_id.id_of(),
            res matches Some(v) ==> exists|k: int|
                0 <= k < self.tables_of().len() && (#[trigger] self.tables_of()[k]).0 == table_id.id_of()
                    && v@ == with_session(self.tables_of()[k].1, self.sessions_of()),
    {
        let ghost tables = self.tables_of();
        let mut k: usize = 0;
        while k < self.tables.len()
            invariant
                k <= self.tables@.len(),
                tables == self.tables_of(),
                forall|i: int| 0 <= i < k ==> (#[trigger] tables[i]).0 != table_id.id_of(),
            decreases self.tables@.len() - k,
        {
            if self.tables[k].0 == *table_id {
                let members = &self.tables[k].1;
                let mut recipients: Vec<ConnectionId> = Vec::new();
                let mut m: usize = 0;
                while m < members.len()
                    invariant
                        m <= members@.len(),
                        recipients@ == with_session(members@.subrange(0, m as int), self.sessions_of()),
                    decreases members@.len() - m,
                {
                    proof {
                        assert(members@.subrange(0, m as int + 1).drop_last() =~= members@.subrange(
                            0,
                            m as int,
                        ));
                    }
                    if self.sessions.contains(&members[m].id()) {
                        recipients.push(members[m]);
                    }
                    m = m + 1;
                }
                proof {
                    assert(members@.subrange(0, members@.len() as int) =~= members@);
                    assert(tables[k as int].0 == table_id.id_of());
                }
                return Some(recipients);
            }
            k = k + 1;
        }
        None
    }

    /// The player of an authenticated connection.
    pub fn player_of(&self, conn_id: &ConnectionId) -> (res: Option<PlayerId>)
        ensures
            res is Some <==> self.players_of().contains_key(conn_id.id_of()),
            res matches Some(p) ==> p == self.players_of()[conn_id.id_of()],
    {
        match self.connection_player_map.get(&conn_id.id()) {
            Some(p) => Some(*p),
            None => None,
        }
    }

    /// The players at the table, in the order their connections joined.
    /// `None` if there is no such table or a connection at it is not
    /// authenticated.
    pub fn player_ids(&self, table_id: &TableId) -> (res: Option<Vec<PlayerId>>)
        ensures
            res is Some <==> exists|k: int|
                0 <= k < self.tables_of().len() && (#[trigger] self.tables_of()[k]).0 == table_id.id_of()
                    && forall|j: int|
                    0 <= j < self.tables_of()[k].1.len() ==> self.players_of().contains_key(
                        #[trigger] self.tables_of()[k].1[j].id_of(),
                    ),
            res matches Some(v) ==> exists|k: int|
                0 <= k < self.tables_of().len() && (#[trigger] self.tables_of()[k]).0 == table_id.id_of()
                    && v@ == self.tables_of()[k].1.map_values(
                    |c: ConnectionId| self.players_of()[c.id_of()],
                ),
    {
        proof {
            use_type_invariant(self);
        }
        let ghost tables = self.tables_of();
        let mut k: usize = 0;
        while k < self.tables.len()
            invariant
                k <= self.tables@.len(),
                tables == self.tables_of(),
                forall|i: int| 0 <= i < self.tables@.len() ==> #[trigger] tables[i].0 == self.tables@[i].0.id_of(),
                forall|i: int, j: int|
                    0 <= i < j < self.tables@.len() ==> self.tables@[i].0.id_of() != self.tables@[j].0.id_of(),
                forall|i: int| 0 <= i < k ==> (#[trigger] tables[i]).0 != table_id.id_of(),
            decreases self.tables@.len() - k,
        {
            if self.tables[k].0 == *table_id {
                let members = &self.tables[k].1;
                assert(members@ == tables[k as int].1);
                let mut players: Vec<PlayerId> = Vec::new();
                let mut m: usize = 0;
                while m < members.len()
                    invariant
                        m <= members@.len(),
                        k < self.tables@.len(),
                        tables == self.tables_of(),
                        tables[k as int].0 == table_id.id_of(),
                        forall|i: int| 0 <= i < self.tables@.len() ==> #[trigger] tables[i].0 == self.tables@[i].0.id_of(),
                        forall|i: int, j: int|
                            0 <= i < j < self.tables@.len() ==> self.tables@[i].0.id_of() != self.tables@[j].0.id_of(),
                        members@ == tables[k as int].1,
                        players@ == members@.subrange(0, m as int).map_values(
                            |c: ConnectionId| self.players_of()[c.id_of()],
                        ),
                        forall|j: int| 0 <= j < m ==> self.players_of().contains_key(#[trigger] members@[j].id_of()),
                    decreases members@.len() - m,
                {
                    match self.connection_player_map.get(&members[m].id()) {
                        Some(p) => {
                            players.push(*p);
                        },
                        None => {
                            proof {
                                assert forall|i: int|
                                    0 <= i < tables.len() && (#[trigger] tables[i]).0 == table_id.id_of()
                                    implies !(forall|j: int|
                                    0 <= j < tables[i].1.len() ==> self.players_of().contains_key(
                                        #[trigger] tables[i].1[j].id_of(),
                                    )) by {
                                    if i != k {
                                        if i < k {
                                            assert(self.tables@[i].0.id_of() != self.tables@[k as int].0.id_of());
                                        } else {
                                            assert(self.tables@[k as int].0.id_of() != self.tables@[i].0.id_of());
                                        }
                                    }
                                    assert(!self.players_of().contains_key(tables[i].1[m as int].id_of()));
                                }
                            }
                            return None;
                        },
                    }
                    m = m + 1;
                    proof {
                        assert(players@ =~= members@.subrange(0, m as int).map_values(
                            |c: ConnectionId| self.players_of()[c.id_of()],
                        ));
                    }
                }
                proof {
                    assert(members@.subrange(0, members@.len() as int) =~= members@);
                }
                return Some(players);
            }
            k = k + 1;
        }
        None
    }

    /// The action that the connection's player plays: the action with its
    /// color replaced by the player's color in `roles`. `None` if the
    /// connection is not authenticated or its player has no color.
    pub fn step_action(
        &self,
        conn_id: &ConnectionId,
        roles: &HashMap<u128, DiskColor>,
        action: &Action,
    ) -> (res: Option<Action>)
        ensures
            res is Some <==> self.players_of().contains_key(conn_id.id_of()) && role_in(
                roles@,
                self.players_of()[conn_id.id_of()],
            ) is Some,
            res matches Some(a) ==> a == with_color(
                *action,
                role_in(roles@, self.players_of()[conn_id.id_of()])->0,
            ),
    {
        let player_id = match self.player_of(conn_id) {
            Some(p) => p,
            None => return None,
        };
        match find_role(roles, &player_id) {
            Some(color) => Some(crate::gateway::action_with_color(action, color)),
            None => None,
        }
    }

    /// The color of the connection's player, who asks for a suggestion:
    /// an error if the connection is not authenticated, if its player has no
    /// color in `roles`, or if it is not that color's turn.
    pub fn suggestion_color(
        &self,
        conn_id: &ConnectionId,
        roles: &HashMap<u128, DiskColor>,
        turn: DiskColor,
    ) -> (res: Result<DiskColor, String>)
        ensures
            !self.players_of().contains_key(conn_id.id_of()) ==> (res matches Err(e) && e@
                == "Player not authenticated"@),
            self.players_of().contains_key(conn_id.id_of()) ==> match role_in(
                roles@,
                self.players_of()[conn_id.id_of()],
            ) {
                None => res matches Err(e) && e@ == "Player not found in this game"@,
                Some(color) => if color != turn {
                    res matches Err(e) && e@ == "It's not your turn"@
                } else {
                    res == Ok::<DiskColor, String>(color)
                },
            },
    {
        // Get player ID from connection
        let player_id = match self.player_of(conn_id) {
            Some(p) => p,
            None => return Err(String::from_str("Player not authenticated")),
        };
        // Get player's color from game state
        let player_color = match find_role(roles, &player_id) {
            Some(color) => color,
            None => return Err(String::from_str("Player not found in this game")),
        };
        // Check if it's the player's turn
        if turn != player_color {
            return Err(String::from_str("It's not your turn"));
        }
        Ok(player_color)
    }

    /// The endpoint to ask for a suggestion for the connection's player: the
    /// errors of [`GameSessionManager::suggestion_color`] first, then the
    /// endpoint of model `model` under `base_url`, or why there is none.
    pub fn suggestion_request(
        &self,
        conn_id: &ConnectionId,
        roles: &HashMap<u128, DiskColor>,
        turn: DiskColor,
        base_url: &str,
        model: &str,
    ) -> (res: Result<String, String>)
        requires
            1024 * (base_url@.len() + model@.len() + 10) <= u32::MAX,
        ensures
            !self.players_of().contains_key(conn_id.id_of()) ==> (res matches Err(e) && e@
                == "Player not authenticated"@),
            self.players_of().contains_key(conn_id.id_of()) ==> match role_in(
                roles@,
                self.players_of()[conn_id.id_of()],
            ) {
                None => res matches Err(e) && e@ == "Player not found in this game"@,
                Some(color) => if color != turn {
                    res matches Err(e) && e@ == "It's not your turn"@
                } else {
                    match url_error(base_url@) {
                        Some(err) => res matches Err(e) && e@ == err,
                        None => res matches Ok(u) && u@ == suggestion_endpoint(base_url@, model@),
                    }
                },
            },
    {
        self.suggestion_color(conn_id, roles, turn)?;
        suggestion_url(base_url, model)
    }

    /// Handles one command of the manager's loop: the manager's part of it,
    /// and what the service is to do next.
    pub fn handle(&mut self, command: Command) -> (res: Reply)
        ensures
            manager_step(*old(self), command, *final(self), res),
    {
        match command {
            Command::Connect => Reply::Connected(self.connect()),
            Command::Disconnect { connection_id, notify_table } => {
                if notify_table {
                    let found = self.table_of_connection(&connection_id);
                    self.disconnect(&connection_id);
                    Reply::DisconnectedNotify(found)
                } else {
                    self.disconnect(&connection_id);
                    Reply::Disconnected
                }
            },
            Command::CheckAuthenticated { connection_id } => Reply::Authenticated(
                self.is_authenticated(&connection_id),
            ),
            Command::Join { connection_id, table_id, player_id } => {
                self.join(&connection_id, &table_id, &player_id);
                Reply::Joined(table_id)
            },
            Command::BroadcastMessage { connection_id } => Reply::Broadcast(
                self.table_of_connection(&connection_id),
            ),
            Command::SendMessage { connection_id } => Reply::Send(connection_id),
            _ => Reply::Delegate,
        }
    }

}

/// The color of `player_id` in `roles`.
fn find_role(roles: &HashMap<u128, DiskColor>, player_id: &PlayerId) -> (res: Option<DiskColor>)
    ensures
        res == role_in(roles@, *player_id),
{
    match roles.get(&player_id.id) {
        Some(color) => Some(*color),
        None => None,
    }
}

/// Each player paired with the color of the same index, as long as both
/// lists last.
pub open spec fn paired(players: Seq<PlayerId>, colors: Seq<DiskColor>) -> Seq<(PlayerId, DiskColor)> {
    Seq::new(
        if players.len() < colors.len() {
            players.len()
        } else {
            colors.len()
        },
        |k: int| (players[k], colors[k]),
    )
}

/// The colors of the players made from `pairs` in order, by the value of the
/// player's ID: a later pair of a player replaces an earlier one.
pub open spec fn roles_from(pairs: Seq<(PlayerId, DiskColor)>) -> Map<u128, DiskColor>
    decreases pairs.len(),
{
    if pairs.len() == 0 {
        Map::empty()
    } else {
        roles_from(pairs.drop_last()).insert(pairs.last().0.id, pairs.last().1)
    }
}

/// Assigns disk colors to the players of a new game: dark and light in an
/// order left to chance, then each player in turn gets the next color; a
/// player listed twice keeps the later color. Returns the colors in order
/// and the color of each player.
pub fn assign_roles(player_ids: &Vec<PlayerId>) -> (res: (Vec<DiskColor>, HashMap<u128, DiskColor>))
    ensures
        res.0@ == seq![DiskColor::Dark, DiskColor::Light] || res.0@ == seq![
            DiskColor::Light,
            DiskColor::Dark,
        ],
        res.1@ == roles_from(paired(player_ids@, res.0@)),
{
    let mut colors: Vec<DiskColor> = Vec::new();
    colors.push(DiskColor::Dark);
    colors.push(DiskColor::Light);
    let ghost before = colors@;
    assert(before =~= seq![DiskColor::Dark, DiskColor::Light]);
    shuffle_colors(&mut colors);
    proof {
        lemma_two_colors(before, colors@);
    }
    let ghost pairs = paired(player_ids@, colors@);
    let mut roles: HashMap<u128, DiskColor> = HashMap::new();
    let mut i: usize = 0;
    proof {
        assert(pairs.take(0) =~= Seq::<(PlayerId, DiskColor)>::empty());
        assert(roles@ =~= roles_from(pairs.take(0)));
    }
    while i < player_ids.len() && i < colors.len()
        invariant
            colors@.len() == 2,
            i <= 2,
            i <= player_ids@.len(),
            pairs == paired(player_ids@, colors@),
            roles@ == roles_from(pairs.take(i as int)),
        decreases 2 - i,
    {
        let player = player_ids[i];
        let color = colors[i];
        proof {
            assert(pairs.take(i as int + 1).drop_last() =~= pairs.take(i as int));
            assert(pairs.take(i as int + 1).last() == (player, color));
        }
        roles.insert(player.id, color);
        i = i + 1;
    }
    proof {
        assert(pairs.take(i as int) =~= pairs);
    }
    (colors, roles)
}

/// The state stored for a table once the game endpoint answered `state`:
/// its table, puttable positions and judge, with the players' colors `roles`.
pub fn table_state_of(state: &StateResponseMessage, roles: HashMap<u128, DiskColor>) -> (res:
    TableState)
    ensures
        res.table_of().board_of() == state.table_of().board_of(),
        res.table_of().turn_of() == state.table_of().turn_of(),
        res.table_of().history_of() == state.table_of().history_of(),
        res.roles_of() == roles@,
        res.puttable_positions_of() == state.puttable_positions_of(),
        res.judge_result_of() == state.judge_result_of(),
{
    let puttable = state.puttable_positions();
    let mut puttable_positions: Vec<crate::position::Position> = Vec::new();
    let mut i: usize = 0;
    while i < puttable.len()
        invariant
            i <= puttable@.len(),
            puttable_positions@ == puttable@.subrange(0, i as int),
        decreases puttable@.len() - i,
    {
        puttable_positions.push(puttable[i]);
        i = i + 1;
        proof {
            assert(puttable_positions@ =~= puttable@.subrange(0, i as int));
        }
    }
    proof {
        assert(puttable_positions@ =~= puttable@);
    }
    TableState::new(copy_table(state.table()), roles, puttable_positions, *state.judge_result())
}

/// Starts the game of a table: the players get their colors (see
/// [`assign_roles`]), the colors are recorded in the new game's state, and
/// the state to store for the table is returned.
pub fn start_game(new_game_state: &mut StateResponseMessage, player_ids: &Vec<PlayerId>) -> (res:
    TableState)
    ensures
        final(new_game_state).table_of() == old(new_game_state).table_of(),
        final(new_game_state).puttable_positions_of() == old(new_game_state).puttable_positions_of(),
        final(new_game_state).judge_result_of() == old(new_game_state).judge_result_of(),
        final(new_game_state).player_colors_of() matches Some(colors) && (colors == seq![
            DiskColor::Dark,
            DiskColor::Light,
        ] || colors == seq![DiskColor::Light, DiskColor::Dark]) && res.roles_of() == roles_from(
            paired(player_ids@, colors),
        ),
        res.table_of().board_of() == old(new_game_state).table_of().board_of(),
        res.table_of().turn_of() == old(new_game_state).table_of().turn_of(),
        res.table_of().history_of() == old(new_game_state).table_of().history_of(),
        res.puttable_positions_of() == old(new_game_state).puttable_positions_of(),
        res.judge_result_of() == old(new_game_state).judge_result_of(),
{
    let (colors, roles) = assign_roles(player_ids);
    new_game_state.set_player_colors(colors);
    table_state_of(new_game_state, roles)
}

/// A shuffle of dark then light is one of the two orders of the colors.
proof fn lemma_two_colors(before: Seq<DiskColor>, after: Seq<DiskColor>)
    requires
        before == seq![DiskColor::Dark, DiskColor::Light],
        after.to_multiset() == before.to_multiset(),
    ensures
        after == seq![DiskColor::Dark, DiskColor::Light] || after == seq![
            DiskColor::Light,
            DiskColor::Dark,
        ],
{
    broadcast use vstd::seq_lib::group_to_multiset_ensures;

    assert(before.to_multiset().len() == 2);
    assert(after.len() == 2);
    assert(before.to_multiset().count(DiskColor::Dark) == 1) by {
        assert(before =~= seq![DiskColor::Dark].push(DiskColor::Light));
        assert(seq![DiskColor::Dark] =~= Seq::<DiskColor>::empty().push(DiskColor::Dark));
    }
    assert(before.to_multiset().count(DiskColor::Light) == 1) by {
        assert(before =~= seq![DiskColor::Dark].push(DiskColor::Light));
        assert(seq![DiskColor::Dark] =~= Seq::<DiskColor>::empty().push(DiskColor::Dark));
    }
    assert(after =~= seq![after[0]].push(after[1]));
    assert(seq![after[0]] =~= Seq::<DiskColor>::empty().push(after[0]));
    if after[0] == after[1] {
        assert(after.to_multiset().count(after[0]) == 2);
    }
}

} // verus!
