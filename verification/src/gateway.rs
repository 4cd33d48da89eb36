//! The pure parts of the gateway: table identifiers derived from passwords,
//! the keys under which tables are stored, bearer tokens, and the messages
//! the gateway exchanges.
use crate::action::{Action, PutConfig};
use crate::board::Bitboard;
use crate::disk::DiskColor;
use crate::judge::JudgeResult;
use crate::position::Position;
use crate::table::Table;
use base64::engine::general_purpose::URL_SAFE;
use base64::Engine;
use sha3::digest::{ExtendableOutput, Update, XofReader};
use sha3::Shake128;
use std::collections::HashMap;
use vstd::prelude::*;
use vstd::string::{StringExecFns, StringSliceAdditionalSpecFns};

verus! {

/// The first `len` bytes of the SHAKE128 output of `data`.
pub uninterp spec fn shake128_digest(data: Seq<u8>, len: nat) -> Seq<u8>;

/// The character of the URL-safe base64 alphabet for the six-bit value `v`:
/// `A`-`Z`, `a`-`z`, `0`-`9`, `-`, `_`.
pub open spec fn base64_char(v: int) -> char {
    if v < 26 {
        (65 + v) as char
    } else if v < 52 {
        (97 + v - 26) as char
    } else if v < 62 {
        (48 + v - 52) as char
    } else if v == 62 {
        '-'
    } else {
        '_'
    }
}

/// The URL-safe base64 encoding (with padding) of `data`: each group of three
/// bytes gives four characters of six bits each, and a last group of one or
/// two bytes gives two or three characters followed by `=` up to four.
pub open spec fn base64_url_safe(data: Seq<u8>) -> Seq<char>
    decreases data.len(),
{
    if data.len() == 0 {
        Seq::empty()
    } else {
        let b0 = data[0] as int;
        let b1 = if data.len() > 1 { data[1] as int } else { 0 };
        let b2 = if data.len() > 2 { data[2] as int } else { 0 };
        let c0 = base64_char(b0 / 4);
        let c1 = base64_char((b0 % 4) * 16 + b1 / 16);
        let c2 = base64_char((b1 % 16) * 4 + b2 / 64);
        let c3 = base64_char(b2 % 64);
        if data.len() == 1 {
            seq![c0, c1, '=', '=']
        } else if data.len() == 2 {
            seq![c0, c1, c2, '=']
        } else {
            seq![c0, c1, c2, c3] + base64_url_safe(data.subrange(3, data.len() as int))
        }
    }
}

/// Hashes `data` with `sha3::Shake128` (`Update::update`, then
/// `ExtendableOutput::finalize_xof`, then `XofReader::read` into `len`
/// bytes). Trusted: the result is the first `len` bytes of the SHAKE128
/// output of `data`, a value named here and not computed in the
/// specification.
#[verifier::external_body]
fn shake128(data: &[u8], len: usize) -> (res: Vec<u8>)
    ensures
        res@ == shake128_digest(data@, len as nat),
        res@.len() == len,
{
    let mut hasher = Shake128::default();
    hasher.update(data);
    let mut reader = hasher.finalize_xof();
    let mut digest = vec![0u8; len];
    reader.read(&mut digest);
    digest
}

/// Encodes `data` with `base64::engine::general_purpose::URL_SAFE`
/// (`Engine::encode`). Trusted: the result is the URL-safe base64 encoding of
/// `data` with padding, as [`base64_url_safe`] states it. The
/// encoding only panics when its length overflows `usize`, which `data` of at
/// most `usize::MAX / 4` bytes rules out.
#[verifier::external_body]
fn base64_url_safe_encode(data: &[u8]) -> (res: String)
    requires
        data@.len() <= usize::MAX / 4,
    ensures
        res@ == base64_url_safe(data@),
{
    URL_SAFE.encode(data)
}

/// Removes `prefix` from the start of `s`: the rest of `s` if `s` starts
/// with `prefix`, and `None` otherwise.
fn strip_prefix<'a>(s: &'a str, prefix: &str) -> (res: Option<&'a str>)
    ensures
        res is Some <==> (prefix@.len() <= s@.len() && s@.subrange(0, prefix@.len() as int)
            == prefix@),
        res matches Some(rest) ==> rest@ == s@.subrange(prefix@.len() as int, s@.len() as int),
{
    let n = prefix.unicode_len();
    let m = s.unicode_len();
    if n > m {
        return None;
    }
    let mut i: usize = 0;
    while i < n
        invariant
            i <= n,
            n == prefix@.len(),
            n <= m,
            m == s@.len(),
            s@.subrange(0, i as int) == prefix@.subrange(0, i as int),
        decreases n - i,
    {
        if s.get_char(i) != prefix.get_char(i) {
            proof {
                assert(s@.subrange(0, n as int)[i as int] != prefix@[i as int]);
            }
            return None;
        }
        i = i + 1;
        proof {
            assert(s@.subrange(0, i as int) =~= prefix@.subrange(0, i as int));
        }
    }
    proof {
        assert(prefix@.subrange(0, n as int) =~= prefix@);
    }
    Some(s.substring_char(n, m))
}

/// The decimal digits of `n` as ASCII bytes, most significant first.
pub open spec fn decimal_digits(n: nat) -> Seq<u8>
    decreases n,
{
    if n < 10 {
        seq![(48 + n) as u8]
    } else {
        decimal_digits(n / 10).push((48 + n % 10) as u8)
    }
}

/// Appends the decimal digits of `n` to `bytes`.
fn push_decimal(bytes: &mut Vec<u8>, n: u32)
    ensures
        final(bytes)@ == old(bytes)@ + decimal_digits(n as nat),
    decreases n,
{
    if n >= 10 {
        push_decimal(bytes, n / 10);
    }
    bytes.push(48u8 + (n % 10) as u8);
    proof {
        assert(final(bytes)@ =~= old(bytes)@ + decimal_digits(n as nat));
    }
}

/// `id` is the 128-bit value of a version 4 UUID of the RFC 4122 variant:
/// its version field (bits 76 to 79) is 4 and its variant field (bits 62 and
/// 63) is `0b10`.
pub open spec fn is_uuid_v4(id: u128) -> bool {
    &&& (id >> 76u128) & 0xfu128 == 4u128
    &&& (id >> 62u128) & 0x3u128 == 2u128
}

/// A random version 4 UUID (`uuid::Uuid::new_v4`), as its 128-bit value
/// (`Uuid::as_u128`). Trusted: as the source shows, `new_v4` masks a random
/// value so that the version field is 4 and the variant field is RFC 4122;
/// the other 122 bits are random and nothing is promised of them.
#[verifier::external_body]
fn new_uuid_v4() -> (res: u128)
    ensures
        is_uuid_v4(res),
{
    uuid::Uuid::new_v4().as_u128()
}

/// The lower-case hexadecimal digit of the four-bit value `n`.
pub open spec fn hex_digit(n: int) -> char {
    if n < 10 {
        (48 + n) as char
    } else {
        (87 + n) as char
    }
}

/// The number of hex digits before position `p` of a hyphenated UUID text.
pub open spec fn uuid_digit_index(p: int) -> int {
    if p > 23 {
        p - 4
    } else if p > 18 {
        p - 3
    } else if p > 13 {
        p - 2
    } else if p > 8 {
        p - 1
    } else {
        p
    }
}

/// The text of the UUID whose 128-bit value is `id`: its 32 hexadecimal
/// digits in lower case, most significant first, in groups of 8, 4, 4, 4 and
/// 12 joined by `-`.
pub open spec fn uuid_hyphenated(id: u128) -> Seq<char> {
    Seq::new(
        36,
        |p: int|
            if p == 8 || p == 13 || p == 18 || p == 23 {
                '-'
            } else {
                hex_digit(((id >> ((4 * (31 - uuid_digit_index(p))) as u128)) & 0xfu128) as int)
            },
    )
}

/// Writes the UUID whose 128-bit value is `id` (`Uuid::from_u128`, then
/// `ToString::to_string`). Trusted: the result is the hyphenated lower-case
/// text of that UUID, as [`uuid_hyphenated`] states it.
#[verifier::external_body]
fn uuid_text(id: u128) -> (res: String)
    ensures
        res@ == uuid_hyphenated(id),
{
    uuid::Uuid::from_u128(id).to_string()
}

/// The text that `{:?}` writes for a string: the string in double quotes,
/// with quotes, backslashes and non-printable characters escaped.
pub uninterp spec fn debug_quoted(s: Seq<char>) -> Seq<char>;

/// Writes `s` with the `Debug` format of `str` (`format!("{:?}", s)`).
/// Trusted: the result is the quoted and escaped text of `s`, a value named
/// here and not computed in the specification.
#[verifier::external_body]
fn debug_text(s: &str) -> (res: String)
    ensures
        res@ == debug_quoted(s@),
{
    format!("{:?}", s)
}

/// The text of the error with which `url::Url::parse` refuses `base`, or
/// `None` if it parses.
pub uninterp spec fn url_parse_error(base: Seq<char>) -> Option<Seq<char>>;

/// Whether the URL parsed from `base` cannot be a base (`Url::cannot_be_a_base`),
/// so that it takes no path segments.
pub uninterp spec fn url_cannot_be_a_base(base: Seq<char>) -> bool;

/// The text of the URL parsed from `base` once `segments` are appended to its
/// path in order (`PathSegmentsMut::extend`, then `Url::as_str`).
pub uninterp spec fn url_with_segments(base: Seq<char>, segments: Seq<Seq<char>>) -> Seq<char>;

/// The characters of `segments`, counting one more for each segment.
pub open spec fn segments_size(segments: Seq<Seq<char>>) -> int
    decreases segments.len(),
{
    if segments.len() == 0 {
        0
    } else {
        segments_size(segments.drop_last()) + segments.last().len() + 1
    }
}

/// The texts of `segments`.
pub open spec fn segment_texts(segments: Seq<&str>) -> Seq<Seq<char>> {
    segments.map_values(|t: &str| t@)
}

/// Why a base URL takes no path segments.
pub enum UrlRefusal {
    /// The base does not parse; the text of the parse error.
    Parse(String),
    /// The base parses to a URL that cannot be a base.
    CannotBeABase,
}

/// Appends `segments` to the path of the URL `base` with the `url` crate
/// (`Url::parse`, then `Url::path_segments_mut` and `PathSegmentsMut::extend`,
/// then `Url::as_str`). Trusted: a parse error gives its text, a URL that
/// cannot be a base gives `CannotBeABase`, and otherwise the result is the
/// named URL text, each a function of the arguments alone.
///
/// The crate panics when a URL's text grows past `u32::MAX` bytes (in
/// `path_segments::new` and `Url::restore_after_path`). Parsing writes an
/// input character as a bounded number of bytes (percent-encoding writes at
/// most twelve, host mapping and punycode a few hundred) and `extend` writes
/// a segment character as at most twelve, plus a `/` per segment; the
/// `requires` keeps the total far below that limit. The exact growth is not
/// stated.
#[verifier::external_body]
fn url_with_pushed_segments(base: &str, segments: &[&str]) -> (res: Result<String, UrlRefusal>)
    requires
        1024 * (base@.len() + segments_size(segment_texts(segments@)) + 1) <= u32::MAX,
    ensures
        match url_parse_error(base@) {
            Some(e) => res matches Err(UrlRefusal::Parse(t)) && t@ == e,
            None => if url_cannot_be_a_base(base@) {
                res matches Err(UrlRefusal::CannotBeABase)
            } else {
                res matches Ok(u) && u@ == url_with_segments(base@, segment_texts(segments@))
            },
        },
{
    let mut url = match url::Url::parse(base) {
        Ok(url) => url,
        Err(e) => return Err(UrlRefusal::Parse(e.to_string())),
    };
    match url.path_segments_mut() {
        Ok(mut path) => {
            path.extend(segments);
        },
        Err(()) => return Err(UrlRefusal::CannotBeABase),
    }
    Ok(url.as_str().to_string())
}

/// The endpoint of the suggestions of model `model` under the base URL `base`:
/// `base` parsed as a URL, with the path segments `model` and `suggest`
/// appended.
pub open spec fn suggestion_endpoint(base: Seq<char>, model: Seq<char>) -> Seq<char> {
    url_with_segments(base, seq![model, "suggest"@])
}

/// Why `base` gives no suggestion endpoint: the text of its parse error, or
/// that it cannot be a base; `None` if it gives one.
pub open spec fn url_error(base: Seq<char>) -> Option<Seq<char>> {
    match url_parse_error(base) {
        Some(e) => Some(e),
        None => if url_cannot_be_a_base(base) {
            Some("Cannot be a base URL"@)
        } else {
            None
        },
    }
}

/// The endpoint to ask model `model` for a suggestion, under the base URL
/// `base`, or why there is none.
pub fn suggestion_url(base: &str, model: &str) -> (res: Result<String, String>)
    requires
        1024 * (base@.len() + model@.len() + 10) <= u32::MAX,
    ensures
        res is Ok <==> url_error(base@) is None,
        res matches Ok(u) ==> u@ == suggestion_endpoint(base@, model@),
        res matches Err(e) ==> url_error(base@) == Some(e@),
{
    let segments: [&str; 2] = [model, "suggest"];
    proof {
        reveal_strlit("suggest");
        assert(segment_texts(segments@) =~= seq![model@, "suggest"@]);
        assert(seq![model@, "suggest"@].drop_last() =~= seq![model@]);
        assert(seq![model@].drop_last() =~= Seq::<Seq<char>>::empty());
        assert(segments_size(Seq::<Seq<char>>::empty()) == 0);
        assert(segments_size(seq![model@]) == model@.len() + 1);
        assert("suggest"@.len() == 7);
        assert(segments_size(seq![model@, "suggest"@]) == model@.len() + 9);
    }
    match url_with_pushed_segments(base, &segments) {
        Ok(url) => Ok(url),
        Err(UrlRefusal::Parse(e)) => Err(e),
        Err(UrlRefusal::CannotBeABase) => Err(String::from_str("Cannot be a base URL")),
    }
}

/// A player ID, represented as the 128-bit value of a UUID.
#[derive(Clone, Copy, PartialEq, Eq, Structural, Hash, Debug)]
pub struct PlayerId {
    /// The UUID of the player ID, as its 128-bit value.
    pub id: u128,
}

impl PlayerId {
    /// Creates a new [`PlayerId`] with a random version 4 UUID.
    pub fn new() -> (res: Self)
        ensures
            is_uuid_v4(res.id),
    {
        Self { id: new_uuid_v4() }
    }
}

/// A connection ID, represented as the 128-bit value of a UUID.
#[derive(Clone, Copy, PartialEq, Eq, Structural, Hash, Debug)]
pub struct ConnectionId {
    /// The UUID of the connection ID, as its 128-bit value.
    id: u128,
}

impl ConnectionId {
    /// The 128-bit value of this ID.
    pub closed spec fn id_of(self) -> u128 {
        self.id
    }

    /// Creates a new [`ConnectionId`] with a random version 4 UUID.
    pub fn new() -> (res: Self)
        ensures
            is_uuid_v4(res.id_of()),
    {
        Self { id: new_uuid_v4() }
    }

    /// Returns the 128-bit value of this ID.
    pub fn id(&self) -> (res: u128)
        ensures
            res == self.id_of(),
    {
        self.id
    }
}

/// Connection IDs with the same value are equal.
pub proof fn lemma_connection_id_ext(a: ConnectionId, b: ConnectionId)
    requires
        a.id_of() == b.id_of(),
    ensures
        a == b,
{
}

/// A table ID, represented as a string.
#[derive(Eq, Clone, Debug)]
pub struct TableId {
    /// The ID of the table.
    id: String,
}

impl TableId {
    /// The text of this ID.
    pub closed spec fn id_of(self) -> Seq<char> {
        self.id@
    }

    /// Creates a new [`TableId`].
    pub fn new(id: String) -> (res: Self)
        ensures
            res.id_of() == id@,
    {
        Self { id }
    }

    /// Returns the text of this ID.
    pub fn id(&self) -> (res: &str)
        ensures
            res@ == self.id_of(),
    {
        self.id.as_str()
    }
}

impl PartialEq for TableId {
    fn eq(&self, other: &Self) -> (res: bool) {
        self.id == other.id
    }
}

impl vstd::std_specs::cmp::PartialEqSpecImpl for TableId {
    open spec fn obeys_eq_spec() -> bool {
        true
    }

    open spec fn eq_spec(&self, other: &Self) -> bool {
        self.id_of() == other.id_of()
    }
}

/// A trait for converting a type to a Redis key.
pub trait RedisKey {
    /// Converts the type to a Redis key.
    fn to_key(&self) -> String;
}

impl RedisKey for TableId {
    fn to_key(&self) -> (res: String)
        ensures
            res@ == "table:"@ + self.id_of(),
    {
        let mut key = String::from_str("table:");
        key.append(self.id.as_str());
        key
    }
}

impl RedisKey for PlayerId {
    fn to_key(&self) -> (res: String)
        ensures
            res@ == "player:"@ + uuid_hyphenated(self.id),
    {
        let mut key = String::from_str("player:");
        key.append(uuid_text(self.id).as_str());
        key
    }
}

/// The key under which the name of the player `player_id` is stored.
pub fn player_key(player_id: &str) -> (res: String)
    ensures
        res@ == "player:"@ + player_id@,
{
    let mut key = String::from_str("player:");
    key.append(player_id);
    key
}

/// The longest name a player can register, in bytes.
pub const MAX_NAME_BYTES: usize = 10;

/// How long a JWT and a player ID stay valid, in seconds.
pub const EXPIRE_TIME_SECONDS: u64 = 3 * 60 * 60;

/// The error for a name that is too long to register.
pub open spec fn name_too_long_text() -> Seq<char> {
    "Name exceeds maximum length of 10 characters."@
}

/// Checks the name of a player who registers: at most ten bytes long.
pub fn check_player_name(name: &str) -> (res: Result<(), String>)
    ensures
        res is Ok <==> name.len() <= MAX_NAME_BYTES,
        res matches Err(e) ==> e@ == name_too_long_text(),
{
    if name.len() > MAX_NAME_BYTES {
        return Err(String::from_str("Name exceeds maximum length of 10 characters."));
    }
    Ok(())
}

/// The error for joining a table that already has two players.
pub open spec fn table_full_text(table_id: TableId) -> Seq<char> {
    "Table TableId { id: "@ + debug_quoted(table_id.id_of()) + " } is full."@
}

/// Checks that a player can join the stored table `game_table` of ID
/// `table_id`: the table has fewer than two players. Returns the text under
/// which the player is appended to the players of the table.
pub fn player_to_append(game_table: &GameTable, table_id: &TableId, player_id: &PlayerId) -> (res:
    Result<String, String>)
    ensures
        res is Ok <==> game_table.players_of().len() < 2,
        res matches Ok(p) ==> p@ == uuid_hyphenated(player_id.id),
        res matches Err(e) ==> e@ == table_full_text(*table_id),
{
    if game_table.players().len() >= 2 {
        let mut message = String::from_str("Table TableId { id: ");
        message.append(debug_text(table_id.id()).as_str());
        message.append(" } is full.");
        return Err(message);
    }
    Ok(uuid_text(player_id.id))
}

/// The table that is stored when `player_id` opens a new table, with the new
/// game state `game_state`.
pub fn new_game_table(player_id: &PlayerId, game_state: String) -> (res: GameTable)
    ensures
        res.players_of().len() == 1,
        res.players_of()[0]@ == uuid_hyphenated(player_id.id),
        res.game_state_of() == game_state@,
{
    let mut players: Vec<String> = Vec::new();
    players.push(uuid_text(player_id.id));
    GameTable::new(players, game_state)
}

/// The bytes that are hashed to name the table of `password` with `salt`:
/// the password followed by the salt in decimal.
pub open spec fn password_data(password: Seq<u8>, salt: u32) -> Seq<u8> {
    password + decimal_digits(salt as nat)
}

/// Converts a password to a table ID: the URL-safe base64 encoding of the
/// first ten bytes of the SHAKE128 hash of the password followed by the salt
/// in decimal.
pub fn convert_password_to_table_id(password: &str, salt: u32) -> (res: TableId)
    requires
        password.spec_bytes().len() + 10 <= usize::MAX,
    ensures
        res.id_of() == base64_url_safe(
            shake128_digest(password_data(password.spec_bytes(), salt), 10),
        ),
{
    let password_bytes = password.as_bytes();
    let mut data: Vec<u8> = Vec::new();
    let mut i: usize = 0;
    while i < password_bytes.len()
        invariant
            i <= password_bytes@.len(),
            data@ == password_bytes@.subrange(0, i as int),
        decreases password_bytes@.len() - i,
    {
        data.push(password_bytes[i]);
        i = i + 1;
        proof {
            assert(data@ =~= password_bytes@.subrange(0, i as int));
        }
    }
    proof {
        assert(data@ =~= password_bytes@);
    }
    push_decimal(&mut data, salt);
    let digest = shake128(data.as_slice(), 10);
    TableId::new(base64_url_safe_encode(digest.as_slice()))
}

/// The location of the table `table_id`, as a joined player is sent to it.
pub fn table_location(table_id: &TableId) -> (res: String)
    ensures
        res@ == "/"@ + table_id.id_of(),
{
    let mut location = String::from_str("/");
    location.append(table_id.id());
    location
}

/// The error for a request without an `Authorization` header.
pub open spec fn missing_token_text() -> Seq<char> {
    "Missing Bearer token."@
}

/// The error for an `Authorization` header that is not a bearer token.
pub open spec fn invalid_token_text() -> Seq<char> {
    "Invalid Bearer token."@
}

/// Extracts a Bearer token from the value of an `Authorization` header, if
/// the request has one.
///
/// # Returns
///
/// A Bearer token if it exists, or an error message otherwise.
pub fn extract_bearer_token(authorization: Option<&str>) -> (res: Result<String, String>)
    ensures
        authorization is None ==> (res matches Err(e) && e@ == missing_token_text()),
        authorization matches Some(h) ==> if "Bearer "@.len() <= h@.len() && h@.subrange(
            0,
            "Bearer "@.len() as int,
        ) == "Bearer "@ {
            res matches Ok(token) && token@ == h@.subrange("Bearer "@.len() as int, h@.len() as int)
        } else {
            res matches Err(e) && e@ == invalid_token_text()
        },
{
    match authorization {
        Some(bearer) => match strip_prefix(bearer, "Bearer ") {
            Some(token) => Ok(String::from_str(token)),
            None => Err(String::from_str("Invalid Bearer token.")),
        },
        None => Err(String::from_str("Missing Bearer token.")),
    }
}

/// The action `action` with its color replaced by `color`: the color stored
/// for the player who sent it.
pub open spec fn with_color(action: Action, color: DiskColor) -> Action {
    match action {
        Action::PutDisk(config) => Action::PutDisk(
            PutConfig::spec_new(color, config.position_of()),
        ),
        Action::PassTurn(_) => Action::PassTurn(color),
    }
}

/// Overrides the disk color of an action with the color of the player who
/// sent it.
pub fn action_with_color(action: &Action, color: DiskColor) -> (res: Action)
    ensures
        res == with_color(*action, color),
{
    match action {
        Action::PutDisk(config) => Action::PutDisk(PutConfig::new(color, *config.position())),
        Action::PassTurn(_) => Action::PassTurn(color),
    }
}

/// A game table as it is stored.
pub struct GameTable {
    /// A list of player IDs
    players: Vec<String>,
    /// A game state
    game_state: String,
}

impl GameTable {
    /// The IDs of the players at this table.
    pub closed spec fn players_of(self) -> Seq<String> {
        self.players@
    }

    /// The stored game state.
    pub closed spec fn game_state_of(self) -> Seq<char> {
        self.game_state@
    }

    /// Creates a new `GameTable` instance.
    pub fn new(players: Vec<String>, game_state: String) -> (res: Self)
        ensures
            res.players_of() == players@,
            res.game_state_of() == game_state@,
    {
        GameTable { players, game_state }
    }

    /// Returns a reference to the players.
    pub fn players(&self) -> (res: &Vec<String>)
        ensures
            res@ == self.players_of(),
    {
        &self.players
    }

    /// Returns a reference to the stored game state.
    pub fn game_state(&self) -> (res: &String)
        ensures
            res@ == self.game_state_of(),
    {
        &self.game_state
    }
}

/// A table state as it is stored: the table, the color of each player, the
/// positions the player to move can put a disk on and the judge of a
/// finished game.
pub struct TableState {
    /// The table.
    table: Table,
    /// The color of each player, by the value of the player's ID.
    roles: HashMap<u128, DiskColor>,
    /// The puttable positions.
    puttable_positions: Vec<Position>,
    /// The judge result.
    judge_result: Option<JudgeResult>,
}

impl TableState {
    /// The table of this state.
    pub closed spec fn table_of(self) -> Table {
        self.table
    }

    /// The color of each player, by the value of the player's ID.
    pub closed spec fn roles_of(self) -> Map<u128, DiskColor> {
        self.roles@
    }

    /// The positions the player to move can put a disk on.
    pub closed spec fn puttable_positions_of(self) -> Seq<Position> {
        self.puttable_positions@
    }

    /// The judge of a finished game.
    pub closed spec fn judge_result_of(self) -> Option<JudgeResult> {
        self.judge_result
    }

    /// Creates a new [`TableState`].
    pub fn new(
        table: Table,
        roles: HashMap<u128, DiskColor>,
        puttable_positions: Vec<Position>,
        judge_result: Option<JudgeResult>,
    ) -> (res: Self)
        ensures
            res.table_of() == table,
            res.roles_of() == roles@,
            res.puttable_positions_of() == puttable_positions@,
            res.judge_result_of() == judge_result,
    {
        Self { table, roles, puttable_positions, judge_result }
    }

    /// Returns a reference to the table of this [`TableState`].
    pub fn table(&self) -> (res: &Table)
        ensures
            *res == self.table_of(),
    {
        &self.table
    }

    /// Returns the color of each player, by the value of the player's ID.
    pub fn roles(&self) -> (res: &HashMap<u128, DiskColor>)
        ensures
            res@ == self.roles_of(),
    {
        &self.roles
    }

    /// Returns the positions the player to move can put a disk on.
    pub fn puttable_positions(&self) -> (res: &Vec<Position>)
        ensures
            res@ == self.puttable_positions_of(),
    {
        &self.puttable_positions
    }

    /// Returns the judge of a finished game.
    pub fn judge_result(&self) -> (res: Option<JudgeResult>)
        ensures
            res == self.judge_result_of(),
    {
        self.judge_result
    }
}

/// A player profile, which includes the name and avatar of the player.
pub struct PlayerProfile {
    /// The name of the player.
    pub name: String,
    /// The avatar URL of the player.
    pub avatar_url: String,
}

/// A request to update a player's profile.
pub struct UpdateProfileRequest {
    /// The player's new avatar URL.
    pub avatar_url: String,
}

/// A player registration request.
pub struct PlayerRegistrationRequest {
    /// The name of the player.
    pub name: String,
}

/// A player registration response.
pub struct PlayerRegistrationResponse {
    /// A JWT of the player.
    pub token: String,
}

/// The query of a game connection.
pub struct Info {
    /// A table ID.
    pub table_id: String,
}

/// A request for a suggestion from a model.
pub struct SuggestionRequest {
    /// The name of the model to use.
    pub model: String,
    /// A unique ID for the request.
    pub request_id: String,
}

/// A request to invoke a model for a suggestion.
pub struct InvocationRequest {
    /// The game board state.
    pub board: Bitboard,
    /// The current player's turn.
    pub turn: DiskColor,
    /// The positions that the current player can put disks on.
    pub puttable_positions: Vec<Position>,
}

/// A request message to the game endpoint.
pub struct RequestMessage {
    /// A table of the game.
    pub table: Table,
    /// An action to execute.
    pub action: Action,
}

} // verus!
