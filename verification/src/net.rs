//! The transport layer: a network client with a hard offline fallback, the
//! transport error taxonomy, the classification of non-blocking read
//! outcomes, and the tolerant parser that turns raw server text into typed
//! messages by scanning whitespace-split tokens for known command keywords.
use vstd::prelude::*;

verus! {

use crate::protocol::ClientToServer;
use crate::protocol::Facing;
use crate::protocol::Position;
use crate::protocol::ServerToClient;
use crate::protocol::facing_of_chars;
use crate::protocol::str_eq;
use crate::text::contains_seq;
use crate::text::has_prefix;
use crate::text::has_suffix;
use crate::text::join_with;
use crate::text::join_tokens;
use crate::text::parse_i32;
use crate::text::parse_i32_chars;
use crate::text::split_whitespace_tokens;
use crate::text::split_wspace;
use crate::text::str_contains;
use crate::text::str_has_prefix;
use crate::text::str_has_suffix;
use crate::text::strip_prefix_all;
use crate::text::strip_prefix_repeated;
use crate::text::strip_suffix_all;
use crate::text::strip_suffix_repeated;

/// Network client errors that can occur during communication.
#[derive(Debug)]
pub enum NCError {
    /// Failed to send data to the server.
    SendError,
    /// No new data available from the server; the expected steady state,
    /// not a failure.
    NoNewData,
    /// Connection-related errors, with a descriptive message.
    ConnectionError(String),
}

/// The transport state of the network client: either offline, where sends
/// succeed trivially and receives report no data, or online, where the
/// socket itself is owned by the I/O layer and its read outcomes are
/// classified through [`interpret_read`]. Offline mode never holds a
/// socket.
pub struct NetClient {
    offline_mode: bool,
}

impl NetClient {
    /// Whether the client is in offline mode.
    pub closed spec fn spec_offline(&self) -> bool {
        self.offline_mode
    }

    /// A client in the given mode; an online client starts with no live
    /// connection (the socket is owned by the I/O layer around it).
    pub fn new_with_mode(offline_mode: bool) -> (r: Self)
        ensures
            r.spec_offline() == offline_mode,
    {
        Self { offline_mode }
    }

    /// A new client in offline mode, for local or solo play.
    pub fn new_offline() -> (r: Self)
        ensures
            r.spec_offline(),
    {
        Self::new_with_mode(true)
    }

    /// Returns whether the client is in offline mode.
    pub fn is_offline(&self) -> (r: bool)
        ensures
            r == self.spec_offline(),
    {
        self.offline_mode
    }

    /// Sends a client-to-server message. Offline mode always succeeds
    /// without transmitting; without a live connection the send reports the
    /// connection lost.
    pub fn send(&mut self, cts: ClientToServer) -> (r: Result<(), NCError>)
        ensures
            *final(self) == *old(self),
            old(self).spec_offline() ==> r == Ok::<(), NCError>(()),
            !old(self).spec_offline() ==> (r matches Err(NCError::ConnectionError(m)) && m@
                == "Server connection lost"@),
    {
        if self.offline_mode {
            return Ok(());
        }
        let _ = cts.as_line();
        Err(NCError::ConnectionError(String::from_str("Server connection lost")))
    }

    /// Receives data from the server. Offline mode always reports
    /// [`NCError::NoNewData`], never blocking and never failing; without a
    /// live connection the receive reports the connection lost.
    pub fn recv(&mut self) -> (r: Result<String, NCError>)
        ensures
            *final(self) == *old(self),
            old(self).spec_offline() ==> r matches Err(NCError::NoNewData),
            !old(self).spec_offline() ==> (r matches Err(NCError::ConnectionError(m)) && m@
                == "Server connection lost"@),
    {
        if self.offline_mode {
            return Err(NCError::NoNewData);
        }
        Err(NCError::ConnectionError(String::from_str("Server connection lost")))
    }
}

/// One outcome of a non-blocking socket read, as the I/O layer saw it.
pub enum ReadEvent {
    /// Some bytes arrived, decoded to text.
    Data(String),
    /// The read returned zero bytes: the peer closed the connection.
    Closed,
    /// The read would have blocked: nothing new has arrived.
    WouldBlock,
    /// The read failed, with the error's description.
    Failed(String),
}

/// Classifies one non-blocking read outcome the way `recv` reports it:
/// data is handed through, zero bytes means the peer closed, a read that
/// would block means no new data, and any other failure is a connection
/// error.
pub fn interpret_read(ev: ReadEvent) -> (r: Result<String, NCError>)
    ensures
        ({
            match ev {
                ReadEvent::Data(s) => r == Ok::<String, NCError>(s),
                ReadEvent::Closed => r matches Err(NCError::ConnectionError(m)) && m@
                    == "Server closed connection"@,
                ReadEvent::WouldBlock => r matches Err(NCError::NoNewData),
                ReadEvent::Failed(e) => r matches Err(NCError::ConnectionError(m)) && m == e,
            }
        }),
{
    match ev {
        ReadEvent::Data(s) => Ok(s),
        ReadEvent::Closed => Err(
            NCError::ConnectionError(String::from_str("Server closed connection")),
        ),
        ReadEvent::WouldBlock => Err(NCError::NoNewData),
        ReadEvent::Failed(e) => Err(NCError::ConnectionError(e)),
    }
}

/// An inbound message at the specification level: the message kind and its
/// field values, strings as character sequences.
pub enum ServerMsg {
    Joined(Seq<char>, int, int, Facing),
    Left(Seq<char>),
    Moved(Seq<char>, int, int, Facing),
    Chat(Seq<char>, Seq<char>),
}

/// The index of the first token equal to `kw`, or the token count.
pub open spec fn first_tok(toks: Seq<Seq<char>>, kw: Seq<char>) -> int
    decreases toks.len(),
{
    if toks.len() == 0 {
        0
    } else if toks[0] == kw {
        0
    } else {
        1 + first_tok(toks.drop_first(), kw)
    }
}

/// A scan that saw no matching token before `i`, and one at `i` or ran
/// out, pins down `first_tok`.
proof fn lemma_first_tok_pin(toks: Seq<Seq<char>>, kw: Seq<char>, i: int)
    requires
        0 <= i <= toks.len(),
        forall|j: int| 0 <= j < i ==> #[trigger] toks[j] != kw,
        i == toks.len() || toks[i] == kw,
    ensures
        first_tok(toks, kw) == i,
    decreases toks.len(),
{
    if toks.len() == 0 {
    } else if toks[0] == kw {
        assert(i == 0);
    } else {
        assert(i >= 1);
        lemma_first_tok_pin(toks.drop_first(), kw, i - 1);
    }
}

/// Whether a token carries a tagged username, `USR-(<name>):`.
pub open spec fn is_usr_tok(t: Seq<char>) -> bool {
    has_prefix(t, "USR-("@) && has_suffix(t, "):"@)
}

/// The index of the first username-tagged token, or the token count.
pub open spec fn first_usr_tok(toks: Seq<Seq<char>>) -> int
    decreases toks.len(),
{
    if toks.len() == 0 {
        0
    } else if is_usr_tok(toks[0]) {
        0
    } else {
        1 + first_usr_tok(toks.drop_first())
    }
}

/// A scan that saw no username-tagged token before `i`, and one at `i` or
/// ran out, pins down `first_usr_tok`.
proof fn lemma_first_usr_tok_pin(toks: Seq<Seq<char>>, i: int)
    requires
        0 <= i <= toks.len(),
        forall|j: int| 0 <= j < i ==> !is_usr_tok(#[trigger] toks[j]),
        i == toks.len() || is_usr_tok(toks[i]),
    ensures
        first_usr_tok(toks) == i,
    decreases toks.len(),
{
    if toks.len() == 0 {
    } else if is_usr_tok(toks[0]) {
        assert(i == 0);
    } else {
        assert(i >= 1);
        lemma_first_usr_tok_pin(toks.drop_first(), i - 1);
    }
}

/// Reads `<kw> <user> <x> <y> <facing>` starting at the first occurrence
/// of the keyword token; any missing or unparsable field discards the
/// whole message.
pub open spec fn parse_move_like(toks: Seq<Seq<char>>, kw: Seq<char>) -> Option<
    (Seq<char>, int, int, Facing),
> {
    let i = first_tok(toks, kw);
    if i < toks.len() && i + 4 < toks.len() {
        match parse_i32_chars(toks[i + 2]) {
            Some(x) => match parse_i32_chars(toks[i + 3]) {
                Some(y) => match facing_of_chars(toks[i + 4]) {
                    Some(f) => Some((toks[i + 1], x, y, f)),
                    None => None,
                },
                None => None,
            },
            None => None,
        }
    } else {
        None
    }
}

/// The username inside a `USR-(<name>):` token, with every copy of the tag
/// text stripped from both ends.
pub open spec fn usr_tok_name(t: Seq<char>) -> Seq<char> {
    strip_suffix_all(strip_prefix_all(t, "USR-("@), "):"@)
}

/// How one raw server chunk is read: the first matching keyword anywhere
/// in the whitespace-split tokens decides the message kind, a recognized
/// keyword with a missing or unparsable field discards the message, and a
/// chunk with no keyword is noise. A facing-only line, tagged with the
/// sender's username, reads as a move to the dummy position (0, 0).
pub open spec fn spec_parse_server_message(s: Seq<char>) -> Option<ServerMsg> {
    let toks = split_wspace(s);
    if contains_seq(s, "player_moved"@) {
        match parse_move_like(toks, "player_moved"@) {
            Some((u, x, y, f)) => Some(ServerMsg::Moved(u, x, y, f)),
            None => None,
        }
    } else if contains_seq(s, "player_joined"@) {
        match parse_move_like(toks, "player_joined"@) {
            Some((u, x, y, f)) => Some(ServerMsg::Joined(u, x, y, f)),
            None => None,
        }
    } else if contains_seq(s, "player_left"@) {
        let i = first_tok(toks, "player_left"@);
        if i < toks.len() && i + 1 < toks.len() {
            Some(ServerMsg::Left(toks[i + 1]))
        } else {
            None
        }
    } else if contains_seq(s, "Facing"@) {
        let u = first_usr_tok(toks);
        if u < toks.len() {
            let i = first_tok(toks, "Facing"@);
            if i < toks.len() && i + 1 < toks.len() {
                match facing_of_chars(toks[i + 1]) {
                    Some(f) => Some(ServerMsg::Moved(usr_tok_name(toks[u]), 0, 0, f)),
                    None => None,
                }
            } else {
                None
            }
        } else {
            None
        }
    } else if contains_seq(s, "chat_message"@) {
        let i = first_tok(toks, "chat_message"@);
        if i < toks.len() && i + 2 < toks.len() {
            Some(ServerMsg::Chat(toks[i + 1], join_with(toks.subrange(i + 2, toks.len() as int), ' ')))
        } else {
            None
        }
    } else {
        None
    }
}

/// Whether a typed message carries exactly the fields of a specification
/// message.
pub open spec fn msg_matches(m: ServerToClient, sm: ServerMsg) -> bool {
    match sm {
        ServerMsg::Joined(u, x, y, f) => m matches ServerToClient::PlayerJoined(mu, p, mf) && mu@
            == u && p.x as int == x && p.y as int == y && mf == f,
        ServerMsg::Left(u) => m matches ServerToClient::PlayerLeft(mu) && mu@ == u,
        ServerMsg::Moved(u, x, y, f) => m matches ServerToClient::PlayerMoved(mu, p, mf) && mu@ == u
            && p.x as int == x && p.y as int == y && mf == f,
        ServerMsg::Chat(u, t) => m matches ServerToClient::ChatMessage(mu, mt) && mu@ == u && mt@
            == t,
    }
}

/// Finds the first token equal to `kw`; returns the token count if absent.
fn find_token(toks: &Vec<String>, kw: &str) -> (r: usize)
    ensures
        r == first_tok(toks.deep_view(), kw@),
        r <= toks.deep_view().len(),
{
    let n = toks.len();
    let mut i: usize = 0;
    while i < n
        invariant
            0 <= i <= n,
            n == toks@.len(),
            forall|j: int| 0 <= j < i ==> #[trigger] toks.deep_view()[j] != kw@,
        decreases n - i,
    {
        proof {
            assert(toks.deep_view()[i as int] == toks@[i as int]@);
        }
        if str_eq(toks[i].as_str(), kw) {
            proof {
                lemma_first_tok_pin(toks.deep_view(), kw@, i as int);
            }
            return i;
        }
        i += 1;
    }
    proof {
        lemma_first_tok_pin(toks.deep_view(), kw@, n as int);
    }
    n
}

/// Reads the `<user> <x> <y> <facing>` fields after the first occurrence
/// of the keyword token.
fn move_fields(toks: &Vec<String>, kw: &str) -> (r: Option<(String, i32, i32, Facing)>)
    ensures
        ({
            match parse_move_like(toks.deep_view(), kw@) {
                Some((u, x, y, f)) => r matches Some(t) && t.0@ == u && t.1 as int == x && t.2 as int
                    == y && t.3 == f,
                None => r is None,
            }
        }),
{
    let n = toks.len();
    let i = find_token(toks, kw);
    if !(i < n && n - i > 4) {
        return None;
    }
    proof {
        assert(toks.deep_view()[i + 2] == toks@[i + 2]@);
        assert(toks.deep_view()[i + 3] == toks@[i + 3]@);
        assert(toks.deep_view()[i + 4] == toks@[i + 4]@);
        assert(toks.deep_view()[i + 1] == toks@[i + 1]@);
    }
    let x = match parse_i32(toks[i + 2].as_str()) {
        Some(x) => x,
        None => {
            return None;
        },
    };
    let y = match parse_i32(toks[i + 3].as_str()) {
        Some(y) => y,
        None => {
            return None;
        },
    };
    let f = match Facing::from_str(toks[i + 4].as_str()) {
        Ok(f) => f,
        Err(_) => {
            return None;
        },
    };
    Some((toks[i + 1].clone(), x, y, f))
}

impl NetClient {
    /// Parses one raw server chunk into a typed message by scanning the
    /// whitespace-split tokens for known command keywords, positioned
    /// anywhere in the chunk. A message whose recognized keyword is
    /// followed by a missing or unparsable field is discarded; a chunk
    /// with no recognized keyword is ignored as noise.
    pub fn parse_server_message(&self, message: &str) -> (r: Option<ServerToClient>)
        ensures
            ({
                match spec_parse_server_message(message@) {
                    Some(sm) => r matches Some(m) && msg_matches(m, sm),
                    None => r is None,
                }
            }),
    {
        proof {
            reveal_strlit("player_moved");
            reveal_strlit("player_joined");
            reveal_strlit("player_left");
            reveal_strlit("Facing");
            reveal_strlit("chat_message");
            reveal_strlit("USR-(");
            reveal_strlit("):");
            reveal_strlit(" ");
            assert(" "@ =~= seq![' ']);
        }
        let toks = split_whitespace_tokens(message);
        let n = toks.len();
        if str_contains(message, "player_moved") {
            match move_fields(&toks, "player_moved") {
                Some((username, x, y, facing)) => Some(
                    ServerToClient::PlayerMoved(username, Position::new(x, y), facing),
                ),
                None => None,
            }
        } else if str_contains(message, "player_joined") {
            match move_fields(&toks, "player_joined") {
                Some((username, x, y, facing)) => Some(
                    ServerToClient::PlayerJoined(username, Position::new(x, y), facing),
                ),
                None => None,
            }
        } else if str_contains(message, "player_left") {
            let i = find_token(&toks, "player_left");
            if i < n && n - i > 1 {
                proof {
                    assert(toks.deep_view()[i + 1] == toks@[i + 1]@);
                }
                Some(ServerToClient::PlayerLeft(toks[i + 1].clone()))
            } else {
                None
            }
        } else if str_contains(message, "Facing") {
            proof {
                assert(toks.deep_view().len() == toks@.len());
            }
            let u = match find_usr_token(&toks) {
                Some(u) => u,
                None => {
                    return None;
                },
            };
            let i = find_token(&toks, "Facing");
            if i < n && n - i > 1 {
                proof {
                    assert(toks.deep_view().len() == toks@.len());
                    assert(u < n);
                    assert(toks.deep_view()[i + 1] == toks@[i + 1]@);
                    assert(toks.deep_view()[u as int] == toks@[u as int]@);
                }
                let facing = match Facing::from_str(toks[i + 1].as_str()) {
                    Ok(f) => f,
                    Err(_) => {
                        return None;
                    },
                };
                let tagged = strip_prefix_repeated(toks[u].as_str(), "USR-(");
                let username = strip_suffix_repeated(tagged.as_str(), "):");
                Some(ServerToClient::PlayerMoved(username, Position::new(0, 0), facing))
            } else {
                None
            }
        } else if str_contains(message, "chat_message") {
            let i = find_token(&toks, "chat_message");
            if i < n && n - i > 2 {
                proof {
                    assert(toks.deep_view()[i + 1] == toks@[i + 1]@);
                }
                let username = toks[i + 1].clone();
                let mut content_parts: Vec<String> = Vec::new();
                let mut j: usize = i + 2;
                while j < n
                    invariant
                        i + 2 <= j <= n,
                        n == toks@.len(),
                        content_parts.deep_view() =~= toks.deep_view().subrange(
                            i as int + 2,
                            j as int,
                        ),
                    decreases n - j,
                {
                    let ghost before = content_parts.deep_view();
                    content_parts.push(toks[j].clone());
                    proof {
                        assert(toks.deep_view()[j as int] == toks@[j as int]@);
                        assert(content_parts.deep_view() =~= before.push(
                            toks.deep_view()[j as int],
                        ));
                        assert(toks.deep_view().subrange(i as int + 2, j as int + 1)
                            =~= toks.deep_view().subrange(i as int + 2, j as int).push(
                            toks.deep_view()[j as int],
                        ));
                    }
                    j += 1;
                }
                let content = join_tokens(&content_parts, " ");
                Some(ServerToClient::ChatMessage(username, content))
            } else {
                None
            }
        } else {
            None
        }
    }
}

/// Finds the first `USR-(<name>):` token; `None` if there is none.
fn find_usr_token(toks: &Vec<String>) -> (r: Option<usize>)
    ensures
        match r {
            Some(u) => u < toks@.len() && u as int == first_usr_tok(toks.deep_view()),
            None => first_usr_tok(toks.deep_view()) == toks.deep_view().len(),
        },
{
    proof {
        assert(toks.deep_view().len() == toks@.len());
    }
    let n = toks.len();
    let mut i: usize = 0;
    while i < n
        invariant
            0 <= i <= n,
            n == toks@.len(),
            forall|j: int| 0 <= j < i ==> !is_usr_tok(#[trigger] toks.deep_view()[j]),
        decreases n - i,
    {
        proof {
            assert(toks.deep_view()[i as int] == toks@[i as int]@);
        }
        if str_has_prefix(toks[i].as_str(), "USR-(") && str_has_suffix(toks[i].as_str(), "):") {
            proof {
                lemma_first_usr_tok_pin(toks.deep_view(), i as int);
            }
            return Some(i);
        }
        i += 1;
    }
    proof {
        lemma_first_usr_tok_pin(toks.deep_view(), n as int);
    }
    None
}

} // verus!
