//! Core protocol value types and the wire codec: grid positions, facing
//! directions, the client-to-server and server-to-client message unions,
//! and the line encoding with its proved round trip.
use vstd::prelude::*;

verus! {

use crate::text::concat_all;
use crate::text::dec_chars;
use crate::text::find_char_idx;
use crate::text::fmt_i32;
use crate::text::has_prefix;
use crate::text::has_suffix;
use crate::text::lemma_concat_snoc;
use crate::text::lemma_dec_chars_no_space;
use crate::text::lemma_find_char_at;
use crate::text::lemma_parse_of_dec;
use crate::text::lemma_space_prefixed_snoc;
use crate::text::parse_i32_chars;
use crate::text::space_prefixed_concat;
use crate::text::split_char_tokens;
use crate::text::split_chars;

/// Errors reported by the protocol layer.
#[derive(Debug, Clone)]
pub enum ProtocolError {
    /// A server line did not match any recognized message shape.
    ServerLineUnparsable,
    /// A structured value (such as a zone link) was malformed.
    InvalidFormat(String),
    /// A facing token was none of the four recognized direction names.
    InvalidFacingDirection,
}

/// A grid-addressable world coordinate; a plain value type, copied freely.
#[derive(Debug, Copy, Clone)]
pub struct Position {
    pub x: i32,
    pub y: i32,
}

impl Position {
    pub fn new(x: i32, y: i32) -> (r: Self)
        ensures
            r.x == x,
            r.y == y,
    {
        Self { x, y }
    }
}

/// One of the four cardinal directions a player can face.
#[derive(Debug, Clone, Copy, PartialEq, Eq, Structural, PartialOrd, Ord, Hash)]
pub enum Facing {
    North,
    East,
    South,
    West,
}

/// The canonical string form of a facing direction.
pub open spec fn facing_chars(f: Facing) -> Seq<char> {
    match f {
        Facing::North => "North"@,
        Facing::East => "East"@,
        Facing::South => "South"@,
        Facing::West => "West"@,
    }
}

/// The facing denoted by a token, if it is one of the four direction names.
pub open spec fn facing_of_chars(s: Seq<char>) -> Option<Facing> {
    if s == "North"@ {
        Some(Facing::North)
    } else if s == "East"@ {
        Some(Facing::East)
    } else if s == "South"@ {
        Some(Facing::South)
    } else if s == "West"@ {
        Some(Facing::West)
    } else {
        None
    }
}

impl Facing {
    /// Renders the direction as its canonical protocol token.
    pub fn to_string(&self) -> (r: String)
        ensures
            r@ == facing_chars(*self),
    {
        match self {
            Facing::North => String::from_str("North"),
            Facing::East => String::from_str("East"),
            Facing::South => String::from_str("South"),
            Facing::West => String::from_str("West"),
        }
    }

    /// Parses a direction token; an unrecognized token is an error, never a
    /// silent default, so protocol drift cannot masquerade as misdirection.
    pub fn from_str(s: &str) -> (r: Result<Self, ProtocolError>)
        ensures
            match facing_of_chars(s@) {
                Some(f) => r == Ok::<Facing, ProtocolError>(f),
                None => r matches Err(ProtocolError::InvalidFacingDirection),
            },
    {
        if str_eq(s, "North") {
            Ok(Facing::North)
        } else if str_eq(s, "East") {
            Ok(Facing::East)
        } else if str_eq(s, "South") {
            Ok(Facing::South)
        } else if str_eq(s, "West") {
            Ok(Facing::West)
        } else {
            Err(ProtocolError::InvalidFacingDirection)
        }
    }
}

/// Law: `from_str` inverts `to_string` on every facing value.
pub proof fn lemma_facing_round_trip(f: Facing)
    ensures
        facing_of_chars(facing_chars(f)) == Some(f),
{
    reveal_strlit("North");
    reveal_strlit("East");
    reveal_strlit("South");
    reveal_strlit("West");
    assert("North"@.len() == 5);
    assert("East"@.len() == 4);
    assert("South"@.len() == 5);
    assert("West"@.len() == 4);
    match f {
        Facing::North => {
            assert(facing_of_chars(facing_chars(f)) == Some(f));
        }
        Facing::East => {
            assert("East"@ != "North"@);
            assert(facing_of_chars(facing_chars(f)) == Some(f));
        }
        Facing::South => {
            assert("South"@[0] != "North"@[0]);
            assert(facing_of_chars(facing_chars(f)) == Some(f));
        }
        Facing::West => {
            assert("West"@ != "North"@);
            assert("West"@[0] != "South"@[0]);
            assert(facing_of_chars(facing_chars(f)) == Some(f));
        }
    }
}

/// An outbound message; immutable once constructed, its lifetime is one
/// send call.
#[derive(Debug)]
pub enum ClientToServer {
    AttemptPlayerMove(Position),
    AttemptPlayerFacingChange(Facing),
    Register(String, String),
    Login(String, String),
    ChatMessage(String),
    SetUsername(String),
    SetPosition(i32, i32),
    Command(Vec<String>),
}

/// An inbound message, produced by parsing and consumed immediately by the
/// player registry.
#[derive(Debug)]
pub enum ServerToClient {
    EntityMoved(Position),
    PlayerJoined(String, Position, Facing),
    PlayerLeft(String),
    PlayerMoved(String, Position, Facing),
    ChatMessage(String, String),
}

/// The one wire line an outbound message renders to, `\r\n`-terminated;
/// a raw `Command` is passed through as the concatenation of its tokens.
pub open spec fn line_of(m: ClientToServer) -> Seq<char> {
    match m {
        ClientToServer::AttemptPlayerMove(p) => seq!['p', 'o', 's', ' '] + dec_chars(p.x as int)
            + seq![' '] + dec_chars(p.y as int) + seq!['\r', '\n'],
        ClientToServer::AttemptPlayerFacingChange(f) => seq!['f', 'a', 'c', 'e', ' ']
            + facing_chars(f) + seq!['\r', '\n'],
        ClientToServer::Register(u, pw) => seq!['r', 'e', 'g', 'i', 's', 't', 'e', 'r', ' '] + u@
            + seq![' '] + pw@ + seq!['\r', '\n'],
        ClientToServer::Login(u, pw) => seq!['l', 'o', 'g', 'i', 'n', ' '] + u@ + seq![' '] + pw@
            + seq!['\r', '\n'],
        ClientToServer::ChatMessage(t) => seq!['c', 'h', 'a', 't', ' '] + t@ + seq!['\r', '\n'],
        ClientToServer::SetUsername(u) => seq!['u', 's', 'e', 'r', 'n', 'a', 'm', 'e', ' '] + u@
            + seq!['\r', '\n'],
        ClientToServer::SetPosition(x, y) => seq!['p', 'o', 's', ' '] + dec_chars(x as int)
            + seq![' '] + dec_chars(y as int) + seq!['\r', '\n'],
        ClientToServer::Command(items) => concat_all(items.deep_view()),
    }
}

impl ClientToServer {
    /// Renders the message as its single terminated wire line. Encoding is a
    /// pure function of the message value.
    pub fn as_line(&self) -> (r: String)
        ensures
            r@ == line_of(*self),
    {
        proof {
            reveal_strlit("pos ");
            reveal_strlit("face ");
            reveal_strlit("register ");
            reveal_strlit("login ");
            reveal_strlit("chat ");
            reveal_strlit("username ");
            reveal_strlit(" ");
            reveal_strlit("\r\n");
            assert("pos "@ =~= seq!['p', 'o', 's', ' ']);
            assert("face "@ =~= seq!['f', 'a', 'c', 'e', ' ']);
            assert("register "@ =~= seq!['r', 'e', 'g', 'i', 's', 't', 'e', 'r', ' ']);
            assert("login "@ =~= seq!['l', 'o', 'g', 'i', 'n', ' ']);
            assert("chat "@ =~= seq!['c', 'h', 'a', 't', ' ']);
            assert("username "@ =~= seq!['u', 's', 'e', 'r', 'n', 'a', 'm', 'e', ' ']);
            assert(" "@ =~= seq![' ']);
            assert("\r\n"@ =~= seq!['\r', '\n']);
        }
        match self {
            ClientToServer::AttemptPlayerMove(position) => {
                let mut s = String::from_str("pos ");
                let xs = fmt_i32(position.x);
                s.append(xs.as_str());
                s.append(" ");
                let ys = fmt_i32(position.y);
                s.append(ys.as_str());
                s.append("\r\n");
                s
            },
            ClientToServer::AttemptPlayerFacingChange(facing) => {
                let mut s = String::from_str("face ");
                let fs = facing.to_string();
                s.append(fs.as_str());
                s.append("\r\n");
                s
            },
            ClientToServer::Register(username, password) => {
                let mut s = String::from_str("register ");
                s.append(username.as_str());
                s.append(" ");
                s.append(password.as_str());
                s.append("\r\n");
                s
            },
            ClientToServer::Login(username, password) => {
                let mut s = String::from_str("login ");
                s.append(username.as_str());
                s.append(" ");
                s.append(password.as_str());
                s.append("\r\n");
                s
            },
            ClientToServer::ChatMessage(message) => {
                let mut s = String::from_str("chat ");
                s.append(message.as_str());
                s.append("\r\n");
                s
            },
            ClientToServer::SetUsername(username) => {
                let mut s = String::from_str("username ");
                s.append(username.as_str());
                s.append("\r\n");
                s
            },
            ClientToServer::SetPosition(x, y) => {
                let mut s = String::from_str("pos ");
                let xs = fmt_i32(*x);
                s.append(xs.as_str());
                s.append(" ");
                let ys = fmt_i32(*y);
                s.append(ys.as_str());
                s.append("\r\n");
                s
            },
            ClientToServer::Command(items) => {
                let mut s = String::new();
                let mut i: usize = 0;
                let n = items.len();
                proof {
                    assert(items.deep_view().take(0int) =~= Seq::<Seq<char>>::empty());
                    assert(concat_all(Seq::<Seq<char>>::empty()) =~= Seq::<char>::empty());
                }
                while i < n
                    invariant
                        0 <= i <= n,
                        n == items.len(),
                        s@ == concat_all(items.deep_view().take(i as int)),
                    decreases n - i,
                {
                    s.append(items[i].as_str());
                    proof {
                        let dv = items.deep_view();
                        assert(dv[i as int] == items@[i as int]@);
                        lemma_concat_snoc(dv.take(i as int), dv[i as int]);
                        assert(dv.take(i as int).push(dv[i as int]) =~= dv.take(i as int + 1));
                    }
                    i += 1;
                }
                proof {
                    assert(items.deep_view().take(n as int) =~= items.deep_view());
                }
                s
            },
        }
    }
}

impl ServerToClient {
    /// Parses one server line under the fixed framing `<tag> <cmd> ...`,
    /// recognizing only the `chat` command; every other line, and any line
    /// too short to carry a command, is unparsable. The chat text keeps the
    /// space that precedes each of its words.
    pub fn from_str(s: &str) -> (r: Result<ServerToClient, ProtocolError>)
        ensures
            ({
                let ps = split_chars(s@, ' ');
                if ps.len() >= 3 && ps[1] == seq!['c', 'h', 'a', 't'] {
                    r matches Ok(m) && (m matches ServerToClient::ChatMessage(u, t) && u@ == ps[2]
                        && t@ == space_prefixed_concat(ps.subrange(3, ps.len() as int)))
                } else {
                    r matches Err(ProtocolError::ServerLineUnparsable)
                }
            }),
    {
        let toks = split_char_tokens(s, ' ');
        let n = toks.len();
        proof {
            reveal_strlit("chat");
            assert("chat"@ =~= seq!['c', 'h', 'a', 't']);
        }
        if n < 2 {
            return Err(ProtocolError::ServerLineUnparsable);
        }
        proof {
            assert(toks.deep_view()[1] == toks@[1]@);
        }
        if !str_eq(toks[1].as_str(), "chat") {
            return Err(ProtocolError::ServerLineUnparsable);
        }
        if n < 3 {
            return Err(ProtocolError::ServerLineUnparsable);
        }
        let username = toks[2].clone();
        proof {
            assert(toks.deep_view()[2] == toks@[2]@);
            assert(toks.deep_view().subrange(3, 3) =~= Seq::<Seq<char>>::empty());
            assert(space_prefixed_concat(Seq::<Seq<char>>::empty()) =~= Seq::<char>::empty());
        }
        let mut rest = String::new();
        let mut i: usize = 3;
        while i < n
            invariant
                3 <= i <= n,
                n == toks.len(),
                rest@ == space_prefixed_concat(toks.deep_view().subrange(3, i as int)),
            decreases n - i,
        {
            rest.append(" ");
            rest.append(toks[i].as_str());
            proof {
                reveal_strlit(" ");
                assert(" "@ =~= seq![' ']);
                let dv = toks.deep_view();
                assert(dv[i as int] == toks@[i as int]@);
                lemma_space_prefixed_snoc(dv.subrange(3, i as int), dv[i as int]);
                assert(dv.subrange(3, i as int).push(dv[i as int]) =~= dv.subrange(
                    3,
                    i as int + 1,
                ));
            }
            i += 1;
        }
        proof {
            assert(toks.deep_view().subrange(3, n as int) =~= toks.deep_view().subrange(
                3,
                toks.deep_view().len() as int,
            ));
        }
        Ok(ServerToClient::ChatMessage(username, rest))
    }
}

/// A client command at the specification level: the logical command with its
/// field values, strings as character sequences.
pub enum ClientCmd {
    Move(int, int),
    Face(Facing),
    Reg(Seq<char>, Seq<char>),
    Log(Seq<char>, Seq<char>),
    Chat(Seq<char>),
    User(Seq<char>),
    Raw(Seq<char>),
}

/// The logical command a message denotes; both absolute-position variants
/// denote the same `pos` command.
pub open spec fn cmd_of(m: ClientToServer) -> ClientCmd {
    match m {
        ClientToServer::AttemptPlayerMove(p) => ClientCmd::Move(p.x as int, p.y as int),
        ClientToServer::AttemptPlayerFacingChange(f) => ClientCmd::Face(f),
        ClientToServer::Register(u, pw) => ClientCmd::Reg(u@, pw@),
        ClientToServer::Login(u, pw) => ClientCmd::Log(u@, pw@),
        ClientToServer::ChatMessage(t) => ClientCmd::Chat(t@),
        ClientToServer::SetUsername(u) => ClientCmd::User(u@),
        ClientToServer::SetPosition(x, y) => ClientCmd::Move(x as int, y as int),
        ClientToServer::Command(items) => ClientCmd::Raw(concat_all(items.deep_view())),
    }
}

/// Reads `<int> <int>` and yields the `pos` command.
pub open spec fn decode_two_ints(rest: Seq<char>) -> Option<ClientCmd> {
    let i = find_char_idx(rest, ' ');
    if i < rest.len() {
        match parse_i32_chars(rest.subrange(0, i)) {
            Some(x) => match parse_i32_chars(rest.subrange(i + 1, rest.len() as int)) {
                Some(y) => Some(ClientCmd::Move(x, y)),
                None => None,
            },
            None => None,
        }
    } else {
        None
    }
}

/// Reads `<user> <pass>`, splitting at the first space.
pub open spec fn decode_user_pass(rest: Seq<char>, reg: bool) -> Option<ClientCmd> {
    let i = find_char_idx(rest, ' ');
    if i < rest.len() {
        if reg {
            Some(ClientCmd::Reg(rest.subrange(0, i), rest.subrange(i + 1, rest.len() as int)))
        } else {
            Some(ClientCmd::Log(rest.subrange(0, i), rest.subrange(i + 1, rest.len() as int)))
        }
    } else {
        None
    }
}

/// How the receiving side reads one client wire line: the model inverse of
/// `line_of`, keyed on the leading command word of a `\r\n`-terminated line.
pub open spec fn decode_client_line(l: Seq<char>) -> Option<ClientCmd> {
    if !has_suffix(l, seq!['\r', '\n']) {
        None
    } else {
        let body = l.subrange(0, l.len() - 2);
        if has_prefix(body, seq!['p', 'o', 's', ' ']) {
            decode_two_ints(body.subrange(4, body.len() as int))
        } else if has_prefix(body, seq!['f', 'a', 'c', 'e', ' ']) {
            match facing_of_chars(body.subrange(5, body.len() as int)) {
                Some(f) => Some(ClientCmd::Face(f)),
                None => None,
            }
        } else if has_prefix(body, seq!['r', 'e', 'g', 'i', 's', 't', 'e', 'r', ' ']) {
            decode_user_pass(body.subrange(9, body.len() as int), true)
        } else if has_prefix(body, seq!['l', 'o', 'g', 'i', 'n', ' ']) {
            decode_user_pass(body.subrange(6, body.len() as int), false)
        } else if has_prefix(body, seq!['c', 'h', 'a', 't', ' ']) {
            Some(ClientCmd::Chat(body.subrange(5, body.len() as int)))
        } else if has_prefix(body, seq!['u', 's', 'e', 'r', 'n', 'a', 'm', 'e', ' ']) {
            Some(ClientCmd::User(body.subrange(9, body.len() as int)))
        } else {
            None
        }
    }
}

/// A sequence whose first character differs from a pattern's first
/// character cannot start with that pattern.
proof fn lemma_prefix_differs(s: Seq<char>, p: Seq<char>, c: char)
    requires
        s.len() > 0,
        p.len() > 0,
        s[0] == c,
        p[0] != c,
    ensures
        !has_prefix(s, p),
{
    if has_prefix(s, p) {
        assert(s.subrange(0, p.len() as int)[0] == s[0]);
    }
}

/// In `a ++ " " ++ b` with `a` space-free, the first space sits right after
/// `a`, so splitting there recovers `a` and `b`.
proof fn lemma_split_at_sep(rest: Seq<char>, a: Seq<char>, b: Seq<char>)
    requires
        rest == a + seq![' '] + b,
        forall|i: int| 0 <= i < a.len() ==> #[trigger] a[i] != ' ',
    ensures
        find_char_idx(rest, ' ') == a.len(),
        rest.subrange(0, a.len() as int) == a,
        rest.subrange(a.len() as int + 1, rest.len() as int) == b,
{
    assert forall|j: int| 0 <= j < a.len() implies rest[j] != ' ' by {
        assert(rest[j] == a[j]);
    }
    assert(rest[a.len() as int] == ' ');
    lemma_find_char_at(rest, ' ', a.len() as int);
    assert(rest.subrange(0, a.len() as int) =~= a);
    assert(rest.subrange(a.len() as int + 1, rest.len() as int) =~= b);
}

/// Law: decoding the wire line of any framed message reproduces the same
/// logical command with the same field values. The framed messages are all
/// variants but raw `Command` pass-through; for `Register` and `Login` the
/// username must be space-free, as the wire grammar separates the fields
/// with a space.
#[verifier::rlimit(100)]
pub proof fn lemma_client_line_round_trip(v: ClientToServer)
    requires
        !(v matches ClientToServer::Command(_)),
        v matches ClientToServer::Register(u, _) ==> forall|i: int|
            0 <= i < u@.len() ==> #[trigger] u@[i] != ' ',
        v matches ClientToServer::Login(u, _) ==> forall|i: int|
            0 <= i < u@.len() ==> #[trigger] u@[i] != ' ',
    ensures
        decode_client_line(line_of(v)) == Some(cmd_of(v)),
{
    let l = line_of(v);
    let kw_pos = seq!['p', 'o', 's', ' '];
    let kw_face = seq!['f', 'a', 'c', 'e', ' '];
    let kw_reg = seq!['r', 'e', 'g', 'i', 's', 't', 'e', 'r', ' '];
    let kw_log = seq!['l', 'o', 'g', 'i', 'n', ' '];
    let kw_chat = seq!['c', 'h', 'a', 't', ' '];
    let kw_user = seq!['u', 's', 'e', 'r', 'n', 'a', 'm', 'e', ' '];
    match v {
        ClientToServer::AttemptPlayerMove(p) => {
            let x = p.x as int;
            let y = p.y as int;
            assert(l.subrange(l.len() - 2, l.len() as int) =~= seq!['\r', '\n']);
            let body = l.subrange(0, l.len() - 2);
            assert(body =~= kw_pos + dec_chars(x) + seq![' '] + dec_chars(y));
            assert(body.subrange(0, 4) =~= kw_pos);
            let rest = body.subrange(4, body.len() as int);
            assert(rest =~= dec_chars(x) + seq![' '] + dec_chars(y));
            lemma_dec_chars_no_space(x);
            lemma_split_at_sep(rest, dec_chars(x), dec_chars(y));
            lemma_parse_of_dec(x);
            lemma_parse_of_dec(y);
        },
        ClientToServer::SetPosition(xv, yv) => {
            let x = xv as int;
            let y = yv as int;
            assert(l.subrange(l.len() - 2, l.len() as int) =~= seq!['\r', '\n']);
            let body = l.subrange(0, l.len() - 2);
            assert(body =~= kw_pos + dec_chars(x) + seq![' '] + dec_chars(y));
            assert(body.subrange(0, 4) =~= kw_pos);
            let rest = body.subrange(4, body.len() as int);
            assert(rest =~= dec_chars(x) + seq![' '] + dec_chars(y));
            lemma_dec_chars_no_space(x);
            lemma_split_at_sep(rest, dec_chars(x), dec_chars(y));
            lemma_parse_of_dec(x);
            lemma_parse_of_dec(y);
        },
        ClientToServer::AttemptPlayerFacingChange(f) => {
            assert(l.subrange(l.len() - 2, l.len() as int) =~= seq!['\r', '\n']);
            let body = l.subrange(0, l.len() - 2);
            assert(body =~= kw_face + facing_chars(f));
            assert(body[0] == 'f');
            lemma_prefix_differs(body, kw_pos, 'f');
            assert(body.subrange(0, 5) =~= kw_face);
            assert(body.subrange(5, body.len() as int) =~= facing_chars(f));
            lemma_facing_round_trip(f);
        },
        ClientToServer::Register(u, pw) => {
            assert(l.subrange(l.len() - 2, l.len() as int) =~= seq!['\r', '\n']);
            let body = l.subrange(0, l.len() - 2);
            assert(body =~= kw_reg + u@ + seq![' '] + pw@);
            assert(body[0] == 'r');
            lemma_prefix_differs(body, kw_pos, 'r');
            lemma_prefix_differs(body, kw_face, 'r');
            assert(body.subrange(0, 9) =~= kw_reg);
            let rest = body.subrange(9, body.len() as int);
            assert(rest =~= u@ + seq![' '] + pw@);
            lemma_split_at_sep(rest, u@, pw@);
        },
        ClientToServer::Login(u, pw) => {
            assert(l.subrange(l.len() - 2, l.len() as int) =~= seq!['\r', '\n']);
            let body = l.subrange(0, l.len() - 2);
            assert(body =~= kw_log + u@ + seq![' '] + pw@);
            assert(body[0] == 'l');
            lemma_prefix_differs(body, kw_pos, 'l');
            lemma_prefix_differs(body, kw_face, 'l');
            lemma_prefix_differs(body, kw_reg, 'l');
            assert(body.subrange(0, 6) =~= kw_log);
            let rest = body.subrange(6, body.len() as int);
            assert(rest =~= u@ + seq![' '] + pw@);
            lemma_split_at_sep(rest, u@, pw@);
        },
        ClientToServer::ChatMessage(t) => {
            assert(l.subrange(l.len() - 2, l.len() as int) =~= seq!['\r', '\n']);
            let body = l.subrange(0, l.len() - 2);
            assert(body =~= kw_chat + t@);
            assert(body[0] == 'c');
            lemma_prefix_differs(body, kw_pos, 'c');
            lemma_prefix_differs(body, kw_face, 'c');
            lemma_prefix_differs(body, kw_reg, 'c');
            lemma_prefix_differs(body, kw_log, 'c');
            assert(body.subrange(0, 5) =~= kw_chat);
            assert(body.subrange(5, body.len() as int) =~= t@);
        },
        ClientToServer::SetUsername(u) => {
            assert(l.subrange(l.len() - 2, l.len() as int) =~= seq!['\r', '\n']);
            let body = l.subrange(0, l.len() - 2);
            assert(body =~= kw_user + u@);
            assert(body[0] == 'u');
            lemma_prefix_differs(body, kw_pos, 'u');
            lemma_prefix_differs(body, kw_face, 'u');
            lemma_prefix_differs(body, kw_reg, 'u');
            lemma_prefix_differs(body, kw_log, 'u');
            lemma_prefix_differs(body, kw_chat, 'u');
            assert(body.subrange(0, 9) =~= kw_user);
            assert(body.subrange(9, body.len() as int) =~= u@);
        },
        ClientToServer::Command(_) => {},
    }
}

/// Compares two string slices character by character.
pub fn str_eq(a: &str, b: &str) -> (r: bool)
    ensures
        r == (a@ == b@),
{
    let alen = a.unicode_len();
    let blen = b.unicode_len();
    if alen != blen {
        assert(a@ != b@);
        return false;
    }
    let mut i: usize = 0;
    while i < alen
        invariant
            alen == a@.len(),
            blen == b@.len(),
            alen == blen,
            i <= alen,
            forall|j: int| 0 <= j < i ==> a@[j] == b@[j],
        decreases alen - i,
    {
        if a.get_char(i) != b.get_char(i) {
            assert(a@ != b@);
            return false;
        }
        i += 1;
    }
    proof {
        assert(a@ =~= b@);
    }
    true
}

} // verus!
