//! Teleportation links used by doors: a slash-separated zone path plus a
//! position, written `hub/room1@x20y30`.
use vstd::prelude::*;

verus! {

use crate::protocol::Position;
use crate::protocol::ProtocolError;
use crate::text::dec_chars;
use crate::text::find_char;
use crate::text::find_char_idx;
use crate::text::fmt_i32;
use crate::text::join_tokens;
use crate::text::join_with;
use crate::text::parse_i32;
use crate::text::parse_i32_chars;
use crate::text::split_char_tokens;
use crate::text::split_chars;
use crate::text::strip_prefix_all;
use crate::text::strip_prefix_repeated;

/// A teleportation link: a path of zone names and a target position.
#[derive(Debug)]
pub struct ZoneLink {
    /// The zone path, outermost zone first.
    pub zones: Vec<String>,
    /// The target position inside the innermost zone.
    pub pos: Position,
}

/// The canonical text of a zone link.
pub open spec fn zone_link_chars(zones: Seq<Seq<char>>, x: int, y: int) -> Seq<char> {
    join_with(zones, '/') + seq!['@', 'x'] + dec_chars(x) + seq!['y'] + dec_chars(y)
}

/// The zone path and coordinates a link text denotes, if well formed: zones
/// before the `@`, then an `x`-prefixed coordinate up to the first `y`, then
/// the second coordinate.
pub open spec fn zone_link_of_chars(s: Seq<char>) -> Option<(Seq<Seq<char>>, int, int)> {
    let ai = find_char_idx(s, '@');
    if ai == s.len() {
        None
    } else {
        let zs = s.subrange(0, ai);
        let ps = s.subrange(ai + 1, s.len() as int);
        let yi = find_char_idx(ps, 'y');
        if yi == ps.len() {
            None
        } else {
            let xs = strip_prefix_all(ps.subrange(0, yi), seq!['x']);
            let ys = ps.subrange(yi + 1, ps.len() as int);
            match parse_i32_chars(xs) {
                Some(x) => match parse_i32_chars(ys) {
                    Some(y) => Some((split_chars(zs, '/'), x, y)),
                    None => None,
                },
                None => None,
            }
        }
    }
}

impl ZoneLink {
    /// Renders the link as `zone/zone@x<X>y<Y>`.
    pub fn to_string(&self) -> (r: String)
        ensures
            r@ == zone_link_chars(self.zones.deep_view(), self.pos.x as int, self.pos.y as int),
    {
        proof {
            reveal_strlit("/");
            reveal_strlit("@x");
            reveal_strlit("y");
            assert("/"@ =~= seq!['/']);
            assert("@x"@ =~= seq!['@', 'x']);
            assert("y"@ =~= seq!['y']);
        }
        let mut out = join_tokens(&self.zones, "/");
        out.append("@x");
        let xs = fmt_i32(self.pos.x);
        out.append(xs.as_str());
        out.append("y");
        let ys = fmt_i32(self.pos.y);
        out.append(ys.as_str());
        out
    }

    /// Parses a link text; any malformed link is an error.
    pub fn from_str(s: &str) -> (r: Result<ZoneLink, ProtocolError>)
        ensures
            match zone_link_of_chars(s@) {
                Some((zv, x, y)) => r matches Ok(zl) && zl.zones.deep_view() == zv
                    && zl.pos.x as int == x && zl.pos.y as int == y,
                None => r matches Err(ProtocolError::ServerLineUnparsable),
            },
    {
        let n = s.unicode_len();
        let ai = find_char(s, '@');
        if ai == n {
            return Err(ProtocolError::ServerLineUnparsable);
        }
        let zones_part = s.substring_char(0, ai);
        let pos_part = s.substring_char(ai + 1, n);
        let m = pos_part.unicode_len();
        let yi = find_char(pos_part, 'y');
        if yi == m {
            return Err(ProtocolError::ServerLineUnparsable);
        }
        let x_str = pos_part.substring_char(0, yi);
        let y_str = pos_part.substring_char(yi + 1, m);
        proof {
            reveal_strlit("x");
            assert("x"@ =~= seq!['x']);
        }
        let x_digits = strip_prefix_repeated(x_str, "x");
        let x = match parse_i32(x_digits.as_str()) {
            Some(x) => x,
            None => {
                return Err(ProtocolError::ServerLineUnparsable);
            },
        };
        let y = match parse_i32(y_str) {
            Some(y) => y,
            None => {
                return Err(ProtocolError::ServerLineUnparsable);
            },
        };
        let zones = split_char_tokens(zones_part, '/');
        Ok(ZoneLink { zones, pos: Position::new(x, y) })
    }
}

} // verus!
