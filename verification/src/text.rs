//! Verified text utilities for the line-oriented wire protocol: decimal
//! rendering and parsing of coordinates, tokenization, and substring search.
use vstd::prelude::*;

verus! {

/// Whitespace as the protocol tokenizer understands it (the ASCII range;
/// the wire format is ASCII text).
pub open spec fn is_wspace(c: char) -> bool {
    c == ' ' || c == '\t' || c == '\n' || c == '\r' || c == '\u{0b}' || c == '\u{0c}'
}

/// Executable mirror of [`is_wspace`].
pub fn wspace(c: char) -> (r: bool)
    ensures
        r == is_wspace(c),
{
    c == ' ' || c == '\t' || c == '\n' || c == '\r' || c == '\u{0b}' || c == '\u{0c}'
}

/// Whether `c` is a decimal digit.
pub open spec fn is_digit(c: char) -> bool {
    48 <= c as u32 <= 57
}

/// The numeric value of a digit character.
pub open spec fn digit_val(c: char) -> nat {
    (c as u32 - 48) as nat
}

/// The digit character for a value below ten.
pub open spec fn digit_char(d: nat) -> char {
    if d == 0 {
        '0'
    } else if d == 1 {
        '1'
    } else if d == 2 {
        '2'
    } else if d == 3 {
        '3'
    } else if d == 4 {
        '4'
    } else if d == 5 {
        '5'
    } else if d == 6 {
        '6'
    } else if d == 7 {
        '7'
    } else if d == 8 {
        '8'
    } else {
        '9'
    }
}

/// The shortest decimal digit string of a natural number.
pub open spec fn dec_digits(n: nat) -> Seq<char>
    decreases n,
{
    if n < 10 {
        seq![digit_char(n)]
    } else {
        dec_digits(n / 10).push(digit_char(n % 10))
    }
}

/// The canonical decimal rendering of an integer, with a leading minus sign
/// when it is negative.
pub open spec fn dec_chars(v: int) -> Seq<char> {
    if v < 0 {
        seq!['-'] + dec_digits((-v) as nat)
    } else {
        dec_digits(v as nat)
    }
}

/// Whether every character of `s` is a decimal digit.
pub open spec fn all_digits(s: Seq<char>) -> bool {
    forall|i: int| 0 <= i < s.len() ==> is_digit(#[trigger] s[i])
}

/// The value of a digit string, most significant digit first.
pub open spec fn digits_val(s: Seq<char>) -> nat
    decreases s.len(),
{
    if s.len() == 0 {
        0
    } else {
        digits_val(s.drop_last()) * 10 + digit_val(s.last())
    }
}

/// The integer denoted by `s` under the grammar of `i32` parsing: an
/// optional single sign, then at least one digit, with the value in range.
pub open spec fn parse_i32_chars(s: Seq<char>) -> Option<int> {
    let neg = s.len() > 0 && s[0] == '-';
    let signed = s.len() > 0 && (s[0] == '-' || s[0] == '+');
    let ds = if signed {
        s.drop_first()
    } else {
        s
    };
    if ds.len() > 0 && all_digits(ds) {
        let v = if neg {
            -(digits_val(ds) as int)
        } else {
            digits_val(ds) as int
        };
        if i32::MIN <= v <= i32::MAX {
            Some(v)
        } else {
            None
        }
    } else {
        None
    }
}

/// A digit string only grows in value when more digits are appended.
pub proof fn lemma_digits_val_append_ge(s: Seq<char>, t: Seq<char>)
    ensures
        digits_val(s + t) >= digits_val(s),
    decreases t.len(),
{
    if t.len() == 0 {
        assert(s + t =~= s);
    } else {
        lemma_digits_val_append_ge(s, t.drop_last());
        assert((s + t).drop_last() =~= s + t.drop_last());
        assert(digits_val(s + t) == digits_val(s + t.drop_last()) * 10 + digit_val((s
            + t).last()));
    }
}

/// The digit string of a value parses back to that value.
pub proof fn lemma_digits_val_of_dec(n: nat)
    ensures
        all_digits(dec_digits(n)),
        digits_val(dec_digits(n)) == n,
        dec_digits(n).len() >= 1,
    decreases n,
{
    if n < 10 {
        assert(digits_val(dec_digits(n)) == digits_val(seq![digit_char(n)].drop_last()) * 10
            + digit_val(digit_char(n)));
        assert(seq![digit_char(n)].drop_last() =~= Seq::<char>::empty());
    } else {
        lemma_digits_val_of_dec(n / 10);
        assert(dec_digits(n).drop_last() =~= dec_digits(n / 10));
        assert(digits_val(dec_digits(n)) == (n / 10) * 10 + n % 10);
    }
}

/// Renders a digit below ten as a one-character string.
fn digit_str(d: u32) -> (r: &'static str)
    requires
        d < 10,
    ensures
        r@ == seq![digit_char(d as nat)],
{
    let r = if d == 0 {
        "0"
    } else if d == 1 {
        "1"
    } else if d == 2 {
        "2"
    } else if d == 3 {
        "3"
    } else if d == 4 {
        "4"
    } else if d == 5 {
        "5"
    } else if d == 6 {
        "6"
    } else if d == 7 {
        "7"
    } else if d == 8 {
        "8"
    } else {
        "9"
    };
    proof {
        reveal_strlit("0");
        reveal_strlit("1");
        reveal_strlit("2");
        reveal_strlit("3");
        reveal_strlit("4");
        reveal_strlit("5");
        reveal_strlit("6");
        reveal_strlit("7");
        reveal_strlit("8");
        reveal_strlit("9");
        assert(r@ =~= seq![digit_char(d as nat)]);
    }
    r
}

/// Renders a `u32` in decimal.
pub fn fmt_u32(n: u32) -> (r: String)
    ensures
        r@ == dec_digits(n as nat),
    decreases n,
{
    if n < 10 {
        String::from_str(digit_str(n))
    } else {
        let mut s = fmt_u32(n / 10);
        s.append(digit_str(n % 10));
        s
    }
}

/// Renders an `i32` in decimal, with a minus sign when negative.
pub fn fmt_i32(v: i32) -> (r: String)
    ensures
        r@ == dec_chars(v as int),
{
    if v < 0 {
        let m: u32 = (-(v as i64)) as u32;
        let mut s = String::from_str("-");
        let digits = fmt_u32(m);
        s.append(digits.as_str());
        proof {
            reveal_strlit("-");
            assert("-"@ =~= seq!['-']);
        }
        s
    } else {
        fmt_u32(v as u32)
    }
}

/// Parses an `i32` from its decimal form: an optional single sign, then at
/// least one digit; rejects anything else, and values out of range.
pub fn parse_i32(s: &str) -> (r: Option<i32>)
    ensures
        match r {
            Some(v) => parse_i32_chars(s@) == Some(v as int),
            None => parse_i32_chars(s@) is None,
        },
{
    let n = s.unicode_len();
    if n == 0 {
        return None;
    }
    let c0 = s.get_char(0);
    let neg = c0 == '-';
    let signed = c0 == '-' || c0 == '+';
    let start: usize = if signed {
        1
    } else {
        0
    };
    let ghost ds = if signed {
        s@.drop_first()
    } else {
        s@
    };
    proof {
        assert(ds =~= s@.subrange(start as int, n as int));
    }
    if start == n {
        return None;
    }
    let limit: u64 = if neg {
        2147483648
    } else {
        2147483647
    };
    let mut acc: u64 = 0;
    let mut i: usize = start;
    while i < n
        invariant
            start <= i <= n,
            n == s@.len(),
            n > 0,
            neg == (s@[0] == '-'),
            signed == (s@[0] == '-' || s@[0] == '+'),
            start == if signed { 1int } else { 0int },
            ds == if signed { s@.drop_first() } else { s@ },
            ds == s@.subrange(start as int, n as int),
            limit == if neg { 2147483648u64 } else { 2147483647u64 },
            acc == digits_val(s@.subrange(start as int, i as int)),
            acc <= limit,
            all_digits(s@.subrange(start as int, i as int)),
        decreases n - i,
    {
        let c = s.get_char(i);
        let u = c as u32;
        if u < 48 || u > 57 {
            proof {
                assert(ds[i - start] == c);
                assert(!is_digit(c));
                assert(!all_digits(ds));
                assert(parse_i32_chars(s@) is None);
            }
            return None;
        }
        let d = (u - 48) as u64;
        proof {
            assert(s@.subrange(start as int, i as int + 1).drop_last() =~= s@.subrange(
                start as int,
                i as int,
            ));
            assert(s@.subrange(start as int, i as int + 1).last() == c);
        }
        acc = acc * 10 + d;
        i += 1;
        if acc > limit {
            proof {
                let done = s@.subrange(start as int, i as int);
                let rest = s@.subrange(i as int, n as int);
                assert(ds =~= done + rest);
                lemma_digits_val_append_ge(done, rest);
                assert(digits_val(ds) >= acc);
                assert(acc > limit);
                assert(parse_i32_chars(s@) is None);
            }
            return None;
        }
    }
    proof {
        assert(s@.subrange(start as int, n as int) =~= ds);
    }
    if neg {
        Some((-(acc as i64)) as i32)
    } else {
        Some(acc as i32)
    }
}

/// Decimal renderings hold only digits and a possible leading minus sign,
/// so they contain no space.
pub proof fn lemma_dec_chars_no_space(v: int)
    ensures
        forall|i: int| 0 <= i < dec_chars(v).len() ==> #[trigger] dec_chars(v)[i] != ' ',
{
    if v < 0 {
        lemma_digits_val_of_dec((-v) as nat);
        assert forall|i: int| 0 <= i < dec_chars(v).len() implies #[trigger] dec_chars(v)[i]
            != ' ' by {
            if i > 0 {
                assert(dec_chars(v)[i] == dec_digits((-v) as nat)[i - 1]);
                assert(is_digit(dec_digits((-v) as nat)[i - 1]));
            }
        }
    } else {
        lemma_digits_val_of_dec(v as nat);
        assert forall|i: int| 0 <= i < dec_chars(v).len() implies #[trigger] dec_chars(v)[i]
            != ' ' by {
            assert(is_digit(dec_digits(v as nat)[i]));
        }
    }
}

/// Parsing inverts decimal rendering on every value in range.
pub proof fn lemma_parse_of_dec(v: int)
    requires
        i32::MIN <= v <= i32::MAX,
    ensures
        parse_i32_chars(dec_chars(v)) == Some(v),
{
    if v < 0 {
        lemma_digits_val_of_dec((-v) as nat);
        let s = dec_chars(v);
        assert(s[0] == '-');
        assert(s.drop_first() =~= dec_digits((-v) as nat));
    } else {
        lemma_digits_val_of_dec(v as nat);
        let s = dec_chars(v);
        assert(s =~= dec_digits(v as nat));
        assert(is_digit(s[0]));
        assert(s[0] != '-' && s[0] != '+');
    }
}

/// The index of the first occurrence of `c` in `s`, or `s.len()` if absent.
pub open spec fn find_char_idx(s: Seq<char>, c: char) -> int
    decreases s.len(),
{
    if s.len() == 0 {
        0
    } else if s[0] == c {
        0
    } else {
        1 + find_char_idx(s.drop_first(), c)
    }
}

/// A scan that saw no `c` before `i`, and `c` at `i` or ran out, pins down
/// `find_char_idx`.
pub proof fn lemma_find_char_at(s: Seq<char>, c: char, i: int)
    requires
        0 <= i <= s.len(),
        forall|j: int| 0 <= j < i ==> s[j] != c,
        i == s.len() || s[i] == c,
    ensures
        find_char_idx(s, c) == i,
    decreases s.len(),
{
    if s.len() == 0 {
    } else if s[0] == c {
        assert(i == 0);
    } else {
        assert(i >= 1);
        lemma_find_char_at(s.drop_first(), c, i - 1);
    }
}

/// Finds the first occurrence of `c` in `s`; returns the length if absent.
pub fn find_char(s: &str, c: char) -> (r: usize)
    ensures
        r == find_char_idx(s@, c),
        r <= s@.len(),
{
    let n = s.unicode_len();
    let mut i: usize = 0;
    while i < n
        invariant
            0 <= i <= n,
            n == s@.len(),
            forall|j: int| 0 <= j < i ==> s@[j] != c,
        decreases n - i,
    {
        if s.get_char(i) == c {
            proof {
                lemma_find_char_at(s@, c, i as int);
            }
            return i;
        }
        i += 1;
    }
    proof {
        lemma_find_char_at(s@, c, n as int);
    }
    n
}

/// Whether `p` is a prefix of `s`.
pub open spec fn has_prefix(s: Seq<char>, p: Seq<char>) -> bool {
    s.len() >= p.len() && s.subrange(0, p.len() as int) == p
}

/// Whether `p` is a suffix of `s`.
pub open spec fn has_suffix(s: Seq<char>, p: Seq<char>) -> bool {
    s.len() >= p.len() && s.subrange(s.len() - p.len(), s.len() as int) == p
}

/// Whether `p` occurs in `s` starting at `at`.
pub open spec fn match_at(s: Seq<char>, p: Seq<char>, at: int) -> bool {
    0 <= at && at + p.len() <= s.len() && s.subrange(at, at + p.len()) == p
}

/// Compares `p` against the characters of `s` starting at `at`.
pub fn compare_at(s: &str, p: &str, at: usize) -> (r: bool)
    ensures
        r == match_at(s@, p@, at as int),
{
    let n = s.unicode_len();
    let m = p.unicode_len();
    if at > n || m > n - at {
        return false;
    }
    let mut j: usize = 0;
    while j < m
        invariant
            0 <= j <= m,
            n == s@.len(),
            m == p@.len(),
            at + m <= n,
            forall|k: int| 0 <= k < j ==> s@[at + k] == p@[k],
        decreases m - j,
    {
        if s.get_char(at + j) != p.get_char(j) {
            proof {
                let sub = s@.subrange(at as int, at as int + m);
                assert(sub[j as int] == s@[at + j]);
            }
            return false;
        }
        j += 1;
    }
    proof {
        assert(s@.subrange(at as int, at as int + m) =~= p@);
    }
    true
}

/// Whether `s` starts with `p`.
pub fn str_has_prefix(s: &str, p: &str) -> (r: bool)
    ensures
        r == has_prefix(s@, p@),
{
    compare_at(s, p, 0)
}

/// Whether `s` ends with `p`.
pub fn str_has_suffix(s: &str, p: &str) -> (r: bool)
    ensures
        r == has_suffix(s@, p@),
{
    let n = s.unicode_len();
    let m = p.unicode_len();
    if m > n {
        return false;
    }
    compare_at(s, p, n - m)
}

/// Whether `p` occurs anywhere in `s` as a contiguous run.
pub open spec fn contains_seq(s: Seq<char>, p: Seq<char>) -> bool {
    exists|i: int| match_at(s, p, i)
}

/// Substring search: whether `p` occurs anywhere in `s`.
pub fn str_contains(s: &str, p: &str) -> (r: bool)
    ensures
        r == contains_seq(s@, p@),
{
    let n = s.unicode_len();
    let m = p.unicode_len();
    if m > n {
        return false;
    }
    if m == 0 {
        proof {
            assert(s@.subrange(0, 0) =~= p@);
            assert(match_at(s@, p@, 0));
        }
        return true;
    }
    let bound = n - m + 1;
    let mut i: usize = 0;
    while i < bound
        invariant
            0 <= i <= bound,
            bound == n - m + 1,
            n == s@.len(),
            m == p@.len(),
            0 < m <= n,
            forall|k: int| 0 <= k < i ==> !match_at(s@, p@, k),
        decreases bound - i,
    {
        if compare_at(s, p, i) {
            return true;
        }
        i += 1;
    }
    proof {
        assert forall|k: int| !match_at(s@, p@, k) by {
            if 0 <= k <= n - m {
                assert(!match_at(s@, p@, k));
            }
        }
    }
    false
}

/// Copies the characters of `s` between `from` and `to` into a fresh string.
pub fn copy_range(s: &str, from: usize, to: usize) -> (r: String)
    requires
        from <= to <= s@.len(),
    ensures
        r@ == s@.subrange(from as int, to as int),
{
    let piece = s.substring_char(from, to);
    piece.to_owned()
}

/// The tokens of `s` split at every occurrence of `c`, keeping empty pieces,
/// folded from the front with the token read so far and the finished tokens.
pub open spec fn split_char_rec(s: Seq<char>, c: char, cur: Seq<char>, acc: Seq<Seq<char>>) -> Seq<
    Seq<char>,
>
    decreases s.len(),
{
    if s.len() == 0 {
        acc.push(cur)
    } else if s[0] == c {
        split_char_rec(s.drop_first(), c, Seq::empty(), acc.push(cur))
    } else {
        split_char_rec(s.drop_first(), c, cur.push(s[0]), acc)
    }
}

/// The pieces of `s` split at every occurrence of `c`; empty pieces are kept,
/// so the result always has one more piece than `s` has separators.
pub open spec fn split_chars(s: Seq<char>, c: char) -> Seq<Seq<char>> {
    split_char_rec(s, c, Seq::empty(), Seq::empty())
}

/// The tokens of `s` split at runs of whitespace, folded from the front.
pub open spec fn split_ws_rec(s: Seq<char>, cur: Seq<char>, acc: Seq<Seq<char>>) -> Seq<Seq<char>>
    decreases s.len(),
{
    if s.len() == 0 {
        if cur.len() > 0 {
            acc.push(cur)
        } else {
            acc
        }
    } else if is_wspace(s[0]) {
        if cur.len() > 0 {
            split_ws_rec(s.drop_first(), Seq::empty(), acc.push(cur))
        } else {
            split_ws_rec(s.drop_first(), Seq::empty(), acc)
        }
    } else {
        split_ws_rec(s.drop_first(), cur.push(s[0]), acc)
    }
}

/// The nonempty tokens of `s` delimited by runs of whitespace.
pub open spec fn split_wspace(s: Seq<char>) -> Seq<Seq<char>> {
    split_ws_rec(s, Seq::empty(), Seq::empty())
}

/// Splits `s` at runs of whitespace into its nonempty tokens.
pub fn split_whitespace_tokens(s: &str) -> (toks: Vec<String>)
    ensures
        toks.deep_view() == split_wspace(s@),
{
    let n = s.unicode_len();
    let mut toks: Vec<String> = Vec::new();
    let mut i: usize = 0;
    let mut start: usize = 0;
    let mut in_tok: bool = false;
    proof {
        assert(toks.deep_view() =~= Seq::<Seq<char>>::empty());
        assert(s@.subrange(0, n as int) =~= s@);
    }
    while i < n
        invariant
            0 <= i <= n,
            n == s@.len(),
            in_tok ==> 0 <= start <= i,
            split_ws_rec(
                s@.subrange(i as int, n as int),
                if in_tok {
                    s@.subrange(start as int, i as int)
                } else {
                    Seq::<char>::empty()
                },
                toks.deep_view(),
            ) == split_wspace(s@),
            in_tok ==> s@.subrange(start as int, i as int).len() > 0,
        decreases n - i,
    {
        let c = s.get_char(i);
        proof {
            assert(s@.subrange(i as int, n as int)[0] == s@[i as int]);
            assert(s@.subrange(i as int, n as int).drop_first() =~= s@.subrange(
                i as int + 1,
                n as int,
            ));
        }
        if wspace(c) {
            if in_tok {
                let ghost old_dv = toks.deep_view();
                let tok = copy_range(s, start, i);
                toks.push(tok);
                proof {
                    assert(toks.deep_view() =~= old_dv.push(s@.subrange(start as int, i as int)));
                }
                in_tok = false;
            }
        } else {
            if !in_tok {
                start = i;
                in_tok = true;
                proof {
                    assert(s@.subrange(i as int, i as int) =~= Seq::<char>::empty());
                }
            }
            proof {
                assert(s@.subrange(start as int, i as int + 1) =~= s@.subrange(
                    start as int,
                    i as int,
                ).push(s@[i as int]));
            }
        }
        i += 1;
    }
    proof {
        assert(s@.subrange(n as int, n as int) =~= Seq::<char>::empty());
    }
    if in_tok {
        let ghost old_dv = toks.deep_view();
        let tok = copy_range(s, start, n);
        toks.push(tok);
        proof {
            assert(toks.deep_view() =~= old_dv.push(s@.subrange(start as int, n as int)));
        }
    }
    toks
}

/// Splits `s` at every occurrence of `c`, keeping empty pieces.
pub fn split_char_tokens(s: &str, c: char) -> (toks: Vec<String>)
    ensures
        toks.deep_view() == split_chars(s@, c),
{
    let n = s.unicode_len();
    let mut toks: Vec<String> = Vec::new();
    let mut i: usize = 0;
    let mut start: usize = 0;
    proof {
        assert(toks.deep_view() =~= Seq::<Seq<char>>::empty());
        assert(s@.subrange(0, n as int) =~= s@);
        assert(s@.subrange(0, 0) =~= Seq::<char>::empty());
    }
    while i < n
        invariant
            0 <= start <= i <= n,
            n == s@.len(),
            split_char_rec(
                s@.subrange(i as int, n as int),
                c,
                s@.subrange(start as int, i as int),
                toks.deep_view(),
            ) == split_chars(s@, c),
        decreases n - i,
    {
        let ch = s.get_char(i);
        proof {
            assert(s@.subrange(i as int, n as int)[0] == s@[i as int]);
            assert(s@.subrange(i as int, n as int).drop_first() =~= s@.subrange(
                i as int + 1,
                n as int,
            ));
        }
        if ch == c {
            let ghost old_dv = toks.deep_view();
            let tok = copy_range(s, start, i);
            toks.push(tok);
            proof {
                assert(toks.deep_view() =~= old_dv.push(s@.subrange(start as int, i as int)));
            }
            start = i + 1;
            proof {
                assert(s@.subrange(start as int, start as int) =~= Seq::<char>::empty());
            }
        } else {
            proof {
                assert(s@.subrange(start as int, i as int + 1) =~= s@.subrange(
                    start as int,
                    i as int,
                ).push(s@[i as int]));
            }
        }
        i += 1;
    }
    let ghost old_dv = toks.deep_view();
    let tok = copy_range(s, start, n);
    toks.push(tok);
    proof {
        assert(s@.subrange(n as int, n as int) =~= Seq::<char>::empty());
        assert(toks.deep_view() =~= old_dv.push(s@.subrange(start as int, n as int)));
    }
    toks
}

/// The pieces joined with a single separator between consecutive pieces.
pub open spec fn join_with(parts: Seq<Seq<char>>, sep: char) -> Seq<char>
    decreases parts.len(),
{
    if parts.len() == 0 {
        Seq::empty()
    } else if parts.len() == 1 {
        parts[0]
    } else {
        parts[0] + seq![sep] + join_with(parts.drop_first(), sep)
    }
}

/// Joining one more piece appends a separator and the piece.
pub proof fn lemma_join_snoc(parts: Seq<Seq<char>>, p: Seq<char>, sep: char)
    requires
        parts.len() > 0,
    ensures
        join_with(parts.push(p), sep) == join_with(parts, sep) + seq![sep] + p,
    decreases parts.len(),
{
    if parts.len() == 1 {
        let whole = parts.push(p);
        assert(whole.drop_first() =~= seq![p]);
        assert(whole[0] == parts[0]);
        assert(whole.drop_first().len() == 1);
        assert(whole.drop_first()[0] == p);
        assert(join_with(whole.drop_first(), sep) == p);
        assert(join_with(whole, sep) == parts[0] + seq![sep] + p);
    } else {
        lemma_join_snoc(parts.drop_first(), p, sep);
        assert(parts.push(p).drop_first() =~= parts.drop_first().push(p));
        assert(parts.push(p)[0] == parts[0]);
        assert((parts[0] + seq![sep] + (join_with(parts.drop_first(), sep) + seq![sep] + p)) =~= (
        parts[0] + seq![sep] + join_with(parts.drop_first(), sep)) + seq![sep] + p);
    }
}

/// Joins the pieces with the one-character separator `sep`.
pub fn join_tokens(parts: &Vec<String>, sep: &str) -> (r: String)
    requires
        sep@.len() == 1,
    ensures
        r@ == join_with(parts.deep_view(), sep@[0]),
{
    let mut out = String::new();
    let mut i: usize = 0;
    let n = parts.len();
    while i < n
        invariant
            0 <= i <= n,
            n == parts.len(),
            sep@.len() == 1,
            out@ == join_with(parts.deep_view().take(i as int), sep@[0]),
        decreases n - i,
    {
        if i > 0 {
            out.append(sep);
        }
        out.append(parts[i].as_str());
        proof {
            let dv = parts.deep_view();
            assert(dv[i as int] == parts@[i as int]@);
            assert(dv.take(i as int + 1).drop_last() =~= dv.take(i as int));
            assert(dv.take(i as int + 1).last() == dv[i as int]);
            if i == 0 {
                assert(dv.take(1int) =~= seq![dv[0]]);
            } else {
                assert(dv.take(i as int) =~= dv.take(i as int).take(i as int));
                lemma_join_snoc(dv.take(i as int), dv[i as int], sep@[0]);
                assert(dv.take(i as int).push(dv[i as int]) =~= dv.take(i as int + 1));
                assert(seq![sep@[0]] =~= sep@);
            }
        }
        i += 1;
    }
    proof {
        assert(parts.deep_view().take(n as int) =~= parts.deep_view());
    }
    out
}

/// All the pieces concatenated, in order, with nothing between them.
pub open spec fn concat_all(parts: Seq<Seq<char>>) -> Seq<char>
    decreases parts.len(),
{
    if parts.len() == 0 {
        Seq::empty()
    } else {
        parts[0] + concat_all(parts.drop_first())
    }
}

/// Concatenating one more piece appends it at the end.
pub proof fn lemma_concat_snoc(parts: Seq<Seq<char>>, p: Seq<char>)
    ensures
        concat_all(parts.push(p)) == concat_all(parts) + p,
    decreases parts.len(),
{
    if parts.len() == 0 {
        assert(parts.push(p).drop_first() =~= Seq::<Seq<char>>::empty());
        assert(parts.push(p)[0] == p);
        assert(concat_all(Seq::<Seq<char>>::empty()) =~= Seq::<char>::empty());
        assert(concat_all(parts.push(p)) =~= p);
        assert(concat_all(parts) + p =~= p);
    } else {
        lemma_concat_snoc(parts.drop_first(), p);
        assert(parts.push(p).drop_first() =~= parts.drop_first().push(p));
        assert(parts.push(p)[0] == parts[0]);
        assert(parts[0] + (concat_all(parts.drop_first()) + p) =~= (parts[0] + concat_all(
            parts.drop_first(),
        )) + p);
    }
}

/// Every piece preceded by a single space, all run together.
pub open spec fn space_prefixed_concat(parts: Seq<Seq<char>>) -> Seq<char>
    decreases parts.len(),
{
    if parts.len() == 0 {
        Seq::empty()
    } else {
        seq![' '] + parts[0] + space_prefixed_concat(parts.drop_first())
    }
}

/// Space-prefixed concatenation of one more piece appends it at the end.
pub proof fn lemma_space_prefixed_snoc(parts: Seq<Seq<char>>, p: Seq<char>)
    ensures
        space_prefixed_concat(parts.push(p)) == space_prefixed_concat(parts) + seq![' '] + p,
    decreases parts.len(),
{
    if parts.len() == 0 {
        assert(parts.push(p).drop_first() =~= Seq::<Seq<char>>::empty());
        assert(parts.push(p)[0] == p);
        assert(space_prefixed_concat(Seq::<Seq<char>>::empty()) =~= Seq::<char>::empty());
        assert(space_prefixed_concat(parts.push(p)) =~= seq![' '] + p);
        assert(space_prefixed_concat(parts) + seq![' '] + p =~= seq![' '] + p);
    } else {
        lemma_space_prefixed_snoc(parts.drop_first(), p);
        assert(parts.push(p).drop_first() =~= parts.drop_first().push(p));
        assert(parts.push(p)[0] == parts[0]);
        assert(seq![' '] + parts[0] + (space_prefixed_concat(parts.drop_first()) + seq![' '] + p)
            =~= (seq![' '] + parts[0] + space_prefixed_concat(parts.drop_first())) + seq![' '] + p);
    }
}

/// `s` with every copy of the nonempty prefix `p` removed from the front.
pub open spec fn strip_prefix_all(s: Seq<char>, p: Seq<char>) -> Seq<char>
    decreases s.len(),
{
    if p.len() > 0 && s.len() >= p.len() && s.subrange(0, p.len() as int) == p {
        strip_prefix_all(s.subrange(p.len() as int, s.len() as int), p)
    } else {
        s
    }
}

/// `s` with every copy of the nonempty suffix `p` removed from the end.
pub open spec fn strip_suffix_all(s: Seq<char>, p: Seq<char>) -> Seq<char>
    decreases s.len(),
{
    if p.len() > 0 && s.len() >= p.len() && s.subrange(s.len() - p.len(), s.len() as int) == p {
        strip_suffix_all(s.subrange(0, s.len() - p.len()), p)
    } else {
        s
    }
}

/// Removes every leading copy of `p` from `s`.
pub fn strip_prefix_repeated(s: &str, p: &str) -> (r: String)
    requires
        p@.len() > 0,
    ensures
        r@ == strip_prefix_all(s@, p@),
{
    let n = s.unicode_len();
    let m = p.unicode_len();
    let mut lo: usize = 0;
    proof {
        assert(s@.subrange(0, n as int) =~= s@);
    }
    let mut matched = compare_at(s, p, 0);
    while matched
        invariant
            0 <= lo <= n,
            n == s@.len(),
            m == p@.len(),
            m > 0,
            matched == match_at(s@, p@, lo as int),
            strip_prefix_all(s@.subrange(lo as int, n as int), p@) == strip_prefix_all(s@, p@),
        decreases n - lo,
    {
        proof {
            let sub = s@.subrange(lo as int, n as int);
            assert(sub.subrange(0, m as int) =~= s@.subrange(lo as int, lo as int + m as int));
            assert(sub.subrange(m as int, sub.len() as int) =~= s@.subrange(
                lo as int + m as int,
                n as int,
            ));
        }
        lo += m;
        matched = compare_at(s, p, lo);
    }
    proof {
        let sub = s@.subrange(lo as int, n as int);
        if sub.len() >= m {
            assert(sub.subrange(0, m as int) =~= s@.subrange(lo as int, lo as int + m as int));
        }
        assert(strip_prefix_all(sub, p@) == sub);
    }
    copy_range(s, lo, n)
}

/// Removes every trailing copy of `p` from `s`.
pub fn strip_suffix_repeated(s: &str, p: &str) -> (r: String)
    requires
        p@.len() > 0,
    ensures
        r@ == strip_suffix_all(s@, p@),
{
    let n = s.unicode_len();
    let m = p.unicode_len();
    let mut hi: usize = n;
    proof {
        assert(s@.subrange(0, n as int) =~= s@);
    }
    let mut matched = hi >= m && compare_at(s, p, hi - m);
    while matched
        invariant
            0 <= hi <= n,
            n == s@.len(),
            m == p@.len(),
            m > 0,
            matched == (hi >= m && match_at(s@, p@, hi as int - m as int)),
            strip_suffix_all(s@.subrange(0, hi as int), p@) == strip_suffix_all(s@, p@),
        decreases hi,
    {
        proof {
            let sub = s@.subrange(0, hi as int);
            assert(sub.subrange(sub.len() - m as int, sub.len() as int) =~= s@.subrange(
                hi as int - m as int,
                hi as int,
            ));
            assert(sub.subrange(0, sub.len() - m as int) =~= s@.subrange(0, hi as int - m as int));
        }
        hi -= m;
        matched = hi >= m && compare_at(s, p, hi - m);
    }
    proof {
        let sub = s@.subrange(0, hi as int);
        if sub.len() >= m {
            assert(sub.subrange(sub.len() - m as int, sub.len() as int) =~= s@.subrange(
                hi as int - m as int,
                hi as int,
            ));
        }
        assert(strip_suffix_all(sub, p@) == sub);
    }
    copy_range(s, 0, hi)
}

} // verus!

