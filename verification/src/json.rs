//! A small JSON dialect: objects whose members are string keys mapped to
//! string values, which is exactly the shape this relay exchanges with the
//! OAuth provider in both directions.
//!
//! Values are byte strings. A string literal holds any byte except `"`, `\`
//! and the raw control bytes below `0x20`; those travel as the usual
//! two-character escapes (`\"`, `\\`, `\/`, `\b`, `\f`, `\n`, `\r`, `\t`) or,
//! for the remaining control bytes, as `\u00XX`. A `\uXXXX` escape is read
//! back for any value up to `0x7F`. Multi-byte text passes through unchanged
//! as its UTF-8 bytes.
//!
//! A member's value is a string, kept with its decoded bytes, or a bare
//! scalar — a number, `true`, `false` or `null` — accepted and passed over.
//! Nested arrays and objects are outside this dialect: a member carrying
//! one is rejected. That restriction is deliberate; the token responses
//! this relay reads carry strings and flat scalars only.

use vstd::prelude::*;
use vstd::string::StrSliceExecFns;

verus! {

pub const DQUOTE: u8 = 34;

pub const BACKSLASH: u8 = 92;

pub const LBRACE: u8 = 123;

pub const RBRACE: u8 = 125;

pub const COLON: u8 = 58;

pub const COMMA: u8 = 44;

/// JSON insignificant whitespace: space, tab, line feed, carriage return.
pub open spec fn is_ws(b: u8) -> bool {
    b == 32 || b == 9 || b == 10 || b == 13
}

/// Lower-case hexadecimal digit for a value below 16.
pub open spec fn hex_digit(n: u8) -> u8
    recommends
        n < 16,
{
    if n < 10 {
        (48 + n) as u8
    } else {
        (87 + n) as u8
    }
}

/// How a single byte of a string value appears inside a JSON string literal.
pub open spec fn escape_byte(b: u8) -> Seq<u8> {
    if b == DQUOTE {
        seq![BACKSLASH, DQUOTE]
    } else if b == BACKSLASH {
        seq![BACKSLASH, BACKSLASH]
    } else if b == 8 {
        seq![BACKSLASH, 'b' as u8]
    } else if b == 9 {
        seq![BACKSLASH, 't' as u8]
    } else if b == 10 {
        seq![BACKSLASH, 'n' as u8]
    } else if b == 12 {
        seq![BACKSLASH, 'f' as u8]
    } else if b == 13 {
        seq![BACKSLASH, 'r' as u8]
    } else if b < 32 {
        seq![BACKSLASH, 'u' as u8, '0' as u8, '0' as u8, hex_digit(b / 16), hex_digit(b % 16)]
    } else {
        seq![b]
    }
}

/// A whole byte string, escaped byte by byte.
pub open spec fn escape_bytes(s: Seq<u8>) -> Seq<u8>
    decreases s.len(),
{
    if s.len() == 0 {
        Seq::empty()
    } else {
        escape_byte(s[0]) + escape_bytes(s.skip(1))
    }
}

/// A JSON string literal: the escaped bytes between two double quotes.
pub open spec fn quoted(s: Seq<u8>) -> Seq<u8> {
    seq![DQUOTE] + escape_bytes(s) + seq![DQUOTE]
}

pub proof fn lemma_escape_bytes_snoc(s: Seq<u8>, b: u8)
    ensures
        escape_bytes(s.push(b)) == escape_bytes(s) + escape_byte(b),
    decreases s.len(),
{
    if s.len() == 0 {
        assert(s.push(b).skip(1) =~= Seq::<u8>::empty());
        assert(escape_bytes(Seq::<u8>::empty()) == Seq::<u8>::empty());
        assert(s.push(b)[0] == b);
        assert(escape_bytes(s.push(b)) =~= escape_byte(b));
        assert(escape_bytes(s) + escape_byte(b) =~= escape_byte(b));
    } else {
        assert(s.push(b).skip(1) =~= s.skip(1).push(b));
        assert(s.push(b)[0] == s[0]);
        lemma_escape_bytes_snoc(s.skip(1), b);
        assert(escape_bytes(s.push(b)) =~= escape_bytes(s) + escape_byte(b));
    }
}

/// Appends the escaped form of one byte to `out`.
fn push_escaped_byte(out: &mut Vec<u8>, b: u8)
    ensures
        final(out)@ == old(out)@ + escape_byte(b),
{
    if b == DQUOTE {
        out.push(BACKSLASH);
        out.push(DQUOTE);
        assert(out@ =~= old(out)@ + escape_byte(b));
    } else if b == BACKSLASH {
        out.push(BACKSLASH);
        out.push(BACKSLASH);
        assert(out@ =~= old(out)@ + escape_byte(b));
    } else if b == 8 {
        out.push(BACKSLASH);
        out.push('b' as u8);
        assert(out@ =~= old(out)@ + escape_byte(b));
    } else if b == 9 {
        out.push(BACKSLASH);
        out.push('t' as u8);
        assert(out@ =~= old(out)@ + escape_byte(b));
    } else if b == 10 {
        out.push(BACKSLASH);
        out.push('n' as u8);
        assert(out@ =~= old(out)@ + escape_byte(b));
    } else if b == 12 {
        out.push(BACKSLASH);
        out.push('f' as u8);
        assert(out@ =~= old(out)@ + escape_byte(b));
    } else if b == 13 {
        out.push(BACKSLASH);
        out.push('r' as u8);
        assert(out@ =~= old(out)@ + escape_byte(b));
    } else if b < 32 {
        out.push(BACKSLASH);
        out.push('u' as u8);
        out.push('0' as u8);
        out.push('0' as u8);
        let hi = b / 16;
        let lo = b % 16;
        out.push(if hi < 10 { 48 + hi } else { 87 + hi });
        out.push(if lo < 10 { 48 + lo } else { 87 + lo });
        assert(out@ =~= old(out)@ + escape_byte(b));
    } else {
        out.push(b);
        assert(out@ =~= old(out)@ + escape_byte(b));
    }
}

/// Appends a complete JSON string literal for `s` to `out`.
pub fn push_quoted(out: &mut Vec<u8>, s: &Vec<u8>)
    ensures
        final(out)@ == old(out)@ + quoted(s@),
{
    out.push(DQUOTE);
    let mut i: usize = 0;
    while i < s.len()
        invariant
            i <= s@.len(),
            out@ == old(out)@ + seq![DQUOTE] + escape_bytes(s@.take(i as int)),
        decreases s@.len() - i,
    {
        let b = s[i];
        push_escaped_byte(out, b);
        proof {
            assert(s@.take(i + 1) =~= s@.take(i as int).push(s@[i as int]));
            lemma_escape_bytes_snoc(s@.take(i as int), s@[i as int]);
        }
        i = i + 1;
    }
    assert(s@.take(s@.len() as int) =~= s@);
    out.push(DQUOTE);
    assert(out@ =~= old(out)@ + quoted(s@));
}

/// The bytes of an ASCII string, character by character.
pub open spec fn ascii_seq(s: Seq<char>) -> Seq<u8> {
    Seq::new(s.len(), |i: int| s[i] as u8)
}

/// Byte string for an ASCII literal.
pub fn ascii_lit_bytes(s: &str) -> (r: Vec<u8>)
    requires
        vstd::string::is_ascii(s),
    ensures
        r@ == ascii_seq(s@),
{
    proof {
        vstd::string::is_ascii_spec_bytes(s);
    }
    let r = s.as_bytes_vec();
    proof {
        assert(r@ =~= ascii_seq(s@));
    }
    r
}

/// First position at or after `i` that does not hold whitespace.
pub open spec fn skip_ws(s: Seq<u8>, i: int) -> int
    decreases s.len() - i,
{
    if 0 <= i && i < s.len() && is_ws(s[i]) {
        skip_ws(s, i + 1)
    } else {
        i
    }
}

/// The byte a two-character escape stands for, if the character after the
/// backslash is one of the eight simple escapes.
pub open spec fn unescape_simple(e: u8) -> Option<u8> {
    if e == DQUOTE {
        Some(DQUOTE)
    } else if e == BACKSLASH {
        Some(BACKSLASH)
    } else if e == '/' as u8 {
        Some('/' as u8)
    } else if e == 'b' as u8 {
        Some(8u8)
    } else if e == 'f' as u8 {
        Some(12u8)
    } else if e == 'n' as u8 {
        Some(10u8)
    } else if e == 'r' as u8 {
        Some(13u8)
    } else if e == 't' as u8 {
        Some(9u8)
    } else {
        None
    }
}

/// Value of one hexadecimal digit, upper or lower case.
pub open spec fn hex_val(b: u8) -> Option<u8> {
    if 48 <= b && b <= 57 {
        Some((b - 48) as u8)
    } else if 97 <= b && b <= 102 {
        Some((b - 87) as u8)
    } else if 65 <= b && b <= 70 {
        Some((b - 55) as u8)
    } else {
        None
    }
}

/// Reads the remainder of a string literal, starting just after the opening
/// quote. Yields the decoded bytes and the position after the closing quote.
/// A `\uXXXX` escape is accepted for values up to `0x7F`.
pub open spec fn parse_string_body(s: Seq<u8>, i: int) -> Option<(Seq<u8>, int)>
    decreases s.len() - i,
{
    if i < 0 || i >= s.len() {
        None
    } else if s[i] == DQUOTE {
        Some((Seq::<u8>::empty(), i + 1))
    } else if s[i] == BACKSLASH {
        if i + 1 < s.len() && s[i + 1] == 'u' as u8 {
            if i + 5 < s.len() {
                match (hex_val(s[i + 2]), hex_val(s[i + 3]), hex_val(s[i + 4]), hex_val(s[i + 5])) {
                    (Some(h3), Some(h2), Some(h1), Some(h0)) => {
                        let v = h3 * 4096 + h2 * 256 + h1 * 16 + h0;
                        if v < 128 {
                            match parse_string_body(s, i + 6) {
                                Some(r) => Some((seq![v as u8] + r.0, r.1)),
                                None => None,
                            }
                        } else {
                            None
                        }
                    },
                    _ => None,
                }
            } else {
                None
            }
        } else if i + 1 < s.len() {
            match unescape_simple(s[i + 1]) {
                Some(b) => match parse_string_body(s, i + 2) {
                    Some(r) => Some((seq![b] + r.0, r.1)),
                    None => None,
                },
                None => None,
            }
        } else {
            None
        }
    } else if s[i] < 32 {
        None
    } else {
        match parse_string_body(s, i + 1) {
            Some(r) => Some((seq![s[i]] + r.0, r.1)),
            None => None,
        }
    }
}

/// A string literal beginning at `i`: an opening quote, then its body.
pub open spec fn parse_string(s: Seq<u8>, i: int) -> Option<(Seq<u8>, int)> {
    if 0 <= i && i < s.len() && s[i] == DQUOTE {
        parse_string_body(s, i + 1)
    } else {
        None
    }
}

/// An ASCII digit.
pub open spec fn is_digit(b: u8) -> bool {
    48 <= b && b <= 57
}

/// First position at or after `i` that does not hold a digit.
pub open spec fn digits_end(s: Seq<u8>, i: int) -> int
    decreases s.len() - i,
{
    if 0 <= i && i < s.len() && is_digit(s[i]) {
        digits_end(s, i + 1)
    } else {
        i
    }
}

/// End position of a bare JSON scalar beginning at `i`: a number, `true`,
/// `false` or `null`.
pub open spec fn scalar_end(s: Seq<u8>, i: int) -> Option<int> {
    if i < 0 || i >= s.len() {
        None
    } else if s[i] == 't' as u8 {
        if i + 4 <= s.len() && s[i + 1] == 'r' as u8 && s[i + 2] == 'u' as u8 && s[i + 3]
            == 'e' as u8 {
            Some(i + 4)
        } else {
            None
        }
    } else if s[i] == 'f' as u8 {
        if i + 5 <= s.len() && s[i + 1] == 'a' as u8 && s[i + 2] == 'l' as u8 && s[i + 3]
            == 's' as u8 && s[i + 4] == 'e' as u8 {
            Some(i + 5)
        } else {
            None
        }
    } else if s[i] == 'n' as u8 {
        if i + 4 <= s.len() && s[i + 1] == 'u' as u8 && s[i + 2] == 'l' as u8 && s[i + 3]
            == 'l' as u8 {
            Some(i + 4)
        } else {
            None
        }
    } else {
        let d0 = if s[i] == '-' as u8 {
            i + 1
        } else {
            i
        };
        if d0 < s.len() && is_digit(s[d0]) {
            let d1 = digits_end(s, d0);
            let d2 = if d1 < s.len() && s[d1] == '.' as u8 {
                if d1 + 1 < s.len() && is_digit(s[d1 + 1]) {
                    digits_end(s, d1 + 1)
                } else {
                    -1
                }
            } else {
                d1
            };
            if d2 < 0 {
                None
            } else {
                let d3 = if d2 < s.len() && (s[d2] == 'e' as u8 || s[d2] == 'E' as u8) {
                    let e0 = if d2 + 1 < s.len() && (s[d2 + 1] == '+' as u8 || s[d2 + 1]
                        == '-' as u8) {
                        d2 + 2
                    } else {
                        d2 + 1
                    };
                    if e0 < s.len() && is_digit(s[e0]) {
                        digits_end(s, e0)
                    } else {
                        -1
                    }
                } else {
                    d2
                };
                if d3 < 0 {
                    None
                } else {
                    Some(d3)
                }
            }
        } else {
            None
        }
    }
}

/// The value a parsed member carries: the decoded bytes of a string, or
/// nothing nameable for a bare scalar.
pub open spec fn val_view(v: Option<Vec<u8>>) -> Option<Seq<u8>> {
    match v {
        Some(b) => Some(b@),
        None => None,
    }
}

/// One member beginning at `i`: a string key, a colon, then a value that is
/// either a string (kept, decoded) or a bare scalar (accepted, passed over).
pub open spec fn parse_pair(s: Seq<u8>, i: int) -> Option<((Seq<u8>, Option<Seq<u8>>), int)> {
    match parse_string(s, i) {
        Some(k) => {
            let j = skip_ws(s, k.1);
            if 0 <= j && j < s.len() && s[j] == COLON {
                let vp = skip_ws(s, j + 1);
                if 0 <= vp && vp < s.len() && s[vp] == DQUOTE {
                    match parse_string(s, vp) {
                        Some(v) => Some(((k.0, Some(v.0)), v.1)),
                        None => None,
                    }
                } else {
                    match scalar_end(s, vp) {
                        Some(e) => Some(((k.0, None), e)),
                        None => None,
                    }
                }
            } else {
                None
            }
        },
        None => None,
    }
}

/// A non-empty, comma-separated member list beginning at `i`, in order of
/// appearance. Yields the position just after the last member.
pub open spec fn parse_members(s: Seq<u8>, i: int) -> Option<(Seq<(Seq<u8>, Option<Seq<u8>>)>, int)>
    decreases s.len() - i,
{
    match parse_pair(s, i) {
        Some(p) => {
            let j = skip_ws(s, p.1);
            if 0 <= j && j < s.len() && s[j] == COMMA {
                let j2 = skip_ws(s, j + 1);
                if i < j2 && j2 <= s.len() {
                    match parse_members(s, j2) {
                        Some(r) => Some((seq![p.0] + r.0, r.1)),
                        None => None,
                    }
                } else {
                    None
                }
            } else {
                Some((seq![p.0], p.1))
            }
        },
        None => None,
    }
}

/// A complete document: one object of string members, with nothing but
/// whitespace around it. Yields the members in order of appearance.
pub open spec fn parse_object(s: Seq<u8>) -> Option<Seq<(Seq<u8>, Option<Seq<u8>>)>> {
    let i = skip_ws(s, 0);
    if 0 <= i && i < s.len() && s[i] == LBRACE {
        let j = skip_ws(s, i + 1);
        if 0 <= j && j < s.len() && s[j] == RBRACE {
            if skip_ws(s, j + 1) == s.len() {
                Some(Seq::<(Seq<u8>, Option<Seq<u8>>)>::empty())
            } else {
                None
            }
        } else {
            match parse_members(s, j) {
                Some(r) => {
                    let k = skip_ws(s, r.1);
                    if 0 <= k && k < s.len() && s[k] == RBRACE && skip_ws(s, k + 1) == s.len() {
                        Some(r.0)
                    } else {
                        None
                    }
                },
                None => None,
            }
        }
    } else {
        None
    }
}

/// Reading an escaped byte string back yields the bytes it was made from:
/// at a position where the escaped form of `s` meets a closing quote,
/// the string-body parser returns exactly `s` and stops after that quote.
pub proof fn lemma_parse_escaped(w: Seq<u8>, i: int, s: Seq<u8>, rest: Seq<u8>)
    requires
        0 <= i <= w.len(),
        w.skip(i) == escape_bytes(s) + seq![DQUOTE] + rest,
    ensures
        parse_string_body(w, i) == Some((s, i + escape_bytes(s).len() + 1)),
    decreases s.len(),
{
    assert(w.skip(i).len() == w.len() - i);
    if s.len() == 0 {
        assert(escape_bytes(s) == Seq::<u8>::empty());
        assert(w.skip(i) =~= seq![DQUOTE] + rest);
        assert((seq![DQUOTE] + rest)[0] == DQUOTE);
        assert(w.skip(i)[0] == DQUOTE);
        assert(w[i] == DQUOTE);
        assert(parse_string_body(w, i) == Some((Seq::<u8>::empty(), i + 1)));
    } else {
        let b = s[0];
        let e0 = escape_byte(b);
        let tail = escape_bytes(s.skip(1)) + seq![DQUOTE] + rest;
        assert(escape_bytes(s) == e0 + escape_bytes(s.skip(1)));
        assert(w.skip(i) =~= e0 + tail);
        assert(escape_bytes(s).len() == e0.len() + escape_bytes(s.skip(1)).len());
        assert(seq![b] + s.skip(1) =~= s);
        if b == DQUOTE || b == BACKSLASH || b == 8 || b == 9 || b == 10 || b == 12 || b == 13 {
            assert(e0.len() == 2 && e0[0] == BACKSLASH);
            assert((e0 + tail)[0] == BACKSLASH);
            assert(w.skip(i)[0] == BACKSLASH);
            assert(w[i] == BACKSLASH);
            assert((e0 + tail)[1] == e0[1]);
            assert(w.skip(i)[1] == e0[1]);
            assert(w[i + 1] == e0[1]);
            assert(e0[1] != 'u' as u8);
            assert(unescape_simple(e0[1]) == Some(b));
            assert(w.skip(i + 2) =~= w.skip(i).skip(2));
            assert((e0 + tail).skip(2) =~= tail);
            lemma_parse_escaped(w, i + 2, s.skip(1), rest);
            assert(parse_string_body(w, i) == Some((s, i + escape_bytes(s).len() + 1)));
        } else if b < 32 {
            let hi = b / 16;
            let lo = b % 16;
            assert(e0 =~= seq![
                BACKSLASH,
                'u' as u8,
                '0' as u8,
                '0' as u8,
                hex_digit(hi),
                hex_digit(lo),
            ]);
            assert((e0 + tail)[0] == BACKSLASH);
            assert((e0 + tail)[1] == 'u' as u8);
            assert((e0 + tail)[2] == '0' as u8);
            assert((e0 + tail)[3] == '0' as u8);
            assert((e0 + tail)[4] == hex_digit(hi));
            assert((e0 + tail)[5] == hex_digit(lo));
            assert(w.skip(i)[0] == BACKSLASH && w.skip(i)[1] == 'u' as u8 && w.skip(i)[2]
                == '0' as u8 && w.skip(i)[3] == '0' as u8 && w.skip(i)[4] == hex_digit(hi)
                && w.skip(i)[5] == hex_digit(lo));
            assert(w[i] == BACKSLASH);
            assert(w[i + 1] == 'u' as u8);
            assert(w[i + 2] == '0' as u8);
            assert(w[i + 3] == '0' as u8);
            assert(w[i + 4] == hex_digit(hi));
            assert(w[i + 5] == hex_digit(lo));
            assert(hex_val('0' as u8) == Some(0u8));
            assert(hex_val(hex_digit(hi)) == Some(hi)) by {
                assert(hi < 10);
            }
            assert(hex_val(hex_digit(lo)) == Some(lo)) by {
                if lo < 10 {
                } else {
                    assert(hex_digit(lo) == 87 + lo);
                }
            }
            assert(0 * 4096 + 0 * 256 + hi * 16 + lo == b);
            assert(w.skip(i + 6) =~= w.skip(i).skip(6));
            assert((e0 + tail).skip(6) =~= tail);
            lemma_parse_escaped(w, i + 6, s.skip(1), rest);
            assert(parse_string_body(w, i) == Some((s, i + escape_bytes(s).len() + 1)));
        } else {
            assert(e0 =~= seq![b]);
            assert((e0 + tail)[0] == b);
            assert(w.skip(i)[0] == b);
            assert(w[i] == b);
            assert(b != DQUOTE && b != BACKSLASH && b >= 32);
            assert(w.skip(i + 1) =~= w.skip(i).skip(1));
            assert((e0 + tail).skip(1) =~= tail);
            lemma_parse_escaped(w, i + 1, s.skip(1), rest);
            assert(parse_string_body(w, i) == Some((s, i + escape_bytes(s).len() + 1)));
        }
    }
}

/// A quoted string literal reads back as the string it was made from.
pub proof fn lemma_parse_quoted(w: Seq<u8>, i: int, s: Seq<u8>, rest: Seq<u8>)
    requires
        0 <= i <= w.len(),
        w.skip(i) == quoted(s) + rest,
    ensures
        parse_string(w, i) == Some((s, i + quoted(s).len())),
{
    assert(w.skip(i).len() == w.len() - i);
    assert(quoted(s)[0] == DQUOTE);
    assert((quoted(s) + rest)[0] == DQUOTE);
    assert(w.skip(i)[0] == DQUOTE);
    assert(w[i] == DQUOTE);
    assert(w.skip(i + 1) =~= w.skip(i).skip(1));
    assert((quoted(s) + rest).skip(1) =~= escape_bytes(s) + seq![DQUOTE] + rest);
    lemma_parse_escaped(w, i + 1, s, rest);
    assert(quoted(s).len() == escape_bytes(s).len() + 2);
}

/// A rendered `"key":"value"` member reads back as that pair.
pub proof fn lemma_parse_rendered_pair(w: Seq<u8>, i: int, k: Seq<u8>, v: Seq<u8>, rest: Seq<u8>)
    requires
        0 <= i <= w.len(),
        w.skip(i) == quoted(k) + seq![COLON] + quoted(v) + rest,
    ensures
        parse_pair(w, i) == Some(((k, Some(v)), i + quoted(k).len() + 1 + quoted(v).len())),
{
    assert(w.skip(i) =~= quoted(k) + (seq![COLON] + quoted(v) + rest));
    lemma_parse_quoted(w, i, k, seq![COLON] + quoted(v) + rest);
    let j = i + quoted(k).len();
    assert(w.skip(j) =~= w.skip(i).skip(quoted(k).len() as int));
    assert(w.skip(j) =~= seq![COLON] + quoted(v) + rest);
    assert((seq![COLON] + quoted(v) + rest)[0] == COLON);
    assert(w.skip(j)[0] == COLON);
    assert(w[j] == COLON);
    assert(!is_ws(COLON));
    assert(skip_ws(w, j) == j);
    assert(w.skip(j + 1) =~= w.skip(j).skip(1));
    assert(w.skip(j + 1) =~= quoted(v) + rest);
    assert(quoted(v)[0] == DQUOTE);
    assert((quoted(v) + rest)[0] == DQUOTE);
    assert(w.skip(j + 1)[0] == DQUOTE);
    assert(w[j + 1] == DQUOTE);
    assert(!is_ws(DQUOTE));
    assert(skip_ws(w, j + 1) == j + 1);
    lemma_parse_quoted(w, j + 1, v, rest);
}

/// The value of the first member whose key is `key`, if any.
pub open spec fn lookup(ms: Seq<(Seq<u8>, Option<Seq<u8>>)>, key: Seq<u8>) -> Option<
    Option<Seq<u8>>,
>
    decreases ms.len(),
{
    if ms.len() == 0 {
        None
    } else if ms[0].0 == key {
        Some(ms[0].1)
    } else {
        lookup(ms.skip(1), key)
    }
}

/// The members a parsed `Vec` stands for.
pub open spec fn pairs_view(ps: Seq<(Vec<u8>, Option<Vec<u8>>)>) -> Seq<
    (Seq<u8>, Option<Seq<u8>>),
> {
    ps.map_values(|p: (Vec<u8>, Option<Vec<u8>>)| (p.0@, val_view(p.1)))
}

/// `r` with `p` put before its parsed bytes.
pub open spec fn prepend_parsed(p: Seq<u8>, r: Option<(Seq<u8>, int)>) -> Option<(Seq<u8>, int)> {
    match r {
        Some(t) => Some((p + t.0, t.1)),
        None => None,
    }
}

/// `r` with the members `ms` put before its member list.
pub open spec fn prepend_members(
    ms: Seq<(Seq<u8>, Option<Seq<u8>>)>,
    r: Option<(Seq<(Seq<u8>, Option<Seq<u8>>)>, int)>,
) -> Option<(Seq<(Seq<u8>, Option<Seq<u8>>)>, int)> {
    match r {
        Some(t) => Some((ms + t.0, t.1)),
        None => None,
    }
}

proof fn lemma_prepend_parsed_assoc(a: Seq<u8>, b: Seq<u8>, r: Option<(Seq<u8>, int)>)
    ensures
        prepend_parsed(a, prepend_parsed(b, r)) == prepend_parsed(a + b, r),
{
    match r {
        Some(t) => {
            assert(a + (b + t.0) =~= (a + b) + t.0);
        },
        None => {},
    }
}

proof fn lemma_prepend_members_assoc(
    a: Seq<(Seq<u8>, Option<Seq<u8>>)>,
    b: Seq<(Seq<u8>, Option<Seq<u8>>)>,
    r: Option<(Seq<(Seq<u8>, Option<Seq<u8>>)>, int)>,
)
    ensures
        prepend_members(a, prepend_members(b, r)) == prepend_members(a + b, r),
{
    match r {
        Some(t) => {
            assert(a + (b + t.0) =~= (a + b) + t.0);
        },
        None => {},
    }
}

/// Runtime counterpart of [`skip_ws`].
pub fn skip_ws_exec(s: &Vec<u8>, i: usize) -> (r: usize)
    requires
        i <= s@.len(),
    ensures
        r == skip_ws(s@, i as int),
        i <= r <= s@.len(),
{
    let mut j = i;
    while j < s.len() && (s[j] == 32 || s[j] == 9 || s[j] == 10 || s[j] == 13)
        invariant
            i <= j <= s@.len(),
            skip_ws(s@, i as int) == skip_ws(s@, j as int),
        decreases s@.len() - j,
    {
        j = j + 1;
    }
    j
}

/// Runtime counterpart of [`hex_val`].
pub(crate) fn hex_val_exec(b: u8) -> (r: Option<u8>)
    ensures
        r == hex_val(b),
{
    if 48 <= b && b <= 57 {
        Some(b - 48)
    } else if 97 <= b && b <= 102 {
        Some(b - 87)
    } else if 65 <= b && b <= 70 {
        Some(b - 55)
    } else {
        None
    }
}

/// Runtime counterpart of [`unescape_simple`].
fn unescape_simple_exec(e: u8) -> (r: Option<u8>)
    ensures
        r == unescape_simple(e),
{
    if e == DQUOTE {
        Some(DQUOTE)
    } else if e == BACKSLASH {
        Some(BACKSLASH)
    } else if e == '/' as u8 {
        Some('/' as u8)
    } else if e == 'b' as u8 {
        Some(8u8)
    } else if e == 'f' as u8 {
        Some(12u8)
    } else if e == 'n' as u8 {
        Some(10u8)
    } else if e == 'r' as u8 {
        Some(13u8)
    } else if e == 't' as u8 {
        Some(9u8)
    } else {
        None
    }
}

/// Runtime counterpart of [`parse_string_body`].
fn parse_string_body_exec(s: &Vec<u8>, start: usize) -> (r: Option<(Vec<u8>, usize)>)
    requires
        start <= s@.len(),
    ensures
        r matches Some(t) ==> parse_string_body(s@, start as int) == Some((t.0@, t.1 as int))
            && t.1 <= s@.len(),
        r is None ==> parse_string_body(s@, start as int) is None,
{
    let mut acc: Vec<u8> = Vec::new();
    let mut i = start;
    loop
        invariant
            i <= s@.len(),
            parse_string_body(s@, start as int) == prepend_parsed(
                acc@,
                parse_string_body(s@, i as int),
            ),
        decreases s@.len() - i,
    {
        if i >= s.len() {
            return None;
        }
        let b = s[i];
        if b == DQUOTE {
            proof {
                assert(acc@ + Seq::<u8>::empty() =~= acc@);
            }
            return Some((acc, i + 1));
        } else if b == BACKSLASH {
            if i + 1 < s.len() && s[i + 1] == 'u' as u8 {
                if s.len() - i > 5 {
                    proof {
                        assert(i + 5 < s@.len());
                    }
                    let h3 = hex_val_exec(s[i + 2]);
                    let h2 = hex_val_exec(s[i + 3]);
                    let h1 = hex_val_exec(s[i + 4]);
                    let h0 = hex_val_exec(s[i + 5]);
                    match (h3, h2, h1, h0) {
                        (Some(h3), Some(h2), Some(h1), Some(h0)) => {
                            let v: u32 = (h3 as u32) * 4096 + (h2 as u32) * 256 + (h1 as u32) * 16
                                + (h0 as u32);
                            if v < 128 {
                                proof {
                                    assert(parse_string_body(s@, i as int) == prepend_parsed(
                                        seq![v as u8],
                                        parse_string_body(s@, i + 6),
                                    ));
                                    lemma_prepend_parsed_assoc(
                                        acc@,
                                        seq![v as u8],
                                        parse_string_body(s@, i + 6),
                                    );
                                    assert(acc@.push(v as u8) =~= acc@ + seq![v as u8]);
                                }
                                acc.push(v as u8);
                                i = i + 6;
                            } else {
                                return None;
                            }
                        },
                        _ => {
                            return None;
                        },
                    }
                } else {
                    return None;
                }
            } else if i + 1 < s.len() {
                match unescape_simple_exec(s[i + 1]) {
                    Some(u) => {
                        proof {
                            assert(parse_string_body(s@, i as int) == prepend_parsed(
                                seq![u],
                                parse_string_body(s@, i + 2),
                            ));
                            lemma_prepend_parsed_assoc(acc@, seq![u], parse_string_body(s@, i + 2));
                            assert(acc@.push(u) =~= acc@ + seq![u]);
                        }
                        acc.push(u);
                        i = i + 2;
                    },
                    None => {
                        return None;
                    },
                }
            } else {
                return None;
            }
        } else if b < 32 {
            return None;
        } else {
            proof {
                assert(parse_string_body(s@, i as int) == prepend_parsed(
                    seq![b],
                    parse_string_body(s@, i + 1),
                ));
                lemma_prepend_parsed_assoc(acc@, seq![b], parse_string_body(s@, i + 1));
                assert(acc@.push(b) =~= acc@ + seq![b]);
            }
            acc.push(b);
            i = i + 1;
        }
    }
}

/// Runtime counterpart of [`parse_string`].
fn parse_string_exec(s: &Vec<u8>, i: usize) -> (r: Option<(Vec<u8>, usize)>)
    requires
        i <= s@.len(),
    ensures
        r matches Some(t) ==> parse_string(s@, i as int) == Some((t.0@, t.1 as int)) && t.1
            <= s@.len(),
        r is None ==> parse_string(s@, i as int) is None,
{
    if i < s.len() && s[i] == DQUOTE {
        parse_string_body_exec(s, i + 1)
    } else {
        None
    }
}

/// Runtime counterpart of [`digits_end`].
fn digits_end_exec(s: &Vec<u8>, i: usize) -> (r: usize)
    requires
        i <= s@.len(),
    ensures
        r == digits_end(s@, i as int),
        i <= r <= s@.len(),
{
    let mut j = i;
    while j < s.len() && s[j] >= 48 && s[j] <= 57
        invariant
            i <= j <= s@.len(),
            digits_end(s@, i as int) == digits_end(s@, j as int),
        decreases s@.len() - j,
    {
        j = j + 1;
    }
    j
}

/// Runtime counterpart of [`scalar_end`].
fn scalar_end_exec(s: &Vec<u8>, i: usize) -> (r: Option<usize>)
    requires
        i <= s@.len(),
    ensures
        r matches Some(e) ==> scalar_end(s@, i as int) == Some(e as int) && e <= s@.len(),
        r is None ==> scalar_end(s@, i as int) is None,
{
    if i >= s.len() {
        return None;
    }
    let b = s[i];
    if b == 't' as u8 {
        if s.len() - i >= 4 && s[i + 1] == 'r' as u8 && s[i + 2] == 'u' as u8 && s[i + 3]
            == 'e' as u8 {
            Some(i + 4)
        } else {
            None
        }
    } else if b == 'f' as u8 {
        if s.len() - i >= 5 && s[i + 1] == 'a' as u8 && s[i + 2] == 'l' as u8 && s[i + 3]
            == 's' as u8 && s[i + 4] == 'e' as u8 {
            Some(i + 5)
        } else {
            None
        }
    } else if b == 'n' as u8 {
        if s.len() - i >= 4 && s[i + 1] == 'u' as u8 && s[i + 2] == 'l' as u8 && s[i + 3]
            == 'l' as u8 {
            Some(i + 4)
        } else {
            None
        }
    } else {
        let d0 = if b == '-' as u8 {
            i + 1
        } else {
            i
        };
        if d0 < s.len() && s[d0] >= 48 && s[d0] <= 57 {
            let d1 = digits_end_exec(s, d0);
            let d2_opt: Option<usize> = if d1 < s.len() && s[d1] == '.' as u8 {
                if d1 + 1 < s.len() && s[d1 + 1] >= 48 && s[d1 + 1] <= 57 {
                    Some(digits_end_exec(s, d1 + 1))
                } else {
                    None
                }
            } else {
                Some(d1)
            };
            match d2_opt {
                None => None,
                Some(d2) => {
                    let d3_opt: Option<usize> = if d2 < s.len() && (s[d2] == 'e' as u8 || s[d2]
                        == 'E' as u8) {
                        let e0 = if d2 + 1 < s.len() && (s[d2 + 1] == '+' as u8 || s[d2 + 1]
                            == '-' as u8) {
                            d2 + 2
                        } else {
                            d2 + 1
                        };
                        if e0 < s.len() && s[e0] >= 48 && s[e0] <= 57 {
                            Some(digits_end_exec(s, e0))
                        } else {
                            None
                        }
                    } else {
                        Some(d2)
                    };
                    d3_opt
                },
            }
        } else {
            None
        }
    }
}

/// Runtime counterpart of [`parse_pair`].
fn parse_pair_exec(s: &Vec<u8>, i: usize) -> (r: Option<(Vec<u8>, Option<Vec<u8>>, usize)>)
    requires
        i <= s@.len(),
    ensures
        r matches Some(t) ==> parse_pair(s@, i as int) == Some(
            ((t.0@, val_view(t.1)), t.2 as int),
        ) && t.2 <= s@.len(),
        r is None ==> parse_pair(s@, i as int) is None,
{
    match parse_string_exec(s, i) {
        Some((k, after_key)) => {
            let j = skip_ws_exec(s, after_key);
            if j < s.len() && s[j] == COLON {
                let vp = skip_ws_exec(s, j + 1);
                if vp < s.len() && s[vp] == DQUOTE {
                    match parse_string_exec(s, vp) {
                        Some((v, after_val)) => Some((k, Some(v), after_val)),
                        None => None,
                    }
                } else {
                    match scalar_end_exec(s, vp) {
                        Some(e) => Some((k, None, e)),
                        None => None,
                    }
                }
            } else {
                None
            }
        },
        None => None,
    }
}

/// Runtime counterpart of [`parse_members`].
fn parse_members_exec(s: &Vec<u8>, start: usize) -> (r: Option<
    (Vec<(Vec<u8>, Option<Vec<u8>>)>, usize),
>)
    requires
        start <= s@.len(),
    ensures
        r matches Some(t) ==> parse_members(s@, start as int) == Some((pairs_view(t.0@), t.1 as int))
            && t.1 <= s@.len(),
        r is None ==> parse_members(s@, start as int) is None,
{
    let mut acc: Vec<(Vec<u8>, Option<Vec<u8>>)> = Vec::new();
    let mut i = start;
    loop
        invariant
            i <= s@.len(),
            parse_members(s@, start as int) == prepend_members(
                pairs_view(acc@),
                parse_members(s@, i as int),
            ),
        decreases s@.len() - i,
    {
        match parse_pair_exec(s, i) {
            None => {
                return None;
            },
            Some((k, v, j)) => {
                let j2 = skip_ws_exec(s, j);
                if j2 < s.len() && s[j2] == COMMA {
                    let j3 = skip_ws_exec(s, j2 + 1);
                    if i < j3 {
                        proof {
                            assert(parse_members(s@, i as int) == prepend_members(
                                seq![(k@, val_view(v))],
                                parse_members(s@, j3 as int),
                            ));
                            lemma_prepend_members_assoc(
                                pairs_view(acc@),
                                seq![(k@, val_view(v))],
                                parse_members(s@, j3 as int),
                            );
                            assert(pairs_view(acc@.push((k, v))) =~= pairs_view(acc@) + seq![
                                (k@, val_view(v)),
                            ]);
                        }
                        acc.push((k, v));
                        i = j3;
                    } else {
                        return None;
                    }
                } else {
                    proof {
                        assert(parse_members(s@, i as int) == Some(
                            (seq![(k@, val_view(v))], j as int),
                        ));
                        assert(pairs_view(acc@.push((k, v))) =~= pairs_view(acc@) + seq![
                            (k@, val_view(v)),
                        ]);
                    }
                    acc.push((k, v));
                    return Some((acc, j));
                }
            },
        }
    }
}

/// Runtime counterpart of [`parse_object`].
pub fn parse_object_exec(s: &Vec<u8>) -> (r: Option<Vec<(Vec<u8>, Option<Vec<u8>>)>>)
    ensures
        r matches Some(ms) ==> parse_object(s@) == Some(pairs_view(ms@)),
        r is None ==> parse_object(s@) is None,
{
    let i = skip_ws_exec(s, 0);
    if i < s.len() && s[i] == LBRACE {
        let j = skip_ws_exec(s, i + 1);
        if j < s.len() && s[j] == RBRACE {
            if skip_ws_exec(s, j + 1) == s.len() {
                proof {
                    assert(pairs_view(Seq::<(Vec<u8>, Option<Vec<u8>>)>::empty()) =~= Seq::<(
                        Seq<u8>,
                        Option<Seq<u8>>,
                    )>::empty());
                }
                Some(Vec::new())
            } else {
                None
            }
        } else {
            match parse_members_exec(s, j) {
                Some((ms, k)) => {
                    let k2 = skip_ws_exec(s, k);
                    if k2 < s.len() && s[k2] == RBRACE && skip_ws_exec(s, k2 + 1) == s.len() {
                        Some(ms)
                    } else {
                        None
                    }
                },
                None => None,
            }
        }
    } else {
        None
    }
}

/// A fresh copy of a byte string.
pub fn copy_bytes(v: &Vec<u8>) -> (r: Vec<u8>)
    ensures
        r@ == v@,
{
    let mut out: Vec<u8> = Vec::new();
    let mut i: usize = 0;
    while i < v.len()
        invariant
            i <= v@.len(),
            out@ == v@.take(i as int),
        decreases v@.len() - i,
    {
        out.push(v[i]);
        proof {
            assert(v@.take(i + 1) =~= v@.take(i as int).push(v@[i as int]));
        }
        i = i + 1;
    }
    proof {
        assert(v@.take(v@.len() as int) =~= v@);
    }
    out
}

/// Whether two byte strings hold the same bytes.
pub fn bytes_eq(a: &Vec<u8>, b: &Vec<u8>) -> (r: bool)
    ensures
        r == (a@ == b@),
{
    if a.len() != b.len() {
        return false;
    }
    let mut i: usize = 0;
    while i < a.len()
        invariant
            i <= a@.len(),
            a@.len() == b@.len(),
            forall|k: int| 0 <= k < i ==> a@[k] == b@[k],
        decreases a@.len() - i,
    {
        if a[i] != b[i] {
            return false;
        }
        i = i + 1;
    }
    proof {
        assert(a@ =~= b@);
    }
    true
}

/// Runtime counterpart of [`lookup`]: the value of the first member whose
/// key is `key`, copied out of the list.
pub fn lookup_exec(ms: &Vec<(Vec<u8>, Option<Vec<u8>>)>, key: &Vec<u8>) -> (r: Option<
    Option<Vec<u8>>,
>)
    ensures
        r matches Some(v) ==> lookup(pairs_view(ms@), key@) == Some(val_view(v)),
        r is None ==> lookup(pairs_view(ms@), key@) is None,
{
    let mut i: usize = 0;
    proof {
        assert(pairs_view(ms@).skip(0) =~= pairs_view(ms@));
    }
    while i < ms.len()
        invariant
            i <= ms@.len(),
            lookup(pairs_view(ms@), key@) == lookup(pairs_view(ms@).skip(i as int), key@),
        decreases ms@.len() - i,
    {
        let hit = bytes_eq(&ms[i].0, key);
        proof {
            assert(pairs_view(ms@).skip(i as int).len() == ms@.len() - i);
            assert(pairs_view(ms@).skip(i as int)[0] == pairs_view(ms@)[i as int]);
            assert(pairs_view(ms@)[i as int] == (ms@[i as int].0@, val_view(ms@[i as int].1)));
            assert(pairs_view(ms@).skip(i as int).skip(1) =~= pairs_view(ms@).skip(i + 1));
        }
        if hit {
            let found: Option<Vec<u8>> = match &ms[i].1 {
                Some(v) => Some(copy_bytes(v)),
                None => None,
            };
            proof {
                assert(val_view(found) == val_view(ms@[i as int].1));
            }
            return Some(found);
        }
        i = i + 1;
    }
    proof {
        assert(pairs_view(ms@).skip(ms@.len() as int) =~= Seq::<(
            Seq<u8>,
            Option<Seq<u8>>,
        )>::empty());
    }
    None
}

} // verus!
