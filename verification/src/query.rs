//! Query-string handling for the one route: finding a named parameter in
//! `name=value&name=value` form and percent-decoding its value.

use vstd::prelude::*;

use crate::json::{bytes_eq, hex_val, hex_val_exec};

verus! {

/// Percent-decoding as submitted forms use it: `%XX` with two hexadecimal
/// digits becomes that byte, `+` becomes a space, and anything else — a lone
/// or ill-formed `%` included — passes through unchanged.
pub open spec fn pct_decode(s: Seq<u8>) -> Seq<u8>
    decreases s.len(),
{
    if s.len() == 0 {
        Seq::<u8>::empty()
    } else if s[0] == '%' as u8 && s.len() >= 3 {
        match (hex_val(s[1]), hex_val(s[2])) {
            (Some(h), Some(l)) => seq![(h * 16 + l) as u8] + pct_decode(s.skip(3)),
            _ => seq![s[0]] + pct_decode(s.skip(1)),
        }
    } else if s[0] == '+' as u8 {
        seq![32u8] + pct_decode(s.skip(1))
    } else {
        seq![s[0]] + pct_decode(s.skip(1))
    }
}

/// First position at or after `i` holding `&`, or the end of the query.
pub open spec fn amp_end(q: Seq<u8>, i: int) -> int
    decreases q.len() - i,
{
    if 0 <= i && i < q.len() {
        if q[i] == '&' as u8 {
            i
        } else {
            amp_end(q, i + 1)
        }
    } else {
        q.len() as int
    }
}

/// Whether the part beginning at `i` is `name=` followed by a value.
pub open spec fn param_matches(q: Seq<u8>, i: int, name: Seq<u8>) -> bool {
    let e = amp_end(q, i);
    &&& e - i > name.len()
    &&& q.subrange(i, i + name.len()) == name
    &&& q[i + name.len()] == '=' as u8
}

/// The decoded value of the first `name=value` part at or after `i`.
pub open spec fn find_param(q: Seq<u8>, i: int, name: Seq<u8>) -> Option<Seq<u8>>
    decreases q.len() - i,
{
    if 0 <= i && i <= q.len() {
        let e = amp_end(q, i);
        if param_matches(q, i, name) {
            Some(pct_decode(q.subrange(i + name.len() + 1, e)))
        } else if e < q.len() && i < e + 1 {
            find_param(q, e + 1, name)
        } else {
            None
        }
    } else {
        None
    }
}

/// The decoded value of the first `name=value` part of the query, if any.
pub open spec fn query_param(q: Seq<u8>, name: Seq<u8>) -> Option<Seq<u8>> {
    find_param(q, 0, name)
}

/// Runtime counterpart of [`amp_end`].
fn amp_end_exec(q: &Vec<u8>, i: usize) -> (r: usize)
    requires
        i <= q@.len(),
    ensures
        r == amp_end(q@, i as int),
        i <= r <= q@.len(),
{
    let mut j = i;
    while j < q.len() && q[j] != '&' as u8
        invariant
            i <= j <= q@.len(),
            amp_end(q@, i as int) == amp_end(q@, j as int),
        decreases q@.len() - j,
    {
        j = j + 1;
    }
    j
}

/// Bytes `from..to` of `q`, copied out.
fn copy_range(q: &Vec<u8>, from: usize, to: usize) -> (r: Vec<u8>)
    requires
        from <= to <= q@.len(),
    ensures
        r@ == q@.subrange(from as int, to as int),
{
    let mut out: Vec<u8> = Vec::new();
    let mut i = from;
    while i < to
        invariant
            from <= i <= to <= q@.len(),
            out@ == q@.subrange(from as int, i as int),
        decreases to - i,
    {
        out.push(q[i]);
        proof {
            assert(q@.subrange(from as int, i + 1) =~= q@.subrange(from as int, i as int).push(
                q@[i as int],
            ));
        }
        i = i + 1;
    }
    out
}

/// Runtime counterpart of [`pct_decode`].
fn pct_decode_exec(s: &Vec<u8>) -> (r: Vec<u8>)
    ensures
        r@ == pct_decode(s@),
{
    let mut out: Vec<u8> = Vec::new();
    let mut i: usize = 0;
    proof {
        assert(s@.skip(0) =~= s@);
    }
    while i < s.len()
        invariant
            i <= s@.len(),
            pct_decode(s@) == out@ + pct_decode(s@.skip(i as int)),
        decreases s@.len() - i,
    {
        let b = s[i];
        proof {
            assert(s@.skip(i as int)[0] == s@[i as int]);
            assert(s@.skip(i as int).skip(1) =~= s@.skip(i + 1));
        }
        if b == '%' as u8 && s.len() - i >= 3 {
            proof {
                assert(s@.skip(i as int)[1] == s@[i + 1]);
                assert(s@.skip(i as int)[2] == s@[i + 2]);
                assert(s@.skip(i as int).skip(3) =~= s@.skip(i + 3));
            }
            let h = hex_val_exec(s[i + 1]);
            let l = hex_val_exec(s[i + 2]);
            match (h, l) {
                (Some(h), Some(l)) => {
                    proof {
                        assert(pct_decode(s@.skip(i as int)) == seq![(h * 16 + l) as u8]
                            + pct_decode(s@.skip(i + 3)));
                        assert(out@ + (seq![(h * 16 + l) as u8] + pct_decode(s@.skip(i + 3)))
                            =~= (out@ + seq![(h * 16 + l) as u8]) + pct_decode(s@.skip(i + 3)));
                        assert(out@.push((h * 16 + l) as u8) =~= out@ + seq![(h * 16 + l) as u8]);
                    }
                    out.push(h * 16 + l);
                    i = i + 3;
                },
                _ => {
                    proof {
                        assert(pct_decode(s@.skip(i as int)) == seq![b] + pct_decode(
                            s@.skip(i + 1),
                        ));
                        assert(out@ + (seq![b] + pct_decode(s@.skip(i + 1))) =~= (out@ + seq![b])
                            + pct_decode(s@.skip(i + 1)));
                        assert(out@.push(b) =~= out@ + seq![b]);
                    }
                    out.push(b);
                    i = i + 1;
                },
            }
        } else {
            let d: u8 = if b == '+' as u8 {
                32
            } else {
                b
            };
            proof {
                assert(pct_decode(s@.skip(i as int)) == seq![d] + pct_decode(s@.skip(i + 1)));
                assert(out@ + (seq![d] + pct_decode(s@.skip(i + 1))) =~= (out@ + seq![d])
                    + pct_decode(s@.skip(i + 1)));
                assert(out@.push(d) =~= out@ + seq![d]);
            }
            out.push(d);
            i = i + 1;
        }
    }
    proof {
        assert(s@.skip(s@.len() as int) =~= Seq::<u8>::empty());
        assert(out@ + pct_decode(Seq::<u8>::empty()) =~= out@);
    }
    out
}

/// Runtime counterpart of [`query_param`]: the decoded value of the first
/// `name=value` part of the query, if any.
pub fn query_param_exec(q: &Vec<u8>, name: &Vec<u8>) -> (r: Option<Vec<u8>>)
    ensures
        r matches Some(v) ==> query_param(q@, name@) == Some(v@),
        r is None ==> query_param(q@, name@) is None,
{
    let mut i: usize = 0;
    loop
        invariant
            i <= q@.len(),
            query_param(q@, name@) == find_param(q@, i as int, name@),
        decreases q@.len() - i + 1,
    {
        let e = amp_end_exec(q, i);
        let mut matched = false;
        if e - i > name.len() {
            let part_name = copy_range(q, i, i + name.len());
            if bytes_eq(&part_name, name) && q[i + name.len()] == '=' as u8 {
                matched = true;
            }
        }
        if matched {
            proof {
                assert(param_matches(q@, i as int, name@));
            }
            let value = copy_range(q, i + name.len() + 1, e);
            return Some(pct_decode_exec(&value));
        }
        proof {
            assert(!param_matches(q@, i as int, name@));
        }
        if e < q.len() {
            i = e + 1;
        } else {
            return None;
        }
    }
}

} // verus!
