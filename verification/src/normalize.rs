//! Payload normalization: line terminators are folded to `\n` and trailing
//! whitespace is removed before a payload is handed to the renderer.

use vstd::prelude::*;

verus! {

/// Bytes that count as whitespace when trailing content is stripped
/// (the ASCII whitespace characters).
pub open spec fn is_ws(b: u8) -> bool {
    b == 0x20 || b == 0x09 || b == 0x0a || b == 0x0b || b == 0x0c || b == 0x0d
}

/// `s` with every `\r\n` pair collapsed to `\n`, scanning left to right.
pub open spec fn crlf_to_lf(s: Seq<u8>) -> Seq<u8>
    decreases s.len(),
{
    if s.len() == 0 {
        s
    } else if s.len() >= 2 && s[0] == 0x0d && s[1] == 0x0a {
        seq![0x0au8] + crlf_to_lf(s.skip(2))
    } else {
        seq![s[0]] + crlf_to_lf(s.skip(1))
    }
}

/// The longest prefix of `s` that does not end in whitespace.
pub open spec fn trim_end(s: Seq<u8>) -> Seq<u8>
    decreases s.len(),
{
    if s.len() > 0 && is_ws(s[s.len() - 1]) {
        trim_end(s.drop_last())
    } else {
        s
    }
}

/// A block payload as it is emitted: line terminators normalized,
/// then trailing whitespace removed.
pub open spec fn normalize(s: Seq<u8>) -> Seq<u8> {
    trim_end(crlf_to_lf(s))
}

/// Whether `b` is one of the whitespace bytes of `is_ws`.
pub fn is_ws_byte(b: u8) -> (r: bool)
    ensures
        r == is_ws(b),
{
    b == 0x20 || b == 0x09 || b == 0x0a || b == 0x0b || b == 0x0c || b == 0x0d
}

/// Collapses every `\r\n` pair in `s` to `\n`.
pub fn crlf_to_lf_bytes(s: &Vec<u8>) -> (r: Vec<u8>)
    ensures
        r@ == crlf_to_lf(s@),
{
    let mut out: Vec<u8> = Vec::new();
    let mut i: usize = 0;
    proof {
        assert(s@.skip(0) =~= s@);
        assert(Seq::<u8>::empty() + crlf_to_lf(s@) =~= crlf_to_lf(s@));
    }
    while i < s.len()
        invariant
            i <= s@.len(),
            crlf_to_lf(s@) == out@ + crlf_to_lf(s@.skip(i as int)),
        decreases s@.len() - i,
    {
        if s[i] == 0x0d && i + 1 < s.len() && s[i + 1] == 0x0a {
            proof {
                assert(s@.skip(i as int).skip(2) =~= s@.skip(i as int + 2));
                assert((out@ + seq![0x0au8]) + crlf_to_lf(s@.skip(i as int + 2)) =~= out@ + (seq![
                    0x0au8,
                ] + crlf_to_lf(s@.skip(i as int + 2))));
            }
            out.push(0x0a);
            i = i + 2;
        } else {
            let ghost b: u8 = s@[i as int];
            proof {
                assert(s@.skip(i as int).skip(1) =~= s@.skip(i as int + 1));
                assert((out@ + seq![b]) + crlf_to_lf(s@.skip(i as int + 1)) =~= out@ + (seq![b]
                    + crlf_to_lf(s@.skip(i as int + 1))));
            }
            out.push(s[i]);
            i = i + 1;
        }
    }
    proof {
        assert(s@.skip(i as int) =~= Seq::<u8>::empty());
        assert(out@ + Seq::<u8>::empty() =~= out@);
    }
    out
}

/// Removes trailing whitespace bytes from `s`.
pub fn trim_end_bytes(s: &Vec<u8>) -> (r: Vec<u8>)
    ensures
        r@ == trim_end(s@),
{
    let mut j: usize = s.len();
    proof {
        assert(s@.take(s@.len() as int) =~= s@);
    }
    loop
        invariant
            j <= s@.len(),
            trim_end(s@.take(j as int)) == trim_end(s@),
        ensures
            j <= s@.len(),
            trim_end(s@.take(j as int)) == trim_end(s@),
            j == 0 || !is_ws(s@[j as int - 1]),
        decreases j,
    {
        if j == 0 {
            break ;
        }
        if !is_ws_byte(s[j - 1]) {
            break ;
        }
        proof {
            assert(s@.take(j as int).drop_last() =~= s@.take(j as int - 1));
        }
        j = j - 1;
    }
    proof {
        if j > 0 {
            assert(s@.take(j as int)[j as int - 1] == s@[j as int - 1]);
        }
        assert(trim_end(s@.take(j as int)) == s@.take(j as int));
    }
    crate::bytes::slice_range(s, 0, j)
}

/// Normalizes a payload: `\r\n` becomes `\n`, trailing whitespace goes.
pub fn normalize_bytes(s: &Vec<u8>) -> (r: Vec<u8>)
    ensures
        r@ == normalize(s@),
{
    let lf = crlf_to_lf_bytes(s);
    trim_end_bytes(&lf)
}

} // verus!
