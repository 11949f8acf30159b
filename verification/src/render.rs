//! The fixed rendering rule: a block's normalized payload is wrapped in a
//! preformatted element whose class marks it as renderer-owned content.

use vstd::prelude::*;

verus! {

/// The opening markup of a rendered block: `<pre class="merjong">`.
pub open spec fn render_open() -> Seq<u8> {
    seq![
        0x3cu8, 0x70u8, 0x72u8, 0x65u8, 0x20u8, 0x63u8, 0x6cu8, 0x61u8, 0x73u8, 0x73u8, 0x3du8,
        0x22u8, 0x6du8, 0x65u8, 0x72u8, 0x6au8, 0x6fu8, 0x6eu8, 0x67u8, 0x22u8, 0x3eu8,
    ]
}

/// The closing markup of a rendered block: `</pre>`.
pub open spec fn render_close() -> Seq<u8> {
    seq![0x3cu8, 0x2fu8, 0x70u8, 0x72u8, 0x65u8, 0x3eu8]
}

/// The rendered replacement for one payload: the payload as literal text
/// inside the fixed markup envelope.
pub open spec fn render_spec(payload: Seq<u8>) -> Seq<u8> {
    render_open() + payload + render_close()
}

/// Wraps `payload` in the markup envelope.
pub fn render(payload: &Vec<u8>) -> (r: Vec<u8>)
    ensures
        r@ == render_spec(payload@),
{
    let mut out: Vec<u8> = Vec::new();
    out.push(0x3c);  // <
    out.push(0x70);  // p
    out.push(0x72);  // r
    out.push(0x65);  // e
    out.push(0x20);  // space
    out.push(0x63);  // c
    out.push(0x6c);  // l
    out.push(0x61);  // a
    out.push(0x73);  // s
    out.push(0x73);  // s
    out.push(0x3d);  // =
    out.push(0x22);  // "
    out.push(0x6d);  // m
    out.push(0x65);  // e
    out.push(0x72);  // r
    out.push(0x6a);  // j
    out.push(0x6f);  // o
    out.push(0x6e);  // n
    out.push(0x67);  // g
    out.push(0x22);  // "
    out.push(0x3e);  // >
    proof {
        assert(out@ =~= render_open());
    }
    let mut i: usize = 0;
    while i < payload.len()
        invariant
            i <= payload@.len(),
            out@ == render_open() + payload@.take(i as int),
        decreases payload@.len() - i,
    {
        out.push(payload[i]);
        proof {
            assert(out@ =~= render_open() + payload@.take(i as int + 1));
        }
        i = i + 1;
    }
    proof {
        assert(payload@.take(payload@.len() as int) =~= payload@);
    }
    out.push(0x3c);  // <
    out.push(0x2f);  // /
    out.push(0x70);  // p
    out.push(0x72);  // r
    out.push(0x65);  // e
    out.push(0x3e);  // >
    proof {
        assert(out@ =~= render_open() + payload@ + render_close());
    }
    out
}

} // verus!
