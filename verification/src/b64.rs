//! Standard, padded base64: its definition, and encoding and decoding through
//! the `base64` crate's `STANDARD` engine.
use vstd::prelude::*;

use base64::Engine;

verus! {

/// The symbol of the standard base64 alphabet for the six-bit value `v`.
pub open spec fn b64_symbol(v: int) -> char {
    if v < 26 {
        (65 + v) as char
    } else if v < 52 {
        (71 + v) as char
    } else if v < 62 {
        (v - 4) as char
    } else if v == 62 {
        '+'
    } else {
        '/'
    }
}

/// The standard base64 text of `d`: each group of three bytes becomes four
/// symbols, and a last group of one or two bytes is padded with `=`.
pub open spec fn base64_encode(d: Seq<u8>) -> Seq<char>
    decreases d.len(),
{
    if d.len() == 0 {
        Seq::empty()
    } else if d.len() == 1 {
        seq![b64_symbol((d[0] / 4) as int), b64_symbol((d[0] % 4) * 16), '=', '=']
    } else if d.len() == 2 {
        seq![
            b64_symbol((d[0] / 4) as int),
            b64_symbol((d[0] % 4) * 16 + d[1] / 16),
            b64_symbol((d[1] % 16) * 4),
            '=',
        ]
    } else {
        seq![
            b64_symbol((d[0] / 4) as int),
            b64_symbol((d[0] % 4) * 16 + d[1] / 16),
            b64_symbol((d[1] % 16) * 4 + d[2] / 64),
            b64_symbol((d[2] % 64) as int),
        ] + base64_encode(d.skip(3))
    }
}

/// The bytes that the text `t` is the standard base64 encoding of, if any.
pub open spec fn base64_decode(t: Seq<char>) -> Option<Seq<u8>> {
    if exists|d: Seq<u8>| base64_encode(d) == t {
        Some(choose|d: Seq<u8>| base64_encode(d) == t)
    } else {
        None
    }
}

/// The text of the error that decoding `t` as standard base64 gives.
pub uninterp spec fn base64_decode_error(t: Seq<char>) -> Seq<char>;

proof fn lemma_symbol(a: int, b: int)
    requires
        0 <= a < 64,
        0 <= b < 64,
    ensures
        b64_symbol(a) == b64_symbol(b) ==> a == b,
        b64_symbol(a) != '=',
{
}

/// Encoding takes four symbols for every started group of three bytes.
pub proof fn lemma_base64_encode_len(d: Seq<u8>)
    ensures
        base64_encode(d).len() == 4 * ((d.len() + 2) / 3),
    decreases d.len(),
{
    if d.len() >= 3 {
        lemma_base64_encode_len(d.skip(3));
    }
}

/// Different byte sequences have different encodings.
pub proof fn lemma_base64_encode_injective(a: Seq<u8>, b: Seq<u8>)
    requires
        base64_encode(a) == base64_encode(b),
    ensures
        a == b,
    decreases a.len(),
{
    let ea = base64_encode(a);
    lemma_base64_encode_len(a);
    lemma_base64_encode_len(b);
    if a.len() == 0 || b.len() == 0 {
        return;
    }
    let eb = base64_encode(b);
    assert(ea[0] == b64_symbol((a[0] / 4) as int));
    assert(eb[0] == b64_symbol((b[0] / 4) as int));
    lemma_symbol((a[0] / 4) as int, (b[0] / 4) as int);
    assert(a[0] / 4 == b[0] / 4);
    if a.len() == 1 {
        if b.len() >= 2 {
            let v = if b.len() == 2 { (b[1] % 16) * 4 } else { (b[1] % 16) * 4 + b[2] / 64 };
            lemma_symbol(v, v);
            assert(ea[2] == '=');
        }
        lemma_symbol((a[0] % 4) * 16, (b[0] % 4) * 16);
        assert(a =~= b);
        return;
    }
    if b.len() == 1 {
        let v = if a.len() == 2 { (a[1] % 16) * 4 } else { (a[1] % 16) * 4 + a[2] / 64 };
        lemma_symbol(v, v);
        assert(ea[2] == b64_symbol(v));
        return;
    }
    assert(ea[1] == b64_symbol((a[0] % 4) * 16 + a[1] / 16));
    assert(eb[1] == b64_symbol((b[0] % 4) * 16 + b[1] / 16));
    lemma_symbol((a[0] % 4) * 16 + a[1] / 16, (b[0] % 4) * 16 + b[1] / 16);
    assert(a[0] == b[0] && a[1] / 16 == b[1] / 16);
    if a.len() == 2 {
        if b.len() >= 3 {
            lemma_symbol((b[2] % 64) as int, (b[2] % 64) as int);
            assert(ea[3] == '=');
        }
        lemma_symbol((a[1] % 16) * 4, (b[1] % 16) * 4);
        assert(a =~= b);
        return;
    }
    if b.len() == 2 {
        lemma_symbol((a[2] % 64) as int, (a[2] % 64) as int);
        assert(ea[3] == b64_symbol((a[2] % 64) as int));
        return;
    }
    assert(ea[2] == b64_symbol((a[1] % 16) * 4 + a[2] / 64));
    assert(eb[2] == b64_symbol((b[1] % 16) * 4 + b[2] / 64));
    assert(ea[3] == b64_symbol((a[2] % 64) as int));
    assert(eb[3] == b64_symbol((b[2] % 64) as int));
    lemma_symbol((a[1] % 16) * 4 + a[2] / 64, (b[1] % 16) * 4 + b[2] / 64);
    lemma_symbol((a[2] % 64) as int, (b[2] % 64) as int);
    assert(a[1] == b[1] && a[2] == b[2]);
    assert(ea.skip(4) =~= base64_encode(a.skip(3)));
    assert(base64_encode(b).skip(4) =~= base64_encode(b.skip(3)));
    lemma_base64_encode_injective(a.skip(3), b.skip(3));
    assert(a =~= a.take(3) + a.skip(3));
    assert(b =~= b.take(3) + b.skip(3));
    assert(a.take(3) =~= b.take(3));
}

/// Decoding the encoding of `d` gives `d` back.
pub proof fn lemma_base64_round_trip(d: Seq<u8>)
    ensures
        base64_decode(base64_encode(d)) == Some(d),
{
    let t = base64_encode(d);
    assert(exists|x: Seq<u8>| base64_encode(x) == t);
    let c = choose|x: Seq<u8>| base64_encode(x) == t;
    lemma_base64_encode_injective(c, d);
}

/// Calls `Engine::encode` of `base64::engine::general_purpose::STANDARD`,
/// which returns the standard, padded base64 text of `data`.
#[verifier::external_body]
pub(crate) fn base64_encode_standard(data: &[u8]) -> (s: String)
    ensures
        s@ == base64_encode(data@),
{
    base64::engine::general_purpose::STANDARD.encode(data)
}

/// Calls `Engine::decode` of `base64::engine::general_purpose::STANDARD`. It
/// accepts exactly the canonical padded encodings (trailing bits zero,
/// padding present), and returns the bytes encoded; on any other text it
/// returns its error, here converted to the error's text.
#[verifier::external_body]
pub(crate) fn base64_decode_standard(text: &str) -> (r: Result<Vec<u8>, String>)
    ensures
        r is Ok <==> base64_decode(text@) is Some,
        r matches Ok(v) ==> base64_encode(v@) == text@,
        r matches Err(m) ==> m@ == base64_decode_error(text@),
{
    match base64::engine::general_purpose::STANDARD.decode(text) {
        Ok(v) => Ok(v),
        Err(e) => Err(e.to_string()),
    }
}

} // verus!
