//! Decoding of wire bytes into text.
use vstd::prelude::*;
use vstd::utf8::{decode_utf8, pop_first_scalar, valid_utf8};

verus! {

/// What strict UTF-8 decoding makes of a byte sequence: `None` when the bytes
/// are not well-formed UTF-8.
pub open spec fn utf8_decode(b: Seq<u8>) -> Option<Seq<char>> {
    if valid_utf8(b) {
        Some(decode_utf8(b))
    } else {
        None
    }
}

/// Bytes below 128.
pub open spec fn is_ascii_bytes(b: Seq<u8>) -> bool {
    forall|i: int| 0 <= i < b.len() ==> b[i] < 128
}

/// ASCII bytes decode to one character per byte, each with the byte's value:
/// such a payload arrives as the text it was written from.
pub proof fn lemma_ascii_decodes(b: Seq<u8>)
    requires
        is_ascii_bytes(b),
    ensures
        valid_utf8(b),
        decode_utf8(b).len() == b.len(),
        forall|i: int| 0 <= i < b.len() ==> (#[trigger] decode_utf8(b)[i]) as u32 == b[i] as u32,
    decreases b.len(),
{
    if b.len() > 0 {
        let x = b[0];
        assert(x < 128);
        assert((x & 0x7f) == x) by (bit_vector)
            requires
                x < 128,
        ;
        let rest = b.subrange(1, b.len() as int);
        assert(pop_first_scalar(b) == rest);
        lemma_ascii_decodes(rest);
        let d = decode_utf8(b);
        assert(d == seq![x as u32 as char] + decode_utf8(rest));
        assert forall|i: int| 0 <= i < b.len() implies (#[trigger] d[i]) as u32 == b[i] as u32 by {
            if i > 0 {
                assert(d[i] == decode_utf8(rest)[i - 1]);
                assert(rest[i - 1] == b[i]);
            }
        }
    }
}

/// Relies on `String::from_utf8`: it succeeds exactly on well-formed UTF-8,
/// and then holds the characters that the bytes encode.
#[verifier::external_body]
pub(crate) fn utf8_text(b: &Vec<u8>) -> (r: Option<String>)
    ensures
        r.is_some() == utf8_decode(b@).is_some(),
        r.is_some() ==> r.unwrap()@ == utf8_decode(b@).unwrap(),
{
    String::from_utf8(b.clone()).ok()
}

} // verus!
