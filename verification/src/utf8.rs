//! UTF-8 validation of byte sequences, against vstd's definition of well-formed UTF-8.
use vstd::prelude::*;
use vstd::utf8::*;

verus! {

/// The length of the well-formed UTF-8 encoding of one scalar that starts at `i`,
/// or 0 when none starts there.
fn first_scalar_length(bytes: &[u8], i: usize) -> (r: usize)
    requires
        i < bytes@.len(),
    ensures
        r > 0 ==> valid_first_scalar(bytes@.subrange(i as int, bytes@.len() as int)) && r
            == length_of_first_scalar(bytes@.subrange(i as int, bytes@.len() as int)),
        r == 0 ==> !valid_first_scalar(bytes@.subrange(i as int, bytes@.len() as int)),
{
    let ghost rest = bytes@.subrange(i as int, bytes@.len() as int);
    let n = bytes.len() - i;
    let b0 = bytes[i];
    assert(rest[0] == b0);
    if b0 <= 0x7f {
        return 1;
    }
    if 0xc0 <= b0 && b0 <= 0xdf {
        if n < 2 {
            return 0;
        }
        let b1 = bytes[i + 1];
        assert(rest[1] == b1);
        if !(0x80 <= b1 && b1 <= 0xbf) {
            return 0;
        }
        let c: u32 = (((b0 & 0x1F) as u32) << 6) | ((b1 & 0x3f) as u32);
        assert(c == decode_first_codepoint(rest));
        if 0x80 <= c && !(0xD800 <= c && c <= 0xDFFF) {
            return 2;
        }
        return 0;
    }
    if 0xe0 <= b0 && b0 <= 0xef {
        if n < 3 {
            return 0;
        }
        let b1 = bytes[i + 1];
        let b2 = bytes[i + 2];
        assert(rest[1] == b1 && rest[2] == b2);
        if !(0x80 <= b1 && b1 <= 0xbf && 0x80 <= b2 && b2 <= 0xbf) {
            return 0;
        }
        let c: u32 = (((b0 & 0x0F) as u32) << 12) | (((b1 & 0x3f) as u32) << 6) | ((b2 & 0x3f) as u32);
        assert(c == decode_first_codepoint(rest));
        if 0x800 <= c && !(0xD800 <= c && c <= 0xDFFF) {
            return 3;
        }
        return 0;
    }
    if 0xf0 <= b0 && b0 <= 0xf7 {
        if n < 4 {
            return 0;
        }
        let b1 = bytes[i + 1];
        let b2 = bytes[i + 2];
        let b3 = bytes[i + 3];
        assert(rest[1] == b1 && rest[2] == b2 && rest[3] == b3);
        if !(0x80 <= b1 && b1 <= 0xbf && 0x80 <= b2 && b2 <= 0xbf && 0x80 <= b3 && b3 <= 0xbf) {
            return 0;
        }
        let c: u32 = (((b0 & 0x07) as u32) << 18) | (((b1 & 0x3f) as u32) << 12) | (((b2
            & 0x3f) as u32) << 6) | ((b3 & 0x3f) as u32);
        assert(c == decode_first_codepoint(rest));
        if 0x10000 <= c && c <= 0x10ffff && !(0xD800 <= c && c <= 0xDFFF) {
            return 4;
        }
        return 0;
    }
    0
}

/// Whether `bytes` is well-formed UTF-8.
pub fn is_valid_utf8(bytes: &[u8]) -> (b: bool)
    ensures
        b == valid_utf8(bytes@),
{
    let mut i: usize = 0;
    assert(bytes@.subrange(0, 0) =~= Seq::<u8>::empty());
    while i < bytes.len()
        invariant
            0 <= i <= bytes@.len(),
            partial_valid_utf8(bytes@, i as int),
        decreases bytes@.len() - i,
    {
        let len = first_scalar_length(bytes, i);
        if len == 0 {
            proof {
                let rest = bytes@.subrange(i as int, bytes@.len() as int);
                assert(rest.len() != 0);
                assert(!valid_utf8(rest));
                partial_valid_partial_invalid_utf8(bytes@, i as int);
            }
            return false;
        }
        proof {
            partial_valid_utf8_extend(bytes@, i as int);
        }
        i = i + len;
    }
    assert(bytes@.subrange(0, bytes@.len() as int) =~= bytes@);
    true
}

} // verus!
