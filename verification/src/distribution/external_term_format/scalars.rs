//! Decoding the terms whose encoding holds no other term: numbers, atoms, the empty
//! list, strings, binaries, bit strings and exports.
use vstd::prelude::*;
use crate::atom_table::AtomTable;
use crate::term::{
    integer_from_sign_magnitude, list_from_vec, models, spec_integer, Exception, SpecTerm, Term,
};
use super::atom;
use super::export;
use super::grammar::{
    atom_term, be_u16, be_u32, be_i32, byte_list, existing, high_bits_mask, not_finite,
    spec_atom, spec_binary, spec_bit_binary, spec_flat_body, spec_integer_ext, spec_large_big,
    spec_new_float, spec_small_atom, spec_small_big, spec_string, term_holds, trim_zeros,
    ATOM_EXT, ATOM_UTF8_EXT, BINARY_EXT, BIT_BINARY_EXT, EXPORT_EXT, INTEGER_EXT, LARGE_BIG_EXT,
    NEW_FLOAT_EXT, NIL_EXT, SMALL_ATOM_EXT, SMALL_ATOM_UTF8_EXT, SMALL_BIG_EXT, SMALL_INTEGER_EXT,
    STRING_EXT,
};
use super::integers::{decode_u16, decode_u32, decode_u64, decode_u8, skip};

verus! {

/// An integer after its tag: four bytes of a big-endian signed number.
pub fn decode_integer<'a>(bytes: &'a [u8]) -> (res: Result<(Term, &'a [u8]), Exception>)
    ensures
        term_holds(spec_integer_ext(bytes@), bytes@, res),
{
    let (u, rest) = decode_u32(bytes)?;
    let v: i32 = if u >= 0x8000_0000 {
        (u - 0x8000_0000) as i32 - 0x4000_0000 - 0x4000_0000
    } else {
        u as i32
    };
    assert(v == be_i32(bytes@));
    let t = if v < 0 {
        integer_from_sign_magnitude(true, (-(v as i64)) as u128)
    } else {
        integer_from_sign_magnitude(false, v as u128)
    };
    Ok((t, rest))
}

/// The number of leading digits that remain when the trailing zero digits are removed.
pub fn trimmed_len(digits: &[u8]) -> (k: usize)
    ensures
        k <= digits@.len(),
        trim_zeros(digits@) == digits@.take(k as int),
{
    let mut k = digits.len();
    assert(digits@.take(k as int) =~= digits@);
    while k > 0 && digits[k - 1] == 0
        invariant
            k <= digits@.len(),
            trim_zeros(digits@.take(k as int)) == trim_zeros(digits@),
        decreases k,
    {
        assert(digits@.take(k as int).drop_last() =~= digits@.take(k - 1));
        k = k - 1;
    }
    k
}

/// The integer with sign byte `sign` and the little-endian `digits`.
fn big_integer_term(sign: u8, digits: &[u8]) -> (t: Term)
    ensures
        t@ == super::grammar::big_integer(sign, digits@),
{
    let k = trimmed_len(digits);
    let magnitude = vstd::slice::slice_to_vec(&digits[0..k]);
    Term::Integer { negative: sign != 0 && k > 0, magnitude }
}

/// A big integer after its tag, with a one-byte digit count.
pub fn decode_small_big<'a>(bytes: &'a [u8]) -> (res: Result<(Term, &'a [u8]), Exception>)
    ensures
        term_holds(spec_small_big(bytes@), bytes@, res),
{
    if bytes.len() < 2 || bytes.len() - 2 < bytes[0] as usize {
        return Err(Exception::Badarg);
    }
    let n = bytes[0] as usize;
    let t = big_integer_term(bytes[1], &bytes[2..2 + n]);
    Ok((t, skip(bytes, 2 + n)))
}

/// A big integer after its tag, with a four-byte digit count.
pub fn decode_large_big<'a>(bytes: &'a [u8]) -> (res: Result<(Term, &'a [u8]), Exception>)
    ensures
        term_holds(spec_large_big(bytes@), bytes@, res),
{
    let (n, _) = decode_u32(bytes)?;
    if bytes.len() < 5 || bytes.len() - 5 < n as usize {
        return Err(Exception::Badarg);
    }
    let n = n as usize;
    let t = big_integer_term(bytes[4], &bytes[5..5 + n]);
    Ok((t, skip(bytes, 5 + n)))
}

/// A float after its tag: eight bytes of a finite big-endian IEEE 754 double.
pub fn decode_new_float<'a>(bytes: &'a [u8]) -> (res: Result<(Term, &'a [u8]), Exception>)
    ensures
        term_holds(spec_new_float(bytes@), bytes@, res),
{
    let (bits, rest) = decode_u64(bytes)?;
    if (bits / 0x10_0000_0000_0000) % 0x800 == 0x7ff {
        return Err(Exception::Badarg);
    }
    Ok((Term::Float { bits }, rest))
}

/// A binary after its tag: a four-byte length and the bytes.
pub fn decode_binary<'a>(bytes: &'a [u8]) -> (res: Result<(Term, &'a [u8]), Exception>)
    ensures
        term_holds(spec_binary(bytes@), bytes@, res),
{
    let (len, _) = decode_u32(bytes)?;
    if bytes.len() - 4 < len as usize {
        return Err(Exception::Badarg);
    }
    let len = len as usize;
    let data = vstd::slice::slice_to_vec(&bytes[4..4 + len]);
    Ok((Term::Binary { bytes: data }, skip(bytes, 4 + len)))
}

/// The bits that a bit string of `bits` trailing bits keeps of its last byte.
fn high_bits_mask_of(bits: u8) -> (mask: u8)
    ensures
        mask == high_bits_mask(bits),
{
    if bits == 1 {
        0x80
    } else if bits == 2 {
        0xc0
    } else if bits == 3 {
        0xe0
    } else if bits == 4 {
        0xf0
    } else if bits == 5 {
        0xf8
    } else if bits == 6 {
        0xfc
    } else if bits == 7 {
        0xfe
    } else {
        0xff
    }
}

/// A bit string after its tag: a four-byte length, the number of bits used of the
/// last byte, and the bytes.
pub fn decode_bit_binary<'a>(bytes: &'a [u8]) -> (res: Result<(Term, &'a [u8]), Exception>)
    ensures
        term_holds(spec_bit_binary(bytes@), bytes@, res),
{
    let (len, _) = decode_u32(bytes)?;
    if bytes.len() < 5 {
        return Err(Exception::Badarg);
    }
    let bits = bytes[4];
    if (bits == 0) != (len == 0) || bits > 8 || bytes.len() - 5 < len as usize {
        return Err(Exception::Badarg);
    }
    let len = len as usize;
    let mut data = vstd::slice::slice_to_vec(&bytes[5..5 + len]);
    let rest = skip(bytes, 5 + len);
    if bits == 8 || len == 0 {
        Ok((Term::Binary { bytes: data }, rest))
    } else {
        let last = data[len - 1] & high_bits_mask_of(bits);
        data.set(len - 1, last);
        Ok((Term::BitString { bytes: data, trailing_bits: bits }, rest))
    }
}

/// A string after its tag: a two-byte length and the bytes, as a list of integers.
pub fn decode_string<'a>(bytes: &'a [u8]) -> (res: Result<(Term, &'a [u8]), Exception>)
    ensures
        term_holds(spec_string(bytes@), bytes@, res),
{
    let (len, _) = decode_u16(bytes)?;
    if bytes.len() - 2 < len as usize {
        return Err(Exception::Badarg);
    }
    let len = len as usize;
    let data = &bytes[2..2 + len];
    let mut elements: Vec<Term> = Vec::new();
    let mut i: usize = 0;
    while i < len
        invariant
            data@.len() == len,
            0 <= i <= len,
            elements@.len() == i,
            forall|j: int| 0 <= j < i ==> #[trigger] elements@[j]@ == spec_integer(data@[j] as int),
        decreases len - i,
    {
        elements.push(integer_from_sign_magnitude(false, data[i] as u128));
        i = i + 1;
    }
    assert forall|j: int| 0 <= j < len implies #[trigger] models(elements@)[j] == spec_integer(
        data@[j] as int,
    ) by {
        assert(elements@[j]@ == spec_integer(data@[j] as int));
    }
    assert(models(elements@) =~= Seq::new(data@.len(), |i: int| spec_integer(data@[i] as int)));
    let list = list_from_vec(elements, Term::Nil);
    assert(list@ == byte_list(data@));
    Ok((list, skip(bytes, 2 + len)))
}

/// A term whose encoding holds no other term, after its tag `tag`.
pub fn decode_flat_body<'a>(atoms: &mut AtomTable, safe: bool, tag: u8, bytes: &'a [u8]) -> (res:
    Result<(Term, &'a [u8]), Exception>)
    ensures
        term_holds(spec_flat_body(tag, bytes@, existing(safe, old(atoms)@)), bytes@, res),
        final(atoms)@ == old(atoms)@ + spec_flat_body(tag, bytes@, existing(safe, old(atoms)@)).interned,
        safe ==> final(atoms)@ == old(atoms)@,
{
    assert(old(atoms)@ + Set::<Seq<u8>>::empty() =~= old(atoms)@);
    proof {
        reveal(spec_flat_body);
    }
    if tag == SMALL_INTEGER_EXT {
        let (b, rest) = decode_u8(bytes)?;
        Ok((integer_from_sign_magnitude(false, b as u128), rest))
    } else if tag == INTEGER_EXT {
        decode_integer(bytes)
    } else if tag == NEW_FLOAT_EXT {
        decode_new_float(bytes)
    } else if tag == ATOM_EXT || tag == ATOM_UTF8_EXT {
        let (name, rest) = atom::decode(atoms, safe, bytes)?;
        Ok((Term::Atom { name }, rest))
    } else if tag == SMALL_ATOM_EXT || tag == SMALL_ATOM_UTF8_EXT {
        let (name, rest) = atom::decode_small(atoms, safe, bytes)?;
        Ok((Term::Atom { name }, rest))
    } else if tag == NIL_EXT {
        assert(bytes@.skip(0) =~= bytes@);
        Ok((Term::Nil, bytes))
    } else if tag == STRING_EXT {
        decode_string(bytes)
    } else if tag == BINARY_EXT {
        decode_binary(bytes)
    } else if tag == BIT_BINARY_EXT {
        decode_bit_binary(bytes)
    } else if tag == SMALL_BIG_EXT {
        decode_small_big(bytes)
    } else if tag == LARGE_BIG_EXT {
        decode_large_big(bytes)
    } else if tag == EXPORT_EXT {
        export::decode(atoms, safe, bytes)
    } else {
        Err(Exception::Badarg)
    }
}

} // verus!
