//! Decoders of the fixed-size numbers of the external term format.
use vstd::prelude::*;
use crate::term::Exception;
use super::grammar::{
    be_u16, be_u32, be_u64, be_i32, spec_tagged_u8, spec_tagged_isize, SMALL_INTEGER_EXT,
    INTEGER_EXT,
};

verus! {

/// The bytes after the first `n` bytes of `bytes`.
pub fn skip<'a>(bytes: &'a [u8], n: usize) -> (rest: &'a [u8])
    requires
        n <= bytes@.len(),
    ensures
        rest@ == bytes@.skip(n as int),
{
    &bytes[n..bytes.len()]
}

/// A byte, followed by the rest of the bytes.
pub fn decode_u8<'a>(bytes: &'a [u8]) -> (res: Result<(u8, &'a [u8]), Exception>)
    ensures
        bytes@.len() >= 1 ==> res == Ok::<(u8, &'a [u8]), Exception>((bytes@[0], res.unwrap().1))
            && res.unwrap().1@ == bytes@.skip(1),
        bytes@.len() < 1 ==> res == Err::<(u8, &'a [u8]), Exception>(Exception::Badarg),
{
    if bytes.len() >= 1 {
        Ok((bytes[0], skip(bytes, 1)))
    } else {
        Err(Exception::Badarg)
    }
}

/// A big-endian 16-bit number.
pub fn decode_u16<'a>(bytes: &'a [u8]) -> (res: Result<(u16, &'a [u8]), Exception>)
    ensures
        bytes@.len() >= 2 ==> (res matches Ok((v, rest)) && v == be_u16(bytes@) && rest@
            == bytes@.skip(2)),
        bytes@.len() < 2 ==> res == Err::<(u16, &'a [u8]), Exception>(Exception::Badarg),
{
    if bytes.len() >= 2 {
        let v: u16 = (bytes[0] as u16) * 256 + (bytes[1] as u16);
        Ok((v, skip(bytes, 2)))
    } else {
        Err(Exception::Badarg)
    }
}

/// A big-endian 32-bit number.
pub fn decode_u32<'a>(bytes: &'a [u8]) -> (res: Result<(u32, &'a [u8]), Exception>)
    ensures
        bytes@.len() >= 4 ==> (res matches Ok((v, rest)) && v == be_u32(bytes@) && rest@
            == bytes@.skip(4)),
        bytes@.len() < 4 ==> res == Err::<(u32, &'a [u8]), Exception>(Exception::Badarg),
{
    if bytes.len() >= 4 {
        let v: u32 = (bytes[0] as u32) * 0x100_0000 + (bytes[1] as u32) * 0x1_0000 + (bytes[2] as u32)
            * 0x100 + (bytes[3] as u32);
        Ok((v, skip(bytes, 4)))
    } else {
        Err(Exception::Badarg)
    }
}

/// A big-endian 64-bit number.
pub fn decode_u64<'a>(bytes: &'a [u8]) -> (res: Result<(u64, &'a [u8]), Exception>)
    ensures
        bytes@.len() >= 8 ==> (res matches Ok((v, rest)) && v == be_u64(bytes@) && rest@
            == bytes@.skip(8)),
        bytes@.len() < 8 ==> res == Err::<(u64, &'a [u8]), Exception>(Exception::Badarg),
{
    if bytes.len() >= 8 {
        let high = (bytes[0] as u64) * 0x100_0000 + (bytes[1] as u64) * 0x1_0000 + (bytes[2] as u64)
            * 0x100 + (bytes[3] as u64);
        let low = (bytes[4] as u64) * 0x100_0000 + (bytes[5] as u64) * 0x1_0000 + (bytes[6] as u64)
            * 0x100 + (bytes[7] as u64);
        assert(bytes@.subrange(4, 8)[0] == bytes@[4] && bytes@.subrange(4, 8)[1] == bytes@[5]
            && bytes@.subrange(4, 8)[2] == bytes@[6] && bytes@.subrange(4, 8)[3] == bytes@[7]);
        Ok((high * 0x1_0000_0000 + low, skip(bytes, 8)))
    } else {
        Err(Exception::Badarg)
    }
}

/// A small integer with its tag, as a byte.
pub fn decode_tagged_u8<'a>(bytes: &'a [u8]) -> (res: Result<(u8, &'a [u8]), Exception>)
    ensures
        match spec_tagged_u8(bytes@) {
            Some((v, used)) => res matches Ok((w, rest)) && w == v && used <= bytes@.len()
                && rest@ == bytes@.skip(used as int),
            None => res == Err::<(u8, &'a [u8]), Exception>(Exception::Badarg),
        },
{
    if bytes.len() >= 2 && bytes[0] == SMALL_INTEGER_EXT {
        Ok((bytes[1], skip(bytes, 2)))
    } else {
        Err(Exception::Badarg)
    }
}

/// A small integer or an integer with its tag, as a machine integer.
pub fn decode_tagged_isize<'a>(bytes: &'a [u8]) -> (res: Result<(isize, &'a [u8]), Exception>)
    ensures
        match spec_tagged_isize(bytes@) {
            Some((v, used)) => res matches Ok((w, rest)) && w == v && used <= bytes@.len()
                && rest@ == bytes@.skip(used as int),
            None => res == Err::<(isize, &'a [u8]), Exception>(Exception::Badarg),
        },
{
    if bytes.len() >= 2 && bytes[0] == SMALL_INTEGER_EXT {
        Ok((bytes[1] as isize, skip(bytes, 2)))
    } else if bytes.len() >= 5 && bytes[0] == INTEGER_EXT {
        let after_tag = skip(bytes, 1);
        let (u, _) = decode_u32(after_tag).unwrap();
        assert(be_u32(after_tag@) == be_u32(bytes@.subrange(1, 5)));
        let v: i32 = if u >= 0x8000_0000 {
            (u - 0x8000_0000) as i32 - 0x4000_0000 - 0x4000_0000
        } else {
            u as i32
        };
        Ok((v as isize, skip(bytes, 5)))
    } else {
        Err(Exception::Badarg)
    }
}

} // verus!
