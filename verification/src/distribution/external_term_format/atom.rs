//! Decoding atoms.
use vstd::prelude::*;
use crate::atom_table::AtomTable;
use crate::term::{Exception, Term};
use crate::utf8::is_valid_utf8;
use super::grammar::{
    atom_holds, atom_term, existing, spec_atom, spec_atom_of_len, spec_atom_tagged,
    spec_small_atom, term_holds, ATOM_EXT, ATOM_UTF8_EXT, MAX_ATOM_LENGTH, SMALL_ATOM_EXT,
    SMALL_ATOM_UTF8_EXT,
};
use super::integers::{decode_u16, decode_u8, skip};

verus! {

/// The name of the atom made of the first `len` bytes, followed by the rest of the
/// bytes. The name must be UTF-8; in safe mode the atom must exist, in unsafe mode it
/// is created.
pub fn bytes_len_try_into_name<'a>(
    atoms: &mut AtomTable,
    safe: bool,
    bytes: &'a [u8],
    len: usize,
) -> (res: Result<(Vec<u8>, &'a [u8]), Exception>)
    ensures
        atom_holds(spec_atom_of_len(bytes@, len as nat, existing(safe, old(atoms)@)), bytes@, res),
        final(atoms)@ == old(atoms)@ + spec_atom_of_len(
            bytes@,
            len as nat,
            existing(safe, old(atoms)@),
        ).interned,
        safe ==> final(atoms)@ == old(atoms)@,
{
    assert(old(atoms)@ + Set::<Seq<u8>>::empty() =~= old(atoms)@);
    if len > bytes.len() {
        return Err(Exception::Badarg);
    }
    let (name, after) = bytes.split_at(len);
    assert(name@ =~= bytes@.take(len as int));
    assert(after@ =~= bytes@.skip(len as int));
    if !is_valid_utf8(name) {
        return Err(Exception::Badarg);
    }
    if safe {
        if atoms.contains(name) {
            Ok((vstd::slice::slice_to_vec(name), after))
        } else {
            Err(Exception::Badarg)
        }
    } else if len <= MAX_ATOM_LENGTH {
        atoms.intern(name);
        assert(old(atoms)@.insert(name@) =~= old(atoms)@ + set![name@]);
        Ok((vstd::slice::slice_to_vec(name), after))
    } else {
        Err(Exception::Badarg)
    }
}

/// The atom term made of the first `len` bytes, followed by the rest of the bytes.
pub fn bytes_len_try_into_term<'a>(
    atoms: &mut AtomTable,
    safe: bool,
    bytes: &'a [u8],
    len: usize,
) -> (res: Result<(Term, &'a [u8]), Exception>)
    ensures
        term_holds(atom_term(spec_atom_of_len(bytes@, len as nat, existing(safe, old(atoms)@))), bytes@, res),
        final(atoms)@ == old(atoms)@ + spec_atom_of_len(
            bytes@,
            len as nat,
            existing(safe, old(atoms)@),
        ).interned,
        safe ==> final(atoms)@ == old(atoms)@,
{
    let (name, after) = bytes_len_try_into_name(atoms, safe, bytes, len)?;
    Ok((Term::Atom { name }, after))
}

/// An atom after a two-byte length.
pub fn decode<'a>(atoms: &mut AtomTable, safe: bool, bytes: &'a [u8]) -> (res: Result<
    (Vec<u8>, &'a [u8]),
    Exception,
>)
    ensures
        atom_holds(spec_atom(bytes@, existing(safe, old(atoms)@)), bytes@, res),
        final(atoms)@ == old(atoms)@ + spec_atom(bytes@, existing(safe, old(atoms)@)).interned,
        safe ==> final(atoms)@ == old(atoms)@,
{
    assert(old(atoms)@ + Set::<Seq<u8>>::empty() =~= old(atoms)@);
    let (len, after_len) = decode_u16(bytes)?;
    let res = bytes_len_try_into_name(atoms, safe, after_len, len as usize);
    proof {
        if let Ok((_, rest)) = res {
            let (_, used) = spec_atom_of_len(bytes@.skip(2), len as nat, existing(safe, old(atoms)@)).decoded.unwrap();
            assert(rest@ =~= bytes@.skip(used + 2 as int));
        }
    }
    res
}

/// An atom after a one-byte length.
pub fn decode_small<'a>(atoms: &mut AtomTable, safe: bool, bytes: &'a [u8]) -> (res: Result<
    (Vec<u8>, &'a [u8]),
    Exception,
>)
    ensures
        atom_holds(spec_small_atom(bytes@, existing(safe, old(atoms)@)), bytes@, res),
        final(atoms)@ == old(atoms)@ + spec_small_atom(bytes@, existing(safe, old(atoms)@)).interned,
        safe ==> final(atoms)@ == old(atoms)@,
{
    assert(old(atoms)@ + Set::<Seq<u8>>::empty() =~= old(atoms)@);
    let (len, after_len) = decode_u8(bytes)?;
    let res = bytes_len_try_into_name(atoms, safe, after_len, len as usize);
    proof {
        if let Ok((_, rest)) = res {
            let (_, used) = spec_atom_of_len(bytes@.skip(1), len as nat, existing(safe, old(atoms)@)).decoded.unwrap();
            assert(rest@ =~= bytes@.skip(used + 1 as int));
        }
    }
    res
}

/// An atom with its tag.
pub fn decode_tagged<'a>(atoms: &mut AtomTable, safe: bool, bytes: &'a [u8]) -> (res: Result<
    (Vec<u8>, &'a [u8]),
    Exception,
>)
    ensures
        atom_holds(spec_atom_tagged(bytes@, existing(safe, old(atoms)@)), bytes@, res),
        final(atoms)@ == old(atoms)@ + spec_atom_tagged(bytes@, existing(safe, old(atoms)@)).interned,
        safe ==> final(atoms)@ == old(atoms)@,
{
    assert(old(atoms)@ + Set::<Seq<u8>>::empty() =~= old(atoms)@);
    let (tag, after_tag) = decode_u8(bytes)?;
    let res = if tag == ATOM_EXT || tag == ATOM_UTF8_EXT {
        decode(atoms, safe, after_tag)
    } else if tag == SMALL_ATOM_EXT || tag == SMALL_ATOM_UTF8_EXT {
        decode_small(atoms, safe, after_tag)
    } else {
        return Err(Exception::Badarg);
    };
    proof {
        if let Ok((_, rest)) = res {
            let (_, used) = spec_atom_tagged(bytes@, existing(safe, old(atoms)@)).decoded.unwrap();
            assert(rest@ =~= bytes@.skip(used as int));
        }
    }
    res
}

} // verus!
