//! Decoding an atom with a one-byte length (`SMALL_ATOM_EXT`).
use vstd::prelude::*;
use crate::atom_table::AtomTable;
use crate::term::{Exception, Term};
use super::grammar::{atom_term, existing, spec_atom_of_len, spec_small_atom, term_holds};
use super::integers::decode_u8;
use super::atom::bytes_len_try_into_term;

verus! {

/// The atom after the tag of a small atom: a one-byte length and the name, followed
/// by the rest of the bytes.
pub fn decode<'a>(atoms: &mut AtomTable, safe: bool, bytes: &'a [u8]) -> (res: Result<
    (Term, &'a [u8]),
    Exception,
>)
    ensures
        term_holds(atom_term(spec_small_atom(bytes@, existing(safe, old(atoms)@))), bytes@, res),
        final(atoms)@ == old(atoms)@ + spec_small_atom(bytes@, existing(safe, old(atoms)@)).interned,
        safe ==> final(atoms)@ == old(atoms)@,
{
    assert(old(atoms)@ + Set::<Seq<u8>>::empty() =~= old(atoms)@);
    let (len_u8, after_len_bytes) = decode_u8(bytes)?;
    let len_usize = len_u8 as usize;
    let res = bytes_len_try_into_term(atoms, safe, after_len_bytes, len_usize);
    proof {
        if let Ok((_, rest)) = res {
            let used = atom_term(spec_atom_of_len(bytes@.skip(1), len_u8 as nat, existing(safe, old(atoms)@))).decoded->used;
            assert(rest@ =~= bytes@.skip(used + 1 as int));
        }
    }
    res
}

} // verus!
