//! `erlang:binary_to_term/1`.
use vstd::prelude::*;
use crate::atom_table::AtomTable;
use crate::term::{Exception, SpecTerm, Term};
use super::binary_to_term_2::{bif_holds, spec_binary_to_term};

verus! {

/// `binary_to_term(binary)`: `binary_to_term(binary, [])`.
pub fn native(atoms: &mut AtomTable, binary: &Term) -> (res: Result<Term, Exception>)
    requires
        !(spec_binary_to_term(binary@, SpecTerm::Nil, old(atoms)@).result is Panic),
    ensures
        bif_holds(spec_binary_to_term(binary@, SpecTerm::Nil, old(atoms)@), res),
        final(atoms)@ == old(atoms)@ + spec_binary_to_term(binary@, SpecTerm::Nil, old(atoms)@).interned,
{
    let options = Term::Nil;
    super::binary_to_term_2::native(atoms, binary, &options)
}

/// `binary_to_term(binary)` for any input: `None`, with the table unchanged, where
/// the decoder's assertions fail (where the runtime panics), else what `native`
/// returns.
pub fn try_native(atoms: &mut AtomTable, binary: &Term) -> (res: Option<Result<Term, Exception>>)
    ensures
        spec_binary_to_term(binary@, SpecTerm::Nil, old(atoms)@).result is Panic ==> res is None
            && final(atoms)@ == old(atoms)@,
        !(spec_binary_to_term(binary@, SpecTerm::Nil, old(atoms)@).result is Panic) ==> (res matches Some(
            r,
        ) && bif_holds(spec_binary_to_term(binary@, SpecTerm::Nil, old(atoms)@), r) && final(atoms)@
            == old(atoms)@ + spec_binary_to_term(binary@, SpecTerm::Nil, old(atoms)@).interned),
{
    let options = Term::Nil;
    super::binary_to_term_2::try_native(atoms, binary, &options)
}

} // verus!
