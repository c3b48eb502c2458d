//! Decoding an export, `fun Module:Function/Arity` (`EXPORT_EXT`).
use vstd::prelude::*;
use crate::atom_table::AtomTable;
use crate::term::{Exception, Term};
use super::atom;
use super::grammar::{existing, spec_atom_tagged, spec_export, spec_tagged_u8, term_holds};
use super::integers::decode_tagged_u8;

verus! {

/// The export after its tag: the module and function atoms and the arity as a small
/// integer, followed by the rest of the bytes.
pub fn decode<'a>(atoms: &mut AtomTable, safe: bool, bytes: &'a [u8]) -> (res: Result<
    (Term, &'a [u8]),
    Exception,
>)
    ensures
        term_holds(spec_export(bytes@, existing(safe, old(atoms)@)), bytes@, res),
        final(atoms)@ == old(atoms)@ + spec_export(bytes@, existing(safe, old(atoms)@)).interned,
        safe ==> final(atoms)@ == old(atoms)@,
{
    let ghost ex = existing(safe, old(atoms)@);
    let ghost m = spec_atom_tagged(bytes@, ex);
    let (module, after_module_bytes) = atom::decode_tagged(atoms, safe, bytes)?;
    let ghost u1 = m.decoded.unwrap().1;
    let ghost f = spec_atom_tagged(bytes@.skip(u1 as int), ex);
    let ghost after_module = atoms@;
    let res_function = atom::decode_tagged(atoms, safe, after_module_bytes);
    assert(atoms@ =~= old(atoms)@ + (m.interned + f.interned));
    let (function, after_function_bytes) = res_function?;
    let ghost u2 = f.decoded.unwrap().1;
    assert(after_function_bytes@ =~= bytes@.skip((u1 + u2) as int));
    let (arity, after_arity_bytes) = decode_tagged_u8(after_function_bytes)?;
    let ghost u3 = spec_tagged_u8(bytes@.skip((u1 + u2) as int)).unwrap().1;
    assert(after_arity_bytes@ =~= bytes@.skip((u1 + u2 + u3) as int));
    Ok((Term::Export { module, function, arity }, after_arity_bytes))
}

} // verus!
