//! `erlang:binary_to_term/2`.
use vstd::prelude::*;
use crate::atom_table::AtomTable;
use crate::binary::{spec_to_term_options, ToTermOptions};
use crate::distribution::external_term_format::grammar::{
    existing, spec_decode_tagged, Decoded, DecodeError, VERSION_NUMBER,
};
use crate::distribution::external_term_format::integers::skip;
use crate::distribution::external_term_format::term::decode_tagged;
use crate::term::{integer_from_u64, lemma_tuple_model, models, spec_integer, Exception, SpecTerm, Term};

verus! {

/// What a built-in function returns: a term, a `badarg`, or a panic.
pub enum BifResult {
    Value { term: SpecTerm },
    Badarg,
    Panic,
}

/// What a built-in function returns and the names of the atoms it created.
pub struct BifOutcome {
    pub result: BifResult,
    pub interned: Set<Seq<u8>>,
}

/// `res` is what `o` says: the term, or `badarg`; never a panic.
pub open spec fn bif_holds(o: BifOutcome, res: Result<Term, Exception>) -> bool {
    match o.result {
        BifResult::Value { term } => res matches Ok(t) && t@ == term,
        BifResult::Badarg => res matches Err(e) && e == Exception::Badarg,
        BifResult::Panic => false,
    }
}

/// The term encoded in `bytes`: a version byte, then a term with its tag; bytes after
/// the term are ignored. With the `used` option the result is the pair of the term
/// and the number of bytes used, version byte included.
pub open spec fn spec_versioned(bytes: Seq<u8>, options: ToTermOptions, atoms: Set<Seq<u8>>) -> BifOutcome {
    if bytes.len() >= 1 && bytes[0] == VERSION_NUMBER {
        let o = spec_decode_tagged(bytes.skip(1), existing(options.existing, atoms));
        match o.decoded {
            Decoded::Value { term, used } => BifOutcome {
                result: BifResult::Value {
                    term: if options.used {
                        SpecTerm::Tuple { elements: seq![term, spec_integer(1 + used as int)] }
                    } else {
                        term
                    },
                },
                interned: o.interned,
            },
            Decoded::Badarg => BifOutcome { result: BifResult::Badarg, interned: o.interned },
            Decoded::Panic => BifOutcome { result: BifResult::Panic, interned: o.interned },
        }
    } else {
        BifOutcome { result: BifResult::Badarg, interned: Set::empty() }
    }
}

/// `binary_to_term(binary, options)`: the options must be a proper list of `safe`
/// and `used`, and the binary a binary (a whole number of bytes).
pub open spec fn spec_binary_to_term(binary: SpecTerm, options: SpecTerm, atoms: Set<Seq<u8>>) -> BifOutcome {
    match spec_to_term_options(options, false, false) {
        None => BifOutcome { result: BifResult::Badarg, interned: Set::empty() },
        Some((existing, used)) => match binary {
            SpecTerm::Binary { bytes } => spec_versioned(
                bytes,
                ToTermOptions { existing, used },
                atoms,
            ),
            _ => BifOutcome { result: BifResult::Badarg, interned: Set::empty() },
        },
    }
}

/// `res` is what `o` says: the term, `badarg`, or a failed assertion.
pub open spec fn bif_checked_holds(o: BifOutcome, res: Result<Term, DecodeError>) -> bool {
    match o.result {
        BifResult::Value { term } => res matches Ok(t) && t@ == term,
        BifResult::Badarg => res == Err::<Term, DecodeError>(DecodeError::Badarg),
        BifResult::Panic => res == Err::<Term, DecodeError>(DecodeError::Assertion),
    }
}

/// The term encoded in `bytes` after the version byte, or the decoder's failed
/// assertion.
fn versioned_checked(
    atoms: &mut AtomTable,
    options: &ToTermOptions,
    bytes: &[u8],
) -> (res: Result<Term, DecodeError>)
    ensures
        bif_checked_holds(spec_versioned(bytes@, *options, old(atoms)@), res),
        final(atoms)@ == old(atoms)@ + spec_versioned(bytes@, *options, old(atoms)@).interned,
        options.existing ==> final(atoms)@ == old(atoms)@,
{
    assert(old(atoms)@ + Set::<Seq<u8>>::empty() =~= old(atoms)@);
    if 1 <= bytes.len() && bytes[0] == VERSION_NUMBER {
        let (term, after_term_bytes) = decode_tagged(atoms, options.existing, skip(bytes, 1))?;
        if options.used {
            let used_byte_len = bytes.len() - after_term_bytes.len();
            let used = integer_from_u64(used_byte_len as u64);
            let elements = vec![term, used];
            proof {
                lemma_tuple_model(elements);
                assert(models(elements@) =~= seq![elements@[0]@, elements@[1]@]);
            }
            Ok(Term::Tuple { elements })
        } else {
            Ok(term)
        }
    } else {
        Err(DecodeError::Badarg)
    }
}

/// The term encoded in `bytes` after the version byte.
pub fn versioned_tagged_bytes_try_into_term(
    atoms: &mut AtomTable,
    options: &ToTermOptions,
    bytes: &[u8],
) -> (res: Result<Term, Exception>)
    requires
        !(spec_versioned(bytes@, *options, old(atoms)@).result is Panic),
    ensures
        bif_holds(spec_versioned(bytes@, *options, old(atoms)@), res),
        final(atoms)@ == old(atoms)@ + spec_versioned(bytes@, *options, old(atoms)@).interned,
        options.existing ==> final(atoms)@ == old(atoms)@,
{
    match versioned_checked(atoms, options, bytes) {
        Ok(term) => Ok(term),
        Err(_) => Err(Exception::Badarg),
    }
}

/// `binary_to_term(binary, options)`: the term that the binary encodes in the
/// external term format. Inputs on which a decoder's assertion fails are left out.
pub fn native(atoms: &mut AtomTable, binary: &Term, options: &Term) -> (res: Result<Term, Exception>)
    requires
        !(spec_binary_to_term(binary@, options@, old(atoms)@).result is Panic),
    ensures
        bif_holds(spec_binary_to_term(binary@, options@, old(atoms)@), res),
        final(atoms)@ == old(atoms)@ + spec_binary_to_term(binary@, options@, old(atoms)@).interned,
        spec_to_term_options(options@, false, false) matches Some((existing, _)) && existing
            ==> final(atoms)@ == old(atoms)@,
{
    assert(old(atoms)@ + Set::<Seq<u8>>::empty() =~= old(atoms)@);
    let options = ToTermOptions::try_from(options)?;
    match binary {
        Term::Binary { bytes } => versioned_tagged_bytes_try_into_term(atoms, &options, bytes.as_slice()),
        _ => Err(Exception::Badarg),
    }
}

/// Whether `binary_to_term(binary, options)` meets one of the decoder's failed
/// assertions (a fun whose old index is not its index, or whose size is not the
/// number of bytes it uses), where the runtime panics. The table is not changed.
pub fn native_would_panic(atoms: &AtomTable, binary: &Term, options: &Term) -> (b: bool)
    ensures
        b == (spec_binary_to_term(binary@, options@, atoms@).result is Panic),
{
    let options = match ToTermOptions::try_from(options) {
        Ok(options) => options,
        Err(_) => return false,
    };
    match binary {
        Term::Binary { bytes } => {
            let mut scratch = atoms.duplicate();
            match versioned_checked(&mut scratch, &options, bytes.as_slice()) {
                Err(DecodeError::Assertion) => true,
                _ => false,
            }
        },
        _ => false,
    }
}

/// `binary_to_term(binary, options)` for any input: `None`, with the table
/// unchanged, where the decoder's assertions fail (where the runtime panics), else
/// what `native` returns.
pub fn try_native(atoms: &mut AtomTable, binary: &Term, options: &Term) -> (res: Option<
    Result<Term, Exception>,
>)
    ensures
        spec_binary_to_term(binary@, options@, old(atoms)@).result is Panic ==> res is None
            && final(atoms)@ == old(atoms)@,
        !(spec_binary_to_term(binary@, options@, old(atoms)@).result is Panic) ==> (res matches Some(
            r,
        ) && bif_holds(spec_binary_to_term(binary@, options@, old(atoms)@), r) && final(atoms)@
            == old(atoms)@ + spec_binary_to_term(binary@, options@, old(atoms)@).interned),
{
    if native_would_panic(atoms, binary, options) {
        None
    } else {
        Some(native(atoms, binary, options))
    }
}

/// `binary_to_term` of an atom encoded with a one-byte length (`SMALL_ATOM_EXT` or
/// `SMALL_ATOM_UTF8_EXT`) whose name is well-formed UTF-8 gives that atom and
/// creates it, whatever bytes follow.
pub proof fn lemma_binary_to_term_small_atom(tag: u8, name: Seq<u8>, rest: Seq<u8>, atoms: Set<Seq<u8>>)
    requires
        tag == crate::distribution::external_term_format::grammar::SMALL_ATOM_EXT
            || tag == crate::distribution::external_term_format::grammar::SMALL_ATOM_UTF8_EXT,
        name.len() <= 255,
        vstd::utf8::valid_utf8(name),
    ensures
        spec_binary_to_term(
            SpecTerm::Binary { bytes: seq![VERSION_NUMBER, tag, name.len() as u8] + name + rest },
            SpecTerm::Nil,
            atoms,
        ) == (BifOutcome { result: BifResult::Value { term: SpecTerm::Atom { name } }, interned: set![name] }),
{
    let bytes = seq![VERSION_NUMBER, tag, name.len() as u8] + name + rest;
    assert(bytes.skip(1) =~= seq![tag, name.len() as u8] + name + rest);
    crate::distribution::external_term_format::laws::lemma_small_atom_decodes(tag, name, rest, None);
}

} // verus!
