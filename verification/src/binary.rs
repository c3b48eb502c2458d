//! Binaries: the text a binary holds, and the options of `binary_to_term/2`.
use vstd::prelude::*;
use crate::atom_table::bytes_eq;
use crate::term::{list_has_atom, list_of_atoms_named, Exception, SpecTerm, Term};
use crate::utf8::is_valid_utf8;
use vstd::utf8::valid_utf8;

verus! {

/// The name `safe`.
pub open spec fn safe_name() -> Seq<u8> {
    seq![115u8, 97, 102, 101]
}

/// The name `used`.
pub open spec fn used_name() -> Seq<u8> {
    seq![117u8, 115, 101, 100]
}

/// The options in the list `options`, on top of `existing` and `used`: `safe` sets
/// `existing`, `used` sets `used`; any other element, or a list that is not proper,
/// is refused.
pub open spec fn spec_to_term_options(options: SpecTerm, existing: bool, used: bool) -> Option<
    (bool, bool),
>
    decreases options,
{
    match options {
        SpecTerm::Nil => Some((existing, used)),
        SpecTerm::Cons { head, tail } => match *head {
            SpecTerm::Atom { name } => if name == safe_name() {
                spec_to_term_options(*tail, true, used)
            } else if name == used_name() {
                spec_to_term_options(*tail, existing, true)
            } else {
                None
            },
            _ => None,
        },
        _ => None,
    }
}

/// The options in a list are the options it names, whatever their order and however
/// often each occurs: `existing` is set exactly when the list has the atom `safe`
/// (or it was set before), `used` exactly when it has `used`; a list that is not
/// proper, or has any other element, is refused.
pub proof fn lemma_to_term_options_are_the_atoms_named(list: SpecTerm, existing: bool, used: bool)
    ensures
        spec_to_term_options(list, existing, used) == (if list_of_atoms_named(list, safe_name(), used_name()) {
            Some((existing || list_has_atom(list, safe_name()), used || list_has_atom(list, used_name())))
        } else {
            None
        }),
    decreases list,
{
    assert(safe_name() != used_name()) by {
        assert(safe_name()[0] != used_name()[0]);
    }
    if let SpecTerm::Cons { head, tail } = list {
        if let SpecTerm::Atom { name } = *head {
            if name == safe_name() {
                lemma_to_term_options_are_the_atoms_named(*tail, true, used);
            } else if name == used_name() {
                lemma_to_term_options_are_the_atoms_named(*tail, existing, true);
            }
        }
    }
}

/// The options of `binary_to_term/2`.
#[derive(Debug, Clone, Copy, PartialEq, Eq)]
pub struct ToTermOptions {
    /// Only atoms that exist may be decoded (the `safe` option).
    pub existing: bool,
    /// The number of bytes used is returned with the term (the `used` option).
    pub used: bool,
}

impl ToTermOptions {
    /// No option set.
    pub fn default() -> (options: ToTermOptions)
        ensures
            !options.existing && !options.used,
    {
        ToTermOptions { existing: false, used: false }
    }

    /// The options in the proper list of atoms `term`.
    pub fn try_from(term: &Term) -> (res: Result<ToTermOptions, Exception>)
        ensures
            match spec_to_term_options(term@, false, false) {
                Some((existing, used)) => res == Ok::<ToTermOptions, Exception>(
                    ToTermOptions { existing, used },
                ),
                None => res == Err::<ToTermOptions, Exception>(Exception::Badarg),
            },
            res is Ok <==> list_of_atoms_named(term@, safe_name(), used_name()),
            res matches Ok(options) ==> options.existing == list_has_atom(term@, safe_name())
                && options.used == list_has_atom(term@, used_name()),
    {
        proof {
            lemma_to_term_options_are_the_atoms_named(term@, false, false);
        }
        let mut options = ToTermOptions::default();
        let mut options_term: &Term = term;
        let safe = vec![115u8, 97, 102, 101];
        let used = vec![117u8, 115, 101, 100];
        assert(safe@ =~= safe_name());
        assert(used@ =~= used_name());
        loop
            invariant
                spec_to_term_options(term@, false, false) == (if list_of_atoms_named(
                    term@,
                    safe_name(),
                    used_name(),
                ) {
                    Some((list_has_atom(term@, safe_name()), list_has_atom(term@, used_name())))
                } else {
                    None
                }),
                safe@ == safe_name(),
                used@ == used_name(),
                spec_to_term_options(term@, false, false) == spec_to_term_options(
                    options_term@,
                    options.existing,
                    options.used,
                ),
            decreases options_term@,
        {
            match options_term {
                Term::Nil => return Ok(options),
                Term::Cons { head, tail } => {
                    assert(options_term@ == SpecTerm::Cons {
                        head: Box::new((**head)@),
                        tail: Box::new((**tail)@),
                    });
                    match &**head {
                        Term::Atom { name } => {
                            if bytes_eq(name.as_slice(), safe.as_slice()) {
                                options.existing = true;
                            } else if bytes_eq(name.as_slice(), used.as_slice()) {
                                options.used = true;
                            } else {
                                return Err(Exception::Badarg);
                            }
                        },
                        _ => return Err(Exception::Badarg),
                    }
                    options_term = &**tail;
                },
                _ => return Err(Exception::Badarg),
            }
        }
    }
}

/// The text a binary holds, as its UTF-8 bytes: `badarg` for a term that is not a
/// binary, or a binary that is not well-formed UTF-8.
pub fn utf8_bytes_of_binary(term: &Term) -> (res: Result<Vec<u8>, Exception>)
    ensures
        match term@ {
            SpecTerm::Binary { bytes } => if valid_utf8(bytes) {
                res matches Ok(text) && text@ == bytes
            } else {
                res == Err::<Vec<u8>, Exception>(Exception::Badarg)
            },
            _ => res == Err::<Vec<u8>, Exception>(Exception::Badarg),
        },
{
    match term {
        Term::Binary { bytes } => {
            if is_valid_utf8(bytes.as_slice()) {
                Ok(vstd::slice::slice_to_vec(bytes.as_slice()))
            } else {
                Err(Exception::Badarg)
            }
        },
        _ => Err(Exception::Badarg),
    }
}

} // verus!
