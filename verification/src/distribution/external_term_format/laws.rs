//! What decoding gives for atoms, funs and exports, stated by the bytes of their
//! encodings.
use vstd::prelude::*;
use vstd::utf8::valid_utf8;
use crate::term::SpecTerm;
use super::grammar::{
    be_u32, lemma_atom_tagged_used, lemma_decode_terms_len, lemma_fun_head_used, spec_atom_tagged,
    spec_decode_tagged, spec_export, spec_flat_body, spec_fun_head, spec_new_fun, Decoded, Outcome,
    ATOM_EXT, ATOM_UTF8_EXT, SMALL_ATOM_EXT, SMALL_ATOM_UTF8_EXT, SMALL_INTEGER_EXT,
};

verus! {

/// Whether the atom named `name` may be decoded: always in unsafe mode (`None`),
/// where it is created; in safe mode only when it exists.
pub open spec fn atom_allowed(name: Seq<u8>, ex: Option<Set<Seq<u8>>>) -> bool {
    match ex {
        Some(atoms) => atoms.contains(name),
        None => true,
    }
}

/// The atoms that decoding the atom named `name` creates: it alone in unsafe mode,
/// none in safe mode.
pub open spec fn atoms_created(name: Seq<u8>, ex: Option<Set<Seq<u8>>>) -> Set<Seq<u8>> {
    match ex {
        Some(_) => Set::empty(),
        None => set![name],
    }
}

/// An atom with a one-byte length, tagged `SMALL_ATOM_EXT` or `SMALL_ATOM_UTF8_EXT`,
/// whose name is well-formed UTF-8 and may be decoded, decodes to the atom of that
/// name, using the tag, the length and the name, whatever follows.
pub proof fn lemma_small_atom_decodes(tag: u8, name: Seq<u8>, rest: Seq<u8>, ex: Option<Set<Seq<u8>>>)
    requires
        tag == SMALL_ATOM_EXT || tag == SMALL_ATOM_UTF8_EXT,
        name.len() <= 255,
        valid_utf8(name),
        atom_allowed(name, ex),
    ensures
        spec_decode_tagged(seq![tag, name.len() as u8] + name + rest, ex) == (Outcome {
            decoded: Decoded::Value { term: SpecTerm::Atom { name }, used: name.len() + 2 },
            interned: atoms_created(name, ex),
        }),
{
    reveal(spec_flat_body);
    let s = seq![tag, name.len() as u8] + name + rest;
    let b = s.skip(1);
    assert(b.skip(1) =~= name + rest);
    assert((name + rest).take(name.len() as int) =~= name);
}

/// An atom with a two-byte length, tagged `ATOM_EXT` or `ATOM_UTF8_EXT`, whose name
/// is well-formed UTF-8, at most 255 bytes, and may be decoded, decodes to the atom
/// of that name, using the tag, the length and the name, whatever follows.
pub proof fn lemma_atom_decodes(tag: u8, name: Seq<u8>, rest: Seq<u8>, ex: Option<Set<Seq<u8>>>)
    requires
        tag == ATOM_EXT || tag == ATOM_UTF8_EXT,
        name.len() <= 255,
        valid_utf8(name),
        atom_allowed(name, ex),
    ensures
        spec_decode_tagged(seq![tag, 0u8, name.len() as u8] + name + rest, ex) == (Outcome {
            decoded: Decoded::Value { term: SpecTerm::Atom { name }, used: name.len() + 3 },
            interned: atoms_created(name, ex),
        }),
{
    reveal(spec_flat_body);
    let s = seq![tag, 0u8, name.len() as u8] + name + rest;
    let b = s.skip(1);
    assert(b.skip(2) =~= name + rest);
    assert((name + rest).take(name.len() as int) =~= name);
}

/// A fun's encoding after its tag gives, when it decodes, a closure whose arity is
/// the byte after the four-byte size, whose unique bytes are the sixteen after it,
/// whose index is the next four bytes, and whose free variables are as many as the
/// four bytes after those say; the bytes it uses are as many as the size says.
pub proof fn lemma_new_fun_fields(s: Seq<u8>, ex: Option<Set<Seq<u8>>>)
    ensures
        spec_new_fun(s, ex).decoded matches Decoded::Value { term, used } ==> {
            &&& used == be_u32(s)
            &&& term is Closure
            &&& term->Closure_arity == s[4]
            &&& term->Closure_unique == s.subrange(5, 21)
            &&& term->Closure_index == be_u32(s.subrange(21, 25))
            &&& term->Closure_env.len() == be_u32(s.subrange(25, 29))
        },
{
    reveal(spec_fun_head);
    lemma_fun_head_used(s, ex);
    let sub = s.subrange(21, 25);
    assert(be_u32(sub) < 0x1_0000_0000);
    if let super::grammar::DecodedHead::Head { head } = spec_fun_head(s, ex).decoded {
        lemma_decode_terms_len(s.skip(head.used as int), head.num_free, ex);
        assert(head.arity == s[4]);
        assert(head.unique == s.subrange(5, 21));
        assert(head.index == be_u32(s.subrange(21, 25)));
        assert(head.num_free == be_u32(s.subrange(25, 29)));
        assert(head.size == be_u32(s));
    }
}

/// An export's encoding after its tag gives, when it decodes, an export whose arity
/// is the byte of the small integer that ends it.
pub proof fn lemma_export_arity(s: Seq<u8>, ex: Option<Set<Seq<u8>>>)
    ensures
        spec_export(s, ex).decoded matches Decoded::Value { term, used } ==> {
            &&& 2 <= used <= s.len()
            &&& s[used - 2] == SMALL_INTEGER_EXT
            &&& term is Export
            &&& term->Export_arity == s[used - 1]
        },
{
    lemma_atom_tagged_used(s, ex);
    if let Some((module, u1)) = spec_atom_tagged(s, ex).decoded {
        lemma_atom_tagged_used(s.skip(u1 as int), ex);
    }
}

} // verus!
