//! Decoding any term with its tag, and runs of terms.
use vstd::prelude::*;
use crate::atom_table::AtomTable;
use crate::term::{lemma_tuple_model, list_from_vec, models, Exception, SpecTerm, Term};
use super::grammar::{
    be_u32, decoded_holds, decoded_seq_holds, existing, lemma_decode_terms_len, lemma_prepend_nothing,
    lemma_prepend_prepend, prepend, shift, spec_decode_tagged, spec_decode_terms, Decoded, DecodeError,
    DecodedSeq,
    LARGE_TUPLE_EXT, LIST_EXT, NEW_FUN_EXT, NEW_PID_EXT, PID_EXT, SMALL_TUPLE_EXT,
};
use super::integers::{decode_u32, decode_u8};
use super::{new_function, pid, scalars};

verus! {

/// The result of a decoder that never meets a failed assertion, as one that may.
pub fn lift<T>(r: Result<T, Exception>) -> (res: Result<T, DecodeError>)
    ensures
        r is Ok ==> res == Ok::<T, DecodeError>(r->Ok_0),
        r is Err ==> res == Err::<T, DecodeError>(DecodeError::Badarg),
{
    match r {
        Ok(v) => Ok(v),
        Err(_) => Err(DecodeError::Badarg),
    }
}

/// The term with its tag at the start of `bytes`, followed by the rest of the bytes.
#[verifier::rlimit(80)]
#[verifier::spinoff_prover]
pub fn decode_tagged<'a>(atoms: &mut AtomTable, safe: bool, bytes: &'a [u8]) -> (res: Result<
    (Term, &'a [u8]),
    DecodeError,
>)
    ensures
        decoded_holds(spec_decode_tagged(bytes@, existing(safe, old(atoms)@)), bytes@, res),
        final(atoms)@ == old(atoms)@ + spec_decode_tagged(bytes@, existing(safe, old(atoms)@)).interned,
        safe ==> final(atoms)@ == old(atoms)@,
    decreases bytes@.len(), 0nat,
{
    let ghost ex = existing(safe, old(atoms)@);
    assert(old(atoms)@ + Set::<Seq<u8>>::empty() =~= old(atoms)@);
    let (tag, after_tag) = lift(decode_u8(bytes))?;
    let ghost b = bytes@.skip(1);
    if tag == SMALL_TUPLE_EXT {
        let (arity, after_arity) = lift(decode_u8(after_tag))?;
        assert(after_arity@ =~= b.skip(1));
        let (elements, rest) = decode_terms(atoms, safe, after_arity, arity as u64)?;
        proof {
            lemma_tuple_model(elements);
            let used = spec_decode_terms(b.skip(1), arity as nat, ex).decoded->Values_used;
            assert(rest@ =~= bytes@.skip((used + 2) as int));
        }
        Ok((Term::Tuple { elements }, rest))
    } else if tag == LARGE_TUPLE_EXT {
        let (arity, after_arity) = lift(decode_u32(after_tag))?;
        assert(after_arity@ =~= b.skip(4));
        let (elements, rest) = decode_terms(atoms, safe, after_arity, arity as u64)?;
        proof {
            lemma_tuple_model(elements);
            let used = spec_decode_terms(b.skip(4), arity as nat, ex).decoded->Values_used;
            assert(rest@ =~= bytes@.skip((used + 5) as int));
        }
        Ok((Term::Tuple { elements }, rest))
    } else if tag == LIST_EXT {
        let (n, after_len) = lift(decode_u32(after_tag))?;
        assert(after_len@ =~= b.skip(4));
        let (elements, rest) = decode_terms(atoms, safe, after_len, n as u64 + 1)?;
        proof {
            lemma_decode_terms_len(b.skip(4), (n + 1) as nat, ex);
        }
        let ghost terms = models(elements@);
        let mut elements = elements;
        let tail = elements.pop().unwrap();
        proof {
            assert(models(elements@) =~= terms.take(n as int));
            let used = spec_decode_terms(b.skip(4), (n + 1) as nat, ex).decoded->Values_used;
            assert(rest@ =~= bytes@.skip((used + 5) as int));
        }
        Ok((list_from_vec(elements, tail), rest))
    } else if tag == NEW_FUN_EXT {
        let (closure, rest) = new_function::decode_checked(atoms, safe, after_tag)?;
        proof {
            let used = super::grammar::spec_new_fun(b, ex).decoded->used;
            assert(rest@ =~= bytes@.skip((used + 1) as int));
        }
        Ok((closure, rest))
    } else if tag == PID_EXT || tag == NEW_PID_EXT {
        lift(pid::decode(atoms, safe, bytes))
    } else {
        let (term, rest) = lift(scalars::decode_flat_body(atoms, safe, tag, after_tag))?;
        proof {
            let used = super::grammar::spec_flat_body(tag, b, ex).decoded->used;
            assert(rest@ =~= bytes@.skip((used + 1) as int));
        }
        Ok((term, rest))
    }
}

/// `n` terms, one after another, followed by the rest of the bytes.
pub fn decode_terms<'a>(atoms: &mut AtomTable, safe: bool, bytes: &'a [u8], n: u64) -> (res:
    Result<(Vec<Term>, &'a [u8]), DecodeError>)
    ensures
        decoded_seq_holds(spec_decode_terms(bytes@, n as nat, existing(safe, old(atoms)@)), bytes@, res),
        final(atoms)@ == old(atoms)@ + spec_decode_terms(bytes@, n as nat, existing(safe, old(atoms)@)).interned,
        safe ==> final(atoms)@ == old(atoms)@,
    decreases bytes@.len(), 1nat,
{
    let ghost ex = existing(safe, old(atoms)@);
    let ghost whole = spec_decode_terms(bytes@, n as nat, ex);
    let mut terms: Vec<Term> = Vec::new();
    let mut rest: &'a [u8] = bytes;
    let mut i: u64 = 0;
    let ghost mut used: nat = 0;
    let ghost mut interned: Set<Seq<u8>> = Set::empty();
    proof {
        lemma_prepend_nothing(whole);
        assert(old(atoms)@ + Set::<Seq<u8>>::empty() =~= old(atoms)@);
        assert(bytes@.skip(0) =~= bytes@);
        assert(models(terms@) =~= Seq::<SpecTerm>::empty());
    }
    while i < n
        invariant
            0 <= i <= n,
            used <= bytes@.len(),
            rest@ == bytes@.skip(used as int),
            prepend(models(terms@), used, interned, spec_decode_terms(rest@, (n - i) as nat, ex))
                == whole,
            whole == spec_decode_terms(bytes@, n as nat, ex),
            atoms@ == old(atoms)@ + interned,
            safe ==> atoms@ == old(atoms)@,
            ex == existing(safe, old(atoms)@),
        decreases n - i,
    {
        let ghost tail = spec_decode_terms(rest@, (n - i) as nat, ex);
        let ghost first = spec_decode_tagged(rest@, ex);
        assert(existing(safe, atoms@) == ex);
        let res_first = decode_tagged(atoms, safe, rest);
        match res_first {
            Ok((term, after)) => {
                let ghost u = first.decoded->used;
                let ghost next = spec_decode_terms(rest@.skip(u as int), (n - i - 1) as nat, ex);
                proof {
                    assert(tail == prepend(seq![term@], u, first.interned, next));
                    lemma_prepend_prepend(models(terms@), used, interned, seq![term@], u, first.interned, next);
                    assert(models(terms@.push(term)) =~= models(terms@) + seq![term@]);
                    assert(after@ =~= bytes@.skip((used + u) as int));
                    assert(old(atoms)@ + interned + first.interned =~= old(atoms)@ + (interned + first.interned));
                }
                terms.push(term);
                rest = after;
                proof {
                    used = used + u;
                    interned = interned + first.interned;
                }
                i = i + 1;
            },
            Err(e) => {
                proof {
                    assert(tail.interned == first.interned);
                    assert(first.decoded is Badarg ==> whole.decoded is Badarg && e == DecodeError::Badarg);
                    assert(first.decoded is Panic ==> whole.decoded is Panic && e == DecodeError::Assertion);
                    assert(whole.interned =~= interned + first.interned);
                    assert(atoms@ == old(atoms)@ + whole.interned);
                    assert(old(atoms)@ + interned + first.interned =~= old(atoms)@ + (interned + first.interned));
                    assert(interned + first.interned =~= interned + first.interned + Set::empty());
                }
                return Err(e);
            },
        }
    }
    proof {
        assert(models(terms@) + Seq::<SpecTerm>::empty() =~= models(terms@));
        assert(interned + Set::<Seq<u8>>::empty() =~= interned);
    }
    Ok((terms, rest))
}

/// `len` terms, one after another, followed by the rest of the bytes.
pub fn decode_vec_term<'a>(atoms: &mut AtomTable, safe: bool, bytes: &'a [u8], len: usize) -> (res:
    Result<(Vec<Term>, &'a [u8]), DecodeError>)
    ensures
        decoded_seq_holds(spec_decode_terms(bytes@, len as nat, existing(safe, old(atoms)@)), bytes@, res),
        final(atoms)@ == old(atoms)@ + spec_decode_terms(bytes@, len as nat, existing(safe, old(atoms)@)).interned,
        safe ==> final(atoms)@ == old(atoms)@,
    decreases bytes@.len(), 2nat,
{
    decode_terms(atoms, safe, bytes, len as u64)
}

} // verus!
