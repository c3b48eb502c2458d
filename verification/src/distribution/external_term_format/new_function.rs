//! Decoding a fun with its environment (`NEW_FUN_EXT`).
use vstd::prelude::*;
use crate::atom_table::AtomTable;
use crate::term::{models, Exception, Term};
use super::atom;
use super::grammar::{
    be_u32, decoded_holds, existing, lemma_fun_head_used, spec_atom_tagged, spec_decode_terms,
    spec_fun_head, spec_new_fun, spec_pid_tagged, spec_tagged_isize, term_holds, DecodeError,
    DecodedHead, HeadOutcome, NEW_FUN_HEADER_LEN, UNIQ_LEN,
};
use super::integers::{decode_tagged_isize, decode_u32, decode_u8, skip};
use super::pid;
use super::term::{decode_vec_term, lift};

verus! {

/// The sixteen unique bytes of a fun, followed by the rest of the bytes.
pub fn decode_uniq<'a>(bytes: &'a [u8]) -> (res: Result<(Vec<u8>, &'a [u8]), Exception>)
    ensures
        UNIQ_LEN <= bytes@.len() ==> (res matches Ok((uniq, rest)) && uniq@ == bytes@.take(
            UNIQ_LEN as int,
        ) && rest@ == bytes@.skip(UNIQ_LEN as int)),
        bytes@.len() < UNIQ_LEN ==> res == Err::<(Vec<u8>, &'a [u8]), Exception>(Exception::Badarg),
{
    if UNIQ_LEN <= bytes.len() {
        let (uniq_bytes, after_uniq_bytes) = bytes.split_at(UNIQ_LEN);
        assert(uniq_bytes@ =~= bytes@.take(UNIQ_LEN as int));
        assert(after_uniq_bytes@ =~= bytes@.skip(UNIQ_LEN as int));
        Ok((vstd::slice::slice_to_vec(uniq_bytes), after_uniq_bytes))
    } else {
        Err(Exception::Badarg)
    }
}

/// The fields of a fun that come before its free variables.
pub struct FunHeadFields {
    pub total_byte_len: u32,
    pub arity: u8,
    pub uniq: Vec<u8>,
    pub index: u32,
    pub num_free: u32,
    pub module: Vec<u8>,
    pub old_unique: u32,
    pub creator: Term,
}

/// `res` is what the head outcome `o` of decoding `bytes` says.
pub open spec fn head_holds<'a>(
    o: HeadOutcome,
    bytes: Seq<u8>,
    res: Result<(FunHeadFields, &'a [u8]), DecodeError>,
) -> bool {
    match o.decoded {
        DecodedHead::Head { head } => res matches Ok((h, rest)) && h.total_byte_len == head.size
            && h.arity == head.arity && h.uniq@ == head.unique && h.index == head.index
            && h.num_free == head.num_free && h.module@ == head.module && h.old_unique
            == head.old_unique && h.creator@ == head.creator && head.used <= bytes.len() && rest@
            == bytes.skip(head.used as int),
        DecodedHead::Badarg => res matches Err(e) && e == DecodeError::Badarg,
        DecodedHead::Panic => res matches Err(e) && e == DecodeError::Assertion,
    }
}

/// The head of a fun after its tag, followed by the rest of the bytes; a failed
/// assertion where the old index is not the index.
pub fn decode_head<'a>(atoms: &mut AtomTable, safe: bool, bytes: &'a [u8]) -> (res: Result<
    (FunHeadFields, &'a [u8]),
    DecodeError,
>)
    ensures
        head_holds(spec_fun_head(bytes@, existing(safe, old(atoms)@)), bytes@, res),
        final(atoms)@ == old(atoms)@ + spec_fun_head(bytes@, existing(safe, old(atoms)@)).interned,
        safe ==> final(atoms)@ == old(atoms)@,
{
    let ghost ex = existing(safe, old(atoms)@);
    let ghost s = bytes@;
    proof {
        reveal(spec_fun_head);
    }
    assert(old(atoms)@ + Set::<Seq<u8>>::empty() =~= old(atoms)@);
    if bytes.len() < NEW_FUN_HEADER_LEN {
        return Err(DecodeError::Badarg);
    }
    let (total_byte_len, after_size_bytes) = lift(decode_u32(bytes))?;
    let (arity, after_arity_bytes) = lift(decode_u8(after_size_bytes))?;
    let (uniq, after_uniq_bytes) = lift(decode_uniq(after_arity_bytes))?;
    let (index, after_index_bytes) = lift(decode_u32(after_uniq_bytes))?;
    let (num_free, after_num_free_bytes) = lift(decode_u32(after_index_bytes))?;
    assert(uniq@ =~= s.subrange(5, 21));
    assert(be_u32(s.subrange(21, 25)) == be_u32(s.skip(21)));
    assert(be_u32(s.subrange(25, 29)) == be_u32(s.skip(25)));
    assert(after_num_free_bytes@ =~= s.skip(29));
    let ghost m = spec_atom_tagged(s.skip(29), ex);
    let (module, after_module_bytes) = lift(atom::decode_tagged(atoms, safe, after_num_free_bytes))?;
    let ghost p1: int = 29 + m.decoded.unwrap().1 as int;
    assert(after_module_bytes@ =~= s.skip(p1));
    let (old_index, after_old_index_bytes) = lift(decode_tagged_isize(after_module_bytes))?;
    if old_index != index as isize {
        return Err(DecodeError::Assertion);
    }
    let ghost p2: int = p1 + spec_tagged_isize(s.skip(p1)).unwrap().1 as int;
    assert(after_old_index_bytes@ =~= s.skip(p2));
    let (old_uniq, after_old_uniq_bytes) = lift(decode_tagged_isize(after_old_index_bytes))?;
    let old_unique = old_uniq as u32;
    let ghost p3: int = p2 + spec_tagged_isize(s.skip(p2)).unwrap().1 as int;
    assert(after_old_uniq_bytes@ =~= s.skip(p3));
    let ghost c = spec_pid_tagged(s.skip(p3), ex);
    let res_creator = pid::decode(atoms, safe, after_old_uniq_bytes);
    assert(atoms@ =~= old(atoms)@ + (m.interned + c.interned));
    let (creator, after_creator_bytes) = lift(res_creator)?;
    let ghost p4: int = p3 + c.decoded->used as int;
    assert(after_creator_bytes@ =~= s.skip(p4));
    Ok((
        FunHeadFields {
            total_byte_len,
            arity,
            uniq,
            index,
            num_free,
            module,
            old_unique,
            creator,
        },
        after_creator_bytes,
    ))
}

/// The fun after its tag: its size, arity, unique bytes, index, number of free
/// variables, module, old index, old unique, creator and free variables, followed by
/// the rest of the bytes; a failed assertion where the old index is not the index,
/// or the size is not the number of bytes used.
pub fn decode_checked<'a>(atoms: &mut AtomTable, safe: bool, bytes: &'a [u8]) -> (res: Result<
    (Term, &'a [u8]),
    DecodeError,
>)
    ensures
        decoded_holds(spec_new_fun(bytes@, existing(safe, old(atoms)@)), bytes@, res),
        final(atoms)@ == old(atoms)@ + spec_new_fun(bytes@, existing(safe, old(atoms)@)).interned,
        safe ==> final(atoms)@ == old(atoms)@,
    decreases bytes@.len(), 3nat,
{
    let ghost ex = existing(safe, old(atoms)@);
    let ghost h = spec_fun_head(bytes@, ex);
    let (head, after_creator_bytes) = decode_head(atoms, safe, bytes)?;
    proof {
        lemma_fun_head_used(bytes@, ex);
    }
    let ghost env = spec_decode_terms(after_creator_bytes@, head.num_free as nat, ex);
    let env_len: usize = head.num_free as usize;
    let res_env = decode_vec_term(atoms, safe, after_creator_bytes, env_len);
    assert(atoms@ =~= old(atoms)@ + (h.interned + env.interned));
    let (env_vec, after_vec_term_bytes) = res_env?;
    let ghost used = h.decoded->head.used + env.decoded->Values_used;
    assert(after_vec_term_bytes@ =~= bytes@.skip(used as int));
    if bytes.len() - after_vec_term_bytes.len() != head.total_byte_len as usize {
        return Err(DecodeError::Assertion);
    }
    let closure = Term::Closure {
            module: head.module,
            index: head.index,
            old_unique: head.old_unique,
            unique: head.uniq,
            arity: head.arity,
            creator: Box::new(head.creator),
            env: env_vec,
        };
    assert(closure@->Closure_env =~= models(env_vec@));
    Ok((closure, after_vec_term_bytes))
}

/// The fun after its tag: its size, arity, unique bytes, index, number of free
/// variables, module, old index, old unique, creator and free variables, followed by
/// the rest of the bytes. Inputs on which the old index is not the index, or the
/// size is not the number of bytes used, are left out: the runtime asserts both.
pub fn decode<'a>(atoms: &mut AtomTable, safe: bool, bytes: &'a [u8]) -> (res: Result<
    (Term, &'a [u8]),
    Exception,
>)
    requires
        !(spec_new_fun(bytes@, existing(safe, old(atoms)@)).decoded is Panic),
    ensures
        term_holds(spec_new_fun(bytes@, existing(safe, old(atoms)@)), bytes@, res),
        final(atoms)@ == old(atoms)@ + spec_new_fun(bytes@, existing(safe, old(atoms)@)).interned,
        safe ==> final(atoms)@ == old(atoms)@,
{
    match decode_checked(atoms, safe, bytes) {
        Ok(decoded) => Ok(decoded),
        Err(_) => Err(Exception::Badarg),
    }
}

} // verus!
