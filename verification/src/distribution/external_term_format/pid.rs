//! Decoding pids (`PID_EXT`, `NEW_PID_EXT`).
use vstd::prelude::*;
use crate::atom_table::{AtomTable, bytes_eq};
use crate::term::{make_pid, Exception, Node, Term};
use super::atom;
use super::grammar::{
    be_u32, existing, local_node_name, spec_atom_tagged, spec_pid_tagged, term_holds, NEW_PID_EXT,
    PID_EXT,
};
use super::integers::{decode_u32, decode_u8};

verus! {

/// The name of the local node, `nonode@nohost`.
pub fn local_node_name_bytes() -> (name: Vec<u8>)
    ensures
        name@ == local_node_name(),
{
    let name = vec![110u8, 111, 110, 111, 100, 101, 64, 110, 111, 104, 111, 115, 116];
    assert(name@ =~= local_node_name());
    name
}

/// A pid with its tag: the node's name, number, serial and creation. A pid of the
/// local node must be within the limits of local pids.
pub fn decode<'a>(atoms: &mut AtomTable, safe: bool, bytes: &'a [u8]) -> (res: Result<
    (Term, &'a [u8]),
    Exception,
>)
    ensures
        term_holds(spec_pid_tagged(bytes@, existing(safe, old(atoms)@)), bytes@, res),
        final(atoms)@ == old(atoms)@ + spec_pid_tagged(bytes@, existing(safe, old(atoms)@)).interned,
        safe ==> final(atoms)@ == old(atoms)@,
{
    let ghost ex = existing(safe, old(atoms)@);
    proof {
        reveal(spec_pid_tagged);
    }
    assert(old(atoms)@ + Set::<Seq<u8>>::empty() =~= old(atoms)@);
    let (tag, after_tag) = decode_u8(bytes)?;
    if tag != PID_EXT && tag != NEW_PID_EXT {
        return Err(Exception::Badarg);
    }
    let (node, after_node) = atom::decode_tagged(atoms, safe, after_tag)?;
    let ghost u = spec_atom_tagged(bytes@.skip(1), ex).decoded.unwrap().1;
    let ghost rest = bytes@.skip(1 + u as int);
    assert(after_node@ =~= rest);
    let (number, after_number) = decode_u32(after_node)?;
    assert(after_number@ =~= rest.skip(4));
    let (serial, after_serial) = decode_u32(after_number)?;
    assert(after_serial@ =~= rest.skip(8));
    assert(be_u32(rest.subrange(0, 4)) == be_u32(rest));
    assert(be_u32(rest.subrange(4, 8)) == be_u32(rest.skip(4)));
    let (creation, after_creation) = if tag == PID_EXT {
        let (c, a) = decode_u8(after_serial)?;
        assert(a@ =~= rest.skip(9));
        (c as u32, a)
    } else {
        let (c, a) = decode_u32(after_serial)?;
        assert(be_u32(rest.subrange(8, 12)) == be_u32(rest.skip(8)));
        assert(a@ =~= rest.skip(12));
        (c, a)
    };
    let ghost tail_len: int = if tag == PID_EXT { 9 } else { 12 };
    assert(after_creation@ =~= bytes@.skip(1 + u + tail_len));
    let local = local_node_name_bytes();
    if bytes_eq(node.as_slice(), local.as_slice()) {
        let pid = make_pid(number, serial)?;
        Ok((pid, after_creation))
    } else {
        Ok((Term::ExternalPid { node: Node { name: node, creation }, number, serial }, after_creation))
    }
}

} // verus!
