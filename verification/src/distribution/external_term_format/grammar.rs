//! What decoding a byte sequence in the external term format yields: the result of
//! each decoder of this module, as a function of the bytes and of the atoms that
//! exist, together with the atoms that the decoder creates on the way.
use vstd::prelude::*;
use vstd::utf8::valid_utf8;
use crate::term::{Exception, SpecTerm, Term, spec_integer, spec_list, NUMBER_MAX, SERIAL_MAX};

verus! {

pub const VERSION_NUMBER: u8 = 131;
pub const NEW_FLOAT_EXT: u8 = 70;
pub const BIT_BINARY_EXT: u8 = 77;
pub const NEW_PID_EXT: u8 = 88;
pub const SMALL_INTEGER_EXT: u8 = 97;
pub const INTEGER_EXT: u8 = 98;
pub const ATOM_EXT: u8 = 100;
pub const PID_EXT: u8 = 103;
pub const SMALL_TUPLE_EXT: u8 = 104;
pub const LARGE_TUPLE_EXT: u8 = 105;
pub const NIL_EXT: u8 = 106;
pub const STRING_EXT: u8 = 107;
pub const LIST_EXT: u8 = 108;
pub const BINARY_EXT: u8 = 109;
pub const SMALL_BIG_EXT: u8 = 110;
pub const LARGE_BIG_EXT: u8 = 111;
pub const NEW_FUN_EXT: u8 = 112;
pub const EXPORT_EXT: u8 = 113;
pub const SMALL_ATOM_EXT: u8 = 115;
pub const ATOM_UTF8_EXT: u8 = 118;
pub const SMALL_ATOM_UTF8_EXT: u8 = 119;

/// The longest atom name, in bytes.
pub const MAX_ATOM_LENGTH: usize = 255;

/// The length of the unique bytes of a fun.
pub const UNIQ_LEN: usize = 16;

/// The bytes of the fixed part of a fun's encoding: size, arity, unique bytes, index
/// and number of free variables.
pub const NEW_FUN_HEADER_LEN: usize = 29;

/// What a decoder yields: a term and the number of bytes it used, a `badarg`, or a
/// failed assertion of the decoder (a panic).
pub enum Decoded {
    Value { term: SpecTerm, used: nat },
    Badarg,
    Panic,
}

/// A decoder's result and the names of the atoms it created.
pub struct Outcome {
    pub decoded: Decoded,
    pub interned: Set<Seq<u8>>,
}

/// What decoding several terms in a row yields.
pub enum DecodedSeq {
    Values { terms: Seq<SpecTerm>, used: nat },
    Badarg,
    Panic,
}

/// The result of decoding several terms in a row and the names of the atoms created.
pub struct SeqOutcome {
    pub decoded: DecodedSeq,
    pub interned: Set<Seq<u8>>,
}

/// The result of decoding an atom (its name and the bytes used) and the names created.
pub struct AtomOutcome {
    pub decoded: Option<(Seq<u8>, nat)>,
    pub interned: Set<Seq<u8>>,
}

/// The atoms that a decoder may refer to: all of them in safe mode (`Some`); in
/// unsafe mode (`None`) every well-formed name is accepted and created.
pub open spec fn existing(safe: bool, atoms: Set<Seq<u8>>) -> Option<Set<Seq<u8>>> {
    if safe {
        Some(atoms)
    } else {
        None
    }
}

pub open spec fn badarg(interned: Set<Seq<u8>>) -> Outcome {
    Outcome { decoded: Decoded::Badarg, interned }
}

pub open spec fn decoded(term: SpecTerm, used: nat, interned: Set<Seq<u8>>) -> Outcome {
    Outcome { decoded: Decoded::Value { term, used }, interned }
}

/// The outcome `o` of decoding after a header of `k` bytes.
pub open spec fn shift(o: Outcome, k: nat) -> Outcome {
    match o.decoded {
        Decoded::Value { term, used } => decoded(term, used + k, o.interned),
        _ => o,
    }
}

pub open spec fn no_atom(interned: Set<Seq<u8>>) -> AtomOutcome {
    AtomOutcome { decoded: None, interned }
}

pub open spec fn shift_atom(o: AtomOutcome, k: nat) -> AtomOutcome {
    match o.decoded {
        Some((name, used)) => AtomOutcome { decoded: Some((name, used + k)), interned: o.interned },
        None => o,
    }
}

/// A big-endian unsigned 16-bit number.
pub open spec fn be_u16(s: Seq<u8>) -> nat {
    (s[0] as nat) * 256 + (s[1] as nat)
}

/// A big-endian unsigned 32-bit number.
pub open spec fn be_u32(s: Seq<u8>) -> nat {
    (s[0] as nat) * 0x100_0000 + (s[1] as nat) * 0x1_0000 + (s[2] as nat) * 0x100 + (s[3] as nat)
}

/// A big-endian signed (two's complement) 32-bit number.
pub open spec fn be_i32(s: Seq<u8>) -> int {
    if be_u32(s) >= 0x8000_0000 {
        be_u32(s) - 0x1_0000_0000
    } else {
        be_u32(s) as int
    }
}

/// A big-endian unsigned 64-bit number.
pub open spec fn be_u64(s: Seq<u8>) -> nat {
    be_u32(s) * 0x1_0000_0000 + be_u32(s.subrange(4, 8))
}

/// The name of the local node.
pub open spec fn local_node_name() -> Seq<u8> {
    seq![110u8, 111, 110, 111, 100, 101, 64, 110, 111, 104, 111, 115, 116]
}

/// The atom whose name is the first `len` bytes of `s`: its name must be UTF-8; in
/// safe mode the atom must exist, in unsafe mode the name must not be longer than
/// `MAX_ATOM_LENGTH` and the atom is created.
pub open spec fn spec_atom_of_len(s: Seq<u8>, len: nat, ex: Option<Set<Seq<u8>>>) -> AtomOutcome {
    if s.len() < len {
        no_atom(Set::empty())
    } else {
        let name = s.take(len as int);
        if !valid_utf8(name) {
            no_atom(Set::empty())
        } else {
            match ex {
                Some(atoms) => if atoms.contains(name) {
                    AtomOutcome { decoded: Some((name, len)), interned: Set::empty() }
                } else {
                    no_atom(Set::empty())
                },
                None => if len <= MAX_ATOM_LENGTH {
                    AtomOutcome { decoded: Some((name, len)), interned: set![name] }
                } else {
                    no_atom(Set::empty())
                },
            }
        }
    }
}

/// An atom after a one-byte length.
pub open spec fn spec_small_atom(s: Seq<u8>, ex: Option<Set<Seq<u8>>>) -> AtomOutcome {
    if s.len() < 1 {
        no_atom(Set::empty())
    } else {
        shift_atom(spec_atom_of_len(s.skip(1), s[0] as nat, ex), 1)
    }
}

/// An atom after a two-byte length.
pub open spec fn spec_atom(s: Seq<u8>, ex: Option<Set<Seq<u8>>>) -> AtomOutcome {
    if s.len() < 2 {
        no_atom(Set::empty())
    } else {
        shift_atom(spec_atom_of_len(s.skip(2), be_u16(s), ex), 2)
    }
}

/// An atom after its tag.
pub open spec fn spec_atom_tagged(s: Seq<u8>, ex: Option<Set<Seq<u8>>>) -> AtomOutcome {
    if s.len() == 0 {
        no_atom(Set::empty())
    } else if s[0] == ATOM_EXT || s[0] == ATOM_UTF8_EXT {
        shift_atom(spec_atom(s.skip(1), ex), 1)
    } else if s[0] == SMALL_ATOM_EXT || s[0] == SMALL_ATOM_UTF8_EXT {
        shift_atom(spec_small_atom(s.skip(1), ex), 1)
    } else {
        no_atom(Set::empty())
    }
}

/// The term of an atom outcome.
pub open spec fn atom_term(o: AtomOutcome) -> Outcome {
    match o.decoded {
        Some((name, used)) => decoded(SpecTerm::Atom { name }, used, o.interned),
        None => badarg(o.interned),
    }
}

/// A small integer after its tag, as a byte.
pub open spec fn spec_tagged_u8(s: Seq<u8>) -> Option<(u8, nat)> {
    if s.len() >= 2 && s[0] == SMALL_INTEGER_EXT {
        Some((s[1], 2))
    } else {
        None
    }
}

/// A small integer or an integer after its tag, as a machine integer.
pub open spec fn spec_tagged_isize(s: Seq<u8>) -> Option<(int, nat)> {
    if s.len() >= 2 && s[0] == SMALL_INTEGER_EXT {
        Some((s[1] as int, 2))
    } else if s.len() >= 5 && s[0] == INTEGER_EXT {
        Some((be_i32(s.subrange(1, 5)), 5))
    } else {
        None
    }
}

/// A pid after its tag: a pid of the local node when the node's name is the local
/// node's, within the limits of local pids; else a pid of another node.
#[verifier::opaque]
pub open spec fn spec_pid_tagged(s: Seq<u8>, ex: Option<Set<Seq<u8>>>) -> Outcome {
    if s.len() == 0 || (s[0] != PID_EXT && s[0] != NEW_PID_EXT) {
        badarg(Set::empty())
    } else {
        let node = spec_atom_tagged(s.skip(1), ex);
        match node.decoded {
            None => badarg(node.interned),
            Some((name, u)) => {
                let rest = s.skip(1 + u as int);
                let tail_len: nat = if s[0] == PID_EXT {
                    9
                } else {
                    12
                };
                if rest.len() < tail_len {
                    badarg(node.interned)
                } else {
                    let number = be_u32(rest.subrange(0, 4));
                    let serial = be_u32(rest.subrange(4, 8));
                    let creation: nat = if s[0] == PID_EXT {
                        rest[8] as nat
                    } else {
                        be_u32(rest.subrange(8, 12))
                    };
                    if name == local_node_name() {
                        if number <= NUMBER_MAX && serial <= SERIAL_MAX {
                            decoded(
                                SpecTerm::LocalPid { number: number as u32, serial: serial as u32 },
                                1 + u + tail_len,
                                node.interned,
                            )
                        } else {
                            badarg(node.interned)
                        }
                    } else {
                        decoded(
                            SpecTerm::ExternalPid {
                                node: name,
                                creation: creation as u32,
                                number: number as u32,
                                serial: serial as u32,
                            },
                            1 + u + tail_len,
                            node.interned,
                        )
                    }
                }
            },
        }
    }
}

/// An export (`fun Module:Function/Arity`) after its tag.
pub open spec fn spec_export(s: Seq<u8>, ex: Option<Set<Seq<u8>>>) -> Outcome {
    let m = spec_atom_tagged(s, ex);
    match m.decoded {
        None => badarg(m.interned),
        Some((module, u1)) => {
            let f = spec_atom_tagged(s.skip(u1 as int), ex);
            match f.decoded {
                None => badarg(m.interned + f.interned),
                Some((function, u2)) => match spec_tagged_u8(s.skip((u1 + u2) as int)) {
                    None => badarg(m.interned + f.interned),
                    Some((arity, u3)) => decoded(
                        SpecTerm::Export { module, function, arity },
                        u1 + u2 + u3,
                        m.interned + f.interned,
                    ),
                },
            }
        },
    }
}

/// An integer after its tag.
pub open spec fn spec_integer_ext(s: Seq<u8>) -> Outcome {
    if s.len() < 4 {
        badarg(Set::empty())
    } else {
        decoded(spec_integer(be_i32(s)), 4, Set::empty())
    }
}

/// The digits of a magnitude without its trailing zero digits.
pub open spec fn trim_zeros(digits: Seq<u8>) -> Seq<u8>
    decreases digits.len(),
{
    if digits.len() > 0 && digits.last() == 0 {
        trim_zeros(digits.drop_last())
    } else {
        digits
    }
}

/// The integer with the given sign byte and little-endian digits.
pub open spec fn big_integer(sign: u8, digits: Seq<u8>) -> SpecTerm {
    SpecTerm::Integer {
        negative: sign != 0 && trim_zeros(digits).len() > 0,
        magnitude: trim_zeros(digits),
    }
}

/// A big integer with a one-byte digit count, after its tag.
pub open spec fn spec_small_big(s: Seq<u8>) -> Outcome {
    if s.len() < 2 || s.len() < 2 + s[0] {
        badarg(Set::empty())
    } else {
        decoded(big_integer(s[1], s.subrange(2, 2 + s[0] as int)), (2 + s[0]) as nat, Set::empty())
    }
}

/// A big integer with a four-byte digit count, after its tag.
pub open spec fn spec_large_big(s: Seq<u8>) -> Outcome {
    if s.len() < 5 || s.len() < 5 + be_u32(s) {
        badarg(Set::empty())
    } else {
        decoded(
            big_integer(s[4], s.subrange(5, 5 + be_u32(s) as int)),
            5 + be_u32(s),
            Set::empty(),
        )
    }
}

/// Whether a float's bits encode an infinity or a NaN.
pub open spec fn not_finite(bits: nat) -> bool {
    (bits / 0x10_0000_0000_0000) % 0x800 == 0x7ff
}

/// A float after its tag: eight bytes of a finite IEEE 754 double, big-endian.
pub open spec fn spec_new_float(s: Seq<u8>) -> Outcome {
    if s.len() < 8 || not_finite(be_u64(s)) {
        badarg(Set::empty())
    } else {
        decoded(SpecTerm::Float { bits: be_u64(s) as u64 }, 8, Set::empty())
    }
}

/// A binary after its tag.
pub open spec fn spec_binary(s: Seq<u8>) -> Outcome {
    if s.len() < 4 || s.len() < 4 + be_u32(s) {
        badarg(Set::empty())
    } else {
        decoded(SpecTerm::Binary { bytes: s.subrange(4, 4 + be_u32(s) as int) }, 4 + be_u32(s), Set::empty())
    }
}

/// The bits of a byte that a bit string of `bits` trailing bits keeps.
pub open spec fn high_bits_mask(bits: u8) -> u8 {
    if bits == 1 {
        0x80
    } else if bits == 2 {
        0xc0
    } else if bits == 3 {
        0xe0
    } else if bits == 4 {
        0xf0
    } else if bits == 5 {
        0xf8
    } else if bits == 6 {
        0xfc
    } else if bits == 7 {
        0xfe
    } else {
        0xff
    }
}

/// A bit string after its tag: length, bits used of the last byte, bytes. The number
/// of bits is 0 exactly when the length is, and at most 8.
pub open spec fn spec_bit_binary(s: Seq<u8>) -> Outcome {
    if s.len() < 5 {
        badarg(Set::empty())
    } else {
        let len = be_u32(s);
        let bits = s[4];
        if (bits == 0) != (len == 0) || bits > 8 || s.len() < 5 + len {
            badarg(Set::empty())
        } else {
            let data = s.subrange(5, 5 + len as int);
            if bits == 8 || len == 0 {
                decoded(SpecTerm::Binary { bytes: data }, 5 + len, Set::empty())
            } else {
                decoded(
                    SpecTerm::BitString {
                        bytes: data.update(len - 1, data[len - 1] & high_bits_mask(bits)),
                        trailing_bits: bits,
                    },
                    5 + len,
                    Set::empty(),
                )
            }
        }
    }
}

/// The list of the integers of `bytes`.
pub open spec fn byte_list(bytes: Seq<u8>) -> SpecTerm {
    spec_list(Seq::new(bytes.len(), |i: int| spec_integer(bytes[i] as int)), SpecTerm::Nil)
}

/// A string (a list of bytes) after its tag.
pub open spec fn spec_string(s: Seq<u8>) -> Outcome {
    if s.len() < 2 || s.len() < 2 + be_u16(s) {
        badarg(Set::empty())
    } else {
        decoded(byte_list(s.subrange(2, 2 + be_u16(s) as int)), 2 + be_u16(s), Set::empty())
    }
}

/// The term that a term decoder makes of the terms that a sequence decoder decoded.
pub open spec fn seq_term(o: SeqOutcome, f: spec_fn(Seq<SpecTerm>) -> SpecTerm, k: nat) -> Outcome {
    match o.decoded {
        DecodedSeq::Values { terms, used } => decoded(f(terms), used + k, o.interned),
        DecodedSeq::Badarg => badarg(o.interned),
        DecodedSeq::Panic => Outcome { decoded: Decoded::Panic, interned: o.interned },
    }
}

/// A term after its tag byte `tag`, for the tags whose decoding holds no other term.
#[verifier::opaque]
pub open spec fn spec_flat_body(tag: u8, b: Seq<u8>, ex: Option<Set<Seq<u8>>>) -> Outcome {
    if tag == SMALL_INTEGER_EXT {
        if b.len() >= 1 {
            decoded(spec_integer(b[0] as int), 1, Set::empty())
        } else {
            badarg(Set::empty())
        }
    } else if tag == INTEGER_EXT {
        spec_integer_ext(b)
    } else if tag == NEW_FLOAT_EXT {
        spec_new_float(b)
    } else if tag == ATOM_EXT || tag == ATOM_UTF8_EXT {
        atom_term(spec_atom(b, ex))
    } else if tag == SMALL_ATOM_EXT || tag == SMALL_ATOM_UTF8_EXT {
        atom_term(spec_small_atom(b, ex))
    } else if tag == NIL_EXT {
        decoded(SpecTerm::Nil, 0, Set::empty())
    } else if tag == STRING_EXT {
        spec_string(b)
    } else if tag == BINARY_EXT {
        spec_binary(b)
    } else if tag == BIT_BINARY_EXT {
        spec_bit_binary(b)
    } else if tag == SMALL_BIG_EXT {
        spec_small_big(b)
    } else if tag == LARGE_BIG_EXT {
        spec_large_big(b)
    } else if tag == EXPORT_EXT {
        spec_export(b, ex)
    } else {
        badarg(Set::empty())
    }
}

/// The term that starts with its tag at the start of `s`.
pub open spec fn spec_decode_tagged(s: Seq<u8>, ex: Option<Set<Seq<u8>>>) -> Outcome
    decreases s.len(), 0nat, 0nat,
{
    if s.len() == 0 {
        badarg(Set::empty())
    } else {
        let tag = s[0];
        let b = s.skip(1);
        if tag == SMALL_TUPLE_EXT {
            if b.len() < 1 {
                badarg(Set::empty())
            } else {
                shift(
                    seq_term(
                        spec_decode_terms(b.skip(1), b[0] as nat, ex),
                        |terms: Seq<SpecTerm>| SpecTerm::Tuple { elements: terms },
                        1,
                    ),
                    1,
                )
            }
        } else if tag == LARGE_TUPLE_EXT {
            if b.len() < 4 {
                badarg(Set::empty())
            } else {
                shift(
                    seq_term(
                        spec_decode_terms(b.skip(4), be_u32(b), ex),
                        |terms: Seq<SpecTerm>| SpecTerm::Tuple { elements: terms },
                        4,
                    ),
                    1,
                )
            }
        } else if tag == LIST_EXT {
            if b.len() < 4 {
                badarg(Set::empty())
            } else {
                let n = be_u32(b);
                shift(
                    seq_term(
                        spec_decode_terms(b.skip(4), n + 1, ex),
                        |terms: Seq<SpecTerm>| spec_list(terms.take(n as int), terms[n as int]),
                        4,
                    ),
                    1,
                )
            }
        } else if tag == NEW_FUN_EXT {
            shift(spec_new_fun(b, ex), 1)
        } else if tag == PID_EXT || tag == NEW_PID_EXT {
            spec_pid_tagged(s, ex)
        } else {
            shift(spec_flat_body(tag, b, ex), 1)
        }
    }
}

/// `n` terms, one after another, from the start of `s`.
pub open spec fn spec_decode_terms(s: Seq<u8>, n: nat, ex: Option<Set<Seq<u8>>>) -> SeqOutcome
    decreases s.len(), 1nat, n,
{
    if n == 0 {
        SeqOutcome { decoded: DecodedSeq::Values { terms: Seq::empty(), used: 0 }, interned: Set::empty() }
    } else {
        let first = spec_decode_tagged(s, ex);
        match first.decoded {
            Decoded::Value { term, used } => if used <= s.len() {
                prepend(
                    seq![term],
                    used,
                    first.interned,
                    spec_decode_terms(s.skip(used as int), (n - 1) as nat, ex),
                )
            } else {
                SeqOutcome { decoded: DecodedSeq::Badarg, interned: first.interned }
            },
            Decoded::Badarg => SeqOutcome { decoded: DecodedSeq::Badarg, interned: first.interned },
            Decoded::Panic => SeqOutcome { decoded: DecodedSeq::Panic, interned: first.interned },
        }
    }
}

/// The outcome `o` of decoding terms after terms already decoded: `terms`, which
/// used `used` bytes and created the atoms `interned`.
pub open spec fn prepend(
    terms: Seq<SpecTerm>,
    used: nat,
    interned: Set<Seq<u8>>,
    o: SeqOutcome,
) -> SeqOutcome {
    match o.decoded {
        DecodedSeq::Values { terms: rest, used: rest_used } => SeqOutcome {
            decoded: DecodedSeq::Values { terms: terms + rest, used: used + rest_used },
            interned: interned + o.interned,
        },
        DecodedSeq::Badarg => SeqOutcome { decoded: DecodedSeq::Badarg, interned: interned + o.interned },
        DecodedSeq::Panic => SeqOutcome { decoded: DecodedSeq::Panic, interned: interned + o.interned },
    }
}

/// Prepending twice is prepending once what both prepend.
pub proof fn lemma_prepend_prepend(
    t1: Seq<SpecTerm>,
    u1: nat,
    i1: Set<Seq<u8>>,
    t2: Seq<SpecTerm>,
    u2: nat,
    i2: Set<Seq<u8>>,
    o: SeqOutcome,
)
    ensures
        prepend(t1, u1, i1, prepend(t2, u2, i2, o)) == prepend(t1 + t2, u1 + u2, i1 + i2, o),
{
    assert(i1 + (i2 + o.interned) =~= (i1 + i2) + o.interned);
    if let DecodedSeq::Values { terms, used } = o.decoded {
        assert(t1 + (t2 + terms) =~= (t1 + t2) + terms);
    }
}

/// Prepending nothing changes nothing.
pub proof fn lemma_prepend_nothing(o: SeqOutcome)
    ensures
        prepend(Seq::empty(), 0, Set::empty(), o) == o,
{
    assert(Set::<Seq<u8>>::empty() + o.interned =~= o.interned);
    if let DecodedSeq::Values { terms, used } = o.decoded {
        assert(Seq::<SpecTerm>::empty() + terms =~= terms);
    }
}

/// The fields of a fun that come before its free variables.
pub struct FunHead {
    pub size: nat,
    pub arity: u8,
    pub unique: Seq<u8>,
    pub index: u32,
    pub num_free: nat,
    pub module: Seq<u8>,
    pub old_unique: u32,
    pub creator: SpecTerm,
    pub used: nat,
}

/// What decoding the head of a fun yields.
pub enum DecodedHead {
    Head { head: FunHead },
    Badarg,
    Panic,
}

/// The head of a fun and the names of the atoms created decoding it.
pub struct HeadOutcome {
    pub decoded: DecodedHead,
    pub interned: Set<Seq<u8>>,
}

/// The head of a fun after its tag: size, arity, unique bytes, index, number of free
/// variables, module, old index, old unique and creator pid. A decoder asserts that
/// the old index is the index; where it fails it panics.
#[verifier::opaque]
pub open spec fn spec_fun_head(s: Seq<u8>, ex: Option<Set<Seq<u8>>>) -> HeadOutcome {
    if s.len() < NEW_FUN_HEADER_LEN {
        HeadOutcome { decoded: DecodedHead::Badarg, interned: Set::empty() }
    } else {
        let m = spec_atom_tagged(s.skip(29), ex);
        match m.decoded {
            None => HeadOutcome { decoded: DecodedHead::Badarg, interned: m.interned },
            Some((module, u1)) => {
                let p1 = 29 + u1;
                match spec_tagged_isize(s.skip(p1 as int)) {
                    None => HeadOutcome { decoded: DecodedHead::Badarg, interned: m.interned },
                    Some((old_index, u2)) => if old_index != ((be_u32(s.subrange(21, 25)) as u32) as isize) as int {
                        HeadOutcome { decoded: DecodedHead::Panic, interned: m.interned }
                    } else {
                        let p2 = p1 + u2;
                        match spec_tagged_isize(s.skip(p2 as int)) {
                            None => HeadOutcome { decoded: DecodedHead::Badarg, interned: m.interned },
                            Some((old_unique, u3)) => {
                                let p3 = p2 + u3;
                                let c = spec_pid_tagged(s.skip(p3 as int), ex);
                                match c.decoded {
                                    Decoded::Value { term: creator, used: u4 } => HeadOutcome {
                                        decoded: DecodedHead::Head {
                                            head: FunHead {
                                                size: be_u32(s),
                                                arity: s[4],
                                                unique: s.subrange(5, 21),
                                                index: be_u32(s.subrange(21, 25)) as u32,
                                                num_free: be_u32(s.subrange(25, 29)),
                                                module,
                                                old_unique: old_unique as u32,
                                                creator,
                                                used: p3 + u4,
                                            },
                                        },
                                        interned: m.interned + c.interned,
                                    },
                                    _ => HeadOutcome {
                                        decoded: DecodedHead::Badarg,
                                        interned: m.interned + c.interned,
                                    },
                                }
                            },
                        }
                    },
                }
            },
        }
    }
}

/// A fun after its tag: its head, then its free variables. A decoder asserts that
/// the size is the number of bytes used; where it fails it panics.
pub open spec fn spec_new_fun(s: Seq<u8>, ex: Option<Set<Seq<u8>>>) -> Outcome
    decreases s.len(), 2nat, 0nat,
{
    let h = spec_fun_head(s, ex);
    match h.decoded {
        DecodedHead::Head { head } => {
            proof {
                lemma_fun_head_used(s, ex);
            }
            let env = spec_decode_terms(s.skip(head.used as int), head.num_free, ex);
            let interned = h.interned + env.interned;
            match env.decoded {
                DecodedSeq::Values { terms, used } => if head.used + used != head.size {
                    Outcome { decoded: Decoded::Panic, interned }
                } else {
                    decoded(
                        SpecTerm::Closure {
                            module: head.module,
                            index: head.index,
                            old_unique: head.old_unique,
                            unique: head.unique,
                            arity: head.arity,
                            creator: Box::new(head.creator),
                            env: terms,
                        },
                        head.used + used,
                        interned,
                    )
                },
                DecodedSeq::Badarg => badarg(interned),
                DecodedSeq::Panic => Outcome { decoded: Decoded::Panic, interned },
            }
        },
        DecodedHead::Badarg => badarg(h.interned),
        DecodedHead::Panic => Outcome { decoded: Decoded::Panic, interned: h.interned },
    }
}

/// Decoding `n` terms yields `n` terms.
pub proof fn lemma_decode_terms_len(s: Seq<u8>, n: nat, ex: Option<Set<Seq<u8>>>)
    ensures
        spec_decode_terms(s, n, ex).decoded matches DecodedSeq::Values { terms, used } ==> terms.len()
            == n,
    decreases n,
{
    if n > 0 {
        let first = spec_decode_tagged(s, ex);
        if let Decoded::Value { term, used } = first.decoded {
            if used <= s.len() {
                lemma_decode_terms_len(s.skip(used as int), (n - 1) as nat, ex);
            }
        }
    }
}

/// The head of a fun uses at most the bytes it is given.
pub proof fn lemma_fun_head_used(s: Seq<u8>, ex: Option<Set<Seq<u8>>>)
    ensures
        spec_fun_head(s, ex).decoded matches DecodedHead::Head { head } ==> 0 < head.used <= s.len(),
{
    reveal(spec_fun_head);
    if s.len() >= NEW_FUN_HEADER_LEN {
        lemma_atom_tagged_used(s.skip(29), ex);
        if let Some((module, u1)) = spec_atom_tagged(s.skip(29), ex).decoded {
            lemma_tagged_isize_used(s.skip((29 + u1) as int));
            if let Some((oi, u2)) = spec_tagged_isize(s.skip((29 + u1) as int)) {
                lemma_tagged_isize_used(s.skip((29 + u1 + u2) as int));
                if let Some((ou, u3)) = spec_tagged_isize(s.skip((29 + u1 + u2) as int)) {
                    lemma_pid_tagged_used(s.skip((29 + u1 + u2 + u3) as int), ex);
                }
            }
        }
    }
}

/// `res` is what the atom outcome `o` of decoding `bytes` says: the name and the
/// bytes after the ones used, or `badarg`.
pub open spec fn atom_holds<'a>(
    o: AtomOutcome,
    bytes: Seq<u8>,
    res: Result<(Vec<u8>, &'a [u8]), Exception>,
) -> bool {
    match o.decoded {
        Some((name, used)) => res matches Ok((n, rest)) && n@ == name && used <= bytes.len()
            && rest@ == bytes.skip(used as int),
        None => res matches Err(e) && e == Exception::Badarg,
    }
}

/// `res` is what the outcome `o` of decoding `bytes` says: the term and the bytes
/// after the ones used, or `badarg`; never a panic.
pub open spec fn term_holds<'a>(o: Outcome, bytes: Seq<u8>, res: Result<(Term, &'a [u8]), Exception>) -> bool {
    match o.decoded {
        Decoded::Value { term, used } => res matches Ok((t, rest)) && t@ == term && used
            <= bytes.len() && rest@ == bytes.skip(used as int),
        Decoded::Badarg => res matches Err(e) && e == Exception::Badarg,
        Decoded::Panic => false,
    }
}

/// Why a decoder that may meet a failed assertion gave no term: a `badarg`, or an
/// assertion of the decoder that does not hold (where the runtime panics).
#[derive(Debug, Clone, Copy, PartialEq, Eq)]
pub enum DecodeError {
    Badarg,
    Assertion,
}

/// `res` is what the outcome `o` of decoding `bytes` says: the term and the bytes
/// after the ones used, `badarg`, or a failed assertion.
pub open spec fn decoded_holds<'a>(o: Outcome, bytes: Seq<u8>, res: Result<(Term, &'a [u8]), DecodeError>) -> bool {
    match o.decoded {
        Decoded::Value { term, used } => res matches Ok((t, rest)) && t@ == term && used
            <= bytes.len() && rest@ == bytes.skip(used as int),
        Decoded::Badarg => res == Err::<(Term, &'a [u8]), DecodeError>(DecodeError::Badarg),
        Decoded::Panic => res == Err::<(Term, &'a [u8]), DecodeError>(DecodeError::Assertion),
    }
}

/// `res` is what the outcome `o` of decoding several terms from `bytes` says, a
/// failed assertion included.
pub open spec fn decoded_seq_holds<'a>(
    o: SeqOutcome,
    bytes: Seq<u8>,
    res: Result<(Vec<Term>, &'a [u8]), DecodeError>,
) -> bool {
    match o.decoded {
        DecodedSeq::Values { terms, used } => res matches Ok((ts, rest)) && crate::term::models(ts@)
            == terms && used <= bytes.len() && rest@ == bytes.skip(used as int),
        DecodedSeq::Badarg => res == Err::<(Vec<Term>, &'a [u8]), DecodeError>(DecodeError::Badarg),
        DecodedSeq::Panic => res == Err::<(Vec<Term>, &'a [u8]), DecodeError>(DecodeError::Assertion),
    }
}

/// `res` is what the outcome `o` of decoding several terms from `bytes` says.
pub open spec fn terms_hold<'a>(
    o: SeqOutcome,
    bytes: Seq<u8>,
    res: Result<(Vec<Term>, &'a [u8]), Exception>,
) -> bool {
    match o.decoded {
        DecodedSeq::Values { terms, used } => res matches Ok((ts, rest)) && crate::term::models(ts@)
            == terms && used <= bytes.len() && rest@ == bytes.skip(used as int),
        DecodedSeq::Badarg => res matches Err(e) && e == Exception::Badarg,
        DecodedSeq::Panic => false,
    }
}

/// An atom decoder uses at most the bytes it is given.
pub proof fn lemma_atom_tagged_used(s: Seq<u8>, ex: Option<Set<Seq<u8>>>)
    ensures
        spec_atom_tagged(s, ex).decoded matches Some((name, used)) ==> 0 < used <= s.len(),
{
}

/// An integer decoder uses at most the bytes it is given.
pub proof fn lemma_tagged_isize_used(s: Seq<u8>)
    ensures
        spec_tagged_isize(s) matches Some((v, used)) ==> 0 < used <= s.len(),
{
}

/// A pid decoder uses at most the bytes it is given.
pub proof fn lemma_pid_tagged_used(s: Seq<u8>, ex: Option<Set<Seq<u8>>>)
    ensures
        spec_pid_tagged(s, ex).decoded matches Decoded::Value { term, used } ==> 0 < used <= s.len(),
{
    reveal(spec_pid_tagged);
    lemma_atom_tagged_used(s.skip(1), ex);
}

} // verus!
