//! Erlang terms as values of the library: the executable `Term`, its mathematical
//! model `SpecTerm`, and the constructors that the runtime functions use.
use vstd::prelude::*;

verus! {

/// The exception that a native function raises (an Erlang `error` exception).
#[derive(Debug, Clone, Copy, PartialEq, Eq)]
pub enum Exception {
    /// `badarg`: an argument has the wrong type or value.
    Badarg,
}

/// The node of a pid that lives on another node.
#[derive(Debug, Clone, PartialEq, Eq)]
pub struct Node {
    pub name: Vec<u8>,
    pub creation: u32,
}

/// An Erlang term.
///
/// Integers are kept in a canonical sign-and-magnitude form: `magnitude` holds the
/// absolute value as little-endian base-256 digits without trailing zero digits,
/// and zero is never negative. Floats are kept as their IEEE 754 bit pattern.
/// Atom names are UTF-8 bytes. A bit string of whole bytes is a `Binary`; a
/// `BitString` is one whose length is not a whole number of bytes: `trailing_bits`,
/// from 1 to 7, is the number of bits it uses of its last byte, which keeps them at
/// its high end and zero bits below. A reference is named by the scheduler that
/// made it and its number there, a port by its number; those of another node also
/// carry the node. A map holds its keys, in ascending map-key order (the term order
/// with integers before floats of the same value) and without repeats, and the
/// value of each key at the same index.
#[derive(Debug, PartialEq, Eq)]
pub enum Term {
    Integer { negative: bool, magnitude: Vec<u8> },
    Float { bits: u64 },
    Atom { name: Vec<u8> },
    LocalReference { scheduler_id: u64, number: u64 },
    ExternalReference { node: Node, scheduler_id: u64, number: u64 },
    LocalPort { number: u64 },
    ExternalPort { node: Node, number: u64 },
    LocalPid { number: u32, serial: u32 },
    ExternalPid { node: Node, number: u32, serial: u32 },
    Export { module: Vec<u8>, function: Vec<u8>, arity: u8 },
    Closure {
        module: Vec<u8>,
        index: u32,
        old_unique: u32,
        unique: Vec<u8>,
        arity: u8,
        creator: Box<Term>,
        env: Vec<Term>,
    },
    Tuple { elements: Vec<Term> },
    ErlangMap { keys: Vec<Term>, values: Vec<Term> },
    Nil,
    Cons { head: Box<Term>, tail: Box<Term> },
    Binary { bytes: Vec<u8> },
    BitString { bytes: Vec<u8>, trailing_bits: u8 },
}

/// The mathematical model of a `Term`: the same shape, with sequences in place of vectors.
pub enum SpecTerm {
    Integer { negative: bool, magnitude: Seq<u8> },
    Float { bits: u64 },
    Atom { name: Seq<u8> },
    LocalReference { scheduler_id: u64, number: u64 },
    ExternalReference { node: Seq<u8>, creation: u32, scheduler_id: u64, number: u64 },
    LocalPort { number: u64 },
    ExternalPort { node: Seq<u8>, creation: u32, number: u64 },
    LocalPid { number: u32, serial: u32 },
    ExternalPid { node: Seq<u8>, creation: u32, number: u32, serial: u32 },
    Export { module: Seq<u8>, function: Seq<u8>, arity: u8 },
    Closure {
        module: Seq<u8>,
        index: u32,
        old_unique: u32,
        unique: Seq<u8>,
        arity: u8,
        creator: Box<SpecTerm>,
        env: Seq<SpecTerm>,
    },
    Tuple { elements: Seq<SpecTerm> },
    ErlangMap { keys: Seq<SpecTerm>, values: Seq<SpecTerm> },
    Nil,
    Cons { head: Box<SpecTerm>, tail: Box<SpecTerm> },
    Binary { bytes: Seq<u8> },
    BitString { bytes: Seq<u8>, trailing_bits: u8 },
}

impl Term {
    /// The model of a term.
    pub open spec fn model(self) -> SpecTerm
        decreases self,
    {
        match self {
            Term::Integer { negative, magnitude } => SpecTerm::Integer {
                negative,
                magnitude: magnitude@,
            },
            Term::Float { bits } => SpecTerm::Float { bits },
            Term::Atom { name } => SpecTerm::Atom { name: name@ },
            Term::LocalReference { scheduler_id, number } => SpecTerm::LocalReference {
                scheduler_id,
                number,
            },
            Term::ExternalReference { node, scheduler_id, number } => SpecTerm::ExternalReference {
                node: node.name@,
                creation: node.creation,
                scheduler_id,
                number,
            },
            Term::LocalPort { number } => SpecTerm::LocalPort { number },
            Term::ExternalPort { node, number } => SpecTerm::ExternalPort {
                node: node.name@,
                creation: node.creation,
                number,
            },
            Term::LocalPid { number, serial } => SpecTerm::LocalPid { number, serial },
            Term::ExternalPid { node, number, serial } => SpecTerm::ExternalPid {
                node: node.name@,
                creation: node.creation,
                number,
                serial,
            },
            Term::Export { module, function, arity } => SpecTerm::Export {
                module: module@,
                function: function@,
                arity,
            },
            Term::Closure { module, index, old_unique, unique, arity, creator, env } =>
                SpecTerm::Closure {
                module: module@,
                index,
                old_unique,
                unique: unique@,
                arity,
                creator: Box::new(creator.model()),
                env: Seq::new(
                    env.len() as nat,
                    |i: int|
                        if 0 <= i < env.len() {
                            env@[i].model()
                        } else {
                            SpecTerm::Nil
                        },
                ),
            },
            Term::Tuple { elements } => SpecTerm::Tuple {
                elements: Seq::new(
                    elements.len() as nat,
                    |i: int|
                        if 0 <= i < elements.len() {
                            elements@[i].model()
                        } else {
                            SpecTerm::Nil
                        },
                ),
            },
            Term::ErlangMap { keys, values } => SpecTerm::ErlangMap {
                keys: Seq::new(
                    keys.len() as nat,
                    |i: int|
                        if 0 <= i < keys.len() {
                            keys@[i].model()
                        } else {
                            SpecTerm::Nil
                        },
                ),
                values: Seq::new(
                    values.len() as nat,
                    |i: int|
                        if 0 <= i < values.len() {
                            values@[i].model()
                        } else {
                            SpecTerm::Nil
                        },
                ),
            },
            Term::Nil => SpecTerm::Nil,
            Term::Cons { head, tail } => SpecTerm::Cons {
                head: Box::new(head.model()),
                tail: Box::new(tail.model()),
            },
            Term::Binary { bytes } => SpecTerm::Binary { bytes: bytes@ },
            Term::BitString { bytes, trailing_bits } => SpecTerm::BitString { bytes: bytes@, trailing_bits },
        }
    }
}

impl View for Term {
    type V = SpecTerm;

    open spec fn view(&self) -> SpecTerm {
        self.model()
    }
}

/// The models of a sequence of terms.
pub open spec fn models(terms: Seq<Term>) -> Seq<SpecTerm> {
    Seq::new(terms.len(), |i: int| terms[i].model())
}

/// The model of a tuple is the tuple of the models of its elements.
pub proof fn lemma_tuple_model(elements: Vec<Term>)
    ensures
        (Term::Tuple { elements }).model() == (SpecTerm::Tuple { elements: models(elements@) }),
{
    assert((Term::Tuple { elements }).model()->Tuple_elements =~= models(elements@));
}

/// The model of a map holds the models of its keys and of its values.
pub proof fn lemma_map_model(t: &Term)
    ensures
        t matches Term::ErlangMap { keys, values } ==> t@ == (SpecTerm::ErlangMap {
            keys: models(keys@),
            values: models(values@),
        }),
{
    if let Term::ErlangMap { keys, values } = t {
        assert(t@->ErlangMap_keys =~= models(keys@));
        assert(t@->ErlangMap_values =~= models(values@));
    }
}

/// The model of a fun's free variables are the models of the free variables.
pub proof fn lemma_closure_env_model(t: &Term)
    requires
        t is Closure,
    ensures
        t@->Closure_env == models(t->Closure_env@),
{
    assert(t@->Closure_env =~= models(t->Closure_env@));
}

/// Little-endian base-256 digits of a natural number, without trailing zeros.
pub open spec fn le_digits(n: nat) -> Seq<u8>
    decreases n,
{
    if n == 0 {
        Seq::empty()
    } else {
        seq![(n % 256) as u8] + le_digits(n / 256)
    }
}

/// The absolute value of an integer.
pub open spec fn abs(i: int) -> nat {
    if i < 0 {
        (-i) as nat
    } else {
        i as nat
    }
}

/// The canonical model of the integer `i`.
pub open spec fn spec_integer(i: int) -> SpecTerm {
    SpecTerm::Integer { negative: i < 0, magnitude: le_digits(abs(i)) }
}

/// The integer term whose absolute value is `magnitude`, negative when `negative`
/// holds and `magnitude` is not zero.
pub fn integer_from_sign_magnitude(negative: bool, magnitude: u128) -> (t: Term)
    ensures
        t@ == spec_integer(if negative { -(magnitude as int) } else { magnitude as int }),
{
    let mut digits: Vec<u8> = Vec::new();
    let mut x: u128 = magnitude;
    while x > 0
        invariant
            digits@ + le_digits(x as nat) == le_digits(magnitude as nat),
        decreases x,
    {
        let ghost before = digits@;
        digits.push((x % 256) as u8);
        proof {
            assert(le_digits(x as nat) == seq![(x % 256) as u8] + le_digits((x / 256) as nat));
            assert(digits@ + le_digits((x / 256) as nat) =~= before + le_digits(x as nat));
        }
        x = x / 256;
    }
    assert(digits@ =~= le_digits(magnitude as nat));
    Term::Integer { negative: negative && magnitude > 0, magnitude: digits }
}

/// The integer term of an unsigned 128-bit value.
pub fn integer_from_u128(u: u128) -> (t: Term)
    ensures
        t@ == spec_integer(u as int),
{
    integer_from_sign_magnitude(false, u)
}

/// The integer term of a signed 128-bit value.
pub fn integer_from_i128(i: i128) -> (t: Term)
    ensures
        t@ == spec_integer(i as int),
{
    if i < 0 {
        let magnitude: u128 = ((-(i + 1)) as u128) + 1;
        integer_from_sign_magnitude(true, magnitude)
    } else {
        integer_from_sign_magnitude(false, i as u128)
    }
}

/// The integer term of an unsigned 64-bit value.
pub fn integer_from_u64(u: u64) -> (t: Term)
    ensures
        t@ == spec_integer(u as int),
{
    integer_from_sign_magnitude(false, u as u128)
}

/// The integer term of a signed 64-bit value.
pub fn integer_from_i64(i: i64) -> (t: Term)
    ensures
        t@ == spec_integer(i as int),
{
    integer_from_i128(i as i128)
}

/// The largest number of a local pid.
pub const NUMBER_MAX: u32 = 0x7fff;

/// The largest serial of a local pid.
pub const SERIAL_MAX: u32 = 0x1fff;

/// A pid of the local node, refused when `number` or `serial` is out of range.
pub fn make_pid(number: u32, serial: u32) -> (res: Result<Term, Exception>)
    ensures
        number <= NUMBER_MAX && serial <= SERIAL_MAX ==> (res matches Ok(t) && t@ == (
        SpecTerm::LocalPid { number, serial })),
        !(number <= NUMBER_MAX && serial <= SERIAL_MAX) ==> res == Err::<Term, Exception>(
            Exception::Badarg,
        ),
{
    if number <= NUMBER_MAX && serial <= SERIAL_MAX {
        Ok(Term::LocalPid { number, serial })
    } else {
        Err(Exception::Badarg)
    }
}

/// The list `[elements... | tail]`.
pub open spec fn spec_list(elements: Seq<SpecTerm>, tail: SpecTerm) -> SpecTerm
    decreases elements.len(),
{
    if elements.len() == 0 {
        tail
    } else {
        spec_list(
            elements.drop_last(),
            SpecTerm::Cons { head: Box::new(elements.last()), tail: Box::new(tail) },
        )
    }
}

/// Builds the list `[elements... | tail]`.
pub fn list_from_vec(elements: Vec<Term>, tail: Term) -> (t: Term)
    ensures
        t@ == spec_list(models(elements@), tail@),
{
    let mut elements = elements;
    let mut list = tail;
    let ghost target = spec_list(models(elements@), tail@);
    while elements.len() > 0
        invariant
            spec_list(models(elements@), list@) == target,
        decreases elements.len(),
    {
        let ghost before = elements@;
        let last = elements.pop().unwrap();
        proof {
            assert(models(before).drop_last() =~= models(elements@));
        }
        list = Term::Cons { head: Box::new(last), tail: Box::new(list) };
    }
    list
}

/// Whether the list `list` has the atom named `name` among its elements.
pub open spec fn list_has_atom(list: SpecTerm, name: Seq<u8>) -> bool
    decreases list,
{
    match list {
        SpecTerm::Cons { head, tail } => *head == (SpecTerm::Atom { name }) || list_has_atom(*tail, name),
        _ => false,
    }
}

/// Whether `list` is a proper list whose elements are all atoms named `n1` or `n2`.
pub open spec fn list_of_atoms_named(list: SpecTerm, n1: Seq<u8>, n2: Seq<u8>) -> bool
    decreases list,
{
    match list {
        SpecTerm::Nil => true,
        SpecTerm::Cons { head, tail } => (*head == (SpecTerm::Atom { name: n1 }) || *head == (
        SpecTerm::Atom { name: n2 })) && list_of_atoms_named(*tail, n1, n2),
        _ => false,
    }
}

} // verus!
