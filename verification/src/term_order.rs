//! The order of terms: number < atom < reference < fun < port < pid < tuple < map <
//! nil < list < bit string. Numbers compare by value; atoms by their names; tuples by
//! size, then element by element; maps by size, then their keys in map-key order,
//! then their values; lists element by element; bit strings bit by bit, a prefix
//! before the longer bit string. References, ports and pids of the local node come
//! before those of other nodes. The exact order, used for map keys, puts an integer
//! before a float of the same value.
use vstd::prelude::*;
use crate::digits::{order_ints, reverse, Order};
use crate::numbers::{compare_numbers, number_value, order_numbers};
use crate::term::{SpecTerm, Term};

verus! {

/// The position of a term's type in the order of types.
pub open spec fn rank(t: SpecTerm) -> int {
    match t {
        SpecTerm::Integer { .. } => 0,
        SpecTerm::Float { .. } => 0,
        SpecTerm::Atom { .. } => 1,
        SpecTerm::LocalReference { .. } => 2,
        SpecTerm::ExternalReference { .. } => 2,
        SpecTerm::Closure { .. } => 3,
        SpecTerm::Export { .. } => 3,
        SpecTerm::LocalPort { .. } => 4,
        SpecTerm::ExternalPort { .. } => 4,
        SpecTerm::LocalPid { .. } => 5,
        SpecTerm::ExternalPid { .. } => 5,
        SpecTerm::Tuple { .. } => 6,
        SpecTerm::ErlangMap { .. } => 7,
        SpecTerm::Nil => 8,
        SpecTerm::Cons { .. } => 9,
        SpecTerm::Binary { .. } => 10,
        SpecTerm::BitString { .. } => 10,
    }
}

/// `first`, unless it is `Equal`; then `second`.
pub open spec fn then(first: Order, second: Order) -> Order {
    if first == Order::Equal {
        second
    } else {
        first
    }
}

/// Byte sequences compared from index `i` on, byte by byte; a prefix before the
/// longer sequence.
pub open spec fn compare_bytes(x: Seq<u8>, y: Seq<u8>, i: int) -> Order
    decreases x.len() - i,
{
    if i < 0 || i >= x.len() || i >= y.len() {
        order_ints(x.len() as int, y.len() as int)
    } else if x[i] != y[i] {
        order_ints(x[i] as int, y[i] as int)
    } else {
        compare_bytes(x, y, i + 1)
    }
}

/// The weight of the bit at position `k` (0 the highest) of a byte.
pub open spec fn bit_weight(k: u8) -> u8 {
    if k == 0 {
        128
    } else if k == 1 {
        64
    } else if k == 2 {
        32
    } else if k == 3 {
        16
    } else if k == 4 {
        8
    } else if k == 5 {
        4
    } else if k == 6 {
        2
    } else {
        1
    }
}

/// Bit `i` of `bytes`, the highest bit of each byte first.
pub open spec fn bit_at(bytes: Seq<u8>, i: int) -> u8 {
    ((bytes[i / 8] / bit_weight((i % 8) as u8)) % 2) as u8
}

/// The bytes of a bit string.
pub open spec fn bitstring_bytes(t: SpecTerm) -> Seq<u8> {
    match t {
        SpecTerm::Binary { bytes } => bytes,
        SpecTerm::BitString { bytes, .. } => bytes,
        _ => Seq::empty(),
    }
}

/// The number of bits of a bit string.
pub open spec fn bit_count(t: SpecTerm) -> int {
    match t {
        SpecTerm::Binary { bytes } => 8 * bytes.len() as int,
        SpecTerm::BitString { bytes, trailing_bits } => if bytes.len() == 0 {
            0
        } else if trailing_bits >= 8 {
            8 * bytes.len() as int
        } else {
            8 * (bytes.len() - 1) + trailing_bits
        },
        _ => 0,
    }
}

/// Bit sequences compared from bit `i` on, bit by bit; a prefix before the longer.
pub open spec fn compare_bits(a: Seq<u8>, la: int, b: Seq<u8>, lb: int, i: int) -> Order
    decreases la - i,
{
    if i < 0 || i >= la || i >= lb {
        order_ints(la, lb)
    } else if bit_at(a, i) != bit_at(b, i) {
        order_ints(bit_at(a, i) as int, bit_at(b, i) as int)
    } else {
        compare_bits(a, la, b, lb, i + 1)
    }
}

/// In the exact order, an integer comes before a float of the same value.
pub open spec fn number_kind(t: SpecTerm) -> int {
    if t is Float {
        1
    } else {
        0
    }
}

/// How two numbers compare: by value, and in the exact order an integer before a
/// float of the same value.
pub open spec fn order_numbers_in(a: SpecTerm, b: SpecTerm, exact: bool) -> Order {
    if exact {
        then(order_numbers(a, b), order_ints(number_kind(a), number_kind(b)))
    } else {
        order_numbers(a, b)
    }
}

/// How term `a` compares to term `b` in the term order (`exact` false) or in the
/// exact order (`exact` true).
pub open spec fn order_terms(a: SpecTerm, b: SpecTerm, exact: bool) -> Order
    decreases a, 0int,
{
    if rank(a) != rank(b) {
        order_ints(rank(a), rank(b))
    } else {
        match a {
            SpecTerm::Integer { .. } => order_numbers_in(a, b, exact),
            SpecTerm::Float { .. } => order_numbers_in(a, b, exact),
            SpecTerm::Atom { name: n1 } => match b {
                SpecTerm::Atom { name: n2 } => compare_bytes(n1, n2, 0),
                _ => Order::Equal,
            },
            SpecTerm::Closure { module: m1, index: i1, old_unique: u1, env: e1, .. } => match b {
                SpecTerm::Closure { module: m2, index: i2, old_unique: u2, env: e2, .. } => then(
                    compare_bytes(m1, m2, 0),
                    then(
                        order_ints(i1 as int, i2 as int),
                        then(
                            order_ints(u1 as int, u2 as int),
                            then(order_ints(e1.len() as int, e2.len() as int), order_term_seqs(e1, e2, 0, exact)),
                        ),
                    ),
                ),
                _ => Order::Less,
            },
            SpecTerm::Export { module: m1, function: f1, arity: a1 } => match b {
                SpecTerm::Export { module: m2, function: f2, arity: a2 } => then(
                    compare_bytes(m1, m2, 0),
                    then(compare_bytes(f1, f2, 0), order_ints(a1 as int, a2 as int)),
                ),
                _ => Order::Greater,
            },
            SpecTerm::LocalReference { scheduler_id: s1, number: n1 } => match b {
                SpecTerm::LocalReference { scheduler_id: s2, number: n2 } => then(
                    order_ints(s1 as int, s2 as int),
                    order_ints(n1 as int, n2 as int),
                ),
                _ => Order::Less,
            },
            SpecTerm::ExternalReference { node: d1, creation: c1, scheduler_id: s1, number: n1 } => match b {
                SpecTerm::ExternalReference { node: d2, creation: c2, scheduler_id: s2, number: n2 } => then(
                    compare_bytes(d1, d2, 0),
                    then(
                        order_ints(c1 as int, c2 as int),
                        then(order_ints(s1 as int, s2 as int), order_ints(n1 as int, n2 as int)),
                    ),
                ),
                _ => Order::Greater,
            },
            SpecTerm::LocalPort { number: n1 } => match b {
                SpecTerm::LocalPort { number: n2 } => order_ints(n1 as int, n2 as int),
                _ => Order::Less,
            },
            SpecTerm::ExternalPort { node: d1, creation: c1, number: n1 } => match b {
                SpecTerm::ExternalPort { node: d2, creation: c2, number: n2 } => then(
                    compare_bytes(d1, d2, 0),
                    then(order_ints(c1 as int, c2 as int), order_ints(n1 as int, n2 as int)),
                ),
                _ => Order::Greater,
            },
            SpecTerm::LocalPid { number: n1, serial: s1 } => match b {
                SpecTerm::LocalPid { number: n2, serial: s2 } => then(
                    order_ints(s1 as int, s2 as int),
                    order_ints(n1 as int, n2 as int),
                ),
                _ => Order::Less,
            },
            SpecTerm::ExternalPid { node: d1, creation: c1, number: n1, serial: s1 } => match b {
                SpecTerm::ExternalPid { node: d2, creation: c2, number: n2, serial: s2 } => then(
                    compare_bytes(d1, d2, 0),
                    then(
                        order_ints(c1 as int, c2 as int),
                        then(order_ints(s1 as int, s2 as int), order_ints(n1 as int, n2 as int)),
                    ),
                ),
                _ => Order::Greater,
            },
            SpecTerm::Tuple { elements: e1 } => match b {
                SpecTerm::Tuple { elements: e2 } => then(
                    order_ints(e1.len() as int, e2.len() as int),
                    order_term_seqs(e1, e2, 0, exact),
                ),
                _ => Order::Equal,
            },
            SpecTerm::ErlangMap { keys: k1, values: v1 } => match b {
                SpecTerm::ErlangMap { keys: k2, values: v2 } => then(
                    order_ints(k1.len() as int, k2.len() as int),
                    then(order_term_seqs(k1, k2, 0, true), order_term_seqs(v1, v2, 0, exact)),
                ),
                _ => Order::Equal,
            },
            SpecTerm::Nil => Order::Equal,
            SpecTerm::Cons { head: h1, tail: t1 } => match b {
                SpecTerm::Cons { head: h2, tail: t2 } => then(
                    order_terms(*h1, *h2, exact),
                    order_terms(*t1, *t2, exact),
                ),
                _ => Order::Equal,
            },
            SpecTerm::Binary { .. } => compare_bits(
                bitstring_bytes(a),
                bit_count(a),
                bitstring_bytes(b),
                bit_count(b),
                0,
            ),
            SpecTerm::BitString { .. } => compare_bits(
                bitstring_bytes(a),
                bit_count(a),
                bitstring_bytes(b),
                bit_count(b),
                0,
            ),
        }
    }
}

/// How term `a` compares to term `b` in the term order.
pub open spec fn compare_terms(a: SpecTerm, b: SpecTerm) -> Order {
    order_terms(a, b, false)
}

/// Term sequences compared from index `i` on, element by element; a prefix before
/// the longer sequence.
pub open spec fn order_term_seqs(s1: Seq<SpecTerm>, s2: Seq<SpecTerm>, i: int, exact: bool) -> Order
    decreases s1, s1.len() - i,
{
    if i < 0 || i >= s1.len() || i >= s2.len() {
        order_ints(s1.len() as int, s2.len() as int)
    } else {
        then(order_terms(s1[i], s2[i], exact), order_term_seqs(s1, s2, i + 1, exact))
    }
}

/// How byte sequences compare, byte by byte.
pub fn compare_byte_seqs(x: &[u8], y: &[u8]) -> (o: Order)
    ensures
        o == compare_bytes(x@, y@, 0),
{
    let mut i: usize = 0;
    while i < x.len() && i < y.len()
        invariant
            i <= x@.len(),
            compare_bytes(x@, y@, 0) == compare_bytes(x@, y@, i as int),
        decreases x@.len() - i,
    {
        if x[i] != y[i] {
            return if x[i] < y[i] {
                Order::Less
            } else {
                Order::Greater
            };
        }
        i = i + 1;
    }
    if x.len() < y.len() {
        Order::Less
    } else if x.len() == y.len() {
        Order::Equal
    } else {
        Order::Greater
    }
}

fn bit_weight_of(k: u8) -> (w: u8)
    ensures
        w == bit_weight(k),
{
    if k == 0 {
        128
    } else if k == 1 {
        64
    } else if k == 2 {
        32
    } else if k == 3 {
        16
    } else if k == 4 {
        8
    } else if k == 5 {
        4
    } else if k == 6 {
        2
    } else {
        1
    }
}

/// Bit `i` of `bytes`.
fn bit_of(bytes: &[u8], i: u128) -> (bit: u8)
    requires
        i / 8 < bytes@.len(),
    ensures
        bit == bit_at(bytes@, i as int),
{
    let byte = bytes[(i / 8) as usize];
    (byte / bit_weight_of((i % 8) as u8)) % 2
}

/// How the first `la` bits of `a` compare to the first `lb` bits of `b`.
fn compare_bit_seqs(a: &[u8], la: u128, b: &[u8], lb: u128) -> (o: Order)
    requires
        la <= 8 * a@.len(),
        lb <= 8 * b@.len(),
    ensures
        o == compare_bits(a@, la as int, b@, lb as int, 0),
{
    let mut i: u128 = 0;
    while i < la && i < lb
        invariant
            i <= la,
            la <= 8 * a@.len(),
            lb <= 8 * b@.len(),
            compare_bits(a@, la as int, b@, lb as int, 0) == compare_bits(a@, la as int, b@, lb as int, i as int),
        decreases la - i,
    {
        let x = bit_of(a, i);
        let y = bit_of(b, i);
        if x != y {
            return if x < y {
                Order::Less
            } else {
                Order::Greater
            };
        }
        i = i + 1;
    }
    if la < lb {
        Order::Less
    } else if la == lb {
        Order::Equal
    } else {
        Order::Greater
    }
}

/// The bytes and number of bits of a bit string term.
fn bits_of(t: &Term) -> (r: (&[u8], u128))
    requires
        rank(t@) == 10,
    ensures
        r.0@ == bitstring_bytes(t@),
        r.1 == bit_count(t@),
        r.1 <= 8 * r.0@.len(),
{
    match t {
        Term::Binary { bytes } => (bytes.as_slice(), 8 * (bytes.len() as u128)),
        Term::BitString { bytes, trailing_bits } => {
            let n = if bytes.len() == 0 {
                0
            } else if *trailing_bits >= 8 {
                8 * (bytes.len() as u128)
            } else {
                8 * ((bytes.len() - 1) as u128) + (*trailing_bits as u128)
            };
            (bytes.as_slice(), n)
        },
        _ => {
            proof {
                assert(false);
            }
            (&[], 0)
        },
    }
}

/// The position of a term's type in the order of types.
fn rank_of(t: &Term) -> (r: u8)
    ensures
        r == rank(t@),
{
    match t {
        Term::Integer { .. } => 0,
        Term::Float { .. } => 0,
        Term::Atom { .. } => 1,
        Term::LocalReference { .. } => 2,
        Term::ExternalReference { .. } => 2,
        Term::Closure { .. } => 3,
        Term::Export { .. } => 3,
        Term::LocalPort { .. } => 4,
        Term::ExternalPort { .. } => 4,
        Term::LocalPid { .. } => 5,
        Term::ExternalPid { .. } => 5,
        Term::Tuple { .. } => 6,
        Term::ErlangMap { .. } => 7,
        Term::Nil => 8,
        Term::Cons { .. } => 9,
        Term::Binary { .. } => 10,
        Term::BitString { .. } => 10,
    }
}

fn order_of(a: u32, b: u32) -> (o: Order)
    ensures
        o == order_ints(a as int, b as int),
{
    if a < b {
        Order::Less
    } else if a == b {
        Order::Equal
    } else {
        Order::Greater
    }
}

fn order_of_u64(a: u64, b: u64) -> (o: Order)
    ensures
        o == order_ints(a as int, b as int),
{
    if a < b {
        Order::Less
    } else if a == b {
        Order::Equal
    } else {
        Order::Greater
    }
}

/// How two numbers compare, in the term order or the exact order.
fn compare_numbers_in(a: &Term, b: &Term, exact: bool) -> (o: Order)
    requires
        crate::numbers::is_number(a@),
        crate::numbers::is_number(b@),
    ensures
        o == order_numbers_in(a@, b@, exact),
{
    let o = compare_numbers(a, b);
    if exact && o == Order::Equal {
        let ka: u32 = match a {
            Term::Float { .. } => 1,
            _ => 0,
        };
        let kb: u32 = match b {
            Term::Float { .. } => 1,
            _ => 0,
        };
        order_of(ka, kb)
    } else {
        o
    }
}

/// How term sequences compare from index `i` on, element by element.
fn compare_term_vecs(e1: &Vec<Term>, e2: &Vec<Term>, exact: bool) -> (o: Order)
    ensures
        o == order_term_seqs(crate::term::models(e1@), crate::term::models(e2@), 0, exact),
    decreases e1, 1nat,
{
    let ghost s1 = crate::term::models(e1@);
    let ghost s2 = crate::term::models(e2@);
    let mut i: usize = 0;
    while i < e1.len() && i < e2.len()
        invariant
            i <= e1@.len(),
            s1 == crate::term::models(e1@),
            s2 == crate::term::models(e2@),
            order_term_seqs(s1, s2, 0, exact) == order_term_seqs(s1, s2, i as int, exact),
        decreases e1@.len() - i,
    {
        assert(decreases_to!(e1 => e1@[i as int]));
        let o = compare_in(&e1[i], &e2[i], exact);
        match o {
            Order::Equal => {},
            _ => {
                return o;
            },
        }
        i = i + 1;
    }
    if e1.len() < e2.len() {
        Order::Less
    } else if e1.len() == e2.len() {
        Order::Equal
    } else {
        Order::Greater
    }
}

/// How term `a` compares to term `b`, in the term order or the exact order.
#[verifier::rlimit(60)]
#[verifier::spinoff_prover]
fn compare_in(a: &Term, b: &Term, exact: bool) -> (o: Order)
    ensures
        o == order_terms(a@, b@, exact),
    decreases a, 0nat,
{
    let ra = rank_of(a);
    let rb = rank_of(b);
    if ra != rb {
        return if ra < rb {
            Order::Less
        } else {
            Order::Greater
        };
    }
    match a {
        Term::Integer { .. } => compare_numbers_in(a, b, exact),
        Term::Float { .. } => compare_numbers_in(a, b, exact),
        Term::Atom { name: n1 } => match b {
            Term::Atom { name: n2 } => compare_byte_seqs(n1.as_slice(), n2.as_slice()),
            _ => Order::Equal,
        },
        Term::Closure { module: m1, index: i1, old_unique: u1, env: e1, .. } => match b {
            Term::Closure { module: m2, index: i2, old_unique: u2, env: e2, .. } => {
                proof {
                    crate::term::lemma_closure_env_model(a);
                    crate::term::lemma_closure_env_model(b);
                }
                match compare_byte_seqs(m1.as_slice(), m2.as_slice()) {
                    Order::Equal => {},
                    o => {
                        return o;
                    },
                }
                match order_of(*i1, *i2) {
                    Order::Equal => {},
                    o => {
                        return o;
                    },
                }
                match order_of(*u1, *u2) {
                    Order::Equal => {},
                    o => {
                        return o;
                    },
                }
                if e1.len() != e2.len() {
                    return if e1.len() < e2.len() {
                        Order::Less
                    } else {
                        Order::Greater
                    };
                }
                compare_term_vecs(e1, e2, exact)
            },
            _ => Order::Less,
        },
        Term::Export { module: m1, function: f1, arity: a1 } => match b {
            Term::Export { module: m2, function: f2, arity: a2 } => {
                match compare_byte_seqs(m1.as_slice(), m2.as_slice()) {
                    Order::Equal => {},
                    o => {
                        return o;
                    },
                }
                match compare_byte_seqs(f1.as_slice(), f2.as_slice()) {
                    Order::Equal => {},
                    o => {
                        return o;
                    },
                }
                order_of(*a1 as u32, *a2 as u32)
            },
            _ => Order::Greater,
        },
        Term::LocalReference { scheduler_id: s1, number: n1 } => match b {
            Term::LocalReference { scheduler_id: s2, number: n2 } => match order_of_u64(*s1, *s2) {
                Order::Equal => order_of_u64(*n1, *n2),
                o => o,
            },
            _ => Order::Less,
        },
        Term::ExternalReference { node: d1, scheduler_id: s1, number: n1 } => match b {
            Term::ExternalReference { node: d2, scheduler_id: s2, number: n2 } => {
                match compare_byte_seqs(d1.name.as_slice(), d2.name.as_slice()) {
                    Order::Equal => {},
                    o => {
                        return o;
                    },
                }
                match order_of(d1.creation, d2.creation) {
                    Order::Equal => {},
                    o => {
                        return o;
                    },
                }
                match order_of_u64(*s1, *s2) {
                    Order::Equal => order_of_u64(*n1, *n2),
                    o => o,
                }
            },
            _ => Order::Greater,
        },
        Term::LocalPort { number: n1 } => match b {
            Term::LocalPort { number: n2 } => order_of_u64(*n1, *n2),
            _ => Order::Less,
        },
        Term::ExternalPort { node: d1, number: n1 } => match b {
            Term::ExternalPort { node: d2, number: n2 } => {
                match compare_byte_seqs(d1.name.as_slice(), d2.name.as_slice()) {
                    Order::Equal => {},
                    o => {
                        return o;
                    },
                }
                match order_of(d1.creation, d2.creation) {
                    Order::Equal => order_of_u64(*n1, *n2),
                    o => o,
                }
            },
            _ => Order::Greater,
        },
        Term::LocalPid { number: n1, serial: s1 } => match b {
            Term::LocalPid { number: n2, serial: s2 } => match order_of(*s1, *s2) {
                Order::Equal => order_of(*n1, *n2),
                o => o,
            },
            _ => Order::Less,
        },
        Term::ExternalPid { node: d1, number: n1, serial: s1 } => match b {
            Term::ExternalPid { node: d2, number: n2, serial: s2 } => {
                match compare_byte_seqs(d1.name.as_slice(), d2.name.as_slice()) {
                    Order::Equal => {},
                    o => {
                        return o;
                    },
                }
                match order_of(d1.creation, d2.creation) {
                    Order::Equal => {},
                    o => {
                        return o;
                    },
                }
                match order_of(*s1, *s2) {
                    Order::Equal => order_of(*n1, *n2),
                    o => o,
                }
            },
            _ => Order::Greater,
        },
        Term::Tuple { elements: e1 } => match b {
            Term::Tuple { elements: e2 } => {
                proof {
                    crate::term::lemma_tuple_model(*e1);
                    crate::term::lemma_tuple_model(*e2);
                }
                if e1.len() != e2.len() {
                    return if e1.len() < e2.len() {
                        Order::Less
                    } else {
                        Order::Greater
                    };
                }
                compare_term_vecs(e1, e2, exact)
            },
            _ => Order::Equal,
        },
        Term::ErlangMap { keys: k1, values: v1 } => match b {
            Term::ErlangMap { keys: k2, values: v2 } => {
                proof {
                    crate::term::lemma_map_model(a);
                    crate::term::lemma_map_model(b);
                }
                if k1.len() != k2.len() {
                    return if k1.len() < k2.len() {
                        Order::Less
                    } else {
                        Order::Greater
                    };
                }
                match compare_term_vecs(k1, k2, true) {
                    Order::Equal => compare_term_vecs(v1, v2, exact),
                    o => o,
                }
            },
            _ => Order::Equal,
        },
        Term::Nil => Order::Equal,
        Term::Cons { head: h1, tail: t1 } => match b {
            Term::Cons { head: h2, tail: t2 } => match compare_in(h1, h2, exact) {
                Order::Equal => compare_in(t1, t2, exact),
                o => o,
            },
            _ => Order::Equal,
        },
        Term::Binary { .. } => {
            let (x, lx) = bits_of(a);
            let (y, ly) = bits_of(b);
            compare_bit_seqs(x, lx, y, ly)
        },
        Term::BitString { .. } => {
            let (x, lx) = bits_of(a);
            let (y, ly) = bits_of(b);
            compare_bit_seqs(x, lx, y, ly)
        },
    }
}

/// How term `a` compares to term `b`.
pub fn compare(a: &Term, b: &Term) -> (o: Order)
    ensures
        o == compare_terms(a@, b@),
{
    compare_in(a, b, false)
}

proof fn lemma_bytes_reflexive(x: Seq<u8>, i: int)
    ensures
        compare_bytes(x, x, i) == Order::Equal,
    decreases x.len() - i,
{
    if !(i < 0 || i >= x.len()) {
        lemma_bytes_reflexive(x, i + 1);
    }
}

proof fn lemma_bytes_antisymmetric(x: Seq<u8>, y: Seq<u8>, i: int)
    ensures
        compare_bytes(x, y, i) == reverse(compare_bytes(y, x, i)),
    decreases x.len() - i,
{
    if !(i < 0 || i >= x.len() || i >= y.len()) && x[i] == y[i] {
        lemma_bytes_antisymmetric(x, y, i + 1);
    }
}

proof fn lemma_bits_reflexive(a: Seq<u8>, la: int, i: int)
    ensures
        compare_bits(a, la, a, la, i) == Order::Equal,
    decreases la - i,
{
    if !(i < 0 || i >= la) {
        lemma_bits_reflexive(a, la, i + 1);
    }
}

proof fn lemma_bits_antisymmetric(a: Seq<u8>, la: int, b: Seq<u8>, lb: int, i: int)
    ensures
        compare_bits(a, la, b, lb, i) == reverse(compare_bits(b, lb, a, la, i)),
    decreases la - i,
{
    if !(i < 0 || i >= la || i >= lb) && bit_at(a, i) == bit_at(b, i) {
        lemma_bits_antisymmetric(a, la, b, lb, i + 1);
    }
}

/// Every term compares equal to itself, in either order.
proof fn lemma_reflexive_in(a: SpecTerm, exact: bool)
    ensures
        order_terms(a, a, exact) == Order::Equal,
    decreases a, 0int,
{
    match a {
        SpecTerm::Integer { .. } => {
            crate::digits::lemma_pow2_8(0);
            let n = crate::numbers::number_value(a).0;
            let p = vstd::arithmetic::power2::pow2(0);
            assert(n * p == n) by (nonlinear_arith)
                requires
                    p == 1,
            ;
        },
        SpecTerm::Float { .. } => {
            crate::digits::lemma_pow2_8(0);
            let n = crate::numbers::number_value(a).0;
            let p = vstd::arithmetic::power2::pow2(0);
            assert(n * p == n) by (nonlinear_arith)
                requires
                    p == 1,
            ;
        },
        SpecTerm::Atom { name } => lemma_bytes_reflexive(name, 0),
        SpecTerm::Closure { module, env, .. } => {
            lemma_bytes_reflexive(module, 0);
            lemma_seqs_reflexive(env, 0, exact);
        },
        SpecTerm::Export { module, function, .. } => {
            lemma_bytes_reflexive(module, 0);
            lemma_bytes_reflexive(function, 0);
        },
        SpecTerm::ExternalPid { node, .. } => lemma_bytes_reflexive(node, 0),
        SpecTerm::ExternalReference { node, .. } => lemma_bytes_reflexive(node, 0),
        SpecTerm::ExternalPort { node, .. } => lemma_bytes_reflexive(node, 0),
        SpecTerm::Tuple { elements } => lemma_seqs_reflexive(elements, 0, exact),
        SpecTerm::ErlangMap { keys, values } => {
            lemma_seqs_reflexive(keys, 0, true);
            lemma_seqs_reflexive(values, 0, exact);
        },
        SpecTerm::Cons { head, tail } => {
            lemma_reflexive_in(*head, exact);
            lemma_reflexive_in(*tail, exact);
        },
        SpecTerm::Binary { .. } => lemma_bits_reflexive(bitstring_bytes(a), bit_count(a), 0),
        SpecTerm::BitString { .. } => lemma_bits_reflexive(bitstring_bytes(a), bit_count(a), 0),
        _ => {},
    }
}

proof fn lemma_seqs_reflexive(s: Seq<SpecTerm>, i: int, exact: bool)
    ensures
        order_term_seqs(s, s, i, exact) == Order::Equal,
    decreases s, s.len() - i,
{
    if !(i < 0 || i >= s.len()) {
        lemma_reflexive_in(s[i], exact);
        lemma_seqs_reflexive(s, i + 1, exact);
    }
}

/// Comparing two terms the other way round gives the opposite order, in either order.
proof fn lemma_antisymmetric_in(a: SpecTerm, b: SpecTerm, exact: bool)
    ensures
        order_terms(a, b, exact) == reverse(order_terms(b, a, exact)),
    decreases a, 0int,
{
    if rank(a) == rank(b) {
        match a {
            SpecTerm::Integer { .. } => {
                crate::numbers::lemma_order_scaled_swap(
                    crate::numbers::number_value(a).0,
                    crate::numbers::number_value(a).1,
                    crate::numbers::number_value(b).0,
                    crate::numbers::number_value(b).1,
                );
            },
            SpecTerm::Float { .. } => {
                crate::numbers::lemma_order_scaled_swap(
                    crate::numbers::number_value(a).0,
                    crate::numbers::number_value(a).1,
                    crate::numbers::number_value(b).0,
                    crate::numbers::number_value(b).1,
                );
            },
            SpecTerm::Atom { name: n1 } => {
                if let SpecTerm::Atom { name: n2 } = b {
                    lemma_bytes_antisymmetric(n1, n2, 0);
                }
            },
            SpecTerm::Closure { module: m1, env: e1, .. } => {
                if let SpecTerm::Closure { module: m2, env: e2, .. } = b {
                    lemma_bytes_antisymmetric(m1, m2, 0);
                    lemma_seqs_antisymmetric(e1, e2, 0, exact);
                }
            },
            SpecTerm::Export { module: m1, function: f1, .. } => {
                if let SpecTerm::Export { module: m2, function: f2, .. } = b {
                    lemma_bytes_antisymmetric(m1, m2, 0);
                    lemma_bytes_antisymmetric(f1, f2, 0);
                }
            },
            SpecTerm::ExternalPid { node: d1, .. } => {
                if let SpecTerm::ExternalPid { node: d2, .. } = b {
                    lemma_bytes_antisymmetric(d1, d2, 0);
                }
            },
            SpecTerm::ExternalReference { node: d1, .. } => {
                if let SpecTerm::ExternalReference { node: d2, .. } = b {
                    lemma_bytes_antisymmetric(d1, d2, 0);
                }
            },
            SpecTerm::ExternalPort { node: d1, .. } => {
                if let SpecTerm::ExternalPort { node: d2, .. } = b {
                    lemma_bytes_antisymmetric(d1, d2, 0);
                }
            },
            SpecTerm::Tuple { elements: e1 } => {
                if let SpecTerm::Tuple { elements: e2 } = b {
                    lemma_seqs_antisymmetric(e1, e2, 0, exact);
                }
            },
            SpecTerm::ErlangMap { keys: k1, values: v1 } => {
                if let SpecTerm::ErlangMap { keys: k2, values: v2 } = b {
                    lemma_seqs_antisymmetric(k1, k2, 0, true);
                    lemma_seqs_antisymmetric(v1, v2, 0, exact);
                }
            },
            SpecTerm::Cons { head: h1, tail: t1 } => {
                if let SpecTerm::Cons { head: h2, tail: t2 } = b {
                    lemma_antisymmetric_in(*h1, *h2, exact);
                    lemma_antisymmetric_in(*t1, *t2, exact);
                }
            },
            SpecTerm::Binary { .. } => lemma_bits_antisymmetric(
                bitstring_bytes(a),
                bit_count(a),
                bitstring_bytes(b),
                bit_count(b),
                0,
            ),
            SpecTerm::BitString { .. } => lemma_bits_antisymmetric(
                bitstring_bytes(a),
                bit_count(a),
                bitstring_bytes(b),
                bit_count(b),
                0,
            ),
            _ => {},
        }
    }
}

proof fn lemma_seqs_antisymmetric(s1: Seq<SpecTerm>, s2: Seq<SpecTerm>, i: int, exact: bool)
    ensures
        order_term_seqs(s1, s2, i, exact) == reverse(order_term_seqs(s2, s1, i, exact)),
    decreases s1, s1.len() - i,
{
    if !(i < 0 || i >= s1.len() || i >= s2.len()) {
        lemma_antisymmetric_in(s1[i], s2[i], exact);
        lemma_seqs_antisymmetric(s1, s2, i + 1, exact);
    }
}

/// Two steps that are not `Greater` compose: `Less` if either is `Less`, else `Equal`.
proof fn lemma_then_transitive(p1: Order, q1: Order, p2: Order, q2: Order, p3: Order, q3: Order)
    requires
        p1 != Order::Greater && p2 != Order::Greater ==> p3 == then(p1, p2),
        q1 != Order::Greater && q2 != Order::Greater ==> q3 == then(q1, q2),
    ensures
        then(p1, q1) != Order::Greater && then(p2, q2) != Order::Greater ==> then(p3, q3) == then(
            then(p1, q1),
            then(p2, q2),
        ),
{
}

proof fn lemma_bytes_transitive(x: Seq<u8>, y: Seq<u8>, z: Seq<u8>, i: int)
    requires
        compare_bytes(x, y, i) != Order::Greater,
        compare_bytes(y, z, i) != Order::Greater,
    ensures
        compare_bytes(x, z, i) == then(compare_bytes(x, y, i), compare_bytes(y, z, i)),
    decreases x.len() - i,
{
    if !(i < 0 || i >= x.len() || i >= y.len() || i >= z.len()) && x[i] == y[i] && y[i] == z[i] {
        lemma_bytes_transitive(x, y, z, i + 1);
    }
}

proof fn lemma_bits_transitive(a: Seq<u8>, la: int, b: Seq<u8>, lb: int, c: Seq<u8>, lc: int, i: int)
    requires
        compare_bits(a, la, b, lb, i) != Order::Greater,
        compare_bits(b, lb, c, lc, i) != Order::Greater,
    ensures
        compare_bits(a, la, c, lc, i) == then(compare_bits(a, la, b, lb, i), compare_bits(b, lb, c, lc, i)),
    decreases la - i,
{
    if !(i < 0 || i >= la || i >= lb || i >= lc) && bit_at(a, i) == bit_at(b, i) && bit_at(b, i)
        == bit_at(c, i) {
        lemma_bits_transitive(a, la, b, lb, c, lc, i + 1);
    }
}

/// Either order is transitive.
proof fn lemma_transitive_in(a: SpecTerm, b: SpecTerm, c: SpecTerm, exact: bool)
    requires
        order_terms(a, b, exact) != Order::Greater,
        order_terms(b, c, exact) != Order::Greater,
    ensures
        order_terms(a, c, exact) == then(order_terms(a, b, exact), order_terms(b, c, exact)),
    decreases a, 1int,
{
    if rank(a) == rank(b) && rank(b) == rank(c) {
        match a {
            SpecTerm::Integer { .. } => lemma_numbers_transitive(a, b, c, exact),
            SpecTerm::Float { .. } => lemma_numbers_transitive(a, b, c, exact),
            SpecTerm::Atom { name: n1 } => {
                if let SpecTerm::Atom { name: n2 } = b {
                    if let SpecTerm::Atom { name: n3 } = c {
                        lemma_bytes_transitive(n1, n2, n3, 0);
                    }
                }
            },
            SpecTerm::Closure { module: m1, index: i1, old_unique: u1, env: e1, .. } => {
                if let SpecTerm::Closure { module: m2, index: i2, old_unique: u2, env: e2, .. } = b {
                    if let SpecTerm::Closure { module: m3, index: i3, old_unique: u3, env: e3, .. } = c {
                        lemma_closures_transitive(m1, i1, u1, e1, m2, i2, u2, e2, m3, i3, u3, e3, exact);
                    }
                }
            },
            SpecTerm::Export { module: m1, function: f1, arity: a1 } => {
                if let SpecTerm::Export { module: m2, function: f2, arity: a2 } = b {
                    if let SpecTerm::Export { module: m3, function: f3, arity: a3 } = c {
                        lemma_exports_transitive(m1, f1, a1, m2, f2, a2, m3, f3, a3);
                    }
                }
            },
            SpecTerm::ExternalPid { node: d1, creation: c1, number: n1, serial: s1 } => {
                if let SpecTerm::ExternalPid { node: d2, creation: c2, number: n2, serial: s2 } = b {
                    if let SpecTerm::ExternalPid { node: d3, creation: c3, number: n3, serial: s3 } = c {
                        lemma_external_ids_transitive(
                            d1,
                            c1 as int,
                            s1 as int,
                            n1 as int,
                            d2,
                            c2 as int,
                            s2 as int,
                            n2 as int,
                            d3,
                            c3 as int,
                            s3 as int,
                            n3 as int,
                        );
                    }
                }
            },
            SpecTerm::ExternalReference { node: d1, creation: c1, scheduler_id: s1, number: n1 } => {
                if let SpecTerm::ExternalReference { node: d2, creation: c2, scheduler_id: s2, number: n2 } = b {
                    if let SpecTerm::ExternalReference { node: d3, creation: c3, scheduler_id: s3, number: n3 } = c {
                        lemma_external_ids_transitive(
                            d1,
                            c1 as int,
                            s1 as int,
                            n1 as int,
                            d2,
                            c2 as int,
                            s2 as int,
                            n2 as int,
                            d3,
                            c3 as int,
                            s3 as int,
                            n3 as int,
                        );
                    }
                }
            },
            SpecTerm::ExternalPort { node: d1, creation: c1, number: n1 } => {
                if let SpecTerm::ExternalPort { node: d2, creation: c2, number: n2 } = b {
                    if let SpecTerm::ExternalPort { node: d3, creation: c3, number: n3 } = c {
                        lemma_external_ids_transitive(
                            d1,
                            c1 as int,
                            0,
                            n1 as int,
                            d2,
                            c2 as int,
                            0,
                            n2 as int,
                            d3,
                            c3 as int,
                            0,
                            n3 as int,
                        );
                    }
                }
            },
            SpecTerm::Tuple { elements: e1 } => {
                if let SpecTerm::Tuple { elements: e2 } = b {
                    if let SpecTerm::Tuple { elements: e3 } = c {
                        lemma_tuples_transitive(e1, e2, e3, exact);
                    }
                }
            },
            SpecTerm::ErlangMap { .. } => lemma_maps_transitive(a, b, c, exact),
            SpecTerm::Cons { head: h1, tail: t1 } => {
                if let SpecTerm::Cons { head: h2, tail: t2 } = b {
                    if let SpecTerm::Cons { head: h3, tail: t3 } = c {
                        if order_terms(*h1, *h2, exact) != Order::Greater && order_terms(*h2, *h3, exact)
                            != Order::Greater {
                            lemma_transitive_in(*h1, *h2, *h3, exact);
                        }
                        if order_terms(*t1, *t2, exact) != Order::Greater && order_terms(*t2, *t3, exact)
                            != Order::Greater {
                            lemma_transitive_in(*t1, *t2, *t3, exact);
                        }
                        lemma_then_transitive(
                            order_terms(*h1, *h2, exact),
                            order_terms(*t1, *t2, exact),
                            order_terms(*h2, *h3, exact),
                            order_terms(*t2, *t3, exact),
                            order_terms(*h1, *h3, exact),
                            order_terms(*t1, *t3, exact),
                        );
                    }
                }
            },
            SpecTerm::Binary { .. } => lemma_bits_transitive(
                bitstring_bytes(a),
                bit_count(a),
                bitstring_bytes(b),
                bit_count(b),
                bitstring_bytes(c),
                bit_count(c),
                0,
            ),
            SpecTerm::BitString { .. } => lemma_bits_transitive(
                bitstring_bytes(a),
                bit_count(a),
                bitstring_bytes(b),
                bit_count(b),
                bitstring_bytes(c),
                bit_count(c),
                0,
            ),
            _ => {},
        }
    }
}

proof fn lemma_numbers_transitive(a: SpecTerm, b: SpecTerm, c: SpecTerm, exact: bool)
    ensures
        order_numbers_in(a, b, exact) != Order::Greater && order_numbers_in(b, c, exact) != Order::Greater
            ==> order_numbers_in(a, c, exact) == then(order_numbers_in(a, b, exact), order_numbers_in(b, c, exact)),
{
    if order_numbers(a, b) != Order::Greater && order_numbers(b, c) != Order::Greater {
        crate::numbers::lemma_order_scaled_transitive(
            number_value(a).0,
            number_value(a).1,
            number_value(b).0,
            number_value(b).1,
            number_value(c).0,
            number_value(c).1,
        );
    }
    lemma_then_transitive(
        order_numbers(a, b),
        order_ints(number_kind(a), number_kind(b)),
        order_numbers(b, c),
        order_ints(number_kind(b), number_kind(c)),
        order_numbers(a, c),
        order_ints(number_kind(a), number_kind(c)),
    );
}

proof fn lemma_exports_transitive(
    m1: Seq<u8>,
    f1: Seq<u8>,
    a1: u8,
    m2: Seq<u8>,
    f2: Seq<u8>,
    a2: u8,
    m3: Seq<u8>,
    f3: Seq<u8>,
    a3: u8,
)
    ensures
        ({
            let c12 = then(compare_bytes(m1, m2, 0), then(compare_bytes(f1, f2, 0), order_ints(a1 as int, a2 as int)));
            let c23 = then(compare_bytes(m2, m3, 0), then(compare_bytes(f2, f3, 0), order_ints(a2 as int, a3 as int)));
            let c13 = then(compare_bytes(m1, m3, 0), then(compare_bytes(f1, f3, 0), order_ints(a1 as int, a3 as int)));
            c12 != Order::Greater && c23 != Order::Greater ==> c13 == then(c12, c23)
        }),
{
    if compare_bytes(m1, m2, 0) != Order::Greater && compare_bytes(m2, m3, 0) != Order::Greater {
        lemma_bytes_transitive(m1, m2, m3, 0);
    }
    if compare_bytes(f1, f2, 0) != Order::Greater && compare_bytes(f2, f3, 0) != Order::Greater {
        lemma_bytes_transitive(f1, f2, f3, 0);
    }
    let o1 = order_ints(a1 as int, a2 as int);
    let o2 = order_ints(a2 as int, a3 as int);
    let o3 = order_ints(a1 as int, a3 as int);
    lemma_then_transitive(compare_bytes(f1, f2, 0), o1, compare_bytes(f2, f3, 0), o2, compare_bytes(f1, f3, 0), o3);
    lemma_then_transitive(
        compare_bytes(m1, m2, 0),
        then(compare_bytes(f1, f2, 0), o1),
        compare_bytes(m2, m3, 0),
        then(compare_bytes(f2, f3, 0), o2),
        compare_bytes(m1, m3, 0),
        then(compare_bytes(f1, f3, 0), o3),
    );
}

/// Node, creation and two numbers, in that order of precedence, compose transitively.
proof fn lemma_external_ids_transitive(
    d1: Seq<u8>,
    c1: int,
    s1: int,
    n1: int,
    d2: Seq<u8>,
    c2: int,
    s2: int,
    n2: int,
    d3: Seq<u8>,
    c3: int,
    s3: int,
    n3: int,
)
    ensures
        ({
            let p12 = then(compare_bytes(d1, d2, 0), then(order_ints(c1, c2), then(order_ints(s1, s2), order_ints(n1, n2))));
            let p23 = then(compare_bytes(d2, d3, 0), then(order_ints(c2, c3), then(order_ints(s2, s3), order_ints(n2, n3))));
            let p13 = then(compare_bytes(d1, d3, 0), then(order_ints(c1, c3), then(order_ints(s1, s3), order_ints(n1, n3))));
            p12 != Order::Greater && p23 != Order::Greater ==> p13 == then(p12, p23)
        }),
{
    if compare_bytes(d1, d2, 0) != Order::Greater && compare_bytes(d2, d3, 0) != Order::Greater {
        lemma_bytes_transitive(d1, d2, d3, 0);
    }
    let sn1 = then(order_ints(s1, s2), order_ints(n1, n2));
    let sn2 = then(order_ints(s2, s3), order_ints(n2, n3));
    let sn3 = then(order_ints(s1, s3), order_ints(n1, n3));
    lemma_then_transitive(order_ints(s1, s2), order_ints(n1, n2), order_ints(s2, s3), order_ints(n2, n3), order_ints(s1, s3), order_ints(n1, n3));
    lemma_then_transitive(order_ints(c1, c2), sn1, order_ints(c2, c3), sn2, order_ints(c1, c3), sn3);
    lemma_then_transitive(
        compare_bytes(d1, d2, 0),
        then(order_ints(c1, c2), sn1),
        compare_bytes(d2, d3, 0),
        then(order_ints(c2, c3), sn2),
        compare_bytes(d1, d3, 0),
        then(order_ints(c1, c3), sn3),
    );
}

proof fn lemma_tuples_transitive(e1: Seq<SpecTerm>, e2: Seq<SpecTerm>, e3: Seq<SpecTerm>, exact: bool)
    ensures
        ({
            let t12 = then(order_ints(e1.len() as int, e2.len() as int), order_term_seqs(e1, e2, 0, exact));
            let t23 = then(order_ints(e2.len() as int, e3.len() as int), order_term_seqs(e2, e3, 0, exact));
            let t13 = then(order_ints(e1.len() as int, e3.len() as int), order_term_seqs(e1, e3, 0, exact));
            t12 != Order::Greater && t23 != Order::Greater ==> t13 == then(t12, t23)
        }),
    decreases e1, e1.len() + 1,
{
    if order_term_seqs(e1, e2, 0, exact) != Order::Greater && order_term_seqs(e2, e3, 0, exact) != Order::Greater {
        lemma_seqs_transitive(e1, e2, e3, 0, exact);
    }
    lemma_then_transitive(
        order_ints(e1.len() as int, e2.len() as int),
        order_term_seqs(e1, e2, 0, exact),
        order_ints(e2.len() as int, e3.len() as int),
        order_term_seqs(e2, e3, 0, exact),
        order_ints(e1.len() as int, e3.len() as int),
        order_term_seqs(e1, e3, 0, exact),
    );
}

proof fn lemma_closures_transitive(
    m1: Seq<u8>,
    i1: u32,
    u1: u32,
    e1: Seq<SpecTerm>,
    m2: Seq<u8>,
    i2: u32,
    u2: u32,
    e2: Seq<SpecTerm>,
    m3: Seq<u8>,
    i3: u32,
    u3: u32,
    e3: Seq<SpecTerm>, exact: bool)
    ensures
        ({
            let c12 = then(compare_bytes(m1, m2, 0), then(order_ints(i1 as int, i2 as int), then(
                order_ints(u1 as int, u2 as int),
                then(order_ints(e1.len() as int, e2.len() as int), order_term_seqs(e1, e2, 0, exact)),
            )));
            let c23 = then(compare_bytes(m2, m3, 0), then(order_ints(i2 as int, i3 as int), then(
                order_ints(u2 as int, u3 as int),
                then(order_ints(e2.len() as int, e3.len() as int), order_term_seqs(e2, e3, 0, exact)),
            )));
            let c13 = then(compare_bytes(m1, m3, 0), then(order_ints(i1 as int, i3 as int), then(
                order_ints(u1 as int, u3 as int),
                then(order_ints(e1.len() as int, e3.len() as int), order_term_seqs(e1, e3, 0, exact)),
            )));
            c12 != Order::Greater && c23 != Order::Greater ==> c13 == then(c12, c23)
        }),
    decreases e1, e1.len() + 1,
{
    if compare_bytes(m1, m2, 0) != Order::Greater && compare_bytes(m2, m3, 0) != Order::Greater {
        lemma_bytes_transitive(m1, m2, m3, 0);
    }
    if order_term_seqs(e1, e2, 0, exact) != Order::Greater && order_term_seqs(e2, e3, 0, exact) != Order::Greater {
        lemma_seqs_transitive(e1, e2, e3, 0, exact);
    }
    let l12 = order_ints(e1.len() as int, e2.len() as int);
    let l23 = order_ints(e2.len() as int, e3.len() as int);
    let l13 = order_ints(e1.len() as int, e3.len() as int);
    lemma_then_transitive(l12, order_term_seqs(e1, e2, 0, exact), l23, order_term_seqs(e2, e3, 0, exact), l13, order_term_seqs(e1, e3, 0, exact));
    let r12 = then(l12, order_term_seqs(e1, e2, 0, exact));
    let r23 = then(l23, order_term_seqs(e2, e3, 0, exact));
    let r13 = then(l13, order_term_seqs(e1, e3, 0, exact));
    let o12 = order_ints(u1 as int, u2 as int);
    let o23 = order_ints(u2 as int, u3 as int);
    let o13 = order_ints(u1 as int, u3 as int);
    lemma_then_transitive(o12, r12, o23, r23, o13, r13);
    let x12 = order_ints(i1 as int, i2 as int);
    let x23 = order_ints(i2 as int, i3 as int);
    let x13 = order_ints(i1 as int, i3 as int);
    lemma_then_transitive(x12, then(o12, r12), x23, then(o23, r23), x13, then(o13, r13));
    lemma_then_transitive(
        compare_bytes(m1, m2, 0),
        then(x12, then(o12, r12)),
        compare_bytes(m2, m3, 0),
        then(x23, then(o23, r23)),
        compare_bytes(m1, m3, 0),
        then(x13, then(o13, r13)),
    );
}

proof fn lemma_maps_transitive(a: SpecTerm, b: SpecTerm, c: SpecTerm, exact: bool)
    requires
        a is ErlangMap,
    ensures
        (b is ErlangMap && c is ErlangMap && order_terms(a, b, exact) != Order::Greater && order_terms(b, c, exact)
            != Order::Greater) ==> order_terms(a, c, exact) == then(order_terms(a, b, exact), order_terms(b, c, exact)),
    decreases a, 0int,
{
    if let SpecTerm::ErlangMap { keys: k1, values: v1 } = a {
        if let SpecTerm::ErlangMap { keys: k2, values: v2 } = b {
            if let SpecTerm::ErlangMap { keys: k3, values: v3 } = c {
                if order_term_seqs(k1, k2, 0, true) != Order::Greater && order_term_seqs(k2, k3, 0, true)
                    != Order::Greater {
                    lemma_seqs_transitive(k1, k2, k3, 0, true);
                }
                if order_term_seqs(v1, v2, 0, exact) != Order::Greater && order_term_seqs(v2, v3, 0, exact)
                    != Order::Greater {
                    lemma_seqs_transitive(v1, v2, v3, 0, exact);
                }
                lemma_then_transitive(
                    order_term_seqs(k1, k2, 0, true),
                    order_term_seqs(v1, v2, 0, exact),
                    order_term_seqs(k2, k3, 0, true),
                    order_term_seqs(v2, v3, 0, exact),
                    order_term_seqs(k1, k3, 0, true),
                    order_term_seqs(v1, v3, 0, exact),
                );
                lemma_then_transitive(
                    order_ints(k1.len() as int, k2.len() as int),
                    then(order_term_seqs(k1, k2, 0, true), order_term_seqs(v1, v2, 0, exact)),
                    order_ints(k2.len() as int, k3.len() as int),
                    then(order_term_seqs(k2, k3, 0, true), order_term_seqs(v2, v3, 0, exact)),
                    order_ints(k1.len() as int, k3.len() as int),
                    then(order_term_seqs(k1, k3, 0, true), order_term_seqs(v1, v3, 0, exact)),
                );
            }
        }
    }
}

proof fn lemma_seqs_transitive(s1: Seq<SpecTerm>, s2: Seq<SpecTerm>, s3: Seq<SpecTerm>, i: int, exact: bool)
    requires
        order_term_seqs(s1, s2, i, exact) != Order::Greater,
        order_term_seqs(s2, s3, i, exact) != Order::Greater,
    ensures
        order_term_seqs(s1, s3, i, exact) == then(order_term_seqs(s1, s2, i, exact), order_term_seqs(s2, s3, i, exact)),
    decreases s1, s1.len() - i,
{
    if !(i < 0 || i >= s1.len() || i >= s2.len() || i >= s3.len()) {
        lemma_transitive_in(s1[i], s2[i], s3[i], exact);
        if order_terms(s1[i], s2[i], exact) == Order::Equal && order_terms(s2[i], s3[i], exact)
            == Order::Equal {
            lemma_seqs_transitive(s1, s2, s3, i + 1, exact);
        }
    }
}

/// Every term compares equal to itself.
pub proof fn lemma_compare_reflexive(a: SpecTerm)
    ensures
        compare_terms(a, a) == Order::Equal,
{
    lemma_reflexive_in(a, false);
}

/// Comparing two terms the other way round gives the opposite order.
pub proof fn lemma_compare_antisymmetric(a: SpecTerm, b: SpecTerm)
    ensures
        compare_terms(a, b) == reverse(compare_terms(b, a)),
{
    lemma_antisymmetric_in(a, b, false);
}

/// The term order is transitive: when `a` is at most `b` and `b` at most `c`, `a`
/// compares to `c` as `Less` if either step is `Less`, else as `Equal`.
pub proof fn lemma_compare_transitive(a: SpecTerm, b: SpecTerm, c: SpecTerm)
    requires
        compare_terms(a, b) != Order::Greater,
        compare_terms(b, c) != Order::Greater,
    ensures
        compare_terms(a, c) == then(compare_terms(a, b), compare_terms(b, c)),
{
    lemma_transitive_in(a, b, c, false);
}

} // verus!
