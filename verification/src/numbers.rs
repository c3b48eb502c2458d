//! The values of number terms and how they compare: integers and floats compare by
//! their exact mathematical values.
use vstd::prelude::*;
use vstd::arithmetic::power2::{pow2, lemma_pow2_adds, lemma_pow2_pos, lemma_pow2_strictly_increases, lemma2_to64};
use crate::digits::{
    canonical_digits, compare_digits, digits_value, le_digits_of, lemma_le_digits_value,
    lemma_pow2_8, lemma_shifted_digits_value, lemma_trim_zeros_value, order_ints, reverse, Order,
};
use crate::distribution::external_term_format::grammar::trim_zeros;
use crate::term::{le_digits, SpecTerm, Term};

verus! {

/// The value of an integer term's sign and magnitude.
pub open spec fn integer_value(negative: bool, magnitude: Seq<u8>) -> int {
    if negative {
        -(digits_value(magnitude) as int)
    } else {
        digits_value(magnitude) as int
    }
}

/// The fraction field of a double's bits.
pub open spec fn float_fraction(bits: u64) -> nat {
    (bits as nat) % 0x10_0000_0000_0000
}

/// The biased exponent field of a double's bits.
pub open spec fn float_biased_exponent(bits: u64) -> nat {
    ((bits as nat) / 0x10_0000_0000_0000) % 0x800
}

/// The integer significand of a double: its value is `significand * 2^exponent`.
pub open spec fn float_significand(bits: u64) -> nat {
    if float_biased_exponent(bits) == 0 {
        float_fraction(bits)
    } else {
        float_fraction(bits) + 0x10_0000_0000_0000
    }
}

/// The binary exponent of a double's value `significand * 2^exponent`.
pub open spec fn float_exponent(bits: u64) -> int {
    if float_biased_exponent(bits) == 0 {
        -1074
    } else {
        float_biased_exponent(bits) - 1075
    }
}

/// Whether a double's sign bit is set.
pub open spec fn float_negative(bits: u64) -> bool {
    bits >= 0x8000_0000_0000_0000
}

/// The signed significand of a double.
pub open spec fn float_numerator(bits: u64) -> int {
    if float_negative(bits) {
        -(float_significand(bits) as int)
    } else {
        float_significand(bits) as int
    }
}

/// How `n1 * 2^e1` compares to `n2 * 2^e2`.
pub open spec fn order_scaled(n1: int, e1: int, n2: int, e2: int) -> Order {
    if e1 >= e2 {
        order_ints(n1 * pow2((e1 - e2) as nat), n2)
    } else {
        order_ints(n1, n2 * pow2((e2 - e1) as nat))
    }
}

/// Whether a term is a number.
pub open spec fn is_number(t: SpecTerm) -> bool {
    t is Integer || t is Float
}

/// A number term's value as `numerator * 2^exponent`.
pub open spec fn number_value(t: SpecTerm) -> (int, int) {
    match t {
        SpecTerm::Integer { negative, magnitude } => (integer_value(negative, magnitude), 0),
        SpecTerm::Float { bits } => (float_numerator(bits), float_exponent(bits)),
        _ => (0, 0),
    }
}

/// How two number terms compare, by their values.
pub open spec fn order_numbers(a: SpecTerm, b: SpecTerm) -> Order {
    order_scaled(number_value(a).0, number_value(a).1, number_value(b).0, number_value(b).1)
}

/// The sign of an integer: -1, 0 or 1.
pub open spec fn sign(n: int) -> int {
    if n < 0 {
        -1
    } else if n == 0 {
        0
    } else {
        1
    }
}

/// Numbers of different signs compare as their signs; negative numbers compare as
/// the opposite of their absolute values.
pub proof fn lemma_order_scaled_signs(n1: int, e1: int, n2: int, e2: int)
    ensures
        sign(n1) != sign(n2) ==> order_scaled(n1, e1, n2, e2) == order_ints(sign(n1), sign(n2)),
        n1 == 0 && n2 == 0 ==> order_scaled(n1, e1, n2, e2) == Order::Equal,
        n1 < 0 && n2 < 0 ==> order_scaled(n1, e1, n2, e2) == reverse(order_scaled(-n1, e1, -n2, e2)),
{
    let p = if e1 >= e2 {
        pow2((e1 - e2) as nat)
    } else {
        pow2((e2 - e1) as nat)
    };
    lemma_pow2_pos((e1 - e2) as nat);
    lemma_pow2_pos((e2 - e1) as nat);
    assert(p > 0);
    assert(n1 > 0 ==> n1 * p > 0) by (nonlinear_arith)
        requires
            p > 0,
    ;
    assert(n1 < 0 ==> n1 * p < 0) by (nonlinear_arith)
        requires
            p > 0,
    ;
    assert(n2 > 0 ==> n2 * p > 0) by (nonlinear_arith)
        requires
            p > 0,
    ;
    assert(n2 < 0 ==> n2 * p < 0) by (nonlinear_arith)
        requires
            p > 0,
    ;
    assert((-n1) * p == -(n1 * p)) by (nonlinear_arith);
    assert((-n2) * p == -(n2 * p)) by (nonlinear_arith);
    assert(0 * p == 0);
}

/// The sign, significand and exponent of a double.
fn decompose(bits: u64) -> (r: (bool, u64, i32))
    ensures
        r.0 == float_negative(bits),
        r.1 == float_significand(bits),
        r.2 == float_exponent(bits),
        r.1 < 0x20_0000_0000_0000,
        -1074 <= r.2 <= 972,
{
    let fraction = bits % 0x10_0000_0000_0000;
    let biased = (bits / 0x10_0000_0000_0000) % 0x800;
    if biased == 0 {
        (bits >= 0x8000_0000_0000_0000, fraction, -1074)
    } else {
        (bits >= 0x8000_0000_0000_0000, fraction + 0x10_0000_0000_0000, biased as i32 - 1075)
    }
}

/// `x * 2^d`.
fn shift_left(x: u64, d: u32) -> (r: u128)
    requires
        x < 0x20_0000_0000_0000,
        d < 53,
    ensures
        r == x * pow2(d as nat),
{
    let mut r: u128 = x as u128;
    let mut i: u32 = 0;
    proof {
        lemma2_to64();
        lemma_pow2_strictly_increases(0, 52);
    }
    while i < d
        invariant
            i <= d < 53,
            x < 0x20_0000_0000_0000,
            r == x * pow2(i as nat),
            pow2(i as nat) <= pow2(52),
        decreases d - i,
    {
        proof {
            vstd::arithmetic::power2::lemma_pow2_unfold((i + 1) as nat);
            if i + 1 < 52 {
                lemma_pow2_strictly_increases((i + 1) as nat, 52);
            }
            lemma2_to64();
            vstd::arithmetic::power2::lemma2_to64_rest();
            assert(x * pow2(i as nat) <= 0x20_0000_0000_0000 * 0x10_0000_0000_0000) by (nonlinear_arith)
                requires
                    x < 0x20_0000_0000_0000,
                    pow2(i as nat) <= 0x10_0000_0000_0000,
            ;
            assert(x * pow2((i + 1) as nat) == 2 * (x * pow2(i as nat))) by (nonlinear_arith)
                requires
                    pow2((i + 1) as nat) == 2 * pow2(i as nat),
            ;
        }
        r = r * 2;
        i = i + 1;
    }
    r
}

/// How `m1 * 2^e1` compares to `m2 * 2^e2`, for significands of doubles.
fn compare_positive_scaled(m1: u64, e1: i32, m2: u64, e2: i32) -> (o: Order)
    requires
        1 <= m1 < 0x20_0000_0000_0000,
        1 <= m2 < 0x20_0000_0000_0000,
        -1074 <= e1 <= 972,
        -1074 <= e2 <= 972,
    ensures
        o == order_scaled(m1 as int, e1 as int, m2 as int, e2 as int),
{
    proof {
        lemma2_to64();
        vstd::arithmetic::power2::lemma2_to64_rest();
    }
    if e1 >= e2 {
        let d = (e1 - e2) as u32;
        if d >= 53 {
            proof {
                if d > 53 {
                    lemma_pow2_strictly_increases(53, d as nat);
                }
                assert(pow2(53) == 0x20_0000_0000_0000) by {
                    vstd::arithmetic::power2::lemma_pow2_unfold(53);
                }
                let p = pow2(d as nat);
                assert(m1 * p >= p) by (nonlinear_arith)
                    requires
                        m1 >= 1,
                        p >= 0,
                ;
            }
            Order::Greater
        } else {
            let x = shift_left(m1, d);
            let y = m2 as u128;
            if x < y {
                Order::Less
            } else if x == y {
                Order::Equal
            } else {
                Order::Greater
            }
        }
    } else {
        let d = (e2 - e1) as u32;
        if d >= 53 {
            proof {
                if d > 53 {
                    lemma_pow2_strictly_increases(53, d as nat);
                }
                assert(pow2(53) == 0x20_0000_0000_0000) by {
                    vstd::arithmetic::power2::lemma_pow2_unfold(53);
                }
                let p = pow2(d as nat);
                assert(m2 * p >= p) by (nonlinear_arith)
                    requires
                        m2 >= 1,
                        p >= 0,
                ;
            }
            Order::Less
        } else {
            let x = m1 as u128;
            let y = shift_left(m2, d);
            if x < y {
                Order::Less
            } else if x == y {
                Order::Equal
            } else {
                Order::Greater
            }
        }
    }
}

/// `a * p` against `q * p + rem`, for a remainder `rem` below `p`.
proof fn lemma_floor_compare(a: int, q: int, rem: int, p: int)
    requires
        p > 0,
        0 <= rem < p,
        a >= 0,
        q >= 0,
    ensures
        a < q ==> a * p < q * p + rem,
        a > q ==> a * p > q * p + rem,
        a == q ==> (a * p == q * p + rem <==> rem == 0),
        a == q ==> a * p <= q * p + rem,
{
    assert(a < q ==> a * p < q * p + rem) by (nonlinear_arith)
        requires
            p > 0,
            0 <= rem < p,
            a >= 0,
    ;
    assert(a > q ==> a * p > q * p + rem) by (nonlinear_arith)
        requires
            p > 0,
            0 <= rem < p,
            q >= 0,
    ;
}

/// How the value of the first `len` digits of `mag`, at least 1, compares to
/// `m * 2^e`, for the significand and exponent of a double.
fn compare_digits_with_scaled(mag: &[u8], len: usize, m: u64, e: i32) -> (o: Order)
    requires
        0 < len <= mag@.len(),
        canonical_digits(mag@.take(len as int)),
        1 <= m < 0x20_0000_0000_0000,
        -1074 <= e <= 972,
    ensures
        o == order_scaled(digits_value(mag@.take(len as int)) as int, 0, m as int, e as int),
{
    let ghost a = digits_value(mag@.take(len as int)) as int;
    proof {
        lemma_pow2_8(0);
    }
    if e >= 0 {
        let q = (e / 8) as usize;
        let r = (e % 8) as u32;
        let x = shift_left(m, r);
        let mut d: Vec<u8> = Vec::new();
        let mut i: usize = 0;
        while i < q
            invariant
                i <= q,
                d@ =~= Seq::new(i as nat, |j: int| 0u8),
            decreases q - i,
        {
            d.push(0);
            i = i + 1;
        }
        proof {
            vstd::arithmetic::power2::lemma2_to64();
            lemma_pow2_strictly_increases(r as nat, 8);
            assert(x < 0x20_0000_0000_0000 * 256) by (nonlinear_arith)
                requires
                    x == m * pow2(r as nat),
                    m < 0x20_0000_0000_0000,
                    pow2(r as nat) < 256,
            ;
        }
        let mut xd = le_digits_of(x);
        let ghost zeros = d@;
        d.append(&mut xd);
        proof {
            lemma_le_digits_value(x as nat);
            lemma_shifted_digits_value(q as nat, le_digits(x as nat));
            assert(d@ =~= Seq::new(q as nat, |j: int| 0u8) + le_digits(x as nat));
            lemma_pow2_adds(8 * q as nat, r as nat);
            assert(8 * q + r == e);
            let p8 = pow2(8 * q as nat);
            let pr = pow2(r as nat);
            assert(p8 * (m * pr) == m * (p8 * pr)) by (nonlinear_arith);
            assert(d@.take(d@.len() as int) =~= d@);
            assert(m * pow2(0) == m);
            assert(a * pow2(0) == a);
            lemma_pow2_pos(r as nat);
            assert(x >= 1) by (nonlinear_arith)
                requires
                    x == m * pow2(r as nat),
                    m >= 1,
                    pow2(r as nat) >= 1,
            ;
            let ld = le_digits(x as nat);
            assert(d@.last() == ld.last());
            assert(digits_value(d@) == m * pow2((e - 0) as nat));
        }
        let len_d = d.len();
        compare_digits(mag, len, d.as_slice(), len_d)
    } else {
        let k = (-e) as u32;
        let mut x: u64 = m;
        let mut j: u32 = 0;
        let mut exact = true;
        let ghost mut rem: int = 0;
        proof {
            lemma2_to64();
        }
        while j < k && x > 0
            invariant
                j <= k,
                m == x * pow2(j as nat) + rem,
                0 <= rem < pow2(j as nat),
                exact == (rem == 0),
            decreases k - j,
        {
            proof {
                vstd::arithmetic::power2::lemma_pow2_unfold((j + 1) as nat);
                let p = pow2(j as nat) as int;
                let b = (x % 2) as int;
                let h = (x / 2) as int;
                assert(x == 2 * h + b);
                assert(x * p == h * (2 * p) + b * p) by (nonlinear_arith)
                    requires
                        x == 2 * h + b,
                ;
                assert(b * p + rem < 2 * p) by (nonlinear_arith)
                    requires
                        0 <= b <= 1,
                        0 <= rem < p,
                ;
                assert(b * p >= 0) by (nonlinear_arith)
                    requires
                        0 <= b,
                        p >= 0,
                ;
                assert(b * p + rem == 0 <==> b == 0 && rem == 0) by (nonlinear_arith)
                    requires
                        0 <= b <= 1,
                        0 <= rem < p,
                        p > 0,
                ;
                rem = b * p + rem;
            }
            exact = exact && x % 2 == 0;
            x = x / 2;
            j = j + 1;
        }
        proof {
            lemma_pow2_pos(k as nat);
            if j < k {
                lemma_pow2_strictly_increases(j as nat, k as nat);
            }
            lemma_le_digits_value(x as nat);
            assert(x == 0 ==> m == rem) by (nonlinear_arith)
                requires
                    m == x * pow2(j as nat) + rem,
            ;
            assert(x * pow2(k as nat) + rem == m) by (nonlinear_arith)
                requires
                    m == x * pow2(j as nat) + rem,
                    j < k ==> x == 0,
                    j == k || j < k,
            ;
            lemma_floor_compare(a, x as int, rem, pow2(k as nat) as int);
            assert(-e == k);
        }
        let qd = le_digits_of(x as u128);
        let len_q = qd.len();
        proof {
            assert(qd@.take(len_q as int) =~= qd@);
        }
        match compare_digits(mag, len, qd.as_slice(), len_q) {
            Order::Less => Order::Less,
            Order::Greater => Order::Greater,
            Order::Equal => if exact {
                Order::Equal
            } else {
                Order::Less
            },
        }
    }
}

/// How the integer with sign `na` and digits `ma` compares to the one with `nb`, `mb`.
fn compare_integers(na: bool, ma: &[u8], nb: bool, mb: &[u8]) -> (o: Order)
    ensures
        o == order_ints(integer_value(na, ma@), integer_value(nb, mb@)),
{
    let ka = crate::distribution::external_term_format::scalars::trimmed_len(ma);
    let kb = crate::distribution::external_term_format::scalars::trimmed_len(mb);
    proof {
        lemma_trim_zeros_value(ma@);
        lemma_trim_zeros_value(mb@);
        if ka > 0 {
            crate::digits::lemma_digits_value_lower_bound(ma@.take(ka as int));
            lemma_pow2_pos(8 * (ka - 1) as nat);
        }
        if kb > 0 {
            crate::digits::lemma_digits_value_lower_bound(mb@.take(kb as int));
            lemma_pow2_pos(8 * (kb - 1) as nat);
        }
        assert(ma@.take(0) =~= Seq::<u8>::empty());
        assert(mb@.take(0) =~= Seq::<u8>::empty());
    }
    let sa: i8 = if ka == 0 {
        0
    } else if na {
        -1
    } else {
        1
    };
    let sb: i8 = if kb == 0 {
        0
    } else if nb {
        -1
    } else {
        1
    };
    if sa != sb {
        if sa < sb {
            Order::Less
        } else {
            Order::Greater
        }
    } else if sa == 0 {
        Order::Equal
    } else {
        let o = compare_digits(ma, ka, mb, kb);
        if sa < 0 {
            match o {
                Order::Less => Order::Greater,
                Order::Equal => Order::Equal,
                Order::Greater => Order::Less,
            }
        } else {
            o
        }
    }
}

/// Comparing the other way round gives the opposite order.
pub proof fn lemma_order_scaled_swap(n1: int, e1: int, n2: int, e2: int)
    ensures
        order_scaled(n1, e1, n2, e2) == reverse(order_scaled(n2, e2, n1, e1)),
{
    lemma_pow2_8(0);
    assert(n1 * pow2(0) == n1);
    assert(n2 * pow2(0) == n2);
}

/// How two doubles compare by value.
fn compare_floats(a: u64, b: u64) -> (o: Order)
    ensures
        o == order_scaled(float_numerator(a), float_exponent(a), float_numerator(b), float_exponent(b)),
{
    let (na, ma, ea) = decompose(a);
    let (nb, mb, eb) = decompose(b);
    proof {
        lemma_order_scaled_signs(float_numerator(a), ea as int, float_numerator(b), eb as int);
    }
    let sa: i8 = if ma == 0 {
        0
    } else if na {
        -1
    } else {
        1
    };
    let sb: i8 = if mb == 0 {
        0
    } else if nb {
        -1
    } else {
        1
    };
    if sa != sb {
        if sa < sb {
            Order::Less
        } else {
            Order::Greater
        }
    } else if sa == 0 {
        Order::Equal
    } else {
        let o = compare_positive_scaled(ma, ea, mb, eb);
        if sa < 0 {
            match o {
                Order::Less => Order::Greater,
                Order::Equal => Order::Equal,
                Order::Greater => Order::Less,
            }
        } else {
            o
        }
    }
}

/// How the integer with sign `negative` and digits `magnitude` compares to the
/// double `bits`, by value.
fn compare_integer_float(negative: bool, magnitude: &[u8], bits: u64) -> (o: Order)
    ensures
        o == order_scaled(integer_value(negative, magnitude@), 0, float_numerator(bits), float_exponent(bits)),
{
    let k = crate::distribution::external_term_format::scalars::trimmed_len(magnitude);
    let (nf, mf, ef) = decompose(bits);
    let ghost v = integer_value(negative, magnitude@);
    proof {
        lemma_trim_zeros_value(magnitude@);
        if k > 0 {
            crate::digits::lemma_digits_value_lower_bound(magnitude@.take(k as int));
            lemma_pow2_pos(8 * (k - 1) as nat);
        }
        assert(magnitude@.take(0) =~= Seq::<u8>::empty());
        lemma_order_scaled_signs(v, 0, float_numerator(bits), ef as int);
    }
    let sa: i8 = if k == 0 {
        0
    } else if negative {
        -1
    } else {
        1
    };
    let sb: i8 = if mf == 0 {
        0
    } else if nf {
        -1
    } else {
        1
    };
    if sa != sb {
        if sa < sb {
            Order::Less
        } else {
            Order::Greater
        }
    } else if sa == 0 {
        Order::Equal
    } else {
        let o = compare_digits_with_scaled(magnitude, k, mf, ef);
        if sa < 0 {
            match o {
                Order::Less => Order::Greater,
                Order::Equal => Order::Equal,
                Order::Greater => Order::Less,
            }
        } else {
            o
        }
    }
}

/// How two number terms compare, by their exact values.
pub fn compare_numbers(a: &Term, b: &Term) -> (o: Order)
    requires
        is_number(a@),
        is_number(b@),
    ensures
        o == order_numbers(a@, b@),
{
    match (a, b) {
        (Term::Integer { negative: na, magnitude: ma }, Term::Integer { negative: nb, magnitude: mb }) => {
            let o = compare_integers(*na, ma.as_slice(), *nb, mb.as_slice());
            proof {
                lemma_pow2_8(0);
                assert(integer_value(*na, ma@) * pow2(0) == integer_value(*na, ma@));
            }
            o
        },
        (Term::Float { bits: ba }, Term::Float { bits: bb }) => compare_floats(*ba, *bb),
        (Term::Integer { negative, magnitude }, Term::Float { bits }) => compare_integer_float(
            *negative,
            magnitude.as_slice(),
            *bits,
        ),
        (Term::Float { bits }, Term::Integer { negative, magnitude }) => {
            let o = compare_integer_float(*negative, magnitude.as_slice(), *bits);
            proof {
                lemma_order_scaled_swap(
                    float_numerator(*bits),
                    float_exponent(*bits),
                    integer_value(*negative, magnitude@),
                    0,
                );
            }
            match o {
                Order::Less => Order::Greater,
                Order::Equal => Order::Equal,
                Order::Greater => Order::Less,
            }
        },
        _ => {
            proof {
                assert(false);
            }
            Order::Equal
        },
    }
}

/// Scaling both sides by the same positive factor keeps their order.
proof fn lemma_order_ints_scaled(x: int, y: int, p: int)
    requires
        p > 0,
    ensures
        order_ints(x * p, y * p) == order_ints(x, y),
{
    assert(x < y ==> x * p < y * p) by (nonlinear_arith)
        requires
            p > 0,
    ;
    assert(x > y ==> x * p > y * p) by (nonlinear_arith)
        requires
            p > 0,
    ;
}

/// `n1 * 2^e1` and `n2 * 2^e2` compare as their multiples of `2^m`, for any `m`
/// below both exponents.
proof fn lemma_order_scaled_common(n1: int, e1: int, n2: int, e2: int, m: int)
    requires
        m <= e1,
        m <= e2,
    ensures
        order_scaled(n1, e1, n2, e2) == order_ints(
            n1 * pow2((e1 - m) as nat),
            n2 * pow2((e2 - m) as nat),
        ),
{
    if e1 >= e2 {
        let d = (e1 - e2) as nat;
        let k = (e2 - m) as nat;
        lemma_pow2_adds(d, k);
        lemma_pow2_pos(k);
        assert((e1 - m) as nat == d + k);
        lemma_order_ints_scaled(n1 * pow2(d), n2, pow2(k) as int);
        assert(n1 * pow2(d) * pow2(k) == n1 * (pow2(d) * pow2(k))) by (nonlinear_arith);
    } else {
        let d = (e2 - e1) as nat;
        let k = (e1 - m) as nat;
        lemma_pow2_adds(d, k);
        lemma_pow2_pos(k);
        assert((e2 - m) as nat == d + k);
        lemma_order_ints_scaled(n1, n2 * pow2(d), pow2(k) as int);
        assert(n2 * pow2(d) * pow2(k) == n2 * (pow2(d) * pow2(k))) by (nonlinear_arith);
    }
}

/// The order of scaled numbers is transitive: when the first is at most the second
/// and the second at most the third, the first compares to the third as `Less` if
/// either step is `Less`, else as `Equal`.
pub proof fn lemma_order_scaled_transitive(n1: int, e1: int, n2: int, e2: int, n3: int, e3: int)
    requires
        order_scaled(n1, e1, n2, e2) != Order::Greater,
        order_scaled(n2, e2, n3, e3) != Order::Greater,
    ensures
        order_scaled(n1, e1, n3, e3) == (if order_scaled(n1, e1, n2, e2) == Order::Equal {
            order_scaled(n2, e2, n3, e3)
        } else {
            order_scaled(n1, e1, n2, e2)
        }),
{
    let m = if e1 <= e2 && e1 <= e3 {
        e1
    } else if e2 <= e3 {
        e2
    } else {
        e3
    };
    lemma_order_scaled_common(n1, e1, n2, e2, m);
    lemma_order_scaled_common(n2, e2, n3, e3, m);
    lemma_order_scaled_common(n1, e1, n3, e3, m);
}

} // verus!
