//! Little-endian base-256 digit sequences: their value, and comparing them.
use vstd::prelude::*;
use vstd::arithmetic::power2::{pow2, lemma_pow2_adds, lemma_pow2_pos, lemma2_to64};
use crate::term::le_digits;
use crate::distribution::external_term_format::grammar::trim_zeros;

verus! {

/// The result of comparing two values.
#[derive(Debug, Clone, Copy, PartialEq, Eq, Structural)]
pub enum Order {
    Less,
    Equal,
    Greater,
}

/// How `a` compares to `b`.
pub open spec fn order_ints(a: int, b: int) -> Order {
    if a < b {
        Order::Less
    } else if a == b {
        Order::Equal
    } else {
        Order::Greater
    }
}

/// The opposite order.
pub open spec fn reverse(o: Order) -> Order {
    match o {
        Order::Less => Order::Greater,
        Order::Equal => Order::Equal,
        Order::Greater => Order::Less,
    }
}

/// The value of little-endian base-256 digits.
pub open spec fn digits_value(d: Seq<u8>) -> nat
    decreases d.len(),
{
    if d.len() == 0 {
        0
    } else {
        d[0] as nat + 256 * digits_value(d.drop_first())
    }
}

/// Digits without trailing zero digits.
pub open spec fn canonical_digits(d: Seq<u8>) -> bool {
    d.len() == 0 || d.last() != 0
}

pub proof fn lemma_pow2_8(n: nat)
    ensures
        pow2(8 * (n + 1)) == 256 * pow2(8 * n),
        pow2(0) == 1,
        pow2(8 * n) > 0,
{
    lemma_pow2_adds(8, 8 * n);
    lemma2_to64();
    lemma_pow2_pos(8 * n);
    assert(8 * (n + 1) == 8 + 8 * n);
}

/// Digits are worth less than 256 to the power of their number.
pub proof fn lemma_digits_value_bound(d: Seq<u8>)
    ensures
        digits_value(d) < pow2(8 * d.len()),
    decreases d.len(),
{
    lemma_pow2_8(0);
    if d.len() > 0 {
        let rest = d.drop_first();
        lemma_digits_value_bound(rest);
        lemma_pow2_8(rest.len());
        let v = digits_value(rest);
        let p = pow2(8 * rest.len());
        assert(d[0] as nat + 256 * v < 256 * p) by (nonlinear_arith)
            requires
                d[0] < 256,
                v < p,
        ;
    }
}

/// The value of digits split after `k` digits.
pub proof fn lemma_digits_split(d: Seq<u8>, k: int)
    requires
        0 <= k <= d.len(),
    ensures
        digits_value(d) == digits_value(d.take(k)) + pow2(8 * k as nat) * digits_value(d.skip(k)),
    decreases k,
{
    lemma_pow2_8(0);
    if k == 0 {
        assert(d.skip(0) =~= d);
        assert(d.take(0) =~= Seq::<u8>::empty());
    } else {
        let rest = d.drop_first();
        lemma_digits_split(rest, k - 1);
        assert(d.take(k).drop_first() =~= rest.take(k - 1));
        assert(d.skip(k) =~= rest.skip(k - 1));
        lemma_pow2_8((k - 1) as nat);
        let a = digits_value(rest.take(k - 1));
        let p = pow2(8 * (k - 1) as nat);
        let s = digits_value(rest.skip(k - 1));
        assert(256 * (a + p * s) == 256 * a + (256 * p) * s) by (nonlinear_arith);
    }
}

/// Trailing zero digits are worth nothing.
pub proof fn lemma_trim_zeros_value(d: Seq<u8>)
    ensures
        digits_value(trim_zeros(d)) == digits_value(d),
        canonical_digits(trim_zeros(d)),
    decreases d.len(),
{
    if d.len() > 0 && d.last() == 0 {
        lemma_digits_split(d, d.len() - 1);
        let last = d.skip(d.len() - 1);
        assert(last.drop_first() =~= Seq::<u8>::empty());
        assert(digits_value(last.drop_first()) == 0);
        assert(last[0] == 0);
        assert(digits_value(last) == 0);
        assert(d.take(d.len() - 1) =~= d.drop_last());
        lemma_trim_zeros_value(d.drop_last());
    }
}

/// Canonical digits whose last digit is not zero are worth at least 256 to the power
/// of one less than their number.
pub proof fn lemma_digits_value_lower_bound(d: Seq<u8>)
    requires
        d.len() > 0,
        d.last() != 0,
    ensures
        digits_value(d) >= pow2(8 * (d.len() - 1) as nat),
{
    lemma_digits_split(d, d.len() - 1);
    let last = d.skip(d.len() - 1);
    assert(last.drop_first() =~= Seq::<u8>::empty());
    assert(digits_value(last.drop_first()) == 0);
    assert(last[0] == d.last());
    assert(digits_value(last) == d.last());
    let p = pow2(8 * (d.len() - 1) as nat);
    assert(p * d.last() >= p) by (nonlinear_arith)
        requires
            d.last() >= 1,
            p >= 0,
    ;
}

/// The digits of `n` are worth `n`, and are canonical.
pub proof fn lemma_le_digits_value(n: nat)
    ensures
        digits_value(le_digits(n)) == n,
        canonical_digits(le_digits(n)),
        n > 0 ==> le_digits(n).len() > 0,
    decreases n,
{
    if n > 0 {
        lemma_le_digits_value(n / 256);
        let d = le_digits(n);
        assert(d.drop_first() =~= le_digits(n / 256));
        if n / 256 == 0 {
            assert(le_digits(0) =~= Seq::<u8>::empty());
            assert(d.last() == n % 256);
        } else {
            assert(d.last() == le_digits(n / 256).last());
        }
    }
}

/// `q` zero digits in front of digits multiply their value by 256 to the power `q`.
pub proof fn lemma_shifted_digits_value(q: nat, d: Seq<u8>)
    ensures
        digits_value(Seq::new(q, |i: int| 0u8) + d) == pow2(8 * q) * digits_value(d),
{
    let z = Seq::new(q, |i: int| 0u8);
    let s = z + d;
    lemma_digits_split(s, q as int);
    assert(s.take(q as int) =~= z);
    assert(s.skip(q as int) =~= d);
    lemma_zeros_value(q);
}

pub proof fn lemma_zeros_value(q: nat)
    ensures
        digits_value(Seq::new(q, |i: int| 0u8)) == 0,
    decreases q,
{
    if q > 0 {
        assert(Seq::new(q, |i: int| 0u8).drop_first() =~= Seq::new((q - 1) as nat, |i: int| 0u8));
        lemma_zeros_value((q - 1) as nat);
    }
}

/// The digit at `t` decides between two digit sequences that agree above it.
proof fn lemma_digit_decides(xa: int, xb: int, p: int, da: int, db: int, s: int)
    requires
        0 <= xa < p,
        0 <= xb < p,
        0 <= da < db,
        s >= 0,
    ensures
        xa + p * (da + 256 * s) < xb + p * (db + 256 * s),
{
    assert(xa + p * (da + 256 * s) < xb + p * (db + 256 * s)) by (nonlinear_arith)
        requires
            0 <= xa < p,
            0 <= xb < p,
            0 <= da < db,
            s >= 0,
    ;
}

/// Compares the values of the first `la` digits of `a` and the first `lb` of `b`,
/// both without trailing zero digits.
pub fn compare_digits(a: &[u8], la: usize, b: &[u8], lb: usize) -> (o: Order)
    requires
        la <= a@.len(),
        lb <= b@.len(),
        canonical_digits(a@.take(la as int)),
        canonical_digits(b@.take(lb as int)),
    ensures
        o == order_ints(digits_value(a@.take(la as int)) as int, digits_value(b@.take(lb as int)) as int),
{
    let ghost da = a@.take(la as int);
    let ghost db = b@.take(lb as int);
    if la != lb {
        proof {
            lemma_digits_value_bound(da);
            lemma_digits_value_bound(db);
            if la < lb {
                lemma_digits_value_lower_bound(db);
                if la < lb - 1 {
                    vstd::arithmetic::power2::lemma_pow2_strictly_increases(8 * la as nat, 8 * (lb - 1) as nat);
                }
            } else {
                lemma_digits_value_lower_bound(da);
                if lb < la - 1 {
                    vstd::arithmetic::power2::lemma_pow2_strictly_increases(8 * lb as nat, 8 * (la - 1) as nat);
                }
            }
        }
        return if la < lb {
            Order::Less
        } else {
            Order::Greater
        };
    }
    let mut i = la;
    while i > 0
        invariant
            la == lb,
            i <= la,
            la <= a@.len(),
            lb <= b@.len(),
            da == a@.take(la as int),
            db == b@.take(lb as int),
            da.skip(i as int) == db.skip(i as int),
        decreases i,
    {
        let t = i - 1;
        if a[t] != b[t] {
            proof {
                lemma_digits_split(da, t as int);
                lemma_digits_split(db, t as int);
                lemma_digits_value_bound(da.take(t as int));
                lemma_digits_value_bound(db.take(t as int));
                let sa = da.skip(t as int);
                let sb = db.skip(t as int);
                assert(sa.drop_first() =~= da.skip(i as int));
                assert(sb.drop_first() =~= db.skip(i as int));
                let p = pow2(8 * t as nat) as int;
                let s = digits_value(da.skip(i as int)) as int;
                if a@[t as int] < b@[t as int] {
                    lemma_digit_decides(
                        digits_value(da.take(t as int)) as int,
                        digits_value(db.take(t as int)) as int,
                        p,
                        a@[t as int] as int,
                        b@[t as int] as int,
                        s,
                    );
                } else {
                    lemma_digit_decides(
                        digits_value(db.take(t as int)) as int,
                        digits_value(da.take(t as int)) as int,
                        p,
                        b@[t as int] as int,
                        a@[t as int] as int,
                        s,
                    );
                }
            }
            return if a[t] < b[t] {
                Order::Less
            } else {
                Order::Greater
            };
        }
        proof {
            assert(da.skip(t as int) =~= seq![a@[t as int]] + da.skip(i as int));
            assert(db.skip(t as int) =~= seq![b@[t as int]] + db.skip(i as int));
        }
        i = t;
    }
    assert(da =~= da.skip(0));
    assert(db =~= db.skip(0));
    Order::Equal
}

/// The little-endian digits of `n`.
pub fn le_digits_of(n: u128) -> (digits: Vec<u8>)
    ensures
        digits@ == le_digits(n as nat),
{
    let mut digits: Vec<u8> = Vec::new();
    let mut x: u128 = n;
    while x > 0
        invariant
            digits@ + le_digits(x as nat) == le_digits(n as nat),
        decreases x,
    {
        let ghost before = digits@;
        digits.push((x % 256) as u8);
        proof {
            assert(le_digits(x as nat) == seq![(x % 256) as u8] + le_digits((x / 256) as nat));
            assert(digits@ + le_digits((x / 256) as nat) =~= before + le_digits(x as nat));
        }
        x = x / 256;
    }
    assert(digits@ =~= le_digits(n as nat));
    digits
}

} // verus!
