//! `erlang:unique_integer/1`.
//!
//! Unique integers created with the monotonic modifier consist of a set of 2⁶⁴ - 1
//! unique integers. Unique integers created without it consist of a set of 2⁶⁴ - 1
//! unique integers per scheduler.
use vstd::prelude::*;
use crate::atom_table::bytes_eq;
use crate::term::{
    integer_from_i128, integer_from_i64, integer_from_u128, integer_from_u64, list_has_atom,
    list_of_atoms_named, spec_integer, Exception, SpecTerm, Term,
};

verus! {

/// `i64::MIN`, negated, as an unsigned number.
pub const NEGATED_I64_MIN_U64: u64 = 0x8000_0000_0000_0000;

/// `i128::MIN`, negated, as an unsigned number.
pub const NEGATED_I128_MIN_U128: u128 = 0x8000_0000_0000_0000_0000_0000_0000_0000;

/// The name `monotonic`.
pub open spec fn monotonic_name() -> Seq<u8> {
    seq![109u8, 111, 110, 111, 116, 111, 110, 105, 99]
}

/// The name `positive`.
pub open spec fn positive_name() -> Seq<u8> {
    seq![112u8, 111, 115, 105, 116, 105, 118, 101]
}

/// The options in the list `options`, on top of `positive` and `monotonic`; any
/// element other than `positive` and `monotonic`, or a list that is not proper, is
/// refused.
pub open spec fn spec_options(options: SpecTerm, positive: bool, monotonic: bool) -> Option<
    (bool, bool),
>
    decreases options,
{
    match options {
        SpecTerm::Nil => Some((positive, monotonic)),
        SpecTerm::Cons { head, tail } => match spec_option(*head, positive, monotonic) {
            Some((p, m)) => spec_options(*tail, p, m),
            None => None,
        },
        _ => None,
    }
}

/// The options after the option `option`, on top of `positive` and `monotonic`.
pub open spec fn spec_option(option: SpecTerm, positive: bool, monotonic: bool) -> Option<(bool, bool)> {
    match option {
        SpecTerm::Atom { name } => if name == monotonic_name() {
            Some((positive, true))
        } else if name == positive_name() {
            Some((true, monotonic))
        } else {
            None
        },
        _ => None,
    }
}

/// The options of `unique_integer/1`.
#[derive(Debug, Clone, Copy, PartialEq, Eq)]
pub struct Options {
    /// Only non-negative integers are returned.
    pub positive: bool,
    /// Successive integers are strictly increasing.
    pub monotonic: bool,
}

impl Default for Options {
    fn default() -> (options: Self)
        ensures
            !options.positive && !options.monotonic,
    {
        Self { monotonic: false, positive: false }
    }
}

impl Options {
    /// Sets the option `option`: the atom `monotonic` or `positive`.
    pub fn put_option_term(&mut self, option: &Term) -> (res: Result<(), Exception>)
        ensures
            match spec_option(option@, old(self).positive, old(self).monotonic) {
                Some((positive, monotonic)) => res == Ok::<(), Exception>(()) && final(self).positive
                    == positive && final(self).monotonic == monotonic,
                None => res == Err::<(), Exception>(Exception::Badarg) && *final(self) == *old(self),
            },
            res is Ok <==> (option@ == (SpecTerm::Atom { name: positive_name() }) || option@ == (
            SpecTerm::Atom { name: monotonic_name() })),
            res is Ok ==> final(self).positive == (old(self).positive || option@ == (SpecTerm::Atom {
                name: positive_name(),
            })) && final(self).monotonic == (old(self).monotonic || option@ == (SpecTerm::Atom {
                name: monotonic_name(),
            })),
    {
        match option {
            Term::Atom { name } => {
                let monotonic = vec![109u8, 111, 110, 111, 116, 111, 110, 105, 99];
                let positive = vec![112u8, 111, 115, 105, 116, 105, 118, 101];
                assert(monotonic@ =~= monotonic_name());
                assert(positive@ =~= positive_name());
                if bytes_eq(name.as_slice(), monotonic.as_slice()) {
                    self.monotonic = true;
                    Ok(())
                } else if bytes_eq(name.as_slice(), positive.as_slice()) {
                    self.positive = true;
                    Ok(())
                } else {
                    Err(Exception::Badarg)
                }
            },
            _ => Err(Exception::Badarg),
        }
    }

    /// The options in the proper list of atoms `term`.
    pub fn try_from(term: &Term) -> (res: Result<Options, Exception>)
        ensures
            match spec_options(term@, false, false) {
                Some((positive, monotonic)) => res == Ok::<Options, Exception>(
                    Options { positive, monotonic },
                ),
                None => res == Err::<Options, Exception>(Exception::Badarg),
            },
            res is Ok <==> list_of_atoms_named(term@, positive_name(), monotonic_name()),
            res matches Ok(options) ==> options.positive == list_has_atom(term@, positive_name())
                && options.monotonic == list_has_atom(term@, monotonic_name()),
    {
        proof {
            lemma_options_are_the_atoms_named(term@, false, false);
        }
        let mut options: Options = Options::default();
        let mut options_term: &Term = term;
        loop
            invariant
                spec_options(term@, false, false) == (if list_of_atoms_named(
                    term@,
                    positive_name(),
                    monotonic_name(),
                ) {
                    Some((list_has_atom(term@, positive_name()), list_has_atom(term@, monotonic_name())))
                } else {
                    None
                }),
                spec_options(term@, false, false) == spec_options(
                    options_term@,
                    options.positive,
                    options.monotonic,
                ),
            decreases options_term@,
        {
            match options_term {
                Term::Nil => return Ok(options),
                Term::Cons { head, tail } => {
                    assert(options_term@ == SpecTerm::Cons {
                        head: Box::new((**head)@),
                        tail: Box::new((**tail)@),
                    });
                    options.put_option_term(&**head)?;
                    options_term = &**tail;
                },
                _ => return Err(Exception::Badarg),
            }
        }
    }
}

/// The options in a list are the options it names, whatever their order and however
/// often each occurs: `positive` is set exactly when the list has the atom
/// `positive` (or it was set before), `monotonic` exactly when it has `monotonic`;
/// a list that is not proper, or has any other element, is refused.
pub proof fn lemma_options_are_the_atoms_named(list: SpecTerm, positive: bool, monotonic: bool)
    ensures
        spec_options(list, positive, monotonic) == (if list_of_atoms_named(
            list,
            positive_name(),
            monotonic_name(),
        ) {
            Some(
                (
                    positive || list_has_atom(list, positive_name()),
                    monotonic || list_has_atom(list, monotonic_name()),
                ),
            )
        } else {
            None
        }),
    decreases list,
{
    assert(positive_name().len() != monotonic_name().len());
    if let SpecTerm::Cons { head, tail } = list {
        match spec_option(*head, positive, monotonic) {
            Some((p, m)) => lemma_options_are_the_atoms_named(*tail, p, m),
            None => {},
        }
    }
}

/// The counter that monotonic unique integers are drawn from, shared by all schedulers.
pub struct MonotonicCounter {
    pub next: u64,
}

/// A scheduler: its identifier and the counter of its own unique integers.
pub struct Scheduler {
    pub id: u64,
    pub next_unique: u64,
}

/// A counter after one step: one more, from the largest value back to 0.
pub open spec fn wrapping_successor(n: u64) -> u64 {
    if n == u64::MAX {
        0
    } else {
        (n + 1) as u64
    }
}

/// Takes the counter's value and steps it.
fn fetch_increment(counter: &mut u64) -> (previous: u64)
    ensures
        previous == *old(counter),
        *final(counter) == wrapping_successor(*old(counter)),
{
    let previous = *counter;
    *counter = counter.wrapping_add(1);
    previous
}

impl Scheduler {
    /// The scheduler's next unique integer; its counter steps.
    pub fn next_unique_integer(&mut self) -> (u: u64)
        ensures
            u == old(self).next_unique,
            final(self).next_unique == wrapping_successor(old(self).next_unique),
            final(self).id == old(self).id,
    {
        fetch_increment(&mut self.next_unique)
    }
}

/// The monotonic unique integer drawn at counter value `u`.
pub open spec fn spec_monotonic_integer(u: u64, positive: bool) -> int {
    if positive {
        u as int
    } else {
        u - 0x8000_0000_0000_0000
    }
}

/// The unique integer that scheduler `id` draws at its counter value `c`.
pub open spec fn spec_scheduler_integer(id: u64, c: u64, positive: bool) -> int {
    let u = id * 0x1_0000_0000_0000_0000 + c;
    if positive {
        u
    } else {
        u - 0x8000_0000_0000_0000_0000_0000_0000_0000
    }
}

/// `unique_integer(options)`: with `monotonic`, the shared counter's value, else the
/// scheduler's identifier (high 64 bits) and its counter's value (low 64 bits); with
/// `positive` that number, else that number less half its range, so that the values
/// are spread over negative and positive integers. The counter drawn from steps.
pub fn unique_integer(
    monotonic_counter: &mut MonotonicCounter,
    scheduler: &mut Scheduler,
    options: Options,
) -> (t: Term)
    ensures
        options.monotonic ==> t@ == spec_integer(
            spec_monotonic_integer(old(monotonic_counter).next, options.positive),
        ) && final(monotonic_counter).next == wrapping_successor(old(monotonic_counter).next)
            && *final(scheduler) == *old(scheduler),
        !options.monotonic ==> t@ == spec_integer(
            spec_scheduler_integer(old(scheduler).id, old(scheduler).next_unique, options.positive),
        ) && final(scheduler).next_unique == wrapping_successor(old(scheduler).next_unique)
            && final(scheduler).id == old(scheduler).id && *final(monotonic_counter)
            == *old(monotonic_counter),
{
    if options.monotonic {
        let u = fetch_increment(&mut monotonic_counter.next);
        if options.positive {
            integer_from_u64(u)
        } else {
            // When not positive allow for negative and positive even though the counter is
            // unsigned by subtracting counter value down into signed range.
            let i: i64 = if u < NEGATED_I64_MIN_U64 {
                (u as i64) + i64::MIN
            } else {
                (u - NEGATED_I64_MIN_U64) as i64
            };
            integer_from_i64(i)
        }
    } else {
        // Non-monotonic unique integers are per scheduler: the high 64 bits are the
        // scheduler's identifier.
        let scheduler_id_u128: u128 = scheduler.id as u128;
        let scheduler_unique_integer = scheduler.next_unique_integer() as u128;
        let u: u128 = (scheduler_id_u128 << 64u128) | scheduler_unique_integer;
        assert(u == scheduler_id_u128 * 0x1_0000_0000_0000_0000 + scheduler_unique_integer) by (bit_vector)
            requires
                scheduler_id_u128 < 0x1_0000_0000_0000_0000,
                scheduler_unique_integer < 0x1_0000_0000_0000_0000,
                u == (scheduler_id_u128 << 64u128) | scheduler_unique_integer,
        ;
        if options.positive {
            integer_from_u128(u)
        } else {
            let i: i128 = if u < NEGATED_I128_MIN_U128 {
                (u as i128) + i128::MIN
            } else {
                (u - NEGATED_I128_MIN_U128) as i128
            };
            integer_from_i128(i)
        }
    }
}

/// Monotonic unique integers drawn at successive counter values strictly increase.
pub proof fn lemma_monotonic_strictly_increasing(c1: u64, c2: u64, positive: bool)
    requires
        c1 < c2,
    ensures
        spec_monotonic_integer(c1, positive) < spec_monotonic_integer(c2, positive),
{
}

/// A positive unique integer is not negative.
pub proof fn lemma_positive_not_negative(u: u64, id: u64, c: u64)
    ensures
        spec_monotonic_integer(u, true) >= 0,
        spec_scheduler_integer(id, c, true) >= 0,
{
}

/// Unique integers drawn by schedulers differ when the schedulers differ or the
/// counter values differ.
pub proof fn lemma_scheduler_integers_unique(id1: u64, c1: u64, id2: u64, c2: u64, positive: bool)
    requires
        id1 != id2 || c1 != c2,
    ensures
        spec_scheduler_integer(id1, c1, positive) != spec_scheduler_integer(id2, c2, positive),
{
    if id1 != id2 {
        if id1 < id2 {
            assert(id1 * 0x1_0000_0000_0000_0000 + c1 < id2 * 0x1_0000_0000_0000_0000 + c2) by (nonlinear_arith)
                requires
                    id1 < id2,
                    c1 < 0x1_0000_0000_0000_0000,
                    c2 >= 0,
            ;
        } else {
            assert(id2 * 0x1_0000_0000_0000_0000 + c2 < id1 * 0x1_0000_0000_0000_0000 + c1) by (nonlinear_arith)
                requires
                    id2 < id1,
                    c2 < 0x1_0000_0000_0000_0000,
                    c1 >= 0,
            ;
        }
    }
}

} // verus!
