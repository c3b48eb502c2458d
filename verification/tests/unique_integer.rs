use lumen_runtime::otp::erlang::unique_integer::{
    unique_integer, MonotonicCounter, Options, Scheduler,
};
use lumen_runtime::term::{integer_from_i128, integer_from_i64, integer_from_u128, integer_from_u64, Exception, Term};

fn atom(name: &str) -> Term {
    Term::Atom { name: name.as_bytes().to_vec() }
}

fn cons(head: Term, tail: Term) -> Term {
    Term::Cons { head: Box::new(head), tail: Box::new(tail) }
}

#[test]
fn options_default_sets_nothing() {
    let options = Options::default();
    assert!(!options.positive);
    assert!(!options.monotonic);
}

#[test]
fn options_from_empty_list_sets_nothing() {
    assert_eq!(Options::try_from(&Term::Nil), Ok(Options { positive: false, monotonic: false }));
}

#[test]
fn options_from_list_of_both_sets_both() {
    let list = cons(atom("positive"), cons(atom("monotonic"), Term::Nil));
    assert_eq!(Options::try_from(&list), Ok(Options { positive: true, monotonic: true }));
}

#[test]
fn options_from_list_with_repeated_option() {
    let list = cons(atom("monotonic"), cons(atom("monotonic"), Term::Nil));
    assert_eq!(Options::try_from(&list), Ok(Options { positive: false, monotonic: true }));
}

#[test]
fn options_from_unknown_atom_errors_badarg() {
    let list = cons(atom("positive"), cons(atom("other"), Term::Nil));
    assert_eq!(Options::try_from(&list), Err(Exception::Badarg));
}

#[test]
fn options_from_improper_list_errors_badarg() {
    let list = cons(atom("positive"), atom("monotonic"));
    assert_eq!(Options::try_from(&list), Err(Exception::Badarg));
}

#[test]
fn options_from_non_list_errors_badarg() {
    assert_eq!(Options::try_from(&atom("positive")), Err(Exception::Badarg));
    assert_eq!(Options::try_from(&integer_from_i64(1)), Err(Exception::Badarg));
}

#[test]
fn put_option_term_sets_one_option() {
    let mut options = Options::default();
    assert_eq!(options.put_option_term(&atom("positive")), Ok(()));
    assert_eq!(options, Options { positive: true, monotonic: false });
    assert_eq!(options.put_option_term(&atom("monotonic")), Ok(()));
    assert_eq!(options, Options { positive: true, monotonic: true });
}

#[test]
fn put_option_term_refuses_other_terms_and_keeps_options() {
    let mut options = Options::default();
    assert_eq!(options.put_option_term(&atom("safe")), Err(Exception::Badarg));
    assert_eq!(options.put_option_term(&Term::Nil), Err(Exception::Badarg));
    assert_eq!(options, Options::default());
}

#[test]
fn monotonic_positive_integers_count_up_from_counter() {
    let mut counter = MonotonicCounter { next: 5 };
    let mut scheduler = Scheduler { id: 3, next_unique: 9 };
    let options = Options { positive: true, monotonic: true };
    assert_eq!(unique_integer(&mut counter, &mut scheduler, options), integer_from_u64(5));
    assert_eq!(unique_integer(&mut counter, &mut scheduler, options), integer_from_u64(6));
    assert_eq!(counter.next, 7);
    assert_eq!(scheduler.next_unique, 9);
    assert_eq!(scheduler.id, 3);
}

#[test]
fn monotonic_integers_start_at_the_least_i64() {
    let mut counter = MonotonicCounter { next: 0 };
    let mut scheduler = Scheduler { id: 0, next_unique: 0 };
    let options = Options { positive: false, monotonic: true };
    assert_eq!(unique_integer(&mut counter, &mut scheduler, options), integer_from_i64(i64::MIN));
    assert_eq!(unique_integer(&mut counter, &mut scheduler, options), integer_from_i64(i64::MIN + 1));
}

#[test]
fn monotonic_integers_cross_zero_at_half_the_counter() {
    let mut counter = MonotonicCounter { next: 0x7fff_ffff_ffff_ffff };
    let mut scheduler = Scheduler { id: 0, next_unique: 0 };
    let options = Options { positive: false, monotonic: true };
    assert_eq!(unique_integer(&mut counter, &mut scheduler, options), integer_from_i64(-1));
    assert_eq!(unique_integer(&mut counter, &mut scheduler, options), integer_from_i64(0));
    assert_eq!(unique_integer(&mut counter, &mut scheduler, options), integer_from_i64(1));
}

#[test]
fn monotonic_counter_wraps_at_its_largest_value() {
    let mut counter = MonotonicCounter { next: u64::MAX };
    let mut scheduler = Scheduler { id: 0, next_unique: 0 };
    let options = Options { positive: true, monotonic: true };
    assert_eq!(unique_integer(&mut counter, &mut scheduler, options), integer_from_u64(u64::MAX));
    assert_eq!(counter.next, 0);
}

#[test]
fn monotonic_integers_strictly_increase() {
    let mut counter = MonotonicCounter { next: 100 };
    let mut scheduler = Scheduler { id: 0, next_unique: 0 };
    let options = Options { positive: false, monotonic: true };
    let first = unique_integer(&mut counter, &mut scheduler, options);
    let second = unique_integer(&mut counter, &mut scheduler, options);
    assert_eq!(first, integer_from_i64(i64::MIN + 100));
    assert_eq!(second, integer_from_i64(i64::MIN + 101));
    assert_eq!(
        lumen_runtime::term_order::compare(&first, &second),
        lumen_runtime::digits::Order::Less
    );
}

#[test]
fn scheduler_positive_integer_holds_id_in_high_bits() {
    let mut counter = MonotonicCounter { next: 0 };
    let mut scheduler = Scheduler { id: 2, next_unique: 7 };
    let options = Options { positive: true, monotonic: false };
    assert_eq!(
        unique_integer(&mut counter, &mut scheduler, options),
        integer_from_u128((2u128 << 64) | 7)
    );
    assert_eq!(scheduler.next_unique, 8);
    assert_eq!(scheduler.id, 2);
    assert_eq!(counter.next, 0);
}

#[test]
fn scheduler_integer_without_positive_is_shifted_down() {
    let mut counter = MonotonicCounter { next: 0 };
    let mut scheduler = Scheduler { id: 0, next_unique: 0 };
    let options = Options { positive: false, monotonic: false };
    assert_eq!(unique_integer(&mut counter, &mut scheduler, options), integer_from_i128(i128::MIN));
    let mut high = Scheduler { id: 1 << 63, next_unique: 1 };
    assert_eq!(unique_integer(&mut counter, &mut high, options), integer_from_i128(1));
}

#[test]
fn scheduler_integers_differ_between_schedulers() {
    let mut counter = MonotonicCounter { next: 0 };
    let mut first = Scheduler { id: 1, next_unique: 4 };
    let mut second = Scheduler { id: 2, next_unique: 4 };
    let options = Options { positive: true, monotonic: false };
    let a = unique_integer(&mut counter, &mut first, options);
    let b = unique_integer(&mut counter, &mut second, options);
    assert_ne!(a, b);
}

#[test]
fn scheduler_next_unique_integer_steps_and_wraps() {
    let mut scheduler = Scheduler { id: 4, next_unique: u64::MAX };
    assert_eq!(scheduler.next_unique_integer(), u64::MAX);
    assert_eq!(scheduler.next_unique, 0);
    assert_eq!(scheduler.next_unique_integer(), 0);
    assert_eq!(scheduler.next_unique, 1);
    assert_eq!(scheduler.id, 4);
}
