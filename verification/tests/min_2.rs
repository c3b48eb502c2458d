use lumen_runtime::otp::erlang::min_2::native;
use lumen_runtime::term::{integer_from_i64, make_pid, Node, Term};

enum FirstSecond {
    First,
    Second,
}

fn local_pid(number: u32, serial: u32) -> Term {
    make_pid(number, serial).unwrap()
}

fn atom(name: &str) -> Term {
    Term::Atom { name: name.as_bytes().to_vec() }
}

fn external_pid(number: u32, serial: u32) -> Term {
    Term::ExternalPid {
        node: Node { name: b"node@external".to_vec(), creation: 0 },
        number,
        serial,
    }
}

/// `min` of the local pid `<0.0.1>` (number 0, serial 1) and `second`.
fn min(second: Term, which: FirstSecond) {
    let first = local_pid(0, 1);
    let expected = match which {
        FirstSecond::First => local_pid(0, 1),
        FirstSecond::Second => {
            let copy = match &second {
                Term::LocalPid { number, serial } => local_pid(*number, *serial),
                Term::ExternalPid { node, number, serial } => Term::ExternalPid {
                    node: node.clone(),
                    number: *number,
                    serial: *serial,
                },
                Term::Atom { name } => Term::Atom { name: name.clone() },
                Term::Integer { negative, magnitude } => Term::Integer {
                    negative: *negative,
                    magnitude: magnitude.clone(),
                },
                _ => panic!("no copy for this term"),
            };
            copy
        },
    };
    assert_eq!(native(first, second), expected);
}

#[test]
fn with_lesser_local_pid_second_returns_second() {
    min(local_pid(0, 0), FirstSecond::Second);
}

#[test]
fn with_same_local_pid_second_returns_first() {
    min(local_pid(0, 1), FirstSecond::First);
}

#[test]
fn with_same_value_local_pid_second_returns_first() {
    min(local_pid(0, 1), FirstSecond::First);
}

#[test]
fn with_greater_local_pid_second_returns_first() {
    min(local_pid(1, 1), FirstSecond::First);
}

#[test]
fn with_external_pid_second_returns_first() {
    min(external_pid(2, 3), FirstSecond::First);
}

#[test]
fn with_number_atom_reference_function_or_port_second_returns_second() {
    min(integer_from_i64(-5), FirstSecond::Second);
    min(integer_from_i64(1_000_000), FirstSecond::Second);
    min(atom("atom"), FirstSecond::Second);
    let reference = Term::LocalReference { scheduler_id: 1, number: 7 };
    assert_eq!(native(local_pid(0, 1), reference), Term::LocalReference { scheduler_id: 1, number: 7 });
    let port = Term::ExternalPort { node: Node { name: b"node@external".to_vec(), creation: 1 }, number: 3 };
    assert_eq!(
        native(local_pid(0, 1), port),
        Term::ExternalPort { node: Node { name: b"node@external".to_vec(), creation: 1 }, number: 3 }
    );
    let first = local_pid(0, 1);
    let export = Term::Export { module: b"erlang".to_vec(), function: b"min".to_vec(), arity: 2 };
    match native(first, export) {
        Term::Export { arity, .. } => assert_eq!(arity, 2),
        other => panic!("expected the export, got {:?}", other),
    }
}

#[test]
fn with_list_or_bitstring_second_returns_first() {
    let list = Term::Cons { head: Box::new(atom("a")), tail: Box::new(Term::Nil) };
    assert_eq!(native(local_pid(0, 1), list), local_pid(0, 1));
    let tuple = Term::Tuple { elements: vec![] };
    assert_eq!(native(local_pid(0, 1), tuple), local_pid(0, 1));
    let binary = Term::Binary { bytes: vec![1, 2] };
    assert_eq!(native(local_pid(0, 1), binary), local_pid(0, 1));
    let map = Term::ErlangMap { keys: vec![atom("k")], values: vec![Term::Nil] };
    assert_eq!(native(local_pid(0, 1), map), local_pid(0, 1));
    let bit_string = Term::BitString { bytes: vec![0b1010_0000], trailing_bits: 3 };
    assert_eq!(native(local_pid(0, 1), bit_string), local_pid(0, 1));
}

#[test]
fn min_is_first_if_first_is_less_than_or_equal_to_second() {
    let cases: Vec<(Term, Term)> = vec![
        (integer_from_i64(1), integer_from_i64(2)),
        (integer_from_i64(3), integer_from_i64(3)),
        (integer_from_i64(7), atom("a")),
        (atom("a"), atom("b")),
        (atom("a"), local_pid(0, 0)),
        (local_pid(5, 0), local_pid(0, 1)),
        (Term::LocalReference { scheduler_id: 0, number: 9 }, Term::LocalReference { scheduler_id: 1, number: 0 }),
        (Term::LocalReference { scheduler_id: 0, number: 9 }, Term::LocalPort { number: 0 }),
        (Term::LocalPort { number: 4 }, local_pid(0, 0)),
        (Term::ErlangMap { keys: vec![], values: vec![] }, Term::Nil),
        (
            Term::ErlangMap { keys: vec![integer_from_i64(1)], values: vec![Term::Nil] },
            Term::ErlangMap { keys: vec![Term::Float { bits: 1.0f64.to_bits() }], values: vec![Term::Nil] },
        ),
        (Term::Nil, Term::Cons { head: Box::new(Term::Nil), tail: Box::new(Term::Nil) }),
        (Term::Binary { bytes: vec![1] }, Term::Binary { bytes: vec![1, 0] }),
    ];
    for (first, second) in cases {
        let expected = format!("{:?}", first);
        assert_eq!(format!("{:?}", native(first, second)), expected);
    }
}

#[test]
fn min_is_second_if_first_is_greater_than_second() {
    let cases: Vec<(Term, Term)> = vec![
        (integer_from_i64(2), integer_from_i64(1)),
        (atom("a"), integer_from_i64(7)),
        (atom("b"), atom("a")),
        (local_pid(0, 1), local_pid(5, 0)),
        (Term::Cons { head: Box::new(Term::Nil), tail: Box::new(Term::Nil) }, Term::Nil),
        (Term::Binary { bytes: vec![2] }, Term::Binary { bytes: vec![1, 9] }),
    ];
    for (first, second) in cases {
        let expected = format!("{:?}", second);
        assert_eq!(format!("{:?}", native(first, second)), expected);
    }
}
