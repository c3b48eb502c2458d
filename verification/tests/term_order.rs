use lumen_runtime::digits::{compare_digits, le_digits_of, Order};
use lumen_runtime::numbers::compare_numbers;
use lumen_runtime::strategy::bits_to_bytes;
use lumen_runtime::term::{integer_from_i128, integer_from_i64, integer_from_u128, list_from_vec, make_pid, Node, Term};
use lumen_runtime::term_order::{compare, compare_byte_seqs};

fn float(f: f64) -> Term {
    Term::Float { bits: f.to_bits() }
}

fn atom(name: &str) -> Term {
    Term::Atom { name: name.as_bytes().to_vec() }
}

#[test]
fn integer_equals_float_of_same_value() {
    assert_eq!(compare_numbers(&integer_from_i64(1), &float(1.0)), Order::Equal);
    assert_eq!(compare(&float(1.0), &integer_from_i64(1)), Order::Equal);
}

#[test]
fn large_integer_compares_exactly_with_float() {
    let two_53_plus_1 = integer_from_i64((1i64 << 53) + 1);
    assert_eq!(compare_numbers(&two_53_plus_1, &float(9007199254740992.0)), Order::Greater);
    assert_eq!(compare_numbers(&float(9007199254740992.0), &two_53_plus_1), Order::Less);
}

#[test]
fn negative_zero_equals_zero() {
    assert_eq!(compare_numbers(&float(-0.0), &integer_from_i64(0)), Order::Equal);
    assert_eq!(compare_numbers(&float(-0.0), &float(0.0)), Order::Equal);
}

#[test]
fn floats_order_by_value() {
    assert_eq!(compare_numbers(&float(-2.5), &float(-1.0)), Order::Less);
    assert_eq!(compare_numbers(&float(0.5), &integer_from_i64(0)), Order::Greater);
    assert_eq!(compare_numbers(&float(-0.5), &integer_from_i64(-1)), Order::Greater);
    assert_eq!(compare_numbers(&float(1e300), &integer_from_u128(u128::MAX)), Order::Greater);
}

#[test]
fn integers_order_by_value() {
    assert_eq!(compare(&integer_from_i64(-3), &integer_from_i64(2)), Order::Less);
    assert_eq!(compare(&integer_from_i128(-(1i128 << 100)), &integer_from_i64(-5)), Order::Less);
    assert_eq!(compare(&integer_from_u128(1u128 << 100), &integer_from_u128(1u128 << 99)), Order::Greater);
    assert_eq!(compare(&integer_from_i64(7), &integer_from_i64(7)), Order::Equal);
}

#[test]
fn types_are_ordered_number_atom_reference_fun_port_pid_tuple_map_nil_list_bitstring() {
    let ordered = vec![
        integer_from_i64(100),
        atom("a"),
        Term::LocalReference { scheduler_id: 0, number: 0 },
        Term::Export { module: b"m".to_vec(), function: b"f".to_vec(), arity: 0 },
        Term::LocalPort { number: 0 },
        make_pid(0, 0).unwrap(),
        Term::Tuple { elements: vec![] },
        Term::ErlangMap { keys: vec![], values: vec![] },
        Term::Nil,
        list_from_vec(vec![integer_from_i64(1)], Term::Nil),
        Term::Binary { bytes: vec![] },
    ];
    for i in 0..ordered.len() {
        for j in 0..ordered.len() {
            let expected = if i < j {
                Order::Less
            } else if i == j {
                Order::Equal
            } else {
                Order::Greater
            };
            assert_eq!(compare(&ordered[i], &ordered[j]), expected, "{} {}", i, j);
        }
    }
}

#[test]
fn atoms_order_by_name() {
    assert_eq!(compare(&atom("abc"), &atom("abd")), Order::Less);
    assert_eq!(compare(&atom("ab"), &atom("abc")), Order::Less);
    assert_eq!(compare(&atom("b"), &atom("abc")), Order::Greater);
}

#[test]
fn tuples_order_by_size_then_elements() {
    let short = Term::Tuple { elements: vec![integer_from_i64(9)] };
    let long = Term::Tuple { elements: vec![integer_from_i64(1), integer_from_i64(2)] };
    assert_eq!(compare(&short, &long), Order::Less);
    let a = Term::Tuple { elements: vec![integer_from_i64(1), integer_from_i64(2)] };
    let b = Term::Tuple { elements: vec![integer_from_i64(1), integer_from_i64(3)] };
    assert_eq!(compare(&a, &b), Order::Less);
}

#[test]
fn lists_order_element_by_element() {
    let a = list_from_vec(vec![integer_from_i64(1), integer_from_i64(2)], Term::Nil);
    let b = list_from_vec(vec![integer_from_i64(1)], Term::Nil);
    assert_eq!(compare(&a, &b), Order::Greater);
    let c = list_from_vec(vec![integer_from_i64(0), integer_from_i64(9)], Term::Nil);
    assert_eq!(compare(&c, &b), Order::Less);
}

#[test]
fn pids_order_local_before_external() {
    let local = make_pid(10, 10).unwrap();
    let external = Term::ExternalPid { node: Node { name: b"n@h".to_vec(), creation: 0 }, number: 0, serial: 0 };
    assert_eq!(compare(&local, &external), Order::Less);
    assert_eq!(compare(&make_pid(5, 0).unwrap(), &make_pid(0, 1).unwrap()), Order::Less);
    assert_eq!(compare(&make_pid(5, 1).unwrap(), &make_pid(6, 1).unwrap()), Order::Less);
}

#[test]
fn bitstrings_order_bytewise_then_by_length() {
    let a = Term::Binary { bytes: vec![1, 2] };
    let b = Term::Binary { bytes: vec![1, 3] };
    let c = Term::BitString { bytes: vec![1, 0x80], trailing_bits: 1 };
    assert_eq!(compare(&a, &b), Order::Less);
    assert_eq!(compare(&Term::Binary { bytes: vec![1] }, &c), Order::Less);
    assert_eq!(compare(&c, &a), Order::Greater);
}

#[test]
fn compare_is_reflexive_and_antisymmetric_on_samples() {
    let samples = vec![
        integer_from_i64(-4),
        float(3.25),
        atom("x"),
        Term::Tuple { elements: vec![atom("x"), float(1.5)] },
        list_from_vec(vec![atom("y")], atom("z")),
        Term::BitString { bytes: vec![0xf0], trailing_bits: 4 },
    ];
    for a in &samples {
        assert_eq!(compare(a, a), Order::Equal);
        for b in &samples {
            let ab = compare(a, b);
            let ba = compare(b, a);
            let reversed = match ab {
                Order::Less => Order::Greater,
                Order::Equal => Order::Equal,
                Order::Greater => Order::Less,
            };
            assert_eq!(ba, reversed);
        }
    }
}

#[test]
fn byte_sequences_compare_lexicographically() {
    assert_eq!(compare_byte_seqs(&[1, 2], &[1, 2]), Order::Equal);
    assert_eq!(compare_byte_seqs(&[1], &[1, 0]), Order::Less);
    assert_eq!(compare_byte_seqs(&[2], &[1, 9]), Order::Greater);
}

#[test]
fn digit_sequences_compare_by_value() {
    let a = le_digits_of(0x1_0000);
    let b = le_digits_of(0xffff);
    assert_eq!(a, vec![0, 0, 1]);
    assert_eq!(compare_digits(&a, a.len(), &b, b.len()), Order::Greater);
    assert_eq!(compare_digits(&[1, 0, 0], 1, &[1], 1), Order::Equal);
    assert_eq!(le_digits_of(0), Vec::<u8>::new());
}

#[test]
fn bits_to_bytes_rounds_up() {
    assert_eq!(bits_to_bytes(0), 0);
    assert_eq!(bits_to_bytes(1), 1);
    assert_eq!(bits_to_bytes(8), 1);
    assert_eq!(bits_to_bytes(9), 2);
    assert_eq!(bits_to_bytes(64), 8);
}

#[test]
fn compare_is_transitive_on_samples() {
    let samples = vec![
        integer_from_i64(2),
        float(2.0),
        float(-7.5),
        integer_from_i128(-(1i128 << 70)),
        atom("b"),
        atom("ab"),
        make_pid(3, 0).unwrap(),
        Term::LocalReference { scheduler_id: 1, number: 2 },
        Term::ExternalReference { node: Node { name: b"a@b".to_vec(), creation: 0 }, scheduler_id: 0, number: 0 },
        Term::LocalPort { number: 5 },
        Term::ExternalPort { node: Node { name: b"a@b".to_vec(), creation: 1 }, number: 0 },
        Term::Tuple { elements: vec![integer_from_i64(1), float(1.0)] },
        Term::Tuple { elements: vec![float(1.0), integer_from_i64(1)] },
        Term::ErlangMap { keys: vec![integer_from_i64(1)], values: vec![atom("x")] },
        Term::ErlangMap { keys: vec![float(1.0)], values: vec![atom("x")] },
        Term::Nil,
        list_from_vec(vec![float(1.0)], Term::Nil),
        list_from_vec(vec![integer_from_i64(1)], Term::Nil),
        Term::Binary { bytes: vec![9] },
    ];
    for a in &samples {
        for b in &samples {
            for c in &samples {
                let ab = compare(a, b);
                let bc = compare(b, c);
                if ab != Order::Greater && bc != Order::Greater {
                    let expected = if ab == Order::Equal { bc } else { ab };
                    assert_eq!(compare(a, c), expected);
                }
            }
        }
    }
}

#[test]
fn references_and_ports_order_local_before_external() {
    let node = Node { name: b"n@h".to_vec(), creation: 2 };
    let local_ref = Term::LocalReference { scheduler_id: 9, number: 9 };
    let external_ref = Term::ExternalReference { node: node.clone(), scheduler_id: 0, number: 0 };
    assert_eq!(compare(&local_ref, &external_ref), Order::Less);
    assert_eq!(
        compare(&Term::LocalReference { scheduler_id: 1, number: 0 }, &Term::LocalReference { scheduler_id: 0, number: 5 }),
        Order::Greater
    );
    let external_port = Term::ExternalPort { node: node.clone(), number: 1 };
    assert_eq!(compare(&Term::LocalPort { number: 100 }, &external_port), Order::Less);
    let other_port = Term::ExternalPort { node: Node { name: b"n@h".to_vec(), creation: 3 }, number: 0 };
    assert_eq!(compare(&external_port, &other_port), Order::Less);
}

fn map(keys: Vec<Term>, values: Vec<Term>) -> Term {
    Term::ErlangMap { keys, values }
}

#[test]
fn maps_order_by_size_then_keys_then_values() {
    let small = map(vec![atom("z")], vec![integer_from_i64(9)]);
    let large = map(vec![atom("a"), atom("b")], vec![integer_from_i64(1), integer_from_i64(2)]);
    assert_eq!(compare(&small, &large), Order::Less);
    let a1 = map(vec![atom("a")], vec![integer_from_i64(1)]);
    let b0 = map(vec![atom("b")], vec![integer_from_i64(0)]);
    assert_eq!(compare(&a1, &b0), Order::Less);
    let a2 = map(vec![atom("a")], vec![integer_from_i64(2)]);
    assert_eq!(compare(&a1, &a2), Order::Less);
    let a1_float = map(vec![atom("a")], vec![float(1.0)]);
    assert_eq!(compare(&a1, &a1_float), Order::Equal);
}

#[test]
fn map_keys_compare_exactly() {
    let integer_key = map(vec![integer_from_i64(1)], vec![atom("x")]);
    let float_key = map(vec![float(1.0)], vec![atom("x")]);
    assert_eq!(compare(&integer_key, &float_key), Order::Less);
    assert_eq!(compare(&float_key, &integer_key), Order::Greater);
    let nested_integer = map(vec![Term::Tuple { elements: vec![integer_from_i64(2)] }], vec![Term::Nil]);
    let nested_float = map(vec![Term::Tuple { elements: vec![float(2.0)] }], vec![Term::Nil]);
    assert_eq!(compare(&nested_integer, &nested_float), Order::Less);
    let float_smaller = map(vec![float(0.5)], vec![atom("x")]);
    assert_eq!(compare(&float_smaller, &integer_key), Order::Less);
}
