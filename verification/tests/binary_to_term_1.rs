use lumen_runtime::atom_table::AtomTable;
use lumen_runtime::otp::erlang::binary_to_term_1::native;
use lumen_runtime::term::{integer_from_i64, integer_from_u64, Exception, Term};

fn atom(name: &str) -> Term {
    Term::Atom { name: name.as_bytes().to_vec() }
}

fn cons(head: Term, tail: Term) -> Term {
    Term::Cons { head: Box::new(head), tail: Box::new(tail) }
}

fn with_binary_returns_term(byte_vec: Vec<u8>, term: Term) {
    let mut atoms = AtomTable::new();
    let binary = Term::Binary { bytes: byte_vec };
    assert_eq!(native(&mut atoms, &binary), Ok(term));
}

#[test]
fn without_binary_errors_badarg() {
    let mut atoms = AtomTable::new();
    let not_binaries = vec![
        atom("atom"),
        integer_from_i64(131),
        Term::Nil,
        cons(integer_from_i64(131), cons(integer_from_i64(106), Term::Nil)),
        Term::Tuple { elements: vec![] },
        Term::BitString { bytes: vec![131, 0b0110_0000], trailing_bits: 3 },
        Term::Float { bits: 1.0f64.to_bits() },
    ];
    for binary in not_binaries {
        assert_eq!(native(&mut atoms, &binary), Err(Exception::Badarg));
    }
}

#[test]
fn with_binary_encoding_atom_returns_atom() {
    // :erlang.term_to_binary(:atom)
    with_binary_returns_term(vec![131, 100, 0, 4, 97, 116, 111, 109], atom("atom"));
}

#[test]
fn with_binary_encoding_empty_list_returns_empty_list() {
    // :erlang.term_to_binary([])
    with_binary_returns_term(vec![131, 106], Term::Nil);
}

#[test]
fn with_binary_encoding_list_returns_list() {
    // :erlang.term_to_binary([:zero, 1])
    with_binary_returns_term(
        vec![131, 108, 0, 0, 0, 2, 100, 0, 4, 122, 101, 114, 111, 97, 1, 106],
        cons(atom("zero"), cons(integer_from_i64(1), Term::Nil)),
    );
}

#[test]
fn with_binary_encoding_small_integer_returns_small_integer() {
    // :erlang.term_to_binary(0)
    with_binary_returns_term(vec![131, 97, 0], integer_from_i64(0));
}

#[test]
fn with_binary_encoding_integer_returns_integer() {
    // :erlang.term_to_binary(-2147483648)
    with_binary_returns_term(vec![131, 98, 128, 0, 0, 0], integer_from_i64(-2147483648));
}

#[test]
fn with_binary_encoding_new_float_returns_float() {
    // :erlang.term_to_binary(1.0)
    with_binary_returns_term(
        vec![131, 70, 63, 240, 0, 0, 0, 0, 0, 0],
        Term::Float { bits: 1.0f64.to_bits() },
    );
}

#[test]
fn with_binary_encoding_small_tuple_returns_tuple() {
    // :erlang.term_to_binary({:zero, 1})
    with_binary_returns_term(
        vec![131, 104, 2, 100, 0, 4, 122, 101, 114, 111, 97, 1],
        Term::Tuple { elements: vec![atom("zero"), integer_from_i64(1)] },
    );
}

#[test]
fn with_binary_encoding_byte_list_returns_list() {
    // :erlang.term_to_binary([?0, ?1])
    with_binary_returns_term(
        vec![131, 107, 0, 2, 48, 49],
        cons(integer_from_i64(48), cons(integer_from_i64(49), Term::Nil)),
    );
}

#[test]
fn with_binary_encoding_binary_returns_binary() {
    // :erlang.term_to_binary(<<0, 1>>)
    with_binary_returns_term(vec![131, 109, 0, 0, 0, 2, 0, 1], Term::Binary { bytes: vec![0, 1] });
}

#[test]
fn with_binary_encoding_small_big_integer_returns_big_integer() {
    // :erlang.term_to_binary(4294967295)
    with_binary_returns_term(vec![131, 110, 4, 0, 255, 255, 255, 255], integer_from_u64(4294967295));
}

#[test]
fn with_binary_encoding_bit_string_returns_subbinary() {
    // :erlang.term_to_binary(<<1, 2::3>>)
    with_binary_returns_term(
        vec![131, 77, 0, 0, 0, 2, 3, 1, 64],
        Term::BitString { bytes: vec![1, 0b010_00000], trailing_bits: 3 },
    );
}

#[test]
fn with_binary_encoding_small_atom_utf8_returns_atom() {
    // :erlang.term_to_binary(:"😈")
    with_binary_returns_term(vec![131, 119, 4, 240, 159, 152, 136], atom("😈"));
}

#[test]
fn try_native_decodes_like_native() {
    let mut atoms = AtomTable::new();
    let binary = Term::Binary { bytes: vec![131, 100, 0, 4, 97, 116, 111, 109] };
    assert_eq!(lumen_runtime::otp::erlang::binary_to_term_1::try_native(&mut atoms, &binary), Some(Ok(atom("atom"))));
}
