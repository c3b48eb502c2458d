use lumen_runtime::atom_table::AtomTable;
use lumen_runtime::binary::{utf8_bytes_of_binary, ToTermOptions};
use lumen_runtime::otp::erlang::binary_to_term_2::{native, native_would_panic, try_native, versioned_tagged_bytes_try_into_term};
use lumen_runtime::term::{integer_from_i64, Exception, Term};

fn atom(name: &str) -> Term {
    Term::Atom { name: name.as_bytes().to_vec() }
}

fn cons(head: Term, tail: Term) -> Term {
    Term::Cons { head: Box::new(head), tail: Box::new(tail) }
}

fn binary(bytes: &[u8]) -> Term {
    Term::Binary { bytes: bytes.to_vec() }
}

#[test]
fn to_term_options_default_sets_nothing() {
    assert_eq!(ToTermOptions::default(), ToTermOptions { existing: false, used: false });
}

#[test]
fn to_term_options_from_list() {
    let list = cons(atom("safe"), cons(atom("used"), Term::Nil));
    assert_eq!(ToTermOptions::try_from(&list), Ok(ToTermOptions { existing: true, used: true }));
    assert_eq!(ToTermOptions::try_from(&Term::Nil), Ok(ToTermOptions::default()));
}

#[test]
fn to_term_options_refuse_other_terms() {
    assert_eq!(ToTermOptions::try_from(&cons(atom("unsafe"), Term::Nil)), Err(Exception::Badarg));
    assert_eq!(ToTermOptions::try_from(&cons(atom("safe"), atom("used"))), Err(Exception::Badarg));
    assert_eq!(ToTermOptions::try_from(&atom("safe")), Err(Exception::Badarg));
}

#[test]
fn with_used_returns_term_and_bytes_used() {
    let mut atoms = AtomTable::new();
    let options = cons(atom("used"), Term::Nil);
    // :erlang.term_to_binary(0) followed by two bytes that are not read
    let result = native(&mut atoms, &binary(&[131, 97, 0, 1, 2]), &options);
    let expected = Term::Tuple { elements: vec![integer_from_i64(0), integer_from_i64(3)] };
    assert_eq!(result, Ok(expected));
}

#[test]
fn without_used_ignores_trailing_bytes() {
    let mut atoms = AtomTable::new();
    let result = native(&mut atoms, &binary(&[131, 106, 5]), &Term::Nil);
    assert_eq!(result, Ok(Term::Nil));
}

#[test]
fn with_safe_refuses_new_atoms_and_creates_none() {
    let mut atoms = AtomTable::new();
    let options = cons(atom("safe"), Term::Nil);
    let bytes = [131, 100, 0, 3, 110, 101, 119];
    assert_eq!(native(&mut atoms, &binary(&bytes), &options), Err(Exception::Badarg));
    assert!(!atoms.contains(b"new"));
}

#[test]
fn with_safe_accepts_existing_atoms() {
    let mut atoms = AtomTable::new();
    atoms.intern(b"new");
    let options = cons(atom("safe"), Term::Nil);
    let bytes = [131, 100, 0, 3, 110, 101, 119];
    assert_eq!(native(&mut atoms, &binary(&bytes), &options), Ok(atom("new")));
}

#[test]
fn without_safe_creates_atoms() {
    let mut atoms = AtomTable::new();
    let bytes = [131, 100, 0, 3, 110, 101, 119];
    assert_eq!(native(&mut atoms, &binary(&bytes), &Term::Nil), Ok(atom("new")));
    assert!(atoms.contains(b"new"));
}

#[test]
fn with_invalid_options_errors_badarg() {
    let mut atoms = AtomTable::new();
    let options = cons(integer_from_i64(1), Term::Nil);
    assert_eq!(native(&mut atoms, &binary(&[131, 106]), &options), Err(Exception::Badarg));
}

#[test]
fn without_version_byte_errors_badarg() {
    let mut atoms = AtomTable::new();
    assert_eq!(native(&mut atoms, &binary(&[130, 106]), &Term::Nil), Err(Exception::Badarg));
    assert_eq!(native(&mut atoms, &binary(&[]), &Term::Nil), Err(Exception::Badarg));
}

#[test]
fn with_bitstring_errors_badarg() {
    let mut atoms = AtomTable::new();
    let bits = Term::BitString { bytes: vec![131, 0x80], trailing_bits: 1 };
    assert_eq!(native(&mut atoms, &bits, &Term::Nil), Err(Exception::Badarg));
}

#[test]
fn versioned_bytes_decode_with_options() {
    let mut atoms = AtomTable::new();
    let options = ToTermOptions { existing: false, used: true };
    let result = versioned_tagged_bytes_try_into_term(&mut atoms, &options, &[131, 98, 0, 0, 1, 0]);
    let expected = Term::Tuple { elements: vec![integer_from_i64(256), integer_from_i64(6)] };
    assert_eq!(result, Ok(expected));
}

#[test]
fn truncated_term_errors_badarg() {
    let mut atoms = AtomTable::new();
    assert_eq!(native(&mut atoms, &binary(&[131, 98, 0, 0]), &Term::Nil), Err(Exception::Badarg));
    assert_eq!(native(&mut atoms, &binary(&[131, 108, 0, 0, 0, 2, 97, 1]), &Term::Nil), Err(Exception::Badarg));
}

#[test]
fn utf8_bytes_of_binary_accepts_text_only() {
    assert_eq!(utf8_bytes_of_binary(&binary("zoë".as_bytes())), Ok("zoë".as_bytes().to_vec()));
    assert_eq!(utf8_bytes_of_binary(&binary(&[0xff])), Err(Exception::Badarg));
    assert_eq!(utf8_bytes_of_binary(&atom("text")), Err(Exception::Badarg));
    let bits = Term::BitString { bytes: vec![0x61, 0x80], trailing_bits: 1 };
    assert_eq!(utf8_bytes_of_binary(&bits), Err(Exception::Badarg));
}

/// A fun `NEW_FUN_EXT` encoding whose size field is `size` (74 is right).
fn fun_binary(size: u32) -> Term {
    let mut bytes = vec![131, 112];
    bytes.extend(size.to_be_bytes());
    bytes.push(1);
    bytes.extend(0u8..16);
    bytes.extend(2u32.to_be_bytes());
    bytes.extend(1u32.to_be_bytes());
    bytes.extend([119, 6]);
    bytes.extend(b"erlang");
    bytes.extend([97, 2, 98, 0, 0, 0, 7, 88, 119, 13]);
    bytes.extend(b"nonode@nohost");
    bytes.extend(5u32.to_be_bytes());
    bytes.extend(0u32.to_be_bytes());
    bytes.extend(0u32.to_be_bytes());
    bytes.extend([97, 42]);
    Term::Binary { bytes }
}

#[test]
fn would_panic_only_on_failed_assertions() {
    let atoms = AtomTable::new();
    assert!(native_would_panic(&atoms, &fun_binary(75), &Term::Nil));
    assert!(!native_would_panic(&atoms, &fun_binary(74), &Term::Nil));
    assert!(!native_would_panic(&atoms, &binary(&[131, 1]), &Term::Nil));
    assert!(!native_would_panic(&atoms, &fun_binary(75), &atom("safe")));
    assert!(!atoms.contains(b"erlang"));
}

#[test]
fn try_native_answers_none_where_decoding_would_panic() {
    let mut atoms = AtomTable::new();
    assert_eq!(try_native(&mut atoms, &fun_binary(75), &Term::Nil), None);
    assert!(!atoms.contains(b"erlang"));
    let decoded = try_native(&mut atoms, &fun_binary(74), &Term::Nil);
    assert!(matches!(decoded, Some(Ok(Term::Closure { .. }))));
    assert!(atoms.contains(b"erlang"));
    assert_eq!(try_native(&mut atoms, &atom("x"), &Term::Nil), Some(Err(Exception::Badarg)));
}
