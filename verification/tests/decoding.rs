use lumen_runtime::atom_table::{bytes_eq, AtomTable};
use lumen_runtime::distribution::external_term_format::integers::{
    decode_tagged_isize, decode_tagged_u8, decode_u16, decode_u32, decode_u64, decode_u8, skip,
};
use lumen_runtime::distribution::external_term_format::scalars::{
    decode_bit_binary, decode_integer, decode_large_big, decode_new_float, decode_small_big,
    decode_string, trimmed_len,
};
use lumen_runtime::distribution::external_term_format::grammar::DecodeError;
use lumen_runtime::distribution::external_term_format::term::decode_tagged;
use lumen_runtime::distribution::external_term_format::{
    atom, export, new_function, pid, small_atom,
};
use lumen_runtime::term::{
    integer_from_i128, integer_from_i64, integer_from_u128, list_from_vec, make_pid, Exception, Node, Term,
};
use lumen_runtime::utf8::is_valid_utf8;

fn atom_term(name: &str) -> Term {
    Term::Atom { name: name.as_bytes().to_vec() }
}

/// A small UTF-8 atom with its tag.
fn tagged_atom(name: &str) -> Vec<u8> {
    let mut bytes = vec![119, name.len() as u8];
    bytes.extend_from_slice(name.as_bytes());
    bytes
}

#[test]
fn integers_decode_big_endian() {
    assert_eq!(decode_u8(&[7, 1]), Ok((7u8, &[1u8][..])));
    assert_eq!(decode_u16(&[1, 2, 3]), Ok((0x0102u16, &[3u8][..])));
    assert_eq!(decode_u32(&[1, 2, 3, 4]), Ok((0x0102_0304u32, &[][..])));
    assert_eq!(decode_u64(&[0, 0, 0, 0, 0, 0, 1, 0, 9]), Ok((256u64, &[9u8][..])));
}

#[test]
fn integers_too_short_error_badarg() {
    assert_eq!(decode_u8(&[]), Err(Exception::Badarg));
    assert_eq!(decode_u16(&[1]), Err(Exception::Badarg));
    assert_eq!(decode_u32(&[1, 2, 3]), Err(Exception::Badarg));
    assert_eq!(decode_u64(&[1, 2, 3, 4, 5, 6, 7]), Err(Exception::Badarg));
}

#[test]
fn skip_drops_leading_bytes() {
    assert_eq!(skip(&[1, 2, 3], 2), &[3u8][..]);
    assert_eq!(skip(&[1, 2, 3], 0), &[1u8, 2, 3][..]);
}

#[test]
fn tagged_small_integers_decode() {
    assert_eq!(decode_tagged_u8(&[97, 200, 5]), Ok((200u8, &[5u8][..])));
    assert_eq!(decode_tagged_u8(&[98, 0, 0, 0, 1]), Err(Exception::Badarg));
    assert_eq!(decode_tagged_isize(&[97, 255]), Ok((255isize, &[][..])));
    assert_eq!(decode_tagged_isize(&[98, 255, 255, 255, 254]), Ok((-2isize, &[][..])));
    assert_eq!(decode_tagged_isize(&[100, 0]), Err(Exception::Badarg));
}

#[test]
fn integer_ext_is_signed() {
    assert_eq!(decode_integer(&[255, 255, 255, 255]), Ok((integer_from_i64(-1), &[][..])));
    assert_eq!(decode_integer(&[0, 0, 1, 0, 6]), Ok((integer_from_i64(256), &[6u8][..])));
}

#[test]
fn small_big_decodes_sign_and_magnitude() {
    // 2^64, little-endian digits
    let bytes = [9, 0, 0, 0, 0, 0, 0, 0, 0, 0, 1];
    assert_eq!(decode_small_big(&bytes), Ok((integer_from_u128(1u128 << 64), &[][..])));
    let negative = [2, 1, 0x34, 0x12];
    assert_eq!(decode_small_big(&negative), Ok((integer_from_i64(-0x1234), &[][..])));
}

#[test]
fn small_big_with_zero_digits_is_canonical_zero() {
    let bytes = [3, 1, 0, 0, 0];
    assert_eq!(decode_small_big(&bytes), Ok((integer_from_i64(0), &[][..])));
}

#[test]
fn large_big_decodes() {
    let bytes = [0, 0, 0, 2, 1, 1, 1, 7];
    assert_eq!(decode_large_big(&bytes), Ok((integer_from_i128(-257), &[7u8][..])));
    assert_eq!(decode_large_big(&[0, 0, 0, 2, 0, 1]), Err(Exception::Badarg));
}

#[test]
fn trimmed_len_drops_high_zero_digits() {
    assert_eq!(trimmed_len(&[1, 2, 0, 0]), 2);
    assert_eq!(trimmed_len(&[0, 0]), 0);
    assert_eq!(trimmed_len(&[]), 0);
    assert_eq!(trimmed_len(&[0, 5]), 2);
}

#[test]
fn new_float_decodes_bits() {
    let bits = 2.5f64.to_bits().to_be_bytes();
    assert_eq!(decode_new_float(&bits), Ok((Term::Float { bits: 2.5f64.to_bits() }, &[][..])));
}

#[test]
fn new_float_refuses_non_finite() {
    let bits = f64::INFINITY.to_bits().to_be_bytes();
    assert_eq!(decode_new_float(&bits), Err(Exception::Badarg));
    let nan = f64::NAN.to_bits().to_be_bytes();
    assert_eq!(decode_new_float(&nan), Err(Exception::Badarg));
}

#[test]
fn bit_binary_keeps_high_bits_of_last_byte() {
    let bytes = [0, 0, 0, 2, 3, 0xff, 0xe0, 4];
    assert_eq!(
        decode_bit_binary(&bytes),
        Ok((Term::BitString { bytes: vec![0xff, 0xe0], trailing_bits: 3 }, &[4u8][..]))
    );
}

#[test]
fn string_decodes_to_list_of_bytes() {
    let bytes = [0, 2, 104, 105];
    let expected = list_from_vec(vec![integer_from_i64(104), integer_from_i64(105)], Term::Nil);
    assert_eq!(decode_string(&bytes), Ok((expected, &[][..])));
}

#[test]
fn small_atom_decodes_and_interns() {
    let mut atoms = AtomTable::new();
    let bytes = [3, 97, 98, 99, 0];
    assert_eq!(small_atom::decode(&mut atoms, false, &bytes), Ok((atom_term("abc"), &[0u8][..])));
    assert!(atoms.contains(b"abc"));
}

#[test]
fn small_atom_in_safe_mode_needs_an_existing_atom() {
    let mut atoms = AtomTable::new();
    let bytes = [3, 97, 98, 99];
    assert_eq!(small_atom::decode(&mut atoms, true, &bytes), Err(Exception::Badarg));
    assert!(!atoms.contains(b"abc"));
    atoms.intern(b"abc");
    assert_eq!(small_atom::decode(&mut atoms, true, &bytes), Ok((atom_term("abc"), &[][..])));
}

#[test]
fn small_atom_refuses_invalid_utf8() {
    let mut atoms = AtomTable::new();
    assert_eq!(small_atom::decode(&mut atoms, false, &[1, 0xff]), Err(Exception::Badarg));
    assert_eq!(small_atom::decode(&mut atoms, false, &[4, 97]), Err(Exception::Badarg));
}

#[test]
fn atom_with_two_byte_length_decodes() {
    let mut atoms = AtomTable::new();
    assert_eq!(atom::decode(&mut atoms, false, &[0, 2, 111, 107]), Ok((b"ok".to_vec(), &[][..])));
    assert_eq!(atom::decode_tagged(&mut atoms, false, &[100, 0, 2, 111, 107]), Ok((b"ok".to_vec(), &[][..])));
}

#[test]
fn atom_longer_than_the_limit_errors_badarg() {
    let mut atoms = AtomTable::new();
    let mut bytes = vec![1, 0];
    bytes.extend(std::iter::repeat(97).take(256));
    assert_eq!(atom::decode(&mut atoms, false, &bytes), Err(Exception::Badarg));
}

#[test]
fn export_decodes_module_function_and_arity() {
    let mut atoms = AtomTable::new();
    let mut bytes = tagged_atom("erlang");
    bytes.extend(tagged_atom("self"));
    bytes.extend([97, 0, 42]);
    let expected = Term::Export { module: b"erlang".to_vec(), function: b"self".to_vec(), arity: 0 };
    assert_eq!(export::decode(&mut atoms, false, &bytes), Ok((expected, &[42u8][..])));
    assert!(atoms.contains(b"erlang"));
    assert!(atoms.contains(b"self"));
}

#[test]
fn export_without_small_integer_arity_errors_badarg() {
    let mut atoms = AtomTable::new();
    let mut bytes = tagged_atom("erlang");
    bytes.extend(tagged_atom("self"));
    bytes.extend([98, 0, 0, 0, 0]);
    assert_eq!(export::decode(&mut atoms, false, &bytes), Err(Exception::Badarg));
}

fn local_pid_bytes(number: u32, serial: u32) -> Vec<u8> {
    let mut bytes = vec![88];
    bytes.extend(tagged_atom("nonode@nohost"));
    bytes.extend(number.to_be_bytes());
    bytes.extend(serial.to_be_bytes());
    bytes.extend(0u32.to_be_bytes());
    bytes
}

#[test]
fn local_pid_decodes() {
    let mut atoms = AtomTable::new();
    let bytes = local_pid_bytes(5, 1);
    assert_eq!(pid::decode(&mut atoms, false, &bytes), Ok((make_pid(5, 1).unwrap(), &[][..])));
}

#[test]
fn local_pid_out_of_range_errors_badarg() {
    let mut atoms = AtomTable::new();
    let bytes = local_pid_bytes(0x8000, 0);
    assert_eq!(pid::decode(&mut atoms, false, &bytes), Err(Exception::Badarg));
    assert_eq!(make_pid(0, 0x2000), Err(Exception::Badarg));
}

#[test]
fn external_pid_keeps_node_and_creation() {
    let mut atoms = AtomTable::new();
    let mut bytes = vec![103];
    bytes.extend(tagged_atom("node@host"));
    bytes.extend(0x9000u32.to_be_bytes());
    bytes.extend(3u32.to_be_bytes());
    bytes.push(2);
    let expected = Term::ExternalPid {
        node: Node { name: b"node@host".to_vec(), creation: 2 },
        number: 0x9000,
        serial: 3,
    };
    assert_eq!(pid::decode(&mut atoms, false, &bytes), Ok((expected, &[][..])));
}

fn fun_bytes(total: u32) -> Vec<u8> {
    let mut bytes = total.to_be_bytes().to_vec();
    bytes.push(1);
    bytes.extend(0u8..16);
    bytes.extend(2u32.to_be_bytes());
    bytes.extend(1u32.to_be_bytes());
    bytes.extend(tagged_atom("erlang"));
    bytes.extend([97, 2]);
    bytes.extend([98, 0, 0, 0, 7]);
    bytes.extend(local_pid_bytes(5, 0));
    bytes.extend([97, 42]);
    bytes
}

#[test]
fn new_function_decodes_closure_with_environment() {
    let mut atoms = AtomTable::new();
    let mut bytes = fun_bytes(74);
    assert_eq!(bytes.len(), 74);
    bytes.extend([1, 2]);
    let expected = Term::Closure {
        module: b"erlang".to_vec(),
        index: 2,
        old_unique: 7,
        unique: (0u8..16).collect(),
        arity: 1,
        creator: Box::new(make_pid(5, 0).unwrap()),
        env: vec![integer_from_i64(42)],
    };
    assert_eq!(new_function::decode(&mut atoms, false, &bytes), Ok((expected, &[1u8, 2][..])));
}

#[test]
fn new_function_too_short_errors_badarg() {
    let mut atoms = AtomTable::new();
    let bytes = fun_bytes(74);
    assert_eq!(new_function::decode(&mut atoms, false, &bytes[..20]), Err(Exception::Badarg));
}

#[test]
fn decode_uniq_takes_sixteen_bytes() {
    let bytes: Vec<u8> = (0u8..18).collect();
    let (uniq, rest) = new_function::decode_uniq(&bytes).unwrap();
    assert_eq!(uniq, (0u8..16).collect::<Vec<u8>>());
    assert_eq!(rest, &[16u8, 17][..]);
    assert_eq!(new_function::decode_uniq(&bytes[..15]), Err(Exception::Badarg));
}

#[test]
fn tagged_terms_nest() {
    let mut atoms = AtomTable::new();
    // {[1], <<7>>}
    let bytes = [104, 2, 108, 0, 0, 0, 1, 97, 1, 106, 109, 0, 0, 0, 1, 7, 99];
    let expected = Term::Tuple {
        elements: vec![
            list_from_vec(vec![integer_from_i64(1)], Term::Nil),
            Term::Binary { bytes: vec![7] },
        ],
    };
    assert_eq!(decode_tagged(&mut atoms, false, &bytes), Ok((expected, &[99u8][..])));
}

#[test]
fn improper_list_keeps_its_tail() {
    let mut atoms = AtomTable::new();
    let bytes = [108, 0, 0, 0, 1, 97, 1, 97, 2];
    let expected = list_from_vec(vec![integer_from_i64(1)], integer_from_i64(2));
    assert_eq!(decode_tagged(&mut atoms, false, &bytes), Ok((expected, &[][..])));
}

#[test]
fn unknown_tag_errors_badarg() {
    let mut atoms = AtomTable::new();
    assert_eq!(decode_tagged(&mut atoms, false, &[1, 2, 3]), Err(DecodeError::Badarg));
    assert_eq!(decode_tagged(&mut atoms, false, &[]), Err(DecodeError::Badarg));
}

#[test]
fn utf8_validity() {
    assert!(is_valid_utf8(b""));
    assert!(is_valid_utf8("héllo €𝄞".as_bytes()));
    assert!(!is_valid_utf8(&[0xc0, 0x80]));
    assert!(!is_valid_utf8(&[0xed, 0xa0, 0x80]));
    assert!(!is_valid_utf8(&[0xe2, 0x82]));
    assert!(!is_valid_utf8(&[0xf4, 0x90, 0x80, 0x80]));
}

#[test]
fn atom_table_interns_once() {
    let mut atoms = AtomTable::new();
    assert!(!atoms.contains(b"a"));
    atoms.intern(b"a");
    atoms.intern(b"a");
    assert!(atoms.contains(b"a"));
    assert!(!atoms.contains(b"b"));
    assert!(bytes_eq(b"ab", b"ab"));
    assert!(!bytes_eq(b"ab", b"abc"));
}

#[test]
fn new_function_with_wrong_size_fails_its_assertion() {
    let mut atoms = AtomTable::new();
    let bytes = fun_bytes(75);
    assert_eq!(new_function::decode_checked(&mut atoms, false, &bytes).map(|_| ()), Err(DecodeError::Assertion));
}

#[test]
fn new_function_with_old_index_not_index_fails_its_assertion() {
    let mut atoms = AtomTable::new();
    let mut bytes = fun_bytes(74);
    // the old index, a small integer after the module atom
    let at = 4 + 1 + 16 + 4 + 4 + 8 + 1;
    assert_eq!(bytes[at], 2);
    bytes[at] = 3;
    assert_eq!(new_function::decode_checked(&mut atoms, false, &bytes).map(|_| ()), Err(DecodeError::Assertion));
}

#[test]
fn nested_failed_assertion_reaches_the_tagged_decoder() {
    let mut atoms = AtomTable::new();
    let mut bytes = vec![104, 1, 112];
    bytes.extend(fun_bytes(75));
    assert_eq!(decode_tagged(&mut atoms, false, &bytes).map(|_| ()), Err(DecodeError::Assertion));
}
