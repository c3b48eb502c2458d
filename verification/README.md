# lumen_runtime

Verified pieces of the Lumen Erlang runtime, written in Verus.

- `src/term.rs`: Erlang terms (`Term`) and their mathematical model (`SpecTerm`).
- `src/distribution/external_term_format/`: the external term format decoder.
  `grammar.rs` states, as spec functions over byte sequences, what each encoding
  means; every decoder is proved to follow it, including which atoms it creates
  and where the runtime's assertions fail, which
  `binary_to_term_2::native_would_panic` tells a caller beforehand.
- `src/otp/erlang/`: the built-ins `binary_to_term/1,2`, `unique_integer/1` and
  `min/2`, with their laws (uniqueness and monotonicity of unique integers, `min`
  picks a least argument).
- `src/term_order.rs`, `src/numbers.rs`, `src/digits.rs`: the standard term order
  over numbers, atoms, references, funs, ports, pids, tuples, maps, nil, lists and
  bit strings, with exact comparison of integers and floats, proved reflexive,
  antisymmetric and transitive. The external term format decoder reads no
  references, ports or maps.
- `src/atom_table.rs`, `src/utf8.rs`, `src/binary.rs`, `src/strategy.rs`: the atom
  table, UTF-8 validation, binary text and `binary_to_term` options, and sizes.
- `app/`: the browser built-ins (`Lumen.Web.*`), which act on the DOM through
  web-sys and call the library for their argument checks.

`tests/` runs the library on concrete inputs.
