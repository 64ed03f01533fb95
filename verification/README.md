# payments_engine

A payments engine: it reads a CSV stream of deposits, withdrawals, disputes,
resolutions and chargebacks, keeps every client's account, and writes the
accounts out as CSV.

- `src/` is the verified library (Verus). `ledger.rs` holds the ledger, its
  invariant and the specification of one step (`ledger_step`) and of a whole
  run (`run_records`); `client.rs` the account and its operations;
  `amount.rs` the decimal amounts, held as mantissa and scale, with all
  their arithmetic done by `rust_decimal`; `fnv_map.rs` the FNV hash maps;
  `numeral.rs` how a written amount reads back as a number; `laws.rs` the
  properties proved across operations, records and whole runs.
- `app/main.rs` is the command-line program: argument handling, CSV reading
  and writing.
- `tests/` runs the library on the scenarios of the engine.
