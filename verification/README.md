# tpcc_ranking

The rules of a ranked TPC-C run, as a library whose contracts Verus proves:

- `profile`, `phases`, `phase_scheduler`: the official profile and the schedule
  of warm-up and measurement windows.
- `measurement`: what a window counts and covers.
- `binary32`, `accumulator`: FLOAT32 arithmetic on bit patterns and exact sums.
- `ranking::ledger`, `ranking::run_ledger`: the ledger of terminal events and
  its text.
- `ranking::bounded_*`, `ranking::evidence_collector`,
  `ranking::payment_endpoints`: statistics and row chains in bounded memory,
  whatever the order of the responses.
- `ranking::new_order`, `payment`, `order_status`, `delivery` and their flows:
  the batches of each transaction, the checks of the answers, and what follows
  each answer.
- `ranking::catalog`, `ranking::runtime_catalog`, `runtime_schema`: the prepared
  statements and their names in one run.
- `ranking::canonical`, `ranking::core_artifact_codec`,
  `ranking::interval_sections`: canonical bytes and hexadecimal text.

Functions named `law_…` state what holds of several functions together.

The library has no floating-point type. A message that shows a FLOAT32 value is
kept in two halves with the bits between them (`message_with`); whoever prints
it writes the number.

`tests/` runs the library on concrete values. `app/` holds the clock, the loop
that carries batches over a connection, and errors that print themselves.
