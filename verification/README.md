# nda_takehome

A payments engine. Client accounts apply deposits, withdrawals, disputes,
resolves and chargebacks; amounts are fixed-point with four decimal places;
a service buffers transactions and applies them in batches, oldest first.

- `src/` is the library, verified with Verus: amounts (`domain/amount.rs`:
  parsing, text form, arithmetic), accounts and their transaction lifecycle
  (`domain/account.rs`), an executable check of everything an account keeps
  true (`domain/invariant_check.rs`), the service and its ledger of accounts
  (`service/`), the decoding of input rows (`infrastructure/csv_reader.rs`)
  and the output records (`message.rs`). Each operation's contract states its
  result and effect over an abstract model; the laws of the engine (the
  account invariant, frozen locked accounts, oldest-first processing, client
  isolation, exact amount text) are proof functions next to the code.
- `app/` is the program around it: command line, CSV file reading and
  writing, the asynchronous event loop, logging and metrics.
- `tests/` runs the library on concrete inputs.
