# koperasi

The books of a savings-and-loan cooperative, verified with Verus.

- `src/` is the library: members and their savings accounts, loans and their
  disbursement, member payments, reversals, the read model shown to users,
  the import of the legacy workbook, the checks of a new version of the
  financial parameters, and the business calendar. Each use case
  states in its contract what it does to the books and when it refuses;
  `src/laws.rs` proves what holds across them (a reversal undoes a posting,
  balances never fall below zero, the imported cash book adds up, the
  snapshot's savings total is the sum of its members' savings).
- `tests/` runs the library on concrete books.
- `app/` is the desktop shell around it: the SQLite storage, the workbook
  reader, the loan figures that need floating-point arithmetic, and a loop
  that serves the user interface's requests as JSON lines.
