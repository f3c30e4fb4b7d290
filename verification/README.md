# rustql

A small SQL-like database engine whose logic is verified with Verus:
`CREATE TABLE`, `INSERT` and single-table `SELECT` with `WHERE`, column
aliases, arithmetic, comparisons and three-valued `AND`/`OR`/`NOT`; typed
columns with `NOT NULL` and primary-key constraints; case-insensitive table and
column names; and a `.seed` command that fills a table with generated rows.

## Layout

- `src/` — the verified library.
  - `span`, `text`, `token`, `expr`, `statement`: source spans, character
    helpers, tokens, expressions and statements, each with a mathematical view.
  - `lexer`, `parser`: the token grammar and the statement grammar as spec
    functions, and executable lexer and parser proved to follow them.
  - `database`, `evaluation`, `executor`: tables and their validity (with a
    hash-based index of rows by primary key, kept in step with the rows), type
    checking and evaluation of expressions, and statement execution.
  - `messages`, `repl`: the texts of errors and results, and what the prompt
    does with a line.
  - `float`: floating-point values are carried as IEEE-754 bit patterns; their
    arithmetic, parsing and printing are asked of a caller-supplied float host,
    and contracts hold for every model that describes the host's answers.
  - `laws`: properties of the engine as a whole — every statement keeps the
    database valid, and what each one changes; a stored database reloads
    unchanged; the primary-key lookup picks exactly the row that passes the
    WHERE clause and returns what a full scan returns; an inserted row is read
    back; `.seed` appends rows; a well-typed expression never fails with a
    type error; and token spans fall on character boundaries.
- `app/` — the interactive prompt: JSON persistence with `serde_json`
  (written to a temporary file, then renamed over `db.json`), the `f64` float
  host, and the read–print loop.
- `tests/` — tests of the library.
