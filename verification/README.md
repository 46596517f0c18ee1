# csv-to-sqlite

Loads CSV files into a queryable SQLite database, with automatic per-column type inference,
indexes and a query runner. The logic is a library verified with Verus; a thin program around
it reads files and talks to SQLite.

- Each column becomes `INTEGER` if every value parses as an integer, `REAL` if every value is a
  finite number, otherwise `TEXT`. Empty cells are stored as `NULL` and do not count.
- All rows of a file are inserted in one transaction, or none is.
- Every file gets a table of its own.
- A query's result is printed as an aligned table or as CSV.
- Indexes, composite ones too, can be created after loading.

## Layout

- `src/` is the library. It opens no files and no databases: it takes the bytes of a CSV file,
  hands out requests to a database one after the other, and goes on with the answer to each.
  - `text`, `number`: strings and numbers as sequences of characters
  - `infer`, `value`: column types and the values that fields are stored as
  - `records`, `table`: CSV text through the `csv` crate, and the tables that it makes
  - `ident`, `sql`: identifiers and statements
  - `db`, `load`, `index`, `query`: the exchanges with a database
  - `render`: aligned tables
  - `cli`: what the options of a run ask for
- `app/` is the program: options (`clap`), files, and a `rusqlite` connection that carries out
  the requests.
- `tests/` runs the library, on values and against real SQLite databases.

Functions named `law_...` state what holds of the library as a whole: that a load which fails
leaves no rows behind, that a name never breaks out of its quotes in a statement, that no index
is reported as created unless it was, and the like.

## What is taken on trust

The contracts of a few functions of the standard library (`String::push`, `String::from_utf8`,
reading a real number, the stem of a path) and of the `csv` crate (reading and writing records)
are believed, not proved. They are marked `external_body` or `assume_specification`, with what
is relied on written above each.
