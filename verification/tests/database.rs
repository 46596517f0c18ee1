//! The library against real SQLite databases: tables are loaded, indexes are created and
//! queries are run by carrying out the library's requests on a `rusqlite` connection.

use csv_to_sqlite::cli::{plan, Job, Options, Target, UsageError};
use csv_to_sqlite::index::indexed_notice;
use csv_to_sqlite::load::{loaded_notice, LoadTask};
use csv_to_sqlite::{
    create_index, create_table_ddl, harden_connection, load_table_into_db, read_csv_table,
    read_table_exists, run_query, table_exists, table_name_from_path, Cell, ColType, DbReply,
    DbRequest, DbSetting, FailedAt, IfExists, IndexError, IndexOutcome, LoadError, LoadedTable,
    OutputFormat, QueryError, SqlValue,
};
use rusqlite::config::DbConfig;
use rusqlite::types::Value;
use rusqlite::Connection;
use std::path::Path;
use tempfile::{NamedTempFile, TempDir};

const PEOPLE_CSV: &str = "id,name,price\n1,alice,9.99\n2,bob,19.50\n3,carol,5.00\n";

// ---------------------------------------------------------------------------
// Carrying out requests
// ---------------------------------------------------------------------------

fn failed(at: FailedAt, cause: impl ToString) -> DbReply {
    DbReply::Failed { at, cause: cause.to_string() }
}

fn cell(value: Value) -> Cell {
    match value {
        Value::Null => Cell::Null,
        Value::Integer(i) => Cell::Integer(i),
        Value::Real(f) => Cell::Real(f.to_string()),
        Value::Text(s) => Cell::Text(s),
        Value::Blob(b) => Cell::Blob(b),
    }
}

fn bound(value: SqlValue) -> Value {
    match value {
        SqlValue::Null => Value::Null,
        SqlValue::Integer(i) => Value::Integer(i),
        SqlValue::Real(bits) => Value::Real(f64::from_bits(bits)),
        SqlValue::Text(s) => Value::Text(s),
    }
}

fn answer_query(conn: &Connection, sql: &str, params: &[String]) -> DbReply {
    let mut stmt = match conn.prepare(sql) {
        Ok(stmt) => stmt,
        Err(e) => return failed(FailedAt::Preparing, e),
    };
    let headers: Vec<String> = stmt.column_names().iter().map(|s| s.to_string()).collect();
    let n = headers.len();
    let mut found = match stmt.query(rusqlite::params_from_iter(params.iter())) {
        Ok(found) => found,
        Err(e) => return failed(FailedAt::Executing, e),
    };
    let mut rows = Vec::new();
    loop {
        let row = match found.next() {
            Ok(Some(row)) => row,
            Ok(None) => return DbReply::Rows { headers, rows },
            Err(e) => return failed(FailedAt::FetchingRow, e),
        };
        let mut cells = Vec::new();
        for i in 0..n {
            match row.get::<_, Value>(i) {
                Ok(v) => cells.push(cell(v)),
                Err(e) => return failed(FailedAt::ReadingCell, e),
            }
        }
        rows.push(cells);
    }
}

fn perform(conn: &Connection, request: DbRequest) -> DbReply {
    match request {
        DbRequest::Disable(setting) => {
            let config = match setting {
                DbSetting::DoubleQuotedStringsInDdl => DbConfig::SQLITE_DBCONFIG_DQS_DDL,
                DbSetting::DoubleQuotedStringsInDml => DbConfig::SQLITE_DBCONFIG_DQS_DML,
            };
            match conn.set_db_config(config, false) {
                Ok(_) => DbReply::Done,
                Err(e) => failed(FailedAt::Executing, e),
            }
        }
        DbRequest::Query { sql, params } => answer_query(conn, &sql, &params),
        DbRequest::Prepare { sql } => match conn.prepare_cached(&sql) {
            Ok(_) => DbReply::Done,
            Err(e) => failed(FailedAt::Preparing, e),
        },
        DbRequest::Execute { sql, values } => {
            let values: Vec<Value> = values.into_iter().map(bound).collect();
            match conn.prepare_cached(&sql) {
                Ok(mut stmt) => match stmt.execute(rusqlite::params_from_iter(values.iter())) {
                    Ok(_) => DbReply::Done,
                    Err(e) => failed(FailedAt::Executing, e),
                },
                Err(e) => failed(FailedAt::Preparing, e),
            }
        }
    }
}

fn load(conn: &Connection, table: &LoadedTable, if_exists: IfExists) -> Result<usize, LoadError> {
    let mut run = load_table_into_db(table, if_exists);
    while let Some(request) = run.request() {
        run = run.answer(perform(conn, request));
    }
    run.outcome().unwrap()
}

fn index(
    conn: &Connection,
    table: &str,
    columns: &[String],
) -> Result<(String, IndexOutcome), IndexError> {
    let mut run = create_index(table, columns);
    while let Some(request) = run.request() {
        run = run.answer(perform(conn, request));
    }
    run.outcome().unwrap()
}

fn query(conn: &Connection, sql: &str, format: OutputFormat) -> Result<String, QueryError> {
    let run = run_query(sql, format);
    let reply = perform(conn, run.request());
    run.answer(reply)
}

fn harden(conn: &Connection) {
    for request in harden_connection() {
        assert!(matches!(perform(conn, request), DbReply::Done));
    }
}

fn read(contents: &str, table: &str, delimiter: u8, has_header: bool) -> LoadedTable {
    read_csv_table(contents.as_bytes(), table, delimiter, has_header).unwrap()
}

fn people(conn: &Connection) {
    let table = read(PEOPLE_CSV, "people", b',', true);
    load(conn, &table, IfExists::Fail).unwrap();
}

fn number(conn: &Connection, sql: &str) -> i64 {
    conn.query_row(sql, [], |r| r.get(0)).unwrap()
}

fn text(conn: &Connection, sql: &str) -> String {
    conn.query_row(sql, [], |r| r.get(0)).unwrap()
}

fn columns(names: &[&str]) -> Vec<String> {
    names.iter().map(|s| s.to_string()).collect()
}

// ---------------------------------------------------------------------------
// Tables and queries
// ---------------------------------------------------------------------------

#[test]
fn load_infers_types_and_counts_rows() {
    let table = read(PEOPLE_CSV, "people", b',', true);

    // Inferred types: id INTEGER, name TEXT, price REAL.
    assert_eq!(table.columns, vec!["id", "name", "price"]);
    assert_eq!(table.types, vec![ColType::Integer, ColType::Text, ColType::Real]);
    assert_eq!(table.rows.len(), 3);

    let conn = Connection::open_in_memory().unwrap();
    let n = load(&conn, &table, IfExists::Fail).unwrap();
    assert_eq!(n, 3);

    // SELECT COUNT(*) returns 3.
    let count: i64 = number(&conn, "SELECT COUNT(*) FROM people");
    assert_eq!(count, 3);

    // The declared column types match what we inferred.
    let id_type = text(&conn, "SELECT type FROM pragma_table_info('people') WHERE name='id'");
    let name_type = text(&conn, "SELECT type FROM pragma_table_info('people') WHERE name='name'");
    let price_type = text(&conn, "SELECT type FROM pragma_table_info('people') WHERE name='price'");
    assert_eq!(id_type, "INTEGER");
    assert_eq!(name_type, "TEXT");
    assert_eq!(price_type, "REAL");
}

#[test]
fn select_where_returns_expected_row() {
    let conn = Connection::open_in_memory().unwrap();
    people(&conn);

    // WHERE on the numeric column relies on REAL typing working.
    let name = text(&conn, "SELECT name FROM people WHERE price > 10");
    assert_eq!(name, "bob");

    // Sum proves values stored as numbers, not text.
    let total: f64 =
        conn.query_row("SELECT SUM(price) FROM people", [], |r| r.get(0)).unwrap();
    assert!((total - 34.49).abs() < 1e-9, "got {total}");
}

#[test]
fn if_exists_append_adds_rows() {
    let conn = Connection::open_in_memory().unwrap();
    people(&conn);

    let more = "id,name,price\n4,dave,1.00\n5,erin,2.00\n";
    let table2 = read(more, "people", b',', true);
    let n = load(&conn, &table2, IfExists::Append).unwrap();
    assert_eq!(n, 2);

    let count: i64 = number(&conn, "SELECT COUNT(*) FROM people");
    assert_eq!(count, 5);
}

#[test]
fn if_exists_fail_errors_when_table_present() {
    let table = read(PEOPLE_CSV, "people", b',', true);
    let conn = Connection::open_in_memory().unwrap();
    load(&conn, &table, IfExists::Fail).unwrap();

    // Second load with Fail must error.
    let err = load(&conn, &table, IfExists::Fail).unwrap_err();
    let err = err.message(&table.name);
    assert!(err.contains("already exists"), "unexpected error: {err}");
    assert_eq!(err, "table \"people\" already exists (use --if-exists replace|append)");
    assert_eq!(number(&conn, "SELECT COUNT(*) FROM people"), 3);
}

#[test]
fn if_exists_replace_overwrites() {
    let conn = Connection::open_in_memory().unwrap();
    people(&conn);

    let smaller = "id,name,price\n9,zoe,7.77\n";
    let table2 = read(smaller, "people", b',', true);
    load(&conn, &table2, IfExists::Replace).unwrap();

    let count: i64 = number(&conn, "SELECT COUNT(*) FROM people");
    assert_eq!(count, 1);
}

#[test]
fn multi_file_makes_two_tables() {
    let t_people = read(PEOPLE_CSV, "people", b',', true);
    let t_orders = read("order_id,amount\n100,3\n101,4\n102,5\n", "orders", b',', true);

    let conn = Connection::open_in_memory().unwrap();
    load(&conn, &t_people, IfExists::Fail).unwrap();
    load(&conn, &t_orders, IfExists::Fail).unwrap();

    let tables: i64 = number(
        &conn,
        "SELECT COUNT(*) FROM sqlite_master WHERE type='table' AND name IN ('people','orders')",
    );
    assert_eq!(tables, 2);

    let people_count: i64 = number(&conn, "SELECT COUNT(*) FROM people");
    let orders_count: i64 = number(&conn, "SELECT COUNT(*) FROM orders");
    assert_eq!(people_count, 3);
    assert_eq!(orders_count, 3);

    // amount column is INTEGER.
    let amount_type =
        text(&conn, "SELECT type FROM pragma_table_info('orders') WHERE name='amount'");
    assert_eq!(amount_type, "INTEGER");
}

#[test]
fn no_header_synthesizes_columns() {
    let raw = "1,alice,9.99\n2,bob,19.50\n";
    let table = read(raw, "nohdr", b',', false);

    assert_eq!(table.columns, vec!["col1", "col2", "col3"]);
    assert_eq!(table.rows.len(), 2);
    assert_eq!(table.types, vec![ColType::Integer, ColType::Text, ColType::Real]);

    let conn = Connection::open_in_memory().unwrap();
    let n = load(&conn, &table, IfExists::Fail).unwrap();
    assert_eq!(n, 2);

    let v = text(&conn, "SELECT col2 FROM nohdr WHERE col1 = 2");
    assert_eq!(v, "bob");
}

#[test]
fn custom_delimiter_semicolon() {
    let raw = "a;b\n1;x\n2;y\n";
    let table = read(raw, "semi", b';', true);
    assert_eq!(table.columns, vec!["a", "b"]);
    assert_eq!(table.rows.len(), 2);
    assert_eq!(table.types[0], ColType::Integer);
    assert_eq!(table.types[1], ColType::Text);
}

#[test]
fn empty_field_becomes_null() {
    let raw = "id,note\n1,hello\n2,\n";
    let table = read(raw, "t", b',', true);
    let conn = Connection::open_in_memory().unwrap();
    load(&conn, &table, IfExists::Fail).unwrap();

    let nulls: i64 = number(&conn, "SELECT COUNT(*) FROM t WHERE note IS NULL");
    assert_eq!(nulls, 1);
}

#[test]
fn query_renders_csv_output() {
    let conn = Connection::open_in_memory().unwrap();
    people(&conn);

    let out =
        query(&conn, "SELECT name, price FROM people ORDER BY id", OutputFormat::Csv).unwrap();
    // SQLite stores 5.00 as the REAL 5.0, which is shown as "5" (no trailing .0).
    // 19.50 -> 19.5 likewise.
    let expected = "name,price\nalice,9.99\nbob,19.5\ncarol,5\n";
    assert_eq!(out, expected);
}

#[test]
fn query_renders_table_output() {
    let conn = Connection::open_in_memory().unwrap();
    people(&conn);

    let out = query(&conn, "SELECT COUNT(*) AS n FROM people", OutputFormat::Table).unwrap();
    // The header name and the value 3 must both appear.
    assert!(out.contains("n"), "table output: {out}");
    assert!(out.contains("3"), "table output: {out}");
    assert!(out.contains("+"), "table output should have borders: {out}");
    assert_eq!(out, "+---+\n| n |\n+---+\n| 3 |\n+---+");
}

#[test]
fn loads_into_a_real_db_file_on_disk() {
    let db = NamedTempFile::new().unwrap();
    {
        let conn = Connection::open(db.path()).unwrap();
        people(&conn);
    }
    // Reopen to confirm it persisted to the file.
    let conn = Connection::open(db.path()).unwrap();
    let count: i64 = number(&conn, "SELECT COUNT(*) FROM people");
    assert_eq!(count, 3);
}

#[test]
fn ddl_matches_inferred_types() {
    let table = read(PEOPLE_CSV, "people", b',', true);
    let ddl = create_table_ddl(&table);
    assert_eq!(ddl, r#"CREATE TABLE "people" ("id" INTEGER, "name" TEXT, "price" REAL)"#);
}

#[test]
fn appending_needs_the_same_number_of_columns() {
    let conn = Connection::open_in_memory().unwrap();
    people(&conn);
    let table = read("id,name\n4,dave\n", "people", b',', true);
    let err = load(&conn, &table, IfExists::Append).unwrap_err();
    assert_eq!(err, LoadError::ColumnCount { existing: 3, csv: 2 });
    assert_eq!(
        err.message("people"),
        "cannot append to \"people\": existing table has 3 columns but CSV has 2"
    );
    assert_eq!(number(&conn, "SELECT COUNT(*) FROM people"), 3);
}

#[test]
fn a_failing_row_undoes_the_whole_load() {
    let conn = Connection::open_in_memory().unwrap();
    conn.execute("CREATE TABLE t (id INTEGER, note TEXT NOT NULL)", []).unwrap();
    let table = read("id,note\n1,a\n2,\n3,c\n", "t", b',', true);
    let err = load(&conn, &table, IfExists::Append).unwrap_err();
    assert!(matches!(err, LoadError::Failed { doing: LoadTask::Insert, cause: _ }));
    assert_eq!(err.message("t"), "inserting row: NOT NULL constraint failed: t.note");
    assert_eq!(number(&conn, "SELECT COUNT(*) FROM t"), 0);
    assert!(conn.is_autocommit());
    // The connection is good for another load.
    let table = read("id,note\n1,a\n2,b\n", "t", b',', true);
    assert_eq!(load(&conn, &table, IfExists::Append), Ok(2));
    assert_eq!(number(&conn, "SELECT COUNT(*) FROM t"), 2);
}

#[test]
fn duplicate_columns_fail_to_create() {
    let conn = Connection::open_in_memory().unwrap();
    let table = read("a,A\n1,2\n", "t", b',', true);
    let err = load(&conn, &table, IfExists::Fail).unwrap_err();
    assert!(matches!(err, LoadError::Failed { doing: LoadTask::Create, cause: _ }));
    assert!(err.message("t").starts_with("creating table t: "));
}

#[test]
fn unknown_columns_fail_to_prepare() {
    let conn = Connection::open_in_memory().unwrap();
    people(&conn);
    let table = read("x,y,z\n1,2,3\n", "people", b',', true);
    let err = load(&conn, &table, IfExists::Append).unwrap_err();
    assert!(matches!(err, LoadError::Failed { doing: LoadTask::Prepare, cause: _ }));
    assert!(err.message("people").starts_with("preparing INSERT statement: "));
    assert!(conn.is_autocommit());
}

#[test]
fn a_table_without_rows_is_created() {
    let conn = Connection::open_in_memory().unwrap();
    let table = read("a,b\n", "t", b',', true);
    assert_eq!(load(&conn, &table, IfExists::Fail), Ok(0));
    assert_eq!(number(&conn, "SELECT COUNT(*) FROM t"), 0);
    assert_eq!(text(&conn, "SELECT type FROM pragma_table_info('t') WHERE name='a'"), "TEXT");
}

#[test]
fn names_with_quotes_and_spaces_load() {
    let conn = Connection::open_in_memory().unwrap();
    let table = read("full name,\"a\"\"b\"\nx,1\n", "my \"table\"; --", b',', true);
    assert_eq!(load(&conn, &table, IfExists::Fail), Ok(1));
    assert_eq!(text(&conn, "SELECT name FROM sqlite_master"), "my \"table\"; --");
    assert_eq!(text(&conn, "SELECT \"full name\" FROM \"my \"\"table\"\"; --\""), "x");
    assert_eq!(number(&conn, "SELECT \"a\"\"b\" FROM \"my \"\"table\"\"; --\""), 1);
}

#[test]
fn stored_values_have_the_inferred_types() {
    let conn = Connection::open_in_memory().unwrap();
    let table = read("i,r,t\n 42 ,1e3,x\n,,\n-7,\t-0.5 , y \n", "t", b',', true);
    load(&conn, &table, IfExists::Fail).unwrap();
    let out = query(
        &conn,
        "SELECT i, r, t, typeof(i), typeof(r), typeof(t) FROM t ORDER BY rowid",
        OutputFormat::Csv,
    )
    .unwrap();
    assert_eq!(
        out,
        "i,r,t,typeof(i),typeof(r),typeof(t)\n\
         42,1000,x,integer,real,text\n\
         ,,,null,null,null\n\
         -7,-0.5, y ,integer,real,text\n"
    );
}

#[test]
fn table_exists_tells_tables_from_other_names() {
    let conn = Connection::open_in_memory().unwrap();
    people(&conn);
    let found = |name: &str| match perform(&conn, table_exists(name)) {
        DbReply::Rows { headers: _, rows } => read_table_exists(&rows),
        _ => None,
    };
    assert_eq!(found("people"), Some(true));
    assert_eq!(found("orders"), Some(false));
    assert_eq!(found("people' OR '1'='1"), Some(false));
}

#[test]
fn query_errors_say_where_they_come_from() {
    let conn = Connection::open_in_memory().unwrap();
    let sql = "SELEC 1";
    let err = query(&conn, sql, OutputFormat::Csv).unwrap_err();
    assert!(matches!(err, QueryError::Failed { at: FailedAt::Preparing, cause: _ }));
    assert!(err.message(sql).starts_with("preparing query: SELEC 1: "));
    assert!(err.cause().is_none());
}

#[test]
fn every_kind_of_value_is_shown() {
    let conn = Connection::open_in_memory().unwrap();
    let out = query(
        &conn,
        "SELECT NULL AS a, -9223372036854775808 AS b, 0.1 AS c, 'x,\"y\"' AS d, x'010203' AS e",
        OutputFormat::Csv,
    )
    .unwrap();
    assert_eq!(out, "a,b,c,d,e\n,-9223372036854775808,0.1,\"x,\"\"y\"\"\",<3 bytes blob>\n");
}

#[test]
fn csv_results_read_back() {
    let conn = Connection::open_in_memory().unwrap();
    let table = read("k,v\n1,\"a,b\"\n2,\"say \"\"hi\"\"\"\n3,\"two\nlines\"\n", "t", b',', true);
    load(&conn, &table, IfExists::Fail).unwrap();
    let out = query(&conn, "SELECT * FROM t ORDER BY k", OutputFormat::Csv).unwrap();
    let again = read(&out, "t", b',', true);
    assert_eq!(again.columns, table.columns);
    assert_eq!(again.rows, table.rows);
    assert_eq!(again.types, table.types);
}

// ---------------------------------------------------------------------------
// Indexes
// ---------------------------------------------------------------------------

#[test]
fn an_index_is_created_once() {
    let conn = Connection::open_in_memory().unwrap();
    people(&conn);
    let name = columns(&["name"]);
    assert_eq!(
        index(&conn, "people", &name),
        Ok(("idx_people_name".to_string(), IndexOutcome::Created))
    );
    assert_eq!(
        index(&conn, "people", &name),
        Ok(("idx_people_name".to_string(), IndexOutcome::AlreadyExists))
    );
    assert_eq!(number(&conn, "SELECT COUNT(*) FROM sqlite_master WHERE type='index'"), 1);
}

#[test]
fn index_columns_are_compared_ignoring_case() {
    let conn = Connection::open_in_memory().unwrap();
    people(&conn);
    assert_eq!(
        index(&conn, "people", &columns(&["NAME"])),
        Ok(("idx_people_NAME".to_string(), IndexOutcome::Created))
    );
    assert_eq!(
        index(&conn, "people", &columns(&["NAME"])),
        Ok(("idx_people_NAME".to_string(), IndexOutcome::AlreadyExists))
    );
}

#[test]
fn an_identical_index_is_found_whatever_the_case() {
    let conn = Connection::open_in_memory().unwrap();
    people(&conn);
    harden(&conn);
    index(&conn, "people", &columns(&["name"])).unwrap();
    let (_, outcome) = index(&conn, "people", &columns(&["NAME"])).unwrap();
    assert_eq!(outcome, IndexOutcome::AlreadyExists);
    assert_eq!(number(&conn, "SELECT COUNT(*) FROM sqlite_master WHERE type='index'"), 1);
    assert_eq!(text(&conn, "SELECT name FROM sqlite_master WHERE type='index'"), "idx_people_name");
    // A different index under a name that differs in case alone is still a collision.
    let table = read("X_y,x,Y\n1,2,3\n", "t", b',', true);
    load(&conn, &table, IfExists::Fail).unwrap();
    index(&conn, "t", &columns(&["X_y"])).unwrap();
    let err = index(&conn, "t", &columns(&["x", "Y"])).unwrap_err();
    assert_eq!(err, IndexError::Collision { table: "t".to_string(), columns: columns(&["X_y"]) });
}

#[test]
fn an_index_needs_columns_a_table_and_its_columns() {
    let conn = Connection::open_in_memory().unwrap();
    people(&conn);
    harden(&conn);
    let err = index(&conn, "people", &[]).unwrap_err();
    assert_eq!(err, IndexError::NoColumns);
    assert_eq!(err.message("people", &[]), "cannot create an index with no columns");
    let err = index(&conn, "nobody", &columns(&["id"])).unwrap_err();
    assert_eq!(err, IndexError::NoSuchTable);
    assert_eq!(
        err.message("nobody", &columns(&["id"])),
        "cannot index table \"nobody\": no such table"
    );
    let asked_for = columns(&["id", "nope", "never"]);
    let err = index(&conn, "people", &asked_for).unwrap_err();
    assert_eq!(err, IndexError::NoSuchColumn("nope".to_string()));
    assert_eq!(
        err.message("people", &asked_for),
        "cannot index \"people\": no such column \"nope\""
    );
    assert_eq!(number(&conn, "SELECT COUNT(*) FROM sqlite_master WHERE type='index'"), 0);
}

#[test]
fn another_index_of_the_same_name_is_a_collision() {
    let conn = Connection::open_in_memory().unwrap();
    let table = read("x_y,x,y\n1,2,3\n", "t", b',', true);
    load(&conn, &table, IfExists::Fail).unwrap();
    index(&conn, "t", &columns(&["x_y"])).unwrap();
    let asked_for = columns(&["x", "y"]);
    let err = index(&conn, "t", &asked_for).unwrap_err();
    assert_eq!(err, IndexError::Collision { table: "t".to_string(), columns: columns(&["x_y"]) });
    assert_eq!(
        err.message("t", &asked_for),
        "index name \"idx_t_x_y\" already exists on \"t\"(x_y); refusing to create a different \
         index on \"t\"(x, y) whose derived name collides with it"
    );
}

#[test]
fn hardening_makes_unknown_names_errors() {
    let conn = Connection::open_in_memory().unwrap();
    people(&conn);
    harden(&conn);
    assert!(query(&conn, "SELECT \"nope\" FROM people", OutputFormat::Csv).is_err());
    assert!(conn.execute("CREATE INDEX i ON people (\"nope\")", []).is_err());
}

// ---------------------------------------------------------------------------
// Whole runs
// ---------------------------------------------------------------------------

struct Ran {
    ok: bool,
    stdout: String,
    stderr: String,
}

fn defaults() -> Options {
    Options {
        inputs: vec![],
        has_output: false,
        has_db: false,
        table: None,
        if_exists: IfExists::Fail,
        delim: ",".to_string(),
        no_header: false,
        index: vec![],
        query: None,
        format: OutputFormat::Table,
    }
}

/// Runs the jobs that options ask for. A file is its path and what it holds.
fn carry_out(
    db: &Path,
    files: &[(String, String)],
    options: &Options,
    ran: &mut Ran,
) -> Result<(), String> {
    let plan = plan(options).map_err(|e| e.message(&format!("{:?}", options.delim)))?;
    let conn = match plan.target {
        Target::Existing | Target::Output => Connection::open(db).unwrap(),
        Target::Memory => Connection::open_in_memory().unwrap(),
    };
    harden(&conn);
    for job in &plan.jobs {
        match job {
            Job::Load { input, table, if_exists } => {
                let (path, contents) = &files[*input];
                let loaded =
                    read_csv_table(contents.as_bytes(), table, plan.delimiter, plan.has_header)
                        .map_err(|e| e.message(path))?;
                let n = load(&conn, &loaded, *if_exists).map_err(|e| e.message(table))?;
                ran.stderr += &loaded_notice(n, &loaded);
                ran.stderr += "\n";
            }
            Job::Index { table, columns } => {
                let (name, outcome) =
                    index(&conn, table, columns).map_err(|e| e.message(table, columns))?;
                ran.stderr += &indexed_notice(outcome, &name, table, columns);
                ran.stderr += "\n";
            }
            Job::Refuse(e) => {
                let given = match e {
                    UsageError::EmptyIndex(at) => format!("{:?}", options.index[*at]),
                    _ => String::new(),
                };
                return Err(e.message(&given));
            }
            Job::Query { sql, format } => {
                ran.stdout += &query(&conn, sql, *format).map_err(|e| e.message(sql))?;
                ran.stdout += "\n";
            }
        }
    }
    Ok(())
}

fn run(dir: &TempDir, files: &[(&str, &str)], options: Options) -> Ran {
    let mut options = options;
    let mut given: Vec<(String, String)> = vec![];
    for (name, contents) in files {
        let path = dir.path().join(name).to_str().unwrap().to_string();
        options.inputs.push(table_name_from_path(&path));
        given.push((path, contents.to_string()));
    }
    let mut ran = Ran { ok: true, stdout: String::new(), stderr: String::new() };
    let db = dir.path().join("out.db");
    if let Err(e) = carry_out(&db, &given, &options, &mut ran) {
        ran.ok = false;
        ran.stderr += &format!("error: {e}\n");
    }
    ran
}

fn to_output() -> Options {
    Options { has_output: true, ..defaults() }
}

fn on_db() -> Options {
    Options { has_db: true, ..defaults() }
}

fn some(s: &str) -> Option<String> {
    Some(s.to_string())
}

#[test]
fn load_then_query_csv_output() {
    let dir = TempDir::new().unwrap();
    let ran = run(
        &dir,
        &[("people.csv", PEOPLE_CSV)],
        Options {
            query: some("SELECT name, price FROM people ORDER BY id"),
            format: OutputFormat::Csv,
            ..to_output()
        },
    );
    assert!(ran.ok);
    assert!(ran.stdout.contains("name,price"));
    assert!(ran.stdout.contains("alice,9.99"));
    assert!(ran.stdout.contains("bob,19.5"));
    assert_eq!(ran.stderr, "Loaded 3 row(s) into table \"people\" (3 column(s))\n");
}

#[test]
fn table_name_derived_from_filename() {
    let dir = TempDir::new().unwrap();
    // Query the table by the derived name "people" — proves naming works.
    let ran = run(
        &dir,
        &[("people.csv", PEOPLE_CSV)],
        Options { query: some("SELECT COUNT(*) AS n FROM people"), ..to_output() },
    );
    assert!(ran.ok);
    assert!(ran.stdout.contains("3"));
}

#[test]
fn custom_table_name_flag() {
    let dir = TempDir::new().unwrap();
    let ran = run(
        &dir,
        &[("people.csv", PEOPLE_CSV)],
        Options {
            table: some("humans"),
            query: some("SELECT COUNT(*) FROM humans"),
            ..to_output()
        },
    );
    assert!(ran.ok);
    assert!(ran.stdout.contains("3"));
}

#[test]
fn query_existing_db_without_loading() {
    let dir = TempDir::new().unwrap();
    // First, load.
    assert!(run(&dir, &[("people.csv", PEOPLE_CSV)], to_output()).ok);
    // Then query --db with no inputs.
    let ran = run(
        &dir,
        &[],
        Options {
            query: some("SELECT name FROM people WHERE price > 10"),
            format: OutputFormat::Csv,
            ..on_db()
        },
    );
    assert!(ran.ok);
    assert!(ran.stdout.contains("bob"));
}

#[test]
fn if_exists_append_via_cli() {
    let dir = TempDir::new().unwrap();
    assert!(run(&dir, &[("people.csv", PEOPLE_CSV)], to_output()).ok);
    let ran = run(
        &dir,
        &[("people.csv", "id,name,price\n4,dave,1.00\n")],
        Options {
            if_exists: IfExists::Append,
            query: some("SELECT COUNT(*) FROM people"),
            ..to_output()
        },
    );
    assert!(ran.ok);
    assert!(ran.stdout.contains("4"));
}

#[test]
fn if_exists_fail_is_default_and_errors() {
    let dir = TempDir::new().unwrap();
    assert!(run(&dir, &[("people.csv", PEOPLE_CSV)], to_output()).ok);
    // Loading the same table again with no --if-exists must fail.
    let ran = run(&dir, &[("people.csv", PEOPLE_CSV)], to_output());
    assert!(!ran.ok);
    assert!(ran.stderr.contains("already exists"));
}

#[test]
fn multi_file_two_tables_via_cli() {
    let dir = TempDir::new().unwrap();
    let files = [
        ("people.csv", PEOPLE_CSV),
        ("orders.csv", "order_id,amount\n100,3\n101,4\n"),
    ];
    assert!(run(&dir, &files, to_output()).ok);
    // Join across both tables to prove both loaded.
    let ran = run(
        &dir,
        &[],
        Options {
            query: some(
                "SELECT (SELECT COUNT(*) FROM people) AS p, (SELECT COUNT(*) FROM orders) AS o",
            ),
            format: OutputFormat::Csv,
            ..on_db()
        },
    );
    assert!(ran.ok);
    assert!(ran.stdout.contains("3,2"));
}

#[test]
fn no_header_via_cli() {
    let dir = TempDir::new().unwrap();
    let ran = run(
        &dir,
        &[("raw.csv", "1,alice,9.99\n2,bob,19.50\n")],
        Options {
            no_header: true,
            query: some("SELECT col2 FROM raw WHERE col1 = 2"),
            format: OutputFormat::Csv,
            ..to_output()
        },
    );
    assert!(ran.ok);
    assert!(ran.stdout.contains("bob"));
}

#[test]
fn custom_delimiter_via_cli() {
    let dir = TempDir::new().unwrap();
    let ran = run(
        &dir,
        &[("semi.csv", "a;b\n1;x\n2;y\n")],
        Options {
            delim: ";".to_string(),
            query: some("SELECT b FROM semi WHERE a = 1"),
            format: OutputFormat::Csv,
            ..to_output()
        },
    );
    assert!(ran.ok);
    assert!(ran.stdout.contains("x"));
}

#[test]
fn create_index_via_cli() {
    let dir = TempDir::new().unwrap();
    // Load and build one single-column and one composite index.
    let ran = run(
        &dir,
        &[("people.csv", PEOPLE_CSV)],
        Options { index: columns(&["name", "id,price"]), ..to_output() },
    );
    assert!(ran.ok);
    assert!(ran.stderr.contains("Created index \"idx_people_name\""));
    assert!(ran.stderr.contains("Created index \"idx_people_id_price\""));
    assert!(ran.stderr.ends_with(
        "Created index \"idx_people_id_price\" on \"people\" (id, price)\n"
    ));
    // Both indexes must be present in the resulting database.
    let ran = run(
        &dir,
        &[],
        Options {
            query: some("SELECT name FROM sqlite_master WHERE type='index' ORDER BY name"),
            format: OutputFormat::Csv,
            ..on_db()
        },
    );
    assert!(ran.ok);
    assert!(ran.stdout.contains("idx_people_id_price"));
    assert!(ran.stdout.contains("idx_people_name"));
}

#[test]
fn index_on_existing_db_with_table() {
    let dir = TempDir::new().unwrap();
    // Load first, without indexing.
    assert!(run(&dir, &[("people.csv", PEOPLE_CSV)], to_output()).ok);
    // Index an existing database; --table names the target.
    let ran = run(
        &dir,
        &[],
        Options { table: some("people"), index: columns(&["price"]), ..on_db() },
    );
    assert!(ran.ok);
    assert!(ran.stderr.contains("idx_people_price"));
}

#[test]
fn index_requires_table_for_multiple_inputs() {
    let dir = TempDir::new().unwrap();
    let files =
        [("people.csv", PEOPLE_CSV), ("orders.csv", "order_id,amount\n100,3\n")];
    // Ambiguous which table to index across two files -> clean error.
    let ran = run(&dir, &files, Options { index: columns(&["id"]), ..to_output() });
    assert!(!ran.ok);
    assert!(ran.stderr.contains("--index requires --table"));
}

#[test]
fn index_missing_column_errors_cleanly() {
    let dir = TempDir::new().unwrap();
    // A typo'd column must fail cleanly and must NOT report a created index.
    let ran = run(
        &dir,
        &[("people.csv", PEOPLE_CSV)],
        Options { index: columns(&["nope"]), ..to_output() },
    );
    assert!(!ran.ok);
    assert!(ran.stderr.contains("no such column"));
    assert!(!ran.stderr.contains("Created index"));
    // No index was actually created.
    let ran = run(
        &dir,
        &[],
        Options {
            query: some("SELECT COUNT(*) AS n FROM sqlite_master WHERE type='index'"),
            format: OutputFormat::Csv,
            ..on_db()
        },
    );
    assert!(ran.ok);
    assert!(ran.stdout.contains("n\n0"));
}

#[test]
fn index_name_collision_same_table_errors() {
    let dir = TempDir::new().unwrap();
    // "x_y" (single) and "x,y" (composite) both derive idx_t_x_y.
    let ran = run(
        &dir,
        &[("t.csv", "x_y,x,y\n1,2,3\n4,5,6\n")],
        Options { index: columns(&["x_y", "x,y"]), ..to_output() },
    );
    assert!(!ran.ok);
    assert!(ran.stderr.contains("collides") || ran.stderr.contains("already exists"));
}

#[test]
fn index_name_collision_cross_table_errors() {
    let dir = TempDir::new().unwrap();
    // Table "a" col "b_c" and table "a_b" col "c" both derive idx_a_b_c.
    let files = [("a.csv", "b_c\n1\n2\n"), ("a_b.csv", "c\n1\n2\n")];
    // Load both tables (no indexing yet).
    assert!(run(&dir, &files, to_output()).ok);
    // Index table "a" on b_c -> idx_a_b_c.
    let ran =
        run(&dir, &[], Options { table: some("a"), index: columns(&["b_c"]), ..on_db() });
    assert!(ran.ok);
    assert!(ran.stderr.contains("Created index \"idx_a_b_c\""));
    // Index table "a_b" on c -> same derived name, different index -> error.
    let ran = run(&dir, &[], Options { table: some("a_b"), index: columns(&["c"]), ..on_db() });
    assert!(!ran.ok);
    assert!(ran.stderr.contains("collides") || ran.stderr.contains("already exists"));
    assert!(!ran.stderr.contains("Created index"));
}

#[test]
fn index_already_exists_does_not_print_created() {
    let dir = TempDir::new().unwrap();
    // First run creates the index.
    let ran = run(
        &dir,
        &[("people.csv", PEOPLE_CSV)],
        Options { index: columns(&["name"]), ..to_output() },
    );
    assert!(ran.ok);
    assert!(ran.stderr.contains("Created index \"idx_people_name\""));
    // Second run on the existing DB must NOT claim it created the index.
    let ran = run(
        &dir,
        &[],
        Options { table: some("people"), index: columns(&["name"]), ..on_db() },
    );
    assert!(ran.ok);
    assert!(!ran.stderr.contains("Created index"));
    assert!(ran.stderr.contains("already exists"));
    assert_eq!(
        ran.stderr,
        "Index \"idx_people_name\" already exists on \"people\" (name); skipping\n"
    );
}

#[test]
fn missing_db_arg_errors() {
    let dir = TempDir::new().unwrap();
    // No -o and no --db: should error, not panic.
    let ran = run(&dir, &[("people.csv", PEOPLE_CSV)], defaults());
    assert!(!ran.ok);
    assert!(ran.stderr.contains("output database"));
}

#[test]
fn empty_csv_errors_cleanly() {
    let dir = TempDir::new().unwrap();
    let ran = run(&dir, &[("nothing.csv", "")], to_output());
    assert!(!ran.ok);
    assert!(ran.stderr.contains("empty"));
}

#[test]
fn a_query_alone_runs_on_an_empty_database() {
    let dir = TempDir::new().unwrap();
    let ran = run(
        &dir,
        &[],
        Options { query: some("SELECT 1 + 1 AS two"), format: OutputFormat::Csv, ..defaults() },
    );
    assert!(ran.ok);
    assert_eq!(ran.stdout, "two\n2\n\n");
}

#[test]
fn an_empty_index_list_is_refused_after_loading() {
    let dir = TempDir::new().unwrap();
    let ran = run(
        &dir,
        &[("people.csv", PEOPLE_CSV)],
        Options { index: columns(&["name", " , "]), ..to_output() },
    );
    assert!(!ran.ok);
    assert!(ran.stderr.starts_with("Loaded 3 row(s)"));
    assert!(ran.stderr.contains("Created index \"idx_people_name\""));
    assert!(ran
        .stderr
        .ends_with("error: --index requires at least one column name (got \" , \")\n"));
}
