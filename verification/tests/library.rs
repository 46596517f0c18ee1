//! The library's functions on values: types, names, CSV text, rendering, options, and the
//! exchanges with a database that answers as told.

use csv_to_sqlite::cli::{delimiter_byte, index_columns, plan, Job, Options, Target, UsageError};
use csv_to_sqlite::db::value_to_display;
use csv_to_sqlite::ident::{
    contains_ident, index_name, quote_ident, same_idents, sanitize_ident_part, sanitize_table_name,
};
use csv_to_sqlite::index::{indexed_notice, IndexTask};
use csv_to_sqlite::infer::{is_empty, parses_int, parses_real};
use csv_to_sqlite::load::{loaded_notice, LoadTask};
use csv_to_sqlite::number::{parse_int, push_decimal, push_signed_decimal};
use csv_to_sqlite::records::render_csv;
use csv_to_sqlite::render::render_table;
use csv_to_sqlite::sql::{
    create_index_statement, drop_table_statement, index_info_statement, insert_statement,
    table_info_statement,
};
use csv_to_sqlite::table::{synthesize_headers, table_from_records};
use csv_to_sqlite::text::{eq_ignoring_case, is_white_space, join, trim};
use csv_to_sqlite::value::field_to_value;
use csv_to_sqlite::{
    create_index, create_table_ddl, harden_connection, infer_column_type, load_table_into_db,
    read_csv_table, read_table_exists, run_query, table_exists, table_name_from_path, Cell,
    ColType, DbReply, DbRequest, DbSetting, FailedAt, IfExists, IndexError, IndexOutcome,
    LoadError, LoadedTable, OutputFormat, QueryError, ReadError, SqlValue,
};

fn strings(list: &[&str]) -> Vec<String> {
    list.iter().map(|s| s.to_string()).collect()
}

fn rows(list: &[&[&str]]) -> Vec<Vec<String>> {
    list.iter().map(|row| strings(row)).collect()
}

// ---------------------------------------------------------------------------
// Type inference
// ---------------------------------------------------------------------------

#[test]
fn infer_integer_column() {
    let vals = vec!["1", "2", "42", "-7"];
    assert_eq!(infer_column_type(vals), ColType::Integer);
}

#[test]
fn infer_real_column() {
    let vals = vec!["1.5", "2", "3.14", "-0.001"];
    assert_eq!(infer_column_type(vals), ColType::Real);
}

#[test]
fn infer_text_column() {
    let vals = vec!["alice", "bob", "42"];
    assert_eq!(infer_column_type(vals), ColType::Text);
}

#[test]
fn empty_values_are_ignored_for_inference() {
    // All non-empty values are ints; blanks should not force TEXT.
    let vals = vec!["1", "", "  ", "3"];
    assert_eq!(infer_column_type(vals), ColType::Integer);
}

#[test]
fn all_empty_column_is_text() {
    let vals = vec!["", "   ", ""];
    assert_eq!(infer_column_type(vals), ColType::Text);
}

#[test]
fn inf_and_nan_stay_text() {
    assert_eq!(infer_column_type(vec!["inf", "1.0"]), ColType::Text);
    assert_eq!(infer_column_type(vec!["nan"]), ColType::Text);
}

#[test]
fn int_overflowing_i64_is_real_or_text() {
    // 99999999999999999999 does not fit i64 but parses as f64 -> REAL.
    let vals = vec!["99999999999999999999"];
    assert_eq!(infer_column_type(vals), ColType::Real);
}

#[test]
fn an_integer_too_large_for_a_real_is_text() {
    let mut large = "1".to_string();
    for _ in 0..308 {
        large.push('0');
    }
    assert_eq!(infer_column_type(vec!["1", &large]), ColType::Real);
    large.push('0');
    assert_eq!(infer_column_type(vec!["1", &large]), ColType::Text);
}

#[test]
fn a_column_without_values_is_text() {
    assert_eq!(infer_column_type(vec![]), ColType::Text);
}

#[test]
fn order_blanks_and_repetition_do_not_change_the_type() {
    assert_eq!(infer_column_type(vec!["1.5", "", "2", "2"]), ColType::Real);
    assert_eq!(infer_column_type(vec!["2", "1.5", " "]), ColType::Real);
    assert_eq!(infer_column_type(vec!["x", "1"]), ColType::Text);
    assert_eq!(infer_column_type(vec!["1", "x"]), ColType::Text);
}

#[test]
fn keywords() {
    assert_eq!(ColType::Integer.sql_keyword(), "INTEGER");
    assert_eq!(ColType::Real.sql_keyword(), "REAL");
    assert_eq!(ColType::Text.sql_keyword(), "TEXT");
}

#[test]
fn white_space_is_that_of_the_standard_library() {
    for code in 0u32..=0x10ffff {
        if let Some(c) = char::from_u32(code) {
            assert_eq!(is_white_space(c), c.is_whitespace());
        }
    }
    for s in ["", " ", "a", " a b\t", "\u{3000}x\u{a0}", "\u{feff}", "\u{200b} "] {
        assert_eq!(trim(s), s.trim());
        assert_eq!(is_empty(s), s.trim().is_empty());
    }
}

#[test]
fn fields_parse_as_numbers_like_in_the_standard_library() {
    let fields = [
        "", " ", "0", "-0", "+0", "00012", " 42 ", "42x", "4 2", "1.0", "0xff", "-", "+", "--1",
        "+-1", "9223372036854775807", "9223372036854775808", "-9223372036854775808",
        "-9223372036854775809", "000000000000000000000000000000000001",
        "99999999999999999999999999999999999999999999", "\u{661}", "1_000", ".", ".5", "5.",
        "-.5", "+5.e3", "1e", "1e5", "1E+5", "1e-5", "1e--5", "e5", ".e5", "1.5.2", "1e5.2",
        "1e400", "-1e400", "1e-400", "inf", "-INF", "+Infinity", "infinit", "nan", "-NaN", "nanx",
        "1f", "\t-7.25\n", "1,5", "0.1",
    ];
    for f in fields {
        let t = f.trim();
        assert_eq!(parse_int(t), t.parse::<i64>().ok(), "{f:?}");
        assert_eq!(parses_int(f), t.parse::<i64>().is_ok(), "{f:?}");
        let real = t.parse::<f64>();
        assert_eq!(parses_real(f), matches!(real, Ok(v) if v.is_finite()), "{f:?}");
        match field_to_value(f, ColType::Real) {
            SqlValue::Null => assert!(t.is_empty()),
            SqlValue::Real(bits) => {
                let expected = real.unwrap();
                let got = f64::from_bits(bits);
                assert!(got == expected || (got.is_nan() && expected.is_nan()), "{f:?}");
                assert_eq!(got.is_sign_negative(), expected.is_sign_negative(), "{f:?}");
            }
            SqlValue::Text(s) => {
                assert!(real.is_err(), "{f:?}");
                assert_eq!(s, f);
            }
            SqlValue::Integer(_) => panic!("{f:?}"),
        }
    }
}

#[test]
fn integers_in_decimal() {
    let mut out = String::new();
    push_signed_decimal(&mut out, i64::MIN);
    out.push(' ');
    push_signed_decimal(&mut out, i64::MAX);
    out.push(' ');
    push_signed_decimal(&mut out, 0);
    out.push(' ');
    push_decimal(&mut out, u64::MAX);
    assert_eq!(out, "-9223372036854775808 9223372036854775807 0 18446744073709551615");
    assert_eq!(parse_int("-9223372036854775808"), Some(i64::MIN));
}

// ---------------------------------------------------------------------------
// Values
// ---------------------------------------------------------------------------

#[test]
fn field_to_value_empty_is_null() {
    assert_eq!(field_to_value("", ColType::Integer), SqlValue::Null);
    assert_eq!(field_to_value("  ", ColType::Text), SqlValue::Null);
}

#[test]
fn field_to_value_typed() {
    assert_eq!(field_to_value("42", ColType::Integer), SqlValue::Integer(42));
    assert_eq!(field_to_value("3.5", ColType::Real), SqlValue::Real(3.5f64.to_bits()));
    assert_eq!(field_to_value("hi", ColType::Text), SqlValue::Text("hi".into()));
}

#[test]
fn fields_that_do_not_parse_stay_text() {
    assert_eq!(field_to_value(" 4x ", ColType::Integer), SqlValue::Text(" 4x ".into()));
    assert_eq!(field_to_value("1.5", ColType::Integer), SqlValue::Text("1.5".into()));
    assert_eq!(field_to_value("x", ColType::Real), SqlValue::Text("x".into()));
    assert_eq!(field_to_value(" 7 ", ColType::Text), SqlValue::Text(" 7 ".into()));
    assert_eq!(field_to_value(" 7 ", ColType::Integer), SqlValue::Integer(7));
}

#[test]
fn cells_as_text() {
    assert_eq!(value_to_display(&Cell::Null), "");
    assert_eq!(value_to_display(&Cell::Integer(-12)), "-12");
    assert_eq!(value_to_display(&Cell::Real("2.5".into())), "2.5");
    assert_eq!(value_to_display(&Cell::Text("a b".into())), "a b");
    assert_eq!(value_to_display(&Cell::Blob(vec![0; 12])), "<12 bytes blob>");
}

// ---------------------------------------------------------------------------
// Identifiers and statements
// ---------------------------------------------------------------------------

#[test]
fn sanitize_table_names() {
    assert_eq!(sanitize_table_name("my data"), "my_data");
    assert_eq!(sanitize_table_name("123abc"), "_123abc");
    assert_eq!(sanitize_table_name("clean_name"), "clean_name");
}

#[test]
fn odd_table_names() {
    assert_eq!(sanitize_table_name(""), "table");
    assert_eq!(sanitize_table_name("é-ß"), "___");
    assert_eq!(sanitize_table_name("\u{661}2"), "_2");
}

#[test]
fn table_names_come_from_file_stems() {
    assert_eq!(table_name_from_path("people.csv"), "people");
    assert_eq!(table_name_from_path("/data/2024 sales.tar.gz"), "_2024_sales_tar");
    assert_eq!(table_name_from_path("a/b/c"), "c");
    assert_eq!(table_name_from_path(".hidden"), "_hidden");
    assert_eq!(table_name_from_path("dir/..x"), "_");
    assert_eq!(table_name_from_path("x."), "x");
    assert_eq!(table_name_from_path(""), "table");
    assert_eq!(table_name_from_path("."), "table");
    assert_eq!(table_name_from_path("a/.."), "table");
    assert_eq!(table_name_from_path("/"), "table");
    assert_eq!(table_name_from_path("dir.d/"), "dir");
    assert_eq!(table_name_from_path("data/"), "data");
    assert_eq!(table_name_from_path("data/."), "data");
    assert_eq!(table_name_from_path("data/././/"), "data");
    assert_eq!(table_name_from_path("/."), "table");
    assert_eq!(table_name_from_path("./"), "table");
    assert_eq!(table_name_from_path("./."), "table");
    assert_eq!(table_name_from_path("a/../"), "table");
    assert_eq!(table_name_from_path("..."), "__");
    assert_eq!(table_name_from_path("logs/10:30.csv"), "_10_30");
    assert_eq!(table_name_from_path("C:/data/people.csv"), "people");
    // A backslash separates on some platforms and is part of the name on others.
    let name = table_name_from_path("dir\\people.csv");
    assert!(name == "people" || name == "dir_people");
}

#[test]
fn ddl_quotes_identifiers() {
    let t = LoadedTable {
        name: "people".into(),
        columns: vec!["id".into(), "full name".into()],
        types: vec![ColType::Integer, ColType::Text],
        rows: vec![],
    };
    let ddl = create_table_ddl(&t);
    assert_eq!(ddl, r#"CREATE TABLE "people" ("id" INTEGER, "full name" TEXT)"#);
}

#[test]
fn index_names_are_derived_and_sanitized() {
    assert_eq!(index_name("people", &["name".into()]), "idx_people_name");
    assert_eq!(index_name("people", &["name".into(), "price".into()]), "idx_people_name_price");
    // Non-alphanumeric characters in the table/column collapse to `_`.
    assert_eq!(index_name("my table", &["full name".into()]), "idx_my_table_full_name");
}

#[test]
fn names_of_identical_indexes_differ_in_case_alone() {
    let lower = index_name("people", &strings(&["full name", "price"]));
    let upper = index_name("People", &strings(&["FULL name", "Price"]));
    assert_ne!(lower, upper);
    assert!(eq_ignoring_case(&lower, &upper));
}

#[test]
fn parts_of_index_names_are_never_empty() {
    assert_eq!(sanitize_ident_part(""), "_");
    assert_eq!(sanitize_ident_part("1 é"), "1__");
    assert_eq!(index_name("", &["".into()]), "idx____");
}

#[test]
fn quotes_are_doubled() {
    assert_eq!(quote_ident("plain"), "\"plain\"");
    assert_eq!(quote_ident(""), "\"\"");
    assert_eq!(quote_ident("a\"b"), "\"a\"\"b\"");
    assert_eq!(quote_ident("\"; DROP TABLE x; --"), "\"\"\"; DROP TABLE x; --\"");
}

#[test]
fn statements() {
    let columns = strings(&["a", "b\"c"]);
    assert_eq!(
        insert_statement("t", &columns),
        "INSERT INTO \"t\" (\"a\", \"b\"\"c\") VALUES (?1, ?2)"
    );
    assert_ne!(
        insert_statement("t\" (\"a", &strings(&["b"])),
        insert_statement("t", &strings(&["a\" (\"b"]))
    );
    assert_ne!(
        insert_statement("t", &strings(&["a", "b"])),
        insert_statement("t", &strings(&["a\", \"b"]))
    );
    assert_eq!(drop_table_statement("t"), "DROP TABLE \"t\"");
    assert_eq!(
        create_index_statement("i", "t", &columns),
        "CREATE INDEX \"i\" ON \"t\" (\"a\", \"b\"\"c\")"
    );
    assert_eq!(table_info_statement("t"), "PRAGMA table_info(\"t\")");
    assert_eq!(index_info_statement("i"), "PRAGMA index_info(\"i\")");
}

#[test]
fn identifiers_are_compared_ignoring_ascii_case() {
    assert!(eq_ignoring_case("Name_1", "nAME_1"));
    assert!(!eq_ignoring_case("name", "names"));
    assert!(!eq_ignoring_case("É", "é"));
    assert!(!eq_ignoring_case("[", "{"));
    assert!(same_idents(&strings(&["A", "b"]), &strings(&["a", "B"])));
    assert!(!same_idents(&strings(&["a", "b"]), &strings(&["b", "a"])));
    assert!(!same_idents(&strings(&["a"]), &strings(&["a", "b"])));
    assert!(contains_ident(&strings(&["x", "Y"]), "y"));
    assert!(!contains_ident(&strings(&["x", "Y"]), "z"));
}

#[test]
fn joining() {
    assert_eq!(join(&[], ", "), "");
    assert_eq!(join(&strings(&["a"]), ", "), "a");
    assert_eq!(join(&strings(&["a", "", "c"]), ", "), "a, , c");
}

// ---------------------------------------------------------------------------
// CSV
// ---------------------------------------------------------------------------

#[test]
fn headers_are_made_up() {
    assert_eq!(synthesize_headers(0), strings(&[]));
    let headers = synthesize_headers(12);
    assert_eq!(headers[0], "col1");
    assert_eq!(headers[11], "col12");
    assert_eq!(headers.len(), 12);
}

#[test]
fn ragged_rows_are_padded_and_truncated() {
    let t = read_csv_table(b"a,b\n1\n2,x,y\n3,z\n", "t", b',', true).unwrap();
    assert_eq!(t.name, "t");
    assert_eq!(t.columns, strings(&["a", "b"]));
    assert_eq!(t.rows, rows(&[&["1", ""], &["2", "x"], &["3", "z"]]));
    assert_eq!(t.types, vec![ColType::Integer, ColType::Text]);
}

#[test]
fn without_a_header_the_first_row_sets_the_width() {
    let t = read_csv_table(b"1,x\n2\n3,y,z\n", "t", b',', false).unwrap();
    assert_eq!(t.columns, strings(&["col1", "col2"]));
    assert_eq!(t.rows, rows(&[&["1", "x"], &["2", ""], &["3", "y"]]));
}

#[test]
fn empty_files_are_refused() {
    let e = read_csv_table(b"", "t", b',', true).unwrap_err();
    assert!(matches!(e, ReadError::NoHeader));
    assert_eq!(e.message("x.csv"), "CSV x.csv is empty (no header row)");
    assert!(e.cause().is_none());
    let e = read_csv_table(b"", "t", b',', false).unwrap_err();
    assert!(matches!(e, ReadError::NoRows));
    assert_eq!(e.message("x.csv"), "CSV x.csv is empty");
    let e = read_csv_table(b"\n\n", "t", b',', true).unwrap_err();
    assert!(matches!(e, ReadError::NoHeader));
}

#[test]
fn a_header_without_fields_is_refused() {
    let e = table_from_records(vec![Ok(vec![])], "t", true).unwrap_err();
    assert!(matches!(e, ReadError::EmptyHeader));
    assert_eq!(e.message("x.csv"), "CSV x.csv has an empty header row");
    let t = table_from_records(vec![Ok(vec![]), Ok(strings(&["x"]))], "t", false).unwrap();
    assert_eq!(t.columns, strings(&[]));
    assert_eq!(t.rows, rows(&[&[], &[]]));
}

#[test]
fn bytes_that_are_no_text_are_refused() {
    let e = read_csv_table(b"a,\xff\n1,2\n", "t", b',', true).unwrap_err();
    assert!(matches!(e, ReadError::HeaderRow(_)));
    assert_eq!(e.message("x"), "reading CSV header row");
    assert!(e.cause().unwrap().to_string().contains("UTF-8"));
    let e = read_csv_table(b"\xff,1\n", "t", b',', false).unwrap_err();
    assert!(matches!(e, ReadError::FirstRow(_)));
    assert_eq!(e.message("x"), "reading first CSV row");
    for has_header in [true, false] {
        let e = read_csv_table(b"a,b\n1,2\n3,\xff\n", "t", b',', has_header).unwrap_err();
        assert!(matches!(e, ReadError::DataRow(_)));
        assert_eq!(e.message("x"), "reading CSV data row");
        assert!(e.cause().is_some());
    }
}

#[test]
fn a_byte_order_mark_is_skipped() {
    let t = read_csv_table("\u{feff}a,b\n1,2\n".as_bytes(), "t", b',', true).unwrap();
    assert_eq!(t.columns, strings(&["a", "b"]));
}

#[test]
fn rendered_csv() {
    let out = render_csv(
        &strings(&["a", "b"]),
        &rows(&[&["1", ""], &["x,y", "say \"hi\""], &["two\nlines", "cr\r"], &[" ", "é"]]),
    );
    assert_eq!(
        out.unwrap(),
        "a,b\n1,\n\"x,y\",\"say \"\"hi\"\"\"\n\"two\nlines\",\"cr\r\"\n ,é\n"
    );
    assert_eq!(render_csv(&strings(&["a"]), &rows(&[&[""]])).unwrap(), "a\n\"\"\n");
    assert_eq!(render_csv(&[], &[]).unwrap(), "\"\"\n");
}

#[test]
fn ragged_rows_are_no_csv() {
    assert!(render_csv(&strings(&["a", "b"]), &rows(&[&["1", "2"], &["3"]])).is_err());
    assert!(render_csv(&[], &rows(&[&["1"]])).is_err());
}

#[test]
fn rendered_csv_reads_back() {
    let headers = strings(&["x", "", "\"", ",", "\r\n", " "]);
    let body = rows(&[
        &["", "", "", "", "", ""],
        &["\"\"", ",,", "\n", "a\rb", "'", "\u{feff}"],
        &["1", "2", "3", "4", "5", "6"],
    ]);
    let text = render_csv(&headers, &body).unwrap();
    let t = read_csv_table(text.as_bytes(), "t", b',', true).unwrap();
    assert_eq!(t.columns, headers);
    assert_eq!(t.rows, body);
    let t = read_csv_table(text.as_bytes(), "t", b',', false).unwrap();
    assert_eq!(t.columns, synthesize_headers(6));
    assert_eq!(t.rows[0], headers);
    assert_eq!(t.rows[1..], body[..]);
}

#[test]
fn rendered_table() {
    let out = render_table(
        &strings(&["id", "név"]),
        &rows(&[&["1", "alice"], &["100", ""], &["2"], &["3", "x", "more"]]),
    );
    assert_eq!(
        out,
        "+-----+-------+\n\
         | id  | név   |\n\
         +-----+-------+\n\
         | 1   | alice |\n\
         | 100 |       |\n\
         | 2   |       |\n\
         | 3   | x     |\n\
         +-----+-------+"
    );
    assert_eq!(render_table(&[], &[]), "++\n||\n++\n++");
}

// ---------------------------------------------------------------------------
// Exchanges with a database
// ---------------------------------------------------------------------------

fn found(cells: Vec<Vec<Cell>>) -> DbReply {
    DbReply::Rows { headers: vec![], rows: cells }
}

fn count(n: i64) -> DbReply {
    found(vec![vec![Cell::Integer(n)]])
}

fn broken() -> DbReply {
    DbReply::Failed { at: FailedAt::Executing, cause: "disk full".into() }
}

fn execute(sql: &str) -> DbRequest {
    DbRequest::Execute { sql: sql.into(), values: vec![] }
}

fn ask(sql: &str, params: &[&str]) -> DbRequest {
    DbRequest::Query { sql: sql.into(), params: strings(params) }
}

fn two_rows() -> LoadedTable {
    read_csv_table(b"a,b\n1,x\n2,\n", "t", b',', true).unwrap()
}

/// Answers a load's requests one after the other, and gives the requests and the outcome.
fn transcript(
    table: &LoadedTable,
    if_exists: IfExists,
    replies: Vec<DbReply>,
) -> (Vec<DbRequest>, Option<Result<usize, LoadError>>) {
    let mut run = load_table_into_db(table, if_exists);
    let mut requests = vec![];
    for reply in replies {
        requests.push(run.request().unwrap());
        run = run.answer(reply);
    }
    (requests, run.outcome())
}

const LOOK_UP: &str = "SELECT COUNT(*) FROM sqlite_master WHERE type='table' AND name=?1";
const INSERT: &str = "INSERT INTO \"t\" (\"a\", \"b\") VALUES (?1, ?2)";

fn done() -> DbReply {
    DbReply::Done
}

#[test]
fn a_new_table_is_created_and_filled_in_one_transaction() {
    let (requests, outcome) = transcript(
        &two_rows(),
        IfExists::Fail,
        vec![count(0), done(), done(), done(), done(), done(), done()],
    );
    assert_eq!(
        requests,
        vec![
            ask(LOOK_UP, &["t"]),
            execute("CREATE TABLE \"t\" (\"a\" INTEGER, \"b\" TEXT)"),
            execute("BEGIN DEFERRED"),
            DbRequest::Prepare { sql: INSERT.into() },
            DbRequest::Execute {
                sql: INSERT.into(),
                values: vec![SqlValue::Integer(1), SqlValue::Text("x".into())],
            },
            DbRequest::Execute {
                sql: INSERT.into(),
                values: vec![SqlValue::Integer(2), SqlValue::Null],
            },
            execute("COMMIT"),
        ]
    );
    assert_eq!(outcome, Some(Ok(2)));
}

#[test]
fn an_existing_table_is_replaced_or_kept_as_told() {
    let (requests, outcome) = transcript(&two_rows(), IfExists::Fail, vec![count(1)]);
    assert_eq!(requests.len(), 1);
    assert_eq!(outcome, Some(Err(LoadError::TableExists)));

    let (requests, outcome) = transcript(
        &two_rows(),
        IfExists::Replace,
        vec![count(1), done(), done(), done(), done(), done(), done(), done()],
    );
    assert_eq!(requests[1], execute("DROP TABLE \"t\""));
    assert_eq!(requests[2], execute("CREATE TABLE \"t\" (\"a\" INTEGER, \"b\" TEXT)"));
    assert_eq!(outcome, Some(Ok(2)));

    let two = || found(vec![vec![], vec![]]);
    let (requests, outcome) = transcript(
        &two_rows(),
        IfExists::Append,
        vec![count(1), two(), done(), done(), done(), done(), done()],
    );
    assert_eq!(requests[1], ask("PRAGMA table_info(\"t\")", &[]));
    assert_eq!(requests[2], execute("BEGIN DEFERRED"));
    assert_eq!(outcome, Some(Ok(2)));

    let (requests, outcome) =
        transcript(&two_rows(), IfExists::Append, vec![count(1), found(vec![vec![]])]);
    assert_eq!(requests.len(), 2);
    assert_eq!(outcome, Some(Err(LoadError::ColumnCount { existing: 1, csv: 2 })));
}

#[test]
fn a_load_under_way_has_no_outcome() {
    let (_, outcome) = transcript(&two_rows(), IfExists::Fail, vec![count(0), done()]);
    assert_eq!(outcome, None);
}

#[test]
fn failures_inside_the_transaction_are_rolled_back() {
    for (before, doing, text) in [
        (3, LoadTask::Prepare, "preparing INSERT statement: disk full"),
        (4, LoadTask::Insert, "inserting row: disk full"),
        (5, LoadTask::Insert, "inserting row: disk full"),
        (6, LoadTask::Commit, "committing insert transaction: disk full"),
    ] {
        for rollback in [done(), broken()] {
            let mut replies = vec![count(0)];
            while replies.len() < before {
                replies.push(done());
            }
            replies.push(broken());
            replies.push(rollback);
            let (requests, outcome) = transcript(&two_rows(), IfExists::Fail, replies);
            assert_eq!(requests.last(), Some(&execute("ROLLBACK")));
            let e = outcome.unwrap().unwrap_err();
            assert_eq!(e, LoadError::Failed { doing, cause: "disk full".into() });
            assert_eq!(e.message("t"), text);
        }
    }
}

#[test]
fn failures_before_the_transaction_end_the_load() {
    for (if_exists, before, doing, text) in [
        (IfExists::Fail, vec![], LoadTask::LookUp, "disk full"),
        (IfExists::Append, vec![count(1)], LoadTask::CountColumns, "disk full"),
        (IfExists::Replace, vec![count(1)], LoadTask::Drop, "dropping existing table t: disk full"),
        (IfExists::Fail, vec![count(0)], LoadTask::Create, "creating table t: disk full"),
        (
            IfExists::Fail,
            vec![count(0), done()],
            LoadTask::Begin,
            "starting insert transaction: disk full",
        ),
    ] {
        let mut replies = before;
        replies.push(broken());
        let (_, outcome) = transcript(&two_rows(), if_exists, replies);
        let e = outcome.unwrap().unwrap_err();
        assert_eq!(e, LoadError::Failed { doing, cause: "disk full".into() });
        assert_eq!(e.message("t"), text);
    }
}

#[test]
fn answers_that_make_no_sense_end_the_load() {
    for reply in [done(), found(vec![]), found(vec![vec![Cell::Text("1".into())]])] {
        let (_, outcome) = transcript(&two_rows(), IfExists::Fail, vec![reply]);
        let e = outcome.unwrap().unwrap_err();
        assert_eq!(e, LoadError::UnexpectedReply { doing: LoadTask::LookUp });
        assert_eq!(e.message("t"), "unexpected answer from the database");
    }
    let (_, outcome) = transcript(&two_rows(), IfExists::Fail, vec![count(0), count(0)]);
    let e = outcome.unwrap().unwrap_err();
    assert_eq!(e.message("t"), "creating table t: unexpected answer from the database");
}

#[test]
fn existence_is_read_off_a_count() {
    assert_eq!(table_exists("t"), ask(LOOK_UP, &["t"]));
    assert_eq!(read_table_exists(&vec![vec![Cell::Integer(1)]]), Some(true));
    assert_eq!(read_table_exists(&vec![vec![Cell::Integer(0)]]), Some(false));
    assert_eq!(read_table_exists(&vec![vec![]]), None);
    assert_eq!(read_table_exists(&vec![]), None);
    assert_eq!(read_table_exists(&vec![vec![Cell::Null]]), None);
}

#[test]
fn hardening_switches_two_settings_off() {
    assert_eq!(
        harden_connection(),
        vec![
            DbRequest::Disable(DbSetting::DoubleQuotedStringsInDdl),
            DbRequest::Disable(DbSetting::DoubleQuotedStringsInDml),
        ]
    );
    assert_eq!(
        DbSetting::DoubleQuotedStringsInDdl.message(),
        "disabling double-quoted string literals for DDL"
    );
    assert_eq!(
        DbSetting::DoubleQuotedStringsInDml.message(),
        "disabling double-quoted string literals for DML"
    );
}

fn indexing(
    columns: &[&str],
    replies: Vec<DbReply>,
) -> (Vec<DbRequest>, Option<Result<(String, IndexOutcome), IndexError>>) {
    let mut run = create_index("t", &strings(columns));
    assert_eq!(run.name(), index_name("t", &strings(columns)));
    let mut requests = vec![];
    for reply in replies {
        requests.push(run.request().unwrap());
        run = run.answer(reply);
    }
    (requests, run.outcome())
}

fn column_list() -> DbReply {
    let row = |i: i64, name: &str| vec![Cell::Integer(i), Cell::Text(name.into()), Cell::Null];
    found(vec![row(0, "a"), row(1, "B")])
}

fn owner(table: &str) -> DbReply {
    found(vec![vec![Cell::Text(table.into())]])
}

fn indexed(columns: &[&str]) -> DbReply {
    let mut list: Vec<Vec<Cell>> = columns
        .iter()
        .map(|c| vec![Cell::Integer(0), Cell::Integer(0), Cell::Text(c.to_string())])
        .collect();
    // A row without a name, such as that of the row id.
    list.push(vec![Cell::Integer(1), Cell::Integer(-1), Cell::Null]);
    found(list)
}

#[test]
fn an_absent_index_is_created() {
    let (requests, outcome) =
        indexing(&["b", "a"], vec![count(1), column_list(), found(vec![]), done()]);
    assert_eq!(
        requests,
        vec![
            ask(LOOK_UP, &["t"]),
            ask("PRAGMA table_info(\"t\")", &[]),
            ask(
                "SELECT tbl_name FROM sqlite_master WHERE type='index' AND name=?1 COLLATE NOCASE",
                &["idx_t_b_a"]
            ),
            execute("CREATE INDEX \"idx_t_b_a\" ON \"t\" (\"b\", \"a\")"),
        ]
    );
    assert_eq!(outcome, Some(Ok(("idx_t_b_a".into(), IndexOutcome::Created))));
}

#[test]
fn an_identical_index_is_left_alone() {
    let (requests, outcome) =
        indexing(&["b", "a"], vec![count(1), column_list(), owner("T"), indexed(&["B", "a"])]);
    assert_eq!(requests[3], ask("PRAGMA index_info(\"idx_t_b_a\")", &[]));
    assert_eq!(outcome, Some(Ok(("idx_t_b_a".into(), IndexOutcome::AlreadyExists))));
}

#[test]
fn a_different_index_is_a_collision() {
    for (table, columns) in [("u", vec!["b", "a"]), ("t", vec!["a", "b"]), ("t", vec!["b"])] {
        let (requests, outcome) =
            indexing(&["b", "a"], vec![count(1), column_list(), owner(table), indexed(&columns)]);
        assert_eq!(requests.len(), 4);
        assert_eq!(
            outcome,
            Some(Err(IndexError::Collision { table: table.into(), columns: strings(&columns) }))
        );
    }
}

#[test]
fn indexes_that_cannot_be() {
    assert_eq!(indexing(&[], vec![]).1, Some(Err(IndexError::NoColumns)));
    assert_eq!(indexing(&["a"], vec![count(0)]).1, Some(Err(IndexError::NoSuchTable)));
    assert_eq!(
        indexing(&["A", "c", "d"], vec![count(1), column_list()]).1,
        Some(Err(IndexError::NoSuchColumn("c".into())))
    );
    assert_eq!(indexing(&["a"], vec![count(1)]).1, None);
}

#[test]
fn failures_while_indexing() {
    let columns = strings(&["a", "b"]);
    for (before, doing, prefix) in [
        (vec![], IndexTask::LookUpTable, ""),
        (vec![count(1)], IndexTask::ListColumns, ""),
        (vec![count(1), column_list()], IndexTask::FindIndex, "looking up existing index: "),
        (vec![count(1), column_list(), owner("t")], IndexTask::ReadIndex, ""),
        (
            vec![count(1), column_list(), found(vec![])],
            IndexTask::Create,
            "creating index on t(a, b): ",
        ),
    ] {
        let mut replies = before;
        replies.push(broken());
        let e = indexing(&["a", "b"], replies).1.unwrap().unwrap_err();
        assert_eq!(e, IndexError::Failed { doing, cause: "disk full".into() });
        assert_eq!(e.message("t", &columns), format!("{prefix}disk full"));
    }
    for (replies, doing) in [
        (vec![done()], IndexTask::LookUpTable),
        (vec![count(1), found(vec![vec![Cell::Null]])], IndexTask::ListColumns),
        (vec![count(1), column_list(), count(3)], IndexTask::FindIndex),
        (vec![count(1), column_list(), owner("t"), count(3)], IndexTask::ReadIndex),
        (vec![count(1), column_list(), found(vec![]), count(3)], IndexTask::Create),
    ] {
        let e = indexing(&["a", "b"], replies).1.unwrap().unwrap_err();
        assert_eq!(e, IndexError::UnexpectedReply { doing });
        assert!(e.message("t", &columns).ends_with("unexpected answer from the database"));
    }
}

#[test]
fn queries_are_asked_as_they_are() {
    let run = run_query("SELECT a FROM t", OutputFormat::Csv);
    assert_eq!(run.request(), ask("SELECT a FROM t", &[]));
    let reply = || DbReply::Rows {
        headers: strings(&["a", "b"]),
        rows: vec![
            vec![Cell::Integer(1), Cell::Text("x,y".into())],
            vec![Cell::Null, Cell::Blob(vec![1])],
        ],
    };
    assert_eq!(run.answer(reply()).unwrap(), "a,b\n1,\"x,y\"\n,<1 bytes blob>\n");
    let out = run_query("SELECT a FROM t", OutputFormat::Table).answer(reply()).unwrap();
    assert_eq!(
        out,
        "+---+----------------+\n\
         | a | b              |\n\
         +---+----------------+\n\
         | 1 | x,y            |\n\
         |   | <1 bytes blob> |\n\
         +---+----------------+"
    );
}

#[test]
fn failed_queries_say_what_failed() {
    for (at, text) in [
        (FailedAt::Preparing, "preparing query: SELECT 1: no"),
        (FailedAt::ReadingColumnNames, "reading query column names: no"),
        (FailedAt::Executing, "executing query: no"),
        (FailedAt::FetchingRow, "fetching query row: no"),
        (FailedAt::ReadingCell, "reading query cell: no"),
    ] {
        let e = run_query("SELECT 1", OutputFormat::Table)
            .answer(DbReply::Failed { at, cause: "no".into() })
            .unwrap_err();
        assert_eq!(e.message("SELECT 1"), text);
        assert!(e.cause().is_none());
    }
    let e = run_query("SELECT 1", OutputFormat::Csv).answer(done()).unwrap_err();
    assert!(matches!(e, QueryError::UnexpectedReply));
    assert_eq!(e.message("SELECT 1"), "executing query: unexpected answer from the database");
    let ragged = DbReply::Rows { headers: strings(&["a"]), rows: vec![vec![]] };
    let e = run_query("SELECT 1", OutputFormat::Csv).answer(ragged).unwrap_err();
    assert!(matches!(e, QueryError::Csv(_)));
    assert_eq!(e.message("SELECT 1"), "writing CSV row");
    assert!(e.cause().is_some());
}

// ---------------------------------------------------------------------------
// Options
// ---------------------------------------------------------------------------

#[test]
fn delimiters() {
    assert_eq!(delimiter_byte(","), Ok(b','));
    assert_eq!(delimiter_byte("\t"), Ok(b'\t'));
    assert_eq!(delimiter_byte("\\t"), Ok(b'\t'));
    assert_eq!(delimiter_byte("tab"), Ok(b'\t'));
    assert_eq!(delimiter_byte("TAB"), Ok(b'\t'));
    for bad in ["", ",,", "é", "Tab"] {
        assert_eq!(delimiter_byte(bad), Err(UsageError::Delimiter));
    }
    assert_eq!(
        UsageError::Delimiter.message("\",,\""),
        "--delim must be a single byte character (got \",,\"); use \\t for tab"
    );
}

#[test]
fn lists_of_columns() {
    assert_eq!(index_columns("region"), strings(&["region"]));
    assert_eq!(index_columns(" year , month,"), strings(&["year", "month"]));
    assert_eq!(index_columns(",a b,,c"), strings(&["a b", "c"]));
    assert_eq!(index_columns(" , \t"), strings(&[]));
    assert_eq!(index_columns(""), strings(&[]));
}

fn options(inputs: &[&str]) -> Options {
    Options {
        inputs: strings(inputs),
        has_output: true,
        has_db: false,
        table: None,
        if_exists: IfExists::Fail,
        delim: ",".into(),
        no_header: false,
        index: vec![],
        query: None,
        format: OutputFormat::Table,
    }
}

#[test]
fn plans_load_then_index_then_query() {
    let p = plan(&Options {
        index: strings(&["a", "b, c"]),
        query: Some("SELECT 1".into()),
        if_exists: IfExists::Append,
        no_header: true,
        delim: "tab".into(),
        format: OutputFormat::Csv,
        ..options(&["sales"])
    })
    .unwrap();
    assert_eq!(p.target, Target::Output);
    assert_eq!(p.delimiter, b'\t');
    assert!(!p.has_header);
    assert_eq!(
        p.jobs,
        vec![
            Job::Load { input: 0, table: "sales".into(), if_exists: IfExists::Append },
            Job::Index { table: "sales".into(), columns: strings(&["a"]) },
            Job::Index { table: "sales".into(), columns: strings(&["b", "c"]) },
            Job::Query { sql: "SELECT 1".into(), format: OutputFormat::Csv },
        ]
    );
}

#[test]
fn every_input_gets_a_table_of_its_own() {
    let p = plan(&options(&["a", "b", "c"])).unwrap();
    assert!(p.has_header);
    let load = |input: usize, table: &str| Job::Load {
        input,
        table: table.into(),
        if_exists: IfExists::Fail,
    };
    assert_eq!(p.jobs, vec![load(0, "a"), load(1, "b"), load(2, "c")]);
}

#[test]
fn a_table_can_be_named() {
    let p = plan(&Options {
        table: Some("t".into()),
        index: strings(&["x"]),
        ..options(&["sales"])
    })
    .unwrap();
    assert_eq!(
        p.jobs,
        vec![
            Job::Load { input: 0, table: "t".into(), if_exists: IfExists::Fail },
            Job::Index { table: "t".into(), columns: strings(&["x"]) },
        ]
    );
}

#[test]
fn databases_to_work_on() {
    let db = || Options { has_output: false, has_db: true, ..options(&[]) };
    assert_eq!(plan(&db()).unwrap().target, Target::Existing);
    assert_eq!(plan(&db()).unwrap().jobs, vec![]);
    let memory = Options {
        has_output: false,
        query: Some("SELECT 1".into()),
        ..options(&[])
    };
    assert_eq!(plan(&memory).unwrap().target, Target::Memory);
    let both = Options { has_db: true, ..options(&[]) };
    assert_eq!(plan(&both).unwrap().target, Target::Existing);
}

#[test]
fn options_that_make_no_sense() {
    let none = |o: Options| plan(&o).unwrap_err();
    assert_eq!(
        none(Options { table: Some("t".into()), delim: "".into(), ..options(&["a", "b"]) }),
        UsageError::TableForManyInputs
    );
    assert_eq!(none(Options { delim: "".into(), ..options(&[]) }), UsageError::Delimiter);
    assert_eq!(
        none(Options { has_db: true, has_output: false, ..options(&["a"]) }),
        UsageError::InputsWithDatabase
    );
    assert_eq!(none(options(&[])), UsageError::NoInputs);
    assert_eq!(none(Options { has_output: false, ..options(&["a"]) }), UsageError::NoDatabase);
    assert_eq!(
        none(Options { has_output: false, query: Some("x".into()), ..options(&["a"]) }),
        UsageError::NoDatabase
    );
    assert_eq!(none(Options { has_output: false, ..options(&[]) }), UsageError::NoDatabase);
}

#[test]
fn indexes_that_are_refused_later() {
    let index = strings(&["x"]);
    let p = plan(&Options {
        has_output: false,
        has_db: true,
        index: index.clone(),
        query: Some("SELECT 1".into()),
        ..options(&[])
    })
    .unwrap();
    assert_eq!(p.jobs[0], Job::Refuse(UsageError::IndexWithoutTable));
    assert_eq!(p.jobs.len(), 2);
    let p = plan(&Options { index, ..options(&["a", "b"]) }).unwrap();
    assert_eq!(p.jobs[2], Job::Refuse(UsageError::IndexAmongManyTables));
    let p = plan(&Options { index: strings(&["x", ", "]), ..options(&["a"]) }).unwrap();
    assert_eq!(p.jobs[1], Job::Index { table: "a".into(), columns: strings(&["x"]) });
    assert_eq!(p.jobs[2], Job::Refuse(UsageError::EmptyIndex(1)));
}

#[test]
fn usage_messages() {
    for (error, text) in [
        (UsageError::TableForManyInputs, "--table cannot be used with multiple input files"),
        (
            UsageError::InputsWithDatabase,
            "--db is for querying an existing database; do not pass CSV inputs (use -o to load)",
        ),
        (UsageError::NoInputs, "no input CSV files given (pass at least one, with -o DB)"),
        (
            UsageError::NoDatabase,
            "must specify an output database with -o DB (to load) or --db DB (to query)",
        ),
        (
            UsageError::IndexWithoutTable,
            "--index requires --table to name the target table when not loading a CSV",
        ),
        (
            UsageError::IndexAmongManyTables,
            "--index requires --table to pick which table to index when loading multiple files",
        ),
        (UsageError::EmptyIndex(0), "--index requires at least one column name (got \"\")"),
    ] {
        assert_eq!(error.message("\"\""), text);
    }
}

#[test]
fn notices() {
    assert_eq!(
        loaded_notice(2, &two_rows()),
        "Loaded 2 row(s) into table \"t\" (2 column(s))"
    );
    let columns = strings(&["a", "b"]);
    assert_eq!(
        indexed_notice(IndexOutcome::Created, "i", "t", &columns),
        "Created index \"i\" on \"t\" (a, b)"
    );
    assert_eq!(
        indexed_notice(IndexOutcome::AlreadyExists, "i", "t", &columns),
        "Index \"i\" already exists on \"t\" (a, b); skipping"
    );
}
