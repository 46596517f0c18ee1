//! What the library asks of a database, and what it makes of the answers.
//!
//! The library talks to no database itself. Its operations hand out one
//! [`DbRequest`] after the other, and go on with the [`DbReply`] to each.

use crate::number::{
    decimal, int_value, law_integer_text_reads_back, push_decimal, push_signed_decimal,
    signed_decimal,
};
use crate::text::{copy_of, texts};
use crate::value::{values, SqlValue, Value};
use vstd::prelude::*;

verus! {

/// A setting of a connection.
#[derive(Debug, Clone, Copy, PartialEq, Eq, Structural)]
pub enum DbSetting {
    /// Double-quoted string literals in statements that define the schema.
    DoubleQuotedStringsInDdl,
    /// Double-quoted string literals in all other statements.
    DoubleQuotedStringsInDml,
}

impl DbSetting {
    /// What switching the setting off does, in words.
    pub open spec fn text(self) -> Seq<char> {
        match self {
            DbSetting::DoubleQuotedStringsInDdl => "disabling double-quoted string literals for DDL"@,
            DbSetting::DoubleQuotedStringsInDml => "disabling double-quoted string literals for DML"@,
        }
    }

    /// What switching the setting off does, for the message when that fails.
    pub fn message(self) -> (r: &'static str)
        ensures
            r@ == self.text(),
    {
        match self {
            DbSetting::DoubleQuotedStringsInDdl => "disabling double-quoted string literals for DDL",
            DbSetting::DoubleQuotedStringsInDml => "disabling double-quoted string literals for DML",
        }
    }
}

/// What a database is asked to do.
#[derive(Debug, PartialEq, Eq)]
pub enum DbRequest {
    /// Switch a setting off.
    Disable(DbSetting),
    /// Run a query with text parameters, and give its columns and all of its rows.
    Query { sql: String, params: Vec<String> },
    /// Compile a statement.
    Prepare { sql: String },
    /// Run a statement that gives no rows, with values for its parameters.
    Execute { sql: String, values: Vec<SqlValue> },
}

/// A [`DbRequest`] as text.
pub enum Request {
    Disable(DbSetting),
    Query { sql: Seq<char>, params: Seq<Seq<char>> },
    Prepare { sql: Seq<char> },
    Execute { sql: Seq<char>, values: Seq<Value> },
}

impl View for DbRequest {
    type V = Request;

    open spec fn view(&self) -> Request {
        match self {
            DbRequest::Disable(setting) => Request::Disable(*setting),
            DbRequest::Query { sql, params } => Request::Query {
                sql: sql@,
                params: texts(params@),
            },
            DbRequest::Prepare { sql } => Request::Prepare { sql: sql@ },
            DbRequest::Execute { sql, values: bound } => Request::Execute {
                sql: sql@,
                values: values(bound@),
            },
        }
    }
}

/// A value in a query's result.
#[derive(Debug, PartialEq, Eq)]
pub enum Cell {
    Null,
    Integer(i64),
    /// A real, as the shortest decimal text that denotes it.
    Real(String),
    Text(String),
    Blob(Vec<u8>),
}

/// A [`Cell`] as text and numbers.
pub enum Datum {
    Null,
    Integer(int),
    Real(Seq<char>),
    Text(Seq<char>),
    Blob(Seq<u8>),
}

impl View for Cell {
    type V = Datum;

    open spec fn view(&self) -> Datum {
        match self {
            Cell::Null => Datum::Null,
            Cell::Integer(i) => Datum::Integer(*i as int),
            Cell::Real(s) => Datum::Real(s@),
            Cell::Text(s) => Datum::Text(s@),
            Cell::Blob(b) => Datum::Blob(b@),
        }
    }
}

/// A row of cells.
pub open spec fn data(row: Seq<Cell>) -> Seq<Datum> {
    Seq::new(row.len(), |i: int| row[i]@)
}

/// Rows of cells.
pub open spec fn data_rows(rows: Seq<Vec<Cell>>) -> Seq<Seq<Datum>> {
    Seq::new(rows.len(), |i: int| data(rows[i]@))
}

/// Where a request failed.
#[derive(Debug, Clone, Copy, PartialEq, Eq, Structural)]
pub enum FailedAt {
    Preparing,
    ReadingColumnNames,
    Executing,
    FetchingRow,
    ReadingCell,
}

/// A database's answer to a request.
#[derive(Debug)]
pub enum DbReply {
    /// The request was carried out.
    Done,
    /// The columns and the rows of a query.
    Rows { headers: Vec<String>, rows: Vec<Vec<Cell>> },
    /// The request failed, for this reason.
    Failed { at: FailedAt, cause: String },
}

/// A [`DbReply`] as text.
pub enum Reply {
    Done,
    Rows { headers: Seq<Seq<char>>, rows: Seq<Seq<Datum>> },
    Failed { at: FailedAt, cause: Seq<char> },
}

impl View for DbReply {
    type V = Reply;

    open spec fn view(&self) -> Reply {
        match self {
            DbReply::Done => Reply::Done,
            DbReply::Rows { headers, rows } => Reply::Rows {
                headers: texts(headers@),
                rows: data_rows(rows@),
            },
            DbReply::Failed { at, cause } => Reply::Failed { at: *at, cause: cause@ },
        }
    }
}

// ---------------------------------------------------------------------------
// Asking
// ---------------------------------------------------------------------------

/// A query without parameters.
pub open spec fn query(sql: Seq<char>) -> Request {
    Request::Query { sql, params: Seq::empty() }
}

/// A query with one text parameter.
pub open spec fn query_about(sql: Seq<char>, name: Seq<char>) -> Request {
    Request::Query { sql, params: seq![name] }
}

/// A statement without parameters.
pub open spec fn execute(sql: Seq<char>) -> Request {
    Request::Execute { sql, values: Seq::empty() }
}

pub(crate) fn ask(sql: String) -> (r: DbRequest)
    ensures
        r@ == query(sql@),
{
    let params: Vec<String> = Vec::new();
    assert(texts(params@) =~= Seq::<Seq<char>>::empty());
    DbRequest::Query { sql, params }
}

pub(crate) fn ask_about(sql: &str, name: &str) -> (r: DbRequest)
    ensures
        r@ == query_about(sql@, name@),
{
    let mut params: Vec<String> = Vec::new();
    params.push(copy_of(name));
    assert(texts(params@) =~= seq![name@]);
    DbRequest::Query { sql: copy_of(sql), params }
}

pub(crate) fn run(sql: String) -> (r: DbRequest)
    ensures
        r@ == execute(sql@),
{
    let bound: Vec<SqlValue> = Vec::new();
    assert(values(bound@) =~= Seq::<Value>::empty());
    DbRequest::Execute { sql, values: bound }
}

/// The settings that are switched off on every connection, so that a double-quoted name
/// that does not exist is an error and not a string.
pub open spec fn hardening() -> Seq<Request> {
    seq![
        Request::Disable(DbSetting::DoubleQuotedStringsInDdl),
        Request::Disable(DbSetting::DoubleQuotedStringsInDml),
    ]
}

/// A list of requests as text.
pub open spec fn requests(list: Seq<DbRequest>) -> Seq<Request> {
    Seq::new(list.len(), |i: int| list[i]@)
}

/// What to ask of a freshly opened connection, before anything else.
pub fn harden_connection() -> (r: Vec<DbRequest>)
    ensures
        requests(r@) == hardening(),
{
    let mut list: Vec<DbRequest> = Vec::new();
    list.push(DbRequest::Disable(DbSetting::DoubleQuotedStringsInDdl));
    list.push(DbRequest::Disable(DbSetting::DoubleQuotedStringsInDml));
    assert(requests(list@) =~= hardening());
    list
}

/// The query that counts the tables of a name.
pub open spec fn table_count_sql() -> Seq<char> {
    "SELECT COUNT(*) FROM sqlite_master WHERE type='table' AND name=?1"@
}

/// The question whether a table exists.
pub open spec fn table_exists_request(name: Seq<char>) -> Request {
    query_about(table_count_sql(), name)
}

/// Asks whether a table with this name exists in the main schema.
pub fn table_exists(name: &str) -> (r: DbRequest)
    ensures
        r@ == table_exists_request(name@),
{
    ask_about("SELECT COUNT(*) FROM sqlite_master WHERE type='table' AND name=?1", name)
}

// ---------------------------------------------------------------------------
// Understanding answers
// ---------------------------------------------------------------------------

/// The integer in the first row and column, where there is one.
pub open spec fn first_integer(rows: Seq<Seq<Datum>>) -> Option<int> {
    if rows.len() > 0 && rows[0].len() > 0 && rows[0][0] is Integer {
        Some(rows[0][0]->Integer_0)
    } else {
        None
    }
}

/// Do rows that count tables say that there is one? `None` where they are no count.
pub open spec fn says_exists(rows: Seq<Seq<Datum>>) -> Option<bool> {
    match first_integer(rows) {
        Some(n) => Some(n > 0),
        None => None,
    }
}

/// Reads the answer to [`table_exists`].
pub fn read_table_exists(rows: &Vec<Vec<Cell>>) -> (r: Option<bool>)
    ensures
        r == says_exists(data_rows(rows@)),
{
    if rows.len() == 0 {
        return None;
    }
    let row = &rows[0];
    assert(data_rows(rows@)[0] == data(row@));
    if row.len() == 0 {
        return None;
    }
    assert(data(row@)[0] == row@[0]@);
    match &row[0] {
        Cell::Integer(n) => Some(*n > 0),
        _ => None,
    }
}

/// The text in the first row and column: `None` where that is no text, `Some(None)` where
/// there is no row.
pub open spec fn first_text(rows: Seq<Seq<Datum>>) -> Option<Option<Seq<char>>> {
    if rows.len() == 0 {
        Some(None)
    } else if rows[0].len() > 0 && rows[0][0] is Text {
        Some(Some(rows[0][0]->Text_0))
    } else {
        None
    }
}

/// A text that may be missing, as text.
pub open spec fn optional_text(s: Option<String>) -> Option<Seq<char>> {
    match s {
        Some(s) => Some(s@),
        None => None,
    }
}

pub(crate) fn read_first_text(rows: &Vec<Vec<Cell>>) -> (r: Option<Option<String>>)
    ensures
        r is Some <==> first_text(data_rows(rows@)) is Some,
        r matches Some(s) ==> first_text(data_rows(rows@)) == Some(optional_text(s)),
{
    if rows.len() == 0 {
        return Some(None);
    }
    let row = &rows[0];
    assert(data_rows(rows@)[0] == data(row@));
    if row.len() == 0 {
        return None;
    }
    assert(data(row@)[0] == row@[0]@);
    match &row[0] {
        Cell::Text(s) => Some(Some(s.clone())),
        _ => None,
    }
}

/// Is there a text in column `c` of the row?
pub open spec fn text_at(row: Seq<Datum>, c: int) -> bool {
    c < row.len() && row[c] is Text
}

/// The texts in column `c`; `None` where a row has no text there.
pub open spec fn text_column(rows: Seq<Seq<Datum>>, c: int) -> Option<Seq<Seq<char>>> {
    if forall|i: int| 0 <= i < rows.len() ==> text_at(#[trigger] rows[i], c) {
        Some(Seq::new(rows.len(), |i: int| rows[i][c]->Text_0))
    } else {
        None
    }
}

pub(crate) fn read_text_column(rows: &Vec<Vec<Cell>>, c: usize) -> (r: Option<Vec<String>>)
    ensures
        r is Some <==> text_column(data_rows(rows@), c as int) is Some,
        r matches Some(list) ==> text_column(data_rows(rows@), c as int) == Some(texts(list@)),
{
    let ghost all = data_rows(rows@);
    let mut out: Vec<String> = Vec::new();
    let mut i: usize = 0;
    while i < rows.len()
        invariant
            i <= rows@.len(),
            all == data_rows(rows@),
            forall|j: int| 0 <= j < i ==> text_at(#[trigger] all[j], c as int),
            texts(out@) == Seq::new(i as nat, |j: int| all[j][c as int]->Text_0),
        decreases rows@.len() - i,
    {
        let row = &rows[i];
        assert(all[i as int] == data(row@));
        if c >= row.len() {
            assert(!text_at(all[i as int], c as int));
            return None;
        }
        assert(data(row@)[c as int] == row@[c as int]@);
        match &row[c] {
            Cell::Text(s) => {
                let ghost before = out@;
                out.push(s.clone());
                assert(texts(out@) =~= texts(before).push(s@));
                assert(texts(out@) =~= Seq::new(
                    (i + 1) as nat,
                    |j: int| all[j][c as int]->Text_0,
                ));
            },
            _ => {
                assert(!text_at(all[i as int], c as int));
                return None;
            },
        }
        i += 1;
    }
    Some(out)
}

/// Is there a text or NULL in column `c` of the row?
pub open spec fn text_or_null_at(row: Seq<Datum>, c: int) -> bool {
    c < row.len() && (row[c] is Text || row[c] is Null)
}

/// The texts in column `c`, without the NULLs.
pub open spec fn texts_present(rows: Seq<Seq<Datum>>, c: int) -> Seq<Seq<char>>
    decreases rows.len(),
{
    if rows.len() == 0 {
        Seq::empty()
    } else {
        let before = texts_present(rows.drop_last(), c);
        match rows.last()[c] {
            Datum::Text(s) => before.push(s),
            _ => before,
        }
    }
}

/// The texts in column `c`, without the NULLs; `None` where a row has neither there.
pub open spec fn nullable_text_column(rows: Seq<Seq<Datum>>, c: int) -> Option<Seq<Seq<char>>> {
    if forall|i: int| 0 <= i < rows.len() ==> text_or_null_at(#[trigger] rows[i], c) {
        Some(texts_present(rows, c))
    } else {
        None
    }
}

pub(crate) fn read_nullable_text_column(rows: &Vec<Vec<Cell>>, c: usize) -> (r: Option<
    Vec<String>,
>)
    ensures
        r is Some <==> nullable_text_column(data_rows(rows@), c as int) is Some,
        r matches Some(list) ==> nullable_text_column(data_rows(rows@), c as int) == Some(
            texts(list@),
        ),
{
    let ghost all = data_rows(rows@);
    let mut out: Vec<String> = Vec::new();
    let mut i: usize = 0;
    assert(texts(out@) =~= texts_present(all.take(0), c as int));
    while i < rows.len()
        invariant
            i <= rows@.len(),
            all == data_rows(rows@),
            forall|j: int| 0 <= j < i ==> text_or_null_at(#[trigger] all[j], c as int),
            texts(out@) == texts_present(all.take(i as int), c as int),
        decreases rows@.len() - i,
    {
        let row = &rows[i];
        assert(all[i as int] == data(row@));
        assert(all.take(i + 1).drop_last() == all.take(i as int));
        if c >= row.len() {
            assert(!text_or_null_at(all[i as int], c as int));
            return None;
        }
        assert(data(row@)[c as int] == row@[c as int]@);
        match &row[c] {
            Cell::Text(s) => {
                let ghost before = out@;
                out.push(s.clone());
                assert(texts(out@) =~= texts(before).push(s@));
            },
            Cell::Null => {},
            _ => {
                assert(!text_or_null_at(all[i as int], c as int));
                return None;
            },
        }
        i += 1;
    }
    assert(all.take(all.len() as int) == all);
    Some(out)
}

// ---------------------------------------------------------------------------
// Showing values
// ---------------------------------------------------------------------------

/// A value as it is shown.
pub open spec fn shown(d: Datum) -> Seq<char> {
    match d {
        Datum::Null => Seq::empty(),
        Datum::Integer(i) => signed_decimal(i),
        Datum::Real(s) => s,
        Datum::Text(s) => s,
        Datum::Blob(b) => "<"@ + decimal(b.len()) + " bytes blob>"@,
    }
}

/// Renders a value as a display string for output.
pub fn value_to_display(v: &Cell) -> (r: String)
    ensures
        r@ == shown(v@),
{
    match v {
        Cell::Null => String::new(),
        Cell::Integer(i) => {
            let mut out = String::new();
            push_signed_decimal(&mut out, *i);
            assert(out@ =~= signed_decimal(*i as int));
            out
        },
        Cell::Real(s) => s.clone(),
        Cell::Text(s) => s.clone(),
        Cell::Blob(b) => {
            let mut out = copy_of("<");
            push_decimal(&mut out, b.len() as u64);
            out.append(" bytes blob>");
            out
        },
    }
}

// ---------------------------------------------------------------------------
// What holds of requests and answers
// ---------------------------------------------------------------------------

/// Requests say what they are asked to say: a query has the statement, and as parameters the
/// name that it is about or none; a statement without parameters binds no values.
pub proof fn law_requests(sql: Seq<char>, name: Seq<char>)
    ensures
        query(sql) == (Request::Query { sql, params: Seq::empty() }),
        query_about(sql, name) == (Request::Query { sql, params: seq![name] }),
        execute(sql) == (Request::Execute { sql, values: Seq::empty() }),
        table_exists_request(name) == (Request::Query {
            sql: "SELECT COUNT(*) FROM sqlite_master WHERE type='table' AND name=?1"@,
            params: seq![name],
        }),
{
}

/// An answer has all of its rows and each row all of its cells, in order.
pub proof fn law_rows_of_cells(rows: Seq<Vec<Cell>>)
    ensures
        data_rows(rows).len() == rows.len(),
        forall|i: int|
            0 <= i < rows.len() ==> (#[trigger] data_rows(rows)[i]).len() == rows[i]@.len(),
        forall|i: int, c: int|
            0 <= i < rows.len() && 0 <= c < rows[i]@.len() ==> #[trigger] data_rows(rows)[i][c]
                == rows[i]@[c]@,
{
}

/// A count of tables says that the table exists exactly where it is more than zero.
pub proof fn law_counts_of_tables(rows: Seq<Seq<Datum>>, n: int)
    ensures
        rows.len() > 0 && rows[0].len() > 0 && rows[0][0] == Datum::Integer(n) ==> says_exists(rows)
            == Some(n > 0),
        says_exists(rows) is Some ==> rows.len() > 0 && rows[0].len() > 0 && rows[0][0] is Integer,
{
}

/// A look-up of one text gives the first row's, whole; none where there is no row.
pub proof fn law_first_text(rows: Seq<Seq<Datum>>, s: Seq<char>)
    ensures
        rows.len() == 0 ==> first_text(rows) == Some(None::<Seq<char>>),
        rows.len() > 0 && rows[0].len() > 0 && rows[0][0] == Datum::Text(s) ==> first_text(rows)
            == Some(Some(s)),
        first_text(rows) matches Some(Some(t)) ==> rows.len() > 0 && rows[0].len() > 0
            && rows[0][0] == Datum::Text(t),
        first_text(rows) == Some(None::<Seq<char>>) ==> rows.len() == 0,
{
}

/// A column of texts has one per row, in order, and is one only where every row has a text
/// there.
pub proof fn law_text_columns(rows: Seq<Seq<Datum>>, c: int)
    requires
        0 <= c,
    ensures
        text_column(rows, c) is Some <==> forall|i: int|
            0 <= i < rows.len() ==> c < (#[trigger] rows[i]).len() && rows[i][c] is Text,
        text_column(rows, c) matches Some(list) ==> list.len() == rows.len() && forall|i: int|
            0 <= i < rows.len() ==> Datum::Text(#[trigger] list[i]) == rows[i][c],
{
}

proof fn lemma_texts_present_add(a: Seq<Seq<Datum>>, b: Seq<Seq<Datum>>, c: int)
    ensures
        texts_present(a + b, c) == texts_present(a, c) + texts_present(b, c),
    decreases b.len(),
{
    if b.len() == 0 {
        assert(a + b =~= a);
        assert(texts_present(a, c) + texts_present(b, c) =~= texts_present(a, c));
    } else {
        lemma_texts_present_add(a, b.drop_last(), c);
        assert((a + b).drop_last() =~= a + b.drop_last());
        assert((a + b).last() == b.last());
        assert(texts_present(a + b, c) =~= texts_present(a, c) + texts_present(b, c));
    }
}

/// Of a column of texts and NULLs, the texts are left, all of them and in order: any two parts
/// of the rows give theirs separately, and a single row its text, or nothing for NULL.
pub proof fn law_nullable_text_columns(a: Seq<Seq<Datum>>, b: Seq<Seq<Datum>>, row: Seq<Datum>, c: int)
    requires
        0 <= c,
    ensures
        nullable_text_column(a, c) is Some <==> forall|i: int|
            0 <= i < a.len() ==> c < (#[trigger] a[i]).len() && (a[i][c] is Text || a[i][c] is Null),
        nullable_text_column(a, c) is Some && nullable_text_column(b, c) is Some
            ==> nullable_text_column(a + b, c) == Some(
            nullable_text_column(a, c)->0 + nullable_text_column(b, c)->0,
        ),
        nullable_text_column(Seq::empty(), c) == Some(Seq::<Seq<char>>::empty()),
        c < row.len() && row[c] is Null ==> nullable_text_column(seq![row], c) == Some(
            Seq::<Seq<char>>::empty(),
        ),
        c < row.len() && row[c] is Text ==> nullable_text_column(seq![row], c) == Some(
            seq![row[c]->Text_0],
        ),
{
    lemma_texts_present_add(a, b, c);
    if nullable_text_column(a, c) is Some && nullable_text_column(b, c) is Some {
        assert forall|i: int| 0 <= i < (a + b).len() implies text_or_null_at(
            #[trigger] (a + b)[i],
            c,
        ) by {
            if i < a.len() {
                assert(text_or_null_at(a[i], c));
            } else {
                assert(text_or_null_at(b[i - a.len()], c));
            }
        }
    }
    let one = seq![row];
    assert(one.drop_last() =~= Seq::<Seq<Datum>>::empty());
    assert(one.last() == row);
    assert(texts_present(one.drop_last(), c) == Seq::<Seq<char>>::empty());
    if c < row.len() && (row[c] is Null || row[c] is Text) {
        assert forall|i: int| 0 <= i < one.len() implies text_or_null_at(#[trigger] one[i], c) by {
            assert(one[i] == row);
        }
        if row[c] is Text {
            assert(texts_present(one, c) =~= seq![row[c]->Text_0]);
        }
    }
    if forall|i: int|
        0 <= i < a.len() ==> c < (#[trigger] a[i]).len() && (a[i][c] is Text || a[i][c] is Null) {
        assert forall|i: int| 0 <= i < a.len() implies text_or_null_at(#[trigger] a[i], c) by {
        }
    }
    if nullable_text_column(a, c) is Some {
        assert forall|i: int| 0 <= i < a.len() implies c < (#[trigger] a[i]).len() && (a[i][c]
            is Text || a[i][c] is Null) by {
            assert(text_or_null_at(a[i], c));
        }
    }
}

/// Values are shown in full: texts and reals as they are, an integer in decimal so that it reads
/// back, NULL as nothing, and of a blob its size.
pub proof fn law_shown_values(s: Seq<char>, i: i64, b: Seq<u8>)
    ensures
        shown(Datum::Null) == Seq::<char>::empty(),
        shown(Datum::Text(s)) == s,
        shown(Datum::Real(s)) == s,
        shown(Datum::Integer(i as int)) == signed_decimal(i as int),
        int_value(shown(Datum::Integer(i as int))) == Some(i),
        shown(Datum::Blob(b)) == "<"@ + decimal(b.len()) + " bytes blob>"@,
{
    law_integer_text_reads_back(i);
}

/// Requests are seen as they are: the statement, the parameters and the values, in full.
pub proof fn law_views_of_requests(request: DbRequest)
    ensures
        request matches DbRequest::Disable(setting) ==> request@ == Request::Disable(setting),
        request matches DbRequest::Prepare { sql } ==> request@ == (Request::Prepare { sql: sql@ }),
        request matches DbRequest::Query { sql, params } ==> (request@ matches Request::Query {
            sql: text,
            params: list,
        } && text == sql@ && list == Seq::new(params@.len(), |i: int| params@[i]@)),
        request matches DbRequest::Execute { sql, values: bound } ==> (
        request@ matches Request::Execute { sql: text, values: list } && text == sql@ && list
            == Seq::new(bound@.len(), |i: int| bound@[i]@)),
{
    if let DbRequest::Query { sql, params } = request {
        assert(texts(params@) =~= Seq::new(params@.len(), |i: int| params@[i]@));
    }
    if let DbRequest::Execute { sql, values: bound } = request {
        assert(values(bound@) =~= Seq::new(bound@.len(), |i: int| bound@[i]@));
    }
}

/// Answers are seen as they are: the columns' names, all rows, and the reason of a failure.
pub proof fn law_views_of_replies(reply: DbReply)
    ensures
        reply is Done ==> reply@ == Reply::Done,
        reply matches DbReply::Rows { headers, rows } ==> (reply@ matches Reply::Rows {
            headers: names,
            rows: list,
        } && names == Seq::new(headers@.len(), |i: int| headers@[i]@) && list == Seq::new(
            rows@.len(),
            |i: int| Seq::new(rows@[i]@.len(), |c: int| rows@[i]@[c]@),
        )),
        reply matches DbReply::Failed { at, cause } ==> reply@ == (Reply::Failed {
            at,
            cause: cause@,
        }),
{
    if let DbReply::Rows { headers, rows } = reply {
        assert(texts(headers@) =~= Seq::new(headers@.len(), |i: int| headers@[i]@));
        let list = Seq::new(
            rows@.len(),
            |i: int| Seq::new(rows@[i]@.len(), |c: int| rows@[i]@[c]@),
        );
        assert forall|i: int| 0 <= i < list.len() implies data_rows(rows@)[i] == list[i] by {
            assert(data_rows(rows@)[i] =~= list[i]);
        }
        assert(data_rows(rows@) =~= list);
    }
}

/// Cells are seen as they are.
pub proof fn law_views_of_cells(cell: Cell)
    ensures
        cell is Null ==> cell@ == Datum::Null,
        cell matches Cell::Integer(i) ==> cell@ == Datum::Integer(i as int),
        cell matches Cell::Real(s) ==> cell@ == Datum::Real(s@),
        cell matches Cell::Text(s) ==> cell@ == Datum::Text(s@),
        cell matches Cell::Blob(b) ==> cell@ == Datum::Blob(b@),
{
}

} // verus!
