//! Running a query and rendering its result.

use crate::db::{
    ask, data, data_rows, query, shown, value_to_display, Cell, Datum, DbReply, DbRequest,
    FailedAt, Reply,
};
use crate::records::{csv_text, rectangular, render_csv};
use crate::render::{render_table, table_text};
use crate::text::{copy_of, text_rows, texts};
use vstd::prelude::*;

verus! {

/// How a query's result should be rendered.
#[derive(Debug, Clone, Copy, PartialEq, Eq, Structural)]
pub enum OutputFormat {
    Csv,
    Table,
}

/// Why a query gave no output.
#[derive(Debug)]
pub enum QueryError {
    /// The database failed.
    Failed { at: FailedAt, cause: String },
    /// The result could not be written as CSV.
    Csv(csv::Error),
    /// The database's answer is no result of a query.
    UnexpectedReply,
}

impl QueryError {
    /// What went wrong with the query `sql`, in words, without the cause that the `csv` crate
    /// gave.
    pub open spec fn text(self, sql: Seq<char>) -> Seq<char> {
        match self {
            QueryError::Failed { at, cause } => (match at {
                FailedAt::Preparing => "preparing query: "@ + sql,
                FailedAt::ReadingColumnNames => "reading query column names"@,
                FailedAt::Executing => "executing query"@,
                FailedAt::FetchingRow => "fetching query row"@,
                FailedAt::ReadingCell => "reading query cell"@,
            }) + ": "@ + cause@,
            QueryError::Csv(_) => "writing CSV row"@,
            QueryError::UnexpectedReply => "executing query: unexpected answer from the database"@,
        }
    }

    /// The cause that the `csv` crate gave, where there is one.
    pub open spec fn csv_error(self) -> Option<csv::Error> {
        match self {
            QueryError::Csv(e) => Some(e),
            _ => None,
        }
    }

    /// What went wrong with the query `sql`, in words.
    pub fn message(&self, sql: &str) -> (r: String)
        ensures
            r@ == self.text(sql@),
            self matches QueryError::Failed { at, cause } ==> r@ == (match *at {
                FailedAt::Preparing => "preparing query: "@ + sql@,
                FailedAt::ReadingColumnNames => "reading query column names"@,
                FailedAt::Executing => "executing query"@,
                FailedAt::FetchingRow => "fetching query row"@,
                FailedAt::ReadingCell => "reading query cell"@,
            }) + ": "@ + cause@,
    {
        match self {
            QueryError::Failed { at, cause } => {
                let mut out = match at {
                    FailedAt::Preparing => {
                        let mut start = copy_of("preparing query: ");
                        start.append(sql);
                        start
                    },
                    FailedAt::ReadingColumnNames => copy_of("reading query column names"),
                    FailedAt::Executing => copy_of("executing query"),
                    FailedAt::FetchingRow => copy_of("fetching query row"),
                    FailedAt::ReadingCell => copy_of("reading query cell"),
                };
                out.append(": ");
                out.append(cause.as_str());
                out
            },
            QueryError::Csv(_) => copy_of("writing CSV row"),
            QueryError::UnexpectedReply => copy_of(
                "executing query: unexpected answer from the database",
            ),
        }
    }

    /// The cause that the `csv` crate gave, where there is one.
    pub fn cause(self) -> (r: Option<csv::Error>)
        ensures
            r == self.csv_error(),
            self matches QueryError::Csv(e) ==> r == Some(e),
    {
        match self {
            QueryError::Csv(e) => Some(e),
            _ => None,
        }
    }
}

/// A row of cells as it is shown.
pub open spec fn shown_row(row: Seq<Datum>) -> Seq<Seq<char>> {
    Seq::new(row.len(), |i: int| shown(row[i]))
}

/// Rows of cells as they are shown.
pub open spec fn shown_rows(rows: Seq<Seq<Datum>>) -> Seq<Seq<Seq<char>>> {
    Seq::new(rows.len(), |i: int| shown_row(rows[i]))
}

/// A query's result as text; as CSV only where every row has one cell per column.
pub open spec fn rendered(
    headers: Seq<Seq<char>>,
    rows: Seq<Seq<Datum>>,
    format: OutputFormat,
) -> Option<Seq<char>> {
    match format {
        OutputFormat::Csv => if rectangular(headers, shown_rows(rows)) {
            Some(csv_text(seq![headers] + shown_rows(rows)))
        } else {
            None
        },
        OutputFormat::Table => Some(table_text(headers, shown_rows(rows))),
    }
}

/// What a query comes to, given the answer of the database.
pub open spec fn query_outcome(
    reply: Reply,
    format: OutputFormat,
    r: Result<String, QueryError>,
) -> bool {
    match reply {
        Reply::Rows { headers, rows } => match rendered(headers, rows, format) {
            Some(text) => r matches Ok(s) && s@ == text,
            None => r matches Err(QueryError::Csv(_)),
        },
        Reply::Failed { at, cause } => r matches Err(QueryError::Failed { at: a, cause: c }) && a
            == at && c@ == cause,
        Reply::Done => r matches Err(QueryError::UnexpectedReply),
    }
}

/// A query under way.
#[derive(Debug)]
pub struct QueryRun {
    sql: String,
    format: OutputFormat,
}

impl QueryRun {
    /// The query.
    pub closed spec fn query_text(&self) -> Seq<char> {
        self.sql@
    }

    /// How its result is to be rendered.
    pub closed spec fn output_format(&self) -> OutputFormat {
        self.format
    }
}

/// Starts running a SQL query. Works for any read query; the column names come with the
/// result.
pub fn run_query(sql: &str, format: OutputFormat) -> (r: QueryRun)
    ensures
        r.query_text() == sql@,
        r.output_format() == format,
{
    QueryRun { sql: copy_of(sql), format }
}

proof fn lemma_shown_rows_are_the_only_ones(rows: Seq<Seq<Datum>>)
    ensures
        forall|cells: Seq<Seq<Seq<char>>>|
            {
                &&& cells.len() == rows.len()
                &&& forall|i: int|
                    0 <= i < cells.len() ==> (#[trigger] cells[i]).len() == rows[i].len()
                &&& forall|i: int, c: int|
                    0 <= i < cells.len() && 0 <= c < cells[i].len() ==> #[trigger] cells[i][c]
                        == shown(rows[i][c])
            } ==> #[trigger] cells.len() >= 0 && cells == shown_rows(rows),
{
    let full = shown_rows(rows);
    assert forall|cells: Seq<Seq<Seq<char>>>|
        {
            &&& cells.len() == rows.len()
            &&& forall|i: int|
                0 <= i < cells.len() ==> (#[trigger] cells[i]).len() == rows[i].len()
            &&& forall|i: int, c: int|
                0 <= i < cells.len() && 0 <= c < cells[i].len() ==> #[trigger] cells[i][c]
                    == shown(rows[i][c])
        } implies #[trigger] cells.len() >= 0 && cells == full by {
        assert forall|i: int| 0 <= i < cells.len() implies cells[i] == full[i] by {
            assert(cells[i] =~= full[i]);
        }
        assert(cells =~= full);
    }
}

fn show_rows(rows: &Vec<Vec<Cell>>) -> (r: Vec<Vec<String>>)
    ensures
        text_rows(r@) == shown_rows(data_rows(rows@)),
{
    let ghost full = shown_rows(data_rows(rows@));
    let mut out: Vec<Vec<String>> = Vec::new();
    let mut i: usize = 0;
    while i < rows.len()
        invariant
            i <= rows@.len(),
            full == shown_rows(data_rows(rows@)),
            text_rows(out@) == full.take(i as int),
        decreases rows@.len() - i,
    {
        let row = &rows[i];
        let ghost line = full[i as int];
        assert(data_rows(rows@)[i as int] == data(row@));
        let mut cells: Vec<String> = Vec::new();
        let mut c: usize = 0;
        while c < row.len()
            invariant
                c <= row@.len(),
                line == shown_row(data(row@)),
                texts(cells@) == line.take(c as int),
            decreases row@.len() - c,
        {
            let cell = value_to_display(&row[c]);
            let ghost before = cells@;
            cells.push(cell);
            assert(texts(cells@) =~= texts(before).push(cell@));
            assert(line.take(c + 1) =~= line.take(c as int).push(cell@));
            c += 1;
        }
        assert(line.take(line.len() as int) == line);
        let ghost before = out@;
        out.push(cells);
        assert(text_rows(out@) =~= text_rows(before).push(texts(cells@)));
        assert(full.take(i + 1) =~= full.take(i as int).push(line));
        i += 1;
    }
    assert(full.take(full.len() as int) == full);
    out
}

impl QueryRun {
    /// What to ask the database.
    pub fn request(&self) -> (r: DbRequest)
        ensures
            r@ == query(self.query_text()),
    {
        ask(self.sql.clone())
    }

    /// Renders the database's answer: a header and the rows, or why there are none.
    pub fn answer(self, reply: DbReply) -> (r: Result<String, QueryError>)
        ensures
            query_outcome(reply@, self.output_format(), r),
            reply@ is Rows && self.output_format() == OutputFormat::Table ==> forall|
                cells: Seq<Seq<Seq<char>>>,
            |
                {
                    &&& cells.len() == (reply@->rows).len()
                    &&& forall|i: int|
                        0 <= i < cells.len() ==> (#[trigger] cells[i]).len()
                            == reply@->rows[i].len()
                    &&& forall|i: int, c: int|
                        0 <= i < cells.len() && 0 <= c < cells[i].len() ==> #[trigger] cells[i][c]
                            == shown(reply@->rows[i][c])
                } ==> (r matches Ok(s) && s@ == #[trigger] table_text(reply@->headers, cells)),
            reply@ is Rows && self.output_format() == OutputFormat::Csv ==> forall|
                cells: Seq<Seq<Seq<char>>>,
            |
                {
                    &&& cells.len() == (reply@->rows).len()
                    &&& forall|i: int|
                        0 <= i < cells.len() ==> (#[trigger] cells[i]).len()
                            == reply@->rows[i].len() && cells[i].len() == (reply@->headers).len()
                    &&& forall|i: int, c: int|
                        0 <= i < cells.len() && 0 <= c < cells[i].len() ==> #[trigger] cells[i][c]
                            == shown(reply@->rows[i][c])
                } ==> (r matches Ok(s) && s@ == #[trigger] csv_text(
                seq![reply@->headers] + cells,
            )),
    {
        proof {
            if reply@ is Rows {
                lemma_shown_rows_are_the_only_ones(reply@->rows);
            }
        }
        match reply {
            DbReply::Rows { headers, rows } => {
                let cells = show_rows(&rows);
                match self.format {
                    OutputFormat::Csv => match render_csv(headers.as_slice(), cells.as_slice()) {
                        Ok(text) => Ok(text),
                        Err(e) => Err(QueryError::Csv(e)),
                    },
                    OutputFormat::Table => Ok(render_table(headers.as_slice(), cells.as_slice())),
                }
            },
            DbReply::Failed { at, cause } => Err(QueryError::Failed { at, cause }),
            DbReply::Done => Err(QueryError::UnexpectedReply),
        }
    }
}

/// A result is shown in full: one row per row of the answer, in order, and in each row one text
/// per cell, in order, the one that the cell is shown as.
pub proof fn law_results_are_shown_in_full(rows: Seq<Seq<Datum>>)
    ensures
        shown_rows(rows).len() == rows.len(),
        forall|i: int|
            0 <= i < rows.len() ==> (#[trigger] shown_rows(rows)[i]).len() == rows[i].len(),
        forall|i: int, c: int|
            0 <= i < rows.len() && 0 <= c < rows[i].len() ==> #[trigger] shown_rows(rows)[i][c]
                == shown(rows[i][c]),
{
}

/// What becomes of a query: the result as an aligned table, always, or as CSV, where every row
/// has a cell per column, header first; else the failure, with where it happened and why.
pub proof fn law_outcomes_of_queries(
    headers: Seq<Seq<char>>,
    rows: Seq<Seq<Datum>>,
    at: FailedAt,
    cause: Seq<char>,
    format: OutputFormat,
    r: Result<String, QueryError>,
)
    ensures
        query_outcome(Reply::Rows { headers, rows }, OutputFormat::Table, r) ==> (r matches Ok(s)
            && s@ == table_text(headers, shown_rows(rows))),
        query_outcome(Reply::Rows { headers, rows }, OutputFormat::Csv, r) && (forall|i: int|
            0 <= i < rows.len() ==> (#[trigger] rows[i]).len() == headers.len()) ==> (
        r matches Ok(s) && s@ == csv_text(seq![headers] + shown_rows(rows))),
        query_outcome(Reply::Rows { headers, rows }, OutputFormat::Csv, r) && (exists|i: int|
            0 <= i < rows.len() && (#[trigger] rows[i]).len() != headers.len()) ==> r matches Err(
            QueryError::Csv(_),
        ),
        query_outcome(Reply::Failed { at, cause }, format, r) ==> (r matches Err(
            QueryError::Failed { at: a, cause: c },
        ) && a == at && c@ == cause),
        query_outcome(Reply::Done, format, r) ==> r matches Err(QueryError::UnexpectedReply),
{
    law_results_are_shown_in_full(rows);
    if forall|i: int| 0 <= i < rows.len() ==> (#[trigger] rows[i]).len() == headers.len() {
        assert(rectangular(headers, shown_rows(rows)));
    }
    if exists|i: int| 0 <= i < rows.len() && (#[trigger] rows[i]).len() != headers.len() {
        let i = choose|i: int| 0 <= i < rows.len() && (#[trigger] rows[i]).len() != headers.len();
        assert(shown_rows(rows)[i].len() != headers.len());
    }
}

} // verus!
