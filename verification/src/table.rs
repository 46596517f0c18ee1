//! Tables read from CSV.

use crate::infer::{column_type, infer_column_type, slices, ColType};
use crate::number::{decimal, push_decimal};
use crate::records::{
    csv_records, csv_text, read_records, readable, record_fields, rectangular, ReadRecord,
};
use crate::text::{copy_list, copy_of, text_rows, texts};
use vstd::prelude::*;
use vstd::utf8::encode_utf8;

verus! {

/// A table read from CSV: its header, its rows and the types of its columns.
#[derive(Debug)]
pub struct LoadedTable {
    pub name: String,
    pub columns: Vec<String>,
    pub types: Vec<ColType>,
    /// Row-major data; each inner vec has `columns.len()` fields.
    pub rows: Vec<Vec<String>>,
}

/// What a [`LoadedTable`] holds, as text.
pub struct Table {
    pub name: Seq<char>,
    pub columns: Seq<Seq<char>>,
    pub types: Seq<ColType>,
    pub rows: Seq<Seq<Seq<char>>>,
}

impl View for LoadedTable {
    type V = Table;

    open spec fn view(&self) -> Table {
        Table {
            name: self.name@,
            columns: texts(self.columns@),
            types: self.types@,
            rows: text_rows(self.rows@),
        }
    }
}

impl Table {
    /// One type per column, and in each row one field per column.
    pub open spec fn well_formed(self) -> bool {
        &&& self.types.len() == self.columns.len()
        &&& rectangular(self.columns, self.rows)
    }
}

/// The fields of column `c`.
pub open spec fn column(rows: Seq<Seq<Seq<char>>>, c: int) -> Seq<Seq<char>> {
    Seq::new(rows.len(), |i: int| rows[i][c])
}

/// The types that the columns' values say.
pub open spec fn inferred_types(rows: Seq<Seq<Seq<char>>>, columns: nat) -> Seq<ColType> {
    Seq::new(columns, |c: int| column_type(column(rows, c)))
}

/// A row of exactly `n` fields: missing ones are empty, surplus ones are dropped.
pub open spec fn fitted(fields: Seq<Seq<char>>, n: nat) -> Seq<Seq<char>> {
    Seq::new(
        n,
        |i: int|
            if i < fields.len() {
                fields[i]
            } else {
                Seq::empty()
            },
    )
}

/// Rows of exactly `n` fields.
pub open spec fn fitted_rows(records: Seq<Seq<Seq<char>>>, n: nat) -> Seq<Seq<Seq<char>>> {
    Seq::new(records.len(), |i: int| fitted(records[i], n))
}

/// The name of the column at index `i` of a table without a header.
pub open spec fn synthesized_header(i: int) -> Seq<char> {
    "col"@ + decimal((i + 1) as nat)
}

/// The header of a table of `n` columns without one of its own.
pub open spec fn synthesized_headers(n: nat) -> Seq<Seq<char>> {
    Seq::new(n, |i: int| synthesized_header(i))
}

/// Column names for a CSV without a header row: `col1..colN`.
pub fn synthesize_headers(n: usize) -> (r: Vec<String>)
    ensures
        texts(r@) == synthesized_headers(n as nat),
{
    let mut out: Vec<String> = Vec::new();
    let mut i: usize = 0;
    while i < n
        invariant
            i <= n,
            texts(out@) == synthesized_headers(i as nat),
        decreases n - i,
    {
        let mut name = copy_of("col");
        push_decimal(&mut name, (i + 1) as u64);
        let ghost before = out@;
        out.push(name);
        assert(texts(out@) =~= texts(before).push(name@));
        assert(synthesized_headers((i + 1) as nat) =~= synthesized_headers(i as nat).push(name@));
        i += 1;
    }
    out
}

/// Why a CSV file could not be made a table.
#[derive(Debug)]
pub enum ReadError {
    /// The header row is not valid text.
    HeaderRow(csv::Error),
    /// The first row is not valid text.
    FirstRow(csv::Error),
    /// A row behind the first one is not valid text.
    DataRow(csv::Error),
    /// The header row has no fields.
    EmptyHeader,
    /// There is no header row.
    NoHeader,
    /// There is no row at all.
    NoRows,
}

impl ReadError {
    /// What went wrong with the file at `path`, in words, without the cause that the `csv`
    /// crate gave.
    pub open spec fn text(self, path: Seq<char>) -> Seq<char> {
        match self {
            ReadError::HeaderRow(_) => "reading CSV header row"@,
            ReadError::FirstRow(_) => "reading first CSV row"@,
            ReadError::DataRow(_) => "reading CSV data row"@,
            ReadError::EmptyHeader => "CSV "@ + path + " has an empty header row"@,
            ReadError::NoHeader => "CSV "@ + path + " is empty (no header row)"@,
            ReadError::NoRows => "CSV "@ + path + " is empty"@,
        }
    }

    /// The cause that the `csv` crate gave, where there is one.
    pub open spec fn csv_error(self) -> Option<csv::Error> {
        match self {
            ReadError::HeaderRow(e) => Some(e),
            ReadError::FirstRow(e) => Some(e),
            ReadError::DataRow(e) => Some(e),
            _ => None,
        }
    }

    /// What went wrong with the file at `path`, in words.
    pub fn message(&self, path: &str) -> (r: String)
        ensures
            r@ == self.text(path@),
            self is EmptyHeader ==> r@ == "CSV "@ + path@ + " has an empty header row"@,
            self is NoHeader ==> r@ == "CSV "@ + path@ + " is empty (no header row)"@,
            self is NoRows ==> r@ == "CSV "@ + path@ + " is empty"@,
    {
        match self {
            ReadError::HeaderRow(_) => copy_of("reading CSV header row"),
            ReadError::FirstRow(_) => copy_of("reading first CSV row"),
            ReadError::DataRow(_) => copy_of("reading CSV data row"),
            ReadError::EmptyHeader => {
                let mut out = copy_of("CSV ");
                out.append(path);
                out.append(" has an empty header row");
                out
            },
            ReadError::NoHeader => {
                let mut out = copy_of("CSV ");
                out.append(path);
                out.append(" is empty (no header row)");
                out
            },
            ReadError::NoRows => {
                let mut out = copy_of("CSV ");
                out.append(path);
                out.append(" is empty");
                out
            },
        }
    }

    /// The cause that the `csv` crate gave, where there is one.
    pub fn cause(self) -> (r: Option<csv::Error>)
        ensures
            r == self.csv_error(),
            self matches ReadError::HeaderRow(e) ==> r == Some(e),
            self matches ReadError::FirstRow(e) ==> r == Some(e),
            self matches ReadError::DataRow(e) ==> r == Some(e),
    {
        match self {
            ReadError::HeaderRow(e) => Some(e),
            ReadError::FirstRow(e) => Some(e),
            ReadError::DataRow(e) => Some(e),
            _ => None,
        }
    }
}

/// Are all these records valid text?
pub open spec fn all_valid(records: Seq<Option<Seq<Seq<char>>>>) -> bool {
    forall|i: int| 0 <= i < records.len() ==> #[trigger] records[i] is Some
}

/// Is `i` the first record that is not valid text?
pub open spec fn first_invalid(records: Seq<Option<Seq<Seq<char>>>>, i: int) -> bool {
    &&& 0 <= i < records.len()
    &&& records[i] is None
    &&& forall|j: int| 0 <= j < i ==> #[trigger] records[j] is Some
}

/// The header of the table that records make.
pub open spec fn header_of(
    records: Seq<Option<Seq<Seq<char>>>>,
    has_header: bool,
) -> Seq<Seq<char>> {
    if has_header {
        records[0]->0
    } else {
        synthesized_headers((records[0]->0).len())
    }
}

/// The records that hold a table's data: all, without the header row where there is
/// one.
pub open spec fn data_of(
    records: Seq<Option<Seq<Seq<char>>>>,
    has_header: bool,
) -> Seq<Seq<Seq<char>>> {
    let start: int = if has_header {
        1
    } else {
        0
    };
    Seq::new((records.len() - start) as nat, |i: int| records[start + i]->0)
}

/// The table that records make.
pub open spec fn table_of(
    records: Seq<Option<Seq<Seq<char>>>>,
    name: Seq<char>,
    has_header: bool,
) -> Table {
    let columns = header_of(records, has_header);
    let rows = fitted_rows(data_of(records, has_header), columns.len());
    Table { name, columns, types: inferred_types(rows, columns.len()), rows }
}

/// Do the records make a table?
pub open spec fn makes_table(records: Seq<Option<Seq<Seq<char>>>>, has_header: bool) -> bool {
    &&& records.len() > 0
    &&& all_valid(records)
    &&& has_header ==> (records[0]->0).len() > 0
}

/// What becomes of a CSV file with these records: the table that they make, or the
/// first thing that is wrong with them.
pub open spec fn reads_as(
    records: Seq<Option<Seq<Seq<char>>>>,
    name: Seq<char>,
    has_header: bool,
    r: Result<LoadedTable, ReadError>,
) -> bool {
    match r {
        Ok(table) => makes_table(records, has_header) && table@ == table_of(
            records,
            name,
            has_header,
        ),
        Err(ReadError::NoHeader) => records.len() == 0 && has_header,
        Err(ReadError::NoRows) => records.len() == 0 && !has_header,
        Err(ReadError::HeaderRow(_)) => has_header && first_invalid(records, 0),
        Err(ReadError::FirstRow(_)) => !has_header && first_invalid(records, 0),
        Err(ReadError::EmptyHeader) => {
            &&& has_header
            &&& records.len() > 0
            &&& records[0] == Some(Seq::<Seq<char>>::empty())
        },
        Err(ReadError::DataRow(_)) => {
            &&& exists|i: int| i > 0 && #[trigger] first_invalid(records, i)
            &&& has_header ==> (records[0]->0).len() > 0
        },
    }
}

/// The error that came with the first record that is not valid text is handed on.
pub open spec fn hands_on_error(
    records: Seq<ReadRecord>,
    r: Result<LoadedTable, ReadError>,
) -> bool {
    match r {
        Err(ReadError::HeaderRow(e)) => records[0] == Err::<Vec<String>, csv::Error>(e),
        Err(ReadError::FirstRow(e)) => records[0] == Err::<Vec<String>, csv::Error>(e),
        Err(ReadError::DataRow(e)) => exists|i: int| #[trigger]
            first_invalid(record_fields(records), i) && records[i] == Err::<
                Vec<String>,
                csv::Error,
            >(e),
        _ => true,
    }
}

fn fit_row(fields: &Vec<String>, n: usize) -> (r: Vec<String>)
    ensures
        texts(r@) == fitted(texts(fields@), n as nat),
{
    let mut out: Vec<String> = Vec::new();
    let ghost full = fitted(texts(fields@), n as nat);
    let mut i: usize = 0;
    while i < n
        invariant
            i <= n,
            full == fitted(texts(fields@), n as nat),
            texts(out@) == full.take(i as int),
        decreases n - i,
    {
        let field = if i < fields.len() {
            fields[i].clone()
        } else {
            String::new()
        };
        let ghost before = out@;
        out.push(field);
        assert(texts(out@) =~= texts(before).push(field@));
        assert(full.take(i + 1) =~= full.take(i as int).push(field@));
        i += 1;
    }
    assert(full.take(n as int) == full);
    out
}

fn infer_types(rows: &Vec<Vec<String>>, n: usize) -> (r: Vec<ColType>)
    requires
        forall|i: int| 0 <= i < rows@.len() ==> (#[trigger] rows@[i])@.len() == n,
    ensures
        r@ == inferred_types(text_rows(rows@), n as nat),
{
    let mut types: Vec<ColType> = Vec::new();
    let mut c: usize = 0;
    while c < n
        invariant
            c <= n,
            forall|i: int| 0 <= i < rows@.len() ==> (#[trigger] rows@[i])@.len() == n,
            types@ == inferred_types(text_rows(rows@), c as nat),
        decreases n - c,
    {
        let mut values: Vec<&str> = Vec::new();
        let ghost full = column(text_rows(rows@), c as int);
        let mut i: usize = 0;
        while i < rows.len()
            invariant
                i <= rows@.len(),
                c < n,
                full == column(text_rows(rows@), c as int),
                forall|i: int| 0 <= i < rows@.len() ==> (#[trigger] rows@[i])@.len() == n,
                slices(values@) == full.take(i as int),
            decreases rows@.len() - i,
        {
            let row = &rows[i];
            let value = row[c].as_str();
            let ghost before = values@;
            values.push(value);
            assert(slices(values@) =~= slices(before).push(value@));
            assert(full.take(i + 1) =~= full.take(i as int).push(value@));
            i += 1;
        }
        assert(full.take(full.len() as int) == full);
        let ty = infer_column_type(values);
        types.push(ty);
        assert(types@ =~= inferred_types(text_rows(rows@), (c + 1) as nat));
        c += 1;
    }
    types
}

fn find_invalid(records: &Vec<ReadRecord>) -> (r: Option<usize>)
    ensures
        r matches Some(i) ==> first_invalid(record_fields(records@), i as int),
        r is None ==> all_valid(record_fields(records@)),
{
    let ghost fields = record_fields(records@);
    let mut i: usize = 0;
    while i < records.len()
        invariant
            i <= records@.len(),
            fields == record_fields(records@),
            forall|j: int| 0 <= j < i ==> #[trigger] fields[j] is Some,
        decreases records@.len() - i,
    {
        if records[i].is_err() {
            return Some(i);
        }
        assert(fields[i as int] is Some);
        i += 1;
    }
    None
}

/// Makes a table of the records of a CSV file: the header is the first record or is
/// made up, every further record is fitted to the header, and the types are inferred
/// column by column.
pub fn table_from_records(records: Vec<ReadRecord>, table: &str, has_header: bool) -> (r: Result<
    LoadedTable,
    ReadError,
>)
    ensures
        reads_as(record_fields(records@), table@, has_header, r),
        hands_on_error(records@, r),
{
    let ghost fields = record_fields(records@);
    if records.len() == 0 {
        if has_header {
            return Err(ReadError::NoHeader);
        }
        return Err(ReadError::NoRows);
    }
    if has_header {
        if let Ok(header) = &records[0] {
            if header.len() == 0 {
                assert(fields[0]->0 =~= Seq::<Seq<char>>::empty());
                return Err(ReadError::EmptyHeader);
            }
        }
    }
    if let Some(at) = find_invalid(&records) {
        let mut records = records;
        assert(fields[at as int] is None);
        let e = records.swap_remove(at).unwrap_err();
        if at > 0 {
            assert(fields[0] is Some);
            return Err(ReadError::DataRow(e));
        } else if has_header {
            return Err(ReadError::HeaderRow(e));
        } else {
            return Err(ReadError::FirstRow(e));
        }
    }
    assert(fields[0] is Some);
    let first = records[0].as_ref().unwrap();
    assert(fields[0] == Some(texts(first@)));
    let columns = if has_header {
        copy_list(first.as_slice())
    } else {
        synthesize_headers(first.len())
    };
    let n = columns.len();
    let start: usize = if has_header {
        1
    } else {
        0
    };
    let ghost data = data_of(fields, has_header);
    let ghost full = fitted_rows(data, n as nat);
    assert(texts(columns@) == header_of(fields, has_header));
    assert(n == texts(columns@).len());
    let mut rows: Vec<Vec<String>> = Vec::new();
    let mut i: usize = start;
    while i < records.len()
        invariant
            start <= i <= records@.len(),
            start == (if has_header { 1int } else { 0int }),
            fields == record_fields(records@),
            all_valid(fields),
            data == data_of(fields, has_header),
            full == fitted_rows(data, n as nat),
            text_rows(rows@) == full.take(i - start),
        decreases records@.len() - i,
    {
        assert(fields[i as int] is Some);
        if let Ok(record) = &records[i] {
            let row = fit_row(record, n);
            let ghost before = rows@;
            rows.push(row);
            assert(data[i - start] == texts(record@));
            assert(text_rows(rows@) =~= text_rows(before).push(texts(row@)));
            assert(full.take(i - start + 1) =~= full.take(i - start).push(texts(row@)));
        }
        i += 1;
    }
    assert(full.take(full.len() as int) == full);
    assert forall|k: int| 0 <= k < rows@.len() implies (#[trigger] rows@[k])@.len() == n by {
        assert(text_rows(rows@)[k].len() == n);
    }
    let types = infer_types(&rows, n);
    Ok(LoadedTable { name: copy_of(table), columns, types, rows })
}

/// Reads the bytes of a CSV file as a table (header, rows and inferred types).
///
/// What [`render_csv`](crate::records::render_csv) writes reads back as a table with the
/// same header and the same rows, where there is at least one column. Read as a file without
/// a header row, it gives the header as the first row.
pub fn read_csv_table(bytes: &[u8], table: &str, delimiter: u8, has_header: bool) -> (r: Result<
    LoadedTable,
    ReadError,
>)
    ensures
        reads_as(csv_records(bytes@, delimiter), table@, has_header, r),
        forall|columns: Seq<Seq<char>>, rows: Seq<Seq<Seq<char>>>|
            {
                let records = seq![columns] + rows;
                &&& has_header
                &&& delimiter == 44
                &&& readable(records)
                &&& rectangular(columns, rows)
                &&& bytes@ == encode_utf8(#[trigger] csv_text(seq![columns] + rows))
            } ==> (r matches Ok(t) && t@.columns == columns && t@.rows == rows),
        forall|columns: Seq<Seq<char>>, rows: Seq<Seq<Seq<char>>>|
            {
                let records = seq![columns] + rows;
                &&& !has_header
                &&& delimiter == 44
                &&& readable(records)
                &&& rectangular(columns, rows)
                &&& bytes@ == encode_utf8(#[trigger] csv_text(seq![columns] + rows))
            } ==> (r matches Ok(t) && t@.rows == seq![columns] + rows && t@.columns
                == synthesized_headers(columns.len())),
{
    let records = read_records(bytes, delimiter);
    let ghost fields = record_fields(records@);
    let r = table_from_records(records, table, has_header);
    assert forall|columns: Seq<Seq<char>>, rows: Seq<Seq<Seq<char>>>|
        {
            let records = seq![columns] + rows;
            &&& has_header
            &&& delimiter == 44
            &&& readable(records)
            &&& rectangular(columns, rows)
            &&& bytes@ == encode_utf8(#[trigger] csv_text(seq![columns] + rows))
        } implies (r matches Ok(t) && t@.columns == columns && t@.rows == rows) by {
        let all = seq![columns] + rows;
        assert(fields == Seq::new(all.len(), |i: int| Some(all[i])));
        assert(all[0] == columns);
        assert(data_of(fields, true) =~= rows) by {
            assert forall|i: int| 0 <= i < rows.len() implies #[trigger] data_of(fields, true)[i]
                == rows[i] by {
                assert(all[1 + i] == rows[i]);
            }
        }
        assert forall|i: int| 0 <= i < rows.len() implies #[trigger] fitted(
            rows[i],
            columns.len(),
        ) == rows[i] by {
            assert(fitted(rows[i], columns.len()) =~= rows[i]);
        }
        assert(fitted_rows(rows, columns.len()) =~= rows);
    }
    assert forall|columns: Seq<Seq<char>>, rows: Seq<Seq<Seq<char>>>|
        {
            let records = seq![columns] + rows;
            &&& !has_header
            &&& delimiter == 44
            &&& readable(records)
            &&& rectangular(columns, rows)
            &&& bytes@ == encode_utf8(#[trigger] csv_text(seq![columns] + rows))
        } implies (r matches Ok(t) && t@.rows == seq![columns] + rows && t@.columns
        == synthesized_headers(columns.len())) by {
        let all = seq![columns] + rows;
        assert(fields == Seq::new(all.len(), |i: int| Some(all[i])));
        assert(all[0] == columns);
        assert(data_of(fields, false) =~= all);
        assert forall|i: int| 0 <= i < all.len() implies #[trigger] fitted(
            all[i],
            columns.len(),
        ) == all[i] by {
            if i > 0 {
                assert(all[i] == rows[i - 1]);
            }
            assert(fitted(all[i], columns.len()) =~= all[i]);
        }
        assert(fitted_rows(all, columns.len()) =~= all);
    }
    r
}

/// A table made of records has one type per column, and in each row one field per
/// column, whatever the number of fields in each record.
pub proof fn law_tables_are_well_formed(
    records: Seq<Option<Seq<Seq<char>>>>,
    name: Seq<char>,
    has_header: bool,
)
    ensures
        table_of(records, name, has_header).well_formed(),
{
}

/// A table made of records has one row per record, but for the header row.
pub proof fn law_one_row_per_data_record(
    records: Seq<Option<Seq<Seq<char>>>>,
    name: Seq<char>,
    has_header: bool,
)
    requires
        makes_table(records, has_header),
    ensures
        table_of(records, name, has_header).rows.len() == records.len() - (if has_header {
            1int
        } else {
            0int
        }),
{
}

/// Fitting keeps the fields that a row and the header have room for, in place: what is
/// missing is empty, what is left over is gone.
pub proof fn law_fitting_pads_and_truncates(fields: Seq<Seq<char>>, n: nat)
    ensures
        fitted(fields, n).len() == n,
        fields.len() >= n ==> fitted(fields, n) == fields.take(n as int),
        fields.len() <= n ==> fitted(fields, n).take(fields.len() as int) == fields,
        forall|i: int| fields.len() <= i < n ==> (#[trigger] fitted(fields, n)[i]).len() == 0,
{
}

/// What becomes of the records of a file. They make a table exactly where there is one, all are
/// valid text, and a header that there should be is not empty. The table then has the given
/// name; the first record's fields as columns, or made-up ones of the same number; one row per
/// further record, in order, each with one field per column, the record's own in its place and
/// an empty one where the record has none; and one type per column, the one that the column's
/// own fields say.
pub proof fn law_tables_read(
    records: Seq<Option<Seq<Seq<char>>>>,
    name: Seq<char>,
    has_header: bool,
    r: Result<LoadedTable, ReadError>,
)
    requires
        reads_as(records, name, has_header, r),
    ensures
        r is Ok <==> {
            &&& records.len() > 0
            &&& forall|i: int| 0 <= i < records.len() ==> #[trigger] records[i] is Some
            &&& has_header ==> (records[0]->0).len() > 0
        },
        r matches Ok(t) ==> {
            let first: int = if has_header {
                1
            } else {
                0
            };
            &&& t.name@ == name
            &&& t.columns@.len() == (records[0]->0).len()
            &&& has_header ==> forall|c: int|
                0 <= c < t.columns@.len() ==> (#[trigger] t.columns@[c])@ == (records[0]->0)[c]
            &&& !has_header ==> forall|c: int|
                0 <= c < t.columns@.len() ==> (#[trigger] t.columns@[c])@ == "col"@ + decimal(
                    (c + 1) as nat,
                )
            &&& t.rows@.len() == records.len() - first
            &&& forall|i: int|
                0 <= i < t.rows@.len() ==> (#[trigger] t.rows@[i])@.len() == t.columns@.len()
            &&& forall|i: int, c: int|
                0 <= i < t.rows@.len() && 0 <= c < t.columns@.len() && c < (records[i
                    + first]->0).len() ==> (#[trigger] t.rows@[i]@[c])@ == (records[i
                    + first]->0)[c]
            &&& forall|i: int, c: int|
                0 <= i < t.rows@.len() && 0 <= c < t.columns@.len() && c >= (records[i
                    + first]->0).len() ==> (#[trigger] t.rows@[i]@[c])@.len() == 0
            &&& t.types@.len() == t.columns@.len()
            &&& forall|c: int|
                0 <= c < t.columns@.len() ==> #[trigger] t.types@[c] == column_type(
                    Seq::new(t.rows@.len(), |i: int| t.rows@[i]@[c]@),
                )
        },
{
    if let Ok(t) = r {
        let start: int = if has_header {
            1
        } else {
            0
        };
        let whole = table_of(records, name, has_header);
        let data = data_of(records, has_header);
        assert(t@ == whole);
        assert(whole.columns.len() == (records[0]->0).len());
        assert forall|c: int| 0 <= c < t.columns@.len() implies (#[trigger] t.columns@[c])@
            == whole.columns[c] by {
            assert(texts(t.columns@)[c] == t.columns@[c]@);
        }
        assert forall|i: int| 0 <= i < t.rows@.len() implies (#[trigger] t.rows@[i])@.len()
            == t.columns@.len() by {
            assert(text_rows(t.rows@)[i] == texts(t.rows@[i]@));
            assert(whole.rows[i] == fitted(data[i], whole.columns.len()));
        }
        assert forall|i: int, c: int| 0 <= i < t.rows@.len() && 0 <= c < t.columns@.len() implies (
        #[trigger] t.rows@[i]@[c])@ == fitted(records[i + start]->0, whole.columns.len())[c] by {
            assert(t.rows@[i]@.len() == t.columns@.len());
            assert(text_rows(t.rows@)[i] == texts(t.rows@[i]@));
            assert(texts(t.rows@[i]@)[c] == t.rows@[i]@[c]@);
            assert(whole.rows[i] == fitted(data[i], whole.columns.len()));
        }
        assert forall|c: int| 0 <= c < t.columns@.len() implies #[trigger] t.types@[c]
            == column_type(Seq::new(t.rows@.len(), |i: int| t.rows@[i]@[c]@)) by {
            let mine = Seq::new(t.rows@.len(), |i: int| t.rows@[i]@[c]@);
            assert(whole.types[c] == column_type(column(whole.rows, c)));
            assert forall|i: int| 0 <= i < mine.len() implies mine[i] == column(whole.rows, c)[i] by {
                assert(t.rows@[i]@.len() == t.columns@.len());
                assert(text_rows(t.rows@)[i] == texts(t.rows@[i]@));
                assert(texts(t.rows@[i]@)[c] == t.rows@[i]@[c]@);
            }
            assert(mine =~= column(whole.rows, c));
        }
    }
    if r is Err && records.len() > 0 && all_valid(records) {
        assert(records[0] is Some);
    }
}

/// What is wrong with records that make no table is told: nothing there, a header without
/// fields, or the first record that is not valid text, and whether that is the header, the
/// first row or a later one.
pub proof fn law_files_that_are_no_tables(
    records: Seq<Option<Seq<Seq<char>>>>,
    name: Seq<char>,
    has_header: bool,
    r: Result<LoadedTable, ReadError>,
)
    requires
        reads_as(records, name, has_header, r),
    ensures
        records.len() == 0 && has_header ==> r matches Err(ReadError::NoHeader),
        records.len() == 0 && !has_header ==> r matches Err(ReadError::NoRows),
        records.len() > 0 && records[0] is None && has_header ==> r matches Err(
            ReadError::HeaderRow(_),
        ),
        records.len() > 0 && records[0] is None && !has_header ==> r matches Err(
            ReadError::FirstRow(_),
        ),
        records.len() > 0 && has_header && records[0] is Some && (records[0]->0).len() == 0
            ==> r matches Err(ReadError::EmptyHeader),
        records.len() > 0 && records[0] is Some && (has_header ==> (records[0]->0).len() > 0) && (
        exists|i: int| 0 <= i < records.len() && #[trigger] records[i] is None) ==> r matches Err(
            ReadError::DataRow(_),
        ),
{
    if records.len() > 0 && all_valid(records) {
        assert(records[0] is Some);
    }
}

/// The view of a table is the table: its name, columns, types and rows, in full.
pub proof fn law_views_of_tables(t: LoadedTable)
    ensures
        t@.name == t.name@,
        t@.columns == Seq::new(t.columns@.len(), |c: int| t.columns@[c]@),
        t@.types == t.types@,
        t@.rows == Seq::new(
            t.rows@.len(),
            |i: int| Seq::new(t.rows@[i]@.len(), |c: int| t.rows@[i]@[c]@),
        ),
{
    assert(t@.columns =~= Seq::new(t.columns@.len(), |c: int| t.columns@[c]@));
    let rows = Seq::new(
        t.rows@.len(),
        |i: int| Seq::new(t.rows@[i]@.len(), |c: int| t.rows@[i]@[c]@),
    );
    assert forall|i: int| 0 <= i < rows.len() implies t@.rows[i] == rows[i] by {
        assert(t@.rows[i] =~= rows[i]);
    }
    assert(t@.rows =~= rows);
}

/// Made-up headers are `col1`, `col2` and so on, as many as asked for.
pub proof fn law_made_up_headers(n: nat)
    ensures
        synthesized_headers(n).len() == n,
        forall|i: int|
            0 <= i < n ==> #[trigger] synthesized_headers(n)[i] == "col"@ + decimal((i + 1) as nat),
{
}

/// A file's error that the `csv` crate gave is handed on as it is: that of the first record that
/// is not valid text.
pub proof fn law_errors_are_handed_on(records: Seq<ReadRecord>, r: Result<LoadedTable, ReadError>)
    requires
        hands_on_error(records, r),
    ensures
        r matches Err(ReadError::HeaderRow(e)) ==> records[0] == Err::<Vec<String>, csv::Error>(e),
        r matches Err(ReadError::FirstRow(e)) ==> records[0] == Err::<Vec<String>, csv::Error>(e),
        r matches Err(ReadError::DataRow(e)) ==> exists|i: int|
            {
                &&& 0 <= i < records.len()
                &&& #[trigger] records[i] == Err::<Vec<String>, csv::Error>(e)
                &&& forall|j: int| 0 <= j < i ==> #[trigger] records[j] is Ok
            },
{
    if let Err(ReadError::DataRow(e)) = r {
        let i = choose|i: int| #[trigger]
            first_invalid(record_fields(records), i) && records[i] == Err::<
                Vec<String>,
                csv::Error,
            >(e);
        assert(0 <= i < records.len());
        assert forall|j: int| 0 <= j < i implies #[trigger] records[j] is Ok by {
            assert(record_fields(records)[j] is Some);
        }
    }
}

} // verus!
