//! CSV text: reading and writing records with the `csv` crate.

use crate::ident::doubled;
use crate::text::{joined, text_rows, texts};
use vstd::prelude::*;
use vstd::utf8::{encode_utf8, valid_utf8};

verus! {

/// `csv::Error`.
#[verifier::external_type_specification]
#[verifier::external_body]
pub struct ExCsvError(csv::Error);

/// `std::string::FromUtf8Error`.
#[verifier::external_type_specification]
#[verifier::external_body]
pub struct ExFromUtf8Error(std::string::FromUtf8Error);

/// `String::from_utf8` accepts exactly the bytes that are valid UTF-8, and gives the
/// text that they encode.
pub assume_specification[ String::from_utf8 ](bytes: Vec<u8>) -> (r: Result<
    String,
    std::string::FromUtf8Error,
>)
    ensures
        r is Ok <==> valid_utf8(bytes@),
        r matches Ok(s) ==> encode_utf8(s@) == bytes@,
;

// ---------------------------------------------------------------------------
// Writing
// ---------------------------------------------------------------------------

/// Does the field hold a character that CSV gives a meaning to: the comma, the double
/// quote or a line break?
pub open spec fn needs_quotes(field: Seq<char>) -> bool {
    field.contains(',') || field.contains('"') || field.contains('\n') || field.contains('\r')
}

/// A field as CSV text: between double quotes, with those in it doubled, where it
/// needs them, else as it is.
pub open spec fn field_text(field: Seq<char>) -> Seq<char> {
    if needs_quotes(field) {
        seq!['"'] + doubled(field) + seq!['"']
    } else {
        field
    }
}

/// The fields of a record as CSV text.
pub open spec fn field_texts(fields: Seq<Seq<char>>) -> Seq<Seq<char>> {
    Seq::new(fields.len(), |i: int| field_text(fields[i]))
}

/// A record as a line of CSV text: its fields with commas between them, or a pair of
/// double quotes where that would leave the line empty.
pub open spec fn record_text(fields: Seq<Seq<char>>) -> Seq<char> {
    let line = joined(field_texts(fields), seq![',']);
    if line.len() == 0 {
        seq!['"', '"', '\n']
    } else {
        line.push('\n')
    }
}

/// Records as CSV text, one line after the other.
pub open spec fn csv_text(records: Seq<Seq<Seq<char>>>) -> Seq<char>
    decreases records.len(),
{
    if records.len() == 0 {
        Seq::empty()
    } else {
        csv_text(records.drop_last()) + record_text(records.last())
    }
}

/// A `csv::Writer` over a byte vector.
#[verifier::external_body]
pub struct RecordWriter {
    inner: csv::Writer<Vec<u8>>,
}

/// The records that the writer has taken so far.
pub uninterp spec fn written(w: &RecordWriter) -> Seq<Seq<Seq<char>>>;

impl RecordWriter {
    /// `csv::Writer::from_writer` on an empty vector. Relied on: nothing has been
    /// written yet.
    #[verifier::external_body]
    pub(crate) fn new() -> (r: RecordWriter)
        ensures
            written(&r) == Seq::<Seq<Seq<char>>>::empty(),
    {
        RecordWriter { inner: csv::Writer::from_writer(vec![]) }
    }

    /// `csv::Writer::write_record`; a writer that refused a record is given up. Relied
    /// on: it takes a record unless the record has another number of fields than the
    /// first one had.
    #[verifier::external_body]
    pub(crate) fn write_record(self, record: &[String]) -> (r: Result<RecordWriter, csv::Error>)
        ensures
            r is Ok <==> (written(&self).len() == 0 || written(&self)[0].len() == record@.len()),
            r matches Ok(w) ==> written(&w) == written(&self).push(texts(record@)),
    {
        let mut inner = self.inner;
        inner.write_record(record).map(|_| RecordWriter { inner })
    }

    /// `csv::Writer::into_inner`. Relied on: it succeeds on a byte vector, and gives
    /// the CSV text of the records taken.
    #[verifier::external_body]
    pub(crate) fn finish(self) -> (r: Result<Vec<u8>, csv::Error>)
        ensures
            r is Ok,
            r matches Ok(bytes) ==> bytes@ == encode_utf8(csv_text(written(&self))),
    {
        self.inner.into_inner().map_err(|e| csv::Error::from(e.into_error()))
    }
}

/// Do all rows have as many fields as the header?
pub open spec fn rectangular(headers: Seq<Seq<char>>, rows: Seq<Seq<Seq<char>>>) -> bool {
    forall|i: int| 0 <= i < rows.len() ==> (#[trigger] rows[i]).len() == headers.len()
}

/// Renders a header and rows as CSV. Fails where a row has another number of fields
/// than the header.
pub fn render_csv(headers: &[String], rows: &[Vec<String>]) -> (r: Result<String, csv::Error>)
    ensures
        r is Ok <==> rectangular(texts(headers@), text_rows(rows@)),
        r matches Ok(s) ==> s@ == csv_text(seq![texts(headers@)] + text_rows(rows@)),
{
    let ghost head = texts(headers@);
    let ghost body = text_rows(rows@);
    let ghost all = seq![head] + body;
    let mut writer = match RecordWriter::new().write_record(headers) {
        Ok(w) => w,
        Err(e) => {
            return Err(e);
        },
    };
    let mut i: usize = 0;
    assert(written(&writer) == all.take(1));
    while i < rows.len()
        invariant
            i <= rows@.len(),
            head == texts(headers@),
            body == text_rows(rows@),
            all == seq![head] + body,
            written(&writer) == all.take(i + 1),
            forall|j: int| 0 <= j < i ==> (#[trigger] body[j]).len() == head.len(),
        decreases rows@.len() - i,
    {
        assert(written(&writer)[0] == head);
        writer = match writer.write_record(rows[i].as_slice()) {
            Ok(w) => w,
            Err(e) => {
                assert(body[i as int].len() != head.len());
                return Err(e);
            },
        };
        assert(all.take(i + 2) == all.take(i + 1).push(body[i as int]));
        i += 1;
    }
    assert(all.take(all.len() as int) == all);
    let bytes = writer.finish().unwrap();
    let ghost text = csv_text(all);
    proof {
        vstd::utf8::encode_utf8_valid_utf8(text);
    }
    let s = String::from_utf8(bytes).unwrap();
    proof {
        vstd::utf8::encode_utf8_decode_utf8(text);
        vstd::utf8::encode_utf8_decode_utf8(s@);
    }
    Ok(s)
}

// ---------------------------------------------------------------------------
// Reading
// ---------------------------------------------------------------------------

/// A record that was read, or the reason why it could not be.
pub type ReadRecord = Result<Vec<String>, csv::Error>;

/// What was read: the fields of each record, `None` where it is not valid text.
pub open spec fn record_fields(records: Seq<ReadRecord>) -> Seq<Option<Seq<Seq<char>>>> {
    Seq::new(
        records.len(),
        |i: int|
            match records[i] {
                Ok(fields) => Some(texts(fields@)),
                Err(_) => None,
            },
    )
}

/// The records of a CSV file, `None` for one that is not valid UTF-8.
pub uninterp spec fn csv_records(bytes: Seq<u8>, delimiter: u8) -> Seq<Option<Seq<Seq<char>>>>;

/// Can these records be read back from their CSV text? Not a record without fields,
/// which is written like one empty field, nor a text that starts with a byte order
/// mark, which is skipped.
pub open spec fn readable(records: Seq<Seq<Seq<char>>>) -> bool {
    &&& forall|i: int| 0 <= i < records.len() ==> (#[trigger] records[i]).len() > 0
    &&& csv_text(records).len() > 0 ==> csv_text(records)[0] != '\u{feff}'
}

/// `csv::Reader::records` over bytes, with the given delimiter, no header and records
/// of any length. Relied on: the records depend on the bytes and the delimiter alone,
/// and comma-separated text that a [`RecordWriter`] wrote reads as the records that
/// it took.
#[verifier::external_body]
pub(crate) fn read_records(bytes: &[u8], delimiter: u8) -> (r: Vec<ReadRecord>)
    ensures
        record_fields(r@) == csv_records(bytes@, delimiter),
        forall|records: Seq<Seq<Seq<char>>>|
            readable(records) && delimiter == 44 && bytes@ == encode_utf8(
                #[trigger] csv_text(records),
            ) ==> record_fields(r@) == Seq::new(records.len(), |i: int| Some(records[i])),
{
    csv::ReaderBuilder::new()
        .delimiter(delimiter)
        .has_headers(false)
        .flexible(true)
        .from_reader(bytes)
        .records()
        .map(|record| record.map(|fields| fields.iter().map(|s| s.to_string()).collect()))
        .collect()
}

/// Rows fit a header exactly where each has as many fields as the header.
pub proof fn law_rectangular(headers: Seq<Seq<char>>, rows: Seq<Seq<Seq<char>>>)
    ensures
        rectangular(headers, rows) <==> forall|i: int|
            0 <= i < rows.len() ==> (#[trigger] rows[i]).len() == headers.len(),
{
}

/// What was read has one entry per record, in order, with all of its fields.
pub proof fn law_record_fields(records: Seq<ReadRecord>)
    ensures
        record_fields(records).len() == records.len(),
        forall|i: int|
            0 <= i < records.len() ==> (#[trigger] record_fields(records)[i] is Some <==> records[i]
                is Ok),
        forall|i: int|
            0 <= i < records.len() && records[i] is Ok ==> #[trigger] record_fields(records)[i]
                == Some(Seq::new((records[i]->Ok_0)@.len(), |c: int| (records[i]->Ok_0)@[c]@)),
{
    assert forall|i: int|
        0 <= i < records.len() && records[i] is Ok implies #[trigger] record_fields(records)[i]
        == Some(Seq::new((records[i]->Ok_0)@.len(), |c: int| (records[i]->Ok_0)@[c]@)) by {
        let fields = records[i]->Ok_0;
        assert(texts(fields@) =~= Seq::new(fields@.len(), |c: int| fields@[c]@));
    }
}

/// CSV text is the lines of its records, all of them and in order: that of two lists of records
/// is the one behind the other.
pub proof fn law_csv_text_is_its_lines(
    a: Seq<Seq<Seq<char>>>,
    b: Seq<Seq<Seq<char>>>,
    fields: Seq<Seq<char>>,
)
    ensures
        csv_text(a + b) == csv_text(a) + csv_text(b),
        csv_text(seq![fields]) == record_text(fields),
        csv_text(Seq::empty()) == Seq::<char>::empty(),
    decreases b.len(),
{
    assert(seq![fields].drop_last() =~= Seq::<Seq<Seq<char>>>::empty());
    assert(csv_text(seq![fields].drop_last()) == Seq::<char>::empty());
    assert(csv_text(seq![fields]) =~= record_text(fields));
    if b.len() == 0 {
        assert(a + b =~= a);
        assert(csv_text(a) + csv_text(b) =~= csv_text(a));
    } else {
        law_csv_text_is_its_lines(a, b.drop_last(), fields);
        assert((a + b).drop_last() =~= a + b.drop_last());
        assert((a + b).last() == b.last());
        assert(csv_text(a + b) =~= csv_text(a) + csv_text(b));
    }
}

/// A record's line has its fields, all of them and in order, with commas between them and a line
/// break at the end; the line of a single empty field, or of none, has a pair of double quotes.
/// A field stands as it is, or between double quotes, with those in it doubled, where it holds a
/// comma, a double quote or a line break.
pub proof fn law_lines_of_records(fields: Seq<Seq<char>>, field: Seq<char>)
    ensures
        fields.len() > 1 || (fields.len() == 1 && fields[0].len() > 0) ==> record_text(fields)
            == joined(Seq::new(fields.len(), |i: int| field_text(fields[i])), seq![',']) + seq!['\n'],
        fields.len() == 0 || (fields.len() == 1 && fields[0].len() == 0) ==> record_text(fields)
            == seq!['"', '"', '\n'],
        field.contains(',') || field.contains('"') || field.contains('\n') || field.contains('\r')
            ==> field_text(field) == seq!['"'] + doubled(field) + seq!['"'],
        !(field.contains(',') || field.contains('"') || field.contains('\n') || field.contains(
            '\r',
        )) ==> field_text(field) == field,
{
    let texts = Seq::new(fields.len(), |i: int| field_text(fields[i]));
    assert(texts =~= field_texts(fields));
    let line = joined(texts, seq![',']);
    if fields.len() > 1 {
        assert(line == joined(texts.drop_last(), seq![',']) + seq![','] + texts.last());
        assert(line.len() > 0);
    } else if fields.len() == 1 {
        assert(line == texts[0]);
        if fields[0].len() == 0 {
            assert(!needs_quotes(fields[0]));
        }
    }
    assert(line + seq!['\n'] =~= line.push('\n'));
}

} // verus!
