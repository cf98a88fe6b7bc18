//! Reading a CSV table from bytes and writing one to bytes.

use vstd::prelude::*;
use crate::error::TransformError;
use crate::record::record_fields;
use crate::record::Table;

verus! {

/// The rows that the CSV reader finds in `data`, the header row first and the
/// data rows behind it, or `None` where the reader refuses `data`.
pub uninterp spec fn csv_read(data: Seq<u8>) -> Option<Seq<Seq<Seq<char>>>>;

/// The records that were handed to a writer, in the order of the calls.
pub uninterp spec fn written(writer: RecordWriter) -> Seq<Seq<Seq<char>>>;

/// The bytes that the CSV writer produces for `rows`, written in order.
pub uninterp spec fn csv_text(rows: Seq<Seq<Seq<char>>>) -> Seq<u8>;

/// A `csv::Writer` that collects its output in memory.
#[verifier::external_body]
pub struct RecordWriter {
    inner: csv::Writer<Vec<u8>>,
}

/// The rows of a table, the header row first.
pub open spec fn all_rows(header: Seq<Seq<char>>, rows: Seq<Seq<Seq<char>>>) -> Seq<
    Seq<Seq<char>>,
> {
    seq![header] + rows
}

/// Whether every data row has as many fields as the header.
pub open spec fn rows_match_header(header: Seq<Seq<char>>, rows: Seq<Seq<Seq<char>>>) -> bool {
    forall|i: int| 0 <= i < rows.len() ==> (#[trigger] rows[i]).len() == header.len()
}

/// Runs a `csv::Reader` with a header row over `data`: `headers`, then every
/// record of `into_records`. The table holds what the reader found. The
/// reader is not flexible, so every record it hands out has as many fields
/// as the header. The first error of the reader is handed on, and nothing is
/// promised then but that the reader refuses these bytes every time.
#[verifier::external_body]
pub(crate) fn read_table(data: &[u8]) -> (r: Result<Table, csv::Error>)
    ensures
        match r {
            Ok(table) => csv_read(data@) == Some(all_rows(table@.header, table@.rows)),
            Err(_) => csv_read(data@) is None,
        },
        r matches Ok(table) ==> rows_match_header(table@.header, table@.rows),
{
    let mut reader = csv::ReaderBuilder::new().has_headers(true).from_reader(data);
    let headers = reader.headers()?.clone();
    let records = reader.into_records().collect::<Result<Vec<csv::StringRecord>, csv::Error>>()?;
    Ok(Table { headers, records })
}

/// `csv::Writer::from_writer` over an empty `Vec<u8>`: a writer to which
/// nothing has been written.
#[verifier::external_body]
pub(crate) fn new_writer() -> (writer: RecordWriter)
    ensures
        written(writer) == Seq::<Seq<Seq<char>>>::empty(),
{
    RecordWriter { inner: csv::Writer::from_writer(Vec::new()) }
}

/// `csv::Writer::write_record` on a writer that is not flexible and writes
/// to memory: it succeeds for the first record, and for a later one exactly
/// when it has as many fields as the first. Where it succeeds, the record
/// stands behind those written before. Where it fails the writer is given up.
#[verifier::external_body]
pub(crate) fn write_record(writer: RecordWriter, record: &csv::StringRecord) -> (r: Result<
    RecordWriter,
    csv::Error,
>)
    ensures
        r is Ok <==> written(writer).len() == 0 || record_fields(*record).len() == written(
            writer,
        )[0].len(),
        r matches Ok(after) ==> written(after) == written(writer).push(record_fields(*record)),
{
    let mut writer = writer;
    writer.inner.write_record(record)?;
    Ok(writer)
}

/// `csv::Writer::into_inner` on a writer to memory: flushing into a
/// `Vec<u8>` cannot fail, so it succeeds, and the bytes are the CSV text of
/// the records written, which depends on nothing but those records. The
/// error that its type still has is handed on as the I/O error inside it.
#[verifier::external_body]
pub(crate) fn finish_writer(writer: RecordWriter) -> (r: Result<Vec<u8>, csv::Error>)
    ensures
        r is Ok,
        r matches Ok(bytes) ==> bytes@ == csv_text(written(writer)),
{
    writer.inner.into_inner().map_err(|e| csv::Error::from(e.into_error()))
}

/// Parses `data` as a CSV table with a header row. Every data row of the
/// table has as many fields as its header.
pub fn parse_table(data: &[u8]) -> (r: Result<Table, TransformError>)
    ensures
        match r {
            Ok(table) => csv_read(data@) == Some(all_rows(table@.header, table@.rows)),
            Err(e) => csv_read(data@) is None && e is Csv,
        },
        r matches Ok(table) ==> rows_match_header(table@.header, table@.rows),
{
    match read_table(data) {
        Ok(table) => Ok(table),
        Err(e) => Err(TransformError::from(e)),
    }
}

/// Writes a table as CSV text: the header, then the data rows in order. A
/// table with a data row that has more or fewer fields than the header is
/// refused, and no other.
pub fn write_table(table: &Table) -> (r: Result<Vec<u8>, TransformError>)
    ensures
        r is Ok <==> rows_match_header(table@.header, table@.rows),
        match r {
            Ok(bytes) => bytes@ == csv_text(all_rows(table@.header, table@.rows)),
            Err(e) => e is Csv,
        },
{
    let mut writer = match write_record(new_writer(), &table.headers) {
        Ok(w) => w,
        Err(e) => {
            return Err(TransformError::from(e));
        },
    };
    let mut i: usize = 0;
    while i < table.records.len()
        invariant
            i <= table.records.len(),
            written(writer) == all_rows(table@.header, table@.rows.take(i as int)),
            rows_match_header(table@.header, table@.rows.take(i as int)),
        decreases table.records.len() - i,
    {
        assert(written(writer)[0] == table@.header);
        writer = match write_record(writer, &table.records[i]) {
            Ok(w) => w,
            Err(e) => {
                assert(table@.rows[i as int].len() != table@.header.len());
                return Err(TransformError::from(e));
            },
        };
        assert(all_rows(table@.header, table@.rows.take(i as int)).push(table@.rows[i as int])
            =~= all_rows(table@.header, table@.rows.take(i + 1)));
        assert forall|j: int| 0 <= j < i + 1 implies (#[trigger] table@.rows.take(
            i + 1,
        )[j]).len() == table@.header.len() by {
            if j < i {
                assert(table@.rows.take(i as int)[j] == table@.rows.take(i + 1)[j]);
            }
        }
        i = i + 1;
    }
    assert(table@.rows.take(i as int) =~= table@.rows);
    match finish_writer(writer) {
        Ok(bytes) => Ok(bytes),
        Err(e) => Err(TransformError::from(e)),
    }
}

} // verus!
