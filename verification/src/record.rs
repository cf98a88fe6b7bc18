//! CSV records as sequences of text fields.

use vstd::prelude::*;

verus! {

/// `csv::StringRecord`, known only through `record_fields`.
#[verifier::external_type_specification]
#[verifier::external_body]
pub struct ExStringRecord(csv::StringRecord);

/// `csv::Error`, of which nothing is known but that it is one.
#[verifier::external_type_specification]
#[verifier::external_body]
pub struct ExCsvError(csv::Error);

/// The fields that a record holds, in order, each as its text.
pub uninterp spec fn record_fields(record: csv::StringRecord) -> Seq<Seq<char>>;

/// `csv::StringRecord::len`: the number of fields in the record.
pub assume_specification[ csv::StringRecord::len ](record: &csv::StringRecord) -> (n: usize)
    ensures
        n == record_fields(*record).len(),
;

/// `csv::StringRecord::get`: the field at index `i`, counted from zero, or
/// `None` where the record has no such field.
pub assume_specification<'a>[ csv::StringRecord::get ](
    record: &'a csv::StringRecord,
    i: usize,
) -> (field: Option<&'a str>)
    ensures
        i < record_fields(*record).len() ==> field.is_some() && field.unwrap()@ == record_fields(
            *record,
        )[i as int],
        i >= record_fields(*record).len() ==> field.is_none(),
;

/// `csv::StringRecord::push_field`: adds `field` behind the fields that the
/// record holds and leaves those as they are.
pub assume_specification[ csv::StringRecord::push_field ](
    record: &mut csv::StringRecord,
    field: &str,
)
    ensures
        record_fields(*final(record)) == record_fields(*old(record)).push(field@),
;

/// `Clone::clone` of `csv::StringRecord`: a record with the same fields.
pub assume_specification[ <csv::StringRecord as Clone>::clone ](
    record: &csv::StringRecord,
) -> (copy: csv::StringRecord)
    ensures
        record_fields(copy) == record_fields(*record),
;

/// The fields of each record of a list, in the list's order.
pub open spec fn rows_of(records: Seq<csv::StringRecord>) -> Seq<Seq<Seq<char>>> {
    Seq::new(records.len(), |i: int| record_fields(records[i]))
}

/// What a table holds: the fields of its header and of each data row.
pub ghost struct TableContent {
    pub header: Seq<Seq<char>>,
    pub rows: Seq<Seq<Seq<char>>>,
}

/// A CSV table: the header record and the data records in file order.
pub struct Table {
    pub headers: csv::StringRecord,
    pub records: Vec<csv::StringRecord>,
}

impl View for Table {
    type V = TableContent;

    open spec fn view(&self) -> TableContent {
        TableContent { header: record_fields(self.headers), rows: rows_of(self.records@) }
    }
}

} // verus!
