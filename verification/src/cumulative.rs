//! Running totals of the three tracked columns of a trace.

use vstd::prelude::*;
use vstd::string::StringExecFns;
use crate::codec::all_rows;
use crate::codec::csv_read;
use crate::codec::csv_text;
use crate::codec::parse_table;
use crate::codec::rows_match_header;
use crate::codec::write_table;
use crate::decimal::decimal_text;
use crate::decimal::decimal_value;
use crate::decimal::lemma_decimal_round_trip;
use crate::decimal::format_u64;
use crate::decimal::is_decimal_u64;
use crate::decimal::parse_u64;
use crate::error::TransformError;
use crate::record::record_fields;
use crate::record::rows_of;
use crate::record::Table;

verus! {

/// Column of the executed instructions, counted from one.
pub const INSTRUCTIONS_COL_IDX: usize = 3;

/// Column of the accessed host pages, counted from one.
pub const ACCESSED_HOST_PAGES_COL_IDX: usize = 4;

/// Column of the dirtied host pages, counted from one.
pub const DIRTIED_HOST_PAGES_COL_IDX: usize = 5;

/// The labels of the three columns that the transformation appends.
pub open spec fn total_labels() -> Seq<Seq<char>> {
    seq!["total instructions"@, "total accessed host pages"@, "total dirtied host pages"@]
}

/// The message of the error for a row that ends before the instructions column.
pub open spec fn too_few_columns_message() -> Seq<char> {
    "CSV record doesn't have enough columns"@
}

/// Whether `row` has column `col`, counted from one, and holds the decimal
/// text of an unsigned 64-bit integer there.
pub open spec fn column_is_integer(row: Seq<Seq<char>>, col: int) -> bool {
    1 <= col <= row.len() && is_decimal_u64(row[col - 1])
}

/// The number in column `col` of `row`, counted from one.
pub open spec fn column_value(row: Seq<Seq<char>>, col: int) -> nat {
    decimal_value(row[col - 1])
}

/// The sum of column `col` over the first `n` rows.
pub open spec fn running_total(rows: Seq<Seq<Seq<char>>>, col: int, n: int) -> nat
    decreases n,
{
    if n <= 0 {
        0
    } else {
        running_total(rows, col, n - 1) + column_value(rows[n - 1], col)
    }
}

/// What is wrong with the text of a data row.
pub enum RowFault {
    /// The row ends before the instructions column.
    TooFewColumns,
    /// The column is absent or does not hold an unsigned integer.
    NotAnInteger { column: usize },
}

/// The first fault in the text of `row`, going through the tracked columns
/// from left to right, or `None` for a row whose three numbers can be read.
pub open spec fn row_fault(row: Seq<Seq<char>>) -> Option<RowFault> {
    if row.len() < INSTRUCTIONS_COL_IDX {
        Some(RowFault::TooFewColumns)
    } else if !column_is_integer(row, INSTRUCTIONS_COL_IDX as int) {
        Some(RowFault::NotAnInteger { column: INSTRUCTIONS_COL_IDX })
    } else if !column_is_integer(row, ACCESSED_HOST_PAGES_COL_IDX as int) {
        Some(RowFault::NotAnInteger { column: ACCESSED_HOST_PAGES_COL_IDX })
    } else if !column_is_integer(row, DIRTIED_HOST_PAGES_COL_IDX as int) {
        Some(RowFault::NotAnInteger { column: DIRTIED_HOST_PAGES_COL_IDX })
    } else {
        None
    }
}

/// Whether none of the first `n` rows has a fault in its text.
pub open spec fn rows_sound(rows: Seq<Seq<Seq<char>>>, n: int) -> bool {
    forall|i: int| 0 <= i < n ==> (#[trigger] row_fault(rows[i])) is None
}

/// Whether row `k` is the first row with a fault in its text.
pub open spec fn is_first_fault(rows: Seq<Seq<Seq<char>>>, k: int) -> bool {
    &&& 0 <= k < rows.len()
    &&& rows_sound(rows, k)
    &&& row_fault(rows[k]) is Some
}

/// Whether `error` is the one that reports `fault` in data row `row`.
pub open spec fn reports(error: TransformError, row: int, fault: RowFault) -> bool {
    match fault {
        RowFault::TooFewColumns => error matches TransformError::Message(text) && text@
            == too_few_columns_message(),
        RowFault::NotAnInteger { column } => error == (TransformError::IntParse {
            row: row as usize,
            column,
        }),
    }
}

/// Whether the sums of the three tracked columns over the first `n` rows
/// each fit in 64 bits.
pub open spec fn totals_fit(rows: Seq<Seq<Seq<char>>>, n: int) -> bool {
    &&& running_total(rows, INSTRUCTIONS_COL_IDX as int, n) <= u64::MAX
    &&& running_total(rows, ACCESSED_HOST_PAGES_COL_IDX as int, n) <= u64::MAX
    &&& running_total(rows, DIRTIED_HOST_PAGES_COL_IDX as int, n) <= u64::MAX
}

/// Whether the running total of column `col` at row `i` is the first to pass
/// 64 bits, going through the rows in order and, in a row, through the
/// tracked columns from left to right.
pub open spec fn is_first_overflow(rows: Seq<Seq<Seq<char>>>, i: int, col: usize) -> bool {
    &&& 0 <= i < rows.len()
    &&& totals_fit(rows, i)
    &&& is_tracked(col as int)
    &&& running_total(rows, col as int, i + 1) > u64::MAX
    &&& forall|c: int|
        is_tracked(c) && c < col ==> #[trigger] running_total(rows, c, i + 1) <= u64::MAX
}

/// Whether `col` is one of the three tracked columns.
pub open spec fn is_tracked(col: int) -> bool {
    col == INSTRUCTIONS_COL_IDX || col == ACCESSED_HOST_PAGES_COL_IDX || col
        == DIRTIED_HOST_PAGES_COL_IDX
}

/// The three fields appended to row `i`: the running totals of the tracked
/// columns up to and including that row, in decimal.
pub open spec fn total_fields(rows: Seq<Seq<Seq<char>>>, i: int) -> Seq<Seq<char>> {
    seq![
        decimal_text(running_total(rows, INSTRUCTIONS_COL_IDX as int, i + 1)),
        decimal_text(running_total(rows, ACCESSED_HOST_PAGES_COL_IDX as int, i + 1)),
        decimal_text(running_total(rows, DIRTIED_HOST_PAGES_COL_IDX as int, i + 1)),
    ]
}

/// The data rows, each with its three running totals appended.
pub open spec fn extended_rows(rows: Seq<Seq<Seq<char>>>) -> Seq<Seq<Seq<char>>> {
    Seq::new(rows.len(), |i: int| rows[i] + total_fields(rows, i))
}

/// Reads column `col` of a record as a number.
fn read_column(record: &csv::StringRecord, row: usize, col: usize) -> (r: Result<
    u64,
    TransformError,
>)
    requires
        1 <= col,
    ensures
        match r {
            Ok(value) => column_is_integer(record_fields(*record), col as int) && value
                == column_value(record_fields(*record), col as int),
            Err(e) => !column_is_integer(record_fields(*record), col as int) && e == (
            TransformError::IntParse { row, column: col }),
        },
{
    let field = match record.get(col - 1) {
        Some(text) => text,
        None => {
            return Err(TransformError::IntParse { row, column: col });
        },
    };
    match parse_u64(field) {
        Some(value) => Ok(value),
        None => Err(TransformError::IntParse { row, column: col }),
    }
}

/// Appends the three labels to the header and, to every data row, the running
/// totals of its instructions, accessed host pages and dirtied host pages
/// columns. A table with a fault in the text of a row is refused with the
/// first such fault, whatever its numbers are. A table without one is refused
/// only where a running total passes 64 bits, with the first place at which
/// one does.
pub fn append_totals(table: Table) -> (r: Result<Table, TransformError>)
    ensures
        r is Ok <==> rows_sound(table@.rows, table@.rows.len() as int) && totals_fit(
            table@.rows,
            table@.rows.len() as int,
        ),
        match r {
            Ok(out) => {
                &&& out@.header == table@.header + total_labels()
                &&& out@.rows == extended_rows(table@.rows)
            },
            Err(e) => if rows_sound(table@.rows, table@.rows.len() as int) {
                exists|i: int, col: usize| #[trigger]
                    is_first_overflow(table@.rows, i, col) && e == (TransformError::Overflow {
                        row: i as usize,
                        column: col,
                    })
            } else {
                exists|k: int| #[trigger]
                    is_first_fault(table@.rows, k) && reports(
                        e,
                        k,
                        row_fault(table@.rows[k]).unwrap(),
                    )
            },
        },
{
    let ghost rows = table@.rows;
    let ghost header = table@.header;
    let Table { headers, records } = table;
    let mut headers = headers;
    headers.push_field("total instructions");
    headers.push_field("total accessed host pages");
    headers.push_field("total dirtied host pages");
    assert(record_fields(headers) =~= header + total_labels());

    let mut extended: Vec<csv::StringRecord> = Vec::new();
    let mut total_instructions: u64 = 0;
    let mut total_accessed_host_pages: u64 = 0;
    let mut total_dirtied_host_pages: u64 = 0;
    let mut overflow: Option<(usize, usize)> = None;
    let mut i: usize = 0;
    while i < records.len()
        invariant
            i <= records.len(),
            rows == table@.rows,
            rows == rows_of(records@),
            rows_sound(rows, i as int),
            match overflow {
                Some((row, col)) => row < i && is_first_overflow(rows, row as int, col),
                None => {
                    &&& totals_fit(rows, i as int)
                    &&& total_instructions == running_total(
                        rows,
                        INSTRUCTIONS_COL_IDX as int,
                        i as int,
                    )
                    &&& total_accessed_host_pages == running_total(
                        rows,
                        ACCESSED_HOST_PAGES_COL_IDX as int,
                        i as int,
                    )
                    &&& total_dirtied_host_pages == running_total(
                        rows,
                        DIRTIED_HOST_PAGES_COL_IDX as int,
                        i as int,
                    )
                    &&& extended@.len() == i
                    &&& forall|j: int|
                        0 <= j < i ==> record_fields(#[trigger] extended@[j]) == rows[j]
                            + total_fields(rows, j)
                },
            },
        decreases records.len() - i,
    {
        let record = &records[i];
        assert(record_fields(*record) == rows[i as int]);
        if record.len() < INSTRUCTIONS_COL_IDX {
            assert(is_first_fault(rows, i as int));
            return Err(
                TransformError::from(String::from_str("CSV record doesn't have enough columns")),
            );
        }
        let instructions = match read_column(record, i, INSTRUCTIONS_COL_IDX) {
            Ok(value) => value,
            Err(e) => {
                assert(is_first_fault(rows, i as int));
                return Err(e);
            },
        };
        let accessed_host_pages = match read_column(record, i, ACCESSED_HOST_PAGES_COL_IDX) {
            Ok(value) => value,
            Err(e) => {
                assert(is_first_fault(rows, i as int));
                return Err(e);
            },
        };
        let dirtied_host_pages = match read_column(record, i, DIRTIED_HOST_PAGES_COL_IDX) {
            Ok(value) => value,
            Err(e) => {
                assert(is_first_fault(rows, i as int));
                return Err(e);
            },
        };
        assert(row_fault(rows[i as int]) is None);
        if overflow.is_none() {
            match total_instructions.checked_add(instructions) {
                None => {
                    overflow = Some((i, INSTRUCTIONS_COL_IDX));
                },
                Some(sum_instructions) => match total_accessed_host_pages.checked_add(
                    accessed_host_pages,
                ) {
                    None => {
                        overflow = Some((i, ACCESSED_HOST_PAGES_COL_IDX));
                    },
                    Some(sum_accessed) => match total_dirtied_host_pages.checked_add(
                        dirtied_host_pages,
                    ) {
                        None => {
                            overflow = Some((i, DIRTIED_HOST_PAGES_COL_IDX));
                        },
                        Some(sum_dirtied) => {
                            total_instructions = sum_instructions;
                            total_accessed_host_pages = sum_accessed;
                            total_dirtied_host_pages = sum_dirtied;
                            let mut row = record.clone();
                            row.push_field(format_u64(total_instructions).as_str());
                            row.push_field(format_u64(total_accessed_host_pages).as_str());
                            row.push_field(format_u64(total_dirtied_host_pages).as_str());
                            assert(record_fields(row) =~= rows[i as int] + total_fields(
                                rows,
                                i as int,
                            ));
                            extended.push(row);
                        },
                    },
                },
            }
        }
        i = i + 1;
    }
    match overflow {
        Some((row, column)) => {
            proof {
                totals_never_decrease(rows, column as int, row + 1, rows.len() as int);
            }
            Err(TransformError::Overflow { row, column })
        },
        None => {
            let out = Table { headers, records: extended };
            assert(out@.rows =~= extended_rows(rows));
            Ok(out)
        },
    }
}

/// The table that the transformation makes of the rows `all`, the header row
/// first: the header with the three labels, and every data row with its
/// running totals.
pub open spec fn transformed_rows(all: Seq<Seq<Seq<char>>>) -> Seq<Seq<Seq<char>>> {
    all_rows(all[0] + total_labels(), extended_rows(all.drop_first()))
}

/// Whether `r` is what the transformation gives for the CSV text `data`: an
/// error where the reader refuses `data`; for a table with a fault in its
/// text, the error that reports the first fault; for one whose totals pass
/// 64 bits, the error that reports the first place where one does; and for
/// every other table the CSV text of the transformed table.
pub open spec fn is_transformation(data: Seq<u8>, r: Result<Vec<u8>, TransformError>) -> bool {
    match csv_read(data) {
        None => r matches Err(e) && e is Csv,
        Some(all) => {
            let rows = all.drop_first();
            if !rows_sound(rows, rows.len() as int) {
                r matches Err(e) && exists|k: int| #[trigger]
                    is_first_fault(rows, k) && reports(e, k, row_fault(rows[k]).unwrap())
            } else if !totals_fit(rows, rows.len() as int) {
                r matches Err(e) && exists|i: int, col: usize| #[trigger]
                    is_first_overflow(rows, i, col) && e == (TransformError::Overflow {
                        row: i as usize,
                        column: col,
                    })
            } else {
                r matches Ok(bytes) && bytes@ == csv_text(transformed_rows(all))
            }
        },
    }
}

/// Transforms the CSV text of a trace: reads `data` as a table with a header
/// row, appends the running totals, and writes the new table as CSV text.
/// Input that the reader refuses, that holds a row with a fault, or whose
/// totals pass 64 bits gives an error and no text; every other input gives
/// the text.
pub fn add_cumulative_columns(data: &[u8]) -> (r: Result<Vec<u8>, TransformError>)
    ensures
        is_transformation(data@, r),
{
    let table = match parse_table(data) {
        Ok(table) => table,
        Err(e) => {
            return Err(e);
        },
    };
    let ghost header = table@.header;
    let ghost rows = table@.rows;
    let ghost all = all_rows(header, rows);
    assert(all.drop_first() =~= rows);
    assert(all[0] == header);
    let extended = match append_totals(table) {
        Ok(extended) => extended,
        Err(e) => {
            return Err(e);
        },
    };
    assert(rows_match_header(extended@.header, extended@.rows)) by {
        assert forall|i: int| 0 <= i < extended@.rows.len() implies (
        #[trigger] extended@.rows[i]).len() == extended@.header.len() by {
            assert(rows[i].len() == header.len());
        }
    }
    write_table(&extended)
}

/// In the extended table, the field appended for tracked column `col` at row
/// `i` is decimal text, and the number it writes is the sum of that column
/// over the rows up to and including row `i`.
pub proof fn totals_are_sums(rows: Seq<Seq<Seq<char>>>, i: int, col: int)
    requires
        0 <= i < rows.len(),
        is_tracked(col),
        totals_fit(rows, rows.len() as int),
    ensures
        column_is_integer(extended_rows(rows)[i], rows[i].len() + col - 2),
        column_value(extended_rows(rows)[i], rows[i].len() + col - 2) == running_total(
            rows,
            col,
            i + 1,
        ),
{
    totals_never_decrease(rows, col, i + 1, rows.len() as int);
    lemma_decimal_round_trip(running_total(rows, col, i + 1));
}

/// The sum of a column over the first `i` rows is no larger than over the
/// first `j` rows, for `i` not behind `j`.
pub proof fn totals_never_decrease(rows: Seq<Seq<Seq<char>>>, col: int, i: int, j: int)
    requires
        i <= j,
    ensures
        running_total(rows, col, i) <= running_total(rows, col, j),
    decreases j - i,
{
    if i < j {
        totals_never_decrease(rows, col, i, j - 1);
    }
}

/// Down a tracked column's appended field, the numbers written never
/// decrease from a row to a later one.
pub proof fn appended_columns_never_decrease(
    rows: Seq<Seq<Seq<char>>>,
    col: int,
    i: int,
    j: int,
)
    requires
        0 <= i <= j < rows.len(),
        is_tracked(col),
        totals_fit(rows, rows.len() as int),
    ensures
        column_value(extended_rows(rows)[i], rows[i].len() + col - 2) <= column_value(
            extended_rows(rows)[j],
            rows[j].len() + col - 2,
        ),
{
    totals_are_sums(rows, i, col);
    totals_are_sums(rows, j, col);
    totals_never_decrease(rows, col, i + 1, j + 1);
}

/// The extended table has as many rows as the table it was made of, in the
/// same order; each begins with the fields it had, unchanged, and has exactly
/// three more.
pub proof fn rows_are_kept(rows: Seq<Seq<Seq<char>>>, i: int)
    requires
        0 <= i < rows.len(),
    ensures
        extended_rows(rows).len() == rows.len(),
        extended_rows(rows)[i].len() == rows[i].len() + 3,
        extended_rows(rows)[i].take(rows[i].len() as int) == rows[i],
{
    assert(extended_rows(rows)[i].take(rows[i].len() as int) =~= rows[i]);
}

/// The new header is the old one with exactly three more fields, which are
/// the three labels in their order.
pub proof fn header_gains_labels(all: Seq<Seq<Seq<char>>>)
    requires
        all.len() > 0,
    ensures
        transformed_rows(all).len() == all.len(),
        transformed_rows(all)[0].len() == all[0].len() + 3,
        transformed_rows(all)[0].take(all[0].len() as int) == all[0],
        transformed_rows(all)[0].skip(all[0].len() as int) == seq![
            "total instructions"@,
            "total accessed host pages"@,
            "total dirtied host pages"@,
        ],
{
    assert(transformed_rows(all)[0].take(all[0].len() as int) =~= all[0]);
    assert(transformed_rows(all)[0].skip(all[0].len() as int) =~= total_labels());
}

/// Among the rows up to a row with a fault there is a first one with a fault.
pub proof fn first_fault_exists(rows: Seq<Seq<Seq<char>>>, i: int)
    requires
        0 <= i < rows.len(),
        row_fault(rows[i]) is Some,
    ensures
        exists|k: int| 0 <= k <= i && #[trigger] is_first_fault(rows, k),
    decreases i,
{
    if rows_sound(rows, i) {
        assert(is_first_fault(rows, i));
    } else {
        let j = choose|j: int| 0 <= j < i && (#[trigger] row_fault(rows[j])) is Some;
        first_fault_exists(rows, j);
    }
}

/// A table has at most one first fault.
pub proof fn first_fault_is_unique(rows: Seq<Seq<Seq<char>>>, k: int, m: int)
    requires
        is_first_fault(rows, k),
        is_first_fault(rows, m),
    ensures
        k == m,
{
    if k < m {
        assert(row_fault(rows[k]) is None);
    } else if m < k {
        assert(row_fault(rows[m]) is None);
    }
}

/// A table has at most one first place at which a running total passes 64
/// bits.
pub proof fn first_overflow_is_unique(
    rows: Seq<Seq<Seq<char>>>,
    i: int,
    col: usize,
    j: int,
    other: usize,
)
    requires
        is_first_overflow(rows, i, col),
        is_first_overflow(rows, j, other),
    ensures
        i == j,
        col == other,
{
    if i < j {
        totals_never_decrease(rows, col as int, i + 1, j);
    } else if j < i {
        totals_never_decrease(rows, other as int, j + 1, i);
    } else if col < other {
        assert(running_total(rows, col as int, i + 1) <= u64::MAX);
    } else if other < col {
        assert(running_total(rows, other as int, i + 1) <= u64::MAX);
    }
}

/// A table with a row of fewer than three fields is not sound, so that its
/// transformation gives an error: the row's fault is that it has too few
/// columns, and the table has a first fault at or before that row.
pub proof fn short_row_is_refused(rows: Seq<Seq<Seq<char>>>, i: int)
    requires
        0 <= i < rows.len(),
        rows[i].len() < INSTRUCTIONS_COL_IDX,
    ensures
        row_fault(rows[i]) == Some(RowFault::TooFewColumns),
        !rows_sound(rows, rows.len() as int),
        exists|k: int| 0 <= k <= i && #[trigger] is_first_fault(rows, k),
{
    first_fault_exists(rows, i);
}

/// A table with a row that holds something else than an unsigned integer in
/// a tracked column is not sound, so that its transformation gives an error.
pub proof fn non_integer_is_refused(rows: Seq<Seq<Seq<char>>>, i: int, col: int)
    requires
        0 <= i < rows.len(),
        is_tracked(col),
        !column_is_integer(rows[i], col),
    ensures
        row_fault(rows[i]) is Some,
        !rows_sound(rows, rows.len() as int),
        exists|k: int| 0 <= k <= i && #[trigger] is_first_fault(rows, k),
{
    first_fault_exists(rows, i);
}

/// Where the reader finds a table whose rows all reach the instructions
/// column and one of them holds something else than an unsigned integer in a
/// tracked column, the transformation gives an integer-parse error, whatever
/// the numbers of the table are.
pub proof fn non_integer_gives_int_parse(
    data: Seq<u8>,
    r: Result<Vec<u8>, TransformError>,
    i: int,
    col: int,
)
    requires
        is_transformation(data, r),
        csv_read(data) is Some,
        0 <= i < csv_read(data).unwrap().drop_first().len(),
        forall|j: int|
            0 <= j < csv_read(data).unwrap().drop_first().len() ==> (
            #[trigger] csv_read(data).unwrap().drop_first()[j]).len() >= INSTRUCTIONS_COL_IDX,
        is_tracked(col),
        !column_is_integer(csv_read(data).unwrap().drop_first()[i], col),
    ensures
        r matches Err(e) && e is IntParse,
{
    let rows = csv_read(data).unwrap().drop_first();
    non_integer_is_refused(rows, i, col);
    let e = r->Err_0;
    let k = choose|k: int| #[trigger]
        is_first_fault(rows, k) && reports(e, k, row_fault(rows[k]).unwrap());
    assert(rows[k].len() >= INSTRUCTIONS_COL_IDX);
}

/// Two tables of the same length whose tracked columns write the same
/// numbers row by row have the same running totals, so that the same three
/// fields are appended to their rows.
pub proof fn equal_metrics_give_equal_totals(
    a: Seq<Seq<Seq<char>>>,
    b: Seq<Seq<Seq<char>>>,
    i: int,
)
    requires
        a.len() == b.len(),
        0 <= i < a.len(),
        forall|j: int, col: int|
            0 <= j < a.len() && is_tracked(col) ==> #[trigger] column_value(a[j], col)
                == column_value(b[j], col),
    ensures
        total_fields(a, i) == total_fields(b, i),
{
    equal_metrics_give_equal_sums(a, b, INSTRUCTIONS_COL_IDX as int, i + 1);
    equal_metrics_give_equal_sums(a, b, ACCESSED_HOST_PAGES_COL_IDX as int, i + 1);
    equal_metrics_give_equal_sums(a, b, DIRTIED_HOST_PAGES_COL_IDX as int, i + 1);
}

proof fn equal_metrics_give_equal_sums(
    a: Seq<Seq<Seq<char>>>,
    b: Seq<Seq<Seq<char>>>,
    col: int,
    n: int,
)
    requires
        a.len() == b.len(),
        n <= a.len(),
        is_tracked(col),
        forall|j: int, c: int|
            0 <= j < a.len() && is_tracked(c) ==> #[trigger] column_value(a[j], c)
                == column_value(b[j], c),
    ensures
        running_total(a, col, n) == running_total(b, col, n),
    decreases n,
{
    if n > 0 {
        equal_metrics_give_equal_sums(a, b, col, n - 1);
        assert(column_value(a[n - 1], col) == column_value(b[n - 1], col));
    }
}

/// Whether two errors say the same: both come from the CSV reader or writer,
/// or both hold the same message, or they are the same fault at the same
/// place.
pub open spec fn same_failure(first: TransformError, second: TransformError) -> bool {
    match first {
        TransformError::Csv(_) => second is Csv,
        TransformError::Message(text) => second matches TransformError::Message(other) && text@
            == other@,
        _ => first == second,
    }
}

/// Two transformations of the same CSV text end alike: both give text, and
/// then the same text, or both give an error, and then errors that say the
/// same.
pub proof fn transformation_is_determined(
    data: Seq<u8>,
    first: Result<Vec<u8>, TransformError>,
    second: Result<Vec<u8>, TransformError>,
)
    requires
        is_transformation(data, first),
        is_transformation(data, second),
    ensures
        first is Ok <==> second is Ok,
        first is Ok ==> first->Ok_0@ == second->Ok_0@,
        first is Err ==> same_failure(first->Err_0, second->Err_0),
{
    if csv_read(data) is Some {
        let rows = csv_read(data).unwrap().drop_first();
        let a = first->Err_0;
        let b = second->Err_0;
        if !rows_sound(rows, rows.len() as int) {
            let k = choose|k: int| #[trigger]
                is_first_fault(rows, k) && reports(a, k, row_fault(rows[k]).unwrap());
            let m = choose|m: int| #[trigger]
                is_first_fault(rows, m) && reports(b, m, row_fault(rows[m]).unwrap());
            first_fault_is_unique(rows, k, m);
        } else if !totals_fit(rows, rows.len() as int) {
            let (i, col) = choose|i: int, col: usize| #[trigger]
                is_first_overflow(rows, i, col) && a == (TransformError::Overflow {
                    row: i as usize,
                    column: col,
                });
            let (j, other) = choose|j: int, other: usize| #[trigger]
                is_first_overflow(rows, j, other) && b == (TransformError::Overflow {
                    row: j as usize,
                    column: other,
                });
            first_overflow_is_unique(rows, i, col, j, other);
        }
    }
}

} // verus!
