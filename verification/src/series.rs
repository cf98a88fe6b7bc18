//! What holds of the series of a plot once the column is put in.

use vstd::prelude::*;
use crate::decimal::decimal_text;
use crate::decimal::lemma_decimal_text_lacks;
use crate::plot::column_clause;
use crate::plot::column_series;
use crate::plot::series_clause;
use crate::plot::series_list;
use crate::plot::TraceText;
use crate::text::lacks;
use crate::text::lemma_occurrences_after;
use crate::text::lemma_occurrences_at_head;
use crate::text::lemma_occurrences_split;
use crate::text::lemma_replaced_after;
use crate::text::lemma_replaced_after_char;
use crate::text::lemma_replaced_at_head;
use crate::text::occurrences;
use crate::text::occurs_at;
use crate::text::replaced;

verus! {

/// Whether neither the path nor the title of any of the first `n` traces
/// holds a dollar sign.
pub open spec fn plain_traces(traces: Seq<TraceText>, n: int) -> bool {
    forall|i: int|
        0 <= i < n ==> lacks((#[trigger] traces[i]).path, '$') && lacks(traces[i].title, '$')
}

/// The text of a clause before the dollar sign of the row number.
spec fn clause_head(trace: TraceText) -> Seq<char> {
    "\""@ + trace.path + "\" using ("@
}

/// The text of a clause behind the column.
spec fn clause_tail(trace: TraceText) -> Seq<char> {
    " with linespoints title \""@ + trace.title + "\", "@
}

proof fn lemma_clause_parts(trace: TraceText, column: Seq<char>)
    requires
        lacks(trace.path, '$'),
        lacks(trace.title, '$'),
    ensures
        column_clause(trace, column) == clause_head(trace) + seq!['$'] + "0+1):"@ + column
            + clause_tail(trace),
        lacks(clause_head(trace), '$'),
        lacks(clause_tail(trace), '$'),
        lacks("0+1):"@, '$'),
        "0+1):"@.len() == 5,
        "0+1):"@[0] == '0',
        clause_head(trace).len() > 0,
        clause_head(trace).last() == '(',
        clause_tail(trace).len() > 0,
        clause_tail(trace)[0] == ' ',
{
    reveal_strlit("\"");
    reveal_strlit("\" using (");
    reveal_strlit("\" using ($0+1):");
    reveal_strlit("0+1):");
    reveal_strlit(" with linespoints title \"");
    reveal_strlit("\", ");
    assert("\" using ($0+1):"@ =~= "\" using ("@ + seq!['$'] + "0+1):"@);
    assert(column_clause(trace, column) =~= clause_head(trace) + seq!['$'] + "0+1):"@ + column
        + clause_tail(trace));
}

/// Putting the column into one clause that is followed by `rest`.
proof fn lemma_clause_with_column(trace: TraceText, rest: Seq<char>, column: Seq<char>)
    requires
        lacks(trace.path, '$'),
        lacks(trace.title, '$'),
    ensures
        replaced(series_clause(trace) + rest, "$COLUMN_IDX"@, column) == column_clause(
            trace,
            column,
        ) + replaced(rest, "$COLUMN_IDX"@, column),
{
    let p = "$COLUMN_IDX"@;
    reveal_strlit("$COLUMN_IDX");
    lemma_clause_parts(trace, p);
    lemma_clause_parts(trace, column);
    let head = clause_head(trace);
    let digits = "0+1):"@;
    let tail = clause_tail(trace);
    let x4 = tail + rest;
    let x3 = p + x4;
    let x2 = digits + x3;
    let x1 = seq!['$'] + x2;
    assert(series_clause(trace) + rest =~= head + x1);
    lemma_replaced_after(head, x1, p, column);
    assert(x2[0] == '0');
    lemma_replaced_after_char('$', x2, p, column);
    lemma_replaced_after(digits, x3, p, column);
    lemma_replaced_at_head(p, x4, column);
    lemma_replaced_after(tail, rest, p, column);
    assert(head + (seq!['$'] + (digits + (column + (tail + replaced(rest, p, column)))))
        =~= column_clause(trace, column) + replaced(rest, p, column));
}

proof fn lemma_series_with_column(
    traces: Seq<TraceText>,
    n: int,
    rest: Seq<char>,
    column: Seq<char>,
)
    requires
        0 <= n <= traces.len(),
        plain_traces(traces, n),
    ensures
        replaced(series_list(traces, n) + rest, "$COLUMN_IDX"@, column) == column_series(
            traces,
            n,
            column,
        ) + replaced(rest, "$COLUMN_IDX"@, column),
    decreases n,
{
    let p = "$COLUMN_IDX"@;
    reveal_strlit("$COLUMN_IDX");
    reveal_strlit(" ");
    if n == 0 {
        assert(series_list(traces, n) + rest =~= rest);
        assert(column_series(traces, n, column) + replaced(rest, p, column) =~= replaced(
            rest,
            p,
            column,
        ));
    } else if n == 1 {
        lemma_clause_with_column(traces[0], rest, column);
    } else {
        let last = traces[n - 1];
        let behind = " "@ + (series_clause(last) + rest);
        assert(series_list(traces, n) + rest =~= series_list(traces, n - 1) + behind);
        lemma_series_with_column(traces, n - 1, behind, column);
        lemma_replaced_after(" "@, series_clause(last) + rest, p, column);
        lemma_clause_with_column(last, rest, column);
        assert(column_series(traces, n - 1, column) + (" "@ + (column_clause(last, column)
            + replaced(rest, p, column))) =~= column_series(traces, n, column) + replaced(
            rest,
            p,
            column,
        ));
    }
}

/// Putting a column into the series of traces whose paths and titles hold
/// no dollar sign gives the same series with the column in the place of
/// `$COLUMN_IDX` in every clause, and changes nothing else.
pub proof fn series_with_column(traces: Seq<TraceText>, n: int, column: Seq<char>)
    requires
        0 <= n <= traces.len(),
        plain_traces(traces, n),
    ensures
        replaced(series_list(traces, n), "$COLUMN_IDX"@, column) == column_series(
            traces,
            n,
            column,
        ),
{
    let empty = Seq::<char>::empty();
    lemma_series_with_column(traces, n, empty, column);
    assert(series_list(traces, n) + empty =~= series_list(traces, n));
    assert(replaced(empty, "$COLUMN_IDX"@, column) =~= empty);
    assert(column_series(traces, n, column) + empty =~= column_series(traces, n, column));
}

/// The text that stands in a clause for the row number against `column`.
pub open spec fn column_use(column: Seq<char>) -> Seq<char> {
    "($0+1):"@ + column
}

/// One clause that is followed by `rest` uses its column once.
proof fn lemma_clause_uses_column(trace: TraceText, rest: Seq<char>, column: Seq<char>)
    requires
        lacks(trace.path, '$'),
        lacks(trace.title, '$'),
        lacks(column, '$'),
        rest.len() == 0 || rest[0] != '$',
    ensures
        occurrences(column_clause(trace, column) + rest, column_use(column)) == 1 + occurrences(
            rest,
            column_use(column),
        ),
{
    lemma_clause_parts(trace, column);
    reveal_strlit("($0+1):");
    reveal_strlit("0+1):");
    let q = column_use(column);
    let head = clause_head(trace);
    let tail = clause_tail(trace);
    let start = head.drop_last();
    let y = tail + rest;
    assert(q =~= seq!['(', '$'] + "0+1):"@ + column);
    assert(column_clause(trace, column) + rest =~= start + (q + y));
    assert forall|k: int| 1 <= k < start.len() + 1 && k < (start + (q + y)).len() implies (start
        + (q + y))[k] != q[1] by {
        if k < start.len() {
            assert(start[k] == head[k]);
        }
    }
    lemma_occurrences_after(start, q + y, q, 1);
    lemma_occurrences_at_head(q, y);
    assert forall|k: int| 1 <= k < q.skip(1).len() + 1 && k < (q.skip(1) + y).len() implies (
    q.skip(1) + y)[k] != q[1] by {
        if k < q.skip(1).len() {
            assert(q.skip(1)[k] == q[k + 1]);
            if k + 1 < 7 {
                assert(q[k + 1] == "0+1):"@[k - 1]);
            } else {
                assert(q[k + 1] == column[k - 6]);
            }
        }
    }
    lemma_occurrences_after(q.skip(1), y, q, 1);
    lemma_occurrences_after(tail, rest, q, 1);
}

proof fn lemma_series_use_column(
    traces: Seq<TraceText>,
    n: int,
    rest: Seq<char>,
    column: Seq<char>,
)
    requires
        0 <= n <= traces.len(),
        plain_traces(traces, n),
        lacks(column, '$'),
        rest.len() == 0 || rest[0] != '$',
    ensures
        occurrences(column_series(traces, n, column) + rest, column_use(column)) == n
            + occurrences(rest, column_use(column)),
    decreases n,
{
    let q = column_use(column);
    reveal_strlit("($0+1):");
    reveal_strlit(" ");
    reveal_strlit("\"");
    if n == 0 {
        assert(column_series(traces, n, column) + rest =~= rest);
    } else if n == 1 {
        lemma_clause_uses_column(traces[0], rest, column);
    } else {
        let last = traces[n - 1];
        let clause = column_clause(last, column) + rest;
        let behind = " "@ + clause;
        assert(column_series(traces, n, column) + rest =~= column_series(traces, n - 1, column)
            + behind);
        lemma_series_use_column(traces, n - 1, behind, column);
        assert(clause[0] == '"');
        lemma_occurrences_after(" "@, clause, q, 1);
        lemma_clause_uses_column(last, rest, column);
    }
}

/// In the series of `n` traces whose paths and titles hold no dollar sign,
/// the row number against the column stands exactly `n` times: once in the
/// clause of each trace.
pub proof fn series_use_the_column(traces: Seq<TraceText>, n: int, column: Seq<char>)
    requires
        0 <= n <= traces.len(),
        plain_traces(traces, n),
        lacks(column, '$'),
    ensures
        occurrences(column_series(traces, n, column), column_use(column)) == n,
{
    let empty = Seq::<char>::empty();
    lemma_series_use_column(traces, n, empty, column);
    assert(column_series(traces, n, column) + empty =~= column_series(traces, n, column));
    reveal_strlit("($0+1):");
}

/// One clause that is followed by `rest` holds `$COLUMN_IDX` once where the
/// column is that text, and nowhere where the column holds no dollar sign.
proof fn lemma_clause_placeholders(trace: TraceText, rest: Seq<char>, column: Seq<char>)
    requires
        lacks(trace.path, '$'),
        lacks(trace.title, '$'),
    ensures
        occurrences(series_clause(trace) + rest, "$COLUMN_IDX"@) == 1 + occurrences(
            rest,
            "$COLUMN_IDX"@,
        ),
        lacks(column, '$') ==> occurrences(column_clause(trace, column) + rest, "$COLUMN_IDX"@)
            == occurrences(rest, "$COLUMN_IDX"@),
{
    let p = "$COLUMN_IDX"@;
    reveal_strlit("$COLUMN_IDX");
    lemma_clause_parts(trace, p);
    lemma_clause_parts(trace, column);
    let head = clause_head(trace);
    let digits = "0+1):"@;
    let tail = clause_tail(trace);
    let x4 = tail + rest;
    lemma_occurrences_after(tail, rest, p, 0);
    {
        let x3 = p + x4;
        let x2 = digits + x3;
        let x1 = seq!['$'] + x2;
        assert(series_clause(trace) + rest =~= head + x1);
        lemma_occurrences_after(head, x1, p, 0);
        assert(x2[0] == '0');
        lemma_occurrences_after(seq!['$'], x2, p, 1);
        lemma_occurrences_after(digits, x3, p, 0);
        lemma_occurrences_at_head(p, x4);
        lemma_occurrences_after(p.skip(1), x4, p, 0);
    }
    if lacks(column, '$') {
        let x3 = column + x4;
        let x2 = digits + x3;
        let x1 = seq!['$'] + x2;
        assert(column_clause(trace, column) + rest =~= head + x1);
        lemma_occurrences_after(head, x1, p, 0);
        assert(x2[0] == '0');
        lemma_occurrences_after(seq!['$'], x2, p, 1);
        lemma_occurrences_after(digits, x3, p, 0);
        lemma_occurrences_after(column, x4, p, 0);
    }
}

proof fn lemma_series_placeholders(
    traces: Seq<TraceText>,
    n: int,
    rest: Seq<char>,
    column: Seq<char>,
)
    requires
        0 <= n <= traces.len(),
        plain_traces(traces, n),
    ensures
        occurrences(series_list(traces, n) + rest, "$COLUMN_IDX"@) == n + occurrences(
            rest,
            "$COLUMN_IDX"@,
        ),
        lacks(column, '$') ==> occurrences(column_series(traces, n, column) + rest, "$COLUMN_IDX"@)
            == occurrences(rest, "$COLUMN_IDX"@),
    decreases n,
{
    let p = "$COLUMN_IDX"@;
    reveal_strlit("$COLUMN_IDX");
    reveal_strlit(" ");
    if n == 0 {
        assert(series_list(traces, n) + rest =~= rest);
        assert(column_series(traces, n, column) + rest =~= rest);
    } else if n == 1 {
        lemma_clause_placeholders(traces[0], rest, column);
    } else {
        let last = traces[n - 1];
        lemma_clause_placeholders(last, rest, column);
        {
            let clause = series_clause(last) + rest;
            let behind = " "@ + clause;
            assert(series_list(traces, n) + rest =~= series_list(traces, n - 1) + behind);
            lemma_series_placeholders(traces, n - 1, behind, column);
            lemma_occurrences_after(" "@, clause, p, 0);
        }
        if lacks(column, '$') {
            let clause = column_clause(last, column) + rest;
            let behind = " "@ + clause;
            assert(column_series(traces, n, column) + rest =~= column_series(
                traces,
                n - 1,
                column,
            ) + behind);
            lemma_series_placeholders(traces, n - 1, behind, column);
            lemma_occurrences_after(" "@, clause, p, 0);
        }
    }
}

/// The series of `n` traces whose paths and titles hold no dollar sign hold
/// `$COLUMN_IDX` exactly `n` times, once in the clause of each trace; and
/// once a column without a dollar sign is put in, none is left.
pub proof fn series_hold_one_placeholder_each(
    traces: Seq<TraceText>,
    n: int,
    column: Seq<char>,
)
    requires
        0 <= n <= traces.len(),
        plain_traces(traces, n),
        lacks(column, '$'),
    ensures
        occurrences(series_list(traces, n), "$COLUMN_IDX"@) == n,
        occurrences(replaced(series_list(traces, n), "$COLUMN_IDX"@, column), "$COLUMN_IDX"@)
            == 0,
{
    let empty = Seq::<char>::empty();
    reveal_strlit("$COLUMN_IDX");
    lemma_series_placeholders(traces, n, empty, column);
    series_with_column(traces, n, column);
    assert(series_list(traces, n) + empty =~= series_list(traces, n));
    assert(column_series(traces, n, column) + empty =~= column_series(traces, n, column));
}

/// The position at which the clause of trace `i` begins in the series.
pub open spec fn clause_start(traces: Seq<TraceText>, i: int, column: Seq<char>) -> int {
    if i <= 0 {
        0
    } else {
        (column_series(traces, i, column).len() + 1) as int
    }
}

/// The series of `n` traces hold the clause of each of them, whole and in
/// the order of the traces: that of trace `i` begins where the series of the
/// traces before it and one space end.
pub proof fn series_hold_each_clause(traces: Seq<TraceText>, n: int, column: Seq<char>, i: int)
    requires
        0 <= i < n <= traces.len(),
    ensures
        occurs_at(
            column_series(traces, n, column),
            clause_start(traces, i, column),
            column_clause(traces[i], column),
        ),
        i + 1 < n ==> clause_start(traces, i, column) + column_clause(traces[i], column).len()
            < clause_start(traces, i + 1, column),
    decreases n,
{
    reveal_strlit(" ");
    let whole = column_series(traces, n, column);
    let clause = column_clause(traces[i], column);
    let at = clause_start(traces, i, column);
    if i == n - 1 {
        assert(whole.subrange(at, at + clause.len()) =~= clause);
    } else {
        series_hold_each_clause(traces, n - 1, column, i);
        let shorter = column_series(traces, n - 1, column);
        assert(whole.subrange(at, at + clause.len()) =~= shorter.subrange(at, at + clause.len()));
    }
}

/// The text of a clause between the quoted path and the quoted title.
pub open spec fn clause_middle(column: Seq<char>) -> Seq<char> {
    " using ($0+1):"@ + column + " with linespoints title "@
}

/// How often `pattern` stands in the paths and titles of the first `n`
/// traces and in the text between them, clause by clause.
pub open spec fn clause_occurrences(
    traces: Seq<TraceText>,
    n: int,
    column: Seq<char>,
    pattern: Seq<char>,
) -> nat
    decreases n,
{
    if n <= 0 {
        0
    } else {
        clause_occurrences(traces, n - 1, column, pattern) + occurrences(
            traces[n - 1].path,
            pattern,
        ) + occurrences(clause_middle(column), pattern) + occurrences(
            traces[n - 1].title,
            pattern,
        )
    }
}

/// Counting a pattern without a quote in one clause that stands between
/// `before` and `rest`.
proof fn lemma_clause_count(
    trace: TraceText,
    column: Seq<char>,
    before: Seq<char>,
    rest: Seq<char>,
    pattern: Seq<char>,
)
    requires
        lacks(pattern, '"'),
    ensures
        occurrences(before + column_clause(trace, column) + rest, pattern) == occurrences(
            before,
            pattern,
        ) + occurrences(trace.path, pattern) + occurrences(clause_middle(column), pattern)
            + occurrences(trace.title, pattern) + occurrences(", "@ + rest, pattern),
{
    reveal_strlit("\"");
    reveal_strlit("\" using ($0+1):");
    reveal_strlit(" using ($0+1):");
    reveal_strlit(" with linespoints title \"");
    reveal_strlit(" with linespoints title ");
    reveal_strlit("\", ");
    reveal_strlit(", ");
    let quote = seq!['"'];
    let x4 = ", "@ + rest;
    let x3 = trace.title + quote + x4;
    let x2 = clause_middle(column) + quote + x3;
    let x1 = trace.path + quote + x2;
    assert("\" using ($0+1):"@ =~= quote + " using ($0+1):"@);
    assert(" with linespoints title \""@ =~= " with linespoints title "@ + quote);
    assert("\", "@ =~= quote + ", "@);
    assert(before + column_clause(trace, column) + rest =~= before + quote + x1);
    lemma_occurrences_split(before, '"', x1, pattern);
    lemma_occurrences_split(trace.path, '"', x2, pattern);
    lemma_occurrences_split(clause_middle(column), '"', x3, pattern);
    lemma_occurrences_split(trace.title, '"', x4, pattern);
}

proof fn lemma_series_count(
    traces: Seq<TraceText>,
    n: int,
    column: Seq<char>,
    rest: Seq<char>,
    pattern: Seq<char>,
)
    requires
        1 <= n <= traces.len(),
        lacks(pattern, '"'),
        pattern.len() >= 4,
    ensures
        occurrences(column_series(traces, n, column) + rest, pattern) == clause_occurrences(
            traces,
            n,
            column,
            pattern,
        ) + occurrences(", "@ + rest, pattern),
    decreases n,
{
    let empty = Seq::<char>::empty();
    reveal_strlit(", ");
    reveal_strlit(" ");
    if n == 1 {
        assert(column_series(traces, n, column) + rest =~= empty + column_clause(
            traces[0],
            column,
        ) + rest);
        lemma_clause_count(traces[0], column, empty, rest, pattern);
        assert(occurrences(empty, pattern) == 0);
        assert(clause_occurrences(traces, 0, column, pattern) == 0);
    } else {
        let last = traces[n - 1];
        let behind = " "@ + column_clause(last, column) + rest;
        assert(column_series(traces, n, column) + rest =~= column_series(traces, n - 1, column)
            + behind);
        lemma_series_count(traces, n - 1, column, behind, pattern);
        let gap = ", "@ + " "@;
        assert(", "@ + behind =~= gap + column_clause(last, column) + rest);
        lemma_clause_count(last, column, gap, rest, pattern);
        assert(gap.len() == 3);
        assert(occurrences(gap, pattern) == 0);
    }
}

/// A pattern of four or more characters without a quote stands in the series
/// as often as in the paths and titles of the traces and in the text between
/// path and title of each clause, taken together: it never reaches across a
/// quote or from one clause into the next.
pub proof fn series_count(
    traces: Seq<TraceText>,
    n: int,
    column: Seq<char>,
    pattern: Seq<char>,
)
    requires
        0 <= n <= traces.len(),
        lacks(pattern, '"'),
        pattern.len() >= 4,
    ensures
        occurrences(column_series(traces, n, column), pattern) == clause_occurrences(
            traces,
            n,
            column,
            pattern,
        ),
{
    let empty = Seq::<char>::empty();
    reveal_strlit(", ");
    if n >= 1 {
        lemma_series_count(traces, n, column, empty, pattern);
        assert(column_series(traces, n, column) + empty =~= column_series(traces, n, column));
    }
}

/// Whether `pattern` stands in neither the path nor the title of any of the
/// first `n` traces.
pub open spec fn traces_lack(traces: Seq<TraceText>, n: int, pattern: Seq<char>) -> bool {
    forall|i: int|
        0 <= i < n ==> occurrences((#[trigger] traces[i]).path, pattern) == 0 && occurrences(
            traces[i].title,
            pattern,
        ) == 0
}

proof fn lemma_clause_occurrences(
    traces: Seq<TraceText>,
    n: int,
    column: Seq<char>,
    pattern: Seq<char>,
)
    requires
        0 <= n <= traces.len(),
        traces_lack(traces, n, pattern),
        occurrences(clause_middle(column), pattern) == 1,
    ensures
        clause_occurrences(traces, n, column, pattern) == n,
    decreases n,
{
    if n > 0 {
        lemma_clause_occurrences(traces, n - 1, column, pattern);
    }
}

/// In the series of `n` traces, the words ` using (` stand exactly `n`
/// times and the words ` with linespoints title ` exactly `n` times, once in
/// each clause, where neither stands in a path or a title and the column
/// holds neither a bracket nor the letter `w`.
pub proof fn series_hold_their_words_once_each(traces: Seq<TraceText>, n: int, column: Seq<char>)
    requires
        0 <= n <= traces.len(),
        traces_lack(traces, n, " using ("@),
        traces_lack(traces, n, " with linespoints title "@),
        lacks(column, '('),
        lacks(column, 'w'),
    ensures
        occurrences(column_series(traces, n, column), " using ("@) == n,
        occurrences(column_series(traces, n, column), " with linespoints title "@) == n,
{
    let using = " using ("@;
    let with = " with linespoints title "@;
    let middle = clause_middle(column);
    reveal_strlit(" using (");
    reveal_strlit(" using ($0+1):");
    reveal_strlit(" with linespoints title ");
    reveal_strlit("$0+1):");
    let empty = Seq::<char>::empty();
    assert(occurrences(middle, using) == 1) by {
        let y = "$0+1):"@ + column + with;
        assert(middle =~= using + y);
        lemma_occurrences_at_head(using, y);
        let a = using.skip(1) + y;
        assert forall|k: int| 7 <= k < a.len() + 7 && k < (a + empty).len() implies (a
            + empty)[k] != using[7] by {
            if k < 13 {
            } else if k < 13 + column.len() {
                assert(a[k] == column[k - 13]);
            } else {
                assert(a[k] == with[k - 13 - column.len()]);
            }
        }
        lemma_occurrences_after(a, empty, using, 7);
        assert(a + empty =~= a);
    }
    assert(occurrences(middle, with) == 1) by {
        let a = " using ($0+1):"@ + column;
        assert(middle =~= a + with);
        assert forall|k: int| 1 <= k < a.len() + 1 && k < (a + with).len() implies (a + with)[k]
            != with[1] by {
            if k < 14 {
            } else if k < a.len() {
                assert(a[k] == column[k - 14]);
            }
        }
        lemma_occurrences_after(a, with, with, 1);
        lemma_occurrences_at_head(with, empty);
        assert(with + empty =~= with);
    }
    series_count(traces, n, column, using);
    series_count(traces, n, column, with);
    lemma_clause_occurrences(traces, n, column, using);
    lemma_clause_occurrences(traces, n, column, with);
}

/// For traces whose paths and titles hold no dollar sign, putting the number
/// of a column into the series gives one clause per trace that plots the row
/// number against that column: the text is that of the clauses with the
/// number in place, the row number against the column stands in it once for
/// each trace, and no `$COLUMN_IDX` is left.
pub proof fn series_of_a_column(traces: Seq<TraceText>, n: int, column: nat)
    requires
        0 <= n <= traces.len(),
        plain_traces(traces, n),
    ensures
        replaced(series_list(traces, n), "$COLUMN_IDX"@, decimal_text(column)) == column_series(
            traces,
            n,
            decimal_text(column),
        ),
        occurrences(
            replaced(series_list(traces, n), "$COLUMN_IDX"@, decimal_text(column)),
            column_use(decimal_text(column)),
        ) == n,
        occurrences(
            replaced(series_list(traces, n), "$COLUMN_IDX"@, decimal_text(column)),
            "$COLUMN_IDX"@,
        ) == 0,
{
    lemma_decimal_text_lacks(column, '$');
    series_with_column(traces, n, decimal_text(column));
    series_use_the_column(traces, n, decimal_text(column));
    series_hold_one_placeholder_each(traces, n, decimal_text(column));
}

} // verus!
