//! Plot scripts: one per metric, each drawing one series per trace.

use vstd::prelude::*;
use vstd::string::StringExecFns;
use crate::cumulative::ACCESSED_HOST_PAGES_COL_IDX;
use crate::cumulative::DIRTIED_HOST_PAGES_COL_IDX;
use crate::cumulative::INSTRUCTIONS_COL_IDX;
use crate::decimal::decimal_text;
use crate::decimal::format_u64;
use crate::text::replace_all;
use crate::text::replaced;

verus! {

/// The script handed to gnuplot. `$PLOTS` stands for the series, `$COLUMN_IDX`
/// for the plotted column and `$YLABEL` for the label of the y axis.
pub const GNUPLOT_TEMPLATE: &'static str = r###"
set terminal png notransparent rounded giant font "JetBrains Mono" 24 \
  size 1200,960 

set xtics nomirror
set ytics nomirror

set style line 80 lt 0 lc rgb "#808080"

set border 3 back ls 80 

set style line 81 lt 0 lc rgb "#808080" lw 0.5

set grid xtics
set grid ytics
set grid mxtics
set grid mytics

set grid back ls 81

set style line 1 lt 1 lc rgb "#A00000" lw 2 pt 7 ps 1.5
set style line 2 lt 1 lc rgb "#00A000" lw 2 pt 11 ps 1.5
set style line 3 lt 1 lc rgb "#5060D0" lw 2 pt 9 ps 1.5
set style line 4 lt 1 lc rgb "#0000A0" lw 2 pt 8 ps 1.5
set style line 5 lt 1 lc rgb "#D0D000" lw 2 pt 13 ps 1.5
set style line 6 lt 1 lc rgb "#00D0D0" lw 2 pt 12 ps 1.5
set style line 7 lt 1 lc rgb "#B200B2" lw 2 pt 5 ps 1.5

set datafile separator ','

set xlabel "call"
set ylabel "$YLABEL"

set xrange [0:1000]

plot $PLOTS
"###;

/// Number of plotted metrics.
pub const METRIC_COUNT: usize = 7;

/// A plotted metric: its name and the column that holds it, counted from one.
pub struct Metric {
    pub name: &'static str,
    pub column: usize,
}

/// A transformed trace as a plot reads it: the path of its file and the title
/// of its series.
pub struct Trace {
    pub path: String,
    pub title: String,
}

/// What a trace holds: its path and its title as text.
pub ghost struct TraceText {
    pub path: Seq<char>,
    pub title: Seq<char>,
}

impl View for Trace {
    type V = TraceText;

    open spec fn view(&self) -> TraceText {
        TraceText { path: self.path@, title: self.title@ }
    }
}

/// One plot to render: the metric's name, the script for gnuplot and the
/// name of the image file.
pub struct PlotJob {
    pub name: String,
    pub file_name: String,
    pub script: String,
}

/// The name of metric `i` of the catalog.
pub open spec fn metric_name(i: int) -> Seq<char> {
    if i == 0 {
        "instructions"@
    } else if i == 1 {
        "accessed_host_pages"@
    } else if i == 2 {
        "dirtied_host_pages"@
    } else if i == 3 {
        "total_Wasm_pages_in_use"@
    } else if i == 4 {
        "total_instructions"@
    } else if i == 5 {
        "total_accessed_host_pages"@
    } else {
        "total_dirtied_host_pages"@
    }
}

/// The column of metric `i` of the catalog, counted from one: the three
/// tracked columns, the Wasm pages in use, then the three running totals.
pub open spec fn metric_column(i: int) -> nat {
    if i == 0 {
        INSTRUCTIONS_COL_IDX as nat
    } else if i == 1 {
        ACCESSED_HOST_PAGES_COL_IDX as nat
    } else if i == 2 {
        DIRTIED_HOST_PAGES_COL_IDX as nat
    } else if i == 3 {
        6
    } else if i == 4 {
        7
    } else if i == 5 {
        8
    } else {
        9
    }
}

/// The views of a list of traces, in order.
pub open spec fn trace_texts(traces: Seq<Trace>) -> Seq<TraceText> {
    Seq::new(traces.len(), |i: int| traces[i]@)
}

/// The series of one trace that plots `column`: its file, the row number
/// against the column, points joined by lines, and its title in the legend.
pub open spec fn column_clause(trace: TraceText, column: Seq<char>) -> Seq<char> {
    "\""@ + trace.path + "\" using ($0+1):"@ + column + " with linespoints title \""@
        + trace.title + "\", "@
}

/// The series of the first `n` traces that plot `column`, in order, with one
/// space between two of them.
pub open spec fn column_series(traces: Seq<TraceText>, n: int, column: Seq<char>) -> Seq<char>
    decreases n,
{
    if n <= 0 {
        Seq::empty()
    } else if n == 1 {
        column_clause(traces[0], column)
    } else {
        column_series(traces, n - 1, column) + " "@ + column_clause(traces[n - 1], column)
    }
}

/// The series of one trace for the template, with `$COLUMN_IDX` where the
/// column goes.
pub open spec fn series_clause(trace: TraceText) -> Seq<char> {
    column_clause(trace, "$COLUMN_IDX"@)
}

/// The series of the first `n` traces for the template.
pub open spec fn series_list(traces: Seq<TraceText>, n: int) -> Seq<char> {
    column_series(traces, n, "$COLUMN_IDX"@)
}

/// The label of the y axis for a metric: its name with spaces for underscores.
pub open spec fn axis_label(name: Seq<char>) -> Seq<char> {
    replaced(name, "_"@, " "@)
}

/// The script for one metric: the template with the series, then the column,
/// then the axis label put in, in this order.
pub open spec fn script_text(traces: Seq<TraceText>, name: Seq<char>, column: nat) -> Seq<char> {
    replaced(
        replaced(
            replaced(GNUPLOT_TEMPLATE@, "$PLOTS"@, series_list(traces, traces.len() as int)),
            "$COLUMN_IDX"@,
            decimal_text(column),
        ),
        "$YLABEL"@,
        axis_label(name),
    )
}

/// The name of the image file of a metric.
pub open spec fn image_name(name: Seq<char>) -> Seq<char> {
    name + ".png"@
}

/// Metric `i` of the catalog.
pub fn metric(i: usize) -> (m: Metric)
    requires
        i < METRIC_COUNT,
    ensures
        m.name@ == metric_name(i as int),
        m.column == metric_column(i as int),
{
    if i == 0 {
        Metric { name: "instructions", column: INSTRUCTIONS_COL_IDX }
    } else if i == 1 {
        Metric { name: "accessed_host_pages", column: ACCESSED_HOST_PAGES_COL_IDX }
    } else if i == 2 {
        Metric { name: "dirtied_host_pages", column: DIRTIED_HOST_PAGES_COL_IDX }
    } else if i == 3 {
        Metric { name: "total_Wasm_pages_in_use", column: 6 }
    } else if i == 4 {
        Metric { name: "total_instructions", column: 7 }
    } else if i == 5 {
        Metric { name: "total_accessed_host_pages", column: 8 }
    } else {
        Metric { name: "total_dirtied_host_pages", column: 9 }
    }
}

/// The series of all traces for the template: one clause per trace, in the
/// order of the list. The column is left as `$COLUMN_IDX`.
pub fn plot_defs(traces: &Vec<Trace>) -> (defs: String)
    ensures
        defs@ == series_list(trace_texts(traces@), traces@.len() as int),
{
    let mut defs = String::new();
    let mut i: usize = 0;
    let ghost texts = trace_texts(traces@);
    while i < traces.len()
        invariant
            i <= traces.len(),
            texts == trace_texts(traces@),
            defs@ == series_list(texts, i as int),
        decreases traces.len() - i,
    {
        let ghost before = defs@;
        if i > 0 {
            defs.append(" ");
        }
        defs.append("\"");
        defs.append(traces[i].path.as_str());
        defs.append("\" using ($0+1):");
        defs.append("$COLUMN_IDX");
        defs.append(" with linespoints title \"");
        defs.append(traces[i].title.as_str());
        defs.append("\", ");
        assert(texts[i as int] == traces@[i as int]@);
        assert(defs@ =~= (if i > 0 {
            before + " "@
        } else {
            before
        }) + series_clause(texts[i as int]));
        i = i + 1;
    }
    defs
}

/// The script that plots column `metric.column` of every trace.
pub fn gnuplot_script(traces: &Vec<Trace>, metric: &Metric) -> (script: String)
    ensures
        script@ == script_text(trace_texts(traces@), metric.name@, metric.column as nat),
{
    let defs = plot_defs(traces);
    let column = format_u64(metric.column as u64);
    let label = replace_all(metric.name, "_", " ");
    let with_plots = replace_all(GNUPLOT_TEMPLATE, "$PLOTS", defs.as_str());
    let with_column = replace_all(with_plots.as_str(), "$COLUMN_IDX", column.as_str());
    replace_all(with_column.as_str(), "$YLABEL", label.as_str())
}

/// The plots to render, one per metric of the catalog and in its order.
pub fn plot_jobs(traces: &Vec<Trace>) -> (jobs: Vec<PlotJob>)
    ensures
        jobs@.len() == METRIC_COUNT,
        forall|i: int|
            0 <= i < METRIC_COUNT ==> {
                &&& (#[trigger] jobs@[i]).name@ == metric_name(i)
                &&& jobs@[i].file_name@ == image_name(metric_name(i))
                &&& jobs@[i].script@ == script_text(
                    trace_texts(traces@),
                    metric_name(i),
                    metric_column(i),
                )
            },
{
    let mut jobs: Vec<PlotJob> = Vec::new();
    let mut i: usize = 0;
    while i < METRIC_COUNT
        invariant
            i <= METRIC_COUNT,
            jobs@.len() == i,
            forall|j: int|
                0 <= j < i ==> {
                    &&& (#[trigger] jobs@[j]).name@ == metric_name(j)
                    &&& jobs@[j].file_name@ == image_name(metric_name(j))
                    &&& jobs@[j].script@ == script_text(
                        trace_texts(traces@),
                        metric_name(j),
                        metric_column(j),
                    )
                },
        decreases METRIC_COUNT - i,
    {
        let m = metric(i);
        let script = gnuplot_script(traces, &m);
        let file_name = String::from_str(m.name).concat(".png");
        jobs.push(PlotJob { name: String::from_str(m.name), file_name, script });
        i = i + 1;
    }
    jobs
}

/// Two series of the same file with different titles are different text.
pub proof fn series_differ_by_title(a: TraceText, b: TraceText)
    requires
        a.path == b.path,
        a.title != b.title,
    ensures
        series_clause(a) != series_clause(b),
{
    let head = "\""@ + a.path + "\" using ($0+1):"@ + "$COLUMN_IDX"@
        + " with linespoints title \""@;
    let tail = "\", "@;
    if series_clause(a) == series_clause(b) {
        assert(series_clause(a) == head + a.title + tail);
        assert(series_clause(b) == head + b.title + tail);
        assert(a.title.len() == b.title.len()) by {
            assert((head + a.title + tail).len() == (head + b.title + tail).len());
        }
        assert forall|k: int| 0 <= k < a.title.len() implies a.title[k] == b.title[k] by {
            assert((head + a.title + tail)[head.len() + k] == a.title[k]);
            assert((head + b.title + tail)[head.len() + k] == b.title[k]);
        }
        assert(a.title =~= b.title);
    }
}

/// The scripts depend on nothing but the paths and titles of the traces as
/// text, the metric's name and its column: two lists of traces that hold the
/// same text give the same series and the same script.
pub proof fn scripts_depend_on_text(
    first: Seq<Trace>,
    second: Seq<Trace>,
    name: Seq<char>,
    column: nat,
)
    requires
        first.len() == second.len(),
        forall|i: int| 0 <= i < first.len() ==> (#[trigger] first[i])@ == second[i]@,
    ensures
        series_list(trace_texts(first), first.len() as int) == series_list(
            trace_texts(second),
            second.len() as int,
        ),
        script_text(trace_texts(first), name, column) == script_text(
            trace_texts(second),
            name,
            column,
        ),
{
    assert(trace_texts(first) =~= trace_texts(second));
}

} // verus!
