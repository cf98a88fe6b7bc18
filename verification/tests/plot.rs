use perf_plots::cumulative::add_cumulative_columns;
use perf_plots::plot::gnuplot_script;
use perf_plots::plot::metric;
use perf_plots::plot::plot_defs;
use perf_plots::plot::plot_jobs;
use perf_plots::plot::Trace;
use perf_plots::plot::GNUPLOT_TEMPLATE;
use perf_plots::plot::METRIC_COUNT;

fn trace(path: &str, title: &str) -> Trace {
    Trace { path: path.to_string(), title: title.to_string() }
}

fn two_traces() -> Vec<Trace> {
    vec![trace("/tmp/one.csv", "Simple scheduling"), trace("/tmp/two.csv", "Smart scheduling")]
}

#[test]
fn catalog_lists_seven_metrics_in_order() {
    assert_eq!(METRIC_COUNT, 7);
    let expected = [
        ("instructions", 3),
        ("accessed_host_pages", 4),
        ("dirtied_host_pages", 5),
        ("total_Wasm_pages_in_use", 6),
        ("total_instructions", 7),
        ("total_accessed_host_pages", 8),
        ("total_dirtied_host_pages", 9),
    ];
    for (i, (name, column)) in expected.iter().enumerate() {
        let m = metric(i);
        assert_eq!(m.name, *name);
        assert_eq!(m.column, *column);
    }
}

#[test]
fn plot_defs_of_no_trace_is_empty() {
    assert_eq!(plot_defs(&Vec::new()), "");
}

#[test]
fn plot_defs_of_one_trace() {
    assert_eq!(
        plot_defs(&vec![trace("f.csv", "F")]),
        "\"f.csv\" using ($0+1):$COLUMN_IDX with linespoints title \"F\", "
    );
}

#[test]
fn plot_defs_joins_series_in_order() {
    assert_eq!(
        plot_defs(&two_traces()),
        "\"/tmp/one.csv\" using ($0+1):$COLUMN_IDX with linespoints title \"Simple scheduling\",  \
         \"/tmp/two.csv\" using ($0+1):$COLUMN_IDX with linespoints title \"Smart scheduling\", "
    );
}

#[test]
fn script_for_total_instructions_has_two_series_on_column_seven() {
    let script = gnuplot_script(&two_traces(), &metric(4));
    assert_eq!(script.matches("using ($0+1):7 with linespoints").count(), 2);
    assert!(script.contains("\"/tmp/one.csv\" using ($0+1):7 with linespoints title \"Simple scheduling\", "));
    assert!(script.contains("\"/tmp/two.csv\" using ($0+1):7 with linespoints title \"Smart scheduling\", "));
    assert!(script.contains("set ylabel \"total instructions\"\n"));
    assert!(!script.contains("$PLOTS"));
    assert!(!script.contains("$COLUMN_IDX"));
    assert!(!script.contains("$YLABEL"));
}

#[test]
fn script_is_the_template_with_three_substitutions() {
    let traces = two_traces();
    let m = metric(1);
    let expected = GNUPLOT_TEMPLATE
        .replace("$PLOTS", &plot_defs(&traces))
        .replace("$COLUMN_IDX", "4")
        .replace("$YLABEL", "accessed host pages");
    assert_eq!(gnuplot_script(&traces, &m), expected);
    assert!(expected.ends_with("title \"Smart scheduling\", \n"));
    assert!(expected.contains("size 1200,960"));
    assert!(expected.contains("set xrange [0:1000]"));
    assert!(expected.contains("set xlabel \"call\""));
}

#[test]
fn substitutions_reach_into_titles() {
    let traces = vec![trace("p", "col $COLUMN_IDX of $YLABEL")];
    let script = gnuplot_script(&traces, &metric(0));
    assert!(script.contains("title \"col 3 of instructions\", "));
}

#[test]
fn jobs_follow_the_catalog() {
    let traces = two_traces();
    let jobs = plot_jobs(&traces);
    assert_eq!(jobs.len(), 7);
    let names: Vec<&str> = jobs.iter().map(|j| j.file_name.as_str()).collect();
    assert_eq!(
        names,
        vec![
            "instructions.png",
            "accessed_host_pages.png",
            "dirtied_host_pages.png",
            "total_Wasm_pages_in_use.png",
            "total_instructions.png",
            "total_accessed_host_pages.png",
            "total_dirtied_host_pages.png"
        ]
    );
    for (i, job) in jobs.iter().enumerate() {
        assert_eq!(job.name, metric(i).name);
        assert_eq!(job.script, gnuplot_script(&traces, &metric(i)));
    }
    assert!(jobs[3].script.contains("set ylabel \"total Wasm pages in use\"\n"));
    assert!(jobs[6].script.contains("using ($0+1):9 with"));
}

#[test]
fn equal_traces_differ_only_in_their_titles() {
    let data = b"a,b,i,p,d,w\nx,y,10,1,0,5\nx,y,20,2,1,6\n";
    let first = add_cumulative_columns(data).unwrap();
    let second = add_cumulative_columns(data).unwrap();
    assert_eq!(first, second);
    let defs = plot_defs(&vec![trace("t.csv", "Simple scheduling"), trace("t.csv", "Smart scheduling")]);
    let clauses: Vec<&str> = defs.split(",  ").collect();
    assert_eq!(clauses.len(), 2);
    assert_ne!(clauses[0], clauses[1].trim_end_matches(", "));
    assert!(clauses[0].ends_with("title \"Simple scheduling\""));
    assert!(clauses[1].ends_with("title \"Smart scheduling\", "));
}

#[test]
fn scripts_are_the_same_twice() {
    let first = plot_jobs(&two_traces());
    let second = plot_jobs(&two_traces());
    for i in 0..7 {
        assert_eq!(first[i].file_name, second[i].file_name);
        assert_eq!(first[i].script, second[i].script);
    }
}

#[test]
fn each_series_holds_the_placeholder_once() {
    let defs = plot_defs(&two_traces());
    assert_eq!(defs.matches("$COLUMN_IDX").count(), 2);
    assert_eq!(defs.matches("($0+1):$COLUMN_IDX").count(), 2);
    assert_eq!(defs.matches(" using (").count(), 2);
    assert_eq!(defs.matches(" with linespoints title ").count(), 2);
    assert!(defs.starts_with("\"/tmp/one.csv\" using ("));
    assert_eq!(defs.find("\"/tmp/two.csv\" using ("), Some(defs.find(",  ").unwrap() + 3));
}

#[test]
fn series_with_the_column_put_in() {
    let s = plot_defs(&two_traces()).replace("$COLUMN_IDX", "7");
    assert_eq!(
        s,
        "\"/tmp/one.csv\" using ($0+1):7 with linespoints title \"Simple scheduling\",  \
         \"/tmp/two.csv\" using ($0+1):7 with linespoints title \"Smart scheduling\", "
    );
    assert_eq!(s.matches("($0+1):7").count(), 2);
    assert_eq!(s.matches("$COLUMN_IDX").count(), 0);
}
