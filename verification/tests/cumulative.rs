use perf_plots::codec::parse_table;
use perf_plots::codec::write_table;
use perf_plots::cumulative::add_cumulative_columns;
use perf_plots::cumulative::append_totals;
use perf_plots::error::TransformError;
use perf_plots::record::Table;

fn record(fields: &[&str]) -> csv::StringRecord {
    csv::StringRecord::from(fields.to_vec())
}

fn table(header: &[&str], rows: &[&[&str]]) -> Table {
    Table { headers: record(header), records: rows.iter().map(|r| record(r)).collect() }
}

fn fields(record: &csv::StringRecord) -> Vec<String> {
    record.iter().map(|f| f.to_string()).collect()
}

fn text(bytes: Vec<u8>) -> String {
    String::from_utf8(bytes).unwrap()
}

#[test]
fn two_rows_gain_running_totals() {
    let input = "a,b,i,p,d,w\nx,y,10,1,0,5\nx,y,20,2,1,6\n";
    let output = text(add_cumulative_columns(input.as_bytes()).unwrap());
    assert_eq!(
        output,
        "a,b,i,p,d,w,total instructions,total accessed host pages,total dirtied host pages\n\
         x,y,10,1,0,5,10,1,0\n\
         x,y,20,2,1,6,30,3,1\n"
    );
}

#[test]
fn totals_are_sums_of_rows_so_far() {
    let t = table(
        &["a", "b", "i", "p", "d"],
        &[&["r", "s", "5", "7", "11"], &["r", "s", "0", "1", "2"], &["r", "s", "100", "0", "3"]],
    );
    let out = append_totals(t).unwrap();
    assert_eq!(out.records.len(), 3);
    assert_eq!(fields(&out.records[0]), vec!["r", "s", "5", "7", "11", "5", "7", "11"]);
    assert_eq!(fields(&out.records[1]), vec!["r", "s", "0", "1", "2", "5", "8", "13"]);
    assert_eq!(fields(&out.records[2]), vec!["r", "s", "100", "0", "3", "105", "8", "16"]);
}

#[test]
fn totals_never_decrease_down_the_rows() {
    let t = table(
        &["a", "b", "i", "p", "d"],
        &[&["", "", "3", "0", "9"], &["", "", "0", "0", "0"], &["", "", "4", "2", "1"]],
    );
    let out = append_totals(t).unwrap();
    for col in 5..8 {
        let mut last: u64 = 0;
        for r in out.records.iter() {
            let v: u64 = r.get(col).unwrap().parse().unwrap();
            assert!(v >= last);
            last = v;
        }
    }
}

#[test]
fn rows_keep_their_fields_and_order() {
    let t = table(
        &["h1", "h2", "h3", "h4", "h5", "h6", "h7"],
        &[&["b", "a", "1", "2", "3", "w", "z"], &["a", "b", "4", "5", "6", "", "q,r"]],
    );
    let out = append_totals(t).unwrap();
    assert_eq!(out.records.len(), 2);
    assert_eq!(out.records[0].len(), 10);
    assert_eq!(out.records[1].len(), 10);
    assert_eq!(fields(&out.records[0])[..7], ["b", "a", "1", "2", "3", "w", "z"]);
    assert_eq!(fields(&out.records[1])[..7], ["a", "b", "4", "5", "6", "", "q,r"]);
    assert_eq!(fields(&out.records[1])[7..], ["5", "7", "9"]);
}

#[test]
fn header_gains_the_three_labels() {
    let t = table(&["a", "b", "i", "p", "d", "w"], &[]);
    let out = append_totals(t).unwrap();
    assert_eq!(
        fields(&out.headers),
        vec![
            "a",
            "b",
            "i",
            "p",
            "d",
            "w",
            "total instructions",
            "total accessed host pages",
            "total dirtied host pages"
        ]
    );
    assert_eq!(out.records.len(), 0);
}

#[test]
fn empty_input_gives_only_the_labels() {
    let output = text(add_cumulative_columns(b"").unwrap());
    assert_eq!(output, "total instructions,total accessed host pages,total dirtied host pages\n");
}

#[test]
fn header_alone_gives_header_alone() {
    let output = text(add_cumulative_columns(b"a,b,i,p,d\n").unwrap());
    assert_eq!(
        output,
        "a,b,i,p,d,total instructions,total accessed host pages,total dirtied host pages\n"
    );
}

#[test]
fn row_without_instructions_column_is_refused() {
    let t = table(&["a", "b"], &[&["x", "y"]]);
    match append_totals(t) {
        Err(TransformError::Message(m)) => {
            assert_eq!(m, "CSV record doesn't have enough columns")
        }
        _ => panic!("expected a message"),
    }
    let r = add_cumulative_columns(b"a,b\nx,y\n");
    assert!(matches!(r, Err(TransformError::Message(_))));
}

#[test]
fn non_integer_instructions_are_refused() {
    let r = add_cumulative_columns(b"a,b,i,p,d\nx,y,ten,1,0\n");
    assert!(matches!(r, Err(TransformError::IntParse { row: 0, column: 3 })));
}

#[test]
fn non_integer_accessed_pages_are_refused() {
    let r = add_cumulative_columns(b"a,b,i,p,d\nx,y,10,1,0\nx,y,10,-1,0\n");
    assert!(matches!(r, Err(TransformError::IntParse { row: 1, column: 4 })));
}

#[test]
fn non_integer_dirtied_pages_are_refused() {
    let r = add_cumulative_columns(b"a,b,i,p,d\nx,y,10,1,0.5\n");
    assert!(matches!(r, Err(TransformError::IntParse { row: 0, column: 5 })));
}

#[test]
fn absent_accessed_and_dirtied_columns_are_refused() {
    let three = table(&["a", "b", "i"], &[&["x", "y", "10"]]);
    assert!(matches!(append_totals(three), Err(TransformError::IntParse { row: 0, column: 4 })));
    let four = table(&["a", "b", "i", "p"], &[&["x", "y", "10", "1"]]);
    assert!(matches!(append_totals(four), Err(TransformError::IntParse { row: 0, column: 5 })));
}

#[test]
fn first_fault_is_the_one_reported() {
    let t = table(
        &["a", "b", "i", "p", "d"],
        &[&["x", "y", "1", "1", "1"], &["x", "y", "1", "1", "?"], &["x", "y", "?", "1", "1"]],
    );
    assert!(matches!(append_totals(t), Err(TransformError::IntParse { row: 1, column: 5 })));
    let u = table(&["a", "b", "i", "p", "d"], &[&["x", "y", "?", "?", "?"]]);
    assert!(matches!(append_totals(u), Err(TransformError::IntParse { row: 0, column: 3 })));
}

#[test]
fn total_past_64_bits_is_refused() {
    let t = table(
        &["a", "b", "i", "p", "d"],
        &[&["x", "y", "18446744073709551615", "1", "1"], &["x", "y", "0", "1", "1"]],
    );
    let out = append_totals(t).unwrap();
    assert_eq!(out.records[1].get(5), Some("18446744073709551615"));
    let u = table(
        &["a", "b", "i", "p", "d"],
        &[&["x", "y", "1", "18446744073709551615", "1"], &["x", "y", "0", "1", "1"]],
    );
    assert!(matches!(append_totals(u), Err(TransformError::Overflow { row: 1, column: 4 })));
    let v = table(&["a", "b", "i", "p", "d"], &[&["x", "y", "18446744073709551616", "1", "1"]]);
    assert!(matches!(append_totals(v), Err(TransformError::IntParse { row: 0, column: 3 })));
}

#[test]
fn bad_text_is_reported_before_a_total_past_64_bits() {
    let t = table(
        &["a", "b", "i", "p", "d"],
        &[
            &["x", "y", "18446744073709551615", "1", "1"],
            &["x", "y", "1", "1", "1"],
            &["x", "y", "1", "abc", "1"],
        ],
    );
    assert!(matches!(append_totals(t), Err(TransformError::IntParse { row: 2, column: 4 })));
    let u = table(
        &["a", "b", "i", "p", "d"],
        &[&["x", "y", "18446744073709551615", "1", "1"], &["x", "y", "1", "1", ""]],
    );
    assert!(matches!(append_totals(u), Err(TransformError::IntParse { row: 1, column: 5 })));
    let r = add_cumulative_columns(
        b"a,b,i,p,d\nx,y,1,18446744073709551615,0\nx,y,1,1,0\nx,y,-1,1,0\n",
    );
    assert!(matches!(r, Err(TransformError::IntParse { row: 2, column: 3 })));
}

#[test]
fn first_total_past_64_bits_is_the_one_reported() {
    let t = table(
        &["a", "b", "i", "p", "d"],
        &[
            &["x", "y", "1", "18446744073709551615", "18446744073709551615"],
            &["x", "y", "1", "0", "1"],
            &["x", "y", "18446744073709551615", "1", "1"],
        ],
    );
    assert!(matches!(append_totals(t), Err(TransformError::Overflow { row: 1, column: 5 })));
    let u = table(
        &["a", "b", "i", "p", "d"],
        &[&["x", "y", "18446744073709551615", "18446744073709551615", "1"], &["x", "y", "1", "1", "1"]],
    );
    assert!(matches!(append_totals(u), Err(TransformError::Overflow { row: 1, column: 3 })));
}

#[test]
fn errors_are_made_from_their_causes() {
    let e = TransformError::from(String::from("row has too few columns"));
    assert!(matches!(e, TransformError::Message(ref m) if m == "row has too few columns"));
    let cause = csv::Reader::from_reader(&b"a,b\n1\n"[..]).records().next().unwrap().unwrap_err();
    assert!(matches!(TransformError::from(cause), TransformError::Csv(_)));
}

#[test]
fn rows_of_unequal_length_are_refused_by_the_reader() {
    let r = add_cumulative_columns(b"a,b,i,p,d\nx,y,1,2,3\nx,y,1,2\n");
    assert!(matches!(r, Err(TransformError::Csv(_))));
}

#[test]
fn bytes_that_are_not_text_are_refused_by_the_reader() {
    let r = add_cumulative_columns(b"a,b,i,p,d\nx,\xff,1,2,3\n");
    assert!(matches!(r, Err(TransformError::Csv(_))));
}

#[test]
fn parse_table_reads_header_and_rows() {
    let t = parse_table(b"a,b\n1,\"x,y\"\n\n3,4\n").unwrap();
    assert_eq!(fields(&t.headers), vec!["a", "b"]);
    assert_eq!(t.records.len(), 2);
    assert_eq!(fields(&t.records[0]), vec!["1", "x,y"]);
    assert_eq!(fields(&t.records[1]), vec!["3", "4"]);
}

#[test]
fn write_table_writes_header_then_rows() {
    let t = table(&["a", "b"], &[&["1", "x,y"], &["", "q\"r"]]);
    assert_eq!(text(write_table(&t).unwrap()), "a,b\n1,\"x,y\"\n,\"q\"\"r\"\n");
}

#[test]
fn write_table_refuses_rows_of_unequal_length() {
    let t = table(&["a", "b"], &[&["1"]]);
    assert!(matches!(write_table(&t), Err(TransformError::Csv(_))));
    let u = table(&["a", "b"], &[&["1", "2"], &["1", "2", "3"]]);
    assert!(matches!(write_table(&u), Err(TransformError::Csv(_))));
    let v = table(&[], &[&["1"]]);
    assert!(matches!(write_table(&v), Err(TransformError::Csv(_))));
}

#[test]
fn write_table_accepts_every_table_of_equal_lengths() {
    assert_eq!(text(write_table(&table(&["a"], &[])).unwrap()), "a\n");
    assert_eq!(text(write_table(&table(&[], &[&[], &[]])).unwrap()), "\"\"\n\"\"\n\"\"\n");
    assert_eq!(text(write_table(&table(&[""], &[&[""]])).unwrap()), "\"\"\n\"\"\n");
    assert_eq!(text(write_table(&table(&["a", "b"], &[&["\n", "\u{e9}"]])).unwrap()), "a,b\n\"\n\",\u{e9}\n");
}

#[test]
fn parsed_rows_have_the_length_of_the_header() {
    let t = parse_table(b"a,b,c\n1,2,3\n,,\n\"x\",\"y\",z\n").unwrap();
    assert_eq!(t.headers.len(), 3);
    assert_eq!(t.records.len(), 3);
    for r in t.records.iter() {
        assert_eq!(r.len(), 3);
    }
    assert!(parse_table(b"a,b,c\n1,2\n").is_err());
    assert!(parse_table(b"a\n1,2\n").is_err());
}

#[test]
fn equal_metrics_give_equal_totals() {
    let a = table(
        &["a", "b", "i", "p", "d"],
        &[&["one", "x", "7", "1", "0"], &["one", "x", "8", "0", "2"]],
    );
    let b = table(
        &["c", "d", "i", "p", "d"],
        &[&["two", "", "+7", "01", "0"], &["two", "", "8", "0", "002"]],
    );
    let a = append_totals(a).unwrap();
    let b = append_totals(b).unwrap();
    for i in 0..2 {
        assert_eq!(fields(&a.records[i])[5..], fields(&b.records[i])[5..]);
    }
    assert_eq!(fields(&a.records[1])[5..], ["15", "1", "2"]);
}

#[test]
fn transformation_gives_the_same_text_twice() {
    let input = b"a,b,i,p,d,w\nx,y,10,1,0,5\nx,y,20,2,1,6\nx,y,0,0,0,7\n";
    let first = add_cumulative_columns(input).unwrap();
    let second = add_cumulative_columns(input).unwrap();
    assert_eq!(first, second);
}
