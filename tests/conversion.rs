use bed_to_bedgraph::decimal::parse_u32;
use bed_to_bedgraph::fields::split_line;
use bed_to_bedgraph::graph::{BedGraphRecord, BedGraphWriter};
use bed_to_bedgraph::record::{parse_record, BedError, BedRecord, RequiredField};
use bed_to_bedgraph::select::{parse_column_selector, ColumnSelector, SelectedValue, ValueSelector};

const HEADER: &str = "track type=bedGraph\n";

/// The value as the command-line program reads and prints it.
fn render(selected: SelectedValue) -> String {
    let v: f64 = match selected {
        SelectedValue::Score(t) => t.parse::<f64>().unwrap_or(0.0),
        SelectedValue::Column(t) => t.parse::<f64>().expect("value column is a number"),
    };
    format!("{}", v)
}

fn graph_record(rec: &BedRecord, value: String) -> BedGraphRecord {
    BedGraphRecord { chrom: rec.chrom.clone(), start: rec.start, end: rec.end, value }
}

/// Converts `lines` with the column setting `token`, stopping at the first error.
fn convert(token: &str, lines: &[&str]) -> (String, Option<BedError>) {
    let mut writer = BedGraphWriter::new();
    let mut selector = ValueSelector::new(parse_column_selector(token).unwrap());
    for line in lines {
        let rec = match parse_record(line) {
            Ok(r) => r,
            Err(e) => return (writer.take_output(), Some(e)),
        };
        match selector.select(&rec) {
            Ok(v) => writer.write(&graph_record(&rec, render(v))),
            Err(e) => return (writer.take_output(), Some(e)),
        }
    }
    (writer.take_output(), None)
}

#[test]
fn first_value_column() {
    let (out, err) = convert("0", &["chrom1\t10\t20\tnameA\t5.0\t7.5\t9.0"]);
    assert_eq!(err, None);
    assert_eq!(out, format!("{}chrom1\t10\t20\t7.5\n", HEADER));
}

#[test]
fn second_value_column() {
    let (out, err) = convert("1", &["chrom1\t10\t20\tnameA\t5.0\t7.5\t9.0"]);
    assert_eq!(err, None);
    assert_eq!(out, format!("{}chrom1\t10\t20\t9\n", HEADER));
}

#[test]
fn score_column_without_values() {
    let (out, err) = convert("score", &["chrom1\t10\t20\tnameA\t5.0"]);
    assert_eq!(err, None);
    assert_eq!(out, format!("{}chrom1\t10\t20\t5\n", HEADER));
}

#[test]
fn unparsable_score_counts_as_zero() {
    let rec = parse_record("chr2\t1\t2\tn\tnot_a_number").unwrap();
    assert_eq!(rec.score, "not_a_number");
    let mut selector = ValueSelector::new(ColumnSelector::Score);
    let v = selector.select(&rec).unwrap();
    assert_eq!(v, SelectedValue::Score("not_a_number".to_string()));
    assert_eq!(render(v), "0");
    let (out, _) = convert("score", &["chr2\t1\t2\tn\tnot_a_number"]);
    assert_eq!(out, format!("{}chr2\t1\t2\t0\n", HEADER));
}

#[test]
fn column_out_of_range_on_first_record_halts() {
    let (out, err) = convert("2", &["chrom1\t10\t20\tnameA\t5.0\t7.5\t9.0", "chrom1\t30\t40\tn\t1\t2\t3\t4"]);
    assert_eq!(err, Some(BedError::ColumnOutOfRange(2)));
    assert_eq!(out, HEADER);
}

#[test]
fn index_zero_without_values_is_out_of_range() {
    let (out, err) = convert("0", &["chrom1\t10\t20\tnameA\t5.0"]);
    assert_eq!(err, Some(BedError::ColumnOutOfRange(0)));
    assert_eq!(out, HEADER);
}

#[test]
fn later_record_missing_column() {
    let (out, err) = convert("1", &["c\t1\t2\tn\t0\t3\t4", "c\t5\t6\tn\t0\t7"]);
    assert_eq!(err, Some(BedError::MissingValue(1)));
    assert_eq!(out, format!("{}c\t1\t2\t4\n", HEADER));
}

#[test]
fn three_fields_is_malformed() {
    assert_eq!(
        parse_record("chrom1\t10\t20").unwrap_err(),
        BedError::MalformedRecord(RequiredField::Name)
    );
    assert_eq!(
        parse_record("chrom1\t10\t20\tname").unwrap_err(),
        BedError::MalformedRecord(RequiredField::Score)
    );
    assert_eq!(parse_record("chrom1\t10").unwrap_err(), BedError::MalformedRecord(RequiredField::End));
    assert_eq!(parse_record("chrom1").unwrap_err(), BedError::MalformedRecord(RequiredField::Start));
    assert_eq!(parse_record("\n").unwrap_err(), BedError::MalformedRecord(RequiredField::Start));
}

#[test]
fn bad_coordinates_are_errors() {
    assert_eq!(
        parse_record("c\tx\t20\tn\t1").unwrap_err(),
        BedError::InvalidCoordinate(RequiredField::Start)
    );
    assert_eq!(
        parse_record("c\t10\t-20\tn\t1").unwrap_err(),
        BedError::InvalidCoordinate(RequiredField::End)
    );
    assert_eq!(
        parse_record("c\t4294967296\t20\tn\t1").unwrap_err(),
        BedError::InvalidCoordinate(RequiredField::Start)
    );
}

#[test]
fn record_fields() {
    let rec = parse_record("chrX\t+7\t4294967295\tfeat\t2.5\ta\t\tb\r\n").unwrap();
    assert_eq!(rec.chrom, "chrX");
    assert_eq!(rec.start, 7);
    assert_eq!(rec.end, 4294967295);
    assert_eq!(rec.name, "feat");
    assert_eq!(rec.score, "2.5");
    assert_eq!(rec.values, vec!["a".to_string(), String::new(), "b".to_string()]);
}

#[test]
fn header_only_without_records() {
    let (out, err) = convert("score", &[]);
    assert_eq!(err, None);
    assert_eq!(out, HEADER);
    let mut w = BedGraphWriter::new();
    assert_eq!(w.take_output(), HEADER);
    assert_eq!(w.take_output(), "");
}

#[test]
fn one_output_line_per_input_line() {
    let lines = ["a\t1\t2\tn\t1\t5", "b\t3\t4\tn\t2\t6", "c\t5\t6\tn\t3\t7\n"];
    let (out, err) = convert("0", &lines);
    assert_eq!(err, None);
    assert_eq!(out.lines().count(), lines.len() + 1);
    assert_eq!(out.lines().next(), Some("track type=bedGraph"));
}

#[test]
fn coordinates_pass_through() {
    let (out, _) = convert("score", &["chr1\t0\t4294967295\tn\t1.25", "chr1\t00012\t+13\tn\t-3"]);
    let mut lines = out.lines().skip(1);
    assert_eq!(lines.next(), Some("chr1\t0\t4294967295\t1.25"));
    assert_eq!(lines.next(), Some("chr1\t12\t13\t-3"));
}

#[test]
fn column_setting() {
    assert_eq!(parse_column_selector("score"), Ok(ColumnSelector::Score));
    assert_eq!(parse_column_selector("0"), Ok(ColumnSelector::Index(0)));
    assert_eq!(parse_column_selector("+3"), Ok(ColumnSelector::Index(3)));
    assert_eq!(parse_column_selector("2147483647"), Ok(ColumnSelector::Index(2147483647)));
    assert_eq!(parse_column_selector("2147483648"), Err(BedError::InvalidColumnIndex));
    assert_eq!(parse_column_selector("-1"), Err(BedError::NegativeColumnIndex));
    assert_eq!(parse_column_selector("Score"), Err(BedError::InvalidColumnIndex));
    assert_eq!(parse_column_selector("-"), Err(BedError::InvalidColumnIndex));
    assert_eq!(parse_column_selector(""), Err(BedError::InvalidColumnIndex));
}

#[test]
fn unsigned_numbers() {
    assert_eq!(parse_u32("0"), Some(0));
    assert_eq!(parse_u32("+42"), Some(42));
    assert_eq!(parse_u32("4294967295"), Some(4294967295));
    assert_eq!(parse_u32("4294967296"), None);
    assert_eq!(parse_u32(""), None);
    assert_eq!(parse_u32("+"), None);
    assert_eq!(parse_u32("-1"), None);
    assert_eq!(parse_u32("1a"), None);
}

#[test]
fn splitting_lines() {
    assert_eq!(split_line("a\tb\n"), vec!["a".to_string(), "b".to_string()]);
    assert_eq!(split_line(""), vec![String::new()]);
    assert_eq!(split_line("x\t\ty\r\n"), vec!["x".to_string(), String::new(), "y".to_string()]);
}

#[test]
fn writer_lines() {
    let mut w = BedGraphWriter::new();
    w.write(&BedGraphRecord { chrom: "chr9".to_string(), start: 100, end: 2005, value: "0.5".to_string() });
    assert_eq!(w.take_output(), "track type=bedGraph\nchr9\t100\t2005\t0.5\n");
    w.write(&BedGraphRecord { chrom: "c".to_string(), start: 0, end: 9, value: "1".to_string() });
    assert_eq!(w.take_output(), "c\t0\t9\t1\n");
}
