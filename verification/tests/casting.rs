use sheet_frames::cell::Cell;
use sheet_frames::column::Column;
use sheet_frames::column::TypeTag;
use sheet_frames::column::Value;
use sheet_frames::error::TableError;
use sheet_frames::sheet::Sheet;
use sheet_frames::table::Table;
use sheet_frames::text::float_text_ok;
use sheet_frames::text::i64_text;
use sheet_frames::text::parse_i64;
use sheet_frames::text::u64_text;

fn s(x: &str) -> String {
    x.to_string()
}

fn str_col(name: &str, vals: &[&str]) -> Column {
    Column {
        name: s(name),
        tag: TypeTag::Str,
        vals: vals.iter().map(|v| Some(Value::Str(s(v)))).collect(),
    }
}

#[test]
fn cast_idempotent() {
    // Casting "qty" from String to Integer64 twice equals casting once.
    let table = Table { cols: vec![str_col("qty", &["1", "2", "007"])] };
    let pairs = vec![(s("qty"), TypeTag::Integer64)];
    let once = table.with_types(&pairs).unwrap();
    let twice = once.with_types(&pairs).unwrap();
    assert_eq!(once, twice);
    assert_eq!(
        once.cols[0].vals,
        vec![Some(Value::Int(1)), Some(Value::Int(2)), Some(Value::Int(7))]
    );
}

#[test]
fn cast_preserves_order() {
    // Casting only `b` keeps the column order [a, b, c] and leaves the
    // other columns untouched.
    let table = Table {
        cols: vec![
            str_col("a", &["x"]),
            str_col("b", &["5"]),
            str_col("c", &["y"]),
        ],
    };
    let out = table.with_types(&vec![(s("b"), TypeTag::Integer64)]).unwrap();
    assert_eq!(out.cols.len(), 3);
    assert_eq!(out.cols[0], str_col("a", &["x"]));
    assert_eq!(out.cols[1].name, s("b"));
    assert_eq!(out.cols[1].tag, TypeTag::Integer64);
    assert_eq!(out.cols[1].vals, vec![Some(Value::Int(5))]);
    assert_eq!(out.cols[2], str_col("c", &["y"]));
}

#[test]
fn round_trip_all_str_then_cast_back() {
    // Convert a sheet to all-string, then cast every column back to the
    // type the auto-type builder inferred for it.
    let sheet = Sheet {
        rows: vec![
            vec![Cell::Str(s("i")), Cell::Str(s("f")), Cell::Str(s("b")), Cell::Str(s("t"))],
            vec![Cell::Int(42), Cell::Float(s("1.5")), Cell::Bool(true), Cell::Str(s("x"))],
            vec![Cell::Int(-7), Cell::Float(s("2.25")), Cell::Bool(false), Cell::Str(s("y"))],
        ],
    };
    let (typed, _) = sheet.to_frame_auto_type().unwrap();
    let tags: Vec<(String, TypeTag)> =
        typed.cols.iter().map(|c| (c.name.clone(), c.tag)).collect();
    let strings = sheet.to_frame_all_str().unwrap();
    let back = strings.with_types(&tags).unwrap();
    assert_eq!(back.cols[0].vals, vec![Some(Value::Int(42)), Some(Value::Int(-7))]);
    assert_eq!(
        back.cols[1].vals,
        vec![Some(Value::Float(s("1.5"))), Some(Value::Float(s("2.25")))]
    );
    assert_eq!(back.cols[2].vals, vec![Some(Value::Bool(true)), Some(Value::Bool(false))]);
    assert_eq!(back.cols[3].vals, vec![Some(Value::Str(s("x"))), Some(Value::Str(s("y")))]);
    assert_eq!(back, typed);
}

#[test]
fn cast_failure_reports_column() {
    let table = Table { cols: vec![str_col("qty", &["1", "abc"])] };
    assert_eq!(
        table.with_types(&vec![(s("qty"), TypeTag::Integer64)]),
        Err(TableError::CastFailure {
            column: s("qty"),
            from: TypeTag::Str,
            to: TypeTag::Integer64,
        })
    );
}

#[test]
fn cast_unmatched_names_pass_through() {
    let table = Table { cols: vec![str_col("a", &["x"])] };
    let out = table.with_types(&vec![(s("zzz"), TypeTag::Integer64)]).unwrap();
    assert_eq!(out, table);
}

#[test]
fn cast_bool_and_numeric_conversions() {
    let bools = Column {
        name: s("b"),
        tag: TypeTag::Boolean,
        vals: vec![Some(Value::Bool(true)), Some(Value::Bool(false)), None],
    };
    let ints = Column {
        name: s("i"),
        tag: TypeTag::Integer64,
        vals: vec![Some(Value::Int(-3)), None],
    };
    let t = Table { cols: vec![bools, ints] };
    let out = t
        .with_types(&vec![(s("b"), TypeTag::Integer64), (s("i"), TypeTag::Str)])
        .unwrap();
    assert_eq!(
        out.cols[0].vals,
        vec![Some(Value::Int(1)), Some(Value::Int(0)), None]
    );
    assert_eq!(out.cols[1].vals, vec![Some(Value::Str(s("-3"))), None]);
}

#[test]
fn cast_string_to_boolean() {
    let t = Table { cols: vec![str_col("b", &["true", "false"])] };
    let out = t.with_types(&vec![(s("b"), TypeTag::Boolean)]).unwrap();
    assert_eq!(out.cols[0].vals, vec![Some(Value::Bool(true)), Some(Value::Bool(false))]);
    let bad = Table { cols: vec![str_col("b", &["TRUE"])] };
    assert!(bad.with_types(&vec![(s("b"), TypeTag::Boolean)]).is_err());
}

#[test]
fn cast_string_to_float_validates_shape() {
    let ok = Table { cols: vec![str_col("f", &["1.5", "-0.25", "12"])] };
    let out = ok.with_types(&vec![(s("f"), TypeTag::Float64)]).unwrap();
    assert_eq!(out.cols[0].vals[0], Some(Value::Float(s("1.5"))));
    let bad = Table { cols: vec![str_col("f", &["1.5.2"])] };
    assert!(bad.with_types(&vec![(s("f"), TypeTag::Float64)]).is_err());
}

#[test]
fn first_matching_pair_wins() {
    let t = Table { cols: vec![str_col("a", &["3"])] };
    let out = t
        .with_types(&vec![(s("a"), TypeTag::Integer64), (s("a"), TypeTag::Boolean)])
        .unwrap();
    assert_eq!(out.cols[0].tag, TypeTag::Integer64);
}

#[test]
fn parse_i64_edges() {
    assert_eq!(parse_i64("0"), Some(0));
    assert_eq!(parse_i64("007"), Some(7));
    assert_eq!(parse_i64("-0"), Some(0));
    assert_eq!(parse_i64("0000000000000000000000"), Some(0));
    assert_eq!(parse_i64("9223372036854775807"), Some(i64::MAX));
    assert_eq!(parse_i64("-9223372036854775808"), Some(i64::MIN));
    assert_eq!(parse_i64("9223372036854775808"), None);
    assert_eq!(parse_i64("-9223372036854775809"), None);
    assert_eq!(parse_i64("99999999999999999999999"), None);
    assert_eq!(parse_i64(""), None);
    assert_eq!(parse_i64("-"), None);
    assert_eq!(parse_i64("12a"), None);
    assert_eq!(parse_i64("+12"), None);
    assert_eq!(parse_i64(" 12"), None);
}

#[test]
fn render_i64_edges() {
    assert_eq!(i64_text(0), s("0"));
    assert_eq!(i64_text(-1), s("-1"));
    assert_eq!(i64_text(i64::MAX), s("9223372036854775807"));
    assert_eq!(i64_text(i64::MIN), s("-9223372036854775808"));
    assert_eq!(u64_text(10), s("10"));
}

#[test]
fn float_text_shapes() {
    assert!(float_text_ok("1.5"));
    assert!(float_text_ok("-0.5"));
    assert!(float_text_ok("12"));
    assert!(float_text_ok("-12"));
    assert!(!float_text_ok("1."));
    assert!(!float_text_ok(".5"));
    assert!(!float_text_ok("1.5.2"));
    assert!(!float_text_ok(""));
    assert!(!float_text_ok("-"));
    assert!(!float_text_ok("NaN"));
    assert!(!float_text_ok("1e5"));
}
