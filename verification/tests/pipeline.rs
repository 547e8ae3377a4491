use sheet_frames::cell::Cell;
use sheet_frames::column::TypeTag;
use sheet_frames::column::Value;
use sheet_frames::error::TableError;
use sheet_frames::sheet::Sheet;
use sheet_frames::table::Table;

fn s(x: &str) -> String {
    x.to_string()
}

fn str_cell(x: &str) -> Cell {
    Cell::Str(s(x))
}

#[test]
fn header_dedup_triples() {
    let sheet = Sheet { rows: vec![vec![str_cell("a"), str_cell("a"), str_cell("a")]] };
    let names = sheet.column_names().unwrap();
    assert_eq!(names, vec![s("a"), s("a_duplicated_1"), s("a_duplicated_2")]);
}

#[test]
fn header_dedup_mixed_kinds() {
    let sheet = Sheet {
        rows: vec![vec![Cell::Int(7), Cell::Bool(true), Cell::Empty, Cell::Int(7)]],
    };
    let names = sheet.column_names().unwrap();
    assert_eq!(names, vec![s("7"), s("true"), s(""), s("7_duplicated_1")]);
}

#[test]
fn column_names_missing_header() {
    let sheet = Sheet { rows: vec![] };
    assert_eq!(sheet.column_names(), Err(TableError::MissingHeader));
}

#[test]
fn all_str_shape() {
    // One header row plus two data rows of assorted kinds: as many columns
    // as the header, every column of length two, all string-typed.
    let sheet = Sheet {
        rows: vec![
            vec![str_cell("h1"), str_cell("h2"), str_cell("h3")],
            vec![Cell::Int(42), Cell::Bool(false), Cell::Float(s("1.5"))],
            vec![
                Cell::Empty,
                Cell::Error(s("#DIV/0!")),
                Cell::DateTime { rendered: Some(s("2021-01-01 00:00:00")), text: s("44197") },
            ],
        ],
    };
    let table = sheet.to_frame_all_str().unwrap();
    assert_eq!(table.cols.len(), 3);
    for col in &table.cols {
        assert_eq!(col.tag, TypeTag::Str);
        assert_eq!(col.vals.len(), 2);
    }
    assert_eq!(table.cols[0].vals[0], Some(Value::Str(s("42"))));
    assert_eq!(table.cols[1].vals[0], Some(Value::Str(s("false"))));
    assert_eq!(table.cols[2].vals[0], Some(Value::Str(s("1.5"))));
    assert_eq!(table.cols[0].vals[1], Some(Value::Str(s(""))));
    assert_eq!(table.cols[1].vals[1], Some(Value::Str(s("#DIV/0!"))));
    assert_eq!(table.cols[2].vals[1], Some(Value::Str(s("2021-01-01 00:00:00"))));
}

#[test]
fn all_str_datetime_fallback() {
    let sheet = Sheet {
        rows: vec![
            vec![str_cell("d")],
            vec![Cell::DateTime { rendered: None, text: s("44197") }],
        ],
    };
    let table = sheet.to_frame_all_str().unwrap();
    assert_eq!(table.cols[0].vals[0], Some(Value::Str(s(""))));
}

#[test]
fn all_str_empty_sheet() {
    let sheet = Sheet { rows: vec![] };
    assert_eq!(sheet.to_frame_all_str(), Err(TableError::EmptySheet));
}

#[test]
fn auto_type_numeric_mismatch_dropped() {
    // Sample 42 fixes Integer64; a later string cell is dropped and logged,
    // leaving the column one shorter than the row count, without aborting.
    let sheet = Sheet {
        rows: vec![
            vec![str_cell("qty")],
            vec![Cell::Int(42)],
            vec![str_cell("oops")],
            vec![Cell::Int(7)],
        ],
    };
    let (table, recs) = sheet.to_frame_auto_type().unwrap();
    assert_eq!(table.cols.len(), 1);
    let col = &table.cols[0];
    assert_eq!(col.name, s("qty"));
    assert_eq!(col.tag, TypeTag::Integer64);
    assert_eq!(col.vals, vec![Some(Value::Int(42)), Some(Value::Int(7))]);
    assert_eq!(recs.len(), 1);
    assert_eq!(recs[0].row, 0);
    assert_eq!(recs[0].column, s("qty"));
    assert_eq!(recs[0].col_index, 0);
    assert_eq!(recs[0].expected, TypeTag::Integer64);
}

#[test]
fn auto_type_string_column_strict() {
    // Sample "x" fixes String; a later integer cell aborts the build.
    let sheet = Sheet {
        rows: vec![vec![str_cell("name")], vec![str_cell("x")], vec![Cell::Int(7)]],
    };
    assert_eq!(
        sheet.to_frame_auto_type(),
        Err(TableError::UnclassifiableCell { row: 2, col: 0 })
    );
}

#[test]
fn auto_type_fatal_sample() {
    // An error-kind cell in the sample row aborts before any ingestion.
    let sheet = Sheet {
        rows: vec![
            vec![str_cell("a"), str_cell("b")],
            vec![Cell::Int(1), Cell::Error(s("#N/A"))],
            vec![Cell::Int(2), Cell::Int(3)],
        ],
    };
    assert_eq!(
        sheet.to_frame_auto_type(),
        Err(TableError::UnclassifiableCell { row: 1, col: 1 })
    );
}

#[test]
fn auto_type_all_kinds() {
    let sheet = Sheet {
        rows: vec![
            vec![str_cell("i"), str_cell("f"), str_cell("b"), str_cell("s"), str_cell("n")],
            vec![
                Cell::Int(42),
                Cell::Float(s("1.5")),
                Cell::Bool(true),
                str_cell("x"),
                Cell::Empty,
            ],
            vec![
                Cell::Int(7),
                Cell::Float(s("2.25")),
                Cell::Bool(false),
                str_cell("y"),
                Cell::Empty,
            ],
        ],
    };
    let (table, recs) = sheet.to_frame_auto_type().unwrap();
    assert_eq!(recs.len(), 0);
    assert_eq!(table.cols.len(), 5);
    assert_eq!(table.cols[0].tag, TypeTag::Integer64);
    assert_eq!(table.cols[0].vals, vec![Some(Value::Int(42)), Some(Value::Int(7))]);
    assert_eq!(table.cols[1].tag, TypeTag::Float64);
    assert_eq!(
        table.cols[1].vals,
        vec![Some(Value::Float(s("1.5"))), Some(Value::Float(s("2.25")))]
    );
    assert_eq!(table.cols[2].tag, TypeTag::Boolean);
    assert_eq!(table.cols[2].vals, vec![Some(Value::Bool(true)), Some(Value::Bool(false))]);
    assert_eq!(table.cols[3].tag, TypeTag::Str);
    assert_eq!(table.cols[3].vals, vec![Some(Value::Str(s("x"))), Some(Value::Str(s("y")))]);
    // An empty sample fixes the null type and stores its fallback text,
    // the empty string; the later empty cell appends a null.
    assert_eq!(table.cols[4].tag, TypeTag::Null);
    assert_eq!(table.cols[4].vals, vec![Some(Value::Str(s(""))), None]);
}

#[test]
fn auto_type_empty_cell_appends_null() {
    let sheet = Sheet {
        rows: vec![vec![str_cell("i")], vec![Cell::Int(1)], vec![Cell::Empty], vec![Cell::Int(2)]],
    };
    let (table, recs) = sheet.to_frame_auto_type().unwrap();
    assert_eq!(recs.len(), 0);
    assert_eq!(
        table.cols[0].vals,
        vec![Some(Value::Int(1)), None, Some(Value::Int(2))]
    );
}

#[test]
fn auto_type_null_column_drops_values() {
    // An empty sample fixes the null type and contributes its fallback
    // text, the empty string; later value cells are dropped, later empty
    // cells append nulls.
    let sheet = Sheet {
        rows: vec![vec![str_cell("n")], vec![Cell::Empty], vec![Cell::Int(5)], vec![Cell::Empty]],
    };
    let (table, recs) = sheet.to_frame_auto_type().unwrap();
    assert_eq!(table.cols[0].tag, TypeTag::Null);
    assert_eq!(table.cols[0].vals, vec![Some(Value::Str(s(""))), None]);
    assert_eq!(recs.len(), 1);
    assert_eq!(recs[0].expected, TypeTag::Null);
}

#[test]
fn auto_type_errors_on_short_sheets() {
    let empty = Sheet { rows: vec![] };
    assert_eq!(empty.to_frame_auto_type(), Err(TableError::EmptySheet));
    let header_only = Sheet { rows: vec![vec![str_cell("a")]] };
    assert_eq!(header_only.to_frame_auto_type(), Err(TableError::MissingSampleRow));
}

#[test]
fn auto_type_datetime_is_fatal() {
    let sheet = Sheet {
        rows: vec![
            vec![str_cell("d")],
            vec![Cell::Int(1)],
            vec![Cell::DateTime { rendered: None, text: s("44197") }],
        ],
    };
    assert_eq!(
        sheet.to_frame_auto_type(),
        Err(TableError::UnclassifiableCell { row: 2, col: 0 })
    );
}

#[test]
fn table_new_rejects_ragged_columns() {
    let a = sheet_frames::column::Column {
        name: s("a"),
        tag: TypeTag::Integer64,
        vals: vec![Some(Value::Int(1))],
    };
    let b = sheet_frames::column::Column { name: s("b"), tag: TypeTag::Integer64, vals: vec![] };
    assert_eq!(Table::new(vec![a, b]), Err(TableError::ColumnLengthMismatch));
}

#[test]
fn table_new_accepts_equal_lengths() {
    let a = sheet_frames::column::Column {
        name: s("a"),
        tag: TypeTag::Integer64,
        vals: vec![Some(Value::Int(1))],
    };
    let b = sheet_frames::column::Column {
        name: s("b"),
        tag: TypeTag::Str,
        vals: vec![Some(Value::Str(s("x")))],
    };
    let t = Table::new(vec![a, b]).unwrap();
    assert_eq!(t.width(), 2);
}
