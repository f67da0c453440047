use dbdiff::row::{row_as_insert, row_as_string, row_hasher, row_map, Column, Row};
use dbdiff::value::{ColumnValue, Scalar};

fn col(name: &str, value: ColumnValue) -> Column {
    Column { name: String::from(name), value }
}

fn int_col(name: &str, n: i32) -> Column {
    col(name, ColumnValue::Scalar(Scalar::Int4(n)))
}

fn text_col(name: &str, s: &str) -> Column {
    col(name, ColumnValue::Scalar(Scalar::Text(String::from(s))))
}

#[test]
fn fingerprint_is_stable() {
    let row = Row { cols: vec![int_col("id", 1), text_col("v", "a")] };
    let h = row_hasher(&row);
    for _ in 0..5 {
        assert_eq!(row_hasher(&row), h);
    }
}

#[test]
fn fingerprint_depends_on_encodings_only() {
    // an integer 1 and the text "1" share their canonical encoding, so
    // rows holding them cannot be told apart by fingerprint
    let by_int = Row { cols: vec![int_col("id", 1)] };
    let by_text = Row { cols: vec![text_col("id", "1")] };
    assert_eq!(row_hasher(&by_int), row_hasher(&by_text));
    // the column name plays no part in the fingerprint
    let renamed = Row { cols: vec![int_col("other", 1)] };
    assert_eq!(row_hasher(&by_int), row_hasher(&renamed));
}

#[test]
fn fingerprints_differ_across_many_rows() {
    let mut seen: Vec<u64> = Vec::new();
    for i in 0..200 {
        let row = Row { cols: vec![int_col("id", i), text_col("v", &format!("row-{}", i))] };
        let h = row_hasher(&row);
        assert!(!seen.contains(&h), "unexpected fingerprint collision at {}", i);
        seen.push(h);
    }
}

#[test]
fn adjacent_columns_do_not_bleed_together() {
    let ab_c = Row { cols: vec![text_col("x", "ab"), text_col("y", "c")] };
    let a_bc = Row { cols: vec![text_col("x", "a"), text_col("y", "bc")] };
    assert_ne!(row_hasher(&ab_c), row_hasher(&a_bc));
}

#[test]
fn display_rendering() {
    let row = Row { cols: vec![int_col("id", 1), text_col("v", "a")] };
    assert_eq!(row_as_string(&row), "[ id: 1, v: a ]");
    let empty = Row { cols: vec![] };
    assert_eq!(row_as_string(&empty), "[  ]");
}

#[test]
fn display_renders_null_as_empty() {
    let row = Row { cols: vec![col("n", ColumnValue::Null)] };
    assert_eq!(row_as_string(&row), "[ n:  ]");
}

#[test]
fn insert_rendering_round_trip() {
    let row = Row { cols: vec![int_col("id", 1), text_col("name", "O'Brien")] };
    assert_eq!(
        row_as_insert("t1", &row),
        "insert into \"t1\" (\"id\", \"name\") VALUES(1, 'O''Brien');"
    );
}

#[test]
fn insert_rendering_quotes_identifiers() {
    let row = Row { cols: vec![int_col("we\"ird", 7)] };
    assert_eq!(
        row_as_insert("ta\"ble", &row),
        "insert into \"ta\"\"ble\" (\"we\"\"ird\") VALUES(7);"
    );
}

#[test]
fn insert_rendering_uses_null_word() {
    let row = Row { cols: vec![col("a", ColumnValue::Null), int_col("b", 2)] };
    assert_eq!(
        row_as_insert("t", &row),
        "insert into \"t\" (\"a\", \"b\") VALUES(Null, 2);"
    );
}

#[test]
fn row_map_keeps_order_and_encodings() {
    let row = Row { cols: vec![int_col("id", 5), col("n", ColumnValue::Null), text_col("v", "x")] };
    let m = row_map(&row);
    assert_eq!(m.len(), 3);
    assert_eq!(m[0], (String::from("id"), String::from("5")));
    assert_eq!(m[1], (String::from("n"), String::from("")));
    assert_eq!(m[2], (String::from("v"), String::from("x")));
}
