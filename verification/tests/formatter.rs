use dbdiff::engine::diff;
use dbdiff::row::{Column, Row};
use dbdiff::value::{ColumnValue, Scalar};

fn row2(id: i32, v: &str) -> Row {
    Row {
        cols: vec![
            Column { name: String::from("id"), value: ColumnValue::Scalar(Scalar::Int4(id)) },
            Column {
                name: String::from("v"),
                value: ColumnValue::Scalar(Scalar::Text(String::from(v))),
            },
        ],
    }
}

#[test]
fn hashmap_mode_lines() {
    let out = diff(
        vec![row2(1, "a"), row2(2, "b")],
        vec![row2(2, "b"), row2(3, "c")],
        1000,
    );
    let lines = dbdiff::format::format(&out, "hashmap", "s", "d").unwrap();
    assert_eq!(
        lines,
        vec![
            String::from("Processed: 6"),
            String::from("< [ id: 1, v: a ]"),
            String::from("> [ id: 3, v: c ]"),
        ]
    );
}

#[test]
fn insert_mode_lines() {
    let out = diff(
        vec![row2(1, "a"), row2(2, "b")],
        vec![row2(2, "b"), row2(3, "c")],
        1000,
    );
    let lines = dbdiff::format::format(&out, "insert", "src_table", "dst_table").unwrap();
    assert_eq!(
        lines,
        vec![
            String::from("Processed: 6"),
            String::from("< insert into \"dst_table\" (\"id\", \"v\") VALUES(1, 'a');"),
            String::from("> insert into \"src_table\" (\"id\", \"v\") VALUES(3, 'c');"),
        ]
    );
}

#[test]
fn empty_outcome_prints_only_the_header() {
    let out = diff(Vec::new(), Vec::new(), 10);
    let lines = dbdiff::format::format(&out, "hashmap", "s", "d").unwrap();
    assert_eq!(lines, vec![String::from("Processed: 2")]);
}

#[test]
fn unknown_mode_is_an_invalid_configuration() {
    let out = diff(Vec::new(), Vec::new(), 10);
    let err = dbdiff::format::format(&out, "csv", "s", "d").unwrap_err();
    assert_eq!(err.message().as_str(), "invalid output format csv");
}
