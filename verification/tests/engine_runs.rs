use dbdiff::engine::{diff, DiffState};
use dbdiff::row::{row_hasher, Column, Row};
use dbdiff::value::{ColumnValue, Scalar};

fn row2(id: i32, v: &str) -> Row {
    Row {
        cols: vec![
            Column { name: String::from("id"), value: ColumnValue::Scalar(Scalar::Int4(id)) },
            Column {
                name: String::from("v"),
                value: ColumnValue::Scalar(Scalar::Text(String::from(v))),
            },
        ],
    }
}

#[test]
fn overlapping_sides_keep_only_their_own_rows() {
    let source = vec![row2(1, "a"), row2(2, "b")];
    let dest = vec![row2(2, "b"), row2(3, "c")];
    let out = diff(source, dest, 1000);
    assert!(out.complete);
    assert_eq!(out.source_pending.len(), 1);
    assert_eq!(out.dest_pending.len(), 1);
    assert!(out.source_pending.contains_key(row_hasher(&row2(1, "a"))));
    assert!(out.dest_pending.contains_key(row_hasher(&row2(3, "c"))));
    assert_eq!(out.processed, 6);
}

#[test]
fn identical_sides_cancel_completely() {
    let rows = || vec![row2(1, "a"), row2(2, "b"), row2(3, "c"), row2(4, "d")];
    let out = diff(rows(), rows(), 1000);
    assert!(out.complete);
    assert_eq!(out.source_pending.len(), 0);
    assert_eq!(out.dest_pending.len(), 0);
}

#[test]
fn identical_empty_sides() {
    let out = diff(Vec::new(), Vec::new(), 0);
    assert!(out.complete);
    assert_eq!(out.source_pending.len(), 0);
    assert_eq!(out.dest_pending.len(), 0);
}

#[test]
fn zero_bound_stops_at_first_insertion() {
    let out = diff(vec![row2(1, "a")], vec![row2(2, "b")], 0);
    assert!(!out.complete);
    assert_eq!(out.source_pending.len() + out.dest_pending.len(), 1);
    assert!(out.source_pending.contains_key(row_hasher(&row2(1, "a"))));
    assert_eq!(out.processed, 2);
}

#[test]
fn bound_is_never_left_behind() {
    let source = vec![row2(1, "a"), row2(2, "b"), row2(3, "c")];
    let out = diff(source, Vec::new(), 1);
    assert!(!out.complete);
    assert_eq!(out.source_pending.len() + out.dest_pending.len(), 2);
}

#[test]
fn duplicate_fingerprints_on_one_side_collapse() {
    let source = vec![row2(1, "a"), row2(1, "a")];
    let out = diff(source, Vec::new(), 1000);
    assert!(out.complete);
    assert_eq!(out.source_pending.len(), 1);
}

#[test]
fn disjoint_sides_keep_everything() {
    let source = vec![row2(1, "a"), row2(2, "b")];
    let dest = vec![row2(3, "c")];
    let out = diff(source, dest, 1000);
    assert!(out.complete);
    assert_eq!(out.source_pending.len(), 2);
    assert_eq!(out.dest_pending.len(), 1);
    // insertion order is kept
    assert_eq!(out.source_pending.entry_at(0).0, row_hasher(&row2(1, "a")));
    assert_eq!(out.source_pending.entry_at(1).0, row_hasher(&row2(2, "b")));
}

#[test]
fn stepwise_state_matches_whole_run() {
    // drive the engine pull by pull, as an external caller would
    let mut source = vec![row2(1, "a"), row2(2, "b")];
    let mut dest = vec![row2(2, "b"), row2(3, "c")];
    source.reverse();
    dest.reverse();
    let mut st = DiffState::new(1000);
    while !st.finished() {
        if st.source_turn() {
            if st.source_done {
                st.step_skip();
            } else {
                match source.pop() {
                    Some(r) => st.step_row(r),
                    None => st.step_end(),
                }
            }
        } else {
            if st.dest_done {
                st.step_skip();
            } else {
                match dest.pop() {
                    Some(r) => st.step_row(r),
                    None => st.step_end(),
                }
            }
        }
    }
    assert!(st.source_done && st.dest_done);
    assert_eq!(st.source_pending.len(), 1);
    assert_eq!(st.dest_pending.len(), 1);
    assert!(st.source_pending.contains_key(row_hasher(&row2(1, "a"))));
    assert!(st.dest_pending.contains_key(row_hasher(&row2(3, "c"))));
    assert_eq!(st.i.wrapping_add(1), 6);
}
