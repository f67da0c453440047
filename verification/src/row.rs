//! Rows and the row fingerprinter. A row is an ordered sequence of named
//! column values; its fingerprint folds every column's canonical encoding,
//! in order, into one 64-bit hash. The module also renders a row for
//! display and as an SQL INSERT statement.

use crate::text::{double_ch, doubled, join_with, lemma_join_push};
use crate::value::{encode, ColumnValue, Scalar};
use std::collections::hash_map::DefaultHasher;
use std::hash::Hasher;
use vstd::prelude::*;
use vstd::std_specs::hash::DefaultHasherAdditionalSpecFns;
use vstd::string::StringExecFns;
use vstd::utf8::encode_utf8;

verus! {

/// One column of a row: the projected name and the typed value.
pub struct Column {
    pub name: String,
    pub value: ColumnValue,
}

/// An ordered sequence of named column values, as one query projection
/// produced it.
pub struct Row {
    pub cols: Vec<Column>,
}

impl Row {
    /// Every column value of the row is well formed.
    pub open spec fn wf(self) -> bool {
        forall|k: int| 0 <= k < self.cols@.len() ==> (#[trigger] self.cols@[k]).value.wf()
    }
}

/// The values of a column sequence, in order.
pub open spec fn col_values(cols: Seq<Column>) -> Seq<ColumnValue> {
    cols.map_values(|c: Column| c.value)
}

/// The canonical encodings of a row's columns, in order, with the empty
/// NULL token used for hashing.
pub open spec fn col_encodings(r: Row) -> Seq<Seq<char>> {
    col_values(r.cols@).map_values(|v: ColumnValue| v.encoding(Seq::empty()))
}

/// The write operations the fingerprinter feeds to the hasher: for each
/// column in order, the UTF-8 bytes of its canonical encoding, then a
/// one-byte terminator that keeps adjacent encodings apart.
pub open spec fn col_writes(vals: Seq<ColumnValue>) -> Seq<Seq<u8>>
    decreases vals.len(),
{
    if vals.len() == 0 {
        Seq::empty()
    } else {
        col_writes(vals.drop_last()) + seq![
            encode_utf8(vals.last().encoding(Seq::empty())),
            seq![255u8],
        ]
    }
}

/// The 64-bit fingerprint of a row: the hash of its column encodings in
/// order. A function of the row alone.
pub open spec fn row_fp(r: Row) -> u64 {
    DefaultHasher::spec_finish(col_writes(col_values(r.cols@)))
}

/// Fingerprints a row: encodes every column in row order with the empty
/// NULL token and folds the encodings into one running 64-bit hash.
pub fn row_hasher(row: &Row) -> (h: u64)
    requires
        row.wf(),
    ensures
        h == row_fp(*row),
{
    let mut hasher = DefaultHasher::new();
    let mut i: usize = 0;
    while i < row.cols.len()
        invariant
            i <= row.cols@.len(),
            row.wf(),
            hasher@ == col_writes(col_values(row.cols@.take(i as int))),
        decreases row.cols@.len() - i,
    {
        proof {
            reveal_strlit("");
        }
        let enc = encode(&row.cols[i].value, "");
        hasher.write(enc.as_str().as_bytes());
        let sep: Vec<u8> = vec![255u8];
        hasher.write(sep.as_slice());
        proof {
            assert(sep@ =~= seq![255u8]);
            assert(""@ =~= Seq::<char>::empty());
            assert(enc@ == row.cols@[i as int].value.encoding(Seq::empty()));
            let t = col_values(row.cols@.take(i as int + 1));
            assert(t.drop_last() =~= col_values(row.cols@.take(i as int)));
            assert(t.last() == row.cols@[i as int].value);
            assert(hasher@ =~= col_writes(t));
        }
        i += 1;
    }
    proof {
        assert(row.cols@.take(row.cols@.len() as int) =~= row.cols@);
    }
    hasher.finish()
}

/// The fingerprinter reads nothing of a row but its canonical column
/// encodings: two rows whose encoded-column sequences are identical
/// fingerprint identically.
pub proof fn lemma_fingerprint_deterministic(r1: Row, r2: Row)
    requires
        col_encodings(r1) == col_encodings(r2),
    ensures
        row_fp(r1) == row_fp(r2),
{
    lemma_writes_from_encodings(col_values(r1.cols@), col_values(r2.cols@));
}

/// The hash writes are a function of the encodings alone.
proof fn lemma_writes_from_encodings(v1: Seq<ColumnValue>, v2: Seq<ColumnValue>)
    requires
        v1.map_values(|v: ColumnValue| v.encoding(Seq::empty())) == v2.map_values(
            |v: ColumnValue| v.encoding(Seq::empty()),
        ),
    ensures
        col_writes(v1) == col_writes(v2),
    decreases v1.len(),
{
    let f = |v: ColumnValue| v.encoding(Seq::empty());
    assert(v1.map_values(f).len() == v2.map_values(f).len());
    if v1.len() == 0 {
    } else {
        assert(v1.drop_last().map_values(f) =~= v1.map_values(f).drop_last());
        assert(v2.drop_last().map_values(f) =~= v2.map_values(f).drop_last());
        lemma_writes_from_encodings(v1.drop_last(), v2.drop_last());
        assert(v1.map_values(f)[v1.len() - 1] == f(v1.last()));
        assert(v2.map_values(f)[v2.len() - 1] == f(v2.last()));
    }
}

/// The display parts of a row: `name: value` for each column, with the
/// empty NULL token.
pub open spec fn display_parts(cols: Seq<Column>) -> Seq<Seq<char>> {
    cols.map_values(|c: Column| c.name@ + ": "@ + c.value.encoding(Seq::empty()))
}

/// The display text of a row: its parts joined by `, `, in brackets.
pub open spec fn row_display(r: Row) -> Seq<char> {
    "[ "@ + join_with(display_parts(r.cols@), ", "@) + " ]"@
}

/// Renders a row for display: `[ col1: val1, col2: val2, ... ]` with NULL
/// shown as the empty string.
pub fn row_as_string(row: &Row) -> (r: String)
    requires
        row.wf(),
    ensures
        r@ == row_display(*row),
{
    let mut r = String::from_str("[ ");
    let mut i: usize = 0;
    proof {
        assert(join_with(display_parts(row.cols@.take(0)), ", "@) =~= Seq::<char>::empty());
    }
    while i < row.cols.len()
        invariant
            i <= row.cols@.len(),
            row.wf(),
            r@ == "[ "@ + join_with(display_parts(row.cols@.take(i as int)), ", "@),
        decreases row.cols@.len() - i,
    {
        if i > 0 {
            r.append(", ");
        }
        r.append(row.cols[i].name.as_str());
        r.append(": ");
        proof {
            reveal_strlit("");
        }
        let enc = encode(&row.cols[i].value, "");
        r.append(enc.as_str());
        proof {
            let part = row.cols@[i as int].name@ + ": "@ + row.cols@[i as int].value.encoding(
                Seq::empty(),
            );
            lemma_join_push(display_parts(row.cols@.take(i as int)), part, ", "@);
            assert(display_parts(row.cols@.take(i as int + 1)) =~= display_parts(
                row.cols@.take(i as int),
            ).push(part));
            assert(""@ =~= Seq::<char>::empty());
            assert(r@ =~= "[ "@ + join_with(display_parts(row.cols@.take(i as int + 1)), ", "@));
        }
        i += 1;
    }
    r.append(" ]");
    proof {
        assert(row.cols@.take(row.cols@.len() as int) =~= row.cols@);
    }
    r
}

/// An SQL identifier: wrapped in double quotes, embedded double quotes
/// doubled.
pub open spec fn ident_sql(name: Seq<char>) -> Seq<char> {
    seq!['"'] + double_ch(name, '"') + seq!['"']
}

/// An SQL value literal: text values are wrapped in single quotes with
/// embedded single quotes doubled; every other value stands as its
/// canonical encoding with `Null` for NULL. No other escaping is done.
pub open spec fn value_sql(v: ColumnValue) -> Seq<char> {
    match v {
        ColumnValue::Scalar(Scalar::Text(t)) => seq!['\''] + double_ch(t@, '\'') + seq!['\''],
        _ => v.encoding("Null"@),
    }
}

/// The quoted column names of a row, in order.
pub open spec fn ident_parts(cols: Seq<Column>) -> Seq<Seq<char>> {
    cols.map_values(|c: Column| ident_sql(c.name@))
}

/// The SQL value literals of a row, in order.
pub open spec fn value_parts(cols: Seq<Column>) -> Seq<Seq<char>> {
    cols.map_values(|c: Column| value_sql(c.value))
}

/// The INSERT statement for a row against a table.
pub open spec fn row_insert(table: Seq<char>, r: Row) -> Seq<char> {
    "insert into "@ + ident_sql(table) + " ("@ + join_with(ident_parts(r.cols@), ", "@) + ") VALUES("@
        + join_with(value_parts(r.cols@), ", "@) + ");"@
}

/// Renders a quoted SQL identifier.
fn ident_string(name: &str) -> (r: String)
    ensures
        r@ == ident_sql(name@),
{
    let mut r = String::from_str("\"");
    let d = doubled(name, '"');
    r.append(d.as_str());
    r.append("\"");
    proof {
        reveal_strlit("\"");
        assert(r@ =~= ident_sql(name@));
    }
    r
}

/// Renders one SQL value literal.
fn value_string(v: &ColumnValue) -> (r: String)
    requires
        v.wf(),
    ensures
        r@ == value_sql(*v),
{
    match v {
        ColumnValue::Scalar(Scalar::Text(t)) => {
            let mut r = String::from_str("'");
            let d = doubled(t.as_str(), '\'');
            r.append(d.as_str());
            r.append("'");
            proof {
                reveal_strlit("'");
                assert(r@ =~= value_sql(*v));
            }
            r
        },
        _ => encode(v, "Null"),
    }
}

/// Renders a row as an INSERT statement against `table`:
/// `insert into "table" ("col1", ...) VALUES(val1, ...);` with NULL
/// rendered as `Null` and text values single-quoted.
pub fn row_as_insert(table: &str, row: &Row) -> (r: String)
    requires
        row.wf(),
    ensures
        r@ == row_insert(table@, *row),
{
    let mut r = String::from_str("insert into ");
    let t = ident_string(table);
    r.append(t.as_str());
    r.append(" (");
    let mut i: usize = 0;
    proof {
        assert(join_with(ident_parts(row.cols@.take(0)), ", "@) =~= Seq::<char>::empty());
    }
    while i < row.cols.len()
        invariant
            i <= row.cols@.len(),
            row.wf(),
            r@ == "insert into "@ + ident_sql(table@) + " ("@ + join_with(
                ident_parts(row.cols@.take(i as int)),
                ", "@,
            ),
        decreases row.cols@.len() - i,
    {
        if i > 0 {
            r.append(", ");
        }
        let q = ident_string(row.cols[i].name.as_str());
        r.append(q.as_str());
        proof {
            lemma_join_push(
                ident_parts(row.cols@.take(i as int)),
                ident_sql(row.cols@[i as int].name@),
                ", "@,
            );
            assert(ident_parts(row.cols@.take(i as int + 1)) =~= ident_parts(
                row.cols@.take(i as int),
            ).push(ident_sql(row.cols@[i as int].name@)));
            assert(r@ =~= "insert into "@ + ident_sql(table@) + " ("@ + join_with(
                ident_parts(row.cols@.take(i as int + 1)),
                ", "@,
            ));
        }
        i += 1;
    }
    r.append(") VALUES(");
    let mut j: usize = 0;
    proof {
        assert(row.cols@.take(row.cols@.len() as int) =~= row.cols@);
        assert(join_with(value_parts(row.cols@.take(0)), ", "@) =~= Seq::<char>::empty());
    }
    while j < row.cols.len()
        invariant
            j <= row.cols@.len(),
            row.wf(),
            r@ == "insert into "@ + ident_sql(table@) + " ("@ + join_with(
                ident_parts(row.cols@),
                ", "@,
            ) + ") VALUES("@ + join_with(value_parts(row.cols@.take(j as int)), ", "@),
        decreases row.cols@.len() - j,
    {
        if j > 0 {
            r.append(", ");
        }
        let v = value_string(&row.cols[j].value);
        r.append(v.as_str());
        proof {
            lemma_join_push(
                value_parts(row.cols@.take(j as int)),
                value_sql(row.cols@[j as int].value),
                ", "@,
            );
            assert(value_parts(row.cols@.take(j as int + 1)) =~= value_parts(
                row.cols@.take(j as int),
            ).push(value_sql(row.cols@[j as int].value)));
            assert(r@ =~= "insert into "@ + ident_sql(table@) + " ("@ + join_with(
                ident_parts(row.cols@),
                ", "@,
            ) + ") VALUES("@ + join_with(value_parts(row.cols@.take(j as int + 1)), ", "@));
        }
        j += 1;
    }
    r.append(");");
    proof {
        assert(row.cols@.take(row.cols@.len() as int) =~= row.cols@);
        assert(r@ =~= row_insert(table@, *row));
    }
    r
}

/// The name-to-encoding pairs of a row, in projection order, with the
/// empty NULL token. Unlike a keyed map, repeated column names are kept.
pub fn row_map(row: &Row) -> (r: Vec<(String, String)>)
    requires
        row.wf(),
    ensures
        r@.len() == row.cols@.len(),
        forall|k: int|
            0 <= k < row.cols@.len() ==> (#[trigger] r@[k]).0@ == row.cols@[k].name@ && r@[k].1@
                == row.cols@[k].value.encoding(Seq::empty()),
{
    let mut r: Vec<(String, String)> = Vec::new();
    let mut i: usize = 0;
    while i < row.cols.len()
        invariant
            i <= row.cols@.len(),
            row.wf(),
            r@.len() == i,
            forall|k: int|
                0 <= k < i ==> (#[trigger] r@[k]).0@ == row.cols@[k].name@ && r@[k].1@
                    == row.cols@[k].value.encoding(Seq::empty()),
        decreases row.cols@.len() - i,
    {
        proof {
            reveal_strlit("");
        }
        let name = row.cols[i].name.clone();
        let enc = encode(&row.cols[i].value, "");
        proof {
            assert(""@ =~= Seq::<char>::empty());
        }
        r.push((name, enc));
        i += 1;
    }
    r
}

} // verus!
