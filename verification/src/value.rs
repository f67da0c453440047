//! The canonical value encoder: a tagged union over the column types the
//! tool understands, and a pure encoding of each value as deterministic
//! text. The same text serves hashing, display and SQL-literal generation;
//! only the token standing for NULL differs between those uses.

use crate::foreign_text::{
    date_text, date_text_of, mac_text, mac_text_spec, time_text, time_text_of, timestamp_text,
    timestamp_text_of, timestamptz_text, timestamptz_text_of, uuid_text, uuid_text_spec,
    valid_date, valid_time,
};
use crate::text::{
    dec_int, dec_nat, i64_to_string, join_with, lemma_dec_nat_nonempty, lemma_join_push,
    u64_to_string,
};
use vstd::prelude::*;
use vstd::string::StringExecFns;

verus! {

/// A calendar date, held as plain fields.
#[derive(Clone, Copy)]
pub struct DateParts {
    pub year: i32,
    pub month: u8,
    pub day: u8,
}

/// A time of day with microsecond precision, held as plain fields.
#[derive(Clone, Copy)]
pub struct TimeParts {
    pub hour: u8,
    pub minute: u8,
    pub second: u8,
    pub micro: u32,
}

/// A coordinate pair; each component is the decimal text of its IEEE754
/// double value, rendered by the caller that read the row.
pub struct Coord {
    pub x: String,
    pub y: String,
}

impl Coord {
    /// The canonical text of the pair: the two components joined by a space.
    pub open spec fn text(self) -> Seq<char> {
        self.x@ + seq![' '] + self.y@
    }
}

/// One non-null column value of a recognized type.
pub enum Scalar {
    /// A boolean.
    Bool(bool),
    /// A bit string; its encoding only says whether any bit is set.
    Bit(Vec<bool>),
    /// A one-byte integer.
    Char(i8),
    /// A two-byte integer.
    Int2(i16),
    /// A four-byte integer.
    Int4(i32),
    /// An eight-byte integer.
    Int8(i64),
    /// An object identifier: a four-byte unsigned integer.
    Oid(u32),
    /// A double-precision float, held as the decimal text of the exact
    /// IEEE754 value.
    Float(String),
    /// A network subnet, held in its standard `addr/prefix` text.
    Cidr(String),
    /// A network address, held in its standard text.
    Inet(String),
    /// A six-byte hardware address.
    Mac(Vec<u8>),
    /// A sixteen-byte UUID.
    Uuid(Vec<u8>),
    /// A 2D point.
    Point(Coord),
    /// An axis-aligned rectangle, as its centre and the rendered height
    /// and width.
    Rect { center: Coord, height: String, width: String },
    /// An ordered point sequence; vertex order is preserved.
    Path(Vec<Coord>),
    /// A JSON scalar or document, held in its own text serialization.
    Json(String),
    /// A calendar date.
    Date(DateParts),
    /// A time of day.
    Time(TimeParts),
    /// A timestamp without a zone.
    Timestamp(DateParts, TimeParts),
    /// A zone-aware timestamp, normalised to UTC.
    Timestamptz(DateParts, TimeParts),
    /// Text, binary or name data, as provided.
    Text(String),
}

/// A column value: NULL, a scalar, an array of scalars with NULL elements
/// allowed, or a value of a type the encoder does not recognize.
pub enum ColumnValue {
    /// NULL, of any type.
    Null,
    /// One non-null scalar.
    Scalar(Scalar),
    /// An array; element order is preserved.
    Array(Vec<Option<Scalar>>),
    /// A value of an unrecognized type: a lossy fallback that encodes as
    /// the NULL token.
    Unsupported,
}

/// Whether any bit of the sequence is set.
pub open spec fn any_bit(bits: Seq<bool>) -> bool {
    exists|k: int| 0 <= k < bits.len() && bits[k]
}

/// The canonical text of a boolean.
pub open spec fn bool_text(b: bool) -> Seq<char> {
    if b {
        seq!['t', 'r', 'u', 'e']
    } else {
        seq!['f', 'a', 'l', 's', 'e']
    }
}

impl Scalar {
    /// The well-formedness of the held fields: byte lengths, field ranges
    /// and nonempty renderings, as the variants' readers rely on them.
    pub open spec fn wf(self) -> bool {
        match self {
            Scalar::Mac(b) => b@.len() == 6,
            Scalar::Uuid(b) => b@.len() == 16,
            Scalar::Float(t) => t@.len() > 0,
            Scalar::Cidr(t) => t@.len() > 0,
            Scalar::Inet(t) => t@.len() > 0,
            Scalar::Json(t) => t@.len() > 0,
            Scalar::Date(d) => valid_date(d.year as int, d.month as int, d.day as int),
            Scalar::Time(t) => valid_time(
                t.hour as int,
                t.minute as int,
                t.second as int,
                t.micro as int,
            ),
            Scalar::Timestamp(d, t) => valid_date(d.year as int, d.month as int, d.day as int)
                && valid_time(t.hour as int, t.minute as int, t.second as int, t.micro as int),
            Scalar::Timestamptz(d, t) => valid_date(d.year as int, d.month as int, d.day as int)
                && valid_time(t.hour as int, t.minute as int, t.second as int, t.micro as int),
            _ => true,
        }
    }

    /// The canonical text of one scalar.
    pub open spec fn text(self) -> Seq<char> {
        match self {
            Scalar::Bool(b) => bool_text(b),
            Scalar::Bit(v) => bool_text(any_bit(v@)),
            Scalar::Char(n) => dec_int(n as int),
            Scalar::Int2(n) => dec_int(n as int),
            Scalar::Int4(n) => dec_int(n as int),
            Scalar::Int8(n) => dec_int(n as int),
            Scalar::Oid(n) => dec_nat(n as nat),
            Scalar::Float(t) => t@,
            Scalar::Cidr(t) => t@,
            Scalar::Inet(t) => t@,
            Scalar::Mac(b) => mac_text_spec(b@),
            Scalar::Uuid(b) => uuid_text_spec(b@),
            Scalar::Point(c) => c.text(),
            Scalar::Rect { center, height, width } => center.text() + seq![' '] + height@
                + seq![' '] + width@,
            Scalar::Path(cs) => join_with(coord_texts(cs@), seq![' ']),
            Scalar::Json(t) => t@,
            Scalar::Date(d) => date_text_of(d.year as int, d.month as int, d.day as int),
            Scalar::Time(t) => time_text_of(
                t.hour as int,
                t.minute as int,
                t.second as int,
                t.micro as int,
            ),
            Scalar::Timestamp(d, t) => timestamp_text_of(
                d.year as int,
                d.month as int,
                d.day as int,
                t.hour as int,
                t.minute as int,
                t.second as int,
                t.micro as int,
            ),
            Scalar::Timestamptz(d, t) => timestamptz_text_of(
                d.year as int,
                d.month as int,
                d.day as int,
                t.hour as int,
                t.minute as int,
                t.second as int,
                t.micro as int,
            ),
            Scalar::Text(t) => t@,
        }
    }
}

/// The texts of a point sequence, in order.
pub open spec fn coord_texts(cs: Seq<Coord>) -> Seq<Seq<char>> {
    cs.map_values(|c: Coord| c.text())
}

/// The text of one array element: the NULL token for a missing element,
/// the scalar's own text otherwise.
pub open spec fn elem_text(e: Option<Scalar>, token: Seq<char>) -> Seq<char> {
    match e {
        Option::None => token,
        Option::Some(s) => s.text(),
    }
}

/// The texts of all array elements, in order.
pub open spec fn elem_texts(es: Seq<Option<Scalar>>, token: Seq<char>) -> Seq<Seq<char>> {
    es.map_values(|e: Option<Scalar>| elem_text(e, token))
}

impl ColumnValue {
    /// Well-formedness: every scalar held anywhere in the value is
    /// well formed.
    pub open spec fn wf(self) -> bool {
        match self {
            ColumnValue::Scalar(s) => s.wf(),
            ColumnValue::Array(es) => forall|k: int|
                0 <= k < es@.len() ==> (#[trigger] es@[k] matches Option::Some(s) ==> s.wf()),
            _ => true,
        }
    }

    /// The canonical encoding of the value, with `token` standing for NULL.
    pub open spec fn encoding(self, token: Seq<char>) -> Seq<char> {
        match self {
            ColumnValue::Null => token,
            ColumnValue::Scalar(s) => s.text(),
            ColumnValue::Array(es) => seq!['[', ' '] + join_with(
                elem_texts(es@, token),
                seq![',', ' '],
            ) + seq![' ', ']'],
            ColumnValue::Unsupported => token,
        }
    }
}

/// The one-word string for a boolean.
fn bool_str(b: bool) -> (r: &'static str)
    ensures
        r@ == bool_text(b),
{
    proof {
        reveal_strlit("true");
        reveal_strlit("false");
    }
    let r = if b {
        "true"
    } else {
        "false"
    };
    proof {
        assert(r@ =~= bool_text(b));
    }
    r
}

/// Whether any bit of the vector is set.
fn bits_any(bits: &Vec<bool>) -> (r: bool)
    ensures
        r == any_bit(bits@),
{
    let mut i: usize = 0;
    while i < bits.len()
        invariant
            i <= bits@.len(),
            forall|k: int| 0 <= k < i ==> !bits@[k],
        decreases bits@.len() - i,
    {
        if bits[i] {
            return true;
        }
        i += 1;
    }
    false
}

/// Renders a coordinate pair as its canonical text.
fn coord_string(c: &Coord) -> (r: String)
    ensures
        r@ == c.text(),
{
    proof {
        reveal_strlit(" ");
    }
    let mut r = c.x.clone();
    r.append(" ");
    r.append(c.y.as_str());
    proof {
        assert(r@ =~= c.text());
    }
    r
}

/// Renders one scalar as its canonical text.
fn encode_scalar(s: &Scalar) -> (r: String)
    requires
        s.wf(),
    ensures
        r@ == s.text(),
{
    proof {
        reveal_strlit(" ");
    }
    match s {
        Scalar::Bool(b) => String::from_str(bool_str(*b)),
        Scalar::Bit(v) => String::from_str(bool_str(bits_any(v))),
        Scalar::Char(n) => i64_to_string(*n as i64),
        Scalar::Int2(n) => i64_to_string(*n as i64),
        Scalar::Int4(n) => i64_to_string(*n as i64),
        Scalar::Int8(n) => i64_to_string(*n),
        Scalar::Oid(n) => u64_to_string(*n as u64),
        Scalar::Float(t) => t.clone(),
        Scalar::Cidr(t) => t.clone(),
        Scalar::Inet(t) => t.clone(),
        Scalar::Mac(b) => mac_text(b),
        Scalar::Uuid(b) => uuid_text(b),
        Scalar::Point(c) => coord_string(c),
        Scalar::Rect { center, height, width } => {
            let mut r = coord_string(center);
            r.append(" ");
            r.append(height.as_str());
            r.append(" ");
            r.append(width.as_str());
            proof {
                assert(r@ =~= s.text());
            }
            r
        },
        Scalar::Path(cs) => {
            let mut r = String::new();
            let mut i: usize = 0;
            while i < cs.len()
                invariant
                    i <= cs@.len(),
                    r@ == join_with(coord_texts(cs@.take(i as int)), seq![' ']),
                decreases cs@.len() - i,
            {
                proof {
                    reveal_strlit(" ");
                }
                if i > 0 {
                    r.append(" ");
                }
                let t = coord_string(&cs[i]);
                r.append(t.as_str());
                proof {
                    lemma_join_push(
                        coord_texts(cs@.take(i as int)),
                        cs@[i as int].text(),
                        seq![' '],
                    );
                    assert(coord_texts(cs@.take(i as int + 1)) =~= coord_texts(
                        cs@.take(i as int),
                    ).push(cs@[i as int].text()));
                    assert(r@ =~= join_with(coord_texts(cs@.take(i as int + 1)), seq![' ']));
                }
                i += 1;
            }
            proof {
                assert(cs@.take(cs@.len() as int) =~= cs@);
            }
            r
        },
        Scalar::Json(t) => t.clone(),
        Scalar::Date(d) => date_text(d.year, d.month, d.day),
        Scalar::Time(t) => time_text(t.hour, t.minute, t.second, t.micro),
        Scalar::Timestamp(d, t) => timestamp_text(
            d.year,
            d.month,
            d.day,
            t.hour,
            t.minute,
            t.second,
            t.micro,
        ),
        Scalar::Timestamptz(d, t) => timestamptz_text(
            d.year,
            d.month,
            d.day,
            t.hour,
            t.minute,
            t.second,
            t.micro,
        ),
        Scalar::Text(t) => t.clone(),
    }
}

/// Encodes one column value as canonical text, with `token` standing for
/// NULL: the core contract of the encoder. Same value and token, same
/// text, always.
pub fn encode(v: &ColumnValue, token: &str) -> (r: String)
    requires
        v.wf(),
    ensures
        r@ == v.encoding(token@),
{
    match v {
        ColumnValue::Null => String::from_str(token),
        ColumnValue::Unsupported => String::from_str(token),
        ColumnValue::Scalar(s) => encode_scalar(s),
        ColumnValue::Array(es) => {
            proof {
                reveal_strlit("[ ");
                reveal_strlit(" ]");
                reveal_strlit(", ");
            }
            let mut r = String::from_str("[ ");
            let mut i: usize = 0;
            proof {
                assert(r@ =~= seq!['[', ' '] + join_with(
                    elem_texts(es@.take(0), token@),
                    seq![',', ' '],
                ));
            }
            while i < es.len()
                invariant
                    i <= es@.len(),
                    forall|k: int|
                        0 <= k < es@.len() ==> (#[trigger] es@[k] matches Option::Some(s)
                            ==> s.wf()),
                    r@ == seq!['[', ' '] + join_with(
                        elem_texts(es@.take(i as int), token@),
                        seq![',', ' '],
                    ),
                decreases es@.len() - i,
            {
                proof {
                    reveal_strlit(", ");
                }
                if i > 0 {
                    r.append(", ");
                }
                match &es[i] {
                    Option::Some(s) => {
                        let t = encode_scalar(s);
                        r.append(t.as_str());
                    },
                    Option::None => {
                        r.append(token);
                    },
                }
                proof {
                    lemma_join_push(
                        elem_texts(es@.take(i as int), token@),
                        elem_text(es@[i as int], token@),
                        seq![',', ' '],
                    );
                    assert(elem_texts(es@.take(i as int + 1), token@) =~= elem_texts(
                        es@.take(i as int),
                        token@,
                    ).push(elem_text(es@[i as int], token@)));
                    assert(r@ =~= seq!['[', ' '] + join_with(
                        elem_texts(es@.take(i as int + 1), token@),
                        seq![',', ' '],
                    ));
                }
                i += 1;
            }
            r.append(" ]");
            proof {
                assert(es@.take(es@.len() as int) =~= es@);
                assert(r@ =~= v.encoding(token@));
            }
            r
        },
    }
}

/// Encoding determinism: the canonical text is a function of the value
/// and the NULL token alone, so two encodings of the same value with the
/// same token are always the same text, across calls and processes.
pub proof fn lemma_encode_deterministic(
    v: ColumnValue,
    token: Seq<char>,
    r1: Seq<char>,
    r2: Seq<char>,
)
    requires
        r1 == v.encoding(token),
        r2 == v.encoding(token),
    ensures
        r1 == r2,
{
}

/// Whether NULL distinctness can hold of a value at all: a text value
/// that is itself the empty string, and a path with no vertices, encode
/// to the empty text legitimately (an accepted ambiguity, not a defect);
/// temporal values are left to their trusted renderings; NULL and
/// unrecognized values are the token by design.
pub open spec fn encodes_nonempty(v: ColumnValue) -> bool {
    match v {
        ColumnValue::Null => false,
        ColumnValue::Unsupported => false,
        ColumnValue::Array(_) => true,
        ColumnValue::Scalar(s) => match s {
            Scalar::Text(t) => t@.len() > 0,
            Scalar::Path(cs) => cs@.len() > 0,
            Scalar::Date(_) => false,
            Scalar::Time(_) => false,
            Scalar::Timestamp(_, _) => false,
            Scalar::Timestamptz(_, _) => false,
            _ => true,
        },
    }
}

/// NULL distinctness: with the empty NULL token, a well-formed value
/// within `encodes_nonempty` never encodes to the empty text, so it can
/// never be mistaken for NULL.
pub proof fn lemma_null_distinct(v: ColumnValue)
    requires
        v.wf(),
        encodes_nonempty(v),
    ensures
        v.encoding(Seq::empty()) != ColumnValue::Null.encoding(Seq::empty()),
        v.encoding(Seq::empty()).len() > 0,
{
    match v {
        ColumnValue::Null => {},
        ColumnValue::Unsupported => {},
        ColumnValue::Array(_) => {
            assert(v.encoding(Seq::empty()).len() >= 4);
        },
        ColumnValue::Scalar(s) => {
            match s {
                Scalar::Bool(_) => {},
                Scalar::Bit(_) => {},
                Scalar::Char(n) => {
                    lemma_dec_nat_nonempty((if n < 0 {
                        -(n as int)
                    } else {
                        n as int
                    }) as nat);
                },
                Scalar::Int2(n) => {
                    lemma_dec_nat_nonempty((if n < 0 {
                        -(n as int)
                    } else {
                        n as int
                    }) as nat);
                },
                Scalar::Int4(n) => {
                    lemma_dec_nat_nonempty((if n < 0 {
                        -(n as int)
                    } else {
                        n as int
                    }) as nat);
                },
                Scalar::Int8(n) => {
                    lemma_dec_nat_nonempty((if n < 0 {
                        -(n as int)
                    } else {
                        n as int
                    }) as nat);
                },
                Scalar::Oid(n) => {
                    lemma_dec_nat_nonempty(n as nat);
                },
                Scalar::Mac(b) => {
                    let parts = b@.map_values(|x: u8| crate::text::byte_hex(x));
                    assert(parts.len() == 6);
                    assert(parts.last() == crate::text::byte_hex(b@[5]));
                    assert(join_with(parts, seq![':']).len() >= 2);
                },
                Scalar::Uuid(_) => {
                    assert(s.text().len() >= 4);
                },
                Scalar::Point(c) => {
                    assert(c.text().len() >= 1);
                },
                Scalar::Rect { .. } => {
                    assert(s.text().len() >= 1);
                },
                Scalar::Path(cs) => {
                    let parts = coord_texts(cs@);
                    assert(parts.len() == cs@.len());
                    assert(parts.last() == cs@.last().text());
                    if parts.len() == 1 {
                        assert(join_with(parts, seq![' ']) == parts[0]);
                        assert(parts[0].len() >= 1);
                    } else {
                        assert(join_with(parts, seq![' ']).len() >= 1);
                    }
                },
                _ => {},
            }
        },
    }
}

} // verus!
