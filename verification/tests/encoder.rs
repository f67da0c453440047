use dbdiff::value::{encode, ColumnValue, Coord, DateParts, Scalar, TimeParts};

fn enc(v: &ColumnValue) -> String {
    encode(v, "")
}

#[test]
fn null_uses_token() {
    assert_eq!(enc(&ColumnValue::Null), "");
    assert_eq!(encode(&ColumnValue::Null, "Null"), "Null");
}

#[test]
fn unsupported_uses_token() {
    assert_eq!(enc(&ColumnValue::Unsupported), "");
    assert_eq!(encode(&ColumnValue::Unsupported, "Null"), "Null");
}

#[test]
fn booleans() {
    assert_eq!(enc(&ColumnValue::Scalar(Scalar::Bool(true))), "true");
    assert_eq!(enc(&ColumnValue::Scalar(Scalar::Bool(false))), "false");
}

#[test]
fn bit_strings_encode_any_bit_set() {
    assert_eq!(enc(&ColumnValue::Scalar(Scalar::Bit(vec![false, false]))), "false");
    assert_eq!(enc(&ColumnValue::Scalar(Scalar::Bit(vec![false, true]))), "true");
    assert_eq!(enc(&ColumnValue::Scalar(Scalar::Bit(vec![]))), "false");
}

#[test]
fn integers() {
    assert_eq!(enc(&ColumnValue::Scalar(Scalar::Char(-5))), "-5");
    assert_eq!(enc(&ColumnValue::Scalar(Scalar::Char(0))), "0");
    assert_eq!(enc(&ColumnValue::Scalar(Scalar::Int2(1234))), "1234");
    assert_eq!(enc(&ColumnValue::Scalar(Scalar::Int4(-2147483648))), "-2147483648");
    assert_eq!(enc(&ColumnValue::Scalar(Scalar::Int8(i64::MIN))), "-9223372036854775808");
    assert_eq!(enc(&ColumnValue::Scalar(Scalar::Int8(i64::MAX))), "9223372036854775807");
    assert_eq!(enc(&ColumnValue::Scalar(Scalar::Oid(4294967295))), "4294967295");
}

#[test]
fn rendered_texts_pass_through() {
    assert_eq!(enc(&ColumnValue::Scalar(Scalar::Float(String::from("3.14")))), "3.14");
    assert_eq!(enc(&ColumnValue::Scalar(Scalar::Cidr(String::from("10.0.0.0/8")))), "10.0.0.0/8");
    assert_eq!(enc(&ColumnValue::Scalar(Scalar::Inet(String::from("192.168.0.1")))), "192.168.0.1");
    assert_eq!(
        enc(&ColumnValue::Scalar(Scalar::Json(String::from("{\"a\":1}")))),
        "{\"a\":1}"
    );
    assert_eq!(enc(&ColumnValue::Scalar(Scalar::Text(String::from("hello")))), "hello");
}

#[test]
fn mac_addresses() {
    let v = ColumnValue::Scalar(Scalar::Mac(vec![0x01, 0x23, 0x45, 0x67, 0x89, 0xab]));
    assert_eq!(enc(&v), "01:23:45:67:89:ab");
    let v = ColumnValue::Scalar(Scalar::Mac(vec![0, 0, 0, 0, 0, 0]));
    assert_eq!(enc(&v), "00:00:00:00:00:00");
}

#[test]
fn uuids() {
    let v = ColumnValue::Scalar(Scalar::Uuid(vec![
        0x55, 0x0e, 0x84, 0x00, 0xe2, 0x9b, 0x41, 0xd4, 0xa7, 0x16, 0x44, 0x66, 0x55, 0x44, 0x00,
        0x00,
    ]));
    assert_eq!(enc(&v), "550e8400-e29b-41d4-a716-446655440000");
    let v = ColumnValue::Scalar(Scalar::Uuid(vec![0; 16]));
    assert_eq!(enc(&v), "00000000-0000-0000-0000-000000000000");
}

fn coord(x: &str, y: &str) -> Coord {
    Coord { x: String::from(x), y: String::from(y) }
}

#[test]
fn geometry() {
    assert_eq!(enc(&ColumnValue::Scalar(Scalar::Point(coord("1.5", "2.5")))), "1.5 2.5");
    let rect = Scalar::Rect {
        center: coord("1", "2"),
        height: String::from("3"),
        width: String::from("4"),
    };
    assert_eq!(enc(&ColumnValue::Scalar(rect)), "1 2 3 4");
    let path = Scalar::Path(vec![coord("0", "0"), coord("1", "1"), coord("2", "4")]);
    assert_eq!(enc(&ColumnValue::Scalar(path)), "0 0 1 1 2 4");
    assert_eq!(enc(&ColumnValue::Scalar(Scalar::Path(vec![]))), "");
}

#[test]
fn temporal_values() {
    let d = DateParts { year: 2021, month: 3, day: 4 };
    let t = TimeParts { hour: 1, minute: 2, second: 3, micro: 0 };
    assert_eq!(enc(&ColumnValue::Scalar(Scalar::Date(d))), "2021-03-04");
    assert_eq!(enc(&ColumnValue::Scalar(Scalar::Time(t))), "01:02:03");
    assert_eq!(enc(&ColumnValue::Scalar(Scalar::Timestamp(d, t))), "2021-03-04 01:02:03");
    assert_eq!(enc(&ColumnValue::Scalar(Scalar::Timestamptz(d, t))), "2021-03-04 01:02:03 UTC");
}

#[test]
fn temporal_fractions() {
    let d = DateParts { year: 1999, month: 12, day: 31 };
    let t = TimeParts { hour: 23, minute: 59, second: 59, micro: 123456 };
    assert_eq!(enc(&ColumnValue::Scalar(Scalar::Time(t))), "23:59:59.123456");
    assert_eq!(
        enc(&ColumnValue::Scalar(Scalar::Timestamp(d, t))),
        "1999-12-31 23:59:59.123456"
    );
}

#[test]
fn temporal_values_are_not_empty() {
    let d = DateParts { year: 1, month: 1, day: 1 };
    let t = TimeParts { hour: 0, minute: 0, second: 0, micro: 0 };
    assert!(!enc(&ColumnValue::Scalar(Scalar::Date(d))).is_empty());
    assert!(!enc(&ColumnValue::Scalar(Scalar::Time(t))).is_empty());
    assert!(!enc(&ColumnValue::Scalar(Scalar::Timestamp(d, t))).is_empty());
    assert!(!enc(&ColumnValue::Scalar(Scalar::Timestamptz(d, t))).is_empty());
}

#[test]
fn arrays_preserve_order_and_null_elements() {
    let v = ColumnValue::Array(vec![
        Some(Scalar::Int4(1)),
        None,
        Some(Scalar::Int4(3)),
    ]);
    assert_eq!(enc(&v), "[ 1, , 3 ]");
    assert_eq!(encode(&v, "Null"), "[ 1, Null, 3 ]");
    let empty = ColumnValue::Array(vec![]);
    assert_eq!(enc(&empty), "[  ]");
}

#[test]
fn array_of_text_and_bool() {
    let v = ColumnValue::Array(vec![
        Some(Scalar::Text(String::from("a"))),
        Some(Scalar::Bool(true)),
    ]);
    assert_eq!(enc(&v), "[ a, true ]");
}

#[test]
fn encoding_is_deterministic_across_calls() {
    let v = ColumnValue::Scalar(Scalar::Timestamp(
        DateParts { year: 2021, month: 3, day: 4 },
        TimeParts { hour: 1, minute: 2, second: 3, micro: 9 },
    ));
    let first = enc(&v);
    for _ in 0..5 {
        assert_eq!(enc(&v), first);
    }
}
