//! Canonical text for values whose rendering lives in outside crates:
//! temporal values (chrono), UUIDs (uuid) and hardware addresses (eui48).
//!
//! The temporal renderings are named by uninterpreted spec functions: they
//! depend on the numeric fields alone, and every caller's contract speaks
//! of those names. The UUID and MAC renderings are short enough to state
//! exactly as hexadecimal text.

use crate::text::{byte_hex, join_with};
use vstd::prelude::*;

verus! {

/// Whether `year-month-day` is a proleptic Gregorian calendar date of the
/// common era, within the four-digit years.
pub open spec fn valid_date(year: int, month: int, day: int) -> bool {
    &&& 1 <= year <= 9999
    &&& 1 <= month <= 12
    &&& 1 <= day <= days_in_month(year, month)
}

/// Whether `year` is a leap year of the proleptic Gregorian calendar.
pub open spec fn leap_year(year: int) -> bool {
    (year % 4 == 0 && year % 100 != 0) || year % 400 == 0
}

/// The number of days of one month.
pub open spec fn days_in_month(year: int, month: int) -> int {
    if month == 2 {
        if leap_year(year) {
            29
        } else {
            28
        }
    } else if month == 4 || month == 6 || month == 9 || month == 11 {
        30
    } else {
        31
    }
}

/// Whether the fields form a time of day with microsecond precision.
pub open spec fn valid_time(hour: int, minute: int, second: int, micro: int) -> bool {
    &&& 0 <= hour < 24
    &&& 0 <= minute < 60
    &&& 0 <= second < 60
    &&& 0 <= micro < 1000000
}

/// The ISO-8601-style text of a calendar date; a function of the fields alone.
pub uninterp spec fn date_text_of(year: int, month: int, day: int) -> Seq<char>;

/// The ISO-8601-style text of a time of day; a function of the fields alone.
pub uninterp spec fn time_text_of(hour: int, minute: int, second: int, micro: int) -> Seq<char>;

/// The ISO-8601-style text of a naive timestamp; a function of the fields alone.
pub uninterp spec fn timestamp_text_of(
    year: int,
    month: int,
    day: int,
    hour: int,
    minute: int,
    second: int,
    micro: int,
) -> Seq<char>;

/// The ISO-8601-style text of a UTC timestamp, with its zone marker; a
/// function of the fields alone.
pub uninterp spec fn timestamptz_text_of(
    year: int,
    month: int,
    day: int,
    hour: int,
    minute: int,
    second: int,
    micro: int,
) -> Seq<char>;

/// Relies on `chrono::NaiveDate`'s `Display` (`YYYY-MM-DD`): deterministic in
/// the fields, never empty; `from_ymd_opt` is `Some` for every valid date in
/// this range, so the unwrap cannot panic.
#[verifier::external_body]
pub fn date_text(year: i32, month: u8, day: u8) -> (r: String)
    requires
        valid_date(year as int, month as int, day as int),
    ensures
        r@ == date_text_of(year as int, month as int, day as int),
        r@.len() > 0,
{
    chrono::NaiveDate::from_ymd_opt(year, month as u32, day as u32).unwrap().to_string()
}

/// Relies on `chrono::NaiveTime`'s `Display` (`HH:MM:SS`, then a dot and
/// the fraction when it is nonzero): deterministic in the fields, never
/// empty; `from_hms_micro_opt` is `Some` for every valid time in this
/// range, so the unwrap cannot panic.
#[verifier::external_body]
pub fn time_text(hour: u8, minute: u8, second: u8, micro: u32) -> (r: String)
    requires
        valid_time(hour as int, minute as int, second as int, micro as int),
    ensures
        r@ == time_text_of(hour as int, minute as int, second as int, micro as int),
        r@.len() > 0,
{
    chrono::NaiveTime::from_hms_micro_opt(hour as u32, minute as u32, second as u32, micro)
        .unwrap()
        .to_string()
}

/// Relies on `chrono::NaiveDateTime`'s `Display` (`YYYY-MM-DD HH:MM:SS`,
/// then a dot and the fraction when it is nonzero): deterministic in the
/// fields, never empty; both `_opt` constructors are `Some` on this range,
/// so the unwraps cannot panic.
#[verifier::external_body]
pub fn timestamp_text(
    year: i32,
    month: u8,
    day: u8,
    hour: u8,
    minute: u8,
    second: u8,
    micro: u32,
) -> (r: String)
    requires
        valid_date(year as int, month as int, day as int),
        valid_time(hour as int, minute as int, second as int, micro as int),
    ensures
        r@ == timestamp_text_of(
            year as int,
            month as int,
            day as int,
            hour as int,
            minute as int,
            second as int,
            micro as int,
        ),
        r@.len() > 0,
{
    chrono::NaiveDate::from_ymd_opt(year, month as u32, day as u32)
        .unwrap()
        .and_hms_micro_opt(hour as u32, minute as u32, second as u32, micro)
        .unwrap()
        .to_string()
}

/// Relies on `chrono::DateTime::<Utc>`'s `Display` (`YYYY-MM-DD HH:MM:SS`,
/// an optional fraction, then ` UTC`): deterministic in the fields, never
/// empty; the `_opt` constructors are `Some` on this range and `and_utc`
/// is total, so nothing here can panic.
#[verifier::external_body]
pub fn timestamptz_text(
    year: i32,
    month: u8,
    day: u8,
    hour: u8,
    minute: u8,
    second: u8,
    micro: u32,
) -> (r: String)
    requires
        valid_date(year as int, month as int, day as int),
        valid_time(hour as int, minute as int, second as int, micro as int),
    ensures
        r@ == timestamptz_text_of(
            year as int,
            month as int,
            day as int,
            hour as int,
            minute as int,
            second as int,
            micro as int,
        ),
        r@.len() > 0,
{
    chrono::NaiveDate::from_ymd_opt(year, month as u32, day as u32)
        .unwrap()
        .and_hms_micro_opt(hour as u32, minute as u32, second as u32, micro)
        .unwrap()
        .and_utc()
        .to_string()
}

/// The lower-case hexadecimal digit pairs of `bytes`, run together.
pub open spec fn bytes_hex(bytes: Seq<u8>) -> Seq<char>
    decreases bytes.len(),
{
    if bytes.len() == 0 {
        Seq::empty()
    } else {
        byte_hex(bytes.first()) + bytes_hex(bytes.drop_first())
    }
}

/// The lower-case hyphenated form of a 16-byte UUID: hexadecimal digit
/// pairs grouped 4-2-2-2-6 bytes, the groups joined by `-`.
pub open spec fn uuid_text_spec(bytes: Seq<u8>) -> Seq<char>
    recommends
        bytes.len() == 16,
{
    bytes_hex(bytes.subrange(0, 4)) + seq!['-'] + bytes_hex(bytes.subrange(4, 6)) + seq!['-']
        + bytes_hex(bytes.subrange(6, 8)) + seq!['-'] + bytes_hex(bytes.subrange(8, 10))
        + seq!['-'] + bytes_hex(bytes.subrange(10, 16))
}

/// The colon-hexadecimal form of a 6-byte hardware address: one lower-case
/// digit pair per byte, joined by `:`.
pub open spec fn mac_text_spec(bytes: Seq<u8>) -> Seq<char>
    recommends
        bytes.len() == 6,
{
    join_with(bytes.map_values(|b: u8| byte_hex(b)), seq![':'])
}

/// Relies on `uuid::Uuid`'s `Display`: the lower-case hyphenated form,
/// `8-4-4-4-12` hexadecimal digits of the 16 bytes in order.
#[verifier::external_body]
pub fn uuid_text(bytes: &Vec<u8>) -> (r: String)
    requires
        bytes@.len() == 16,
    ensures
        r@ == uuid_text_spec(bytes@),
{
    let mut b = [0u8; 16];
    b.copy_from_slice(bytes.as_slice());
    uuid::Uuid::from_bytes(b).to_string()
}

/// Relies on `eui48::MacAddress::to_string` with the `HexString` format:
/// two lower-case hexadecimal digits per byte, the bytes joined by `:`.
#[verifier::external_body]
pub fn mac_text(bytes: &Vec<u8>) -> (r: String)
    requires
        bytes@.len() == 6,
    ensures
        r@ == mac_text_spec(bytes@),
{
    let mut b = [0u8; 6];
    b.copy_from_slice(bytes.as_slice());
    eui48::MacAddress::new(b).to_string(eui48::MacAddressFormat::HexString)
}

} // verus!
