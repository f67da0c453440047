//! Text-level building blocks for the canonical encoder: decimal and
//! hexadecimal digit mathematics, sequence joining, and verified rendering
//! of integers as decimal strings.

use vstd::prelude::*;
use vstd::string::{StrSliceExecFns, StringExecFns};

verus! {

/// The character for one decimal digit value.
pub open spec fn dec_digit(d: nat) -> char
    recommends
        d < 10,
{
    ((48 + d) as u8) as char
}

/// The character for one hexadecimal digit value, lower case.
pub open spec fn hex_digit(d: nat) -> char
    recommends
        d < 16,
{
    if d < 10 {
        dec_digit(d)
    } else {
        ((87 + d) as u8) as char
    }
}

/// Two lower-case hexadecimal digits for one byte.
pub open spec fn byte_hex(b: u8) -> Seq<char> {
    seq![hex_digit((b / 16) as nat), hex_digit((b % 16) as nat)]
}

/// The decimal digits of `n`, most significant first, with no sign and no
/// leading zero except for `n == 0` itself.
pub open spec fn dec_nat(n: nat) -> Seq<char>
    decreases n,
{
    if n < 10 {
        seq![dec_digit(n)]
    } else {
        dec_nat(n / 10) + seq![dec_digit(n % 10)]
    }
}

/// A decimal rendering always holds at least one digit.
pub proof fn lemma_dec_nat_nonempty(n: nat)
    ensures
        dec_nat(n).len() >= 1,
    decreases n,
{
    if n >= 10 {
        lemma_dec_nat_nonempty(n / 10);
    }
}

/// The decimal rendering of a possibly negative integer: a leading `-` for
/// negative values, then the digits of the magnitude.
pub open spec fn dec_int(n: int) -> Seq<char> {
    if n < 0 {
        seq!['-'] + dec_nat((-n) as nat)
    } else {
        dec_nat(n as nat)
    }
}

/// `parts` joined by `sep`: empty for no parts, otherwise the parts in
/// order with one separator between each adjacent pair.
pub open spec fn join_with(parts: Seq<Seq<char>>, sep: Seq<char>) -> Seq<char>
    decreases parts.len(),
{
    if parts.len() == 0 {
        Seq::empty()
    } else if parts.len() == 1 {
        parts[0]
    } else {
        join_with(parts.drop_last(), sep) + sep + parts.last()
    }
}

/// Relies on `String::push` of std, which vstd leaves unspecified: it
/// appends exactly the one character.
pub assume_specification[ String::push ](s: &mut String, ch: char)
    ensures
        final(s)@ == old(s)@.push(ch),
;

/// The characters of `s` with every occurrence of `q` doubled.
pub open spec fn double_ch(s: Seq<char>, q: char) -> Seq<char>
    decreases s.len(),
{
    if s.len() == 0 {
        Seq::empty()
    } else {
        double_ch(s.drop_last(), q) + (if s.last() == q {
            seq![q, q]
        } else {
            seq![s.last()]
        })
    }
}

/// Copies `s`, doubling every occurrence of `q`: the quoting rule for SQL
/// identifiers and string literals.
pub fn doubled(s: &str, q: char) -> (r: String)
    ensures
        r@ == double_ch(s@, q),
{
    let mut r = String::new();
    let n = s.unicode_len();
    let mut i: usize = 0;
    while i < n
        invariant
            n == s@.len(),
            i <= n,
            r@ == double_ch(s@.take(i as int), q),
        decreases n - i,
    {
        let ch = s.get_char(i);
        if ch == q {
            r.push(q);
            r.push(q);
        } else {
            r.push(ch);
        }
        proof {
            assert(s@.take(i as int + 1).drop_last() =~= s@.take(i as int));
            assert(r@ =~= double_ch(s@.take(i as int + 1), q));
        }
        i += 1;
    }
    proof {
        assert(s@.take(n as int) =~= s@);
    }
    r
}

/// Extending a joined sequence by one more part appends one separator and
/// the part, except that the first part stands alone.
pub proof fn lemma_join_push(parts: Seq<Seq<char>>, x: Seq<char>, sep: Seq<char>)
    ensures
        join_with(parts.push(x), sep) == if parts.len() == 0 {
            x
        } else {
            join_with(parts, sep) + sep + x
        },
{
    let t = parts.push(x);
    assert(t.last() == x);
    if parts.len() == 0 {
        assert(join_with(t, sep) == t[0]);
    } else {
        assert(t.drop_last() =~= parts);
    }
}

/// The one-character string for a decimal digit value.
fn dec_digit_str(d: u64) -> (r: &'static str)
    requires
        d < 10,
    ensures
        r@ == seq![dec_digit(d as nat)],
{
    proof {
        reveal_strlit("0");
        reveal_strlit("1");
        reveal_strlit("2");
        reveal_strlit("3");
        reveal_strlit("4");
        reveal_strlit("5");
        reveal_strlit("6");
        reveal_strlit("7");
        reveal_strlit("8");
        reveal_strlit("9");
    }
    let r = match d {
        0 => "0",
        1 => "1",
        2 => "2",
        3 => "3",
        4 => "4",
        5 => "5",
        6 => "6",
        7 => "7",
        8 => "8",
        _ => "9",
    };
    proof {
        assert(r@ =~= seq![dec_digit(d as nat)]);
    }
    r
}

/// Renders `n` in decimal, exactly as `dec_nat` describes.
pub fn u64_to_string(n: u64) -> (r: String)
    ensures
        r@ == dec_nat(n as nat),
    decreases n,
{
    if n < 10 {
        String::from_str(dec_digit_str(n))
    } else {
        let mut s = u64_to_string(n / 10);
        s.append(dec_digit_str(n % 10));
        s
    }
}

/// Renders a signed value in decimal, exactly as `dec_int` describes.
pub fn i64_to_string(n: i64) -> (r: String)
    ensures
        r@ == dec_int(n as int),
{
    proof {
        reveal_strlit("-");
    }
    if n >= 0 {
        u64_to_string(n as u64)
    } else {
        let mag: u64 = if n == i64::MIN {
            9223372036854775808u64
        } else {
            (-n) as u64
        };
        let mut s = String::from_str("-");
        let digits = u64_to_string(mag);
        s.append(digits.as_str());
        proof {
            assert(s@ =~= dec_int(n as int));
        }
        s
    }
}

} // verus!
