//! Points in time on the command line: unix milliseconds, unix seconds, `YYYY-MM-DD`,
//! `YYYY-MM-DDTHH:MM[:SS]` (UTC) or full RFC 3339.

use vstd::prelude::*;
use vstd::utf8::encode_utf8;
use crate::recorder::{date_ms, parse_date};
use crate::text::{integer_value, parse_integer_bytes};

verus! {

/// Numbers below this are seconds, others milliseconds.
pub const FIRST_MS: i64 = 100_000_000_000;

/// The instant, in milliseconds, of the UTC date and time that `chrono` reads from the text in the
/// given format; none where it reads none.
pub uninterp spec fn datetime_ms(text: Seq<char>, fmt: Seq<char>) -> Option<int>;

/// The instant, in milliseconds, that `chrono` reads from a text in RFC 3339; none where it reads
/// none.
pub uninterp spec fn rfc3339_ms(text: Seq<char>) -> Option<int>;

/// `chrono::NaiveDateTime::parse_from_str`: the date and time in a text, taken as UTC.
#[verifier::external_body]
fn parse_date_time(text: &str, fmt: &str) -> (r: Option<i64>)
    ensures
        match r {
            Some(t) => datetime_ms(text@, fmt@) == Some(t as int),
            None => datetime_ms(text@, fmt@) is None,
        },
{
    chrono::NaiveDateTime::parse_from_str(text, fmt).ok().map(|t| t.and_utc().timestamp_millis())
}

/// `chrono::DateTime::parse_from_rfc3339`: the instant in a text with a time zone.
#[verifier::external_body]
fn parse_rfc3339(text: &str) -> (r: Option<i64>)
    ensures
        match r {
            Some(t) => rfc3339_ms(text@) == Some(t as int),
            None => rfc3339_ms(text@) is None,
        },
{
    chrono::DateTime::parse_from_rfc3339(text).ok().map(|t| t.timestamp_millis())
}

/// Unicode white space.
#[verifier::opaque]
pub open spec fn is_blank(c: char) -> bool {
    let x = c as int;
    9 <= x <= 13 || x == 32 || x == 0x85 || x == 0xa0 || x == 0x1680 || 0x2000 <= x <= 0x200a || x == 0x2028 || x == 0x2029 || x == 0x202f || x
        == 0x205f || x == 0x3000
}

fn blank(c: char) -> (r: bool)
    ensures
        r == is_blank(c),
{
    proof {
        reveal(is_blank);
    }
    let x: u32 = c as u32;
    9 <= x && x <= 13 || x == 32 || x == 0x85 || x == 0xa0 || x == 0x1680 || 0x2000 <= x && x <= 0x200a || x == 0x2028 || x == 0x2029 || x == 0x202f
        || x == 0x205f || x == 0x3000
}

/// The text without the white space at its two ends.
pub open spec fn trimmed(s: Seq<char>) -> Seq<char>
    decreases s.len(),
{
    if s.len() == 0 {
        s
    } else if is_blank(s[0]) {
        trimmed(s.drop_first())
    } else if is_blank(s.last()) {
        trimmed(s.drop_last())
    } else {
        s
    }
}

/// What is left between `a` and `b` once the ends are cut off, all of them blank.
pub open spec fn cut(s: Seq<char>, a: int, b: int, r: Seq<char>) -> bool {
    &&& 0 <= a <= b <= s.len()
    &&& s.subrange(a, b) == r
    &&& forall|i: int| 0 <= i < a || b <= i < s.len() ==> is_blank(#[trigger] s[i])
}

/// Trimming takes blanks from the two ends only, and all of them.
pub proof fn law_trimmed(s: Seq<char>)
    ensures
        trimmed(s).len() > 0 ==> !is_blank(trimmed(s)[0]) && !is_blank(trimmed(s).last()),
        exists|a: int, b: int| #[trigger] cut(s, a, b, trimmed(s)),
    decreases s.len(),
{
    if s.len() == 0 {
        assert(s.subrange(0, 0) =~= s);
        assert(cut(s, 0, 0, trimmed(s)));
    } else if is_blank(s[0]) {
        let d = s.drop_first();
        law_trimmed(d);
        let (a, b) = choose|a: int, b: int| #[trigger] cut(d, a, b, trimmed(d));
        assert(s.subrange(a + 1, b + 1) =~= d.subrange(a, b));
        assert forall|i: int| 0 <= i < a + 1 || b + 1 <= i < s.len() implies is_blank(#[trigger] s[i]) by {
            if i > 0 {
                assert(d[i - 1] == s[i]);
            }
        }
        assert(cut(s, a + 1, b + 1, trimmed(s)));
    } else if is_blank(s.last()) {
        let d = s.drop_last();
        law_trimmed(d);
        let (a, b) = choose|a: int, b: int| #[trigger] cut(d, a, b, trimmed(d));
        assert(s.subrange(a, b) =~= d.subrange(a, b));
        assert forall|i: int| 0 <= i < a || b <= i < s.len() implies is_blank(#[trigger] s[i]) by {
            if i < d.len() {
                assert(d[i] == s[i]);
            }
        }
        assert(cut(s, a, b, trimmed(s)));
    } else {
        assert(s.subrange(0, s.len() as int) =~= s);
        assert(cut(s, 0, s.len() as int, trimmed(s)));
    }
}

fn trim(text: &str) -> (r: &str)
    ensures
        r@ == trimmed(text@),
{
    let n: usize = text.unicode_len();
    let mut a: usize = 0;
    let mut b: usize = n;
    assert(text@.subrange(0, n as int) =~= text@);
    while a < b && blank(text.get_char(a))
        invariant
            a <= b == n == text@.len(),
            trimmed(text@) == trimmed(text@.subrange(a as int, b as int)),
        decreases n - a,
    {
        assert(text@.subrange(a as int, b as int).drop_first() =~= text@.subrange(a + 1, b as int));
        a = a + 1;
    }
    while a < b && blank(text.get_char(b - 1))
        invariant
            a <= b <= n == text@.len(),
            a < b ==> !is_blank(text@[a as int]),
            trimmed(text@) == trimmed(text@.subrange(a as int, b as int)),
        decreases b,
    {
        assert(text@.subrange(a as int, b as int).drop_last() =~= text@.subrange(a as int, b - 1));
        b = b - 1;
    }
    text.substring_char(a, b)
}

/// A number as a point in time: seconds where it is too small for milliseconds.
pub open spec fn time_of_number(n: int) -> int {
    if n < FIRST_MS {
        n * 1000
    } else {
        n
    }
}

/// The point in time, given what each notation makes of the text: a number first, then the
/// notations in their order.
pub open spec fn first_read(number: Option<i64>, read: Seq<Option<i64>>, i: int) -> Option<int>
    decreases read.len() - i,
{
    match number {
        Some(n) => Some(time_of_number(n as int)),
        None => if i >= read.len() {
            None
        } else {
            match read[i] {
                Some(t) => Some(t as int),
                None => first_read(number, read, i + 1),
            }
        },
    }
}

pub fn first_time(number: Option<i64>, read: &Vec<Option<i64>>) -> (r: Option<i64>)
    requires
        number matches Some(n) ==> time_of_number(n as int) >= i64::MIN,
    ensures
        match r {
            Some(t) => first_read(number, read@, 0) == Some(t as int),
            None => first_read(number, read@, 0) is None,
        },
{
    if let Some(n) = number {
        return Some(
            if n < FIRST_MS {
                n * 1000
            } else {
                n
            },
        );
    }
    let mut i: usize = 0;
    while i < read.len()
        invariant
            i <= read@.len(),
            number is None,
            first_read(number, read@, 0) == first_read(number, read@, i as int),
        decreases read@.len() - i,
    {
        if let Some(t) = read[i] {
            return Some(t);
        }
        i = i + 1;
    }
    None
}

/// A text that is no point in time.
#[derive(Clone, Debug)]
pub struct TimeError {
    pub text: String,
}

/// What a notation makes of a text, where it makes anything of it.
pub open spec fn or_else(a: Option<int>, b: Option<int>) -> Option<int> {
    match a {
        Some(t) => Some(t),
        None => b,
    }
}

/// The point in time that a text, already without blanks at its ends, stands for.
pub open spec fn time_value(s: Seq<char>) -> Option<int> {
    match integer_value(encode_utf8(s)) {
        Some(n) => Some(time_of_number(n as int)),
        None => or_else(
            date_ms(s, "%Y-%m-%d"@),
            or_else(
                datetime_ms(s, "%Y-%m-%dT%H:%M:%S"@),
                or_else(
                    datetime_ms(s, "%Y-%m-%dT%H:%M"@),
                    or_else(datetime_ms(s, "%Y-%m-%d %H:%M:%S"@), or_else(datetime_ms(s, "%Y-%m-%d %H:%M"@), rfc3339_ms(s))),
                ),
            ),
        ),
    }
}

/// Parse `--from/--to` values.
pub fn parse_time(text: &str) -> (r: Result<i64, TimeError>)
    requires
        integer_value(encode_utf8(trimmed(text@))) matches Some(n) ==> time_of_number(n as int) >= i64::MIN,
    ensures
        match r {
            Ok(t) => time_value(trimmed(text@)) == Some(t as int),
            Err(e) => time_value(trimmed(text@)) is None && e.text@ == trimmed(text@),
        },
{
    let s: &str = trim(text);
    let number: Option<i64> = parse_integer_bytes(s.as_bytes());
    let mut read: Vec<Option<i64>> = Vec::new();
    read.push(parse_date(s, "%Y-%m-%d"));
    read.push(parse_date_time(s, "%Y-%m-%dT%H:%M:%S"));
    read.push(parse_date_time(s, "%Y-%m-%dT%H:%M"));
    read.push(parse_date_time(s, "%Y-%m-%d %H:%M:%S"));
    read.push(parse_date_time(s, "%Y-%m-%d %H:%M"));
    read.push(parse_rfc3339(s));
    proof {
        reveal_with_fuel(first_read, 7);
    }
    match first_time(number, &read) {
        Some(t) => Ok(t),
        None => Err(TimeError { text: s.to_owned() }),
    }
}

} // verus!
