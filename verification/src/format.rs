//! Decimal text of integers and `YYYY-MM-DD` text of dates, as Rust's `{}`
//! and `{:02}` write them.

use vstd::prelude::*;
use crate::calendar::{calendar_of_epoch_day, date_of_day, day_in_range, lemma_date_of_day};

verus! {

/// The ASCII digit for `d` (0..=9).
pub open spec fn digit_char(d: int) -> char {
    if d == 0 {
        '0'
    } else if d == 1 {
        '1'
    } else if d == 2 {
        '2'
    } else if d == 3 {
        '3'
    } else if d == 4 {
        '4'
    } else if d == 5 {
        '5'
    } else if d == 6 {
        '6'
    } else if d == 7 {
        '7'
    } else if d == 8 {
        '8'
    } else {
        '9'
    }
}

/// The decimal digits of `n`, most significant first, no leading zero.
pub open spec fn decimal(n: nat) -> Seq<char>
    decreases n,
{
    if n < 10 {
        seq![digit_char(n as int)]
    } else {
        decimal(n / 10).push(digit_char((n % 10) as int))
    }
}

/// `n` in decimal, with a leading `-` when it is negative.
pub open spec fn signed_decimal(n: int) -> Seq<char> {
    if n < 0 {
        seq!['-'] + decimal((-n) as nat)
    } else {
        decimal(n as nat)
    }
}

/// `n` in decimal, padded with zeros to at least two digits.
pub open spec fn two_digits(n: nat) -> Seq<char> {
    if n < 10 {
        seq!['0'] + decimal(n)
    } else {
        decimal(n)
    }
}

/// `year-month-day`, the month and day padded to two digits.
pub open spec fn date_text(year: int, month: nat, day: nat) -> Seq<char> {
    signed_decimal(year) + seq!['-'] + two_digits(month) + seq!['-'] + two_digits(day)
}

/// `n` in decimal, padded with zeros to at least `width` digits.
pub open spec fn zero_padded(n: nat, width: nat) -> Seq<char> {
    let d = decimal(n);
    if d.len() < width {
        Seq::new((width - d.len()) as nat, |i: int| '0') + d
    } else {
        d
    }
}

/// A year as RFC 3339 text: four digits for the years 0..=9999, else a sign
/// and at least four digits.
pub open spec fn rfc3339_year(y: int) -> Seq<char> {
    if 0 <= y <= 9999 {
        zero_padded(y as nat, 4)
    } else if y < 0 {
        seq!['-'] + zero_padded((-y) as nat, 4)
    } else {
        seq!['+'] + zero_padded(y as nat, 4)
    }
}

/// A UTC offset of `offset` seconds as `+hh:mm` or `-hh:mm`, rounded to the
/// nearest minute.
pub open spec fn offset_text(offset: int) -> Seq<char> {
    let a = if offset < 0 {
        -offset
    } else {
        offset
    };
    let minutes = (a + 30) / 60;
    (if offset < 0 {
        seq!['-']
    } else {
        seq!['+']
    }) + two_digits((minutes / 60) as nat) + seq![':'] + two_digits((minutes % 60) as nat)
}

/// The RFC 3339 text of timestamp `secs` seen at a UTC offset of `offset`
/// seconds: the local date and time of day, then the offset.
pub open spec fn rfc3339_text(secs: int, offset: int) -> Seq<char> {
    let local = secs + offset;
    let (y, m, d) = date_of_day(local / 86400);
    let s = local % 86400;
    rfc3339_year(y) + seq!['-'] + two_digits(m as nat) + seq!['-'] + two_digits(d as nat) + seq!['T']
        + two_digits((s / 3600) as nat) + seq![':'] + two_digits((s % 3600 / 60) as nat) + seq![':']
        + two_digits((s % 60) as nat) + offset_text(offset)
}

/// The `YYYY-MM-DD` text of a day number.
pub open spec fn day_text(day: i32) -> Seq<char> {
    let (y, m, d) = date_of_day(day as int);
    date_text(y, m as nat, d as nat)
}

fn digit_str(d: u64) -> (r: &'static str)
    requires
        d < 10,
    ensures
        r@ == seq![digit_char(d as int)],
{
    let r = if d == 0 {
        proof {
            reveal_strlit("0");
        }
        "0"
    } else if d == 1 {
        proof {
            reveal_strlit("1");
        }
        "1"
    } else if d == 2 {
        proof {
            reveal_strlit("2");
        }
        "2"
    } else if d == 3 {
        proof {
            reveal_strlit("3");
        }
        "3"
    } else if d == 4 {
        proof {
            reveal_strlit("4");
        }
        "4"
    } else if d == 5 {
        proof {
            reveal_strlit("5");
        }
        "5"
    } else if d == 6 {
        proof {
            reveal_strlit("6");
        }
        "6"
    } else if d == 7 {
        proof {
            reveal_strlit("7");
        }
        "7"
    } else if d == 8 {
        proof {
            reveal_strlit("8");
        }
        "8"
    } else {
        proof {
            reveal_strlit("9");
        }
        "9"
    };
    assert(r@ =~= seq![digit_char(d as int)]);
    r
}

/// The decimal text of `n` (as `format!("{}", n)`).
pub fn decimal_string(n: u64) -> (r: String)
    ensures
        r@ == decimal(n as nat),
    decreases n,
{
    if n < 10 {
        String::from_str(digit_str(n))
    } else {
        let mut s = decimal_string(n / 10);
        s.append(digit_str(n % 10));
        s
    }
}

/// The decimal text of `n`, with `-` in front when negative (as
/// `format!("{}", n)`).
pub fn signed_decimal_string(n: i64) -> (r: String)
    ensures
        r@ == signed_decimal(n as int),
{
    if n < 0 {
        let magnitude: u64 = (0i128 - n as i128) as u64;
        proof {
            reveal_strlit("-");
        }
        let mut s = String::from_str("-");
        let digits = decimal_string(magnitude);
        s.append(digits.as_str());
        assert(s@ =~= seq!['-'] + decimal((-n) as nat));
        s
    } else {
        decimal_string(n as u64)
    }
}

/// The decimal text of `n` padded with zeros to two digits (as
/// `format!("{:02}", n)`).
pub fn two_digit_string(n: u64) -> (r: String)
    ensures
        r@ == two_digits(n as nat),
{
    if n < 10 {
        proof {
            reveal_strlit("0");
        }
        let mut s = String::from_str("0");
        s.append(digit_str(n));
        assert(s@ =~= seq!['0'] + decimal(n as nat));
        s
    } else {
        decimal_string(n)
    }
}

/// The text `year-MM-DD` (as `format!("{}-{:02}-{:02}", year, month, day)`).
pub fn date_string(year: i32, month: u32, day: u32) -> (r: String)
    ensures
        r@ == date_text(year as int, month as nat, day as nat),
{
    proof {
        reveal_strlit("-");
    }
    let mut s = signed_decimal_string(year as i64);
    s.append("-");
    let m = two_digit_string(month as u64);
    s.append(m.as_str());
    s.append("-");
    let d = two_digit_string(day as u64);
    s.append(d.as_str());
    assert(s@ =~= date_text(year as int, month as nat, day as nat));
    s
}

/// The `YYYY-MM-DD` text of a day number.
pub fn day_string(day: i32) -> (r: String)
    requires
        day_in_range(day as int),
    ensures
        r@ == day_text(day),
{
    match calendar_of_epoch_day(day) {
        Some((y, m, d)) => {
            proof {
                lemma_date_of_day(y as int, m as int, d as int);
            }
            date_string(y, m, d)
        },
        None => {
            proof {
                assert(false);
            }
            String::new()
        },
    }
}

} // verus!
