//! Writing a day of the calendar as the sitemap gives it: year, month and
//! day of the month with `-` between them, the month and the day in two
//! digits, the year in four.

use crate::response::{decimal, decimal_text};
use vstd::prelude::*;

verus! {

/// `count` zeros.
pub open spec fn zeros(count: nat) -> Seq<char> {
    Seq::new(count, |i: int| '0')
}

/// `n` in decimal, with zeros in front of it where it has fewer than
/// `width` digits.
pub open spec fn padded(n: nat, width: nat) -> Seq<char> {
    if decimal(n).len() >= width {
        decimal(n)
    } else {
        zeros((width - decimal(n).len()) as nat) + decimal(n)
    }
}

/// The sign that a year is written with: `-` before year 0, `+` after year
/// 9999, and none between.
pub open spec fn year_sign(year: int) -> Seq<char> {
    if year < 0 {
        seq!['-']
    } else if year > 9999 {
        seq!['+']
    } else {
        Seq::<char>::empty()
    }
}

/// The size of a year without its sign.
pub open spec fn magnitude(year: int) -> nat {
    if year < 0 {
        (-year) as nat
    } else {
        year as nat
    }
}

/// A year as it is written: its sign, and its size in four digits or more.
pub open spec fn year_text(year: int) -> Seq<char> {
    year_sign(year) + padded(magnitude(year), 4)
}

/// A day as it is written, `2024-02-29` for one.
pub open spec fn day_text(year: int, month: nat, day: nat) -> Seq<char> {
    year_text(year) + seq!['-'] + padded(month, 2) + seq!['-'] + padded(day, 2)
}

/// `n` in decimal, in `width` digits at least; see `padded`.
pub fn write_padded(n: usize, width: usize) -> (text: String)
    ensures
        text@ == padded(n as nat, width as nat),
{
    let digits = decimal_text(n);
    let have: usize = digits.as_str().unicode_len();
    if have >= width {
        return digits;
    }
    let missing: usize = width - have;
    let mut text = String::new();
    let mut i: usize = 0;
    assert(text@ =~= zeros(0));
    while i < missing
        invariant
            i <= missing,
            text@ == zeros(i as nat),
        decreases missing - i,
    {
        proof {
            reveal_strlit("0");
        }
        text.append("0");
        i += 1;
        assert(text@ =~= zeros(i as nat));
    }
    text.append(digits.as_str());
    text
}

/// The size of a year without its sign; see `magnitude`.
fn year_size(year: i32) -> (size: usize)
    ensures
        size == magnitude(year as int),
{
    if year >= 0 {
        year as usize
    } else if year == i32::MIN {
        2147483648usize
    } else {
        (-year) as usize
    }
}

/// A day as it is written; see `day_text`.
pub fn write_day(year: i32, month: u32, day: u32) -> (text: String)
    ensures
        text@ == day_text(year as int, month as nat, day as nat),
{
    proof {
        reveal_strlit("-");
        reveal_strlit("+");
    }
    let mut text = String::new();
    if year < 0 {
        text.append("-");
    } else if year > 9999 {
        text.append("+");
    }
    assert(text@ =~= year_sign(year as int));
    let size = write_padded(year_size(year), 4);
    text.append(size.as_str());
    text.append("-");
    let month_text = write_padded(month as usize, 2);
    text.append(month_text.as_str());
    text.append("-");
    let day_of_month = write_padded(day as usize, 2);
    text.append(day_of_month.as_str());
    assert(text@ =~= day_text(year as int, month as nat, day as nat));
    text
}

/// The day of today in UTC: year, month and day of the month, as chrono's
/// `Utc::now` gives it and its `Datelike` reads it. The month is one of
/// 1 to 12 and the day one of 1 to 31; nothing more is claimed, for the
/// result depends on the clock. `Utc::now` panics where the clock stands
/// before 1970.
#[verifier::external_body]
pub(crate) fn today() -> (date: (i32, u32, u32))
    ensures
        1 <= date.1 <= 12,
        1 <= date.2 <= 31,
{
    let now = chrono::Utc::now();
    (chrono::Datelike::year(&now), chrono::Datelike::month(&now), chrono::Datelike::day(&now))
}

} // verus!
