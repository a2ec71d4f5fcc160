//! Calendar dates as written in a document header: `month/day/year`.
use vstd::prelude::*;
use crate::text::{
    is_digit, lemma_decimal_digits, lemma_parse_decimal, lemma_split_concat, lemma_split_single, chars_of, decimal, parse_unsigned, parse_unsigned_chars, push_decimal, split_chars, split_on, views};

verus! {

/// A calendar date. Only the month is checked: the day and the year are kept as
/// written.
#[derive(Clone, Copy, Debug, PartialEq, Eq, Structural)]
pub struct Date {
    pub month: u8,
    pub day: u8,
    pub year: u16,
}

/// The English names of the twelve months, January first.
pub open spec fn month_names() -> Seq<Seq<char>> {
    seq![
        "January"@,
        "February"@,
        "March"@,
        "April"@,
        "May"@,
        "June"@,
        "July"@,
        "August"@,
        "September"@,
        "October"@,
        "November"@,
        "December"@,
    ]
}

/// The name of month `m`; `"invalid"` for a number outside 1 to 12.
pub open spec fn month_name(m: nat) -> Seq<char> {
    if 1 <= m <= 12 {
        month_names()[m - 1]
    } else {
        "invalid"@
    }
}

/// A date as displayed: `"<MonthName> <day>, <year>"`.
pub open spec fn date_text(d: Date) -> Seq<char> {
    month_name(d.month as nat) + " "@ + decimal(d.day as nat) + ", "@ + decimal(d.year as nat)
}

/// The date that a `month/day/year` token denotes: the first three pieces between
/// slashes must read as a month from 1 to 12, a day that fits in a `u8` and a year
/// that fits in a `u16`.
pub open spec fn date_of(s: Seq<char>) -> Option<Date> {
    let parts = split_on(s, '/');
    if parts.len() < 3 {
        None
    } else {
        match (
            parse_unsigned(parts[0], 255),
            parse_unsigned(parts[1], 255),
            parse_unsigned(parts[2], 65535),
        ) {
            (Some(m), Some(d), Some(y)) => if 1 <= m <= 12 {
                Some(Date { month: m as u8, day: d as u8, year: y as u16 })
            } else {
                None
            },
            _ => None,
        }
    }
}

/// A date read from a valid token is displayed as the month's name, then the day
/// and the year as they were read (without leading zeros or sign); its month is
/// always one of the twelve.
pub proof fn lemma_date_display(s: Seq<char>)
    requires
        date_of(s) is Some,
    ensures
        ({
            let d = date_of(s)->0;
            let parts = split_on(s, '/');
            &&& 1 <= d.month <= 12
            &&& month_name(d.month as nat) == month_names()[d.month - 1]
            &&& date_text(d) == month_names()[d.month - 1] + " "@ + decimal(
                parse_unsigned(parts[1], 255)->0,
            ) + ", "@ + decimal(parse_unsigned(parts[2], 65535)->0)
            &&& d.month as nat == parse_unsigned(parts[0], 255)->0
        }),
{
}

/// A date written as `month/day/year` in decimal, without leading zeros, reads back
/// as itself, and is displayed as `"<MonthName> <day>, <year>"`.
pub proof fn lemma_date_round_trip(m: u8, d: u8, y: u16)
    requires
        1 <= m <= 12,
    ensures
        ({
            let token = decimal(m as nat) + seq!['/'] + decimal(d as nat) + seq!['/'] + decimal(
                y as nat,
            );
            &&& date_of(token) == Some(Date { month: m, day: d, year: y })
            &&& date_text(Date { month: m, day: d, year: y }) == month_names()[m - 1] + " "@
                + decimal(d as nat) + ", "@ + decimal(y as nat)
        }),
{
    let a = decimal(m as nat);
    let b = decimal(d as nat);
    let c = decimal(y as nat);
    lemma_decimal_digits(m as nat);
    lemma_decimal_digits(d as nat);
    lemma_decimal_digits(y as nat);
    assert forall|x: Seq<char>| (x == a || x == b || x == c) && (forall|i: int|
        0 <= i < x.len() ==> is_digit(#[trigger] x[i])) implies !x.contains('/') by {
        assert forall|i: int| 0 <= i < x.len() implies x[i] != '/' by {
            assert(is_digit(x[i]));
        }
    }
    lemma_split_single(a, '/');
    lemma_split_single(b, '/');
    lemma_split_single(c, '/');
    lemma_split_concat(b, '/', c);
    lemma_split_concat(a, '/', b.push('/') + c);
    assert(a + seq!['/'] + b + seq!['/'] + c =~= a.push('/') + (b.push('/') + c));
    assert(split_on(a + seq!['/'] + b + seq!['/'] + c, '/') =~= seq![a, b, c]);
    lemma_parse_decimal(m as nat, 255);
    lemma_parse_decimal(d as nat, 255);
    lemma_parse_decimal(y as nat, 65535);
}

impl Date {
    /// Reads a `month/day/year` token.
    pub fn new(text: &str) -> (r: Option<Date>)
        ensures
            r == date_of(text@),
    {
        let cs = chars_of(text);
        Date::from_chars(&cs)
    }

    /// Reads a `month/day/year` token given as characters.
    pub fn from_chars(cs: &Vec<char>) -> (r: Option<Date>)
        ensures
            r == date_of(cs@),
    {
        let parts = split_chars(cs, '/');
        proof {
            assert(views(parts@).len() == parts@.len());
        }
        if parts.len() < 3 {
            return None;
        }
        proof {
            assert(views(parts@)[0] == parts@[0]@);
            assert(views(parts@)[1] == parts@[1]@);
            assert(views(parts@)[2] == parts@[2]@);
        }
        let month = parse_unsigned_chars(&parts[0], 255);
        let day = parse_unsigned_chars(&parts[1], 255);
        let year = parse_unsigned_chars(&parts[2], 65535);
        match (month, day, year) {
            (Some(m), Some(d), Some(y)) => {
                if 1 <= m && m <= 12 {
                    Some(Date { month: m as u8, day: d as u8, year: y as u16 })
                } else {
                    None
                }
            },
            _ => None,
        }
    }

    /// The date as displayed: `"<MonthName> <day>, <year>"`.
    pub fn to_string(&self) -> (r: String)
        ensures
            r@ == date_text(*self),
    {
        let mut r = String::new();
        let name = match self.month {
            1 => "January",
            2 => "February",
            3 => "March",
            4 => "April",
            5 => "May",
            6 => "June",
            7 => "July",
            8 => "August",
            9 => "September",
            10 => "October",
            11 => "November",
            12 => "December",
            _ => "invalid",
        };
        r.append(name);
        r.append(" ");
        push_decimal(&mut r, self.day as u64);
        r.append(", ");
        push_decimal(&mut r, self.year as u64);
        proof {
            assert(r@ =~= date_text(*self));
        }
        r
    }
}

} // verus!
