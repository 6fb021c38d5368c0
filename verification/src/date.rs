use vstd::prelude::*;

verus! {

/// A calendar date, held as plain year, month and day numbers.
#[derive(Clone, Copy, PartialEq, Eq, Structural, Debug)]
pub struct Date {
    pub year: u32,
    pub month: u32,
    pub day: u32,
}

/// True of years with 366 days in the proleptic Gregorian calendar.
pub open spec fn is_leap_year(y: int) -> bool {
    y % 4 == 0 && (y % 100 != 0 || y % 400 == 0)
}

/// Number of days in month `m` of year `y`.
pub open spec fn days_in_month(y: int, m: int) -> int {
    if m == 2 {
        if is_leap_year(y) {
            29
        } else {
            28
        }
    } else if m == 4 || m == 6 || m == 9 || m == 11 {
        30
    } else {
        31
    }
}

impl Date {
    /// A well-formed date: a real day of the calendar, with a four-digit year.
    pub open spec fn wf(self) -> bool {
        &&& self.year <= 9999
        &&& 1 <= self.month <= 12
        &&& 1 <= self.day <= days_in_month(self.year as int, self.month as int)
    }

    /// Whether this date is a real day of the calendar with a four-digit year.
    pub fn is_wf(&self) -> (r: bool)
        ensures
            r == self.wf(),
    {
        self.year <= 9999 && 1 <= self.month && self.month <= 12 && 1 <= self.day && self.day
            <= days_in_month_count(self.year, self.month)
    }
}

/// Number of days in month `m` of year `y`.
pub fn days_in_month_count(y: u32, m: u32) -> (r: u32)
    ensures
        r == days_in_month(y as int, m as int),
{
    if m == 2 {
        if y % 4 == 0 && (y % 100 != 0 || y % 400 == 0) {
            29
        } else {
            28
        }
    } else if m == 4 || m == 6 || m == 9 || m == 11 {
        30
    } else {
        31
    }
}

pub open spec fn is_digit(c: char) -> bool {
    c == '0' || c == '1' || c == '2' || c == '3' || c == '4' || c == '5' || c == '6' || c == '7'
        || c == '8' || c == '9'
}

pub open spec fn digit_val(c: char) -> int {
    if c == '0' {
        0
    } else if c == '1' {
        1
    } else if c == '2' {
        2
    } else if c == '3' {
        3
    } else if c == '4' {
        4
    } else if c == '5' {
        5
    } else if c == '6' {
        6
    } else if c == '7' {
        7
    } else if c == '8' {
        8
    } else {
        9
    }
}

pub open spec fn digit_char(v: int) -> char {
    if v == 0 {
        '0'
    } else if v == 1 {
        '1'
    } else if v == 2 {
        '2'
    } else if v == 3 {
        '3'
    } else if v == 4 {
        '4'
    } else if v == 5 {
        '5'
    } else if v == 6 {
        '6'
    } else if v == 7 {
        '7'
    } else if v == 8 {
        '8'
    } else {
        '9'
    }
}

pub fn digit_of(c: char) -> (r: Option<u32>)
    ensures
        r is Some <==> is_digit(c),
        r matches Some(v) ==> v == digit_val(c) && v <= 9,
{
    match c {
        '0' => Some(0),
        '1' => Some(1),
        '2' => Some(2),
        '3' => Some(3),
        '4' => Some(4),
        '5' => Some(5),
        '6' => Some(6),
        '7' => Some(7),
        '8' => Some(8),
        '9' => Some(9),
        _ => None,
    }
}

pub fn char_of_digit(v: u32) -> (r: char)
    requires
        v <= 9,
    ensures
        r == digit_char(v as int),
{
    match v {
        0 => '0',
        1 => '1',
        2 => '2',
        3 => '3',
        4 => '4',
        5 => '5',
        6 => '6',
        7 => '7',
        8 => '8',
        _ => '9',
    }
}

/// The shape of a date token: four digits, a slash, two digits, a
/// slash, two digits.
pub open spec fn date_token_shape(s: Seq<char>) -> bool {
    &&& s.len() == 10
    &&& is_digit(s[0]) && is_digit(s[1]) && is_digit(s[2]) && is_digit(s[3])
    &&& s[4] == '/'
    &&& is_digit(s[5]) && is_digit(s[6])
    &&& s[7] == '/'
    &&& is_digit(s[8]) && is_digit(s[9])
}

/// The date that a well-shaped token names.
pub open spec fn date_of_token(s: Seq<char>) -> Date {
    Date {
        year: (digit_val(s[0]) * 1000 + digit_val(s[1]) * 100 + digit_val(s[2]) * 10 + digit_val(
            s[3],
        )) as u32,
        month: (digit_val(s[5]) * 10 + digit_val(s[6])) as u32,
        day: (digit_val(s[8]) * 10 + digit_val(s[9])) as u32,
    }
}

/// A valid date token: well shaped, naming a real calendar day.
pub open spec fn date_token_wf(s: Seq<char>) -> bool {
    date_token_shape(s) && date_of_token(s).wf()
}

/// Reads a date from a token of the exact shape `YYYY/MM/DD`; rejects
/// tokens of any other shape and dates that the calendar does not hold.
pub fn parse_date(t: &str) -> (r: Option<Date>)
    ensures
        r is Some <==> date_token_wf(t@),
        r matches Some(d) ==> d == date_of_token(t@) && d.wf(),
{
    if t.unicode_len() != 10 {
        return None;
    }
    if t.get_char(4) != '/' || t.get_char(7) != '/' {
        return None;
    }
    let d0 = digit_of(t.get_char(0));
    let d1 = digit_of(t.get_char(1));
    let d2 = digit_of(t.get_char(2));
    let d3 = digit_of(t.get_char(3));
    let m0 = digit_of(t.get_char(5));
    let m1 = digit_of(t.get_char(6));
    let a0 = digit_of(t.get_char(8));
    let a1 = digit_of(t.get_char(9));
    match (d0, d1, d2, d3, m0, m1, a0, a1) {
        (
            Some(y3),
            Some(y2),
            Some(y1),
            Some(y0),
            Some(mt),
            Some(mo),
            Some(dt),
            Some(dd),
        ) => {
            let d = Date {
                year: y3 * 1000 + y2 * 100 + y1 * 10 + y0,
                month: mt * 10 + mo,
                day: dt * 10 + dd,
            };
            if d.is_wf() {
                Some(d)
            } else {
                None
            }
        },
        _ => None,
    }
}

/// The ten characters of `d` written as `YYYY/MM/DD`.
pub open spec fn slash_repr(d: Date) -> Seq<char> {
    seq![
        digit_char(d.year as int / 1000 % 10),
        digit_char(d.year as int / 100 % 10),
        digit_char(d.year as int / 10 % 10),
        digit_char(d.year as int % 10),
        '/',
        digit_char(d.month as int / 10),
        digit_char(d.month as int % 10),
        '/',
        digit_char(d.day as int / 10),
        digit_char(d.day as int % 10),
    ]
}

/// Writes `d` as `YYYY/MM/DD`.
pub fn format_date_slash(d: &Date) -> (r: String)
    requires
        d.wf(),
    ensures
        r@ == slash_repr(*d),
{
    let mut acc = String::new();
    crate::text::push_char(&mut acc, char_of_digit(d.year / 1000 % 10));
    crate::text::push_char(&mut acc, char_of_digit(d.year / 100 % 10));
    crate::text::push_char(&mut acc, char_of_digit(d.year / 10 % 10));
    crate::text::push_char(&mut acc, char_of_digit(d.year % 10));
    crate::text::push_char(&mut acc, '/');
    crate::text::push_char(&mut acc, char_of_digit(d.month / 10));
    crate::text::push_char(&mut acc, char_of_digit(d.month % 10));
    crate::text::push_char(&mut acc, '/');
    crate::text::push_char(&mut acc, char_of_digit(d.day / 10));
    crate::text::push_char(&mut acc, char_of_digit(d.day % 10));
    proof {
        assert(acc@ =~= slash_repr(*d));
    }
    acc
}

/// The characters of `d` in the index listing's date style: the year's
/// four digits, the year glyph, two month digits, the month glyph, two
/// day digits, the day glyph.
pub open spec fn locale_repr(d: Date) -> Seq<char> {
    seq![
        digit_char(d.year as int / 1000 % 10),
        digit_char(d.year as int / 100 % 10),
        digit_char(d.year as int / 10 % 10),
        digit_char(d.year as int % 10),
        '\u{5e74}',
        digit_char(d.month as int / 10),
        digit_char(d.month as int % 10),
        '\u{6708}',
        digit_char(d.day as int / 10),
        digit_char(d.day as int % 10),
        '\u{65e5}',
    ]
}

/// Writes `d` in the index listing's date style.
pub fn format_date_locale(d: &Date) -> (r: String)
    requires
        d.wf(),
    ensures
        r@ == locale_repr(*d),
{
    let mut acc = String::new();
    crate::text::push_char(&mut acc, char_of_digit(d.year / 1000 % 10));
    crate::text::push_char(&mut acc, char_of_digit(d.year / 100 % 10));
    crate::text::push_char(&mut acc, char_of_digit(d.year / 10 % 10));
    crate::text::push_char(&mut acc, char_of_digit(d.year % 10));
    crate::text::push_char(&mut acc, '\u{5e74}');
    crate::text::push_char(&mut acc, char_of_digit(d.month / 10));
    crate::text::push_char(&mut acc, char_of_digit(d.month % 10));
    crate::text::push_char(&mut acc, '\u{6708}');
    crate::text::push_char(&mut acc, char_of_digit(d.day / 10));
    crate::text::push_char(&mut acc, char_of_digit(d.day % 10));
    crate::text::push_char(&mut acc, '\u{65e5}');
    proof {
        assert(acc@ =~= locale_repr(*d));
    }
    acc
}

proof fn lemma_digit_back(c: char)
    requires
        is_digit(c),
    ensures
        0 <= digit_val(c) <= 9,
        digit_char(digit_val(c)) == c,
{
}

proof fn lemma_two_digit_split(t: int, u: int)
    requires
        0 <= t <= 9,
        0 <= u <= 9,
    ensures
        (t * 10 + u) / 10 == t,
        (t * 10 + u) % 10 == u,
{
    vstd::arithmetic::div_mod::lemma_fundamental_div_mod_converse(t * 10 + u, 10, t, u);
}

proof fn lemma_four_digit_split(a: int, b: int, c: int, e: int)
    requires
        0 <= a <= 9,
        0 <= b <= 9,
        0 <= c <= 9,
        0 <= e <= 9,
    ensures
        (a * 1000 + b * 100 + c * 10 + e) / 1000 % 10 == a,
        (a * 1000 + b * 100 + c * 10 + e) / 100 % 10 == b,
        (a * 1000 + b * 100 + c * 10 + e) / 10 % 10 == c,
        (a * 1000 + b * 100 + c * 10 + e) % 10 == e,
{
    let y = a * 1000 + b * 100 + c * 10 + e;
    vstd::arithmetic::div_mod::lemma_fundamental_div_mod_converse(y, 1000, a, b * 100 + c * 10 + e);
    lemma_two_digit_split(0, a);
    vstd::arithmetic::div_mod::lemma_fundamental_div_mod_converse(y, 100, a * 10 + b, c * 10 + e);
    lemma_two_digit_split(a, b);
    vstd::arithmetic::div_mod::lemma_fundamental_div_mod_converse(
        y,
        10,
        a * 100 + b * 10 + c,
        e,
    );
    vstd::arithmetic::div_mod::lemma_fundamental_div_mod_converse(
        a * 100 + b * 10 + c,
        10,
        a * 10 + b,
        c,
    );
    lemma_two_digit_split(0, e);
}

/// A valid date token round-trips: writing back the date it names with
/// `YYYY/MM/DD` gives the very same ten characters.
pub proof fn lemma_date_round_trip(s: Seq<char>)
    requires
        date_token_wf(s),
    ensures
        slash_repr(date_of_token(s)) == s,
{
    let d = date_of_token(s);
    lemma_digit_back(s[0]);
    lemma_digit_back(s[1]);
    lemma_digit_back(s[2]);
    lemma_digit_back(s[3]);
    lemma_digit_back(s[5]);
    lemma_digit_back(s[6]);
    lemma_digit_back(s[8]);
    lemma_digit_back(s[9]);
    lemma_four_digit_split(digit_val(s[0]), digit_val(s[1]), digit_val(s[2]), digit_val(s[3]));
    lemma_two_digit_split(digit_val(s[5]), digit_val(s[6]));
    lemma_two_digit_split(digit_val(s[8]), digit_val(s[9]));
    assert(slash_repr(d) =~= s);
}

} // verus!
