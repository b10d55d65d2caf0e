//! Codec between the wire timestamp format `YYYY-MM-DD HH:MM:SS UTC` and a
//! UTC instant held as calendar fields at one-second resolution.

use vstd::prelude::*;
use crate::error::DecodeError;

verus! {

/// A UTC instant at one-second resolution, as the calendar fields the wire
/// format carries. The format embeds no offset, so no timezone conversion is
/// ever performed: the fields are UTC by definition.
#[derive(Clone, Copy, Debug, PartialEq, Eq, Hash, Structural)]
pub struct Timestamp {
    pub year: u16,
    pub month: u8,
    pub day: u8,
    pub hour: u8,
    pub minute: u8,
    pub second: u8,
}

/// Gregorian leap-year rule.
pub open spec fn spec_leap_year(y: int) -> bool {
    y % 4 == 0 && (y % 100 != 0 || y % 400 == 0)
}

/// Number of days of month `m` of year `y` (months count from 1).
pub open spec fn spec_days_in_month(y: int, m: int) -> int {
    if m == 2 {
        if spec_leap_year(y) {
            29
        } else {
            28
        }
    } else if m == 4 || m == 6 || m == 9 || m == 11 {
        30
    } else {
        31
    }
}

impl Timestamp {
    /// The fields name a real calendar date and time of day, and the year
    /// fits the four digits the wire format has for it.
    pub open spec fn valid(self) -> bool {
        &&& self.year <= 9999
        &&& 1 <= self.month <= 12
        &&& 1 <= self.day <= spec_days_in_month(self.year as int, self.month as int)
        &&& self.hour <= 23
        &&& self.minute <= 59
        &&& self.second <= 59
    }

    /// Lexicographic order on (year, month, day, hour, minute, second):
    /// chronological order of the instants the fields name.
    pub open spec fn spec_le(self, other: Timestamp) -> bool {
        if self.year != other.year {
            self.year < other.year
        } else if self.month != other.month {
            self.month < other.month
        } else if self.day != other.day {
            self.day < other.day
        } else if self.hour != other.hour {
            self.hour < other.hour
        } else if self.minute != other.minute {
            self.minute < other.minute
        } else {
            self.second <= other.second
        }
    }

    /// Chronological comparison; `le` is a total order on timestamps.
    pub fn le(&self, other: &Timestamp) -> (r: bool)
        ensures
            r == self.spec_le(*other),
    {
        if self.year != other.year {
            self.year < other.year
        } else if self.month != other.month {
            self.month < other.month
        } else if self.day != other.day {
            self.day < other.day
        } else if self.hour != other.hour {
            self.hour < other.hour
        } else if self.minute != other.minute {
            self.minute < other.minute
        } else {
            self.second <= other.second
        }
    }
}

/// `spec_le` is total: of any two instants, one is no later than the other.
pub proof fn lemma_le_total(a: Timestamp, b: Timestamp)
    ensures
        a.spec_le(b) || b.spec_le(a),
{
}

/// `spec_le` is transitive.
pub proof fn lemma_le_trans(a: Timestamp, b: Timestamp, c: Timestamp)
    requires
        a.spec_le(b),
        b.spec_le(c),
    ensures
        a.spec_le(c),
{
}

/// `c` is a decimal digit.
pub open spec fn is_digit(c: char) -> bool {
    48 <= c as u32 <= 57
}

/// Numeric value of a digit character.
pub open spec fn digit_val(c: char) -> int {
    c as u32 - 48
}

/// The digit character for a value between 0 and 9.
pub open spec fn digit_char(d: int) -> char {
    if d == 0 {
        '0'
    } else if d == 1 {
        '1'
    } else if d == 2 {
        '2'
    } else if d == 3 {
        '3'
    } else if d == 4 {
        '4'
    } else if d == 5 {
        '5'
    } else if d == 6 {
        '6'
    } else if d == 7 {
        '7'
    } else if d == 8 {
        '8'
    } else {
        '9'
    }
}

proof fn lemma_digit_char_val(d: int)
    requires
        0 <= d <= 9,
    ensures
        is_digit(digit_char(d)),
        digit_val(digit_char(d)) == d,
{
}

/// The 23 characters of the wire form of `t`: four year digits, then
/// zero-padded month, day, hour, minute and second, with the literal
/// separators and the trailing ` UTC` suffix.
pub open spec fn spec_encode(t: Timestamp) -> Seq<char> {
    let y = t.year as int;
    let mo = t.month as int;
    let d = t.day as int;
    let h = t.hour as int;
    let mi = t.minute as int;
    let s = t.second as int;
    seq![
        digit_char(y / 1000),
        digit_char(y / 100 % 10),
        digit_char(y / 10 % 10),
        digit_char(y % 10),
        '-',
        digit_char(mo / 10),
        digit_char(mo % 10),
        '-',
        digit_char(d / 10),
        digit_char(d % 10),
        ' ',
        digit_char(h / 10),
        digit_char(h % 10),
        ':',
        digit_char(mi / 10),
        digit_char(mi % 10),
        ':',
        digit_char(s / 10),
        digit_char(s % 10),
        ' ',
        'U',
        'T',
        'C',
    ]
}

/// `s` has exactly the shape `YYYY-MM-DD HH:MM:SS UTC`: 23 characters,
/// digits and literal separators in the fixed positions.
pub open spec fn shape_ok(s: Seq<char>) -> bool {
    &&& s.len() == 23
    &&& is_digit(s[0]) && is_digit(s[1]) && is_digit(s[2]) && is_digit(s[3])
    &&& s[4] == '-'
    &&& is_digit(s[5]) && is_digit(s[6])
    &&& s[7] == '-'
    &&& is_digit(s[8]) && is_digit(s[9])
    &&& s[10] == ' '
    &&& is_digit(s[11]) && is_digit(s[12])
    &&& s[13] == ':'
    &&& is_digit(s[14]) && is_digit(s[15])
    &&& s[16] == ':'
    &&& is_digit(s[17]) && is_digit(s[18])
    &&& s[19] == ' '
    &&& s[20] == 'U' && s[21] == 'T' && s[22] == 'C'
}

/// The calendar fields spelled at the digit positions of a shape-conforming
/// string.
pub open spec fn field_values(s: Seq<char>) -> Timestamp
    recommends
        shape_ok(s),
{
    Timestamp {
        year: (digit_val(s[0]) * 1000 + digit_val(s[1]) * 100 + digit_val(s[2]) * 10 + digit_val(
            s[3],
        )) as u16,
        month: (digit_val(s[5]) * 10 + digit_val(s[6])) as u8,
        day: (digit_val(s[8]) * 10 + digit_val(s[9])) as u8,
        hour: (digit_val(s[11]) * 10 + digit_val(s[12])) as u8,
        minute: (digit_val(s[14]) * 10 + digit_val(s[15])) as u8,
        second: (digit_val(s[17]) * 10 + digit_val(s[18])) as u8,
    }
}

/// The instant a wire timestamp string denotes: `None` unless the string has
/// exactly the fixed shape and its fields are a real calendar date and time.
pub open spec fn spec_decode(s: Seq<char>) -> Option<Timestamp> {
    if shape_ok(s) && field_values(s).valid() {
        Some(field_values(s))
    } else {
        None
    }
}

/// Numeric value of a digit character, or `None` for any other character.
fn digit_of(c: char) -> (r: Option<u8>)
    ensures
        match r {
            Some(d) => is_digit(c) && d == digit_val(c) && d <= 9,
            None => !is_digit(c),
        },
{
    let v = c as u32;
    if 48 <= v && v <= 57 {
        Some((v - 48) as u8)
    } else {
        None
    }
}

/// Number of days of the given month (months count from 1).
pub fn days_in_month(year: u16, month: u8) -> (r: u8)
    ensures
        r == spec_days_in_month(year as int, month as int),
{
    if month == 2 {
        if year % 4 == 0 && (year % 100 != 0 || year % 400 == 0) {
            29
        } else {
            28
        }
    } else if month == 4 || month == 6 || month == 9 || month == 11 {
        30
    } else {
        31
    }
}

/// Decode a wire timestamp: succeeds exactly on strings of the form
/// `YYYY-MM-DD HH:MM:SS UTC` whose fields are a real calendar date and time,
/// and fails with `MalformedTimestamp` on every other string.
pub fn decode(s: &str) -> (r: Result<Timestamp, DecodeError>)
    ensures
        match r {
            Ok(t) => spec_decode(s@) == Some(t),
            Err(e) => spec_decode(s@) is None && e == DecodeError::MalformedTimestamp,
        },
{
    if s.unicode_len() != 23 {
        return Err(DecodeError::MalformedTimestamp);
    }
    if !(s.get_char(4) == '-' && s.get_char(7) == '-' && s.get_char(10) == ' ' && s.get_char(13)
        == ':' && s.get_char(16) == ':' && s.get_char(19) == ' ' && s.get_char(20) == 'U'
        && s.get_char(21) == 'T' && s.get_char(22) == 'C') {
        return Err(DecodeError::MalformedTimestamp);
    }
    let d0 = match digit_of(s.get_char(0)) {
        Some(d) => d,
        None => { return Err(DecodeError::MalformedTimestamp) },
    };
    let d1 = match digit_of(s.get_char(1)) {
        Some(d) => d,
        None => { return Err(DecodeError::MalformedTimestamp) },
    };
    let d2 = match digit_of(s.get_char(2)) {
        Some(d) => d,
        None => { return Err(DecodeError::MalformedTimestamp) },
    };
    let d3 = match digit_of(s.get_char(3)) {
        Some(d) => d,
        None => { return Err(DecodeError::MalformedTimestamp) },
    };
    let d5 = match digit_of(s.get_char(5)) {
        Some(d) => d,
        None => { return Err(DecodeError::MalformedTimestamp) },
    };
    let d6 = match digit_of(s.get_char(6)) {
        Some(d) => d,
        None => { return Err(DecodeError::MalformedTimestamp) },
    };
    let d8 = match digit_of(s.get_char(8)) {
        Some(d) => d,
        None => { return Err(DecodeError::MalformedTimestamp) },
    };
    let d9 = match digit_of(s.get_char(9)) {
        Some(d) => d,
        None => { return Err(DecodeError::MalformedTimestamp) },
    };
    let d11 = match digit_of(s.get_char(11)) {
        Some(d) => d,
        None => { return Err(DecodeError::MalformedTimestamp) },
    };
    let d12 = match digit_of(s.get_char(12)) {
        Some(d) => d,
        None => { return Err(DecodeError::MalformedTimestamp) },
    };
    let d14 = match digit_of(s.get_char(14)) {
        Some(d) => d,
        None => { return Err(DecodeError::MalformedTimestamp) },
    };
    let d15 = match digit_of(s.get_char(15)) {
        Some(d) => d,
        None => { return Err(DecodeError::MalformedTimestamp) },
    };
    let d17 = match digit_of(s.get_char(17)) {
        Some(d) => d,
        None => { return Err(DecodeError::MalformedTimestamp) },
    };
    let d18 = match digit_of(s.get_char(18)) {
        Some(d) => d,
        None => { return Err(DecodeError::MalformedTimestamp) },
    };
    let t = Timestamp {
        year: d0 as u16 * 1000 + d1 as u16 * 100 + d2 as u16 * 10 + d3 as u16,
        month: d5 * 10 + d6,
        day: d8 * 10 + d9,
        hour: d11 * 10 + d12,
        minute: d14 * 10 + d15,
        second: d17 * 10 + d18,
    };
    assert(shape_ok(s@));
    assert(t == field_values(s@));
    if t.month < 1 || t.month > 12 {
        return Err(DecodeError::MalformedTimestamp);
    }
    if t.day < 1 || t.day > days_in_month(t.year, t.month) {
        return Err(DecodeError::MalformedTimestamp);
    }
    if t.hour > 23 || t.minute > 59 || t.second > 59 {
        return Err(DecodeError::MalformedTimestamp);
    }
    Ok(t)
}

/// The one-character string for a digit value.
fn digit_str(d: u8) -> (r: &'static str)
    requires
        d <= 9,
    ensures
        r@ == seq![digit_char(d as int)],
{
    proof {
        reveal_strlit("0");
        reveal_strlit("1");
        reveal_strlit("2");
        reveal_strlit("3");
        reveal_strlit("4");
        reveal_strlit("5");
        reveal_strlit("6");
        reveal_strlit("7");
        reveal_strlit("8");
        reveal_strlit("9");
    }
    let r = match d {
        0 => "0",
        1 => "1",
        2 => "2",
        3 => "3",
        4 => "4",
        5 => "5",
        6 => "6",
        7 => "7",
        8 => "8",
        _ => "9",
    };
    proof {
        assert(r@ =~= seq![digit_char(d as int)]);
    }
    r
}

/// Append the two-digit zero-padded spelling of `v`.
fn push_two(out: &mut String, v: u8)
    requires
        v <= 99,
    ensures
        final(out)@ == old(out)@ + seq![digit_char(v as int / 10), digit_char(v as int % 10)],
{
    out.append(digit_str(v / 10));
    out.append(digit_str(v % 10));
    proof {
        assert(final(out)@ =~= old(out)@ + seq![
            digit_char(v as int / 10),
            digit_char(v as int % 10),
        ]);
    }
}

/// Splitting a two-digit value into its digits loses nothing.
proof fn lemma_two_digit_value(v: int)
    requires
        0 <= v <= 99,
    ensures
        (v / 10) * 10 + v % 10 == v,
        0 <= v / 10 <= 9,
        0 <= v % 10 <= 9,
{
    vstd::arithmetic::div_mod::lemma_fundamental_div_mod(v, 10);
}

/// Splitting a four-digit value into its digits loses nothing.
proof fn lemma_four_digit_value(v: int)
    requires
        0 <= v <= 9999,
    ensures
        (v / 1000) * 1000 + (v / 100 % 10) * 100 + (v / 10 % 10) * 10 + v % 10 == v,
        0 <= v / 1000 <= 9,
        0 <= v / 100 % 10 <= 9,
        0 <= v / 10 % 10 <= 9,
        0 <= v % 10 <= 9,
{
    vstd::arithmetic::div_mod::lemma_fundamental_div_mod(v, 10);
    vstd::arithmetic::div_mod::lemma_fundamental_div_mod(v / 10, 10);
    vstd::arithmetic::div_mod::lemma_fundamental_div_mod(v / 100, 10);
    vstd::arithmetic::div_mod::lemma_div_denominator(v, 10, 10);
    vstd::arithmetic::div_mod::lemma_div_denominator(v, 100, 10);
}

/// Law: the codec round-trips. Decoding the wire form of any valid instant
/// at one-second resolution yields exactly that instant back.
pub proof fn lemma_decode_encode(t: Timestamp)
    requires
        t.valid(),
    ensures
        spec_decode(spec_encode(t)) == Some(t),
{
    let s = spec_encode(t);
    lemma_four_digit_value(t.year as int);
    lemma_two_digit_value(t.month as int);
    lemma_two_digit_value(t.day as int);
    lemma_two_digit_value(t.hour as int);
    lemma_two_digit_value(t.minute as int);
    lemma_two_digit_value(t.second as int);
    assert forall|d: int| 0 <= d <= 9 implies is_digit(#[trigger] digit_char(d)) && digit_val(
        digit_char(d),
    ) == d by {
        lemma_digit_char_val(d);
    }
    assert(shape_ok(s));
    assert(field_values(s) == t);
}

/// Encode an instant in the wire format; the exact inverse of `decode` on
/// every valid instant.
pub fn encode(t: &Timestamp) -> (r: String)
    requires
        t.valid(),
    ensures
        r@ == spec_encode(*t),
{
    let mut out = String::new();
    out.append(digit_str((t.year / 1000) as u8));
    out.append(digit_str((t.year / 100 % 10) as u8));
    out.append(digit_str((t.year / 10 % 10) as u8));
    out.append(digit_str((t.year % 10) as u8));
    out.append("-");
    push_two(&mut out, t.month);
    out.append("-");
    push_two(&mut out, t.day);
    out.append(" ");
    push_two(&mut out, t.hour);
    out.append(":");
    push_two(&mut out, t.minute);
    out.append(":");
    push_two(&mut out, t.second);
    out.append(" UTC");
    proof {
        reveal_strlit("-");
        reveal_strlit(" ");
        reveal_strlit(":");
        reveal_strlit(" UTC");
        assert(out@ =~= spec_encode(*t));
    }
    out
}

} // verus!
