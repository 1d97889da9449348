use vstd::prelude::*;
use crate::text::{dec_digits, zero_chars, push_u128_digits, push_zeros};

verus! {

/// A UTC instant with nanosecond precision, held as civil calendar fields.
/// This is the library's stand-in for the capture time of an observation;
/// obtaining the current instant is the clock's business, validating and
/// rendering one is ours.
#[derive(Clone, Copy, Debug, PartialEq, Eq, Structural, Hash)]
pub struct Timestamp {
    pub year: u32,
    pub month: u32,
    pub day: u32,
    pub hour: u32,
    pub minute: u32,
    pub second: u32,
    pub nanosecond: u32,
}

/// Gregorian leap year.
pub open spec fn is_leap_year(y: nat) -> bool {
    y % 4 == 0 && (y % 100 != 0 || y % 400 == 0)
}

/// Days in a month of the proleptic Gregorian calendar.
pub open spec fn days_in_month(y: nat, m: nat) -> nat {
    if m == 1 || m == 3 || m == 5 || m == 7 || m == 8 || m == 10 || m == 12 {
        31
    } else if m == 4 || m == 6 || m == 9 || m == 11 {
        30
    } else if is_leap_year(y) {
        29
    } else {
        28
    }
}

/// Days in the given month, the executable counterpart of `days_in_month`.
pub fn days_in_month_of(year: u32, month: u32) -> (r: u32)
    requires
        1 <= month <= 12,
    ensures
        r == days_in_month(year as nat, month as nat),
        28 <= r <= 31,
{
    if month == 1 || month == 3 || month == 5 || month == 7 || month == 8 || month == 10 || month
        == 12 {
        31
    } else if month == 4 || month == 6 || month == 9 || month == 11 {
        30
    } else if year % 4 == 0 && (year % 100 != 0 || year % 400 == 0) {
        29
    } else {
        28
    }
}

impl Timestamp {
    /// A real calendar instant with four-digit year and sub-second nanoseconds.
    pub open spec fn wf(self) -> bool {
        &&& self.year <= 9999
        &&& 1 <= self.month <= 12
        &&& 1 <= self.day <= days_in_month(self.year as nat, self.month as nat)
        &&& self.hour < 24
        &&& self.minute < 60
        &&& self.second < 60
        &&& self.nanosecond < 1000000000
    }

    /// Build a timestamp from civil fields, rejecting anything that is not a
    /// real calendar instant.
    pub fn new(year: u32, month: u32, day: u32, hour: u32, minute: u32, second: u32, nanosecond:
        u32) -> (r: Option<Timestamp>)
        ensures
            ({
                let t = Timestamp { year, month, day, hour, minute, second, nanosecond };
                if t.wf() {
                    r == Some(t)
                } else {
                    r is None
                }
            }),
    {
        if year > 9999 || month < 1 || month > 12 || hour >= 24 || minute >= 60 || second >= 60
            || nanosecond >= 1000000000 {
            return None;
        }
        let dim: u32 = days_in_month_of(year, month);
        if day < 1 || day > dim {
            return None;
        }
        Some(Timestamp { year, month, day, hour, minute, second, nanosecond })
    }
}

/// The decimal digits of `n` left-padded with zeros to width `w`.
pub open spec fn padded(n: nat, w: nat) -> Seq<char> {
    if dec_digits(n).len() >= w {
        dec_digits(n)
    } else {
        zero_chars((w - dec_digits(n).len()) as nat) + dec_digits(n)
    }
}

/// Append `n` zero-padded to width `w`.
pub fn push_padded(out: &mut Vec<char>, n: u32, w: usize)
    ensures
        final(out)@ == old(out)@ + padded(n as nat, w as nat),
{
    let mut tmp: Vec<char> = Vec::new();
    push_u128_digits(&mut tmp, n as u128);
    if tmp.len() < w {
        push_zeros(out, w - tmp.len());
    }
    crate::text::push_chars(out, &tmp);
    proof {
        assert(final(out)@ =~= old(out)@ + padded(n as nat, w as nat));
    }
}

/// The sub-second part of the rendering: a point and the nanoseconds at
/// fixed nine-digit precision, whatever the value.
pub open spec fn fmt_fraction(ns: nat) -> Seq<char> {
    seq!['.'] + padded(ns, 9)
}

/// ISO-8601 UTC rendering of a timestamp: date, `T`, time, the fraction at
/// fixed nanosecond precision, `Z`.
pub open spec fn fmt_timestamp(t: Timestamp) -> Seq<char> {
    padded(t.year as nat, 4) + seq!['-'] + padded(t.month as nat, 2) + seq!['-'] + padded(
        t.day as nat,
        2,
    ) + seq!['T'] + padded(t.hour as nat, 2) + seq![':'] + padded(t.minute as nat, 2) + seq![':']
        + padded(t.second as nat, 2) + fmt_fraction(t.nanosecond as nat) + seq!['Z']
}

/// Append the ISO-8601 UTC rendering of `t`.
#[verifier::rlimit(60)]
pub fn push_timestamp(out: &mut Vec<char>, t: &Timestamp)
    ensures
        final(out)@ == old(out)@ + fmt_timestamp(*t),
{
    push_padded(out, t.year, 4);
    out.push('-');
    push_padded(out, t.month, 2);
    out.push('-');
    push_padded(out, t.day, 2);
    out.push('T');
    push_padded(out, t.hour, 2);
    out.push(':');
    push_padded(out, t.minute, 2);
    out.push(':');
    push_padded(out, t.second, 2);
    out.push('.');
    push_padded(out, t.nanosecond, 9);
    out.push('Z');
    proof {
        assert(final(out)@ =~= old(out)@ + fmt_timestamp(*t));
    }
}

} // verus!
