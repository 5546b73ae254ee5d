//! Verified text rendering for display records and log rows.
//!
//! Every record leaving the crate is plain decimal text: the display line
//! `Ch<n>: <voltage> V` handed to the polling consumer, and the
//! comma-separated log row `timestamp,channel,voltage,raw_value`.
//! Voltages are rendered with exactly 4 decimal places from the exact
//! fixed-point value of [`crate::sample::voltage_e4`].

use vstd::prelude::*;
use vstd::string::StringExecFns;
use crate::sample::AdcSample;
use crate::sample::voltage_e4;
use crate::sample::voltage_e4_of_raw;

verus! {

/// The decimal digit character for `d` in [0, 9].
pub open spec fn digit_char(d: int) -> char {
    if d == 0 {
        '0'
    } else if d == 1 {
        '1'
    } else if d == 2 {
        '2'
    } else if d == 3 {
        '3'
    } else if d == 4 {
        '4'
    } else if d == 5 {
        '5'
    } else if d == 6 {
        '6'
    } else if d == 7 {
        '7'
    } else if d == 8 {
        '8'
    } else {
        '9'
    }
}

/// The usual decimal rendering of a non-negative integer: no leading
/// zeros except for the single digit `0` itself.
pub open spec fn dec_digits(n: int) -> Seq<char>
    recommends
        n >= 0,
    decreases n,
{
    if n < 10 {
        seq![digit_char(n)]
    } else {
        dec_digits(n / 10) + seq![digit_char(n % 10)]
    }
}

/// Four decimal digits, zero-padded, for `n` in [0, 9999].
pub open spec fn frac4_digits(n: int) -> Seq<char>
    recommends
        0 <= n < 10000,
{
    seq![
        digit_char(n / 1000 % 10),
        digit_char(n / 100 % 10),
        digit_char(n / 10 % 10),
        digit_char(n % 10),
    ]
}

/// The voltage of a raw payload as text: optional minus sign, whole
/// volts, a point, and exactly 4 decimal places.
pub open spec fn voltage_chars(raw: u16) -> Seq<char> {
    let v = voltage_e4(raw);
    let a = if v < 0 {
        -v
    } else {
        v
    };
    let sign: Seq<char> = if v < 0 {
        seq!['-']
    } else {
        Seq::empty()
    };
    sign + dec_digits(a / 10000) + seq!['.'] + frac4_digits(a % 10000)
}

/// One display record: 1-based channel label and the voltage.
pub open spec fn display_line_chars(s: AdcSample) -> Seq<char> {
    "Ch"@ + dec_digits(s.channel as int + 1) + ": "@ + voltage_chars(s.raw_value) + " V"@
}

/// One log row: timestamp, 0-based channel, voltage, raw payload,
/// comma-separated and newline-terminated.
pub open spec fn csv_row_chars(s: AdcSample) -> Seq<char> {
    dec_digits(s.timestamp as int) + seq![','] + dec_digits(s.channel as int) + seq![',']
        + voltage_chars(s.raw_value) + seq![','] + dec_digits(s.raw_value as int) + seq!['\n']
}

/// The header row of a fresh log, without its line terminator.
pub open spec fn log_header_chars() -> Seq<char> {
    "timestamp,channel,voltage,raw_value"@
}

/// The one-character string for a decimal digit.
fn digit_str(d: u8) -> (r: &'static str)
    requires
        d < 10,
    ensures
        r@ == seq![digit_char(d as int)],
{
    proof {
        reveal_strlit("0");
        reveal_strlit("1");
        reveal_strlit("2");
        reveal_strlit("3");
        reveal_strlit("4");
        reveal_strlit("5");
        reveal_strlit("6");
        reveal_strlit("7");
        reveal_strlit("8");
        reveal_strlit("9");
    }
    let r: &'static str = if d == 0 {
        "0"
    } else if d == 1 {
        "1"
    } else if d == 2 {
        "2"
    } else if d == 3 {
        "3"
    } else if d == 4 {
        "4"
    } else if d == 5 {
        "5"
    } else if d == 6 {
        "6"
    } else if d == 7 {
        "7"
    } else if d == 8 {
        "8"
    } else {
        "9"
    };
    assert(r@ =~= seq![digit_char(d as int)]);
    r
}

/// Appends the decimal rendering of `n` to `out`.
pub fn push_decimal(out: &mut String, n: u128)
    ensures
        final(out)@ == old(out)@ + dec_digits(n as int),
    decreases n,
{
    if n >= 10 {
        push_decimal(out, n / 10);
    }
    let ghost mid = out@;
    let d: u8 = (n % 10) as u8;
    out.append(digit_str(d));
    proof {
        if n < 10 {
            assert(out@ =~= old(out)@ + dec_digits(n as int));
        } else {
            assert(out@ =~= old(out)@ + (dec_digits(n as int / 10) + seq![
                digit_char(n as int % 10),
            ]));
        }
    }
}

/// Appends the voltage of a raw payload, rendered to 4 decimal places.
pub fn push_voltage(out: &mut String, raw: u16)
    ensures
        final(out)@ == old(out)@ + voltage_chars(raw),
{
    proof {
        reveal_strlit("-");
        reveal_strlit(".");
    }
    let v: i32 = voltage_e4_of_raw(raw);
    let a: u32 = if v < 0 {
        out.append("-");
        assert(out@ =~= old(out)@ + seq!['-']);
        (-v) as u32
    } else {
        v as u32
    };
    push_decimal(out, (a / 10000) as u128);
    out.append(".");
    let f: u32 = a % 10000;
    out.append(digit_str((f / 1000 % 10) as u8));
    out.append(digit_str((f / 100 % 10) as u8));
    out.append(digit_str((f / 10 % 10) as u8));
    out.append(digit_str((f % 10) as u8));
    assert(out@ =~= old(out)@ + voltage_chars(raw));
}

/// The display record for one sample, e.g. `Ch1: 1.2345 V`.
pub fn display_line(s: &AdcSample) -> (r: String)
    requires
        s.channel < 4,
    ensures
        r@ == display_line_chars(*s),
{
    proof {
        reveal_strlit("Ch");
        reveal_strlit(": ");
        reveal_strlit(" V");
    }
    let mut out = String::new();
    out.append("Ch");
    push_decimal(&mut out, (s.channel + 1) as u128);
    out.append(": ");
    push_voltage(&mut out, s.raw_value);
    out.append(" V");
    assert(out@ =~= display_line_chars(*s));
    out
}

/// The log row for one sample.
pub fn csv_row(s: &AdcSample) -> (r: String)
    ensures
        r@ == csv_row_chars(*s),
{
    proof {
        reveal_strlit(",");
        reveal_strlit("\n");
    }
    let mut out = String::new();
    push_decimal(&mut out, s.timestamp);
    out.append(",");
    push_decimal(&mut out, s.channel as u128);
    out.append(",");
    push_voltage(&mut out, s.raw_value);
    out.append(",");
    push_decimal(&mut out, s.raw_value as u128);
    out.append("\n");
    assert(out@ =~= csv_row_chars(*s));
    out
}

/// The header row of a fresh log, newline-terminated.
pub fn log_header_row() -> (r: String)
    ensures
        r@ == log_header_chars() + seq!['\n'],
{
    proof {
        reveal_strlit("timestamp,channel,voltage,raw_value");
        reveal_strlit("\n");
    }
    let mut out = String::new();
    out.append("timestamp,channel,voltage,raw_value");
    out.append("\n");
    assert(out@ =~= log_header_chars() + seq!['\n']);
    out
}

} // verus!
