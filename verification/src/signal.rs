//! Integer-valued signal presentation: colour bands for RSSI and compact
//! ages.

use vstd::prelude::*;

use crate::text::{decimal, push_decimal};

verus! {

/// The colours a reading is drawn in.
#[derive(Debug, Clone, Copy, PartialEq, Eq, Structural)]
pub enum SignalColor {
    Green,
    Yellow,
    Orange,
    Red,
    DarkGray,
}

/// Colour band of an RSSI reading: green from -60 dBm, yellow from -75,
/// orange from -85, red below.
pub open spec fn rssi_band(rssi: int) -> SignalColor {
    if rssi >= -60 {
        SignalColor::Green
    } else if rssi >= -75 {
        SignalColor::Yellow
    } else if rssi >= -85 {
        SignalColor::Orange
    } else {
        SignalColor::Red
    }
}

pub fn rssi_color(rssi: i16) -> (c: SignalColor)
    ensures
        c == rssi_band(rssi as int),
{
    if rssi >= -60 {
        SignalColor::Green
    } else if rssi >= -75 {
        SignalColor::Yellow
    } else if rssi >= -85 {
        SignalColor::Orange
    } else {
        SignalColor::Red
    }
}

/// Compact age: `<1s` under a second, `Ns` under a minute, `MmSs` beyond.
pub open spec fn age_text(millis: nat) -> Seq<char> {
    let s = millis / 1000;
    if s < 1 {
        seq!['<', '1', 's']
    } else if s < 60 {
        decimal(s).push('s')
    } else {
        decimal(s / 60).push('m') + decimal(s % 60).push('s')
    }
}

pub fn format_age(millis: u64) -> (r: String)
    ensures
        r@ == age_text(millis as nat),
{
    let s = millis / 1000;
    let mut out = String::new();
    if s < 1 {
        out.push('<');
        out.push('1');
        out.push('s');
        assert(out@ =~= seq!['<', '1', 's']);
    } else if s < 60 {
        push_decimal(&mut out, s);
        out.push('s');
        assert(out@ =~= decimal(s as nat).push('s'));
    } else {
        push_decimal(&mut out, s / 60);
        out.push('m');
        push_decimal(&mut out, s % 60);
        out.push('s');
        assert(out@ =~= decimal((s / 60) as nat).push('m') + decimal((s % 60) as nat).push('s'));
    }
    out
}

/// `n` in decimal with at least two digits (a leading zero below ten).
pub open spec fn two_digits(n: nat) -> Seq<char> {
    if n < 10 {
        seq!['0'] + decimal(n)
    } else {
        decimal(n)
    }
}

/// Elapsed time as `MM:SS` (minutes keep growing past 99).
pub open spec fn clock(secs: nat) -> Seq<char> {
    two_digits(secs / 60) + seq![':'] + two_digits(secs % 60)
}

fn push_two_digits(s: &mut String, n: u64)
    ensures
        final(s)@ == old(s)@ + two_digits(n as nat),
{
    if n < 10 {
        s.push('0');
    }
    push_decimal(s, n);
    if n < 10 {
        assert(s@ =~= old(s)@ + (seq!['0'] + decimal(n as nat)));
    }
}

/// The session clock shown in the header.
pub fn clock_text(elapsed_secs: u64) -> (r: String)
    ensures
        r@ == clock(elapsed_secs as nat),
{
    let mut out = String::new();
    push_two_digits(&mut out, elapsed_secs / 60);
    out.push(':');
    push_two_digits(&mut out, elapsed_secs % 60);
    assert(out@ =~= clock(elapsed_secs as nat));
    out
}

/// Whole seconds from `earlier` to `later` (milliseconds; none when
/// `later` is not after `earlier`).
pub open spec fn whole_secs(earlier: u64, later: u64) -> nat {
    if later >= earlier {
        ((later - earlier) / 1000) as nat
    } else {
        0
    }
}

/// Whole seconds from `earlier_ms` to `later_ms`.
pub fn secs_between(earlier_ms: u64, later_ms: u64) -> (r: u64)
    ensures
        r == whole_secs(earlier_ms, later_ms),
{
    if later_ms >= earlier_ms {
        (later_ms - earlier_ms) / 1000
    } else {
        0
    }
}

} // verus!
