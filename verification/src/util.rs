//! Timestamps and human-readable formatting.

use vstd::arithmetic::power2::pow2;
use vstd::prelude::*;

use crate::text;

verus! {

// ---------------------------------------------------------------------------
// Time
// ---------------------------------------------------------------------------

/// The first and the last second that the crate `time` knows: those of the
/// years -9999 to 9999.
pub const FIRST_SECOND: i64 = -377705116800;

pub const LAST_SECOND: i64 = 253402300799;

/// The first second of the year 0.
pub const YEAR_ZERO: i64 = -62167219200;

/// The seconds since the epoch, rounded down.
pub open spec fn seconds_of(nanos: int) -> int {
    nanos / 1_000_000_000
}

/// `time::OffsetDateTime::from_unix_timestamp_nanos` and the hour, minute and
/// second of what it gives. It gives nothing outside the years -9999 to 9999.
#[verifier::external_body]
fn clock_at(nanos: i128) -> (r: Option<(u8, u8, u8)>)
    ensures
        match r {
            Some((h, m, s)) => {
                let t = seconds_of(nanos as int);
                &&& FIRST_SECOND <= t <= LAST_SECOND
                &&& h == (t % 86400) / 3600
                &&& m == (t % 3600) / 60
                &&& s == t % 60
            },
            None => !(FIRST_SECOND <= seconds_of(nanos as int) <= LAST_SECOND),
        },
{
    let t = time::OffsetDateTime::from_unix_timestamp_nanos(nanos).ok()?;
    Some((t.hour(), t.minute(), t.second()))
}

/// A time in the form of RFC 3339, as the crate `time` writes it.
pub uninterp spec fn rfc3339(nanos: int) -> Seq<char>;

/// `time::OffsetDateTime::from_unix_timestamp_nanos` and its `format` with
/// `Rfc3339`, which writes the years 0 to 9999 and no others.
#[verifier::external_body]
fn rfc3339_at(nanos: i128) -> (r: Option<String>)
    ensures
        match r {
            Some(s) => YEAR_ZERO <= seconds_of(nanos as int) <= LAST_SECOND && s@ == rfc3339(
                nanos as int,
            ),
            None => !(YEAR_ZERO <= seconds_of(nanos as int) <= LAST_SECOND),
        },
{
    let t = time::OffsetDateTime::from_unix_timestamp_nanos(nanos).ok()?;
    t.format(&time::format_description::well_known::Rfc3339).ok()
}

/// Milliseconds since the epoch in the form of RFC 3339, or the bare number if
/// the year does not fit.
pub open spec fn timestamp_text(millis: int) -> Seq<char> {
    if YEAR_ZERO <= seconds_of(millis * 1_000_000) <= LAST_SECOND {
        rfc3339(millis * 1_000_000)
    } else {
        text::dec_signed(millis)
    }
}

/// Milliseconds since the epoch in the form of RFC 3339, or the bare number if
/// the year does not fit.
pub fn format_timestamp(millis: i64) -> (r: String)
    ensures
        r@ == timestamp_text(millis as int),
{
    match rfc3339_at(millis as i128 * 1_000_000) {
        Some(s) => s,
        None => text::show_signed(millis),
    }
}

/// The time of day as `HH:MM:SS`.
pub open spec fn clock_text(millis: int) -> Seq<char> {
    let t = seconds_of(millis * 1_000_000);
    if FIRST_SECOND <= t <= LAST_SECOND {
        text::dec_two(((t % 86400) / 3600) as nat) + ":"@ + text::dec_two(
            ((t % 3600) / 60) as nat,
        ) + ":"@ + text::dec_two((t % 60) as nat)
    } else {
        "--:--:--"@
    }
}

/// The time of day, in UTC, of milliseconds since the epoch.
pub fn format_clock(millis: i64) -> (r: String)
    ensures
        r@ == clock_text(millis as int),
{
    match clock_at(millis as i128 * 1_000_000) {
        Some((h, m, s)) => {
            let mut r = text::show_two(h as u128);
            r.append(":");
            let minutes = text::show_two(m as u128);
            r.append(minutes.as_str());
            r.append(":");
            let seconds = text::show_two(s as u128);
            r.append(seconds.as_str());
            r
        },
        None => "--:--:--".to_string(),
    }
}

// ---------------------------------------------------------------------------
// Durations
// ---------------------------------------------------------------------------

/// How far a number of seconds, from 1 up to 60, is above a power of two.
pub open spec fn binary_exponent(ms: int) -> nat {
    if ms < 2000 {
        0
    } else if ms < 4000 {
        1
    } else if ms < 8000 {
        2
    } else if ms < 16000 {
        3
    } else if ms < 32000 {
        4
    } else {
        5
    }
}

/// `ms` milliseconds as hundredths of a second, rounded to the nearest. Halfway
/// cases go the way in which the double nearest to the number of seconds
/// deviates from it, and to the even neighbour if it does not.
pub open spec fn hundredths(ms: int) -> int {
    let q = ms / 10;
    let deviation = (ms * pow2((52 - binary_exponent(ms)) as nat)) % 1000;
    if ms % 10 < 5 {
        q
    } else if ms % 10 > 5 {
        q + 1
    } else if deviation == 0 {
        q + q % 2
    } else if deviation < 500 {
        q
    } else {
        q + 1
    }
}

/// A duration in compact form: `340ms`, `1.20s`, `1m05s`.
pub open spec fn duration_text(ms: int) -> Seq<char> {
    if ms < 1000 {
        text::dec(ms as nat) + "ms"@
    } else if ms < 60_000 {
        text::dec((hundredths(ms) / 100) as nat) + "."@ + text::dec_two(
            (hundredths(ms) % 100) as nat,
        ) + "s"@
    } else {
        text::dec((ms / 60_000) as nat) + "m"@ + text::dec_two(((ms / 1000) % 60) as nat) + "s"@
    }
}

fn hundredths_of(ms: u64) -> (r: u64)
    requires
        1000 <= ms < 60_000,
    ensures
        r == hundredths(ms as int),
{
    let q: u64 = ms / 10;
    let last: u64 = ms % 10;
    if last < 5 {
        return q;
    }
    if last > 5 {
        return q + 1;
    }
    let (e, scale): (u64, u128) = if ms < 2000 {
        (0, 0x10_0000_0000_0000)
    } else if ms < 4000 {
        (1, 0x8_0000_0000_0000)
    } else if ms < 8000 {
        (2, 0x4_0000_0000_0000)
    } else if ms < 16000 {
        (3, 0x2_0000_0000_0000)
    } else if ms < 32000 {
        (4, 0x1_0000_0000_0000)
    } else {
        (5, 0x8000_0000_0000)
    };
    proof {
        vstd::arithmetic::power2::lemma2_to64();
        vstd::arithmetic::power2::lemma2_to64_rest();
        assert(scale == pow2((52 - e) as nat));
        assert(ms * scale <= 60_000 * 0x10_0000_0000_0000) by (nonlinear_arith)
            requires
                ms < 60_000,
                scale <= 0x10_0000_0000_0000,
        ;
    }
    let deviation: u128 = (ms as u128 * scale) % 1000;
    if deviation == 0 {
        q + q % 2
    } else if deviation < 500 {
        q
    } else {
        q + 1
    }
}

/// A duration in compact form: `340ms`, `1.20s`, `1m05s`.
pub fn format_duration_ms(ms: u64) -> (r: String)
    ensures
        r@ == duration_text(ms as int),
{
    if ms < 1000 {
        let mut r = text::show_dec(ms as u128);
        r.append("ms");
        r
    } else if ms < 60_000 {
        let h: u64 = hundredths_of(ms);
        let mut r = text::show_dec((h / 100) as u128);
        r.append(".");
        let rest = text::show_two((h % 100) as u128);
        r.append(rest.as_str());
        r.append("s");
        r
    } else {
        let secs: u64 = ms / 1000;
        let mut r = text::show_dec((secs / 60) as u128);
        r.append("m");
        let rest = text::show_two((secs % 60) as u128);
        r.append(rest.as_str());
        r.append("s");
        proof {
            assert(ms / 60_000 == secs / 60);
        }
        r
    }
}

// ---------------------------------------------------------------------------
// Truncation
// ---------------------------------------------------------------------------

/// `s` cut to `max` characters, the last of which is an ellipsis if any is cut
/// off.
pub open spec fn truncated(s: Seq<char>, max: nat) -> Seq<char> {
    if s.len() <= max {
        s
    } else if max == 0 {
        Seq::empty()
    } else {
        s.take(max - 1).push('…')
    }
}

/// `s` cut to `max` characters, with an ellipsis where it is cut.
pub fn truncate(s: &str, max: usize) -> (r: String)
    ensures
        r@ == truncated(s@, max as nat),
        r@.len() <= max,
{
    let n: usize = s.unicode_len();
    if n <= max {
        return s.to_string();
    }
    if max == 0 {
        let r = String::new();
        proof {
            assert(r@ =~= Seq::<char>::empty());
        }
        return r;
    }
    proof {
        assert(s@.subrange(0, max - 1) =~= s@.take(max - 1));
    }
    let mut r = s.substring_char(0, max - 1).to_string();
    r.push('…');
    r
}

// ---------------------------------------------------------------------------
// Laws
// ---------------------------------------------------------------------------

/// A time in milliseconds lies in the second that its thousands count.
pub proof fn lemma_seconds(millis: int)
    ensures
        seconds_of(millis * 1_000_000) == millis / 1000,
{
    let q = millis / 1000;
    let r = millis % 1000;
    assert(millis == q * 1000 + r);
    assert(millis * 1_000_000 == q * 1_000_000_000 + r * 1_000_000);
    vstd::arithmetic::div_mod::lemma_fundamental_div_mod_converse(
        millis * 1_000_000,
        1_000_000_000,
        q,
        r * 1_000_000,
    );
}

proof fn lemma_day(t: int)
    ensures
        ((t % 86400) / 3600) * 3600 + ((t % 3600) / 60) * 60 + t % 60 == t % 86400,
        0 <= (t % 86400) / 3600 < 24,
        0 <= (t % 3600) / 60 < 60,
        0 <= t % 60 < 60,
{
    let d = t % 86400;
    let h = t % 3600;
    vstd::arithmetic::div_mod::lemma_mod_mod(t, 3600, 24);
    vstd::arithmetic::div_mod::lemma_mod_mod(t, 60, 60);
    assert(d % 3600 == h);
    assert(h % 60 == t % 60);
    assert(d == (d / 3600) * 3600 + h);
    assert(h == (h / 60) * 60 + t % 60);
}

/// The clock tells the second of the day: its hours, minutes and seconds add up
/// to it, and each is in its range.
pub proof fn lemma_clock(millis: int) -> (r: (nat, nat, nat))
    requires
        FIRST_SECOND <= millis / 1000 <= LAST_SECOND,
    ensures
        r.0 < 24,
        r.1 < 60,
        r.2 < 60,
        r.0 * 3600 + r.1 * 60 + r.2 == (millis / 1000) % 86400,
        clock_text(millis) == text::dec_two(r.0) + ":"@ + text::dec_two(r.1) + ":"@
            + text::dec_two(r.2),
{
    lemma_seconds(millis);
    let t = millis / 1000;
    lemma_day(t);
    (((t % 86400) / 3600) as nat, ((t % 3600) / 60) as nat, (t % 60) as nat)
}

/// A time far off has no time of day.
pub proof fn lemma_no_clock(millis: int)
    requires
        !(FIRST_SECOND <= millis / 1000 <= LAST_SECOND),
    ensures
        clock_text(millis) == "--:--:--"@,
{
    lemma_seconds(millis);
}

/// A duration is told in milliseconds below a second, in seconds to the nearest
/// hundredth below a minute, and in minutes and whole seconds from there on.
pub proof fn lemma_duration(ms: int) -> (r: (nat, nat))
    requires
        ms >= 0,
    ensures
        ms < 1000 ==> duration_text(ms) == text::dec(ms as nat) + "ms"@,
        1000 <= ms < 60_000 ==> {
            &&& r.1 < 100
            &&& -5 <= (r.0 * 100 + r.1) * 10 - ms <= 5
            &&& duration_text(ms) == text::dec(r.0) + "."@ + text::dec_two(r.1) + "s"@
        },
        60_000 <= ms ==> {
            &&& r.1 < 60
            &&& 0 <= ms - (r.0 * 60 + r.1) * 1000 < 1000
            &&& duration_text(ms) == text::dec(r.0) + "m"@ + text::dec_two(r.1) + "s"@
        },
{
    if ms < 60_000 {
        let h = hundredths(ms);
        assert(-5 <= h * 10 - ms <= 5);
        ((h / 100) as nat, (h % 100) as nat)
    } else {
        ((ms / 60_000) as nat, ((ms / 1000) % 60) as nat)
    }
}

/// A truncated text is never too long. A text that fits stays as it is, and one
/// that does not keeps its beginning and ends in an ellipsis.
pub proof fn lemma_truncated(s: Seq<char>, max: nat, i: int)
    ensures
        truncated(s, max).len() <= max,
        s.len() <= max ==> truncated(s, max) == s,
        s.len() > max > 0 ==> {
            &&& truncated(s, max).len() == max
            &&& truncated(s, max).last() == '…'
            &&& 0 <= i < max - 1 ==> truncated(s, max)[i] == s[i]
        },
{
}

/// A duration that lies halfway between two hundredths of a second goes where the
/// nearest number of 53 binary digits lies: down if that is less, up if it is
/// more, and to the even neighbour if it is the same.
pub proof fn lemma_duration_halves(ms: int, e: nat, n: int)
    requires
        1000 <= ms < 60_000,
        ms % 10 == 5,
        pow2(e) * 1000 <= ms < pow2(e + 1) * 1000,
        e <= 5,
        -500 < n * 1000 - ms * pow2((52 - e) as nat) < 500,
    ensures
        n * 1000 < ms * pow2((52 - e) as nat) ==> hundredths(ms) * 10 == ms - 5,
        n * 1000 > ms * pow2((52 - e) as nat) ==> hundredths(ms) * 10 == ms + 5,
        n * 1000 == ms * pow2((52 - e) as nat) ==> hundredths(ms) % 2 == 0,
{
    vstd::arithmetic::power2::lemma2_to64();
    assert(binary_exponent(ms) == e);
    let x = ms * pow2((52 - e) as nat);
    assert(n * 1000 < x ==> x % 1000 == x - n * 1000);
    assert(n * 1000 > x ==> x % 1000 == x - n * 1000 + 1000);
    assert(n * 1000 == x ==> x % 1000 == 0);
}

} // verus!
