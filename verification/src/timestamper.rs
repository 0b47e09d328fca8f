//! Day-granular timestamps of ten bits, written as two base32 symbols.
//!
//! The alphabet is `a-z` followed by `2-7`, 32 symbols in all. A ten-bit
//! number is written low five bits first. Reading is indifferent to the case
//! of letters.

use vstd::prelude::*;
use vstd::string::*;
use std::time::{Duration, SystemTime, SystemTimeError, UNIX_EPOCH};

verus! {

/// A point on the system clock; nothing is known of its value.
#[verifier::external_type_specification]
#[verifier::external_body]
pub struct ExSystemTime(SystemTime);

/// How far a clock reading lies before the point it was measured from.
#[verifier::external_type_specification]
#[verifier::external_body]
pub struct ExSystemTimeError(SystemTimeError);

/// `SystemTime::now` reads the system clock. Nothing is claimed of the
/// reading.
#[verifier::external_body]
fn clock_now() -> (now: SystemTime) {
    SystemTime::now()
}

/// `SystemTime::duration_since`, measured from the Unix epoch. It fails for a
/// reading that lies before the epoch. Nothing is claimed of the duration.
#[verifier::external_body]
fn since_unix_epoch(t: &SystemTime) -> (elapsed: Result<Duration, SystemTimeError>) {
    t.duration_since(UNIX_EPOCH)
}

/// `Duration::as_secs` gives the whole seconds of a duration. Nothing is
/// claimed of their number.
#[verifier::external_body]
fn whole_seconds(d: &Duration) -> (secs: u64) {
    d.as_secs()
}

/// Gives timestamps to the forwarder and judges them for the receiver.
pub trait Timestamper {
    /// Judges the timestamp `ts`: `Ok` if it is fresh enough, else the
    /// distance in days that made it fail.
    fn verify_timestamp(&self, ts: &str) -> Result<(), i32>;

    /// The timestamp of the present day.
    fn now_as_timestamp(&self) -> String;
}

/// The timestamper that goes by the system clock.
pub struct SRSTimestamper {
    /// How many days a timestamp may lie away from today.
    pub max_valid_delta: u16,
}

/// The day counter of a Unix time, reduced to ten bits.
pub open spec fn day_counter(unix_seconds: int) -> int {
    (unix_seconds / 86400) % 1024
}

/// The symbol that stands for the five-bit value `v`.
pub open spec fn base32_symbol(v: int) -> char {
    if v < 26 {
        (v + 97) as char
    } else {
        (v + 24) as char
    }
}

/// The five-bit value that `c` stands for, if it is a symbol. Capital letters
/// count as their small letters.
pub open spec fn base32_value(c: char) -> Option<int> {
    if 'a' <= c <= 'z' {
        Some(c as int - 97)
    } else if 'A' <= c <= 'Z' {
        Some(c as int - 65)
    } else if '2' <= c <= '7' {
        Some(c as int - 24)
    } else {
        None
    }
}

/// The two symbols for the low ten bits of `v`: low five bits first.
pub open spec fn base32_encoding(v: u16) -> Seq<char> {
    seq![base32_symbol(v as int % 32), base32_symbol((v as int / 32) % 32)]
}

/// The number that the first two characters of `s` spell, if there are two
/// and both are symbols. What follows them is not looked at.
pub open spec fn base32_decoding(s: Seq<char>) -> Result<u16, ()> {
    if s.len() < 2 {
        Err(())
    } else {
        match (base32_value(s[0]), base32_value(s[1])) {
            (Some(low), Some(high)) => Ok((high * 32 + low) as u16),
            _ => Err(()),
        }
    }
}

/// The judgement on the timestamp `ts` on day `now`, for a window of
/// `max_valid_delta` days. The distance is the plain difference of the two
/// day counters, not their distance round the ten-bit circle.
pub open spec fn timestamp_verdict(max_valid_delta: u16, now: u16, ts: Seq<char>) -> Result<
    (),
    i32,
> {
    match base32_decoding(ts) {
        Err(_) => Err(i32::MAX),
        Ok(days) => {
            let delta = if now > days {
                now - days
            } else {
                days - now
            };
            if delta > max_valid_delta {
                Err(delta as i32)
            } else {
                Ok(())
            }
        },
    }
}

/// The symbol for a five-bit value.
fn symbol_of(v: u8) -> (c: char)
    requires
        v < 32,
    ensures
        c == base32_symbol(v as int),
{
    if v < 26 {
        (v + 97) as char
    } else {
        (v + 24) as char
    }
}

/// The five-bit value of a symbol, or `None` for any other character.
fn value_of(c: char) -> (v: Option<u8>)
    ensures
        match v {
            Some(x) => base32_value(c) == Some(x as int) && x < 32,
            None => base32_value(c) is None,
        },
{
    if 'a' <= c && c <= 'z' {
        Some((c as u8) - 97)
    } else if 'A' <= c && c <= 'Z' {
        Some((c as u8) - 65)
    } else if '2' <= c && c <= '7' {
        Some((c as u8) - 24)
    } else {
        None
    }
}

impl SRSTimestamper {
    /// Reduces a Unix time in seconds to its ten-bit day counter.
    pub fn days_10bit(unix_seconds: u64) -> (days: u16)
        ensures
            days as int == day_counter(unix_seconds as int),
            days < 1024,
    {
        ((unix_seconds / 86400) % 1024) as u16
    }

    /// The ten-bit day counter of the system clock. A clock that is set
    /// before the Unix epoch reads as the day of the epoch.
    pub fn now_in_days_10bit() -> (days: u16)
        ensures
            days < 1024,
    {
        let now = clock_now();
        let secs: u64 = match since_unix_epoch(&now) {
            Ok(elapsed) => whole_seconds(&elapsed),
            Err(_) => 0,
        };
        Self::days_10bit(secs)
    }

    /// Reads a ten-bit number from the first two characters of `s`.
    ///
    /// Fails if `s` has fewer than two characters or if one of the two is no
    /// symbol of the alphabet.
    pub fn base32_email_safe_decode_10bit(s: &str) -> (res: Result<u16, ()>)
        ensures
            res == base32_decoding(s@),
            res matches Ok(v) ==> v < 1024,
    {
        let mut it = s.chars();
        let first = it.next();
        let second = it.next();
        match (first, second) {
            (Some(c0), Some(c1)) => {
                assert(c0 == s@[0] && c1 == s@[1]);
                match (value_of(c0), value_of(c1)) {
                    (Some(val_low), Some(val_high)) => {
                        assert((((val_high as u16) << 5) | (val_low as u16)) == (val_high as u16)
                            * 32 + (val_low as u16)) by (bit_vector)
                            requires
                                val_low < 32,
                                val_high < 32,
                        ;
                        Ok(((val_high as u16) << 5) | (val_low as u16))
                    },
                    _ => Err(()),
                }
            },
            _ => {
                assert(s@.len() < 2);
                Err(())
            },
        }
    }

    /// Writes the low ten bits of `b` as two symbols, low five bits first.
    pub fn base32_email_safe_encode_10bit(b: u16) -> (s: String)
        ensures
            s@ == base32_encoding(b),
    {
        assert((b & 0x1f) == b % 32 && ((b >> 5) & 0x1f) == (b / 32) % 32) by (bit_vector);
        let mut s = String::new();
        s.push(symbol_of((b & 0x1f) as u8));
        s.push(symbol_of(((b >> 5) & 0x1f) as u8));
        assert(s@ =~= base32_encoding(b));
        s
    }

    /// Judges the timestamp `ts` as of day `now`.
    ///
    /// A timestamp that cannot be read fails with `i32::MAX`. Otherwise the
    /// distance in days between `now` and the timestamp decides: within
    /// `max_valid_delta` it passes, beyond it fails with that distance.
    pub fn verify_timestamp_at(&self, now: u16, ts: &str) -> (res: Result<(), i32>)
        ensures
            res == timestamp_verdict(self.max_valid_delta, now, ts@),
    {
        let days_ts: u16 = match Self::base32_email_safe_decode_10bit(ts) {
            Ok(d) => d,
            Err(_) => {
                return Err(i32::MAX);
            },
        };
        let abs_delta: u16 = if now > days_ts {
            now - days_ts
        } else {
            days_ts - now
        };
        if abs_delta > self.max_valid_delta {
            return Err(abs_delta as i32);
        }
        Ok(())
    }
}

impl Timestamper for SRSTimestamper {
    /// Judges `ts` as of the day that the system clock shows.
    fn verify_timestamp(&self, ts: &str) -> (res: Result<(), i32>)
        ensures
            exists|now: u16| now < 1024 && res == timestamp_verdict(self.max_valid_delta, now, ts@),
    {
        let now: u16 = Self::now_in_days_10bit();
        self.verify_timestamp_at(now, ts)
    }

    /// The timestamp of the day that the system clock shows.
    fn now_as_timestamp(&self) -> (ts: String)
        ensures
            exists|now: u16| now < 1024 && ts@ == base32_encoding(now),
    {
        let now: u16 = Self::now_in_days_10bit();
        Self::base32_email_safe_encode_10bit(now)
    }
}

/// Reading undoes writing: every ten-bit number comes back from its two
/// symbols.
pub proof fn lemma_base32_decode_inverts_encode(v: u16)
    requires
        v < 1024,
    ensures
        base32_decoding(base32_encoding(v)) == Ok::<u16, ()>(v),
{
}

/// The timestamp of day `day` is judged on day `now` by the distance of the
/// two days alone: within the window it passes, beyond it fails with the
/// distance.
pub proof fn lemma_verdict_on_a_written_day(max_valid_delta: u16, now: u16, day: u16)
    requires
        day < 1024,
    ensures
        timestamp_verdict(max_valid_delta, now, base32_encoding(day)) == (if now - day
            > max_valid_delta {
            Err::<(), i32>((now - day) as i32)
        } else if day - now > max_valid_delta {
            Err::<(), i32>((day - now) as i32)
        } else {
            Ok::<(), i32>(())
        }),
{
    lemma_base32_decode_inverts_encode(day);
}

/// A timestamp of the present day passes, whatever the window.
pub proof fn lemma_timestamp_of_today_passes(max_valid_delta: u16, now: u16)
    requires
        now < 1024,
    ensures
        timestamp_verdict(max_valid_delta, now, base32_encoding(now)) == Ok::<(), i32>(()),
{
    lemma_verdict_on_a_written_day(max_valid_delta, now, now);
}

} // verus!
