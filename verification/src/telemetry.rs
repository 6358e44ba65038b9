//! Shaping of custom telemetry submissions.
//!
//! A dump carries events and a decimal microsecond timestamp as text.
//! The deterministic core — validating and parsing the timestamp,
//! converting it to whole seconds and assembling the row to store —
//! lives here; the HTTP endpoint and the warehouse client around it
//! only move the finished row.

use vstd::prelude::*;

verus! {

/// Rejections raised while shaping a telemetry submission.
#[derive(Clone, Copy, Debug, PartialEq, Eq, Structural)]
pub enum TelemetryError {
    /// The dump's timestamp is not a decimal `u64`.
    InvalidTimestamp,
}

/// One reported event: a name with its key/value parameters.
pub struct TelemetryEvent {
    pub name: String,
    pub params: Vec<(String, String)>,
}

/// One submission: a microsecond timestamp rendered as decimal text,
/// and the reported events.
pub struct TelemetryDump {
    pub timestamp_micros: String,
    pub events: Vec<TelemetryEvent>,
}

/// The stored row: the first event's name and parameters with the
/// submission time in whole seconds.
pub struct TelemetryRow {
    pub event_name: String,
    pub event_timestamp_secs: u64,
    pub event_params: Vec<(String, String)>,
}

/// Whether `c` is a decimal digit.
pub open spec fn is_dec_digit(c: char) -> bool {
    48 <= c as u32 <= 57
}

/// Whether every character of `s` is a decimal digit.
pub open spec fn all_dec_digits(s: Seq<char>) -> bool {
    forall|i: int| 0 <= i < s.len() ==> is_dec_digit(#[trigger] s[i])
}

/// The integer a digit string denotes, most significant digit first.
pub open spec fn digits_value(s: Seq<char>) -> int
    decreases s.len(),
{
    if s.len() == 0 {
        0
    } else {
        digits_value(s.drop_last()) * 10 + (s.last() as u32 - 48)
    }
}

/// The digit part of a decimal rendering: everything after one
/// optional leading plus sign.
pub open spec fn dec_digits_of(s: Seq<char>) -> Seq<char> {
    if s.len() > 0 && s[0] == '+' {
        s.drop_first()
    } else {
        s
    }
}

/// Whether `s` is a decimal rendering of a `u64`: an optional leading
/// plus sign, then at least one digit, denoting a value that fits.
pub open spec fn is_dec_u64(s: Seq<char>) -> bool {
    &&& dec_digits_of(s).len() > 0
    &&& all_dec_digits(dec_digits_of(s))
    &&& digits_value(dec_digits_of(s)) <= u64::MAX
}

/// A digit string's value is non-negative and never shrinks as digits
/// are appended.
proof fn lemma_digits_value_grows(s: Seq<char>, k: int)
    requires
        all_dec_digits(s),
        0 <= k <= s.len(),
    ensures
        0 <= digits_value(s.take(k)) <= digits_value(s),
    decreases s.len(),
{
    if s.len() == 0 {
        assert(s.take(k) =~= s);
    } else if k == s.len() {
        assert(s.take(k) =~= s);
        let prefix = s.drop_last();
        assert(all_dec_digits(prefix));
        lemma_digits_value_grows(prefix, prefix.len() as int);
        assert(digits_value(s) == digits_value(prefix) * 10 + (s.last() as u32 - 48));
        assert(digits_value(prefix) * 10 >= digits_value(prefix) >= 0);
    } else {
        let prefix = s.drop_last();
        assert(all_dec_digits(prefix));
        assert(s.take(k) =~= prefix.take(k));
        lemma_digits_value_grows(prefix, k);
        lemma_digits_value_grows(prefix, prefix.len() as int);
        assert(prefix.take(prefix.len() as int) =~= prefix);
        assert(digits_value(s) == digits_value(prefix) * 10 + (s.last() as u32 - 48));
        assert(digits_value(prefix) * 10 >= digits_value(prefix) >= 0);
    }
}

/// Parses a decimal rendering of a `u64` — an optional leading plus
/// sign, then at least one digit — rejecting anything else, including
/// values past `u64::MAX`.
pub fn parse_u64_decimal(s: &str) -> (r: Option<u64>)
    ensures
        match r {
            Some(v) => is_dec_u64(s@) && v == digits_value(dec_digits_of(s@)),
            None => !is_dec_u64(s@),
        },
{
    let len = s.unicode_len();
    let start: usize = if len > 0 && s.get_char(0) == '+' {
        1
    } else {
        0
    };
    if start == len {
        return None;
    }
    let ghost digits = dec_digits_of(s@);
    proof {
        if start == 1 {
            assert(digits =~= s@.subrange(1, len as int));
        } else {
            assert(digits =~= s@.subrange(0, len as int));
        }
    }
    let mut acc: u64 = 0;
    let mut i: usize = start;
    while i < len
        invariant
            start <= i <= len,
            start <= 1,
            len == s@.len(),
            digits == dec_digits_of(s@),
            digits.len() == len - start,
            forall|j: int| 0 <= j < digits.len() ==> digits[j] == s@[j + start],
            all_dec_digits(digits.take(i - start)),
            acc == digits_value(digits.take(i - start)),
        decreases len - i,
    {
        let c = s.get_char(i);
        let cu = c as u32;
        if cu < 48 || cu > 57 {
            proof {
                assert(digits[i - start] == c);
                assert(!is_dec_digit(digits[i - start]));
            }
            return None;
        }
        let d = (cu - 48) as u64;
        proof {
            assert(digits[i - start] == c);
            assert(digits.take(i - start + 1).drop_last() =~= digits.take(i - start));
            assert(digits.take(i - start + 1).last() == c);
            assert(digits_value(digits.take(i - start + 1)) == acc * 10 + d);
            vstd::arithmetic::div_mod::lemma_fundamental_div_mod((u64::MAX - d) as int, 10);
            vstd::arithmetic::div_mod::lemma_mod_division_less_than_divisor(
                (u64::MAX - d) as int,
                10,
            );
        }
        if acc > (u64::MAX - d) / 10 {
            proof {
                assert(acc * 10 + d > u64::MAX);
                if is_dec_u64(s@) {
                    lemma_digits_value_grows(digits, i - start + 1);
                    assert(false);
                }
            }
            return None;
        }
        acc = acc * 10 + d;
        i = i + 1;
    }
    proof {
        assert(digits.take(len - start) =~= digits);
    }
    Some(acc)
}

/// Shapes one submission into its stored row: the timestamp is parsed
/// as decimal microseconds and floored to whole seconds, and the first
/// event's name and parameters are carried over.  Fails exactly when
/// the timestamp is not a decimal `u64`.
pub fn build_row(dump: TelemetryDump) -> (r: Result<TelemetryRow, TelemetryError>)
    requires
        dump.events@.len() > 0,
    ensures
        r is Ok <==> is_dec_u64(dump.timestamp_micros@),
        r matches Ok(row) ==> {
            &&& row.event_name == dump.events@[0].name
            &&& row.event_timestamp_secs == digits_value(
                dec_digits_of(dump.timestamp_micros@),
            ) / 1_000_000
            &&& row.event_params == dump.events@[0].params
        },
        r matches Err(e) ==> e == TelemetryError::InvalidTimestamp,
{
    let micros = match parse_u64_decimal(dump.timestamp_micros.as_str()) {
        Some(v) => v,
        None => {
            return Err(TelemetryError::InvalidTimestamp);
        },
    };
    let mut events = dump.events;
    let event = events.remove(0);
    Ok(TelemetryRow {
        event_name: event.name,
        event_timestamp_secs: micros / 1_000_000,
        event_params: event.params,
    })
}

} // verus!
