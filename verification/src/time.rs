//! Wall-clock milliseconds and the millisecond timestamps of UUIDv7 ids.

use vstd::prelude::*;
use crate::ids::{
    lemma_uuid_text_reads_back, parse_uuid, parsed_uuid, uuid_string, uuid_text,
};

verus! {

/// Milliseconds elapsed since the Unix epoch by the system clock (std's
/// `SystemTime::elapsed` on the epoch, then `Duration::as_millis`); `None`
/// when the clock stands before the epoch. The value depends on the clock,
/// so nothing is stated of it.
#[verifier::external_body]
fn clock_ms() -> Option<u128> {
    match std::time::UNIX_EPOCH.elapsed() {
        Ok(d) => Some(d.as_millis()),
        Err(_) => None,
    }
}

/// The milliseconds a clock reading gives: 0 for a clock standing before
/// the epoch, `u64::MAX` for a reading past what 64 bits hold.
pub open spec fn reading_millis(reading: Option<u128>) -> u64 {
    match reading {
        None => 0,
        Some(ms) => if ms > u64::MAX as u128 {
            u64::MAX
        } else {
            ms as u64
        },
    }
}

/// The milliseconds of a clock reading (see `reading_millis`).
pub fn millis_of_reading(reading: Option<u128>) -> (r: u64)
    ensures
        r == reading_millis(reading),
{
    match reading {
        None => 0,
        Some(ms) => if ms > u64::MAX as u128 {
            u64::MAX
        } else {
            ms as u64
        },
    }
}

/// Milliseconds since the Unix epoch by the system clock: the clock is
/// read once and the reading turned into milliseconds by
/// `millis_of_reading`. Every `u64` is the milliseconds of some reading,
/// so nothing is stated of the result: what the clock reads is unknown.
pub fn now_ms() -> u64 {
    millis_of_reading(clock_ms())
}

/// The version field of a UUID value.
pub open spec fn uuid_version(v: u128) -> u128 {
    (v >> 76u128) & 15u128
}

/// The 48-bit millisecond field of a UUIDv7 value.
pub open spec fn v7_millis(v: u128) -> u64 {
    (v >> 80u128) as u64
}

/// The millisecond timestamp that a text carries, when it is a UUID of
/// version 7.
pub open spec fn timestamp_ms_of(text: Seq<char>) -> Option<u64> {
    match parsed_uuid(text) {
        Some(v) => if uuid_version(v) == 7 {
            Some(v7_millis(v))
        } else {
            None
        },
        None => None,
    }
}

/// Smallest UUIDv7 value of a millisecond (RFC variant, random bits 0).
/// Only the low 48 bits of `ms` fit in the timestamp field.
pub open spec fn v7_min_value(ms: u64) -> u128 {
    ((ms as u128) << 80u128) | (7u128 << 76u128) | (2u128 << 62u128)
}

/// Largest UUIDv7 value of a millisecond (RFC variant, random bits 1).
pub open spec fn v7_max_value(ms: u64) -> u128 {
    v7_min_value(ms) | (0xfffu128 << 64u128) | 0x3fff_ffff_ffff_ffffu128
}

/// The timestamp of a UUIDv7 text in milliseconds; `None` when the text is
/// not a UUID or not of version 7.
pub fn uuidv7_timestamp_ms(text: &str) -> (r: Option<u64>)
    ensures
        r == timestamp_ms_of(text@),
{
    match parse_uuid(text) {
        Some(v) => {
            if (v >> 76u128) & 15u128 == 7 {
                Some((v >> 80u128) as u64)
            } else {
                None
            }
        },
        None => None,
    }
}

/// The timestamp of a UUIDv7 text in whole seconds.
pub fn uuidv7_timestamp_secs(text: &str) -> (r: Option<u64>)
    ensures
        r == match timestamp_ms_of(text@) {
            Some(ms) => Some((ms / 1000) as u64),
            None => None::<u64>,
        },
{
    match uuidv7_timestamp_ms(text) {
        Some(ms) => Some(ms / 1000),
        None => None,
    }
}

/// The smallest UUIDv7 text of millisecond `ms`, as a lower bound for
/// range scans over ids.
pub fn uuidv7_min_for_ms(ms: u64) -> (s: String)
    ensures
        s@ == uuid_text(v7_min_value(ms)),
{
    let v: u128 = ((ms as u128) << 80u128) | (7u128 << 76u128) | (2u128 << 62u128);
    uuid_string(v)
}

/// The largest UUIDv7 text of millisecond `ms`, as an upper bound for
/// range scans over ids.
pub fn uuidv7_max_for_ms(ms: u64) -> (s: String)
    ensures
        s@ == uuid_text(v7_max_value(ms)),
{
    let v: u128 = ((ms as u128) << 80u128) | (7u128 << 76u128) | (2u128 << 62u128) | (0xfffu128
        << 64u128) | 0x3fff_ffff_ffff_ffffu128;
    uuid_string(v)
}

proof fn lemma_v7_bits(ms: u64)
    requires
        ms < 0x1_0000_0000_0000,
    ensures
        uuid_version(v7_min_value(ms)) == 7,
        v7_millis(v7_min_value(ms)) == ms,
        uuid_version(v7_max_value(ms)) == 7,
        v7_millis(v7_max_value(ms)) == ms,
        v7_min_value(ms) < v7_max_value(ms),
        ms + 1 < 0x1_0000_0000_0000 ==> v7_max_value(ms) < v7_min_value((ms + 1) as u64),
{
    assert(((((ms as u128) << 80u128) | (7u128 << 76u128) | (2u128 << 62u128)) >> 76u128) & 15u128
        == 7) by (bit_vector);
    assert(((((ms as u128) << 80u128) | (7u128 << 76u128) | (2u128 << 62u128)) >> 80u128) as u64
        == ms) by (bit_vector)
        requires
            ms < 0x1_0000_0000_0000,
    ;
    assert((((((ms as u128) << 80u128) | (7u128 << 76u128) | (2u128 << 62u128)) | (0xfffu128
        << 64u128) | 0x3fff_ffff_ffff_ffffu128) >> 76u128) & 15u128 == 7) by (bit_vector);
    assert((((((ms as u128) << 80u128) | (7u128 << 76u128) | (2u128 << 62u128)) | (0xfffu128
        << 64u128) | 0x3fff_ffff_ffff_ffffu128) >> 80u128) as u64 == ms) by (bit_vector)
        requires
            ms < 0x1_0000_0000_0000,
    ;
    assert((((ms as u128) << 80u128) | (7u128 << 76u128) | (2u128 << 62u128)) < ((((
    ms as u128) << 80u128) | (7u128 << 76u128) | (2u128 << 62u128)) | (0xfffu128 << 64u128)
        | 0x3fff_ffff_ffff_ffffu128)) by (bit_vector);
    assert(ms + 1 < 0x1_0000_0000_0000 ==> (((((ms as u128) << 80u128) | (7u128 << 76u128) | (
    2u128 << 62u128)) | (0xfffu128 << 64u128) | 0x3fff_ffff_ffff_ffffu128) < ((((ms + 1) as u64
        as u128) << 80u128) | (7u128 << 76u128) | (2u128 << 62u128)))) by (bit_vector);
}

/// For a millisecond that fits the 48-bit field: the bounds read back as
/// version 7 with that millisecond, the lower bound is below the upper
/// one, and the upper bound is below the next millisecond's lower bound.
pub proof fn lemma_v7_bounds_read_back(ms: u64)
    requires
        ms < 0x1_0000_0000_0000,
    ensures
        timestamp_ms_of(uuid_text(v7_min_value(ms))) == Some(ms),
        timestamp_ms_of(uuid_text(v7_max_value(ms))) == Some(ms),
        v7_min_value(ms) < v7_max_value(ms),
        ms + 1 < 0x1_0000_0000_0000 ==> v7_max_value(ms) < v7_min_value((ms + 1) as u64),
{
    lemma_v7_bits(ms);
    lemma_uuid_text_reads_back(v7_min_value(ms));
    lemma_uuid_text_reads_back(v7_max_value(ms));
}

} // verus!
