//! Execution identifiers and the clock.
//!
//! An execution identifier is a KSUID: twenty bytes, of which the first
//! four count the seconds since the KSUID epoch and the rest are random.
//! Identifiers sort by the time at which they were made, and the seconds
//! they carry are the cycle's notion of "now".

use std::time::{Duration, SystemTime, SystemTimeError, UNIX_EPOCH};
use svix_ksuid::{Ksuid, KsuidLike};
use vstd::prelude::*;

verus! {

/// The Unix time of the KSUID epoch, in seconds.
pub const KSUID_EPOCH: i64 = 1_400_000_000;

/// `std::time::SystemTime`, as a value that is carried through.
#[verifier::external_type_specification]
#[verifier::external_body]
pub struct ExSystemTime(SystemTime);

/// `std::time::SystemTimeError`, as a value that is carried through.
#[verifier::external_type_specification]
#[verifier::external_body]
pub struct ExSystemTimeError(SystemTimeError);

/// `SystemTime::now`: the system clock's reading. Nothing is claimed of it.
pub assume_specification[ SystemTime::now ]() -> (t: SystemTime);

/// `SystemTime::duration_since`: the time from `earlier` to `t`, or an
/// error when `t` is the earlier of the two. Nothing is claimed of either.
pub assume_specification[ SystemTime::duration_since ](t: &SystemTime, earlier: SystemTime) -> (r:
    Result<Duration, SystemTimeError>);

/// `Duration::as_millis`: the whole milliseconds of `d`. Nothing is claimed
/// of their number.
pub assume_specification[ Duration::as_millis ](d: &Duration) -> (ms: u128);

/// The constant `std::time::UNIX_EPOCH`.
#[verifier::external_body]
fn unix_epoch() -> (t: SystemTime) {
    UNIX_EPOCH
}

/// Why the clock could not be read.
#[derive(Debug, Clone, Copy, PartialEq, Eq)]
pub enum ClockError {
    /// The system clock stands before the Unix epoch.
    BeforeEpoch,
}

/// The milliseconds since the Unix epoch, by the system clock.
pub fn current_time_ms() -> (out: Result<u128, ClockError>)
    ensures
        out matches Err(e) ==> e == ClockError::BeforeEpoch,
{
    let now = SystemTime::now();
    match now.duration_since(unix_epoch()) {
        Ok(elapsed) => clock_result(Some(elapsed.as_millis())),
        Err(_) => clock_result(None),
    }
}

/// The seconds since the Unix epoch that the identifier `bytes` carries:
/// its first four bytes, most significant first, counted from the KSUID
/// epoch.
pub open spec fn seconds_of(bytes: Seq<u8>) -> int {
    KSUID_EPOCH + bytes[0] * 0x100_0000 + bytes[1] * 0x1_0000 + bytes[2] * 0x100 + bytes[3]
}

/// The base-62 text of the identifier `bytes`, as `svix_ksuid` writes it.
pub uninterp spec fn base62_of(bytes: Seq<u8>) -> Seq<char>;

/// `Ksuid::now(None)`, as its bytes: an identifier of the current second
/// with a fresh random payload. Nothing is claimed of the bytes.
#[verifier::external_body]
fn ksuid_now() -> (bytes: [u8; 20]) {
    *Ksuid::now(None).bytes()
}

/// `KsuidLike::timestamp_seconds` of the identifier with these bytes: the
/// big-endian number in the first four bytes, plus the KSUID epoch.
#[verifier::external_body]
fn ksuid_timestamp_seconds(bytes: &[u8; 20]) -> (s: i64)
    ensures
        s == seconds_of(bytes@),
{
    Ksuid::from_bytes(*bytes).timestamp_seconds()
}

/// `KsuidLike::to_base62` of the identifier with these bytes.
#[verifier::external_body]
fn ksuid_to_base62(bytes: &[u8; 20]) -> (s: String)
    ensures
        s@ == base62_of(bytes@),
{
    Ksuid::from_bytes(*bytes).to_base62()
}

/// The identifier of one processing cycle.
#[derive(Debug, Clone, Copy, PartialEq, Eq)]
pub struct ExecutionId {
    bytes: [u8; 20],
}

impl ExecutionId {
    /// The twenty bytes of the identifier.
    pub closed spec fn bytes_spec(self) -> Seq<u8> {
        self.bytes@
    }

    /// The seconds since the Unix epoch at which the identifier was made.
    pub open spec fn seconds(self) -> int {
        seconds_of(self.bytes_spec())
    }

    /// The identifier's text.
    pub open spec fn text(self) -> Seq<char> {
        base62_of(self.bytes_spec())
    }

    /// The seconds of an identifier lie between the KSUID epoch and 2^32
    /// seconds after it.
    pub proof fn lemma_seconds_bounded(self)
        ensures
            KSUID_EPOCH <= self.seconds() < KSUID_EPOCH + 0x1_0000_0000,
    {
        assert(self.bytes@.len() == 20);
    }

    /// A fresh identifier for the current second.
    pub fn generate() -> (id: Self) {
        ExecutionId::from_bytes(ksuid_now())
    }

    /// The identifier with the given bytes.
    pub fn from_bytes(bytes: [u8; 20]) -> (id: Self)
        ensures
            id.bytes_spec() == bytes@,
    {
        ExecutionId { bytes }
    }

    /// The bytes of the identifier.
    pub fn bytes(&self) -> (bytes: [u8; 20])
        ensures
            bytes@ == self.bytes_spec(),
    {
        self.bytes
    }

    /// The seconds since the Unix epoch at which the identifier was made.
    pub fn timestamp_seconds(&self) -> (s: i64)
        ensures
            s == self.seconds(),
            KSUID_EPOCH <= s < KSUID_EPOCH + 0x1_0000_0000,
    {
        proof {
            self.lemma_seconds_bounded();
        }
        ksuid_timestamp_seconds(&self.bytes)
    }

    /// The identifier's text: twenty bytes in base 62.
    pub fn to_base62(&self) -> (s: String)
        ensures
            s@ == self.text(),
    {
        ksuid_to_base62(&self.bytes)
    }
}

/// What a reading of the clock comes to: the milliseconds, where the clock
/// gave the time since the Unix epoch, and the error where it stood before
/// the epoch and gave none.
pub open spec fn reading_result(reading: Option<u128>) -> Result<u128, ClockError> {
    match reading {
        Some(ms) => Ok(ms),
        None => Err(ClockError::BeforeEpoch),
    }
}

/// What a reading of the clock comes to: `reading` holds the milliseconds
/// since the Unix epoch, or nothing where the clock stood before it.
pub fn clock_result(reading: Option<u128>) -> (out: Result<u128, ClockError>)
    ensures
        out == reading_result(reading),
{
    match reading {
        Some(ms) => Ok(ms),
        None => Err(ClockError::BeforeEpoch),
    }
}

} // verus!
