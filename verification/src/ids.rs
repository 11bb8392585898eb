//! Identifiers of tasks and checkpoints, and the clock.

use vstd::prelude::*;

verus! {

/// Identifies one run of a task.
#[derive(Clone, Copy, Debug, PartialEq, Eq, Hash, Structural)]
pub struct TaskId(pub u128);

/// Identifies one snapshot of a task's working directory.
#[derive(Clone, Copy, Debug, PartialEq, Eq, Hash, Structural)]
pub struct CheckpointId(pub u128);

/// An instant, as seconds since 1970-01-01 00:00:00 UTC and the nanoseconds
/// behind them.
#[derive(Clone, Copy, Debug, PartialEq, Eq, Structural)]
pub struct Timestamp {
    pub secs: i64,
    pub nanos: u32,
}

/// The bits that mark a random UUID: version 4, variant 10.
pub open spec fn is_random_uuid(v: u128) -> bool {
    (v / 0x1000_0000_0000_0000_0000) % 16 == 4 && (v / 0x4000_0000_0000_0000) % 4 == 2
}

/// The lowercase hexadecimal digit of `n`.
pub open spec fn hex_digit(n: int) -> char {
    if n < 10 {
        (('0' as int) + n) as char
    } else {
        (('a' as int) + (n - 10)) as char
    }
}

/// The digit of `v` with `k` digits before it, out of 32.
pub open spec fn hex_at(v: u128, k: int) -> char {
    hex_digit((v as int / vstd::arithmetic::power::pow(16, (31 - k) as nat)) % 16)
}

/// The 36 characters of a UUID: 32 hexadecimal digits in groups of 8, 4, 4, 4
/// and 12 with dashes between them.
pub open spec fn hyphenated(v: u128) -> Seq<char> {
    Seq::new(
        36,
        |i: int|
            if i == 8 || i == 13 || i == 18 || i == 23 {
                '-'
            } else if i < 8 {
                hex_at(v, i)
            } else if i < 13 {
                hex_at(v, i - 1)
            } else if i < 18 {
                hex_at(v, i - 2)
            } else if i < 23 {
                hex_at(v, i - 3)
            } else {
                hex_at(v, i - 4)
            },
    )
}

/// `uuid::Uuid::new_v4`: a random value with the version and variant bits of a
/// random UUID. Which one is not stated: it is drawn from the system's source
/// of randomness.
#[verifier::external_body]
fn random_uuid() -> (r: u128)
    ensures
        is_random_uuid(r),
{
    uuid::Uuid::new_v4().as_u128()
}

/// The text that `uuid::Uuid` displays for a value: lowercase and hyphenated.
#[verifier::external_body]
fn uuid_text(v: u128) -> (r: String)
    ensures
        r@ == hyphenated(v),
{
    uuid::Uuid::from_u128(v).to_string()
}

/// `chrono::Utc::now`, as the `timestamp` and `timestamp_subsec_nanos` of what
/// it returns. It returns only where the system clock stands at 1970 or later.
#[verifier::external_body]
pub(crate) fn utc_now() -> (r: Timestamp)
    ensures
        r.secs >= 0,
        r.nanos < 1_000_000_000,
{
    let now = chrono::Utc::now();
    Timestamp { secs: now.timestamp(), nanos: now.timestamp_subsec_nanos() }
}

impl TaskId {
    /// A new random identifier.
    pub fn random() -> (r: TaskId)
        ensures
            is_random_uuid(r.0),
    {
        TaskId(random_uuid())
    }

    /// The hyphenated text of the identifier.
    pub fn text(&self) -> (r: String)
        ensures
            r@ == hyphenated(self.0),
    {
        uuid_text(self.0)
    }
}

impl CheckpointId {
    /// A new random identifier.
    pub fn random() -> (r: CheckpointId)
        ensures
            is_random_uuid(r.0),
    {
        CheckpointId(random_uuid())
    }

    /// The hyphenated text of the identifier.
    pub fn text(&self) -> (r: String)
        ensures
            r@ == hyphenated(self.0),
    {
        uuid_text(self.0)
    }
}

} // verus!
