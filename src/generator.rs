use vstd::prelude::*;

use rand::RngCore;

use crate::crockford::lemma_join_words;
use crate::error::ULIDError;
use crate::ulid::{timestamp_unit, word_unit, ULID};

verus! {

const TIMESTAMP_OVERFLOW_MASK: u64 = 0xffff_0000_0000_0000;

/// One past the largest timestamp that fits in 48 bits.
pub open spec fn timestamp_limit() -> int {
    0x1_0000_0000_0000
}

#[verifier::external_type_specification]
pub struct ExOsRng(rand::rngs::OsRng);

/// Relies on rand's `OsRng::try_fill_bytes` (rand_core's `getrandom` call):
/// ten random bytes from the operating system, of which nothing is known,
/// or the failure of the source in its own words.
#[verifier::external_body]
fn draw_random_bytes(rng: &mut rand::rngs::OsRng) -> Result<[u8; 10], String> {
    let mut buf = [0u8; 10];
    match rng.try_fill_bytes(&mut buf) {
        Ok(()) => Ok(buf),
        Err(e) => Err(e.to_string()),
    }
}

/// Relies on chrono's `From<SystemTime> for DateTime<Utc>` and
/// `DateTime::timestamp_millis`: what the system clock says, in milliseconds
/// since the Unix epoch, negative before it. chrono panics only on a clock
/// beyond its range of dates (about 262,000 years from now).
#[verifier::external_body]
fn now_millis() -> i64 {
    chrono::DateTime::<chrono::Utc>::from(std::time::SystemTime::now()).timestamp_millis()
}

/// What fresh generation yields at `timestamp` with the random words
/// `random_high` (16 bits) and `random_low` (64 bits).
pub open spec fn fresh_ulid(timestamp: u64, random_high: u16, random_low: u64) -> Result<
    ULID,
    ULIDError,
> {
    if timestamp >= timestamp_limit() {
        Err(ULIDError::TimestampOverflowError)
    } else {
        Ok(
            ULID(
                (timestamp * timestamp_unit() + random_high * word_unit() + random_low) as u128,
            ),
        )
    }
}

/// The 16 high random bits taken from a draw of ten bytes.
pub open spec fn random_high_of(b: Seq<u8>) -> u16 {
    (b[0] * 256 + b[1]) as u16
}

/// The big-endian value of the bytes `b` (at most eight of them).
pub open spec fn be_value(b: Seq<u8>) -> u64
    decreases b.len(),
{
    if b.len() == 0 {
        0
    } else {
        (be_value(b.drop_last()) << 8u64) | (b.last() as u64)
    }
}

/// The 64 low random bits taken from a draw of ten bytes.
pub open spec fn random_low_of(b: Seq<u8>) -> u64 {
    be_value(b.subrange(2, 10))
}

/// The message of `GenerateRandomError` for a failure of the random source
/// described by `m`.
pub open spec fn failure_message(m: Seq<char>) -> Seq<char> {
    "random source failed: "@ + m
}

/// Whether `r` is a `GenerateRandomError`.
pub open spec fn is_random_failure<T>(r: Result<T, ULIDError>) -> bool {
    r matches Err(ULIDError::GenerateRandomError { .. })
}

/// Whether `r` reports the failure of the random source described by `m`.
pub open spec fn reports_random_failure<T>(r: Result<T, ULIDError>, m: Seq<char>) -> bool {
    &&& r matches Err(ULIDError::GenerateRandomError { msg })
    &&& r->Err_0->GenerateRandomError_msg@ == failure_message(m)
}

/// Whether `r` is what generation at `timestamp` gives when the random source
/// answers `drawn`.
pub open spec fn generated(
    r: Result<ULID, ULIDError>,
    timestamp: u64,
    drawn: Result<[u8; 10], String>,
) -> bool {
    if timestamp >= timestamp_limit() {
        r == Err::<ULID, ULIDError>(ULIDError::TimestampOverflowError)
    } else {
        match drawn {
            Ok(b) => r == fresh_ulid(timestamp, random_high_of(b@), random_low_of(b@)),
            Err(m) => reports_random_failure(r, m@),
        }
    }
}

/// Whether `r` is what monotonic generation after `previous` gives when the
/// clock reads `timestamp` and the random source answers `drawn`: in the
/// millisecond of `previous`, `previous` incremented, or `DataTypeOverflow`
/// where its randomness is at its maximum; else fresh generation.
pub open spec fn generated_monotonic(
    r: Result<ULID, ULIDError>,
    previous: ULID,
    timestamp: i64,
    drawn: Result<[u8; 10], String>,
) -> bool {
    if previous.timestamp() == timestamp {
        if previous.randomness() == timestamp_unit() - 1 {
            r == Err::<ULID, ULIDError>(ULIDError::DataTypeOverflow)
        } else {
            r == Ok::<ULID, ULIDError>(previous.incremented())
        }
    } else {
        generated(r, timestamp as u64, drawn)
    }
}

/// Whether `r` is what strictly monotonic generation makes of the monotonic
/// result `m`: `None` where `m` is smaller than `previous`.
pub open spec fn strictly_from(
    r: Result<Option<ULID>, ULIDError>,
    m: Result<ULID, ULIDError>,
    previous: ULID,
) -> bool {
    match m {
        Ok(u) => if u.0 < previous.0 {
            r == Ok::<Option<ULID>, ULIDError>(None)
        } else {
            r == Ok::<Option<ULID>, ULIDError>(Some(u))
        },
        Err(e) => r == Err::<Option<ULID>, ULIDError>(e),
    }
}

/// Builds the identifier of `timestamp` and 80 bits of randomness, or fails
/// where the timestamp does not fit in 48 bits.
pub fn ulid_from_parts(timestamp: u64, random_high: u16, random_low: u64) -> (r: Result<
    ULID,
    ULIDError,
>)
    ensures
        r == fresh_ulid(timestamp, random_high, random_low),
{
    assert((timestamp & 0xffff_0000_0000_0000u64) != 0 <==> timestamp >= 0x1_0000_0000_0000u64)
        by (bit_vector);
    if (timestamp & TIMESTAMP_OVERFLOW_MASK) != 0 {
        Err(ULIDError::TimestampOverflowError)
    } else {
        let most_significant_bits = (timestamp << 16u32) | (random_high as u64);
        assert(timestamp < 0x1_0000_0000_0000u64 ==> (timestamp << 16u64) | (random_high as u64)
            == timestamp * 0x1_0000u64 + (random_high as u64)) by (bit_vector);
        proof {
            lemma_join_words(most_significant_bits, random_low);
        }
        Ok(ULID::from((most_significant_bits, random_low)))
    }
}

/// Builds the identifier of `timestamp` from what the random source
/// answered: ten random bytes, or the description of its failure.
pub fn ulid_from_draw(timestamp: u64, drawn: Result<[u8; 10], String>) -> (r: Result<
    ULID,
    ULIDError,
>)
    ensures
        generated(r, timestamp, drawn),
        is_random_failure(r) ==> r->Err_0->GenerateRandomError_msg@.len() > 0,
{
    if timestamp >= 0x1_0000_0000_0000 {
        return Err(ULIDError::TimestampOverflowError);
    }
    match drawn {
        Ok(bytes) => {
            let random_high: u16 = (bytes[0] as u16) * 256 + (bytes[1] as u16);
            let mut random_low: u64 = 0;
            let mut i: usize = 2;
            while i < 10
                invariant
                    2 <= i <= 10,
                    random_low == be_value(bytes@.subrange(2, i as int)),
                decreases 10 - i,
            {
                assert(bytes@.subrange(2, i + 1).drop_last() =~= bytes@.subrange(2, i as int));
                random_low = (random_low << 8u32) | (bytes[i] as u64);
                i = i + 1;
            }
            ulid_from_parts(timestamp, random_high, random_low)
        },
        Err(m) => {
            let mut msg = String::from_str("random source failed: ");
            msg.append(m.as_str());
            proof {
                reveal_strlit("random source failed: ");
            }
            Err(ULIDError::GenerateRandomError { msg })
        },
    }
}

/// Generates identifiers from the current time and the operating system's
/// random source.
#[derive(Clone, Copy, Debug)]
pub struct ULIDGenerator {
    rng: rand::rngs::OsRng,
}

impl ULIDGenerator {
    /// A generator drawing from the operating system's random source.
    pub fn new() -> Self {
        Self { rng: rand::rngs::OsRng }
    }

    fn internal_generate(&mut self, timestamp: u64) -> (r: Result<ULID, ULIDError>)
        ensures
            exists|drawn: Result<[u8; 10], String>| generated(r, timestamp, drawn),
    {
        if (timestamp & TIMESTAMP_OVERFLOW_MASK) != 0 {
            assert((timestamp & 0xffff_0000_0000_0000u64) != 0 ==> timestamp
                >= 0x1_0000_0000_0000u64) by (bit_vector);
            let r = Err(ULIDError::TimestampOverflowError);
            let ghost witness: Result<[u8; 10], String> = Ok(vstd::pervasive::arbitrary());
            assert(generated(r, timestamp, witness));
            return r;
        }
        let drawn = draw_random_bytes(&mut self.rng);
        ulid_from_draw(timestamp, drawn)
    }

    /// Generates an identifier for the clock reading `timestamp`, in
    /// milliseconds since the Unix epoch.
    pub fn generate_at(&mut self, timestamp: i64) -> (r: Result<ULID, ULIDError>)
        ensures
            exists|drawn: Result<[u8; 10], String>| #[trigger]
                generated(r, timestamp as u64, drawn),
    {
        self.internal_generate(#[verifier::truncate] (timestamp as u64))
    }

    /// Generates an identifier for the current time.
    pub fn generate(&mut self) -> (r: Result<ULID, ULIDError>)
        ensures
            exists|timestamp: u64, drawn: Result<[u8; 10], String>|
                generated(r, timestamp, drawn),
    {
        let timestamp = now_millis();
        self.generate_at(timestamp)
    }

    /// Generates the identifier that follows `previous_id` when the clock
    /// reads `timestamp`: `previous_id` incremented within its millisecond
    /// (or `DataTypeOverflow` where its randomness is exhausted), else a
    /// fresh identifier for `timestamp`.
    pub fn generate_monotonic_at(&mut self, previous_id: &ULID, timestamp: i64) -> (r: Result<
        ULID,
        ULIDError,
    >)
        ensures
            exists|drawn: Result<[u8; 10], String>|
                generated_monotonic(r, *previous_id, timestamp, drawn),
            r is Ok && previous_id.timestamp() <= timestamp ==> previous_id.0 < r->Ok_0.0,
    {
        if previous_id.to_epoch_milli_as_long() == timestamp {
            let v = previous_id.0;
            assert(v & 0xffff_ffff_ffff_ffff_ffffu128 == v % 0x1_0000_0000_0000_0000_0000u128)
                by (bit_vector);
            let r = if v & 0xffff_ffff_ffff_ffff_ffff == 0xffff_ffff_ffff_ffff_ffff {
                Err(ULIDError::DataTypeOverflow)
            } else {
                Ok(previous_id.increment())
            };
            let ghost witness: Result<[u8; 10], String> = Ok(vstd::pervasive::arbitrary());
            assert(generated_monotonic(r, *previous_id, timestamp, witness));
            r
        } else {
            let r = self.generate_at(timestamp);
            proof {
                assert((timestamp as u64) < 0x1_0000_0000_0000u64 ==> timestamp >= 0i64)
                    by (bit_vector);
                let drawn = choose|drawn: Result<[u8; 10], String>| #[trigger]
                    generated(r, timestamp as u64, drawn);
                assert(generated_monotonic(r, *previous_id, timestamp, drawn));
            }
            r
        }
    }

    /// Generates the identifier that follows `previous_id` at the current
    /// time.
    pub fn generate_monotonic(&mut self, previous_id: &ULID) -> (r: Result<ULID, ULIDError>)
        ensures
            exists|timestamp: i64, drawn: Result<[u8; 10], String>|
                generated_monotonic(r, *previous_id, timestamp, drawn),
    {
        let timestamp = now_millis();
        self.generate_monotonic_at(previous_id, timestamp)
    }

    /// As [`ULIDGenerator::generate_monotonic_at`], but gives `None` where the
    /// result would be smaller than `previous_id`.
    pub fn generate_strictly_monotonic_at(&mut self, previous_id: &ULID, timestamp: i64) -> (r:
        Result<Option<ULID>, ULIDError>)
        ensures
            exists|m: Result<ULID, ULIDError>, drawn: Result<[u8; 10], String>|
                generated_monotonic(m, *previous_id, timestamp, drawn) && strictly_from(
                    r,
                    m,
                    *previous_id,
                ),
    {
        let m = self.generate_monotonic_at(previous_id, timestamp);
        let r = match m {
            Ok(result) => if result.0 < previous_id.0 {
                Ok(None)
            } else {
                Ok(Some(result))
            },
            Err(e) => Err(e),
        };
        assert(strictly_from(r, m, *previous_id));
        r
    }

    /// Generates the identifier that follows `previous_id` at the current
    /// time, or `None` where the clock has gone back far enough that it
    /// would be smaller than `previous_id`.
    pub fn generate_strictly_monotonic(&mut self, previous_id: &ULID) -> (r: Result<
        Option<ULID>,
        ULIDError,
    >)
        ensures
            exists|
                timestamp: i64,
                m: Result<ULID, ULIDError>,
                drawn: Result<[u8; 10], String>,
            |
                generated_monotonic(m, *previous_id, timestamp, drawn) && strictly_from(
                    r,
                    m,
                    *previous_id,
                ),
    {
        let timestamp = now_millis();
        self.generate_strictly_monotonic_at(previous_id, timestamp)
    }
}

impl Default for ULIDGenerator {
    fn default() -> Self {
        ULIDGenerator::new()
    }
}

/// An identifier generated at an earlier millisecond is smaller than one
/// generated at a later millisecond, whatever their randomness.
pub proof fn lemma_earlier_timestamp_orders_first(
    a: Result<ULID, ULIDError>,
    earlier: u64,
    drawn_a: Result<[u8; 10], String>,
    b: Result<ULID, ULIDError>,
    later: u64,
    drawn_b: Result<[u8; 10], String>,
)
    requires
        generated(a, earlier, drawn_a),
        generated(b, later, drawn_b),
        earlier < later,
        a is Ok,
        b is Ok,
    ensures
        a->Ok_0.0 < b->Ok_0.0,
{
}

/// While the clock does not go back, monotonic generation that succeeds
/// yields an identifier greater than the previous one; it succeeds whenever
/// the timestamp fits in 48 bits, the random source answers, and (within
/// the same millisecond) the randomness of the previous one has room left.
pub proof fn lemma_monotonic_increases(
    r: Result<ULID, ULIDError>,
    previous: ULID,
    timestamp: i64,
    drawn: Result<[u8; 10], String>,
)
    requires
        generated_monotonic(r, previous, timestamp, drawn),
        previous.timestamp() <= timestamp,
    ensures
        r is Ok ==> previous.0 < r->Ok_0.0,
        timestamp < timestamp_limit() && drawn is Ok && (previous.timestamp() == timestamp
            ==> previous.randomness() < timestamp_unit() - 1) ==> r is Ok,
{
}

/// When the clock reads an earlier millisecond than that of the previous
/// identifier, strictly monotonic generation yields no identifier: `None`,
/// or an error where the random source failed.
pub proof fn lemma_regressed_clock_yields_none(
    r: Result<Option<ULID>, ULIDError>,
    m: Result<ULID, ULIDError>,
    previous: ULID,
    timestamp: i64,
    drawn: Result<[u8; 10], String>,
)
    requires
        generated_monotonic(m, previous, timestamp, drawn),
        strictly_from(r, m, previous),
        0 <= timestamp < previous.timestamp(),
    ensures
        !(r matches Ok(Some(_))),
        drawn is Ok ==> r == Ok::<Option<ULID>, ULIDError>(None),
{
}

/// `0xFFFF_FFFF_FFFF` is the last timestamp that generation accepts; one
/// more gives `TimestampOverflowError`.
pub proof fn lemma_timestamp_boundary(
    last: Result<ULID, ULIDError>,
    beyond: Result<ULID, ULIDError>,
    bytes: [u8; 10],
    drawn: Result<[u8; 10], String>,
)
    requires
        generated(last, 0xFFFF_FFFF_FFFF, Ok(bytes)),
        generated(beyond, 0x1_0000_0000_0000, drawn),
    ensures
        last is Ok,
        last->Ok_0.timestamp() == 0xFFFF_FFFF_FFFF,
        beyond == Err::<ULID, ULIDError>(ULIDError::TimestampOverflowError),
{
}

} // verus!
