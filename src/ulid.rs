use vstd::prelude::*;

use crate::crockford::{
    alphabet, append_crockford_u128, decode_text, encode_text, join_u64_words, join_words,
    lemma_text_round_trip, parse_crockford_u128,
};
use crate::error::ULIDError;

verus! {

/// Number of bytes in the byte form.
pub const ULID_BYTES_LENGTH: usize = 16;

const RANDOM_MSB_MASK: u64 = 0xffff;

const TIMESTAMP_MSB_MASK: u64 = 0xffff_ffff_ffff_0000;

/// 2^80: the weight of one millisecond in the 128-bit value.
pub open spec fn timestamp_unit() -> int {
    0x1_0000_0000_0000_0000_0000
}

/// 2^64: the weight of the lowest bit of the upper word.
pub open spec fn word_unit() -> int {
    0x1_0000_0000_0000_0000
}

/// Byte order of the byte form.
#[derive(Debug, Copy, Clone, PartialEq, Eq, Structural)]
pub enum Endian {
    /// Little endian.
    LE,
    /// Big endian.
    BE,
}

/// Position, counted from the most significant byte, of the byte stored at
/// index `i` of a 16-byte form.
pub open spec fn byte_rank(i: int, endian: Endian) -> int {
    match endian {
        Endian::BE => i,
        Endian::LE => 15 - i,
    }
}

/// The 16-byte form of `v` in the given byte order.
pub open spec fn bytes_of(v: u128, endian: Endian) -> Seq<u8> {
    Seq::new(16, |i: int| (v >> ((8 * (15 - byte_rank(i, endian))) as u128)) as u8)
}

/// The value of the `n` most significant bytes of the 16-byte form `b`.
pub open spec fn bytes_prefix_value(b: Seq<u8>, n: nat, endian: Endian) -> u128
    decreases n,
{
    if n == 0 {
        0
    } else {
        (bytes_prefix_value(b, (n - 1) as nat, endian) << 8u128) | (b[byte_rank(
            n - 1,
            endian,
        )] as u128)
    }
}

/// The 128-bit value that the 16-byte form `b` holds.
pub open spec fn bytes_value(b: Seq<u8>, endian: Endian) -> u128 {
    bytes_prefix_value(b, 16, endian)
}

/// A Universally Unique Lexicographically Sortable Identifier: a 48-bit
/// millisecond timestamp above 80 bits of randomness. Identifiers order by
/// their 128-bit value.
#[derive(Debug, Copy, Clone, Hash, PartialEq, Eq, Structural, PartialOrd, Ord)]
pub struct ULID(pub u128);

/// Relies on `String::push`: appends one character.
#[verifier::external_body]
fn push_char(s: &mut String, c: char)
    ensures
        final(s)@ == old(s)@.push(c),
{
    s.push(c);
}

proof fn lemma_fields(v: u128)
    ensures
        (v >> 80u128) as int == v as int / timestamp_unit(),
        (v >> 64u128) as int == v as int / word_unit(),
        (v as u64) as int == v as int % word_unit(),
{
    assert(v >> 80u128 == v / 0x1_0000_0000_0000_0000_0000u128) by (bit_vector);
    assert(v >> 64u128 == v / 0x1_0000_0000_0000_0000u128) by (bit_vector);
    assert(v as u64 as u128 == v % 0x1_0000_0000_0000_0000u128) by (bit_vector);
}

impl ULID {
    /// The timestamp field: milliseconds since the Unix epoch.
    pub open spec fn timestamp(self) -> int {
        self.0 as int / timestamp_unit()
    }

    /// The randomness field: the low 80 bits.
    pub open spec fn randomness(self) -> int {
        self.0 as int % timestamp_unit()
    }

    /// The identifier with the same timestamp and the randomness field plus
    /// one, wrapping to zero at its maximum.
    pub open spec fn incremented(self) -> ULID {
        ULID(
            (self.timestamp() * timestamp_unit() + (self.randomness() + 1) % timestamp_unit()) as u128,
        )
    }

    /// Wraps a 128-bit value.
    pub fn new(value: u128) -> (r: Self)
        ensures
            r.0 == value,
    {
        Self(value)
    }

    /// The canonical 26-character text form.
    pub fn to_string(&self) -> (r: String)
        ensures
            r@ == encode_text(self.0),
            r@.len() == 26,
            forall|i: int| 0 <= i < 26 ==> alphabet().contains(#[trigger] r@[i]),
    {
        let bytes = append_crockford_u128(self.0);
        let mut s = String::new();
        let mut i: usize = 0;
        while i < 26
            invariant
                i <= 26,
                forall|k: int| 0 <= k < 26 ==> #[trigger] (bytes@[k] as char) == encode_text(
                    self.0,
                )[k],
                s@ == encode_text(self.0).take(i as int),
            decreases 26 - i,
        {
            push_char(&mut s, bytes[i] as char);
            i = i + 1;
        }
        assert(s@ =~= encode_text(self.0));
        assert forall|i: int| 0 <= i < 26 implies alphabet().contains(#[trigger] s@[i]) by {
            crate::crockford::lemma_group_bound(self.0, i);
            assert(alphabet()[crate::crockford::group(self.0, i) as int] == s@[i]);
        }
        s
    }

    /// The next identifier in the same millisecond: the randomness field
    /// plus one, wrapping to zero at its maximum; the timestamp is kept.
    pub fn increment(&self) -> (r: Self)
        ensures
            r.timestamp() == self.timestamp(),
            r.randomness() == (self.randomness() + 1) % timestamp_unit(),
            r == self.incremented(),
    {
        let v = self.0;
        let lsb = self.least_significant_bits();
        let msb = self.most_significant_bits();
        let r = if lsb != 0xffff_ffff_ffff_ffff {
            ULID(join_u64_words(msb, lsb + 1))
        } else {
            if (msb & RANDOM_MSB_MASK) != RANDOM_MSB_MASK {
                assert((msb & 0xffffu64) != 0xffffu64 ==> msb != 0xffff_ffff_ffff_ffffu64)
                    by (bit_vector);
                ULID(join_u64_words(msb + 1, 0))
            } else {
                ULID(join_u64_words(msb & TIMESTAMP_MSB_MASK, 0))
            }
        };
        let w = r.0;
        assert(lsb == v as u64 && msb == (v >> 64u128) as u64 && lsb != 0xffff_ffff_ffff_ffffu64
            && w == ((msb as u128) << 64u128) | ((lsb + 1) as u64 as u128) ==> w >> 80u128 == v
            >> 80u128 && w & 0xffff_ffff_ffff_ffff_ffffu128 == (v & 0xffff_ffff_ffff_ffff_ffffu128)
            + 1) by (bit_vector);
        assert(lsb == v as u64 && msb == (v >> 64u128) as u64 && lsb == 0xffff_ffff_ffff_ffffu64
            && (msb & 0xffffu64) != 0xffffu64 && w == ((((msb + 1) as u64) as u128) << 64u128) | (
        0u64 as u128) ==> w >> 80u128 == v >> 80u128 && w & 0xffff_ffff_ffff_ffff_ffffu128 == (v
            & 0xffff_ffff_ffff_ffff_ffffu128) + 1) by (bit_vector);
        assert(lsb == v as u64 && msb == (v >> 64u128) as u64 && lsb == 0xffff_ffff_ffff_ffffu64
            && (msb & 0xffffu64) == 0xffffu64 && w == (((msb & 0xffff_ffff_ffff_0000u64) as u128)
            << 64u128) | (0u64 as u128) ==> w >> 80u128 == v >> 80u128 && w
            & 0xffff_ffff_ffff_ffff_ffffu128 == 0 && v & 0xffff_ffff_ffff_ffff_ffffu128
            == 0xffff_ffff_ffff_ffff_ffffu128) by (bit_vector);
        assert(w & 0xffff_ffff_ffff_ffff_ffffu128 == w % 0x1_0000_0000_0000_0000_0000u128)
            by (bit_vector);
        assert(v & 0xffff_ffff_ffff_ffff_ffffu128 == v % 0x1_0000_0000_0000_0000_0000u128)
            by (bit_vector);
        proof {
            lemma_fields(v);
            lemma_fields(w);
        }
        r
    }

    /// The upper 64 bits.
    pub fn most_significant_bits(&self) -> (r: u64)
        ensures
            r == (self.0 >> 64u128) as u64,
            r as int == self.0 as int / word_unit(),
    {
        proof {
            lemma_fields(self.0);
        }
        (self.0 >> 64u32) as u64
    }

    /// The lower 64 bits.
    pub fn least_significant_bits(&self) -> (r: u64)
        ensures
            r == self.0 as u64,
            r as int == self.0 as int % word_unit(),
    {
        proof {
            lemma_fields(self.0);
        }
        self.0 as u64
    }

    /// The timestamp field, in milliseconds since the Unix epoch.
    pub fn to_epoch_milli_as_long(&self) -> (r: i64)
        ensures
            r as int == self.timestamp(),
            0 <= r < 0x1_0000_0000_0000,
    {
        proof {
            lemma_fields(self.0);
        }
        (self.0 >> 80u32) as i64
    }
    /// The 16-byte form in the given byte order.
    pub fn to_byte_array(&self, endian: Endian) -> (r: Vec<u8>)
        ensures
            r@ == bytes_of(self.0, endian),
    {
        let mut buf: Vec<u8> = Vec::new();
        let mut i: usize = 0;
        while i < ULID_BYTES_LENGTH
            invariant
                i <= 16,
                buf@ == bytes_of(self.0, endian).take(i as int),
            decreases 16 - i,
        {
            let rank: usize = match endian {
                Endian::BE => i,
                Endian::LE => 15 - i,
            };
            buf.push((self.0 >> (8 * (15 - rank)) as u32) as u8);
            i = i + 1;
            assert(buf@ =~= bytes_of(self.0, endian).take(i as int));
        }
        assert(buf@ =~= bytes_of(self.0, endian));
        buf
    }

    /// Reads an identifier from its 16-byte form in the given byte order.
    pub fn parse_from_byte_array(byte_array: Vec<u8>, endian: Endian) -> (r: Result<
        Self,
        ULIDError,
    >)
        ensures
            byte_array@.len() != 16 ==> r == Err::<ULID, ULIDError>(
                ULIDError::InvalidByteArrayError,
            ),
            byte_array@.len() == 16 ==> r == Ok::<ULID, ULIDError>(
                ULID(bytes_value(byte_array@, endian)),
            ),
    {
        if byte_array.len() != ULID_BYTES_LENGTH {
            return Err(ULIDError::InvalidByteArrayError);
        }
        let mut acc: u128 = 0;
        let mut k: usize = 0;
        while k < ULID_BYTES_LENGTH
            invariant
                k <= 16,
                byte_array@.len() == 16,
                acc == bytes_prefix_value(byte_array@, k as nat, endian),
            decreases 16 - k,
        {
            let idx: usize = match endian {
                Endian::BE => k,
                Endian::LE => 15 - k,
            };
            acc = (acc << 8u32) | (byte_array[idx] as u128);
            k = k + 1;
        }
        Ok(ULID(acc))
    }
}

proof fn lemma_bytes_prefix(b: Seq<u8>, n: nat, endian: Endian, k: int)
    requires
        n <= 16,
        b.len() == 16,
        0 <= k < n,
    ensures
        (bytes_prefix_value(b, n, endian) >> ((8 * (n - 1 - k)) as u128)) as u8 == b[byte_rank(
            k,
            endian,
        )],
    decreases n,
{
    let x = bytes_prefix_value(b, (n - 1) as nat, endian);
    let y = b[byte_rank(n - 1, endian)] as u128;
    assert(y < 256);
    if k == n - 1 {
        assert(y < 256 ==> (((x << 8u128) | y) >> 0u128) as u8 == y as u8) by (bit_vector);
    } else {
        lemma_bytes_prefix(b, (n - 1) as nat, endian, k);
        let sh = (8 * (n - 2 - k)) as u128;
        let sh8 = (8 * (n - 1 - k)) as u128;
        assert(sh <= 112 && sh8 == sh + 8 && y < 256 ==> (((x << 8u128) | y) >> sh8) as u8 == (x
            >> sh) as u8) by (bit_vector);
    }
}

/// Reading a 16-byte form and writing it back in the same byte order gives
/// the same bytes.
pub proof fn lemma_bytes_round_trip(b: Seq<u8>, endian: Endian)
    requires
        b.len() == 16,
    ensures
        bytes_of(bytes_value(b, endian), endian) == b,
{
    let v = bytes_value(b, endian);
    assert forall|i: int| 0 <= i < 16 implies #[trigger] bytes_of(v, endian)[i] == b[i] by {
        lemma_bytes_prefix(b, 16, endian, byte_rank(i, endian));
    }
    assert(bytes_of(v, endian) =~= b);
}

proof fn lemma_value_prefix(v: u128, endian: Endian, n: nat)
    requires
        n <= 16,
    ensures
        bytes_prefix_value(bytes_of(v, endian), n, endian) == v >> ((128 - 8 * n) as u128),
    decreases n,
{
    let b = bytes_of(v, endian);
    if n == 0 {
        assert(v >> 128u128 == 0) by (bit_vector);
    } else {
        lemma_value_prefix(v, endian, (n - 1) as nat);
        let sh = (128 - 8 * n) as u128;
        let sh8 = (136 - 8 * n) as u128;
        assert(byte_rank(byte_rank(n - 1, endian), endian) == n - 1);
        assert(b[byte_rank(n - 1, endian)] == (v >> sh) as u8);
        assert(sh <= 120 && sh8 == sh + 8 ==> ((v >> sh8) << 8u128) | ((v >> sh) as u8 as u128)
            == v >> sh) by (bit_vector);
    }
}

/// Writing a value as 16 bytes and reading them back in the same byte order
/// gives the same value.
pub proof fn lemma_value_round_trip(v: u128, endian: Endian)
    ensures
        bytes_value(bytes_of(v, endian), endian) == v,
{
    lemma_value_prefix(v, endian, 16);
    assert(v >> 0u128 == v) by (bit_vector);
}

impl std::str::FromStr for ULID {
    type Err = ULIDError;

    fn from_str(ulid_str: &str) -> (r: Result<Self, Self::Err>)
        ensures
            match decode_text(ulid_str@) {
                Ok(v) => r == Ok::<ULID, ULIDError>(ULID(v)),
                Err(e) => r == Err::<ULID, ULIDError>(e),
            },
    {
        match parse_crockford_u128(ulid_str) {
            Ok(value) => Ok(Self(value)),
            Err(e) => Err(e),
        }
    }
}

impl From<u128> for ULID {
    fn from(value: u128) -> (r: Self) {
        Self::new(value)
    }
}

impl vstd::std_specs::convert::FromSpecImpl<u128> for ULID {
    open spec fn obeys_from_spec() -> bool {
        true
    }

    open spec fn from_spec(v: u128) -> Self {
        ULID(v)
    }
}

impl From<(u64, u64)> for ULID {
    fn from(words: (u64, u64)) -> (r: Self) {
        let (most_significant_bits, least_significant_bits) = words;
        Self(join_u64_words(most_significant_bits, least_significant_bits))
    }
}

impl vstd::std_specs::convert::FromSpecImpl<(u64, u64)> for ULID {
    open spec fn obeys_from_spec() -> bool {
        true
    }

    open spec fn from_spec(v: (u64, u64)) -> Self {
        ULID(join_words(v.0, v.1))
    }
}

impl TryFrom<Vec<u8>> for ULID {
    type Error = ULIDError;

    fn try_from(value: Vec<u8>) -> (r: Result<Self, Self::Error>) {
        Self::parse_from_byte_array(value, Endian::BE)
    }
}

impl vstd::std_specs::convert::TryFromSpecImpl<Vec<u8>> for ULID {
    open spec fn obeys_try_from_spec() -> bool {
        true
    }

    open spec fn try_from_spec(v: Vec<u8>) -> Result<Self, Self::Error> {
        if v@.len() == 16 {
            Ok(ULID(bytes_value(v@, Endian::BE)))
        } else {
            Err(ULIDError::InvalidByteArrayError)
        }
    }
}

} // verus!
