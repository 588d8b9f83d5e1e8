use vstd::prelude::*;
use vstd::string::StrSliceExecFns;

use crate::error::ULIDError;

verus! {

/// Number of characters in the text form.
pub const ULID_STRING_LENGTH: usize = 26;

/// The 32 symbols of Crockford's base32, in digit order.
pub open spec fn alphabet() -> Seq<char> {
    seq![
        '0', '1', '2', '3', '4', '5', '6', '7', '8', '9',
        'A', 'B', 'C', 'D', 'E', 'F', 'G', 'H', 'J', 'K',
        'M', 'N', 'P', 'Q', 'R', 'S', 'T', 'V', 'W', 'X',
        'Y', 'Z',
    ]
}

/// `c` with an ASCII lower-case letter made upper case.
pub open spec fn upper(c: char) -> char {
    if 97 <= (c as u32) <= 122 {
        ((c as u32) - 32) as char
    } else {
        c
    }
}

/// The value a character stands for on decoding, if any: the position of
/// its upper-case form in the alphabet, where `I` and `L` read as `1` and
/// `O` as `0`; `U` and everything else have no value.
pub open spec fn char_value(c: char) -> Option<u8> {
    let u = upper(c);
    if u == 'I' || u == 'L' {
        Some(1u8)
    } else if u == 'O' {
        Some(0u8)
    } else if alphabet().contains(u) {
        Some(alphabet().index_of(u) as u8)
    } else {
        None
    }
}

/// The ASCII code of the digit `d`.
spec fn digit_code(d: int) -> int {
    if d < 10 {
        d + 48
    } else if d < 18 {
        d + 55
    } else if d < 20 {
        d + 56
    } else if d < 22 {
        d + 57
    } else if d < 27 {
        d + 58
    } else {
        d + 59
    }
}

proof fn lemma_alphabet_codes()
    ensures
        forall|d: int| 0 <= d < 32 ==> (#[trigger] alphabet()[d]) as u32 == digit_code(d),
        alphabet().len() == 32,
{
}

/// The `i`-th 5-bit group of `v`, most significant first; the leading group
/// holds only the top 3 bits.
pub open spec fn group(v: u128, i: int) -> u128 {
    if i == 0 {
        v >> 125u128
    } else {
        (v >> ((125 - 5 * i) as u128)) & 31u128
    }
}

/// The canonical 26-character text form of `v`.
pub open spec fn encode_text(v: u128) -> Seq<char> {
    Seq::new(26, |i: int| alphabet()[group(v, i) as int])
}

/// The value of the first `n` base-32 digits of `d`, most significant first.
pub open spec fn digits_value(d: Seq<u8>, n: nat) -> u128
    decreases n,
{
    if n == 0 {
        0
    } else {
        (digits_value(d, (n - 1) as nat) << 5u128) | (d[n - 1] as u128)
    }
}

/// The first character of `s` from position `i` on that has no value.
pub open spec fn first_invalid(s: Seq<char>, i: nat) -> Option<char>
    decreases s.len() - i,
{
    if i >= s.len() {
        None
    } else if char_value(s[i as int]) is None {
        Some(s[i as int])
    } else {
        first_invalid(s, i + 1)
    }
}

/// The digit values of the characters of `s` (0 where a character has none).
pub open spec fn digits_of(s: Seq<char>) -> Seq<u8> {
    s.map_values(|c: char| if char_value(c) is Some { char_value(c)->0 } else { 0u8 })
}

/// What decoding the text `s` yields.
pub open spec fn decode_text(s: Seq<char>) -> Result<u128, ULIDError> {
    if s.len() != 26 {
        Err(ULIDError::InvalidLength)
    } else if char_value(s[0]) is None {
        Err(ULIDError::InvalidChar(s[0]))
    } else if char_value(s[0])->0 > 7 {
        Err(ULIDError::DataTypeOverflow)
    } else if first_invalid(s, 1) is Some {
        Err(ULIDError::InvalidChar(first_invalid(s, 1)->0))
    } else {
        Ok(digits_value(digits_of(s), 26))
    }
}

/// Looks up the value of one character of the text form.
pub fn resolve_value_for_char(c: char) -> (r: Result<u8, ULIDError>)
    ensures
        match char_value(c) {
            Some(d) => r == Ok::<u8, ULIDError>(d),
            None => r == Err::<u8, ULIDError>(ULIDError::InvalidChar(c)),
        },
        r is Ok ==> r->Ok_0 < 32,
{
    proof {
        lemma_alphabet_codes();
    }
    let code = c as u32;
    let n: u32 = if 97 <= code && code <= 122 { code - 32 } else { code };
    if 48 <= n && n <= 57 {
        Ok((n - 48) as u8)
    } else if 65 <= n && n <= 72 {
        Ok((n - 55) as u8)
    } else if n == 73 || n == 76 {
        Ok(1)
    } else if 74 <= n && n <= 75 {
        Ok((n - 56) as u8)
    } else if 77 <= n && n <= 78 {
        Ok((n - 57) as u8)
    } else if n == 79 {
        Ok(0)
    } else if 80 <= n && n <= 84 {
        Ok((n - 58) as u8)
    } else if 86 <= n && n <= 90 {
        Ok((n - 59) as u8)
    } else {
        Err(ULIDError::InvalidChar(c))
    }
}

pub(crate) proof fn lemma_group_bound(v: u128, i: int)
    requires
        0 <= i < 26,
    ensures
        group(v, i) < 32,
        i == 0 ==> group(v, i) < 8,
{
    let s = (125 - 5 * i) as u128;
    assert(v >> 125u128 < 8u128) by (bit_vector);
    assert((v >> s) & 31u128 < 32u128) by (bit_vector);
}

/// Writes `value` as the 26 ASCII bytes of its canonical text form.
pub fn append_crockford_u128(value: u128) -> (r: [u8; 26])
    ensures
        forall|i: int| 0 <= i < 26 ==> #[trigger] (r@[i] as char) == encode_text(value)[i],
{
    // "0123456789ABCDEFGHJKMNPQRSTVWXYZ" as ASCII codes
    let digits: [u8; 32] = [
        48, 49, 50, 51, 52, 53, 54, 55, 56, 57,
        65, 66, 67, 68, 69, 70, 71, 72, 74, 75,
        77, 78, 80, 81, 82, 83, 84, 86, 87, 88,
        89, 90,
    ];
    assert forall|d: int| 0 <= d < 32 implies (#[trigger] digits@[d]) as char == alphabet()[d] by {}
    let mut ans: [u8; 26] = [0u8; 26];
    let mut i: usize = 0;
    while i < 26
        invariant
            i <= 26,
            forall|d: int| 0 <= d < 32 ==> (#[trigger] digits@[d]) as char == alphabet()[d],
            forall|j: int| 0 <= j < i ==> #[trigger] (ans@[j] as char) == encode_text(value)[j],
        decreases 26 - i,
    {
        let g: u128 = if i == 0 {
            value >> 125u32
        } else {
            (value >> (125 - 5 * i) as u32) & 31
        };
        proof {
            lemma_group_bound(value, i as int);
            assert(g == group(value, i as int));
        }
        ans[i] = digits[g as usize];
        i = i + 1;
    }
    ans
}

proof fn lemma_first_invalid_skip(s: Seq<char>, k: nat, i: nat)
    requires
        k <= i <= s.len(),
        forall|j: int| k <= j < i ==> char_value(#[trigger] s[j]) is Some,
    ensures
        first_invalid(s, k) == first_invalid(s, i),
    decreases i - k,
{
    if k < i {
        lemma_first_invalid_skip(s, k + 1, i);
    }
}

/// Decodes a 26-character text form into its 128-bit value.
pub fn parse_crockford_u128(input: &str) -> (r: Result<u128, ULIDError>)
    ensures
        r == decode_text(input@),
{
    let length = input.unicode_len();
    if length != ULID_STRING_LENGTH {
        return Err(ULIDError::InvalidLength);
    }
    let highest = match resolve_value_for_char(input.get_char(0)) {
        Ok(d) => d,
        Err(e) => return Err(e),
    };
    if highest > 7 {
        return Err(ULIDError::DataTypeOverflow);
    }
    let ghost d = digits_of(input@);
    let mut result: u128 = highest as u128;
    proof {
        let h = highest as u128;
        assert(((0u128 << 5u128) | h) == h) by (bit_vector);
        assert(digits_value(d, 0) == 0);
        assert(digits_value(d, 1) == result);
    }
    let mut i: usize = 1;
    while i < 26
        invariant
            1 <= i <= 26,
            input@.len() == 26,
            d == digits_of(input@),
            char_value(input@[0]) is Some,
            char_value(input@[0])->0 <= 7,
            forall|j: int| 1 <= j < i ==> char_value(#[trigger] input@[j]) is Some,
            result == digits_value(d, i as nat),
        decreases 26 - i,
    {
        let c = input.get_char(i);
        let v = match resolve_value_for_char(c) {
            Ok(v) => v,
            Err(e) => {
                proof {
                    lemma_first_invalid_skip(input@, 1, i as nat);
                }
                return Err(e);
            },
        };
        result = (result << 5u32) | (v as u128);
        i = i + 1;
    }
    proof {
        lemma_first_invalid_skip(input@, 1, 26);
    }
    Ok(result)
}

proof fn lemma_alphabet_values(d: int)
    requires
        0 <= d < 32,
    ensures
        char_value(alphabet()[d]) == Some(d as u8),
{
}

proof fn lemma_encoded_prefix(v: u128, d: Seq<u8>, n: nat)
    requires
        1 <= n <= 26,
        d.len() == 26,
        forall|i: int| 0 <= i < 26 ==> #[trigger] d[i] as u128 == group(v, i),
    ensures
        digits_value(d, n) == v >> ((130 - 5 * n) as u128),
    decreases n,
{
    if n == 1 {
        let top = v >> 125u128;
        assert(((0u128 << 5u128) | top) == top) by (bit_vector);
        assert(digits_value(d, 0) == 0);
        assert(d[0] as u128 == group(v, 0));
    } else {
        lemma_encoded_prefix(v, d, (n - 1) as nat);
        let sh = (125 - 5 * (n - 1)) as u128;
        let sh5 = (130 - 5 * (n - 1)) as u128;
        assert(d[n - 1] as u128 == group(v, n - 1));
        assert(sh <= 120 && sh5 == sh + 5 ==> ((v >> sh5) << 5u128) | ((v >> sh) & 31u128) == v
            >> sh) by (bit_vector);
    }
}

/// Decoding the canonical text form of any value gives that value back.
pub proof fn lemma_text_round_trip(v: u128)
    ensures
        decode_text(encode_text(v)) == Ok::<u128, ULIDError>(v),
{
    let s = encode_text(v);
    let d = digits_of(s);
    assert forall|i: int| 0 <= i < 26 implies char_value(#[trigger] s[i]) == Some(
        group(v, i) as u8,
    ) by {
        lemma_group_bound(v, i);
        lemma_alphabet_values(group(v, i) as int);
    }
    assert forall|i: int| 0 <= i < 26 implies #[trigger] d[i] as u128 == group(v, i) by {
        lemma_group_bound(v, i);
    }
    lemma_first_invalid_skip(s, 1, 26);
    lemma_group_bound(v, 0);
    lemma_encoded_prefix(v, d, 26);
    assert(v >> 0u128 == v) by (bit_vector);
}

/// The 128-bit value whose upper and lower 64 bits are `high` and `low`.
pub open spec fn join_words(high: u64, low: u64) -> u128 {
    ((high as u128) << 64u128) | (low as u128)
}

/// The joined value is `high * 2^64 + low`.
pub proof fn lemma_join_words(high: u64, low: u64)
    ensures
        join_words(high, low) as int == high as int * 0x1_0000_0000_0000_0000 + low as int,
{
    assert(((high as u128) << 64u128) | (low as u128) == (high as u128) * 0x1_0000_0000_0000_0000u128
        + (low as u128)) by (bit_vector);
}

/// Joins two 64-bit words into one 128-bit value, `high` on top.
pub fn join_u64_words(high: u64, low: u64) -> (r: u128)
    ensures
        r == join_words(high, low),
        r as int == high as int * 0x1_0000_0000_0000_0000 + low as int,
{
    proof {
        lemma_join_words(high, low);
    }
    ((high as u128) << 64u32) | (low as u128)
}

/// Decodes a 26-character text form into its upper and lower 64-bit words.
pub fn parse_crockford_u64_tuple(input: &str) -> (r: Result<(u64, u64), ULIDError>)
    ensures
        match decode_text(input@) {
            Ok(v) => r == Ok::<(u64, u64), ULIDError>(((v >> 64u128) as u64, v as u64)),
            Err(e) => r == Err::<(u64, u64), ULIDError>(e),
        },
{
    match parse_crockford_u128(input) {
        Ok(v) => Ok(((v >> 64u32) as u64, v as u64)),
        Err(e) => Err(e),
    }
}

/// Writes the value made of the words `value.0` (upper) and `value.1`
/// (lower) as the 26 ASCII bytes of its canonical text form.
pub fn append_crockford_u64_tuple(value: (u64, u64)) -> (r: [u8; 26])
    ensures
        forall|i: int|
            0 <= i < 26 ==> #[trigger] (r@[i] as char) == encode_text(join_words(value.0, value.1))[i],
{
    append_crockford_u128(join_u64_words(value.0, value.1))
}

} // verus!
