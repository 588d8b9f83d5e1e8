use ulid_generator_rs::crockford::{
    append_crockford_u128, append_crockford_u64_tuple, parse_crockford_u128,
    parse_crockford_u64_tuple, resolve_value_for_char,
};
use ulid_generator_rs::{Endian, ULIDError, ULID};
use uuid::Uuid;

const SAMPLE: u128 = 1945195434112195390215103893317949576;
const SAMPLE_TEXT: &str = "01ETGRM6448X1HM0PYWG2KT648";

#[test]
fn text_form_of_extremes() {
    assert_eq!(ULID::new(0).to_string(), "00000000000000000000000000");
    assert_eq!(ULID::new(u128::MAX).to_string(), "7ZZZZZZZZZZZZZZZZZZZZZZZZZ");
}

#[test]
fn text_form_is_canonical() {
    let alphabet = "0123456789ABCDEFGHJKMNPQRSTVWXYZ";
    for v in [0u128, 1, SAMPLE, u128::MAX, 0xFFFF_FFFF_FFFF << 80] {
        let text = ULID::new(v).to_string();
        assert_eq!(text.chars().count(), 26);
        assert!(text.chars().all(|c| alphabet.contains(c)));
    }
}

#[test]
fn text_round_trip() {
    for v in [0u128, 1, 31, 32, SAMPLE, u128::MAX, 0xFFFF_FFFF_FFFF << 80] {
        let text = ULID::new(v).to_string();
        assert_eq!(parse_crockford_u128(&text), Ok(v));
    }
}

#[test]
fn parse_then_write_keeps_text() {
    let ulid: ULID = SAMPLE_TEXT.parse().unwrap();
    assert_eq!(ulid, ULID::new(SAMPLE));
    assert_eq!(ulid.to_string(), SAMPLE_TEXT);
}

#[test]
fn short_text_is_invalid_length() {
    assert_eq!(parse_crockford_u128("01ETGRM6448X1HM0PYWG2KT64"), Err(ULIDError::InvalidLength));
    assert_eq!(parse_crockford_u128(""), Err(ULIDError::InvalidLength));
    assert_eq!(
        parse_crockford_u128("01ETGRM6448X1HM0PYWG2KT6480"),
        Err(ULIDError::InvalidLength)
    );
}

#[test]
fn ambiguous_letters_read_leniently() {
    assert_eq!(
        parse_crockford_u128("01ETGRM6448X1HM0PYWG2KT64I"),
        parse_crockford_u128("01ETGRM6448X1HM0PYWG2KT641")
    );
    assert_eq!(
        parse_crockford_u128("01ETGRM6448X1HM0PYWG2KT64L"),
        parse_crockford_u128("01ETGRM6448X1HM0PYWG2KT641")
    );
    assert_eq!(
        parse_crockford_u128("O1ETGRM6448X1HM0PYWG2KT648"),
        Ok(SAMPLE)
    );
}

#[test]
fn lower_case_reads_as_upper_case() {
    assert_eq!(parse_crockford_u128("01etgrm6448x1hm0pywg2kt648"), Ok(SAMPLE));
}

#[test]
fn unknown_character_is_invalid_char() {
    assert_eq!(
        parse_crockford_u128("01ETGRM6448X1HM0PYWG2KT64U"),
        Err(ULIDError::InvalidChar('U'))
    );
    assert_eq!(
        parse_crockford_u128("01ETGRM6448X1HM0PYWG2K#6!8"),
        Err(ULIDError::InvalidChar('#'))
    );
    assert_eq!(
        parse_crockford_u128("01ETGRM6448X1HM0PYWG2KT64é"),
        Err(ULIDError::InvalidChar('é'))
    );
    assert_eq!(resolve_value_for_char('{'), Err(ULIDError::InvalidChar('{')));
}

#[test]
fn leading_character_above_seven_overflows() {
    assert_eq!(
        parse_crockford_u128("8ZZZZZZZZZZZZZZZZZZZZZZZZZ"),
        Err(ULIDError::DataTypeOverflow)
    );
    assert_eq!(parse_crockford_u128("7ZZZZZZZZZZZZZZZZZZZZZZZZZ"), Ok(u128::MAX));
    assert_eq!(
        parse_crockford_u128("8ZZZZZZZZZZZZZZZZZZZZZZZZU"),
        Err(ULIDError::DataTypeOverflow)
    );
    assert_eq!(
        parse_crockford_u128("UZZZZZZZZZZZZZZZZZZZZZZZZZ"),
        Err(ULIDError::InvalidChar('U'))
    );
}

#[test]
fn character_values() {
    assert_eq!(resolve_value_for_char('0'), Ok(0));
    assert_eq!(resolve_value_for_char('9'), Ok(9));
    assert_eq!(resolve_value_for_char('A'), Ok(10));
    assert_eq!(resolve_value_for_char('h'), Ok(17));
    assert_eq!(resolve_value_for_char('J'), Ok(18));
    assert_eq!(resolve_value_for_char('P'), Ok(22));
    assert_eq!(resolve_value_for_char('V'), Ok(27));
    assert_eq!(resolve_value_for_char('z'), Ok(31));
    assert_eq!(resolve_value_for_char('o'), Ok(0));
}

#[test]
fn two_word_codec() {
    let words = (105449255778666307u64, 1874305465861347464u64);
    assert_eq!(parse_crockford_u64_tuple(SAMPLE_TEXT), Ok(words));
    assert_eq!(&append_crockford_u64_tuple(words), SAMPLE_TEXT.as_bytes());
    assert_eq!(&append_crockford_u128(SAMPLE), SAMPLE_TEXT.as_bytes());
    assert_eq!(parse_crockford_u64_tuple("0"), Err(ULIDError::InvalidLength));
}

#[test]
fn fields_of_sample() {
    let ulid = ULID::from(SAMPLE);
    assert_eq!(ulid.to_epoch_milli_as_long(), 1609027950724);
    assert_eq!(ulid.most_significant_bits(), 105449255778666307);
    assert_eq!(ulid.least_significant_bits(), 1874305465861347464);
    assert_eq!(ULID::new(u128::MAX).to_epoch_milli_as_long(), 0xFFFF_FFFF_FFFF);
}

#[test]
fn increment_adds_one() {
    let ulid: ULID = (105449255778666307, 1874305465861347464).into();
    assert_eq!(ulid.increment().to_string(), "01ETGRM6448X1HM0PYWG2KT649");
}

#[test]
fn increment_carries_into_upper_word() {
    let ulid: ULID = (105449255778666307, u64::MAX).into();
    assert_eq!(ulid.to_string(), "01ETGRM6448X1ZZZZZZZZZZZZZ");
    let next = ulid.increment();
    assert_eq!(next.most_significant_bits(), 105449255778666308);
    assert_eq!(next.least_significant_bits(), 0);
    assert_eq!(next.to_string(), "01ETGRM6448X20000000000000");
}

#[test]
fn increment_wraps_randomness_and_keeps_timestamp() {
    let ulid: ULID = (105449255778713599, u64::MAX).into();
    assert_eq!(ulid.to_string(), "01ETGRM644ZZZZZZZZZZZZZZZZ");
    let next = ulid.increment();
    assert_eq!(next.to_string(), "01ETGRM6440000000000000000");
    assert_eq!(next.to_epoch_milli_as_long(), ulid.to_epoch_milli_as_long());
}

#[test]
fn byte_forms_of_sample() {
    let ulid = ULID::new(SAMPLE);
    let be = vec![1, 118, 161, 138, 24, 132, 71, 67, 26, 2, 222, 228, 5, 61, 24, 136];
    let le = vec![136, 24, 61, 5, 228, 222, 2, 26, 67, 71, 132, 24, 138, 161, 118, 1];
    assert_eq!(ulid.to_byte_array(Endian::BE), be);
    assert_eq!(ulid.to_byte_array(Endian::LE), le);
    assert_eq!(ULID::parse_from_byte_array(be, Endian::BE), Ok(ulid));
    assert_eq!(ULID::parse_from_byte_array(le, Endian::LE), Ok(ulid));
}

#[test]
fn bytes_round_trip() {
    let b: Vec<u8> = (0u8..16).map(|i| i.wrapping_mul(37).wrapping_add(5)).collect();
    for endian in [Endian::BE, Endian::LE] {
        let ulid = ULID::parse_from_byte_array(b.clone(), endian).unwrap();
        assert_eq!(ulid.to_byte_array(endian), b);
    }
}

#[test]
fn wrong_byte_length_is_rejected() {
    assert_eq!(
        ULID::parse_from_byte_array(vec![0; 15], Endian::BE),
        Err(ULIDError::InvalidByteArrayError)
    );
    assert_eq!(
        ULID::parse_from_byte_array(vec![0; 17], Endian::LE),
        Err(ULIDError::InvalidByteArrayError)
    );
    let r: Result<ULID, ULIDError> = ULID::try_from(Vec::new());
    assert_eq!(r, Err(ULIDError::InvalidByteArrayError));
}

#[test]
fn uuid_keeps_the_bits() {
    let uuid: Uuid = ULID::new(SAMPLE).into();
    assert_eq!(uuid.as_u128(), SAMPLE);
    assert_eq!(ULID::from(Uuid::from_u128(SAMPLE)), ULID::new(SAMPLE));
}
