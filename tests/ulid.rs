use std::convert::TryInto;

use chrono::Local;
use ulid_generator_rs::{Endian, ULIDError, ULIDGenerator, ULID};
use uuid::Uuid;

#[test]
fn generate() -> Result<(), ULIDError> {
    let now = Local::now().timestamp_millis();
    let ulid = ULIDGenerator::new().generate()?;
    assert!(now <= ulid.to_epoch_milli_as_long());
    Ok(())
}

#[test]
fn new() {
    let ulid: ULID = (105449255778666307, 1874305465861347464).into();
    assert_eq!(ulid.to_string(), "01ETGRM6448X1HM0PYWG2KT648");
    let ulid: ULID = (105449255778666307, 1874305465861347465).into();
    assert_eq!(ulid.to_string(), "01ETGRM6448X1HM0PYWG2KT649");
    let ulid: ULID = (105449255778666307, 1874305465861347465).into();
    assert_eq!(ulid.to_string(), "01ETGRM6448X1HM0PYWG2KT649");
}

#[test]
fn significant_bits() {
    let ulid: ULID = (105449255778666307, 1874305465861347464).into();
    assert_eq!(ulid.most_significant_bits(), 105449255778666307);
    assert_eq!(ulid.least_significant_bits(), 1874305465861347464);
    println!("ulid = {}", ulid.to_string());
}

#[test]
fn bytes() -> Result<(), ULIDError> {
    let ulid_expected: ULID = ULIDGenerator::new().generate()?;
    let bytes: Vec<u8> = ulid_expected.to_byte_array(Endian::BE);
    let _ulid: ULID = ULID::parse_from_byte_array(bytes.clone(), Endian::BE)?;
    let ulid: ULID = bytes.try_into()?;
    println!("ulid = {}", ulid.to_string());
    assert_eq!(ulid, ulid_expected);
    Ok(())
}

#[test]
fn parse_string() -> Result<(), ULIDError> {
    let s = "01ETGRM6448X1HM0PYWG2KT648";
    let ulid = s.parse::<ULID>()?;
    assert_eq!(ulid.to_string(), s);
    Ok(())
}

#[test]
fn generate_monotonic() -> Result<(), ULIDError> {
    let mut generator = ULIDGenerator::new();
    let previous_id = generator.generate()?;
    let ulid = generator.generate_monotonic(&previous_id)?;
    assert!(previous_id < ulid);
    Ok(())
}

#[test]
fn generate_strictly_monotonic() -> Result<(), ULIDError> {
    let mut generator = ULIDGenerator::new();
    let previous_id = generator.generate()?;
    let ulid = generator.generate_strictly_monotonic(&previous_id)?;
    assert!(previous_id < ulid.unwrap());
    Ok(())
}

#[test]
fn uuid() {
    let uuid_expected: Uuid = Uuid::new_v4();
    let ulid: ULID = uuid_expected.into();
    let uuid: Uuid = ulid.into();
    assert_eq!(uuid, uuid_expected);
}
