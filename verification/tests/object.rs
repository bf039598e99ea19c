use syx::errors::LoadError;
use syx::object::SyxType;

#[test]
fn tags_of_the_types() {
    assert_eq!(SyxType::try_from(0u8), Ok(SyxType::TNIL));
    assert_eq!(SyxType::try_from(1u8), Ok(SyxType::TBOOLEAN));
    assert_eq!(SyxType::try_from(2u8), Ok(SyxType::TLIGHTUSERDATA));
    assert_eq!(SyxType::try_from(3u8), Ok(SyxType::TNUMFLT));
    assert_eq!(SyxType::try_from(4u8), Ok(SyxType::TSHRSTR));
    assert_eq!(SyxType::try_from(5u8), Ok(SyxType::TTABLE));
    assert_eq!(SyxType::try_from(6u8), Ok(SyxType::TFUNCTION));
    assert_eq!(SyxType::try_from(7u8), Ok(SyxType::TUSERDATA));
    assert_eq!(SyxType::try_from(8u8), Ok(SyxType::TTHREAD));
    assert_eq!(SyxType::try_from(19u8), Ok(SyxType::TNUMINT));
    assert_eq!(SyxType::try_from(20u8), Ok(SyxType::TLNGSTR));
}

#[test]
fn bytes_that_name_no_type() {
    for byte in 0u8..=255 {
        if byte <= 8 || byte == 19 || byte == 20 {
            assert!(SyxType::try_from(byte).is_ok());
        } else {
            assert_eq!(SyxType::try_from(byte), Err(LoadError::InvalidType(byte)));
        }
    }
}
