//! Protocol definition tests.

use feed_handler::MessageType;
use feed_handler::Side;

#[test]
fn test_message_type_conversion() {
    assert_eq!(MessageType::from_u8(1), Some(MessageType::AddOrder));
    assert_eq!(MessageType::from_u8(5), Some(MessageType::Snapshot));
    assert_eq!(MessageType::from_u8(99), None);
}

#[test]
fn test_message_type_tags() {
    for tag in 1u8..=5 {
        let mt = MessageType::from_u8(tag).unwrap();
        assert_eq!(mt.to_u8(), tag);
    }
}

#[test]
fn test_side_conversion() {
    assert_eq!(Side::from_u8(0), Some(Side::Bid));
    assert_eq!(Side::from_u8(1), Some(Side::Ask));
    assert_eq!(Side::from_u8(2), None);
}
