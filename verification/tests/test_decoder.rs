//! Protocol conformance and decoder tests.

use feed_handler::{
    encode_add_order, encode_delete_order, encode_modify_order, encode_snapshot, encode_trade,
    AddOrder, DecodeError, Decoder, DeleteOrder, MessageHeader, MessageRef, MessageType,
    ModifyOrder, SnapshotHeader, SnapshotLevel, Trade,
};

fn put_u16(msg: &mut [u8], off: usize, v: u16) {
    msg[off] = v as u8;
    msg[off + 1] = (v >> 8) as u8;
}

fn put_u32(msg: &mut [u8], off: usize, v: u32) {
    for k in 0..4 {
        msg[off + k] = (v >> (8 * k)) as u8;
    }
}

fn put_u64(msg: &mut [u8], off: usize, v: u64) {
    for k in 0..8 {
        msg[off + k] = (v >> (8 * k)) as u8;
    }
}

fn create_message(msg_type: MessageType, seq: u32, payload_size: usize) -> Vec<u8> {
    let total_size = 8 + payload_size; // 8 byte header
    let mut msg = vec![0u8; total_size];
    msg[0] = msg_type.to_u8();
    put_u16(&mut msg, 1, total_size as u16);
    put_u32(&mut msg, 3, seq);
    msg
}

#[test]
fn test_decode_add_order() {
    let msg = create_message(MessageType::AddOrder, 42, 38);
    let (decoded, consumed) = Decoder::decode(&msg).unwrap();

    assert_eq!(consumed, 46);
    assert_eq!(decoded.sequence(), 42);
    assert_eq!(decoded.message_type(), MessageType::AddOrder);
}

#[test]
fn test_decode_modify_order() {
    let msg = create_message(MessageType::ModifyOrder, 10, 18);
    let (decoded, consumed) = Decoder::decode(&msg).unwrap();

    assert_eq!(consumed, 26);
    assert_eq!(decoded.sequence(), 10);
    assert_eq!(decoded.message_type(), MessageType::ModifyOrder);
}

#[test]
fn test_decode_delete_order() {
    let msg = create_message(MessageType::DeleteOrder, 20, 8);
    let (decoded, consumed) = Decoder::decode(&msg).unwrap();

    assert_eq!(consumed, 16);
    assert_eq!(decoded.sequence(), 20);
    assert_eq!(decoded.message_type(), MessageType::DeleteOrder);
}

#[test]
fn test_decode_trade() {
    let msg = create_message(MessageType::Trade, 30, 30);
    let (decoded, consumed) = Decoder::decode(&msg).unwrap();

    assert_eq!(consumed, 38);
    assert_eq!(decoded.sequence(), 30);
    assert_eq!(decoded.message_type(), MessageType::Trade);
}

#[test]
fn test_buffer_too_small_header() {
    let small = vec![0u8; 4];
    let result = Decoder::decode(&small);
    assert!(matches!(result, Err(DecodeError::BufferTooSmall { .. })));
}

#[test]
fn test_buffer_too_small_payload() {
    let mut msg = vec![0u8; 8];
    msg[0] = MessageType::AddOrder.to_u8();
    put_u16(&mut msg, 1, 50); // claims 50 bytes
    let result = Decoder::decode(&msg);
    assert!(matches!(result, Err(DecodeError::TruncatedMessage { .. })));
}

#[test]
fn test_invalid_message_type() {
    let mut msg = vec![0u8; 46];
    msg[0] = 99; // invalid type
    put_u16(&mut msg, 1, 46);
    let result = Decoder::decode(&msg);
    assert!(matches!(result, Err(DecodeError::InvalidMessageType(99))));
}

#[test]
fn test_zero_length() {
    let mut msg = vec![0u8; 8];
    msg[0] = MessageType::AddOrder.to_u8();
    put_u16(&mut msg, 1, 4); // less than header size
    let result = Decoder::decode(&msg);
    assert!(result.is_err());
}

#[test]
fn test_decode_snapshot_empty() {
    let mut msg = vec![0u8; 16]; // header + 4 + 4 for num_bids/asks
    msg[0] = MessageType::Snapshot.to_u8();
    put_u16(&mut msg, 1, 16);
    put_u32(&mut msg, 3, 100);
    put_u32(&mut msg, 8, 0); // num_bids
    put_u32(&mut msg, 12, 0); // num_asks

    let (decoded, consumed) = Decoder::decode(&msg).unwrap();
    assert_eq!(consumed, 16);
    assert_eq!(decoded.sequence(), 100);
    assert_eq!(decoded.message_type(), MessageType::Snapshot);
}

#[test]
fn test_decode_snapshot_with_levels() {
    // Header (8) + num_bids/asks (8) + 2 bid levels (32) + 2 ask levels (32) = 80 bytes
    let num_bids = 2u32;
    let num_asks = 2u32;
    let total_size = 8 + 8 + (num_bids + num_asks) as usize * 16;

    let mut msg = vec![0u8; total_size];
    msg[0] = MessageType::Snapshot.to_u8();
    put_u16(&mut msg, 1, total_size as u16);
    put_u32(&mut msg, 3, 200);
    put_u32(&mut msg, 8, num_bids);
    put_u32(&mut msg, 12, num_asks);

    // Add bid levels
    for i in 0..num_bids as usize {
        let offset = 16 + i * 16;
        put_u64(&mut msg, offset, 1000000000 - (i as u64) * 100000000); // prices
        put_u32(&mut msg, offset + 8, 100 + i as u32); // quantities
    }

    // Add ask levels
    for i in 0..num_asks as usize {
        let offset = 16 + (num_bids as usize) * 16 + i * 16;
        put_u64(&mut msg, offset, 1000000000 + (i as u64) * 100000000); // prices
        put_u32(&mut msg, offset + 8, 100 + i as u32); // quantities
    }

    let (decoded, consumed) = Decoder::decode(&msg).unwrap();
    assert_eq!(consumed, total_size);
    assert_eq!(decoded.sequence(), 200);
    assert_eq!(decoded.message_type(), MessageType::Snapshot);

    if let feed_handler::MessageRef::Snapshot(snap) = decoded {
        assert_eq!(snap.bid_levels.len(), 2);
        assert_eq!(snap.ask_levels.len(), 2);
    } else {
        panic!("Expected snapshot");
    }
}

#[test]
fn test_decode_snapshot_truncated() {
    let mut msg = vec![0u8; 16];
    msg[0] = MessageType::Snapshot.to_u8();
    put_u16(&mut msg, 1, 80); // claims 80 bytes
    put_u32(&mut msg, 8, 2); // num_bids
    put_u32(&mut msg, 12, 2); // num_asks
    // but only have 16 bytes total

    let result = Decoder::decode(&msg);
    assert!(matches!(result, Err(DecodeError::TruncatedMessage { .. })));
}

#[test]
fn test_snapshot_slack_rejected() {
    // A snapshot must declare exactly the size its level counts compute
    // to; trailing slack inside the declared length is rejected.
    let mut msg = vec![0u8; 32];
    msg[0] = MessageType::Snapshot.to_u8();
    put_u16(&mut msg, 1, 32); // 16 bytes of slack beyond the empty body
    put_u32(&mut msg, 8, 0); // num_bids
    put_u32(&mut msg, 12, 0); // num_asks
    assert_eq!(
        Decoder::decode(&msg),
        Err(DecodeError::TruncatedMessage { declared: 32, actual: 32 })
    );
}

#[test]
fn test_decode_stream() {
    let msg1 = create_message(MessageType::AddOrder, 1, 38);
    let msg2 = create_message(MessageType::ModifyOrder, 2, 18);

    let mut buffer = msg1.clone();
    buffer.extend_from_slice(&msg2);

    let result = Decoder::decode_stream(&buffer, usize::MAX);

    assert!(result.is_ok());
    let msgs = result.unwrap();
    assert_eq!(msgs.len(), 2);
    assert_eq!(msgs.last().unwrap().sequence(), 2);
}

#[test]
fn test_decode_stream_stops_on_callback_false() {
    let msg1 = create_message(MessageType::AddOrder, 1, 38);
    let msg2 = create_message(MessageType::ModifyOrder, 2, 18);
    let msg3 = create_message(MessageType::DeleteOrder, 3, 8);

    let mut buffer = msg1.clone();
    buffer.extend_from_slice(&msg2);
    buffer.extend_from_slice(&msg3);

    // Stop after two messages even though a third follows.
    let result = Decoder::decode_stream(&buffer, 2);

    assert!(result.is_ok());
    assert_eq!(result.unwrap().len(), 2);
}

#[test]
fn test_decode_stream_propagates_errors() {
    let msg1 = create_message(MessageType::AddOrder, 1, 38);
    let mut buffer = msg1.clone();
    let mut bad = vec![0u8; 12];
    bad[0] = 99; // invalid type
    put_u16(&mut bad, 1, 12);
    buffer.extend_from_slice(&bad);

    let result = Decoder::decode_stream(&buffer, usize::MAX);
    assert!(matches!(result, Err(DecodeError::InvalidMessageType(99))));
}

#[test]
fn test_decode_stream_tolerates_short_tail() {
    let msg1 = create_message(MessageType::AddOrder, 1, 38);
    let mut buffer = msg1.clone();
    buffer.extend_from_slice(&[0u8; 3]); // tail smaller than a header

    let result = Decoder::decode_stream(&buffer, usize::MAX);
    assert!(result.is_ok());
    assert_eq!(result.unwrap().len(), 1);
}

#[test]
fn test_message_type_boundary() {
    // Every known tag decodes. Tags 1..=4 fit inside one 46-byte frame;
    // a snapshot (tag 5) must declare exactly its computed size, so it
    // gets a frame of its own.
    for msg_type in 1..=4 {
        let mut msg = create_message(MessageType::AddOrder, 0, 38);
        msg[0] = msg_type;
        let result = Decoder::decode(&msg);
        assert!(result.is_ok(), "Message type {} should be valid", msg_type);
    }
    let snap = create_message(MessageType::Snapshot, 0, 8);
    let result = Decoder::decode(&snap);
    assert!(result.is_ok(), "Message type {} should be valid", 5);
}

#[test]
fn test_alignment_boundaries() {
    // Test with various payload sizes to ensure short buffers are rejected
    // and everything from the full message size up decodes.
    for size in 0..100 {
        let msg = create_message(MessageType::AddOrder, 0, size);
        if msg.len() >= 46 {
            // Only test valid sizes
            let result = Decoder::decode(&msg);
            match result {
                Ok((decoded, _)) => {
                    assert_eq!(decoded.message_type(), MessageType::AddOrder);
                }
                Err(e) => {
                    // Expected for too-small messages
                    assert!(matches!(e, DecodeError::BufferTooSmall { .. }));
                }
            }
        }
    }
}

#[test]
fn test_error_fields_exact() {
    let small = vec![0u8; 4];
    assert_eq!(
        Decoder::decode(&small),
        Err(DecodeError::BufferTooSmall { need: 8, have: 4 })
    );

    let mut msg = vec![0u8; 8];
    msg[0] = MessageType::AddOrder.to_u8();
    put_u16(&mut msg, 1, 50); // claims 50 bytes in an 8-byte buffer
    assert_eq!(
        Decoder::decode(&msg),
        Err(DecodeError::TruncatedMessage { declared: 50, actual: 8 })
    );

    let mut short = vec![0u8; 20];
    short[0] = MessageType::AddOrder.to_u8();
    put_u16(&mut short, 1, 20); // consistent but below the 46-byte minimum
    assert_eq!(
        Decoder::decode(&short),
        Err(DecodeError::BufferTooSmall { need: 46, have: 20 })
    );
}

#[test]
fn test_decode_idempotent() {
    let mut msg = create_message(MessageType::AddOrder, 11, 38);
    put_u64(&mut msg, 8, 77);
    put_u64(&mut msg, 16, 123_45000000);
    put_u32(&mut msg, 24, 9);
    msg[28] = 1;

    let first = Decoder::decode(&msg).unwrap();
    let second = Decoder::decode(&msg).unwrap();
    assert_eq!(first, second);
}

#[test]
fn test_decode_reads_fields() {
    let mut msg = create_message(MessageType::AddOrder, 11, 38);
    put_u64(&mut msg, 8, 77);
    put_u64(&mut msg, 16, 123_45000000);
    put_u32(&mut msg, 24, 9);
    msg[28] = 1;

    let (decoded, _) = Decoder::decode(&msg).unwrap();
    if let MessageRef::AddOrder(m) = decoded {
        assert_eq!(m.order_id, 77);
        assert_eq!(m.price, 123_45000000);
        assert_eq!(m.quantity, 9);
        assert_eq!(m.side, 1);
        assert_eq!(m.header.sequence, 11);
        assert_eq!(m.header.length, 46);
    } else {
        panic!("Expected add order");
    }
}

#[test]
fn test_encode_add_order_round_trip() {
    let m = AddOrder {
        header: MessageHeader { msg_type: 1, length: 46, sequence: 7 },
        order_id: 42,
        price: 100_00000000,
        quantity: 250,
        side: 0,
    };
    let bytes = encode_add_order(&m);
    assert_eq!(bytes.len(), 46);
    let (decoded, consumed) = Decoder::decode(&bytes).unwrap();
    assert_eq!(consumed, 46);
    assert_eq!(decoded, MessageRef::AddOrder(m));
}

#[test]
fn test_encode_modify_order_round_trip() {
    let m = ModifyOrder {
        header: MessageHeader { msg_type: 2, length: 26, sequence: 8 },
        order_id: 42,
        new_quantity: 50,
    };
    let bytes = encode_modify_order(&m);
    assert_eq!(bytes.len(), 26);
    let (decoded, consumed) = Decoder::decode(&bytes).unwrap();
    assert_eq!(consumed, 26);
    assert_eq!(decoded, MessageRef::ModifyOrder(m));
}

#[test]
fn test_encode_delete_order_round_trip() {
    let m = DeleteOrder {
        header: MessageHeader { msg_type: 3, length: 16, sequence: 9 },
        order_id: 42,
    };
    let bytes = encode_delete_order(&m);
    assert_eq!(bytes.len(), 16);
    let (decoded, consumed) = Decoder::decode(&bytes).unwrap();
    assert_eq!(consumed, 16);
    assert_eq!(decoded, MessageRef::DeleteOrder(m));
}

#[test]
fn test_encode_trade_round_trip() {
    let m = Trade {
        header: MessageHeader { msg_type: 4, length: 38, sequence: 10 },
        buyer_order_id: 1,
        seller_order_id: 2,
        price: 99_50000000,
        quantity: 33,
    };
    let bytes = encode_trade(&m);
    assert_eq!(bytes.len(), 38);
    let (decoded, consumed) = Decoder::decode(&bytes).unwrap();
    assert_eq!(consumed, 38);
    assert_eq!(decoded, MessageRef::Trade(m));
}

#[test]
fn test_encode_snapshot_round_trip() {
    let bids = vec![
        SnapshotLevel { price: 100_00000000, quantity: 10 },
        SnapshotLevel { price: 99_00000000, quantity: 20 },
    ];
    let asks = vec![SnapshotLevel { price: 101_00000000, quantity: 30 }];
    let h = SnapshotHeader {
        header: MessageHeader { msg_type: 5, length: 16 + 16 * 3, sequence: 12 },
        num_bids: 2,
        num_asks: 1,
    };
    let bytes = encode_snapshot(&h, &bids, &asks);
    assert_eq!(bytes.len(), 64);
    let (decoded, consumed) = Decoder::decode(&bytes).unwrap();
    assert_eq!(consumed, 64);
    if let MessageRef::Snapshot(snap) = decoded {
        assert_eq!(snap.header, h);
        assert_eq!(snap.bid_levels, bids);
        assert_eq!(snap.ask_levels, asks);
    } else {
        panic!("Expected snapshot");
    }
}

#[test]
fn decoder_test_decode_add_order() {
    let mut msg = vec![0u8; 46];
    msg[0] = MessageType::AddOrder.to_u8();
    put_u16(&mut msg, 1, 46);
    put_u32(&mut msg, 3, 42);
    let (decoded, consumed) = Decoder::decode(&msg).unwrap();
    assert_eq!(consumed, 46);
    assert_eq!(decoded.sequence(), 42);
    assert_eq!(decoded.message_type(), MessageType::AddOrder);
}

#[test]
fn test_buffer_too_small() {
    let small_buf = vec![0u8; 4];
    let result = Decoder::decode(&small_buf);
    assert!(matches!(result, Err(DecodeError::BufferTooSmall { .. })));
}

#[test]
fn decoder_test_invalid_message_type() {
    let mut msg = vec![0u8; 8];
    msg[0] = 99; // invalid type
    put_u16(&mut msg, 1, 8);
    let result = Decoder::decode(&msg);
    assert!(matches!(result, Err(DecodeError::InvalidMessageType(99))));
}

#[test]
fn test_truncated_message() {
    let mut msg = vec![0u8; 8];
    msg[0] = MessageType::AddOrder.to_u8();
    put_u16(&mut msg, 1, 100); // claims 100 bytes
    let result = Decoder::decode(&msg);
    assert!(matches!(result, Err(DecodeError::TruncatedMessage { .. })));
}
