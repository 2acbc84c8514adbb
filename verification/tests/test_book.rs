//! Order book correctness tests.

use feed_handler::{BookError, Decoder, MessageRef, OrderBook};

fn put_u16(msg: &mut [u8], off: usize, v: u16) {
    msg[off] = v as u8;
    msg[off + 1] = (v >> 8) as u8;
}

fn put_u32(msg: &mut [u8], off: usize, v: u32) {
    for k in 0..4 {
        msg[off + k] = (v >> (8 * k)) as u8;
    }
}

fn put_u64(msg: &mut [u8], off: usize, v: u64) {
    for k in 0..8 {
        msg[off + k] = (v >> (8 * k)) as u8;
    }
}

fn create_add_order_msg(order_id: u64, price: u64, qty: u32, side: u8, seq: u32) -> Vec<u8> {
    let mut msg = vec![0u8; 46];
    msg[0] = 1; // AddOrder type
    put_u16(&mut msg, 1, 46);
    put_u32(&mut msg, 3, seq);
    put_u64(&mut msg, 8, order_id);
    put_u64(&mut msg, 16, price);
    put_u32(&mut msg, 24, qty);
    msg[28] = side;
    msg
}

fn create_modify_msg(order_id: u64, new_qty: u32, seq: u32) -> Vec<u8> {
    let mut msg = vec![0u8; 26];
    msg[0] = 2;
    put_u16(&mut msg, 1, 26);
    put_u32(&mut msg, 3, seq);
    put_u64(&mut msg, 8, order_id);
    put_u32(&mut msg, 16, new_qty);
    msg
}

fn create_delete_msg(order_id: u64, seq: u32) -> Vec<u8> {
    let mut msg = vec![0u8; 16];
    msg[0] = 3;
    put_u16(&mut msg, 1, 16);
    put_u32(&mut msg, 3, seq);
    put_u64(&mut msg, 8, order_id);
    msg
}

fn create_trade_msg(buyer: u64, seller: u64, price: u64, qty: u32, seq: u32) -> Vec<u8> {
    let mut msg = vec![0u8; 38];
    msg[0] = 4;
    put_u16(&mut msg, 1, 38);
    put_u32(&mut msg, 3, seq);
    put_u64(&mut msg, 8, buyer);
    put_u64(&mut msg, 16, seller);
    put_u64(&mut msg, 24, price);
    put_u32(&mut msg, 32, qty);
    msg
}

fn create_snapshot_msg(seq: u32, bids: &[(u64, u32)], asks: &[(u64, u32)]) -> Vec<u8> {
    let total = 16 + 16 * (bids.len() + asks.len());
    let mut msg = vec![0u8; total];
    msg[0] = 5;
    put_u16(&mut msg, 1, total as u16);
    put_u32(&mut msg, 3, seq);
    put_u32(&mut msg, 8, bids.len() as u32);
    put_u32(&mut msg, 12, asks.len() as u32);
    for (i, &(p, q)) in bids.iter().chain(asks.iter()).enumerate() {
        let off = 16 + 16 * i;
        put_u64(&mut msg, off, p);
        put_u32(&mut msg, off + 8, q);
    }
    msg
}

fn decode_one(bytes: &[u8]) -> MessageRef {
    let (msg, _) = Decoder::decode(bytes).unwrap();
    msg
}

#[test]
fn test_empty_book() {
    let book = OrderBook::new();
    assert_eq!(book.best_bid(), None);
    assert_eq!(book.best_ask(), None);
    assert_eq!(book.spread(), None);
    assert_eq!(book.order_count(), 0);
}

#[test]
fn test_add_single_bid() {
    let mut book = OrderBook::new();
    let price = 100_00000000u64; // 100.00
    let qty = 100u32;

    let msg_bytes = create_add_order_msg(1, price, qty, 0, 1);
    let (msg, _) = Decoder::decode(&msg_bytes).unwrap();
    book.apply_message(&msg).unwrap();

    assert_eq!(book.best_bid(), Some((price, qty)));
    assert_eq!(book.best_ask(), None);
    assert_eq!(book.order_count(), 1);
}

#[test]
fn test_add_bid_and_ask() {
    let mut book = OrderBook::new();
    let bid_price = 100_00000000u64;
    let ask_price = 101_00000000u64;
    let qty = 100u32;

    let bid_msg_bytes = create_add_order_msg(1, bid_price, qty, 0, 1);
    let (bid_msg, _) = Decoder::decode(&bid_msg_bytes).unwrap();
    book.apply_message(&bid_msg).unwrap();

    let ask_msg_bytes = create_add_order_msg(2, ask_price, qty, 1, 2);
    let (ask_msg, _) = Decoder::decode(&ask_msg_bytes).unwrap();
    book.apply_message(&ask_msg).unwrap();

    assert_eq!(book.best_bid(), Some((bid_price, qty)));
    assert_eq!(book.best_ask(), Some((ask_price, qty)));
    assert_eq!(book.spread(), Some(ask_price - bid_price));
    assert_eq!(book.order_count(), 2);
}

#[test]
fn test_multiple_bid_levels() {
    let mut book = OrderBook::new();

    for i in 0..5 {
        let price = 100_00000000u64 - (i as u64 * 10_00000000); // 100, 90, 80, 70, 60
        let qty = 100 + i as u32;
        let msg_bytes = create_add_order_msg(i as u64, price, qty, 0, (i + 1) as u32);
        let (msg, _) = Decoder::decode(&msg_bytes).unwrap();
        book.apply_message(&msg).unwrap();
    }

    let best = book.best_bid();
    assert!(best.is_some());
    assert_eq!(best.unwrap().0, 100_00000000u64); // Best bid is highest
}

#[test]
fn test_multiple_ask_levels() {
    let mut book = OrderBook::new();

    for i in 0..5 {
        let price = 100_00000000u64 + (i as u64 * 10_00000000); // 100, 110, 120, ...
        let qty = 100 + i as u32;
        let msg_bytes = create_add_order_msg(i as u64 + 100, price, qty, 1, (i + 1) as u32);
        let (msg, _) = Decoder::decode(&msg_bytes).unwrap();
        book.apply_message(&msg).unwrap();
    }

    let best = book.best_ask();
    assert!(best.is_some());
    assert_eq!(best.unwrap().0, 100_00000000u64); // Best ask is lowest
}

#[test]
fn test_spread() {
    let mut book = OrderBook::new();
    let bid = 100_00000000u64;
    let ask = 101_50000000u64;

    let bid_msg_bytes = create_add_order_msg(1, bid, 100, 0, 1);
    let (bid_msg, _) = Decoder::decode(&bid_msg_bytes).unwrap();
    book.apply_message(&bid_msg).unwrap();

    let ask_msg_bytes = create_add_order_msg(2, ask, 100, 1, 2);
    let (ask_msg, _) = Decoder::decode(&ask_msg_bytes).unwrap();
    book.apply_message(&ask_msg).unwrap();

    let spread = book.spread().unwrap();
    assert_eq!(spread, ask - bid);
}

#[test]
fn test_depth() {
    let mut book = OrderBook::new();

    // Add 10 bid levels
    for i in 0..10 {
        let price = 100_00000000u64 - (i as u64 * 1_00000000);
        let msg_bytes =
            create_add_order_msg(i as u64 + 1000, price, 100 + i as u32, 0, (i + 1) as u32);
        let (msg, _) = Decoder::decode(&msg_bytes).unwrap();
        book.apply_message(&msg).unwrap();
    }

    // Add 10 ask levels
    for i in 0..10 {
        let price = 100_00000000u64 + (i as u64 * 1_00000000);
        let msg_bytes =
            create_add_order_msg(i as u64 + 2000, price, 100 + i as u32, 1, (i + 11) as u32);
        let (msg, _) = Decoder::decode(&msg_bytes).unwrap();
        book.apply_message(&msg).unwrap();
    }

    let depth = book.depth(5);
    assert_eq!(depth.bids.len(), 5);
    assert_eq!(depth.asks.len(), 5);

    // Check bid levels are in descending order
    for i in 1..depth.bids.len() {
        assert!(depth.bids[i - 1].0 > depth.bids[i].0);
    }

    // Check ask levels are in ascending order
    for i in 1..depth.asks.len() {
        assert!(depth.asks[i - 1].0 < depth.asks[i].0);
    }
}

#[test]
fn test_depth_request_more_than_available() {
    let mut book = OrderBook::new();

    // Add only 3 bid levels
    for i in 0..3 {
        let price = 100_00000000u64 - (i as u64 * 1_00000000);
        let msg_bytes = create_add_order_msg(i as u64, price, 100, 0, (i + 1) as u32);
        let (msg, _) = Decoder::decode(&msg_bytes).unwrap();
        book.apply_message(&msg).unwrap();
    }

    // Request 10 levels but only have 3
    let depth = book.depth(10);
    assert_eq!(depth.bids.len(), 3);
    assert_eq!(depth.asks.len(), 0);
}

#[test]
fn test_bid_levels_count() {
    let mut book = OrderBook::new();

    for i in 0..5 {
        let price = 100_00000000u64 - (i as u64 * 1_00000000);
        let msg_bytes = create_add_order_msg(i as u64, price, 100, 0, (i + 1) as u32);
        let (msg, _) = Decoder::decode(&msg_bytes).unwrap();
        book.apply_message(&msg).unwrap();
    }

    assert_eq!(book.bid_levels(), 5);
}

#[test]
fn test_ask_levels_count() {
    let mut book = OrderBook::new();

    for i in 0..7 {
        let price = 100_00000000u64 + (i as u64 * 1_00000000);
        let msg_bytes = create_add_order_msg(i as u64, price, 100, 1, (i + 1) as u32);
        let (msg, _) = Decoder::decode(&msg_bytes).unwrap();
        book.apply_message(&msg).unwrap();
    }

    assert_eq!(book.ask_levels(), 7);
}

#[test]
fn test_same_price_multiple_orders() {
    let mut book = OrderBook::new();
    let price = 100_00000000u64;

    // Add multiple orders at same price
    for i in 0..5 {
        let msg_bytes = create_add_order_msg(i as u64, price, 100, 0, (i + 1) as u32);
        let (msg, _) = Decoder::decode(&msg_bytes).unwrap();
        book.apply_message(&msg).unwrap();
    }

    assert_eq!(book.best_bid(), Some((price, 500)));
    assert_eq!(book.bid_levels(), 1);
    assert_eq!(book.order_count(), 5);
}

#[test]
fn test_inverted_spread() {
    let mut book = OrderBook::new();

    // Inverted spread (ask < bid) - market crossed
    let bid = 101_00000000u64;
    let ask = 100_00000000u64;

    let bid_msg_bytes = create_add_order_msg(1, bid, 100, 0, 1);
    let (bid_msg, _) = Decoder::decode(&bid_msg_bytes).unwrap();
    book.apply_message(&bid_msg).unwrap();

    let ask_msg_bytes = create_add_order_msg(2, ask, 100, 1, 2);
    let (ask_msg, _) = Decoder::decode(&ask_msg_bytes).unwrap();
    book.apply_message(&ask_msg).unwrap();

    // When crossed, spread should be None
    assert_eq!(book.spread(), None);
}

#[test]
fn book_builder_test_empty_book() {
    let book = OrderBook::new();
    assert_eq!(book.best_bid(), None);
    assert_eq!(book.best_ask(), None);
    assert_eq!(book.spread(), None);
}

#[test]
fn book_builder_test_depth() {
    let book = OrderBook::new();
    let depth = book.depth(5);
    assert_eq!(depth.bids.len(), 0);
    assert_eq!(depth.asks.len(), 0);
}

#[test]
fn test_invalid_side_rejected() {
    let mut book = OrderBook::new();
    let msg_bytes = create_add_order_msg(1, 100_00000000, 100, 2, 1);
    let msg = decode_one(&msg_bytes);
    assert_eq!(book.apply_message(&msg), Err(BookError::InvalidSide));
    assert_eq!(book.order_count(), 0);
}

#[test]
fn test_duplicate_order_rejected() {
    let mut book = OrderBook::new();
    let msg = decode_one(&create_add_order_msg(7, 100_00000000, 100, 0, 1));
    book.apply_message(&msg).unwrap();
    let dup = decode_one(&create_add_order_msg(7, 101_00000000, 50, 0, 2));
    assert_eq!(book.apply_message(&dup), Err(BookError::DuplicateOrder));
    assert_eq!(book.order_count(), 1);
    assert_eq!(book.best_bid(), Some((100_00000000, 100)));
}

#[test]
fn test_duplicate_checked_before_side() {
    // A reused id with an invalid side byte fails on the duplicate id:
    // the id is checked before the side byte is parsed.
    let mut book = OrderBook::new();
    book.apply_message(&decode_one(&create_add_order_msg(7, 100_00000000, 100, 0, 1)))
        .unwrap();
    let both_bad = decode_one(&create_add_order_msg(7, 100_00000000, 100, 2, 2));
    assert_eq!(book.apply_message(&both_bad), Err(BookError::DuplicateOrder));
    assert_eq!(book.order_count(), 1);
}

#[test]
fn test_modify_installs_level_for_zero_quantity_order() {
    // An order added with quantity 0 creates no level (levels are
    // strictly positive). Raising it by a modify installs the level:
    // level := (0 - 0) + 5.
    let mut book = OrderBook::new();
    let price = 100_00000000u64;
    book.apply_message(&decode_one(&create_add_order_msg(1, price, 0, 0, 1))).unwrap();
    assert_eq!(book.bid_levels(), 0);
    assert_eq!(book.order_count(), 1);

    book.apply_message(&decode_one(&create_modify_msg(1, 5, 2))).unwrap();
    assert_eq!(book.best_bid(), Some((price, 5)));
    assert_eq!(book.bid_levels(), 1);
    assert_eq!(book.order_count(), 1);
}

#[test]
fn test_modify_unknown_order_rejected() {
    let mut book = OrderBook::new();
    let msg = decode_one(&create_modify_msg(99, 50, 1));
    assert_eq!(book.apply_message(&msg), Err(BookError::UnknownOrder));
}

#[test]
fn test_delete_unknown_order_rejected() {
    let mut book = OrderBook::new();
    let msg = decode_one(&create_delete_msg(99, 1));
    assert_eq!(book.apply_message(&msg), Err(BookError::UnknownOrder));
}

#[test]
fn test_modify_changes_level() {
    let mut book = OrderBook::new();
    let price = 100_00000000u64;
    book.apply_message(&decode_one(&create_add_order_msg(1, price, 100, 0, 1))).unwrap();
    book.apply_message(&decode_one(&create_add_order_msg(2, price, 40, 0, 2))).unwrap();
    book.apply_message(&decode_one(&create_modify_msg(1, 30, 3))).unwrap();
    assert_eq!(book.best_bid(), Some((price, 70)));
    assert_eq!(book.order_count(), 2);
}

#[test]
fn test_modify_to_zero_removes_order() {
    let mut book = OrderBook::new();
    let price = 100_00000000u64;
    book.apply_message(&decode_one(&create_add_order_msg(1, price, 100, 0, 1))).unwrap();
    book.apply_message(&decode_one(&create_modify_msg(1, 0, 2))).unwrap();
    assert_eq!(book.order_count(), 0);
    assert_eq!(book.best_bid(), None);
    assert_eq!(book.bid_levels(), 0);
}

#[test]
fn test_delete_removes_level_on_zero() {
    let mut book = OrderBook::new();
    let price = 101_00000000u64;
    book.apply_message(&decode_one(&create_add_order_msg(1, price, 100, 1, 1))).unwrap();
    book.apply_message(&decode_one(&create_delete_msg(1, 2))).unwrap();
    assert_eq!(book.ask_levels(), 0);
    assert_eq!(book.order_count(), 0);
    assert_eq!(book.best_ask(), None);
}

#[test]
fn test_trade_reduces_both_orders() {
    let mut book = OrderBook::new();
    let bid = 100_00000000u64;
    let ask = 101_00000000u64;
    book.apply_message(&decode_one(&create_add_order_msg(1, bid, 100, 0, 1))).unwrap();
    book.apply_message(&decode_one(&create_add_order_msg(2, ask, 80, 1, 2))).unwrap();
    book.apply_message(&decode_one(&create_trade_msg(1, 2, bid, 30, 3))).unwrap();
    assert_eq!(book.best_bid(), Some((bid, 70)));
    assert_eq!(book.best_ask(), Some((ask, 50)));
    assert_eq!(book.order_count(), 2);
}

#[test]
fn test_trade_removes_exhausted_order() {
    let mut book = OrderBook::new();
    let bid = 100_00000000u64;
    book.apply_message(&decode_one(&create_add_order_msg(1, bid, 30, 0, 1))).unwrap();
    // Trade for more than the resting quantity removes the order entirely;
    // the unknown counterparty id is silently ignored.
    book.apply_message(&decode_one(&create_trade_msg(1, 999, bid, 50, 2))).unwrap();
    assert_eq!(book.order_count(), 0);
    assert_eq!(book.best_bid(), None);
    assert_eq!(book.bid_levels(), 0);
}

#[test]
fn test_snapshot_resets_book() {
    let mut book = OrderBook::new();
    book.apply_message(&decode_one(&create_add_order_msg(1, 99_00000000, 10, 0, 1))).unwrap();
    let snap = create_snapshot_msg(
        5,
        &[(100_00000000, 100), (99_00000000, 50)],
        &[(101_00000000, 70)],
    );
    book.apply_message(&decode_one(&snap)).unwrap();
    // The snapshot is authoritative: the live order table is empty and
    // the ladders hold exactly the snapshot's positive levels.
    assert_eq!(book.order_count(), 0);
    assert_eq!(book.bid_levels(), 2);
    assert_eq!(book.ask_levels(), 1);
    assert_eq!(book.best_bid(), Some((100_00000000, 100)));
    assert_eq!(book.best_ask(), Some((101_00000000, 70)));
}

#[test]
fn test_event_stream_keeps_levels_consistent() {
    // A mixed stream of events with fresh ids: after every event the
    // level aggregates equal the sums of the live orders' quantities.
    let mut book = OrderBook::new();
    let p1 = 100_00000000u64;
    let p2 = 99_00000000u64;

    book.apply_message(&decode_one(&create_add_order_msg(1, p1, 10, 0, 1))).unwrap();
    book.apply_message(&decode_one(&create_add_order_msg(2, p1, 20, 0, 2))).unwrap();
    book.apply_message(&decode_one(&create_add_order_msg(3, p2, 30, 0, 3))).unwrap();
    assert_eq!(book.best_bid(), Some((p1, 30)));
    assert_eq!(book.bid_levels(), 2);

    book.apply_message(&decode_one(&create_modify_msg(2, 5, 4))).unwrap();
    assert_eq!(book.best_bid(), Some((p1, 15)));

    book.apply_message(&decode_one(&create_delete_msg(1, 5))).unwrap();
    assert_eq!(book.best_bid(), Some((p1, 5)));
    assert_eq!(book.order_count(), 2);

    book.apply_message(&decode_one(&create_trade_msg(2, 999, p1, 5, 6))).unwrap();
    assert_eq!(book.best_bid(), Some((p2, 30)));
    assert_eq!(book.bid_levels(), 1);
    assert_eq!(book.order_count(), 1);
}

#[test]
fn test_snapshot_skips_zero_levels() {
    let mut book = OrderBook::new();
    let snap = create_snapshot_msg(5, &[(100_00000000, 0), (99_00000000, 50)], &[]);
    book.apply_message(&decode_one(&snap)).unwrap();
    assert_eq!(book.bid_levels(), 1);
    assert_eq!(book.best_bid(), Some((99_00000000, 50)));
}
