//! Message encoder.
//!
//! Each message kind has an encoder producing exactly the documented
//! byte layout, and a round-trip law: decoding an encoded message whose
//! header is wire-consistent (right type tag, right declared length)
//! yields the original field values.

use vstd::prelude::*;
use vstd::bytes::*;
use crate::decoder::{
    spec_decode, spec_header, spec_le16, spec_le32, spec_levels, MessageView,
    SnapshotView,
};
use crate::protocol::{
    AddOrder, DeleteOrder, MessageHeader, ModifyOrder, SnapshotHeader, SnapshotLevel, Trade,
};

verus! {

/// `n` zero bytes of padding.
pub open spec fn spec_zeros(n: int) -> Seq<u8> {
    Seq::new(n as nat, |i: int| 0u8)
}

/// Wire bytes of a message header: type tag, length, sequence number,
/// one zero padding byte.
pub open spec fn spec_encode_header(h: MessageHeader) -> Seq<u8> {
    seq![h.msg_type] + spec_u16_to_le_bytes(h.length) + spec_u32_to_le_bytes(h.sequence)
        + seq![0u8]
}

/// Wire bytes of an `AddOrder` message (46 bytes).
pub open spec fn spec_encode_add(m: AddOrder) -> Seq<u8> {
    spec_encode_header(m.header) + spec_u64_to_le_bytes(m.order_id) + spec_u64_to_le_bytes(
        m.price,
    ) + spec_u32_to_le_bytes(m.quantity) + seq![m.side] + spec_zeros(17)
}

/// Wire bytes of a `ModifyOrder` message (26 bytes).
pub open spec fn spec_encode_modify(m: ModifyOrder) -> Seq<u8> {
    spec_encode_header(m.header) + spec_u64_to_le_bytes(m.order_id) + spec_u32_to_le_bytes(
        m.new_quantity,
    ) + spec_zeros(6)
}

/// Wire bytes of a `DeleteOrder` message (16 bytes).
pub open spec fn spec_encode_delete(m: DeleteOrder) -> Seq<u8> {
    spec_encode_header(m.header) + spec_u64_to_le_bytes(m.order_id)
}

/// Wire bytes of a `Trade` message (38 bytes).
pub open spec fn spec_encode_trade(m: Trade) -> Seq<u8> {
    spec_encode_header(m.header) + spec_u64_to_le_bytes(m.buyer_order_id)
        + spec_u64_to_le_bytes(m.seller_order_id) + spec_u64_to_le_bytes(m.price)
        + spec_u32_to_le_bytes(m.quantity) + spec_zeros(2)
}

/// Append `x` little-endian.
fn push_u16(out: &mut Vec<u8>, x: u16)
    ensures
        final(out)@ == old(out)@ + spec_u16_to_le_bytes(x),
{
    proof {
        lemma_auto_spec_u16_to_from_le_bytes();
    }
    let mut b = u16_to_le_bytes(x);
    out.append(&mut b);
}

/// Append `x` little-endian.
fn push_u32(out: &mut Vec<u8>, x: u32)
    ensures
        final(out)@ == old(out)@ + spec_u32_to_le_bytes(x),
{
    proof {
        lemma_auto_spec_u32_to_from_le_bytes();
    }
    let mut b = u32_to_le_bytes(x);
    out.append(&mut b);
}

/// Append `x` little-endian.
fn push_u64(out: &mut Vec<u8>, x: u64)
    ensures
        final(out)@ == old(out)@ + spec_u64_to_le_bytes(x),
{
    proof {
        lemma_auto_spec_u64_to_from_le_bytes();
    }
    let mut b = u64_to_le_bytes(x);
    out.append(&mut b);
}

/// Append `n` zero padding bytes.
fn push_zeros(out: &mut Vec<u8>, n: usize)
    ensures
        final(out)@ == old(out)@ + spec_zeros(n as int),
{
    let mut i: usize = 0;
    while i < n
        invariant
            0 <= i <= n,
            out@ == old(out)@ + spec_zeros(i as int),
        decreases n - i,
    {
        out.push(0);
        proof {
            assert(old(out)@ + spec_zeros(i as int) + seq![0u8] =~= old(out)@ + spec_zeros(
                i + 1,
            ));
        }
        i = i + 1;
    }
}

/// Append the 8 header bytes.
fn push_header(out: &mut Vec<u8>, h: &MessageHeader)
    ensures
        final(out)@ == old(out)@ + spec_encode_header(*h),
{
    out.push(h.msg_type);
    push_u16(out, h.length);
    push_u32(out, h.sequence);
    out.push(0);
    proof {
        assert(out@ =~= old(out)@ + spec_encode_header(*h));
    }
}

/// Encode an `AddOrder` message into its 46-byte wire form.
pub fn encode_add_order(m: &AddOrder) -> (r: Vec<u8>)
    ensures
        r@ == spec_encode_add(*m),
{
    let mut out: Vec<u8> = Vec::new();
    push_header(&mut out, &m.header);
    push_u64(&mut out, m.order_id);
    push_u64(&mut out, m.price);
    push_u32(&mut out, m.quantity);
    out.push(m.side);
    push_zeros(&mut out, 17);
    proof {
        assert(out@ =~= spec_encode_add(*m));
    }
    out
}

/// Encode a `ModifyOrder` message into its 26-byte wire form.
pub fn encode_modify_order(m: &ModifyOrder) -> (r: Vec<u8>)
    ensures
        r@ == spec_encode_modify(*m),
{
    let mut out: Vec<u8> = Vec::new();
    push_header(&mut out, &m.header);
    push_u64(&mut out, m.order_id);
    push_u32(&mut out, m.new_quantity);
    push_zeros(&mut out, 6);
    proof {
        assert(out@ =~= spec_encode_modify(*m));
    }
    out
}

/// Encode a `DeleteOrder` message into its 16-byte wire form.
pub fn encode_delete_order(m: &DeleteOrder) -> (r: Vec<u8>)
    ensures
        r@ == spec_encode_delete(*m),
{
    let mut out: Vec<u8> = Vec::new();
    push_header(&mut out, &m.header);
    push_u64(&mut out, m.order_id);
    proof {
        assert(out@ =~= spec_encode_delete(*m));
    }
    out
}

/// Encode a `Trade` message into its 38-byte wire form.
pub fn encode_trade(m: &Trade) -> (r: Vec<u8>)
    ensures
        r@ == spec_encode_trade(*m),
{
    let mut out: Vec<u8> = Vec::new();
    push_header(&mut out, &m.header);
    push_u64(&mut out, m.buyer_order_id);
    push_u64(&mut out, m.seller_order_id);
    push_u64(&mut out, m.price);
    push_u32(&mut out, m.quantity);
    push_zeros(&mut out, 2);
    proof {
        assert(out@ =~= spec_encode_trade(*m));
    }
    out
}

/// Wire bytes of one snapshot level (16 bytes).
pub open spec fn spec_encode_level(l: SnapshotLevel) -> Seq<u8> {
    spec_u64_to_le_bytes(l.price) + spec_u32_to_le_bytes(l.quantity) + spec_zeros(4)
}

/// Wire bytes of a run of snapshot levels, back to back.
pub open spec fn spec_encode_levels(ls: Seq<SnapshotLevel>) -> Seq<u8>
    decreases ls.len(),
{
    if ls.len() == 0 {
        Seq::empty()
    } else {
        spec_encode_levels(ls.drop_last()) + spec_encode_level(ls.last())
    }
}

/// Encoded levels take 16 bytes each.
pub proof fn lemma_encode_levels_len(ls: Seq<SnapshotLevel>)
    ensures
        spec_encode_levels(ls).len() == 16 * ls.len(),
    decreases ls.len(),
{
    lemma_auto_spec_u32_to_from_le_bytes();
    lemma_auto_spec_u64_to_from_le_bytes();
    if ls.len() > 0 {
        lemma_encode_levels_len(ls.drop_last());
    }
}

/// Inside an encoded run of levels, the `i`-th block holds the `i`-th
/// level's price and quantity.
proof fn lemma_encode_levels_index(ls: Seq<SnapshotLevel>, i: int)
    requires
        0 <= i < ls.len(),
    ensures
        spec_encode_levels(ls).subrange(16 * i, 16 * i + 8) == spec_u64_to_le_bytes(
            ls[i].price,
        ),
        spec_encode_levels(ls).subrange(16 * i + 8, 16 * i + 12) == spec_u32_to_le_bytes(
            ls[i].quantity,
        ),
    decreases ls.len(),
{
    lemma_auto_spec_u32_to_from_le_bytes();
    lemma_auto_spec_u64_to_from_le_bytes();
    lemma_encode_levels_len(ls);
    lemma_encode_levels_len(ls.drop_last());
    let b = spec_encode_levels(ls);
    if i == ls.len() - 1 {
        assert(b.subrange(16 * i, 16 * i + 8) =~= spec_u64_to_le_bytes(ls[i].price));
        assert(b.subrange(16 * i + 8, 16 * i + 12) =~= spec_u32_to_le_bytes(ls[i].quantity));
    } else {
        lemma_encode_levels_index(ls.drop_last(), i);
        assert(b.subrange(16 * i, 16 * i + 8) =~= spec_encode_levels(ls.drop_last()).subrange(
            16 * i,
            16 * i + 8,
        ));
        assert(b.subrange(16 * i + 8, 16 * i + 12) =~= spec_encode_levels(
            ls.drop_last(),
        ).subrange(16 * i + 8, 16 * i + 12));
    }
}

/// Wire bytes of a snapshot message: header, level counts, bid levels,
/// ask levels.
pub open spec fn spec_encode_snapshot(
    h: SnapshotHeader,
    bids: Seq<SnapshotLevel>,
    asks: Seq<SnapshotLevel>,
) -> Seq<u8> {
    spec_encode_header(h.header) + spec_u32_to_le_bytes(h.num_bids) + spec_u32_to_le_bytes(
        h.num_asks,
    ) + spec_encode_levels(bids) + spec_encode_levels(asks)
}

/// Append a run of snapshot levels.
fn push_levels(out: &mut Vec<u8>, ls: &Vec<SnapshotLevel>)
    ensures
        final(out)@ == old(out)@ + spec_encode_levels(ls@),
{
    let n = ls.len();
    let mut i: usize = 0;
    proof {
        assert(out@ =~= old(out)@ + spec_encode_levels(ls@.take(0)));
    }
    while i < n
        invariant
            0 <= i <= n,
            n == ls@.len(),
            out@ == old(out)@ + spec_encode_levels(ls@.take(i as int)),
        decreases n - i,
    {
        let l = ls[i];
        push_u64(out, l.price);
        push_u32(out, l.quantity);
        push_zeros(out, 4);
        proof {
            assert(ls@.take(i + 1).drop_last() =~= ls@.take(i as int));
            assert(ls@.take(i + 1).last() == ls@[i as int]);
            assert(out@ =~= old(out)@ + spec_encode_levels(ls@.take(i + 1)));
        }
        i = i + 1;
    }
    proof {
        assert(ls@.take(n as int) =~= ls@);
    }
}

/// Encode a snapshot message into its wire form:
/// `16 + 16 * (bids.len() + asks.len())` bytes.
pub fn encode_snapshot(
    h: &SnapshotHeader,
    bids: &Vec<SnapshotLevel>,
    asks: &Vec<SnapshotLevel>,
) -> (r: Vec<u8>)
    ensures
        r@ == spec_encode_snapshot(*h, bids@, asks@),
{
    let mut out: Vec<u8> = Vec::new();
    push_header(&mut out, &h.header);
    push_u32(&mut out, h.num_bids);
    push_u32(&mut out, h.num_asks);
    push_levels(&mut out, bids);
    push_levels(&mut out, asks);
    proof {
        assert(out@ =~= spec_encode_snapshot(*h, bids@, asks@));
    }
    out
}

/// The header announces a snapshot whose declared length and level
/// counts match the level runs it carries.
pub open spec fn spec_snapshot_wire_ok(
    h: SnapshotHeader,
    bids: Seq<SnapshotLevel>,
    asks: Seq<SnapshotLevel>,
) -> bool {
    &&& h.header.msg_type == 5
    &&& h.num_bids == bids.len()
    &&& h.num_asks == asks.len()
    &&& h.header.length == 16 + 16 * (bids.len() + asks.len())
}

/// Round trip: an encoded snapshot with a wire-consistent header decodes
/// to exactly the original header and level runs, consuming the whole
/// message.
pub proof fn lemma_snapshot_round_trip(
    h: SnapshotHeader,
    bids: Seq<SnapshotLevel>,
    asks: Seq<SnapshotLevel>,
)
    requires
        spec_snapshot_wire_ok(h, bids, asks),
    ensures
        spec_decode(spec_encode_snapshot(h, bids, asks)) == Ok::<
            (MessageView, int),
            crate::decoder::DecodeError,
        >(
            (
                MessageView::Snapshot(
                    SnapshotView { header: h, bid_levels: bids, ask_levels: asks },
                ),
                h.header.length as int,
            ),
        ),
{
    let b = spec_encode_snapshot(h, bids, asks);
    let nb = bids.len() as int;
    let na = asks.len() as int;
    lemma_auto_spec_u32_to_from_le_bytes();
    lemma_auto_spec_u64_to_from_le_bytes();
    lemma_encode_levels_len(bids);
    lemma_encode_levels_len(asks);
    lemma_header_round_trip(
        h.header,
        spec_u32_to_le_bytes(h.num_bids) + spec_u32_to_le_bytes(h.num_asks)
            + spec_encode_levels(bids) + spec_encode_levels(asks),
    );
    assert(b =~= spec_encode_header(h.header) + (spec_u32_to_le_bytes(h.num_bids)
        + spec_u32_to_le_bytes(h.num_asks) + spec_encode_levels(bids) + spec_encode_levels(
        asks,
    )));
    assert(b.subrange(8, 12) =~= spec_u32_to_le_bytes(h.num_bids));
    assert(b.subrange(12, 16) =~= spec_u32_to_le_bytes(h.num_asks));
    assert forall|i: int| 0 <= i < nb implies spec_levels(b, 16, nb)[i] == bids[i] by {
        lemma_encode_levels_index(bids, i);
        assert(b.subrange(16 + 16 * i, 16 + 16 * i + 8) =~= spec_encode_levels(
            bids,
        ).subrange(16 * i, 16 * i + 8));
        assert(b.subrange(16 + 16 * i + 8, 16 + 16 * i + 12) =~= spec_encode_levels(
            bids,
        ).subrange(16 * i + 8, 16 * i + 12));
    }
    assert(spec_levels(b, 16, nb) =~= bids);
    let ask_base = 16 + 16 * nb;
    assert forall|i: int| 0 <= i < na implies spec_levels(b, ask_base, na)[i] == asks[i] by {
        lemma_encode_levels_index(asks, i);
        assert(b.subrange(ask_base + 16 * i, ask_base + 16 * i + 8) =~= spec_encode_levels(
            asks,
        ).subrange(16 * i, 16 * i + 8));
        assert(b.subrange(ask_base + 16 * i + 8, ask_base + 16 * i + 12)
            =~= spec_encode_levels(asks).subrange(16 * i + 8, 16 * i + 12));
    }
    assert(spec_levels(b, ask_base, na) =~= asks);
}

/// The header announces an `AddOrder` of the documented size.
pub open spec fn spec_add_wire_ok(m: AddOrder) -> bool {
    m.header.msg_type == 1 && m.header.length == 46
}

/// The header announces a `ModifyOrder` of the documented size.
pub open spec fn spec_modify_wire_ok(m: ModifyOrder) -> bool {
    m.header.msg_type == 2 && m.header.length == 26
}

/// The header announces a `DeleteOrder` of the documented size.
pub open spec fn spec_delete_wire_ok(m: DeleteOrder) -> bool {
    m.header.msg_type == 3 && m.header.length == 16
}

/// The header announces a `Trade` of the documented size.
pub open spec fn spec_trade_wire_ok(m: Trade) -> bool {
    m.header.msg_type == 4 && m.header.length == 38
}

/// The encoded header decodes back to its field values.
proof fn lemma_header_round_trip(h: MessageHeader, rest: Seq<u8>)
    ensures
        ({
            let b = spec_encode_header(h) + rest;
            &&& b.len() == 8 + rest.len()
            &&& b[0] == h.msg_type
            &&& spec_le16(b, 1) == h.length
            &&& spec_le32(b, 3) == h.sequence
            &&& spec_header(b) == h
        }),
{
    let b = spec_encode_header(h) + rest;
    lemma_auto_spec_u16_to_from_le_bytes();
    lemma_auto_spec_u32_to_from_le_bytes();
    assert(b.subrange(1, 3) =~= spec_u16_to_le_bytes(h.length));
    assert(b.subrange(3, 7) =~= spec_u32_to_le_bytes(h.sequence));
}

/// Round trip: an encoded `AddOrder` with a wire-consistent header
/// decodes to exactly the original message, consuming all 46 bytes.
pub proof fn lemma_add_order_round_trip(m: AddOrder)
    requires
        spec_add_wire_ok(m),
    ensures
        spec_decode(spec_encode_add(m)) == Ok::<(MessageView, int), crate::decoder::DecodeError>(
            (MessageView::AddOrder(m), 46),
        ),
{
    let b = spec_encode_add(m);
    lemma_header_round_trip(
        m.header,
        spec_u64_to_le_bytes(m.order_id) + spec_u64_to_le_bytes(m.price)
            + spec_u32_to_le_bytes(m.quantity) + seq![m.side] + spec_zeros(17),
    );
    assert(b =~= spec_encode_header(m.header) + (spec_u64_to_le_bytes(m.order_id)
        + spec_u64_to_le_bytes(m.price) + spec_u32_to_le_bytes(m.quantity) + seq![m.side]
        + spec_zeros(17)));
    lemma_auto_spec_u32_to_from_le_bytes();
    lemma_auto_spec_u64_to_from_le_bytes();
    assert(b.subrange(8, 16) =~= spec_u64_to_le_bytes(m.order_id));
    assert(b.subrange(16, 24) =~= spec_u64_to_le_bytes(m.price));
    assert(b.subrange(24, 28) =~= spec_u32_to_le_bytes(m.quantity));
    assert(b[28] == m.side);
}

/// Round trip: an encoded `ModifyOrder` with a wire-consistent header
/// decodes to exactly the original message, consuming all 26 bytes.
pub proof fn lemma_modify_order_round_trip(m: ModifyOrder)
    requires
        spec_modify_wire_ok(m),
    ensures
        spec_decode(spec_encode_modify(m)) == Ok::<
            (MessageView, int),
            crate::decoder::DecodeError,
        >((MessageView::ModifyOrder(m), 26)),
{
    let b = spec_encode_modify(m);
    lemma_header_round_trip(
        m.header,
        spec_u64_to_le_bytes(m.order_id) + spec_u32_to_le_bytes(m.new_quantity)
            + spec_zeros(6),
    );
    assert(b =~= spec_encode_header(m.header) + (spec_u64_to_le_bytes(m.order_id)
        + spec_u32_to_le_bytes(m.new_quantity) + spec_zeros(6)));
    lemma_auto_spec_u32_to_from_le_bytes();
    lemma_auto_spec_u64_to_from_le_bytes();
    assert(b.subrange(8, 16) =~= spec_u64_to_le_bytes(m.order_id));
    assert(b.subrange(16, 20) =~= spec_u32_to_le_bytes(m.new_quantity));
}

/// Round trip: an encoded `DeleteOrder` with a wire-consistent header
/// decodes to exactly the original message, consuming all 16 bytes.
pub proof fn lemma_delete_order_round_trip(m: DeleteOrder)
    requires
        spec_delete_wire_ok(m),
    ensures
        spec_decode(spec_encode_delete(m)) == Ok::<
            (MessageView, int),
            crate::decoder::DecodeError,
        >((MessageView::DeleteOrder(m), 16)),
{
    let b = spec_encode_delete(m);
    lemma_header_round_trip(m.header, spec_u64_to_le_bytes(m.order_id));
    assert(b =~= spec_encode_header(m.header) + spec_u64_to_le_bytes(m.order_id));
    lemma_auto_spec_u64_to_from_le_bytes();
    assert(b.subrange(8, 16) =~= spec_u64_to_le_bytes(m.order_id));
}

/// Round trip: an encoded `Trade` with a wire-consistent header decodes
/// to exactly the original message, consuming all 38 bytes.
pub proof fn lemma_trade_round_trip(m: Trade)
    requires
        spec_trade_wire_ok(m),
    ensures
        spec_decode(spec_encode_trade(m)) == Ok::<
            (MessageView, int),
            crate::decoder::DecodeError,
        >((MessageView::Trade(m), 38)),
{
    let b = spec_encode_trade(m);
    lemma_header_round_trip(
        m.header,
        spec_u64_to_le_bytes(m.buyer_order_id) + spec_u64_to_le_bytes(m.seller_order_id)
            + spec_u64_to_le_bytes(m.price) + spec_u32_to_le_bytes(m.quantity)
            + spec_zeros(2),
    );
    assert(b =~= spec_encode_header(m.header) + (spec_u64_to_le_bytes(m.buyer_order_id)
        + spec_u64_to_le_bytes(m.seller_order_id) + spec_u64_to_le_bytes(m.price)
        + spec_u32_to_le_bytes(m.quantity) + spec_zeros(2)));
    lemma_auto_spec_u32_to_from_le_bytes();
    lemma_auto_spec_u64_to_from_le_bytes();
    assert(b.subrange(8, 16) =~= spec_u64_to_le_bytes(m.buyer_order_id));
    assert(b.subrange(16, 24) =~= spec_u64_to_le_bytes(m.seller_order_id));
    assert(b.subrange(24, 32) =~= spec_u64_to_le_bytes(m.price));
    assert(b.subrange(32, 36) =~= spec_u32_to_le_bytes(m.quantity));
}

} // verus!
