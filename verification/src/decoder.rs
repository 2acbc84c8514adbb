//! Message decoder.
//!
//! `Decoder::decode` inspects a prefix of a byte buffer, validates framing
//! (known type tag, consistent declared length, per-type minimum size) and
//! returns a typed message plus the number of bytes consumed. The result is
//! specified exactly: it equals `spec_decode` of the buffer contents, so
//! decoding is a pure function of the bytes.

use vstd::prelude::*;
use vstd::bytes::*;
use vstd::slice::*;
use crate::protocol::{
    AddOrder, DeleteOrder, MessageHeader, MessageType, ModifyOrder, SnapshotHeader,
    SnapshotLevel, Trade, spec_type_of_tag, ADD_ORDER_SIZE, DELETE_ORDER_SIZE, HEADER_SIZE,
    MODIFY_ORDER_SIZE, SNAPSHOT_HEADER_SIZE, TRADE_SIZE,
};

verus! {

/// A framing failure reported by the decoder.
#[derive(Debug, Clone, Copy, PartialEq, Eq, Structural)]
pub enum DecodeError {
    /// Not enough bytes to inspect a header or to hold the type's
    /// fixed-size body.
    BufferTooSmall { need: usize, have: usize },
    /// The type tag byte is outside the known set.
    InvalidMessageType(u8),
    /// The declared length is inconsistent with the buffer or with the
    /// message's own size rule.
    TruncatedMessage { declared: u16, actual: usize },
    /// Reserved; not currently produced.
    InvalidHeader,
    /// Reserved; not currently produced.
    MisalignedSnapshot,
}

pub type DecodeResult<T> = Result<T, DecodeError>;

/// A decoded message. Fixed-size messages carry their struct; a snapshot
/// carries its header plus the decoded level arrays.
#[derive(Debug, PartialEq)]
pub enum MessageRef {
    AddOrder(AddOrder),
    ModifyOrder(ModifyOrder),
    DeleteOrder(DeleteOrder),
    Trade(Trade),
    Snapshot(SnapshotRef),
}

/// A decoded snapshot: header fields plus the bid and ask level arrays.
#[derive(Debug, PartialEq)]
pub struct SnapshotRef {
    pub header: SnapshotHeader,
    pub bid_levels: Vec<SnapshotLevel>,
    pub ask_levels: Vec<SnapshotLevel>,
}

/// Mathematical value of a decoded snapshot.
pub struct SnapshotView {
    pub header: SnapshotHeader,
    pub bid_levels: Seq<SnapshotLevel>,
    pub ask_levels: Seq<SnapshotLevel>,
}

/// Mathematical value of a decoded message.
pub enum MessageView {
    AddOrder(AddOrder),
    ModifyOrder(ModifyOrder),
    DeleteOrder(DeleteOrder),
    Trade(Trade),
    Snapshot(SnapshotView),
}

impl View for SnapshotRef {
    type V = SnapshotView;

    open spec fn view(&self) -> SnapshotView {
        SnapshotView {
            header: self.header,
            bid_levels: self.bid_levels@,
            ask_levels: self.ask_levels@,
        }
    }
}

impl View for MessageRef {
    type V = MessageView;

    open spec fn view(&self) -> MessageView {
        match self {
            MessageRef::AddOrder(m) => MessageView::AddOrder(*m),
            MessageRef::ModifyOrder(m) => MessageView::ModifyOrder(*m),
            MessageRef::DeleteOrder(m) => MessageView::DeleteOrder(*m),
            MessageRef::Trade(m) => MessageView::Trade(*m),
            MessageRef::Snapshot(s) => MessageView::Snapshot(s@),
        }
    }
}

/// The u16 stored little-endian at byte offset `off`.
pub open spec fn spec_le16(b: Seq<u8>, off: int) -> u16 {
    spec_u16_from_le_bytes(b.subrange(off, off + 2))
}

/// The u32 stored little-endian at byte offset `off`.
pub open spec fn spec_le32(b: Seq<u8>, off: int) -> u32 {
    spec_u32_from_le_bytes(b.subrange(off, off + 4))
}

/// The u64 stored little-endian at byte offset `off`.
pub open spec fn spec_le64(b: Seq<u8>, off: int) -> u64 {
    spec_u64_from_le_bytes(b.subrange(off, off + 8))
}

/// The message header stored in the first 8 bytes of `b`.
pub open spec fn spec_header(b: Seq<u8>) -> MessageHeader {
    MessageHeader { msg_type: b[0], length: spec_le16(b, 1), sequence: spec_le32(b, 3) }
}

/// The `n` snapshot levels stored back to back from byte offset `start`.
pub open spec fn spec_levels(b: Seq<u8>, start: int, n: int) -> Seq<SnapshotLevel> {
    Seq::new(n as nat, |i: int| SnapshotLevel {
        price: spec_le64(b, start + 16 * i),
        quantity: spec_le32(b, start + 16 * i + 8),
    })
}

/// Body of `spec_decode` for an `AddOrder` message.
pub open spec fn spec_decode_add(b: Seq<u8>, length: int) -> Result<
    (MessageView, int),
    DecodeError,
> {
    if length < 46 {
        Err(DecodeError::BufferTooSmall { need: 46, have: length as usize })
    } else {
        Ok(
            (
                MessageView::AddOrder(
                    AddOrder {
                        header: spec_header(b),
                        order_id: spec_le64(b, 8),
                        price: spec_le64(b, 16),
                        quantity: spec_le32(b, 24),
                        side: b[28],
                    },
                ),
                length,
            ),
        )
    }
}

/// Body of `spec_decode` for a `ModifyOrder` message.
pub open spec fn spec_decode_modify(b: Seq<u8>, length: int) -> Result<
    (MessageView, int),
    DecodeError,
> {
    if length < 26 {
        Err(DecodeError::BufferTooSmall { need: 26, have: length as usize })
    } else {
        Ok(
            (
                MessageView::ModifyOrder(
                    ModifyOrder {
                        header: spec_header(b),
                        order_id: spec_le64(b, 8),
                        new_quantity: spec_le32(b, 16),
                    },
                ),
                length,
            ),
        )
    }
}

/// Body of `spec_decode` for a `DeleteOrder` message.
pub open spec fn spec_decode_delete(b: Seq<u8>, length: int) -> Result<
    (MessageView, int),
    DecodeError,
> {
    if length < 16 {
        Err(DecodeError::BufferTooSmall { need: 16, have: length as usize })
    } else {
        Ok(
            (
                MessageView::DeleteOrder(
                    DeleteOrder { header: spec_header(b), order_id: spec_le64(b, 8) },
                ),
                length,
            ),
        )
    }
}

/// Body of `spec_decode` for a `Trade` message.
pub open spec fn spec_decode_trade(b: Seq<u8>, length: int) -> Result<
    (MessageView, int),
    DecodeError,
> {
    if length < 38 {
        Err(DecodeError::BufferTooSmall { need: 38, have: length as usize })
    } else {
        Ok(
            (
                MessageView::Trade(
                    Trade {
                        header: spec_header(b),
                        buyer_order_id: spec_le64(b, 8),
                        seller_order_id: spec_le64(b, 16),
                        price: spec_le64(b, 24),
                        quantity: spec_le32(b, 32),
                    },
                ),
                length,
            ),
        )
    }
}

/// Body of `spec_decode` for a snapshot message: the declared length
/// must equal the size computed from the level counts, so a malformed
/// snapshot with trailing slack is rejected.
pub open spec fn spec_decode_snapshot(b: Seq<u8>, length: int) -> Result<
    (MessageView, int),
    DecodeError,
> {
    if length < 16 {
        Err(DecodeError::BufferTooSmall { need: 16, have: length as usize })
    } else {
        let nb = spec_le32(b, 8) as int;
        let na = spec_le32(b, 12) as int;
        if length != 16 + 16 * (nb + na) {
            Err(
                DecodeError::TruncatedMessage {
                    declared: spec_le16(b, 1),
                    actual: length as usize,
                },
            )
        } else {
            Ok(
                (
                    MessageView::Snapshot(
                        SnapshotView {
                            header: SnapshotHeader {
                                header: spec_header(b),
                                num_bids: spec_le32(b, 8),
                                num_asks: spec_le32(b, 12),
                            },
                            bid_levels: spec_levels(b, 16, nb),
                            ask_levels: spec_levels(b, 16 + 16 * nb, na),
                        },
                    ),
                    length,
                ),
            )
        }
    }
}

/// What decoding a prefix of `b` yields: either a typed message view and
/// the number of bytes consumed (the declared length), or the framing
/// error, exactly as the decoding algorithm produces them.
pub open spec fn spec_decode(b: Seq<u8>) -> Result<(MessageView, int), DecodeError> {
    if b.len() < 8 {
        Err(DecodeError::BufferTooSmall { need: 8, have: b.len() as usize })
    } else {
        match spec_type_of_tag(b[0]) {
            None => Err(DecodeError::InvalidMessageType(b[0])),
            Some(mt) => {
                let length = spec_le16(b, 1) as int;
                if length < 8 || length > b.len() {
                    Err(
                        DecodeError::TruncatedMessage {
                            declared: spec_le16(b, 1),
                            actual: b.len() as usize,
                        },
                    )
                } else {
                    match mt {
                        MessageType::AddOrder => spec_decode_add(b, length),
                        MessageType::ModifyOrder => spec_decode_modify(b, length),
                        MessageType::DeleteOrder => spec_decode_delete(b, length),
                        MessageType::Trade => spec_decode_trade(b, length),
                        MessageType::Snapshot => spec_decode_snapshot(b, length),
                    }
                }
            },
        }
    }
}

/// The mathematical value of an executable decode result.
pub open spec fn spec_result_view(r: DecodeResult<(MessageRef, usize)>) -> Result<
    (MessageView, int),
    DecodeError,
> {
    match r {
        Ok((m, n)) => Ok((m@, n as int)),
        Err(e) => Err(e),
    }
}

/// A successful decode consumes at least a header and no more than the
/// whole buffer.
pub proof fn lemma_decode_ok_bounds(b: Seq<u8>)
    ensures
        spec_decode(b) matches Ok((m, n)) ==> 8 <= n <= b.len(),
{
}

/// Decoding is a pure function of the buffer contents: any two results
/// that satisfy the decoder's contract on equal buffers are equal.
pub proof fn lemma_decode_deterministic(
    b1: Seq<u8>,
    b2: Seq<u8>,
    r1: Result<(MessageView, int), DecodeError>,
    r2: Result<(MessageView, int), DecodeError>,
)
    requires
        b1 == b2,
        r1 == spec_decode(b1),
        r2 == spec_decode(b2),
    ensures
        r1 == r2,
{
}

impl SnapshotRef {
    /// Sequence number carried in the snapshot's message header.
    pub fn sequence(&self) -> (r: u32)
        ensures
            r == self@.header.header.sequence,
    {
        self.header.header.sequence
    }

    /// Number of bid levels in the snapshot.
    pub fn num_bids(&self) -> (r: u32)
        ensures
            r == self@.header.num_bids,
    {
        self.header.num_bids
    }

    /// Number of ask levels in the snapshot.
    pub fn num_asks(&self) -> (r: u32)
        ensures
            r == self@.header.num_asks,
    {
        self.header.num_asks
    }
}

/// Sequence number of a decoded message, whatever its kind.
pub open spec fn spec_sequence_of(m: MessageView) -> u32 {
    match m {
        MessageView::AddOrder(x) => x.header.sequence,
        MessageView::ModifyOrder(x) => x.header.sequence,
        MessageView::DeleteOrder(x) => x.header.sequence,
        MessageView::Trade(x) => x.header.sequence,
        MessageView::Snapshot(s) => s.header.header.sequence,
    }
}

/// Kind of a decoded message.
pub open spec fn spec_type_of(m: MessageView) -> MessageType {
    match m {
        MessageView::AddOrder(_) => MessageType::AddOrder,
        MessageView::ModifyOrder(_) => MessageType::ModifyOrder,
        MessageView::DeleteOrder(_) => MessageType::DeleteOrder,
        MessageView::Trade(_) => MessageType::Trade,
        MessageView::Snapshot(_) => MessageType::Snapshot,
    }
}

impl MessageRef {
    /// Sequence number carried in the message header.
    pub fn sequence(&self) -> (r: u32)
        ensures
            r == spec_sequence_of(self@),
    {
        match self {
            MessageRef::AddOrder(m) => m.header.sequence,
            MessageRef::ModifyOrder(m) => m.header.sequence,
            MessageRef::DeleteOrder(m) => m.header.sequence,
            MessageRef::Trade(m) => m.header.sequence,
            MessageRef::Snapshot(s) => s.sequence(),
        }
    }

    /// Kind of this message.
    pub fn message_type(&self) -> (r: MessageType)
        ensures
            r == spec_type_of(self@),
    {
        match self {
            MessageRef::AddOrder(_) => MessageType::AddOrder,
            MessageRef::ModifyOrder(_) => MessageType::ModifyOrder,
            MessageRef::DeleteOrder(_) => MessageType::DeleteOrder,
            MessageRef::Trade(_) => MessageType::Trade,
            MessageRef::Snapshot(_) => MessageType::Snapshot,
        }
    }
}

/// Stateless decoder over byte buffers.
pub struct Decoder;

impl Decoder {
    /// Decode one message from the front of `buffer`.
    ///
    /// On success the second component is the number of bytes consumed,
    /// which is the declared length. Fixed-size messages tolerate
    /// trailing slack inside the declared length; a snapshot must
    /// declare exactly the size its level counts compute to. The buffer
    /// is only read; repeated calls on the same bytes return the same
    /// value.
    pub fn decode(buffer: &[u8]) -> (r: DecodeResult<(MessageRef, usize)>)
        ensures
            spec_result_view(r) == spec_decode(buffer@),
    {
        if buffer.len() < HEADER_SIZE {
            return Err(DecodeError::BufferTooSmall { need: HEADER_SIZE, have: buffer.len() });
        }
        let msg_type = *slice_index_get(buffer, 0);
        let length16 = u16_from_le_bytes(slice_subrange(buffer, 1, 3));
        let mt = match MessageType::from_u8(msg_type) {
            Some(mt) => mt,
            None => {
                return Err(DecodeError::InvalidMessageType(msg_type));
            },
        };
        let length = length16 as usize;
        if length < HEADER_SIZE || length > buffer.len() {
            return Err(
                DecodeError::TruncatedMessage { declared: length16, actual: buffer.len() },
            );
        }
        let header = MessageHeader {
            msg_type,
            length: length16,
            sequence: u32_from_le_bytes(slice_subrange(buffer, 3, 7)),
        };
        match mt {
            MessageType::AddOrder => {
                if length < ADD_ORDER_SIZE {
                    return Err(
                        DecodeError::BufferTooSmall { need: ADD_ORDER_SIZE, have: length },
                    );
                }
                let msg = AddOrder {
                    header,
                    order_id: u64_from_le_bytes(slice_subrange(buffer, 8, 16)),
                    price: u64_from_le_bytes(slice_subrange(buffer, 16, 24)),
                    quantity: u32_from_le_bytes(slice_subrange(buffer, 24, 28)),
                    side: *slice_index_get(buffer, 28),
                };
                Ok((MessageRef::AddOrder(msg), length))
            },
            MessageType::ModifyOrder => {
                if length < MODIFY_ORDER_SIZE {
                    return Err(
                        DecodeError::BufferTooSmall { need: MODIFY_ORDER_SIZE, have: length },
                    );
                }
                let msg = ModifyOrder {
                    header,
                    order_id: u64_from_le_bytes(slice_subrange(buffer, 8, 16)),
                    new_quantity: u32_from_le_bytes(slice_subrange(buffer, 16, 20)),
                };
                Ok((MessageRef::ModifyOrder(msg), length))
            },
            MessageType::DeleteOrder => {
                if length < DELETE_ORDER_SIZE {
                    return Err(
                        DecodeError::BufferTooSmall { need: DELETE_ORDER_SIZE, have: length },
                    );
                }
                let msg = DeleteOrder {
                    header,
                    order_id: u64_from_le_bytes(slice_subrange(buffer, 8, 16)),
                };
                Ok((MessageRef::DeleteOrder(msg), length))
            },
            MessageType::Trade => {
                if length < TRADE_SIZE {
                    return Err(DecodeError::BufferTooSmall { need: TRADE_SIZE, have: length });
                }
                let msg = Trade {
                    header,
                    buyer_order_id: u64_from_le_bytes(slice_subrange(buffer, 8, 16)),
                    seller_order_id: u64_from_le_bytes(slice_subrange(buffer, 16, 24)),
                    price: u64_from_le_bytes(slice_subrange(buffer, 24, 32)),
                    quantity: u32_from_le_bytes(slice_subrange(buffer, 32, 36)),
                };
                Ok((MessageRef::Trade(msg), length))
            },
            MessageType::Snapshot => Self::decode_snapshot(buffer, header, length),
        }
    }

    /// Decode the body of a snapshot message whose header has been
    /// validated.
    fn decode_snapshot(buffer: &[u8], header: MessageHeader, length: usize) -> (r: DecodeResult<
        (MessageRef, usize),
    >)
        requires
            8 <= length <= buffer@.len(),
            header == spec_header(buffer@),
            length == spec_le16(buffer@, 1),
            spec_type_of_tag(buffer@[0]) == Some(MessageType::Snapshot),
        ensures
            spec_result_view(r) == spec_decode(buffer@),
    {
        if length < SNAPSHOT_HEADER_SIZE {
            return Err(
                DecodeError::BufferTooSmall { need: SNAPSHOT_HEADER_SIZE, have: length },
            );
        }
        let num_bids = u32_from_le_bytes(slice_subrange(buffer, 8, 12));
        let num_asks = u32_from_le_bytes(slice_subrange(buffer, 12, 16));
        let expected: u64 = 16 + 16 * (num_bids as u64 + num_asks as u64);
        if (length as u64) != expected {
            return Err(
                DecodeError::TruncatedMessage {
                    declared: header.length,
                    actual: length,
                },
            );
        }
        let nb = num_bids as usize;
        let na = num_asks as usize;
        let mut bid_levels: Vec<SnapshotLevel> = Vec::new();
        let mut i: usize = 0;
        while i < nb
            invariant
                nb == spec_le32(buffer@, 8),
                na == spec_le32(buffer@, 12),
                16 + 16 * (nb + na) <= length <= buffer@.len(),
                0 <= i <= nb,
                bid_levels@ == spec_levels(buffer@, 16, i as int),
            decreases nb - i,
        {
            let off: usize = 16 + 16 * i;
            let level = SnapshotLevel {
                price: u64_from_le_bytes(slice_subrange(buffer, off, off + 8)),
                quantity: u32_from_le_bytes(slice_subrange(buffer, off + 8, off + 12)),
            };
            bid_levels.push(level);
            proof {
                assert(bid_levels@ =~= spec_levels(buffer@, 16, i + 1));
            }
            i = i + 1;
        }
        let mut ask_levels: Vec<SnapshotLevel> = Vec::new();
        let mut j: usize = 0;
        while j < na
            invariant
                nb == spec_le32(buffer@, 8),
                na == spec_le32(buffer@, 12),
                16 + 16 * (nb + na) <= length <= buffer@.len(),
                0 <= j <= na,
                ask_levels@ == spec_levels(buffer@, 16 + 16 * nb, j as int),
            decreases na - j,
        {
            let off: usize = 16 + 16 * nb + 16 * j;
            let level = SnapshotLevel {
                price: u64_from_le_bytes(slice_subrange(buffer, off, off + 8)),
                quantity: u32_from_le_bytes(slice_subrange(buffer, off + 8, off + 12)),
            };
            ask_levels.push(level);
            proof {
                assert(ask_levels@ =~= spec_levels(buffer@, 16 + 16 * nb, j + 1));
            }
            j = j + 1;
        }
        let snap = SnapshotRef {
            header: SnapshotHeader { header, num_bids, num_asks },
            bid_levels,
            ask_levels,
        };
        Ok((MessageRef::Snapshot(snap), length))
    }

    /// Decode messages from the front of `buffer`, at most `max` of them.
    ///
    /// Decoding stops cleanly — with the messages seen so far — when the
    /// remaining tail is too small to hold another message (the normal
    /// end-of-stream condition) or when `max` messages have been decoded;
    /// any other framing error is propagated.
    pub fn decode_stream(buffer: &[u8], max: usize) -> (r: DecodeResult<Vec<MessageRef>>)
        ensures
            (match r {
                Ok(v) => spec_decode_stream(buffer@, max as nat) == Ok::<_, DecodeError>(
                    spec_refs_view(v@),
                ),
                Err(e) => spec_decode_stream(buffer@, max as nat) == Err::<Seq<MessageView>, _>(
                    e,
                ),
            }),
    {
        let mut out: Vec<MessageRef> = Vec::new();
        let mut offset: usize = 0;
        let mut count: usize = 0;
        proof {
            assert(buffer@.skip(0) =~= buffer@);
            assert(spec_refs_view(out@) =~= Seq::<MessageView>::empty());
            match spec_decode_stream(buffer@, max as nat) {
                Ok(s) => {
                    assert(Seq::<MessageView>::empty() + s =~= s);
                },
                Err(_) => {},
            }
        }
        while offset < buffer.len() && count < max
            invariant
                0 <= offset <= buffer@.len(),
                count == out@.len(),
                count <= max,
                spec_decode_stream(buffer@, max as nat) == spec_stream_cons(
                    spec_refs_view(out@),
                    spec_decode_stream(buffer@.skip(offset as int), (max - count) as nat),
                ),
            decreases buffer@.len() - offset,
        {
            let tail = slice_subrange(buffer, offset, buffer.len());
            proof {
                assert(tail@ == buffer@.skip(offset as int));
                lemma_decode_ok_bounds(tail@);
            }
            match Self::decode(tail) {
                Ok((msg, consumed)) => {
                    proof {
                        assert(buffer@.skip(offset as int).skip(consumed as int) =~= buffer@.skip(
                            offset + consumed,
                        ));
                        assert(spec_refs_view(out@.push(msg)) =~= spec_refs_view(out@) + seq![
                            msg@,
                        ]);
                        assert(spec_decode_stream(buffer@.skip(offset as int), (max
                            - count) as nat) == spec_stream_cons(
                            seq![msg@],
                            spec_decode_stream(
                                buffer@.skip(offset + consumed),
                                (max - count - 1) as nat,
                            ),
                        ));
                        assert forall|rest: Result<Seq<MessageView>, DecodeError>|
                            spec_stream_cons(
                                spec_refs_view(out@),
                                spec_stream_cons(seq![msg@], rest),
                            ) == spec_stream_cons(
                                spec_refs_view(out@.push(msg)),
                                rest,
                            ) by {
                            match rest {
                                Ok(s) => {
                                    assert(spec_refs_view(out@) + (seq![msg@] + s)
                                        =~= spec_refs_view(out@.push(msg)) + s);
                                },
                                Err(_) => {},
                            }
                        }
                    }
                    out.push(msg);
                    offset = offset + consumed;
                    count = count + 1;
                },
                Err(e) => {
                    match e {
                        DecodeError::BufferTooSmall { .. } => {
                            proof {
                                assert(spec_decode_stream(
                                    buffer@.skip(offset as int),
                                    (max - count) as nat,
                                ) == Ok::<Seq<MessageView>, DecodeError>(Seq::empty()));
                                assert(spec_refs_view(out@) + Seq::<MessageView>::empty()
                                    =~= spec_refs_view(out@));
                            }
                            return Ok(out);
                        },
                        _ => {
                            return Err(e);
                        },
                    }
                },
            }
        }
        proof {
            if offset >= buffer@.len() {
                assert(buffer@.skip(offset as int).len() == 0);
            }
            assert(spec_decode_stream(buffer@.skip(offset as int), (max - count) as nat)
                == Ok::<Seq<MessageView>, DecodeError>(Seq::empty()));
            assert(spec_refs_view(out@) + Seq::<MessageView>::empty() =~= spec_refs_view(out@));
        }
        Ok(out)
    }
}

/// The mathematical values of a vector of decoded messages.
pub open spec fn spec_refs_view(s: Seq<MessageRef>) -> Seq<MessageView> {
    s.map_values(|m: MessageRef| m@)
}

/// Prepend already-decoded messages to the outcome of decoding the rest
/// of a stream.
pub open spec fn spec_stream_cons(
    prefix: Seq<MessageView>,
    rest: Result<Seq<MessageView>, DecodeError>,
) -> Result<Seq<MessageView>, DecodeError> {
    match rest {
        Ok(s) => Ok(prefix + s),
        Err(e) => Err(e),
    }
}

/// What decoding a whole stream yields: up to `max` messages decoded back
/// to back from the front of `b`. A tail too small for a further message
/// ends the stream cleanly; any other framing error is the stream's
/// outcome.
pub open spec fn spec_decode_stream(b: Seq<u8>, max: nat) -> Result<
    Seq<MessageView>,
    DecodeError,
>
    decreases max,
{
    if max == 0 || b.len() == 0 {
        Ok(Seq::empty())
    } else {
        match spec_decode(b) {
            Err(DecodeError::BufferTooSmall { .. }) => Ok(Seq::empty()),
            Err(e) => Err(e),
            Ok((m, n)) => spec_stream_cons(
                seq![m],
                spec_decode_stream(b.skip(n), (max - 1) as nat),
            ),
        }
    }
}

} // verus!
