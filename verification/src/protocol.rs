//! Wire protocol definitions.
//!
//! Every message starts with an 8-byte header laid out as
//! `[msg_type(1)][length(2)][sequence(4)][padding(1)]`; all multi-byte
//! integers are little-endian, and `length` counts the whole message,
//! header bytes and all.

use vstd::prelude::*;

verus! {

/// Size in bytes of the fixed message header.
pub const HEADER_SIZE: usize = 8;

/// Total size in bytes of an `AddOrder` message.
pub const ADD_ORDER_SIZE: usize = 46;

/// Total size in bytes of a `ModifyOrder` message.
pub const MODIFY_ORDER_SIZE: usize = 26;

/// Total size in bytes of a `DeleteOrder` message.
pub const DELETE_ORDER_SIZE: usize = 16;

/// Total size in bytes of a `Trade` message.
pub const TRADE_SIZE: usize = 38;

/// Size in bytes of a snapshot message with no levels.
pub const SNAPSHOT_HEADER_SIZE: usize = 16;

/// Size in bytes of one snapshot level entry.
pub const SNAPSHOT_LEVEL_SIZE: usize = 16;

/// The set of message kinds carried by the feed.
///
/// On the wire the kinds are tagged 1 through 5, in the order listed here;
/// `from_u8` and `to_u8` convert between the tag byte and the enumeration.
#[derive(Debug, Clone, Copy, PartialEq, Eq, Structural)]
pub enum MessageType {
    AddOrder,
    ModifyOrder,
    DeleteOrder,
    Trade,
    Snapshot,
}

/// The tag byte that stands for `t` on the wire.
pub open spec fn spec_type_tag(t: MessageType) -> u8 {
    match t {
        MessageType::AddOrder => 1,
        MessageType::ModifyOrder => 2,
        MessageType::DeleteOrder => 3,
        MessageType::Trade => 4,
        MessageType::Snapshot => 5,
    }
}

/// The message kind a tag byte stands for, if any.
pub open spec fn spec_type_of_tag(v: u8) -> Option<MessageType> {
    if v == 1 {
        Some(MessageType::AddOrder)
    } else if v == 2 {
        Some(MessageType::ModifyOrder)
    } else if v == 3 {
        Some(MessageType::DeleteOrder)
    } else if v == 4 {
        Some(MessageType::Trade)
    } else if v == 5 {
        Some(MessageType::Snapshot)
    } else {
        None
    }
}

impl MessageType {
    /// Parse a wire tag byte; tags outside 1..=5 are invalid.
    pub fn from_u8(v: u8) -> (r: Option<Self>)
        ensures
            r == spec_type_of_tag(v),
    {
        match v {
            1 => Some(MessageType::AddOrder),
            2 => Some(MessageType::ModifyOrder),
            3 => Some(MessageType::DeleteOrder),
            4 => Some(MessageType::Trade),
            5 => Some(MessageType::Snapshot),
            _ => None,
        }
    }

    /// The wire tag byte for this message kind.
    pub fn to_u8(&self) -> (r: u8)
        ensures
            r == spec_type_tag(*self),
            spec_type_of_tag(r) == Some(*self),
    {
        match self {
            MessageType::AddOrder => 1,
            MessageType::ModifyOrder => 2,
            MessageType::DeleteOrder => 3,
            MessageType::Trade => 4,
            MessageType::Snapshot => 5,
        }
    }
}

/// Decoded message header.
///
/// The single wire padding byte carries no information and is dropped
/// when a header is decoded.
#[derive(Debug, Clone, Copy, PartialEq, Eq, Structural)]
pub struct MessageHeader {
    pub msg_type: u8,
    pub length: u16,
    pub sequence: u32,
}

/// A new order entering the book; 46 bytes on the wire
/// (17 trailing padding bytes follow the `side` byte).
#[derive(Debug, Clone, Copy, PartialEq, Eq, Structural)]
pub struct AddOrder {
    pub header: MessageHeader,
    pub order_id: u64,
    /// Fixed-point price: price times 10^8.
    pub price: u64,
    pub quantity: u32,
    /// 0 = bid, 1 = ask; any other byte is invalid.
    pub side: u8,
}

/// A quantity change to a resting order; 26 bytes on the wire
/// (6 trailing padding bytes follow the quantity).
#[derive(Debug, Clone, Copy, PartialEq, Eq, Structural)]
pub struct ModifyOrder {
    pub header: MessageHeader,
    pub order_id: u64,
    pub new_quantity: u32,
}

/// Removal of a resting order; 16 bytes on the wire.
#[derive(Debug, Clone, Copy, PartialEq, Eq, Structural)]
pub struct DeleteOrder {
    pub header: MessageHeader,
    pub order_id: u64,
}

/// An execution against two resting orders; 38 bytes on the wire
/// (2 trailing padding bytes follow the quantity).
#[derive(Debug, Clone, Copy, PartialEq, Eq, Structural)]
pub struct Trade {
    pub header: MessageHeader,
    pub buyer_order_id: u64,
    pub seller_order_id: u64,
    /// Fixed-point price: price times 10^8.
    pub price: u64,
    pub quantity: u32,
}

/// Leading fields of a full-book snapshot; `num_bids` bid levels and
/// `num_asks` ask levels follow, 16 bytes each.
#[derive(Debug, Clone, Copy, PartialEq, Eq, Structural)]
pub struct SnapshotHeader {
    pub header: MessageHeader,
    pub num_bids: u32,
    pub num_asks: u32,
}

/// One price level inside a snapshot; 16 bytes on the wire
/// (4 trailing padding bytes follow the quantity).
#[derive(Debug, Clone, Copy, PartialEq, Eq, Structural)]
pub struct SnapshotLevel {
    /// Fixed-point price: price times 10^8.
    pub price: u64,
    pub quantity: u32,
}

} // verus!
