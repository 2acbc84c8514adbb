//! Market-data feed handler: fixed-layout binary messages are decoded into
//! typed views, applied to a price-level order book, checked for sequence
//! gaps, and resynchronised from full snapshots.

pub mod protocol;
pub mod decoder;
pub mod encoder;
pub mod levels;
pub mod book_builder;
pub mod recovery;
pub mod stats;
pub mod gap_detector;

pub use protocol::HEADER_SIZE;
pub use protocol::MessageType;
pub use protocol::MessageHeader;
pub use protocol::AddOrder;
pub use protocol::ModifyOrder;
pub use protocol::DeleteOrder;
pub use protocol::Trade;
pub use protocol::SnapshotHeader;
pub use protocol::SnapshotLevel;
pub use decoder::Decoder;
pub use encoder::encode_add_order;
pub use encoder::encode_modify_order;
pub use encoder::encode_delete_order;
pub use encoder::encode_trade;
pub use encoder::encode_snapshot;
pub use decoder::DecodeError;
pub use decoder::DecodeResult;
pub use decoder::MessageRef;
pub use decoder::SnapshotRef;
pub use book_builder::OrderBook;
pub use book_builder::Order;
pub use book_builder::Side;
pub use book_builder::BookDepth;
pub use book_builder::BookError;
pub use gap_detector::GapDetector;
pub use recovery::RecoveryManager;
pub use recovery::RecoveryError;
pub use stats::FeedStats;
pub use stats::LatencySummary;
