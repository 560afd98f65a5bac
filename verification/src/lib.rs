//! Client-side protocol logic for the FutuOpenD quote and trade gateway:
//! the packet header and its byte layout, the framing of request packets,
//! stock code parsing, and the bookkeeping a connection keeps.

pub mod pb;
pub use pb::ProtoId;
pub mod common;
pub mod protocol;
