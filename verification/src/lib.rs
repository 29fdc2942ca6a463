//! Service discovery on a local network (SSDP, the discovery layer of UPnP).
//!
//! Discovery messages are HTTP-shaped datagrams carried over UDP. This crate
//! holds the verified core of that exchange: the `key:value` field grammar,
//! the typed header codecs, the message codec that turns raw bytes into a
//! discovery message and back, and the pure decision logic of the transport
//! and receiver layers. Socket plumbing lives outside the verified library.

pub mod ascii;
mod error;
pub mod field;
pub mod header;
pub mod message;
pub mod net;
pub mod receiver;

pub use crate::error::{SSDPError, SSDPErrorView, SSDPResult};
pub use crate::field::{partition_pairs, FieldMap, FieldToken};
pub use crate::net::IpVersionMode;
pub use crate::receiver::{decode_datagrams, FromRawSSDP};
