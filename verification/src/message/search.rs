//! Search messages: the request a searcher multicasts or unicasts, the
//! response a device answers with, and the wait bounds both sides obey.

use vstd::prelude::*;

use crate::error::{SSDPError, SSDPErrorView, SSDPResult};
use crate::header::{Header, MX};
use crate::message::ssdp::{spec_from_packet, MessageView, SSDPMessage};
use crate::message::MessageType;
use crate::receiver::FromRawSSDP;

verus! {

/// Overhead to add to device response times to account for transport time,
/// in seconds.
pub const NETWORK_TIMEOUT_OVERHEAD: u8 = 1;

/// Devices are required to respond within one second of receiving a
/// unicast message; one more second covers the transport.
pub const DEFAULT_UNICAST_TIMEOUT: u8 = 1 + NETWORK_TIMEOUT_OVERHEAD;

/// The wait for a multicast search, in seconds: the MX bound plus the
/// transport overhead. A multicast search without an MX header cannot be
/// sent at all; the missing header is reported by its wire name.
pub fn multicast_timeout(mx: Option<MX>) -> (r: SSDPResult<u64>)
    ensures
        match mx {
            Some(m) => r == Ok::<u64, SSDPError>((m.0 + NETWORK_TIMEOUT_OVERHEAD) as u64),
            None => r matches Err(SSDPError::MissingHeader(h)) && h@ == MX::wire_name(),
        },
{
    match mx {
        Some(m) => Ok((m.0 as u64) + (NETWORK_TIMEOUT_OVERHEAD as u64)),
        None => Err(SSDPError::MissingHeader(MX::name())),
    }
}

/// The wait for a unicast search, in seconds: the MX bound plus the
/// transport overhead where an MX header is set, or the mandated
/// one-second response window plus the overhead where none is.
pub fn opt_unicast_timeout(mx: Option<MX>) -> (r: Option<u64>)
    ensures
        match mx {
            Some(m) => r == Some((m.0 + NETWORK_TIMEOUT_OVERHEAD) as u64),
            None => r == Some(DEFAULT_UNICAST_TIMEOUT as u64),
        },
{
    match mx {
        Some(m) => Some((m.0 as u64) + (NETWORK_TIMEOUT_OVERHEAD as u64)),
        None => Some(DEFAULT_UNICAST_TIMEOUT as u64),
    }
}

/// Search request that can be sent via unicast or multicast to devices on
/// the network.
#[derive(Clone, Debug)]
pub struct SearchRequest {
    pub message: SSDPMessage,
}

impl DeepView for SearchRequest {
    type V = MessageView;

    open spec fn deep_view(&self) -> MessageView {
        self.message@
    }
}

impl SearchRequest {
    /// Construct a new search request with no headers.
    pub fn new() -> (r: SearchRequest)
        ensures
            r.deep_view().method == MessageType::Search,
            r.deep_view().headers == Seq::<(Seq<u8>, Seq<u8>)>::empty(),
    {
        SearchRequest { message: SSDPMessage::new(MessageType::Search) }
    }

    /// Set a typed header on this request.
    pub fn set<H: Header>(&mut self, value: H)
        ensures
            final(self).deep_view().method == old(self).deep_view().method,
            final(self).deep_view().headers == crate::header::spec_remove_name(
                old(self).deep_view().headers,
                H::wire_name(),
            ).push((H::wire_name(), H::encode_spec(value.deep_view()))),
    {
        self.message.set(value);
    }
}

impl Default for SearchRequest {
    /// A search request with no headers.
    fn default() -> (r: Self)
        ensures
            r.deep_view().method == MessageType::Search,
            r.deep_view().headers == Seq::<(Seq<u8>, Seq<u8>)>::empty(),
    {
        SearchRequest::new()
    }
}

impl FromRawSSDP for SearchRequest {
    open spec fn decode_spec(bytes: Seq<u8>) -> Result<MessageView, SSDPErrorView> {
        match spec_from_packet(bytes) {
            Ok(m) => if m.method == MessageType::Search {
                Ok(m)
            } else {
                Err(SSDPErrorView::UnexpectedMessageType(m.method))
            },
            Err(e) => Err(e),
        }
    }

    fn from_packet(bytes: &[u8]) -> (r: SSDPResult<SearchRequest>) {
        match SSDPMessage::from_packet(bytes) {
            Ok(message) => {
                let kind = message.message_type();
                if kind == MessageType::Search {
                    Ok(SearchRequest { message })
                } else {
                    Err(SSDPError::UnexpectedMessageType(kind))
                }
            },
            Err(e) => Err(e),
        }
    }
}

/// Search response that can be received or sent via unicast to devices on
/// the network.
#[derive(Clone, Debug)]
pub struct SearchResponse {
    pub message: SSDPMessage,
}

impl DeepView for SearchResponse {
    type V = MessageView;

    open spec fn deep_view(&self) -> MessageView {
        self.message@
    }
}

impl SearchResponse {
    /// Construct a new search response with no headers.
    pub fn new() -> (r: SearchResponse)
        ensures
            r.deep_view().method == MessageType::Response,
            r.deep_view().headers == Seq::<(Seq<u8>, Seq<u8>)>::empty(),
    {
        SearchResponse { message: SSDPMessage::new(MessageType::Response) }
    }

    /// Set a typed header on this response.
    pub fn set<H: Header>(&mut self, value: H)
        ensures
            final(self).deep_view().method == old(self).deep_view().method,
            final(self).deep_view().headers == crate::header::spec_remove_name(
                old(self).deep_view().headers,
                H::wire_name(),
            ).push((H::wire_name(), H::encode_spec(value.deep_view()))),
    {
        self.message.set(value);
    }
}

impl Default for SearchResponse {
    /// A search response with no headers.
    fn default() -> (r: Self)
        ensures
            r.deep_view().method == MessageType::Response,
            r.deep_view().headers == Seq::<(Seq<u8>, Seq<u8>)>::empty(),
    {
        SearchResponse::new()
    }
}

impl FromRawSSDP for SearchResponse {
    open spec fn decode_spec(bytes: Seq<u8>) -> Result<MessageView, SSDPErrorView> {
        match spec_from_packet(bytes) {
            Ok(m) => if m.method == MessageType::Response {
                Ok(m)
            } else {
                Err(SSDPErrorView::UnexpectedMessageType(m.method))
            },
            Err(e) => Err(e),
        }
    }

    fn from_packet(bytes: &[u8]) -> (r: SSDPResult<SearchResponse>) {
        match SSDPMessage::from_packet(bytes) {
            Ok(message) => {
                let kind = message.message_type();
                if kind == MessageType::Response {
                    Ok(SearchResponse { message })
                } else {
                    Err(SSDPError::UnexpectedMessageType(kind))
                }
            },
            Err(e) => Err(e),
        }
    }
}

/// Search listener that can listen for search responses sent within the
/// network; the sockets it drains live outside the library.
pub struct SearchListener;

} // verus!
