//! Everything that can go wrong when dealing with a discovery message.

use vstd::prelude::*;

use crate::message::MessageType;

verus! {

/// Enumerates all errors that can occur when dealing with a discovery message.
#[derive(Clone, Debug, PartialEq, Eq)]
pub enum SSDPError {
    /// Message is not valid HTTP; the raw message bytes are kept.
    InvalidHttp(Vec<u8>),
    /// Message ends before the header block terminator.
    PartialHttp,
    /// Message did not specify HTTP/1.1 as its version.
    InvalidHttpVersion,
    /// Response consists of an error code; the code is kept.
    ResponseCode(u16),
    /// Method supplied is not a valid discovery method; the method is kept.
    InvalidMethod(Vec<u8>),
    /// Target supplied is not the discovery target; the target is kept.
    InvalidUri(Vec<u8>),
    /// A message of this method may not carry a body; the method is kept.
    InvalidBodyForMethod(Vec<u8>),
    /// A required header is missing; its lower-case wire name is kept.
    MissingHeader(Vec<u8>),
    /// A header value was rejected by its typed codec; the header's
    /// lower-case wire name is kept.
    InvalidHeader(Vec<u8>),
    /// A decoded message is not of the kind this entry point expects; the
    /// kind found is kept.
    UnexpectedMessageType(MessageType),
}


/// The mathematical image of an `SSDPError`.
pub enum SSDPErrorView {
    InvalidHttp(Seq<u8>),
    PartialHttp,
    InvalidHttpVersion,
    ResponseCode(u16),
    InvalidMethod(Seq<u8>),
    InvalidUri(Seq<u8>),
    InvalidBodyForMethod(Seq<u8>),
    MissingHeader(Seq<u8>),
    InvalidHeader(Seq<u8>),
    UnexpectedMessageType(MessageType),
}

impl DeepView for SSDPError {
    type V = SSDPErrorView;

    open spec fn deep_view(&self) -> SSDPErrorView {
        match self {
            SSDPError::InvalidHttp(b) => SSDPErrorView::InvalidHttp(b@),
            SSDPError::PartialHttp => SSDPErrorView::PartialHttp,
            SSDPError::InvalidHttpVersion => SSDPErrorView::InvalidHttpVersion,
            SSDPError::ResponseCode(c) => SSDPErrorView::ResponseCode(*c),
            SSDPError::InvalidMethod(m) => SSDPErrorView::InvalidMethod(m@),
            SSDPError::InvalidUri(u) => SSDPErrorView::InvalidUri(u@),
            SSDPError::InvalidBodyForMethod(m) => SSDPErrorView::InvalidBodyForMethod(m@),
            SSDPError::MissingHeader(h) => SSDPErrorView::MissingHeader(h@),
            SSDPError::InvalidHeader(h) => SSDPErrorView::InvalidHeader(h@),
            SSDPError::UnexpectedMessageType(t) => SSDPErrorView::UnexpectedMessageType(*t),
        }
    }
}

pub type SSDPResult<T> = Result<T, SSDPError>;

} // verus!
