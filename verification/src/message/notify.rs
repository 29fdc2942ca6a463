//! Notify messages: announcements a device multicasts about itself.

use vstd::prelude::*;

use crate::error::{SSDPError, SSDPErrorView, SSDPResult};
use crate::header::Header;
use crate::message::ssdp::{spec_from_packet, MessageView, SSDPMessage};
use crate::message::MessageType;
use crate::receiver::FromRawSSDP;

verus! {

/// Notify message that can be sent via multicast to devices on the network.
#[derive(Clone, Debug)]
pub struct NotifyMessage {
    pub message: SSDPMessage,
}

impl DeepView for NotifyMessage {
    type V = MessageView;

    open spec fn deep_view(&self) -> MessageView {
        self.message@
    }
}

impl NotifyMessage {
    /// Construct a new notify message with no headers.
    pub fn new() -> (r: NotifyMessage)
        ensures
            r.deep_view().method == MessageType::Notify,
            r.deep_view().headers == Seq::<(Seq<u8>, Seq<u8>)>::empty(),
    {
        NotifyMessage { message: SSDPMessage::new(MessageType::Notify) }
    }

    /// Set a typed header on this message.
    pub fn set<H: Header>(&mut self, value: H)
        ensures
            final(self).deep_view().method == old(self).deep_view().method,
            final(self).deep_view().headers == crate::header::spec_remove_name(
                old(self).deep_view().headers,
                H::wire_name(),
            ).push((H::wire_name(), H::encode_spec(value.deep_view()))),
    {
        self.message.set(value);
    }
}

impl Default for NotifyMessage {
    /// A notify message with no headers.
    fn default() -> (r: Self)
        ensures
            r.deep_view().method == MessageType::Notify,
            r.deep_view().headers == Seq::<(Seq<u8>, Seq<u8>)>::empty(),
    {
        NotifyMessage::new()
    }
}

impl FromRawSSDP for NotifyMessage {
    open spec fn decode_spec(bytes: Seq<u8>) -> Result<MessageView, SSDPErrorView> {
        match spec_from_packet(bytes) {
            Ok(m) => if m.method == MessageType::Notify {
                Ok(m)
            } else {
                Err(SSDPErrorView::UnexpectedMessageType(m.method))
            },
            Err(e) => Err(e),
        }
    }

    fn from_packet(bytes: &[u8]) -> (r: SSDPResult<NotifyMessage>) {
        match SSDPMessage::from_packet(bytes) {
            Ok(message) => {
                let kind = message.message_type();
                if kind == MessageType::Notify {
                    Ok(NotifyMessage { message })
                } else {
                    Err(SSDPError::UnexpectedMessageType(kind))
                }
            },
            Err(e) => Err(e),
        }
    }
}

/// Notify listener that can listen to notify messages sent within the
/// network; the sockets it drains live outside the library.
pub struct NotifyListener;

} // verus!
