//! Tests for the message codec: decoding raw packets, serializing
//! messages, and the typed wrappers around both.

use ssdp::header::{Header, Host, MX};
use ssdp::message::{
    multicast_timeout, opt_unicast_timeout, MessageType, NotifyMessage, SSDPMessage,
    SearchRequest, SearchResponse,
};
use ssdp::{FromRawSSDP, SSDPError};

#[test]
fn positive_valid_http() {
    let raw_message = "NOTIFY * HTTP/1.1\r\nHOST: 192.168.1.1\r\n\r\n";
    SSDPMessage::from_packet(raw_message.as_bytes()).unwrap();
}

#[test]
fn positive_intact_header() {
    let raw_message = "NOTIFY * HTTP/1.1\r\nHOST: 192.168.1.1\r\n\r\n";
    let message = SSDPMessage::from_packet(raw_message.as_bytes()).unwrap();
    let host: Host = message.typed_get().unwrap();
    assert_eq!(host.hostname(), b"192.168.1.1".to_vec());
}

#[test]
#[should_panic]
fn negative_http_version() {
    let raw_message = "NOTIFY * HTTP/2.0\r\nHOST: 192.168.1.1\r\n\r\n";
    SSDPMessage::from_packet(raw_message.as_bytes()).unwrap();
}

#[test]
#[should_panic]
fn negative_no_host() {
    let raw_message = "NOTIFY * HTTP/1.1\r\n\r\n";
    SSDPMessage::from_packet(raw_message.as_bytes()).unwrap();
}

#[test]
#[should_panic]
fn negative_path_included() {
    let raw_message = "NOTIFY / HTTP/1.1\r\n\r\n";
    SSDPMessage::from_packet(raw_message.as_bytes()).unwrap();
}

#[test]
fn positive_search_method_line() {
    let message = SSDPMessage::new(MessageType::Search);
    let sent_message = String::from_utf8(message.serialize(b"127.0.0.1:0")).unwrap();
    assert_eq!(&sent_message[..19], "M-SEARCH * HTTP/1.1");
}

#[test]
fn positive_notify_method_line() {
    let message = SSDPMessage::new(MessageType::Notify);
    let sent_message = String::from_utf8(message.serialize(b"127.0.0.1:0")).unwrap();
    assert_eq!(&sent_message[..17], "NOTIFY * HTTP/1.1");
}

#[test]
fn positive_response_method_line() {
    let message = SSDPMessage::new(MessageType::Response);
    let sent_message = String::from_utf8(message.serialize(b"127.0.0.1:0")).unwrap();
    assert_eq!(&sent_message[..15], "HTTP/1.1 200 OK");
}

#[test]
fn positive_host_header() {
    let message = SSDPMessage::new(MessageType::Search);
    let sent_message = String::from_utf8(message.serialize(b"127.0.0.1:0")).unwrap();
    assert!(sent_message.contains("Host: 127.0.0.1:0"));
}

#[test]
fn positive_notify_message_type() {
    let raw_message = "NOTIFY * HTTP/1.1\r\nHOST: 192.168.1.1\r\n\r\n";
    NotifyMessage::from_packet(raw_message.as_bytes()).unwrap();
}

#[test]
#[should_panic]
fn negative_search_message_type() {
    let raw_message = "M-SEARCH * HTTP/1.1\r\nHOST: 192.168.1.1\r\n\r\n";
    NotifyMessage::from_packet(raw_message.as_bytes()).unwrap();
}

#[test]
#[should_panic]
fn negative_response_message_type() {
    let raw_message = "HTTP/1.1 200 OK\r\n\r\n";
    NotifyMessage::from_packet(raw_message.as_bytes()).unwrap();
}

#[test]
fn positive_multicast_timeout() {
    multicast_timeout(Some(MX(5))).unwrap();
}

#[test]
fn positive_some_opt_multicast_timeout() {
    opt_unicast_timeout(Some(MX(5))).unwrap();
}

#[test]
fn positive_none_opt_multicast_timeout() {
    opt_unicast_timeout(None).unwrap();
}

#[test]
#[should_panic]
fn negative_multicast_timeout() {
    multicast_timeout(None).unwrap();
}

#[test]
fn search_timeout_values() {
    assert_eq!(multicast_timeout(Some(MX(5))).unwrap(), 6);
    assert_eq!(opt_unicast_timeout(None), Some(2));
    assert_eq!(opt_unicast_timeout(Some(MX(5))), Some(6));
    assert!(matches!(
        multicast_timeout(None),
        Err(SSDPError::MissingHeader(name)) if name == b"mx".to_vec()
    ));
}

#[test]
fn notify_rejected_by_search_wrapper() {
    let raw_message = "NOTIFY * HTTP/1.1\r\nHOST: 192.168.1.1\r\n\r\n";
    assert!(matches!(
        SearchRequest::from_packet(raw_message.as_bytes()),
        Err(SSDPError::UnexpectedMessageType(MessageType::Notify))
    ));
    SearchResponse::from_packet("HTTP/1.1 200 OK\r\n\r\n".as_bytes()).unwrap();
}

#[test]
fn version_mismatch_is_dedicated_error() {
    let request = "NOTIFY * HTTP/2.0\r\nHOST: 192.168.1.1\r\n\r\n";
    assert!(matches!(
        SSDPMessage::from_packet(request.as_bytes()),
        Err(SSDPError::InvalidHttpVersion)
    ));
    let response = "HTTP/2.0 200 OK\r\nHOST: 192.168.1.1\r\n\r\n";
    assert!(matches!(
        SSDPMessage::from_packet(response.as_bytes()),
        Err(SSDPError::InvalidHttpVersion)
    ));
}

#[test]
fn bad_target_is_dedicated_error() {
    let raw_message = "NOTIFY / HTTP/1.1\r\nHOST: 192.168.1.1\r\n\r\n";
    assert!(matches!(
        SSDPMessage::from_packet(raw_message.as_bytes()),
        Err(SSDPError::InvalidUri(path)) if path == b"/".to_vec()
    ));
    // The target is checked before the Host header, so a bad target wins
    // even on a request that also lacks a Host.
    assert!(matches!(
        SSDPMessage::from_packet(b"NOTIFY / HTTP/1.1\r\n\r\n"),
        Err(SSDPError::InvalidUri(path)) if path == b"/".to_vec()
    ));
}

#[test]
fn trailing_body_is_dedicated_error() {
    let raw_message = "NOTIFY * HTTP/1.1\r\nHOST: 192.168.1.1\r\n\r\nbody";
    assert!(matches!(
        SSDPMessage::from_packet(raw_message.as_bytes()),
        Err(SSDPError::InvalidBodyForMethod(m)) if m == b"NOTIFY".to_vec()
    ));
}

#[test]
fn decode_error_variants() {
    assert!(matches!(
        SSDPMessage::from_packet(b"NOTIFY * HTTP/1.1\r\nHOST: x"),
        Err(SSDPError::PartialHttp)
    ));
    assert!(matches!(
        SSDPMessage::from_packet(b"NOT A REQUEST LINE\r\n\r\n"),
        Err(SSDPError::InvalidHttp(_))
    ));
    assert!(matches!(
        SSDPMessage::from_packet(b"HTTP/1.1 404 Not Found\r\n\r\n"),
        Err(SSDPError::ResponseCode(404))
    ));
    assert!(matches!(
        SSDPMessage::from_packet(b"GET * HTTP/1.1\r\nHOST: 192.168.1.1\r\n\r\n"),
        Err(SSDPError::InvalidMethod(m)) if m == b"GET".to_vec()
    ));
    assert!(matches!(
        SSDPMessage::from_packet(b"NOTIFY * HTTP/1.1\r\n\r\n"),
        Err(SSDPError::MissingHeader(h)) if h == b"host".to_vec()
    ));
}

#[test]
fn header_values_are_trimmed_and_case_insensitive() {
    let raw_message = "M-SEARCH * HTTP/1.1\r\nhOsT:   239.255.255.250:1900  \r\nMX: 3\r\n\r\n";
    let message = SSDPMessage::from_packet(raw_message.as_bytes()).unwrap();
    assert_eq!(message.message_type(), MessageType::Search);
    let host: Host = message.typed_get().unwrap();
    assert_eq!(host.0, b"239.255.255.250:1900".to_vec());
    assert_eq!(host.hostname(), b"239.255.255.250".to_vec());
    let mx: MX = message.typed_get().unwrap();
    assert_eq!(mx, MX(3));
}

#[test]
fn serialize_then_decode_round_trip() {
    let mut message = SSDPMessage::new(MessageType::Search);
    message.set(Man);
    message.set(MX(5));
    let bytes = message.serialize(b"239.255.255.250:1900");
    let decoded = SSDPMessage::from_packet(&bytes).unwrap();
    assert_eq!(decoded.message_type(), MessageType::Search);
    let mx: MX = decoded.typed_get().unwrap();
    assert_eq!(mx, MX(5));
    let man: Man = decoded.typed_get().unwrap();
    assert_eq!(man, Man);
}

use ssdp::header::Man;

#[test]
fn set_replaces_earlier_value() {
    let mut message = SSDPMessage::new(MessageType::Search);
    message.set(MX(5));
    message.set(MX(7));
    let mx: MX = message.typed_get().unwrap();
    assert_eq!(mx, MX(7));
    assert_eq!(message.headers().len(), 1);
}
