//! Tests for the transport decision logic and the receiver's datagram
//! draining.

use ssdp::message::{
    connector_addrs, filter_local_addrs, is_not_global_v6, plan_listen, Config,
};
use ssdp::net::packet::{PacketBuffer, MAX_PCKT_LEN};
use ssdp::net::{unicast_send_failed, IpAddr, NetifAddr};
use ssdp::{decode_datagrams, IpVersionMode};
use ssdp::message::SSDPMessage;

fn v4(a: u8, b: u8, c: u8, d: u8, index: u32) -> NetifAddr {
    NetifAddr { sock: IpAddr::V4(a, b, c, d), index }
}

fn v6(segments: [u16; 8], index: u32) -> NetifAddr {
    NetifAddr { sock: IpAddr::V6(segments), index }
}

#[test]
fn loopback_and_global_addresses_are_filtered() {
    let unique_local = [0xFD00, 0, 0, 0, 0, 0, 0, 1];
    let global = [0x2001, 0xDB8, 0, 0, 0, 0, 0, 1];
    let v6_loopback = [0, 0, 0, 0, 0, 0, 0, 1];
    let addrs = vec![
        v4(127, 0, 0, 1, 1),
        v4(192, 168, 1, 10, 2),
        v6(unique_local, 3),
        v6(global, 4),
        v6(v6_loopback, 5),
    ];
    let kept = filter_local_addrs(&addrs);
    assert_eq!(kept, vec![v4(192, 168, 1, 10, 2), v6(unique_local, 3)]);
}

#[test]
fn not_global_v6_classification() {
    assert!(is_not_global_v6(&[0, 0, 0, 0, 0, 0, 0, 0]));
    assert!(is_not_global_v6(&[0, 0, 0, 0, 0, 0, 0, 1]));
    assert!(is_not_global_v6(&[0xFC00, 0, 0, 0, 0, 0, 0, 1]));
    assert!(is_not_global_v6(&[0xFDFF, 0, 0, 0, 0, 0, 0, 1]));
    assert!(is_not_global_v6(&[0x2002, 0xC000, 0x0204, 0, 0, 0, 0, 1]));
    assert!(!is_not_global_v6(&[0x2001, 0xDB8, 0, 0, 0, 0, 0, 1]));
    assert!(!is_not_global_v6(&[0xFE80, 0, 0, 0, 0, 0, 0, 1]));
}

#[test]
fn connectors_respect_version_mode() {
    let unique_local = [0xFD00, 0, 0, 0, 0, 0, 0, 1];
    let addrs = vec![v4(10, 0, 0, 2, 1), v6(unique_local, 2), v4(127, 0, 0, 1, 3)];
    assert_eq!(
        connector_addrs(&addrs, &IpVersionMode::V4Only),
        vec![v4(10, 0, 0, 2, 1)]
    );
    assert_eq!(
        connector_addrs(&addrs, &IpVersionMode::V6Only),
        vec![v6(unique_local, 2)]
    );
    assert_eq!(
        connector_addrs(&addrs, &IpVersionMode::Any),
        vec![v4(10, 0, 0, 2, 1), v6(unique_local, 2)]
    );
}

#[test]
fn listen_plan_binds_only_needed_families() {
    let addrs = vec![v4(10, 0, 0, 2, 1), v4(127, 0, 0, 1, 2)];
    let plan = plan_listen(&addrs);
    assert!(plan.bind_v4);
    assert!(!plan.bind_v6);
    assert_eq!(plan.joins, vec![v4(10, 0, 0, 2, 1)]);
}

#[test]
fn version_mode_from_destination() {
    assert_eq!(IpAddr::V4(192, 168, 1, 1).version_mode(), IpVersionMode::V4Only);
    assert_eq!(
        IpAddr::V6([0xFD00, 0, 0, 0, 0, 0, 0, 1]).version_mode(),
        IpVersionMode::V6Only
    );
}

#[test]
fn unicast_send_policy() {
    assert!(unicast_send_failed(0, 3));
    assert!(!unicast_send_failed(1, 3));
    assert!(!unicast_send_failed(0, 0));
}

#[test]
fn receiver_drops_malformed_datagrams() {
    let good = b"NOTIFY * HTTP/1.1\r\nHOST: 192.168.1.1\r\n\r\n".to_vec();
    let bad = b"garbage that is not a message\r\n\r\n".to_vec();
    let datagrams: Vec<(Vec<u8>, u32)> = vec![(good, 7), (bad, 7)];
    let decoded: Vec<(SSDPMessage, u32)> = decode_datagrams(&datagrams);
    assert_eq!(decoded.len(), 1);
    assert_eq!(decoded[0].1, 7);
}

#[test]
fn receiver_keeps_arrival_order() {
    let first = b"NOTIFY * HTTP/1.1\r\nHOST: a\r\n\r\n".to_vec();
    let second = b"M-SEARCH * HTTP/1.1\r\nHOST: b\r\n\r\n".to_vec();
    let datagrams: Vec<(Vec<u8>, u8)> = vec![(first, 1), (b"junk".to_vec(), 9), (second, 2)];
    let decoded: Vec<(SSDPMessage, u8)> = decode_datagrams(&datagrams);
    assert_eq!(decoded.len(), 2);
    assert_eq!(decoded[0].1, 1);
    assert_eq!(decoded[1].1, 2);
}

#[test]
fn packet_buffer_caps_writes() {
    let mut buffer = PacketBuffer::new();
    let taken = buffer.write(&[1, 2, 3]);
    assert_eq!(taken, 3);
    assert_eq!(buffer.as_slice(), &[1, 2, 3]);
    let big = vec![0u8; MAX_PCKT_LEN + 100];
    let taken = buffer.write(&big);
    assert_eq!(taken, MAX_PCKT_LEN - 3);
    assert_eq!(buffer.as_slice().len(), MAX_PCKT_LEN);
    buffer.clear();
    assert_eq!(buffer.as_slice().len(), 0);
}

#[test]
fn packet_buffer_vectored_writes() {
    let mut buffer = PacketBuffer::new();
    let written = buffer.write_vectored(&vec![vec![1, 2], vec![3]]);
    assert_eq!(written, 3);
    assert_eq!(buffer.as_slice(), &[1, 2, 3]);
}

#[test]
fn config_builder_and_defaults() {
    let config = Config::new();
    assert_eq!(config.ipv4_addr, "239.255.255.250");
    assert_eq!(config.ipv6_addr, "FF05::C");
    assert_eq!(config.port, 1900);
    assert_eq!(config.ttl, 2);
    assert_eq!(config.mode, IpVersionMode::Any);
    let config = config
        .set_ipv4_addr("239.255.255.251".to_string())
        .set_port(1901)
        .set_ttl(4)
        .set_mode(IpVersionMode::V4Only);
    assert_eq!(config.ipv4_addr, "239.255.255.251");
    assert_eq!(config.port, 1901);
    assert_eq!(config.ttl, 4);
    assert_eq!(config.mode, IpVersionMode::V4Only);
    let other: Config = Default::default();
    assert_eq!(other.ipv6_addr, "FF05::C");
}
