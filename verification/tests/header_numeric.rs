//! Tests for the numeric header codecs: BootID, ConfigID, MX, SearchPort.

use ssdp::header::{BootID, ConfigID, Header, SearchPort, MX};

fn one(value: &[u8]) -> Vec<Vec<u8>> {
    vec![value.to_vec()]
}

#[test]
fn positive_bootid() {
    BootID::decode(&one(b"1216907400")).unwrap();
}

#[test]
fn positive_leading_zeros() {
    BootID::decode(&one(b"0000001216907400")).unwrap();
}

#[test]
fn bootid_positive_lower_bound() {
    BootID::decode(&one(b"0")).unwrap();
}

#[test]
fn bootid_positive_upper_bound() {
    BootID::decode(&one(b"2147483647")).unwrap();
}

#[test]
fn bootid_positive_negative_zero() {
    BootID::decode(&one(b"-0")).unwrap();
}

#[test]
#[should_panic]
fn bootid_negative_overflow() {
    BootID::decode(&one(b"2290649224")).unwrap();
}

#[test]
#[should_panic]
fn bootid_negative_negative_overflow() {
    BootID::decode(&one(b"-2290649224")).unwrap();
}

#[test]
#[should_panic]
fn bootid_negative_nan() {
    BootID::decode(&one(b"2290wow649224")).unwrap();
}

#[test]
fn positive_configid() {
    ConfigID::decode(&one(b"1777215")).unwrap();
}

#[test]
fn positive_reserved() {
    ConfigID::decode(&one(b"20720000")).unwrap();
}

#[test]
fn configid_positive_lower_bound() {
    ConfigID::decode(&one(b"0")).unwrap();
}

#[test]
fn configid_positive_upper_bound() {
    ConfigID::decode(&one(b"2147483647")).unwrap();
}

#[test]
fn configid_positive_negative_zero() {
    ConfigID::decode(&one(b"-0")).unwrap();
}

#[test]
#[should_panic]
fn configid_negative_overflow() {
    ConfigID::decode(&one(b"2290649224")).unwrap();
}

#[test]
#[should_panic]
fn configid_negative_negative_overflow() {
    ConfigID::decode(&one(b"-2290649224")).unwrap();
}

#[test]
#[should_panic]
fn configid_negative_nan() {
    ConfigID::decode(&one(b"2290wow649224")).unwrap();
}

#[test]
fn mx_positive_lower_bound() {
    match MX::decode(&one(b"1")) {
        Some(n) if n == MX(1) => (),
        _ => panic!("Failed To Accept 1 As MX Value"),
    };
}

#[test]
fn positive_inner_bound() {
    match MX::decode(&one(b"5")) {
        Some(n) if n == MX(5) => (),
        _ => panic!("Failed To Accept 5 As MX Value"),
    };
}

#[test]
fn mx_positive_upper_bound() {
    match MX::decode(&one(b"120")) {
        Some(n) if n == MX(120) => (),
        _ => panic!("Failed To Accept 120 As MX Value"),
    };
}

#[test]
#[should_panic]
fn negative_decimal_bound() {
    MX::decode(&one(b"0.5")).unwrap();
}

#[test]
#[should_panic]
fn negative_negative_bound() {
    MX::decode(&one(b"-5")).unwrap();
}

#[test]
#[should_panic]
fn negative_too_high_bound() {
    MX::decode(&one(b"121")).unwrap();
}

#[test]
#[should_panic]
fn negative_zero_bound() {
    MX::decode(&one(b"0")).unwrap();
}

#[test]
fn positive_searchport() {
    SearchPort::decode(&one(b"50000")).unwrap();
}

#[test]
fn searchport_positive_lower_bound() {
    SearchPort::decode(&one(b"49152")).unwrap();
}

#[test]
fn searchport_positive_upper_bound() {
    SearchPort::decode(&one(b"65535")).unwrap();
}

#[test]
#[should_panic]
fn negative_reserved() {
    SearchPort::decode(&one(b"49151")).unwrap();
}

#[test]
#[should_panic]
fn searchport_negative_nan() {
    SearchPort::decode(&one(b"49151a")).unwrap();
}

#[test]
fn bootid_negative_zero_is_zero() {
    assert_eq!(BootID::decode(&one(b"-0")).unwrap(), BootID(0));
}

#[test]
fn numeric_round_trips() {
    let b = BootID(2147483647);
    assert_eq!(BootID::decode(&vec![b.encode()]).unwrap(), b);
    let c = ConfigID(0);
    assert_eq!(ConfigID::decode(&vec![c.encode()]).unwrap(), c);
    let m = MX(120);
    assert_eq!(MX::decode(&vec![m.encode()]).unwrap(), m);
    let p = SearchPort(49152);
    assert_eq!(SearchPort::decode(&vec![p.encode()]).unwrap(), p);
    assert_eq!(MX(7).encode(), b"7".to_vec());
    assert_eq!(BootID(1216907400).encode(), b"1216907400".to_vec());
}

#[test]
fn numeric_rejects_multiple_values() {
    assert!(BootID::decode(&vec![b"1".to_vec(), b"2".to_vec()]).is_none());
    assert!(ConfigID::decode(&vec![b"1".to_vec(), b"2".to_vec()]).is_none());
    assert!(BootID::decode(&Vec::new()).is_none());
}

#[test]
fn mx_new_bounds() {
    assert!(MX::new(1).is_ok());
    assert!(MX::new(120).is_ok());
    assert!(matches!(MX::new(0), Err(ssdp::SSDPError::InvalidHeader(_))));
    assert!(matches!(MX::new(121), Err(ssdp::SSDPError::InvalidHeader(_))));
}
