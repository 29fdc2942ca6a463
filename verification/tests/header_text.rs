//! Tests for the literal-valued header codecs: Man, NTS, SecureLocation.

use ssdp::header::{Header, Man, SecureLocation, NTS};

fn one(value: &[u8]) -> Vec<Vec<u8>> {
    vec![value.to_vec()]
}

#[test]
fn positive_man() {
    Man::decode(&one(b"\"ssdp:discover\"")).unwrap();
}

#[test]
#[should_panic]
fn negative_wrong_case() {
    Man::decode(&one(b"\"SSDP:discover\"")).unwrap();
}

#[test]
#[should_panic]
fn negative_missing_quotes() {
    Man::decode(&one(b"ssdp:discover")).unwrap();
}

#[test]
fn positive_alive() {
    match NTS::decode(&one(b"ssdp:alive")) {
        Some(NTS::Alive) => (),
        _ => panic!("Didn't Match With NTS::Alive"),
    };
}

#[test]
fn positive_update() {
    match NTS::decode(&one(b"ssdp:update")) {
        Some(NTS::Update) => (),
        _ => panic!("Didn't Match With NTS::Update"),
    };
}

#[test]
fn positive_byebye() {
    match NTS::decode(&one(b"ssdp:byebye")) {
        Some(NTS::ByeBye) => (),
        _ => panic!("Didn't Match With NTS::ByeBye"),
    };
}

#[test]
#[should_panic]
fn negative_alive_extra() {
    NTS::decode(&one(b"ssdp:alive_someotherbytes")).unwrap();
}

#[test]
#[should_panic]
fn negative_unknown() {
    NTS::decode(&one(b"ssdp:somestring")).unwrap();
}

#[test]
#[should_panic]
fn nts_negative_empty() {
    NTS::decode(&one(b"")).unwrap();
}

#[test]
#[should_panic]
fn negative_no_value() {
    NTS::decode(&one(b"ssdp:")).unwrap();
}

#[test]
fn positive_securelocation() {
    SecureLocation::decode(&one(b"https://192.168.1.1/")).unwrap();
}

#[test]
fn positive_invalid_url() {
    SecureLocation::decode(&one(b"just some text")).unwrap();
}

#[test]
#[should_panic]
fn securelocation_negative_empty() {
    SecureLocation::decode(&one(b"")).unwrap();
}

#[test]
#[should_panic]
fn negative_invalid_utf8() {
    SecureLocation::decode(&one(b"https://192.168.1.1/\x80")).unwrap();
}

#[test]
fn man_and_nts_round_trips() {
    assert_eq!(Man::decode(&vec![Man.encode()]).unwrap(), Man);
    assert_eq!(NTS::decode(&vec![NTS::Alive.encode()]).unwrap(), NTS::Alive);
    assert_eq!(NTS::decode(&vec![NTS::Update.encode()]).unwrap(), NTS::Update);
    assert_eq!(NTS::decode(&vec![NTS::ByeBye.encode()]).unwrap(), NTS::ByeBye);
    let loc = SecureLocation(b"https://192.168.1.1/".to_vec());
    assert_eq!(SecureLocation::decode(&vec![loc.encode()]).unwrap(), loc);
}

#[test]
fn header_names_are_canonical() {
    assert_eq!(Man::name(), b"man".to_vec());
    assert_eq!(NTS::name(), b"nts".to_vec());
    assert_eq!(SecureLocation::name(), b"securelocation.upnp.org".to_vec());
}
