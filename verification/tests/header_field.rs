//! Tests for the field-token header codecs: NT, ST, USN, and the field
//! grammar itself.

use ssdp::header::{Header, NT, ST, USN};
use ssdp::FieldMap::{self, UPnP, Unknown, URN, UUID};

fn one(value: &[u8]) -> Vec<Vec<u8>> {
    vec![value.to_vec()]
}

#[test]
fn positive_uuid() {
    let data = match NT::decode(&one(b"uuid:a984bc8c-aaf0-5dff-b980-00d098bda247")) {
        Some(NT(UUID(n))) => n,
        _ => panic!("uuid Token Not Parsed"),
    };
    assert_eq!(data, b"a984bc8c-aaf0-5dff-b980-00d098bda247".to_vec());
}

#[test]
fn positive_upnp() {
    let data = match NT::decode(&one(b"upnp:rootdevice")) {
        Some(NT(UPnP(n))) => n,
        _ => panic!("upnp Token Not Parsed"),
    };
    assert_eq!(data, b"rootdevice".to_vec());
}

#[test]
fn positive_urn() {
    let data = match NT::decode(&one(b"urn:schemas-upnp-org:device:printer:1")) {
        Some(NT(URN(n))) => n,
        _ => panic!("urn Token Not Parsed"),
    };
    assert_eq!(data, b"schemas-upnp-org:device:printer:1".to_vec());
}

#[test]
fn positive_unknown() {
    let (k, v) = match NT::decode(&one(b"max-age:1500::upnp:rootdevice")) {
        Some(NT(Unknown(k, v))) => (k, v),
        _ => panic!("Unknown Token Not Parsed"),
    };
    assert_eq!(k, b"max-age".to_vec());
    assert_eq!(v, b"1500::upnp:rootdevice".to_vec());
}

#[test]
fn positive_short_field() {
    let (k, v) = match NT::decode(&one(b"a:a")) {
        Some(NT(Unknown(k, v))) => (k, v),
        _ => panic!("Unknown Short Token Not Parsed"),
    };
    assert_eq!(k, b"a".to_vec());
    assert_eq!(v, b"a".to_vec());
}

#[test]
fn positive_leading_double_colon() {
    let result = match NT::decode(&one(b"uuid::a984bc8c-aaf0-5dff-b980-00d098bda247")).unwrap() {
        NT(UUID(n)) => n,
        _ => panic!("NT Double Colon Failed To Parse"),
    };
    assert_eq!(result, b":a984bc8c-aaf0-5dff-b980-00d098bda247".to_vec());
}

#[test]
#[should_panic]
fn nt_negative_double_colon() {
    NT::decode(&one(b"::")).unwrap();
}

#[test]
#[should_panic]
fn negative_single_colon() {
    NT::decode(&one(b":")).unwrap();
}

#[test]
#[should_panic]
fn negative_empty_field() {
    NT::decode(&one(b"")).unwrap();
}

#[test]
#[should_panic]
fn negative_no_colon() {
    NT::decode(&one(b"some_key-some_value")).unwrap();
}

#[test]
fn positive_all() {
    match ST::decode(&one(b"ssdp:all")) {
        Some(ST::All) => (),
        _ => panic!("Failed To Match ST::All Header"),
    }
}

#[test]
fn positive_field_upnp() {
    match ST::decode(&one(b"upnp:some_identifier")) {
        Some(ST::Target(UPnP(_))) => (),
        _ => panic!("Failed To Match ST::Target Header To FieldMap::UPnP"),
    }
}

#[test]
fn positive_field_urn() {
    match ST::decode(&one(b"urn:some_identifier")) {
        Some(ST::Target(URN(_))) => (),
        _ => panic!("Failed To Match ST::Target Header To FieldMap::URN"),
    }
}

#[test]
fn positive_field_uuid() {
    match ST::decode(&one(b"uuid:some_identifier")) {
        Some(ST::Target(UUID(_))) => (),
        _ => panic!("Failed To Match ST::Target Header To FieldMap::UUID"),
    }
}

#[test]
#[should_panic]
fn negative_multiple_headers() {
    let values = vec![b"uuid:some_identifier".to_vec(), b"ssdp:all".to_vec()];
    ST::decode(&values).unwrap();
}

#[test]
fn positive_double_pair() {
    let USN(first, second) = USN::decode(&one(b"uuid:device-UUID::upnp:rootdevice")).unwrap();
    match first {
        UUID(n) => assert_eq!(n, b"device-UUID".to_vec()),
        _ => panic!("Didnt Match uuid"),
    };
    match second.unwrap() {
        UPnP(n) => assert_eq!(n, b"rootdevice".to_vec()),
        _ => panic!("Didnt Match upnp"),
    };
}

#[test]
fn positive_single_pair() {
    let USN(first, second) = USN::decode(&one(b"urn:device-URN")).unwrap();
    match first {
        URN(n) => assert_eq!(n, b"device-URN".to_vec()),
        _ => panic!("Didnt Match urn"),
    };
    assert!(second.is_none());
}

#[test]
fn positive_trailing_double_colon() {
    let USN(first, second) = USN::decode(&one(b"upnp:device-UPnP::")).unwrap();
    match first {
        UPnP(n) => assert_eq!(n, b"device-UPnP".to_vec()),
        _ => panic!("Didnt Match upnp"),
    };
    assert!(second.is_none());
}

#[test]
fn positive_trailing_single_colon() {
    let USN(first, second) = USN::decode(&one(b"some-key:device-UPnP:")).unwrap();
    match first {
        Unknown(k, v) => {
            assert_eq!(k, b"some-key".to_vec());
            assert_eq!(v, b"device-UPnP".to_vec());
        }
        _ => panic!("Didnt Match upnp"),
    };
    assert!(second.is_none());
}

#[test]
#[should_panic]
fn usn_negative_empty() {
    USN::decode(&one(b"")).unwrap();
}

#[test]
#[should_panic]
fn negative_colon() {
    USN::decode(&one(b":")).unwrap();
}

#[test]
#[should_panic]
fn usn_negative_double_colon() {
    USN::decode(&one(b"::")).unwrap();
}

#[test]
#[should_panic]
fn negative_double_colon_value() {
    USN::decode(&one(b"uuid:::")).unwrap();
}

#[test]
fn usn_second_partition_must_parse() {
    let values = vec![b"uuid:device-UUID::rootdevice".to_vec()];
    assert!(USN::decode(&values).is_none());
}

#[test]
fn field_map_scenarios() {
    assert_eq!(
        FieldMap::parse_bytes(b"uuid:a"),
        Some(UUID(b"a".to_vec()))
    );
    assert_eq!(
        FieldMap::parse_bytes(b"upnp:rootdevice"),
        Some(UPnP(b"rootdevice".to_vec()))
    );
    assert_eq!(FieldMap::parse_bytes(b"urn:x"), Some(URN(b"x".to_vec())));
    assert_eq!(
        FieldMap::parse_bytes(b"k:v"),
        Some(Unknown(b"k".to_vec(), b"v".to_vec()))
    );
    assert_eq!(FieldMap::parse_bytes(b""), None);
    assert_eq!(FieldMap::parse_bytes(b":"), None);
    assert_eq!(
        FieldMap::parse_bytes(b"uuid::a"),
        Some(UUID(b":a".to_vec()))
    );
    assert_eq!(
        FieldMap::parse_bytes(b"UuId:a"),
        Some(UUID(b"a".to_vec()))
    );
}

#[test]
fn field_map_round_trips() {
    for token in [
        UUID(b"device-UUID".to_vec()),
        UPnP(b"rootdevice".to_vec()),
        URN(b"schemas-upnp-org:device:printer:1".to_vec()),
        Unknown(b"max-age".to_vec(), b"1500".to_vec()),
    ] {
        assert_eq!(FieldMap::parse_bytes(&token.encode()), Some(token));
    }
}

#[test]
fn partition_pairs_scenarios() {
    assert_eq!(
        ssdp::partition_pairs(b"uuid:device-UUID::upnp:rootdevice"),
        Some((b"uuid:device-UUID".to_vec(), Some(b"upnp:rootdevice".to_vec())))
    );
    assert_eq!(
        ssdp::partition_pairs(b"urn:device-URN"),
        Some((b"urn:device-URN".to_vec(), None))
    );
    assert_eq!(
        ssdp::partition_pairs(b"upnp:device-UPnP::"),
        Some((b"upnp:device-UPnP".to_vec(), None))
    );
    assert_eq!(ssdp::partition_pairs(b""), None);
    assert_eq!(ssdp::partition_pairs(b"::"), None);
}

#[test]
fn st_usn_round_trips() {
    let st = ST::Target(UUID(b"device".to_vec()));
    assert_eq!(ST::decode(&vec![st.encode()]).unwrap(), st);
    assert_eq!(ST::decode(&vec![ST::All.encode()]).unwrap(), ST::All);
    let usn = USN(UUID(b"device-UUID".to_vec()), Some(UPnP(b"rootdevice".to_vec())));
    assert_eq!(USN::decode(&vec![usn.encode()]).unwrap(), usn);
    let nt = NT(URN(b"schemas".to_vec()));
    assert_eq!(NT::decode(&vec![nt.encode()]).unwrap(), nt);
}
