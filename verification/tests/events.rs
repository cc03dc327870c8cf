use meshcore_rs::error::Error;
use meshcore_rs::events::{encode, Contact, Event, EventPayload, EventType};

fn contact(public_key: [u8; 32]) -> Contact {
    Contact {
        public_key,
        contact_type: 1,
        flags: 0,
        path_len: -1,
        out_path: vec![],
        adv_name: "C".to_string(),
        last_advert: 0,
        adv_lat: 0,
        adv_lon: 0,
        last_modification_timestamp: 0,
    }
}

#[test]
fn attributes_read_back_last_write() {
    let e = Event::new(EventType::Ack, EventPayload::Empty)
        .with_attribute("tag".to_string(), "01".to_string())
        .with_attribute("other".to_string(), "x".to_string())
        .with_attribute("tag".to_string(), "02".to_string());
    let filters = vec![("tag".to_string(), "02".to_string())];
    assert!(e.matches_filters(&filters));
    let stale = vec![("tag".to_string(), "01".to_string())];
    assert!(!e.matches_filters(&stale));
    assert!(e.matches_filters(&vec![("other".to_string(), "x".to_string())]));
    assert_eq!(e.attributes.iter().filter(|(k, _)| k == "tag").count(), 1);
}

#[test]
fn empty_filters_match_and_subscription_checks_type() {
    let e = Event::ok();
    assert_eq!(e.event_type, EventType::Success);
    assert!(e.matches_filters(&Vec::new()));
    assert!(e.matches_subscription(EventType::Success, &Vec::new()));
    assert!(!e.matches_subscription(EventType::Error, &Vec::new()));
    let missing = vec![("tag".to_string(), "00".to_string())];
    assert!(!e.matches_filters(&missing));
}

#[test]
fn error_event_carries_text() {
    let e = Event::error("bad".to_string());
    assert_eq!(e.event_type, EventType::Error);
    match e.payload {
        EventPayload::Text(m) => assert_eq!(m, "bad"),
        other => panic!("unexpected payload {:?}", other),
    }
}

#[test]
fn contact_prefix_and_hex() {
    let mut key = [0u8; 32];
    key[0] = 0xAB;
    key[5] = 0x0F;
    key[31] = 0x01;
    let c = contact(key);
    assert_eq!(c.prefix(), [0xAB, 0, 0, 0, 0, 0x0F]);
    assert_eq!(c.prefix_hex(), "ab000000000f");
    assert_eq!(c.public_key_hex().len(), 64);
    assert!(c.public_key_hex().ends_with("01"));
    assert_eq!(encode(&[0x00, 0xFF, 0x10]), "00ff10");
}

#[test]
fn error_constructors() {
    assert!(matches!(Error::protocol("p".to_string()), Error::Protocol(m) if m == "p"));
    assert!(matches!(Error::timeout("t".to_string()), Error::Timeout(m) if m == "t"));
    assert!(matches!(Error::device("d".to_string()), Error::Device(m) if m == "d"));
    assert!(matches!(Error::connection("c".to_string()), Error::Connection(m) if m == "c"));
    assert!(matches!(Error::invalid_param("i".to_string()), Error::InvalidParameter(m) if m == "i"));
}
