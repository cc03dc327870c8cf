use meshcore_rs::cache::ClientCache;
use meshcore_rs::events::{Contact, Event, EventPayload, EventType, SelfInfo};
use meshcore_rs::parsing::hex_encode;

fn make_contact(name: &str, public_key: [u8; 32]) -> Contact {
    Contact {
        public_key,
        contact_type: 1,
        flags: 0,
        path_len: -1,
        out_path: vec![],
        adv_name: name.to_string(),
        last_advert: 0,
        adv_lat: 0,
        adv_lon: 0,
        last_modification_timestamp: 0,
    }
}

fn self_info(name: &str) -> SelfInfo {
    SelfInfo {
        adv_type: 0,
        tx_power: 0,
        max_tx_power: 0,
        public_key: [0; 32],
        adv_lat: 0,
        adv_lon: 0,
        multi_acks: 0,
        adv_loc_policy: 0,
        telemetry_mode_base: 0,
        telemetry_mode_loc: 0,
        telemetry_mode_env: 0,
        manual_add_contacts: false,
        radio_freq: 0,
        radio_bw: 0,
        sf: 0,
        cr: 0,
        name: name.to_string(),
    }
}

#[test]
fn test_contacts_initial_empty() {
    let cache = ClientCache::new();
    assert!(cache.contacts().is_empty());
}

#[test]
fn test_self_info_initial_none() {
    let cache = ClientCache::new();
    assert!(cache.self_info().is_none());
}

#[test]
fn test_device_time_initial_none() {
    let cache = ClientCache::new();
    assert!(cache.device_time().is_none());
}

#[test]
fn test_contacts_dirty_initial_true() {
    let cache = ClientCache::new();
    assert!(cache.contacts_dirty());
}

#[test]
fn test_get_contact_by_name_found() {
    let mut cache = ClientCache::new();
    let mut key = [0u8; 32];
    key[0] = 0xAA;
    cache.insert_contact(make_contact("Alice", key));

    let result = cache.get_contact_by_name("Alice");
    assert!(result.is_some());
    assert_eq!(result.unwrap().adv_name, "Alice");
}

#[test]
fn test_get_contact_by_name_case_insensitive() {
    let mut cache = ClientCache::new();
    let mut key = [0u8; 32];
    key[0] = 0xBB;
    cache.insert_contact(make_contact("Bob", key));

    let result = cache.get_contact_by_name("bob");
    assert!(result.is_some());
    assert_eq!(result.unwrap().adv_name, "Bob");

    let result = cache.get_contact_by_name("BOB");
    assert!(result.is_some());
}

#[test]
fn test_get_contact_by_name_not_found() {
    let cache = ClientCache::new();
    let result = cache.get_contact_by_name("Nobody");
    assert!(result.is_none());
}

#[test]
fn test_get_contact_by_prefix_found() {
    let mut cache = ClientCache::new();
    let mut key = [0u8; 32];
    key[0] = 0x01;
    key[1] = 0x02;
    key[2] = 0x03;
    cache.insert_contact(make_contact("Charlie", key));

    let result = cache.get_contact_by_prefix(&[0x01, 0x02, 0x03]);
    assert!(result.is_some());
    assert_eq!(result.unwrap().adv_name, "Charlie");
}

#[test]
fn test_get_contact_by_prefix_partial_match() {
    let mut cache = ClientCache::new();
    let mut key = [0u8; 32];
    key[0] = 0xDE;
    key[1] = 0xAD;
    cache.insert_contact(make_contact("Dave", key));

    let result = cache.get_contact_by_prefix(&[0xDE]);
    assert!(result.is_some());
}

#[test]
fn test_get_contact_by_prefix_not_found() {
    let cache = ClientCache::new();
    let result = cache.get_contact_by_prefix(&[0xFF, 0xFF]);
    assert!(result.is_none());
}

#[test]
fn test_get_contact_by_prefix_empty() {
    let mut cache = ClientCache::new();
    let mut key = [0u8; 32];
    key[0] = 0x01;
    cache.insert_contact(make_contact("Eve", key));

    // Empty prefix matches everything
    let result = cache.get_contact_by_prefix(&[]);
    assert!(result.is_some());
}

#[test]
fn test_setup_event_handlers_contacts() {
    let mut cache = ClientCache::new();
    let contact = make_contact("Handler Test", [0x11; 32]);
    cache.on_event(Event::new(EventType::Contacts, EventPayload::Contacts(vec![contact])));

    assert_eq!(cache.contacts().len(), 1);
    assert!(!cache.contacts_dirty());
}

#[test]
fn test_setup_event_handlers_self_info() {
    let mut cache = ClientCache::new();
    cache.on_event(Event::new(EventType::SelfInfo, EventPayload::SelfInfo(self_info("TestDevice"))));

    let info = cache.self_info();
    assert!(info.is_some());
    assert_eq!(info.as_ref().unwrap().name, "TestDevice");
}

#[test]
fn test_setup_event_handlers_current_time() {
    let mut cache = ClientCache::new();
    cache.on_event(Event::new(EventType::CurrentTime, EventPayload::Time(1234567890)));
    assert_eq!(cache.device_time(), Some(1234567890));
}

#[test]
fn test_setup_event_handlers_new_contact() {
    let mut cache = ClientCache::new();
    let contact = make_contact("NewPeer", [0x22; 32]);
    cache.on_event(Event::new(EventType::NewContact, EventPayload::Contact(contact)));

    let contacts = cache.contacts();
    assert_eq!(contacts.len(), 1);
    let key_hex = hex_encode(&[0x22; 32]);
    assert_eq!(hex_encode(&contacts[0].public_key), key_hex);
}

#[test]
fn same_key_replaces_entry() {
    let mut cache = ClientCache::new();
    cache.insert_contact(make_contact("Old", [5; 32]));
    cache.insert_contact(make_contact("New", [5; 32]));
    cache.insert_contact(make_contact("Other", [6; 32]));
    assert_eq!(cache.contacts().len(), 2);
    assert_eq!(cache.get_contact_by_prefix(&[5]).unwrap().adv_name, "New");
    assert!(cache.get_contact_by_name("old").is_none());
}

#[test]
fn contact_list_replaces_table_last_wins() {
    let mut cache = ClientCache::new();
    cache.insert_contact(make_contact("Gone", [9; 32]));
    cache.replace_contacts(vec![
        make_contact("First", [1; 32]),
        make_contact("Second", [2; 32]),
        make_contact("FirstAgain", [1; 32]),
    ]);
    assert_eq!(cache.contacts().len(), 2);
    assert!(cache.get_contact_by_prefix(&[9]).is_none());
    assert_eq!(cache.get_contact_by_prefix(&[1]).unwrap().adv_name, "FirstAgain");
    assert!(!cache.contacts_dirty());
}

#[test]
fn mismatched_payload_changes_nothing() {
    let mut cache = ClientCache::new();
    cache.on_event(Event::new(EventType::CurrentTime, EventPayload::Empty));
    cache.on_event(Event::new(EventType::Contacts, EventPayload::Time(3)));
    assert!(cache.device_time().is_none());
    assert!(cache.contacts_dirty());
}

#[test]
fn prefix_longer_than_key_never_matches() {
    let mut cache = ClientCache::new();
    cache.insert_contact(make_contact("K", [1; 32]));
    assert!(cache.get_contact_by_prefix(&[1u8; 33]).is_none());
    assert!(cache.get_contact_by_prefix(&[1u8; 32]).is_some());
}
