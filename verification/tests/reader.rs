use meshcore_rs::connection::FrameDecoder;
use meshcore_rs::events::{Event, EventPayload, EventType};
use meshcore_rs::packets::{BinaryReqType, PayloadType, RouteType, FRAME_START, FRAME_START_RESP};
use meshcore_rs::reader::MessageReader;

/// Decodes `data` as the link would deliver it and hands each frame to a
/// reader, collecting the events.
fn events_of(data: &[u8]) -> Vec<Event> {
    let mut decoder = FrameDecoder::new();
    let mut reader = MessageReader::new();
    let mut events = Vec::new();
    for frame in decoder.push(data) {
        if let Some(e) = reader.handle_rx(&frame, 0) {
            events.push(e);
        }
    }
    events
}

fn attr(e: &Event, key: &str) -> Option<String> {
    e.attributes.iter().find(|(k, _)| k == key).map(|(_, v)| v.clone())
}

#[test]
fn test_read_task_skips_invalid_frame_start() {
    let mut decoder = FrameDecoder::new();
    assert!(decoder.push(&[0x00, 0x01, 0x02]).is_empty());
    // Nothing usable is kept once the garbage has been skipped.
    assert!(decoder.push(&[FRAME_START, 1, 0, 0]).len() == 1);
}

#[test]
fn test_read_task_processes_valid_frame() {
    let payload = vec![0x00];
    let mut data = vec![FRAME_START, payload.len() as u8, 0x00];
    data.extend_from_slice(&payload);
    let events = events_of(&data);
    assert_eq!(events.len(), 1);
    assert_eq!(events[0].event_type, EventType::Success);
}

#[test]
fn test_read_task_processes_resp_frame_start() {
    let payload = vec![0x00];
    let mut data = vec![FRAME_START_RESP, payload.len() as u8, 0x00];
    data.extend_from_slice(&payload);
    let events = events_of(&data);
    assert_eq!(events.len(), 1);
    assert_eq!(events[0].event_type, EventType::Success);
}

#[test]
fn test_read_task_multiple_frames() {
    let mut data = Vec::new();
    data.push(FRAME_START);
    data.push(0x01);
    data.push(0x00);
    data.push(0x00); // success
    let err_payload = vec![0x01, b'f', b'a', b'i', b'l'];
    data.push(FRAME_START);
    data.push(err_payload.len() as u8);
    data.push(0x00);
    data.extend_from_slice(&err_payload);

    let events = events_of(&data);
    let types: Vec<EventType> = events.iter().map(|e| e.event_type).collect();
    assert!(types.contains(&EventType::Success));
    assert!(types.contains(&EventType::Error));
    match &events[1].payload {
        EventPayload::Text(m) => assert_eq!(m, "fail"),
        other => panic!("unexpected payload {:?}", other),
    }
}

#[test]
fn test_read_task_garbage_before_valid_frame() {
    let mut data = vec![0xFF, 0xFE, 0xFD];
    data.push(FRAME_START);
    data.push(0x01);
    data.push(0x00);
    data.push(0x00);
    let events = events_of(&data);
    assert_eq!(events.len(), 1);
    assert_eq!(events[0].event_type, EventType::Success);
}

#[test]
fn test_read_task_incomplete_frame_then_eof() {
    // Frame header says 10 bytes but only 2 follow: no frame comes out.
    let data = vec![FRAME_START, 0x0A, 0x00, 0x01, 0x02];
    assert!(events_of(&data).is_empty());
}

fn contact_record(key_byte: u8, name: &[u8]) -> Vec<u8> {
    let mut d = vec![0u8; 149];
    for b in d.iter_mut().take(32) {
        *b = key_byte;
    }
    d[34] = 0xFF;
    d[99..99 + name.len()].copy_from_slice(name);
    d
}

#[test]
fn contact_list_collects_contacts_until_end() {
    let mut reader = MessageReader::new();
    assert!(reader.handle_rx(&[0x02], 0).is_none());
    let mut c1 = vec![0x03];
    c1.extend_from_slice(&contact_record(0x11, b"One"));
    let mut c2 = vec![0x03];
    c2.extend_from_slice(&contact_record(0x22, b"Two"));
    assert!(reader.handle_rx(&c1, 0).is_none());
    assert!(reader.handle_rx(&c2, 0).is_none());
    let mut end = vec![0x04];
    end.extend_from_slice(&1234u32.to_le_bytes());
    let e = reader.handle_rx(&end, 0).unwrap();
    assert_eq!(e.event_type, EventType::Contacts);
    assert_eq!(attr(&e, "lastmod").as_deref(), Some("1234"));
    match e.payload {
        EventPayload::Contacts(list) => {
            assert_eq!(list.len(), 2);
            assert_eq!(list[0].adv_name, "One");
            assert_eq!(list[1].adv_name, "Two");
        }
        other => panic!("unexpected payload {:?}", other),
    }
    // The list starts afresh after its end.
    let e = reader.handle_rx(&[0x04], 0).unwrap();
    assert_eq!(attr(&e, "lastmod").as_deref(), Some("0"));
    match e.payload {
        EventPayload::Contacts(list) => assert!(list.is_empty()),
        other => panic!("unexpected payload {:?}", other),
    }
}

#[test]
fn binary_response_matches_registered_request() {
    let mut reader = MessageReader::new();
    let tag = [0xAB, 0xCD, 0x01, 0x02];
    reader.register_binary_request(&tag, BinaryReqType::Telemetry, vec![1, 2, 3, 4, 5, 6], 1000, 500, Vec::new(), false);
    let mut packet = vec![0x8C];
    packet.extend_from_slice(&tag);
    packet.extend_from_slice(&[7, 8, 9]);
    let e = reader.handle_rx(&packet, 1200).unwrap();
    assert_eq!(e.event_type, EventType::TelemetryResponse);
    assert_eq!(attr(&e, "tag").as_deref(), Some("abcd0102"));
    match e.payload {
        EventPayload::Telemetry(d) => assert_eq!(d, vec![7, 8, 9]),
        other => panic!("unexpected payload {:?}", other),
    }
    // The request is answered: the same tag now gives the generic form.
    let e = reader.handle_rx(&packet, 1300).unwrap();
    assert_eq!(e.event_type, EventType::BinaryResponse);
}

#[test]
fn expired_request_is_not_matched() {
    let mut reader = MessageReader::new();
    let tag = [1, 1, 1, 1];
    reader.register_binary_request(&tag, BinaryReqType::Acl, vec![], 0, 100, Vec::new(), false);
    let mut packet = vec![0x8C];
    packet.extend_from_slice(&tag);
    packet.extend_from_slice(&[1, 2, 3, 4, 5, 6, 7]);
    let e = reader.handle_rx(&packet, 101).unwrap();
    assert_eq!(e.event_type, EventType::BinaryResponse);
    match e.payload {
        EventPayload::BinaryResponse { tag: t, data } => {
            assert_eq!(t, tag);
            assert_eq!(data, vec![1, 2, 3, 4, 5, 6, 7]);
        }
        other => panic!("unexpected payload {:?}", other),
    }
}

#[test]
fn acl_response_before_expiry() {
    let mut reader = MessageReader::new();
    let tag = [2, 2, 2, 2];
    reader.register_binary_request(&tag, BinaryReqType::Acl, vec![], 0, 100, Vec::new(), false);
    reader.cleanup_expired(50);
    let mut packet = vec![0x8C];
    packet.extend_from_slice(&tag);
    packet.extend_from_slice(&[1, 2, 3, 4, 5, 6, 7]);
    let e = reader.handle_rx(&packet, 99).unwrap();
    assert_eq!(e.event_type, EventType::AclResponse);
    match e.payload {
        EventPayload::Acl(entries) => {
            assert_eq!(entries.len(), 1);
            assert_eq!(entries[0].permissions, 7);
        }
        other => panic!("unexpected payload {:?}", other),
    }
}

#[test]
fn simple_packets() {
    let mut reader = MessageReader::new();
    let mut time = vec![0x09];
    time.extend_from_slice(&1_700_000_000u32.to_le_bytes());
    match reader.handle_rx(&time, 0).unwrap().payload {
        EventPayload::Time(t) => assert_eq!(t, 1_700_000_000),
        other => panic!("unexpected payload {:?}", other),
    }
    let e = reader.handle_rx(&[0x0A], 0).unwrap();
    assert_eq!(e.event_type, EventType::NoMoreMessages);
    let e = reader.handle_rx(&[0x83], 0).unwrap();
    assert_eq!(e.event_type, EventType::MessagesWaiting);
    assert!(reader.handle_rx(&[], 0).is_none());
    let e = reader.handle_rx(&[0x63, 1, 2], 0).unwrap();
    assert_eq!(e.event_type, EventType::Unknown);
    match e.payload {
        EventPayload::Bytes(b) => assert_eq!(b, vec![0x63, 1, 2]),
        other => panic!("unexpected payload {:?}", other),
    }
}

fn log_data_of(packet: &[u8]) -> meshcore_rs::events::LogData {
    let mut reader = MessageReader::new();
    let e = reader.handle_rx(packet, 0).unwrap();
    assert_eq!(e.event_type, EventType::LogData);
    match e.payload {
        EventPayload::LogData(d) => d,
        other => panic!("unexpected payload {:?}", other),
    }
}

#[test]
fn log_data_advertisement_heard() {
    let mut p = vec![0x88, 0xF4, 0xA6, 0x11, 0x02, 0xAA, 0xBB];
    p.extend_from_slice(&[7u8; 32]);
    p.extend_from_slice(&1000u32.to_le_bytes());
    p.extend_from_slice(&[0u8; 64]);
    p.push(0x91);
    p.extend_from_slice(&37_000_000i32.to_le_bytes());
    p.extend_from_slice(&(-122_000_000i32).to_le_bytes());
    p.extend_from_slice(b"Node");
    let d = log_data_of(&p);
    assert_eq!(d.snr_raw, -12);
    assert_eq!(d.rssi, -90);
    assert_eq!(d.raw, p[3..].to_vec());
    let h = d.header.unwrap();
    assert_eq!(h.route_type, RouteType::Flood);
    assert_eq!(h.payload_type, PayloadType::Advert);
    assert_eq!(h.payload_version, 0);
    assert!(h.transport_code.is_none());
    assert_eq!((h.path_len, h.path_hash_size), (2, 1));
    assert_eq!(h.path, vec![0xAA, 0xBB]);
    assert_eq!(d.payload, p[7..].to_vec());
    let a = d.advertisement.unwrap();
    assert_eq!(a.public_key, [7u8; 32]);
    assert_eq!(a.timestamp, 1000);
    assert_eq!(a.adv_type, 1);
    assert_eq!(a.lat, Some(37_000_000));
    assert_eq!(a.lon, Some(-122_000_000));
    assert_eq!(a.name.as_deref(), Some("Node"));
}

#[test]
fn log_data_transport_route_and_short_packets() {
    let d = log_data_of(&[0x88, 4, 0xC0, 0x0B, 1, 2, 3, 4, 0x41, 9, 9, 5, 6]);
    let h = d.header.unwrap();
    assert_eq!(h.route_type, RouteType::TransportDirect);
    assert_eq!(h.payload_type, PayloadType::TextMsg);
    assert_eq!(h.transport_code, Some([1, 2, 3, 4]));
    assert_eq!((h.path_len, h.path_hash_size), (1, 2));
    assert_eq!(h.path, vec![9, 9]);
    assert_eq!(d.payload, vec![5, 6]);
    assert!(d.advertisement.is_none());

    // A path longer than the packet: no header.
    let d = log_data_of(&[0x88, 0, 0, 0x05, 0x03, 1]);
    assert!(d.header.is_none());
    assert!(d.payload.is_empty());
    assert_eq!(d.raw, vec![0x05, 0x03, 1]);

    let d = log_data_of(&[0x88, 1, 2]);
    assert!(d.header.is_none());
    assert!(d.raw.is_empty());

    let mut reader = MessageReader::new();
    assert!(reader.handle_rx(&[0x88, 1], 0).is_none());
}
