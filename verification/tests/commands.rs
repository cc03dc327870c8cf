use meshcore_rs::commands::{
    add_contact_packet, appstart_packet, check_sign_length, device_query_packet,
    export_contact_packet, export_private_key_reply, fetch_more, get_bat_packet, get_msg_reply,
    is_expected_reply, msg_sent_reply, remove_contact_packet, req_neighbours_packet,
    send_advert_packet, send_binary_req_packet, send_chan_msg_packet, send_login_packet,
    send_logout_packet, send_msg_packet, set_channel_packet, set_coords_packet,
    set_custom_var_packet, set_name_packet, set_time_packet, split_chunks, sign_data_packet,
    sign_start_reply, Destination,
};
use meshcore_rs::error::Error;
use meshcore_rs::events::{Contact, Event, EventPayload, EventType, MsgSentInfo, ReceivedMessage};
use meshcore_rs::packets::BinaryReqType;
use meshcore_rs::parsing::hex_decodable;

fn key32() -> Vec<u8> {
    (1u8..=32).collect()
}

fn contact(name: &str, public_key: [u8; 32]) -> Contact {
    Contact {
        public_key,
        contact_type: 1,
        flags: 0,
        path_len: -1,
        out_path: vec![],
        adv_name: name.to_string(),
        last_advert: 0,
        adv_lat: 0,
        adv_lon: 0,
        last_modification_timestamp: 0,
    }
}

fn invalid_message(e: Error) -> String {
    match e {
        Error::InvalidParameter(m) => m,
        other => panic!("expected an invalid-parameter error, got {:?}", other),
    }
}

fn protocol_message(e: Error) -> String {
    match e {
        Error::Protocol(m) => m,
        other => panic!("expected a protocol error, got {:?}", other),
    }
}

#[test]
fn destination_prefix_from_bytes_hex_and_contact() {
    let d = Destination::from(key32());
    assert_eq!(d.prefix().unwrap(), [1, 2, 3, 4, 5, 6]);
    assert_eq!(d.public_key().unwrap().to_vec(), key32());

    let d = Destination::from("0a0b0c0d0e0f10".to_string());
    assert_eq!(d.prefix().unwrap(), [0x0a, 0x0b, 0x0c, 0x0d, 0x0e, 0x0f]);
    assert!(d.public_key().is_none());

    let mut k = [0u8; 32];
    k[0] = 0xAA;
    k[5] = 0x55;
    let d = Destination::from(contact("Alice", k));
    assert_eq!(d.prefix().unwrap(), [0xAA, 0, 0, 0, 0, 0x55]);
    assert_eq!(d.public_key(), Some(k));
}

#[test]
fn destination_errors() {
    let d = Destination::Bytes(vec![1, 2, 3]);
    assert_eq!(invalid_message(d.prefix().unwrap_err()), "Destination too short");
    assert!(d.public_key().is_none());

    let d = Destination::Hex("0102".to_string());
    assert_eq!(invalid_message(d.prefix().unwrap_err()), "Destination too short");

    let d = Destination::Hex("xyz".to_string());
    assert_eq!(invalid_message(d.prefix().unwrap_err()), "Hex string must have even length");
    assert!(d.public_key().is_none());

    let d = Destination::Hex("zz00".to_string());
    assert_eq!(invalid_message(d.prefix().unwrap_err()), "Invalid hex character");
}

#[test]
fn prefix_is_head_of_public_key() {
    let hex: String = key32().iter().map(|b| format!("{:02x}", b)).collect();
    let d = Destination::Hex(hex);
    let key = d.public_key().unwrap();
    assert_eq!(d.prefix().unwrap(), [key[0], key[1], key[2], key[3], key[4], key[5]]);
}

#[test]
fn fixed_packets() {
    assert_eq!(appstart_packet(), vec![1, 0, 0, 0, 0, 0, 0, 0, b'm', b'c', b'c', b'l', b'i']);
    assert_eq!(device_query_packet(), vec![22, 8]);
    assert_eq!(get_bat_packet(), vec![20]);
    assert_eq!(send_advert_packet(false), vec![7]);
    assert_eq!(send_advert_packet(true), vec![7, 1]);
}

#[test]
fn packets_with_numbers_are_little_endian() {
    assert_eq!(set_time_packet(0x12345678), vec![6, 0x78, 0x56, 0x34, 0x12]);
    assert_eq!(
        set_coords_packet(-1, 37_774_900),
        vec![14, 0xFF, 0xFF, 0xFF, 0xFF, 0x34, 0x66, 0x40, 0x02]
    );
    let (p, key) = req_neighbours_packet(&Destination::from(key32()), 0x0102, 7).unwrap();
    assert_eq!(&p[..2], &[50, 6]);
    assert_eq!(&p[2..34], &key32()[..]);
    assert_eq!(&p[34..], &[0x02, 0x01, 7, 0]);
    assert_eq!(key.to_vec(), key32());
}

#[test]
fn text_packets() {
    assert_eq!(set_name_packet("Node"), vec![8, b'N', b'o', b'd', b'e']);
    assert_eq!(set_custom_var_packet("k", "v"), vec![41, b'k', b'=', b'v']);
    assert_eq!(
        send_chan_msg_packet(2, "hi", 1),
        vec![3, 0, 2, 1, 0, 0, 0, b'h', b'i']
    );
    let p = send_msg_packet(&Destination::from(key32()), "yo", 0x01020304).unwrap();
    assert_eq!(p, vec![2, 0, 0, 4, 3, 2, 1, 1, 2, 3, 4, 5, 6, b'y', b'o']);
    assert_eq!(sign_data_packet(&[9, 8]), vec![34, 9, 8]);
}

#[test]
fn set_channel_pads_and_cuts_the_name() {
    let secret = [0x5A; 16];
    let p = set_channel_packet(1, "ab", &secret);
    assert_eq!(p.len(), 2 + 16 + 16);
    assert_eq!(&p[..4], &[32, 1, b'a', b'b']);
    assert!(p[4..18].iter().all(|&b| b == 0));
    assert_eq!(&p[18..], &secret);
    let long = set_channel_packet(1, "abcdefghijklmnopqrstuvwxyz", &secret);
    assert_eq!(&long[2..18], b"abcdefghijklmnop");
}

#[test]
fn add_contact_record_layout() {
    let mut c = contact("Zed", [7u8; 32]);
    c.out_path = vec![1, 2];
    c.last_advert = 0x0A0B0C0D;
    c.adv_lat = -2;
    let p = add_contact_packet(&c);
    assert_eq!(p.len(), 1 + 32 + 3 + 64 + 32 + 12);
    assert_eq!(p[0], 9);
    assert_eq!(&p[1..33], &[7u8; 32]);
    assert_eq!(&p[33..36], &[1, 0, 0xFF]);
    assert_eq!(&p[36..38], &[1, 2]);
    assert!(p[38..100].iter().all(|&b| b == 0));
    assert_eq!(&p[100..103], b"Zed");
    assert_eq!(&p[132..136], &[0x0D, 0x0C, 0x0B, 0x0A]);
    assert_eq!(&p[136..140], &[0xFE, 0xFF, 0xFF, 0xFF]);
}

#[test]
fn prefixed_and_keyed_packets() {
    let d = Destination::from(key32());
    assert_eq!(remove_contact_packet(&d).unwrap(), vec![15, 1, 2, 3, 4, 5, 6]);
    assert_eq!(export_contact_packet(Some(&d)).unwrap(), vec![17, 1, 2, 3, 4, 5, 6]);
    assert_eq!(export_contact_packet(None).unwrap(), vec![17]);
    let login = send_login_packet(&d, "pw").unwrap();
    assert_eq!(login[0], 26);
    assert_eq!(&login[1..33], &key32()[..]);
    assert_eq!(&login[33..], b"pw");
    assert_eq!(send_logout_packet(&d).unwrap()[0], 29);
    let (p, _) = send_binary_req_packet(&d, BinaryReqType::Telemetry).unwrap();
    assert_eq!(&p[..2], &[50, 3]);

    let short = Destination::Bytes(vec![1, 2, 3, 4, 5, 6]);
    assert_eq!(
        invalid_message(send_login_packet(&short, "pw").unwrap_err()),
        "Login requires full 32-byte public key"
    );
    assert_eq!(
        invalid_message(send_logout_packet(&short).unwrap_err()),
        "Logout requires full 32-byte public key"
    );
    assert_eq!(
        invalid_message(send_binary_req_packet(&short, BinaryReqType::Status).unwrap_err()),
        "Binary request requires full 32-byte public key"
    );
    assert_eq!(
        invalid_message(req_neighbours_packet(&short, 1, 0).unwrap_err()),
        "Neighbours request requires full 32-byte public key"
    );
    assert_eq!(
        invalid_message(remove_contact_packet(&Destination::Bytes(vec![1])).unwrap_err()),
        "Destination too short"
    );
}

fn message() -> ReceivedMessage {
    ReceivedMessage {
        sender_prefix: [1; 6],
        path_len: 0,
        txt_type: 0,
        sender_timestamp: 5,
        text: "hello".to_string(),
        snr_raw: None,
        signature: None,
        channel: None,
    }
}

#[test]
fn next_message_replies() {
    let e = Event::new(EventType::ContactMsgRecv, EventPayload::Message(message()));
    assert_eq!(get_msg_reply(e).unwrap().unwrap().text, "hello");
    let e = Event::new(EventType::NoMoreMessages, EventPayload::Empty);
    assert!(get_msg_reply(e).unwrap().is_none());
    match get_msg_reply(Event::error("busy".to_string())) {
        Err(Error::Device(m)) => assert_eq!(m, "busy"),
        other => panic!("unexpected {:?}", other),
    }
    match get_msg_reply(Event::new(EventType::Error, EventPayload::Empty)) {
        Err(Error::Device(m)) => assert_eq!(m, "Unknown error"),
        other => panic!("unexpected {:?}", other),
    }
    let e = Event::new(EventType::ChannelMsgRecv, EventPayload::Empty);
    assert_eq!(protocol_message(get_msg_reply(e).unwrap_err()), "Unexpected payload for message");
    assert_eq!(protocol_message(get_msg_reply(Event::ok()).unwrap_err()), "Unexpected event type");
}

#[test]
fn private_key_replies() {
    assert_eq!(export_private_key_reply(EventPayload::PrivateKey([3; 64])).unwrap(), [3; 64]);
    match export_private_key_reply(EventPayload::Text("off".to_string())) {
        Err(Error::Disabled(m)) => assert_eq!(m, "off"),
        other => panic!("unexpected {:?}", other),
    }
    assert_eq!(
        protocol_message(export_private_key_reply(EventPayload::Empty).unwrap_err()),
        "Unexpected response to export private key"
    );
}

#[test]
fn sent_and_sign_replies() {
    let info = MsgSentInfo { message_type: 1, expected_ack: [1, 2, 3, 4], suggested_timeout: 3000 };
    let r = msg_sent_reply(EventPayload::MsgSent(info), "Unexpected response to send_msg").unwrap();
    assert_eq!(r.expected_ack, [1, 2, 3, 4]);
    assert_eq!(
        protocol_message(msg_sent_reply(EventPayload::Empty, "Unexpected response to send_msg").unwrap_err()),
        "Unexpected response to send_msg"
    );
    assert_eq!(sign_start_reply(EventPayload::SignStart { max_length: 8192 }).unwrap(), 8192);
}

#[test]
fn sign_length_check() {
    assert!(check_sign_length(10, 10).is_ok());
    assert_eq!(invalid_message(check_sign_length(11, 10).unwrap_err()), "Data too large: 11 > 10");
}

#[test]
fn split_chunks_cut_in_order() {
    let data: Vec<u8> = (0..10).collect();
    let chunks = split_chunks(&data, 4);
    assert_eq!(chunks, vec![vec![0, 1, 2, 3], vec![4, 5, 6, 7], vec![8, 9]]);
    assert_eq!(split_chunks(&data, 10), vec![data.clone()]);
    assert!(split_chunks(&[], 3).is_empty());
    assert_eq!(chunks.concat(), data);
}

#[test]
fn waiting_helpers() {
    let expected = [EventType::PrivateKey, EventType::Disabled];
    assert!(is_expected_reply(&expected, EventType::Disabled));
    assert!(!is_expected_reply(&expected, EventType::Success));
    assert!(fetch_more(&Ok(Some(message()))));
    assert!(!fetch_more(&Ok(None)));
    assert!(!fetch_more(&Err(Error::NotConnected)));
}

#[test]
fn hex_destination_cut_through_a_character_is_not_decodable() {
    assert!(!hex_decodable("0\u{e9}0"));
    assert!(hex_decodable("00\u{e9}"));
    assert!(hex_decodable("abc"));
    assert!(!Destination::Hex("0\u{e9}0".to_string()).is_decodable());
    assert!(Destination::Hex("zz".to_string()).is_decodable());
    assert!(Destination::Bytes(vec![]).is_decodable());
}

#[test]
fn written_numbers_read_back() {
    use_read_back(0xDEADBEEF);
    use_read_back(0);
    let (p, _) = req_neighbours_packet(&Destination::from(key32()), 0xBEEF, 0x0102).unwrap();
    assert_eq!(meshcore_rs::parsing::read_u16_le(&p, 34).unwrap(), 0xBEEF);
    assert_eq!(meshcore_rs::parsing::read_u16_le(&p, 36).unwrap(), 0x0102);
}

fn use_read_back(v: u32) {
    let p = set_time_packet(v);
    assert_eq!(meshcore_rs::parsing::read_u32_le(&p, 1).unwrap(), v);
}

#[test]
fn borrowed_destinations() {
    let bytes = key32();
    let d = Destination::from(&bytes[..]);
    assert_eq!(d.prefix().unwrap(), [1, 2, 3, 4, 5, 6]);
    let d = Destination::from("0a0b0c0d0e0f");
    assert_eq!(d.prefix().unwrap(), [0x0a, 0x0b, 0x0c, 0x0d, 0x0e, 0x0f]);
    let c = contact("Bob", [9u8; 32]);
    let d = Destination::from(&c);
    assert_eq!(d.public_key(), Some([9u8; 32]));
    match d {
        Destination::Contact(k) => assert_eq!(k.adv_name, "Bob"),
        other => panic!("unexpected {:?}", other),
    }
}
