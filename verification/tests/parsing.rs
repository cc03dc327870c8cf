use meshcore_rs::error::Error;
use meshcore_rs::parsing::{
    hex_decode, hex_encode, parse_acl, parse_channel_msg, parse_contact, parse_contact_msg,
    parse_contact_msg_v3, parse_mma, parse_neighbours, parse_self_info, parse_status, read_bytes,
    read_i16_le, read_i32_le, read_string, read_u16_le, read_u32_le,
};

#[test]
fn test_read_u16_le() {
    let data = [0x34, 0x12];
    assert_eq!(read_u16_le(&data, 0).unwrap(), 0x1234);
}

#[test]
fn test_read_u32_le() {
    let data = [0x78, 0x56, 0x34, 0x12];
    assert_eq!(read_u32_le(&data, 0).unwrap(), 0x12345678);
}

#[test]
fn test_hex_encode_decode() {
    let bytes = vec![0xde, 0xad, 0xbe, 0xef];
    let encoded = hex_encode(&bytes);
    assert_eq!(encoded, "deadbeef");

    let decoded = hex_decode(&encoded).unwrap();
    assert_eq!(decoded, bytes);
}

fn protocol_message(e: Error) -> String {
    match e {
        Error::Protocol(m) => m,
        other => panic!("expected a protocol error, got {:?}", other),
    }
}

fn invalid_message(e: Error) -> String {
    match e {
        Error::InvalidParameter(m) => m,
        other => panic!("expected an invalid-parameter error, got {:?}", other),
    }
}

#[test]
fn reads_signed_and_offsets() {
    let data = [0x00, 0xFE, 0xFF, 0xFF, 0xFF, 0x7F];
    assert_eq!(read_i16_le(&data, 1).unwrap(), -2);
    assert_eq!(read_i32_le(&data, 1).unwrap(), -2);
    assert_eq!(read_u16_le(&data, 4).unwrap(), 0x7FFF);
}

#[test]
fn reads_past_the_end_fail() {
    let data = [1u8, 2, 3];
    assert_eq!(protocol_message(read_u16_le(&data, 2).unwrap_err()), "Buffer too short for u16");
    assert_eq!(protocol_message(read_i16_le(&data, 2).unwrap_err()), "Buffer too short for i16");
    assert_eq!(protocol_message(read_u32_le(&data, 0).unwrap_err()), "Buffer too short for u32");
    assert_eq!(protocol_message(read_i32_le(&data, 0).unwrap_err()), "Buffer too short for i32");
    assert_eq!(
        protocol_message(read_bytes::<4>(&data, 0).unwrap_err()),
        "Buffer too short for 4 bytes"
    );
    assert_eq!(read_bytes::<2>(&data, 1).unwrap(), [2, 3]);
}

#[test]
fn read_string_stops_at_nul_and_trims() {
    let data = b"xx  Alice \0garbage";
    assert_eq!(read_string(data, 2, 100), "Alice");
    assert_eq!(read_string(data, 2, 4), "Al");
    assert_eq!(read_string(b"\xffok", 0, 3), "\u{FFFD}ok");
}

#[test]
fn hex_decode_strips_prefix_and_accepts_upper_case() {
    assert_eq!(hex_decode("0xDEAD").unwrap(), vec![0xde, 0xad]);
    assert_eq!(hex_decode("0x0x01").unwrap(), vec![0x01]);
    assert_eq!(hex_decode("").unwrap(), Vec::<u8>::new());
}

#[test]
fn hex_decode_errors() {
    assert_eq!(invalid_message(hex_decode("abc").unwrap_err()), "Hex string must have even length");
    assert_eq!(invalid_message(hex_decode("zz").unwrap_err()), "Invalid hex character");
}

fn contact_bytes() -> Vec<u8> {
    let mut d = vec![0u8; 149];
    for i in 0..32 {
        d[i] = i as u8 + 1;
    }
    d[32] = 2; // type
    d[33] = 1; // flags
    d[34] = 0xFF; // path_len -1
    d[35] = 0xAA;
    d[36] = 0xBB;
    d[99..104].copy_from_slice(b"Node1");
    d[131..135].copy_from_slice(&1000u32.to_le_bytes());
    d[135..139].copy_from_slice(&(-5i32).to_le_bytes());
    d[139..143].copy_from_slice(&7i32.to_le_bytes());
    d[143..147].copy_from_slice(&42u32.to_le_bytes());
    d
}

#[test]
fn parse_contact_fields() {
    let c = parse_contact(&contact_bytes()).unwrap();
    assert_eq!(c.public_key[0], 1);
    assert_eq!(c.public_key[31], 32);
    assert_eq!(c.contact_type, 2);
    assert_eq!(c.flags, 1);
    assert_eq!(c.path_len, -1);
    assert_eq!(c.out_path, vec![0xAA, 0xBB]);
    assert_eq!(c.adv_name, "Node1");
    assert_eq!(c.last_advert, 1000);
    assert_eq!(c.adv_lat, -5);
    assert_eq!(c.adv_lon, 7);
    assert_eq!(c.last_modification_timestamp, 42);
}

#[test]
fn parse_contact_short_record_has_no_lastmod() {
    let d = contact_bytes();
    let c = parse_contact(&d[..145]).unwrap();
    assert_eq!(c.last_modification_timestamp, 0);
    assert_eq!(
        protocol_message(parse_contact(&d[..144]).unwrap_err()),
        "Contact data too short: 144 bytes"
    );
}

#[test]
fn parse_self_info_fields() {
    let mut d = vec![0u8; 60];
    d[0] = 1;
    d[1] = 20;
    d[2] = 22;
    d[3] = 0x99;
    d[35..39].copy_from_slice(&1_000_000i32.to_le_bytes());
    d[45] = 0b0010_0110;
    d[46] = 1;
    d[47..51].copy_from_slice(&869_525u32.to_le_bytes());
    d[51..55].copy_from_slice(&250u32.to_le_bytes());
    d[55] = 11;
    d[56] = 5;
    d[57..60].copy_from_slice(b"Me ");
    let info = parse_self_info(&d).unwrap();
    assert_eq!(info.adv_type, 1);
    assert_eq!(info.tx_power, 20);
    assert_eq!(info.max_tx_power, 22);
    assert_eq!(info.public_key[0], 0x99);
    assert_eq!(info.adv_lat, 1_000_000);
    assert_eq!(info.telemetry_mode_base, 2);
    assert_eq!(info.telemetry_mode_loc, 1);
    assert_eq!(info.telemetry_mode_env, 2);
    assert!(info.manual_add_contacts);
    assert_eq!(info.radio_freq, 869_525);
    assert_eq!(info.radio_bw, 250);
    assert_eq!(info.sf, 11);
    assert_eq!(info.cr, 5);
    assert_eq!(info.name, "Me");
    assert_eq!(
        protocol_message(parse_self_info(&d[..51]).unwrap_err()),
        "SelfInfo data too short: 51 bytes"
    );
    assert_eq!(
        protocol_message(parse_self_info(&d[..54]).unwrap_err()),
        "Buffer too short for u32"
    );
    let bare = parse_self_info(&d[..57]).unwrap();
    assert_eq!((bare.sf, bare.cr, bare.name.as_str()), (11, 5, ""));
}

#[test]
fn parse_status_fields() {
    let mut d = vec![0u8; 52];
    d[0..2].copy_from_slice(&3700u16.to_le_bytes());
    d[4..6].copy_from_slice(&(-110i16).to_le_bytes());
    d[32] = 0xF8; // -8 quarter dB
    d[36..40].copy_from_slice(&9u32.to_le_bytes());
    let st = parse_status(&d, [1, 2, 3, 4, 5, 6]).unwrap();
    assert_eq!(st.battery, 3700);
    assert_eq!(st.noise_floor, -110);
    assert_eq!(st.snr_raw, -8);
    assert_eq!(st.dup_count, 9);
    assert_eq!(st.sender_prefix, [1, 2, 3, 4, 5, 6]);
    assert_eq!(
        protocol_message(parse_status(&d[..51], [0; 6]).unwrap_err()),
        "Status data too short: 51 bytes"
    );
}

#[test]
fn parse_messages() {
    let mut d = vec![1, 2, 3, 4, 5, 6, 0, 0];
    d.extend_from_slice(&77u32.to_le_bytes());
    d.extend_from_slice(b"hi");
    let m = parse_contact_msg(&d).unwrap();
    assert_eq!(m.sender_prefix, [1, 2, 3, 4, 5, 6]);
    assert_eq!(m.sender_timestamp, 77);
    assert_eq!(m.text, "hi");
    assert!(m.signature.is_none());
    assert_eq!(protocol_message(parse_contact_msg(&d[..11]).unwrap_err()), "Contact message too short");

    let mut s = vec![1, 2, 3, 4, 5, 6, 0, 2];
    s.extend_from_slice(&5u32.to_le_bytes());
    s.extend_from_slice(&[9, 9, 9, 9]);
    s.extend_from_slice(b"signed");
    let m = parse_contact_msg(&s).unwrap();
    assert_eq!(m.signature, Some([9, 9, 9, 9]));
    assert_eq!(m.text, "signed");

    let mut v3 = vec![0x0C, 0, 0];
    v3.extend_from_slice(&d);
    let m = parse_contact_msg_v3(&v3).unwrap();
    assert_eq!(m.snr_raw, Some(12));
    assert_eq!(m.text, "hi");

    let mut c = vec![3];
    c.extend_from_slice(&d);
    let m = parse_channel_msg(&c).unwrap();
    assert_eq!(m.channel, Some(3));
    assert_eq!(m.text, "hi");
}

#[test]
fn parse_lists() {
    let acl = parse_acl(&[1, 2, 3, 4, 5, 6, 7, 9, 9, 9, 9, 9, 9, 1, 0xFF]);
    assert_eq!(acl.len(), 2);
    assert_eq!(acl[0].prefix, [1, 2, 3, 4, 5, 6]);
    assert_eq!(acl[0].permissions, 7);
    assert_eq!(acl[1].permissions, 1);

    let mut n = vec![];
    n.extend_from_slice(&5u16.to_le_bytes());
    n.extend_from_slice(&2u16.to_le_bytes());
    n.extend_from_slice(&[0xA1, 0xA2]);
    n.extend_from_slice(&30i32.to_le_bytes());
    n.push(0xFC);
    let nd = parse_neighbours(&n, 2).unwrap();
    assert_eq!(nd.total, 5);
    assert_eq!(nd.neighbours.len(), 1);
    assert_eq!(nd.neighbours[0].pubkey, vec![0xA1, 0xA2]);
    assert_eq!(nd.neighbours[0].secs_ago, 30);
    assert_eq!(nd.neighbours[0].snr_raw, -4);
    assert_eq!(protocol_message(parse_neighbours(&n[..3], 2).unwrap_err()), "Neighbours data too short");

    let mut m = vec![1, 2];
    m.extend_from_slice(&(-3i32).to_le_bytes());
    m.extend_from_slice(&10i32.to_le_bytes());
    m.extend_from_slice(&4i32.to_le_bytes());
    let mma = parse_mma(&m);
    assert_eq!(mma.len(), 1);
    assert_eq!((mma[0].channel, mma[0].entry_type), (1, 2));
    assert_eq!((mma[0].min_raw, mma[0].max_raw, mma[0].avg_raw), (-3, 10, 4));
}

#[test]
fn neighbours_with_huge_key_length_and_no_entries() {
    let mut n = vec![];
    n.extend_from_slice(&3u16.to_le_bytes());
    n.extend_from_slice(&0u16.to_le_bytes());
    let nd = parse_neighbours(&n, usize::MAX - 6).unwrap();
    assert_eq!(nd.total, 3);
    assert!(nd.neighbours.is_empty());
}
