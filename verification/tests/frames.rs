use meshcore_rs::connection::{contains, frame_packet, is_target_device, retry_connect, FrameDecoder};
use meshcore_rs::packets::{FRAME_START, FRAME_START_RESP};

#[test]
fn connection_test_frame_packet() {
    let data = vec![0x01, 0x02, 0x03];
    let framed = frame_packet(&data);

    assert_eq!(framed[0], FRAME_START);
    assert_eq!(framed[1], 0x03); // Length low byte
    assert_eq!(framed[2], 0x00); // Length high byte
    assert_eq!(&framed[3..], &data);
}

#[test]
fn connection_test_frame_packet_empty() {
    let data: Vec<u8> = vec![];
    let framed = frame_packet(&data);

    assert_eq!(framed.len(), 3);
    assert_eq!(framed[0], FRAME_START);
    assert_eq!(framed[1], 0x00);
    assert_eq!(framed[2], 0x00);
}

#[test]
fn connection_test_frame_packet_single_byte() {
    let data = vec![0xFF];
    let framed = frame_packet(&data);

    assert_eq!(framed.len(), 4);
    assert_eq!(framed[0], FRAME_START);
    assert_eq!(framed[1], 0x01);
    assert_eq!(framed[2], 0x00);
    assert_eq!(framed[3], 0xFF);
}

#[test]
fn connection_test_frame_packet_256_bytes() {
    let data = vec![0xAA; 256];
    let framed = frame_packet(&data);

    assert_eq!(framed.len(), 259);
    assert_eq!(framed[0], FRAME_START);
    assert_eq!(framed[1], 0x00); // 256 & 0xFF = 0
    assert_eq!(framed[2], 0x01); // 256 >> 8 = 1
    assert_eq!(&framed[3..], &data[..]);
}

#[test]
fn connection_test_frame_packet_large() {
    let data = vec![0xBB; 1000];
    let framed = frame_packet(&data);

    assert_eq!(framed.len(), 1003);
    assert_eq!(framed[0], FRAME_START);
    // 1000 = 0x03E8
    assert_eq!(framed[1], 0xE8);
    assert_eq!(framed[2], 0x03);
}

#[test]
fn connection_test_frame_start_constant() {
    assert_eq!(FRAME_START, 0x3c);
    assert_eq!(FRAME_START, '<' as u8);
}

#[test]
fn mod_test_frame_packet() {
    let data = vec![0x01, 0x02, 0x03];
    let framed = frame_packet(&data);

    assert_eq!(framed[0], FRAME_START);
    assert_eq!(framed[1], 0x03);
    assert_eq!(framed[2], 0x00);
    assert_eq!(&framed[3..], &data);
}

#[test]
fn mod_test_frame_packet_empty() {
    let data: Vec<u8> = vec![];
    let framed = frame_packet(&data);

    assert_eq!(framed.len(), 3);
    assert_eq!(framed[0], FRAME_START);
    assert_eq!(framed[1], 0x00);
    assert_eq!(framed[2], 0x00);
}

#[test]
fn mod_test_frame_packet_single_byte() {
    let data = vec![0xFF];
    let framed = frame_packet(&data);

    assert_eq!(framed.len(), 4);
    assert_eq!(framed[0], FRAME_START);
    assert_eq!(framed[1], 0x01);
    assert_eq!(framed[2], 0x00);
    assert_eq!(framed[3], 0xFF);
}

#[test]
fn mod_test_frame_packet_256_bytes() {
    let data = vec![0xAA; 256];
    let framed = frame_packet(&data);

    assert_eq!(framed.len(), 259);
    assert_eq!(framed[0], FRAME_START);
    assert_eq!(framed[1], 0x00);
    assert_eq!(framed[2], 0x01);
    assert_eq!(&framed[3..], &data[..]);
}

#[test]
fn mod_test_frame_packet_large() {
    let data = vec![0xBB; 1000];
    let framed = frame_packet(&data);

    assert_eq!(framed.len(), 1003);
    assert_eq!(framed[0], FRAME_START);
    assert_eq!(framed[1], 0xE8);
    assert_eq!(framed[2], 0x03);
}

#[test]
fn mod_test_frame_start_constant() {
    assert_eq!(FRAME_START, 0x3c);
    assert_eq!(FRAME_START, '<' as u8);
}

#[test]
fn test_frame_start_resp_constant() {
    assert_eq!(FRAME_START_RESP, 0x3e);
    assert_eq!(FRAME_START_RESP, '>' as u8);
}

#[test]
fn decoder_round_trip_of_framed_packet() {
    let payload = vec![7u8, 8, 9, 10];
    let mut decoder = FrameDecoder::new();
    let frames = decoder.push(&frame_packet(&payload));
    assert_eq!(frames, vec![payload]);
}

#[test]
fn decoder_frame_split_across_pushes() {
    let framed = frame_packet(&[1, 2, 3, 4, 5]);
    let mut decoder = FrameDecoder::new();
    assert!(decoder.push(&framed[..2]).is_empty());
    assert!(decoder.push(&framed[2..6]).is_empty());
    let frames = decoder.push(&framed[6..]);
    assert_eq!(frames, vec![vec![1, 2, 3, 4, 5]]);
}

#[test]
fn decoder_skips_garbage_and_accepts_both_start_bytes() {
    let mut data = vec![0x00, 0x41];
    data.extend_from_slice(&[FRAME_START, 1, 0, 0x05]);
    data.extend_from_slice(&[FRAME_START_RESP, 2, 0, 0x0C, 0x0D]);
    let mut decoder = FrameDecoder::new();
    let frames = decoder.push(&data);
    assert_eq!(frames, vec![vec![0x05], vec![0x0C, 0x0D]]);
}

#[test]
fn decoder_empty_frame() {
    let mut decoder = FrameDecoder::new();
    let frames = decoder.push(&[FRAME_START, 0, 0, FRAME_START, 1, 0, 9]);
    assert_eq!(frames, vec![vec![], vec![9]]);
}

#[test]
fn device_selection_by_name_or_service() {
    assert!(contains("MeshCore-1234", "Core-12"));
    assert!(contains("abc", ""));
    assert!(!contains("ab", "abc"));
    assert!(!is_target_device(Some("MeshCore-ab"), false, None));
    assert!(is_target_device(Some("Other"), true, None));
    assert!(is_target_device(None, true, None));
    assert!(!is_target_device(Some("Other"), false, None));
    assert!(is_target_device(Some("My Node 7"), false, Some("Node")));
    assert!(!is_target_device(Some("MeshCore"), true, Some("Node")));
    assert!(!is_target_device(None, true, Some("Node")));
}

#[test]
fn connection_retried_until_the_third_attempt() {
    assert!(retry_connect(1));
    assert!(retry_connect(2));
    assert!(!retry_connect(3));
}
