use meshcore_rs::{
    AUTO_ADD_CHAT, AUTO_ADD_OVERWRITE_OLDEST, AUTO_ADD_REPEATER, AUTO_ADD_ROOM_SERVER,
    AUTO_ADD_SENSOR, CHANNEL_INFO_LEN, CHANNEL_NAME_LEN, CHANNEL_SECRET_LEN,
};

#[test]
fn test_channel_name_len() {
    assert_eq!(CHANNEL_NAME_LEN, 32);
}

#[test]
fn test_channel_secret_len() {
    assert_eq!(CHANNEL_SECRET_LEN, 16);
}

#[test]
fn test_channel_info_len() {
    // 1 byte idx + 32 bytes name + 16 bytes secret = 49
    assert_eq!(CHANNEL_INFO_LEN, 49);
    assert_eq!(CHANNEL_INFO_LEN, 1 + CHANNEL_NAME_LEN + CHANNEL_SECRET_LEN);
}

#[test]
fn test_auto_add_bits_match_firmware_values() {
    assert_eq!(AUTO_ADD_OVERWRITE_OLDEST, 0x01);
    assert_eq!(AUTO_ADD_CHAT, 0x02);
    assert_eq!(AUTO_ADD_REPEATER, 0x04);
    assert_eq!(AUTO_ADD_ROOM_SERVER, 0x08);
    assert_eq!(AUTO_ADD_SENSOR, 0x10);
}

#[test]
fn test_auto_add_bits_are_disjoint() {
    let bits = [
        AUTO_ADD_OVERWRITE_OLDEST,
        AUTO_ADD_CHAT,
        AUTO_ADD_REPEATER,
        AUTO_ADD_ROOM_SERVER,
        AUTO_ADD_SENSOR,
    ];
    assert_eq!(
        bits.iter().fold(0u8, |acc, &b| acc | b).count_ones() as usize,
        bits.len()
    );
}
