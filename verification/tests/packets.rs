use meshcore_rs::packets::{
    AnonReqType, BinaryReqType, ControlType, PacketType, PayloadType, RouteType,
    BLE_RX_CHAR_UUID, BLE_SERVICE_UUID, BLE_TX_CHAR_UUID, DEFAULT_BAUD_RATE, FRAME_START,
    FRAME_START_RESP,
};

#[test]
fn test_packet_type_from_u8_command_responses() {
    assert_eq!(PacketType::from(0), PacketType::Success);
    assert_eq!(PacketType::from(1), PacketType::Error);
    assert_eq!(PacketType::from(2), PacketType::ContactStart);
    assert_eq!(PacketType::from(3), PacketType::Contact);
    assert_eq!(PacketType::from(4), PacketType::ContactEnd);
    assert_eq!(PacketType::from(5), PacketType::SelfInfo);
    assert_eq!(PacketType::from(6), PacketType::MsgSent);
    assert_eq!(PacketType::from(7), PacketType::ContactMsgRecv);
    assert_eq!(PacketType::from(8), PacketType::ChannelMsgRecv);
    assert_eq!(PacketType::from(9), PacketType::CurrentTime);
    assert_eq!(PacketType::from(10), PacketType::NoMoreMsgs);
    assert_eq!(PacketType::from(11), PacketType::ContactUri);
    assert_eq!(PacketType::from(12), PacketType::Battery);
    assert_eq!(PacketType::from(13), PacketType::DeviceInfo);
    assert_eq!(PacketType::from(14), PacketType::PrivateKey);
    assert_eq!(PacketType::from(15), PacketType::Disabled);
    assert_eq!(PacketType::from(16), PacketType::ContactMsgRecvV3);
    assert_eq!(PacketType::from(17), PacketType::ChannelMsgRecvV3);
    assert_eq!(PacketType::from(18), PacketType::ChannelInfo);
    assert_eq!(PacketType::from(19), PacketType::SignStart);
    assert_eq!(PacketType::from(20), PacketType::Signature);
    assert_eq!(PacketType::from(21), PacketType::CustomVars);
    assert_eq!(PacketType::from(24), PacketType::Stats);
    assert_eq!(PacketType::from(25), PacketType::AutoaddConfig);
}

#[test]
fn test_packet_type_from_u8_binary_control() {
    assert_eq!(PacketType::from(50), PacketType::BinaryReq);
    assert_eq!(PacketType::from(51), PacketType::FactoryReset);
    assert_eq!(PacketType::from(52), PacketType::PathDiscovery);
    assert_eq!(PacketType::from(54), PacketType::SetFloodScope);
    assert_eq!(PacketType::from(55), PacketType::SendControlData);
}

#[test]
fn test_packet_type_from_u8_push_notifications() {
    assert_eq!(PacketType::from(0x80), PacketType::Advertisement);
    assert_eq!(PacketType::from(0x81), PacketType::PathUpdate);
    assert_eq!(PacketType::from(0x82), PacketType::Ack);
    assert_eq!(PacketType::from(0x83), PacketType::MessagesWaiting);
    assert_eq!(PacketType::from(0x84), PacketType::RawData);
    assert_eq!(PacketType::from(0x85), PacketType::LoginSuccess);
    assert_eq!(PacketType::from(0x86), PacketType::LoginFailed);
    assert_eq!(PacketType::from(0x87), PacketType::StatusResponse);
    assert_eq!(PacketType::from(0x88), PacketType::LogData);
    assert_eq!(PacketType::from(0x89), PacketType::TraceData);
    assert_eq!(PacketType::from(0x8A), PacketType::PushCodeNewAdvert);
    assert_eq!(PacketType::from(0x8B), PacketType::TelemetryResponse);
    assert_eq!(PacketType::from(0x8C), PacketType::BinaryResponse);
    assert_eq!(PacketType::from(0x8D), PacketType::PathDiscoveryResponse);
    assert_eq!(PacketType::from(0x8E), PacketType::ControlData);
    assert_eq!(PacketType::from(0x8F), PacketType::AdvertResponse);
}

#[test]
fn test_packet_type_unknown() {
    assert_eq!(PacketType::from(99), PacketType::Unknown);
    assert_eq!(PacketType::from(0xFF), PacketType::Unknown);
    assert_eq!(PacketType::from(100), PacketType::Unknown);
}

#[test]
fn test_binary_req_type_from_u8() {
    assert_eq!(BinaryReqType::from(0x01), BinaryReqType::Status);
    assert_eq!(BinaryReqType::from(0x02), BinaryReqType::KeepAlive);
    assert_eq!(BinaryReqType::from(0x03), BinaryReqType::Telemetry);
    assert_eq!(BinaryReqType::from(0x04), BinaryReqType::Mma);
    assert_eq!(BinaryReqType::from(0x05), BinaryReqType::Acl);
    assert_eq!(BinaryReqType::from(0x06), BinaryReqType::Neighbours);
    // Unknown defaults to Status
    assert_eq!(BinaryReqType::from(0xFF), BinaryReqType::Status);
}

#[test]
fn test_anon_req_type_from_u8() {
    assert_eq!(AnonReqType::from(0x01), AnonReqType::Regions);
    assert_eq!(AnonReqType::from(0x02), AnonReqType::Owner);
    assert_eq!(AnonReqType::from(0x03), AnonReqType::Basic);
    // Unknown defaults to Basic
    assert_eq!(AnonReqType::from(0xFF), AnonReqType::Basic);
}

#[test]
fn test_control_type_from_u8() {
    assert_eq!(ControlType::from(0x80), ControlType::NodeDiscoverReq);
    assert_eq!(ControlType::from(0x90), ControlType::NodeDiscoverResp);
    // Unknown defaults to NodeDiscoverReq
    assert_eq!(ControlType::from(0xFF), ControlType::NodeDiscoverReq);
}

#[test]
fn test_constants() {
    assert_eq!(FRAME_START, 0x3c);
    assert_eq!(FRAME_START_RESP, 0x3e);
    assert_eq!(FRAME_START_RESP, b'>');
    assert_eq!(DEFAULT_BAUD_RATE, 115200);
    assert_eq!(BLE_SERVICE_UUID, "6E400001-B5A3-F393-E0A9-E50E24DCCA9E");
    assert_eq!(BLE_RX_CHAR_UUID, "6E400002-B5A3-F393-E0A9-E50E24DCCA9E");
    assert_eq!(BLE_TX_CHAR_UUID, "6E400003-B5A3-F393-E0A9-E50E24DCCA9E");
}

#[test]
fn test_packet_type_repr() {
    // Verify wire values match
    assert_eq!(PacketType::Success.to_u8(), 0);
    assert_eq!(PacketType::Error.to_u8(), 1);
    assert_eq!(PacketType::Advertisement.to_u8(), 0x80);
}

#[test]
fn test_binary_req_type_repr() {
    assert_eq!(BinaryReqType::Status.to_u8(), 0x01);
    assert_eq!(BinaryReqType::KeepAlive.to_u8(), 0x02);
    assert_eq!(BinaryReqType::Telemetry.to_u8(), 0x03);
}

#[test]
fn test_packet_type_debug() {
    // The success response is the variant `Success`; `Debug` prints its name.
    let packet = PacketType::Success;
    assert_eq!(format!("{:?}", packet), "Success");
}

#[test]
fn test_packet_type_clone_eq() {
    let p1 = PacketType::SelfInfo;
    let p2 = p1;
    assert_eq!(p1, p2);
}

#[test]
fn test_route_type_from_u8() {
    assert_eq!(RouteType::from(0), RouteType::TransportFlood);
    assert_eq!(RouteType::from(1), RouteType::Flood);
    assert_eq!(RouteType::from(2), RouteType::Direct);
    assert_eq!(RouteType::from(3), RouteType::TransportDirect);
}

#[test]
fn test_route_type_from_u8_masks_upper_bits() {
    // Only bits 0-1 are significant; upper bits must be ignored.
    assert_eq!(RouteType::from(0b1111_1100), RouteType::TransportFlood);
    assert_eq!(RouteType::from(0b1111_1101), RouteType::Flood);
}

#[test]
fn test_payload_type_from_u8() {
    assert_eq!(PayloadType::from(0), PayloadType::Req);
    assert_eq!(PayloadType::from(1), PayloadType::Response);
    assert_eq!(PayloadType::from(2), PayloadType::TextMsg);
    assert_eq!(PayloadType::from(3), PayloadType::Ack);
    assert_eq!(PayloadType::from(4), PayloadType::Advert);
    assert_eq!(PayloadType::from(5), PayloadType::GroupText);
    assert_eq!(PayloadType::from(6), PayloadType::GroupData);
    assert_eq!(PayloadType::from(7), PayloadType::AnonReq);
    assert_eq!(PayloadType::from(8), PayloadType::Path);
    assert_eq!(PayloadType::from(9), PayloadType::Trace);
    assert_eq!(PayloadType::from(10), PayloadType::Multipart);
    assert_eq!(PayloadType::from(11), PayloadType::Control);
}

#[test]
fn test_payload_type_from_u8_unknown() {
    assert_eq!(PayloadType::from(12), PayloadType::Unknown);
    assert_eq!(PayloadType::from(15), PayloadType::Unknown);
}

#[test]
fn test_payload_type_from_u8_masks_upper_bits() {
    // Only bits 0-3 are significant; upper bits must be ignored.
    assert_eq!(PayloadType::from(0b1111_0100), PayloadType::Advert);
}

#[test]
fn codes_round_trip_for_every_known_packet_type() {
    for v in 0u8..=255 {
        let t = PacketType::from(v);
        if t != PacketType::Unknown {
            assert_eq!(t.to_u8(), v);
        }
    }
}

#[test]
fn anon_and_control_and_route_codes() {
    assert_eq!(AnonReqType::Owner.to_u8(), 0x02);
    assert_eq!(ControlType::NodeDiscoverResp.to_u8(), 0x90);
    assert_eq!(RouteType::TransportDirect.to_u8(), 3);
    assert_eq!(PayloadType::Control.to_u8(), 11);
}
