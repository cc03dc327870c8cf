//! Packet types and protocol constants for MeshCore communication
use vstd::prelude::*;
use vstd::std_specs::convert::FromSpecImpl;

verus! {

/// Packet type identifiers received from the device
#[derive(Debug, Clone, Copy, PartialEq, Eq, Hash, Structural)]
pub enum PacketType {
    /// Command accepted (wire code 0)
    Success,
    Error,
    ContactStart,
    Contact,
    ContactEnd,
    SelfInfo,
    MsgSent,
    ContactMsgRecv,
    ChannelMsgRecv,
    CurrentTime,
    NoMoreMsgs,
    ContactUri,
    Battery,
    DeviceInfo,
    PrivateKey,
    Disabled,
    ContactMsgRecvV3,
    ChannelMsgRecvV3,
    ChannelInfo,
    SignStart,
    Signature,
    CustomVars,
    Stats,
    AutoaddConfig,
    BinaryReq,
    FactoryReset,
    PathDiscovery,
    SetFloodScope,
    SendControlData,
    Advertisement,
    PathUpdate,
    Ack,
    MessagesWaiting,
    RawData,
    LoginSuccess,
    LoginFailed,
    StatusResponse,
    LogData,
    TraceData,
    PushCodeNewAdvert,
    TelemetryResponse,
    BinaryResponse,
    PathDiscoveryResponse,
    ControlData,
    AdvertResponse,
    /// Unknown packet type
    Unknown,
}

/// The wire code of each packet type (`Unknown` is 0xFF).
pub open spec fn packet_type_code(t: PacketType) -> u8 {
    match t {
        PacketType::Success => 0,
        PacketType::Error => 1,
        PacketType::ContactStart => 2,
        PacketType::Contact => 3,
        PacketType::ContactEnd => 4,
        PacketType::SelfInfo => 5,
        PacketType::MsgSent => 6,
        PacketType::ContactMsgRecv => 7,
        PacketType::ChannelMsgRecv => 8,
        PacketType::CurrentTime => 9,
        PacketType::NoMoreMsgs => 10,
        PacketType::ContactUri => 11,
        PacketType::Battery => 12,
        PacketType::DeviceInfo => 13,
        PacketType::PrivateKey => 14,
        PacketType::Disabled => 15,
        PacketType::ContactMsgRecvV3 => 16,
        PacketType::ChannelMsgRecvV3 => 17,
        PacketType::ChannelInfo => 18,
        PacketType::SignStart => 19,
        PacketType::Signature => 20,
        PacketType::CustomVars => 21,
        PacketType::Stats => 24,
        PacketType::AutoaddConfig => 25,
        PacketType::BinaryReq => 50,
        PacketType::FactoryReset => 51,
        PacketType::PathDiscovery => 52,
        PacketType::SetFloodScope => 54,
        PacketType::SendControlData => 55,
        PacketType::Advertisement => 0x80,
        PacketType::PathUpdate => 0x81,
        PacketType::Ack => 0x82,
        PacketType::MessagesWaiting => 0x83,
        PacketType::RawData => 0x84,
        PacketType::LoginSuccess => 0x85,
        PacketType::LoginFailed => 0x86,
        PacketType::StatusResponse => 0x87,
        PacketType::LogData => 0x88,
        PacketType::TraceData => 0x89,
        PacketType::PushCodeNewAdvert => 0x8A,
        PacketType::TelemetryResponse => 0x8B,
        PacketType::BinaryResponse => 0x8C,
        PacketType::PathDiscoveryResponse => 0x8D,
        PacketType::ControlData => 0x8E,
        PacketType::AdvertResponse => 0x8F,
        PacketType::Unknown => 0xFF,
    }
}

/// The packet type that a wire byte decodes to: the known type whose code it
/// is, else `Unknown`.
pub open spec fn packet_type_of(v: u8) -> PacketType {
    if exists|t: PacketType| t != PacketType::Unknown && #[trigger] packet_type_code(t) == v {
        choose|t: PacketType| t != PacketType::Unknown && #[trigger] packet_type_code(t) == v
    } else {
        PacketType::Unknown
    }
}

impl PacketType {
    /// The wire code of this packet type.
    pub fn to_u8(self) -> (r: u8)
        ensures
            r == packet_type_code(self),
    {
        match self {
            PacketType::Success => 0,
            PacketType::Error => 1,
            PacketType::ContactStart => 2,
            PacketType::Contact => 3,
            PacketType::ContactEnd => 4,
            PacketType::SelfInfo => 5,
            PacketType::MsgSent => 6,
            PacketType::ContactMsgRecv => 7,
            PacketType::ChannelMsgRecv => 8,
            PacketType::CurrentTime => 9,
            PacketType::NoMoreMsgs => 10,
            PacketType::ContactUri => 11,
            PacketType::Battery => 12,
            PacketType::DeviceInfo => 13,
            PacketType::PrivateKey => 14,
            PacketType::Disabled => 15,
            PacketType::ContactMsgRecvV3 => 16,
            PacketType::ChannelMsgRecvV3 => 17,
            PacketType::ChannelInfo => 18,
            PacketType::SignStart => 19,
            PacketType::Signature => 20,
            PacketType::CustomVars => 21,
            PacketType::Stats => 24,
            PacketType::AutoaddConfig => 25,
            PacketType::BinaryReq => 50,
            PacketType::FactoryReset => 51,
            PacketType::PathDiscovery => 52,
            PacketType::SetFloodScope => 54,
            PacketType::SendControlData => 55,
            PacketType::Advertisement => 0x80,
            PacketType::PathUpdate => 0x81,
            PacketType::Ack => 0x82,
            PacketType::MessagesWaiting => 0x83,
            PacketType::RawData => 0x84,
            PacketType::LoginSuccess => 0x85,
            PacketType::LoginFailed => 0x86,
            PacketType::StatusResponse => 0x87,
            PacketType::LogData => 0x88,
            PacketType::TraceData => 0x89,
            PacketType::PushCodeNewAdvert => 0x8A,
            PacketType::TelemetryResponse => 0x8B,
            PacketType::BinaryResponse => 0x8C,
            PacketType::PathDiscoveryResponse => 0x8D,
            PacketType::ControlData => 0x8E,
            PacketType::AdvertResponse => 0x8F,
            PacketType::Unknown => 0xFF,
        }
    }

    /// Decodes a wire byte into a packet type.
    pub fn from_byte(value: u8) -> (r: PacketType)
        ensures
            r == packet_type_of(value),
            r != PacketType::Unknown ==> packet_type_code(r) == value,
    {
        let r = match value {
            0 => PacketType::Success,
            1 => PacketType::Error,
            2 => PacketType::ContactStart,
            3 => PacketType::Contact,
            4 => PacketType::ContactEnd,
            5 => PacketType::SelfInfo,
            6 => PacketType::MsgSent,
            7 => PacketType::ContactMsgRecv,
            8 => PacketType::ChannelMsgRecv,
            9 => PacketType::CurrentTime,
            10 => PacketType::NoMoreMsgs,
            11 => PacketType::ContactUri,
            12 => PacketType::Battery,
            13 => PacketType::DeviceInfo,
            14 => PacketType::PrivateKey,
            15 => PacketType::Disabled,
            16 => PacketType::ContactMsgRecvV3,
            17 => PacketType::ChannelMsgRecvV3,
            18 => PacketType::ChannelInfo,
            19 => PacketType::SignStart,
            20 => PacketType::Signature,
            21 => PacketType::CustomVars,
            24 => PacketType::Stats,
            25 => PacketType::AutoaddConfig,
            50 => PacketType::BinaryReq,
            51 => PacketType::FactoryReset,
            52 => PacketType::PathDiscovery,
            54 => PacketType::SetFloodScope,
            55 => PacketType::SendControlData,
            0x80 => PacketType::Advertisement,
            0x81 => PacketType::PathUpdate,
            0x82 => PacketType::Ack,
            0x83 => PacketType::MessagesWaiting,
            0x84 => PacketType::RawData,
            0x85 => PacketType::LoginSuccess,
            0x86 => PacketType::LoginFailed,
            0x87 => PacketType::StatusResponse,
            0x88 => PacketType::LogData,
            0x89 => PacketType::TraceData,
            0x8A => PacketType::PushCodeNewAdvert,
            0x8B => PacketType::TelemetryResponse,
            0x8C => PacketType::BinaryResponse,
            0x8D => PacketType::PathDiscoveryResponse,
            0x8E => PacketType::ControlData,
            0x8F => PacketType::AdvertResponse,
            _ => PacketType::Unknown,
        };
        proof {
            if r == PacketType::Unknown {
                assert(!exists|t: PacketType| t != PacketType::Unknown && #[trigger] packet_type_code(t) == value);
            } else {
                assert(packet_type_code(r) == value);
                lemma_packet_type_code_injective(r);
            }
        }
        r
    }
}

/// Distinct known packet types have distinct codes.
pub proof fn lemma_packet_type_code_injective(t: PacketType)
    requires
        t != PacketType::Unknown,
    ensures
        forall|u: PacketType| u != PacketType::Unknown && #[trigger] packet_type_code(u) == packet_type_code(t) ==> u == t,
{
}

impl From<u8> for PacketType {
    fn from(value: u8) -> (r: Self) {
        PacketType::from_byte(value)
    }
}

impl FromSpecImpl<u8> for PacketType {
    open spec fn obeys_from_spec() -> bool {
        true
    }

    open spec fn from_spec(v: u8) -> PacketType {
        packet_type_of(v)
    }
}

} // verus!

verus! {

/// Binary request types for the binary protocol
#[derive(Debug, Clone, Copy, PartialEq, Eq, Hash, Structural)]
pub enum BinaryReqType {
    /// Device status query
    Status,
    /// Keepalive/heartbeat
    KeepAlive,
    /// Sensor telemetry data
    Telemetry,
    /// Min/Max/Avg historical data
    Mma,
    /// Access Control Lists
    Acl,
    /// Network neighbor discovery
    Neighbours,
}

/// Wire code of a binary request type.
pub open spec fn binary_req_code(t: BinaryReqType) -> u8 {
    match t {
        BinaryReqType::Status => 0x01,
        BinaryReqType::KeepAlive => 0x02,
        BinaryReqType::Telemetry => 0x03,
        BinaryReqType::Mma => 0x04,
        BinaryReqType::Acl => 0x05,
        BinaryReqType::Neighbours => 0x06,
    }
}

/// Decoding of a wire byte; unknown codes fall back to `Status`.
pub open spec fn binary_req_of(v: u8) -> BinaryReqType {
    if v == 0x02 {
        BinaryReqType::KeepAlive
    } else if v == 0x03 {
        BinaryReqType::Telemetry
    } else if v == 0x04 {
        BinaryReqType::Mma
    } else if v == 0x05 {
        BinaryReqType::Acl
    } else if v == 0x06 {
        BinaryReqType::Neighbours
    } else {
        BinaryReqType::Status
    }
}

impl BinaryReqType {
    /// The wire code of this request type.
    pub fn to_u8(self) -> (r: u8)
        ensures
            r == binary_req_code(self),
    {
        match self {
            BinaryReqType::Status => 0x01,
            BinaryReqType::KeepAlive => 0x02,
            BinaryReqType::Telemetry => 0x03,
            BinaryReqType::Mma => 0x04,
            BinaryReqType::Acl => 0x05,
            BinaryReqType::Neighbours => 0x06,
        }
    }
}

impl From<u8> for BinaryReqType {
    fn from(value: u8) -> (r: Self) {
        match value {
            0x01 => BinaryReqType::Status,
            0x02 => BinaryReqType::KeepAlive,
            0x03 => BinaryReqType::Telemetry,
            0x04 => BinaryReqType::Mma,
            0x05 => BinaryReqType::Acl,
            0x06 => BinaryReqType::Neighbours,
            _ => BinaryReqType::Status,
        }
    }
}

impl FromSpecImpl<u8> for BinaryReqType {
    open spec fn obeys_from_spec() -> bool {
        true
    }

    open spec fn from_spec(v: u8) -> BinaryReqType {
        binary_req_of(v)
    }
}

/// Anonymous request types (for remote queries)
#[derive(Debug, Clone, Copy, PartialEq, Eq, Hash, Structural)]
pub enum AnonReqType {
    /// Regional information
    Regions,
    /// Device owner info
    Owner,
    /// Remote clock (basic telemetry)
    Basic,
}

/// Wire code of an anonymous request type.
pub open spec fn anon_req_code(t: AnonReqType) -> u8 {
    match t {
        AnonReqType::Regions => 0x01,
        AnonReqType::Owner => 0x02,
        AnonReqType::Basic => 0x03,
    }
}

/// Decoding of a wire byte; unknown codes fall back to `Basic`.
pub open spec fn anon_req_of(v: u8) -> AnonReqType {
    if v == 0x01 {
        AnonReqType::Regions
    } else if v == 0x02 {
        AnonReqType::Owner
    } else {
        AnonReqType::Basic
    }
}

impl AnonReqType {
    /// The wire code of this request type.
    pub fn to_u8(self) -> (r: u8)
        ensures
            r == anon_req_code(self),
    {
        match self {
            AnonReqType::Regions => 0x01,
            AnonReqType::Owner => 0x02,
            AnonReqType::Basic => 0x03,
        }
    }
}

impl From<u8> for AnonReqType {
    fn from(value: u8) -> (r: Self) {
        match value {
            0x01 => AnonReqType::Regions,
            0x02 => AnonReqType::Owner,
            0x03 => AnonReqType::Basic,
            _ => AnonReqType::Basic,
        }
    }
}

impl FromSpecImpl<u8> for AnonReqType {
    open spec fn obeys_from_spec() -> bool {
        true
    }

    open spec fn from_spec(v: u8) -> AnonReqType {
        anon_req_of(v)
    }
}

/// Control packet types
#[derive(Debug, Clone, Copy, PartialEq, Eq, Hash, Structural)]
pub enum ControlType {
    /// Node discovery request
    NodeDiscoverReq,
    /// Node discovery response
    NodeDiscoverResp,
}

/// Wire code of a control type.
pub open spec fn control_code(t: ControlType) -> u8 {
    match t {
        ControlType::NodeDiscoverReq => 0x80,
        ControlType::NodeDiscoverResp => 0x90,
    }
}

/// Decoding of a wire byte; unknown codes fall back to `NodeDiscoverReq`.
pub open spec fn control_of(v: u8) -> ControlType {
    if v == 0x90 {
        ControlType::NodeDiscoverResp
    } else {
        ControlType::NodeDiscoverReq
    }
}

impl ControlType {
    /// The wire code of this control type.
    pub fn to_u8(self) -> (r: u8)
        ensures
            r == control_code(self),
    {
        match self {
            ControlType::NodeDiscoverReq => 0x80,
            ControlType::NodeDiscoverResp => 0x90,
        }
    }
}

impl From<u8> for ControlType {
    fn from(value: u8) -> (r: Self) {
        match value {
            0x80 => ControlType::NodeDiscoverReq,
            0x90 => ControlType::NodeDiscoverResp,
            _ => ControlType::NodeDiscoverReq,
        }
    }
}

impl FromSpecImpl<u8> for ControlType {
    open spec fn obeys_from_spec() -> bool {
        true
    }

    open spec fn from_spec(v: u8) -> ControlType {
        control_of(v)
    }
}

/// Routing strategy of a MeshCore over-the-air packet, encoded in bits 0-1
/// of the packet header byte.
#[derive(Debug, Clone, Copy, PartialEq, Eq, Hash, Structural)]
pub enum RouteType {
    /// Flood-routed packet that also carries a transport code
    TransportFlood,
    /// Flood-routed packet
    Flood,
    /// Directly-routed packet along an explicit path
    Direct,
    /// Directly-routed packet that also carries a transport code
    TransportDirect,
}

/// Wire code of a route type.
pub open spec fn route_code(t: RouteType) -> u8 {
    match t {
        RouteType::TransportFlood => 0,
        RouteType::Flood => 1,
        RouteType::Direct => 2,
        RouteType::TransportDirect => 3,
    }
}

/// Decoding of a header byte: only its low two bits count.
pub open spec fn route_of(v: u8) -> RouteType {
    let low = v % 4;
    if low == 0 {
        RouteType::TransportFlood
    } else if low == 1 {
        RouteType::Flood
    } else if low == 2 {
        RouteType::Direct
    } else {
        RouteType::TransportDirect
    }
}

impl RouteType {
    /// The wire code of this route type.
    pub fn to_u8(self) -> (r: u8)
        ensures
            r == route_code(self),
    {
        match self {
            RouteType::TransportFlood => 0,
            RouteType::Flood => 1,
            RouteType::Direct => 2,
            RouteType::TransportDirect => 3,
        }
    }
}

impl From<u8> for RouteType {
    fn from(value: u8) -> (r: Self) {
        let low = value & 0x03;
        assert(low == value % 4) by (bit_vector)
            requires
                low == value & 0x03,
        ;
        match low {
            0 => RouteType::TransportFlood,
            1 => RouteType::Flood,
            2 => RouteType::Direct,
            _ => RouteType::TransportDirect,
        }
    }
}

impl FromSpecImpl<u8> for RouteType {
    open spec fn obeys_from_spec() -> bool {
        true
    }

    open spec fn from_spec(v: u8) -> RouteType {
        route_of(v)
    }
}

/// Payload type of a MeshCore over-the-air packet, encoded in the packet
/// header byte (only its low four bits are read).
#[derive(Debug, Clone, Copy, PartialEq, Eq, Hash, Structural)]
pub enum PayloadType {
    /// Request payload
    Req,
    /// Response payload
    Response,
    /// Direct text message
    TextMsg,
    /// Acknowledgement
    Ack,
    /// Node advertisement (broadcast identity)
    Advert,
    /// Group/channel text message
    GroupText,
    /// Group/channel data
    GroupData,
    /// Anonymous request
    AnonReq,
    /// Path/route information
    Path,
    /// Trace packet
    Trace,
    /// Multipart message fragment
    Multipart,
    /// Control packet
    Control,
    /// Unrecognized payload type
    Unknown,
}

/// Wire code of a payload type (`Unknown` is 0xFF).
pub open spec fn payload_code(t: PayloadType) -> u8 {
    match t {
        PayloadType::Req => 0,
        PayloadType::Response => 1,
        PayloadType::TextMsg => 2,
        PayloadType::Ack => 3,
        PayloadType::Advert => 4,
        PayloadType::GroupText => 5,
        PayloadType::GroupData => 6,
        PayloadType::AnonReq => 7,
        PayloadType::Path => 8,
        PayloadType::Trace => 9,
        PayloadType::Multipart => 10,
        PayloadType::Control => 11,
        PayloadType::Unknown => 0xFF,
    }
}

/// Decoding of a header byte: the known type whose code equals the low four
/// bits, else `Unknown`.
pub open spec fn payload_of(v: u8) -> PayloadType {
    let low = v % 16;
    if low == 0 {
        PayloadType::Req
    } else if low == 1 {
        PayloadType::Response
    } else if low == 2 {
        PayloadType::TextMsg
    } else if low == 3 {
        PayloadType::Ack
    } else if low == 4 {
        PayloadType::Advert
    } else if low == 5 {
        PayloadType::GroupText
    } else if low == 6 {
        PayloadType::GroupData
    } else if low == 7 {
        PayloadType::AnonReq
    } else if low == 8 {
        PayloadType::Path
    } else if low == 9 {
        PayloadType::Trace
    } else if low == 10 {
        PayloadType::Multipart
    } else if low == 11 {
        PayloadType::Control
    } else {
        PayloadType::Unknown
    }
}

impl PayloadType {
    /// The wire code of this payload type.
    pub fn to_u8(self) -> (r: u8)
        ensures
            r == payload_code(self),
    {
        match self {
            PayloadType::Req => 0,
            PayloadType::Response => 1,
            PayloadType::TextMsg => 2,
            PayloadType::Ack => 3,
            PayloadType::Advert => 4,
            PayloadType::GroupText => 5,
            PayloadType::GroupData => 6,
            PayloadType::AnonReq => 7,
            PayloadType::Path => 8,
            PayloadType::Trace => 9,
            PayloadType::Multipart => 10,
            PayloadType::Control => 11,
            PayloadType::Unknown => 0xFF,
        }
    }
}

impl From<u8> for PayloadType {
    fn from(value: u8) -> (r: Self) {
        let low = value & 0x0F;
        assert(low == value % 16) by (bit_vector)
            requires
                low == value & 0x0F,
        ;
        match low {
            0 => PayloadType::Req,
            1 => PayloadType::Response,
            2 => PayloadType::TextMsg,
            3 => PayloadType::Ack,
            4 => PayloadType::Advert,
            5 => PayloadType::GroupText,
            6 => PayloadType::GroupData,
            7 => PayloadType::AnonReq,
            8 => PayloadType::Path,
            9 => PayloadType::Trace,
            10 => PayloadType::Multipart,
            11 => PayloadType::Control,
            _ => PayloadType::Unknown,
        }
    }
}

impl FromSpecImpl<u8> for PayloadType {
    open spec fn obeys_from_spec() -> bool {
        true
    }

    open spec fn from_spec(v: u8) -> PayloadType {
        payload_of(v)
    }
}

/// Frame start marker byte (app → radio, commands)
pub const FRAME_START: u8 = 0x3c;

/// Frame start marker byte (radio → app, responses)
pub const FRAME_START_RESP: u8 = 0x3e;

/// Default serial baud rate
pub const DEFAULT_BAUD_RATE: u32 = 115200;

/// BLE Service UUID for MeshCore devices
pub const BLE_SERVICE_UUID: &'static str = "6E400001-B5A3-F393-E0A9-E50E24DCCA9E";

/// BLE RX Characteristic UUID (for writing to the device)
pub const BLE_RX_CHAR_UUID: &'static str = "6E400002-B5A3-F393-E0A9-E50E24DCCA9E";

/// BLE TX Characteristic UUID (for reading from the device)
pub const BLE_TX_CHAR_UUID: &'static str = "6E400003-B5A3-F393-E0A9-E50E24DCCA9E";

/// Decoding a known code gives back its type, for every type family.
pub proof fn lemma_codes_roundtrip()
    ensures
        forall|t: PacketType| #[trigger] packet_type_of(packet_type_code(t)) == t,
        forall|t: BinaryReqType| #[trigger] binary_req_of(binary_req_code(t)) == t,
        forall|t: AnonReqType| #[trigger] anon_req_of(anon_req_code(t)) == t,
        forall|t: ControlType| #[trigger] control_of(control_code(t)) == t,
        forall|t: RouteType| #[trigger] route_of(route_code(t)) == t,
        forall|t: PayloadType| #[trigger] payload_of(payload_code(t)) == t,
{
    assert forall|t: PacketType| #[trigger] packet_type_of(packet_type_code(t)) == t by {
        if t != PacketType::Unknown {
            lemma_packet_type_code_injective(t);
            assert(packet_type_code(t) == packet_type_code(t));
        } else {
            assert forall|u: PacketType| u != PacketType::Unknown implies #[trigger] packet_type_code(u) != 0xFF by {}
        }
    }
}

} // verus!
