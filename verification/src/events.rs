//! Event model for MeshCore communication: the data that incoming packets
//! carry, and the events the reader produces from them.
use vstd::prelude::*;
use crate::packets::{PayloadType, RouteType};
use crate::parsing::{hex_encode, hex_spec};

verus! {

/// Contact information
#[derive(Debug, Clone)]
pub struct Contact {
    /// 32-byte public key
    pub public_key: [u8; 32],
    /// Contact type
    pub contact_type: u8,
    /// Contact flags
    pub flags: u8,
    /// Path length (-1 = flood)
    pub path_len: i8,
    /// Output path (up to 64 bytes)
    pub out_path: Vec<u8>,
    /// Advertised name
    pub adv_name: String,
    /// Last advertisement timestamp
    pub last_advert: u32,
    /// Latitude in microdegrees
    pub adv_lat: i32,
    /// Longitude in microdegrees
    pub adv_lon: i32,
    /// Last modification timestamp
    pub last_modification_timestamp: u32,
}

/// The value of a contact, with its vectors and strings as sequences.
#[verifier::ext_equal]
pub struct ContactView {
    pub public_key: Seq<u8>,
    pub contact_type: u8,
    pub flags: u8,
    pub path_len: i8,
    pub out_path: Seq<u8>,
    pub adv_name: Seq<char>,
    pub last_advert: u32,
    pub adv_lat: i32,
    pub adv_lon: i32,
    pub last_modification_timestamp: u32,
}

impl View for Contact {
    type V = ContactView;

    open spec fn view(&self) -> ContactView {
        ContactView {
            public_key: self.public_key@,
            contact_type: self.contact_type,
            flags: self.flags,
            path_len: self.path_len,
            out_path: self.out_path@,
            adv_name: self.adv_name@,
            last_advert: self.last_advert,
            adv_lat: self.adv_lat,
            adv_lon: self.adv_lon,
            last_modification_timestamp: self.last_modification_timestamp,
        }
    }
}

/// Device self-info
#[derive(Debug, Clone)]
pub struct SelfInfo {
    /// Advertisement type
    pub adv_type: u8,
    /// TX power
    pub tx_power: u8,
    /// Maximum TX power
    pub max_tx_power: u8,
    /// 32-byte public key
    pub public_key: [u8; 32],
    /// Latitude in microdegrees
    pub adv_lat: i32,
    /// Longitude in microdegrees
    pub adv_lon: i32,
    /// Multi ack setting
    pub multi_acks: u8,
    /// Advertisement location policy
    pub adv_loc_policy: u8,
    /// Base telemetry mode (bits 0-1)
    pub telemetry_mode_base: u8,
    /// Location telemetry mode (bits 2-3)
    pub telemetry_mode_loc: u8,
    /// Environment telemetry mode (bits 4-5)
    pub telemetry_mode_env: u8,
    /// Manually add contact setting
    pub manual_add_contacts: bool,
    /// Radio frequency in mHz
    pub radio_freq: u32,
    /// Radio bandwidth in mHz
    pub radio_bw: u32,
    /// Spreading factor
    pub sf: u8,
    /// Coding rate
    pub cr: u8,
    /// Device name
    pub name: String,
}

/// Device info/capabilities
#[derive(Debug, Clone)]
pub struct DeviceInfoData {
    /// Raw device info bytes
    pub raw: Vec<u8>,
}

/// Battery information
#[derive(Debug, Clone)]
pub struct BatteryInfo {
    /// Battery level (0-100 or raw value)
    pub level: u16,
    /// Storage available
    pub storage: u16,
}

/// Received message
#[derive(Debug, Clone)]
pub struct ReceivedMessage {
    /// Sender public key prefix (6 bytes)
    pub sender_prefix: [u8; 6],
    /// Path length
    pub path_len: u8,
    /// Text type (2 = signed)
    pub txt_type: u8,
    /// Sender timestamp
    pub sender_timestamp: u32,
    /// Message text
    pub text: String,
    /// SNR in quarter dB as sent by the device (only in v3; the SNR in dB is
    /// this divided by 4)
    pub snr_raw: Option<i8>,
    /// Signature (if txt_type == 2)
    pub signature: Option<[u8; 4]>,
    /// Channel index (for channel messages)
    pub channel: Option<u8>,
}

/// Message sent acknowledgment
#[derive(Debug, Clone)]
pub struct MsgSentInfo {
    /// Message type
    pub message_type: u8,
    /// Expected ACK tag
    pub expected_ack: [u8; 4],
    /// Suggested timeout in milliseconds
    pub suggested_timeout: u32,
}

/// Status data from a device
#[derive(Debug, Clone)]
pub struct StatusData {
    /// Battery level
    pub battery: u16,
    /// TX queue length
    pub tx_queue_len: u16,
    /// Noise floor (dBm)
    pub noise_floor: i16,
    /// Last RSSI (dBm)
    pub last_rssi: i16,
    /// Number of packets received
    pub nb_recv: u32,
    /// Number of packets sent
    pub nb_sent: u32,
    /// Total airtime (ms)
    pub airtime: u32,
    /// Uptime (seconds)
    pub uptime: u32,
    /// Flood packets sent
    pub flood_sent: u32,
    /// Direct packets sent
    pub direct_sent: u32,
    /// SNR in quarter dB as sent by the device (divide by 4 for dB)
    pub snr_raw: i8,
    /// Duplicate packet count
    pub dup_count: u32,
    /// RX airtime (ms)
    pub rx_airtime: u32,
    /// Sender public key prefix
    pub sender_prefix: [u8; 6],
}

/// Channel info
#[derive(Debug, Clone)]
pub struct ChannelInfoData {
    /// Channel index
    pub channel_idx: u8,
    /// Channel name
    pub name: String,
    /// Channel secret (16 bytes)
    pub secret: [u8; 16],
}

/// Advertisement data
#[derive(Debug, Clone)]
pub struct AdvertisementData {
    /// Advertiser public key prefix
    pub prefix: [u8; 6],
    /// Advertisement name
    pub name: String,
    /// Latitude in microdegrees
    pub lat: i32,
    /// Longitude in microdegrees
    pub lon: i32,
}

/// Path update data
#[derive(Debug, Clone)]
pub struct PathUpdateData {
    /// Node public key prefix
    pub prefix: [u8; 6],
    /// New path length
    pub path_len: i8,
    /// New path
    pub path: Vec<u8>,
}

/// Trace info
#[derive(Debug, Clone)]
pub struct TraceInfo {
    /// Hops with SNR values
    pub hops: Vec<TraceHop>,
}

/// Single hop in a trace
#[derive(Debug, Clone)]
pub struct TraceHop {
    /// Node prefix
    pub prefix: [u8; 6],
    /// SNR in quarter dB at this hop (divide by 4 for dB)
    pub snr_raw: i8,
}

/// Min/Max/Avg entry
#[derive(Debug, Clone)]
pub struct MmaEntry {
    /// Channel
    pub channel: u8,
    /// Type
    pub entry_type: u8,
    /// Minimum value, as the device encodes it
    pub min_raw: i32,
    /// Maximum value, as the device encodes it
    pub max_raw: i32,
    /// Average value, as the device encodes it
    pub avg_raw: i32,
}

/// ACL entry
#[derive(Debug, Clone)]
pub struct AclEntry {
    /// Public key prefix (6 bytes)
    pub prefix: [u8; 6],
    /// Permissions
    pub permissions: u8,
}

/// Neighbours response data
#[derive(Debug, Clone)]
pub struct NeighboursData {
    /// Total neighbours available
    pub total: u16,
    /// Neighbors in this response
    pub neighbours: Vec<Neighbour>,
}

/// Single neighbor entry
#[derive(Debug, Clone)]
pub struct Neighbour {
    /// Public key (variable length)
    pub pubkey: Vec<u8>,
    /// Seconds since last seen
    pub secs_ago: i32,
    /// SNR in quarter dB (divide by 4 for dB)
    pub snr_raw: i8,
}

/// Discover entry
#[derive(Debug, Clone)]
pub struct DiscoverEntry {
    /// Node public key
    pub pubkey: Vec<u8>,
    /// Node name
    pub name: String,
}

/// The header of a mesh packet heard over the air.
#[derive(Debug, Clone)]
pub struct MeshPacketHeader {
    /// Routing strategy (bits 0-1 of the header byte)
    pub route_type: RouteType,
    /// Payload type (bits 2-5 of the header byte)
    pub payload_type: PayloadType,
    /// Payload version (bits 6-7 of the header byte)
    pub payload_version: u8,
    /// Transport code, present on transport-routed packets
    pub transport_code: Option<[u8; 4]>,
    /// Number of hops on the path (bits 0-5 of the path descriptor)
    pub path_len: u8,
    /// Bytes per hop hash, 1 to 4 (bits 6-7 of the path descriptor, plus 1)
    pub path_hash_size: u8,
    /// The hop hashes, `path_len * path_hash_size` bytes
    pub path: Vec<u8>,
}

/// The advertiser's identity from an advertisement packet heard over the
/// air.
#[derive(Debug, Clone)]
pub struct RawAdvertisement {
    /// 32-byte public key
    pub public_key: [u8; 32],
    /// Advertisement timestamp
    pub timestamp: u32,
    /// Advertiser type (low four bits of the flags)
    pub adv_type: u8,
    /// Latitude in microdegrees, when the advertisement carries a position
    pub lat: Option<i32>,
    /// Longitude in microdegrees, when the advertisement carries a position
    pub lon: Option<i32>,
    /// Name, when the advertisement carries one
    pub name: Option<String>,
}

/// A packet the node's radio received, with its signal quality.
#[derive(Debug, Clone)]
pub struct LogData {
    /// SNR in quarter dB as sent by the device (the SNR in dB is this
    /// divided by 4)
    pub snr_raw: i8,
    /// RSSI in dBm
    pub rssi: i8,
    /// The packet as received
    pub raw: Vec<u8>,
    /// The decoded header, when the packet is long enough to hold one
    pub header: Option<MeshPacketHeader>,
    /// The packet's payload after its header and path (empty when no
    /// header could be decoded)
    pub payload: Vec<u8>,
    /// The advertiser, for an advertisement packet long enough to name one
    pub advertisement: Option<RawAdvertisement>,
}

/// Advertisement response data
#[derive(Debug, Clone)]
pub struct AdvertResponseData {
    /// Tag
    pub tag: [u8; 4],
    /// Public key
    pub pubkey: [u8; 32],
    /// Advertisement type
    pub adv_type: u8,
    /// Node name
    pub node_name: String,
    /// Timestamp
    pub timestamp: u32,
    /// Flags
    pub flags: u8,
    /// Latitude (optional)
    pub lat: Option<i32>,
    /// Longitude (optional)
    pub lon: Option<i32>,
    /// Node description (optional)
    pub node_desc: Option<String>,
}

/// Stats category
#[derive(Debug, Clone, Copy, PartialEq, Eq, Structural)]
pub enum StatsCategory {
    Core,
    Radio,
    Packets,
}

/// Stats data
#[derive(Debug, Clone)]
pub struct StatsData {
    /// Stats category
    pub category: StatsCategory,
    /// Raw stats bytes
    pub raw: Vec<u8>,
}


/// Event types emitted by MeshCore
#[derive(Debug, Clone, Copy, PartialEq, Eq, Hash, Structural)]
pub enum EventType {
    Connected,
    Disconnected,
    /// Command accepted
    Success,
    Error,
    Contacts,
    NewContact,
    NextContact,
    SelfInfo,
    DeviceInfo,
    Battery,
    CurrentTime,
    PrivateKey,
    CustomVars,
    ChannelInfo,
    StatsCore,
    StatsRadio,
    StatsPackets,
    AutoAddConfig,
    ContactMsgRecv,
    ChannelMsgRecv,
    MsgSent,
    NoMoreMessages,
    ContactUri,
    Advertisement,
    PathUpdate,
    Ack,
    MessagesWaiting,
    RawData,
    LoginSuccess,
    LoginFailed,
    StatusResponse,
    TelemetryResponse,
    MmaResponse,
    AclResponse,
    NeighboursResponse,
    BinaryResponse,
    PathDiscoveryResponse,
    TraceData,
    LogData,
    SignStart,
    Signature,
    Disabled,
    ControlData,
    DiscoverResponse,
    AdvertResponse,
    Unknown,
}

/// Payload data for events
#[derive(Debug, Clone)]
pub enum EventPayload {
    /// No payload
    Empty,
    /// Text payload (error messages, URIs, etc.)
    Text(String),
    /// Binary payload
    Bytes(Vec<u8>),
    /// Contact list
    Contacts(Vec<Contact>),
    /// Single contact
    Contact(Contact),
    /// Self-info
    SelfInfo(SelfInfo),
    /// Device info
    DeviceInfo(DeviceInfoData),
    /// Battery info
    Battery(BatteryInfo),
    /// Current time (Unix timestamp)
    Time(u32),
    /// Message received
    Message(ReceivedMessage),
    /// Message sent acknowledgment
    MsgSent(MsgSentInfo),
    /// Status response
    Status(StatusData),
    /// Channel info
    ChannelInfo(ChannelInfoData),
    /// Custom variables, one entry per distinct key
    CustomVars(Vec<(String, String)>),
    /// Private key (64 bytes)
    PrivateKey([u8; 64]),
    /// Signature data
    Signature(Vec<u8>),
    /// Sign start info
    SignStart { max_length: u32 },
    /// Advertisement
    Advertisement(AdvertisementData),
    /// Path update
    PathUpdate(PathUpdateData),
    /// ACK
    Ack { tag: [u8; 4] },
    /// Trace data
    TraceData(TraceInfo),
    /// Telemetry response (raw LPP data)
    Telemetry(Vec<u8>),
    /// MMA response
    Mma(Vec<MmaEntry>),
    /// ACL response
    Acl(Vec<AclEntry>),
    /// Neighbours response
    Neighbours(NeighboursData),
    /// Binary response
    BinaryResponse { tag: [u8; 4], data: Vec<u8> },
    /// Discover response
    DiscoverResponse(Vec<DiscoverEntry>),
    /// Advert response
    AdvertResponse(AdvertResponseData),
    /// A packet the radio received
    LogData(LogData),
    /// Stats data
    Stats(StatsData),
    /// AutoAdd config
    AutoAddConfig { flags: u8 },
}

/// The value bound to `key` in a list of string pairs: the first pair with
/// that key.
pub open spec fn attr_lookup(attrs: Seq<(String, String)>, key: Seq<char>) -> Option<Seq<char>>
    decreases attrs.len(),
{
    if attrs.len() == 0 {
        None
    } else if attrs[0].0@ == key {
        Some(attrs[0].1@)
    } else {
        attr_lookup(attrs.drop_first(), key)
    }
}

/// Whether every filter pair is bound, with that value, in `attrs`.
pub open spec fn filters_match(attrs: Seq<(String, String)>, filters: Seq<(String, String)>) -> bool {
    forall|i: int| 0 <= i < filters.len() ==> attr_lookup(attrs, #[trigger] filters[i].0@) == Some(filters[i].1@)
}

/// Law: an event matches a list of filters with one more pair exactly when
/// it matches the list and binds that pair's key to that pair's value; so
/// with the empty list matching everything, it matches a list exactly
/// when every pair is bound as given.
pub proof fn lemma_filters_push(attrs: Seq<(String, String)>, filters: Seq<(String, String)>, p: (String, String))
    ensures
        filters_match(attrs, filters.push(p)) <==> (filters_match(attrs, filters) && attr_lookup(attrs, p.0@)
            == Some(p.1@)),
{
    let f = filters.push(p);
    if filters_match(attrs, f) {
        assert(f[filters.len() as int] == p);
        assert forall|i: int| 0 <= i < filters.len() implies attr_lookup(attrs, #[trigger] filters[i].0@) == Some(
            filters[i].1@,
        ) by {
            assert(f[i] == filters[i]);
        }
    }
    if filters_match(attrs, filters) && attr_lookup(attrs, p.0@) == Some(p.1@) {
        assert forall|i: int| 0 <= i < f.len() implies attr_lookup(attrs, #[trigger] f[i].0@) == Some(f[i].1@) by {
            if i < filters.len() {
                assert(f[i] == filters[i]);
            }
        }
    }
}

/// Law: looking up a key gives the value of the first pair with that key,
/// and nothing when no pair has it.
pub proof fn lemma_attr_lookup_first(attrs: Seq<(String, String)>, key: Seq<char>)
    ensures
        attr_lookup(attrs, key) is None <==> forall|i: int| 0 <= i < attrs.len() ==> #[trigger] attrs[i].0@ != key,
        attr_lookup(attrs, key) matches Some(v) ==> exists|i: int|
            0 <= i < attrs.len() && #[trigger] attrs[i].0@ == key && attrs[i].1@ == v && forall|j: int|
                0 <= j < i ==> attrs[j].0@ != key,
    decreases attrs.len(),
{
    if attrs.len() > 0 {
        let rest = attrs.drop_first();
        lemma_attr_lookup_first(rest, key);
        if attrs[0].0@ == key {
            assert(attrs[0].0@ == key);
        } else {
            assert forall|i: int| 0 <= i < rest.len() implies rest[i] == attrs[i + 1] by {}
            if attr_lookup(rest, key) is None {
                assert forall|i: int| 0 <= i < attrs.len() implies #[trigger] attrs[i].0@ != key by {
                    if i > 0 {
                        assert(rest[i - 1] == attrs[i]);
                    }
                }
            } else {
                let v = attr_lookup(rest, key)->0;
                let i = choose|i: int|
                    0 <= i < rest.len() && #[trigger] rest[i].0@ == key && rest[i].1@ == v && forall|j: int|
                        0 <= j < i ==> rest[j].0@ != key;
                assert(attrs[i + 1] == rest[i]);
                assert forall|j: int| 0 <= j < i + 1 implies attrs[j].0@ != key by {
                    if j > 0 {
                        assert(attrs[j] == rest[j - 1]);
                    }
                }
                assert(!(forall|i: int| 0 <= i < attrs.len() ==> #[trigger] attrs[i].0@ != key)) by {
                    assert(attrs[i + 1].0@ == key);
                }
            }
        }
    }
}

/// An event emitted by the reader
#[derive(Debug, Clone)]
pub struct Event {
    /// Event type
    pub event_type: EventType,
    /// Event payload
    pub payload: EventPayload,
    /// Filterable attributes
    pub attributes: Vec<(String, String)>,
}

/// Whether no key occurs twice.
pub open spec fn keys_unique(attrs: Seq<(String, String)>) -> bool {
    forall|i: int, j: int| 0 <= i < j < attrs.len() ==> attrs[i].0@ != attrs[j].0@
}

/// The list of pairs as a map from key to its first value.
pub open spec fn pairs_map(attrs: Seq<(String, String)>) -> Map<Seq<char>, Seq<char>> {
    Map::new(|k: Seq<char>| attr_lookup(attrs, k) is Some, |k: Seq<char>| attr_lookup(attrs, k)->0)
}

/// Replaces the value of `key`, or appends the pair when the key is new.
pub(crate) fn set_attr(attrs: &mut Vec<(String, String)>, key: String, value: String)
    ensures
        keys_unique(old(attrs)@) ==> keys_unique(final(attrs)@),
        pairs_map(final(attrs)@) == pairs_map(old(attrs)@).insert(key@, value@),
        forall|k: Seq<char>| #[trigger] attr_lookup(final(attrs)@, k) == if k == key@ {
            Some(value@)
        } else {
            attr_lookup(old(attrs)@, k)
        },
{
    let mut i: usize = 0;
    while i < attrs.len()
        invariant
            0 <= i <= attrs@.len(),
            attrs@ == old(attrs)@,
            forall|j: int| 0 <= j < i ==> attrs@[j].0@ != key@,
        decreases attrs@.len() - i,
    {
        if attrs[i].0 == key {
            let ghost before = attrs@;
            let ghost k = key@;
            let ghost v = value@;
            attrs.set(i, (key, value));
            proof {
                lemma_attr_lookup_update(before, i as int, attrs@[i as int]);
                assert(pairs_map(attrs@) =~= pairs_map(before).insert(k, v));
            }
            return;
        }
        i = i + 1;
    }
    let ghost before = attrs@;
    let ghost k = key@;
    let ghost v = value@;
    attrs.push((key, value));
    proof {
        lemma_attr_lookup_push(before, attrs@.last());
        assert(pairs_map(attrs@) =~= pairs_map(before).insert(k, v));
    }
}

proof fn lemma_attr_lookup_update_at(attrs: Seq<(String, String)>, i: int, p: (String, String), k: Seq<char>)
    requires
        0 <= i < attrs.len(),
        attrs[i].0@ == p.0@,
        forall|j: int| 0 <= j < i ==> attrs[j].0@ != p.0@,
    ensures
        attr_lookup(attrs.update(i, p), k) == if k == p.0@ {
            Some(p.1@)
        } else {
            attr_lookup(attrs, k)
        },
    decreases i,
{
    let u = attrs.update(i, p);
    if i == 0 {
        assert(u.drop_first() =~= attrs.drop_first());
        if k == p.0@ {
        } else {
            assert(attrs[0].0@ != k);
            assert(attr_lookup(u, k) == attr_lookup(u.drop_first(), k));
            assert(attr_lookup(attrs, k) == attr_lookup(attrs.drop_first(), k));
        }
    } else {
        assert(u.drop_first() =~= attrs.drop_first().update(i - 1, p));
        assert(u[0] == attrs[0]);
        if attrs[0].0@ == k {
        } else {
            lemma_attr_lookup_update_at(attrs.drop_first(), i - 1, p, k);
        }
    }
}

proof fn lemma_attr_lookup_update(attrs: Seq<(String, String)>, i: int, p: (String, String))
    requires
        0 <= i < attrs.len(),
        attrs[i].0@ == p.0@,
        forall|j: int| 0 <= j < i ==> attrs[j].0@ != p.0@,
    ensures
        forall|k: Seq<char>| #[trigger] attr_lookup(attrs.update(i, p), k) == if k == p.0@ {
            Some(p.1@)
        } else {
            attr_lookup(attrs, k)
        },
{
    assert forall|k: Seq<char>| #[trigger] attr_lookup(attrs.update(i, p), k) == if k == p.0@ {
        Some(p.1@)
    } else {
        attr_lookup(attrs, k)
    } by {
        lemma_attr_lookup_update_at(attrs, i, p, k);
    }
}

proof fn lemma_attr_lookup_push_at(attrs: Seq<(String, String)>, p: (String, String), k: Seq<char>)
    requires
        forall|j: int| 0 <= j < attrs.len() ==> attrs[j].0@ != p.0@,
    ensures
        attr_lookup(attrs.push(p), k) == if k == p.0@ {
            Some(p.1@)
        } else {
            attr_lookup(attrs, k)
        },
    decreases attrs.len(),
{
    let u = attrs.push(p);
    if attrs.len() > 0 {
        assert(u.drop_first() =~= attrs.drop_first().push(p));
        assert(u[0] == attrs[0]);
        if attrs[0].0@ == k {
        } else {
            lemma_attr_lookup_push_at(attrs.drop_first(), p, k);
        }
    } else {
        assert(u[0] == p);
        assert(u.drop_first() =~= Seq::<(String, String)>::empty());
        if k != p.0@ {
            assert(attr_lookup(u, k) == attr_lookup(u.drop_first(), k));
        }
    }
}

proof fn lemma_attr_lookup_push(attrs: Seq<(String, String)>, p: (String, String))
    requires
        forall|j: int| 0 <= j < attrs.len() ==> attrs[j].0@ != p.0@,
    ensures
        forall|k: Seq<char>| #[trigger] attr_lookup(attrs.push(p), k) == if k == p.0@ {
            Some(p.1@)
        } else {
            attr_lookup(attrs, k)
        },
{
    assert forall|k: Seq<char>| #[trigger] attr_lookup(attrs.push(p), k) == if k == p.0@ {
        Some(p.1@)
    } else {
        attr_lookup(attrs, k)
    } by {
        lemma_attr_lookup_push_at(attrs, p, k);
    }
}

/// Looks up `key` in a list of string pairs.
fn get_attr<'a>(attrs: &'a Vec<(String, String)>, key: &String) -> (r: Option<&'a String>)
    ensures
        match r {
            Some(v) => attr_lookup(attrs@, key@) == Some(v@),
            None => attr_lookup(attrs@, key@) is None,
        },
{
    let mut i: usize = 0;
    assert(attrs@.skip(0) =~= attrs@);
    while i < attrs.len()
        invariant
            0 <= i <= attrs@.len(),
            attr_lookup(attrs@, key@) == attr_lookup(attrs@.skip(i as int), key@),
        decreases attrs@.len() - i,
    {
        assert(attrs@.skip(i as int).drop_first() =~= attrs@.skip(i + 1));
        if attrs[i].0 == *key {
            return Some(&attrs[i].1);
        }
        i = i + 1;
    }
    None
}

impl Event {
    /// Create a new event
    pub fn new(event_type: EventType, payload: EventPayload) -> (e: Event)
        ensures
            e.event_type == event_type,
            e.payload == payload,
            e.attributes@ == Seq::<(String, String)>::empty(),
    {
        Event { event_type, payload, attributes: Vec::new() }
    }

    /// Add an attribute to the event
    pub fn with_attribute(self, key: String, value: String) -> (e: Event)
        ensures
            e.event_type == self.event_type,
            e.payload == self.payload,
            forall|k: Seq<char>| #[trigger] attr_lookup(e.attributes@, k) == if k == key@ {
                Some(value@)
            } else {
                attr_lookup(self.attributes@, k)
            },
    {
        let mut e = self;
        set_attr(&mut e.attributes, key, value);
        e
    }

    /// Create an OK event
    pub fn ok() -> (e: Event)
        ensures
            e.event_type == EventType::Success,
            e.payload is Empty,
            e.attributes@ == Seq::<(String, String)>::empty(),
    {
        Event::new(EventType::Success, EventPayload::Empty)
    }

    /// Create an error event
    pub fn error(msg: String) -> (e: Event)
        ensures
            e.event_type == EventType::Error,
            e.payload == EventPayload::Text(msg),
            e.attributes@ == Seq::<(String, String)>::empty(),
    {
        Event::new(EventType::Error, EventPayload::Text(msg))
    }

    /// Check if this event matches the given filters
    pub fn matches_filters(&self, filters: &Vec<(String, String)>) -> (r: bool)
        ensures
            r == filters_match(self.attributes@, filters@),
    {
        let mut i: usize = 0;
        while i < filters.len()
            invariant
                0 <= i <= filters@.len(),
                forall|j: int| 0 <= j < i ==> attr_lookup(self.attributes@, #[trigger] filters@[j].0@) == Some(filters@[j].1@),
            decreases filters@.len() - i,
        {
            match get_attr(&self.attributes, &filters[i].0) {
                Some(v) => {
                    if *v != filters[i].1 {
                        return false;
                    }
                },
                None => {
                    return false;
                },
            }
            i = i + 1;
        }
        true
    }

    /// Whether a subscription to `event_type` with these filters receives
    /// this event.
    pub fn matches_subscription(&self, event_type: EventType, filters: &Vec<(String, String)>) -> (r: bool)
        ensures
            r == (self.event_type == event_type && filters_match(self.attributes@, filters@)),
    {
        self.event_type == event_type && self.matches_filters(filters)
    }
}

/// Law: an attribute reads back as the value last written under its key,
/// and writing one key leaves the others as they were.
pub proof fn lemma_attribute_read_after_write(e: Event, key: String, value: String, after: Event, k: Seq<char>)
    requires
        forall|k2: Seq<char>| #[trigger] attr_lookup(after.attributes@, k2) == if k2 == key@ {
            Some(value@)
        } else {
            attr_lookup(e.attributes@, k2)
        },
    ensures
        attr_lookup(after.attributes@, key@) == Some(value@),
        k != key@ ==> attr_lookup(after.attributes@, k) == attr_lookup(e.attributes@, k),
{
    assert(attr_lookup(after.attributes@, key@) == Some(value@));
    assert(attr_lookup(after.attributes@, k) == (if k == key@ { Some(value@) } else { attr_lookup(e.attributes@, k) }));
}

/// Law: every event matches an empty filter set.
pub proof fn lemma_empty_filters_match(attrs: Seq<(String, String)>)
    ensures
        filters_match(attrs, Seq::empty()),
{
}

impl Contact {
    /// Get the 6-byte public key prefix
    pub fn prefix(&self) -> (p: [u8; 6])
        ensures
            p@ == self.public_key@.take(6),
    {
        let mut p = [0u8; 6];
        let mut i: usize = 0;
        while i < 6
            invariant
                0 <= i <= 6,
                forall|k: int| 0 <= k < i ==> p@[k] == self.public_key@[k],
            decreases 6 - i,
        {
            p[i] = self.public_key[i];
            i = i + 1;
        }
        assert(p@ =~= self.public_key@.take(6));
        p
    }

    /// Get the public key as a hex string
    pub fn public_key_hex(&self) -> (s: String)
        ensures
            s@ == hex_spec(self.public_key@),
    {
        hex_encode(&self.public_key)
    }

    /// Get the prefix as a hex string
    pub fn prefix_hex(&self) -> (s: String)
        ensures
            s@ == hex_spec(self.public_key@.take(6)),
    {
        let p = self.prefix();
        hex_encode(&p)
    }
}

/// Hex-encodes bytes (lowercase, two digits per byte).
pub fn encode(data: &[u8]) -> (s: String)
    ensures
        s@ == hex_spec(data@),
{
    hex_encode(data)
}

} // verus!
