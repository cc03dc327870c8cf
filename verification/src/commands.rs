//! Command encoding for the companion protocol: where a command goes, the
//! bytes each command sends, and what each command makes of the reply.
use vstd::prelude::*;
use vstd::string::StringSliceAdditionalSpecFns;
use vstd::utf8::encode_utf8;
use crate::error::Error;
use crate::events::{AclEntry, BatteryInfo, ChannelInfoData, Contact, DeviceInfoData, Event, EventPayload, EventType, MsgSentInfo, NeighboursData, ReceivedMessage, SelfInfo, StatusData};
use crate::packets::{binary_req_code, BinaryReqType};
use crate::text::{decimal, decimal_text, message_with_count};
use vstd::string::StringExecFns;
use vstd::std_specs::convert::FromSpecImpl;
use crate::parsing::{contact_spec, lemma_u32_at, le_u16, le_u32, hex_decodable, hex_decode, hex_decode_defined, hex_decode_spec, is_protocol_error};

verus! {

/// Destination type for commands
#[derive(Debug, Clone)]
pub enum Destination {
    /// Raw bytes (6 or 32 bytes)
    Bytes(Vec<u8>),
    /// Hex string
    Hex(String),
    /// Contact reference
    Contact(Contact),
}

/// The first `n` bytes of `b`, as an array.
fn first_bytes<const N: usize>(b: &[u8]) -> (r: [u8; N])
    requires
        b@.len() >= N,
    ensures
        r@ == b@.take(N as int),
{
    let mut r = [0u8; N];
    let mut i: usize = 0;
    while i < N
        invariant
            0 <= i <= N,
            N <= b@.len(),
            forall|k: int| 0 <= k < i ==> r@[k] == b@[k],
        decreases N - i,
    {
        r[i] = b[i];
        i = i + 1;
    }
    assert(r@ =~= b@.take(N as int));
    r
}

impl Destination {
    /// The bytes a destination names: the raw bytes, the decoded hex text
    /// (or the decoder's error message), or the contact's public key.
    pub open spec fn key_bytes(&self) -> Result<Seq<u8>, Seq<char>> {
        match self {
            Destination::Bytes(b) => Ok(b@),
            Destination::Hex(s) => hex_decode_spec(encode_utf8(s@)),
            Destination::Contact(c) => Ok(c.public_key@),
        }
    }

    /// A hex destination whose pairs the decoder can slice without cutting
    /// a character in two (every other destination qualifies).
    pub open spec fn decodable(&self) -> bool {
        self matches Destination::Hex(s) ==> hex_decode_defined(encode_utf8(s@))
    }

    /// The 6-byte prefix, or the message of the error that `prefix` gives.
    pub open spec fn prefix_spec(&self) -> Result<Seq<u8>, Seq<char>> {
        match self.key_bytes() {
            Ok(b) => if b.len() >= 6 {
                Ok(b.take(6))
            } else {
                Err("Destination too short"@)
            },
            Err(m) => Err(m),
        }
    }

    /// The full 32-byte public key, where the destination holds one.
    pub open spec fn public_key_spec(&self) -> Option<Seq<u8>> {
        match self.key_bytes() {
            Ok(b) => if b.len() >= 32 {
                Some(b.take(32))
            } else {
                None
            },
            Err(_) => None,
        }
    }

    /// Whether `prefix` and `public_key` can decode this destination (a
    /// hex text whose pairs would cut a character in two cannot be).
    pub fn is_decodable(&self) -> (r: bool)
        ensures
            r == self.decodable(),
    {
        match self {
            Destination::Hex(s) => hex_decodable(s.as_str()),
            _ => true,
        }
    }

    /// Get the 6-byte prefix
    pub fn prefix(&self) -> (r: Result<[u8; 6], Error>)
        requires
            self.decodable(),
        ensures
            r matches Ok(p) ==> self.prefix_spec() == Ok::<Seq<u8>, Seq<char>>(p@),
            r matches Err(e) ==> e is InvalidParameter && self.prefix_spec() == Err::<
                Seq<u8>,
                Seq<char>,
            >(e.invalid_param_message()),
    {
        match self {
            Destination::Bytes(b) => {
                if b.len() >= 6 {
                    Ok(first_bytes::<6>(b.as_slice()))
                } else {
                    Err(Error::InvalidParameter(String::from_str("Destination too short")))
                }
            },
            Destination::Hex(s) => {
                match hex_decode(s.as_str()) {
                    Ok(bytes) => {
                        if bytes.len() >= 6 {
                            Ok(first_bytes::<6>(bytes.as_slice()))
                        } else {
                            Err(Error::InvalidParameter(String::from_str("Destination too short")))
                        }
                    },
                    Err(e) => Err(e),
                }
            },
            Destination::Contact(c) => Ok(c.prefix()),
        }
    }

    /// Get the full public key if available (32 bytes)
    pub fn public_key(&self) -> (r: Option<[u8; 32]>)
        requires
            self.decodable(),
        ensures
            r matches Some(k) ==> self.public_key_spec() == Some(k@),
            r is None ==> self.public_key_spec() is None,
    {
        match self {
            Destination::Bytes(b) => {
                if b.len() >= 32 {
                    Some(first_bytes::<32>(b.as_slice()))
                } else {
                    None
                }
            },
            Destination::Hex(s) => {
                match hex_decode(s.as_str()) {
                    Ok(bytes) => {
                        if bytes.len() >= 32 {
                            Some(first_bytes::<32>(bytes.as_slice()))
                        } else {
                            None
                        }
                    },
                    Err(_) => None,
                }
            },
            Destination::Contact(c) => {
                assert(c.public_key@.take(32) =~= c.public_key@);
                Some(c.public_key)
            },
        }
    }
}

impl From<Vec<u8>> for Destination {
    fn from(bytes: Vec<u8>) -> (d: Self) {
        Destination::Bytes(bytes)
    }
}

impl FromSpecImpl<Vec<u8>> for Destination {
    open spec fn obeys_from_spec() -> bool {
        true
    }

    open spec fn from_spec(v: Vec<u8>) -> Destination {
        Destination::Bytes(v)
    }
}

impl From<String> for Destination {
    fn from(s: String) -> (d: Self) {
        Destination::Hex(s)
    }
}

impl FromSpecImpl<String> for Destination {
    open spec fn obeys_from_spec() -> bool {
        true
    }

    open spec fn from_spec(v: String) -> Destination {
        Destination::Hex(v)
    }
}

impl From<Contact> for Destination {
    fn from(c: Contact) -> (d: Self) {
        Destination::Contact(c)
    }
}

impl FromSpecImpl<Contact> for Destination {
    open spec fn obeys_from_spec() -> bool {
        true
    }

    open spec fn from_spec(v: Contact) -> Destination {
        Destination::Contact(v)
    }
}

impl<'a> From<&'a [u8]> for Destination {
    /// Copies the bytes into a new destination.
    fn from(bytes: &'a [u8]) -> (d: Self)
        ensures
            d matches Destination::Bytes(b) && b@ == bytes@,
    {
        Destination::Bytes(vstd::slice::slice_to_vec(bytes))
    }
}

impl<'a> FromSpecImpl<&'a [u8]> for Destination {
    /// The copy is a new vector, which no spec value names in advance; the
    /// `ensures` of `from` states what it holds.
    open spec fn obeys_from_spec() -> bool {
        false
    }

    open spec fn from_spec(v: &'a [u8]) -> Destination {
        arbitrary()
    }
}

impl<'a> From<&'a str> for Destination {
    /// Copies the hex text into a new destination.
    fn from(s: &'a str) -> (d: Self)
        ensures
            d matches Destination::Hex(h) && h@ == s@,
    {
        Destination::Hex(String::from_str(s))
    }
}

impl<'a> FromSpecImpl<&'a str> for Destination {
    /// The copy is a new string, which no spec value names in advance; the
    /// `ensures` of `from` states what it holds.
    open spec fn obeys_from_spec() -> bool {
        false
    }

    open spec fn from_spec(v: &'a str) -> Destination {
        arbitrary()
    }
}

impl<'a> From<&'a Contact> for Destination {
    /// Copies the contact into a new destination.
    fn from(c: &'a Contact) -> (d: Self)
        ensures
            d matches Destination::Contact(k) && k@ == c@,
    {
        let out_path = vstd::slice::slice_to_vec(c.out_path.as_slice());
        let adv_name = String::from_str(c.adv_name.as_str());
        Destination::Contact(
            Contact {
                public_key: c.public_key,
                contact_type: c.contact_type,
                flags: c.flags,
                path_len: c.path_len,
                out_path,
                adv_name,
                last_advert: c.last_advert,
                adv_lat: c.adv_lat,
                adv_lon: c.adv_lon,
                last_modification_timestamp: c.last_modification_timestamp,
            },
        )
    }
}

impl<'a> FromSpecImpl<&'a Contact> for Destination {
    /// The copy holds a new vector and string, which no spec value names in
    /// advance; the `ensures` of `from` states that it equals the contact.
    open spec fn obeys_from_spec() -> bool {
        false
    }

    open spec fn from_spec(v: &'a Contact) -> Destination {
        arbitrary()
    }
}

// ---------------------------------------------------------------------
// Command bytes
// ---------------------------------------------------------------------

/// Command byte: start the application session.
pub const CMD_APP_START: u8 = 1;
/// Command byte: send a text message to a contact.
pub const CMD_SEND_TXT_MSG: u8 = 2;
/// Command byte: send a text message on a channel.
pub const CMD_SEND_CHANNEL_TXT_MSG: u8 = 3;
/// Command byte: list the contacts.
pub const CMD_GET_CONTACTS: u8 = 4;
/// Command byte: read the device clock.
pub const CMD_GET_DEVICE_TIME: u8 = 5;
/// Command byte: set the device clock.
pub const CMD_SET_DEVICE_TIME: u8 = 6;
/// Command byte: send the node's own advertisement.
pub const CMD_SEND_SELF_ADVERT: u8 = 7;
/// Command byte: set the advertised name.
pub const CMD_SET_ADVERT_NAME: u8 = 8;
/// Command byte: add or update a contact.
pub const CMD_ADD_UPDATE_CONTACT: u8 = 9;
/// Command byte: fetch the next queued message.
pub const CMD_SYNC_NEXT_MESSAGE: u8 = 10;
/// Command byte: set the radio TX power.
pub const CMD_SET_RADIO_TX_POWER: u8 = 12;
/// Command byte: set the advertised position.
pub const CMD_SET_ADVERT_LATLON: u8 = 14;
/// Command byte: remove a contact.
pub const CMD_REMOVE_CONTACT: u8 = 15;
/// Command byte: export a contact card.
pub const CMD_EXPORT_CONTACT: u8 = 17;
/// Command byte: import a contact card.
pub const CMD_IMPORT_CONTACT: u8 = 18;
/// Command byte: reboot the device.
pub const CMD_REBOOT: u8 = 19;
/// Command byte: read battery and storage.
pub const CMD_GET_BATT_AND_STORAGE: u8 = 20;
/// Command byte: query the device.
pub const CMD_DEVICE_QUERY: u8 = 22;
/// Command byte: export the private key.
pub const CMD_EXPORT_PRIVATE_KEY: u8 = 23;
/// Command byte: import a private key.
pub const CMD_IMPORT_PRIVATE_KEY: u8 = 24;
/// Command byte: log in to a repeater or room.
pub const CMD_SEND_LOGIN: u8 = 26;
/// Command byte: log out of a repeater or room.
pub const CMD_LOGOUT: u8 = 29;
/// Command byte: read a channel.
pub const CMD_GET_CHANNEL: u8 = 31;
/// Command byte: set a channel.
pub const CMD_SET_CHANNEL: u8 = 32;
/// Command byte: start a signing session.
pub const CMD_SIGN_START: u8 = 33;
/// Command byte: send data to sign.
pub const CMD_SIGN_DATA: u8 = 34;
/// Command byte: finish signing.
pub const CMD_SIGN_FINISH: u8 = 35;
/// Command byte: read the custom variables.
pub const CMD_GET_CUSTOM_VARS: u8 = 40;
/// Command byte: set a custom variable.
pub const CMD_SET_CUSTOM_VAR: u8 = 41;
/// Command byte: send a binary request.
pub const CMD_SEND_BINARY_REQ: u8 = 50;

/// Protocol version announced by the device query.
pub const PROTOCOL_VERSION: u8 = 8;

/// Little-endian bytes of a 16-bit number.
pub open spec fn le16(v: u16) -> Seq<u8> {
    seq![(v % 256) as u8, (v / 256) as u8]
}

/// Little-endian bytes of a 32-bit number.
pub open spec fn le32(v: u32) -> Seq<u8> {
    seq![(v % 256) as u8, ((v / 256) % 256) as u8, ((v / 65536) % 256) as u8, (v / 16777216) as u8]
}

/// Law: the little-endian bytes a command writes for a 32-bit number read
/// back, with the reader the payload parsers use, as that number.
pub proof fn lemma_le32_reads_back(v: u32)
    ensures
        le32(v).len() == 4,
        le_u32(le32(v), 0) == v,
{
    let s = le32(v);
    assert(s[0] == v % 256 && s[1] == (v / 256) % 256 && s[2] == (v / 65536) % 256 && s[3] == v / 16777216);
    assert(v % 256 + 256 * ((v / 256) % 256) + 65536 * ((v / 65536) % 256) + 16777216 * (v / 16777216) == v)
        by (bit_vector);
}

/// Law: the little-endian bytes a command writes for a 16-bit number read
/// back, with the reader the payload parsers use, as that number.
pub proof fn lemma_le16_reads_back(v: u16)
    ensures
        le16(v).len() == 2,
        le_u16(le16(v), 0) == v,
{
    let s = le16(v);
    assert(s[0] == v % 256 && s[1] == v / 256);
    assert(v % 256 + 256 * (v / 256) == v) by (bit_vector);
}

/// `b` cut or zero-padded to exactly `n` bytes.
pub open spec fn padded(b: Seq<u8>, n: nat) -> Seq<u8> {
    if b.len() >= n {
        b.take(n as int)
    } else {
        b + Seq::new((n - b.len()) as nat, |i: int| 0u8)
    }
}

/// Law: padding keeps the first `n` bytes of the field (all of it when it
/// is shorter) and fills the rest with zeros, to exactly `n` bytes.
pub proof fn lemma_padded(b: Seq<u8>, n: nat)
    ensures
        padded(b, n).len() == n,
        forall|i: int| 0 <= i < n ==> #[trigger] padded(b, n)[i] == if i < b.len() {
            b[i]
        } else {
            0u8
        },
{
}

fn append_bytes(v: &mut Vec<u8>, b: &[u8])
    requires
        old(v)@.len() + b@.len() <= usize::MAX,
    ensures
        final(v)@ == old(v)@ + b@,
{
    let ghost start = v@;
    let mut i: usize = 0;
    while i < b.len()
        invariant
            0 <= i <= b@.len(),
            v@ == start + b@.take(i as int),
        decreases b@.len() - i,
    {
        v.push(b[i]);
        i = i + 1;
        assert(v@ =~= start + b@.take(i as int));
    }
    assert(b@.take(i as int) =~= b@);
}

fn append_u16_le(v: &mut Vec<u8>, x: u16)
    ensures
        final(v)@ == old(v)@ + le16(x),
{
    v.push((x % 256) as u8);
    v.push((x / 256) as u8);
    assert(final(v)@ =~= old(v)@ + le16(x));
}

fn append_u32_le(v: &mut Vec<u8>, x: u32)
    ensures
        final(v)@ == old(v)@ + le32(x),
{
    v.push((x % 256) as u8);
    v.push(((x / 256) % 256) as u8);
    v.push(((x / 65536) % 256) as u8);
    v.push((x / 16777216) as u8);
    assert(final(v)@ =~= old(v)@ + le32(x));
}

fn append_padded(v: &mut Vec<u8>, b: &[u8], n: usize)
    requires
        old(v)@.len() + n <= usize::MAX,
    ensures
        final(v)@ == old(v)@ + padded(b@, n as nat),
{
    let ghost start = v@;
    let mut i: usize = 0;
    while i < n
        invariant
            0 <= i <= n,
            start.len() + n <= usize::MAX,
            v@ == start + padded(b@, n as nat).take(i as int),
        decreases n - i,
    {
        if i < b.len() {
            v.push(b[i]);
        } else {
            v.push(0u8);
        }
        i = i + 1;
        assert(v@ =~= start + padded(b@, n as nat).take(i as int));
    }
    assert(padded(b@, n as nat).take(n as int) =~= padded(b@, n as nat));
}

/// APPSTART: the command byte, seven reserved zero bytes, and the
/// application name `mccli`.
pub fn appstart_packet() -> (p: Vec<u8>)
    ensures
        p@ == seq![1u8, 0u8, 0u8, 0u8, 0u8, 0u8, 0u8, 0u8, 109u8, 99u8, 99u8, 108u8, 105u8],
{
    let p = vec![
        CMD_APP_START, 0u8, 0u8, 0u8, 0u8, 0u8, 0u8, 0u8,
        109u8, 99u8, 99u8, 108u8, 105u8,
    ];
    assert(p@ =~= seq![1u8, 0u8, 0u8, 0u8, 0u8, 0u8, 0u8, 0u8, 109u8, 99u8, 99u8, 108u8, 105u8]);
    p
}

/// Device query: the command byte and the protocol version.
pub fn device_query_packet() -> (p: Vec<u8>)
    ensures
        p@ == seq![22u8, 8u8],
{
    let p = vec![CMD_DEVICE_QUERY, PROTOCOL_VERSION];
    assert(p@ =~= seq![22u8, 8u8]);
    p
}

/// A command that is its command byte alone.
fn single_byte_packet(cmd: u8) -> (p: Vec<u8>)
    ensures
        p@ == seq![cmd],
{
    let p = vec![cmd];
    assert(p@ =~= seq![cmd]);
    p
}

/// Battery and storage query.
pub fn get_bat_packet() -> (p: Vec<u8>)
    ensures
        p@ == seq![20u8],
{
    single_byte_packet(CMD_GET_BATT_AND_STORAGE)
}

/// Device time query.
pub fn get_time_packet() -> (p: Vec<u8>)
    ensures
        p@ == seq![5u8],
{
    single_byte_packet(CMD_GET_DEVICE_TIME)
}

/// Set device time: the command byte and the timestamp, little-endian.
pub fn set_time_packet(timestamp: u32) -> (p: Vec<u8>)
    ensures
        p@ == seq![6u8] + le32(timestamp),
{
    let mut p = single_byte_packet(CMD_SET_DEVICE_TIME);
    append_u32_le(&mut p, timestamp);
    p
}

/// Set the advertised name: the command byte and the name's UTF-8 bytes.
pub fn set_name_packet(name: &str) -> (p: Vec<u8>)
    requires
        name.spec_bytes().len() < usize::MAX,
    ensures
        p@ == seq![8u8] + name.spec_bytes(),
{
    let mut p = single_byte_packet(CMD_SET_ADVERT_NAME);
    append_bytes(&mut p, name.as_bytes());
    p
}

/// Set the advertised position: the command byte, then latitude and
/// longitude in microdegrees, each little-endian in two's complement.
pub fn set_coords_packet(lat_micro: i32, lon_micro: i32) -> (p: Vec<u8>)
    ensures
        p@ == seq![14u8] + le32(lat_micro as u32) + le32(lon_micro as u32),
{
    let mut p = single_byte_packet(CMD_SET_ADVERT_LATLON);
    append_u32_le(&mut p, lat_micro as u32);
    append_u32_le(&mut p, lon_micro as u32);
    p
}

/// Set TX power: the command byte and the power.
pub fn set_tx_power_packet(power: u8) -> (p: Vec<u8>)
    ensures
        p@ == seq![12u8, power],
{
    let p = vec![CMD_SET_RADIO_TX_POWER, power];
    assert(p@ =~= seq![12u8, power]);
    p
}

/// Send advertisement: the command byte, followed by `1` for a flood
/// advertisement.
pub fn send_advert_packet(flood: bool) -> (p: Vec<u8>)
    ensures
        p@ == if flood {
            seq![7u8, 1u8]
        } else {
            seq![7u8]
        },
{
    let mut p = single_byte_packet(CMD_SEND_SELF_ADVERT);
    if flood {
        p.push(1u8);
        assert(p@ =~= seq![7u8, 1u8]);
    }
    p
}

/// Reboot: the command byte and the word `reboot`.
pub fn reboot_packet() -> (p: Vec<u8>)
    ensures
        p@ == seq![19u8, 114u8, 101u8, 98u8, 111u8, 111u8, 116u8],
{
    let p = vec![CMD_REBOOT, 114u8, 101u8, 98u8, 111u8, 111u8, 116u8];
    assert(p@ =~= seq![19u8, 114u8, 101u8, 98u8, 111u8, 111u8, 116u8]);
    p
}

/// Custom variables query.
pub fn get_custom_vars_packet() -> (p: Vec<u8>)
    ensures
        p@ == seq![40u8],
{
    single_byte_packet(CMD_GET_CUSTOM_VARS)
}

/// Set a custom variable: the command byte, then `key=value` in UTF-8.
pub fn set_custom_var_packet(key: &str, value: &str) -> (p: Vec<u8>)
    requires
        key.spec_bytes().len() + value.spec_bytes().len() + 2 <= usize::MAX,
    ensures
        p@ == seq![41u8] + key.spec_bytes() + seq![61u8] + value.spec_bytes(),
{
    let mut p = single_byte_packet(CMD_SET_CUSTOM_VAR);
    append_bytes(&mut p, key.as_bytes());
    p.push(61u8);
    append_bytes(&mut p, value.as_bytes());
    p
}

/// Channel query: the command byte and the channel index.
pub fn get_channel_packet(channel_idx: u8) -> (p: Vec<u8>)
    ensures
        p@ == seq![31u8, channel_idx],
{
    let p = vec![CMD_GET_CHANNEL, channel_idx];
    assert(p@ =~= seq![31u8, channel_idx]);
    p
}

/// Set a channel: the command byte, the index, the name's UTF-8 bytes cut
/// or zero-padded to 16, and the 16-byte secret.
pub fn set_channel_packet(channel_idx: u8, name: &str, secret: &[u8; 16]) -> (p: Vec<u8>)
    ensures
        p@ == seq![32u8, channel_idx] + padded(name.spec_bytes(), 16) + secret@,
{
    let mut p = vec![CMD_SET_CHANNEL, channel_idx];
    assert(p@ =~= seq![32u8, channel_idx]);
    append_padded(&mut p, name.as_bytes(), 16);
    append_bytes(&mut p, secret.as_slice());
    p
}

/// Private key export request.
pub fn export_private_key_packet() -> (p: Vec<u8>)
    ensures
        p@ == seq![23u8],
{
    single_byte_packet(CMD_EXPORT_PRIVATE_KEY)
}

/// Private key import: the command byte and the 64-byte key.
pub fn import_private_key_packet(key: &[u8; 64]) -> (p: Vec<u8>)
    ensures
        p@ == seq![24u8] + key@,
{
    let mut p = single_byte_packet(CMD_IMPORT_PRIVATE_KEY);
    append_bytes(&mut p, key.as_slice());
    p
}

/// Contact list request: the command byte and the last modification
/// timestamp, little-endian.
pub fn get_contacts_packet(last_modification_timestamp: u32) -> (p: Vec<u8>)
    ensures
        p@ == seq![4u8] + le32(last_modification_timestamp),
{
    let mut p = single_byte_packet(CMD_GET_CONTACTS);
    append_u32_le(&mut p, last_modification_timestamp);
    p
}

/// The record that adds or updates a contact.
pub open spec fn contact_record(c: Contact) -> Seq<u8> {
    c.public_key@ + seq![c.contact_type, c.flags, c.path_len as u8] + padded(c.out_path@, 64)
        + padded(encode_utf8(c.adv_name@), 32) + le32(c.last_advert) + le32(c.adv_lat as u32)
        + le32(c.adv_lon as u32)
}

/// Add or update a contact: the command byte, key, type, flags, path
/// length, path padded to 64, name padded to 32, last advert, latitude and
/// longitude.
pub fn add_contact_packet(contact: &Contact) -> (p: Vec<u8>)
    ensures
        p@ == seq![9u8] + contact_record(*contact),
{
    let mut p = single_byte_packet(CMD_ADD_UPDATE_CONTACT);
    append_bytes(&mut p, contact.public_key.as_slice());
    p.push(contact.contact_type);
    p.push(contact.flags);
    p.push(contact.path_len as u8);
    append_padded(&mut p, contact.out_path.as_slice(), 64);
    append_padded(&mut p, contact.adv_name.as_str().as_bytes(), 32);
    append_u32_le(&mut p, contact.last_advert);
    append_u32_le(&mut p, contact.adv_lat as u32);
    append_u32_le(&mut p, contact.adv_lon as u32);
    assert(p@ =~= seq![9u8] + contact_record(*contact));
    p
}

/// Law: the add-contact record is the contact record layout that contact
/// lists use: 143 bytes, read back by the contact parser (whatever follows
/// it) as the contact's key, type, flags, path length, last advertisement
/// time, latitude and longitude.
pub proof fn lemma_contact_record_reads_back(c: Contact, t: Seq<u8>)
    ensures
        contact_record(c).len() == 143,
        contact_spec(contact_record(c) + t).public_key == c.public_key@,
        contact_spec(contact_record(c) + t).contact_type == c.contact_type,
        contact_spec(contact_record(c) + t).flags == c.flags,
        contact_spec(contact_record(c) + t).path_len == c.path_len,
        contact_spec(contact_record(c) + t).last_advert == c.last_advert,
        contact_spec(contact_record(c) + t).adv_lat == c.adv_lat,
        contact_spec(contact_record(c) + t).adv_lon == c.adv_lon,
{
    let rec = contact_record(c);
    let r = rec + t;
    assert(padded(c.out_path@, 64).len() == 64);
    assert(padded(encode_utf8(c.adv_name@), 32).len() == 32);
    assert(rec.len() == 143);
    assert(r.subrange(0, 32) =~= c.public_key@);
    assert(r[32] == c.contact_type);
    assert(r[33] == c.flags);
    assert(r[34] == c.path_len as u8);
    assert(r.subrange(131, 135) =~= le32(c.last_advert));
    assert(r.subrange(135, 139) =~= le32(c.adv_lat as u32));
    assert(r.subrange(139, 143) =~= le32(c.adv_lon as u32));
    lemma_u32_at(r, 131, c.last_advert);
    lemma_u32_at(r, 135, c.adv_lat as u32);
    lemma_u32_at(r, 139, c.adv_lon as u32);
    let pl = c.path_len;
    let la = c.adv_lat;
    let lo = c.adv_lon;
    assert((pl as u8) as i8 == pl) by (bit_vector);
    assert((la as u32) as i32 == la) by (bit_vector);
    assert((lo as u32) as i32 == lo) by (bit_vector);
}

/// The error that a destination gives when it names no prefix.
pub open spec fn is_invalid_param(e: Error, msg: Seq<char>) -> bool {
    e is InvalidParameter && e.invalid_param_message() == msg
}

/// A command byte followed by the destination's 6-byte prefix, or the
/// prefix's error.
fn prefixed_packet(cmd: u8, dest: &Destination) -> (r: Result<Vec<u8>, Error>)
    requires
        dest.decodable(),
    ensures
        match dest.prefix_spec() {
            Ok(prefix) => r matches Ok(p) && p@ == seq![cmd] + prefix,
            Err(m) => r matches Err(e) && is_invalid_param(e, m),
        },
{
    match dest.prefix() {
        Ok(prefix) => {
            let mut p = single_byte_packet(cmd);
            append_bytes(&mut p, prefix.as_slice());
            Ok(p)
        },
        Err(e) => Err(e),
    }
}

/// Remove a contact: the command byte and the destination's prefix.
pub fn remove_contact_packet(dest: &Destination) -> (r: Result<Vec<u8>, Error>)
    requires
        dest.decodable(),
    ensures
        match dest.prefix_spec() {
            Ok(prefix) => r matches Ok(p) && p@ == seq![15u8] + prefix,
            Err(m) => r matches Err(e) && is_invalid_param(e, m),
        },
{
    prefixed_packet(CMD_REMOVE_CONTACT, dest)
}

/// Export a contact card: the command byte, followed by the destination's
/// prefix where one is given (the node's own card otherwise).
pub fn export_contact_packet(dest: Option<&Destination>) -> (r: Result<Vec<u8>, Error>)
    requires
        dest matches Some(d) ==> d.decodable(),
    ensures
        match dest {
            None => r matches Ok(p) && p@ == seq![17u8],
            Some(d) => match d.prefix_spec() {
                Ok(prefix) => r matches Ok(p) && p@ == seq![17u8] + prefix,
                Err(m) => r matches Err(e) && is_invalid_param(e, m),
            },
        },
{
    match dest {
        Some(d) => prefixed_packet(CMD_EXPORT_CONTACT, d),
        None => Ok(single_byte_packet(CMD_EXPORT_CONTACT)),
    }
}

/// Import a contact card: the command byte and the card data.
pub fn import_contact_packet(card_data: &[u8]) -> (p: Vec<u8>)
    requires
        card_data@.len() < usize::MAX,
    ensures
        p@ == seq![18u8] + card_data@,
{
    let mut p = single_byte_packet(CMD_IMPORT_CONTACT);
    append_bytes(&mut p, card_data);
    p
}

/// Next-message request.
pub fn get_msg_packet() -> (p: Vec<u8>)
    ensures
        p@ == seq![10u8],
{
    single_byte_packet(CMD_SYNC_NEXT_MESSAGE)
}

/// Send a text message: the command byte, plain text type 0, attempt 0,
/// the timestamp, the destination's prefix and the message's UTF-8 bytes.
pub fn send_msg_packet(dest: &Destination, msg: &str, timestamp: u32) -> (r: Result<Vec<u8>, Error>)
    requires
        dest.decodable(),
        msg.spec_bytes().len() + 13 <= usize::MAX,
    ensures
        match dest.prefix_spec() {
            Ok(prefix) => r matches Ok(p) && p@ == seq![2u8, 0u8, 0u8] + le32(timestamp) + prefix
                + msg.spec_bytes(),
            Err(m) => r matches Err(e) && is_invalid_param(e, m),
        },
{
    match dest.prefix() {
        Ok(prefix) => {
            let mut p = vec![CMD_SEND_TXT_MSG, 0u8, 0u8];
            assert(p@ =~= seq![2u8, 0u8, 0u8]);
            append_u32_le(&mut p, timestamp);
            append_bytes(&mut p, prefix.as_slice());
            append_bytes(&mut p, msg.as_bytes());
            Ok(p)
        },
        Err(e) => Err(e),
    }
}

/// Send a channel message: the command byte, plain text type 0, the
/// channel, the timestamp and the message's UTF-8 bytes.
pub fn send_chan_msg_packet(channel: u8, msg: &str, timestamp: u32) -> (p: Vec<u8>)
    requires
        msg.spec_bytes().len() + 7 <= usize::MAX,
    ensures
        p@ == seq![3u8, 0u8, channel] + le32(timestamp) + msg.spec_bytes(),
{
    let mut p = vec![CMD_SEND_CHANNEL_TXT_MSG, 0u8, channel];
    assert(p@ =~= seq![3u8, 0u8, channel]);
    append_u32_le(&mut p, timestamp);
    append_bytes(&mut p, msg.as_bytes());
    p
}

/// A command byte followed by the destination's full public key, or the
/// given error where it holds none.
fn keyed_packet(cmd: u8, dest: &Destination, missing: &str) -> (r: Result<(Vec<u8>, [u8; 32]), Error>)
    requires
        dest.decodable(),
    ensures
        match dest.public_key_spec() {
            Some(key) => r matches Ok((p, k)) && p@ == seq![cmd] + key && k@ == key,
            None => r matches Err(e) && is_invalid_param(e, missing@),
        },
{
    match dest.public_key() {
        Some(key) => {
            let mut p = single_byte_packet(cmd);
            append_bytes(&mut p, key.as_slice());
            Ok((p, key))
        },
        None => Err(Error::InvalidParameter(String::from_str(missing))),
    }
}

/// Login: the command byte, the destination's full public key and the
/// password's UTF-8 bytes.
pub fn send_login_packet(dest: &Destination, password: &str) -> (r: Result<Vec<u8>, Error>)
    requires
        dest.decodable(),
        password.spec_bytes().len() + 33 <= usize::MAX,
    ensures
        match dest.public_key_spec() {
            Some(key) => r matches Ok(p) && p@ == seq![26u8] + key + password.spec_bytes(),
            None => r matches Err(e) && is_invalid_param(
                e,
                "Login requires full 32-byte public key"@,
            ),
        },
{
    match keyed_packet(CMD_SEND_LOGIN, dest, "Login requires full 32-byte public key") {
        Ok((mut p, _)) => {
            append_bytes(&mut p, password.as_bytes());
            Ok(p)
        },
        Err(e) => Err(e),
    }
}

/// Logout: the command byte and the destination's full public key.
pub fn send_logout_packet(dest: &Destination) -> (r: Result<Vec<u8>, Error>)
    requires
        dest.decodable(),
    ensures
        match dest.public_key_spec() {
            Some(key) => r matches Ok(p) && p@ == seq![29u8] + key,
            None => r matches Err(e) && is_invalid_param(
                e,
                "Logout requires full 32-byte public key"@,
            ),
        },
{
    match keyed_packet(CMD_LOGOUT, dest, "Logout requires full 32-byte public key") {
        Ok((p, _)) => Ok(p),
        Err(e) => Err(e),
    }
}

/// Binary request: the command byte, the request type and the
/// destination's full public key; the key comes back with the packet, for
/// registering the request once the device acknowledges it.
pub fn send_binary_req_packet(dest: &Destination, req_type: BinaryReqType) -> (r: Result<(Vec<u8>, [u8; 32]), Error>)
    requires
        dest.decodable(),
    ensures
        match dest.public_key_spec() {
            Some(key) => r matches Ok((p, k)) && p@ == seq![50u8, binary_req_code(req_type)] + key
                && k@ == key,
            None => r matches Err(e) && is_invalid_param(
                e,
                "Binary request requires full 32-byte public key"@,
            ),
        },
{
    match dest.public_key() {
        Some(key) => {
            let mut p = vec![CMD_SEND_BINARY_REQ, req_type.to_u8()];
            assert(p@ =~= seq![50u8, binary_req_code(req_type)]);
            append_bytes(&mut p, key.as_slice());
            Ok((p, key))
        },
        None => Err(
            Error::InvalidParameter(String::from_str("Binary request requires full 32-byte public key")),
        ),
    }
}

/// Neighbours request: the binary request for neighbours, followed by the
/// count and the offset, each little-endian.
pub fn req_neighbours_packet(dest: &Destination, count: u16, offset: u16) -> (r: Result<(Vec<u8>, [u8; 32]), Error>)
    requires
        dest.decodable(),
    ensures
        match dest.public_key_spec() {
            Some(key) => r matches Ok((p, k)) && p@ == seq![50u8, 6u8] + key + le16(count) + le16(offset)
                && k@ == key,
            None => r matches Err(e) && is_invalid_param(
                e,
                "Neighbours request requires full 32-byte public key"@,
            ),
        },
{
    match dest.public_key() {
        Some(key) => {
            let mut p = vec![CMD_SEND_BINARY_REQ, BinaryReqType::Neighbours.to_u8()];
            assert(p@ =~= seq![50u8, 6u8]);
            append_bytes(&mut p, key.as_slice());
            append_u16_le(&mut p, count);
            append_u16_le(&mut p, offset);
            Ok((p, key))
        },
        None => Err(
            Error::InvalidParameter(
                String::from_str("Neighbours request requires full 32-byte public key"),
            ),
        ),
    }
}

/// Signing session start.
pub fn sign_start_packet() -> (p: Vec<u8>)
    ensures
        p@ == seq![33u8],
{
    single_byte_packet(CMD_SIGN_START)
}

/// One chunk of data to sign: the command byte and the chunk.
pub fn sign_data_packet(chunk: &[u8]) -> (p: Vec<u8>)
    requires
        chunk@.len() < usize::MAX,
    ensures
        p@ == seq![34u8] + chunk@,
{
    let mut p = single_byte_packet(CMD_SIGN_DATA);
    append_bytes(&mut p, chunk);
    p
}

/// Signing session finish.
pub fn sign_finish_packet() -> (p: Vec<u8>)
    ensures
        p@ == seq![35u8],
{
    single_byte_packet(CMD_SIGN_FINISH)
}

// ---------------------------------------------------------------------
// Replies
// ---------------------------------------------------------------------

/// A protocol error with the given message.
fn unexpected(msg: &str) -> (e: Error)
    ensures
        is_protocol_error(e, msg@),
{
    Error::Protocol(String::from_str(msg))
}

/// The reply to APPSTART: the device's self-info.
pub fn appstart_reply(payload: EventPayload) -> (r: Result<SelfInfo, Error>)
    ensures
        match payload {
            EventPayload::SelfInfo(info) => r == Ok::<SelfInfo, Error>(info),
            _ => r matches Err(e) && is_protocol_error(e, "Unexpected response to APPSTART"@),
        },
{
    match payload {
        EventPayload::SelfInfo(info) => Ok(info),
        _ => Err(unexpected("Unexpected response to APPSTART")),
    }
}

/// The reply to the device query.
pub fn device_query_reply(payload: EventPayload) -> (r: Result<DeviceInfoData, Error>)
    ensures
        match payload {
            EventPayload::DeviceInfo(info) => r == Ok::<DeviceInfoData, Error>(info),
            _ => r matches Err(e) && is_protocol_error(e, "Unexpected response to device query"@),
        },
{
    match payload {
        EventPayload::DeviceInfo(info) => Ok(info),
        _ => Err(unexpected("Unexpected response to device query")),
    }
}

/// The reply to the battery query.
pub fn get_bat_reply(payload: EventPayload) -> (r: Result<BatteryInfo, Error>)
    ensures
        match payload {
            EventPayload::Battery(info) => r == Ok::<BatteryInfo, Error>(info),
            _ => r matches Err(e) && is_protocol_error(e, "Unexpected response to battery query"@),
        },
{
    match payload {
        EventPayload::Battery(info) => Ok(info),
        _ => Err(unexpected("Unexpected response to battery query")),
    }
}

/// The reply to the time query.
pub fn get_time_reply(payload: EventPayload) -> (r: Result<u32, Error>)
    ensures
        match payload {
            EventPayload::Time(t) => r == Ok::<u32, Error>(t),
            _ => r matches Err(e) && is_protocol_error(e, "Unexpected response to time query"@),
        },
{
    match payload {
        EventPayload::Time(t) => Ok(t),
        _ => Err(unexpected("Unexpected response to time query")),
    }
}

/// The reply to the custom variables query.
pub fn get_custom_vars_reply(payload: EventPayload) -> (r: Result<Vec<(String, String)>, Error>)
    ensures
        match payload {
            EventPayload::CustomVars(vars) => r == Ok::<Vec<(String, String)>, Error>(vars),
            _ => r matches Err(e) && is_protocol_error(
                e,
                "Unexpected response to custom vars query"@,
            ),
        },
{
    match payload {
        EventPayload::CustomVars(vars) => Ok(vars),
        _ => Err(unexpected("Unexpected response to custom vars query")),
    }
}

/// The reply to the channel query.
pub fn get_channel_reply(payload: EventPayload) -> (r: Result<ChannelInfoData, Error>)
    ensures
        match payload {
            EventPayload::ChannelInfo(info) => r == Ok::<ChannelInfoData, Error>(info),
            _ => r matches Err(e) && is_protocol_error(e, "Unexpected response to channel query"@),
        },
{
    match payload {
        EventPayload::ChannelInfo(info) => Ok(info),
        _ => Err(unexpected("Unexpected response to channel query")),
    }
}

/// The reply to the private key export: the key, or the device's refusal
/// (the feature is disabled) with its message.
pub fn export_private_key_reply(payload: EventPayload) -> (r: Result<[u8; 64], Error>)
    ensures
        match payload {
            EventPayload::PrivateKey(key) => r == Ok::<[u8; 64], Error>(key),
            EventPayload::Text(msg) => r == Err::<[u8; 64], Error>(Error::Disabled(msg)),
            _ => r matches Err(e) && is_protocol_error(
                e,
                "Unexpected response to export private key"@,
            ),
        },
{
    match payload {
        EventPayload::PrivateKey(key) => Ok(key),
        EventPayload::Text(msg) => Err(Error::Disabled(msg)),
        _ => Err(unexpected("Unexpected response to export private key")),
    }
}

/// The reply to the contact list request.
pub fn get_contacts_reply(payload: EventPayload) -> (r: Result<Vec<Contact>, Error>)
    ensures
        match payload {
            EventPayload::Contacts(contacts) => r == Ok::<Vec<Contact>, Error>(contacts),
            _ => r matches Err(e) && is_protocol_error(e, "Unexpected response to get contacts"@),
        },
{
    match payload {
        EventPayload::Contacts(contacts) => Ok(contacts),
        _ => Err(unexpected("Unexpected response to get contacts")),
    }
}

/// The reply to a contact export: the card's URI.
pub fn export_contact_reply(payload: EventPayload) -> (r: Result<String, Error>)
    ensures
        match payload {
            EventPayload::Text(uri) => r == Ok::<String, Error>(uri),
            _ => r matches Err(e) && is_protocol_error(e, "Unexpected response to export contact"@),
        },
{
    match payload {
        EventPayload::Text(uri) => Ok(uri),
        _ => Err(unexpected("Unexpected response to export contact")),
    }
}

/// The reply to the next-message request: a message, `None` when the
/// queue is empty, or the device's error.
pub fn get_msg_reply(event: Event) -> (r: Result<Option<ReceivedMessage>, Error>)
    ensures
        match event.event_type {
            EventType::ContactMsgRecv | EventType::ChannelMsgRecv => match event.payload {
                EventPayload::Message(m) => r == Ok::<Option<ReceivedMessage>, Error>(Some(m)),
                _ => r matches Err(e) && is_protocol_error(e, "Unexpected payload for message"@),
            },
            EventType::NoMoreMessages => r == Ok::<Option<ReceivedMessage>, Error>(None),
            EventType::Error => match event.payload {
                EventPayload::Text(msg) => r == Err::<Option<ReceivedMessage>, Error>(
                    Error::Device(msg),
                ),
                _ => r matches Err(e) && e matches Error::Device(m) && m@ == "Unknown error"@,
            },
            _ => r matches Err(e) && is_protocol_error(e, "Unexpected event type"@),
        },
{
    match event.event_type {
        EventType::ContactMsgRecv | EventType::ChannelMsgRecv => match event.payload {
            EventPayload::Message(m) => Ok(Some(m)),
            _ => Err(unexpected("Unexpected payload for message")),
        },
        EventType::NoMoreMessages => Ok(None),
        EventType::Error => match event.payload {
            EventPayload::Text(msg) => Err(Error::Device(msg)),
            _ => Err(Error::Device(String::from_str("Unknown error"))),
        },
        _ => Err(unexpected("Unexpected event type")),
    }
}

/// The device's acknowledgement of a sent message or request; `what` is
/// the error message for any other reply.
pub fn msg_sent_reply(payload: EventPayload, what: &str) -> (r: Result<MsgSentInfo, Error>)
    ensures
        match payload {
            EventPayload::MsgSent(info) => r == Ok::<MsgSentInfo, Error>(info),
            _ => r matches Err(e) && is_protocol_error(e, what@),
        },
{
    match payload {
        EventPayload::MsgSent(info) => Ok(info),
        _ => Err(unexpected(what)),
    }
}

/// The status response to a status request.
pub fn req_status_reply(payload: EventPayload) -> (r: Result<StatusData, Error>)
    ensures
        match payload {
            EventPayload::Status(st) => r == Ok::<StatusData, Error>(st),
            _ => r matches Err(e) && is_protocol_error(e, "Unexpected response to status request"@),
        },
{
    match payload {
        EventPayload::Status(st) => Ok(st),
        _ => Err(unexpected("Unexpected response to status request")),
    }
}

/// The telemetry response to a telemetry request.
pub fn req_telemetry_reply(payload: EventPayload) -> (r: Result<Vec<u8>, Error>)
    ensures
        match payload {
            EventPayload::Telemetry(data) => r == Ok::<Vec<u8>, Error>(data),
            _ => r matches Err(e) && is_protocol_error(
                e,
                "Unexpected response to telemetry request"@,
            ),
        },
{
    match payload {
        EventPayload::Telemetry(data) => Ok(data),
        _ => Err(unexpected("Unexpected response to telemetry request")),
    }
}

/// The ACL response to an ACL request.
pub fn req_acl_reply(payload: EventPayload) -> (r: Result<Vec<AclEntry>, Error>)
    ensures
        match payload {
            EventPayload::Acl(entries) => r == Ok::<Vec<AclEntry>, Error>(entries),
            _ => r matches Err(e) && is_protocol_error(e, "Unexpected response to ACL request"@),
        },
{
    match payload {
        EventPayload::Acl(entries) => Ok(entries),
        _ => Err(unexpected("Unexpected response to ACL request")),
    }
}

/// The neighbours response to a neighbours request.
pub fn req_neighbours_reply(payload: EventPayload) -> (r: Result<NeighboursData, Error>)
    ensures
        match payload {
            EventPayload::Neighbours(data) => r == Ok::<NeighboursData, Error>(data),
            _ => r matches Err(e) && is_protocol_error(
                e,
                "Unexpected response to neighbours request"@,
            ),
        },
{
    match payload {
        EventPayload::Neighbours(data) => Ok(data),
        _ => Err(unexpected("Unexpected response to neighbours request")),
    }
}

/// The reply to the signing start: the longest data the device signs.
pub fn sign_start_reply(payload: EventPayload) -> (r: Result<u32, Error>)
    ensures
        match payload {
            EventPayload::SignStart { max_length } => r == Ok::<u32, Error>(max_length),
            _ => r matches Err(e) && is_protocol_error(e, "Unexpected response to sign_start"@),
        },
{
    match payload {
        EventPayload::SignStart { max_length } => Ok(max_length),
        _ => Err(unexpected("Unexpected response to sign_start")),
    }
}

/// The reply to the signing finish: the signature.
pub fn sign_finish_reply(payload: EventPayload) -> (r: Result<Vec<u8>, Error>)
    ensures
        match payload {
            EventPayload::Signature(sig) => r == Ok::<Vec<u8>, Error>(sig),
            _ => r matches Err(e) && is_protocol_error(e, "Unexpected response to sign_finish"@),
        },
{
    match payload {
        EventPayload::Signature(sig) => Ok(sig),
        _ => Err(unexpected("Unexpected response to sign_finish")),
    }
}

/// Whether an event is one of the replies a command waits for.
pub fn is_expected_reply(expected: &[EventType], event_type: EventType) -> (r: bool)
    ensures
        r == expected@.contains(event_type),
{
    let mut i: usize = 0;
    while i < expected.len()
        invariant
            0 <= i <= expected@.len(),
            forall|k: int| 0 <= k < i ==> expected@[k] != event_type,
        decreases expected@.len() - i,
    {
        if expected[i] == event_type {
            return true;
        }
        i = i + 1;
    }
    false
}

/// Whether automatic fetching asks for another message after this reply
/// to the next-message request: only while messages keep coming.
pub fn fetch_more(reply: &Result<Option<ReceivedMessage>, Error>) -> (r: bool)
    ensures
        r == (reply matches Ok(Some(_))),
{
    match reply {
        Ok(Some(_)) => true,
        _ => false,
    }
}

// ---------------------------------------------------------------------
// Signing
// ---------------------------------------------------------------------

/// The error message for data longer than the device signs.
pub open spec fn too_large_message(len: nat, max_length: nat) -> Seq<char> {
    "Data too large: "@ + decimal(len) + " > "@ + decimal(max_length)
}

/// The length test before signing: the data may be at most `max_length`
/// bytes.
pub fn check_sign_length(len: usize, max_length: u32) -> (r: Result<(), Error>)
    ensures
        r is Ok <==> len <= max_length,
        r matches Err(e) ==> is_invalid_param(e, too_large_message(len as nat, max_length as nat)),
{
    if len > max_length as usize {
        let mut msg = message_with_count("Data too large: ", len, " > ");
        let max_text = decimal_text(max_length as usize);
        msg.append(max_text.as_str());
        Err(Error::InvalidParameter(msg))
    } else {
        Ok(())
    }
}

/// `data` cut into consecutive pieces of `size` bytes, the last one
/// shorter where `size` does not divide the length.
pub open spec fn chunks_spec(data: Seq<u8>, size: nat) -> Seq<Seq<u8>>
    decreases data.len(),
{
    if data.len() == 0 || size == 0 {
        Seq::empty()
    } else if data.len() <= size {
        seq![data]
    } else {
        seq![data.take(size as int)] + chunks_spec(data.skip(size as int), size)
    }
}

/// `data` cut into pieces of `chunk_size` bytes (the last may be
/// shorter): signing sends one `sign_data_packet` per piece, and a BLE link
/// writes a packet in pieces of its MTU.
pub fn split_chunks(data: &[u8], chunk_size: usize) -> (chunks: Vec<Vec<u8>>)
    requires
        chunk_size > 0,
    ensures
        chunks@.map_values(|c: Vec<u8>| c@) == chunks_spec(data@, chunk_size as nat),
{
    let mut chunks: Vec<Vec<u8>> = Vec::new();
    let mut i: usize = 0;
    assert(data@.skip(0) =~= data@);
    assert(chunks@.map_values(|c: Vec<u8>| c@) + chunks_spec(data@, chunk_size as nat) =~= chunks_spec(
        data@,
        chunk_size as nat,
    ));
    while i < data.len()
        invariant
            0 < chunk_size,
            0 <= i <= data@.len(),
            chunks@.map_values(|c: Vec<u8>| c@) + chunks_spec(data@.skip(i as int), chunk_size as nat)
                == chunks_spec(data@, chunk_size as nat),
        decreases data@.len() - i,
    {
        let ghost rest = data@.skip(i as int);
        let end: usize = if data.len() - i <= chunk_size {
            data.len()
        } else {
            i + chunk_size
        };
        let mut piece: Vec<u8> = Vec::new();
        let mut j: usize = i;
        while j < end
            invariant
                i <= j <= end <= data@.len(),
                piece@ == data@.subrange(i as int, j as int),
            decreases end - j,
        {
            piece.push(data[j]);
            j = j + 1;
            assert(piece@ =~= data@.subrange(i as int, j as int));
        }
        let ghost old_view = chunks@.map_values(|c: Vec<u8>| c@);
        chunks.push(piece);
        proof {
            assert(chunks@.map_values(|c: Vec<u8>| c@) =~= old_view.push(piece@));
            if rest.len() <= chunk_size {
                assert(piece@ =~= rest);
                assert(data@.skip(end as int) =~= Seq::<u8>::empty());
                assert(chunks_spec(rest, chunk_size as nat) == seq![rest]);
                assert(old_view.push(piece@) + chunks_spec(data@.skip(end as int), chunk_size as nat)
                    =~= old_view + chunks_spec(rest, chunk_size as nat));
            } else {
                assert(piece@ =~= rest.take(chunk_size as int));
                assert(rest.skip(chunk_size as int) =~= data@.skip(end as int));
                assert(old_view.push(piece@) + chunks_spec(data@.skip(end as int), chunk_size as nat)
                    =~= old_view + chunks_spec(rest, chunk_size as nat));
            }
        }
        i = end;
    }
    proof {
        assert(data@.skip(i as int).len() == 0);
        assert(chunks@.map_values(|c: Vec<u8>| c@) + Seq::<Seq<u8>>::empty() =~= chunks@.map_values(
            |c: Vec<u8>| c@,
        ));
    }
    chunks
}

/// Law: the pieces that `split_chunks` makes put back together give the data,
/// and each piece holds between one and `size` bytes.
pub proof fn lemma_chunks_reassemble(data: Seq<u8>, size: nat)
    requires
        size > 0,
    ensures
        chunks_spec(data, size).flatten() == data,
        forall|k: int| 0 <= k < chunks_spec(data, size).len() ==> 0 < #[trigger] chunks_spec(data, size)[k].len() <= size,
    decreases data.len(),
{
    if data.len() == 0 {
    } else if data.len() <= size {
        let c = chunks_spec(data, size);
        assert(c.drop_first() =~= Seq::<Seq<u8>>::empty());
        assert(c.drop_first().flatten() =~= Seq::<u8>::empty());
        assert(c.first() + Seq::<u8>::empty() =~= data);
    } else {
        let rest = data.skip(size as int);
        lemma_chunks_reassemble(rest, size);
        let c = chunks_spec(data, size);
        assert(c.first() == data.take(size as int));
        assert(c.drop_first() =~= chunks_spec(rest, size));
        assert(data.take(size as int) + rest =~= data);
        assert forall|k: int| 0 <= k < c.len() implies 0 < #[trigger] c[k].len() <= size by {
            if k > 0 {
                assert(c[k] == chunks_spec(rest, size)[k - 1]);
            }
        }
    }
}

/// Law: a destination that holds a full public key has as its prefix the
/// first six bytes of that key.
pub proof fn lemma_prefix_of_public_key(d: Destination)
    requires
        d.public_key_spec() is Some,
    ensures
        d.prefix_spec() == Ok::<Seq<u8>, Seq<char>>(d.public_key_spec()->0.take(6)),
{
    let b = d.key_bytes()->Ok_0;
    assert(b.take(32).take(6) =~= b.take(6));
}

} // verus!
