//! Binary parsing utilities for MeshCore protocol
use vstd::prelude::*;
use vstd::slice::slice_to_vec;
use vstd::string::StringSliceAdditionalSpecFns;
use crate::error::Error;
use crate::commands::{le16, le32, lemma_le16_reads_back, lemma_le32_reads_back};
use crate::events::{AclEntry, Contact, ContactView, MmaEntry, Neighbour, NeighboursData, ReceivedMessage, SelfInfo, StatusData};
use crate::text::{lossy_string, str_trim, string_push, message_with_count, owned, trim_spec, utf8_lossy, decimal};

verus! {

/// Little-endian 16-bit number at `off`.
pub open spec fn le_u16(s: Seq<u8>, off: int) -> u16 {
    (s[off] as int + 256 * (s[off + 1] as int)) as u16
}

/// Little-endian 32-bit number at `off`.
pub open spec fn le_u32(s: Seq<u8>, off: int) -> u32 {
    (s[off] as int + 256 * (s[off + 1] as int) + 65536 * (s[off + 2] as int) + 16777216 * (
    s[off + 3] as int)) as u32
}

/// A protocol error carrying the given message.
pub open spec fn is_protocol_error(e: Error, msg: Seq<char>) -> bool {
    e is Protocol && e.protocol_message() == msg
}

/// Read a little-endian u16 from a byte slice
pub fn read_u16_le(data: &[u8], offset: usize) -> (r: Result<u16, Error>)
    requires
        offset + 2 <= usize::MAX,
    ensures
        r is Ok <==> offset + 2 <= data@.len(),
        r matches Ok(v) ==> v == le_u16(data@, offset as int),
        r matches Err(e) ==> is_protocol_error(e, "Buffer too short for u16"@),
{
    if offset + 2 > data.len() {
        return Err(Error::Protocol(String::from_str("Buffer too short for u16")));
    }
    Ok(data[offset] as u16 + 256 * (data[offset + 1] as u16))
}

/// Read a little-endian i16 from a byte slice
pub fn read_i16_le(data: &[u8], offset: usize) -> (r: Result<i16, Error>)
    requires
        offset + 2 <= usize::MAX,
    ensures
        r is Ok <==> offset + 2 <= data@.len(),
        r matches Ok(v) ==> v == le_u16(data@, offset as int) as i16,
        r matches Err(e) ==> is_protocol_error(e, "Buffer too short for i16"@),
{
    if offset + 2 > data.len() {
        return Err(Error::Protocol(String::from_str("Buffer too short for i16")));
    }
    let v: u16 = data[offset] as u16 + 256 * (data[offset + 1] as u16);
    Ok(v as i16)
}

/// Read a little-endian u32 from a byte slice
pub fn read_u32_le(data: &[u8], offset: usize) -> (r: Result<u32, Error>)
    requires
        offset + 4 <= usize::MAX,
    ensures
        r is Ok <==> offset + 4 <= data@.len(),
        r matches Ok(v) ==> v == le_u32(data@, offset as int),
        r matches Err(e) ==> is_protocol_error(e, "Buffer too short for u32"@),
{
    if offset + 4 > data.len() {
        return Err(Error::Protocol(String::from_str("Buffer too short for u32")));
    }
    Ok(data[offset] as u32 + 256 * (data[offset + 1] as u32) + 65536 * (data[offset + 2] as u32)
        + 16777216 * (data[offset + 3] as u32))
}

/// Read a little-endian i32 from a byte slice
pub fn read_i32_le(data: &[u8], offset: usize) -> (r: Result<i32, Error>)
    requires
        offset + 4 <= usize::MAX,
    ensures
        r is Ok <==> offset + 4 <= data@.len(),
        r matches Ok(v) ==> v == le_u32(data@, offset as int) as i32,
        r matches Err(e) ==> is_protocol_error(e, "Buffer too short for i32"@),
{
    if offset + 4 > data.len() {
        return Err(Error::Protocol(String::from_str("Buffer too short for i32")));
    }
    let v: u32 = data[offset] as u32 + 256 * (data[offset + 1] as u32) + 65536 * (data[offset
        + 2] as u32) + 16777216 * (data[offset + 3] as u32);
    Ok(v as i32)
}

/// `n` is the position of the first zero byte of `s`, or its length when it
/// holds none.
pub open spec fn is_nul_pos(s: Seq<u8>, n: int) -> bool {
    &&& 0 <= n <= s.len()
    &&& forall|i: int| 0 <= i < n ==> s[i] != 0
    &&& n < s.len() ==> s[n] == 0
}

/// The position of the first zero byte of `s`, or its length.
pub open spec fn nul_pos(s: Seq<u8>) -> int {
    choose|n: int| is_nul_pos(s, n)
}

/// The first-zero position exists and is unique.
pub proof fn lemma_nul_pos(s: Seq<u8>, n: int)
    requires
        is_nul_pos(s, n),
    ensures
        nul_pos(s) == n,
{
    assert(exists|m: int| is_nul_pos(s, m));
    let m = nul_pos(s);
    if m < n {
        assert(s[m] != 0);
    } else if n < m {
        assert(s[n] != 0);
    }
}

/// Position of the first zero byte in `data[start..end]`, relative to
/// `start`, or `end - start`.
fn find_nul(data: &[u8], start: usize, end: usize) -> (n: usize)
    requires
        start <= end <= data@.len(),
    ensures
        n as int == nul_pos(data@.subrange(start as int, end as int)),
        n <= end - start,
{
    let ghost s = data@.subrange(start as int, end as int);
    let mut i = start;
    while i < end
        invariant
            start <= i <= end <= data@.len(),
            s == data@.subrange(start as int, end as int),
            forall|k: int| 0 <= k < i - start ==> s[k] != 0,
        decreases end - i,
    {
        if data[i] == 0 {
            proof {
                lemma_nul_pos(s, i - start);
            }
            return i - start;
        }
        i = i + 1;
    }
    proof {
        lemma_nul_pos(s, end - start);
    }
    end - start
}

/// The string field of at most `max_len` bytes at `offset`: cut at the first
/// zero byte, decoded (invalid UTF-8 replaced), trimmed of whitespace.
pub open spec fn read_string_spec(data: Seq<u8>, offset: int, max_len: int) -> Seq<char> {
    let end = if offset + max_len < data.len() {
        offset + max_len
    } else {
        data.len() as int
    };
    let field = data.subrange(offset, end);
    trim_spec(utf8_lossy(field.take(nul_pos(field))))
}

/// Read a null-terminated or fixed-length UTF-8 string
pub fn read_string(data: &[u8], offset: usize, max_len: usize) -> (s: String)
    requires
        offset <= data@.len(),
        offset + max_len <= usize::MAX,
    ensures
        s@ == read_string_spec(data@, offset as int, max_len as int),
{
    let end = if offset + max_len < data.len() {
        offset + max_len
    } else {
        data.len()
    };
    let n = find_nul(data, offset, end);
    let field = &data[offset..offset + n];
    proof {
        let f = data@.subrange(offset as int, end as int);
        assert(field@ =~= f.take(nul_pos(f)));
    }
    let decoded = lossy_string(field);
    owned(str_trim(decoded.as_str()))
}

/// Read a fixed-size byte array
pub fn read_bytes<const N: usize>(data: &[u8], offset: usize) -> (r: Result<[u8; N], Error>)
    requires
        offset + N <= usize::MAX,
    ensures
        r is Ok <==> offset + N <= data@.len(),
        r matches Ok(a) ==> a@ == data@.subrange(offset as int, offset + N),
        r matches Err(e) ==> is_protocol_error(
            e,
            "Buffer too short for "@ + decimal(N as nat) + " bytes"@,
        ),
{
    if offset + N > data.len() {
        return Err(Error::Protocol(message_with_count("Buffer too short for ", N, " bytes")));
    }
    let mut arr = [0u8; N];
    let mut i: usize = 0;
    while i < N
        invariant
            0 <= i <= N,
            offset + N <= data@.len(),
            data@.len() == data.len(),
            forall|k: int| 0 <= k < i ==> arr@[k] == data@[offset + k],
        decreases N - i,
    {
        arr[i] = data[offset + i];
        i = i + 1;
    }
    assert(arr@ =~= data@.subrange(offset as int, offset + N));
    Ok(arr)
}


/// The fields of a contact record (at least 145 bytes): key, type, flags,
/// path length, the out-path up to its first zero byte, the 32-byte name
/// field, timestamps and coordinates; the last-modified time only when the
/// record has 149 bytes or more.
pub open spec fn contact_spec(data: Seq<u8>) -> ContactView {
    ContactView {
        public_key: data.subrange(0, 32),
        contact_type: data[32],
        flags: data[33],
        path_len: data[34] as i8,
        out_path: data.subrange(35, 99).take(nul_pos(data.subrange(35, 99))),
        adv_name: read_string_spec(data, 99, 32),
        last_advert: le_u32(data, 131),
        adv_lat: le_u32(data, 135) as i32,
        adv_lon: le_u32(data, 139) as i32,
        last_modification_timestamp: if data.len() >= 149 {
            le_u32(data, 143)
        } else {
            0
        },
    }
}

/// The message for a record shorter than its minimum.
pub open spec fn too_short_message(what: Seq<char>, n: nat) -> Seq<char> {
    what + decimal(n) + " bytes"@
}

/// Parse a contact from raw bytes (149 bytes)
pub fn parse_contact(data: &[u8]) -> (r: Result<Contact, Error>)
    ensures
        r is Ok <==> data@.len() >= 145,
        r matches Ok(c) ==> c@ == contact_spec(data@),
        r matches Err(e) ==> is_protocol_error(
            e,
            too_short_message("Contact data too short: "@, data@.len()),
        ),
{
    if data.len() < 145 {
        return Err(Error::Protocol(message_with_count("Contact data too short: ", data.len(), " bytes")));
    }
    let public_key: [u8; 32] = match read_bytes(data, 0) {
        Ok(a) => a,
        Err(e) => return Err(e),
    };
    let contact_type = data[32];
    let flags = data[33];
    let path_len = data[34] as i8;
    let n = find_nul(data, 35, 99);
    let out_path = slice_to_vec(&data[35..35 + n]);
    proof {
        assert(out_path@ =~= data@.subrange(35, 99).take(nul_pos(data@.subrange(35, 99))));
    }
    let adv_name = read_string(data, 99, 32);
    let last_advert = match read_u32_le(data, 131) {
        Ok(v) => v,
        Err(e) => return Err(e),
    };
    let adv_lat = match read_i32_le(data, 135) {
        Ok(v) => v,
        Err(e) => return Err(e),
    };
    let adv_lon = match read_i32_le(data, 139) {
        Ok(v) => v,
        Err(e) => return Err(e),
    };
    let last_modification_timestamp = if data.len() >= 149 {
        match read_u32_le(data, 143) {
            Ok(v) => v,
            Err(_) => 0,
        }
    } else {
        0
    };
    let c = Contact {
        public_key,
        contact_type,
        flags,
        path_len,
        out_path,
        adv_name,
        last_advert,
        adv_lat,
        adv_lon,
        last_modification_timestamp,
    };
    assert(c@ =~= contact_spec(data@));
    Ok(c)
}

/// The fields of a self-info record of at least 57 bytes.
pub open spec fn self_info_fields(data: Seq<u8>, i: SelfInfo) -> bool {
    &&& i.adv_type == data[0]
    &&& i.tx_power == data[1]
    &&& i.max_tx_power == data[2]
    &&& i.public_key@ == data.subrange(3, 35)
    &&& i.adv_lat == le_u32(data, 35) as i32
    &&& i.adv_lon == le_u32(data, 39) as i32
    &&& i.multi_acks == data[43]
    &&& i.adv_loc_policy == data[44]
    &&& i.telemetry_mode_base == data[45] & 0x03
    &&& i.telemetry_mode_loc == (data[45] >> 2u8) & 0x03
    &&& i.telemetry_mode_env == (data[45] >> 4u8) & 0x03
    &&& i.manual_add_contacts == (data[46] != 0)
    &&& i.radio_freq == le_u32(data, 47)
    &&& i.radio_bw == le_u32(data, 51)
    &&& i.sf == data[55]
    &&& i.cr == data[56]
    &&& i.name@ == (if data.len() > 57 {
        read_string_spec(data, 57, data.len() - 57)
    } else {
        Seq::<char>::empty()
    })
}

/// Parse self info from raw bytes (109+ bytes). A record of 52 to 54 bytes
/// fails on the radio bandwidth field; one of 55 or 56 bytes is indexed past
/// its end, which `requires` rules out.
pub fn parse_self_info(data: &[u8]) -> (r: Result<SelfInfo, Error>)
    requires
        data@.len() != 55 && data@.len() != 56,
    ensures
        r is Ok <==> data@.len() >= 57,
        r matches Ok(i) ==> self_info_fields(data@, i),
        r matches Err(e) ==> data@.len() < 52 ==> is_protocol_error(
            e,
            too_short_message("SelfInfo data too short: "@, data@.len()),
        ),
        r matches Err(e) ==> data@.len() >= 52 ==> is_protocol_error(
            e,
            "Buffer too short for u32"@,
        ),
{
    if data.len() < 52 {
        return Err(Error::Protocol(message_with_count("SelfInfo data too short: ", data.len(), " bytes")));
    }
    let adv_type = data[0];
    let tx_power = data[1];
    let max_tx_power = data[2];
    let public_key: [u8; 32] = match read_bytes(data, 3) {
        Ok(a) => a,
        Err(e) => return Err(e),
    };
    let adv_lat = match read_i32_le(data, 35) {
        Ok(v) => v,
        Err(e) => return Err(e),
    };
    let adv_lon = match read_i32_le(data, 39) {
        Ok(v) => v,
        Err(e) => return Err(e),
    };
    let multi_acks = data[43];
    let adv_loc_policy = data[44];
    let telemetry_byte = data[45];
    let telemetry_mode_base = telemetry_byte & 0x03;
    let telemetry_mode_loc = (telemetry_byte >> 2u8) & 0x03;
    let telemetry_mode_env = (telemetry_byte >> 4u8) & 0x03;
    let manual_add_contacts = data[46] != 0;
    let radio_freq = match read_u32_le(data, 47) {
        Ok(v) => v,
        Err(e) => return Err(e),
    };
    let radio_bw = match read_u32_le(data, 51) {
        Ok(v) => v,
        Err(e) => return Err(e),
    };
    let sf = data[55];
    let cr = data[56];
    let name = if data.len() > 57 {
        read_string(data, 57, data.len() - 57)
    } else {
        String::new()
    };
    Ok(SelfInfo {
        adv_type,
        tx_power,
        max_tx_power,
        public_key,
        adv_lat,
        adv_lon,
        multi_acks,
        adv_loc_policy,
        telemetry_mode_base,
        telemetry_mode_loc,
        telemetry_mode_env,
        manual_add_contacts,
        radio_freq,
        radio_bw,
        sf,
        cr,
        name,
    })
}

/// The fields of a status record of at least 52 bytes, with the sender
/// prefix given apart.
pub open spec fn status_fields(data: Seq<u8>, prefix: Seq<u8>, st: StatusData) -> bool {
    &&& st.battery == le_u16(data, 0)
    &&& st.tx_queue_len == le_u16(data, 2)
    &&& st.noise_floor == le_u16(data, 4) as i16
    &&& st.last_rssi == le_u16(data, 6) as i16
    &&& st.nb_recv == le_u32(data, 8)
    &&& st.nb_sent == le_u32(data, 12)
    &&& st.airtime == le_u32(data, 16)
    &&& st.uptime == le_u32(data, 20)
    &&& st.flood_sent == le_u32(data, 24)
    &&& st.direct_sent == le_u32(data, 28)
    &&& st.snr_raw == data[32] as i8
    &&& st.dup_count == le_u32(data, 36)
    &&& st.rx_airtime == le_u32(data, 40)
    &&& st.sender_prefix@ == prefix
}

/// A 32-bit number written little-endian at `off` reads back there.
pub proof fn lemma_u32_at(s: Seq<u8>, off: int, v: u32)
    requires
        0 <= off,
        off + 4 <= s.len(),
        s.subrange(off, off + 4) == le32(v),
    ensures
        le_u32(s, off) == v,
{
    lemma_le32_reads_back(v);
    let w = le32(v);
    assert(s[off] == w[0] && s[off + 1] == w[1] && s[off + 2] == w[2] && s[off + 3] == w[3]) by {
        assert(s.subrange(off, off + 4)[0] == s[off]);
        assert(s.subrange(off, off + 4)[1] == s[off + 1]);
        assert(s.subrange(off, off + 4)[2] == s[off + 2]);
        assert(s.subrange(off, off + 4)[3] == s[off + 3]);
    }
}

/// A 16-bit number written little-endian at `off` reads back there.
pub proof fn lemma_u16_at(s: Seq<u8>, off: int, v: u16)
    requires
        0 <= off,
        off + 2 <= s.len(),
        s.subrange(off, off + 2) == le16(v),
    ensures
        le_u16(s, off) == v,
{
    lemma_le16_reads_back(v);
    let w = le16(v);
    assert(s[off] == w[0] && s[off + 1] == w[1]) by {
        assert(s.subrange(off, off + 2)[0] == s[off]);
        assert(s.subrange(off, off + 2)[1] == s[off + 1]);
    }
}

/// Law: a status record has a fixed layout of little-endian numbers:
/// battery (bytes 0-1), TX queue (2-3), noise floor (4-5), last RSSI (6-7),
/// packets received (8-11), packets sent (12-15), airtime (16-19), uptime
/// (20-23), flood sent (24-27), direct sent (28-31), SNR (32), duplicates
/// (36-39) and RX airtime (40-43). A record written with given values
/// parses back to exactly those values.
pub proof fn lemma_status_layout(data: Seq<u8>, prefix: Seq<u8>, x: StatusData, st: StatusData)
    requires
        data.len() >= 52,
        data.subrange(0, 2) == le16(x.battery),
        data.subrange(2, 4) == le16(x.tx_queue_len),
        data.subrange(4, 6) == le16(x.noise_floor as u16),
        data.subrange(6, 8) == le16(x.last_rssi as u16),
        data.subrange(8, 12) == le32(x.nb_recv),
        data.subrange(12, 16) == le32(x.nb_sent),
        data.subrange(16, 20) == le32(x.airtime),
        data.subrange(20, 24) == le32(x.uptime),
        data.subrange(24, 28) == le32(x.flood_sent),
        data.subrange(28, 32) == le32(x.direct_sent),
        data[32] == x.snr_raw as u8,
        data.subrange(36, 40) == le32(x.dup_count),
        data.subrange(40, 44) == le32(x.rx_airtime),
        status_fields(data, prefix, st),
    ensures
        st.battery == x.battery,
        st.tx_queue_len == x.tx_queue_len,
        st.noise_floor == x.noise_floor,
        st.last_rssi == x.last_rssi,
        st.nb_recv == x.nb_recv,
        st.nb_sent == x.nb_sent,
        st.airtime == x.airtime,
        st.uptime == x.uptime,
        st.flood_sent == x.flood_sent,
        st.direct_sent == x.direct_sent,
        st.snr_raw == x.snr_raw,
        st.dup_count == x.dup_count,
        st.rx_airtime == x.rx_airtime,
        st.sender_prefix@ == prefix,
{
    lemma_u16_at(data, 0, x.battery);
    lemma_u16_at(data, 2, x.tx_queue_len);
    lemma_u16_at(data, 4, x.noise_floor as u16);
    lemma_u16_at(data, 6, x.last_rssi as u16);
    lemma_u32_at(data, 8, x.nb_recv);
    lemma_u32_at(data, 12, x.nb_sent);
    lemma_u32_at(data, 16, x.airtime);
    lemma_u32_at(data, 20, x.uptime);
    lemma_u32_at(data, 24, x.flood_sent);
    lemma_u32_at(data, 28, x.direct_sent);
    lemma_u32_at(data, 36, x.dup_count);
    lemma_u32_at(data, 40, x.rx_airtime);
    let nf = x.noise_floor;
    let lr = x.last_rssi;
    let sn = x.snr_raw;
    assert((nf as u16) as i16 == nf) by (bit_vector);
    assert((lr as u16) as i16 == lr) by (bit_vector);
    assert((sn as u8) as i8 == sn) by (bit_vector);
}

/// Law: a self-info record has a fixed layout: advert type (byte 0), TX
/// power (1), maximum TX power (2), public key (3-34), latitude (35-38) and
/// longitude (39-42) little-endian, multi-acks (43), location policy (44),
/// telemetry modes packed two bits each from the low end of byte 45,
/// manual-add flag (46, non-zero for set), radio frequency (47-50) and
/// bandwidth (51-54) little-endian, spreading factor (55) and coding rate
/// (56). A record written with given values parses back to them.
pub proof fn lemma_self_info_layout(data: Seq<u8>, x: SelfInfo, i: SelfInfo)
    requires
        data.len() >= 57,
        data[0] == x.adv_type,
        data[1] == x.tx_power,
        data[2] == x.max_tx_power,
        data.subrange(3, 35) == x.public_key@,
        data.subrange(35, 39) == le32(x.adv_lat as u32),
        data.subrange(39, 43) == le32(x.adv_lon as u32),
        data[43] == x.multi_acks,
        data[44] == x.adv_loc_policy,
        x.telemetry_mode_base < 4,
        x.telemetry_mode_loc < 4,
        x.telemetry_mode_env < 4,
        data[45] == x.telemetry_mode_base + 4 * x.telemetry_mode_loc + 16 * x.telemetry_mode_env,
        data[46] == (if x.manual_add_contacts { 1u8 } else { 0u8 }),
        data.subrange(47, 51) == le32(x.radio_freq),
        data.subrange(51, 55) == le32(x.radio_bw),
        data[55] == x.sf,
        data[56] == x.cr,
        self_info_fields(data, i),
    ensures
        i.adv_type == x.adv_type,
        i.tx_power == x.tx_power,
        i.max_tx_power == x.max_tx_power,
        i.public_key@ == x.public_key@,
        i.adv_lat == x.adv_lat,
        i.adv_lon == x.adv_lon,
        i.multi_acks == x.multi_acks,
        i.adv_loc_policy == x.adv_loc_policy,
        i.telemetry_mode_base == x.telemetry_mode_base,
        i.telemetry_mode_loc == x.telemetry_mode_loc,
        i.telemetry_mode_env == x.telemetry_mode_env,
        i.manual_add_contacts == x.manual_add_contacts,
        i.radio_freq == x.radio_freq,
        i.radio_bw == x.radio_bw,
        i.sf == x.sf,
        i.cr == x.cr,
{
    lemma_u32_at(data, 35, x.adv_lat as u32);
    lemma_u32_at(data, 39, x.adv_lon as u32);
    lemma_u32_at(data, 47, x.radio_freq);
    lemma_u32_at(data, 51, x.radio_bw);
    let la = x.adv_lat;
    let lo = x.adv_lon;
    assert((la as u32) as i32 == la) by (bit_vector);
    assert((lo as u32) as i32 == lo) by (bit_vector);
    let t = data[45];
    let b = x.telemetry_mode_base;
    let l = x.telemetry_mode_loc;
    let e = x.telemetry_mode_env;
    assert(t & 0x03 == b && (t >> 2u8) & 0x03 == l && (t >> 4u8) & 0x03 == e) by (bit_vector)
        requires
            b < 4,
            l < 4,
            e < 4,
            t == b + 4 * l + 16 * e,
    ;
}

/// Law: a contact message record has a fixed layout: sender prefix (bytes
/// 0-5), path length (6), text type (7), timestamp (8-11) little-endian,
/// then for text type 2 a 4-byte signature (12-15) and the text, otherwise
/// the text from byte 12.
pub proof fn lemma_contact_msg_layout(
    data: Seq<u8>,
    prefix: Seq<u8>,
    path_len: u8,
    txt_type: u8,
    timestamp: u32,
    m: ReceivedMessage,
)
    requires
        data.len() >= 16,
        data.subrange(0, 6) == prefix,
        data[6] == path_len,
        data[7] == txt_type,
        data.subrange(8, 12) == le32(timestamp),
        contact_msg_fields(data, m),
    ensures
        m.sender_prefix@ == prefix,
        m.path_len == path_len,
        m.txt_type == txt_type,
        m.sender_timestamp == timestamp,
        txt_type == 2 ==> (m.signature matches Some(sig) && sig@ == data.subrange(12, 16)),
        txt_type == 2 ==> m.text@ == message_text(data, 16),
        txt_type != 2 ==> m.signature is None && m.text@ == utf8_lossy(data.skip(12)),
        m.snr_raw is None,
        m.channel is None,
{
    lemma_u32_at(data, 8, timestamp);
}

/// Law: a version-3 contact message record has a fixed layout: SNR in
/// quarter dB (byte 0), two reserved bytes, sender prefix (3-8), path
/// length (9), text type (10), timestamp (11-14) little-endian, then for
/// text type 2 a 4-byte signature (15-18) and the text, otherwise the text
/// from byte 15.
pub proof fn lemma_contact_msg_v3_layout(
    data: Seq<u8>,
    snr_raw: i8,
    prefix: Seq<u8>,
    path_len: u8,
    txt_type: u8,
    timestamp: u32,
    m: ReceivedMessage,
)
    requires
        data.len() >= 19,
        data[0] == snr_raw as u8,
        data.subrange(3, 9) == prefix,
        data[9] == path_len,
        data[10] == txt_type,
        data.subrange(11, 15) == le32(timestamp),
        contact_msg_v3_fields(data, m),
    ensures
        m.snr_raw == Some(snr_raw),
        m.sender_prefix@ == prefix,
        m.path_len == path_len,
        m.txt_type == txt_type,
        m.sender_timestamp == timestamp,
        txt_type == 2 ==> (m.signature matches Some(sig) && sig@ == data.subrange(15, 19)),
        txt_type == 2 ==> m.text@ == message_text(data, 19),
        txt_type != 2 ==> m.signature is None && m.text@ == utf8_lossy(data.skip(15)),
        m.channel is None,
{
    lemma_u32_at(data, 11, timestamp);
    assert((snr_raw as u8) as i8 == snr_raw) by (bit_vector);
}

/// Law: a channel message record has a fixed layout: channel index (byte
/// 0), sender prefix (1-6), path length (7), text type (8), timestamp
/// (9-12) little-endian, then the text.
pub proof fn lemma_channel_msg_layout(
    data: Seq<u8>,
    channel: u8,
    prefix: Seq<u8>,
    path_len: u8,
    txt_type: u8,
    timestamp: u32,
    m: ReceivedMessage,
)
    requires
        data.len() >= 13,
        data[0] == channel,
        data.subrange(1, 7) == prefix,
        data[7] == path_len,
        data[8] == txt_type,
        data.subrange(9, 13) == le32(timestamp),
        channel_msg_fields(data, m),
    ensures
        m.channel == Some(channel),
        m.sender_prefix@ == prefix,
        m.path_len == path_len,
        m.txt_type == txt_type,
        m.sender_timestamp == timestamp,
        data.len() > 13 ==> m.text@ == utf8_lossy(data.skip(13)),
        data.len() == 13 ==> m.text@ == Seq::<char>::empty(),
        m.signature is None,
        m.snr_raw is None,
{
    lemma_u32_at(data, 9, timestamp);
}

/// Law: the `k`-th ACL entry is the 7-byte record at byte `7k`: a 6-byte
/// prefix then the permissions.
pub proof fn lemma_acl_layout(data: Seq<u8>, k: int, prefix: Seq<u8>, permissions: u8, e: AclEntry)
    requires
        0 <= k,
        7 * k + 7 <= data.len(),
        data.subrange(7 * k, 7 * k + 6) == prefix,
        data[7 * k + 6] == permissions,
        acl_entry_fields(data, k, e),
    ensures
        e.prefix@ == prefix,
        e.permissions == permissions,
{
}

/// Law: a neighbour record at `off` has a fixed layout: the key of
/// `pubkey_len` bytes, seconds since last heard (4 bytes little-endian),
/// then the SNR in quarter dB.
pub proof fn lemma_neighbour_layout(
    data: Seq<u8>,
    pubkey_len: int,
    off: int,
    key: Seq<u8>,
    secs_ago: i32,
    snr_raw: i8,
    n: Neighbour,
)
    requires
        0 <= off,
        0 <= pubkey_len,
        off + pubkey_len + 5 <= data.len(),
        data.subrange(off, off + pubkey_len) == key,
        data.subrange(off + pubkey_len, off + pubkey_len + 4) == le32(secs_ago as u32),
        data[off + pubkey_len + 4] == snr_raw as u8,
        neighbour_fields(data, pubkey_len, off, n),
    ensures
        n.pubkey@ == key,
        n.secs_ago == secs_ago,
        n.snr_raw == snr_raw,
{
    lemma_u32_at(data, off + pubkey_len, secs_ago as u32);
    assert((secs_ago as u32) as i32 == secs_ago) by (bit_vector);
    assert((snr_raw as u8) as i8 == snr_raw) by (bit_vector);
}

/// Law: the `k`-th MMA entry is the 14-byte record at byte `14k`: channel,
/// type, then minimum, maximum and average, each 4 bytes little-endian.
pub proof fn lemma_mma_layout(data: Seq<u8>, k: int, x: MmaEntry, e: MmaEntry)
    requires
        0 <= k,
        14 * k + 14 <= data.len(),
        data[14 * k] == x.channel,
        data[14 * k + 1] == x.entry_type,
        data.subrange(14 * k + 2, 14 * k + 6) == le32(x.min_raw as u32),
        data.subrange(14 * k + 6, 14 * k + 10) == le32(x.max_raw as u32),
        data.subrange(14 * k + 10, 14 * k + 14) == le32(x.avg_raw as u32),
        mma_entry_fields(data, k, e),
    ensures
        e.channel == x.channel,
        e.entry_type == x.entry_type,
        e.min_raw == x.min_raw,
        e.max_raw == x.max_raw,
        e.avg_raw == x.avg_raw,
{
    lemma_u32_at(data, 14 * k + 2, x.min_raw as u32);
    lemma_u32_at(data, 14 * k + 6, x.max_raw as u32);
    lemma_u32_at(data, 14 * k + 10, x.avg_raw as u32);
    let a = x.min_raw;
    let b = x.max_raw;
    let c = x.avg_raw;
    assert((a as u32) as i32 == a) by (bit_vector);
    assert((b as u32) as i32 == b) by (bit_vector);
    assert((c as u32) as i32 == c) by (bit_vector);
}

/// Law: a contact record has a fixed layout: public key (bytes 0-31), type
/// (32), flags (33), signed path length (34), the out-path in the 64 bytes
/// from 35 ending at its first zero byte, the 32-byte name field from 99,
/// then last advertisement (131-134), latitude (135-138) and longitude
/// (139-142) little-endian, and the last-modified time (143-146) when the
/// record holds at least 149 bytes. A record written with given values
/// parses back to them.
pub proof fn lemma_contact_layout(data: Seq<u8>, x: ContactView)
    requires
        data.len() >= 145,
        data.subrange(0, 32) == x.public_key,
        data[32] == x.contact_type,
        data[33] == x.flags,
        data[34] == x.path_len as u8,
        x.out_path.len() <= 64,
        forall|i: int| 0 <= i < x.out_path.len() ==> #[trigger] x.out_path[i] != 0,
        data.subrange(35, 35 + x.out_path.len() as int) == x.out_path,
        x.out_path.len() < 64 ==> data[35 + x.out_path.len() as int] == 0,
        data.subrange(131, 135) == le32(x.last_advert),
        data.subrange(135, 139) == le32(x.adv_lat as u32),
        data.subrange(139, 143) == le32(x.adv_lon as u32),
        data.len() >= 149 ==> data.subrange(143, 147) == le32(x.last_modification_timestamp),
    ensures
        contact_spec(data).public_key == x.public_key,
        contact_spec(data).contact_type == x.contact_type,
        contact_spec(data).flags == x.flags,
        contact_spec(data).path_len == x.path_len,
        contact_spec(data).out_path == x.out_path,
        contact_spec(data).adv_name == read_string_spec(data, 99, 32),
        contact_spec(data).last_advert == x.last_advert,
        contact_spec(data).adv_lat == x.adv_lat,
        contact_spec(data).adv_lon == x.adv_lon,
        contact_spec(data).last_modification_timestamp == (if data.len() >= 149 {
            x.last_modification_timestamp
        } else {
            0
        }),
{
    let field = data.subrange(35, 99);
    let n = x.out_path.len() as int;
    assert forall|i: int| 0 <= i < n implies field[i] != 0 by {
        assert(field[i] == data.subrange(35, 35 + n)[i]);
    }
    if n < 64 {
        assert(field[n] == data[35 + n]);
    }
    assert(is_nul_pos(field, n));
    lemma_nul_pos(field, n);
    assert(field.take(n) =~= x.out_path);
    lemma_u32_at(data, 131, x.last_advert);
    lemma_u32_at(data, 135, x.adv_lat as u32);
    lemma_u32_at(data, 139, x.adv_lon as u32);
    if data.len() >= 149 {
        lemma_u32_at(data, 143, x.last_modification_timestamp);
    }
    let pl = x.path_len;
    let la = x.adv_lat;
    let lo = x.adv_lon;
    assert((pl as u8) as i8 == pl) by (bit_vector);
    assert((la as u32) as i32 == la) by (bit_vector);
    assert((lo as u32) as i32 == lo) by (bit_vector);
}

/// Parse status response (52+ bytes)
pub fn parse_status(data: &[u8], sender_prefix: [u8; 6]) -> (r: Result<StatusData, Error>)
    ensures
        r is Ok <==> data@.len() >= 52,
        r matches Ok(st) ==> status_fields(data@, sender_prefix@, st),
        r matches Err(e) ==> is_protocol_error(
            e,
            too_short_message("Status data too short: "@, data@.len()),
        ),
{
    if data.len() < 52 {
        return Err(Error::Protocol(message_with_count("Status data too short: ", data.len(), " bytes")));
    }
    let battery = match read_u16_le(data, 0) { Ok(v) => v, Err(e) => return Err(e) };
    let tx_queue_len = match read_u16_le(data, 2) { Ok(v) => v, Err(e) => return Err(e) };
    let noise_floor = match read_i16_le(data, 4) { Ok(v) => v, Err(e) => return Err(e) };
    let last_rssi = match read_i16_le(data, 6) { Ok(v) => v, Err(e) => return Err(e) };
    let nb_recv = match read_u32_le(data, 8) { Ok(v) => v, Err(e) => return Err(e) };
    let nb_sent = match read_u32_le(data, 12) { Ok(v) => v, Err(e) => return Err(e) };
    let airtime = match read_u32_le(data, 16) { Ok(v) => v, Err(e) => return Err(e) };
    let uptime = match read_u32_le(data, 20) { Ok(v) => v, Err(e) => return Err(e) };
    let flood_sent = match read_u32_le(data, 24) { Ok(v) => v, Err(e) => return Err(e) };
    let direct_sent = match read_u32_le(data, 28) { Ok(v) => v, Err(e) => return Err(e) };
    let snr_raw = data[32] as i8;
    let dup_count = match read_u32_le(data, 36) { Ok(v) => v, Err(e) => return Err(e) };
    let rx_airtime = match read_u32_le(data, 40) { Ok(v) => v, Err(e) => return Err(e) };
    Ok(StatusData {
        battery,
        tx_queue_len,
        noise_floor,
        last_rssi,
        nb_recv,
        nb_sent,
        airtime,
        uptime,
        flood_sent,
        direct_sent,
        snr_raw,
        dup_count,
        rx_airtime,
        sender_prefix,
    })
}

/// The text of a message: the bytes from `start` on, decoded with invalid
/// UTF-8 replaced; empty when there are none.
pub open spec fn message_text(data: Seq<u8>, start: int) -> Seq<char> {
    if data.len() > start {
        utf8_lossy(data.skip(start))
    } else {
        Seq::empty()
    }
}

fn text_from(data: &[u8], start: usize) -> (s: String)
    requires
        start <= data@.len(),
    ensures
        s@ == message_text(data@, start as int),
{
    if data.len() > start {
        let t = lossy_string(&data[start..data.len()]);
        assert(data@.subrange(start as int, data@.len() as int) =~= data@.skip(start as int));
        t
    } else {
        String::new()
    }
}

/// The fields of a direct message in the v2 layout (at least 12 bytes): a
/// signed message (text type 2) of at least 16 bytes carries a 4-byte
/// signature before its text.
pub open spec fn contact_msg_fields(data: Seq<u8>, m: ReceivedMessage) -> bool {
    let signed = data[7] == 2 && data.len() >= 16;
    &&& m.sender_prefix@ == data.subrange(0, 6)
    &&& m.path_len == data[6]
    &&& m.txt_type == data[7]
    &&& m.sender_timestamp == le_u32(data, 8)
    &&& m.text@ == message_text(data, if signed { 16 } else { 12 })
    &&& m.snr_raw is None
    &&& m.channel is None
    &&& match m.signature {
        Some(sig) => signed && sig@ == data.subrange(12, 16),
        None => !signed,
    }
}

/// Parse a received message (contact message v2 format)
pub fn parse_contact_msg(data: &[u8]) -> (r: Result<ReceivedMessage, Error>)
    ensures
        r is Ok <==> data@.len() >= 12,
        r matches Ok(m) ==> contact_msg_fields(data@, m),
        r matches Err(e) ==> is_protocol_error(e, "Contact message too short"@),
{
    if data.len() < 12 {
        return Err(Error::Protocol(String::from_str("Contact message too short")));
    }
    let sender_prefix: [u8; 6] = match read_bytes(data, 0) { Ok(a) => a, Err(e) => return Err(e) };
    let path_len = data[6];
    let txt_type = data[7];
    let sender_timestamp = match read_u32_le(data, 8) { Ok(v) => v, Err(e) => return Err(e) };
    let (signature, text_start): (Option<[u8; 4]>, usize) = if txt_type == 2 && data.len() >= 16 {
        let sig: [u8; 4] = match read_bytes(data, 12) { Ok(a) => a, Err(e) => return Err(e) };
        (Some(sig), 16)
    } else {
        (None, 12)
    };
    let text = text_from(data, text_start);
    Ok(ReceivedMessage {
        sender_prefix,
        path_len,
        txt_type,
        sender_timestamp,
        text,
        snr_raw: None,
        signature,
        channel: None,
    })
}

/// The fields of a direct message in the v3 layout (at least 15 bytes): the
/// SNR byte, two reserved bytes, then the v2 fields; a signed message of at
/// least 19 bytes carries a 4-byte signature before its text.
pub open spec fn contact_msg_v3_fields(data: Seq<u8>, m: ReceivedMessage) -> bool {
    let signed = data[10] == 2 && data.len() >= 19;
    &&& m.snr_raw == Some(data[0] as i8)
    &&& m.sender_prefix@ == data.subrange(3, 9)
    &&& m.path_len == data[9]
    &&& m.txt_type == data[10]
    &&& m.sender_timestamp == le_u32(data, 11)
    &&& m.text@ == message_text(data, if signed { 19 } else { 15 })
    &&& m.channel is None
    &&& match m.signature {
        Some(sig) => signed && sig@ == data.subrange(15, 19),
        None => !signed,
    }
}

/// Parse a received message v3 format (with SNR)
pub fn parse_contact_msg_v3(data: &[u8]) -> (r: Result<ReceivedMessage, Error>)
    ensures
        r is Ok <==> data@.len() >= 15,
        r matches Ok(m) ==> contact_msg_v3_fields(data@, m),
        r matches Err(e) ==> is_protocol_error(e, "Contact message v3 too short"@),
{
    if data.len() < 15 {
        return Err(Error::Protocol(String::from_str("Contact message v3 too short")));
    }
    let snr_raw = data[0] as i8;
    let sender_prefix: [u8; 6] = match read_bytes(data, 3) { Ok(a) => a, Err(e) => return Err(e) };
    let path_len = data[9];
    let txt_type = data[10];
    let sender_timestamp = match read_u32_le(data, 11) { Ok(v) => v, Err(e) => return Err(e) };
    let (signature, text_start): (Option<[u8; 4]>, usize) = if txt_type == 2 && data.len() >= 19 {
        let sig: [u8; 4] = match read_bytes(data, 15) { Ok(a) => a, Err(e) => return Err(e) };
        (Some(sig), 19)
    } else {
        (None, 15)
    };
    let text = text_from(data, text_start);
    Ok(ReceivedMessage {
        sender_prefix,
        path_len,
        txt_type,
        sender_timestamp,
        text,
        snr_raw: Some(snr_raw),
        signature,
        channel: None,
    })
}

/// The fields of a channel message (at least 13 bytes).
pub open spec fn channel_msg_fields(data: Seq<u8>, m: ReceivedMessage) -> bool {
    &&& m.channel == Some(data[0])
    &&& m.sender_prefix@ == data.subrange(1, 7)
    &&& m.path_len == data[7]
    &&& m.txt_type == data[8]
    &&& m.sender_timestamp == le_u32(data, 9)
    &&& m.text@ == message_text(data, 13)
    &&& m.snr_raw is None
    &&& m.signature is None
}

/// Parse a channel message
pub fn parse_channel_msg(data: &[u8]) -> (r: Result<ReceivedMessage, Error>)
    ensures
        r is Ok <==> data@.len() >= 13,
        r matches Ok(m) ==> channel_msg_fields(data@, m),
        r matches Err(e) ==> is_protocol_error(e, "Channel message too short"@),
{
    if data.len() < 13 {
        return Err(Error::Protocol(String::from_str("Channel message too short")));
    }
    let channel = data[0];
    let sender_prefix: [u8; 6] = match read_bytes(data, 1) { Ok(a) => a, Err(e) => return Err(e) };
    let path_len = data[7];
    let txt_type = data[8];
    let sender_timestamp = match read_u32_le(data, 9) { Ok(v) => v, Err(e) => return Err(e) };
    let text = text_from(data, 13);
    Ok(ReceivedMessage {
        sender_prefix,
        path_len,
        txt_type,
        sender_timestamp,
        text,
        snr_raw: None,
        signature: None,
        channel: Some(channel),
    })
}


/// ACL entry `i`: the 7-byte record at `7 * i`.
pub open spec fn acl_entry_fields(data: Seq<u8>, i: int, e: AclEntry) -> bool {
    &&& e.prefix@ == data.subrange(7 * i, 7 * i + 6)
    &&& e.permissions == data[7 * i + 6]
}

/// Parse ACL entries (7 bytes each)
pub fn parse_acl(data: &[u8]) -> (entries: Vec<AclEntry>)
    ensures
        entries@.len() == data@.len() / 7,
        forall|i: int| 0 <= i < entries@.len() ==> acl_entry_fields(data@, i, #[trigger] entries@[i]),
{
    let mut entries: Vec<AclEntry> = Vec::new();
    let mut offset: usize = 0;
    while data.len() - offset >= 7
        invariant
            offset == 7 * entries@.len(),
            offset <= data@.len(),
            data@.len() == data.len(),
            forall|i: int| 0 <= i < entries@.len() ==> acl_entry_fields(data@, i, #[trigger] entries@[i]),
        decreases data@.len() - offset,
    {
        let prefix: [u8; 6] = match read_bytes(data, offset) {
            Ok(a) => a,
            Err(_) => [0u8; 6],
        };
        let permissions = data[offset + 6];
        entries.push(AclEntry { prefix, permissions });
        offset = offset + 7;
    }
    assert(entries@.len() == data@.len() / 7) by (nonlinear_arith)
        requires
            offset == 7 * entries@.len(),
            offset <= data@.len(),
            offset + 7 > data@.len(),
    {
    }
    entries
}

/// Neighbour entry at byte offset `off`: the public key, seconds since it
/// was heard, and the SNR byte.
pub open spec fn neighbour_fields(data: Seq<u8>, pubkey_len: int, off: int, n: Neighbour) -> bool {
    &&& n.pubkey@ == data.subrange(off, off + pubkey_len)
    &&& n.secs_ago == le_u32(data, off + pubkey_len) as i32
    &&& n.snr_raw == data[off + pubkey_len + 4] as i8
}

/// The neighbours response: `total` and `count` header words, then at most
/// `count` entries of `pubkey_len + 5` bytes each, read while they fit.
pub open spec fn neighbours_fields(data: Seq<u8>, pubkey_len: int, nd: NeighboursData) -> bool {
    let count = le_u16(data, 2) as int;
    let es = pubkey_len + 5;
    let k = nd.neighbours@.len() as int;
    &&& nd.total == le_u16(data, 0)
    &&& k <= count
    &&& 4 + k * es <= data.len()
    &&& (k < count ==> 4 + (k + 1) * es > data.len())
    &&& forall|i: int|
        0 <= i < k ==> neighbour_fields(data, pubkey_len, 4 + i * es, #[trigger] nd.neighbours@[i])
}

/// Parse neighbours response
pub fn parse_neighbours(data: &[u8], pubkey_len: usize) -> (r: Result<NeighboursData, Error>)
    requires
        data@.len() <= isize::MAX,
        data@.len() >= 4 ==> pubkey_len + 5 <= usize::MAX,
        data@.len() >= 4 && le_u16(data@, 2) > 0 ==> pubkey_len + 9 <= usize::MAX,
    ensures
        r is Ok <==> data@.len() >= 4,
        r matches Ok(nd) ==> neighbours_fields(data@, pubkey_len as int, nd),
        r matches Err(e) ==> is_protocol_error(e, "Neighbours data too short"@),
{
    if data.len() < 4 {
        return Err(Error::Protocol(String::from_str("Neighbours data too short")));
    }
    let total = match read_u16_le(data, 0) { Ok(v) => v, Err(e) => return Err(e) };
    let count = match read_u16_le(data, 2) { Ok(v) => v, Err(e) => return Err(e) };
    let entry_size = pubkey_len + 5;
    let mut neighbours: Vec<Neighbour> = Vec::new();
    let mut offset: usize = 4;
    let mut k: u16 = 0;
    while k < count
        invariant
            k <= count,
            count == le_u16(data@, 2),
            entry_size == pubkey_len + 5,
            data@.len() <= isize::MAX,
            count > 0 ==> pubkey_len + 9 <= usize::MAX,
            k > 0 ==> entry_size <= data@.len(),
            data@.len() == data.len(),
            neighbours@.len() == k,
            offset == 4 + k * entry_size,
            offset <= data@.len(),
            forall|i: int|
                0 <= i < k ==> neighbour_fields(
                    data@,
                    pubkey_len as int,
                    4 + i * entry_size,
                    #[trigger] neighbours@[i],
                ),
        ensures
            neighbours@.len() <= count,
            offset == 4 + neighbours@.len() * entry_size,
            offset <= data@.len(),
            neighbours@.len() < count ==> offset + entry_size > data@.len(),
            forall|i: int|
                0 <= i < neighbours@.len() ==> neighbour_fields(
                    data@,
                    pubkey_len as int,
                    4 + i * entry_size,
                    #[trigger] neighbours@[i],
                ),
        decreases count - k,
    {
        if offset + entry_size > data.len() {
            break;
        }
        let pubkey = slice_to_vec(&data[offset..offset + pubkey_len]);
        let secs_ago = match read_i32_le(data, offset + pubkey_len) {
            Ok(v) => v,
            Err(_) => 0,
        };
        let snr_raw = data[offset + pubkey_len + 4] as i8;
        neighbours.push(Neighbour { pubkey, secs_ago, snr_raw });
        proof {
            assert(4 + (k + 1) * entry_size == 4 + k * entry_size + entry_size) by (nonlinear_arith);
        }
        offset = offset + entry_size;
        k = k + 1;
    }
    proof {
        let kk = neighbours@.len() as int;
        assert(4 + (kk + 1) * entry_size == 4 + kk * entry_size + entry_size) by (nonlinear_arith);
    }
    Ok(NeighboursData { total, neighbours })
}

/// MMA entry `i`: the 14-byte record at `14 * i`.
pub open spec fn mma_entry_fields(data: Seq<u8>, i: int, e: MmaEntry) -> bool {
    &&& e.channel == data[14 * i]
    &&& e.entry_type == data[14 * i + 1]
    &&& e.min_raw == le_u32(data, 14 * i + 2) as i32
    &&& e.max_raw == le_u32(data, 14 * i + 6) as i32
    &&& e.avg_raw == le_u32(data, 14 * i + 10) as i32
}

/// Parse MMA (Min/Max/Avg) entries
pub fn parse_mma(data: &[u8]) -> (entries: Vec<MmaEntry>)
    ensures
        entries@.len() == data@.len() / 14,
        forall|i: int| 0 <= i < entries@.len() ==> mma_entry_fields(data@, i, #[trigger] entries@[i]),
{
    let mut entries: Vec<MmaEntry> = Vec::new();
    let mut offset: usize = 0;
    while data.len() - offset >= 14
        invariant
            offset == 14 * entries@.len(),
            offset <= data@.len(),
            data@.len() == data.len(),
            forall|i: int| 0 <= i < entries@.len() ==> mma_entry_fields(data@, i, #[trigger] entries@[i]),
        decreases data@.len() - offset,
    {
        let channel = data[offset];
        let entry_type = data[offset + 1];
        let min_raw = match read_i32_le(data, offset + 2) { Ok(v) => v, Err(_) => 0 };
        let max_raw = match read_i32_le(data, offset + 6) { Ok(v) => v, Err(_) => 0 };
        let avg_raw = match read_i32_le(data, offset + 10) { Ok(v) => v, Err(_) => 0 };
        entries.push(MmaEntry { channel, entry_type, min_raw, max_raw, avg_raw });
        offset = offset + 14;
    }
    assert(entries@.len() == data@.len() / 14) by (nonlinear_arith)
        requires
            offset == 14 * entries@.len(),
            offset <= data@.len(),
            offset + 14 > data@.len(),
    {
    }
    entries
}


/// Lowercase hex digit for a value below 16.
pub open spec fn hex_digit(v: int) -> char {
    if v < 10 {
        (48 + v) as char
    } else {
        (87 + v) as char
    }
}

/// Lowercase hex notation: two digits per byte, high nibble first.
pub open spec fn hex_spec(data: Seq<u8>) -> Seq<char> {
    Seq::new(
        2 * data.len(),
        |i: int|
            if i % 2 == 0 {
                hex_digit(data[i / 2] as int / 16)
            } else {
                hex_digit(data[i / 2] as int % 16)
            },
    )
}

fn hex_char(v: u8) -> (c: char)
    requires
        v < 16,
    ensures
        c == hex_digit(v as int),
{
    if v < 10 {
        ((48 + v) as u8) as char
    } else {
        ((87 + v) as u8) as char
    }
}

/// Encode bytes as a hex string
pub fn hex_encode(data: &[u8]) -> (s: String)
    ensures
        s@ == hex_spec(data@),
{
    let mut s = String::new();
    let mut i: usize = 0;
    while i < data.len()
        invariant
            0 <= i <= data@.len(),
            s@ == hex_spec(data@.take(i as int)),
        decreases data@.len() - i,
    {
        let b = data[i];
        let ghost before = s@;
        string_push(&mut s, hex_char(b / 16));
        string_push(&mut s, hex_char(b % 16));
        proof {
            assert(s@ =~= hex_spec(data@.take(i + 1))) by {
                let t = data@.take(i + 1);
                assert(t.take(i as int) =~= data@.take(i as int));
                assert forall|k: int| 0 <= k < 2 * i implies #[trigger] hex_spec(t)[k] == before[k] by {
                    assert(k / 2 < i);
                }
                assert(hex_spec(t)[2 * i] == hex_digit(b as int / 16));
                assert(hex_spec(t)[2 * i + 1] == hex_digit(b as int % 16));
            }
        }
        i = i + 1;
    }
    assert(data@.take(data@.len() as int) =~= data@);
    s
}

/// The value of an ASCII hex digit (either case).
pub open spec fn hex_val(c: u8) -> Option<u8> {
    if 48 <= c <= 57 {
        Some((c - 48) as u8)
    } else if 97 <= c <= 102 {
        Some((c - 87) as u8)
    } else if 65 <= c <= 70 {
        Some((c - 55) as u8)
    } else {
        None
    }
}

/// What `u8::from_str_radix` with radix 16 makes of a two-byte string: an
/// optional `+` then hex digits.
pub open spec fn pair_value(a: u8, b: u8) -> Option<u8> {
    if a == 43 {
        hex_val(b)
    } else if hex_val(a) is Some && hex_val(b) is Some {
        Some((16 * (hex_val(a)->0 as int) + hex_val(b)->0 as int) as u8)
    } else {
        None
    }
}

/// The UTF-8 bytes left after removing every leading `0x`.
pub open spec fn strip_0x(b: Seq<u8>) -> Seq<u8>
    decreases b.len(),
{
    if b.len() >= 2 && b[0] == 48 && b[1] == 120 {
        strip_0x(b.skip(2))
    } else {
        b
    }
}

/// Decodes consecutive byte pairs. `None` marks the input on which the
/// pair slicing lands inside a multi-byte character, where the text would
/// be cut at a non-boundary; `Some(Err(()))` a pair that is not a hex byte.
pub open spec fn hex_pairs(b: Seq<u8>) -> Option<Result<Seq<u8>, ()>>
    decreases b.len(),
{
    if b.len() < 2 {
        Some(Ok(Seq::empty()))
    } else if b.len() > 2 && vstd::utf8::is_continuation_byte(b[2]) {
        None
    } else if pair_value(b[0], b[1]) is None {
        Some(Err(()))
    } else {
        match hex_pairs(b.skip(2)) {
            None => None,
            Some(Err(())) => Some(Err(())),
            Some(Ok(rest)) => Some(Ok(seq![pair_value(b[0], b[1])->0] + rest)),
        }
    }
}

/// Whether `hex_decode` returns (rather than cutting a character in two)
/// on a string with these UTF-8 bytes.
pub open spec fn hex_decode_defined(bytes: Seq<u8>) -> bool {
    strip_0x(bytes).len() % 2 != 0 || hex_pairs(strip_0x(bytes)) is Some
}

/// `hex_decode` on a string with these UTF-8 bytes: `Err` carries the
/// error message.
pub open spec fn hex_decode_spec(bytes: Seq<u8>) -> Result<Seq<u8>, Seq<char>> {
    let b = strip_0x(bytes);
    if b.len() % 2 != 0 {
        Err("Hex string must have even length"@)
    } else {
        match hex_pairs(b) {
            Some(Ok(v)) => Ok(v),
            _ => Err("Invalid hex character"@),
        }
    }
}

fn hex_val_exec(c: u8) -> (r: Option<u8>)
    ensures
        r == hex_val(c),
{
    if 48 <= c && c <= 57 {
        Some(c - 48)
    } else if 97 <= c && c <= 102 {
        Some(c - 87)
    } else if 65 <= c && c <= 70 {
        Some(c - 55)
    } else {
        None
    }
}

fn pair_value_exec(a: u8, b: u8) -> (r: Option<u8>)
    ensures
        r == pair_value(a, b),
{
    if a == 43 {
        hex_val_exec(b)
    } else {
        match (hex_val_exec(a), hex_val_exec(b)) {
            (Some(x), Some(y)) => Some(16 * x + y),
            _ => None,
        }
    }
}

/// Encode a hex string to bytes
pub fn hex_decode(s: &str) -> (r: Result<Vec<u8>, Error>)
    requires
        hex_decode_defined(s.spec_bytes()),
    ensures
        r matches Ok(v) ==> hex_decode_spec(s.spec_bytes()) == Ok::<Seq<u8>, Seq<char>>(v@),
        r matches Err(e) ==> e is InvalidParameter && hex_decode_spec(s.spec_bytes()) == Err::<Seq<u8>, Seq<char>>(e.invalid_param_message()),
{
    let bytes = s.as_bytes();
    let ghost all = bytes@;
    let mut start: usize = 0;
    assert(all.skip(0) =~= all);
    while bytes.len() - start >= 2 && bytes[start] == 48 && bytes[start + 1] == 120
        invariant
            start <= bytes@.len(),
            all == bytes@,
            strip_0x(all) == strip_0x(all.skip(start as int)),
        decreases bytes@.len() - start,
    {
        assert(all.skip(start as int).skip(2) =~= all.skip(start + 2));
        start = start + 2;
    }
    let ghost b = all.skip(start as int);
    assert(strip_0x(all) == b);
    if (bytes.len() - start) % 2 != 0 {
        return Err(Error::InvalidParameter(String::from_str("Hex string must have even length")));
    }
    assert(b.len() % 2 == 0);
    let mut out: Vec<u8> = Vec::new();
    let mut i: usize = start;
    while i < bytes.len()
        invariant
            start <= i <= bytes@.len(),
            (bytes@.len() - i) % 2 == 0,
            all == bytes@,
            all == s.spec_bytes(),
            b == all.skip(start as int),
            hex_pairs(b) is Some,
            b.len() % 2 == 0,
            strip_0x(all) == b,
            hex_pairs(b) == match hex_pairs(all.skip(i as int)) {
                None => None,
                Some(Err(())) => Some(Err(())),
                Some(Ok(rest)) => Some(Ok(out@ + rest)),
            },
        decreases bytes@.len() - i,
    {
        let ghost cur = all.skip(i as int);
        assert(cur[0] == bytes@[i as int] && cur[1] == bytes@[i + 1]);
        assert(cur.skip(2) =~= all.skip(i + 2));
        match pair_value_exec(bytes[i], bytes[i + 1]) {
            None => {
                proof {
                    assert(cur.len() >= 2);
                    if cur.len() > 2 && vstd::utf8::is_continuation_byte(cur[2]) {
                        assert(hex_pairs(cur) is None);
                    }
                    assert(hex_pairs(cur) == Some::<Result<Seq<u8>, ()>>(Err(())));
                }
                return Err(Error::InvalidParameter(String::from_str("Invalid hex character")));
            },
            Some(v) => {
                proof {
                    match hex_pairs(all.skip(i + 2)) {
                        Some(Ok(rest)) => {
                            assert(out@.push(v) + rest =~= out@ + (seq![v] + rest));
                        },
                        _ => {},
                    }
                }
                out.push(v);
            },
        }
        i = i + 2;
    }
    assert(all.skip(i as int).len() == 0);
    assert(out@ + Seq::<u8>::empty() =~= out@);
    Ok(out)
}


/// Whether `hex_decode` returns on this string, rather than slicing a pair
/// through the middle of a character (see `hex_decode_defined`).
pub fn hex_decodable(s: &str) -> (r: bool)
    ensures
        r == hex_decode_defined(s.spec_bytes()),
{
    let bytes = s.as_bytes();
    let ghost all = bytes@;
    let mut start: usize = 0;
    assert(all.skip(0) =~= all);
    while bytes.len() - start >= 2 && bytes[start] == 48 && bytes[start + 1] == 120
        invariant
            start <= bytes@.len(),
            all == bytes@,
            strip_0x(all) == strip_0x(all.skip(start as int)),
        decreases bytes@.len() - start,
    {
        assert(all.skip(start as int).skip(2) =~= all.skip(start + 2));
        start = start + 2;
    }
    let ghost b = all.skip(start as int);
    assert(strip_0x(all) == b);
    if (bytes.len() - start) % 2 != 0 {
        return true;
    }
    let mut i: usize = start;
    while i < bytes.len()
        invariant
            start <= i <= bytes@.len(),
            (bytes@.len() - i) % 2 == 0,
            all == bytes@,
            all == s.spec_bytes(),
            b == all.skip(start as int),
            strip_0x(all) == b,
            b.len() % 2 == 0,
            (hex_pairs(b) is Some) == (hex_pairs(all.skip(i as int)) is Some),
        decreases bytes@.len() - i,
    {
        let ghost cur = all.skip(i as int);
        assert(cur[0] == bytes@[i as int] && cur[1] == bytes@[i + 1]);
        assert(cur.skip(2) =~= all.skip(i + 2));
        if bytes.len() - i > 2 && bytes[i + 2] >= 128 && bytes[i + 2] < 192 {
            assert(cur[2] == bytes@[i + 2]);
            assert(hex_pairs(cur) is None);
            return false;
        }
        proof {
            if cur.len() > 2 {
                assert(cur[2] == bytes@[i + 2]);
            }
        }
        if pair_value_exec(bytes[i], bytes[i + 1]).is_none() {
            return true;
        }
        i = i + 2;
    }
    assert(all.skip(i as int).len() == 0);
    true
}


/// The UTF-8 bytes of `hex_spec(x)`.
pub open spec fn hex_bytes(x: Seq<u8>) -> Seq<u8> {
    Seq::new(hex_spec(x).len(), |i: int| hex_spec(x)[i] as u8)
}

proof fn lemma_hex_digit_value(v: int)
    requires
        0 <= v < 16,
    ensures
        hex_val(hex_digit(v) as u8) == Some(v as u8),
        hex_digit(v) as u8 != 43,
        hex_digit(v) as u8 != 120,
        (hex_digit(v) as u8) < 128,
{
}

proof fn lemma_hex_pairs_of_hex_bytes(x: Seq<u8>)
    ensures
        hex_pairs(hex_bytes(x)) == Some(Ok::<Seq<u8>, ()>(x)),
    decreases x.len(),
{
    let e = hex_bytes(x);
    if x.len() == 0 {
        assert(e.len() == 0);
        assert(x =~= Seq::<u8>::empty());
    } else {
        let hi = x[0] as int / 16;
        let lo = x[0] as int % 16;
        lemma_hex_digit_value(hi);
        lemma_hex_digit_value(lo);
        assert(e[0] == hex_digit(hi) as u8);
        assert(e[1] == hex_digit(lo) as u8);
        assert(e.skip(2) =~= hex_bytes(x.skip(1))) by {
            assert forall|k: int| 0 <= k < e.len() - 2 implies #[trigger] e.skip(2)[k] == hex_bytes(x.skip(1))[k] by {
                assert((k + 2) / 2 == k / 2 + 1);
                assert((k + 2) % 2 == k % 2);
            }
        }
        if e.len() > 2 {
            let h2 = x[1] as int / 16;
            lemma_hex_digit_value(h2);
            assert(e[2] == hex_digit(h2) as u8);
        }
        assert(pair_value(e[0], e[1]) == Some(x[0]));
        lemma_hex_pairs_of_hex_bytes(x.skip(1));
        assert(seq![x[0]] + x.skip(1) =~= x);
    }
}

/// Law: decoding the hex text of any byte sequence gives the bytes back.
pub proof fn lemma_hex_roundtrip(x: Seq<u8>)
    ensures
        hex_decode_defined(vstd::utf8::encode_utf8(hex_spec(x))),
        hex_decode_spec(vstd::utf8::encode_utf8(hex_spec(x))) == Ok::<Seq<u8>, Seq<char>>(x),
{
    let chars = hex_spec(x);
    assert(vstd::utf8::is_ascii_chars(chars)) by {
        assert forall|i: int| 0 <= i < chars.len() implies '\0' <= #[trigger] chars[i] <= '\u{7f}' by {
            if i % 2 == 0 {
                lemma_hex_digit_value(x[i / 2] as int / 16);
            } else {
                lemma_hex_digit_value(x[i / 2] as int % 16);
            }
        }
    }
    vstd::utf8::is_ascii_chars_encode_utf8(chars);
    let e = vstd::utf8::encode_utf8(chars);
    assert(e =~= hex_bytes(x));
    if e.len() >= 2 {
        lemma_hex_digit_value(x[0] as int % 16);
        assert(e[1] == hex_digit(x[0] as int % 16) as u8);
    }
    assert(strip_0x(e) == e);
    assert(e.len() % 2 == 0);
    lemma_hex_pairs_of_hex_bytes(x);
}

} // verus!
