//! Message reader: the state machine that turns incoming packets into events.
use vstd::prelude::*;
use crate::events::{
    attr_lookup, keys_unique, pairs_map, set_attr, AdvertResponseData, AdvertisementData, BatteryInfo, ChannelInfoData, Contact,
    ContactView, DeviceInfoData, DiscoverEntry, Event, EventPayload, EventType, LogData,
    MeshPacketHeader, MsgSentInfo, RawAdvertisement,
    PathUpdateData, StatsCategory, StatsData, TraceHop, TraceInfo,
};
use crate::packets::{
    lemma_codes_roundtrip, packet_type_code, packet_type_of, payload_code, payload_of, route_code,
    route_of, BinaryReqType,
    PacketType, PayloadType, RouteType,
};
use crate::parsing::{
    channel_msg_fields, contact_msg_fields, contact_msg_v3_fields, contact_spec, hex_encode,
    hex_spec, le_u16, le_u32, parse_channel_msg, parse_contact, parse_contact_msg,
    parse_contact_msg_v3, parse_self_info, read_bytes, read_i32_le, read_string,
    read_string_spec, read_u16_le, read_u32_le, self_info_fields, status_fields, parse_status,
    acl_entry_fields, mma_entry_fields, neighbours_fields, parse_acl, parse_mma, parse_neighbours,
    lemma_u16_at, lemma_u32_at,
};
use crate::commands::{le16, le32};
use crate::text::{decimal, lossy_string, message_with_count, utf8_lossy};

verus! {

/// A binary request awaiting its response, keyed by its tag.
pub struct BinaryRequest {
    request_type: BinaryReqType,
    pubkey_prefix: Vec<u8>,
    expires_at: u64,
    context: Vec<(String, String)>,
    is_anon: bool,
}

/// The value of a pending binary request.
pub struct RequestView {
    pub request_type: BinaryReqType,
    pub pubkey_prefix: Seq<u8>,
    /// Expiry instant, in milliseconds of the caller's monotonic clock
    pub expires_at: u64,
    pub context: Seq<(String, String)>,
    pub is_anon: bool,
}

impl View for BinaryRequest {
    type V = RequestView;

    closed spec fn view(&self) -> RequestView {
        RequestView {
            request_type: self.request_type,
            pubkey_prefix: self.pubkey_prefix@,
            expires_at: self.expires_at,
            context: self.context@,
            is_anon: self.is_anon,
        }
    }
}

/// Whether no two entries share a tag.
pub open spec fn tags_unique(s: Seq<(Vec<u8>, BinaryRequest)>) -> bool {
    forall|i: int, j: int| 0 <= i < j < s.len() ==> s[i].0@ != s[j].0@
}

/// The request table as a map from tag to request.
pub open spec fn req_map(s: Seq<(Vec<u8>, BinaryRequest)>) -> Map<Seq<u8>, RequestView> {
    Map::new(
        |t: Seq<u8>| exists|i: int| 0 <= i < s.len() && s[i].0@ == t,
        |t: Seq<u8>| s[choose|i: int| 0 <= i < s.len() && s[i].0@ == t].1@,
    )
}

proof fn lemma_req_map_at(s: Seq<(Vec<u8>, BinaryRequest)>, i: int)
    requires
        tags_unique(s),
        0 <= i < s.len(),
    ensures
        req_map(s).contains_key(s[i].0@),
        req_map(s)[s[i].0@] == s[i].1@,
{
    let t = s[i].0@;
    assert(exists|j: int| 0 <= j < s.len() && s[j].0@ == t);
    let j = choose|j: int| 0 <= j < s.len() && s[j].0@ == t;
    if j != i {
        if j < i {
            assert(s[j].0@ != s[i].0@);
        } else {
            assert(s[i].0@ != s[j].0@);
        }
    }
}

/// The requests whose expiry lies after `now`.
pub open spec fn unexpired(m: Map<Seq<u8>, RequestView>, now: u64) -> Map<Seq<u8>, RequestView> {
    Map::new(|t: Seq<u8>| m.contains_key(t) && m[t].expires_at > now, |t: Seq<u8>| m[t])
}

/// Whether two byte slices hold the same bytes.
fn bytes_equal(a: &[u8], b: &[u8]) -> (r: bool)
    ensures
        r == (a@ == b@),
{
    if a.len() != b.len() {
        return false;
    }
    let mut i: usize = 0;
    while i < a.len()
        invariant
            0 <= i <= a@.len(),
            a@.len() == b@.len(),
            forall|k: int| 0 <= k < i ==> a@[k] == b@[k],
        decreases a@.len() - i,
    {
        if a[i] != b[i] {
            return false;
        }
        i = i + 1;
    }
    assert(a@ =~= b@);
    true
}

/// Index of the entry with this tag, if any.
fn find_tag(entries: &Vec<(Vec<u8>, BinaryRequest)>, tag: &[u8]) -> (r: Option<usize>)
    ensures
        match r {
            Some(i) => i < entries@.len() && entries@[i as int].0@ == tag@,
            None => forall|i: int| 0 <= i < entries@.len() ==> entries@[i].0@ != tag@,
        },
{
    let mut i: usize = 0;
    while i < entries.len()
        invariant
            0 <= i <= entries@.len(),
            forall|k: int| 0 <= k < i ==> entries@[k].0@ != tag@,
        decreases entries@.len() - i,
    {
        if bytes_equal(entries[i].0.as_slice(), tag) {
            return Some(i);
        }
        i = i + 1;
    }
    None
}

/// Message reader state: the binary requests awaiting responses, the
/// contacts of a contact list being received, and the last-modified stamp
/// of the last complete list.
pub struct MessageReader {
    pending_requests: Vec<(Vec<u8>, BinaryRequest)>,
    pending_contacts: Vec<Contact>,
    contacts_last_modification_timestamp: u32,
}

/// The value of the reader state.
pub struct ReaderView {
    pub requests: Map<Seq<u8>, RequestView>,
    pub pending_contacts: Seq<ContactView>,
    pub lastmod: u32,
}

impl View for MessageReader {
    type V = ReaderView;

    closed spec fn view(&self) -> ReaderView {
        ReaderView {
            requests: req_map(self.pending_requests@),
            pending_contacts: self.pending_contacts@.map_values(|c: Contact| c@),
            lastmod: self.contacts_last_modification_timestamp,
        }
    }
}

impl MessageReader {
    /// Well-formedness: request tags are unique.
    pub closed spec fn wf(&self) -> bool {
        tags_unique(self.pending_requests@)
    }

    /// Create a new message reader
    pub fn new() -> (r: MessageReader)
        ensures
            r.wf(),
            r@.requests == Map::<Seq<u8>, RequestView>::empty(),
            r@.pending_contacts == Seq::<ContactView>::empty(),
            r@.lastmod == 0,
    {
        let r = MessageReader {
            pending_requests: Vec::new(),
            pending_contacts: Vec::new(),
            contacts_last_modification_timestamp: 0,
        };
        assert(r@.requests =~= Map::<Seq<u8>, RequestView>::empty());
        assert(r@.pending_contacts =~= Seq::<ContactView>::empty());
        r
    }

    /// Register a binary request for response matching; it expires
    /// `timeout_ms` after `now_ms`. A request already registered under the
    /// same tag is replaced.
    pub fn register_binary_request(
        &mut self,
        tag: &[u8],
        request_type: BinaryReqType,
        pubkey_prefix: Vec<u8>,
        now_ms: u64,
        timeout_ms: u64,
        context: Vec<(String, String)>,
        is_anon: bool,
    )
        requires
            old(self).wf(),
            now_ms + timeout_ms <= u64::MAX,
        ensures
            final(self).wf(),
            final(self)@.requests == old(self)@.requests.insert(
                tag@,
                RequestView {
                    request_type,
                    pubkey_prefix: pubkey_prefix@,
                    expires_at: (now_ms + timeout_ms) as u64,
                    context: context@,
                    is_anon,
                },
            ),
            final(self)@.pending_contacts == old(self)@.pending_contacts,
            final(self)@.lastmod == old(self)@.lastmod,
    {
        let request = BinaryRequest {
            request_type,
            pubkey_prefix,
            expires_at: now_ms + timeout_ms,
            context,
            is_anon,
        };
        let key = vstd::slice::slice_to_vec(tag);
        let ghost old_s = self.pending_requests@;
        let ghost rv = request@;
        match find_tag(&self.pending_requests, tag) {
            Some(i) => {
                self.pending_requests.set(i, (key, request));
                proof {
                    let s = self.pending_requests@;
                    assert(tags_unique(s)) by {
                        assert forall|a: int, b: int| 0 <= a < b < s.len() implies s[a].0@ != s[b].0@ by {
                            if a != i && b != i {
                                assert(old_s[a].0@ != old_s[b].0@);
                            } else if a == i {
                                assert(old_s[i as int].0@ != old_s[b].0@);
                            } else {
                                assert(old_s[a].0@ != old_s[i as int].0@);
                            }
                        }
                    }
                    assert forall|t: Seq<u8>| #[trigger] req_map(s).contains_key(t)
                        == req_map(old_s).insert(tag@, rv).contains_key(t) by {
                        if req_map(old_s).contains_key(t) {
                            let j = choose|j: int| 0 <= j < old_s.len() && old_s[j].0@ == t;
                            assert(s[j].0@ == t);
                        }
                        if req_map(s).contains_key(t) {
                            let j = choose|j: int| 0 <= j < s.len() && s[j].0@ == t;
                            assert(old_s[j].0@ == t);
                        }
                    }
                    assert forall|t: Seq<u8>| #[trigger] req_map(s).contains_key(t) implies req_map(s)[t]
                        == req_map(old_s).insert(tag@, rv)[t] by {
                        let j = choose|j: int| 0 <= j < s.len() && s[j].0@ == t;
                        lemma_req_map_at(s, j);
                        if j != i {
                            lemma_req_map_at(old_s, j);
                        }
                    }
                    assert(req_map(s) =~= req_map(old_s).insert(tag@, rv));
                }
            },
            None => {
                self.pending_requests.push((key, request));
                proof {
                    let s = self.pending_requests@;
                    let n = old_s.len() as int;
                    assert(tags_unique(s)) by {
                        assert forall|a: int, b: int| 0 <= a < b < s.len() implies s[a].0@ != s[b].0@ by {
                            if b < n {
                                assert(old_s[a].0@ != old_s[b].0@);
                            }
                        }
                    }
                    assert forall|t: Seq<u8>| #[trigger] req_map(s).contains_key(t)
                        == req_map(old_s).insert(tag@, rv).contains_key(t) by {
                        if req_map(old_s).contains_key(t) {
                            let j = choose|j: int| 0 <= j < old_s.len() && old_s[j].0@ == t;
                            assert(s[j].0@ == t);
                        }
                        if t == tag@ {
                            assert(s[n].0@ == t);
                        }
                        if req_map(s).contains_key(t) {
                            let j = choose|j: int| 0 <= j < s.len() && s[j].0@ == t;
                            if j < n {
                                assert(old_s[j].0@ == t);
                            }
                        }
                    }
                    assert forall|t: Seq<u8>| #[trigger] req_map(s).contains_key(t) implies req_map(s)[t]
                        == req_map(old_s).insert(tag@, rv)[t] by {
                        let j = choose|j: int| 0 <= j < s.len() && s[j].0@ == t;
                        lemma_req_map_at(s, j);
                        if j < n {
                            lemma_req_map_at(old_s, j);
                        }
                    }
                    assert(req_map(s) =~= req_map(old_s).insert(tag@, rv));
                }
            },
        }
    }

    /// Clean up expired requests: only those expiring after `now_ms` stay.
    pub fn cleanup_expired(&mut self, now_ms: u64)
        requires
            old(self).wf(),
        ensures
            final(self).wf(),
            final(self)@.requests == unexpired(old(self)@.requests, now_ms),
            final(self)@.pending_contacts == old(self)@.pending_contacts,
            final(self)@.lastmod == old(self)@.lastmod,
    {
        let ghost old_s = self.pending_requests@;
        let ghost goal = unexpired(req_map(old_s), now_ms);
        let mut i: usize = 0;
        while i < self.pending_requests.len()
            invariant
                0 <= i <= self.pending_requests@.len(),
                tags_unique(self.pending_requests@),
                tags_unique(old_s),
                goal == unexpired(req_map(old_s), now_ms),
                forall|k: int| 0 <= k < i ==> #[trigger] self.pending_requests@[k].1.expires_at > now_ms,
                forall|t: Seq<u8>| #[trigger] req_map(self.pending_requests@).contains_key(t) ==> req_map(old_s).contains_key(t)
                    && req_map(self.pending_requests@)[t] == req_map(old_s)[t],
                forall|t: Seq<u8>| #[trigger] goal.contains_key(t) ==> req_map(self.pending_requests@).contains_key(t),
                self.pending_contacts == old(self).pending_contacts,
                self.contacts_last_modification_timestamp == old(self).contacts_last_modification_timestamp,
            decreases self.pending_requests@.len() - i,
        {
            if self.pending_requests[i].1.expires_at > now_ms {
                i = i + 1;
            } else {
                let ghost before = self.pending_requests@;
                let _removed = self.pending_requests.remove(i);
                proof {
                    let s = self.pending_requests@;
                    assert(tags_unique(s)) by {
                        assert forall|a: int, b: int| 0 <= a < b < s.len() implies s[a].0@ != s[b].0@ by {
                            let a2 = if a < i { a } else { a + 1 };
                            let b2 = if b < i { b } else { b + 1 };
                            assert(s[a] == before[a2] && s[b] == before[b2]);
                        }
                    }
                    assert forall|t: Seq<u8>| #[trigger] req_map(s).contains_key(t) implies req_map(old_s).contains_key(t)
                        && req_map(s)[t] == req_map(old_s)[t] by {
                        let j = choose|j: int| 0 <= j < s.len() && s[j].0@ == t;
                        let j2 = if j < i { j } else { j + 1 };
                        assert(s[j] == before[j2]);
                        lemma_req_map_at(s, j);
                        lemma_req_map_at(before, j2);
                    }
                    assert forall|t: Seq<u8>| #[trigger] goal.contains_key(t) implies req_map(s).contains_key(t) by {
                        assert(req_map(before).contains_key(t));
                        let j = choose|j: int| 0 <= j < before.len() && before[j].0@ == t;
                        lemma_req_map_at(before, j);
                        assert(req_map(before)[t] == req_map(old_s)[t]);
                        if j == i {
                            lemma_req_map_at(before, i as int);
                            assert(false);
                        } else {
                            let j3 = if j < i { j } else { j - 1 };
                            assert(s[j3] == before[j]);
                        }
                    }
                }
            }
        }
        proof {
            let s = self.pending_requests@;
            assert forall|t: Seq<u8>| #[trigger] req_map(s).contains_key(t) implies goal.contains_key(t) by {
                let j = choose|j: int| 0 <= j < s.len() && s[j].0@ == t;
                lemma_req_map_at(s, j);
            }
            assert(req_map(s) =~= goal);
        }
    }

    /// Takes the request registered under `tag`, if any, out of the table.
    fn take_request(&mut self, tag: &[u8]) -> (r: Option<BinaryRequest>)
        requires
            old(self).wf(),
        ensures
            final(self).wf(),
            match r {
                Some(req) => old(self)@.requests.contains_key(tag@) && req@ == old(self)@.requests[tag@],
                None => !old(self)@.requests.contains_key(tag@),
            },
            final(self)@.requests == old(self)@.requests.remove(tag@),
            final(self)@.pending_contacts == old(self)@.pending_contacts,
            final(self)@.lastmod == old(self)@.lastmod,
    {
        let ghost before = self.pending_requests@;
        match find_tag(&self.pending_requests, tag) {
            None => {
                assert(req_map(before) =~= req_map(before).remove(tag@));
                None
            },
            Some(i) => {
                let (_, req) = self.pending_requests.remove(i);
                proof {
                    lemma_req_map_at(before, i as int);
                    let s = self.pending_requests@;
                    assert(tags_unique(s)) by {
                        assert forall|a: int, b: int| 0 <= a < b < s.len() implies s[a].0@ != s[b].0@ by {
                            let a2 = if a < i { a } else { a + 1 };
                            let b2 = if b < i { b } else { b + 1 };
                            assert(s[a] == before[a2] && s[b] == before[b2]);
                        }
                    }
                    assert forall|t: Seq<u8>| #[trigger] req_map(s).contains_key(t)
                        == req_map(before).remove(tag@).contains_key(t) by {
                        if req_map(s).contains_key(t) {
                            let j = choose|j: int| 0 <= j < s.len() && s[j].0@ == t;
                            let j2 = if j < i { j } else { j + 1 };
                            assert(s[j] == before[j2]);
                            assert(before[j2].0@ != before[i as int].0@);
                        }
                        if req_map(before).remove(tag@).contains_key(t) {
                            let j = choose|j: int| 0 <= j < before.len() && before[j].0@ == t;
                            assert(j != i);
                            let j3 = if j < i { j } else { j - 1 };
                            assert(s[j3] == before[j]);
                        }
                    }
                    assert forall|t: Seq<u8>| #[trigger] req_map(s).contains_key(t) implies req_map(s)[t]
                        == req_map(before).remove(tag@)[t] by {
                        let j = choose|j: int| 0 <= j < s.len() && s[j].0@ == t;
                        let j2 = if j < i { j } else { j + 1 };
                        assert(s[j] == before[j2]);
                        lemma_req_map_at(s, j);
                        lemma_req_map_at(before, j2);
                    }
                    assert(req_map(s) =~= req_map(before).remove(tag@));
                }
                Some(req)
            },
        }
    }
}


/// An event with the given type and no attributes.
pub open spec fn plain(e: Event, t: EventType) -> bool {
    e.event_type == t && e.attributes@.len() == 0
}

/// Attributes that bind exactly one key.
pub open spec fn single_attr(attrs: Seq<(String, String)>, key: Seq<char>, value: Seq<char>) -> bool {
    forall|k: Seq<char>| #[trigger] attr_lookup(attrs, k) == if k == key {
        Some(value)
    } else {
        None::<Seq<char>>
    }
}

/// An event with the given type whose only attribute is `tag`, the hex of
/// `tag_bytes`.
pub open spec fn tagged(e: Event, t: EventType, tag_bytes: Seq<u8>) -> bool {
    e.event_type == t && single_attr(e.attributes@, "tag"@, hex_spec(tag_bytes))
}

fn tag_event(e: Event, tag: &[u8]) -> (r: Event)
    requires
        e.attributes@.len() == 0,
    ensures
        r.event_type == e.event_type,
        r.payload == e.payload,
        single_attr(r.attributes@, "tag"@, hex_spec(tag@)),
{
    let key = String::from_str("tag");
    let r = e.with_attribute(key, hex_encode(tag));
    r
}

/// `Error` packet: the payload text, or "Unknown error" when empty.
pub open spec fn error_event(pl: Seq<u8>, ev: Option<Event>) -> bool {
    ev matches Some(e) && plain(e, EventType::Error) && (e.payload matches EventPayload::Text(m)
        && m@ == if pl.len() > 0 {
        utf8_lossy(pl)
    } else {
        "Unknown error"@
    })
}

fn build_error(pl: &[u8]) -> (ev: Option<Event>)
    ensures
        error_event(pl@, ev),
{
    let msg = if pl.len() > 0 {
        lossy_string(pl)
    } else {
        String::from_str("Unknown error")
    };
    Some(Event::error(msg))
}

/// `PushCodeNewAdvert` packet: a new contact when the record is complete.
pub open spec fn new_contact_event(pl: Seq<u8>, ev: Option<Event>) -> bool {
    match ev {
        Some(e) => pl.len() >= 145 && plain(e, EventType::NewContact) && (e.payload matches EventPayload::Contact(c)
            && c@ == contact_spec(pl)),
        None => pl.len() < 145,
    }
}

fn build_new_contact(pl: &[u8]) -> (ev: Option<Event>)
    ensures
        new_contact_event(pl@, ev),
{
    match parse_contact(pl) {
        Ok(c) => Some(Event::new(EventType::NewContact, EventPayload::Contact(c))),
        Err(_) => None,
    }
}

/// `SelfInfo` packet.
pub open spec fn self_info_event(pl: Seq<u8>, ev: Option<Event>) -> bool {
    match ev {
        Some(e) => pl.len() >= 57 && plain(e, EventType::SelfInfo) && (e.payload matches EventPayload::SelfInfo(i)
            && self_info_fields(pl, i)),
        None => pl.len() < 57,
    }
}

fn build_self_info(pl: &[u8]) -> (ev: Option<Event>)
    requires
        pl@.len() != 55 && pl@.len() != 56,
    ensures
        self_info_event(pl@, ev),
{
    match parse_self_info(pl) {
        Ok(i) => Some(Event::new(EventType::SelfInfo, EventPayload::SelfInfo(i))),
        Err(_) => None,
    }
}

/// `DeviceInfo` packet: the raw payload.
pub open spec fn device_info_event(pl: Seq<u8>, ev: Option<Event>) -> bool {
    ev matches Some(e) && plain(e, EventType::DeviceInfo) && (e.payload matches EventPayload::DeviceInfo(d)
        && d.raw@ == pl)
}

/// `Battery` packet: level and storage words.
pub open spec fn battery_event(pl: Seq<u8>, ev: Option<Event>) -> bool {
    match ev {
        Some(e) => pl.len() >= 4 && plain(e, EventType::Battery) && e.payload == EventPayload::Battery(
            BatteryInfo { level: le_u16(pl, 0), storage: le_u16(pl, 2) },
        ),
        None => pl.len() < 4,
    }
}

fn build_battery(pl: &[u8]) -> (ev: Option<Event>)
    ensures
        battery_event(pl@, ev),
{
    if pl.len() >= 4 {
        let level = match read_u16_le(pl, 0) { Ok(v) => v, Err(_) => 0 };
        let storage = match read_u16_le(pl, 2) { Ok(v) => v, Err(_) => 0 };
        Some(Event::new(EventType::Battery, EventPayload::Battery(BatteryInfo { level, storage })))
    } else {
        None
    }
}

/// A packet whose payload starts with a 32-bit word that the event carries
/// (`CurrentTime`, `SignStart`).
pub open spec fn word_event(pl: Seq<u8>, ev: Option<Event>, t: EventType, p: EventPayload) -> bool {
    match ev {
        Some(e) => pl.len() >= 4 && plain(e, t) && e.payload == p,
        None => pl.len() < 4,
    }
}

fn build_time(pl: &[u8]) -> (ev: Option<Event>)
    ensures
        word_event(pl@, ev, EventType::CurrentTime, EventPayload::Time(le_u32(pl@, 0))),
{
    if pl.len() >= 4 {
        let time = match read_u32_le(pl, 0) { Ok(v) => v, Err(_) => 0 };
        Some(Event::new(EventType::CurrentTime, EventPayload::Time(time)))
    } else {
        None
    }
}

fn build_sign_start(pl: &[u8]) -> (ev: Option<Event>)
    ensures
        word_event(pl@, ev, EventType::SignStart, EventPayload::SignStart { max_length: le_u32(pl@, 0) }),
{
    if pl.len() >= 4 {
        let max_length = match read_u32_le(pl, 0) { Ok(v) => v, Err(_) => 0 };
        Some(Event::new(EventType::SignStart, EventPayload::SignStart { max_length }))
    } else {
        None
    }
}

/// `MsgSent` packet: message type, expected ACK tag and suggested timeout;
/// the event is tagged with the ACK.
pub open spec fn msg_sent_event(pl: Seq<u8>, ev: Option<Event>) -> bool {
    match ev {
        Some(e) => pl.len() >= 9 && tagged(e, EventType::MsgSent, pl.subrange(1, 5))
            && (e.payload matches EventPayload::MsgSent(m) && m.message_type == pl[0]
            && m.expected_ack@ == pl.subrange(1, 5) && m.suggested_timeout == le_u32(pl, 5)),
        None => pl.len() < 9,
    }
}

fn build_msg_sent(pl: &[u8]) -> (ev: Option<Event>)
    ensures
        msg_sent_event(pl@, ev),
{
    if pl.len() >= 9 {
        let message_type = pl[0];
        let expected_ack: [u8; 4] = match read_bytes(pl, 1) { Ok(a) => a, Err(_) => [0u8; 4] };
        let suggested_timeout = match read_u32_le(pl, 5) { Ok(v) => v, Err(_) => 5000 };
        let e = Event::new(
            EventType::MsgSent,
            EventPayload::MsgSent(MsgSentInfo { message_type, expected_ack, suggested_timeout }),
        );
        Some(tag_event(e, &expected_ack))
    } else {
        None
    }
}

/// A message packet, parsed by the given layout (`v3` for the layout with
/// SNR, `channel` for channel messages).
pub open spec fn message_event(pl: Seq<u8>, ev: Option<Event>, layout: int) -> bool {
    let min: int = if layout == 0 { 12 } else if layout == 1 { 15 } else { 13 };
    let t = if layout == 2 { EventType::ChannelMsgRecv } else { EventType::ContactMsgRecv };
    match ev {
        Some(e) => pl.len() >= min && plain(e, t) && (e.payload matches EventPayload::Message(m) && (
        if layout == 0 {
            contact_msg_fields(pl, m)
        } else if layout == 1 {
            contact_msg_v3_fields(pl, m)
        } else {
            channel_msg_fields(pl, m)
        })),
        None => pl.len() < min,
    }
}

fn build_contact_msg(pl: &[u8]) -> (ev: Option<Event>)
    ensures
        message_event(pl@, ev, 0),
{
    match parse_contact_msg(pl) {
        Ok(m) => Some(Event::new(EventType::ContactMsgRecv, EventPayload::Message(m))),
        Err(_) => None,
    }
}

fn build_contact_msg_v3(pl: &[u8]) -> (ev: Option<Event>)
    ensures
        message_event(pl@, ev, 1),
{
    match parse_contact_msg_v3(pl) {
        Ok(m) => Some(Event::new(EventType::ContactMsgRecv, EventPayload::Message(m))),
        Err(_) => None,
    }
}

fn build_channel_msg(pl: &[u8]) -> (ev: Option<Event>)
    ensures
        message_event(pl@, ev, 2),
{
    match parse_channel_msg(pl) {
        Ok(m) => Some(Event::new(EventType::ChannelMsgRecv, EventPayload::Message(m))),
        Err(_) => None,
    }
}

/// A packet whose whole payload becomes the event's text.
pub open spec fn text_event(pl: Seq<u8>, ev: Option<Event>, t: EventType) -> bool {
    ev matches Some(e) && plain(e, t) && (e.payload matches EventPayload::Text(m) && m@ == utf8_lossy(pl))
}

/// `PrivateKey` packet: the first 64 bytes.
pub open spec fn private_key_event(pl: Seq<u8>, ev: Option<Event>) -> bool {
    match ev {
        Some(e) => pl.len() >= 64 && plain(e, EventType::PrivateKey) && (e.payload matches EventPayload::PrivateKey(k)
            && k@ == pl.take(64)),
        None => pl.len() < 64,
    }
}

fn build_private_key(pl: &[u8]) -> (ev: Option<Event>)
    ensures
        private_key_event(pl@, ev),
{
    if pl.len() >= 64 {
        let key: [u8; 64] = match read_bytes(pl, 0) { Ok(a) => a, Err(_) => [0u8; 64] };
        assert(pl@.subrange(0, 64) =~= pl@.take(64));
        Some(Event::new(EventType::PrivateKey, EventPayload::PrivateKey(key)))
    } else {
        None
    }
}

/// `ChannelInfo` packet (at least 18 bytes): index, 16-byte name field and,
/// when the payload has 33 bytes or more, the 16-byte secret (else zeros).
pub open spec fn channel_info_event(pl: Seq<u8>, ev: Option<Event>) -> bool {
    match ev {
        Some(e) => pl.len() >= 18 && plain(e, EventType::ChannelInfo) && (e.payload matches EventPayload::ChannelInfo(c)
            && c.channel_idx == pl[0] && c.name@ == read_string_spec(pl, 1, 16) && c.secret@ == if pl.len() >= 33 {
            pl.subrange(17, 33)
        } else {
            Seq::new(16, |i: int| 0u8)
        }),
        None => pl.len() < 18,
    }
}

fn build_channel_info(pl: &[u8]) -> (ev: Option<Event>)
    ensures
        channel_info_event(pl@, ev),
{
    if pl.len() >= 18 {
        let channel_idx = pl[0];
        let name = read_string(pl, 1, 16);
        let secret: [u8; 16] = if pl.len() >= 33 {
            match read_bytes(pl, 17) { Ok(a) => a, Err(_) => [0u8; 16] }
        } else {
            [0u8; 16]
        };
        assert(pl@.len() < 33 ==> secret@ =~= Seq::new(16, |i: int| 0u8));
        Some(Event::new(
            EventType::ChannelInfo,
            EventPayload::ChannelInfo(ChannelInfoData { channel_idx, name, secret }),
        ))
    } else {
        None
    }
}

/// `Stats` packet: the category byte picks the event type (unknown
/// categories count as core), the rest is raw.
pub open spec fn stats_event(pl: Seq<u8>, ev: Option<Event>) -> bool {
    let cat = if pl.len() > 0 && pl[0] == 1 {
        StatsCategory::Radio
    } else if pl.len() > 0 && pl[0] == 2 {
        StatsCategory::Packets
    } else {
        StatsCategory::Core
    };
    let t = match cat {
        StatsCategory::Core => EventType::StatsCore,
        StatsCategory::Radio => EventType::StatsRadio,
        StatsCategory::Packets => EventType::StatsPackets,
    };
    match ev {
        Some(e) => pl.len() > 0 && plain(e, t) && (e.payload matches EventPayload::Stats(st) && st.category == cat
            && st.raw@ == pl.skip(1)),
        None => pl.len() == 0,
    }
}

fn build_stats(pl: &[u8]) -> (ev: Option<Event>)
    ensures
        stats_event(pl@, ev),
{
    if pl.len() > 0 {
        let category = match pl[0] {
            0 => StatsCategory::Core,
            1 => StatsCategory::Radio,
            2 => StatsCategory::Packets,
            _ => StatsCategory::Core,
        };
        let event_type = match category {
            StatsCategory::Core => EventType::StatsCore,
            StatsCategory::Radio => EventType::StatsRadio,
            StatsCategory::Packets => EventType::StatsPackets,
        };
        let raw = vstd::slice::slice_to_vec(&pl[1..pl.len()]);
        assert(raw@ =~= pl@.skip(1));
        Some(Event::new(event_type, EventPayload::Stats(StatsData { category, raw })))
    } else {
        None
    }
}

/// `AutoaddConfig` packet: the first byte, or zero when empty.
pub open spec fn autoadd_event(pl: Seq<u8>, ev: Option<Event>) -> bool {
    ev matches Some(e) && plain(e, EventType::AutoAddConfig) && e.payload == EventPayload::AutoAddConfig {
        flags: if pl.len() > 0 {
            pl[0]
        } else {
            0
        },
    }
}

/// `Advertisement` packet (at least 14 bytes): prefix, 32-byte name field,
/// and the coordinates when the payload reaches them (else zero).
pub open spec fn advertisement_event(pl: Seq<u8>, ev: Option<Event>) -> bool {
    match ev {
        Some(e) => pl.len() >= 14 && plain(e, EventType::Advertisement) && (e.payload matches EventPayload::Advertisement(a)
            && a.prefix@ == pl.subrange(0, 6) && a.name@ == read_string_spec(pl, 6, 32)
            && a.lat == (if pl.len() >= 42 { le_u32(pl, 38) as i32 } else { 0 })
            && a.lon == (if pl.len() >= 46 { le_u32(pl, 42) as i32 } else { 0 })),
        None => pl.len() < 14,
    }
}

fn build_advertisement(pl: &[u8]) -> (ev: Option<Event>)
    ensures
        advertisement_event(pl@, ev),
{
    if pl.len() >= 14 {
        let prefix: [u8; 6] = match read_bytes(pl, 0) { Ok(a) => a, Err(_) => [0u8; 6] };
        let name = read_string(pl, 6, 32);
        let lat = if pl.len() >= 42 {
            match read_i32_le(pl, 38) { Ok(v) => v, Err(_) => 0 }
        } else {
            0
        };
        let lon = if pl.len() >= 46 {
            match read_i32_le(pl, 42) { Ok(v) => v, Err(_) => 0 }
        } else {
            0
        };
        Some(Event::new(
            EventType::Advertisement,
            EventPayload::Advertisement(AdvertisementData { prefix, name, lat, lon }),
        ))
    } else {
        None
    }
}

/// `PathUpdate` packet (at least 7 bytes): prefix, path length and path.
pub open spec fn path_update_event(pl: Seq<u8>, ev: Option<Event>) -> bool {
    match ev {
        Some(e) => pl.len() >= 7 && plain(e, EventType::PathUpdate) && (e.payload matches EventPayload::PathUpdate(p)
            && p.prefix@ == pl.subrange(0, 6) && p.path_len == pl[6] as i8 && p.path@ == pl.skip(7)),
        None => pl.len() < 7,
    }
}

fn build_path_update(pl: &[u8]) -> (ev: Option<Event>)
    ensures
        path_update_event(pl@, ev),
{
    if pl.len() >= 7 {
        let prefix: [u8; 6] = match read_bytes(pl, 0) { Ok(a) => a, Err(_) => [0u8; 6] };
        let path_len = pl[6] as i8;
        let path = if pl.len() > 7 {
            vstd::slice::slice_to_vec(&pl[7..pl.len()])
        } else {
            Vec::new()
        };
        assert(path@ =~= pl@.skip(7));
        Some(Event::new(
            EventType::PathUpdate,
            EventPayload::PathUpdate(PathUpdateData { prefix, path_len, path }),
        ))
    } else {
        None
    }
}

/// `Ack` packet: the 4-byte tag, also as the `tag` attribute.
pub open spec fn ack_event(pl: Seq<u8>, ev: Option<Event>) -> bool {
    match ev {
        Some(e) => pl.len() >= 4 && tagged(e, EventType::Ack, pl.subrange(0, 4)) && (e.payload matches EventPayload::Ack { tag }
            && tag@ == pl.subrange(0, 4)),
        None => pl.len() < 4,
    }
}

fn build_ack(pl: &[u8]) -> (ev: Option<Event>)
    ensures
        ack_event(pl@, ev),
{
    if pl.len() >= 4 {
        let tag: [u8; 4] = match read_bytes(pl, 0) { Ok(a) => a, Err(_) => [0u8; 4] };
        let e = Event::new(EventType::Ack, EventPayload::Ack { tag });
        Some(tag_event(e, &tag))
    } else {
        None
    }
}

/// `TelemetryResponse` packet: tag then LPP data.
pub open spec fn telemetry_event(pl: Seq<u8>, ev: Option<Event>) -> bool {
    match ev {
        Some(e) => pl.len() >= 4 && tagged(e, EventType::TelemetryResponse, pl.subrange(0, 4))
            && (e.payload matches EventPayload::Telemetry(v) && v@ == pl.skip(4)),
        None => pl.len() < 4,
    }
}

fn build_telemetry(pl: &[u8]) -> (ev: Option<Event>)
    ensures
        telemetry_event(pl@, ev),
{
    if pl.len() >= 4 {
        let tag: [u8; 4] = match read_bytes(pl, 0) { Ok(a) => a, Err(_) => [0u8; 4] };
        let telemetry = vstd::slice::slice_to_vec(&pl[4..pl.len()]);
        assert(telemetry@ =~= pl@.skip(4));
        let e = Event::new(EventType::TelemetryResponse, EventPayload::Telemetry(telemetry));
        Some(tag_event(e, &tag))
    } else {
        None
    }
}


/// An event with the given type whose only attribute is `prefix`, the hex
/// of `prefix_bytes`.
pub open spec fn prefixed(e: Event, t: EventType, prefix_bytes: Seq<u8>) -> bool {
    e.event_type == t && single_attr(e.attributes@, "prefix"@, hex_spec(prefix_bytes))
}

/// `StatusResponse` packet (at least 58 bytes): the sender prefix, then the
/// status record; the event carries the prefix as its `prefix` attribute.
pub open spec fn status_response_event(pl: Seq<u8>, ev: Option<Event>) -> bool {
    match ev {
        Some(e) => pl.len() >= 58 && prefixed(e, EventType::StatusResponse, pl.subrange(0, 6))
            && (e.payload matches EventPayload::Status(st) && status_fields(pl.skip(6), pl.subrange(0, 6), st)),
        None => pl.len() < 58,
    }
}

fn build_status_response(pl: &[u8]) -> (ev: Option<Event>)
    ensures
        status_response_event(pl@, ev),
{
    if pl.len() >= 58 {
        let sender_prefix: [u8; 6] = match read_bytes(pl, 0) { Ok(a) => a, Err(_) => [0u8; 6] };
        let rest = &pl[6..pl.len()];
        assert(rest@ =~= pl@.skip(6));
        match parse_status(rest, sender_prefix) {
            Ok(status) => {
                let e = Event::new(EventType::StatusResponse, EventPayload::Status(status));
                let r = e.with_attribute(String::from_str("prefix"), hex_encode(&sender_prefix));
                Some(r)
            },
            Err(_) => None,
        }
    } else {
        None
    }
}

/// A binary response that no request explains: its tag and data.
pub open spec fn generic_binary(e: Event, tag: Seq<u8>, data: Seq<u8>) -> bool {
    tagged(e, EventType::BinaryResponse, tag) && (e.payload matches EventPayload::BinaryResponse { tag: t, data: d }
        && t@ == tag && d@ == data)
}

/// `BinaryResponse` packet (at least 4 bytes): a 4-byte tag, then data.
/// When a pending request of type `req` carried that tag, the data is
/// decoded as its answer (falling back to the generic form where status or
/// neighbours data are too short); the event is tagged with the tag.
pub open spec fn binary_response_event(pl: Seq<u8>, req: Option<BinaryReqType>, ev: Option<Event>) -> bool {
    let tag = pl.subrange(0, 4);
    let data = pl.skip(4);
    match ev {
        None => pl.len() < 4,
        Some(e) => pl.len() >= 4 && match req {
            None => generic_binary(e, tag, data),
            Some(BinaryReqType::Status) => if data.len() >= 52 {
                tagged(e, EventType::StatusResponse, tag) && (e.payload matches EventPayload::Status(st)
                    && status_fields(data, Seq::new(6, |i: int| 0u8), st))
            } else {
                generic_binary(e, tag, data)
            },
            Some(BinaryReqType::Telemetry) => tagged(e, EventType::TelemetryResponse, tag) && (
            e.payload matches EventPayload::Telemetry(v) && v@ == data),
            Some(BinaryReqType::Mma) => tagged(e, EventType::MmaResponse, tag) && (e.payload matches EventPayload::Mma(v)
                && v@.len() == data.len() / 14 && forall|i: int|
                0 <= i < v@.len() ==> mma_entry_fields(data, i, #[trigger] v@[i])),
            Some(BinaryReqType::Acl) => tagged(e, EventType::AclResponse, tag) && (e.payload matches EventPayload::Acl(v)
                && v@.len() == data.len() / 7 && forall|i: int|
                0 <= i < v@.len() ==> acl_entry_fields(data, i, #[trigger] v@[i])),
            Some(BinaryReqType::Neighbours) => if data.len() >= 4 {
                tagged(e, EventType::NeighboursResponse, tag) && (e.payload matches EventPayload::Neighbours(nd)
                    && neighbours_fields(data, 6, nd))
            } else {
                generic_binary(e, tag, data)
            },
            Some(BinaryReqType::KeepAlive) => generic_binary(e, tag, data),
        },
    }
}

fn build_binary_response(pl: &[u8], req: Option<BinaryReqType>) -> (ev: Option<Event>)
    requires
        pl@.len() <= isize::MAX,
    ensures
        binary_response_event(pl@, req, ev),
{
    if pl.len() < 4 {
        return None;
    }
    let tag: [u8; 4] = match read_bytes(pl, 0) { Ok(a) => a, Err(_) => [0u8; 4] };
    let data = vstd::slice::slice_to_vec(&pl[4..pl.len()]);
    assert(data@ =~= pl@.skip(4));
    let e = match req {
        None => Event::new(EventType::BinaryResponse, EventPayload::BinaryResponse { tag, data }),
        Some(BinaryReqType::Status) => {
            let zeros = [0u8; 6];
            assert(zeros@ =~= Seq::new(6, |i: int| 0u8));
            match parse_status(data.as_slice(), zeros) {
                Ok(status) => Event::new(EventType::StatusResponse, EventPayload::Status(status)),
                Err(_) => Event::new(EventType::BinaryResponse, EventPayload::BinaryResponse { tag, data }),
            }
        },
        Some(BinaryReqType::Telemetry) => Event::new(EventType::TelemetryResponse, EventPayload::Telemetry(data)),
        Some(BinaryReqType::Mma) => {
            let entries = parse_mma(data.as_slice());
            Event::new(EventType::MmaResponse, EventPayload::Mma(entries))
        },
        Some(BinaryReqType::Acl) => {
            let entries = parse_acl(data.as_slice());
            Event::new(EventType::AclResponse, EventPayload::Acl(entries))
        },
        Some(BinaryReqType::Neighbours) => {
            match parse_neighbours(data.as_slice(), 6) {
                Ok(neighbours) => Event::new(EventType::NeighboursResponse, EventPayload::Neighbours(neighbours)),
                Err(_) => Event::new(EventType::BinaryResponse, EventPayload::BinaryResponse { tag, data }),
            }
        },
        Some(BinaryReqType::KeepAlive) => Event::new(EventType::BinaryResponse, EventPayload::BinaryResponse { tag, data }),
    };
    Some(tag_event(e, &tag))
}

/// The discover entries of a node-discovery response: 64-byte records from
/// offset 1, read while 38 bytes of one are present; each gives a 32-byte
/// key and a 32-byte name field.
pub open spec fn discover_entries(pl: Seq<u8>, v: Seq<DiscoverEntry>) -> bool {
    &&& 1 + 64 * v.len() + 38 > pl.len()
    &&& (v.len() > 0 ==> 1 + 64 * (v.len() - 1) + 38 <= pl.len())
    &&& forall|k: int| 0 <= k < v.len() ==> {
        &&& (#[trigger] v[k]).pubkey@ == pl.subrange(1 + 64 * k, 1 + 64 * k + 32)
        &&& v[k].name@ == read_string_spec(pl, 1 + 64 * k + 32, 32)
    }
}

/// `ControlData` packet (non-empty): a node-discovery response becomes its
/// entries; any other control type, the raw payload.
pub open spec fn control_event(pl: Seq<u8>, ev: Option<Event>) -> bool {
    match ev {
        None => pl.len() == 0,
        Some(e) => pl.len() > 0 && if crate::packets::control_of(pl[0]) == crate::packets::ControlType::NodeDiscoverResp {
            plain(e, EventType::DiscoverResponse) && (e.payload matches EventPayload::DiscoverResponse(v)
                && discover_entries(pl, v@))
        } else {
            plain(e, EventType::ControlData) && (e.payload matches EventPayload::Bytes(v) && v@ == pl)
        },
    }
}

fn build_control(pl: &[u8]) -> (ev: Option<Event>)
    requires
        pl@.len() <= isize::MAX,
    ensures
        control_event(pl@, ev),
{
    if pl.len() == 0 {
        return None;
    }
    let control_type = crate::packets::ControlType::from(pl[0]);
    match control_type {
        crate::packets::ControlType::NodeDiscoverResp => {
            let mut entries: Vec<DiscoverEntry> = Vec::new();
            let mut offset: usize = 1;
            while pl.len() >= 38 && offset <= pl.len() - 38
                invariant
                    offset == 1 + 64 * entries@.len(),
                    pl@.len() == pl.len(),
                    pl@.len() <= isize::MAX,
                    offset <= pl@.len() + 64,
                    entries@.len() > 0 ==> 1 + 64 * (entries@.len() - 1) + 38 <= pl@.len(),
                    forall|k: int| 0 <= k < entries@.len() ==> {
                        &&& (#[trigger] entries@[k]).pubkey@ == pl@.subrange(1 + 64 * k, 1 + 64 * k + 32)
                        &&& entries@[k].name@ == read_string_spec(pl@, 1 + 64 * k + 32, 32)
                    },
                decreases pl@.len() + 64 - offset,
            {
                let pubkey = vstd::slice::slice_to_vec(&pl[offset..offset + 32]);
                let name = read_string(pl, offset + 32, 32);
                entries.push(DiscoverEntry { pubkey, name });
                offset = offset + 64;
            }
            Some(Event::new(EventType::DiscoverResponse, EventPayload::DiscoverResponse(entries)))
        },
        _ => Some(Event::new(EventType::ControlData, EventPayload::Bytes(vstd::slice::slice_to_vec(pl)))),
    }
}

/// `TraceData` packet: 7-byte hop records (prefix then SNR byte).
pub open spec fn trace_event(pl: Seq<u8>, ev: Option<Event>) -> bool {
    ev matches Some(e) && plain(e, EventType::TraceData) && (e.payload matches EventPayload::TraceData(t)
        && t.hops@.len() == pl.len() / 7 && forall|k: int| 0 <= k < t.hops@.len() ==> {
        &&& (#[trigger] t.hops@[k]).prefix@ == pl.subrange(7 * k, 7 * k + 6)
        &&& t.hops@[k].snr_raw == pl[7 * k + 6] as i8
    })
}

fn build_trace(pl: &[u8]) -> (ev: Option<Event>)
    ensures
        trace_event(pl@, ev),
{
    let mut hops: Vec<TraceHop> = Vec::new();
    let mut offset: usize = 0;
    while pl.len() - offset >= 7
        invariant
            offset == 7 * hops@.len(),
            offset <= pl@.len(),
            pl@.len() == pl.len(),
            forall|k: int| 0 <= k < hops@.len() ==> {
                &&& (#[trigger] hops@[k]).prefix@ == pl@.subrange(7 * k, 7 * k + 6)
                &&& hops@[k].snr_raw == pl@[7 * k + 6] as i8
            },
        decreases pl@.len() - offset,
    {
        let prefix: [u8; 6] = match read_bytes(pl, offset) { Ok(a) => a, Err(_) => [0u8; 6] };
        let snr_raw = pl[offset + 6] as i8;
        hops.push(TraceHop { prefix, snr_raw });
        offset = offset + 7;
    }
    assert(hops@.len() == pl@.len() / 7) by (nonlinear_arith)
        requires
            offset == 7 * hops@.len(),
            offset <= pl@.len(),
            offset + 7 > pl@.len(),
    {
    }
    Some(Event::new(EventType::TraceData, EventPayload::TraceData(TraceInfo { hops })))
}

/// Whether a route type carries a 4-byte transport code after the header
/// byte.
pub open spec fn carries_transport(r: RouteType) -> bool {
    r == RouteType::TransportFlood || r == RouteType::TransportDirect
}

/// Offset of the path descriptor in a raw packet: after the header byte
/// and, on transport routes, the transport code.
pub open spec fn path_desc_pos(pkt: Seq<u8>) -> int {
    if carries_transport(route_of(pkt[0])) {
        5
    } else {
        1
    }
}

/// Bytes of path that a path descriptor announces: hop count (low six bits)
/// times hash size (high two bits, plus one).
pub open spec fn path_bytes(d: u8) -> int {
    (d % 64) * (d / 64 + 1)
}

/// Offset of the payload in a raw packet, after header and path.
pub open spec fn payload_pos(pkt: Seq<u8>) -> int {
    path_desc_pos(pkt) + 1 + path_bytes(pkt[path_desc_pos(pkt)])
}

/// Whether a raw packet holds a complete header and path.
pub open spec fn header_complete(pkt: Seq<u8>) -> bool {
    &&& pkt.len() >= 1
    &&& pkt.len() > path_desc_pos(pkt)
    &&& pkt.len() >= payload_pos(pkt)
}

/// The header decoded from a raw packet whose header is complete.
pub open spec fn header_fields(pkt: Seq<u8>, h: MeshPacketHeader) -> bool {
    let d = pkt[path_desc_pos(pkt)];
    &&& h.route_type == route_of(pkt[0])
    &&& h.payload_type == payload_of(pkt[0] / 4)
    &&& h.payload_version == pkt[0] / 64
    &&& match h.transport_code {
        Some(t) => carries_transport(h.route_type) && t@ == pkt.subrange(1, 5),
        None => !carries_transport(h.route_type),
    }
    &&& h.path_len == d % 64
    &&& h.path_hash_size == d / 64 + 1
    &&& h.path@ == pkt.subrange(path_desc_pos(pkt) + 1, payload_pos(pkt))
}

/// Whether the flags byte of an advertisement has the bit of value `bit`.
pub open spec fn has_flag(flags: u8, bit: int) -> bool {
    (flags as int / bit) % 2 == 1
}

/// Offset of the name in an advertisement payload: after key (32),
/// timestamp (4), signature (64) and flags (1), then the position (8) and
/// two optional 2-byte feature fields that the flags announce.
pub open spec fn advert_name_pos(flags: u8) -> int {
    101 + (if has_flag(flags, 16) {
        8int
    } else {
        0int
    }) + (if has_flag(flags, 32) {
        2int
    } else {
        0int
    }) + (if has_flag(flags, 64) {
        2int
    } else {
        0int
    })
}

/// The advertiser read from an advertisement payload of at least 101
/// bytes: the position when the flags announce one and it is present, the
/// name (the rest of the payload) when the flags announce one.
pub open spec fn raw_advert_fields(p: Seq<u8>, a: RawAdvertisement) -> bool {
    let f = p[100];
    let located = has_flag(f, 16) && p.len() >= 109;
    let named = has_flag(f, 128) && advert_name_pos(f) <= p.len();
    &&& a.public_key@ == p.subrange(0, 32)
    &&& a.timestamp == le_u32(p, 32)
    &&& a.adv_type == f % 16
    &&& a.lat == (if located { Some(le_u32(p, 101) as i32) } else { None::<i32> })
    &&& a.lon == (if located { Some(le_u32(p, 105) as i32) } else { None::<i32> })
    &&& match a.name {
        Some(n) => named && n@ == utf8_lossy(p.skip(advert_name_pos(f))),
        None => !named,
    }
}

/// A received-packet record: SNR (quarter dB) and RSSI, then the packet as
/// heard, its header and path when complete, its payload, and for an
/// advertisement of at least 101 payload bytes, the advertiser.
pub open spec fn log_data_fields(pl: Seq<u8>, d: LogData) -> bool {
    let pkt = pl.skip(2);
    &&& d.snr_raw == pl[0] as i8
    &&& d.rssi == pl[1] as i8
    &&& d.raw@ == pkt
    &&& match d.header {
        None => !header_complete(pkt) && d.payload@ == Seq::<u8>::empty() && d.advertisement is None,
        Some(h) => header_complete(pkt) && header_fields(pkt, h) && d.payload@ == pkt.skip(
            payload_pos(pkt),
        ) && match d.advertisement {
            Some(a) => h.payload_type == PayloadType::Advert && d.payload@.len() >= 101
                && raw_advert_fields(d.payload@, a),
            None => !(h.payload_type == PayloadType::Advert && d.payload@.len() >= 101),
        },
    }
}

/// `LogData` packet (at least 2 bytes): a packet the radio received.
pub open spec fn log_data_event(pl: Seq<u8>, ev: Option<Event>) -> bool {
    match ev {
        Some(e) => pl.len() >= 2 && plain(e, EventType::LogData) && (e.payload matches EventPayload::LogData(d)
            && log_data_fields(pl, d)),
        None => pl.len() < 2,
    }
}

fn decode_packet_header(pkt: &[u8]) -> (r: Option<(MeshPacketHeader, usize)>)
    ensures
        match r {
            Some((h, end)) => header_complete(pkt@) && header_fields(pkt@, h) && end == payload_pos(pkt@),
            None => !header_complete(pkt@),
        },
{
    if pkt.len() < 1 {
        return None;
    }
    let b0 = pkt[0];
    let route_type = RouteType::from(b0);
    let payload_type = PayloadType::from(b0 / 4);
    let transport = route_type == RouteType::TransportFlood || route_type == RouteType::TransportDirect;
    let pos: usize = if transport {
        5
    } else {
        1
    };
    if pkt.len() <= pos {
        return None;
    }
    let transport_code: Option<[u8; 4]> = if transport {
        match read_bytes(pkt, 1) {
            Ok(t) => Some(t),
            Err(_) => None,
        }
    } else {
        None
    };
    let d = pkt[pos];
    let hops: usize = (d % 64) as usize;
    let size: usize = (d / 64) as usize + 1;
    assert(hops * size <= 252) by (nonlinear_arith)
        requires
            hops <= 63,
            size <= 4,
    ;
    let n: usize = hops * size;
    assert(n == path_bytes(d));
    if pkt.len() - pos - 1 < n {
        return None;
    }
    let end = pos + 1 + n;
    let path = vstd::slice::slice_to_vec(&pkt[pos + 1..end]);
    let h = MeshPacketHeader {
        route_type,
        payload_type,
        payload_version: b0 / 64,
        transport_code,
        path_len: d % 64,
        path_hash_size: d / 64 + 1,
        path,
    };
    Some((h, end))
}

fn decode_raw_advert(p: &[u8]) -> (r: RawAdvertisement)
    requires
        p@.len() >= 101,
    ensures
        raw_advert_fields(p@, r),
{
    let public_key: [u8; 32] = match read_bytes(p, 0) {
        Ok(a) => a,
        Err(_) => [0u8; 32],
    };
    let timestamp = match read_u32_le(p, 32) {
        Ok(v) => v,
        Err(_) => 0,
    };
    let f = p[100];
    let loc = (f / 16) % 2 == 1;
    let feat1 = (f / 32) % 2 == 1;
    let feat2 = (f / 64) % 2 == 1;
    let named = (f / 128) % 2 == 1;
    let (lat, lon) = if loc && p.len() >= 109 {
        let la = match read_i32_le(p, 101) {
            Ok(v) => v,
            Err(_) => 0,
        };
        let lo = match read_i32_le(p, 105) {
            Ok(v) => v,
            Err(_) => 0,
        };
        (Some(la), Some(lo))
    } else {
        (None, None)
    };
    let name_pos: usize = 101 + (if loc {
        8
    } else {
        0
    }) + (if feat1 {
        2
    } else {
        0
    }) + (if feat2 {
        2
    } else {
        0
    });
    assert(name_pos == advert_name_pos(f));
    let name = if named && name_pos <= p.len() {
        let rest = &p[name_pos..p.len()];
        assert(rest@ =~= p@.skip(name_pos as int));
        Some(lossy_string(rest))
    } else {
        None
    };
    RawAdvertisement { public_key, timestamp, adv_type: f % 16, lat, lon, name }
}

fn build_log_data(pl: &[u8]) -> (ev: Option<Event>)
    ensures
        log_data_event(pl@, ev),
{
    if pl.len() < 2 {
        return None;
    }
    let snr_raw = pl[0] as i8;
    let rssi = pl[1] as i8;
    let pkt = &pl[2..pl.len()];
    assert(pkt@ =~= pl@.skip(2));
    let raw = vstd::slice::slice_to_vec(pkt);
    let d = match decode_packet_header(pkt) {
        None => LogData { snr_raw, rssi, raw, header: None, payload: Vec::new(), advertisement: None },
        Some((h, end)) => {
            let rest = &pkt[end..pkt.len()];
            assert(rest@ =~= pkt@.skip(end as int));
            let payload = vstd::slice::slice_to_vec(rest);
            let advertisement = if h.payload_type == PayloadType::Advert && rest.len() >= 101 {
                Some(decode_raw_advert(rest))
            } else {
                None
            };
            LogData { snr_raw, rssi, raw, header: Some(h), payload, advertisement }
        },
    };
    Some(Event::new(EventType::LogData, EventPayload::LogData(d)))
}

/// `AdvertResponse` packet (at least 42 bytes): tag, key, type, 32-byte name
/// field, then timestamp, flags, coordinates and description as far as the
/// payload reaches; tagged with the tag.
pub open spec fn advert_response_fields(pl: Seq<u8>, a: AdvertResponseData) -> bool {
    &&& a.tag@ == pl.subrange(0, 4)
    &&& a.pubkey@ == pl.subrange(4, 36)
    &&& a.adv_type == pl[36]
    &&& a.node_name@ == read_string_spec(pl, 37, 32)
    &&& a.timestamp == (if pl.len() >= 73 { le_u32(pl, 69) } else { 0 })
    &&& a.flags == (if pl.len() > 73 { pl[73] } else { 0 })
    &&& a.lat == (if pl.len() >= 82 { Some(le_u32(pl, 74) as i32) } else { None })
    &&& a.lon == (if pl.len() >= 82 { Some(le_u32(pl, 78) as i32) } else { None })
    &&& match a.node_desc {
        Some(d) => pl.len() > 82 && d@ == read_string_spec(pl, 82, 32),
        None => pl.len() <= 82,
    }
}

/// `AdvertResponse` packet.
pub open spec fn advert_response_event(pl: Seq<u8>, ev: Option<Event>) -> bool {
    match ev {
        Some(e) => pl.len() >= 42 && tagged(e, EventType::AdvertResponse, pl.subrange(0, 4)) && (
        e.payload matches EventPayload::AdvertResponse(a) && advert_response_fields(pl, a)),
        None => pl.len() < 42,
    }
}

fn build_advert_response(pl: &[u8]) -> (ev: Option<Event>)
    ensures
        advert_response_event(pl@, ev),
{
    if pl.len() < 42 {
        return None;
    }
    let tag: [u8; 4] = match read_bytes(pl, 0) { Ok(a) => a, Err(_) => [0u8; 4] };
    let pubkey: [u8; 32] = match read_bytes(pl, 4) { Ok(a) => a, Err(_) => [0u8; 32] };
    let adv_type = pl[36];
    let node_name = read_string(pl, 37, 32);
    let timestamp = match read_u32_le(pl, 69) { Ok(v) => v, Err(_) => 0 };
    let flags = if pl.len() > 73 { pl[73] } else { 0 };
    let (lat, lon, node_desc) = if pl.len() >= 82 {
        let lat = Some(match read_i32_le(pl, 74) { Ok(v) => v, Err(_) => 0 });
        let lon = Some(match read_i32_le(pl, 78) { Ok(v) => v, Err(_) => 0 });
        let desc = if pl.len() > 82 {
            Some(read_string(pl, 82, 32))
        } else {
            None
        };
        (lat, lon, desc)
    } else {
        (None, None, None)
    };
    let e = Event::new(
        EventType::AdvertResponse,
        EventPayload::AdvertResponse(AdvertResponseData {
            tag,
            pubkey,
            adv_type,
            node_name,
            timestamp,
            flags,
            lat,
            lon,
            node_desc,
        }),
    );
    Some(tag_event(e, &tag))
}


/// Position of the first `c` in `s`, or its length.
pub open spec fn char_pos(s: Seq<char>, c: char) -> int
    decreases s.len(),
{
    if s.len() == 0 {
        0
    } else if s[0] == c {
        0
    } else {
        1 + char_pos(s.drop_first(), c)
    }
}

/// `n` is the position of the first `c` in `s`, or its length.
pub open spec fn is_char_pos(s: Seq<char>, c: char, n: int) -> bool {
    &&& 0 <= n <= s.len()
    &&& forall|i: int| 0 <= i < n ==> s[i] != c
    &&& n < s.len() ==> s[n] == c
}

/// The first-occurrence position is determined by its defining property.
pub proof fn lemma_char_pos(s: Seq<char>, c: char, n: int)
    requires
        is_char_pos(s, c, n),
    ensures
        char_pos(s, c) == n,
    decreases s.len(),
{
    if s.len() > 0 && s[0] != c {
        assert(n > 0);
        assert(is_char_pos(s.drop_first(), c, n - 1));
        lemma_char_pos(s.drop_first(), c, n - 1);
    }
}

/// The first-occurrence position lies within the sequence.
pub proof fn lemma_char_pos_bounds(s: Seq<char>, c: char)
    ensures
        0 <= char_pos(s, c) <= s.len(),
    decreases s.len(),
{
    if s.len() > 0 && s[0] != c {
        lemma_char_pos_bounds(s.drop_first(), c);
    }
}

/// End of a line cut at position `n`: a carriage return before a newline is
/// dropped.
pub open spec fn line_end(t: Seq<char>, n: int) -> int {
    if n < t.len() && n > 0 && t[n - 1] == '\r' {
        n - 1
    } else {
        n
    }
}

/// A `key=value` line (split at its first `=`) sets the key; other lines are
/// ignored.
pub open spec fn apply_line(m: Map<Seq<char>, Seq<char>>, line: Seq<char>) -> Map<Seq<char>, Seq<char>> {
    let p = char_pos(line, '=');
    if p < line.len() {
        m.insert(line.take(p), line.skip(p + 1))
    } else {
        m
    }
}

/// Applies the lines of `t` (split at newlines, the last one possibly
/// unterminated) in order to `m`: a later line for a key replaces an
/// earlier one.
pub open spec fn vars_from(t: Seq<char>, m: Map<Seq<char>, Seq<char>>) -> Map<Seq<char>, Seq<char>>
    decreases t.len(),
{
    if t.len() == 0 {
        m
    } else {
        let n = char_pos(t, '\n');
        let m2 = apply_line(m, t.take(line_end(t, n)));
        if n < t.len() {
            proof {
                lemma_char_pos_bounds(t, '\n');
            }
            vars_from(t.skip(n + 1), m2)
        } else {
            m2
        }
    }
}

/// Position of the first `c` in `text[from..to]`, as an index of `text`, or
/// `to`.
fn find_char(text: &str, c: char, from: usize, to: usize) -> (r: usize)
    requires
        from <= to <= text@.len(),
    ensures
        from <= r <= to,
        is_char_pos(text@.subrange(from as int, to as int), c, r - from),
{
    let mut i = from;
    while i < to
        invariant
            from <= i <= to <= text@.len(),
            forall|k: int| from <= k < i ==> text@[k] != c,
        decreases to - i,
    {
        if text.get_char(i) == c {
            return i;
        }
        i = i + 1;
    }
    i
}

/// The custom variables of a text: its `key=value` lines, a later line for a
/// key replacing an earlier one; each key occurs once.
fn parse_custom_vars(text: &str) -> (vars: Vec<(String, String)>)
    ensures
        keys_unique(vars@),
        pairs_map(vars@) == vars_from(text@, Map::empty()),
{
    let n = text.unicode_len();
    let mut vars: Vec<(String, String)> = Vec::new();
    let mut pos: usize = 0;
    assert(pairs_map(vars@) =~= Map::<Seq<char>, Seq<char>>::empty());
    assert(text@.skip(0) =~= text@);
    while pos < n
        invariant
            n == text@.len(),
            pos <= n,
            keys_unique(vars@),
            vars_from(text@, Map::empty()) == vars_from(text@.skip(pos as int), pairs_map(vars@)),
        decreases n - pos,
    {
        let ghost t = text@.skip(pos as int);
        let ghost m = pairs_map(vars@);
        let q = find_char(text, '\n', pos, n);
        proof {
            assert(text@.subrange(pos as int, n as int) =~= t);
            lemma_char_pos(t, '\n', q - pos);
        }
        let e = if q < n && q > pos && text.get_char(q - 1) == '\r' {
            q - 1
        } else {
            q
        };
        assert(e - pos == line_end(t, q - pos));
        let ghost line = t.take(e - pos);
        let p = find_char(text, '=', pos, e);
        proof {
            assert(text@.subrange(pos as int, e as int) =~= line);
            lemma_char_pos(line, '=', p - pos);
        }
        if p < e {
            let key = text.substring_char(pos, p).to_owned();
            let value = text.substring_char(p + 1, e).to_owned();
            assert(key@ =~= line.take(p - pos));
            assert(value@ =~= line.skip(p - pos + 1));
            set_attr(&mut vars, key, value);
        }
        assert(pairs_map(vars@) == apply_line(m, line));
        if q < n {
            assert(t.skip(q - pos + 1) =~= text@.skip(q + 1));
            pos = q + 1;
        } else {
            assert(text@.skip(n as int) =~= Seq::<char>::empty());
            pos = n;
        }
    }
    vars
}

/// `CustomVars` packet: the payload text's `key=value` lines.
pub open spec fn custom_vars_event(pl: Seq<u8>, ev: Option<Event>) -> bool {
    ev matches Some(e) && plain(e, EventType::CustomVars) && (e.payload matches EventPayload::CustomVars(v)
        && keys_unique(v@) && pairs_map(v@) == vars_from(utf8_lossy(pl), Map::empty()))
}

fn build_custom_vars(pl: &[u8]) -> (ev: Option<Event>)
    ensures
        custom_vars_event(pl@, ev),
{
    let text = lossy_string(pl);
    let vars = parse_custom_vars(text.as_str());
    Some(Event::new(EventType::CustomVars, EventPayload::CustomVars(vars)))
}


/// The reader state once requests expired at `now` are dropped.
pub open spec fn cleaned(s: ReaderView, now: u64) -> ReaderView {
    ReaderView { requests: unexpired(s.requests, now), pending_contacts: s.pending_contacts, lastmod: s.lastmod }
}

/// The reader state after a packet arrives at `now`. An empty packet
/// changes nothing; any other first drops expired requests. A contact-list
/// start empties the pending contacts, each complete contact record is
/// appended, and the list end empties them again and records its
/// last-modified stamp. A binary response consumes the request registered
/// under its tag.
pub open spec fn rx_state(s: ReaderView, data: Seq<u8>, now: u64) -> ReaderView {
    if data.len() == 0 {
        s
    } else {
        let c = cleaned(s, now);
        let pl = data.skip(1);
        match packet_type_of(data[0]) {
            PacketType::ContactStart => ReaderView {
                requests: c.requests,
                pending_contacts: Seq::empty(),
                lastmod: c.lastmod,
            },
            PacketType::Contact => if pl.len() >= 145 {
                ReaderView {
                    requests: c.requests,
                    pending_contacts: c.pending_contacts.push(contact_spec(pl)),
                    lastmod: c.lastmod,
                }
            } else {
                c
            },
            PacketType::ContactEnd => ReaderView {
                requests: c.requests,
                pending_contacts: Seq::empty(),
                lastmod: if pl.len() >= 4 {
                    le_u32(pl, 0)
                } else {
                    0
                },
            },
            PacketType::BinaryResponse => if pl.len() >= 4 {
                ReaderView {
                    requests: c.requests.remove(pl.take(4)),
                    pending_contacts: c.pending_contacts,
                    lastmod: c.lastmod,
                }
            } else {
                c
            },
            _ => c,
        }
    }
}

/// An event of the given type without payload or attributes.
pub open spec fn empty_event(ev: Option<Event>, t: EventType) -> bool {
    ev matches Some(e) && plain(e, t) && e.payload is Empty
}

/// `ContactEnd` packet: the pending contacts, in arrival order, with the
/// list's last-modified stamp as the `lastmod` attribute (in decimal).
pub open spec fn contacts_end_event(pending: Seq<ContactView>, pl: Seq<u8>, ev: Option<Event>) -> bool {
    let lastmod = if pl.len() >= 4 {
        le_u32(pl, 0)
    } else {
        0
    };
    ev matches Some(e) && e.event_type == EventType::Contacts && single_attr(
        e.attributes@,
        "lastmod"@,
        decimal(lastmod as nat),
    ) && (e.payload matches EventPayload::Contacts(v) && v@.map_values(|c: Contact| c@) == pending)
}

/// The request type registered under a binary response's tag, if any.
pub open spec fn matched_request(c: ReaderView, pl: Seq<u8>) -> Option<BinaryReqType> {
    if pl.len() >= 4 && c.requests.contains_key(pl.take(4)) {
        Some(c.requests[pl.take(4)].request_type)
    } else {
        None
    }
}

/// The event a packet produces, given the state before it.
pub open spec fn rx_event(s: ReaderView, data: Seq<u8>, now: u64, ev: Option<Event>) -> bool {
    if data.len() == 0 {
        ev is None
    } else {
        let c = cleaned(s, now);
        let pl = data.skip(1);
        match packet_type_of(data[0]) {
            PacketType::Success => empty_event(ev, EventType::Success),
            PacketType::Error => error_event(pl, ev),
            PacketType::ContactStart => ev is None,
            PacketType::Contact => ev is None,
            PacketType::PushCodeNewAdvert => new_contact_event(pl, ev),
            PacketType::ContactEnd => contacts_end_event(c.pending_contacts, pl, ev),
            PacketType::SelfInfo => self_info_event(pl, ev),
            PacketType::DeviceInfo => device_info_event(pl, ev),
            PacketType::Battery => battery_event(pl, ev),
            PacketType::CurrentTime => word_event(pl, ev, EventType::CurrentTime, EventPayload::Time(le_u32(pl, 0))),
            PacketType::MsgSent => msg_sent_event(pl, ev),
            PacketType::ContactMsgRecv => message_event(pl, ev, 0),
            PacketType::ContactMsgRecvV3 => message_event(pl, ev, 1),
            PacketType::ChannelMsgRecv => message_event(pl, ev, 2),
            PacketType::ChannelMsgRecvV3 => message_event(pl, ev, 2),
            PacketType::NoMoreMsgs => empty_event(ev, EventType::NoMoreMessages),
            PacketType::ContactUri => text_event(pl, ev, EventType::ContactUri),
            PacketType::PrivateKey => private_key_event(pl, ev),
            PacketType::Disabled => text_event(pl, ev, EventType::Disabled),
            PacketType::ChannelInfo => channel_info_event(pl, ev),
            PacketType::SignStart => word_event(
                pl,
                ev,
                EventType::SignStart,
                EventPayload::SignStart { max_length: le_u32(pl, 0) },
            ),
            PacketType::Signature => ev matches Some(e) && plain(e, EventType::Signature) && (
            e.payload matches EventPayload::Signature(v) && v@ == pl),
            PacketType::CustomVars => custom_vars_event(pl, ev),
            PacketType::Stats => stats_event(pl, ev),
            PacketType::AutoaddConfig => autoadd_event(pl, ev),
            PacketType::Advertisement => advertisement_event(pl, ev),
            PacketType::PathUpdate => path_update_event(pl, ev),
            PacketType::Ack => ack_event(pl, ev),
            PacketType::MessagesWaiting => empty_event(ev, EventType::MessagesWaiting),
            PacketType::LoginSuccess => empty_event(ev, EventType::LoginSuccess),
            PacketType::LoginFailed => empty_event(ev, EventType::LoginFailed),
            PacketType::StatusResponse => status_response_event(pl, ev),
            PacketType::TelemetryResponse => telemetry_event(pl, ev),
            PacketType::BinaryResponse => binary_response_event(pl, matched_request(c, pl), ev),
            PacketType::ControlData => control_event(pl, ev),
            PacketType::TraceData => trace_event(pl, ev),
            PacketType::AdvertResponse => advert_response_event(pl, ev),
            PacketType::LogData => log_data_event(pl, ev),
            _ => ev matches Some(e) && plain(e, EventType::Unknown) && (e.payload matches EventPayload::Bytes(v)
                && v@ == data),
        }
    }
}

/// The packets `handle_rx` processes: a self-info payload of 55 or 56
/// bytes is read past its end, which these exclude; lengths stay within
/// what a buffer can hold.
pub open spec fn rx_accepts(data: Seq<u8>) -> bool {
    &&& data.len() <= isize::MAX
    &&& !(data.len() > 0 && packet_type_of(data[0]) == PacketType::SelfInfo && (data.len() == 56
        || data.len() == 57))
}

impl MessageReader {
    /// Handle received data at time `now_ms`: updates the reader state and
    /// returns the event the packet produces, if any.
    pub fn handle_rx(&mut self, data: &[u8], now_ms: u64) -> (ev: Option<Event>)
        requires
            old(self).wf(),
            rx_accepts(data@),
        ensures
            final(self).wf(),
            final(self)@ == rx_state(old(self)@, data@, now_ms),
            rx_event(old(self)@, data@, now_ms, ev),
    {
        if data.len() == 0 {
            return None;
        }
        self.cleanup_expired(now_ms);
        let ghost c = self@;
        let packet_type = PacketType::from_byte(data[0]);
        let pl = &data[1..data.len()];
        assert(pl@ =~= data@.skip(1));
        match packet_type {
            PacketType::Success => Some(Event::ok()),
            PacketType::Error => build_error(pl),
            PacketType::ContactStart => {
                self.pending_contacts.clear();
                assert(self@.pending_contacts =~= Seq::<ContactView>::empty());
                None
            },
            PacketType::Contact => {
                match parse_contact(pl) {
                    Ok(contact) => {
                        let ghost before = self.pending_contacts@;
                        self.pending_contacts.push(contact);
                        assert(self.pending_contacts@.map_values(|c: Contact| c@) =~= before.map_values(
                            |c: Contact| c@,
                        ).push(contact_spec(pl@)));
                    },
                    Err(_) => {},
                }
                None
            },
            PacketType::PushCodeNewAdvert => build_new_contact(pl),
            PacketType::ContactEnd => {
                let lastmod = if pl.len() >= 4 {
                    match read_u32_le(pl, 0) { Ok(v) => v, Err(_) => 0 }
                } else {
                    0
                };
                self.contacts_last_modification_timestamp = lastmod;
                let mut contacts: Vec<Contact> = Vec::new();
                std::mem::swap(&mut contacts, &mut self.pending_contacts);
                assert(self@.pending_contacts =~= Seq::<ContactView>::empty());
                let e = Event::new(EventType::Contacts, EventPayload::Contacts(contacts));
                let r = e.with_attribute(String::from_str("lastmod"), message_with_count("", lastmod as usize, ""));
                proof {
                    reveal_strlit("");
                    assert(""@ + decimal(lastmod as nat) + ""@ =~= decimal(lastmod as nat));
                }
                Some(r)
            },
            PacketType::SelfInfo => build_self_info(pl),
            PacketType::DeviceInfo => Some(Event::new(
                EventType::DeviceInfo,
                EventPayload::DeviceInfo(DeviceInfoData { raw: vstd::slice::slice_to_vec(pl) }),
            )),
            PacketType::Battery => build_battery(pl),
            PacketType::CurrentTime => build_time(pl),
            PacketType::MsgSent => build_msg_sent(pl),
            PacketType::ContactMsgRecv => build_contact_msg(pl),
            PacketType::ContactMsgRecvV3 => build_contact_msg_v3(pl),
            PacketType::ChannelMsgRecv => build_channel_msg(pl),
            PacketType::ChannelMsgRecvV3 => build_channel_msg(pl),
            PacketType::NoMoreMsgs => Some(Event::new(EventType::NoMoreMessages, EventPayload::Empty)),
            PacketType::ContactUri => Some(Event::new(EventType::ContactUri, EventPayload::Text(lossy_string(pl)))),
            PacketType::PrivateKey => build_private_key(pl),
            PacketType::Disabled => Some(Event::new(EventType::Disabled, EventPayload::Text(lossy_string(pl)))),
            PacketType::ChannelInfo => build_channel_info(pl),
            PacketType::SignStart => build_sign_start(pl),
            PacketType::Signature => Some(Event::new(
                EventType::Signature,
                EventPayload::Signature(vstd::slice::slice_to_vec(pl)),
            )),
            PacketType::CustomVars => build_custom_vars(pl),
            PacketType::Stats => build_stats(pl),
            PacketType::AutoaddConfig => {
                let flags = if pl.len() > 0 { pl[0] } else { 0 };
                Some(Event::new(EventType::AutoAddConfig, EventPayload::AutoAddConfig { flags }))
            },
            PacketType::Advertisement => build_advertisement(pl),
            PacketType::PathUpdate => build_path_update(pl),
            PacketType::Ack => build_ack(pl),
            PacketType::MessagesWaiting => Some(Event::new(EventType::MessagesWaiting, EventPayload::Empty)),
            PacketType::LoginSuccess => Some(Event::new(EventType::LoginSuccess, EventPayload::Empty)),
            PacketType::LoginFailed => Some(Event::new(EventType::LoginFailed, EventPayload::Empty)),
            PacketType::StatusResponse => build_status_response(pl),
            PacketType::TelemetryResponse => build_telemetry(pl),
            PacketType::BinaryResponse => {
                if pl.len() >= 4 {
                    let tag = &pl[0..4];
                    assert(tag@ =~= pl@.take(4));
                    let request = self.take_request(tag);
                    let req_type = match request {
                        Some(r) => Some(r.request_type),
                        None => None,
                    };
                    build_binary_response(pl, req_type)
                } else {
                    build_binary_response(pl, None)
                }
            },
            PacketType::ControlData => build_control(pl),
            PacketType::TraceData => build_trace(pl),
            PacketType::AdvertResponse => build_advert_response(pl),
            PacketType::LogData => build_log_data(pl),
            _ => Some(Event::new(EventType::Unknown, EventPayload::Bytes(vstd::slice::slice_to_vec(data)))),
        }
    }
}


/// The reader state after a sequence of packets, all arriving at `now`.
pub open spec fn rx_states(s: ReaderView, packets: Seq<Seq<u8>>, now: u64) -> ReaderView
    decreases packets.len(),
{
    if packets.len() == 0 {
        s
    } else {
        rx_state(rx_states(s, packets.drop_last(), now), packets.last(), now)
    }
}

/// The packets of a contact list: start, one packet per contact record.
pub open spec fn contact_list_packets(records: Seq<Seq<u8>>) -> Seq<Seq<u8>> {
    seq![seq![2u8]] + records.map_values(|r: Seq<u8>| seq![3u8] + r)
}

proof fn lemma_contact_records(s: ReaderView, records: Seq<Seq<u8>>, now: u64)
    requires
        forall|i: int| 0 <= i < records.len() ==> (#[trigger] records[i]).len() >= 145,
    ensures
        rx_states(s, contact_list_packets(records), now).pending_contacts == records.map_values(
            |r: Seq<u8>| contact_spec(r),
        ),
    decreases records.len(),
{
    lemma_codes_roundtrip();
    assert(packet_type_code(PacketType::ContactStart) == 2);
    assert(packet_type_code(PacketType::Contact) == 3);
    let packets = contact_list_packets(records);
    if records.len() == 0 {
        assert(packets =~= seq![seq![2u8]]);
        assert(packets.drop_last() =~= Seq::<Seq<u8>>::empty());
        assert(packets.last()[0] == 2u8);
        assert(records.map_values(|r: Seq<u8>| contact_spec(r)) =~= Seq::<ContactView>::empty());
    } else {
        let prev = records.drop_last();
        lemma_contact_records(s, prev, now);
        assert(packets.drop_last() =~= contact_list_packets(prev));
        let last = packets.last();
        assert(last == seq![3u8] + records.last());
        assert(last[0] == 3u8);
        assert(last.skip(1) =~= records.last());
        assert(records.map_values(|r: Seq<u8>| contact_spec(r)) =~= prev.map_values(
            |r: Seq<u8>| contact_spec(r),
        ).push(contact_spec(records.last())));
    }
}

/// The last-modified stamp a contact-list end packet carries (0 when it
/// carries none).
pub open spec fn list_end_stamp(end: Seq<u8>) -> u32 {
    if end.skip(1).len() >= 4 {
        le_u32(end.skip(1), 0)
    } else {
        0
    }
}

/// Law: a contact list (its start, one packet per complete contact record,
/// then its end) yields one `Contacts` event that carries exactly those
/// contacts, in order, with the end's stamp in decimal as its only
/// attribute `lastmod`, whatever the reader held before; afterwards no
/// contact is pending, so a further end packet gives an empty list.
pub proof fn lemma_contact_list(s: ReaderView, records: Seq<Seq<u8>>, end: Seq<u8>, now: u64, ev: Option<Event>)
    requires
        forall|i: int| 0 <= i < records.len() ==> (#[trigger] records[i]).len() >= 145,
        end.len() >= 1,
        end[0] == 4,
        rx_event(rx_states(s, contact_list_packets(records), now), end, now, ev),
    ensures
        ev matches Some(e) && e.event_type == EventType::Contacts && (e.payload matches EventPayload::Contacts(v)
            && v@.map_values(|c: Contact| c@) == records.map_values(|r: Seq<u8>| contact_spec(r))),
        ev matches Some(e) && single_attr(e.attributes@, "lastmod"@, decimal(list_end_stamp(end) as nat)),
        rx_state(rx_states(s, contact_list_packets(records), now), end, now).pending_contacts
            == Seq::<ContactView>::empty(),
        rx_state(rx_states(s, contact_list_packets(records), now), end, now).lastmod == list_end_stamp(end),
{
    lemma_codes_roundtrip();
    assert(packet_type_code(PacketType::ContactEnd) == 4);
    lemma_contact_records(s, records, now);
}

/// The reader state once a request is registered under `tag`.
pub open spec fn with_request(s: ReaderView, tag: Seq<u8>, r: RequestView) -> ReaderView {
    ReaderView { requests: s.requests.insert(tag, r), pending_contacts: s.pending_contacts, lastmod: s.lastmod }
}

/// Law: a binary response whose tag names a registered request that has not
/// expired is decoded as that request's answer, and consumes it: the same
/// response again finds no request.
pub proof fn lemma_response_matches_request(
    s: ReaderView,
    tag: Seq<u8>,
    r: RequestView,
    data: Seq<u8>,
    now: u64,
)
    requires
        tag.len() == 4,
        data.len() >= 5,
        data[0] == 0x8C,
        data.skip(1).take(4) == tag,
        r.expires_at > now,
    ensures
        matched_request(cleaned(with_request(s, tag, r), now), data.skip(1)) == Some(r.request_type),
        matched_request(cleaned(rx_state(with_request(s, tag, r), data, now), now), data.skip(1)) is None,
{
    lemma_codes_roundtrip();
    assert(packet_type_code(PacketType::BinaryResponse) == 0x8C);
    let c = cleaned(with_request(s, tag, r), now);
    assert(c.requests.contains_key(tag));
}

/// Law: a request whose expiry is not after the response's arrival is gone
/// by then; the response is treated as unexpected.
pub proof fn lemma_expired_request_ignored(s: ReaderView, tag: Seq<u8>, r: RequestView, data: Seq<u8>, now: u64)
    requires
        tag.len() == 4,
        data.len() >= 5,
        data.skip(1).take(4) == tag,
        r.expires_at <= now,
    ensures
        matched_request(cleaned(with_request(s, tag, r), now), data.skip(1)) is None,
{
}

/// Law: a packet that is not a binary response leaves the registered
/// requests as they were, but for dropping the expired ones.
pub proof fn lemma_requests_kept(s: ReaderView, data: Seq<u8>, now: u64)
    requires
        data.len() > 0,
        packet_type_of(data[0]) != PacketType::BinaryResponse,
    ensures
        rx_state(s, data, now).requests == unexpired(s.requests, now),
{
}


/// Law: a statistics packet (`0x18`) with a category byte gives one event
/// whose raw data is the rest of the packet: byte 0 (or any byte above 2)
/// gives core statistics, 1 radio statistics and 2 packet statistics, the
/// event type naming the same category as the payload.
pub proof fn lemma_stats_category(s: ReaderView, data: Seq<u8>, now: u64, ev: Option<Event>)
    requires
        data.len() >= 2,
        data[0] == 0x18,
        rx_event(s, data, now, ev),
    ensures
        ev matches Some(e) && e.attributes@.len() == 0 && (e.payload matches EventPayload::Stats(st)
            && st.raw@ == data.skip(2) && (data[1] == 1 ==> e.event_type == EventType::StatsRadio
            && st.category == StatsCategory::Radio) && (data[1] == 2 ==> e.event_type
            == EventType::StatsPackets && st.category == StatsCategory::Packets) && (data[1] != 1
            && data[1] != 2 ==> e.event_type == EventType::StatsCore && st.category
            == StatsCategory::Core)),
{
    lemma_codes_roundtrip();
    assert(packet_type_code(PacketType::Stats) == 0x18);
    assert(data.skip(1).skip(1) =~= data.skip(2));
}


/// Law: a battery packet (`0x0C`) carries the level at bytes 1-2 and the
/// storage at bytes 3-4, each little-endian.
pub proof fn lemma_battery_packet(s: ReaderView, data: Seq<u8>, now: u64, level: u16, storage: u16, ev: Option<Event>)
    requires
        data.len() >= 5,
        data[0] == 0x0C,
        data.subrange(1, 3) == le16(level),
        data.subrange(3, 5) == le16(storage),
        rx_event(s, data, now, ev),
    ensures
        ev matches Some(e) && e.event_type == EventType::Battery && e.payload == EventPayload::Battery(
            BatteryInfo { level, storage },
        ),
{
    lemma_codes_roundtrip();
    assert(packet_type_code(PacketType::Battery) == 0x0C);
    let pl = data.skip(1);
    assert(pl.subrange(0, 2) =~= data.subrange(1, 3));
    assert(pl.subrange(2, 4) =~= data.subrange(3, 5));
    lemma_u16_at(pl, 0, level);
    lemma_u16_at(pl, 2, storage);
}

/// Law: the device-time packet (`0x09`) and the signing-start packet
/// (`0x13`) carry their number at bytes 1-4, little-endian.
pub proof fn lemma_word_packets(s: ReaderView, data: Seq<u8>, now: u64, v: u32, ev: Option<Event>)
    requires
        data.len() >= 5,
        data[0] == 0x09 || data[0] == 0x13,
        data.subrange(1, 5) == le32(v),
        rx_event(s, data, now, ev),
    ensures
        data[0] == 0x09 ==> (ev matches Some(e) && e.event_type == EventType::CurrentTime && e.payload
            == EventPayload::Time(v)),
        data[0] == 0x13 ==> (ev matches Some(e) && e.event_type == EventType::SignStart && e.payload
            == EventPayload::SignStart { max_length: v }),
{
    lemma_codes_roundtrip();
    assert(packet_type_code(PacketType::CurrentTime) == 0x09);
    assert(packet_type_code(PacketType::SignStart) == 0x13);
    let pl = data.skip(1);
    assert(pl.subrange(0, 4) =~= data.subrange(1, 5));
    lemma_u32_at(pl, 0, v);
}

/// Law: the message-sent packet (`0x06`) carries the message type (byte 1),
/// the expected acknowledgement tag (bytes 2-5) and the suggested timeout
/// (bytes 6-9, little-endian); the event is tagged with the tag in hex.
pub proof fn lemma_msg_sent_packet(
    s: ReaderView,
    data: Seq<u8>,
    now: u64,
    message_type: u8,
    ack: Seq<u8>,
    timeout: u32,
    ev: Option<Event>,
)
    requires
        data.len() >= 10,
        data[0] == 0x06,
        data[1] == message_type,
        data.subrange(2, 6) == ack,
        data.subrange(6, 10) == le32(timeout),
        rx_event(s, data, now, ev),
    ensures
        ev matches Some(e) && e.event_type == EventType::MsgSent && single_attr(
            e.attributes@,
            "tag"@,
            hex_spec(ack),
        ) && (e.payload matches EventPayload::MsgSent(m) && m.message_type == message_type
            && m.expected_ack@ == ack && m.suggested_timeout == timeout),
{
    lemma_codes_roundtrip();
    assert(packet_type_code(PacketType::MsgSent) == 0x06);
    let pl = data.skip(1);
    assert(pl.subrange(1, 5) =~= data.subrange(2, 6));
    assert(pl.subrange(5, 9) =~= data.subrange(6, 10));
    lemma_u32_at(pl, 5, timeout);
}

/// Law: received-message packets are read by the layout their code names:
/// `0x07` as a contact message, `0x10` as a version-3 contact message (with
/// SNR), and `0x08` and `0x11` as channel messages; each gives the event of
/// its kind once the record's fixed part is present.
pub proof fn lemma_message_packets(s: ReaderView, data: Seq<u8>, now: u64, ev: Option<Event>)
    requires
        data.len() >= 1,
        data[0] == 0x07 || data[0] == 0x10 || data[0] == 0x08 || data[0] == 0x11,
        rx_event(s, data, now, ev),
    ensures
        data[0] == 0x07 ==> (data.len() >= 13 <==> ev is Some) && (ev matches Some(e) ==> e.event_type
            == EventType::ContactMsgRecv && (e.payload matches EventPayload::Message(m) && contact_msg_fields(
            data.skip(1),
            m,
        ))),
        data[0] == 0x10 ==> (data.len() >= 16 <==> ev is Some) && (ev matches Some(e) ==> e.event_type
            == EventType::ContactMsgRecv && (e.payload matches EventPayload::Message(m)
            && contact_msg_v3_fields(data.skip(1), m))),
        (data[0] == 0x08 || data[0] == 0x11) ==> (data.len() >= 14 <==> ev is Some) && (ev matches Some(e)
            ==> e.event_type == EventType::ChannelMsgRecv && (e.payload matches EventPayload::Message(m)
            && channel_msg_fields(data.skip(1), m))),
{
    lemma_codes_roundtrip();
    assert(packet_type_code(PacketType::ContactMsgRecv) == 0x07);
    assert(packet_type_code(PacketType::ContactMsgRecvV3) == 0x10);
    assert(packet_type_code(PacketType::ChannelMsgRecv) == 0x08);
    assert(packet_type_code(PacketType::ChannelMsgRecvV3) == 0x11);
}

/// Law: an advertisement push (`0x80`) carries the advertiser's prefix
/// (bytes 1-6), and when present its latitude (bytes 39-42) and longitude
/// (43-46), little-endian.
pub proof fn lemma_advertisement_packet(
    s: ReaderView,
    data: Seq<u8>,
    now: u64,
    prefix: Seq<u8>,
    lat: i32,
    lon: i32,
    ev: Option<Event>,
)
    requires
        data.len() >= 47,
        data[0] == 0x80,
        data.subrange(1, 7) == prefix,
        data.subrange(39, 43) == le32(lat as u32),
        data.subrange(43, 47) == le32(lon as u32),
        rx_event(s, data, now, ev),
    ensures
        ev matches Some(e) && e.event_type == EventType::Advertisement && (e.payload matches EventPayload::Advertisement(a)
            && a.prefix@ == prefix && a.lat == lat && a.lon == lon),
{
    lemma_codes_roundtrip();
    assert(packet_type_code(PacketType::Advertisement) == 0x80);
    let pl = data.skip(1);
    assert(pl.subrange(0, 6) =~= data.subrange(1, 7));
    assert(pl.subrange(38, 42) =~= data.subrange(39, 43));
    assert(pl.subrange(42, 46) =~= data.subrange(43, 47));
    lemma_u32_at(pl, 38, lat as u32);
    lemma_u32_at(pl, 42, lon as u32);
    assert((lat as u32) as i32 == lat) by (bit_vector);
    assert((lon as u32) as i32 == lon) by (bit_vector);
}


/// Law: a custom-variables text starting with the line `key=value` (the key
/// holding no `=`, neither holding a newline, the value not ending in a
/// carriage return) followed by a newline sets `key` to `value`, then reads
/// the rest; a last line without newline does the same and ends the text.
/// The value is everything after the first `=`.
pub proof fn lemma_vars_line(key: Seq<char>, value: Seq<char>, rest: Seq<char>, m: Map<Seq<char>, Seq<char>>)
    requires
        forall|i: int| 0 <= i < key.len() ==> #[trigger] key[i] != '=' && key[i] != '\n',
        forall|i: int| 0 <= i < value.len() ==> #[trigger] value[i] != '\n',
        !(value.len() > 0 && value.last() == '\r'),
    ensures
        vars_from(key + seq!['='] + value + seq!['\n'] + rest, m) == vars_from(rest, m.insert(key, value)),
        vars_from(key + seq!['='] + value, m) == m.insert(key, value),
{
    let line = key + seq!['='] + value;
    let k = key.len() as int;
    assert forall|i: int| 0 <= i < line.len() implies #[trigger] line[i] != '\n' by {
        if i < k {
            assert(line[i] == key[i]);
        } else if i > k {
            assert(line[i] == value[i - k - 1]);
        }
    }
    assert(is_char_pos(line, '=', k)) by {
        assert forall|i: int| 0 <= i < k implies line[i] != '=' by {
            assert(line[i] == key[i]);
        }
    }
    lemma_char_pos(line, '=', k);
    assert(line.take(k) =~= key);
    assert(line.skip(k + 1) =~= value);
    assert(apply_line(m, line) == m.insert(key, value));
    let n = line.len() as int;
    let t = line + seq!['\n'] + rest;
    assert(key + seq!['='] + value + seq!['\n'] + rest =~= t);
    assert(is_char_pos(t, '\n', n)) by {
        assert forall|i: int| 0 <= i < n implies t[i] != '\n' by {
            assert(t[i] == line[i]);
        }
    }
    lemma_char_pos(t, '\n', n);
    assert(t[n - 1] != '\r') by {
        assert(t[n - 1] == line[n - 1]);
        if value.len() > 0 {
            assert(line[n - 1] == value.last());
        } else {
            assert(line[n - 1] == '=');
        }
    }
    assert(line_end(t, n) == n);
    assert(t.take(n) =~= line);
    assert(t.skip(n + 1) =~= rest);
    assert(is_char_pos(line, '\n', n));
    lemma_char_pos(line, '\n', n);
    assert(line_end(line, n) == n);
    assert(line.take(n) =~= line);
}

/// Law: a line without `=` (and without newline) sets nothing.
pub proof fn lemma_vars_line_ignored(line: Seq<char>, rest: Seq<char>, m: Map<Seq<char>, Seq<char>>)
    requires
        forall|i: int| 0 <= i < line.len() ==> #[trigger] line[i] != '=' && line[i] != '\n',
        line.len() > 0 ==> line.last() != '\r',
    ensures
        vars_from(line + seq!['\n'] + rest, m) == vars_from(rest, m),
{
    let n = line.len() as int;
    let t = line + seq!['\n'] + rest;
    assert(is_char_pos(t, '\n', n)) by {
        assert forall|i: int| 0 <= i < n implies t[i] != '\n' by {
            assert(t[i] == line[i]);
        }
    }
    lemma_char_pos(t, '\n', n);
    if n > 0 {
        assert(t[n - 1] == line[n - 1]);
    }
    assert(line_end(t, n) == n);
    assert(t.take(n) =~= line);
    assert(t.skip(n + 1) =~= rest);
    assert(is_char_pos(line, '=', n));
    lemma_char_pos(line, '=', n);
}


/// Law: a received-packet record has a fixed layout: SNR in quarter dB
/// (byte 0), RSSI (byte 1), then the packet: its header byte packs the
/// route (bits 0-1), payload type (bits 2-5) and version (bits 6-7);
/// transport routes (codes 0 and 3) put a 4-byte transport code next; then
/// the path descriptor packs the hop count (bits 0-5) and the hash size
/// less one (bits 6-7), followed by the path and the payload.
pub proof fn lemma_log_data_layout(
    pl: Seq<u8>,
    route: u8,
    ptype: u8,
    version: u8,
    hops: u8,
    size: u8,
    d: LogData,
)
    requires
        route < 4,
        ptype < 16,
        version < 4,
        hops < 64,
        1 <= size <= 4,
        pl.len() >= 3,
        pl[2] == route + 4 * ptype + 64 * version,
        pl.len() > (if route == 0 || route == 3 { 7int } else { 3int }),
        pl[if route == 0 || route == 3 { 7int } else { 3int }] == hops + 64 * (size - 1),
        pl.len() >= (if route == 0 || route == 3 { 7int } else { 3int }) + 1 + hops * size,
        log_data_fields(pl, d),
    ensures
        d.snr_raw == pl[0] as i8,
        d.rssi == pl[1] as i8,
        d.header matches Some(h) && route_code(h.route_type) == route && h.payload_version == version && (
        ptype < 12 ==> payload_code(h.payload_type) == ptype) && (ptype >= 12 ==> h.payload_type
            == PayloadType::Unknown) && h.path_len == hops && h.path_hash_size == size && h.path@
            == pl.subrange(
            (if route == 0 || route == 3 { 7int } else { 3int }) + 1,
            (if route == 0 || route == 3 { 7int } else { 3int }) + 1 + hops * size,
        ) && ((route == 0 || route == 3) <==> h.transport_code is Some) && (h.transport_code matches Some(t)
            ==> t@ == pl.subrange(3, 7)),
        d.payload@ == pl.skip((if route == 0 || route == 3 { 7int } else { 3int }) + 1 + hops * size),
{
    let pkt = pl.skip(2);
    let hb = pl[2];
    assert(hb % 4 == route && (hb / 4) % 16 == ptype && hb / 64 == version) by (bit_vector)
        requires
            route < 4,
            ptype < 16,
            version < 4,
            hb == route + 4 * ptype + 64 * version,
    ;
    let p = if route == 0 || route == 3 { 7int } else { 3int };
    let db = pl[p];
    assert(db % 64 == hops && db / 64 + 1 == size) by (bit_vector)
        requires
            hops < 64,
            1 <= size <= 4,
            db == hops + 64 * (size - 1),
    ;
    assert(pkt[0] == hb);
    assert(path_desc_pos(pkt) == p - 2);
    assert(pkt[p - 2] == db);
    assert(path_bytes(db) == hops * size);
    assert(header_complete(pkt));
    assert(pkt.subrange(p - 1, p - 1 + hops * size) =~= pl.subrange(p + 1, p + 1 + hops * size));
    if route == 0 || route == 3 {
        assert(pkt.subrange(1, 5) =~= pl.subrange(3, 7));
    }
    assert(pkt.skip(payload_pos(pkt)) =~= pl.skip(p + 1 + hops * size));
}


/// Law: the device records are read at fixed places of their packets:
/// self-info (`0x05`) from byte 1, a new contact advert (`0x8A`) as a
/// contact record from byte 1, a status response (`0x87`) as the sender's
/// 6-byte prefix then a status record from byte 7, channel info (`0x12`)
/// as index (byte 1), 16-byte name field and 16-byte secret, and the
/// private key (`0x0E`) as the 64 bytes from byte 1.
pub proof fn lemma_record_packets(s: ReaderView, data: Seq<u8>, now: u64, ev: Option<Event>)
    requires
        data.len() >= 1,
        rx_event(s, data, now, ev),
    ensures
        data[0] == 0x05 && data.len() >= 58 ==> (ev matches Some(e) && e.event_type == EventType::SelfInfo && (
        e.payload matches EventPayload::SelfInfo(i) && self_info_fields(data.skip(1), i))),
        data[0] == 0x8A && data.len() >= 146 ==> (ev matches Some(e) && e.event_type == EventType::NewContact
            && (e.payload matches EventPayload::Contact(c) && c@ == contact_spec(data.skip(1)))),
        data[0] == 0x87 && data.len() >= 59 ==> (ev matches Some(e) && e.event_type
            == EventType::StatusResponse && (e.payload matches EventPayload::Status(st) && status_fields(
            data.skip(7),
            data.subrange(1, 7),
            st,
        ))),
        data[0] == 0x12 && data.len() >= 34 ==> (ev matches Some(e) && e.event_type == EventType::ChannelInfo
            && (e.payload matches EventPayload::ChannelInfo(c) && c.channel_idx == data[1] && c.name@
            == read_string_spec(data, 2, 16) && c.secret@ == data.subrange(18, 34))),
        data[0] == 0x0E && data.len() >= 65 ==> (ev matches Some(e) && e.event_type == EventType::PrivateKey
            && (e.payload matches EventPayload::PrivateKey(k) && k@ == data.subrange(1, 65))),
{
    lemma_codes_roundtrip();
    assert(packet_type_code(PacketType::SelfInfo) == 0x05);
    assert(packet_type_code(PacketType::PushCodeNewAdvert) == 0x8A);
    assert(packet_type_code(PacketType::StatusResponse) == 0x87);
    assert(packet_type_code(PacketType::ChannelInfo) == 0x12);
    assert(packet_type_code(PacketType::PrivateKey) == 0x0E);
    let pl = data.skip(1);
    if data.len() >= 59 {
        assert(pl.skip(6) =~= data.skip(7));
        assert(pl.subrange(0, 6) =~= data.subrange(1, 7));
    }
    if data.len() >= 34 {
        assert(pl.subrange(17, 33) =~= data.subrange(18, 34));
        assert(pl.subrange(1, 17) =~= data.subrange(2, 18));
    }
    if data.len() >= 65 {
        assert(pl.take(64) =~= data.subrange(1, 65));
    }
}

/// Law: the short push notifications are read at fixed places: a path
/// update (`0x81`) as the contact's 6-byte prefix, the signed path length
/// (byte 7) and the path; an acknowledgement (`0x82`) and a telemetry
/// response (`0x8B`) as their 4-byte tag (bytes 1-4), the telemetry data
/// following it; each of the last two is tagged with the tag in hex.
pub proof fn lemma_push_packets(s: ReaderView, data: Seq<u8>, now: u64, ev: Option<Event>)
    requires
        data.len() >= 1,
        rx_event(s, data, now, ev),
    ensures
        data[0] == 0x81 && data.len() >= 8 ==> (ev matches Some(e) && e.event_type == EventType::PathUpdate
            && (e.payload matches EventPayload::PathUpdate(p) && p.prefix@ == data.subrange(1, 7)
            && p.path_len == data[7] as i8 && p.path@ == data.skip(8))),
        data[0] == 0x82 && data.len() >= 5 ==> (ev matches Some(e) && e.event_type == EventType::Ack
            && single_attr(e.attributes@, "tag"@, hex_spec(data.subrange(1, 5))) && (
        e.payload matches EventPayload::Ack { tag } && tag@ == data.subrange(1, 5))),
        data[0] == 0x8B && data.len() >= 5 ==> (ev matches Some(e) && e.event_type
            == EventType::TelemetryResponse && single_attr(e.attributes@, "tag"@, hex_spec(data.subrange(1, 5)))
            && (e.payload matches EventPayload::Telemetry(v) && v@ == data.skip(5))),
{
    lemma_codes_roundtrip();
    assert(packet_type_code(PacketType::PathUpdate) == 0x81);
    assert(packet_type_code(PacketType::Ack) == 0x82);
    assert(packet_type_code(PacketType::TelemetryResponse) == 0x8B);
    let pl = data.skip(1);
    if data.len() >= 8 {
        assert(pl.subrange(0, 6) =~= data.subrange(1, 7));
        assert(pl.skip(7) =~= data.skip(8));
    }
    if data.len() >= 5 {
        assert(pl.subrange(0, 4) =~= data.subrange(1, 5));
        assert(pl.skip(4) =~= data.skip(5));
    }
}

} // verus!
