//! What a client remembers of its device: the contact table keyed by
//! public key, the self-info, the device time, and whether the contact
//! table must be fetched again.
use vstd::prelude::*;
use vstd::string::StringSliceAdditionalSpecFns;
use vstd::utf8::encode_utf8;
use crate::events::{Contact, ContactView, Event, EventPayload, EventType, SelfInfo};

verus! {

/// ASCII lower case of a byte; other bytes are kept.
pub open spec fn ascii_lower(b: u8) -> u8 {
    if 65 <= b <= 90 {
        (b + 32) as u8
    } else {
        b
    }
}

/// `eq_ignore_ascii_case` on byte strings: same length, and equal bytes
/// after ASCII lower-casing.
pub open spec fn eq_ignore_ascii_case_spec(a: Seq<u8>, b: Seq<u8>) -> bool {
    a.len() == b.len() && forall|i: int| 0 <= i < a.len() ==> ascii_lower(#[trigger] a[i]) == ascii_lower(b[i])
}

/// `starts_with` on byte strings.
pub open spec fn starts_with_spec(s: Seq<u8>, prefix: Seq<u8>) -> bool {
    prefix.len() <= s.len() && s.take(prefix.len() as int) == prefix
}

fn ascii_lower_exec(b: u8) -> (r: u8)
    ensures
        r == ascii_lower(b),
{
    if 65 <= b && b <= 90 {
        b + 32
    } else {
        b
    }
}

/// Two byte strings that are equal up to ASCII case.
pub fn eq_ignore_ascii_case(a: &[u8], b: &[u8]) -> (r: bool)
    ensures
        r == eq_ignore_ascii_case_spec(a@, b@),
{
    if a.len() != b.len() {
        return false;
    }
    let mut i: usize = 0;
    while i < a.len()
        invariant
            a@.len() == b@.len(),
            0 <= i <= a@.len(),
            forall|k: int| 0 <= k < i ==> ascii_lower(#[trigger] a@[k]) == ascii_lower(b@[k]),
        decreases a@.len() - i,
    {
        if ascii_lower_exec(a[i]) != ascii_lower_exec(b[i]) {
            return false;
        }
        i = i + 1;
    }
    true
}

/// Whether `s` begins with `prefix`.
pub fn starts_with(s: &[u8], prefix: &[u8]) -> (r: bool)
    ensures
        r == starts_with_spec(s@, prefix@),
{
    if prefix.len() > s.len() {
        return false;
    }
    let mut i: usize = 0;
    while i < prefix.len()
        invariant
            prefix@.len() <= s@.len(),
            0 <= i <= prefix@.len(),
            forall|k: int| 0 <= k < i ==> s@[k] == prefix@[k],
        decreases prefix@.len() - i,
    {
        if s[i] != prefix[i] {
            assert(s@.take(prefix@.len() as int)[i as int] != prefix@[i as int]);
            return false;
        }
        i = i + 1;
    }
    assert(s@.take(prefix@.len() as int) =~= prefix@);
    true
}

/// The contact table that inserting these contacts one after another into
/// an empty table gives: one entry per public key, the last one written
/// for a key winning.
pub open spec fn contacts_map(s: Seq<Contact>) -> Map<Seq<u8>, ContactView>
    decreases s.len(),
{
    if s.len() == 0 {
        Map::empty()
    } else {
        contacts_map(s.drop_last()).insert(s.last().public_key@, s.last()@)
    }
}

/// No two entries share a public key.
pub open spec fn keys_distinct(s: Seq<Contact>) -> bool {
    forall|i: int, j: int|
        0 <= i < s.len() && 0 <= j < s.len() && i != j ==> #[trigger] s[i].public_key@ != #[trigger] s[j].public_key@
}

/// Whether some entry has this public key.
pub open spec fn has_key(s: Seq<Contact>, k: Seq<u8>) -> bool {
    exists|i: int| 0 <= i < s.len() && #[trigger] s[i].public_key@ == k
}

/// The table the entries stand for: each key present maps to its entry.
pub open spec fn table(s: Seq<Contact>) -> Map<Seq<u8>, ContactView> {
    Map::new(
        |k: Seq<u8>| has_key(s, k),
        |k: Seq<u8>| s[choose|i: int| 0 <= i < s.len() && #[trigger] s[i].public_key@ == k]@,
    )
}

proof fn lemma_table_at(s: Seq<Contact>, i: int)
    requires
        keys_distinct(s),
        0 <= i < s.len(),
    ensures
        table(s).dom().contains(s[i].public_key@),
        table(s)[s[i].public_key@] == s[i]@,
{
    let k = s[i].public_key@;
    assert(has_key(s, k));
    let j = choose|j: int| 0 <= j < s.len() && #[trigger] s[j].public_key@ == k;
    assert(j == i);
}

proof fn lemma_table_update(s: Seq<Contact>, j: int, c: Contact)
    requires
        keys_distinct(s),
        0 <= j < s.len(),
        s[j].public_key@ == c.public_key@,
    ensures
        keys_distinct(s.update(j, c)),
        table(s.update(j, c)) == table(s).insert(c.public_key@, c@),
{
    let t = s.update(j, c);
    assert forall|i: int, l: int|
        0 <= i < t.len() && 0 <= l < t.len() && i != l implies #[trigger] t[i].public_key@
        != #[trigger] t[l].public_key@ by {
        assert(s[i].public_key@ != s[l].public_key@);
    }
    assert forall|k: Seq<u8>| has_key(t, k) <==> has_key(s, k) by {
        if has_key(t, k) {
            let i = choose|i: int| 0 <= i < t.len() && #[trigger] t[i].public_key@ == k;
            assert(s[i].public_key@ == k);
        }
        if has_key(s, k) {
            let i = choose|i: int| 0 <= i < s.len() && #[trigger] s[i].public_key@ == k;
            assert(t[i].public_key@ == k);
        }
    }
    assert forall|k: Seq<u8>| #[trigger] table(t).dom().contains(k) implies table(t)[k] == table(s).insert(
        c.public_key@,
        c@,
    )[k] by {
        let i = choose|i: int| 0 <= i < t.len() && #[trigger] t[i].public_key@ == k;
        lemma_table_at(t, i);
        if i != j {
            lemma_table_at(s, i);
        }
    }
    assert(table(t).dom() =~= table(s).insert(c.public_key@, c@).dom());
    assert(table(t) =~= table(s).insert(c.public_key@, c@));
}

proof fn lemma_table_push(s: Seq<Contact>, c: Contact)
    requires
        keys_distinct(s),
        !has_key(s, c.public_key@),
    ensures
        keys_distinct(s.push(c)),
        table(s.push(c)) == table(s).insert(c.public_key@, c@),
{
    let t = s.push(c);
    assert forall|i: int, l: int|
        0 <= i < t.len() && 0 <= l < t.len() && i != l implies #[trigger] t[i].public_key@
        != #[trigger] t[l].public_key@ by {
        if i < s.len() && l < s.len() {
            assert(s[i].public_key@ != s[l].public_key@);
        } else if i < s.len() {
            assert(t[i] == s[i]);
        } else {
            assert(t[l] == s[l]);
        }
    }
    assert forall|k: Seq<u8>| has_key(t, k) <==> (has_key(s, k) || k == c.public_key@) by {
        if has_key(t, k) {
            let i = choose|i: int| 0 <= i < t.len() && #[trigger] t[i].public_key@ == k;
            if i < s.len() {
                assert(s[i].public_key@ == k);
            }
        }
        if has_key(s, k) {
            let i = choose|i: int| 0 <= i < s.len() && #[trigger] s[i].public_key@ == k;
            assert(t[i].public_key@ == k);
        }
        if k == c.public_key@ {
            assert(t[s.len() as int].public_key@ == k);
        }
    }
    assert forall|k: Seq<u8>| #[trigger] table(t).dom().contains(k) implies table(t)[k] == table(s).insert(
        c.public_key@,
        c@,
    )[k] by {
        let i = choose|i: int| 0 <= i < t.len() && #[trigger] t[i].public_key@ == k;
        lemma_table_at(t, i);
        if i < s.len() {
            assert(t[i] == s[i]);
            lemma_table_at(s, i);
        }
    }
    assert(table(t).dom() =~= table(s).insert(c.public_key@, c@).dom());
    assert(table(t) =~= table(s).insert(c.public_key@, c@));
}

/// The record after an event (see `ClientCache::on_event`).
pub open spec fn cache_after(c: CacheView, event: Event) -> CacheView {
    match (event.event_type, event.payload) {
        (EventType::Contacts, EventPayload::Contacts(list)) => CacheView {
            contacts: contacts_map(list@),
            contacts_dirty: false,
            ..c
        },
        (EventType::SelfInfo, EventPayload::SelfInfo(info)) => CacheView { self_info: Some(info), ..c },
        (EventType::CurrentTime, EventPayload::Time(t)) => CacheView { device_time: Some(t), ..c },
        (EventType::NewContact, EventPayload::Contact(ct)) => CacheView {
            contacts: c.contacts.insert(ct.public_key@, ct@),
            ..c
        },
        _ => c,
    }
}

/// Law: the table a contact list gives holds exactly the keys of the
/// list, each mapped to the last contact in the list with that key.
pub proof fn lemma_contacts_map(s: Seq<Contact>, k: Seq<u8>)
    ensures
        contacts_map(s).dom().contains(k) <==> has_key(s, k),
        has_key(s, k) ==> exists|i: int|
            0 <= i < s.len() && #[trigger] s[i].public_key@ == k && contacts_map(s)[k] == s[i]@ && forall|j: int|
                i < j < s.len() ==> #[trigger] s[j].public_key@ != k,
    decreases s.len(),
{
    if s.len() > 0 {
        let init = s.drop_last();
        lemma_contacts_map(init, k);
        let n = s.len() - 1;
        if s.last().public_key@ == k {
            assert(s[n].public_key@ == k);
        } else {
            if has_key(init, k) {
                let i = choose|i: int|
                    0 <= i < init.len() && #[trigger] init[i].public_key@ == k && contacts_map(init)[k] == init[i]@
                        && forall|j: int| i < j < init.len() ==> #[trigger] init[j].public_key@ != k;
                assert(s[i] == init[i]);
                assert forall|j: int| i < j < s.len() implies #[trigger] s[j].public_key@ != k by {
                    if j < n {
                        assert(s[j] == init[j]);
                    }
                }
            }
            assert(has_key(s, k) ==> has_key(init, k)) by {
                if has_key(s, k) {
                    let i = choose|i: int| 0 <= i < s.len() && #[trigger] s[i].public_key@ == k;
                    assert(init[i] == s[i]);
                }
            }
            assert(has_key(init, k) ==> has_key(s, k)) by {
                if has_key(init, k) {
                    let i = choose|i: int| 0 <= i < init.len() && #[trigger] init[i].public_key@ == k;
                    assert(init[i] == s[i]);
                }
            }
        }
    }
}

/// Law: a `NewContact` event stores its contact under the contact's public
/// key, replacing whatever was stored there before, and leaves every other
/// key, the self-info, the device time and the dirty flag as they were.
pub proof fn lemma_new_contact_stored(c: CacheView, event: Event, ct: Contact)
    requires
        event.event_type == EventType::NewContact,
        event.payload == EventPayload::Contact(ct),
    ensures
        cache_after(c, event).contacts.dom().contains(ct.public_key@),
        cache_after(c, event).contacts[ct.public_key@] == ct@,
        forall|k: Seq<u8>| k != ct.public_key@ ==> (#[trigger] cache_after(c, event).contacts.dom().contains(k)
            <==> c.contacts.dom().contains(k)),
        forall|k: Seq<u8>| k != ct.public_key@ && c.contacts.dom().contains(k) ==> #[trigger] cache_after(
            c,
            event,
        ).contacts[k] == c.contacts[k],
        cache_after(c, event).contacts_dirty == c.contacts_dirty,
        cache_after(c, event).self_info == c.self_info,
        cache_after(c, event).device_time == c.device_time,
{
}

/// Law: name comparison is equality of the whole names after mapping the
/// letters `A`-`Z` to `a`-`z`: the names have the same length and agree
/// byte for byte so mapped. In particular it is reflexive and symmetric,
/// and a name never equals a strict prefix of itself.
pub proof fn lemma_eq_ignore_ascii_case(a: Seq<u8>, b: Seq<u8>)
    ensures
        eq_ignore_ascii_case_spec(a, b) <==> (a.len() == b.len() && forall|i: int|
            0 <= i < a.len() ==> (if 65 <= #[trigger] a[i] <= 90 {
                a[i] + 32
            } else {
                a[i] as int
            }) == (if 65 <= b[i] <= 90 {
                b[i] + 32
            } else {
                b[i] as int
            })),
        eq_ignore_ascii_case_spec(a, b) ==> a.len() == b.len(),
        eq_ignore_ascii_case_spec(a, a),
        eq_ignore_ascii_case_spec(a, b) ==> eq_ignore_ascii_case_spec(b, a),
{
    if eq_ignore_ascii_case_spec(a, b) {
        assert forall|i: int| 0 <= i < b.len() implies ascii_lower(#[trigger] b[i]) == ascii_lower(a[i]) by {
            assert(ascii_lower(a[i]) == ascii_lower(b[i]));
        }
    }
}

/// Law: a key begins with a prefix exactly when the prefix is no longer
/// than the key and each of its bytes equals the key's byte at the same
/// position; the empty prefix begins every key, and a key begins with
/// itself.
pub proof fn lemma_starts_with(s: Seq<u8>, p: Seq<u8>)
    ensures
        starts_with_spec(s, p) <==> (p.len() <= s.len() && forall|i: int| 0 <= i < p.len() ==> #[trigger] s[i] == p[i]),
        starts_with_spec(s, Seq::<u8>::empty()),
        starts_with_spec(s, s),
{
    if p.len() <= s.len() && forall|i: int| 0 <= i < p.len() ==> #[trigger] s[i] == p[i] {
        assert(s.take(p.len() as int) =~= p);
    }
    if starts_with_spec(s, p) {
        assert forall|i: int| 0 <= i < p.len() implies #[trigger] s[i] == p[i] by {
            assert(s.take(p.len() as int)[i] == s[i]);
        }
    }
    assert(s.take(0) =~= Seq::<u8>::empty());
    assert(s.take(s.len() as int) =~= s);
}

/// The client's record of its device.
pub struct ClientCache {
    contacts: Vec<Contact>,
    dirty: bool,
    self_info: Option<SelfInfo>,
    device_time: Option<u32>,
}

/// The abstract state of a `ClientCache`.
pub struct CacheView {
    /// The contact table, keyed by public key.
    pub contacts: Map<Seq<u8>, ContactView>,
    /// Whether the contact table must be fetched again.
    pub contacts_dirty: bool,
    /// The last self-info the device sent.
    pub self_info: Option<SelfInfo>,
    /// The last device time the device sent.
    pub device_time: Option<u32>,
}

impl View for ClientCache {
    type V = CacheView;

    closed spec fn view(&self) -> CacheView {
        CacheView {
            contacts: table(self.contacts@),
            contacts_dirty: self.dirty,
            self_info: self.self_info,
            device_time: self.device_time,
        }
    }
}

impl ClientCache {
    /// The invariant: one entry per public key.
    pub closed spec fn wf(&self) -> bool {
        keys_distinct(self.contacts@)
    }

    /// An empty record, whose contact table still has to be fetched.
    pub fn new() -> (c: ClientCache)
        ensures
            c.wf(),
            c@.contacts == Map::<Seq<u8>, ContactView>::empty(),
            c@.contacts_dirty,
            c@.self_info is None,
            c@.device_time is None,
    {
        let c = ClientCache { contacts: Vec::new(), dirty: true, self_info: None, device_time: None };
        assert(table(c.contacts@) =~= Map::<Seq<u8>, ContactView>::empty());
        c
    }

    /// Check if the contact cache is dirty
    pub fn contacts_dirty(&self) -> (r: bool)
        ensures
            r == self@.contacts_dirty,
    {
        self.dirty
    }

    /// Get cached self-info
    pub fn self_info(&self) -> (r: &Option<SelfInfo>)
        ensures
            *r == self@.self_info,
    {
        &self.self_info
    }

    /// Get cached device time
    pub fn device_time(&self) -> (r: Option<u32>)
        ensures
            r == self@.device_time,
    {
        self.device_time
    }

    /// The cached contacts, one per public key, in no promised order.
    pub fn contacts(&self) -> (r: &[Contact])
        requires
            self.wf(),
        ensures
            keys_distinct(r@),
            table(r@) == self@.contacts,
            r@.len() == self@.contacts.len(),
    {
        proof {
            self.lemma_len();
        }
        self.contacts.as_slice()
    }

    proof fn lemma_len(&self)
        requires
            self.wf(),
        ensures
            self@.contacts.len() == self.contacts@.len(),
            self@.contacts.dom().finite(),
    {
        let s = self.contacts@;
        let keys = Seq::new(s.len(), |i: int| s[i].public_key@);
        assert(keys.no_duplicates()) by {
            assert forall|i: int, j: int| 0 <= i < keys.len() && 0 <= j < keys.len() && i != j implies keys[i]
                != keys[j] by {
                assert(s[i].public_key@ != s[j].public_key@);
            }
        }
        assert(table(s).dom() =~= keys.to_set()) by {
            assert forall|k: Seq<u8>| table(s).dom().contains(k) <==> keys.to_set().contains(k) by {
                if table(s).dom().contains(k) {
                    let i = choose|i: int| 0 <= i < s.len() && #[trigger] s[i].public_key@ == k;
                    assert(keys[i] == k);
                }
                if keys.to_set().contains(k) {
                    let i = choose|i: int| 0 <= i < keys.len() && keys[i] == k;
                    assert(s[i].public_key@ == k);
                }
            }
        }
        keys.unique_seq_to_set();
    }

    /// Stores a contact under its public key, replacing the entry there.
    pub fn insert_contact(&mut self, contact: Contact)
        requires
            old(self).wf(),
        ensures
            final(self).wf(),
            final(self)@ == (CacheView {
                contacts: old(self)@.contacts.insert(contact.public_key@, contact@),
                ..old(self)@
            }),
    {
        let mut i: usize = 0;
        while i < self.contacts.len()
            invariant
                0 <= i <= self.contacts@.len(),
                *self == *old(self),
                self.wf(),
                forall|k: int| 0 <= k < i ==> #[trigger] self.contacts@[k].public_key@ != contact.public_key@,
            decreases self.contacts@.len() - i,
        {
            if starts_with(self.contacts[i].public_key.as_slice(), contact.public_key.as_slice()) {
                proof {
                    assert(self.contacts@[i as int].public_key@.take(32) =~= self.contacts@[i as int].public_key@);
                    lemma_table_update(self.contacts@, i as int, contact);
                }
                self.contacts.set(i, contact);
                return;
            }
            proof {
                assert(contact.public_key@.len() == 32);
                assert(self.contacts@[i as int].public_key@.take(32) =~= self.contacts@[i as int].public_key@);
            }
            i = i + 1;
        }
        proof {
            if has_key(self.contacts@, contact.public_key@) {
                let k = choose|k: int| 0 <= k < self.contacts@.len() && #[trigger] self.contacts@[k].public_key@
                    == contact.public_key@;
                assert(self.contacts@[k].public_key@ != contact.public_key@);
            }
            lemma_table_push(self.contacts@, contact);
        }
        self.contacts.push(contact);
    }

    /// Get contact by name: a cached contact whose name equals `name` up
    /// to ASCII case, `None` when there is none. Which of several is
    /// returned is not promised.
    pub fn get_contact_by_name(&self, name: &str) -> (r: Option<&Contact>)
        requires
            self.wf(),
        ensures
            r matches Some(c) ==> self@.contacts.dom().contains(c.public_key@) && self@.contacts[c.public_key@]
                == c@ && eq_ignore_ascii_case_spec(encode_utf8(c.adv_name@), name.spec_bytes()),
            r is None ==> forall|k: Seq<u8>| #[trigger] self@.contacts.dom().contains(k) ==> !eq_ignore_ascii_case_spec(
                encode_utf8(self@.contacts[k].adv_name),
                name.spec_bytes(),
            ),
    {
        let mut i: usize = 0;
        while i < self.contacts.len()
            invariant
                0 <= i <= self.contacts@.len(),
                self.wf(),
                forall|k: int| 0 <= k < i ==> !eq_ignore_ascii_case_spec(
                    encode_utf8(#[trigger] self.contacts@[k].adv_name@),
                    name.spec_bytes(),
                ),
            decreases self.contacts@.len() - i,
        {
            if eq_ignore_ascii_case(self.contacts[i].adv_name.as_str().as_bytes(), name.as_bytes()) {
                proof {
                    lemma_table_at(self.contacts@, i as int);
                }
                return Some(&self.contacts[i]);
            }
            i = i + 1;
        }
        proof {
            assert forall|k: Seq<u8>| #[trigger] self@.contacts.dom().contains(k) implies !eq_ignore_ascii_case_spec(
                encode_utf8(self@.contacts[k].adv_name),
                name.spec_bytes(),
            ) by {
                let j = choose|j: int| 0 <= j < self.contacts@.len() && #[trigger] self.contacts@[j].public_key@ == k;
                lemma_table_at(self.contacts@, j);
            }
        }
        None
    }

    /// Get contact by public key prefix: a cached contact whose key begins
    /// with `prefix` (an empty prefix matches any), `None` when there is
    /// none. Which of several is returned is not promised.
    pub fn get_contact_by_prefix(&self, prefix: &[u8]) -> (r: Option<&Contact>)
        requires
            self.wf(),
        ensures
            r matches Some(c) ==> self@.contacts.dom().contains(c.public_key@) && self@.contacts[c.public_key@]
                == c@ && starts_with_spec(c.public_key@, prefix@),
            r is None ==> forall|k: Seq<u8>| #[trigger] self@.contacts.dom().contains(k) ==> !starts_with_spec(
                k,
                prefix@,
            ),
    {
        let mut i: usize = 0;
        while i < self.contacts.len()
            invariant
                0 <= i <= self.contacts@.len(),
                self.wf(),
                forall|k: int| 0 <= k < i ==> !starts_with_spec(#[trigger] self.contacts@[k].public_key@, prefix@),
            decreases self.contacts@.len() - i,
        {
            if starts_with(self.contacts[i].public_key.as_slice(), prefix) {
                proof {
                    lemma_table_at(self.contacts@, i as int);
                }
                return Some(&self.contacts[i]);
            }
            i = i + 1;
        }
        proof {
            assert forall|k: Seq<u8>| #[trigger] self@.contacts.dom().contains(k) implies !starts_with_spec(
                k,
                prefix@,
            ) by {
                let j = choose|j: int| 0 <= j < self.contacts@.len() && #[trigger] self.contacts@[j].public_key@ == k;
            }
        }
        None
    }

    /// What the record keeps of an event: a contact list replaces the
    /// table and marks it fresh, a new contact is stored, and the
    /// self-info and device time are remembered. Any other event, or an
    /// event whose payload is not the one its type carries, changes
    /// nothing.
    pub fn on_event(&mut self, event: Event)
        requires
            old(self).wf(),
        ensures
            final(self).wf(),
            final(self)@ == cache_after(old(self)@, event),
    {
        match event.event_type {
            EventType::Contacts => {
                if let EventPayload::Contacts(list) = event.payload {
                    self.replace_contacts(list);
                }
            },
            EventType::SelfInfo => {
                if let EventPayload::SelfInfo(info) = event.payload {
                    self.self_info = Some(info);
                }
            },
            EventType::CurrentTime => {
                if let EventPayload::Time(t) = event.payload {
                    self.device_time = Some(t);
                }
            },
            EventType::NewContact => {
                if let EventPayload::Contact(c) = event.payload {
                    self.insert_contact(c);
                }
            },
            _ => {},
        }
    }

    /// Replaces the contact table with these contacts, inserted in order
    /// (the last of several with one key wins), and marks it fresh.
    pub fn replace_contacts(&mut self, contacts: Vec<Contact>)
        requires
            old(self).wf(),
        ensures
            final(self).wf(),
            final(self)@ == (CacheView {
                contacts: contacts_map(contacts@),
                contacts_dirty: false,
                ..old(self)@
            }),
    {
        self.contacts = Vec::new();
        let ghost all = contacts@;
        assert(table(self.contacts@) =~= contacts_map(all.take(0)));
        assert(all.skip(0) =~= all);
        let mut rest = contacts;
        let n = rest.len();
        let mut i: usize = 0;
        while i < n
            invariant
                n == all.len(),
                0 <= i <= n,
                self.wf(),
                table(self.contacts@) == contacts_map(all.take(i as int)),
                self.self_info == old(self).self_info,
                self.device_time == old(self).device_time,
                rest@ == all.skip(i as int),
            decreases n - i,
        {
            let c = rest.remove(0);
            proof {
                assert(c == all[i as int]);
                assert(all.take(i + 1).drop_last() =~= all.take(i as int));
                assert(all.take(i + 1).last() == c);
                assert(rest@ =~= all.skip(i + 1));
            }
            self.insert_contact(c);
            i = i + 1;
        }
        self.dirty = false;
        assert(all.take(n as int) =~= all);
    }
}

} // verus!
