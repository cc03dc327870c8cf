//! Frame codec for the serial/TCP link: `[START][LEN_L][LEN_H][PAYLOAD]`.
use vstd::prelude::*;
use bytes::{Buf, BytesMut};
use crate::packets::{FRAME_START, FRAME_START_RESP};
use vstd::string::StringSliceAdditionalSpecFns;

verus! {

/// The frame that carries `data`: the start byte, the payload length as a
/// little-endian 16-bit number (taken modulo 65536), then the payload.
pub open spec fn frame_spec(data: Seq<u8>) -> Seq<u8> {
    seq![FRAME_START, (data.len() % 256) as u8, ((data.len() / 256) % 256) as u8] + data
}

/// Frame a packet for transmission
///
/// Format: `[START: 0x3c][LENGTH_L][LENGTH_H][PAYLOAD]`
pub fn frame_packet(data: &[u8]) -> (framed: Vec<u8>)
    ensures
        framed@ == frame_spec(data@),
{
    let frame_size = match data.len().checked_add(3) {
        Some(n) => n,
        None => 0,
    };
    let mut framed: Vec<u8> = Vec::with_capacity(frame_size);
    let n = data.len();
    let len: u16 = (n % 65536) as u16;
    let lo: u8 = (len & 0xFF) as u8;
    let hi: u8 = (len >> 8) as u8;
    assert(lo == len % 256 && hi == len / 256) by (bit_vector)
        requires
            lo == (len & 0xFF) as u8,
            hi == (len >> 8) as u8,
    ;
    proof {
        lemma_split_len(n as int);
    }
    framed.push(FRAME_START);
    framed.push(lo);
    framed.push(hi);
    framed.extend_from_slice(data);
    assert(framed@ =~= frame_spec(data@));
    framed
}

/// The two length bytes of a frame, read from the length modulo 65536.
proof fn lemma_split_len(n: int)
    requires
        n >= 0,
    ensures
        (n % 65536) % 256 == n % 256,
        (n % 65536) / 256 == (n / 256) % 256,
{
    vstd::arithmetic::div_mod::lemma_mod_mod(n, 256, 256);
    vstd::arithmetic::div_mod::lemma_breakdown(n, 256, 256);
    assert((n % 65536) / 256 == (n / 256) % 256) by (nonlinear_arith)
        requires
            n >= 0,
            n % 65536 == 256 * ((n / 256) % 256) + n % 256,
    {
    }
}

/// Whether a byte opens a frame (either direction's start marker).
pub open spec fn is_frame_start(b: u8) -> bool {
    b == FRAME_START || b == FRAME_START_RESP
}

/// The payload length announced by a frame header at the front of `buf`.
pub open spec fn header_len(buf: Seq<u8>) -> int
    recommends
        buf.len() >= 3,
{
    buf[1] as int + 256 * (buf[2] as int)
}

/// Splits a byte stream into the frames it holds and the bytes left over.
/// Bytes that cannot open a frame are skipped; decoding stops at a header
/// whose payload has not fully arrived, or when fewer than three bytes are
/// left.
pub open spec fn decode_frames(buf: Seq<u8>) -> (Seq<Seq<u8>>, Seq<u8>)
    decreases buf.len(),
{
    if buf.len() < 3 {
        (Seq::empty(), buf)
    } else if !is_frame_start(buf[0]) {
        decode_frames(buf.drop_first())
    } else if buf.len() < 3 + header_len(buf) {
        (Seq::empty(), buf)
    } else {
        let rest = decode_frames(buf.skip(3 + header_len(buf)));
        (seq![buf.subrange(3, 3 + header_len(buf))] + rest.0, rest.1)
    }
}

/// What is left over after decoding is short: under three bytes, or a header
/// whose payload is still incomplete.
pub proof fn lemma_decode_rest_bounded(buf: Seq<u8>)
    ensures
        decode_frames(buf).1.len() <= 65537,
    decreases buf.len(),
{
    if buf.len() < 3 {
    } else if !is_frame_start(buf[0]) {
        lemma_decode_rest_bounded(buf.drop_first());
    } else if buf.len() < 3 + header_len(buf) {
        assert(header_len(buf) <= 65535);
    } else {
        lemma_decode_rest_bounded(buf.skip(3 + header_len(buf)));
    }
}

/// Law: a framed payload decodes back to exactly that payload, whatever
/// follows it in the stream.
pub proof fn lemma_decode_frame_prefix(data: Seq<u8>, rest: Seq<u8>)
    requires
        data.len() < 65536,
    ensures
        decode_frames(frame_spec(data) + rest) == (
            seq![data] + decode_frames(rest).0,
            decode_frames(rest).1,
        ),
{
    let buf = frame_spec(data) + rest;
    assert((data.len() % 256) as u8 as int + 256 * (((data.len() / 256) % 256) as u8 as int)
        == data.len());
    assert(header_len(buf) == data.len());
    assert(buf.subrange(3, 3 + data.len() as int) =~= data);
    assert(buf.skip(3 + data.len() as int) =~= rest);
}

/// Law: framing a payload shorter than 65536 bytes and decoding the frame
/// gives the payload back, with nothing left over.
pub proof fn lemma_frame_roundtrip(data: Seq<u8>)
    requires
        data.len() < 65536,
    ensures
        decode_frames(frame_spec(data)) == (seq![data], Seq::<u8>::empty()),
{
    lemma_decode_frame_prefix(data, Seq::empty());
    assert(frame_spec(data) + Seq::<u8>::empty() =~= frame_spec(data));
    assert(decode_frames(Seq::<u8>::empty()).0 =~= Seq::<Seq<u8>>::empty());
    assert(seq![data] + Seq::<Seq<u8>>::empty() =~= seq![data]);
}

/// Law: decoding does not depend on how the stream was cut into chunks. The
/// frames of `a + b` are the frames found in `a`, then those found in what
/// `a` left over followed by `b`.
pub proof fn lemma_decode_chunked(a: Seq<u8>, b: Seq<u8>)
    ensures
        decode_frames(a + b) == (
            decode_frames(a).0 + decode_frames(decode_frames(a).1 + b).0,
            decode_frames(decode_frames(a).1 + b).1,
        ),
    decreases a.len(),
{
    let ab = a + b;
    if a.len() < 3 {
        assert(decode_frames(a).0 =~= Seq::<Seq<u8>>::empty());
        assert(decode_frames(a).1 =~= a);
        assert(Seq::<Seq<u8>>::empty() + decode_frames(a + b).0 =~= decode_frames(a + b).0);
    } else if !is_frame_start(a[0]) {
        assert(ab.drop_first() =~= a.drop_first() + b);
        lemma_decode_chunked(a.drop_first(), b);
    } else if a.len() < 3 + header_len(a) {
        assert(decode_frames(a).0 =~= Seq::<Seq<u8>>::empty());
        assert(Seq::<Seq<u8>>::empty() + decode_frames(a + b).0 =~= decode_frames(a + b).0);
    } else {
        let n = 3 + header_len(a);
        assert(header_len(ab) == header_len(a));
        assert(ab.skip(n) =~= a.skip(n) + b);
        assert(ab.subrange(3, n) =~= a.subrange(3, n));
        lemma_decode_chunked(a.skip(n), b);
        let r = decode_frames(a.skip(n));
        assert(seq![a.subrange(3, n)] + r.0 + decode_frames(r.1 + b).0 =~= seq![a.subrange(3, n)] + (
        r.0 + decode_frames(r.1 + b).0));
    }
}

#[verifier::external_type_specification]
#[verifier::external_body]
pub struct ExBytesMut(BytesMut);

/// The bytes held by a `BytesMut`.
pub uninterp spec fn bytes_mut_view(b: BytesMut) -> Seq<u8>;

/// `BytesMut::with_capacity`: an empty buffer (capacity is a hint only).
#[verifier::external_body]
fn bytes_mut_with_capacity(capacity: usize) -> (b: BytesMut)
    ensures
        bytes_mut_view(b) == Seq::<u8>::empty(),
{
    BytesMut::with_capacity(capacity)
}

/// `BytesMut::len`: the number of bytes held.
#[verifier::external_body]
fn bytes_mut_len(b: &BytesMut) -> (n: usize)
    ensures
        n == bytes_mut_view(*b).len(),
{
    b.len()
}

/// `BytesMut::extend_from_slice`: appends the slice; it panics only when
/// the length would pass `isize::MAX`, which `requires` rules out.
#[verifier::external_body]
fn bytes_mut_extend(b: &mut BytesMut, s: &[u8])
    requires
        bytes_mut_view(*old(b)).len() + s@.len() <= isize::MAX,
    ensures
        bytes_mut_view(*final(b)) == bytes_mut_view(*old(b)) + s@,
{
    b.extend_from_slice(s)
}

/// Indexing a `BytesMut` through its `Deref` to `[u8]`.
#[verifier::external_body]
fn bytes_mut_at(b: &BytesMut, i: usize) -> (v: u8)
    requires
        i < bytes_mut_view(*b).len(),
    ensures
        v == bytes_mut_view(*b)[i as int],
{
    b[i]
}

/// `Buf::advance` on a `BytesMut`: drops the first `n` bytes; it panics when
/// `n` passes the length, which `requires` rules out.
#[verifier::external_body]
fn bytes_mut_advance(b: &mut BytesMut, n: usize)
    requires
        n <= bytes_mut_view(*old(b)).len(),
    ensures
        bytes_mut_view(*final(b)) == bytes_mut_view(*old(b)).skip(n as int),
{
    b.advance(n)
}

/// Copies a range of a `BytesMut` (through its `Deref` to `[u8]`) into a
/// new vector.
#[verifier::external_body]
fn bytes_mut_copy(b: &BytesMut, start: usize, end: usize) -> (v: Vec<u8>)
    requires
        start <= end <= bytes_mut_view(*b).len(),
    ensures
        v@ == bytes_mut_view(*b).subrange(start as int, end as int),
{
    b[start..end].to_vec()
}

/// The frames of these payloads, one after another.
pub open spec fn framed_all(ds: Seq<Seq<u8>>) -> Seq<u8>
    decreases ds.len(),
{
    if ds.len() == 0 {
        Seq::empty()
    } else {
        frame_spec(ds[0]) + framed_all(ds.drop_first())
    }
}

/// What a decoder holding `pending` gives when it is handed `chunks` one
/// after another, as `FrameDecoder::push` states each step: all frames in
/// order, and what stays pending.
pub open spec fn push_all(pending: Seq<u8>, chunks: Seq<Seq<u8>>) -> (Seq<Seq<u8>>, Seq<u8>)
    decreases chunks.len(),
{
    if chunks.len() == 0 {
        (Seq::empty(), pending)
    } else {
        let r = decode_frames(pending + chunks[0]);
        let rest = push_all(r.1, chunks.drop_first());
        (r.0 + rest.0, rest.1)
    }
}

proof fn lemma_push_all(pending: Seq<u8>, chunks: Seq<Seq<u8>>)
    requires
        decode_frames(pending) == (Seq::<Seq<u8>>::empty(), pending),
    ensures
        push_all(pending, chunks) == decode_frames(pending + chunks.flatten()),
    decreases chunks.len(),
{
    if chunks.len() == 0 {
        assert(pending + chunks.flatten() =~= pending);
    } else {
        let c0 = chunks[0];
        let tail = chunks.drop_first();
        let r = decode_frames(pending + c0);
        lemma_decode_rest_stable(pending + c0);
        lemma_push_all(r.1, tail);
        lemma_decode_chunked(pending + c0, tail.flatten());
        assert(chunks.flatten() == c0 + tail.flatten());
        assert(pending + chunks.flatten() =~= (pending + c0) + tail.flatten());
    }
}

proof fn lemma_framed_all(ds: Seq<Seq<u8>>, t: Seq<u8>)
    requires
        forall|i: int| 0 <= i < ds.len() ==> (#[trigger] ds[i]).len() < 65536,
        decode_frames(t) == (Seq::<Seq<u8>>::empty(), t),
    ensures
        decode_frames(framed_all(ds) + t) == (ds, t),
    decreases ds.len(),
{
    if ds.len() == 0 {
        assert(framed_all(ds) + t =~= t);
        assert(ds =~= Seq::<Seq<u8>>::empty());
    } else {
        let tail = ds.drop_first();
        assert forall|i: int| 0 <= i < tail.len() implies (#[trigger] tail[i]).len() < 65536 by {
            assert(tail[i] == ds[i + 1]);
        }
        lemma_framed_all(tail, t);
        lemma_decode_frame_prefix(ds[0], framed_all(tail) + t);
        assert(framed_all(ds) + t =~= frame_spec(ds[0]) + (framed_all(tail) + t));
        assert(seq![ds[0]] + tail =~= ds);
    }
}

proof fn lemma_partial_frame(d: Seq<u8>, j: int)
    requires
        d.len() < 65536,
        0 <= j < frame_spec(d).len(),
    ensures
        decode_frames(frame_spec(d).take(j)) == (Seq::<Seq<u8>>::empty(), frame_spec(d).take(j)),
{
    let t = frame_spec(d).take(j);
    if j >= 3 {
        assert((d.len() % 256) as u8 as int + 256 * (((d.len() / 256) % 256) as u8 as int) == d.len());
        assert(t[0] == FRAME_START);
        assert(header_len(t) == d.len());
    }
}

/// Law: however a link's bytes are cut into reads, a decoder fed the frames
/// of `ds` followed by an incomplete frame hands out exactly the payloads
/// of `ds`, once each and in order, and keeps the incomplete frame pending.
pub proof fn lemma_stream_frames(ds: Seq<Seq<u8>>, d: Seq<u8>, j: int, chunks: Seq<Seq<u8>>)
    requires
        forall|i: int| 0 <= i < ds.len() ==> (#[trigger] ds[i]).len() < 65536,
        d.len() < 65536,
        0 <= j < frame_spec(d).len(),
        chunks.flatten() == framed_all(ds) + frame_spec(d).take(j),
    ensures
        push_all(Seq::empty(), chunks) == (ds, frame_spec(d).take(j)),
{
    lemma_partial_frame(d, j);
    lemma_framed_all(ds, frame_spec(d).take(j));
    lemma_push_all(Seq::empty(), chunks);
    assert(Seq::<u8>::empty() + chunks.flatten() =~= chunks.flatten());
}

/// `str::contains` with a string pattern: some run of consecutive bytes of
/// `hay` is `needle` (UTF-8 makes byte and character matches agree).
pub open spec fn contains_spec(hay: Seq<u8>, needle: Seq<u8>) -> bool {
    exists|i: int| 0 <= i && i + needle.len() <= hay.len() && #[trigger] hay.subrange(i, i + needle.len()) == needle
}

/// Whether `needle` occurs at byte offset `i` of `hay`.
fn occurs_at(hay: &[u8], needle: &[u8], i: usize) -> (r: bool)
    requires
        i + needle@.len() <= hay@.len(),
    ensures
        r == (hay@.subrange(i as int, i + needle@.len()) == needle@),
{
    let hay_len = hay.len();
    let mut j: usize = 0;
    while j < needle.len()
        invariant
            hay_len == hay@.len(),
            i + needle@.len() <= hay@.len(),
            0 <= j <= needle@.len(),
            forall|k: int| 0 <= k < j ==> hay@[i + k] == needle@[k],
        decreases needle@.len() - j,
    {
        if hay[i + j] != needle[j] {
            assert(hay@.subrange(i as int, i + needle@.len())[j as int] != needle@[j as int]);
            return false;
        }
        j = j + 1;
    }
    assert(hay@.subrange(i as int, i + needle@.len()) =~= needle@);
    true
}

/// Whether `hay` contains `needle`.
pub fn contains(hay: &str, needle: &str) -> (r: bool)
    ensures
        r == contains_spec(hay.spec_bytes(), needle.spec_bytes()),
{
    let h = hay.as_bytes();
    let n = needle.as_bytes();
    if n.len() > h.len() {
        return false;
    }
    let last = h.len() - n.len();
    let mut i: usize = 0;
    loop
        invariant
            h@ == hay.spec_bytes(),
            n@ == needle.spec_bytes(),
            last + n@.len() == h@.len(),
            0 <= i <= last,
            forall|k: int| 0 <= k < i ==> #[trigger] h@.subrange(k, k + n@.len()) != n@,
        decreases last - i,
    {
        if occurs_at(h, n, i) {
            return true;
        }
        if i == last {
            return false;
        }
        i = i + 1;
    }
}

/// Whether a peripheral found while scanning is the device to connect to:
/// with a target name, one whose local name contains it; without one, a
/// device that advertises the MeshCore service.
pub fn is_target_device(local_name: Option<&str>, advertises_service: bool, target: Option<&str>) -> (r: bool)
    ensures
        r == match target {
            Some(t) => local_name matches Some(n) && contains_spec(n.spec_bytes(), t.spec_bytes()),
            None => advertises_service,
        },
{
    match target {
        Some(t) => match local_name {
            Some(n) => contains(n, t),
            None => false,
        },
        None => advertises_service,
    }
}

/// How many times a BLE connection is attempted before giving up.
pub const MAX_CONNECT_ATTEMPTS: u32 = 3;

/// Whether to try connecting again after `attempts` failed attempts.
pub fn retry_connect(attempts: u32) -> (r: bool)
    ensures
        r == (attempts < MAX_CONNECT_ATTEMPTS),
{
    attempts < MAX_CONNECT_ATTEMPTS
}

/// Reassembles frames from the bytes of a serial or TCP link.
pub struct FrameDecoder {
    buffer: BytesMut,
}

impl FrameDecoder {
    /// The bytes received and not yet consumed by a complete frame.
    pub closed spec fn pending(&self) -> Seq<u8> {
        bytes_mut_view(self.buffer)
    }

    /// Well-formedness: what is pending is what decoding left over, so it
    /// holds no complete frame and is short.
    pub closed spec fn wf(&self) -> bool {
        &&& decode_frames(self.pending()) == (Seq::<Seq<u8>>::empty(), self.pending())
        &&& self.pending().len() <= 65537
    }

    /// A decoder with nothing pending.
    pub fn new() -> (d: FrameDecoder)
        ensures
            d.wf(),
            d.pending() == Seq::<u8>::empty(),
    {
        FrameDecoder { buffer: bytes_mut_with_capacity(4096) }
    }

    /// Appends received bytes and returns, in order, every frame payload that
    /// is now complete; what is left stays pending.
    pub fn push(&mut self, data: &[u8]) -> (frames: Vec<Vec<u8>>)
        requires
            old(self).wf(),
            data@.len() + 65537 <= isize::MAX,
        ensures
            final(self).wf(),
            frames@.map_values(|f: Vec<u8>| f@) == decode_frames(old(self).pending() + data@).0,
            final(self).pending() == decode_frames(old(self).pending() + data@).1,
    {
        bytes_mut_extend(&mut self.buffer, data);
        let ghost all = old(self).pending() + data@;
        let mut frames: Vec<Vec<u8>> = Vec::new();
        loop
            invariant
                frames@.map_values(|f: Vec<u8>| f@) + decode_frames(self.pending()).0 == decode_frames(all).0,
                decode_frames(self.pending()).1 == decode_frames(all).1,
                self.pending().len() <= all.len(),
                all.len() <= isize::MAX,
            ensures
                frames@.map_values(|f: Vec<u8>| f@) == decode_frames(all).0,
                self.pending() == decode_frames(all).1,
            decreases self.pending().len(),
        {
            let ghost cur = self.pending();
            let n = bytes_mut_len(&self.buffer);
            if n < 3 {
                assert(frames@.map_values(|f: Vec<u8>| f@) + Seq::<Seq<u8>>::empty() =~= frames@.map_values(|f: Vec<u8>| f@));
                break;
            }
            let b0 = bytes_mut_at(&self.buffer, 0);
            if b0 != FRAME_START && b0 != FRAME_START_RESP {
                bytes_mut_advance(&mut self.buffer, 1);
                assert(cur.skip(1) =~= cur.drop_first());
                continue;
            }
            let b1 = bytes_mut_at(&self.buffer, 1);
            let b2 = bytes_mut_at(&self.buffer, 2);
            let len: usize = (b1 as usize) + 256 * (b2 as usize);
            assert(len == header_len(cur));
            if n < 3 + len {
                assert(frames@.map_values(|f: Vec<u8>| f@) + Seq::<Seq<u8>>::empty() =~= frames@.map_values(|f: Vec<u8>| f@));
                break;
            }
            let frame = bytes_mut_copy(&self.buffer, 3, 3 + len);
            bytes_mut_advance(&mut self.buffer, 3 + len);
            let ghost before = frames@.map_values(|f: Vec<u8>| f@);
            frames.push(frame);
            proof {
                let rest = decode_frames(cur.skip(3 + len));
                assert(frames@.map_values(|f: Vec<u8>| f@) =~= before.push(frame@));
                assert(before.push(frame@) + rest.0 =~= before + (seq![frame@] + rest.0));
            }
        }
        proof {
            lemma_decode_rest_bounded(all);
            lemma_decode_rest_stable(all);
        }
        frames
    }
}

/// Decoding what decoding left over finds no frame and leaves it as it is.
pub proof fn lemma_decode_rest_stable(buf: Seq<u8>)
    ensures
        decode_frames(decode_frames(buf).1) == (Seq::<Seq<u8>>::empty(), decode_frames(buf).1),
    decreases buf.len(),
{
    if buf.len() < 3 {
    } else if !is_frame_start(buf[0]) {
        lemma_decode_rest_stable(buf.drop_first());
    } else if buf.len() < 3 + header_len(buf) {
    } else {
        lemma_decode_rest_stable(buf.skip(3 + header_len(buf)));
    }
}

} // verus!
