use vstd::prelude::*;
use crate::events::{DomainEvent, EventFields, SsePacket, SsePacketEvent, TrackFields, TrackPayload};
use vstd::string::{StrSliceExecFns, StringSliceAdditionalSpecFns};
use vstd::utf8::{decode_utf8, encode_utf8, valid_utf8};
use crate::text::{append_bytes, copy_range};
use crate::varint::{
    decode_varint, encode_varint, lemma_varint_enc_len, lemma_varint_roundtrip, varint_dec,
    varint_enc,
};

verus! {

/// The wire number of an event kind.
pub open spec fn event_num(e: SsePacketEvent) -> nat {
    match e {
        SsePacketEvent::InternalStatus => 0,
        SsePacketEvent::Data => 1,
    }
}

/// The event kind with the given wire number, if any.
pub open spec fn event_of_num(n: nat) -> Option<SsePacketEvent> {
    if n == 0 {
        Some(SsePacketEvent::InternalStatus)
    } else if n == 1 {
        Some(SsePacketEvent::Data)
    } else {
        None
    }
}

/// The frame's bytes: the kind as a varint field 1 and the payload as a
/// length-delimited field 2, each omitted at its default.
pub open spec fn frame_enc(e: SsePacketEvent, data: Seq<u8>) -> Seq<u8> {
    (if event_num(e) == 0 {
        Seq::<u8>::empty()
    } else {
        seq![0x08u8] + varint_enc(event_num(e))
    }) + (if data.len() == 0 {
        Seq::<u8>::empty()
    } else {
        seq![0x12u8] + varint_enc(data.len() as nat) + data
    })
}

/// Reads the payload field at `i`, the kind already being `ev`.
pub open spec fn frame_dec_data(s: Seq<u8>, i: int, ev: nat) -> Option<(nat, Seq<u8>)> {
    if i == s.len() {
        Some((ev, Seq::<u8>::empty()))
    } else if 0 <= i < s.len() && s[i] == 0x12 {
        match varint_dec(s, i + 1) {
            Some((l, j)) => if j + l == s.len() {
                Some((ev, s.subrange(j, j + l)))
            } else {
                None
            },
            None => None,
        }
    } else {
        None
    }
}

/// Reads a whole frame: the kind's wire number and the payload bytes.
pub open spec fn frame_dec(s: Seq<u8>) -> Option<(nat, Seq<u8>)> {
    if s.len() == 0 {
        Some((0, Seq::<u8>::empty()))
    } else if s[0] == 0x08 {
        match varint_dec(s, 1) {
            Some((v, j)) => frame_dec_data(s, j, v),
            None => None,
        }
    } else {
        frame_dec_data(s, 0, 0)
    }
}

/// Decoding a frame gives back exactly the kind and payload it encoded.
pub proof fn lemma_frame_roundtrip(e: SsePacketEvent, data: Seq<u8>)
    ensures
        frame_dec(frame_enc(e, data)) == Some((event_num(e), data)),
{
    let s = frame_enc(e, data);
    let ev = event_num(e);
    let head: Seq<u8> = if ev == 0 {
        Seq::<u8>::empty()
    } else {
        seq![0x08u8] + varint_enc(ev)
    };
    let body: Seq<u8> = if data.len() == 0 {
        Seq::<u8>::empty()
    } else {
        seq![0x12u8] + varint_enc(data.len() as nat) + data
    };
    assert(s == head + body);
    lemma_varint_enc_len(ev);
    lemma_varint_enc_len(data.len() as nat);
    let i: int = if ev == 0 {
        0
    } else {
        proof_kind_field(s, e, data);
        1 + varint_enc(ev).len() as int
    };
    if ev != 0 {
        assert(s[0] == 0x08);
        assert(varint_dec(s, 1) == Some((ev, i)));
    } else {
        if s.len() > 0 {
            assert(s[0] == body[0]);
            assert(s[0] == 0x12);
            assert(s[0] != 0x08);
        }
    }
    if data.len() == 0 {
        assert(i == s.len());
        assert(frame_dec_data(s, i, ev) == Some((ev, Seq::<u8>::empty())));
    } else {
        assert(s[i] == body[0]);
        assert(s[i] == 0x12);
        let vl = varint_enc(data.len() as nat);
        assert(s.subrange(i + 1, i + 1 + vl.len() as int) =~= vl);
        lemma_varint_roundtrip(s, i + 1, data.len() as nat);
        let j = i + 1 + vl.len() as int;
        assert(varint_dec(s, i + 1) == Some((data.len() as nat, j)));
        assert(j + data.len() == s.len());
        assert(s.subrange(j, j + data.len() as int) =~= data);
        assert(frame_dec_data(s, i, ev) == Some((ev, data)));
    }
}

/// The kind field at the front of a non-default frame parses back to the
/// kind's wire number.
proof fn proof_kind_field(s: Seq<u8>, e: SsePacketEvent, data: Seq<u8>)
    requires
        s == frame_enc(e, data),
        event_num(e) != 0,
    ensures
        s.len() >= 1 + varint_enc(event_num(e)).len(),
        s[0] == 0x08,
        varint_dec(s, 1) == Some((event_num(e), 1 + varint_enc(event_num(e)).len() as int)),
{
    let ev = event_num(e);
    let vl = varint_enc(ev);
    lemma_varint_enc_len(ev);
    assert(s[0] == 0x08);
    assert(s.subrange(1, 1 + vl.len() as int) =~= vl);
    lemma_varint_roundtrip(s, 1, ev);
}

/// The whole frame layer at the packet type: parse the wire number into
/// the closed kind set.
pub open spec fn packet_dec(s: Seq<u8>) -> Option<(SsePacketEvent, Seq<u8>)> {
    match frame_dec(s) {
        Some((n, data)) => match event_of_num(n) {
            Some(e) => Some((e, data)),
            None => None,
        },
        None => None,
    }
}

/// Encodes a packet into its frame bytes.
pub fn encode_frame(event: SsePacketEvent, data: &Vec<u8>) -> (r: Vec<u8>)
    ensures
        r@ == frame_enc(event, data@),
{
    let mut out: Vec<u8> = Vec::new();
    match event {
        SsePacketEvent::InternalStatus => {},
        SsePacketEvent::Data => {
            out.push(0x08);
            encode_varint(&mut out, 1);
        },
    }
    if data.len() > 0 {
        out.push(0x12);
        encode_varint(&mut out, data.len() as u64);
        append_bytes(&mut out, data);
    }
    proof {
        assert(out@ =~= frame_enc(event, data@));
    }
    out
}

/// Decodes a frame into a packet; fails on bytes no frame encoder
/// produces.
pub fn decode_frame(s: &Vec<u8>) -> (r: Option<SsePacket>)
    ensures
        match r {
            Some(p) => packet_dec(s@) == Some((p.event, p.data@)),
            None => packet_dec(s@) is None,
        },
{
    if s.len() == 0 {
        return Some(SsePacket { event: SsePacketEvent::InternalStatus, data: Vec::new() });
    }
    let ghost sv = s@;
    let (ev_num, i): (u64, usize) = if s[0] == 0x08 {
        match decode_varint(s, 1) {
            Some((v, j)) => (v, j),
            None => {
                proof {
                    lemma_varint_dec_bounds(sv, 1);
                    if let Some((v, j)) = varint_dec(sv, 1) {
                        // an event number above 64 bits names no kind, and
                        // a payload field after it could not close the frame
                        assert(v > u64::MAX ==> event_of_num(v) is None);
                        if j < sv.len() {
                            lemma_varint_dec_bounds(sv, j + 1);
                        }
                    }
                }
                return None;
            },
        }
    } else {
        (0, 0)
    };
    if i == s.len() {
        let e = match event_from_num(ev_num) {
            Some(e) => e,
            None => {
                return None;
            },
        };
        return Some(SsePacket { event: e, data: Vec::new() });
    }
    if s[i] != 0x12 {
        return None;
    }
    let (l, j): (u64, usize) = match decode_varint(s, i + 1) {
        Some(p) => p,
        None => {
            proof {
                lemma_varint_dec_bounds(sv, i + 1);
            }
            return None;
        },
    };
    if l > (usize::MAX) as u64 {
        return None;
    }
    let lu = l as usize;
    if j > usize::MAX - lu || j + lu != s.len() {
        return None;
    }
    let e = match event_from_num(ev_num) {
        Some(e) => e,
        None => {
            return None;
        },
    };
    let data = copy_range(s, j, s.len());
    Some(SsePacket { event: e, data })
}

/// A decoded varint never runs past the sequence, and consumes at least
/// one byte.
proof fn lemma_varint_dec_bounds(s: Seq<u8>, i: int)
    requires
        0 <= i <= s.len(),
    ensures
        match varint_dec(s, i) {
            Some((v, j)) => i < j <= s.len(),
            None => true,
        },
    decreases s.len() - i,
{
    if i < s.len() && s[i] >= 0x80 {
        lemma_varint_dec_bounds(s, i + 1);
    }
}

/// Maps a wire number to the event kind it names.
fn event_from_num(n: u64) -> (r: Option<SsePacketEvent>)
    ensures
        r == event_of_num(n as nat),
{
    if n == 0 {
        Some(SsePacketEvent::InternalStatus)
    } else if n == 1 {
        Some(SsePacketEvent::Data)
    } else {
        None
    }
}

/// A length-delimited field: tag byte, byte length, bytes; omitted when
/// empty.
pub open spec fn str_field_enc(tag: u8, b: Seq<u8>) -> Seq<u8> {
    if b.len() == 0 {
        Seq::<u8>::empty()
    } else {
        seq![tag] + varint_enc(b.len() as nat) + b
    }
}

/// The 64-bit two's-complement image of a signed value.
pub open spec fn u64_rep(v: int) -> nat {
    if v >= 0 {
        v as nat
    } else {
        (v + 0x10000000000000000) as nat
    }
}

/// The signed value a 64-bit image stands for.
pub open spec fn i64_val(n: nat) -> int {
    if n < 0x8000000000000000 {
        n as int
    } else {
        n - 0x10000000000000000
    }
}

/// A varint field holding a signed value's 64-bit image; omitted at zero.
pub open spec fn int_field_enc(tag: u8, v: int) -> Seq<u8> {
    if v == 0 {
        Seq::<u8>::empty()
    } else {
        seq![tag] + varint_enc(u64_rep(v))
    }
}

/// Reads an optional length-delimited field at `i`; an absent tag reads
/// as the empty default.
pub open spec fn str_field_dec(s: Seq<u8>, i: int, tag: u8) -> Option<(Seq<u8>, int)> {
    if 0 <= i < s.len() && s[i] == tag {
        match varint_dec(s, i + 1) {
            Some((l, j)) => if j + l <= s.len() {
                Some((s.subrange(j, j + l), j + l))
            } else {
                None
            },
            None => None,
        }
    } else if 0 <= i <= s.len() {
        Some((Seq::<u8>::empty(), i))
    } else {
        None
    }
}

/// Reads an optional varint field at `i`; an absent tag reads as zero.
pub open spec fn int_field_dec(s: Seq<u8>, i: int, tag: u8) -> Option<(nat, int)> {
    if 0 <= i < s.len() && s[i] == tag {
        match varint_dec(s, i + 1) {
            Some((n, j)) => Some((n, j)),
            None => None,
        }
    } else if 0 <= i <= s.len() {
        Some((0, i))
    } else {
        None
    }
}

/// The track record's message bytes: its six fields in field-number
/// order, each omitted at its default.
pub open spec fn track_enc(t: TrackFields) -> Seq<u8> {
    str_field_enc(0x0a, encode_utf8(t.track_uuid)) + str_field_enc(0x12, encode_utf8(t.track_name))
        + str_field_enc(0x1a, encode_utf8(t.artist_name)) + int_field_enc(0x20, t.track_duration)
        + str_field_enc(0x2a, encode_utf8(t.thumbnail_url)) + int_field_enc(0x30, t.track_idx)
}

/// Reads a whole track record; fails on trailing bytes, values beyond 64
/// bits, or text that is not UTF-8.
pub open spec fn track_dec(s: Seq<u8>) -> Option<TrackFields> {
    match str_field_dec(s, 0, 0x0a) {
        None => None,
        Some((uuid_b, i1)) => match str_field_dec(s, i1, 0x12) {
            None => None,
            Some((name_b, i2)) => match str_field_dec(s, i2, 0x1a) {
                None => None,
                Some((artist_b, i3)) => match int_field_dec(s, i3, 0x20) {
                    None => None,
                    Some((dur_n, i4)) => match str_field_dec(s, i4, 0x2a) {
                        None => None,
                        Some((thumb_b, i5)) => match int_field_dec(s, i5, 0x30) {
                            None => None,
                            Some((idx_n, i6)) => {
                                if i6 == s.len() && dur_n <= u64::MAX && idx_n <= u64::MAX
                                    && valid_utf8(uuid_b) && valid_utf8(name_b) && valid_utf8(
                                    artist_b,
                                ) && valid_utf8(thumb_b) {
                                    Some(
                                        TrackFields {
                                            track_uuid: decode_utf8(uuid_b),
                                            track_name: decode_utf8(name_b),
                                            artist_name: decode_utf8(artist_b),
                                            track_duration: i64_val(dur_n),
                                            thumbnail_url: decode_utf8(thumb_b),
                                            track_idx: i64_val(idx_n),
                                        },
                                    )
                                } else {
                                    None
                                }
                            },
                        },
                    },
                },
            },
        },
    }
}

/// A present length-delimited field parses to its bytes; an omitted one
/// parses to the empty default as long as no equal tag byte follows.
proof fn lemma_str_field_at(s: Seq<u8>, i: int, tag: u8, b: Seq<u8>)
    requires
        0 <= i,
        i + str_field_enc(tag, b).len() <= s.len(),
        s.subrange(i, i + str_field_enc(tag, b).len() as int) == str_field_enc(tag, b),
        b.len() == 0 ==> (i == s.len() || s[i] != tag),
    ensures
        str_field_dec(s, i, tag) == Some((b, i + str_field_enc(tag, b).len())),
{
    let e = str_field_enc(tag, b);
    if b.len() == 0 {
    } else {
        let vl = varint_enc(b.len() as nat);
        assert(e == seq![tag] + vl + b);
        assert forall|k: int| 0 <= k < e.len() implies s[i + k] == #[trigger] e[k] by {
            assert(e[k] == s.subrange(i, i + e.len() as int)[k]);
        }
        assert(e[0] == tag);
        assert(s[i] == tag);
        assert forall|k: int| 0 <= k < vl.len() implies s.subrange(
            i + 1,
            i + 1 + vl.len() as int,
        )[k] == vl[k] by {
            assert(vl[k] == e[1 + k]);
            assert(s[i + 1 + k] == e[1 + k]);
        }
        assert(s.subrange(i + 1, i + 1 + vl.len() as int) =~= vl);
        lemma_varint_roundtrip(s, i + 1, b.len() as nat);
        let j = i + 1 + vl.len() as int;
        assert forall|k: int| 0 <= k < b.len() implies s.subrange(j, j + b.len() as int)[k] == b[k]
            by {
            assert(b[k] == e[1 + vl.len() + k]);
            assert(s[i + 1 + vl.len() + k] == e[1 + vl.len() + k]);
        }
        assert(s.subrange(j, j + b.len() as int) =~= b);
    }
}

/// A present varint field parses to the value's image; an omitted one
/// parses to zero as long as no equal tag byte follows.
proof fn lemma_int_field_at(s: Seq<u8>, i: int, tag: u8, v: int)
    requires
        0 <= i,
        i + int_field_enc(tag, v).len() <= s.len(),
        s.subrange(i, i + int_field_enc(tag, v).len() as int) == int_field_enc(tag, v),
        v == 0 ==> (i == s.len() || s[i] != tag),
        -0x8000000000000000 <= v < 0x8000000000000000,
    ensures
        int_field_dec(s, i, tag) == Some((u64_rep(v), i + int_field_enc(tag, v).len())),
{
    let e = int_field_enc(tag, v);
    if v == 0 {
    } else {
        let vl = varint_enc(u64_rep(v));
        assert(e == seq![tag] + vl);
        assert forall|k: int| 0 <= k < e.len() implies s[i + k] == #[trigger] e[k] by {
            assert(e[k] == s.subrange(i, i + e.len() as int)[k]);
        }
        assert(e[0] == tag);
        assert(s[i] == tag);
        assert forall|k: int| 0 <= k < vl.len() implies s.subrange(
            i + 1,
            i + 1 + vl.len() as int,
        )[k] == vl[k] by {
            assert(vl[k] == e[1 + k]);
            assert(s[i + 1 + k] == e[1 + k]);
        }
        assert(s.subrange(i + 1, i + 1 + vl.len() as int) =~= vl);
        lemma_varint_roundtrip(s, i + 1, u64_rep(v));
    }
}

/// Decoding a track message gives back exactly the fields it encoded.
#[verifier::rlimit(60)]
pub proof fn lemma_track_roundtrip(t: TrackFields)
    requires
        -0x8000000000000000 <= t.track_duration < 0x8000000000000000,
        -0x8000000000000000 <= t.track_idx < 0x8000000000000000,
    ensures
        track_dec(track_enc(t)) == Some(t),
{
    broadcast use vstd::utf8::encode_utf8_valid_utf8, vstd::utf8::encode_utf8_decode_utf8;

    let f1 = str_field_enc(0x0a, encode_utf8(t.track_uuid));
    let f2 = str_field_enc(0x12, encode_utf8(t.track_name));
    let f3 = str_field_enc(0x1a, encode_utf8(t.artist_name));
    let f4 = int_field_enc(0x20, t.track_duration);
    let f5 = str_field_enc(0x2a, encode_utf8(t.thumbnail_url));
    let f6 = int_field_enc(0x30, t.track_idx);
    let s = track_enc(t);
    assert(s == f1 + f2 + f3 + f4 + f5 + f6);
    let o1 = f1.len() as int;
    let o2 = o1 + f2.len();
    let o3 = o2 + f3.len();
    let o4 = o3 + f4.len();
    let o5 = o4 + f5.len();
    let o6 = o5 + f6.len();
    assert(s.len() == o6);
    // every encoded field opens with its own tag byte
    assert(f1.len() > 0 ==> f1[0] == 0x0a);
    assert(f2.len() > 0 ==> f2[0] == 0x12);
    assert(f3.len() > 0 ==> f3[0] == 0x1a);
    assert(f4.len() > 0 ==> f4[0] == 0x20);
    assert(f5.len() > 0 ==> f5[0] == 0x2a);
    assert(f6.len() > 0 ==> f6[0] == 0x30);
    // whichever field is the next non-empty one, its tag differs from
    // the tags of the fields omitted before it
    assert(forall|i: int|
        0 <= i < s.len() ==> #[trigger] s[i] == (f1 + f2 + f3 + f4 + f5 + f6)[i]);
    assert(s.subrange(0, o1) =~= f1);
    assert(s.subrange(o1, o2) =~= f2);
    assert(s.subrange(o2, o3) =~= f3);
    assert(s.subrange(o3, o4) =~= f4);
    assert(s.subrange(o4, o5) =~= f5);
    assert(s.subrange(o5, o6) =~= f6);
    assert(0 < s.len() ==> (s[0] == f1[0] || (f1.len() == 0 && s[0] == (f2 + f3 + f4 + f5 + f6)[0])));
    lemma_str_field_at(s, 0, 0x0a, encode_utf8(t.track_uuid));
    lemma_str_field_at(s, o1, 0x12, encode_utf8(t.track_name));
    lemma_str_field_at(s, o2, 0x1a, encode_utf8(t.artist_name));
    lemma_int_field_at(s, o3, 0x20, t.track_duration);
    lemma_str_field_at(s, o4, 0x2a, encode_utf8(t.thumbnail_url));
    lemma_int_field_at(s, o5, 0x30, t.track_idx);
    assert(u64_rep(t.track_duration) <= u64::MAX);
    assert(u64_rep(t.track_idx) <= u64::MAX);
    assert(i64_val(u64_rep(t.track_duration)) == t.track_duration);
    assert(i64_val(u64_rep(t.track_idx)) == t.track_idx);
}

/// Appends a length-delimited field holding the string's UTF-8 bytes.
fn encode_str_field(out: &mut Vec<u8>, tag: u8, s: &String)
    ensures
        final(out)@ == old(out)@ + str_field_enc(tag, encode_utf8(s@)),
{
    let b = s.as_str().as_bytes_vec();
    if b.len() > 0 {
        out.push(tag);
        encode_varint(out, b.len() as u64);
        append_bytes(out, &b);
    }
    proof {
        assert(final(out)@ =~= old(out)@ + str_field_enc(tag, encode_utf8(s@)));
    }
}

/// The 64-bit image of a signed value, computed without a truncating
/// cast.
fn u64_image(v: i64) -> (r: u64)
    ensures
        r as nat == u64_rep(v as int),
{
    if v >= 0 {
        v as u64
    } else {
        let w = (v + 1) + i64::MAX;
        (w as u64) + 0x8000000000000000u64
    }
}

/// The signed value a 64-bit image stands for, computed without a
/// truncating cast.
fn i64_from_image(n: u64) -> (r: i64)
    ensures
        r as int == i64_val(n as nat),
{
    if n < 0x8000000000000000 {
        n as i64
    } else {
        let w = n - 0x8000000000000000;
        ((w as i64) - i64::MAX) - 1
    }
}

/// Appends a varint field holding the value's 64-bit image.
fn encode_int_field(out: &mut Vec<u8>, tag: u8, v: i64)
    ensures
        final(out)@ == old(out)@ + int_field_enc(tag, v as int),
{
    if v != 0 {
        out.push(tag);
        let img = u64_image(v);
        encode_varint(out, img);
    }
    proof {
        assert(final(out)@ =~= old(out)@ + int_field_enc(tag, v as int));
    }
}

/// Encodes a track record into its message bytes.
pub fn encode_track(t: &TrackPayload) -> (r: Vec<u8>)
    ensures
        r@ == track_enc(t.view_fields()),
{
    let mut out: Vec<u8> = Vec::new();
    encode_str_field(&mut out, 0x0a, &t.track_uuid);
    encode_str_field(&mut out, 0x12, &t.track_name);
    encode_str_field(&mut out, 0x1a, &t.artist_name);
    encode_int_field(&mut out, 0x20, t.track_duration);
    encode_str_field(&mut out, 0x2a, &t.thumbnail_url);
    encode_int_field(&mut out, 0x30, t.track_idx);
    proof {
        assert(out@ =~= track_enc(t.view_fields()));
    }
    out
}

/// Reads an optional length-delimited field at `i`.
fn decode_str_field(s: &Vec<u8>, i: usize, tag: u8) -> (r: Option<(Vec<u8>, usize)>)
    requires
        i <= s@.len(),
    ensures
        match r {
            Some((b, j)) => str_field_dec(s@, i as int, tag) == Some((b@, j as int)) && i <= j
                <= s@.len(),
            None => str_field_dec(s@, i as int, tag) is None,
        },
{
    if i < s.len() && s[i] == tag {
        match decode_varint(s, i + 1) {
            Some((l, j)) => {
                if l <= (s.len() - j) as u64 {
                    let end = j + (l as usize);
                    Some((copy_range(s, j, end), end))
                } else {
                    None
                }
            },
            None => {
                proof {
                    lemma_varint_dec_bounds(s@, i + 1);
                }
                None
            },
        }
    } else {
        Some((Vec::new(), i))
    }
}

/// Reads an optional varint field at `i`.
fn decode_int_field(s: &Vec<u8>, i: usize, tag: u8) -> (r: Option<(u64, usize)>)
    requires
        i <= s@.len(),
    ensures
        match r {
            Some((n, j)) => int_field_dec(s@, i as int, tag) == Some((n as nat, j as int)) && i <= j
                <= s@.len(),
            None => match int_field_dec(s@, i as int, tag) {
                Some((n, j)) => n > u64::MAX,
                None => true,
            },
        },
{
    if i < s.len() && s[i] == tag {
        match decode_varint(s, i + 1) {
            Some((n, j)) => Some((n, j)),
            None => None,
        }
    } else {
        Some((0, i))
    }
}

/// Decodes a track message; fails on bytes no track encoder produces.
pub fn decode_track(s: &Vec<u8>) -> (r: Option<TrackPayload>)
    ensures
        match r {
            Some(t) => track_dec(s@) == Some(t.view_fields()),
            None => track_dec(s@) is None,
        },
{
    let (uuid_b, i1) = match decode_str_field(s, 0, 0x0a) {
        Some(p) => p,
        None => {
            return None;
        },
    };
    let (name_b, i2) = match decode_str_field(s, i1, 0x12) {
        Some(p) => p,
        None => {
            return None;
        },
    };
    let (artist_b, i3) = match decode_str_field(s, i2, 0x1a) {
        Some(p) => p,
        None => {
            return None;
        },
    };
    let (dur_n, i4) = match decode_int_field(s, i3, 0x20) {
        Some(p) => p,
        None => {
            return None;
        },
    };
    let (thumb_b, i5) = match decode_str_field(s, i4, 0x2a) {
        Some(p) => p,
        None => {
            return None;
        },
    };
    let (idx_n, i6) = match decode_int_field(s, i5, 0x30) {
        Some(p) => p,
        None => {
            return None;
        },
    };
    if i6 != s.len() {
        return None;
    }
    let track_uuid = match crate::text::utf8_to_string(uuid_b) {
        Some(x) => x,
        None => {
            return None;
        },
    };
    let track_name = match crate::text::utf8_to_string(name_b) {
        Some(x) => x,
        None => {
            return None;
        },
    };
    let artist_name = match crate::text::utf8_to_string(artist_b) {
        Some(x) => x,
        None => {
            return None;
        },
    };
    let thumbnail_url = match crate::text::utf8_to_string(thumb_b) {
        Some(x) => x,
        None => {
            return None;
        },
    };
    let track_duration = i64_from_image(dur_n);
    let track_idx = i64_from_image(idx_n);
    Some(
        TrackPayload {
            track_uuid,
            track_name,
            artist_name,
            track_duration,
            thumbnail_url,
            track_idx,
        },
    )
}

/// The binary form of a domain event: its kind and payload as one frame.
pub open spec fn event_bin_enc(ev: DomainEvent) -> Seq<u8> {
    match ev {
        DomainEvent::Status(s) => frame_enc(SsePacketEvent::InternalStatus, encode_utf8(s@)),
        DomainEvent::Track(t) => frame_enc(SsePacketEvent::Data, track_enc(t.view_fields())),
    }
}

/// Reads a binary frame back into the event's mathematical image.
pub open spec fn event_bin_dec(s: Seq<u8>) -> Option<EventFields> {
    match packet_dec(s) {
        Some((SsePacketEvent::InternalStatus, data)) => if valid_utf8(data) {
            Some(EventFields::Status(decode_utf8(data)))
        } else {
            None
        },
        Some((SsePacketEvent::Data, data)) => match track_dec(data) {
            Some(tf) => Some(EventFields::Track(tf)),
            None => None,
        },
        None => None,
    }
}

/// Binary round trip: decoding an encoded domain event reproduces its
/// kind and every payload field bit for bit.
pub proof fn lemma_event_bin_roundtrip(ev: DomainEvent)
    ensures
        event_bin_dec(event_bin_enc(ev)) == Some(ev.view_fields()),
{
    broadcast use vstd::utf8::encode_utf8_valid_utf8, vstd::utf8::encode_utf8_decode_utf8;

    match ev {
        DomainEvent::Status(s) => {
            lemma_frame_roundtrip(SsePacketEvent::InternalStatus, encode_utf8(s@));
        },
        DomainEvent::Track(t) => {
            lemma_frame_roundtrip(SsePacketEvent::Data, track_enc(t.view_fields()));
            lemma_track_roundtrip(t.view_fields());
        },
    }
}

/// Encodes a domain event into one binary frame.
pub fn encode_event_bin(ev: &DomainEvent) -> (r: Vec<u8>)
    ensures
        r@ == event_bin_enc(*ev),
{
    match ev {
        DomainEvent::Status(st) => {
            let b = st.as_str().as_bytes_vec();
            encode_frame(SsePacketEvent::InternalStatus, &b)
        },
        DomainEvent::Track(t) => {
            let b = encode_track(t);
            encode_frame(SsePacketEvent::Data, &b)
        },
    }
}

/// Decodes one binary frame into a domain event; fails on bytes no
/// event encoder produces.
pub fn decode_event_bin(s: &Vec<u8>) -> (r: Option<DomainEvent>)
    ensures
        match r {
            Some(ev) => event_bin_dec(s@) == Some(ev.view_fields()),
            None => event_bin_dec(s@) is None,
        },
{
    match decode_frame(s) {
        None => None,
        Some(p) => match p.event {
            SsePacketEvent::InternalStatus => match crate::text::utf8_to_string(p.data) {
                Some(st) => Some(DomainEvent::Status(st)),
                None => None,
            },
            SsePacketEvent::Data => match decode_track(&p.data) {
                Some(t) => Some(DomainEvent::Track(t)),
                None => None,
            },
        },
    }
}

} // verus!
