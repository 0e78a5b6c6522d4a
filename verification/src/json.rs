use vstd::prelude::*;
use crate::events::{DomainEvent, EventFields, TrackFields, TrackPayload};
use vstd::string::StringSliceAdditionalSpecFns;
use vstd::utf8::{decode_utf8, encode_utf8, valid_utf8};

verus! {

/// The ASCII code of a hexadecimal digit, lower case letters.
pub open spec fn hex_digit(n: u8) -> u8 {
    if n < 10 {
        (0x30 + n) as u8
    } else {
        (0x57 + n) as u8
    }
}

pub open spec fn is_hex(b: u8) -> bool {
    (0x30 <= b <= 0x39) || (0x61 <= b <= 0x66) || (0x41 <= b <= 0x46)
}

/// The value of a hexadecimal digit byte.
pub open spec fn hex_val(b: u8) -> nat {
    if 0x30 <= b <= 0x39 {
        (b - 0x30) as nat
    } else if 0x61 <= b <= 0x66 {
        (b - 0x57) as nat
    } else if 0x41 <= b <= 0x46 {
        (b - 0x37) as nat
    } else {
        0
    }
}

/// How one byte of string content is written: quotes and backslashes
/// are escaped, control bytes become a four-digit escape, everything
/// else stands for itself.
pub open spec fn esc_byte(b: u8) -> Seq<u8> {
    if b == 0x22 {
        seq![0x5cu8, 0x22u8]
    } else if b == 0x5c {
        seq![0x5cu8, 0x5cu8]
    } else if b < 0x20 {
        seq![0x5cu8, 0x75u8, 0x30u8, 0x30u8, hex_digit(b / 16), hex_digit(b % 16)]
    } else {
        seq![b]
    }
}

/// The escaped form of string content.
pub open spec fn esc(b: Seq<u8>) -> Seq<u8>
    decreases b.len(),
{
    if b.len() == 0 {
        Seq::<u8>::empty()
    } else {
        esc_byte(b[0]) + esc(b.drop_first())
    }
}

/// Escaping distributes over concatenation.
pub proof fn lemma_esc_add(a: Seq<u8>, b: Seq<u8>)
    ensures
        esc(a + b) == esc(a) + esc(b),
    decreases a.len(),
{
    if a.len() == 0 {
        assert(a + b =~= b);
        assert(esc(a) + esc(b) =~= esc(b));
    } else {
        assert((a + b).drop_first() =~= a.drop_first() + b);
        lemma_esc_add(a.drop_first(), b);
        assert(esc(a + b) =~= esc_byte(a[0]) + (esc(a.drop_first()) + esc(b)));
        assert(esc(a) + esc(b) =~= esc_byte(a[0]) + (esc(a.drop_first()) + esc(b)));
    }
}

/// Reads escaped string content at `i` up to and past the closing
/// quote; yields the content bytes.
pub open spec fn jstr_dec(s: Seq<u8>, i: int) -> Option<(Seq<u8>, int)>
    decreases s.len() - i,
    when 0 <= i <= s.len()
{
    if i >= s.len() {
        None
    } else if s[i] == 0x22 {
        Some((Seq::<u8>::empty(), i + 1))
    } else if s[i] == 0x5c {
        if i + 1 < s.len() && (s[i + 1] == 0x22 || s[i + 1] == 0x5c) {
            match jstr_dec(s, i + 2) {
                Some((b, j)) => Some((seq![s[i + 1]] + b, j)),
                None => None,
            }
        } else if i + 5 < s.len() && s[i + 1] == 0x75 && s[i + 2] == 0x30 && s[i + 3] == 0x30
            && is_hex(s[i + 4]) && is_hex(s[i + 5]) {
            match jstr_dec(s, i + 6) {
                Some((b, j)) => Some(
                    (seq![(hex_val(s[i + 4]) * 16 + hex_val(s[i + 5])) as u8] + b, j),
                ),
                None => None,
            }
        } else {
            None
        }
    } else {
        match jstr_dec(s, i + 1) {
            Some((b, j)) => Some((seq![s[i]] + b, j)),
            None => None,
        }
    }
}

/// Reading escaped content back yields exactly the bytes that were
/// escaped, and stops right past the closing quote.
pub proof fn lemma_jstr_roundtrip(s: Seq<u8>, i: int, b: Seq<u8>)
    requires
        0 <= i,
        i + esc(b).len() + 1 <= s.len(),
        s.subrange(i, i + esc(b).len() + 1) == esc(b) + seq![0x22u8],
    ensures
        jstr_dec(s, i) == Some((b, i + esc(b).len() + 1)),
    decreases b.len(),
{
    let e = esc(b) + seq![0x22u8];
    assert forall|k: int| 0 <= k < e.len() implies s[i + k] == #[trigger] e[k] by {
        assert(e[k] == s.subrange(i, i + e.len() as int)[k]);
    }
    if b.len() == 0 {
        assert(e[0] == 0x22);
        assert(s[i] == 0x22);
    } else {
        let b0 = b[0];
        let eb = esc_byte(b0);
        let rest = b.drop_first();
        assert(esc(b) == eb + esc(rest));
        assert forall|k: int| 0 <= k < eb.len() implies s[i + k] == eb[k] by {
            assert(s[i + k] == e[k]);
            assert(e[k] == esc(b)[k]);
            assert(esc(b)[k] == eb[k]);
        }
        let i2 = i + eb.len() as int;
        assert forall|k: int|
            0 <= k < esc(rest).len() + 1 implies s.subrange(
            i2,
            i2 + esc(rest).len() + 1,
        )[k] == (esc(rest) + seq![0x22u8])[k] by {
            assert(s[i2 + k] == e[eb.len() + k]);
            assert(e[eb.len() + k] == (esc(rest) + seq![0x22u8])[k]);
        }
        assert(s.subrange(i2, i2 + esc(rest).len() + 1) =~= esc(rest) + seq![0x22u8]);
        lemma_jstr_roundtrip(s, i2, rest);
        if b0 == 0x22 || b0 == 0x5c {
            assert(eb[0] == 0x5c && eb[1] == b0);
            assert(s[i] == 0x5c && s[i + 1] == b0);
            assert(seq![s[i + 1]] + rest =~= b);
        } else if b0 < 0x20 {
            assert(eb[0] == 0x5c && eb[1] == 0x75 && eb[2] == 0x30 && eb[3] == 0x30 && eb[4]
                == hex_digit(b0 / 16) && eb[5] == hex_digit(b0 % 16));
            assert(s[i] == 0x5c && s[i + 1] == 0x75 && s[i + 2] == 0x30 && s[i + 3] == 0x30);
            assert(s[i + 4] == hex_digit(b0 / 16) && s[i + 5] == hex_digit(b0 % 16));
            assert(is_hex(hex_digit(b0 / 16)) && is_hex(hex_digit(b0 % 16)));
            assert(hex_val(hex_digit(b0 / 16)) == b0 / 16);
            assert(hex_val(hex_digit(b0 % 16)) == b0 % 16);
            assert((b0 / 16) * 16 + b0 % 16 == b0) by {
                vstd::arithmetic::div_mod::lemma_fundamental_div_mod(b0 as int, 16);
            }
            assert(seq![(hex_val(s[i + 4]) * 16 + hex_val(s[i + 5])) as u8] + rest =~= b);
        } else {
            assert(eb[0] == b0);
            assert(s[i] == b0);
            assert(s[i] != 0x22 && s[i] != 0x5c);
            assert(seq![s[i]] + rest =~= b);
        }
    }
}

pub open spec fn is_digit(b: u8) -> bool {
    0x30 <= b <= 0x39
}

/// Decimal digits of an unsigned value, most significant first.
pub open spec fn dec_enc(n: nat) -> Seq<u8>
    decreases n,
{
    if n < 10 {
        seq![(0x30 + n) as u8]
    } else {
        dec_enc(n / 10) + seq![(0x30 + n % 10) as u8]
    }
}

/// A possibly signed decimal number.
pub open spec fn int_enc(v: int) -> Seq<u8> {
    if v >= 0 {
        dec_enc(v as nat)
    } else {
        seq![0x2du8] + dec_enc((-v) as nat)
    }
}

pub open spec fn pow10(k: nat) -> nat
    decreases k,
{
    if k == 0 {
        1
    } else {
        10 * pow10((k - 1) as nat)
    }
}

/// Reads a maximal run of digits, folding them onto `acc`.
pub open spec fn digits_dec(s: Seq<u8>, i: int, acc: nat) -> (nat, int)
    decreases s.len() - i,
    when 0 <= i <= s.len()
{
    if i < s.len() && is_digit(s[i]) {
        digits_dec(s, i + 1, acc * 10 + (s[i] - 0x30) as nat)
    } else {
        (acc, i)
    }
}

/// Every byte of a decimal encoding is a digit.
pub proof fn lemma_dec_enc_digits(n: nat)
    ensures
        dec_enc(n).len() >= 1,
        forall|k: int| 0 <= k < dec_enc(n).len() ==> is_digit(#[trigger] dec_enc(n)[k]),
    decreases n,
{
    if n >= 10 {
        lemma_dec_enc_digits(n / 10);
    }
}

/// Scanning over the digits of `n` folds exactly `n` onto the
/// accumulator, scaled past the digits already read.
proof fn lemma_digits_chunk(s: Seq<u8>, i: int, acc: nat, n: nat)
    requires
        0 <= i,
        i + dec_enc(n).len() <= s.len(),
        s.subrange(i, i + dec_enc(n).len() as int) == dec_enc(n),
    ensures
        digits_dec(s, i, acc) == digits_dec(
            s,
            i + dec_enc(n).len(),
            acc * pow10(dec_enc(n).len() as nat) + n,
        ),
    decreases n,
{
    let e = dec_enc(n);
    let len = e.len() as int;
    assert forall|k: int| 0 <= k < len implies s[i + k] == #[trigger] e[k] by {
        assert(e[k] == s.subrange(i, i + len)[k]);
    }
    lemma_dec_enc_digits(n);
    if n < 10 {
        assert(e[0] == (0x30 + n) as u8);
        assert(s[i] == (0x30 + n) as u8);
        assert(is_digit(s[i]));
        assert(digits_dec(s, i, acc) == digits_dec(s, i + 1, acc * 10 + n));
        assert(pow10(0nat) == 1);
        assert(pow10(1nat) == 10);
    } else {
        let head = dec_enc(n / 10);
        let hl = head.len() as int;
        assert(e == head + seq![(0x30 + n % 10) as u8]);
        assert forall|k: int| 0 <= k < hl implies s.subrange(i, i + hl)[k] == head[k] by {
            assert(s[i + k] == e[k]);
            assert(e[k] == head[k]);
        }
        assert(s.subrange(i, i + hl) =~= head);
        lemma_digits_chunk(s, i, acc, n / 10);
        let mid = acc * pow10(head.len() as nat) + n / 10;
        assert(s[i + hl] == e[hl]);
        assert(e[hl] == (0x30 + n % 10) as u8);
        assert(is_digit(s[i + hl]));
        assert(digits_dec(s, i + hl, mid) == digits_dec(s, i + hl + 1, mid * 10 + n % 10));
        assert(pow10(e.len() as nat) == 10 * pow10((e.len() - 1) as nat));
        assert(n == 10 * (n / 10) + n % 10) by {
            vstd::arithmetic::div_mod::lemma_fundamental_div_mod(n as int, 10);
        }
        assert(mid * 10 + n % 10 == acc * pow10(e.len() as nat) + n) by (nonlinear_arith)
            requires
                mid == acc * pow10((e.len() - 1) as nat) + n / 10,
                pow10(e.len() as nat) == 10 * pow10((e.len() - 1) as nat),
                n == 10 * (n / 10) + n % 10,
                e.len() >= 1,
        ;
    }
}

/// Reads a decimal number, optionally signed.
pub open spec fn num_dec(s: Seq<u8>, i: int) -> Option<(int, int)> {
    if 0 <= i < s.len() && s[i] == 0x2d {
        if i + 1 < s.len() && is_digit(s[i + 1]) {
            let (n, j) = digits_dec(s, i + 1, 0);
            Some((-(n as int), j))
        } else {
            None
        }
    } else if 0 <= i < s.len() && is_digit(s[i]) {
        let (n, j) = digits_dec(s, i, 0);
        Some((n as int, j))
    } else {
        None
    }
}

/// Reading a written number back yields exactly the value, provided no
/// digit follows it.
pub proof fn lemma_num_roundtrip(s: Seq<u8>, i: int, v: int)
    requires
        0 <= i,
        i + int_enc(v).len() <= s.len(),
        s.subrange(i, i + int_enc(v).len() as int) == int_enc(v),
        i + int_enc(v).len() == s.len() || !is_digit(s[i + int_enc(v).len()]),
    ensures
        num_dec(s, i) == Some((v, i + int_enc(v).len())),
{
    let e = int_enc(v);
    let len = e.len() as int;
    assert forall|k: int| 0 <= k < len implies s[i + k] == #[trigger] e[k] by {
        assert(e[k] == s.subrange(i, i + len)[k]);
    }
    if v >= 0 {
        lemma_dec_enc_digits(v as nat);
        assert(e[0] == dec_enc(v as nat)[0]);
        assert(s[i] == dec_enc(v as nat)[0]);
        assert(is_digit(s[i]));
        assert(s[i] != 0x2d);
        lemma_digits_chunk(s, i, 0, v as nat);
        assert(0 * pow10(dec_enc(v as nat).len() as nat) == 0) by (nonlinear_arith);
        assert(digits_dec(s, i + len, v as nat) == (v as nat, i + len));
    } else {
        let m = (-v) as nat;
        lemma_dec_enc_digits(m);
        assert(e[0] == 0x2d);
        assert(s[i] == 0x2d);
        assert(e[1] == dec_enc(m)[0]);
        assert(s[i + 1] == dec_enc(m)[0]);
        assert(is_digit(s[i + 1]));
        assert forall|k: int| 0 <= k < dec_enc(m).len() implies s.subrange(
            i + 1,
            i + 1 + dec_enc(m).len() as int,
        )[k] == dec_enc(m)[k] by {
            assert(s[i + 1 + k] == e[1 + k]);
            assert(e[1 + k] == dec_enc(m)[k]);
        }
        assert(s.subrange(i + 1, i + 1 + dec_enc(m).len() as int) =~= dec_enc(m));
        lemma_digits_chunk(s, i + 1, 0, m);
        assert(0 * pow10(dec_enc(m).len() as nat) == 0) by (nonlinear_arith);
        assert(digits_dec(s, i + 1 + dec_enc(m).len(), m) == (m, i + len));
    }
}

/// Consumes an exact literal at `i`.
pub open spec fn expect_lit(s: Seq<u8>, i: int, lit: Seq<u8>) -> Option<int> {
    if 0 <= i && i + lit.len() <= s.len() && s.subrange(i, i + lit.len() as int) == lit {
        Some(i + lit.len() as int)
    } else {
        None
    }
}

/// A quoted string: the escaped content between two quotes.
pub open spec fn qstr(b: Seq<u8>) -> Seq<u8> {
    seq![0x22u8] + esc(b) + seq![0x22u8]
}

/// Reads a quoted string at `i`.
pub open spec fn qstr_dec(s: Seq<u8>, i: int) -> Option<(Seq<u8>, int)> {
    if 0 <= i < s.len() && s[i] == 0x22 {
        jstr_dec(s, i + 1)
    } else {
        None
    }
}

/// Reading a written quoted string back yields exactly its content.
pub proof fn lemma_qstr_roundtrip(s: Seq<u8>, i: int, b: Seq<u8>)
    requires
        0 <= i,
        i + qstr(b).len() <= s.len(),
        s.subrange(i, i + qstr(b).len() as int) == qstr(b),
    ensures
        qstr_dec(s, i) == Some((b, i + qstr(b).len())),
{
    let q = qstr(b);
    assert forall|k: int| 0 <= k < q.len() implies s[i + k] == #[trigger] q[k] by {
        assert(q[k] == s.subrange(i, i + q.len() as int)[k]);
    }
    assert(q[0] == 0x22);
    assert(s[i] == 0x22);
    let inner = esc(b) + seq![0x22u8];
    assert forall|k: int| 0 <= k < inner.len() implies s.subrange(
        i + 1,
        i + 1 + inner.len() as int,
    )[k] == inner[k] by {
        assert(s[i + 1 + k] == q[1 + k]);
        assert(q[1 + k] == inner[k]);
    }
    assert(s.subrange(i + 1, i + 1 + inner.len() as int) =~= inner);
    lemma_jstr_roundtrip(s, i + 1, b);
}

/// The track record as a JSON object, every field present, in a fixed
/// field order.
pub open spec fn track_json_enc(t: TrackFields) -> Seq<u8> {
    "{\"track_uuid\":".spec_bytes() + qstr(encode_utf8(t.track_uuid))
        + ",\"track_name\":".spec_bytes() + qstr(encode_utf8(t.track_name))
        + ",\"artist_name\":".spec_bytes() + qstr(encode_utf8(t.artist_name))
        + ",\"track_duration\":".spec_bytes() + int_enc(t.track_duration)
        + ",\"thumbnail_url\":".spec_bytes() + qstr(encode_utf8(t.thumbnail_url))
        + ",\"track_idx\":".spec_bytes() + int_enc(t.track_idx) + "}".spec_bytes()
}

/// Reads a track object at `i`; fails on text that is not UTF-8 or a
/// number beyond 64-bit signed range.
pub open spec fn track_json_dec(s: Seq<u8>, i: int) -> Option<(TrackFields, int)> {
    match expect_lit(s, i, "{\"track_uuid\":".spec_bytes()) {
        None => None,
        Some(i1) => match qstr_dec(s, i1) {
            None => None,
            Some((uuid_b, i2)) => match expect_lit(s, i2, ",\"track_name\":".spec_bytes()) {
                None => None,
                Some(i3) => match qstr_dec(s, i3) {
                    None => None,
                    Some((name_b, i4)) => match expect_lit(
                        s,
                        i4,
                        ",\"artist_name\":".spec_bytes(),
                    ) {
                        None => None,
                        Some(i5) => match qstr_dec(s, i5) {
                            None => None,
                            Some((artist_b, i6)) => match expect_lit(
                                s,
                                i6,
                                ",\"track_duration\":".spec_bytes(),
                            ) {
                                None => None,
                                Some(i7) => match num_dec(s, i7) {
                                    None => None,
                                    Some((dur, i8)) => match expect_lit(
                                        s,
                                        i8,
                                        ",\"thumbnail_url\":".spec_bytes(),
                                    ) {
                                        None => None,
                                        Some(i9) => match qstr_dec(s, i9) {
                                            None => None,
                                            Some((thumb_b, i10)) => match expect_lit(
                                                s,
                                                i10,
                                                ",\"track_idx\":".spec_bytes(),
                                            ) {
                                                None => None,
                                                Some(i11) => match num_dec(s, i11) {
                                                    None => None,
                                                    Some((idx, i12)) => match expect_lit(
                                                        s,
                                                        i12,
                                                        "}".spec_bytes(),
                                                    ) {
                                                        None => None,
                                                        Some(end) => {
                                                            if valid_utf8(uuid_b) && valid_utf8(
                                                                name_b,
                                                            ) && valid_utf8(artist_b)
                                                                && valid_utf8(thumb_b)
                                                                && -0x8000000000000000 <= dur
                                                                < 0x8000000000000000
                                                                && -0x8000000000000000 <= idx
                                                                < 0x8000000000000000 {
                                                                Some(
                                                                    (
                                                                        TrackFields {
                                                                            track_uuid: decode_utf8(
                                                                                uuid_b,
                                                                            ),
                                                                            track_name: decode_utf8(
                                                                                name_b,
                                                                            ),
                                                                            artist_name:
                                                                                decode_utf8(
                                                                                artist_b,
                                                                            ),
                                                                            track_duration: dur,
                                                                            thumbnail_url:
                                                                                decode_utf8(
                                                                                thumb_b,
                                                                            ),
                                                                            track_idx: idx,
                                                                        },
                                                                        end,
                                                                    ),
                                                                )
                                                            } else {
                                                                None
                                                            }
                                                        },
                                                    },
                                                },
                                            },
                                        },
                                    },
                                },
                            },
                        },
                    },
                },
            },
        },
    }
}

/// The textual form of a domain event.
pub open spec fn event_json_enc(ev: DomainEvent) -> Seq<u8> {
    match ev {
        DomainEvent::Status(st) => "{\"event\":\"InternalStatus\",\"data\":".spec_bytes() + qstr(
            encode_utf8(st@),
        ) + "}".spec_bytes(),
        DomainEvent::Track(t) => "{\"event\":\"Data\",\"data\":".spec_bytes() + track_json_enc(
            t.view_fields(),
        ) + "}".spec_bytes(),
    }
}

/// In the UTF-8 form of text whose leading characters are ASCII, the
/// byte at `k` is the character at `k`.
pub proof fn lemma_ascii_prefix_byte(ch: Seq<char>, k: int)
    requires
        0 <= k < ch.len(),
        forall|j: int| 0 <= j <= k ==> ((#[trigger] ch[j]) as u32) < 0x80,
    ensures
        encode_utf8(ch).len() > k,
        encode_utf8(ch)[k] == ch[k] as u8,
    decreases k,
{
    let c = ch[0] as u32;
    assert(vstd::utf8::has_width_1_encoding(c));
    assert(vstd::utf8::leading_byte_width_1(c) == c as u8) by (bit_vector)
        requires
            c < 0x80,
    ;
    assert(vstd::utf8::encode_scalar(c) == seq![c as u8]);
    assert(encode_utf8(ch) == seq![c as u8] + encode_utf8(ch.drop_first()));
    if k == 0 {
        vstd::utf8::char_u32_cast(ch[0], c);
        assert(encode_utf8(ch)[0] == c as u8);
    } else {
        lemma_ascii_prefix_byte(ch.drop_first(), k - 1);
        assert(encode_utf8(ch)[k] == encode_utf8(ch.drop_first())[k - 1]);
        assert(ch.drop_first()[k - 1] == ch[k]);
    }
}

/// Reading a written track object back yields exactly its fields.
#[verifier::rlimit(100)]
pub proof fn lemma_track_json_roundtrip(s: Seq<u8>, i: int, t: TrackFields)
    requires
        -0x8000000000000000 <= t.track_duration < 0x8000000000000000,
        -0x8000000000000000 <= t.track_idx < 0x8000000000000000,
        0 <= i,
        i + track_json_enc(t).len() <= s.len(),
        s.subrange(i, i + track_json_enc(t).len() as int) == track_json_enc(t),
    ensures
        track_json_dec(s, i) == Some((t, i + track_json_enc(t).len())),
{
    broadcast use vstd::utf8::encode_utf8_valid_utf8, vstd::utf8::encode_utf8_decode_utf8;

    let e = track_json_enc(t);
    let l1 = "{\"track_uuid\":".spec_bytes();
    let q1 = qstr(encode_utf8(t.track_uuid));
    let l2 = ",\"track_name\":".spec_bytes();
    let q2 = qstr(encode_utf8(t.track_name));
    let l3 = ",\"artist_name\":".spec_bytes();
    let q3 = qstr(encode_utf8(t.artist_name));
    let l4 = ",\"track_duration\":".spec_bytes();
    let n1 = int_enc(t.track_duration);
    let l5 = ",\"thumbnail_url\":".spec_bytes();
    let q4 = qstr(encode_utf8(t.thumbnail_url));
    let l6 = ",\"track_idx\":".spec_bytes();
    let n2 = int_enc(t.track_idx);
    let l7 = "}".spec_bytes();
    let o1 = i + l1.len() as int;
    let o2 = o1 + q1.len();
    let o3 = o2 + l2.len();
    let o4 = o3 + q2.len();
    let o5 = o4 + l3.len();
    let o6 = o5 + q3.len();
    let o7 = o6 + l4.len();
    let o8 = o7 + n1.len();
    let o9 = o8 + l5.len();
    let o10 = o9 + q4.len();
    let o11 = o10 + l6.len();
    let o12 = o11 + n2.len();
    let o13 = o12 + l7.len();
    assert(i + e.len() == o13);
    let c1 = l1;
    let c2 = c1 + q1;
    let c3 = c2 + l2;
    let c4 = c3 + q2;
    let c5 = c4 + l3;
    let c6 = c5 + q3;
    let c7 = c6 + l4;
    let c8 = c7 + n1;
    let c9 = c8 + l5;
    let c10 = c9 + q4;
    let c11 = c10 + l6;
    let c12 = c11 + n2;
    let c13 = c12 + l7;
    assert(e == c13);
    assert forall|k: int| 0 <= k < e.len() implies s[i + k] == #[trigger] e[k] by {
        assert(e[k] == s.subrange(i, i + e.len() as int)[k]);
    }
    assert forall|m: int| 0 <= m < c12.len() implies #[trigger] e[m] == c12[m] by {
        assert(e[m] == (c12 + l7)[m]);
    }
    assert forall|m: int| 0 <= m < c11.len() implies #[trigger] e[m] == c11[m] by {
        assert(e[m] == c12[m]);
        assert(c12[m] == (c11 + n2)[m]);
    }
    assert forall|m: int| 0 <= m < c10.len() implies #[trigger] e[m] == c10[m] by {
        assert(e[m] == c11[m]);
        assert(c11[m] == (c10 + l6)[m]);
    }
    assert forall|m: int| 0 <= m < c9.len() implies #[trigger] e[m] == c9[m] by {
        assert(e[m] == c10[m]);
        assert(c10[m] == (c9 + q4)[m]);
    }
    assert forall|m: int| 0 <= m < c8.len() implies #[trigger] e[m] == c8[m] by {
        assert(e[m] == c9[m]);
        assert(c9[m] == (c8 + l5)[m]);
    }
    assert forall|m: int| 0 <= m < c7.len() implies #[trigger] e[m] == c7[m] by {
        assert(e[m] == c8[m]);
        assert(c8[m] == (c7 + n1)[m]);
    }
    assert forall|m: int| 0 <= m < c6.len() implies #[trigger] e[m] == c6[m] by {
        assert(e[m] == c7[m]);
        assert(c7[m] == (c6 + l4)[m]);
    }
    assert forall|m: int| 0 <= m < c5.len() implies #[trigger] e[m] == c5[m] by {
        assert(e[m] == c6[m]);
        assert(c6[m] == (c5 + q3)[m]);
    }
    assert forall|m: int| 0 <= m < c4.len() implies #[trigger] e[m] == c4[m] by {
        assert(e[m] == c5[m]);
        assert(c5[m] == (c4 + l3)[m]);
    }
    assert forall|m: int| 0 <= m < c3.len() implies #[trigger] e[m] == c3[m] by {
        assert(e[m] == c4[m]);
        assert(c4[m] == (c3 + q2)[m]);
    }
    assert forall|m: int| 0 <= m < c2.len() implies #[trigger] e[m] == c2[m] by {
        assert(e[m] == c3[m]);
        assert(c3[m] == (c2 + l2)[m]);
    }
    assert forall|m: int| 0 <= m < c1.len() implies #[trigger] e[m] == c1[m] by {
        assert(e[m] == c2[m]);
        assert(c2[m] == (c1 + q1)[m]);
    }
    assert forall|j: int| 0 <= j < l1.len() implies #[trigger] e[j] == l1[j] by {
        assert(e[j] == c1[j]);
    }
    assert forall|j: int| 0 <= j < q1.len() implies #[trigger] e[c1.len() + j] == q1[j] by {
        assert(e[c1.len() + j] == c2[c1.len() + j]);
        assert(c2[c1.len() + j] == (c1 + q1)[c1.len() + j]);
    }
    assert forall|j: int| 0 <= j < l2.len() implies #[trigger] e[c2.len() + j] == l2[j] by {
        assert(e[c2.len() + j] == c3[c2.len() + j]);
        assert(c3[c2.len() + j] == (c2 + l2)[c2.len() + j]);
    }
    assert forall|j: int| 0 <= j < q2.len() implies #[trigger] e[c3.len() + j] == q2[j] by {
        assert(e[c3.len() + j] == c4[c3.len() + j]);
        assert(c4[c3.len() + j] == (c3 + q2)[c3.len() + j]);
    }
    assert forall|j: int| 0 <= j < l3.len() implies #[trigger] e[c4.len() + j] == l3[j] by {
        assert(e[c4.len() + j] == c5[c4.len() + j]);
        assert(c5[c4.len() + j] == (c4 + l3)[c4.len() + j]);
    }
    assert forall|j: int| 0 <= j < q3.len() implies #[trigger] e[c5.len() + j] == q3[j] by {
        assert(e[c5.len() + j] == c6[c5.len() + j]);
        assert(c6[c5.len() + j] == (c5 + q3)[c5.len() + j]);
    }
    assert forall|j: int| 0 <= j < l4.len() implies #[trigger] e[c6.len() + j] == l4[j] by {
        assert(e[c6.len() + j] == c7[c6.len() + j]);
        assert(c7[c6.len() + j] == (c6 + l4)[c6.len() + j]);
    }
    assert forall|j: int| 0 <= j < n1.len() implies #[trigger] e[c7.len() + j] == n1[j] by {
        assert(e[c7.len() + j] == c8[c7.len() + j]);
        assert(c8[c7.len() + j] == (c7 + n1)[c7.len() + j]);
    }
    assert forall|j: int| 0 <= j < l5.len() implies #[trigger] e[c8.len() + j] == l5[j] by {
        assert(e[c8.len() + j] == c9[c8.len() + j]);
        assert(c9[c8.len() + j] == (c8 + l5)[c8.len() + j]);
    }
    assert forall|j: int| 0 <= j < q4.len() implies #[trigger] e[c9.len() + j] == q4[j] by {
        assert(e[c9.len() + j] == c10[c9.len() + j]);
        assert(c10[c9.len() + j] == (c9 + q4)[c9.len() + j]);
    }
    assert forall|j: int| 0 <= j < l6.len() implies #[trigger] e[c10.len() + j] == l6[j] by {
        assert(e[c10.len() + j] == c11[c10.len() + j]);
        assert(c11[c10.len() + j] == (c10 + l6)[c10.len() + j]);
    }
    assert forall|j: int| 0 <= j < n2.len() implies #[trigger] e[c11.len() + j] == n2[j] by {
        assert(e[c11.len() + j] == c12[c11.len() + j]);
        assert(c12[c11.len() + j] == (c11 + n2)[c11.len() + j]);
    }
    assert forall|j: int| 0 <= j < l7.len() implies #[trigger] e[c12.len() + j] == l7[j] by {
        assert(e[c12.len() + j] == (c12 + l7)[c12.len() + j]);
    }
    assert forall|j: int| 0 <= j < l1.len() implies s.subrange(i, o1)[j] == l1[j] by {
        assert(s.subrange(i, o1)[j] == s[i + j]);
        assert(s[i + j] == e[j]);
    }
    assert(s.subrange(i, o1) =~= l1);
    assert forall|j: int| 0 <= j < q1.len() implies s.subrange(o1, o2)[j] == q1[j] by {
        assert(s.subrange(o1, o2)[j] == s[o1 + j]);
        assert(s[o1 + j] == e[c1.len() + j]);
    }
    assert(s.subrange(o1, o2) =~= q1);
    assert forall|j: int| 0 <= j < l2.len() implies s.subrange(o2, o3)[j] == l2[j] by {
        assert(s.subrange(o2, o3)[j] == s[o2 + j]);
        assert(s[o2 + j] == e[c2.len() + j]);
    }
    assert(s.subrange(o2, o3) =~= l2);
    assert forall|j: int| 0 <= j < q2.len() implies s.subrange(o3, o4)[j] == q2[j] by {
        assert(s.subrange(o3, o4)[j] == s[o3 + j]);
        assert(s[o3 + j] == e[c3.len() + j]);
    }
    assert(s.subrange(o3, o4) =~= q2);
    assert forall|j: int| 0 <= j < l3.len() implies s.subrange(o4, o5)[j] == l3[j] by {
        assert(s.subrange(o4, o5)[j] == s[o4 + j]);
        assert(s[o4 + j] == e[c4.len() + j]);
    }
    assert(s.subrange(o4, o5) =~= l3);
    assert forall|j: int| 0 <= j < q3.len() implies s.subrange(o5, o6)[j] == q3[j] by {
        assert(s.subrange(o5, o6)[j] == s[o5 + j]);
        assert(s[o5 + j] == e[c5.len() + j]);
    }
    assert(s.subrange(o5, o6) =~= q3);
    assert forall|j: int| 0 <= j < l4.len() implies s.subrange(o6, o7)[j] == l4[j] by {
        assert(s.subrange(o6, o7)[j] == s[o6 + j]);
        assert(s[o6 + j] == e[c6.len() + j]);
    }
    assert(s.subrange(o6, o7) =~= l4);
    assert forall|j: int| 0 <= j < n1.len() implies s.subrange(o7, o8)[j] == n1[j] by {
        assert(s.subrange(o7, o8)[j] == s[o7 + j]);
        assert(s[o7 + j] == e[c7.len() + j]);
    }
    assert(s.subrange(o7, o8) =~= n1);
    assert forall|j: int| 0 <= j < l5.len() implies s.subrange(o8, o9)[j] == l5[j] by {
        assert(s.subrange(o8, o9)[j] == s[o8 + j]);
        assert(s[o8 + j] == e[c8.len() + j]);
    }
    assert(s.subrange(o8, o9) =~= l5);
    assert forall|j: int| 0 <= j < q4.len() implies s.subrange(o9, o10)[j] == q4[j] by {
        assert(s.subrange(o9, o10)[j] == s[o9 + j]);
        assert(s[o9 + j] == e[c9.len() + j]);
    }
    assert(s.subrange(o9, o10) =~= q4);
    assert forall|j: int| 0 <= j < l6.len() implies s.subrange(o10, o11)[j] == l6[j] by {
        assert(s.subrange(o10, o11)[j] == s[o10 + j]);
        assert(s[o10 + j] == e[c10.len() + j]);
    }
    assert(s.subrange(o10, o11) =~= l6);
    assert forall|j: int| 0 <= j < n2.len() implies s.subrange(o11, o12)[j] == n2[j] by {
        assert(s.subrange(o11, o12)[j] == s[o11 + j]);
        assert(s[o11 + j] == e[c11.len() + j]);
    }
    assert(s.subrange(o11, o12) =~= n2);
    assert forall|j: int| 0 <= j < l7.len() implies s.subrange(o12, o13)[j] == l7[j] by {
        assert(s.subrange(o12, o13)[j] == s[o12 + j]);
        assert(s[o12 + j] == e[c12.len() + j]);
    }
    assert(s.subrange(o12, o13) =~= l7);
    assert(expect_lit(s, i, l1) == Some(o1));
    lemma_qstr_roundtrip(s, o1, encode_utf8(t.track_uuid));
    assert(expect_lit(s, o2, l2) == Some(o3));
    lemma_qstr_roundtrip(s, o3, encode_utf8(t.track_name));
    assert(expect_lit(s, o4, l3) == Some(o5));
    lemma_qstr_roundtrip(s, o5, encode_utf8(t.artist_name));
    assert(expect_lit(s, o6, l4) == Some(o7));
    proof_comma_byte_thumb(s, o8);
    lemma_num_roundtrip(s, o7, t.track_duration);
    assert(expect_lit(s, o8, l5) == Some(o9));
    lemma_qstr_roundtrip(s, o9, encode_utf8(t.thumbnail_url));
    assert(expect_lit(s, o10, l6) == Some(o11));
    proof_brace_byte(s, o12);
    lemma_num_roundtrip(s, o11, t.track_idx);
    assert(expect_lit(s, o12, l7) == Some(o13));
}

/// After the duration number the thumbnail key follows, whose first
/// byte is a comma, not a digit.
proof fn proof_comma_byte_thumb(s: Seq<u8>, p: int)
    requires
        0 <= p,
        p + ",\"thumbnail_url\":".spec_bytes().len() <= s.len(),
        s.subrange(p, p + ",\"thumbnail_url\":".spec_bytes().len() as int)
            == ",\"thumbnail_url\":".spec_bytes(),
    ensures
        p < s.len(),
        !is_digit(s[p]),
{
    reveal_strlit(",\"thumbnail_url\":");
    let ch = ",\"thumbnail_url\":"@;
    assert(ch[0] == ',');
    assert((ch[0] as u32) < 0x80);
    lemma_ascii_prefix_byte(ch, 0);
    assert(",\"thumbnail_url\":".spec_bytes()[0] == 0x2c);
    assert(s[p] == ",\"thumbnail_url\":".spec_bytes()[0]) by {
        assert(s.subrange(p, p + ",\"thumbnail_url\":".spec_bytes().len() as int)[0] == s[p]);
    }
}

/// After the final number the closing brace follows, not a digit.
proof fn proof_brace_byte(s: Seq<u8>, p: int)
    requires
        0 <= p,
        p + "}".spec_bytes().len() <= s.len(),
        s.subrange(p, p + "}".spec_bytes().len() as int) == "}".spec_bytes(),
    ensures
        p < s.len(),
        !is_digit(s[p]),
{
    reveal_strlit("}");
    let ch = "}"@;
    assert(ch[0] == '}');
    assert((ch[0] as u32) < 0x80);
    lemma_ascii_prefix_byte(ch, 0);
    assert("}".spec_bytes()[0] == 0x7d);
    assert(s[p] == "}".spec_bytes()[0]) by {
        assert(s.subrange(p, p + "}".spec_bytes().len() as int)[0] == s[p]);
    }
}

/// Reads a textual event back into its mathematical image.
pub open spec fn event_json_dec(s: Seq<u8>) -> Option<EventFields> {
    match expect_lit(s, 0, "{\"event\":\"InternalStatus\",\"data\":".spec_bytes()) {
        Some(i) => match qstr_dec(s, i) {
            Some((b, j)) => match expect_lit(s, j, "}".spec_bytes()) {
                Some(end) => if end == s.len() && valid_utf8(b) {
                    Some(EventFields::Status(decode_utf8(b)))
                } else {
                    None
                },
                None => None,
            },
            None => None,
        },
        None => match expect_lit(s, 0, "{\"event\":\"Data\",\"data\":".spec_bytes()) {
            Some(i) => match track_json_dec(s, i) {
                Some((tf, j)) => match expect_lit(s, j, "}".spec_bytes()) {
                    Some(end) => if end == s.len() {
                        Some(EventFields::Track(tf))
                    } else {
                        None
                    },
                    None => None,
                },
                None => None,
            },
            None => None,
        },
    }
}

/// Textual round trip: decoding an encoded domain event reproduces its
/// kind and every payload field, field for field.
pub proof fn lemma_event_json_roundtrip(ev: DomainEvent)
    ensures
        event_json_dec(event_json_enc(ev)) == Some(ev.view_fields()),
{
    broadcast use vstd::utf8::encode_utf8_valid_utf8, vstd::utf8::encode_utf8_decode_utf8;

    let s = event_json_enc(ev);
    let a = "{\"event\":\"InternalStatus\",\"data\":".spec_bytes();
    let d = "{\"event\":\"Data\",\"data\":".spec_bytes();
    match ev {
        DomainEvent::Status(st) => {
            let q = qstr(encode_utf8(st@));
            let b = "}".spec_bytes();
            assert(s == a + q + b);
            assert forall|k: int| 0 <= k < s.len() implies s[k] == ((a + q) + b)[k] by {}
            assert forall|k: int| 0 <= k < a.len() implies s.subrange(0, a.len() as int)[k]
                == a[k] by {
                assert(s[k] == ((a + q) + b)[k]);
                assert(((a + q) + b)[k] == (a + q)[k]);
            }
            assert(s.subrange(0, a.len() as int) =~= a);
            assert(expect_lit(s, 0, a) == Some(a.len() as int));
            let o1 = a.len() as int;
            let o2 = o1 + q.len();
            assert forall|k: int| 0 <= k < q.len() implies s.subrange(o1, o2)[k] == q[k] by {
                assert(s.subrange(o1, o2)[k] == s[o1 + k]);
                assert(s[o1 + k] == ((a + q) + b)[o1 + k]);
                assert(((a + q) + b)[o1 + k] == (a + q)[o1 + k]);
            }
            assert(s.subrange(o1, o2) =~= q);
            lemma_qstr_roundtrip(s, o1, encode_utf8(st@));
            assert forall|k: int| 0 <= k < b.len() implies s.subrange(o2, o2 + b.len() as int)[k]
                == b[k] by {
                assert(s.subrange(o2, o2 + b.len() as int)[k] == s[o2 + k]);
                assert(s[o2 + k] == ((a + q) + b)[o2 + k]);
            }
            assert(s.subrange(o2, o2 + b.len() as int) =~= b);
            assert(expect_lit(s, o2, b) == Some(o2 + b.len() as int));
            assert(o2 + b.len() == s.len());
        },
        DomainEvent::Track(t) => {
            let body = track_json_enc(t.view_fields());
            let b = "}".spec_bytes();
            assert(s == d + body + b);
            assert forall|k: int| 0 <= k < s.len() implies s[k] == ((d + body) + b)[k] by {}
            // the status prefix never matches: the two prefixes differ
            // at the eleventh byte, 'I' against 'D'
            reveal_strlit("{\"event\":\"InternalStatus\",\"data\":");
            reveal_strlit("{\"event\":\"Data\",\"data\":");
            let ach = "{\"event\":\"InternalStatus\",\"data\":"@;
            let dch = "{\"event\":\"Data\",\"data\":"@;
            assert(ach[10] == 'I' && dch[10] == 'D');
            assert forall|j: int| 0 <= j <= 10 implies ((#[trigger] ach[j]) as u32) < 0x80 by {}
            assert forall|j: int| 0 <= j <= 10 implies ((#[trigger] dch[j]) as u32) < 0x80 by {}
            lemma_ascii_prefix_byte(ach, 10);
            lemma_ascii_prefix_byte(dch, 10);
            assert(a[10] == 'I' as u8);
            assert(d[10] == 'D' as u8);
            assert(s[10] == ((d + body) + b)[10]);
            assert(s[10] == 'D' as u8);
            if 0 + a.len() <= s.len() {
                assert(s.subrange(0, a.len() as int)[10] == s[10]);
                assert(s.subrange(0, a.len() as int) != a);
            }
            assert(expect_lit(s, 0, a) is None);
            assert forall|k: int| 0 <= k < d.len() implies s.subrange(0, d.len() as int)[k]
                == d[k] by {
                assert(s[k] == ((d + body) + b)[k]);
                assert(((d + body) + b)[k] == (d + body)[k]);
            }
            assert(s.subrange(0, d.len() as int) =~= d);
            assert(expect_lit(s, 0, d) == Some(d.len() as int));
            let o1 = d.len() as int;
            let o2 = o1 + body.len();
            assert forall|k: int| 0 <= k < body.len() implies s.subrange(o1, o2)[k] == body[k] by {
                assert(s.subrange(o1, o2)[k] == s[o1 + k]);
                assert(s[o1 + k] == ((d + body) + b)[o1 + k]);
                assert(((d + body) + b)[o1 + k] == (d + body)[o1 + k]);
            }
            assert(s.subrange(o1, o2) =~= body);
            lemma_track_json_roundtrip(s, o1, t.view_fields());
            assert forall|k: int| 0 <= k < b.len() implies s.subrange(o2, o2 + b.len() as int)[k]
                == b[k] by {
                assert(s.subrange(o2, o2 + b.len() as int)[k] == s[o2 + k]);
                assert(s[o2 + k] == ((d + body) + b)[o2 + k]);
            }
            assert(s.subrange(o2, o2 + b.len() as int) =~= b);
            assert(expect_lit(s, o2, b) == Some(o2 + b.len() as int));
            assert(o2 + b.len() == s.len());
        },
    }
}

/// Consumes the literal's bytes at `i`, or fails without moving.
fn match_lit(s: &Vec<u8>, i: usize, lit: &str) -> (r: Option<usize>)
    ensures
        match r {
            Some(j) => expect_lit(s@, i as int, lit.spec_bytes()) == Some(j as int) && i <= j
                <= s@.len(),
            None => expect_lit(s@, i as int, lit.spec_bytes()) is None,
        },
{
    let lb = lit.as_bytes_vec();
    let n = lb.len();
    if i > s.len() || n > s.len() - i {
        return None;
    }
    let mut k: usize = 0;
    #[verifier::loop_isolation(false)]
    while k < n
        invariant
            k <= n,
            forall|j: int| 0 <= j < k ==> s@[i + j] == lb@[j],
        decreases n - k,
    {
        if s[i + k] != lb[k] {
            proof {
                assert(s@.subrange(i as int, i + n as int)[k as int] != lb@[k as int]);
            }
            return None;
        }
        k += 1;
    }
    proof {
        assert(s@.subrange(i as int, i + n as int) =~= lb@);
    }
    Some(i + n)
}

/// Appends the escaped form of the given content bytes.
fn push_esc(out: &mut Vec<u8>, b: &Vec<u8>)
    ensures
        final(out)@ == old(out)@ + esc(b@),
{
    let n = b.len();
    let mut i: usize = 0;
    #[verifier::loop_isolation(false)]
    while i < n
        invariant
            i <= n,
            out@ == old(out)@ + esc(b@.subrange(0, i as int)),
        decreases n - i,
    {
        let c = b[i];
        if c == 0x22 {
            out.push(0x5c);
            out.push(0x22);
        } else if c == 0x5c {
            out.push(0x5c);
            out.push(0x5c);
        } else if c < 0x20 {
            out.push(0x5c);
            out.push(0x75);
            out.push(0x30);
            out.push(0x30);
            let hi = c / 16;
            let lo = c % 16;
            out.push(if hi < 10 { 0x30 + hi } else { 0x57 + hi });
            out.push(if lo < 10 { 0x30 + lo } else { 0x57 + lo });
        } else {
            out.push(c);
        }
        i += 1;
        proof {
            let pre = b@.subrange(0, i - 1);
            assert(b@.subrange(0, i as int) =~= pre + seq![c]);
            lemma_esc_add(pre, seq![c]);
            assert(seq![c].drop_first() =~= Seq::<u8>::empty());
            assert(esc(Seq::<u8>::empty()) =~= Seq::<u8>::empty());
            assert(esc(seq![c]) =~= esc_byte(c));
            assert(out@ =~= old(out)@ + esc(b@.subrange(0, i as int)));
        }
    }
    proof {
        assert(b@.subrange(0, n as int) =~= b@);
    }
}

/// Appends a quoted string holding the UTF-8 bytes of `text`.
fn push_qstr(out: &mut Vec<u8>, text: &String)
    ensures
        final(out)@ == old(out)@ + qstr(encode_utf8(text@)),
{
    let b = text.as_str().as_bytes_vec();
    out.push(0x22);
    push_esc(out, &b);
    out.push(0x22);
    proof {
        assert(final(out)@ =~= old(out)@ + qstr(encode_utf8(text@)));
    }
}

/// Appends the decimal digits of `n`, most significant first.
fn push_dec(out: &mut Vec<u8>, n: u64)
    ensures
        final(out)@ == old(out)@ + dec_enc(n as nat),
    decreases n,
{
    if n >= 10 {
        push_dec(out, n / 10);
    }
    out.push(0x30 + ((n % 10) as u8));
    proof {
        if n < 10 {
            assert(dec_enc(n as nat) =~= seq![(0x30 + n) as u8]);
        }
        assert(final(out)@ =~= old(out)@ + dec_enc(n as nat));
    }
}

/// Appends a decimal number, with a leading minus on negatives.
fn push_int(out: &mut Vec<u8>, v: i64)
    ensures
        final(out)@ == old(out)@ + int_enc(v as int),
{
    if v >= 0 {
        push_dec(out, v as u64);
    } else {
        out.push(0x2d);
        let m: u64 = ((-(v + 1)) as u64) + 1;
        proof {
            assert(m as nat == (-(v as int)) as nat);
        }
        push_dec(out, m);
        proof {
            assert(final(out)@ =~= old(out)@ + int_enc(v as int));
        }
    }
}

/// The value folded up by a digit scan never falls below the
/// accumulator it started from.
proof fn lemma_digits_lower(s: Seq<u8>, i: int, acc: nat)
    requires
        0 <= i <= s.len(),
    ensures
        digits_dec(s, i, acc).0 >= acc,
    decreases s.len() - i,
{
    if i < s.len() && is_digit(s[i]) {
        let acc2 = acc * 10 + (s[i] - 0x30) as nat;
        assert(acc2 >= acc) by (nonlinear_arith)
            requires
                acc2 == acc * 10 + (s[i] - 0x30) as nat,
        ;
        lemma_digits_lower(s, i + 1, acc2);
    }
}

/// Reads a signed decimal number at `i`; fails where none starts, and
/// on a value outside the 64-bit signed range.
fn parse_int(s: &Vec<u8>, i: usize) -> (r: Option<(i64, usize)>)
    requires
        i <= s@.len(),
    ensures
        match r {
            Some((v, j)) => num_dec(s@, i as int) == Some((v as int, j as int)) && i < j
                <= s@.len(),
            None => match num_dec(s@, i as int) {
                Some((v, j)) => !(-0x8000000000000000 <= v < 0x8000000000000000),
                None => true,
            },
        },
{
    let neg = i < s.len() && s[i] == 0x2d;
    let d0 = if neg {
        i + 1
    } else {
        i
    };
    if !(d0 < s.len() && 0x30 <= s[d0] && s[d0] <= 0x39) {
        return None;
    }
    let mut p = d0;
    let mut acc: u64 = 0;
    #[verifier::loop_isolation(false)]
    while p < s.len() && 0x30 <= s[p] && s[p] <= 0x39
        invariant
            d0 <= p <= s@.len(),
            digits_dec(s@, d0 as int, 0) == digits_dec(s@, p as int, acc as nat),
        decreases s@.len() - p,
    {
        let d = s[p] - 0x30;
        if acc > (u64::MAX - (d as u64)) / 10 {
            proof {
                let a2 = (acc as nat) * 10 + d as nat;
                assert(a2 > u64::MAX) by (nonlinear_arith)
                    requires
                        acc > (u64::MAX - (d as u64)) / 10,
                        d < 10,
                        a2 == (acc as nat) * 10 + d as nat,
                ;
                lemma_digits_lower(s@, p + 1, a2);
                assert(digits_dec(s@, d0 as int, 0).0 > u64::MAX);
            }
            return None;
        }
        acc = acc * 10 + (d as u64);
        p += 1;
    }
    let j = p;
    if neg {
        if acc > 0x8000000000000000 {
            return None;
        }
        let v: i64 = if acc == 0x8000000000000000 {
            i64::MIN
        } else {
            -(acc as i64)
        };
        proof {
            assert(v as int == -(acc as int));
        }
        Some((v, j))
    } else {
        if acc >= 0x8000000000000000 {
            return None;
        }
        Some((acc as i64, j))
    }
}

/// Writes a track record as a JSON object, every field present.
pub fn encode_track_json(t: &TrackPayload) -> (r: Vec<u8>)
    ensures
        r@ == track_json_enc(t.view_fields()),
{
    let mut out: Vec<u8> = Vec::new();
    crate::text::append_str_bytes(&mut out, "{\"track_uuid\":");
    push_qstr(&mut out, &t.track_uuid);
    crate::text::append_str_bytes(&mut out, ",\"track_name\":");
    push_qstr(&mut out, &t.track_name);
    crate::text::append_str_bytes(&mut out, ",\"artist_name\":");
    push_qstr(&mut out, &t.artist_name);
    crate::text::append_str_bytes(&mut out, ",\"track_duration\":");
    push_int(&mut out, t.track_duration);
    crate::text::append_str_bytes(&mut out, ",\"thumbnail_url\":");
    push_qstr(&mut out, &t.thumbnail_url);
    crate::text::append_str_bytes(&mut out, ",\"track_idx\":");
    push_int(&mut out, t.track_idx);
    crate::text::append_str_bytes(&mut out, "}");
    proof {
        assert(out@ =~= track_json_enc(t.view_fields()));
    }
    out
}

/// Reads a quoted string at `i`, yielding its content bytes.
fn parse_qstr(s: &Vec<u8>, i: usize) -> (r: Option<(Vec<u8>, usize)>)
    requires
        i <= s@.len(),
    ensures
        match r {
            Some((b, j)) => qstr_dec(s@, i as int) == Some((b@, j as int)) && i < j <= s@.len(),
            None => qstr_dec(s@, i as int) is None,
        },
{
    if !(i < s.len() && s[i] == 0x22) {
        return None;
    }
    let ghost start: int = i + 1;
    let mut p = i + 1;
    let mut out: Vec<u8> = Vec::new();
    #[verifier::loop_isolation(false)]
    loop
        invariant
            i + 1 <= p <= s@.len(),
            jstr_dec(s@, start) == (match jstr_dec(s@, p as int) {
                Some((b, j)) => Some((out@ + b, j)),
                None => None::<(Seq<u8>, int)>,
            }),
        decreases s@.len() - p,
    {
        if p >= s.len() {
            return None;
        }
        let c = s[p];
        if c == 0x22 {
            proof {
                assert(out@ + Seq::<u8>::empty() =~= out@);
            }
            return Some((out, p + 1));
        }
        if c == 0x5c {
            if p + 1 < s.len() && (s[p + 1] == 0x22 || s[p + 1] == 0x5c) {
                let ghost o0 = out@;
                out.push(s[p + 1]);
                proof {
                    let b0 = s@[p + 1];
                    assert(out@ =~= o0 + seq![b0]);
                    match jstr_dec(s@, p + 2) {
                        Some((b, j)) => {
                            assert((o0 + seq![b0]) + b =~= o0 + (seq![b0] + b));
                        },
                        None => {},
                    }
                    assert(jstr_dec(s@, start) == (match jstr_dec(s@, p + 2) {
                        Some((b, j)) => Some((out@ + b, j)),
                        None => None::<(Seq<u8>, int)>,
                    }));
                }
                p += 2;
            } else if s.len() - p > 5 && s[p + 1] == 0x75 && s[p + 2] == 0x30 && s[p + 3] == 0x30
                && is_hex_exec(s[p + 4]) && is_hex_exec(s[p + 5]) {
                let hi = hex_val_exec(s[p + 4]);
                let lo = hex_val_exec(s[p + 5]);
                let ghost o0 = out@;
                out.push(hi * 16 + lo);
                proof {
                    let b0 = ((hex_val(s@[p + 4]) * 16 + hex_val(s@[p + 5])) as u8);
                    assert(hi * 16 + lo == b0);
                    assert(out@ =~= o0 + seq![b0]);
                    match jstr_dec(s@, p + 6) {
                        Some((b, j)) => {
                            assert((o0 + seq![b0]) + b =~= o0 + (seq![b0] + b));
                        },
                        None => {},
                    }
                    assert(jstr_dec(s@, start) == (match jstr_dec(s@, p + 6) {
                        Some((b, j)) => Some((out@ + b, j)),
                        None => None::<(Seq<u8>, int)>,
                    }));
                }
                p += 6;
            } else {
                return None;
            }
        } else {
            let ghost o0 = out@;
            out.push(c);
            proof {
                assert(out@ =~= o0 + seq![s@[p as int]]);
                match jstr_dec(s@, p + 1) {
                    Some((b, j)) => {
                        assert((o0 + seq![s@[p as int]]) + b =~= o0 + (seq![s@[p as int]] + b));
                    },
                    None => {},
                }
                assert(jstr_dec(s@, start) == (match jstr_dec(s@, p + 1) {
                    Some((b, j)) => Some((out@ + b, j)),
                    None => None::<(Seq<u8>, int)>,
                }));
            }
            p += 1;
        }
    }
}

fn is_hex_exec(b: u8) -> (r: bool)
    ensures
        r == is_hex(b),
{
    (0x30 <= b && b <= 0x39) || (0x61 <= b && b <= 0x66) || (0x41 <= b && b <= 0x46)
}

fn hex_val_exec(b: u8) -> (r: u8)
    requires
        is_hex(b),
    ensures
        r as nat == hex_val(b),
        r < 16,
{
    if 0x30 <= b && b <= 0x39 {
        b - 0x30
    } else if 0x61 <= b && b <= 0x66 {
        b - 0x57
    } else {
        b - 0x37
    }
}

/// Reads a track object at `i`.
pub fn decode_track_json(s: &Vec<u8>, i: usize) -> (r: Option<(TrackPayload, usize)>)
    requires
        i <= s@.len(),
    ensures
        match r {
            Some((t, j)) => track_json_dec(s@, i as int) == Some((t.view_fields(), j as int)) && i
                < j <= s@.len(),
            None => track_json_dec(s@, i as int) is None,
        },
{
    let i1 = match match_lit(s, i, "{\"track_uuid\":") {
        Some(j) => j,
        None => {
            return None;
        },
    };
    let (uuid_b, i2) = match parse_qstr(s, i1) {
        Some(p) => p,
        None => {
            return None;
        },
    };
    let i3 = match match_lit(s, i2, ",\"track_name\":") {
        Some(j) => j,
        None => {
            return None;
        },
    };
    let (name_b, i4) = match parse_qstr(s, i3) {
        Some(p) => p,
        None => {
            return None;
        },
    };
    let i5 = match match_lit(s, i4, ",\"artist_name\":") {
        Some(j) => j,
        None => {
            return None;
        },
    };
    let (artist_b, i6) = match parse_qstr(s, i5) {
        Some(p) => p,
        None => {
            return None;
        },
    };
    let i7 = match match_lit(s, i6, ",\"track_duration\":") {
        Some(j) => j,
        None => {
            return None;
        },
    };
    let (dur, i8) = match parse_int(s, i7) {
        Some(p) => p,
        None => {
            return None;
        },
    };
    let i9 = match match_lit(s, i8, ",\"thumbnail_url\":") {
        Some(j) => j,
        None => {
            return None;
        },
    };
    let (thumb_b, i10) = match parse_qstr(s, i9) {
        Some(p) => p,
        None => {
            return None;
        },
    };
    let i11 = match match_lit(s, i10, ",\"track_idx\":") {
        Some(j) => j,
        None => {
            return None;
        },
    };
    let (idx, i12) = match parse_int(s, i11) {
        Some(p) => p,
        None => {
            return None;
        },
    };
    let end = match match_lit(s, i12, "}") {
        Some(j) => j,
        None => {
            return None;
        },
    };
    let track_uuid = match crate::text::utf8_to_string(uuid_b) {
        Some(x) => x,
        None => {
            return None;
        },
    };
    let track_name = match crate::text::utf8_to_string(name_b) {
        Some(x) => x,
        None => {
            return None;
        },
    };
    let artist_name = match crate::text::utf8_to_string(artist_b) {
        Some(x) => x,
        None => {
            return None;
        },
    };
    let thumbnail_url = match crate::text::utf8_to_string(thumb_b) {
        Some(x) => x,
        None => {
            return None;
        },
    };
    Some(
        (
            TrackPayload {
                track_uuid,
                track_name,
                artist_name,
                track_duration: dur,
                thumbnail_url,
                track_idx: idx,
            },
            end,
        ),
    )
}

/// Writes a domain event in its textual form.
pub fn encode_event_json(ev: &DomainEvent) -> (r: Vec<u8>)
    ensures
        r@ == event_json_enc(*ev),
{
    let mut out: Vec<u8> = Vec::new();
    match ev {
        DomainEvent::Status(st) => {
            crate::text::append_str_bytes(&mut out, "{\"event\":\"InternalStatus\",\"data\":");
            push_qstr(&mut out, st);
            crate::text::append_str_bytes(&mut out, "}");
        },
        DomainEvent::Track(t) => {
            crate::text::append_str_bytes(&mut out, "{\"event\":\"Data\",\"data\":");
            let body = encode_track_json(t);
            crate::text::append_bytes(&mut out, &body);
            crate::text::append_str_bytes(&mut out, "}");
        },
    }
    proof {
        assert(out@ =~= event_json_enc(*ev));
    }
    out
}

/// Reads a textual event; fails on bytes no event encoder produces.
pub fn decode_event_json(s: &Vec<u8>) -> (r: Option<DomainEvent>)
    ensures
        match r {
            Some(ev) => event_json_dec(s@) == Some(ev.view_fields()),
            None => event_json_dec(s@) is None,
        },
{
    match match_lit(s, 0, "{\"event\":\"InternalStatus\",\"data\":") {
        Some(i) => {
            let (b, j) = match parse_qstr(s, i) {
                Some(p) => p,
                None => {
                    return None;
                },
            };
            let end = match match_lit(s, j, "}") {
                Some(e) => e,
                None => {
                    return None;
                },
            };
            if end != s.len() {
                return None;
            }
            match crate::text::utf8_to_string(b) {
                Some(st) => Some(DomainEvent::Status(st)),
                None => None,
            }
        },
        None => {
            let i = match match_lit(s, 0, "{\"event\":\"Data\",\"data\":") {
                Some(i) => i,
                None => {
                    return None;
                },
            };
            let (t, j) = match decode_track_json(s, i) {
                Some(p) => p,
                None => {
                    return None;
                },
            };
            let end = match match_lit(s, j, "}") {
                Some(e) => e,
                None => {
                    return None;
                },
            };
            if end != s.len() {
                return None;
            }
            Some(DomainEvent::Track(t))
        },
    }
}

} // verus!
