use vstd::prelude::*;

verus! {

/// Little-endian base-128 encoding of an unsigned value: seven value
/// bits per byte, high bit set on every byte but the last.
pub open spec fn varint_enc(n: nat) -> Seq<u8>
    decreases n,
{
    if n < 0x80 {
        seq![n as u8]
    } else {
        seq![(n % 0x80 + 0x80) as u8] + varint_enc(n / 0x80)
    }
}

/// Reads one base-128 value at position `i`; yields the value and the
/// position after it.
pub open spec fn varint_dec(s: Seq<u8>, i: int) -> Option<(nat, int)>
    decreases s.len() - i,
    when 0 <= i <= s.len()
{
    if !(0 <= i < s.len()) {
        None
    } else if s[i] < 0x80 {
        Some((s[i] as nat, i + 1))
    } else {
        match varint_dec(s, i + 1) {
            Some((rest, j)) => Some((((s[i] - 0x80) as nat + 0x80 * rest) as nat, j)),
            None => None,
        }
    }
}

/// Decoding reads back exactly the value a varint encoded, and stops
/// right after its last byte.
pub proof fn lemma_varint_roundtrip(s: Seq<u8>, i: int, n: nat)
    requires
        0 <= i,
        i + varint_enc(n).len() <= s.len(),
        s.subrange(i, i + varint_enc(n).len() as int) == varint_enc(n),
    ensures
        varint_dec(s, i) == Some((n, i + varint_enc(n).len())),
    decreases n,
{
    let e = varint_enc(n);
    if n < 0x80 {
        assert(s[i] == e[0]);
        assert(e[0] == n as u8);
    } else {
        assert(s[i] == e[0]);
        assert(e[0] == (n % 0x80 + 0x80) as u8);
        assert(0x80 <= e[0] < 0x100);
        let tail = varint_enc(n / 0x80);
        assert forall|k: int| 0 <= k < e.len() implies s[i + k] == #[trigger] e[k] by {
            assert(e[k] == s.subrange(i, i + e.len() as int)[k]);
        }
        assert forall|k: int| 0 <= k < tail.len() implies s.subrange(
            i + 1,
            i + 1 + tail.len() as int,
        )[k] == tail[k] by {
            assert(tail[k] == e[k + 1]);
            assert(s[i + 1 + k] == e[k + 1]);
        }
        assert(s.subrange(i + 1, i + 1 + tail.len() as int) =~= tail);
        lemma_varint_roundtrip(s, i + 1, n / 0x80);
        assert((s[i] - 0x80) as nat == n % 0x80);
        assert(n % 0x80 + 0x80 * (n / 0x80) == n) by {
            vstd::arithmetic::div_mod::lemma_fundamental_div_mod(n as int, 0x80);
        }
    }
}

/// A varint is never empty, and its last byte is below 0x80.
pub proof fn lemma_varint_enc_len(n: nat)
    ensures
        varint_enc(n).len() >= 1,
    decreases n,
{
    if n >= 0x80 {
        lemma_varint_enc_len(n / 0x80);
    }
}

/// Appends the varint encoding of `n`.
pub fn encode_varint(out: &mut Vec<u8>, n: u64)
    ensures
        final(out)@ == old(out)@ + varint_enc(n as nat),
{
    let mut x = n;
    #[verifier::loop_isolation(false)]
    while x >= 0x80
        invariant
            out@ + varint_enc(x as nat) =~= old(out)@ + varint_enc(n as nat),
        decreases x,
    {
        let b: u8 = ((x % 0x80) + 0x80) as u8;
        out.push(b);
        proof {
            assert(varint_enc(x as nat) =~= seq![b] + varint_enc((x as nat) / 0x80));
            assert((x as nat) / 0x80 == (x / 0x80) as nat);
        }
        x = x / 0x80;
    }
    out.push(x as u8);
    proof {
        assert(varint_enc(x as nat) =~= seq![x as u8]);
        assert(final(out)@ =~= old(out)@ + varint_enc(n as nat));
    }
}

/// Reads one varint from `s` at position `i`. Fails where no varint
/// starts there, and on a value that does not fit in 64 bits.
pub fn decode_varint(s: &Vec<u8>, i: usize) -> (r: Option<(u64, usize)>)
    requires
        i <= s@.len(),
    ensures
        match r {
            Some((v, j)) => varint_dec(s@, i as int) == Some((v as nat, j as int)) && i < j
                <= s@.len(),
            None => match varint_dec(s@, i as int) {
                Some((v, j)) => v > u64::MAX,
                None => true,
            },
        },
    decreases s@.len() - i,
{
    if i >= s.len() {
        return None;
    }
    let b = s[i];
    if b < 0x80 {
        Some((b as u64, i + 1))
    } else {
        match decode_varint(s, i + 1) {
            None => None,
            Some((rest, j)) => {
                let low: u64 = (b - 0x80) as u64;
                if rest <= (u64::MAX - low) / 0x80 {
                    proof {
                        assert(low + 0x80 * (rest as nat) <= u64::MAX) by (nonlinear_arith)
                            requires
                                rest <= (u64::MAX - low) / 0x80,
                                low < 0x80,
                        ;
                    }
                    Some((low + 0x80 * rest, j))
                } else {
                    proof {
                        assert(low + 0x80 * (rest as nat) > u64::MAX) by (nonlinear_arith)
                            requires
                                rest > (u64::MAX - low) / 0x80,
                                low < 0x80,
                        ;
                    }
                    None
                }
            },
        }
    }
}

} // verus!
