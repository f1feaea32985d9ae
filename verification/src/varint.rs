//! Variable-length unsigned integer encoding: little-endian base 128, seven
//! data bits per byte, high bit as continuation flag, minimal encoding (the
//! final byte of a multi-byte encoding is never zero). This is the bit-exact
//! binary contract used both for record length prefixes and for blob ids.

use vstd::prelude::*;

verus! {

/// The encoding of `n`: least significant seven bits first, continuation bit
/// set on every byte but the last.
pub open spec fn venc(n: nat) -> Seq<u8>
    decreases n,
{
    if n < 128 {
        seq![n as u8]
    } else {
        seq![(n % 128 + 128) as u8] + venc(n / 128)
    }
}

/// Number of bytes in the encoding of `n`.
pub open spec fn venc_len(n: nat) -> nat {
    venc(n).len()
}

/// Largest value whose encoding may still begin at byte index `idx` of a
/// varint that must describe a 64-bit quantity: a varint spans at most ten
/// bytes, and the tenth byte carries the single remaining bit.
pub open spec fn vbound(idx: nat) -> nat
    decreases 9 - idx,
{
    if idx >= 9 {
        1
    } else {
        127 + 128 * vbound(idx + 1)
    }
}

/// Decoding a varint whose byte at position `idx` (within the varint itself)
/// is the head of `s`: the decoded value and the number of bytes consumed.
/// Rejected: an empty or truncated input, a non-minimal encoding (a final
/// zero byte after at least one continuation byte), and any encoding that
/// does not fit in 64 bits.
pub open spec fn vdec_at(s: Seq<u8>, idx: nat) -> Option<(nat, nat)>
    decreases s.len(),
{
    if s.len() == 0 {
        None
    } else {
        let b = s[0];
        if b < 128 {
            if b == 0 && idx > 0 {
                None
            } else if idx == 9 && b > 1 {
                None
            } else {
                Some((b as nat, 1 as nat))
            }
        } else {
            if idx >= 9 {
                None
            } else {
                match vdec_at(s.skip(1), idx + 1) {
                    None => None,
                    Some((v, c)) => Some((((b - 128) as nat + 128 * v) as nat, (c + 1) as nat)),
                }
            }
        }
    }
}

/// Decoding one complete varint from the head of `s`.
pub open spec fn vdec(s: Seq<u8>) -> Option<(nat, nat)> {
    vdec_at(s, 0)
}

pub proof fn lemma_vbound_u64()
    ensures
        vbound(0) == u64::MAX,
{
    assert(vbound(9) == 1);
    assert(vbound(8) == 255);
    assert(vbound(7) == 32767);
    assert(vbound(6) == 4194303);
    assert(vbound(5) == 536870911);
    assert(vbound(4) == 68719476735);
    assert(vbound(3) == 8796093022207);
    assert(vbound(2) == 1125899906842623);
    assert(vbound(1) == 144115188075855871);
    assert(vbound(0) == 18446744073709551615);
}

pub proof fn lemma_vbound_le_head(idx: nat)
    ensures
        vbound(idx) <= vbound(0),
    decreases idx,
{
    if idx > 0 {
        lemma_vbound_le_head((idx - 1) as nat);
        assert(vbound((idx - 1) as nat) >= vbound(idx));
    }
}

/// A decoded value at position `idx` fits below `vbound(idx)`, and decoding
/// consumes at least one and at most all of the bytes.
pub proof fn lemma_vdec_bound(s: Seq<u8>, idx: nat)
    requires
        idx <= 9,
    ensures
        vdec_at(s, idx) matches Some(p) ==> p.0 <= vbound(idx) && 1 <= p.1 <= s.len(),
    decreases s.len(),
{
    if s.len() > 0 {
        let b = s[0];
        if b < 128 {
            if idx < 9 {
                assert(vbound(idx) == 127 + 128 * vbound(idx + 1));
            }
        } else if idx < 9 {
            lemma_vdec_bound(s.skip(1), idx + 1);
            assert(vbound(idx) == 127 + 128 * vbound(idx + 1));
        }
    }
}

/// Decoding looks only at the bytes it consumes: appending anything after a
/// decodable varint changes neither the value nor the count.
pub proof fn lemma_vdec_extend(s: Seq<u8>, t: Seq<u8>, idx: nat)
    ensures
        vdec_at(s, idx) matches Some(p) ==> vdec_at(s + t, idx) == Some(p),
    decreases s.len(),
{
    if s.len() > 0 && vdec_at(s, idx) is Some {
        assert((s + t)[0] == s[0]);
        let b = s[0];
        if b >= 128 {
            lemma_vdec_extend(s.skip(1), t, idx + 1);
            assert(s.skip(1) + t =~= (s + t).skip(1));
        }
    }
}

/// Round trip at an arbitrary byte position: a minimally encoded value small
/// enough for position `idx` decodes back to itself, whatever follows it.
pub proof fn lemma_vdec_venc_at(n: nat, rest: Seq<u8>, idx: nat)
    requires
        idx <= 9,
        n <= vbound(idx),
        idx > 0 ==> n >= 1,
    ensures
        vdec_at(venc(n) + rest, idx) == Some((n, venc(n).len())),
    decreases n,
{
    let s = venc(n) + rest;
    if n < 128 {
        assert(venc(n) == seq![n as u8]);
        assert(s[0] == n as u8);
        if idx == 9 {
            assert(vbound(9) == 1);
        }
        assert(vdec_at(s, idx) == Some((n, 1 as nat)));
        assert(venc(n).len() == 1);
    } else {
        assert(vbound(idx) >= 128 ==> idx < 9) by {
            if idx == 9 {
                assert(vbound(9) == 1);
            }
        }
        assert(vbound(idx) == 127 + 128 * vbound(idx + 1));
        vstd::arithmetic::div_mod::lemma_fundamental_div_mod(n as int, 128);
        // n <= 127 + 128 * vbound(idx + 1) and n == 128 * (n / 128) + n % 128
        // force n / 128 <= vbound(idx + 1).
        assert(n / 128 <= vbound(idx + 1)) by {
            if n / 128 > vbound(idx + 1) {
                assert(128 * (n / 128) >= 128 * (vbound(idx + 1) + 1));
            }
        }
        assert(n / 128 >= 1) by {
            if n / 128 == 0 {
                assert(n == 128 * (n / 128) + n % 128);
            }
        }
        lemma_vdec_venc_at(n / 128, rest, idx + 1);
        let b = (n % 128 + 128) as u8;
        assert(s[0] == b);
        assert(venc(n / 128) + rest =~= s.skip(1));
        assert((b - 128) as nat + 128 * (n / 128) == n);
        assert(venc(n).len() == 1 + venc(n / 128).len());
    }
}

/// Round trip for any 64-bit value: decoding starts over the encoding and
/// returns exactly the value and its encoded length.
pub proof fn lemma_vdec_venc(n: nat, rest: Seq<u8>)
    requires
        n <= u64::MAX,
    ensures
        vdec(venc(n) + rest) == Some((n, venc(n).len())),
{
    lemma_vbound_u64();
    lemma_vdec_venc_at(n, rest, 0);
}

/// Encodes `n` in the varint format.
pub fn encode_varint(n: u64) -> (out: Vec<u8>)
    ensures
        out@ == venc(n as nat),
    decreases n,
{
    let mut out: Vec<u8> = Vec::new();
    if n < 128 {
        out.push(n as u8);
        proof {
            assert(out@ =~= venc(n as nat));
        }
    } else {
        out.push((n % 128 + 128) as u8);
        proof {
            vstd::arithmetic::div_mod::lemma_fundamental_div_mod(n as int, 128);
        }
        let mut rest = encode_varint(n / 128);
        out.append(&mut rest);
        proof {
            assert(out@ =~= venc(n as nat));
        }
    }
    out
}

fn decode_at(bytes: &[u8], from: usize, idx: u64) -> (r: Option<(u64, usize)>)
    requires
        from <= bytes@.len(),
        idx <= 9,
    ensures
        ({
            let d = vdec_at(bytes@.skip(from as int), idx as nat);
            match d {
                None => r is None,
                Some((v, c)) => r == Some((v as u64, c as usize)) && v <= u64::MAX && from + c
                    <= bytes@.len(),
            }
        }),
    decreases 9 - idx,
{
    let ghost s = bytes@.skip(from as int);
    if from == bytes.len() {
        return None;
    }
    let b = bytes[from];
    proof {
        assert(s[0] == bytes@[from as int]);
    }
    if b < 128 {
        if b == 0 && idx > 0 {
            None
        } else if idx == 9 && b > 1 {
            None
        } else {
            proof {
                lemma_vbound_u64();
            }
            Some((b as u64, 1))
        }
    } else {
        if idx == 9 {
            None
        } else {
            proof {
                assert(s.skip(1) =~= bytes@.skip(from as int + 1));
            }
            match decode_at(bytes, from + 1, idx + 1) {
                None => None,
                Some((v, c)) => {
                    proof {
                        lemma_vdec_bound(bytes@.skip(from as int + 1), idx as nat + 1);
                        lemma_vbound_le_head(idx as nat + 1);
                        lemma_vbound_u64();
                        assert(128 * (v as nat) <= 128 * vbound(idx as nat + 1));
                        assert(vbound(idx as nat) == 127 + 128 * vbound(idx as nat + 1));
                        lemma_vbound_le_head(idx as nat);
                    }
                    let value = (b - 128) as u64 + 128 * v;
                    Some((value, c + 1))
                },
            }
        }
    }
}

/// Decodes one varint starting at byte `from` of `bytes`; returns the value
/// and the number of bytes consumed, or `None` where no complete varint that
/// fits in 64 bits starts there.
pub fn decode_varint(bytes: &[u8], from: usize) -> (r: Option<(u64, usize)>)
    requires
        from <= bytes@.len(),
    ensures
        ({
            let d = vdec(bytes@.skip(from as int));
            match d {
                None => r is None,
                Some((v, c)) => r == Some((v as u64, c as usize)) && v <= u64::MAX && from + c
                    <= bytes@.len(),
            }
        }),
{
    decode_at(bytes, from, 0)
}

} // verus!
