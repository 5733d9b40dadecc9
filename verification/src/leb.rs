//! Variable-length integer codec: unsigned values in base-128 little-endian
//! groups with a continuation bit per byte; signed values in the same
//! grouping with two's-complement sign extension taken from the top bit of
//! the final group. The readers bound what they consume by the remaining
//! buffer and reject malformed or overlong encodings.

use vstd::prelude::*;
use crate::error::Error;

verus! {

/// The unique minimal base-128 encoding of an unsigned value: low group
/// first, continuation bit set on every byte but the last.
pub open spec fn leb_bytes(v: nat) -> Seq<u8>
    decreases v,
{
    if v < 128 {
        seq![v as u8]
    } else {
        seq![(v % 128 + 128) as u8] + leb_bytes(v / 128)
    }
}

/// What a strict reader makes of the front of `s`: the decoded value and the
/// number of bytes it occupies, or nothing if no well-formed minimal
/// encoding starts there. A final group of zero after a continuation byte is
/// overlong and rejected.
pub open spec fn leb_parse(s: Seq<u8>) -> Option<(nat, int)>
    decreases s.len(),
{
    if s.len() == 0 {
        None
    } else if s[0] < 128 {
        Some((s[0] as nat, 1int))
    } else {
        match leb_parse(s.skip(1)) {
            None => None,
            Some(pr) => if pr.0 == 0 {
                None
            } else {
                Some(((pr.0 * 128 + s[0] - 128) as nat, pr.1 + 1))
            },
        }
    }
}

/// Unsigned encode and decode are mutually inverse: the encoding of any
/// value, followed by anything at all, reads back as exactly that value,
/// consuming exactly the encoding's bytes.
pub proof fn lemma_leb_roundtrip(v: nat, rest: Seq<u8>)
    ensures
        leb_parse(leb_bytes(v) + rest) == Some((v, leb_bytes(v).len() as int)),
    decreases v,
{
    let s = leb_bytes(v) + rest;
    if v < 128 {
        assert(s[0] == v as u8);
    } else {
        lemma_leb_roundtrip(v / 128, rest);
        assert(s.skip(1) =~= leb_bytes(v / 128) + rest);
        assert(s[0] == (v % 128 + 128) as u8);
        vstd::arithmetic::div_mod::lemma_fundamental_div_mod(v as int, 128);
    }
}

/// Appends the base-128 encoding of `value` to `buf`.
pub fn write_leb128(buf: &mut Vec<u8>, value: u64)
    ensures
        final(buf)@ == old(buf)@ + leb_bytes(value as nat),
    decreases value,
{
    if value < 128 {
        buf.push(value as u8);
        proof {
            assert(buf@ =~= old(buf)@ + leb_bytes(value as nat));
        }
    } else {
        buf.push((value % 128 + 128) as u8);
        write_leb128(buf, value / 128);
        proof {
            assert(buf@ =~= old(buf)@ + leb_bytes(value as nat));
        }
    }
}

/// Reads a base-128 unsigned value from `bytes` at `pos`. Succeeds exactly
/// when a well-formed minimal encoding of a value that fits in 64 bits
/// starts there; never consumes past the end of the buffer.
pub fn read_leb128(bytes: &[u8], pos: usize) -> (r: Result<(u64, usize), Error>)
    requires
        pos <= bytes@.len(),
    ensures
        match r {
            Ok(vp) => {
                &&& leb_parse(bytes@.skip(pos as int)) == Some((vp.0 as nat, vp.1 - pos))
                &&& pos < vp.1 <= bytes@.len()
            },
            Err(e) => {
                &&& e is Format
                &&& match leb_parse(bytes@.skip(pos as int)) {
                    None => true,
                    Some(pr) => pr.0 > u64::MAX,
                }
            },
        },
    decreases bytes@.len() - pos,
{
    if pos >= bytes.len() {
        return Err(Error::Format("unexpected end of message".to_owned()));
    }
    let b: u8 = bytes[pos];
    if b < 128 {
        Ok((b as u64, pos + 1))
    } else {
        proof {
            assert(bytes@.skip(pos as int).skip(1) =~= bytes@.skip(pos + 1));
        }
        match read_leb128(bytes, pos + 1) {
            Err(e) => Err(e),
            Ok((v, p)) => {
                if v == 0 {
                    Err(Error::Format("overlong unsigned encoding".to_owned()))
                } else if v > (u64::MAX - (b - 128) as u64) / 128 {
                    proof {
                        let g: int = b - 128;
                        vstd::arithmetic::div_mod::lemma_fundamental_div_mod(
                            u64::MAX - g, 128);
                    }
                    Err(Error::Format("unsigned value does not fit in 64 bits".to_owned()))
                } else {
                    proof {
                        let g: int = b - 128;
                        vstd::arithmetic::div_mod::lemma_fundamental_div_mod(
                            u64::MAX - g, 128);
                    }
                    Ok((v * 128 + (b - 128) as u64, p))
                }
            },
        }
    }
}

/// The unique minimal signed base-128 encoding: low group first, the top bit
/// of the final 7-bit group gives the sign, earlier groups carry the
/// continuation bit. Division here is Euclidean, so `v % 128` is the group's
/// two's-complement low bits.
pub open spec fn sleb_bytes(v: int) -> Seq<u8>
    decreases (if v < 0 { -v } else { v }),
{
    if -64 <= v && v < 64 {
        seq![(v % 128) as u8]
    } else {
        seq![((v % 128) + 128) as u8] + sleb_bytes(v / 128)
    }
}

/// Strict signed reader: the value and byte count of the minimal signed
/// encoding at the front of `s`, or nothing. An encoding whose final group
/// merely repeats the sign of the one before it is overlong and rejected.
pub open spec fn sleb_parse(s: Seq<u8>) -> Option<(int, int)>
    decreases s.len(),
{
    if s.len() == 0 {
        None
    } else if s[0] < 64 {
        Some((s[0] as int, 1int))
    } else if s[0] < 128 {
        Some((s[0] - 128, 1int))
    } else {
        match sleb_parse(s.skip(1)) {
            None => None,
            Some(pr) => if (pr.0 == 0 && s[0] - 128 < 64) || (pr.0 == -1 && s[0] - 128 >= 64) {
                None
            } else {
                Some((pr.0 * 128 + (s[0] - 128), pr.1 + 1))
            },
        }
    }
}

/// Signed encode and decode are mutually inverse: the signed encoding of any
/// value, followed by anything, reads back as exactly that value (the
/// sign-extension rule loses nothing), consuming exactly its own bytes.
pub proof fn lemma_sleb_roundtrip(v: int, rest: Seq<u8>)
    ensures
        sleb_parse(sleb_bytes(v) + rest) == Some((v, sleb_bytes(v).len() as int)),
    decreases (if v < 0 { -v } else { v }),
{
    let s = sleb_bytes(v) + rest;
    if -64 <= v && v < 64 {
        assert(s[0] == (v % 128) as u8);
        if v < 0 {
            vstd::arithmetic::div_mod::lemma_fundamental_div_mod_converse(
                v, 128, -1, v + 128);
        } else {
            vstd::arithmetic::div_mod::lemma_small_mod(v as nat, 128);
        }
    } else {
        lemma_sleb_roundtrip(v / 128, rest);
        assert(s.skip(1) =~= sleb_bytes(v / 128) + rest);
        assert(s[0] == ((v % 128) + 128) as u8);
        vstd::arithmetic::div_mod::lemma_fundamental_div_mod(v, 128);
    }
}

/// Appends the signed base-128 encoding of `value` to `buf`.
pub fn write_sleb128(buf: &mut Vec<u8>, value: i64)
    ensures
        final(buf)@ == old(buf)@ + sleb_bytes(value as int),
{
    write_sleb_groups(buf, value as i128);
}

fn write_sleb_groups(buf: &mut Vec<u8>, v: i128)
    requires
        -0x8000_0000_0000_0000 <= v < 0x8000_0000_0000_0000,
    ensures
        final(buf)@ == old(buf)@ + sleb_bytes(v as int),
    decreases (if v < 0 { -(v as int) } else { v as int }),
{
    if -64 <= v && v < 64 {
        let byte: u8 = if v >= 0 {
            v as u8
        } else {
            (v + 128) as u8
        };
        proof {
            if v < 0 {
                vstd::arithmetic::div_mod::lemma_fundamental_div_mod_converse(
                    v as int, 128, -1, v + 128);
            } else {
                vstd::arithmetic::div_mod::lemma_small_mod(v as nat, 128);
            }
        }
        buf.push(byte);
        proof {
            assert(buf@ =~= old(buf)@ + sleb_bytes(v as int));
        }
    } else {
        let q: i128;
        let m: i128;
        if v >= 0 {
            let w: u128 = v as u128;
            q = (w / 128) as i128;
            m = (w % 128) as i128;
        } else {
            let w: u128 = (-v) as u128;
            let r: u128 = w % 128;
            if r == 0 {
                q = -((w / 128) as i128);
                m = 0;
            } else {
                q = -((w / 128) as i128) - 1;
                m = (128 - r) as i128;
            }
        }
        proof {
            if v < 0 {
                let w: int = -(v as int);
                vstd::arithmetic::div_mod::lemma_fundamental_div_mod(w, 128);
            }
            vstd::arithmetic::div_mod::lemma_fundamental_div_mod_converse(
                v as int, 128, q as int, m as int);
        }
        buf.push((m + 128) as u8);
        write_sleb_groups(buf, q);
        proof {
            assert(buf@ =~= old(buf)@ + sleb_bytes(v as int));
        }
    }
}

/// Reads a signed base-128 value from `bytes` at `pos`. Succeeds exactly
/// when a well-formed minimal signed encoding of a value that fits in 64
/// bits starts there.
pub fn read_sleb128(bytes: &[u8], pos: usize) -> (r: Result<(i64, usize), Error>)
    requires
        pos <= bytes@.len(),
    ensures
        match r {
            Ok(vp) => {
                &&& sleb_parse(bytes@.skip(pos as int)) == Some((vp.0 as int, vp.1 - pos))
                &&& pos < vp.1 <= bytes@.len()
            },
            Err(e) => {
                &&& e is Format
                &&& match sleb_parse(bytes@.skip(pos as int)) {
                    None => true,
                    Some(pr) => pr.0 > i64::MAX || pr.0 < i64::MIN,
                }
            },
        },
    decreases bytes@.len() - pos,
{
    if pos >= bytes.len() {
        return Err(Error::Format("unexpected end of message".to_owned()));
    }
    let b: u8 = bytes[pos];
    if b < 64 {
        Ok((b as i64, pos + 1))
    } else if b < 128 {
        Ok((b as i64 - 128, pos + 1))
    } else {
        proof {
            assert(bytes@.skip(pos as int).skip(1) =~= bytes@.skip(pos + 1));
        }
        match read_sleb128(bytes, pos + 1) {
            Err(e) => Err(e),
            Ok((v, p)) => {
                let g: i64 = (b - 128) as i64;
                if (v == 0 && g < 64) || (v == -1 && g >= 64) {
                    Err(Error::Format("overlong signed encoding".to_owned()))
                } else {
                    let total: i128 = (v as i128) * 128 + (g as i128);
                    if total > i64::MAX as i128 || total < i64::MIN as i128 {
                        Err(Error::Format("signed value does not fit in 64 bits".to_owned()))
                    } else {
                        Ok((total as i64, p))
                    }
                }
            },
        }
    }
}

/// `width`-byte little-endian image of a value below `pow256(width)`.
pub open spec fn le_bytes(v: nat, n: nat) -> Seq<u8>
    decreases n,
{
    if n == 0 {
        Seq::empty()
    } else {
        seq![(v % 256) as u8] + le_bytes(v / 256, (n - 1) as nat)
    }
}

/// 256 to the power `n`: the count of values a `n`-byte field can hold.
pub open spec fn pow256(n: nat) -> nat
    decreases n,
{
    if n == 0 {
        1
    } else {
        256 * pow256((n - 1) as nat)
    }
}

/// Appends the `width`-byte little-endian image of `value` to `buf`; used
/// for the sized number kinds whose payload is fixed-width rather than
/// variable-length.
pub fn write_le_bytes(buf: &mut Vec<u8>, value: u64, width: usize)
    requires
        width <= 8,
        (value as nat) < pow256(width as nat),
    ensures
        final(buf)@ == old(buf)@ + le_bytes(value as nat, width as nat),
    decreases width,
{
    if width == 0 {
        proof {
            assert(buf@ =~= old(buf)@ + le_bytes(value as nat, 0));
        }
    } else {
        buf.push((value % 256) as u8);
        proof {
            vstd::arithmetic::div_mod::lemma_fundamental_div_mod(value as int, 256);
        }
        write_le_bytes(buf, value / 256, width - 1);
        proof {
            assert(buf@ =~= old(buf)@ + le_bytes(value as nat, width as nat));
        }
    }
}

proof fn lemma_pow256_mono(a: nat, b: nat)
    requires
        a <= b,
    ensures
        pow256(a) <= pow256(b),
    decreases b,
{
    if a < b {
        lemma_pow256_mono(a, (b - 1) as nat);
        assert(pow256(b) == 256 * pow256((b - 1) as nat));
    }
}

/// Reads exactly `width` little-endian bytes at `pos`; succeeds exactly when
/// that many bytes remain.
pub fn read_le_bytes(bytes: &[u8], pos: usize, width: usize) -> (r: Result<(u64, usize), Error>)
    requires
        pos <= bytes@.len(),
        width <= 8,
    ensures
        match r {
            Ok(vp) => {
                &&& pos + width <= bytes@.len()
                &&& vp.1 == pos + width
                &&& (vp.0 as nat) < pow256(width as nat)
                &&& le_bytes(vp.0 as nat, width as nat)
                    == bytes@.subrange(pos as int, vp.1 as int)
            },
            Err(e) => e is Format && pos + width > bytes@.len(),
        },
    decreases width,
{
    if width == 0 {
        proof {
            assert(le_bytes(0, 0) =~= bytes@.subrange(pos as int, pos as int));
        }
        Ok((0, pos))
    } else if pos >= bytes.len() {
        Err(Error::Format("unexpected end of message".to_owned()))
    } else {
        let b: u8 = bytes[pos];
        match read_le_bytes(bytes, pos + 1, width - 1) {
            Err(e) => Err(e),
            Ok((v, p)) => {
                proof {
                    lemma_pow256_mono((width - 1) as nat, 7);
                    assert(pow256(7) == 0x100000000000000) by {
                        reveal_with_fuel(pow256, 9);
                    }
                }
                let total: u64 = v * 256 + b as u64;
                proof {
                    vstd::arithmetic::div_mod::lemma_fundamental_div_mod_converse(
                        total as int, 256, v as int, b as int);
                    assert(le_bytes(total as nat, width as nat)
                        =~= bytes@.subrange(pos as int, p as int));
                }
                Ok((total, p))
            },
        }
    }
}

} // verus!
