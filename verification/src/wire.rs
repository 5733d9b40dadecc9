//! Message framing for the wire: the leading magic marker, the resource
//! bound that rejects a declared length larger than the bytes that actually
//! remain — checked before anything is allocated, so a crafted length cannot
//! drive allocation — and the length-prefixed byte payload built on both.

use vstd::prelude::*;
use crate::error::Error;
use crate::leb::{leb_bytes, leb_parse, read_leb128, write_leb128};

verus! {

/// The four magic bytes every message opens with.
pub open spec fn magic_seq() -> Seq<u8> {
    seq![0x44u8, 0x49u8, 0x44u8, 0x4Cu8]
}

/// Checks the magic marker at the front of a message and returns the
/// position just past it. Succeeds exactly when the buffer opens with the
/// four magic bytes; anything else is a `Format` error.
pub fn check_magic(bytes: &[u8]) -> (r: Result<usize, Error>)
    ensures
        match r {
            Ok(p) => {
                &&& p == 4
                &&& bytes@.len() >= 4
                &&& bytes@.subrange(0, 4) == magic_seq()
            },
            Err(e) => {
                &&& e is Format
                &&& (bytes@.len() < 4 || bytes@.subrange(0, 4) != magic_seq())
            },
        },
{
    if bytes.len() < 4 {
        return Err(Error::Format("message shorter than the magic marker".to_owned()));
    }
    if bytes[0] == 0x44 && bytes[1] == 0x49 && bytes[2] == 0x44 && bytes[3] == 0x4C {
        proof {
            assert(bytes@.subrange(0, 4) =~= magic_seq());
        }
        Ok(4)
    } else {
        proof {
            if bytes@.subrange(0, 4) == magic_seq() {
                assert(bytes@.subrange(0, 4)[0] == bytes@[0]);
                assert(bytes@.subrange(0, 4)[1] == bytes@[1]);
                assert(bytes@.subrange(0, 4)[2] == bytes@[2]);
                assert(bytes@.subrange(0, 4)[3] == bytes@[3]);
            }
        }
        Err(Error::Format("magic marker mismatch".to_owned()))
    }
}

/// Admits a declared element or byte count only when that many items could
/// still fit in the unread remainder of the buffer: succeeds, returning the
/// count as a usize, exactly when `declared` is at most the bytes remaining
/// past `pos`. The check runs before any allocation, so a length forged to
/// exceed the message cannot reserve memory.
pub fn guard_declared_len(bytes: &[u8], pos: usize, declared: u64) -> (r: Result<usize, Error>)
    requires
        pos <= bytes@.len(),
    ensures
        match r {
            Ok(n) => {
                &&& n == declared
                &&& pos + n <= bytes@.len()
            },
            Err(e) => {
                &&& e is Format
                &&& declared > bytes@.len() - pos
            },
        },
{
    let remaining: usize = bytes.len() - pos;
    if declared > remaining as u64 {
        Err(Error::Format("declared length exceeds the bytes that remain".to_owned()))
    } else {
        Ok(declared as usize)
    }
}

proof fn lemma_leb_parse_len_positive(s: Seq<u8>)
    ensures
        match leb_parse(s) {
            Some(pr) => pr.1 >= 1,
            None => true,
        },
    decreases s.len(),
{
    if s.len() > 0 && s[0] >= 128 {
        lemma_leb_parse_len_positive(s.skip(1));
    }
}

/// Appends a length-prefixed byte payload: the count as an unsigned
/// variable-length integer, then the bytes themselves. This is the payload
/// shape of text, blob and principal values.
pub fn write_blob(buf: &mut Vec<u8>, data: &[u8])
    ensures
        final(buf)@ == old(buf)@ + leb_bytes(data@.len() as nat) + data@,
{
    let n: usize = data.len();
    write_leb128(buf, n as u64);
    let ghost mid = buf@;
    let mut i: usize = 0;
    while i < n
        invariant
            n == data@.len(),
            i <= n,
            buf@ =~= mid + data@.take(i as int),
        decreases n - i,
    {
        buf.push(data[i]);
        proof {
            assert(buf@ =~= mid + data@.take(i + 1));
        }
        i = i + 1;
    }
    proof {
        assert(data@.take(n as int) =~= data@);
        assert(buf@ =~= old(buf)@ + leb_bytes(data@.len() as nat) + data@);
    }
}

/// Reads a length-prefixed byte payload at `pos`. Succeeds exactly when a
/// well-formed length starts there and that many bytes remain; the length is
/// held against the remaining buffer before the payload is copied, so a
/// forged count fails without allocation.
pub fn read_blob(bytes: &[u8], pos: usize) -> (r: Result<(Vec<u8>, usize), Error>)
    requires
        pos <= bytes@.len(),
    ensures
        match r {
            Ok(vp) => match leb_parse(bytes@.skip(pos as int)) {
                Some(pr) => {
                    &&& pr.0 == vp.0@.len()
                    &&& vp.1 == pos + pr.1 + pr.0
                    &&& vp.1 <= bytes@.len()
                    &&& vp.0@ == bytes@.subrange(vp.1 - pr.0, vp.1 as int)
                },
                None => false,
            },
            Err(e) => {
                &&& e is Format
                &&& match leb_parse(bytes@.skip(pos as int)) {
                    Some(pr) => pos + pr.1 + pr.0 > bytes@.len(),
                    None => true,
                }
            },
        },
{
    // the buffer's length fits a usize, so a count past 64 bits always
    // exceeds it
    let total: usize = bytes.len();
    match read_leb128(bytes, pos) {
        Err(e) => {
            proof {
                lemma_leb_parse_len_positive(bytes@.skip(pos as int));
                assert(bytes@.len() == total);
            }
            Err(e)
        },
        Ok((declared, after_len)) => {
            match guard_declared_len(bytes, after_len, declared) {
                Err(e) => Err(e),
                Ok(n) => {
                    let payload = vstd::slice::slice_subrange(bytes, after_len, after_len + n);
                    let data = vstd::slice::slice_to_vec(payload);
                    Ok((data, after_len + n))
                },
            }
        },
    }
}

/// A length-prefixed payload reads back as itself: after the encoded
/// count, which parses to exactly the payload's length, the next that many
/// bytes are the payload, whatever follows. This is the general statement
/// behind `write_blob` and `read_blob`.
pub proof fn lemma_blob_roundtrip(data: Seq<u8>, rest: Seq<u8>)
    ensures
        leb_parse(leb_bytes(data.len()) + data + rest)
            == Some((data.len(), leb_bytes(data.len()).len() as int)),
        (leb_bytes(data.len()) + data + rest).subrange(
            leb_bytes(data.len()).len() as int,
            (leb_bytes(data.len()).len() + data.len()) as int) == data,
{
    let prefix = leb_bytes(data.len());
    crate::leb::lemma_leb_roundtrip(data.len(), data + rest);
    assert(prefix + data + rest =~= prefix + (data + rest));
    assert((prefix + data + rest).subrange(
        prefix.len() as int, (prefix.len() + data.len()) as int) =~= data);
}

} // verus!
