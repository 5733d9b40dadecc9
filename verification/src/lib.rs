//! Building blocks of a binary interface-description wire codec: the label
//! hash that turns field and variant names into 32-bit wire identifiers, the
//! variable-length number codec the wire format rests on, structural type
//! descriptors whose constructors reject sibling hash collisions, the
//! type-name environment that resolves named (and so recursive) references,
//! and the framing guards the decode path applies to untrusted bytes.

use vstd::prelude::*;

pub mod env;
pub mod error;
pub mod leb;
pub mod types;
pub mod wire;

verus! {

use vstd::string::StringSliceAdditionalSpecFns;

/// The label hash: fold left over the bytes of the name,
/// `s = s * 223 + b (mod 2^32)`, starting from zero.
pub open spec fn idl_hash_spec(bytes: Seq<u8>) -> u32
    decreases bytes.len(),
{
    if bytes.len() == 0 {
        0u32
    } else {
        (((idl_hash_spec(bytes.drop_last()) as nat) * 223 + bytes.last() as nat)
            % 0x1_0000_0000) as u32
    }
}

/// Deterministic 32-bit hash of a field or variant label; every component of
/// the codec maps names to wire identifiers through this single function, so
/// the result depends on the label's bytes alone.
pub fn idl_hash(id: &str) -> (r: u32)
    ensures
        r == idl_hash_spec(id.spec_bytes()),
{
    let bytes = id.as_bytes();
    let mut s: u32 = 0;
    let mut i: usize = 0;
    while i < bytes.len()
        invariant
            i <= bytes@.len(),
            bytes@ == id.spec_bytes(),
            s == idl_hash_spec(bytes@.take(i as int)),
        decreases bytes@.len() - i,
    {
        let b = bytes[i];
        let m = s.wrapping_mul(223);
        proof {
            let r: int = 0x1_0000_0000;
            let p: int = (s as nat * 223) as int;
            vstd::arithmetic::div_mod::lemma_add_mod_noop(p, b as int, r);
            vstd::arithmetic::div_mod::lemma_small_mod(b as nat, r as nat);
            if m + b >= r {
                vstd::arithmetic::div_mod::lemma_mod_sub_multiples_vanish(m + b, r);
                vstd::arithmetic::div_mod::lemma_small_mod((m + b - r) as nat, r as nat);
            } else {
                vstd::arithmetic::div_mod::lemma_small_mod((m + b) as nat, r as nat);
            }
            assert(bytes@.take(i + 1).drop_last() =~= bytes@.take(i as int));
            assert(bytes@.take(i + 1).last() == bytes@[i as int]);
        }
        s = m.wrapping_add(b as u32);
        i = i + 1;
    }
    proof {
        assert(bytes@.take(bytes@.len() as int) =~= bytes@);
    }
    s
}

} // verus!
