//! Deposit-address derivation: a deterministic, collision-free mapping from a
//! depositor identity (owner principal plus optional 32-byte sub-identity) to
//! a chain deposit address, rooted at the custody public-key identifier.

use vstd::prelude::*;

verus! {

/// Number of bytes in a sub-identity.
pub const SUB_IDENTITY_LEN: usize = 32;

/// A validated depositor identity: the owner principal and a 32-byte
/// sub-identity. A missing sub-identity normalizes to all zeroes, so a
/// `IdentityKey` always carries exactly 32 bytes.
#[derive(Debug)]
pub struct IdentityKey {
    pub owner: u64,
    pub subaccount: Vec<u8>,
}

/// Rejection of a malformed identity before any derivation happens.
#[derive(Clone, Copy, PartialEq, Eq, Structural, Debug)]
pub enum IdentityError {
    MalformedSubIdentity,
}

impl IdentityKey {
    /// A key is well formed when its sub-identity has exactly 32 bytes.
    pub open spec fn wf(&self) -> bool {
        self.subaccount@.len() == SUB_IDENTITY_LEN
    }

    /// Validates the raw identity given by a caller. A missing sub-identity
    /// normalizes to 32 zero bytes; a present one must have exactly 32 bytes.
    pub fn new(owner: u64, subaccount: Option<Vec<u8>>) -> (r: Result<IdentityKey, IdentityError>)
        ensures
            match r {
                Ok(k) => {
                    &&& k.wf()
                    &&& k.owner == owner
                    &&& match subaccount {
                        Some(s) => k.subaccount@ == s@,
                        None => k.subaccount@ =~= Seq::new(SUB_IDENTITY_LEN as nat, |i: int| 0u8),
                    }
                },
                Err(e) => {
                    &&& e == IdentityError::MalformedSubIdentity
                    &&& subaccount is Some
                    &&& subaccount->0@.len() != SUB_IDENTITY_LEN
                },
            },
            r is Ok <==> (subaccount is None || subaccount->0@.len() == SUB_IDENTITY_LEN),
    {
        match subaccount {
            Some(s) => {
                if s.len() == SUB_IDENTITY_LEN {
                    Ok(IdentityKey { owner, subaccount: s })
                } else {
                    Err(IdentityError::MalformedSubIdentity)
                }
            }
            None => {
                let mut zeroes: Vec<u8> = Vec::new();
                let mut i: usize = 0;
                while i < SUB_IDENTITY_LEN
                    invariant
                        i <= SUB_IDENTITY_LEN,
                        zeroes@.len() == i,
                        forall|j: int| 0 <= j < i ==> zeroes@[j] == 0u8,
                    decreases SUB_IDENTITY_LEN - i,
                {
                    zeroes.push(0u8);
                    i += 1;
                }
                assert(zeroes@ =~= Seq::new(SUB_IDENTITY_LEN as nat, |i: int| 0u8));
                Ok(IdentityKey { owner, subaccount: zeroes })
            }
        }
    }
}

/// The eight little-endian bytes of a 64-bit integer.
pub open spec fn u64_le(x: u64) -> Seq<u8> {
    seq![
        ((x >> 0u64) & 0xff) as u8,
        ((x >> 8u64) & 0xff) as u8,
        ((x >> 16u64) & 0xff) as u8,
        ((x >> 24u64) & 0xff) as u8,
        ((x >> 32u64) & 0xff) as u8,
        ((x >> 40u64) & 0xff) as u8,
        ((x >> 48u64) & 0xff) as u8,
        ((x >> 56u64) & 0xff) as u8,
    ]
}

/// Distinct integers have distinct little-endian encodings.
pub proof fn lemma_u64_le_injective(x: u64, y: u64)
    requires
        u64_le(x) == u64_le(y),
    ensures
        x == y,
{
    assert(u64_le(x)[0] == u64_le(y)[0]);
    assert(u64_le(x)[1] == u64_le(y)[1]);
    assert(u64_le(x)[2] == u64_le(y)[2]);
    assert(u64_le(x)[3] == u64_le(y)[3]);
    assert(u64_le(x)[4] == u64_le(y)[4]);
    assert(u64_le(x)[5] == u64_le(y)[5]);
    assert(u64_le(x)[6] == u64_le(y)[6]);
    assert(u64_le(x)[7] == u64_le(y)[7]);
    assert(x == y) by (bit_vector)
        requires
            ((x >> 0u64) & 0xff) as u8 == ((y >> 0u64) & 0xff) as u8,
            ((x >> 8u64) & 0xff) as u8 == ((y >> 8u64) & 0xff) as u8,
            ((x >> 16u64) & 0xff) as u8 == ((y >> 16u64) & 0xff) as u8,
            ((x >> 24u64) & 0xff) as u8 == ((y >> 24u64) & 0xff) as u8,
            ((x >> 32u64) & 0xff) as u8 == ((y >> 32u64) & 0xff) as u8,
            ((x >> 40u64) & 0xff) as u8 == ((y >> 40u64) & 0xff) as u8,
            ((x >> 48u64) & 0xff) as u8 == ((y >> 48u64) & 0xff) as u8,
            ((x >> 56u64) & 0xff) as u8 == ((y >> 56u64) & 0xff) as u8;
}

/// The derivation path that determines a deposit address: the custody key
/// identifier, then the owner principal, then the 32-byte sub-identity.
pub open spec fn spec_derivation_path(custody_key: u64, owner: u64, sub: Seq<u8>) -> Seq<u8> {
    u64_le(custody_key) + u64_le(owner) + sub
}

/// A chain deposit address, represented by the derivation path that produces
/// it. Rendering the path as a textual chain address is the host's concern.
#[derive(Debug)]
pub struct Address {
    pub path: Vec<u8>,
}

impl Address {
    /// An address carries the path of some well-formed identity.
    pub open spec fn wf(&self) -> bool {
        self.path@.len() == 8 + 8 + SUB_IDENTITY_LEN
    }
}

/// Appends the eight little-endian bytes of `x` to `out`.
fn push_u64_le(out: &mut Vec<u8>, x: u64)
    ensures
        final(out)@ == old(out)@ + u64_le(x),
{
    out.push(((x >> 0u64) & 0xff) as u8);
    out.push(((x >> 8u64) & 0xff) as u8);
    out.push(((x >> 16u64) & 0xff) as u8);
    out.push(((x >> 24u64) & 0xff) as u8);
    out.push(((x >> 32u64) & 0xff) as u8);
    out.push(((x >> 40u64) & 0xff) as u8);
    out.push(((x >> 48u64) & 0xff) as u8);
    out.push(((x >> 56u64) & 0xff) as u8);
    assert(out@ =~= old(out)@ + u64_le(x));
}

/// Derives the deposit address of `key` under the custody key identifier.
/// Pure and deterministic; usable before any deposit exists.
pub fn derive_deposit_address(custody_key: u64, key: &IdentityKey) -> (r: Address)
    requires
        key.wf(),
    ensures
        r.path@ == spec_derivation_path(custody_key, key.owner, key.subaccount@),
        r.wf(),
{
    let mut path: Vec<u8> = Vec::new();
    push_u64_le(&mut path, custody_key);
    push_u64_le(&mut path, key.owner);
    let mut i: usize = 0;
    let ghost mid = path@;
    while i < key.subaccount.len()
        invariant
            i <= key.subaccount@.len(),
            path@ == mid + key.subaccount@.subrange(0, i as int),
        decreases key.subaccount@.len() - i,
    {
        let b: u8 = key.subaccount[i];
        path.push(b);
        i += 1;
        assert(path@ =~= mid + key.subaccount@.subrange(0, i as int));
    }
    assert(key.subaccount@.subrange(0, key.subaccount@.len() as int) =~= key.subaccount@);
    Address { path }
}

/// Address uniqueness: distinct identity keys derive distinct addresses under
/// the same custody key. A collision would be a fatal invariant violation; the
/// derivation rules it out.
pub proof fn lemma_derive_address_unique(custody_key: u64, o1: u64, s1: Seq<u8>, o2: u64, s2: Seq<u8>)
    requires
        s1.len() == SUB_IDENTITY_LEN,
        s2.len() == SUB_IDENTITY_LEN,
        o1 != o2 || s1 != s2,
    ensures
        spec_derivation_path(custody_key, o1, s1) != spec_derivation_path(custody_key, o2, s2),
{
    let p1 = spec_derivation_path(custody_key, o1, s1);
    let p2 = spec_derivation_path(custody_key, o2, s2);
    if p1 == p2 {
        assert(u64_le(o1) =~= u64_le(o2)) by {
            assert forall|i: int| 0 <= i < 8 implies u64_le(o1)[i] == u64_le(o2)[i] by {
                assert(p1[8 + i] == u64_le(o1)[i]);
                assert(p2[8 + i] == u64_le(o2)[i]);
            }
        }
        lemma_u64_le_injective(o1, o2);
        assert(s1 =~= s2) by {
            assert forall|i: int| 0 <= i < SUB_IDENTITY_LEN implies s1[i] == s2[i] by {
                assert(p1[16 + i] == s1[i]);
                assert(p2[16 + i] == s2[i]);
            }
        }
        assert(false);
    }
}

} // verus!
