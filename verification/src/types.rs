//! Basic data types shared by every subprotocol.

use vstd::prelude::*;

verus! {

/// Identifies the blockchain that a message or certificate belongs to.
pub type ChainID = u64;

/// A logical clock value that replicas advance through.
pub type ViewNumber = u64;

/// Number of blocks between a block and the genesis block.
pub type BlockHeight = u64;

/// The voting power of a single validator.
pub type Power = u64;

/// The sum of the voting powers of a set of validators.
pub type TotalPower = u128;

/// A SHA-256 digest.
pub type CryptoHash = [u8; 32];

/// The bytes of an Ed25519 verifying (public) key.
pub type VerifyingKeyBytes = [u8; 32];

/// The bytes of an Ed25519 signing (secret) key.
pub type SigningKeyBytes = [u8; 32];

/// The bytes of an Ed25519 signature.
pub type SignatureBytes = [u8; 64];

/// One item of a block's data.
pub type Datum = Vec<u8>;

/// The data carried by a block.
pub type Data = Vec<Datum>;

/// The number of data items in a block.
pub type DataLen = u32;

/// Whether two 32-byte strings (hashes or public keys) hold the same bytes.
pub fn bytes32_eq(a: &[u8; 32], b: &[u8; 32]) -> (eq: bool)
    ensures
        eq == (a@ == b@),
{
    let mut i: usize = 0;
    while i < 32
        invariant
            0 <= i <= 32,
            a@.len() == 32,
            b@.len() == 32,
            forall|j: int| 0 <= j < i ==> a@[j] == b@[j],
        decreases 32 - i,
    {
        if a[i] != b[i] {
            return false;
        }
        i = i + 1;
    }
    assert(a@ =~= b@);
    true
}

/// Whether two 64-byte strings (signatures) hold the same bytes.
pub fn bytes64_eq(a: &[u8; 64], b: &[u8; 64]) -> (eq: bool)
    ensures
        eq == (a@ == b@),
{
    let mut i: usize = 0;
    while i < 64
        invariant
            0 <= i <= 64,
            a@.len() == 64,
            b@.len() == 64,
            forall|j: int| 0 <= j < i ==> a@[j] == b@[j],
        decreases 64 - i,
    {
        if a[i] != b[i] {
            return false;
        }
        i = i + 1;
    }
    assert(a@ =~= b@);
    true
}

/// Whether two byte strings hold the same bytes.
pub fn bytes_eq(a: &[u8], b: &[u8]) -> (eq: bool)
    ensures
        eq == (a@ == b@),
{
    if a.len() != b.len() {
        assert(a@.len() != b@.len());
        return false;
    }
    let mut i: usize = 0;
    while i < a.len()
        invariant
            0 <= i <= a@.len(),
            a@.len() == b@.len(),
            forall|j: int| 0 <= j < i ==> a@[j] == b@[j],
        decreases a@.len() - i,
    {
        if a[i] != b[i] {
            return false;
        }
        i = i + 1;
    }
    assert(a@ =~= b@);
    true
}

/// A copy of `a`.
pub fn copy_bytes(a: &[u8]) -> (v: Vec<u8>)
    ensures
        v@ == a@,
{
    let mut v: Vec<u8> = Vec::new();
    let mut i: usize = 0;
    while i < a.len()
        invariant
            0 <= i <= a@.len(),
            v@ == a@.take(i as int),
        decreases a@.len() - i,
    {
        v.push(a[i]);
        i = i + 1;
        assert(v@ =~= a@.take(i as int));
    }
    assert(v@ =~= a@);
    v
}

} // verus!
