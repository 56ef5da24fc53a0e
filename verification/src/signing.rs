use vstd::prelude::*;
use sha3::{Digest, Keccak256};
use crate::types::{License, PublicKey, ShardId, Signature};

verus! {

broadcast use vstd::array::group_array_axioms;

/// The Keccak-256 digest of `data`, as `sha3::Keccak256` computes it.
pub uninterp spec fn keccak256_digest(data: Seq<u8>) -> Seq<u8>;

/// Calls `sha3::Keccak256::digest` on `data`. Claimed: the 32-byte result is a
/// function of the bytes alone, named `keccak256_digest`; what that function
/// computes is left to the crate.
#[verifier::external_body]
fn keccak256(data: &[u8]) -> (digest: [u8; 32])
    ensures
        digest@ == keccak256_digest(data@),
{
    Keccak256::digest(data).into()
}

/// The `n` low bytes of `x`, least significant first.
pub open spec fn le_bytes(x: nat, n: nat) -> Seq<u8>
    decreases n,
{
    if n == 0 {
        Seq::empty()
    } else {
        seq![(x % 256) as u8] + le_bytes(x / 256, (n - 1) as nat)
    }
}

/// The little-endian encoding of a `u64`.
pub open spec fn u64_le_bytes(x: u64) -> Seq<u8> {
    le_bytes(x as nat, 8)
}

/// The bytes a license's signature covers: shard, node key, then expiry (little-endian).
pub open spec fn license_message(license: License) -> Seq<u8> {
    license.shard_id.0@ + license.node_pubkey.0@ + u64_le_bytes(license.expiry_timestamp)
}

/// The signature a license carries once signed: the digest of its message, twice.
pub open spec fn expected_signature(license: License) -> Seq<u8> {
    keccak256_digest(license_message(license)) + keccak256_digest(license_message(license))
}

/// The little-endian bytes of `x`.
pub fn u64_to_le_bytes(x: u64) -> (bytes: Vec<u8>)
    ensures
        bytes@ == u64_le_bytes(x),
{
    let mut out: Vec<u8> = Vec::new();
    let mut v: u64 = x;
    let mut i: usize = 0;
    assert(out@ + le_bytes(v as nat, 8) =~= le_bytes(x as nat, 8));
    while i < 8
        invariant
            i <= 8,
            out@ + le_bytes(v as nat, (8 - i) as nat) == le_bytes(x as nat, 8),
        decreases 8 - i,
    {
        let ghost before = out@;
        let b: u8 = (v % 256) as u8;
        out.push(b);
        assert(le_bytes(v as nat, (8 - i) as nat) == seq![b] + le_bytes((v / 256) as nat, (8 - i - 1) as nat));
        assert(out@ + le_bytes((v / 256) as nat, (8 - i - 1) as nat) =~= before + le_bytes(v as nat, (8 - i) as nat));
        v = v / 256;
        i = i + 1;
    }
    assert(out@ =~= le_bytes(x as nat, 8));
    out
}

/// Appends `bytes` to `out`.
fn append_bytes(out: &mut Vec<u8>, bytes: &[u8])
    ensures
        final(out)@ == old(out)@ + bytes@,
{
    let n: usize = bytes.len();
    let mut i: usize = 0;
    while i < n
        invariant
            n == bytes@.len(),
            i <= n,
            out@ == old(out)@ + bytes@.subrange(0, i as int),
        decreases n - i,
    {
        out.push(bytes[i]);
        i = i + 1;
        assert(out@ =~= old(out)@ + bytes@.subrange(0, i as int));
    }
    assert(bytes@.subrange(0, n as int) =~= bytes@);
}

/// The bytes that a license's signature covers.
pub fn signing_message(license: &License) -> (message: Vec<u8>)
    ensures
        message@ == license_message(*license),
{
    let mut data: Vec<u8> = Vec::new();
    append_bytes(&mut data, &license.shard_id.0);
    append_bytes(&mut data, &license.node_pubkey.0);
    let expiry = u64_to_le_bytes(license.expiry_timestamp);
    append_bytes(&mut data, expiry.as_slice());
    assert(data@ =~= license_message(*license));
    data
}

/// The signature made of a 32-byte digest: the digest followed by itself.
pub fn signature_from_digest(digest: &[u8; 32]) -> (signature: Signature)
    ensures
        signature.0@ == digest@ + digest@,
{
    let mut sig: [u8; 64] = [0u8; 64];
    let mut i: usize = 0;
    while i < 32
        invariant
            i <= 32,
            forall|j: int| 0 <= j < i ==> sig@[j] == digest@[j] && sig@[j + 32] == digest@[j],
        decreases 32 - i,
    {
        sig[i] = digest[i];
        sig[i + 32] = digest[i];
        i = i + 1;
    }
    assert(sig@ =~= digest@ + digest@);
    Signature(sig)
}

/// Whether the license carries the signature made of `digest`.
pub fn signature_matches_digest(license: &License, digest: &[u8; 32]) -> (matches: bool)
    ensures
        matches == (license.signature.0@ == digest@ + digest@),
{
    let expected = signature_from_digest(digest);
    let matches = license.signature == expected;
    proof {
        if license.signature.0@ == expected.0@ {
            assert(license.signature.0 =~= expected.0);
        }
    }
    matches
}

/// Makes, signs and checks licenses.
pub struct LicenseGenerator;

impl LicenseGenerator {
    /// A license for `node_pubkey` on `shard_id` until `expiry_timestamp`, with an all-zero signature.
    pub fn generate_license(shard_id: ShardId, node_pubkey: PublicKey, expiry_timestamp: u64) -> (license: License)
        ensures
            license.shard_id == shard_id,
            license.node_pubkey == node_pubkey,
            license.expiry_timestamp == expiry_timestamp,
            license.signature.0@ == Seq::new(64, |i: int| 0u8),
    {
        let license = License { shard_id, node_pubkey, expiry_timestamp, signature: Signature([0u8; 64]) };
        assert(license.signature.0@ =~= Seq::new(64, |i: int| 0u8));
        license
    }

    /// Signs the license: its signature becomes the Keccak-256 digest of its
    /// message, twice. The private key takes no part.
    pub fn sign_license(license: &mut License, _private_key: &[u8])
        ensures
            final(license).shard_id == old(license).shard_id,
            final(license).node_pubkey == old(license).node_pubkey,
            final(license).expiry_timestamp == old(license).expiry_timestamp,
            final(license).signature.0@ == expected_signature(*old(license)),
    {
        let data = signing_message(license);
        let digest = keccak256(data.as_slice());
        license.signature = signature_from_digest(&digest);
    }

    /// Whether the license carries the signature that signing it would give.
    /// The public key takes no part.
    pub fn verify_signature(license: &License, _public_key: &PublicKey) -> (valid: bool)
        ensures
            valid == (license.signature.0@ == expected_signature(*license)),
    {
        let data = signing_message(license);
        let digest = keccak256(data.as_slice());
        signature_matches_digest(license, &digest)
    }
}

/// A signed license verifies: signing leaves shard, node key and expiry as
/// they were, so the signature it writes is the one verification expects.
pub proof fn lemma_signed_license_verifies(unsigned: License, signed: License)
    requires
        signed.shard_id == unsigned.shard_id,
        signed.node_pubkey == unsigned.node_pubkey,
        signed.expiry_timestamp == unsigned.expiry_timestamp,
        signed.signature.0@ == expected_signature(unsigned),
    ensures
        signed.signature.0@ == expected_signature(signed),
{
    assert(license_message(signed) == license_message(unsigned));
}

/// `le_bytes(x, n)` has `n` bytes.
pub proof fn lemma_le_bytes_len(x: nat, n: nat)
    ensures
        le_bytes(x, n).len() == n,
    decreases n,
{
    if n > 0 {
        lemma_le_bytes_len(x / 256, (n - 1) as nat);
    }
}

/// 256 to the power `n`.
pub open spec fn pow256(n: nat) -> nat
    decreases n,
{
    if n == 0 {
        1
    } else {
        256 * pow256((n - 1) as nat)
    }
}

/// Below `256^n`, the `n` low bytes of a number determine it.
pub proof fn lemma_le_bytes_injective(x: nat, y: nat, n: nat)
    requires
        x < pow256(n),
        y < pow256(n),
        le_bytes(x, n) == le_bytes(y, n),
    ensures
        x == y,
    decreases n,
{
    if n > 0 {
        let m = (n - 1) as nat;
        assert(le_bytes(x, n)[0] == (x % 256) as u8);
        assert(le_bytes(y, n)[0] == (y % 256) as u8);
        assert(x % 256 == y % 256);
        assert(le_bytes(x / 256, m) =~= le_bytes(x, n).drop_first());
        assert(le_bytes(y / 256, m) =~= le_bytes(y, n).drop_first());
        assert(x / 256 < pow256(m)) by (nonlinear_arith)
            requires
                x < 256 * pow256(m),
        ;
        assert(y / 256 < pow256(m)) by (nonlinear_arith)
            requires
                y < 256 * pow256(m),
        ;
        lemma_le_bytes_injective(x / 256, y / 256, m);
        assert(x == 256 * (x / 256) + x % 256) by (nonlinear_arith);
        assert(y == 256 * (y / 256) + y % 256) by (nonlinear_arith);
    }
}

/// The signed message determines the shard, the node key and the expiry of
/// the license it was made from: no two licenses that differ in one of them
/// share a message.
pub proof fn lemma_message_determines_fields(a: License, b: License)
    requires
        license_message(a) == license_message(b),
    ensures
        a.shard_id == b.shard_id,
        a.node_pubkey == b.node_pubkey,
        a.expiry_timestamp == b.expiry_timestamp,
{
    let ma = license_message(a);
    let mb = license_message(b);
    assert(ma.subrange(0, 32) =~= a.shard_id.0@);
    assert(mb.subrange(0, 32) =~= b.shard_id.0@);
    assert(a.shard_id.0 =~= b.shard_id.0);
    assert(ma.subrange(32, 64) =~= a.node_pubkey.0@);
    assert(mb.subrange(32, 64) =~= b.node_pubkey.0@);
    assert(a.node_pubkey.0 =~= b.node_pubkey.0);
    lemma_le_bytes_len(a.expiry_timestamp as nat, 8);
    lemma_le_bytes_len(b.expiry_timestamp as nat, 8);
    assert(ma.subrange(64, 72) =~= u64_le_bytes(a.expiry_timestamp));
    assert(mb.subrange(64, 72) =~= u64_le_bytes(b.expiry_timestamp));
    assert(pow256(8) == 0x1_0000_0000_0000_0000) by {
        reveal_with_fuel(pow256, 9);
    }
    lemma_le_bytes_injective(a.expiry_timestamp as nat, b.expiry_timestamp as nat, 8);
}

} // verus!
