use vstd::prelude::*;
use vstd::std_specs::cmp::PartialEqSpecImpl;

verus! {

broadcast use vstd::array::group_array_axioms;

/// Compares two byte strings of equal length, byte by byte.
pub fn bytes_equal(a: &[u8], b: &[u8]) -> (r: bool)
    requires
        a@.len() == b@.len(),
    ensures
        r == (a@ == b@),
{
    let n: usize = a.len();
    let mut i: usize = 0;
    while i < n
        invariant
            n == a@.len(),
            n == b@.len(),
            i <= n,
            forall|j: int| 0 <= j < i ==> a@[j] == b@[j],
        decreases n - i,
    {
        if a[i] != b[i] {
            return false;
        }
        i = i + 1;
    }
    assert(a@ =~= b@);
    true
}

/// Identifier of a model shard: 32 raw bytes.
#[derive(Clone, Copy, Debug, Hash)]
pub struct ShardId(pub [u8; 32]);

/// Public key of a node: 32 raw bytes.
#[derive(Clone, Copy, Debug, Hash)]
pub struct PublicKey(pub [u8; 32]);

/// A license signature: 64 raw bytes.
#[derive(Clone, Copy, Debug)]
pub struct Signature(pub [u8; 64]);

impl PartialEq for ShardId {
    fn eq(&self, other: &Self) -> (r: bool) {
        let r = bytes_equal(&self.0, &other.0);
        proof {
            if r {
                assert(self.0 =~= other.0);
            }
        }
        r
    }
}

impl PartialEqSpecImpl for ShardId {
    open spec fn obeys_eq_spec() -> bool {
        true
    }

    open spec fn eq_spec(&self, other: &Self) -> bool {
        *self == *other
    }
}

impl Eq for ShardId {}

impl PartialEq for PublicKey {
    fn eq(&self, other: &Self) -> (r: bool) {
        let r = bytes_equal(&self.0, &other.0);
        proof {
            if r {
                assert(self.0 =~= other.0);
            }
        }
        r
    }
}

impl PartialEqSpecImpl for PublicKey {
    open spec fn obeys_eq_spec() -> bool {
        true
    }

    open spec fn eq_spec(&self, other: &Self) -> bool {
        *self == *other
    }
}

impl Eq for PublicKey {}

impl PartialEq for Signature {
    fn eq(&self, other: &Self) -> (r: bool) {
        let r = bytes_equal(&self.0, &other.0);
        proof {
            if r {
                assert(self.0 =~= other.0);
            }
        }
        r
    }
}

impl PartialEqSpecImpl for Signature {
    open spec fn obeys_eq_spec() -> bool {
        true
    }

    open spec fn eq_spec(&self, other: &Self) -> bool {
        *self == *other
    }
}

impl Eq for Signature {}

/// Authorization for one node to run one shard until a point in time
/// (seconds since the Unix epoch).
#[derive(Clone, Copy, Debug)]
pub struct License {
    pub shard_id: ShardId,
    pub node_pubkey: PublicKey,
    pub expiry_timestamp: u64,
    pub signature: Signature,
}

/// Errors of the licensing layer.
#[derive(Clone, Copy, Debug)]
pub enum AuriaError {
    /// No license is registered for the shard.
    LicenseInvalid(ShardId),
}

/// Result of the licensing layer.
pub type AuriaResult<T> = Result<T, AuriaError>;

/// A license is current at `now` (seconds) while its expiry lies strictly after `now`.
pub open spec fn license_live(license: License, now: u64) -> bool {
    license.expiry_timestamp > now
}

/// A key of a [`crate::keyed::KeyedStore`]: copyable, with an executable equality
/// that agrees with mathematical equality.
pub trait StoreKey: Copy + Sized {
    fn same_key(&self, other: &Self) -> (r: bool)
        ensures
            r == (*self == *other),
    ;
}

impl StoreKey for ShardId {
    fn same_key(&self, other: &Self) -> (r: bool) {
        *self == *other
    }
}

impl StoreKey for PublicKey {
    fn same_key(&self, other: &Self) -> (r: bool) {
        *self == *other
    }
}

} // verus!
