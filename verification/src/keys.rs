//! Typed secret and public keys: a BLS key plus a compile-time role tag.
//!
//! The tag carries no bytes; it only keeps a Helm key and a Data key apart in
//! the type system.  Secret keys remember their public twin, and both sides
//! support deterministic child derivation by a 32-byte index, the secret and
//! the public derivation agreeing on the child's public key.

use vstd::prelude::*;
use core::marker::PhantomData;
use crate::bls::{
    bls_child_pk, bls_child_sk, bls_derive_child_pk, bls_derive_child_sk, bls_pk_of, bls_pk_ok,
    bls_public_key, bls_random_sk, bls_sk_ok,
};

verus! {

/// A role whose secret keys have a Bech32 text form.
pub trait Bech32Secret {
    /// The human-readable prefix of the role's secret keys.
    spec fn hrp_spec() -> Seq<char>;

    /// The human-readable prefix of the role's secret keys.
    fn hrp() -> (r: &'static str)
        ensures r@ == Self::hrp_spec();

    /// The prefix is lowercase letters of codec-accepted length.
    proof fn hrp_valid()
        ensures crate::bech32x::is_valid_hrp(Self::hrp_spec());
}

/// A role whose public keys have a Bech32 text form.
pub trait Bech32Public {
    /// The human-readable prefix of the role's public keys.
    spec fn hrp_spec() -> Seq<char>;

    /// The human-readable prefix of the role's public keys.
    fn hrp() -> (r: &'static str)
        ensures r@ == Self::hrp_spec();

    /// The prefix is lowercase letters of codec-accepted length.
    proof fn hrp_valid()
        ensures crate::bech32x::is_valid_hrp(Self::hrp_spec());
}

/// Marker for roles whose keys may be retired into an audit trail.
pub trait Retirable {}

/// Marker for roles whose keys may be drawn at random.
pub trait AllowRandom {}

/// Marker for values that may be made immutable forever.
pub trait Finalizeable {}

/// The role tag of a key derived for kind `K` under a parent of kind `P`.
pub struct Derived<K, P>(PhantomData<K>, PhantomData<P>);

/// A public BLS key fixed to the role `K`, held in compressed form.
#[verifier::reject_recursive_types(K)]
pub struct TypedPublicKey<K> {
    bytes: Vec<u8>,
    _role: PhantomData<K>,
}

impl<K> View for TypedPublicKey<K> {
    type V = Seq<u8>;

    closed spec fn view(&self) -> Seq<u8> {
        self.bytes@
    }
}

impl<K> TypedPublicKey<K> {
    #[verifier::type_invariant]
    spec fn wf(self) -> bool {
        self.bytes@.len() == 48 && bls_pk_ok(self.bytes@)
    }

    /// The key's 48 compressed point bytes, a valid compressed point.
    pub fn to_bytes(&self) -> (r: Vec<u8>)
        ensures r@ == self@, r@.len() == 48, bls_pk_ok(r@),
    {
        proof { use_type_invariant(self); }
        clone_bytes(&self.bytes)
    }

    /// Accepts exactly the valid compressed 48-byte points.
    pub fn try_from_bytes(bytes: Vec<u8>) -> (r: Result<Self, crate::errors::ArkError>)
        ensures
            match r {
                Ok(k) => k@ == bytes@ && bls_pk_ok(bytes@),
                Err(e) => e == crate::errors::ArkError::BadEncoding && !bls_pk_ok(bytes@),
            },
    {
        if crate::bls::bls_pk_valid(&bytes) {
            Ok(TypedPublicKey { bytes, _role: PhantomData })
        } else {
            Err(crate::errors::ArkError::BadEncoding)
        }
    }

    /// The child public key at the given index: any party holding the parent
    /// public key can predict the derived public key.
    pub fn derive_child<C>(&self, idx: &TypedDerivationIndex<C>) -> (r: TypedPublicKey<C>)
        ensures r@ == bls_child_pk(self@, idx@),
    {
        proof { use_type_invariant(self); }
        TypedPublicKey { bytes: bls_derive_child_pk(&self.bytes, &idx.bytes), _role: PhantomData }
    }

    /// Equality of the underlying points, byte for byte.
    pub fn equals(&self, other: &TypedPublicKey<K>) -> (r: bool)
        ensures r == (self@ == other@),
    {
        eq_bytes(&self.bytes, &other.bytes)
    }
}

impl<K> Clone for TypedPublicKey<K> {
    fn clone(&self) -> (r: Self)
        ensures r@ == self@,
    {
        proof { use_type_invariant(self); }
        TypedPublicKey { bytes: clone_bytes(&self.bytes), _role: PhantomData }
    }
}

/// A secret BLS key fixed to the role `K`, with its public twin beside it.
#[verifier::reject_recursive_types(K)]
pub struct TypedSecretKey<K> {
    bytes: Vec<u8>,
    public: TypedPublicKey<K>,
}

impl<K> View for TypedSecretKey<K> {
    type V = Seq<u8>;

    closed spec fn view(&self) -> Seq<u8> {
        self.bytes@
    }
}

impl<K> TypedSecretKey<K> {
    #[verifier::type_invariant]
    spec fn wf(self) -> bool {
        self.bytes@.len() == 32 && bls_sk_ok(self.bytes@) && self.public@ == bls_pk_of(self.bytes@)
    }

    /// The public twin of this secret key.
    pub fn public_key(&self) -> (r: &TypedPublicKey<K>)
        ensures r@ == bls_pk_of(self@),
    {
        proof { use_type_invariant(self); }
        &self.public
    }

    /// Accepts exactly the canonical 32-byte forms of in-range scalars.
    pub fn try_from_bytes(bytes: Vec<u8>) -> (r: Result<Self, crate::errors::ArkError>)
        ensures
            match r {
                Ok(k) => k@ == bytes@ && bls_sk_ok(bytes@),
                Err(e) => e == crate::errors::ArkError::BadEncoding && !bls_sk_ok(bytes@),
            },
    {
        if crate::bls::bls_sk_valid(&bytes) {
            let public = TypedPublicKey { bytes: bls_public_key(&bytes), _role: PhantomData };
            Ok(TypedSecretKey { bytes, public })
        } else {
            Err(crate::errors::ArkError::BadEncoding)
        }
    }

    /// The secret's 32 scalar bytes, a valid scalar; the caller owns their
    /// zeroization.
    pub fn danger_to_bytes(&self) -> (r: Vec<u8>)
        ensures r@ == self@, r@.len() == 32, bls_sk_ok(r@),
    {
        proof { use_type_invariant(self); }
        clone_bytes(&self.bytes)
    }

    /// The child secret key at the given index.  Parent-public derivation
    /// agrees with parent-secret derivation: the child's public key is the
    /// parent public key's child at the same index.
    pub fn derive_child<C>(&self, idx: &TypedDerivationIndex<C>) -> (r: TypedSecretKey<C>)
        ensures
            r@ == bls_child_sk(self@, idx@),
            bls_pk_of(r@) == bls_child_pk(bls_pk_of(self@), idx@),
    {
        proof { use_type_invariant(self); }
        let bytes = bls_derive_child_sk(&self.bytes, &idx.bytes);
        let public = TypedPublicKey { bytes: bls_public_key(&bytes), _role: PhantomData };
        TypedSecretKey { bytes, public }
    }

    /// Consumes the key and overwrites its secret bytes with zeros.
    pub fn wipe(self) {
        let TypedSecretKey { mut bytes, public: _ } = self;
        fill_zero(&mut bytes);
    }
}

impl<K: AllowRandom> TypedSecretKey<K> {
    /// A freshly drawn secret key for a role that allows it.
    pub fn random() -> (r: Self) {
        let bytes = bls_random_sk();
        let public = TypedPublicKey { bytes: bls_public_key(&bytes), _role: PhantomData };
        TypedSecretKey { bytes, public }
    }
}

impl<K> Clone for TypedSecretKey<K> {
    fn clone(&self) -> (r: Self)
        ensures r@ == self@,
    {
        proof { use_type_invariant(self); }
        TypedSecretKey { bytes: clone_bytes(&self.bytes), public: self.public.clone() }
    }
}

/// A 32-byte derivation index fixed to the role `K` of the key it derives.
#[verifier::reject_recursive_types(K)]
pub struct TypedDerivationIndex<K> {
    bytes: Vec<u8>,
    _role: PhantomData<K>,
}

impl<K> View for TypedDerivationIndex<K> {
    type V = Seq<u8>;

    closed spec fn view(&self) -> Seq<u8> {
        self.bytes@
    }
}

impl<K> TypedDerivationIndex<K> {
    #[verifier::type_invariant]
    spec fn wf(self) -> bool {
        self.bytes@.len() == 32
    }

    /// Wraps 32 bytes as an index.
    pub fn from_bytes(bytes: Vec<u8>) -> (r: Result<Self, crate::errors::ArkError>)
        ensures
            match r {
                Ok(i) => i@ == bytes@ && bytes@.len() == 32,
                Err(e) => e == crate::errors::ArkError::BadEncoding && bytes@.len() != 32,
            },
    {
        if bytes.len() == 32 {
            Ok(TypedDerivationIndex { bytes, _role: PhantomData })
        } else {
            Err(crate::errors::ArkError::BadEncoding)
        }
    }

    /// The index derived from a fixed ASCII path: its content hash, so any
    /// party knowing the path lands on the same index.
    pub fn from_name(name: &str) -> (r: Self)
        ensures r@ == crate::hashing::hash_of_name(name@),
    {
        let bytes = crate::hashing::content_hash(name);
        TypedDerivationIndex { bytes, _role: PhantomData }
    }

    /// A freshly drawn random index.
    pub fn random() -> (r: Self) {
        TypedDerivationIndex { bytes: crate::rnd::random_bytes32(), _role: PhantomData }
    }

    /// The 32 index bytes.
    pub fn to_bytes(&self) -> (r: Vec<u8>)
        ensures r@ == self@, r@.len() == 32,
    {
        proof { use_type_invariant(self); }
        clone_bytes(&self.bytes)
    }
}

impl<K> Clone for TypedDerivationIndex<K> {
    fn clone(&self) -> (r: Self)
        ensures r@ == self@,
    {
        proof { use_type_invariant(self); }
        TypedDerivationIndex { bytes: clone_bytes(&self.bytes), _role: PhantomData }
    }
}

/// A public key together with the moment it stopped being authoritative,
/// the timestamp in seconds.  Ordered by retirement time.
#[verifier::reject_recursive_types(K)]
pub struct RetiredKey<K> {
    key: TypedPublicKey<K>,
    retired_at: u64,
}

impl<K> RetiredKey<K> {
    /// Pairs a public key with its retirement timestamp.
    pub fn new(key: TypedPublicKey<K>, retired_at: u64) -> (r: Self)
        ensures r.key_view() == key@, r.retired_at_spec() == retired_at,
    {
        RetiredKey { key, retired_at }
    }

    /// The bytes of the retired public key.
    pub closed spec fn key_view(&self) -> Seq<u8> {
        self.key@
    }

    /// The retirement timestamp.
    pub closed spec fn retired_at_spec(&self) -> u64 {
        self.retired_at
    }

    /// When the key was retired.
    pub fn retired_at(&self) -> (r: u64)
        ensures r == self.retired_at_spec(),
    {
        self.retired_at
    }

    /// The retired public key itself.
    pub fn into_inner(self) -> (r: TypedPublicKey<K>)
        ensures r@ == self.key_view(),
    {
        self.key
    }

    /// A borrow of the retired public key.
    pub fn inner(&self) -> (r: &TypedPublicKey<K>)
        ensures r@ == self.key_view(),
    {
        &self.key
    }
}

impl<K> Clone for RetiredKey<K> {
    fn clone(&self) -> (r: Self)
        ensures r.key_view() == self.key_view(), r.retired_at_spec() == self.retired_at_spec(),
    {
        RetiredKey { key: self.key.clone(), retired_at: self.retired_at }
    }
}

/// A key of role `K` of which only the public half may be known.
#[verifier::reject_recursive_types(K)]
pub enum EitherKey<K> {
    Secret(TypedSecretKey<K>),
    Public(TypedPublicKey<K>),
}

impl<K> EitherKey<K> {
    /// The public key, whichever half is held.
    pub fn public_key(&self) -> (r: &TypedPublicKey<K>)
        ensures
            match self {
                EitherKey::Secret(sk) => r@ == bls_pk_of(sk@),
                EitherKey::Public(pk) => r@ == pk@,
            },
    {
        match self {
            EitherKey::Secret(sk) => sk.public_key(),
            EitherKey::Public(pk) => pk,
        }
    }
}

/// Copies a byte vector.
pub fn clone_bytes(v: &Vec<u8>) -> (r: Vec<u8>)
    ensures r@ == v@,
{
    let mut out: Vec<u8> = Vec::new();
    let mut i: usize = 0;
    while i < v.len()
        invariant i <= v.len(), out@ == v@.take(i as int),
        decreases v.len() - i,
    {
        out.push(v[i]);
        proof { assert(v@.take(i + 1int) =~= v@.take(i as int).push(v@[i as int])); }
        i += 1;
    }
    proof { assert(v@.take(v@.len() as int) =~= v@); }
    out
}

/// Byte-for-byte equality of two byte vectors.
pub fn eq_bytes(a: &Vec<u8>, b: &Vec<u8>) -> (r: bool)
    ensures r == (a@ == b@),
{
    if a.len() != b.len() {
        proof {
            assert(a@.len() != b@.len());
        }
        return false;
    }
    let mut i: usize = 0;
    while i < a.len()
        invariant
            i <= a.len(),
            a@.len() == b@.len(),
            forall|j: int| 0 <= j < i ==> a@[j] == b@[j],
        decreases a.len() - i,
    {
        if a[i] != b[i] {
            return false;
        }
        i += 1;
    }
    proof { assert(a@ =~= b@); }
    true
}

/// Overwrites every byte with zero, keeping the length.
pub fn fill_zero(v: &mut Vec<u8>)
    ensures
        final(v)@.len() == old(v)@.len(),
        forall|j: int| 0 <= j < final(v)@.len() ==> final(v)@[j] == 0,
{
    let n = v.len();
    let mut i: usize = 0;
    while i < n
        invariant
            i <= n,
            v@.len() == n,
            forall|j: int| 0 <= j < i ==> v@[j] == 0,
        decreases n - i,
    {
        v.set(i, 0);
        i += 1;
    }
}

} // verus!
