//! The keyring: the ordered history of a role's secret keys, addressed by
//! their public keys.
//!
//! Persisting the full history of Data keys is what keeps ciphertext
//! written under any past Data key readable after rotations.  The ring
//! serializes under a magic header, and deserializing a serialized ring
//! gives the same ring back.

use vstd::prelude::*;
use crate::bls::{bls_child_sk, bls_decrypt_spec, bls_pk_of, bls_sk_ok, bls_decrypt};
use crate::errors::ArkError;
use crate::keys::{TypedDerivationIndex, TypedPublicKey, TypedSecretKey};
use crate::wire::{
    Reader, deserialize_with_header, enc_u32, push_u32, push_raw, serialize_with_header, unframe,
    framed, lemma_frame_roundtrip, lemma_u32_roundtrip,
};

verus! {

/// The magic header of a serialized keyring.
pub open spec fn ring_magic() -> Seq<u8> {
    seq![
        0x61u8, 0x72u8, 0x6bu8, 0x5fu8, 0x6bu8, 0x65u8, 0x79u8, 0x5fu8,
        0x72u8, 0x69u8, 0x6eu8, 0x67u8, 0x5fu8, 0x76u8, 0x30u8, 0x30u8,
    ]
}

/// The magic header of a serialized keyring.
pub fn ring_magic_bytes() -> (r: Vec<u8>)
    ensures r@ == ring_magic(),
{
    let out: Vec<u8> = vec![
        0x61u8, 0x72u8, 0x6bu8, 0x5fu8, 0x6bu8, 0x65u8, 0x79u8, 0x5fu8,
        0x72u8, 0x69u8, 0x6eu8, 0x67u8, 0x5fu8, 0x76u8, 0x30u8, 0x30u8,
    ];
    proof { assert(out@ =~= ring_magic()); }
    out
}

/// The concatenation of the ring's 32-byte secret keys, oldest first.
pub open spec fn enc_keys(ks: Seq<Seq<u8>>) -> Seq<u8>
    decreases ks.len(),
{
    if ks.len() == 0 {
        Seq::empty()
    } else {
        ks[0] + enc_keys(ks.skip(1))
    }
}

pub proof fn lemma_enc_keys_len(ks: Seq<Seq<u8>>)
    requires forall|i: int| 0 <= i < ks.len() ==> (#[trigger] ks[i]).len() == 32,
    ensures enc_keys(ks).len() == 32 * ks.len(),
    decreases ks.len(),
{
    if ks.len() > 0 {
        lemma_enc_keys_len(ks.skip(1));
    }
}

/// Key `i` occupies bytes `32 * i` to `32 * i + 32` of the concatenation.
pub proof fn lemma_enc_keys_index(ks: Seq<Seq<u8>>, i: int)
    requires
        forall|j: int| 0 <= j < ks.len() ==> (#[trigger] ks[j]).len() == 32,
        0 <= i < ks.len(),
    ensures
        enc_keys(ks).subrange(32 * i, 32 * i + 32) == ks[i],
    decreases i,
{
    lemma_enc_keys_len(ks);
    lemma_enc_keys_len(ks.skip(1));
    if i == 0 {
        assert(enc_keys(ks).subrange(0, 32) =~= ks[0]);
    } else {
        lemma_enc_keys_index(ks.skip(1), i - 1);
        assert(enc_keys(ks).subrange(32 * i, 32 * i + 32)
            =~= enc_keys(ks.skip(1)).subrange(32 * (i - 1), 32 * (i - 1) + 32));
    }
}

/// The full serialized form: the magic header, the count, the keys.
pub open spec fn ring_bytes(ks: Seq<Seq<u8>>) -> Seq<u8> {
    framed(ring_magic(), enc_u32(ks.len() as u32) + enc_keys(ks))
}

/// What parsing serialized bytes yields: the keys exactly when the header,
/// the count and the length line up.
pub open spec fn parse_ring(data: Seq<u8>) -> Option<Seq<Seq<u8>>> {
    match unframe(ring_magic(), data) {
        Option::None => Option::None,
        Option::Some(p) => {
            if p.len() < 4 {
                Option::None
            } else {
                let n = crate::wire::dec_u32(p.take(4)) as int;
                if p.len() == 4 + 32 * n {
                    Option::Some(Seq::new(n as nat, |i: int| p.subrange(4 + 32 * i, 36 + 32 * i)))
                } else {
                    Option::None
                }
            }
        }
    }
}

/// Round trip: parsing a serialized ring gives the ring back.
pub proof fn lemma_ring_roundtrip(ks: Seq<Seq<u8>>)
    requires
        forall|i: int| 0 <= i < ks.len() ==> (#[trigger] ks[i]).len() == 32,
        ks.len() < 4294967296,
    ensures
        parse_ring(ring_bytes(ks)) == Some(ks),
{
    let p = enc_u32(ks.len() as u32) + enc_keys(ks);
    lemma_frame_roundtrip(ring_magic(), p);
    lemma_enc_keys_len(ks);
    assert(p.take(4) =~= enc_u32(ks.len() as u32));
    lemma_u32_roundtrip(ks.len() as u32);
    let parsed = Seq::new(ks.len() as nat, |i: int| p.subrange(4 + 32 * i, 36 + 32 * i));
    assert forall|i: int| 0 <= i < ks.len() implies parsed[i] == ks[i] by {
        lemma_enc_keys_index(ks, i);
        assert(p.subrange(4 + 32 * i, 36 + 32 * i)
            =~= enc_keys(ks).subrange(32 * i, 32 * i + 32));
    }
    assert(parsed =~= ks);
}

/// What trying each ring key on a ciphertext in order yields: the first
/// key that decrypts wins; a ring where none decrypts reports
/// `WrongRecipient`.
pub open spec fn ring_open(ks: Seq<Seq<u8>>, ct: Seq<u8>) -> Result<Seq<u8>, ArkError>
    decreases ks.len(),
{
    if ks.len() == 0 {
        Err(ArkError::WrongRecipient)
    } else {
        match bls_decrypt_spec(ks[0], ct) {
            Option::Some(p) => Ok(p),
            Option::None => ring_open(ks.skip(1), ct),
        }
    }
}

/// Whether some key in a sequence of secret keys has this public key.
pub open spec fn contains_pk(ks: Seq<Seq<u8>>, pk: Seq<u8>) -> bool {
    exists|i: int| 0 <= i < ks.len() && bls_pk_of(#[trigger] ks[i]) == pk
}

/// No two keys in the sequence share a public key.
pub open spec fn unique_secret_pks(ks: Seq<Seq<u8>>) -> bool {
    forall|i: int, j: int| 0 <= i < j < ks.len()
        ==> bls_pk_of(#[trigger] ks[i]) != bls_pk_of(#[trigger] ks[j])
}

/// An ordered collection of secret keys of role `K`, oldest first,
/// addressed by their public keys: no two entries share one.
#[verifier::reject_recursive_types(K)]
pub struct KeyRing<K> {
    keys: Vec<TypedSecretKey<K>>,
}

impl<K> View for KeyRing<K> {
    type V = Seq<Seq<u8>>;

    closed spec fn view(&self) -> Seq<Seq<u8>> {
        self.keys@.map_values(|k: TypedSecretKey<K>| k@)
    }
}

impl<K> KeyRing<K> {
    #[verifier::type_invariant]
    spec fn wf(self) -> bool {
        unique_secret_pks(self@)
    }
}

impl<K> KeyRing<K> {
    /// The empty ring.
    pub fn new() -> (r: Self)
        ensures r@ == Seq::<Seq<u8>>::empty(),
    {
        let r = KeyRing { keys: Vec::new() };
        proof { assert(r@ =~= Seq::<Seq<u8>>::empty()); }
        r
    }

    /// How many keys the ring holds.
    pub fn len(&self) -> (r: usize)
        ensures r == self@.len(),
    {
        self.keys.len()
    }

    /// Whether the ring holds no key.
    pub fn is_empty(&self) -> (r: bool)
        ensures r == (self@.len() == 0),
    {
        self.keys.len() == 0
    }

    /// Appends a key as the newest entry, unless one with the same
    /// public key is already held; reports whether the key went in.
    pub fn push(&mut self, key: TypedSecretKey<K>) -> (r: bool)
        ensures
            r == !contains_pk(old(self)@, bls_pk_of(key@)),
            r ==> final(self)@ == old(self)@.push(key@),
            !r ==> *final(self) == *old(self),
    {
        proof { use_type_invariant(&*self); }
        let present = match self.get(key.public_key()) {
            Some(_) => true,
            None => false,
        };
        if present {
            return false;
        }
        let mut ks: Vec<TypedSecretKey<K>> = Vec::new();
        core::mem::swap(&mut self.keys, &mut ks);
        let ghost pre = ks@.map_values(|k: TypedSecretKey<K>| k@);
        ks.push(key);
        proof {
            assert(ks@.map_values(|k: TypedSecretKey<K>| k@) =~= pre.push(key@));
            assert forall|i: int, j: int| 0 <= i < j < pre.push(key@).len()
                implies bls_pk_of(#[trigger] pre.push(key@)[i])
                    != bls_pk_of(#[trigger] pre.push(key@)[j]) by {
                if j == pre.len() {
                    assert(pre.push(key@)[i] == pre[i]);
                }
            }
        }
        self.keys = ks;
        proof {
            assert(self@ =~= old(self)@.push(key@));
        }
        true
    }

    /// The key at a position, oldest first.
    pub fn index(&self, i: usize) -> (r: &TypedSecretKey<K>)
        requires i < self@.len(),
        ensures r@ == self@[i as int],
    {
        &self.keys[i]
    }

    /// The first key whose public key matches, if any.
    pub fn get(&self, public_key: &TypedPublicKey<K>) -> (r: Option<&TypedSecretKey<K>>)
        ensures
            match r {
                Some(k) => exists|i: int| 0 <= i < self@.len() && self@[i] == k@
                    && bls_pk_of(k@) == public_key@,
                None => forall|i: int| 0 <= i < self@.len()
                    ==> bls_pk_of(#[trigger] self@[i]) != public_key@,
            },
    {
        let mut i: usize = 0;
        while i < self.keys.len()
            invariant
                i <= self.keys@.len(),
                forall|j: int| 0 <= j < i ==> bls_pk_of(#[trigger] self@[j]) != public_key@,
            decreases self.keys@.len() - i,
        {
            if self.keys[i].public_key().equals(public_key) {
                proof {
                    assert(self@[i as int] == self.keys@[i as int]@);
                }
                return Some(&self.keys[i]);
            }
            i += 1;
        }
        None
    }

    /// Tries each key on a single-recipient ciphertext, oldest first, and
    /// returns the first plaintext recovered.
    pub fn decrypt_first(&self, ct: &Vec<u8>) -> (r: Result<Vec<u8>, ArkError>)
        ensures
            match r {
                Ok(p) => ring_open(self@, ct@) == Ok::<Seq<u8>, ArkError>(p@),
                Err(e) => ring_open(self@, ct@) == Err::<Seq<u8>, ArkError>(e),
            },
    {
        let mut i: usize = 0;
        while i < self.keys.len()
            invariant
                i <= self.keys@.len(),
                forall|j: int| 0 <= j < i
                    ==> bls_decrypt_spec(#[trigger] self@[j], ct@) is None,
            decreases self.keys@.len() - i,
        {
            let mut key_bytes = self.keys[i].danger_to_bytes();
            let attempt = bls_decrypt(&key_bytes, ct);
            crate::keys::fill_zero(&mut key_bytes);
            match attempt {
                Some(p) => {
                    proof { lemma_ring_open_reaches(self@, ct@, i as int); }
                    return Ok(p);
                }
                None => {}
            }
            i += 1;
        }
        proof { lemma_ring_open_reaches(self@, ct@, self@.len() as int); }
        Err(ArkError::WrongRecipient)
    }

    /// Serializes the ring: the magic header, the count, then each secret
    /// key's 32 bytes, oldest first.
    pub fn serialize(&self) -> (r: Vec<u8>)
        requires self@.len() < 4294967296,
        ensures r@ == ring_bytes(self@), unique_secret_pks(self@),
    {
        proof { use_type_invariant(self); }
        let mut payload: Vec<u8> = Vec::new();
        push_u32(&mut payload, self.keys.len() as u32);
        let mut i: usize = 0;
        while i < self.keys.len()
            invariant
                i <= self.keys@.len(),
                self@.len() < 4294967296,
                payload@ == enc_u32(self@.len() as u32) + enc_keys(self@.take(i as int)),
            decreases self.keys@.len() - i,
        {
            let mut bytes = self.keys[i].danger_to_bytes();
            push_raw(&mut payload, &bytes);
            crate::keys::fill_zero(&mut bytes);
            proof {
                lemma_enc_keys_snoc(self@.take(i as int), self@[i as int]);
                assert(self@.take(i + 1int) =~= self@.take(i as int).push(self@[i as int]));
                assert(payload@ =~= enc_u32(self@.len() as u32) + enc_keys(self@.take(i + 1int)));
            }
            i += 1;
        }
        proof { assert(self@.take(self@.len() as int) =~= self@); }
        let magic = ring_magic_bytes();
        serialize_with_header(&magic, &payload)
    }

    /// Deserializes a ring: succeeds exactly on well-formed serialized
    /// rings whose keys are valid scalars, and gives back exactly the keys
    /// that were serialized.
    pub fn deserialize(data: &Vec<u8>) -> (r: Result<Self, ArkError>)
        ensures
            match r {
                Ok(ring) => parse_ring(data@) == Some(ring@),
                Err(e) => e == ArkError::BadEncoding && (match parse_ring(data@) {
                    Option::Some(ks) => (exists|i: int| 0 <= i < ks.len()
                        && !bls_sk_ok(#[trigger] ks[i])) || !unique_secret_pks(ks),
                    Option::None => true,
                }),
            },
    {
        let magic = ring_magic_bytes();
        let payload = match deserialize_with_header(&magic, data) {
            Ok(p) => p,
            Err(e) => {
                return Err(e);
            }
        };
        let mut reader = Reader::new(&payload);
        let n = match reader.read_u32() {
            Some(v) => v,
            None => {
                proof { assert(payload@.take(4) == payload@.subrange(0, 4)); }
                return Err(ArkError::BadEncoding);
            }
        };
        proof {
            assert(payload@.take(4) == payload@.subrange(0, 4));
            lemma_u32_roundtrip(n);
        }
        let ghost ks = match parse_ring(data@) {
            Option::Some(ks) => ks,
            Option::None => Seq::empty(),
        };
        let mut keys: Vec<TypedSecretKey<K>> = Vec::new();
        let mut i: usize = 0;
        while i < n as usize
            invariant
                i <= n,
                reader.buf_spec() == payload@,
                unframe(ring_magic(), data@) == Some(payload@),
                payload@.subrange(0, 4) == enc_u32(n),
                crate::wire::dec_u32(payload@.take(4)) == n,
                reader.pos_spec() == 4 + 32 * i,
                4 + 32 * (i as int) <= payload@.len(),
                keys@.len() == i,
                forall|j: int| 0 <= j < i ==> (#[trigger] keys@[j])@
                    == payload@.subrange(4 + 32 * j, 36 + 32 * j),
                forall|a: int, b: int| 0 <= a < b < i
                    ==> bls_pk_of((#[trigger] keys@[a])@) != bls_pk_of((#[trigger] keys@[b])@),
            decreases n - i,
        {
            let chunk = match reader.read_raw(32) {
                Some(c) => c,
                None => {
                    proof {
                        assert(payload@.len() < 4 + 32 * (i as int) + 32);
                        assert(payload@.len() != 4 + 32 * (parse_count(payload@)));
                    }
                    return Err(ArkError::BadEncoding);
                }
            };
            let key = match TypedSecretKey::try_from_bytes(chunk) {
                Ok(k) => k,
                Err(_) => {
                    proof {
                        lemma_parse_ring_shape(data@, payload@, n, i as int);
                    }
                    return Err(ArkError::BadEncoding);
                }
            };
            if holds_pk(&keys, key.public_key()) {
                proof {
                    let j = choose|j: int| 0 <= j < keys@.len()
                        && bls_pk_of((#[trigger] keys@[j])@) == bls_pk_of(key@);
                    lemma_parse_ring_shape(data@, payload@, n, j);
                    lemma_parse_ring_shape(data@, payload@, n, i as int);
                    match parse_ring(data@) {
                        Option::Some(ks) => {
                            assert(ks[j] == keys@[j]@);
                            assert(ks[i as int] == key@);
                            assert(!unique_secret_pks(ks));
                        }
                        Option::None => {}
                    }
                }
                return Err(ArkError::BadEncoding);
            }
            keys.push(key);
            i += 1;
        }
        if !reader.at_end() {
            proof {
                assert(payload@.len() > 4 + 32 * (n as int));
            }
            return Err(ArkError::BadEncoding);
        }
        let ring = KeyRing { keys };
        proof {
            assert(payload@.len() == 4 + 32 * (n as int));
            assert(payload@.take(4) == payload@.subrange(0, 4));
            let parsed = Seq::new(n as nat, |j: int| payload@.subrange(4 + 32 * j, 36 + 32 * j));
            assert(parse_ring(data@) == Some(parsed));
            assert(ring@ =~= parsed);
        }
        Ok(ring)
    }
}

/// Whether any held key shares this public key.
fn holds_pk<K>(keys: &Vec<TypedSecretKey<K>>, pk: &TypedPublicKey<K>) -> (r: bool)
    ensures
        r == (exists|j: int| 0 <= j < keys@.len()
            && bls_pk_of((#[trigger] keys@[j])@) == pk@),
{
    let mut t: usize = 0;
    while t < keys.len()
        invariant
            t <= keys@.len(),
            forall|j: int| 0 <= j < t ==> bls_pk_of((#[trigger] keys@[j])@) != pk@,
        decreases keys@.len() - t,
    {
        if keys[t].public_key().equals(pk) {
            return true;
        }
        t += 1;
    }
    false
}

/// The count a parsed payload claims.
pub open spec fn parse_count(p: Seq<u8>) -> int {
    crate::wire::dec_u32(p.take(4)) as int
}

/// When the payload is long enough for entry `i`, a short payload
/// contradicts the claimed count, and an invalid scalar at `i` shows in
/// the parse result.
proof fn lemma_parse_ring_shape(data: Seq<u8>, p: Seq<u8>, n: u32, i: int)
    requires
        unframe(ring_magic(), data) == Some(p),
        p.len() >= 4,
        crate::wire::dec_u32(p.take(4)) == n,
        0 <= i < n,
    ensures
        match parse_ring(data) {
            Option::Some(ks) => ks.len() == n && ks[i] == p.subrange(4 + 32 * i, 36 + 32 * i),
            Option::None => true,
        },
{
}

/// Appending a key appends its bytes.
proof fn lemma_enc_keys_snoc(ks: Seq<Seq<u8>>, k: Seq<u8>)
    ensures enc_keys(ks.push(k)) == enc_keys(ks) + k,
    decreases ks.len(),
{
    if ks.len() == 0 {
        let p = ks.push(k);
        assert(p.len() == 1);
        assert(p[0] == k);
        assert(p.skip(1) =~= Seq::<Seq<u8>>::empty());
        assert(enc_keys(p) == p[0] + enc_keys(p.skip(1)));
        assert(enc_keys(p.skip(1)) == Seq::<u8>::empty());
        assert(enc_keys(p) =~= enc_keys(ks) + k);
    } else {
        lemma_enc_keys_snoc(ks.skip(1), k);
        assert(ks.push(k).skip(1) =~= ks.skip(1).push(k));
        assert(enc_keys(ks.push(k)) =~= enc_keys(ks) + k);
    }
}

/// Unfolds the try-each-key model at the first key that decrypts.
proof fn lemma_ring_open_reaches(ks: Seq<Seq<u8>>, ct: Seq<u8>, i: int)
    requires
        0 <= i <= ks.len(),
        forall|j: int| 0 <= j < i ==> bls_decrypt_spec(#[trigger] ks[j], ct) is None,
    ensures
        i < ks.len() && bls_decrypt_spec(ks[i], ct) is Some
            ==> ring_open(ks, ct) == Ok::<Seq<u8>, ArkError>(bls_decrypt_spec(ks[i], ct)->Some_0),
        i == ks.len() ==> ring_open(ks, ct) == Err::<Seq<u8>, ArkError>(ArkError::WrongRecipient),
    decreases i,
{
    if i > 0 {
        lemma_ring_open_reaches(ks.skip(1), ct, i - 1);
        if i < ks.len() {
            assert(ks.skip(1)[i - 1] == ks[i]);
        }
    }
}

/// Whether the first `n` seeds derive pairwise-distinct public keys
/// under this parent.
pub open spec fn distinct_child_keys<P, K>(
    parent: Seq<u8>,
    seeds: Seq<TypedDerivationIndex<K>>,
    n: int,
) -> bool {
    forall|a: int, b: int| 0 <= a < b < n && b < seeds.len()
        ==> bls_pk_of(bls_child_sk(parent, (#[trigger] seeds[a])@))
            != bls_pk_of(bls_child_sk(parent, (#[trigger] seeds[b])@))
}

/// Derives one key per stored seed, in the seeds' order: the history of
/// a role's keys from the history of its register values.  Every derived
/// public key is represented; when the derived keys are pairwise
/// distinct — as freshly drawn rotation seeds are — the ring holds
/// exactly one entry per seed, in order.
pub fn derive_ring<P, K>(
    parent: &TypedSecretKey<P>,
    seeds: &Vec<TypedDerivationIndex<K>>,
) -> (r: KeyRing<K>)
    ensures
        r@.len() <= seeds@.len(),
        forall|i: int| 0 <= i < seeds@.len()
            ==> contains_pk(r@, bls_pk_of(bls_child_sk(parent@, (#[trigger] seeds@[i])@))),
        distinct_child_keys::<P, K>(parent@, seeds@, seeds@.len() as int)
            ==> (r@.len() == seeds@.len()
                && (forall|i: int| 0 <= i < seeds@.len()
                    ==> r@[i] == bls_child_sk(parent@, (#[trigger] seeds@[i])@))),
{
    let mut ring = KeyRing::new();
    let mut i: usize = 0;
    while i < seeds.len()
        invariant
            i <= seeds@.len(),
            ring@.len() <= i,
            forall|j: int| 0 <= j < i
                ==> contains_pk(ring@, bls_pk_of(bls_child_sk(parent@, (#[trigger] seeds@[j])@))),
            distinct_child_keys::<P, K>(parent@, seeds@, i as int)
                ==> (ring@.len() == i
                    && (forall|j: int| 0 <= j < i
                        ==> ring@[j] == bls_child_sk(parent@, (#[trigger] seeds@[j])@))),
        decreases seeds@.len() - i,
    {
        let ghost pre = ring@;
        let child = parent.derive_child(&seeds[i]);
        let inserted = ring.push(child);
        proof {
            let cv = bls_child_sk(parent@, seeds@[i as int]@);
            if inserted {
                assert(ring@ == pre.push(cv));
                assert(ring@[pre.len() as int] == cv);
                assert(contains_pk(ring@, bls_pk_of(cv)));
                assert forall|j: int| 0 <= j < i
                    implies contains_pk(ring@,
                        bls_pk_of(bls_child_sk(parent@, (#[trigger] seeds@[j])@))) by {
                    let w = choose|w: int| 0 <= w < pre.len()
                        && bls_pk_of(#[trigger] pre[w])
                            == bls_pk_of(bls_child_sk(parent@, seeds@[j]@));
                    assert(ring@[w] == pre[w]);
                }
            } else {
                assert(contains_pk(pre, bls_pk_of(cv)));
                if distinct_child_keys::<P, K>(parent@, seeds@, i + 1int) {
                    let w = choose|w: int| 0 <= w < pre.len()
                        && bls_pk_of(#[trigger] pre[w]) == bls_pk_of(cv);
                    assert(pre[w] == bls_child_sk(parent@, seeds@[w]@));
                    assert(false);
                }
            }
        }
        i += 1;
    }
    ring
}


} // verus!
