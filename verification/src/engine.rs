//! The manifest and rotation engine: the decisions of every mutating
//! operation, computed from the values read off the network.
//!
//! Each planner takes what the caller has read (register values, history,
//! the live manifest) and returns exactly what must be written.  The
//! caller performs the writes in the order the plan lays down; a failure
//! part-way leaves the Ark in a state these planners accept again.

use vstd::prelude::*;
use crate::bls::{bls_child_pk, bls_child_sk, bls_decrypt_spec, bls_pk_of, bls_pk_ok};
use crate::envelope::{Envelope, pk_views};
use crate::errors::ArkError;
use crate::hashing::hash_of_name;
use crate::hierarchy::{
    ArkAddress, ArkSeed, DataKey, DataKeyRingKind, DataKeySeed, HelmKey, HelmKind, HelmKeySeed,
    PublicHelmKey, PublicWorkerKey, SealKey, WorkerKey, manifest_path,
};
use crate::keyring::{
    KeyRing, contains_pk, derive_ring, distinct_child_keys, ring_bytes,
};
use crate::keys::TypedSecretKey;
use crate::manifest::{Manifest, manifest_bytes, manifest_fits, manifest_keys_ok, manifest_wf};
use crate::netobjects::{Content, TypedOwnedScratchpad, TypedScratchpadAddress};

verus! {

/// The value kind of the encrypted manifest scratchpad.
pub struct EncryptedManifestKind;

impl crate::keys::Retirable for EncryptedManifestKind {}

impl Content for EncryptedManifestKind {
    open spec fn encoding_spec() -> u64 {
        344850175421548714u64
    }

    fn encoding() -> (r: u64) {
        344850175421548714u64
    }
}

/// The value kind of the encrypted data-keyring scratchpad.
pub struct EncryptedKeyRingKind;

impl Content for EncryptedKeyRingKind {
    open spec fn encoding_spec() -> u64 {
        845573457394578892u64
    }

    fn encoding() -> (r: u64) {
        845573457394578892u64
    }
}

/// The manifest scratchpad owned by a Helm key.
pub type OwnedManifest = TypedOwnedScratchpad<HelmKind, EncryptedManifestKind>;

/// The address of the manifest scratchpad under a Helm public key.
pub type ManifestAddress = TypedScratchpadAddress<HelmKind, EncryptedManifestKind>;

/// The data-keyring scratchpad owned by the Ark seed's keyring child.
pub type OwnedDataKeyRing = TypedOwnedScratchpad<DataKeyRingKind, EncryptedKeyRingKind>;

impl HelmKey {
    /// The secret owner of the manifest scratchpad: the Helm key's child
    /// at the manifest path.
    pub fn manifest_owner(&self) -> (r: TypedSecretKey<HelmKind>)
        ensures
            r@ == bls_child_sk(self@, hash_of_name(manifest_path())),
            bls_pk_of(r@) == bls_child_pk(bls_pk_of(self@), hash_of_name(manifest_path())),
    {
        self.derive_child(&crate::hierarchy::manifest_derivator())
    }
}

impl PublicHelmKey {
    /// The manifest scratchpad's address, predictable from the public
    /// Helm key alone.
    pub fn manifest_address(&self) -> (r: ManifestAddress)
        ensures r.owner_spec() == bls_child_pk(self@, hash_of_name(manifest_path())),
    {
        ManifestAddress::from_public_key(
            self.derive_child(&crate::hierarchy::manifest_derivator()),
        )
    }
}

/// The four readers of a manifest: the Ark seed, the current Helm key,
/// the current Worker key, and the current Data key (the Seal key's
/// secret twin).
pub struct ManifestEncryptor {
    /// The Ark's address.
    pub ark_address: ArkAddress,
    /// The current public Helm key.
    pub public_helm_key: PublicHelmKey,
    /// The current public Worker key.
    pub public_worker_key: PublicWorkerKey,
    /// The current Seal key.
    pub seal_key: SealKey,
}

/// Whether a secret key is one of the four manifest readers.
pub open spec fn is_manifest_reader(
    sk: Seq<u8>,
    ark: Seq<u8>,
    helm: Seq<u8>,
    worker: Seq<u8>,
    seal: Seq<u8>,
) -> bool {
    bls_pk_of(sk) == ark || bls_pk_of(sk) == helm || bls_pk_of(sk) == worker
        || bls_pk_of(sk) == seal
}

/// Checks that a seed is the authority for an Ark: its public key must
/// be the Ark's address.
pub fn verify_ark_seed(ark_seed: &ArkSeed, ark_address: &ArkAddress) -> (r: Result<(), ArkError>)
    ensures
        match r {
            Ok(_) => bls_pk_of(ark_seed@) == ark_address@,
            Err(e) => e == ArkError::AuthorityMismatch && bls_pk_of(ark_seed@) != ark_address@,
        },
{
    if ark_seed.public_key().equals(ark_address) {
        Ok(())
    } else {
        Err(ArkError::AuthorityMismatch)
    }
}

/// Checks that a Helm key is the current one for an Ark: its public key
/// must be the address's child at the seed the helm register holds.
pub fn verify_helm_key(
    helm_key: &HelmKey,
    ark_address: &ArkAddress,
    helm_seed: &HelmKeySeed,
) -> (r: Result<(), ArkError>)
    ensures
        match r {
            Ok(_) => bls_pk_of(helm_key@) == bls_child_pk(ark_address@, helm_seed@),
            Err(e) => e == ArkError::AuthorityMismatch
                && bls_pk_of(helm_key@) != bls_child_pk(ark_address@, helm_seed@),
        },
{
    let expected = ark_address.helm_key(helm_seed);
    if helm_key.public_key().equals(&expected) {
        Ok(())
    } else {
        Err(ArkError::AuthorityMismatch)
    }
}

/// Checks that a manifest belongs to an Ark before it is written back.
pub fn check_manifest_address(manifest: &Manifest, ark_address: &ArkAddress)
    -> (r: Result<(), ArkError>)
    ensures
        match r {
            Ok(_) => manifest@.ark_address == ark_address@,
            Err(e) => e == ArkError::ManifestMismatch && manifest@.ark_address != ark_address@,
        },
{
    if manifest.ark_address.equals(ark_address) {
        Ok(())
    } else {
        Err(ArkError::ManifestMismatch)
    }
}

/// Derives the full keyring of historical Data keys from the register
/// history.  An empty history breaks the Ark's invariant that the data
/// register always resolves to a current key.  Every historical key's
/// public key is represented; with pairwise-distinct derived keys — the
/// freshly drawn rotation seeds — the ring holds exactly one entry per
/// seed, in order.
pub fn derive_data_keyring(
    ark_seed: &ArkSeed,
    history: &Vec<DataKeySeed>,
) -> (r: Result<KeyRing<crate::hierarchy::DataKeyKind>, ArkError>)
    ensures
        match r {
            Ok(ring) => {
                &&& history@.len() > 0
                &&& ring@.len() >= 1
                &&& ring@.len() <= history@.len()
                &&& (forall|i: int| 0 <= i < history@.len()
                    ==> contains_pk(ring@,
                        bls_pk_of(bls_child_sk(ark_seed@, (#[trigger] history@[i])@))))
                &&& (distinct_child_keys::<crate::hierarchy::ArkRoot,
                        crate::hierarchy::DataKeyKind>(
                            ark_seed@, history@, history@.len() as int)
                    ==> (ring@.len() == history@.len()
                        && (forall|i: int| 0 <= i < history@.len()
                            ==> ring@[i] == bls_child_sk(ark_seed@, (#[trigger] history@[i])@))))
            },
            Err(e) => e == ArkError::InvariantViolation && history@.len() == 0,
        },
{
    if history.len() == 0 {
        return Err(ArkError::InvariantViolation);
    }
    let ring = derive_ring(ark_seed, history);
    proof {
        assert(contains_pk(ring@, bls_pk_of(bls_child_sk(ark_seed@, history@[0]@))));
    }
    Ok(ring)
}

impl ManifestEncryptor {
    /// Assembles the recipient set.
    pub fn new(
        ark_address: ArkAddress,
        public_helm_key: PublicHelmKey,
        public_worker_key: PublicWorkerKey,
        seal_key: SealKey,
    ) -> (r: Self)
        ensures
            r.ark_address@ == ark_address@,
            r.public_helm_key@ == public_helm_key@,
            r.public_worker_key@ == public_worker_key@,
            r.seal_key@ == seal_key@,
    {
        ManifestEncryptor { ark_address, public_helm_key, public_worker_key, seal_key }
    }

    /// Seals a manifest to the four readers.  Every key whose public half
    /// is one of them opens the envelope to exactly the serialized
    /// manifest; every other key is told `WrongRecipient`.
    pub fn encrypt_manifest(&self, manifest: &Manifest) -> (r: Envelope)
        requires
            manifest_fits(manifest@),
        ensures
            manifest_wf(manifest@),
            forall|sk: Seq<u8>| #[trigger] r.opens_to(sk) == (
                if is_manifest_reader(sk, self.ark_address@, self.public_helm_key@,
                    self.public_worker_key@, self.seal_key@) {
                    Ok::<Seq<u8>, ArkError>(manifest_bytes(manifest@))
                } else {
                    Err::<Seq<u8>, ArkError>(ArkError::WrongRecipient)
                }
            ),
    {
        let plaintext = manifest.serialize();
        let mut recipients: Vec<Vec<u8>> = Vec::new();
        recipients.push(self.ark_address.to_bytes());
        recipients.push(self.public_helm_key.to_bytes());
        recipients.push(self.public_worker_key.to_bytes());
        recipients.push(self.seal_key.to_bytes());
        proof {
            assert(recipients@.len() == 4);
            assert(recipients@[0]@ == self.ark_address@);
            assert(recipients@[1]@ == self.public_helm_key@);
            assert(recipients@[2]@ == self.public_worker_key@);
            assert(recipients@[3]@ == self.seal_key@);
            assert(forall|i: int| 0 <= i < recipients@.len()
                ==> bls_pk_ok(#[trigger] recipients@[i]@));
        }
        let env = Envelope::seal(&recipients, &plaintext);
        proof {
            let views = pk_views(recipients@);
            assert(views.len() == 4);
            assert(views[0] == self.ark_address@);
            assert(views[1] == self.public_helm_key@);
            assert(views[2] == self.public_worker_key@);
            assert(views[3] == self.seal_key@);
            assert forall|sk: Seq<u8>| #[trigger] env.opens_to(sk) == (
                if is_manifest_reader(sk, self.ark_address@, self.public_helm_key@,
                    self.public_worker_key@, self.seal_key@) {
                    Ok::<Seq<u8>, ArkError>(manifest_bytes(manifest@))
                } else {
                    Err::<Seq<u8>, ArkError>(ArkError::WrongRecipient)
                }
            ) by {
                if is_manifest_reader(sk, self.ark_address@, self.public_helm_key@,
                    self.public_worker_key@, self.seal_key@) {
                    assert(views.contains(bls_pk_of(sk)));
                } else {
                    if views.contains(bls_pk_of(sk)) {
                        let w = choose|w: int| 0 <= w < views.len()
                            && views[w] == bls_pk_of(sk);
                        assert(false);
                    }
                }
            }
        }
        env
    }
}

/// Opens a manifest envelope with one key and decodes the document.
/// Succeeds exactly when the key is a recipient, the ciphertext is sound,
/// and the plaintext parses as a manifest with valid keys; an envelope
/// sealed from a manifest hands that manifest back (the codec round-trip
/// lemma turns the parse into byte equality).
pub fn open_manifest<K>(env: &Envelope, key: &TypedSecretKey<K>) -> (r: Result<Manifest, ArkError>)
    ensures
        match r {
            Ok(m) => (match env.opens_to(key@) {
                Ok(pt) => crate::manifest::parse_manifest(pt) == Some(m@),
                Err(_) => false,
            }) && manifest_keys_ok(m@),
            Err(e) => (match env.opens_to(key@) {
                Ok(pt) => e == ArkError::BadEncoding
                    && (match crate::manifest::parse_manifest(pt) {
                        Option::Some(mv) => !manifest_keys_ok(mv),
                        Option::None => true,
                    }),
                Err(inner) => e == inner,
            }),
        },
{
    let mut sk = key.danger_to_bytes();
    let opened = env.open(&sk);
    crate::keys::fill_zero(&mut sk);
    let plaintext = match opened {
        Ok(p) => p,
        Err(e) => {
            return Err(e);
        }
    };
    match Manifest::deserialize(&plaintext) {
        Ok(m) => Ok(m),
        Err(e) => Err(e),
    }
}

/// What a Data rotation writes, computed from the Ark seed, the current
/// register history, and the live manifest.
pub struct DataRotationPlan {
    /// The fresh seed to write to the data register.
    pub new_seed: DataKeySeed,
    /// The new Data key the seed derives to.
    pub new_data_key: DataKey,
    /// The full keyring of every historical Data key, oldest first, the
    /// fresh key last.
    pub keyring: KeyRing<crate::hierarchy::DataKeyKind>,
    /// The keyring serialized and encrypted to the new Seal key.
    pub keyring_ciphertext: Vec<u8>,
    /// The manifest re-encrypted to the refreshed recipient set.
    pub manifest_envelope: Envelope,
}

/// Whether the historical seeds derive pairwise-distinct keys and the
/// fresh key collides with none of them — what freshly drawn random
/// seeds give, and what the exact keyring shape rests on.
pub open spec fn rotation_keys_distinct(
    ark_seed: Seq<u8>,
    history: Seq<DataKeySeed>,
    new_key: Seq<u8>,
) -> bool {
    &&& distinct_child_keys::<crate::hierarchy::ArkRoot, crate::hierarchy::DataKeyKind>(
        ark_seed, history, history.len() as int)
    &&& (forall|i: int| 0 <= i < history.len()
        ==> bls_pk_of(bls_child_sk(ark_seed, (#[trigger] history[i])@)) != bls_pk_of(new_key))
}

/// Plans a Data rotation.  Every historical key's public key is
/// represented in the keyring and the fresh key joins it; with
/// pairwise-distinct derived keys — what freshly drawn seeds give — the
/// keyring holds one key per historical seed plus the fresh one, in
/// chronological order.  The keyring ciphertext decrypts under the new
/// Data key, and the re-encrypted manifest opens under the Ark seed, the
/// current Helm key, the current Worker key, and the new Data key.
pub fn plan_data_rotation(
    ark_seed: &ArkSeed,
    history: &Vec<DataKeySeed>,
    manifest: &Manifest,
    public_helm_key: &PublicHelmKey,
) -> (r: Result<DataRotationPlan, ArkError>)
    requires
        manifest_fits(manifest@),
        history@.len() < usize::MAX,
    ensures
        match r {
            Ok(plan) => {
                &&& plan.new_data_key@ == bls_child_sk(ark_seed@, plan.new_seed@)
                &&& bls_pk_of(plan.new_data_key@)
                    == bls_child_pk(bls_pk_of(ark_seed@), plan.new_seed@)
                &&& plan.keyring@.len() <= history@.len() + 1
                &&& contains_pk(plan.keyring@, bls_pk_of(plan.new_data_key@))
                &&& (forall|i: int| 0 <= i < history@.len()
                    ==> contains_pk(plan.keyring@,
                        bls_pk_of(bls_child_sk(ark_seed@, (#[trigger] history@[i])@))))
                &&& (rotation_keys_distinct(ark_seed@, history@, plan.new_data_key@)
                    ==> (plan.keyring@.len() == history@.len() + 1
                        && (forall|i: int| 0 <= i < history@.len()
                            ==> plan.keyring@[i]
                                == bls_child_sk(ark_seed@, (#[trigger] history@[i])@))
                        && plan.keyring@[history@.len() as int] == plan.new_data_key@))
                &&& bls_decrypt_spec(plan.new_data_key@, plan.keyring_ciphertext@)
                    == Some(ring_bytes(plan.keyring@))
                &&& (forall|sk: Seq<u8>| #[trigger] plan.manifest_envelope.opens_to(sk) == (
                    if is_manifest_reader(sk, bls_pk_of(ark_seed@), public_helm_key@,
                        manifest@.authorized_worker, bls_pk_of(plan.new_data_key@)) {
                        Ok::<Seq<u8>, ArkError>(manifest_bytes(manifest@))
                    } else {
                        Err::<Seq<u8>, ArkError>(ArkError::WrongRecipient)
                    }
                ))
            },
            Err(e) => e == ArkError::InvariantViolation && history@.len() >= 4294967295,
        },
{
    if history.len() as u64 >= 4294967295u64 {
        return Err(ArkError::InvariantViolation);
    }
    let new_seed = DataKeySeed::random();
    let new_data_key = ark_seed.data_key(&new_seed);
    let ghost children = Seq::new(history@.len(), |i: int|
        bls_child_sk(ark_seed@, history@[i]@));
    let mut keyring = derive_ring(ark_seed, history);
    let ghost derived = keyring@;
    let inserted = keyring.push(new_data_key.clone());
    proof {
        if inserted {
            assert(keyring@[derived.len() as int] == new_data_key@);
            assert(contains_pk(keyring@, bls_pk_of(new_data_key@)));
            assert forall|i: int| 0 <= i < history@.len()
                implies contains_pk(keyring@,
                    bls_pk_of(bls_child_sk(ark_seed@, (#[trigger] history@[i])@))) by {
                let w = choose|w: int| 0 <= w < derived.len()
                    && bls_pk_of(#[trigger] derived[w])
                        == bls_pk_of(bls_child_sk(ark_seed@, history@[i]@));
                assert(keyring@[w] == derived[w]);
            }
        }
        if rotation_keys_distinct(ark_seed@, history@, new_data_key@) {
            assert(derived.len() == history@.len());
            if !inserted {
                let w = choose|w: int| 0 <= w < derived.len()
                    && bls_pk_of(#[trigger] derived[w]) == bls_pk_of(new_data_key@);
                assert(derived[w] == bls_child_sk(ark_seed@, history@[w]@));
                assert(false);
            }
        }
    }
    let ring_data = keyring.serialize();
    let seal_pk = new_data_key.public_key().to_bytes();
    proof {
        assert(ring_data@.len() >= 16);
    }
    let keyring_ciphertext = crate::bls::bls_encrypt(&seal_pk, &ring_data);
    let worker_pk = match crate::hierarchy::PublicWorkerKey::try_from_bytes(
        clone_worker(manifest),
    ) {
        Ok(k) => k,
        Err(_) => {
            proof { assert(false); }
            unreached()
        }
    };
    let encryptor = ManifestEncryptor::new(
        ark_seed.address().clone(),
        public_helm_key.clone(),
        worker_pk,
        new_data_key.public_key().clone(),
    );
    let manifest_envelope = encryptor.encrypt_manifest(manifest);
    Ok(DataRotationPlan { new_seed, new_data_key, keyring, keyring_ciphertext, manifest_envelope })
}

/// The manifest's authorized worker key, as bytes.
fn clone_worker(manifest: &Manifest) -> (r: Vec<u8>)
    ensures r@ == manifest@.authorized_worker, bls_pk_ok(r@),
{
    manifest.authorized_worker.to_bytes()
}

/// What a Helm rotation writes: the new register value, the new manifest
/// scratchpad, and the retirement of the previous one.
pub struct HelmRotationPlan {
    /// The fresh seed to write to the helm register.
    pub new_seed: HelmKeySeed,
    /// The new Helm key the seed derives to.
    pub new_helm_key: HelmKey,
    /// The manifest re-encrypted to the new recipient set, to be created
    /// at the new Helm key's manifest address before the previous
    /// manifest is retired, so a live manifest exists at every moment.
    pub manifest_envelope: Envelope,
}

/// Plans a Helm rotation.  The new Helm key is the Ark seed's child at
/// the fresh register value, and the re-encrypted manifest opens under
/// the Ark seed, the new Helm key, the current Worker key, and the
/// current Data key.
pub fn plan_helm_rotation(
    ark_seed: &ArkSeed,
    manifest: &Manifest,
    seal_key: &SealKey,
) -> (r: HelmRotationPlan)
    requires
        manifest_fits(manifest@),
    ensures
        r.new_helm_key@ == bls_child_sk(ark_seed@, r.new_seed@),
        bls_pk_of(r.new_helm_key@) == bls_child_pk(bls_pk_of(ark_seed@), r.new_seed@),
        forall|sk: Seq<u8>| #[trigger] r.manifest_envelope.opens_to(sk) == (
            if is_manifest_reader(sk, bls_pk_of(ark_seed@), bls_pk_of(r.new_helm_key@),
                manifest@.authorized_worker, seal_key@) {
                Ok::<Seq<u8>, ArkError>(manifest_bytes(manifest@))
            } else {
                Err::<Seq<u8>, ArkError>(ArkError::WrongRecipient)
            }
        ),
{
    let new_seed = HelmKeySeed::random();
    let new_helm_key = ark_seed.helm_key(&new_seed);
    let worker_pk = match crate::hierarchy::PublicWorkerKey::try_from_bytes(
        clone_worker(manifest),
    ) {
        Ok(k) => k,
        Err(_) => {
            proof { assert(false); }
            unreached()
        }
    };
    let encryptor = ManifestEncryptor::new(
        ark_seed.address().clone(),
        new_helm_key.public_key().clone(),
        worker_pk,
        seal_key.clone(),
    );
    let manifest_envelope = encryptor.encrypt_manifest(manifest);
    HelmRotationPlan { new_seed, new_helm_key, manifest_envelope }
}

/// What a Worker rotation writes: the manifest with authority handed
/// over, re-encrypted to the refreshed recipient set.
pub struct WorkerRotationPlan {
    /// The new Worker key: the supplied public key, or a drawn secret
    /// returned to the caller.
    pub new_worker_key: crate::hierarchy::EitherWorkerKey,
    /// The manifest with the previous worker retired into the audit
    /// trail and the new one authorized.
    pub manifest: Manifest,
    /// That manifest re-encrypted to the refreshed recipient set.
    pub manifest_envelope: Envelope,
}

/// The public key a worker-rotation plan authorizes.
pub open spec fn worker_plan_key(k: crate::hierarchy::EitherWorkerKey) -> Seq<u8> {
    match k {
        crate::keys::EitherKey::Secret(sk) => bls_pk_of(sk@),
        crate::keys::EitherKey::Public(pk) => pk@,
    }
}

/// Plans a Worker rotation with the supplied public key, or with a
/// freshly drawn key whose secret is returned.  The previous worker joins
/// the audit trail with the given timestamp, and the re-encrypted
/// manifest opens under the Ark seed, the current Helm key, the new
/// Worker key, and the current Data key; a key outside that set, such as
/// the previous Worker key whenever it differs from all four, is told
/// `WrongRecipient`.
pub fn plan_worker_rotation(
    ark_address: &ArkAddress,
    manifest: Manifest,
    public_helm_key: &PublicHelmKey,
    seal_key: &SealKey,
    supplied: Option<PublicWorkerKey>,
    now: u64,
) -> (r: WorkerRotationPlan)
    requires
        manifest_fits(manifest@),
        manifest@.retired_workers.len() < 4294967295,
    ensures
        (match supplied {
            Option::Some(ref pk) => r.new_worker_key is Public
                && worker_plan_key(r.new_worker_key) == pk@,
            Option::None => r.new_worker_key is Secret,
        }),
        r.manifest@.authorized_worker == worker_plan_key(r.new_worker_key),
        manifest@.authorized_worker != worker_plan_key(r.new_worker_key)
            ==> r.manifest@.retired_workers
                == manifest@.retired_workers.push((manifest@.authorized_worker, now)),
        manifest@.authorized_worker == worker_plan_key(r.new_worker_key)
            ==> r.manifest@.retired_workers == manifest@.retired_workers,
        r.manifest@.vaults == manifest@.vaults,
        r.manifest@.name == manifest@.name,
        r.manifest@.description == manifest@.description,
        r.manifest@.ark_address == manifest@.ark_address,
        manifest_fits(r.manifest@),
        forall|sk: Seq<u8>| #[trigger] r.manifest_envelope.opens_to(sk) == (
            if is_manifest_reader(sk, ark_address@, public_helm_key@,
                worker_plan_key(r.new_worker_key), seal_key@) {
                Ok::<Seq<u8>, ArkError>(manifest_bytes(r.manifest@))
            } else {
                Err::<Seq<u8>, ArkError>(ArkError::WrongRecipient)
            }
        ),
{
    let new_worker_key: crate::hierarchy::EitherWorkerKey = match supplied {
        Some(pk) => crate::keys::EitherKey::Public(pk),
        None => crate::keys::EitherKey::Secret(WorkerKey::random()),
    };
    let mut manifest = manifest;
    manifest.update_worker(new_worker_key.public_key(), now);
    let encryptor = ManifestEncryptor::new(
        ark_address.clone(),
        public_helm_key.clone(),
        new_worker_key.public_key().clone(),
        seal_key.clone(),
    );
    let manifest_envelope = encryptor.encrypt_manifest(&manifest);
    WorkerRotationPlan { new_worker_key, manifest, manifest_envelope }
}

/// What a full rotation writes: Helm, then Worker, then Data, under one
/// logical operation.  The caller performs the writes in this order: the
/// helm register, the new manifest scratchpad at the new Helm key's
/// address, the retirement of the previous manifest, the data register,
/// the keyring scratchpad, and the manifest update with the final
/// envelope — so a live manifest exists at every moment and a failure
/// part-way leaves the Ark with either the old or the new state visible.
pub struct FullRotationPlan {
    /// The fresh helm register value.
    pub new_helm_seed: HelmKeySeed,
    /// The new Helm key.
    pub new_helm_key: HelmKey,
    /// The new Worker authority.
    pub new_worker_key: crate::hierarchy::EitherWorkerKey,
    /// The manifest with the previous worker retired.
    pub manifest: Manifest,
    /// The fresh data register value.
    pub new_data_seed: DataKeySeed,
    /// The new Data key.
    pub new_data_key: DataKey,
    /// The full keyring of every historical Data key, the fresh key last.
    pub keyring: KeyRing<crate::hierarchy::DataKeyKind>,
    /// The keyring serialized and encrypted to the new Seal key.
    pub keyring_ciphertext: Vec<u8>,
    /// The manifest sealed to the final recipient set: the Ark seed, the
    /// new Helm key, the new Worker key, and the new Data key.
    pub manifest_envelope: Envelope,
}

/// Plans a full rotation: Helm, then Worker, then Data, sharing one
/// plan.  The final envelope opens exactly under the Ark seed and the
/// three new role keys.
pub fn plan_full_rotation(
    ark_seed: &ArkSeed,
    history: &Vec<DataKeySeed>,
    manifest: Manifest,
    supplied_worker: Option<PublicWorkerKey>,
    now: u64,
) -> (r: Result<FullRotationPlan, ArkError>)
    requires
        manifest_fits(manifest@),
        manifest@.retired_workers.len() < 4294967295,
        history@.len() < usize::MAX,
    ensures
        match r {
            Ok(plan) => {
                &&& plan.new_helm_key@ == bls_child_sk(ark_seed@, plan.new_helm_seed@)
                &&& plan.new_data_key@ == bls_child_sk(ark_seed@, plan.new_data_seed@)
                &&& (match supplied_worker {
                    Option::Some(ref pk) => plan.new_worker_key is Public
                        && worker_plan_key(plan.new_worker_key) == pk@,
                    Option::None => plan.new_worker_key is Secret,
                })
                &&& plan.manifest@.authorized_worker == worker_plan_key(plan.new_worker_key)
                &&& plan.keyring@.len() <= history@.len() + 1
                &&& contains_pk(plan.keyring@, bls_pk_of(plan.new_data_key@))
                &&& (forall|i: int| 0 <= i < history@.len()
                    ==> contains_pk(plan.keyring@,
                        bls_pk_of(bls_child_sk(ark_seed@, (#[trigger] history@[i])@))))
                &&& (rotation_keys_distinct(ark_seed@, history@, plan.new_data_key@)
                    ==> (plan.keyring@.len() == history@.len() + 1
                        && (forall|i: int| 0 <= i < history@.len()
                            ==> plan.keyring@[i]
                                == bls_child_sk(ark_seed@, (#[trigger] history@[i])@))
                        && plan.keyring@[history@.len() as int] == plan.new_data_key@))
                &&& bls_decrypt_spec(plan.new_data_key@, plan.keyring_ciphertext@)
                    == Some(ring_bytes(plan.keyring@))
                &&& (forall|sk: Seq<u8>| #[trigger] plan.manifest_envelope.opens_to(sk) == (
                    if is_manifest_reader(sk, bls_pk_of(ark_seed@),
                        bls_pk_of(plan.new_helm_key@), worker_plan_key(plan.new_worker_key),
                        bls_pk_of(plan.new_data_key@)) {
                        Ok::<Seq<u8>, ArkError>(manifest_bytes(plan.manifest@))
                    } else {
                        Err::<Seq<u8>, ArkError>(ArkError::WrongRecipient)
                    }
                ))
            },
            Err(e) => e == ArkError::InvariantViolation && history@.len() >= 4294967295,
        },
{
    let new_helm_seed = HelmKeySeed::random();
    let new_helm_key = ark_seed.helm_key(&new_helm_seed);
    let seal_placeholder = ark_seed.data_key(&DataKeySeed::random());
    let worker_plan = plan_worker_rotation(
        ark_seed.address(),
        manifest,
        new_helm_key.public_key(),
        seal_placeholder.public_key(),
        supplied_worker,
        now,
    );
    let data_plan = match plan_data_rotation(
        ark_seed,
        history,
        &worker_plan.manifest,
        new_helm_key.public_key(),
    ) {
        Ok(p) => p,
        Err(e) => {
            return Err(e);
        }
    };
    Ok(FullRotationPlan {
        new_helm_seed,
        new_helm_key,
        new_worker_key: worker_plan.new_worker_key,
        manifest: worker_plan.manifest,
        new_data_seed: data_plan.new_seed,
        new_data_key: data_plan.new_data_key,
        keyring: data_plan.keyring,
        keyring_ciphertext: data_plan.keyring_ciphertext,
        manifest_envelope: data_plan.manifest_envelope,
    })
}

} // verus!
