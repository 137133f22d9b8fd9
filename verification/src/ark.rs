//! Creating an Ark, and the keys that may read its manifest.

use vstd::prelude::*;
use crate::bls::{bls_child_sk, bls_decrypt_spec, bls_pk_of};
use crate::confidential::ConfidentialString;
use crate::engine::{ManifestEncryptor, is_manifest_reader, open_manifest};
use crate::envelope::Envelope;
use crate::errors::ArkError;
use crate::hierarchy::{
    ArkAddress, ArkSeed, DataKey, DataKeySeed, EitherWorkerKey, HelmKey, HelmKeySeed, WorkerKey,
};
use crate::keyring::{KeyRing, ring_bytes};
use crate::manifest::{Manifest, manifest_bytes, manifest_fits};
use crate::mnemonics::mnemonic_ok;

verus! {

/// Any key that may open an Ark's manifest: the seed or one of the three
/// current role keys.
pub enum ArkAccessor {
    /// The master seed.
    ArkSeed(ArkSeed),
    /// The current Helm key.
    HelmKey(HelmKey),
    /// The current Data key.
    DataKey(DataKey),
    /// The current Worker key.
    WorkerKey(WorkerKey),
}

impl ArkAccessor {
    /// The secret bytes of whichever key this is.
    pub closed spec fn secret_spec(&self) -> Seq<u8> {
        match self {
            ArkAccessor::ArkSeed(k) => k@,
            ArkAccessor::HelmKey(k) => k@,
            ArkAccessor::DataKey(k) => k@,
            ArkAccessor::WorkerKey(k) => k@,
        }
    }

    /// Opens a manifest envelope with this key.
    pub fn open_manifest(&self, env: &Envelope) -> (r: Result<Manifest, ArkError>)
        ensures
            match r {
                Ok(m) => (match env.opens_to(self.secret_spec()) {
                    Ok(pt) => crate::manifest::parse_manifest(pt) == Some(m@),
                    Err(_) => false,
                }),
                Err(e) => (match env.opens_to(self.secret_spec()) {
                    Ok(_) => e == ArkError::BadEncoding,
                    Err(inner) => e == inner,
                }),
            },
    {
        match self {
            ArkAccessor::ArkSeed(k) => open_manifest(env, k),
            ArkAccessor::HelmKey(k) => open_manifest(env, k),
            ArkAccessor::DataKey(k) => open_manifest(env, k),
            ArkAccessor::WorkerKey(k) => open_manifest(env, k),
        }
    }
}

/// The settings a new Ark is created from.
pub struct ArkCreationSettings {
    /// The Ark's name, UTF-8 bytes.
    pub name: Vec<u8>,
    /// An optional description, UTF-8 bytes.
    pub description: Option<Vec<u8>>,
    /// A Worker public key to authorize; absent, a fresh one is drawn.
    pub authorized_worker: Option<crate::hierarchy::PublicWorkerKey>,
}

/// Everything creating an Ark writes, and everything its creator must
/// keep.
pub struct ArkCreationPlan {
    /// The master seed; only the mnemonic can regenerate it.
    pub ark_seed: ArkSeed,
    /// The 24-word phrase that regenerates the seed.
    pub mnemonic: ConfidentialString,
    /// The Ark's public address.
    pub address: ArkAddress,
    /// The fresh helm register value.
    pub helm_seed: HelmKeySeed,
    /// The Helm key the register value derives to.
    pub helm_key: HelmKey,
    /// The fresh data register value.
    pub data_seed: DataKeySeed,
    /// The Data key the register value derives to.
    pub data_key: DataKey,
    /// The one-entry keyring, encrypted to the Seal key.
    pub keyring_ciphertext: Vec<u8>,
    /// The authorized Worker key; the secret half only when it was drawn
    /// here.
    pub worker_key: EitherWorkerKey,
    /// The initial manifest.
    pub manifest: Manifest,
    /// The manifest sealed to the four readers.
    pub manifest_envelope: Envelope,
}

/// Plans the creation of an Ark: draws the seed and the role seeds,
/// builds the empty manifest under the chosen Worker authority, seals it
/// to the four readers, and encrypts the one-entry keyring to the Seal
/// key.
pub fn plan_ark_creation(settings: ArkCreationSettings, now: u64) -> (r: ArkCreationPlan)
    requires
        settings.name@.len() < 4294967296,
        (match settings.description {
            Option::Some(ref d) => d@.len() < 4294967296,
            Option::None => true,
        }),
    ensures
        mnemonic_ok(r.mnemonic@),
        r.ark_seed@ == crate::hierarchy::seed_scalar_of_phrase(r.mnemonic@),
        r.address@ == bls_pk_of(r.ark_seed@),
        r.helm_key@ == bls_child_sk(r.ark_seed@, r.helm_seed@),
        r.data_key@ == bls_child_sk(r.ark_seed@, r.data_seed@),
        r.manifest@.name == settings.name@,
        r.manifest@.created == now,
        r.manifest@.retired_workers.len() == 0,
        r.manifest@.vaults.len() == 0,
        r.manifest@.ark_address == r.address@,
        r.manifest@.authorized_worker == (match settings.authorized_worker {
            Option::Some(ref w) => w@,
            Option::None => (match r.worker_key {
                EitherWorkerKey::Secret(ref k) => bls_pk_of(k@),
                EitherWorkerKey::Public(ref k) => k@,
            }),
        }),
        bls_decrypt_spec(r.data_key@, r.keyring_ciphertext@)
            == Some(ring_bytes(seq![r.data_key@])),
        forall|sk: Seq<u8>| #[trigger] r.manifest_envelope.opens_to(sk) == (
            if is_manifest_reader(sk, r.address@, bls_pk_of(r.helm_key@),
                r.manifest@.authorized_worker, bls_pk_of(r.data_key@)) {
                Ok::<Seq<u8>, ArkError>(manifest_bytes(r.manifest@))
            } else {
                Err::<Seq<u8>, ArkError>(ArkError::WrongRecipient)
            }
        ),
{
    let (ark_seed, mnemonic) = ArkSeed::random();
    let address = ark_seed.address().clone();
    let helm_seed = HelmKeySeed::random();
    let helm_key = ark_seed.helm_key(&helm_seed);
    let data_seed = DataKeySeed::random();
    let data_key = ark_seed.data_key(&data_seed);
    let mut keyring: KeyRing<crate::hierarchy::DataKeyKind> = KeyRing::new();
    let inserted = keyring.push(data_key.clone());
    proof {
        assert(inserted);
        assert(keyring@ =~= seq![data_key@]);
    }
    let ring_data = keyring.serialize();
    let seal_pk = data_key.public_key().to_bytes();
    proof {
        assert(ring_data@.len() >= 16);
    }
    let keyring_ciphertext = crate::bls::bls_encrypt(&seal_pk, &ring_data);
    let worker_key: EitherWorkerKey = match settings.authorized_worker {
        Some(pk) => EitherWorkerKey::Public(pk),
        None => EitherWorkerKey::Secret(WorkerKey::random()),
    };
    let manifest = Manifest::new(
        address.clone(),
        settings.name,
        settings.description,
        worker_key.public_key().clone(),
        now,
    );
    let encryptor = ManifestEncryptor::new(
        address.clone(),
        helm_key.public_key().clone(),
        worker_key.public_key().clone(),
        data_key.public_key().clone(),
    );
    proof {
        assert(manifest_fits(manifest@));
        assert(keyring@ =~= seq![data_key@]);
    }
    let manifest_envelope = encryptor.encrypt_manifest(&manifest);
    ArkCreationPlan {
        ark_seed,
        mnemonic,
        address,
        helm_seed,
        helm_key,
        data_seed,
        data_key,
        keyring_ciphertext,
        worker_key,
        manifest,
        manifest_envelope,
    }
}

} // verus!
