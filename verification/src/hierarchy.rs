//! The Ark's key hierarchy: role tags, their Bech32 prefixes, the fixed
//! derivation paths, and the derivations from the master seed.
//!
//! Every role-specific key is a child of the Ark seed (or of the current
//! Helm key) at an index that is either the content hash of a fixed ASCII
//! path or a random 32-byte seed stored on the network.

use vstd::prelude::*;
use crate::bech32x::is_valid_hrp;
use crate::bls::{bls_child_pk, bls_child_sk, bls_pk_of};
use crate::confidential::ConfidentialString;
use crate::errors::ArkError;
use crate::hashing::hash_of_name;
use crate::keys::{
    AllowRandom, Bech32Public, Bech32Secret, Derived, EitherKey, Finalizeable, Retirable,
    RetiredKey, TypedDerivationIndex, TypedPublicKey, TypedSecretKey,
};
use crate::mnemonics::{
    derive_master_scalar, generate_mnemonic_phrase, master_scalar_of, mnemonic_ok,
    mnemonic_to_seed, seed_of_mnemonic,
};

verus! {

/// The role of the master seed and of the Ark's own address.
pub struct ArkRoot;

/// The role of the Helm (manifest-write) authority.
pub struct Helm;

/// The role of the register that stores the current Helm key seed.
pub struct HelmRegisterKind;

/// The role of the Data (read) authority.
pub struct Data;

/// The role of the register that stores the current Data key seed.
pub struct DataRegisterKind;

/// The role of the keyring of historical Data keys.
pub struct DataKeyRingKind;

/// The role of the Worker (runtime identity) authority.
pub struct WorkerKeyKind;

/// The role of a register holding a Worker key seed.
pub struct WorkerRegisterKind;

/// The role of a Bridge identity a vault may authorize.
pub struct BridgeKind;

/// The role of a Vault's identity key.
pub struct VaultKind;

/// The role of the vault-to-ark pointer's owner: the vault key's child
/// at the pointer path.
pub struct ArkPointerKind;

/// The master secret of an Ark; every other key derives from it.
pub type ArkSeed = TypedSecretKey<ArkRoot>;

/// The public address of an Ark: the master seed's public key.
pub type ArkAddress = TypedPublicKey<ArkRoot>;

/// The role tag of the Helm key, a child of the Ark root.
pub type HelmKind = Derived<Helm, ArkRoot>;

/// The current manifest-write authority.
pub type HelmKey = TypedSecretKey<HelmKind>;

/// The public half of the Helm key.
pub type PublicHelmKey = TypedPublicKey<HelmKind>;

/// The random index the current Helm key is derived at.
pub type HelmKeySeed = TypedDerivationIndex<HelmKind>;

/// The role tag of the Data key, a child of the Ark root.
pub type DataKeyKind = Derived<Data, ArkRoot>;

/// The current data-read authority.
pub type DataKey = TypedSecretKey<DataKeyKind>;

/// The current Data public key, the envelope recipient of the keyring.
pub type SealKey = TypedPublicKey<DataKeyKind>;

/// The random index the current Data key is derived at.
pub type DataKeySeed = TypedDerivationIndex<DataKeyKind>;

/// The runtime identity key the manifest authorizes.
pub type WorkerKey = TypedSecretKey<WorkerKeyKind>;

/// The public half of the Worker key.
pub type PublicWorkerKey = TypedPublicKey<WorkerKeyKind>;

/// A Worker key of which only the public half may be known.
pub type EitherWorkerKey = EitherKey<WorkerKeyKind>;

/// A Worker public key with its retirement time: the audit trail entry.
pub type RetiredWorkerKey = RetiredKey<WorkerKeyKind>;

/// A Bridge secret key.
pub type BridgeKey = TypedSecretKey<BridgeKind>;

/// A Bridge public address.
pub type BridgeAddress = TypedPublicKey<BridgeKind>;

/// A Vault's identity: a public key whose secret is discarded at creation.
pub type VaultAddress = TypedPublicKey<VaultKind>;

/// The short-lived secret behind a fresh vault address.
pub type VaultKey = TypedSecretKey<VaultKind>;

impl Bech32Public for ArkRoot {
    open spec fn hrp_spec() -> Seq<char> { "arkaddr"@ }

    fn hrp() -> (r: &'static str) { "arkaddr" }

    proof fn hrp_valid() {
        reveal_strlit("arkaddr");
        assert(is_valid_hrp("arkaddr"@));
    }
}

impl Bech32Secret for HelmKind {
    open spec fn hrp_spec() -> Seq<char> { "arkhelmsec"@ }

    fn hrp() -> (r: &'static str) { "arkhelmsec" }

    proof fn hrp_valid() {
        reveal_strlit("arkhelmsec");
        assert(is_valid_hrp("arkhelmsec"@));
    }
}

impl Bech32Secret for DataKeyKind {
    open spec fn hrp_spec() -> Seq<char> { "arkdatasec"@ }

    fn hrp() -> (r: &'static str) { "arkdatasec" }

    proof fn hrp_valid() {
        reveal_strlit("arkdatasec");
        assert(is_valid_hrp("arkdatasec"@));
    }
}

impl Bech32Secret for WorkerKeyKind {
    open spec fn hrp_spec() -> Seq<char> { "arkworkersec"@ }

    fn hrp() -> (r: &'static str) { "arkworkersec" }

    proof fn hrp_valid() {
        reveal_strlit("arkworkersec");
        assert(is_valid_hrp("arkworkersec"@));
    }
}

impl Bech32Public for WorkerKeyKind {
    open spec fn hrp_spec() -> Seq<char> { "arkworkerpub"@ }

    fn hrp() -> (r: &'static str) { "arkworkerpub" }

    proof fn hrp_valid() {
        reveal_strlit("arkworkerpub");
        assert(is_valid_hrp("arkworkerpub"@));
    }
}

impl Bech32Secret for BridgeKind {
    open spec fn hrp_spec() -> Seq<char> { "arkbridgesec"@ }

    fn hrp() -> (r: &'static str) { "arkbridgesec" }

    proof fn hrp_valid() {
        reveal_strlit("arkbridgesec");
        assert(is_valid_hrp("arkbridgesec"@));
    }
}

impl Bech32Public for BridgeKind {
    open spec fn hrp_spec() -> Seq<char> { "arkbridgepub"@ }

    fn hrp() -> (r: &'static str) { "arkbridgepub" }

    proof fn hrp_valid() {
        reveal_strlit("arkbridgepub");
        assert(is_valid_hrp("arkbridgepub"@));
    }
}

impl Bech32Public for VaultKind {
    open spec fn hrp_spec() -> Seq<char> { "arkvaultaddr"@ }

    fn hrp() -> (r: &'static str) { "arkvaultaddr" }

    proof fn hrp_valid() {
        reveal_strlit("arkvaultaddr");
        assert(is_valid_hrp("arkvaultaddr"@));
    }
}

impl AllowRandom for WorkerKeyKind {}

impl AllowRandom for VaultKind {}

impl Retirable for WorkerKeyKind {}

impl Finalizeable for ArkAddress {}

/// The derivation path of the Helm key register's owner.
pub open spec fn helm_register_path() -> Seq<char> { "/ark/v0/helm/register"@ }

/// The derivation path of the Data key register's owner.
pub open spec fn data_register_path() -> Seq<char> { "/ark/v0/data/register"@ }

/// The derivation path of the data keyring scratchpad's owner.
pub open spec fn data_keyring_path() -> Seq<char> { "/ark/v0/data/keyring/scratchpad"@ }

/// The derivation path of the manifest scratchpad's owner, under the Helm key.
pub open spec fn manifest_path() -> Seq<char> { "/ark/v0/manifest/scratchpad"@ }

/// The derivation path of the vault-to-ark pointer, under the Vault key.
pub open spec fn ark_pointer_path() -> Seq<char> { "/ark/v0/vault/ark/pointer"@ }

/// The index of the Helm register under the Ark root.
pub fn helm_register_derivator() -> (r: TypedDerivationIndex<HelmRegisterKind>)
    ensures r@ == hash_of_name(helm_register_path()),
{
    TypedDerivationIndex::from_name("/ark/v0/helm/register")
}

/// The index of the Data register under the Ark root.
pub fn data_register_derivator() -> (r: TypedDerivationIndex<DataRegisterKind>)
    ensures r@ == hash_of_name(data_register_path()),
{
    TypedDerivationIndex::from_name("/ark/v0/data/register")
}

/// The index of the data keyring scratchpad under the Ark root.
pub fn data_keyring_derivator() -> (r: TypedDerivationIndex<DataKeyRingKind>)
    ensures r@ == hash_of_name(data_keyring_path()),
{
    TypedDerivationIndex::from_name("/ark/v0/data/keyring/scratchpad")
}

/// The index of the manifest scratchpad under the Helm key.
pub fn manifest_derivator() -> (r: TypedDerivationIndex<HelmKind>)
    ensures r@ == hash_of_name(manifest_path()),
{
    TypedDerivationIndex::from_name("/ark/v0/manifest/scratchpad")
}

/// The index of the vault-to-ark pointer under the Vault key.
pub fn ark_pointer_derivator() -> (r: TypedDerivationIndex<ArkPointerKind>)
    ensures r@ == hash_of_name(ark_pointer_path()),
{
    TypedDerivationIndex::from_name("/ark/v0/vault/ark/pointer")
}

/// The master scalar a mnemonic phrase leads to.
pub open spec fn seed_scalar_of_phrase(phrase: Seq<char>) -> Seq<u8> {
    master_scalar_of(seed_of_mnemonic(phrase))
}

impl ArkSeed {
    /// Rebuilds the master seed from a 24-word mnemonic phrase.  Succeeds
    /// exactly on well-formed phrases; the stretched seed bytes are zeroized
    /// before returning either way.
    pub fn try_from_mnemonic(phrase: &str) -> (r: Result<ArkSeed, ArkError>)
        ensures
            match r {
                Ok(k) => mnemonic_ok(phrase@) && k@ == seed_scalar_of_phrase(phrase@),
                Err(e) => e == ArkError::BadEncoding && !mnemonic_ok(phrase@),
            },
    {
        match mnemonic_to_seed(phrase) {
            None => Err(ArkError::BadEncoding),
            Some(mut seed) => {
                let scalar = derive_master_scalar(&seed);
                crate::keys::fill_zero(&mut seed);
                match ArkSeed::try_from_bytes(scalar) {
                    Ok(k) => Ok(k),
                    Err(e) => Err(e),
                }
            }
        }
    }

    /// A fresh Ark seed and the 24-word phrase that regenerates it.
    pub fn random() -> (r: (ArkSeed, ConfidentialString))
        ensures
            mnemonic_ok(r.1@),
            r.0@ == seed_scalar_of_phrase(r.1@),
    {
        let phrase = generate_mnemonic_phrase();
        let seed = match ArkSeed::try_from_mnemonic(phrase.as_str()) {
            Ok(k) => k,
            Err(_) => {
                proof { assert(false); }
                unreached()
            }
        };
        (seed, ConfidentialString::from_string(phrase))
    }

    /// The Ark's public address.
    pub fn address(&self) -> (r: &ArkAddress)
        ensures r@ == bls_pk_of(self@),
    {
        self.public_key()
    }

    /// The current Helm key: the child of the master seed at the stored seed.
    pub fn helm_key(&self, seed: &HelmKeySeed) -> (r: HelmKey)
        ensures
            r@ == bls_child_sk(self@, seed@),
            bls_pk_of(r@) == bls_child_pk(bls_pk_of(self@), seed@),
    {
        self.derive_child(seed)
    }

    /// The current Data key: the child of the master seed at the stored seed.
    pub fn data_key(&self, seed: &DataKeySeed) -> (r: DataKey)
        ensures
            r@ == bls_child_sk(self@, seed@),
            bls_pk_of(r@) == bls_child_pk(bls_pk_of(self@), seed@),
    {
        self.derive_child(seed)
    }
}

impl ArkAddress {
    /// The current public Helm key, predicted from the address alone.
    pub fn helm_key(&self, seed: &HelmKeySeed) -> (r: PublicHelmKey)
        ensures r@ == bls_child_pk(self@, seed@),
    {
        self.derive_child(seed)
    }

    /// The current Seal key (public Data key), predicted from the address alone.
    pub fn seal_key(&self, seed: &DataKeySeed) -> (r: SealKey)
        ensures r@ == bls_child_pk(self@, seed@),
    {
        self.derive_child(seed)
    }
}

} // verus!
