//! The rotation planners and the manifest engine.

use ark_core::ark::{ArkAccessor, ArkCreationSettings, plan_ark_creation};
use ark_core::engine::{
    check_manifest_address, derive_data_keyring, open_manifest, plan_data_rotation,
    plan_full_rotation, plan_helm_rotation, plan_worker_rotation, verify_ark_seed,
    verify_helm_key, ManifestEncryptor,
};
use ark_core::errors::ArkError;
use ark_core::hierarchy::{ArkSeed, DataKeySeed, EitherWorkerKey, WorkerKey};

#[test]
fn ark_creation_builds_a_readable_empty_manifest() {
    let plan = plan_ark_creation(
        ArkCreationSettings {
            name: b"T1".to_vec(),
            description: None,
            authorized_worker: None,
        },
        1000,
    );
    // The mnemonic regenerates the seed.
    let again = ArkSeed::try_from_mnemonic(plan.mnemonic.expose()).expect("phrase");
    assert_eq!(again.danger_to_bytes(), plan.ark_seed.danger_to_bytes());
    // The fresh manifest: the right name, no vaults, no retired workers,
    // the returned worker authorized.
    assert_eq!(plan.manifest.name, b"T1".to_vec());
    assert_eq!(plan.manifest.vaults.len(), 0);
    assert_eq!(plan.manifest.retired_workers.len(), 0);
    assert_eq!(
        plan.manifest.authorized_worker.to_bytes(),
        plan.worker_key.public_key().to_bytes()
    );
    // The envelope opens under the seed and under each role key.
    let m = ArkAccessor::ArkSeed(plan.ark_seed.clone())
        .open_manifest(&plan.manifest_envelope)
        .expect("the seed reads the manifest");
    assert_eq!(m.name, b"T1".to_vec());
    open_manifest(&plan.manifest_envelope, &plan.helm_key).expect("helm reads");
    open_manifest(&plan.manifest_envelope, &plan.data_key).expect("data reads");
    match &plan.worker_key {
        EitherWorkerKey::Secret(w) => {
            open_manifest(&plan.manifest_envelope, w).expect("worker reads");
        }
        EitherWorkerKey::Public(_) => panic!("a drawn worker key keeps its secret"),
    }
    // The keyring ciphertext decrypts under the new data key to one key.
    let ring_bytes = ark_core::schemes::DefaultEncryptionScheme::decrypt(
        &plan.data_key,
        &plan.keyring_ciphertext,
    )
    .expect("seal key recipient");
    let ring: ark_core::keyring::KeyRing<ark_core::hierarchy::DataKeyKind> =
        ark_core::keyring::KeyRing::deserialize(&ring_bytes).expect("well-formed ring");
    assert_eq!(ring.len(), 1);
    assert_eq!(
        ring.index(0).danger_to_bytes(),
        plan.data_key.danger_to_bytes()
    );
}

#[test]
fn data_rotation_preserves_history_in_order() {
    // Three prior seeds; after the rotation the keyring holds all four
    // keys, chronologically, the fresh one last.
    let plan = plan_ark_creation(
        ArkCreationSettings {
            name: b"T1".to_vec(),
            description: None,
            authorized_worker: None,
        },
        1000,
    );
    let history: Vec<DataKeySeed> = vec![
        plan.data_seed.clone(),
        ark_core::keys::TypedDerivationIndex::random(),
        ark_core::keys::TypedDerivationIndex::random(),
    ];
    let rotation = plan_data_rotation(
        &plan.ark_seed,
        &history,
        &plan.manifest,
        plan.helm_key.public_key(),
    )
    .expect("history fits");
    assert_eq!(rotation.keyring.len(), 4);
    for (i, seed) in history.iter().enumerate() {
        assert_eq!(
            rotation.keyring.index(i).danger_to_bytes(),
            plan.ark_seed.data_key(seed).danger_to_bytes()
        );
    }
    assert_eq!(
        rotation.keyring.index(3).danger_to_bytes(),
        rotation.new_data_key.danger_to_bytes()
    );
    // The keyring ciphertext decrypts under the new data key only.
    let ring_bytes = ark_core::schemes::DefaultEncryptionScheme::decrypt(
        &rotation.new_data_key,
        &rotation.keyring_ciphertext,
    )
    .expect("new seal key");
    let ring: ark_core::keyring::KeyRing<ark_core::hierarchy::DataKeyKind> =
        ark_core::keyring::KeyRing::deserialize(&ring_bytes).expect("well-formed ring");
    assert_eq!(ring.len(), 4);
    // The refreshed manifest opens under the new data key and refuses
    // the old one.
    open_manifest(&rotation.manifest_envelope, &rotation.new_data_key).expect("new data key");
    assert!(matches!(
        open_manifest(&rotation.manifest_envelope, &plan.data_key),
        Err(ArkError::WrongRecipient)
    ));
}

#[test]
fn helm_rotation_reseals_for_the_new_helm_key() {
    let plan = plan_ark_creation(
        ArkCreationSettings {
            name: b"T1".to_vec(),
            description: None,
            authorized_worker: None,
        },
        1000,
    );
    let rotation = plan_helm_rotation(
        &plan.ark_seed,
        &plan.manifest,
        plan.data_key.public_key(),
    );
    // The new manifest opens under the new helm key and refuses the old.
    let m = open_manifest(&rotation.manifest_envelope, &rotation.new_helm_key)
        .expect("new helm key");
    assert_eq!(m.retired_workers.len(), 0);
    assert!(matches!(
        open_manifest(&rotation.manifest_envelope, &plan.helm_key),
        Err(ArkError::WrongRecipient)
    ));
    // Its address moves with the register value: the manifest address
    // derives from the new helm public key.
    let new_addr = rotation.new_helm_key.public_key().manifest_address();
    let old_addr = plan.helm_key.public_key().manifest_address();
    assert_ne!(new_addr.owner().to_bytes(), old_addr.owner().to_bytes());
}

#[test]
fn worker_rotation_grows_the_audit_trail_in_order() {
    // Two rotations with drawn keys: the first two worker keys retire in
    // retirement order; the third is authorized.
    let plan = plan_ark_creation(
        ArkCreationSettings {
            name: b"T1".to_vec(),
            description: None,
            authorized_worker: None,
        },
        1000,
    );
    let w1 = plan.manifest.authorized_worker.to_bytes();
    let first = plan_worker_rotation(
        &plan.address,
        plan.manifest,
        plan.helm_key.public_key(),
        plan.data_key.public_key(),
        None,
        2000,
    );
    let w2 = first.manifest.authorized_worker.to_bytes();
    let second = plan_worker_rotation(
        &plan.address,
        first.manifest,
        plan.helm_key.public_key(),
        plan.data_key.public_key(),
        None,
        3000,
    );
    let m = &second.manifest;
    assert_eq!(m.retired_workers.len(), 2);
    assert_eq!(m.retired_workers[0].inner().to_bytes(), w1);
    assert_eq!(m.retired_workers[0].retired_at(), 2000);
    assert_eq!(m.retired_workers[1].inner().to_bytes(), w2);
    assert_eq!(m.retired_workers[1].retired_at(), 3000);
    assert!(m.retired_workers[0].retired_at() <= m.retired_workers[1].retired_at());
    assert_eq!(
        m.authorized_worker.to_bytes(),
        second.new_worker_key.public_key().to_bytes()
    );
    // The resealed manifest opens under the new worker key and refuses
    // the retired one.
    let second_worker = match &second.new_worker_key {
        EitherWorkerKey::Secret(k) => k,
        EitherWorkerKey::Public(_) => panic!("a drawn worker key keeps its secret"),
    };
    let first_worker = match &first.new_worker_key {
        EitherWorkerKey::Secret(k) => k,
        EitherWorkerKey::Public(_) => panic!("a drawn worker key keeps its secret"),
    };
    open_manifest(&second.manifest_envelope, second_worker).expect("new worker");
    assert!(matches!(
        open_manifest(&second.manifest_envelope, first_worker),
        Err(ArkError::WrongRecipient)
    ));
}

#[test]
fn worker_rotation_accepts_a_supplied_public_key() {
    let plan = plan_ark_creation(
        ArkCreationSettings {
            name: b"T1".to_vec(),
            description: None,
            authorized_worker: None,
        },
        1000,
    );
    let supplied = WorkerKey::random();
    let rotation = plan_worker_rotation(
        &plan.address,
        plan.manifest,
        plan.helm_key.public_key(),
        plan.data_key.public_key(),
        Some(supplied.public_key().clone()),
        2000,
    );
    assert!(matches!(rotation.new_worker_key, EitherWorkerKey::Public(_)));
    assert_eq!(
        rotation.manifest.authorized_worker.to_bytes(),
        supplied.public_key().to_bytes()
    );
    // The supplied key reads the resealed manifest.
    open_manifest(&rotation.manifest_envelope, &supplied).expect("supplied worker reads");
}

#[test]
fn full_rotation_rolls_all_three_keys() {
    let plan = plan_ark_creation(
        ArkCreationSettings {
            name: b"T1".to_vec(),
            description: None,
            authorized_worker: None,
        },
        1000,
    );
    let history = vec![plan.data_seed.clone()];
    let full = plan_full_rotation(&plan.ark_seed, &history, plan.manifest, None, 2000)
        .expect("history fits");
    // The final envelope opens under the seed and all three new keys, and
    // refuses every previous role key.
    open_manifest(&full.manifest_envelope, &plan.ark_seed).expect("seed reads");
    open_manifest(&full.manifest_envelope, &full.new_helm_key).expect("new helm reads");
    open_manifest(&full.manifest_envelope, &full.new_data_key).expect("new data reads");
    match &full.new_worker_key {
        EitherWorkerKey::Secret(k) => {
            open_manifest(&full.manifest_envelope, k).expect("new worker reads");
        }
        EitherWorkerKey::Public(_) => panic!("a drawn worker key keeps its secret"),
    }
    assert!(matches!(
        open_manifest(&full.manifest_envelope, &plan.helm_key),
        Err(ArkError::WrongRecipient)
    ));
    assert!(matches!(
        open_manifest(&full.manifest_envelope, &plan.data_key),
        Err(ArkError::WrongRecipient)
    ));
    // The keyring holds the old and the new data key, in order.
    assert_eq!(full.keyring.len(), 2);
    assert_eq!(
        full.keyring.index(0).danger_to_bytes(),
        plan.data_key.danger_to_bytes()
    );
    assert_eq!(
        full.keyring.index(1).danger_to_bytes(),
        full.new_data_key.danger_to_bytes()
    );
}

#[test]
fn authority_checks_name_the_mismatch() {
    let plan = plan_ark_creation(
        ArkCreationSettings {
            name: b"T1".to_vec(),
            description: None,
            authorized_worker: None,
        },
        1000,
    );
    assert!(verify_ark_seed(&plan.ark_seed, &plan.address).is_ok());
    let (other_seed, _mnemonic) = ArkSeed::random();
    assert!(matches!(
        verify_ark_seed(&other_seed, &plan.address),
        Err(ArkError::AuthorityMismatch)
    ));
    assert!(verify_helm_key(&plan.helm_key, &plan.address, &plan.helm_seed).is_ok());
    let stranger_seed: ark_core::hierarchy::HelmKeySeed =
        ark_core::keys::TypedDerivationIndex::random();
    assert!(matches!(
        verify_helm_key(&plan.helm_key, &plan.address, &stranger_seed),
        Err(ArkError::AuthorityMismatch)
    ));
    assert!(check_manifest_address(&plan.manifest, &plan.address).is_ok());
    let (foreign, _mn) = ArkSeed::random();
    assert!(matches!(
        check_manifest_address(&plan.manifest, foreign.public_key()),
        Err(ArkError::ManifestMismatch)
    ));
}

#[test]
fn empty_data_history_breaks_the_invariant() {
    let (seed, _mnemonic) = ArkSeed::random();
    let empty: Vec<DataKeySeed> = Vec::new();
    assert!(matches!(
        derive_data_keyring(&seed, &empty),
        Err(ArkError::InvariantViolation)
    ));
    let one = vec![ark_core::keys::TypedDerivationIndex::random()];
    let ring = derive_data_keyring(&seed, &one).expect("one entry derives");
    assert_eq!(ring.len(), 1);
}

#[test]
fn manifest_rejects_reader_outside_the_recipient_set() {
    let plan = plan_ark_creation(
        ArkCreationSettings {
            name: b"T1".to_vec(),
            description: None,
            authorized_worker: None,
        },
        1000,
    );
    let encryptor = ManifestEncryptor::new(
        plan.address.clone(),
        plan.helm_key.public_key().clone(),
        plan.manifest.authorized_worker.clone(),
        plan.data_key.public_key().clone(),
    );
    let env = encryptor.encrypt_manifest(&plan.manifest);
    let stranger = WorkerKey::random();
    assert!(matches!(
        open_manifest(&env, &stranger),
        Err(ArkError::WrongRecipient)
    ));
}
