//! The persistence framing and the document codecs.

use ark_core::errors::ArkError;
use ark_core::hierarchy::{DataKeySeed, WorkerKey};
use ark_core::keyring::KeyRing;
use ark_core::keys::TypedDerivationIndex;
use ark_core::manifest::{Manifest, VaultConfig};
use ark_core::objects::{Email, FileSystem, ObjectStorage, ObjectType};

fn sample_manifest() -> Manifest {
    let (seed, _mnemonic) = ark_core::hierarchy::ArkSeed::random();
    let worker = WorkerKey::random();
    let mut m = Manifest::new(
        seed.public_key().clone(),
        b"T1".to_vec(),
        Some(b"a test ark".to_vec()),
        worker.public_key().clone(),
        1000,
    );
    let vault_key = ark_core::hierarchy::VaultKey::random();
    m.vaults.push(VaultConfig {
        address: vault_key.public_key().clone(),
        created: 1001,
        last_modified: 1002,
        name: b"documents".to_vec(),
        description: None,
        active: true,
        bridge: None,
        object_type: ObjectType::FileSystem(FileSystem::Posix),
    });
    let retired = WorkerKey::random();
    m.update_worker(retired.public_key(), 1003);
    m
}

#[test]
fn manifest_roundtrip() {
    let m = sample_manifest();
    let bytes = m.serialize();
    let back = Manifest::deserialize(&bytes).expect("canonical bytes parse");
    assert_eq!(back.name, m.name);
    assert_eq!(back.description, m.description);
    assert_eq!(back.created, m.created);
    assert_eq!(back.last_modified, m.last_modified);
    assert_eq!(back.ark_address.to_bytes(), m.ark_address.to_bytes());
    assert_eq!(
        back.authorized_worker.to_bytes(),
        m.authorized_worker.to_bytes()
    );
    assert_eq!(back.retired_workers.len(), m.retired_workers.len());
    for (a, b) in back.retired_workers.iter().zip(m.retired_workers.iter()) {
        assert_eq!(a.inner().to_bytes(), b.inner().to_bytes());
        assert_eq!(a.retired_at(), b.retired_at());
    }
    assert_eq!(back.vaults.len(), m.vaults.len());
    assert_eq!(back.vaults[0].name, m.vaults[0].name);
    assert_eq!(back.vaults[0].active, m.vaults[0].active);
    assert_eq!(back.vaults[0].object_type, m.vaults[0].object_type);
    // The re-serialized form is byte-identical.
    assert_eq!(back.serialize(), bytes);
}

#[test]
fn manifest_header_corruption_is_bad_encoding() {
    let m = sample_manifest();
    let mut bytes = m.serialize();
    // The first sixteen bytes are the magic header; flip one.
    bytes[3] ^= 0x01;
    assert!(matches!(Manifest::deserialize(&bytes), Err(ArkError::BadEncoding)));
}

#[test]
fn manifest_truncation_is_bad_encoding() {
    let m = sample_manifest();
    let bytes = m.serialize();
    let truncated = bytes[..bytes.len() - 1].to_vec();
    assert!(Manifest::deserialize(&truncated).is_err());
    let short = bytes[..10].to_vec();
    assert!(Manifest::deserialize(&short).is_err());
}

#[test]
fn manifest_trailing_bytes_are_refused() {
    let m = sample_manifest();
    let mut bytes = m.serialize();
    bytes.push(0);
    assert!(Manifest::deserialize(&bytes).is_err());
}

#[test]
fn keyring_roundtrip() {
    let (seed, _mnemonic) = ark_core::hierarchy::ArkSeed::random();
    let mut ring: KeyRing<ark_core::hierarchy::DataKeyKind> = KeyRing::new();
    for _ in 0..3 {
        let idx: DataKeySeed = TypedDerivationIndex::random();
        ring.push(seed.data_key(&idx));
    }
    let bytes = ring.serialize();
    let back: KeyRing<ark_core::hierarchy::DataKeyKind> =
        KeyRing::deserialize(&bytes).expect("canonical bytes parse");
    assert_eq!(back.len(), 3);
    for i in 0..3 {
        assert_eq!(
            back.index(i).danger_to_bytes(),
            ring.index(i).danger_to_bytes()
        );
    }
}

#[test]
fn keyring_header_corruption_is_bad_encoding() {
    let (seed, _mnemonic) = ark_core::hierarchy::ArkSeed::random();
    let mut ring: KeyRing<ark_core::hierarchy::DataKeyKind> = KeyRing::new();
    let idx: DataKeySeed = TypedDerivationIndex::random();
    ring.push(seed.data_key(&idx));
    let mut bytes = ring.serialize();
    bytes[0] ^= 0x01;
    assert!(KeyRing::<ark_core::hierarchy::DataKeyKind>::deserialize(&bytes).is_err());
}

#[test]
fn keyring_refuses_a_duplicate_public_key() {
    let (seed, _mnemonic) = ark_core::hierarchy::ArkSeed::random();
    let idx: DataKeySeed = TypedDerivationIndex::random();
    let key = seed.data_key(&idx);
    let mut ring: KeyRing<ark_core::hierarchy::DataKeyKind> = KeyRing::new();
    assert!(ring.push(key.clone()));
    // The same key again is refused: one entry per public key.
    assert!(!ring.push(key.clone()));
    assert_eq!(ring.len(), 1);
    let held = ring.get(key.public_key()).expect("the key is addressable");
    assert_eq!(held.danger_to_bytes(), key.danger_to_bytes());
    // A different key goes in.
    let other: DataKeySeed = TypedDerivationIndex::random();
    assert!(ring.push(seed.data_key(&other)));
    assert_eq!(ring.len(), 2);
}

#[test]
fn object_type_tags_roundtrip() {
    let all = [
        ObjectType::FileSystem(FileSystem::Posix),
        ObjectType::FileSystem(FileSystem::Windows),
        ObjectType::Email(Email::IMAP),
        ObjectType::Email(Email::GMAIL),
        ObjectType::ObjectStorage(ObjectStorage::S3),
    ];
    for t in all {
        assert_eq!(ObjectType::from_tag(t.tag()), Some(t));
    }
    assert_eq!(ObjectType::from_tag(5), None);
}
