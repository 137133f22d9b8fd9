//! The key algebra: derivation, text forms, mnemonics.

use ark_core::hierarchy::{ArkSeed, HelmKeySeed, WorkerKey};
use ark_core::keys::TypedDerivationIndex;

#[test]
fn derive_child_public_agrees_with_secret() {
    // The child's public key equals the parent public key's child at the
    // same index, for a path-derived and a random index.
    let (seed, _mnemonic) = ArkSeed::random();
    let idx = ark_core::hierarchy::helm_register_derivator();
    let child = seed.derive_child(&idx);
    let child_pk_direct = child.public_key().to_bytes();
    let child_pk_from_public = seed.public_key().derive_child(&idx).to_bytes();
    assert_eq!(child_pk_direct, child_pk_from_public);

    let random_idx: HelmKeySeed = TypedDerivationIndex::random();
    let child2 = seed.derive_child(&random_idx);
    let viaduct = seed.public_key().derive_child(&random_idx);
    assert_eq!(child2.public_key().to_bytes(), viaduct.to_bytes());
}

#[test]
fn derivation_is_deterministic() {
    let (seed, _mnemonic) = ArkSeed::random();
    let idx = ark_core::hierarchy::data_register_derivator();
    let a = seed.derive_child(&idx);
    let b = seed.derive_child(&idx);
    assert_eq!(a.danger_to_bytes(), b.danger_to_bytes());
}

#[test]
fn bech32_roundtrip_secret() {
    let key = WorkerKey::random();
    let text = key.danger_to_string();
    assert!(text.starts_with("arkworkersec1"));
    let back = WorkerKey::from_str(text.as_str()).expect("round trip");
    assert_eq!(back.danger_to_bytes(), key.danger_to_bytes());
}

#[test]
fn bech32_roundtrip_public() {
    let key = WorkerKey::random();
    let text = key.public_key().to_bech32();
    assert!(text.starts_with("arkworkerpub1"));
    let back = ark_core::hierarchy::PublicWorkerKey::from_str(text.as_str()).expect("round trip");
    assert_eq!(back.to_bytes(), key.public_key().to_bytes());
}

#[test]
fn bech32_single_character_mutation_fails() {
    let key = WorkerKey::random();
    let text = key.danger_to_string();
    let bytes = text.as_bytes();
    // Mutate each character in turn; every mutation must be refused.
    for i in 0..bytes.len() {
        let mut mutated = bytes.to_vec();
        mutated[i] = if mutated[i] == b'q' { b'p' } else { b'q' };
        let s = match String::from_utf8(mutated) {
            Ok(s) => s,
            Err(_) => continue,
        };
        if s == text {
            continue;
        }
        assert!(
            WorkerKey::from_str(s.as_str()).is_err(),
            "mutation at {} was accepted",
            i
        );
    }
}

#[test]
fn bech32_wrong_role_fails() {
    // A worker secret does not decode as a helm secret: the prefix is
    // the role policy.
    let key = WorkerKey::random();
    let text = key.danger_to_string();
    assert!(ark_core::hierarchy::HelmKey::from_str(text.as_str()).is_err());
}

#[test]
fn mnemonic_regenerates_seed() {
    let (seed, mnemonic) = ArkSeed::random();
    let words: Vec<&str> = mnemonic.expose().split_whitespace().collect();
    assert_eq!(words.len(), 24);
    let again = ArkSeed::try_from_mnemonic(mnemonic.expose()).expect("well-formed phrase");
    assert_eq!(again.danger_to_bytes(), seed.danger_to_bytes());
    assert_eq!(again.public_key().to_bytes(), seed.public_key().to_bytes());
}

#[test]
fn bad_mnemonic_is_refused() {
    assert!(ArkSeed::try_from_mnemonic("not a mnemonic at all").is_err());
    let (_, mnemonic) = ArkSeed::random();
    let mut words: Vec<String> =
        mnemonic.expose().split_whitespace().map(|w| w.to_string()).collect();
    // Swapping two distinct words breaks the checksum in almost every case;
    // a seed must never silently change.
    words.swap(0, 1);
    let swapped = words.join(" ");
    if swapped != mnemonic.expose() {
        match ArkSeed::try_from_mnemonic(swapped.as_str()) {
            Err(_) => {}
            Ok(seed) => {
                let original = ArkSeed::try_from_mnemonic(mnemonic.expose()).unwrap();
                assert_ne!(seed.danger_to_bytes(), original.danger_to_bytes());
            }
        }
    }
}

#[test]
fn hex_encoding_is_two_digits_per_byte() {
    let bytes = vec![0x00u8, 0x0f, 0xa5, 0xff];
    let hex = ark_core::hexs::hex_encode(&bytes);
    assert_eq!(hex, b"000fa5ff".to_vec());
}
