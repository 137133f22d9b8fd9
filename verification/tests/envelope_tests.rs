//! The multi-recipient envelope and the single-recipient scheme.

use ark_core::envelope::Envelope;
use ark_core::errors::ArkError;
use ark_core::hierarchy::WorkerKey;
use ark_core::schemes::DefaultEncryptionScheme;

#[test]
fn every_recipient_opens_the_envelope() {
    let k1 = WorkerKey::random();
    let k2 = WorkerKey::random();
    let k3 = WorkerKey::random();
    let recipients = vec![k1.public_key().to_bytes(), k2.public_key().to_bytes()];
    let message = b"the manifest payload".to_vec();
    let env = Envelope::seal(&recipients, &message);

    assert_eq!(env.open(&k1.danger_to_bytes()).expect("recipient one"), message);
    assert_eq!(env.open(&k2.danger_to_bytes()).expect("recipient two"), message);
    // A key outside the recipient set is told it is the wrong recipient,
    // not that the ciphertext is corrupt.
    assert_eq!(env.open(&k3.danger_to_bytes()), Err(ArkError::WrongRecipient));
}

#[test]
fn corrupting_one_stanza_spares_the_others() {
    let k1 = WorkerKey::random();
    let k2 = WorkerKey::random();
    let recipients = vec![k1.public_key().to_bytes(), k2.public_key().to_bytes()];
    let message = b"shared secret".to_vec();
    let env = Envelope::seal(&recipients, &message);

    // Corrupt the first stanza's body; the second recipient still reads.
    let stanzas = env.stanzas();
    let mut broken_body = stanzas[0].body().clone();
    broken_body[0] ^= 0xff;
    let rebuilt = Envelope::from_parts(
        vec![
            ark_core::envelope::Stanza::from_parts(stanzas[0].hex_tag().clone(), broken_body),
            ark_core::envelope::Stanza::from_parts(
                stanzas[1].hex_tag().clone(),
                stanzas[1].body().clone(),
            ),
        ],
        env.payload().clone(),
    );
    assert_eq!(rebuilt.open(&k2.danger_to_bytes()).expect("second recipient"), message);
    // The first recipient sees a crypto failure, not a missing stanza.
    assert_eq!(rebuilt.open(&k1.danger_to_bytes()), Err(ArkError::CryptoFailure));
}

#[test]
fn envelope_bytes_roundtrip() {
    let k1 = WorkerKey::random();
    let recipients = vec![k1.public_key().to_bytes()];
    let message = b"bytes on a scratchpad".to_vec();
    let env = Envelope::seal(&recipients, &message);
    let bytes = env.to_bytes();
    let back = Envelope::from_bytes(&bytes).expect("canonical bytes parse");
    assert_eq!(back.open(&k1.danger_to_bytes()).expect("still opens"), message);
    assert_eq!(back.to_bytes(), bytes);
}

#[test]
fn single_recipient_scheme_roundtrip() {
    let key = WorkerKey::random();
    let message = b"keyring bytes".to_vec();
    let ct = DefaultEncryptionScheme::encrypt(key.public_key(), &message);
    let pt = DefaultEncryptionScheme::decrypt(&key, &ct).expect("matching key");
    assert_eq!(pt, message);
}

#[test]
fn single_recipient_scheme_rejects_garbage() {
    let key = WorkerKey::random();
    let garbage = vec![0u8; 16];
    assert!(DefaultEncryptionScheme::decrypt(&key, &garbage).is_err());
}

#[test]
fn envelope_bytes_carry_the_scheme_literal() {
    let k1 = WorkerKey::random();
    let recipients = vec![k1.public_key().to_bytes()];
    let env = Envelope::seal(&recipients, &b"tagged".to_vec());
    let mut bytes = env.to_bytes();
    // After the stanza count and the length field comes the scheme
    // literal `blsttc`; a stanza of another scheme is refused.
    assert_eq!(&bytes[8..14], b"blsttc");
    bytes[8] ^= 0x01;
    assert!(matches!(
        Envelope::from_bytes(&bytes),
        Err(ark_core::errors::ArkError::BadEncoding)
    ));
}
