//! The network-object state machines and their update planners.

use ark_core::engine::EncryptedManifestKind;
use ark_core::errors::ArkError;
use ark_core::hierarchy::WorkerKey;
use ark_core::keys::TypedSecretKey;
use ark_core::netobjects::{
    PointerState, ScratchpadState, ScratchpadWritePlan, TypedOwnedPointer,
    TypedOwnedScratchpad, plan_pointer_update, plan_scratchpad_creation, plan_scratchpad_update,
};
use ark_core::vault::ark_from_vault_pointer;

const MANIFEST_ENCODING: u64 = 344850175421548714;

struct NoteKind;

impl ark_core::keys::Finalizeable for NoteKind {}

fn owner() -> TypedSecretKey<NoteKind> {
    let worker = WorkerKey::random();
    TypedSecretKey::try_from_bytes(worker.danger_to_bytes()).expect("valid scalar")
}

#[test]
fn scratchpad_update_bumps_counter_once() {
    let mut pad: TypedOwnedScratchpad<NoteKind, EncryptedManifestKind> =
        TypedOwnedScratchpad::new(b"v1".to_vec(), owner());
    let c = pad.update(b"v2".to_vec()).expect("mutable pad");
    assert_eq!(c, 2);
    let c2 = pad.update(b"v3".to_vec()).expect("mutable pad");
    assert_eq!(c2, 3);
}

#[test]
fn scratchpad_update_same_value_issues_no_second_write() {
    // Idempotence: planning the same value against the remote state the
    // first write produced yields no write and the same counter.
    let pad: TypedOwnedScratchpad<NoteKind, EncryptedManifestKind> =
        TypedOwnedScratchpad::new(b"value".to_vec(), owner());
    let remote = pad.to_state();
    match plan_scratchpad_update(&pad, &remote).expect("live remote") {
        ScratchpadWritePlan::AlreadyCurrent(c) => assert_eq!(c, remote.counter),
        ScratchpadWritePlan::Write(_) => panic!("an unchanged value must not write"),
    }
}

#[test]
fn scratchpad_update_write_increases_remote_counter() {
    let mut pad: TypedOwnedScratchpad<NoteKind, EncryptedManifestKind> =
        TypedOwnedScratchpad::new(b"old".to_vec(), owner());
    let remote = ScratchpadState { content: b"old".to_vec(), data_encoding: MANIFEST_ENCODING, counter: 5 };
    pad.update(b"new".to_vec()).expect("mutable pad");
    match plan_scratchpad_update(&pad, &remote).expect("live remote") {
        ScratchpadWritePlan::Write(w) => {
            assert_eq!(w.counter, 6);
            assert!(w.counter > remote.counter);
            assert_eq!(w.content, b"new".to_vec());
        }
        ScratchpadWritePlan::AlreadyCurrent(_) => panic!("a changed value must write"),
    }
}

#[test]
fn scratchpad_update_keeps_a_local_counter_that_ran_ahead() {
    // When the pad's own counter has moved past the remote, the write
    // carries the pad's counter: once above the greater of the two.
    let mut pad: TypedOwnedScratchpad<NoteKind, EncryptedManifestKind> =
        TypedOwnedScratchpad::new(b"a".to_vec(), owner());
    pad.update(b"b".to_vec()).expect("mutable pad");
    pad.update(b"c".to_vec()).expect("mutable pad");
    assert_eq!(pad.counter_value(), 3);
    let remote = ScratchpadState { content: b"a".to_vec(), data_encoding: MANIFEST_ENCODING, counter: 1 };
    match plan_scratchpad_update(&pad, &remote).expect("live remote") {
        ScratchpadWritePlan::Write(w) => {
            assert_eq!(w.counter, 3);
            assert!(w.counter > remote.counter);
        }
        ScratchpadWritePlan::AlreadyCurrent(_) => panic!("a changed value must write"),
    }
    // The same content at a counter behind the pad's still writes, with
    // the pad's counter.
    let remote_same = ScratchpadState { content: b"c".to_vec(), data_encoding: MANIFEST_ENCODING, counter: 1 };
    match plan_scratchpad_update(&pad, &remote_same).expect("live remote") {
        ScratchpadWritePlan::Write(w) => assert_eq!(w.counter, 3),
        ScratchpadWritePlan::AlreadyCurrent(_) => panic!("the pad's counter is ahead"),
    }
}

#[test]
fn scratchpad_update_against_retired_remote_fails() {
    let pad: TypedOwnedScratchpad<NoteKind, EncryptedManifestKind> =
        TypedOwnedScratchpad::new(b"x".to_vec(), owner());
    let remote = ScratchpadState {
        content: b"RIP".to_vec(),
        data_encoding: u64::MAX,
        counter: u64::MAX,
    };
    assert!(matches!(
        plan_scratchpad_update(&pad, &remote),
        Err(ArkError::Retired)
    ));
}

#[test]
fn scratchpad_retire_writes_tombstone() {
    let pad: TypedOwnedScratchpad<NoteKind, EncryptedManifestKind> =
        TypedOwnedScratchpad::new(b"x".to_vec(), owner());
    let w = pad.retire().expect("mutable pad retires");
    assert_eq!(w.counter, u64::MAX);
    assert_eq!(w.data_encoding, u64::MAX);
    assert_eq!(w.content, b"RIP".to_vec());
    assert!(w.is_retired());
}

#[test]
fn pointer_becomes_immutable_forever() {
    let ptr: TypedOwnedPointer<NoteKind, NoteKind> =
        TypedOwnedPointer::new(vec![1u8; 48], owner());
    let w = ptr.make_immutable().expect("mutable pointer");
    assert_eq!(w.counter, u32::MAX);
    assert!(!w.is_mutable());
}

#[test]
fn pointer_update_plans_the_local_counter() {
    let mut ptr: TypedOwnedPointer<NoteKind, NoteKind> =
        TypedOwnedPointer::new(vec![1u8; 48], owner());
    ptr.update(vec![2u8; 48]).expect("mutable pointer");
    // The local counter (1) leads the remote (0): the write carries it.
    let remote = PointerState { target: vec![1u8; 48], counter: 0 };
    match plan_pointer_update(&ptr, &remote).expect("live remote") {
        ark_core::netobjects::PointerWritePlan::Write(w) => {
            assert_eq!(w.counter, 1);
            assert_eq!(w.target, vec![2u8; 48]);
        }
        ark_core::netobjects::PointerWritePlan::AlreadyCurrent(_) => {
            panic!("a changed target must write")
        }
    }
    // Logically identical (same target, same counter): no write.
    let equal = PointerState { target: vec![2u8; 48], counter: 1 };
    match plan_pointer_update(&ptr, &equal).expect("live remote") {
        ark_core::netobjects::PointerWritePlan::AlreadyCurrent(c) => assert_eq!(c, 1),
        ark_core::netobjects::PointerWritePlan::Write(_) => panic!("nothing changed"),
    }
    // Same target at a different counter is not equivalent: it writes.
    let stale_counter = PointerState { target: vec![2u8; 48], counter: 0 };
    match plan_pointer_update(&ptr, &stale_counter).expect("live remote") {
        ark_core::netobjects::PointerWritePlan::Write(w) => assert_eq!(w.counter, 1),
        ark_core::netobjects::PointerWritePlan::AlreadyCurrent(_) => panic!("counters differ"),
    }
    // A remote that moved past the local counter is a stale local view.
    let ahead = PointerState { target: vec![1u8; 48], counter: 9 };
    assert!(matches!(
        plan_pointer_update(&ptr, &ahead),
        Err(ArkError::InvariantViolation)
    ));
}

#[test]
fn vault_pointer_trust_anchor() {
    // Absent pointer: no vault.  Mutable pointer: refused.  Final
    // pointer: the target is trusted as the Ark.
    assert!(matches!(ark_from_vault_pointer(None), Ok(None)));
    let mutable = PointerState { target: vec![3u8; 48], counter: 7 };
    assert!(matches!(
        ark_from_vault_pointer(Some(mutable)),
        Err(ArkError::Immutable)
    ));
    let final_ptr = PointerState { target: vec![3u8; 48], counter: u32::MAX };
    match ark_from_vault_pointer(Some(final_ptr)) {
        Ok(Some(target)) => assert_eq!(target, vec![3u8; 48]),
        _ => panic!("a final pointer names the ark"),
    }
}

#[test]
fn scratchpad_creation_refuses_an_occupied_address() {
    let pad: TypedOwnedScratchpad<NoteKind, EncryptedManifestKind> =
        TypedOwnedScratchpad::new(b"fresh".to_vec(), owner());
    // An empty address takes the payload at the first counter.
    let write = plan_scratchpad_creation(&pad, &None).expect("empty address");
    assert_eq!(write.counter, 1);
    assert_eq!(write.content, b"fresh".to_vec());
    assert_eq!(write.data_encoding, MANIFEST_ENCODING);
    // An occupied address refuses the creation.
    let observed = Some(ScratchpadState {
        content: b"already there".to_vec(),
        data_encoding: MANIFEST_ENCODING,
        counter: 3,
    });
    assert!(matches!(
        plan_scratchpad_creation(&pad, &observed),
        Err(ArkError::AlreadyExists)
    ));
}
