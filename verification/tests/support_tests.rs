//! Receipts, progress reporting, the cache, manifests' vault edits, and
//! the map diff.

use ark_core::cache::Cache;
use ark_core::manifest::{Manifest, VaultConfig};
use ark_core::hierarchy::{VaultKey, WorkerKey};
use ark_core::objects::{FileSystem, ObjectType};
use ark_core::progress::{Event, Report, Status};
use ark_core::receipt::Receipt;
use ark_core::util::{Comparison, diff_maps};
use ark_core::vault::{ModificationRequest, plan_vault_creation, VaultCreationSettings};

#[test]
fn receipt_accumulates_costs() {
    let mut r = Receipt::new();
    assert!(r.is_empty());
    r.add(10, 1);
    r.add(32, 2);
    assert_eq!(r.len(), 2);
    assert_eq!(r.total_cost(), 42);
    assert_eq!(r.index(0).cost, 10);
    assert_eq!(r.index(1).timestamp, 2);

    let mut other = Receipt::new();
    other.add(8, 3);
    r.absorb(other);
    assert_eq!(r.len(), 3);
    assert_eq!(r.total_cost(), 50);
}

#[test]
fn progress_tree_applies_events() {
    let root = Report::new(1, 4, Some(b"rotation".to_vec()));
    let (root, changed) = root.apply(Event::add(2, 1, 2, Some(b"verify".to_vec())));
    assert!(changed);
    let (root, changed) = root.apply(Event::start(2));
    assert!(changed);
    let (root, changed) = root.apply(Event::progress(2, 1));
    assert!(changed);
    let (root, changed) = root.apply(Event::complete(2));
    assert!(changed);
    // Re-completing an already successful task changes nothing.
    let (root, changed) = root.apply(Event::complete(2));
    assert!(!changed);
    let child = root.get(2).expect("subtask exists");
    assert_eq!(child.status(), Status::SUCCESS);
    assert_eq!(child.own_completed(), 1);
    assert_eq!(child.own_total(), 2);
    assert_eq!(root.subreports().len(), 1);
    // An event for an unknown task changes nothing.
    let (root, changed) = root.apply(Event::failed(99));
    assert!(!changed);
    assert_eq!(root.status(), Status::WAITING);
    // Zero progress changes nothing.
    let (root, changed) = root.apply(Event::progress(2, 0));
    assert!(!changed);
    // The totals count the node and every descendant.
    assert_eq!(root.total(), 4 + 2);
    assert_eq!(root.completed(), 0 + 1);
    assert_eq!(root.own_total(), 4);
    assert_eq!(root.own_completed(), 0);
}

#[test]
fn progress_add_keeps_the_label_across_siblings() {
    // Two siblings under the root; the new task's parent sits in the
    // second subtree, and its label must arrive there intact.
    let root = Report::new(1, 1, None);
    let (root, _) = root.apply(Event::add(2, 1, 1, Some(b"first".to_vec())));
    let (root, _) = root.apply(Event::add(3, 1, 1, Some(b"second".to_vec())));
    let (root, changed) = root.apply(Event::add(4, 3, 1, Some(b"grandchild".to_vec())));
    assert!(changed);
    let grandchild = root.get(4).expect("the subtask joined");
    assert_eq!(grandchild.label().as_deref(), Some(b"grandchild".as_slice()));
}

#[test]
fn cache_expires_and_invalidates() {
    let mut cache = Cache::new(100, 50, 2);
    cache.insert(b"k1".to_vec(), b"v1".to_vec(), 1000);
    assert_eq!(cache.lookup(&b"k1".to_vec(), 1010), Some(b"v1".to_vec()));
    // Past the time-to-live the entry is not served.
    assert_eq!(cache.lookup(&b"k1".to_vec(), 1100), None);
    cache.insert(b"k2".to_vec(), b"v2".to_vec(), 1000);
    cache.invalidate(&b"k2".to_vec());
    assert_eq!(cache.lookup(&b"k2".to_vec(), 1001), None);
    // The capacity is kept: a third insert displaces an old entry.
    cache.insert(b"k3".to_vec(), b"v3".to_vec(), 1000);
    cache.insert(b"k4".to_vec(), b"v4".to_vec(), 1000);
    cache.insert(b"k5".to_vec(), b"v5".to_vec(), 1000);
    assert!(cache.len() <= 2);
}

#[test]
fn vault_creation_plans_a_final_pointer() {
    let settings = VaultCreationSettings {
        name: b"documents".to_vec(),
        description: Some(b"files".to_vec()),
        bridge: None,
        active: true,
        object_type: ObjectType::FileSystem(FileSystem::Posix),
    };
    let (seed, _mnemonic) = ark_core::hierarchy::ArkSeed::random();
    let plan = plan_vault_creation(settings, seed.public_key(), 500);
    assert_eq!(plan.pointer_write.counter, u32::MAX);
    assert_eq!(plan.pointer_write.target, seed.public_key().to_bytes());
    assert_eq!(plan.config.name, b"documents".to_vec());
    assert!(plan.config.active);
    assert_eq!(plan.config.created, 500);
}

#[test]
fn modify_vault_applies_a_sparse_patch() {
    let (seed, _mnemonic) = ark_core::hierarchy::ArkSeed::random();
    let worker = WorkerKey::random();
    let mut m = Manifest::new(
        seed.public_key().clone(),
        b"T1".to_vec(),
        None,
        worker.public_key().clone(),
        100,
    );
    let vault_key = VaultKey::random();
    m.vaults.push(VaultConfig {
        address: vault_key.public_key().clone(),
        created: 100,
        last_modified: 100,
        name: b"old name".to_vec(),
        description: None,
        active: true,
        bridge: None,
        object_type: ObjectType::FileSystem(FileSystem::Posix),
    });
    // An empty patch is a no-op.
    let req = ModificationRequest { name: None, description: None, active: None, bridge: None };
    assert_eq!(m.modify_vault(&vault_key.public_key().clone(), req, 200), Ok(false));
    assert_eq!(m.vaults[0].last_modified, 100);
    // Deactivation and a rename land; untouched fields stay.
    let req = ModificationRequest {
        name: Some(b"new name".to_vec()),
        description: None,
        active: Some(false),
        bridge: None,
    };
    assert_eq!(m.modify_vault(&vault_key.public_key().clone(), req, 300), Ok(true));
    assert_eq!(m.vaults[0].name, b"new name".to_vec());
    assert!(!m.vaults[0].active);
    assert_eq!(m.vaults[0].last_modified, 300);
    assert_eq!(m.vaults[0].created, 100);
    // An unknown vault is reported.
    let other = VaultKey::random();
    let req = ModificationRequest {
        name: None,
        description: None,
        active: Some(true),
        bridge: None,
    };
    assert_eq!(
        m.modify_vault(&other.public_key().clone(), req, 400),
        Err(ark_core::errors::ArkError::NotFound)
    );
}

#[test]
fn diff_maps_sorts_keys() {
    let old_map: Vec<(u64, u32)> = vec![(1, 10), (2, 20), (3, 30)];
    let new_map: Vec<(u64, u32)> = vec![(2, 20), (3, 99), (4, 40)];
    let diff = diff_maps(&old_map, &new_map, |a: &u32, b: &u32| {
        if a == b { Comparison::Equivalent } else { Comparison::Modified }
    });
    assert_eq!(diff.added, vec![4]);
    assert_eq!(diff.removed, vec![1]);
    assert_eq!(diff.modified, vec![3]);
    assert_eq!(diff.unchanged, vec![2]);
}

#[test]
fn error_messages_name_the_kind() {
    assert_eq!(ark_core::errors::ArkError::WrongRecipient.message(), "no matching key");
    assert_eq!(ark_core::errors::ArkError::Retired.message(), "retired");
}
