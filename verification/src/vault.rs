//! Vaults: sub-containers identified by a fresh key whose secret signs
//! one immutable pointer and is then discarded.
//!
//! The pointer at the vault address's child at the fixed path is the
//! trust anchor: anyone holding only the vault address recomputes that
//! address, fetches the pointer, refuses it unless it is final, and then
//! trusts its target as the Ark.

use vstd::prelude::*;
use crate::bls::bls_child_pk;
use crate::errors::ArkError;
use crate::hashing::hash_of_name;
use crate::hierarchy::{ArkAddress, ArkPointerKind, BridgeAddress, VaultAddress, VaultKey, ark_pointer_path};
use crate::keys::TypedSecretKey;
use crate::manifest::{Manifest, VaultConfig};
use crate::netobjects::{PointerState, TypedOwnedPointer, final_counter};
use crate::objects::ObjectType;

verus! {

/// The pointer from a vault to its Ark.
pub type OwnedArkPointer = TypedOwnedPointer<ArkPointerKind, ArkAddress>;

impl VaultAddress {
    /// The address of the vault's ark pointer, predictable from the
    /// vault address alone.
    pub fn ark_pointer_owner(&self) -> (r: crate::keys::TypedPublicKey<ArkPointerKind>)
        ensures r@ == bls_child_pk(self@, hash_of_name(ark_pointer_path())),
    {
        self.derive_child(&crate::hierarchy::ark_pointer_derivator())
    }
}

/// The settings a new vault is created from.
pub struct VaultCreationSettings {
    /// The vault's name, UTF-8 bytes.
    pub name: Vec<u8>,
    /// An optional description, UTF-8 bytes.
    pub description: Option<Vec<u8>>,
    /// The Bridge identity to authorize, if any.
    pub bridge: Option<BridgeAddress>,
    /// Whether the vault starts active.
    pub active: bool,
    /// What kind of data the vault holds.
    pub object_type: ObjectType,
}

/// What creating a vault writes: the immutable trust-anchor pointer and
/// the vault's manifest entry.
pub struct VaultCreationPlan {
    /// The vault's identity.
    pub address: VaultAddress,
    /// The final pointer to create at the vault's ark-pointer address:
    /// counter at its maximum, targeting the Ark.
    pub pointer_write: PointerState,
    /// The entry to append to the manifest's vault list.
    pub config: VaultConfig,
}

/// Plans a vault creation: draws a fresh vault key, derives the pointer
/// owner, lays down the final pointer at the Ark, and builds the vault's
/// manifest entry.  The vault secret never leaves this function.
pub fn plan_vault_creation(
    settings: VaultCreationSettings,
    ark_address: &ArkAddress,
    now: u64,
) -> (r: VaultCreationPlan)
    ensures
        r.pointer_write.counter == final_counter(),
        r.pointer_write.target@ == ark_address@,
        r.config.address@ == r.address@,
        r.config@.name == settings.name@,
        r.config@.description == (match settings.description {
            Option::Some(d) => Option::Some(d@),
            Option::None => Option::<Seq<u8>>::None,
        }),
        r.config@.bridge == (match settings.bridge {
            Option::Some(b) => Option::Some(b@),
            Option::None => Option::<Seq<u8>>::None,
        }),
        r.config@.active == settings.active,
        r.config@.object_type == settings.object_type,
        r.config@.created == now,
        r.config@.last_modified == now,
{
    let vault_key = VaultKey::random();
    let address = vault_key.public_key().clone();
    let pointer_owner: TypedSecretKey<ArkPointerKind> =
        vault_key.derive_child(&crate::hierarchy::ark_pointer_derivator());
    vault_key.wipe();
    let pointer: OwnedArkPointer = TypedOwnedPointer::new(ark_address.to_bytes(), pointer_owner);
    let pointer_write = match pointer.make_immutable() {
        Ok(w) => w,
        Err(_) => {
            proof { assert(false); }
            unreached()
        }
    };
    let config = VaultConfig {
        address: address.clone(),
        created: now,
        last_modified: now,
        name: settings.name,
        description: settings.description,
        active: settings.active,
        bridge: settings.bridge,
        object_type: settings.object_type,
    };
    VaultCreationPlan { address, pointer_write, config }
}

/// Decides what a vault address says about its Ark, given the pointer
/// read at the derived address: absent means no vault, a mutable pointer
/// cannot be trusted, and a final pointer names the Ark.
pub fn ark_from_vault_pointer(pointer: Option<PointerState>) -> (r: Result<Option<Vec<u8>>, ArkError>)
    ensures
        match r {
            Ok(target) => match target {
                Some(t) => pointer is Some && pointer->Some_0.counter == final_counter()
                    && t@ == pointer->Some_0.target@,
                None => pointer is None,
            },
            Err(e) => e == ArkError::Immutable && pointer is Some
                && pointer->Some_0.counter < final_counter(),
        },
{
    match pointer {
        None => Ok(None),
        Some(p) => {
            if p.is_mutable() {
                Err(ArkError::Immutable)
            } else {
                Ok(Some(p.target))
            }
        }
    }
}

/// A sparse change to one vault entry: absent fields stay as they are.
pub struct ModificationRequest {
    /// A new name, if the name changes.
    pub name: Option<Vec<u8>>,
    /// A new description (possibly cleared), if it changes.
    pub description: Option<Option<Vec<u8>>>,
    /// A new activity state, if it changes.
    pub active: Option<bool>,
    /// A new authorized bridge (possibly cleared), if it changes.
    pub bridge: Option<Option<BridgeAddress>>,
}

/// The mathematical shape of a sparse change.
#[verifier::ext_equal]
pub ghost struct ModificationRequestV {
    pub name: Option<Seq<u8>>,
    pub description: Option<Option<Seq<u8>>>,
    pub active: Option<bool>,
    pub bridge: Option<Option<Seq<u8>>>,
}

impl View for ModificationRequest {
    type V = ModificationRequestV;

    open spec fn view(&self) -> ModificationRequestV {
        ModificationRequestV {
            name: match self.name {
                Option::Some(ref n) => Option::Some(n@),
                Option::None => Option::None,
            },
            description: match self.description {
                Option::Some(Option::Some(ref d)) => Option::Some(Option::Some(d@)),
                Option::Some(Option::None) => Option::Some(Option::None),
                Option::None => Option::None,
            },
            active: self.active,
            bridge: match self.bridge {
                Option::Some(Option::Some(ref b)) => Option::Some(Option::Some(b@)),
                Option::Some(Option::None) => Option::Some(Option::None),
                Option::None => Option::None,
            },
        }
    }
}

/// What applying a sparse change to a vault entry yields: each present
/// field replaces the old one, each absent field stays, and the entry is
/// stamped with the given moment.
pub open spec fn patched(v: crate::manifest::VaultConfigV, req: ModificationRequestV, now: u64)
    -> crate::manifest::VaultConfigV {
    crate::manifest::VaultConfigV {
        name: match req.name {
            Option::Some(n) => n,
            Option::None => v.name,
        },
        description: match req.description {
            Option::Some(d) => d,
            Option::None => v.description,
        },
        active: match req.active {
            Option::Some(a) => a,
            Option::None => v.active,
        },
        bridge: match req.bridge {
            Option::Some(b) => b,
            Option::None => v.bridge,
        },
        last_modified: now,
        ..v
    }
}

impl ModificationRequest {
    /// Whether the request changes nothing.
    pub fn is_empty(&self) -> (r: bool)
        ensures r == (self@.name is None && self@.description is None
            && self@.active is None && self@.bridge is None),
    {
        self.name.is_none() && self.description.is_none() && self.active.is_none()
            && self.bridge.is_none()
    }
}

impl VaultConfig {
    /// Applies a sparse change: each present field replaces the old one,
    /// each absent field is kept, and the entry is stamped as modified.
    pub fn apply(&mut self, req: ModificationRequest, now: u64)
        ensures
            final(self)@ == patched(old(self)@, req@, now),
    {
        match req.name {
            Some(n) => {
                self.name = n;
            }
            None => {}
        }
        match req.description {
            Some(d) => {
                self.description = d;
            }
            None => {}
        }
        match req.active {
            Some(a) => {
                self.active = a;
            }
            None => {}
        }
        match req.bridge {
            Some(b) => {
                self.bridge = b;
            }
            None => {}
        }
        self.last_modified = now;
        proof {
            assert(self@ =~= patched(old(self)@, req@, now));
        }
    }
}

impl Manifest {
    /// Applies a sparse change to the first vault entry with the given
    /// address.  An empty request is a no-op that costs nothing; an
    /// absent vault is reported and nothing changes; otherwise exactly
    /// that entry is patched and stamped, everything else untouched.
    pub fn modify_vault(
        &mut self,
        address: &VaultAddress,
        req: ModificationRequest,
        now: u64,
    ) -> (r: Result<bool, ArkError>)
        ensures
            match r {
                Ok(changed) => {
                    if changed {
                        exists|i: int| {
                            &&& 0 <= i < old(self)@.vaults.len()
                            &&& (forall|j: int| 0 <= j < i
                                ==> (#[trigger] old(self)@.vaults[j]).address != address@)
                            &&& old(self)@.vaults[i].address == address@
                            &&& final(self)@ == (crate::manifest::ManifestV {
                                vaults: old(self)@.vaults.update(
                                    i, patched(old(self)@.vaults[i], req@, now)),
                                last_modified: now,
                                ..old(self)@
                            })
                        }
                    } else {
                        *final(self) == *old(self)
                            && req@.name is None && req@.description is None
                            && req@.active is None && req@.bridge is None
                    }
                },
                Err(e) => e == ArkError::NotFound && *final(self) == *old(self)
                    && (forall|i: int| 0 <= i < old(self)@.vaults.len()
                        ==> (#[trigger] old(self)@.vaults[i]).address != address@),
            },
    {
        if req.is_empty() {
            return Ok(false);
        }
        let n = self.vaults.len();
        let mut i: usize = 0;
        while i < n
            invariant
                i <= n,
                n == self.vaults@.len(),
                *self == *old(self),
                forall|j: int| 0 <= j < i
                    ==> (#[trigger] self@.vaults[j]).address != address@,
            decreases n - i,
        {
            if self.vaults[i].address.equals(address) {
                proof {
                    assert(self@.vaults[i as int] == self.vaults@[i as int]@);
                }
                let mut taken = self.vaults.remove(i);
                taken.apply(req, now);
                self.vaults.insert(i, taken);
                self.last_modified = now;
                proof {
                    let ghost iv = i as int;
                    assert(self.vaults@ =~= old(self).vaults@.update(iv, self.vaults@[iv]));
                    assert(self@.vaults =~= old(self)@.vaults.update(
                        iv, patched(old(self)@.vaults[iv], req@, now)));
                    assert(self@ =~= (crate::manifest::ManifestV {
                        vaults: old(self)@.vaults.update(
                            iv, patched(old(self)@.vaults[iv], req@, now)),
                        last_modified: now,
                        ..old(self)@
                    }));
                }
                return Ok(true);
            }
            proof {
                assert(self@.vaults[i as int] == self.vaults@[i as int]@);
            }
            i += 1;
        }
        Err(ArkError::NotFound)
    }
}

} // verus!
