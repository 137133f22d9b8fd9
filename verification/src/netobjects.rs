//! Typed views of the four storage primitives and their update state
//! machines.
//!
//! A scratchpad moves `Absent -> Active -> {Active | Retired}` and a
//! pointer `Absent -> Mutable -> Immutable`; the terminal states are
//! forever.  Updates are planned against the observed remote state: an
//! update that changes nothing issues no write, and one that does write
//! bumps the counter strictly above the remote one.

use vstd::prelude::*;
use core::marker::PhantomData;
use crate::errors::ArkError;
use crate::keys::{Finalizeable, Retirable, TypedPublicKey, TypedSecretKey, clone_bytes, eq_bytes};

verus! {

/// The counter value that marks a scratchpad as at its end of life.
pub open spec fn eol_counter() -> u64 {
    0xffff_ffff_ffff_ffffu64
}

/// The encoding tag that marks a scratchpad as at its end of life.
pub open spec fn eol_encoding() -> u64 {
    0xffff_ffff_ffff_ffffu64
}

/// The tombstone payload of a retired scratchpad.
pub open spec fn tombstone() -> Seq<u8> {
    seq![0x52u8, 0x49u8, 0x50u8]
}

/// The tombstone payload of a retired scratchpad.
pub fn tombstone_bytes() -> (r: Vec<u8>)
    ensures r@ == tombstone(),
{
    let out: Vec<u8> = vec![0x52u8, 0x49u8, 0x50u8];
    proof { assert(out@ =~= tombstone()); }
    out
}

/// A value kind that lives in scratchpads, with its fixed encoding tag.
pub trait Content {
    /// The `data_encoding` tag of this value kind.
    spec fn encoding_spec() -> u64;

    /// The `data_encoding` tag of this value kind.
    fn encoding() -> (r: u64)
        ensures r == Self::encoding_spec();
}

/// A scratchpad as observed on the network: its payload, tag and counter.
pub struct ScratchpadState {
    /// The opaque payload bytes.
    pub content: Vec<u8>,
    /// The payload-type tag.
    pub data_encoding: u64,
    /// The write counter.
    pub counter: u64,
}

impl ScratchpadState {
    /// Whether the scratchpad can still be written.
    pub fn is_mutable(&self) -> (r: bool)
        ensures r == (self.counter < eol_counter()),
    {
        self.counter < 0xffff_ffff_ffff_ffffu64
    }

    /// Whether the scratchpad carries the tombstone: counter and tag at
    /// their maximum and the fixed tombstone payload.
    pub fn is_retired(&self) -> (r: bool)
        ensures r == (self.data_encoding == eol_encoding()
            && self.counter == eol_counter() && self.content@ == tombstone()),
    {
        if self.data_encoding != 0xffff_ffff_ffff_ffffu64 {
            return false;
        }
        if self.counter != 0xffff_ffff_ffff_ffffu64 {
            return false;
        }
        let tomb = tombstone_bytes();
        eq_bytes(&self.content, &tomb)
    }
}

/// The address of a scratchpad: its owner's public key, with the owner
/// role and the value kind fixed at the type level.
#[verifier::reject_recursive_types(T)]
#[verifier::reject_recursive_types(V)]
pub struct TypedScratchpadAddress<T, V> {
    owner: TypedPublicKey<T>,
    _value: PhantomData<V>,
}

impl<T, V> TypedScratchpadAddress<T, V> {
    /// The owner's public key bytes, which locate the scratchpad.
    pub closed spec fn owner_spec(&self) -> Seq<u8> {
        self.owner@
    }

    /// The address owned by a public key.
    pub fn from_public_key(owner: TypedPublicKey<T>) -> (r: Self)
        ensures r.owner_spec() == owner@,
    {
        TypedScratchpadAddress { owner, _value: PhantomData }
    }

    /// The owning public key.
    pub fn owner(&self) -> (r: &TypedPublicKey<T>)
        ensures r@ == self.owner_spec(),
    {
        &self.owner
    }
}

impl<T, V> Clone for TypedScratchpadAddress<T, V> {
    fn clone(&self) -> (r: Self)
        ensures r.owner_spec() == self.owner_spec(),
    {
        TypedScratchpadAddress { owner: self.owner.clone(), _value: PhantomData }
    }
}

/// A scratchpad the library intends to own and write: the owner's secret
/// key plus the pad's local state.
#[verifier::reject_recursive_types(T)]
#[verifier::reject_recursive_types(V)]
pub struct TypedOwnedScratchpad<T, V> {
    owner: TypedSecretKey<T>,
    content: Vec<u8>,
    data_encoding: u64,
    counter: u64,
    _value: PhantomData<V>,
}

impl<T, V> TypedOwnedScratchpad<T, V> {
    /// The owner's secret bytes.
    pub closed spec fn owner_spec(&self) -> Seq<u8> {
        self.owner@
    }

    /// The payload bytes.
    pub closed spec fn content_spec(&self) -> Seq<u8> {
        self.content@
    }

    /// The payload-type tag.
    pub closed spec fn encoding_spec(&self) -> u64 {
        self.data_encoding
    }

    /// The write counter.
    pub closed spec fn counter_spec(&self) -> u64 {
        self.counter
    }

    /// The pad's address: its owner's public key.
    pub fn address(&self) -> (r: TypedScratchpadAddress<T, V>)
        ensures r.owner_spec() == crate::bls::bls_pk_of(self.owner_spec()),
    {
        TypedScratchpadAddress::<T, V>::from_public_key(self.owner.public_key().clone())
    }

    /// The payload size in bytes.
    pub fn size(&self) -> (r: usize)
        ensures r == self.content_spec().len(),
    {
        self.content.len()
    }

    /// Whether the pad can still be written.
    pub fn is_mutable(&self) -> (r: bool)
        ensures r == (self.counter_spec() < eol_counter()),
    {
        self.counter < 0xffff_ffff_ffff_ffffu64
    }

    /// Whether the pad and an observed remote state are logically the
    /// same: same counter, same tag, same payload.
    pub fn is_equivalent(&self, other: &ScratchpadState) -> (r: bool)
        ensures r == (self.counter_spec() == other.counter
            && self.encoding_spec() == other.data_encoding
            && self.content_spec() == other.content@),
    {
        self.counter == other.counter && self.data_encoding == other.data_encoding
            && eq_bytes(&self.content, &other.content)
    }

    /// The pad as it would be written to the network.
    pub fn to_state(&self) -> (r: ScratchpadState)
        ensures
            r.content@ == self.content_spec(),
            r.data_encoding == self.encoding_spec(),
            r.counter == self.counter_spec(),
    {
        ScratchpadState {
            content: clone_bytes(&self.content),
            data_encoding: self.data_encoding,
            counter: self.counter,
        }
    }
}

impl<T, V: Content> TypedOwnedScratchpad<T, V> {
    /// A fresh pad holding a value, with the counter at one.
    pub fn new(value: Vec<u8>, owner: TypedSecretKey<T>) -> (r: Self)
        ensures
            r.owner_spec() == owner@,
            r.content_spec() == value@,
            r.encoding_spec() == V::encoding_spec(),
            r.counter_spec() == 1,
    {
        TypedOwnedScratchpad {
            owner,
            content: value,
            data_encoding: V::encoding(),
            counter: 1,
            _value: PhantomData,
        }
    }

    /// Replaces the payload and bumps the counter once.  Refused when the
    /// pad is immutable or the tag does not match the value kind.
    pub fn update(&mut self, value: Vec<u8>) -> (r: Result<u64, ArkError>)
        ensures
            match r {
                Ok(c) => old(self).counter_spec() < eol_counter()
                    && old(self).encoding_spec() == V::encoding_spec()
                    && c == old(self).counter_spec() + 1
                    && final(self).counter_spec() == c
                    && final(self).content_spec() == value@
                    && final(self).encoding_spec() == old(self).encoding_spec()
                    && final(self).owner_spec() == old(self).owner_spec(),
                Err(e) => *final(self) == *old(self)
                    && (if old(self).counter_spec() >= eol_counter() {
                        e == ArkError::Immutable
                    } else {
                        e == ArkError::BadEncoding
                            && old(self).encoding_spec() != V::encoding_spec()
                    }),
            },
    {
        if self.counter >= 0xffff_ffff_ffff_ffffu64 {
            return Err(ArkError::Immutable);
        }
        if self.data_encoding != V::encoding() {
            return Err(ArkError::BadEncoding);
        }
        self.content = value;
        self.counter = self.counter + 1;
        Ok(self.counter)
    }
}

/// What an update against the observed remote state does: either nothing,
/// because the remote already holds the same value at the same or a later
/// counter, or one write whose counter stands above both the remote
/// counter and the pad's own.
pub enum ScratchpadWritePlan {
    /// The remote state is logically identical; no write is issued.
    AlreadyCurrent(u64),
    /// Write this state: the payload with the counter raised once above
    /// the greater of the local and remote counters.
    Write(ScratchpadState),
}

/// Plans an update of an owned pad against the observed remote state.
/// Updating twice with the same value issues exactly one write: the
/// second plan is `AlreadyCurrent` with the remote counter.  A planned
/// write's counter is strictly above the remote counter and no less than
/// the pad's own: `remote.counter + 1` when the pad has not moved past
/// the remote, the pad's counter otherwise.
pub fn plan_scratchpad_update<T, V>(
    pad: &TypedOwnedScratchpad<T, V>,
    remote: &ScratchpadState,
) -> (r: Result<ScratchpadWritePlan, ArkError>)
    ensures
        match r {
            Ok(plan) => remote.counter < eol_counter()
                && !(remote.data_encoding == eol_encoding() && remote.counter == eol_counter()
                    && remote.content@ == tombstone())
                && (match plan {
                    ScratchpadWritePlan::AlreadyCurrent(c) => c == remote.counter
                        && pad.content_spec() == remote.content@
                        && pad.encoding_spec() == remote.data_encoding
                        && pad.counter_spec() <= remote.counter,
                    ScratchpadWritePlan::Write(w) => w.counter > remote.counter
                        && w.counter >= pad.counter_spec()
                        && w.counter == (if pad.counter_spec() > remote.counter {
                            pad.counter_spec()
                        } else {
                            (remote.counter + 1) as u64
                        })
                        && w.content@ == pad.content_spec()
                        && w.data_encoding == pad.encoding_spec()
                        && !(pad.content_spec() == remote.content@
                            && pad.encoding_spec() == remote.data_encoding
                            && pad.counter_spec() <= remote.counter),
                }),
            Err(e) => {
                if remote.data_encoding == eol_encoding() && remote.counter == eol_counter()
                    && remote.content@ == tombstone() {
                    e == ArkError::Retired
                } else {
                    e == ArkError::Immutable && remote.counter >= eol_counter()
                }
            },
        },
{
    if remote.is_retired() {
        return Err(ArkError::Retired);
    }
    if !remote.is_mutable() {
        return Err(ArkError::Immutable);
    }
    if pad.is_equivalent_value(remote) && pad.counter_value() <= remote.counter {
        return Ok(ScratchpadWritePlan::AlreadyCurrent(remote.counter));
    }
    let counter = if pad.counter_value() > remote.counter {
        pad.counter_value()
    } else {
        remote.counter + 1
    };
    Ok(ScratchpadWritePlan::Write(ScratchpadState {
        content: clone_bytes(pad_content(pad)),
        data_encoding: pad.encoding(),
        counter,
    }))
}

/// Plans the creation of an owned pad at its address, given what was
/// observed there: an empty address takes the pad's payload at the
/// first counter with the kind's encoding, and an occupied address
/// refuses the creation.
pub fn plan_scratchpad_creation<T, V>(
    pad: &TypedOwnedScratchpad<T, V>,
    observed: &Option<ScratchpadState>,
) -> (r: Result<ScratchpadState, ArkError>)
    ensures
        match r {
            Ok(w) => observed is None
                && w.counter == 1
                && w.content@ == pad.content_spec()
                && w.data_encoding == pad.encoding_spec(),
            Err(e) => e == ArkError::AlreadyExists && observed is Some,
        },
{
    match observed {
        Some(_) => Err(ArkError::AlreadyExists),
        None => Ok(ScratchpadState {
            content: clone_bytes(pad_content(pad)),
            data_encoding: pad.encoding(),
            counter: 1,
        }),
    }
}

impl<T, V: Retirable> TypedOwnedScratchpad<T, V> {
    /// Whether the pad carries the tombstone.
    pub fn is_retired(&self) -> (r: bool)
        ensures r == (self.encoding_spec() == eol_encoding()
            && self.counter_spec() == eol_counter() && self.content_spec() == tombstone()),
    {
        if self.data_encoding != 0xffff_ffff_ffff_ffffu64 {
            return false;
        }
        if self.counter != 0xffff_ffff_ffff_ffffu64 {
            return false;
        }
        let tomb = tombstone_bytes();
        eq_bytes(&self.content, &tomb)
    }

    /// The tombstone write that retires the pad.  Refused when the pad is
    /// already retired or already immutable.
    pub fn retire(&self) -> (r: Result<ScratchpadState, ArkError>)
        ensures
            match r {
                Ok(w) => w.counter == eol_counter() && w.data_encoding == eol_encoding()
                    && w.content@ == tombstone()
                    && self.counter_spec() < eol_counter(),
                Err(e) => {
                    if self.encoding_spec() == eol_encoding()
                        && self.counter_spec() == eol_counter()
                        && self.content_spec() == tombstone() {
                        e == ArkError::Retired
                    } else {
                        e == ArkError::Immutable && self.counter_spec() >= eol_counter()
                    }
                },
            },
    {
        if self.is_retired() {
            return Err(ArkError::Retired);
        }
        if !self.is_mutable() {
            return Err(ArkError::Immutable);
        }
        Ok(ScratchpadState {
            content: tombstone_bytes(),
            data_encoding: 0xffff_ffff_ffff_ffffu64,
            counter: 0xffff_ffff_ffff_ffffu64,
        })
    }
}

impl<T, V> TypedOwnedScratchpad<T, V> {
    /// Whether the pad's value and tag equal the remote's, counters aside.
    pub fn is_equivalent_value(&self, other: &ScratchpadState) -> (r: bool)
        ensures r == (self.content_spec() == other.content@
            && self.encoding_spec() == other.data_encoding),
    {
        self.data_encoding == other.data_encoding && eq_bytes(&self.content, &other.content)
    }

    /// The payload-type tag.
    pub fn encoding(&self) -> (r: u64)
        ensures r == self.encoding_spec(),
    {
        self.data_encoding
    }

    /// The write counter.
    pub fn counter_value(&self) -> (r: u64)
        ensures r == self.counter_spec(),
    {
        self.counter
    }

}

fn pad_content<T, V>(pad: &TypedOwnedScratchpad<T, V>) -> (r: &Vec<u8>)
    ensures r@ == pad.content_spec(),
{
    &pad.content
}

/// The counter value that marks a pointer as final forever.
pub open spec fn final_counter() -> u32 {
    0xffff_ffffu32
}

/// A pointer as observed on the network: its 48-byte target and counter.
pub struct PointerState {
    /// The target the pointer names, as a public key's bytes.
    pub target: Vec<u8>,
    /// The write counter; at its maximum the pointer is final forever.
    pub counter: u32,
}

impl PointerState {
    /// Whether the pointer can still be redirected.
    pub fn is_mutable(&self) -> (r: bool)
        ensures r == (self.counter < final_counter()),
    {
        self.counter < 0xffff_ffffu32
    }
}

/// A pointer the library intends to own and write.
#[verifier::reject_recursive_types(T)]
#[verifier::reject_recursive_types(V)]
pub struct TypedOwnedPointer<T, V> {
    owner: TypedSecretKey<T>,
    target: Vec<u8>,
    counter: u32,
    _value: PhantomData<V>,
}

impl<T, V> TypedOwnedPointer<T, V> {
    /// The owner's secret bytes.
    pub closed spec fn owner_spec(&self) -> Seq<u8> {
        self.owner@
    }

    /// The target bytes.
    pub closed spec fn target_spec(&self) -> Seq<u8> {
        self.target@
    }

    /// The write counter.
    pub closed spec fn counter_spec(&self) -> u32 {
        self.counter
    }

    /// A fresh pointer at counter zero.
    pub fn new(target: Vec<u8>, owner: TypedSecretKey<T>) -> (r: Self)
        ensures
            r.owner_spec() == owner@,
            r.target_spec() == target@,
            r.counter_spec() == 0,
    {
        TypedOwnedPointer { owner, target, counter: 0, _value: PhantomData }
    }

    /// Whether the pointer can still be redirected.
    pub fn is_mutable(&self) -> (r: bool)
        ensures r == (self.counter_spec() < final_counter()),
    {
        self.counter < 0xffff_ffffu32
    }

    /// The write counter.
    pub fn counter_value(&self) -> (r: u32)
        ensures r == self.counter_spec(),
    {
        self.counter
    }

    /// Redirects the pointer and bumps the counter once.  Refused when
    /// the pointer is final.
    pub fn update(&mut self, new_target: Vec<u8>) -> (r: Result<u32, ArkError>)
        ensures
            match r {
                Ok(c) => old(self).counter_spec() < final_counter()
                    && c == old(self).counter_spec() + 1
                    && final(self).counter_spec() == c
                    && final(self).target_spec() == new_target@
                    && final(self).owner_spec() == old(self).owner_spec(),
                Err(e) => *final(self) == *old(self) && e == ArkError::Immutable
                    && old(self).counter_spec() >= final_counter(),
            },
    {
        if self.counter >= 0xffff_ffffu32 {
            return Err(ArkError::Immutable);
        }
        self.target = new_target;
        self.counter = self.counter + 1;
        Ok(self.counter)
    }

    /// The owner's public key bytes, which locate the pointer.
    pub fn address_owner(&self) -> (r: &TypedPublicKey<T>)
        ensures r@ == crate::bls::bls_pk_of(self.owner_spec()),
    {
        self.owner.public_key()
    }
}

impl<T, V: Finalizeable> TypedOwnedPointer<T, V> {
    /// The final, immutable-forever form of the pointer: the counter at
    /// its maximum.  Refused when the pointer is already final.
    pub fn make_immutable(&self) -> (r: Result<PointerState, ArkError>)
        ensures
            match r {
                Ok(w) => w.counter == final_counter() && w.target@ == self.target_spec()
                    && self.counter_spec() < final_counter(),
                Err(e) => e == ArkError::Immutable && self.counter_spec() >= final_counter(),
            },
    {
        if self.counter >= 0xffff_ffffu32 {
            return Err(ArkError::Immutable);
        }
        Ok(PointerState { target: clone_bytes(&self.target), counter: 0xffff_ffffu32 })
    }
}

/// What a pointer update against the observed remote state does.
pub enum PointerWritePlan {
    /// The remote already names this target at this counter; no write is
    /// issued.
    AlreadyCurrent(u32),
    /// Write this state: the pointer's own target and counter.
    Write(PointerState),
}

/// Plans an update of an owned pointer against the observed remote
/// state.  A remote that moved past the local counter means the local
/// view went stale and nothing safe can be written; a remote that is
/// logically identical (same target and same counter) needs no write;
/// otherwise the pointer is written as it stands, its counter no less
/// than the remote's.
pub fn plan_pointer_update<T, V>(
    pointer: &TypedOwnedPointer<T, V>,
    remote: &PointerState,
) -> (r: Result<PointerWritePlan, ArkError>)
    ensures
        match r {
            Ok(plan) => remote.counter < final_counter()
                && remote.counter <= pointer.counter_spec()
                && (match plan {
                    PointerWritePlan::AlreadyCurrent(c) => c == remote.counter
                        && pointer.target_spec() == remote.target@
                        && pointer.counter_spec() == remote.counter,
                    PointerWritePlan::Write(w) => w.counter == pointer.counter_spec()
                        && w.counter >= remote.counter
                        && w.target@ == pointer.target_spec()
                        && !(pointer.target_spec() == remote.target@
                            && pointer.counter_spec() == remote.counter),
                }),
            Err(e) => {
                if remote.counter >= final_counter() {
                    e == ArkError::Immutable
                } else {
                    e == ArkError::InvariantViolation
                        && remote.counter > pointer.counter_spec()
                }
            },
        },
{
    if !remote.is_mutable() {
        return Err(ArkError::Immutable);
    }
    if remote.counter > pointer.counter_value() {
        return Err(ArkError::InvariantViolation);
    }
    if eq_bytes(pointer_target(pointer), &remote.target)
        && pointer.counter_value() == remote.counter {
        return Ok(PointerWritePlan::AlreadyCurrent(remote.counter));
    }
    Ok(PointerWritePlan::Write(PointerState {
        target: clone_bytes(pointer_target(pointer)),
        counter: pointer.counter_value(),
    }))
}

fn pointer_target<T, V>(pointer: &TypedOwnedPointer<T, V>) -> (r: &Vec<u8>)
    ensures r@ == pointer.target_spec(),
{
    &pointer.target
}

/// A register value read back from history, in order of writing.
pub struct HistoricValue<V> {
    inner: V,
}

impl<V> HistoricValue<V> {
    /// Wraps a value read from a register's history.
    pub fn new(inner: V) -> (r: Self)
        ensures r.inner_spec() == inner,
    {
        HistoricValue { inner }
    }

    /// The wrapped value.
    pub closed spec fn inner_spec(&self) -> V {
        self.inner
    }

    /// A borrow of the historic value.
    pub fn as_ref(&self) -> (r: &V)
        ensures *r == self.inner_spec(),
    {
        &self.inner
    }

    /// The historic value itself.
    pub fn into_inner(self) -> (r: V)
        ensures r == self.inner_spec(),
    {
        self.inner
    }
}

/// A register the library intends to own and write: a 32-byte value under
/// an owner key.
#[verifier::reject_recursive_types(T)]
#[verifier::reject_recursive_types(V)]
pub struct TypedOwnedRegister<T, V> {
    owner: TypedSecretKey<T>,
    value: Vec<u8>,
    _value: PhantomData<V>,
}

impl<T, V> TypedOwnedRegister<T, V> {
    /// The owner's secret bytes.
    pub closed spec fn owner_spec(&self) -> Seq<u8> {
        self.owner@
    }

    /// The current value bytes.
    pub closed spec fn value_spec(&self) -> Seq<u8> {
        self.value@
    }

    /// A fresh owned register holding a value.
    pub fn new(value: Vec<u8>, owner: TypedSecretKey<T>) -> (r: Self)
        ensures r.owner_spec() == owner@, r.value_spec() == value@,
    {
        TypedOwnedRegister { owner, value, _value: PhantomData }
    }

    /// Replaces the register's local value.
    pub fn update(&mut self, value: Vec<u8>)
        ensures
            final(self).value_spec() == value@,
            final(self).owner_spec() == old(self).owner_spec(),
    {
        self.value = value;
    }

    /// The current value bytes.
    pub fn value(&self) -> (r: &Vec<u8>)
        ensures r@ == self.value_spec(),
    {
        &self.value
    }

    /// The owner's public key, which locates the register.
    pub fn address_owner(&self) -> (r: &TypedPublicKey<T>)
        ensures r@ == crate::bls::bls_pk_of(self.owner_spec()),
    {
        self.owner.public_key()
    }

    /// The owner's secret bytes, handed out for the network write.
    pub fn danger_owner_bytes(&self) -> (r: Vec<u8>)
        ensures r@ == self.owner_spec(),
    {
        self.owner.danger_to_bytes()
    }
}


/// Accepts a scratchpad read for a value kind: the tombstone is reported
/// as retired, a payload-type tag other than the kind's as a bad
/// encoding, and otherwise the payload is handed out.  This is the
/// read-time guard against reading a scratchpad of the wrong semantic
/// type.
pub fn accept_content<V: Content>(state: ScratchpadState) -> (r: Result<Vec<u8>, ArkError>)
    ensures
        match r {
            Ok(content) => content@ == state.content@
                && state.data_encoding == V::encoding_spec()
                && !(state.data_encoding == eol_encoding() && state.counter == eol_counter()
                    && state.content@ == tombstone()),
            Err(e) => {
                if state.data_encoding == eol_encoding() && state.counter == eol_counter()
                    && state.content@ == tombstone() {
                    e == ArkError::Retired
                } else {
                    e == ArkError::BadEncoding && state.data_encoding != V::encoding_spec()
                }
            },
        },
{
    if state.is_retired() {
        return Err(ArkError::Retired);
    }
    if state.data_encoding != V::encoding() {
        return Err(ArkError::BadEncoding);
    }
    Ok(state.content)
}

} // verus!

