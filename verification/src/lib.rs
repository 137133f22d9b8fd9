//! Verified core of an Ark: a named container whose state lives on a
//! content-addressed storage network and whose ownership, read authority and
//! write authority are represented by a hierarchy of keys derived from one
//! master seed.
//!
//! The crate covers the key algebra (typed BLS keys, derivation indices,
//! Bech32 codecs), the multi-recipient manifest envelope, the typed views of
//! registers, pointers and scratchpads with their update state machines, the
//! read cache, the key hierarchy and keyring, the manifest engine, the
//! rotation planners, receipts and progress reporting, the persistence
//! framing, and the network-config descriptor.  Network transport, payment
//! and terminal rendering stay outside; they hand plain values in and take
//! plain values back.

pub mod aeadx;
pub mod ark;
pub mod bech32x;
pub mod bls;
pub mod cache;
pub mod confidential;
pub mod config;
pub mod engine;
pub mod envelope;
pub mod errors;
pub mod hashing;
pub mod hexs;
pub mod hierarchy;
pub mod keyring;
pub mod keys;
pub mod manifest;
pub mod mnemonics;
pub mod netobjects;
pub mod objects;
pub mod progress;
pub mod receipt;
pub mod rnd;
pub mod schemes;
pub mod util;
pub mod vault;
pub mod wire;
