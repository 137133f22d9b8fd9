//! The manifest: the encrypted document that enumerates an Ark's metadata,
//! its current Worker authority, the audit trail of retired Workers, and
//! its vaults.
//!
//! The manifest serializes under a magic header; parsing a serialized
//! manifest gives the manifest back, and corrupting the header is refused
//! before any field is read.

use vstd::prelude::*;
use crate::bls::bls_pk_ok;
use crate::errors::ArkError;
use crate::hierarchy::{ArkAddress, BridgeAddress, PublicWorkerKey, RetiredWorkerKey, VaultAddress};
use crate::keys::RetiredKey;
use crate::objects::{ObjectType, object_type_tag};
use crate::wire::{
    Reader, deserialize_with_header, enc_bool, enc_bytes, enc_opt_bytes, enc_u32, enc_u64, framed,
    lemma_frame_roundtrip, lemma_p_bool_at, lemma_p_bytes_at, lemma_p_opt_bytes_at, lemma_p_u32_at,
    lemma_p_u64_at, lemma_split_at, lemma_concat_base8, lemma_concat_base10, p_bool,
    p_bytes, p_opt_bytes, p_raw, p_u32, p_u64, p_u8, push_bool, push_bytes,
    push_opt_bytes, push_raw, push_u32, push_u64, serialize_with_header, unframe,
};

verus! {

/// The magic header of a serialized manifest.
pub open spec fn manifest_magic() -> Seq<u8> {
    seq![
        0x61u8, 0x72u8, 0x6bu8, 0x5fu8, 0x6du8, 0x61u8, 0x6eu8, 0x69u8,
        0x66u8, 0x65u8, 0x73u8, 0x74u8, 0x5fu8, 0x76u8, 0x30u8, 0x30u8,
    ]
}

/// The magic header of a serialized manifest.
pub fn manifest_magic_bytes() -> (r: Vec<u8>)
    ensures r@ == manifest_magic(),
{
    let out: Vec<u8> = vec![
        0x61u8, 0x72u8, 0x6bu8, 0x5fu8, 0x6du8, 0x61u8, 0x6eu8, 0x69u8,
        0x66u8, 0x65u8, 0x73u8, 0x74u8, 0x5fu8, 0x76u8, 0x30u8, 0x30u8,
    ];
    proof { assert(out@ =~= manifest_magic()); }
    out
}

/// The mathematical shape of a vault entry.
#[verifier::ext_equal]
pub ghost struct VaultConfigV {
    pub address: Seq<u8>,
    pub created: u64,
    pub last_modified: u64,
    pub name: Seq<u8>,
    pub description: Option<Seq<u8>>,
    pub active: bool,
    pub bridge: Option<Seq<u8>>,
    pub object_type: ObjectType,
}

/// The mathematical shape of a manifest.
#[verifier::ext_equal]
pub ghost struct ManifestV {
    pub ark_address: Seq<u8>,
    pub created: u64,
    pub last_modified: u64,
    pub name: Seq<u8>,
    pub description: Option<Seq<u8>>,
    pub authorized_worker: Seq<u8>,
    pub retired_workers: Seq<(Seq<u8>, u64)>,
    pub vaults: Seq<VaultConfigV>,
}

/// One sub-container of an Ark, as recorded in the manifest.
pub struct VaultConfig {
    /// The vault's identity: a public key whose secret was discarded.
    pub address: VaultAddress,
    /// When the vault was created, in seconds.
    pub created: u64,
    /// When the vault entry last changed, in seconds.
    pub last_modified: u64,
    /// The vault's name, UTF-8 bytes.
    pub name: Vec<u8>,
    /// An optional description, UTF-8 bytes.
    pub description: Option<Vec<u8>>,
    /// Whether the vault is active.
    pub active: bool,
    /// The Bridge identity authorized for this vault, if any.
    pub bridge: Option<BridgeAddress>,
    /// What kind of data the vault holds.
    pub object_type: ObjectType,
}

impl View for VaultConfig {
    type V = VaultConfigV;

    open spec fn view(&self) -> VaultConfigV {
        VaultConfigV {
            address: self.address@,
            created: self.created,
            last_modified: self.last_modified,
            name: self.name@,
            description: match self.description {
                Option::Some(ref d) => Option::Some(d@),
                Option::None => Option::None,
            },
            active: self.active,
            bridge: match self.bridge {
                Option::Some(ref b) => Option::Some(b@),
                Option::None => Option::None,
            },
            object_type: self.object_type,
        }
    }
}

/// The manifest document.
pub struct Manifest {
    /// The address of the Ark this manifest belongs to.
    pub ark_address: ArkAddress,
    /// When the Ark was created, in seconds.
    pub created: u64,
    /// When the manifest last changed, in seconds.
    pub last_modified: u64,
    /// The Ark's name, UTF-8 bytes.
    pub name: Vec<u8>,
    /// An optional description, UTF-8 bytes.
    pub description: Option<Vec<u8>>,
    /// The Worker key currently authorized to act for the Ark.
    pub authorized_worker: PublicWorkerKey,
    /// Every Worker key that was once authoritative, by retirement time.
    pub retired_workers: Vec<RetiredWorkerKey>,
    /// The vaults of the Ark, in creation order.
    pub vaults: Vec<VaultConfig>,
}

impl View for Manifest {
    type V = ManifestV;

    open spec fn view(&self) -> ManifestV {
        ManifestV {
            ark_address: self.ark_address@,
            created: self.created,
            last_modified: self.last_modified,
            name: self.name@,
            description: match self.description {
                Option::Some(ref d) => Option::Some(d@),
                Option::None => Option::None,
            },
            authorized_worker: self.authorized_worker@,
            retired_workers: self.retired_workers@.map_values(
                |k: RetiredWorkerKey| (k.key_view(), k.retired_at_spec()),
            ),
            vaults: self.vaults@.map_values(|v: VaultConfig| v@),
        }
    }
}

/// An optional fixed-width field: a presence byte, then the bytes raw.
pub open spec fn enc_opt_raw(o: Option<Seq<u8>>) -> Seq<u8> {
    match o {
        Option::None => seq![0u8],
        Option::Some(b) => seq![1u8] + b,
    }
}

/// The wire form of one retired-worker entry.
pub open spec fn enc_retired(k: (Seq<u8>, u64)) -> Seq<u8> {
    k.0 + enc_u64(k.1)
}

/// The wire form of the retired-worker list, oldest retirement first.
pub open spec fn enc_retired_list(ks: Seq<(Seq<u8>, u64)>) -> Seq<u8>
    decreases ks.len(),
{
    if ks.len() == 0 {
        Seq::empty()
    } else {
        enc_retired(ks[0]) + enc_retired_list(ks.skip(1))
    }
}

/// The wire form of one vault entry.
pub open spec fn enc_vault(v: VaultConfigV) -> Seq<u8> {
    v.address + (enc_u64(v.created) + (enc_u64(v.last_modified) + (enc_bytes(v.name)
        + (enc_opt_bytes(v.description) + (enc_bool(v.active) + (enc_opt_raw(v.bridge)
        + seq![object_type_tag(v.object_type)]))))))
}

/// The wire form of the vault list, in order.
pub open spec fn enc_vault_list(vs: Seq<VaultConfigV>) -> Seq<u8>
    decreases vs.len(),
{
    if vs.len() == 0 {
        Seq::empty()
    } else {
        enc_vault(vs[0]) + enc_vault_list(vs.skip(1))
    }
}

/// The manifest's wire form inside the frame.
pub open spec fn manifest_payload(m: ManifestV) -> Seq<u8> {
    m.ark_address + (enc_u64(m.created) + (enc_u64(m.last_modified) + (enc_bytes(m.name)
        + (enc_opt_bytes(m.description) + (m.authorized_worker
        + (enc_u32(m.retired_workers.len() as u32) + (enc_retired_list(m.retired_workers)
        + (enc_u32(m.vaults.len() as u32) + enc_vault_list(m.vaults)))))))))
}

/// The manifest's full serialized form: the magic header, then the fields.
pub open spec fn manifest_bytes(m: ManifestV) -> Seq<u8> {
    framed(manifest_magic(), manifest_payload(m))
}

/// The size limits the wire format imposes.
pub open spec fn vault_wf(v: VaultConfigV) -> bool {
    &&& v.address.len() == 48
    &&& v.name.len() < 4294967296
    &&& (match v.description {
        Option::Some(d) => d.len() < 4294967296,
        Option::None => true,
    })
    &&& (match v.bridge {
        Option::Some(b) => b.len() == 48,
        Option::None => true,
    })
}

/// The size limits on the fields a caller controls directly.
pub open spec fn manifest_fits(m: ManifestV) -> bool {
    &&& m.name.len() < 4294967296
    &&& (match m.description {
        Option::Some(d) => d.len() < 4294967296,
        Option::None => true,
    })
    &&& m.retired_workers.len() < 4294967296
    &&& m.vaults.len() < 4294967296
    &&& forall|i: int| 0 <= i < m.vaults.len() ==> {
        let v = #[trigger] m.vaults[i];
        v.name.len() < 4294967296 && (match v.description {
            Option::Some(d) => d.len() < 4294967296,
            Option::None => true,
        })
    }
}

/// The size limits the wire format imposes on a manifest.
pub open spec fn manifest_wf(m: ManifestV) -> bool {
    &&& m.ark_address.len() == 48
    &&& m.authorized_worker.len() == 48
    &&& m.name.len() < 4294967296
    &&& (match m.description {
        Option::Some(d) => d.len() < 4294967296,
        Option::None => true,
    })
    &&& m.retired_workers.len() < 4294967296
    &&& forall|i: int| 0 <= i < m.retired_workers.len()
        ==> (#[trigger] m.retired_workers[i]).0.len() == 48
    &&& m.vaults.len() < 4294967296
    &&& forall|i: int| 0 <= i < m.vaults.len() ==> vault_wf(#[trigger] m.vaults[i])
}

/// What parsing an optional fixed-width field yields.
pub open spec fn p_opt_raw48(d: Seq<u8>, pos: int) -> Option<(Option<Seq<u8>>, int)> {
    match p_u8(d, pos) {
        Option::None => Option::None,
        Option::Some((flag, p2)) => {
            if flag == 0 {
                Option::Some((Option::None, p2))
            } else if flag == 1 {
                match p_raw(d, p2, 48) {
                    Option::None => Option::None,
                    Option::Some((b, p3)) => Option::Some((Option::Some(b), p3)),
                }
            } else {
                Option::None
            }
        }
    }
}

/// What parsing an object-type tag yields.
pub open spec fn p_objtype(d: Seq<u8>, pos: int) -> Option<(ObjectType, int)> {
    match p_u8(d, pos) {
        Option::None => Option::None,
        Option::Some((tag, p2)) => {
            if tag == 0 {
                Option::Some((ObjectType::FileSystem(crate::objects::FileSystem::Posix), p2))
            } else if tag == 1 {
                Option::Some((ObjectType::FileSystem(crate::objects::FileSystem::Windows), p2))
            } else if tag == 2 {
                Option::Some((ObjectType::Email(crate::objects::Email::IMAP), p2))
            } else if tag == 3 {
                Option::Some((ObjectType::Email(crate::objects::Email::GMAIL), p2))
            } else if tag == 4 {
                Option::Some((ObjectType::ObjectStorage(crate::objects::ObjectStorage::S3), p2))
            } else {
                Option::None
            }
        }
    }
}

/// What parsing one retired-worker entry yields.
pub open spec fn p_retired(d: Seq<u8>, pos: int) -> Option<((Seq<u8>, u64), int)> {
    match p_raw(d, pos, 48) {
        Option::None => Option::None,
        Option::Some((pk, p2)) => match p_u64(d, p2) {
            Option::None => Option::None,
            Option::Some((t, p3)) => Option::Some(((pk, t), p3)),
        },
    }
}

/// What parsing `n` retired-worker entries yields.
pub open spec fn p_retired_list(d: Seq<u8>, pos: int, n: int) -> Option<(Seq<(Seq<u8>, u64)>, int)>
    decreases n,
{
    if n <= 0 {
        Option::Some((Seq::empty(), pos))
    } else {
        match p_retired(d, pos) {
            Option::None => Option::None,
            Option::Some((x, p2)) => match p_retired_list(d, p2, n - 1) {
                Option::None => Option::None,
                Option::Some((xs, p3)) => Option::Some((seq![x] + xs, p3)),
            },
        }
    }
}

/// What parsing one vault entry yields.
pub open spec fn p_vault(d: Seq<u8>, pos: int) -> Option<(VaultConfigV, int)> {
    match p_raw(d, pos, 48) {
        Option::None => Option::None,
        Option::Some((address, p2)) => match p_u64(d, p2) {
            Option::None => Option::None,
            Option::Some((created, p3)) => match p_u64(d, p3) {
                Option::None => Option::None,
                Option::Some((last_modified, p4)) => match p_bytes(d, p4) {
                    Option::None => Option::None,
                    Option::Some((name, p5)) => match p_opt_bytes(d, p5) {
                        Option::None => Option::None,
                        Option::Some((description, p6)) => match p_bool(d, p6) {
                            Option::None => Option::None,
                            Option::Some((active, p7)) => match p_opt_raw48(d, p7) {
                                Option::None => Option::None,
                                Option::Some((bridge, p8)) => match p_objtype(d, p8) {
                                    Option::None => Option::None,
                                    Option::Some((object_type, p9)) => Option::Some((
                                        VaultConfigV {
                                            address, created, last_modified, name,
                                            description, active, bridge, object_type,
                                        },
                                        p9,
                                    )),
                                },
                            },
                        },
                    },
                },
            },
        },
    }
}

/// What parsing `n` vault entries yields.
pub open spec fn p_vault_list(d: Seq<u8>, pos: int, n: int) -> Option<(Seq<VaultConfigV>, int)>
    decreases n,
{
    if n <= 0 {
        Option::Some((Seq::empty(), pos))
    } else {
        match p_vault(d, pos) {
            Option::None => Option::None,
            Option::Some((x, p2)) => match p_vault_list(d, p2, n - 1) {
                Option::None => Option::None,
                Option::Some((xs, p3)) => Option::Some((seq![x] + xs, p3)),
            },
        }
    }
}

/// What parsing the payload of a manifest yields: the manifest exactly
/// when every field parses and no byte trails.
pub open spec fn parse_manifest_payload(d: Seq<u8>) -> Option<ManifestV> {
    match p_raw(d, 0, 48) {
        Option::None => Option::None,
        Option::Some((ark_address, p1)) => match p_u64(d, p1) {
            Option::None => Option::None,
            Option::Some((created, p2)) => match p_u64(d, p2) {
                Option::None => Option::None,
                Option::Some((last_modified, p3)) => match p_bytes(d, p3) {
                    Option::None => Option::None,
                    Option::Some((name, p4)) => match p_opt_bytes(d, p4) {
                        Option::None => Option::None,
                        Option::Some((description, p5)) => match p_raw(d, p5, 48) {
                            Option::None => Option::None,
                            Option::Some((authorized_worker, p6)) => match p_u32(d, p6) {
                                Option::None => Option::None,
                                Option::Some((rn, p7)) => match p_retired_list(d, p7, rn as int) {
                                    Option::None => Option::None,
                                    Option::Some((retired_workers, p8)) => match p_u32(d, p8) {
                                        Option::None => Option::None,
                                        Option::Some((vn, p9)) => match p_vault_list(d, p9, vn as int) {
                                            Option::None => Option::None,
                                            Option::Some((vaults, p10)) => {
                                                if p10 == d.len() {
                                                    Option::Some(ManifestV {
                                                        ark_address, created, last_modified,
                                                        name, description, authorized_worker,
                                                        retired_workers, vaults,
                                                    })
                                                } else {
                                                    Option::None
                                                }
                                            },
                                        },
                                    },
                                },
                            },
                        },
                    },
                },
            },
        },
    }
}

/// What parsing a framed manifest yields: the payload parse behind a
/// verified header.
pub open spec fn parse_manifest(data: Seq<u8>) -> Option<ManifestV> {
    match unframe(manifest_magic(), data) {
        Option::None => Option::None,
        Option::Some(d) => parse_manifest_payload(d),
    }
}


/// Every key a parsed retired list carries is a valid point.
pub open spec fn retired_keys_ok(ks: Seq<(Seq<u8>, u64)>) -> bool {
    forall|i: int| 0 <= i < ks.len() ==> bls_pk_ok((#[trigger] ks[i]).0)
}

/// Every key a parsed vault list carries is a valid point.
pub open spec fn vault_keys_ok(vs: Seq<VaultConfigV>) -> bool {
    forall|i: int| 0 <= i < vs.len() ==> bls_pk_ok((#[trigger] vs[i]).address)
        && (match vs[i].bridge {
            Option::Some(b) => bls_pk_ok(b),
            Option::None => true,
        })
}

/// Every key a manifest carries is a valid point.
pub open spec fn manifest_keys_ok(m: ManifestV) -> bool {
    bls_pk_ok(m.ark_address) && bls_pk_ok(m.authorized_worker)
        && retired_keys_ok(m.retired_workers) && vault_keys_ok(m.vaults)
}

/// Parsing finds a retired-worker entry placed at its position.
proof fn lemma_p_retired_at(d: Seq<u8>, pos: int, k: (Seq<u8>, u64))
    requires
        0 <= pos,
        k.0.len() == 48,
        pos + 56 <= d.len(),
        d.subrange(pos, pos + 56) == enc_retired(k),
    ensures
        p_retired(d, pos) == Some((k, pos + 56)),
{
    assert(d.subrange(pos, pos + 48) =~= enc_retired(k).subrange(0, 48));
    assert(enc_retired(k).subrange(0, 48) =~= k.0);
    assert(d.subrange(pos + 48, pos + 56) =~= enc_retired(k).subrange(48, 56));
    assert(enc_retired(k).subrange(48, 56) =~= enc_u64(k.1));
    lemma_p_u64_at(d, pos + 48, k.1);
}

proof fn lemma_enc_retired_list_len(ks: Seq<(Seq<u8>, u64)>)
    requires forall|i: int| 0 <= i < ks.len() ==> (#[trigger] ks[i]).0.len() == 48,
    ensures enc_retired_list(ks).len() == 56 * ks.len(),
    decreases ks.len(),
{
    if ks.len() > 0 {
        lemma_enc_retired_list_len(ks.skip(1));
    }
}

/// Parsing finds a retired-worker list placed at its position.
#[verifier::rlimit(100)]
#[verifier::spinoff_prover]
proof fn lemma_p_retired_list_at(d: Seq<u8>, pos: int, ks: Seq<(Seq<u8>, u64)>)
    requires
        0 <= pos,
        forall|i: int| 0 <= i < ks.len() ==> (#[trigger] ks[i]).0.len() == 48,
        pos + enc_retired_list(ks).len() <= d.len(),
        d.subrange(pos, pos + enc_retired_list(ks).len() as int) == enc_retired_list(ks),
    ensures
        p_retired_list(d, pos, ks.len() as int)
            == Some((ks, pos + enc_retired_list(ks).len() as int)),
    decreases ks.len(),
{
    lemma_enc_retired_list_len(ks);
    if ks.len() == 0 {
        assert(ks =~= Seq::<(Seq<u8>, u64)>::empty());
    } else {
        lemma_enc_retired_list_len(ks.skip(1));
        let l = enc_retired_list(ks).len() as int;
        assert(d.subrange(pos, pos + 56) =~= enc_retired_list(ks).subrange(0, 56));
        assert(enc_retired_list(ks).subrange(0, 56) =~= enc_retired(ks[0]));
        lemma_p_retired_at(d, pos, ks[0]);
        assert(d.subrange(pos + 56, pos + l)
            =~= enc_retired_list(ks).subrange(56, l));
        assert(enc_retired_list(ks).subrange(56, l) =~= enc_retired_list(ks.skip(1)));
        lemma_p_retired_list_at(d, pos + 56, ks.skip(1));
        assert(seq![ks[0]] + ks.skip(1) =~= ks);
    }
}

/// Parsing finds a vault entry placed at its position.
#[verifier::rlimit(100)]
#[verifier::spinoff_prover]
proof fn lemma_p_vault_at(d: Seq<u8>, pos: int, v: VaultConfigV)
    requires
        0 <= pos,
        vault_wf(v),
        pos + enc_vault(v).len() <= d.len(),
        d.subrange(pos, pos + enc_vault(v).len() as int) == enc_vault(v),
    ensures
        p_vault(d, pos) == Some((v, pos + enc_vault(v).len() as int)),
{
    let e = enc_vault(v);
    let end = pos + e.len() as int;
    let t7 = seq![object_type_tag(v.object_type)];
    let t6 = enc_opt_raw(v.bridge) + t7;
    let t5 = enc_bool(v.active) + t6;
    let t4 = enc_opt_bytes(v.description) + t5;
    let t3 = enc_bytes(v.name) + t4;
    let t2 = enc_u64(v.last_modified) + t3;
    let t1 = enc_u64(v.created) + t2;
    lemma_split_at(d, pos, end, v.address, t1);
    let q1 = pos + 48;
    lemma_split_at(d, q1, end, enc_u64(v.created), t2);
    lemma_p_u64_at(d, q1, v.created);
    let q2 = q1 + 8;
    lemma_split_at(d, q2, end, enc_u64(v.last_modified), t3);
    lemma_p_u64_at(d, q2, v.last_modified);
    let q3 = q2 + 8;
    lemma_split_at(d, q3, end, enc_bytes(v.name), t4);
    lemma_p_bytes_at(d, q3, v.name);
    let q4 = q3 + 4 + v.name.len() as int;
    lemma_split_at(d, q4, end, enc_opt_bytes(v.description), t5);
    lemma_p_opt_bytes_at(d, q4, v.description);
    let q5 = q4 + enc_opt_bytes(v.description).len() as int;
    lemma_split_at(d, q5, end, enc_bool(v.active), t6);
    lemma_p_bool_at(d, q5, v.active);
    let q6 = q5 + 1;
    lemma_split_at(d, q6, end, enc_opt_raw(v.bridge), t7);
    let q7 = q6 + enc_opt_raw(v.bridge).len() as int;
    match v.bridge {
        Option::None => {
            assert(d.subrange(q6, q7)[0] == enc_opt_raw(v.bridge)[0]);
            assert(d[q6] == 0);
        }
        Option::Some(b) => {
            lemma_split_at(d, q6, q7, seq![1u8], b);
            assert(d.subrange(q6, q6 + 1)[0] == 1);
            assert(d[q6] == 1);
        }
    }
    assert(d.subrange(q7, end)[0] == object_type_tag(v.object_type));
    assert(d[q7] == object_type_tag(v.object_type));
    assert(end == q7 + 1);
}

/// Parsing finds a vault list placed at its position.
#[verifier::rlimit(100)]
#[verifier::spinoff_prover]
proof fn lemma_p_vault_list_at(d: Seq<u8>, pos: int, vs: Seq<VaultConfigV>)
    requires
        0 <= pos,
        forall|i: int| 0 <= i < vs.len() ==> vault_wf(#[trigger] vs[i]),
        pos + enc_vault_list(vs).len() <= d.len(),
        d.subrange(pos, pos + enc_vault_list(vs).len() as int) == enc_vault_list(vs),
    ensures
        p_vault_list(d, pos, vs.len() as int)
            == Some((vs, pos + enc_vault_list(vs).len() as int)),
    decreases vs.len(),
{
    if vs.len() == 0 {
        assert(vs =~= Seq::<VaultConfigV>::empty());
    } else {
        let l = enc_vault_list(vs).len() as int;
        let l0 = enc_vault(vs[0]).len() as int;
        assert(d.subrange(pos, pos + l0) =~= enc_vault_list(vs).subrange(0, l0));
        assert(enc_vault_list(vs).subrange(0, l0) =~= enc_vault(vs[0]));
        lemma_p_vault_at(d, pos, vs[0]);
        assert(d.subrange(pos + l0, pos + l)
            =~= enc_vault_list(vs).subrange(l0, l));
        assert(enc_vault_list(vs).subrange(l0, l) =~= enc_vault_list(vs.skip(1)));
        lemma_p_vault_list_at(d, pos + l0, vs.skip(1));
        assert(seq![vs[0]] + vs.skip(1) =~= vs);
    }
}

/// The first three fields of a serialized document: what parses where.
#[verifier::rlimit(100)]
#[verifier::spinoff_prover]
proof fn lemma_manifest_head(
    d: Seq<u8>,
    addr: Seq<u8>,
    created: u64,
    last_modified: u64,
    rest: Seq<u8>,
)
    requires
        addr.len() == 48,
        d == addr + (enc_u64(created) + (enc_u64(last_modified) + rest)),
    ensures
        p_raw(d, 0, 48) == Some((addr, 48int)),
        p_u64(d, 48) == Some((created, 56int)),
        p_u64(d, 56) == Some((last_modified, 64int)),
        64 <= d.len(),
        d.subrange(64, d.len() as int) == rest,
{
    let end = d.len() as int;
    let t2 = enc_u64(last_modified) + rest;
    let t1 = enc_u64(created) + t2;
    assert(d.subrange(0, end) =~= d);
    lemma_split_at(d, 0, end, addr, t1);
    lemma_split_at(d, 48, end, enc_u64(created), t2);
    lemma_p_u64_at(d, 48, created);
    lemma_split_at(d, 56, end, enc_u64(last_modified), rest);
    lemma_p_u64_at(d, 56, last_modified);
}

/// The name and description of a serialized document: what parses where.
#[verifier::rlimit(100)]
#[verifier::spinoff_prover]
proof fn lemma_manifest_mid(
    d: Seq<u8>,
    pos: int,
    name: Seq<u8>,
    desc: Option<Seq<u8>>,
    rest: Seq<u8>,
)
    requires
        0 <= pos <= d.len(),
        name.len() < 4294967296,
        (match desc {
            Option::Some(b) => b.len() < 4294967296,
            Option::None => true,
        }),
        d.subrange(pos, d.len() as int) == enc_bytes(name) + (enc_opt_bytes(desc) + rest),
    ensures ({
        let q4 = pos + 4 + name.len() as int;
        let q5 = q4 + enc_opt_bytes(desc).len() as int;
        &&& p_bytes(d, pos) == Some((name, q4))
        &&& p_opt_bytes(d, q4) == Some((desc, q5))
        &&& q5 <= d.len()
        &&& d.subrange(q5, d.len() as int) == rest
    }),
{
    let end = d.len() as int;
    let t4 = enc_opt_bytes(desc) + rest;
    lemma_split_at(d, pos, end, enc_bytes(name), t4);
    lemma_p_bytes_at(d, pos, name);
    let q4 = pos + 4 + name.len() as int;
    lemma_split_at(d, q4, end, enc_opt_bytes(desc), rest);
    lemma_p_opt_bytes_at(d, q4, desc);
}

/// The trailing fields of a serialized manifest: what parses where.
#[verifier::rlimit(100)]
#[verifier::spinoff_prover]
proof fn lemma_manifest_tail(
    d: Seq<u8>,
    q5: int,
    aw: Seq<u8>,
    rw: Seq<(Seq<u8>, u64)>,
    vs: Seq<VaultConfigV>,
)
    requires
        0 <= q5,
        aw.len() == 48,
        rw.len() < 4294967296,
        forall|i: int| 0 <= i < rw.len() ==> (#[trigger] rw[i]).0.len() == 48,
        vs.len() < 4294967296,
        forall|i: int| 0 <= i < vs.len() ==> vault_wf(#[trigger] vs[i]),
        q5 <= d.len(),
        d.subrange(q5, d.len() as int) == aw + (enc_u32(rw.len() as u32)
            + (enc_retired_list(rw) + (enc_u32(vs.len() as u32) + enc_vault_list(vs)))),
    ensures ({
        let q7 = q5 + 52;
        let q8 = q7 + enc_retired_list(rw).len() as int;
        let q9 = q8 + 4;
        let q10 = q9 + enc_vault_list(vs).len() as int;
        &&& p_raw(d, q5, 48) == Some((aw, q5 + 48))
        &&& p_u32(d, q5 + 48) == Some((rw.len() as u32, q7))
        &&& p_retired_list(d, q7, rw.len() as int) == Some((rw, q8))
        &&& p_u32(d, q8) == Some((vs.len() as u32, q9))
        &&& p_vault_list(d, q9, vs.len() as int) == Some((vs, q10))
        &&& q10 == d.len()
    }),
{
    let end = d.len() as int;
    let t9 = enc_vault_list(vs);
    let t8 = enc_u32(vs.len() as u32) + t9;
    let t7 = enc_retired_list(rw) + t8;
    let t6 = enc_u32(rw.len() as u32) + t7;
    lemma_split_at(d, q5, end, aw, t6);
    let q6 = q5 + 48;
    lemma_split_at(d, q6, end, enc_u32(rw.len() as u32), t7);
    lemma_p_u32_at(d, q6, rw.len() as u32);
    let q7 = q6 + 4;
    lemma_split_at(d, q7, end, enc_retired_list(rw), t8);
    lemma_p_retired_list_at(d, q7, rw);
    let q8 = q7 + enc_retired_list(rw).len() as int;
    lemma_split_at(d, q8, end, enc_u32(vs.len() as u32), t9);
    lemma_p_u32_at(d, q8, vs.len() as u32);
    let q9 = q8 + 4;
    lemma_p_vault_list_at(d, q9, vs);
}

/// Round trip: parsing a serialized manifest gives the manifest back.
#[verifier::rlimit(100)]
#[verifier::spinoff_prover]
pub proof fn lemma_manifest_roundtrip(m: ManifestV)
    requires manifest_wf(m),
    ensures parse_manifest(manifest_bytes(m)) == Some(m),
{
    let d = manifest_payload(m);
    lemma_frame_roundtrip(manifest_magic(), d);
    let rest5 = m.authorized_worker + (enc_u32(m.retired_workers.len() as u32)
        + (enc_retired_list(m.retired_workers)
        + (enc_u32(m.vaults.len() as u32) + enc_vault_list(m.vaults))));
    let rest3 = enc_bytes(m.name) + (enc_opt_bytes(m.description) + rest5);
    lemma_manifest_head(d, m.ark_address, m.created, m.last_modified, rest3);
    lemma_manifest_mid(d, 64, m.name, m.description, rest5);
    let q4 = 68 + m.name.len() as int;
    let q5 = q4 + enc_opt_bytes(m.description).len() as int;
    lemma_manifest_tail(d, q5, m.authorized_worker, m.retired_workers, m.vaults);
    assert(unframe(manifest_magic(), manifest_bytes(m)) == Some(d));
    assert(parse_manifest(manifest_bytes(m)) == Some(m));
}

/// Appending one retired entry appends its wire form.
proof fn lemma_enc_retired_snoc(ks: Seq<(Seq<u8>, u64)>, k: (Seq<u8>, u64))
    ensures enc_retired_list(ks.push(k)) == enc_retired_list(ks) + enc_retired(k),
    decreases ks.len(),
{
    if ks.len() == 0 {
        let p = ks.push(k);
        assert(p.len() == 1);
        assert(p[0] == k);
        assert(p.skip(1) =~= Seq::<(Seq<u8>, u64)>::empty());
        assert(enc_retired_list(p) == enc_retired(p[0]) + enc_retired_list(p.skip(1)));
        assert(enc_retired_list(p.skip(1)) == Seq::<u8>::empty());
        assert(enc_retired_list(p) =~= enc_retired_list(ks) + enc_retired(k));
    } else {
        lemma_enc_retired_snoc(ks.skip(1), k);
        assert(ks.push(k).skip(1) =~= ks.skip(1).push(k));
        assert(enc_retired_list(ks.push(k)) =~= enc_retired_list(ks) + enc_retired(k));
    }
}

/// Appending one vault entry appends its wire form.
proof fn lemma_enc_vault_snoc(vs: Seq<VaultConfigV>, v: VaultConfigV)
    ensures enc_vault_list(vs.push(v)) == enc_vault_list(vs) + enc_vault(v),
    decreases vs.len(),
{
    if vs.len() == 0 {
        let p = vs.push(v);
        assert(p.len() == 1);
        assert(p[0] == v);
        assert(p.skip(1) =~= Seq::<VaultConfigV>::empty());
        assert(enc_vault_list(p) == enc_vault(p[0]) + enc_vault_list(p.skip(1)));
        assert(enc_vault_list(p.skip(1)) == Seq::<u8>::empty());
        assert(enc_vault_list(p) =~= enc_vault_list(vs) + enc_vault(v));
    } else {
        lemma_enc_vault_snoc(vs.skip(1), v);
        assert(vs.push(v).skip(1) =~= vs.skip(1).push(v));
        assert(enc_vault_list(vs.push(v)) =~= enc_vault_list(vs) + enc_vault(v));
    }
}

impl Clone for VaultConfig {
    fn clone(&self) -> (r: Self)
        ensures r@ == self@,
    {
        VaultConfig {
            address: self.address.clone(),
            created: self.created,
            last_modified: self.last_modified,
            name: crate::keys::clone_bytes(&self.name),
            description: match &self.description {
                Some(d) => Some(crate::keys::clone_bytes(d)),
                None => None,
            },
            active: self.active,
            bridge: match &self.bridge {
                Some(b) => Some(b.clone()),
                None => None,
            },
            object_type: self.object_type,
        }
    }
}

impl VaultConfig {
    /// Writes the vault entry's wire form onto a buffer.
    fn write(&self, out: &mut Vec<u8>)
        requires
            self@.name.len() < 4294967296,
            (match self@.description {
                Option::Some(d) => d.len() < 4294967296,
                Option::None => true,
            }),
        ensures
            final(out)@ == old(out)@ + enc_vault(self@),
            vault_wf(self@),
            bls_pk_ok(self@.address),
            (match self@.bridge {
                Option::Some(b) => bls_pk_ok(b),
                Option::None => true,
            }),
    {
        let ghost base = out@;
        let addr = self.address.to_bytes();
        push_raw(out, &addr);
        push_u64(out, self.created);
        push_u64(out, self.last_modified);
        push_bytes(out, &self.name);
        push_opt_bytes(out, &self.description);
        push_bool(out, self.active);
        let ghost before_bridge = out@;
        match &self.bridge {
            None => {
                out.push(0);
                proof { assert(out@ =~= before_bridge + enc_opt_raw(self@.bridge)); }
            }
            Some(b) => {
                out.push(1);
                let bb = b.to_bytes();
                push_raw(out, &bb);
                proof { assert(out@ =~= before_bridge + enc_opt_raw(self@.bridge)); }
            }
        }
        let ghost before_tag = out@;
        out.push(self.object_type.tag());
        proof { assert(out@ =~= before_tag + seq![object_type_tag(self@.object_type)]); }
        proof {
            let v = self@;
            match v.bridge {
                Option::None => {
                    assert(enc_opt_raw(v.bridge) =~= seq![0u8]);
                }
                Option::Some(b) => {
                    assert(enc_opt_raw(v.bridge) =~= seq![1u8] + b);
                }
            }
            assert(seq![object_type_tag(v.object_type)] =~= Seq::<u8>::empty().push(object_type_tag(v.object_type)));
            lemma_concat_base8(
                base,
                v.address, enc_u64(v.created), enc_u64(v.last_modified), enc_bytes(v.name),
                enc_opt_bytes(v.description), enc_bool(v.active), enc_opt_raw(v.bridge),
                seq![object_type_tag(v.object_type)],
            );
        }
    }
}

impl Manifest {
    /// A fresh manifest for a newly created Ark: no vaults, no retired
    /// workers, both timestamps at the moment of creation.
    pub fn new(
        ark_address: ArkAddress,
        name: Vec<u8>,
        description: Option<Vec<u8>>,
        authorized_worker: PublicWorkerKey,
        now: u64,
    ) -> (r: Self)
        ensures
            r@.ark_address == ark_address@,
            r@.created == now,
            r@.last_modified == now,
            r@.name == name@,
            r@.description == (match description {
                Option::Some(ref d) => Option::Some(d@),
                Option::None => Option::None::<Seq<u8>>,
            }),
            r@.authorized_worker == authorized_worker@,
            r@.retired_workers.len() == 0,
            r@.vaults.len() == 0,
    {
        let r = Manifest {
            ark_address,
            created: now,
            last_modified: now,
            name,
            description,
            authorized_worker,
            retired_workers: Vec::new(),
            vaults: Vec::new(),
        };
        proof {
            assert(r@.retired_workers =~= Seq::<(Seq<u8>, u64)>::empty());
            assert(r@.vaults =~= Seq::<VaultConfigV>::empty());
        }
        r
    }

    /// Hands authority to a new Worker key.  If the key actually changes,
    /// the previous key joins the retired list with the given timestamp;
    /// handing the same key again changes nothing.  The audit trail only
    /// ever grows.
    pub fn update_worker(&mut self, new_worker: &PublicWorkerKey, now: u64)
        ensures
            final(self)@.authorized_worker == new_worker@,
            old(self)@.authorized_worker == new_worker@ ==> final(self)@ == old(self)@,
            old(self)@.authorized_worker != new_worker@ ==> final(self)@ == (ManifestV {
                authorized_worker: new_worker@,
                retired_workers: old(self)@.retired_workers.push(
                    (old(self)@.authorized_worker, now),
                ),
                ..old(self)@
            }),
    {
        if self.authorized_worker.equals(new_worker) {
            return;
        }
        let previous = self.authorized_worker.clone();
        self.authorized_worker = new_worker.clone();
        self.retired_workers.push(RetiredKey::new(previous, now));
        proof {
            assert(self@.retired_workers =~= old(self)@.retired_workers.push(
                (old(self)@.authorized_worker, now),
            ));
            assert(self@ =~= ManifestV {
                authorized_worker: new_worker@,
                retired_workers: old(self)@.retired_workers.push(
                    (old(self)@.authorized_worker, now),
                ),
                ..old(self)@
            });
        }
    }

    /// The first vault entry with the given address, if any.
    pub fn vault(&self, address: &VaultAddress) -> (r: Option<&VaultConfig>)
        ensures
            match r {
                Some(v) => exists|i: int| 0 <= i < self@.vaults.len()
                    && self@.vaults[i] == v@ && v@.address == address@,
                None => forall|i: int| 0 <= i < self@.vaults.len()
                    ==> (#[trigger] self@.vaults[i]).address != address@,
            },
    {
        let mut i: usize = 0;
        while i < self.vaults.len()
            invariant
                i <= self.vaults@.len(),
                forall|j: int| 0 <= j < i
                    ==> (#[trigger] self@.vaults[j]).address != address@,
            decreases self.vaults@.len() - i,
        {
            if self.vaults[i].address.equals(address) {
                proof { assert(self@.vaults[i as int] == self.vaults@[i as int]@); }
                return Some(&self.vaults[i]);
            }
            proof { assert(self@.vaults[i as int] == self.vaults@[i as int]@); }
            i += 1;
        }
        None
    }

    /// Serializes the manifest: the magic header, then every field.
    pub fn serialize(&self) -> (r: Vec<u8>)
        requires
            manifest_fits(self@),
        ensures
            r@ == manifest_bytes(self@),
            manifest_wf(self@),
            manifest_keys_ok(self@),
    {
        let mut payload: Vec<u8> = Vec::new();
        let addr = self.ark_address.to_bytes();
        push_raw(&mut payload, &addr);
        push_u64(&mut payload, self.created);
        push_u64(&mut payload, self.last_modified);
        push_bytes(&mut payload, &self.name);
        push_opt_bytes(&mut payload, &self.description);
        let aw = self.authorized_worker.to_bytes();
        push_raw(&mut payload, &aw);
        push_u32(&mut payload, self.retired_workers.len() as u32);
        let ghost base7 = payload@;
        let mut i: usize = 0;
        while i < self.retired_workers.len()
            invariant
                i <= self.retired_workers@.len(),
                payload@ == base7 + enc_retired_list(self@.retired_workers.take(i as int)),
                forall|j: int| 0 <= j < i ==> {
                    let k = #[trigger] self@.retired_workers[j];
                    k.0.len() == 48 && bls_pk_ok(k.0)
                },
            decreases self.retired_workers@.len() - i,
        {
            let kb = self.retired_workers[i].inner().to_bytes();
            push_raw(&mut payload, &kb);
            push_u64(&mut payload, self.retired_workers[i].retired_at());
            proof {
                let ks = self@.retired_workers;
                lemma_enc_retired_snoc(ks.take(i as int), ks[i as int]);
                assert(ks.take(i + 1int) =~= ks.take(i as int).push(ks[i as int]));
                assert(enc_retired(ks[i as int]) =~= kb@ + enc_u64(self.retired_workers@[i as int].retired_at_spec()));
                assert(payload@ =~= base7 + enc_retired_list(ks.take(i + 1int)));
            }
            i += 1;
        }
        proof {
            assert(self@.retired_workers.take(self@.retired_workers.len() as int)
                =~= self@.retired_workers);
        }
        push_u32(&mut payload, self.vaults.len() as u32);
        let ghost base9 = payload@;
        let mut k: usize = 0;
        while k < self.vaults.len()
            invariant
                k <= self.vaults@.len(),
                payload@ == base9 + enc_vault_list(self@.vaults.take(k as int)),
                forall|j: int| 0 <= j < self@.vaults.len() ==> {
                    let v = #[trigger] self@.vaults[j];
                    v.name.len() < 4294967296 && (match v.description {
                        Option::Some(d) => d.len() < 4294967296,
                        Option::None => true,
                    })
                },
                forall|j: int| 0 <= j < k ==> {
                    let v = #[trigger] self@.vaults[j];
                    vault_wf(v) && bls_pk_ok(v.address) && (match v.bridge {
                        Option::Some(b) => bls_pk_ok(b),
                        Option::None => true,
                    })
                },
            decreases self.vaults@.len() - k,
        {
            proof { assert(self@.vaults[k as int] == self.vaults@[k as int]@); }
            self.vaults[k].write(&mut payload);
            proof {
                let vs = self@.vaults;
                lemma_enc_vault_snoc(vs.take(k as int), vs[k as int]);
                assert(vs.take(k + 1int) =~= vs.take(k as int).push(vs[k as int]));
                assert(self.vaults@[k as int]@ == vs[k as int]);
                assert(payload@ =~= base9 + enc_vault_list(vs.take(k + 1int)));
            }
            k += 1;
        }
        proof {
            assert(self@.vaults.take(self@.vaults.len() as int) =~= self@.vaults);
            let m = self@;
            lemma_concat_base10(
                Seq::<u8>::empty(),
                m.ark_address, enc_u64(m.created), enc_u64(m.last_modified), enc_bytes(m.name),
                enc_opt_bytes(m.description), m.authorized_worker,
                enc_u32(m.retired_workers.len() as u32), enc_retired_list(m.retired_workers),
                enc_u32(m.vaults.len() as u32), enc_vault_list(m.vaults),
            );
            assert(Seq::<u8>::empty() + manifest_payload(m) =~= manifest_payload(m));
            assert(payload@ == manifest_payload(m));
        }
        let magic = manifest_magic_bytes();
        serialize_with_header(&magic, &payload)
    }
}

/// A serialized form determines its manifest: two well-formed manifests
/// with the same bytes are the same manifest.
pub proof fn lemma_manifest_bytes_injective(a: ManifestV, b: ManifestV)
    requires
        manifest_wf(a),
        manifest_wf(b),
        manifest_bytes(a) == manifest_bytes(b),
    ensures
        a == b,
{
    lemma_manifest_roundtrip(a);
    lemma_manifest_roundtrip(b);
}

/// Reads one retired-worker entry, validating the key.
fn read_retired(reader: &mut Reader) -> (r: Result<RetiredWorkerKey, ArkError>)
    ensures
        old(reader).buf_spec() == final(reader).buf_spec(),
        match p_retired(final(reader).buf_spec(), old(reader).pos_spec()) {
            Option::None => r is Err,
            Option::Some((kv, p2)) => match r {
                Ok(k) => k.key_view() == kv.0 && k.retired_at_spec() == kv.1
                    && final(reader).pos_spec() == p2 && bls_pk_ok(kv.0),
                Err(_) => !bls_pk_ok(kv.0),
            },
        },
        r is Err ==> r == Err::<RetiredWorkerKey, ArkError>(ArkError::BadEncoding),
{
    let pk_bytes = match reader.read_raw(48) {
        Some(b) => b,
        None => { return Err(ArkError::BadEncoding); }
    };
    let t = match reader.read_u64() {
        Some(t) => t,
        None => { return Err(ArkError::BadEncoding); }
    };
    let pk = match crate::hierarchy::PublicWorkerKey::try_from_bytes(pk_bytes) {
        Ok(pk) => pk,
        Err(_) => { return Err(ArkError::BadEncoding); }
    };
    Ok(RetiredKey::new(pk, t))
}

/// Reads one vault entry, validating its keys.
#[verifier::rlimit(100)]
#[verifier::spinoff_prover]
fn read_vault(reader: &mut Reader) -> (r: Result<VaultConfig, ArkError>)
    ensures
        old(reader).buf_spec() == final(reader).buf_spec(),
        match p_vault(final(reader).buf_spec(), old(reader).pos_spec()) {
            Option::None => r is Err,
            Option::Some((vv, p2)) => match r {
                Ok(v) => v@ == vv && final(reader).pos_spec() == p2
                    && bls_pk_ok(vv.address)
                    && (match vv.bridge {
                        Option::Some(b) => bls_pk_ok(b),
                        Option::None => true,
                    }),
                Err(_) => !(bls_pk_ok(vv.address) && (match vv.bridge {
                    Option::Some(b) => bls_pk_ok(b),
                    Option::None => true,
                })),
            },
        },
        r is Err ==> r == Err::<VaultConfig, ArkError>(ArkError::BadEncoding),
{
    let addr_bytes = match reader.read_raw(48) {
        Some(b) => b,
        None => { return Err(ArkError::BadEncoding); }
    };
    let created = match reader.read_u64() {
        Some(t) => t,
        None => { return Err(ArkError::BadEncoding); }
    };
    let last_modified = match reader.read_u64() {
        Some(t) => t,
        None => { return Err(ArkError::BadEncoding); }
    };
    let name = match reader.read_bytes() {
        Some(b) => b,
        None => { return Err(ArkError::BadEncoding); }
    };
    let description = match reader.read_opt_bytes() {
        Some(d) => d,
        None => { return Err(ArkError::BadEncoding); }
    };
    let active = match reader.read_bool() {
        Some(b) => b,
        None => { return Err(ArkError::BadEncoding); }
    };
    let ghost bpos = reader.pos_spec();
    let bridge_flag = match reader.read_u8() {
        Some(f) => f,
        None => { return Err(ArkError::BadEncoding); }
    };
    proof {
        assert(reader.buf_spec().subrange(bpos, bpos + 1)[0] == bridge_flag);
        assert(reader.buf_spec()[bpos] == bridge_flag);
    }
    let bridge_bytes: Option<Vec<u8>> = if bridge_flag == 0 {
        None
    } else if bridge_flag == 1 {
        match reader.read_raw(48) {
            Some(b) => Some(b),
            None => { return Err(ArkError::BadEncoding); }
        }
    } else {
        return Err(ArkError::BadEncoding);
    };
    let ghost tpos = reader.pos_spec();
    let tag = match reader.read_u8() {
        Some(t) => t,
        None => { return Err(ArkError::BadEncoding); }
    };
    proof {
        assert(reader.buf_spec().subrange(tpos, tpos + 1)[0] == tag);
        assert(reader.buf_spec()[tpos] == tag);
    }
    let object_type = match ObjectType::from_tag(tag) {
        Some(t) => t,
        None => { return Err(ArkError::BadEncoding); }
    };
    let address = match VaultAddress::try_from_bytes(addr_bytes) {
        Ok(a) => a,
        Err(_) => { return Err(ArkError::BadEncoding); }
    };
    let bridge: Option<BridgeAddress> = match bridge_bytes {
        None => None,
        Some(bb) => match BridgeAddress::try_from_bytes(bb) {
            Ok(b) => Some(b),
            Err(_) => { return Err(ArkError::BadEncoding); }
        },
    };
    let v = VaultConfig {
        address, created, last_modified, name, description, active, bridge, object_type,
    };
    Ok(v)
}

/// Reads `n` retired-worker entries.
#[verifier::rlimit(100)]
#[verifier::spinoff_prover]
#[verifier::loop_isolation(false)]
fn read_retired_list(reader: &mut Reader, n: u32) -> (r: Result<Vec<RetiredWorkerKey>, ArkError>)
    ensures
        old(reader).buf_spec() == final(reader).buf_spec(),
        match p_retired_list(final(reader).buf_spec(), old(reader).pos_spec(), n as int) {
            Option::None => r is Err,
            Option::Some((ks, p)) => match r {
                Ok(v) => v@.map_values(|k: RetiredWorkerKey| (k.key_view(), k.retired_at_spec()))
                    == ks && final(reader).pos_spec() == p && retired_keys_ok(ks),
                Err(_) => !retired_keys_ok(ks),
            },
        },
        r is Err ==> r == Err::<Vec<RetiredWorkerKey>, ArkError>(ArkError::BadEncoding),
{
    let ghost d = old(reader).buf_spec();
    let ghost start = old(reader).pos_spec();
    let mut out: Vec<RetiredWorkerKey> = Vec::new();
    let mut i: usize = 0;
    while i < n as usize
        invariant
            i <= n,
            reader.buf_spec() == d,
            d == old(reader).buf_spec(),
            out@.len() == i,
            forall|j: int| 0 <= j < i ==> bls_pk_ok((#[trigger] out@[j]).key_view()),
            ({
                let rv = out@.map_values(|k: RetiredWorkerKey| (k.key_view(), k.retired_at_spec()));
                match p_retired_list(d, reader.pos_spec(), n as int - i as int) {
                    Option::None => p_retired_list(d, start, n as int) is None,
                    Option::Some((xs, p)) => p_retired_list(d, start, n as int)
                        == Some((rv + xs, p)),
                }
            }),
        decreases n - i,
    {
        let ghost pre_views = out@.map_values(
            |k: RetiredWorkerKey| (k.key_view(), k.retired_at_spec()));
        let ghost cur = reader.pos_spec();
        let entry = match read_retired(reader) {
            Ok(k) => k,
            Err(e) => {
                proof {
                    let rem = n as int - i as int;
                    assert(rem > 0);
                    match p_retired(d, cur) {
                        Option::None => {
                            assert(p_retired_list(d, cur, rem) is None);
                            assert(p_retired_list(d, start, n as int) is None);
                        }
                        Option::Some((kv, p2)) => {
                            assert(!bls_pk_ok(kv.0));
                            match p_retired_list(d, p2, rem - 1) {
                                Option::None => {
                                    assert(p_retired_list(d, cur, rem) is None);
                                    assert(p_retired_list(d, start, n as int) is None);
                                }
                                Option::Some((xs, p)) => {
                                    assert(p_retired_list(d, cur, rem)
                                        == Some((seq![kv] + xs, p)));
                                    let ks = pre_views + (seq![kv] + xs);
                                    assert(p_retired_list(d, start, n as int)
                                        == Some((ks, p)));
                                    assert(ks[pre_views.len() as int]
                                        == (seq![kv] + xs)[0]);
                                    assert(ks[pre_views.len() as int] == kv);
                                    assert(!retired_keys_ok(ks));
                                }
                            }
                        }
                    }
                }
                return Err(e);
            }
        };
        out.push(entry);
        proof {
            let rv2 = out@.map_values(|k: RetiredWorkerKey| (k.key_view(), k.retired_at_spec()));
            let kv = (entry.key_view(), entry.retired_at_spec());
            assert(rv2 =~= pre_views.push(kv));
            match p_retired_list(d, reader.pos_spec(), n as int - i as int - 1) {
                Option::None => {}
                Option::Some((xs, p)) => {
                    assert(pre_views + (seq![kv] + xs) =~= rv2 + xs);
                }
            }
        }
        i += 1;
    }
    proof {
        let rv = out@.map_values(|k: RetiredWorkerKey| (k.key_view(), k.retired_at_spec()));
        assert(rv + Seq::<(Seq<u8>, u64)>::empty() =~= rv);
    }
    Ok(out)
}

/// Reads `n` vault entries.
#[verifier::rlimit(100)]
#[verifier::spinoff_prover]
#[verifier::loop_isolation(false)]
fn read_vault_list(reader: &mut Reader, n: u32) -> (r: Result<Vec<VaultConfig>, ArkError>)
    ensures
        old(reader).buf_spec() == final(reader).buf_spec(),
        match p_vault_list(final(reader).buf_spec(), old(reader).pos_spec(), n as int) {
            Option::None => r is Err,
            Option::Some((vs, p)) => match r {
                Ok(v) => v@.map_values(|c: VaultConfig| c@) == vs
                    && final(reader).pos_spec() == p && vault_keys_ok(vs),
                Err(_) => !vault_keys_ok(vs),
            },
        },
        r is Err ==> r == Err::<Vec<VaultConfig>, ArkError>(ArkError::BadEncoding),
{
    let ghost d = old(reader).buf_spec();
    let ghost start = old(reader).pos_spec();
    let mut out: Vec<VaultConfig> = Vec::new();
    let mut i: usize = 0;
    while i < n as usize
        invariant
            i <= n,
            reader.buf_spec() == d,
            d == old(reader).buf_spec(),
            out@.len() == i,
            forall|j: int| 0 <= j < i ==> bls_pk_ok((#[trigger] out@[j])@.address)
                && (match out@[j]@.bridge {
                    Option::Some(b) => bls_pk_ok(b),
                    Option::None => true,
                }),
            ({
                let vv = out@.map_values(|c: VaultConfig| c@);
                match p_vault_list(d, reader.pos_spec(), n as int - i as int) {
                    Option::None => p_vault_list(d, start, n as int) is None,
                    Option::Some((xs, p)) => p_vault_list(d, start, n as int)
                        == Some((vv + xs, p)),
                }
            }),
        decreases n - i,
    {
        let ghost pre_views = out@.map_values(|c: VaultConfig| c@);
        let ghost cur = reader.pos_spec();
        let entry = match read_vault(reader) {
            Ok(v) => v,
            Err(e) => {
                proof {
                    let rem = n as int - i as int;
                    assert(rem > 0);
                    match p_vault(d, cur) {
                        Option::None => {
                            assert(p_vault_list(d, cur, rem) is None);
                        }
                        Option::Some((vv, p2)) => {
                            assert(!(bls_pk_ok(vv.address) && (match vv.bridge {
                                Option::Some(b) => bls_pk_ok(b),
                                Option::None => true,
                            })));
                            match p_vault_list(d, p2, rem - 1) {
                                Option::None => {
                                    assert(p_vault_list(d, cur, rem) is None);
                                }
                                Option::Some((xs, p)) => {
                                    assert(p_vault_list(d, cur, rem)
                                        == Some((seq![vv] + xs, p)));
                                    let vs = pre_views + (seq![vv] + xs);
                                    assert(vs[pre_views.len() as int]
                                        == (seq![vv] + xs)[0]);
                                    assert(vs[pre_views.len() as int] == vv);
                                    assert(!vault_keys_ok(vs));
                                }
                            }
                        }
                    }
                }
                return Err(e);
            }
        };
        out.push(entry);
        proof {
            let vv2 = out@.map_values(|c: VaultConfig| c@);
            let ev = entry@;
            assert(vv2 =~= pre_views.push(ev));
            match p_vault_list(d, reader.pos_spec(), n as int - i as int - 1) {
                Option::None => {}
                Option::Some((xs, p)) => {
                    assert(pre_views + (seq![ev] + xs) =~= vv2 + xs);
                }
            }
        }
        i += 1;
    }
    proof {
        let vv = out@.map_values(|c: VaultConfig| c@);
        assert(vv + Seq::<VaultConfigV>::empty() =~= vv);
    }
    Ok(out)
}

/// Parses a manifest payload that already shed its header: the payload
/// parse model, followed exactly.
#[verifier::rlimit(100)]
#[verifier::spinoff_prover]
fn parse_payload(payload: &Vec<u8>) -> (r: Result<Manifest, ArkError>)
    ensures
        match parse_manifest_payload(payload@) {
            Option::None => r is Err,
            Option::Some(mv) => match r {
                Ok(m) => m@ == mv && manifest_keys_ok(mv),
                Err(_) => !manifest_keys_ok(mv),
            },
        },
        r is Err ==> r == Err::<Manifest, ArkError>(ArkError::BadEncoding),
{
    let ghost d = payload@;
    let mut reader = Reader::new(payload);
    let addr_bytes = match reader.read_raw(48) {
        Some(b) => b,
        None => { return Err(ArkError::BadEncoding); }
    };
    let created = match reader.read_u64() {
        Some(t) => t,
        None => { return Err(ArkError::BadEncoding); }
    };
    let last_modified = match reader.read_u64() {
        Some(t) => t,
        None => { return Err(ArkError::BadEncoding); }
    };
    let name = match reader.read_bytes() {
        Some(b) => b,
        None => { return Err(ArkError::BadEncoding); }
    };
    let description = match reader.read_opt_bytes() {
        Some(o) => o,
        None => { return Err(ArkError::BadEncoding); }
    };
    let worker_bytes = match reader.read_raw(48) {
        Some(b) => b,
        None => { return Err(ArkError::BadEncoding); }
    };
    let rn = match reader.read_u32() {
        Some(v) => v,
        None => { return Err(ArkError::BadEncoding); }
    };
    let retired_workers = match read_retired_list(&mut reader, rn) {
        Ok(v) => v,
        Err(e) => { return Err(e); }
    };
    let vn = match reader.read_u32() {
        Some(v) => v,
        None => { return Err(ArkError::BadEncoding); }
    };
    let vaults = match read_vault_list(&mut reader, vn) {
        Ok(v) => v,
        Err(e) => { return Err(e); }
    };
    if !reader.at_end() {
        return Err(ArkError::BadEncoding);
    }
    let ark_address = match ArkAddress::try_from_bytes(addr_bytes) {
        Ok(a) => a,
        Err(_) => { return Err(ArkError::BadEncoding); }
    };
    let authorized_worker = match crate::hierarchy::PublicWorkerKey::try_from_bytes(worker_bytes) {
        Ok(a) => a,
        Err(_) => { return Err(ArkError::BadEncoding); }
    };
    let m = Manifest {
        ark_address, created, last_modified, name, description, authorized_worker,
        retired_workers, vaults,
    };
    proof {
        assert(parse_manifest_payload(d) == Some(m@));
    }
    Ok(m)
}

impl Manifest {
    /// Whether the manifest's variable-length fields fit the wire format.
    pub fn fits(&self) -> (r: bool)
        ensures r == manifest_fits(self@),
    {
        if self.name.len() as u64 >= 4294967296u64 {
            return false;
        }
        match &self.description {
            Some(d) => {
                if d.len() as u64 >= 4294967296u64 {
                    return false;
                }
            }
            None => {}
        }
        if self.retired_workers.len() as u64 >= 4294967296u64
            || self.vaults.len() as u64 >= 4294967296u64 {
            return false;
        }
        let mut i: usize = 0;
        while i < self.vaults.len()
            invariant
                i <= self.vaults@.len(),
                self@.name.len() < 4294967296,
                (match self@.description {
                    Option::Some(d) => d.len() < 4294967296,
                    Option::None => true,
                }),
                self@.retired_workers.len() < 4294967296,
                self@.vaults.len() < 4294967296,
                forall|j: int| 0 <= j < i ==> {
                    let v = #[trigger] self@.vaults[j];
                    v.name.len() < 4294967296 && (match v.description {
                        Option::Some(d) => d.len() < 4294967296,
                        Option::None => true,
                    })
                },
            decreases self.vaults@.len() - i,
        {
            proof { assert(self@.vaults[i as int] == self.vaults@[i as int]@); }
            if self.vaults[i].name.len() as u64 >= 4294967296u64 {
                return false;
            }
            match &self.vaults[i].description {
                Some(d) => {
                    if d.len() as u64 >= 4294967296u64 {
                        return false;
                    }
                }
                None => {}
            }
            i += 1;
        }
        true
    }

    /// Deserializes a manifest: succeeds exactly on bytes that parse as a
    /// manifest whose keys are valid points, giving back exactly the
    /// manifest the bytes spell.  A corrupted header is refused as
    /// `BadEncoding` before any field is read, and deserializing a
    /// serialized manifest gives the manifest back (the round-trip
    /// lemma supplies the parse).
    pub fn deserialize(data: &Vec<u8>) -> (r: Result<Self, ArkError>)
        ensures
            match r {
                Ok(m) => parse_manifest(data@) == Some(m@) && manifest_keys_ok(m@),
                Err(e) => e == ArkError::BadEncoding && (match parse_manifest(data@) {
                    Option::Some(mv) => !manifest_keys_ok(mv),
                    Option::None => true,
                }),
            },
            unframe(manifest_magic(), data@) is None
                ==> r == Err::<Manifest, ArkError>(ArkError::BadEncoding),
    {
        let magic = manifest_magic_bytes();
        let payload = match deserialize_with_header(&magic, data) {
            Ok(p) => p,
            Err(e) => { return Err(e); }
        };
        parse_payload(&payload)
    }
}

} // verus!
