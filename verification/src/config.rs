//! The network-config descriptor: a URI naming the target storage
//! network and how to reach it.
//!
//! The form is `autonomi:config:<network>` with optional parameters for a
//! local network's contracts, bootstrap peers or peer-list URLs, an
//! explicit network id, and cache directives.  Serialization is
//! canonical: a fixed parameter order.  The parser is lenient — it takes
//! the parameters in any order and ignores unknown keys — and parsing a
//! canonical text gives back exactly the descriptor that wrote it
//! (`lemma_uri_roundtrip`).

use vstd::prelude::*;
use crate::errors::ArkError;
use crate::wire::{push_raw};

verus! {

/// Which storage network an Ark lives on.
pub enum Network {
    /// The production network.
    MainNet,
    /// The pre-release network.
    AlphaNet,
    /// A public test network.
    TestNet,
    /// A local development network with its own contracts.
    Local(LocalNetworkConfig),
}

/// The addresses a local development network needs.
pub struct LocalNetworkConfig {
    /// The RPC endpoint, as URI bytes.
    pub rpc_url: Vec<u8>,
    /// The payment token contract address.
    pub payment_token_addr: Vec<u8>,
    /// The data payments contract address.
    pub data_payments_addr: Vec<u8>,
}

/// Where to find the first peers.
pub enum BootstrapPeers {
    /// Lists of peers fetched from these URLs.
    Urls(Vec<Vec<u8>>),
    /// Peer multi-addresses given directly.
    MultiAddresses(Vec<Vec<u8>>),
}

/// A full descriptor of the target network.
pub struct ClientConfig {
    /// The network.
    pub network: Network,
    /// An explicit network id, if one is forced.
    pub network_id: Option<u8>,
    /// Where to find the first peers, if given.
    pub bootstrap_peers: Option<BootstrapPeers>,
    /// A directory for the bootstrap cache, if one is set.
    pub bootstrap_cache: Option<Vec<u8>>,
    /// Whether the bootstrap cache is ignored.
    pub ignore_cache: bool,
}

/// The literal `autonomi:config:` of the descriptor grammar.
pub open spec fn lit_head() -> Seq<u8> {
    seq![0x61u8, 0x75u8, 0x74u8, 0x6fu8, 0x6eu8, 0x6fu8, 0x6du8, 0x69u8, 0x3au8, 0x63u8, 0x6fu8, 0x6eu8, 0x66u8, 0x69u8, 0x67u8, 0x3au8]
}

/// The literal `autonomi:config:` of the descriptor grammar.
pub fn lit_head_bytes() -> (r: Vec<u8>)
    ensures r@ == lit_head(),
{
    let out: Vec<u8> = vec![0x61u8, 0x75u8, 0x74u8, 0x6fu8, 0x6eu8, 0x6fu8, 0x6du8, 0x69u8, 0x3au8, 0x63u8, 0x6fu8, 0x6eu8, 0x66u8, 0x69u8, 0x67u8, 0x3au8];
    proof { assert(out@ =~= lit_head()); }
    out
}

/// The literal `mainnet` of the descriptor grammar.
pub open spec fn lit_mainnet() -> Seq<u8> {
    seq![0x6du8, 0x61u8, 0x69u8, 0x6eu8, 0x6eu8, 0x65u8, 0x74u8]
}

/// The literal `mainnet` of the descriptor grammar.
pub fn lit_mainnet_bytes() -> (r: Vec<u8>)
    ensures r@ == lit_mainnet(),
{
    let out: Vec<u8> = vec![0x6du8, 0x61u8, 0x69u8, 0x6eu8, 0x6eu8, 0x65u8, 0x74u8];
    proof { assert(out@ =~= lit_mainnet()); }
    out
}

/// The literal `alphanet` of the descriptor grammar.
pub open spec fn lit_alphanet() -> Seq<u8> {
    seq![0x61u8, 0x6cu8, 0x70u8, 0x68u8, 0x61u8, 0x6eu8, 0x65u8, 0x74u8]
}

/// The literal `alphanet` of the descriptor grammar.
pub fn lit_alphanet_bytes() -> (r: Vec<u8>)
    ensures r@ == lit_alphanet(),
{
    let out: Vec<u8> = vec![0x61u8, 0x6cu8, 0x70u8, 0x68u8, 0x61u8, 0x6eu8, 0x65u8, 0x74u8];
    proof { assert(out@ =~= lit_alphanet()); }
    out
}

/// The literal `testnet` of the descriptor grammar.
pub open spec fn lit_testnet() -> Seq<u8> {
    seq![0x74u8, 0x65u8, 0x73u8, 0x74u8, 0x6eu8, 0x65u8, 0x74u8]
}

/// The literal `testnet` of the descriptor grammar.
pub fn lit_testnet_bytes() -> (r: Vec<u8>)
    ensures r@ == lit_testnet(),
{
    let out: Vec<u8> = vec![0x74u8, 0x65u8, 0x73u8, 0x74u8, 0x6eu8, 0x65u8, 0x74u8];
    proof { assert(out@ =~= lit_testnet()); }
    out
}

/// The literal `local` of the descriptor grammar.
pub open spec fn lit_local() -> Seq<u8> {
    seq![0x6cu8, 0x6fu8, 0x63u8, 0x61u8, 0x6cu8]
}

/// The literal `local` of the descriptor grammar.
pub fn lit_local_bytes() -> (r: Vec<u8>)
    ensures r@ == lit_local(),
{
    let out: Vec<u8> = vec![0x6cu8, 0x6fu8, 0x63u8, 0x61u8, 0x6cu8];
    proof { assert(out@ =~= lit_local()); }
    out
}

/// The literal `rpc_url` of the descriptor grammar.
pub open spec fn lit_rpc_url() -> Seq<u8> {
    seq![0x72u8, 0x70u8, 0x63u8, 0x5fu8, 0x75u8, 0x72u8, 0x6cu8]
}

/// The literal `rpc_url` of the descriptor grammar.
pub fn lit_rpc_url_bytes() -> (r: Vec<u8>)
    ensures r@ == lit_rpc_url(),
{
    let out: Vec<u8> = vec![0x72u8, 0x70u8, 0x63u8, 0x5fu8, 0x75u8, 0x72u8, 0x6cu8];
    proof { assert(out@ =~= lit_rpc_url()); }
    out
}

/// The literal `payment_token_addr` of the descriptor grammar.
pub open spec fn lit_payment_token() -> Seq<u8> {
    seq![0x70u8, 0x61u8, 0x79u8, 0x6du8, 0x65u8, 0x6eu8, 0x74u8, 0x5fu8, 0x74u8, 0x6fu8, 0x6bu8, 0x65u8, 0x6eu8, 0x5fu8, 0x61u8, 0x64u8, 0x64u8, 0x72u8]
}

/// The literal `payment_token_addr` of the descriptor grammar.
pub fn lit_payment_token_bytes() -> (r: Vec<u8>)
    ensures r@ == lit_payment_token(),
{
    let out: Vec<u8> = vec![0x70u8, 0x61u8, 0x79u8, 0x6du8, 0x65u8, 0x6eu8, 0x74u8, 0x5fu8, 0x74u8, 0x6fu8, 0x6bu8, 0x65u8, 0x6eu8, 0x5fu8, 0x61u8, 0x64u8, 0x64u8, 0x72u8];
    proof { assert(out@ =~= lit_payment_token()); }
    out
}

/// The literal `data_payments_addr` of the descriptor grammar.
pub open spec fn lit_data_payments() -> Seq<u8> {
    seq![0x64u8, 0x61u8, 0x74u8, 0x61u8, 0x5fu8, 0x70u8, 0x61u8, 0x79u8, 0x6du8, 0x65u8, 0x6eu8, 0x74u8, 0x73u8, 0x5fu8, 0x61u8, 0x64u8, 0x64u8, 0x72u8]
}

/// The literal `data_payments_addr` of the descriptor grammar.
pub fn lit_data_payments_bytes() -> (r: Vec<u8>)
    ensures r@ == lit_data_payments(),
{
    let out: Vec<u8> = vec![0x64u8, 0x61u8, 0x74u8, 0x61u8, 0x5fu8, 0x70u8, 0x61u8, 0x79u8, 0x6du8, 0x65u8, 0x6eu8, 0x74u8, 0x73u8, 0x5fu8, 0x61u8, 0x64u8, 0x64u8, 0x72u8];
    proof { assert(out@ =~= lit_data_payments()); }
    out
}

/// The literal `peer` of the descriptor grammar.
pub open spec fn lit_peer() -> Seq<u8> {
    seq![0x70u8, 0x65u8, 0x65u8, 0x72u8]
}

/// The literal `peer` of the descriptor grammar.
pub fn lit_peer_bytes() -> (r: Vec<u8>)
    ensures r@ == lit_peer(),
{
    let out: Vec<u8> = vec![0x70u8, 0x65u8, 0x65u8, 0x72u8];
    proof { assert(out@ =~= lit_peer()); }
    out
}

/// The literal `bootstrap_url` of the descriptor grammar.
pub open spec fn lit_bootstrap_url() -> Seq<u8> {
    seq![0x62u8, 0x6fu8, 0x6fu8, 0x74u8, 0x73u8, 0x74u8, 0x72u8, 0x61u8, 0x70u8, 0x5fu8, 0x75u8, 0x72u8, 0x6cu8]
}

/// The literal `bootstrap_url` of the descriptor grammar.
pub fn lit_bootstrap_url_bytes() -> (r: Vec<u8>)
    ensures r@ == lit_bootstrap_url(),
{
    let out: Vec<u8> = vec![0x62u8, 0x6fu8, 0x6fu8, 0x74u8, 0x73u8, 0x74u8, 0x72u8, 0x61u8, 0x70u8, 0x5fu8, 0x75u8, 0x72u8, 0x6cu8];
    proof { assert(out@ =~= lit_bootstrap_url()); }
    out
}

/// The literal `network_id` of the descriptor grammar.
pub open spec fn lit_network_id() -> Seq<u8> {
    seq![0x6eu8, 0x65u8, 0x74u8, 0x77u8, 0x6fu8, 0x72u8, 0x6bu8, 0x5fu8, 0x69u8, 0x64u8]
}

/// The literal `network_id` of the descriptor grammar.
pub fn lit_network_id_bytes() -> (r: Vec<u8>)
    ensures r@ == lit_network_id(),
{
    let out: Vec<u8> = vec![0x6eu8, 0x65u8, 0x74u8, 0x77u8, 0x6fu8, 0x72u8, 0x6bu8, 0x5fu8, 0x69u8, 0x64u8];
    proof { assert(out@ =~= lit_network_id()); }
    out
}

/// The literal `ignore_cache` of the descriptor grammar.
pub open spec fn lit_ignore_cache() -> Seq<u8> {
    seq![0x69u8, 0x67u8, 0x6eu8, 0x6fu8, 0x72u8, 0x65u8, 0x5fu8, 0x63u8, 0x61u8, 0x63u8, 0x68u8, 0x65u8]
}

/// The literal `ignore_cache` of the descriptor grammar.
pub fn lit_ignore_cache_bytes() -> (r: Vec<u8>)
    ensures r@ == lit_ignore_cache(),
{
    let out: Vec<u8> = vec![0x69u8, 0x67u8, 0x6eu8, 0x6fu8, 0x72u8, 0x65u8, 0x5fu8, 0x63u8, 0x61u8, 0x63u8, 0x68u8, 0x65u8];
    proof { assert(out@ =~= lit_ignore_cache()); }
    out
}

/// The literal `bootstrap_cache_dir` of the descriptor grammar.
pub open spec fn lit_cache_dir() -> Seq<u8> {
    seq![0x62u8, 0x6fu8, 0x6fu8, 0x74u8, 0x73u8, 0x74u8, 0x72u8, 0x61u8, 0x70u8, 0x5fu8, 0x63u8, 0x61u8, 0x63u8, 0x68u8, 0x65u8, 0x5fu8, 0x64u8, 0x69u8, 0x72u8]
}

/// The literal `bootstrap_cache_dir` of the descriptor grammar.
pub fn lit_cache_dir_bytes() -> (r: Vec<u8>)
    ensures r@ == lit_cache_dir(),
{
    let out: Vec<u8> = vec![0x62u8, 0x6fu8, 0x6fu8, 0x74u8, 0x73u8, 0x74u8, 0x72u8, 0x61u8, 0x70u8, 0x5fu8, 0x63u8, 0x61u8, 0x63u8, 0x68u8, 0x65u8, 0x5fu8, 0x64u8, 0x69u8, 0x72u8];
    proof { assert(out@ =~= lit_cache_dir()); }
    out
}

/// The decimal ASCII form of a byte-sized number.
pub open spec fn dec_ascii(n: u8) -> Seq<u8> {
    if n < 10 {
        seq![(0x30 + n) as u8]
    } else if n < 100 {
        seq![(0x30 + n / 10) as u8, (0x30 + n % 10) as u8]
    } else {
        seq![(0x30 + n / 100) as u8, (0x30 + (n / 10) % 10) as u8, (0x30 + n % 10) as u8]
    }
}

/// The decimal ASCII form of a byte-sized number.
pub fn dec_ascii_bytes(n: u8) -> (r: Vec<u8>)
    ensures r@ == dec_ascii(n),
{
    let mut out: Vec<u8> = Vec::new();
    if n < 10 {
        out.push(0x30 + n);
        proof { assert(out@ =~= dec_ascii(n)); }
    } else if n < 100 {
        out.push(0x30 + n / 10);
        out.push(0x30 + n % 10);
        proof { assert(out@ =~= dec_ascii(n)); }
    } else {
        out.push(0x30 + n / 100);
        out.push(0x30 + (n / 10) % 10);
        out.push(0x30 + n % 10);
        proof { assert(out@ =~= dec_ascii(n)); }
    }
    out
}

/// The number a short decimal ASCII string names, if it fits one byte.
pub open spec fn dec_value(v: Seq<u8>) -> Option<u8> {
    if v.len() == 1 && is_digit(v[0]) {
        Option::Some((v[0] - 0x30) as u8)
    } else if v.len() == 2 && is_digit(v[0]) && is_digit(v[1]) {
        Option::Some(((v[0] - 0x30) * 10 + (v[1] - 0x30)) as u8)
    } else if v.len() == 3 && is_digit(v[0]) && is_digit(v[1]) && is_digit(v[2])
        && (v[0] - 0x30) * 100 + (v[1] - 0x30) * 10 + (v[2] - 0x30) <= 255 {
        Option::Some(((v[0] - 0x30) * 100 + (v[1] - 0x30) * 10 + (v[2] - 0x30)) as u8)
    } else {
        Option::None
    }
}

/// Whether a byte is a decimal digit.
pub open spec fn is_digit(b: u8) -> bool {
    0x30 <= b <= 0x39
}

/// A parameter value the descriptor accepts: printable, without the
/// separator bytes.
pub open spec fn value_ok(v: Seq<u8>) -> bool {
    1 <= v.len() < 4096
        && forall|i: int| 0 <= i < v.len()
            ==> 0x21 <= #[trigger] v[i] <= 0x7e && v[i] != 0x26 && v[i] != 0x3d && v[i] != 0x3f
}

/// Whether a value passes the descriptor's value rules.
pub fn check_value(v: &Vec<u8>) -> (r: bool)
    ensures r == value_ok(v@),
{
    if v.len() < 1 || v.len() >= 4096 {
        return false;
    }
    let mut i: usize = 0;
    while i < v.len()
        invariant
            i <= v@.len(),
            forall|j: int| 0 <= j < i
                ==> 0x21 <= #[trigger] v@[j] <= 0x7e && v@[j] != 0x26 && v@[j] != 0x3d
                    && v@[j] != 0x3f,
        decreases v@.len() - i,
    {
        let b = v[i];
        if b < 0x21 || b > 0x7e || b == 0x26 || b == 0x3d || b == 0x3f {
            return false;
        }
        i += 1;
    }
    true
}

/// The mathematical shape of a local network's addresses.
#[verifier::ext_equal]
pub ghost struct LocalNetworkConfigV {
    pub rpc_url: Seq<u8>,
    pub payment_token_addr: Seq<u8>,
    pub data_payments_addr: Seq<u8>,
}

/// The mathematical shape of a network choice.
#[verifier::ext_equal]
pub ghost enum NetworkV {
    MainNet,
    AlphaNet,
    TestNet,
    Local(LocalNetworkConfigV),
}

/// The mathematical shape of a peer source.
#[verifier::ext_equal]
pub ghost enum BootstrapPeersV {
    Urls(Seq<Seq<u8>>),
    MultiAddresses(Seq<Seq<u8>>),
}

/// The mathematical shape of a descriptor.
#[verifier::ext_equal]
pub ghost struct ClientConfigV {
    pub network: NetworkV,
    pub network_id: Option<u8>,
    pub bootstrap_peers: Option<BootstrapPeersV>,
    pub bootstrap_cache: Option<Seq<u8>>,
    pub ignore_cache: bool,
}

impl View for LocalNetworkConfig {
    type V = LocalNetworkConfigV;

    open spec fn view(&self) -> LocalNetworkConfigV {
        LocalNetworkConfigV {
            rpc_url: self.rpc_url@,
            payment_token_addr: self.payment_token_addr@,
            data_payments_addr: self.data_payments_addr@,
        }
    }
}

impl View for Network {
    type V = NetworkV;

    open spec fn view(&self) -> NetworkV {
        match self {
            Network::MainNet => NetworkV::MainNet,
            Network::AlphaNet => NetworkV::AlphaNet,
            Network::TestNet => NetworkV::TestNet,
            Network::Local(l) => NetworkV::Local(l@),
        }
    }
}

impl View for BootstrapPeers {
    type V = BootstrapPeersV;

    open spec fn view(&self) -> BootstrapPeersV {
        match self {
            BootstrapPeers::Urls(urls) => BootstrapPeersV::Urls(
                urls@.map_values(|v: Vec<u8>| v@)),
            BootstrapPeers::MultiAddresses(addrs) => BootstrapPeersV::MultiAddresses(
                addrs@.map_values(|v: Vec<u8>| v@)),
        }
    }
}

impl View for ClientConfig {
    type V = ClientConfigV;

    open spec fn view(&self) -> ClientConfigV {
        ClientConfigV {
            network: self.network@,
            network_id: self.network_id,
            bootstrap_peers: match self.bootstrap_peers {
                Option::Some(ref p) => Option::Some(p@),
                Option::None => Option::None,
            },
            bootstrap_cache: match self.bootstrap_cache {
                Option::Some(ref d) => Option::Some(d@),
                Option::None => Option::None,
            },
            ignore_cache: self.ignore_cache,
        }
    }
}

/// One `&key=value` parameter.
pub open spec fn param(key: Seq<u8>, value: Seq<u8>) -> Seq<u8> {
    seq![0x26u8] + key + seq![0x3du8] + value
}

/// One key-only `&key` parameter.
pub open spec fn flag_param(key: Seq<u8>) -> Seq<u8> {
    seq![0x26u8] + key
}

/// A repeated parameter, one entry per value, in order.
pub open spec fn params_list(key: Seq<u8>, vals: Seq<Seq<u8>>) -> Seq<u8>
    decreases vals.len(),
{
    if vals.len() == 0 {
        Seq::empty()
    } else {
        param(key, vals[0]) + params_list(key, vals.skip(1))
    }
}

/// The network word of the descriptor.
pub open spec fn network_word(n: NetworkV) -> Seq<u8> {
    match n {
        NetworkV::MainNet => lit_mainnet(),
        NetworkV::AlphaNet => lit_alphanet(),
        NetworkV::TestNet => lit_testnet(),
        NetworkV::Local(_) => lit_local(),
    }
}

/// The canonical parameter string, every parameter preceded by `&`.
pub open spec fn config_params(c: ClientConfigV) -> Seq<u8> {
    (match c.network {
        NetworkV::Local(l) => param(lit_rpc_url(), l.rpc_url)
            + param(lit_payment_token(), l.payment_token_addr)
            + param(lit_data_payments(), l.data_payments_addr),
        _ => Seq::empty(),
    }) + (match c.bootstrap_peers {
        Option::Some(BootstrapPeersV::Urls(urls)) => params_list(lit_bootstrap_url(), urls),
        Option::Some(BootstrapPeersV::MultiAddresses(addrs)) => params_list(lit_peer(), addrs),
        Option::None => Seq::empty(),
    }) + (match c.network_id {
        Option::Some(id) => param(lit_network_id(), dec_ascii(id)),
        Option::None => Seq::empty(),
    }) + (if c.ignore_cache {
        flag_param(lit_ignore_cache())
    } else {
        Seq::empty()
    }) + (match c.bootstrap_cache {
        Option::Some(d) => param(lit_cache_dir(), d),
        Option::None => Seq::empty(),
    })
}

/// The canonical text of a descriptor: the head, the network word, and
/// the parameters behind a single `?`.
pub open spec fn uri_bytes(c: ClientConfigV) -> Seq<u8> {
    lit_head() + network_word(c.network)
        + (if config_params(c).len() == 0 {
            Seq::<u8>::empty()
        } else {
            seq![0x3fu8] + config_params(c).skip(1)
        })
}

/// The descriptor's fields all fit the text form.
pub open spec fn config_wf(c: ClientConfigV) -> bool {
    &&& (match c.network {
        NetworkV::Local(l) => value_ok(l.rpc_url) && value_ok(l.payment_token_addr)
            && value_ok(l.data_payments_addr),
        _ => true,
    })
    &&& (match c.bootstrap_peers {
        Option::Some(BootstrapPeersV::Urls(urls)) => 1 <= urls.len() < 100
            && (forall|i: int| 0 <= i < urls.len() ==> value_ok(#[trigger] urls[i])),
        Option::Some(BootstrapPeersV::MultiAddresses(addrs)) => 1 <= addrs.len() < 100
            && (forall|i: int| 0 <= i < addrs.len() ==> value_ok(#[trigger] addrs[i])),
        Option::None => true,
    })
    &&& (match c.bootstrap_cache {
        Option::Some(d) => value_ok(d),
        Option::None => true,
    })
}

/// The first position at or after `from` holding the byte, or the end.
pub open spec fn first_at(d: Seq<u8>, from: int, b: u8) -> int
    decreases d.len() - from,
{
    if from < 0 || from >= d.len() {
        d.len() as int
    } else if d[from] == b {
        from
    } else {
        first_at(d, from + 1, b)
    }
}

/// The first position is bounded by where the search began and the end.
pub proof fn lemma_first_at_bounds(d: Seq<u8>, from: int, b: u8)
    requires 0 <= from <= d.len(),
    ensures
        from <= first_at(d, from, b) <= d.len(),
        first_at(d, from, b) < d.len() ==> d[first_at(d, from, b)] == b,
        forall|j: int| from <= j < first_at(d, from, b) ==> d[j] != b,
    decreases d.len() - from,
{
    if from < d.len() && d[from] != b {
        lemma_first_at_bounds(d, from + 1, b);
    }
}

/// What the parameter loop has gathered so far.
#[verifier::ext_equal]
pub ghost struct ParamAcc {
    pub rpc: Option<Seq<u8>>,
    pub pay: Option<Seq<u8>>,
    pub dat: Option<Seq<u8>>,
    pub nid: Option<u8>,
    pub ign: bool,
    pub dir: Option<Seq<u8>>,
    pub urls: Seq<Seq<u8>>,
    pub addrs: Seq<Seq<u8>>,
}

/// Nothing gathered yet.
pub open spec fn empty_acc() -> ParamAcc {
    ParamAcc {
        rpc: Option::None,
        pay: Option::None,
        dat: Option::None,
        nid: Option::None,
        ign: false,
        dir: Option::None,
        urls: Seq::empty(),
        addrs: Seq::empty(),
    }
}

/// What one parameter does to the gathered state: a known key stores its
/// value (the last one wins; peers and peer-list URLs accumulate), the
/// cache directive needs no value, an unknown key changes nothing, and a
/// malformed value refuses the descriptor.
pub open spec fn apply_param(acc: ParamAcc, key: Seq<u8>, value: Seq<u8>) -> Option<ParamAcc> {
    if key == lit_ignore_cache() {
        Option::Some(ParamAcc { ign: true, ..acc })
    } else if key == lit_rpc_url() {
        if value_ok(value) {
            Option::Some(ParamAcc { rpc: Option::Some(value), ..acc })
        } else {
            Option::None
        }
    } else if key == lit_payment_token() {
        if value_ok(value) {
            Option::Some(ParamAcc { pay: Option::Some(value), ..acc })
        } else {
            Option::None
        }
    } else if key == lit_data_payments() {
        if value_ok(value) {
            Option::Some(ParamAcc { dat: Option::Some(value), ..acc })
        } else {
            Option::None
        }
    } else if key == lit_peer() {
        if value_ok(value) && acc.addrs.len() < 99 {
            Option::Some(ParamAcc { addrs: acc.addrs.push(value), ..acc })
        } else {
            Option::None
        }
    } else if key == lit_bootstrap_url() {
        if value_ok(value) && acc.urls.len() < 99 {
            Option::Some(ParamAcc { urls: acc.urls.push(value), ..acc })
        } else {
            Option::None
        }
    } else if key == lit_network_id() {
        match dec_value(value) {
            Option::Some(n) => Option::Some(ParamAcc { nid: Option::Some(n), ..acc }),
            Option::None => Option::None,
        }
    } else if key == lit_cache_dir() {
        if value_ok(value) {
            Option::Some(ParamAcc { dir: Option::Some(value), ..acc })
        } else {
            Option::None
        }
    } else {
        Option::Some(acc)
    }
}

/// What the `&`-separated parameter text from a position yields: each
/// segment's key runs to the first `=` or `&`, its value to the next
/// `&`, and the segments fold over the gathered state in order.
pub open spec fn parse_params(d: Seq<u8>, pos: int, acc: ParamAcc) -> Option<ParamAcc>
    decreases d.len() - pos,
    via parse_params_decreases
{
    if pos < 0 || pos >= d.len() {
        Option::Some(acc)
    } else {
        let amp = first_at(d, pos, 0x26);
        let eq = first_at(d, pos, 0x3d);
        let key_end = if eq < amp { eq } else { amp };
        let key = d.subrange(pos, key_end);
        let value = if eq < amp { d.subrange(eq + 1, amp) } else { Seq::empty() };
        match apply_param(acc, key, value) {
            Option::None => Option::None,
            Option::Some(acc2) => {
                let next = if amp < d.len() { amp + 1 } else { d.len() as int };
                parse_params(d, next, acc2)
            },
        }
    }
}

#[via_fn]
proof fn parse_params_decreases(d: Seq<u8>, pos: int, acc: ParamAcc) {
    if 0 <= pos && pos < d.len() {
        lemma_first_at_bounds(d, pos, 0x26);
    }
}

/// What the gathered parameters and the network word assemble to: a
/// local network needs its three addresses, peer addresses and peer-list
/// URLs cannot mix, and an unknown network word refuses the descriptor.
pub open spec fn assemble(word: Seq<u8>, acc: ParamAcc) -> Option<ClientConfigV> {
    if acc.urls.len() > 0 && acc.addrs.len() > 0 {
        Option::None
    } else {
        let peers = if acc.urls.len() > 0 {
            Option::Some(BootstrapPeersV::Urls(acc.urls))
        } else if acc.addrs.len() > 0 {
            Option::Some(BootstrapPeersV::MultiAddresses(acc.addrs))
        } else {
            Option::None
        };
        let network = if word == lit_mainnet() {
            Option::Some(NetworkV::MainNet)
        } else if word == lit_alphanet() {
            Option::Some(NetworkV::AlphaNet)
        } else if word == lit_testnet() {
            Option::Some(NetworkV::TestNet)
        } else if word == lit_local() {
            match (acc.rpc, acc.pay, acc.dat) {
                (Option::Some(r), Option::Some(p), Option::Some(dt)) => Option::Some(
                    NetworkV::Local(LocalNetworkConfigV {
                        rpc_url: r,
                        payment_token_addr: p,
                        data_payments_addr: dt,
                    })),
                _ => Option::None,
            }
        } else {
            Option::None
        };
        match network {
            Option::None => Option::None,
            Option::Some(n) => Option::Some(ClientConfigV {
                network: n,
                network_id: acc.nid,
                bootstrap_peers: peers,
                bootstrap_cache: acc.dir,
                ignore_cache: acc.ign,
            }),
        }
    }
}

/// What parsing a descriptor yields: the head literal, the network word
/// to the first `?`, the parameters in any order, and the assembly.
pub open spec fn parse_uri(d: Seq<u8>) -> Option<ClientConfigV> {
    if d.len() < 16 || d.subrange(0, 16) != lit_head() {
        Option::None
    } else {
        let q = first_at(d, 16, 0x3f);
        let word = d.subrange(16, q);
        let start = if q < d.len() { q + 1 } else { d.len() as int };
        match parse_params(d, start, empty_acc()) {
            Option::None => Option::None,
            Option::Some(acc) => assemble(word, acc),
        }
    }
}

/// Appends one `&key=value` parameter.
fn push_param(out: &mut Vec<u8>, key: &Vec<u8>, value: &Vec<u8>)
    ensures final(out)@ == old(out)@ + param(key@, value@),
{
    out.push(0x26);
    push_raw(out, key);
    out.push(0x3d);
    push_raw(out, value);
    proof { assert(out@ =~= old(out)@ + param(key@, value@)); }
}

/// Appending one entry appends its parameter.
proof fn lemma_params_list_snoc(key: Seq<u8>, vals: Seq<Seq<u8>>, v: Seq<u8>)
    ensures params_list(key, vals.push(v)) == params_list(key, vals) + param(key, v),
    decreases vals.len(),
{
    if vals.len() == 0 {
        let p = vals.push(v);
        assert(p.len() == 1);
        assert(p[0] == v);
        assert(p.skip(1) =~= Seq::<Seq<u8>>::empty());
        assert(params_list(key, p) == param(key, p[0]) + params_list(key, p.skip(1)));
        assert(params_list(key, p) =~= params_list(key, vals) + param(key, v));
    } else {
        lemma_params_list_snoc(key, vals.skip(1), v);
        assert(vals.push(v).skip(1) =~= vals.skip(1).push(v));
        assert(params_list(key, vals.push(v)) =~= params_list(key, vals) + param(key, v));
    }
}

/// Appends every entry of a repeated parameter.
fn push_params_list(out: &mut Vec<u8>, key: &Vec<u8>, vals: &Vec<Vec<u8>>)
    ensures final(out)@ == old(out)@ + params_list(key@, vals@.map_values(|v: Vec<u8>| v@)),
{
    let mut i: usize = 0;
    while i < vals.len()
        invariant
            i <= vals@.len(),
            out@ == old(out)@
                + params_list(key@, vals@.map_values(|v: Vec<u8>| v@).take(i as int)),
        decreases vals@.len() - i,
    {
        push_param(out, key, &vals[i]);
        proof {
            let vs = vals@.map_values(|v: Vec<u8>| v@);
            lemma_params_list_snoc(key@, vs.take(i as int), vs[i as int]);
            assert(vs.take(i + 1int) =~= vs.take(i as int).push(vs[i as int]));
            assert(out@ =~= old(out)@ + params_list(key@, vs.take(i + 1int)));
        }
        i += 1;
    }
    proof {
        let vs = vals@.map_values(|v: Vec<u8>| v@);
        assert(vs.take(vs.len() as int) =~= vs);
    }
}

impl ClientConfig {
    /// The canonical parameter string, every parameter preceded by `&`.
    #[verifier::rlimit(100)]
    #[verifier::spinoff_prover]
    fn build_params(&self) -> (r: Vec<u8>)
        ensures r@ == config_params(self@),
    {
        let ghost sec1 = match self@.network {
            NetworkV::Local(l) => param(lit_rpc_url(), l.rpc_url)
                + param(lit_payment_token(), l.payment_token_addr)
                + param(lit_data_payments(), l.data_payments_addr),
            _ => Seq::<u8>::empty(),
        };
        let ghost sec2 = match self@.bootstrap_peers {
            Option::Some(BootstrapPeersV::Urls(urls)) => params_list(lit_bootstrap_url(), urls),
            Option::Some(BootstrapPeersV::MultiAddresses(addrs)) => params_list(
                lit_peer(), addrs),
            Option::None => Seq::<u8>::empty(),
        };
        let ghost sec3 = match self@.network_id {
            Option::Some(id) => param(lit_network_id(), dec_ascii(id)),
            Option::None => Seq::<u8>::empty(),
        };
        let ghost sec4 = if self@.ignore_cache {
            flag_param(lit_ignore_cache())
        } else {
            Seq::<u8>::empty()
        };
        let ghost sec5 = match self@.bootstrap_cache {
            Option::Some(d) => param(lit_cache_dir(), d),
            Option::None => Seq::<u8>::empty(),
        };
        let mut params: Vec<u8> = Vec::new();
        match &self.network {
            Network::Local(l) => {
                let k1 = lit_rpc_url_bytes();
                push_param(&mut params, &k1, &l.rpc_url);
                let k2 = lit_payment_token_bytes();
                push_param(&mut params, &k2, &l.payment_token_addr);
                let k3 = lit_data_payments_bytes();
                push_param(&mut params, &k3, &l.data_payments_addr);
            }
            _ => {}
        }
        proof { assert(params@ =~= sec1); }
        match &self.bootstrap_peers {
            Some(BootstrapPeers::Urls(urls)) => {
                let k = lit_bootstrap_url_bytes();
                push_params_list(&mut params, &k, urls);
            }
            Some(BootstrapPeers::MultiAddresses(addrs)) => {
                let k = lit_peer_bytes();
                push_params_list(&mut params, &k, addrs);
            }
            None => {}
        }
        proof { assert(params@ =~= sec1 + sec2); }
        match self.network_id {
            Some(id) => {
                let k = lit_network_id_bytes();
                let v = dec_ascii_bytes(id);
                push_param(&mut params, &k, &v);
            }
            None => {}
        }
        proof { assert(params@ =~= (sec1 + sec2) + sec3); }
        if self.ignore_cache {
            let k = lit_ignore_cache_bytes();
            params.push(0x26);
            push_raw(&mut params, &k);
            proof { assert(params@ =~= ((sec1 + sec2) + sec3) + flag_param(lit_ignore_cache())); }
        }
        proof { assert(params@ =~= ((sec1 + sec2) + sec3) + sec4); }
        match &self.bootstrap_cache {
            Some(d) => {
                let k = lit_cache_dir_bytes();
                push_param(&mut params, &k, d);
            }
            None => {}
        }
        proof {
            assert(params@ =~= (((sec1 + sec2) + sec3) + sec4) + sec5);
            assert(config_params(self@) == (((sec1 + sec2) + sec3) + sec4) + sec5);
        }
        params
    }

    /// The canonical text of the descriptor.
    #[verifier::rlimit(100)]
    #[verifier::spinoff_prover]
    pub fn to_uri(&self) -> (r: Vec<u8>)
        ensures r@ == uri_bytes(self@),
    {
        let params = self.build_params();
        let mut out: Vec<u8> = Vec::new();
        let head = lit_head_bytes();
        push_raw(&mut out, &head);
        let word = match &self.network {
            Network::MainNet => lit_mainnet_bytes(),
            Network::AlphaNet => lit_alphanet_bytes(),
            Network::TestNet => lit_testnet_bytes(),
            Network::Local(_) => lit_local_bytes(),
        };
        push_raw(&mut out, &word);
        proof { assert(out@ =~= lit_head() + network_word(self@.network)); }
        if params.len() > 0 {
            out.push(0x3f);
            let mut i: usize = 1;
            while i < params.len()
                invariant
                    1 <= i <= params@.len(),
                    params@ == config_params(self@),
                    params@.len() > 0,
                    out@ == lit_head() + network_word(self@.network) + seq![0x3fu8]
                        + params@.subrange(1, i as int),
                decreases params@.len() - i,
            {
                out.push(params[i]);
                proof {
                    assert(params@.subrange(1, i + 1int)
                        =~= params@.subrange(1, i as int).push(params@[i as int]));
                    assert(out@ =~= lit_head() + network_word(self@.network) + seq![0x3fu8]
                        + params@.subrange(1, i + 1int));
                }
                i += 1;
            }
            proof {
                assert(params@.subrange(1, params@.len() as int) =~= params@.skip(1));
                assert(out@ =~= uri_bytes(self@));
            }
        } else {
            proof {
                assert(out@ =~= uri_bytes(self@));
            }
        }
        out
    }
}

/// A copy of one span of a byte string.
fn subvec(data: &Vec<u8>, start: usize, end: usize) -> (r: Vec<u8>)
    requires start <= end <= data@.len(),
    ensures r@ == data@.subrange(start as int, end as int),
{
    let mut out: Vec<u8> = Vec::new();
    let mut i: usize = start;
    while i < end
        invariant
            start <= i <= end <= data@.len(),
            out@ == data@.subrange(start as int, i as int),
        decreases end - i,
    {
        out.push(data[i]);
        proof { assert(out@ =~= data@.subrange(start as int, i + 1int)); }
        i += 1;
    }
    out
}

/// The position of the next occurrence of a byte, or the end.
fn find_byte(data: &Vec<u8>, from: usize, byte: u8) -> (r: usize)
    requires from <= data@.len(),
    ensures
        r == first_at(data@, from as int, byte),
        from <= r <= data@.len(),
{
    let mut i: usize = from;
    while i < data.len()
        invariant
            from <= i <= data@.len(),
            first_at(data@, from as int, byte) == first_at(data@, i as int, byte),
        decreases data@.len() - i,
    {
        if data[i] == byte {
            return i;
        }
        i += 1;
    }
    data.len()
}

/// The decimal number a short ASCII string names, if it fits one byte.
fn parse_dec_u8(v: &Vec<u8>) -> (r: Option<u8>)
    ensures r == dec_value(v@),
{
    if v.len() == 1 {
        let b = v[0];
        if b >= 0x30 && b <= 0x39 {
            return Some(b - 0x30);
        }
        return None;
    }
    if v.len() == 2 {
        let a = v[0];
        let b = v[1];
        if a >= 0x30 && a <= 0x39 && b >= 0x30 && b <= 0x39 {
            return Some((a - 0x30) * 10 + (b - 0x30));
        }
        return None;
    }
    if v.len() == 3 {
        let a = v[0];
        let b = v[1];
        let c = v[2];
        if a >= 0x30 && a <= 0x39 && b >= 0x30 && b <= 0x39 && c >= 0x30 && c <= 0x39 {
            let n: u32 = (a - 0x30) as u32 * 100 + (b - 0x30) as u32 * 10 + (c - 0x30) as u32;
            if n <= 255 {
                return Some(n as u8);
            }
        }
        return None;
    }
    None
}

/// The view of an optional byte string.
pub open spec fn opt_view(v: Option<Vec<u8>>) -> Option<Seq<u8>> {
    match v {
        Option::Some(x) => Option::Some(x@),
        Option::None => Option::None,
    }
}

/// The gathered state that the parser's variables stand for.
pub open spec fn acc_of(
    rpc: Option<Vec<u8>>,
    pay: Option<Vec<u8>>,
    dat: Option<Vec<u8>>,
    nid: Option<u8>,
    ign: bool,
    dir: Option<Vec<u8>>,
    urls: Seq<Vec<u8>>,
    addrs: Seq<Vec<u8>>,
) -> ParamAcc {
    ParamAcc {
        rpc: opt_view(rpc),
        pay: opt_view(pay),
        dat: opt_view(dat),
        nid: nid,
        ign: ign,
        dir: opt_view(dir),
        urls: urls.map_values(|v: Vec<u8>| v@),
        addrs: addrs.map_values(|v: Vec<u8>| v@),
    }
}

/// Every value the parser has gathered passes the value rules, and the
/// peer lists are bounded.
pub open spec fn acc_wf(acc: ParamAcc) -> bool {
    &&& (match acc.rpc {
        Option::Some(v) => value_ok(v),
        Option::None => true,
    })
    &&& (match acc.pay {
        Option::Some(v) => value_ok(v),
        Option::None => true,
    })
    &&& (match acc.dat {
        Option::Some(v) => value_ok(v),
        Option::None => true,
    })
    &&& (match acc.dir {
        Option::Some(v) => value_ok(v),
        Option::None => true,
    })
    &&& acc.urls.len() <= 99
    &&& (forall|i: int| 0 <= i < acc.urls.len() ==> value_ok(#[trigger] acc.urls[i]))
    &&& acc.addrs.len() <= 99
    &&& (forall|i: int| 0 <= i < acc.addrs.len() ==> value_ok(#[trigger] acc.addrs[i]))
}

impl ClientConfig {
    /// Parses a descriptor, exactly as the model `parse_uri` says: the
    /// head literal, the network word to the first `?`, then the
    /// parameters in any order.  An unknown parameter is ignored, the
    /// cache directive may stand with or without a value, a repeated
    /// parameter's last value wins, and peer addresses and peer-list
    /// URLs cannot mix.
    #[verifier::rlimit(100)]
    #[verifier::spinoff_prover]
    #[verifier::loop_isolation(false)]
    pub fn from_uri(data: &Vec<u8>) -> (r: Result<ClientConfig, ArkError>)
        ensures
            match r {
                Ok(c) => parse_uri(data@) == Some(c@) && config_wf(c@),
                Err(e) => e == ArkError::BadEncoding && parse_uri(data@) is None,
            },
    {
        let ghost d = data@;
        let head = lit_head_bytes();
        if data.len() < head.len() {
            return Err(ArkError::BadEncoding);
        }
        let prefix = subvec(data, 0, head.len());
        if !crate::keys::eq_bytes(&prefix, &head) {
            return Err(ArkError::BadEncoding);
        }
        let q = find_byte(data, head.len(), 0x3f);
        let word = subvec(data, head.len(), q);
        let mut rpc_url: Option<Vec<u8>> = None;
        let mut payment_token: Option<Vec<u8>> = None;
        let mut data_payments: Option<Vec<u8>> = None;
        let mut network_id: Option<u8> = None;
        let mut ignore_cache = false;
        let mut bootstrap_cache: Option<Vec<u8>> = None;
        let mut urls: Vec<Vec<u8>> = Vec::new();
        let mut addrs: Vec<Vec<u8>> = Vec::new();
        let ghost start: int = if q < d.len() { q + 1 } else { d.len() as int };
        let mut pos: usize = if q < data.len() { q + 1 } else { data.len() };
        proof {
            assert(acc_of(rpc_url, payment_token, data_payments, network_id,
                ignore_cache, bootstrap_cache, urls@, addrs@) =~= empty_acc());
        }
        while pos < data.len()
            invariant
                pos <= data@.len(),
                start <= pos,
                parse_params(d, pos as int, acc_of(rpc_url, payment_token,
                    data_payments, network_id, ignore_cache, bootstrap_cache,
                    urls@, addrs@)) == parse_params(d, start, empty_acc()),
                acc_wf(acc_of(rpc_url, payment_token, data_payments, network_id,
                    ignore_cache, bootstrap_cache, urls@, addrs@)),
            decreases data@.len() - pos,
        {
            let ghost acc0 = acc_of(rpc_url, payment_token, data_payments,
                network_id, ignore_cache, bootstrap_cache, urls@, addrs@);
            let amp = find_byte(data, pos, 0x26);
            let eq = find_byte(data, pos, 0x3d);
            let key_end = if eq < amp { eq } else { amp };
            let key = subvec(data, pos, key_end);
            let value = if eq < amp {
                subvec(data, eq + 1, amp)
            } else {
                Vec::new()
            };
            proof {
                assert(value@ =~= (if first_at(d, pos as int, 0x3d)
                        < first_at(d, pos as int, 0x26) {
                    d.subrange(eq as int + 1, amp as int)
                } else {
                    Seq::<u8>::empty()
                }));
            }
            let k_rpc = lit_rpc_url_bytes();
            let k_pay = lit_payment_token_bytes();
            let k_dat = lit_data_payments_bytes();
            let k_peer = lit_peer_bytes();
            let k_url = lit_bootstrap_url_bytes();
            let k_nid = lit_network_id_bytes();
            let k_ign = lit_ignore_cache_bytes();
            let k_dir = lit_cache_dir_bytes();
            if crate::keys::eq_bytes(&key, &k_ign) {
                ignore_cache = true;
            } else if crate::keys::eq_bytes(&key, &k_rpc) {
                if !check_value(&value) {
                    proof { assert(parse_params(d, pos as int, acc0) is None); }
                    return Err(ArkError::BadEncoding);
                }
                rpc_url = Some(value);
            } else if crate::keys::eq_bytes(&key, &k_pay) {
                if !check_value(&value) {
                    proof { assert(parse_params(d, pos as int, acc0) is None); }
                    return Err(ArkError::BadEncoding);
                }
                payment_token = Some(value);
            } else if crate::keys::eq_bytes(&key, &k_dat) {
                if !check_value(&value) {
                    proof { assert(parse_params(d, pos as int, acc0) is None); }
                    return Err(ArkError::BadEncoding);
                }
                data_payments = Some(value);
            } else if crate::keys::eq_bytes(&key, &k_peer) {
                if !check_value(&value) || addrs.len() >= 99 {
                    proof { assert(parse_params(d, pos as int, acc0) is None); }
                    return Err(ArkError::BadEncoding);
                }
                let ghost pre = addrs@.map_values(|v: Vec<u8>| v@);
                let ghost vv = value@;
                addrs.push(value);
                proof {
                    assert(addrs@.map_values(|v: Vec<u8>| v@) =~= pre.push(vv));
                }
            } else if crate::keys::eq_bytes(&key, &k_url) {
                if !check_value(&value) || urls.len() >= 99 {
                    proof { assert(parse_params(d, pos as int, acc0) is None); }
                    return Err(ArkError::BadEncoding);
                }
                let ghost pre = urls@.map_values(|v: Vec<u8>| v@);
                let ghost vv = value@;
                urls.push(value);
                proof {
                    assert(urls@.map_values(|v: Vec<u8>| v@) =~= pre.push(vv));
                }
            } else if crate::keys::eq_bytes(&key, &k_nid) {
                network_id = match parse_dec_u8(&value) {
                    Some(n) => Some(n),
                    None => {
                        proof { assert(parse_params(d, pos as int, acc0) is None); }
                        return Err(ArkError::BadEncoding);
                    }
                };
            } else if crate::keys::eq_bytes(&key, &k_dir) {
                if !check_value(&value) {
                    proof { assert(parse_params(d, pos as int, acc0) is None); }
                    return Err(ArkError::BadEncoding);
                }
                bootstrap_cache = Some(value);
            }
            // Any other key is ignored, as a reader of newer descriptors
            // must do.
            proof {
                let acc2 = acc_of(rpc_url, payment_token, data_payments,
                    network_id, ignore_cache, bootstrap_cache, urls@, addrs@);
                assert(apply_param(acc0, key@, value@) is Some);
                assert(acc2 =~= apply_param(acc0, key@, value@).unwrap());
                assert(parse_params(d, pos as int, acc0) == parse_params(
                    d,
                    if amp < d.len() { amp as int + 1 } else { d.len() as int },
                    acc2,
                ));
            }
            pos = if amp < data.len() { amp + 1 } else { data.len() };
        }
        let ghost accf = acc_of(rpc_url, payment_token, data_payments,
            network_id, ignore_cache, bootstrap_cache, urls@, addrs@);
        proof {
            assert(parse_params(d, pos as int, accf) == Some(accf));
            assert(parse_params(d, start, empty_acc()) == Some(accf));
        }
        if urls.len() > 0 && addrs.len() > 0 {
            proof { assert(assemble(word@, accf) is None); }
            return Err(ArkError::BadEncoding);
        }
        let w_main = lit_mainnet_bytes();
        let w_alpha = lit_alphanet_bytes();
        let w_test = lit_testnet_bytes();
        let w_local = lit_local_bytes();
        let network = if crate::keys::eq_bytes(&word, &w_main) {
            Network::MainNet
        } else if crate::keys::eq_bytes(&word, &w_alpha) {
            Network::AlphaNet
        } else if crate::keys::eq_bytes(&word, &w_test) {
            Network::TestNet
        } else if crate::keys::eq_bytes(&word, &w_local) {
            let rpc = match rpc_url {
                Some(v) => v,
                None => {
                    proof { assert(assemble(word@, accf) is None); }
                    return Err(ArkError::BadEncoding);
                }
            };
            let pay = match payment_token {
                Some(v) => v,
                None => {
                    proof { assert(assemble(word@, accf) is None); }
                    return Err(ArkError::BadEncoding);
                }
            };
            let dat = match data_payments {
                Some(v) => v,
                None => {
                    proof { assert(assemble(word@, accf) is None); }
                    return Err(ArkError::BadEncoding);
                }
            };
            Network::Local(LocalNetworkConfig {
                rpc_url: rpc,
                payment_token_addr: pay,
                data_payments_addr: dat,
            })
        } else {
            proof { assert(assemble(word@, accf) is None); }
            return Err(ArkError::BadEncoding);
        };
        let bootstrap_peers = if urls.len() > 0 {
            Some(BootstrapPeers::Urls(urls))
        } else if addrs.len() > 0 {
            Some(BootstrapPeers::MultiAddresses(addrs))
        } else {
            None
        };
        let config = ClientConfig {
            network,
            network_id,
            bootstrap_peers,
            bootstrap_cache,
            ignore_cache,
        };
        proof {
            assert(assemble(word@, accf) is Some);
            assert(config@ =~= assemble(word@, accf).unwrap());
            assert(parse_uri(d) == Some(config@));
        }
        Ok(config)
    }
}


/// The first position at or after `from` is unchanged by skipping a span
/// that does not hold the byte.
pub proof fn lemma_first_at_skip(d: Seq<u8>, from: int, to: int, b: u8)
    requires
        0 <= from <= to <= d.len(),
        forall|j: int| from <= j < to ==> d[j] != b,
    ensures first_at(d, from, b) == first_at(d, to, b),
    decreases to - from,
{
    if from < to {
        lemma_first_at_skip(d, from + 1, to, b);
    }
}

/// A short decimal form reads back to the number that wrote it.
pub proof fn lemma_dec_roundtrip(n: u8)
    ensures dec_value(dec_ascii(n)) == Some(n),
{
    vstd::arithmetic::div_mod::lemma_fundamental_div_mod(n as int, 10);
    vstd::arithmetic::div_mod::lemma_fundamental_div_mod(n as int / 10, 10);
    vstd::arithmetic::div_mod::lemma_div_denominator(n as int, 10, 10);
    vstd::arithmetic::div_mod::lemma_mod_bound(n as int, 10);
    vstd::arithmetic::div_mod::lemma_mod_bound(n as int / 10, 10);
}

/// One parameter of the canonical text: a key with a value, or the
/// key-only cache directive.
#[verifier::ext_equal]
pub ghost struct PSpec {
    pub key: Seq<u8>,
    pub value: Seq<u8>,
    pub flag: bool,
}

/// The text of one parameter, its leading `&` included.
pub open spec fn p_text(p: PSpec) -> Seq<u8> {
    if p.flag {
        flag_param(p.key)
    } else {
        param(p.key, p.value)
    }
}

/// The text of a parameter list, in order.
pub open spec fn ps_text(ps: Seq<PSpec>) -> Seq<u8>
    decreases ps.len(),
{
    if ps.len() == 0 {
        Seq::empty()
    } else {
        p_text(ps[0]) + ps_text(ps.skip(1))
    }
}

/// Folding a parameter list over the gathered state, in order.
pub open spec fn apply_ps(acc: ParamAcc, ps: Seq<PSpec>) -> Option<ParamAcc>
    decreases ps.len(),
{
    if ps.len() == 0 {
        Option::Some(acc)
    } else {
        match apply_param(acc, ps[0].key, if ps[0].flag { Seq::empty() } else { ps[0].value }) {
            Option::None => Option::None,
            Option::Some(a2) => apply_ps(a2, ps.skip(1)),
        }
    }
}

/// A key fit for the wire: non-empty, without the separator bytes.
pub open spec fn key_clean(k: Seq<u8>) -> bool {
    k.len() > 0
        && forall|j: int| 0 <= j < k.len()
            ==> #[trigger] k[j] != 0x26 && k[j] != 0x3d && k[j] != 0x3f
}

/// Every parameter of the list is fit for the wire.
pub open spec fn ps_clean(ps: Seq<PSpec>) -> bool {
    forall|i: int| 0 <= i < ps.len()
        ==> key_clean((#[trigger] ps[i]).key) && (!ps[i].flag ==> value_ok(ps[i].value))
}

/// The text of a concatenation is the concatenation of the texts.
proof fn lemma_ps_text_concat(a: Seq<PSpec>, b: Seq<PSpec>)
    ensures ps_text(a + b) == ps_text(a) + ps_text(b),
    decreases a.len(),
{
    if a.len() == 0 {
        assert(a + b =~= b);
        assert(ps_text(a) + ps_text(b) =~= ps_text(b));
    } else {
        lemma_ps_text_concat(a.skip(1), b);
        assert((a + b).skip(1) =~= a.skip(1) + b);
        assert(ps_text(a + b) =~= ps_text(a) + ps_text(b));
    }
}

/// Folding a concatenation folds the two lists in turn.
proof fn lemma_apply_ps_concat(acc: ParamAcc, a: Seq<PSpec>, b: Seq<PSpec>)
    ensures
        apply_ps(acc, a + b) == (match apply_ps(acc, a) {
            Option::None => Option::<ParamAcc>::None,
            Option::Some(m) => apply_ps(m, b),
        }),
    decreases a.len(),
{
    if a.len() == 0 {
        assert(a + b =~= b);
    } else {
        assert((a + b).skip(1) =~= a.skip(1) + b);
        match apply_param(acc, a[0].key, if a[0].flag { Seq::empty() } else { a[0].value }) {
            Option::None => {}
            Option::Some(a2) => {
                lemma_apply_ps_concat(a2, a.skip(1), b);
            }
        }
    }
}

/// The repeated parameter's entries, as parameter records.
pub open spec fn ps_of_list(key: Seq<u8>, vals: Seq<Seq<u8>>) -> Seq<PSpec> {
    vals.map_values(|v: Seq<u8>| PSpec { key: key, value: v, flag: false })
}

/// The repeated parameter's records spell its canonical text.
proof fn lemma_ps_text_list(key: Seq<u8>, vals: Seq<Seq<u8>>)
    ensures ps_text(ps_of_list(key, vals)) == params_list(key, vals),
    decreases vals.len(),
{
    if vals.len() == 0 {
        assert(ps_of_list(key, vals) =~= Seq::<PSpec>::empty());
    } else {
        lemma_ps_text_list(key, vals.skip(1));
        assert(ps_of_list(key, vals).skip(1) =~= ps_of_list(key, vals.skip(1)));
        assert(ps_text(ps_of_list(key, vals)) =~= params_list(key, vals));
    }
}

/// The canonical parameter list of a descriptor, in serialization order.
pub open spec fn ps_of_config(c: ClientConfigV) -> Seq<PSpec> {
    (match c.network {
        NetworkV::Local(l) => seq![
            PSpec { key: lit_rpc_url(), value: l.rpc_url, flag: false },
            PSpec { key: lit_payment_token(), value: l.payment_token_addr, flag: false },
            PSpec { key: lit_data_payments(), value: l.data_payments_addr, flag: false },
        ],
        _ => Seq::empty(),
    }) + (match c.bootstrap_peers {
        Option::Some(BootstrapPeersV::Urls(urls)) => ps_of_list(lit_bootstrap_url(), urls),
        Option::Some(BootstrapPeersV::MultiAddresses(addrs)) => ps_of_list(lit_peer(), addrs),
        Option::None => Seq::empty(),
    }) + (match c.network_id {
        Option::Some(id) => seq![
            PSpec { key: lit_network_id(), value: dec_ascii(id), flag: false },
        ],
        Option::None => Seq::empty(),
    }) + (if c.ignore_cache {
        seq![PSpec { key: lit_ignore_cache(), value: Seq::empty(), flag: true }]
    } else {
        Seq::<PSpec>::empty()
    }) + (match c.bootstrap_cache {
        Option::Some(d) => seq![PSpec { key: lit_cache_dir(), value: d, flag: false }],
        Option::None => Seq::empty(),
    })
}

/// The canonical parameter text is the text of the canonical list.
proof fn lemma_config_params_ps(c: ClientConfigV)
    ensures config_params(c) == ps_text(ps_of_config(c)),
{
    let s1 = (match c.network {
        NetworkV::Local(l) => seq![
            PSpec { key: lit_rpc_url(), value: l.rpc_url, flag: false },
            PSpec { key: lit_payment_token(), value: l.payment_token_addr, flag: false },
            PSpec { key: lit_data_payments(), value: l.data_payments_addr, flag: false },
        ],
        _ => Seq::<PSpec>::empty(),
    });
    let s2 = (match c.bootstrap_peers {
        Option::Some(BootstrapPeersV::Urls(urls)) => ps_of_list(lit_bootstrap_url(), urls),
        Option::Some(BootstrapPeersV::MultiAddresses(addrs)) => ps_of_list(lit_peer(), addrs),
        Option::None => Seq::<PSpec>::empty(),
    });
    let s3 = (match c.network_id {
        Option::Some(id) => seq![
            PSpec { key: lit_network_id(), value: dec_ascii(id), flag: false },
        ],
        Option::None => Seq::<PSpec>::empty(),
    });
    let s4 = (if c.ignore_cache {
        seq![PSpec { key: lit_ignore_cache(), value: Seq::empty(), flag: true }]
    } else {
        Seq::<PSpec>::empty()
    });
    let s5 = (match c.bootstrap_cache {
        Option::Some(d) => seq![PSpec { key: lit_cache_dir(), value: d, flag: false }],
        Option::None => Seq::<PSpec>::empty(),
    });
    assert(ps_text(Seq::<PSpec>::empty()) == Seq::<u8>::empty());
    match c.network {
        NetworkV::Local(l) => {
            reveal_with_fuel(ps_text, 4);
            assert(s1.skip(1) =~= seq![
                PSpec { key: lit_payment_token(), value: l.payment_token_addr, flag: false },
                PSpec { key: lit_data_payments(), value: l.data_payments_addr, flag: false },
            ]);
            assert(s1.skip(1).skip(1) =~= seq![
                PSpec { key: lit_data_payments(), value: l.data_payments_addr, flag: false },
            ]);
            assert(s1.skip(1).skip(1).skip(1) =~= Seq::<PSpec>::empty());
            assert(ps_text(s1) =~= param(lit_rpc_url(), l.rpc_url)
                + param(lit_payment_token(), l.payment_token_addr)
                + param(lit_data_payments(), l.data_payments_addr));
        }
        _ => {}
    }
    match c.bootstrap_peers {
        Option::Some(BootstrapPeersV::Urls(urls)) => {
            lemma_ps_text_list(lit_bootstrap_url(), urls);
        }
        Option::Some(BootstrapPeersV::MultiAddresses(addrs)) => {
            lemma_ps_text_list(lit_peer(), addrs);
        }
        Option::None => {}
    }
    match c.network_id {
        Option::Some(id) => {
            reveal_with_fuel(ps_text, 2);
            assert(s3.skip(1) =~= Seq::<PSpec>::empty());
            assert(ps_text(s3) =~= param(lit_network_id(), dec_ascii(id)));
        }
        Option::None => {}
    }
    if c.ignore_cache {
        reveal_with_fuel(ps_text, 2);
        assert(s4.skip(1) =~= Seq::<PSpec>::empty());
        assert(ps_text(s4) =~= flag_param(lit_ignore_cache()));
    }
    match c.bootstrap_cache {
        Option::Some(d) => {
            reveal_with_fuel(ps_text, 2);
            assert(s5.skip(1) =~= Seq::<PSpec>::empty());
            assert(ps_text(s5) =~= param(lit_cache_dir(), d));
        }
        Option::None => {}
    }
    lemma_ps_text_concat(s1, s2);
    lemma_ps_text_concat(s1 + s2, s3);
    lemma_ps_text_concat((s1 + s2) + s3, s4);
    lemma_ps_text_concat(((s1 + s2) + s3) + s4, s5);
    assert(config_params(c) =~= ps_text(ps_of_config(c)));
}


/// Parsing the canonical text of a clean parameter list, placed at `pos`
/// with its leading `&` dropped and running to the end of the data,
/// folds the list over the gathered state.
#[verifier::rlimit(100)]
#[verifier::spinoff_prover]
proof fn lemma_parse_ps(d: Seq<u8>, pos: int, ps: Seq<PSpec>, acc: ParamAcc)
    requires
        0 <= pos <= d.len(),
        ps_clean(ps),
        ps.len() == 0 ==> pos == d.len(),
        ps.len() > 0 ==> d.len() - pos + 1 == ps_text(ps).len()
            && d.subrange(pos, d.len() as int) == ps_text(ps).skip(1),
    ensures parse_params(d, pos, acc) == apply_ps(acc, ps),
    decreases ps.len(),
{
    if ps.len() == 0 {
        return;
    }
    let p0 = ps[0];
    let rest = ps.skip(1);
    assert(ps_clean(rest)) by {
        assert forall|i: int| 0 <= i < rest.len() implies key_clean(
            (#[trigger] rest[i]).key) && (!rest[i].flag ==> value_ok(rest[i].value)) by {
            assert(rest[i] == ps[i + 1]);
        }
    }
    let kl = p0.key.len() as int;
    let vl = p0.value.len() as int;
    let seg = if p0.flag { kl } else { kl + 1 + vl };
    let t0 = p_text(p0);
    assert(t0.len() == 1 + seg);
    assert(ps_text(ps) == t0 + ps_text(rest));
    let na = pos + seg;
    let tail = ps_text(ps).skip(1);
    assert(tail.len() == seg + ps_text(rest).len());
    assert(na <= d.len());
    assert forall|j: int| 0 <= j < kl implies d[pos + j] == p0.key[j] by {
        assert(d[pos + j] == tail[j]);
        assert(tail[j] == ps_text(ps)[j + 1]);
        assert(ps_text(ps)[j + 1] == t0[j + 1]);
    }
    if !p0.flag {
        assert(d[pos + kl] == 0x3d) by {
            assert(d[pos + kl] == tail[kl]);
            assert(tail[kl] == t0[kl + 1]);
        }
        assert forall|j: int| 0 <= j < vl implies d[pos + kl + 1 + j] == p0.value[j] by {
            assert(d[pos + kl + 1 + j] == tail[kl + 1 + j]);
            assert(tail[kl + 1 + j] == t0[kl + 2 + j]);
        }
    }
    if rest.len() > 0 {
        assert(ps_text(rest) == p_text(rest[0]) + ps_text(rest.skip(1)));
        assert(ps_text(rest)[0] == 0x26);
        assert(na < d.len());
        assert(d[na] == 0x26) by {
            assert(d[na] == tail[seg]);
            assert(tail[seg] == ps_text(ps)[seg + 1]);
            assert(ps_text(ps)[seg + 1] == ps_text(rest)[0]);
        }
    } else {
        assert(ps_text(rest).len() == 0);
        assert(na == d.len());
    }
    assert forall|j: int| pos <= j < na implies d[j] != 0x26 by {
        if j - pos < kl {
            assert(d[j] == p0.key[j - pos]);
        } else if j - pos == kl {
            assert(d[j] == 0x3d);
        } else {
            assert(d[j] == p0.value[j - pos - kl - 1]);
        }
    }
    lemma_first_at_skip(d, pos, na, 0x26);
    let amp = first_at(d, pos, 0x26);
    assert(amp == na) by {
        if na < d.len() {
            assert(first_at(d, na, 0x26) == na);
        }
    }
    let eq = first_at(d, pos, 0x3d);
    if p0.flag {
        assert forall|j: int| pos <= j < na implies d[j] != 0x3d by {
            assert(d[j] == p0.key[j - pos]);
        }
        lemma_first_at_skip(d, pos, na, 0x3d);
        lemma_first_at_bounds(d, na, 0x3d);
        assert(eq >= amp);
    } else {
        assert forall|j: int| pos <= j < pos + kl implies d[j] != 0x3d by {
            assert(d[j] == p0.key[j - pos]);
        }
        lemma_first_at_skip(d, pos, pos + kl, 0x3d);
        assert(first_at(d, pos + kl, 0x3d) == pos + kl);
        assert(eq == pos + kl);
        assert(eq < amp);
    }
    let key_end = if eq < amp { eq } else { amp };
    assert(key_end == pos + kl);
    let v = if p0.flag { Seq::<u8>::empty() } else { p0.value };
    assert(d.subrange(pos, key_end) =~= p0.key);
    let pval = if eq < amp { d.subrange(eq + 1, amp) } else { Seq::<u8>::empty() };
    assert(pval =~= v);
    let next = if amp < d.len() { amp + 1 } else { d.len() as int };
    assert(parse_params(d, pos, acc) == (match apply_param(acc, p0.key, v) {
        Option::None => Option::<ParamAcc>::None,
        Option::Some(a2) => parse_params(d, next, a2),
    }));
    match apply_param(acc, p0.key, v) {
        Option::None => {}
        Option::Some(a2) => {
            if rest.len() > 0 {
                assert(next == na + 1);
                assert(d.len() - next + 1 == ps_text(rest).len());
                assert forall|j: int| 0 <= j < d.len() - next
                    implies #[trigger] d.subrange(next, d.len() as int)[j]
                        == ps_text(rest).skip(1)[j] by {
                    assert(d.subrange(next, d.len() as int)[j] == d[next + j]);
                    assert(ps_text(rest).skip(1)[j] == ps_text(rest)[j + 1]);
                    assert(d[next + j] == tail[seg + 1 + j]);
                    assert(tail[seg + 1 + j] == ps_text(ps)[seg + 2 + j]);
                    assert(ps_text(ps)[seg + 2 + j] == ps_text(rest)[j + 1]);
                }
                assert(d.subrange(next, d.len() as int) =~= ps_text(rest).skip(1));
                lemma_parse_ps(d, next, rest, a2);
            } else {
                assert(next == d.len());
                lemma_parse_ps(d, next, rest, a2);
            }
        }
    }
}


/// The grammar's key and word literals are fit for the wire: non-empty,
/// free of the separator bytes, and distinct where their lengths agree.
proof fn lemma_lits_clean()
    ensures
        key_clean(lit_rpc_url()),
        key_clean(lit_payment_token()),
        key_clean(lit_data_payments()),
        key_clean(lit_peer()),
        key_clean(lit_bootstrap_url()),
        key_clean(lit_network_id()),
        key_clean(lit_ignore_cache()),
        key_clean(lit_cache_dir()),
        lit_payment_token() != lit_data_payments(),
        lit_testnet() != lit_mainnet(),
        forall|j: int| 0 <= j < lit_mainnet().len() ==> lit_mainnet()[j] != 0x3f,
        forall|j: int| 0 <= j < lit_alphanet().len() ==> lit_alphanet()[j] != 0x3f,
        forall|j: int| 0 <= j < lit_testnet().len() ==> lit_testnet()[j] != 0x3f,
        forall|j: int| 0 <= j < lit_local().len() ==> lit_local()[j] != 0x3f,
{
    assert(lit_payment_token()[0] == 0x70);
    assert(lit_data_payments()[0] == 0x64);
    assert(lit_testnet()[0] == 0x74);
    assert(lit_mainnet()[0] == 0x6d);
}

/// A short decimal form passes the value rules.
proof fn lemma_dec_value_ok(n: u8)
    ensures value_ok(dec_ascii(n)),
{
    vstd::arithmetic::div_mod::lemma_fundamental_div_mod(n as int, 10);
    vstd::arithmetic::div_mod::lemma_fundamental_div_mod(n as int / 10, 10);
    vstd::arithmetic::div_mod::lemma_div_denominator(n as int, 10, 10);
    vstd::arithmetic::div_mod::lemma_mod_bound(n as int, 10);
    vstd::arithmetic::div_mod::lemma_mod_bound(n as int / 10, 10);
    assert forall|j: int| 0 <= j < dec_ascii(n).len()
        implies 0x30 <= #[trigger] dec_ascii(n)[j] <= 0x39 by {}
}

/// Two clean lists concatenate to a clean list.
proof fn lemma_ps_clean_concat(a: Seq<PSpec>, b: Seq<PSpec>)
    requires ps_clean(a), ps_clean(b),
    ensures ps_clean(a + b),
{
    assert forall|i: int| 0 <= i < (a + b).len() implies key_clean(
        (#[trigger] (a + b)[i]).key)
        && (!(a + b)[i].flag ==> value_ok((a + b)[i].value)) by {
        if i < a.len() {
            assert((a + b)[i] == a[i]);
        } else {
            assert((a + b)[i] == b[i - a.len()]);
        }
    }
}

/// Folding a canonical peer-list-URL run appends its entries in order.
proof fn lemma_apply_urls(acc: ParamAcc, vals: Seq<Seq<u8>>)
    requires
        forall|i: int| 0 <= i < vals.len() ==> value_ok(#[trigger] vals[i]),
        acc.urls.len() + vals.len() <= 99,
    ensures
        apply_ps(acc, ps_of_list(lit_bootstrap_url(), vals))
            == Some(ParamAcc { urls: acc.urls + vals, ..acc }),
    decreases vals.len(),
{
    lemma_lits_clean();
    if vals.len() == 0 {
        assert(ps_of_list(lit_bootstrap_url(), vals) =~= Seq::<PSpec>::empty());
        assert(ParamAcc { urls: acc.urls + vals, ..acc } =~= acc);
    } else {
        let ps = ps_of_list(lit_bootstrap_url(), vals);
        assert(ps[0] == PSpec { key: lit_bootstrap_url(), value: vals[0], flag: false });
        let a2 = ParamAcc { urls: acc.urls.push(vals[0]), ..acc };
        assert(apply_param(acc, lit_bootstrap_url(), vals[0]) == Some(a2));
        assert(ps.skip(1) =~= ps_of_list(lit_bootstrap_url(), vals.skip(1)));
        lemma_apply_urls(a2, vals.skip(1));
        assert(ParamAcc { urls: a2.urls + vals.skip(1), ..a2 }
            =~= ParamAcc { urls: acc.urls + vals, ..acc });
    }
}

/// Folding a canonical peer-address run appends its entries in order.
proof fn lemma_apply_addrs(acc: ParamAcc, vals: Seq<Seq<u8>>)
    requires
        forall|i: int| 0 <= i < vals.len() ==> value_ok(#[trigger] vals[i]),
        acc.addrs.len() + vals.len() <= 99,
    ensures
        apply_ps(acc, ps_of_list(lit_peer(), vals))
            == Some(ParamAcc { addrs: acc.addrs + vals, ..acc }),
    decreases vals.len(),
{
    lemma_lits_clean();
    if vals.len() == 0 {
        assert(ps_of_list(lit_peer(), vals) =~= Seq::<PSpec>::empty());
        assert(ParamAcc { addrs: acc.addrs + vals, ..acc } =~= acc);
    } else {
        let ps = ps_of_list(lit_peer(), vals);
        assert(ps[0] == PSpec { key: lit_peer(), value: vals[0], flag: false });
        let a2 = ParamAcc { addrs: acc.addrs.push(vals[0]), ..acc };
        assert(apply_param(acc, lit_peer(), vals[0]) == Some(a2));
        assert(ps.skip(1) =~= ps_of_list(lit_peer(), vals.skip(1)));
        lemma_apply_addrs(a2, vals.skip(1));
        assert(ParamAcc { addrs: a2.addrs + vals.skip(1), ..a2 }
            =~= ParamAcc { addrs: acc.addrs + vals, ..acc });
    }
}


/// The state the canonical parameter list gathers to.
pub open spec fn acc_cfg(c: ClientConfigV) -> ParamAcc {
    ParamAcc {
        rpc: match c.network {
            NetworkV::Local(l) => Option::Some(l.rpc_url),
            _ => Option::None,
        },
        pay: match c.network {
            NetworkV::Local(l) => Option::Some(l.payment_token_addr),
            _ => Option::None,
        },
        dat: match c.network {
            NetworkV::Local(l) => Option::Some(l.data_payments_addr),
            _ => Option::None,
        },
        nid: c.network_id,
        ign: c.ignore_cache,
        dir: c.bootstrap_cache,
        urls: match c.bootstrap_peers {
            Option::Some(BootstrapPeersV::Urls(urls)) => urls,
            _ => Seq::empty(),
        },
        addrs: match c.bootstrap_peers {
            Option::Some(BootstrapPeersV::MultiAddresses(addrs)) => addrs,
            _ => Seq::empty(),
        },
    }
}

/// The canonical parameter list of a well-formed descriptor is clean.
proof fn lemma_ps_config_clean(c: ClientConfigV)
    requires config_wf(c),
    ensures ps_clean(ps_of_config(c)),
{
    lemma_lits_clean();
    let s1 = (match c.network {
        NetworkV::Local(l) => seq![
            PSpec { key: lit_rpc_url(), value: l.rpc_url, flag: false },
            PSpec { key: lit_payment_token(), value: l.payment_token_addr, flag: false },
            PSpec { key: lit_data_payments(), value: l.data_payments_addr, flag: false },
        ],
        _ => Seq::<PSpec>::empty(),
    });
    let s2 = (match c.bootstrap_peers {
        Option::Some(BootstrapPeersV::Urls(urls)) => ps_of_list(lit_bootstrap_url(), urls),
        Option::Some(BootstrapPeersV::MultiAddresses(addrs)) => ps_of_list(lit_peer(), addrs),
        Option::None => Seq::<PSpec>::empty(),
    });
    let s3 = (match c.network_id {
        Option::Some(id) => seq![
            PSpec { key: lit_network_id(), value: dec_ascii(id), flag: false },
        ],
        Option::None => Seq::<PSpec>::empty(),
    });
    let s4 = (if c.ignore_cache {
        seq![PSpec { key: lit_ignore_cache(), value: Seq::empty(), flag: true }]
    } else {
        Seq::<PSpec>::empty()
    });
    let s5 = (match c.bootstrap_cache {
        Option::Some(d) => seq![PSpec { key: lit_cache_dir(), value: d, flag: false }],
        Option::None => Seq::<PSpec>::empty(),
    });
    assert(ps_clean(s1)) by {
        match c.network {
            NetworkV::Local(l) => {
                assert(s1[0].key == lit_rpc_url());
                assert(s1[1].key == lit_payment_token());
                assert(s1[2].key == lit_data_payments());
            }
            _ => {}
        }
    }
    assert(ps_clean(s2)) by {
        match c.bootstrap_peers {
            Option::Some(BootstrapPeersV::Urls(urls)) => {
                assert forall|i: int| 0 <= i < s2.len() implies key_clean(
                    (#[trigger] s2[i]).key) && (!s2[i].flag ==> value_ok(s2[i].value)) by {
                    assert(s2[i] == PSpec { key: lit_bootstrap_url(), value: urls[i], flag: false });
                }
            }
            Option::Some(BootstrapPeersV::MultiAddresses(addrs)) => {
                assert forall|i: int| 0 <= i < s2.len() implies key_clean(
                    (#[trigger] s2[i]).key) && (!s2[i].flag ==> value_ok(s2[i].value)) by {
                    assert(s2[i] == PSpec { key: lit_peer(), value: addrs[i], flag: false });
                }
            }
            Option::None => {}
        }
    }
    assert(ps_clean(s3)) by {
        match c.network_id {
            Option::Some(id) => {
                lemma_dec_value_ok(id);
                assert(s3[0].key == lit_network_id());
            }
            Option::None => {}
        }
    }
    assert(ps_clean(s4)) by {
        if c.ignore_cache {
            assert(s4[0].key == lit_ignore_cache());
        }
    }
    assert(ps_clean(s5)) by {
        match c.bootstrap_cache {
            Option::Some(d) => {
                assert(s5[0].key == lit_cache_dir());
            }
            Option::None => {}
        }
    }
    lemma_ps_clean_concat(s1, s2);
    lemma_ps_clean_concat(s1 + s2, s3);
    lemma_ps_clean_concat((s1 + s2) + s3, s4);
    lemma_ps_clean_concat(((s1 + s2) + s3) + s4, s5);
}

/// Folding the canonical parameter list of a well-formed descriptor
/// gathers exactly the descriptor's fields, and the gathered state
/// assembles back to the descriptor.
#[verifier::rlimit(100)]
#[verifier::spinoff_prover]
proof fn lemma_apply_config(c: ClientConfigV)
    requires config_wf(c),
    ensures
        apply_ps(empty_acc(), ps_of_config(c)) == Some(acc_cfg(c)),
        assemble(network_word(c.network), acc_cfg(c)) == Some(c),
{
    lemma_lits_clean();
    reveal_with_fuel(apply_ps, 5);
    let s1 = (match c.network {
        NetworkV::Local(l) => seq![
            PSpec { key: lit_rpc_url(), value: l.rpc_url, flag: false },
            PSpec { key: lit_payment_token(), value: l.payment_token_addr, flag: false },
            PSpec { key: lit_data_payments(), value: l.data_payments_addr, flag: false },
        ],
        _ => Seq::<PSpec>::empty(),
    });
    let s2 = (match c.bootstrap_peers {
        Option::Some(BootstrapPeersV::Urls(urls)) => ps_of_list(lit_bootstrap_url(), urls),
        Option::Some(BootstrapPeersV::MultiAddresses(addrs)) => ps_of_list(lit_peer(), addrs),
        Option::None => Seq::<PSpec>::empty(),
    });
    let s3 = (match c.network_id {
        Option::Some(id) => seq![
            PSpec { key: lit_network_id(), value: dec_ascii(id), flag: false },
        ],
        Option::None => Seq::<PSpec>::empty(),
    });
    let s4 = (if c.ignore_cache {
        seq![PSpec { key: lit_ignore_cache(), value: Seq::empty(), flag: true }]
    } else {
        Seq::<PSpec>::empty()
    });
    let s5 = (match c.bootstrap_cache {
        Option::Some(d) => seq![PSpec { key: lit_cache_dir(), value: d, flag: false }],
        Option::None => Seq::<PSpec>::empty(),
    });
    let a0 = empty_acc();
    // The local-network section.
    let m1 = (match c.network {
        NetworkV::Local(l) => ParamAcc {
            rpc: Option::Some(l.rpc_url),
            pay: Option::Some(l.payment_token_addr),
            dat: Option::Some(l.data_payments_addr),
            ..a0
        },
        _ => a0,
    });
    assert(apply_ps(a0, s1) == Some(m1)) by {
        match c.network {
            NetworkV::Local(l) => {
                assert(s1.skip(1).skip(1).skip(1) =~= Seq::<PSpec>::empty());
                assert(s1.skip(1).skip(1) =~= seq![
                    PSpec { key: lit_data_payments(), value: l.data_payments_addr, flag: false },
                ]);
                assert(s1.skip(1) =~= seq![
                    PSpec { key: lit_payment_token(), value: l.payment_token_addr, flag: false },
                    PSpec { key: lit_data_payments(), value: l.data_payments_addr, flag: false },
                ]);
                let b1 = ParamAcc { rpc: Option::Some(l.rpc_url), ..a0 };
                let b2 = ParamAcc { pay: Option::Some(l.payment_token_addr), ..b1 };
                let b3 = ParamAcc { dat: Option::Some(l.data_payments_addr), ..b2 };
                assert(apply_param(a0, lit_rpc_url(), l.rpc_url) == Some(b1));
                assert(apply_param(b1, lit_payment_token(), l.payment_token_addr) == Some(b2));
                assert(apply_param(b2, lit_data_payments(), l.data_payments_addr) == Some(b3));
                assert(b3 =~= m1);
            }
            _ => {}
        }
    }
    // The peers section.
    let m2 = (match c.bootstrap_peers {
        Option::Some(BootstrapPeersV::Urls(urls)) => ParamAcc { urls: urls, ..m1 },
        Option::Some(BootstrapPeersV::MultiAddresses(addrs)) => ParamAcc { addrs: addrs, ..m1 },
        Option::None => m1,
    });
    assert(apply_ps(m1, s2) == Some(m2)) by {
        match c.bootstrap_peers {
            Option::Some(BootstrapPeersV::Urls(urls)) => {
                lemma_apply_urls(m1, urls);
                assert(m1.urls + urls =~= urls);
                assert(ParamAcc { urls: m1.urls + urls, ..m1 } =~= m2);
            }
            Option::Some(BootstrapPeersV::MultiAddresses(addrs)) => {
                lemma_apply_addrs(m1, addrs);
                assert(m1.addrs + addrs =~= addrs);
                assert(ParamAcc { addrs: m1.addrs + addrs, ..m1 } =~= m2);
            }
            Option::None => {}
        }
    }
    // The network-id section.
    let m3 = (match c.network_id {
        Option::Some(id) => ParamAcc { nid: Option::Some(id), ..m2 },
        Option::None => m2,
    });
    assert(apply_ps(m2, s3) == Some(m3)) by {
        match c.network_id {
            Option::Some(id) => {
                lemma_dec_roundtrip(id);
                assert(s3.skip(1) =~= Seq::<PSpec>::empty());
                assert(apply_param(m2, lit_network_id(), dec_ascii(id))
                    == Some(ParamAcc { nid: Option::Some(id), ..m2 }));
            }
            Option::None => {}
        }
    }
    // The cache directive.
    let m4 = if c.ignore_cache { ParamAcc { ign: true, ..m3 } } else { m3 };
    assert(apply_ps(m3, s4) == Some(m4)) by {
        if c.ignore_cache {
            assert(s4.skip(1) =~= Seq::<PSpec>::empty());
            assert(apply_param(m3, lit_ignore_cache(), Seq::empty())
                == Some(ParamAcc { ign: true, ..m3 }));
        }
    }
    // The cache directory.
    let m5 = (match c.bootstrap_cache {
        Option::Some(d) => ParamAcc { dir: Option::Some(d), ..m4 },
        Option::None => m4,
    });
    assert(apply_ps(m4, s5) == Some(m5)) by {
        match c.bootstrap_cache {
            Option::Some(d) => {
                assert(s5.skip(1) =~= Seq::<PSpec>::empty());
                assert(apply_param(m4, lit_cache_dir(), d)
                    == Some(ParamAcc { dir: Option::Some(d), ..m4 }));
            }
            Option::None => {}
        }
    }
    lemma_apply_ps_concat(a0, s1, s2);
    lemma_apply_ps_concat(a0, s1 + s2, s3);
    lemma_apply_ps_concat(a0, (s1 + s2) + s3, s4);
    lemma_apply_ps_concat(a0, ((s1 + s2) + s3) + s4, s5);
    assert(m5 =~= acc_cfg(c));
    // Assembly gives the descriptor back.
    let accf = acc_cfg(c);
    let word = network_word(c.network);
    match c.network {
        NetworkV::MainNet => {}
        NetworkV::AlphaNet => {}
        NetworkV::TestNet => {}
        NetworkV::Local(l) => {}
    }
    match assemble(word, accf) {
        Option::Some(got) => {
            assert(got =~= c);
        }
        Option::None => {
            assert(false);
        }
    }
}


/// The canonical text of a well-formed descriptor parses back to exactly
/// that descriptor: writing with `to_uri` and reading with `from_uri`
/// round-trips, and the parser owes success on every canonical text.
#[verifier::rlimit(100)]
#[verifier::spinoff_prover]
pub proof fn lemma_uri_roundtrip(c: ClientConfigV)
    requires config_wf(c),
    ensures parse_uri(uri_bytes(c)) == Some(c),
{
    lemma_lits_clean();
    lemma_config_params_ps(c);
    lemma_ps_config_clean(c);
    lemma_apply_config(c);
    let d = uri_bytes(c);
    let word = network_word(c.network);
    let wl = word.len() as int;
    let params = config_params(c);
    let ps = ps_of_config(c);
    assert(d.len() >= 16 + wl);
    assert(d.subrange(0, 16) =~= lit_head());
    assert(d.subrange(16, 16 + wl) =~= word);
    assert forall|j: int| 16 <= j < 16 + wl implies #[trigger] d[j] != 0x3f by {
        assert(d[j] == d.subrange(16, 16 + wl)[j - 16]);
        assert(d[j] == word[j - 16]);
    }
    lemma_first_at_skip(d, 16, 16 + wl, 0x3f);
    if params.len() == 0 {
        assert(d.len() == 16 + wl);
        let q = first_at(d, 16, 0x3f);
        assert(q == d.len());
        assert(d.subrange(16, q) =~= word);
        assert(ps.len() == 0) by {
            if ps.len() > 0 {
                assert(ps_text(ps) == p_text(ps[0]) + ps_text(ps.skip(1)));
                assert(p_text(ps[0]).len() >= 1);
            }
        }
        lemma_parse_ps(d, d.len() as int, ps, empty_acc());
        assert(parse_uri(d) == Some(c));
    } else {
        assert(d.len() == 16 + wl + params.len());
        assert(d[16 + wl] == 0x3f);
        assert(first_at(d, 16 + wl, 0x3f) == 16 + wl);
        let q = first_at(d, 16, 0x3f);
        assert(q == 16 + wl);
        assert(d.subrange(16, q) =~= word);
        let start = q + 1;
        assert(ps.len() > 0) by {
            if ps.len() == 0 {
                assert(ps_text(ps).len() == 0);
            }
        }
        assert(d.len() - start + 1 == ps_text(ps).len());
        assert forall|j: int| 0 <= j < d.len() - start implies
            #[trigger] d.subrange(start, d.len() as int)[j] == ps_text(ps).skip(1)[j] by {
            assert(d.subrange(start, d.len() as int)[j] == d[start + j]);
            assert(d[start + j] == (seq![0x3fu8] + params.skip(1))[1 + j]);
            assert(d[start + j] == params.skip(1)[j]);
            assert(params.skip(1)[j] == params[j + 1]);
            assert(ps_text(ps).skip(1)[j] == ps_text(ps)[j + 1]);
        }
        assert(d.subrange(start, d.len() as int) =~= ps_text(ps).skip(1));
        lemma_parse_ps(d, start, ps, empty_acc());
        assert(parse_uri(d) == Some(c));
    }
}

} // verus!
