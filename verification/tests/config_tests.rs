//! The network-config descriptor.

use ark_core::config::{BootstrapPeers, ClientConfig, LocalNetworkConfig, Network};
use ark_core::errors::ArkError;

#[test]
fn mainnet_uri_is_bare() {
    let c = ClientConfig {
        network: Network::MainNet,
        network_id: None,
        bootstrap_peers: None,
        bootstrap_cache: None,
        ignore_cache: false,
    };
    assert_eq!(c.to_uri(), b"autonomi:config:mainnet".to_vec());
}

#[test]
fn local_uri_carries_contracts() {
    let c = ClientConfig {
        network: Network::Local(LocalNetworkConfig {
            rpc_url: b"http://127.0.0.1:8545".to_vec(),
            payment_token_addr: b"0xAAAA".to_vec(),
            data_payments_addr: b"0xBBBB".to_vec(),
        }),
        network_id: Some(3),
        bootstrap_peers: None,
        bootstrap_cache: None,
        ignore_cache: true,
    };
    let uri = c.to_uri();
    let text = String::from_utf8(uri.clone()).expect("ascii");
    let expected = [
        "autonomi:config:local?rpc_url=http://127.0.0.1:8545",
        "&payment_token_addr=0xAAAA&data_payments_addr=0xBBBB",
        "&network_id=3&ignore_cache",
    ]
    .concat();
    assert_eq!(text, expected);
}

#[test]
fn config_uri_roundtrip() {
    let cases = vec![
        ClientConfig {
            network: Network::AlphaNet,
            network_id: None,
            bootstrap_peers: None,
            bootstrap_cache: None,
            ignore_cache: false,
        },
        ClientConfig {
            network: Network::TestNet,
            network_id: Some(42),
            bootstrap_peers: Some(BootstrapPeers::Urls(vec![
                b"https://peers.example/one".to_vec(),
                b"https://peers.example/two".to_vec(),
            ])),
            bootstrap_cache: Some(b"/tmp/bootstrap".to_vec()),
            ignore_cache: false,
        },
        ClientConfig {
            network: Network::Local(LocalNetworkConfig {
                rpc_url: b"http://localhost:8545".to_vec(),
                payment_token_addr: b"0x01".to_vec(),
                data_payments_addr: b"0x02".to_vec(),
            }),
            network_id: Some(200),
            bootstrap_peers: Some(BootstrapPeers::MultiAddresses(vec![
                b"/ip4/127.0.0.1/tcp/4001".to_vec(),
            ])),
            bootstrap_cache: None,
            ignore_cache: true,
        },
    ];
    for c in cases {
        let uri = c.to_uri();
        let back = ClientConfig::from_uri(&uri).expect("canonical text parses");
        assert_eq!(back.to_uri(), uri);
    }
}

#[test]
fn config_uri_is_order_free_and_ignores_unknown_keys() {
    // Parameters in any order, an unknown parameter, and the key-only
    // cache directive all parse to the same descriptor.
    let shuffled = b"autonomi:config:local?ignore_cache&data_payments_addr=0xBBBB&rpc_url=http://127.0.0.1:8545&color=green&network_id=3&payment_token_addr=0xAAAA"
        .to_vec();
    let c = ClientConfig::from_uri(&shuffled).expect("order-free text parses");
    assert!(c.ignore_cache);
    assert_eq!(c.network_id, Some(3));
    match &c.network {
        Network::Local(l) => {
            assert_eq!(l.rpc_url, b"http://127.0.0.1:8545".to_vec());
            assert_eq!(l.payment_token_addr, b"0xAAAA".to_vec());
            assert_eq!(l.data_payments_addr, b"0xBBBB".to_vec());
        }
        _ => panic!("a local network was named"),
    }
    // Its canonical text round-trips.
    let canonical = c.to_uri();
    let back = ClientConfig::from_uri(&canonical).expect("canonical text parses");
    assert_eq!(back.to_uri(), canonical);
}

#[test]
fn config_uri_rejects_malformed_text() {
    assert!(matches!(
        ClientConfig::from_uri(&b"autonomi:config:nonsense".to_vec()),
        Err(ArkError::BadEncoding)
    ));
    assert!(matches!(
        ClientConfig::from_uri(&b"other:config:mainnet".to_vec()),
        Err(ArkError::BadEncoding)
    ));
    // A local network without its contract addresses is refused.
    assert!(ClientConfig::from_uri(&b"autonomi:config:local".to_vec()).is_err());
    // Peer lists and peer addresses cannot mix.
    assert!(ClientConfig::from_uri(
        &b"autonomi:config:mainnet?peer=/ip4/1.2.3.4/tcp/1&bootstrap_url=https://x".to_vec()
    )
    .is_err());
}
