use wallet_core::address::Address;
use wallet_core::api::Api;
use wallet_core::error::{Invalid, WalletError};
use wallet_core::script::Payload;
use wallet_core::types::{Network, Script};

const P2PKH_MAIN: &str = "1BvBMSEYstWetqTFn5Au4m4GFg7xJaNVN2";
const P2SH_MAIN: &str = "3J98t1WpEZ73CNmQviecrnyiWrnqRhWNLy";
const P2WPKH_MAIN: &str = "bc1qw508d6qejxtdg4y5r3zarvary0c5xw7kv8f3t4";
const P2WPKH_TEST: &str = "tb1qw508d6qejxtdg4y5r3zarvary0c5xw7kxpjzsx";
const P2PKH_TEST: &str = "mipcBbFg9gMiCh81Kj8tqqdgoZub1ZJRfn";

fn program() -> Vec<u8> {
    vec![
        0x75, 0x1e, 0x76, 0xe8, 0x19, 0x91, 0x96, 0xd4, 0x54, 0x94, 0x1c, 0x45, 0xd1, 0xb3, 0xa3,
        0x23, 0xf1, 0x43, 0x3b, 0xd6,
    ]
}

#[test]
fn an_address_stands_for_a_script_on_a_network() {
    let a = Api::create_address(P2WPKH_MAIN, Network::Bitcoin).unwrap();
    assert_eq!(a.text, P2WPKH_MAIN);
    assert_eq!(a.network, Network::Bitcoin);
    let mut script = vec![0x00, 0x14];
    script.extend_from_slice(&program());
    assert_eq!(a.script.bytes, script);
    assert_eq!(Api::address_to_script_pubkey(P2WPKH_MAIN, Network::Bitcoin).unwrap().bytes, script);
    assert_eq!(Api::address_network(P2WPKH_MAIN).unwrap(), Network::Bitcoin);
    assert_eq!(Api::address_network(P2WPKH_TEST).unwrap(), Network::Testnet);
    assert_eq!(Api::address_network(P2PKH_TEST).unwrap(), Network::Testnet);
    assert_eq!(Api::address_to_script_pubkey(P2WPKH_TEST, Network::Testnet).unwrap().bytes, script);
    // The text comes back in standard form.
    assert_eq!(
        Api::create_address(&P2WPKH_MAIN.to_uppercase(), Network::Bitcoin).unwrap().text,
        P2WPKH_MAIN
    );

    let legacy = Api::address_to_script_pubkey(P2PKH_MAIN, Network::Bitcoin).unwrap();
    assert_eq!(legacy.bytes.len(), 25);
    assert_eq!(legacy.bytes[..3], [0x76, 0xa9, 0x14]);
    assert_eq!(legacy.bytes[3..7], [0x77, 0xbf, 0xf2, 0x0c]);

    let wrong = WalletError::ValidationError(Invalid::Address);
    for text in ["", "bc1", "1BvBMSEYstWetqTFn5Au4m4GFg7xJaNVN3", "bc1qw508d6qejxtdg4y5r3zarvary0c5xw7kv8f3t5"] {
        assert_eq!(Api::create_address(text, Network::Bitcoin).unwrap_err(), wrong);
        assert_eq!(Api::address_to_script_pubkey(text, Network::Bitcoin).unwrap_err(), wrong);
        assert_eq!(Api::payload(text, Network::Bitcoin).unwrap_err(), wrong);
        assert_eq!(Api::address_network(text).unwrap_err(), wrong);
    }
}

#[test]
fn the_payload_is_what_the_script_commits_to() {
    match Api::payload(P2WPKH_MAIN, Network::Bitcoin).unwrap() {
        Payload::WitnessProgram { version, program: p } => {
            assert_eq!(version, 0);
            assert_eq!(p, program());
        }
        other => panic!("{:?}", other),
    }
    match Api::payload(P2PKH_MAIN, Network::Bitcoin).unwrap() {
        Payload::PubkeyHash { pubkey_hash } => {
            assert_eq!(pubkey_hash.len(), 20);
            assert_eq!(pubkey_hash[..2], [0x77, 0xbf]);
        }
        other => panic!("{:?}", other),
    }
    match Api::payload(P2SH_MAIN, Network::Bitcoin).unwrap() {
        Payload::ScriptHash { script_hash } => assert_eq!(script_hash.len(), 20),
        other => panic!("{:?}", other),
    }
    let taproot = "bc1p5cyxnuxmeuwuvkwfem96lqzszd02n6xdcjrs20cac6yqjjwudpxqkedrcr";
    match Api::payload(taproot, Network::Bitcoin).unwrap() {
        Payload::WitnessProgram { version, program } => {
            assert_eq!(version, 1);
            assert_eq!(program.len(), 32);
        }
        other => panic!("{:?}", other),
    }
}

#[test]
fn scripts_are_classified_and_rebuilt() {
    assert!(matches!(Script { bytes: vec![] }.payload(), Payload::Bare));
    assert!(matches!(Script { bytes: vec![0x6a, 1, 2] }.payload(), Payload::Bare));
    assert!(matches!(Script { bytes: vec![0x51] }.payload(), Payload::Bare));
    // A version opcode, but the push does not end the script.
    assert!(matches!(Script { bytes: vec![0x00, 0x14, 1, 2, 3] }.payload(), Payload::Bare));
    assert!(Script { bytes: vec![0x6a] }.is_op_return());
    for text in [P2PKH_MAIN, P2SH_MAIN, P2WPKH_MAIN] {
        let script = Api::address_to_script_pubkey(text, Network::Bitcoin).unwrap();
        assert_eq!(script.payload().script_pubkey().unwrap().bytes, script.bytes);
    }
    assert!(Payload::Bare.script_pubkey().is_none());
    assert!(Payload::PubkeyHash { pubkey_hash: vec![1; 19] }.script_pubkey().is_none());
    assert!(Payload::WitnessProgram { version: 17, program: vec![1; 20] }.script_pubkey().is_none());
    assert!(Payload::WitnessProgram { version: 1, program: vec![1; 41] }.script_pubkey().is_none());
    assert_eq!(
        Payload::WitnessProgram { version: 16, program: vec![7; 2] }.script_pubkey().unwrap().bytes,
        vec![0x60, 2, 7, 7]
    );
    assert_eq!(Api::create_script(vec![1, 2, 3]).unwrap().bytes, vec![1, 2, 3]);
}

#[test]
fn a_script_has_an_address_on_each_network() {
    let mut script = vec![0x00, 0x14];
    script.extend_from_slice(&program());
    let script = Script { bytes: script };
    assert_eq!(Api::address_from_script(&script, Network::Bitcoin).unwrap().text, P2WPKH_MAIN);
    assert_eq!(Api::address_from_script(&script, Network::Testnet).unwrap().text, P2WPKH_TEST);
    assert_eq!(Api::address_from_script(&script, Network::Signet).unwrap().text, P2WPKH_TEST);
    let regtest = Api::address_from_script(&script, Network::Regtest).unwrap();
    assert!(regtest.text.starts_with("bcrt1"));
    assert_eq!(regtest.network, Network::Regtest);
    assert_eq!(regtest.script.bytes, script.bytes);
    let legacy = Api::address_to_script_pubkey(P2PKH_MAIN, Network::Bitcoin).unwrap();
    assert_eq!(Api::address_from_script(&legacy, Network::Bitcoin).unwrap().text, P2PKH_MAIN);
    let wrong = WalletError::ValidationError(Invalid::Script);
    assert_eq!(
        Api::address_from_script(&Script { bytes: vec![0x6a] }, Network::Bitcoin).unwrap_err(),
        wrong
    );
    assert_eq!(
        Api::address_from_script(&Script { bytes: vec![0x00, 0x03, 1, 2, 3] }, Network::Bitcoin)
            .unwrap_err(),
        wrong
    );
}

#[test]
fn an_address_of_another_network_is_a_mismatch() {
    assert!(Address::for_network(P2WPKH_MAIN, Network::Bitcoin).is_ok());
    for other in [Network::Testnet, Network::Signet, Network::Regtest] {
        assert_eq!(
            Address::for_network(P2WPKH_MAIN, other).unwrap_err(),
            WalletError::MismatchedNetwork
        );
        assert_eq!(
            Address::for_network(P2PKH_MAIN, other).unwrap_err(),
            WalletError::MismatchedNetwork
        );
    }
    assert_eq!(
        Address::for_network(P2WPKH_TEST, Network::Bitcoin).unwrap_err(),
        WalletError::MismatchedNetwork
    );
    assert!(Address::for_network(P2WPKH_TEST, Network::Testnet).is_ok());
    assert!(Address::for_network(P2WPKH_TEST, Network::Signet).is_ok());
    assert_eq!(
        Address::for_network(P2WPKH_TEST, Network::Regtest).unwrap_err(),
        WalletError::MismatchedNetwork
    );
    // The test networks share their key hash and script hash addresses.
    for net in [Network::Testnet, Network::Signet, Network::Regtest] {
        assert!(Address::for_network(P2PKH_TEST, net).is_ok());
    }
    assert_eq!(
        Address::for_network("nonsense", Network::Bitcoin).unwrap_err(),
        WalletError::ValidationError(Invalid::Address)
    );
}

#[test]
fn the_operations_on_addresses_reject_another_network() {
    let mismatch = WalletError::MismatchedNetwork;
    for other in [Network::Testnet, Network::Signet, Network::Regtest] {
        assert_eq!(Api::create_address(P2WPKH_MAIN, other).unwrap_err(), mismatch);
        assert_eq!(Api::address_to_script_pubkey(P2PKH_MAIN, other).unwrap_err(), mismatch);
        assert_eq!(Api::payload(P2SH_MAIN, other).unwrap_err(), mismatch);
    }
    assert_eq!(Api::create_address(P2WPKH_TEST, Network::Bitcoin).unwrap_err(), mismatch);
    assert_eq!(Api::create_address(P2WPKH_TEST, Network::Regtest).unwrap_err(), mismatch);
    assert_eq!(Api::payload(P2PKH_TEST, Network::Bitcoin).unwrap_err(), mismatch);
    // An address keeps the network that it is bound to.
    let shared = Api::create_address(P2WPKH_TEST, Network::Signet).unwrap();
    assert_eq!(shared.network, Network::Testnet);
    assert_eq!(shared.text, P2WPKH_TEST);
    assert!(Api::create_address(P2PKH_TEST, Network::Regtest).is_ok());
    // A text that is no address is no mismatch.
    assert_eq!(
        Api::create_address("nonsense", Network::Testnet).unwrap_err(),
        WalletError::ValidationError(Invalid::Address)
    );
}

#[test]
fn the_text_of_an_address_reads_back_as_the_address() {
    for (text, network) in [
        (P2PKH_MAIN, Network::Bitcoin),
        (P2SH_MAIN, Network::Bitcoin),
        (P2WPKH_MAIN, Network::Bitcoin),
        (P2WPKH_TEST, Network::Testnet),
        (P2PKH_TEST, Network::Regtest),
    ] {
        let once = Api::create_address(&text.to_uppercase(), network)
            .or_else(|_| Api::create_address(text, network))
            .unwrap();
        let twice = Api::create_address(&once.text, network).unwrap();
        assert_eq!(twice.text, once.text);
        assert_eq!(twice.script.bytes, once.script.bytes);
        assert_eq!(twice.network, once.network);
        assert_eq!(Address::new(&once.text).unwrap().text, text);
    }
}
