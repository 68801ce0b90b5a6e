use wallet_core::api::Api;
use wallet_core::descriptor::{Descriptor, DescriptorKey, ScriptTemplate};
use wallet_core::error::{Invalid, WalletError};
use wallet_core::keys::{DescriptorPublicKey, DescriptorSecretKey, KeyOrigin, Wildcard};
use wallet_core::path::{ChildNumber, DerivationPath};
use wallet_core::types::{KeychainKind, Network};

const MASTER: &str = "xprv9s21ZrQH143K3QTDL4LXw2F7HEK3wJUD2nW2nRk4stbPy6cq3jPPqjiChkVvvNKmPGJxWUtg6LnF5kejMRNNU3TGtRBeJgk33yuGBxrMPHi";
const MASTER_PUB: &str = "xpub661MyMwAqRbcFtXgS5sYJABqqG9YLmC4Q1Rdap9gSE8NqtwybGhePY2gZ29ESFjqJoCu1Rupje8YtGqsefD265TMg7usUDFdp6W1EGMcet8";
const CHILD_0H: &str = "xprv9uHRZZhk6KAJC1avXpDAp4MDc3sQKNxDiPvvkX8Br5ngLNv1TxvUxt4cV1rGL5hj6KCesnDYUhd7oWgT11eZG7XnxHrnYeSvkzY7d2bhkJ7";
const CHILD_0H_PUB: &str = "xpub68Gmy5EdvgibQVfPdqkBBCHxA5htiqg55crXYuXoQRKfDBFA1WEjWgP6LHhwBZeNK1VTsfTFUHCdrfp1bgwQ9xv5ski8PX9rL2dZXvgGDnw";
const CHILD_0H_1: &str = "xprv9wTYmMFdV23N2TdNG573QoEsfRrWKQgWeibmLntzniatZvR9BmLnvSxqu53Kw1UmYPxLgboyZQaXwTCg8MSY3H2EU4pWcQDnRnrVA1xe8fs";
const CHILD_0H_1_PUB: &str = "xpub6ASuArnXKPbfEwhqN6e3mwBcDTgzisQN1wXN9BJcM47sSikHjJf3UFHKkNAWbWMiGj7Wf5uMash7SyYq527Hqck2AxYysAA7xmALppuCkwQ";
const TPRV: &str = "tprv8ZgxMBicQKsPdy6LMhUtFHAgpocR8GC6QmwMSFpZs7h6Eziw3SpThFfczTDh5rW2krkqffa11UpX3XkeTTB2FvzZKWXqPY54Y6Rq4AQ5R8L";
const WORDS: &str = "abandon abandon abandon abandon abandon abandon abandon abandon abandon abandon abandon about";

fn hard(index: u32) -> ChildNumber {
    ChildNumber { index, hardened: true }
}

fn plain(index: u32) -> ChildNumber {
    ChildNumber { index, hardened: false }
}

fn path(steps: &[ChildNumber]) -> DerivationPath {
    DerivationPath { segments: steps.to_vec() }
}

#[test]
fn a_path_is_m_and_one_or_more_steps() {
    let p = Api::create_derivation_path("m/44'/0'/0'/1/17").unwrap();
    assert_eq!(p.segments, vec![hard(44), hard(0), hard(0), plain(1), plain(17)]);
    assert_eq!(p.as_string(), "m/44'/0'/0'/1/17");
    assert_eq!(DerivationPath::parse("m/0").unwrap().segments, vec![plain(0)]);
    assert_eq!(DerivationPath::parse("m/007'").unwrap().segments, vec![hard(7)]);
    assert_eq!(
        DerivationPath::parse("m/2147483647'/2147483647").unwrap().segments,
        vec![hard(0x7FFF_FFFF), plain(0x7FFF_FFFF)]
    );
    let syntax = WalletError::ValidationError(Invalid::PathSyntax);
    for text in [
        "", "m", "m/", "n/0", "M/0", "/0", "0", "m0", "m//0", "m/0/", "m/'", "m/0''", "m/0h",
        "m/-1", "m/+1", "m/0 ", " m/0", "m/0'1", "m/a", "m/0/x", "m/1.5", "m/٣",
    ] {
        assert_eq!(DerivationPath::parse(text).unwrap_err(), syntax, "{:?}", text);
    }
    let range = WalletError::ValidationError(Invalid::PathIndex);
    for text in ["m/2147483648", "m/2147483648'", "m/0/4294967296", "m/99999999999999999999999"] {
        assert_eq!(DerivationPath::parse(text).unwrap_err(), range, "{:?}", text);
    }
    // Whichever comes first in the text is reported.
    assert_eq!(DerivationPath::parse("m/2147483648/x").unwrap_err(), range);
    assert_eq!(DerivationPath::parse("m/x/2147483648").unwrap_err(), syntax);
}

#[test]
fn a_path_reads_back_from_its_text() {
    for steps in [
        vec![plain(0)],
        vec![hard(0)],
        vec![hard(84), hard(1), hard(0), plain(0), plain(1_000_000)],
        vec![plain(0x7FFF_FFFF), hard(0x7FFF_FFFF), plain(10), hard(909)],
    ] {
        let text = path(&steps).as_string();
        assert_eq!(DerivationPath::parse(&text).unwrap().segments, steps);
    }
    assert_eq!(path(&[]).as_string(), "m");
    assert_eq!(path(&[plain(1), hard(2)]).to_raw(), Some(vec![1, 0x8000_0002]));
    assert_eq!(path(&[plain(0x8000_0000)]).to_raw(), None);
    assert_eq!(
        DerivationPath::from_raw(&vec![0, 0x8000_0000, 0xFFFF_FFFF]).segments,
        vec![plain(0), hard(0), hard(0x7FFF_FFFF)]
    );
}

#[test]
fn a_secret_key_is_taken_apart_and_put_together() {
    let text = format!("[d34db33f/44'/0'/0']{}/1/*", MASTER);
    let k = Api::descriptor_secret_from_string(&text).unwrap();
    let origin = k.origin.clone().unwrap();
    assert_eq!(origin.fingerprint, [0xd3, 0x4d, 0xb3, 0x3f]);
    assert_eq!(origin.path.segments, vec![hard(44), hard(0), hard(0)]);
    assert_eq!(k.xkey, MASTER);
    assert_eq!(k.derivation_path.segments, vec![plain(1)]);
    assert_eq!(k.wildcard, Wildcard::Unhardened);
    assert_eq!(k.as_string(), text);

    let bare = DescriptorSecretKey::from_string(MASTER).unwrap();
    assert!(bare.origin.is_none());
    assert!(bare.derivation_path.segments.is_empty());
    assert_eq!(bare.wildcard, Wildcard::Absent);
    assert_eq!(bare.as_string(), MASTER);

    let hardened = DescriptorSecretKey::from_string(&format!("{}/7'/*'", MASTER)).unwrap();
    assert_eq!(hardened.wildcard, Wildcard::Hardened);
    assert_eq!(hardened.derivation_path.segments, vec![hard(7)]);
    assert_eq!(hardened.as_string(), format!("{}/7'/*h", MASTER));
    assert_eq!(
        DescriptorSecretKey::from_string(&hardened.as_string()).unwrap().as_string(),
        hardened.as_string()
    );

    let wrong = WalletError::ValidationError(Invalid::KeyText);
    assert_eq!(DescriptorSecretKey::from_string("xprv").unwrap_err(), wrong);
    assert_eq!(DescriptorSecretKey::from_string(MASTER_PUB).unwrap_err(), wrong);
    assert_eq!(DescriptorPublicKey::from_string(MASTER).unwrap_err(), wrong);
    assert_eq!(Api::descriptor_public_from_string("").unwrap_err(), wrong);
}

#[test]
fn extending_keeps_the_key_and_lengthens_its_path() {
    let k = DescriptorSecretKey::from_string(&format!("{}/1/*", MASTER)).unwrap();
    let e = Api::extend_descriptor_secret(&k, &path(&[hard(0), plain(5)]));
    assert_eq!(e.xkey, MASTER);
    assert!(e.origin.is_none());
    assert_eq!(e.derivation_path.segments, vec![plain(1), hard(0), plain(5)]);
    assert_eq!(e.wildcard, Wildcard::Unhardened);
    assert_eq!(e.as_string(), format!("{}/1/0'/5/*", MASTER));
    let again = e.extend(&path(&[plain(6)]));
    assert_eq!(again.derivation_path.segments.len(), 4);
}

#[test]
fn deriving_gives_one_fixed_key_with_the_path_in_its_origin() {
    let master = DescriptorSecretKey::from_string(MASTER).unwrap();
    let child = Api::derive_descriptor_secret(&master, &path(&[hard(0)])).unwrap();
    assert_eq!(child.xkey, CHILD_0H);
    let origin = child.origin.clone().unwrap();
    assert_eq!(origin.fingerprint, [0x34, 0x42, 0x19, 0x3e]);
    assert_eq!(origin.path.segments, vec![hard(0)]);
    assert!(child.derivation_path.segments.is_empty());
    assert_eq!(child.as_string(), format!("[3442193e/0']{}", CHILD_0H));

    let grandchild = child.derive(&path(&[plain(1)])).unwrap();
    assert_eq!(grandchild.xkey, CHILD_0H_1);
    let origin = grandchild.origin.clone().unwrap();
    assert_eq!(origin.fingerprint, [0x34, 0x42, 0x19, 0x3e]);
    assert_eq!(origin.path.segments, vec![hard(0), plain(1)]);

    let direct = master.derive(&path(&[hard(0), plain(1)])).unwrap();
    assert_eq!(direct.xkey, CHILD_0H_1);

    assert_eq!(
        master.derive(&path(&[plain(0x8000_0000)])).unwrap_err(),
        WalletError::ValidationError(Invalid::PathIndex)
    );
    let long: Vec<ChildNumber> = (0..256).map(|_| plain(0)).collect();
    assert_eq!(master.derive(&path(&long)).unwrap_err(), WalletError::Generic);
    let fits: Vec<ChildNumber> = (0..255).map(|_| plain(0)).collect();
    assert!(master.derive(&path(&fits)).is_ok());
    assert_eq!(child.derive(&path(&fits)).unwrap_err(), WalletError::Generic);
    let broken = DescriptorSecretKey { xkey: "xprv".to_string(), ..master.clone() };
    assert_eq!(broken.derive(&path(&[plain(0)])).unwrap_err(), WalletError::Generic);
}

#[test]
fn the_configured_key_is_itself_extended_or_derived() {
    let master = DescriptorSecretKey::from_string(MASTER).unwrap();
    let same = Api::descriptor_secret_config(&master, &None, true).unwrap();
    assert_eq!(same.as_string(), MASTER);
    let extended = Api::descriptor_secret_config(&master, &Some(path(&[hard(0)])), false).unwrap();
    assert_eq!(extended.as_string(), format!("{}/0'", MASTER));
    let derived = Api::descriptor_secret_config(&master, &Some(path(&[hard(0)])), true).unwrap();
    assert_eq!(derived.xkey, CHILD_0H);
}

#[test]
fn public_keys_derive_along_plain_steps_only() {
    let account = DescriptorPublicKey::from_string(CHILD_0H_PUB).unwrap();
    let child = Api::create_descriptor_public(&account, &path(&[plain(1)]), true).unwrap();
    assert_eq!(child.xkey, CHILD_0H_1_PUB);
    let origin = child.origin.clone().unwrap();
    assert_eq!(origin.path.segments, vec![plain(1)]);
    let theirs: bdk::bitcoin::util::bip32::ExtendedPubKey = CHILD_0H_PUB.parse().unwrap();
    assert_eq!(origin.fingerprint, theirs.fingerprint().to_bytes());
    assert_ne!(origin.fingerprint, [0x34, 0x42, 0x19, 0x3e]);
    assert_eq!(
        Api::create_descriptor_public(&account, &path(&[hard(1)]), true).unwrap_err(),
        WalletError::Generic
    );
    let extended = Api::create_descriptor_public(&account, &path(&[plain(1)]), false).unwrap();
    assert_eq!(extended.xkey, CHILD_0H_PUB);
    assert_eq!(extended.as_string(), format!("{}/1", CHILD_0H_PUB));
}

#[test]
fn the_public_key_of_a_secret_key_applies_the_hardened_steps() {
    let master = DescriptorSecretKey::from_string(MASTER).unwrap();
    assert_eq!(Api::as_public(&master).unwrap().as_string(), MASTER_PUB);
    let k = DescriptorSecretKey::from_string(&format!("{}/0'/1/*", MASTER)).unwrap();
    let p = k.as_public().unwrap();
    assert_eq!(p.xkey, CHILD_0H_PUB);
    assert_eq!(p.derivation_path.segments, vec![plain(1)]);
    assert_eq!(p.wildcard, Wildcard::Unhardened);
    assert_eq!(p.as_string(), format!("[3442193e/0']{}/1/*", CHILD_0H_PUB));
    let broken = DescriptorSecretKey { xkey: "xprv".to_string(), ..master.clone() };
    assert_eq!(broken.as_public().unwrap_err(), WalletError::Generic);
}

#[test]
fn the_secret_bytes_are_those_of_the_extended_key() {
    let master = DescriptorSecretKey::from_string(MASTER).unwrap();
    let bytes = Api::as_secret_bytes(&master).unwrap();
    assert_eq!(bytes.len(), 32);
    assert_eq!(bytes[..4], [0xe8, 0xf3, 0x2e, 0x72]);
    let child = master.derive(&path(&[hard(0)])).unwrap();
    assert_ne!(child.secret_bytes().unwrap(), bytes);
    let broken = DescriptorSecretKey { xkey: "xprv".to_string(), ..master };
    assert_eq!(broken.secret_bytes().unwrap_err(), WalletError::Generic);
}

#[test]
fn a_mnemonic_gives_the_master_key_of_a_network() {
    let k = Api::create_descriptor_secret(Network::Testnet, WORDS, &None).unwrap();
    assert!(k.xkey.starts_with("tprv"));
    assert!(k.origin.is_none());
    assert!(k.derivation_path.segments.is_empty());
    assert_eq!(k.wildcard, Wildcard::Unhardened);
    let m = Api::create_descriptor_secret(Network::Bitcoin, WORDS, &None).unwrap();
    assert_eq!(
        m.xkey,
        "xprv9s21ZrQH143K3GJpoapnV8SFfukcVBSfeCficPSGfubmSFDxo1kuHnLisriDvSnRRuL2Qrg5ggqHKNVpxR86QEC8w35uxmGoggxtQTPvfUu"
    );
    let with = Api::create_descriptor_secret(Network::Bitcoin, WORDS, &Some("x".to_string()))
        .unwrap();
    assert_ne!(with.xkey, m.xkey);
    assert_eq!(
        Api::create_descriptor_secret(Network::Bitcoin, "abandon abandon", &None).unwrap_err(),
        WalletError::ValidationError(Invalid::KeyText)
    );
}

fn theirs_private(template: ScriptTemplate, keychain: KeychainKind, network: Network) -> String {
    let key: bdk::bitcoin::util::bip32::ExtendedPrivKey = TPRV.parse().unwrap();
    let chain = match keychain {
        KeychainKind::External => bdk::KeychainKind::External,
        KeychainKind::Internal => bdk::KeychainKind::Internal,
    };
    let net: bdk::bitcoin::Network = network.name().parse().unwrap();
    let built = match template {
        ScriptTemplate::P2Pkh => bdk::descriptor::template::DescriptorTemplate::build(
            bdk::template::Bip44(key, chain),
            net,
        ),
        ScriptTemplate::P2ShP2Wpkh => bdk::descriptor::template::DescriptorTemplate::build(
            bdk::template::Bip49(key, chain),
            net,
        ),
        ScriptTemplate::P2Wpkh => bdk::descriptor::template::DescriptorTemplate::build(
            bdk::template::Bip84(key, chain),
            net,
        ),
    }
    .unwrap();
    built.0.to_string_with_secret(&built.1)
}

#[test]
fn the_templates_give_the_standard_descriptors() {
    let key = DescriptorSecretKey::from_string(TPRV).unwrap();
    let d = Api::new_bip84_descriptor(KeychainKind::External, &key, Network::Testnet);
    let text = d.as_string_private().unwrap();
    assert_eq!(d.bare_string(), format!("wpkh({}/84'/1'/0'/0/*)", TPRV));
    assert!(text.starts_with(&format!("wpkh({}/84'/1'/0'/0/*)#", TPRV)));
    assert_eq!(text.len(), d.bare_string().len() + 9);
    for network in [Network::Testnet, Network::Regtest, Network::Signet] {
        for keychain in [KeychainKind::External, KeychainKind::Internal] {
            assert_eq!(
                Api::new_bip44_descriptor(keychain, &key, network).as_string_private().unwrap(),
                theirs_private(ScriptTemplate::P2Pkh, keychain, network)
            );
            assert_eq!(
                Api::new_bip49_descriptor(keychain, &key, network).as_string_private().unwrap(),
                theirs_private(ScriptTemplate::P2ShP2Wpkh, keychain, network)
            );
            assert_eq!(
                Api::new_bip84_descriptor(keychain, &key, network).as_string_private().unwrap(),
                theirs_private(ScriptTemplate::P2Wpkh, keychain, network)
            );
        }
    }
    let main = DescriptorSecretKey::from_string(MASTER).unwrap();
    assert_eq!(
        Api::new_bip44_descriptor(KeychainKind::Internal, &main, Network::Bitcoin).bare_string(),
        format!("pkh({}/44'/0'/0'/1/*)", MASTER)
    );
    assert_eq!(
        Api::new_bip49_descriptor(KeychainKind::External, &main, Network::Bitcoin).bare_string(),
        format!("sh(wpkh({}/49'/0'/0'/0/*))", MASTER)
    );
}

fn key_of(d: &Descriptor) -> (Option<KeyOrigin>, String, Vec<ChildNumber>, Wildcard) {
    match &d.key {
        DescriptorKey::Secret(k) => {
            (k.origin.clone(), k.xkey.clone(), k.derivation_path.segments.clone(), k.wildcard)
        }
        DescriptorKey::Public(k) => {
            (k.origin.clone(), k.xkey.clone(), k.derivation_path.segments.clone(), k.wildcard)
        }
    }
}

#[test]
fn the_two_keychains_differ_in_the_branch_only() {
    let key = DescriptorSecretKey::from_string(TPRV).unwrap();
    let e = Api::new_bip44_descriptor(KeychainKind::External, &key, Network::Testnet);
    let i = Api::new_bip44_descriptor(KeychainKind::Internal, &key, Network::Testnet);
    let (eo, ex, ep, ew) = key_of(&e);
    let (io, ix, ip, iw) = key_of(&i);
    assert!(eo.is_none() && io.is_none());
    assert_eq!(ex, ix);
    assert_eq!(ew, iw);
    assert_eq!(e.template, i.template);
    assert_eq!(ep, vec![hard(44), hard(1), hard(0), plain(0)]);
    assert_eq!(ip, vec![hard(44), hard(1), hard(0), plain(1)]);

    let public = DescriptorPublicKey::from_string(CHILD_0H_PUB).unwrap();
    let fp = [0x34, 0x42, 0x19, 0x3e];
    let e = Api::new_bip84_public(KeychainKind::External, &public, Network::Bitcoin, fp);
    let i = Api::new_bip84_public(KeychainKind::Internal, &public, Network::Bitcoin, fp);
    assert_eq!(e.bare_string(), format!("wpkh([3442193e/84'/0'/0']{}/0/*)", CHILD_0H_PUB));
    assert_eq!(i.bare_string(), format!("wpkh([3442193e/84'/0'/0']{}/1/*)", CHILD_0H_PUB));
    assert_eq!(
        Api::new_bip44_public(KeychainKind::External, &public, Network::Testnet, fp).bare_string(),
        format!("pkh([3442193e/44'/1'/0']{}/0/*)", CHILD_0H_PUB)
    );
    assert_eq!(
        Api::new_bip49_public(KeychainKind::Internal, &public, Network::Testnet, fp).bare_string(),
        format!("sh(wpkh([3442193e/49'/1'/0']{}/1/*))", CHILD_0H_PUB)
    );
}

#[test]
fn a_descriptor_turns_public() {
    let key = DescriptorSecretKey::from_string(TPRV).unwrap();
    let d = Api::new_bip84_descriptor(KeychainKind::External, &key, Network::Testnet);
    let p = d.to_public().unwrap();
    let text = p.as_string_private().unwrap();
    let public = Api::as_string(&d.as_string_private().unwrap(), Network::Testnet).unwrap();
    assert_eq!(text, public);
    assert!(text.starts_with("wpkh(["));
    assert!(text.contains("/84'/1'/0']tpub"));
    assert_eq!(p.to_public().unwrap().as_string_private().unwrap(), text);
}

#[test]
fn descriptor_texts_are_checked_and_rendered() {
    let text = format!("wpkh({}/84'/1'/0'/0/*)", TPRV);
    let private = Api::create_descriptor(&text, Network::Testnet).unwrap();
    assert!(private.starts_with(&format!("{}#", text)));
    assert_eq!(Api::as_string_private(&private, Network::Testnet).unwrap(), private);
    let public = Api::as_string(&text, Network::Testnet).unwrap();
    assert!(public.starts_with("wpkh(["));
    assert!(!public.contains("tprv"));
    assert_eq!(Api::max_satisfaction_weight(&text, Network::Testnet).unwrap(), 4 + 1 + 73 + 34);
    assert_eq!(
        Api::max_satisfaction_weight(&format!("pkh({}/44'/1'/0'/0/*)", TPRV), Network::Testnet)
            .unwrap(),
        4 * (1 + 73 + 34)
    );
    let wrong = WalletError::ValidationError(Invalid::KeyText);
    assert_eq!(Api::create_descriptor("wpkh(nothing)", Network::Testnet).unwrap_err(), wrong);
    assert_eq!(Api::create_descriptor(&text, Network::Bitcoin).unwrap_err(), wrong);
    assert_eq!(Api::as_string("", Network::Testnet).unwrap_err(), wrong);
    assert_eq!(Api::as_string_private("pkh()", Network::Testnet).unwrap_err(), wrong);
    assert_eq!(Api::max_satisfaction_weight("x", Network::Testnet).unwrap_err(), wrong);
    let bad_checksum = format!("{}#aaaaaaaa", text);
    assert_eq!(Api::create_descriptor(&bad_checksum, Network::Testnet).unwrap_err(), wrong);
}

fn deep_key(depth: u8) -> String {
    let mut key: bdk::bitcoin::util::bip32::ExtendedPrivKey = TPRV.parse().unwrap();
    key.depth = depth;
    key.to_string()
}

#[test]
fn keys_that_stand_too_deep_are_not_derived_from() {
    let deepest = DescriptorSecretKey::from_string(&deep_key(255)).unwrap();
    assert_eq!(deepest.derive(&path(&[plain(0)])).unwrap_err(), WalletError::Generic);
    assert!(deepest.derive(&path(&[])).is_ok());
    let near = DescriptorSecretKey::from_string(&deep_key(254)).unwrap();
    assert!(near.derive(&path(&[hard(0)])).is_ok());
    assert_eq!(near.derive(&path(&[hard(0), plain(1)])).unwrap_err(), WalletError::Generic);
    let with_steps = DescriptorSecretKey::from_string(&format!("{}/0'/1'/*", deep_key(254))).unwrap();
    assert_eq!(with_steps.as_public().unwrap_err(), WalletError::Generic);

    let wrong = WalletError::ValidationError(Invalid::KeyText);
    let text = format!("wpkh({}/0'/*)", deep_key(255));
    assert_eq!(Api::create_descriptor(&text, Network::Testnet).unwrap_err(), wrong);
    assert_eq!(Api::as_string(&text, Network::Testnet).unwrap_err(), wrong);
    assert_eq!(Api::as_string_private(&text, Network::Testnet).unwrap_err(), wrong);
    assert_eq!(Api::max_satisfaction_weight(&text, Network::Testnet).unwrap_err(), wrong);
    // The step that takes the place of the wildcard counts too.
    let full = format!("wpkh({}/0'/*)", deep_key(254));
    assert_eq!(Api::create_descriptor(&full, Network::Testnet).unwrap_err(), wrong);
    let fits = format!("wpkh({}/0'/*)", deep_key(253));
    assert!(Api::create_descriptor(&fits, Network::Testnet).is_ok());
    let two = format!("wsh(multi(1,{}/0/*,{}/0'/1'/*))", TPRV, deep_key(254));
    assert_eq!(Api::create_descriptor(&two, Network::Testnet).unwrap_err(), wrong);
    assert!(wallet_core::descriptor::is_shallow("nothing"));
    assert!(!wallet_core::descriptor::is_shallow(&text));
    assert!(wallet_core::descriptor::is_shallow(&format!("{}#xxxxxxxx", fits)));
}

fn deep_public_key(depth: u8) -> String {
    let secret: bdk::bitcoin::util::bip32::ExtendedPrivKey = TPRV.parse().unwrap();
    let secp = bdk::bitcoin::secp256k1::Secp256k1::new();
    let mut key = bdk::bitcoin::util::bip32::ExtendedPubKey::from_priv(&secp, &secret);
    key.depth = depth;
    key.to_string()
}

#[test]
fn every_extended_key_of_a_descriptor_is_held_to_its_depth() {
    use_of_keys_is_refused(&format!("wpkh({}/*)", deep_key(255)));
    use_of_keys_is_refused(&format!("wpkh({}/0/*)", deep_public_key(255)));
    use_of_keys_is_refused(&format!("wpkh({}/*)", deep_public_key(255)));
    use_of_keys_is_refused(&format!("wpkh({}/0/1)", deep_public_key(254)));
    use_of_keys_is_refused(&format!("wpkh({}/0/*)", deep_public_key(254)));
    use_of_keys_is_refused(&format!("wsh(multi(1,{}/0/*,{}/1/*))", TPRV, deep_public_key(254)));
    use_of_keys_is_refused(&format!("wsh(multi(1,{}/1/*,{}/0/*))", deep_public_key(254), TPRV));

    assert!(wallet_core::descriptor::is_key_shallow(&deep_public_key(255)));
    assert!(!wallet_core::descriptor::is_key_shallow(&format!("{}/*", deep_public_key(255))));
    assert!(wallet_core::descriptor::is_key_shallow(&format!("{}/*", deep_public_key(254))));
    assert!(!wallet_core::descriptor::is_key_shallow(&format!("{}/7/*", deep_public_key(254))));
    assert!(wallet_core::descriptor::is_key_shallow(&format!("{}/7", deep_key(254))));
    assert!(!wallet_core::descriptor::is_key_shallow(&format!("{}/7/*", deep_key(254))));
    assert!(wallet_core::descriptor::is_key_shallow("no key at all"));
    assert_eq!(wallet_core::descriptor::body_text("wpkh(x)#abcdefgh"), "wpkh(x)");
    assert_eq!(wallet_core::descriptor::body_text("wpkh(x)"), "wpkh(x)");
    assert_eq!(wallet_core::descriptor::body_text("#a#b"), "");

    // Keys that reach the last depth with all their steps taken are derived from.
    for text in [
        format!("wpkh({}/*)", deep_public_key(254)),
        format!("wpkh({}/0/*)", deep_public_key(253)),
        format!("wpkh({}/*)", deep_key(254)),
        format!("wpkh({})", deep_public_key(255)),
    ] {
        assert!(wallet_core::descriptor::is_shallow(&text));
        let wallet = Api::create_wallet(text.clone(), None, Network::Testnet).unwrap();
        let theirs = bdk::Wallet::new(
            text.as_str(),
            None,
            bdk::bitcoin::Network::Testnet,
            bdk::database::MemoryDatabase::new(),
        )
        .unwrap();
        let expected =
            theirs.get_address(bdk::wallet::AddressIndex::Peek(5)).unwrap().address.to_string();
        let mut wallet = wallet;
        let ours = Api::get_address(&mut wallet, wallet_core::wallet::AddressIndex::Peek(5)).unwrap();
        assert_eq!(ours.address, expected);
    }
}

fn use_of_keys_is_refused(text: &str) {
    let wrong = WalletError::ValidationError(Invalid::KeyText);
    assert!(!wallet_core::descriptor::is_shallow(text));
    assert_eq!(Api::create_descriptor(text, Network::Testnet).unwrap_err(), wrong);
    assert_eq!(Api::max_satisfaction_weight(text, Network::Testnet).unwrap_err(), wrong);
    assert_eq!(
        Api::create_wallet(text.to_string(), None, Network::Testnet).unwrap_err(),
        wrong
    );
    assert_eq!(
        Api::create_wallet(format!("wpkh({}/0/*)", TPRV), Some(text.to_string()), Network::Testnet)
            .unwrap_err(),
        wrong
    );
}

#[test]
fn a_public_key_takes_no_hardened_step() {
    let key = DescriptorPublicKey::from_string(MASTER_PUB).unwrap();
    assert!(key.derive(&path(&[plain(0), plain(1)])).is_ok());
    for steps in [vec![hard(0)], vec![plain(0), hard(1)], vec![hard(44), plain(0), plain(0)]] {
        assert!(path(&steps).has_hardened_step());
        assert_eq!(key.derive(&path(&steps)).unwrap_err(), WalletError::Generic);
        assert_eq!(
            Api::create_descriptor_public(&key, &path(&steps), true).unwrap_err(),
            WalletError::Generic
        );
    }
    assert!(!path(&[plain(0), plain(1)]).has_hardened_step());
    assert!(!path(&[]).has_hardened_step());
    // An index out of range is told from a hardened step.
    assert_eq!(
        key.derive(&path(&[ChildNumber { index: 0x8000_0000, hardened: true }])).unwrap_err(),
        WalletError::ValidationError(Invalid::PathIndex)
    );
}
