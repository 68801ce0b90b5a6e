use std::collections::BTreeMap;

use wallet_core::api::Api;
use wallet_core::error::{Invalid, WalletError};
use wallet_core::psbt::{merge_entries, Entry, Psbt, PsbtInput, SignOptions};
use wallet_core::tx::{Transaction, TxIn};
use wallet_core::types::{OutPoint, Script, TxOut};

fn hash160(data: &[u8]) -> [u8; 20] {
    let h: bdk::bitcoin::hashes::hash160::Hash = bdk::bitcoin::hashes::Hash::hash(data);
    bdk::bitcoin::hashes::Hash::into_inner(h)
}

fn key(tag: u8) -> Vec<u8> {
    let mut k = vec![0x02];
    k.extend_from_slice(&[tag; 32]);
    k
}

fn sig(tag: u8) -> Vec<u8> {
    vec![0x30, tag, tag, 0x01]
}

fn entry(k: u8, s: u8) -> Entry {
    Entry { key: key(k), value: sig(s) }
}

fn p2wpkh_for(k: u8) -> Script {
    let mut bytes = vec![0x00, 0x14];
    bytes.extend_from_slice(&hash160(&key(k)));
    Script { bytes }
}

fn p2pkh_for(k: u8) -> Script {
    let mut bytes = vec![0x76, 0xa9, 0x14];
    bytes.extend_from_slice(&hash160(&key(k)));
    bytes.extend_from_slice(&[0x88, 0xac]);
    Script { bytes }
}

fn multisig(m: u8, keys: &[u8]) -> Script {
    let mut bytes = vec![0x50 + m];
    for k in keys {
        bytes.push(33);
        bytes.extend_from_slice(&key(*k));
    }
    bytes.push(0x50 + keys.len() as u8);
    bytes.push(0xae);
    Script { bytes }
}

fn unsigned(inputs: usize, out_value: u64) -> Transaction {
    Transaction {
        version: 1,
        lock_time: 0,
        input: (0..inputs)
            .map(|i| TxIn {
                previous_output: OutPoint { txid: [i as u8 + 1; 32], vout: 0 },
                script_sig: Script { bytes: vec![] },
                sequence: 0xFFFF_FFFD,
                witness: vec![],
            })
            .collect(),
        output: vec![TxOut { value: out_value, script_pubkey: Script { bytes: vec![0x51] } }],
    }
}

fn input(spent: Script, value: u64, sigs: Vec<Entry>) -> PsbtInput {
    PsbtInput {
        witness_utxo: Some(TxOut { value, script_pubkey: spent }),
        non_witness_utxo: None,
        partial_sigs: sigs,
        sighash_type: None,
        bip32_derivation: vec![],
        redeem_script: None,
        witness_script: None,
        other: vec![],
    }
}

fn keys_of(i: &PsbtInput) -> Vec<Vec<u8>> {
    let mut k: Vec<Vec<u8>> = i.partial_sigs.iter().map(|e| e.key.clone()).collect();
    k.sort();
    k
}

#[test]
fn combining_takes_the_union_of_the_signatures_of_each_input() {
    let two_of_three = multisig(2, &[1, 2, 3]);
    let a = Psbt::new(
        unsigned(2, 1_000),
        vec![
            input(two_of_three.clone(), 900, vec![entry(1, 11)]),
            input(p2wpkh_for(5), 900, vec![]),
        ],
    )
    .unwrap();
    let b = Psbt::new(
        unsigned(2, 1_000),
        vec![
            input(two_of_three.clone(), 900, vec![entry(3, 33), entry(1, 12)]),
            input(p2wpkh_for(5), 900, vec![entry(5, 55)]),
        ],
    )
    .unwrap();
    let c = Api::combine_psbt(&a, &b).unwrap();
    assert_eq!(keys_of(&c.inputs()[0]), vec![key(1), key(3)]);
    assert_eq!(keys_of(&c.inputs()[1]), vec![key(5)]);
    // Where both have a signature under a key, the second one's counts.
    let under_one = c.inputs()[0].partial_sigs.iter().find(|e| e.key == key(1)).unwrap();
    assert_eq!(under_one.value, sig(12));
    assert_eq!(c.unsigned_tx().output[0].value, 1_000);

    let d = Api::combine_psbt(&b, &a).unwrap();
    assert_eq!(keys_of(&d.inputs()[0]), vec![key(1), key(3)]);
    let under_one = d.inputs()[0].partial_sigs.iter().find(|e| e.key == key(1)).unwrap();
    assert_eq!(under_one.value, sig(11));
}

#[test]
fn combining_over_different_transactions_fails() {
    let a = Psbt::new(unsigned(1, 1_000), vec![input(p2wpkh_for(5), 2_000, vec![])]).unwrap();
    let b = Psbt::new(unsigned(1, 1_001), vec![input(p2wpkh_for(5), 2_000, vec![])]).unwrap();
    assert_eq!(
        a.combine(&b).unwrap_err(),
        WalletError::ValidationError(Invalid::UnsignedTxMismatch)
    );
}

#[test]
fn merged_entries_keep_the_first_list_where_the_second_is_silent() {
    let merged = merge_entries(
        &vec![entry(1, 1), entry(2, 2), entry(3, 3)],
        &vec![entry(2, 20), entry(4, 40)],
    );
    let got: Vec<(Vec<u8>, Vec<u8>)> = merged.into_iter().map(|e| (e.key, e.value)).collect();
    assert_eq!(
        got,
        vec![(key(1), sig(1)), (key(3), sig(3)), (key(2), sig(20)), (key(4), sig(40))]
    );
}

#[test]
fn parts_that_do_not_fit_are_refused() {
    let wrong = WalletError::ValidationError(Invalid::PsbtStructure);
    // Data for two inputs of a transaction with one.
    assert_eq!(
        Psbt::new(
            unsigned(1, 1_000),
            vec![input(p2wpkh_for(5), 2_000, vec![]), input(p2wpkh_for(5), 2_000, vec![])]
        )
        .unwrap_err(),
        wrong
    );
    // A transaction that is signed already.
    let mut signed = unsigned(1, 1_000);
    signed.input[0].witness = vec![vec![1]];
    assert_eq!(
        Psbt::new(signed, vec![input(p2wpkh_for(5), 2_000, vec![])]).unwrap_err(),
        wrong
    );
    // Two signatures under one key.
    assert_eq!(
        Psbt::new(
            unsigned(1, 1_000),
            vec![input(p2wpkh_for(5), 2_000, vec![entry(1, 1), entry(1, 2)])]
        )
        .unwrap_err(),
        wrong
    );
    // Inputs that hold less than the outputs.
    assert_eq!(
        Psbt::new(unsigned(1, 1_000), vec![input(p2wpkh_for(5), 999, vec![])]).unwrap_err(),
        wrong
    );
    // A transaction given for the spent output without an output at that place.
    let mut short = input(p2wpkh_for(5), 2_000, vec![]);
    short.witness_utxo = None;
    short.non_witness_utxo = Some(Transaction {
        version: 1,
        lock_time: 0,
        input: vec![],
        output: vec![],
    });
    assert_eq!(Psbt::new(unsigned(1, 1_000), vec![short]).unwrap_err(), wrong);
    assert!(Psbt::new(unsigned(1, 1_000), vec![input(p2wpkh_for(5), 1_000, vec![])]).is_ok());
}

#[test]
fn the_fee_is_what_the_inputs_hold_beyond_the_outputs() {
    let p = Psbt::new(
        unsigned(2, 1_000),
        vec![input(p2wpkh_for(5), 700, vec![]), input(p2wpkh_for(6), 450, vec![])],
    )
    .unwrap();
    assert_eq!(Api::psbt_fee_amount(&p), Some(150));
    // Two inputs and one output of one byte: 4 * (10 + 2 * 41 + 10) weight units.
    assert_eq!(p.unsigned_tx().weight(), 408);
    assert_eq!(Api::psbt_fee_rate(&p), Some(150 * 4000 / 408));

    let mut unknown = input(p2wpkh_for(6), 450, vec![]);
    unknown.witness_utxo = None;
    let q = Psbt::new(unsigned(2, 1_000), vec![input(p2wpkh_for(5), 700, vec![]), unknown])
        .unwrap();
    assert_eq!(q.fee_amount(), None);
    assert_eq!(q.fee_rate(), None);

    let mut by_tx = input(p2wpkh_for(6), 0, vec![]);
    by_tx.witness_utxo = None;
    by_tx.non_witness_utxo = Some(Transaction {
        version: 1,
        lock_time: 0,
        input: vec![],
        output: vec![TxOut { value: 5_000, script_pubkey: p2wpkh_for(6) }],
    });
    let r = Psbt::new(unsigned(1, 1_000), vec![by_tx]).unwrap();
    assert_eq!(r.fee_amount(), Some(4_000));
}

#[test]
fn extraction_needs_every_input_to_meet_its_requirement() {
    let p = Psbt::new(
        unsigned(2, 1_000),
        vec![
            input(p2wpkh_for(5), 900, vec![entry(5, 55)]),
            input(p2pkh_for(6), 900, vec![]),
        ],
    )
    .unwrap();
    assert!(!p.is_complete());
    assert_eq!(Api::extract_tx(&p).unwrap_err(), WalletError::IncompletePsbt);

    // A signature under a key that the script does not pay to does not count.
    let q = Psbt::new(
        unsigned(2, 1_000),
        vec![
            input(p2wpkh_for(5), 900, vec![entry(5, 55)]),
            input(p2pkh_for(6), 900, vec![entry(7, 77)]),
        ],
    )
    .unwrap();
    assert_eq!(q.extract_tx().unwrap_err(), WalletError::IncompletePsbt);

    let r = Psbt::new(
        unsigned(2, 1_000),
        vec![
            input(p2wpkh_for(5), 900, vec![entry(5, 55)]),
            input(p2pkh_for(6), 900, vec![entry(7, 77), entry(6, 66)]),
        ],
    )
    .unwrap();
    assert!(r.is_complete());
    let tx = Api::extract_tx(&r).unwrap();
    assert_eq!(tx.input[0].witness, vec![sig(55), key(5)]);
    assert!(tx.input[0].script_sig.bytes.is_empty());
    let mut script_sig = vec![4];
    script_sig.extend_from_slice(&sig(66));
    script_sig.push(33);
    script_sig.extend_from_slice(&key(6));
    assert_eq!(tx.input[1].script_sig.bytes, script_sig);
    assert!(tx.input[1].witness.is_empty());
    assert_eq!(tx.input[1].sequence, 0xFFFF_FFFD);
    assert_eq!(tx.output[0].value, 1_000);
    assert_eq!(tx.version, 1);
}

#[test]
fn a_multi_signature_input_needs_as_many_signatures_as_its_threshold() {
    let script = multisig(2, &[1, 2, 3]);
    let mut program = vec![0x00, 0x20];
    program.extend_from_slice(&[0x77; 32]);
    let spend = |sigs: Vec<Entry>| {
        let mut i = input(Script { bytes: program.clone() }, 2_000, sigs);
        i.witness_script = Some(script.clone());
        Psbt::new(unsigned(1, 1_000), vec![i]).unwrap()
    };
    assert!(!spend(vec![]).is_complete());
    assert!(!spend(vec![entry(3, 33)]).is_complete());
    assert!(!spend(vec![entry(3, 33), entry(9, 99)]).is_complete());
    let done = spend(vec![entry(3, 33), entry(1, 11)]);
    assert!(done.is_complete());
    let tx = done.extract_tx().unwrap();
    // The signatures stand in the order of their keys in the script.
    assert_eq!(tx.input[0].witness, vec![vec![], sig(11), sig(33), script.bytes.clone()]);
    let all = spend(vec![entry(3, 33), entry(2, 22), entry(1, 11)]);
    assert_eq!(
        all.extract_tx().unwrap().input[0].witness,
        vec![vec![], sig(11), sig(22), script.bytes.clone()]
    );
}

#[test]
fn a_wrapped_witness_program_is_satisfied_through_its_redeem_script() {
    let redeem = p2wpkh_for(5);
    let mut spent = vec![0xa9, 0x14];
    spent.extend_from_slice(&hash160(&redeem.bytes));
    spent.push(0x87);
    let mut i = input(Script { bytes: spent }, 2_000, vec![entry(5, 55)]);
    let without = Psbt::new(unsigned(1, 1_000), vec![i.clone()]).unwrap();
    assert!(!without.is_complete());
    i.redeem_script = Some(redeem.clone());
    let with = Psbt::new(unsigned(1, 1_000), vec![i]).unwrap();
    let tx = with.extract_tx().unwrap();
    let mut script_sig = vec![22];
    script_sig.extend_from_slice(&redeem.bytes);
    assert_eq!(tx.input[0].script_sig.bytes, script_sig);
    assert_eq!(tx.input[0].witness, vec![sig(55), key(5)]);
}

#[test]
fn signing_tells_partial_from_complete() {
    let script = multisig(2, &[1, 2, 3]);
    let mut program = vec![0x00, 0x20];
    program.extend_from_slice(&[0x77; 32]);
    let make = |sigs: Vec<Entry>| {
        let mut i = input(Script { bytes: program.clone() }, 2_000, sigs);
        i.witness_script = Some(script.clone());
        Psbt::new(unsigned(1, 1_000), vec![i]).unwrap()
    };
    let trusting = Some(SignOptions { trust_witness_utxo: true, sign_complete: false });
    let first = Api::sign(&make(vec![]), &make(vec![entry(1, 11)]), trusting).unwrap();
    assert!(!first.fully_signed);
    assert_eq!(first.psbt.inputs()[0].partial_sigs.len(), 1);
    let second = Api::sign(&first.psbt, &make(vec![entry(2, 22)]), trusting).unwrap();
    assert!(second.fully_signed);
    assert_eq!(second.psbt.inputs()[0].partial_sigs.len(), 2);
    // A complete input is left alone unless asked otherwise.
    let third = Api::sign(&second.psbt, &make(vec![entry(3, 33)]), trusting).unwrap();
    assert_eq!(third.psbt.inputs()[0].partial_sigs.len(), 2);
    let again = Some(SignOptions { trust_witness_utxo: true, sign_complete: true });
    let fourth = Api::sign(&second.psbt, &make(vec![entry(3, 33)]), again).unwrap();
    assert_eq!(fourth.psbt.inputs()[0].partial_sigs.len(), 3);
    // Without trust in the output alone, an input without its transaction is not signed.
    let wary = Api::sign(&make(vec![]), &make(vec![entry(1, 11)]), None).unwrap();
    assert_eq!(wary.psbt.inputs()[0].partial_sigs.len(), 0);
    assert_eq!(make(vec![]).inputs_to_sign(trusting.unwrap()), vec![true]);
    assert_eq!(
        make(vec![]).inputs_to_sign(SignOptions { trust_witness_utxo: false, sign_complete: true }),
        vec![false]
    );
}

#[test]
fn the_id_is_that_of_the_unsigned_transaction() {
    let p = Psbt::new(unsigned(1, 1_000), vec![input(p2wpkh_for(5), 2_000, vec![])]).unwrap();
    assert_eq!(Api::psbt_txid(&p), unsigned(1, 1_000).txid());
    assert_ne!(Api::psbt_txid(&p), [0u8; 32]);
    assert_ne!(Api::psbt_txid(&p), unsigned(1, 1_001).txid());
}

fn real_key(tag: u8) -> Vec<u8> {
    let secp = bdk::bitcoin::secp256k1::Secp256k1::new();
    let secret = bdk::bitcoin::secp256k1::SecretKey::from_slice(&[tag; 32]).unwrap();
    bdk::bitcoin::secp256k1::PublicKey::from_secret_key(&secp, &secret).serialize().to_vec()
}

fn real_sig(tag: u8) -> Vec<u8> {
    let secp = bdk::bitcoin::secp256k1::Secp256k1::new();
    let secret = bdk::bitcoin::secp256k1::SecretKey::from_slice(&[tag; 32]).unwrap();
    let message = bdk::bitcoin::secp256k1::Message::from_slice(&[tag; 32]).unwrap();
    let mut sig = secp.sign_ecdsa(&message, &secret).serialize_der().to_vec();
    sig.push(1);
    sig
}

fn rich() -> Psbt {
    let mut first = input(
        p2wpkh_for(5),
        700,
        vec![
            Entry { key: real_key(1), value: real_sig(1) },
            Entry { key: real_key(2), value: real_sig(2) },
        ],
    );
    let mut pairs = first.partial_sigs.clone();
    pairs.sort_by(|a, b| a.key.cmp(&b.key));
    first.partial_sigs = pairs;
    first.sighash_type = Some(1);
    first.witness_script = Some(multisig(1, &[1, 2]));
    first.redeem_script = Some(p2wpkh_for(9));
    let mut hint = vec![0xde, 0xad, 0xbe, 0xef];
    hint.extend_from_slice(&0x8000_002cu32.to_le_bytes());
    hint.extend_from_slice(&7u32.to_le_bytes());
    first.bip32_derivation = vec![Entry { key: real_key(1), value: hint }];
    first.other = vec![Entry { key: vec![0x07], value: vec![0x51] }];
    let mut second = input(p2wpkh_for(6), 450, vec![]);
    second.witness_utxo = None;
    second.non_witness_utxo = Some(Transaction {
        version: 2,
        lock_time: 0,
        input: vec![TxIn {
            previous_output: OutPoint { txid: [3u8; 32], vout: 1 },
            script_sig: Script { bytes: vec![1, 2] },
            sequence: 5,
            witness: vec![vec![9; 10]],
        }],
        output: vec![TxOut { value: 800, script_pubkey: p2wpkh_for(6) }],
    });
    Psbt::with_records(
        unsigned(2, 1_000),
        vec![first, second],
        vec![Entry { key: vec![0x20, 0x01], value: vec![1, 2, 3] }],
        vec![vec![Entry { key: vec![0x00], value: vec![0x51] }]],
    )
    .unwrap()
}

#[test]
fn the_encoding_starts_with_the_magic_bytes_and_lists_the_records() {
    let p = Psbt::new(unsigned(1, 1_000), vec![input(Script { bytes: vec![0x51] }, 2_000, vec![])])
        .unwrap();
    let mut expected = vec![0x70, 0x73, 0x62, 0x74, 0xff];
    let tx = unsigned(1, 1_000).base_encoding();
    expected.extend_from_slice(&[1, 0, tx.len() as u8]);
    expected.extend_from_slice(&tx);
    expected.push(0);
    expected.extend_from_slice(&[1, 1, 10, 0xd0, 0x07, 0, 0, 0, 0, 0, 0, 1, 0x51, 0]);
    expected.push(0);
    assert_eq!(p.serialize(), expected);
}

#[test]
fn the_outside_decoder_reads_the_encoding() {
    let p = rich();
    let bytes = p.serialize();
    let theirs: bdk::bitcoin::psbt::PartiallySignedTransaction =
        bdk::bitcoin::consensus::encode::deserialize(&bytes).unwrap();
    assert_eq!(theirs.inputs.len(), 2);
    assert_eq!(theirs.inputs[0].partial_sigs.len(), 2);
    assert_eq!(theirs.inputs[0].witness_utxo.as_ref().unwrap().value, 700);
    assert_eq!(theirs.inputs[0].bip32_derivation.len(), 1);
    assert!(theirs.inputs[0].final_script_sig.is_some());
    assert_eq!(theirs.inputs[1].non_witness_utxo.as_ref().unwrap().output[0].value, 800);
    assert_eq!(theirs.outputs.len(), 1);
    assert!(theirs.outputs[0].redeem_script.is_some());
    assert_eq!(theirs.version, 0);
    assert_eq!(theirs.unknown.len(), 1);
    assert_eq!(bdk::bitcoin::consensus::encode::serialize(&theirs), bytes);
    let id: [u8; 32] = bdk::bitcoin::hashes::Hash::into_inner(theirs.unsigned_tx.txid());
    assert_eq!(p.txid(), id);
}

#[test]
fn a_partially_signed_transaction_is_read_back_from_its_encoding() {
    let p = rich();
    let bytes = p.serialize();
    let back = Psbt::from_bytes(&bytes).unwrap();
    assert_eq!(back.serialize(), bytes);
    assert_eq!(back.inputs().len(), 2);
    assert_eq!(back.inputs()[0].partial_sigs.len(), 2);
    assert_eq!(back.inputs()[0].partial_sigs[0].key, p.inputs()[0].partial_sigs[0].key);
    assert_eq!(back.inputs()[0].sighash_type, Some(1));
    assert_eq!(back.inputs()[0].redeem_script.as_ref().unwrap().bytes, p2wpkh_for(9).bytes);
    assert_eq!(back.inputs()[0].witness_utxo.as_ref().unwrap().value, 700);
    assert_eq!(back.inputs()[0].other.len(), 1);
    assert_eq!(back.inputs()[0].other[0].key, vec![0x07]);
    assert_eq!(back.inputs()[1].non_witness_utxo.as_ref().unwrap().input[0].witness.len(), 1);
    assert_eq!(back.globals().len(), 1);
    assert_eq!(back.outputs().len(), 1);
    assert_eq!(back.outputs()[0][0].value, vec![0x51]);
    assert_eq!(back.fee_amount(), Some(500));
    assert!(back.combine(&p).is_ok());
    assert_eq!(back.txid(), p.txid());

    let text = Api::serialize_psbt(&p);
    assert!(text.starts_with("cHNidP8B"));
    assert_eq!(Api::create_psbt(&text).unwrap().serialize(), bytes);
    let theirs: bdk::bitcoin::psbt::PartiallySignedTransaction = text.parse().unwrap();
    assert_eq!(theirs.to_string(), text);
}

#[test]
fn what_the_outside_encoder_writes_is_read() {
    let tx = bdk::bitcoin::Transaction {
        version: 2,
        lock_time: bdk::bitcoin::PackedLockTime(0),
        input: vec![bdk::bitcoin::TxIn {
            previous_output: bdk::bitcoin::OutPoint {
                txid: bdk::bitcoin::hashes::Hash::from_inner([7u8; 32]),
                vout: 0,
            },
            script_sig: bdk::bitcoin::Script::new(),
            sequence: bdk::bitcoin::Sequence(0xFFFF_FFFD),
            witness: bdk::bitcoin::Witness::default(),
        }],
        output: vec![
            bdk::bitcoin::TxOut {
                value: 5_000,
                script_pubkey: bdk::bitcoin::Script::from(p2wpkh_for(1).bytes),
            },
            bdk::bitcoin::TxOut {
                value: 4_000,
                script_pubkey: bdk::bitcoin::Script::from(p2wpkh_for(2).bytes),
            },
        ],
    };
    let key = bdk::bitcoin::secp256k1::PublicKey::from_slice(&real_key(3)).unwrap();
    let source = (
        bdk::bitcoin::util::bip32::Fingerprint::from(&[1u8, 2, 3, 4][..]),
        bdk::bitcoin::util::bip32::DerivationPath::from(vec![
            bdk::bitcoin::util::bip32::ChildNumber::from(0x8000_0054),
            bdk::bitcoin::util::bip32::ChildNumber::from(5),
        ]),
    );
    let mut hints = BTreeMap::new();
    hints.insert(key, source);
    let mut sigs = BTreeMap::new();
    sigs.insert(
        bdk::bitcoin::PublicKey::from_slice(&real_key(3)).unwrap(),
        bdk::bitcoin::EcdsaSig::from_slice(&real_sig(3)).unwrap(),
    );
    let input = bdk::bitcoin::psbt::Input {
        witness_utxo: Some(bdk::bitcoin::TxOut {
            value: 10_000,
            script_pubkey: bdk::bitcoin::Script::from(p2wpkh_for(3).bytes),
        }),
        partial_sigs: sigs,
        bip32_derivation: hints.clone(),
        final_script_witness: Some(bdk::bitcoin::Witness::from_vec(vec![vec![1, 2], vec![3]])),
        ..Default::default()
    };
    let change = bdk::bitcoin::psbt::Output { bip32_derivation: hints, ..Default::default() };
    let theirs = bdk::bitcoin::psbt::PartiallySignedTransaction {
        unsigned_tx: tx,
        version: 0,
        xpub: BTreeMap::new(),
        proprietary: BTreeMap::new(),
        unknown: BTreeMap::new(),
        inputs: vec![input],
        outputs: vec![Default::default(), change],
    };
    let bytes = bdk::bitcoin::consensus::encode::serialize(&theirs);
    let ours = Psbt::from_bytes(&bytes).unwrap();
    assert_eq!(ours.serialize(), bytes);
    assert_eq!(ours.unsigned_tx().output[1].value, 4_000);
    assert_eq!(ours.inputs()[0].witness_utxo.as_ref().unwrap().value, 10_000);
    assert_eq!(ours.inputs()[0].partial_sigs[0].key, real_key(3));
    assert_eq!(ours.inputs()[0].partial_sigs[0].value, real_sig(3));
    let mut hint = vec![1u8, 2, 3, 4];
    hint.extend_from_slice(&0x8000_0054u32.to_le_bytes());
    hint.extend_from_slice(&5u32.to_le_bytes());
    assert_eq!(ours.inputs()[0].bip32_derivation[0].value, hint);
    assert_eq!(ours.inputs()[0].other.len(), 1);
    assert_eq!(ours.inputs()[0].other[0].key, vec![0x08]);
    assert!(ours.outputs()[0].is_empty());
    assert_eq!(ours.outputs()[1].len(), 1);
    assert_eq!(ours.outputs()[1][0].key[0], 0x02);
    assert_eq!(ours.fee_amount(), Some(1_000));
    assert_eq!(Api::create_psbt(&theirs.to_string()).unwrap().serialize(), bytes);
}

#[test]
fn bytes_that_encode_no_partially_signed_transaction_are_rejected() {
    let wrong = WalletError::ValidationError(Invalid::PsbtStructure);
    let good = rich().serialize();
    assert_eq!(Psbt::from_bytes(&vec![]).unwrap_err(), wrong);
    assert_eq!(Psbt::from_bytes(&vec![0x70, 0x73, 0x62, 0x74, 0xff]).unwrap_err(), wrong);
    let mut magic = good.clone();
    magic[4] = 0xfe;
    assert_eq!(Psbt::from_bytes(&magic).unwrap_err(), wrong);
    for cut in [6, 50, good.len() - 1] {
        assert_eq!(Psbt::from_bytes(&good[..cut].to_vec()).unwrap_err(), wrong);
    }
    let mut longer = good.clone();
    longer.push(0);
    assert_eq!(Psbt::from_bytes(&longer).unwrap_err(), wrong);

    let tx = unsigned(1, 1_000).base_encoding();
    let head = |extra: &[u8]| {
        let mut b = vec![0x70, 0x73, 0x62, 0x74, 0xff, 1, 0, tx.len() as u8];
        b.extend_from_slice(&tx);
        b.extend_from_slice(extra);
        b
    };
    // One input without records, one output without records.
    assert!(Psbt::from_bytes(&head(&[0, 0, 0])).is_ok());
    // The list of the output is missing.
    assert_eq!(Psbt::from_bytes(&head(&[0, 0])).unwrap_err(), wrong);
    // The unsigned transaction twice.
    let mut twice = head(&[1, 0, tx.len() as u8]);
    twice.extend_from_slice(&tx);
    twice.extend_from_slice(&[0, 0, 0]);
    assert_eq!(Psbt::from_bytes(&twice).unwrap_err(), wrong);
    // No unsigned transaction at all.
    assert_eq!(
        Psbt::from_bytes(&vec![0x70, 0x73, 0x62, 0x74, 0xff, 0, 0, 0]).unwrap_err(),
        wrong
    );
    // The same record twice about an input.
    assert_eq!(
        Psbt::from_bytes(&head(&[0, 1, 4, 1, 0x51, 1, 4, 1, 0x52, 0, 0])).unwrap_err(),
        wrong
    );
    assert!(Psbt::from_bytes(&head(&[0, 1, 4, 1, 0x51, 0, 0])).is_ok());
    // A hash type of three bytes.
    assert_eq!(Psbt::from_bytes(&head(&[0, 1, 3, 3, 1, 0, 0, 0, 0])).unwrap_err(), wrong);
    assert!(Psbt::from_bytes(&head(&[0, 1, 3, 4, 1, 0, 0, 0, 0, 0])).is_ok());
    // Two signatures under one key.
    assert_eq!(
        Psbt::from_bytes(&head(&[0, 2, 2, 9, 1, 7, 2, 2, 9, 1, 8, 0, 0])).unwrap_err(),
        wrong
    );
    // A spent output that holds less than the outputs.
    assert_eq!(
        Psbt::from_bytes(&head(&[0, 1, 1, 10, 1, 0, 0, 0, 0, 0, 0, 0, 1, 0x51, 0, 0])).unwrap_err(),
        wrong
    );
    // Text that is not in base 64.
    assert_eq!(Api::create_psbt("not base 64!").unwrap_err(), wrong);
    assert_eq!(Api::create_psbt("").unwrap_err(), wrong);
}
