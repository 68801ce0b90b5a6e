use wallet_core::api::Api;
use wallet_core::tx::{Transaction, TxIn};
use wallet_core::types::{OutPoint, Script, TxOut};

fn sample(with_witness: bool) -> Transaction {
    let mut txid = [0u8; 32];
    for (i, b) in txid.iter_mut().enumerate() {
        *b = i as u8;
    }
    Transaction {
        version: 2,
        lock_time: 500_000,
        input: vec![
            TxIn {
                previous_output: OutPoint { txid, vout: 1 },
                script_sig: Script { bytes: vec![0x16, 0x00, 0x14, 1, 2, 3] },
                sequence: 0xFFFF_FFFD,
                witness: if with_witness { vec![vec![0x30; 71], vec![0x02; 33]] } else { vec![] },
            },
            TxIn {
                previous_output: OutPoint { txid: [9u8; 32], vout: 0x0102_0304 },
                script_sig: Script { bytes: vec![] },
                sequence: 0xFFFF_FFFF,
                witness: vec![],
            },
        ],
        output: vec![
            TxOut { value: 0x0102_0304_0506, script_pubkey: Script { bytes: vec![0x51; 300] } },
            TxOut { value: 1, script_pubkey: Script { bytes: vec![0x6a] } },
        ],
    }
}

fn outside(tx: &Transaction) -> bdk::bitcoin::Transaction {
    bdk::bitcoin::Transaction {
        version: tx.version,
        lock_time: bdk::bitcoin::PackedLockTime(tx.lock_time),
        input: tx
            .input
            .iter()
            .map(|i| bdk::bitcoin::TxIn {
                previous_output: bdk::bitcoin::OutPoint {
                    txid: bdk::bitcoin::hashes::Hash::from_inner(i.previous_output.txid),
                    vout: i.previous_output.vout,
                },
                script_sig: bdk::bitcoin::Script::from(i.script_sig.bytes.clone()),
                sequence: bdk::bitcoin::Sequence(i.sequence),
                witness: bdk::bitcoin::Witness::from_vec(i.witness.clone()),
            })
            .collect(),
        output: tx
            .output
            .iter()
            .map(|o| bdk::bitcoin::TxOut {
                value: o.value,
                script_pubkey: bdk::bitcoin::Script::from(o.script_pubkey.bytes.clone()),
            })
            .collect(),
    }
}

#[test]
fn the_encoding_is_the_one_that_goes_over_the_wire() {
    for with_witness in [false, true] {
        let tx = sample(with_witness);
        let theirs = outside(&tx);
        assert_eq!(Api::serialize_tx(&tx), bdk::bitcoin::consensus::encode::serialize(&theirs));
        assert_eq!(Api::size(&tx), theirs.size() as u64);
        assert_eq!(Api::weight(&tx), theirs.weight() as u64);
        assert_eq!(Api::vsize(&tx), theirs.vsize() as u64);
        let id: [u8; 32] = bdk::bitcoin::hashes::Hash::into_inner(theirs.txid());
        assert_eq!(Api::tx_txid(&tx), id);
    }
}

#[test]
fn a_small_transaction_is_encoded_byte_for_byte() {
    let tx = Transaction {
        version: 1,
        lock_time: 0,
        input: vec![TxIn {
            previous_output: OutPoint { txid: [0xab; 32], vout: 2 },
            script_sig: Script { bytes: vec![] },
            sequence: 0xFFFF_FFFE,
            witness: vec![],
        }],
        output: vec![TxOut { value: 258, script_pubkey: Script { bytes: vec![0x51] } }],
    };
    let mut expected = vec![1, 0, 0, 0, 1];
    expected.extend_from_slice(&[0xab; 32]);
    expected.extend_from_slice(&[2, 0, 0, 0, 0, 0xfe, 0xff, 0xff, 0xff]);
    expected.extend_from_slice(&[1, 2, 1, 0, 0, 0, 0, 0, 0, 1, 0x51]);
    expected.extend_from_slice(&[0, 0, 0, 0]);
    assert_eq!(tx.serialize(), expected);
    assert_eq!(tx.base_encoding(), expected);
    assert_eq!(tx.size(), 61);
    assert_eq!(tx.weight(), 244);
    assert_eq!(tx.vsize(), 61);
    assert_eq!(Api::version(&tx), 1);
    assert_eq!(Api::lock_time(&tx), 0);
    assert_eq!(Api::input(&tx).len(), 1);
    assert_eq!(Api::output(&tx)[0].value, 258);
}

#[test]
fn a_negative_version_keeps_its_four_bytes() {
    let mut tx = sample(false);
    tx.version = -2;
    assert_eq!(tx.serialize()[..4], [0xfe, 0xff, 0xff, 0xff]);
    assert_eq!(tx.serialize(), bdk::bitcoin::consensus::encode::serialize(&outside(&tx)));
}

#[test]
fn what_the_inputs_signal() {
    let tx = sample(false);
    assert!(Api::is_explicitly_rbf(&tx));
    assert!(Api::is_lock_time_enabled(&tx));
    assert!(!Api::is_coin_base(&tx));

    let mut last = sample(false);
    last.input[0].sequence = 0xFFFF_FFFE;
    assert!(!last.is_explicitly_rbf());
    assert!(last.is_lock_time_enabled());
    last.input[0].sequence = 0xFFFF_FFFF;
    assert!(!last.is_lock_time_enabled());

    let coinbase = Transaction {
        version: 1,
        lock_time: 0,
        input: vec![TxIn {
            previous_output: OutPoint { txid: [0u8; 32], vout: 0xFFFF_FFFF },
            script_sig: Script { bytes: vec![3, 1, 2, 3] },
            sequence: 0xFFFF_FFFF,
            witness: vec![],
        }],
        output: vec![TxOut { value: 50, script_pubkey: Script { bytes: vec![0x51] } }],
    };
    assert!(coinbase.is_coin_base());
    assert!(outside(&coinbase).is_coin_base());
    let mut almost = coinbase.clone();
    almost.input[0].previous_output.txid[31] = 1;
    assert!(!almost.is_coin_base());
    let mut other = coinbase.clone();
    other.input[0].previous_output.vout = 0;
    assert!(!other.is_coin_base());
}

#[test]
fn a_transaction_is_read_back_from_its_encoding() {
    for with_witness in [false, true] {
        let tx = sample(with_witness);
        let bytes = tx.serialize();
        let back = Api::create_transaction(bytes.clone()).unwrap();
        assert_eq!(back.serialize(), bytes);
        assert_eq!(back.version, tx.version);
        assert_eq!(back.lock_time, tx.lock_time);
        assert_eq!(back.input.len(), 2);
        assert_eq!(back.input[0].previous_output.txid, tx.input[0].previous_output.txid);
        assert_eq!(back.input[0].witness, tx.input[0].witness);
        assert_eq!(back.input[1].previous_output.vout, 0x0102_0304);
        assert_eq!(back.output[0].value, 0x0102_0304_0506);
        assert_eq!(back.output[0].script_pubkey.bytes.len(), 300);
    }
    let mut negative = sample(true);
    negative.version = i32::MIN;
    assert_eq!(Transaction::decode(&negative.serialize()).unwrap().version, i32::MIN);
    // Without inputs the form with witnesses is used.
    let empty = Transaction { version: 1, lock_time: 7, input: vec![], output: vec![] };
    assert_eq!(empty.serialize(), vec![1, 0, 0, 0, 0, 1, 0, 0, 7, 0, 0, 0]);
    let back = Transaction::decode(&empty.serialize()).unwrap();
    assert!(back.input.is_empty() && back.output.is_empty());
    assert_eq!(back.lock_time, 7);
}

#[test]
fn bytes_that_encode_no_transaction_are_rejected() {
    let wrong = wallet_core::error::WalletError::ValidationError(
        wallet_core::error::Invalid::TransactionBytes,
    );
    let good = sample(true).serialize();
    assert!(Transaction::decode(&good).is_ok());
    assert_eq!(Transaction::decode(&vec![]).unwrap_err(), wrong);
    for cut in [1, 4, 5, 40, good.len() - 1] {
        assert_eq!(Transaction::decode(&good[..cut].to_vec()).unwrap_err(), wrong);
    }
    let mut longer = good.clone();
    longer.push(0);
    assert_eq!(Transaction::decode(&longer).unwrap_err(), wrong);
    // A flag other than one.
    let mut flag = good.clone();
    flag[5] = 2;
    assert_eq!(Transaction::decode(&flag).unwrap_err(), wrong);
    // A count that is not in its shortest form: 0xfd 0x01 0x00 for one input.
    let plain = sample(false).serialize();
    assert_eq!(plain[4], 2);
    let mut long_count = plain[..4].to_vec();
    long_count.extend_from_slice(&[0xfd, 0x02, 0x00]);
    long_count.extend_from_slice(&plain[5..]);
    assert_eq!(Transaction::decode(&long_count).unwrap_err(), wrong);
    assert!(bdk::bitcoin::consensus::encode::deserialize::<bdk::bitcoin::Transaction>(&long_count)
        .is_err());
    // The form with witnesses, but no input has one.
    let bare = sample(false);
    let mut marked = bare.serialize()[..4].to_vec();
    marked.extend_from_slice(&[0, 1]);
    marked.extend_from_slice(&bare.serialize()[4..bare.serialize().len() - 4]);
    marked.extend_from_slice(&[0, 0]);
    marked.extend_from_slice(&bare.serialize()[bare.serialize().len() - 4..]);
    assert_eq!(Transaction::decode(&marked).unwrap_err(), wrong);
    assert!(bdk::bitcoin::consensus::encode::deserialize::<bdk::bitcoin::Transaction>(&marked)
        .is_err());
}

#[test]
fn decoding_agrees_with_the_outside_encoder() {
    for with_witness in [false, true] {
        let theirs = outside(&sample(with_witness));
        let bytes = bdk::bitcoin::consensus::encode::serialize(&theirs);
        let ours = Transaction::decode(&bytes).unwrap();
        assert_eq!(ours.serialize(), bytes);
        assert_eq!(ours.input.len(), theirs.input.len());
        assert_eq!(ours.output.len(), 2);
        assert_eq!(ours.output[0].value, theirs.output[0].value);
        assert_eq!(ours.input[0].witness, theirs.input[0].witness.to_vec());
        assert_eq!(ours.input[0].sequence, 0xFFFF_FFFD);
        assert_eq!(ours.input[0].script_sig.bytes, theirs.input[0].script_sig.to_bytes());
        let id: [u8; 32] = bdk::bitcoin::hashes::Hash::into_inner(theirs.txid());
        assert_eq!(ours.txid(), id);
        assert_eq!(ours.weight(), theirs.weight() as u64);
        let back: bdk::bitcoin::Transaction =
            bdk::bitcoin::consensus::encode::deserialize(&ours.serialize()).unwrap();
        assert_eq!(back, theirs);
    }
}

#[test]
fn a_transaction_id_is_written_from_its_last_byte_to_its_first() {
    let mut txid = [0u8; 32];
    for (i, b) in txid.iter_mut().enumerate() {
        *b = (i as u8) * 8 + 1;
    }
    let text = wallet_core::tx::txid_to_text(&txid);
    assert_eq!(text, "f9f1e9e1d9d1c9c1b9b1a9a19991898179716961595149413931292119110901");
    let theirs: bdk::bitcoin::Txid = bdk::bitcoin::hashes::Hash::from_inner(txid);
    assert_eq!(text, theirs.to_string());
    assert_eq!(wallet_core::tx::txid_from_text(&text).unwrap(), txid);
    assert_eq!(wallet_core::tx::txid_from_text(&text.to_uppercase()).unwrap(), txid);
    let wrong = wallet_core::error::WalletError::ValidationError(
        wallet_core::error::Invalid::TxidText,
    );
    assert_eq!(wallet_core::tx::txid_from_text("").unwrap_err(), wrong);
    assert_eq!(wallet_core::tx::txid_from_text(&text[..63]).unwrap_err(), wrong);
    assert_eq!(wallet_core::tx::txid_from_text(&format!("{}0", text)).unwrap_err(), wrong);
    assert_eq!(wallet_core::tx::txid_from_text(&text.replace('f', "g")).unwrap_err(), wrong);
    let id = Api::tx_txid(&sample(true));
    assert_eq!(
        wallet_core::tx::txid_to_text(&id),
        outside(&sample(true)).txid().to_string()
    );
}
