use wallet_core::bump::{bump_fee, can_replace, rate_exceeds_of};
use wallet_core::error::{Invalid, WalletError};
use wallet_core::tx::{Transaction, TxIn};
use wallet_core::tx_builder::{LocalUtxo, SatisfactionWeights};
use wallet_core::types::{KeychainKind, OutPoint, RbfValue, Script, TxOut};
use wallet_core::wallet::{BlockTime, TransactionDetails};

fn p2wpkh(tag: u8) -> Script {
    let mut bytes = vec![0x00, 0x14];
    bytes.extend_from_slice(&[tag; 20]);
    Script { bytes }
}

fn utxo(tag: u8, value: u64, is_spent: bool) -> LocalUtxo {
    LocalUtxo {
        outpoint: OutPoint { txid: [tag; 32], vout: 0 },
        txout: TxOut { value, script_pubkey: p2wpkh(tag) },
        keychain: KeychainKind::External,
        is_spent,
    }
}

fn unconfirmed() -> TransactionDetails {
    // Base encoding: 4 + 1 + 41 + 1 + 2 * 31 + 4 = 113 bytes; no witness: 452 weight
    // units, 113 virtual bytes.
    let tx = Transaction {
        version: 1,
        lock_time: 0,
        input: vec![TxIn {
            previous_output: OutPoint { txid: [1u8; 32], vout: 0 },
            script_sig: Script { bytes: vec![] },
            sequence: 0xFFFF_FFFD,
            witness: vec![],
        }],
        output: vec![
            TxOut { value: 50_000, script_pubkey: p2wpkh(7) },
            TxOut { value: 49_774, script_pubkey: p2wpkh(8) },
        ],
    };
    TransactionDetails {
        txid: [0xaa; 32],
        transaction: Some(tx),
        received: 49_774,
        sent: 100_000,
        fee: Some(226),
        confirmation_time: None,
    }
}

const WEIGHTS: SatisfactionWeights = SatisfactionWeights { external: 76, internal: 76 };

#[test]
fn the_new_rate_must_exceed_the_old_by_more_than_the_increment() {
    // The transaction pays 226 for 113 virtual bytes: 2 satoshis each.
    assert_eq!(unconfirmed().transaction.unwrap().vsize(), 113);
    assert!(!rate_exceeds_of(2_000, 226, 113));
    assert!(!rate_exceeds_of(3_000, 226, 113));
    assert!(rate_exceeds_of(3_001, 226, 113));
    assert!(!rate_exceeds_of(2_999, 226, 113));

    let utxos = vec![utxo(1, 100_000, true), utxo(2, 50_000, false)];
    let change = p2wpkh(9);
    for rate in [0u64, 1_000, 2_000, 2_999, 3_000] {
        assert_eq!(
            bump_fee(&unconfirmed(), &utxos, WEIGHTS, &change, rate, &None, Some(RbfValue::RbfDefault))
                .unwrap_err(),
            WalletError::ValidationError(Invalid::FeeRate)
        );
    }
    assert!(bump_fee(
        &unconfirmed(),
        &utxos,
        WEIGHTS,
        &change,
        3_001,
        &None,
        Some(RbfValue::RbfDefault)
    )
    .is_ok());
}

#[test]
fn a_replacement_keeps_inputs_and_outputs_and_may_add_inputs() {
    let utxos = vec![utxo(1, 100_000, true), utxo(2, 50_000, false)];
    // The outputs take 99,774 of the 100,000; at 5 satoshis a virtual byte the first
    // input does not pay the fee, so the second is drawn.
    let plan = bump_fee(
        &unconfirmed(),
        &utxos,
        WEIGHTS,
        &p2wpkh(9),
        5_000,
        &None,
        Some(RbfValue::RbfDefault),
    )
    .unwrap();
    assert_eq!(plan.inputs.len(), 2);
    assert_eq!(plan.inputs[0].outpoint.txid, [1u8; 32]);
    assert_eq!(plan.inputs[1].outpoint.txid, [2u8; 32]);
    assert_eq!(plan.outputs[0].value, 50_000);
    assert_eq!(plan.outputs[1].value, 49_774);
    assert!(plan.has_change);
    assert_eq!(plan.outputs.len(), 3);
    assert_eq!(plan.outputs[2].script_pubkey.bytes, p2wpkh(9).bytes);
    // Overhead 40, two inputs of 236, three outputs of 124: 884 weight units, 221
    // virtual bytes, 1,105 satoshis.
    assert_eq!(plan.fee, 1_105);
    assert_eq!(plan.outputs[2].value, 150_000 - 99_774 - 1_105);
    assert_eq!(plan.sequence, 0xFFFF_FFFD);
}

#[test]
fn an_output_that_may_shrink_pays_the_higher_fee() {
    let utxos = vec![utxo(1, 100_000, true), utxo(2, 50_000, false)];
    let plan = bump_fee(
        &unconfirmed(),
        &utxos,
        WEIGHTS,
        &p2wpkh(9),
        5_000,
        &Some(p2wpkh(8)),
        Some(RbfValue::Value(12)),
    )
    .unwrap();
    assert_eq!(plan.inputs.len(), 1);
    assert_eq!(plan.outputs.len(), 2);
    assert_eq!(plan.outputs[0].value, 50_000);
    // Overhead 40, one input of 236, two outputs of 124: 524 weight units, 131
    // virtual bytes, 655 satoshis.
    assert_eq!(plan.fee, 655);
    assert_eq!(plan.outputs[1].value, 50_000 - 655);
    assert_eq!(plan.outputs[1].script_pubkey.bytes, p2wpkh(8).bytes);
    assert_eq!(plan.sequence, 12);

    assert_eq!(
        bump_fee(
            &unconfirmed(),
            &utxos,
            WEIGHTS,
            &p2wpkh(9),
            5_000,
            &Some(p2wpkh(3)),
            Some(RbfValue::RbfDefault)
        )
        .unwrap_err(),
        WalletError::ValidationError(Invalid::ShrinkTarget)
    );
}

#[test]
fn confirmed_and_foreign_transactions_cannot_be_replaced() {
    let utxos = vec![utxo(1, 100_000, true), utxo(2, 50_000, false)];
    let mut confirmed = unconfirmed();
    confirmed.confirmation_time = Some(BlockTime { height: 100, timestamp: 1_600_000_000 });
    assert_eq!(
        bump_fee(&confirmed, &utxos, WEIGHTS, &p2wpkh(9), 5_000, &None, None).unwrap_err(),
        WalletError::IrreplaceableTransaction
    );
    let others = vec![utxo(2, 50_000, false)];
    assert_eq!(
        bump_fee(&unconfirmed(), &others, WEIGHTS, &p2wpkh(9), 5_000, &None, None).unwrap_err(),
        WalletError::IrreplaceableTransaction
    );
    let mut unknown_fee = unconfirmed();
    unknown_fee.fee = None;
    assert_eq!(
        bump_fee(&unknown_fee, &utxos, WEIGHTS, &p2wpkh(9), 5_000, &None, None).unwrap_err(),
        WalletError::IrreplaceableTransaction
    );
    let mut no_body = unconfirmed();
    no_body.transaction = None;
    assert_eq!(
        bump_fee(&no_body, &utxos, WEIGHTS, &p2wpkh(9), 5_000, &None, None).unwrap_err(),
        WalletError::IrreplaceableTransaction
    );
}

#[test]
fn a_replacement_may_give_up_replaceability() {
    let utxos = vec![utxo(1, 100_000, true), utxo(2, 50_000, false)];
    let plan = bump_fee(&unconfirmed(), &utxos, WEIGHTS, &p2wpkh(9), 5_000, &None, None).unwrap();
    assert_eq!(plan.sequence, 0xFFFF_FFFF);
    assert_eq!(
        bump_fee(
            &unconfirmed(),
            &utxos,
            WEIGHTS,
            &p2wpkh(9),
            5_000,
            &None,
            Some(RbfValue::Value(0xFFFF_FFFE))
        )
        .unwrap_err(),
        WalletError::ValidationError(Invalid::Sequence)
    );
}

#[test]
fn whether_a_transaction_can_be_replaced_is_decided_first() {
    let utxos = vec![utxo(1, 100_000, true), utxo(2, 50_000, false)];
    let bad_sequence = Some(RbfValue::Value(0xFFFF_FFFF));
    let mut confirmed = unconfirmed();
    confirmed.confirmation_time = Some(BlockTime { height: 100, timestamp: 1_600_000_000 });
    // A confirmed transaction, with a sequence number, a rate and a script to shrink
    // that would each be refused.
    assert_eq!(
        bump_fee(&confirmed, &utxos, WEIGHTS, &p2wpkh(9), 0, &Some(p2wpkh(3)), bad_sequence)
            .unwrap_err(),
        WalletError::IrreplaceableTransaction
    );
    assert!(!can_replace(&confirmed, &utxos));
    let others = vec![utxo(2, 50_000, false)];
    assert_eq!(
        bump_fee(&unconfirmed(), &others, WEIGHTS, &p2wpkh(9), 0, &None, bad_sequence)
            .unwrap_err(),
        WalletError::IrreplaceableTransaction
    );
    assert!(!can_replace(&unconfirmed(), &others));
    assert!(can_replace(&unconfirmed(), &utxos));
    // With a transaction that can be replaced the sequence number is looked at next.
    assert_eq!(
        bump_fee(&unconfirmed(), &utxos, WEIGHTS, &p2wpkh(9), 0, &None, bad_sequence)
            .unwrap_err(),
        WalletError::ValidationError(Invalid::Sequence)
    );
}

#[test]
fn a_transaction_that_does_not_signal_it_is_not_replaced() {
    let utxos = vec![utxo(1, 100_000, true), utxo(2, 50_000, false)];
    for sequence in [0xFFFF_FFFEu32, 0xFFFF_FFFF] {
        let mut last = unconfirmed();
        let mut tx = last.transaction.take().unwrap();
        tx.input[0].sequence = sequence;
        last.transaction = Some(tx);
        assert!(!can_replace(&last, &utxos));
        assert_eq!(
            bump_fee(&last, &utxos, WEIGHTS, &p2wpkh(9), 5_000, &None, Some(RbfValue::RbfDefault))
                .unwrap_err(),
            WalletError::IrreplaceableTransaction
        );
    }
}

#[test]
fn a_replacement_pays_more_than_the_transaction_replaced() {
    let utxos = vec![utxo(1, 100_000, true), utxo(2, 50_000, false)];
    let plan = bump_fee(
        &unconfirmed(),
        &utxos,
        WEIGHTS,
        &p2wpkh(9),
        3_001,
        &None,
        Some(RbfValue::RbfDefault),
    )
    .unwrap();
    assert!(plan.fee > 226);

    // A transaction with a witness of a thousand bytes: 452 + 2 + 1,004 weight units,
    // 365 virtual bytes. It paid 10,000, a little over 27 satoshis each.
    let mut heavy = unconfirmed();
    let mut tx = heavy.transaction.take().unwrap();
    tx.input[0].witness = vec![vec![0u8; 1_000]];
    assert_eq!(tx.vsize(), 365);
    heavy.transaction = Some(tx);
    heavy.fee = Some(10_000);
    assert!(rate_exceeds_of(29_000, 10_000, 365));
    // At 29 satoshis each the replacement, planned at 131 virtual bytes, would pay
    // 3,799: a higher rate, but a lower fee.
    assert_eq!(
        bump_fee(
            &heavy,
            &utxos,
            WEIGHTS,
            &p2wpkh(9),
            29_000,
            &Some(p2wpkh(8)),
            Some(RbfValue::RbfDefault)
        )
        .unwrap_err(),
        WalletError::ValidationError(Invalid::Fee)
    );
    // At 77 satoshis each it pays 10,087.
    let plan = bump_fee(
        &heavy,
        &utxos,
        WEIGHTS,
        &p2wpkh(9),
        77_000,
        &Some(p2wpkh(8)),
        Some(RbfValue::RbfDefault),
    )
    .unwrap();
    assert_eq!(plan.fee, 10_087);
}
