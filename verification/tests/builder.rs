use wallet_core::builder::{inputs_distinct, plan, Selection, MAX_SELECTION_ROUNDS};
use wallet_core::error::{Invalid, WalletError};
use wallet_core::fee::{dust_threshold_of, fee_of, MAX_MONEY};
use wallet_core::tx_builder::{
    check_params, finish, ForeignUtxo, LocalUtxo, PrevTx, SatisfactionWeights, ScriptAmount, TxParams,
};
use wallet_core::types::{
    ChangeSpendPolicy, Coin, FeePolicy, InputOrigin, KeychainKind, OutPoint, RbfValue, Script,
    TxOut,
};

fn script(bytes: &[u8]) -> Script {
    Script { bytes: bytes.to_vec() }
}

fn p2wpkh(tag: u8) -> Script {
    let mut bytes = vec![0x00, 0x14];
    bytes.extend_from_slice(&[tag; 20]);
    Script { bytes }
}

fn coin(tag: u8, value: u64, satisfaction_weight: u32) -> Coin {
    Coin {
        outpoint: OutPoint { txid: [tag; 32], vout: 0 },
        txout: TxOut { value, script_pubkey: script(&[0x51]) },
        satisfaction_weight,
        origin: InputOrigin::Wallet(KeychainKind::External),
    }
}

fn utxo(tag: u8, value: u64, keychain: KeychainKind) -> LocalUtxo {
    LocalUtxo {
        outpoint: OutPoint { txid: [tag; 32], vout: 0 },
        txout: TxOut { value, script_pubkey: p2wpkh(tag) },
        keychain,
        is_spent: false,
    }
}

fn params(recipients: Vec<ScriptAmount>, fee_policy: FeePolicy) -> TxParams {
    TxParams {
        recipients,
        utxos: vec![],
        foreign_utxos: vec![],
        unspendable: vec![],
        manually_selected_only: false,
        change_policy: ChangeSpendPolicy::ChangeAllowed,
        fee_policy,
        drain_wallet: false,
        drain_to: None,
        rbf: None,
        data: vec![],
    }
}

fn pay(tag: u8, amount: u64) -> ScriptAmount {
    ScriptAmount { script: p2wpkh(tag), amount }
}

const WEIGHTS: SatisfactionWeights = SatisfactionWeights { external: 76, internal: 76 };

fn total_in(p: &wallet_core::builder::TxBuildPlan) -> u64 {
    p.inputs.iter().map(|c| c.txout.value).sum()
}

fn total_out(p: &wallet_core::builder::TxBuildPlan) -> u64 {
    p.outputs.iter().map(|o| o.value).sum()
}

#[test]
fn one_input_one_recipient_pays_the_rate_and_returns_change() {
    // Overhead 40, input 160 + 76, recipient 4 * (8 + 1 + 22), change 4 * (8 + 1 + 1):
    // 440 weight units, 110 virtual bytes.
    let selection = Selection {
        required: vec![],
        optional: vec![coin(1, 100_000, 76)],
        outputs: vec![TxOut { value: 50_000, script_pubkey: p2wpkh(7) }],
        policy: FeePolicy::Rate(1000),
        change_script: script(&[0x51]),
        take_all: false,
        sequence: 0xFFFF_FFFF,
    };
    let p = plan(&selection).unwrap();
    assert_eq!(p.fee, 110);
    assert!(p.has_change);
    assert_eq!(p.outputs.len(), 2);
    assert_eq!(p.outputs[0].value, 50_000);
    assert_eq!(p.outputs[1].value, 49_890);
    assert_eq!(p.outputs[1].script_pubkey.bytes, vec![0x51]);
    assert_eq!(total_in(&p), 100_000);
    assert_eq!(total_in(&p), total_out(&p) + p.fee);
}

#[test]
fn the_builder_makes_the_same_plan_from_the_wallet() {
    let utxos = vec![utxo(1, 100_000, KeychainKind::External)];
    let p = finish(
        &params(vec![pay(7, 50_000)], FeePolicy::Rate(1000)),
        &utxos,
        WEIGHTS,
        &script(&[0x51]),
    )
    .unwrap();
    assert_eq!(p.fee, 110);
    assert_eq!(p.outputs[1].value, 49_890);
    assert_eq!(p.inputs.len(), 1);
    assert_eq!(p.inputs[0].outpoint.txid, [1u8; 32]);
    assert_eq!(p.inputs[0].origin, InputOrigin::Wallet(KeychainKind::External));
    assert_eq!(p.sequence, 0xFFFF_FFFF);
    assert_eq!(total_in(&p), total_out(&p) + p.fee);
}

#[test]
fn inputs_that_do_not_cover_the_outputs_give_no_plan() {
    let selection = Selection {
        required: vec![coin(1, 6_000, 76), coin(2, 4_000, 76)],
        optional: vec![],
        outputs: vec![TxOut { value: 20_000, script_pubkey: script(&[0x51]) }],
        policy: FeePolicy::Absolute(100),
        change_script: script(&[0x51]),
        take_all: false,
        sequence: 0xFFFF_FFFF,
    };
    match plan(&selection) {
        Err(WalletError::InsufficientFunds { needed, available }) => {
            assert_eq!(needed, 20_100);
            assert_eq!(available, 10_000);
        }
        other => panic!("{:?}", other),
    }
}

#[test]
fn manually_selected_only_does_not_pull_more_inputs() {
    let utxos = vec![
        utxo(1, 6_000, KeychainKind::External),
        utxo(2, 4_000, KeychainKind::External),
        utxo(3, 1_000_000, KeychainKind::External),
    ];
    let mut p = params(vec![pay(9, 20_000)], FeePolicy::Absolute(100));
    p.utxos = vec![utxos[0].outpoint, utxos[1].outpoint];
    p.manually_selected_only = true;
    match finish(&p, &utxos, WEIGHTS, &script(&[0x51])) {
        Err(WalletError::InsufficientFunds { needed, available }) => {
            assert_eq!(needed, 20_100);
            assert_eq!(available, 10_000);
        }
        other => panic!("{:?}", other),
    }
    p.manually_selected_only = false;
    let planned = finish(&p, &utxos, WEIGHTS, &script(&[0x51])).unwrap();
    assert_eq!(planned.inputs.len(), 3);
}

#[test]
fn an_absolute_fee_is_paid_exactly_where_change_is_made() {
    let utxos = vec![utxo(1, 100_000, KeychainKind::External)];
    let p = finish(
        &params(vec![pay(7, 50_000)], FeePolicy::Absolute(1_234)),
        &utxos,
        WEIGHTS,
        &p2wpkh(8),
    )
    .unwrap();
    assert!(p.has_change);
    assert_eq!(p.fee, 1_234);
    assert_eq!(p.outputs[1].value, 100_000 - 50_000 - 1_234);
}

#[test]
fn leftover_below_dust_goes_to_the_fee() {
    // The dust threshold of a 22-byte witness program is 3 * (67 + 8 + 1 + 22) = 294.
    assert_eq!(dust_threshold_of(&p2wpkh(8)), 294);
    let utxos = vec![utxo(1, 10_000, KeychainKind::External)];
    let p = finish(
        &params(vec![pay(7, 8_900)], FeePolicy::Absolute(1_000)),
        &utxos,
        WEIGHTS,
        &p2wpkh(8),
    )
    .unwrap();
    assert!(!p.has_change);
    assert_eq!(p.outputs.len(), 1);
    assert_eq!(p.fee, 1_100);
    assert_eq!(total_in(&p), total_out(&p) + p.fee);

    let q = finish(
        &params(vec![pay(7, 8_706)], FeePolicy::Absolute(1_000)),
        &utxos,
        WEIGHTS,
        &p2wpkh(8),
    )
    .unwrap();
    assert!(q.has_change);
    assert_eq!(q.outputs[1].value, 294);
    assert_eq!(q.fee, 1_000);
}

#[test]
fn inputs_are_drawn_in_order_until_they_suffice() {
    let utxos = vec![
        utxo(1, 30_000, KeychainKind::External),
        utxo(2, 30_000, KeychainKind::Internal),
        utxo(3, 30_000, KeychainKind::External),
        utxo(4, 30_000, KeychainKind::External),
    ];
    let p = finish(
        &params(vec![pay(7, 50_000)], FeePolicy::Absolute(500)),
        &utxos,
        WEIGHTS,
        &p2wpkh(8),
    )
    .unwrap();
    assert_eq!(p.inputs.len(), 2);
    assert_eq!(p.inputs[0].outpoint.txid, [1u8; 32]);
    assert_eq!(p.inputs[1].outpoint.txid, [2u8; 32]);
    assert_eq!(p.outputs[1].value, 9_500);
}

#[test]
fn the_change_policy_filters_the_pool() {
    let utxos = vec![
        utxo(1, 30_000, KeychainKind::External),
        utxo(2, 30_000, KeychainKind::Internal),
        utxo(3, 30_000, KeychainKind::External),
    ];
    let mut p = params(vec![pay(7, 50_000)], FeePolicy::Absolute(500));
    p.change_policy = ChangeSpendPolicy::ChangeForbidden;
    let planned = finish(&p, &utxos, WEIGHTS, &p2wpkh(8)).unwrap();
    assert_eq!(planned.inputs.len(), 2);
    assert_eq!(planned.inputs[1].outpoint.txid, [3u8; 32]);

    p.change_policy = ChangeSpendPolicy::OnlyChange;
    match finish(&p, &utxos, WEIGHTS, &p2wpkh(8)) {
        Err(WalletError::InsufficientFunds { needed, available }) => {
            assert_eq!(needed, 50_500);
            assert_eq!(available, 30_000);
        }
        other => panic!("{:?}", other),
    }
}

#[test]
fn unspendable_and_spent_outputs_are_left_alone() {
    let mut utxos = vec![
        utxo(1, 30_000, KeychainKind::External),
        utxo(2, 30_000, KeychainKind::External),
        utxo(3, 30_000, KeychainKind::External),
    ];
    utxos[0].is_spent = true;
    let mut p = params(vec![pay(7, 20_000)], FeePolicy::Absolute(500));
    p.unspendable = vec![utxos[1].outpoint];
    let planned = finish(&p, &utxos, WEIGHTS, &p2wpkh(8)).unwrap();
    assert_eq!(planned.inputs.len(), 1);
    assert_eq!(planned.inputs[0].outpoint.txid, [3u8; 32]);
}

#[test]
fn replaceable_builds_number_their_inputs_below_the_limit() {
    let utxos = vec![utxo(1, 100_000, KeychainKind::External)];
    let mut p = params(vec![pay(7, 50_000)], FeePolicy::Absolute(500));
    assert_eq!(finish(&p, &utxos, WEIGHTS, &p2wpkh(8)).unwrap().sequence, 0xFFFF_FFFF);
    p.rbf = Some(RbfValue::RbfDefault);
    assert_eq!(finish(&p, &utxos, WEIGHTS, &p2wpkh(8)).unwrap().sequence, 0xFFFF_FFFD);
    p.rbf = Some(RbfValue::Value(7));
    assert_eq!(finish(&p, &utxos, WEIGHTS, &p2wpkh(8)).unwrap().sequence, 7);
    p.rbf = Some(RbfValue::Value(0xFFFF_FFFD));
    assert!(finish(&p, &utxos, WEIGHTS, &p2wpkh(8)).unwrap().sequence < 0xFFFF_FFFE);
    p.rbf = Some(RbfValue::Value(0xFFFF_FFFE));
    assert_eq!(
        finish(&p, &utxos, WEIGHTS, &p2wpkh(8)).unwrap_err(),
        WalletError::ValidationError(Invalid::Sequence)
    );
    p.rbf = Some(RbfValue::Value(0xFFFF_FFFF));
    assert_eq!(
        finish(&p, &utxos, WEIGHTS, &p2wpkh(8)).unwrap_err(),
        WalletError::ValidationError(Invalid::Sequence)
    );
}

#[test]
fn a_transaction_that_pays_nobody_is_refused() {
    let utxos = vec![utxo(1, 100_000, KeychainKind::External)];
    let p = params(vec![], FeePolicy::Absolute(500));
    assert_eq!(finish(&p, &utxos, WEIGHTS, &p2wpkh(8)).unwrap_err(), WalletError::NoRecipients);
    let mut q = params(vec![], FeePolicy::Absolute(500));
    q.drain_to = Some(p2wpkh(9));
    assert_eq!(finish(&q, &utxos, WEIGHTS, &p2wpkh(8)).unwrap_err(), WalletError::NoRecipients);
}

#[test]
fn draining_sweeps_every_eligible_output_into_one() {
    let utxos = vec![
        utxo(1, 30_000, KeychainKind::External),
        utxo(2, 40_000, KeychainKind::Internal),
        utxo(3, 50_000, KeychainKind::External),
    ];
    let mut p = params(vec![], FeePolicy::Absolute(700));
    p.drain_wallet = true;
    p.drain_to = Some(p2wpkh(9));
    let planned = finish(&p, &utxos, WEIGHTS, &p2wpkh(8)).unwrap();
    assert_eq!(planned.inputs.len(), 3);
    assert_eq!(planned.outputs.len(), 1);
    assert_eq!(planned.outputs[0].value, 119_300);
    assert_eq!(planned.outputs[0].script_pubkey.bytes, p2wpkh(9).bytes);
    assert_eq!(planned.fee, 700);
}

#[test]
fn draining_with_recipients_pays_them_first() {
    let utxos = vec![
        utxo(1, 30_000, KeychainKind::External),
        utxo(2, 40_000, KeychainKind::Internal),
    ];
    let mut p = params(vec![pay(7, 10_000)], FeePolicy::Absolute(700));
    p.drain_wallet = true;
    p.drain_to = Some(p2wpkh(9));
    let planned = finish(&p, &utxos, WEIGHTS, &p2wpkh(8)).unwrap();
    assert_eq!(planned.inputs.len(), 2);
    assert_eq!(planned.outputs.len(), 2);
    assert_eq!(planned.outputs[0].value, 10_000);
    assert_eq!(planned.outputs[1].value, 59_300);
}

#[test]
fn a_sweep_of_dust_is_insufficient() {
    let utxos = vec![utxo(1, 900, KeychainKind::External)];
    let mut p = params(vec![], FeePolicy::Absolute(700));
    p.drain_wallet = true;
    p.drain_to = Some(p2wpkh(9));
    match finish(&p, &utxos, WEIGHTS, &p2wpkh(8)) {
        Err(WalletError::InsufficientFunds { needed, available }) => {
            assert_eq!(needed, 700 + 294);
            assert_eq!(available, 900);
        }
        other => panic!("{:?}", other),
    }
}

#[test]
fn embedded_data_becomes_an_unspendable_output_of_nothing() {
    let utxos = vec![utxo(1, 100_000, KeychainKind::External)];
    let mut p = params(vec![pay(7, 50_000)], FeePolicy::Absolute(500));
    p.data = vec![0xde, 0xad, 0xbe, 0xef];
    let planned = finish(&p, &utxos, WEIGHTS, &p2wpkh(8)).unwrap();
    assert_eq!(planned.outputs.len(), 3);
    assert_eq!(planned.outputs[1].value, 0);
    assert_eq!(planned.outputs[1].script_pubkey.bytes, vec![0x6a, 0x04, 0xde, 0xad, 0xbe, 0xef]);
    assert_eq!(planned.outputs[2].value, 49_500);

    let mut only = params(vec![], FeePolicy::Absolute(500));
    only.data = vec![1u8; 80];
    let planned = finish(&only, &utxos, WEIGHTS, &p2wpkh(8)).unwrap();
    assert_eq!(planned.outputs[0].script_pubkey.bytes[..3], [0x6a, 0x4c, 80]);
    assert_eq!(planned.outputs[0].script_pubkey.bytes.len(), 83);
}

#[test]
fn a_payment_of_nothing_needs_embedded_data() {
    let utxos = vec![utxo(1, 100_000, KeychainKind::External)];
    let below = WalletError::ValidationError(Invalid::RecipientAmount);
    let mut p = params(vec![pay(7, 0)], FeePolicy::Absolute(500));
    assert_eq!(finish(&p, &utxos, WEIGHTS, &p2wpkh(8)).unwrap_err(), below);
    // Data beside it does not make a payment of nothing to a key spendable.
    p.data = vec![1, 2, 3];
    assert_eq!(finish(&p, &utxos, WEIGHTS, &p2wpkh(8)).unwrap_err(), below);
    // A payment of nothing to a script that carries the data itself is in order.
    let carrier = ScriptAmount { script: script(&[0x6a, 0x03, 1, 2, 3]), amount: 0 };
    let q = params(vec![pay(7, 50_000), carrier], FeePolicy::Absolute(500));
    let planned = finish(&q, &utxos, WEIGHTS, &p2wpkh(8)).unwrap();
    assert_eq!(planned.outputs[1].value, 0);
    assert_eq!(planned.outputs[1].script_pubkey.bytes, vec![0x6a, 0x03, 1, 2, 3]);
}

#[test]
fn a_payment_below_the_dust_threshold_is_rejected() {
    let utxos = vec![utxo(1, 100_000, KeychainKind::External)];
    let below = WalletError::ValidationError(Invalid::RecipientAmount);
    // A witness program of twenty bytes: 3 * (67 + 8 + 1 + 22) = 294.
    assert_eq!(dust_threshold_of(&p2wpkh(7)), 294);
    for amount in [1u64, 100, 293] {
        let p = params(vec![pay(7, amount)], FeePolicy::Absolute(500));
        assert_eq!(check_params(&p), Some(below));
        assert_eq!(finish(&p, &utxos, WEIGHTS, &p2wpkh(8)).unwrap_err(), below);
    }
    let p = params(vec![pay(7, 294)], FeePolicy::Absolute(500));
    assert_eq!(check_params(&p), None);
    let planned = finish(&p, &utxos, WEIGHTS, &p2wpkh(8)).unwrap();
    assert_eq!(planned.outputs[0].value, 294);
    // Pay to the hash of a key, twenty-five bytes: 3 * (148 + 8 + 1 + 25) = 546.
    let mut legacy = vec![0x76, 0xa9, 0x14];
    legacy.extend_from_slice(&[5u8; 20]);
    legacy.extend_from_slice(&[0x88, 0xac]);
    let to = |amount: u64| ScriptAmount { script: script(&legacy), amount };
    let p = params(vec![pay(7, 50_000), to(545)], FeePolicy::Absolute(500));
    assert_eq!(finish(&p, &utxos, WEIGHTS, &p2wpkh(8)).unwrap_err(), below);
    let p = params(vec![pay(7, 50_000), to(546)], FeePolicy::Absolute(500));
    let planned = finish(&p, &utxos, WEIGHTS, &p2wpkh(8)).unwrap();
    // No output of the plan is below the threshold of its script.
    for o in planned.outputs.iter() {
        assert!(u128::from(o.value) >= dust_threshold_of(&o.script_pubkey));
    }
}

#[test]
fn a_build_without_recipients_is_refused_before_anything_else() {
    let utxos = vec![utxo(1, 100_000, KeychainKind::External)];
    let mut p = params(vec![], FeePolicy::Absolute(500));
    p.rbf = Some(RbfValue::Value(0xFFFF_FFFF));
    p.utxos = vec![OutPoint { txid: [9u8; 32], vout: 0 }];
    p.foreign_utxos = vec![ForeignUtxo {
        outpoint: OutPoint { txid: [4u8; 32], vout: 0 },
        witness_utxo: None,
        non_witness_utxo: None,
        satisfaction_weight: 100,
    }];
    assert_eq!(check_params(&p), Some(WalletError::NoRecipients));
    assert_eq!(finish(&p, &utxos, WEIGHTS, &p2wpkh(8)).unwrap_err(), WalletError::NoRecipients);
    p.recipients = vec![pay(7, 50_000)];
    assert_eq!(
        finish(&p, &utxos, WEIGHTS, &p2wpkh(8)).unwrap_err(),
        WalletError::ValidationError(Invalid::Sequence)
    );
    p.rbf = None;
    assert_eq!(
        finish(&p, &utxos, WEIGHTS, &p2wpkh(8)).unwrap_err(),
        WalletError::ValidationError(Invalid::ForeignUtxo)
    );
    p.foreign_utxos = vec![];
    assert_eq!(
        finish(&p, &utxos, WEIGHTS, &p2wpkh(8)).unwrap_err(),
        WalletError::ValidationError(Invalid::OutPoint)
    );
}

#[test]
fn required_outputs_must_be_known_and_named_once() {
    let utxos = vec![utxo(1, 100_000, KeychainKind::External)];
    let mut p = params(vec![pay(7, 50_000)], FeePolicy::Absolute(500));
    p.utxos = vec![OutPoint { txid: [9u8; 32], vout: 0 }];
    assert_eq!(
        finish(&p, &utxos, WEIGHTS, &p2wpkh(8)).unwrap_err(),
        WalletError::ValidationError(Invalid::OutPoint)
    );
    p.utxos = vec![utxos[0].outpoint, utxos[0].outpoint];
    assert_eq!(
        finish(&p, &utxos, WEIGHTS, &p2wpkh(8)).unwrap_err(),
        WalletError::ValidationError(Invalid::OutPoint)
    );
    p.utxos = vec![utxos[0].outpoint];
    let planned = finish(&p, &utxos, WEIGHTS, &p2wpkh(8)).unwrap();
    assert_eq!(planned.inputs.len(), 1);
}

#[test]
fn foreign_inputs_need_the_output_they_spend() {
    let utxos = vec![utxo(1, 1_000, KeychainKind::External)];
    let point = OutPoint { txid: [5u8; 32], vout: 1 };
    let mut p = params(vec![pay(7, 50_000)], FeePolicy::Absolute(500));
    p.foreign_utxos = vec![ForeignUtxo {
        outpoint: point,
        witness_utxo: None,
        non_witness_utxo: None,
        satisfaction_weight: 108,
    }];
    assert_eq!(
        finish(&p, &utxos, WEIGHTS, &p2wpkh(8)).unwrap_err(),
        WalletError::ValidationError(Invalid::ForeignUtxo)
    );
    let outputs = vec![
        TxOut { value: 1, script_pubkey: p2wpkh(1) },
        TxOut { value: 60_000, script_pubkey: p2wpkh(2) },
    ];
    p.foreign_utxos[0].non_witness_utxo = Some(PrevTx { txid: [6u8; 32], output: outputs.clone() });
    assert_eq!(
        finish(&p, &utxos, WEIGHTS, &p2wpkh(8)).unwrap_err(),
        WalletError::ValidationError(Invalid::ForeignUtxo)
    );
    p.foreign_utxos[0].non_witness_utxo = Some(PrevTx { txid: [5u8; 32], output: vec![] });
    assert_eq!(
        finish(&p, &utxos, WEIGHTS, &p2wpkh(8)).unwrap_err(),
        WalletError::ValidationError(Invalid::ForeignUtxo)
    );
    p.foreign_utxos[0].non_witness_utxo = Some(PrevTx { txid: [5u8; 32], output: outputs });
    let planned = finish(&p, &utxos, WEIGHTS, &p2wpkh(8)).unwrap();
    assert_eq!(planned.inputs.len(), 1);
    assert_eq!(planned.inputs[0].origin, InputOrigin::Foreign);
    assert_eq!(planned.inputs[0].txout.value, 60_000);
    assert_eq!(planned.inputs[0].satisfaction_weight, 108);
    assert_eq!(planned.outputs[1].value, 9_500);

    p.foreign_utxos[0].witness_utxo = Some(TxOut { value: 70_000, script_pubkey: p2wpkh(3) });
    p.foreign_utxos[0].non_witness_utxo = None;
    let planned = finish(&p, &utxos, WEIGHTS, &p2wpkh(8)).unwrap();
    assert_eq!(planned.inputs[0].txout.value, 70_000);
}

#[test]
fn selection_gives_up_after_the_allowed_rounds() {
    let coins: Vec<Coin> = (0..MAX_SELECTION_ROUNDS + 2).map(|_| coin(1, 200, 76)).collect();
    let selection = Selection {
        required: vec![],
        optional: coins,
        outputs: vec![TxOut { value: 1_000_000, script_pubkey: p2wpkh(7) }],
        policy: FeePolicy::Absolute(100),
        change_script: p2wpkh(8),
        take_all: false,
        sequence: 0xFFFF_FFFF,
    };
    assert_eq!(plan(&selection).unwrap_err(), WalletError::FeeEstimationFailed);

    let coins: Vec<Coin> = (0..MAX_SELECTION_ROUNDS).map(|_| coin(1, 200, 76)).collect();
    let selection = Selection {
        required: vec![],
        optional: coins,
        outputs: vec![TxOut { value: 1_000_000, script_pubkey: p2wpkh(7) }],
        policy: FeePolicy::Absolute(100),
        change_script: p2wpkh(8),
        take_all: false,
        sequence: 0xFFFF_FFFF,
    };
    match plan(&selection) {
        Err(WalletError::InsufficientFunds { needed, available }) => {
            assert_eq!(needed, 1_000_100);
            assert_eq!(available, 200_000);
        }
        other => panic!("{:?}", other),
    }
}

#[test]
fn the_fee_grows_with_every_input_under_a_rate() {
    // Three inputs of 236 weight units, one output of 124, overhead 40, change 124:
    // 996 weight units are 249 virtual bytes; at 2.5 satoshis each, 623 rounded up.
    let selection = Selection {
        required: vec![],
        optional: vec![coin(1, 20_000, 76), coin(2, 20_000, 76), coin(3, 20_000, 76)],
        outputs: vec![TxOut { value: 45_000, script_pubkey: p2wpkh(7) }],
        policy: FeePolicy::Rate(2500),
        change_script: p2wpkh(8),
        take_all: false,
        sequence: 0xFFFF_FFFF,
    };
    let p = plan(&selection).unwrap();
    assert_eq!(p.inputs.len(), 3);
    assert_eq!(p.fee, 623);
    assert_eq!(p.outputs[1].value, 60_000 - 45_000 - 623);
    assert_eq!(fee_of(FeePolicy::Rate(2500), 996), 623);
    assert_eq!(fee_of(FeePolicy::Rate(1000), 440), 110);
    assert_eq!(fee_of(FeePolicy::Rate(1), 4), 1);
    assert_eq!(fee_of(FeePolicy::Rate(0), 4_000), 0);
    assert_eq!(fee_of(FeePolicy::Rate(u64::MAX), u128::MAX), u64::MAX);
    assert_eq!(fee_of(FeePolicy::Absolute(5), u128::MAX), 5);
}

#[test]
fn amounts_beyond_all_coins_are_refused() {
    let selection = Selection {
        required: vec![coin(1, MAX_MONEY, 76), coin(2, 1, 76)],
        optional: vec![],
        outputs: vec![TxOut { value: 1_000, script_pubkey: p2wpkh(7) }],
        policy: FeePolicy::Absolute(100),
        change_script: p2wpkh(8),
        take_all: false,
        sequence: 0xFFFF_FFFF,
    };
    assert_eq!(plan(&selection).unwrap_err(), WalletError::ValidationError(Invalid::Amount));
    let selection = Selection {
        required: vec![coin(1, MAX_MONEY, 76)],
        optional: vec![],
        outputs: vec![TxOut { value: u64::MAX, script_pubkey: p2wpkh(7) }],
        policy: FeePolicy::Absolute(100),
        change_script: p2wpkh(8),
        take_all: false,
        sequence: 0xFFFF_FFFF,
    };
    assert_eq!(plan(&selection).unwrap_err(), WalletError::ValidationError(Invalid::Amount));
}

#[test]
fn no_plan_spends_an_outpoint_twice() {
    let utxos = vec![
        utxo(1, 30_000, KeychainKind::External),
        utxo(2, 30_000, KeychainKind::Internal),
        utxo(3, 30_000, KeychainKind::External),
        utxo(4, 30_000, KeychainKind::External),
    ];
    let mut p = params(vec![pay(7, 100_000)], FeePolicy::Absolute(500));
    p.utxos = vec![utxos[2].outpoint, utxos[0].outpoint];
    p.foreign_utxos = vec![ForeignUtxo {
        outpoint: OutPoint { txid: [9u8; 32], vout: 0 },
        witness_utxo: Some(TxOut { value: 10_000, script_pubkey: p2wpkh(9) }),
        non_witness_utxo: None,
        satisfaction_weight: 108,
    }];
    let planned = finish(&p, &utxos, WEIGHTS, &p2wpkh(8)).unwrap();
    let points: Vec<([u8; 32], u32)> =
        planned.inputs.iter().map(|c| (c.outpoint.txid, c.outpoint.vout)).collect();
    assert_eq!(
        points,
        vec![([3u8; 32], 0), ([1u8; 32], 0), ([9u8; 32], 0), ([2u8; 32], 0), ([4u8; 32], 0)]
    );
    assert_eq!(planned.outputs[1].value, 130_000 - 100_500);
}

#[test]
fn no_outpoint_is_spent_twice() {
    // A wallet that reports one output twice: drawing both would spend it twice.
    let twice = vec![utxo(1, 30_000, KeychainKind::External), utxo(1, 30_000, KeychainKind::External)];
    let p = params(vec![pay(7, 50_000)], FeePolicy::Absolute(500));
    assert_eq!(
        finish(&p, &twice, WEIGHTS, &p2wpkh(8)).unwrap_err(),
        WalletError::ValidationError(Invalid::OutPoint)
    );
    // While one of them is enough, the other is not drawn.
    let small = params(vec![pay(7, 20_000)], FeePolicy::Absolute(500));
    let planned = finish(&small, &twice, WEIGHTS, &p2wpkh(8)).unwrap();
    assert_eq!(planned.inputs.len(), 1);
    // A foreign input at the outpoint of an output of the wallet that is drawn too.
    let utxos = vec![utxo(1, 30_000, KeychainKind::External)];
    let mut q = params(vec![pay(7, 50_000)], FeePolicy::Absolute(500));
    q.foreign_utxos = vec![ForeignUtxo {
        outpoint: OutPoint { txid: [1u8; 32], vout: 0 },
        witness_utxo: Some(TxOut { value: 40_000, script_pubkey: p2wpkh(4) }),
        non_witness_utxo: None,
        satisfaction_weight: 100,
    }];
    assert_eq!(
        finish(&q, &utxos, WEIGHTS, &p2wpkh(8)).unwrap_err(),
        WalletError::ValidationError(Invalid::OutPoint)
    );
    q.foreign_utxos[0].outpoint = OutPoint { txid: [1u8; 32], vout: 1 };
    let planned = finish(&q, &utxos, WEIGHTS, &p2wpkh(8)).unwrap();
    assert_eq!(planned.inputs.len(), 2);
    assert!(inputs_distinct(&planned.inputs));
    assert!(!inputs_distinct(&vec![coin(1, 5, 0), coin(2, 5, 0), coin(1, 6, 0)]));
    assert!(inputs_distinct(&vec![]));
}
