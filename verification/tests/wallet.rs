use wallet_core::api::Api;
use wallet_core::error::{Invalid, WalletError};
use wallet_core::psbt::{Psbt, SignOptions};
use wallet_core::tx::{Transaction, TxIn};
use wallet_core::tx_builder::{LocalUtxo, ScriptAmount};
use wallet_core::types::{
    fee_policy_of, ChangeSpendPolicy, FeePolicy, KeychainKind, Network, OutPoint, RbfValue, Script, TxOut,
};
use wallet_core::wallet::{AddressIndex, Balance, BlockTime, TransactionDetails, Wallet};

const TPRV: &str = "tprv8ZgxMBicQKsPdy6LMhUtFHAgpocR8GC6QmwMSFpZs7h6Eziw3SpThFfczTDh5rW2krkqffa11UpX3XkeTTB2FvzZKWXqPY54Y6Rq4AQ5R8L";

fn external() -> String {
    format!("wpkh({}/84'/1'/0'/0/*)", TPRV)
}

fn internal() -> String {
    format!("wpkh({}/84'/1'/0'/1/*)", TPRV)
}

fn wallet() -> Wallet {
    Api::create_wallet(external(), Some(internal()), Network::Testnet).unwrap()
}

fn theirs() -> bdk::Wallet<bdk::database::MemoryDatabase> {
    bdk::Wallet::new(
        external().as_str(),
        Some(internal().as_str()),
        bdk::bitcoin::Network::Testnet,
        bdk::database::MemoryDatabase::new(),
    )
    .unwrap()
}

fn p2wpkh(tag: u8) -> Script {
    let mut bytes = vec![0x00, 0x14];
    bytes.extend_from_slice(&[tag; 20]);
    Script { bytes }
}

fn utxo(tag: u8, value: u64, keychain: KeychainKind) -> LocalUtxo {
    LocalUtxo {
        outpoint: OutPoint { txid: [tag; 32], vout: 0 },
        txout: TxOut { value, script_pubkey: p2wpkh(tag) },
        keychain,
        is_spent: false,
    }
}

fn details(tag: u8, confirmed: Option<u32>, coinbase: bool) -> TransactionDetails {
    let previous_output = if coinbase {
        OutPoint { txid: [0u8; 32], vout: 0xFFFF_FFFF }
    } else {
        OutPoint { txid: [0xee; 32], vout: 0 }
    };
    TransactionDetails {
        txid: [tag; 32],
        transaction: Some(Transaction {
            version: 1,
            lock_time: 0,
            input: vec![TxIn {
                previous_output,
                script_sig: Script { bytes: vec![] },
                sequence: 0xFFFF_FFFF,
                witness: vec![],
            }],
            output: vec![TxOut { value: 1, script_pubkey: p2wpkh(tag) }],
        }),
        received: 0,
        sent: 0,
        fee: None,
        confirmation_time: confirmed.map(|height| BlockTime { height, timestamp: 0 }),
    }
}

#[test]
fn a_wallet_needs_descriptors_that_give_addresses() {
    let mut deep: bdk::bitcoin::util::bip32::ExtendedPrivKey = TPRV.parse().unwrap();
    deep.depth = 255;
    assert_eq!(
        Api::create_wallet(format!("wpkh({}/0'/*)", deep), None, Network::Testnet).unwrap_err(),
        WalletError::ValidationError(Invalid::KeyText)
    );
    let w = wallet();
    assert_eq!(Api::wallet_network(&w), Network::Testnet);
    assert!(w.utxos.is_empty() && w.transactions.is_empty() && w.scripts.is_empty());
    assert_eq!(w.last_external, None);
    assert!(Api::create_wallet(external(), None, Network::Testnet).is_ok());
    let wrong = WalletError::ValidationError(Invalid::KeyText);
    assert_eq!(
        Api::create_wallet("wpkh(x)".to_string(), None, Network::Testnet).unwrap_err(),
        wrong
    );
    assert_eq!(
        Api::create_wallet(external(), Some("nothing".to_string()), Network::Testnet).unwrap_err(),
        wrong
    );
    assert_eq!(Api::create_wallet(external(), None, Network::Bitcoin).unwrap_err(), wrong);
    assert_eq!(
        Api::get_descriptor_for_keychain(&w, KeychainKind::Internal).unwrap(),
        (Api::create_descriptor(&internal(), Network::Testnet).unwrap(), Network::Testnet)
    );
    let single = Api::create_wallet(external(), None, Network::Testnet).unwrap();
    assert_eq!(
        Api::get_descriptor_for_keychain(&single, KeychainKind::Internal).unwrap().0,
        Api::create_descriptor(&external(), Network::Testnet).unwrap()
    );
}

#[test]
fn addresses_are_handed_out_in_order() {
    let mut w = wallet();
    let t = theirs();
    let first = Api::get_address(&mut w, AddressIndex::New).unwrap();
    assert_eq!(first.index, 0);
    assert_eq!(first.keychain, KeychainKind::External);
    assert_eq!(
        first.address,
        t.get_address(bdk::wallet::AddressIndex::Peek(0)).unwrap().address.to_string()
    );
    assert_eq!(w.last_external, Some(0));
    assert_eq!(w.scripts.len(), 1);
    assert!(Api::is_mine(&w.scripts[0].clone(), &w));
    assert!(!Api::is_mine(&p2wpkh(1), &w));

    let second = Api::get_address(&mut w, AddressIndex::New).unwrap();
    assert_eq!(second.index, 1);
    assert_ne!(second.address, first.address);
    // The last one is handed out again while nothing pays to it.
    let again = Api::get_address(&mut w, AddressIndex::LastUnused).unwrap();
    assert_eq!(again.index, 1);
    assert_eq!(again.address, second.address);
    assert_eq!(w.scripts.len(), 2);
    let paid = w.scripts[1].clone();
    w.transactions.push(TransactionDetails {
        txid: [3u8; 32],
        transaction: Some(Transaction {
            version: 1,
            lock_time: 0,
            input: vec![],
            output: vec![TxOut { value: 5, script_pubkey: paid }],
        }),
        received: 5,
        sent: 0,
        fee: None,
        confirmation_time: None,
    });
    let next = Api::get_address(&mut w, AddressIndex::LastUnused).unwrap();
    assert_eq!(next.index, 2);
    assert_eq!(w.last_external, Some(2));

    let peek = Api::get_address(&mut w, AddressIndex::Peek(40)).unwrap();
    assert_eq!(peek.index, 40);
    assert_eq!(w.last_external, Some(2));
    assert_eq!(
        peek.address,
        t.get_address(bdk::wallet::AddressIndex::Peek(40)).unwrap().address.to_string()
    );
    let reset = Api::get_address(&mut w, AddressIndex::Reset(9)).unwrap();
    assert_eq!(reset.index, 9);
    assert_eq!(w.last_external, Some(9));
    assert_eq!(w.last_internal, None);

    let change = Api::get_internal_address(&mut w, AddressIndex::LastUnused).unwrap();
    assert_eq!(change.index, 0);
    assert_eq!(change.keychain, KeychainKind::Internal);
    assert_eq!(
        change.address,
        t.get_internal_address(bdk::wallet::AddressIndex::Peek(0)).unwrap().address.to_string()
    );
    assert_eq!(w.last_internal, Some(0));
    assert_eq!(w.last_external, Some(9));

    let out = WalletError::ValidationError(Invalid::PathIndex);
    assert_eq!(Api::get_address(&mut w, AddressIndex::Peek(0x8000_0000)).unwrap_err(), out);
    assert_eq!(Api::get_address(&mut w, AddressIndex::Reset(0xFFFF_FFFF)).unwrap_err(), out);
    assert_eq!(w.last_external, Some(9));
    w.last_external = Some(0x7FFF_FFFF);
    assert_eq!(Api::get_address(&mut w, AddressIndex::New).unwrap_err(), out);
}

#[test]
fn the_balance_tells_confirmed_from_pending() {
    let mut w = wallet();
    assert_eq!(
        Api::get_balance(&w),
        Balance {
            immature: 0,
            trusted_pending: 0,
            untrusted_pending: 0,
            confirmed: 0,
            spendable: 0,
            total: 0
        }
    );
    w.utxos = vec![
        utxo(1, 1_000, KeychainKind::External),
        utxo(2, 200, KeychainKind::External),
        utxo(3, 30, KeychainKind::Internal),
        utxo(4, 4, KeychainKind::External),
        utxo(5, 50_000, KeychainKind::External),
        utxo(6, 600_000, KeychainKind::Internal),
    ];
    w.utxos[4].is_spent = true;
    w.transactions = vec![
        details(1, Some(100), false),
        details(2, None, false),
        details(3, None, false),
        details(4, Some(150), true),
        details(5, Some(100), false),
    ];
    w.sync_height = Some(200);
    let b = Api::get_balance(&w);
    assert_eq!(b.confirmed, 1_000);
    assert_eq!(b.untrusted_pending, 200);
    assert_eq!(b.trusted_pending, 600_030);
    assert_eq!(b.immature, 4);
    assert_eq!(b.spendable, 601_030);
    assert_eq!(b.total, 601_234);
    w.sync_height = Some(250);
    assert_eq!(Api::get_balance(&w).immature, 0);
    assert_eq!(Api::get_balance(&w).confirmed, 1_004);
    w.sync_height = Some(249);
    assert_eq!(Api::get_balance(&w).immature, 4);

    let unspent = Api::list_unspent(&w);
    assert_eq!(unspent.len(), 5);
    assert!(unspent.iter().all(|u| !u.is_spent));
    assert_eq!(unspent[4].outpoint.txid, [6u8; 32]);
    assert_eq!(Api::list_unspent_outputs(&w).len(), 5);

    let raw = Api::get_transactions(&w, true);
    assert_eq!(raw.len(), 5);
    assert!(raw.iter().all(|d| d.transaction.is_some()));
    let plain = Api::get_transactions(&w, false);
    assert!(plain.iter().all(|d| d.transaction.is_none()));
    assert_eq!(plain[3].confirmation_time, Some(BlockTime { height: 150, timestamp: 0 }));
    assert_eq!(plain[3].txid, [4u8; 32]);
}

fn build(
    w: &mut Wallet,
    amount: u64,
    fee_policy: FeePolicy,
    drain_to: Option<Script>,
    rbf: Option<RbfValue>,
) -> Result<wallet_core::api::TxBuilderResult, WalletError> {
    Api::tx_builder_finish(
        w,
        vec![ScriptAmount { script: p2wpkh(0x77), amount }],
        vec![],
        None,
        vec![],
        ChangeSpendPolicy::ChangeAllowed,
        false,
        fee_policy,
        false,
        drain_to,
        rbf,
        vec![],
    )
}

#[test]
fn the_wallet_builds_an_unsigned_transaction() {
    let mut w = wallet();
    w.utxos = vec![utxo(1, 100_000, KeychainKind::External)];
    w.scripts = vec![p2wpkh(1)];
    let r = build(&mut w, 50_000, FeePolicy::Rate(1000), None, Some(RbfValue::RbfDefault)).unwrap();
    let tx = r.psbt.unsigned_tx();
    // Overhead 40, input 160 + 112, two outputs of 124: 560 weight units, 140 virtual bytes.
    assert_eq!(r.details.fee, Some(140));
    assert_eq!(r.psbt.fee_amount(), Some(140));
    assert_eq!(tx.input.len(), 1);
    assert_eq!(tx.input[0].previous_output.txid, [1u8; 32]);
    assert_eq!(tx.input[0].sequence, 0xFFFF_FFFD);
    assert!(tx.input[0].script_sig.bytes.is_empty() && tx.input[0].witness.is_empty());
    assert_eq!(tx.output.len(), 2);
    assert_eq!(tx.output[0].value, 50_000);
    assert_eq!(tx.output[1].value, 49_860);
    assert_eq!(tx.version, 1);
    assert_eq!(tx.lock_time, 0);
    assert_eq!(r.psbt.inputs()[0].witness_utxo.as_ref().unwrap().value, 100_000);
    assert_eq!(r.details.sent, 100_000);
    assert_eq!(r.details.received, 49_860);
    assert_eq!(r.details.txid, tx.txid());
    assert_eq!(r.details.confirmation_time, None);
    // The change went to the first change address, which is now the wallet's.
    let change = theirs().get_internal_address(bdk::wallet::AddressIndex::Peek(0)).unwrap();
    assert_eq!(tx.output[1].script_pubkey.bytes, change.address.script_pubkey().to_bytes());
    assert_eq!(w.last_internal, Some(0));
    assert_eq!(w.scripts.len(), 2);
    assert!(!r.psbt.is_complete());
    assert_eq!(Psbt::from_plan(&wallet_core::builder::TxBuildPlan {
        inputs: vec![],
        outputs: vec![TxOut { value: 1, script_pubkey: p2wpkh(1) }],
        has_change: false,
        fee: 0,
        sequence: 0,
    })
    .unwrap_err(), WalletError::ValidationError(Invalid::PsbtStructure));
}

#[test]
fn a_failed_build_leaves_the_wallet_as_it_was() {
    let mut w = wallet();
    w.utxos = vec![utxo(1, 100_000, KeychainKind::External)];
    match build(&mut w, 500_000, FeePolicy::Absolute(100), None, None) {
        Err(WalletError::InsufficientFunds { needed, available }) => {
            assert_eq!(needed, 500_100);
            assert_eq!(available, 100_000);
        }
        other => panic!("{:?}", other.map(|r| r.details)),
    }
    assert_eq!(w.last_internal, None);
    assert!(w.scripts.is_empty());
    // With a place of the caller's for leftover, no change address is taken.
    let r = build(&mut w, 50_000, FeePolicy::Absolute(100), Some(p2wpkh(0x55)), None).unwrap();
    assert_eq!(r.psbt.unsigned_tx().output[1].script_pubkey.bytes, p2wpkh(0x55).bytes);
    assert_eq!(r.psbt.unsigned_tx().input[0].sequence, 0xFFFF_FFFF);
    assert_eq!(r.details.received, 0);
    assert_eq!(w.last_internal, None);
    let mut broken = wallet();
    broken.descriptor = "nothing".to_string();
    assert_eq!(
        build(&mut broken, 50_000, FeePolicy::Absolute(100), None, None).map(|r| r.details).unwrap_err(),
        WalletError::Generic
    );
}

#[test]
fn the_wallet_replaces_its_own_unconfirmed_transaction() {
    let mut w = wallet();
    w.utxos = vec![utxo(1, 100_000, KeychainKind::External), utxo(2, 50_000, KeychainKind::External)];
    w.utxos[0].is_spent = true;
    w.scripts = vec![p2wpkh(1), p2wpkh(2), p2wpkh(8)];
    let tx = Transaction {
        version: 1,
        lock_time: 0,
        input: vec![TxIn {
            previous_output: OutPoint { txid: [1u8; 32], vout: 0 },
            script_sig: Script { bytes: vec![] },
            sequence: 0xFFFF_FFFD,
            witness: vec![],
        }],
        output: vec![
            TxOut { value: 50_000, script_pubkey: p2wpkh(7) },
            TxOut { value: 49_774, script_pubkey: p2wpkh(8) },
        ],
    };
    w.transactions = vec![TransactionDetails {
        txid: [0xaa; 32],
        transaction: Some(tx),
        received: 49_774,
        sent: 100_000,
        fee: Some(226),
        confirmation_time: None,
    }];
    assert_eq!(
        Api::bump_fee_tx_builder_finish([0xbb; 32], 5_000, None, &mut w, None)
            .map(|r| r.details)
            .unwrap_err(),
        WalletError::IrreplaceableTransaction
    );
    assert_eq!(
        Api::bump_fee_tx_builder_finish([0xaa; 32], 3_000, None, &mut w, None)
            .map(|r| r.details)
            .unwrap_err(),
        WalletError::ValidationError(Invalid::FeeRate)
    );
    assert_eq!(w.last_internal, None);
    let r = Api::bump_fee_tx_builder_finish(
        [0xaa; 32],
        5_000,
        Some(p2wpkh(8)),
        &mut w,
        Some(RbfValue::RbfDefault),
    )
    .unwrap();
    // Overhead 40, one input of 272, two outputs of 124: 560 weight units, 140
    // virtual bytes, 700 satoshis.
    assert_eq!(r.details.fee, Some(700));
    let tx = r.psbt.unsigned_tx();
    assert_eq!(tx.input.len(), 1);
    assert_eq!(tx.output[0].value, 50_000);
    assert_eq!(tx.output[1].value, 49_300);
    assert_eq!(r.details.received, 49_300);
    assert_eq!(r.details.sent, 100_000);
    assert_eq!(w.last_internal, None);

    let more = Api::bump_fee_tx_builder_finish([0xaa; 32], 5_000, None, &mut w, None).unwrap();
    assert_eq!(more.psbt.unsigned_tx().input.len(), 2);
    assert_eq!(more.psbt.unsigned_tx().output.len(), 3);
    assert_eq!(w.last_internal, Some(0));
}

#[test]
fn the_wallet_tells_what_it_knows_about_an_input() {
    let mut w = wallet();
    let mine = utxo(1, 100_000, KeychainKind::External);
    w.utxos = vec![mine.clone()];
    w.scripts = vec![p2wpkh(1)];
    w.transactions = vec![details(1, Some(10), false)];
    let i = Api::get_psbt_input(&w, &mine, false, Some(1)).unwrap();
    assert_eq!(i.witness_utxo.as_ref().unwrap().value, 100_000);
    assert_eq!(i.non_witness_utxo.as_ref().unwrap().output[0].value, 1);
    assert_eq!(i.sighash_type, Some(1));
    assert!(i.partial_sigs.is_empty());
    let only = Api::get_psbt_input(&w, &mine, true, None).unwrap();
    assert!(only.non_witness_utxo.is_none());
    assert_eq!(only.sighash_type, None);
    let foreign = utxo(2, 5, KeychainKind::External);
    assert_eq!(
        Api::get_psbt_input(&w, &foreign, true, None).unwrap_err(),
        WalletError::ValidationError(Invalid::OutPoint)
    );
}

#[test]
fn a_built_transaction_carries_what_the_history_knows_of_its_inputs() {
    let mut w = wallet();
    w.utxos = vec![utxo(1, 100_000, KeychainKind::External), utxo(2, 80_000, KeychainKind::External)];
    w.scripts = vec![p2wpkh(1), p2wpkh(2)];
    // The history holds the transaction that created the first output, not the second.
    w.transactions = vec![details(9, Some(10), false), details(1, Some(10), false)];
    let r = build(&mut w, 150_000, FeePolicy::Absolute(500), None, None).unwrap();
    assert_eq!(r.psbt.inputs().len(), 2);
    let first = &r.psbt.inputs()[0];
    assert_eq!(first.witness_utxo.as_ref().unwrap().value, 100_000);
    let previous = first.non_witness_utxo.as_ref().unwrap();
    assert_eq!(previous.output[0].script_pubkey.bytes, p2wpkh(1).bytes);
    assert_eq!(previous.input[0].previous_output.txid, [0xee; 32]);
    let second = &r.psbt.inputs()[1];
    assert_eq!(second.witness_utxo.as_ref().unwrap().value, 80_000);
    assert!(second.non_witness_utxo.is_none());
    assert_eq!(r.psbt.fee_amount(), Some(500));
    // A signer that does not take outputs on trust signs the first input only.
    let careful = SignOptions { trust_witness_utxo: false, sign_complete: false };
    assert_eq!(r.psbt.inputs_to_sign(careful), vec![true, false]);
    let trusting = SignOptions { trust_witness_utxo: true, sign_complete: false };
    assert_eq!(r.psbt.inputs_to_sign(trusting), vec![true, true]);
    // The text of the result reads back as the same partially signed transaction.
    let text = Api::serialize_psbt(&r.psbt);
    let back = Psbt::from_text(&text).unwrap();
    assert_eq!(back.serialize(), r.psbt.serialize());
    assert!(back.inputs()[0].non_witness_utxo.is_some());
}

#[test]
fn a_transaction_that_cannot_be_replaced_is_told_before_the_wallet_is_asked() {
    let mut w = wallet();
    w.utxos = vec![utxo(1, 100_000, KeychainKind::External)];
    w.transactions = vec![details(0xaa, Some(10), false), details(0xbb, None, false)];
    // Descriptors that give no weights: a build fails on them, a replacement of a
    // confirmed, an unknown or a final transaction does not get that far.
    w.descriptor = "nothing".to_string();
    let bad_sequence = Some(RbfValue::Value(0xFFFF_FFFF));
    for txid in [[0xaa; 32], [0xbb; 32], [0xcc; 32]] {
        assert_eq!(
            Api::bump_fee_tx_builder_finish(txid, 0, Some(p2wpkh(3)), &mut w, bad_sequence)
                .map(|r| r.details)
                .unwrap_err(),
            WalletError::IrreplaceableTransaction
        );
        assert_eq!(
            Api::bump_fee_tx_builder_finish(txid, 9_000, None, &mut w, None)
                .map(|r| r.details)
                .unwrap_err(),
            WalletError::IrreplaceableTransaction
        );
    }
    assert_eq!(w.last_internal, None);
    assert!(w.scripts.is_empty());
    assert_eq!(w.transactions.len(), 2);
}

#[test]
fn a_build_without_recipients_is_refused_whatever_the_wallet_holds() {
    let mut w = wallet();
    w.descriptor = "nothing".to_string();
    let r = Api::tx_builder_finish(
        &mut w,
        vec![],
        vec![],
        None,
        vec![],
        ChangeSpendPolicy::ChangeAllowed,
        false,
        FeePolicy::Rate(1000),
        false,
        None,
        Some(RbfValue::Value(0xFFFF_FFFF)),
        vec![],
    );
    assert_eq!(r.map(|r| r.details).unwrap_err(), WalletError::NoRecipients);
    assert_eq!(
        build(&mut w, 100, FeePolicy::Rate(1000), None, None).map(|r| r.details).unwrap_err(),
        WalletError::ValidationError(Invalid::RecipientAmount)
    );
    assert_eq!(w.last_internal, None);
}

#[test]
fn the_fee_policy_is_the_amount_else_the_rate_else_the_default() {
    assert_eq!(fee_policy_of(Some(2_500), Some(700)), FeePolicy::Absolute(700));
    assert_eq!(fee_policy_of(None, Some(0)), FeePolicy::Absolute(0));
    assert_eq!(fee_policy_of(Some(2_500), None), FeePolicy::Rate(2_500));
    assert_eq!(fee_policy_of(None, None), FeePolicy::Rate(1_000));
}
