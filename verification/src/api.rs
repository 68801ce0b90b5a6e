//! The operations of the library, one function each.

use vstd::prelude::*;
use crate::address::{
    address_encoded, address_parsed, parse_for, Address, AddressView,
};
use crate::builder::{coins_distinct, PlanView, TxBuildPlan};
use crate::bump::{bump_fee, bump_spec, can_replace, rate_exceeds, replaceable, vsize_spec};
use crate::descriptor::{
    descriptor_script, descriptor_texts, descriptor_weight, private_template, private_text,
    public_template, public_text, satisfaction_weight, script_at, texts_of, Descriptor,
    ScriptTemplate,
};
use crate::error::{Invalid, WalletError};
use crate::fee::cap64;
use crate::finalize::{extract_spec, is_complete};
use crate::keys::{
    as_public_spec, derive_public_spec, derive_secret_spec, extended_key, master_xprv,
    opt_text_view, public_from_text, secret_from_text, xprv_secret, DescriptorPublicKey,
    DescriptorSecretKey, KeyView, Wildcard,
};
use crate::mnemonic::{entropy_mnemonic, mnemonic_text, word_count, words_of, Mnemonic, WordCount};
use crate::path::{parse_path, path_wf, DerivationPath};
use crate::primitives::{base64_of, sha256d_of};
use crate::psbt::{
    combine_spec, fee_amount_spec, fee_rate_spec, opt_script_view, opt_tx_view, plan_balanced,
    previous_view, psbt_of_plan, sign_spec, with_previous_spec, EntryView, Psbt, PsbtInput, PsbtInputView, PsbtView, SignOptions, SignResult,
};
use crate::psbt_codec::{from_text_spec, psbt_bytes};
use crate::script::{classify, Payload};
use crate::tx::{
    base_bytes, ins_view, is_coin_base_spec, is_explicitly_rbf_spec, is_lock_time_enabled_spec,
    weight_spec, wire_bytes, Transaction, TransactionView, TxIn,
};
use crate::tx_builder::{
    check_params, finish, finish_spec, params_error, foreign_view, recipients_view, utxos_view, ForeignUtxo, ForeignUtxoView,
    LocalUtxo, LocalUtxoView, ParamsView, SatisfactionWeights, ScriptAmount, TxParams,
    SEQUENCE_FINAL, SEQUENCE_RBF_LIMIT,
};
use crate::tx_codec::{decode_spec, tx_fits};
use crate::types::{
    coins_view, outs_view, Coin, CoinView, ChangeSpendPolicy, FeePolicy, KeychainKind, Network, OutPoint, RbfValue, Script,
    TxOut, TxOutView,
};
use crate::wallet::{
    address_script, balance_spec, chosen_index, find_details, fresh_change_script, holds_script,
    keychain_descriptor, received_amount, received_of, scripts_view, sent_amount, sent_of, unspent,
    wallet_after, wallet_weights, AddressIndex, AddressInfo, Balance, DetailsView,
    TransactionDetails, Wallet, WalletView,
};

verus! {

/// The operations of the library.
pub struct Api {}

/// What the builder hands back: the unsigned transaction, and what it
/// means to the wallet.
#[derive(Debug)]
pub struct TxBuilderResult {
    pub psbt: Psbt,
    pub details: TransactionDetails,
}

/// The change script that the builder is given: that of the next change
/// address, or none at all where the caller names the place for leftover.
pub open spec fn change_script_for(w: WalletView, p: ParamsView) -> Seq<u8> {
    if p.drain_to is Some {
        Seq::empty()
    } else {
        fresh_change_script(w)->0
    }
}

/// The plan that the wallet's builder makes of the caller's wishes. What
/// is wrong with the wishes by themselves is said first. Then it fails
/// where the descriptors give no weights, or no change script though one
/// is needed; else it is the plan of `finish_spec`.
pub open spec fn build_spec(w: WalletView, p: ParamsView) -> Result<PlanView, WalletError> {
    if params_error(p) is Some {
        Err(params_error(p)->0)
    } else if wallet_weights(w) is None {
        Err(WalletError::Generic)
    } else if p.drain_to is None && fresh_change_script(w) is None {
        Err(WalletError::Generic)
    } else {
        finish_spec(p, w.utxos, wallet_weights(w)->0, change_script_for(w, p))
    }
}

/// The plan of the replacement of the wallet's transaction `txid`. A
/// transaction that the history lacks is not the wallet's to replace, and
/// whether it can be replaced is decided before anything else.
pub open spec fn bump_build_spec(
    w: WalletView,
    txid: [u8; 32],
    new_rate: u64,
    shrink: Option<Seq<u8>>,
    rbf: Option<RbfValue>,
) -> Result<PlanView, WalletError> {
    match find_details(w.transactions, txid) {
        None => Err(WalletError::IrreplaceableTransaction),
        Some(d) => if !replaceable(d, w.utxos) {
            Err(WalletError::IrreplaceableTransaction)
        } else if wallet_weights(w) is None {
            Err(WalletError::Generic)
        } else if shrink is None && fresh_change_script(w) is None {
            Err(WalletError::Generic)
        } else {
            bump_spec(
                d,
                w.utxos,
                wallet_weights(w)->0,
                if shrink is Some {
                    Seq::empty()
                } else {
                    fresh_change_script(w)->0
                },
                new_rate,
                shrink,
                rbf,
            )
        },
    }
}

/// A transaction that the wallet's history lacks, or holds as confirmed, is
/// never replaced: whatever the rate, the sequence number, the script that
/// may shrink and the wallet's descriptors, the outcome is that the
/// transaction cannot be replaced.
pub proof fn lemma_confirmed_or_foreign_is_not_replaced(
    w: WalletView,
    txid: [u8; 32],
    new_rate: u64,
    shrink: Option<Seq<u8>>,
    rbf: Option<RbfValue>,
)
    requires
        find_details(w.transactions, txid) is None || find_details(
            w.transactions,
            txid,
        )->0.confirmation_time is Some,
    ensures
        bump_build_spec(w, txid, new_rate, shrink, rbf) == Err::<PlanView, WalletError>(
            WalletError::IrreplaceableTransaction,
        ),
{
}

/// What the wallet knows about the input that spends its output `u`: the
/// output itself, and the transaction that created it unless only the
/// output is asked for or the history lacks it. An output to a script that
/// is not the wallet's is refused.
pub open spec fn psbt_input_for(
    w: WalletView,
    u: LocalUtxoView,
    only_witness_utxo: bool,
    sighash_type: Option<u32>,
) -> Result<PsbtInputView, WalletError> {
    if !holds_script(w.scripts, u.script) {
        Err(WalletError::ValidationError(Invalid::OutPoint))
    } else {
        Ok(
            PsbtInputView {
                witness_utxo: Some(TxOutView { value: u.value, script: u.script }),
                non_witness_utxo: if only_witness_utxo {
                    None
                } else {
                    match find_details(w.transactions, u.outpoint.txid) {
                        Some(d) => d.transaction,
                        None => None,
                    }
                },
                partial_sigs: Seq::empty(),
                sighash_type,
                bip32_derivation: Seq::empty(),
                redeem_script: None,
                witness_script: None,
                other: Seq::empty(),
            },
        )
    }
}

/// An entry of the history as it is listed: whole, or without the
/// transaction itself.
pub open spec fn listed(d: DetailsView, include_raw: bool) -> DetailsView {
    if include_raw {
        d
    } else {
        DetailsView { transaction: None, ..d }
    }
}

/// The options that a signer goes by where none are given: the output
/// alone is not trusted, and complete inputs are left alone.
pub open spec fn default_sign_options() -> SignOptions {
    SignOptions { trust_witness_utxo: false, sign_complete: false }
}

/// The scripts of the wallet once a fresh change script was taken.
pub open spec fn scripts_after(w: WalletView, took_change: bool) -> Seq<Seq<u8>> {
    if took_change {
        w.scripts.push(fresh_change_script(w)->0)
    } else {
        w.scripts
    }
}

/// What a planned transaction means to the wallet that holds `scripts`.
pub open spec fn details_of(plan: PlanView, txid: [u8; 32], scripts: Seq<Seq<u8>>) -> DetailsView {
    DetailsView {
        txid,
        transaction: None,
        received: received_amount(plan.outputs, scripts) as u64,
        sent: sent_amount(plan.inputs) as u64,
        fee: Some(plan.fee),
        confirmation_time: None,
    }
}

/// The transactions of the history that created the outputs that `inputs`
/// spend, one for each input; None where the history does not hold it
/// whole.
pub open spec fn previous_of(inputs: Seq<CoinView>, history: Seq<DetailsView>) -> Seq<
    Option<TransactionView>,
> {
    Seq::new(
        inputs.len(),
        |i: int|
            match find_details(history, inputs[i].outpoint.txid) {
                Some(d) => d.transaction,
                None => None,
            },
    )
}

/// The partially signed transaction that the builder hands back for a
/// plan: that of the plan, each input with the output it spends and, where
/// the history holds it, the transaction that created it.
pub open spec fn built_psbt(plan: PlanView, history: Seq<DetailsView>) -> PsbtView {
    with_previous_spec(psbt_of_plan(plan), previous_of(plan.inputs, history))
}

/// The result of the builder for a plan, seen from the wallet that holds
/// `scripts` and the history `history`.
pub open spec fn result_is(
    r: TxBuilderResult,
    plan: PlanView,
    scripts: Seq<Seq<u8>>,
    history: Seq<DetailsView>,
) -> bool {
    &&& r.psbt@ == built_psbt(plan, history)
    &&& r.psbt@.unsigned_tx == psbt_of_plan(plan).unsigned_tx
    &&& fee_amount_spec(r.psbt@) == Some(plan.fee)
    &&& r.details.txid@ == sha256d_of(base_bytes(psbt_of_plan(plan).unsigned_tx))
    &&& r.details@ == details_of(plan, r.details.txid, scripts)
}

/// The transactions of the wallet's history that created the outputs that
/// `inputs` spend.
pub fn previous_for(inputs: &Vec<Coin>, wallet: &Wallet) -> (r: Vec<Option<Transaction>>)
    ensures
        previous_view(r@) == previous_of(coins_view(inputs@), wallet@.transactions),
{
    let ghost want = previous_of(coins_view(inputs@), wallet@.transactions);
    let mut r: Vec<Option<Transaction>> = Vec::new();
    let mut i: usize = 0;
    while i < inputs.len()
        invariant
            i <= inputs.len(),
            want == previous_of(coins_view(inputs@), wallet@.transactions),
            r.len() == i,
            forall|k: int| 0 <= k < i ==> opt_tx_view(#[trigger] r@[k]) == want[k],
        decreases inputs.len() - i,
    {
        assert(coins_view(inputs@)[i as int] == inputs@[i as int]@);
        let found: Option<Transaction> = match wallet.find_transaction(&inputs[i].outpoint.txid) {
            Some(at) => match &wallet.transactions[at].transaction {
                Some(t) => Some(t.copy()),
                None => None,
            },
            None => None,
        };
        r.push(found);
        i += 1;
    }
    assert(previous_view(r@) =~= want);
    r
}

/// Turns a balanced plan into the builder's result.
pub(crate) fn plan_result(plan: &TxBuildPlan, wallet: &Wallet) -> (r: Result<
    TxBuilderResult,
    WalletError,
>)
    requires
        plan_balanced(plan@),
    ensures
        r is Ok,
        result_is(r->Ok_0, plan@, wallet@.scripts, wallet@.transactions),
{
    proof {
        crate::builder::lemma_sum_out_push(plan@.outputs, plan@.outputs[0]);
        crate::psbt::lemma_plan_psbt_well_formed(plan@);
        crate::psbt::lemma_with_previous_well_formed(
            psbt_of_plan(plan@),
            previous_of(plan@.inputs, wallet@.transactions),
        );
    }
    let bare: Psbt = match Psbt::from_plan(plan) {
        Ok(p) => p,
        Err(e) => {
            return Err(e);
        },
    };
    let previous: Vec<Option<Transaction>> = previous_for(&plan.inputs, wallet);
    let psbt: Psbt = match bare.with_previous(&previous) {
        Ok(p) => p,
        Err(e) => {
            return Err(e);
        },
    };
    let txid: [u8; 32] = psbt.txid();
    let details = TransactionDetails {
        txid,
        transaction: None,
        received: received_of(&plan.outputs, &wallet.scripts),
        sent: sent_of(&plan.inputs),
        fee: Some(plan.fee),
        confirmation_time: None,
    };
    Ok(TxBuilderResult { psbt, details })
}

impl Api {
    /// The transaction that the bytes encode: the one whose encoding they
    /// are.
    pub fn create_transaction(tx: Vec<u8>) -> (r: Result<Transaction, WalletError>)
        ensures
            match decode_spec(tx@) {
                Some(t) => r is Ok && r->Ok_0@ == t,
                None => r == Err::<Transaction, WalletError>(
                    WalletError::ValidationError(Invalid::TransactionBytes),
                ),
            },
            r is Ok ==> wire_bytes(r->Ok_0@) == tx@,
            forall|t: TransactionView|
                tx_fits(t) && #[trigger] wire_bytes(t) == tx@ ==> r is Ok && r->Ok_0@ == t,
    {
        Transaction::decode(&tx)
    }

    /// The id of the transaction.
    pub fn tx_txid(tx: &Transaction) -> (r: [u8; 32])
        ensures
            r@ == sha256d_of(base_bytes(tx@)),
    {
        tx.txid()
    }

    /// The weight of the transaction, held at the largest `u64`.
    pub fn weight(tx: &Transaction) -> (r: u64)
        ensures
            r == cap64(weight_spec(tx@)),
    {
        tx.weight()
    }

    /// The size of the transaction in bytes.
    pub fn size(tx: &Transaction) -> (r: u64)
        ensures
            r == wire_bytes(tx@).len(),
    {
        tx.size()
    }

    /// The virtual size of the transaction, held at the largest `u64`.
    pub fn vsize(tx: &Transaction) -> (r: u64)
        ensures
            r == cap64((weight_spec(tx@) + 3) / 4),
    {
        tx.vsize()
    }

    /// The encoding of the transaction as it goes over the wire.
    pub fn serialize_tx(tx: &Transaction) -> (r: Vec<u8>)
        ensures
            r@ == wire_bytes(tx@),
    {
        tx.serialize()
    }

    /// Whether the transaction creates coins.
    pub fn is_coin_base(tx: &Transaction) -> (r: bool)
        ensures
            r == is_coin_base_spec(tx@),
    {
        tx.is_coin_base()
    }

    /// Whether some input signals that the transaction may be replaced.
    pub fn is_explicitly_rbf(tx: &Transaction) -> (r: bool)
        ensures
            r == is_explicitly_rbf_spec(tx@),
    {
        tx.is_explicitly_rbf()
    }

    /// Whether some input lets the lock time take effect.
    pub fn is_lock_time_enabled(tx: &Transaction) -> (r: bool)
        ensures
            r == is_lock_time_enabled_spec(tx@),
    {
        tx.is_lock_time_enabled()
    }

    /// The version of the transaction.
    pub fn version(tx: &Transaction) -> (r: i32)
        ensures
            r == tx@.version,
    {
        tx.version
    }

    /// The lock time of the transaction.
    pub fn lock_time(tx: &Transaction) -> (r: u32)
        ensures
            r == tx@.lock_time,
    {
        tx.lock_time
    }

    /// The inputs of the transaction.
    pub fn input(tx: &Transaction) -> (r: Vec<TxIn>)
        ensures
            ins_view(r@) == tx@.input,
    {
        tx.copy().input
    }

    /// The outputs of the transaction.
    pub fn output(tx: &Transaction) -> (r: Vec<TxOut>)
        ensures
            outs_view(r@) == tx@.output,
    {
        tx.copy().output
    }

    /// The partially signed transaction that `psbt_str` encodes.
    pub fn create_psbt(psbt_str: &str) -> (r: Result<Psbt, WalletError>)
        ensures
            match from_text_spec(psbt_str@) {
                Ok(p) => r is Ok && r->Ok_0@ == p,
                Err(e) => r == Err::<Psbt, WalletError>(e),
            },
    {
        Psbt::from_text(psbt_str)
    }

    /// The partially signed transaction as text, which reads back as the
    /// same partially signed transaction.
    pub fn serialize_psbt(psbt: &Psbt) -> (r: String)
        ensures
            r@ == base64_of(psbt_bytes(psbt@)),
            from_text_spec(r@) == Ok::<PsbtView, WalletError>(psbt@),
    {
        psbt.to_text()
    }

    /// The id of the unsigned transaction.
    pub fn psbt_txid(psbt: &Psbt) -> (r: [u8; 32])
        ensures
            r@ == sha256d_of(base_bytes(psbt@.unsigned_tx)),
    {
        psbt.txid()
    }

    /// The final transaction, where every input meets the signature
    /// requirement of its script; else the transaction is incomplete.
    pub fn extract_tx(psbt: &Psbt) -> (r: Result<Transaction, WalletError>)
        ensures
            r is Ok <==> is_complete(psbt@),
            match extract_spec(psbt@) {
                Ok(t) => r is Ok && r->Ok_0@ == t,
                Err(e) => r == Err::<Transaction, WalletError>(e),
            },
    {
        psbt.extract_tx()
    }

    /// The fee that the transaction pays, where every spent output is known.
    pub fn psbt_fee_amount(psbt: &Psbt) -> (r: Option<u64>)
        ensures
            r == fee_amount_spec(psbt@),
    {
        psbt.fee_amount()
    }

    /// The fee rate that the transaction pays, in thousandths of a satoshi
    /// per virtual byte, where every spent output is known.
    pub fn psbt_fee_rate(psbt: &Psbt) -> (r: Option<u64>)
        ensures
            r == fee_rate_spec(psbt@),
    {
        psbt.fee_rate()
    }

    /// Combines what two signers hold about one unsigned transaction.
    pub fn combine_psbt(psbt: &Psbt, other: &Psbt) -> (r: Result<Psbt, WalletError>)
        ensures
            match combine_spec(psbt@, other@) {
                Ok(m) => r is Ok && r->Ok_0@ == m,
                Err(e) => r == Err::<Psbt, WalletError>(e),
            },
    {
        psbt.combine(other)
    }

    /// Builds the unsigned transaction that the caller asks for out of the
    /// wallet's unspent outputs. Where leftover goes to the wallet, the next
    /// change address is taken and its script is recorded as the wallet's.
    pub fn tx_builder_finish(
        wallet: &mut Wallet,
        recipients: Vec<ScriptAmount>,
        utxos: Vec<OutPoint>,
        foreign_utxo: Option<ForeignUtxo>,
        unspendable: Vec<OutPoint>,
        change_policy: ChangeSpendPolicy,
        manually_selected_only: bool,
        fee_policy: FeePolicy,
        drain_wallet: bool,
        drain_to: Option<Script>,
        rbf: Option<RbfValue>,
        data: Vec<u8>,
    ) -> (r: Result<TxBuilderResult, WalletError>)
        ensures
            ({
                let p = ParamsView {
                    recipients: recipients_view(recipients@),
                    utxos: utxos@,
                    foreign_utxos: match foreign_utxo {
                        Some(f) => seq![f@],
                        None => Seq::empty(),
                    },
                    unspendable: unspendable@,
                    manually_selected_only,
                    change_policy,
                    fee_policy,
                    drain_wallet,
                    drain_to: opt_script_view(drain_to),
                    rbf,
                    data: data@,
                };
                match build_spec(old(wallet)@, p) {
                    Err(e) => r == Err::<TxBuilderResult, WalletError>(e) && final(wallet)@ == old(
                        wallet,
                    )@,
                    Ok(plan) => {
                        &&& r is Ok
                        &&& result_is(
                            r->Ok_0,
                            plan,
                            final(wallet)@.scripts,
                            final(wallet)@.transactions,
                        )
                        &&& final(wallet)@.scripts == scripts_after(old(wallet)@, drain_to is None)
                        &&& final(wallet)@ == (WalletView {
                            scripts: final(wallet)@.scripts,
                            last_internal: if drain_to is None {
                                Some(crate::wallet::next_index(old(wallet)@.last_internal) as u32)
                            } else {
                                old(wallet)@.last_internal
                            },
                            ..old(wallet)@
                        })
                        &&& coins_distinct(plan.inputs)
                        &&& rbf is Some ==> plan.sequence < SEQUENCE_RBF_LIMIT
                        &&& rbf is None ==> plan.sequence == SEQUENCE_FINAL
                    },
                }
            }),
    {
        let mut foreign_utxos: Vec<ForeignUtxo> = Vec::new();
        match foreign_utxo {
            Some(f) => {
                foreign_utxos.push(f);
                assert(foreign_view(foreign_utxos@) =~= seq![f@]);
            },
            None => {
                assert(foreign_view(foreign_utxos@) =~= Seq::<ForeignUtxoView>::empty());
            },
        }
        let params = TxParams {
            recipients,
            utxos,
            foreign_utxos,
            unspendable,
            manually_selected_only,
            change_policy,
            fee_policy,
            drain_wallet,
            drain_to,
            rbf,
            data,
        };
        match check_params(&params) {
            Some(e) => {
                return Err(e);
            },
            None => {},
        }
        let weights: SatisfactionWeights = match wallet.weights() {
            Some(w) => w,
            None => {
                return Err(WalletError::Generic);
            },
        };
        let took_change: bool = params.drain_to.is_none();
        let change: Script = if took_change {
            match wallet.fresh_change_script() {
                Some(s) => s,
                None => {
                    return Err(WalletError::Generic);
                },
            }
        } else {
            Script { bytes: Vec::new() }
        };
        let plan: TxBuildPlan = match finish(&params, &wallet.utxos, weights, &change) {
            Ok(p) => p,
            Err(e) => {
                return Err(e);
            },
        };
        if took_change {
            let next: u32 = match wallet.last_internal {
                Some(i) => i + 1,
                None => 0,
            };
            wallet.last_internal = Some(next);
            let ghost before = wallet.scripts@;
            wallet.scripts.push(change);
            assert(scripts_view(wallet.scripts@) =~= scripts_view(before).push(change@));
        }
        plan_result(&plan, wallet)
    }

    /// Builds the replacement of the wallet's unconfirmed transaction
    /// `txid` at the fee rate `fee_rate`, in thousandths of a satoshi per
    /// virtual byte. `allow_shrinking` names the output that may pay for
    /// the higher fee. Disabling replaceability on a replacement is
    /// accepted; whether the network then takes it is the caller's matter.
    pub fn bump_fee_tx_builder_finish(
        txid: [u8; 32],
        fee_rate: u64,
        allow_shrinking: Option<Script>,
        wallet: &mut Wallet,
        rbf: Option<RbfValue>,
    ) -> (r: Result<TxBuilderResult, WalletError>)
        ensures
            match bump_build_spec(
                old(wallet)@,
                txid,
                fee_rate,
                opt_script_view(allow_shrinking),
                rbf,
            ) {
                Err(e) => r == Err::<TxBuilderResult, WalletError>(e) && final(wallet)@ == old(
                    wallet,
                )@,
                Ok(plan) => {
                    &&& r is Ok
                    &&& result_is(
                            r->Ok_0,
                            plan,
                            final(wallet)@.scripts,
                            final(wallet)@.transactions,
                        )
                    &&& final(wallet)@.scripts == scripts_after(
                        old(wallet)@,
                        allow_shrinking is None,
                    )
                    &&& final(wallet)@ == (WalletView {
                        scripts: final(wallet)@.scripts,
                        last_internal: if allow_shrinking is None {
                            Some(crate::wallet::next_index(old(wallet)@.last_internal) as u32)
                        } else {
                            old(wallet)@.last_internal
                        },
                        ..old(wallet)@
                    })
                    &&& rate_exceeds(
                        fee_rate,
                        find_details(old(wallet)@.transactions, txid)->0.fee->0,
                        vsize_spec(find_details(old(wallet)@.transactions, txid)->0.transaction->0),
                    )
                    &&& plan.fee > find_details(old(wallet)@.transactions, txid)->0.fee->0
                    &&& coins_distinct(plan.inputs)
                    &&& rbf is Some ==> plan.sequence < SEQUENCE_RBF_LIMIT
                    &&& rbf is None ==> plan.sequence == SEQUENCE_FINAL
                },
            },
    {
        let at: usize = match wallet.find_transaction(&txid) {
            Some(i) => i,
            None => {
                return Err(WalletError::IrreplaceableTransaction);
            },
        };
        if !can_replace(&wallet.transactions[at], &wallet.utxos) {
            return Err(WalletError::IrreplaceableTransaction);
        }
        let weights: SatisfactionWeights = match wallet.weights() {
            Some(w) => w,
            None => {
                return Err(WalletError::Generic);
            },
        };
        let took_change: bool = allow_shrinking.is_none();
        let change: Script = if took_change {
            match wallet.fresh_change_script() {
                Some(s) => s,
                None => {
                    return Err(WalletError::Generic);
                },
            }
        } else {
            Script { bytes: Vec::new() }
        };
        let plan: TxBuildPlan = match bump_fee(
            &wallet.transactions[at],
            &wallet.utxos,
            weights,
            &change,
            fee_rate,
            &allow_shrinking,
            rbf,
        ) {
            Ok(p) => p,
            Err(e) => {
                return Err(e);
            },
        };
        if took_change {
            let next: u32 = match wallet.last_internal {
                Some(i) => i + 1,
                None => 0,
            };
            wallet.last_internal = Some(next);
            let ghost before = wallet.scripts@;
            wallet.scripts.push(change);
            assert(scripts_view(wallet.scripts@) =~= scripts_view(before).push(change@));
        }
        plan_result(&plan, wallet)
    }

    /// Checks a descriptor text on a network and hands back its text with
    /// secret keys.
    pub fn create_descriptor(descriptor: &str, network: Network) -> (r: Result<
        String,
        WalletError,
    >)
        ensures
            match descriptor_texts(descriptor@, network) {
                Some(_) => r is Ok && r->Ok_0@ == private_text(descriptor@, network),
                None => r == Err::<String, WalletError>(
                    WalletError::ValidationError(Invalid::KeyText),
                ),
            },
    {
        match texts_of(descriptor, network) {
            Some(t) => Ok(t.with_secrets),
            None => Err(WalletError::ValidationError(Invalid::KeyText)),
        }
    }

    /// The text with secret keys of a descriptor.
    pub fn as_string_private(descriptor: &str, network: Network) -> (r: Result<
        String,
        WalletError,
    >)
        ensures
            match descriptor_texts(descriptor@, network) {
                Some(_) => r is Ok && r->Ok_0@ == private_text(descriptor@, network),
                None => r == Err::<String, WalletError>(
                    WalletError::ValidationError(Invalid::KeyText),
                ),
            },
    {
        match texts_of(descriptor, network) {
            Some(t) => Ok(t.with_secrets),
            None => Err(WalletError::ValidationError(Invalid::KeyText)),
        }
    }

    /// The text with public keys only of a descriptor.
    pub fn as_string(descriptor: &str, network: Network) -> (r: Result<String, WalletError>)
        ensures
            match descriptor_texts(descriptor@, network) {
                Some(_) => r is Ok && r->Ok_0@ == public_text(descriptor@, network),
                None => r == Err::<String, WalletError>(
                    WalletError::ValidationError(Invalid::KeyText),
                ),
            },
    {
        match texts_of(descriptor, network) {
            Some(t) => Ok(t.public),
            None => Err(WalletError::ValidationError(Invalid::KeyText)),
        }
    }

    /// The greatest weight of what satisfies a script of a descriptor.
    pub fn max_satisfaction_weight(descriptor: &str, network: Network) -> (r: Result<
        usize,
        WalletError,
    >)
        ensures
            match descriptor_weight(descriptor@, network) {
                Some(w) => r == Ok::<usize, WalletError>(w),
                None => r == Err::<usize, WalletError>(
                    WalletError::ValidationError(Invalid::KeyText),
                ),
            },
    {
        match satisfaction_weight(descriptor, network) {
            Some(w) => Ok(w),
            None => Err(WalletError::ValidationError(Invalid::KeyText)),
        }
    }

    /// The descriptor of a keychain of the first account that pays to the
    /// hash of a key.
    pub fn new_bip44_descriptor(
        key_chain_kind: KeychainKind,
        secret_key: &DescriptorSecretKey,
        network: Network,
    ) -> (r: Descriptor)
        ensures
            r@ == private_template(
                ScriptTemplate::P2Pkh,
                secret_key@.xkey,
                key_chain_kind,
                network,
            ),
    {
        Descriptor::new_private(ScriptTemplate::P2Pkh, secret_key, key_chain_kind, network)
    }

    /// The same for the public key of the account.
    pub fn new_bip44_public(
        key_chain_kind: KeychainKind,
        public_key: &DescriptorPublicKey,
        network: Network,
        fingerprint: [u8; 4],
    ) -> (r: Descriptor)
        ensures
            r@ == public_template(
                ScriptTemplate::P2Pkh,
                public_key@.xkey,
                fingerprint,
                key_chain_kind,
                network,
            ),
    {
        Descriptor::new_public(
            ScriptTemplate::P2Pkh,
            public_key,
            fingerprint,
            key_chain_kind,
            network,
        )
    }

    /// The descriptor of a keychain of the first account that pays to a
    /// script hash around a witness program for the hash of a key.
    pub fn new_bip49_descriptor(
        key_chain_kind: KeychainKind,
        secret_key: &DescriptorSecretKey,
        network: Network,
    ) -> (r: Descriptor)
        ensures
            r@ == private_template(
                ScriptTemplate::P2ShP2Wpkh,
                secret_key@.xkey,
                key_chain_kind,
                network,
            ),
    {
        Descriptor::new_private(ScriptTemplate::P2ShP2Wpkh, secret_key, key_chain_kind, network)
    }

    /// The same for the public key of the account.
    pub fn new_bip49_public(
        key_chain_kind: KeychainKind,
        public_key: &DescriptorPublicKey,
        network: Network,
        fingerprint: [u8; 4],
    ) -> (r: Descriptor)
        ensures
            r@ == public_template(
                ScriptTemplate::P2ShP2Wpkh,
                public_key@.xkey,
                fingerprint,
                key_chain_kind,
                network,
            ),
    {
        Descriptor::new_public(
            ScriptTemplate::P2ShP2Wpkh,
            public_key,
            fingerprint,
            key_chain_kind,
            network,
        )
    }

    /// The descriptor of a keychain of the first account that pays to a
    /// witness program for the hash of a key.
    pub fn new_bip84_descriptor(
        key_chain_kind: KeychainKind,
        secret_key: &DescriptorSecretKey,
        network: Network,
    ) -> (r: Descriptor)
        ensures
            r@ == private_template(
                ScriptTemplate::P2Wpkh,
                secret_key@.xkey,
                key_chain_kind,
                network,
            ),
    {
        Descriptor::new_private(ScriptTemplate::P2Wpkh, secret_key, key_chain_kind, network)
    }

    /// The same for the public key of the account.
    pub fn new_bip84_public(
        key_chain_kind: KeychainKind,
        public_key: &DescriptorPublicKey,
        network: Network,
        fingerprint: [u8; 4],
    ) -> (r: Descriptor)
        ensures
            r@ == public_template(
                ScriptTemplate::P2Wpkh,
                public_key@.xkey,
                fingerprint,
                key_chain_kind,
                network,
            ),
    {
        Descriptor::new_public(
            ScriptTemplate::P2Wpkh,
            public_key,
            fingerprint,
            key_chain_kind,
            network,
        )
    }

    /// The master key on `network` of a mnemonic and a passphrase.
    pub fn create_descriptor_secret(
        network: Network,
        mnemonic: &str,
        password: &Option<String>,
    ) -> (r: Result<DescriptorSecretKey, WalletError>)
        ensures
            match master_xprv(network, mnemonic@, opt_text_view(*password)) {
                Some(x) => r is Ok && r->Ok_0@ == (KeyView {
                    origin: None,
                    xkey: x,
                    derivation_path: Seq::empty(),
                    wildcard: Wildcard::Unhardened,
                }),
                None => r == Err::<DescriptorSecretKey, WalletError>(
                    WalletError::ValidationError(Invalid::KeyText),
                ),
            },
    {
        DescriptorSecretKey::new(network, mnemonic, password)
    }

    /// The secret key that `secret` denotes.
    pub fn descriptor_secret_from_string(secret: &str) -> (r: Result<
        DescriptorSecretKey,
        WalletError,
    >)
        ensures
            match secret_from_text(secret@) {
                Some(k) => r is Ok && r->Ok_0@ == k,
                None => r == Err::<DescriptorSecretKey, WalletError>(
                    WalletError::ValidationError(Invalid::KeyText),
                ),
            },
    {
        DescriptorSecretKey::from_string(secret)
    }

    /// The same key with the steps of `path` behind its own; further
    /// derivation stays possible.
    pub fn extend_descriptor_secret(secret: &DescriptorSecretKey, path: &DerivationPath) -> (r:
        DescriptorSecretKey)
        ensures
            r@ == extended_key(secret@, path@),
    {
        secret.extend(path)
    }

    /// The one fixed key that the steps of `path` lead to.
    pub fn derive_descriptor_secret(secret: &DescriptorSecretKey, path: &DerivationPath) -> (r:
        Result<DescriptorSecretKey, WalletError>)
        ensures
            match derive_secret_spec(secret@, path@) {
                Ok(k) => r is Ok && r->Ok_0@ == k,
                Err(e) => r == Err::<DescriptorSecretKey, WalletError>(e),
            },
    {
        secret.derive(path)
    }

    /// The secret key itself, extended, or derived, as `path` and `derive`
    /// say.
    pub fn descriptor_secret_config(
        secret: &DescriptorSecretKey,
        path: &Option<DerivationPath>,
        derive: bool,
    ) -> (r: Result<DescriptorSecretKey, WalletError>)
        ensures
            match *path {
                None => r is Ok && r->Ok_0@ == extended_key(secret@, Seq::empty()),
                Some(p) => if derive {
                    match derive_secret_spec(secret@, p@) {
                        Ok(k) => r is Ok && r->Ok_0@ == k,
                        Err(e) => r == Err::<DescriptorSecretKey, WalletError>(e),
                    }
                } else {
                    r is Ok && r->Ok_0@ == extended_key(secret@, p@)
                },
            },
    {
        match path {
            None => {
                let segments: Vec<crate::path::ChildNumber> = Vec::new();
                Ok(secret.extend(&DerivationPath { segments }))
            },
            Some(p) => {
                if derive {
                    secret.derive(p)
                } else {
                    Ok(secret.extend(p))
                }
            },
        }
    }

    /// The thirty-two secret bytes of the key.
    pub fn as_secret_bytes(secret: &DescriptorSecretKey) -> (r: Result<Vec<u8>, WalletError>)
        ensures
            match xprv_secret(secret@.xkey) {
                Some(b) => r is Ok && r->Ok_0@ == b,
                None => r == Err::<Vec<u8>, WalletError>(WalletError::Generic),
            },
    {
        secret.secret_bytes()
    }

    /// The public key of the secret key.
    pub fn as_public(secret: &DescriptorSecretKey) -> (r: Result<DescriptorPublicKey, WalletError>)
        ensures
            match as_public_spec(secret@) {
                Ok(k) => r is Ok && r->Ok_0@ == k,
                Err(e) => r == Err::<DescriptorPublicKey, WalletError>(e),
            },
    {
        secret.as_public()
    }

    /// The path that `path` denotes.
    pub fn create_derivation_path(path: &str) -> (r: Result<DerivationPath, WalletError>)
        ensures
            match parse_path(path@) {
                Ok(p) => r is Ok && r->Ok_0@ == p && path_wf(p) && p.len() > 0,
                Err(e) => r == Err::<DerivationPath, WalletError>(e),
            },
    {
        DerivationPath::parse(path)
    }

    /// The public key that `public_key` denotes.
    pub fn descriptor_public_from_string(public_key: &str) -> (r: Result<
        DescriptorPublicKey,
        WalletError,
    >)
        ensures
            match public_from_text(public_key@) {
                Some(k) => r is Ok && r->Ok_0@ == k,
                None => r == Err::<DescriptorPublicKey, WalletError>(
                    WalletError::ValidationError(Invalid::KeyText),
                ),
            },
    {
        DescriptorPublicKey::from_string(public_key)
    }

    /// The public key extended by `path`, or the one key derived along it.
    pub fn create_descriptor_public(xpub: &DescriptorPublicKey, path: &DerivationPath, derive: bool) -> (r:
        Result<DescriptorPublicKey, WalletError>)
        ensures
            derive ==> match derive_public_spec(xpub@, path@) {
                Ok(k) => r is Ok && r->Ok_0@ == k,
                Err(e) => r == Err::<DescriptorPublicKey, WalletError>(e),
            },
            !derive ==> r is Ok && r->Ok_0@ == extended_key(xpub@, path@),
    {
        if derive {
            xpub.derive(path)
        } else {
            Ok(xpub.extend(path))
        }
    }

    /// The script of the given bytes.
    pub fn create_script(raw_output_script: Vec<u8>) -> (r: Result<Script, WalletError>)
        ensures
            r is Ok,
            r->Ok_0@ == raw_output_script@,
    {
        Ok(Script { bytes: raw_output_script })
    }

    /// The address that `address` denotes, for use on `network`. An
    /// address bound to a network that does not fit is rejected as a
    /// mismatch.
    pub fn create_address(address: &str, network: Network) -> (r: Result<Address, WalletError>)
        ensures
            match parse_for(address@, network) {
                Ok(a) => r is Ok && r->Ok_0@ == a,
                Err(e) => r == Err::<Address, WalletError>(e),
            },
    {
        Address::for_network(address, network)
    }

    /// The address of `script` on `network`.
    pub fn address_from_script(script: &Script, network: Network) -> (r: Result<
        Address,
        WalletError,
    >)
        ensures
            match address_encoded(script@, network) {
                Some(t) => r is Ok && r->Ok_0@ == (AddressView {
                    network,
                    script: script@,
                    text: t,
                }),
                None => r == Err::<Address, WalletError>(
                    WalletError::ValidationError(Invalid::Script),
                ),
            },
    {
        Address::from_script(script, network)
    }

    /// The script that the address `address` stands for on `network`. An
    /// address bound to a network that does not fit is rejected as a
    /// mismatch.
    pub fn address_to_script_pubkey(address: &str, network: Network) -> (r: Result<
        Script,
        WalletError,
    >)
        ensures
            match parse_for(address@, network) {
                Ok(a) => r is Ok && r->Ok_0@ == a.script,
                Err(e) => r == Err::<Script, WalletError>(e),
            },
    {
        match Address::for_network(address, network) {
            Ok(a) => Ok(a.script),
            Err(e) => Err(e),
        }
    }

    /// The payload that the address `address` commits to on `network`. An
    /// address bound to a network that does not fit is rejected as a
    /// mismatch.
    pub fn payload(address: &str, network: Network) -> (r: Result<Payload, WalletError>)
        ensures
            match parse_for(address@, network) {
                Ok(a) => r is Ok && r->Ok_0@ == classify(a.script),
                Err(e) => r == Err::<Payload, WalletError>(e),
            },
    {
        match Address::for_network(address, network) {
            Ok(a) => Ok(a.payload()),
            Err(e) => Err(e),
        }
    }

    /// The network that the address `address` is bound to, whichever that
    /// is: a caller learns here which network an address is for.
    pub fn address_network(address: &str) -> (r: Result<Network, WalletError>)
        ensures
            match address_parsed(address@) {
                Some(a) => r == Ok::<Network, WalletError>(a.network),
                None => r == Err::<Network, WalletError>(
                    WalletError::ValidationError(Invalid::Address),
                ),
            },
    {
        match Address::new(address) {
            Ok(a) => Ok(a.network),
            Err(e) => Err(e),
        }
    }

    /// A wallet of the two descriptors on `network`, with nothing in it.
    /// Each descriptor must give the script of a first address.
    pub fn create_wallet(
        descriptor: String,
        change_descriptor: Option<String>,
        network: Network,
    ) -> (r: Result<Wallet, WalletError>)
        ensures
            ({
                let usable = descriptor_script(descriptor@, network, 0) is Some && (
                change_descriptor is Some ==> descriptor_script(
                    change_descriptor->0@,
                    network,
                    0,
                ) is Some);
                &&& usable ==> r is Ok && r->Ok_0@ == (WalletView {
                    descriptor: descriptor@,
                    change_descriptor: opt_text_view(change_descriptor),
                    network,
                    utxos: Seq::empty(),
                    transactions: Seq::empty(),
                    scripts: Seq::empty(),
                    last_external: None,
                    last_internal: None,
                    sync_height: None,
                })
                &&& !usable ==> r == Err::<Wallet, WalletError>(
                    WalletError::ValidationError(Invalid::KeyText),
                )
            }),
    {
        if script_at(descriptor.as_str(), network, 0).is_none() {
            return Err(WalletError::ValidationError(Invalid::KeyText));
        }
        match &change_descriptor {
            Some(d) => {
                if script_at(d.as_str(), network, 0).is_none() {
                    return Err(WalletError::ValidationError(Invalid::KeyText));
                }
            },
            None => {},
        }
        let wallet = Wallet {
            descriptor,
            change_descriptor,
            network,
            utxos: Vec::new(),
            transactions: Vec::new(),
            scripts: Vec::new(),
            last_external: None,
            last_internal: None,
            sync_height: None,
        };
        assert(wallet@.utxos =~= Seq::empty());
        assert(wallet@.transactions =~= Seq::empty());
        assert(wallet@.scripts =~= Seq::empty());
        Ok(wallet)
    }

    /// Hands out a receiving address of the wallet.
    pub fn get_address(wallet: &mut Wallet, address_index: AddressIndex) -> (r: Result<
        AddressInfo,
        WalletError,
    >)
        ensures
            match address_script(old(wallet)@, KeychainKind::External, address_index) {
                Err(e) => r == Err::<AddressInfo, WalletError>(e) && final(wallet)@ == old(
                    wallet,
                )@,
                Ok(script) => {
                    &&& r is Ok
                    &&& r->Ok_0.index == chosen_index(
                        old(wallet)@,
                        KeychainKind::External,
                        address_index,
                    )
                    &&& r->Ok_0.keychain == KeychainKind::External
                    &&& r->Ok_0.address@ == address_encoded(script, old(wallet)@.network)->0
                    &&& final(wallet)@ == wallet_after(
                        old(wallet)@,
                        KeychainKind::External,
                        address_index,
                        script,
                    )
                },
            },
    {
        wallet.address_at(KeychainKind::External, address_index)
    }

    /// Hands out a change address of the wallet.
    pub fn get_internal_address(wallet: &mut Wallet, address_index: AddressIndex) -> (r: Result<
        AddressInfo,
        WalletError,
    >)
        ensures
            match address_script(old(wallet)@, KeychainKind::Internal, address_index) {
                Err(e) => r == Err::<AddressInfo, WalletError>(e) && final(wallet)@ == old(
                    wallet,
                )@,
                Ok(script) => {
                    &&& r is Ok
                    &&& r->Ok_0.index == chosen_index(
                        old(wallet)@,
                        KeychainKind::Internal,
                        address_index,
                    )
                    &&& r->Ok_0.keychain == KeychainKind::Internal
                    &&& r->Ok_0.address@ == address_encoded(script, old(wallet)@.network)->0
                    &&& final(wallet)@ == wallet_after(
                        old(wallet)@,
                        KeychainKind::Internal,
                        address_index,
                        script,
                    )
                },
            },
    {
        wallet.address_at(KeychainKind::Internal, address_index)
    }

    /// Whether `script` is one that the wallet has handed out.
    pub fn is_mine(script: &Script, wallet: &Wallet) -> (r: bool)
        ensures
            r == holds_script(wallet@.scripts, script@),
    {
        wallet.is_mine(script)
    }

    /// The balance of the wallet.
    pub fn get_balance(wallet: &Wallet) -> (r: Balance)
        ensures
            r == balance_spec(wallet@),
    {
        wallet.get_balance()
    }

    /// The outputs of the wallet that are not spent.
    pub fn list_unspent_outputs(wallet: &Wallet) -> (r: Vec<LocalUtxo>)
        ensures
            utxos_view(r@) == unspent(wallet@.utxos),
    {
        wallet.list_unspent()
    }

    /// The outputs of the wallet that are not spent.
    pub fn list_unspent(wallet: &Wallet) -> (r: Vec<LocalUtxo>)
        ensures
            utxos_view(r@) == unspent(wallet@.utxos),
    {
        wallet.list_unspent()
    }

    /// The network of the wallet.
    pub fn wallet_network(wallet: &Wallet) -> (r: Network)
        ensures
            r == wallet@.network,
    {
        wallet.network
    }

    /// A fresh mnemonic of the given number of words.
    pub fn generate_seed_from_word_count(word_count: WordCount) -> (r: Result<
        Mnemonic,
        WalletError,
    >)
        ensures
            r is Ok ==> crate::mnemonic::word_count(r->Ok_0.text@) == words_of(word_count)
                && mnemonic_text(r->Ok_0.text@) == Some(r->Ok_0.text@),
            r is Err ==> r == Err::<Mnemonic, WalletError>(WalletError::Generic),
    {
        Mnemonic::generate(word_count)
    }

    /// The mnemonic that `mnemonic` denotes.
    pub fn generate_seed_from_string(mnemonic: &str) -> (r: Result<Mnemonic, WalletError>)
        ensures
            match mnemonic_text(mnemonic@) {
                Some(t) => r is Ok && r->Ok_0.text@ == t,
                None => r == Err::<Mnemonic, WalletError>(
                    WalletError::ValidationError(Invalid::KeyText),
                ),
            },
    {
        Mnemonic::from_string(mnemonic)
    }

    /// The mnemonic that stands for `entropy`.
    pub fn generate_seed_from_entropy(entropy: Vec<u8>) -> (r: Result<Mnemonic, WalletError>)
        ensures
            match entropy_mnemonic(entropy@) {
                Some(t) => r is Ok && r->Ok_0.text@ == t,
                None => r == Err::<Mnemonic, WalletError>(
                    WalletError::ValidationError(Invalid::KeyText),
                ),
            },
    {
        Mnemonic::from_entropy(&entropy)
    }

    /// Takes over into `psbt` the signatures that a signer made, for the
    /// inputs that the options let it sign, and says whether every input
    /// now meets its signature requirement.
    pub fn sign(psbt: &Psbt, signatures: &Psbt, sign_options: Option<SignOptions>) -> (r: Result<
        SignResult,
        WalletError,
    >)
        ensures
            match sign_spec(
                psbt@,
                signatures@,
                match sign_options {
                    Some(o) => o,
                    None => default_sign_options(),
                },
            ) {
                Ok(m) => r is Ok && r->Ok_0.psbt@ == m && r->Ok_0.fully_signed == is_complete(m),
                Err(e) => r == Err::<SignResult, WalletError>(e),
            },
    {
        let options: SignOptions = match sign_options {
            Some(o) => o,
            None => SignOptions { trust_witness_utxo: false, sign_complete: false },
        };
        psbt.sign(signatures, options)
    }

    /// What the wallet knows about the input that spends its output `utxo`.
    pub fn get_psbt_input(
        wallet: &Wallet,
        utxo: &LocalUtxo,
        only_witness_utxo: bool,
        psbt_sighash_type: Option<u32>,
    ) -> (r: Result<PsbtInput, WalletError>)
        ensures
            match psbt_input_for(wallet@, utxo@, only_witness_utxo, psbt_sighash_type) {
                Ok(i) => r is Ok && r->Ok_0@ == i,
                Err(e) => r == Err::<PsbtInput, WalletError>(e),
            },
    {
        if !wallet.is_mine(&utxo.txout.script_pubkey) {
            return Err(WalletError::ValidationError(Invalid::OutPoint));
        }
        let non_witness_utxo: Option<Transaction> = if only_witness_utxo {
            None
        } else {
            match wallet.find_transaction(&utxo.outpoint.txid) {
                Some(at) => match &wallet.transactions[at].transaction {
                    Some(t) => Some(t.copy()),
                    None => None,
                },
                None => None,
            }
        };
        let input = PsbtInput {
            witness_utxo: Some(utxo.txout.copy()),
            non_witness_utxo,
            partial_sigs: Vec::new(),
            sighash_type: psbt_sighash_type,
            bip32_derivation: Vec::new(),
            redeem_script: None,
            witness_script: None,
            other: Vec::new(),
        };
        assert(input@.partial_sigs =~= Seq::<EntryView>::empty());
        assert(input@.bip32_derivation =~= Seq::<EntryView>::empty());
        assert(input@.other =~= Seq::<EntryView>::empty());
        Ok(input)
    }

    /// The history of the wallet, with or without the transactions
    /// themselves.
    pub fn get_transactions(wallet: &Wallet, include_raw: bool) -> (r: Vec<TransactionDetails>)
        ensures
            r.len() == wallet@.transactions.len(),
            forall|i: int|
                0 <= i < r.len() ==> (#[trigger] r@[i])@ == listed(
                    wallet@.transactions[i],
                    include_raw,
                ),
    {
        let mut r: Vec<TransactionDetails> = Vec::new();
        let mut i: usize = 0;
        while i < wallet.transactions.len()
            invariant
                i <= wallet.transactions.len(),
                r.len() == i,
                forall|k: int|
                    0 <= k < i ==> (#[trigger] r@[k])@ == listed(
                        wallet@.transactions[k],
                        include_raw,
                    ),
            decreases wallet.transactions.len() - i,
        {
            assert(wallet@.transactions[i as int] == wallet.transactions@[i as int]@);
            let d = &wallet.transactions[i];
            let transaction: Option<Transaction> = if include_raw {
                match &d.transaction {
                    Some(t) => Some(t.copy()),
                    None => None,
                }
            } else {
                None
            };
            r.push(
                TransactionDetails {
                    txid: d.txid,
                    transaction,
                    received: d.received,
                    sent: d.sent,
                    fee: d.fee,
                    confirmation_time: d.confirmation_time,
                },
            );
            i += 1;
        }
        r
    }

    /// The descriptor of a keychain of the wallet, as text with its secret
    /// keys, and the wallet's network.
    pub fn get_descriptor_for_keychain(wallet: &Wallet, keychain: KeychainKind) -> (r: Result<
        (String, Network),
        WalletError,
    >)
        ensures
            match descriptor_texts(keychain_descriptor(wallet@, keychain), wallet@.network) {
                Some(_) => r is Ok && r->Ok_0.1 == wallet@.network && r->Ok_0.0@ == private_text(
                    keychain_descriptor(wallet@, keychain),
                    wallet@.network,
                ),
                None => r == Err::<(String, Network), WalletError>(WalletError::Generic),
            },
    {
        let found = match keychain {
            KeychainKind::External => texts_of(wallet.descriptor.as_str(), wallet.network),
            KeychainKind::Internal => match &wallet.change_descriptor {
                Some(d) => texts_of(d.as_str(), wallet.network),
                None => texts_of(wallet.descriptor.as_str(), wallet.network),
            },
        };
        match found {
            Some(t) => Ok((t.with_secrets, wallet.network)),
            None => Err(WalletError::Generic),
        }
    }
}

} // verus!
