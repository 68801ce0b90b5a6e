//! Fee bumping: the replacement of an unconfirmed transaction of the wallet
//! by one that pays a higher fee rate.

use vstd::prelude::*;
use crate::builder::{
    coins_distinct, copy_outs, plan, plan_is, plan_spec, PlanView, Selection, SelectionView, TxBuildPlan,
};
use crate::error::{Invalid, WalletError};
use crate::fee::{cap64, MAX_MONEY};
use crate::tx::{is_explicitly_rbf_spec, weight_spec, Transaction, TransactionView, TxInView};
use crate::tx_builder::{
    eligible_coins, eligible_coins_of, sequence_for, sequence_of, utxos_view, wallet_required,
    wallet_required_of, LocalUtxo, LocalUtxoView, ParamsView, SatisfactionWeights, TxParams,
    SEQUENCE_FINAL, SEQUENCE_RBF_LIMIT,
};
use crate::types::{
    coins_view, outs_view, sum_coins, sum_out, ChangeSpendPolicy, Coin, CoinView, FeePolicy,
    OutPoint, RbfValue, Script, TxOut, TxOutView,
};
use crate::wallet::{DetailsView, TransactionDetails};

verus! {

/// The least by which the fee rate of a replacement must exceed that of the
/// transaction it replaces: one satoshi per virtual byte, in thousandths.
pub const MIN_RELAY_INCREMENT: u64 = 1000;

/// The virtual size of a transaction, held at the largest `u64`.
pub open spec fn vsize_spec(tx: TransactionView) -> int {
    cap64((weight_spec(tx) + 3) / 4)
}

/// Whether the rate `new_rate` exceeds the rate of a transaction of fee
/// `fee` and virtual size `vsize` by more than the least increment. Rates in
/// thousandths of a satoshi per virtual byte; compared without rounding.
pub open spec fn rate_exceeds(new_rate: u64, fee: u64, vsize: int) -> bool {
    new_rate * vsize > fee * 1000 + MIN_RELAY_INCREMENT * vsize
}

/// The outpoints that the inputs `s` spend.
pub open spec fn outpoints_of(s: Seq<TxInView>) -> Seq<OutPoint> {
    Seq::new(s.len(), |i: int| s[i].previous_output)
}

/// The place of the first output at or after `from` that pays to `script`;
/// the length of `outs` where there is none.
pub open spec fn script_index(outs: Seq<TxOutView>, script: Seq<u8>, from: int) -> int
    decreases outs.len() - from,
{
    if from >= outs.len() {
        outs.len() as int
    } else if outs[from].script == script {
        from
    } else {
        script_index(outs, script, from + 1)
    }
}

/// The outputs that the replacement keeps as they are: all, or all but the
/// first that pays to the script that may shrink.
pub open spec fn kept_outputs(outs: Seq<TxOutView>, shrink: Option<Seq<u8>>) -> Seq<TxOutView> {
    match shrink {
        None => outs,
        Some(s) => {
            let at = script_index(outs, s, 0);
            outs.take(at) + outs.skip(at + 1)
        },
    }
}

/// What automatic selection goes by when a replacement needs more inputs:
/// any unspent output of the wallet but those of the transaction replaced.
pub open spec fn bump_params(tx: TransactionView, new_rate: u64) -> ParamsView {
    ParamsView {
        recipients: Seq::empty(),
        utxos: outpoints_of(tx.input),
        foreign_utxos: Seq::empty(),
        unspendable: Seq::empty(),
        manually_selected_only: false,
        change_policy: ChangeSpendPolicy::ChangeAllowed,
        fee_policy: FeePolicy::Rate(new_rate),
        drain_wallet: false,
        drain_to: None,
        rbf: None,
        data: Seq::empty(),
    }
}

/// The selection of a replacement. The inputs of the transaction replaced
/// are required. Where an output may shrink, it is taken out of the fixed
/// outputs and takes the place of the change output, and no input is added;
/// else every output is kept and further outputs of the wallet may be spent.
pub open spec fn bump_selection(
    tx: TransactionView,
    required: Seq<CoinView>,
    utxos: Seq<LocalUtxoView>,
    weights: SatisfactionWeights,
    change_script: Seq<u8>,
    new_rate: u64,
    shrink: Option<Seq<u8>>,
    sequence: u32,
) -> SelectionView {
    SelectionView {
        required,
        optional: match shrink {
            Some(_) => Seq::empty(),
            None => eligible_coins(utxos, bump_params(tx, new_rate), weights),
        },
        outputs: kept_outputs(tx.output, shrink),
        policy: FeePolicy::Rate(new_rate),
        change_script: match shrink {
            Some(s) => s,
            None => change_script,
        },
        take_all: false,
        sequence,
    }
}

/// Whether every outpoint of `points` names an output of the wallet, none
/// of them twice. The weights of the keychains have no say in it.
pub open spec fn all_owned(points: Seq<OutPoint>, utxos: Seq<LocalUtxoView>) -> bool {
    wallet_required(points, utxos, SatisfactionWeights { external: 0, internal: 0 }) is Some
}

/// Whether the wallet can replace the transaction: it is not confirmed, the
/// wallet holds it whole and knows its fee, it signals that it may be
/// replaced, and every output it spends is the wallet's own, none of them
/// spent twice.
pub open spec fn replaceable(d: DetailsView, utxos: Seq<LocalUtxoView>) -> bool {
    d.confirmation_time is None && d.transaction is Some && d.fee is Some
        && is_explicitly_rbf_spec(d.transaction->0) && all_owned(
        outpoints_of(d.transaction->0.input),
        utxos,
    )
}

/// Whether the wallet's outputs that `points` names are found does not
/// depend on the weights of the keychains.
pub proof fn lemma_owned_whatever_weights(
    points: Seq<OutPoint>,
    utxos: Seq<LocalUtxoView>,
    a: SatisfactionWeights,
    b: SatisfactionWeights,
)
    ensures
        wallet_required(points, utxos, a) is Some == wallet_required(points, utxos, b) is Some,
    decreases points.len(),
{
    if points.len() > 0 {
        lemma_owned_whatever_weights(points.drop_last(), utxos, a, b);
    }
}

/// The plan of the replacement of the transaction `d` at the rate
/// `new_rate`, or the reason why there is none. The checks come in this
/// order: whether the transaction can be replaced, the sequence number,
/// the rate, the output that may shrink; then selection, and at last the
/// fee, which must exceed the fee of the transaction replaced.
pub open spec fn bump_spec(
    d: DetailsView,
    utxos: Seq<LocalUtxoView>,
    weights: SatisfactionWeights,
    change_script: Seq<u8>,
    new_rate: u64,
    shrink: Option<Seq<u8>>,
    rbf: Option<RbfValue>,
) -> Result<PlanView, WalletError> {
    if !replaceable(d, utxos) {
        Err(WalletError::IrreplaceableTransaction)
    } else if sequence_of(rbf) is None {
        Err(WalletError::ValidationError(Invalid::Sequence))
    } else if !rate_exceeds(new_rate, d.fee->0, vsize_spec(d.transaction->0)) {
        Err(WalletError::ValidationError(Invalid::FeeRate))
    } else if shrink is Some && script_index(d.transaction->0.output, shrink->0, 0)
        >= d.transaction->0.output.len() {
        Err(WalletError::ValidationError(Invalid::ShrinkTarget))
    } else {
        match plan_spec(
            bump_selection(
                d.transaction->0,
                wallet_required(outpoints_of(d.transaction->0.input), utxos, weights)->0,
                utxos,
                weights,
                change_script,
                new_rate,
                shrink,
                sequence_of(rbf)->0,
            ),
        ) {
            Ok(p) => if p.fee > d.fee->0 {
                Ok(p)
            } else {
                Err(WalletError::ValidationError(Invalid::Fee))
            },
            Err(e) => Err(e),
        }
    }
}

/// A replacement is planned only at a rate that exceeds the rate of the
/// transaction replaced by more than the least increment, and only with a
/// fee above the fee of that transaction; at any other rate the request is
/// rejected.
pub proof fn lemma_bump_needs_higher_rate(
    d: DetailsView,
    utxos: Seq<LocalUtxoView>,
    weights: SatisfactionWeights,
    change_script: Seq<u8>,
    new_rate: u64,
    shrink: Option<Seq<u8>>,
    rbf: Option<RbfValue>,
)
    ensures
        bump_spec(d, utxos, weights, change_script, new_rate, shrink, rbf) is Ok ==> replaceable(
            d,
            utxos,
        ) && rate_exceeds(new_rate, d.fee->0, vsize_spec(d.transaction->0)) && bump_spec(
            d,
            utxos,
            weights,
            change_script,
            new_rate,
            shrink,
            rbf,
        )->Ok_0.fee > d.fee->0,
        replaceable(d, utxos) && !rate_exceeds(
            new_rate,
            d.fee->0,
            vsize_spec(d.transaction->0),
        ) ==> bump_spec(d, utxos, weights, change_script, new_rate, shrink, rbf) is Err,
{
}

/// A transaction that is confirmed, that the wallet does not hold whole, or
/// that does not signal that it may be replaced is never replaced, whatever
/// else is asked.
pub proof fn lemma_bump_only_replaceable(
    d: DetailsView,
    utxos: Seq<LocalUtxoView>,
    weights: SatisfactionWeights,
    change_script: Seq<u8>,
    new_rate: u64,
    shrink: Option<Seq<u8>>,
    rbf: Option<RbfValue>,
)
    requires
        d.confirmation_time is Some || d.transaction is None || !is_explicitly_rbf_spec(
            d.transaction->0,
        ),
    ensures
        bump_spec(d, utxos, weights, change_script, new_rate, shrink, rbf) == Err::<
            PlanView,
            WalletError,
        >(WalletError::IrreplaceableTransaction),
{
}

/// Whether the wallet can replace the transaction.
pub fn can_replace(replaced: &TransactionDetails, utxos: &Vec<LocalUtxo>) -> (r: bool)
    ensures
        r == replaceable(replaced@, utxos_view(utxos@)),
{
    if replaced.confirmation_time.is_some() || replaced.fee.is_none() {
        return false;
    }
    match &replaced.transaction {
        Some(tx) => {
            let points: Vec<OutPoint> = outpoints(tx);
            tx.is_explicitly_rbf() && wallet_required_of(
                &points,
                utxos,
                SatisfactionWeights { external: 0, internal: 0 },
            ).is_some()
        },
        None => false,
    }
}

/// Whether `new_rate` exceeds the rate of a transaction of fee `fee` and
/// virtual size `vsize` by more than the least increment.
pub fn rate_exceeds_of(new_rate: u64, fee: u64, vsize: u64) -> (r: bool)
    ensures
        r == rate_exceeds(new_rate, fee, vsize as int),
{
    proof {
        assert(new_rate * vsize <= 0xffff_ffff_ffff_ffff * 0xffff_ffff_ffff_ffff)
            by (nonlinear_arith)
            requires
                0 <= new_rate <= 0xffff_ffff_ffff_ffff,
                0 <= vsize <= 0xffff_ffff_ffff_ffff,
        ;
        assert(MIN_RELAY_INCREMENT * vsize <= 1000 * 0xffff_ffff_ffff_ffff) by (nonlinear_arith)
            requires
                MIN_RELAY_INCREMENT == 1000,
                0 <= vsize <= 0xffff_ffff_ffff_ffff,
        ;
    }
    let lhs: u128 = new_rate as u128 * vsize as u128;
    let rhs: u128 = fee as u128 * 1000 + MIN_RELAY_INCREMENT as u128 * vsize as u128;
    lhs > rhs
}

/// The outpoints that the inputs of `tx` spend.
pub fn outpoints(tx: &Transaction) -> (r: Vec<OutPoint>)
    ensures
        r@ == outpoints_of(tx@.input),
{
    let mut r: Vec<OutPoint> = Vec::new();
    let mut i: usize = 0;
    while i < tx.input.len()
        invariant
            i <= tx.input.len(),
            r.len() == i,
            forall|k: int| 0 <= k < i ==> r@[k] == tx@.input[k].previous_output,
        decreases tx.input.len() - i,
    {
        assert(tx@.input[i as int] == tx.input@[i as int]@);
        r.push(tx.input[i].previous_output);
        i += 1;
    }
    assert(r@ =~= outpoints_of(tx@.input));
    r
}

/// The place of the first output that pays to `script`; the length of
/// `outs` where there is none.
pub fn find_script(outs: &Vec<TxOut>, script: &Script) -> (r: usize)
    ensures
        r == script_index(outs_view(outs@), script@, 0),
        r <= outs.len(),
{
    let ghost all = outs_view(outs@);
    let mut i: usize = 0;
    while i < outs.len()
        invariant
            i <= outs.len(),
            all == outs_view(outs@),
            script_index(all, script@, 0) == script_index(all, script@, i as int),
        decreases outs.len() - i,
    {
        assert(all[i as int] == outs@[i as int]@);
        if outs[i].script_pubkey.same(script) {
            return i;
        }
        i += 1;
    }
    i
}

/// Copies of all outputs but the one at `at`.
pub(crate) fn outputs_without(outs: &Vec<TxOut>, at: usize) -> (r: Vec<TxOut>)
    requires
        at < outs.len(),
    ensures
        outs_view(r@) == outs_view(outs@).take(at as int) + outs_view(outs@).skip(at + 1),
{
    let ghost all = outs_view(outs@);
    let mut r: Vec<TxOut> = Vec::new();
    let mut i: usize = 0;
    while i < outs.len()
        invariant
            i <= outs.len(),
            at < outs.len(),
            all == outs_view(outs@),
            i <= at ==> outs_view(r@) =~= all.take(i as int),
            i > at ==> outs_view(r@) =~= all.take(at as int) + all.subrange(at + 1, i as int),
        decreases outs.len() - i,
    {
        if i != at {
            let ghost before = r@;
            r.push(outs[i].copy());
            assert(outs_view(r@) =~= outs_view(before).push(all[i as int]));
        }
        i += 1;
    }
    assert(all.subrange(at + 1, outs.len() as int) =~= all.skip(at + 1));
    r
}

/// Plans the replacement of the transaction `replaced` of the wallet's
/// history by one that pays `new_rate`, in thousandths of a satoshi per
/// virtual byte. `shrink` names the output that may pay for the higher fee;
/// without it further outputs of the wallet may be spent, and leftover goes
/// to `change_script`.
pub fn bump_fee(
    replaced: &TransactionDetails,
    utxos: &Vec<LocalUtxo>,
    weights: SatisfactionWeights,
    change_script: &Script,
    new_rate: u64,
    shrink: &Option<Script>,
    rbf: Option<RbfValue>,
) -> (r: Result<TxBuildPlan, WalletError>)
    ensures
        plan_is(
            r,
            bump_spec(
                replaced@,
                utxos_view(utxos@),
                weights,
                change_script@,
                new_rate,
                crate::psbt::opt_script_view(*shrink),
                rbf,
            ),
        ),
        r is Ok ==> rate_exceeds(
            new_rate,
            replaced@.fee->0,
            vsize_spec(replaced@.transaction->0),
        ),
        r is Ok ==> r->Ok_0.fee > replaced@.fee->0,
        r is Ok ==> coins_distinct(r->Ok_0@.inputs),
        r is Ok ==> sum_coins(r->Ok_0@.inputs) == sum_out(r->Ok_0@.outputs) + r->Ok_0.fee,
        r is Ok ==> sum_coins(r->Ok_0@.inputs) <= MAX_MONEY,
        r is Ok && rbf is Some ==> r->Ok_0.sequence < SEQUENCE_RBF_LIMIT,
        r is Ok && rbf is None ==> r->Ok_0.sequence == SEQUENCE_FINAL,
{
    if !can_replace(replaced, utxos) {
        return Err(WalletError::IrreplaceableTransaction);
    }
    let sequence: u32 = match sequence_for(rbf) {
        Some(s) => s,
        None => {
            return Err(WalletError::ValidationError(Invalid::Sequence));
        },
    };
    let tx: &Transaction = match &replaced.transaction {
        Some(t) => t,
        None => {
            return Err(WalletError::IrreplaceableTransaction);
        },
    };
    let fee: u64 = match replaced.fee {
        Some(f) => f,
        None => {
            return Err(WalletError::IrreplaceableTransaction);
        },
    };
    let points: Vec<OutPoint> = outpoints(tx);
    proof {
        lemma_owned_whatever_weights(
            points@,
            utxos_view(utxos@),
            weights,
            SatisfactionWeights { external: 0, internal: 0 },
        );
    }
    let required: Vec<Coin> = match wallet_required_of(&points, utxos, weights) {
        Some(c) => c,
        None => {
            return Err(WalletError::IrreplaceableTransaction);
        },
    };
    if !rate_exceeds_of(new_rate, fee, tx.vsize()) {
        return Err(WalletError::ValidationError(Invalid::FeeRate));
    }
    let outputs: Vec<TxOut>;
    let optional: Vec<Coin>;
    let change: Script;
    match shrink {
        Some(s) => {
            let at: usize = find_script(&tx.output, s);
            if at >= tx.output.len() {
                return Err(WalletError::ValidationError(Invalid::ShrinkTarget));
            }
            outputs = outputs_without(&tx.output, at);
            optional = Vec::new();
            change = s.copy();
            assert(coins_view(optional@) =~= Seq::<CoinView>::empty());
        },
        None => {
            outputs = copy_outs(&tx.output);
            let params = TxParams {
                recipients: Vec::new(),
                utxos: points,
                foreign_utxos: Vec::new(),
                unspendable: Vec::new(),
                manually_selected_only: false,
                change_policy: ChangeSpendPolicy::ChangeAllowed,
                fee_policy: FeePolicy::Rate(new_rate),
                drain_wallet: false,
                drain_to: None,
                rbf: None,
                data: Vec::new(),
            };
            assert(params@.recipients =~= Seq::<TxOutView>::empty());
            assert(params@.foreign_utxos =~= Seq::empty());
            assert(params@ == bump_params(tx@, new_rate));
            optional = eligible_coins_of(utxos, &params, weights);
            change = change_script.copy();
        },
    }
    let selection = Selection {
        required,
        optional,
        outputs,
        policy: FeePolicy::Rate(new_rate),
        change_script: change,
        take_all: false,
        sequence,
    };
    assert(selection@ == bump_selection(
        tx@,
        wallet_required(outpoints_of(tx@.input), utxos_view(utxos@), weights)->0,
        utxos_view(utxos@),
        weights,
        change_script@,
        new_rate,
        crate::psbt::opt_script_view(*shrink),
        sequence,
    ));
    match plan(&selection) {
        Ok(p) => if p.fee > fee {
            Ok(p)
        } else {
            Err(WalletError::ValidationError(Invalid::Fee))
        },
        Err(e) => Err(e),
    }
}

} // verus!
