//! The transaction builder: from the caller's wishes and the wallet's
//! unspent outputs to a selection, and from there to a plan.

use vstd::prelude::*;
use crate::builder::{
    coins_distinct, draft_spec, lemma_plan_inputs, plan, plan_is, plan_spec, push_coins, PlanView,
    Selection, SelectionView, TxBuildPlan,
};
use crate::error::{Invalid, WalletError};
use crate::fee::{dust_threshold, dust_threshold_of};
use crate::script::{data_script, data_script_of};
use crate::types::{
    coins_view, outs_view, same_txid, sum_coins, sum_out, ChangeSpendPolicy, Coin, CoinView,
    FeePolicy, InputOrigin, KeychainKind, OutPoint, RbfValue, Script, TxOut, TxOutView,
};

verus! {

/// The sequence number of an input that does not signal replaceability.
pub const SEQUENCE_FINAL: u32 = 0xFFFF_FFFF;

/// The sequence number that a replaceable transaction uses unless told another.
pub const SEQUENCE_RBF_DEFAULT: u32 = 0xFFFF_FFFD;

/// The least sequence number that no longer signals replaceability.
pub const SEQUENCE_RBF_LIMIT: u32 = 0xFFFF_FFFE;

/// A payment: the script to pay to and the amount.
#[derive(Clone, Debug)]
pub struct ScriptAmount {
    pub script: Script,
    pub amount: u64,
}

impl View for ScriptAmount {
    type V = TxOutView;

    open spec fn view(&self) -> TxOutView {
        TxOutView { value: self.amount, script: self.script@ }
    }
}

/// What an unspent output of the wallet is in contracts.
pub struct LocalUtxoView {
    pub outpoint: OutPoint,
    pub value: u64,
    pub script: Seq<u8>,
    pub keychain: KeychainKind,
    pub is_spent: bool,
}

/// An output that the wallet owns, as the wallet's state reports it.
#[derive(Clone, Debug)]
pub struct LocalUtxo {
    pub outpoint: OutPoint,
    pub txout: TxOut,
    pub keychain: KeychainKind,
    pub is_spent: bool,
}

impl View for LocalUtxo {
    type V = LocalUtxoView;

    open spec fn view(&self) -> LocalUtxoView {
        LocalUtxoView {
            outpoint: self.outpoint,
            value: self.txout.value,
            script: self.txout.script_pubkey@,
            keychain: self.keychain,
            is_spent: self.is_spent,
        }
    }
}

/// The unspent outputs of `s`, each by its view.
pub open spec fn utxos_view(s: Seq<LocalUtxo>) -> Seq<LocalUtxoView> {
    s.map_values(|u: LocalUtxo| u@)
}

/// What a previous transaction is in contracts.
pub struct PrevTxView {
    pub txid: [u8; 32],
    pub output: Seq<TxOutView>,
}

/// A previous transaction, as far as spending one of its outputs needs it:
/// its id and its outputs.
#[derive(Clone, Debug)]
pub struct PrevTx {
    pub txid: [u8; 32],
    pub output: Vec<TxOut>,
}

impl View for PrevTx {
    type V = PrevTxView;

    open spec fn view(&self) -> PrevTxView {
        PrevTxView { txid: self.txid, output: outs_view(self.output@) }
    }
}

/// What a foreign input is in contracts.
pub struct ForeignUtxoView {
    pub outpoint: OutPoint,
    pub witness_utxo: Option<TxOutView>,
    pub non_witness_utxo: Option<PrevTxView>,
    pub satisfaction_weight: u32,
}

/// An output owned by another signer: the output itself or the transaction
/// that created it, and the weight of what will satisfy its script.
#[derive(Clone, Debug)]
pub struct ForeignUtxo {
    pub outpoint: OutPoint,
    pub witness_utxo: Option<TxOut>,
    pub non_witness_utxo: Option<PrevTx>,
    pub satisfaction_weight: u32,
}

impl View for ForeignUtxo {
    type V = ForeignUtxoView;

    open spec fn view(&self) -> ForeignUtxoView {
        ForeignUtxoView {
            outpoint: self.outpoint,
            witness_utxo: match self.witness_utxo {
                Some(o) => Some(o@),
                None => None,
            },
            non_witness_utxo: match self.non_witness_utxo {
                Some(t) => Some(t@),
                None => None,
            },
            satisfaction_weight: self.satisfaction_weight,
        }
    }
}

/// The foreign inputs of `s`, each by its view.
pub open spec fn foreign_view(s: Seq<ForeignUtxo>) -> Seq<ForeignUtxoView> {
    s.map_values(|f: ForeignUtxo| f@)
}

/// The payments of `s`, each as the output it asks for.
pub open spec fn recipients_view(s: Seq<ScriptAmount>) -> Seq<TxOutView> {
    s.map_values(|r: ScriptAmount| r@)
}

/// The weight of what satisfies the scripts of each keychain.
#[derive(Clone, Copy, Debug, PartialEq, Eq, Structural)]
pub struct SatisfactionWeights {
    pub external: u32,
    pub internal: u32,
}

/// What the caller's wishes are in contracts.
pub struct ParamsView {
    pub recipients: Seq<TxOutView>,
    pub utxos: Seq<OutPoint>,
    pub foreign_utxos: Seq<ForeignUtxoView>,
    pub unspendable: Seq<OutPoint>,
    pub manually_selected_only: bool,
    pub change_policy: ChangeSpendPolicy,
    pub fee_policy: FeePolicy,
    pub drain_wallet: bool,
    pub drain_to: Option<Seq<u8>>,
    pub rbf: Option<RbfValue>,
    pub data: Seq<u8>,
}

/// What the caller asks of a transaction.
#[derive(Clone, Debug)]
pub struct TxParams {
    /// Whom to pay, and how much.
    pub recipients: Vec<ScriptAmount>,
    /// Outputs of the wallet that must be spent.
    pub utxos: Vec<OutPoint>,
    /// Outputs of other signers that must be spent.
    pub foreign_utxos: Vec<ForeignUtxo>,
    /// Outputs of the wallet that automatic selection must leave alone.
    pub unspendable: Vec<OutPoint>,
    /// Whether only the outputs named in `utxos` and `foreign_utxos` are spent.
    pub manually_selected_only: bool,
    /// Which keychains automatic selection draws from.
    pub change_policy: ChangeSpendPolicy,
    /// How the fee is fixed.
    pub fee_policy: FeePolicy,
    /// Whether every eligible output of the wallet is spent.
    pub drain_wallet: bool,
    /// Where leftover value goes, in place of a change address of the wallet.
    pub drain_to: Option<Script>,
    /// Whether, and with which sequence number, the transaction is replaceable.
    pub rbf: Option<RbfValue>,
    /// Data to embed in an unspendable output; none if empty.
    pub data: Vec<u8>,
}

impl View for TxParams {
    type V = ParamsView;

    open spec fn view(&self) -> ParamsView {
        ParamsView {
            recipients: recipients_view(self.recipients@),
            utxos: self.utxos@,
            foreign_utxos: foreign_view(self.foreign_utxos@),
            unspendable: self.unspendable@,
            manually_selected_only: self.manually_selected_only,
            change_policy: self.change_policy,
            fee_policy: self.fee_policy,
            drain_wallet: self.drain_wallet,
            drain_to: match self.drain_to {
                Some(s) => Some(s@),
                None => None,
            },
            rbf: self.rbf,
            data: self.data@,
        }
    }
}

/// The sequence number that every input gets: the final one without
/// replaceability, else the default or the caller's, which must stay below
/// the limit.
pub open spec fn sequence_of(rbf: Option<RbfValue>) -> Option<u32> {
    match rbf {
        None => Some(SEQUENCE_FINAL),
        Some(RbfValue::RbfDefault) => Some(SEQUENCE_RBF_DEFAULT),
        Some(RbfValue::Value(n)) => if n < SEQUENCE_RBF_LIMIT {
            Some(n)
        } else {
            None
        },
    }
}

/// The outputs that the caller fixes: the payments, then the embedded data.
pub open spec fn fixed_outputs(p: ParamsView) -> Seq<TxOutView> {
    if p.data.len() == 0 {
        p.recipients
    } else {
        p.recipients.push(TxOutView { value: 0, script: data_script(p.data) })
    }
}

/// Whether some payment is below the dust threshold of its script. A
/// payment of nothing is so unless its script carries data, whose
/// threshold is zero.
pub open spec fn has_dust(recipients: Seq<TxOutView>) -> bool {
    exists|i: int|
        0 <= i < recipients.len() && (#[trigger] recipients[i]).value < dust_threshold(
            recipients[i].script,
        )
}

/// The output that a foreign input spends: the one given, else the one that
/// the outpoint names in the transaction given, which must be the one that
/// the outpoint names. None where the data is missing or does not fit.
pub open spec fn foreign_txout(f: ForeignUtxoView) -> Option<TxOutView> {
    match f.witness_utxo {
        Some(o) => Some(o),
        None => match f.non_witness_utxo {
            Some(t) => if t.txid == f.outpoint.txid && f.outpoint.vout < t.output.len() {
                Some(t.output[f.outpoint.vout as int])
            } else {
                None
            },
            None => None,
        },
    }
}

/// The foreign inputs as inputs to spend, or None if one is malformed.
pub open spec fn foreign_coins(foreign: Seq<ForeignUtxoView>) -> Option<Seq<CoinView>>
    decreases foreign.len(),
{
    if foreign.len() == 0 {
        Some(Seq::empty())
    } else {
        match (foreign_coins(foreign.drop_last()), foreign_txout(foreign.last())) {
            (Some(rest), Some(o)) => Some(
                rest.push(
                    CoinView {
                        outpoint: foreign.last().outpoint,
                        value: o.value,
                        script: o.script,
                        satisfaction_weight: foreign.last().satisfaction_weight,
                        origin: InputOrigin::Foreign,
                    },
                ),
            ),
            _ => None,
        }
    }
}

/// The first of `utxos` at the outpoint `p`.
pub open spec fn lookup(utxos: Seq<LocalUtxoView>, p: OutPoint) -> Option<LocalUtxoView>
    decreases utxos.len(),
{
    if utxos.len() == 0 {
        None
    } else if utxos[0].outpoint == p {
        Some(utxos[0])
    } else {
        lookup(utxos.drop_first(), p)
    }
}

/// The weight of what satisfies a script of `keychain`.
pub open spec fn weight_for(weights: SatisfactionWeights, keychain: KeychainKind) -> u32 {
    match keychain {
        KeychainKind::External => weights.external,
        KeychainKind::Internal => weights.internal,
    }
}

/// An unspent output of the wallet as an input to spend.
pub open spec fn coin_of(u: LocalUtxoView, weights: SatisfactionWeights) -> CoinView {
    CoinView {
        outpoint: u.outpoint,
        value: u.value,
        script: u.script,
        satisfaction_weight: weight_for(weights, u.keychain),
        origin: InputOrigin::Wallet(u.keychain),
    }
}

/// The outputs of the wallet that `points` names, in that order, as inputs
/// to spend. None where an outpoint is named twice or is not the wallet's.
pub open spec fn wallet_required(
    points: Seq<OutPoint>,
    utxos: Seq<LocalUtxoView>,
    weights: SatisfactionWeights,
) -> Option<Seq<CoinView>>
    decreases points.len(),
{
    if points.len() == 0 {
        Some(Seq::empty())
    } else {
        match (
            wallet_required(points.drop_last(), utxos, weights),
            lookup(utxos, points.last()),
        ) {
            (Some(rest), Some(u)) => if points.drop_last().contains(points.last()) {
                None
            } else {
                Some(rest.push(coin_of(u, weights)))
            },
            _ => None,
        }
    }
}

/// Whether the policy lets automatic selection spend outputs of `keychain`.
pub open spec fn policy_allows(policy: ChangeSpendPolicy, keychain: KeychainKind) -> bool {
    match policy {
        ChangeSpendPolicy::ChangeAllowed => true,
        ChangeSpendPolicy::OnlyChange => keychain == KeychainKind::Internal,
        ChangeSpendPolicy::ChangeForbidden => keychain == KeychainKind::External,
    }
}

/// Whether automatic selection may spend `u`: it is unspent, not set aside,
/// not already named as required, and of a keychain that the policy allows.
pub open spec fn eligible(u: LocalUtxoView, p: ParamsView) -> bool {
    !u.is_spent && !p.unspendable.contains(u.outpoint) && !p.utxos.contains(u.outpoint)
        && policy_allows(p.change_policy, u.keychain)
}

/// The eligible outputs of the wallet, in the wallet's order, as inputs.
pub open spec fn eligible_coins(
    utxos: Seq<LocalUtxoView>,
    p: ParamsView,
    weights: SatisfactionWeights,
) -> Seq<CoinView>
    decreases utxos.len(),
{
    if utxos.len() == 0 {
        Seq::empty()
    } else if eligible(utxos.last(), p) {
        eligible_coins(utxos.drop_last(), p, weights).push(coin_of(utxos.last(), weights))
    } else {
        eligible_coins(utxos.drop_last(), p, weights)
    }
}

/// Whether a transaction without fixed outputs is asked for in earnest: there
/// is a place to sweep to, and something to sweep.
pub open spec fn may_be_empty(p: ParamsView) -> bool {
    p.drain_to is Some && (p.drain_wallet || p.utxos.len() > 0)
}

/// The selection that the caller's wishes amount to, given the outputs to
/// spend that were found for them.
pub open spec fn selection_of(
    p: ParamsView,
    utxos: Seq<LocalUtxoView>,
    weights: SatisfactionWeights,
    change_script: Seq<u8>,
    sequence: u32,
    wallet_coins: Seq<CoinView>,
    foreign: Seq<CoinView>,
) -> SelectionView {
    SelectionView {
        required: wallet_coins + foreign,
        optional: if p.manually_selected_only {
            Seq::empty()
        } else {
            eligible_coins(utxos, p, weights)
        },
        outputs: fixed_outputs(p),
        policy: p.fee_policy,
        change_script: match p.drain_to {
            Some(s) => s,
            None => change_script,
        },
        take_all: p.drain_wallet,
        sequence,
    }
}

/// What is wrong with the caller's wishes by themselves, whatever the
/// wallet holds; None where nothing is. The checks come in this order: the
/// lack of any output, the sequence number, the length of the data,
/// payments below the dust threshold of their script, the foreign inputs.
pub open spec fn params_error(p: ParamsView) -> Option<WalletError> {
    if fixed_outputs(p).len() == 0 && !may_be_empty(p) {
        Some(WalletError::NoRecipients)
    } else if sequence_of(p.rbf) is None {
        Some(WalletError::ValidationError(Invalid::Sequence))
    } else if p.data.len() > 0xffff_ffff {
        Some(WalletError::ValidationError(Invalid::Data))
    } else if has_dust(p.recipients) {
        Some(WalletError::ValidationError(Invalid::RecipientAmount))
    } else if foreign_coins(p.foreign_utxos) is None {
        Some(WalletError::ValidationError(Invalid::ForeignUtxo))
    } else {
        None
    }
}

/// The plan that the builder makes of the caller's wishes `p`, the wallet's
/// unspent outputs, the weights of its keychains and a fresh change script;
/// or the reason why it makes none. The wishes are checked by themselves
/// first, then the required outputs against the wallet; then selection.
pub open spec fn finish_spec(
    p: ParamsView,
    utxos: Seq<LocalUtxoView>,
    weights: SatisfactionWeights,
    change_script: Seq<u8>,
) -> Result<PlanView, WalletError> {
    if params_error(p) is Some {
        Err(params_error(p)->0)
    } else if wallet_required(p.utxos, utxos, weights) is None {
        Err(WalletError::ValidationError(Invalid::OutPoint))
    } else {
        plan_spec(
            selection_of(
                p,
                utxos,
                weights,
                change_script,
                sequence_of(p.rbf)->0,
                wallet_required(p.utxos, utxos, weights)->0,
                foreign_coins(p.foreign_utxos)->0,
            ),
        )
    }
}


/// The sequence number that every input gets, or None where the caller's
/// number would not signal replaceability.
pub fn sequence_for(rbf: Option<RbfValue>) -> (r: Option<u32>)
    ensures
        r == sequence_of(rbf),
        r is Some && rbf is Some ==> r->0 < SEQUENCE_RBF_LIMIT,
        r is Some && rbf is None ==> r->0 == SEQUENCE_FINAL,
{
    match rbf {
        None => Some(SEQUENCE_FINAL),
        Some(RbfValue::RbfDefault) => Some(SEQUENCE_RBF_DEFAULT),
        Some(RbfValue::Value(n)) => if n < SEQUENCE_RBF_LIMIT {
            Some(n)
        } else {
            None
        },
    }
}

/// Whether some payment is below the dust threshold of its script.
pub fn any_dust(recipients: &Vec<ScriptAmount>) -> (r: bool)
    ensures
        r == has_dust(recipients_view(recipients@)),
{
    let mut i: usize = 0;
    while i < recipients.len()
        invariant
            i <= recipients.len(),
            forall|k: int|
                0 <= k < i ==> (#[trigger] recipients_view(recipients@)[k]).value
                    >= dust_threshold(recipients_view(recipients@)[k].script),
        decreases recipients.len() - i,
    {
        assert(recipients_view(recipients@)[i as int] == recipients@[i as int]@);
        if (recipients[i].amount as u128) < dust_threshold_of(&recipients[i].script) {
            return true;
        }
        i += 1;
    }
    false
}

/// The outputs that the caller fixes: the payments, then the embedded data.
pub fn fixed_outputs_of(p: &TxParams) -> (r: Vec<TxOut>)
    ensures
        outs_view(r@) == fixed_outputs(p@),
{
    let mut r: Vec<TxOut> = Vec::new();
    let mut i: usize = 0;
    let ghost all = recipients_view(p.recipients@);
    assert(outs_view(r@) =~= all.take(0));
    while i < p.recipients.len()
        invariant
            i <= p.recipients.len(),
            all == recipients_view(p.recipients@),
            outs_view(r@) == all.take(i as int),
        decreases p.recipients.len() - i,
    {
        let ghost before = r@;
        r.push(TxOut { value: p.recipients[i].amount, script_pubkey: p.recipients[i].script.copy() });
        proof {
            assert(outs_view(r@) =~= outs_view(before).push(all[i as int]));
            assert(all.take(i + 1) =~= all.take(i as int).push(all[i as int]));
        }
        i += 1;
    }
    assert(all.take(p.recipients.len() as int) =~= all);
    if p.data.len() > 0 {
        let ghost before = r@;
        r.push(TxOut { value: 0, script_pubkey: data_script_of(&p.data) });
        proof {
            assert(outs_view(r@) =~= outs_view(before).push(
                TxOutView { value: 0, script: data_script(p.data@) },
            ));
        }
    }
    r
}

/// Whether `p` is among the first `n` of `points`.
pub(crate) fn contains_point(points: &Vec<OutPoint>, n: usize, p: &OutPoint) -> (r: bool)
    requires
        n <= points.len(),
    ensures
        r == points@.take(n as int).contains(*p),
{
    let mut i: usize = 0;
    while i < n
        invariant
            i <= n <= points.len(),
            forall|k: int| 0 <= k < i ==> points@[k] != *p,
        decreases n - i,
    {
        if points[i].same(p) {
            assert(points@.take(n as int)[i as int] == *p);
            return true;
        }
        i += 1;
    }
    false
}

/// The place in `utxos` of the first output at the outpoint `p`.
pub fn lookup_utxo(utxos: &Vec<LocalUtxo>, p: &OutPoint) -> (r: Option<usize>)
    ensures
        match lookup(utxos_view(utxos@), *p) {
            Some(u) => r is Some && r->0 < utxos.len() && utxos@[r->0 as int]@ == u,
            None => r is None,
        },
{
    let ghost all = utxos_view(utxos@);
    let mut i: usize = 0;
    assert(all.skip(0) =~= all);
    while i < utxos.len()
        invariant
            i <= utxos.len(),
            all == utxos_view(utxos@),
            lookup(all, *p) == lookup(all.skip(i as int), *p),
        decreases utxos.len() - i,
    {
        if utxos[i].outpoint.same(p) {
            assert(all.skip(i as int)[0] == utxos@[i as int]@);
            return Some(i);
        }
        proof {
            assert(all.skip(i as int)[0] == utxos@[i as int]@);
            assert(all.skip(i as int).drop_first() =~= all.skip(i + 1));
        }
        i += 1;
    }
    assert(all.skip(utxos.len() as int).len() == 0);
    None
}

/// A failure among the first foreign inputs is a failure of all.
pub proof fn lemma_foreign_coins_prefix(foreign: Seq<ForeignUtxoView>, j: int)
    requires
        0 <= j <= foreign.len(),
        foreign_coins(foreign.take(j)) is None,
    ensures
        foreign_coins(foreign) is None,
    decreases foreign.len() - j,
{
    if j == foreign.len() {
        assert(foreign.take(j) =~= foreign);
    } else {
        assert(foreign.take(j + 1).drop_last() =~= foreign.take(j));
        lemma_foreign_coins_prefix(foreign, j + 1);
    }
}

/// A failure among the first required outpoints is a failure of all.
pub proof fn lemma_wallet_required_prefix(
    points: Seq<OutPoint>,
    utxos: Seq<LocalUtxoView>,
    weights: SatisfactionWeights,
    j: int,
)
    requires
        0 <= j <= points.len(),
        wallet_required(points.take(j), utxos, weights) is None,
    ensures
        wallet_required(points, utxos, weights) is None,
    decreases points.len() - j,
{
    if j == points.len() {
        assert(points.take(j) =~= points);
    } else {
        assert(points.take(j + 1).drop_last() =~= points.take(j));
        lemma_wallet_required_prefix(points, utxos, weights, j + 1);
    }
}

/// The output that the foreign input `f` spends.
pub fn foreign_txout_of(f: &ForeignUtxo) -> (r: Option<TxOut>)
    ensures
        match foreign_txout(f@) {
            Some(o) => r is Some && r->0@ == o,
            None => r is None,
        },
{
    match &f.witness_utxo {
        Some(o) => Some(o.copy()),
        None => match &f.non_witness_utxo {
            Some(t) => {
                let vout: usize = f.outpoint.vout as usize;
                if same_txid(&t.txid, &f.outpoint.txid) && vout < t.output.len() {
                    assert(t@.output[vout as int] == t.output@[vout as int]@);
                    Some(t.output[vout].copy())
                } else {
                    None
                }
            },
            None => None,
        },
    }
}

/// The foreign inputs as inputs to spend, or None if one is malformed.
pub fn foreign_coins_of(foreign: &Vec<ForeignUtxo>) -> (r: Option<Vec<Coin>>)
    ensures
        match foreign_coins(foreign_view(foreign@)) {
            Some(c) => r is Some && coins_view(r->0@) == c,
            None => r is None,
        },
{
    let ghost all = foreign_view(foreign@);
    let mut out: Vec<Coin> = Vec::new();
    let mut i: usize = 0;
    assert(coins_view(out@) =~= Seq::<CoinView>::empty());
    while i < foreign.len()
        invariant
            i <= foreign.len(),
            all == foreign_view(foreign@),
            foreign_coins(all.take(i as int)) == Some(coins_view(out@)),
        decreases foreign.len() - i,
    {
        proof {
            assert(all.take(i + 1).drop_last() =~= all.take(i as int));
            assert(all.take(i + 1).last() == foreign@[i as int]@);
        }
        match foreign_txout_of(&foreign[i]) {
            None => {
                proof {
                    lemma_foreign_coins_prefix(all, i + 1);
                }
                return None;
            },
            Some(o) => {
                let ghost before = out@;
                let coin = Coin {
                    outpoint: foreign[i].outpoint,
                    txout: o,
                    satisfaction_weight: foreign[i].satisfaction_weight,
                    origin: InputOrigin::Foreign,
                };
                out.push(coin);
                proof {
                    assert(coins_view(out@) =~= coins_view(before).push(coin@));
                }
            },
        }
        i += 1;
    }
    assert(all.take(foreign.len() as int) =~= all);
    Some(out)
}

/// The weight of what satisfies a script of `keychain`.
pub fn weight_of(weights: SatisfactionWeights, keychain: KeychainKind) -> (r: u32)
    ensures
        r == weight_for(weights, keychain),
{
    match keychain {
        KeychainKind::External => weights.external,
        KeychainKind::Internal => weights.internal,
    }
}

/// An unspent output of the wallet as an input to spend.
pub fn coin_from(u: &LocalUtxo, weights: SatisfactionWeights) -> (r: Coin)
    ensures
        r@ == coin_of(u@, weights),
{
    Coin {
        outpoint: u.outpoint,
        txout: u.txout.copy(),
        satisfaction_weight: weight_of(weights, u.keychain),
        origin: InputOrigin::Wallet(u.keychain),
    }
}

/// The outputs of the wallet that `points` names, as inputs to spend; None
/// where an outpoint is named twice or is not the wallet's.
pub fn wallet_required_of(
    points: &Vec<OutPoint>,
    utxos: &Vec<LocalUtxo>,
    weights: SatisfactionWeights,
) -> (r: Option<Vec<Coin>>)
    ensures
        match wallet_required(points@, utxos_view(utxos@), weights) {
            Some(c) => r is Some && coins_view(r->0@) == c,
            None => r is None,
        },
{
    let ghost all = utxos_view(utxos@);
    let mut out: Vec<Coin> = Vec::new();
    let mut i: usize = 0;
    assert(coins_view(out@) =~= Seq::<CoinView>::empty());
    while i < points.len()
        invariant
            i <= points.len(),
            all == utxos_view(utxos@),
            wallet_required(points@.take(i as int), all, weights) == Some(coins_view(out@)),
        decreases points.len() - i,
    {
        proof {
            assert(points@.take(i + 1).drop_last() =~= points@.take(i as int));
            assert(points@.take(i + 1).last() == points@[i as int]);
        }
        let twice: bool = contains_point(points, i, &points[i]);
        match lookup_utxo(utxos, &points[i]) {
            Some(at) => {
                if twice {
                    proof {
                        lemma_wallet_required_prefix(points@, all, weights, i + 1);
                    }
                    return None;
                }
                let ghost before = out@;
                let coin = coin_from(&utxos[at], weights);
                out.push(coin);
                proof {
                    assert(coins_view(out@) =~= coins_view(before).push(coin@));
                }
            },
            None => {
                proof {
                    lemma_wallet_required_prefix(points@, all, weights, i + 1);
                }
                return None;
            },
        }
        i += 1;
    }
    assert(points@.take(points.len() as int) =~= points@);
    Some(out)
}

/// Whether the policy lets automatic selection spend outputs of `keychain`.
pub fn policy_allows_of(policy: ChangeSpendPolicy, keychain: KeychainKind) -> (r: bool)
    ensures
        r == policy_allows(policy, keychain),
{
    match policy {
        ChangeSpendPolicy::ChangeAllowed => true,
        ChangeSpendPolicy::OnlyChange => match keychain {
            KeychainKind::Internal => true,
            KeychainKind::External => false,
        },
        ChangeSpendPolicy::ChangeForbidden => match keychain {
            KeychainKind::External => true,
            KeychainKind::Internal => false,
        },
    }
}

/// Whether automatic selection may spend `u`.
pub fn is_eligible(u: &LocalUtxo, p: &TxParams) -> (r: bool)
    ensures
        r == eligible(u@, p@),
{
    assert(p.unspendable@.take(p.unspendable.len() as int) =~= p.unspendable@);
    assert(p.utxos@.take(p.utxos.len() as int) =~= p.utxos@);
    !u.is_spent && !contains_point(&p.unspendable, p.unspendable.len(), &u.outpoint)
        && !contains_point(&p.utxos, p.utxos.len(), &u.outpoint) && policy_allows_of(
        p.change_policy,
        u.keychain,
    )
}

/// The eligible outputs of the wallet, in the wallet's order, as inputs.
pub fn eligible_coins_of(utxos: &Vec<LocalUtxo>, p: &TxParams, weights: SatisfactionWeights) -> (r:
    Vec<Coin>)
    ensures
        coins_view(r@) == eligible_coins(utxos_view(utxos@), p@, weights),
{
    let ghost all = utxos_view(utxos@);
    let mut out: Vec<Coin> = Vec::new();
    let mut i: usize = 0;
    assert(coins_view(out@) =~= Seq::<CoinView>::empty());
    while i < utxos.len()
        invariant
            i <= utxos.len(),
            all == utxos_view(utxos@),
            coins_view(out@) == eligible_coins(all.take(i as int), p@, weights),
        decreases utxos.len() - i,
    {
        proof {
            assert(all.take(i + 1).drop_last() =~= all.take(i as int));
            assert(all.take(i + 1).last() == utxos@[i as int]@);
        }
        if is_eligible(&utxos[i], p) {
            let ghost before = out@;
            let coin = coin_from(&utxos[i], weights);
            out.push(coin);
            proof {
                assert(coins_view(out@) =~= coins_view(before).push(coin@));
            }
        }
        i += 1;
    }
    assert(all.take(utxos.len() as int) =~= all);
    out
}

/// What is wrong with the caller's wishes by themselves; None where
/// nothing is.
pub fn check_params(p: &TxParams) -> (r: Option<WalletError>)
    ensures
        r == params_error(p@),
{
    if p.recipients.len() == 0 && p.data.len() == 0 && !(p.drain_to.is_some() && (p.drain_wallet
        || p.utxos.len() > 0)) {
        return Some(WalletError::NoRecipients);
    }
    if sequence_for(p.rbf).is_none() {
        return Some(WalletError::ValidationError(Invalid::Sequence));
    }
    if p.data.len() > 0xffff_ffff {
        return Some(WalletError::ValidationError(Invalid::Data));
    }
    if any_dust(&p.recipients) {
        return Some(WalletError::ValidationError(Invalid::RecipientAmount));
    }
    if foreign_coins_of(&p.foreign_utxos).is_none() {
        return Some(WalletError::ValidationError(Invalid::ForeignUtxo));
    }
    None
}

/// Builds the plan of the transaction that `p` asks for, out of the wallet's
/// unspent outputs `utxos`. `weights` says what satisfying a script of each
/// keychain weighs, and `change_script` is where change goes unless `p`
/// names another place.
///
/// With recipients and a place to sweep to, the recipients are paid first
/// and the rest is swept.
pub fn finish(
    p: &TxParams,
    utxos: &Vec<LocalUtxo>,
    weights: SatisfactionWeights,
    change_script: &Script,
) -> (r: Result<TxBuildPlan, WalletError>)
    ensures
        plan_is(r, finish_spec(p@, utxos_view(utxos@), weights, change_script@)),
        r is Ok ==> sum_coins(r->Ok_0@.inputs) == sum_out(r->Ok_0@.outputs) + r->Ok_0.fee,
        r is Ok ==> sum_coins(r->Ok_0@.inputs) <= crate::fee::MAX_MONEY,
        r is Ok && p.rbf is Some ==> r->Ok_0.sequence < SEQUENCE_RBF_LIMIT,
        r is Ok && p.rbf is None ==> r->Ok_0.sequence == SEQUENCE_FINAL,
        r is Ok ==> coins_distinct(r->Ok_0@.inputs),
{
    match check_params(p) {
        Some(e) => {
            return Err(e);
        },
        None => {},
    }
    let sequence: u32 = match sequence_for(p.rbf) {
        Some(s) => s,
        None => {
            return Err(WalletError::ValidationError(Invalid::Sequence));
        },
    };
    let outputs: Vec<TxOut> = fixed_outputs_of(p);
    let foreign: Vec<Coin> = match foreign_coins_of(&p.foreign_utxos) {
        Some(c) => c,
        None => {
            return Err(WalletError::ValidationError(Invalid::ForeignUtxo));
        },
    };
    let mut required: Vec<Coin> = match wallet_required_of(&p.utxos, utxos, weights) {
        Some(c) => c,
        None => {
            return Err(WalletError::ValidationError(Invalid::OutPoint));
        },
    };
    push_coins(&mut required, &foreign, foreign.len());
    assert(coins_view(foreign@).take(foreign.len() as int) =~= coins_view(foreign@));
    let optional: Vec<Coin> = if p.manually_selected_only {
        Vec::new()
    } else {
        eligible_coins_of(utxos, p, weights)
    };
    assert(p.manually_selected_only ==> coins_view(optional@) =~= Seq::<CoinView>::empty());
    let change: Script = match &p.drain_to {
        Some(s) => s.copy(),
        None => change_script.copy(),
    };
    let selection = Selection {
        required,
        optional,
        outputs,
        policy: p.fee_policy,
        change_script: change,
        take_all: p.drain_wallet,
        sequence,
    };
    assert(selection@ == selection_of(
        p@,
        utxos_view(utxos@),
        weights,
        change_script@,
        sequence,
        wallet_required(p.utxos@, utxos_view(utxos@), weights)->0,
        foreign_coins(p@.foreign_utxos)->0,
    ));
    plan(&selection)
}


/// A transaction that is built as replaceable numbers every input below
/// the limit, with the default or the caller's number; one that is built as
/// not replaceable numbers every input with the final number.
pub proof fn lemma_build_sequences(
    p: ParamsView,
    utxos: Seq<LocalUtxoView>,
    weights: SatisfactionWeights,
    change_script: Seq<u8>,
    plan: PlanView,
    i: int,
)
    requires
        finish_spec(p, utxos, weights, change_script) == Ok::<PlanView, WalletError>(plan),
        0 <= i < plan.inputs.len(),
    ensures
        crate::psbt::psbt_of_plan(plan).unsigned_tx.input[i].sequence == plan.sequence,
        p.rbf is Some ==> plan.sequence < SEQUENCE_RBF_LIMIT,
        p.rbf == Some(RbfValue::RbfDefault) ==> plan.sequence == SEQUENCE_RBF_DEFAULT,
        p.rbf is None ==> plan.sequence == SEQUENCE_FINAL,
{
    let s = selection_of(
        p,
        utxos,
        weights,
        change_script,
        sequence_of(p.rbf)->0,
        wallet_required(p.utxos, utxos, weights)->0,
        foreign_coins(p.foreign_utxos)->0,
    );
    crate::builder::lemma_plan_balanced(s, plan);
}

/// A transaction that is built pays no output less than the dust threshold
/// of its script. The output that embeds data holds nothing, and the
/// threshold of its script is zero.
pub proof fn lemma_build_no_dust(
    p: ParamsView,
    utxos: Seq<LocalUtxoView>,
    weights: SatisfactionWeights,
    change_script: Seq<u8>,
    plan: PlanView,
    j: int,
)
    requires
        finish_spec(p, utxos, weights, change_script) == Ok::<PlanView, WalletError>(plan),
        0 <= j < plan.outputs.len(),
    ensures
        plan.outputs[j].value >= dust_threshold(plan.outputs[j].script),
        p.data.len() > 0 ==> plan.outputs[p.recipients.len() as int] == (TxOutView {
            value: 0,
            script: data_script(p.data),
        }) && dust_threshold(data_script(p.data)) == 0,
{
    let s = selection_of(
        p,
        utxos,
        weights,
        change_script,
        sequence_of(p.rbf)->0,
        wallet_required(p.utxos, utxos, weights)->0,
        foreign_coins(p.foreign_utxos)->0,
    );
    crate::builder::lemma_plan_outputs(s, plan);
    assert(crate::script::is_op_return(data_script(p.data)));
    if plan.has_change {
        assert(forall|k: int|
            0 <= k < fixed_outputs(p).len() ==> plan.outputs.drop_last()[k] == plan.outputs[k]);
    }
    if j < p.recipients.len() {
        assert(plan.outputs[j] == p.recipients[j]);
    }
}

/// Whether no two of the wallet's outputs are at one outpoint.
pub open spec fn utxos_distinct(utxos: Seq<LocalUtxoView>) -> bool {
    forall|i: int, j: int| 0 <= i < j < utxos.len() ==> utxos[i].outpoint != utxos[j].outpoint
}

/// Whether some output of the wallet is at the outpoint `p`.
pub open spec fn has_outpoint(utxos: Seq<LocalUtxoView>, p: OutPoint) -> bool {
    exists|j: int| 0 <= j < utxos.len() && utxos[j].outpoint == p
}

/// Whether the foreign inputs are at outpoints of their own: no two at one
/// outpoint, and none at the outpoint of an output of the wallet.
pub open spec fn foreign_apart(foreign: Seq<ForeignUtxoView>, utxos: Seq<LocalUtxoView>) -> bool {
    &&& forall|i: int, j: int|
        0 <= i < j < foreign.len() ==> foreign[i].outpoint != foreign[j].outpoint
    &&& forall|i: int| 0 <= i < foreign.len() ==> !has_outpoint(utxos, (#[trigger] foreign[i]).outpoint)
}

/// What is found at an outpoint is an output of the wallet at that
/// outpoint.
pub proof fn lemma_lookup_found(utxos: Seq<LocalUtxoView>, p: OutPoint)
    ensures
        lookup(utxos, p) is Some ==> lookup(utxos, p)->0.outpoint == p && has_outpoint(utxos, p),
    decreases utxos.len(),
{
    if utxos.len() > 0 {
        if utxos[0].outpoint != p {
            lemma_lookup_found(utxos.drop_first(), p);
            if lookup(utxos, p) is Some {
                let j = choose|j: int|
                    0 <= j < utxos.drop_first().len() && utxos.drop_first()[j].outpoint == p;
                assert(utxos[j + 1].outpoint == p);
            }
        }
    }
}

/// The required outputs of the wallet are at the outpoints named, which are
/// distinct and the wallet's.
pub proof fn lemma_wallet_required_outpoints(
    points: Seq<OutPoint>,
    utxos: Seq<LocalUtxoView>,
    weights: SatisfactionWeights,
)
    requires
        wallet_required(points, utxos, weights) is Some,
    ensures
        wallet_required(points, utxos, weights)->0.len() == points.len(),
        forall|i: int|
            0 <= i < points.len() ==> (#[trigger] wallet_required(
                points,
                utxos,
                weights,
            )->0[i]).outpoint == points[i] && has_outpoint(utxos, points[i]),
        forall|i: int, j: int| 0 <= i < j < points.len() ==> points[i] != points[j],
    decreases points.len(),
{
    if points.len() > 0 {
        let head = points.drop_last();
        lemma_wallet_required_outpoints(head, utxos, weights);
        lemma_lookup_found(utxos, points.last());
        let rest = wallet_required(head, utxos, weights)->0;
        let all = wallet_required(points, utxos, weights)->0;
        assert forall|i: int| 0 <= i < points.len() implies (#[trigger] all[i]).outpoint
            == points[i] && has_outpoint(utxos, points[i]) by {
            if i < head.len() {
                assert(all[i] == rest[i]);
                assert(head[i] == points[i]);
            }
        }
        assert forall|i: int, j: int| 0 <= i < j < points.len() implies points[i]
            != points[j] by {
            if j < head.len() {
                assert(head[i] == points[i] && head[j] == points[j]);
            } else {
                assert(head[i] == points[i]);
                if points[i] == points[j] {
                    assert(head.contains(points.last()));
                }
            }
        }
    }
}

/// The foreign inputs are at the outpoints given for them.
pub proof fn lemma_foreign_coins_outpoints(foreign: Seq<ForeignUtxoView>)
    requires
        foreign_coins(foreign) is Some,
    ensures
        foreign_coins(foreign)->0.len() == foreign.len(),
        forall|i: int|
            0 <= i < foreign.len() ==> (#[trigger] foreign_coins(foreign)->0[i]).outpoint
                == foreign[i].outpoint,
    decreases foreign.len(),
{
    if foreign.len() > 0 {
        let head = foreign.drop_last();
        lemma_foreign_coins_outpoints(head);
        let rest = foreign_coins(head)->0;
        let all = foreign_coins(foreign)->0;
        assert forall|i: int| 0 <= i < foreign.len() implies (#[trigger] all[i]).outpoint
            == foreign[i].outpoint by {
            if i < head.len() {
                assert(all[i] == rest[i]);
                assert(head[i] == foreign[i]);
            }
        }
    }
}

/// The eligible outputs of a wallet without doubles are at distinct
/// outpoints of the wallet, none of them named as required.
pub proof fn lemma_eligible_outpoints(
    utxos: Seq<LocalUtxoView>,
    p: ParamsView,
    weights: SatisfactionWeights,
)
    requires
        utxos_distinct(utxos),
    ensures
        coins_distinct(eligible_coins(utxos, p, weights)),
        forall|i: int|
            0 <= i < eligible_coins(utxos, p, weights).len() ==> has_outpoint(
                utxos,
                (#[trigger] eligible_coins(utxos, p, weights)[i]).outpoint,
            ) && !p.utxos.contains(eligible_coins(utxos, p, weights)[i].outpoint),
    decreases utxos.len(),
{
    if utxos.len() > 0 {
        let head = utxos.drop_last();
        assert(utxos_distinct(head)) by {
            assert forall|i: int, j: int| 0 <= i < j < head.len() implies head[i].outpoint
                != head[j].outpoint by {
                assert(head[i] == utxos[i] && head[j] == utxos[j]);
            }
        }
        lemma_eligible_outpoints(head, p, weights);
        let rest = eligible_coins(head, p, weights);
        let all = eligible_coins(utxos, p, weights);
        assert forall|i: int| 0 <= i < all.len() implies has_outpoint(
            utxos,
            (#[trigger] all[i]).outpoint,
        ) && !p.utxos.contains(all[i].outpoint) by {
            if i < rest.len() {
                assert(all[i] == rest[i]);
                let j = choose|j: int| 0 <= j < head.len() && head[j].outpoint == rest[i].outpoint;
                assert(utxos[j].outpoint == rest[i].outpoint);
            } else {
                assert(utxos[utxos.len() - 1].outpoint == all[i].outpoint);
            }
        }
        assert forall|i: int, j: int| 0 <= i < j < all.len() implies all[i].outpoint
            != all[j].outpoint by {
            if j < rest.len() {
                assert(all[i] == rest[i] && all[j] == rest[j]);
            } else {
                assert(all[i] == rest[i]);
                let k = choose|k: int| 0 <= k < head.len() && head[k].outpoint == rest[i].outpoint;
                assert(utxos[k].outpoint != utxos[utxos.len() - 1].outpoint);
            }
        }
    }
}

/// No transaction that is built spends an outpoint twice.
pub proof fn lemma_inputs_distinct(
    p: ParamsView,
    utxos: Seq<LocalUtxoView>,
    weights: SatisfactionWeights,
    change_script: Seq<u8>,
    plan: PlanView,
)
    requires
        finish_spec(p, utxos, weights, change_script) == Ok::<PlanView, WalletError>(plan),
    ensures
        coins_distinct(plan.inputs),
{
}

/// Where the wallet reports no output twice and the foreign inputs are at
/// outpoints of their own, no build is refused for spending an outpoint
/// twice: the plan is the one that selection leads to.
#[verifier::spinoff_prover]
#[verifier::rlimit(80)]
pub proof fn lemma_own_outpoints_pass(
    p: ParamsView,
    utxos: Seq<LocalUtxoView>,
    weights: SatisfactionWeights,
    change_script: Seq<u8>,
    plan: PlanView,
)
    requires
        utxos_distinct(utxos),
        foreign_apart(p.foreign_utxos, utxos),
        params_error(p) is None,
        wallet_required(p.utxos, utxos, weights) is Some,
        draft_spec(
            selection_of(
                p,
                utxos,
                weights,
                change_script,
                sequence_of(p.rbf)->0,
                wallet_required(p.utxos, utxos, weights)->0,
                foreign_coins(p.foreign_utxos)->0,
            ),
        ) == Ok::<PlanView, WalletError>(plan),
    ensures
        coins_distinct(plan.inputs),
        finish_spec(p, utxos, weights, change_script) == Ok::<PlanView, WalletError>(plan),
{
    let wallet = wallet_required(p.utxos, utxos, weights)->0;
    let foreign = foreign_coins(p.foreign_utxos)->0;
    let s = selection_of(
        p,
        utxos,
        weights,
        change_script,
        sequence_of(p.rbf)->0,
        wallet,
        foreign,
    );
    lemma_plan_inputs(s, plan);
    lemma_wallet_required_outpoints(p.utxos, utxos, weights);
    lemma_foreign_coins_outpoints(p.foreign_utxos);
    lemma_eligible_outpoints(utxos, p, weights);
    let all = s.required + s.optional;
    let a = wallet.len() as int;
    let b = a + foreign.len();
    assert forall|i: int, j: int| 0 <= i < j < all.len() implies all[i].outpoint
        != all[j].outpoint by {
        if j < a {
            assert(all[i] == wallet[i] && all[j] == wallet[j]);
        } else if j < b {
            assert(all[j] == foreign[j - a]);
            if i < a {
                assert(all[i] == wallet[i]);
                assert(has_outpoint(utxos, p.utxos[i]));
            } else {
                assert(all[i] == foreign[i - a]);
            }
        } else {
            let e = eligible_coins(utxos, p, weights);
            assert(all[j] == s.optional[j - b]);
            assert(s.optional == e);
            if i < a {
                assert(all[i] == wallet[i]);
                if wallet[i].outpoint == e[j - b].outpoint {
                    assert(p.utxos[i] == e[j - b].outpoint);
                    assert(p.utxos.contains(e[j - b].outpoint));
                }
            } else if i < b {
                assert(all[i] == foreign[i - a]);
            } else {
                assert(all[i] == e[i - b]);
            }
        }
    }
    assert forall|i: int, j: int| 0 <= i < j < plan.inputs.len() implies plan.inputs[i].outpoint
        != plan.inputs[j].outpoint by {
        assert(plan.inputs[i] == all[i] && plan.inputs[j] == all[j]);
    }
}

} // verus!
