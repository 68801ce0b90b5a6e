//! Coin selection and fee settlement: from a pool of spendable inputs and a
//! list of fixed outputs to a balanced transaction plan.

use vstd::prelude::*;
use crate::error::{Invalid, WalletError};
use crate::fee::{
    cap128, cap64, cap_add, dust_threshold, dust_threshold_of, fee_for, fee_of, input_weight,
    inputs_weight, inputs_weight_of, lemma_fee_monotone, lemma_fee_of_capped_weight,
    lemma_fee_rounding, lemma_inputs_weight_push, lemma_outputs_weight_push, output_weight,
    outputs_weight, outputs_weight_of, overhead_weight, tx_weight, varint_len_of, vsize_of,
    MAX_MONEY, TXIN_BASE_WEIGHT,
};
use crate::types::{
    coins_view, outs_view, sum_coins, sum_out, Coin, CoinView, FeePolicy, Script, TxOut, TxOutView,
};

verus! {

/// The most inputs that automatic selection adds, one a round, before it
/// gives up.
pub const MAX_SELECTION_ROUNDS: usize = 1000;

/// What a selection is in contracts.
pub struct SelectionView {
    pub required: Seq<CoinView>,
    pub optional: Seq<CoinView>,
    pub outputs: Seq<TxOutView>,
    pub policy: FeePolicy,
    pub change_script: Seq<u8>,
    pub take_all: bool,
    pub sequence: u32,
}

/// The task of coin selection: the inputs that must be spent, those that may
/// be, in the order in which they are drawn, the outputs to pay, the fee
/// policy, where leftover value goes, whether every input is to be swept, and
/// the sequence number the inputs get.
#[derive(Clone, Debug)]
pub struct Selection {
    pub required: Vec<Coin>,
    pub optional: Vec<Coin>,
    pub outputs: Vec<TxOut>,
    pub policy: FeePolicy,
    pub change_script: Script,
    pub take_all: bool,
    pub sequence: u32,
}

impl View for Selection {
    type V = SelectionView;

    open spec fn view(&self) -> SelectionView {
        SelectionView {
            required: coins_view(self.required@),
            optional: coins_view(self.optional@),
            outputs: outs_view(self.outputs@),
            policy: self.policy,
            change_script: self.change_script@,
            take_all: self.take_all,
            sequence: self.sequence,
        }
    }
}

/// What a plan is in contracts.
pub struct PlanView {
    pub inputs: Seq<CoinView>,
    pub outputs: Seq<TxOutView>,
    pub has_change: bool,
    pub fee: u64,
    pub sequence: u32,
}

/// A balanced transaction: the inputs to spend, the outputs to create (the
/// change output, if there is one, comes last), and the fee that is left.
#[derive(Clone, Debug)]
pub struct TxBuildPlan {
    pub inputs: Vec<Coin>,
    pub outputs: Vec<TxOut>,
    pub has_change: bool,
    pub fee: u64,
    pub sequence: u32,
}

impl View for TxBuildPlan {
    type V = PlanView;

    open spec fn view(&self) -> PlanView {
        PlanView {
            inputs: coins_view(self.inputs@),
            outputs: outs_view(self.outputs@),
            has_change: self.has_change,
            fee: self.fee,
            sequence: self.sequence,
        }
    }
}

/// The inputs after `k` rounds: the required ones and the first `k` optional.
pub open spec fn inputs_at(s: SelectionView, k: int) -> Seq<CoinView> {
    s.required + s.optional.take(k)
}

/// The value of the inputs after `k` rounds.
pub open spec fn funds_at(s: SelectionView, k: int) -> int {
    sum_coins(inputs_at(s, k))
}

/// The fee after `k` rounds of a transaction without change.
pub open spec fn fee_at(s: SelectionView, k: int) -> int {
    fee_for(s.policy, tx_weight(inputs_at(s, k), s.outputs))
}

/// Whether the inputs after `k` rounds pay for the outputs and the fee.
pub open spec fn covers(s: SelectionView, k: int) -> bool {
    funds_at(s, k) >= sum_out(s.outputs) + fee_at(s, k)
}

/// How the search for enough inputs ends.
pub enum Search {
    /// This many optional inputs are enough, and no fewer are.
    Found(int),
    /// All inputs together do not pay for the outputs and the fee.
    OutOfCoins,
    /// The allowed rounds were used up with inputs still left.
    OutOfRounds,
}

/// The search from round `k` on: the fee is computed anew for the inputs at
/// hand; if they do not cover it, the next optional input is added.
pub open spec fn search(s: SelectionView, k: int) -> Search
    decreases s.optional.len() - k,
{
    if covers(s, k) {
        Search::Found(k)
    } else if k >= s.optional.len() {
        Search::OutOfCoins
    } else if k >= MAX_SELECTION_ROUNDS {
        Search::OutOfRounds
    } else {
        search(s, k + 1)
    }
}

/// How many optional inputs are spent: all of them in a sweep, else as few as
/// cover outputs and fee.
pub open spec fn chosen(s: SelectionView) -> Search {
    if s.take_all {
        if covers(s, s.optional.len() as int) {
            Search::Found(s.optional.len() as int)
        } else {
            Search::OutOfCoins
        }
    } else {
        search(s, 0)
    }
}

/// The change output of value `value`.
pub open spec fn change_out(s: SelectionView, value: int) -> TxOutView {
    TxOutView { value: value as u64, script: s.change_script }
}

/// The fee of the transaction with `k` optional inputs and a change output.
pub open spec fn fee_with_change(s: SelectionView, k: int) -> int {
    fee_for(s.policy, tx_weight(inputs_at(s, k), s.outputs.push(change_out(s, 0))))
}

/// What is left for change after `k` rounds, once outputs and the fee of a
/// transaction with a change output are paid. May be negative.
pub open spec fn change_at(s: SelectionView, k: int) -> int {
    funds_at(s, k) - sum_out(s.outputs) - fee_with_change(s, k)
}

/// Whether the leftover after `k` rounds becomes a change output: it is
/// positive and not below the dust threshold of the change script.
pub open spec fn makes_change(s: SelectionView, k: int) -> bool {
    change_at(s, k) > 0 && change_at(s, k) >= dust_threshold(s.change_script)
}

/// The plan with `k` optional inputs. Leftover that makes no change output is
/// left to the fee; a transaction without any output is refused.
pub open spec fn settle(s: SelectionView, k: int) -> Result<PlanView, WalletError> {
    if makes_change(s, k) {
        Ok(
            PlanView {
                inputs: inputs_at(s, k),
                outputs: s.outputs.push(change_out(s, change_at(s, k))),
                has_change: true,
                fee: fee_with_change(s, k) as u64,
                sequence: s.sequence,
            },
        )
    } else if s.outputs.len() == 0 {
        Err(
            WalletError::InsufficientFunds {
                needed: cap64(fee_with_change(s, k) + dust_threshold(s.change_script)) as u64,
                available: funds_at(s, k) as u64,
            },
        )
    } else {
        Ok(
            PlanView {
                inputs: inputs_at(s, k),
                outputs: s.outputs,
                has_change: false,
                fee: (funds_at(s, k) - sum_out(s.outputs)) as u64,
                sequence: s.sequence,
            },
        )
    }
}

/// The value of every input that the selection may spend.
pub open spec fn total_funds(s: SelectionView) -> int {
    sum_coins(s.required) + sum_coins(s.optional)
}

/// Whether no two of the inputs spend one outpoint.
pub open spec fn coins_distinct(coins: Seq<CoinView>) -> bool {
    forall|i: int, j: int| 0 <= i < j < coins.len() ==> coins[i].outpoint != coins[j].outpoint
}

/// The plan that a selection leads to, or the reason why there is none. A
/// plan that would spend one outpoint twice is refused.
pub open spec fn plan_spec(s: SelectionView) -> Result<PlanView, WalletError> {
    match draft_spec(s) {
        Ok(p) => if coins_distinct(p.inputs) {
            Ok(p)
        } else {
            Err(WalletError::ValidationError(Invalid::OutPoint))
        },
        Err(e) => Err(e),
    }
}

/// The plan that a selection leads to before its outpoints are looked at,
/// or the reason why there is none.
pub open spec fn draft_spec(s: SelectionView) -> Result<PlanView, WalletError> {
    if total_funds(s) > MAX_MONEY || sum_out(s.outputs) > MAX_MONEY {
        Err(WalletError::ValidationError(Invalid::Amount))
    } else {
        match chosen(s) {
            Search::OutOfRounds => Err(WalletError::FeeEstimationFailed),
            Search::OutOfCoins => Err(
                WalletError::InsufficientFunds {
                    needed: cap64(sum_out(s.outputs) + fee_at(s, s.optional.len() as int)) as u64,
                    available: total_funds(s) as u64,
                },
            ),
            Search::Found(k) => settle(s, k),
        }
    }
}

/// Whether the outcome `r` is what `expected` says, plans compared by view.
pub open spec fn plan_is(r: Result<TxBuildPlan, WalletError>, expected: Result<PlanView, WalletError>) -> bool {
    match expected {
        Ok(p) => r is Ok && r->Ok_0@ == p,
        Err(e) => r == Err::<TxBuildPlan, WalletError>(e),
    }
}

/// The sum over inputs with one more is the sum plus its amount; no sum is
/// negative.
pub proof fn lemma_sum_coins_push(s: Seq<CoinView>, c: CoinView)
    ensures
        sum_coins(s.push(c)) == sum_coins(s) + c.value,
        sum_coins(s) >= 0,
    decreases s.len(),
{
    assert(s.push(c).drop_last() =~= s);
    if s.len() > 0 {
        lemma_sum_coins_push(s.drop_last(), s.last());
        assert(s.drop_last().push(s.last()) =~= s);
    }
}

/// The sum over two lists of inputs is the sum of their sums.
pub proof fn lemma_sum_coins_add(a: Seq<CoinView>, b: Seq<CoinView>)
    ensures
        sum_coins(a + b) == sum_coins(a) + sum_coins(b),
    decreases b.len(),
{
    if b.len() == 0 {
        assert(a + b =~= a);
    } else {
        lemma_sum_coins_add(a, b.drop_last());
        assert((a + b).drop_last() =~= a + b.drop_last());
        assert((a + b).last() == b.last());
    }
}

/// The first inputs of a list hold no more than the whole list.
pub proof fn lemma_sum_coins_take(s: Seq<CoinView>, k: int)
    requires
        0 <= k <= s.len(),
    ensures
        0 <= sum_coins(s.take(k)) <= sum_coins(s),
    decreases s.len() - k,
{
    lemma_sum_coins_push(s.take(k), s[0]);
    if k == s.len() {
        assert(s.take(k) =~= s);
    } else {
        lemma_sum_coins_take(s, k + 1);
        assert(s.take(k + 1) =~= s.take(k).push(s[k]));
        lemma_sum_coins_push(s.take(k), s[k]);
    }
}

/// The sum over outputs with one more is the sum plus its amount; no sum
/// is negative.
pub proof fn lemma_sum_out_push(s: Seq<TxOutView>, o: TxOutView)
    ensures
        sum_out(s.push(o)) == sum_out(s) + o.value,
        sum_out(s) >= 0,
    decreases s.len(),
{
    assert(s.push(o).drop_last() =~= s);
    if s.len() > 0 {
        lemma_sum_out_push(s.drop_last(), s.last());
        assert(s.drop_last().push(s.last()) =~= s);
    }
}

/// What one more round adds to the inputs, their value and their weight.
pub proof fn lemma_next_round(s: SelectionView, k: int)
    requires
        0 <= k < s.optional.len(),
    ensures
        inputs_at(s, k + 1) == inputs_at(s, k).push(s.optional[k]),
        funds_at(s, k + 1) == funds_at(s, k) + s.optional[k].value,
        inputs_weight(inputs_at(s, k + 1)) == inputs_weight(inputs_at(s, k)) + input_weight(
            s.optional[k],
        ),
        0 <= funds_at(s, k) <= total_funds(s),
        0 <= funds_at(s, k + 1) <= total_funds(s),
        inputs_weight(inputs_at(s, k)) >= 0,
{
    assert(s.optional.take(k + 1) =~= s.optional.take(k).push(s.optional[k]));
    assert(inputs_at(s, k + 1) =~= inputs_at(s, k).push(s.optional[k]));
    lemma_sum_coins_push(inputs_at(s, k), s.optional[k]);
    lemma_inputs_weight_push(inputs_at(s, k), s.optional[k]);
    lemma_round_bounds(s, k);
    lemma_round_bounds(s, k + 1);
}

/// The inputs after any round hold no more than all inputs together.
pub proof fn lemma_round_bounds(s: SelectionView, k: int)
    requires
        0 <= k <= s.optional.len(),
    ensures
        0 <= funds_at(s, k) <= total_funds(s),
        funds_at(s, k) == sum_coins(s.required) + sum_coins(s.optional.take(k)),
        inputs_weight(inputs_at(s, k)) >= 0,
        k == s.optional.len() ==> funds_at(s, k) == total_funds(s),
{
    lemma_sum_coins_add(s.required, s.optional.take(k));
    lemma_sum_coins_take(s.optional, k);
    lemma_sum_coins_push(s.required, s.optional.take(k)[0]);
    lemma_inputs_weight_push(inputs_at(s, k), s.optional.take(k)[0]);
    if k == s.optional.len() {
        assert(s.optional.take(k) =~= s.optional);
    }
}

/// A search that finds a count finds the least one that covers outputs and
/// fee, within the allowed rounds.
pub proof fn lemma_search_least(s: SelectionView, from: int, k: int)
    requires
        0 <= from,
        search(s, from) == Search::Found(k),
    ensures
        from <= k,
        k <= s.optional.len() || k == from,
        k <= MAX_SELECTION_ROUNDS || k == from,
        covers(s, k),
        forall|j: int| from <= j < k ==> !covers(s, j),
    decreases s.optional.len() - from,
{
    if !covers(s, from) {
        lemma_search_least(s, from + 1, k);
    }
}

/// Every plan is balanced: what its inputs hold is what its outputs hold plus
/// its fee. Where it has a change output, the fee is exactly what the policy
/// asks of the planned transaction; where it has none, the fee is at least that.
pub proof fn lemma_plan_balanced(s: SelectionView, p: PlanView)
    requires
        plan_spec(s) == Ok::<PlanView, WalletError>(p),
    ensures
        sum_coins(p.inputs) == sum_out(p.outputs) + p.fee,
        p.has_change ==> p.fee == fee_for(s.policy, tx_weight(p.inputs, p.outputs)),
        !p.has_change ==> p.fee >= fee_for(s.policy, tx_weight(p.inputs, p.outputs)),
        p.sequence == s.sequence,
        sum_coins(p.inputs) <= MAX_MONEY,
{
    let k = chosen(s)->Found_0;
    if !s.take_all {
        lemma_search_least(s, 0, k);
    }
    assert(0 <= k <= s.optional.len());
    lemma_round_bounds(s, k);
    lemma_sum_out_push(s.outputs, change_out(s, 0));
    let ins = inputs_at(s, k);
    lemma_inputs_weight_push(ins, ins[0]);
    lemma_outputs_weight_push(s.outputs, change_out(s, 0));
    lemma_fee_monotone(s.policy, tx_weight(ins, s.outputs), tx_weight(ins, s.outputs));
    if makes_change(s, k) {
        let c = change_out(s, change_at(s, k));
        lemma_sum_out_push(s.outputs, c);
        lemma_outputs_weight_push(s.outputs, c);
        lemma_fee_monotone(
            s.policy,
            tx_weight(ins, s.outputs.push(c)),
            tx_weight(ins, s.outputs.push(c)),
        );
        assert(tx_weight(ins, s.outputs.push(c)) == tx_weight(
            ins,
            s.outputs.push(change_out(s, 0)),
        ));
    }
}

/// No plan spends an outpoint twice.
pub proof fn lemma_plan_inputs_distinct(s: SelectionView, p: PlanView)
    requires
        plan_spec(s) == Ok::<PlanView, WalletError>(p),
    ensures
        coins_distinct(p.inputs),
        draft_spec(s) == Ok::<PlanView, WalletError>(p),
{
}

/// The outputs of a plan are those of the selection, in their order, and
/// behind them the change output where there is one: to the change script,
/// and of no less than its dust threshold.
pub proof fn lemma_plan_outputs(s: SelectionView, p: PlanView)
    requires
        plan_spec(s) == Ok::<PlanView, WalletError>(p),
    ensures
        !p.has_change ==> p.outputs == s.outputs,
        p.has_change ==> p.outputs.len() == s.outputs.len() + 1 && p.outputs.drop_last()
            == s.outputs && p.outputs.last().script == s.change_script && p.outputs.last().value
            > 0 && p.outputs.last().value >= dust_threshold(s.change_script),
{
    let k = chosen(s)->Found_0;
    if !s.take_all {
        lemma_search_least(s, 0, k);
    }
    assert(0 <= k <= s.optional.len());
    lemma_round_bounds(s, k);
    lemma_sum_out_push(s.outputs, change_out(s, 0));
    let ins = inputs_at(s, k);
    lemma_inputs_weight_push(ins, ins[0]);
    lemma_outputs_weight_push(s.outputs, change_out(s, 0));
    lemma_fee_monotone(s.policy, tx_weight(ins, s.outputs), tx_weight(ins, s.outputs));
    if makes_change(s, k) {
        let c = change_out(s, change_at(s, k));
        assert(s.outputs.push(c).drop_last() =~= s.outputs);
    }
}

/// Where a plan has no change output, what its fee holds beyond what the
/// policy asks is leftover that would have made no change output: with the
/// fee of a change output paid, it would not be positive or would stay below
/// the dust threshold of the change script.
pub proof fn lemma_plan_fee_without_change(s: SelectionView, p: PlanView)
    requires
        plan_spec(s) == Ok::<PlanView, WalletError>(p),
        !p.has_change,
    ensures
        p.outputs == s.outputs,
        fee_for(s.policy, tx_weight(p.inputs, p.outputs)) <= p.fee,
        p.fee <= fee_for(s.policy, tx_weight(p.inputs, p.outputs.push(change_out(s, 0))))
            || p.fee < fee_for(s.policy, tx_weight(p.inputs, p.outputs.push(change_out(s, 0))))
            + dust_threshold(s.change_script),
{
    lemma_plan_balanced(s, p);
    let k = chosen(s)->Found_0;
    if !s.take_all {
        lemma_search_least(s, 0, k);
    }
    lemma_round_bounds(s, k);
    lemma_sum_out_push(s.outputs, change_out(s, 0));
}

/// The inputs of a plan are the required ones and the first of the
/// optional ones.
pub proof fn lemma_plan_inputs(s: SelectionView, p: PlanView)
    requires
        draft_spec(s) == Ok::<PlanView, WalletError>(p),
    ensures
        s.required.len() <= p.inputs.len() <= s.required.len() + s.optional.len(),
        p.inputs == (s.required + s.optional).take(p.inputs.len() as int),
{
    let k = chosen(s)->Found_0;
    if !s.take_all {
        lemma_search_least(s, 0, k);
    }
    assert(0 <= k <= s.optional.len());
    assert(inputs_at(s, k) =~= (s.required + s.optional).take(s.required.len() + k));
}

/// Under a rate, the fee of a plan with a change output is the rate times the
/// virtual size of the planned transaction, rounded up to a whole satoshi.
pub proof fn lemma_plan_fee_rate(s: SelectionView, p: PlanView, rate: u64)
    requires
        plan_spec(s) == Ok::<PlanView, WalletError>(p),
        s.policy == FeePolicy::Rate(rate),
        p.has_change,
    ensures
        rate * vsize_of(tx_weight(p.inputs, p.outputs)) <= 1000 * p.fee < rate * vsize_of(
            tx_weight(p.inputs, p.outputs),
        ) + 1000,
{
    lemma_plan_balanced(s, p);
    lemma_inputs_weight_push(p.inputs, p.inputs[0]);
    lemma_outputs_weight_push(p.outputs, p.outputs[0]);
    lemma_fee_rounding(rate, tx_weight(p.inputs, p.outputs));
}

/// Under a fixed amount, the fee of a plan with a change output is that amount.
pub proof fn lemma_plan_fee_absolute(s: SelectionView, p: PlanView, amount: u64)
    requires
        plan_spec(s) == Ok::<PlanView, WalletError>(p),
        s.policy == FeePolicy::Absolute(amount),
        p.has_change,
    ensures
        p.fee == amount,
{
    lemma_plan_balanced(s, p);
}

/// The amounts of `coins` added to `start`, unless that is more than all
/// coins that can exist.
pub(crate) fn sum_coins_within(coins: &Vec<Coin>, start: u64) -> (r: Option<u64>)
    requires
        start <= MAX_MONEY,
    ensures
        r is Some <==> start + sum_coins(coins_view(coins@)) <= MAX_MONEY,
        r is Some ==> r->0 == start + sum_coins(coins_view(coins@)),
{
    let ghost all = coins_view(coins@);
    let mut acc: u64 = start;
    let mut i: usize = 0;
    while i < coins.len()
        invariant
            i <= coins.len(),
            all == coins_view(coins@),
            acc == start + sum_coins(all.take(i as int)),
            acc <= MAX_MONEY,
        decreases coins.len() - i,
    {
        let value: u64 = coins[i].txout.value;
        proof {
            assert(all.take(i + 1) =~= all.take(i as int).push(all[i as int]));
            lemma_sum_coins_push(all.take(i as int), all[i as int]);
            lemma_sum_coins_take(all, i + 1);
        }
        if value > MAX_MONEY - acc {
            return None;
        }
        acc = acc + value;
        i += 1;
    }
    proof {
        assert(all.take(coins.len() as int) =~= all);
    }
    Some(acc)
}

/// The first outputs of a list hold no more than the whole list.
pub proof fn lemma_sum_out_take(s: Seq<TxOutView>, k: int)
    requires
        0 <= k <= s.len(),
    ensures
        0 <= sum_out(s.take(k)) <= sum_out(s),
    decreases s.len() - k,
{
    lemma_sum_out_push(s.take(k), s[0]);
    if k == s.len() {
        assert(s.take(k) =~= s);
    } else {
        lemma_sum_out_take(s, k + 1);
        assert(s.take(k + 1) =~= s.take(k).push(s[k]));
        lemma_sum_out_push(s.take(k), s[k]);
    }
}

/// The sum of the amounts of `outs`, unless that is more than all coins that
/// can exist.
pub fn sum_out_within(outs: &Vec<TxOut>) -> (r: Option<u64>)
    ensures
        r is Some <==> sum_out(outs_view(outs@)) <= MAX_MONEY,
        r is Some ==> r->0 == sum_out(outs_view(outs@)),
{
    let ghost all = outs_view(outs@);
    let mut acc: u64 = 0;
    let mut i: usize = 0;
    while i < outs.len()
        invariant
            i <= outs.len(),
            all == outs_view(outs@),
            acc == sum_out(all.take(i as int)),
            acc <= MAX_MONEY,
        decreases outs.len() - i,
    {
        let value: u64 = outs[i].value;
        proof {
            assert(all.take(i + 1) =~= all.take(i as int).push(all[i as int]));
            lemma_sum_out_push(all.take(i as int), all[i as int]);
            lemma_sum_out_take(all, i + 1);
        }
        if value > MAX_MONEY - acc {
            return None;
        }
        acc = acc + value;
        i += 1;
    }
    proof {
        assert(all.take(outs.len() as int) =~= all);
    }
    Some(acc)
}

/// Appends copies of the first `n` of `src` to `dst`.
pub(crate) fn push_coins(dst: &mut Vec<Coin>, src: &Vec<Coin>, n: usize)
    requires
        n <= src.len(),
    ensures
        coins_view(final(dst)@) == coins_view(old(dst)@) + coins_view(src@).take(n as int),
{
    let mut i: usize = 0;
    while i < n
        invariant
            i <= n <= src.len(),
            coins_view(dst@) == coins_view(old(dst)@) + coins_view(src@).take(i as int),
        decreases n - i,
    {
        let ghost before = dst@;
        dst.push(src[i].copy());
        proof {
            assert(coins_view(dst@) =~= coins_view(before).push(src@[i as int]@));
            assert(coins_view(src@).take(i + 1) =~= coins_view(src@).take(i as int).push(
                src@[i as int]@,
            ));
            assert(coins_view(dst@) =~= coins_view(old(dst)@) + coins_view(src@).take(i + 1));
        }
        i += 1;
    }
}

/// A copy of `src`.
pub fn copy_outs(src: &Vec<TxOut>) -> (r: Vec<TxOut>)
    ensures
        outs_view(r@) == outs_view(src@),
{
    let mut r: Vec<TxOut> = Vec::new();
    let mut i: usize = 0;
    assert(outs_view(r@) =~= outs_view(src@).take(0));
    while i < src.len()
        invariant
            i <= src.len(),
            outs_view(r@) == outs_view(src@).take(i as int),
        decreases src.len() - i,
    {
        let ghost before = r@;
        r.push(src[i].copy());
        proof {
            assert(outs_view(r@) =~= outs_view(before).push(src@[i as int]@));
            assert(outs_view(src@).take(i + 1) =~= outs_view(src@).take(i as int).push(
                src@[i as int]@,
            ));
        }
        i += 1;
    }
    assert(outs_view(src@).take(src.len() as int) =~= outs_view(src@));
    r
}

/// The fee of a transaction with the given counts and weights of inputs and
/// outputs, held at the largest `u64`. The weights may be held at the largest
/// `u128`.
fn fee_estimate(
    policy: FeePolicy,
    n_in: u128,
    n_out: u128,
    in_w: u128,
    out_w: u128,
    Ghost(iw): Ghost<int>,
    Ghost(ow): Ghost<int>,
) -> (r: u64)
    requires
        iw >= 0,
        ow >= 0,
        in_w == cap128(iw),
        out_w == cap128(ow),
    ensures
        r == cap64(fee_for(policy, overhead_weight(n_in as int, n_out as int) + iw + ow)),
        fee_for(policy, overhead_weight(n_in as int, n_out as int) + iw + ow) >= 0,
{
    let overhead: u128 = 4 * (8 + varint_len_of(n_in) as u128 + varint_len_of(n_out) as u128);
    let weight: u128 = cap_add(cap_add(overhead, in_w), out_w);
    proof {
        let w = overhead_weight(n_in as int, n_out as int) + iw + ow;
        assert(weight == cap128(w));
        lemma_fee_of_capped_weight(policy, w);
        lemma_fee_monotone(policy, w, w);
    }
    fee_of(policy, weight)
}

/// Where a search ended: the count of optional inputs, and the value and
/// weight of all inputs then.
struct Chosen {
    count: usize,
    funds: u64,
    in_w: u128,
}

/// Runs the search: adds optional inputs one by one until outputs and fee are
/// covered, or takes them all in a sweep.
fn choose_count(s: &Selection, required_funds: u64, total: u64, outgoing: u64, out_w: u128) -> (r:
    Result<Chosen, WalletError>)
    requires
        required_funds == sum_coins(s@.required),
        total == total_funds(s@),
        total <= MAX_MONEY,
        outgoing == sum_out(s@.outputs),
        outgoing <= MAX_MONEY,
        out_w == cap128(outputs_weight(s@.outputs)),
    ensures
        match chosen(s@) {
            Search::Found(k) => r is Ok && r->Ok_0.count == k && k <= s@.optional.len()
                && r->Ok_0.funds == funds_at(s@, k) && r->Ok_0.in_w == cap128(
                inputs_weight(inputs_at(s@, k)),
            ) && covers(s@, k),
            Search::OutOfRounds => r == Err::<Chosen, WalletError>(
                WalletError::FeeEstimationFailed,
            ),
            Search::OutOfCoins => r == Err::<Chosen, WalletError>(
                WalletError::InsufficientFunds {
                    needed: cap64(sum_out(s@.outputs) + fee_at(s@, s@.optional.len() as int))
                        as u64,
                    available: total_funds(s@) as u64,
                },
            ),
        },
{
    let ghost sv = s@;
    let n_req: u128 = s.required.len() as u128;
    let n_out: u128 = s.outputs.len() as u128;
    let n_opt: usize = s.optional.len();
    let req_w: u128 = inputs_weight_of(&s.required);
    let ghost ow = outputs_weight(sv.outputs);
    proof {
        lemma_outputs_weight_push(sv.outputs, sv.outputs[0]);
        lemma_sum_out_push(sv.outputs, sv.outputs[0]);
        lemma_round_bounds(sv, 0);
        assert(sv.optional.take(0) =~= Seq::<CoinView>::empty());
        assert(inputs_at(sv, 0) =~= sv.required);
    }
    let mut k: usize = 0;
    let mut funds: u64 = required_funds;
    let mut in_w: u128 = req_w;
    if s.take_all {
        let opt_w: u128 = inputs_weight_of(&s.optional);
        proof {
            lemma_round_bounds(sv, n_opt as int);
            assert(sv.optional.take(n_opt as int) =~= sv.optional);
            crate::fee::lemma_inputs_weight_add(sv.required, sv.optional);
            lemma_inputs_weight_push(sv.required, sv.required[0]);
            lemma_inputs_weight_push(sv.optional, sv.optional[0]);
        }
        k = n_opt;
        funds = total;
        in_w = cap_add(req_w, opt_w);
    }
    loop
        invariant
            sv == s@,
            n_req == s.required.len(),
            n_out == s.outputs.len(),
            n_opt == s.optional.len(),
            ow == outputs_weight(sv.outputs),
            ow >= 0,
            out_w == cap128(ow),
            total == total_funds(sv),
            total <= MAX_MONEY,
            outgoing == sum_out(sv.outputs),
            outgoing <= MAX_MONEY,
            k <= n_opt,
            funds == funds_at(sv, k as int),
            funds <= total,
            in_w == cap128(inputs_weight(inputs_at(sv, k as int))),
            inputs_weight(inputs_at(sv, k as int)) >= 0,
            s.take_all ==> k == n_opt,
            !s.take_all ==> k <= MAX_SELECTION_ROUNDS && search(sv, 0) == search(sv, k as int),
        decreases n_opt - k,
    {
        let ghost iw = inputs_weight(inputs_at(sv, k as int));
        let fee: u64 = fee_estimate(
            s.policy,
            n_req + k as u128,
            n_out,
            in_w,
            out_w,
            Ghost(iw),
            Ghost(ow),
        );
        assert(fee == cap64(fee_at(sv, k as int)));
        if funds as u128 >= outgoing as u128 + fee as u128 {
            assert(covers(sv, k as int));
            return Ok(Chosen { count: k, funds, in_w });
        }
        assert(!covers(sv, k as int));
        if k >= n_opt {
            proof {
                lemma_round_bounds(sv, k as int);
            }
            let needed: u64 = if fee > u64::MAX - outgoing {
                u64::MAX
            } else {
                outgoing + fee
            };
            return Err(WalletError::InsufficientFunds { needed, available: funds });
        }
        if k >= MAX_SELECTION_ROUNDS {
            return Err(WalletError::FeeEstimationFailed);
        }
        proof {
            lemma_next_round(sv, k as int);
            assert(sv.optional[k as int] == s.optional@[k as int]@);
        }
        funds = funds + s.optional[k].txout.value;
        in_w = cap_add(in_w, TXIN_BASE_WEIGHT as u128 + s.optional[k].satisfaction_weight as u128);
        k += 1;
    }
}

/// Settles the plan with `c.count` optional inputs.
fn settle_plan(s: &Selection, c: Chosen, outgoing: u64, out_w: u128) -> (r: Result<
    TxBuildPlan,
    WalletError,
>)
    requires
        c.count <= s@.optional.len(),
        c.funds == funds_at(s@, c.count as int),
        c.in_w == cap128(inputs_weight(inputs_at(s@, c.count as int))),
        covers(s@, c.count as int),
        total_funds(s@) <= MAX_MONEY,
        outgoing == sum_out(s@.outputs),
        out_w == cap128(outputs_weight(s@.outputs)),
    ensures
        plan_is(r, settle(s@, c.count as int)),
{
    let ghost sv = s@;
    let ghost k = c.count as int;
    let ghost ins = inputs_at(sv, k);
    let ghost iw = inputs_weight(ins);
    let ghost ow = outputs_weight(sv.outputs);
    let ghost with_change = sv.outputs.push(change_out(sv, 0));
    proof {
        lemma_round_bounds(sv, k);
        lemma_outputs_weight_push(sv.outputs, change_out(sv, 0));
        lemma_sum_out_push(sv.outputs, sv.outputs[0]);
        lemma_fee_monotone(sv.policy, tx_weight(ins, sv.outputs), tx_weight(ins, sv.outputs));
    }
    let len: usize = s.change_script.bytes.len();
    let change_w: u128 = 4 * (8 + varint_len_of(len as u128) as u128 + len as u128);
    assert(change_w == output_weight(change_out(sv, 0)));
    let fee: u64 = fee_estimate(
        s.policy,
        s.required.len() as u128 + c.count as u128,
        s.outputs.len() as u128 + 1,
        c.in_w,
        cap_add(out_w, change_w),
        Ghost(iw),
        Ghost(ow + change_w),
    );
    assert(fee == cap64(fee_with_change(sv, k)));
    let left: u64 = c.funds - outgoing;
    let dust: u128 = dust_threshold_of(&s.change_script);
    let mut inputs: Vec<Coin> = Vec::new();
    push_coins(&mut inputs, &s.required, s.required.len());
    push_coins(&mut inputs, &s.optional, c.count);
    proof {
        assert(coins_view(s.required@).take(s.required.len() as int) =~= coins_view(s.required@));
        assert(coins_view(inputs@) =~= ins);
    }
    let mut outputs: Vec<TxOut> = copy_outs(&s.outputs);
    if fee < left && (left - fee) as u128 >= dust {
        let ghost before = outputs@;
        outputs.push(TxOut { value: left - fee, script_pubkey: s.change_script.copy() });
        proof {
            assert(outs_view(outputs@) =~= outs_view(before).push(
                change_out(sv, change_at(sv, k)),
            ));
        }
        Ok(TxBuildPlan { inputs, outputs, has_change: true, fee, sequence: s.sequence })
    } else if s.outputs.len() == 0 {
        assert(sv.outputs.len() == 0);
        let needed: u64 = if fee as u128 + dust > u64::MAX as u128 {
            u64::MAX
        } else {
            (fee as u128 + dust) as u64
        };
        Err(WalletError::InsufficientFunds { needed, available: c.funds })
    } else {
        assert(sv.outputs.len() != 0);
        Ok(TxBuildPlan { inputs, outputs, has_change: false, fee: left, sequence: s.sequence })
    }
}

/// Whether no two of the inputs spend one outpoint.
pub fn inputs_distinct(coins: &Vec<Coin>) -> (r: bool)
    ensures
        r == coins_distinct(coins_view(coins@)),
{
    let ghost all = coins_view(coins@);
    let mut j: usize = 0;
    while j < coins.len()
        invariant
            j <= coins.len(),
            all == coins_view(coins@),
            forall|a: int, b: int| 0 <= a < b < j ==> all[a].outpoint != all[b].outpoint,
        decreases coins.len() - j,
    {
        let mut i: usize = 0;
        while i < j
            invariant
                i <= j < coins.len(),
                all == coins_view(coins@),
                forall|a: int| 0 <= a < i ==> all[a].outpoint != all[j as int].outpoint,
            decreases j - i,
        {
            assert(all[i as int] == coins@[i as int]@);
            assert(all[j as int] == coins@[j as int]@);
            if coins[i].outpoint.same(&coins[j].outpoint) {
                return false;
            }
            i += 1;
        }
        j += 1;
    }
    true
}

/// Plans the transaction that `s` asks for: checks that the amounts are
/// within what can exist, finds how many optional inputs are needed,
/// settles change and fee, and makes sure that no outpoint is spent twice.
pub fn plan(s: &Selection) -> (r: Result<TxBuildPlan, WalletError>)
    ensures
        plan_is(r, plan_spec(s@)),
        r is Ok ==> sum_coins(r->Ok_0@.inputs) == sum_out(r->Ok_0@.outputs) + r->Ok_0.fee,
        r is Ok ==> sum_coins(r->Ok_0@.inputs) <= MAX_MONEY,
        r is Ok ==> r->Ok_0.sequence == s.sequence,
        r is Ok ==> coins_distinct(r->Ok_0@.inputs),
{
    let required_funds: u64 = match sum_coins_within(&s.required, 0) {
        Some(t) => t,
        None => {
            proof {
                lemma_sum_coins_push(s@.optional, s@.optional[0]);
            }
            return Err(WalletError::ValidationError(Invalid::Amount));
        },
    };
    let total: u64 = match sum_coins_within(&s.optional, required_funds) {
        Some(t) => t,
        None => {
            return Err(WalletError::ValidationError(Invalid::Amount));
        },
    };
    let outgoing: u64 = match sum_out_within(&s.outputs) {
        Some(t) => t,
        None => {
            return Err(WalletError::ValidationError(Invalid::Amount));
        },
    };
    let out_w: u128 = outputs_weight_of(&s.outputs);
    let c: Chosen = match choose_count(s, required_funds, total, outgoing, out_w) {
        Ok(c) => c,
        Err(e) => {
            return Err(e);
        },
    };
    match settle_plan(s, c, outgoing, out_w) {
        Ok(p) => if inputs_distinct(&p.inputs) {
            proof {
                lemma_plan_balanced(s@, p@);
            }
            Ok(p)
        } else {
            Err(WalletError::ValidationError(Invalid::OutPoint))
        },
        Err(e) => Err(e),
    }
}

} // verus!
