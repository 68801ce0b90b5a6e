//! Weights, virtual sizes, fees and dust thresholds.

use vstd::prelude::*;
use crate::script::{is_op_return, is_witness_program};
use crate::types::{coins_view, outs_view, Coin, CoinView, FeePolicy, Script, TxOut, TxOutView};
use vstd::arithmetic::div_mod::lemma_div_is_ordered;

verus! {

/// The weight of an input without what satisfies its script: outpoint and
/// sequence number, four weight units a byte.
pub const TXIN_BASE_WEIGHT: u64 = 160;

/// The satoshis of all coins that can ever exist.
pub const MAX_MONEY: u64 = 2_100_000_000_000_000;

/// The smaller of `x` and the largest `u64`.
pub open spec fn cap64(x: int) -> int {
    if x > u64::MAX { u64::MAX as int } else { x }
}

/// The smaller of `x` and the largest `u128`.
pub open spec fn cap128(x: int) -> int {
    if x > u128::MAX { u128::MAX as int } else { x }
}

/// The bytes that the compact encoding of the count `n` takes.
pub open spec fn varint_len(n: int) -> int {
    if n < 0xfd {
        1
    } else if n <= 0xffff {
        3
    } else if n <= 0xffff_ffff {
        5
    } else {
        9
    }
}

/// The weight of an output: amount, script length and script, four weight
/// units a byte.
pub open spec fn output_weight(o: TxOutView) -> int {
    4 * (8 + varint_len(o.script.len() as int) + o.script.len())
}

/// The weight of the outputs `s`.
pub open spec fn outputs_weight(s: Seq<TxOutView>) -> int
    decreases s.len(),
{
    if s.len() == 0 {
        0
    } else {
        outputs_weight(s.drop_last()) + output_weight(s.last())
    }
}

/// The weight of an input together with what satisfies its script.
pub open spec fn input_weight(c: CoinView) -> int {
    TXIN_BASE_WEIGHT + c.satisfaction_weight
}

/// The weight of the inputs `s`.
pub open spec fn inputs_weight(s: Seq<CoinView>) -> int
    decreases s.len(),
{
    if s.len() == 0 {
        0
    } else {
        inputs_weight(s.drop_last()) + input_weight(s.last())
    }
}

/// The weight of what a transaction holds besides its inputs and outputs:
/// version, lock time and the two counts.
pub open spec fn overhead_weight(n_in: int, n_out: int) -> int {
    4 * (8 + varint_len(n_in) + varint_len(n_out))
}

/// The estimated weight of a signed transaction with these inputs and outputs.
pub open spec fn tx_weight(ins: Seq<CoinView>, outs: Seq<TxOutView>) -> int {
    overhead_weight(ins.len() as int, outs.len() as int) + inputs_weight(ins) + outputs_weight(
        outs,
    )
}

/// The virtual size of a weight: a quarter of it, rounded up.
pub open spec fn vsize_of(weight: int) -> int {
    (weight + 3) / 4
}

/// The fee that `policy` asks of a transaction of the given weight: the
/// amount itself, or the rate times the virtual size, in satoshis, rounded up.
pub open spec fn fee_for(policy: FeePolicy, weight: int) -> int {
    match policy {
        FeePolicy::Absolute(amount) => amount as int,
        FeePolicy::Rate(rate) => (rate * vsize_of(weight) + 999) / 1000,
    }
}

/// The amount below which an output to `script` costs more to spend than it
/// holds, at the relay rate of three satoshis a virtual byte.
pub open spec fn dust_threshold(script: Seq<u8>) -> int {
    if is_op_return(script) {
        0
    } else if is_witness_program(script) {
        3 * (32 + 4 + 1 + 26 + 4 + 8 + varint_len(script.len() as int) + script.len())
    } else {
        3 * (32 + 4 + 1 + 107 + 4 + 8 + varint_len(script.len() as int) + script.len())
    }
}

/// The weight of outputs with one more is the weight plus its own; no
/// weight is negative.
pub proof fn lemma_outputs_weight_push(s: Seq<TxOutView>, o: TxOutView)
    ensures
        outputs_weight(s.push(o)) == outputs_weight(s) + output_weight(o),
        outputs_weight(s) >= 0,
    decreases s.len(),
{
    assert(s.push(o).drop_last() =~= s);
    if s.len() > 0 {
        lemma_outputs_weight_push(s.drop_last(), s.last());
        assert(s.drop_last().push(s.last()) =~= s);
    }
}

/// The weight of inputs with one more is the weight plus its own; no
/// weight is negative.
pub proof fn lemma_inputs_weight_push(s: Seq<CoinView>, c: CoinView)
    ensures
        inputs_weight(s.push(c)) == inputs_weight(s) + input_weight(c),
        inputs_weight(s) >= 0,
    decreases s.len(),
{
    assert(s.push(c).drop_last() =~= s);
    if s.len() > 0 {
        lemma_inputs_weight_push(s.drop_last(), s.last());
        assert(s.drop_last().push(s.last()) =~= s);
    }
}

/// The weight of two lists of inputs is the sum of their weights.
pub proof fn lemma_inputs_weight_add(a: Seq<CoinView>, b: Seq<CoinView>)
    ensures
        inputs_weight(a + b) == inputs_weight(a) + inputs_weight(b),
    decreases b.len(),
{
    if b.len() == 0 {
        assert(a + b =~= a);
    } else {
        lemma_inputs_weight_add(a, b.drop_last());
        assert((a + b).drop_last() =~= a + b.drop_last());
        assert((a + b).last() == b.last());
    }
}

/// A heavier transaction never pays less.
pub proof fn lemma_fee_monotone(policy: FeePolicy, w1: int, w2: int)
    requires
        0 <= w1 <= w2,
    ensures
        0 <= fee_for(policy, w1) <= fee_for(policy, w2),
{
    match policy {
        FeePolicy::Absolute(_) => {},
        FeePolicy::Rate(rate) => {
            let v1 = vsize_of(w1);
            let v2 = vsize_of(w2);
            lemma_div_is_ordered(w1 + 3, w2 + 3, 4);
            assert(0 <= v1 <= v2);
            assert(0 <= rate * v1 <= rate * v2) by (nonlinear_arith)
                requires
                    0 <= v1 <= v2,
                    0 <= rate,
            ;
            lemma_div_is_ordered(rate * v1 + 999, rate * v2 + 999, 1000);
        },
    }
}

/// Under a rate, the fee is the rate times the virtual size, rounded up to a
/// whole satoshi.
pub proof fn lemma_fee_rounding(rate: u64, weight: int)
    requires
        0 <= weight,
    ensures
        rate * vsize_of(weight) <= 1000 * fee_for(FeePolicy::Rate(rate), weight) < rate
            * vsize_of(weight) + 1000,
{
    let p = rate * vsize_of(weight);
    assert(p >= 0) by (nonlinear_arith)
        requires
            p == rate * vsize_of(weight),
            rate >= 0,
            vsize_of(weight) >= 0,
    ;
    assert(p <= 1000 * ((p + 999) / 1000) < p + 1000) by (nonlinear_arith)
        requires
            p >= 0,
    ;
}

/// The bytes that the compact encoding of the count `n` takes.
pub fn varint_len_of(n: u128) -> (r: u64)
    ensures
        r == varint_len(n as int),
{
    if n < 0xfd {
        1
    } else if n <= 0xffff {
        3
    } else if n <= 0xffff_ffff {
        5
    } else {
        9
    }
}

/// The sum of `a` and `b`, held at the largest `u128`.
pub fn cap_add(a: u128, b: u128) -> (r: u128)
    ensures
        r == cap128(a + b),
{
    if a > u128::MAX - b {
        u128::MAX
    } else {
        a + b
    }
}

/// The weight of the output `o`.
pub fn output_weight_of(o: &TxOut) -> (r: u128)
    ensures
        r == output_weight(o@),
{
    let len: usize = o.script_pubkey.bytes.len();
    let bytes: u128 = 8 + varint_len_of(len as u128) as u128 + len as u128;
    4 * bytes
}

/// The weight of the outputs `outs`, held at the largest `u128`.
pub fn outputs_weight_of(outs: &Vec<TxOut>) -> (r: u128)
    ensures
        r == cap128(outputs_weight(outs_view(outs@))),
{
    let mut acc: u128 = 0;
    let mut i: usize = 0;
    let ghost all = outs_view(outs@);
    while i < outs.len()
        invariant
            i <= outs.len(),
            all == outs_view(outs@),
            acc == cap128(outputs_weight(all.take(i as int))),
        decreases outs.len() - i,
    {
        let w: u128 = output_weight_of(&outs[i]);
        proof {
            lemma_outputs_weight_push(all.take(i as int), all[i as int]);
            assert(all.take(i + 1) =~= all.take(i as int).push(all[i as int]));
        }
        acc = cap_add(acc, w);
        i += 1;
    }
    proof {
        assert(all.take(outs.len() as int) =~= all);
    }
    acc
}

/// The weight of the inputs `coins`, held at the largest `u128`.
pub fn inputs_weight_of(coins: &Vec<Coin>) -> (r: u128)
    ensures
        r == cap128(inputs_weight(coins_view(coins@))),
{
    let mut acc: u128 = 0;
    let mut i: usize = 0;
    let ghost all = coins_view(coins@);
    while i < coins.len()
        invariant
            i <= coins.len(),
            all == coins_view(coins@),
            acc == cap128(inputs_weight(all.take(i as int))),
        decreases coins.len() - i,
    {
        let w: u128 = TXIN_BASE_WEIGHT as u128 + coins[i].satisfaction_weight as u128;
        proof {
            lemma_inputs_weight_push(all.take(i as int), all[i as int]);
            assert(all.take(i + 1) =~= all.take(i as int).push(all[i as int]));
        }
        acc = cap_add(acc, w);
        i += 1;
    }
    proof {
        assert(all.take(coins.len() as int) =~= all);
    }
    acc
}

/// The fee that `policy` asks of the given weight, held at the largest `u64`.
pub fn fee_of(policy: FeePolicy, weight: u128) -> (r: u64)
    ensures
        r == cap64(fee_for(policy, weight as int)),
{
    match policy {
        FeePolicy::Absolute(amount) => amount,
        FeePolicy::Rate(rate) => {
            let vsize: u128 = weight / 4 + if weight % 4 != 0 {
                1u128
            } else {
                0u128
            };
            assert(vsize == vsize_of(weight as int));
            match (rate as u128).checked_mul(vsize) {
                None => {
                    assert((rate * vsize + 999) / 1000 > u64::MAX) by (nonlinear_arith)
                        requires
                            rate * vsize > u128::MAX,
                    ;
                    u64::MAX
                },
                Some(product) => {
                    let fee: u128 = product / 1000 + if product % 1000 != 0 {
                        1u128
                    } else {
                        0u128
                    };
                    assert(fee == (product + 999) / 1000);
                    if fee > u64::MAX as u128 {
                        u64::MAX
                    } else {
                        fee as u64
                    }
                },
            }
        },
    }
}

/// A weight beyond the largest `u128` asks the same fee, as far as a `u64`
/// can tell, as the largest `u128` itself.
pub proof fn lemma_fee_of_capped_weight(policy: FeePolicy, weight: int)
    requires
        0 <= weight,
    ensures
        cap64(fee_for(policy, cap128(weight))) == cap64(fee_for(policy, weight)),
{
    if weight > u128::MAX {
        lemma_fee_monotone(policy, u128::MAX as int, weight);
        match policy {
            FeePolicy::Absolute(_) => {},
            FeePolicy::Rate(rate) => {
                if rate > 0 {
                    let v = vsize_of(u128::MAX as int);
                    assert(v == 0x4000_0000_0000_0000_0000_0000_0000_0000);
                    assert((rate * v + 999) / 1000 > u64::MAX) by (nonlinear_arith)
                        requires
                            rate >= 1,
                            v == 0x4000_0000_0000_0000_0000_0000_0000_0000,
                    ;
                } else {
                    assert(rate * vsize_of(weight) == 0) by (nonlinear_arith)
                        requires
                            rate == 0,
                    ;
                    assert(rate * vsize_of(u128::MAX as int) == 0) by (nonlinear_arith)
                        requires
                            rate == 0,
                    ;
                }
            },
        }
    }
}

/// The dust threshold of `script`.
pub fn dust_threshold_of(script: &Script) -> (r: u128)
    ensures
        r == dust_threshold(script@),
{
    let len: usize = script.bytes.len();
    if script.is_op_return() {
        0
    } else if script.is_witness_program() {
        3 * (32 + 4 + 1 + 26 + 4 + 8 + varint_len_of(len as u128) as u128 + len as u128)
    } else {
        3 * (32 + 4 + 1 + 107 + 4 + 8 + varint_len_of(len as u128) as u128 + len as u128)
    }
}

} // verus!
