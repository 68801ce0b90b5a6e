//! Reading transactions from their encoding.

use vstd::prelude::*;
use crate::error::{Invalid, WalletError};
use crate::script::slice_bytes;
use crate::tx::{
    any_witness, body_bytes, compact_size, inputs_bytes, ins_view, is_extended, items_bytes,
    le_bytes, outputs_bytes, txin_bytes, txout_bytes, version_bits, wire_bytes, witness_bytes,
    witnesses_bytes, Transaction, TransactionView, TxIn, TxInView,
};
use crate::types::{items_view, outs_view, OutPoint, Script, TxOut, TxOutView};

verus! {

/// What was read off the front of some bytes, and the bytes behind it.
pub struct Cut<T> {
    pub value: T,
    pub rest: Seq<u8>,
}

/// The number that the bytes `b` spell, lowest first.
pub open spec fn le_value(b: Seq<u8>) -> int
    decreases b.len(),
{
    if b.len() == 0 {
        0
    } else {
        b[0] as int + 256 * le_value(b.drop_first())
    }
}

/// The thirty-two bytes `s` as a transaction id.
pub open spec fn array32(s: Seq<u8>) -> [u8; 32] {
    choose|a: [u8; 32]| a@ == s
}

/// The first `n` bytes.
pub open spec fn cut_bytes(s: Seq<u8>, n: int) -> Option<Cut<Seq<u8>>> {
    if 0 <= n <= s.len() {
        Some(Cut { value: s.take(n), rest: s.skip(n) })
    } else {
        None
    }
}

/// The number in the first `n` bytes, lowest first.
pub open spec fn cut_le(s: Seq<u8>, n: int) -> Option<Cut<int>> {
    match cut_bytes(s, n) {
        Some(c) => Some(Cut { value: le_value(c.value), rest: c.rest }),
        None => None,
    }
}

/// A count in its compact encoding. Only the shortest encoding of a count
/// is read.
pub open spec fn cut_compact(s: Seq<u8>) -> Option<Cut<int>> {
    if s.len() == 0 {
        None
    } else if s[0] < 0xfd {
        Some(Cut { value: s[0] as int, rest: s.skip(1) })
    } else if s[0] == 0xfd {
        match cut_le(s.skip(1), 2) {
            Some(c) => if c.value >= 0xfd {
                Some(c)
            } else {
                None
            },
            None => None,
        }
    } else if s[0] == 0xfe {
        match cut_le(s.skip(1), 4) {
            Some(c) => if c.value > 0xffff {
                Some(c)
            } else {
                None
            },
            None => None,
        }
    } else {
        match cut_le(s.skip(1), 8) {
            Some(c) => if c.value > 0xffff_ffff {
                Some(c)
            } else {
                None
            },
            None => None,
        }
    }
}

/// A byte string behind its length.
pub open spec fn cut_var_bytes(s: Seq<u8>) -> Option<Cut<Seq<u8>>> {
    match cut_compact(s) {
        Some(n) => cut_bytes(n.rest, n.value),
        None => None,
    }
}

/// An input without its witness.
pub open spec fn cut_txin(s: Seq<u8>) -> Option<Cut<TxInView>> {
    match cut_bytes(s, 32) {
        Some(txid) => match cut_le(txid.rest, 4) {
            Some(vout) => match cut_var_bytes(vout.rest) {
                Some(script) => match cut_le(script.rest, 4) {
                    Some(sequence) => Some(
                        Cut {
                            value: TxInView {
                                previous_output: OutPoint {
                                    txid: array32(txid.value),
                                    vout: vout.value as u32,
                                },
                                script_sig: script.value,
                                sequence: sequence.value as u32,
                                witness: Seq::empty(),
                            },
                            rest: sequence.rest,
                        },
                    ),
                    None => None,
                },
                None => None,
            },
            None => None,
        },
        None => None,
    }
}

/// An output.
pub open spec fn cut_txout(s: Seq<u8>) -> Option<Cut<TxOutView>> {
    match cut_le(s, 8) {
        Some(value) => match cut_var_bytes(value.rest) {
            Some(script) => Some(
                Cut {
                    value: TxOutView { value: value.value as u64, script: script.value },
                    rest: script.rest,
                },
            ),
            None => None,
        },
        None => None,
    }
}

/// `n` inputs, one after the other.
pub open spec fn cut_inputs(s: Seq<u8>, n: nat) -> Option<Cut<Seq<TxInView>>>
    decreases n,
{
    if n == 0 {
        Some(Cut { value: Seq::empty(), rest: s })
    } else {
        match cut_txin(s) {
            Some(first) => match cut_inputs(first.rest, (n - 1) as nat) {
                Some(more) => Some(Cut { value: seq![first.value] + more.value, rest: more.rest }),
                None => None,
            },
            None => None,
        }
    }
}

/// `n` outputs, one after the other.
pub open spec fn cut_outputs(s: Seq<u8>, n: nat) -> Option<Cut<Seq<TxOutView>>>
    decreases n,
{
    if n == 0 {
        Some(Cut { value: Seq::empty(), rest: s })
    } else {
        match cut_txout(s) {
            Some(first) => match cut_outputs(first.rest, (n - 1) as nat) {
                Some(more) => Some(Cut { value: seq![first.value] + more.value, rest: more.rest }),
                None => None,
            },
            None => None,
        }
    }
}

/// `n` byte strings, each behind its length.
pub open spec fn cut_items(s: Seq<u8>, n: nat) -> Option<Cut<Seq<Seq<u8>>>>
    decreases n,
{
    if n == 0 {
        Some(Cut { value: Seq::empty(), rest: s })
    } else {
        match cut_var_bytes(s) {
            Some(first) => match cut_items(first.rest, (n - 1) as nat) {
                Some(more) => Some(Cut { value: seq![first.value] + more.value, rest: more.rest }),
                None => None,
            },
            None => None,
        }
    }
}

/// The inputs behind their count.
pub open spec fn cut_input_list(s: Seq<u8>) -> Option<Cut<Seq<TxInView>>> {
    match cut_compact(s) {
        Some(n) => cut_inputs(n.rest, n.value as nat),
        None => None,
    }
}

/// The outputs behind their count.
pub open spec fn cut_output_list(s: Seq<u8>) -> Option<Cut<Seq<TxOutView>>> {
    match cut_compact(s) {
        Some(n) => cut_outputs(n.rest, n.value as nat),
        None => None,
    }
}

/// One witness: its items behind their count.
pub open spec fn cut_witness(s: Seq<u8>) -> Option<Cut<Seq<Seq<u8>>>> {
    match cut_compact(s) {
        Some(n) => cut_items(n.rest, n.value as nat),
        None => None,
    }
}

/// The inputs `ins`, each with the witness read for it.
pub open spec fn cut_witnesses(s: Seq<u8>, ins: Seq<TxInView>) -> Option<Cut<Seq<TxInView>>>
    decreases ins.len(),
{
    if ins.len() == 0 {
        Some(Cut { value: Seq::empty(), rest: s })
    } else {
        match cut_witness(s) {
            Some(first) => match cut_witnesses(first.rest, ins.drop_first()) {
                Some(more) => Some(
                    Cut {
                        value: seq![TxInView { witness: first.value, ..ins[0] }] + more.value,
                        rest: more.rest,
                    },
                ),
                None => None,
            },
            None => None,
        }
    }
}

/// The version that four bytes spell.
pub open spec fn version_of(bits: int) -> i32 {
    if bits >= 0x8000_0000 {
        (bits - 0x1_0000_0000) as i32
    } else {
        bits as i32
    }
}

/// What follows the version in the form with witnesses, behind marker and
/// flag: inputs, outputs, the witnesses, the lock time, and nothing more.
/// Inputs without a single witness among them do not take this form.
pub open spec fn decode_extended(version: i32, s: Seq<u8>) -> Option<TransactionView> {
    match cut_input_list(s) {
        Some(ins) => match cut_output_list(ins.rest) {
            Some(outs) => match cut_witnesses(outs.rest, ins.value) {
                Some(full) => match cut_le(full.rest, 4) {
                    Some(lock) => if lock.rest.len() == 0 && (full.value.len() == 0 || any_witness(
                        full.value,
                    )) {
                        Some(
                            TransactionView {
                                version,
                                lock_time: lock.value as u32,
                                input: full.value,
                                output: outs.value,
                            },
                        )
                    } else {
                        None
                    },
                    None => None,
                },
                None => None,
            },
            None => None,
        },
        None => None,
    }
}

/// The transaction that the bytes `s` encode, if they encode one: the
/// version; then either one or more inputs, the outputs and the lock time,
/// or a zero byte, a one byte and the form with witnesses.
pub open spec fn decode_spec(s: Seq<u8>) -> Option<TransactionView> {
    match cut_le(s, 4) {
        Some(v) => match cut_input_list(v.rest) {
            Some(ins) => if ins.value.len() == 0 {
                if ins.rest.len() >= 1 && ins.rest[0] == 1 {
                    decode_extended(version_of(v.value), ins.rest.skip(1))
                } else {
                    None
                }
            } else {
                match cut_output_list(ins.rest) {
                    Some(outs) => match cut_le(outs.rest, 4) {
                        Some(lock) => if lock.rest.len() == 0 {
                            Some(
                                TransactionView {
                                    version: version_of(v.value),
                                    lock_time: lock.value as u32,
                                    input: ins.value,
                                    output: outs.value,
                                },
                            )
                        } else {
                            None
                        },
                        None => None,
                    },
                    None => None,
                }
            },
            None => None,
        },
        None => None,
    }
}

/// What a reader found, and where the next reader goes on.
pub struct Got<T> {
    pub value: T,
    pub next: usize,
}

/// Reads a number of two bytes at `pos`.
pub(crate) fn read_u16(bytes: &Vec<u8>, pos: usize) -> (r: Option<Got<u64>>)
    requires
        pos <= bytes.len(),
    ensures
        match cut_le(bytes@.skip(pos as int), 2) {
            Some(c) => r is Some && r->0.value == c.value && r->0.next <= bytes.len()
                && bytes@.skip(r->0.next as int) == c.rest && r->0.next == pos + 2,
            None => r is None,
        },
{
    if bytes.len() - pos < 2 {
        return None;
    }
    let ghost s = bytes@.skip(pos as int);
    proof {
        reveal_with_fuel(le_value, 3);
        let b = s.take(2);
        assert(b.drop_first().drop_first().len() == 0);
        assert(b[0] == bytes@[pos as int]);
        assert(b.drop_first()[0] == bytes@[pos + 1]);
        assert(s.skip(2) =~= bytes@.skip(pos + 2));
    }
    let v: u64 = bytes[pos] as u64 + 256 * (bytes[pos + 1] as u64);
    Some(Got { value: v, next: pos + 2 })
}

/// Reads a number of four bytes at `pos`.
pub(crate) fn read_u32(bytes: &Vec<u8>, pos: usize) -> (r: Option<Got<u64>>)
    requires
        pos <= bytes.len(),
    ensures
        match cut_le(bytes@.skip(pos as int), 4) {
            Some(c) => r is Some && r->0.value == c.value && r->0.next <= bytes.len()
                && bytes@.skip(r->0.next as int) == c.rest && c.value <= u32::MAX && r->0.next
                == pos + 4,
            None => r is None,
        },
{
    if bytes.len() - pos < 4 {
        return None;
    }
    let ghost s = bytes@.skip(pos as int);
    proof {
        reveal_with_fuel(le_value, 5);
        let b = s.take(4);
        let b1 = b.drop_first();
        let b2 = b1.drop_first();
        let b3 = b2.drop_first();
        assert(b3.drop_first().len() == 0);
        assert(b[0] == bytes@[pos as int]);
        assert(b1[0] == bytes@[pos + 1]);
        assert(b2[0] == bytes@[pos + 2]);
        assert(b3[0] == bytes@[pos + 3]);
        assert(s.skip(4) =~= bytes@.skip(pos + 4));
    }
    let v: u64 = bytes[pos] as u64 + 256 * (bytes[pos + 1] as u64 + 256 * (bytes[pos + 2] as u64
        + 256 * (bytes[pos + 3] as u64)));
    Some(Got { value: v, next: pos + 4 })
}

/// Reads a number of eight bytes at `pos`.
pub(crate) fn read_u64(bytes: &Vec<u8>, pos: usize) -> (r: Option<Got<u64>>)
    requires
        pos <= bytes.len(),
    ensures
        match cut_le(bytes@.skip(pos as int), 8) {
            Some(c) => r is Some && r->0.value == c.value && r->0.next <= bytes.len()
                && bytes@.skip(r->0.next as int) == c.rest && r->0.next == pos + 8,
            None => r is None,
        },
{
    if bytes.len() - pos < 8 {
        return None;
    }
    let low = match read_u32(bytes, pos) {
        Some(x) => x,
        None => {
            return None;
        },
    };
    let high = match read_u32(bytes, pos + 4) {
        Some(x) => x,
        None => {
            return None;
        },
    };
    proof {
        let s = bytes@.skip(pos as int);
        let b = s.take(8);
        assert(s.take(4) =~= b.take(4));
        assert(bytes@.skip(pos + 4).take(4) =~= b.skip(4));
        lemma_le_value_split(b, 4);
        reveal_with_fuel(pow256, 5);
        assert(pow256(4) == 0x1_0000_0000);
        assert(low.value == le_value(b.take(4)));
        assert(high.value == le_value(b.skip(4)));
        assert(s.skip(8) =~= bytes@.skip(pos + 8));
    }
    Some(Got { value: low.value + 0x1_0000_0000 * high.value, next: pos + 8 })
}

/// The number that bytes spell is that of the first `k`, and 256 to the
/// `k` times that of the rest.
#[verifier::spinoff_prover]
#[verifier::rlimit(80)]
pub proof fn lemma_le_value_split(b: Seq<u8>, k: int)
    requires
        0 <= k <= b.len(),
    ensures
        le_value(b) == le_value(b.take(k)) + pow256(k as nat) * le_value(b.skip(k)),
        0 <= le_value(b) < pow256(b.len()),
    decreases b.len(),
{
    if b.len() == 0 {
        assert(b.take(k) =~= b);
        assert(b.skip(k) =~= b);
    } else {
        lemma_le_value_split(b.drop_first(), 0);
        if k == 0 {
            assert(b.take(0).len() == 0);
            assert(b.skip(0) =~= b);
        } else {
            lemma_le_value_split(b.drop_first(), k - 1);
            assert(b.take(k).drop_first() =~= b.drop_first().take(k - 1));
            assert(b.skip(k) =~= b.drop_first().skip(k - 1));
            assert(b.take(k)[0] == b[0]);
            let x = le_value(b.drop_first().take(k - 1));
            let y = le_value(b.drop_first().skip(k - 1));
            let p = pow256((k - 1) as nat);
            assert(256 * (x + p * y) == 256 * x + (256 * p) * y) by (nonlinear_arith);
        }
        let r = le_value(b.drop_first());
        let q = pow256((b.len() - 1) as nat);
        assert(b[0] as int + 256 * r < 256 * q) by (nonlinear_arith)
            requires
                0 <= b[0] < 256,
                0 <= r < q,
        ;
    }
}

/// 256 to the `k`.
pub open spec fn pow256(k: nat) -> int
    decreases k,
{
    if k == 0 {
        1
    } else {
        256 * pow256((k - 1) as nat)
    }
}

/// Reads a count in its compact encoding at `pos`.
pub(crate) fn read_compact(bytes: &Vec<u8>, pos: usize) -> (r: Option<Got<u64>>)
    requires
        pos <= bytes.len(),
    ensures
        match cut_compact(bytes@.skip(pos as int)) {
            Some(c) => r is Some && r->0.value == c.value && r->0.next <= bytes.len()
                && bytes@.skip(r->0.next as int) == c.rest && pos < r->0.next,
            None => r is None,
        },
{
    if pos >= bytes.len() {
        return None;
    }
    let ghost s = bytes@.skip(pos as int);
    let first: u8 = bytes[pos];
    proof {
        assert(s[0] == first);
        assert(s.skip(1) =~= bytes@.skip(pos + 1));
    }
    if first < 0xfd {
        Some(Got { value: first as u64, next: pos + 1 })
    } else if first == 0xfd {
        match read_u16(bytes, pos + 1) {
            Some(g) => if g.value >= 0xfd {
                Some(g)
            } else {
                None
            },
            None => None,
        }
    } else if first == 0xfe {
        match read_u32(bytes, pos + 1) {
            Some(g) => if g.value > 0xffff {
                Some(g)
            } else {
                None
            },
            None => None,
        }
    } else {
        match read_u64(bytes, pos + 1) {
            Some(g) => if g.value > 0xffff_ffff {
                Some(g)
            } else {
                None
            },
            None => None,
        }
    }
}

/// Reads a byte string behind its length at `pos`.
pub(crate) fn read_var_bytes(bytes: &Vec<u8>, pos: usize) -> (r: Option<Got<Vec<u8>>>)
    requires
        pos <= bytes.len(),
    ensures
        match cut_var_bytes(bytes@.skip(pos as int)) {
            Some(c) => r is Some && r->0.value@ == c.value && r->0.next <= bytes.len()
                && bytes@.skip(r->0.next as int) == c.rest && pos < r->0.next,
            None => r is None,
        },
{
    let n = match read_compact(bytes, pos) {
        Some(g) => g,
        None => {
            return None;
        },
    };
    if n.value > (bytes.len() - n.next) as u64 {
        return None;
    }
    let len: usize = n.value as usize;
    let value: Vec<u8> = slice_bytes(bytes, n.next, n.next + len);
    proof {
        let s = bytes@.skip(n.next as int);
        assert(s.take(len as int) =~= bytes@.subrange(n.next as int, n.next + len));
        assert(s.skip(len as int) =~= bytes@.skip(n.next + len));
    }
    Some(Got { value, next: n.next + len })
}

/// Reads an input without its witness at `pos`.
#[verifier::spinoff_prover]
#[verifier::rlimit(60)]
pub(crate) fn read_txin(bytes: &Vec<u8>, pos: usize) -> (r: Option<Got<TxIn>>)
    requires
        pos <= bytes.len(),
    ensures
        match cut_txin(bytes@.skip(pos as int)) {
            Some(c) => r is Some && r->0.value@ == c.value && r->0.next <= bytes.len()
                && bytes@.skip(r->0.next as int) == c.rest && pos < r->0.next,
            None => r is None,
        },
{
    if bytes.len() - pos < 32 {
        return None;
    }
    let ghost s = bytes@.skip(pos as int);
    let mut txid: [u8; 32] = [0u8; 32];
    let mut i: usize = 0;
    while i < 32
        invariant
            i <= 32,
            pos + 32 <= bytes.len(),
            forall|k: int| 0 <= k < i ==> txid@[k] == bytes@[pos + k],
        decreases 32 - i,
    {
        txid.set(i, bytes[pos + i]);
        i += 1;
    }
    proof {
        assert(txid@ =~= s.take(32));
        let other = array32(s.take(32));
        assert(other@ == s.take(32));
        assert(txid@ =~= other@);
        assert(txid == other);
        assert(s.skip(32) =~= bytes@.skip(pos + 32));
    }
    let vout = match read_u32(bytes, pos + 32) {
        Some(g) => g,
        None => {
            return None;
        },
    };
    let script = match read_var_bytes(bytes, vout.next) {
        Some(g) => g,
        None => {
            return None;
        },
    };
    let sequence = match read_u32(bytes, script.next) {
        Some(g) => g,
        None => {
            return None;
        },
    };
    let witness: Vec<Vec<u8>> = Vec::new();
    let value = TxIn {
        previous_output: OutPoint { txid, vout: vout.value as u32 },
        script_sig: Script { bytes: script.value },
        sequence: sequence.value as u32,
        witness,
    };
    assert(value@.witness =~= Seq::<Seq<u8>>::empty());
    Some(Got { value, next: sequence.next })
}

/// Reads an output at `pos`.
pub(crate) fn read_txout(bytes: &Vec<u8>, pos: usize) -> (r: Option<Got<TxOut>>)
    requires
        pos <= bytes.len(),
    ensures
        match cut_txout(bytes@.skip(pos as int)) {
            Some(c) => r is Some && r->0.value@ == c.value && r->0.next <= bytes.len()
                && bytes@.skip(r->0.next as int) == c.rest && pos < r->0.next,
            None => r is None,
        },
{
    let value = match read_u64(bytes, pos) {
        Some(g) => g,
        None => {
            return None;
        },
    };
    let script = match read_var_bytes(bytes, value.next) {
        Some(g) => g,
        None => {
            return None;
        },
    };
    Some(
        Got {
            value: TxOut { value: value.value, script_pubkey: Script { bytes: script.value } },
            next: script.next,
        },
    )
}

/// Reads the inputs behind their count at `pos`.
#[verifier::spinoff_prover]
#[verifier::rlimit(60)]
pub(crate) fn read_input_list(bytes: &Vec<u8>, pos: usize) -> (r: Option<Got<Vec<TxIn>>>)
    requires
        pos <= bytes.len(),
    ensures
        match cut_input_list(bytes@.skip(pos as int)) {
            Some(c) => r is Some && ins_view(r->0.value@) == c.value && r->0.next <= bytes.len()
                && bytes@.skip(r->0.next as int) == c.rest && pos < r->0.next,
            None => r is None,
        },
{
    let n = match read_compact(bytes, pos) {
        Some(g) => g,
        None => {
            return None;
        },
    };
    let ghost start = bytes@.skip(n.next as int);
    let mut out: Vec<TxIn> = Vec::new();
    let mut at: usize = n.next;
    let mut i: u64 = 0;
    assert(ins_view(out@) =~= Seq::<TxInView>::empty());
    proof {
        match cut_inputs(start, n.value as nat) {
            Some(more) => {
                assert(ins_view(out@) + more.value =~= more.value);
            },
            None => {},
        }
    }
    while i < n.value
        invariant
            i <= n.value,
            pos < at <= bytes.len(),
            cut_input_list(bytes@.skip(pos as int)) == cut_inputs(start, n.value as nat),
            cut_inputs(start, n.value as nat) == match cut_inputs(
                bytes@.skip(at as int),
                (n.value - i) as nat,
            ) {
                Some(more) => Some(Cut { value: ins_view(out@) + more.value, rest: more.rest }),
                None => None,
            },
        decreases n.value - i,
    {
        proof {
            reveal_with_fuel(cut_inputs, 2);
            assert(cut_txin(bytes@.skip(at as int)) is None ==> cut_inputs(
                bytes@.skip(at as int),
                (n.value - i) as nat,
            ) is None);
        }
        let one = match read_txin(bytes, at) {
            Some(g) => g,
            None => {
                return None;
            },
        };
        proof {
            let before = ins_view(out@);
            match cut_inputs(bytes@.skip(one.next as int), (n.value - i - 1) as nat) {
                Some(more) => {
                    assert(before + (seq![one.value@] + more.value) =~= before.push(one.value@)
                        + more.value);
                },
                None => {},
            }
        }
        let ghost before = out@;
        out.push(one.value);
        assert(ins_view(out@) =~= ins_view(before).push(one.value@));
        at = one.next;
        i += 1;
    }
    proof {
        assert(ins_view(out@) + Seq::<TxInView>::empty() =~= ins_view(out@));
    }
    Some(Got { value: out, next: at })
}

/// Reads the outputs behind their count at `pos`.
#[verifier::spinoff_prover]
#[verifier::rlimit(60)]
pub(crate) fn read_output_list(bytes: &Vec<u8>, pos: usize) -> (r: Option<Got<Vec<TxOut>>>)
    requires
        pos <= bytes.len(),
    ensures
        match cut_output_list(bytes@.skip(pos as int)) {
            Some(c) => r is Some && outs_view(r->0.value@) == c.value && r->0.next <= bytes.len()
                && bytes@.skip(r->0.next as int) == c.rest && pos < r->0.next,
            None => r is None,
        },
{
    let n = match read_compact(bytes, pos) {
        Some(g) => g,
        None => {
            return None;
        },
    };
    let ghost start = bytes@.skip(n.next as int);
    let mut out: Vec<TxOut> = Vec::new();
    let mut at: usize = n.next;
    let mut i: u64 = 0;
    assert(outs_view(out@) =~= Seq::<TxOutView>::empty());
    proof {
        match cut_outputs(start, n.value as nat) {
            Some(more) => {
                assert(outs_view(out@) + more.value =~= more.value);
            },
            None => {},
        }
    }
    while i < n.value
        invariant
            i <= n.value,
            pos < at <= bytes.len(),
            cut_output_list(bytes@.skip(pos as int)) == cut_outputs(start, n.value as nat),
            cut_outputs(start, n.value as nat) == match cut_outputs(
                bytes@.skip(at as int),
                (n.value - i) as nat,
            ) {
                Some(more) => Some(Cut { value: outs_view(out@) + more.value, rest: more.rest }),
                None => None,
            },
        decreases n.value - i,
    {
        proof {
            reveal_with_fuel(cut_outputs, 2);
            assert(cut_txout(bytes@.skip(at as int)) is None ==> cut_outputs(
                bytes@.skip(at as int),
                (n.value - i) as nat,
            ) is None);
        }
        let one = match read_txout(bytes, at) {
            Some(g) => g,
            None => {
                return None;
            },
        };
        proof {
            let before = outs_view(out@);
            match cut_outputs(bytes@.skip(one.next as int), (n.value - i - 1) as nat) {
                Some(more) => {
                    assert(before + (seq![one.value@] + more.value) =~= before.push(one.value@)
                        + more.value);
                },
                None => {},
            }
        }
        let ghost before = out@;
        out.push(one.value);
        assert(outs_view(out@) =~= outs_view(before).push(one.value@));
        at = one.next;
        i += 1;
    }
    proof {
        assert(outs_view(out@) + Seq::<TxOutView>::empty() =~= outs_view(out@));
    }
    Some(Got { value: out, next: at })
}

/// Reads one witness at `pos`.
#[verifier::spinoff_prover]
#[verifier::rlimit(60)]
pub(crate) fn read_witness(bytes: &Vec<u8>, pos: usize) -> (r: Option<Got<Vec<Vec<u8>>>>)
    requires
        pos <= bytes.len(),
    ensures
        match cut_witness(bytes@.skip(pos as int)) {
            Some(c) => r is Some && items_view(r->0.value@) == c.value && r->0.next
                <= bytes.len() && bytes@.skip(r->0.next as int) == c.rest && pos < r->0.next,
            None => r is None,
        },
{
    let n = match read_compact(bytes, pos) {
        Some(g) => g,
        None => {
            return None;
        },
    };
    let ghost start = bytes@.skip(n.next as int);
    let mut out: Vec<Vec<u8>> = Vec::new();
    let mut at: usize = n.next;
    let mut i: u64 = 0;
    assert(items_view(out@) =~= Seq::<Seq<u8>>::empty());
    proof {
        match cut_items(start, n.value as nat) {
            Some(more) => {
                assert(items_view(out@) + more.value =~= more.value);
            },
            None => {},
        }
    }
    while i < n.value
        invariant
            i <= n.value,
            pos < at <= bytes.len(),
            cut_witness(bytes@.skip(pos as int)) == cut_items(start, n.value as nat),
            cut_items(start, n.value as nat) == match cut_items(
                bytes@.skip(at as int),
                (n.value - i) as nat,
            ) {
                Some(more) => Some(Cut { value: items_view(out@) + more.value, rest: more.rest }),
                None => None,
            },
        decreases n.value - i,
    {
        proof {
            reveal_with_fuel(cut_items, 2);
            assert(cut_var_bytes(bytes@.skip(at as int)) is None ==> cut_items(
                bytes@.skip(at as int),
                (n.value - i) as nat,
            ) is None);
        }
        let one = match read_var_bytes(bytes, at) {
            Some(g) => g,
            None => {
                return None;
            },
        };
        proof {
            let before = items_view(out@);
            match cut_items(bytes@.skip(one.next as int), (n.value - i - 1) as nat) {
                Some(more) => {
                    assert(before + (seq![one.value@] + more.value) =~= before.push(one.value@)
                        + more.value);
                },
                None => {},
            }
        }
        let ghost before = out@;
        out.push(one.value);
        assert(items_view(out@) =~= items_view(before).push(one.value@));
        at = one.next;
        i += 1;
    }
    proof {
        assert(items_view(out@) + Seq::<Seq<u8>>::empty() =~= items_view(out@));
    }
    Some(Got { value: out, next: at })
}

/// Reads at `pos` a witness for each of `inputs`.
#[verifier::spinoff_prover]
#[verifier::rlimit(60)]
pub(crate) fn read_witnesses(bytes: &Vec<u8>, pos: usize, inputs: &Vec<TxIn>) -> (r: Option<Got<Vec<TxIn>>>)
    requires
        pos <= bytes.len(),
    ensures
        match cut_witnesses(bytes@.skip(pos as int), ins_view(inputs@)) {
            Some(c) => r is Some && ins_view(r->0.value@) == c.value && r->0.next <= bytes.len()
                && bytes@.skip(r->0.next as int) == c.rest,
            None => r is None,
        },
{
    let ghost start = bytes@.skip(pos as int);
    let ghost ins = ins_view(inputs@);
    let mut out: Vec<TxIn> = Vec::new();
    let mut at: usize = pos;
    let mut i: usize = 0;
    assert(ins_view(out@) =~= Seq::<TxInView>::empty());
    proof {
        assert(ins.skip(0) =~= ins);
        match cut_witnesses(start, ins) {
            Some(more) => {
                assert(ins_view(out@) + more.value =~= more.value);
            },
            None => {},
        }
    }
    while i < inputs.len()
        invariant
            i <= inputs.len(),
            at <= bytes.len(),
            ins == ins_view(inputs@),
            start == bytes@.skip(pos as int),
            cut_witnesses(start, ins) == match cut_witnesses(
                bytes@.skip(at as int),
                ins.skip(i as int),
            ) {
                Some(more) => Some(Cut { value: ins_view(out@) + more.value, rest: more.rest }),
                None => None,
            },
        decreases inputs.len() - i,
    {
        proof {
            assert(ins.skip(i as int)[0] == inputs@[i as int]@);
            assert(ins.skip(i as int).drop_first() =~= ins.skip(i + 1));
        }
        proof {
            reveal_with_fuel(cut_witnesses, 2);
            assert(cut_witness(bytes@.skip(at as int)) is None ==> cut_witnesses(
                bytes@.skip(at as int),
                ins.skip(i as int),
            ) is None);
        }
        let one = match read_witness(bytes, at) {
            Some(g) => g,
            None => {
                return None;
            },
        };
        let input = TxIn {
            previous_output: inputs[i].previous_output,
            script_sig: inputs[i].script_sig.copy(),
            sequence: inputs[i].sequence,
            witness: one.value,
        };
        proof {
            let before = ins_view(out@);
            match cut_witnesses(bytes@.skip(one.next as int), ins.skip(i + 1)) {
                Some(more) => {
                    assert(before + (seq![input@] + more.value) =~= before.push(input@)
                        + more.value);
                },
                None => {},
            }
        }
        let ghost before = out@;
        out.push(input);
        assert(ins_view(out@) =~= ins_view(before).push(input@));
        at = one.next;
        i += 1;
    }
    proof {
        assert(ins.skip(inputs.len() as int).len() == 0);
        assert(ins_view(out@) + Seq::<TxInView>::empty() =~= ins_view(out@));
    }
    Some(Got { value: out, next: at })
}

/// Whether some input carries a witness.
pub fn has_any_witness(inputs: &Vec<TxIn>) -> (r: bool)
    ensures
        r == any_witness(ins_view(inputs@)),
{
    let mut i: usize = 0;
    while i < inputs.len()
        invariant
            i <= inputs.len(),
            forall|k: int| 0 <= k < i ==> ins_view(inputs@)[k].witness.len() == 0,
        decreases inputs.len() - i,
    {
        if inputs[i].witness.len() > 0 {
            assert(ins_view(inputs@)[i as int].witness.len() > 0);
            return true;
        }
        i += 1;
    }
    false
}

/// The version that four bytes spell.
pub(crate) fn version_from(bits: u64) -> (r: i32)
    requires
        bits <= u32::MAX,
    ensures
        r == version_of(bits as int),
{
    if bits >= 0x8000_0000 {
        (bits as i64 - 0x1_0000_0000) as i32
    } else {
        bits as i32
    }
}

/// Reads what follows marker and flag.
pub(crate) fn read_extended(bytes: &Vec<u8>, pos: usize, version: i32) -> (r: Option<Transaction>)
    requires
        pos <= bytes.len(),
    ensures
        match decode_extended(version, bytes@.skip(pos as int)) {
            Some(t) => r is Some && r->0@ == t,
            None => r is None,
        },
{
    let ins = match read_input_list(bytes, pos) {
        Some(g) => g,
        None => {
            return None;
        },
    };
    let outs = match read_output_list(bytes, ins.next) {
        Some(g) => g,
        None => {
            return None;
        },
    };
    let full = match read_witnesses(bytes, outs.next, &ins.value) {
        Some(g) => g,
        None => {
            return None;
        },
    };
    let lock = match read_u32(bytes, full.next) {
        Some(g) => g,
        None => {
            return None;
        },
    };
    if lock.next != bytes.len() {
        return None;
    }
    if full.value.len() != 0 && !has_any_witness(&full.value) {
        return None;
    }
    Some(
        Transaction {
            version,
            lock_time: lock.value as u32,
            input: full.value,
            output: outs.value,
        },
    )
}

impl Transaction {
    /// The transaction that `bytes` encode: the one whose encoding they
    /// are. Bytes that are the encoding of no transaction are rejected.
    pub fn decode(bytes: &Vec<u8>) -> (r: Result<Transaction, WalletError>)
        ensures
            match decode_spec(bytes@) {
                Some(t) => r is Ok && r->Ok_0@ == t,
                None => r == Err::<Transaction, WalletError>(
                    WalletError::ValidationError(Invalid::TransactionBytes),
                ),
            },
            r is Ok ==> wire_bytes(r->Ok_0@) == bytes@,
            forall|t: TransactionView|
                tx_fits(t) && #[trigger] wire_bytes(t) == bytes@ ==> r is Ok && r->Ok_0@ == t,
    {
        proof {
            lemma_decode_sound(bytes@);
            assert forall|t: TransactionView|
                tx_fits(t) && #[trigger] wire_bytes(t) == bytes@ implies decode_spec(bytes@)
                == Some(t) by {
                lemma_decode_encode(t);
            }
        }
        let wrong = Err(WalletError::ValidationError(Invalid::TransactionBytes));
        assert(bytes@.skip(0) =~= bytes@);
        let v = match read_u32(bytes, 0) {
            Some(g) => g,
            None => {
                return wrong;
            },
        };
        let version: i32 = version_from(v.value);
        let ins = match read_input_list(bytes, v.next) {
            Some(g) => g,
            None => {
                return wrong;
            },
        };
        if ins.value.len() == 0 {
            if ins.next >= bytes.len() || bytes[ins.next] != 1 {
                proof {
                    if ins.next < bytes.len() {
                        assert(bytes@.skip(ins.next as int)[0] == bytes@[ins.next as int]);
                    }
                }
                return wrong;
            }
            proof {
                assert(bytes@.skip(ins.next as int)[0] == bytes@[ins.next as int]);
                assert(bytes@.skip(ins.next as int).skip(1) =~= bytes@.skip(ins.next + 1));
            }
            return match read_extended(bytes, ins.next + 1, version) {
                Some(t) => Ok(t),
                None => wrong,
            };
        }
        let outs = match read_output_list(bytes, ins.next) {
            Some(g) => g,
            None => {
                return wrong;
            },
        };
        let lock = match read_u32(bytes, outs.next) {
            Some(g) => g,
            None => {
                return wrong;
            },
        };
        if lock.next != bytes.len() {
            return wrong;
        }
        Ok(
            Transaction {
                version,
                lock_time: lock.value as u32,
                input: ins.value,
                output: outs.value,
            },
        )
    }
}

/// The bytes of a number spell that number, and are as many as asked for.
#[verifier::spinoff_prover]
#[verifier::rlimit(80)]
pub proof fn lemma_le_value_of_bytes(x: int, n: nat)
    requires
        0 <= x < pow256(n),
    ensures
        le_bytes(x, n).len() == n,
        le_value(le_bytes(x, n)) == x,
    decreases n,
{
    if n > 0 {
        let q = pow256((n - 1) as nat);
        assert(0 <= x / 256 < q) by (nonlinear_arith)
            requires
                0 <= x < 256 * q,
        ;
        lemma_le_value_of_bytes(x / 256, (n - 1) as nat);
        let b = le_bytes(x, n);
        assert(b.drop_first() =~= le_bytes(x / 256, (n - 1) as nat));
        assert(b[0] == (x % 256) as u8);
    }
}

/// The number that bytes spell is spelt by those bytes.
#[verifier::spinoff_prover]
#[verifier::rlimit(80)]
pub proof fn lemma_le_bytes_of_value(b: Seq<u8>)
    ensures
        le_bytes(le_value(b), b.len()) == b,
        0 <= le_value(b) < pow256(b.len()),
    decreases b.len(),
{
    lemma_le_value_split(b, 0);
    if b.len() > 0 {
        lemma_le_bytes_of_value(b.drop_first());
        let r = le_value(b.drop_first());
        let x = le_value(b);
        assert(x % 256 == b[0] as int && x / 256 == r) by (nonlinear_arith)
            requires
                x == b[0] as int + 256 * r,
                0 <= b[0] < 256,
        ;
        assert(le_bytes(x, b.len()) =~= seq![b[0]] + le_bytes(r, (b.len() - 1) as nat));
        assert(seq![b[0]] + b.drop_first() =~= b);
    } else {
        assert(le_bytes(0, 0) =~= b);
    }
}

/// What `cut_le` reads is what `le_bytes` writes.
#[verifier::spinoff_prover]
#[verifier::rlimit(80)]
pub proof fn lemma_cut_le(s: Seq<u8>, n: nat)
    ensures
        cut_le(s, n as int) is Some ==> le_bytes(cut_le(s, n as int)->0.value, n) + cut_le(
            s,
            n as int,
        )->0.rest == s && 0 <= cut_le(s, n as int)->0.value < pow256(n),
{
    if cut_le(s, n as int) is Some {
        lemma_le_bytes_of_value(s.take(n as int));
        assert(s.take(n as int) + s.skip(n as int) =~= s);
    }
}

/// `cut_le` reads back what `le_bytes` wrote.
#[verifier::spinoff_prover]
#[verifier::rlimit(80)]
pub proof fn lemma_cut_le_of(x: int, n: nat, rest: Seq<u8>)
    requires
        0 <= x < pow256(n),
    ensures
        cut_le(le_bytes(x, n) + rest, n as int) == Some(Cut { value: x, rest }),
{
    lemma_le_value_of_bytes(x, n);
    let s = le_bytes(x, n) + rest;
    assert(s.take(n as int) =~= le_bytes(x, n));
    assert(s.skip(n as int) =~= rest);
}

/// The powers of 256 that the encodings use.
#[verifier::spinoff_prover]
#[verifier::rlimit(80)]
pub proof fn lemma_pow256_values()
    ensures
        pow256(1) == 0x100,
        pow256(2) == 0x1_0000,
        pow256(4) == 0x1_0000_0000,
        pow256(8) == 0x1_0000_0000_0000_0000,
{
    reveal_with_fuel(pow256, 9);
}

/// What `cut_compact` reads is what `compact_size` writes.
#[verifier::spinoff_prover]
#[verifier::rlimit(80)]
pub proof fn lemma_cut_compact(s: Seq<u8>)
    ensures
        cut_compact(s) is Some ==> compact_size(cut_compact(s)->0.value) + cut_compact(s)->0.rest
            == s && 0 <= cut_compact(s)->0.value < 0x1_0000_0000_0000_0000,
{
    lemma_pow256_values();
    if cut_compact(s) is Some {
        let c = cut_compact(s)->0;
        if s[0] < 0xfd {
            assert(seq![s[0]] + s.skip(1) =~= s);
        } else {
            let n: nat = if s[0] == 0xfd {
                2
            } else if s[0] == 0xfe {
                4
            } else {
                8
            };
            lemma_cut_le(s.skip(1), n);
            assert(seq![s[0]] + (le_bytes(c.value, n) + c.rest) =~= (seq![s[0]] + le_bytes(
                c.value,
                n,
            )) + c.rest);
            assert(seq![s[0]] + s.skip(1) =~= s);
        }
    }
}

/// `cut_compact` reads back what `compact_size` wrote.
#[verifier::spinoff_prover]
#[verifier::rlimit(80)]
pub proof fn lemma_cut_compact_of(n: int, rest: Seq<u8>)
    requires
        0 <= n < 0x1_0000_0000_0000_0000,
    ensures
        cut_compact(compact_size(n) + rest) == Some(Cut { value: n, rest }),
{
    lemma_pow256_values();
    let s = compact_size(n) + rest;
    if n < 0xfd {
        assert(s.skip(1) =~= rest);
    } else {
        let k: nat = if n <= 0xffff {
            2
        } else if n <= 0xffff_ffff {
            4
        } else {
            8
        };
        lemma_le_value_of_bytes(n, k);
        lemma_cut_le_of(n, k, rest);
        assert(s.skip(1) =~= le_bytes(n, k) + rest);
    }
}

/// What `cut_var_bytes` reads is the bytes behind their length.
#[verifier::spinoff_prover]
#[verifier::rlimit(80)]
pub proof fn lemma_cut_var_bytes(s: Seq<u8>)
    ensures
        cut_var_bytes(s) is Some ==> compact_size(cut_var_bytes(s)->0.value.len() as int)
            + cut_var_bytes(s)->0.value + cut_var_bytes(s)->0.rest == s,
{
    if cut_var_bytes(s) is Some {
        lemma_cut_compact(s);
        let n = cut_compact(s)->0;
        let c = cut_var_bytes(s)->0;
        assert(c.value + c.rest =~= n.rest);
        assert(compact_size(n.value) + c.value + c.rest =~= compact_size(n.value) + n.rest);
    }
}

/// `cut_var_bytes` reads back the bytes written behind their length.
#[verifier::spinoff_prover]
#[verifier::rlimit(80)]
pub proof fn lemma_cut_var_bytes_of(b: Seq<u8>, rest: Seq<u8>)
    requires
        b.len() < 0x1_0000_0000_0000_0000,
    ensures
        cut_var_bytes(compact_size(b.len() as int) + b + rest) == Some(Cut { value: b, rest }),
{
    lemma_cut_compact_of(b.len() as int, b + rest);
    assert(compact_size(b.len() as int) + b + rest =~= compact_size(b.len() as int) + (b + rest));
    assert((b + rest).take(b.len() as int) =~= b);
    assert((b + rest).skip(b.len() as int) =~= rest);
}

/// An array that holds the first `k` of the bytes `s`.
pub open spec fn filled(s: Seq<u8>, k: nat) -> [u8; 32]
    decreases k,
{
    if k == 0 {
        vstd::array::spec_array_fill_for_copy_type::<u8, 32>(0u8)
    } else {
        vstd::array::spec_array_update(filled(s, (k - 1) as nat), k - 1, s[k - 1])
    }
}

/// The array filled with the first bytes holds them.
#[verifier::spinoff_prover]
#[verifier::rlimit(80)]
pub proof fn lemma_filled(s: Seq<u8>, k: nat)
    requires
        s.len() == 32,
        k <= 32,
    ensures
        filled(s, k)@.len() == 32,
        forall|i: int| 0 <= i < k ==> filled(s, k)@[i] == s[i],
    decreases k,
{
    if k > 0 {
        lemma_filled(s, (k - 1) as nat);
    }
}

/// Thirty-two bytes are the bytes of the transaction id they are taken as.
#[verifier::spinoff_prover]
#[verifier::rlimit(80)]
pub proof fn lemma_array32(s: Seq<u8>)
    requires
        s.len() == 32,
    ensures
        array32(s)@ == s,
{
    lemma_filled(s, 32);
    assert(filled(s, 32)@ =~= s);
}

/// What `cut_txin` reads is what `txin_bytes` writes.
#[verifier::spinoff_prover]
#[verifier::rlimit(80)]
pub proof fn lemma_cut_txin(s: Seq<u8>)
    ensures
        cut_txin(s) is Some ==> txin_bytes(cut_txin(s)->0.value) + cut_txin(s)->0.rest == s
            && cut_txin(s)->0.value.witness.len() == 0,
{
    if cut_txin(s) is Some {
        lemma_pow256_values();
        let c = cut_txin(s)->0;
        let txid = cut_bytes(s, 32)->0;
        let vout = cut_le(txid.rest, 4)->0;
        let script = cut_var_bytes(vout.rest)->0;
        let sequence = cut_le(script.rest, 4)->0;
        lemma_array32(txid.value);
        lemma_cut_le(txid.rest, 4);
        lemma_cut_var_bytes(vout.rest);
        lemma_cut_le(script.rest, 4);
        assert(txid.value + txid.rest =~= s);
        assert(txin_bytes(c.value) + c.rest =~= txid.value + (le_bytes(vout.value, 4) + (
        compact_size(script.value.len() as int) + script.value + (le_bytes(sequence.value, 4)
            + sequence.rest))));
    }
}

/// `cut_txin` reads back what `txin_bytes` wrote, but for the witness.
#[verifier::spinoff_prover]
#[verifier::rlimit(80)]
pub proof fn lemma_cut_txin_of(i: TxInView, rest: Seq<u8>)
    requires
        i.script_sig.len() < 0x1_0000_0000_0000_0000,
    ensures
        cut_txin(txin_bytes(i) + rest) == Some(
            Cut { value: TxInView { witness: Seq::empty(), ..i }, rest },
        ),
{
    lemma_pow256_values();
    let txid = i.previous_output.txid@;
    let r3 = le_bytes(i.sequence as int, 4) + rest;
    let r2 = compact_size(i.script_sig.len() as int) + i.script_sig + r3;
    let r1 = le_bytes(i.previous_output.vout as int, 4) + r2;
    let s = txin_bytes(i) + rest;
    assert(s =~= txid + r1);
    assert(s.take(32) =~= txid);
    assert(s.skip(32) =~= r1);
    lemma_cut_le_of(i.previous_output.vout as int, 4, r2);
    lemma_cut_var_bytes_of(i.script_sig, r3);
    lemma_cut_le_of(i.sequence as int, 4, rest);
    lemma_array32(txid);
    assert(array32(txid)@ =~= i.previous_output.txid@);
    assert(array32(txid) == i.previous_output.txid);
}

/// What `cut_txout` reads is what `txout_bytes` writes.
#[verifier::spinoff_prover]
#[verifier::rlimit(80)]
pub proof fn lemma_cut_txout(s: Seq<u8>)
    ensures
        cut_txout(s) is Some ==> txout_bytes(cut_txout(s)->0.value) + cut_txout(s)->0.rest == s,
{
    if cut_txout(s) is Some {
        lemma_pow256_values();
        let c = cut_txout(s)->0;
        let value = cut_le(s, 8)->0;
        let script = cut_var_bytes(value.rest)->0;
        lemma_cut_le(s, 8);
        lemma_cut_var_bytes(value.rest);
        assert(txout_bytes(c.value) + c.rest =~= le_bytes(value.value, 8) + (compact_size(
            script.value.len() as int,
        ) + script.value + script.rest));
    }
}

/// `cut_txout` reads back what `txout_bytes` wrote.
#[verifier::spinoff_prover]
#[verifier::rlimit(80)]
pub proof fn lemma_cut_txout_of(o: TxOutView, rest: Seq<u8>)
    requires
        o.script.len() < 0x1_0000_0000_0000_0000,
    ensures
        cut_txout(txout_bytes(o) + rest) == Some(Cut { value: o, rest }),
{
    lemma_pow256_values();
    let r1 = compact_size(o.script.len() as int) + o.script + rest;
    assert(txout_bytes(o) + rest =~= le_bytes(o.value as int, 8) + r1);
    lemma_cut_le_of(o.value as int, 8, r1);
    lemma_cut_var_bytes_of(o.script, rest);
}

/// The encoding of inputs with one more in front is that of the one, then
/// that of the others.
#[verifier::spinoff_prover]
#[verifier::rlimit(80)]
pub proof fn lemma_inputs_bytes_front(x: TxInView, s: Seq<TxInView>)
    ensures
        inputs_bytes(seq![x] + s) == txin_bytes(x) + inputs_bytes(s),
    decreases s.len(),
{
    let all = seq![x] + s;
    if s.len() == 0 {
        assert(all.len() == 1);
        assert(all.last() == x);
        assert(all.drop_last().len() == 0);
        assert(inputs_bytes(all.drop_last()) =~= Seq::<u8>::empty());
        assert(inputs_bytes(s) =~= Seq::<u8>::empty());
        assert(inputs_bytes(all) =~= txin_bytes(x) + inputs_bytes(s));
    } else {
        lemma_inputs_bytes_front(x, s.drop_last());
        assert(all.drop_last() =~= seq![x] + s.drop_last());
        assert(all.last() == s.last());
        assert(inputs_bytes(all) =~= txin_bytes(x) + inputs_bytes(s));
    }
}

/// The encoding of outputs with one more in front is that of the one, then
/// that of the others.
#[verifier::spinoff_prover]
#[verifier::rlimit(80)]
pub proof fn lemma_outputs_bytes_front(x: TxOutView, s: Seq<TxOutView>)
    ensures
        outputs_bytes(seq![x] + s) == txout_bytes(x) + outputs_bytes(s),
    decreases s.len(),
{
    let all = seq![x] + s;
    if s.len() == 0 {
        assert(all.len() == 1);
        assert(all.last() == x);
        assert(all.drop_last().len() == 0);
        assert(outputs_bytes(all.drop_last()) =~= Seq::<u8>::empty());
        assert(outputs_bytes(s) =~= Seq::<u8>::empty());
        assert(outputs_bytes(all) =~= txout_bytes(x) + outputs_bytes(s));
    } else {
        lemma_outputs_bytes_front(x, s.drop_last());
        assert(all.drop_last() =~= seq![x] + s.drop_last());
        assert(all.last() == s.last());
        assert(outputs_bytes(all) =~= txout_bytes(x) + outputs_bytes(s));
    }
}

/// The encoding of byte strings with one more in front is that of the one,
/// then that of the others.
#[verifier::spinoff_prover]
#[verifier::rlimit(80)]
pub proof fn lemma_items_bytes_front(x: Seq<u8>, s: Seq<Seq<u8>>)
    ensures
        items_bytes(seq![x] + s) == compact_size(x.len() as int) + x + items_bytes(s),
    decreases s.len(),
{
    let all = seq![x] + s;
    if s.len() == 0 {
        assert(all.len() == 1);
        assert(all.last() == x);
        assert(all.drop_last().len() == 0);
        assert(items_bytes(all.drop_last()) =~= Seq::<u8>::empty());
        assert(items_bytes(s) =~= Seq::<u8>::empty());
        assert(items_bytes(all) =~= compact_size(x.len() as int) + x + items_bytes(s));
    } else {
        lemma_items_bytes_front(x, s.drop_last());
        assert(all.drop_last() =~= seq![x] + s.drop_last());
        assert(all.last() == s.last());
        assert(items_bytes(all) =~= compact_size(x.len() as int) + x + items_bytes(s));
    }
}

/// The encoding of witnesses with one more in front is that of the one,
/// then that of the others.
#[verifier::spinoff_prover]
#[verifier::rlimit(80)]
pub proof fn lemma_witnesses_bytes_front(x: TxInView, s: Seq<TxInView>)
    ensures
        witnesses_bytes(seq![x] + s) == witness_bytes(x.witness) + witnesses_bytes(s),
    decreases s.len(),
{
    let all = seq![x] + s;
    if s.len() == 0 {
        assert(all.len() == 1);
        assert(all.last() == x);
        assert(all.drop_last().len() == 0);
        assert(witnesses_bytes(all.drop_last()) =~= Seq::<u8>::empty());
        assert(witnesses_bytes(s) =~= Seq::<u8>::empty());
        assert(witnesses_bytes(all) =~= witness_bytes(x.witness) + witnesses_bytes(s));
    } else {
        lemma_witnesses_bytes_front(x, s.drop_last());
        assert(all.drop_last() =~= seq![x] + s.drop_last());
        assert(all.last() == s.last());
        assert(witnesses_bytes(all) =~= witness_bytes(x.witness) + witnesses_bytes(s));
    }
}

/// What `cut_inputs` reads is what `inputs_bytes` writes.
#[verifier::spinoff_prover]
#[verifier::rlimit(80)]
pub proof fn lemma_cut_inputs(s: Seq<u8>, n: nat)
    ensures
        cut_inputs(s, n) is Some ==> inputs_bytes(cut_inputs(s, n)->0.value) + cut_inputs(
            s,
            n,
        )->0.rest == s && cut_inputs(s, n)->0.value.len() == n && (forall|k: int|
            0 <= k < n ==> (#[trigger] cut_inputs(s, n)->0.value[k]).witness.len() == 0),
    decreases n,
{
    if cut_inputs(s, n) is Some {
        if n == 0 {
            assert(inputs_bytes(Seq::<TxInView>::empty()) + s =~= s);
        } else {
            let first = cut_txin(s)->0;
            let more = cut_inputs(first.rest, (n - 1) as nat)->0;
            lemma_cut_txin(s);
            lemma_cut_inputs(first.rest, (n - 1) as nat);
            lemma_inputs_bytes_front(first.value, more.value);
            assert(txin_bytes(first.value) + inputs_bytes(more.value) + more.rest
                =~= txin_bytes(first.value) + (inputs_bytes(more.value) + more.rest));
            let all = seq![first.value] + more.value;
            assert forall|k: int| 0 <= k < n implies (#[trigger] all[k]).witness.len() == 0 by {
                if k > 0 {
                    assert(all[k] == more.value[k - 1]);
                }
            }
        }
    }
}

/// Whether the encoding of each input tells its length.
pub open spec fn inputs_fit(s: Seq<TxInView>) -> bool {
    forall|k: int|
        0 <= k < s.len() ==> (#[trigger] s[k]).script_sig.len() < 0x1_0000_0000_0000_0000
            && items_fit(s[k].witness)
}

/// Whether the encoding of each output tells its length.
pub open spec fn outputs_fit(s: Seq<TxOutView>) -> bool {
    forall|k: int| 0 <= k < s.len() ==> (#[trigger] s[k]).script.len() < 0x1_0000_0000_0000_0000
}

/// Whether the encoding of a witness tells its lengths.
pub open spec fn items_fit(w: Seq<Seq<u8>>) -> bool {
    w.len() < 0x1_0000_0000_0000_0000 && forall|k: int|
        0 <= k < w.len() ==> (#[trigger] w[k]).len() < 0x1_0000_0000_0000_0000
}

/// The inputs `s` without their witnesses.
pub open spec fn bare_inputs(s: Seq<TxInView>) -> Seq<TxInView> {
    Seq::new(s.len(), |k: int| TxInView { witness: Seq::empty(), ..s[k] })
}

/// `cut_inputs` reads back what `inputs_bytes` wrote, but for the
/// witnesses.
#[verifier::rlimit(60)]
#[verifier::spinoff_prover]
pub proof fn lemma_cut_inputs_of(ins: Seq<TxInView>, rest: Seq<u8>)
    requires
        inputs_fit(ins),
    ensures
        cut_inputs(inputs_bytes(ins) + rest, ins.len()) == Some(
            Cut { value: bare_inputs(ins), rest },
        ),
    decreases ins.len(),
{
    if ins.len() == 0 {
        assert(inputs_bytes(ins) + rest =~= rest);
        assert(bare_inputs(ins) =~= Seq::<TxInView>::empty());
    } else {
        let x = ins[0];
        let tail = ins.drop_first();
        assert(seq![x] + tail =~= ins);
        lemma_inputs_bytes_front(x, tail);
        assert(inputs_fit(tail)) by {
            assert forall|k: int| 0 <= k < tail.len() implies (#[trigger] tail[k]).script_sig.len()
                < 0x1_0000_0000_0000_0000 && items_fit(tail[k].witness) by {
                assert(tail[k] == ins[k + 1]);
            }
        }
        lemma_cut_inputs_of(tail, rest);
        lemma_cut_txin_of(x, inputs_bytes(tail) + rest);
        assert(inputs_bytes(ins) + rest =~= txin_bytes(x) + (inputs_bytes(tail) + rest));
        assert(seq![TxInView { witness: Seq::empty(), ..x }] + bare_inputs(tail) =~= bare_inputs(
            ins,
        ));
    }
}

/// What `cut_outputs` reads is what `outputs_bytes` writes.
#[verifier::spinoff_prover]
#[verifier::rlimit(80)]
pub proof fn lemma_cut_outputs(s: Seq<u8>, n: nat)
    ensures
        cut_outputs(s, n) is Some ==> outputs_bytes(cut_outputs(s, n)->0.value) + cut_outputs(
            s,
            n,
        )->0.rest == s && cut_outputs(s, n)->0.value.len() == n,
    decreases n,
{
    if cut_outputs(s, n) is Some {
        if n == 0 {
            assert(outputs_bytes(Seq::<TxOutView>::empty()) + s =~= s);
        } else {
            let first = cut_txout(s)->0;
            let more = cut_outputs(first.rest, (n - 1) as nat)->0;
            lemma_cut_txout(s);
            lemma_cut_outputs(first.rest, (n - 1) as nat);
            lemma_outputs_bytes_front(first.value, more.value);
            assert(txout_bytes(first.value) + outputs_bytes(more.value) + more.rest
                =~= txout_bytes(first.value) + (outputs_bytes(more.value) + more.rest));
        }
    }
}

/// `cut_outputs` reads back what `outputs_bytes` wrote.
#[verifier::spinoff_prover]
#[verifier::rlimit(80)]
pub proof fn lemma_cut_outputs_of(outs: Seq<TxOutView>, rest: Seq<u8>)
    requires
        outputs_fit(outs),
    ensures
        cut_outputs(outputs_bytes(outs) + rest, outs.len()) == Some(Cut { value: outs, rest }),
    decreases outs.len(),
{
    if outs.len() == 0 {
        assert(outputs_bytes(outs) + rest =~= rest);
        assert(outs =~= Seq::<TxOutView>::empty());
    } else {
        let x = outs[0];
        let tail = outs.drop_first();
        assert(seq![x] + tail =~= outs);
        lemma_outputs_bytes_front(x, tail);
        assert(outputs_fit(tail)) by {
            assert forall|k: int| 0 <= k < tail.len() implies (#[trigger] tail[k]).script.len()
                < 0x1_0000_0000_0000_0000 by {
                assert(tail[k] == outs[k + 1]);
            }
        }
        lemma_cut_outputs_of(tail, rest);
        lemma_cut_txout_of(x, outputs_bytes(tail) + rest);
        assert(outputs_bytes(outs) + rest =~= txout_bytes(x) + (outputs_bytes(tail) + rest));
    }
}

/// What `cut_items` reads is what `items_bytes` writes.
#[verifier::spinoff_prover]
#[verifier::rlimit(80)]
pub proof fn lemma_cut_items(s: Seq<u8>, n: nat)
    ensures
        cut_items(s, n) is Some ==> items_bytes(cut_items(s, n)->0.value) + cut_items(
            s,
            n,
        )->0.rest == s && cut_items(s, n)->0.value.len() == n,
    decreases n,
{
    if cut_items(s, n) is Some {
        if n == 0 {
            assert(items_bytes(Seq::<Seq<u8>>::empty()) + s =~= s);
        } else {
            let first = cut_var_bytes(s)->0;
            let more = cut_items(first.rest, (n - 1) as nat)->0;
            lemma_cut_var_bytes(s);
            lemma_cut_items(first.rest, (n - 1) as nat);
            lemma_items_bytes_front(first.value, more.value);
            assert(compact_size(first.value.len() as int) + first.value + items_bytes(more.value)
                + more.rest =~= compact_size(first.value.len() as int) + first.value + (
            items_bytes(more.value) + more.rest));
        }
    }
}

/// `cut_items` reads back what `items_bytes` wrote.
#[verifier::spinoff_prover]
#[verifier::rlimit(80)]
pub proof fn lemma_cut_items_of(w: Seq<Seq<u8>>, rest: Seq<u8>)
    requires
        items_fit(w),
    ensures
        cut_items(items_bytes(w) + rest, w.len()) == Some(Cut { value: w, rest }),
    decreases w.len(),
{
    if w.len() == 0 {
        assert(items_bytes(w) + rest =~= rest);
        assert(w =~= Seq::<Seq<u8>>::empty());
    } else {
        let x = w[0];
        let tail = w.drop_first();
        assert(seq![x] + tail =~= w);
        lemma_items_bytes_front(x, tail);
        assert(items_fit(tail)) by {
            assert forall|k: int| 0 <= k < tail.len() implies (#[trigger] tail[k]).len()
                < 0x1_0000_0000_0000_0000 by {
                assert(tail[k] == w[k + 1]);
            }
        }
        lemma_cut_items_of(tail, rest);
        lemma_cut_var_bytes_of(x, items_bytes(tail) + rest);
        assert(items_bytes(w) + rest =~= compact_size(x.len() as int) + x + (items_bytes(tail)
            + rest));
    }
}

/// What `cut_witness` reads is what `witness_bytes` writes.
#[verifier::spinoff_prover]
#[verifier::rlimit(80)]
pub proof fn lemma_cut_witness(s: Seq<u8>)
    ensures
        cut_witness(s) is Some ==> witness_bytes(cut_witness(s)->0.value) + cut_witness(s)->0.rest
            == s,
{
    if cut_witness(s) is Some {
        let n = cut_compact(s)->0;
        let c = cut_witness(s)->0;
        lemma_cut_compact(s);
        lemma_cut_items(n.rest, n.value as nat);
        assert(witness_bytes(c.value) + c.rest =~= compact_size(n.value) + (items_bytes(c.value)
            + c.rest));
    }
}

/// `cut_witness` reads back what `witness_bytes` wrote.
#[verifier::spinoff_prover]
#[verifier::rlimit(80)]
pub proof fn lemma_cut_witness_of(w: Seq<Seq<u8>>, rest: Seq<u8>)
    requires
        items_fit(w),
    ensures
        cut_witness(witness_bytes(w) + rest) == Some(Cut { value: w, rest }),
{
    lemma_cut_compact_of(w.len() as int, items_bytes(w) + rest);
    lemma_cut_items_of(w, rest);
    assert(witness_bytes(w) + rest =~= compact_size(w.len() as int) + (items_bytes(w) + rest));
}

/// Whether two lists of inputs are the same but for the witnesses.
pub open spec fn same_but_witness(a: Seq<TxInView>, b: Seq<TxInView>) -> bool {
    a.len() == b.len() && forall|k: int|
        0 <= k < a.len() ==> (#[trigger] a[k]).previous_output == b[k].previous_output
            && a[k].script_sig == b[k].script_sig && a[k].sequence == b[k].sequence
}

/// The encoding of inputs without witnesses does not tell the witnesses.
#[verifier::spinoff_prover]
#[verifier::rlimit(80)]
pub proof fn lemma_inputs_bytes_ignore_witness(a: Seq<TxInView>, b: Seq<TxInView>)
    requires
        same_but_witness(a, b),
    ensures
        inputs_bytes(a) == inputs_bytes(b),
    decreases a.len(),
{
    if a.len() > 0 {
        assert(same_but_witness(a.drop_last(), b.drop_last())) by {
            assert forall|k: int| 0 <= k < a.drop_last().len() implies (
            #[trigger] a.drop_last()[k]).previous_output == b.drop_last()[k].previous_output
                && a.drop_last()[k].script_sig == b.drop_last()[k].script_sig
                && a.drop_last()[k].sequence == b.drop_last()[k].sequence by {
                assert(a.drop_last()[k] == a[k]);
                assert(b.drop_last()[k] == b[k]);
            }
        }
        lemma_inputs_bytes_ignore_witness(a.drop_last(), b.drop_last());
        assert(a.last() == a[a.len() - 1]);
        assert(b.last() == b[b.len() - 1]);
        assert(txin_bytes(a.last()) == txin_bytes(b.last()));
    }
}

/// What `cut_witnesses` reads is what `witnesses_bytes` writes; the inputs
/// are the ones given, with the witnesses read.
#[verifier::spinoff_prover]
#[verifier::rlimit(80)]
pub proof fn lemma_cut_witnesses(s: Seq<u8>, ins: Seq<TxInView>)
    ensures
        cut_witnesses(s, ins) is Some ==> witnesses_bytes(cut_witnesses(s, ins)->0.value)
            + cut_witnesses(s, ins)->0.rest == s && same_but_witness(
            cut_witnesses(s, ins)->0.value,
            ins,
        ),
    decreases ins.len(),
{
    if cut_witnesses(s, ins) is Some {
        if ins.len() == 0 {
            assert(witnesses_bytes(Seq::<TxInView>::empty()) + s =~= s);
        } else {
            let first = cut_witness(s)->0;
            let more = cut_witnesses(first.rest, ins.drop_first())->0;
            let x = TxInView { witness: first.value, ..ins[0] };
            lemma_cut_witness(s);
            lemma_cut_witnesses(first.rest, ins.drop_first());
            lemma_witnesses_bytes_front(x, more.value);
            assert(witness_bytes(first.value) + witnesses_bytes(more.value) + more.rest
                =~= witness_bytes(first.value) + (witnesses_bytes(more.value) + more.rest));
            let all = seq![x] + more.value;
            assert forall|k: int| 0 <= k < all.len() implies (#[trigger] all[k]).previous_output
                == ins[k].previous_output && all[k].script_sig == ins[k].script_sig
                && all[k].sequence == ins[k].sequence by {
                if k > 0 {
                    assert(all[k] == more.value[k - 1]);
                    assert(ins.drop_first()[k - 1] == ins[k]);
                }
            }
        }
    }
}

/// `cut_witnesses` reads back what `witnesses_bytes` wrote.
#[verifier::rlimit(60)]
#[verifier::spinoff_prover]
pub proof fn lemma_cut_witnesses_of(full: Seq<TxInView>, rest: Seq<u8>)
    requires
        inputs_fit(full),
    ensures
        cut_witnesses(witnesses_bytes(full) + rest, bare_inputs(full)) == Some(
            Cut { value: full, rest },
        ),
    decreases full.len(),
{
    let bare = bare_inputs(full);
    if full.len() == 0 {
        assert(witnesses_bytes(full) + rest =~= rest);
        assert(full =~= Seq::<TxInView>::empty());
    } else {
        let x = full[0];
        let tail = full.drop_first();
        assert(seq![x] + tail =~= full);
        lemma_witnesses_bytes_front(x, tail);
        assert(inputs_fit(tail)) by {
            assert forall|k: int| 0 <= k < tail.len() implies (#[trigger] tail[k]).script_sig.len()
                < 0x1_0000_0000_0000_0000 && items_fit(tail[k].witness) by {
                assert(tail[k] == full[k + 1]);
            }
        }
        lemma_cut_witnesses_of(tail, rest);
        lemma_cut_witness_of(x.witness, witnesses_bytes(tail) + rest);
        assert(witnesses_bytes(full) + rest =~= witness_bytes(x.witness) + (witnesses_bytes(tail)
            + rest));
        assert(bare.drop_first() =~= bare_inputs(tail));
        assert(TxInView { witness: x.witness, ..bare[0] } == x);
    }
}

/// Whether the encoding of a transaction tells every count and length.
pub open spec fn tx_fits(tx: TransactionView) -> bool {
    tx.input.len() < 0x1_0000_0000_0000_0000 && tx.output.len() < 0x1_0000_0000_0000_0000
        && inputs_fit(tx.input) && outputs_fit(tx.output)
}

/// A version and the number with the same four bytes stand for each
/// other.
#[verifier::spinoff_prover]
#[verifier::rlimit(80)]
pub proof fn lemma_version_round_trip(version: i32, bits: int)
    requires
        0 <= bits < 0x1_0000_0000,
    ensures
        version_of(version_bits(version)) == version,
        version_bits(version_of(bits)) == bits,
        0 <= version_bits(version) < 0x1_0000_0000,
{
}

/// What `cut_input_list` reads is the inputs behind their count, all
/// without witness.
#[verifier::spinoff_prover]
#[verifier::rlimit(80)]
pub proof fn lemma_cut_input_list(s: Seq<u8>)
    ensures
        cut_input_list(s) is Some ==> compact_size(cut_input_list(s)->0.value.len() as int)
            + inputs_bytes(cut_input_list(s)->0.value) + cut_input_list(s)->0.rest == s
            && !any_witness(cut_input_list(s)->0.value),
{
    if cut_input_list(s) is Some {
        let n = cut_compact(s)->0;
        let c = cut_input_list(s)->0;
        lemma_cut_compact(s);
        lemma_cut_inputs(n.rest, n.value as nat);
        assert(compact_size(n.value) + inputs_bytes(c.value) + c.rest =~= compact_size(n.value)
            + (inputs_bytes(c.value) + c.rest));
    }
}

/// What `cut_output_list` reads is the outputs behind their count.
#[verifier::spinoff_prover]
#[verifier::rlimit(80)]
pub proof fn lemma_cut_output_list(s: Seq<u8>)
    ensures
        cut_output_list(s) is Some ==> compact_size(cut_output_list(s)->0.value.len() as int)
            + outputs_bytes(cut_output_list(s)->0.value) + cut_output_list(s)->0.rest == s,
{
    if cut_output_list(s) is Some {
        let n = cut_compact(s)->0;
        let c = cut_output_list(s)->0;
        lemma_cut_compact(s);
        lemma_cut_outputs(n.rest, n.value as nat);
        assert(compact_size(n.value) + outputs_bytes(c.value) + c.rest =~= compact_size(n.value)
            + (outputs_bytes(c.value) + c.rest));
    }
}

/// What is read behind marker and flag is encoded by what was read.
#[verifier::rlimit(80)]
#[verifier::spinoff_prover]
pub proof fn lemma_decode_extended_sound(version: i32, t: Seq<u8>)
    ensures
        decode_extended(version, t) is Some ==> {
            let tx = decode_extended(version, t)->0;
            &&& is_extended(tx)
            &&& tx.version == version
            &&& body_bytes(tx) + witnesses_bytes(tx.input) + le_bytes(tx.lock_time as int, 4) == t
        },
{
    if decode_extended(version, t) is Some {
        let tx = decode_extended(version, t)->0;
        lemma_pow256_values();
        let ins = cut_input_list(t)->0;
        let outs = cut_output_list(ins.rest)->0;
        let full = cut_witnesses(outs.rest, ins.value)->0;
        let lock = cut_le(full.rest, 4)->0;
        lemma_cut_input_list(t);
        lemma_cut_output_list(ins.rest);
        lemma_cut_witnesses(outs.rest, ins.value);
        lemma_cut_le(full.rest, 4);
        lemma_inputs_bytes_ignore_witness(full.value, ins.value);
        assert(lock.rest =~= Seq::<u8>::empty());
        let a = compact_size(ins.value.len() as int) + inputs_bytes(ins.value);
        let b = compact_size(outs.value.len() as int) + outputs_bytes(outs.value);
        let c = witnesses_bytes(full.value);
        let d = le_bytes(lock.value, 4);
        assert(full.rest =~= d) by {
            assert(d + lock.rest =~= d);
        }
        assert(outs.rest == c + d);
        assert(ins.rest == b + outs.rest);
        assert(t == a + ins.rest);
        assert(body_bytes(tx) =~= a + b);
        assert((a + b) + c + d =~= a + (b + (c + d)));
    }
}

/// What is read in the form without witnesses is encoded by what was read.
#[verifier::rlimit(80)]
#[verifier::spinoff_prover]
pub proof fn lemma_decode_plain_sound(t: Seq<u8>)
    ensures
        ({
            let ins = cut_input_list(t);
            ins is Some && ins->0.value.len() > 0 && cut_output_list(ins->0.rest) is Some
                && cut_le(cut_output_list(ins->0.rest)->0.rest, 4) is Some ==> {
                let outs = cut_output_list(ins->0.rest)->0;
                let lock = cut_le(outs.rest, 4)->0;
                &&& !any_witness(ins->0.value)
                &&& 0 <= lock.value < 0x1_0000_0000
                &&& compact_size(ins->0.value.len() as int) + inputs_bytes(ins->0.value)
                    + compact_size(outs.value.len() as int) + outputs_bytes(outs.value)
                    + le_bytes(lock.value, 4) + lock.rest == t
            }
        }),
{
    let ins = cut_input_list(t);
    if ins is Some && ins->0.value.len() > 0 && cut_output_list(ins->0.rest) is Some && cut_le(
        cut_output_list(ins->0.rest)->0.rest,
        4,
    ) is Some {
        lemma_pow256_values();
        let outs = cut_output_list(ins->0.rest)->0;
        let lock = cut_le(outs.rest, 4)->0;
        lemma_cut_input_list(t);
        lemma_cut_output_list(ins->0.rest);
        lemma_cut_le(outs.rest, 4);
        let a = compact_size(ins->0.value.len() as int) + inputs_bytes(ins->0.value);
        let b = compact_size(outs.value.len() as int) + outputs_bytes(outs.value);
        let d = le_bytes(lock.value, 4);
        assert(outs.rest == d + lock.rest);
        assert(ins->0.rest == b + outs.rest);
        assert(t == a + ins->0.rest);
        assert(a + b + d + lock.rest =~= a + (b + (d + lock.rest)));
        assert(compact_size(ins->0.value.len() as int) + inputs_bytes(ins->0.value)
            + compact_size(outs.value.len() as int) + outputs_bytes(outs.value) + d + lock.rest
            =~= a + b + d + lock.rest);
    }
}

/// A transaction that is read from bytes is encoded by exactly those
/// bytes.
#[verifier::rlimit(80)]
#[verifier::spinoff_prover]
pub proof fn lemma_decode_sound(s: Seq<u8>)
    ensures
        decode_spec(s) is Some ==> wire_bytes(decode_spec(s)->0) == s,
{
    if decode_spec(s) is Some {
        let tx = decode_spec(s)->0;
        lemma_pow256_values();
        let v = cut_le(s, 4)->0;
        lemma_cut_le(s, 4);
        lemma_version_round_trip(0, v.value);
        let head = le_bytes(v.value, 4);
        assert(s == head + v.rest);
        let ins = cut_input_list(v.rest)->0;
        if ins.value.len() == 0 {
            lemma_cut_input_list(v.rest);
            let t = ins.rest.skip(1);
            assert(inputs_bytes(ins.value) =~= Seq::<u8>::empty());
            assert(compact_size(0) =~= seq![0u8]);
            assert(v.rest =~= seq![0u8] + ins.rest);
            assert(ins.rest =~= seq![1u8] + t);
            lemma_decode_extended_sound(version_of(v.value), t);
            let rest = body_bytes(tx) + witnesses_bytes(tx.input) + le_bytes(
                tx.lock_time as int,
                4,
            );
            assert(wire_bytes(tx) =~= head + (seq![0u8] + (seq![1u8] + rest)));
        } else {
            lemma_decode_plain_sound(v.rest);
            let outs = cut_output_list(ins.rest)->0;
            let lock = cut_le(outs.rest, 4)->0;
            assert(lock.rest =~= Seq::<u8>::empty());
            assert(!is_extended(tx));
            let t = compact_size(ins.value.len() as int) + inputs_bytes(ins.value) + compact_size(
                outs.value.len() as int,
            ) + outputs_bytes(outs.value) + le_bytes(lock.value, 4);
            assert(t + lock.rest =~= t);
            assert(wire_bytes(tx) =~= head + t);
        }
    }
}

/// What is written behind marker and flag is read back.
#[verifier::rlimit(80)]
#[verifier::spinoff_prover]
pub proof fn lemma_decode_extended_of(tx: TransactionView)
    requires
        tx_fits(tx),
        is_extended(tx),
    ensures
        decode_extended(
            tx.version,
            body_bytes(tx) + witnesses_bytes(tx.input) + le_bytes(tx.lock_time as int, 4),
        ) == Some(tx),
{
    lemma_pow256_values();
    let lock = le_bytes(tx.lock_time as int, 4);
    let w = witnesses_bytes(tx.input) + lock;
    let b = compact_size(tx.output.len() as int) + outputs_bytes(tx.output);
    let t = body_bytes(tx) + witnesses_bytes(tx.input) + lock;
    let after_count = inputs_bytes(tx.input) + (b + w);
    assert(t =~= compact_size(tx.input.len() as int) + after_count);
    lemma_cut_compact_of(tx.input.len() as int, after_count);
    lemma_cut_inputs_of(tx.input, b + w);
    assert(cut_input_list(t) == Some(Cut { value: bare_inputs(tx.input), rest: b + w }));
    assert(b + w =~= compact_size(tx.output.len() as int) + (outputs_bytes(tx.output) + w));
    lemma_cut_compact_of(tx.output.len() as int, outputs_bytes(tx.output) + w);
    lemma_cut_outputs_of(tx.output, w);
    assert(cut_output_list(b + w) == Some(Cut { value: tx.output, rest: w }));
    lemma_cut_witnesses_of(tx.input, lock);
    lemma_cut_le_of(tx.lock_time as int, 4, Seq::<u8>::empty());
    assert(lock + Seq::<u8>::empty() =~= lock);
}

/// What is written in the form without witnesses is read back.
#[verifier::rlimit(80)]
#[verifier::spinoff_prover]
pub proof fn lemma_decode_plain_of(tx: TransactionView)
    requires
        tx_fits(tx),
        !is_extended(tx),
    ensures
        ({
            let t = body_bytes(tx) + le_bytes(tx.lock_time as int, 4);
            &&& cut_input_list(t) is Some
            &&& cut_input_list(t)->0.value == tx.input
            &&& cut_output_list(cut_input_list(t)->0.rest) == Some(
                Cut { value: tx.output, rest: le_bytes(tx.lock_time as int, 4) },
            )
            &&& cut_le(le_bytes(tx.lock_time as int, 4), 4) == Some(
                Cut { value: tx.lock_time as int, rest: Seq::<u8>::empty() },
            )
        }),
{
    lemma_pow256_values();
    let lock = le_bytes(tx.lock_time as int, 4);
    let b = compact_size(tx.output.len() as int) + outputs_bytes(tx.output);
    let t = body_bytes(tx) + lock;
    let after_count = inputs_bytes(tx.input) + (b + lock);
    assert(t =~= compact_size(tx.input.len() as int) + after_count);
    lemma_cut_compact_of(tx.input.len() as int, after_count);
    lemma_cut_inputs_of(tx.input, b + lock);
    assert(bare_inputs(tx.input) =~= tx.input) by {
        assert forall|k: int| 0 <= k < tx.input.len() implies bare_inputs(tx.input)[k]
            == tx.input[k] by {
            assert(tx.input[k].witness.len() == 0);
            assert(tx.input[k].witness =~= Seq::<Seq<u8>>::empty());
        }
    }
    assert(cut_input_list(t) == Some(Cut { value: tx.input, rest: b + lock }));
    assert(b + lock =~= compact_size(tx.output.len() as int) + (outputs_bytes(tx.output) + lock));
    lemma_cut_compact_of(tx.output.len() as int, outputs_bytes(tx.output) + lock);
    lemma_cut_outputs_of(tx.output, lock);
    lemma_cut_le_of(tx.lock_time as int, 4, Seq::<u8>::empty());
    assert(lock + Seq::<u8>::empty() =~= lock);
}

/// The encoding of a transaction is read back as that transaction.
#[verifier::rlimit(80)]
#[verifier::spinoff_prover]
pub proof fn lemma_decode_encode(tx: TransactionView)
    requires
        tx_fits(tx),
    ensures
        decode_spec(wire_bytes(tx)) == Some(tx),
{
    lemma_pow256_values();
    lemma_version_round_trip(tx.version, 0);
    let head = le_bytes(version_bits(tx.version), 4);
    let s = wire_bytes(tx);
    if is_extended(tx) {
        let t = body_bytes(tx) + witnesses_bytes(tx.input) + le_bytes(tx.lock_time as int, 4);
        let marked = seq![0u8] + (seq![1u8] + t);
        assert(s =~= head + marked);
        lemma_cut_le_of(version_bits(tx.version), 4, marked);
        lemma_cut_compact_of(0, seq![1u8] + t);
        assert(compact_size(0) + (seq![1u8] + t) =~= marked);
        assert(cut_input_list(marked) == Some(
            Cut { value: Seq::<TxInView>::empty(), rest: seq![1u8] + t },
        ));
        assert((seq![1u8] + t).skip(1) =~= t);
        lemma_decode_extended_of(tx);
    } else {
        let t = body_bytes(tx) + le_bytes(tx.lock_time as int, 4);
        assert(s =~= head + t);
        lemma_cut_le_of(version_bits(tx.version), 4, t);
        lemma_decode_plain_of(tx);
    }
}

/// The encoding of any transaction at hand tells every count and length,
/// so that it can be read back.
#[verifier::spinoff_prover]
#[verifier::rlimit(80)]
pub proof fn lemma_transaction_fits(tx: Transaction)
    ensures
        tx_fits(tx@),
{
    assert forall|k: int| 0 <= k < tx@.input.len() implies (
    #[trigger] tx@.input[k]).script_sig.len() < 0x1_0000_0000_0000_0000 && items_fit(
        tx@.input[k].witness,
    ) by {
        let i = tx.input@[k];
        assert(tx@.input[k] == i@);
        assert(i.script_sig.bytes.len() <= usize::MAX);
        assert(i.witness.len() <= usize::MAX);
        assert forall|j: int| 0 <= j < i@.witness.len() implies (
        #[trigger] i@.witness[j]).len() < 0x1_0000_0000_0000_0000 by {
            assert(i@.witness[j] == i.witness@[j]@);
            assert(i.witness@[j].len() <= usize::MAX);
        }
    }
    assert forall|k: int| 0 <= k < tx@.output.len() implies (
    #[trigger] tx@.output[k]).script.len() < 0x1_0000_0000_0000_0000 by {
        assert(tx@.output[k] == tx.output@[k]@);
        assert(tx.output@[k].script_pubkey.bytes.len() <= usize::MAX);
    }
    assert(tx.input.len() <= usize::MAX);
    assert(tx.output.len() <= usize::MAX);
}

} // verus!
