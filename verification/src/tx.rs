//! Transactions: their parts, what their inputs signal, and their encoding.

use vstd::prelude::*;
use crate::error::{Invalid, WalletError};
use crate::keys::{hex_char, hex_str};
use crate::primitives::{sha256d, sha256d_of};
use crate::fee::cap64;
use crate::script::append_bytes;
use crate::types::{copy_items, items_eq, items_view, outs_view, OutPoint, Script, TxOut, TxOutView};

verus! {

/// What an input of a transaction is in contracts.
pub struct TxInView {
    pub previous_output: OutPoint,
    pub script_sig: Seq<u8>,
    pub sequence: u32,
    pub witness: Seq<Seq<u8>>,
}

/// An input of a transaction.
#[derive(Clone, Debug)]
pub struct TxIn {
    pub previous_output: OutPoint,
    pub script_sig: Script,
    pub sequence: u32,
    pub witness: Vec<Vec<u8>>,
}

impl View for TxIn {
    type V = TxInView;

    open spec fn view(&self) -> TxInView {
        TxInView {
            previous_output: self.previous_output,
            script_sig: self.script_sig@,
            sequence: self.sequence,
            witness: items_view(self.witness@),
        }
    }
}

/// The inputs of `s`, each by its view.
pub open spec fn ins_view(s: Seq<TxIn>) -> Seq<TxInView> {
    s.map_values(|i: TxIn| i@)
}

/// What a transaction is in contracts.
pub struct TransactionView {
    pub version: i32,
    pub lock_time: u32,
    pub input: Seq<TxInView>,
    pub output: Seq<TxOutView>,
}

/// A transaction.
#[derive(Clone, Debug)]
pub struct Transaction {
    pub version: i32,
    pub lock_time: u32,
    pub input: Vec<TxIn>,
    pub output: Vec<TxOut>,
}

impl View for Transaction {
    type V = TransactionView;

    open spec fn view(&self) -> TransactionView {
        TransactionView {
            version: self.version,
            lock_time: self.lock_time,
            input: ins_view(self.input@),
            output: outs_view(self.output@),
        }
    }
}

/// The `n` low bytes of `x`, lowest first.
pub open spec fn le_bytes(x: int, n: nat) -> Seq<u8>
    decreases n,
{
    if n == 0 {
        Seq::empty()
    } else {
        seq![(x % 256) as u8] + le_bytes(x / 256, (n - 1) as nat)
    }
}

/// The compact encoding of the count `n`.
pub open spec fn compact_size(n: int) -> Seq<u8> {
    if n < 0xfd {
        seq![n as u8]
    } else if n <= 0xffff {
        seq![0xfdu8] + le_bytes(n, 2)
    } else if n <= 0xffff_ffff {
        seq![0xfeu8] + le_bytes(n, 4)
    } else {
        seq![0xffu8] + le_bytes(n, 8)
    }
}

/// A version as the unsigned number with the same four bytes.
pub open spec fn version_bits(version: i32) -> int {
    if version >= 0 {
        version as int
    } else {
        version + 0x1_0000_0000
    }
}

/// The encoding of an input without its witness.
pub open spec fn txin_bytes(i: TxInView) -> Seq<u8> {
    i.previous_output.txid@ + le_bytes(i.previous_output.vout as int, 4) + compact_size(
        i.script_sig.len() as int,
    ) + i.script_sig + le_bytes(i.sequence as int, 4)
}

/// The encoding of an output.
pub open spec fn txout_bytes(o: TxOutView) -> Seq<u8> {
    le_bytes(o.value as int, 8) + compact_size(o.script.len() as int) + o.script
}

/// The encodings of the inputs `s`, one after the other.
pub open spec fn inputs_bytes(s: Seq<TxInView>) -> Seq<u8>
    decreases s.len(),
{
    if s.len() == 0 {
        Seq::empty()
    } else {
        inputs_bytes(s.drop_last()) + txin_bytes(s.last())
    }
}

/// The encodings of the outputs `s`, one after the other.
pub open spec fn outputs_bytes(s: Seq<TxOutView>) -> Seq<u8>
    decreases s.len(),
{
    if s.len() == 0 {
        Seq::empty()
    } else {
        outputs_bytes(s.drop_last()) + txout_bytes(s.last())
    }
}

/// The byte strings `s`, each behind its length.
pub open spec fn items_bytes(s: Seq<Seq<u8>>) -> Seq<u8>
    decreases s.len(),
{
    if s.len() == 0 {
        Seq::empty()
    } else {
        items_bytes(s.drop_last()) + compact_size(s.last().len() as int) + s.last()
    }
}

/// The encoding of one witness: the count of its items, then the items.
pub open spec fn witness_bytes(w: Seq<Seq<u8>>) -> Seq<u8> {
    compact_size(w.len() as int) + items_bytes(w)
}

/// The encodings of the witnesses of the inputs `s`, one after the other.
pub open spec fn witnesses_bytes(s: Seq<TxInView>) -> Seq<u8>
    decreases s.len(),
{
    if s.len() == 0 {
        Seq::empty()
    } else {
        witnesses_bytes(s.drop_last()) + witness_bytes(s.last().witness)
    }
}

/// Whether some input of `s` carries a witness.
pub open spec fn any_witness(s: Seq<TxInView>) -> bool {
    exists|i: int| 0 <= i < s.len() && s[i].witness.len() > 0
}

/// Whether the transaction is encoded with its witnesses: some input has
/// one, or there is no input at all.
pub open spec fn is_extended(tx: TransactionView) -> bool {
    tx.input.len() == 0 || any_witness(tx.input)
}

/// What stands between version and lock time: the inputs and the outputs,
/// each list behind its count.
pub open spec fn body_bytes(tx: TransactionView) -> Seq<u8> {
    compact_size(tx.input.len() as int) + inputs_bytes(tx.input) + compact_size(
        tx.output.len() as int,
    ) + outputs_bytes(tx.output)
}

/// The encoding without witnesses, which the transaction id is the hash of.
pub open spec fn base_bytes(tx: TransactionView) -> Seq<u8> {
    le_bytes(version_bits(tx.version), 4) + body_bytes(tx) + le_bytes(tx.lock_time as int, 4)
}

/// The encoding of the transaction as it goes over the wire.
pub open spec fn wire_bytes(tx: TransactionView) -> Seq<u8> {
    if is_extended(tx) {
        le_bytes(version_bits(tx.version), 4) + seq![0u8, 1u8] + body_bytes(tx) + witnesses_bytes(
            tx.input,
        ) + le_bytes(tx.lock_time as int, 4)
    } else {
        base_bytes(tx)
    }
}

/// The weight of the transaction: three times the size without witnesses
/// plus the size with them.
pub open spec fn weight_spec(tx: TransactionView) -> int {
    (3 * base_bytes(tx).len() + wire_bytes(tx).len()) as int
}

/// Whether the transaction creates coins: its one input spends the null
/// outpoint.
pub open spec fn is_coin_base_spec(tx: TransactionView) -> bool {
    tx.input.len() == 1 && tx.input[0].previous_output.vout == 0xffff_ffff && (forall|k: int|
        0 <= k < 32 ==> tx.input[0].previous_output.txid@[k] == 0)
}

/// Whether some input signals that the transaction may be replaced.
pub open spec fn is_explicitly_rbf_spec(tx: TransactionView) -> bool {
    exists|i: int| 0 <= i < tx.input.len() && tx.input[i].sequence < 0xffff_fffe
}

/// Whether some input lets the lock time take effect.
pub open spec fn is_lock_time_enabled_spec(tx: TransactionView) -> bool {
    exists|i: int| 0 <= i < tx.input.len() && tx.input[i].sequence != 0xffff_ffff
}

/// Appends the `n` low bytes of `x`, lowest first.
pub(crate) fn push_le(out: &mut Vec<u8>, x: u64, n: usize)
    requires
        n <= 8,
    ensures
        final(out)@ == old(out)@ + le_bytes(x as int, n as nat),
{
    let mut rest: u64 = x;
    let mut i: usize = 0;
    let ghost done: Seq<u8> = Seq::empty();
    assert(out@ =~= old(out)@ + done);
    while i < n
        invariant
            i <= n <= 8,
            out@ == old(out)@ + done,
            done + le_bytes(rest as int, (n - i) as nat) == le_bytes(x as int, n as nat),
        decreases n - i,
    {
        let b: u8 = (rest % 256) as u8;
        out.push(b);
        proof {
            let tail = le_bytes(rest as int / 256, (n - i - 1) as nat);
            assert(le_bytes(rest as int, (n - i) as nat) == seq![b] + tail);
            assert(done.push(b) + tail =~= done + (seq![b] + tail));
            done = done.push(b);
            assert(out@ =~= old(out)@ + done);
        }
        rest = rest / 256;
        i += 1;
    }
    proof {
        assert(le_bytes(rest as int, 0) =~= Seq::<u8>::empty());
        assert(done + Seq::<u8>::empty() =~= done);
    }
}

/// Appends the compact encoding of the count `n`.
pub fn push_compact_size(out: &mut Vec<u8>, n: u64)
    ensures
        final(out)@ == old(out)@ + compact_size(n as int),
{
    if n < 0xfd {
        out.push(n as u8);
        assert(out@ =~= old(out)@ + compact_size(n as int));
    } else if n <= 0xffff {
        out.push(0xfd);
        push_le(out, n, 2);
        assert(out@ =~= old(out)@ + compact_size(n as int));
    } else if n <= 0xffff_ffff {
        out.push(0xfe);
        push_le(out, n, 4);
        assert(out@ =~= old(out)@ + compact_size(n as int));
    } else {
        out.push(0xff);
        push_le(out, n, 8);
        assert(out@ =~= old(out)@ + compact_size(n as int));
    }
}

/// Appends the thirty-two bytes of a transaction id.
pub fn push_txid(out: &mut Vec<u8>, txid: &[u8; 32])
    ensures
        final(out)@ == old(out)@ + txid@,
{
    let mut i: usize = 0;
    assert(out@ =~= old(out)@ + txid@.take(0));
    while i < 32
        invariant
            i <= 32,
            out@ == old(out)@ + txid@.take(i as int),
        decreases 32 - i,
    {
        out.push(txid[i]);
        assert(out@ =~= old(out)@ + txid@.take(i + 1));
        i += 1;
    }
    assert(txid@.take(32) =~= txid@);
}

/// Appends the encoding of an input without its witness.
pub fn push_txin(out: &mut Vec<u8>, i: &TxIn)
    ensures
        final(out)@ == old(out)@ + txin_bytes(i@),
{
    push_txid(out, &i.previous_output.txid);
    push_le(out, i.previous_output.vout as u64, 4);
    push_compact_size(out, i.script_sig.bytes.len() as u64);
    append_bytes(out, &i.script_sig.bytes);
    push_le(out, i.sequence as u64, 4);
    assert(out@ =~= old(out)@ + txin_bytes(i@));
}

/// Appends the encoding of an output.
pub fn push_txout(out: &mut Vec<u8>, o: &TxOut)
    ensures
        final(out)@ == old(out)@ + txout_bytes(o@),
{
    push_le(out, o.value, 8);
    push_compact_size(out, o.script_pubkey.bytes.len() as u64);
    append_bytes(out, &o.script_pubkey.bytes);
    assert(out@ =~= old(out)@ + txout_bytes(o@));
}

/// Appends the encoding of one witness.
pub fn push_witness(out: &mut Vec<u8>, w: &Vec<Vec<u8>>)
    ensures
        final(out)@ == old(out)@ + witness_bytes(items_view(w@)),
{
    let ghost all = items_view(w@);
    push_compact_size(out, w.len() as u64);
    let ghost head = out@;
    let mut i: usize = 0;
    assert(out@ =~= head + items_bytes(all.take(0)));
    while i < w.len()
        invariant
            i <= w.len(),
            all == items_view(w@),
            head == old(out)@ + compact_size(w.len() as int),
            out@ == head + items_bytes(all.take(i as int)),
        decreases w.len() - i,
    {
        let ghost before = out@;
        push_compact_size(out, w[i].len() as u64);
        append_bytes(out, &w[i]);
        proof {
            assert(all.take(i + 1).drop_last() =~= all.take(i as int));
            assert(all.take(i + 1).last() == w@[i as int]@);
            assert(out@ =~= head + items_bytes(all.take(i + 1)));
        }
        i += 1;
    }
    proof {
        assert(all.take(w.len() as int) =~= all);
        assert(out@ =~= old(out)@ + witness_bytes(all));
    }
}

impl Transaction {
    /// Appends what stands between version and lock time.
    #[verifier::spinoff_prover]
    #[verifier::rlimit(60)]
    fn push_body(&self, out: &mut Vec<u8>)
        ensures
            final(out)@ == old(out)@ + body_bytes(self@),
    {
        let ghost ins = ins_view(self.input@);
        let ghost outs = outs_view(self.output@);
        push_compact_size(out, self.input.len() as u64);
        let ghost head = out@;
        let mut i: usize = 0;
        assert(out@ =~= head + inputs_bytes(ins.take(0)));
        while i < self.input.len()
            invariant
                i <= self.input.len(),
                ins == ins_view(self.input@),
                out@ == head + inputs_bytes(ins.take(i as int)),
            decreases self.input.len() - i,
        {
            push_txin(out, &self.input[i]);
            proof {
                assert(ins.take(i + 1).drop_last() =~= ins.take(i as int));
                assert(ins.take(i + 1).last() == self.input@[i as int]@);
                assert(out@ =~= head + inputs_bytes(ins.take(i + 1)));
            }
            i += 1;
        }
        assert(ins.take(self.input.len() as int) =~= ins);
        push_compact_size(out, self.output.len() as u64);
        let ghost mid = out@;
        let mut j: usize = 0;
        assert(out@ =~= mid + outputs_bytes(outs.take(0)));
        while j < self.output.len()
            invariant
                j <= self.output.len(),
                outs == outs_view(self.output@),
                out@ == mid + outputs_bytes(outs.take(j as int)),
            decreases self.output.len() - j,
        {
            push_txout(out, &self.output[j]);
            proof {
                assert(outs.take(j + 1).drop_last() =~= outs.take(j as int));
                assert(outs.take(j + 1).last() == self.output@[j as int]@);
                assert(out@ =~= mid + outputs_bytes(outs.take(j + 1)));
            }
            j += 1;
        }
        proof {
            assert(outs.take(self.output.len() as int) =~= outs);
            assert(out@ =~= old(out)@ + body_bytes(self@));
        }
    }

    /// The version as the unsigned number with the same four bytes.
    fn version_word(&self) -> (r: u64)
        ensures
            r == version_bits(self.version),
    {
        if self.version >= 0 {
            self.version as u64
        } else {
            (self.version as i64 + 0x1_0000_0000) as u64
        }
    }

    /// Whether the transaction is encoded with its witnesses.
    pub fn has_witness(&self) -> (r: bool)
        ensures
            r == is_extended(self@),
    {
        if self.input.len() == 0 {
            return true;
        }
        let mut i: usize = 0;
        while i < self.input.len()
            invariant
                i <= self.input.len(),
                forall|k: int| 0 <= k < i ==> self@.input[k].witness.len() == 0,
            decreases self.input.len() - i,
        {
            if self.input[i].witness.len() > 0 {
                assert(self@.input[i as int].witness.len() > 0);
                return true;
            }
            i += 1;
        }
        false
    }

    /// The encoding without witnesses.
    pub fn base_encoding(&self) -> (r: Vec<u8>)
        ensures
            r@ == base_bytes(self@),
    {
        let mut out: Vec<u8> = Vec::new();
        push_le(&mut out, self.version_word(), 4);
        self.push_body(&mut out);
        push_le(&mut out, self.lock_time as u64, 4);
        assert(out@ =~= base_bytes(self@));
        out
    }

    /// The encoding of the transaction as it goes over the wire. It is
    /// read back as this transaction.
    pub fn serialize(&self) -> (r: Vec<u8>)
        ensures
            r@ == wire_bytes(self@),
            crate::tx_codec::decode_spec(r@) == Some(self@),
    {
        proof {
            crate::tx_codec::lemma_transaction_fits(*self);
            crate::tx_codec::lemma_decode_encode(self@);
        }
        self.wire_encoding()
    }

    /// The encoding of the transaction as it goes over the wire.
    #[verifier::spinoff_prover]
    #[verifier::rlimit(60)]
    fn wire_encoding(&self) -> (r: Vec<u8>)
        ensures
            r@ == wire_bytes(self@),
    {
        if !self.has_witness() {
            return self.base_encoding();
        }
        let ghost ins = ins_view(self.input@);
        let mut out: Vec<u8> = Vec::new();
        push_le(&mut out, self.version_word(), 4);
        out.push(0);
        out.push(1);
        self.push_body(&mut out);
        let ghost head = out@;
        let mut i: usize = 0;
        assert(out@ =~= head + witnesses_bytes(ins.take(0)));
        while i < self.input.len()
            invariant
                i <= self.input.len(),
                ins == ins_view(self.input@),
                out@ == head + witnesses_bytes(ins.take(i as int)),
            decreases self.input.len() - i,
        {
            push_witness(&mut out, &self.input[i].witness);
            proof {
                assert(ins.take(i + 1).drop_last() =~= ins.take(i as int));
                assert(ins.take(i + 1).last() == self.input@[i as int]@);
                assert(out@ =~= head + witnesses_bytes(ins.take(i + 1)));
            }
            i += 1;
        }
        assert(ins.take(self.input.len() as int) =~= ins);
        push_le(&mut out, self.lock_time as u64, 4);
        assert(out@ =~= wire_bytes(self@));
        out
    }

    /// The size of the transaction in bytes.
    pub fn size(&self) -> (r: u64)
        ensures
            r == wire_bytes(self@).len(),
    {
        self.serialize().len() as u64
    }

    /// The weight of the transaction, held at the largest `u64`.
    pub fn weight(&self) -> (r: u64)
        ensures
            r == cap64(weight_spec(self@)),
    {
        let base: u128 = self.base_encoding().len() as u128;
        let total: u128 = self.serialize().len() as u128;
        let w: u128 = 3 * base + total;
        if w > u64::MAX as u128 {
            u64::MAX
        } else {
            w as u64
        }
    }

    /// The virtual size: a quarter of the weight, rounded up.
    pub fn vsize(&self) -> (r: u64)
        ensures
            r == cap64((weight_spec(self@) + 3) / 4),
    {
        let base: u128 = self.base_encoding().len() as u128;
        let total: u128 = self.serialize().len() as u128;
        let v: u128 = (3 * base + total + 3) / 4;
        if v > u64::MAX as u128 {
            u64::MAX
        } else {
            v as u64
        }
    }

    /// Whether the transaction creates coins.
    pub fn is_coin_base(&self) -> (r: bool)
        ensures
            r == is_coin_base_spec(self@),
    {
        if self.input.len() != 1 || self.input[0].previous_output.vout != 0xffff_ffff {
            return false;
        }
        let txid: [u8; 32] = self.input[0].previous_output.txid;
        let mut i: usize = 0;
        while i < 32
            invariant
                i <= 32,
                txid == self@.input[0].previous_output.txid,
                forall|k: int| 0 <= k < i ==> txid@[k] == 0,
            decreases 32 - i,
        {
            if txid[i] != 0 {
                return false;
            }
            i += 1;
        }
        true
    }

    /// Whether some input signals that the transaction may be replaced.
    pub fn is_explicitly_rbf(&self) -> (r: bool)
        ensures
            r == is_explicitly_rbf_spec(self@),
    {
        let mut i: usize = 0;
        while i < self.input.len()
            invariant
                i <= self.input.len(),
                forall|k: int| 0 <= k < i ==> self@.input[k].sequence >= 0xffff_fffe,
            decreases self.input.len() - i,
        {
            if self.input[i].sequence < 0xffff_fffe {
                assert(self@.input[i as int].sequence < 0xffff_fffe);
                return true;
            }
            i += 1;
        }
        false
    }

    /// Whether some input lets the lock time take effect.
    pub fn is_lock_time_enabled(&self) -> (r: bool)
        ensures
            r == is_lock_time_enabled_spec(self@),
    {
        let mut i: usize = 0;
        while i < self.input.len()
            invariant
                i <= self.input.len(),
                forall|k: int| 0 <= k < i ==> self@.input[k].sequence == 0xffff_ffff,
            decreases self.input.len() - i,
        {
            if self.input[i].sequence != 0xffff_ffff {
                assert(self@.input[i as int].sequence != 0xffff_ffff);
                return true;
            }
            i += 1;
        }
        false
    }
}


impl TxIn {
    /// A copy of this input.
    pub fn copy(&self) -> (r: TxIn)
        ensures
            r@ == self@,
    {
        TxIn {
            previous_output: self.previous_output,
            script_sig: self.script_sig.copy(),
            sequence: self.sequence,
            witness: copy_items(&self.witness),
        }
    }

    /// Whether two inputs are the same.
    pub fn same(&self, other: &TxIn) -> (r: bool)
        ensures
            r == (self@ == other@),
    {
        self.previous_output.same(&other.previous_output) && self.script_sig.same(
            &other.script_sig,
        ) && self.sequence == other.sequence && items_eq(&self.witness, &other.witness)
    }
}

/// Whether two outputs are the same.
pub fn txout_eq(a: &TxOut, b: &TxOut) -> (r: bool)
    ensures
        r == (a@ == b@),
{
    a.value == b.value && a.script_pubkey.same(&b.script_pubkey)
}

impl Transaction {
    /// A copy of this transaction.
    pub fn copy(&self) -> (r: Transaction)
        ensures
            r@ == self@,
    {
        let mut input: Vec<TxIn> = Vec::new();
        let mut i: usize = 0;
        assert(ins_view(input@) =~= ins_view(self.input@).take(0));
        while i < self.input.len()
            invariant
                i <= self.input.len(),
                ins_view(input@) == ins_view(self.input@).take(i as int),
            decreases self.input.len() - i,
        {
            let ghost before = input@;
            input.push(self.input[i].copy());
            proof {
                assert(ins_view(input@) =~= ins_view(before).push(self.input@[i as int]@));
                assert(ins_view(self.input@).take(i + 1) =~= ins_view(self.input@).take(
                    i as int,
                ).push(self.input@[i as int]@));
            }
            i += 1;
        }
        assert(ins_view(self.input@).take(self.input.len() as int) =~= ins_view(self.input@));
        let mut output: Vec<TxOut> = Vec::new();
        let mut j: usize = 0;
        assert(outs_view(output@) =~= outs_view(self.output@).take(0));
        while j < self.output.len()
            invariant
                j <= self.output.len(),
                outs_view(output@) == outs_view(self.output@).take(j as int),
            decreases self.output.len() - j,
        {
            let ghost before = output@;
            output.push(self.output[j].copy());
            proof {
                assert(outs_view(output@) =~= outs_view(before).push(self.output@[j as int]@));
                assert(outs_view(self.output@).take(j + 1) =~= outs_view(self.output@).take(
                    j as int,
                ).push(self.output@[j as int]@));
            }
            j += 1;
        }
        assert(outs_view(self.output@).take(self.output.len() as int) =~= outs_view(
            self.output@,
        ));
        Transaction { version: self.version, lock_time: self.lock_time, input, output }
    }

    /// Whether two transactions are the same.
    pub fn same(&self, other: &Transaction) -> (r: bool)
        ensures
            r == (self@ == other@),
    {
        if self.version != other.version || self.lock_time != other.lock_time
            || self.input.len() != other.input.len() || self.output.len() != other.output.len() {
            assert(self@.input.len() == self.input.len());
            assert(other@.input.len() == other.input.len());
            assert(self@.output.len() == self.output.len());
            assert(other@.output.len() == other.output.len());
            return false;
        }
        let mut i: usize = 0;
        while i < self.input.len()
            invariant
                i <= self.input.len(),
                self.input.len() == other.input.len(),
                forall|k: int| 0 <= k < i ==> self@.input[k] == other@.input[k],
            decreases self.input.len() - i,
        {
            if !self.input[i].same(&other.input[i]) {
                assert(self@.input[i as int] != other@.input[i as int]);
                return false;
            }
            i += 1;
        }
        let mut j: usize = 0;
        while j < self.output.len()
            invariant
                j <= self.output.len(),
                self.output.len() == other.output.len(),
                forall|k: int| 0 <= k < j ==> self@.output[k] == other@.output[k],
            decreases self.output.len() - j,
        {
            if !txout_eq(&self.output[j], &other.output[j]) {
                assert(self@.output[j as int] != other@.output[j as int]);
                return false;
            }
            j += 1;
        }
        assert(self@.input =~= other@.input);
        assert(self@.output =~= other@.output);
        true
    }
}


/// The value of a hexadecimal digit of either case; None for any other
/// character.
pub open spec fn hex_value(c: char) -> Option<int> {
    if c == '0' {
        Some(0)
    } else if c == '1' {
        Some(1)
    } else if c == '2' {
        Some(2)
    } else if c == '3' {
        Some(3)
    } else if c == '4' {
        Some(4)
    } else if c == '5' {
        Some(5)
    } else if c == '6' {
        Some(6)
    } else if c == '7' {
        Some(7)
    } else if c == '8' {
        Some(8)
    } else if c == '9' {
        Some(9)
    } else if c == 'a' || c == 'A' {
        Some(10)
    } else if c == 'b' || c == 'B' {
        Some(11)
    } else if c == 'c' || c == 'C' {
        Some(12)
    } else if c == 'd' || c == 'D' {
        Some(13)
    } else if c == 'e' || c == 'E' {
        Some(14)
    } else if c == 'f' || c == 'F' {
        Some(15)
    } else {
        None
    }
}

/// The text of a transaction id: its bytes from the last to the first, two
/// lower-case hexadecimal digits each.
pub open spec fn txid_text(txid: [u8; 32]) -> Seq<char> {
    Seq::new(
        64,
        |k: int|
            if k % 2 == 0 {
                hex_char(txid@[31 - k / 2] as int / 16)
            } else {
                hex_char(txid@[31 - k / 2] as int % 16)
            },
    )
}

/// Whether the text `s` is that of the transaction id `txid`, in digits of
/// either case.
pub open spec fn is_txid_text(s: Seq<char>, txid: [u8; 32]) -> bool {
    s.len() == 64 && forall|k: int|
        0 <= k < 32 ==> hex_value(#[trigger] s[2 * k]) == Some(txid@[31 - k] as int / 16)
            && hex_value(s[2 * k + 1]) == Some(txid@[31 - k] as int % 16)
}

/// Whether the text `s` is that of some transaction id: sixty-four
/// hexadecimal digits.
pub open spec fn is_hex64(s: Seq<char>) -> bool {
    s.len() == 64 && forall|k: int| 0 <= k < 64 ==> hex_value(#[trigger] s[k]) is Some
}

/// The value of a hexadecimal digit.
pub fn hex_digit(c: char) -> (r: Option<u8>)
    ensures
        r is Some == hex_value(c) is Some,
        r is Some ==> r->0 == hex_value(c)->0 && r->0 < 16,
{
    if c == '0' {
        Some(0)
    } else if c == '1' {
        Some(1)
    } else if c == '2' {
        Some(2)
    } else if c == '3' {
        Some(3)
    } else if c == '4' {
        Some(4)
    } else if c == '5' {
        Some(5)
    } else if c == '6' {
        Some(6)
    } else if c == '7' {
        Some(7)
    } else if c == '8' {
        Some(8)
    } else if c == '9' {
        Some(9)
    } else if c == 'a' || c == 'A' {
        Some(10)
    } else if c == 'b' || c == 'B' {
        Some(11)
    } else if c == 'c' || c == 'C' {
        Some(12)
    } else if c == 'd' || c == 'D' {
        Some(13)
    } else if c == 'e' || c == 'E' {
        Some(14)
    } else if c == 'f' || c == 'F' {
        Some(15)
    } else {
        None
    }
}

/// The text of a transaction id reads as that id.
pub proof fn lemma_txid_text(txid: [u8; 32])
    ensures
        is_txid_text(txid_text(txid), txid),
        is_hex64(txid_text(txid)),
{
    let s = txid_text(txid);
    assert forall|k: int| 0 <= k < 32 implies hex_value(#[trigger] s[2 * k]) == Some(
        txid@[31 - k] as int / 16,
    ) && hex_value(s[2 * k + 1]) == Some(txid@[31 - k] as int % 16) by {
        assert((2 * k) % 2 == 0 && (2 * k) / 2 == k);
        assert((2 * k + 1) % 2 == 1 && (2 * k + 1) / 2 == k);
    }
    assert forall|k: int| 0 <= k < 64 implies hex_value(#[trigger] s[k]) is Some by {
        let b = txid@[31 - k / 2] as int;
        assert(0 <= b / 16 < 16 && 0 <= b % 16 < 16);
    }
}

/// The text of a transaction id.
pub fn txid_to_text(txid: &[u8; 32]) -> (r: String)
    ensures
        r@ == txid_text(*txid),
        is_txid_text(r@, *txid),
{
    let mut out: String = String::new();
    let mut i: usize = 0;
    while i < 32
        invariant
            i <= 32,
            out@.len() == 2 * i,
            forall|k: int| 0 <= k < 2 * i ==> out@[k] == txid_text(*txid)[k],
        decreases 32 - i,
    {
        let b: u8 = txid[31 - i];
        let ghost before = out@;
        out.append(hex_str(b / 16));
        out.append(hex_str(b % 16));
        proof {
            assert(out@ =~= before + seq![hex_char(b as int / 16)] + seq![
                hex_char(b as int % 16),
            ]);
            assert((2 * i) % 2 == 0 && (2 * i) as int / 2 == i);
            assert((2 * i + 1) % 2 == 1 && (2 * i + 1) as int / 2 == i);
            assert forall|k: int| 0 <= k < 2 * (i + 1) implies out@[k] == txid_text(*txid)[k] by {
                if k < 2 * i {
                    assert(out@[k] == before[k]);
                }
            }
        }
        i += 1;
    }
    proof {
        assert(out@ =~= txid_text(*txid));
        lemma_txid_text(*txid);
    }
    out
}

/// The transaction id that `text` is the text of.
pub fn txid_from_text(text: &str) -> (r: Result<[u8; 32], WalletError>)
    ensures
        is_hex64(text@) ==> r is Ok && is_txid_text(text@, r->Ok_0),
        !is_hex64(text@) ==> r == Err::<[u8; 32], WalletError>(
            WalletError::ValidationError(Invalid::TxidText),
        ),
{
    if text.unicode_len() != 64 {
        return Err(WalletError::ValidationError(Invalid::TxidText));
    }
    let mut txid: [u8; 32] = [0u8; 32];
    let mut i: usize = 0;
    while i < 32
        invariant
            i <= 32,
            text@.len() == 64,
            forall|k: int| 0 <= k < 2 * i ==> hex_value(#[trigger] text@[k]) is Some,
            forall|k: int|
                0 <= k < i ==> hex_value(#[trigger] text@[2 * k]) == Some(txid@[31 - k] as int / 16)
                    && hex_value(text@[2 * k + 1]) == Some(txid@[31 - k] as int % 16),
        decreases 32 - i,
    {
        let hi = match hex_digit(text.get_char(2 * i)) {
            Some(d) => d,
            None => {
                return Err(WalletError::ValidationError(Invalid::TxidText));
            },
        };
        let lo = match hex_digit(text.get_char(2 * i + 1)) {
            Some(d) => d,
            None => {
                return Err(WalletError::ValidationError(Invalid::TxidText));
            },
        };
        let ghost before = txid;
        txid.set(31 - i, hi * 16 + lo);
        proof {
            assert forall|k: int| 0 <= k < 2 * (i + 1) implies hex_value(
                #[trigger] text@[k],
            ) is Some by {
                if k >= 2 * i {
                    assert(k == 2 * i || k == 2 * i + 1);
                }
            }
        }
        i += 1;
    }
    Ok(txid)
}

impl Transaction {
    /// The id of the transaction: the double hash of its encoding without
    /// witnesses.
    pub fn txid(&self) -> (r: [u8; 32])
        ensures
            r@ == sha256d_of(base_bytes(self@)),
    {
        sha256d(&self.base_encoding())
    }
}

} // verus!
