//! Partially signed transactions on the wire: the magic bytes, then the
//! records about the whole, about each input and about each output, each
//! list of records closed by a zero byte.

use vstd::prelude::*;
use crate::error::{Invalid, WalletError};
use crate::primitives::{base64_bytes, base64_decoded, base64_of, base64_text};
use crate::psbt::{
    blank_input, distinct_keys, entries_view, find_key, has_key, input_fits, is_unsigned,
    maps_view, psbt_ins_view, records_fit, well_formed, Entry, EntryView, Psbt, PsbtInput,
    PsbtInputView, PsbtView,
};
use crate::script::{append_bytes, slice_bytes};
use crate::tx::{
    any_witness, base_bytes, compact_size, inputs_bytes, le_bytes, outputs_bytes,
    push_compact_size, push_le, push_txout, txout_bytes, version_bits, wire_bytes, Transaction,
    TransactionView,
};
use crate::tx_codec::{
    bare_inputs, cut_input_list, cut_le, cut_output_list, cut_txout, cut_var_bytes, decode_spec,
    le_value, lemma_cut_compact_of, lemma_cut_inputs_of, lemma_cut_le_of, lemma_cut_outputs_of,
    lemma_cut_txout_of, lemma_cut_var_bytes_of, lemma_decode_encode, lemma_le_value_of_bytes,
    lemma_pow256_values, lemma_transaction_fits, lemma_version_round_trip, read_input_list, read_output_list, read_txout,
    read_u32, read_var_bytes, tx_fits, version_from, version_of, Cut, Got,
};
use crate::types::{Script, TxOut};

verus! {

/// The five bytes that every partially signed transaction starts with.
pub open spec fn magic() -> Seq<u8> {
    seq![0x70u8, 0x73u8, 0x62u8, 0x74u8, 0xffu8]
}

/// One record: the key behind its length, then the value behind its length.
/// The first byte of the key is the kind of the record.
pub open spec fn record_bytes(e: EntryView) -> Seq<u8> {
    compact_size(e.key.len() as int) + e.key + compact_size(e.value.len() as int) + e.value
}

/// Records, one after the other.
pub open spec fn records_bytes(es: Seq<EntryView>) -> Seq<u8>
    decreases es.len(),
{
    if es.len() == 0 {
        Seq::empty()
    } else {
        records_bytes(es.drop_last()) + record_bytes(es.last())
    }
}

/// A list of records, closed by a zero byte.
pub open spec fn map_bytes(es: Seq<EntryView>) -> Seq<u8> {
    records_bytes(es) + seq![0u8]
}

/// The entries `es` as records of the kind `kind`: the kind leads each key.
pub open spec fn keyed(kind: u8, es: Seq<EntryView>) -> Seq<EntryView> {
    Seq::new(es.len(), |i: int| EntryView { key: seq![kind] + es[i].key, value: es[i].value })
}

/// The one record of the kind `kind` with the value `v`, if there is a
/// value.
pub open spec fn single(kind: u8, v: Option<Seq<u8>>) -> Seq<EntryView> {
    match v {
        Some(value) => seq![EntryView { key: seq![kind], value }],
        None => Seq::empty(),
    }
}

/// The encoding of a transaction that may be missing.
pub open spec fn opt_wire(t: Option<crate::tx::TransactionView>) -> Option<Seq<u8>> {
    match t {
        Some(x) => Some(wire_bytes(x)),
        None => None,
    }
}

/// The encoding of an output that may be missing.
pub open spec fn opt_txout(o: Option<crate::types::TxOutView>) -> Option<Seq<u8>> {
    match o {
        Some(x) => Some(txout_bytes(x)),
        None => None,
    }
}

/// The four bytes of a number that may be missing.
pub open spec fn opt_le4(n: Option<u32>) -> Option<Seq<u8>> {
    match n {
        Some(x) => Some(le_bytes(x as int, 4)),
        None => None,
    }
}

/// The records about one input, in the order of their kinds: the
/// transaction that created the spent output (0), the spent output (1), the
/// signatures (2), the signature hash type (3), the redeem script (4), the
/// witness script (5), the derivation hints (6), then the other records as
/// they stand.
pub open spec fn input_records(i: PsbtInputView) -> Seq<EntryView> {
    single(0, opt_wire(i.non_witness_utxo)) + single(1, opt_txout(i.witness_utxo)) + keyed(
        2,
        i.partial_sigs,
    ) + single(3, opt_le4(i.sighash_type)) + single(4, i.redeem_script) + single(
        5,
        i.witness_script,
    ) + keyed(6, i.bip32_derivation) + i.other
}

/// The records about the whole: the unsigned transaction (0), then the
/// other records as they stand.
pub open spec fn global_records(p: PsbtView) -> Seq<EntryView> {
    single(0, Some(base_bytes(p.unsigned_tx))) + p.globals
}

/// The lists of records about the inputs, one after the other.
pub open spec fn input_maps_bytes(ins: Seq<PsbtInputView>) -> Seq<u8>
    decreases ins.len(),
{
    if ins.len() == 0 {
        Seq::empty()
    } else {
        input_maps_bytes(ins.drop_last()) + map_bytes(input_records(ins.last()))
    }
}

/// Lists of records, one after the other.
pub open spec fn maps_bytes(ms: Seq<Seq<EntryView>>) -> Seq<u8>
    decreases ms.len(),
{
    if ms.len() == 0 {
        Seq::empty()
    } else {
        maps_bytes(ms.drop_last()) + map_bytes(ms.last())
    }
}

/// The encoding of a partially signed transaction.
pub open spec fn psbt_bytes(p: PsbtView) -> Seq<u8> {
    magic() + map_bytes(global_records(p)) + input_maps_bytes(p.inputs) + maps_bytes(p.outputs)
}

/// The encoding of two lists of records is that of the first, then that of
/// the second.
#[verifier::spinoff_prover]
#[verifier::rlimit(80)]
pub proof fn lemma_records_bytes_add(a: Seq<EntryView>, b: Seq<EntryView>)
    ensures
        records_bytes(a + b) == records_bytes(a) + records_bytes(b),
    decreases b.len(),
{
    if b.len() == 0 {
        assert(a + b =~= a);
        assert(records_bytes(a) + records_bytes(b) =~= records_bytes(a));
    } else {
        lemma_records_bytes_add(a, b.drop_last());
        assert((a + b).drop_last() =~= a + b.drop_last());
        assert((a + b).last() == b.last());
        assert(records_bytes(a + b) =~= records_bytes(a) + records_bytes(b));
    }
}

/// The encoding of a list of one record is that of the record.
#[verifier::spinoff_prover]
#[verifier::rlimit(80)]
pub proof fn lemma_records_bytes_one(e: EntryView)
    ensures
        records_bytes(seq![e]) == record_bytes(e),
{
    let s = seq![e];
    assert(s.drop_last().len() == 0);
    assert(s.last() == e);
    assert(records_bytes(s.drop_last()) =~= Seq::<u8>::empty());
    assert(records_bytes(s) =~= record_bytes(e));
}

/// Appends one record.
pub fn push_record(out: &mut Vec<u8>, key: &Vec<u8>, value: &Vec<u8>)
    ensures
        final(out)@ == old(out)@ + record_bytes(EntryView { key: key@, value: value@ }),
{
    push_compact_size(out, key.len() as u64);
    append_bytes(out, key);
    push_compact_size(out, value.len() as u64);
    append_bytes(out, value);
    assert(out@ =~= old(out)@ + record_bytes(EntryView { key: key@, value: value@ }));
}

/// Appends the one record of a kind, if there is a value.
pub fn push_single(out: &mut Vec<u8>, kind: u8, value: &Option<Vec<u8>>)
    ensures
        final(out)@ == old(out)@ + records_bytes(
            single(
                kind,
                match *value {
                    Some(v) => Some(v@),
                    None => None,
                },
            ),
        ),
        all_fit(
            single(
                kind,
                match *value {
                    Some(v) => Some(v@),
                    None => None,
                },
            ),
        ),
{
    match value {
        Some(v) => {
            let mut key: Vec<u8> = Vec::new();
            key.push(kind);
            assert(key@ =~= seq![kind]);
            push_record(out, &key, v);
            proof {
                lemma_records_bytes_one(EntryView { key: seq![kind], value: v@ });
                assert(v.len() <= usize::MAX);
            }
        },
        None => {
            assert(out@ =~= old(out)@ + records_bytes(Seq::<EntryView>::empty()));
        },
    }
}

/// Appends the entries as records of a kind.
pub fn push_keyed(out: &mut Vec<u8>, kind: u8, entries: &Vec<Entry>)
    ensures
        final(out)@ == old(out)@ + records_bytes(keyed(kind, entries_view(entries@))),
        all_fit(keyed(kind, entries_view(entries@))),
{
    let ghost all = keyed(kind, entries_view(entries@));
    let mut i: usize = 0;
    assert(out@ =~= old(out)@ + records_bytes(all.take(0)));
    while i < entries.len()
        invariant
            i <= entries.len(),
            all == keyed(kind, entries_view(entries@)),
            out@ == old(out)@ + records_bytes(all.take(i as int)),
            forall|k: int| 0 <= k < i ==> record_fits(#[trigger] all[k]),
        decreases entries.len() - i,
    {
        let mut key: Vec<u8> = Vec::new();
        key.push(kind);
        append_bytes(&mut key, &entries[i].key);
        proof {
            assert(key@ =~= seq![kind] + entries@[i as int]@.key);
            assert(key.len() <= usize::MAX);
            assert(entries@[i as int].value.len() <= usize::MAX);
            assert(all[i as int] == EntryView { key: key@, value: entries@[i as int]@.value });
            assert(all.take(i + 1).drop_last() =~= all.take(i as int));
            assert(all.take(i + 1).last() == EntryView {
                key: key@,
                value: entries@[i as int]@.value,
            });
        }
        let ghost before = out@;
        push_record(out, &key, &entries[i].value);
        assert(out@ =~= old(out)@ + records_bytes(all.take(i + 1)));
        i += 1;
    }
    assert(all.take(entries.len() as int) =~= all);
}

/// Appends the records as they stand.
pub fn push_raw(out: &mut Vec<u8>, entries: &Vec<Entry>)
    ensures
        final(out)@ == old(out)@ + records_bytes(entries_view(entries@)),
        (forall|k: int| 0 <= k < entries.len() ==> (#[trigger] entries_view(entries@)[k]).key.len()
            > 0) ==> all_fit(entries_view(entries@)),
{
    let ghost all = entries_view(entries@);
    let mut i: usize = 0;
    assert(out@ =~= old(out)@ + records_bytes(all.take(0)));
    while i < entries.len()
        invariant
            i <= entries.len(),
            all == entries_view(entries@),
            out@ == old(out)@ + records_bytes(all.take(i as int)),
            forall|k: int|
                0 <= k < i ==> (#[trigger] all[k]).key.len() < 0x1_0000_0000_0000_0000
                    && all[k].value.len() < 0x1_0000_0000_0000_0000,
        decreases entries.len() - i,
    {
        proof {
            assert(all.take(i + 1).drop_last() =~= all.take(i as int));
            assert(all.take(i + 1).last() == entries@[i as int]@);
            assert(all[i as int] == entries@[i as int]@);
            assert(entries@[i as int].key.len() <= usize::MAX);
            assert(entries@[i as int].value.len() <= usize::MAX);
        }
        push_record(out, &entries[i].key, &entries[i].value);
        assert(out@ =~= old(out)@ + records_bytes(all.take(i + 1)));
        i += 1;
    }
    assert(all.take(entries.len() as int) =~= all);
}

/// The encoding of the records about an input, kind by kind.
pub open spec fn input_parts_bytes(i: PsbtInputView) -> Seq<u8> {
    records_bytes(single(0, opt_wire(i.non_witness_utxo))) + records_bytes(
        single(1, opt_txout(i.witness_utxo)),
    ) + records_bytes(keyed(2, i.partial_sigs)) + records_bytes(
        single(3, opt_le4(i.sighash_type)),
    ) + records_bytes(single(4, i.redeem_script)) + records_bytes(single(5, i.witness_script))
        + records_bytes(keyed(6, i.bip32_derivation)) + records_bytes(i.other)
}

/// The records about an input are encoded kind by kind.
#[verifier::spinoff_prover]
#[verifier::rlimit(80)]
pub proof fn lemma_input_parts_bytes(i: PsbtInputView)
    ensures
        records_bytes(input_records(i)) == input_parts_bytes(i),
{
    let r0 = single(0, opt_wire(i.non_witness_utxo));
    let r1 = single(1, opt_txout(i.witness_utxo));
    let r2 = keyed(2, i.partial_sigs);
    let r3 = single(3, opt_le4(i.sighash_type));
    let r4 = single(4, i.redeem_script);
    let r5 = single(5, i.witness_script);
    let r6 = keyed(6, i.bip32_derivation);
    lemma_records_bytes_add(r0, r1);
    lemma_records_bytes_add(r0 + r1, r2);
    lemma_records_bytes_add(r0 + r1 + r2, r3);
    lemma_records_bytes_add(r0 + r1 + r2 + r3, r4);
    lemma_records_bytes_add(r0 + r1 + r2 + r3 + r4, r5);
    lemma_records_bytes_add(r0 + r1 + r2 + r3 + r4 + r5, r6);
    lemma_records_bytes_add(r0 + r1 + r2 + r3 + r4 + r5 + r6, i.other);
}

/// The bytes of a transaction that may be missing.
fn opt_tx_bytes(t: &Option<Transaction>) -> (r: Option<Vec<u8>>)
    ensures
        match r {
            Some(v) => Some(v@),
            None => None,
        } == opt_wire(crate::psbt::opt_tx_view(*t)),
        *t is Some ==> tx_fits(t->0@),
{
    match t {
        Some(x) => {
            proof {
                lemma_transaction_fits(*x);
            }
            Some(x.serialize())
        },
        None => None,
    }
}

/// The bytes of an output that may be missing.
fn opt_txout_bytes(o: &Option<TxOut>) -> (r: Option<Vec<u8>>)
    ensures
        match r {
            Some(v) => Some(v@),
            None => None,
        } == opt_txout(crate::psbt::opt_out_view(*o)),
{
    match o {
        Some(x) => {
            let mut b: Vec<u8> = Vec::new();
            push_txout(&mut b, x);
            assert(b@ =~= txout_bytes(x@));
            Some(b)
        },
        None => None,
    }
}

/// The four bytes of a number that may be missing.
fn opt_le4_bytes(n: Option<u32>) -> (r: Option<Vec<u8>>)
    ensures
        match r {
            Some(v) => Some(v@),
            None => None,
        } == opt_le4(n),
{
    match n {
        Some(x) => {
            let mut b: Vec<u8> = Vec::new();
            push_le(&mut b, x as u64, 4);
            assert(b@ =~= le_bytes(x as int, 4));
            Some(b)
        },
        None => None,
    }
}

/// The bytes of a script that may be missing.
fn opt_script_bytes(s: &Option<Script>) -> (r: Option<Vec<u8>>)
    ensures
        match r {
            Some(v) => Some(v@),
            None => None,
        } == crate::psbt::opt_script_view(*s),
{
    match s {
        Some(x) => Some(crate::types::copy_bytes(&x.bytes)),
        None => None,
    }
}

/// Appends the records of the kinds 0 and 1 about an input.
fn push_input_utxos(out: &mut Vec<u8>, input: &PsbtInput)
    ensures
        final(out)@ == old(out)@ + (records_bytes(single(0, opt_wire(input@.non_witness_utxo)))
            + records_bytes(single(1, opt_txout(input@.witness_utxo)))),
        all_fit(single(0, opt_wire(input@.non_witness_utxo))),
        all_fit(single(1, opt_txout(input@.witness_utxo))),
        input@.non_witness_utxo is Some ==> tx_fits(input@.non_witness_utxo->0),
        input@.witness_utxo is Some ==> input@.witness_utxo->0.script.len()
            < 0x1_0000_0000_0000_0000,
{
    proof {
        if input.witness_utxo is Some {
            assert(input.witness_utxo->0.script_pubkey.bytes.len() <= usize::MAX);
        }
    }
    let whole = opt_tx_bytes(&input.non_witness_utxo);
    push_single(out, 0, &whole);
    let ghost mid = out@;
    let spent = opt_txout_bytes(&input.witness_utxo);
    push_single(out, 1, &spent);
    assert(out@ =~= old(out)@ + (records_bytes(single(0, opt_wire(input@.non_witness_utxo)))
        + records_bytes(single(1, opt_txout(input@.witness_utxo)))));
}

/// Appends the records of the kinds 2 and 3 about an input.
fn push_input_sigs(out: &mut Vec<u8>, input: &PsbtInput)
    ensures
        final(out)@ == old(out)@ + (records_bytes(keyed(2, input@.partial_sigs)) + records_bytes(
            single(3, opt_le4(input@.sighash_type)),
        )),
        all_fit(keyed(2, input@.partial_sigs)),
        all_fit(single(3, opt_le4(input@.sighash_type))),
{
    push_keyed(out, 2, &input.partial_sigs);
    let sighash = opt_le4_bytes(input.sighash_type);
    push_single(out, 3, &sighash);
    assert(out@ =~= old(out)@ + (records_bytes(keyed(2, input@.partial_sigs)) + records_bytes(
        single(3, opt_le4(input@.sighash_type)),
    )));
}

/// Appends the records of the kinds 4 and 5 about an input.
fn push_input_scripts(out: &mut Vec<u8>, input: &PsbtInput)
    ensures
        final(out)@ == old(out)@ + (records_bytes(single(4, input@.redeem_script))
            + records_bytes(single(5, input@.witness_script))),
        all_fit(single(4, input@.redeem_script)),
        all_fit(single(5, input@.witness_script)),
{
    let redeem = opt_script_bytes(&input.redeem_script);
    push_single(out, 4, &redeem);
    let witness = opt_script_bytes(&input.witness_script);
    push_single(out, 5, &witness);
    assert(out@ =~= old(out)@ + (records_bytes(single(4, input@.redeem_script)) + records_bytes(
        single(5, input@.witness_script),
    )));
}

/// Appends the records of the kinds 6 and up about an input.
fn push_input_rest(out: &mut Vec<u8>, input: &PsbtInput)
    ensures
        final(out)@ == old(out)@ + (records_bytes(keyed(6, input@.bip32_derivation))
            + records_bytes(input@.other)),
        all_fit(keyed(6, input@.bip32_derivation)),
        records_fit(input@.other, 7) ==> all_fit(input@.other),
{
    push_keyed(out, 6, &input.bip32_derivation);
    push_raw(out, &input.other);
    assert(out@ =~= old(out)@ + (records_bytes(keyed(6, input@.bip32_derivation))
        + records_bytes(input@.other)));
}

/// Appends the list of records about one input.
#[verifier::spinoff_prover]
#[verifier::rlimit(60)]
pub fn push_input_map(out: &mut Vec<u8>, input: &PsbtInput)
    ensures
        final(out)@ == old(out)@ + map_bytes(input_records(input@)),
        distinct_keys(input@.partial_sigs) && distinct_keys(input@.bip32_derivation)
            && records_fit(input@.other, 7) ==> input_encodable(input@),
{
    let ghost i = input@;
    let ghost a = records_bytes(single(0, opt_wire(i.non_witness_utxo))) + records_bytes(
        single(1, opt_txout(i.witness_utxo)),
    );
    let ghost b = records_bytes(keyed(2, i.partial_sigs)) + records_bytes(
        single(3, opt_le4(i.sighash_type)),
    );
    let ghost c = records_bytes(single(4, i.redeem_script)) + records_bytes(
        single(5, i.witness_script),
    );
    let ghost d = records_bytes(keyed(6, i.bip32_derivation)) + records_bytes(i.other);
    push_input_utxos(out, input);
    push_input_sigs(out, input);
    push_input_scripts(out, input);
    push_input_rest(out, input);
    out.push(0);
    proof {
        lemma_input_parts_bytes(i);
        assert(input_parts_bytes(i) =~= a + b + c + d);
        assert(out@ =~= old(out)@ + (a + b + c + d) + seq![0u8]);
        if records_fit(i.other, 7) {
            lemma_all_fit_input(i);
        }
    }
}

/// Records that fit list by list fit together.
#[verifier::spinoff_prover]
#[verifier::rlimit(80)]
pub proof fn lemma_all_fit_add(a: Seq<EntryView>, b: Seq<EntryView>)
    requires
        all_fit(a),
        all_fit(b),
    ensures
        all_fit(a + b),
{
    assert forall|k: int| 0 <= k < (a + b).len() implies record_fits(#[trigger] (a + b)[k]) by {
        if k < a.len() {
            assert((a + b)[k] == a[k]);
        } else {
            assert((a + b)[k] == b[k - a.len()]);
        }
    }
}

/// The records about an input fit where those of each kind do.
#[verifier::spinoff_prover]
#[verifier::rlimit(80)]
pub proof fn lemma_all_fit_input(i: PsbtInputView)
    requires
        all_fit(single(0, opt_wire(i.non_witness_utxo))),
        all_fit(single(1, opt_txout(i.witness_utxo))),
        all_fit(keyed(2, i.partial_sigs)),
        all_fit(single(3, opt_le4(i.sighash_type))),
        all_fit(single(4, i.redeem_script)),
        all_fit(single(5, i.witness_script)),
        all_fit(keyed(6, i.bip32_derivation)),
        all_fit(i.other),
    ensures
        all_fit(input_records(i)),
{
    let r0 = single(0, opt_wire(i.non_witness_utxo));
    let r1 = single(1, opt_txout(i.witness_utxo));
    let r2 = keyed(2, i.partial_sigs);
    let r3 = single(3, opt_le4(i.sighash_type));
    let r4 = single(4, i.redeem_script);
    let r5 = single(5, i.witness_script);
    let r6 = keyed(6, i.bip32_derivation);
    lemma_all_fit_add(r0, r1);
    lemma_all_fit_add(r0 + r1, r2);
    lemma_all_fit_add(r0 + r1 + r2, r3);
    lemma_all_fit_add(r0 + r1 + r2 + r3, r4);
    lemma_all_fit_add(r0 + r1 + r2 + r3 + r4, r5);
    lemma_all_fit_add(r0 + r1 + r2 + r3 + r4 + r5, r6);
    lemma_all_fit_add(r0 + r1 + r2 + r3 + r4 + r5 + r6, i.other);
}

impl Psbt {
    /// The encoding of the partially signed transaction. It is read back
    /// as this transaction.
    pub fn serialize(&self) -> (r: Vec<u8>)
        ensures
            r@ == psbt_bytes(self@),
            encodable(self@),
            from_bytes_spec(r@) == Ok::<PsbtView, WalletError>(self@),
    {
        let ghost p = self@;
        let unsigned: &Transaction = self.unsigned_tx();
        proof {
            lemma_transaction_fits(*unsigned);
        }
        let mut out: Vec<u8> = Vec::new();
        out.push(0x70);
        out.push(0x73);
        out.push(0x62);
        out.push(0x74);
        out.push(0xff);
        assert(out@ =~= magic());
        let tx: Option<Vec<u8>> = Some(self.unsigned_tx().base_encoding());
        push_single(&mut out, 0, &tx);
        push_raw(&mut out, self.globals());
        out.push(0);
        proof {
            lemma_records_bytes_add(single(0, Some(base_bytes(p.unsigned_tx))), p.globals);
            assert(out@ =~= magic() + map_bytes(global_records(p)));
            assert(all_fit(p.globals));
            lemma_all_fit_add(single(0, Some(base_bytes(p.unsigned_tx))), p.globals);
        }
        let ghost head = out@;
        let inputs = self.inputs();
        let mut i: usize = 0;
        assert(out@ =~= head + input_maps_bytes(p.inputs.take(0)));
        while i < inputs.len()
            invariant
                i <= inputs.len(),
                psbt_ins_view(inputs@) == p.inputs,
                out@ == head + input_maps_bytes(p.inputs.take(i as int)),
                well_formed(p),
                forall|k: int| 0 <= k < i ==> input_encodable(#[trigger] p.inputs[k]),
            decreases inputs.len() - i,
        {
            proof {
                assert(p.inputs.take(i + 1).drop_last() =~= p.inputs.take(i as int));
                assert(p.inputs.take(i + 1).last() == inputs@[i as int]@);
                assert(p.inputs[i as int] == inputs@[i as int]@);
                assert(input_fits(
                    p.inputs[i as int],
                    p.unsigned_tx.input[i as int].previous_output.vout,
                ));
            }
            push_input_map(&mut out, &inputs[i]);
            assert(out@ =~= head + input_maps_bytes(p.inputs.take(i + 1)));
            i += 1;
        }
        assert(p.inputs.take(inputs.len() as int) =~= p.inputs);
        let ghost mid = out@;
        let outputs = self.outputs();
        let mut j: usize = 0;
        assert(out@ =~= mid + maps_bytes(p.outputs.take(0)));
        while j < outputs.len()
            invariant
                j <= outputs.len(),
                maps_view(outputs@) == p.outputs,
                out@ == mid + maps_bytes(p.outputs.take(j as int)),
                well_formed(p),
                forall|k: int| 0 <= k < j ==> all_fit(#[trigger] p.outputs[k]),
            decreases outputs.len() - j,
        {
            proof {
                assert(p.outputs.take(j + 1).drop_last() =~= p.outputs.take(j as int));
                assert(p.outputs.take(j + 1).last() == entries_view(outputs@[j as int]@));
                assert(p.outputs[j as int] == entries_view(outputs@[j as int]@));
                assert(records_fit(p.outputs[j as int], 0));
            }
            push_raw(&mut out, &outputs[j]);
            out.push(0);
            assert(out@ =~= mid + maps_bytes(p.outputs.take(j + 1)));
            j += 1;
        }
        assert(p.outputs.take(outputs.len() as int) =~= p.outputs);
        assert(out@ =~= psbt_bytes(p));
        proof {
            lemma_parse_encode(p);
        }
        out
    }
}

/// One record: a key of at least one byte and a value, each behind its
/// length.
pub open spec fn cut_record(s: Seq<u8>) -> Option<Cut<EntryView>> {
    match cut_var_bytes(s) {
        Some(k) => if k.value.len() > 0 {
            match cut_var_bytes(k.rest) {
                Some(v) => Some(
                    Cut { value: EntryView { key: k.value, value: v.value }, rest: v.rest },
                ),
                None => None,
            }
        } else {
            None
        },
        None => None,
    }
}

/// Records up to the zero byte that closes their list.
pub open spec fn cut_map(s: Seq<u8>) -> Option<Cut<Seq<EntryView>>>
    decreases s.len(),
{
    if s.len() == 0 {
        None
    } else if s[0] == 0 {
        Some(Cut { value: Seq::empty(), rest: s.skip(1) })
    } else {
        match cut_record(s) {
            Some(r) => if r.rest.len() < s.len() {
                match cut_map(r.rest) {
                    Some(more) => Some(
                        Cut { value: seq![r.value] + more.value, rest: more.rest },
                    ),
                    None => None,
                }
            } else {
                None
            },
            None => None,
        }
    }
}

/// What was read, if nothing is left behind it.
pub open spec fn whole<T>(c: Option<Cut<T>>) -> Option<T> {
    match c {
        Some(x) => if x.rest.len() == 0 {
            Some(x.value)
        } else {
            None
        },
        None => None,
    }
}

/// The data about an input with one more record taken in. A record of a
/// kind that is singled out must be the only one of its kind, stand under
/// the bare kind, and hold what the kind asks for; any other record must
/// stand under a key of its own.
pub open spec fn input_with(i: PsbtInputView, e: EntryView) -> Option<PsbtInputView> {
    let kind = e.key[0];
    let bare = e.key.len() == 1;
    let data = e.key.skip(1);
    if kind == 0 {
        if bare && i.non_witness_utxo is None && decode_spec(e.value) is Some {
            Some(PsbtInputView { non_witness_utxo: decode_spec(e.value), ..i })
        } else {
            None
        }
    } else if kind == 1 {
        if bare && i.witness_utxo is None && whole(cut_txout(e.value)) is Some {
            Some(PsbtInputView { witness_utxo: whole(cut_txout(e.value)), ..i })
        } else {
            None
        }
    } else if kind == 2 {
        if !has_key(i.partial_sigs, data) {
            Some(
                PsbtInputView {
                    partial_sigs: i.partial_sigs.push(EntryView { key: data, value: e.value }),
                    ..i
                },
            )
        } else {
            None
        }
    } else if kind == 3 {
        if bare && i.sighash_type is None && e.value.len() == 4 {
            Some(PsbtInputView { sighash_type: Some(le_value(e.value) as u32), ..i })
        } else {
            None
        }
    } else if kind == 4 {
        if bare && i.redeem_script is None {
            Some(PsbtInputView { redeem_script: Some(e.value), ..i })
        } else {
            None
        }
    } else if kind == 5 {
        if bare && i.witness_script is None {
            Some(PsbtInputView { witness_script: Some(e.value), ..i })
        } else {
            None
        }
    } else if kind == 6 {
        if !has_key(i.bip32_derivation, data) {
            Some(
                PsbtInputView {
                    bip32_derivation: i.bip32_derivation.push(
                        EntryView { key: data, value: e.value },
                    ),
                    ..i
                },
            )
        } else {
            None
        }
    } else {
        if !has_key(i.other, e.key) {
            Some(PsbtInputView { other: i.other.push(e), ..i })
        } else {
            None
        }
    }
}

/// The data about an input that `from` becomes with the records `es` taken
/// in, in their order.
pub open spec fn input_after(from: PsbtInputView, es: Seq<EntryView>) -> Option<PsbtInputView>
    decreases es.len(),
{
    if es.len() == 0 {
        Some(from)
    } else {
        match input_after(from, es.drop_last()) {
            Some(i) => input_with(i, es.last()),
            None => None,
        }
    }
}

/// The data about an input that the records `es` amount to.
pub open spec fn input_of(es: Seq<EntryView>) -> Option<PsbtInputView> {
    input_after(blank_input(), es)
}

/// Once records do not amount to an input, no further records mend it.
#[verifier::spinoff_prover]
#[verifier::rlimit(80)]
pub proof fn lemma_input_after_fails(from: PsbtInputView, a: Seq<EntryView>, b: Seq<EntryView>)
    requires
        input_after(from, a) is None,
    ensures
        input_after(from, a + b) is None,
    decreases b.len(),
{
    if b.len() == 0 {
        assert(a + b =~= a);
    } else {
        lemma_input_after_fails(from, a, b.drop_last());
        assert((a + b).drop_last() =~= a + b.drop_last());
    }
}

/// A record takes at least two bytes.
#[verifier::spinoff_prover]
#[verifier::rlimit(80)]
pub proof fn lemma_cut_record_shrinks(s: Seq<u8>)
    ensures
        cut_record(s) is Some ==> cut_record(s)->0.rest.len() + 2 <= s.len()
            && cut_record(s)->0.value.key.len() > 0,
{
    if cut_record(s) is Some {
        crate::tx_codec::lemma_cut_var_bytes(s);
        let k = cut_var_bytes(s)->0;
        crate::tx_codec::lemma_cut_var_bytes(k.rest);
        let v = cut_var_bytes(k.rest)->0;
        assert(s.len() == (compact_size(k.value.len() as int) + k.value + k.rest).len());
        assert(k.rest.len() == (compact_size(v.value.len() as int) + v.value + v.rest).len());
    }
}

/// Reads one record at `pos`.
pub(crate) fn read_record(bytes: &Vec<u8>, pos: usize) -> (r: Option<Got<Entry>>)
    requires
        pos <= bytes.len(),
    ensures
        match cut_record(bytes@.skip(pos as int)) {
            Some(c) => r is Some && r->0.value@ == c.value && r->0.next <= bytes.len()
                && bytes@.skip(r->0.next as int) == c.rest && pos < r->0.next,
            None => r is None,
        },
{
    let key = match read_var_bytes(bytes, pos) {
        Some(g) => g,
        None => {
            return None;
        },
    };
    if key.value.len() == 0 {
        return None;
    }
    let value = match read_var_bytes(bytes, key.next) {
        Some(g) => g,
        None => {
            return None;
        },
    };
    Some(Got { value: Entry { key: key.value, value: value.value }, next: value.next })
}

/// Takes one more record into the data about an input.
#[verifier::spinoff_prover]
#[verifier::rlimit(60)]
pub(crate) fn take_record(input: PsbtInput, e: Entry) -> (r: Option<PsbtInput>)
    requires
        e.key.len() > 0,
    ensures
        match input_with(input@, e@) {
            Some(i) => r is Some && r->0@ == i,
            None => r is None,
        },
{
    let mut input = input;
    let kind: u8 = e.key[0];
    let bare: bool = e.key.len() == 1;
    if kind == 0 {
        if !bare || input.non_witness_utxo.is_some() {
            return None;
        }
        match Transaction::decode(&e.value) {
            Ok(t) => {
                input.non_witness_utxo = Some(t);
                Some(input)
            },
            Err(_) => None,
        }
    } else if kind == 1 {
        if !bare || input.witness_utxo.is_some() {
            return None;
        }
        assert(e.value@.skip(0) =~= e.value@);
        match read_txout(&e.value, 0) {
            Some(g) => {
                if g.next != e.value.len() {
                    return None;
                }
                input.witness_utxo = Some(g.value);
                Some(input)
            },
            None => None,
        }
    } else if kind == 2 {
        let data: Vec<u8> = slice_bytes(&e.key, 1, e.key.len());
        assert(data@ =~= e.key@.skip(1));
        if find_key(&input.partial_sigs, &data).is_some() {
            return None;
        }
        let ghost before = input.partial_sigs@;
        input.partial_sigs.push(Entry { key: data, value: e.value });
        assert(entries_view(input.partial_sigs@) =~= entries_view(before).push(
            EntryView { key: data@, value: e.value@ },
        ));
        Some(input)
    } else if kind == 3 {
        if !bare || input.sighash_type.is_some() || e.value.len() != 4 {
            return None;
        }
        assert(e.value@.skip(0) =~= e.value@);
        assert(e.value@.take(4) =~= e.value@);
        match read_u32(&e.value, 0) {
            Some(g) => {
                input.sighash_type = Some(g.value as u32);
                Some(input)
            },
            None => None,
        }
    } else if kind == 4 {
        if !bare || input.redeem_script.is_some() {
            return None;
        }
        input.redeem_script = Some(Script { bytes: e.value });
        Some(input)
    } else if kind == 5 {
        if !bare || input.witness_script.is_some() {
            return None;
        }
        input.witness_script = Some(Script { bytes: e.value });
        Some(input)
    } else if kind == 6 {
        let data: Vec<u8> = slice_bytes(&e.key, 1, e.key.len());
        assert(data@ =~= e.key@.skip(1));
        if find_key(&input.bip32_derivation, &data).is_some() {
            return None;
        }
        let ghost before = input.bip32_derivation@;
        input.bip32_derivation.push(Entry { key: data, value: e.value });
        assert(entries_view(input.bip32_derivation@) =~= entries_view(before).push(
            EntryView { key: data@, value: e.value@ },
        ));
        Some(input)
    } else {
        if find_key(&input.other, &e.key).is_some() {
            return None;
        }
        let ghost before = input.other@;
        let ghost ev = e@;
        input.other.push(e);
        assert(entries_view(input.other@) =~= entries_view(before).push(ev));
        Some(input)
    }
}

/// Reads the records about one input at `pos`.
#[verifier::spinoff_prover]
#[verifier::rlimit(60)]
pub(crate) fn read_input_map(bytes: &Vec<u8>, pos: usize) -> (r: Option<Got<PsbtInput>>)
    requires
        pos <= bytes.len(),
    ensures
        match cut_map(bytes@.skip(pos as int)) {
            Some(m) => match input_of(m.value) {
                Some(i) => r is Some && r->0.value@ == i && r->0.next <= bytes.len()
                    && bytes@.skip(r->0.next as int) == m.rest && pos < r->0.next,
                None => r is None,
            },
            None => r is None,
        },
{
    let ghost start = bytes@.skip(pos as int);
    let ghost mut done: Seq<EntryView> = Seq::empty();
    let mut cur: PsbtInput = PsbtInput::blank();
    let mut at: usize = pos;
    proof {
        match cut_map(start) {
            Some(more) => {
                assert(done + more.value =~= more.value);
            },
            None => {},
        }
    }
    loop
        invariant
            pos <= at <= bytes.len(),
            start == bytes@.skip(pos as int),
            cut_map(start) == match cut_map(bytes@.skip(at as int)) {
                Some(more) => Some(Cut { value: done + more.value, rest: more.rest }),
                None => None,
            },
            input_of(done) == Some(cur@),
        decreases bytes.len() - at,
    {
        let ghost here = bytes@.skip(at as int);
        if at >= bytes.len() {
            return None;
        }
        assert(here[0] == bytes@[at as int]);
        if bytes[at] == 0 {
            proof {
                assert(here.skip(1) =~= bytes@.skip(at + 1));
                assert(done + Seq::<EntryView>::empty() =~= done);
            }
            return Some(Got { value: cur, next: at + 1 });
        }
        proof {
            lemma_cut_record_shrinks(here);
        }
        let one = match read_record(bytes, at) {
            Some(g) => g,
            None => {
                return None;
            },
        };
        proof {
            let e = one.value@;
            assert(done.push(e).drop_last() =~= done);
            match cut_map(bytes@.skip(one.next as int)) {
                Some(more) => {
                    assert(done + (seq![e] + more.value) =~= done.push(e) + more.value);
                    if input_with(cur@, e) is None {
                        lemma_input_after_fails(blank_input(), done.push(e), more.value);
                    }
                },
                None => {},
            }
        }
        let ghost e = one.value@;
        cur = match take_record(cur, one.value) {
            Some(i) => i,
            None => {
                return None;
            },
        };
        proof {
            done = done.push(e);
        }
        at = one.next;
    }
}

/// Reads a list of records at `pos`, as they stand.
#[verifier::spinoff_prover]
#[verifier::rlimit(60)]
pub(crate) fn read_map(bytes: &Vec<u8>, pos: usize) -> (r: Option<Got<Vec<Entry>>>)
    requires
        pos <= bytes.len(),
    ensures
        match cut_map(bytes@.skip(pos as int)) {
            Some(m) => r is Some && entries_view(r->0.value@) == m.value && r->0.next
                <= bytes.len() && bytes@.skip(r->0.next as int) == m.rest && pos < r->0.next,
            None => r is None,
        },
{
    let ghost start = bytes@.skip(pos as int);
    let mut out: Vec<Entry> = Vec::new();
    let mut at: usize = pos;
    assert(entries_view(out@) =~= Seq::<EntryView>::empty());
    proof {
        match cut_map(start) {
            Some(more) => {
                assert(entries_view(out@) + more.value =~= more.value);
            },
            None => {},
        }
    }
    loop
        invariant
            pos <= at <= bytes.len(),
            start == bytes@.skip(pos as int),
            cut_map(start) == match cut_map(bytes@.skip(at as int)) {
                Some(more) => Some(Cut { value: entries_view(out@) + more.value, rest: more.rest }),
                None => None,
            },
        decreases bytes.len() - at,
    {
        let ghost here = bytes@.skip(at as int);
        if at >= bytes.len() {
            return None;
        }
        assert(here[0] == bytes@[at as int]);
        if bytes[at] == 0 {
            proof {
                assert(here.skip(1) =~= bytes@.skip(at + 1));
                assert(entries_view(out@) + Seq::<EntryView>::empty() =~= entries_view(out@));
            }
            return Some(Got { value: out, next: at + 1 });
        }
        proof {
            lemma_cut_record_shrinks(here);
        }
        let one = match read_record(bytes, at) {
            Some(g) => g,
            None => {
                return None;
            },
        };
        proof {
            let e = one.value@;
            let before = entries_view(out@);
            match cut_map(bytes@.skip(one.next as int)) {
                Some(more) => {
                    assert(before + (seq![e] + more.value) =~= before.push(e) + more.value);
                },
                None => {},
            }
        }
        let ghost before = out@;
        out.push(one.value);
        assert(entries_view(out@) =~= entries_view(before).push(one.value@));
        at = one.next;
    }
}

/// The transaction that the bytes `s` encode in the form without
/// witnesses: version, inputs, outputs and lock time, and nothing more.
pub open spec fn decode_base(s: Seq<u8>) -> Option<TransactionView> {
    match cut_le(s, 4) {
        Some(v) => match cut_input_list(v.rest) {
            Some(ins) => match cut_output_list(ins.rest) {
                Some(outs) => match cut_le(outs.rest, 4) {
                    Some(lock) => if lock.rest.len() == 0 {
                        Some(
                            TransactionView {
                                version: version_of(v.value),
                                lock_time: lock.value as u32,
                                input: ins.value,
                                output: outs.value,
                            },
                        )
                    } else {
                        None
                    },
                    None => None,
                },
                None => None,
            },
            None => None,
        },
        None => None,
    }
}

/// Reads a transaction in the form without witnesses.
pub fn read_base(bytes: &Vec<u8>) -> (r: Option<Transaction>)
    ensures
        match decode_base(bytes@) {
            Some(t) => r is Some && r->0@ == t,
            None => r is None,
        },
{
    assert(bytes@.skip(0) =~= bytes@);
    let v = match read_u32(bytes, 0) {
        Some(g) => g,
        None => {
            return None;
        },
    };
    let ins = match read_input_list(bytes, v.next) {
        Some(g) => g,
        None => {
            return None;
        },
    };
    let outs = match read_output_list(bytes, ins.next) {
        Some(g) => g,
        None => {
            return None;
        },
    };
    let lock = match read_u32(bytes, outs.next) {
        Some(g) => g,
        None => {
            return None;
        },
    };
    if lock.next != bytes.len() {
        return None;
    }
    Some(
        Transaction {
            version: version_from(v.value),
            lock_time: lock.value as u32,
            input: ins.value,
            output: outs.value,
        },
    )
}

/// What the records about the whole amount to, in contracts.
pub struct GlobalsView {
    pub tx: Option<TransactionView>,
    pub other: Seq<EntryView>,
}

/// The records about the whole with one more taken in. The unsigned
/// transaction stands under the bare kind 0, once; any other record under a
/// key of its own.
pub open spec fn globals_with(g: GlobalsView, e: EntryView) -> Option<GlobalsView> {
    if e.key[0] == 0 {
        if e.key.len() == 1 && g.tx is None && decode_base(e.value) is Some {
            Some(GlobalsView { tx: decode_base(e.value), ..g })
        } else {
            None
        }
    } else {
        if !has_key(g.other, e.key) {
            Some(GlobalsView { other: g.other.push(e), ..g })
        } else {
            None
        }
    }
}

/// What the records `es` about the whole amount to, taken in after `from`.
pub open spec fn globals_after(from: GlobalsView, es: Seq<EntryView>) -> Option<GlobalsView>
    decreases es.len(),
{
    if es.len() == 0 {
        Some(from)
    } else {
        match globals_after(from, es.drop_last()) {
            Some(g) => globals_with(g, es.last()),
            None => None,
        }
    }
}

/// What the records `es` about the whole amount to.
pub open spec fn globals_of(es: Seq<EntryView>) -> Option<GlobalsView> {
    globals_after(GlobalsView { tx: None, other: Seq::empty() }, es)
}

/// The data about `n` inputs, each from its list of records.
pub open spec fn cut_input_maps(s: Seq<u8>, n: nat) -> Option<Cut<Seq<PsbtInputView>>>
    decreases n,
{
    if n == 0 {
        Some(Cut { value: Seq::empty(), rest: s })
    } else {
        match cut_map(s) {
            Some(m) => match input_of(m.value) {
                Some(first) => match cut_input_maps(m.rest, (n - 1) as nat) {
                    Some(more) => Some(Cut { value: seq![first] + more.value, rest: more.rest }),
                    None => None,
                },
                None => None,
            },
            None => None,
        }
    }
}

/// `n` lists of records, as they stand.
pub open spec fn cut_raw_maps(s: Seq<u8>, n: nat) -> Option<Cut<Seq<Seq<EntryView>>>>
    decreases n,
{
    if n == 0 {
        Some(Cut { value: Seq::empty(), rest: s })
    } else {
        match cut_map(s) {
            Some(first) => match cut_raw_maps(first.rest, (n - 1) as nat) {
                Some(more) => Some(Cut { value: seq![first.value] + more.value, rest: more.rest }),
                None => None,
            },
            None => None,
        }
    }
}

/// What follows the records about the whole: the records about each input
/// and each output of `tx`, and nothing more.
pub open spec fn parse_maps(tx: TransactionView, globals: Seq<EntryView>, s: Seq<u8>) -> Option<
    PsbtView,
> {
    match cut_input_maps(s, tx.input.len()) {
        Some(ins) => match cut_raw_maps(ins.rest, tx.output.len()) {
            Some(outs) => if outs.rest.len() == 0 {
                Some(
                    PsbtView { unsigned_tx: tx, inputs: ins.value, globals, outputs: outs.value },
                )
            } else {
                None
            },
            None => None,
        },
        None => None,
    }
}

/// The partially signed transaction that the bytes `s` encode, if they
/// encode one: the magic bytes, the records about the whole with the
/// unsigned transaction among them, then the records about each input and
/// each output.
pub open spec fn parse_spec(s: Seq<u8>) -> Option<PsbtView> {
    if s.len() >= 5 && s.take(5) == magic() {
        match cut_map(s.skip(5)) {
            Some(g) => match globals_of(g.value) {
                Some(gv) => if gv.tx is Some {
                    parse_maps(gv.tx->0, gv.other, g.rest)
                } else {
                    None
                },
                None => None,
            },
            None => None,
        }
    } else {
        None
    }
}

/// What the records about the whole amount to.
pub struct Globals {
    pub tx: Option<Transaction>,
    pub other: Vec<Entry>,
}

impl View for Globals {
    type V = GlobalsView;

    open spec fn view(&self) -> GlobalsView {
        GlobalsView { tx: crate::psbt::opt_tx_view(self.tx), other: entries_view(self.other@) }
    }
}

/// Takes in the records about the whole.
#[verifier::spinoff_prover]
#[verifier::rlimit(60)]
pub(crate) fn read_globals(records: &Vec<Entry>) -> (r: Option<Globals>)
    requires
        forall|k: int| 0 <= k < records.len() ==> (#[trigger] records@[k]).key.len() > 0,
    ensures
        match globals_of(entries_view(records@)) {
            Some(g) => r is Some && r->0@ == g,
            None => r is None,
        },
{
    let ghost all = entries_view(records@);
    let mut cur = Globals { tx: None, other: Vec::new() };
    assert(cur@.other =~= Seq::<EntryView>::empty());
    let mut i: usize = 0;
    while i < records.len()
        invariant
            i <= records.len(),
            all == entries_view(records@),
            forall|k: int| 0 <= k < records.len() ==> (#[trigger] records@[k]).key.len() > 0,
            globals_of(all.take(i as int)) == Some(cur@),
        decreases records.len() - i,
    {
        let e = &records[i];
        proof {
            assert(all.take(i + 1).drop_last() =~= all.take(i as int));
            assert(all.take(i + 1).last() == e@);
            if globals_with(cur@, e@) is None {
                lemma_globals_after_fails(
                    GlobalsView { tx: None, other: Seq::empty() },
                    all.take(i + 1),
                    all.skip(i + 1),
                );
                assert(all.take(i + 1) + all.skip(i + 1) =~= all);
            }
        }
        if e.key[0] == 0 {
            if e.key.len() != 1 || cur.tx.is_some() {
                return None;
            }
            match read_base(&e.value) {
                Some(t) => {
                    cur.tx = Some(t);
                },
                None => {
                    return None;
                },
            }
        } else {
            if find_key(&cur.other, &e.key).is_some() {
                return None;
            }
            let ghost before = cur.other@;
            cur.other.push(e.copy());
            assert(entries_view(cur.other@) =~= entries_view(before).push(e@));
        }
        i += 1;
    }
    assert(all.take(records.len() as int) =~= all);
    Some(cur)
}

/// Once records do not amount to anything, no further records mend it.
#[verifier::spinoff_prover]
#[verifier::rlimit(80)]
pub proof fn lemma_globals_after_fails(from: GlobalsView, a: Seq<EntryView>, b: Seq<EntryView>)
    requires
        globals_after(from, a) is None,
    ensures
        globals_after(from, a + b) is None,
    decreases b.len(),
{
    if b.len() == 0 {
        assert(a + b =~= a);
    } else {
        lemma_globals_after_fails(from, a, b.drop_last());
        assert((a + b).drop_last() =~= a + b.drop_last());
    }
}

/// The records that were read have keys of at least one byte.
#[verifier::spinoff_prover]
#[verifier::rlimit(80)]
pub proof fn lemma_cut_map_keys(s: Seq<u8>)
    ensures
        cut_map(s) is Some ==> forall|k: int|
            0 <= k < cut_map(s)->0.value.len() ==> (#[trigger] cut_map(s)->0.value[k]).key.len()
                > 0,
    decreases s.len(),
{
    if cut_map(s) is Some && s[0] != 0 {
        let r = cut_record(s)->0;
        let more = cut_map(r.rest)->0;
        lemma_cut_map_keys(r.rest);
        let all = seq![r.value] + more.value;
        assert forall|k: int| 0 <= k < all.len() implies (#[trigger] all[k]).key.len() > 0 by {
            if k > 0 {
                assert(all[k] == more.value[k - 1]);
            }
        }
    }
}

/// Reads the data about `n` inputs at `pos`.
#[verifier::spinoff_prover]
#[verifier::rlimit(60)]
fn read_input_maps(bytes: &Vec<u8>, pos: usize, n: usize) -> (r: Option<Got<Vec<PsbtInput>>>)
    requires
        pos <= bytes.len(),
    ensures
        match cut_input_maps(bytes@.skip(pos as int), n as nat) {
            Some(c) => r is Some && psbt_ins_view(r->0.value@) == c.value && r->0.next
                <= bytes.len() && bytes@.skip(r->0.next as int) == c.rest,
            None => r is None,
        },
{
    let ghost start = bytes@.skip(pos as int);
    let mut out: Vec<PsbtInput> = Vec::new();
    let mut at: usize = pos;
    let mut i: usize = 0;
    assert(psbt_ins_view(out@) =~= Seq::<PsbtInputView>::empty());
    proof {
        match cut_input_maps(start, n as nat) {
            Some(more) => {
                assert(psbt_ins_view(out@) + more.value =~= more.value);
            },
            None => {},
        }
    }
    while i < n
        invariant
            i <= n,
            pos <= at <= bytes.len(),
            start == bytes@.skip(pos as int),
            cut_input_maps(start, n as nat) == match cut_input_maps(
                bytes@.skip(at as int),
                (n - i) as nat,
            ) {
                Some(more) => Some(
                    Cut { value: psbt_ins_view(out@) + more.value, rest: more.rest },
                ),
                None => None,
            },
        decreases n - i,
    {
        proof {
            reveal_with_fuel(cut_input_maps, 2);
        }
        let one = match read_input_map(bytes, at) {
            Some(g) => g,
            None => {
                proof {
                    reveal_with_fuel(cut_input_maps, 2);
                    assert(cut_input_maps(bytes@.skip(at as int), (n - i) as nat) is None);
                }
                return None;
            },
        };
        proof {
            reveal_with_fuel(cut_input_maps, 2);
            let before = psbt_ins_view(out@);
            match cut_input_maps(bytes@.skip(one.next as int), (n - i - 1) as nat) {
                Some(more) => {
                    assert(before + (seq![one.value@] + more.value) =~= before.push(one.value@)
                        + more.value);
                },
                None => {},
            }
        }
        let ghost before = out@;
        out.push(one.value);
        assert(psbt_ins_view(out@) =~= psbt_ins_view(before).push(one.value@));
        at = one.next;
        i += 1;
    }
    proof {
        assert(psbt_ins_view(out@) + Seq::<PsbtInputView>::empty() =~= psbt_ins_view(out@));
    }
    Some(Got { value: out, next: at })
}

/// Reads `n` lists of records at `pos`.
#[verifier::spinoff_prover]
#[verifier::rlimit(60)]
fn read_raw_maps(bytes: &Vec<u8>, pos: usize, n: usize) -> (r: Option<Got<Vec<Vec<Entry>>>>)
    requires
        pos <= bytes.len(),
    ensures
        match cut_raw_maps(bytes@.skip(pos as int), n as nat) {
            Some(c) => r is Some && maps_view(r->0.value@) == c.value && r->0.next <= bytes.len()
                && bytes@.skip(r->0.next as int) == c.rest,
            None => r is None,
        },
{
    let ghost start = bytes@.skip(pos as int);
    let mut out: Vec<Vec<Entry>> = Vec::new();
    let mut at: usize = pos;
    let mut i: usize = 0;
    assert(maps_view(out@) =~= Seq::<Seq<EntryView>>::empty());
    proof {
        match cut_raw_maps(start, n as nat) {
            Some(more) => {
                assert(maps_view(out@) + more.value =~= more.value);
            },
            None => {},
        }
    }
    while i < n
        invariant
            i <= n,
            pos <= at <= bytes.len(),
            start == bytes@.skip(pos as int),
            cut_raw_maps(start, n as nat) == match cut_raw_maps(
                bytes@.skip(at as int),
                (n - i) as nat,
            ) {
                Some(more) => Some(Cut { value: maps_view(out@) + more.value, rest: more.rest }),
                None => None,
            },
        decreases n - i,
    {
        let one = match read_map(bytes, at) {
            Some(g) => g,
            None => {
                proof {
                    reveal_with_fuel(cut_raw_maps, 2);
                    assert(cut_raw_maps(bytes@.skip(at as int), (n - i) as nat) is None);
                }
                return None;
            },
        };
        proof {
            reveal_with_fuel(cut_raw_maps, 2);
            let before = maps_view(out@);
            let m = entries_view(one.value@);
            match cut_raw_maps(bytes@.skip(one.next as int), (n - i - 1) as nat) {
                Some(more) => {
                    assert(before + (seq![m] + more.value) =~= before.push(m) + more.value);
                },
                None => {},
            }
        }
        let ghost before = out@;
        out.push(one.value);
        assert(maps_view(out@) =~= maps_view(before).push(entries_view(one.value@)));
        at = one.next;
        i += 1;
    }
    proof {
        assert(maps_view(out@) + Seq::<Seq<EntryView>>::empty() =~= maps_view(out@));
    }
    Some(Got { value: out, next: at })
}

/// What reading a partially signed transaction from the bytes `s` gives:
/// the one they encode, if they encode one whose parts fit each other.
pub open spec fn from_bytes_spec(s: Seq<u8>) -> Result<PsbtView, WalletError> {
    match parse_spec(s) {
        Some(p) => if well_formed(p) {
            Ok(p)
        } else {
            Err(WalletError::ValidationError(Invalid::PsbtStructure))
        },
        None => Err(WalletError::ValidationError(Invalid::PsbtStructure)),
    }
}

impl Psbt {
    /// The partially signed transaction that `bytes` encode.
    pub fn from_bytes(bytes: &Vec<u8>) -> (r: Result<Psbt, WalletError>)
        ensures
            match from_bytes_spec(bytes@) {
                Ok(p) => r is Ok && r->Ok_0@ == p,
                Err(e) => r == Err::<Psbt, WalletError>(e),
            },
    {
        let wrong = Err(WalletError::ValidationError(Invalid::PsbtStructure));
        if bytes.len() < 5 || bytes[0] != 0x70 || bytes[1] != 0x73 || bytes[2] != 0x62 || bytes[3]
            != 0x74 || bytes[4] != 0xff {
            proof {
                if bytes.len() >= 5 {
                    let m = bytes@.take(5);
                    assert(m[0] == bytes@[0] && m[1] == bytes@[1] && m[2] == bytes@[2] && m[3]
                        == bytes@[3] && m[4] == bytes@[4]);
                }
            }
            return wrong;
        }
        assert(bytes@.take(5) =~= magic());
        let raw = match read_map(bytes, 5) {
            Some(g) => g,
            None => {
                return wrong;
            },
        };
        proof {
            lemma_cut_map_keys(bytes@.skip(5));
            assert forall|k: int| 0 <= k < raw.value.len() implies (
            #[trigger] raw.value@[k]).key.len() > 0 by {
                assert(entries_view(raw.value@)[k] == raw.value@[k]@);
            }
        }
        let globals = match read_globals(&raw.value) {
            Some(g) => g,
            None => {
                return wrong;
            },
        };
        let tx: Transaction = match globals.tx {
            Some(t) => t,
            None => {
                return wrong;
            },
        };
        assert(tx@.input.len() == tx.input.len());
        assert(tx@.output.len() == tx.output.len());
        let ins = match read_input_maps(bytes, raw.next, tx.input.len()) {
            Some(g) => g,
            None => {
                return wrong;
            },
        };
        let outs = match read_raw_maps(bytes, ins.next, tx.output.len()) {
            Some(g) => g,
            None => {
                return wrong;
            },
        };
        if outs.next != bytes.len() {
            return wrong;
        }
        Psbt::with_records(tx, ins.value, globals.other, outs.value)
    }
}

/// What reading a partially signed transaction from the text `text` gives:
/// what its bytes in base 64 give, if it is text in base 64.
pub open spec fn from_text_spec(text: Seq<char>) -> Result<PsbtView, WalletError> {
    match base64_decoded(text) {
        Some(bytes) => from_bytes_spec(bytes),
        None => Err(WalletError::ValidationError(Invalid::PsbtStructure)),
    }
}

impl Psbt {
    /// The partially signed transaction as text: its encoding in base 64,
    /// which reads back as the same partially signed transaction.
    pub fn to_text(&self) -> (r: String)
        ensures
            r@ == base64_of(psbt_bytes(self@)),
            from_text_spec(r@) == Ok::<PsbtView, WalletError>(self@),
    {
        base64_text(&self.serialize())
    }

    /// The partially signed transaction that `text` encodes.
    pub fn from_text(text: &str) -> (r: Result<Psbt, WalletError>)
        ensures
            match from_text_spec(text@) {
                Ok(p) => r is Ok && r->Ok_0@ == p,
                Err(e) => r == Err::<Psbt, WalletError>(e),
            },
    {
        match base64_bytes(text) {
            Some(bytes) => Psbt::from_bytes(&bytes),
            None => Err(WalletError::ValidationError(Invalid::PsbtStructure)),
        }
    }
}

/// Whether the encoding of a record tells its lengths, and the record has
/// a key.
pub open spec fn record_fits(e: EntryView) -> bool {
    0 < e.key.len() < 0x1_0000_0000_0000_0000 && e.value.len() < 0x1_0000_0000_0000_0000
}

/// Whether each of the records has a key and tells its lengths.
pub open spec fn all_fit(es: Seq<EntryView>) -> bool {
    forall|k: int| 0 <= k < es.len() ==> record_fits(#[trigger] es[k])
}

/// `cut_record` reads back what `record_bytes` wrote.
#[verifier::spinoff_prover]
#[verifier::rlimit(80)]
pub proof fn lemma_cut_record_of(e: EntryView, rest: Seq<u8>)
    requires
        record_fits(e),
    ensures
        cut_record(record_bytes(e) + rest) == Some(Cut { value: e, rest }),
        (record_bytes(e) + rest)[0] != 0,
        (record_bytes(e) + rest).len() > rest.len(),
{
    let tail = compact_size(e.value.len() as int) + e.value + rest;
    let s = record_bytes(e) + rest;
    assert(s =~= compact_size(e.key.len() as int) + e.key + tail);
    lemma_cut_var_bytes_of(e.key, tail);
    lemma_cut_var_bytes_of(e.value, rest);
    assert(compact_size(e.key.len() as int)[0] != 0);
    assert(s[0] == compact_size(e.key.len() as int)[0]);
}

/// The encoding of records with one more in front is that of the one, then
/// that of the others.
#[verifier::spinoff_prover]
#[verifier::rlimit(80)]
pub proof fn lemma_records_bytes_front(e: EntryView, es: Seq<EntryView>)
    ensures
        records_bytes(seq![e] + es) == record_bytes(e) + records_bytes(es),
{
    lemma_records_bytes_add(seq![e], es);
    lemma_records_bytes_one(e);
}

/// `cut_map` reads back what `map_bytes` wrote.
#[verifier::spinoff_prover]
#[verifier::rlimit(80)]
pub proof fn lemma_cut_map_of(es: Seq<EntryView>, rest: Seq<u8>)
    requires
        all_fit(es),
    ensures
        cut_map(map_bytes(es) + rest) == Some(Cut { value: es, rest }),
    decreases es.len(),
{
    let s = map_bytes(es) + rest;
    if es.len() == 0 {
        assert(records_bytes(es) =~= Seq::<u8>::empty());
        assert(s =~= seq![0u8] + rest);
        assert(s.skip(1) =~= rest);
        assert(es =~= Seq::<EntryView>::empty());
    } else {
        let e = es[0];
        let tail = es.drop_first();
        assert(seq![e] + tail =~= es);
        lemma_records_bytes_front(e, tail);
        assert(all_fit(tail)) by {
            assert forall|k: int| 0 <= k < tail.len() implies record_fits(#[trigger] tail[k]) by {
                assert(tail[k] == es[k + 1]);
            }
        }
        let after = map_bytes(tail) + rest;
        assert(s =~= record_bytes(e) + after);
        lemma_cut_record_of(e, after);
        lemma_cut_map_of(tail, rest);
    }
}

/// Taking in records one list after the other is taking in both lists.
#[verifier::spinoff_prover]
#[verifier::rlimit(80)]
pub proof fn lemma_input_after_add(from: PsbtInputView, a: Seq<EntryView>, b: Seq<EntryView>)
    ensures
        input_after(from, a + b) == match input_after(from, a) {
            Some(m) => input_after(m, b),
            None => None,
        },
    decreases b.len(),
{
    if b.len() == 0 {
        assert(a + b =~= a);
    } else {
        lemma_input_after_add(from, a, b.drop_last());
        assert((a + b).drop_last() =~= a + b.drop_last());
        assert((a + b).last() == b.last());
    }
}

/// Taking in a list of one record is taking in the record.
#[verifier::spinoff_prover]
#[verifier::rlimit(80)]
pub proof fn lemma_input_after_one(from: PsbtInputView, e: EntryView)
    ensures
        input_after(from, seq![e]) == input_with(from, e),
{
    let s = seq![e];
    assert(s.drop_last().len() == 0);
    assert(s.last() == e);
    assert(input_after(from, s.drop_last()) == Some(from));
}

/// Taking in signatures as records of their kind lists them behind those
/// at hand, where the keys stay distinct.
#[verifier::spinoff_prover]
#[verifier::rlimit(80)]
pub proof fn lemma_take_sigs(from: PsbtInputView, sigs: Seq<EntryView>)
    requires
        distinct_keys(from.partial_sigs + sigs),
    ensures
        input_after(from, keyed(2, sigs)) == Some(
            PsbtInputView { partial_sigs: from.partial_sigs + sigs, ..from },
        ),
    decreases sigs.len(),
{
    let all = from.partial_sigs + sigs;
    if sigs.len() == 0 {
        assert(from.partial_sigs + sigs =~= from.partial_sigs);
        assert(keyed(2, sigs).len() == 0);
    } else {
        let head = sigs.drop_last();
        let e = sigs.last();
        assert(distinct_keys(from.partial_sigs + head)) by {
            assert forall|i: int, j: int|
                0 <= i < j < (from.partial_sigs + head).len() implies (from.partial_sigs
                + head)[i].key != (from.partial_sigs + head)[j].key by {
                assert((from.partial_sigs + head)[i] == all[i]);
                assert((from.partial_sigs + head)[j] == all[j]);
            }
        }
        lemma_take_sigs(from, head);
        assert(keyed(2, sigs).drop_last() =~= keyed(2, head));
        let rec = keyed(2, sigs).last();
        assert(rec.key =~= seq![2u8] + e.key);
        assert(rec.key.skip(1) =~= e.key);
        let mid = PsbtInputView { partial_sigs: from.partial_sigs + head, ..from };
        assert(!has_key(mid.partial_sigs, e.key)) by {
            if has_key(mid.partial_sigs, e.key) {
                let k = choose|k: int|
                    0 <= k < mid.partial_sigs.len() && mid.partial_sigs[k].key == e.key;
                assert(all[k] == mid.partial_sigs[k]);
                assert(all[all.len() - 1] == e);
            }
        }
        assert((from.partial_sigs + head).push(EntryView { key: e.key, value: e.value })
            =~= from.partial_sigs + sigs);
    }
}

/// Taking in hints as records of their kind lists them behind those at
/// hand, where the keys stay distinct.
#[verifier::spinoff_prover]
#[verifier::rlimit(80)]
pub proof fn lemma_take_hints(from: PsbtInputView, hints: Seq<EntryView>)
    requires
        distinct_keys(from.bip32_derivation + hints),
    ensures
        input_after(from, keyed(6, hints)) == Some(
            PsbtInputView { bip32_derivation: from.bip32_derivation + hints, ..from },
        ),
    decreases hints.len(),
{
    let all = from.bip32_derivation + hints;
    if hints.len() == 0 {
        assert(from.bip32_derivation + hints =~= from.bip32_derivation);
        assert(keyed(6, hints).len() == 0);
    } else {
        let head = hints.drop_last();
        let e = hints.last();
        assert(distinct_keys(from.bip32_derivation + head)) by {
            assert forall|i: int, j: int|
                0 <= i < j < (from.bip32_derivation + head).len() implies (from.bip32_derivation
                + head)[i].key != (from.bip32_derivation + head)[j].key by {
                assert((from.bip32_derivation + head)[i] == all[i]);
                assert((from.bip32_derivation + head)[j] == all[j]);
            }
        }
        lemma_take_hints(from, head);
        assert(keyed(6, hints).drop_last() =~= keyed(6, head));
        let rec = keyed(6, hints).last();
        assert(rec.key =~= seq![6u8] + e.key);
        assert(rec.key.skip(1) =~= e.key);
        let mid = PsbtInputView { bip32_derivation: from.bip32_derivation + head, ..from };
        assert(!has_key(mid.bip32_derivation, e.key)) by {
            if has_key(mid.bip32_derivation, e.key) {
                let k = choose|k: int|
                    0 <= k < mid.bip32_derivation.len() && mid.bip32_derivation[k].key == e.key;
                assert(all[k] == mid.bip32_derivation[k]);
                assert(all[all.len() - 1] == e);
            }
        }
        assert((from.bip32_derivation + head).push(EntryView { key: e.key, value: e.value })
            =~= from.bip32_derivation + hints);
    }
}

/// Taking in records of kinds that are not singled out lists them behind
/// those at hand, where the keys stay distinct.
#[verifier::spinoff_prover]
#[verifier::rlimit(80)]
pub proof fn lemma_take_other(from: PsbtInputView, other: Seq<EntryView>)
    requires
        records_fit(from.other + other, 7),
    ensures
        input_after(from, other) == Some(PsbtInputView { other: from.other + other, ..from }),
    decreases other.len(),
{
    let all = from.other + other;
    if other.len() == 0 {
        assert(from.other + other =~= from.other);
    } else {
        let head = other.drop_last();
        let e = other.last();
        assert(records_fit(from.other + head, 7)) by {
            assert forall|i: int, j: int|
                0 <= i < j < (from.other + head).len() implies (from.other + head)[i].key != (
            from.other + head)[j].key by {
                assert((from.other + head)[i] == all[i]);
                assert((from.other + head)[j] == all[j]);
            }
            assert forall|k: int| 0 <= k < (from.other + head).len() implies (#[trigger] (
            from.other + head)[k]).key.len() > 0 && (from.other + head)[k].key[0] >= 7 by {
                assert((from.other + head)[k] == all[k]);
            }
        }
        lemma_take_other(from, head);
        let mid = PsbtInputView { other: from.other + head, ..from };
        assert(all[all.len() - 1] == e);
        assert(e.key.len() > 0 && e.key[0] >= 7);
        assert(!has_key(mid.other, e.key)) by {
            if has_key(mid.other, e.key) {
                let k = choose|k: int| 0 <= k < mid.other.len() && mid.other[k].key == e.key;
                assert(all[k] == mid.other[k]);
            }
        }
        assert((from.other + head).push(e) =~= from.other + other);
    }
}

/// Whether the data about an input can be written and read back: its
/// records tell their lengths, a transaction among them tells its own, and
/// signatures, hints and other records stand under distinct keys, the
/// other records under kinds that are not singled out.
pub open spec fn input_encodable(i: PsbtInputView) -> bool {
    &&& all_fit(input_records(i))
    &&& (i.non_witness_utxo is Some ==> tx_fits(i.non_witness_utxo->0))
    &&& (i.witness_utxo is Some ==> i.witness_utxo->0.script.len() < 0x1_0000_0000_0000_0000)
    &&& distinct_keys(i.partial_sigs)
    &&& distinct_keys(i.bip32_derivation)
    &&& records_fit(i.other, 7)
}

/// The data about an input with the records of the kinds 0 and 1 taken in.
#[verifier::spinoff_prover]
#[verifier::rlimit(80)]
pub proof fn lemma_take_utxos(from: PsbtInputView, i: PsbtInputView)
    requires
        from.non_witness_utxo is None,
        from.witness_utxo is None,
        i.non_witness_utxo is Some ==> tx_fits(i.non_witness_utxo->0),
        i.witness_utxo is Some ==> i.witness_utxo->0.script.len() < 0x1_0000_0000_0000_0000,
    ensures
        input_after(
            from,
            single(0, opt_wire(i.non_witness_utxo)) + single(1, opt_txout(i.witness_utxo)),
        ) == Some(
            PsbtInputView {
                non_witness_utxo: i.non_witness_utxo,
                witness_utxo: i.witness_utxo,
                ..from
            },
        ),
{
    let r0 = single(0, opt_wire(i.non_witness_utxo));
    let r1 = single(1, opt_txout(i.witness_utxo));
    let mid = PsbtInputView { non_witness_utxo: i.non_witness_utxo, ..from };
    lemma_input_after_add(from, r0, r1);
    match i.non_witness_utxo {
        Some(t) => {
            lemma_decode_encode(t);
            lemma_input_after_one(from, EntryView { key: seq![0u8], value: wire_bytes(t) });
        },
        None => {
            assert(mid == from);
        },
    }
    assert(input_after(from, r0) == Some(mid));
    match i.witness_utxo {
        Some(o) => {
            lemma_cut_txout_of(o, Seq::<u8>::empty());
            assert(txout_bytes(o) + Seq::<u8>::empty() =~= txout_bytes(o));
            lemma_input_after_one(mid, EntryView { key: seq![1u8], value: txout_bytes(o) });
        },
        None => {},
    }
}

/// The data about an input with the records of the kinds 3, 4 and 5 taken
/// in.
#[verifier::spinoff_prover]
#[verifier::rlimit(80)]
pub proof fn lemma_take_singles(from: PsbtInputView, i: PsbtInputView)
    requires
        from.sighash_type is None,
        from.redeem_script is None,
        from.witness_script is None,
    ensures
        input_after(
            from,
            single(3, opt_le4(i.sighash_type)) + single(4, i.redeem_script) + single(
                5,
                i.witness_script,
            ),
        ) == Some(
            PsbtInputView {
                sighash_type: i.sighash_type,
                redeem_script: i.redeem_script,
                witness_script: i.witness_script,
                ..from
            },
        ),
{
    let r3 = single(3, opt_le4(i.sighash_type));
    let r4 = single(4, i.redeem_script);
    let r5 = single(5, i.witness_script);
    let m3 = PsbtInputView { sighash_type: i.sighash_type, ..from };
    let m4 = PsbtInputView { redeem_script: i.redeem_script, ..m3 };
    lemma_input_after_add(from, r3 + r4, r5);
    lemma_input_after_add(from, r3, r4);
    match i.sighash_type {
        Some(n) => {
            lemma_pow256_values();
            lemma_le_value_of_bytes(n as int, 4);
            lemma_input_after_one(from, EntryView { key: seq![3u8], value: le_bytes(n as int, 4) });
        },
        None => {
            assert(m3 == from);
        },
    }
    assert(input_after(from, r3) == Some(m3));
    match i.redeem_script {
        Some(x) => {
            lemma_input_after_one(m3, EntryView { key: seq![4u8], value: x });
        },
        None => {
            assert(m4 == m3);
        },
    }
    assert(input_after(m3, r4) == Some(m4));
    match i.witness_script {
        Some(x) => {
            lemma_input_after_one(m4, EntryView { key: seq![5u8], value: x });
        },
        None => {},
    }
}

/// The records that are written about an input amount to that input.
#[verifier::spinoff_prover]
#[verifier::rlimit(80)]
pub proof fn lemma_input_of_records(i: PsbtInputView)
    requires
        input_encodable(i),
    ensures
        input_of(input_records(i)) == Some(i),
{
    let b = blank_input();
    let utxos = single(0, opt_wire(i.non_witness_utxo)) + single(1, opt_txout(i.witness_utxo));
    let sigs = keyed(2, i.partial_sigs);
    let singles = single(3, opt_le4(i.sighash_type)) + single(4, i.redeem_script) + single(
        5,
        i.witness_script,
    );
    let hints = keyed(6, i.bip32_derivation);
    let m1 = PsbtInputView {
        non_witness_utxo: i.non_witness_utxo,
        witness_utxo: i.witness_utxo,
        ..b
    };
    let m2 = PsbtInputView { partial_sigs: i.partial_sigs, ..m1 };
    let m3 = PsbtInputView {
        sighash_type: i.sighash_type,
        redeem_script: i.redeem_script,
        witness_script: i.witness_script,
        ..m2
    };
    let m4 = PsbtInputView { bip32_derivation: i.bip32_derivation, ..m3 };
    lemma_take_utxos(b, i);
    assert(m1.partial_sigs + i.partial_sigs =~= i.partial_sigs);
    lemma_take_sigs(m1, i.partial_sigs);
    lemma_take_singles(m2, i);
    assert(m3.bip32_derivation + i.bip32_derivation =~= i.bip32_derivation);
    lemma_take_hints(m3, i.bip32_derivation);
    assert(m4.other + i.other =~= i.other);
    lemma_take_other(m4, i.other);
    assert(PsbtInputView { other: m4.other + i.other, ..m4 } == i);
    lemma_input_after_add(b, utxos, sigs);
    lemma_input_after_add(b, utxos + sigs, singles);
    lemma_input_after_add(b, utxos + sigs + singles, hints);
    lemma_input_after_add(b, utxos + sigs + singles + hints, i.other);
    assert(input_records(i) =~= utxos + sigs + singles + hints + i.other);
}

/// The encoding without witnesses of a transaction without witnesses is
/// read back as that transaction.
#[verifier::spinoff_prover]
#[verifier::rlimit(80)]
pub proof fn lemma_decode_base_of(tx: TransactionView)
    requires
        tx_fits(tx),
        !any_witness(tx.input),
    ensures
        decode_base(base_bytes(tx)) == Some(tx),
{
    lemma_pow256_values();
    lemma_version_round_trip(tx.version, 0);
    let head = le_bytes(version_bits(tx.version), 4);
    let lock = le_bytes(tx.lock_time as int, 4);
    let b = compact_size(tx.output.len() as int) + outputs_bytes(tx.output);
    let after_count = inputs_bytes(tx.input) + (b + lock);
    let t = compact_size(tx.input.len() as int) + after_count;
    assert(base_bytes(tx) =~= head + t);
    lemma_cut_le_of(version_bits(tx.version), 4, t);
    lemma_cut_compact_of(tx.input.len() as int, after_count);
    lemma_cut_inputs_of(tx.input, b + lock);
    assert(bare_inputs(tx.input) =~= tx.input) by {
        assert forall|k: int| 0 <= k < tx.input.len() implies bare_inputs(tx.input)[k]
            == tx.input[k] by {
            assert(tx.input[k].witness.len() == 0);
            assert(tx.input[k].witness =~= Seq::<Seq<u8>>::empty());
        }
    }
    assert(cut_input_list(t) == Some(Cut { value: tx.input, rest: b + lock }));
    assert(b + lock =~= compact_size(tx.output.len() as int) + (outputs_bytes(tx.output) + lock));
    lemma_cut_compact_of(tx.output.len() as int, outputs_bytes(tx.output) + lock);
    lemma_cut_outputs_of(tx.output, lock);
    lemma_cut_le_of(tx.lock_time as int, 4, Seq::<u8>::empty());
    assert(lock + Seq::<u8>::empty() =~= lock);
}

/// Taking in records about the whole one list after the other is taking in
/// both lists.
#[verifier::spinoff_prover]
#[verifier::rlimit(80)]
pub proof fn lemma_globals_after_add(from: GlobalsView, a: Seq<EntryView>, b: Seq<EntryView>)
    ensures
        globals_after(from, a + b) == match globals_after(from, a) {
            Some(m) => globals_after(m, b),
            None => None,
        },
    decreases b.len(),
{
    if b.len() == 0 {
        assert(a + b =~= a);
    } else {
        lemma_globals_after_add(from, a, b.drop_last());
        assert((a + b).drop_last() =~= a + b.drop_last());
        assert((a + b).last() == b.last());
    }
}

/// Taking in records of kinds other than that of the transaction lists
/// them behind those at hand, where the keys stay distinct.
#[verifier::spinoff_prover]
#[verifier::rlimit(80)]
pub proof fn lemma_take_globals(from: GlobalsView, other: Seq<EntryView>)
    requires
        records_fit(from.other + other, 1),
    ensures
        globals_after(from, other) == Some(GlobalsView { other: from.other + other, ..from }),
    decreases other.len(),
{
    let all = from.other + other;
    if other.len() == 0 {
        assert(from.other + other =~= from.other);
    } else {
        let head = other.drop_last();
        let e = other.last();
        assert(records_fit(from.other + head, 1)) by {
            assert forall|i: int, j: int|
                0 <= i < j < (from.other + head).len() implies (from.other + head)[i].key != (
            from.other + head)[j].key by {
                assert((from.other + head)[i] == all[i]);
                assert((from.other + head)[j] == all[j]);
            }
            assert forall|k: int| 0 <= k < (from.other + head).len() implies (#[trigger] (
            from.other + head)[k]).key.len() > 0 && (from.other + head)[k].key[0] >= 1 by {
                assert((from.other + head)[k] == all[k]);
            }
        }
        lemma_take_globals(from, head);
        let mid = GlobalsView { other: from.other + head, ..from };
        assert(all[all.len() - 1] == e);
        assert(e.key.len() > 0 && e.key[0] >= 1);
        assert(!has_key(mid.other, e.key)) by {
            if has_key(mid.other, e.key) {
                let k = choose|k: int| 0 <= k < mid.other.len() && mid.other[k].key == e.key;
                assert(all[k] == mid.other[k]);
            }
        }
        assert((from.other + head).push(e) =~= from.other + other);
    }
}

/// The records that are written about the whole amount to the unsigned
/// transaction and the other records.
#[verifier::spinoff_prover]
#[verifier::rlimit(80)]
pub proof fn lemma_globals_of_records(p: PsbtView)
    requires
        tx_fits(p.unsigned_tx),
        !any_witness(p.unsigned_tx.input),
        records_fit(p.globals, 1),
    ensures
        globals_of(global_records(p)) == Some(
            GlobalsView { tx: Some(p.unsigned_tx), other: p.globals },
        ),
{
    let start = GlobalsView { tx: None, other: Seq::empty() };
    let first = EntryView { key: seq![0u8], value: base_bytes(p.unsigned_tx) };
    let mid = GlobalsView { tx: Some(p.unsigned_tx), other: Seq::empty() };
    lemma_decode_base_of(p.unsigned_tx);
    let one = seq![first];
    assert(one.drop_last().len() == 0);
    assert(one.last() == first);
    assert(globals_after(start, one.drop_last()) == Some(start));
    assert(globals_after(start, one) == Some(mid));
    assert(mid.other + p.globals =~= p.globals);
    lemma_take_globals(mid, p.globals);
    lemma_globals_after_add(start, one, p.globals);
}

/// The encoding of the data about inputs with one more in front is that of
/// the one, then that of the others.
#[verifier::spinoff_prover]
#[verifier::rlimit(80)]
pub proof fn lemma_input_maps_bytes_front(x: PsbtInputView, s: Seq<PsbtInputView>)
    ensures
        input_maps_bytes(seq![x] + s) == map_bytes(input_records(x)) + input_maps_bytes(s),
    decreases s.len(),
{
    let all = seq![x] + s;
    if s.len() == 0 {
        assert(all.len() == 1);
        assert(all.last() == x);
        assert(all.drop_last().len() == 0);
        assert(input_maps_bytes(all.drop_last()) =~= Seq::<u8>::empty());
        assert(input_maps_bytes(s) =~= Seq::<u8>::empty());
        assert(input_maps_bytes(all) =~= map_bytes(input_records(x)) + input_maps_bytes(s));
    } else {
        lemma_input_maps_bytes_front(x, s.drop_last());
        assert(all.drop_last() =~= seq![x] + s.drop_last());
        assert(all.last() == s.last());
        assert(input_maps_bytes(all) =~= map_bytes(input_records(x)) + input_maps_bytes(s));
    }
}

/// The encoding of lists of records with one more in front is that of the
/// one, then that of the others.
#[verifier::spinoff_prover]
#[verifier::rlimit(80)]
pub proof fn lemma_maps_bytes_front(x: Seq<EntryView>, s: Seq<Seq<EntryView>>)
    ensures
        maps_bytes(seq![x] + s) == map_bytes(x) + maps_bytes(s),
    decreases s.len(),
{
    let all = seq![x] + s;
    if s.len() == 0 {
        assert(all.len() == 1);
        assert(all.last() == x);
        assert(all.drop_last().len() == 0);
        assert(maps_bytes(all.drop_last()) =~= Seq::<u8>::empty());
        assert(maps_bytes(s) =~= Seq::<u8>::empty());
        assert(maps_bytes(all) =~= map_bytes(x) + maps_bytes(s));
    } else {
        lemma_maps_bytes_front(x, s.drop_last());
        assert(all.drop_last() =~= seq![x] + s.drop_last());
        assert(all.last() == s.last());
        assert(maps_bytes(all) =~= map_bytes(x) + maps_bytes(s));
    }
}

/// Whether each input can be written and read back.
pub open spec fn inputs_encodable(ins: Seq<PsbtInputView>) -> bool {
    forall|k: int| 0 <= k < ins.len() ==> input_encodable(#[trigger] ins[k])
}

/// Whether each list of records tells its lengths.
pub open spec fn maps_fit(ms: Seq<Seq<EntryView>>) -> bool {
    forall|k: int| 0 <= k < ms.len() ==> all_fit(#[trigger] ms[k])
}

/// `cut_input_maps` reads back what `input_maps_bytes` wrote.
#[verifier::spinoff_prover]
#[verifier::rlimit(80)]
pub proof fn lemma_cut_input_maps_of(ins: Seq<PsbtInputView>, rest: Seq<u8>)
    requires
        inputs_encodable(ins),
    ensures
        cut_input_maps(input_maps_bytes(ins) + rest, ins.len()) == Some(
            Cut { value: ins, rest },
        ),
    decreases ins.len(),
{
    if ins.len() == 0 {
        assert(input_maps_bytes(ins) + rest =~= rest);
        assert(ins =~= Seq::<PsbtInputView>::empty());
    } else {
        let x = ins[0];
        let tail = ins.drop_first();
        assert(seq![x] + tail =~= ins);
        lemma_input_maps_bytes_front(x, tail);
        assert(inputs_encodable(tail)) by {
            assert forall|k: int| 0 <= k < tail.len() implies input_encodable(
                #[trigger] tail[k],
            ) by {
                assert(tail[k] == ins[k + 1]);
            }
        }
        let after = input_maps_bytes(tail) + rest;
        assert(input_maps_bytes(ins) + rest =~= map_bytes(input_records(x)) + after);
        lemma_cut_map_of(input_records(x), after);
        lemma_input_of_records(x);
        lemma_cut_input_maps_of(tail, rest);
    }
}

/// `cut_raw_maps` reads back what `maps_bytes` wrote.
#[verifier::spinoff_prover]
#[verifier::rlimit(80)]
pub proof fn lemma_cut_raw_maps_of(ms: Seq<Seq<EntryView>>, rest: Seq<u8>)
    requires
        maps_fit(ms),
    ensures
        cut_raw_maps(maps_bytes(ms) + rest, ms.len()) == Some(Cut { value: ms, rest }),
    decreases ms.len(),
{
    if ms.len() == 0 {
        assert(maps_bytes(ms) + rest =~= rest);
        assert(ms =~= Seq::<Seq<EntryView>>::empty());
    } else {
        let x = ms[0];
        let tail = ms.drop_first();
        assert(seq![x] + tail =~= ms);
        lemma_maps_bytes_front(x, tail);
        assert(maps_fit(tail)) by {
            assert forall|k: int| 0 <= k < tail.len() implies all_fit(#[trigger] tail[k]) by {
                assert(tail[k] == ms[k + 1]);
            }
        }
        let after = maps_bytes(tail) + rest;
        assert(maps_bytes(ms) + rest =~= map_bytes(x) + after);
        lemma_cut_map_of(x, after);
        lemma_cut_raw_maps_of(tail, rest);
    }
}

/// Whether a partially signed transaction can be written and read back:
/// its parts fit each other, and everything that is written tells its
/// length.
pub open spec fn encodable(p: PsbtView) -> bool {
    &&& well_formed(p)
    &&& tx_fits(p.unsigned_tx)
    &&& all_fit(global_records(p))
    &&& inputs_encodable(p.inputs)
    &&& maps_fit(p.outputs)
}

/// The encoding of a partially signed transaction is read back as that
/// transaction.
#[verifier::spinoff_prover]
#[verifier::rlimit(80)]
pub proof fn lemma_parse_encode(p: PsbtView)
    requires
        encodable(p),
    ensures
        parse_spec(psbt_bytes(p)) == Some(p),
        from_bytes_spec(psbt_bytes(p)) == Ok::<PsbtView, WalletError>(p),
{
    let s = psbt_bytes(p);
    let outs = maps_bytes(p.outputs);
    let ins = input_maps_bytes(p.inputs) + outs;
    let t = map_bytes(global_records(p)) + ins;
    assert(s =~= magic() + t);
    assert(s.take(5) =~= magic());
    assert(s.skip(5) =~= t);
    lemma_cut_map_of(global_records(p), ins);
    assert(!any_witness(p.unsigned_tx.input)) by {
        if any_witness(p.unsigned_tx.input) {
            let k = choose|k: int|
                0 <= k < p.unsigned_tx.input.len() && p.unsigned_tx.input[k].witness.len() > 0;
            assert(is_unsigned(p.unsigned_tx.input));
        }
    }
    lemma_globals_of_records(p);
    lemma_cut_input_maps_of(p.inputs, outs);
    lemma_cut_raw_maps_of(p.outputs, Seq::<u8>::empty());
    assert(outs + Seq::<u8>::empty() =~= outs);
}

} // verus!
