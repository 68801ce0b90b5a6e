//! Partially signed transactions: an unsigned transaction and, for each of
//! its inputs, what the signers know and have signed so far.

use vstd::prelude::*;
use crate::builder::{copy_outs, lemma_sum_out_push, sum_out_within, PlanView, TxBuildPlan};
use crate::error::{Invalid, WalletError};
use crate::fee::{cap64, MAX_MONEY};
use crate::finalize::{extract_spec, finish_input, finished_txin, is_complete, meets_requirement};
use crate::primitives::{sha256d, sha256d_of};
use crate::tx::{base_bytes, Transaction, TransactionView, TxIn, TxInView};
use crate::types::{bytes_eq, copy_bytes, sum_coins, sum_out, CoinView, Script, TxOut, TxOutView};

verus! {

/// What a keyed entry is in contracts.
pub struct EntryView {
    pub key: Seq<u8>,
    pub value: Seq<u8>,
}

/// Bytes kept under a key: a signature under a public key; a derivation
/// hint under a public key (the master fingerprint, then each index of the
/// path as four bytes, lowest first); or a record as it stands on the wire,
/// under its kind and key.
#[derive(Clone, Debug)]
pub struct Entry {
    pub key: Vec<u8>,
    pub value: Vec<u8>,
}

impl View for Entry {
    type V = EntryView;

    open spec fn view(&self) -> EntryView {
        EntryView { key: self.key@, value: self.value@ }
    }
}

impl Entry {
    /// A copy of this entry.
    pub fn copy(&self) -> (r: Entry)
        ensures
            r@ == self@,
    {
        Entry { key: copy_bytes(&self.key), value: copy_bytes(&self.value) }
    }
}

/// The entries of `s`, each by its view.
pub open spec fn entries_view(s: Seq<Entry>) -> Seq<EntryView> {
    s.map_values(|e: Entry| e@)
}

/// Whether `s` holds an entry under `key`.
pub open spec fn has_key(s: Seq<EntryView>, key: Seq<u8>) -> bool {
    exists|i: int| 0 <= i < s.len() && s[i].key == key
}

/// Whether no two entries of `s` share a key.
pub open spec fn distinct_keys(s: Seq<EntryView>) -> bool {
    forall|i: int, j: int| 0 <= i < j < s.len() ==> s[i].key != s[j].key
}

/// The entries of `s` as a map from key to value; of two entries under one
/// key the later counts.
pub open spec fn entry_map(s: Seq<EntryView>) -> Map<Seq<u8>, Seq<u8>>
    decreases s.len(),
{
    if s.len() == 0 {
        Map::empty()
    } else {
        entry_map(s.drop_last()).insert(s.last().key, s.last().value)
    }
}

/// The entries of `s` whose key `have` lacks, in their order.
pub open spec fn missing_from(have: Seq<EntryView>, s: Seq<EntryView>) -> Seq<EntryView>
    decreases s.len(),
{
    if s.len() == 0 {
        Seq::empty()
    } else if has_key(have, s.last().key) {
        missing_from(have, s.drop_last())
    } else {
        missing_from(have, s.drop_last()).push(s.last())
    }
}

/// The union of two lists of entries: those of `a` that `b` has no entry
/// for, then those of `b`.
pub open spec fn merged_entries(a: Seq<EntryView>, b: Seq<EntryView>) -> Seq<EntryView> {
    missing_from(b, a) + b
}

/// What the data about one input is in contracts.
pub struct PsbtInputView {
    pub witness_utxo: Option<TxOutView>,
    pub non_witness_utxo: Option<TransactionView>,
    pub partial_sigs: Seq<EntryView>,
    pub sighash_type: Option<u32>,
    pub bip32_derivation: Seq<EntryView>,
    pub redeem_script: Option<Seq<u8>>,
    pub witness_script: Option<Seq<u8>>,
    pub other: Seq<EntryView>,
}

/// What is known about one input: the output it spends, or the whole
/// transaction that created it; the signatures given so far, by public key;
/// the signature hash type asked for; where the keys come from; the
/// scripts behind a script hash; and, as they stand on the wire, the
/// records of any other kind, each under its kind and key.
#[derive(Clone, Debug)]
pub struct PsbtInput {
    pub witness_utxo: Option<TxOut>,
    pub non_witness_utxo: Option<Transaction>,
    pub partial_sigs: Vec<Entry>,
    pub sighash_type: Option<u32>,
    pub bip32_derivation: Vec<Entry>,
    pub redeem_script: Option<Script>,
    pub witness_script: Option<Script>,
    pub other: Vec<Entry>,
}

/// The view of an output that may be missing.
pub open spec fn opt_out_view(o: Option<TxOut>) -> Option<TxOutView> {
    match o {
        Some(x) => Some(x@),
        None => None,
    }
}

/// The view of a transaction that may be missing.
pub open spec fn opt_tx_view(t: Option<Transaction>) -> Option<TransactionView> {
    match t {
        Some(x) => Some(x@),
        None => None,
    }
}

/// The view of a script that may be missing.
pub open spec fn opt_script_view(s: Option<Script>) -> Option<Seq<u8>> {
    match s {
        Some(x) => Some(x@),
        None => None,
    }
}

impl View for PsbtInput {
    type V = PsbtInputView;

    open spec fn view(&self) -> PsbtInputView {
        PsbtInputView {
            witness_utxo: opt_out_view(self.witness_utxo),
            non_witness_utxo: opt_tx_view(self.non_witness_utxo),
            partial_sigs: entries_view(self.partial_sigs@),
            sighash_type: self.sighash_type,
            bip32_derivation: entries_view(self.bip32_derivation@),
            redeem_script: opt_script_view(self.redeem_script),
            witness_script: opt_script_view(self.witness_script),
            other: entries_view(self.other@),
        }
    }
}

/// The data about the inputs `s`, each by its view.
pub open spec fn psbt_ins_view(s: Seq<PsbtInput>) -> Seq<PsbtInputView> {
    s.map_values(|i: PsbtInput| i@)
}

/// The lists of records `s`, each by its view.
pub open spec fn maps_view(s: Seq<Vec<Entry>>) -> Seq<Seq<EntryView>> {
    s.map_values(|m: Vec<Entry>| entries_view(m@))
}

/// What a partially signed transaction is in contracts.
pub struct PsbtView {
    pub unsigned_tx: TransactionView,
    pub inputs: Seq<PsbtInputView>,
    pub globals: Seq<EntryView>,
    pub outputs: Seq<Seq<EntryView>>,
}

/// A partially signed transaction: the unsigned transaction, the data
/// about its inputs, and, as they stand on the wire, the records about the
/// whole and about each output. Its parts fit each other: see
/// `well_formed`.
#[derive(Debug)]
pub struct Psbt {
    unsigned_tx: Transaction,
    inputs: Vec<PsbtInput>,
    globals: Vec<Entry>,
    outputs: Vec<Vec<Entry>>,
}

impl View for Psbt {
    type V = PsbtView;

    closed spec fn view(&self) -> PsbtView {
        PsbtView {
            unsigned_tx: self.unsigned_tx@,
            inputs: psbt_ins_view(self.inputs@),
            globals: entries_view(self.globals@),
            outputs: maps_view(self.outputs@),
        }
    }
}

/// Whether the records `s` stand under distinct keys, each key led by a
/// kind of `least` or more.
pub open spec fn records_fit(s: Seq<EntryView>, least: u8) -> bool {
    distinct_keys(s) && forall|k: int|
        0 <= k < s.len() ==> (#[trigger] s[k]).key.len() > 0 && s[k].key[0] >= least
}

/// Whether no input of `s` carries a signature script or a witness.
pub open spec fn is_unsigned(s: Seq<TxInView>) -> bool {
    forall|i: int| 0 <= i < s.len() ==> s[i].script_sig.len() == 0 && s[i].witness.len() == 0
}

/// The output that an input at `vout` spends, as far as the data tells: the
/// output given, else the one at `vout` in the transaction given.
pub open spec fn spent_output(i: PsbtInputView, vout: u32) -> Option<TxOutView> {
    match i.witness_utxo {
        Some(o) => Some(o),
        None => match i.non_witness_utxo {
            Some(t) => if vout < t.output.len() {
                Some(t.output[vout as int])
            } else {
                None
            },
            None => None,
        },
    }
}

/// Whether the data about one input fits the input: the signatures are
/// under distinct keys, and so are the hints; the other records stand under
/// distinct keys of kinds that are not singled out; and a transaction given
/// in place of the spent output has an output at `vout`.
pub open spec fn input_fits(i: PsbtInputView, vout: u32) -> bool {
    &&& distinct_keys(i.partial_sigs)
    &&& distinct_keys(i.bip32_derivation)
    &&& records_fit(i.other, 7)
    &&& (i.witness_utxo is None && i.non_witness_utxo is Some ==> vout
        < i.non_witness_utxo->0.output.len())
}

/// Whether the spent output of each of the first `n` inputs is known.
pub open spec fn all_known(p: PsbtView, n: int) -> bool {
    forall|i: int| 0 <= i < n ==> spent_output(p.inputs[i], p.unsigned_tx.input[i].previous_output.vout) is Some
}

/// The amounts that the first `n` inputs spend, those unknown counted as
/// nothing.
pub open spec fn known_input_value(p: PsbtView, n: int) -> int
    decreases n,
{
    if n <= 0 {
        0
    } else {
        known_input_value(p, n - 1) + match spent_output(
            p.inputs[n - 1],
            p.unsigned_tx.input[n - 1].previous_output.vout,
        ) {
            Some(o) => o.value as int,
            None => 0,
        }
    }
}

/// Whether the parts of a partially signed transaction fit each other: there
/// is data for each input and records for each output, and no more; the
/// records stand under distinct keys, those about the whole under kinds
/// other than that of the transaction; the transaction is unsigned; the data
/// fits each input; and where every spent output is known, the inputs hold
/// no more than can exist, and no less than the outputs.
pub open spec fn well_formed(p: PsbtView) -> bool {
    &&& p.inputs.len() == p.unsigned_tx.input.len()
    &&& p.outputs.len() == p.unsigned_tx.output.len()
    &&& records_fit(p.globals, 1)
    &&& (forall|i: int| 0 <= i < p.outputs.len() ==> records_fit(#[trigger] p.outputs[i], 0))
    &&& is_unsigned(p.unsigned_tx.input)
    &&& (forall|i: int|
        0 <= i < p.inputs.len() ==> input_fits(
            #[trigger] p.inputs[i],
            p.unsigned_tx.input[i].previous_output.vout,
        ))
    &&& (all_known(p, p.inputs.len() as int) ==> sum_out(p.unsigned_tx.output)
        <= known_input_value(p, p.inputs.len() as int) <= MAX_MONEY)
}

/// The fee that a partially signed transaction pays: what its inputs spend
/// less what its outputs hold. None where a spent output is not known.
pub open spec fn fee_amount_spec(p: PsbtView) -> Option<u64> {
    if all_known(p, p.inputs.len() as int) {
        Some((known_input_value(p, p.inputs.len() as int) - sum_out(p.unsigned_tx.output)) as u64)
    } else {
        None
    }
}

/// The fee rate that a partially signed transaction pays, in thousandths
/// of a satoshi per virtual byte, rounded down: four thousand times the fee
/// over the weight of the unsigned transaction. None where a spent output
/// is not known.
pub open spec fn fee_rate_spec(p: PsbtView) -> Option<u64> {
    match fee_amount_spec(p) {
        Some(fee) => if cap64(crate::tx::weight_spec(p.unsigned_tx)) == 0 {
            None
        } else {
            Some(((fee * 4000) / cap64(crate::tx::weight_spec(p.unsigned_tx))) as u64)
        },
        None => None,
    }
}

/// Whether `s` holds an entry under `key`, and where the first one is.
pub fn find_key(s: &Vec<Entry>, key: &Vec<u8>) -> (r: Option<usize>)
    ensures
        r is Some == has_key(entries_view(s@), key@),
        r is Some ==> r->0 < s.len() && s@[r->0 as int].key@ == key@,
        r is Some ==> forall|k: int| 0 <= k < r->0 ==> entries_view(s@)[k].key != key@,
{
    let mut i: usize = 0;
    while i < s.len()
        invariant
            i <= s.len(),
            forall|k: int| 0 <= k < i ==> entries_view(s@)[k].key != key@,
        decreases s.len() - i,
    {
        if bytes_eq(&s[i].key, key) {
            assert(entries_view(s@)[i as int].key == key@);
            return Some(i);
        }
        i += 1;
    }
    None
}

/// Whether no two entries of `s` share a key.
pub fn has_distinct_keys(s: &Vec<Entry>) -> (r: bool)
    ensures
        r == distinct_keys(entries_view(s@)),
{
    let ghost all = entries_view(s@);
    let mut j: usize = 0;
    while j < s.len()
        invariant
            j <= s.len(),
            all == entries_view(s@),
            forall|a: int, b: int| 0 <= a < b < j ==> all[a].key != all[b].key,
        decreases s.len() - j,
    {
        let mut i: usize = 0;
        while i < j
            invariant
                i <= j < s.len(),
                all == entries_view(s@),
                forall|a: int| 0 <= a < i ==> all[a].key != all[j as int].key,
            decreases j - i,
        {
            if bytes_eq(&s[i].key, &s[j].key) {
                assert(all[i as int].key == all[j as int].key);
                return false;
            }
            i += 1;
        }
        j += 1;
    }
    true
}

/// A copy of `s`.
pub fn copy_entries(s: &Vec<Entry>) -> (r: Vec<Entry>)
    ensures
        entries_view(r@) == entries_view(s@),
{
    let mut r: Vec<Entry> = Vec::new();
    let mut i: usize = 0;
    assert(entries_view(r@) =~= entries_view(s@).take(0));
    while i < s.len()
        invariant
            i <= s.len(),
            entries_view(r@) == entries_view(s@).take(i as int),
        decreases s.len() - i,
    {
        let ghost before = r@;
        r.push(s[i].copy());
        proof {
            assert(entries_view(r@) =~= entries_view(before).push(s@[i as int]@));
            assert(entries_view(s@).take(i + 1) =~= entries_view(s@).take(i as int).push(
                s@[i as int]@,
            ));
        }
        i += 1;
    }
    assert(entries_view(s@).take(s.len() as int) =~= entries_view(s@));
    r
}

/// A copy of the lists of records `s`.
pub fn copy_maps(s: &Vec<Vec<Entry>>) -> (r: Vec<Vec<Entry>>)
    ensures
        maps_view(r@) == maps_view(s@),
{
    let mut r: Vec<Vec<Entry>> = Vec::new();
    let mut i: usize = 0;
    while i < s.len()
        invariant
            i <= s.len(),
            r.len() == i,
            forall|k: int| 0 <= k < i ==> entries_view((#[trigger] r@[k])@) == entries_view(
                s@[k]@,
            ),
        decreases s.len() - i,
    {
        r.push(copy_entries(&s[i]));
        i += 1;
    }
    assert(maps_view(r@) =~= maps_view(s@));
    r
}

/// The union of two lists of entries: those of `a` that `b` has no entry
/// for, then those of `b`.
pub fn merge_entries(a: &Vec<Entry>, b: &Vec<Entry>) -> (r: Vec<Entry>)
    ensures
        entries_view(r@) == merged_entries(entries_view(a@), entries_view(b@)),
{
    let ghost av = entries_view(a@);
    let ghost bv = entries_view(b@);
    let mut r: Vec<Entry> = Vec::new();
    let mut i: usize = 0;
    assert(entries_view(r@) =~= missing_from(bv, av.take(0)));
    while i < a.len()
        invariant
            i <= a.len(),
            av == entries_view(a@),
            bv == entries_view(b@),
            entries_view(r@) == missing_from(bv, av.take(i as int)),
        decreases a.len() - i,
    {
        proof {
            assert(av.take(i + 1).drop_last() =~= av.take(i as int));
            assert(av.take(i + 1).last() == a@[i as int]@);
        }
        if find_key(b, &a[i].key).is_none() {
            let ghost before = r@;
            r.push(a[i].copy());
            proof {
                assert(entries_view(r@) =~= entries_view(before).push(a@[i as int]@));
            }
        }
        i += 1;
    }
    assert(av.take(a.len() as int) =~= av);
    let ghost head = r@;
    let mut j: usize = 0;
    assert(entries_view(r@) =~= entries_view(head) + bv.take(0));
    while j < b.len()
        invariant
            j <= b.len(),
            bv == entries_view(b@),
            entries_view(r@) == entries_view(head) + bv.take(j as int),
        decreases b.len() - j,
    {
        let ghost before = r@;
        r.push(b[j].copy());
        proof {
            assert(entries_view(r@) =~= entries_view(before).push(b@[j as int]@));
            assert(entries_view(r@) =~= entries_view(head) + bv.take(j + 1));
        }
        j += 1;
    }
    assert(bv.take(b.len() as int) =~= bv);
    r
}

/// The map of entries has a value under exactly the keys of the entries.
pub proof fn lemma_entry_map_dom(s: Seq<EntryView>, key: Seq<u8>)
    ensures
        entry_map(s).dom().contains(key) == has_key(s, key),
    decreases s.len(),
{
    if s.len() > 0 {
        lemma_entry_map_dom(s.drop_last(), key);
        if has_key(s.drop_last(), key) {
            let i = choose|i: int| 0 <= i < s.drop_last().len() && s.drop_last()[i].key == key;
            assert(s[i].key == key);
        }
        if has_key(s, key) {
            let i = choose|i: int| 0 <= i < s.len() && s[i].key == key;
            if i < s.len() - 1 {
                assert(s.drop_last()[i].key == key);
            }
        }
    }
}

/// The map of two lists of entries is the map of the first, overridden by
/// that of the second.
pub proof fn lemma_entry_map_add(a: Seq<EntryView>, b: Seq<EntryView>)
    ensures
        entry_map(a + b) == entry_map(a).union_prefer_right(entry_map(b)),
    decreases b.len(),
{
    if b.len() == 0 {
        assert(a + b =~= a);
        assert(entry_map(a).union_prefer_right(entry_map(b)) =~= entry_map(a));
    } else {
        lemma_entry_map_add(a, b.drop_last());
        assert((a + b).drop_last() =~= a + b.drop_last());
        assert((a + b).last() == b.last());
        assert(entry_map(a + b) =~= entry_map(a).union_prefer_right(entry_map(b)));
    }
}

/// The entries that a list lacks are those of the other list under keys
/// that the list has none for, with their values, and they keep distinct
/// keys distinct.
pub proof fn lemma_missing_from(have: Seq<EntryView>, s: Seq<EntryView>)
    ensures
        forall|key: Seq<u8>| #[trigger]
            has_key(missing_from(have, s), key) == (has_key(s, key) && !has_key(have, key)),
        forall|key: Seq<u8>|
            has_key(missing_from(have, s), key) ==> #[trigger] entry_map(missing_from(have, s))[key]
                == entry_map(s)[key],
        distinct_keys(s) ==> distinct_keys(missing_from(have, s)),
    decreases s.len(),
{
    let m = missing_from(have, s);
    if s.len() > 0 {
        let rest = missing_from(have, s.drop_last());
        lemma_missing_from(have, s.drop_last());
        assert forall|key: Seq<u8>| #[trigger]
            has_key(m, key) == (has_key(s, key) && !has_key(have, key)) by {
            if has_key(m, key) {
                let i = choose|i: int| 0 <= i < m.len() && m[i].key == key;
                if i < rest.len() {
                    assert(rest[i].key == key);
                    assert(has_key(rest, key));
                    let j = choose|j: int|
                        0 <= j < s.drop_last().len() && s.drop_last()[j].key == key;
                    assert(s[j].key == key);
                } else {
                    assert(s[s.len() - 1].key == key);
                }
            }
            if has_key(s, key) && !has_key(have, key) {
                let j = choose|j: int| 0 <= j < s.len() && s[j].key == key;
                if j < s.len() - 1 {
                    assert(s.drop_last()[j].key == key);
                    assert(has_key(rest, key));
                    let i = choose|i: int| 0 <= i < rest.len() && rest[i].key == key;
                    assert(m[i].key == key);
                } else {
                    assert(m[m.len() - 1].key == key);
                }
            }
        }
        assert forall|key: Seq<u8>| has_key(m, key) implies #[trigger] entry_map(m)[key]
            == entry_map(s)[key] by {
            if !has_key(have, s.last().key) {
                assert(m.drop_last() =~= rest);
                assert(m.last() == s.last());
                if key != s.last().key {
                    let i = choose|i: int| 0 <= i < m.len() && m[i].key == key;
                    assert(rest[i].key == key);
                    assert(has_key(rest, key));
                    assert(entry_map(rest)[key] == entry_map(s.drop_last())[key]);
                }
            } else {
                assert(has_key(rest, key));
                assert(!has_key(have, key));
                assert(key != s.last().key);
                assert(entry_map(rest)[key] == entry_map(s.drop_last())[key]);
            }
        }
        if distinct_keys(s) {
            assert(distinct_keys(s.drop_last())) by {
                assert forall|i: int, j: int| 0 <= i < j < s.drop_last().len() implies s.drop_last()[i].key
                    != s.drop_last()[j].key by {
                    assert(s[i].key != s[j].key);
                }
            }
            if !has_key(have, s.last().key) {
                assert forall|i: int, j: int| 0 <= i < j < m.len() implies m[i].key != m[j].key by {
                    if j < rest.len() {
                        assert(rest[i].key != rest[j].key);
                    } else {
                        assert(rest[i].key == m[i].key);
                        if m[i].key == s.last().key {
                            assert(has_key(rest, s.last().key));
                            let k = choose|k: int|
                                0 <= k < s.drop_last().len() && s.drop_last()[k].key
                                    == s.last().key;
                            assert(s[k].key == s[s.len() - 1].key);
                        }
                    }
                }
            }
        }
    }
}

/// The union of two lists of entries holds an entry under exactly the keys
/// that one of the two does; under a key of the second list it holds what
/// the second holds, under any other key what the first holds. It keeps keys
/// distinct.
pub proof fn lemma_merge_is_union(a: Seq<EntryView>, b: Seq<EntryView>)
    ensures
        entry_map(merged_entries(a, b)) == entry_map(a).union_prefer_right(entry_map(b)),
        entry_map(merged_entries(a, b)).dom() == entry_map(a).dom().union(entry_map(b).dom()),
        distinct_keys(a) && distinct_keys(b) ==> distinct_keys(merged_entries(a, b)),
{
    let m = missing_from(b, a);
    lemma_missing_from(b, a);
    lemma_entry_map_add(m, b);
    assert forall|key: Seq<u8>| #![auto]
        entry_map(m).union_prefer_right(entry_map(b)).dom().contains(key) == entry_map(
            a,
        ).union_prefer_right(entry_map(b)).dom().contains(key) by {
        lemma_entry_map_dom(m, key);
        lemma_entry_map_dom(a, key);
        lemma_entry_map_dom(b, key);
        assert(has_key(m, key) == (has_key(a, key) && !has_key(b, key)));
    }
    assert forall|key: Seq<u8>|
        entry_map(m).union_prefer_right(entry_map(b)).dom().contains(key) implies #[trigger] entry_map(
        m,
    ).union_prefer_right(entry_map(b))[key] == entry_map(a).union_prefer_right(entry_map(b))[key] by {
        lemma_entry_map_dom(m, key);
        lemma_entry_map_dom(a, key);
        lemma_entry_map_dom(b, key);
        assert(has_key(m, key) == (has_key(a, key) && !has_key(b, key)));
        if !entry_map(b).dom().contains(key) {
            assert(has_key(m, key));
            assert(entry_map(m)[key] == entry_map(a)[key]);
        }
    }
    assert(entry_map(m).union_prefer_right(entry_map(b)) =~= entry_map(a).union_prefer_right(
        entry_map(b),
    ));
    assert(entry_map(a).union_prefer_right(entry_map(b)).dom() =~= entry_map(a).dom().union(
        entry_map(b).dom(),
    ));
    if distinct_keys(a) && distinct_keys(b) {
        let r = merged_entries(a, b);
        assert forall|i: int, j: int| 0 <= i < j < r.len() implies r[i].key != r[j].key by {
            if j < m.len() {
                assert(m[i].key != m[j].key);
            } else if i >= m.len() {
                assert(b[i - m.len()].key != b[j - m.len()].key);
            } else {
                assert(has_key(m, m[i].key));
                if m[i].key == b[j - m.len()].key {
                    assert(has_key(b, m[i].key));
                }
            }
        }
    }
}

/// The partially signed transaction made of a transaction and the data
/// about its inputs.
pub open spec fn parts_view(tx: Transaction, inputs: Seq<PsbtInput>) -> PsbtView {
    PsbtView {
        unsigned_tx: tx@,
        inputs: psbt_ins_view(inputs),
        globals: Seq::empty(),
        outputs: no_records(tx@.output.len()),
    }
}

/// Records about `n` outputs: none at all.
pub open spec fn no_records(n: nat) -> Seq<Seq<EntryView>> {
    Seq::new(n, |i: int| Seq::<EntryView>::empty())
}

/// The partially signed transaction made of all its parts.
pub open spec fn whole_view(
    tx: Transaction,
    inputs: Seq<PsbtInput>,
    globals: Seq<Entry>,
    outputs: Seq<Vec<Entry>>,
) -> PsbtView {
    PsbtView {
        unsigned_tx: tx@,
        inputs: psbt_ins_view(inputs),
        globals: entries_view(globals),
        outputs: maps_view(outputs),
    }
}

/// The known inputs spend no negative amount.
pub proof fn lemma_known_input_value_bounds(p: PsbtView, n: int)
    ensures
        0 <= known_input_value(p, n),
    decreases n,
{
    if n > 0 {
        lemma_known_input_value_bounds(p, n - 1);
    }
}

/// The amount that an input at `vout` spends, if the data tells.
pub fn spent_value(input: &PsbtInput, vout: u32) -> (r: Option<u64>)
    ensures
        r is Some == spent_output(input@, vout) is Some,
        r is Some ==> r->0 == spent_output(input@, vout)->0.value,
{
    match &input.witness_utxo {
        Some(o) => Some(o.value),
        None => match &input.non_witness_utxo {
            Some(t) => {
                let at: usize = vout as usize;
                if at < t.output.len() {
                    assert(t@.output[at as int] == t.output@[at as int]@);
                    Some(t.output[at].value)
                } else {
                    None
                }
            },
            None => None,
        },
    }
}

/// The output that an input at `vout` spends, if the data tells.
pub fn spent_output_of(input: &PsbtInput, vout: u32) -> (r: Option<TxOut>)
    ensures
        r is Some == spent_output(input@, vout) is Some,
        r is Some ==> r->0@ == spent_output(input@, vout)->0,
{
    match &input.witness_utxo {
        Some(o) => Some(o.copy()),
        None => match &input.non_witness_utxo {
            Some(t) => {
                let at: usize = vout as usize;
                if at < t.output.len() {
                    assert(t@.output[at as int] == t.output@[at as int]@);
                    Some(t.output[at].copy())
                } else {
                    None
                }
            },
            None => None,
        },
    }
}

/// Whether every spent output is known, and what the inputs spend, held at
/// one more than all coins that can exist.
fn known_total(tx: &Transaction, inputs: &Vec<PsbtInput>) -> (r: (bool, u64))
    requires
        inputs.len() == tx.input.len(),
    ensures
        r.0 == all_known(parts_view(*tx, inputs@), inputs.len() as int),
        r.1 == if known_input_value(parts_view(*tx, inputs@), inputs.len() as int) > MAX_MONEY {
            MAX_MONEY + 1
        } else {
            known_input_value(parts_view(*tx, inputs@), inputs.len() as int)
        },
{
    let ghost pv = parts_view(*tx, inputs@);
    let mut known: bool = true;
    let mut acc: u64 = 0;
    let mut i: usize = 0;
    while i < inputs.len()
        invariant
            i <= inputs.len(),
            inputs.len() == tx.input.len(),
            pv == parts_view(*tx, inputs@),
            known == all_known(pv, i as int),
            acc <= MAX_MONEY + 1,
            acc == if known_input_value(pv, i as int) > MAX_MONEY {
                MAX_MONEY + 1
            } else {
                known_input_value(pv, i as int)
            },
        decreases inputs.len() - i,
    {
        proof {
            lemma_known_input_value_bounds(pv, i as int);
            assert(pv.inputs[i as int] == inputs@[i as int]@);
            assert(pv.unsigned_tx.input[i as int] == tx.input@[i as int]@);
        }
        match spent_value(&inputs[i], tx.input[i].previous_output.vout) {
            Some(v) => {
                if v > MAX_MONEY + 1 - acc {
                    acc = MAX_MONEY + 1;
                } else {
                    acc = acc + v;
                }
            },
            None => {
                known = false;
            },
        }
        i += 1;
    }
    (known, acc)
}

/// Whether the records `s` stand under distinct keys, each led by a kind of
/// `least` or more.
pub fn records_fit_of(s: &Vec<Entry>, least: u8) -> (r: bool)
    ensures
        r == records_fit(entries_view(s@), least),
{
    if !has_distinct_keys(s) {
        return false;
    }
    let mut i: usize = 0;
    while i < s.len()
        invariant
            i <= s.len(),
            forall|k: int|
                0 <= k < i ==> (#[trigger] entries_view(s@)[k]).key.len() > 0 && entries_view(
                    s@,
                )[k].key[0] >= least,
        decreases s.len() - i,
    {
        assert(entries_view(s@)[i as int] == s@[i as int]@);
        if s[i].key.len() == 0 || s[i].key[0] < least {
            return false;
        }
        i += 1;
    }
    true
}

/// The value of the known inputs does not tell the records about the whole
/// and about the outputs.
pub proof fn lemma_known_value_of_inputs(a: PsbtView, b: PsbtView, n: int)
    requires
        a.unsigned_tx == b.unsigned_tx,
        a.inputs == b.inputs,
    ensures
        known_input_value(a, n) == known_input_value(b, n),
        all_known(a, n) == all_known(b, n),
    decreases n,
{
    if n > 0 {
        lemma_known_value_of_inputs(a, b, n - 1);
    }
}

/// Whether the parts fit each other.
pub fn check_parts(
    tx: &Transaction,
    inputs: &Vec<PsbtInput>,
    globals: &Vec<Entry>,
    outputs: &Vec<Vec<Entry>>,
) -> (r: bool)
    ensures
        r == well_formed(whole_view(*tx, inputs@, globals@, outputs@)),
{
    let ghost pv = whole_view(*tx, inputs@, globals@, outputs@);
    if inputs.len() != tx.input.len() || outputs.len() != tx.output.len() {
        assert(pv.unsigned_tx.output.len() == tx.output.len());
        assert(pv.outputs.len() == outputs.len());
        return false;
    }
    if !records_fit_of(globals, 1) {
        return false;
    }
    let mut j: usize = 0;
    while j < outputs.len()
        invariant
            j <= outputs.len(),
            pv == whole_view(*tx, inputs@, globals@, outputs@),
            forall|k: int| 0 <= k < j ==> records_fit(#[trigger] pv.outputs[k], 0),
        decreases outputs.len() - j,
    {
        assert(pv.outputs[j as int] == entries_view(outputs@[j as int]@));
        if !records_fit_of(&outputs[j], 0) {
            return false;
        }
        j += 1;
    }
    let mut i: usize = 0;
    while i < inputs.len()
        invariant
            i <= inputs.len(),
            inputs.len() == tx.input.len(),
            pv == whole_view(*tx, inputs@, globals@, outputs@),
            forall|k: int|
                0 <= k < i ==> pv.unsigned_tx.input[k].script_sig.len() == 0
                    && pv.unsigned_tx.input[k].witness.len() == 0,
            forall|k: int|
                0 <= k < i ==> input_fits(
                    #[trigger] pv.inputs[k],
                    pv.unsigned_tx.input[k].previous_output.vout,
                ),
        decreases inputs.len() - i,
    {
        proof {
            assert(pv.inputs[i as int] == inputs@[i as int]@);
            assert(pv.unsigned_tx.input[i as int] == tx.input@[i as int]@);
        }
        let input = &inputs[i];
        let vout: u32 = tx.input[i].previous_output.vout;
        if tx.input[i].script_sig.bytes.len() != 0 || tx.input[i].witness.len() != 0 {
            return false;
        }
        if !has_distinct_keys(&input.partial_sigs) || !has_distinct_keys(&input.bip32_derivation)
            || !records_fit_of(&input.other, 7) {
            assert(!input_fits(pv.inputs[i as int], vout));
            return false;
        }
        if input.witness_utxo.is_none() {
            match &input.non_witness_utxo {
                Some(t) => {
                    if vout as usize >= t.output.len() {
                        assert(!input_fits(pv.inputs[i as int], vout));
                        return false;
                    }
                },
                None => {},
            }
        }
        i += 1;
    }
    let (known, total) = known_total(tx, inputs);
    proof {
        lemma_known_value_of_inputs(pv, parts_view(*tx, inputs@), inputs.len() as int);
    }
    if !known {
        return true;
    }
    match sum_out_within(&tx.output) {
        Some(out) => out <= total && total <= MAX_MONEY,
        None => {
            proof {
                lemma_sum_out_push(pv.unsigned_tx.output, pv.unsigned_tx.output[0]);
            }
            false
        },
    }
}

/// `a` where it is there, else `b`.
pub open spec fn first_of<T>(a: Option<T>, b: Option<T>) -> Option<T> {
    match a {
        Some(_) => a,
        None => b,
    }
}

/// What two signers know about one input, put together: of each single
/// item the first signer's where there is one, else the second's; of
/// signatures, hints and other records the union, the second signer's entry
/// counting where both have one under a key.
pub open spec fn merged_input(a: PsbtInputView, b: PsbtInputView) -> PsbtInputView {
    PsbtInputView {
        witness_utxo: first_of(a.witness_utxo, b.witness_utxo),
        non_witness_utxo: first_of(a.non_witness_utxo, b.non_witness_utxo),
        partial_sigs: merged_entries(a.partial_sigs, b.partial_sigs),
        sighash_type: first_of(a.sighash_type, b.sighash_type),
        bip32_derivation: merged_entries(a.bip32_derivation, b.bip32_derivation),
        redeem_script: first_of(a.redeem_script, b.redeem_script),
        witness_script: first_of(a.witness_script, b.witness_script),
        other: merged_entries(a.other, b.other),
    }
}

/// The data of two signers about the same inputs, put together input by input.
pub open spec fn merged_inputs(a: Seq<PsbtInputView>, b: Seq<PsbtInputView>) -> Seq<
    PsbtInputView,
> {
    Seq::new(a.len(), |i: int| merged_input(a[i], b[i]))
}

/// The records of two signers about the same outputs, put together output
/// by output.
pub open spec fn merged_maps(a: Seq<Seq<EntryView>>, b: Seq<Seq<EntryView>>) -> Seq<
    Seq<EntryView>,
> {
    Seq::new(a.len(), |i: int| merged_entries(a[i], b[i]))
}

/// What combining `a` with `b` gives: nothing where they are over different
/// unsigned transactions; else that transaction with the data of both,
/// provided the parts still fit each other.
pub open spec fn combine_spec(a: PsbtView, b: PsbtView) -> Result<PsbtView, WalletError> {
    if a.unsigned_tx != b.unsigned_tx {
        Err(WalletError::ValidationError(Invalid::UnsignedTxMismatch))
    } else {
        let m = PsbtView {
            unsigned_tx: a.unsigned_tx,
            inputs: merged_inputs(a.inputs, b.inputs),
            globals: merged_entries(a.globals, b.globals),
            outputs: merged_maps(a.outputs, b.outputs),
        };
        if well_formed(m) {
            Ok(m)
        } else {
            Err(WalletError::ValidationError(Invalid::PsbtStructure))
        }
    }
}

/// A copy of the first output that is there.
fn first_out(a: &Option<TxOut>, b: &Option<TxOut>) -> (r: Option<TxOut>)
    ensures
        opt_out_view(r) == first_of(opt_out_view(*a), opt_out_view(*b)),
{
    match a {
        Some(x) => Some(x.copy()),
        None => match b {
            Some(y) => Some(y.copy()),
            None => None,
        },
    }
}

/// A copy of the first transaction that is there.
fn first_tx(a: &Option<Transaction>, b: &Option<Transaction>) -> (r: Option<Transaction>)
    ensures
        opt_tx_view(r) == first_of(opt_tx_view(*a), opt_tx_view(*b)),
{
    match a {
        Some(x) => Some(x.copy()),
        None => match b {
            Some(y) => Some(y.copy()),
            None => None,
        },
    }
}

/// A copy of the first script that is there.
fn first_script(a: &Option<Script>, b: &Option<Script>) -> (r: Option<Script>)
    ensures
        opt_script_view(r) == first_of(opt_script_view(*a), opt_script_view(*b)),
{
    match a {
        Some(x) => Some(x.copy()),
        None => match b {
            Some(y) => Some(y.copy()),
            None => None,
        },
    }
}

/// What two signers know about one input, put together.
pub fn merge_input(a: &PsbtInput, b: &PsbtInput) -> (r: PsbtInput)
    ensures
        r@ == merged_input(a@, b@),
{
    PsbtInput {
        witness_utxo: first_out(&a.witness_utxo, &b.witness_utxo),
        non_witness_utxo: first_tx(&a.non_witness_utxo, &b.non_witness_utxo),
        partial_sigs: merge_entries(&a.partial_sigs, &b.partial_sigs),
        sighash_type: match a.sighash_type {
            Some(t) => Some(t),
            None => b.sighash_type,
        },
        bip32_derivation: merge_entries(&a.bip32_derivation, &b.bip32_derivation),
        redeem_script: first_script(&a.redeem_script, &b.redeem_script),
        witness_script: first_script(&a.witness_script, &b.witness_script),
        other: merge_entries(&a.other, &b.other),
    }
}

impl Psbt {
    #[verifier::type_invariant]
    closed spec fn inv(self) -> bool {
        well_formed(self@)
    }

    /// Puts a transaction and the data about its inputs together, provided
    /// they fit each other. There are no further records.
    pub fn new(unsigned_tx: Transaction, inputs: Vec<PsbtInput>) -> (r: Result<Psbt, WalletError>)
        ensures
            well_formed(parts_view(unsigned_tx, inputs@)) ==> r is Ok && r->Ok_0@ == parts_view(
                unsigned_tx,
                inputs@,
            ),
            !well_formed(parts_view(unsigned_tx, inputs@)) ==> r == Err::<Psbt, WalletError>(
                WalletError::ValidationError(Invalid::PsbtStructure),
            ),
    {
        let mut outputs: Vec<Vec<Entry>> = Vec::new();
        let mut i: usize = 0;
        while i < unsigned_tx.output.len()
            invariant
                i <= unsigned_tx.output.len(),
                outputs.len() == i,
                forall|k: int| 0 <= k < i ==> (#[trigger] outputs@[k])@.len() == 0,
            decreases unsigned_tx.output.len() - i,
        {
            outputs.push(Vec::new());
            i += 1;
        }
        let globals: Vec<Entry> = Vec::new();
        proof {
            assert(entries_view(globals@) =~= Seq::<EntryView>::empty());
            assert(unsigned_tx@.output.len() == unsigned_tx.output.len());
            assert(maps_view(outputs@) =~= no_records(unsigned_tx@.output.len())) by {
                assert forall|k: int| 0 <= k < outputs.len() implies maps_view(outputs@)[k]
                    == Seq::<EntryView>::empty() by {
                    assert(entries_view(outputs@[k]@) =~= Seq::<EntryView>::empty());
                }
            }
            assert(whole_view(unsigned_tx, inputs@, globals@, outputs@) == parts_view(
                unsigned_tx,
                inputs@,
            ));
        }
        Psbt::with_records(unsigned_tx, inputs, globals, outputs)
    }

    /// Puts all parts of a partially signed transaction together, provided
    /// they fit each other.
    pub fn with_records(
        unsigned_tx: Transaction,
        inputs: Vec<PsbtInput>,
        globals: Vec<Entry>,
        outputs: Vec<Vec<Entry>>,
    ) -> (r: Result<Psbt, WalletError>)
        ensures
            well_formed(whole_view(unsigned_tx, inputs@, globals@, outputs@)) ==> r is Ok
                && r->Ok_0@ == whole_view(unsigned_tx, inputs@, globals@, outputs@),
            !well_formed(whole_view(unsigned_tx, inputs@, globals@, outputs@)) ==> r == Err::<
                Psbt,
                WalletError,
            >(WalletError::ValidationError(Invalid::PsbtStructure)),
    {
        if check_parts(&unsigned_tx, &inputs, &globals, &outputs) {
            Ok(Psbt { unsigned_tx, inputs, globals, outputs })
        } else {
            Err(WalletError::ValidationError(Invalid::PsbtStructure))
        }
    }

    /// The records about the whole, but for the transaction itself.
    pub fn globals(&self) -> (r: &Vec<Entry>)
        ensures
            entries_view(r@) == self@.globals,
    {
        &self.globals
    }

    /// The records about each output.
    pub fn outputs(&self) -> (r: &Vec<Vec<Entry>>)
        ensures
            maps_view(r@) == self@.outputs,
    {
        &self.outputs
    }

    /// The unsigned transaction.
    pub fn unsigned_tx(&self) -> (r: &Transaction)
        ensures
            r@ == self@.unsigned_tx,
            well_formed(self@),
    {
        proof {
            use_type_invariant(self);
        }
        &self.unsigned_tx
    }

    /// The data about the inputs.
    pub fn inputs(&self) -> (r: &Vec<PsbtInput>)
        ensures
            psbt_ins_view(r@) == self@.inputs,
            well_formed(self@),
    {
        proof {
            use_type_invariant(self);
        }
        &self.inputs
    }

    /// The fee that the transaction pays, where every spent output is known.
    pub fn fee_amount(&self) -> (r: Option<u64>)
        ensures
            r == fee_amount_spec(self@),
    {
        proof {
            use_type_invariant(self);
        }
        let (known, total) = known_total(&self.unsigned_tx, &self.inputs);
        proof {
            lemma_known_value_of_inputs(
                self@,
                parts_view(self.unsigned_tx, self.inputs@),
                self.inputs.len() as int,
            );
        }
        if !known {
            return None;
        }
        match sum_out_within(&self.unsigned_tx.output) {
            Some(out) => Some(total - out),
            None => None,
        }
    }

    /// The fee rate that the transaction pays, in thousandths of a satoshi
    /// per virtual byte of the unsigned transaction, rounded down; where
    /// every spent output is known.
    pub fn fee_rate(&self) -> (r: Option<u64>)
        ensures
            r == fee_rate_spec(self@),
    {
        let fee: u64 = match self.fee_amount() {
            Some(f) => f,
            None => {
                return None;
            },
        };
        proof {
            use_type_invariant(self);
        }
        let weight: u64 = self.unsigned_tx.weight();
        if weight == 0 {
            return None;
        }
        proof {
            crate::builder::lemma_sum_out_push(
                self@.unsigned_tx.output,
                self@.unsigned_tx.output[0],
            );
            lemma_known_value_of_inputs(
                self@,
                parts_view(self.unsigned_tx, self.inputs@),
                self.inputs.len() as int,
            );
            assert(fee <= MAX_MONEY);
        }
        let rate: u128 = (fee as u128 * 4000) / weight as u128;
        Some(rate as u64)
    }

    /// Combines what two signers hold about one unsigned transaction.
    pub fn combine(&self, other: &Psbt) -> (r: Result<Psbt, WalletError>)
        ensures
            match combine_spec(self@, other@) {
                Ok(m) => r is Ok && r->Ok_0@ == m,
                Err(e) => r == Err::<Psbt, WalletError>(e),
            },
    {
        proof {
            use_type_invariant(self);
            use_type_invariant(other);
        }
        if !self.unsigned_tx.same(&other.unsigned_tx) {
            return Err(WalletError::ValidationError(Invalid::UnsignedTxMismatch));
        }
        let ghost av = self@.inputs;
        let ghost bv = other@.inputs;
        let mut inputs: Vec<PsbtInput> = Vec::new();
        let mut i: usize = 0;
        while i < self.inputs.len()
            invariant
                i <= self.inputs.len(),
                self.inputs.len() == other.inputs.len(),
                av == psbt_ins_view(self.inputs@),
                bv == psbt_ins_view(other.inputs@),
                inputs.len() == i,
                forall|k: int| 0 <= k < i ==> (#[trigger] inputs@[k])@ == merged_input(av[k], bv[k]),
            decreases self.inputs.len() - i,
        {
            inputs.push(merge_input(&self.inputs[i], &other.inputs[i]));
            i += 1;
        }
        assert(psbt_ins_view(inputs@) =~= merged_inputs(av, bv));
        let globals: Vec<Entry> = merge_entries(&self.globals, &other.globals);
        let mut outputs: Vec<Vec<Entry>> = Vec::new();
        let mut j: usize = 0;
        while j < self.outputs.len()
            invariant
                j <= self.outputs.len(),
                self.outputs.len() == other.outputs.len(),
                outputs.len() == j,
                forall|k: int|
                    0 <= k < j ==> entries_view((#[trigger] outputs@[k])@) == merged_entries(
                        self@.outputs[k],
                        other@.outputs[k],
                    ),
            decreases self.outputs.len() - j,
        {
            assert(self@.outputs[j as int] == entries_view(self.outputs@[j as int]@));
            assert(other@.outputs[j as int] == entries_view(other.outputs@[j as int]@));
            outputs.push(merge_entries(&self.outputs[j], &other.outputs[j]));
            j += 1;
        }
        assert(maps_view(outputs@) =~= merged_maps(self@.outputs, other@.outputs));
        let tx = self.unsigned_tx.copy();
        Psbt::with_records(tx, inputs, globals, outputs)
    }
}

/// Combining two partially signed transactions over one unsigned
/// transaction gives, for each input, the union of the two sets of
/// signatures: a signature under every public key that one of the two has
/// one under, and under no other. Over different unsigned transactions
/// combining fails.
pub proof fn lemma_combine_union(a: PsbtView, b: PsbtView, i: int)
    requires
        well_formed(a),
        well_formed(b),
        0 <= i < a.inputs.len(),
    ensures
        a.unsigned_tx != b.unsigned_tx ==> combine_spec(a, b) == Err::<PsbtView, WalletError>(
            WalletError::ValidationError(Invalid::UnsignedTxMismatch),
        ),
        combine_spec(a, b) is Ok ==> {
            let m = combine_spec(a, b)->Ok_0;
            &&& m.unsigned_tx == a.unsigned_tx
            &&& m.inputs.len() == a.inputs.len()
            &&& entry_map(m.inputs[i].partial_sigs).dom() == entry_map(
                a.inputs[i].partial_sigs,
            ).dom().union(entry_map(b.inputs[i].partial_sigs).dom())
            &&& entry_map(m.inputs[i].partial_sigs) == entry_map(
                a.inputs[i].partial_sigs,
            ).union_prefer_right(entry_map(b.inputs[i].partial_sigs))
        },
{
    lemma_merge_is_union(a.inputs[i].partial_sigs, b.inputs[i].partial_sigs);
}

/// The version of the transactions that this library builds.
pub const TX_VERSION: i32 = 1;

/// The unsigned input that spends `c` under the sequence number `sequence`.
pub open spec fn planned_txin(c: CoinView, sequence: u32) -> TxInView {
    TxInView {
        previous_output: c.outpoint,
        script_sig: Seq::empty(),
        sequence,
        witness: Seq::empty(),
    }
}

/// What a builder knows about the input that spends `c`: the output spent.
pub open spec fn planned_input(c: CoinView) -> PsbtInputView {
    PsbtInputView {
        witness_utxo: Some(TxOutView { value: c.value, script: c.script }),
        non_witness_utxo: None,
        partial_sigs: Seq::empty(),
        sighash_type: None,
        bip32_derivation: Seq::empty(),
        redeem_script: None,
        witness_script: None,
        other: Seq::empty(),
    }
}

/// The partially signed transaction of a plan: the planned inputs, each
/// under the plan's sequence number and with the output it spends, and the
/// planned outputs; no lock time.
pub open spec fn psbt_of_plan(p: PlanView) -> PsbtView {
    PsbtView {
        unsigned_tx: TransactionView {
            version: TX_VERSION,
            lock_time: 0,
            input: Seq::new(p.inputs.len(), |i: int| planned_txin(p.inputs[i], p.sequence)),
            output: p.outputs,
        },
        inputs: Seq::new(p.inputs.len(), |i: int| planned_input(p.inputs[i])),
        globals: Seq::empty(),
        outputs: no_records(p.outputs.len()),
    }
}

/// Whether a plan is balanced and spends no more than can exist.
pub open spec fn plan_balanced(p: PlanView) -> bool {
    sum_coins(p.inputs) == sum_out(p.outputs) + p.fee && sum_coins(p.inputs) <= MAX_MONEY
}

/// The transaction of a plan knows every output it spends, and they hold
/// what the planned inputs hold.
pub proof fn lemma_plan_inputs_known(p: PlanView, n: int)
    requires
        0 <= n <= p.inputs.len(),
    ensures
        all_known(psbt_of_plan(p), n),
        known_input_value(psbt_of_plan(p), n) == sum_coins(p.inputs.take(n)),
    decreases n,
{
    if n > 0 {
        lemma_plan_inputs_known(p, n - 1);
        assert(p.inputs.take(n).drop_last() =~= p.inputs.take(n - 1));
    }
}

/// The partially signed transaction of a balanced plan is well formed, and
/// the fee it pays is the plan's.
pub proof fn lemma_plan_psbt_well_formed(p: PlanView)
    requires
        plan_balanced(p),
    ensures
        well_formed(psbt_of_plan(p)),
        fee_amount_spec(psbt_of_plan(p)) == Some(p.fee),
{
    lemma_plan_inputs_known(p, p.inputs.len() as int);
    assert(p.inputs.take(p.inputs.len() as int) =~= p.inputs);
}

impl Psbt {
    /// The unsigned transaction that a plan describes, with the output that
    /// each input spends. It fails for a plan whose parts do not fit each
    /// other, which no balanced plan is.
    pub fn from_plan(plan: &TxBuildPlan) -> (r: Result<Psbt, WalletError>)
        ensures
            plan_balanced(plan@) ==> r is Ok,
            r is Ok <==> well_formed(psbt_of_plan(plan@)),
            r is Ok ==> r->Ok_0@ == psbt_of_plan(plan@),
            r is Ok ==> forall|i: int|
                0 <= i < r->Ok_0@.unsigned_tx.input.len()
                    ==> #[trigger] r->Ok_0@.unsigned_tx.input[i].sequence == plan.sequence,
            r is Err ==> r == Err::<Psbt, WalletError>(
                WalletError::ValidationError(Invalid::PsbtStructure),
            ),
    {
        let ghost pv = psbt_of_plan(plan@);
        let mut input: Vec<TxIn> = Vec::new();
        let mut inputs: Vec<PsbtInput> = Vec::new();
        let mut i: usize = 0;
        while i < plan.inputs.len()
            invariant
                i <= plan.inputs.len(),
                input.len() == i,
                inputs.len() == i,
                forall|k: int|
                    0 <= k < i ==> (#[trigger] input@[k])@ == planned_txin(
                        plan@.inputs[k],
                        plan.sequence,
                    ),
                forall|k: int|
                    0 <= k < i ==> (#[trigger] inputs@[k])@ == planned_input(plan@.inputs[k]),
            decreases plan.inputs.len() - i,
        {
            let coin = &plan.inputs[i];
            assert(plan@.inputs[i as int] == coin@);
            let witness: Vec<Vec<u8>> = Vec::new();
            let txin = TxIn {
                previous_output: coin.outpoint,
                script_sig: Script { bytes: Vec::new() },
                sequence: plan.sequence,
                witness,
            };
            assert(txin@.witness =~= Seq::<Seq<u8>>::empty());
            assert(txin@.script_sig =~= Seq::<u8>::empty());
            input.push(txin);
            let entry = PsbtInput {
                witness_utxo: Some(coin.txout.copy()),
                non_witness_utxo: None,
                partial_sigs: Vec::new(),
                sighash_type: None,
                bip32_derivation: Vec::new(),
                redeem_script: None,
                witness_script: None,
                other: Vec::new(),
            };
            assert(entry@.partial_sigs =~= Seq::<EntryView>::empty());
            assert(entry@.bip32_derivation =~= Seq::<EntryView>::empty());
            assert(entry@.other =~= Seq::<EntryView>::empty());
            inputs.push(entry);
            i += 1;
        }
        let tx = Transaction {
            version: TX_VERSION,
            lock_time: 0,
            input,
            output: copy_outs(&plan.outputs),
        };
        proof {
            assert(tx@.input =~= pv.unsigned_tx.input);
            assert(psbt_ins_view(inputs@) =~= pv.inputs);
            assert(parts_view(tx, inputs@) == pv);
            if plan_balanced(plan@) {
                lemma_plan_psbt_well_formed(plan@);
            }
        }
        Psbt::new(tx, inputs)
    }

    /// Whether every input meets the signature requirement of its script.
    pub fn is_complete(&self) -> (r: bool)
        ensures
            r == is_complete(self@),
    {
        proof {
            use_type_invariant(self);
        }
        let mut i: usize = 0;
        while i < self.inputs.len()
            invariant
                i <= self.inputs.len(),
                self.inputs.len() == self.unsigned_tx.input.len(),
                forall|k: int|
                    0 <= k < i ==> meets_requirement(
                        #[trigger] self@.inputs[k],
                        self@.unsigned_tx.input[k].previous_output.vout,
                    ),
            decreases self.inputs.len() - i,
        {
            assert(self@.inputs[i as int] == self.inputs@[i as int]@);
            assert(self@.unsigned_tx.input[i as int] == self.unsigned_tx.input@[i as int]@);
            if finish_input(&self.inputs[i], self.unsigned_tx.input[i].previous_output.vout).is_none() {
                return false;
            }
            i += 1;
        }
        true
    }

    /// The final transaction, where every input meets the signature
    /// requirement of its script.
    pub fn extract_tx(&self) -> (r: Result<Transaction, WalletError>)
        ensures
            r is Ok <==> is_complete(self@),
            match extract_spec(self@) {
                Ok(t) => r is Ok && r->Ok_0@ == t,
                Err(e) => r == Err::<Transaction, WalletError>(e),
            },
    {
        proof {
            use_type_invariant(self);
        }
        let mut input: Vec<TxIn> = Vec::new();
        let mut i: usize = 0;
        while i < self.inputs.len()
            invariant
                i <= self.inputs.len(),
                self.inputs.len() == self.unsigned_tx.input.len(),
                input.len() == i,
                forall|k: int|
                    0 <= k < i ==> meets_requirement(
                        #[trigger] self@.inputs[k],
                        self@.unsigned_tx.input[k].previous_output.vout,
                    ),
                forall|k: int| 0 <= k < i ==> (#[trigger] input@[k])@ == finished_txin(self@, k),
            decreases self.inputs.len() - i,
        {
            assert(self@.inputs[i as int] == self.inputs@[i as int]@);
            assert(self@.unsigned_tx.input[i as int] == self.unsigned_tx.input@[i as int]@);
            let unsigned = &self.unsigned_tx.input[i];
            match finish_input(&self.inputs[i], unsigned.previous_output.vout) {
                Some(done) => {
                    input.push(
                        TxIn {
                            previous_output: unsigned.previous_output,
                            script_sig: done.script_sig,
                            sequence: unsigned.sequence,
                            witness: done.witness,
                        },
                    );
                },
                None => {
                    return Err(WalletError::IncompletePsbt);
                },
            }
            i += 1;
        }
        let tx = Transaction {
            version: self.unsigned_tx.version,
            lock_time: self.unsigned_tx.lock_time,
            input,
            output: copy_outs(&self.unsigned_tx.output),
        };
        assert(tx@.input =~= crate::finalize::finished_tx(self@).input);
        Ok(tx)
    }

    /// The id of the unsigned transaction.
    pub fn txid(&self) -> (r: [u8; 32])
        ensures
            r@ == sha256d_of(base_bytes(self@.unsigned_tx)),
    {
        sha256d(&self.unsigned_tx.base_encoding())
    }
}

/// What a signer is asked to respect.
#[derive(Clone, Copy, Debug, PartialEq, Eq, Structural)]
pub struct SignOptions {
    /// Whether an input is signed on the word of the output given for it,
    /// without the transaction that created it.
    pub trust_witness_utxo: bool,
    /// Whether an input that already meets its signature requirement is
    /// signed again.
    pub sign_complete: bool,
}

/// Whether the input at `i` is to be signed: the output it spends is
/// known, by the whole transaction unless the output alone is trusted; and
/// it does not yet meet its signature requirement, unless such inputs are
/// signed again.
pub open spec fn to_sign(p: PsbtView, options: SignOptions, i: int) -> bool {
    let input = p.inputs[i];
    let vout = p.unsigned_tx.input[i].previous_output.vout;
    spent_output(input, vout) is Some && (options.trust_witness_utxo || input.non_witness_utxo
        is Some) && (options.sign_complete || !meets_requirement(input, vout))
}

/// An input about which nothing is known.
pub open spec fn blank_input() -> PsbtInputView {
    PsbtInputView {
        witness_utxo: None,
        non_witness_utxo: None,
        partial_sigs: Seq::empty(),
        sighash_type: None,
        bip32_derivation: Seq::empty(),
        redeem_script: None,
        witness_script: None,
        other: Seq::empty(),
    }
}

/// What of the signer's data `s` is taken over into `p`: the data about
/// the inputs that were to be signed.
pub open spec fn accepted(p: PsbtView, s: PsbtView, options: SignOptions) -> PsbtView {
    PsbtView {
        globals: s.globals,
        outputs: s.outputs,
        unsigned_tx: s.unsigned_tx,
        inputs: Seq::new(
            s.inputs.len(),
            |i: int|
                if to_sign(p, options, i) {
                    s.inputs[i]
                } else {
                    blank_input()
                },
        ),
    }
}

/// What signing gives: `p` combined with what is accepted of the signer's
/// data.
pub open spec fn sign_spec(p: PsbtView, s: PsbtView, options: SignOptions) -> Result<
    PsbtView,
    WalletError,
> {
    if p.unsigned_tx != s.unsigned_tx {
        Err(WalletError::ValidationError(Invalid::UnsignedTxMismatch))
    } else {
        combine_spec(p, accepted(p, s, options))
    }
}

/// The outcome of a signing pass: the transaction with the signatures, and
/// whether every input now meets its signature requirement.
#[derive(Debug)]
pub struct SignResult {
    pub fully_signed: bool,
    pub psbt: Psbt,
}

impl PsbtInput {
    /// A copy of the data.
    pub fn copy(&self) -> (r: PsbtInput)
        ensures
            r@ == self@,
    {
        PsbtInput {
            witness_utxo: match &self.witness_utxo {
                Some(o) => Some(o.copy()),
                None => None,
            },
            non_witness_utxo: match &self.non_witness_utxo {
                Some(t) => Some(t.copy()),
                None => None,
            },
            partial_sigs: copy_entries(&self.partial_sigs),
            sighash_type: self.sighash_type,
            bip32_derivation: copy_entries(&self.bip32_derivation),
            redeem_script: match &self.redeem_script {
                Some(x) => Some(x.copy()),
                None => None,
            },
            witness_script: match &self.witness_script {
                Some(x) => Some(x.copy()),
                None => None,
            },
            other: copy_entries(&self.other),
        }
    }

    /// An input about which nothing is known.
    pub fn blank() -> (r: PsbtInput)
        ensures
            r@ == blank_input(),
    {
        let r = PsbtInput {
            witness_utxo: None,
            non_witness_utxo: None,
            partial_sigs: Vec::new(),
            sighash_type: None,
            bip32_derivation: Vec::new(),
            redeem_script: None,
            witness_script: None,
            other: Vec::new(),
        };
        assert(r@.partial_sigs =~= Seq::<EntryView>::empty());
        assert(r@.bip32_derivation =~= Seq::<EntryView>::empty());
        assert(r@.other =~= Seq::<EntryView>::empty());
        r
    }
}

impl Psbt {
    /// Which inputs a signer is to sign, input by input.
    pub fn inputs_to_sign(&self, options: SignOptions) -> (r: Vec<bool>)
        ensures
            r.len() == self@.inputs.len(),
            forall|i: int| 0 <= i < r.len() ==> r@[i] == to_sign(self@, options, i),
    {
        proof {
            use_type_invariant(self);
        }
        let mut r: Vec<bool> = Vec::new();
        let mut i: usize = 0;
        while i < self.inputs.len()
            invariant
                i <= self.inputs.len(),
                self.inputs.len() == self.unsigned_tx.input.len(),
                r.len() == i,
                forall|k: int| 0 <= k < i ==> r@[k] == to_sign(self@, options, k),
            decreases self.inputs.len() - i,
        {
            assert(self@.inputs[i as int] == self.inputs@[i as int]@);
            assert(self@.unsigned_tx.input[i as int] == self.unsigned_tx.input@[i as int]@);
            let input = &self.inputs[i];
            let vout: u32 = self.unsigned_tx.input[i].previous_output.vout;
            let known: bool = spent_value(input, vout).is_some();
            let trusted: bool = options.trust_witness_utxo || input.non_witness_utxo.is_some();
            let open: bool = options.sign_complete || finish_input(input, vout).is_none();
            r.push(known && trusted && open);
            i += 1;
        }
        r
    }

    /// Takes over the signatures that a signer made for the inputs that
    /// were to be signed, and says whether the transaction is now complete.
    pub fn sign(&self, signatures: &Psbt, options: SignOptions) -> (r: Result<
        SignResult,
        WalletError,
    >)
        ensures
            match sign_spec(self@, signatures@, options) {
                Ok(m) => r is Ok && r->Ok_0.psbt@ == m && r->Ok_0.fully_signed == is_complete(m),
                Err(e) => r == Err::<SignResult, WalletError>(e),
            },
    {
        proof {
            use_type_invariant(self);
            use_type_invariant(signatures);
        }
        if !self.unsigned_tx.same(&signatures.unsigned_tx) {
            return Err(WalletError::ValidationError(Invalid::UnsignedTxMismatch));
        }
        let chosen: Vec<bool> = self.inputs_to_sign(options);
        let ghost av = accepted(self@, signatures@, options);
        let mut inputs: Vec<PsbtInput> = Vec::new();
        let mut i: usize = 0;
        while i < signatures.inputs.len()
            invariant
                i <= signatures.inputs.len(),
                signatures.inputs.len() == self.inputs.len(),
                chosen.len() == self.inputs.len(),
                forall|k: int| 0 <= k < chosen.len() ==> chosen@[k] == to_sign(self@, options, k),
                av == accepted(self@, signatures@, options),
                inputs.len() == i,
                forall|k: int| 0 <= k < i ==> (#[trigger] inputs@[k])@ == av.inputs[k],
            decreases signatures.inputs.len() - i,
        {
            assert(signatures@.inputs[i as int] == signatures.inputs@[i as int]@);
            if chosen[i] {
                inputs.push(signatures.inputs[i].copy());
            } else {
                inputs.push(PsbtInput::blank());
            }
            i += 1;
        }
        let tx = signatures.unsigned_tx.copy();
        let globals: Vec<Entry> = copy_entries(&signatures.globals);
        let outputs: Vec<Vec<Entry>> = copy_maps(&signatures.outputs);
        proof {
            assert(psbt_ins_view(inputs@) =~= av.inputs);
            assert(whole_view(tx, inputs@, globals@, outputs@) == av);
            let n = av.inputs.len() as int;
            if forall|k: int| 0 <= k < n ==> to_sign(self@, options, k) {
                assert(av.inputs =~= signatures@.inputs);
                assert(av == signatures@);
            } else {
                let k = choose|k: int| 0 <= k < n && !to_sign(self@, options, k);
                assert(av.inputs[k] == blank_input());
                assert(!all_known(av, n));
            }
            assert forall|k: int| 0 <= k < av.inputs.len() implies input_fits(
                #[trigger] av.inputs[k],
                av.unsigned_tx.input[k].previous_output.vout,
            ) by {
                if to_sign(self@, options, k) {
                    assert(input_fits(
                        signatures@.inputs[k],
                        signatures@.unsigned_tx.input[k].previous_output.vout,
                    ));
                }
            }
            assert(well_formed(av));
        }
        let taken: Psbt = match Psbt::with_records(tx, inputs, globals, outputs) {
            Ok(p) => p,
            Err(e) => {
                return Err(e);
            },
        };
        match self.combine(&taken) {
            Ok(psbt) => {
                let fully_signed: bool = psbt.is_complete();
                Ok(SignResult { fully_signed, psbt })
            },
            Err(e) => Err(e),
        }
    }
}

/// The transactions `s`, each by its view where there is one.
pub open spec fn previous_view(s: Seq<Option<Transaction>>) -> Seq<Option<TransactionView>> {
    s.map_values(|t: Option<Transaction>| opt_tx_view(t))
}

/// The data about an input with the transaction `previous` that created
/// the output it spends. It is put beside an output that is given and
/// stands alone; other data stays as it is.
pub open spec fn input_with_previous(
    i: PsbtInputView,
    previous: Option<TransactionView>,
) -> PsbtInputView {
    if i.witness_utxo is Some && i.non_witness_utxo is None {
        PsbtInputView { non_witness_utxo: previous, ..i }
    } else {
        i
    }
}

/// The partially signed transaction `p` with the transactions `previous`,
/// one for each input as far as they go, put to the data of the inputs.
pub open spec fn with_previous_spec(
    p: PsbtView,
    previous: Seq<Option<TransactionView>>,
) -> PsbtView {
    PsbtView {
        inputs: Seq::new(
            p.inputs.len(),
            |i: int|
                input_with_previous(
                    p.inputs[i],
                    if i < previous.len() {
                        previous[i]
                    } else {
                        None
                    },
                ),
        ),
        ..p
    }
}

/// Two partially signed transactions over one transaction whose inputs
/// spend the same outputs know the same inputs, and they hold the same.
pub proof fn lemma_same_spent(a: PsbtView, b: PsbtView, n: int)
    requires
        a.unsigned_tx == b.unsigned_tx,
        a.inputs.len() == b.inputs.len(),
        0 <= n <= a.inputs.len(),
        forall|i: int|
            0 <= i < a.inputs.len() ==> spent_output(
                a.inputs[i],
                a.unsigned_tx.input[i].previous_output.vout,
            ) == spent_output(#[trigger] b.inputs[i], a.unsigned_tx.input[i].previous_output.vout),
    ensures
        all_known(a, n) == all_known(b, n),
        known_input_value(a, n) == known_input_value(b, n),
    decreases n,
{
    if n > 0 {
        lemma_same_spent(a, b, n - 1);
        assert(spent_output(a.inputs[n - 1], a.unsigned_tx.input[n - 1].previous_output.vout)
            == spent_output(b.inputs[n - 1], a.unsigned_tx.input[n - 1].previous_output.vout));
        if all_known(a, n) {
            assert forall|i: int| 0 <= i < n implies spent_output(
                b.inputs[i],
                b.unsigned_tx.input[i].previous_output.vout,
            ) is Some by {
                assert(spent_output(a.inputs[i], a.unsigned_tx.input[i].previous_output.vout)
                    is Some);
            }
        }
        if all_known(b, n) {
            assert forall|i: int| 0 <= i < n implies spent_output(
                a.inputs[i],
                a.unsigned_tx.input[i].previous_output.vout,
            ) is Some by {
                assert(spent_output(b.inputs[i], b.unsigned_tx.input[i].previous_output.vout)
                    is Some);
            }
        }
    }
}

/// What is put to the data of the inputs leaves a partially signed
/// transaction well formed, and its fee as it was.
pub proof fn lemma_with_previous_well_formed(p: PsbtView, previous: Seq<Option<TransactionView>>)
    requires
        well_formed(p),
    ensures
        well_formed(with_previous_spec(p, previous)),
        fee_amount_spec(with_previous_spec(p, previous)) == fee_amount_spec(p),
{
    let q = with_previous_spec(p, previous);
    lemma_same_spent(p, q, p.inputs.len() as int);
    assert forall|i: int| 0 <= i < q.inputs.len() implies input_fits(
        #[trigger] q.inputs[i],
        q.unsigned_tx.input[i].previous_output.vout,
    ) by {
        assert(input_fits(p.inputs[i], p.unsigned_tx.input[i].previous_output.vout));
    }
}

impl Psbt {
    /// Puts to the data of each input the transaction that created the
    /// output it spends, where `previous` holds one for it: a signer that
    /// does not take the output on trust checks it against that
    /// transaction.
    pub fn with_previous(&self, previous: &Vec<Option<Transaction>>) -> (r: Result<
        Psbt,
        WalletError,
    >)
        ensures
            r is Ok,
            r->Ok_0@ == with_previous_spec(self@, previous_view(previous@)),
    {
        proof {
            use_type_invariant(self);
            lemma_with_previous_well_formed(self@, previous_view(previous@));
        }
        let ghost want = with_previous_spec(self@, previous_view(previous@));
        let mut inputs: Vec<PsbtInput> = Vec::new();
        let mut i: usize = 0;
        while i < self.inputs.len()
            invariant
                i <= self.inputs.len(),
                want == with_previous_spec(self@, previous_view(previous@)),
                inputs.len() == i,
                forall|k: int| 0 <= k < i ==> (#[trigger] inputs@[k])@ == want.inputs[k],
            decreases self.inputs.len() - i,
        {
            assert(self@.inputs[i as int] == self.inputs@[i as int]@);
            let mut entry: PsbtInput = self.inputs[i].copy();
            if entry.witness_utxo.is_some() && entry.non_witness_utxo.is_none() {
                if i < previous.len() {
                    assert(previous_view(previous@)[i as int] == opt_tx_view(previous@[i as int]));
                    entry.non_witness_utxo = match &previous[i] {
                        Some(t) => Some(t.copy()),
                        None => None,
                    };
                }
            }
            inputs.push(entry);
            i += 1;
        }
        let tx = self.unsigned_tx.copy();
        let globals: Vec<Entry> = copy_entries(&self.globals);
        let outputs: Vec<Vec<Entry>> = copy_maps(&self.outputs);
        proof {
            assert(psbt_ins_view(inputs@) =~= want.inputs);
            assert(whole_view(tx, inputs@, globals@, outputs@) == want);
        }
        Psbt::with_records(tx, inputs, globals, outputs)
    }
}

} // verus!
