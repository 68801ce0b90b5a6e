//! What satisfies the script of an input, assembled from the signatures at
//! hand. An input is complete when its script can be satisfied.

use vstd::prelude::*;
use crate::error::WalletError;
use crate::primitives::{hash160, hash160_of};
use crate::psbt::{
    entries_view, find_key, has_key, spent_output, spent_output_of, Entry, EntryView, PsbtInput,
    PsbtInputView, PsbtView,
};
use crate::script::{
    is_p2pkh, is_p2sh, is_p2wpkh, is_p2wsh, multisig_of, push_data, push_data_to, slice_bytes,
    Multisig, MultisigView,
};
use crate::tx::{TransactionView, TxInView};
use crate::types::{copy_bytes, items_view, Script};

verus! {

/// The first of `sigs` whose key hashes to `h`.
pub open spec fn signer_of(sigs: Seq<EntryView>, h: Seq<u8>) -> Option<EntryView>
    decreases sigs.len(),
{
    if sigs.len() == 0 {
        None
    } else if hash160_of(sigs[0].key) == h {
        Some(sigs[0])
    } else {
        signer_of(sigs.drop_first(), h)
    }
}

/// What the first entry of `sigs` under `key` holds.
pub open spec fn value_under(sigs: Seq<EntryView>, key: Seq<u8>) -> Seq<u8>
    decreases sigs.len(),
{
    if sigs.len() == 0 {
        Seq::empty()
    } else if sigs[0].key == key {
        sigs[0].value
    } else {
        value_under(sigs.drop_first(), key)
    }
}

/// The signatures under the keys `keys`, in the order of the keys; a key
/// without a signature is passed over.
pub open spec fn sigs_in_key_order(keys: Seq<Seq<u8>>, sigs: Seq<EntryView>) -> Seq<Seq<u8>>
    decreases keys.len(),
{
    if keys.len() == 0 {
        Seq::empty()
    } else if has_key(sigs, keys.last()) {
        sigs_in_key_order(keys.drop_last(), sigs).push(value_under(sigs, keys.last()))
    } else {
        sigs_in_key_order(keys.drop_last(), sigs)
    }
}

/// What satisfies a script that pays to the key hash `h`: a signature and
/// the public key it is under, which hashes to `h`.
pub open spec fn key_satisfaction(sigs: Seq<EntryView>, h: Seq<u8>) -> Option<Seq<Seq<u8>>> {
    match signer_of(sigs, h) {
        Some(e) => Some(seq![e.value, e.key]),
        None => None,
    }
}

/// What satisfies a multi-signature script: the empty item that the opcode
/// consumes besides, then as many signatures as the threshold says, in the
/// order of their keys in the script. None while too few keys have signed.
pub open spec fn multisig_satisfaction(sigs: Seq<EntryView>, ms: MultisigView) -> Option<
    Seq<Seq<u8>>,
> {
    let found = sigs_in_key_order(ms.keys, sigs);
    if found.len() >= ms.threshold {
        Some(seq![Seq::<u8>::empty()] + found.take(ms.threshold as int))
    } else {
        None
    }
}

/// What satisfies a script that is run as it stands: one that pays to a key
/// hash, or a multi-signature script.
pub open spec fn script_satisfaction(sigs: Seq<EntryView>, script: Seq<u8>) -> Option<
    Seq<Seq<u8>>,
> {
    if is_p2pkh(script) {
        key_satisfaction(sigs, script.subrange(3, 23))
    } else {
        match multisig_of(script) {
            Some(ms) => multisig_satisfaction(sigs, ms),
            None => None,
        }
    }
}

/// The witness that satisfies a version 0 program: for a key hash, signature
/// and key; for a script hash, what satisfies the multi-signature script
/// behind it, then that script.
pub open spec fn witness_satisfaction(
    sigs: Seq<EntryView>,
    program: Seq<u8>,
    witness_script: Option<Seq<u8>>,
) -> Option<Seq<Seq<u8>>> {
    if is_p2wpkh(program) {
        key_satisfaction(sigs, program.subrange(2, 22))
    } else if is_p2wsh(program) && witness_script is Some && multisig_of(witness_script->0)
        is Some {
        match multisig_satisfaction(sigs, multisig_of(witness_script->0)->0) {
            Some(items) => Some(items.push(witness_script->0)),
            None => None,
        }
    } else {
        None
    }
}

/// The script that pushes each of `items`, one after the other.
pub open spec fn pushes(items: Seq<Seq<u8>>) -> Seq<u8>
    decreases items.len(),
{
    if items.len() == 0 {
        Seq::empty()
    } else {
        pushes(items.drop_last()) + push_data(items.last())
    }
}

/// What a finished input carries, in contracts.
pub struct FinishedView {
    pub script_sig: Seq<u8>,
    pub witness: Seq<Seq<u8>>,
}

/// What a finished input carries: its signature script and its witness.
#[derive(Clone, Debug)]
pub struct Finished {
    pub script_sig: Script,
    pub witness: Vec<Vec<u8>>,
}

impl View for Finished {
    type V = FinishedView;

    open spec fn view(&self) -> FinishedView {
        FinishedView { script_sig: self.script_sig@, witness: items_view(self.witness@) }
    }
}

/// What finishes an input that spends `script`, given the signatures and the
/// scripts behind script hashes. A script hash is satisfied through the
/// redeem script given: a version 0 program through its witness, any other
/// by what satisfies it and the redeem script itself. A version 0 program is
/// satisfied by its witness; any other script by what satisfies it as it
/// stands. None where the signatures do not suffice or the script is of no
/// such form.
pub open spec fn finished_for(i: PsbtInputView, script: Seq<u8>) -> Option<FinishedView> {
    if is_p2sh(script) {
        match i.redeem_script {
            None => None,
            Some(r) => if is_p2wpkh(r) || is_p2wsh(r) {
                match witness_satisfaction(i.partial_sigs, r, i.witness_script) {
                    Some(w) => Some(FinishedView { script_sig: push_data(r), witness: w }),
                    None => None,
                }
            } else {
                match script_satisfaction(i.partial_sigs, r) {
                    Some(items) => Some(
                        FinishedView {
                            script_sig: pushes(items) + push_data(r),
                            witness: Seq::empty(),
                        },
                    ),
                    None => None,
                }
            },
        }
    } else if is_p2wpkh(script) || is_p2wsh(script) {
        match witness_satisfaction(i.partial_sigs, script, i.witness_script) {
            Some(w) => Some(FinishedView { script_sig: Seq::empty(), witness: w }),
            None => None,
        }
    } else {
        match script_satisfaction(i.partial_sigs, script) {
            Some(items) => Some(FinishedView { script_sig: pushes(items), witness: Seq::empty() }),
            None => None,
        }
    }
}

/// What finishes an input at `vout`: None where the output it spends is not
/// known, or where that output's script cannot be satisfied yet.
pub open spec fn finished_input(i: PsbtInputView, vout: u32) -> Option<FinishedView> {
    match spent_output(i, vout) {
        Some(o) => finished_for(i, o.script),
        None => None,
    }
}

/// Whether an input at `vout` meets the signature requirement of the script
/// it spends.
pub open spec fn meets_requirement(i: PsbtInputView, vout: u32) -> bool {
    finished_input(i, vout) is Some
}

/// The first entry under a key holds what is found under that key.
pub proof fn lemma_value_under(sigs: Seq<EntryView>, key: Seq<u8>, i: int)
    requires
        0 <= i < sigs.len(),
        sigs[i].key == key,
        forall|k: int| 0 <= k < i ==> sigs[k].key != key,
    ensures
        value_under(sigs, key) == sigs[i].value,
    decreases i,
{
    if i > 0 {
        let rest = sigs.drop_first();
        assert(rest[i - 1] == sigs[i]);
        assert forall|k: int| 0 <= k < i - 1 implies rest[k].key != key by {
            assert(rest[k] == sigs[k + 1]);
        }
        lemma_value_under(rest, key, i - 1);
    }
}

/// The place of the first of `sigs` whose key hashes to `h`.
pub fn find_signer(sigs: &Vec<Entry>, h: &Vec<u8>) -> (r: Option<usize>)
    ensures
        r is Some == signer_of(entries_view(sigs@), h@) is Some,
        r is Some ==> r->0 < sigs.len() && sigs@[r->0 as int]@ == signer_of(
            entries_view(sigs@),
            h@,
        )->0,
{
    let ghost all = entries_view(sigs@);
    let mut i: usize = 0;
    assert(all.skip(0) =~= all);
    while i < sigs.len()
        invariant
            i <= sigs.len(),
            all == entries_view(sigs@),
            signer_of(all, h@) == signer_of(all.skip(i as int), h@),
        decreases sigs.len() - i,
    {
        let digest: [u8; 20] = hash160(&sigs[i].key);
        proof {
            assert(all.skip(i as int)[0] == sigs@[i as int]@);
            assert(all.skip(i as int).drop_first() =~= all.skip(i + 1));
        }
        if h.len() == 20 && same_digest(&digest, h) {
            return Some(i);
        }
        i += 1;
    }
    assert(all.skip(sigs.len() as int).len() == 0);
    None
}

/// Whether the twenty bytes of `digest` are the bytes of `h`.
fn same_digest(digest: &[u8; 20], h: &Vec<u8>) -> (r: bool)
    requires
        h.len() == 20,
    ensures
        r == (digest@ == h@),
{
    let mut i: usize = 0;
    while i < 20
        invariant
            i <= 20,
            h.len() == 20,
            forall|k: int| 0 <= k < i ==> digest@[k] == h@[k],
        decreases 20 - i,
    {
        if digest[i] != h[i] {
            return false;
        }
        i += 1;
    }
    assert(digest@ =~= h@);
    true
}

/// What satisfies a script that pays to the key hash `h`.
pub fn key_satisfaction_of(sigs: &Vec<Entry>, h: &Vec<u8>) -> (r: Option<Vec<Vec<u8>>>)
    ensures
        r is Some == key_satisfaction(entries_view(sigs@), h@) is Some,
        r is Some ==> items_view(r->0@) == key_satisfaction(entries_view(sigs@), h@)->0,
{
    match find_signer(sigs, h) {
        Some(at) => {
            let mut items: Vec<Vec<u8>> = Vec::new();
            items.push(copy_bytes(&sigs[at].value));
            items.push(copy_bytes(&sigs[at].key));
            assert(items_view(items@) =~= seq![sigs@[at as int]@.value, sigs@[at as int]@.key]);
            Some(items)
        },
        None => None,
    }
}

/// What satisfies the multi-signature script `ms`.
pub fn multisig_satisfaction_of(sigs: &Vec<Entry>, ms: &Multisig) -> (r: Option<Vec<Vec<u8>>>)
    ensures
        r is Some == multisig_satisfaction(entries_view(sigs@), ms@) is Some,
        r is Some ==> items_view(r->0@) == multisig_satisfaction(entries_view(sigs@), ms@)->0,
{
    let ghost sv = entries_view(sigs@);
    let ghost kv = items_view(ms.keys@);
    let mut found: Vec<Vec<u8>> = Vec::new();
    let mut i: usize = 0;
    assert(items_view(found@) =~= sigs_in_key_order(kv.take(0), sv));
    while i < ms.keys.len()
        invariant
            i <= ms.keys.len(),
            sv == entries_view(sigs@),
            kv == items_view(ms.keys@),
            items_view(found@) == sigs_in_key_order(kv.take(i as int), sv),
        decreases ms.keys.len() - i,
    {
        proof {
            assert(kv.take(i + 1).drop_last() =~= kv.take(i as int));
            assert(kv.take(i + 1).last() == ms.keys@[i as int]@);
        }
        match find_key(sigs, &ms.keys[i]) {
            Some(at) => {
                proof {
                    lemma_value_under(sv, ms.keys@[i as int]@, at as int);
                }
                let ghost before = found@;
                found.push(copy_bytes(&sigs[at].value));
                assert(items_view(found@) =~= items_view(before).push(sigs@[at as int]@.value));
            },
            None => {},
        }
        i += 1;
    }
    assert(kv.take(ms.keys.len() as int) =~= kv);
    if found.len() < ms.threshold {
        return None;
    }
    let mut items: Vec<Vec<u8>> = Vec::new();
    items.push(Vec::new());
    let ghost all = items_view(found@);
    let mut j: usize = 0;
    assert(items_view(items@) =~= seq![Seq::<u8>::empty()] + all.take(0));
    while j < ms.threshold
        invariant
            j <= ms.threshold <= found.len(),
            all == items_view(found@),
            items_view(items@) == seq![Seq::<u8>::empty()] + all.take(j as int),
        decreases ms.threshold - j,
    {
        let ghost before = items@;
        items.push(copy_bytes(&found[j]));
        proof {
            assert(items_view(items@) =~= items_view(before).push(found@[j as int]@));
            assert(items_view(items@) =~= seq![Seq::<u8>::empty()] + all.take(j + 1));
        }
        j += 1;
    }
    Some(items)
}

/// What satisfies a script that is run as it stands.
pub fn script_satisfaction_of(sigs: &Vec<Entry>, script: &Script) -> (r: Option<Vec<Vec<u8>>>)
    ensures
        r is Some == script_satisfaction(entries_view(sigs@), script@) is Some,
        r is Some ==> items_view(r->0@) == script_satisfaction(entries_view(sigs@), script@)->0,
{
    if script.is_p2pkh() {
        let h: Vec<u8> = slice_bytes(&script.bytes, 3, 23);
        key_satisfaction_of(sigs, &h)
    } else {
        match script.multisig() {
            Some(ms) => multisig_satisfaction_of(sigs, &ms),
            None => None,
        }
    }
}

/// The witness that satisfies a version 0 program.
pub fn witness_satisfaction_of(
    sigs: &Vec<Entry>,
    program: &Script,
    witness_script: &Option<Script>,
) -> (r: Option<Vec<Vec<u8>>>)
    ensures
        r is Some == witness_satisfaction(
            entries_view(sigs@),
            program@,
            crate::psbt::opt_script_view(*witness_script),
        ) is Some,
        r is Some ==> items_view(r->0@) == witness_satisfaction(
            entries_view(sigs@),
            program@,
            crate::psbt::opt_script_view(*witness_script),
        )->0,
{
    if program.is_p2wpkh() {
        let h: Vec<u8> = slice_bytes(&program.bytes, 2, 22);
        return key_satisfaction_of(sigs, &h);
    }
    if !program.is_p2wsh() {
        return None;
    }
    match witness_script {
        Some(w) => match w.multisig() {
            Some(ms) => match multisig_satisfaction_of(sigs, &ms) {
                Some(mut items) => {
                    let ghost before = items@;
                    items.push(copy_bytes(&w.bytes));
                    assert(items_view(items@) =~= items_view(before).push(w@));
                    Some(items)
                },
                None => None,
            },
            None => None,
        },
        None => None,
    }
}

/// The script that pushes each of `items`.
pub fn pushes_of(items: &Vec<Vec<u8>>) -> (r: Vec<u8>)
    ensures
        r@ == pushes(items_view(items@)),
{
    let ghost all = items_view(items@);
    let mut out: Vec<u8> = Vec::new();
    let mut i: usize = 0;
    assert(out@ =~= pushes(all.take(0)));
    while i < items.len()
        invariant
            i <= items.len(),
            all == items_view(items@),
            out@ == pushes(all.take(i as int)),
        decreases items.len() - i,
    {
        proof {
            assert(all.take(i + 1).drop_last() =~= all.take(i as int));
            assert(all.take(i + 1).last() == items@[i as int]@);
        }
        push_data_to(&mut out, &items[i]);
        i += 1;
    }
    assert(all.take(items.len() as int) =~= all);
    out
}

/// What finishes an input that spends `script`.
pub fn finish_for(input: &PsbtInput, script: &Script) -> (r: Option<Finished>)
    ensures
        r is Some == finished_for(input@, script@) is Some,
        r is Some ==> r->0@ == finished_for(input@, script@)->0,
{
    let sigs = &input.partial_sigs;
    if script.is_p2sh() {
        match &input.redeem_script {
            None => None,
            Some(redeem) => {
                if redeem.is_p2wpkh() || redeem.is_p2wsh() {
                    match witness_satisfaction_of(sigs, redeem, &input.witness_script) {
                        Some(witness) => {
                            let mut script_sig: Vec<u8> = Vec::new();
                            push_data_to(&mut script_sig, &redeem.bytes);
                            assert(script_sig@ =~= push_data(redeem@));
                            Some(Finished { script_sig: Script { bytes: script_sig }, witness })
                        },
                        None => None,
                    }
                } else {
                    match script_satisfaction_of(sigs, redeem) {
                        Some(items) => {
                            let mut script_sig: Vec<u8> = pushes_of(&items);
                            push_data_to(&mut script_sig, &redeem.bytes);
                            let witness: Vec<Vec<u8>> = Vec::new();
                            assert(items_view(witness@) =~= Seq::<Seq<u8>>::empty());
                            Some(Finished { script_sig: Script { bytes: script_sig }, witness })
                        },
                        None => None,
                    }
                }
            },
        }
    } else if script.is_p2wpkh() || script.is_p2wsh() {
        match witness_satisfaction_of(sigs, script, &input.witness_script) {
            Some(witness) => Some(Finished { script_sig: Script { bytes: Vec::new() }, witness }),
            None => None,
        }
    } else {
        match script_satisfaction_of(sigs, script) {
            Some(items) => {
                let witness: Vec<Vec<u8>> = Vec::new();
                assert(items_view(witness@) =~= Seq::<Seq<u8>>::empty());
                Some(Finished { script_sig: Script { bytes: pushes_of(&items) }, witness })
            },
            None => None,
        }
    }
}

/// What finishes an input at `vout`.
pub fn finish_input(input: &PsbtInput, vout: u32) -> (r: Option<Finished>)
    ensures
        r is Some == meets_requirement(input@, vout),
        r is Some ==> r->0@ == finished_input(input@, vout)->0,
{
    match spent_output_of(input, vout) {
        Some(o) => finish_for(input, &o.script_pubkey),
        None => None,
    }
}

/// Whether every input meets the signature requirement of the script it
/// spends.
pub open spec fn is_complete(p: PsbtView) -> bool {
    forall|i: int|
        0 <= i < p.inputs.len() ==> meets_requirement(
            #[trigger] p.inputs[i],
            p.unsigned_tx.input[i].previous_output.vout,
        )
}

/// The input at `i` of the final transaction: that of the unsigned
/// transaction with what finishes it.
pub open spec fn finished_txin(p: PsbtView, i: int) -> TxInView {
    let done = finished_input(p.inputs[i], p.unsigned_tx.input[i].previous_output.vout)->0;
    TxInView {
        previous_output: p.unsigned_tx.input[i].previous_output,
        script_sig: done.script_sig,
        sequence: p.unsigned_tx.input[i].sequence,
        witness: done.witness,
    }
}

/// The final transaction: the unsigned one, each input finished.
pub open spec fn finished_tx(p: PsbtView) -> TransactionView {
    TransactionView {
        version: p.unsigned_tx.version,
        lock_time: p.unsigned_tx.lock_time,
        input: Seq::new(p.inputs.len(), |i: int| finished_txin(p, i)),
        output: p.unsigned_tx.output,
    }
}

/// What extraction gives: the final transaction where every input meets its
/// signature requirement, else no transaction.
pub open spec fn extract_spec(p: PsbtView) -> Result<TransactionView, WalletError> {
    if is_complete(p) {
        Ok(finished_tx(p))
    } else {
        Err(WalletError::IncompletePsbt)
    }
}

/// Extraction succeeds if and only if every input meets the signature
/// requirement of its script; otherwise it fails as incomplete.
pub proof fn lemma_extract_iff_complete(p: PsbtView)
    ensures
        extract_spec(p) is Ok <==> is_complete(p),
        !is_complete(p) ==> extract_spec(p) == Err::<TransactionView, WalletError>(
            WalletError::IncompletePsbt,
        ),
{
}

} // verus!
