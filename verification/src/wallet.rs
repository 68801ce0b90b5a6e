//! What the wallet's state reports to this library: transactions of its
//! history and its balance.

use vstd::prelude::*;
use crate::address::{address_encoded, encode_address};
use crate::descriptor::{descriptor_script, descriptor_weight, satisfaction_weight, script_at};
use crate::error::WalletError;
use crate::fee::{cap64, MAX_MONEY};
use crate::tx::{Transaction, TransactionView};
use crate::tx_builder::{utxos_view, LocalUtxo, LocalUtxoView, SatisfactionWeights};
use crate::types::{
    coins_view, outs_view, same_txid, sum_coins, sum_out, Coin, CoinView, InputOrigin,
    KeychainKind, Network, Script, TxOut, TxOutView,
};

verus! {

/// When a transaction was confirmed.
#[derive(Clone, Copy, Debug, PartialEq, Eq, Structural)]
pub struct BlockTime {
    pub height: u32,
    pub timestamp: u64,
}

/// What an entry of the history is in contracts.
pub struct DetailsView {
    pub txid: [u8; 32],
    pub transaction: Option<TransactionView>,
    pub received: u64,
    pub sent: u64,
    pub fee: Option<u64>,
    pub confirmation_time: Option<BlockTime>,
}

/// A transaction of the wallet's history: what the wallet received through
/// it and sent with it, the fee where known, and when it was confirmed, if
/// it was.
#[derive(Clone, Debug)]
pub struct TransactionDetails {
    pub txid: [u8; 32],
    pub transaction: Option<Transaction>,
    pub received: u64,
    pub sent: u64,
    pub fee: Option<u64>,
    pub confirmation_time: Option<BlockTime>,
}

impl View for TransactionDetails {
    type V = DetailsView;

    open spec fn view(&self) -> DetailsView {
        DetailsView {
            txid: self.txid,
            transaction: match self.transaction {
                Some(t) => Some(t@),
                None => None,
            },
            received: self.received,
            sent: self.sent,
            fee: self.fee,
            confirmation_time: self.confirmation_time,
        }
    }
}

/// The entries of `s`, each by its view.
pub open spec fn history_view(s: Seq<TransactionDetails>) -> Seq<DetailsView> {
    s.map_values(|d: TransactionDetails| d@)
}

/// The scripts of `s`, each by its view.
pub open spec fn scripts_view(s: Seq<Script>) -> Seq<Seq<u8>> {
    s.map_values(|x: Script| x@)
}

/// The number of blocks after which the outputs of a transaction that
/// creates coins can be spent.
pub const COINBASE_MATURITY: u32 = 100;

/// What a wallet is in contracts.
pub struct WalletView {
    pub descriptor: Seq<char>,
    pub change_descriptor: Option<Seq<char>>,
    pub network: Network,
    pub utxos: Seq<LocalUtxoView>,
    pub transactions: Seq<DetailsView>,
    pub scripts: Seq<Seq<u8>>,
    pub last_external: Option<u32>,
    pub last_internal: Option<u32>,
    pub sync_height: Option<u32>,
}

/// A wallet: its two descriptors and its network, and the state that
/// synchronisation with the chain maintains: the outputs it owns, its
/// history, the scripts it has handed out, the last index used on each
/// keychain, and the height it was last synchronised at.
#[derive(Clone, Debug)]
pub struct Wallet {
    pub descriptor: String,
    pub change_descriptor: Option<String>,
    pub network: Network,
    pub utxos: Vec<LocalUtxo>,
    pub transactions: Vec<TransactionDetails>,
    pub scripts: Vec<Script>,
    pub last_external: Option<u32>,
    pub last_internal: Option<u32>,
    pub sync_height: Option<u32>,
}

impl View for Wallet {
    type V = WalletView;

    open spec fn view(&self) -> WalletView {
        WalletView {
            descriptor: self.descriptor@,
            change_descriptor: match self.change_descriptor {
                Some(d) => Some(d@),
                None => None,
            },
            network: self.network,
            utxos: utxos_view(self.utxos@),
            transactions: history_view(self.transactions@),
            scripts: scripts_view(self.scripts@),
            last_external: self.last_external,
            last_internal: self.last_internal,
            sync_height: self.sync_height,
        }
    }
}

/// The balance of a wallet, by how far its parts can be relied on.
#[derive(Clone, Copy, Debug, PartialEq, Eq, Structural)]
pub struct Balance {
    /// Outputs of confirmed transactions that create coins, not yet mature.
    pub immature: u64,
    /// Unconfirmed outputs that the wallet paid to itself.
    pub trusted_pending: u64,
    /// Unconfirmed outputs that others paid to the wallet.
    pub untrusted_pending: u64,
    /// Confirmed and mature outputs.
    pub confirmed: u64,
    /// What can be spent now: confirmed and trusted pending.
    pub spendable: u64,
    /// All four parts together.
    pub total: u64,
}

/// The part of the balance that an output counts towards.
#[derive(Clone, Copy, Debug, PartialEq, Eq, Structural)]
pub enum Standing {
    Immature,
    TrustedPending,
    UntrustedPending,
    Confirmed,
}

/// The first entry of the history with the id `txid`.
pub open spec fn find_details(history: Seq<DetailsView>, txid: [u8; 32]) -> Option<DetailsView>
    decreases history.len(),
{
    if history.len() == 0 {
        None
    } else if history[0].txid == txid {
        Some(history[0])
    } else {
        find_details(history.drop_first(), txid)
    }
}

/// Whether the transaction of `d` creates coins that are not mature at the
/// height `sync_height`: it is known whole, creates coins, and fewer
/// than a hundred blocks lie between its confirmation and that height.
pub open spec fn is_immature(d: DetailsView, sync_height: Option<u32>) -> bool {
    d.transaction is Some && crate::tx::is_coin_base_spec(d.transaction->0) && sync_height
        is Some && d.confirmation_time is Some && sync_height->0
        - d.confirmation_time->0.height < COINBASE_MATURITY
}

/// The part of the balance that the output `u` counts towards. An output of
/// a transaction that the history lacks, or holds as unconfirmed, is
/// pending: trusted on the change keychain, untrusted on the other.
pub open spec fn standing(u: LocalUtxoView, w: WalletView) -> Standing {
    match find_details(w.transactions, u.outpoint.txid) {
        Some(d) => if d.confirmation_time is Some {
            if is_immature(d, w.sync_height) {
                Standing::Immature
            } else {
                Standing::Confirmed
            }
        } else if u.keychain == KeychainKind::Internal {
            Standing::TrustedPending
        } else {
            Standing::UntrustedPending
        },
        None => if u.keychain == KeychainKind::Internal {
            Standing::TrustedPending
        } else {
            Standing::UntrustedPending
        },
    }
}

/// What the first `n` outputs of the wallet that are not spent hold in the
/// part `part` of the balance.
pub open spec fn part_sum(w: WalletView, part: Standing, n: int) -> int
    decreases n,
{
    if n <= 0 {
        0
    } else {
        part_sum(w, part, n - 1) + if !w.utxos[n - 1].is_spent && standing(w.utxos[n - 1], w)
            == part {
            w.utxos[n - 1].value as int
        } else {
            0
        }
    }
}

/// The whole of a part of the balance.
pub open spec fn part_total(w: WalletView, part: Standing) -> int {
    part_sum(w, part, w.utxos.len() as int)
}

/// The balance of the wallet; each amount is held at the largest `u64`.
pub open spec fn balance_spec(w: WalletView) -> Balance {
    Balance {
        immature: cap64(part_total(w, Standing::Immature)) as u64,
        trusted_pending: cap64(part_total(w, Standing::TrustedPending)) as u64,
        untrusted_pending: cap64(part_total(w, Standing::UntrustedPending)) as u64,
        confirmed: cap64(part_total(w, Standing::Confirmed)) as u64,
        spendable: cap64(
            part_total(w, Standing::Confirmed) + part_total(w, Standing::TrustedPending),
        ) as u64,
        total: cap64(
            part_total(w, Standing::Immature) + part_total(w, Standing::TrustedPending)
                + part_total(w, Standing::UntrustedPending) + part_total(w, Standing::Confirmed),
        ) as u64,
    }
}

/// The outputs of `utxos` that are not spent, in their order.
pub open spec fn unspent(utxos: Seq<LocalUtxoView>) -> Seq<LocalUtxoView>
    decreases utxos.len(),
{
    if utxos.len() == 0 {
        Seq::empty()
    } else if utxos.last().is_spent {
        unspent(utxos.drop_last())
    } else {
        unspent(utxos.drop_last()).push(utxos.last())
    }
}

/// Whether `script` is one of `scripts`.
pub open spec fn holds_script(scripts: Seq<Seq<u8>>, script: Seq<u8>) -> bool {
    exists|i: int| 0 <= i < scripts.len() && scripts[i] == script
}

/// No part of the balance is negative.
pub proof fn lemma_part_sum_bounds(w: WalletView, part: Standing, n: int)
    ensures
        0 <= part_sum(w, part, n),
    decreases n,
{
    if n > 0 {
        lemma_part_sum_bounds(w, part, n - 1);
    }
}

/// The sum of `a` and `b`, held at the largest `u64`.
pub fn cap_add64(a: u64, b: u64) -> (r: u64)
    ensures
        r == cap64(a + b),
{
    if a > u64::MAX - b {
        u64::MAX
    } else {
        a + b
    }
}

impl Wallet {
    /// The place in the history of the first entry with the id `txid`.
    pub fn find_transaction(&self, txid: &[u8; 32]) -> (r: Option<usize>)
        ensures
            r is Some == find_details(self@.transactions, *txid) is Some,
            r is Some ==> r->0 < self.transactions.len() && self.transactions@[r->0 as int]@
                == find_details(self@.transactions, *txid)->0,
    {
        let ghost all = history_view(self.transactions@);
        let mut i: usize = 0;
        assert(all.skip(0) =~= all);
        while i < self.transactions.len()
            invariant
                i <= self.transactions.len(),
                all == history_view(self.transactions@),
                find_details(all, *txid) == find_details(all.skip(i as int), *txid),
            decreases self.transactions.len() - i,
        {
            proof {
                assert(all.skip(i as int)[0] == self.transactions@[i as int]@);
                assert(all.skip(i as int).drop_first() =~= all.skip(i + 1));
            }
            if same_txid(&self.transactions[i].txid, txid) {
                return Some(i);
            }
            i += 1;
        }
        assert(all.skip(self.transactions.len() as int).len() == 0);
        None
    }

    /// The part of the balance that the output `u` counts towards.
    pub fn standing_of(&self, u: &LocalUtxo) -> (r: Standing)
        ensures
            r == standing(u@, self@),
    {
        let pending: Standing = match u.keychain {
            KeychainKind::Internal => Standing::TrustedPending,
            KeychainKind::External => Standing::UntrustedPending,
        };
        match self.find_transaction(&u.outpoint.txid) {
            None => pending,
            Some(at) => {
                let d = &self.transactions[at];
                match d.confirmation_time {
                    None => pending,
                    Some(time) => {
                        let immature: bool = match (&d.transaction, self.sync_height) {
                            (Some(tx), Some(height)) => tx.is_coin_base() && (height as i64)
                                - (time.height as i64) < COINBASE_MATURITY as i64,
                            _ => false,
                        };
                        if immature {
                            Standing::Immature
                        } else {
                            Standing::Confirmed
                        }
                    },
                }
            },
        }
    }

    /// The balance of the wallet.
    pub fn get_balance(&self) -> (r: Balance)
        ensures
            r == balance_spec(self@),
    {
        let ghost w = self@;
        let mut immature: u64 = 0;
        let mut trusted: u64 = 0;
        let mut untrusted: u64 = 0;
        let mut confirmed: u64 = 0;
        let mut i: usize = 0;
        while i < self.utxos.len()
            invariant
                i <= self.utxos.len(),
                w == self@,
                immature == cap64(part_sum(w, Standing::Immature, i as int)),
                trusted == cap64(part_sum(w, Standing::TrustedPending, i as int)),
                untrusted == cap64(part_sum(w, Standing::UntrustedPending, i as int)),
                confirmed == cap64(part_sum(w, Standing::Confirmed, i as int)),
            decreases self.utxos.len() - i,
        {
            proof {
                lemma_part_sum_bounds(w, Standing::Immature, i as int);
                lemma_part_sum_bounds(w, Standing::TrustedPending, i as int);
                lemma_part_sum_bounds(w, Standing::UntrustedPending, i as int);
                lemma_part_sum_bounds(w, Standing::Confirmed, i as int);
                assert(w.utxos[i as int] == self.utxos@[i as int]@);
            }
            let u = &self.utxos[i];
            if !u.is_spent {
                match self.standing_of(u) {
                    Standing::Immature => {
                        immature = cap_add64(immature, u.txout.value);
                    },
                    Standing::TrustedPending => {
                        trusted = cap_add64(trusted, u.txout.value);
                    },
                    Standing::UntrustedPending => {
                        untrusted = cap_add64(untrusted, u.txout.value);
                    },
                    Standing::Confirmed => {
                        confirmed = cap_add64(confirmed, u.txout.value);
                    },
                }
            }
            i += 1;
        }
        proof {
            lemma_part_sum_bounds(w, Standing::Immature, i as int);
            lemma_part_sum_bounds(w, Standing::TrustedPending, i as int);
            lemma_part_sum_bounds(w, Standing::UntrustedPending, i as int);
            lemma_part_sum_bounds(w, Standing::Confirmed, i as int);
        }
        Balance {
            immature,
            trusted_pending: trusted,
            untrusted_pending: untrusted,
            confirmed,
            spendable: cap_add64(confirmed, trusted),
            total: cap_add64(cap_add64(cap_add64(immature, trusted), untrusted), confirmed),
        }
    }

    /// The outputs of the wallet that are not spent.
    pub fn list_unspent(&self) -> (r: Vec<LocalUtxo>)
        ensures
            utxos_view(r@) == unspent(self@.utxos),
    {
        let ghost all = utxos_view(self.utxos@);
        let mut out: Vec<LocalUtxo> = Vec::new();
        let mut i: usize = 0;
        assert(utxos_view(out@) =~= unspent(all.take(0)));
        while i < self.utxos.len()
            invariant
                i <= self.utxos.len(),
                all == utxos_view(self.utxos@),
                utxos_view(out@) == unspent(all.take(i as int)),
            decreases self.utxos.len() - i,
        {
            proof {
                assert(all.take(i + 1).drop_last() =~= all.take(i as int));
                assert(all.take(i + 1).last() == self.utxos@[i as int]@);
            }
            let u = &self.utxos[i];
            if !u.is_spent {
                let ghost before = out@;
                let copy = LocalUtxo {
                    outpoint: u.outpoint,
                    txout: u.txout.copy(),
                    keychain: u.keychain,
                    is_spent: u.is_spent,
                };
                out.push(copy);
                assert(utxos_view(out@) =~= utxos_view(before).push(copy@));
            }
            i += 1;
        }
        assert(all.take(self.utxos.len() as int) =~= all);
        out
    }

    /// Whether `script` is one that the wallet has handed out.
    pub fn is_mine(&self, script: &Script) -> (r: bool)
        ensures
            r == holds_script(self@.scripts, script@),
    {
        let mut i: usize = 0;
        while i < self.scripts.len()
            invariant
                i <= self.scripts.len(),
                forall|k: int| 0 <= k < i ==> self@.scripts[k] != script@,
            decreases self.scripts.len() - i,
        {
            assert(self@.scripts[i as int] == self.scripts@[i as int]@);
            if self.scripts[i].same(script) {
                return true;
            }
            i += 1;
        }
        false
    }
}

/// The descriptor that change addresses come from: the change descriptor,
/// or the only descriptor where the wallet has no other.
pub open spec fn change_descriptor_of(w: WalletView) -> Seq<char> {
    match w.change_descriptor {
        Some(d) => d,
        None => w.descriptor,
    }
}

/// The index after the last one used.
pub open spec fn next_index(last: Option<u32>) -> int {
    match last {
        Some(i) => i + 1,
        None => 0,
    }
}

/// The weights of what satisfies the scripts of the two keychains, as the
/// descriptors give them; None where a descriptor gives none that fits.
pub open spec fn wallet_weights(w: WalletView) -> Option<SatisfactionWeights> {
    let external = descriptor_weight(w.descriptor, w.network);
    let internal = descriptor_weight(change_descriptor_of(w), w.network);
    if external is Some && internal is Some && external->0 <= u32::MAX && internal->0
        <= u32::MAX {
        Some(SatisfactionWeights { external: external->0 as u32, internal: internal->0 as u32 })
    } else {
        None
    }
}

/// The script of the next change address; None where the indices are used
/// up or the descriptor gives no script.
pub open spec fn fresh_change_script(w: WalletView) -> Option<Seq<u8>> {
    if next_index(w.last_internal) < 0x8000_0000 {
        descriptor_script(change_descriptor_of(w), w.network, next_index(w.last_internal) as u32)
    } else {
        None
    }
}

/// What the inputs `s` take from the wallet: the amounts of those that are
/// the wallet's own.
pub open spec fn sent_amount(s: Seq<CoinView>) -> int
    decreases s.len(),
{
    if s.len() == 0 {
        0
    } else {
        sent_amount(s.drop_last()) + if s.last().origin is Wallet {
            s.last().value as int
        } else {
            0
        }
    }
}

/// What the outputs `s` give to the wallet: the amounts of those that pay
/// to one of `scripts`.
pub open spec fn received_amount(s: Seq<TxOutView>, scripts: Seq<Seq<u8>>) -> int
    decreases s.len(),
{
    if s.len() == 0 {
        0
    } else {
        received_amount(s.drop_last(), scripts) + if holds_script(scripts, s.last().script) {
            s.last().value as int
        } else {
            0
        }
    }
}

/// What inputs take from the wallet is no more than what they hold.
pub proof fn lemma_sent_bounds(s: Seq<CoinView>)
    ensures
        0 <= sent_amount(s) <= sum_coins(s),
    decreases s.len(),
{
    if s.len() > 0 {
        lemma_sent_bounds(s.drop_last());
    }
}

/// What outputs give to the wallet is no more than what they hold.
pub proof fn lemma_received_bounds(s: Seq<TxOutView>, scripts: Seq<Seq<u8>>)
    ensures
        0 <= received_amount(s, scripts) <= sum_out(s),
    decreases s.len(),
{
    if s.len() > 0 {
        lemma_received_bounds(s.drop_last(), scripts);
    }
}

/// What the inputs `coins` take from the wallet.
pub(crate) fn sent_of(coins: &Vec<Coin>) -> (r: u64)
    requires
        sum_coins(coins_view(coins@)) <= MAX_MONEY,
    ensures
        r == sent_amount(coins_view(coins@)),
{
    let ghost all = coins_view(coins@);
    let mut acc: u64 = 0;
    let mut i: usize = 0;
    while i < coins.len()
        invariant
            i <= coins.len(),
            all == coins_view(coins@),
            sum_coins(all) <= MAX_MONEY,
            acc == sent_amount(all.take(i as int)),
        decreases coins.len() - i,
    {
        proof {
            assert(all.take(i + 1).drop_last() =~= all.take(i as int));
            assert(all.take(i + 1).last() == coins@[i as int]@);
            lemma_sent_bounds(all.take(i + 1));
            crate::builder::lemma_sum_coins_take(all, i + 1);
        }
        match coins[i].origin {
            InputOrigin::Wallet(_) => {
                acc = acc + coins[i].txout.value;
            },
            InputOrigin::Foreign => {},
        }
        i += 1;
    }
    assert(all.take(coins.len() as int) =~= all);
    acc
}

/// Whether `script` is one of `scripts`.
pub fn holds_script_of(scripts: &Vec<Script>, script: &Script) -> (r: bool)
    ensures
        r == holds_script(scripts_view(scripts@), script@),
{
    let mut i: usize = 0;
    while i < scripts.len()
        invariant
            i <= scripts.len(),
            forall|k: int| 0 <= k < i ==> scripts_view(scripts@)[k] != script@,
        decreases scripts.len() - i,
    {
        assert(scripts_view(scripts@)[i as int] == scripts@[i as int]@);
        if scripts[i].same(script) {
            return true;
        }
        i += 1;
    }
    false
}

/// What the outputs `outs` give to the wallet that holds `scripts`.
pub(crate) fn received_of(outs: &Vec<TxOut>, scripts: &Vec<Script>) -> (r: u64)
    requires
        sum_out(outs_view(outs@)) <= MAX_MONEY,
    ensures
        r == received_amount(outs_view(outs@), scripts_view(scripts@)),
{
    let ghost all = outs_view(outs@);
    let ghost sv = scripts_view(scripts@);
    let mut acc: u64 = 0;
    let mut i: usize = 0;
    while i < outs.len()
        invariant
            i <= outs.len(),
            all == outs_view(outs@),
            sv == scripts_view(scripts@),
            sum_out(all) <= MAX_MONEY,
            acc == received_amount(all.take(i as int), sv),
        decreases outs.len() - i,
    {
        proof {
            assert(all.take(i + 1).drop_last() =~= all.take(i as int));
            assert(all.take(i + 1).last() == outs@[i as int]@);
            lemma_received_bounds(all.take(i + 1), sv);
            crate::builder::lemma_sum_out_take(all, i + 1);
        }
        if holds_script_of(scripts, &outs[i].script_pubkey) {
            acc = acc + outs[i].value;
        }
        i += 1;
    }
    assert(all.take(outs.len() as int) =~= all);
    acc
}

impl Wallet {
    /// The weights of what satisfies the scripts of the two keychains.
    pub fn weights(&self) -> (r: Option<SatisfactionWeights>)
        ensures
            r == wallet_weights(self@),
    {
        let external: usize = match satisfaction_weight(self.descriptor.as_str(), self.network) {
            Some(w) => w,
            None => {
                return None;
            },
        };
        let internal: usize = match &self.change_descriptor {
            Some(d) => match satisfaction_weight(d.as_str(), self.network) {
                Some(w) => w,
                None => {
                    return None;
                },
            },
            None => external,
        };
        if external > u32::MAX as usize || internal > u32::MAX as usize {
            return None;
        }
        Some(SatisfactionWeights { external: external as u32, internal: internal as u32 })
    }

    /// The script of the next change address.
    pub fn fresh_change_script(&self) -> (r: Option<Script>)
        ensures
            r is Some == fresh_change_script(self@) is Some,
            r is Some ==> r->0@ == fresh_change_script(self@)->0,
    {
        let index: u32 = match self.last_internal {
            Some(i) => {
                if i >= 0x7fff_ffff {
                    return None;
                }
                i + 1
            },
            None => 0,
        };
        let found: Option<Vec<u8>> = match &self.change_descriptor {
            Some(d) => script_at(d.as_str(), self.network, index),
            None => script_at(self.descriptor.as_str(), self.network, index),
        };
        match found {
            Some(bytes) => Some(Script { bytes }),
            None => None,
        }
    }
}

/// Which address of a keychain is asked for.
#[derive(Clone, Copy, Debug, PartialEq, Eq, Structural)]
pub enum AddressIndex {
    /// The one after the last, which it becomes.
    New,
    /// The last one, unless the history pays to it or there is none yet;
    /// then a new one.
    LastUnused,
    /// The one at this index; the wallet stays as it is.
    Peek(u32),
    /// The one at this index, which becomes the last.
    Reset(u32),
}

/// An address of the wallet: where on which keychain it stands, and its
/// text.
#[derive(Clone, Debug)]
pub struct AddressInfo {
    pub index: u32,
    pub address: String,
    pub keychain: KeychainKind,
}

/// The descriptor of a keychain.
pub open spec fn keychain_descriptor(w: WalletView, keychain: KeychainKind) -> Seq<char> {
    match keychain {
        KeychainKind::External => w.descriptor,
        KeychainKind::Internal => change_descriptor_of(w),
    }
}

/// The last index used on a keychain.
pub open spec fn last_index(w: WalletView, keychain: KeychainKind) -> Option<u32> {
    match keychain {
        KeychainKind::External => w.last_external,
        KeychainKind::Internal => w.last_internal,
    }
}

/// Whether a transaction pays to `script`.
pub open spec fn tx_pays_to(tx: TransactionView, script: Seq<u8>) -> bool {
    exists|j: int| 0 <= j < tx.output.len() && tx.output[j].script == script
}

/// Whether a transaction of the history is known to pay to `script`.
pub open spec fn history_pays_to(history: Seq<DetailsView>, script: Seq<u8>) -> bool {
    exists|i: int|
        0 <= i < history.len() && (#[trigger] history[i]).transaction is Some && tx_pays_to(
            history[i].transaction->0,
            script,
        )
}

/// Whether the address at the last index of a keychain was paid to.
pub open spec fn last_is_used(w: WalletView, keychain: KeychainKind) -> bool {
    let last = last_index(w, keychain);
    last is Some && last->0 < 0x8000_0000 && descriptor_script(
        keychain_descriptor(w, keychain),
        w.network,
        last->0,
    ) is Some && history_pays_to(
        w.transactions,
        descriptor_script(keychain_descriptor(w, keychain), w.network, last->0)->0,
    )
}

/// Whether the choice takes a new address.
pub open spec fn takes_new(w: WalletView, keychain: KeychainKind, choice: AddressIndex) -> bool {
    match choice {
        AddressIndex::New => true,
        AddressIndex::LastUnused => last_index(w, keychain) is None || last_is_used(w, keychain),
        _ => false,
    }
}

/// The index that the choice stands for.
pub open spec fn chosen_index(w: WalletView, keychain: KeychainKind, choice: AddressIndex) -> int {
    match choice {
        AddressIndex::Peek(i) => i as int,
        AddressIndex::Reset(i) => i as int,
        _ => if takes_new(w, keychain, choice) {
            next_index(last_index(w, keychain))
        } else {
            last_index(w, keychain)->0 as int
        },
    }
}

/// Whether the index of the choice becomes the last index of the keychain.
pub open spec fn moves_last(w: WalletView, keychain: KeychainKind, choice: AddressIndex) -> bool {
    match choice {
        AddressIndex::Peek(_) => false,
        AddressIndex::Reset(_) => true,
        _ => takes_new(w, keychain, choice),
    }
}

/// The script of the address that the choice stands for. An index of 2^31
/// or more is out of range; a descriptor that gives no script there, or a
/// script without an address, is a failure of the descriptor.
pub open spec fn address_script(w: WalletView, keychain: KeychainKind, choice: AddressIndex) -> Result<
    Seq<u8>,
    WalletError,
> {
    let index = chosen_index(w, keychain, choice);
    if index >= 0x8000_0000 {
        Err(WalletError::ValidationError(crate::error::Invalid::PathIndex))
    } else {
        match descriptor_script(keychain_descriptor(w, keychain), w.network, index as u32) {
            None => Err(WalletError::Generic),
            Some(script) => if address_encoded(script, w.network) is None {
                Err(WalletError::Generic)
            } else {
                Ok(script)
            },
        }
    }
}

/// The wallet after it handed out the address of the choice: the script is
/// among its scripts, and the index is the last of the keychain where the
/// choice says so.
pub open spec fn wallet_after(
    w: WalletView,
    keychain: KeychainKind,
    choice: AddressIndex,
    script: Seq<u8>,
) -> WalletView {
    let index = Some(chosen_index(w, keychain, choice) as u32);
    WalletView {
        scripts: if holds_script(w.scripts, script) {
            w.scripts
        } else {
            w.scripts.push(script)
        },
        last_external: if keychain == KeychainKind::External && moves_last(w, keychain, choice) {
            index
        } else {
            w.last_external
        },
        last_internal: if keychain == KeychainKind::Internal && moves_last(w, keychain, choice) {
            index
        } else {
            w.last_internal
        },
        ..w
    }
}

/// Whether a transaction pays to `script`.
pub fn pays_to(tx: &Transaction, script: &Script) -> (r: bool)
    ensures
        r == tx_pays_to(tx@, script@),
{
    let mut j: usize = 0;
    while j < tx.output.len()
        invariant
            j <= tx.output.len(),
            forall|k: int| 0 <= k < j ==> tx@.output[k].script != script@,
        decreases tx.output.len() - j,
    {
        assert(tx@.output[j as int] == tx.output@[j as int]@);
        if tx.output[j].script_pubkey.same(script) {
            return true;
        }
        j += 1;
    }
    false
}

impl Wallet {
    /// Whether a transaction of the history is known to pay to `script`.
    pub fn history_pays_to(&self, script: &Script) -> (r: bool)
        ensures
            r == history_pays_to(self@.transactions, script@),
    {
        let ghost h = self@.transactions;
        let mut i: usize = 0;
        while i < self.transactions.len()
            invariant
                i <= self.transactions.len(),
                h == self@.transactions,
                forall|k: int|
                    0 <= k < i ==> !((#[trigger] h[k]).transaction is Some && tx_pays_to(
                        h[k].transaction->0,
                        script@,
                    )),
            decreases self.transactions.len() - i,
        {
            assert(h[i as int] == self.transactions@[i as int]@);
            match &self.transactions[i].transaction {
                Some(tx) => {
                    if pays_to(tx, script) {
                        return true;
                    }
                },
                None => {},
            }
            i += 1;
        }
        false
    }

    /// The script at `index` of a keychain.
    fn keychain_script(&self, keychain: KeychainKind, index: u32) -> (r: Option<Script>)
        requires
            index < 0x8000_0000,
        ensures
            r is Some == descriptor_script(
                keychain_descriptor(self@, keychain),
                self.network,
                index,
            ) is Some,
            r is Some ==> r->0@ == descriptor_script(
                keychain_descriptor(self@, keychain),
                self.network,
                index,
            )->0,
    {
        let found: Option<Vec<u8>> = match keychain {
            KeychainKind::External => script_at(self.descriptor.as_str(), self.network, index),
            KeychainKind::Internal => match &self.change_descriptor {
                Some(d) => script_at(d.as_str(), self.network, index),
                None => script_at(self.descriptor.as_str(), self.network, index),
            },
        };
        match found {
            Some(bytes) => Some(Script { bytes }),
            None => None,
        }
    }

    /// Whether the address at the last index of a keychain was paid to.
    fn last_used(&self, keychain: KeychainKind) -> (r: bool)
        ensures
            r == last_is_used(self@, keychain),
    {
        let last: Option<u32> = match keychain {
            KeychainKind::External => self.last_external,
            KeychainKind::Internal => self.last_internal,
        };
        match last {
            Some(i) => {
                if i >= 0x8000_0000 {
                    return false;
                }
                match self.keychain_script(keychain, i) {
                    Some(script) => self.history_pays_to(&script),
                    None => false,
                }
            },
            None => false,
        }
    }

    /// Hands out the address of a keychain that `choice` stands for.
    pub fn address_at(&mut self, keychain: KeychainKind, choice: AddressIndex) -> (r: Result<
        AddressInfo,
        WalletError,
    >)
        ensures
            match address_script(old(self)@, keychain, choice) {
                Err(e) => r == Err::<AddressInfo, WalletError>(e) && final(self)@ == old(self)@,
                Ok(script) => {
                    &&& r is Ok
                    &&& r->Ok_0.index == chosen_index(old(self)@, keychain, choice)
                    &&& r->Ok_0.keychain == keychain
                    &&& r->Ok_0.address@ == address_encoded(script, old(self)@.network)->0
                    &&& final(self)@ == wallet_after(old(self)@, keychain, choice, script)
                },
            },
    {
        let last: Option<u32> = match keychain {
            KeychainKind::External => self.last_external,
            KeychainKind::Internal => self.last_internal,
        };
        let fresh: bool = match choice {
            AddressIndex::New => true,
            AddressIndex::LastUnused => last.is_none() || self.last_used(keychain),
            _ => false,
        };
        let index: u32 = match choice {
            AddressIndex::Peek(i) => i,
            AddressIndex::Reset(i) => i,
            _ => match last {
                Some(i) => {
                    if fresh {
                        if i >= 0x7fff_ffff {
                            return Err(
                                WalletError::ValidationError(crate::error::Invalid::PathIndex),
                            );
                        }
                        i + 1
                    } else {
                        i
                    }
                },
                None => 0,
            },
        };
        if index >= 0x8000_0000 {
            return Err(WalletError::ValidationError(crate::error::Invalid::PathIndex));
        }
        let script: Script = match self.keychain_script(keychain, index) {
            Some(s) => s,
            None => {
                return Err(WalletError::Generic);
            },
        };
        let address: String = match encode_address(&script.bytes, self.network) {
            Some(t) => t,
            None => {
                return Err(WalletError::Generic);
            },
        };
        let moves: bool = match choice {
            AddressIndex::Peek(_) => false,
            AddressIndex::Reset(_) => true,
            _ => fresh,
        };
        if moves {
            match keychain {
                KeychainKind::External => {
                    self.last_external = Some(index);
                },
                KeychainKind::Internal => {
                    self.last_internal = Some(index);
                },
            }
        }
        if !holds_script_of(&self.scripts, &script) {
            let ghost before = self.scripts@;
            self.scripts.push(script);
            assert(scripts_view(self.scripts@) =~= scripts_view(before).push(script@));
        }
        Ok(AddressInfo { index, address, keychain })
    }
}

} // verus!
