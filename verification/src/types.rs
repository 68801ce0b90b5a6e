//! Plain values shared by the whole library.

use vstd::prelude::*;

verus! {

/// The chain a value belongs to.
#[derive(Clone, Copy, Debug, PartialEq, Eq, Structural)]
pub enum Network {
    Bitcoin,
    Testnet,
    Signet,
    Regtest,
}

impl Network {
    /// The name of the network.
    pub fn name(self) -> (r: &'static str)
        ensures
            r@ == match self {
                Network::Bitcoin => "bitcoin"@,
                Network::Testnet => "testnet"@,
                Network::Signet => "signet"@,
                Network::Regtest => "regtest"@,
            },
    {
        match self {
            Network::Bitcoin => "bitcoin",
            Network::Testnet => "testnet",
            Network::Signet => "signet",
            Network::Regtest => "regtest",
        }
    }
}

/// The role of a derivation branch: receiving or change.
#[derive(Clone, Copy, Debug, PartialEq, Eq, Structural)]
pub enum KeychainKind {
    External,
    Internal,
}

/// Which unspent outputs automatic selection may draw from.
#[derive(Clone, Copy, Debug, PartialEq, Eq, Structural)]
pub enum ChangeSpendPolicy {
    ChangeAllowed,
    OnlyChange,
    ChangeForbidden,
}

/// How a replaceable transaction numbers its inputs.
#[derive(Clone, Copy, Debug, PartialEq, Eq, Structural)]
pub enum RbfValue {
    RbfDefault,
    Value(u32),
}

/// How the fee of a transaction is fixed: by a rate or as an amount.
#[derive(Clone, Copy, Debug, PartialEq, Eq, Structural)]
pub enum FeePolicy {
    /// Thousandths of a satoshi per virtual byte.
    Rate(u64),
    /// Satoshis.
    Absolute(u64),
}

/// The rate that a build pays where the caller names no fee: one satoshi
/// per virtual byte, in thousandths.
pub const DEFAULT_FEE_RATE: u64 = 1000;

/// The fee policy of a build: the amount where one is given, else the rate
/// given, in thousandths of a satoshi per virtual byte, else the default
/// rate.
pub fn fee_policy_of(rate: Option<u64>, absolute: Option<u64>) -> (r: FeePolicy)
    ensures
        r == match (absolute, rate) {
            (Some(amount), _) => FeePolicy::Absolute(amount),
            (None, Some(x)) => FeePolicy::Rate(x),
            (None, None) => FeePolicy::Rate(DEFAULT_FEE_RATE),
        },
{
    match (absolute, rate) {
        (Some(amount), _) => FeePolicy::Absolute(amount),
        (None, Some(x)) => FeePolicy::Rate(x),
        (None, None) => FeePolicy::Rate(DEFAULT_FEE_RATE),
    }
}

/// A copy of `v`.
pub fn copy_bytes(v: &Vec<u8>) -> (r: Vec<u8>)
    ensures
        r@ == v@,
{
    let mut r: Vec<u8> = Vec::new();
    let mut i: usize = 0;
    while i < v.len()
        invariant
            i <= v.len(),
            r@ == v@.take(i as int),
        decreases v.len() - i,
    {
        r.push(v[i]);
        assert(v@.take(i + 1) =~= v@.take(i as int).push(v@[i as int]));
        i += 1;
    }
    assert(v@.take(v.len() as int) =~= v@);
    r
}

/// Whether `a` and `b` hold the same bytes.
pub fn bytes_eq(a: &Vec<u8>, b: &Vec<u8>) -> (r: bool)
    ensures
        r == (a@ == b@),
{
    if a.len() != b.len() {
        return false;
    }
    let mut i: usize = 0;
    while i < a.len()
        invariant
            i <= a.len(),
            a.len() == b.len(),
            forall|k: int| 0 <= k < i ==> a@[k] == b@[k],
        decreases a.len() - i,
    {
        if a[i] != b[i] {
            return false;
        }
        i += 1;
    }
    assert(a@ =~= b@);
    true
}

/// The byte strings of `s`, each by its view.
pub open spec fn items_view(s: Seq<Vec<u8>>) -> Seq<Seq<u8>> {
    s.map_values(|b: Vec<u8>| b@)
}

/// A copy of the byte strings `s`.
pub fn copy_items(s: &Vec<Vec<u8>>) -> (r: Vec<Vec<u8>>)
    ensures
        items_view(r@) == items_view(s@),
{
    let mut r: Vec<Vec<u8>> = Vec::new();
    let mut i: usize = 0;
    assert(items_view(r@) =~= items_view(s@).take(0));
    while i < s.len()
        invariant
            i <= s.len(),
            items_view(r@) == items_view(s@).take(i as int),
        decreases s.len() - i,
    {
        let ghost before = r@;
        r.push(copy_bytes(&s[i]));
        proof {
            assert(items_view(r@) =~= items_view(before).push(s@[i as int]@));
            assert(items_view(s@).take(i + 1) =~= items_view(s@).take(i as int).push(
                s@[i as int]@,
            ));
        }
        i += 1;
    }
    assert(items_view(s@).take(s.len() as int) =~= items_view(s@));
    r
}

/// Whether two lists of byte strings hold the same.
pub fn items_eq(a: &Vec<Vec<u8>>, b: &Vec<Vec<u8>>) -> (r: bool)
    ensures
        r == (items_view(a@) == items_view(b@)),
{
    if a.len() != b.len() {
        assert(items_view(a@).len() != items_view(b@).len());
        return false;
    }
    let mut i: usize = 0;
    while i < a.len()
        invariant
            i <= a.len(),
            a.len() == b.len(),
            forall|k: int| 0 <= k < i ==> items_view(a@)[k] == items_view(b@)[k],
        decreases a.len() - i,
    {
        if !bytes_eq(&a[i], &b[i]) {
            assert(items_view(a@)[i as int] != items_view(b@)[i as int]);
            return false;
        }
        i += 1;
    }
    assert(items_view(a@) =~= items_view(b@));
    true
}

/// An output script, as the bytes that a transaction carries.
#[derive(Clone, Debug)]
pub struct Script {
    pub bytes: Vec<u8>,
}

impl View for Script {
    type V = Seq<u8>;

    open spec fn view(&self) -> Seq<u8> {
        self.bytes@
    }
}

impl Script {
    /// A copy of this script.
    pub fn copy(&self) -> (r: Script)
        ensures
            r@ == self@,
    {
        Script { bytes: copy_bytes(&self.bytes) }
    }

    /// Whether two scripts hold the same bytes.
    pub fn same(&self, other: &Script) -> (r: bool)
        ensures
            r == (self@ == other@),
    {
        bytes_eq(&self.bytes, &other.bytes)
    }
}

/// A reference to one output of a transaction.
#[derive(Clone, Copy, Debug)]
pub struct OutPoint {
    pub txid: [u8; 32],
    pub vout: u32,
}

/// Whether two transaction ids are the same.
pub fn same_txid(a: &[u8; 32], b: &[u8; 32]) -> (r: bool)
    ensures
        r == (*a == *b),
{
    let mut i: usize = 0;
    while i < 32
        invariant
            i <= 32,
            forall|k: int| 0 <= k < i ==> a@[k] == b@[k],
        decreases 32 - i,
    {
        if a[i] != b[i] {
            return false;
        }
        i += 1;
    }
    assert(a@ =~= b@);
    assert(*a == *b);
    true
}

impl OutPoint {
    /// Whether two outpoints name the same output.
    pub fn same(&self, other: &OutPoint) -> (r: bool)
        ensures
            r == (*self == *other),
    {
        self.vout == other.vout && same_txid(&self.txid, &other.txid)
    }
}

/// What a transaction output is in contracts: its amount and its script.
pub struct TxOutView {
    pub value: u64,
    pub script: Seq<u8>,
}

/// An output of a transaction.
#[derive(Clone, Debug)]
pub struct TxOut {
    pub value: u64,
    pub script_pubkey: Script,
}

impl View for TxOut {
    type V = TxOutView;

    open spec fn view(&self) -> TxOutView {
        TxOutView { value: self.value, script: self.script_pubkey@ }
    }
}

impl TxOut {
    /// A copy of this output.
    pub fn copy(&self) -> (r: TxOut)
        ensures
            r@ == self@,
    {
        TxOut { value: self.value, script_pubkey: self.script_pubkey.copy() }
    }
}

/// The outputs of `s`, each by its view.
pub open spec fn outs_view(s: Seq<TxOut>) -> Seq<TxOutView> {
    s.map_values(|o: TxOut| o@)
}

/// The sum of the amounts of `s`.
pub open spec fn sum_out(s: Seq<TxOutView>) -> int
    decreases s.len(),
{
    if s.len() == 0 {
        0
    } else {
        sum_out(s.drop_last()) + s.last().value
    }
}

/// Where an input comes from: a keychain of this wallet, or another signer.
#[derive(Clone, Copy, Debug, PartialEq, Eq, Structural)]
pub enum InputOrigin {
    Wallet(KeychainKind),
    Foreign,
}

/// What a spendable input is in contracts.
pub struct CoinView {
    pub outpoint: OutPoint,
    pub value: u64,
    pub script: Seq<u8>,
    pub satisfaction_weight: u32,
    pub origin: InputOrigin,
}

/// An output that a transaction may spend, with the weight of what satisfies
/// its script.
#[derive(Clone, Debug)]
pub struct Coin {
    pub outpoint: OutPoint,
    pub txout: TxOut,
    pub satisfaction_weight: u32,
    pub origin: InputOrigin,
}

impl View for Coin {
    type V = CoinView;

    open spec fn view(&self) -> CoinView {
        CoinView {
            outpoint: self.outpoint,
            value: self.txout.value,
            script: self.txout.script_pubkey@,
            satisfaction_weight: self.satisfaction_weight,
            origin: self.origin,
        }
    }
}

impl Coin {
    /// A copy of this input.
    pub fn copy(&self) -> (r: Coin)
        ensures
            r@ == self@,
    {
        Coin {
            outpoint: self.outpoint,
            txout: self.txout.copy(),
            satisfaction_weight: self.satisfaction_weight,
            origin: self.origin,
        }
    }
}

/// The inputs of `s`, each by its view.
pub open spec fn coins_view(s: Seq<Coin>) -> Seq<CoinView> {
    s.map_values(|c: Coin| c@)
}

/// The sum of the amounts of `s`.
pub open spec fn sum_coins(s: Seq<CoinView>) -> int
    decreases s.len(),
{
    if s.len() == 0 {
        0
    } else {
        sum_coins(s.drop_last()) + s.last().value
    }
}

} // verus!
