//! Output descriptors: what the outside descriptor engine derives from their
//! text, and the standard single-key templates.

use vstd::prelude::*;
use crate::error::WalletError;
use crate::keys::{
    as_public_spec, key_text, parse_public_key, parse_secret_key, public_key_parts,
    secret_key_parts, xprv_depth, xprv_facts, xprv_facts_of, xpub_depth, xpub_facts,
    xpub_facts_of, DescriptorPublicKey, DescriptorSecretKey, KeyOrigin, KeyParts, KeyView,
    OriginView, PartsView, Wildcard,
};
use crate::path::{steps_text, ChildNumber, DerivationPath};
use crate::types::{KeychainKind, Network};

verus! {

/// The texts of the keys in the descriptor text `text`, which holds no
/// checksum, in the order in which they stand there; None where the text is
/// no descriptor.
pub uninterp spec fn descriptor_key_texts(text: Seq<char>) -> Option<Seq<Seq<char>>>;

/// What a list of texts is in contracts.
pub open spec fn texts_view(texts: Seq<String>) -> Seq<Seq<char>> {
    texts.map_values(|t: String| t@)
}

/// Parses with `Descriptor::<String>::from_str` of miniscript and collects,
/// with `ForEachKey::for_each_key`, a copy of every key as it stands in the
/// text. Not proved: that these are the keys of `text`.
#[verifier::external_body]
pub(crate) fn key_texts(text: &str) -> (r: Option<Vec<String>>)
    ensures
        r is Some == descriptor_key_texts(text@) is Some,
        r is Some ==> texts_view(r->0@) == descriptor_key_texts(text@)->0,
{
    let parsed: bdk::miniscript::Descriptor<String> = text.parse().ok()?;
    let mut keys: Vec<String> = Vec::new();
    bdk::miniscript::ForEachKey::for_each_key(&parsed, |k| {
        keys.push(k.clone());
        true
    });
    Some(keys)
}

/// Where the body of a descriptor text ends, looked for from `from` on: at
/// the first number sign, behind which the checksum stands, or at the end
/// of the text.
pub open spec fn body_end(text: Seq<char>, from: int) -> int
    decreases text.len() - from,
{
    if from < 0 || from >= text.len() {
        text.len() as int
    } else if text[from] == '#' {
        from
    } else {
        body_end(text, from + 1)
    }
}

/// The body of a descriptor text: what stands before its checksum.
pub open spec fn body_of(text: Seq<char>) -> Seq<char> {
    text.subrange(0, body_end(text, 0))
}

/// The body of a descriptor text.
pub fn body_text(text: &str) -> (r: &str)
    ensures
        r@ == body_of(text@),
{
    let len: usize = text.unicode_len();
    let mut i: usize = 0;
    while i < len && text.get_char(i) != '#'
        invariant
            i <= len,
            len == text@.len(),
            body_end(text@, 0) == body_end(text@, i as int),
        decreases len - i,
    {
        i += 1;
    }
    text.substring_char(0, i)
}

/// How many steps the outside engine takes below the extended key of a
/// descriptor key: those of its path, and one more where the key stands for
/// a range of children.
pub open spec fn steps_below(parts: PartsView) -> int {
    parts.path.len() + if parts.wildcard == 0 {
        0int
    } else {
        1int
    }
}

/// Whether the key with the text `key` stays within a depth of 255 with all
/// its steps taken. A text that is no extended key has no steps to take.
pub open spec fn key_shallow(key: Seq<char>) -> bool {
    match secret_key_parts(key) {
        Some(parts) => xprv_facts(parts.xkey) is Some && xprv_depth(parts.xkey) + steps_below(
            parts,
        ) <= 255,
        None => match public_key_parts(key) {
            Some(parts) => xpub_facts(parts.xkey) is Some && xpub_depth(parts.xkey)
                + steps_below(parts) <= 255,
            None => true,
        },
    }
}

/// Whether every extended key in the descriptor text, private or public,
/// stays within a depth of 255 with all its steps taken. The outside
/// engine counts the depth in a byte: it takes the hardened steps of a
/// private key when it reads a descriptor, and the others, with the index
/// in place of a wildcard, when it derives a script. A text with a key
/// beyond that is not handed to it.
pub open spec fn keys_shallow(text: Seq<char>) -> bool {
    match descriptor_key_texts(body_of(text)) {
        Some(keys) => forall|k: int| 0 <= k < keys.len() ==> key_shallow(#[trigger] keys[k]),
        None => true,
    }
}

/// Whether an extended key of the given depth stays within a depth of 255
/// with the steps of `parts` taken.
fn fits_depth(depth: u8, parts: &KeyParts) -> (r: bool)
    ensures
        r == (depth + steps_below(parts@) <= 255),
{
    let room: usize = 255 - depth as usize;
    if parts.wildcard == 0 {
        parts.path.len() <= room
    } else {
        parts.path.len() < room
    }
}

/// Whether the key with the text `key` stays within a depth of 255 with all
/// its steps taken.
pub fn is_key_shallow(key: &str) -> (r: bool)
    ensures
        r == key_shallow(key@),
{
    match parse_secret_key(key) {
        Some(parts) => match xprv_facts_of(parts.xkey.as_str()) {
            Some(facts) => fits_depth(facts.0, &parts),
            None => false,
        },
        None => match parse_public_key(key) {
            Some(parts) => match xpub_facts_of(parts.xkey.as_str()) {
                Some(facts) => fits_depth(facts.0, &parts),
                None => false,
            },
            None => true,
        },
    }
}

/// Whether every extended key in the descriptor text stays within a depth
/// of 255 with all its steps taken.
pub fn is_shallow(text: &str) -> (r: bool)
    ensures
        r == keys_shallow(text@),
{
    match key_texts(body_text(text)) {
        None => true,
        Some(keys) => {
            let mut i: usize = 0;
            while i < keys.len()
                invariant
                    i <= keys.len(),
                    descriptor_key_texts(body_of(text@)) == Some(texts_view(keys@)),
                    forall|k: int| 0 <= k < i ==> key_shallow(#[trigger] texts_view(keys@)[k]),
                decreases keys.len() - i,
            {
                assert(texts_view(keys@)[i as int] == keys@[i as int]@);
                if !is_key_shallow(keys[i].as_str()) {
                    assert(!key_shallow(descriptor_key_texts(body_of(text@))->0[i as int]));
                    return false;
                }
                i += 1;
            }
            true
        },
    }
}

/// What the outside engine gives as the script of the address at `index`
/// of the descriptor with the text `descriptor`, taken as a wallet
/// descriptor on `network`; None where the text is no such descriptor or the
/// script has no address.
pub uninterp spec fn derived_script(descriptor: Seq<char>, network: Network, index: u32) -> Option<
    Seq<u8>,
>;

/// What the outside engine gives as the greatest weight of what satisfies
/// a script of the descriptor with the text `descriptor`, taken as a wallet
/// descriptor on `network`; None where the text is no such descriptor or
/// its scripts cannot be satisfied.
pub uninterp spec fn derived_weight(descriptor: Seq<char>, network: Network) -> Option<usize>;

/// What the outside engine gives as the two texts of the descriptor with
/// the text `descriptor`, taken as a wallet descriptor on `network`: first
/// with its secret keys, then with public keys only; None where the text is
/// no such descriptor.
pub uninterp spec fn derived_texts(descriptor: Seq<char>, network: Network) -> Option<
    (Seq<char>, Seq<char>),
>;

/// Calls `bdk::Wallet::new` on an empty `MemoryDatabase`, for the network
/// of the same name, variant for variant, then `Wallet::get_address` with
/// `AddressIndex::Peek(index)` and `Address::script_pubkey`. Not proved:
/// that the bytes are the script of that address. The index stays below
/// 2^31, and every extended key, private or public, within a depth of 255
/// with its steps and the step of the index taken: beyond either the
/// outside derivation does not return.
#[verifier::external_body]
pub(crate) fn outside_script_at(descriptor: &str, network: Network, index: u32) -> (r: Option<
    Vec<u8>,
>)
    requires
        index < 0x8000_0000,
        keys_shallow(descriptor@),
    ensures
        r is Some == derived_script(descriptor@, network, index) is Some,
        r is Some ==> r->0@ == derived_script(descriptor@, network, index)->0,
{
    let net = match network {
        Network::Bitcoin => bdk::bitcoin::Network::Bitcoin,
        Network::Testnet => bdk::bitcoin::Network::Testnet,
        Network::Signet => bdk::bitcoin::Network::Signet,
        Network::Regtest => bdk::bitcoin::Network::Regtest,
    };
    let db = bdk::database::MemoryDatabase::new();
    let wallet = bdk::Wallet::new(descriptor, None, net, db).ok()?;
    let info = wallet.get_address(bdk::wallet::AddressIndex::Peek(index)).ok()?;
    Some(info.address.script_pubkey().to_bytes())
}

/// Calls `IntoWalletDescriptor::into_wallet_descriptor` of bdk on the
/// text, for the network of the same name, variant for variant, then
/// `Descriptor::max_satisfaction_weight`. Not proved: that the number is
/// that weight. The keys stay within their depth.
#[verifier::external_body]
pub(crate) fn outside_weight(descriptor: &str, network: Network) -> (r: Option<usize>)
    requires
        keys_shallow(descriptor@),
    ensures
        r == derived_weight(descriptor@, network),
{
    let net = match network {
        Network::Bitcoin => bdk::bitcoin::Network::Bitcoin,
        Network::Testnet => bdk::bitcoin::Network::Testnet,
        Network::Signet => bdk::bitcoin::Network::Signet,
        Network::Regtest => bdk::bitcoin::Network::Regtest,
    };
    let secp = bdk::bitcoin::secp256k1::Secp256k1::new();
    let parsed =
        bdk::descriptor::IntoWalletDescriptor::into_wallet_descriptor(descriptor, &secp, net).ok()?;
    parsed.0.max_satisfaction_weight().ok()
}

/// The two texts of a descriptor.
#[derive(Clone, Debug)]
pub struct TwoTexts {
    pub with_secrets: String,
    pub public: String,
}

/// The first of the two texts that the outside engine gives.
pub open spec fn derived_private(descriptor: Seq<char>, network: Network) -> Seq<char> {
    let texts = derived_texts(descriptor, network)->0;
    texts.0
}

/// The second of the two texts that the outside engine gives.
pub open spec fn derived_public(descriptor: Seq<char>, network: Network) -> Seq<char> {
    let texts = derived_texts(descriptor, network)->0;
    texts.1
}

/// Calls `IntoWalletDescriptor::into_wallet_descriptor` of bdk on the
/// text, for the network of the same name, variant for variant, then
/// `Descriptor::to_string_with_secret` and `to_string`. Not proved: that
/// these are the two texts of the descriptor. The keys stay within their
/// depth.
#[verifier::external_body]
pub(crate) fn outside_texts(descriptor: &str, network: Network) -> (r: Option<TwoTexts>)
    requires
        keys_shallow(descriptor@),
    ensures
        r is Some == derived_texts(descriptor@, network) is Some,
        r is Some ==> r->0.with_secrets@ == derived_private(descriptor@, network)
            && r->0.public@ == derived_public(descriptor@, network),
{
    let net = match network {
        Network::Bitcoin => bdk::bitcoin::Network::Bitcoin,
        Network::Testnet => bdk::bitcoin::Network::Testnet,
        Network::Signet => bdk::bitcoin::Network::Signet,
        Network::Regtest => bdk::bitcoin::Network::Regtest,
    };
    let secp = bdk::bitcoin::secp256k1::Secp256k1::new();
    let parsed =
        bdk::descriptor::IntoWalletDescriptor::into_wallet_descriptor(descriptor, &secp, net).ok()?;
    let with_secrets = parsed.0.to_string_with_secret(&parsed.1);
    Some(TwoTexts { with_secrets, public: parsed.0.to_string() })
}

/// The script of the address at `index` of the descriptor with the text
/// `descriptor`, taken as a wallet descriptor on `network`; None where the
/// text is no such descriptor, a key in it stands too deep, or the script
/// has no address.
pub open spec fn descriptor_script(descriptor: Seq<char>, network: Network, index: u32) -> Option<
    Seq<u8>,
> {
    if keys_shallow(descriptor) {
        derived_script(descriptor, network, index)
    } else {
        None
    }
}

/// The greatest weight of what satisfies a script of the descriptor with
/// the text `descriptor`, taken as a wallet descriptor on `network`; None
/// where the text is no such descriptor, a key in it stands too deep, or
/// its scripts cannot be satisfied.
pub open spec fn descriptor_weight(descriptor: Seq<char>, network: Network) -> Option<usize> {
    if keys_shallow(descriptor) {
        derived_weight(descriptor, network)
    } else {
        None
    }
}

/// The two texts of the descriptor with the text `descriptor`, taken as a
/// wallet descriptor on `network`: first with its secret keys, then with
/// public keys only; None where the text is no such descriptor or a key in
/// it stands too deep.
pub open spec fn descriptor_texts(descriptor: Seq<char>, network: Network) -> Option<
    (Seq<char>, Seq<char>),
> {
    if keys_shallow(descriptor) {
        derived_texts(descriptor, network)
    } else {
        None
    }
}

/// The text with secret keys of a descriptor that has its two texts.
pub open spec fn private_text(descriptor: Seq<char>, network: Network) -> Seq<char> {
    let texts = descriptor_texts(descriptor, network)->0;
    texts.0
}

/// The text with public keys only of a descriptor that has its two texts.
pub open spec fn public_text(descriptor: Seq<char>, network: Network) -> Seq<char> {
    let texts = descriptor_texts(descriptor, network)->0;
    texts.1
}

/// The script of the address at `index` of a descriptor.
pub(crate) fn script_at(descriptor: &str, network: Network, index: u32) -> (r: Option<Vec<u8>>)
    requires
        index < 0x8000_0000,
    ensures
        r is Some == descriptor_script(descriptor@, network, index) is Some,
        r is Some ==> r->0@ == descriptor_script(descriptor@, network, index)->0,
{
    if is_shallow(descriptor) {
        outside_script_at(descriptor, network, index)
    } else {
        None
    }
}

/// The greatest weight of what satisfies a script of a descriptor.
pub fn satisfaction_weight(descriptor: &str, network: Network) -> (r: Option<usize>)
    ensures
        r == descriptor_weight(descriptor@, network),
{
    if is_shallow(descriptor) {
        outside_weight(descriptor, network)
    } else {
        None
    }
}

/// The two texts of a descriptor.
pub fn texts_of(descriptor: &str, network: Network) -> (r: Option<TwoTexts>)
    ensures
        r is Some == descriptor_texts(descriptor@, network) is Some,
        r is Some ==> r->0.with_secrets@ == private_text(descriptor@, network)
            && r->0.public@ == public_text(descriptor@, network),
{
    if is_shallow(descriptor) {
        outside_texts(descriptor, network)
    } else {
        None
    }
}

/// The checksum of the descriptor text `text`: eight characters; None where
/// the text holds a character that no descriptor can hold.
pub uninterp spec fn descriptor_checksum(text: Seq<char>) -> Option<Seq<char>>;

/// Calls `bdk::descriptor::calc_checksum`. Not proved: that the text is the
/// checksum of `text`.
#[verifier::external_body]
pub(crate) fn checksum_of(text: &str) -> (r: Option<String>)
    ensures
        r is Some == descriptor_checksum(text@) is Some,
        r is Some ==> r->0@ == descriptor_checksum(text@)->0,
{
    bdk::descriptor::calc_checksum(text).ok()
}

/// The script forms of the three standard single-key wallets.
#[derive(Clone, Copy, Debug, PartialEq, Eq, Structural)]
pub enum ScriptTemplate {
    /// Pay to the hash of the key; purpose 44.
    P2Pkh,
    /// Pay to a script hash that wraps a witness program for the hash of
    /// the key; purpose 49.
    P2ShP2Wpkh,
    /// Pay to a witness program for the hash of the key; purpose 84.
    P2Wpkh,
}

/// The purpose that the derivation of a template starts with.
pub open spec fn purpose_of(template: ScriptTemplate) -> u32 {
    match template {
        ScriptTemplate::P2Pkh => 44,
        ScriptTemplate::P2ShP2Wpkh => 49,
        ScriptTemplate::P2Wpkh => 84,
    }
}

/// The coin type of a network: 0 for the main chain, 1 for any other.
pub open spec fn coin_type(network: Network) -> u32 {
    match network {
        Network::Bitcoin => 0,
        _ => 1,
    }
}

/// The branch of a keychain: 0 for receiving, 1 for change.
pub open spec fn change_index(keychain: KeychainKind) -> u32 {
    match keychain {
        KeychainKind::External => 0,
        KeychainKind::Internal => 1,
    }
}

/// The steps down to the account: purpose, coin type and account 0, all
/// hardened.
pub open spec fn account_path(template: ScriptTemplate, network: Network) -> Seq<ChildNumber> {
    seq![
        ChildNumber { index: purpose_of(template), hardened: true },
        ChildNumber { index: coin_type(network), hardened: true },
        ChildNumber { index: 0, hardened: true },
    ]
}

/// The branch below the account.
pub open spec fn branch_path(keychain: KeychainKind) -> Seq<ChildNumber> {
    seq![ChildNumber { index: change_index(keychain), hardened: false }]
}

/// What a descriptor of a standard wallet is in contracts.
pub struct DescriptorView {
    pub template: ScriptTemplate,
    pub key: KeyView,
    pub secret: bool,
}

/// The key of a descriptor.
#[derive(Clone, Debug)]
pub enum DescriptorKey {
    Secret(DescriptorSecretKey),
    Public(DescriptorPublicKey),
}

/// The descriptor of a standard single-key wallet: a script form around
/// one key.
#[derive(Clone, Debug)]
pub struct Descriptor {
    pub template: ScriptTemplate,
    pub key: DescriptorKey,
}

impl View for Descriptor {
    type V = DescriptorView;

    open spec fn view(&self) -> DescriptorView {
        match self.key {
            DescriptorKey::Secret(k) => DescriptorView {
                template: self.template,
                key: k@,
                secret: true,
            },
            DescriptorKey::Public(k) => DescriptorView {
                template: self.template,
                key: k@,
                secret: false,
            },
        }
    }
}

/// The descriptor that a template makes of an extended private key: the
/// key without origin, the steps down to the account and the branch of the
/// keychain, and all plain children below.
pub open spec fn private_template(
    template: ScriptTemplate,
    xkey: Seq<char>,
    keychain: KeychainKind,
    network: Network,
) -> DescriptorView {
    DescriptorView {
        template,
        key: KeyView {
            origin: None,
            xkey,
            derivation_path: account_path(template, network) + branch_path(keychain),
            wildcard: Wildcard::Unhardened,
        },
        secret: true,
    }
}

/// The descriptor that a template makes of the extended public key of an
/// account: the account's steps stand in the origin, under the master
/// fingerprint given; the branch of the keychain is left to derive, and all
/// plain children below.
pub open spec fn public_template(
    template: ScriptTemplate,
    xkey: Seq<char>,
    fingerprint: [u8; 4],
    keychain: KeychainKind,
    network: Network,
) -> DescriptorView {
    DescriptorView {
        template,
        key: KeyView {
            origin: Some(OriginView { fingerprint, path: account_path(template, network) }),
            xkey,
            derivation_path: branch_path(keychain),
            wildcard: Wildcard::Unhardened,
        },
        secret: false,
    }
}

/// The descriptors of the two keychains of one account differ in the index
/// of the branch, 0 for receiving and 1 for change, and in nothing else.
pub proof fn lemma_keychains_differ_in_branch(
    template: ScriptTemplate,
    xkey: Seq<char>,
    fingerprint: [u8; 4],
    network: Network,
)
    ensures
        ({
            let e = private_template(template, xkey, KeychainKind::External, network);
            let i = private_template(template, xkey, KeychainKind::Internal, network);
            &&& e.template == i.template
            &&& e.secret == i.secret
            &&& e.key.origin == i.key.origin
            &&& e.key.xkey == i.key.xkey
            &&& e.key.wildcard == i.key.wildcard
            &&& e.key.derivation_path.len() == 4
            &&& i.key.derivation_path.len() == 4
            &&& forall|k: int| 0 <= k < 3 ==> e.key.derivation_path[k] == i.key.derivation_path[k]
            &&& e.key.derivation_path[3] == (ChildNumber { index: 0, hardened: false })
            &&& i.key.derivation_path[3] == (ChildNumber { index: 1, hardened: false })
        }),
        ({
            let e = public_template(template, xkey, fingerprint, KeychainKind::External, network);
            let i = public_template(template, xkey, fingerprint, KeychainKind::Internal, network);
            &&& e.template == i.template
            &&& e.secret == i.secret
            &&& e.key.origin == i.key.origin
            &&& e.key.xkey == i.key.xkey
            &&& e.key.wildcard == i.key.wildcard
            &&& e.key.derivation_path == seq![ChildNumber { index: 0, hardened: false }]
            &&& i.key.derivation_path == seq![ChildNumber { index: 1, hardened: false }]
        }),
{
}

/// The texts of the descriptors of the two keychains of one account are
/// the same but for one character, the branch: 0 for receiving, 1 for
/// change.
pub proof fn lemma_keychain_texts_differ_in_branch(
    template: ScriptTemplate,
    xkey: Seq<char>,
    network: Network,
)
    ensures
        ({
            let e = private_template(template, xkey, KeychainKind::External, network);
            let i = private_template(template, xkey, KeychainKind::Internal, network);
            let before = template_open(template) + xkey + steps_text(
                account_path(template, network),
            ) + seq!['/'];
            let after = seq!['/', '*'] + template_close(template);
            &&& bare_text(e.template, e.key) == before + seq!['0'] + after
            &&& bare_text(i.template, i.key) == before + seq!['1'] + after
        }),
{
    let account = account_path(template, network);
    let before = template_open(template) + xkey + steps_text(account) + seq!['/'];
    let after = seq!['/', '*'] + template_close(template);
    let e = private_template(template, xkey, KeychainKind::External, network);
    let i = private_template(template, xkey, KeychainKind::Internal, network);
    let zero = ChildNumber { index: 0, hardened: false };
    let one = ChildNumber { index: 1, hardened: false };
    assert((account + seq![zero]).drop_last() =~= account);
    assert((account + seq![one]).drop_last() =~= account);
    assert(e.key.derivation_path =~= account + seq![zero]);
    assert(i.key.derivation_path =~= account + seq![one]);
    assert(crate::path::decimal(0) =~= seq!['0']);
    assert(crate::path::decimal(1) =~= seq!['1']);
    assert(steps_text(account + seq![zero]) =~= steps_text(account) + seq!['/'] + seq!['0']);
    assert(steps_text(account + seq![one]) =~= steps_text(account) + seq!['/'] + seq!['1']);
    assert(bare_text(e.template, e.key) =~= before + seq!['0'] + after);
    assert(bare_text(i.template, i.key) =~= before + seq!['1'] + after);
}

/// What opens the text of a template.
pub open spec fn template_open(template: ScriptTemplate) -> Seq<char> {
    match template {
        ScriptTemplate::P2Pkh => seq!['p', 'k', 'h', '('],
        ScriptTemplate::P2ShP2Wpkh => seq!['s', 'h', '(', 'w', 'p', 'k', 'h', '('],
        ScriptTemplate::P2Wpkh => seq!['w', 'p', 'k', 'h', '('],
    }
}

/// What closes the text of a template.
pub open spec fn template_close(template: ScriptTemplate) -> Seq<char> {
    match template {
        ScriptTemplate::P2ShP2Wpkh => seq![')', ')'],
        _ => seq![')'],
    }
}

/// The text of a descriptor without its checksum: the script form around
/// the text of the key.
pub open spec fn bare_text(template: ScriptTemplate, key: KeyView) -> Seq<char> {
    template_open(template) + key_text(key) + template_close(template)
}

/// A descriptor text with its checksum behind a number sign; None where
/// the text has no checksum.
pub open spec fn with_checksum(text: Seq<char>) -> Option<Seq<char>> {
    match descriptor_checksum(text) {
        Some(c) => Some(text + seq!['#'] + c),
        None => None,
    }
}

/// The steps of a template in the wallet's own type.
fn account_steps(template: ScriptTemplate, network: Network) -> (r: Vec<ChildNumber>)
    ensures
        r@ == account_path(template, network),
{
    let purpose: u32 = match template {
        ScriptTemplate::P2Pkh => 44,
        ScriptTemplate::P2ShP2Wpkh => 49,
        ScriptTemplate::P2Wpkh => 84,
    };
    let coin: u32 = match network {
        Network::Bitcoin => 0,
        _ => 1,
    };
    let mut steps: Vec<ChildNumber> = Vec::new();
    steps.push(ChildNumber { index: purpose, hardened: true });
    steps.push(ChildNumber { index: coin, hardened: true });
    steps.push(ChildNumber { index: 0, hardened: true });
    assert(steps@ =~= account_path(template, network));
    steps
}

/// The branch of a keychain.
fn branch_step(keychain: KeychainKind) -> (r: ChildNumber)
    ensures
        seq![r] == branch_path(keychain),
{
    let index: u32 = match keychain {
        KeychainKind::External => 0,
        KeychainKind::Internal => 1,
    };
    let r = ChildNumber { index, hardened: false };
    assert(seq![r] =~= branch_path(keychain));
    r
}

impl Descriptor {
    /// The descriptor that a template makes of the extended key of
    /// `secret_key`. Origin and steps of `secret_key` play no part.
    pub fn new_private(
        template: ScriptTemplate,
        secret_key: &DescriptorSecretKey,
        keychain: KeychainKind,
        network: Network,
    ) -> (r: Descriptor)
        ensures
            r@ == private_template(template, secret_key@.xkey, keychain, network),
    {
        let mut steps: Vec<ChildNumber> = account_steps(template, network);
        let branch = branch_step(keychain);
        steps.push(branch);
        assert(steps@ =~= account_path(template, network) + branch_path(keychain));
        Descriptor {
            template,
            key: DescriptorKey::Secret(
                DescriptorSecretKey {
                    origin: None,
                    xkey: secret_key.xkey.clone(),
                    derivation_path: DerivationPath { segments: steps },
                    wildcard: Wildcard::Unhardened,
                },
            ),
        }
    }

    /// The descriptor that a template makes of the extended key of
    /// `public_key`, taken as the key of the account below the master key
    /// with the fingerprint `fingerprint`.
    pub fn new_public(
        template: ScriptTemplate,
        public_key: &DescriptorPublicKey,
        fingerprint: [u8; 4],
        keychain: KeychainKind,
        network: Network,
    ) -> (r: Descriptor)
        ensures
            r@ == public_template(template, public_key@.xkey, fingerprint, keychain, network),
    {
        let mut branch: Vec<ChildNumber> = Vec::new();
        branch.push(branch_step(keychain));
        assert(branch@ =~= branch_path(keychain));
        Descriptor {
            template,
            key: DescriptorKey::Public(
                DescriptorPublicKey {
                    origin: Some(
                        KeyOrigin {
                            fingerprint,
                            path: DerivationPath { segments: account_steps(template, network) },
                        },
                    ),
                    xkey: public_key.xkey.clone(),
                    derivation_path: DerivationPath { segments: branch },
                    wildcard: Wildcard::Unhardened,
                },
            ),
        }
    }

    /// The text of the descriptor without its checksum.
    pub fn bare_string(&self) -> (r: String)
        ensures
            r@ == bare_text(self@.template, self@.key),
    {
        proof {
            reveal_strlit("pkh(");
            reveal_strlit("sh(wpkh(");
            reveal_strlit("wpkh(");
            reveal_strlit(")");
            reveal_strlit("))");
        }
        let mut out: String = String::new();
        match self.template {
            ScriptTemplate::P2Pkh => {
                out.append("pkh(");
            },
            ScriptTemplate::P2ShP2Wpkh => {
                out.append("sh(wpkh(");
            },
            ScriptTemplate::P2Wpkh => {
                out.append("wpkh(");
            },
        }
        assert(out@ =~= template_open(self.template));
        let key: String = match &self.key {
            DescriptorKey::Secret(k) => k.as_string(),
            DescriptorKey::Public(k) => k.as_string(),
        };
        out.append(key.as_str());
        let ghost before = out@;
        match self.template {
            ScriptTemplate::P2ShP2Wpkh => {
                out.append("))");
            },
            _ => {
                out.append(")");
            },
        }
        assert(out@ =~= before + template_close(self.template));
        out
    }

    /// The text of the descriptor with the key as it is, secret or public,
    /// and the checksum.
    pub fn as_string_private(&self) -> (r: Result<String, WalletError>)
        ensures
            match with_checksum(bare_text(self@.template, self@.key)) {
                Some(t) => r is Ok && r->Ok_0@ == t,
                None => r == Err::<String, WalletError>(WalletError::Generic),
            },
    {
        proof {
            reveal_strlit("#");
        }
        let mut out: String = self.bare_string();
        match checksum_of(out.as_str()) {
            Some(c) => {
                out.append("#");
                out.append(c.as_str());
                assert(out@ =~= with_checksum(bare_text(self@.template, self@.key))->0);
                Ok(out)
            },
            None => Err(WalletError::Generic),
        }
    }

    /// The descriptor with public keys only: itself, or the one around the
    /// public key of its secret key.
    pub fn to_public(&self) -> (r: Result<Descriptor, WalletError>)
        ensures
            self@.secret ==> match as_public_spec(self@.key) {
                Ok(k) => r is Ok && r->Ok_0@ == (DescriptorView {
                    template: self@.template,
                    key: k,
                    secret: false,
                }),
                Err(e) => r == Err::<Descriptor, WalletError>(e),
            },
            !self@.secret ==> r is Ok && r->Ok_0@ == self@,
    {
        match &self.key {
            DescriptorKey::Secret(k) => match k.as_public() {
                Ok(p) => Ok(Descriptor { template: self.template, key: DescriptorKey::Public(p) }),
                Err(e) => Err(e),
            },
            DescriptorKey::Public(k) => Ok(
                Descriptor {
                    template: self.template,
                    key: DescriptorKey::Public(
                        DescriptorPublicKey {
                            origin: match &k.origin {
                                Some(o) => Some(
                                    KeyOrigin { fingerprint: o.fingerprint, path: o.path.copy() },
                                ),
                                None => None,
                            },
                            xkey: k.xkey.clone(),
                            derivation_path: k.derivation_path.copy(),
                            wildcard: k.wildcard,
                        },
                    ),
                },
            ),
        }
    }
}

} // verus!
