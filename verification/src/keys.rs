//! Descriptor keys: an extended key with where it comes from, the path to
//! derive below it, and whether it stands for a range of children.

use vstd::prelude::*;
use crate::error::{Invalid, WalletError};
use crate::path::{has_hardened, path_wf, push_steps, raws_of, steps_of, steps_text, ChildNumber, DerivationPath};
use crate::types::Network;

verus! {

/// Whether a key stands for all its children, and which.
#[derive(Clone, Copy, Debug, PartialEq, Eq, Structural)]
pub enum Wildcard {
    Absent,
    Unhardened,
    Hardened,
}

/// What the origin of a key is in contracts.
pub struct OriginView {
    pub fingerprint: [u8; 4],
    pub path: Seq<ChildNumber>,
}

/// Where a key comes from: the fingerprint of a master key and the path
/// from there.
#[derive(Clone, Debug)]
pub struct KeyOrigin {
    pub fingerprint: [u8; 4],
    pub path: DerivationPath,
}

impl View for KeyOrigin {
    type V = OriginView;

    open spec fn view(&self) -> OriginView {
        OriginView { fingerprint: self.fingerprint, path: self.path@ }
    }
}

/// What a descriptor key is in contracts.
pub struct KeyView {
    pub origin: Option<OriginView>,
    pub xkey: Seq<char>,
    pub derivation_path: Seq<ChildNumber>,
    pub wildcard: Wildcard,
}

/// The view of an origin that may be missing.
pub open spec fn opt_origin_view(o: Option<KeyOrigin>) -> Option<OriginView> {
    match o {
        Some(x) => Some(x@),
        None => None,
    }
}

/// A descriptor key with an extended private key.
#[derive(Clone, Debug)]
pub struct DescriptorSecretKey {
    pub origin: Option<KeyOrigin>,
    pub xkey: String,
    pub derivation_path: DerivationPath,
    pub wildcard: Wildcard,
}

impl View for DescriptorSecretKey {
    type V = KeyView;

    open spec fn view(&self) -> KeyView {
        KeyView {
            origin: opt_origin_view(self.origin),
            xkey: self.xkey@,
            derivation_path: self.derivation_path@,
            wildcard: self.wildcard,
        }
    }
}

/// A descriptor key with an extended public key.
#[derive(Clone, Debug)]
pub struct DescriptorPublicKey {
    pub origin: Option<KeyOrigin>,
    pub xkey: String,
    pub derivation_path: DerivationPath,
    pub wildcard: Wildcard,
}

impl View for DescriptorPublicKey {
    type V = KeyView;

    open spec fn view(&self) -> KeyView {
        KeyView {
            origin: opt_origin_view(self.origin),
            xkey: self.xkey@,
            derivation_path: self.derivation_path@,
            wildcard: self.wildcard,
        }
    }
}

/// What the parts of a key's text are in contracts.
pub struct PartsView {
    pub fingerprint: Option<[u8; 4]>,
    pub origin_path: Seq<u32>,
    pub xkey: Seq<char>,
    pub path: Seq<u32>,
    pub wildcard: u8,
}

/// The parts of a key's text, as the outside parser hands them over: steps
/// as numbers, the wildcard as 0 for none, 1 for plain and 2 for hardened.
#[derive(Clone, Debug)]
pub struct KeyParts {
    pub fingerprint: Option<[u8; 4]>,
    pub origin_path: Vec<u32>,
    pub xkey: String,
    pub path: Vec<u32>,
    pub wildcard: u8,
}

impl View for KeyParts {
    type V = PartsView;

    open spec fn view(&self) -> PartsView {
        PartsView {
            fingerprint: self.fingerprint,
            origin_path: self.origin_path@,
            xkey: self.xkey@,
            path: self.path@,
            wildcard: self.wildcard,
        }
    }
}

/// The parts of the text of a descriptor key with an extended private key;
/// None where the text is no such key.
pub uninterp spec fn secret_key_parts(text: Seq<char>) -> Option<PartsView>;

/// The parts of the text of a descriptor key with an extended public key;
/// None where the text is no such key.
pub uninterp spec fn public_key_parts(text: Seq<char>) -> Option<PartsView>;

/// The depth and the fingerprint of the extended private key with the text
/// `xkey`; None where the text is no such key.
pub uninterp spec fn xprv_facts(xkey: Seq<char>) -> Option<(u8, [u8; 4])>;

/// The depth and the fingerprint of the extended public key with the text
/// `xkey`; None where the text is no such key.
pub uninterp spec fn xpub_facts(xkey: Seq<char>) -> Option<(u8, [u8; 4])>;

/// The depth of the extended private key with the text `xkey`; nothing
/// where the text is no such key.
pub open spec fn xprv_depth(xkey: Seq<char>) -> int {
    match xprv_facts(xkey) {
        Some(facts) => facts.0 as int,
        None => 0,
    }
}

/// The depth of the extended public key with the text `xkey`; nothing
/// where the text is no such key.
pub open spec fn xpub_depth(xkey: Seq<char>) -> int {
    match xpub_facts(xkey) {
        Some(facts) => facts.0 as int,
        None => 0,
    }
}

/// The fingerprint of the extended private key with the text `xkey`.
pub open spec fn xprv_fingerprint(xkey: Seq<char>) -> [u8; 4] {
    let facts = xprv_facts(xkey)->0;
    facts.1
}

/// The fingerprint of the extended public key with the text `xkey`.
pub open spec fn xpub_fingerprint(xkey: Seq<char>) -> [u8; 4] {
    let facts = xpub_facts(xkey)->0;
    facts.1
}

/// The text of the extended private key that the steps `path` lead to from
/// the one with the text `xkey`; None where there is none.
pub uninterp spec fn derived_xprv(xkey: Seq<char>, path: Seq<u32>) -> Option<Seq<char>>;

/// The text of the extended public key that the steps `path` lead to from
/// the one with the text `xkey`; None where there is none, as for a
/// hardened step.
pub uninterp spec fn derived_xpub(xkey: Seq<char>, path: Seq<u32>) -> Option<Seq<char>>;

/// The text of the public descriptor key of the secret descriptor key with
/// the text `text`; None where there is none.
pub uninterp spec fn public_key_text(text: Seq<char>) -> Option<Seq<char>>;

/// The thirty-two secret bytes of the extended private key with the text
/// `xkey`; None where the text is no such key.
pub uninterp spec fn xprv_secret(xkey: Seq<char>) -> Option<Seq<u8>>;

/// The text of the master extended private key on `network` of the
/// mnemonic `mnemonic` under the passphrase `password`; None where the
/// mnemonic is none.
pub uninterp spec fn master_xprv(
    network: Network,
    mnemonic: Seq<char>,
    password: Option<Seq<char>>,
) -> Option<Seq<char>>;

/// Parses with `DescriptorSecretKey::from_str` of miniscript and hands over
/// the fields of an `XPrv`: the origin's fingerprint and path, the extended
/// key by `to_string`, the derivation path, the wildcard's place among the
/// variants. Not proved: that these are the parts of `text`.
#[verifier::external_body]
pub(crate) fn parse_secret_key(text: &str) -> (r: Option<KeyParts>)
    ensures
        r is Some == secret_key_parts(text@) is Some,
        r is Some ==> r->0@ == secret_key_parts(text@)->0,
{
    match text.parse::<bdk::keys::DescriptorSecretKey>().ok()? {
        bdk::keys::DescriptorSecretKey::XPrv(x) => Some(
            KeyParts {
                fingerprint: x.origin.as_ref().map(|o| o.0.into_bytes()),
                origin_path: x.origin.iter().flat_map(|o| &o.1).map(|c| u32::from(*c)).collect(),
                xkey: x.xkey.to_string(),
                path: x.derivation_path.into_iter().map(|c| u32::from(*c)).collect(),
                wildcard: x.wildcard as u8,
            },
        ),
        _ => None,
    }
}

/// Parses with `DescriptorPublicKey::from_str` of miniscript and hands over
/// the fields of an `XPub`, as `parse_secret_key` does. Not proved: that
/// these are the parts of `text`.
#[verifier::external_body]
pub(crate) fn parse_public_key(text: &str) -> (r: Option<KeyParts>)
    ensures
        r is Some == public_key_parts(text@) is Some,
        r is Some ==> r->0@ == public_key_parts(text@)->0,
{
    match text.parse::<bdk::keys::DescriptorPublicKey>().ok()? {
        bdk::keys::DescriptorPublicKey::XPub(x) => Some(
            KeyParts {
                fingerprint: x.origin.as_ref().map(|o| o.0.into_bytes()),
                origin_path: x.origin.iter().flat_map(|o| &o.1).map(|c| u32::from(*c)).collect(),
                xkey: x.xkey.to_string(),
                path: x.derivation_path.into_iter().map(|c| u32::from(*c)).collect(),
                wildcard: x.wildcard as u8,
            },
        ),
        _ => None,
    }
}

/// Parses with `ExtendedPrivKey::from_str` of bitcoin, reads the field
/// `depth` and calls `ExtendedPrivKey::fingerprint`. Not proved: that these
/// are the depth and the fingerprint of that key.
#[verifier::external_body]
pub(crate) fn xprv_facts_of(xkey: &str) -> (r: Option<(u8, [u8; 4])>)
    ensures
        r == xprv_facts(xkey@),
{
    let key = xkey.parse::<bdk::bitcoin::util::bip32::ExtendedPrivKey>().ok()?;
    let secp = bdk::bitcoin::secp256k1::Secp256k1::new();
    Some((key.depth, key.fingerprint(&secp).into_bytes()))
}

/// Parses with `ExtendedPubKey::from_str` of bitcoin, reads the field
/// `depth` and calls `ExtendedPubKey::fingerprint`. Not proved: that these
/// are the depth and the fingerprint of that key.
#[verifier::external_body]
pub(crate) fn xpub_facts_of(xkey: &str) -> (r: Option<(u8, [u8; 4])>)
    ensures
        r == xpub_facts(xkey@),
{
    let key = xkey.parse::<bdk::bitcoin::util::bip32::ExtendedPubKey>().ok()?;
    Some((key.depth, key.fingerprint().into_bytes()))
}

/// Calls `ExtendedPrivKey::derive_priv` of bitcoin on the parsed key. Not
/// proved: that the text is that of the derived key. The steps are few
/// enough for the depth to stay within a byte, which the outside function
/// takes for granted.
#[verifier::external_body]
pub(crate) fn derive_xprv(xkey: &str, path: &Vec<u32>) -> (r: Option<String>)
    requires
        xprv_depth(xkey@) + path.len() <= 255,
    ensures
        r is Some == derived_xprv(xkey@, path@) is Some,
        r is Some ==> r->0@ == derived_xprv(xkey@, path@)->0,
{
    let key = xkey.parse::<bdk::bitcoin::util::bip32::ExtendedPrivKey>().ok()?;
    let steps: Vec<bdk::bitcoin::util::bip32::ChildNumber> =
        path.iter().map(|n| (*n).into()).collect();
    let secp = bdk::bitcoin::secp256k1::Secp256k1::new();
    key.derive_priv(&secp, &steps).ok().map(|k| k.to_string())
}

/// Calls `ExtendedPubKey::derive_pub` of bitcoin on the parsed key. Not
/// proved: that the text is that of the derived key, and that a step of
/// 2^31 or more, a hardened one, gives none. The steps are few enough for
/// the depth to stay within a byte.
#[verifier::external_body]
pub(crate) fn derive_xpub(xkey: &str, path: &Vec<u32>) -> (r: Option<String>)
    requires
        xpub_depth(xkey@) + path.len() <= 255,
    ensures
        r is Some == derived_xpub(xkey@, path@) is Some,
        r is Some ==> r->0@ == derived_xpub(xkey@, path@)->0,
        r is Some ==> forall|i: int| 0 <= i < path.len() ==> path[i] < 0x8000_0000,
{
    let key = xkey.parse::<bdk::bitcoin::util::bip32::ExtendedPubKey>().ok()?;
    let steps: Vec<bdk::bitcoin::util::bip32::ChildNumber> =
        path.iter().map(|n| (*n).into()).collect();
    let secp = bdk::bitcoin::secp256k1::Secp256k1::new();
    key.derive_pub(&secp, &steps).ok().map(|k| k.to_string())
}

/// Parses with `DescriptorSecretKey::from_str` of miniscript and calls
/// `DescriptorSecretKey::to_public`. Not proved: that the text is that of
/// the public key. The hardened steps that the outside function applies are
/// few enough for the depth to stay within a byte.
#[verifier::external_body]
pub(crate) fn public_text_of(text: &str) -> (r: Option<String>)
    requires
        secret_key_parts(text@) is Some ==> xprv_depth(secret_key_parts(text@)->0.xkey)
            + secret_key_parts(text@)->0.path.len() <= 255,
    ensures
        r is Some == public_key_text(text@) is Some,
        r is Some ==> r->0@ == public_key_text(text@)->0,
{
    let key = text.parse::<bdk::keys::DescriptorSecretKey>().ok()?;
    let secp = bdk::bitcoin::secp256k1::Secp256k1::new();
    key.to_public(&secp).ok().map(|k| k.to_string())
}

/// Parses with `ExtendedPrivKey::from_str` of bitcoin and calls
/// `SecretKey::secret_bytes` on its private key. Not proved: that the
/// bytes are the secret of that key.
#[verifier::external_body]
pub(crate) fn xprv_secret_of(xkey: &str) -> (r: Option<Vec<u8>>)
    ensures
        r is Some == xprv_secret(xkey@) is Some,
        r is Some ==> r->0@ == xprv_secret(xkey@)->0,
{
    let key = xkey.parse::<bdk::bitcoin::util::bip32::ExtendedPrivKey>().ok()?;
    Some(key.private_key.secret_bytes().to_vec())
}

/// Parses the mnemonic with `Mnemonic::parse` of bip39, turns it and the
/// passphrase into an extended key with `DerivableKey::into_extended_key`
/// of bdk, and that into a private key for the network of the same name,
/// variant for variant, with `ExtendedKey::into_xprv`. Not proved: that the text is that of the
/// master key.
#[verifier::external_body]
pub(crate) fn master_xprv_of(network: Network, mnemonic: &str, password: &Option<String>) -> (r:
    Option<String>)
    ensures
        r is Some == master_xprv(network, mnemonic@, crate::keys::opt_text_view(*password))
            is Some,
        r is Some ==> r->0@ == master_xprv(
            network,
            mnemonic@,
            crate::keys::opt_text_view(*password),
        )->0,
{
    let words = bdk::keys::bip39::Mnemonic::parse(mnemonic).ok()?;
    let key: bdk::keys::ExtendedKey<bdk::miniscript::BareCtx> =
        bdk::keys::DerivableKey::into_extended_key((words, password.clone())).ok()?;
    let net = match network {
        Network::Bitcoin => bdk::bitcoin::Network::Bitcoin,
        Network::Testnet => bdk::bitcoin::Network::Testnet,
        Network::Signet => bdk::bitcoin::Network::Signet,
        Network::Regtest => bdk::bitcoin::Network::Regtest,
    };
    key.into_xprv(net).map(|k| k.to_string())
}

/// The view of a text that may be missing.
pub open spec fn opt_text_view(s: Option<String>) -> Option<Seq<char>> {
    match s {
        Some(x) => Some(x@),
        None => None,
    }
}


/// The wildcard that the number `n` stands for, if any.
pub open spec fn wildcard_of(n: u8) -> Option<Wildcard> {
    if n == 0 {
        Some(Wildcard::Absent)
    } else if n == 1 {
        Some(Wildcard::Unhardened)
    } else if n == 2 {
        Some(Wildcard::Hardened)
    } else {
        None
    }
}

/// The key made of the parts `p`; None where the wildcard is none of the
/// three.
pub open spec fn key_of_parts(p: PartsView) -> Option<KeyView> {
    match wildcard_of(p.wildcard) {
        Some(w) => Some(
            KeyView {
                origin: match p.fingerprint {
                    Some(f) => Some(OriginView { fingerprint: f, path: steps_of(p.origin_path) }),
                    None => None,
                },
                xkey: p.xkey,
                derivation_path: steps_of(p.path),
                wildcard: w,
            },
        ),
        None => None,
    }
}

/// The lower-case hexadecimal digit of value `n`.
pub open spec fn hex_char(n: int) -> char {
    if n == 0 {
        '0'
    } else if n == 1 {
        '1'
    } else if n == 2 {
        '2'
    } else if n == 3 {
        '3'
    } else if n == 4 {
        '4'
    } else if n == 5 {
        '5'
    } else if n == 6 {
        '6'
    } else if n == 7 {
        '7'
    } else if n == 8 {
        '8'
    } else if n == 9 {
        '9'
    } else if n == 10 {
        'a'
    } else if n == 11 {
        'b'
    } else if n == 12 {
        'c'
    } else if n == 13 {
        'd'
    } else if n == 14 {
        'e'
    } else {
        'f'
    }
}

/// The bytes `b` in lower-case hexadecimal, two digits each.
pub open spec fn hex_text(b: Seq<u8>) -> Seq<char>
    decreases b.len(),
{
    if b.len() == 0 {
        Seq::empty()
    } else {
        hex_text(b.drop_last()).push(hex_char(b.last() as int / 16)).push(
            hex_char(b.last() as int % 16),
        )
    }
}

/// The text of an origin: in square brackets the fingerprint and the path.
pub open spec fn origin_text(o: Option<OriginView>) -> Seq<char> {
    match o {
        Some(x) => seq!['['] + hex_text(x.fingerprint@) + steps_text(x.path) + seq![']'],
        None => Seq::empty(),
    }
}

/// The text of a wildcard.
pub open spec fn wildcard_text(w: Wildcard) -> Seq<char> {
    match w {
        Wildcard::Absent => Seq::empty(),
        Wildcard::Unhardened => seq!['/', '*'],
        Wildcard::Hardened => seq!['/', '*', 'h'],
    }
}

/// The text of a descriptor key: origin, extended key, path and wildcard.
pub open spec fn key_text(k: KeyView) -> Seq<char> {
    origin_text(k.origin) + k.xkey + steps_text(k.derivation_path) + wildcard_text(k.wildcard)
}

/// The key that `extend` makes: the same key with the steps of `path`
/// behind its own. Further derivation stays possible.
pub open spec fn extended_key(k: KeyView, path: Seq<ChildNumber>) -> KeyView {
    KeyView { derivation_path: k.derivation_path + path, ..k }
}

/// The origin of a key derived along `path`: the origin of the key it was
/// derived from, the path behind its own; or, where that key has none, that
/// key's own fingerprint and the path.
pub open spec fn derived_origin(k: KeyView, fingerprint: [u8; 4], path: Seq<ChildNumber>) -> OriginView {
    match k.origin {
        Some(o) => OriginView { fingerprint: o.fingerprint, path: o.path + path },
        None => OriginView { fingerprint, path },
    }
}

/// The key that `derive` makes out of the extended key `xkey` that the
/// outside derivation gave: one fixed key, with the path in its origin and
/// no steps left to take.
pub open spec fn derived_key(
    k: KeyView,
    fingerprint: [u8; 4],
    path: Seq<ChildNumber>,
    xkey: Seq<char>,
) -> KeyView {
    KeyView {
        origin: Some(derived_origin(k, fingerprint, path)),
        xkey,
        derivation_path: Seq::empty(),
        wildcard: k.wildcard,
    }
}

/// What deriving the secret key `k` along `path` gives. An index out of
/// range is rejected; a failure of the underlying derivation is reported as
/// such.
pub open spec fn derive_secret_spec(k: KeyView, path: Seq<ChildNumber>) -> Result<
    KeyView,
    WalletError,
> {
    if !path_wf(path) {
        Err(WalletError::ValidationError(Invalid::PathIndex))
    } else if xprv_facts(k.xkey) is None || xprv_depth(k.xkey) + path.len() > 255
        || derived_xprv(k.xkey, raws_of(path)) is None {
        Err(WalletError::Generic)
    } else {
        Ok(derived_key(k, xprv_fingerprint(k.xkey), path, derived_xprv(k.xkey, raws_of(path))->0))
    }
}

/// What deriving the public key `k` along `path` gives. A hardened step
/// takes secret key material, so a path with one is refused, as a failure
/// of the derivation.
pub open spec fn derive_public_spec(k: KeyView, path: Seq<ChildNumber>) -> Result<
    KeyView,
    WalletError,
> {
    if !path_wf(path) {
        Err(WalletError::ValidationError(Invalid::PathIndex))
    } else if has_hardened(path) {
        Err(WalletError::Generic)
    } else if xpub_facts(k.xkey) is None || xpub_depth(k.xkey) + path.len() > 255
        || derived_xpub(k.xkey, raws_of(path)) is None {
        Err(WalletError::Generic)
    } else {
        Ok(derived_key(k, xpub_fingerprint(k.xkey), path, derived_xpub(k.xkey, raws_of(path))->0))
    }
}

/// The key that the text `text` denotes, by the outside parser's parts.
pub open spec fn secret_from_text(text: Seq<char>) -> Option<KeyView> {
    match secret_key_parts(text) {
        Some(p) => key_of_parts(p),
        None => None,
    }
}

/// The key that the text `text` denotes, by the outside parser's parts.
pub open spec fn public_from_text(text: Seq<char>) -> Option<KeyView> {
    match public_key_parts(text) {
        Some(p) => key_of_parts(p),
        None => None,
    }
}

/// The public key of the secret key `k`: what the outside conversion makes
/// of the key's text, read back. Any failure on the way is reported as one
/// of the underlying primitive.
pub open spec fn as_public_spec(k: KeyView) -> Result<KeyView, WalletError> {
    let text = key_text(k);
    if secret_key_parts(text) is None || xprv_facts(secret_key_parts(text)->0.xkey) is None
        || xprv_depth(secret_key_parts(text)->0.xkey) + secret_key_parts(text)->0.path.len()
        > 255 || public_key_text(text) is None || public_from_text(public_key_text(text)->0)
        is None {
        Err(WalletError::Generic)
    } else {
        Ok(public_from_text(public_key_text(text)->0)->0)
    }
}

/// The text of the lower-case hexadecimal digit of value `n`.
pub(crate) fn hex_str(n: u8) -> (r: &'static str)
    requires
        n < 16,
    ensures
        r@ == seq![hex_char(n as int)],
{
    proof {
        reveal_strlit("0");
        reveal_strlit("1");
        reveal_strlit("2");
        reveal_strlit("3");
        reveal_strlit("4");
        reveal_strlit("5");
        reveal_strlit("6");
        reveal_strlit("7");
        reveal_strlit("8");
        reveal_strlit("9");
        reveal_strlit("a");
        reveal_strlit("b");
        reveal_strlit("c");
        reveal_strlit("d");
        reveal_strlit("e");
        reveal_strlit("f");
    }
    let r = if n == 0 {
        "0"
    } else if n == 1 {
        "1"
    } else if n == 2 {
        "2"
    } else if n == 3 {
        "3"
    } else if n == 4 {
        "4"
    } else if n == 5 {
        "5"
    } else if n == 6 {
        "6"
    } else if n == 7 {
        "7"
    } else if n == 8 {
        "8"
    } else if n == 9 {
        "9"
    } else if n == 10 {
        "a"
    } else if n == 11 {
        "b"
    } else if n == 12 {
        "c"
    } else if n == 13 {
        "d"
    } else if n == 14 {
        "e"
    } else {
        "f"
    };
    assert(r@ =~= seq![hex_char(n as int)]);
    r
}

/// Appends the four bytes of a fingerprint in hexadecimal.
pub fn push_fingerprint(out: &mut String, f: &[u8; 4])
    ensures
        final(out)@ == old(out)@ + hex_text(f@),
{
    let mut i: usize = 0;
    assert(out@ =~= old(out)@ + hex_text(f@.take(0)));
    while i < 4
        invariant
            i <= 4,
            out@ == old(out)@ + hex_text(f@.take(i as int)),
        decreases 4 - i,
    {
        out.append(hex_str(f[i] / 16));
        out.append(hex_str(f[i] % 16));
        proof {
            assert(f@.take(i + 1).drop_last() =~= f@.take(i as int));
            assert(f@.take(i + 1).last() == f@[i as int]);
            assert(out@ =~= old(out)@ + hex_text(f@.take(i + 1)));
        }
        i += 1;
    }
    assert(f@.take(4) =~= f@);
}

/// Appends the text of a key with the given parts.
fn push_key(
    out: &mut String,
    origin: &Option<KeyOrigin>,
    xkey: &String,
    path: &DerivationPath,
    wildcard: Wildcard,
)
    ensures
        final(out)@ == old(out)@ + key_text(
            KeyView {
                origin: opt_origin_view(*origin),
                xkey: xkey@,
                derivation_path: path@,
                wildcard,
            },
        ),
{
    proof {
        reveal_strlit("[");
        reveal_strlit("]");
        reveal_strlit("/*");
        reveal_strlit("/*h");
    }
    match origin {
        Some(o) => {
            out.append("[");
            push_fingerprint(out, &o.fingerprint);
            push_steps(out, &o.path.segments);
            out.append("]");
            assert(out@ =~= old(out)@ + origin_text(opt_origin_view(*origin)));
        },
        None => {
            assert(out@ =~= old(out)@ + origin_text(opt_origin_view(*origin)));
        },
    }
    out.append(xkey.as_str());
    push_steps(out, &path.segments);
    let ghost before = out@;
    match wildcard {
        Wildcard::Absent => {},
        Wildcard::Unhardened => {
            out.append("/*");
        },
        Wildcard::Hardened => {
            out.append("/*h");
        },
    }
    proof {
        assert("/*"@ =~= seq!['/', '*']);
        assert("/*h"@ =~= seq!['/', '*', 'h']);
        assert(out@ =~= before + wildcard_text(wildcard));
        assert(out@ =~= old(out)@ + key_text(
            KeyView {
                origin: opt_origin_view(*origin),
                xkey: xkey@,
                derivation_path: path@,
                wildcard,
            },
        ));
    }
}

/// The wildcard that the number `n` stands for.
pub fn wildcard_from(n: u8) -> (r: Option<Wildcard>)
    ensures
        r == wildcard_of(n),
{
    if n == 0 {
        Some(Wildcard::Absent)
    } else if n == 1 {
        Some(Wildcard::Unhardened)
    } else if n == 2 {
        Some(Wildcard::Hardened)
    } else {
        None
    }
}

/// The origin made of a fingerprint, if there is one, and a path.
fn origin_from(fingerprint: Option<[u8; 4]>, path: &Vec<u32>) -> (r: Option<KeyOrigin>)
    ensures
        opt_origin_view(r) == match fingerprint {
            Some(f) => Some(OriginView { fingerprint: f, path: steps_of(path@) }),
            None => None,
        },
{
    match fingerprint {
        Some(f) => Some(KeyOrigin { fingerprint: f, path: DerivationPath::from_raw(path) }),
        None => None,
    }
}

/// The origin of a key derived along `path`.
fn derived_origin_of(origin: &Option<KeyOrigin>, fingerprint: [u8; 4], path: &DerivationPath) -> (r:
    KeyOrigin)
    ensures
        r@ == derived_origin(
            KeyView {
                origin: opt_origin_view(*origin),
                xkey: Seq::empty(),
                derivation_path: Seq::empty(),
                wildcard: Wildcard::Absent,
            },
            fingerprint,
            path@,
        ),
{
    match origin {
        Some(o) => KeyOrigin { fingerprint: o.fingerprint, path: o.path.extend(path) },
        None => KeyOrigin { fingerprint, path: path.copy() },
    }
}

/// A copy of an origin that may be missing.
fn copy_origin(origin: &Option<KeyOrigin>) -> (r: Option<KeyOrigin>)
    ensures
        opt_origin_view(r) == opt_origin_view(*origin),
{
    match origin {
        Some(o) => Some(KeyOrigin { fingerprint: o.fingerprint, path: o.path.copy() }),
        None => None,
    }
}

impl DescriptorPublicKey {
    /// The key that `text` denotes.
    pub fn from_string(text: &str) -> (r: Result<DescriptorPublicKey, WalletError>)
        ensures
            match public_from_text(text@) {
                Some(k) => r is Ok && r->Ok_0@ == k,
                None => r == Err::<DescriptorPublicKey, WalletError>(
                    WalletError::ValidationError(Invalid::KeyText),
                ),
            },
    {
        let parts: KeyParts = match parse_public_key(text) {
            Some(p) => p,
            None => {
                return Err(WalletError::ValidationError(Invalid::KeyText));
            },
        };
        let wildcard: Wildcard = match wildcard_from(parts.wildcard) {
            Some(w) => w,
            None => {
                return Err(WalletError::ValidationError(Invalid::KeyText));
            },
        };
        Ok(
            DescriptorPublicKey {
                origin: origin_from(parts.fingerprint, &parts.origin_path),
                derivation_path: DerivationPath::from_raw(&parts.path),
                xkey: parts.xkey,
                wildcard,
            },
        )
    }

    /// The text of the key.
    pub fn as_string(&self) -> (r: String)
        ensures
            r@ == key_text(self@),
    {
        let mut out: String = String::new();
        push_key(&mut out, &self.origin, &self.xkey, &self.derivation_path, self.wildcard);
        assert(out@ =~= key_text(self@));
        out
    }

    /// The same key with the steps of `path` behind its own.
    pub fn extend(&self, path: &DerivationPath) -> (r: DescriptorPublicKey)
        ensures
            r@ == extended_key(self@, path@),
    {
        DescriptorPublicKey {
            origin: copy_origin(&self.origin),
            xkey: self.xkey.clone(),
            derivation_path: self.derivation_path.extend(path),
            wildcard: self.wildcard,
        }
    }

    /// The one key that the steps of `path` lead to.
    pub fn derive(&self, path: &DerivationPath) -> (r: Result<DescriptorPublicKey, WalletError>)
        ensures
            match derive_public_spec(self@, path@) {
                Ok(k) => r is Ok && r->Ok_0@ == k,
                Err(e) => r == Err::<DescriptorPublicKey, WalletError>(e),
            },
    {
        let raw: Vec<u32> = match path.to_raw() {
            Some(v) => v,
            None => {
                return Err(WalletError::ValidationError(Invalid::PathIndex));
            },
        };
        if path.has_hardened_step() {
            return Err(WalletError::Generic);
        }
        let (depth, fingerprint) = match xpub_facts_of(self.xkey.as_str()) {
            Some(f) => f,
            None => {
                return Err(WalletError::Generic);
            },
        };
        if raw.len() > 255 - depth as usize {
            return Err(WalletError::Generic);
        }
        let xkey: String = match derive_xpub(self.xkey.as_str(), &raw) {
            Some(x) => x,
            None => {
                return Err(WalletError::Generic);
            },
        };
        let segments: Vec<ChildNumber> = Vec::new();
        Ok(
            DescriptorPublicKey {
                origin: Some(derived_origin_of(&self.origin, fingerprint, path)),
                xkey,
                derivation_path: DerivationPath { segments },
                wildcard: self.wildcard,
            },
        )
    }
}

impl DescriptorSecretKey {
    /// The master key on `network` of a mnemonic and a passphrase: a key
    /// without origin or steps that stands for all its plain children.
    pub fn new(network: Network, mnemonic: &str, password: &Option<String>) -> (r: Result<
        DescriptorSecretKey,
        WalletError,
    >)
        ensures
            match master_xprv(network, mnemonic@, opt_text_view(*password)) {
                Some(x) => r is Ok && r->Ok_0@ == (KeyView {
                    origin: None,
                    xkey: x,
                    derivation_path: Seq::empty(),
                    wildcard: Wildcard::Unhardened,
                }),
                None => r == Err::<DescriptorSecretKey, WalletError>(
                    WalletError::ValidationError(Invalid::KeyText),
                ),
            },
    {
        match master_xprv_of(network, mnemonic, password) {
            Some(xkey) => {
                let segments: Vec<ChildNumber> = Vec::new();
                Ok(
                    DescriptorSecretKey {
                        origin: None,
                        xkey,
                        derivation_path: DerivationPath { segments },
                        wildcard: Wildcard::Unhardened,
                    },
                )
            },
            None => Err(WalletError::ValidationError(Invalid::KeyText)),
        }
    }

    /// The key that `text` denotes.
    pub fn from_string(text: &str) -> (r: Result<DescriptorSecretKey, WalletError>)
        ensures
            match secret_from_text(text@) {
                Some(k) => r is Ok && r->Ok_0@ == k,
                None => r == Err::<DescriptorSecretKey, WalletError>(
                    WalletError::ValidationError(Invalid::KeyText),
                ),
            },
    {
        let parts: KeyParts = match parse_secret_key(text) {
            Some(p) => p,
            None => {
                return Err(WalletError::ValidationError(Invalid::KeyText));
            },
        };
        let wildcard: Wildcard = match wildcard_from(parts.wildcard) {
            Some(w) => w,
            None => {
                return Err(WalletError::ValidationError(Invalid::KeyText));
            },
        };
        Ok(
            DescriptorSecretKey {
                origin: origin_from(parts.fingerprint, &parts.origin_path),
                derivation_path: DerivationPath::from_raw(&parts.path),
                xkey: parts.xkey,
                wildcard,
            },
        )
    }

    /// The text of the key.
    pub fn as_string(&self) -> (r: String)
        ensures
            r@ == key_text(self@),
    {
        let mut out: String = String::new();
        push_key(&mut out, &self.origin, &self.xkey, &self.derivation_path, self.wildcard);
        assert(out@ =~= key_text(self@));
        out
    }

    /// The same key with the steps of `path` behind its own.
    pub fn extend(&self, path: &DerivationPath) -> (r: DescriptorSecretKey)
        ensures
            r@ == extended_key(self@, path@),
    {
        DescriptorSecretKey {
            origin: copy_origin(&self.origin),
            xkey: self.xkey.clone(),
            derivation_path: self.derivation_path.extend(path),
            wildcard: self.wildcard,
        }
    }

    /// The one key that the steps of `path` lead to.
    pub fn derive(&self, path: &DerivationPath) -> (r: Result<DescriptorSecretKey, WalletError>)
        ensures
            match derive_secret_spec(self@, path@) {
                Ok(k) => r is Ok && r->Ok_0@ == k,
                Err(e) => r == Err::<DescriptorSecretKey, WalletError>(e),
            },
    {
        let raw: Vec<u32> = match path.to_raw() {
            Some(v) => v,
            None => {
                return Err(WalletError::ValidationError(Invalid::PathIndex));
            },
        };
        let (depth, fingerprint) = match xprv_facts_of(self.xkey.as_str()) {
            Some(f) => f,
            None => {
                return Err(WalletError::Generic);
            },
        };
        if raw.len() > 255 - depth as usize {
            return Err(WalletError::Generic);
        }
        let xkey: String = match derive_xprv(self.xkey.as_str(), &raw) {
            Some(x) => x,
            None => {
                return Err(WalletError::Generic);
            },
        };
        let segments: Vec<ChildNumber> = Vec::new();
        Ok(
            DescriptorSecretKey {
                origin: Some(derived_origin_of(&self.origin, fingerprint, path)),
                xkey,
                derivation_path: DerivationPath { segments },
                wildcard: self.wildcard,
            },
        )
    }

    /// The public key of this key.
    pub fn as_public(&self) -> (r: Result<DescriptorPublicKey, WalletError>)
        ensures
            match as_public_spec(self@) {
                Ok(k) => r is Ok && r->Ok_0@ == k,
                Err(e) => r == Err::<DescriptorPublicKey, WalletError>(e),
            },
    {
        let text: String = self.as_string();
        let parts: KeyParts = match parse_secret_key(text.as_str()) {
            Some(p) => p,
            None => {
                return Err(WalletError::Generic);
            },
        };
        let (depth, _fingerprint) = match xprv_facts_of(parts.xkey.as_str()) {
            Some(f) => f,
            None => {
                return Err(WalletError::Generic);
            },
        };
        if parts.path.len() > 255 - depth as usize {
            return Err(WalletError::Generic);
        }
        let public: String = match public_text_of(text.as_str()) {
            Some(t) => t,
            None => {
                return Err(WalletError::Generic);
            },
        };
        match DescriptorPublicKey::from_string(public.as_str()) {
            Ok(k) => Ok(k),
            Err(_) => Err(WalletError::Generic),
        }
    }

    /// The thirty-two secret bytes of the extended key.
    pub fn secret_bytes(&self) -> (r: Result<Vec<u8>, WalletError>)
        ensures
            match xprv_secret(self@.xkey) {
                Some(b) => r is Ok && r->Ok_0@ == b,
                None => r == Err::<Vec<u8>, WalletError>(WalletError::Generic),
            },
    {
        match xprv_secret_of(self.xkey.as_str()) {
            Some(b) => Ok(b),
            None => Err(WalletError::Generic),
        }
    }
}

} // verus!
