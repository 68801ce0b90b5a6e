//! Mnemonic sentences: the words that stand for the seed of a wallet.

use vstd::prelude::*;
use crate::error::{Invalid, WalletError};

verus! {

/// How many words a mnemonic has.
#[derive(Clone, Copy, Debug, PartialEq, Eq, Structural)]
pub enum WordCount {
    Words12,
    Words15,
    Words18,
    Words21,
    Words24,
}

/// The number of words.
pub open spec fn words_of(count: WordCount) -> nat {
    match count {
        WordCount::Words12 => 12,
        WordCount::Words15 => 15,
        WordCount::Words18 => 18,
        WordCount::Words21 => 21,
        WordCount::Words24 => 24,
    }
}

/// The text in standard form of the mnemonic that `text` denotes; None
/// where it denotes none.
pub uninterp spec fn mnemonic_text(text: Seq<char>) -> Option<Seq<char>>;

/// The text of the mnemonic that stands for the entropy `entropy`; None
/// where the entropy is of no length that a mnemonic can stand for.
pub uninterp spec fn entropy_mnemonic(entropy: Seq<u8>) -> Option<Seq<char>>;

/// Calls `GeneratableKey::generate` of bdk for a mnemonic in English of
/// the given number of words, and `to_string`. The words are drawn at
/// random, so nothing is stated of the text.
#[verifier::external_body]
pub(crate) fn random_mnemonic(count: WordCount) -> (r: Option<String>) {
    let words = match count {
        WordCount::Words12 => bdk::keys::bip39::WordCount::Words12,
        WordCount::Words15 => bdk::keys::bip39::WordCount::Words15,
        WordCount::Words18 => bdk::keys::bip39::WordCount::Words18,
        WordCount::Words21 => bdk::keys::bip39::WordCount::Words21,
        WordCount::Words24 => bdk::keys::bip39::WordCount::Words24,
    };
    let options = (words, bdk::keys::bip39::Language::English);
    let key: bdk::keys::GeneratedKey<bdk::keys::bip39::Mnemonic, bdk::miniscript::BareCtx> =
        bdk::keys::GeneratableKey::generate(options).ok()?;
    Some(key.to_string())
}

/// Calls `Mnemonic::parse` of bip39, then `to_string`. Not proved: that the
/// text is the standard form of the mnemonic.
#[verifier::external_body]
pub(crate) fn parse_mnemonic(text: &str) -> (r: Option<String>)
    ensures
        r is Some == mnemonic_text(text@) is Some,
        r is Some ==> r->0@ == mnemonic_text(text@)->0,
{
    bdk::keys::bip39::Mnemonic::parse(text).ok().map(|m| m.to_string())
}

/// Calls `Mnemonic::from_entropy` of bip39, then `to_string`. Not proved:
/// that the text is the mnemonic of the entropy.
#[verifier::external_body]
pub(crate) fn entropy_to_mnemonic(entropy: &Vec<u8>) -> (r: Option<String>)
    ensures
        r is Some == entropy_mnemonic(entropy@) is Some,
        r is Some ==> r->0@ == entropy_mnemonic(entropy@)->0,
{
    bdk::keys::bip39::Mnemonic::from_entropy(entropy).ok().map(|m| m.to_string())
}

/// How many of the first `n` characters of `s` are spaces.
pub open spec fn spaces_in(s: Seq<char>, n: int) -> nat
    decreases n,
{
    if n <= 0 {
        0
    } else {
        spaces_in(s, n - 1) + if s[n - 1] == ' ' {
            1nat
        } else {
            0nat
        }
    }
}

/// The number of words of a text whose words stand one space apart.
pub open spec fn word_count(s: Seq<char>) -> nat {
    spaces_in(s, s.len() as int) + 1
}

/// The number of words of `text`, if it is below 2^32.
pub fn count_words(text: &str) -> (r: Option<u32>)
    ensures
        r is Some ==> r->0 == word_count(text@),
        r is None ==> word_count(text@) > u32::MAX,
{
    let len: usize = text.unicode_len();
    let mut spaces: u32 = 0;
    let mut i: usize = 0;
    while i < len
        invariant
            i <= len,
            len == text@.len(),
            spaces == spaces_in(text@, i as int),
            spaces < u32::MAX,
        decreases len - i,
    {
        if text.get_char(i) == ' ' {
            if spaces >= u32::MAX - 1 {
                proof {
                    lemma_spaces_grow(text@, i + 1, len as int);
                }
                return None;
            }
            spaces += 1;
        }
        i += 1;
    }
    Some(spaces + 1)
}

/// A longer stretch of a text holds no fewer spaces.
pub proof fn lemma_spaces_grow(s: Seq<char>, a: int, b: int)
    requires
        a <= b,
    ensures
        spaces_in(s, a) <= spaces_in(s, b),
    decreases b - a,
{
    if a < b {
        lemma_spaces_grow(s, a, b - 1);
    }
}

/// The number of words.
pub fn words(count: WordCount) -> (r: u32)
    ensures
        r == words_of(count),
{
    match count {
        WordCount::Words12 => 12,
        WordCount::Words15 => 15,
        WordCount::Words18 => 18,
        WordCount::Words21 => 21,
        WordCount::Words24 => 24,
    }
}

/// Whether a text that was drawn for a mnemonic of `count` words is one: it
/// has that many words, and it is the standard form of the mnemonic that
/// it denotes.
pub open spec fn drawn_fits(text: Seq<char>, count: WordCount) -> bool {
    word_count(text) == words_of(count) && mnemonic_text(text) == Some(text)
}

/// A mnemonic: its text in standard form.
#[derive(Clone, Debug)]
pub struct Mnemonic {
    pub text: String,
}

impl Mnemonic {
    /// The mnemonic of `count` words that was drawn as `text`: the text is
    /// taken only where it has that many words and reads back as itself.
    pub fn from_drawn(text: String, count: WordCount) -> (r: Result<Mnemonic, WalletError>)
        ensures
            drawn_fits(text@, count) ==> r is Ok && r->Ok_0.text@ == text@,
            !drawn_fits(text@, count) ==> r == Err::<Mnemonic, WalletError>(WalletError::Generic),
    {
        let counted: bool = match count_words(text.as_str()) {
            Some(n) => n == words(count),
            None => false,
        };
        let read: bool = match parse_mnemonic(text.as_str()) {
            Some(t) => t == text,
            None => false,
        };
        if counted && read {
            Ok(Mnemonic { text })
        } else {
            Err(WalletError::Generic)
        }
    }

    /// A fresh mnemonic of `count` words. Whatever the generator hands
    /// back, only a text of that many words that reads back as itself is
    /// passed on.
    pub fn generate(count: WordCount) -> (r: Result<Mnemonic, WalletError>)
        ensures
            r is Ok ==> drawn_fits(r->Ok_0.text@, count),
            r is Err ==> r == Err::<Mnemonic, WalletError>(WalletError::Generic),
    {
        match random_mnemonic(count) {
            Some(text) => Mnemonic::from_drawn(text, count),
            None => Err(WalletError::Generic),
        }
    }

    /// The mnemonic that `text` denotes.
    pub fn from_string(text: &str) -> (r: Result<Mnemonic, WalletError>)
        ensures
            match mnemonic_text(text@) {
                Some(t) => r is Ok && r->Ok_0.text@ == t,
                None => r == Err::<Mnemonic, WalletError>(
                    WalletError::ValidationError(Invalid::KeyText),
                ),
            },
    {
        match parse_mnemonic(text) {
            Some(t) => Ok(Mnemonic { text: t }),
            None => Err(WalletError::ValidationError(Invalid::KeyText)),
        }
    }

    /// The mnemonic that stands for `entropy`.
    pub fn from_entropy(entropy: &Vec<u8>) -> (r: Result<Mnemonic, WalletError>)
        ensures
            match entropy_mnemonic(entropy@) {
                Some(t) => r is Ok && r->Ok_0.text@ == t,
                None => r == Err::<Mnemonic, WalletError>(
                    WalletError::ValidationError(Invalid::KeyText),
                ),
            },
    {
        match entropy_to_mnemonic(entropy) {
            Some(t) => Ok(Mnemonic { text: t }),
            None => Err(WalletError::ValidationError(Invalid::KeyText)),
        }
    }
}

} // verus!
