use wallet_core::api::Api;
use wallet_core::error::{Invalid, WalletError};
use wallet_core::mnemonic::{count_words, Mnemonic, WordCount};

const WORDS: &str = "abandon abandon abandon abandon abandon abandon abandon abandon abandon abandon abandon about";

#[test]
fn a_fresh_mnemonic_has_the_words_asked_for() {
    for (count, n) in [
        (WordCount::Words12, 12),
        (WordCount::Words15, 15),
        (WordCount::Words18, 18),
        (WordCount::Words21, 21),
        (WordCount::Words24, 24),
    ] {
        let m = Api::generate_seed_from_word_count(count).unwrap();
        assert_eq!(m.text.split(' ').count(), n);
        assert_eq!(count_words(&m.text), Some(n as u32));
        assert_eq!(Api::generate_seed_from_string(&m.text).unwrap().text, m.text);
    }
    let a = Api::generate_seed_from_word_count(WordCount::Words12).unwrap();
    let b = Api::generate_seed_from_word_count(WordCount::Words12).unwrap();
    assert_ne!(a.text, b.text);
}

#[test]
fn words_are_counted_by_the_spaces_between_them() {
    assert_eq!(count_words(""), Some(1));
    assert_eq!(count_words("one"), Some(1));
    assert_eq!(count_words("one two"), Some(2));
    assert_eq!(count_words("one  two "), Some(4));
}

#[test]
fn a_mnemonic_is_read_from_its_words() {
    assert_eq!(Api::generate_seed_from_string(WORDS).unwrap().text, WORDS);
    let wrong = WalletError::ValidationError(Invalid::KeyText);
    assert_eq!(Api::generate_seed_from_string("").unwrap_err(), wrong);
    assert_eq!(Api::generate_seed_from_string("abandon").unwrap_err(), wrong);
    // The last word carries a checksum.
    let bad = WORDS.replace("about", "abandon");
    assert_eq!(Api::generate_seed_from_string(&bad).unwrap_err(), wrong);
}

#[test]
fn a_mnemonic_stands_for_its_entropy() {
    assert_eq!(Api::generate_seed_from_entropy(vec![0u8; 16]).unwrap().text, WORDS);
    assert_eq!(
        Api::generate_seed_from_entropy(vec![0xff; 32]).unwrap().text.split(' ').count(),
        24
    );
    let wrong = WalletError::ValidationError(Invalid::KeyText);
    assert_eq!(Api::generate_seed_from_entropy(vec![]).unwrap_err(), wrong);
    assert_eq!(Api::generate_seed_from_entropy(vec![0u8; 15]).unwrap_err(), wrong);
}

#[test]
fn a_drawn_text_is_taken_only_with_the_words_asked_for() {
    let twelve = Mnemonic::from_drawn(WORDS.to_string(), WordCount::Words12).unwrap();
    assert_eq!(twelve.text, WORDS);
    for count in [WordCount::Words15, WordCount::Words18, WordCount::Words21, WordCount::Words24] {
        assert_eq!(
            Mnemonic::from_drawn(WORDS.to_string(), count).unwrap_err(),
            WalletError::Generic
        );
    }
    // Twelve words that are no mnemonic: the last word does not hold the checksum.
    let wrong = "abandon abandon abandon abandon abandon abandon abandon abandon abandon abandon abandon abandon";
    assert_eq!(
        Mnemonic::from_drawn(wrong.to_string(), WordCount::Words12).unwrap_err(),
        WalletError::Generic
    );
    // A mnemonic that is not in standard form does not read back as itself.
    let spaced = WORDS.replace("about", " about");
    assert_eq!(
        Mnemonic::from_drawn(spaced, WordCount::Words12).unwrap_err(),
        WalletError::Generic
    );
    assert_eq!(Mnemonic::from_drawn(String::new(), WordCount::Words12).unwrap_err(), WalletError::Generic);
}
