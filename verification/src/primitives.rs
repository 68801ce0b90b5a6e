//! Hash functions and the text form of bytes, taken from outside and
//! believed as stated.

use vstd::prelude::*;

verus! {

/// SHA-256 applied twice to `data`: thirty-two bytes.
pub uninterp spec fn sha256d_of(data: Seq<u8>) -> Seq<u8>;

/// RIPEMD-160 applied to the SHA-256 of `data`: twenty bytes.
pub uninterp spec fn hash160_of(data: Seq<u8>) -> Seq<u8>;

/// Calls `bitcoin_hashes::sha256d::Hash::hash`. Not proved: that the bytes
/// returned are the double SHA-256 of `data`, which here has no definition
/// but this function.
#[verifier::external_body]
pub(crate) fn sha256d(data: &Vec<u8>) -> (r: [u8; 32])
    ensures
        r@ == sha256d_of(data@),
{
    let h: bdk::bitcoin::hashes::sha256d::Hash = bdk::bitcoin::hashes::Hash::hash(data);
    bdk::bitcoin::hashes::Hash::into_inner(h)
}

/// Calls `bitcoin_hashes::hash160::Hash::hash`. Not proved: that the bytes
/// returned are the RIPEMD-160 of the SHA-256 of `data`, which here has no
/// definition but this function.
#[verifier::external_body]
pub(crate) fn hash160(data: &Vec<u8>) -> (r: [u8; 20])
    ensures
        r@ == hash160_of(data@),
{
    let h: bdk::bitcoin::hashes::hash160::Hash = bdk::bitcoin::hashes::Hash::hash(data);
    bdk::bitcoin::hashes::Hash::into_inner(h)
}


/// The text of `data` in base 64, with the standard alphabet and padding.
pub uninterp spec fn base64_of(data: Seq<u8>) -> Seq<char>;

/// The bytes that the text `text` stands for in base 64; None where it
/// stands for none.
pub uninterp spec fn base64_decoded(text: Seq<char>) -> Option<Seq<u8>>;

/// Calls `base64::encode`. Not proved: that the text is `data` in base 64,
/// and that it stands for `data` again: `base64::decode` is the inverse of
/// `base64::encode`.
#[verifier::external_body]
pub(crate) fn base64_text(data: &Vec<u8>) -> (r: String)
    ensures
        r@ == base64_of(data@),
        base64_decoded(r@) == Some(data@),
{
    base64::encode(data)
}

/// Calls `base64::decode`. Not proved: that the bytes are what the text
/// stands for.
#[verifier::external_body]
pub(crate) fn base64_bytes(text: &str) -> (r: Option<Vec<u8>>)
    ensures
        r is Some == base64_decoded(text@) is Some,
        r is Some ==> r->0@ == base64_decoded(text@)->0,
{
    base64::decode(text).ok()
}

} // verus!
