//! Addresses: the text form of an output script on a network.

use vstd::prelude::*;
use crate::error::{Invalid, WalletError};
use crate::script::{classify, is_p2pkh, is_p2sh, Payload};
use crate::types::{Network, Script};

verus! {

/// What the text `text` decodes to as an address: the network it is bound
/// to, the script it stands for, and its text in standard form; None where
/// the text is no address.
pub uninterp spec fn address_decoded(text: Seq<char>) -> Option<(Network, Seq<u8>, Seq<char>)>;

/// The text of the address of `script` on `network`; None where the script
/// has no address form.
pub uninterp spec fn address_encoded(script: Seq<u8>, network: Network) -> Option<Seq<char>>;

/// What an address is in contracts.
pub struct AddressView {
    pub network: Network,
    pub script: Seq<u8>,
    pub text: Seq<char>,
}

/// An address: a script bound to a network, and its text.
#[derive(Clone, Debug)]
pub struct Address {
    pub network: Network,
    pub script: Script,
    pub text: String,
}

impl View for Address {
    type V = AddressView;

    open spec fn view(&self) -> AddressView {
        AddressView { network: self.network, script: self.script@, text: self.text@ }
    }
}

/// The address that a decoded text gives.
pub open spec fn address_of(decoded: (Network, Seq<u8>, Seq<char>)) -> AddressView {
    AddressView { network: decoded.0, script: decoded.1, text: decoded.2 }
}

/// Parses with `Address::from_str` of bitcoin and hands over the network,
/// variant for variant, the bytes of `Address::script_pubkey`, and the text
/// from `to_string`. Not proved: that these belong to the address that
/// `text` denotes.
#[verifier::external_body]
pub(crate) fn decode_address(text: &str) -> (r: Option<Address>)
    ensures
        r is Some == address_decoded(text@) is Some,
        r is Some ==> r->0@ == address_of(address_decoded(text@)->0),
{
    let a = text.parse::<bdk::bitcoin::Address>().ok()?;
    let network = match a.network {
        bdk::bitcoin::Network::Bitcoin => Network::Bitcoin,
        bdk::bitcoin::Network::Testnet => Network::Testnet,
        bdk::bitcoin::Network::Signet => Network::Signet,
        bdk::bitcoin::Network::Regtest => Network::Regtest,
    };
    Some(Address { network, script: Script { bytes: a.script_pubkey().to_bytes() }, text: a.to_string() })
}

/// Calls `Address::from_script` of bitcoin for the network of the same name, variant for variant,
/// then `to_string`. Not proved: that the text is the address of the
/// script.
#[verifier::external_body]
pub(crate) fn encode_address(script: &Vec<u8>, network: Network) -> (r: Option<String>)
    ensures
        r is Some == address_encoded(script@, network) is Some,
        r is Some ==> r->0@ == address_encoded(script@, network)->0,
{
    let s = bdk::bitcoin::Script::from(script.clone());
    let net = match network {
        Network::Bitcoin => bdk::bitcoin::Network::Bitcoin,
        Network::Testnet => bdk::bitcoin::Network::Testnet,
        Network::Signet => bdk::bitcoin::Network::Signet,
        Network::Regtest => bdk::bitcoin::Network::Regtest,
    };
    bdk::bitcoin::Address::from_script(&s, net).ok().map(|a| a.to_string())
}

/// Whether an address bound to the network `bound` can be used on the
/// network `wanted`. The same network always fits. The main chain fits no
/// other. The test networks share their addresses, but for the witness
/// addresses of the regression test network, which are its own. `legacy`
/// says that the address is of a key hash or a script hash.
pub open spec fn network_fits(bound: Network, legacy: bool, wanted: Network) -> bool {
    if bound == wanted {
        true
    } else if bound == Network::Bitcoin || wanted == Network::Bitcoin {
        false
    } else if (bound == Network::Regtest || wanted == Network::Regtest) && !legacy {
        false
    } else {
        true
    }
}

/// The address that the text `text` denotes: what it decodes to, provided
/// the text in standard form of that address decodes to the same address.
/// None where the text is no address.
pub open spec fn address_parsed(text: Seq<char>) -> Option<AddressView> {
    match address_decoded(text) {
        Some(d) => if address_decoded(d.2) == Some(d) {
            Some(address_of(d))
        } else {
            None
        },
        None => None,
    }
}

/// What parsing `text` for use on `network` gives: the address; no
/// address where the text is none; a mismatch where the address is bound to
/// a network that does not fit.
pub open spec fn parse_for(text: Seq<char>, network: Network) -> Result<AddressView, WalletError> {
    match address_parsed(text) {
        None => Err(WalletError::ValidationError(Invalid::Address)),
        Some(a) => if network_fits(a.network, is_p2pkh(a.script) || is_p2sh(a.script), network) {
            Ok(a)
        } else {
            Err(WalletError::MismatchedNetwork)
        },
    }
}

/// The text of an address denotes that address: parsing it again, for the
/// same network, gives the address back.
pub proof fn lemma_address_text_reads_back(text: Seq<char>, network: Network, a: AddressView)
    requires
        parse_for(text, network) == Ok::<AddressView, WalletError>(a),
    ensures
        address_parsed(a.text) == Some(a),
        parse_for(a.text, network) == Ok::<AddressView, WalletError>(a),
{
}

/// Whether two networks are the same.
pub fn same_network(a: Network, b: Network) -> (r: bool)
    ensures
        r == (a == b),
{
    match (a, b) {
        (Network::Bitcoin, Network::Bitcoin) => true,
        (Network::Testnet, Network::Testnet) => true,
        (Network::Signet, Network::Signet) => true,
        (Network::Regtest, Network::Regtest) => true,
        _ => false,
    }
}

/// The address that `text` denotes, if its text in standard form denotes
/// the same address.
fn read_address(text: &str) -> (r: Option<Address>)
    ensures
        r is Some == address_parsed(text@) is Some,
        r is Some ==> r->0@ == address_parsed(text@)->0,
{
    let first: Address = match decode_address(text) {
        Some(a) => a,
        None => {
            return None;
        },
    };
    let same: bool = match decode_address(first.text.as_str()) {
        Some(again) => same_network(first.network, again.network) && first.script.same(
            &again.script,
        ) && first.text == again.text,
        None => false,
    };
    proof {
        let d = address_decoded(text@)->0;
        if address_decoded(d.2) is Some {
            let e = address_decoded(d.2)->0;
            assert(address_of(e) == address_of(d) ==> e == d);
        }
    }
    if same {
        Some(first)
    } else {
        None
    }
}

impl Address {
    /// The address that `text` denotes.
    pub fn new(text: &str) -> (r: Result<Address, WalletError>)
        ensures
            match address_parsed(text@) {
                Some(a) => r is Ok && r->Ok_0@ == a,
                None => r == Err::<Address, WalletError>(
                    WalletError::ValidationError(Invalid::Address),
                ),
            },
    {
        match read_address(text) {
            Some(a) => Ok(a),
            None => Err(WalletError::ValidationError(Invalid::Address)),
        }
    }

    /// The address that `text` denotes, for use on `network`.
    pub fn for_network(text: &str, network: Network) -> (r: Result<Address, WalletError>)
        ensures
            match parse_for(text@, network) {
                Ok(a) => r is Ok && r->Ok_0@ == a,
                Err(e) => r == Err::<Address, WalletError>(e),
            },
    {
        let address: Address = match read_address(text) {
            Some(a) => a,
            None => {
                return Err(WalletError::ValidationError(Invalid::Address));
            },
        };
        let legacy: bool = address.script.is_p2pkh() || address.script.is_p2sh();
        let bound: Network = address.network;
        let fits: bool = if same_network(bound, network) {
            true
        } else if same_network(bound, Network::Bitcoin) || same_network(
            network,
            Network::Bitcoin,
        ) {
            false
        } else if (same_network(bound, Network::Regtest) || same_network(
            network,
            Network::Regtest,
        )) && !legacy {
            false
        } else {
            true
        };
        if fits {
            Ok(address)
        } else {
            Err(WalletError::MismatchedNetwork)
        }
    }

    /// The address of `script` on `network`.
    pub fn from_script(script: &Script, network: Network) -> (r: Result<Address, WalletError>)
        ensures
            match address_encoded(script@, network) {
                Some(t) => r is Ok && r->Ok_0@ == (AddressView {
                    network,
                    script: script@,
                    text: t,
                }),
                None => r == Err::<Address, WalletError>(
                    WalletError::ValidationError(Invalid::Script),
                ),
            },
    {
        match encode_address(&script.bytes, network) {
            Some(text) => Ok(Address { network, script: script.copy(), text }),
            None => Err(WalletError::ValidationError(Invalid::Script)),
        }
    }

    /// The payload that the address commits to.
    pub fn payload(&self) -> (r: Payload)
        ensures
            r@ == classify(self@.script),
    {
        self.script.payload()
    }
}

} // verus!
