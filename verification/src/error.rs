//! The failures that the operations of this library report.

use vstd::prelude::*;

verus! {

/// What a rejected input was.
#[derive(Clone, Copy, Debug, PartialEq, Eq, Structural)]
pub enum Invalid {
    /// A derivation path that does not follow the grammar.
    PathSyntax,
    /// A derivation index of 2^31 or more.
    PathIndex,
    /// A payment below the dust threshold of its script; a payment of
    /// nothing is in order only to a script that carries data.
    RecipientAmount,
    /// A foreign input without usable data about the output it spends.
    ForeignUtxo,
    /// An outpoint that names no known output, or that would be spent
    /// twice.
    OutPoint,
    /// A replaceable sequence number of 0xFFFFFFFE or more.
    Sequence,
    /// A fee rate that does not exceed the required minimum.
    FeeRate,
    /// A fee that does not exceed the fee of the transaction replaced.
    Fee,
    /// Two partially signed transactions over different unsigned transactions.
    UnsignedTxMismatch,
    /// A partially signed transaction whose parts do not fit each other.
    PsbtStructure,
    /// Bytes that are no transaction.
    TransactionBytes,
    /// Text that is no transaction id.
    TxidText,
    /// A script that stands for no address.
    Script,
    /// Text that is no address.
    Address,
    /// Text that is no key, descriptor or mnemonic.
    KeyText,
    /// An output script that the transaction does not hold.
    ShrinkTarget,
    /// Amounts that add up to more than all coins that can exist.
    Amount,
    /// An embedded payload too long for one push.
    Data,
}

/// The failure of an operation.
#[derive(Clone, Copy, Debug, PartialEq, Eq, Structural)]
pub enum WalletError {
    /// An input was malformed; the payload says which.
    ValidationError(Invalid),
    /// The inputs at hand do not cover the outputs and the fee.
    InsufficientFunds { needed: u64, available: u64 },
    /// A transaction was asked for that pays nobody.
    NoRecipients,
    /// Fee and size did not settle within the allowed number of rounds.
    FeeEstimationFailed,
    /// An address belongs to another network than the one asked for.
    MismatchedNetwork,
    /// Some input lacks the signatures its script asks for.
    IncompletePsbt,
    /// The transaction is confirmed, or is not the wallet's own.
    IrreplaceableTransaction,
    /// An underlying primitive failed.
    Generic,
}

} // verus!
