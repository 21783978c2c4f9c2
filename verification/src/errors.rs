use vstd::prelude::*;

verus! {

/// The kinds of failure a fallible operation can report.
///
/// Every fallible operation of this library returns one of these tags
/// rather than an unstructured fault, so a caller can tell malformed
/// input apart from a balance or signature failure.
#[derive(Clone, Copy, Debug, PartialEq, Eq, Structural)]
pub enum TxError {
    /// Malformed serialized bytes or wrong-length buffers.
    ParseError,
    /// Invalid key hex or wrong-length key material.
    KeyError,
    /// Proof construction or verification failure.
    ProofError,
    /// The value-balance invariant cannot be satisfied.
    BalanceError,
    /// An index or numeric value is out of range.
    RangeError,
    /// A binding-signature or threshold-aggregation failure.
    SignatureError,
}

} // verus!
