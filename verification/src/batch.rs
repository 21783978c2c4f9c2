use vstd::prelude::*;

use crate::posted::{PostedTransaction, spec_parse_posted};

verus! {

/// Every serialized transaction in the batch parses.
pub open spec fn all_parse(txs: Seq<Vec<u8>>) -> bool {
    forall|i: int| 0 <= i < txs.len() ==> (#[trigger] spec_parse_posted(txs[i]@)).is_some()
}

/// Verifies a batch of serialized posted transactions, fail-closed: if
/// any single one fails to parse, the whole batch reports `false`, with
/// no partial result.  Checking the attached proofs and signatures
/// against the cryptographic primitives is the proof system's task and
/// lies outside this model; what is decided here is that every
/// transaction is structurally valid.
pub fn verify_transactions(serialized_transactions: &Vec<Vec<u8>>) -> (r: bool)
    ensures
        r == all_parse(serialized_transactions@),
{
    let mut i: usize = 0;
    while i < serialized_transactions.len()
        invariant
            i <= serialized_transactions@.len(),
            forall|k: int|
                0 <= k < i ==> (#[trigger] spec_parse_posted(
                    serialized_transactions@[k]@,
                )).is_some(),
        decreases serialized_transactions@.len() - i,
    {
        match PostedTransaction::new(&serialized_transactions[i]) {
            Ok(_) => {},
            Err(_) => {
                proof {
                    assert(spec_parse_posted(serialized_transactions@[i as int]@).is_none());
                }
                return false;
            },
        }
        i = i + 1;
    }
    true
}

/// Verifying an empty batch succeeds vacuously.
pub proof fn lemma_batch_empty(txs: Seq<Vec<u8>>)
    requires
        txs.len() == 0,
    ensures
        all_parse(txs),
{
}

/// One unparseable entry fails the whole batch, whatever else it
/// holds.
pub proof fn lemma_batch_fail_closed(txs: Seq<Vec<u8>>, i: int)
    requires
        0 <= i < txs.len(),
        spec_parse_posted(txs[i]@).is_none(),
    ensures
        !all_parse(txs),
{
}

} // verus!
