use vstd::prelude::*;

use crate::body::{TxBody, TxBodyData, SpendDescription, body_bytes, body_wf, spec_parse_body,
    parse_body, serialize_body, spend_wf, SIGNATURE_SIZE};
use crate::bytes::{push_bytes, copy_range, read_u64_le};
use crate::digest::{digest32, digest32_of};
use crate::errors::TxError;

verus! {

/// A posted transaction: the signed body and its binding signature,
/// immutable once constructed.
#[derive(Debug)]
pub struct PostedTransaction {
    pub body: TxBody,
    pub signature: Vec<u8>,
}

#[verifier::ext_equal]
pub struct PostedData {
    pub body: TxBodyData,
    pub signature: Seq<u8>,
}

impl View for PostedTransaction {
    type V = PostedData;

    open spec fn view(&self) -> PostedData {
        PostedData { body: self.body@, signature: self.signature@ }
    }
}

pub open spec fn posted_wf(p: PostedData) -> bool {
    body_wf(p.body) && p.signature.len() == SIGNATURE_SIZE
}

/// The serialized image of a posted transaction: the body followed by
/// the binding signature.
pub open spec fn posted_bytes(p: PostedData) -> Seq<u8> {
    body_bytes(p.body) + p.signature
}

pub open spec fn spec_parse_posted(bytes: Seq<u8>) -> Option<PostedData> {
    if bytes.len() < SIGNATURE_SIZE {
        None
    } else {
        let blen = bytes.len() - SIGNATURE_SIZE;
        match spec_parse_body(bytes.take(blen as int)) {
            Some(b) => Some(PostedData { body: b, signature: bytes.skip(blen as int) }),
            None => None,
        }
    }
}

/// The signature hash: the digest of the body's serialized image, the
/// exact message the binding signature signs.
pub open spec fn sighash_of(b: TxBodyData) -> Seq<u8> {
    digest32_of(body_bytes(b))
}

/// Parsing the serialized image of a well-formed posted transaction
/// gives the transaction back.
pub proof fn lemma_posted_roundtrip(p: PostedData)
    requires
        posted_wf(p),
    ensures
        spec_parse_posted(posted_bytes(p)) == Some(p),
{
    let bytes = posted_bytes(p);
    let blen = body_bytes(p.body).len();
    assert(bytes.len() == blen + SIGNATURE_SIZE);
    assert(bytes.take(blen as int) =~= body_bytes(p.body));
    crate::body::lemma_body_roundtrip(p.body);
    assert(bytes.skip(blen as int) =~= p.signature);
    assert(spec_parse_posted(bytes).unwrap() =~= p);
}

fn copy_bytes(v: &Vec<u8>) -> (r: Vec<u8>)
    ensures
        r@ == v@,
{
    let r = copy_range(v, 0, v.len());
    proof {
        assert(v@.subrange(0, v@.len() as int) =~= v@);
    }
    r
}

impl PostedTransaction {
    /// Reads a posted transaction from its serialized bytes; fails with
    /// `ParseError` exactly when no posted transaction serializes to them.
    pub fn new(bytes: &Vec<u8>) -> (r: Result<PostedTransaction, TxError>)
        ensures
            match r {
                Ok(t) => spec_parse_posted(bytes@) == Some(t@) && posted_wf(t@),
                Err(e) => spec_parse_posted(bytes@).is_none() && e == TxError::ParseError,
            },
    {
        let n = bytes.len();
        if n < SIGNATURE_SIZE {
            return Err(TxError::ParseError);
        }
        let prefix = copy_range(bytes, 0, n - SIGNATURE_SIZE);
        proof {
            assert(prefix@ =~= bytes@.take(n as int - SIGNATURE_SIZE));
        }
        match parse_body(&prefix) {
            Ok(body) => {
                let signature = copy_range(bytes, n - SIGNATURE_SIZE, SIGNATURE_SIZE);
                proof {
                    assert(signature@ =~= bytes@.skip(n as int - SIGNATURE_SIZE));
                }
                Ok(PostedTransaction { body, signature })
            },
            Err(e) => Err(e),
        }
    }

    /// Serializes the transaction into its exact wire image.
    pub fn serialize(&self) -> (r: Vec<u8>)
        ensures
            r@ == posted_bytes(self@),
    {
        let mut out = serialize_body(&self.body);
        push_bytes(&mut out, &self.signature);
        out
    }

    /// The number of output notes.
    pub fn notes_length(&self) -> (r: usize)
        ensures
            r == self@.body.outputs.len(),
    {
        self.body.outputs.len()
    }

    /// The plain encoding of the note created by the output at `index`;
    /// fails with `RangeError` exactly when the index is out of bounds.
    pub fn get_note(&self, index: usize) -> (r: Result<Vec<u8>, TxError>)
        ensures
            match r {
                Ok(v) => index < self@.body.outputs.len() && v@ == self@.body.outputs[
                    index as int
                ].note_blob,
                Err(e) => index >= self@.body.outputs.len() && e == TxError::RangeError,
            },
    {
        if index >= self.body.outputs.len() {
            return Err(TxError::RangeError);
        }
        Ok(copy_bytes(&self.body.outputs[index].note_blob))
    }

    /// The number of spends.
    pub fn spends_length(&self) -> (r: usize)
        ensures
            r == self@.body.spends.len(),
    {
        self.body.spends.len()
    }

    /// The spend at `index`; fails with `RangeError` exactly when the
    /// index is out of bounds.
    pub fn get_spend(&self, index: usize) -> (r: Result<SpendDescription, TxError>)
        ensures
            match r {
                Ok(d) => index < self@.body.spends.len() && d@ == self@.body.spends[index as int],
                Err(e) => index >= self@.body.spends.len() && e == TxError::RangeError,
            },
    {
        if index >= self.body.spends.len() {
            return Err(TxError::RangeError);
        }
        let s = &self.body.spends[index];
        let d = SpendDescription {
            proof: copy_bytes(&s.proof),
            root_hash: copy_bytes(&s.root_hash),
            tree_size: s.tree_size,
            nullifier: copy_bytes(&s.nullifier),
        };
        proof {
            assert(d@ =~= self@.body.spends[index as int]);
        }
        Ok(d)
    }

    pub fn fee(&self) -> (r: i64)
        ensures
            r == self@.body.fee,
    {
        self.body.fee
    }

    pub fn expiration(&self) -> (r: u32)
        ensures
            r == self@.body.expiration,
    {
        self.body.expiration
    }

    /// The binding signature.
    pub fn transaction_signature(&self) -> (r: Vec<u8>)
        ensures
            r@ == self@.signature,
    {
        copy_bytes(&self.signature)
    }

    /// Recomputes the signature hash: the digest of the serialized body.
    /// Two transactions with equal bodies always hash alike.
    pub fn hash(&self) -> (r: Vec<u8>)
        ensures
            r@ == sighash_of(self@.body),
            r@.len() == 32,
    {
        let body_image = serialize_body(&self.body);
        digest32(&body_image)
    }
}

/// The signature hash is stable: it depends on the logical body alone,
/// so posting the same transaction twice signs the same message.
pub proof fn lemma_hash_stable(a: TxBodyData, b: TxBodyData)
    requires
        a == b,
    ensures
        sighash_of(a) == sighash_of(b),
{
}

} // verus!
