use vstd::prelude::*;

use crate::body::{TxBody, TxBodyData, body_bytes, body_wf, spec_parse_body, parse_body,
    serialize_body};
use crate::errors::TxError;
use crate::hexstr::{encode_hex, hex_encoded};

verus! {

/// A built but unsigned transaction: all proofs and public randomness
/// are fixed, and the body is the exact message the eventual binding
/// signature will cover.
#[derive(Debug)]
pub struct UnsignedTransaction {
    pub body: TxBody,
}

impl UnsignedTransaction {
    /// Reads an unsigned transaction from its serialized bytes; fails
    /// with `ParseError` exactly when no unsigned transaction serializes
    /// to them.
    pub fn new(bytes: &Vec<u8>) -> (r: Result<UnsignedTransaction, TxError>)
        ensures
            match r {
                Ok(t) => spec_parse_body(bytes@) == Some(t.body@) && body_wf(t.body@),
                Err(e) => spec_parse_body(bytes@).is_none() && e == TxError::ParseError,
            },
    {
        match parse_body(bytes) {
            Ok(body) => Ok(UnsignedTransaction { body }),
            Err(e) => Err(e),
        }
    }

    /// Serializes the transaction into its exact wire image.
    pub fn serialize(&self) -> (r: Vec<u8>)
        ensures
            r@ == body_bytes(self.body@),
    {
        serialize_body(&self.body)
    }

    /// The per-transaction public randomness, hex-encoded, with which
    /// participants re-derive the keys they must sign for.
    pub fn public_key_randomness(&self) -> (r: String)
        ensures
            r@ == hex_encoded(self.body@.randomness),
    {
        encode_hex(&self.body.randomness)
    }
}

} // verus!
