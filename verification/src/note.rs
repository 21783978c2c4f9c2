use vstd::prelude::*;

use crate::body::{FIELD_SIZE, NOTE_ENC_SIZE};
use crate::bytes::{u64_le_bytes, push_u64_le, push_bytes};
use crate::digest::{digest32, digest32_of};
use crate::errors::TxError;

verus! {

/// Depth of the note commitment Merkle tree: the length every
/// authentication path must have.
pub const TREE_DEPTH: usize = 32;

/// A plaintext note: who owns it, which asset it carries, its value, and
/// the secret material the nullifier is derived from.
#[derive(Debug)]
pub struct Note {
    pub owner: Vec<u8>,
    pub asset_id: Vec<u8>,
    pub value: u64,
    pub secret: Vec<u8>,
}

#[verifier::ext_equal]
pub struct NoteData {
    pub owner: Seq<u8>,
    pub asset_id: Seq<u8>,
    pub value: u64,
    pub secret: Seq<u8>,
}

impl View for Note {
    type V = NoteData;

    open spec fn view(&self) -> NoteData {
        NoteData {
            owner: self.owner@,
            asset_id: self.asset_id@,
            value: self.value,
            secret: self.secret@,
        }
    }
}

pub open spec fn note_wf(n: NoteData) -> bool {
    n.owner.len() == FIELD_SIZE && n.asset_id.len() == FIELD_SIZE && n.secret.len() == FIELD_SIZE
}

/// The plain encoding of a note: owner, asset identifier, value.
pub open spec fn note_encoding(n: NoteData) -> Seq<u8> {
    n.owner + n.asset_id + u64_le_bytes(n.value)
}

impl Note {
    /// Builds a note; fails with `KeyError` exactly when a field has the
    /// wrong length.
    pub fn new(owner: Vec<u8>, asset_id: Vec<u8>, value: u64, secret: Vec<u8>) -> (r: Result<
        Note,
        TxError,
    >)
        ensures
            match r {
                Ok(n) => n@ == (NoteData {
                    owner: owner@,
                    asset_id: asset_id@,
                    value,
                    secret: secret@,
                }) && note_wf(n@),
                Err(e) => e == TxError::KeyError && !(owner@.len() == FIELD_SIZE
                    && asset_id@.len() == FIELD_SIZE && secret@.len() == FIELD_SIZE),
            },
    {
        if owner.len() != FIELD_SIZE || asset_id.len() != FIELD_SIZE || secret.len() != FIELD_SIZE {
            return Err(TxError::KeyError);
        }
        Ok(Note { owner, asset_id, value, secret })
    }
}

/// A Merkle membership witness, resolved eagerly: the root it commits
/// to, the tree size at witness time, the note's position, and the
/// authentication path.
#[derive(Debug)]
pub struct Witness {
    pub root_hash: Vec<u8>,
    pub tree_size: u64,
    pub position: u64,
    pub auth_path: Vec<Vec<u8>>,
}

#[verifier::ext_equal]
pub struct WitnessData {
    pub root_hash: Seq<u8>,
    pub tree_size: u64,
    pub position: u64,
    pub auth_path: Seq<Seq<u8>>,
}

impl View for Witness {
    type V = WitnessData;

    open spec fn view(&self) -> WitnessData {
        WitnessData {
            root_hash: self.root_hash@,
            tree_size: self.tree_size,
            position: self.position,
            auth_path: Seq::new(self.auth_path@.len(), |i: int| self.auth_path@[i]@),
        }
    }
}

/// A witness the accumulator accepts: right root length and a full-depth
/// authentication path.
pub open spec fn witness_wf(w: WitnessData) -> bool {
    w.root_hash.len() == FIELD_SIZE && w.auth_path.len() == TREE_DEPTH
}

/// The nullifier is derived from the note's secret material and the
/// witness position alone, so spending the same note at the same
/// position always yields the same nullifier.
pub open spec fn nullifier_of(secret: Seq<u8>, position: u64) -> Seq<u8> {
    digest32_of(seq![2u8] + secret + u64_le_bytes(position))
}

/// The opaque spend proof attached to a spend record.
pub open spec fn spend_proof_of(n: NoteData, root_hash: Seq<u8>, tree_size: u64) -> Seq<u8> {
    digest32_of(seq![1u8] + note_encoding(n) + root_hash + u64_le_bytes(tree_size))
}

/// The opaque output proof attached to an output record.
pub open spec fn output_proof_of(n: NoteData) -> Seq<u8> {
    digest32_of(seq![3u8] + note_encoding(n))
}

/// Serializes a note into its plain encoding.
pub fn encode_note(n: &Note) -> (r: Vec<u8>)
    requires
        note_wf(n@),
    ensures
        r@ == note_encoding(n@),
        r@.len() == NOTE_ENC_SIZE,
{
    let mut out: Vec<u8> = Vec::new();
    push_bytes(&mut out, &n.owner);
    push_bytes(&mut out, &n.asset_id);
    push_u64_le(&mut out, n.value);
    proof {
        assert(out@ =~= note_encoding(n@));
    }
    out
}

pub fn compute_nullifier(n: &Note, position: u64) -> (r: Vec<u8>)
    ensures
        r@ == nullifier_of(n@.secret, position),
        r@.len() == FIELD_SIZE,
{
    let mut msg: Vec<u8> = Vec::new();
    msg.push(2u8);
    push_bytes(&mut msg, &n.secret);
    push_u64_le(&mut msg, position);
    proof {
        assert(msg@ =~= seq![2u8] + n@.secret + u64_le_bytes(position));
    }
    digest32(&msg)
}

pub fn compute_spend_proof(n: &Note, root_hash: &Vec<u8>, tree_size: u64) -> (r: Vec<u8>)
    requires
        note_wf(n@),
    ensures
        r@ == spend_proof_of(n@, root_hash@, tree_size),
        r@.len() == FIELD_SIZE,
{
    let mut msg: Vec<u8> = Vec::new();
    msg.push(1u8);
    let enc = encode_note(n);
    push_bytes(&mut msg, &enc);
    push_bytes(&mut msg, root_hash);
    push_u64_le(&mut msg, tree_size);
    proof {
        assert(msg@ =~= seq![1u8] + note_encoding(n@) + root_hash@ + u64_le_bytes(tree_size));
    }
    digest32(&msg)
}

pub fn compute_output_proof(n: &Note) -> (r: Vec<u8>)
    requires
        note_wf(n@),
    ensures
        r@ == output_proof_of(n@),
        r@.len() == FIELD_SIZE,
{
    let mut msg: Vec<u8> = Vec::new();
    msg.push(3u8);
    let enc = encode_note(n);
    push_bytes(&mut msg, &enc);
    proof {
        assert(msg@ =~= seq![3u8] + note_encoding(n@));
    }
    digest32(&msg)
}

/// The identifier of the native asset, which funds fees and change.
pub open spec fn native_asset_seq() -> Seq<u8> {
    Seq::new(FIELD_SIZE as nat, |i: int| 0u8)
}

pub fn native_asset_id() -> (r: Vec<u8>)
    ensures
        r@ == native_asset_seq(),
{
    let mut out: Vec<u8> = Vec::new();
    let mut i: usize = 0;
    while i < FIELD_SIZE
        invariant
            i <= FIELD_SIZE,
            out@ == native_asset_seq().take(i as int),
        decreases FIELD_SIZE - i,
    {
        out.push(0u8);
        proof {
            assert(native_asset_seq().take(i as int + 1) =~= native_asset_seq().take(
                i as int,
            ).push(0u8));
        }
        i = i + 1;
    }
    proof {
        assert(native_asset_seq().take(FIELD_SIZE as int) =~= native_asset_seq());
    }
    out
}

} // verus!
