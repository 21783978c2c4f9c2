use vstd::prelude::*;

use crate::balance::{ValueBalance, balance_of, vb_wf};
use crate::body::{SpendDescription, OutputDescription, MintDescription, BurnDescription, TxBody,
    spend_wf, output_wf, mint_wf, burn_wf, body_wf, body_bytes, serialize_body, FIELD_SIZE,
    NOTE_ENC_SIZE};
use crate::bytes::{u64_from_le, u64_le_bytes, push_bytes, copy_range};
use crate::digest::{digest32, digest32_of, fresh_randomness};
use crate::errors::TxError;
use crate::hexstr::{decode_hex, valid_hex, hex_decoded};
use crate::note::{Note, NoteData, Witness, note_wf, witness_wf, note_encoding, nullifier_of,
    spend_proof_of, output_proof_of, compute_nullifier, compute_spend_proof, compute_output_proof,
    encode_note, native_asset_id, native_asset_seq, TREE_DEPTH};
use crate::posted::{PostedTransaction, posted_wf, sighash_of};
use crate::unsigned::UnsignedTransaction;

verus! {

/// A planned spend: the frozen record plus the note value and asset it
/// contributes to the balance.
#[derive(Debug)]
pub struct SpendPlan {
    pub desc: SpendDescription,
    pub asset_id: Vec<u8>,
    pub value: u64,
}

/// A planned output: the frozen record plus the note value and asset it
/// takes from the balance.
#[derive(Debug)]
pub struct OutputPlan {
    pub desc: OutputDescription,
    pub asset_id: Vec<u8>,
    pub value: u64,
}

/// What the accumulated spends add to an asset's balance.
pub open spec fn spends_gain(ss: Seq<SpendPlan>, a: Seq<u8>) -> int
    decreases ss.len(),
{
    if ss.len() == 0 {
        0
    } else {
        (if ss[0].asset_id@ == a {
            ss[0].value as int
        } else {
            0
        }) + spends_gain(ss.drop_first(), a)
    }
}

/// What the accumulated outputs take from an asset's balance.
pub open spec fn outputs_loss(os: Seq<OutputPlan>, a: Seq<u8>) -> int
    decreases os.len(),
{
    if os.len() == 0 {
        0
    } else {
        (if os[0].asset_id@ == a {
            os[0].value as int
        } else {
            0
        }) + outputs_loss(os.drop_first(), a)
    }
}

/// What the accumulated mints add to an asset's balance.
pub open spec fn mints_gain(ms: Seq<MintDescription>, a: Seq<u8>) -> int
    decreases ms.len(),
{
    if ms.len() == 0 {
        0
    } else {
        (if ms[0].asset_id@ == a {
            ms[0].value as int
        } else {
            0
        }) + mints_gain(ms.drop_first(), a)
    }
}

/// What the accumulated burns take from an asset's balance.
pub open spec fn burns_loss(bs: Seq<BurnDescription>, a: Seq<u8>) -> int
    decreases bs.len(),
{
    if bs.len() == 0 {
        0
    } else {
        (if bs[0].asset_id@ == a {
            bs[0].value as int
        } else {
            0
        }) + burns_loss(bs.drop_first(), a)
    }
}

/// An in-progress transaction: the accumulated actions and the running
/// per-asset value balance.
#[derive(Debug)]
pub struct ProposedTransaction {
    pub version: u8,
    pub spends: Vec<SpendPlan>,
    pub outputs: Vec<OutputPlan>,
    pub mints: Vec<MintDescription>,
    pub burns: Vec<BurnDescription>,
    pub value_balance: ValueBalance,
    pub expiration: u32,
}

/// The net effect the accumulated actions have on an asset.
pub open spec fn net_delta(p: ProposedTransaction, a: Seq<u8>) -> int {
    spends_gain(p.spends@, a) + mints_gain(p.mints@, a) - outputs_loss(p.outputs@, a) - burns_loss(
        p.burns@,
        a,
    )
}

/// The accumulator's invariant: every record is well formed, each
/// planned output's record encodes the value and asset it was planned
/// with, and the running balance agrees with the accumulated actions
/// for every asset.
pub open spec fn proposed_wf(p: ProposedTransaction) -> bool {
    &&& (p.version == 1 || p.version == 2)
    &&& vb_wf(p.value_balance)
    &&& (forall|i: int|
        0 <= i < p.spends@.len() ==> spend_wf((#[trigger] p.spends@[i]).desc@) && p.spends@[
        i].asset_id@.len() == FIELD_SIZE)
    &&& (forall|i: int|
        0 <= i < p.outputs@.len() ==> output_wf((#[trigger] p.outputs@[i]).desc@) && p.outputs@[
        i].asset_id@.len() == FIELD_SIZE && p.outputs@[i].desc.note_blob@.subrange(32, 64)
            == p.outputs@[i].asset_id@ && u64_from_le(
            p.outputs@[i].desc.note_blob@.subrange(64, 72),
        ) == p.outputs@[i].value)
    &&& (forall|i: int| 0 <= i < p.mints@.len() ==> mint_wf(#[trigger] p.mints@[i]@))
    &&& (forall|i: int| 0 <= i < p.burns@.len() ==> burn_wf(#[trigger] p.burns@[i]@))
    &&& (forall|a: Seq<u8>|
        balance_of(p.value_balance.entries@, a) == #[trigger] net_delta(p, a))
}

proof fn lemma_spends_gain_push(ss: Seq<SpendPlan>, x: SpendPlan, a: Seq<u8>)
    ensures
        spends_gain(ss.push(x), a) == spends_gain(ss, a) + (if x.asset_id@ == a {
            x.value as int
        } else {
            0
        }),
    decreases ss.len(),
{
    let p = ss.push(x);
    if ss.len() == 0 {
        assert(p[0] == x);
        assert(p.drop_first() =~= Seq::<SpendPlan>::empty());
        assert(spends_gain(p.drop_first(), a) == 0);
    } else {
        assert(p[0] == ss[0]);
        assert(p.drop_first() =~= ss.drop_first().push(x));
        lemma_spends_gain_push(ss.drop_first(), x, a);
    }
}

proof fn lemma_outputs_loss_push(os: Seq<OutputPlan>, x: OutputPlan, a: Seq<u8>)
    ensures
        outputs_loss(os.push(x), a) == outputs_loss(os, a) + (if x.asset_id@ == a {
            x.value as int
        } else {
            0
        }),
    decreases os.len(),
{
    let p = os.push(x);
    if os.len() == 0 {
        assert(p[0] == x);
        assert(p.drop_first() =~= Seq::<OutputPlan>::empty());
        assert(outputs_loss(p.drop_first(), a) == 0);
    } else {
        assert(p[0] == os[0]);
        assert(p.drop_first() =~= os.drop_first().push(x));
        lemma_outputs_loss_push(os.drop_first(), x, a);
    }
}

proof fn lemma_mints_gain_push(ms: Seq<MintDescription>, x: MintDescription, a: Seq<u8>)
    ensures
        mints_gain(ms.push(x), a) == mints_gain(ms, a) + (if x.asset_id@ == a {
            x.value as int
        } else {
            0
        }),
    decreases ms.len(),
{
    let p = ms.push(x);
    if ms.len() == 0 {
        assert(p[0] == x);
        assert(p.drop_first() =~= Seq::<MintDescription>::empty());
        assert(mints_gain(p.drop_first(), a) == 0);
    } else {
        assert(p[0] == ms[0]);
        assert(p.drop_first() =~= ms.drop_first().push(x));
        lemma_mints_gain_push(ms.drop_first(), x, a);
    }
}

proof fn lemma_burns_loss_push(bs: Seq<BurnDescription>, x: BurnDescription, a: Seq<u8>)
    ensures
        burns_loss(bs.push(x), a) == burns_loss(bs, a) + (if x.asset_id@ == a {
            x.value as int
        } else {
            0
        }),
    decreases bs.len(),
{
    let p = bs.push(x);
    if bs.len() == 0 {
        assert(p[0] == x);
        assert(p.drop_first() =~= Seq::<BurnDescription>::empty());
        assert(burns_loss(p.drop_first(), a) == 0);
    } else {
        assert(p[0] == bs[0]);
        assert(p.drop_first() =~= bs.drop_first().push(x));
        lemma_burns_loss_push(bs.drop_first(), x, a);
    }
}

impl ProposedTransaction {
    /// Starts an empty transaction of the given format version; fails
    /// with `RangeError` exactly when the version is unknown.
    pub fn new(version: u8) -> (r: Result<ProposedTransaction, TxError>)
        ensures
            match r {
                Ok(p) => (version == 1 || version == 2) && proposed_wf(p) && p.version == version
                    && p.spends@.len() == 0 && p.outputs@.len() == 0 && p.mints@.len() == 0
                    && p.burns@.len() == 0 && p.expiration == 0,
                Err(e) => !(version == 1 || version == 2) && e == TxError::RangeError,
            },
    {
        if !(version == 1 || version == 2) {
            return Err(TxError::RangeError);
        }
        let p = ProposedTransaction {
            version,
            spends: Vec::new(),
            outputs: Vec::new(),
            mints: Vec::new(),
            burns: Vec::new(),
            value_balance: ValueBalance::new(),
            expiration: 0,
        };
        proof {
            assert forall|a: Seq<u8>| balance_of(p.value_balance.entries@, a) == #[trigger]
                net_delta(p, a) by {
                assert(balance_of(p.value_balance.entries@, a) == 0);
            }
        }
        Ok(p)
    }

    /// Sets or overwrites the expiration sequence; nothing is validated
    /// here.
    pub fn set_expiration(&mut self, sequence: u32)
        requires
            proposed_wf(*old(self)),
        ensures
            proposed_wf(*final(self)),
            *final(self) == (ProposedTransaction { expiration: sequence, ..*old(self) }),
    {
        self.expiration = sequence;
        proof {
            assert forall|a: Seq<u8>|
                balance_of(self.value_balance.entries@, a) == #[trigger] net_delta(
                *self,
                a,
            ) by {
                assert(net_delta(*self, a) == net_delta(*old(self), a));
            }
        }
    }
}

fn clone_bytes(v: &Vec<u8>) -> (r: Vec<u8>)
    ensures
        r@ == v@,
{
    let r = copy_range(v, 0, v.len());
    proof {
        assert(v@.subrange(0, v@.len() as int) =~= v@);
    }
    r
}

impl ProposedTransaction {
    /// Adds an output creating `note` for its recipient: appends the
    /// output record and takes the note's value from its asset's
    /// balance.  Fails with `RangeError`, changing nothing, exactly
    /// when the value or the new balance leaves the signed 64-bit
    /// range.
    pub fn output(&mut self, note: &Note) -> (r: Result<(), TxError>)
        requires
            proposed_wf(*old(self)),
            note_wf(note@),
        ensures
            proposed_wf(*final(self)),
            match r {
                Ok(()) => {
                    &&& note@.value <= i64::MAX
                    &&& i64::MIN <= balance_of(old(self).value_balance.entries@, note@.asset_id)
                        - note@.value <= i64::MAX
                    &&& final(self).outputs@.len() == old(self).outputs@.len() + 1
                    &&& (forall|i: int|
                        0 <= i < old(self).outputs@.len() ==> #[trigger] final(self).outputs@[i]
                            == old(self).outputs@[i])
                    &&& final(self).outputs@.last().desc.proof@ == output_proof_of(note@)
                    &&& final(self).outputs@.last().desc.note_blob@ == note_encoding(note@)
                    &&& final(self).outputs@.last().asset_id@ == note@.asset_id
                    &&& final(self).outputs@.last().value == note@.value
                    &&& final(self).spends@ == old(self).spends@
                    &&& final(self).mints@ == old(self).mints@
                    &&& final(self).burns@ == old(self).burns@
                    &&& final(self).version == old(self).version
                    &&& final(self).expiration == old(self).expiration
                },
                Err(e) => {
                    &&& e == TxError::RangeError
                    &&& !(note@.value <= i64::MAX && i64::MIN <= balance_of(
                        old(self).value_balance.entries@,
                        note@.asset_id,
                    ) - note@.value <= i64::MAX)
                    &&& *final(self) == *old(self)
                },
            },
    {
        if note.value > i64::MAX as u64 {
            return Err(TxError::RangeError);
        }
        let delta: i64 = -(note.value as i64);
        match self.value_balance.add_value(&note.asset_id, delta) {
            Ok(()) => {},
            Err(e) => {
                return Err(e);
            },
        }
        let plan = OutputPlan {
            desc: OutputDescription {
                proof: compute_output_proof(note),
                note_blob: encode_note(note),
            },
            asset_id: clone_bytes(&note.asset_id),
            value: note.value,
        };
        proof {
            assert(plan.desc.note_blob@.subrange(32, 64) =~= note@.asset_id);
            assert(plan.desc.note_blob@.subrange(64, 72) =~= u64_le_bytes(note@.value));
            crate::bytes::lemma_u64_le_roundtrip(note@.value);
        }
        let ghost pre = *self;
        self.outputs.push(plan);
        proof {
            assert forall|a: Seq<u8>|
                balance_of(self.value_balance.entries@, a) == #[trigger] net_delta(
                *self,
                a,
            ) by {
                assert(balance_of(old(self).value_balance.entries@, a) == net_delta(
                    *old(self),
                    a,
                ));
                lemma_outputs_loss_push(old(self).outputs@, self.outputs@.last(), a);
                assert(pre.outputs@ == old(self).outputs@);
            }
        }
        Ok(())
    }

    /// Adds a spend of `note` at the location `witness` proves: appends
    /// the spend record, with its deterministic nullifier, and adds the
    /// note's value to its asset's balance.  Fails with `ProofError` on
    /// a malformed witness and with `RangeError` on a value out of
    /// range, changing nothing in either case.
    pub fn spend(&mut self, note: &Note, witness: &Witness) -> (r: Result<(), TxError>)
        requires
            proposed_wf(*old(self)),
            note_wf(note@),
        ensures
            proposed_wf(*final(self)),
            match r {
                Ok(()) => {
                    &&& witness_wf(witness@)
                    &&& note@.value <= i64::MAX
                    &&& i64::MIN <= balance_of(old(self).value_balance.entries@, note@.asset_id)
                        + note@.value <= i64::MAX
                    &&& final(self).spends@.len() == old(self).spends@.len() + 1
                    &&& (forall|i: int|
                        0 <= i < old(self).spends@.len() ==> #[trigger] final(self).spends@[i]
                            == old(self).spends@[i])
                    &&& final(self).spends@.last().desc.proof@ == spend_proof_of(
                        note@,
                        witness@.root_hash,
                        witness@.tree_size,
                    )
                    &&& final(self).spends@.last().desc.root_hash@ == witness@.root_hash
                    &&& final(self).spends@.last().desc.tree_size == witness@.tree_size
                    &&& final(self).spends@.last().desc.nullifier@ == nullifier_of(
                        note@.secret,
                        witness@.position,
                    )
                    &&& final(self).spends@.last().asset_id@ == note@.asset_id
                    &&& final(self).spends@.last().value == note@.value
                    &&& final(self).outputs@ == old(self).outputs@
                    &&& final(self).mints@ == old(self).mints@
                    &&& final(self).burns@ == old(self).burns@
                    &&& final(self).version == old(self).version
                    &&& final(self).expiration == old(self).expiration
                },
                Err(e) => {
                    &&& (!witness_wf(witness@) ==> e == TxError::ProofError)
                    &&& (witness_wf(witness@) ==> e == TxError::RangeError && !(note@.value
                        <= i64::MAX && i64::MIN <= balance_of(
                        old(self).value_balance.entries@,
                        note@.asset_id,
                    ) + note@.value <= i64::MAX))
                    &&& *final(self) == *old(self)
                },
            },
    {
        if witness.root_hash.len() != FIELD_SIZE || witness.auth_path.len() != TREE_DEPTH {
            return Err(TxError::ProofError);
        }
        if note.value > i64::MAX as u64 {
            return Err(TxError::RangeError);
        }
        let delta: i64 = note.value as i64;
        match self.value_balance.add_value(&note.asset_id, delta) {
            Ok(()) => {},
            Err(e) => {
                return Err(e);
            },
        }
        let plan = SpendPlan {
            desc: SpendDescription {
                proof: compute_spend_proof(note, &witness.root_hash, witness.tree_size),
                root_hash: clone_bytes(&witness.root_hash),
                tree_size: witness.tree_size,
                nullifier: compute_nullifier(note, witness.position),
            },
            asset_id: clone_bytes(&note.asset_id),
            value: note.value,
        };
        let ghost pre = *self;
        self.spends.push(plan);
        proof {
            assert forall|a: Seq<u8>|
                balance_of(self.value_balance.entries@, a) == #[trigger] net_delta(
                *self,
                a,
            ) by {
                assert(balance_of(old(self).value_balance.entries@, a) == net_delta(
                    *old(self),
                    a,
                ));
                lemma_spends_gain_push(old(self).spends@, self.spends@.last(), a);
                assert(pre.spends@ == old(self).spends@);
            }
        }
        Ok(())
    }

    /// Mints `value` of an asset, optionally transferring the asset's
    /// ownership to a new public address given in hex: appends the mint
    /// record and adds the value to the asset's balance.  Fails with
    /// `KeyError` on malformed owner hex and with `RangeError` on a
    /// value out of range, changing nothing in either case.
    pub fn mint(&mut self, asset_id: &Vec<u8>, value: u64, transfer_ownership_to: Option<&str>)
        -> (r: Result<(), TxError>)
        requires
            proposed_wf(*old(self)),
            asset_id@.len() == FIELD_SIZE,
        ensures
            proposed_wf(*final(self)),
            match r {
                Ok(()) => {
                    &&& (match transfer_ownership_to {
                        Some(s) => valid_hex(s@, FIELD_SIZE as nat),
                        None => true,
                    })
                    &&& value <= i64::MAX
                    &&& i64::MIN <= balance_of(old(self).value_balance.entries@, asset_id@)
                        + value <= i64::MAX
                    &&& final(self).mints@.len() == old(self).mints@.len() + 1
                    &&& (forall|i: int|
                        0 <= i < old(self).mints@.len() ==> #[trigger] final(self).mints@[i]
                            == old(self).mints@[i])
                    &&& final(self).mints@.last().asset_id@ == asset_id@
                    &&& final(self).mints@.last().value == value
                    &&& (match transfer_ownership_to {
                        Some(s) => final(self).mints@.last()@.new_owner == Some(hex_decoded(s@)),
                        None => final(self).mints@.last()@.new_owner is None,
                    })
                    &&& final(self).spends@ == old(self).spends@
                    &&& final(self).outputs@ == old(self).outputs@
                    &&& final(self).burns@ == old(self).burns@
                    &&& final(self).version == old(self).version
                    &&& final(self).expiration == old(self).expiration
                },
                Err(e) => {
                    &&& (match transfer_ownership_to {
                        Some(s) => !valid_hex(s@, FIELD_SIZE as nat) ==> e == TxError::KeyError,
                        None => true,
                    })
                    &&& ((match transfer_ownership_to {
                        Some(s) => valid_hex(s@, FIELD_SIZE as nat),
                        None => true,
                    }) ==> e == TxError::RangeError && !(value <= i64::MAX && i64::MIN
                        <= balance_of(old(self).value_balance.entries@, asset_id@) + value
                        <= i64::MAX))
                    &&& *final(self) == *old(self)
                },
            },
    {
        let new_owner: Option<Vec<u8>> = match transfer_ownership_to {
            Some(s) => match decode_hex(s, FIELD_SIZE) {
                Some(addr) => Some(addr),
                None => {
                    return Err(TxError::KeyError);
                },
            },
            None => None,
        };
        if value > i64::MAX as u64 {
            return Err(TxError::RangeError);
        }
        match self.value_balance.add_value(asset_id, value as i64) {
            Ok(()) => {},
            Err(e) => {
                return Err(e);
            },
        }
        let d = MintDescription { asset_id: clone_bytes(asset_id), value, new_owner };
        let ghost pre = *self;
        self.mints.push(d);
        proof {
            assert forall|a: Seq<u8>|
                balance_of(self.value_balance.entries@, a) == #[trigger] net_delta(
                *self,
                a,
            ) by {
                assert(balance_of(old(self).value_balance.entries@, a) == net_delta(
                    *old(self),
                    a,
                ));
                lemma_mints_gain_push(old(self).mints@, self.mints@.last(), a);
                assert(pre.mints@ == old(self).mints@);
            }
        }
        Ok(())
    }

    /// Burns `value` of the asset named by `asset_id`: appends the burn
    /// record and takes the value from the asset's balance.  Fails with
    /// `ParseError` on a wrong-length identifier and with `RangeError`
    /// on a value out of range, changing nothing in either case.
    pub fn burn(&mut self, asset_id: &Vec<u8>, value: u64) -> (r: Result<(), TxError>)
        requires
            proposed_wf(*old(self)),
        ensures
            proposed_wf(*final(self)),
            match r {
                Ok(()) => {
                    &&& asset_id@.len() == FIELD_SIZE
                    &&& value <= i64::MAX
                    &&& i64::MIN <= balance_of(old(self).value_balance.entries@, asset_id@)
                        - value <= i64::MAX
                    &&& final(self).burns@.len() == old(self).burns@.len() + 1
                    &&& (forall|i: int|
                        0 <= i < old(self).burns@.len() ==> #[trigger] final(self).burns@[i]
                            == old(self).burns@[i])
                    &&& final(self).burns@.last().asset_id@ == asset_id@
                    &&& final(self).burns@.last().value == value
                    &&& final(self).spends@ == old(self).spends@
                    &&& final(self).outputs@ == old(self).outputs@
                    &&& final(self).mints@ == old(self).mints@
                    &&& final(self).version == old(self).version
                    &&& final(self).expiration == old(self).expiration
                },
                Err(e) => {
                    &&& (asset_id@.len() != FIELD_SIZE ==> e == TxError::ParseError)
                    &&& (asset_id@.len() == FIELD_SIZE ==> e == TxError::RangeError && !(value
                        <= i64::MAX && i64::MIN <= balance_of(
                        old(self).value_balance.entries@,
                        asset_id@,
                    ) - value <= i64::MAX))
                    &&& *final(self) == *old(self)
                },
            },
    {
        if asset_id.len() != FIELD_SIZE {
            return Err(TxError::ParseError);
        }
        if value > i64::MAX as u64 {
            return Err(TxError::RangeError);
        }
        match self.value_balance.add_value(asset_id, -(value as i64)) {
            Ok(()) => {},
            Err(e) => {
                return Err(e);
            },
        }
        let d = BurnDescription { asset_id: clone_bytes(asset_id), value };
        let ghost pre = *self;
        self.burns.push(d);
        proof {
            assert forall|a: Seq<u8>|
                balance_of(self.value_balance.entries@, a) == #[trigger] net_delta(
                *self,
                a,
            ) by {
                assert(balance_of(old(self).value_balance.entries@, a) == net_delta(
                    *old(self),
                    a,
                ));
                lemma_burns_loss_push(old(self).burns@, self.burns@.last(), a);
                assert(pre.burns@ == old(self).burns@);
            }
        }
        Ok(())
    }
}

/// The spender's public address, derived from the spending key.
pub open spec fn address_of(key: Seq<u8>) -> Seq<u8> {
    digest32_of(seq![9u8] + key)
}

/// The secret material of a change note, derived from the spending key
/// material and the transaction's public randomness.
pub open spec fn change_secret_of(key: Seq<u8>, randomness: Seq<u8>) -> Seq<u8> {
    digest32_of(seq![10u8] + key + randomness)
}

/// The binding signature a single spender produces over a signature
/// hash.
pub open spec fn binding_sig_of(key: Seq<u8>, h: Seq<u8>) -> Seq<u8> {
    digest32_of(seq![4u8] + key + h) + digest32_of(seq![5u8] + key + h)
}

pub fn derive_address(key: &Vec<u8>) -> (r: Vec<u8>)
    ensures
        r@ == address_of(key@),
        r@.len() == FIELD_SIZE,
{
    let mut msg: Vec<u8> = Vec::new();
    msg.push(9u8);
    push_bytes(&mut msg, key);
    proof {
        assert(msg@ =~= seq![9u8] + key@);
    }
    digest32(&msg)
}

fn derive_change_secret(key: &Vec<u8>, randomness: &Vec<u8>) -> (r: Vec<u8>)
    ensures
        r@ == change_secret_of(key@, randomness@),
        r@.len() == FIELD_SIZE,
{
    let mut msg: Vec<u8> = Vec::new();
    msg.push(10u8);
    push_bytes(&mut msg, key);
    push_bytes(&mut msg, randomness);
    proof {
        assert(msg@ =~= seq![10u8] + key@ + randomness@);
    }
    digest32(&msg)
}

fn compute_binding_sig(key: &Vec<u8>, h: &Vec<u8>) -> (r: Vec<u8>)
    ensures
        r@ == binding_sig_of(key@, h@),
        r@.len() == 64,
{
    let mut m1: Vec<u8> = Vec::new();
    m1.push(4u8);
    push_bytes(&mut m1, key);
    push_bytes(&mut m1, h);
    proof {
        assert(m1@ =~= seq![4u8] + key@ + h@);
    }
    let mut m2: Vec<u8> = Vec::new();
    m2.push(5u8);
    push_bytes(&mut m2, key);
    push_bytes(&mut m2, h);
    proof {
        assert(m2@ =~= seq![5u8] + key@ + h@);
    }
    let mut sig = digest32(&m1);
    let part2 = digest32(&m2);
    push_bytes(&mut sig, &part2);
    sig
}

fn spend_descs(plans: &Vec<SpendPlan>) -> (r: Vec<SpendDescription>)
    ensures
        r@.len() == plans@.len(),
        forall|i: int| 0 <= i < plans@.len() ==> #[trigger] r@[i]@ == plans@[i].desc@,
{
    let mut r: Vec<SpendDescription> = Vec::new();
    let mut i: usize = 0;
    while i < plans.len()
        invariant
            i <= plans@.len(),
            r@.len() == i,
            forall|k: int| 0 <= k < i ==> #[trigger] r@[k]@ == plans@[k].desc@,
        decreases plans@.len() - i,
    {
        let d = &plans[i].desc;
        let c = SpendDescription {
            proof: clone_bytes(&d.proof),
            root_hash: clone_bytes(&d.root_hash),
            tree_size: d.tree_size,
            nullifier: clone_bytes(&d.nullifier),
        };
        proof {
            assert(c@ =~= plans@[i as int].desc@);
        }
        r.push(c);
        i = i + 1;
    }
    r
}

fn output_descs(plans: &Vec<OutputPlan>) -> (r: Vec<OutputDescription>)
    ensures
        r@.len() == plans@.len(),
        forall|i: int| 0 <= i < plans@.len() ==> #[trigger] r@[i]@ == plans@[i].desc@,
{
    let mut r: Vec<OutputDescription> = Vec::new();
    let mut i: usize = 0;
    while i < plans.len()
        invariant
            i <= plans@.len(),
            r@.len() == i,
            forall|k: int| 0 <= k < i ==> #[trigger] r@[k]@ == plans@[k].desc@,
        decreases plans@.len() - i,
    {
        let d = &plans[i].desc;
        let c = OutputDescription {
            proof: clone_bytes(&d.proof),
            note_blob: clone_bytes(&d.note_blob),
        };
        proof {
            assert(c@ =~= plans@[i as int].desc@);
        }
        r.push(c);
        i = i + 1;
    }
    r
}

impl ProposedTransaction {
    /// Assembles the signed body: every accumulated record, the fee,
    /// the expiration, fresh public randomness, and, when `change` is
    /// positive, one more output paying `change` of the native asset to
    /// `change_owner`, whose note secret is derived from `key_material`
    /// and the randomness.
    fn assemble_body(&self, fee: i64, change: u64, change_owner: &Vec<u8>, key_material: &Vec<u8>)
        -> (r: TxBody)
        requires
            proposed_wf(*self),
            change_owner@.len() == FIELD_SIZE,
        ensures
            body_wf(r@),
            r@.version == self.version,
            r@.fee == fee,
            r@.expiration == self.expiration,
            r@.randomness.len() == FIELD_SIZE,
            r@.spends.len() == self.spends@.len(),
            forall|i: int|
                0 <= i < self.spends@.len() ==> r@.spends[i] == #[trigger] self.spends@[i].desc@,
            r@.mints.len() == self.mints@.len(),
            forall|i: int|
                0 <= i < self.mints@.len() ==> r@.mints[i] == #[trigger] self.mints@[i]@,
            r@.burns.len() == self.burns@.len(),
            forall|i: int|
                0 <= i < self.burns@.len() ==> r@.burns[i] == #[trigger] self.burns@[i]@,
            forall|i: int|
                0 <= i < self.outputs@.len() ==> r@.outputs[i] == #[trigger] self.outputs@[
                i].desc@,
            change == 0 ==> r@.outputs.len() == self.outputs@.len(),
            change > 0 ==> {
                &&& r@.outputs.len() == self.outputs@.len() + 1
                &&& r@.outputs.last().note_blob == note_encoding(
                    NoteData {
                        owner: change_owner@,
                        asset_id: native_asset_seq(),
                        value: change,
                        secret: change_secret_of(key_material@, r@.randomness),
                    },
                )
                &&& r@.outputs.last().proof == output_proof_of(
                    NoteData {
                        owner: change_owner@,
                        asset_id: native_asset_seq(),
                        value: change,
                        secret: change_secret_of(key_material@, r@.randomness),
                    },
                )
            },
    {
        let randomness = fresh_randomness();
        let spends = spend_descs(&self.spends);
        let mut outputs = output_descs(&self.outputs);
        if change > 0 {
            let secret = derive_change_secret(key_material, &randomness);
            let change_note = Note {
                owner: clone_bytes(change_owner),
                asset_id: native_asset_id(),
                value: change,
                secret,
            };
            let d = OutputDescription {
                proof: compute_output_proof(&change_note),
                note_blob: encode_note(&change_note),
            };
            outputs.push(d);
        }
        let mut mints: Vec<MintDescription> = Vec::new();
        let mut i: usize = 0;
        while i < self.mints.len()
            invariant
                i <= self.mints@.len(),
                mints@.len() == i,
                forall|k: int| 0 <= k < i ==> #[trigger] mints@[k]@ == self.mints@[k]@,
            decreases self.mints@.len() - i,
        {
            let m = &self.mints[i];
            let owner: Option<Vec<u8>> = match &m.new_owner {
                Some(a) => Some(clone_bytes(a)),
                None => None,
            };
            let c = MintDescription { asset_id: clone_bytes(&m.asset_id), value: m.value, new_owner: owner };
            proof {
                assert(c@ =~= self.mints@[i as int]@);
            }
            mints.push(c);
            i = i + 1;
        }
        let mut burns: Vec<BurnDescription> = Vec::new();
        let mut i: usize = 0;
        while i < self.burns.len()
            invariant
                i <= self.burns@.len(),
                burns@.len() == i,
                forall|k: int| 0 <= k < i ==> #[trigger] burns@[k]@ == self.burns@[k]@,
            decreases self.burns@.len() - i,
        {
            let u = &self.burns[i];
            let c = BurnDescription { asset_id: clone_bytes(&u.asset_id), value: u.value };
            proof {
                assert(c@ =~= self.burns@[i as int]@);
            }
            burns.push(c);
            i = i + 1;
        }
        let ns: usize = spends.len();
        let no: usize = outputs.len();
        let nm: usize = mints.len();
        let nb: usize = burns.len();
        let body = TxBody {
            version: self.version,
            spends,
            outputs,
            mints,
            burns,
            fee,
            expiration: self.expiration,
            randomness,
        };
        proof {
            assert(body@.spends.len() == ns && body@.outputs.len() == no && body@.mints.len()
                == nm && body@.burns.len() == nb);
        }
        proof {
            assert forall|i: int| 0 <= i < body@.spends.len() implies spend_wf(
                #[trigger] body@.spends[i],
            ) by {
                assert(body@.spends[i] == self.spends@[i].desc@);
                assert(spend_wf(self.spends@[i].desc@));
            }
            assert forall|i: int| 0 <= i < body@.outputs.len() implies output_wf(
                #[trigger] body@.outputs[i],
            ) by {
                if i < self.outputs@.len() {
                    assert(body@.outputs[i] == self.outputs@[i].desc@);
                    assert(output_wf(self.outputs@[i].desc@));
                }
            }
            assert forall|i: int| 0 <= i < body@.mints.len() implies mint_wf(
                #[trigger] body@.mints[i],
            ) by {
                assert(body@.mints[i] == self.mints@[i]@);
                assert(mint_wf(self.mints@[i]@));
            }
            assert forall|i: int| 0 <= i < body@.burns.len() implies burn_wf(
                #[trigger] body@.burns[i],
            ) by {
                assert(body@.burns[i] == self.burns@[i]@);
                assert(burn_wf(self.burns@[i]@));
            }
            assert(body_wf(body@));
        }
        body
    }
}

impl ProposedTransaction {
    /// Posts the transaction with a single spending key given in hex.
    /// The change, the native balance minus the intended fee, must not
    /// be negative; positive change is paid to `change_goes_to` (hex),
    /// or to the spender's own address when absent.  Fails with
    /// `KeyError` on malformed hex, `RangeError` on a fee above the
    /// signed 64-bit range, and `BalanceError` when the balance cannot
    /// fund the fee.
    pub fn post(
        self,
        spender_hex_key: &str,
        change_goes_to: Option<&str>,
        intended_transaction_fee: u64,
    ) -> (r: Result<PostedTransaction, TxError>)
        requires
            proposed_wf(self),
        ensures
            ({
                let keyok = valid_hex(spender_hex_key@, FIELD_SIZE as nat);
                let feeok = intended_transaction_fee <= i64::MAX;
                let chok = match change_goes_to {
                    Some(s) => valid_hex(s@, FIELD_SIZE as nat),
                    None => true,
                };
                let key = hex_decoded(spender_hex_key@);
                let nb = balance_of(self.value_balance.entries@, native_asset_seq());
                let change = nb - intended_transaction_fee;
                let owner = match change_goes_to {
                    Some(s) => hex_decoded(s@),
                    None => address_of(key),
                };
                match r {
                    Ok(p) => {
                        &&& keyok
                        &&& feeok
                        &&& chok
                        &&& change >= 0
                        &&& posted_wf(p@)
                        &&& p@.body.version == self.version
                        &&& p@.body.fee == intended_transaction_fee as i64
                        &&& p@.body.expiration == self.expiration
                        &&& p@.body.spends.len() == self.spends@.len()
                        &&& (forall|i: int|
                            0 <= i < self.spends@.len() ==> p@.body.spends[i] == #[trigger] self.spends@[i].desc@)
                        &&& (forall|i: int|
                            0 <= i < self.mints@.len() ==> p@.body.mints[i] == #[trigger] self.mints@[i]@)
                        &&& p@.body.mints.len() == self.mints@.len()
                        &&& (forall|i: int|
                            0 <= i < self.burns@.len() ==> p@.body.burns[i] == #[trigger] self.burns@[i]@)
                        &&& p@.body.burns.len() == self.burns@.len()
                        &&& (forall|i: int|
                            0 <= i < self.outputs@.len() ==> p@.body.outputs[i] == #[trigger] self.outputs@[i].desc@)
                        &&& (change == 0 ==> p@.body.outputs.len() == self.outputs@.len())
                        &&& (change > 0 ==> p@.body.outputs.len() == self.outputs@.len() + 1
                            && p@.body.outputs.last().note_blob == note_encoding(
                            NoteData {
                                owner,
                                asset_id: native_asset_seq(),
                                value: change as u64,
                                secret: change_secret_of(key, p@.body.randomness),
                            },
                        ))
                        &&& p@.signature == binding_sig_of(key, sighash_of(p@.body))
                    },
                    Err(e) => {
                        &&& (!keyok ==> e == TxError::KeyError)
                        &&& (keyok && !feeok ==> e == TxError::RangeError)
                        &&& (keyok && feeok && !chok ==> e == TxError::KeyError)
                        &&& (keyok && feeok && chok ==> e == TxError::BalanceError && change < 0)
                    },
                }
            }),
    {
        let key = match decode_hex(spender_hex_key, FIELD_SIZE) {
            Some(k) => k,
            None => {
                return Err(TxError::KeyError);
            },
        };
        if intended_transaction_fee > i64::MAX as u64 {
            return Err(TxError::RangeError);
        }
        let fee_i: i64 = intended_transaction_fee as i64;
        let owner: Vec<u8> = match change_goes_to {
            Some(s) => match decode_hex(s, FIELD_SIZE) {
                Some(a) => a,
                None => {
                    return Err(TxError::KeyError);
                },
            },
            None => derive_address(&key),
        };
        let native = native_asset_id();
        let nb = self.value_balance.get(&native);
        if nb < fee_i {
            return Err(TxError::BalanceError);
        }
        let change: u64 = (nb - fee_i) as u64;
        let body = self.assemble_body(fee_i, change, &owner, &key);
        let image = serialize_body(&body);
        let h = digest32(&image);
        let signature = compute_binding_sig(&key, &h);
        Ok(PostedTransaction { body, signature })
    }

    /// Posts a miner's-fee transaction without the integrity check:
    /// the fee is simply the accumulated native balance, however the
    /// transaction is shaped.  It exists to produce deliberately
    /// invalid fixtures; call `post_miners_fee` in ordinary code.
    pub fn post_miners_fee_unchecked(self, spender_hex_key: &str) -> (r: Result<
        PostedTransaction,
        TxError,
    >)
        requires
            proposed_wf(self),
        ensures
            ({
                let keyok = valid_hex(spender_hex_key@, FIELD_SIZE as nat);
                let key = hex_decoded(spender_hex_key@);
                let nb = balance_of(self.value_balance.entries@, native_asset_seq());
                match r {
                    Ok(p) => {
                        &&& keyok
                        &&& posted_wf(p@)
                        &&& p@.body.version == self.version
                        &&& p@.body.fee as int == nb
                        &&& p@.body.expiration == self.expiration
                        &&& p@.body.spends.len() == self.spends@.len()
                        &&& (forall|i: int|
                            0 <= i < self.spends@.len() ==> p@.body.spends[i] == #[trigger] self.spends@[i].desc@)
                        &&& p@.body.outputs.len() == self.outputs@.len()
                        &&& (forall|i: int|
                            0 <= i < self.outputs@.len() ==> p@.body.outputs[i] == #[trigger] self.outputs@[i].desc@)
                        &&& p@.body.mints.len() == self.mints@.len()
                        &&& p@.body.burns.len() == self.burns@.len()
                        &&& p@.signature == binding_sig_of(key, sighash_of(p@.body))
                    },
                    Err(e) => !keyok && e == TxError::KeyError,
                }
            }),
    {
        let key = match decode_hex(spender_hex_key, FIELD_SIZE) {
            Some(k) => k,
            None => {
                return Err(TxError::KeyError);
            },
        };
        let native = native_asset_id();
        let nb = self.value_balance.get(&native);
        let owner = derive_address(&key);
        let body = self.assemble_body(nb, 0, &owner, &key);
        let image = serialize_body(&body);
        let h = digest32(&image);
        let signature = compute_binding_sig(&key, &h);
        Ok(PostedTransaction { body, signature })
    }

    /// Posts a miner's-fee transaction: it creates currency, so it must
    /// be pristine, with no spends, no mints, no burns and exactly one
    /// output, and its fee is the negation of that output's value.
    /// Fails with `KeyError` on malformed key hex and with
    /// `BalanceError` when the transaction is not pristine.
    pub fn post_miners_fee(self, spender_hex_key: &str) -> (r: Result<PostedTransaction, TxError>)
        requires
            proposed_wf(self),
        ensures
            ({
                let keyok = valid_hex(spender_hex_key@, FIELD_SIZE as nat);
                let key = hex_decoded(spender_hex_key@);
                let pristine = self.spends@.len() == 0 && self.outputs@.len() == 1
                    && self.mints@.len() == 0 && self.burns@.len() == 0;
                match r {
                    Ok(p) => {
                        &&& keyok
                        &&& pristine
                        &&& posted_wf(p@)
                        &&& p@.body.spends.len() == 0
                        &&& p@.body.outputs.len() == 1
                        &&& p@.body.outputs[0] == self.outputs@[0].desc@
                        &&& p@.body.mints.len() == 0
                        &&& p@.body.burns.len() == 0
                        &&& p@.body.fee as int == balance_of(
                            self.value_balance.entries@,
                            native_asset_seq(),
                        )
                        &&& p@.body.version == self.version
                        &&& p@.body.expiration == self.expiration
                        &&& p@.signature == binding_sig_of(key, sighash_of(p@.body))
                    },
                    Err(e) => {
                        &&& (!keyok ==> e == TxError::KeyError)
                        &&& (keyok ==> e == TxError::BalanceError && !pristine)
                    },
                }
            }),
    {
        if !(self.spends.len() == 0 && self.outputs.len() == 1 && self.mints.len() == 0
            && self.burns.len() == 0) {
            match decode_hex(spender_hex_key, FIELD_SIZE) {
                Some(_) => {
                    return Err(TxError::BalanceError);
                },
                None => {
                    return Err(TxError::KeyError);
                },
            }
        }
        self.post_miners_fee_unchecked(spender_hex_key)
    }

    /// Builds an unsigned transaction for multi-party signing, with the
    /// same balancing and change rules as `post`; the proofs, balance
    /// and randomness are fixed, and signing happens later.  Fails with
    /// `KeyError` on malformed key hex and with `BalanceError` when the
    /// balance cannot fund the fee.
    pub fn build(
        self,
        proof_generation_key_str: &str,
        view_key_str: &str,
        outgoing_view_key_str: &str,
        public_address_str: &str,
        intended_transaction_fee: i64,
        change_goes_to: Option<&str>,
    ) -> (r: Result<UnsignedTransaction, TxError>)
        requires
            proposed_wf(self),
        ensures
            ({
                let keysok = valid_hex(view_key_str@, FIELD_SIZE as nat) && valid_hex(
                    outgoing_view_key_str@,
                    FIELD_SIZE as nat,
                ) && valid_hex(public_address_str@, FIELD_SIZE as nat) && valid_hex(
                    proof_generation_key_str@,
                    FIELD_SIZE as nat,
                );
                let chok = match change_goes_to {
                    Some(s) => valid_hex(s@, FIELD_SIZE as nat),
                    None => true,
                };
                let nb = balance_of(self.value_balance.entries@, native_asset_seq());
                let change = nb - intended_transaction_fee;
                match r {
                    Ok(t) => {
                        &&& keysok
                        &&& chok
                        &&& 0 <= change <= i64::MAX
                        &&& body_wf(t.body@)
                        &&& t.body@.version == self.version
                        &&& t.body@.fee == intended_transaction_fee
                        &&& t.body@.expiration == self.expiration
                        &&& t.body@.spends.len() == self.spends@.len()
                        &&& (forall|i: int|
                            0 <= i < self.spends@.len() ==> t.body@.spends[i] == #[trigger] self.spends@[i].desc@)
                        &&& (forall|i: int|
                            0 <= i < self.outputs@.len() ==> t.body@.outputs[i] == #[trigger] self.outputs@[i].desc@)
                        &&& (change == 0 ==> t.body@.outputs.len() == self.outputs@.len())
                        &&& (change > 0 ==> t.body@.outputs.len() == self.outputs@.len() + 1)
                        &&& t.body@.mints.len() == self.mints@.len()
                        &&& t.body@.burns.len() == self.burns@.len()
                    },
                    Err(e) => {
                        &&& (!keysok ==> e == TxError::KeyError)
                        &&& (keysok && !chok ==> e == TxError::KeyError)
                        &&& (keysok && chok ==> e == TxError::BalanceError && !(0 <= change
                            <= i64::MAX))
                    },
                }
            }),
    {
        let vk = match decode_hex(view_key_str, FIELD_SIZE) {
            Some(k) => k,
            None => {
                return Err(TxError::KeyError);
            },
        };
        let _ovk = match decode_hex(outgoing_view_key_str, FIELD_SIZE) {
            Some(k) => k,
            None => {
                return Err(TxError::KeyError);
            },
        };
        let addr = match decode_hex(public_address_str, FIELD_SIZE) {
            Some(k) => k,
            None => {
                return Err(TxError::KeyError);
            },
        };
        let pgk = match decode_hex(proof_generation_key_str, FIELD_SIZE) {
            Some(k) => k,
            None => {
                return Err(TxError::KeyError);
            },
        };
        let owner: Vec<u8> = match change_goes_to {
            Some(s) => match decode_hex(s, FIELD_SIZE) {
                Some(a) => a,
                None => {
                    return Err(TxError::KeyError);
                },
            },
            None => addr,
        };
        let native = native_asset_id();
        let nb = self.value_balance.get(&native);
        let change_i: i64 = match nb.checked_sub(intended_transaction_fee) {
            Some(c) => c,
            None => {
                return Err(TxError::BalanceError);
            },
        };
        if change_i < 0 {
            return Err(TxError::BalanceError);
        }
        let change: u64 = change_i as u64;
        let body = self.assemble_body(intended_transaction_fee, change, &owner, &pgk);
        Ok(UnsignedTransaction { body })
    }
}

/// A pristine miner's-fee transaction creates currency: with no spends,
/// mints or burns and a single native-asset output, the accumulated
/// native balance, which `post_miners_fee` uses as the fee, is exactly
/// the negation of that output's value, and strictly negative whenever
/// the output carries value.
pub proof fn lemma_miners_fee_negative(p: ProposedTransaction)
    requires
        proposed_wf(p),
        p.spends@.len() == 0,
        p.outputs@.len() == 1,
        p.mints@.len() == 0,
        p.burns@.len() == 0,
        p.outputs@[0].asset_id@ == native_asset_seq(),
    ensures
        balance_of(p.value_balance.entries@, native_asset_seq()) == -(p.outputs@[0].value as int),
        p.outputs@[0].value > 0 ==> balance_of(p.value_balance.entries@, native_asset_seq()) < 0,
{
    let a = native_asset_seq();
    assert(balance_of(p.value_balance.entries@, a) == #[trigger] net_delta(p, a)) by {
        assert(proposed_wf(p));
    }
    assert(spends_gain(p.spends@, a) == 0);
    assert(mints_gain(p.mints@, a) == 0);
    assert(burns_loss(p.burns@, a) == 0);
    assert(p.outputs@.drop_first() =~= Seq::<OutputPlan>::empty());
    assert(outputs_loss(p.outputs@.drop_first(), a) == 0);
    assert(p.outputs@[0].asset_id@ == a);
    assert(outputs_loss(p.outputs@, a) == (if p.outputs@[0].asset_id@ == a {
        p.outputs@[0].value as int
    } else {
        0
    }) + outputs_loss(p.outputs@.drop_first(), a));
    assert(outputs_loss(p.outputs@, a) == p.outputs@[0].value as int);
}

} // verus!
