use vstd::prelude::*;
use vstd::assert_seqs_equal;

use crate::bytes::{u64_le_bytes, u64_from_le, u32_le_bytes, u32_from_le, i64_le_bytes,
    i64_from_le, push_u64_le, push_u32_le, push_i64_le, push_bytes, read_u64_le, read_u32_le,
    read_i64_le, copy_range, lemma_u64_le_roundtrip, lemma_u32_le_roundtrip,
    lemma_i64_le_roundtrip};
use crate::errors::TxError;

verus! {

// The serialized transaction layout: a fixed header (version, the four
// action counts, fee, expiration, public randomness) followed by the
// spend, output, mint and burn records, each of fixed byte length.  A
// posted transaction appends the binding signature.  The spec functions
// below define the layout once; the executable serializer and parser are
// proved against them, and the round trip is exact.

/// Length of an opaque zero-knowledge proof attached to a spend or output.
pub const PROOF_SIZE: usize = 32;

/// Length of an asset identifier, a public address, a nullifier, a Merkle
/// root hash, and the per-transaction public randomness.
pub const FIELD_SIZE: usize = 32;

/// Length of the plain encoding of a note: owner, asset identifier, value.
pub const NOTE_ENC_SIZE: usize = 72;

/// Length of one serialized spend record.
pub const SPEND_REC_SIZE: usize = 104;

/// Length of one serialized output record.
pub const OUTPUT_REC_SIZE: usize = 104;

/// Length of one serialized mint record.
pub const MINT_REC_SIZE: usize = 73;

/// Length of one serialized burn record.
pub const BURN_REC_SIZE: usize = 40;

/// Length of the fixed header.
pub const HEADER_SIZE: usize = 77;

/// Length of a binding signature.
pub const SIGNATURE_SIZE: usize = 64;

/// A spend: the proof, the Merkle root and tree size the witness referred
/// to, and the nullifier that marks the note as spent.
#[derive(Debug)]
pub struct SpendDescription {
    pub proof: Vec<u8>,
    pub root_hash: Vec<u8>,
    pub tree_size: u64,
    pub nullifier: Vec<u8>,
}

/// An output: the proof and the plain encoding of the created note.
#[derive(Debug)]
pub struct OutputDescription {
    pub proof: Vec<u8>,
    pub note_blob: Vec<u8>,
}

/// A mint: an asset, a value, and optionally a new owner for the asset.
#[derive(Debug)]
pub struct MintDescription {
    pub asset_id: Vec<u8>,
    pub value: u64,
    pub new_owner: Option<Vec<u8>>,
}

/// A burn: an asset and the value taken out of circulation.
#[derive(Debug)]
pub struct BurnDescription {
    pub asset_id: Vec<u8>,
    pub value: u64,
}

/// Everything of a transaction that is covered by the signature hash.
#[derive(Debug)]
pub struct TxBody {
    pub version: u8,
    pub spends: Vec<SpendDescription>,
    pub outputs: Vec<OutputDescription>,
    pub mints: Vec<MintDescription>,
    pub burns: Vec<BurnDescription>,
    pub fee: i64,
    pub expiration: u32,
    pub randomness: Vec<u8>,
}

#[verifier::ext_equal]
pub struct SpendData {
    pub proof: Seq<u8>,
    pub root_hash: Seq<u8>,
    pub tree_size: u64,
    pub nullifier: Seq<u8>,
}

#[verifier::ext_equal]
pub struct OutputData {
    pub proof: Seq<u8>,
    pub note_blob: Seq<u8>,
}

#[verifier::ext_equal]
pub struct MintData {
    pub asset_id: Seq<u8>,
    pub value: u64,
    pub new_owner: Option<Seq<u8>>,
}

#[verifier::ext_equal]
pub struct BurnData {
    pub asset_id: Seq<u8>,
    pub value: u64,
}

#[verifier::ext_equal]
pub struct TxBodyData {
    pub version: u8,
    pub spends: Seq<SpendData>,
    pub outputs: Seq<OutputData>,
    pub mints: Seq<MintData>,
    pub burns: Seq<BurnData>,
    pub fee: i64,
    pub expiration: u32,
    pub randomness: Seq<u8>,
}

impl View for SpendDescription {
    type V = SpendData;

    open spec fn view(&self) -> SpendData {
        SpendData {
            proof: self.proof@,
            root_hash: self.root_hash@,
            tree_size: self.tree_size,
            nullifier: self.nullifier@,
        }
    }
}

impl View for OutputDescription {
    type V = OutputData;

    open spec fn view(&self) -> OutputData {
        OutputData { proof: self.proof@, note_blob: self.note_blob@ }
    }
}

impl View for MintDescription {
    type V = MintData;

    open spec fn view(&self) -> MintData {
        MintData {
            asset_id: self.asset_id@,
            value: self.value,
            new_owner: match self.new_owner {
                Some(a) => Some(a@),
                None => None,
            },
        }
    }
}

impl View for BurnDescription {
    type V = BurnData;

    open spec fn view(&self) -> BurnData {
        BurnData { asset_id: self.asset_id@, value: self.value }
    }
}

impl View for TxBody {
    type V = TxBodyData;

    open spec fn view(&self) -> TxBodyData {
        TxBodyData {
            version: self.version,
            spends: Seq::new(self.spends@.len(), |i: int| self.spends@[i]@),
            outputs: Seq::new(self.outputs@.len(), |i: int| self.outputs@[i]@),
            mints: Seq::new(self.mints@.len(), |i: int| self.mints@[i]@),
            burns: Seq::new(self.burns@.len(), |i: int| self.burns@[i]@),
            fee: self.fee,
            expiration: self.expiration,
            randomness: self.randomness@,
        }
    }
}

pub open spec fn zero_field() -> Seq<u8> {
    Seq::new(FIELD_SIZE as nat, |i: int| 0u8)
}

pub open spec fn spend_wf(s: SpendData) -> bool {
    s.proof.len() == PROOF_SIZE && s.root_hash.len() == FIELD_SIZE && s.nullifier.len()
        == FIELD_SIZE
}

pub open spec fn output_wf(o: OutputData) -> bool {
    o.proof.len() == PROOF_SIZE && o.note_blob.len() == NOTE_ENC_SIZE
}

pub open spec fn mint_wf(m: MintData) -> bool {
    m.asset_id.len() == FIELD_SIZE && match m.new_owner {
        Some(a) => a.len() == FIELD_SIZE,
        None => true,
    }
}

pub open spec fn burn_wf(b: BurnData) -> bool {
    b.asset_id.len() == FIELD_SIZE
}

/// A structurally well-formed transaction body.
pub open spec fn body_wf(b: TxBodyData) -> bool {
    &&& (b.version == 1 || b.version == 2)
    &&& b.randomness.len() == FIELD_SIZE
    &&& b.spends.len() <= u64::MAX
    &&& b.outputs.len() <= u64::MAX
    &&& b.mints.len() <= u64::MAX
    &&& b.burns.len() <= u64::MAX
    &&& (forall|i: int| 0 <= i < b.spends.len() ==> spend_wf(#[trigger] b.spends[i]))
    &&& (forall|i: int| 0 <= i < b.outputs.len() ==> output_wf(#[trigger] b.outputs[i]))
    &&& (forall|i: int| 0 <= i < b.mints.len() ==> mint_wf(#[trigger] b.mints[i]))
    &&& (forall|i: int| 0 <= i < b.burns.len() ==> burn_wf(#[trigger] b.burns[i]))
}

pub open spec fn spend_bytes(s: SpendData) -> Seq<u8> {
    s.proof + s.root_hash + u64_le_bytes(s.tree_size) + s.nullifier
}

pub open spec fn output_bytes(o: OutputData) -> Seq<u8> {
    o.proof + o.note_blob
}

pub open spec fn mint_bytes(m: MintData) -> Seq<u8> {
    m.asset_id + u64_le_bytes(m.value) + (match m.new_owner {
        Some(a) => seq![1u8] + a,
        None => seq![0u8] + zero_field(),
    })
}

pub open spec fn burn_bytes(b: BurnData) -> Seq<u8> {
    b.asset_id + u64_le_bytes(b.value)
}

pub open spec fn spends_bytes(ss: Seq<SpendData>) -> Seq<u8>
    decreases ss.len(),
{
    if ss.len() == 0 {
        Seq::empty()
    } else {
        spend_bytes(ss[0]) + spends_bytes(ss.drop_first())
    }
}

pub open spec fn outputs_bytes(os: Seq<OutputData>) -> Seq<u8>
    decreases os.len(),
{
    if os.len() == 0 {
        Seq::empty()
    } else {
        output_bytes(os[0]) + outputs_bytes(os.drop_first())
    }
}

pub open spec fn mints_bytes(ms: Seq<MintData>) -> Seq<u8>
    decreases ms.len(),
{
    if ms.len() == 0 {
        Seq::empty()
    } else {
        mint_bytes(ms[0]) + mints_bytes(ms.drop_first())
    }
}

pub open spec fn burns_bytes(bs: Seq<BurnData>) -> Seq<u8>
    decreases bs.len(),
{
    if bs.len() == 0 {
        Seq::empty()
    } else {
        burn_bytes(bs[0]) + burns_bytes(bs.drop_first())
    }
}

pub open spec fn header_bytes(b: TxBodyData) -> Seq<u8> {
    seq![b.version] + u64_le_bytes(b.spends.len() as u64) + u64_le_bytes(b.outputs.len() as u64)
        + u64_le_bytes(b.mints.len() as u64) + u64_le_bytes(b.burns.len() as u64) + i64_le_bytes(
        b.fee,
    ) + u32_le_bytes(b.expiration) + b.randomness
}

/// The serialized image of a transaction body.  This is also the exact
/// preimage of the signature hash.
pub open spec fn body_bytes(b: TxBodyData) -> Seq<u8> {
    header_bytes(b) + spends_bytes(b.spends) + outputs_bytes(b.outputs) + mints_bytes(b.mints)
        + burns_bytes(b.burns)
}

pub open spec fn body_len_of(ns: int, no: int, nm: int, nb: int) -> int {
    HEADER_SIZE + ns * SPEND_REC_SIZE + no * OUTPUT_REC_SIZE + nm * MINT_REC_SIZE + nb
        * BURN_REC_SIZE
}

pub open spec fn parse_spend_at(bytes: Seq<u8>, off: int) -> SpendData {
    SpendData {
        proof: bytes.subrange(off, off + 32),
        root_hash: bytes.subrange(off + 32, off + 64),
        tree_size: u64_from_le(bytes.subrange(off + 64, off + 72)),
        nullifier: bytes.subrange(off + 72, off + 104),
    }
}

pub open spec fn parse_output_at(bytes: Seq<u8>, off: int) -> OutputData {
    OutputData {
        proof: bytes.subrange(off, off + 32),
        note_blob: bytes.subrange(off + 32, off + 104),
    }
}

pub open spec fn parse_mint_at(bytes: Seq<u8>, off: int) -> MintData {
    MintData {
        asset_id: bytes.subrange(off, off + 32),
        value: u64_from_le(bytes.subrange(off + 32, off + 40)),
        new_owner: if bytes[off + 40] == 1 {
            Some(bytes.subrange(off + 41, off + 73))
        } else {
            None
        },
    }
}

/// A mint record is canonical: its owner flag is 0 or 1, and an absent
/// owner is padded with zero bytes.
pub open spec fn mint_rec_valid(bytes: Seq<u8>, off: int) -> bool {
    bytes[off + 40] == 1 || (bytes[off + 40] == 0 && bytes.subrange(off + 41, off + 73)
        == zero_field())
}

pub open spec fn parse_burn_at(bytes: Seq<u8>, off: int) -> BurnData {
    BurnData {
        asset_id: bytes.subrange(off, off + 32),
        value: u64_from_le(bytes.subrange(off + 32, off + 40)),
    }
}

/// What a byte string parses to: `None` exactly when no well-formed body
/// serializes to it.
pub open spec fn spec_parse_body(bytes: Seq<u8>) -> Option<TxBodyData> {
    if bytes.len() < HEADER_SIZE {
        None
    } else {
        let version = bytes[0];
        let ns = u64_from_le(bytes.subrange(1, 9)) as int;
        let no = u64_from_le(bytes.subrange(9, 17)) as int;
        let nm = u64_from_le(bytes.subrange(17, 25)) as int;
        let nb = u64_from_le(bytes.subrange(25, 33)) as int;
        let so = HEADER_SIZE as int;
        let oo = so + ns * SPEND_REC_SIZE;
        let mo = oo + no * OUTPUT_REC_SIZE;
        let bo = mo + nm * MINT_REC_SIZE;
        if !(version == 1 || version == 2) {
            None
        } else if bytes.len() != body_len_of(ns, no, nm, nb) {
            None
        } else if !(forall|i: int| 0 <= i < nm ==> #[trigger] mint_rec_valid(bytes, mo + i * MINT_REC_SIZE)) {
            None
        } else {
            Some(
                TxBodyData {
                    version,
                    spends: Seq::new(ns as nat, |i: int| parse_spend_at(bytes, so + i * SPEND_REC_SIZE)),
                    outputs: Seq::new(no as nat, |i: int| parse_output_at(bytes, oo + i * OUTPUT_REC_SIZE)),
                    mints: Seq::new(nm as nat, |i: int| parse_mint_at(bytes, mo + i * MINT_REC_SIZE)),
                    burns: Seq::new(nb as nat, |i: int| parse_burn_at(bytes, bo + i * BURN_REC_SIZE)),
                    fee: i64_from_le(bytes.subrange(33, 41)),
                    expiration: u32_from_le(bytes.subrange(41, 45)),
                    randomness: bytes.subrange(45, 77),
                },
            )
        }
    }
}

pub proof fn lemma_spends_bytes_len(ss: Seq<SpendData>)
    requires
        forall|i: int| 0 <= i < ss.len() ==> spend_wf(#[trigger] ss[i]),
    ensures
        spends_bytes(ss).len() == ss.len() * SPEND_REC_SIZE,
    decreases ss.len(),
{
    if ss.len() > 0 {
        assert(spend_wf(ss[0]));
        lemma_spends_bytes_len(ss.drop_first());
    }
}

pub proof fn lemma_outputs_bytes_len(os: Seq<OutputData>)
    requires
        forall|i: int| 0 <= i < os.len() ==> output_wf(#[trigger] os[i]),
    ensures
        outputs_bytes(os).len() == os.len() * OUTPUT_REC_SIZE,
    decreases os.len(),
{
    if os.len() > 0 {
        assert(output_wf(os[0]));
        lemma_outputs_bytes_len(os.drop_first());
    }
}

pub proof fn lemma_mints_bytes_len(ms: Seq<MintData>)
    requires
        forall|i: int| 0 <= i < ms.len() ==> mint_wf(#[trigger] ms[i]),
    ensures
        mints_bytes(ms).len() == ms.len() * MINT_REC_SIZE,
    decreases ms.len(),
{
    if ms.len() > 0 {
        assert(mint_wf(ms[0]));
        lemma_mints_bytes_len(ms.drop_first());
    }
}

pub proof fn lemma_burns_bytes_len(bs: Seq<BurnData>)
    requires
        forall|i: int| 0 <= i < bs.len() ==> burn_wf(#[trigger] bs[i]),
    ensures
        burns_bytes(bs).len() == bs.len() * BURN_REC_SIZE,
    decreases bs.len(),
{
    if bs.len() > 0 {
        assert(burn_wf(bs[0]));
        lemma_burns_bytes_len(bs.drop_first());
    }
}

pub proof fn lemma_spends_bytes_snoc(ss: Seq<SpendData>, x: SpendData)
    ensures
        spends_bytes(ss.push(x)) == spends_bytes(ss) + spend_bytes(x),
    decreases ss.len(),
{
    if ss.len() == 0 {
        assert(ss.push(x)[0] == x);
        assert(ss.push(x).drop_first() =~= Seq::<SpendData>::empty());
        assert(spends_bytes(ss.push(x)) == spend_bytes(x) + spends_bytes(Seq::<SpendData>::empty()));
        assert(spends_bytes(ss.push(x)) =~= spends_bytes(ss) + spend_bytes(x));
    } else {
        let rest = ss.drop_first();
        assert(ss.push(x)[0] == ss[0]);
        assert(ss.push(x).drop_first() =~= rest.push(x));
        lemma_spends_bytes_snoc(rest, x);
        assert(spends_bytes(ss.push(x)) == spend_bytes(ss[0]) + spends_bytes(rest.push(x)));
        assert(spends_bytes(ss.push(x)) == spend_bytes(ss[0]) + (spends_bytes(rest) + spend_bytes(x)));
        assert(spends_bytes(ss) == spend_bytes(ss[0]) + spends_bytes(rest));
        assert(spend_bytes(ss[0]) + (spends_bytes(rest) + spend_bytes(x)) =~= (spend_bytes(ss[0]) + spends_bytes(rest)) + spend_bytes(
        x));
        assert(spends_bytes(ss.push(x)) == spends_bytes(ss) + spend_bytes(x));
    }
}

pub proof fn lemma_outputs_bytes_snoc(ss: Seq<OutputData>, x: OutputData)
    ensures
        outputs_bytes(ss.push(x)) == outputs_bytes(ss) + output_bytes(x),
    decreases ss.len(),
{
    if ss.len() == 0 {
        assert(ss.push(x)[0] == x);
        assert(ss.push(x).drop_first() =~= Seq::<OutputData>::empty());
        assert(outputs_bytes(ss.push(x)) == output_bytes(x) + outputs_bytes(Seq::<OutputData>::empty()));
        assert(outputs_bytes(ss.push(x)) =~= outputs_bytes(ss) + output_bytes(x));
    } else {
        let rest = ss.drop_first();
        assert(ss.push(x)[0] == ss[0]);
        assert(ss.push(x).drop_first() =~= rest.push(x));
        lemma_outputs_bytes_snoc(rest, x);
        assert(outputs_bytes(ss.push(x)) == output_bytes(ss[0]) + outputs_bytes(rest.push(x)));
        assert(outputs_bytes(ss.push(x)) == output_bytes(ss[0]) + (outputs_bytes(rest) + output_bytes(x)));
        assert(outputs_bytes(ss) == output_bytes(ss[0]) + outputs_bytes(rest));
        assert(output_bytes(ss[0]) + (outputs_bytes(rest) + output_bytes(x)) =~= (output_bytes(ss[0]) + outputs_bytes(rest)) + output_bytes(
        x));
        assert(outputs_bytes(ss.push(x)) == outputs_bytes(ss) + output_bytes(x));
    }
}

pub proof fn lemma_mints_bytes_snoc(ss: Seq<MintData>, x: MintData)
    ensures
        mints_bytes(ss.push(x)) == mints_bytes(ss) + mint_bytes(x),
    decreases ss.len(),
{
    if ss.len() == 0 {
        assert(ss.push(x)[0] == x);
        assert(ss.push(x).drop_first() =~= Seq::<MintData>::empty());
        assert(mints_bytes(ss.push(x)) == mint_bytes(x) + mints_bytes(Seq::<MintData>::empty()));
        assert(mints_bytes(ss.push(x)) =~= mints_bytes(ss) + mint_bytes(x));
    } else {
        let rest = ss.drop_first();
        assert(ss.push(x)[0] == ss[0]);
        assert(ss.push(x).drop_first() =~= rest.push(x));
        lemma_mints_bytes_snoc(rest, x);
        assert(mints_bytes(ss.push(x)) == mint_bytes(ss[0]) + mints_bytes(rest.push(x)));
        assert(mints_bytes(ss.push(x)) == mint_bytes(ss[0]) + (mints_bytes(rest) + mint_bytes(x)));
        assert(mints_bytes(ss) == mint_bytes(ss[0]) + mints_bytes(rest));
        assert(mint_bytes(ss[0]) + (mints_bytes(rest) + mint_bytes(x)) =~= (mint_bytes(ss[0]) + mints_bytes(rest)) + mint_bytes(
        x));
        assert(mints_bytes(ss.push(x)) == mints_bytes(ss) + mint_bytes(x));
    }
}

pub proof fn lemma_burns_bytes_snoc(ss: Seq<BurnData>, x: BurnData)
    ensures
        burns_bytes(ss.push(x)) == burns_bytes(ss) + burn_bytes(x),
    decreases ss.len(),
{
    if ss.len() == 0 {
        assert(ss.push(x)[0] == x);
        assert(ss.push(x).drop_first() =~= Seq::<BurnData>::empty());
        assert(burns_bytes(ss.push(x)) == burn_bytes(x) + burns_bytes(Seq::<BurnData>::empty()));
        assert(burns_bytes(ss.push(x)) =~= burns_bytes(ss) + burn_bytes(x));
    } else {
        let rest = ss.drop_first();
        assert(ss.push(x)[0] == ss[0]);
        assert(ss.push(x).drop_first() =~= rest.push(x));
        lemma_burns_bytes_snoc(rest, x);
        assert(burns_bytes(ss.push(x)) == burn_bytes(ss[0]) + burns_bytes(rest.push(x)));
        assert(burns_bytes(ss.push(x)) == burn_bytes(ss[0]) + (burns_bytes(rest) + burn_bytes(x)));
        assert(burns_bytes(ss) == burn_bytes(ss[0]) + burns_bytes(rest));
        assert(burn_bytes(ss[0]) + (burns_bytes(rest) + burn_bytes(x)) =~= (burn_bytes(ss[0]) + burns_bytes(rest)) + burn_bytes(
        x));
        assert(burns_bytes(ss.push(x)) == burns_bytes(ss) + burn_bytes(x));
    }
}

fn push_zero_field(out: &mut Vec<u8>)
    ensures
        final(out)@ == old(out)@ + zero_field(),
{
    let mut i: usize = 0;
    while i < FIELD_SIZE
        invariant
            i <= FIELD_SIZE,
            out@ == old(out)@ + Seq::new(i as nat, |k: int| 0u8),
        decreases FIELD_SIZE - i,
    {
        out.push(0u8);
        proof {
            assert(old(out)@ + Seq::new(i as nat + 1, |k: int| 0u8) =~= (old(out)@ + Seq::new(
                i as nat,
                |k: int| 0u8,
            )).push(0u8));
        }
        i = i + 1;
    }
}

fn append_spends(out: &mut Vec<u8>, ss: &Vec<SpendDescription>)
    ensures
        final(out)@ == old(out)@ + spends_bytes(Seq::new(ss@.len(), |i: int| ss@[i]@)),
{
    let ghost view = Seq::new(ss@.len(), |i: int| ss@[i]@);
    let mut i: usize = 0;
    while i < ss.len()
        invariant
            i <= ss@.len(),
            view == Seq::new(ss@.len(), |k: int| ss@[k]@),
            out@ == old(out)@ + spends_bytes(view.take(i as int)),
        decreases ss@.len() - i,
    {
        let s = &ss[i];
        push_bytes(out, &s.proof);
        push_bytes(out, &s.root_hash);
        push_u64_le(out, s.tree_size);
        push_bytes(out, &s.nullifier);
        proof {
            assert(view.take(i as int + 1) =~= view.take(i as int).push(view[i as int]));
            lemma_spends_bytes_snoc(view.take(i as int), view[i as int]);
            assert(out@ =~= old(out)@ + spends_bytes(view.take(i as int + 1)));
        }
        i = i + 1;
    }
    proof {
        assert(view.take(ss@.len() as int) =~= view);
    }
}

fn append_outputs(out: &mut Vec<u8>, os: &Vec<OutputDescription>)
    ensures
        final(out)@ == old(out)@ + outputs_bytes(Seq::new(os@.len(), |i: int| os@[i]@)),
{
    let ghost view = Seq::new(os@.len(), |i: int| os@[i]@);
    let mut i: usize = 0;
    while i < os.len()
        invariant
            i <= os@.len(),
            view == Seq::new(os@.len(), |k: int| os@[k]@),
            out@ == old(out)@ + outputs_bytes(view.take(i as int)),
        decreases os@.len() - i,
    {
        let o = &os[i];
        push_bytes(out, &o.proof);
        push_bytes(out, &o.note_blob);
        proof {
            assert(view.take(i as int + 1) =~= view.take(i as int).push(view[i as int]));
            lemma_outputs_bytes_snoc(view.take(i as int), view[i as int]);
            assert(out@ =~= old(out)@ + outputs_bytes(view.take(i as int + 1)));
        }
        i = i + 1;
    }
    proof {
        assert(view.take(os@.len() as int) =~= view);
    }
}

fn append_mints(out: &mut Vec<u8>, ms: &Vec<MintDescription>)
    ensures
        final(out)@ == old(out)@ + mints_bytes(Seq::new(ms@.len(), |i: int| ms@[i]@)),
{
    let ghost view = Seq::new(ms@.len(), |i: int| ms@[i]@);
    let mut i: usize = 0;
    while i < ms.len()
        invariant
            i <= ms@.len(),
            view == Seq::new(ms@.len(), |k: int| ms@[k]@),
            out@ == old(out)@ + mints_bytes(view.take(i as int)),
        decreases ms@.len() - i,
    {
        let ghost pre = out@;
        let m = &ms[i];
        push_bytes(out, &m.asset_id);
        push_u64_le(out, m.value);
        match &m.new_owner {
            Some(a) => {
                out.push(1u8);
                push_bytes(out, a);
            },
            None => {
                out.push(0u8);
                push_zero_field(out);
            },
        }
        proof {
            assert(out@ =~= pre + mint_bytes(view[i as int]));
            assert(view.take(i as int + 1) =~= view.take(i as int).push(view[i as int]));
            lemma_mints_bytes_snoc(view.take(i as int), view[i as int]);
            assert(out@ =~= old(out)@ + mints_bytes(view.take(i as int + 1)));
        }
        i = i + 1;
    }
    proof {
        assert(view.take(ms@.len() as int) =~= view);
    }
}

fn append_burns(out: &mut Vec<u8>, bs: &Vec<BurnDescription>)
    ensures
        final(out)@ == old(out)@ + burns_bytes(Seq::new(bs@.len(), |i: int| bs@[i]@)),
{
    let ghost view = Seq::new(bs@.len(), |i: int| bs@[i]@);
    let mut i: usize = 0;
    while i < bs.len()
        invariant
            i <= bs@.len(),
            view == Seq::new(bs@.len(), |k: int| bs@[k]@),
            out@ == old(out)@ + burns_bytes(view.take(i as int)),
        decreases bs@.len() - i,
    {
        let u = &bs[i];
        push_bytes(out, &u.asset_id);
        push_u64_le(out, u.value);
        proof {
            assert(view.take(i as int + 1) =~= view.take(i as int).push(view[i as int]));
            lemma_burns_bytes_snoc(view.take(i as int), view[i as int]);
            assert(out@ =~= old(out)@ + burns_bytes(view.take(i as int + 1)));
        }
        i = i + 1;
    }
    proof {
        assert(view.take(bs@.len() as int) =~= view);
    }
}

/// Serializes a transaction body into its exact wire image.
pub fn serialize_body(b: &TxBody) -> (r: Vec<u8>)
    ensures
        r@ == body_bytes(b@),
{
    let mut out: Vec<u8> = Vec::new();
    out.push(b.version);
    push_u64_le(&mut out, b.spends.len() as u64);
    push_u64_le(&mut out, b.outputs.len() as u64);
    push_u64_le(&mut out, b.mints.len() as u64);
    push_u64_le(&mut out, b.burns.len() as u64);
    push_i64_le(&mut out, b.fee);
    push_u32_le(&mut out, b.expiration);
    push_bytes(&mut out, &b.randomness);
    proof {
        assert(out@ =~= header_bytes(b@));
    }
    append_spends(&mut out, &b.spends);
    append_outputs(&mut out, &b.outputs);
    append_mints(&mut out, &b.mints);
    append_burns(&mut out, &b.burns);
    proof {
        assert(out@ =~= body_bytes(b@));
    }
    out
}

pub proof fn lemma_spends_bytes_index(ss: Seq<SpendData>, i: int)
    requires
        0 <= i < ss.len(),
        forall|k: int| 0 <= k < ss.len() ==> spend_wf(#[trigger] ss[k]),
    ensures
        spends_bytes(ss).subrange(i * SPEND_REC_SIZE, (i + 1) * SPEND_REC_SIZE) =~= spend_bytes(
            ss[i],
        ),
    decreases i,
{
    lemma_spends_bytes_len(ss);
    assert(spend_wf(ss[0]));
    if i == 0 {
        assert(spends_bytes(ss).subrange(0, 104) =~= spend_bytes(ss[0]));
    } else {
        lemma_spends_bytes_index(ss.drop_first(), i - 1);
        assert(spends_bytes(ss).subrange(i * 104, (i + 1) * 104) =~= spends_bytes(
            ss.drop_first(),
        ).subrange((i - 1) * 104, i * 104));
    }
}

pub proof fn lemma_outputs_bytes_index(os: Seq<OutputData>, i: int)
    requires
        0 <= i < os.len(),
        forall|k: int| 0 <= k < os.len() ==> output_wf(#[trigger] os[k]),
    ensures
        outputs_bytes(os).subrange(i * OUTPUT_REC_SIZE, (i + 1) * OUTPUT_REC_SIZE) =~= output_bytes(
            os[i],
        ),
    decreases i,
{
    lemma_outputs_bytes_len(os);
    assert(output_wf(os[0]));
    if i == 0 {
        assert(outputs_bytes(os).subrange(0, 104) =~= output_bytes(os[0]));
    } else {
        lemma_outputs_bytes_index(os.drop_first(), i - 1);
        assert(outputs_bytes(os).subrange(i * 104, (i + 1) * 104) =~= outputs_bytes(
            os.drop_first(),
        ).subrange((i - 1) * 104, i * 104));
    }
}

pub proof fn lemma_mints_bytes_index(ms: Seq<MintData>, i: int)
    requires
        0 <= i < ms.len(),
        forall|k: int| 0 <= k < ms.len() ==> mint_wf(#[trigger] ms[k]),
    ensures
        mints_bytes(ms).subrange(i * MINT_REC_SIZE, (i + 1) * MINT_REC_SIZE) =~= mint_bytes(ms[i]),
    decreases i,
{
    lemma_mints_bytes_len(ms);
    assert(mint_wf(ms[0]));
    if i == 0 {
        assert(mints_bytes(ms).subrange(0, 73) =~= mint_bytes(ms[0]));
    } else {
        lemma_mints_bytes_index(ms.drop_first(), i - 1);
        assert(mints_bytes(ms).subrange(i * 73, (i + 1) * 73) =~= mints_bytes(
            ms.drop_first(),
        ).subrange((i - 1) * 73, i * 73));
    }
}

pub proof fn lemma_burns_bytes_index(bs: Seq<BurnData>, i: int)
    requires
        0 <= i < bs.len(),
        forall|k: int| 0 <= k < bs.len() ==> burn_wf(#[trigger] bs[k]),
    ensures
        burns_bytes(bs).subrange(i * BURN_REC_SIZE, (i + 1) * BURN_REC_SIZE) =~= burn_bytes(bs[i]),
    decreases i,
{
    lemma_burns_bytes_len(bs);
    assert(burn_wf(bs[0]));
    if i == 0 {
        assert(burns_bytes(bs).subrange(0, 40) =~= burn_bytes(bs[0]));
    } else {
        lemma_burns_bytes_index(bs.drop_first(), i - 1);
        assert(burns_bytes(bs).subrange(i * 40, (i + 1) * 40) =~= burns_bytes(
            bs.drop_first(),
        ).subrange((i - 1) * 40, i * 40));
    }
}

/// Parsing the serialized image of a well-formed body gives the body
/// back: the round-trip law of the wire format.
#[verifier::rlimit(100)]
pub proof fn lemma_body_roundtrip(b: TxBodyData)
    requires
        body_wf(b),
    ensures
        spec_parse_body(body_bytes(b)) == Some(b),
{
    let bytes = body_bytes(b);
    let ns = b.spends.len() as int;
    let no = b.outputs.len() as int;
    let nm = b.mints.len() as int;
    let nb = b.burns.len() as int;
    lemma_spends_bytes_len(b.spends);
    lemma_outputs_bytes_len(b.outputs);
    lemma_mints_bytes_len(b.mints);
    lemma_burns_bytes_len(b.burns);
    assert(header_bytes(b).len() == 77);
    assert(bytes.len() == body_len_of(ns, no, nm, nb));
    assert(bytes[0] == b.version);
    assert(bytes.subrange(1, 9) =~= u64_le_bytes(b.spends.len() as u64));
    assert(bytes.subrange(9, 17) =~= u64_le_bytes(b.outputs.len() as u64));
    assert(bytes.subrange(17, 25) =~= u64_le_bytes(b.mints.len() as u64));
    assert(bytes.subrange(25, 33) =~= u64_le_bytes(b.burns.len() as u64));
    assert(bytes.subrange(33, 41) =~= i64_le_bytes(b.fee));
    assert(bytes.subrange(41, 45) =~= u32_le_bytes(b.expiration));
    assert(bytes.subrange(45, 77) =~= b.randomness);
    lemma_u64_le_roundtrip(b.spends.len() as u64);
    lemma_u64_le_roundtrip(b.outputs.len() as u64);
    lemma_u64_le_roundtrip(b.mints.len() as u64);
    lemma_u64_le_roundtrip(b.burns.len() as u64);
    lemma_i64_le_roundtrip(b.fee);
    lemma_u32_le_roundtrip(b.expiration);
    let so = HEADER_SIZE as int;
    let oo = so + ns * SPEND_REC_SIZE;
    let mo = oo + no * OUTPUT_REC_SIZE;
    let bo = mo + nm * MINT_REC_SIZE;
    assert(bytes.subrange(so, oo) =~= spends_bytes(b.spends));
    assert(bytes.subrange(oo, mo) =~= outputs_bytes(b.outputs));
    assert(bytes.subrange(mo, bo) =~= mints_bytes(b.mints));
    assert(bytes.subrange(bo, bytes.len() as int) =~= burns_bytes(b.burns));
    assert forall|i: int| 0 <= i < ns implies parse_spend_at(bytes, so + i * SPEND_REC_SIZE)
        == b.spends[i] by {
        lemma_spends_bytes_index(b.spends, i);
        let s = b.spends[i];
        let off = so + i * SPEND_REC_SIZE;
        assert(spend_wf(s));
        let sb = s.proof + s.root_hash + u64_le_bytes(s.tree_size) + s.nullifier;
        assert forall|k: int| 0 <= k < 104 implies #[trigger] bytes[off + k] == sb[k] by {
            assert(bytes[off + k] == spends_bytes(b.spends)[i * 104 + k]);
            assert(spends_bytes(b.spends).subrange(i * 104, (i + 1) * 104)[k] == spends_bytes(
                b.spends,
            )[i * 104 + k]);
        }
        assert_seqs_equal!(bytes.subrange(off, off + 32) == s.proof, j => {
            assert(bytes[off + j] == sb[j]);
            assert(sb[j] == s.proof[j]);
        });
        assert_seqs_equal!(bytes.subrange(off + 32, off + 64) == s.root_hash, j => {
            assert(bytes[off + (32 + j)] == sb[32 + j]);
            assert(sb[32 + j] == s.root_hash[j]);
        });
        assert_seqs_equal!(bytes.subrange(off + 64, off + 72) == u64_le_bytes(s.tree_size), j => {
            assert(bytes[off + (64 + j)] == sb[64 + j]);
            assert(sb[64 + j] == u64_le_bytes(s.tree_size)[j]);
        });
        lemma_u64_le_roundtrip(s.tree_size);
        assert_seqs_equal!(bytes.subrange(off + 72, off + 104) == s.nullifier, j => {
            assert(bytes[off + (72 + j)] == sb[72 + j]);
            assert(sb[72 + j] == s.nullifier[j]);
        });
        assert(parse_spend_at(bytes, off) =~= s);
    }
    assert forall|i: int| 0 <= i < no implies parse_output_at(bytes, oo + i * OUTPUT_REC_SIZE)
        == b.outputs[i] by {
        lemma_outputs_bytes_index(b.outputs, i);
        let o = b.outputs[i];
        let off = oo + i * OUTPUT_REC_SIZE;
        assert(output_wf(o));
        let ob = o.proof + o.note_blob;
        assert forall|k: int| 0 <= k < 104 implies #[trigger] bytes[off + k] == ob[k] by {
            assert(bytes[off + k] == outputs_bytes(b.outputs)[i * 104 + k]);
            assert(outputs_bytes(b.outputs).subrange(i * 104, (i + 1) * 104)[k] == outputs_bytes(
                b.outputs,
            )[i * 104 + k]);
        }
        assert_seqs_equal!(bytes.subrange(off, off + 32) == o.proof, j => {
            assert(bytes[off + j] == ob[j]);
            assert(ob[j] == o.proof[j]);
        });
        assert_seqs_equal!(bytes.subrange(off + 32, off + 104) == o.note_blob, j => {
            assert(bytes[off + (32 + j)] == ob[32 + j]);
            assert(ob[32 + j] == o.note_blob[j]);
        });
        assert(parse_output_at(bytes, off) =~= o);
    }
    assert forall|i: int|
        #![trigger parse_mint_at(bytes, mo + i * MINT_REC_SIZE)]
        0 <= i < nm implies parse_mint_at(bytes, mo + i * MINT_REC_SIZE) == b.mints[i]
        && mint_rec_valid(bytes, mo + i * MINT_REC_SIZE) by {
        lemma_mints_bytes_index(b.mints, i);
        let m = b.mints[i];
        let off = mo + i * MINT_REC_SIZE;
        assert(mint_wf(m));
        let owner_part = match m.new_owner {
            Some(a) => seq![1u8] + a,
            None => seq![0u8] + zero_field(),
        };
        let mb = m.asset_id + u64_le_bytes(m.value) + owner_part;
        assert forall|k: int| 0 <= k < 73 implies #[trigger] bytes[off + k] == mb[k] by {
            assert(bytes[off + k] == mints_bytes(b.mints)[i * 73 + k]);
            assert(mints_bytes(b.mints).subrange(i * 73, (i + 1) * 73)[k] == mints_bytes(
                b.mints,
            )[i * 73 + k]);
        }
        assert_seqs_equal!(bytes.subrange(off, off + 32) == m.asset_id, j => {
            assert(bytes[off + j] == mb[j]);
            assert(mb[j] == m.asset_id[j]);
        });
        assert_seqs_equal!(bytes.subrange(off + 32, off + 40) == u64_le_bytes(m.value), j => {
            assert(bytes[off + (32 + j)] == mb[32 + j]);
            assert(mb[32 + j] == u64_le_bytes(m.value)[j]);
        });
        lemma_u64_le_roundtrip(m.value);
        assert(bytes[off + 40] == mb[40]);
        assert(mb[40] == owner_part[0]);
        assert_seqs_equal!(bytes.subrange(off + 41, off + 73) == owner_part.subrange(1, 33), j => {
            assert(bytes[off + (41 + j)] == mb[41 + j]);
            assert(mb[41 + j] == owner_part[1 + j]);
        });
        match m.new_owner {
            Some(a) => {
                assert(owner_part[0] == 1);
                assert(owner_part.subrange(1, 33) =~= a);
            },
            None => {
                assert(owner_part[0] == 0);
                assert(owner_part.subrange(1, 33) =~= zero_field());
            },
        }
        assert(parse_mint_at(bytes, off) =~= m);
    }
    assert forall|i: int| 0 <= i < nb implies parse_burn_at(bytes, bo + i * BURN_REC_SIZE)
        == b.burns[i] by {
        lemma_burns_bytes_index(b.burns, i);
        let u = b.burns[i];
        let off = bo + i * BURN_REC_SIZE;
        assert(burn_wf(u));
        let ub = u.asset_id + u64_le_bytes(u.value);
        assert forall|k: int| 0 <= k < 40 implies #[trigger] bytes[off + k] == ub[k] by {
            assert(bytes[off + k] == burns_bytes(b.burns)[i * 40 + k]);
            assert(burns_bytes(b.burns).subrange(i * 40, (i + 1) * 40)[k] == burns_bytes(
                b.burns,
            )[i * 40 + k]);
        }
        assert_seqs_equal!(bytes.subrange(off, off + 32) == u.asset_id, j => {
            assert(bytes[off + j] == ub[j]);
            assert(ub[j] == u.asset_id[j]);
        });
        assert_seqs_equal!(bytes.subrange(off + 32, off + 40) == u64_le_bytes(u.value), j => {
            assert(bytes[off + (32 + j)] == ub[32 + j]);
            assert(ub[32 + j] == u64_le_bytes(u.value)[j]);
        });
        lemma_u64_le_roundtrip(u.value);
        assert(parse_burn_at(bytes, off) =~= u);
    }
    let ns_p = u64_from_le(bytes.subrange(1, 9)) as int;
    let no_p = u64_from_le(bytes.subrange(9, 17)) as int;
    let nm_p = u64_from_le(bytes.subrange(17, 25)) as int;
    let nb_p = u64_from_le(bytes.subrange(25, 33)) as int;
    assert(ns_p == ns && no_p == no && nm_p == nm && nb_p == nb);
    let so_p = HEADER_SIZE as int;
    let oo_p = so_p + ns_p * SPEND_REC_SIZE;
    let mo_p = oo_p + no_p * OUTPUT_REC_SIZE;
    assert(mo_p == mo);
    assert forall|i: int| 0 <= i < nm_p implies #[trigger] mint_rec_valid(
        bytes,
        mo_p + i * MINT_REC_SIZE,
    ) by {
        assert(parse_mint_at(bytes, mo + i * MINT_REC_SIZE) == b.mints[i]);
        assert(mint_rec_valid(bytes, mo + i * MINT_REC_SIZE));
    }
    let parsed = spec_parse_body(bytes);
    assert(parsed.is_some());
    assert(parsed.unwrap() =~= b);
}

fn region_zero(b: &Vec<u8>, off: usize, len: usize) -> (r: bool)
    requires
        off + len <= b@.len(),
    ensures
        r <==> (forall|k: int| off <= k < off + len ==> b@[k] == 0),
{
    let l: usize = b.len();
    let mut i: usize = 0;
    while i < len
        invariant
            i <= len,
            off + len <= l,
            l == b@.len(),
            forall|k: int| off <= k < off + i ==> b@[k] == 0,
        decreases len - i,
    {
        if b[off + i] != 0 {
            return false;
        }
        i = i + 1;
    }
    true
}

/// Parses a serialized transaction body; fails exactly on the byte
/// strings that no well-formed body serializes to.
#[verifier::rlimit(100)]
#[verifier::loop_isolation(false)]
pub fn parse_body(bytes: &Vec<u8>) -> (r: Result<TxBody, TxError>)
    ensures
        match r {
            Ok(t) => spec_parse_body(bytes@) == Some(t@) && body_wf(t@),
            Err(e) => spec_parse_body(bytes@).is_none() && e == TxError::ParseError,
        },
{
    let n = bytes.len();
    if n < HEADER_SIZE {
        return Err(TxError::ParseError);
    }
    let version = bytes[0];
    if !(version == 1 || version == 2) {
        return Err(TxError::ParseError);
    }
    let ns = read_u64_le(bytes, 1);
    let no = read_u64_le(bytes, 9);
    let nm = read_u64_le(bytes, 17);
    let nb = read_u64_le(bytes, 25);
    let fee = read_i64_le(bytes, 33);
    let expiration = read_u32_le(bytes, 41);
    let expected: u128 = HEADER_SIZE as u128 + ns as u128 * SPEND_REC_SIZE as u128 + no as u128
        * OUTPUT_REC_SIZE as u128 + nm as u128 * MINT_REC_SIZE as u128 + nb as u128
        * BURN_REC_SIZE as u128;
    if n as u128 != expected {
        assert(bytes@.len() != body_len_of(ns as int, no as int, nm as int, nb as int));
        return Err(TxError::ParseError);
    }
    assert(bytes@.len() == body_len_of(ns as int, no as int, nm as int, nb as int));
    let randomness = copy_range(bytes, 45, 32);
    proof {
        assert(n as int == HEADER_SIZE + ns as int * SPEND_REC_SIZE + no as int
            * OUTPUT_REC_SIZE + nm as int * MINT_REC_SIZE + nb as int * BURN_REC_SIZE);
        assert(ns as int <= n as int && no as int <= n as int && nm as int <= n as int
            && nb as int <= n as int);
    }
    let ns_us = ns as usize;
    let no_us = no as usize;
    let nm_us = nm as usize;
    let nb_us = nb as usize;
    let so: usize = HEADER_SIZE;
    let oo: usize = so + ns_us * SPEND_REC_SIZE;
    let mo: usize = oo + no_us * OUTPUT_REC_SIZE;
    let bo: usize = mo + nm_us * MINT_REC_SIZE;
    let mut spends: Vec<SpendDescription> = Vec::new();
    let mut i: usize = 0;
    while i < ns_us
        invariant
            i <= ns_us,
            so == HEADER_SIZE,
            so + ns_us * SPEND_REC_SIZE <= bytes@.len(),
            spends@.len() == i,
            forall|j: int|
                0 <= j < i ==> #[trigger] spends@[j]@ == parse_spend_at(
                    bytes@,
                    HEADER_SIZE + j * SPEND_REC_SIZE,
                ) && spend_wf(spends@[j]@),
        decreases ns_us - i,
    {
        let off = so + i * SPEND_REC_SIZE;
        let d = SpendDescription {
            proof: copy_range(bytes, off, 32),
            root_hash: copy_range(bytes, off + 32, 32),
            tree_size: read_u64_le(bytes, off + 64),
            nullifier: copy_range(bytes, off + 72, 32),
        };
        proof {
            assert(d@ =~= parse_spend_at(bytes@, HEADER_SIZE + i as int * SPEND_REC_SIZE));
        }
        spends.push(d);
        i = i + 1;
    }
    let mut outputs: Vec<OutputDescription> = Vec::new();
    let mut i: usize = 0;
    while i < no_us
        invariant
            i <= no_us,
            oo == HEADER_SIZE + ns_us * SPEND_REC_SIZE,
            oo + no_us * OUTPUT_REC_SIZE <= bytes@.len(),
            outputs@.len() == i,
            forall|j: int|
                0 <= j < i ==> #[trigger] outputs@[j]@ == parse_output_at(
                    bytes@,
                    oo + j * OUTPUT_REC_SIZE,
                ) && output_wf(outputs@[j]@),
        decreases no_us - i,
    {
        let off = oo + i * OUTPUT_REC_SIZE;
        let d = OutputDescription {
            proof: copy_range(bytes, off, 32),
            note_blob: copy_range(bytes, off + 32, 72),
        };
        proof {
            assert(d@ =~= parse_output_at(bytes@, oo as int + i as int * OUTPUT_REC_SIZE));
        }
        outputs.push(d);
        i = i + 1;
    }
    let mut mints: Vec<MintDescription> = Vec::new();
    let mut i: usize = 0;
    while i < nm_us
        invariant
            i <= nm_us,
            mo == HEADER_SIZE + ns_us * SPEND_REC_SIZE + no_us * OUTPUT_REC_SIZE,
            mo + nm_us * MINT_REC_SIZE <= bytes@.len(),
            mints@.len() == i,
            forall|j: int|
                0 <= j < i ==> #[trigger] mints@[j]@ == parse_mint_at(
                    bytes@,
                    mo + j * MINT_REC_SIZE,
                ) && mint_wf(mints@[j]@) && mint_rec_valid(bytes@, mo + j * MINT_REC_SIZE),
        decreases nm_us - i,
    {
        let off = mo + i * MINT_REC_SIZE;
        let flag = bytes[off + 40];
        let new_owner: Option<Vec<u8>> = if flag == 1 {
            Some(copy_range(bytes, off + 41, 32))
        } else if flag == 0 {
            if !region_zero(bytes, off + 41, 32) {
                proof {
                    let k = choose|k: int| off + 41 <= k < off + 73 && bytes@[k] != 0;
                    assert(bytes@.subrange(off as int + 41, off as int + 73)[k - off - 41] != 0);
                    assert(zero_field()[k - off - 41] == 0);
                    assert(bytes@.subrange(off as int + 41, off as int + 73) != zero_field());
                    assert(!mint_rec_valid(bytes@, mo as int + i as int * MINT_REC_SIZE));
                }
                return Err(TxError::ParseError);
            }
            proof {
                assert(bytes@.subrange(off as int + 41, off as int + 73) =~= zero_field());
            }
            None
        } else {
            proof {
                assert(!mint_rec_valid(bytes@, mo as int + i as int * MINT_REC_SIZE));
            }
            return Err(TxError::ParseError);
        };
        let d = MintDescription {
            asset_id: copy_range(bytes, off, 32),
            value: read_u64_le(bytes, off + 32),
            new_owner,
        };
        proof {
            assert(mint_rec_valid(bytes@, mo as int + i as int * MINT_REC_SIZE));
            assert(d@ =~= parse_mint_at(bytes@, mo as int + i as int * MINT_REC_SIZE));
        }
        mints.push(d);
        i = i + 1;
    }
    let mut burns: Vec<BurnDescription> = Vec::new();
    let mut i: usize = 0;
    while i < nb_us
        invariant
            i <= nb_us,
            bo == HEADER_SIZE + ns_us * SPEND_REC_SIZE + no_us * OUTPUT_REC_SIZE + nm_us
                * MINT_REC_SIZE,
            bo + nb_us * BURN_REC_SIZE <= bytes@.len(),
            burns@.len() == i,
            forall|j: int|
                0 <= j < i ==> #[trigger] burns@[j]@ == parse_burn_at(
                    bytes@,
                    bo + j * BURN_REC_SIZE,
                ) && burn_wf(burns@[j]@),
        decreases nb_us - i,
    {
        let off = bo + i * BURN_REC_SIZE;
        let d = BurnDescription {
            asset_id: copy_range(bytes, off, 32),
            value: read_u64_le(bytes, off + 32),
        };
        proof {
            assert(d@ =~= parse_burn_at(bytes@, bo as int + i as int * BURN_REC_SIZE));
        }
        burns.push(d);
        i = i + 1;
    }
    let t = TxBody { version, spends, outputs, mints, burns, fee, expiration, randomness };
    proof {
        let so_i = HEADER_SIZE as int;
        let oo_i = so_i + ns as int * SPEND_REC_SIZE;
        let mo_i = oo_i + no as int * OUTPUT_REC_SIZE;
        let bo_i = mo_i + nm as int * MINT_REC_SIZE;
        assert(mo_i == mo as int && bo_i == bo as int && oo_i == oo as int);
        assert forall|j: int|
            0 <= j < nm as int implies #[trigger] mint_rec_valid(
            bytes@,
            mo_i + j * MINT_REC_SIZE,
        ) by {
            assert(mints@[j]@ == parse_mint_at(bytes@, mo as int + j * MINT_REC_SIZE));
        }
        assert(spec_parse_body(bytes@).is_some());
        let parsed = spec_parse_body(bytes@).unwrap();
        assert(t@.spends =~= parsed.spends);
        assert(t@.outputs =~= parsed.outputs);
        assert(t@.mints =~= parsed.mints);
        assert(t@.burns =~= parsed.burns);
        assert(t@.randomness =~= parsed.randomness);
        assert(t@ =~= parsed);
        assert(body_wf(t@));
    }
    Ok(t)
}

} // verus!
