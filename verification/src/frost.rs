use vstd::prelude::*;

use vstd::assert_seqs_equal;
use vstd::relations::{total_ordering, sorted_by};
use vstd::seq_lib::lemma_sorted_unique;
use vstd::seq_lib::lemma_multiset_commutative;

use crate::body::{FIELD_SIZE, body_wf, serialize_body};
use crate::bytes::{u64_le_bytes, u64_from_le, push_u64_le, push_bytes, copy_range,
    read_u64_le};
use crate::digest::{digest32, digest32_of};
use crate::errors::TxError;
use crate::hexstr::{decode_hex, decode_hex_any, encode_hex, valid_hex, valid_hex_any, hex_decoded,
    hex_encoded};
use crate::posted::{PostedTransaction, posted_wf, sighash_of};
use crate::unsigned::UnsignedTransaction;

verus! {

// The three-round threshold protocol: participants hand in nonce
// commitments; the coordinator binds them, in canonical order, to the
// transaction's signature hash as a signing package; participants
// return signature shares over that package; the coordinator checks
// the shares and aggregates the binding signature.

/// One participant's nonce commitments, identifier and both nonce
/// values hex-encoded.
pub struct CommitmentEntry {
    pub identifier: String,
    pub hiding: String,
    pub binding: String,
}

/// One participant's signature share, hex-encoded.
pub struct ShareEntry {
    pub identifier: String,
    pub share: String,
}

/// Byte-wise lexicographic order, the canonical order of the signing
/// package.
pub open spec fn lex_leq(a: Seq<u8>, b: Seq<u8>) -> bool
    decreases a.len(),
{
    if a.len() == 0 {
        true
    } else if b.len() == 0 {
        false
    } else if a[0] < b[0] {
        true
    } else if a[0] > b[0] {
        false
    } else {
        lex_leq(a.drop_first(), b.drop_first())
    }
}

pub open spec fn lex_leq_f() -> spec_fn(Seq<u8>, Seq<u8>) -> bool {
    |a: Seq<u8>, b: Seq<u8>| lex_leq(a, b)
}

proof fn lemma_lex_refl(a: Seq<u8>)
    ensures
        lex_leq(a, a),
    decreases a.len(),
{
    if a.len() > 0 {
        lemma_lex_refl(a.drop_first());
    }
}

proof fn lemma_lex_conn(a: Seq<u8>, b: Seq<u8>)
    ensures
        lex_leq(a, b) || lex_leq(b, a),
    decreases a.len(),
{
    if a.len() > 0 && b.len() > 0 && a[0] == b[0] {
        lemma_lex_conn(a.drop_first(), b.drop_first());
    }
}

proof fn lemma_lex_antisym(a: Seq<u8>, b: Seq<u8>)
    requires
        lex_leq(a, b),
        lex_leq(b, a),
    ensures
        a == b,
    decreases a.len(),
{
    if a.len() == 0 {
        assert(b.len() == 0);
        assert(a =~= b);
    } else {
        assert(b.len() > 0);
        assert(a[0] == b[0]);
        lemma_lex_antisym(a.drop_first(), b.drop_first());
        assert(a.drop_first() == b.drop_first());
        assert(a.drop_first().len() == b.drop_first().len());
        assert(a.len() == b.len());
        assert_seqs_equal!(a == b, i => {
            if i > 0 {
                assert(a[i] == a.drop_first()[i - 1]);
                assert(b[i] == b.drop_first()[i - 1]);
            }
        });
    }
}

proof fn lemma_lex_trans(a: Seq<u8>, b: Seq<u8>, c: Seq<u8>)
    requires
        lex_leq(a, b),
        lex_leq(b, c),
    ensures
        lex_leq(a, c),
    decreases a.len(),
{
    if a.len() > 0 {
        assert(b.len() > 0);
        if b.len() > 0 && c.len() > 0 && a[0] == b[0] && b[0] == c[0] {
            lemma_lex_trans(a.drop_first(), b.drop_first(), c.drop_first());
        }
    }
}

/// Lexicographic order is a total order on byte strings.
pub proof fn lemma_lex_total_ordering()
    ensures
        total_ordering(lex_leq_f()),
{
    let f = lex_leq_f();
    assert forall|a: Seq<u8>| #[trigger] f(a, a) by {
        lemma_lex_refl(a);
    }
    assert forall|a: Seq<u8>, b: Seq<u8>| #[trigger] f(a, b) && #[trigger] f(b, a) implies a
        == b by {
        lemma_lex_antisym(a, b);
    }
    assert forall|a: Seq<u8>, b: Seq<u8>, c: Seq<u8>| #[trigger] f(a, b) && #[trigger] f(b, c)
        implies f(a, c) by {
        lemma_lex_trans(a, b, c);
    }
    assert forall|a: Seq<u8>, b: Seq<u8>| #[trigger] f(a, b) || #[trigger] f(b, a) by {
        lemma_lex_conn(a, b);
    }
}

fn lex_le(a: &Vec<u8>, b: &Vec<u8>) -> (r: bool)
    ensures
        r == lex_leq(a@, b@),
{
    let an = a.len();
    let bn = b.len();
    let mut i: usize = 0;
    proof {
        assert(a@.skip(0) =~= a@);
        assert(b@.skip(0) =~= b@);
    }
    while i < an && i < bn
        invariant
            i <= an,
            i <= bn,
            an == a@.len(),
            bn == b@.len(),
            lex_leq(a@, b@) == lex_leq(a@.skip(i as int), b@.skip(i as int)),
        decreases an - i,
    {
        let ghost sa = a@.skip(i as int);
        let ghost sb = b@.skip(i as int);
        proof {
            assert(sa[0] == a@[i as int] && sb[0] == b@[i as int]);
            assert(sa.drop_first() =~= a@.skip(i as int + 1));
            assert(sb.drop_first() =~= b@.skip(i as int + 1));
        }
        if a[i] < b[i] {
            return true;
        }
        if a[i] > b[i] {
            return false;
        }
        i = i + 1;
    }
    proof {
        assert(a@.skip(i as int).len() == an - i);
        assert(b@.skip(i as int).len() == bn - i);
    }
    if i == an {
        proof {
            assert(lex_leq(a@.skip(i as int), b@.skip(i as int)));
        }
        true
    } else {
        proof {
            assert(a@.skip(i as int).len() > 0 && b@.skip(i as int).len() == 0);
        }
        false
    }
}

pub open spec fn deep(v: Seq<Vec<u8>>) -> Seq<Seq<u8>> {
    Seq::new(v.len(), |i: int| v[i]@)
}

/// Sorts byte strings into the canonical lexicographic order.
#[verifier::loop_isolation(false)]
fn sort_chunks(v: Vec<Vec<u8>>) -> (r: Vec<Vec<u8>>)
    ensures
        deep(r@) == deep(v@).sort_by(lex_leq_f()),
{
    proof {
        lemma_lex_total_ordering();
        broadcast use vstd::seq_lib::group_to_multiset_ensures;

    }
    let n = v.len();
    let mut out: Vec<Vec<u8>> = Vec::new();
    let mut i: usize = 0;
    while i < n
        invariant
            i <= n,
            sorted_by(deep(out@), lex_leq_f()),
            deep(out@).to_multiset() == deep(v@.take(i as int)).to_multiset(),
        decreases n - i,
    {
        let x = clone_chunk(&v[i]);
        let mut j: usize = 0;
        while j < out.len() && lex_le(&out[j], &x)
            invariant
                j <= out@.len(),
                forall|k: int| 0 <= k < j ==> lex_leq((#[trigger] deep(out@)[k]), x@),
            decreases out@.len() - j,
        {
            j = j + 1;
        }
        let ghost pre = deep(out@);
        proof {
            if j < out@.len() {
                lemma_lex_conn(pre[j as int], x@);
                assert(lex_leq(x@, pre[j as int]));
            }
        }
        out.insert(j, x);
        proof {
            assert(deep(out@) =~= pre.insert(j as int, x@));
            let post = deep(out@);
            assert forall|i1: int, i2: int| 0 <= i1 < i2 < post.len() implies #[trigger]
                lex_leq_f()(post[i1], post[i2]) by {
                if i1 < j && i2 == j {
                } else if i1 == j && i2 > j {
                    lemma_lex_conn(pre[j as int], x@);
                    assert(lex_leq(x@, pre[j as int]));
                    if i2 - 1 == j {
                        lemma_lex_refl(pre[j as int]);
                    } else {
                        assert(lex_leq_f()(pre[j as int], pre[i2 - 1]));
                    }
                    lemma_lex_trans(x@, pre[j as int], pre[i2 - 1]);
                } else if i1 < j && i2 > j {
                    assert(lex_leq(pre[i1], x@));
                    if i2 - 1 == j {
                        lemma_lex_conn(pre[j as int], x@);
                        assert(lex_leq(x@, pre[j as int]));
                        lemma_lex_trans(pre[i1], x@, pre[i2 - 1]);
                    } else {
                        assert(lex_leq_f()(pre[i1], pre[i2 - 1]));
                    }
                } else {
                }
            }
            assert(pre.insert(j as int, x@) =~= pre.take(j as int) + seq![x@] + pre.skip(
                j as int,
            ));
            lemma_multiset_commutative(pre.take(j as int) + seq![x@], pre.skip(j as int));
            lemma_multiset_commutative(pre.take(j as int), seq![x@]);
            lemma_multiset_commutative(pre.take(j as int), pre.skip(j as int));
            assert(pre.take(j as int) + pre.skip(j as int) =~= pre);
            assert(post.to_multiset() =~= pre.to_multiset().insert(x@));
            assert(deep(v@.take(i as int + 1)) =~= deep(v@.take(i as int)).push(v@[i as int]@));
            assert(deep(v@.take(i as int + 1)).to_multiset() =~= deep(v@.take(
                i as int,
            )).to_multiset().insert(x@));
        }
        i = i + 1;
    }
    proof {
        assert(v@.take(n as int) =~= v@);
        deep(v@).lemma_sort_by_ensures(lex_leq_f());
        lemma_sorted_unique(deep(out@), deep(v@).sort_by(lex_leq_f()), lex_leq_f());
    }
    out
}

fn clone_chunk(v: &Vec<u8>) -> (r: Vec<u8>)
    ensures
        r@ == v@,
{
    let r = copy_range(v, 0, v.len());
    proof {
        assert(v@.subrange(0, v@.len() as int) =~= v@);
    }
    r
}

pub open spec fn chunks_bytes(entries: Seq<Seq<u8>>) -> Seq<u8>
    decreases entries.len(),
{
    if entries.len() == 0 {
        Seq::empty()
    } else {
        entries[0] + chunks_bytes(entries.drop_first())
    }
}

proof fn lemma_chunks_bytes_snoc(entries: Seq<Seq<u8>>, x: Seq<u8>)
    ensures
        chunks_bytes(entries.push(x)) == chunks_bytes(entries) + x,
    decreases entries.len(),
{
    let p = entries.push(x);
    if entries.len() == 0 {
        assert(p[0] == x);
        assert(p.drop_first() =~= Seq::<Seq<u8>>::empty());
        assert(chunks_bytes(p.drop_first()) == Seq::<u8>::empty());
        assert(chunks_bytes(p) == x + Seq::<u8>::empty());
        assert(chunks_bytes(entries) == Seq::<u8>::empty());
        assert(x + Seq::<u8>::empty() =~= Seq::<u8>::empty() + x);
        assert(chunks_bytes(p) =~= chunks_bytes(entries) + x);
    } else {
        assert(p[0] == entries[0]);
        assert(p.drop_first() =~= entries.drop_first().push(x));
        lemma_chunks_bytes_snoc(entries.drop_first(), x);
        assert(entries[0] + (chunks_bytes(entries.drop_first()) + x) =~= (entries[0]
            + chunks_bytes(entries.drop_first())) + x);
        assert(chunks_bytes(p) =~= chunks_bytes(entries) + x);
    }
}

/// The signing package: the signature hash, the participant count, and
/// the commitment records in canonical order.
pub open spec fn package_bytes(h: Seq<u8>, entries: Seq<Seq<u8>>) -> Seq<u8> {
    h + u64_le_bytes(entries.len() as u64) + chunks_bytes(entries)
}

/// One commitment entry's decoded record: identifier, hiding nonce,
/// binding nonce.
pub open spec fn commitment_chunk(e: CommitmentEntry) -> Seq<u8> {
    hex_decoded(e.identifier@) + hex_decoded(e.hiding@) + hex_decoded(e.binding@)
}

pub open spec fn commitment_ok(e: CommitmentEntry) -> bool {
    valid_hex(e.identifier@, FIELD_SIZE as nat) && valid_hex(e.hiding@, FIELD_SIZE as nat)
        && valid_hex(e.binding@, FIELD_SIZE as nat)
}

pub open spec fn commitment_chunks(cs: Seq<CommitmentEntry>) -> Seq<Seq<u8>> {
    Seq::new(cs.len(), |i: int| commitment_chunk(cs[i]))
}

pub open spec fn all_commitments_ok(cs: Seq<CommitmentEntry>) -> bool {
    forall|i: int| 0 <= i < cs.len() ==> commitment_ok(#[trigger] cs[i])
}

/// A participant's signature share over a signing package, under a
/// public key package.
pub open spec fn share_of(pkp: Seq<u8>, id: Seq<u8>, pkg: Seq<u8>) -> Seq<u8> {
    digest32_of(seq![6u8] + pkp + id + pkg)
}

/// The aggregated binding signature of the threshold path.
pub open spec fn frost_sig_of(pkp: Seq<u8>, h: Seq<u8>) -> Seq<u8> {
    digest32_of(seq![7u8] + pkp + h) + digest32_of(seq![8u8] + pkp + h)
}

/// A structurally valid signing package: hash, count, and exactly that
/// many 96-byte commitment records.
pub open spec fn package_struct_ok(p: Seq<u8>) -> bool {
    p.len() >= 40 && p.len() == 40 + u64_from_le(p.subrange(32, 40)) * 96
}

fn compute_share(pkp: &Vec<u8>, id: &Vec<u8>, pkg: &Vec<u8>) -> (r: Vec<u8>)
    ensures
        r@ == share_of(pkp@, id@, pkg@),
        r@.len() == 32,
{
    let mut msg: Vec<u8> = Vec::new();
    msg.push(6u8);
    push_bytes(&mut msg, pkp);
    push_bytes(&mut msg, id);
    push_bytes(&mut msg, pkg);
    proof {
        assert(msg@ =~= seq![6u8] + pkp@ + id@ + pkg@);
    }
    digest32(&msg)
}

fn compute_frost_sig(pkp: &Vec<u8>, h: &Vec<u8>) -> (r: Vec<u8>)
    ensures
        r@ == frost_sig_of(pkp@, h@),
        r@.len() == 64,
{
    let mut m1: Vec<u8> = Vec::new();
    m1.push(7u8);
    push_bytes(&mut m1, pkp);
    push_bytes(&mut m1, h);
    proof {
        assert(m1@ =~= seq![7u8] + pkp@ + h@);
    }
    let mut m2: Vec<u8> = Vec::new();
    m2.push(8u8);
    push_bytes(&mut m2, pkp);
    push_bytes(&mut m2, h);
    proof {
        assert(m2@ =~= seq![8u8] + pkp@ + h@);
    }
    let mut sig = digest32(&m1);
    let p2 = digest32(&m2);
    push_bytes(&mut sig, &p2);
    sig
}

/// A participant's round-two signer, modelled deterministically: the
/// share it hands back for an identifier, a public key package and a
/// signing package, all hex.  Fails with `KeyError` on malformed key
/// package hex and `ParseError` on malformed identifier or package
/// hex.
pub fn create_signature_share(
    public_key_package_str: &str,
    identifier_str: &str,
    signing_package_str: &str,
) -> (r: Result<String, TxError>)
    ensures
        ({
            let pkpok = valid_hex(public_key_package_str@, FIELD_SIZE as nat);
            let idok = valid_hex(identifier_str@, FIELD_SIZE as nat);
            let pkgok = valid_hex_any(signing_package_str@);
            match r {
                Ok(s) => pkpok && idok && pkgok && s@ == hex_encoded(
                    share_of(
                        hex_decoded(public_key_package_str@),
                        hex_decoded(identifier_str@),
                        hex_decoded(signing_package_str@),
                    ),
                ),
                Err(e) => {
                    &&& !(pkpok && idok && pkgok)
                    &&& (!pkpok ==> e == TxError::KeyError)
                    &&& (pkpok ==> e == TxError::ParseError)
                },
            }
        }),
{
    let pkp = match decode_hex(public_key_package_str, FIELD_SIZE) {
        Some(k) => k,
        None => {
            return Err(TxError::KeyError);
        },
    };
    let id = match decode_hex(identifier_str, FIELD_SIZE) {
        Some(k) => k,
        None => {
            return Err(TxError::ParseError);
        },
    };
    let pkg = match decode_hex_any(signing_package_str) {
        Some(k) => k,
        None => {
            return Err(TxError::ParseError);
        },
    };
    let share = compute_share(&pkp, &id, &pkg);
    Ok(encode_hex(&share))
}

/// Whether a posted transaction's binding signature is the aggregate
/// the given public key package yields over its own signature hash.
pub fn frost_signature_matches(tx: &PostedTransaction, public_key_package_str: &str) -> (r: Result<
    bool,
    TxError,
>)
    ensures
        match r {
            Ok(b) => valid_hex(public_key_package_str@, FIELD_SIZE as nat) && b == (tx@.signature
                == frost_sig_of(
                hex_decoded(public_key_package_str@),
                sighash_of(tx@.body),
            )),
            Err(e) => !valid_hex(public_key_package_str@, FIELD_SIZE as nat) && e
                == TxError::KeyError,
        },
{
    let pkp = match decode_hex(public_key_package_str, FIELD_SIZE) {
        Some(k) => k,
        None => {
            return Err(TxError::KeyError);
        },
    };
    let h = tx.hash();
    let expected = compute_frost_sig(&pkp, &h);
    Ok(crate::balance::bytes_eq(&tx.signature, &expected))
}

impl UnsignedTransaction {
    /// Builds the signing package for this transaction from the
    /// participants' nonce commitments: the signature hash bound to the
    /// decoded commitment records in canonical (lexicographic) order,
    /// hex-encoded.  Deterministic: the package depends only on which
    /// commitments arrive, never on their order.  Fails with
    /// `ParseError` exactly when some entry holds malformed hex.  No
    /// minimum participant count is enforced here: a short set
    /// surfaces later, at aggregation.
    pub fn signing_package(&self, commitments: &Vec<CommitmentEntry>) -> (r: Result<
        String,
        TxError,
    >)
        ensures
            match r {
                Ok(s) => all_commitments_ok(commitments@) && s@ == hex_encoded(
                    package_bytes(
                        sighash_of(self.body@),
                        commitment_chunks(commitments@).sort_by(lex_leq_f()),
                    ),
                ),
                Err(e) => e == TxError::ParseError && !all_commitments_ok(commitments@),
            },
    {
        let mut chunks: Vec<Vec<u8>> = Vec::new();
        let mut i: usize = 0;
        while i < commitments.len()
            invariant
                i <= commitments@.len(),
                chunks@.len() == i,
                forall|k: int| 0 <= k < i ==> commitment_ok(#[trigger] commitments@[k]),
                forall|k: int|
                    0 <= k < i ==> (#[trigger] chunks@[k])@ == commitment_chunk(commitments@[k]),
            decreases commitments@.len() - i,
        {
            let e = &commitments[i];
            let id = match decode_hex(e.identifier.as_str(), FIELD_SIZE) {
                Some(v) => v,
                None => {
                    return Err(TxError::ParseError);
                },
            };
            let hiding = match decode_hex(e.hiding.as_str(), FIELD_SIZE) {
                Some(v) => v,
                None => {
                    return Err(TxError::ParseError);
                },
            };
            let binding = match decode_hex(e.binding.as_str(), FIELD_SIZE) {
                Some(v) => v,
                None => {
                    return Err(TxError::ParseError);
                },
            };
            let mut chunk = id;
            push_bytes(&mut chunk, &hiding);
            push_bytes(&mut chunk, &binding);
            proof {
                assert(chunk@ =~= commitment_chunk(commitments@[i as int]));
            }
            chunks.push(chunk);
            i = i + 1;
        }
        let ghost cs = commitments@;
        proof {
            assert(deep(chunks@) =~= commitment_chunks(cs));
        }
        let sorted = sort_chunks(chunks);
        let image = serialize_body(&self.body);
        let h = digest32(&image);
        let mut pkg = h;
        let count: u64 = sorted.len() as u64;
        push_u64_le(&mut pkg, count);
        let ghost sorted_deep = deep(sorted@);
        let mut k: usize = 0;
        while k < sorted.len()
            invariant
                k <= sorted@.len(),
                sorted_deep == deep(sorted@),
                pkg@ == sighash_of(self.body@) + u64_le_bytes(sorted@.len() as u64)
                    + chunks_bytes(sorted_deep.take(k as int)),
            decreases sorted@.len() - k,
        {
            push_bytes(&mut pkg, &sorted[k]);
            proof {
                assert(sorted_deep.take(k as int + 1) =~= sorted_deep.take(k as int).push(
                    sorted_deep[k as int],
                ));
                lemma_chunks_bytes_snoc(sorted_deep.take(k as int), sorted_deep[k as int]);
            }
            k = k + 1;
        }
        proof {
            assert(sorted_deep.take(sorted@.len() as int) =~= sorted_deep);
            assert(pkg@ =~= package_bytes(
                sighash_of(self.body@),
                commitment_chunks(cs).sort_by(lex_leq_f()),
            ));
        }
        Ok(encode_hex(&pkg))
    }

    /// Aggregates the participants' signature shares over a signing
    /// package under a public key package, yielding the posted
    /// transaction.  Every share must be exactly the one its identifier
    /// owes over this package, and the package must carry this
    /// transaction's signature hash: a mismatch in either is a
    /// `SignatureError`; malformed key package hex is a `KeyError` and
    /// other malformed hex or structure a `ParseError`.  No share
    /// count is checked: consistency, not quorum, is decided here.
    #[verifier::loop_isolation(false)]
    pub fn sign_frost(
        self,
        public_key_package_str: &str,
        signing_package_str: &str,
        signature_shares: &Vec<ShareEntry>,
    ) -> (r: Result<PostedTransaction, TxError>)
        requires
            body_wf(self.body@),
        ensures
            ({
                let pkpok = valid_hex(public_key_package_str@, FIELD_SIZE as nat);
                let pkgok = valid_hex_any(signing_package_str@) && package_struct_ok(
                    hex_decoded(signing_package_str@),
                );
                let pkp = hex_decoded(public_key_package_str@);
                let pkg = hex_decoded(signing_package_str@);
                let hashok = pkg.subrange(0, 32) == sighash_of(self.body@);
                let entries_ok = forall|i: int|
                    0 <= i < signature_shares@.len() ==> valid_hex(
                        (#[trigger] signature_shares@[i]).identifier@,
                        FIELD_SIZE as nat,
                    ) && valid_hex(signature_shares@[i].share@, FIELD_SIZE as nat);
                let shares_match = forall|i: int|
                    0 <= i < signature_shares@.len() ==> hex_decoded(
                        (#[trigger] signature_shares@[i]).share@,
                    ) == share_of(pkp, hex_decoded(signature_shares@[i].identifier@), pkg);
                match r {
                    Ok(p) => {
                        &&& pkpok
                        &&& pkgok
                        &&& hashok
                        &&& entries_ok
                        &&& shares_match
                        &&& posted_wf(p@)
                        &&& p@.body == self.body@
                        &&& p@.signature == frost_sig_of(pkp, sighash_of(self.body@))
                    },
                    Err(e) => {
                        &&& !(pkpok && pkgok && hashok && entries_ok && shares_match)
                        &&& (!pkpok ==> e == TxError::KeyError)
                        &&& (pkpok && !pkgok ==> e == TxError::ParseError)
                        &&& (pkpok && pkgok && !hashok ==> e == TxError::SignatureError)
                        &&& (pkpok && pkgok && hashok ==> e == TxError::ParseError || e
                            == TxError::SignatureError)
                    },
                }
            }),
    {
        let pkp = match decode_hex(public_key_package_str, FIELD_SIZE) {
            Some(k) => k,
            None => {
                return Err(TxError::KeyError);
            },
        };
        let pkg = match decode_hex_any(signing_package_str) {
            Some(k) => k,
            None => {
                return Err(TxError::ParseError);
            },
        };
        if pkg.len() < 40 {
            return Err(TxError::ParseError);
        }
        let count = read_u64_le(&pkg, 32);
        let expected_len: u128 = 40 + count as u128 * 96;
        if pkg.len() as u128 != expected_len {
            return Err(TxError::ParseError);
        }
        let image = serialize_body(&self.body);
        let h = digest32(&image);
        let pkg_hash = copy_range(&pkg, 0, 32);
        if !crate::balance::bytes_eq(&pkg_hash, &h) {
            return Err(TxError::SignatureError);
        }
        let mut i: usize = 0;
        while i < signature_shares.len()
            invariant
                i <= signature_shares@.len(),
                pkp@ == hex_decoded(public_key_package_str@),
                pkg@ == hex_decoded(signing_package_str@),
                forall|k: int|
                    0 <= k < i ==> valid_hex(
                        (#[trigger] signature_shares@[k]).identifier@,
                        FIELD_SIZE as nat,
                    ) && valid_hex(signature_shares@[k].share@, FIELD_SIZE as nat),
                forall|k: int|
                    0 <= k < i ==> hex_decoded((#[trigger] signature_shares@[k]).share@)
                        == share_of(pkp@, hex_decoded(signature_shares@[k].identifier@), pkg@),
            decreases signature_shares@.len() - i,
        {
            let entry = &signature_shares[i];
            let id = match decode_hex(entry.identifier.as_str(), FIELD_SIZE) {
                Some(v) => v,
                None => {
                    return Err(TxError::ParseError);
                },
            };
            let share = match decode_hex(entry.share.as_str(), FIELD_SIZE) {
                Some(v) => v,
                None => {
                    return Err(TxError::ParseError);
                },
            };
            let expected = compute_share(&pkp, &id, &pkg);
            if !crate::balance::bytes_eq(&share, &expected) {
                return Err(TxError::SignatureError);
            }
            i = i + 1;
        }
        let signature = compute_frost_sig(&pkp, &h);
        Ok(PostedTransaction { body: self.body, signature })
    }
}

/// The signing package is insensitive to the order in which the
/// commitments arrive: two commitment sets holding the same records,
/// in any order, yield byte-identical packages for the same signature
/// hash.
pub proof fn lemma_signing_package_order_insensitive(
    h: Seq<u8>,
    c1: Seq<CommitmentEntry>,
    c2: Seq<CommitmentEntry>,
)
    requires
        commitment_chunks(c1).to_multiset() == commitment_chunks(c2).to_multiset(),
    ensures
        package_bytes(h, commitment_chunks(c1).sort_by(lex_leq_f())) == package_bytes(
            h,
            commitment_chunks(c2).sort_by(lex_leq_f()),
        ),
{
    lemma_lex_total_ordering();
    commitment_chunks(c1).lemma_sort_by_ensures(lex_leq_f());
    commitment_chunks(c2).lemma_sort_by_ensures(lex_leq_f());
    lemma_sorted_unique(
        commitment_chunks(c1).sort_by(lex_leq_f()),
        commitment_chunks(c2).sort_by(lex_leq_f()),
        lex_leq_f(),
    );
}

} // verus!
