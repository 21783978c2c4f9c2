use vstd::prelude::*;

use crate::body::FIELD_SIZE;
use crate::errors::TxError;

verus! {

/// One asset's running delta in an in-progress transaction.
#[derive(Debug)]
pub struct BalanceEntry {
    pub asset_id: Vec<u8>,
    pub value: i64,
}

/// The per-asset value balance: spends and mints add, outputs, burns,
/// fee and change subtract.  Assets appear at most once.
#[derive(Debug)]
pub struct ValueBalance {
    pub entries: Vec<BalanceEntry>,
}

/// The balance an asset holds in a list of entries: the value of its
/// entry, or zero where it has none.
pub open spec fn balance_of(entries: Seq<BalanceEntry>, asset: Seq<u8>) -> int
    decreases entries.len(),
{
    if entries.len() == 0 {
        0
    } else if entries[0].asset_id@ == asset {
        entries[0].value as int
    } else {
        balance_of(entries.drop_first(), asset)
    }
}

pub open spec fn vb_wf(v: ValueBalance) -> bool {
    &&& (forall|i: int|
        0 <= i < v.entries@.len() ==> (#[trigger] v.entries@[i]).asset_id@.len() == FIELD_SIZE)
    &&& (forall|i: int, j: int|
        0 <= i < j < v.entries@.len() ==> (#[trigger] v.entries@[i]).asset_id@ != (
        #[trigger] v.entries@[j]).asset_id@)
}

/// Changing one entry's value changes that asset's balance and no
/// other's.
proof fn lemma_balance_update(
    pre: Seq<BalanceEntry>,
    post: Seq<BalanceEntry>,
    k: int,
    asset: Seq<u8>,
)
    requires
        0 <= k < pre.len(),
        post.len() == pre.len(),
        forall|i: int| 0 <= i < pre.len() && i != k ==> post[i] == #[trigger] pre[i],
        post[k].asset_id@ == pre[k].asset_id@,
        forall|i: int, j: int|
            0 <= i < j < pre.len() ==> (#[trigger] pre[i]).asset_id@ != (
            #[trigger] pre[j]).asset_id@,
    ensures
        pre[k].asset_id@ == asset ==> balance_of(post, asset) == post[k].value as int,
        pre[k].asset_id@ != asset ==> balance_of(post, asset) == balance_of(pre, asset),
    decreases pre.len(),
{
    if pre.len() > 0 {
        if k == 0 {
            assert(post.drop_first() =~= pre.drop_first());
        } else {
            assert(post[0] == pre[0]);
            lemma_balance_update(pre.drop_first(), post.drop_first(), k - 1, asset);
        }
    }
}

/// The balance of an asset with an entry is that entry's value.
proof fn lemma_balance_found(entries: Seq<BalanceEntry>, k: int)
    requires
        0 <= k < entries.len(),
        forall|i: int, j: int|
            0 <= i < j < entries.len() ==> (#[trigger] entries[i]).asset_id@ != (
            #[trigger] entries[j]).asset_id@,
    ensures
        balance_of(entries, entries[k].asset_id@) == entries[k].value as int,
    decreases entries.len(),
{
    if k > 0 {
        assert(entries[0].asset_id@ != entries[k].asset_id@);
        lemma_balance_found(entries.drop_first(), k - 1);
    }
}

/// An asset with no entry has balance zero.
proof fn lemma_balance_absent(entries: Seq<BalanceEntry>, asset: Seq<u8>)
    requires
        forall|i: int| 0 <= i < entries.len() ==> (#[trigger] entries[i]).asset_id@ != asset,
    ensures
        balance_of(entries, asset) == 0,
    decreases entries.len(),
{
    if entries.len() > 0 {
        lemma_balance_absent(entries.drop_first(), asset);
    }
}

/// Appending an entry leaves every other asset's balance unchanged.
proof fn lemma_balance_push(entries: Seq<BalanceEntry>, e: BalanceEntry, asset: Seq<u8>)
    requires
        asset != e.asset_id@,
    ensures
        balance_of(entries.push(e), asset) == balance_of(entries, asset),
    decreases entries.len(),
{
    let p = entries.push(e);
    if entries.len() == 0 {
        assert(p.len() == 1);
        assert(p[0] == e);
        assert(p[0].asset_id@ != asset);
        assert(p.drop_first() =~= Seq::<BalanceEntry>::empty());
        assert(balance_of(p.drop_first(), asset) == 0);
        assert(balance_of(p, asset) == 0);
    } else {
        assert(p[0] == entries[0]);
        assert(p.drop_first() =~= entries.drop_first().push(e));
        lemma_balance_push(entries.drop_first(), e, asset);
        assert(balance_of(p.drop_first(), asset) == balance_of(entries.drop_first(), asset));
        if entries[0].asset_id@ == asset {
            assert(balance_of(p, asset) == p[0].value as int);
            assert(balance_of(entries, asset) == entries[0].value as int);
        } else {
            assert(balance_of(p, asset) == balance_of(p.drop_first(), asset));
            assert(balance_of(entries, asset) == balance_of(entries.drop_first(), asset));
        }
    }
}

impl ValueBalance {
    pub fn new() -> (r: ValueBalance)
        ensures
            vb_wf(r),
            forall|a: Seq<u8>| balance_of(r.entries@, a) == 0,
    {
        let r = ValueBalance { entries: Vec::new() };
        proof {
            assert forall|a: Seq<u8>| balance_of(r.entries@, a) == 0 by {
                assert(r.entries@.len() == 0);
            }
        }
        r
    }

    /// Reads an asset's balance.
    pub fn get(&self, asset_id: &Vec<u8>) -> (r: i64)
        requires
            vb_wf(*self),
        ensures
            r as int == balance_of(self.entries@, asset_id@),
    {
        let mut i: usize = 0;
        while i < self.entries.len()
            invariant
                i <= self.entries@.len(),
                vb_wf(*self),
                forall|k: int| 0 <= k < i ==> (#[trigger] self.entries@[k]).asset_id@ != asset_id@,
            decreases self.entries@.len() - i,
        {
            if bytes_eq(&self.entries[i].asset_id, asset_id) {
                proof {
                    lemma_balance_found(self.entries@, i as int);
                }
                return self.entries[i].value;
            }
            i = i + 1;
        }
        proof {
            lemma_balance_absent(self.entries@, asset_id@);
        }
        0
    }

    /// Adds `delta` to an asset's balance; fails with `RangeError`, and
    /// changes nothing, exactly when the new balance would leave the
    /// signed 64-bit range.  No other asset's balance moves.
    pub fn add_value(&mut self, asset_id: &Vec<u8>, delta: i64) -> (r: Result<(), TxError>)
        requires
            vb_wf(*old(self)),
            asset_id@.len() == FIELD_SIZE,
        ensures
            vb_wf(*(final(self))),
            match r {
                Ok(()) => {
                    &&& i64::MIN <= balance_of(old(self).entries@, asset_id@) + delta <= i64::MAX
                    &&& balance_of((*final(self)).entries@, asset_id@) == balance_of(
                        old(self).entries@,
                        asset_id@,
                    ) + delta
                    &&& forall|a: Seq<u8>|
                        a != asset_id@ ==> balance_of((*final(self)).entries@, a) == balance_of(
                            old(self).entries@,
                            a,
                        )
                },
                Err(e) => {
                    &&& e == TxError::RangeError
                    &&& !(i64::MIN <= balance_of(old(self).entries@, asset_id@) + delta
                        <= i64::MAX)
                    &&& *final(self) == *old(self)
                },
            },
    {
        let mut i: usize = 0;
        while i < self.entries.len()
            invariant
                i <= self.entries@.len(),
                vb_wf(*self),
                *self == *old(self),
                asset_id@.len() == FIELD_SIZE,
                forall|k: int| 0 <= k < i ==> (#[trigger] self.entries@[k]).asset_id@ != asset_id@,
            decreases self.entries@.len() - i,
        {
            if bytes_eq(&self.entries[i].asset_id, asset_id) {
                proof {
                    lemma_balance_found(self.entries@, i as int);
                }
                let cur = self.entries[i].value;
                match cur.checked_add(delta) {
                    Some(nv) => {
                        let ghost pre = self.entries@;
                        let e = &mut self.entries[i];
                        e.value = nv;
                        proof {
                            assert(self.entries@ =~= pre.update(i as int, BalanceEntry {
                                asset_id: pre[i as int].asset_id,
                                value: nv,
                            }));
                            assert forall|a: Seq<u8>|
                                a != asset_id@ implies balance_of(self.entries@, a) == balance_of(
                                pre,
                                a,
                            ) by {
                                lemma_balance_update(pre, self.entries@, i as int, a);
                            }
                            lemma_balance_update(pre, self.entries@, i as int, asset_id@);
                        }
                        return Ok(());
                    },
                    None => {
                        return Err(TxError::RangeError);
                    },
                }
            }
            i = i + 1;
        }
        proof {
            lemma_balance_absent(self.entries@, asset_id@);
        }
        if delta == 0 {
            return Ok(());
        }
        let mut id_copy: Vec<u8> = Vec::new();
        crate::bytes::push_bytes(&mut id_copy, asset_id);
        let ghost pre = self.entries@;
        self.entries.push(BalanceEntry { asset_id: id_copy, value: delta });
        proof {
            assert(self.entries@ == pre.push(
                BalanceEntry { asset_id: id_copy, value: delta },
            ));
            lemma_balance_found(self.entries@, pre.len() as int);
            assert forall|a: Seq<u8>|
                a != asset_id@ implies balance_of(self.entries@, a) == balance_of(pre, a) by {
                lemma_balance_push(pre, self.entries@[pre.len() as int], a);
            }
        }
        Ok(())
    }
}

/// Byte-for-byte equality of two byte vectors.
pub fn bytes_eq(a: &Vec<u8>, b: &Vec<u8>) -> (r: bool)
    ensures
        r <==> a@ == b@,
{
    if a.len() != b.len() {
        proof {
            assert(a@ != b@);
        }
        return false;
    }
    let mut i: usize = 0;
    while i < a.len()
        invariant
            i <= a@.len(),
            a@.len() == b@.len(),
            forall|k: int| 0 <= k < i ==> a@[k] == b@[k],
        decreases a@.len() - i,
    {
        if a[i] != b[i] {
            proof {
                assert(a@[i as int] != b@[i as int]);
            }
            return false;
        }
        i = i + 1;
    }
    proof {
        assert(a@ =~= b@);
    }
    true
}

} // verus!
