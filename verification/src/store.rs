use vstd::prelude::*;

use crate::value::{
    assoc_map, assoc_unique, lemma_assoc_at, lemma_assoc_dom, lemma_assoc_push,
    lemma_assoc_remove, Value, ValueModel,
};
use crate::zset::{bytes_clone, bytes_eq, zsorted};

verus! {

broadcast use vstd::seq::group_seq_axioms;

// ---------------------------------------------------------------------------
// The keyspace: a map from keys to typed values, and a map from keys to
// absolute expiry instants in milliseconds. Time is always handed in by the
// caller.
// ---------------------------------------------------------------------------

pub struct KvPair {
    pub key: Vec<u8>,
    pub value: Value,
}

pub struct TtlPair {
    pub key: Vec<u8>,
    pub deadline: u64,
}

pub struct Store {
    pub entries: Vec<KvPair>,
    pub ttls: Vec<TtlPair>,
}

/// Structural soundness of a stored value.
pub open spec fn wf_value(v: ValueModel) -> bool {
    match v {
        ValueModel::Hash(h) => assoc_unique(h),
        ValueModel::SetVal(s) => forall|i: int, j: int|
            0 <= i < j < s.len() ==> s[i] != s[j],
        ValueModel::ZSet(z) => zsorted(z),
        _ => true,
    }
}

pub open spec fn is_expired(ttl: Map<Seq<u8>, int>, k: Seq<u8>, now: int) -> bool {
    ttl.contains_key(k) && now >= ttl[k]
}

pub open spec fn purged_kv(
    kv: Map<Seq<u8>, ValueModel>,
    ttl: Map<Seq<u8>, int>,
    k: Seq<u8>,
    now: int,
) -> Map<Seq<u8>, ValueModel> {
    if is_expired(ttl, k, now) {
        kv.remove(k)
    } else {
        kv
    }
}

pub open spec fn purged_ttl(ttl: Map<Seq<u8>, int>, k: Seq<u8>, now: int) -> Map<Seq<u8>, int> {
    if is_expired(ttl, k, now) {
        ttl.remove(k)
    } else {
        ttl
    }
}

impl Store {
    pub open spec fn kv_seq(&self) -> Seq<(Seq<u8>, ValueModel)> {
        Seq::new(self.entries@.len(), |i: int| (self.entries@[i].key@, self.entries@[i].value@))
    }

    pub open spec fn ttl_seq(&self) -> Seq<(Seq<u8>, int)> {
        Seq::new(self.ttls@.len(), |i: int| (self.ttls@[i].key@, self.ttls@[i].deadline as int))
    }

    /// The value map.
    pub open spec fn kv(&self) -> Map<Seq<u8>, ValueModel> {
        assoc_map(self.kv_seq())
    }

    /// The expiry map, deadlines in milliseconds.
    pub open spec fn ttl(&self) -> Map<Seq<u8>, int> {
        assoc_map(self.ttl_seq())
    }

    pub open spec fn wf(&self) -> bool {
        &&& assoc_unique(self.kv_seq())
        &&& assoc_unique(self.ttl_seq())
        &&& forall|i: int|
            0 <= i < self.entries@.len() ==> wf_value((#[trigger] self.entries@[i]).value@)
    }

    pub fn new() -> (s: Store)
        ensures
            s.wf(),
            s.kv() == Map::<Seq<u8>, ValueModel>::empty(),
            s.ttl() == Map::<Seq<u8>, int>::empty(),
    {
        let s = Store { entries: Vec::new(), ttls: Vec::new() };
        proof {
            assert(s.kv_seq() =~= Seq::<(Seq<u8>, ValueModel)>::empty());
            assert(s.ttl_seq() =~= Seq::<(Seq<u8>, int)>::empty());
        }
        s
    }

    // -----------------------------------------------------------------------
    // Primitive map operations.
    // -----------------------------------------------------------------------

    pub(crate) fn find_key(&self, key: &Vec<u8>) -> (r: Option<usize>)
        requires
            self.wf(),
        ensures
            match r {
                Some(i) => i < self.entries@.len() && self.entries@[i as int].key@ == key@
                    && self.kv().contains_key(key@) && self.kv()[key@] == self.entries@[
                    i as int].value@,
                None => !self.kv().contains_key(key@),
            },
    {
        let n = self.entries.len();
        let mut i: usize = 0;
        while i < n
            invariant
                self.wf(),
                i <= n,
                n == self.entries@.len(),
                forall|j: int| 0 <= j < i ==> (#[trigger] self.entries@[j]).key@ != key@,
            decreases n - i,
        {
            if bytes_eq(&self.entries[i].key, key) {
                proof {
                    assert(self.kv_seq()[i as int].0 == key@);
                    lemma_assoc_at(self.kv_seq(), i as int);
                }
                return Some(i);
            }
            i = i + 1;
        }
        proof {
            lemma_assoc_dom(self.kv_seq(), key@);
            if self.kv().contains_key(key@) {
                let j = choose|j: int|
                    0 <= j < self.kv_seq().len() && (#[trigger] self.kv_seq()[j]).0 == key@;
                assert(self.entries@[j].key@ == key@);
            }
        }
        None
    }

    /// Removes and returns the value under `key`.
    pub(crate) fn take_value(&mut self, key: &Vec<u8>) -> (r: Option<Value>)
        requires
            old(self).wf(),
        ensures
            final(self).wf(),
            final(self).ttls == old(self).ttls,
            match r {
                Some(v) => old(self).kv().contains_key(key@) && v@ == old(self).kv()[key@]
                    && wf_value(v@) && final(self).kv() == old(self).kv().remove(key@),
                None => !old(self).kv().contains_key(key@) && final(self).kv() == old(
                    self,
                ).kv(),
            },
    {
        match self.find_key(key) {
            Some(i) => {
                let ghost s0 = self.kv_seq();
                let pair = self.entries.remove(i);
                proof {
                    lemma_assoc_remove(s0, i as int);
                    assert(self.kv_seq() =~= s0.take(i as int) + s0.skip(i + 1));
                    assert(forall|j: int|
                        0 <= j < self.kv_seq().len() ==> #[trigger] self.kv_seq()[j] == (if j
                            < i {
                            s0[j]
                        } else {
                            s0[j + 1]
                        }));
                    assert(forall|j: int|
                        0 <= j < self.entries@.len() ==> (#[trigger] self.entries@[j]) == (if j
                            < i {
                            old(self).entries@[j]
                        } else {
                            old(self).entries@[j + 1]
                        }));
                }
                Some(pair.value)
            }
            None => None,
        }
    }

    /// Adds a binding for a key that is not present.
    pub(crate) fn put_value(&mut self, key: Vec<u8>, v: Value)
        requires
            old(self).wf(),
            !old(self).kv().contains_key(key@),
            wf_value(v@),
        ensures
            final(self).wf(),
            final(self).ttls == old(self).ttls,
            final(self).kv() == old(self).kv().insert(key@, v@),
    {
        let ghost s0 = self.kv_seq();
        let ghost kk = key@;
        let ghost vv = v@;
        self.entries.push(KvPair { key, value: v });
        proof {
            assert(self.kv_seq() =~= s0.push((kk, vv)));
            lemma_assoc_push(s0, kk, vv);
            lemma_assoc_dom(s0, kk);
            assert forall|i: int, j: int|
                0 <= i < j < self.kv_seq().len() implies (#[trigger] self.kv_seq()[i]).0 != (
            #[trigger] self.kv_seq()[j]).0 by {
                if j == self.kv_seq().len() - 1 {
                    assert(self.kv_seq()[i] == s0[i]);
                    assert(!(0 <= i < s0.len() && s0[i].0 == kk));
                } else {
                    assert(self.kv_seq()[i] == s0[i]);
                    assert(self.kv_seq()[j] == s0[j]);
                }
            }
            assert(forall|i: int|
                0 <= i < self.entries@.len() - 1 ==> (#[trigger] self.entries@[i]) == old(
                self).entries@[i]);
        }
    }

    /// Writes `v` under `key`, replacing any previous value.
    pub(crate) fn set_value(&mut self, key: Vec<u8>, v: Value)
        requires
            old(self).wf(),
            wf_value(v@),
        ensures
            final(self).wf(),
            final(self).ttls == old(self).ttls,
            final(self).kv() == old(self).kv().insert(key@, v@),
    {
        let ghost kv0 = self.kv();
        self.take_value(&key);
        self.put_value(key, v);
        proof {
            assert(kv0.remove(key@).insert(key@, v@) =~= kv0.insert(key@, v@));
        }
    }

    pub(crate) fn ttl_find(&self, key: &Vec<u8>) -> (r: Option<usize>)
        requires
            self.wf(),
        ensures
            match r {
                Some(i) => i < self.ttls@.len() && self.ttls@[i as int].key@ == key@
                    && self.ttl().contains_key(key@) && self.ttl()[key@] == self.ttls@[
                    i as int].deadline as int,
                None => !self.ttl().contains_key(key@),
            },
    {
        let n = self.ttls.len();
        let mut i: usize = 0;
        while i < n
            invariant
                self.wf(),
                i <= n,
                n == self.ttls@.len(),
                forall|j: int| 0 <= j < i ==> (#[trigger] self.ttls@[j]).key@ != key@,
            decreases n - i,
        {
            if bytes_eq(&self.ttls[i].key, key) {
                proof {
                    assert(self.ttl_seq()[i as int].0 == key@);
                    lemma_assoc_at(self.ttl_seq(), i as int);
                }
                return Some(i);
            }
            i = i + 1;
        }
        proof {
            lemma_assoc_dom(self.ttl_seq(), key@);
            if self.ttl().contains_key(key@) {
                let j = choose|j: int|
                    0 <= j < self.ttl_seq().len() && (#[trigger] self.ttl_seq()[j]).0 == key@;
                assert(self.ttls@[j].key@ == key@);
            }
        }
        None
    }

    pub(crate) fn ttl_remove(&mut self, key: &Vec<u8>)
        requires
            old(self).wf(),
        ensures
            final(self).wf(),
            final(self).entries == old(self).entries,
            final(self).ttl() == old(self).ttl().remove(key@),
    {
        let ghost s0 = self.ttl_seq();
        match self.ttl_find(key) {
            Some(i) => {
                self.ttls.remove(i);
                proof {
                    lemma_assoc_remove(s0, i as int);
                    assert(self.ttl_seq() =~= s0.take(i as int) + s0.skip(i + 1));
                    assert(forall|j: int|
                        0 <= j < self.ttl_seq().len() ==> #[trigger] self.ttl_seq()[j] == (if j
                            < i {
                            s0[j]
                        } else {
                            s0[j + 1]
                        }));
                }
            }
            None => {
                proof {
                    assert(self.ttl().remove(key@) =~= self.ttl());
                }
            }
        }
    }

    pub(crate) fn ttl_set(&mut self, key: Vec<u8>, deadline: u64)
        requires
            old(self).wf(),
        ensures
            final(self).wf(),
            final(self).entries == old(self).entries,
            final(self).ttl() == old(self).ttl().insert(key@, deadline as int),
    {
        let ghost kk = key@;
        let ghost ttl0 = self.ttl();
        self.ttl_remove(&key);
        let ghost s1 = self.ttl_seq();
        self.ttls.push(TtlPair { key, deadline });
        proof {
            assert(self.ttl_seq() =~= s1.push((kk, deadline as int)));
            lemma_assoc_push(s1, kk, deadline as int);
            lemma_assoc_dom(s1, kk);
            assert(!assoc_map(s1).contains_key(kk));
            assert forall|i: int, j: int|
                0 <= i < j < self.ttl_seq().len() implies (#[trigger] self.ttl_seq()[i]).0 != (
            #[trigger] self.ttl_seq()[j]).0 by {
                if j == self.ttl_seq().len() - 1 {
                    assert(self.ttl_seq()[i] == s1[i]);
                    assert(!(0 <= i < s1.len() && s1[i].0 == kk));
                } else {
                    assert(self.ttl_seq()[i] == s1[i]);
                    assert(self.ttl_seq()[j] == s1[j]);
                }
            }
            assert(ttl0.remove(kk).insert(kk, deadline as int) =~= ttl0.insert(
                kk,
                deadline as int,
            ));
        }
    }

    /// Whether `key` is past its deadline, without mutating anything.
    pub(crate) fn is_expired_read(&self, key: &Vec<u8>, now: u64) -> (r: bool)
        requires
            self.wf(),
        ensures
            r == is_expired(self.ttl(), key@, now as int),
    {
        match self.ttl_find(key) {
            Some(i) => now >= self.ttls[i].deadline,
            None => false,
        }
    }

    /// Lazy expiry: if `key` has a deadline at or before `now`, drop the key
    /// from both maps.
    pub fn check_and_purge(&mut self, key: &Vec<u8>, now: u64) -> (r: bool)
        requires
            old(self).wf(),
        ensures
            final(self).wf(),
            r == is_expired(old(self).ttl(), key@, now as int),
            final(self).kv() == purged_kv(old(self).kv(), old(self).ttl(), key@, now as int),
            final(self).ttl() == purged_ttl(old(self).ttl(), key@, now as int),
    {
        let expired = match self.ttl_find(key) {
            Some(i) => now >= self.ttls[i].deadline,
            None => false,
        };
        if expired {
            self.ttl_remove(key);
            self.take_value(key);
            proof {
                if !old(self).kv().contains_key(key@) {
                    assert(old(self).kv().remove(key@) =~= old(self).kv());
                }
            }
            true
        } else {
            false
        }
    }
}


/// Whether one of the first `t` collected keys is `k`.
pub open spec fn swept(due: Seq<Vec<u8>>, t: int, k: Seq<u8>) -> bool {
    exists|j: int| 0 <= j < t && (#[trigger] due[j])@ == k
}

impl Store {
    /// Active expiry: drops exactly the keys whose deadline is at or before
    /// `now` from both maps; every other binding stays as it was.
    pub fn sweep(&mut self, now: u64)
        requires
            old(self).wf(),
        ensures
            final(self).wf(),
            forall|k: Seq<u8>| #[trigger] final(self).ttl().contains_key(k)
                <==> old(self).ttl().contains_key(k) && !is_expired(
                old(self).ttl(),
                k,
                now as int,
            ),
            forall|k: Seq<u8>| #[trigger] final(self).ttl().contains_key(k)
                ==> final(self).ttl()[k] == old(self).ttl()[k],
            forall|k: Seq<u8>| #[trigger] final(self).kv().contains_key(k)
                <==> old(self).kv().contains_key(k) && !is_expired(
                old(self).ttl(),
                k,
                now as int,
            ),
            forall|k: Seq<u8>| #[trigger] final(self).kv().contains_key(k)
                ==> final(self).kv()[k] == old(self).kv()[k],
    {
        // first pass: note every key whose deadline has passed
        let mut due: Vec<Vec<u8>> = Vec::new();
        let n = self.ttls.len();
        let mut i: usize = 0;
        while i < n
            invariant
                self.wf(),
                *self == *old(self),
                i <= n,
                n == self.ttls@.len(),
                forall|j: int|
                    0 <= j < due@.len() ==> is_expired(
                        self.ttl(),
                        (#[trigger] due@[j])@,
                        now as int,
                    ),
                forall|idx: int|
                    0 <= idx < i && (#[trigger] self.ttls@[idx]).deadline <= now ==> swept(
                        due@,
                        due@.len() as int,
                        self.ttls@[idx].key@,
                    ),
            decreases n - i,
        {
            let ghost before = due@;
            if now >= self.ttls[i].deadline {
                proof {
                    assert(self.ttl_seq()[i as int].0 == self.ttls@[i as int].key@);
                    lemma_assoc_at(self.ttl_seq(), i as int);
                }
                due.push(bytes_clone(&self.ttls[i].key));
                proof {
                    assert(due@[due@.len() - 1]@ == self.ttls@[i as int].key@);
                    assert forall|idx: int|
                        0 <= idx < i + 1 && (#[trigger] self.ttls@[idx]).deadline
                            <= now implies swept(due@, due@.len() as int, self.ttls@[
                        idx].key@) by {
                        if idx < i {
                            let j = choose|j: int|
                                0 <= j < before.len() && (#[trigger] before[j])@ == self.ttls@[
                                idx].key@;
                            assert(due@[j]@ == self.ttls@[idx].key@);
                        } else {
                            assert(due@[due@.len() - 1]@ == self.ttls@[idx].key@);
                        }
                    }
                }
            }
            i = i + 1;
        }
        proof {
            // the collected keys are exactly the expired ones
            assert forall|k: Seq<u8>| is_expired(self.ttl(), k, now as int) implies swept(
                due@,
                due@.len() as int,
                k,
            ) by {
                lemma_assoc_dom(self.ttl_seq(), k);
                let idx = choose|idx: int|
                    0 <= idx < self.ttl_seq().len() && (#[trigger] self.ttl_seq()[idx]).0 == k;
                assert(self.ttls@[idx].key@ == k);
                lemma_assoc_at(self.ttl_seq(), idx);
                assert(self.ttl()[k] == self.ttls@[idx].deadline as int);
                assert(self.ttls@[idx].deadline <= now);
            }
        }
        // second pass: purge each noted key
        let m = due.len();
        let mut t: usize = 0;
        while t < m
            invariant
                self.wf(),
                t <= m,
                m == due@.len(),
                forall|j: int|
                    0 <= j < m ==> is_expired(
                        old(self).ttl(),
                        (#[trigger] due@[j])@,
                        now as int,
                    ),
                forall|k: Seq<u8>|
                    is_expired(old(self).ttl(), k, now as int) ==> swept(due@, m as int, k),
                forall|k: Seq<u8>| #[trigger] self.ttl().contains_key(k)
                    <==> old(self).ttl().contains_key(k) && !swept(due@, t as int, k),
                forall|k: Seq<u8>| #[trigger] self.ttl().contains_key(k) ==> self.ttl()[k]
                    == old(self).ttl()[k],
                forall|k: Seq<u8>| #[trigger] self.kv().contains_key(k)
                    <==> old(self).kv().contains_key(k) && !swept(due@, t as int, k),
                forall|k: Seq<u8>| #[trigger] self.kv().contains_key(k) ==> self.kv()[k]
                    == old(self).kv()[k],
            decreases m - t,
        {
            let ghost pre = *self;
            let ghost kt = due@[t as int]@;
            proof {
                assert forall|k: Seq<u8>| swept(due@, t + 1, k) <==> (swept(due@, t as int, k)
                    || k == kt) by {
                    if swept(due@, t + 1, k) {
                        let j = choose|j: int| 0 <= j < t + 1 && (#[trigger] due@[j])@ == k;
                        if j < t {
                            assert(swept(due@, t as int, k));
                        }
                    }
                    if swept(due@, t as int, k) {
                        let j = choose|j: int| 0 <= j < t && (#[trigger] due@[j])@ == k;
                        assert(0 <= j < t + 1 && due@[j]@ == k);
                    }
                    if k == kt {
                        assert(0 <= t < t + 1 && due@[t as int]@ == k);
                    }
                }
            }
            self.check_and_purge(&due[t], now);
            proof {
                if is_expired(pre.ttl(), kt, now as int) {
                    assert(self.ttl() == pre.ttl().remove(kt));
                    assert(self.kv() == pre.kv().remove(kt));
                } else {
                    // the key was already purged by an earlier duplicate
                    assert(!pre.ttl().contains_key(kt)) by {
                        if pre.ttl().contains_key(kt) {
                            assert(pre.ttl()[kt] == old(self).ttl()[kt]);
                            assert(is_expired(old(self).ttl(), kt, now as int));
                        }
                    }
                    assert(old(self).ttl().contains_key(kt));
                    assert(swept(due@, t as int, kt));
                }
            }
            t = t + 1;
        }
        proof {
            assert forall|k: Seq<u8>| swept(due@, m as int, k) implies is_expired(
                old(self).ttl(),
                k,
                now as int,
            ) by {
                let j = choose|j: int| 0 <= j < m && (#[trigger] due@[j])@ == k;
            }
        }
    }
}

} // verus!
