use vstd::prelude::*;

use crate::frame::{Frame, FrameModel};
use crate::replies::{bulk_array, bulks_of, len_i64, len_to_i64, u64_to_i64_sat, wrongtype_frame,
    wrongtype_msg};
use crate::store::{is_expired, purged_kv, purged_ttl, Store};
use crate::value::{Value, ValueModel};
use crate::zset::{bytes_clone, bytes_eq};

verus! {

broadcast use vstd::seq::group_seq_axioms;

// ---------------------------------------------------------------------------
// Set commands. A set is a duplicate-free sequence of byte strings held in
// insertion order.
// ---------------------------------------------------------------------------

pub open spec fn set_view(members: Vec<Vec<u8>>) -> Seq<Seq<u8>> {
    Seq::new(members@.len(), |i: int| members@[i]@)
}

/// First index of `m`, if any.
pub open spec fn sidx(s: Seq<Seq<u8>>, m: Seq<u8>) -> Option<int>
    decreases s.len(),
{
    if s.len() == 0 {
        None
    } else if s[0] == m {
        Some(0)
    } else {
        match sidx(s.subrange(1, s.len() as int), m) {
            Some(i) => Some(i + 1),
            None => None,
        }
    }
}

pub open spec fn set_has(s: Seq<Seq<u8>>, m: Seq<u8>) -> bool {
    sidx(s, m) is Some
}

pub proof fn lemma_sidx(s: Seq<Seq<u8>>, m: Seq<u8>)
    ensures
        match sidx(s, m) {
            Some(i) => 0 <= i < s.len() && s[i] == m && forall|j: int|
                0 <= j < i ==> s[j] != m,
            None => forall|j: int| 0 <= j < s.len() ==> s[j] != m,
        },
    decreases s.len(),
{
    if s.len() == 0 {
    } else if s[0] == m {
    } else {
        let rest = s.subrange(1, s.len() as int);
        lemma_sidx(rest, m);
        assert(forall|j: int| 0 <= j < rest.len() ==> #[trigger] rest[j] == s[j + 1]);
        match sidx(rest, m) {
            Some(i) => {
                assert(s[i + 1] == m);
                assert forall|j: int| 0 <= j < i + 1 implies s[j] != m by {
                    if j > 0 {
                        assert(rest[j - 1] == s[j]);
                    }
                }
            }
            None => {
                assert forall|j: int| 0 <= j < s.len() implies s[j] != m by {
                    if j > 0 {
                        assert(rest[j - 1] == s[j]);
                    }
                }
            }
        }
    }
}

pub proof fn lemma_sidx_is(s: Seq<Seq<u8>>, m: Seq<u8>, i: int)
    requires
        0 <= i < s.len(),
        s[i] == m,
        forall|j: int| 0 <= j < i ==> s[j] != m,
    ensures
        sidx(s, m) == Some(i),
{
    lemma_sidx(s, m);
    match sidx(s, m) {
        Some(i2) => {
            if i2 < i {
                assert(s[i2] != m);
            } else if i2 > i {
                assert(s[i] != m);
            }
        }
        None => {
            assert(s[i] != m);
        }
    }
}

/// Adds each member in turn if not yet present; counts true additions.
pub open spec fn spec_sadd(s: Seq<Seq<u8>>, ms: Seq<Seq<u8>>) -> (Seq<Seq<u8>>, int)
    decreases ms.len(),
{
    if ms.len() == 0 {
        (s, 0)
    } else {
        let s1 = if set_has(s, ms[0]) {
            s
        } else {
            s.push(ms[0])
        };
        let add: int = if set_has(s, ms[0]) {
            0
        } else {
            1
        };
        let rec = spec_sadd(s1, ms.subrange(1, ms.len() as int));
        (rec.0, add + rec.1)
    }
}

pub proof fn lemma_sadd_push(s: Seq<Seq<u8>>, ms: Seq<Seq<u8>>, x: Seq<u8>)
    ensures
        spec_sadd(s, ms.push(x)) == ({
            let mid = spec_sadd(s, ms);
            if set_has(mid.0, x) {
                (mid.0, mid.1)
            } else {
                (mid.0.push(x), mid.1 + 1)
            }
        }),
    decreases ms.len(),
{
    if ms.len() == 0 {
        assert(ms.push(x)[0] == x);
        assert(ms.push(x).subrange(1, 1) =~= Seq::<Seq<u8>>::empty());
        let s1 = if set_has(s, x) {
            s
        } else {
            s.push(x)
        };
        assert(spec_sadd(s1, ms.push(x).subrange(1, 1)) == (s1, 0int));
        assert(spec_sadd(s, ms) == (s, 0int));
    } else {
        assert(ms.push(x)[0] == ms[0]);
        let tail = ms.subrange(1, ms.len() as int);
        assert(ms.push(x).subrange(1, ms.len() as int + 1) =~= tail.push(x));
        let s1 = if set_has(s, ms[0]) {
            s
        } else {
            s.push(ms[0])
        };
        lemma_sadd_push(s1, tail, x);
        let ghost add0: int = if set_has(s, ms[0]) {
            0
        } else {
            1
        };
        assert(spec_sadd(s, ms.push(x)) == (
            spec_sadd(s1, tail.push(x)).0,
            add0 + spec_sadd(s1, tail.push(x)).1,
        ));
        assert(spec_sadd(s, ms) == (spec_sadd(s1, tail).0, add0 + spec_sadd(s1, tail).1));
    }
}

/// The set with the first occurrence of `m` dropped.
pub open spec fn spec_sremove(s: Seq<Seq<u8>>, m: Seq<u8>) -> Seq<Seq<u8>> {
    match sidx(s, m) {
        Some(i) => s.take(i) + s.skip(i + 1),
        None => s,
    }
}

/// Removes each member in turn; counts how many were present.
pub open spec fn spec_srem(s: Seq<Seq<u8>>, ms: Seq<Seq<u8>>) -> (Seq<Seq<u8>>, int)
    decreases ms.len(),
{
    if ms.len() == 0 {
        (s, 0)
    } else {
        let hit: int = if set_has(s, ms[0]) {
            1
        } else {
            0
        };
        let rec = spec_srem(spec_sremove(s, ms[0]), ms.subrange(1, ms.len() as int));
        (rec.0, hit + rec.1)
    }
}

pub proof fn lemma_srem_push(s: Seq<Seq<u8>>, ms: Seq<Seq<u8>>, x: Seq<u8>)
    ensures
        spec_srem(s, ms.push(x)) == ({
            let mid = spec_srem(s, ms);
            let hit: int = if set_has(mid.0, x) {
                1
            } else {
                0
            };
            (spec_sremove(mid.0, x), mid.1 + hit)
        }),
    decreases ms.len(),
{
    if ms.len() == 0 {
        assert(ms.push(x)[0] == x);
        assert(ms.push(x).subrange(1, 1) =~= Seq::<Seq<u8>>::empty());
        assert(spec_srem(spec_sremove(s, x), ms.push(x).subrange(1, 1)) == (
            spec_sremove(s, x),
            0int,
        ));
        assert(spec_srem(s, ms) == (s, 0int));
    } else {
        assert(ms.push(x)[0] == ms[0]);
        let s1 = spec_sremove(s, ms[0]);
        let tail = ms.subrange(1, ms.len() as int);
        assert(ms.push(x).subrange(1, ms.len() as int + 1) =~= tail.push(x));
        lemma_srem_push(s1, tail, x);
        let ghost hit0: int = if set_has(s, ms[0]) {
            1
        } else {
            0
        };
        assert(spec_srem(s, ms.push(x)) == (
            spec_srem(s1, tail.push(x)).0,
            hit0 + spec_srem(s1, tail.push(x)).1,
        ));
        assert(spec_srem(s, ms) == (spec_srem(s1, tail).0, hit0 + spec_srem(s1, tail).1));
    }
}

/// Folds the members of `other` into `acc`, keeping first occurrences.
pub open spec fn spec_union_add(acc: Seq<Seq<u8>>, other: Seq<Seq<u8>>) -> Seq<Seq<u8>> {
    spec_sadd(acc, other).0
}

/// The set a key contributes to a union: empty unless it is a live set.
pub open spec fn spec_sunion(
    kv: Map<Seq<u8>, ValueModel>,
    ttl: Map<Seq<u8>, int>,
    now: int,
    keys: Seq<Seq<u8>>,
) -> Seq<Seq<u8>>
    decreases keys.len(),
{
    if keys.len() == 0 {
        Seq::empty()
    } else {
        let acc = spec_sunion(kv, ttl, now, keys.drop_last());
        let k = keys.last();
        if is_expired(ttl, k, now) {
            acc
        } else if kv.contains_key(k) && kv[k] is SetVal {
            spec_union_add(acc, kv[k]->SetVal_0)
        } else {
            acc
        }
    }
}

/// Keeps the members of `acc` that `other` also holds.
pub open spec fn spec_inter(acc: Seq<Seq<u8>>, other: Seq<Seq<u8>>) -> Seq<Seq<u8>> {
    acc.filter(|m: Seq<u8>| set_has(other, m))
}

/// Drops from `acc` the members that `other` holds.
pub open spec fn spec_diff(acc: Seq<Seq<u8>>, other: Seq<Seq<u8>>) -> Seq<Seq<u8>> {
    acc.filter(|m: Seq<u8>| !set_has(other, m))
}

/// The first key that is a live set, searching in order.
pub open spec fn spec_first_set(
    kv: Map<Seq<u8>, ValueModel>,
    ttl: Map<Seq<u8>, int>,
    now: int,
    keys: Seq<Seq<u8>>,
) -> Option<Seq<Seq<u8>>>
    decreases keys.len(),
{
    if keys.len() == 0 {
        None
    } else {
        let k = keys[0];
        if !is_expired(ttl, k, now) && kv.contains_key(k) && kv[k] is SetVal {
            Some(kv[k]->SetVal_0)
        } else {
            spec_first_set(kv, ttl, now, keys.subrange(1, keys.len() as int))
        }
    }
}

/// Intersects `acc` with every key that holds a set.
pub open spec fn spec_inter_fold(
    kv: Map<Seq<u8>, ValueModel>,
    acc: Seq<Seq<u8>>,
    keys: Seq<Seq<u8>>,
) -> Seq<Seq<u8>>
    decreases keys.len(),
{
    if keys.len() == 0 {
        acc
    } else {
        let k = keys[0];
        let acc1 = if kv.contains_key(k) && kv[k] is SetVal {
            spec_inter(acc, kv[k]->SetVal_0)
        } else {
            acc
        };
        spec_inter_fold(kv, acc1, keys.subrange(1, keys.len() as int))
    }
}

/// Subtracts every later key that holds a set from `acc`.
pub open spec fn spec_diff_fold(
    kv: Map<Seq<u8>, ValueModel>,
    acc: Seq<Seq<u8>>,
    keys: Seq<Seq<u8>>,
) -> Seq<Seq<u8>>
    decreases keys.len(),
{
    if keys.len() == 0 {
        acc
    } else {
        let k = keys[0];
        let acc1 = if kv.contains_key(k) && kv[k] is SetVal {
            spec_diff(acc, kv[k]->SetVal_0)
        } else {
            acc
        };
        spec_diff_fold(kv, acc1, keys.subrange(1, keys.len() as int))
    }
}

/// First position of `m` among the members.
fn sfind(members: &Vec<Vec<u8>>, m: &Vec<u8>) -> (r: Option<usize>)
    ensures
        match r {
            Some(i) => sidx(set_view(*members), m@) == Some(i as int) && i < members@.len()
                && members@[i as int]@ == m@,
            None => sidx(set_view(*members), m@) is None,
        },
        r is Some <==> set_has(set_view(*members), m@),
{
    let n = members.len();
    let mut i: usize = 0;
    while i < n
        invariant
            i <= n,
            n == members@.len(),
            forall|j: int| 0 <= j < i ==> (#[trigger] members@[j])@ != m@,
        decreases n - i,
    {
        if bytes_eq(&members[i], m) {
            proof {
                lemma_sidx_is(set_view(*members), m@, i as int);
            }
            return Some(i);
        }
        i = i + 1;
    }
    proof {
        lemma_sidx(set_view(*members), m@);
        if sidx(set_view(*members), m@) is Some {
            let p = sidx(set_view(*members), m@)->Some_0;
            assert(set_view(*members)[p] != m@);
        }
    }
    None
}

/// Keeps the members of `acc` that are (or are not) in `other`.
fn filter_members(acc: &Vec<Vec<u8>>, other: &Vec<Vec<u8>>, keep_in: bool) -> (out: Vec<
    Vec<u8>,
>)
    ensures
        keep_in ==> set_view(out) == spec_inter(set_view(*acc), set_view(*other)),
        !keep_in ==> set_view(out) == spec_diff(set_view(*acc), set_view(*other)),
{
    let ghost av = set_view(*acc);
    let ghost ov = set_view(*other);
    let ghost pred_in = |m: Seq<u8>| set_has(ov, m);
    let ghost pred_out = |m: Seq<u8>| !set_has(ov, m);
    let mut out: Vec<Vec<u8>> = Vec::new();
    let n = acc.len();
    proof {
        reveal(Seq::filter);
        assert(av.take(0) =~= Seq::<Seq<u8>>::empty());
    }
    let mut i: usize = 0;
    while i < n
        invariant
            i <= n,
            n == acc@.len(),
            av == set_view(*acc),
            ov == set_view(*other),
            pred_in == (|m: Seq<u8>| set_has(ov, m)),
            pred_out == (|m: Seq<u8>| !set_has(ov, m)),
            keep_in ==> set_view(out) == av.take(i as int).filter(pred_in),
            !keep_in ==> set_view(out) == av.take(i as int).filter(pred_out),
        decreases n - i,
    {
        let present = match sfind(other, &acc[i]) {
            Some(_) => true,
            None => false,
        };
        let ghost before = set_view(out);
        proof {
            reveal(Seq::filter);
            assert(av.take(i + 1).drop_last() =~= av.take(i as int));
            assert(av.take(i + 1).last() == av[i as int]);
            assert(av[i as int] == acc@[i as int]@);
        }
        if present == keep_in {
            out.push(bytes_clone(&acc[i]));
            proof {
                assert(set_view(out) =~= before.push(av[i as int]));
            }
        }
        i = i + 1;
    }
    proof {
        assert(av.take(n as int) =~= av);
    }
    out
}

impl Store {
    /// SADD: adds the missing members; answers how many were new.
    pub fn sadd(&mut self, key: Vec<u8>, members: &Vec<Vec<u8>>, now: u64) -> (r: Frame)
        requires
            old(self).wf(),
        ensures
            final(self).wf(),
            final(self).ttl() == purged_ttl(old(self).ttl(), key@, now as int),
            ({
                let kv1 = purged_kv(old(self).kv(), old(self).ttl(), key@, now as int);
                let ms = members@.map_values(|m: Vec<u8>| m@);
                if !kv1.contains_key(key@) {
                    let p = spec_sadd(Seq::empty(), ms);
                    final(self).kv() == kv1.insert(key@, ValueModel::SetVal(p.0)) && r@
                        == FrameModel::Integer(len_i64(p.1))
                } else {
                    match kv1[key@] {
                        ValueModel::SetVal(s) => {
                            let p = spec_sadd(s, ms);
                            final(self).kv() == kv1.insert(key@, ValueModel::SetVal(p.0))
                                && r@ == FrameModel::Integer(len_i64(p.1))
                        },
                        _ => final(self).kv() == kv1 && r@ == FrameModel::Error(
                            wrongtype_msg(),
                        ),
                    }
                }
            }),
    {
        self.check_and_purge(&key, now);
        let ghost kv1 = self.kv();
        let ghost kk = key@;
        let ghost ms = members@.map_values(|m: Vec<u8>| m@);
        let mut set: Vec<Vec<u8>>;
        match self.take_value(&key) {
            Some(v) => match v {
                Value::SetVal(s) => {
                    set = s;
                    proof {
                        assert(set_view(set) =~= kv1[kk]->SetVal_0);
                    }
                }
                other => {
                    self.put_value(key, other);
                    proof {
                        assert(kv1.remove(kk).insert(kk, kv1[kk]) =~= kv1);
                    }
                    return wrongtype_frame();
                }
            },
            None => {
                set = Vec::new();
                proof {
                    assert(set_view(set) =~= Seq::<Seq<u8>>::empty());
                }
            }
        }
        let ghost s0 = set_view(set);
        let n = members.len();
        let mut added: u64 = 0;
        let mut i: usize = 0;
        while i < n
            invariant
                i <= n,
                n == members@.len(),
                ms == members@.map_values(|m: Vec<u8>| m@),
                added <= i,
                forall|a: int, b: int|
                    0 <= a < b < set_view(set).len() ==> set_view(set)[a] != set_view(set)[b],
                set_view(set) == spec_sadd(s0, ms.take(i as int)).0,
                added == spec_sadd(s0, ms.take(i as int)).1,
            decreases n - i,
        {
            let ghost cur = set_view(set);
            proof {
                assert(ms.take(i + 1) =~= ms.take(i as int).push(ms[i as int]));
                lemma_sadd_push(s0, ms.take(i as int), ms[i as int]);
                assert(ms[i as int] == members@[i as int]@);
            }
            match sfind(&set, &members[i]) {
                Some(_) => {}
                None => {
                    set.push(bytes_clone(&members[i]));
                    added = added + 1;
                    proof {
                        assert(set_view(set) =~= cur.push(ms[i as int]));
                        lemma_sidx(cur, ms[i as int]);
                        assert forall|a: int, b: int|
                            0 <= a < b < set_view(set).len() implies set_view(set)[a]
                            != set_view(set)[b] by {
                            if b == set_view(set).len() - 1 {
                                assert(set_view(set)[a] == cur[a]);
                                assert(cur[a] != ms[i as int]);
                            } else {
                                assert(set_view(set)[a] == cur[a]);
                                assert(set_view(set)[b] == cur[b]);
                            }
                        }
                    }
                }
            }
            i = i + 1;
        }
        proof {
            assert(ms.take(n as int) =~= ms);
        }
        let count = u64_to_i64_sat(added);
        self.put_value(key, Value::SetVal(set));
        Frame::Integer(count)
    }

    /// SREM: removes the named members; answers how many were present.
    pub fn srem(&mut self, key: &Vec<u8>, members: &Vec<Vec<u8>>, now: u64) -> (r: Frame)
        requires
            old(self).wf(),
        ensures
            final(self).wf(),
            final(self).ttl() == purged_ttl(old(self).ttl(), key@, now as int),
            ({
                let kv1 = purged_kv(old(self).kv(), old(self).ttl(), key@, now as int);
                let ms = members@.map_values(|m: Vec<u8>| m@);
                if !kv1.contains_key(key@) {
                    final(self).kv() == kv1 && r@ == FrameModel::Integer(0)
                } else {
                    match kv1[key@] {
                        ValueModel::SetVal(s) => final(self).kv() == kv1.insert(
                            key@,
                            ValueModel::SetVal(spec_srem(s, ms).0),
                        ) && r@ == FrameModel::Integer(len_i64(spec_srem(s, ms).1)),
                        _ => final(self).kv() == kv1 && r@ == FrameModel::Error(
                            wrongtype_msg(),
                        ),
                    }
                }
            }),
    {
        if self.check_and_purge(key, now) {
            return Frame::Integer(0);
        }
        let ghost kv1 = self.kv();
        let ghost kk = key@;
        let ghost ms = members@.map_values(|m: Vec<u8>| m@);
        match self.take_value(key) {
            Some(v) => match v {
                Value::SetVal(mut set) => {
                    proof {
                        assert(set_view(set) =~= kv1[kk]->SetVal_0);
                    }
                    let ghost s0 = set_view(set);
                    let n = members.len();
                    let mut removed: u64 = 0;
                    let mut i: usize = 0;
                    while i < n
                        invariant
                            i <= n,
                            n == members@.len(),
                            ms == members@.map_values(|m: Vec<u8>| m@),
                            removed <= i,
                            forall|a: int, b: int|
                                0 <= a < b < set_view(set).len() ==> set_view(set)[a]
                                    != set_view(set)[b],
                            set_view(set) == spec_srem(s0, ms.take(i as int)).0,
                            removed == spec_srem(s0, ms.take(i as int)).1,
                        decreases n - i,
                    {
                        let ghost cur = set_view(set);
                        proof {
                            assert(ms.take(i + 1) =~= ms.take(i as int).push(ms[i as int]));
                            lemma_srem_push(s0, ms.take(i as int), ms[i as int]);
                            assert(ms[i as int] == members@[i as int]@);
                        }
                        match sfind(&set, &members[i]) {
                            Some(j) => {
                                set.remove(j);
                                removed = removed + 1;
                                proof {
                                    assert(set_view(set) =~= cur.take(j as int) + cur.skip(
                                        j + 1,
                                    ));
                                    assert(set_view(set) =~= spec_sremove(cur, ms[i as int]));
                                    assert forall|a: int, b: int|
                                        0 <= a < b < set_view(set).len() implies set_view(
                                        set,
                                    )[a] != set_view(set)[b] by {
                                        let a0 = if a < j { a } else { a + 1 };
                                        let b0 = if b < j { b } else { b + 1 };
                                        assert(set_view(set)[a] == cur[a0]);
                                        assert(set_view(set)[b] == cur[b0]);
                                    }
                                }
                            }
                            None => {
                                proof {
                                    assert(set_view(set) =~= spec_sremove(cur, ms[i as int]));
                                }
                            }
                        }
                        i = i + 1;
                    }
                    proof {
                        assert(ms.take(n as int) =~= ms);
                    }
                    let count = u64_to_i64_sat(removed);
                    self.put_value(bytes_clone(key), Value::SetVal(set));
                    Frame::Integer(count)
                }
                other => {
                    self.put_value(bytes_clone(key), other);
                    proof {
                        assert(kv1.remove(kk).insert(kk, kv1[kk]) =~= kv1);
                    }
                    wrongtype_frame()
                }
            },
            None => Frame::Integer(0),
        }
    }

    /// SMEMBERS: the members, in insertion order.
    pub fn smembers(&mut self, key: &Vec<u8>, now: u64) -> (r: Frame)
        requires
            old(self).wf(),
        ensures
            final(self).wf(),
            final(self).kv() == purged_kv(old(self).kv(), old(self).ttl(), key@, now as int),
            final(self).ttl() == purged_ttl(old(self).ttl(), key@, now as int),
            r@ == ({
                let kv1 = final(self).kv();
                if !kv1.contains_key(key@) {
                    FrameModel::Array(Seq::empty())
                } else {
                    match kv1[key@] {
                        ValueModel::SetVal(s) => FrameModel::Array(bulks_of(s)),
                        _ => FrameModel::Error(wrongtype_msg()),
                    }
                }
            }),
    {
        if self.check_and_purge(key, now) {
            let f = Frame::Array(Vec::new());
            return f;
        }
        match self.find_key(key) {
            Some(i) => match &self.entries[i].value {
                Value::SetVal(s) => {
                    let items = copy_all(s);
                    let f = bulk_array(items);
                    proof {
                        assert(items@.map_values(|b: Vec<u8>| b@) =~= set_view(*s));
                    }
                    f
                }
                _ => wrongtype_frame(),
            },
            None => Frame::Array(Vec::new()),
        }
    }

    /// SISMEMBER: 1 exactly when the member is present.
    pub fn sismember(&mut self, key: &Vec<u8>, member: &Vec<u8>, now: u64) -> (r: Frame)
        requires
            old(self).wf(),
        ensures
            final(self).wf(),
            final(self).kv() == purged_kv(old(self).kv(), old(self).ttl(), key@, now as int),
            final(self).ttl() == purged_ttl(old(self).ttl(), key@, now as int),
            r@ == ({
                let kv1 = final(self).kv();
                if !kv1.contains_key(key@) {
                    FrameModel::Integer(0)
                } else {
                    match kv1[key@] {
                        ValueModel::SetVal(s) => FrameModel::Integer(
                            if set_has(s, member@) {
                                1
                            } else {
                                0
                            },
                        ),
                        _ => FrameModel::Error(wrongtype_msg()),
                    }
                }
            }),
    {
        if self.check_and_purge(key, now) {
            return Frame::Integer(0);
        }
        match self.find_key(key) {
            Some(i) => match &self.entries[i].value {
                Value::SetVal(s) => match sfind(s, member) {
                    Some(_) => Frame::Integer(1),
                    None => Frame::Integer(0),
                },
                _ => wrongtype_frame(),
            },
            None => Frame::Integer(0),
        }
    }

    /// SCARD: how many members the set holds.
    pub fn scard(&mut self, key: &Vec<u8>, now: u64) -> (r: Frame)
        requires
            old(self).wf(),
        ensures
            final(self).wf(),
            final(self).kv() == purged_kv(old(self).kv(), old(self).ttl(), key@, now as int),
            final(self).ttl() == purged_ttl(old(self).ttl(), key@, now as int),
            r@ == ({
                let kv1 = final(self).kv();
                if !kv1.contains_key(key@) {
                    FrameModel::Integer(0)
                } else {
                    match kv1[key@] {
                        ValueModel::SetVal(s) => FrameModel::Integer(len_i64(s.len() as int)),
                        _ => FrameModel::Error(wrongtype_msg()),
                    }
                }
            }),
    {
        if self.check_and_purge(key, now) {
            return Frame::Integer(0);
        }
        match self.find_key(key) {
            Some(i) => match &self.entries[i].value {
                Value::SetVal(s) => Frame::Integer(len_to_i64(s.len())),
                _ => wrongtype_frame(),
            },
            None => Frame::Integer(0),
        }
    }

    /// SUNION: the union of every live set among the keys, in first-seen
    /// order; reads only.
    pub fn sunion(&mut self, keys: &Vec<Vec<u8>>, now: u64) -> (r: Frame)
        requires
            old(self).wf(),
        ensures
            *final(self) == *old(self),
            r@ == FrameModel::Array(
                bulks_of(
                    spec_sunion(
                        old(self).kv(),
                        old(self).ttl(),
                        now as int,
                        keys@.map_values(|k: Vec<u8>| k@),
                    ),
                ),
            ),
    {
        let ghost ks = keys@.map_values(|k: Vec<u8>| k@);
        let mut acc: Vec<Vec<u8>> = Vec::new();
        let n = keys.len();
        let mut i: usize = 0;
        proof {
            assert(set_view(acc) =~= Seq::<Seq<u8>>::empty());
        }
        while i < n
            invariant
                self.wf(),
                *self == *old(self),
                i <= n,
                n == keys@.len(),
                ks == keys@.map_values(|k: Vec<u8>| k@),
                set_view(acc) == spec_sunion(self.kv(), self.ttl(), now as int, ks.take(
                    i as int,
                )),
            decreases n - i,
        {
            proof {
                assert(ks.take(i + 1).drop_last() =~= ks.take(i as int));
                assert(ks.take(i + 1).last() == ks[i as int]);
                assert(ks[i as int] == keys@[i as int]@);
            }
            let expired = self.is_expired_read(&keys[i], now);
            if !expired {
                match self.find_key(&keys[i]) {
                    Some(idx) => {
                        let is_set = match &self.entries[idx].value {
                            Value::SetVal(_) => true,
                            _ => false,
                        };
                        if is_set {
                            let members = match &self.entries[idx].value {
                                Value::SetVal(s) => s,
                                _ => unreached(),
                            };
                            let ghost a0 = set_view(acc);
                            let ghost ov = set_view(*members);
                            let m = members.len();
                            let mut j: usize = 0;
                            while j < m
                                invariant
                                    self.wf(),
                                    j <= m,
                                    idx < self.entries@.len(),
                                    self.entries@[idx as int].value is SetVal,
                                    m == self.entries@[idx as int].value->SetVal_0@.len(),
                                    ov == set_view(
                                        self.entries@[idx as int].value->SetVal_0,
                                    ),
                                    set_view(acc) == spec_sadd(a0, ov.take(j as int)).0,
                                decreases m - j,
                            {
                                let members2 = match &self.entries[idx].value {
                                    Value::SetVal(s) => s,
                                    _ => unreached(),
                                };
                                let ghost cur = set_view(acc);
                                proof {
                                    assert(ov.take(j + 1) =~= ov.take(j as int).push(
                                        ov[j as int],
                                    ));
                                    lemma_sadd_push(a0, ov.take(j as int), ov[j as int]);
                                    assert(ov[j as int] == members2@[j as int]@);
                                }
                                match sfind(&acc, &members2[j]) {
                                    Some(_) => {}
                                    None => {
                                        acc.push(bytes_clone(&members2[j]));
                                        proof {
                                            assert(set_view(acc) =~= cur.push(ov[j as int]));
                                        }
                                    }
                                }
                                j = j + 1;
                            }
                            proof {
                                assert(ov.take(m as int) =~= ov);
                                assert(self.kv()[ks[i as int]] == self.entries@[
                                idx as int].value@);
                                assert(self.kv()[ks[i as int]]->SetVal_0 =~= ov);
                            }
                        }
                    }
                    None => {}
                }
            }
            i = i + 1;
        }
        proof {
            assert(ks.take(n as int) =~= ks);
            assert(acc@.map_values(|b: Vec<u8>| b@) =~= set_view(acc));
        }
        let f = bulk_array(acc);
        f
    }

    /// SINTER: the intersection seeded by the first live set, filtered by
    /// every key that holds a set; reads only.
    pub fn sinter(&mut self, keys: &Vec<Vec<u8>>, now: u64) -> (r: Frame)
        requires
            old(self).wf(),
        ensures
            *final(self) == *old(self),
            r@ == ({
                let ks = keys@.map_values(|k: Vec<u8>| k@);
                match spec_first_set(old(self).kv(), old(self).ttl(), now as int, ks) {
                    Some(base) => FrameModel::Array(
                        bulks_of(spec_inter_fold(old(self).kv(), base, ks)),
                    ),
                    None => FrameModel::Array(Seq::empty()),
                }
            }),
    {
        let ghost ks = keys@.map_values(|k: Vec<u8>| k@);
        let n = keys.len();
        // find the first live set
        let mut base: Option<Vec<Vec<u8>>> = None;
        proof {
            assert(ks.skip(0) =~= ks);
        }
        let mut i: usize = 0;
        while i < n && base.is_none()
            invariant
                self.wf(),
                *self == *old(self),
                i <= n,
                n == keys@.len(),
                ks == keys@.map_values(|k: Vec<u8>| k@),
                match base {
                    Some(b) => spec_first_set(self.kv(), self.ttl(), now as int, ks)
                        == Some(set_view(b)),
                    None => spec_first_set(self.kv(), self.ttl(), now as int, ks)
                        == spec_first_set(
                        self.kv(),
                        self.ttl(),
                        now as int,
                        ks.skip(i as int),
                    ),
                },
            decreases n - i,
        {
            proof {
                assert(ks.skip(i as int)[0] == ks[i as int]);
                assert(ks[i as int] == keys@[i as int]@);
                assert(ks.skip(i as int).subrange(1, ks.skip(i as int).len() as int)
                    =~= ks.skip(i + 1));
            }
            let expired = self.is_expired_read(&keys[i], now);
            if !expired {
                match self.find_key(&keys[i]) {
                    Some(idx) => match &self.entries[idx].value {
                        Value::SetVal(s) => {
                            base = Some(copy_all(s));
                            proof {
                                assert(self.kv()[ks[i as int]]->SetVal_0 =~= set_view(*s));
                            }
                        }
                        _ => {}
                    },
                    None => {}
                }
            }
            i = i + 1;
        }
        let mut acc: Vec<Vec<u8>>;
        match base {
            Some(b) => {
                acc = b;
            }
            None => {
                proof {
                    assert(ks.skip(n as int) =~= Seq::<Seq<u8>>::empty());
                }
                let f = Frame::Array(Vec::new());
                return f;
            }
        }
        // intersect with every key that holds a set
        let ghost base0 = set_view(acc);
        proof {
            assert(ks.skip(0) =~= ks);
        }
        let mut j: usize = 0;
        while j < n
            invariant
                self.wf(),
                *self == *old(self),
                j <= n,
                n == keys@.len(),
                ks == keys@.map_values(|k: Vec<u8>| k@),
                spec_inter_fold(self.kv(), base0, ks) == spec_inter_fold(
                    self.kv(),
                    set_view(acc),
                    ks.skip(j as int),
                ),
            decreases n - j,
        {
            proof {
                assert(ks.skip(j as int)[0] == ks[j as int]);
                assert(ks[j as int] == keys@[j as int]@);
                assert(ks.skip(j as int).subrange(1, ks.skip(j as int).len() as int)
                    =~= ks.skip(j + 1));
            }
            match self.find_key(&keys[j]) {
                Some(idx) => {
                    let is_set = match &self.entries[idx].value {
                        Value::SetVal(_) => true,
                        _ => false,
                    };
                    if is_set {
                        let members = match &self.entries[idx].value {
                            Value::SetVal(s) => s,
                            _ => unreached(),
                        };
                        let filtered = filter_members(&acc, members, true);
                        proof {
                            assert(self.kv()[ks[j as int]]->SetVal_0 =~= set_view(*members));
                        }
                        acc = filtered;
                    }
                }
                None => {}
            }
            j = j + 1;
        }
        proof {
            assert(ks.skip(n as int) =~= Seq::<Seq<u8>>::empty());
            assert(acc@.map_values(|b: Vec<u8>| b@) =~= set_view(acc));
        }
        let f = bulk_array(acc);
        f
    }

    /// SDIFF: the first key's set less every later key's set; reads only.
    pub fn sdiff(&mut self, keys: &Vec<Vec<u8>>, now: u64) -> (r: Frame)
        requires
            old(self).wf(),
            keys@.len() > 0,
        ensures
            *final(self) == *old(self),
            r@ == ({
                let ks = keys@.map_values(|k: Vec<u8>| k@);
                let k0 = ks[0];
                if is_expired(old(self).ttl(), k0, now as int) {
                    FrameModel::Array(Seq::empty())
                } else {
                    let base: Seq<Seq<u8>> = if old(self).kv().contains_key(k0) && old(
                        self,
                    ).kv()[k0] is SetVal {
                        old(self).kv()[k0]->SetVal_0
                    } else {
                        Seq::empty()
                    };
                    FrameModel::Array(
                        bulks_of(
                            spec_diff_fold(old(self).kv(), base, ks.subrange(
                                1,
                                ks.len() as int,
                            )),
                        ),
                    )
                }
            }),
    {
        let ghost ks = keys@.map_values(|k: Vec<u8>| k@);
        let n = keys.len();
        if self.is_expired_read(&keys[0], now) {
            let f = Frame::Array(Vec::new());
            return f;
        }
        let mut acc: Vec<Vec<u8>>;
        match self.find_key(&keys[0]) {
            Some(idx) => match &self.entries[idx].value {
                Value::SetVal(s) => {
                    acc = copy_all(s);
                    proof {
                        assert(self.kv()[ks[0]]->SetVal_0 =~= set_view(*s));
                        assert(ks[0] == keys@[0]@);
                    }
                }
                _ => {
                    acc = Vec::new();
                    proof {
                        assert(set_view(acc) =~= Seq::<Seq<u8>>::empty());
                    }
                }
            },
            None => {
                acc = Vec::new();
                proof {
                    assert(set_view(acc) =~= Seq::<Seq<u8>>::empty());
                }
            }
        }
        let ghost base0 = set_view(acc);
        proof {
            assert(ks.subrange(1, ks.len() as int) =~= ks.skip(1));
        }
        let mut j: usize = 1;
        while j < n
            invariant
                self.wf(),
                *self == *old(self),
                1 <= j <= n,
                n == keys@.len(),
                ks == keys@.map_values(|k: Vec<u8>| k@),
                spec_diff_fold(self.kv(), base0, ks.subrange(1, ks.len() as int))
                    == spec_diff_fold(self.kv(), set_view(acc), ks.skip(j as int)),
            decreases n - j,
        {
            proof {
                assert(ks.skip(j as int)[0] == ks[j as int]);
                assert(ks[j as int] == keys@[j as int]@);
                assert(ks.skip(j as int).subrange(1, ks.skip(j as int).len() as int)
                    =~= ks.skip(j + 1));
            }
            match self.find_key(&keys[j]) {
                Some(idx) => {
                    let is_set = match &self.entries[idx].value {
                        Value::SetVal(_) => true,
                        _ => false,
                    };
                    if is_set {
                        let members = match &self.entries[idx].value {
                            Value::SetVal(s) => s,
                            _ => unreached(),
                        };
                        let filtered = filter_members(&acc, members, false);
                        proof {
                            assert(self.kv()[ks[j as int]]->SetVal_0 =~= set_view(*members));
                        }
                        acc = filtered;
                    }
                }
                None => {}
            }
            j = j + 1;
        }
        proof {
            assert(ks.skip(n as int) =~= Seq::<Seq<u8>>::empty());
            assert(acc@.map_values(|b: Vec<u8>| b@) =~= set_view(acc));
        }
        let f = bulk_array(acc);
        f
    }
}

/// A fresh copy of every byte string.
pub fn copy_all(src: &Vec<Vec<u8>>) -> (out: Vec<Vec<u8>>)
    ensures
        out@.map_values(|b: Vec<u8>| b@) == src@.map_values(|b: Vec<u8>| b@),
        set_view(out) == set_view(*src),
{
    let mut out: Vec<Vec<u8>> = Vec::new();
    let n = src.len();
    let mut i: usize = 0;
    while i < n
        invariant
            i <= n,
            n == src@.len(),
            out@.len() == i,
            forall|j: int| 0 <= j < i ==> (#[trigger] out@[j])@ == src@[j]@,
        decreases n - i,
    {
        out.push(bytes_clone(&src[i]));
        i = i + 1;
    }
    proof {
        assert(out@.map_values(|b: Vec<u8>| b@) =~= src@.map_values(|b: Vec<u8>| b@));
        assert(set_view(out) =~= set_view(*src));
    }
    out
}

} // verus!
