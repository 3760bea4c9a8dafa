use vstd::prelude::*;

use crate::frame::{Frame, FrameModel};
use crate::replies::{bulk_array, bulks_of, len_i64, len_to_i64, wrongtype_frame, wrongtype_msg};
use crate::score::{score_repr, spec_score_repr};
use crate::store::{purged_kv, purged_ttl, Store};
use crate::store_lists::spec_lrange;
use crate::value::{Value, ValueModel};
use crate::zset::{bytes_clone, zinsert, zmembers, zmembers_in, zremove, zsorted, ZSet};

verus! {

broadcast use vstd::seq::group_seq_axioms;

// ---------------------------------------------------------------------------
// Sorted-set commands, riding on the ordered index.
// ---------------------------------------------------------------------------

/// First index whose member is `m`, if any.
pub open spec fn zfind(z: Seq<(int, Seq<u8>)>, m: Seq<u8>) -> Option<int>
    decreases z.len(),
{
    if z.len() == 0 {
        None
    } else if z[0].1 == m {
        Some(0)
    } else {
        match zfind(z.subrange(1, z.len() as int), m) {
            Some(i) => Some(i + 1),
            None => None,
        }
    }
}

pub proof fn lemma_zfind(z: Seq<(int, Seq<u8>)>, m: Seq<u8>)
    ensures
        match zfind(z, m) {
            Some(i) => 0 <= i < z.len() && z[i].1 == m && forall|j: int|
                0 <= j < i ==> (#[trigger] z[j]).1 != m,
            None => forall|j: int| 0 <= j < z.len() ==> (#[trigger] z[j]).1 != m,
        },
    decreases z.len(),
{
    if z.len() == 0 {
    } else if z[0].1 == m {
    } else {
        let rest = z.subrange(1, z.len() as int);
        lemma_zfind(rest, m);
        assert(forall|j: int| 0 <= j < rest.len() ==> #[trigger] rest[j] == z[j + 1]);
        match zfind(rest, m) {
            Some(i) => {
                assert(z[i + 1].1 == m);
                assert forall|j: int| 0 <= j < i + 1 implies (#[trigger] z[j]).1 != m by {
                    if j > 0 {
                        assert(rest[j - 1] == z[j]);
                    }
                }
            }
            None => {
                assert forall|j: int| 0 <= j < z.len() implies (#[trigger] z[j]).1 != m by {
                    if j > 0 {
                        assert(rest[j - 1] == z[j]);
                    }
                }
            }
        }
    }
}

pub proof fn lemma_zfind_is(z: Seq<(int, Seq<u8>)>, m: Seq<u8>, i: int)
    requires
        0 <= i < z.len(),
        z[i].1 == m,
        forall|j: int| 0 <= j < i ==> (#[trigger] z[j]).1 != m,
    ensures
        zfind(z, m) == Some(i),
{
    lemma_zfind(z, m);
    match zfind(z, m) {
        Some(i2) => {
            if i2 < i {
                assert(z[i2].1 != m);
            } else if i2 > i {
                assert(z[i].1 != m);
            }
        }
        None => {
            assert(z[i].1 != m);
        }
    }
}

/// The unique index of `m` in a duplicate-free index is the first one.
pub proof fn lemma_zfind_unique(z: Seq<(int, Seq<u8>)>, m: Seq<u8>, i: int)
    requires
        zsorted(z),
        0 <= i < z.len(),
        z[i].1 == m,
    ensures
        zfind(z, m) == Some(i),
{
    assert forall|j: int| 0 <= j < i implies (#[trigger] z[j]).1 != m by {
        assert(z[j].1 != z[i].1);
    }
    lemma_zfind_is(z, m, i);
}

/// The members ZREVRANGE answers: the clamped rank range, walked backwards.
pub open spec fn spec_zrevrange(ms: Seq<Seq<u8>>, start: int, end: int) -> Seq<Seq<u8>> {
    let len = ms.len() as int;
    let s0 = if start < 0 { len + start } else { start };
    let e0 = if end < 0 { len + end } else { end };
    let s = if s0 < 0 { 0 } else { s0 };
    let e1 = if e0 < 0 { 0 } else { e0 };
    let e = if e1 >= len { len - 1 } else { e1 };
    if s > e || s >= len {
        Seq::empty()
    } else {
        ms.subrange(len - 1 - e, len - s).reverse()
    }
}

impl Store {
    /// ZADD: writes one member at one score, replacing any previous entry;
    /// always answers 1.
    pub fn zadd(&mut self, key: Vec<u8>, score: i64, member: Vec<u8>, now: u64) -> (r: Frame)
        requires
            old(self).wf(),
        ensures
            final(self).wf(),
            final(self).ttl() == purged_ttl(old(self).ttl(), key@, now as int),
            ({
                let kv1 = purged_kv(old(self).kv(), old(self).ttl(), key@, now as int);
                if !kv1.contains_key(key@) {
                    final(self).kv() == kv1.insert(
                        key@,
                        ValueModel::ZSet(
                            zinsert(zremove(Seq::empty(), member@), score as int, member@),
                        ),
                    ) && r@ == FrameModel::Integer(1)
                } else {
                    match kv1[key@] {
                        ValueModel::ZSet(z) => final(self).kv() == kv1.insert(
                            key@,
                            ValueModel::ZSet(zinsert(zremove(z, member@), score as int, member@)),
                        ) && r@ == FrameModel::Integer(1),
                        _ => final(self).kv() == kv1 && r@ == FrameModel::Error(
                            wrongtype_msg(),
                        ),
                    }
                }
            }),
    {
        self.check_and_purge(&key, now);
        let ghost kv1 = self.kv();
        let ghost kk = key@;
        let mut z: ZSet;
        match self.take_value(&key) {
            Some(v) => match v {
                Value::ZSet(zz) => {
                    z = zz;
                }
                other => {
                    self.put_value(key, other);
                    proof {
                        assert(kv1.remove(kk).insert(kk, kv1[kk]) =~= kv1);
                    }
                    return wrongtype_frame();
                }
            },
            None => {
                z = ZSet::new();
            }
        }
        z.insert(score, member);
        self.put_value(key, Value::ZSet(z));
        Frame::Integer(1)
    }

    /// ZREM: removes one member; answers 1 when it was there.
    pub fn zrem(&mut self, key: &Vec<u8>, member: &Vec<u8>, now: u64) -> (r: Frame)
        requires
            old(self).wf(),
        ensures
            final(self).wf(),
            final(self).ttl() == purged_ttl(old(self).ttl(), key@, now as int),
            ({
                let kv1 = purged_kv(old(self).kv(), old(self).ttl(), key@, now as int);
                if !kv1.contains_key(key@) {
                    final(self).kv() == kv1 && r@ == FrameModel::Integer(0)
                } else {
                    match kv1[key@] {
                        ValueModel::ZSet(z) => final(self).kv() == kv1.insert(
                            key@,
                            ValueModel::ZSet(zremove(z, member@)),
                        ) && r@ == FrameModel::Integer(
                            if exists|i: int| 0 <= i < z.len() && (#[trigger] z[i]).1
                                == member@ {
                                1
                            } else {
                                0
                            },
                        ),
                        _ => final(self).kv() == kv1 && r@ == FrameModel::Error(
                            wrongtype_msg(),
                        ),
                    }
                }
            }),
    {
        self.check_and_purge(key, now);
        let ghost kv1 = self.kv();
        let ghost kk = key@;
        match self.take_value(key) {
            Some(v) => match v {
                Value::ZSet(mut z) => {
                    let removed = z.remove_member(member);
                    self.put_value(bytes_clone(key), Value::ZSet(z));
                    if removed {
                        Frame::Integer(1)
                    } else {
                        Frame::Integer(0)
                    }
                }
                other => {
                    self.put_value(bytes_clone(key), other);
                    proof {
                        assert(kv1.remove(kk).insert(kk, kv1[kk]) =~= kv1);
                    }
                    wrongtype_frame()
                }
            },
            None => Frame::Integer(0),
        }
    }

    /// ZCARD: how many members the index holds.
    pub fn zcard(&mut self, key: &Vec<u8>, now: u64) -> (r: Frame)
        requires
            old(self).wf(),
        ensures
            final(self).wf(),
            final(self).kv() == purged_kv(old(self).kv(), old(self).ttl(), key@, now as int),
            final(self).ttl() == purged_ttl(old(self).ttl(), key@, now as int),
            r@ == ({
                let kv1 = final(self).kv();
                if !kv1.contains_key(key@) {
                    FrameModel::Integer(0)
                } else {
                    match kv1[key@] {
                        ValueModel::ZSet(z) => FrameModel::Integer(len_i64(z.len() as int)),
                        _ => FrameModel::Error(wrongtype_msg()),
                    }
                }
            }),
    {
        if self.check_and_purge(key, now) {
            return Frame::Integer(0);
        }
        match self.find_key(key) {
            Some(i) => match &self.entries[i].value {
                Value::ZSet(z) => Frame::Integer(len_to_i64(z.len())),
                _ => wrongtype_frame(),
            },
            None => Frame::Integer(0),
        }
    }

    /// ZSCORE: the member's score rendered as a decimal bulk; Null when
    /// absent.
    pub fn zscore(&mut self, key: &Vec<u8>, member: &Vec<u8>, now: u64) -> (r: Frame)
        requires
            old(self).wf(),
        ensures
            final(self).wf(),
            final(self).kv() == purged_kv(old(self).kv(), old(self).ttl(), key@, now as int),
            final(self).ttl() == purged_ttl(old(self).ttl(), key@, now as int),
            r@ == ({
                let kv1 = final(self).kv();
                if !kv1.contains_key(key@) {
                    FrameModel::Null
                } else {
                    match kv1[key@] {
                        ValueModel::ZSet(z) => match zfind(z, member@) {
                            Some(i) => FrameModel::Bulk(spec_score_repr(z[i].0)),
                            None => FrameModel::Null,
                        },
                        _ => FrameModel::Error(wrongtype_msg()),
                    }
                }
            }),
    {
        if self.check_and_purge(key, now) {
            return Frame::Null;
        }
        match self.find_key(key) {
            Some(i) => match &self.entries[i].value {
                Value::ZSet(z) => {
                    proof {
                        assert(wf_value_of(self, i as int));
                    }
                    match z.get_score(member) {
                        Some(sc) => {
                            proof {
                                let zz = z@;
                                let wi = choose|x: int|
                                    0 <= x < zz.len() && #[trigger] zz[x] == (
                                    sc as int,
                                    member@,
                                );
                                lemma_zfind_unique(zz, member@, wi);
                            }
                            Frame::Bulk(score_repr(sc))
                        }
                        None => {
                            proof {
                                lemma_zfind(z@, member@);
                                if zfind(z@, member@) is Some {
                                    let p = zfind(z@, member@)->Some_0;
                                    assert(0 <= p < z@.len() && z@[p].1 == member@);
                                }
                            }
                            Frame::Null
                        }
                    }
                }
                _ => wrongtype_frame(),
            },
            None => Frame::Null,
        }
    }

    /// ZRANK: the member's 0-based ascending position; Null when absent.
    pub fn zrank(&mut self, key: &Vec<u8>, member: &Vec<u8>, now: u64) -> (r: Frame)
        requires
            old(self).wf(),
        ensures
            final(self).wf(),
            final(self).kv() == purged_kv(old(self).kv(), old(self).ttl(), key@, now as int),
            final(self).ttl() == purged_ttl(old(self).ttl(), key@, now as int),
            r@ == ({
                let kv1 = final(self).kv();
                if !kv1.contains_key(key@) {
                    FrameModel::Null
                } else {
                    match kv1[key@] {
                        ValueModel::ZSet(z) => match zfind(z, member@) {
                            Some(i) => FrameModel::Integer(len_i64(i)),
                            None => FrameModel::Null,
                        },
                        _ => FrameModel::Error(wrongtype_msg()),
                    }
                }
            }),
    {
        if self.check_and_purge(key, now) {
            return Frame::Null;
        }
        match self.find_key(key) {
            Some(i) => match &self.entries[i].value {
                Value::ZSet(z) => {
                    proof {
                        assert(wf_value_of(self, i as int));
                    }
                    match z.rank(member) {
                        Some(rk) => {
                            proof {
                                lemma_zfind_unique(z@, member@, rk as int);
                            }
                            Frame::Integer(len_to_i64(rk))
                        }
                        None => {
                            proof {
                                lemma_zfind(z@, member@);
                                if zfind(z@, member@) is Some {
                                    let p = zfind(z@, member@)->Some_0;
                                    assert(0 <= p < z@.len() && z@[p].1 == member@);
                                }
                            }
                            Frame::Null
                        }
                    }
                }
                _ => wrongtype_frame(),
            },
            None => Frame::Null,
        }
    }

    /// ZREVRANK: the member's 0-based descending position; Null when absent.
    pub fn zrevrank(&mut self, key: &Vec<u8>, member: &Vec<u8>, now: u64) -> (r: Frame)
        requires
            old(self).wf(),
        ensures
            final(self).wf(),
            final(self).kv() == purged_kv(old(self).kv(), old(self).ttl(), key@, now as int),
            final(self).ttl() == purged_ttl(old(self).ttl(), key@, now as int),
            r@ == ({
                let kv1 = final(self).kv();
                if !kv1.contains_key(key@) {
                    FrameModel::Null
                } else {
                    match kv1[key@] {
                        ValueModel::ZSet(z) => match zfind(z, member@) {
                            Some(i) => FrameModel::Integer(len_i64(z.len() - 1 - i)),
                            None => FrameModel::Null,
                        },
                        _ => FrameModel::Error(wrongtype_msg()),
                    }
                }
            }),
    {
        if self.check_and_purge(key, now) {
            return Frame::Null;
        }
        match self.find_key(key) {
            Some(i) => match &self.entries[i].value {
                Value::ZSet(z) => {
                    proof {
                        assert(wf_value_of(self, i as int));
                    }
                    match z.rank(member) {
                        Some(rk) => {
                            proof {
                                lemma_zfind_unique(z@, member@, rk as int);
                            }
                            let rev = z.len() - 1 - rk;
                            Frame::Integer(len_to_i64(rev))
                        }
                        None => {
                            proof {
                                lemma_zfind(z@, member@);
                                if zfind(z@, member@) is Some {
                                    let p = zfind(z@, member@)->Some_0;
                                    assert(0 <= p < z@.len() && z@[p].1 == member@);
                                }
                            }
                            Frame::Null
                        }
                    }
                }
                _ => wrongtype_frame(),
            },
            None => Frame::Null,
        }
    }

    /// ZRANGE: the members between two clamped rank bounds, ascending.
    pub fn zrange(&mut self, key: &Vec<u8>, start: i64, end: i64, now: u64) -> (r: Frame)
        requires
            old(self).wf(),
        ensures
            final(self).wf(),
            final(self).kv() == purged_kv(old(self).kv(), old(self).ttl(), key@, now as int),
            final(self).ttl() == purged_ttl(old(self).ttl(), key@, now as int),
            r@ == ({
                let kv1 = final(self).kv();
                if !kv1.contains_key(key@) {
                    FrameModel::Array(Seq::empty())
                } else {
                    match kv1[key@] {
                        ValueModel::ZSet(z) => FrameModel::Array(
                            bulks_of(spec_lrange(zmembers(z), start as int, end as int)),
                        ),
                        _ => FrameModel::Error(wrongtype_msg()),
                    }
                }
            }),
    {
        if self.check_and_purge(key, now) {
            return Frame::Array(Vec::new());
        }
        match self.find_key(key) {
            Some(i) => match &self.entries[i].value {
                Value::ZSet(z) => {
                    match crate::store_lists::resolve_range(z.len(), start, end) {
                        Some(p) => {
                            let items = z.range_by_rank(p.0, p.1);
                            let f = bulk_array(items);
                            proof {
                                assert(spec_lrange(zmembers(z@), start as int, end as int)
                                    =~= zmembers(z@).subrange(p.0 as int, p.1 + 1));
                            }
                            f
                        }
                        None => {
                            let f = Frame::Array(Vec::new());
                            proof {
                                assert(spec_lrange(zmembers(z@), start as int, end as int)
                                    =~= Seq::<Seq<u8>>::empty());
                                assert(bulks_of(Seq::<Seq<u8>>::empty())
                                    =~= Seq::<FrameModel>::empty());
                            }
                            f
                        }
                    }
                }
                _ => wrongtype_frame(),
            },
            None => Frame::Array(Vec::new()),
        }
    }

    /// ZREVRANGE: the members between two clamped rank bounds, descending.
    pub fn zrevrange(&mut self, key: &Vec<u8>, start: i64, end: i64, now: u64) -> (r: Frame)
        requires
            old(self).wf(),
        ensures
            final(self).wf(),
            final(self).kv() == purged_kv(old(self).kv(), old(self).ttl(), key@, now as int),
            final(self).ttl() == purged_ttl(old(self).ttl(), key@, now as int),
            r@ == ({
                let kv1 = final(self).kv();
                if !kv1.contains_key(key@) {
                    FrameModel::Array(Seq::empty())
                } else {
                    match kv1[key@] {
                        ValueModel::ZSet(z) => FrameModel::Array(
                            bulks_of(spec_zrevrange(zmembers(z), start as int, end as int)),
                        ),
                        _ => FrameModel::Error(wrongtype_msg()),
                    }
                }
            }),
    {
        if self.check_and_purge(key, now) {
            return Frame::Array(Vec::new());
        }
        match self.find_key(key) {
            Some(i) => match &self.entries[i].value {
                Value::ZSet(z) => {
                    match crate::store_lists::resolve_range(z.len(), start, end) {
                        Some(p) => {
                            let len = z.len();
                            let lo = len - 1 - p.1;
                            let hi = len - 1 - p.0;
                            let items = z.range_by_rank(lo, hi);
                            let ghost iv = items@.map_values(|b: Vec<u8>| b@);
                            // walk the slice backwards
                            let mut rev: Vec<Vec<u8>> = Vec::new();
                            let m = items.len();
                            let mut it = items;
                            while it.len() > 0
                                invariant
                                    rev@.len() + it@.len() == m,
                                    m == iv.len(),
                                    forall|x: int|
                                        0 <= x < it@.len() ==> (#[trigger] it@[x])@ == iv[x],
                                    forall|x: int|
                                        0 <= x < rev@.len() ==> (#[trigger] rev@[x])@ == iv[
                                        m - 1 - x],
                                decreases it@.len(),
                            {
                                match it.pop() {
                                    Some(b) => {
                                        rev.push(b);
                                    }
                                    None => {}
                                }
                            }
                            let f = bulk_array(rev);
                            proof {
                                let ms = zmembers(z@);
                                assert(iv =~= ms.subrange(lo as int, hi + 1));
                                assert(rev@.map_values(|b: Vec<u8>| b@) =~= spec_zrevrange(
                                    ms,
                                    start as int,
                                    end as int,
                                ));
                            }
                            f
                        }
                        None => {
                            let f = Frame::Array(Vec::new());
                            proof {
                                assert(spec_zrevrange(zmembers(z@), start as int, end as int)
                                    =~= Seq::<Seq<u8>>::empty());
                                assert(bulks_of(Seq::<Seq<u8>>::empty())
                                    =~= Seq::<FrameModel>::empty());
                            }
                            f
                        }
                    }
                }
                _ => wrongtype_frame(),
            },
            None => Frame::Array(Vec::new()),
        }
    }

    /// ZRANGEBYSCORE: the members whose score lies in the inclusive range.
    pub fn zrange_by_score(&mut self, key: &Vec<u8>, min: i64, max: i64, now: u64) -> (r: Frame)
        requires
            old(self).wf(),
        ensures
            final(self).wf(),
            final(self).kv() == purged_kv(old(self).kv(), old(self).ttl(), key@, now as int),
            final(self).ttl() == purged_ttl(old(self).ttl(), key@, now as int),
            r@ == ({
                let kv1 = final(self).kv();
                if !kv1.contains_key(key@) {
                    FrameModel::Array(Seq::empty())
                } else {
                    match kv1[key@] {
                        ValueModel::ZSet(z) => FrameModel::Array(
                            bulks_of(zmembers_in(z, min as int, max as int)),
                        ),
                        _ => FrameModel::Error(wrongtype_msg()),
                    }
                }
            }),
    {
        self.check_and_purge(key, now);
        match self.find_key(key) {
            Some(i) => match &self.entries[i].value {
                Value::ZSet(z) => {
                    let items = z.range_by_score(min, max);
                    bulk_array(items)
                }
                _ => wrongtype_frame(),
            },
            None => Frame::Array(Vec::new()),
        }
    }

    /// ZREMRANGEBYSCORE: removes the members in the inclusive score range;
    /// answers how many left.
    pub fn zremrangebyscore(&mut self, key: &Vec<u8>, min: i64, max: i64, now: u64) -> (r: Frame)
        requires
            old(self).wf(),
        ensures
            final(self).wf(),
            final(self).ttl() == purged_ttl(old(self).ttl(), key@, now as int),
            ({
                let kv1 = purged_kv(old(self).kv(), old(self).ttl(), key@, now as int);
                if !kv1.contains_key(key@) {
                    final(self).kv() == kv1 && r@ == FrameModel::Integer(0)
                } else {
                    match kv1[key@] {
                        ValueModel::ZSet(z) => {
                            let kept = z.filter(
                                crate::zset::score_out(min as int, max as int),
                            );
                            final(self).kv() == kv1.insert(key@, ValueModel::ZSet(kept))
                                && r@ == FrameModel::Integer(len_i64(z.len() - kept.len()))
                        },
                        _ => final(self).kv() == kv1 && r@ == FrameModel::Error(
                            wrongtype_msg(),
                        ),
                    }
                }
            }),
    {
        if self.check_and_purge(key, now) {
            return Frame::Integer(0);
        }
        let ghost kv1 = self.kv();
        let ghost kk = key@;
        match self.take_value(key) {
            Some(v) => match v {
                Value::ZSet(mut z) => {
                    let removed = z.remove_range_by_score(min, max);
                    self.put_value(bytes_clone(key), Value::ZSet(z));
                    Frame::Integer(len_to_i64(removed))
                }
                other => {
                    self.put_value(bytes_clone(key), other);
                    proof {
                        assert(kv1.remove(kk).insert(kk, kv1[kk]) =~= kv1);
                    }
                    wrongtype_frame()
                }
            },
            None => Frame::Integer(0),
        }
    }

    /// ZCOUNT: how many members have a score in the inclusive range.
    pub fn zcount(&mut self, key: &Vec<u8>, min: i64, max: i64, now: u64) -> (r: Frame)
        requires
            old(self).wf(),
        ensures
            final(self).wf(),
            final(self).kv() == purged_kv(old(self).kv(), old(self).ttl(), key@, now as int),
            final(self).ttl() == purged_ttl(old(self).ttl(), key@, now as int),
            r@ == ({
                let kv1 = final(self).kv();
                if !kv1.contains_key(key@) {
                    FrameModel::Integer(0)
                } else {
                    match kv1[key@] {
                        ValueModel::ZSet(z) => FrameModel::Integer(
                            len_i64(zmembers_in(z, min as int, max as int).len() as int),
                        ),
                        _ => FrameModel::Error(wrongtype_msg()),
                    }
                }
            }),
    {
        if self.check_and_purge(key, now) {
            return Frame::Integer(0);
        }
        match self.find_key(key) {
            Some(i) => match &self.entries[i].value {
                Value::ZSet(z) => {
                    let items = z.range_by_score(min, max);
                    Frame::Integer(len_to_i64(items.len()))
                }
                _ => wrongtype_frame(),
            },
            None => Frame::Integer(0),
        }
    }
}

/// The structural invariant of the value at entry `i`.
pub open spec fn wf_value_of(s: &Store, i: int) -> bool {
    0 <= i < s.entries@.len() && crate::store::wf_value(s.entries@[i].value@)
}

} // verus!
