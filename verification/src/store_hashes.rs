use vstd::prelude::*;

use crate::frame::{frames_view, lemma_array_view, Frame, FrameModel};
use crate::replies::{bulk_array, bulks_of, len_i64, len_to_i64, wrongtype_frame, wrongtype_msg};
use crate::store::{purged_kv, purged_ttl, Store};
use crate::value::{assoc_get, assoc_idx, assoc_unique, lemma_assoc_idx, lemma_assoc_idx_is,
    HashField, Value, ValueModel};
use crate::zset::{bytes_clone, bytes_eq};

verus! {

broadcast use vstd::seq::group_seq_axioms;

// ---------------------------------------------------------------------------
// Hash commands. A hash is a field-to-value table held in insertion order.
// ---------------------------------------------------------------------------

pub open spec fn hash_view(fields: Vec<HashField>) -> Seq<(Seq<u8>, Seq<u8>)> {
    Seq::new(fields@.len(), |i: int| (fields@[i].field@, fields@[i].value@))
}

/// The table HSET leaves, and 1 exactly when the field was new.
pub open spec fn spec_hset(h: Seq<(Seq<u8>, Seq<u8>)>, f: Seq<u8>, v: Seq<u8>) -> (
    Seq<(Seq<u8>, Seq<u8>)>,
    int,
) {
    match assoc_idx(h, f) {
        Some(i) => (h.update(i, (f, v)), 0),
        None => (h.push((f, v)), 1),
    }
}

/// The table with `f` dropped.
pub open spec fn spec_hremove(h: Seq<(Seq<u8>, Seq<u8>)>, f: Seq<u8>) -> Seq<(Seq<u8>, Seq<u8>)> {
    match assoc_idx(h, f) {
        Some(i) => h.take(i) + h.skip(i + 1),
        None => h,
    }
}

/// The table HDEL leaves and how many fields it removed.
pub open spec fn spec_hdel(h: Seq<(Seq<u8>, Seq<u8>)>, fs: Seq<Seq<u8>>) -> (
    Seq<(Seq<u8>, Seq<u8>)>,
    int,
)
    decreases fs.len(),
{
    if fs.len() == 0 {
        (h, 0)
    } else {
        let hit: int = if assoc_idx(h, fs[0]) is Some {
            1
        } else {
            0
        };
        let rec = spec_hdel(spec_hremove(h, fs[0]), fs.subrange(1, fs.len() as int));
        (rec.0, hit + rec.1)
    }
}

pub proof fn lemma_hdel_push(h: Seq<(Seq<u8>, Seq<u8>)>, fs: Seq<Seq<u8>>, x: Seq<u8>)
    ensures
        spec_hdel(h, fs.push(x)) == ({
            let mid = spec_hdel(h, fs);
            let hit: int = if assoc_idx(mid.0, x) is Some {
                1
            } else {
                0
            };
            (spec_hremove(mid.0, x), mid.1 + hit)
        }),
    decreases fs.len(),
{
    if fs.len() == 0 {
        assert(fs.push(x)[0] == x);
        assert(fs.push(x).subrange(1, 1) =~= Seq::<Seq<u8>>::empty());
        assert(spec_hdel(spec_hremove(h, x), fs.push(x).subrange(1, 1)) == (
            spec_hremove(h, x),
            0int,
        ));
        assert(spec_hdel(h, fs) == (h, 0int));
    } else {
        assert(fs.push(x)[0] == fs[0]);
        let h1 = spec_hremove(h, fs[0]);
        let tail = fs.subrange(1, fs.len() as int);
        assert(fs.push(x).subrange(1, fs.len() as int + 1) =~= tail.push(x));
        lemma_hdel_push(h1, tail, x);
        let ghost hit0: int = if assoc_idx(h, fs[0]) is Some {
            1
        } else {
            0
        };
        assert(spec_hdel(h, fs.push(x)) == (
            spec_hdel(h1, tail.push(x)).0,
            hit0 + spec_hdel(h1, tail.push(x)).1,
        ));
        assert(spec_hdel(h, fs) == (spec_hdel(h1, tail).0, hit0 + spec_hdel(h1, tail).1));
    }
}

/// The flat field/value bulk list HGETALL answers.
pub open spec fn spec_hgetall(h: Seq<(Seq<u8>, Seq<u8>)>) -> Seq<FrameModel>
    decreases h.len(),
{
    if h.len() == 0 {
        Seq::empty()
    } else {
        spec_hgetall(h.drop_last()) + seq![
            FrameModel::Bulk(h.last().0),
            FrameModel::Bulk(h.last().1),
        ]
    }
}

/// One HMGET reply element per asked field.
pub open spec fn spec_hmget(h: Seq<(Seq<u8>, Seq<u8>)>, fs: Seq<Seq<u8>>) -> Seq<FrameModel> {
    fs.map_values(
        |f: Seq<u8>|
            match assoc_get(h, f) {
                Some(v) => FrameModel::Bulk(v),
                None => FrameModel::Null,
            },
    )
}

/// First index of `f` among the fields.
fn hfind(fields: &Vec<HashField>, f: &Vec<u8>) -> (r: Option<usize>)
    ensures
        match r {
            Some(i) => assoc_idx(hash_view(*fields), f@) == Some(i as int) && i
                < fields@.len() && fields@[i as int].field@ == f@,
            None => assoc_idx(hash_view(*fields), f@) is None,
        },
{
    let n = fields.len();
    let mut i: usize = 0;
    while i < n
        invariant
            i <= n,
            n == fields@.len(),
            forall|j: int| 0 <= j < i ==> (#[trigger] fields@[j]).field@ != f@,
        decreases n - i,
    {
        if bytes_eq(&fields[i].field, f) {
            proof {
                lemma_assoc_idx_is(hash_view(*fields), f@, i as int);
            }
            return Some(i);
        }
        i = i + 1;
    }
    proof {
        lemma_assoc_idx(hash_view(*fields), f@);
        if assoc_idx(hash_view(*fields), f@) is Some {
            let p = assoc_idx(hash_view(*fields), f@)->Some_0;
            assert(hash_view(*fields)[p].0 != f@);
        }
    }
    None
}

impl Store {
    /// HSET: writes one field; answers 1 when the field was new.
    pub fn hset(&mut self, key: Vec<u8>, field: Vec<u8>, val: Vec<u8>, now: u64) -> (r: Frame)
        requires
            old(self).wf(),
        ensures
            final(self).wf(),
            final(self).ttl() == purged_ttl(old(self).ttl(), key@, now as int),
            ({
                let kv1 = purged_kv(old(self).kv(), old(self).ttl(), key@, now as int);
                if !kv1.contains_key(key@) {
                    let p = spec_hset(Seq::empty(), field@, val@);
                    final(self).kv() == kv1.insert(key@, ValueModel::Hash(p.0)) && r@
                        == FrameModel::Integer(p.1)
                } else {
                    match kv1[key@] {
                        ValueModel::Hash(h) => {
                            let p = spec_hset(h, field@, val@);
                            final(self).kv() == kv1.insert(key@, ValueModel::Hash(p.0)) && r@
                                == FrameModel::Integer(p.1)
                        },
                        _ => final(self).kv() == kv1 && r@ == FrameModel::Error(
                            wrongtype_msg(),
                        ),
                    }
                }
            }),
    {
        self.check_and_purge(&key, now);
        let ghost kv1 = self.kv();
        let ghost kk = key@;
        let mut fields: Vec<HashField>;
        match self.take_value(&key) {
            Some(v) => match v {
                Value::Hash(h) => {
                    fields = h;
                    proof {
                        assert(hash_view(fields) =~= kv1[kk]->Hash_0);
                    }
                }
                other => {
                    self.put_value(key, other);
                    proof {
                        assert(kv1.remove(kk).insert(kk, kv1[kk]) =~= kv1);
                    }
                    return wrongtype_frame();
                }
            },
            None => {
                fields = Vec::new();
                proof {
                    assert(hash_view(fields) =~= Seq::<(Seq<u8>, Seq<u8>)>::empty());
                }
            }
        }
        let ghost h0 = hash_view(fields);
        let ghost ff = field@;
        let ghost vv = val@;
        let reply: i64;
        match hfind(&fields, &field) {
            Some(i) => {
                fields.remove(i);
                fields.insert(i, HashField { field, value: val });
                reply = 0;
                proof {
                    assert(hash_view(fields) =~= h0.update(i as int, (ff, vv)));
                    assert(h0[i as int].0 == ff);
                    let h1 = hash_view(fields);
                    assert(forall|j: int| 0 <= j < h1.len() ==> (#[trigger] h1[j]).0 == h0[j].0);
                    assert(assoc_unique(h1));
                }
            }
            None => {
                fields.push(HashField { field, value: val });
                reply = 1;
                proof {
                    assert(hash_view(fields) =~= h0.push((ff, vv)));
                    let h1 = hash_view(fields);
                    lemma_assoc_idx(h0, ff);
                    assert forall|a: int, b: int| 0 <= a < b < h1.len() implies (
                    #[trigger] h1[a]).0 != (#[trigger] h1[b]).0 by {
                        if b == h1.len() - 1 {
                            assert(h1[a] == h0[a]);
                            assert(h0[a].0 != ff);
                        } else {
                            assert(h1[a] == h0[a]);
                            assert(h1[b] == h0[b]);
                        }
                    }
                }
            }
        }
        self.put_value(key, Value::Hash(fields));
        Frame::Integer(reply)
    }

    /// HGET: the value under one field, Null when either is missing.
    pub fn hget(&mut self, key: &Vec<u8>, field: &Vec<u8>, now: u64) -> (r: Frame)
        requires
            old(self).wf(),
        ensures
            final(self).wf(),
            final(self).kv() == purged_kv(old(self).kv(), old(self).ttl(), key@, now as int),
            final(self).ttl() == purged_ttl(old(self).ttl(), key@, now as int),
            r@ == ({
                let kv1 = final(self).kv();
                if !kv1.contains_key(key@) {
                    FrameModel::Null
                } else {
                    match kv1[key@] {
                        ValueModel::Hash(h) => match assoc_get(h, field@) {
                            Some(v) => FrameModel::Bulk(v),
                            None => FrameModel::Null,
                        },
                        _ => FrameModel::Error(wrongtype_msg()),
                    }
                }
            }),
    {
        if self.check_and_purge(key, now) {
            return Frame::Null;
        }
        match self.find_key(key) {
            Some(i) => match &self.entries[i].value {
                Value::Hash(h) => match hfind(h, field) {
                    Some(j) => Frame::Bulk(bytes_clone(&h[j].value)),
                    None => Frame::Null,
                },
                _ => wrongtype_frame(),
            },
            None => Frame::Null,
        }
    }

    /// HDEL: removes each named field; answers how many were present.
    pub fn hdel(&mut self, key: &Vec<u8>, fields: &Vec<Vec<u8>>, now: u64) -> (r: Frame)
        requires
            old(self).wf(),
        ensures
            final(self).wf(),
            final(self).ttl() == purged_ttl(old(self).ttl(), key@, now as int),
            ({
                let kv1 = purged_kv(old(self).kv(), old(self).ttl(), key@, now as int);
                let fs = fields@.map_values(|f: Vec<u8>| f@);
                if !kv1.contains_key(key@) {
                    final(self).kv() == kv1 && r@ == FrameModel::Integer(0)
                } else {
                    match kv1[key@] {
                        ValueModel::Hash(h) => final(self).kv() == kv1.insert(
                            key@,
                            ValueModel::Hash(spec_hdel(h, fs).0),
                        ) && r@ == FrameModel::Integer(len_i64(spec_hdel(h, fs).1)),
                        _ => final(self).kv() == kv1 && r@ == FrameModel::Error(
                            wrongtype_msg(),
                        ),
                    }
                }
            }),
    {
        if self.check_and_purge(key, now) {
            return Frame::Integer(0);
        }
        let ghost kv1 = self.kv();
        let ghost kk = key@;
        let ghost fs = fields@.map_values(|f: Vec<u8>| f@);
        match self.take_value(key) {
            Some(v) => match v {
                Value::Hash(mut table) => {
                    proof {
                        assert(hash_view(table) =~= kv1[kk]->Hash_0);
                    }
                    let ghost h0 = hash_view(table);
                    let n = fields.len();
                    let mut removed: u64 = 0;
                    let mut i: usize = 0;
                    while i < n
                        invariant
                            i <= n,
                            n == fields@.len(),
                            fs == fields@.map_values(|f: Vec<u8>| f@),
                            removed <= i,
                            assoc_unique(hash_view(table)),
                            hash_view(table) == spec_hdel(h0, fs.take(i as int)).0,
                            removed == spec_hdel(h0, fs.take(i as int)).1,
                        decreases n - i,
                    {
                        let ghost cur = hash_view(table);
                        proof {
                            assert(fs.take(i + 1) =~= fs.take(i as int).push(fs[i as int]));
                            lemma_hdel_push(h0, fs.take(i as int), fs[i as int]);
                            assert(fs[i as int] == fields@[i as int]@);
                        }
                        match hfind(&table, &fields[i]) {
                            Some(j) => {
                                table.remove(j);
                                removed = removed + 1;
                                proof {
                                    assert(hash_view(table) =~= cur.take(j as int) + cur.skip(
                                        j + 1,
                                    ));
                                    assert(hash_view(table) =~= spec_hremove(
                                        cur,
                                        fs[i as int],
                                    ));
                                    assert forall|a: int, b: int|
                                        0 <= a < b < hash_view(table).len() implies (
                                    #[trigger] hash_view(table)[a]).0 != (
                                    #[trigger] hash_view(table)[b]).0 by {
                                        let a0 = if a < j { a } else { a + 1 };
                                        let b0 = if b < j { b } else { b + 1 };
                                        assert(hash_view(table)[a] == cur[a0]);
                                        assert(hash_view(table)[b] == cur[b0]);
                                    }
                                }
                            }
                            None => {
                                proof {
                                    assert(hash_view(table) =~= spec_hremove(
                                        cur,
                                        fs[i as int],
                                    ));
                                }
                            }
                        }
                        i = i + 1;
                    }
                    proof {
                        assert(fs.take(n as int) =~= fs);
                    }
                    let count = crate::replies::u64_to_i64_sat(removed);
                    self.put_value(bytes_clone(key), Value::Hash(table));
                    Frame::Integer(count)
                }
                other => {
                    self.put_value(bytes_clone(key), other);
                    proof {
                        assert(kv1.remove(kk).insert(kk, kv1[kk]) =~= kv1);
                    }
                    wrongtype_frame()
                }
            },
            None => Frame::Integer(0),
        }
    }

    /// HGETALL: alternating field and value bulks, in table order.
    pub fn hgetall(&mut self, key: &Vec<u8>, now: u64) -> (r: Frame)
        requires
            old(self).wf(),
        ensures
            final(self).wf(),
            final(self).kv() == purged_kv(old(self).kv(), old(self).ttl(), key@, now as int),
            final(self).ttl() == purged_ttl(old(self).ttl(), key@, now as int),
            r@ == ({
                let kv1 = final(self).kv();
                if !kv1.contains_key(key@) {
                    FrameModel::Array(Seq::empty())
                } else {
                    match kv1[key@] {
                        ValueModel::Hash(h) => FrameModel::Array(spec_hgetall(h)),
                        _ => FrameModel::Error(wrongtype_msg()),
                    }
                }
            }),
    {
        if self.check_and_purge(key, now) {
            return Frame::Array(Vec::new());
        }
        match self.find_key(key) {
            Some(i) => match &self.entries[i].value {
                Value::Hash(h) => {
                    let ghost hv = hash_view(*h);
                    let mut frames: Vec<Frame> = Vec::new();
                    let n = h.len();
                    let mut j: usize = 0;
                    while j < n
                        invariant
                            j <= n,
                            n == h@.len(),
                            hv == hash_view(*h),
                            frames_view(frames) == spec_hgetall(hv.take(j as int)),
                        decreases n - j,
                    {
                        let ghost before = frames_view(frames);
                        frames.push(Frame::Bulk(bytes_clone(&h[j].field)));
                        frames.push(Frame::Bulk(bytes_clone(&h[j].value)));
                        proof {
                            assert(frames_view(frames) =~= before + seq![
                                FrameModel::Bulk(hv[j as int].0),
                                FrameModel::Bulk(hv[j as int].1),
                            ]);
                            assert(hv.take(j + 1).drop_last() =~= hv.take(j as int));
                            assert(hv.take(j + 1).last() == hv[j as int]);
                        }
                        j = j + 1;
                    }
                    proof {
                        assert(hv.take(n as int) =~= hv);
                        lemma_array_view(frames);
                    }
                    Frame::Array(frames)
                }
                _ => wrongtype_frame(),
            },
            None => Frame::Array(Vec::new()),
        }
    }

    /// HMGET: one reply element per asked field.
    pub fn hmget(&mut self, key: &Vec<u8>, fields: &Vec<Vec<u8>>, now: u64) -> (r: Frame)
        requires
            old(self).wf(),
        ensures
            final(self).wf(),
            final(self).kv() == purged_kv(old(self).kv(), old(self).ttl(), key@, now as int),
            final(self).ttl() == purged_ttl(old(self).ttl(), key@, now as int),
            r@ == ({
                let kv1 = final(self).kv();
                let fs = fields@.map_values(|f: Vec<u8>| f@);
                if !kv1.contains_key(key@) {
                    FrameModel::Array(Seq::new(fs.len(), |i: int| FrameModel::Null))
                } else {
                    match kv1[key@] {
                        ValueModel::Hash(h) => FrameModel::Array(spec_hmget(h, fs)),
                        _ => FrameModel::Error(wrongtype_msg()),
                    }
                }
            }),
    {
        let ghost fs = fields@.map_values(|f: Vec<u8>| f@);
        if self.check_and_purge(key, now) {
            let mut frames: Vec<Frame> = Vec::new();
            let n = fields.len();
            let mut j: usize = 0;
            while j < n
                invariant
                    j <= n,
                    frames@.len() == j,
                    forall|i: int| 0 <= i < j ==> (#[trigger] frames@[i])@ == FrameModel::Null,
                decreases n - j,
            {
                frames.push(Frame::Null);
                j = j + 1;
            }
            proof {
                lemma_array_view(frames);
                assert(frames_view(frames) =~= Seq::new(fs.len(), |i: int| FrameModel::Null));
            }
            return Frame::Array(frames);
        }
        match self.find_key(key) {
            Some(i) => match &self.entries[i].value {
                Value::Hash(h) => {
                    let mut frames: Vec<Frame> = Vec::new();
                    let n = fields.len();
                    let mut j: usize = 0;
                    while j < n
                        invariant
                            j <= n,
                            n == fields@.len(),
                            fs == fields@.map_values(|f: Vec<u8>| f@),
                            frames@.len() == j,
                            forall|x: int|
                                0 <= x < j ==> (#[trigger] frames@[x])@ == (match assoc_get(
                                    hash_view(*h),
                                    fs[x],
                                ) {
                                    Some(v) => FrameModel::Bulk(v),
                                    None => FrameModel::Null,
                                }),
                        decreases n - j,
                    {
                        let f = match hfind(h, &fields[j]) {
                            Some(x) => Frame::Bulk(bytes_clone(&h[x].value)),
                            None => Frame::Null,
                        };
                        proof {
                            assert(fs[j as int] == fields@[j as int]@);
                        }
                        frames.push(f);
                        j = j + 1;
                    }
                    proof {
                        lemma_array_view(frames);
                        assert(frames_view(frames) =~= spec_hmget(hash_view(*h), fs));
                    }
                    Frame::Array(frames)
                }
                _ => wrongtype_frame(),
            },
            None => {
                let mut frames: Vec<Frame> = Vec::new();
                let n = fields.len();
                let mut j: usize = 0;
                while j < n
                    invariant
                        j <= n,
                        frames@.len() == j,
                        forall|i: int| 0 <= i < j ==> (#[trigger] frames@[i])@ == FrameModel::Null,
                    decreases n - j,
                {
                    frames.push(Frame::Null);
                    j = j + 1;
                }
                proof {
                    lemma_array_view(frames);
                    assert(frames_view(frames) =~= Seq::new(
                        fs.len(),
                        |i: int| FrameModel::Null,
                    ));
                }
                Frame::Array(frames)
            }
        }
    }

    /// HEXISTS: 1 exactly when the field is present.
    pub fn hexists(&mut self, key: &Vec<u8>, field: &Vec<u8>, now: u64) -> (r: Frame)
        requires
            old(self).wf(),
        ensures
            final(self).wf(),
            final(self).kv() == purged_kv(old(self).kv(), old(self).ttl(), key@, now as int),
            final(self).ttl() == purged_ttl(old(self).ttl(), key@, now as int),
            r@ == ({
                let kv1 = final(self).kv();
                if !kv1.contains_key(key@) {
                    FrameModel::Integer(0)
                } else {
                    match kv1[key@] {
                        ValueModel::Hash(h) => FrameModel::Integer(
                            if assoc_idx(h, field@) is Some {
                                1
                            } else {
                                0
                            },
                        ),
                        _ => FrameModel::Error(wrongtype_msg()),
                    }
                }
            }),
    {
        if self.check_and_purge(key, now) {
            return Frame::Integer(0);
        }
        match self.find_key(key) {
            Some(i) => match &self.entries[i].value {
                Value::Hash(h) => match hfind(h, field) {
                    Some(_) => Frame::Integer(1),
                    None => Frame::Integer(0),
                },
                _ => wrongtype_frame(),
            },
            None => Frame::Integer(0),
        }
    }

    /// HLEN: how many fields the table holds.
    pub fn hlen(&mut self, key: &Vec<u8>, now: u64) -> (r: Frame)
        requires
            old(self).wf(),
        ensures
            final(self).wf(),
            final(self).kv() == purged_kv(old(self).kv(), old(self).ttl(), key@, now as int),
            final(self).ttl() == purged_ttl(old(self).ttl(), key@, now as int),
            r@ == ({
                let kv1 = final(self).kv();
                if !kv1.contains_key(key@) {
                    FrameModel::Integer(0)
                } else {
                    match kv1[key@] {
                        ValueModel::Hash(h) => FrameModel::Integer(len_i64(h.len() as int)),
                        _ => FrameModel::Error(wrongtype_msg()),
                    }
                }
            }),
    {
        if self.check_and_purge(key, now) {
            return Frame::Integer(0);
        }
        match self.find_key(key) {
            Some(i) => match &self.entries[i].value {
                Value::Hash(h) => Frame::Integer(len_to_i64(h.len())),
                _ => wrongtype_frame(),
            },
            None => Frame::Integer(0),
        }
    }

    /// HKEYS: the fields, in table order.
    pub fn hkeys(&mut self, key: &Vec<u8>, now: u64) -> (r: Frame)
        requires
            old(self).wf(),
        ensures
            final(self).wf(),
            final(self).kv() == purged_kv(old(self).kv(), old(self).ttl(), key@, now as int),
            final(self).ttl() == purged_ttl(old(self).ttl(), key@, now as int),
            r@ == ({
                let kv1 = final(self).kv();
                if !kv1.contains_key(key@) {
                    FrameModel::Array(Seq::empty())
                } else {
                    match kv1[key@] {
                        ValueModel::Hash(h) => FrameModel::Array(
                            bulks_of(h.map_values(|p: (Seq<u8>, Seq<u8>)| p.0)),
                        ),
                        _ => FrameModel::Error(wrongtype_msg()),
                    }
                }
            }),
    {
        if self.check_and_purge(key, now) {
            return Frame::Array(Vec::new());
        }
        match self.find_key(key) {
            Some(i) => match &self.entries[i].value {
                Value::Hash(h) => {
                    let mut items: Vec<Vec<u8>> = Vec::new();
                    let n = h.len();
                    let mut j: usize = 0;
                    while j < n
                        invariant
                            j <= n,
                            n == h@.len(),
                            items@.len() == j,
                            forall|x: int| 0 <= x < j ==> (#[trigger] items@[x])@ == h@[x].field@,
                        decreases n - j,
                    {
                        items.push(bytes_clone(&h[j].field));
                        j = j + 1;
                    }
                    let f = bulk_array(items);
                    proof {
                        assert(bulks_of(items@.map_values(|b: Vec<u8>| b@)) =~= bulks_of(
                            hash_view(*h).map_values(|p: (Seq<u8>, Seq<u8>)| p.0),
                        ));
                    }
                    f
                }
                _ => wrongtype_frame(),
            },
            None => Frame::Array(Vec::new()),
        }
    }

    /// HVALS: the values, in table order.
    pub fn hvals(&mut self, key: &Vec<u8>, now: u64) -> (r: Frame)
        requires
            old(self).wf(),
        ensures
            final(self).wf(),
            final(self).kv() == purged_kv(old(self).kv(), old(self).ttl(), key@, now as int),
            final(self).ttl() == purged_ttl(old(self).ttl(), key@, now as int),
            r@ == ({
                let kv1 = final(self).kv();
                if !kv1.contains_key(key@) {
                    FrameModel::Array(Seq::empty())
                } else {
                    match kv1[key@] {
                        ValueModel::Hash(h) => FrameModel::Array(
                            bulks_of(h.map_values(|p: (Seq<u8>, Seq<u8>)| p.1)),
                        ),
                        _ => FrameModel::Error(wrongtype_msg()),
                    }
                }
            }),
    {
        if self.check_and_purge(key, now) {
            return Frame::Array(Vec::new());
        }
        match self.find_key(key) {
            Some(i) => match &self.entries[i].value {
                Value::Hash(h) => {
                    let mut items: Vec<Vec<u8>> = Vec::new();
                    let n = h.len();
                    let mut j: usize = 0;
                    while j < n
                        invariant
                            j <= n,
                            n == h@.len(),
                            items@.len() == j,
                            forall|x: int| 0 <= x < j ==> (#[trigger] items@[x])@ == h@[x].value@,
                        decreases n - j,
                    {
                        items.push(bytes_clone(&h[j].value));
                        j = j + 1;
                    }
                    let f = bulk_array(items);
                    proof {
                        assert(bulks_of(items@.map_values(|b: Vec<u8>| b@)) =~= bulks_of(
                            hash_view(*h).map_values(|p: (Seq<u8>, Seq<u8>)| p.1),
                        ));
                    }
                    f
                }
                _ => wrongtype_frame(),
            },
            None => Frame::Array(Vec::new()),
        }
    }
}

} // verus!
