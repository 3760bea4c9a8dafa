use vstd::prelude::*;

use crate::frame::{frames_view, lemma_array_view, Frame, FrameModel};
use crate::replies::{bulk_array, bulks_of, index_range_msg, index_range_frame, len_i64,
    len_to_i64, no_such_key_msg, no_such_key_frame, ok_frame, ok_msg, wrongtype_frame,
    wrongtype_msg};
use crate::store::{purged_kv, purged_ttl, Store};
use crate::value::{Value, ValueModel};
use crate::zset::bytes_clone;

verus! {

broadcast use vstd::seq::group_seq_axioms;

// ---------------------------------------------------------------------------
// List commands. A list is a sequence of byte strings with its head at
// index zero.
// ---------------------------------------------------------------------------

/// The list after pushing each value in turn at the head.
pub open spec fn lpush_fold(l: Seq<Seq<u8>>, vals: Seq<Seq<u8>>) -> Seq<Seq<u8>>
    decreases vals.len(),
{
    if vals.len() == 0 {
        l
    } else {
        lpush_fold(seq![vals[0]] + l, vals.subrange(1, vals.len() as int))
    }
}

pub proof fn lemma_lpush_fold_push(l: Seq<Seq<u8>>, vals: Seq<Seq<u8>>, x: Seq<u8>)
    ensures
        lpush_fold(l, vals.push(x)) == seq![x] + lpush_fold(l, vals),
    decreases vals.len(),
{
    if vals.len() == 0 {
        assert(vals.push(x)[0] == x);
        assert(vals.push(x).subrange(1, 1) =~= Seq::<Seq<u8>>::empty());
        assert(lpush_fold(l, vals.push(x)) == lpush_fold(seq![x] + l, Seq::empty()));
    } else {
        assert(vals.push(x)[0] == vals[0]);
        assert(vals.push(x).subrange(1, vals.len() as int + 1) =~= vals.subrange(
            1,
            vals.len() as int,
        ).push(x));
        lemma_lpush_fold_push(seq![vals[0]] + l, vals.subrange(1, vals.len() as int), x);
    }
}

/// A signed index resolved from the tail when negative.
pub open spec fn abs_index(len: int, idx: int) -> int {
    if idx < 0 {
        len + idx
    } else {
        idx
    }
}

/// The slice LRANGE answers: clamp both ends, empty when they cross.
pub open spec fn spec_lrange(l: Seq<Seq<u8>>, start: int, end: int) -> Seq<Seq<u8>> {
    let len = l.len() as int;
    let s0 = abs_index(len, start);
    let e0 = abs_index(len, end);
    let s = if s0 < 0 { 0 } else { s0 };
    let e = if e0 < 0 { 0 } else { e0 };
    if s > e || s >= len {
        Seq::empty()
    } else {
        let e2 = if e < len - 1 { e } else { len - 1 };
        l.subrange(s, e2 + 1)
    }
}

/// Resolves a possibly negative index against a length; in range only if the
/// answer is `Some`.
pub(crate) fn resolve_index(len: usize, idx: i64) -> (r: Option<usize>)
    ensures
        match r {
            Some(e) => 0 <= abs_index(len as int, idx as int) < len && e == abs_index(
                len as int,
                idx as int,
            ),
            None => !(0 <= abs_index(len as int, idx as int) < len),
        },
{
    let eff: i128 = if idx < 0 {
        len as i128 + idx as i128
    } else {
        idx as i128
    };
    if eff >= 0 && eff < len as i128 {
        Some(eff as usize)
    } else {
        None
    }
}

/// Clamped bounds for LRANGE and LTRIM: `None` means the range is empty.
pub(crate) fn resolve_range(len: usize, start: i64, end: i64) -> (r: Option<(usize, usize)>)
    ensures
        match r {
            Some(p) => ({
                let s0 = abs_index(len as int, start as int);
                let e0 = abs_index(len as int, end as int);
                let s = if s0 < 0 { 0int } else { s0 };
                let e = if e0 < 0 { 0int } else { e0 };
                &&& !(s > e || s >= len)
                &&& p.0 == s
                &&& p.1 == (if e < len - 1 { e } else { len - 1 })
                &&& p.0 <= p.1 < len
            }),
            None => ({
                let s0 = abs_index(len as int, start as int);
                let e0 = abs_index(len as int, end as int);
                let s = if s0 < 0 { 0int } else { s0 };
                let e = if e0 < 0 { 0int } else { e0 };
                s > e || s >= len
            }),
        },
{
    let s1: i128 = if start < 0 {
        len as i128 + start as i128
    } else {
        start as i128
    };
    let e1: i128 = if end < 0 {
        len as i128 + end as i128
    } else {
        end as i128
    };
    let s = if s1 < 0 {
        0i128
    } else {
        s1
    };
    let e = if e1 < 0 {
        0i128
    } else {
        e1
    };
    if s > e || s >= len as i128 {
        None
    } else {
        let e2: i128 = if e < len as i128 - 1 {
            e
        } else {
            len as i128 - 1
        };
        Some((s as usize, e2 as usize))
    }
}

/// A fresh copy of `l.subrange(s, e + 1)`.
fn copy_slice(l: &Vec<Vec<u8>>, s: usize, e: usize) -> (out: Vec<Vec<u8>>)
    requires
        s <= e < l@.len(),
    ensures
        out@.map_values(|b: Vec<u8>| b@) == l@.map_values(|b: Vec<u8>| b@).subrange(
            s as int,
            e + 1,
        ),
{
    let mut out: Vec<Vec<u8>> = Vec::new();
    let n = l.len();
    let mut i = s;
    while i <= e
        invariant
            s <= i <= e + 1,
            e < n,
            n == l@.len(),
            out@.len() == i - s,
            forall|j: int| 0 <= j < i - s ==> (#[trigger] out@[j])@ == l@[s + j]@,
        decreases e + 1 - i,
    {
        out.push(bytes_clone(&l[i]));
        i = i + 1;
    }
    proof {
        assert(out@.map_values(|b: Vec<u8>| b@) =~= l@.map_values(|b: Vec<u8>| b@).subrange(
            s as int,
            e + 1,
        ));
    }
    out
}

impl Store {
    /// LPUSH: pushes each value at the head, creating the list if absent;
    /// answers the new length.
    pub fn lpush(&mut self, key: Vec<u8>, vals: &Vec<Vec<u8>>, now: u64) -> (r: Frame)
        requires
            old(self).wf(),
        ensures
            final(self).wf(),
            final(self).ttl() == purged_ttl(old(self).ttl(), key@, now as int),
            ({
                let kv1 = purged_kv(old(self).kv(), old(self).ttl(), key@, now as int);
                let vs = vals@.map_values(|b: Vec<u8>| b@);
                if !kv1.contains_key(key@) {
                    let nl = lpush_fold(Seq::empty(), vs);
                    final(self).kv() == kv1.insert(key@, ValueModel::List(nl)) && r@
                        == FrameModel::Integer(len_i64(nl.len() as int))
                } else {
                    match kv1[key@] {
                        ValueModel::List(l) => {
                            let nl = lpush_fold(l, vs);
                            final(self).kv() == kv1.insert(key@, ValueModel::List(nl)) && r@
                                == FrameModel::Integer(len_i64(nl.len() as int))
                        },
                        _ => final(self).kv() == kv1 && r@ == FrameModel::Error(
                            wrongtype_msg(),
                        ),
                    }
                }
            }),
    {
        self.check_and_purge(&key, now);
        let ghost kv1 = self.kv();
        let ghost kk = key@;
        let ghost vs = vals@.map_values(|b: Vec<u8>| b@);
        let mut list: Vec<Vec<u8>>;
        match self.take_value(&key) {
            Some(v) => match v {
                Value::List(l) => {
                    list = l;
                }
                other => {
                    self.put_value(key, other);
                    proof {
                        assert(kv1.remove(kk).insert(kk, kv1[kk]) =~= kv1);
                    }
                    return wrongtype_frame();
                }
            },
            None => {
                list = Vec::new();
                proof {
                    assert(Seq::new(0, |i: int| list@[i]@) =~= Seq::<Seq<u8>>::empty());
                }
            }
        }
        let ghost l0 = Seq::new(list@.len(), |i: int| list@[i]@);
        let n = vals.len();
        let mut i: usize = 0;
        while i < n
            invariant
                i <= n,
                n == vals@.len(),
                vs == vals@.map_values(|b: Vec<u8>| b@),
                Seq::new(list@.len(), |j: int| list@[j]@) =~= lpush_fold(l0, vs.take(i as int)),
            decreases n - i,
        {
            let b = bytes_clone(&vals[i]);
            let ghost before = Seq::new(list@.len(), |j: int| list@[j]@);
            list.insert(0, b);
            proof {
                assert(Seq::new(list@.len(), |j: int| list@[j]@) =~= seq![vs[i as int]]
                    + before);
                assert(vs.take(i + 1) =~= vs.take(i as int).push(vs[i as int]));
                lemma_lpush_fold_push(l0, vs.take(i as int), vs[i as int]);
            }
            i = i + 1;
        }
        proof {
            assert(vs.take(n as int) =~= vs);
        }
        let new_len = list.len();
        self.put_value(key, Value::List(list));
        Frame::Integer(len_to_i64(new_len))
    }

    /// RPUSH: appends each value at the tail, creating the list if absent;
    /// answers the new length.
    pub fn rpush(&mut self, key: Vec<u8>, vals: &Vec<Vec<u8>>, now: u64) -> (r: Frame)
        requires
            old(self).wf(),
        ensures
            final(self).wf(),
            final(self).ttl() == purged_ttl(old(self).ttl(), key@, now as int),
            ({
                let kv1 = purged_kv(old(self).kv(), old(self).ttl(), key@, now as int);
                let vs = vals@.map_values(|b: Vec<u8>| b@);
                if !kv1.contains_key(key@) {
                    final(self).kv() == kv1.insert(key@, ValueModel::List(vs)) && r@
                        == FrameModel::Integer(len_i64(vs.len() as int))
                } else {
                    match kv1[key@] {
                        ValueModel::List(l) => {
                            final(self).kv() == kv1.insert(key@, ValueModel::List(l + vs)) && r@
                                == FrameModel::Integer(len_i64(l.len() + vs.len() as int))
                        },
                        _ => final(self).kv() == kv1 && r@ == FrameModel::Error(
                            wrongtype_msg(),
                        ),
                    }
                }
            }),
    {
        self.check_and_purge(&key, now);
        let ghost kv1 = self.kv();
        let ghost kk = key@;
        let ghost vs = vals@.map_values(|b: Vec<u8>| b@);
        let mut list: Vec<Vec<u8>>;
        let ghost existed = kv1.contains_key(kk);
        match self.take_value(&key) {
            Some(v) => match v {
                Value::List(l) => {
                    list = l;
                }
                other => {
                    self.put_value(key, other);
                    proof {
                        assert(kv1.remove(kk).insert(kk, kv1[kk]) =~= kv1);
                    }
                    return wrongtype_frame();
                }
            },
            None => {
                list = Vec::new();
            }
        }
        let ghost l0 = Seq::new(list@.len(), |i: int| list@[i]@);
        let n = vals.len();
        let mut i: usize = 0;
        while i < n
            invariant
                i <= n,
                n == vals@.len(),
                vs == vals@.map_values(|b: Vec<u8>| b@),
                Seq::new(list@.len(), |j: int| list@[j]@) =~= l0 + vs.take(i as int),
            decreases n - i,
        {
            let b = bytes_clone(&vals[i]);
            let ghost before = Seq::new(list@.len(), |j: int| list@[j]@);
            list.push(b);
            proof {
                assert(Seq::new(list@.len(), |j: int| list@[j]@) =~= before.push(vs[i as int]));
                assert((l0 + vs.take(i as int)).push(vs[i as int]) =~= l0 + vs.take(i + 1));
            }
            i = i + 1;
        }
        proof {
            assert(vs.take(n as int) =~= vs);
            if !existed {
                assert(Seq::<Seq<u8>>::empty() + vs =~= vs);
            }
        }
        let new_len = list.len();
        self.put_value(key, Value::List(list));
        Frame::Integer(len_to_i64(new_len))
    }

    /// LPOP: takes the head element; Null when the list is empty or absent.
    pub fn lpop(&mut self, key: &Vec<u8>, now: u64) -> (r: Frame)
        requires
            old(self).wf(),
        ensures
            final(self).wf(),
            final(self).ttl() == purged_ttl(old(self).ttl(), key@, now as int),
            ({
                let kv1 = purged_kv(old(self).kv(), old(self).ttl(), key@, now as int);
                if !kv1.contains_key(key@) {
                    final(self).kv() == kv1 && r@ == FrameModel::Null
                } else {
                    match kv1[key@] {
                        ValueModel::List(l) => if l.len() == 0 {
                            final(self).kv() == kv1 && r@ == FrameModel::Null
                        } else {
                            final(self).kv() == kv1.insert(
                                key@,
                                ValueModel::List(l.subrange(1, l.len() as int)),
                            ) && r@ == FrameModel::Bulk(l[0])
                        },
                        _ => final(self).kv() == kv1 && r@ == FrameModel::Error(
                            wrongtype_msg(),
                        ),
                    }
                }
            }),
    {
        if self.check_and_purge(key, now) {
            return Frame::Null;
        }
        let ghost kv1 = self.kv();
        let ghost kk = key@;
        match self.take_value(key) {
            Some(v) => match v {
                Value::List(mut l) => {
                    if l.len() == 0 {
                        self.put_value(bytes_clone(key), Value::List(l));
                        proof {
                            assert(Seq::new(0, |i: int| l@[i]@) =~= Seq::<Seq<u8>>::empty());
                            assert(kv1.remove(kk).insert(kk, kv1[kk]) =~= kv1);
                        }
                        Frame::Null
                    } else {
                        let b = l.remove(0);
                        proof {
                            let lv = |x: Vec<u8>| x@;
                            assert(Seq::new(l@.len(), |i: int| l@[i]@) =~= old(
                                self,
                            ).kv()[kk]->List_0.subrange(
                                1,
                                old(self).kv()[kk]->List_0.len() as int,
                            ));
                        }
                        self.put_value(bytes_clone(key), Value::List(l));
                        Frame::Bulk(b)
                    }
                }
                other => {
                    self.put_value(bytes_clone(key), other);
                    proof {
                        assert(kv1.remove(kk).insert(kk, kv1[kk]) =~= kv1);
                    }
                    wrongtype_frame()
                }
            },
            None => Frame::Null,
        }
    }

    /// RPOP: takes the tail element; Null when the list is empty or absent.
    pub fn rpop(&mut self, key: &Vec<u8>, now: u64) -> (r: Frame)
        requires
            old(self).wf(),
        ensures
            final(self).wf(),
            final(self).ttl() == purged_ttl(old(self).ttl(), key@, now as int),
            ({
                let kv1 = purged_kv(old(self).kv(), old(self).ttl(), key@, now as int);
                if !kv1.contains_key(key@) {
                    final(self).kv() == kv1 && r@ == FrameModel::Null
                } else {
                    match kv1[key@] {
                        ValueModel::List(l) => if l.len() == 0 {
                            final(self).kv() == kv1 && r@ == FrameModel::Null
                        } else {
                            final(self).kv() == kv1.insert(
                                key@,
                                ValueModel::List(l.drop_last()),
                            ) && r@ == FrameModel::Bulk(l.last())
                        },
                        _ => final(self).kv() == kv1 && r@ == FrameModel::Error(
                            wrongtype_msg(),
                        ),
                    }
                }
            }),
    {
        if self.check_and_purge(key, now) {
            return Frame::Null;
        }
        let ghost kv1 = self.kv();
        let ghost kk = key@;
        match self.take_value(key) {
            Some(v) => match v {
                Value::List(mut l) => {
                    match l.pop() {
                        Some(b) => {
                            proof {
                                assert(Seq::new(l@.len(), |i: int| l@[i]@) =~= kv1[
                                kk]->List_0.drop_last());
                            }
                            self.put_value(bytes_clone(key), Value::List(l));
                            Frame::Bulk(b)
                        }
                        None => {
                            self.put_value(bytes_clone(key), Value::List(l));
                            proof {
                                assert(Seq::new(0, |i: int| l@[i]@) =~= Seq::<Seq<u8>>::empty());
                                assert(kv1.remove(kk).insert(kk, kv1[kk]) =~= kv1);
                            }
                            Frame::Null
                        }
                    }
                }
                other => {
                    self.put_value(bytes_clone(key), other);
                    proof {
                        assert(kv1.remove(kk).insert(kk, kv1[kk]) =~= kv1);
                    }
                    wrongtype_frame()
                }
            },
            None => Frame::Null,
        }
    }

    /// LLEN: the list's length, 0 when absent.
    pub fn llen(&mut self, key: &Vec<u8>, now: u64) -> (r: Frame)
        requires
            old(self).wf(),
        ensures
            final(self).wf(),
            final(self).kv() == purged_kv(old(self).kv(), old(self).ttl(), key@, now as int),
            final(self).ttl() == purged_ttl(old(self).ttl(), key@, now as int),
            r@ == ({
                let kv1 = final(self).kv();
                if !kv1.contains_key(key@) {
                    FrameModel::Integer(0)
                } else {
                    match kv1[key@] {
                        ValueModel::List(l) => FrameModel::Integer(len_i64(l.len() as int)),
                        _ => FrameModel::Error(wrongtype_msg()),
                    }
                }
            }),
    {
        if self.check_and_purge(key, now) {
            return Frame::Integer(0);
        }
        match self.find_key(key) {
            Some(i) => match &self.entries[i].value {
                Value::List(l) => Frame::Integer(len_to_i64(l.len())),
                _ => wrongtype_frame(),
            },
            None => Frame::Integer(0),
        }
    }

    /// LINDEX: the element at a signed index; Null when out of range.
    pub fn lindex(&mut self, key: &Vec<u8>, idx: i64, now: u64) -> (r: Frame)
        requires
            old(self).wf(),
        ensures
            final(self).wf(),
            final(self).kv() == purged_kv(old(self).kv(), old(self).ttl(), key@, now as int),
            final(self).ttl() == purged_ttl(old(self).ttl(), key@, now as int),
            r@ == ({
                let kv1 = final(self).kv();
                if !kv1.contains_key(key@) {
                    FrameModel::Null
                } else {
                    match kv1[key@] {
                        ValueModel::List(l) => {
                            let e = abs_index(l.len() as int, idx as int);
                            if 0 <= e < l.len() {
                                FrameModel::Bulk(l[e])
                            } else {
                                FrameModel::Null
                            }
                        },
                        _ => FrameModel::Error(wrongtype_msg()),
                    }
                }
            }),
    {
        if self.check_and_purge(key, now) {
            return Frame::Null;
        }
        match self.find_key(key) {
            Some(i) => match &self.entries[i].value {
                Value::List(l) => match resolve_index(l.len(), idx) {
                    Some(e) => Frame::Bulk(bytes_clone(&l[e])),
                    None => Frame::Null,
                },
                _ => wrongtype_frame(),
            },
            None => Frame::Null,
        }
    }

    /// LSET: replaces the element at a signed index.
    pub fn lset(&mut self, key: &Vec<u8>, idx: i64, val: Vec<u8>, now: u64) -> (r: Frame)
        requires
            old(self).wf(),
        ensures
            final(self).wf(),
            final(self).ttl() == purged_ttl(old(self).ttl(), key@, now as int),
            ({
                let kv1 = purged_kv(old(self).kv(), old(self).ttl(), key@, now as int);
                if !kv1.contains_key(key@) {
                    final(self).kv() == kv1 && r@ == FrameModel::Error(no_such_key_msg())
                } else {
                    match kv1[key@] {
                        ValueModel::List(l) => {
                            let e = abs_index(l.len() as int, idx as int);
                            if 0 <= e < l.len() {
                                final(self).kv() == kv1.insert(
                                    key@,
                                    ValueModel::List(l.update(e, val@)),
                                ) && r@ == FrameModel::Simple(ok_msg())
                            } else {
                                final(self).kv() == kv1 && r@ == FrameModel::Error(
                                    index_range_msg(),
                                )
                            }
                        },
                        _ => final(self).kv() == kv1 && r@ == FrameModel::Error(
                            wrongtype_msg(),
                        ),
                    }
                }
            }),
    {
        if self.check_and_purge(key, now) {
            return no_such_key_frame();
        }
        let ghost kv1 = self.kv();
        let ghost kk = key@;
        match self.take_value(key) {
            Some(v) => match v {
                Value::List(mut l) => {
                    match resolve_index(l.len(), idx) {
                        Some(e) => {
                            let ghost before = Seq::new(l@.len(), |i: int| l@[i]@);
                            l.remove(e);
                            l.insert(e, val);
                            proof {
                                assert(Seq::new(l@.len(), |i: int| l@[i]@) =~= before.update(
                                    abs_index(before.len() as int, idx as int),
                                    val@,
                                ));
                            }
                            self.put_value(bytes_clone(key), Value::List(l));
                            ok_frame()
                        }
                        None => {
                            self.put_value(bytes_clone(key), Value::List(l));
                            proof {
                                assert(kv1.remove(kk).insert(kk, kv1[kk]) =~= kv1);
                            }
                            index_range_frame()
                        }
                    }
                }
                other => {
                    self.put_value(bytes_clone(key), other);
                    proof {
                        assert(kv1.remove(kk).insert(kk, kv1[kk]) =~= kv1);
                    }
                    wrongtype_frame()
                }
            },
            None => no_such_key_frame(),
        }
    }

    /// LRANGE: the elements between two clamped signed indices, inclusive.
    pub fn lrange(&mut self, key: &Vec<u8>, start: i64, end: i64, now: u64) -> (r: Frame)
        requires
            old(self).wf(),
        ensures
            final(self).wf(),
            final(self).kv() == purged_kv(old(self).kv(), old(self).ttl(), key@, now as int),
            final(self).ttl() == purged_ttl(old(self).ttl(), key@, now as int),
            r@ == ({
                let kv1 = final(self).kv();
                if !kv1.contains_key(key@) {
                    FrameModel::Array(Seq::empty())
                } else {
                    match kv1[key@] {
                        ValueModel::List(l) => FrameModel::Array(
                            bulks_of(spec_lrange(l, start as int, end as int)),
                        ),
                        _ => FrameModel::Error(wrongtype_msg()),
                    }
                }
            }),
    {
        if self.check_and_purge(key, now) {
            let empty: Vec<Vec<u8>> = Vec::new();
            let f = bulk_array(empty);
            proof {
                assert(bulks_of(Seq::<Seq<u8>>::empty()) =~= Seq::<FrameModel>::empty());
                assert(Seq::<Vec<u8>>::empty().map_values(|b: Vec<u8>| b@)
                    =~= Seq::<Seq<u8>>::empty());
            }
            return f;
        }
        match self.find_key(key) {
            Some(i) => match &self.entries[i].value {
                Value::List(l) => {
                    match resolve_range(l.len(), start, end) {
                        Some(p) => {
                            let items = copy_slice(l, p.0, p.1);
                            let f = bulk_array(items);
                            proof {
                                assert(spec_lrange(
                                    Seq::new(l@.len(), |j: int| l@[j]@),
                                    start as int,
                                    end as int,
                                ) =~= l@.map_values(|b: Vec<u8>| b@).subrange(
                                    p.0 as int,
                                    p.1 + 1,
                                ));
                            }
                            f
                        }
                        None => {
                            let empty: Vec<Vec<u8>> = Vec::new();
                            let f = bulk_array(empty);
                            proof {
                                assert(spec_lrange(
                                    Seq::new(l@.len(), |j: int| l@[j]@),
                                    start as int,
                                    end as int,
                                ) =~= Seq::<Seq<u8>>::empty());
                                assert(bulks_of(Seq::<Seq<u8>>::empty())
                                    =~= Seq::<FrameModel>::empty());
                                assert(Seq::<Vec<u8>>::empty().map_values(|b: Vec<u8>| b@)
                                    =~= Seq::<Seq<u8>>::empty());
                            }
                            f
                        }
                    }
                }
                _ => wrongtype_frame(),
            },
            None => {
                let empty: Vec<Vec<u8>> = Vec::new();
                let f = bulk_array(empty);
                proof {
                    assert(bulks_of(Seq::<Seq<u8>>::empty()) =~= Seq::<FrameModel>::empty());
                    assert(Seq::<Vec<u8>>::empty().map_values(|b: Vec<u8>| b@)
                        =~= Seq::<Seq<u8>>::empty());
                }
                f
            }
        }
    }

    /// LTRIM: keeps only the clamped inclusive range; answers OK.
    pub fn ltrim(&mut self, key: &Vec<u8>, start: i64, end: i64, now: u64) -> (r: Frame)
        requires
            old(self).wf(),
        ensures
            final(self).wf(),
            final(self).ttl() == purged_ttl(old(self).ttl(), key@, now as int),
            ({
                let kv1 = purged_kv(old(self).kv(), old(self).ttl(), key@, now as int);
                if !kv1.contains_key(key@) {
                    final(self).kv() == kv1 && r@ == FrameModel::Simple(ok_msg())
                } else {
                    match kv1[key@] {
                        ValueModel::List(l) => final(self).kv() == kv1.insert(
                            key@,
                            ValueModel::List(spec_lrange(l, start as int, end as int)),
                        ) && r@ == FrameModel::Simple(ok_msg()),
                        _ => final(self).kv() == kv1 && r@ == FrameModel::Error(
                            wrongtype_msg(),
                        ),
                    }
                }
            }),
    {
        if self.check_and_purge(key, now) {
            return ok_frame();
        }
        let ghost kv1 = self.kv();
        let ghost kk = key@;
        match self.take_value(key) {
            Some(v) => match v {
                Value::List(l) => {
                    let kept: Vec<Vec<u8>> = match resolve_range(l.len(), start, end) {
                        Some(p) => copy_slice(&l, p.0, p.1),
                        None => Vec::new(),
                    };
                    proof {
                        assert(Seq::new(kept@.len(), |j: int| kept@[j]@) =~= kept@.map_values(
                            |b: Vec<u8>| b@,
                        ));
                        assert(Seq::new(l@.len(), |j: int| l@[j]@) =~= l@.map_values(
                            |b: Vec<u8>| b@,
                        ));
                        assert(kept@.map_values(|b: Vec<u8>| b@) =~= spec_lrange(
                            Seq::new(l@.len(), |j: int| l@[j]@),
                            start as int,
                            end as int,
                        ));
                    }
                    self.put_value(bytes_clone(key), Value::List(kept));
                    ok_frame()
                }
                other => {
                    self.put_value(bytes_clone(key), other);
                    proof {
                        assert(kv1.remove(kk).insert(kk, kv1[kk]) =~= kv1);
                    }
                    wrongtype_frame()
                }
            },
            None => ok_frame(),
        }
    }
}


/// What one BRPOP attempt decides: a finished reply, a wait on the list's
/// signal, or a poll because no list exists to wait on.
pub enum BrpopStep {
    Done(Frame),
    Wait,
    Poll,
}

impl Store {
    /// One BRPOP attempt under the lock: pop the tail if the list has one;
    /// otherwise report how the caller should block. Timing stays with the
    /// caller.
    pub fn brpop_step(&mut self, key: &Vec<u8>, now: u64) -> (r: BrpopStep)
        requires
            old(self).wf(),
        ensures
            final(self).wf(),
            final(self).ttl() == purged_ttl(old(self).ttl(), key@, now as int),
            ({
                let kv1 = purged_kv(old(self).kv(), old(self).ttl(), key@, now as int);
                let expired = crate::store::is_expired(old(self).ttl(), key@, now as int);
                match r {
                    BrpopStep::Done(f) => {
                        if expired {
                            f@ == FrameModel::Null && final(self).kv() == kv1
                        } else if kv1.contains_key(key@) {
                            match kv1[key@] {
                                ValueModel::List(l) => l.len() > 0 && final(self).kv()
                                    == kv1.insert(key@, ValueModel::List(l.drop_last()))
                                    && f@ == FrameModel::Array(
                                    seq![FrameModel::Bulk(key@), FrameModel::Bulk(l.last())],
                                ),
                                _ => final(self).kv() == kv1 && f@ == FrameModel::Error(
                                    wrongtype_msg(),
                                ),
                            }
                        } else {
                            false
                        }
                    },
                    BrpopStep::Wait => !expired && kv1.contains_key(key@) && kv1[key@]
                        is List && kv1[key@]->List_0.len() == 0 && final(self).kv() == kv1,
                    BrpopStep::Poll => !expired && !kv1.contains_key(key@)
                        && final(self).kv() == kv1,
                }
            }),
    {
        if self.check_and_purge(key, now) {
            return BrpopStep::Done(Frame::Null);
        }
        let ghost kv1 = self.kv();
        let ghost kk = key@;
        match self.take_value(key) {
            Some(v) => match v {
                Value::List(mut l) => {
                    match l.pop() {
                        Some(b) => {
                            proof {
                                assert(Seq::new(l@.len(), |i: int| l@[i]@) =~= kv1[
                                kk]->List_0.drop_last());
                            }
                            self.put_value(bytes_clone(key), Value::List(l));
                            let mut frames: Vec<Frame> = Vec::new();
                            frames.push(Frame::Bulk(bytes_clone(key)));
                            frames.push(Frame::Bulk(b));
                            let f = Frame::Array(frames);
                            proof {
                                crate::frame::lemma_array_view(frames);
                                assert(crate::frame::frames_view(frames) =~= seq![
                                    FrameModel::Bulk(kk),
                                    FrameModel::Bulk(kv1[kk]->List_0.last()),
                                ]);
                            }
                            BrpopStep::Done(f)
                        }
                        None => {
                            self.put_value(bytes_clone(key), Value::List(l));
                            proof {
                                assert(Seq::new(0, |i: int| l@[i]@) =~= Seq::<Seq<u8>>::empty());
                                assert(kv1.remove(kk).insert(kk, kv1[kk]) =~= kv1);
                            }
                            BrpopStep::Wait
                        }
                    }
                }
                other => {
                    self.put_value(bytes_clone(key), other);
                    proof {
                        assert(kv1.remove(kk).insert(kk, kv1[kk]) =~= kv1);
                    }
                    BrpopStep::Done(wrongtype_frame())
                }
            },
            None => BrpopStep::Poll,
        }
    }
}

} // verus!
