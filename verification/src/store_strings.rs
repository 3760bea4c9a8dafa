use vstd::prelude::*;

use crate::frame::{Frame, FrameModel};
use crate::numbers::{int_line_val, int_line_valid, parse_int_line, push_i64_dec, spec_i64_dec};
use crate::replies::{len_i64, len_to_i64, not_int_msg, not_int_frame, ok_frame, ok_msg,
    wrongtype_frame, wrongtype_msg};
use crate::store::{is_expired, purged_kv, purged_ttl, Store};
use crate::value::{Pair, Value, ValueModel};
use crate::zset::{bytes_clone, copy_bytes};

verus! {

broadcast use vstd::seq::group_seq_axioms;

// ---------------------------------------------------------------------------
// String commands, and the per-key expiry commands.
// ---------------------------------------------------------------------------

/// What GET answers on the (already purged) value map.
pub open spec fn spec_get(kv: Map<Seq<u8>, ValueModel>, k: Seq<u8>) -> FrameModel {
    if !kv.contains_key(k) {
        FrameModel::Null
    } else {
        match kv[k] {
            ValueModel::Str(s) => FrameModel::Bulk(s),
            _ => FrameModel::Error(wrongtype_msg()),
        }
    }
}

/// Signed 64-bit wraparound.
pub open spec fn wrap_i64(x: int) -> int {
    if x > i64::MAX {
        x - 0x10000000000000000
    } else if x < i64::MIN {
        x + 0x10000000000000000
    } else {
        x
    }
}

/// The value INCRBY leaves under the key and the reply, given the purged map.
pub open spec fn spec_incr(kv: Map<Seq<u8>, ValueModel>, k: Seq<u8>, amt: int) -> (
    Map<Seq<u8>, ValueModel>,
    FrameModel,
) {
    if !kv.contains_key(k) {
        let new = wrap_i64(amt);
        (kv.insert(k, ValueModel::Str(spec_i64_dec(new))), FrameModel::Integer(new))
    } else {
        match kv[k] {
            ValueModel::Str(s) => if int_line_valid(s) {
                let new = wrap_i64(int_line_val(s) + amt);
                (kv.insert(k, ValueModel::Str(spec_i64_dec(new))), FrameModel::Integer(new))
            } else {
                (kv, FrameModel::Error(not_int_msg()))
            },
            _ => (kv, FrameModel::Error(wrongtype_msg())),
        }
    }
}

/// The value APPEND leaves under the key and the reply, given the purged map.
pub open spec fn spec_append(kv: Map<Seq<u8>, ValueModel>, k: Seq<u8>, v: Seq<u8>) -> (
    Map<Seq<u8>, ValueModel>,
    FrameModel,
) {
    if !kv.contains_key(k) {
        (kv.insert(k, ValueModel::Str(v)), FrameModel::Integer(len_i64(v.len() as int)))
    } else {
        match kv[k] {
            ValueModel::Str(s) => (
                kv.insert(k, ValueModel::Str(s + v)),
                FrameModel::Integer(len_i64(s.len() + v.len() as int)),
            ),
            _ => (kv, FrameModel::Error(wrongtype_msg())),
        }
    }
}

/// The maps MSET leaves: each pair's key is lazily purged and then written,
/// in order.
pub open spec fn spec_mset(
    kv: Map<Seq<u8>, ValueModel>,
    ttl: Map<Seq<u8>, int>,
    pairs: Seq<(Seq<u8>, Seq<u8>)>,
    now: int,
) -> (Map<Seq<u8>, ValueModel>, Map<Seq<u8>, int>)
    decreases pairs.len(),
{
    if pairs.len() == 0 {
        (kv, ttl)
    } else {
        let prev = spec_mset(kv, ttl, pairs.drop_last(), now);
        let k = pairs.last().0;
        (
            purged_kv(prev.0, prev.1, k, now).insert(k, ValueModel::Str(pairs.last().1)),
            purged_ttl(prev.1, k, now),
        )
    }
}

/// One element of the MGET reply: an expired key reads as absent.
pub open spec fn spec_mget_one(
    kv: Map<Seq<u8>, ValueModel>,
    ttl: Map<Seq<u8>, int>,
    k: Seq<u8>,
    now: int,
) -> FrameModel {
    if is_expired(ttl, k, now) {
        FrameModel::Null
    } else if !kv.contains_key(k) {
        FrameModel::Null
    } else {
        match kv[k] {
            ValueModel::Str(s) => FrameModel::Bulk(s),
            _ => FrameModel::Error(wrongtype_msg()),
        }
    }
}

pub open spec fn spec_mget(
    kv: Map<Seq<u8>, ValueModel>,
    ttl: Map<Seq<u8>, int>,
    keys: Seq<Seq<u8>>,
    now: int,
) -> Seq<FrameModel> {
    keys.map_values(|k: Seq<u8>| spec_mget_one(kv, ttl, k, now))
}

/// The expiry instant EXPIRE sets: `now` plus the seconds in milliseconds,
/// saturating at the top of the 64-bit range.
pub open spec fn deadline_of(now: int, secs: int) -> int {
    let ms: int = if secs > 18446744073709551615int / 1000 {
        18446744073709551615int
    } else {
        secs * 1000
    };
    if now + ms > 18446744073709551615int {
        18446744073709551615int
    } else {
        now + ms
    }
}

/// Signed 64-bit addition with wraparound.
pub fn wrap_add_i64(a: i64, b: i64) -> (r: i64)
    ensures
        r as int == wrap_i64(a + b),
{
    let s: i128 = a as i128 + b as i128;
    if s > 9223372036854775807i128 {
        (s - 0x10000000000000000i128) as i64
    } else if s < -9223372036854775808i128 {
        (s + 0x10000000000000000i128) as i64
    } else {
        s as i64
    }
}

impl Store {
    /// GET: the string under the key, Null when absent, WRONGTYPE otherwise.
    pub fn get(&mut self, key: &Vec<u8>, now: u64) -> (r: Frame)
        requires
            old(self).wf(),
        ensures
            final(self).wf(),
            final(self).kv() == purged_kv(old(self).kv(), old(self).ttl(), key@, now as int),
            final(self).ttl() == purged_ttl(old(self).ttl(), key@, now as int),
            r@ == spec_get(final(self).kv(), key@),
    {
        if self.check_and_purge(key, now) {
            return Frame::Null;
        }
        match self.find_key(key) {
            Some(i) => match &self.entries[i].value {
                Value::Str(b) => Frame::Bulk(bytes_clone(b)),
                _ => wrongtype_frame(),
            },
            None => Frame::Null,
        }
    }

    /// SET: upserts the string and answers OK.
    pub fn set(&mut self, key: Vec<u8>, val: Vec<u8>, now: u64) -> (r: Frame)
        requires
            old(self).wf(),
        ensures
            final(self).wf(),
            final(self).kv() == purged_kv(old(self).kv(), old(self).ttl(), key@, now as int)
                .insert(key@, ValueModel::Str(val@)),
            final(self).ttl() == purged_ttl(old(self).ttl(), key@, now as int),
            r@ == FrameModel::Simple(ok_msg()),
    {
        self.check_and_purge(&key, now);
        self.set_value(key, Value::Str(val));
        ok_frame()
    }

    /// DEL: drops the key from both maps; answers 1 when a live value left.
    pub fn del(&mut self, key: &Vec<u8>, now: u64) -> (r: Frame)
        requires
            old(self).wf(),
        ensures
            final(self).wf(),
            final(self).kv() == old(self).kv().remove(key@),
            final(self).ttl() == old(self).ttl().remove(key@),
            r@ == FrameModel::Integer(
                if is_expired(old(self).ttl(), key@, now as int) {
                    0
                } else if old(self).kv().contains_key(key@) {
                    1
                } else {
                    0
                },
            ),
    {
        if self.check_and_purge(key, now) {
            return Frame::Integer(0);
        }
        let removed = match self.take_value(key) {
            Some(_) => true,
            None => false,
        };
        self.ttl_remove(key);
        proof {
            if !old(self).kv().contains_key(key@) {
                assert(old(self).kv().remove(key@) =~= old(self).kv());
            }
        }
        if removed {
            Frame::Integer(1)
        } else {
            Frame::Integer(0)
        }
    }

    /// APPEND: extends (or creates) the string; answers the new length.
    pub fn append(&mut self, key: Vec<u8>, val: Vec<u8>, now: u64) -> (r: Frame)
        requires
            old(self).wf(),
        ensures
            final(self).wf(),
            final(self).ttl() == purged_ttl(old(self).ttl(), key@, now as int),
            ({
                let kv1 = purged_kv(old(self).kv(), old(self).ttl(), key@, now as int);
                final(self).kv() == spec_append(kv1, key@, val@).0 && r@ == spec_append(
                    kv1,
                    key@,
                    val@,
                ).1
            }),
    {
        self.check_and_purge(&key, now);
        let ghost kv1 = self.kv();
        match self.take_value(&key) {
            Some(v) => match v {
                Value::Str(mut s) => {
                    copy_bytes(&mut s, &val);
                    let n = s.len();
                    self.put_value(key, Value::Str(s));
                    Frame::Integer(len_to_i64(n))
                }
                other => {
                    let ghost kk = key@;
                    self.put_value(key, other);
                    proof {
                        assert(kv1.remove(kk).insert(kk, kv1[kk]) =~= kv1);
                    }
                    wrongtype_frame()
                }
            },
            None => {
                let n = val.len();
                self.put_value(key, Value::Str(val));
                Frame::Integer(len_to_i64(n))
            }
        }
    }

    /// STRLEN: the string's length, 0 when absent.
    pub fn strlen(&mut self, key: &Vec<u8>, now: u64) -> (r: Frame)
        requires
            old(self).wf(),
        ensures
            final(self).wf(),
            final(self).kv() == purged_kv(old(self).kv(), old(self).ttl(), key@, now as int),
            final(self).ttl() == purged_ttl(old(self).ttl(), key@, now as int),
            r@ == ({
                let kv1 = final(self).kv();
                if !kv1.contains_key(key@) {
                    FrameModel::Integer(0)
                } else {
                    match kv1[key@] {
                        ValueModel::Str(s) => FrameModel::Integer(len_i64(s.len() as int)),
                        _ => FrameModel::Error(wrongtype_msg()),
                    }
                }
            }),
    {
        if self.check_and_purge(key, now) {
            return Frame::Integer(0);
        }
        match self.find_key(key) {
            Some(i) => match &self.entries[i].value {
                Value::Str(b) => Frame::Integer(len_to_i64(b.len())),
                _ => wrongtype_frame(),
            },
            None => Frame::Integer(0),
        }
    }

    /// GETSET: writes the new string and answers the old one; a key of
    /// another kind answers WRONGTYPE and keeps its value.
    pub fn getset(&mut self, key: Vec<u8>, val: Vec<u8>, now: u64) -> (r: Frame)
        requires
            old(self).wf(),
        ensures
            final(self).wf(),
            final(self).ttl() == purged_ttl(old(self).ttl(), key@, now as int),
            ({
                let kv1 = purged_kv(old(self).kv(), old(self).ttl(), key@, now as int);
                if !kv1.contains_key(key@) {
                    final(self).kv() == kv1.insert(key@, ValueModel::Str(val@)) && r@
                        == FrameModel::Null
                } else {
                    match kv1[key@] {
                        ValueModel::Str(s) => final(self).kv() == kv1.insert(
                            key@,
                            ValueModel::Str(val@),
                        ) && r@ == FrameModel::Bulk(s),
                        _ => final(self).kv() == kv1 && r@ == FrameModel::Error(
                            wrongtype_msg(),
                        ),
                    }
                }
            }),
    {
        self.check_and_purge(&key, now);
        let ghost kv1 = self.kv();
        let ghost kk = key@;
        match self.take_value(&key) {
            Some(v) => match v {
                Value::Str(b) => {
                    self.put_value(key, Value::Str(val));
                    proof {
                        assert(kv1.remove(kk).insert(kk, ValueModel::Str(val@)) =~= kv1.insert(
                            kk,
                            ValueModel::Str(val@),
                        ));
                    }
                    Frame::Bulk(b)
                }
                other => {
                    self.put_value(key, other);
                    proof {
                        assert(kv1.remove(kk).insert(kk, kv1[kk]) =~= kv1);
                    }
                    wrongtype_frame()
                }
            },
            None => {
                self.put_value(key, Value::Str(val));
                Frame::Null
            }
        }
    }

    /// INCRBY: reads the string as a signed 64-bit decimal, adds `amt` with
    /// wraparound, and writes the decimal result back.
    pub fn incrby(&mut self, key: Vec<u8>, amt: i64, now: u64) -> (r: Frame)
        requires
            old(self).wf(),
        ensures
            final(self).wf(),
            final(self).ttl() == purged_ttl(old(self).ttl(), key@, now as int),
            ({
                let kv1 = purged_kv(old(self).kv(), old(self).ttl(), key@, now as int);
                final(self).kv() == spec_incr(kv1, key@, amt as int).0 && r@ == spec_incr(
                    kv1,
                    key@,
                    amt as int,
                ).1
            }),
    {
        self.check_and_purge(&key, now);
        let ghost kv1 = self.kv();
        let ghost kk = key@;
        match self.take_value(&key) {
            Some(v) => match v {
                Value::Str(s) => {
                    match parse_int_line(s.as_slice()) {
                        Some(curr) => {
                            let new = wrap_add_i64(curr, amt);
                            let mut out: Vec<u8> = Vec::new();
                            push_i64_dec(&mut out, new);
                            proof {
                                assert(out@ =~= spec_i64_dec(new as int));
                            }
                            self.put_value(key, Value::Str(out));
                            Frame::Integer(new)
                        }
                        None => {
                            self.put_value(key, Value::Str(s));
                            proof {
                                assert(kv1.remove(kk).insert(kk, kv1[kk]) =~= kv1);
                            }
                            not_int_frame()
                        }
                    }
                }
                other => {
                    self.put_value(key, other);
                    proof {
                        assert(kv1.remove(kk).insert(kk, kv1[kk]) =~= kv1);
                    }
                    wrongtype_frame()
                }
            },
            None => {
                let new = wrap_add_i64(0, amt);
                let mut out: Vec<u8> = Vec::new();
                push_i64_dec(&mut out, new);
                proof {
                    assert(out@ =~= spec_i64_dec(new as int));
                }
                self.put_value(key, Value::Str(out));
                Frame::Integer(new)
            }
        }
    }

    /// INCR: INCRBY with step one.
    pub fn incr(&mut self, key: Vec<u8>, now: u64) -> (r: Frame)
        requires
            old(self).wf(),
        ensures
            final(self).wf(),
            final(self).ttl() == purged_ttl(old(self).ttl(), key@, now as int),
            ({
                let kv1 = purged_kv(old(self).kv(), old(self).ttl(), key@, now as int);
                final(self).kv() == spec_incr(kv1, key@, 1).0 && r@ == spec_incr(kv1, key@, 1).1
            }),
    {
        self.incrby(key, 1, now)
    }

    /// MSET: purges and writes each pair's key, in order.
    pub fn mset(&mut self, pairs: &Vec<Pair>, now: u64) -> (r: Frame)
        requires
            old(self).wf(),
        ensures
            final(self).wf(),
            ({
                let post = spec_mset(
                    old(self).kv(),
                    old(self).ttl(),
                    pairs@.map_values(|p: Pair| p@),
                    now as int,
                );
                final(self).kv() == post.0 && final(self).ttl() == post.1
            }),
            r@ == FrameModel::Simple(ok_msg()),
    {
        let ghost kv0 = self.kv();
        let ghost ttl0 = self.ttl();
        let ghost all = pairs@.map_values(|p: Pair| p@);
        let n = pairs.len();
        let mut i: usize = 0;
        while i < n
            invariant
                i <= n,
                n == pairs@.len(),
                all == pairs@.map_values(|p: Pair| p@),
                self.wf(),
                self.kv() == spec_mset(kv0, ttl0, all.take(i as int), now as int).0,
                self.ttl() == spec_mset(kv0, ttl0, all.take(i as int), now as int).1,
            decreases n - i,
        {
            let k = bytes_clone(&pairs[i].k);
            let v = bytes_clone(&pairs[i].v);
            proof {
                assert(all[i as int] == pairs@[i as int]@);
                assert(all.take(i + 1).drop_last() =~= all.take(i as int));
                assert(all.take(i + 1).last() == all[i as int]);
            }
            self.check_and_purge(&k, now);
            self.set_value(k, Value::Str(v));
            i = i + 1;
        }
        proof {
            assert(all.take(n as int) =~= all);
        }
        ok_frame()
    }

    /// MGET: one reply element per key; an expired key reads as absent, with
    /// nothing purged.
    pub fn mget(&mut self, keys: &Vec<Vec<u8>>, now: u64) -> (r: Frame)
        requires
            old(self).wf(),
        ensures
            *final(self) == *old(self),
            r@ == FrameModel::Array(
                spec_mget(
                    old(self).kv(),
                    old(self).ttl(),
                    keys@.map_values(|k: Vec<u8>| k@),
                    now as int,
                ),
            ),
    {
        let ghost ks = keys@.map_values(|k: Vec<u8>| k@);
        let mut frames: Vec<Frame> = Vec::new();
        let n = keys.len();
        let mut i: usize = 0;
        while i < n
            invariant
                self.wf(),
                *self == *old(self),
                i <= n,
                n == ks.len(),
                n == keys@.len(),
                ks == keys@.map_values(|k: Vec<u8>| k@),
                frames@.len() == i,
                forall|j: int|
                    0 <= j < i ==> (#[trigger] frames@[j])@ == spec_mget_one(
                        self.kv(),
                        self.ttl(),
                        ks[j],
                        now as int,
                    ),
            decreases n - i,
        {
            let expired = self.is_expired_read(&keys[i], now);
            let f = if expired {
                Frame::Null
            } else {
                match self.find_key(&keys[i]) {
                    Some(idx) => match &self.entries[idx].value {
                        Value::Str(b) => Frame::Bulk(bytes_clone(b)),
                        _ => wrongtype_frame(),
                    },
                    None => Frame::Null,
                }
            };
            proof {
                assert(ks[i as int] == keys@[i as int]@);
            }
            frames.push(f);
            i = i + 1;
        }
        let out = Frame::Array(frames);
        proof {
            crate::frame::lemma_array_view(frames);
            assert(crate::frame::frames_view(frames) =~= spec_mget(
                self.kv(),
                self.ttl(),
                ks,
                now as int,
            ));
        }
        out
    }

    /// EXPIRE: sets an absolute deadline when the key is live; a key already
    /// past its old deadline counts as missing and is purged, never re-armed.
    pub fn expire(&mut self, key: Vec<u8>, secs: u64, now: u64) -> (r: Frame)
        requires
            old(self).wf(),
        ensures
            final(self).wf(),
            final(self).kv() == purged_kv(old(self).kv(), old(self).ttl(), key@, now as int),
            ({
                let kv1 = purged_kv(old(self).kv(), old(self).ttl(), key@, now as int);
                let ttl1 = purged_ttl(old(self).ttl(), key@, now as int);
                if kv1.contains_key(key@) {
                    final(self).ttl() == ttl1.insert(
                        key@,
                        deadline_of(now as int, secs as int),
                    ) && r@ == FrameModel::Integer(1)
                } else {
                    final(self).ttl() == ttl1 && r@ == FrameModel::Integer(0)
                }
            }),
    {
        self.check_and_purge(&key, now);
        let present = match self.find_key(&key) {
            Some(_) => true,
            None => false,
        };
        if !present {
            return Frame::Integer(0);
        }
        let ms: u64 = if secs > 18446744073709551615u64 / 1000 {
            18446744073709551615u64
        } else {
            secs * 1000
        };
        let dl: u64 = if now > 18446744073709551615u64 - ms {
            18446744073709551615u64
        } else {
            now + ms
        };
        self.ttl_set(key, dl);
        Frame::Integer(1)
    }

    /// TTL: -2 when missing or already past its deadline, -1 when no
    /// deadline, else the remaining whole seconds.
    pub fn ttl_cmd(&mut self, key: &Vec<u8>, now: u64) -> (r: Frame)
        requires
            old(self).wf(),
        ensures
            *final(self) == *old(self),
            r@ == ({
                if !old(self).kv().contains_key(key@) {
                    FrameModel::Integer(-2)
                } else if !old(self).ttl().contains_key(key@) {
                    FrameModel::Integer(-1)
                } else if now as int >= old(self).ttl()[key@] {
                    FrameModel::Integer(-2)
                } else {
                    FrameModel::Integer((old(self).ttl()[key@] - now) / 1000)
                }
            }),
    {
        let present = match self.find_key(key) {
            Some(_) => true,
            None => false,
        };
        if !present {
            return Frame::Integer(-2);
        }
        match self.ttl_find(key) {
            Some(i) => {
                let dl = self.ttls[i].deadline;
                if now >= dl {
                    Frame::Integer(-2)
                } else {
                    let remaining = (dl - now) / 1000;
                    Frame::Integer(remaining as i64)
                }
            }
            None => Frame::Integer(-1),
        }
    }
}

} // verus!
