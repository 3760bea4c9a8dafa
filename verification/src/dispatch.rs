use vstd::prelude::*;

use crate::command::{Command, CommandModel};
use crate::frame::{Frame, FrameModel};
use crate::replies::{bulks_of, len_i64, ok_msg, pong_frame, pong_msg, wrongtype_msg};
use crate::store::{is_expired, purged_kv, purged_ttl, Store};
use crate::store_hashes::{spec_hdel, spec_hgetall, spec_hmget, spec_hset};
use crate::store_lists::{abs_index, lpush_fold, spec_lrange, BrpopStep};
use crate::store_sets::{set_has, spec_diff_fold, spec_first_set, spec_inter_fold, spec_sadd,
    spec_srem, spec_sunion};
use crate::store_strings::{deadline_of, spec_append, spec_get, spec_incr, spec_mget, spec_mset};
use crate::store_zsets::{spec_zrevrange, zfind};
use crate::value::{assoc_get, assoc_idx, ValueModel};
use crate::zset::{score_out, zinsert, zmembers, zmembers_in, zremove};

verus! {

broadcast use vstd::seq::group_seq_axioms;

// ---------------------------------------------------------------------------
// The single dispatch point: one command in, one reply frame out.
// ---------------------------------------------------------------------------

/// How a command relates the store before it to the store after it and to
/// the reply. `kv`/`ttl` name the maps before, `kv2`/`ttl2` after.
pub open spec fn apply_rel(
    kv: Map<Seq<u8>, ValueModel>,
    ttl: Map<Seq<u8>, int>,
    cmd: CommandModel,
    now: int,
    kv2: Map<Seq<u8>, ValueModel>,
    ttl2: Map<Seq<u8>, int>,
    reply: FrameModel,
) -> bool {
    match cmd {
        CommandModel::Ping => kv2 == kv && ttl2 == ttl && reply == FrameModel::Simple(
            pong_msg(),
        ),
        CommandModel::Expire(k, secs) => {
            let kv1 = purged_kv(kv, ttl, k, now);
            let ttl1 = purged_ttl(ttl, k, now);
            &&& kv2 == kv1
            &&& if kv1.contains_key(k) {
                ttl2 == ttl1.insert(k, deadline_of(now, secs)) && reply == FrameModel::Integer(
                    1,
                )
            } else {
                ttl2 == ttl1 && reply == FrameModel::Integer(0)
            }
        },
        CommandModel::Ttl(k) => {
            &&& kv2 == kv
            &&& ttl2 == ttl
            &&& reply == if !kv.contains_key(k) {
                FrameModel::Integer(-2)
            } else if !ttl.contains_key(k) {
                FrameModel::Integer(-1)
            } else if now >= ttl[k] {
                FrameModel::Integer(-2)
            } else {
                FrameModel::Integer((ttl[k] - now) / 1000)
            }
        },
        CommandModel::Get(k) => {
            &&& kv2 == purged_kv(kv, ttl, k, now)
            &&& ttl2 == purged_ttl(ttl, k, now)
            &&& reply == spec_get(kv2, k)
        },
        CommandModel::SetCmd(k, v) => {
            &&& kv2 == purged_kv(kv, ttl, k, now).insert(k, ValueModel::Str(v))
            &&& ttl2 == purged_ttl(ttl, k, now)
            &&& reply == FrameModel::Simple(ok_msg())
        },
        CommandModel::Del(k) => {
            &&& kv2 == kv.remove(k)
            &&& ttl2 == ttl.remove(k)
            &&& reply == FrameModel::Integer(
                if is_expired(ttl, k, now) {
                    0
                } else if kv.contains_key(k) {
                    1
                } else {
                    0
                },
            )
        },
        CommandModel::Append(k, v) => {
            let kv1 = purged_kv(kv, ttl, k, now);
            &&& ttl2 == purged_ttl(ttl, k, now)
            &&& kv2 == spec_append(kv1, k, v).0
            &&& reply == spec_append(kv1, k, v).1
        },
        CommandModel::StrLen(k) => {
            &&& kv2 == purged_kv(kv, ttl, k, now)
            &&& ttl2 == purged_ttl(ttl, k, now)
            &&& reply == if !kv2.contains_key(k) {
                FrameModel::Integer(0)
            } else {
                match kv2[k] {
                    ValueModel::Str(s) => FrameModel::Integer(len_i64(s.len() as int)),
                    _ => FrameModel::Error(wrongtype_msg()),
                }
            }
        },
        CommandModel::GetSet(k, v) => {
            let kv1 = purged_kv(kv, ttl, k, now);
            &&& ttl2 == purged_ttl(ttl, k, now)
            &&& if !kv1.contains_key(k) {
                kv2 == kv1.insert(k, ValueModel::Str(v)) && reply == FrameModel::Null
            } else {
                match kv1[k] {
                    ValueModel::Str(s) => kv2 == kv1.insert(k, ValueModel::Str(v)) && reply
                        == FrameModel::Bulk(s),
                    _ => kv2 == kv1 && reply == FrameModel::Error(wrongtype_msg()),
                }
            }
        },
        CommandModel::Incr(k) => {
            let kv1 = purged_kv(kv, ttl, k, now);
            &&& ttl2 == purged_ttl(ttl, k, now)
            &&& kv2 == spec_incr(kv1, k, 1).0
            &&& reply == spec_incr(kv1, k, 1).1
        },
        CommandModel::IncrBy(k, amt) => {
            let kv1 = purged_kv(kv, ttl, k, now);
            &&& ttl2 == purged_ttl(ttl, k, now)
            &&& kv2 == spec_incr(kv1, k, amt).0
            &&& reply == spec_incr(kv1, k, amt).1
        },
        CommandModel::MSet(pairs) => {
            &&& kv2 == spec_mset(kv, ttl, pairs, now).0
            &&& ttl2 == spec_mset(kv, ttl, pairs, now).1
            &&& reply == FrameModel::Simple(ok_msg())
        },
        CommandModel::MGet(keys) => {
            &&& kv2 == kv
            &&& ttl2 == ttl
            &&& reply == FrameModel::Array(spec_mget(kv, ttl, keys, now))
        },
        CommandModel::LPush(k, vals) => {
            let kv1 = purged_kv(kv, ttl, k, now);
            &&& ttl2 == purged_ttl(ttl, k, now)
            &&& if !kv1.contains_key(k) {
                let nl = lpush_fold(Seq::empty(), vals);
                kv2 == kv1.insert(k, ValueModel::List(nl)) && reply == FrameModel::Integer(
                    len_i64(nl.len() as int),
                )
            } else {
                match kv1[k] {
                    ValueModel::List(l) => {
                        let nl = lpush_fold(l, vals);
                        kv2 == kv1.insert(k, ValueModel::List(nl)) && reply
                            == FrameModel::Integer(len_i64(nl.len() as int))
                    },
                    _ => kv2 == kv1 && reply == FrameModel::Error(wrongtype_msg()),
                }
            }
        },
        CommandModel::LPop(k) => {
            let kv1 = purged_kv(kv, ttl, k, now);
            &&& ttl2 == purged_ttl(ttl, k, now)
            &&& if !kv1.contains_key(k) {
                kv2 == kv1 && reply == FrameModel::Null
            } else {
                match kv1[k] {
                    ValueModel::List(l) => if l.len() == 0 {
                        kv2 == kv1 && reply == FrameModel::Null
                    } else {
                        kv2 == kv1.insert(k, ValueModel::List(l.subrange(1, l.len() as int)))
                            && reply == FrameModel::Bulk(l[0])
                    },
                    _ => kv2 == kv1 && reply == FrameModel::Error(wrongtype_msg()),
                }
            }
        },
        CommandModel::RPush(k, vals) => {
            let kv1 = purged_kv(kv, ttl, k, now);
            &&& ttl2 == purged_ttl(ttl, k, now)
            &&& if !kv1.contains_key(k) {
                kv2 == kv1.insert(k, ValueModel::List(vals)) && reply == FrameModel::Integer(
                    len_i64(vals.len() as int),
                )
            } else {
                match kv1[k] {
                    ValueModel::List(l) => kv2 == kv1.insert(k, ValueModel::List(l + vals))
                        && reply == FrameModel::Integer(len_i64(l.len() + vals.len() as int)),
                    _ => kv2 == kv1 && reply == FrameModel::Error(wrongtype_msg()),
                }
            }
        },
        CommandModel::RPop(k) => {
            let kv1 = purged_kv(kv, ttl, k, now);
            &&& ttl2 == purged_ttl(ttl, k, now)
            &&& if !kv1.contains_key(k) {
                kv2 == kv1 && reply == FrameModel::Null
            } else {
                match kv1[k] {
                    ValueModel::List(l) => if l.len() == 0 {
                        kv2 == kv1 && reply == FrameModel::Null
                    } else {
                        kv2 == kv1.insert(k, ValueModel::List(l.drop_last())) && reply
                            == FrameModel::Bulk(l.last())
                    },
                    _ => kv2 == kv1 && reply == FrameModel::Error(wrongtype_msg()),
                }
            }
        },
        CommandModel::LLen(k) => {
            &&& kv2 == purged_kv(kv, ttl, k, now)
            &&& ttl2 == purged_ttl(ttl, k, now)
            &&& reply == if !kv2.contains_key(k) {
                FrameModel::Integer(0)
            } else {
                match kv2[k] {
                    ValueModel::List(l) => FrameModel::Integer(len_i64(l.len() as int)),
                    _ => FrameModel::Error(wrongtype_msg()),
                }
            }
        },
        CommandModel::LRange(k, start, end) => {
            &&& kv2 == purged_kv(kv, ttl, k, now)
            &&& ttl2 == purged_ttl(ttl, k, now)
            &&& reply == if !kv2.contains_key(k) {
                FrameModel::Array(Seq::empty())
            } else {
                match kv2[k] {
                    ValueModel::List(l) => FrameModel::Array(
                        bulks_of(spec_lrange(l, start, end)),
                    ),
                    _ => FrameModel::Error(wrongtype_msg()),
                }
            }
        },
        CommandModel::LIndex(k, idx) => {
            &&& kv2 == purged_kv(kv, ttl, k, now)
            &&& ttl2 == purged_ttl(ttl, k, now)
            &&& reply == if !kv2.contains_key(k) {
                FrameModel::Null
            } else {
                match kv2[k] {
                    ValueModel::List(l) => {
                        let e = abs_index(l.len() as int, idx);
                        if 0 <= e < l.len() {
                            FrameModel::Bulk(l[e])
                        } else {
                            FrameModel::Null
                        }
                    },
                    _ => FrameModel::Error(wrongtype_msg()),
                }
            }
        },
        CommandModel::LSet(k, idx, v) => {
            let kv1 = purged_kv(kv, ttl, k, now);
            &&& ttl2 == purged_ttl(ttl, k, now)
            &&& if !kv1.contains_key(k) {
                kv2 == kv1 && reply == FrameModel::Error(crate::replies::no_such_key_msg())
            } else {
                match kv1[k] {
                    ValueModel::List(l) => {
                        let e = abs_index(l.len() as int, idx);
                        if 0 <= e < l.len() {
                            kv2 == kv1.insert(k, ValueModel::List(l.update(e, v))) && reply
                                == FrameModel::Simple(ok_msg())
                        } else {
                            kv2 == kv1 && reply == FrameModel::Error(
                                crate::replies::index_range_msg(),
                            )
                        }
                    },
                    _ => kv2 == kv1 && reply == FrameModel::Error(wrongtype_msg()),
                }
            }
        },
        CommandModel::LTrim(k, start, end) => {
            let kv1 = purged_kv(kv, ttl, k, now);
            &&& ttl2 == purged_ttl(ttl, k, now)
            &&& if !kv1.contains_key(k) {
                kv2 == kv1 && reply == FrameModel::Simple(ok_msg())
            } else {
                match kv1[k] {
                    ValueModel::List(l) => kv2 == kv1.insert(
                        k,
                        ValueModel::List(spec_lrange(l, start, end)),
                    ) && reply == FrameModel::Simple(ok_msg()),
                    _ => kv2 == kv1 && reply == FrameModel::Error(wrongtype_msg()),
                }
            }
        },
        CommandModel::BRPop(k, timeout) => {
            let kv1 = purged_kv(kv, ttl, k, now);
            &&& ttl2 == purged_ttl(ttl, k, now)
            &&& if is_expired(ttl, k, now) {
                kv2 == kv1 && reply == FrameModel::Null
            } else if !kv1.contains_key(k) {
                kv2 == kv1 && reply == FrameModel::Null
            } else {
                match kv1[k] {
                    ValueModel::List(l) => if l.len() == 0 {
                        kv2 == kv1 && reply == FrameModel::Null
                    } else {
                        kv2 == kv1.insert(k, ValueModel::List(l.drop_last())) && reply
                            == FrameModel::Array(
                            seq![FrameModel::Bulk(k), FrameModel::Bulk(l.last())],
                        )
                    },
                    _ => kv2 == kv1 && reply == FrameModel::Error(wrongtype_msg()),
                }
            }
        },
        CommandModel::HSet(k, f, v) => {
            let kv1 = purged_kv(kv, ttl, k, now);
            &&& ttl2 == purged_ttl(ttl, k, now)
            &&& if !kv1.contains_key(k) {
                let p = spec_hset(Seq::empty(), f, v);
                kv2 == kv1.insert(k, ValueModel::Hash(p.0)) && reply == FrameModel::Integer(
                    p.1,
                )
            } else {
                match kv1[k] {
                    ValueModel::Hash(h) => {
                        let p = spec_hset(h, f, v);
                        kv2 == kv1.insert(k, ValueModel::Hash(p.0)) && reply
                            == FrameModel::Integer(p.1)
                    },
                    _ => kv2 == kv1 && reply == FrameModel::Error(wrongtype_msg()),
                }
            }
        },
        CommandModel::HGet(k, f) => {
            &&& kv2 == purged_kv(kv, ttl, k, now)
            &&& ttl2 == purged_ttl(ttl, k, now)
            &&& reply == if !kv2.contains_key(k) {
                FrameModel::Null
            } else {
                match kv2[k] {
                    ValueModel::Hash(h) => match assoc_get(h, f) {
                        Some(v) => FrameModel::Bulk(v),
                        None => FrameModel::Null,
                    },
                    _ => FrameModel::Error(wrongtype_msg()),
                }
            }
        },
        CommandModel::HDel(k, fs) => {
            let kv1 = purged_kv(kv, ttl, k, now);
            &&& ttl2 == purged_ttl(ttl, k, now)
            &&& if !kv1.contains_key(k) {
                kv2 == kv1 && reply == FrameModel::Integer(0)
            } else {
                match kv1[k] {
                    ValueModel::Hash(h) => kv2 == kv1.insert(
                        k,
                        ValueModel::Hash(spec_hdel(h, fs).0),
                    ) && reply == FrameModel::Integer(len_i64(spec_hdel(h, fs).1)),
                    _ => kv2 == kv1 && reply == FrameModel::Error(wrongtype_msg()),
                }
            }
        },
        CommandModel::HGetAll(k) => {
            &&& kv2 == purged_kv(kv, ttl, k, now)
            &&& ttl2 == purged_ttl(ttl, k, now)
            &&& reply == if !kv2.contains_key(k) {
                FrameModel::Array(Seq::empty())
            } else {
                match kv2[k] {
                    ValueModel::Hash(h) => FrameModel::Array(spec_hgetall(h)),
                    _ => FrameModel::Error(wrongtype_msg()),
                }
            }
        },
        CommandModel::HMGet(k, fs) => {
            &&& kv2 == purged_kv(kv, ttl, k, now)
            &&& ttl2 == purged_ttl(ttl, k, now)
            &&& reply == if !kv2.contains_key(k) {
                FrameModel::Array(Seq::new(fs.len(), |i: int| FrameModel::Null))
            } else {
                match kv2[k] {
                    ValueModel::Hash(h) => FrameModel::Array(spec_hmget(h, fs)),
                    _ => FrameModel::Error(wrongtype_msg()),
                }
            }
        },
        CommandModel::HExists(k, f) => {
            &&& kv2 == purged_kv(kv, ttl, k, now)
            &&& ttl2 == purged_ttl(ttl, k, now)
            &&& reply == if !kv2.contains_key(k) {
                FrameModel::Integer(0)
            } else {
                match kv2[k] {
                    ValueModel::Hash(h) => FrameModel::Integer(
                        if assoc_idx(h, f) is Some {
                            1
                        } else {
                            0
                        },
                    ),
                    _ => FrameModel::Error(wrongtype_msg()),
                }
            }
        },
        CommandModel::HLen(k) => {
            &&& kv2 == purged_kv(kv, ttl, k, now)
            &&& ttl2 == purged_ttl(ttl, k, now)
            &&& reply == if !kv2.contains_key(k) {
                FrameModel::Integer(0)
            } else {
                match kv2[k] {
                    ValueModel::Hash(h) => FrameModel::Integer(len_i64(h.len() as int)),
                    _ => FrameModel::Error(wrongtype_msg()),
                }
            }
        },
        CommandModel::HKeys(k) => {
            &&& kv2 == purged_kv(kv, ttl, k, now)
            &&& ttl2 == purged_ttl(ttl, k, now)
            &&& reply == if !kv2.contains_key(k) {
                FrameModel::Array(Seq::empty())
            } else {
                match kv2[k] {
                    ValueModel::Hash(h) => FrameModel::Array(
                        bulks_of(h.map_values(|p: (Seq<u8>, Seq<u8>)| p.0)),
                    ),
                    _ => FrameModel::Error(wrongtype_msg()),
                }
            }
        },
        CommandModel::HVals(k) => {
            &&& kv2 == purged_kv(kv, ttl, k, now)
            &&& ttl2 == purged_ttl(ttl, k, now)
            &&& reply == if !kv2.contains_key(k) {
                FrameModel::Array(Seq::empty())
            } else {
                match kv2[k] {
                    ValueModel::Hash(h) => FrameModel::Array(
                        bulks_of(h.map_values(|p: (Seq<u8>, Seq<u8>)| p.1)),
                    ),
                    _ => FrameModel::Error(wrongtype_msg()),
                }
            }
        },
        CommandModel::SAdd(k, ms) => {
            let kv1 = purged_kv(kv, ttl, k, now);
            &&& ttl2 == purged_ttl(ttl, k, now)
            &&& if !kv1.contains_key(k) {
                let p = spec_sadd(Seq::empty(), ms);
                kv2 == kv1.insert(k, ValueModel::SetVal(p.0)) && reply == FrameModel::Integer(
                    len_i64(p.1),
                )
            } else {
                match kv1[k] {
                    ValueModel::SetVal(s) => {
                        let p = spec_sadd(s, ms);
                        kv2 == kv1.insert(k, ValueModel::SetVal(p.0)) && reply
                            == FrameModel::Integer(len_i64(p.1))
                    },
                    _ => kv2 == kv1 && reply == FrameModel::Error(wrongtype_msg()),
                }
            }
        },
        CommandModel::SRem(k, ms) => {
            let kv1 = purged_kv(kv, ttl, k, now);
            &&& ttl2 == purged_ttl(ttl, k, now)
            &&& if !kv1.contains_key(k) {
                kv2 == kv1 && reply == FrameModel::Integer(0)
            } else {
                match kv1[k] {
                    ValueModel::SetVal(s) => kv2 == kv1.insert(
                        k,
                        ValueModel::SetVal(spec_srem(s, ms).0),
                    ) && reply == FrameModel::Integer(len_i64(spec_srem(s, ms).1)),
                    _ => kv2 == kv1 && reply == FrameModel::Error(wrongtype_msg()),
                }
            }
        },
        CommandModel::SMembers(k) => {
            &&& kv2 == purged_kv(kv, ttl, k, now)
            &&& ttl2 == purged_ttl(ttl, k, now)
            &&& reply == if !kv2.contains_key(k) {
                FrameModel::Array(Seq::empty())
            } else {
                match kv2[k] {
                    ValueModel::SetVal(s) => FrameModel::Array(bulks_of(s)),
                    _ => FrameModel::Error(wrongtype_msg()),
                }
            }
        },
        CommandModel::SIsMember(k, m) => {
            &&& kv2 == purged_kv(kv, ttl, k, now)
            &&& ttl2 == purged_ttl(ttl, k, now)
            &&& reply == if !kv2.contains_key(k) {
                FrameModel::Integer(0)
            } else {
                match kv2[k] {
                    ValueModel::SetVal(s) => FrameModel::Integer(
                        if set_has(s, m) {
                            1
                        } else {
                            0
                        },
                    ),
                    _ => FrameModel::Error(wrongtype_msg()),
                }
            }
        },
        CommandModel::SCard(k) => {
            &&& kv2 == purged_kv(kv, ttl, k, now)
            &&& ttl2 == purged_ttl(ttl, k, now)
            &&& reply == if !kv2.contains_key(k) {
                FrameModel::Integer(0)
            } else {
                match kv2[k] {
                    ValueModel::SetVal(s) => FrameModel::Integer(len_i64(s.len() as int)),
                    _ => FrameModel::Error(wrongtype_msg()),
                }
            }
        },
        CommandModel::SUnion(keys) => {
            &&& kv2 == kv
            &&& ttl2 == ttl
            &&& reply == FrameModel::Array(bulks_of(spec_sunion(kv, ttl, now, keys)))
        },
        CommandModel::SInter(keys) => {
            &&& kv2 == kv
            &&& ttl2 == ttl
            &&& reply == match spec_first_set(kv, ttl, now, keys) {
                Some(base) => FrameModel::Array(bulks_of(spec_inter_fold(kv, base, keys))),
                None => FrameModel::Array(Seq::empty()),
            }
        },
        CommandModel::SDiff(keys) => {
            &&& kv2 == kv
            &&& ttl2 == ttl
            &&& keys.len() == 0 ==> reply == FrameModel::Array(Seq::empty())
            &&& keys.len() > 0 ==> reply == ({
                let k0 = keys[0];
                if is_expired(ttl, k0, now) {
                    FrameModel::Array(Seq::empty())
                } else {
                    let base: Seq<Seq<u8>> = if kv.contains_key(k0) && kv[k0] is SetVal {
                        kv[k0]->SetVal_0
                    } else {
                        Seq::empty()
                    };
                    FrameModel::Array(
                        bulks_of(spec_diff_fold(kv, base, keys.subrange(1, keys.len() as int))),
                    )
                }
            })
        },
        CommandModel::ZAdd(k, sc, m) => {
            let kv1 = purged_kv(kv, ttl, k, now);
            &&& ttl2 == purged_ttl(ttl, k, now)
            &&& if !kv1.contains_key(k) {
                kv2 == kv1.insert(
                    k,
                    ValueModel::ZSet(zinsert(zremove(Seq::empty(), m), sc, m)),
                ) && reply == FrameModel::Integer(1)
            } else {
                match kv1[k] {
                    ValueModel::ZSet(z) => kv2 == kv1.insert(
                        k,
                        ValueModel::ZSet(zinsert(zremove(z, m), sc, m)),
                    ) && reply == FrameModel::Integer(1),
                    _ => kv2 == kv1 && reply == FrameModel::Error(wrongtype_msg()),
                }
            }
        },
        CommandModel::ZRem(k, m) => {
            let kv1 = purged_kv(kv, ttl, k, now);
            &&& ttl2 == purged_ttl(ttl, k, now)
            &&& if !kv1.contains_key(k) {
                kv2 == kv1 && reply == FrameModel::Integer(0)
            } else {
                match kv1[k] {
                    ValueModel::ZSet(z) => kv2 == kv1.insert(k, ValueModel::ZSet(zremove(z, m)))
                        && reply == FrameModel::Integer(
                        if exists|i: int| 0 <= i < z.len() && (#[trigger] z[i]).1 == m {
                            1
                        } else {
                            0
                        },
                    ),
                    _ => kv2 == kv1 && reply == FrameModel::Error(wrongtype_msg()),
                }
            }
        },
        CommandModel::ZRange(k, start, end) => {
            &&& kv2 == purged_kv(kv, ttl, k, now)
            &&& ttl2 == purged_ttl(ttl, k, now)
            &&& reply == if !kv2.contains_key(k) {
                FrameModel::Array(Seq::empty())
            } else {
                match kv2[k] {
                    ValueModel::ZSet(z) => FrameModel::Array(
                        bulks_of(spec_lrange(zmembers(z), start, end)),
                    ),
                    _ => FrameModel::Error(wrongtype_msg()),
                }
            }
        },
        CommandModel::ZRevRange(k, start, end) => {
            &&& kv2 == purged_kv(kv, ttl, k, now)
            &&& ttl2 == purged_ttl(ttl, k, now)
            &&& reply == if !kv2.contains_key(k) {
                FrameModel::Array(Seq::empty())
            } else {
                match kv2[k] {
                    ValueModel::ZSet(z) => FrameModel::Array(
                        bulks_of(spec_zrevrange(zmembers(z), start, end)),
                    ),
                    _ => FrameModel::Error(wrongtype_msg()),
                }
            }
        },
        CommandModel::ZCard(k) => {
            &&& kv2 == purged_kv(kv, ttl, k, now)
            &&& ttl2 == purged_ttl(ttl, k, now)
            &&& reply == if !kv2.contains_key(k) {
                FrameModel::Integer(0)
            } else {
                match kv2[k] {
                    ValueModel::ZSet(z) => FrameModel::Integer(len_i64(z.len() as int)),
                    _ => FrameModel::Error(wrongtype_msg()),
                }
            }
        },
        CommandModel::ZScore(k, m) => {
            &&& kv2 == purged_kv(kv, ttl, k, now)
            &&& ttl2 == purged_ttl(ttl, k, now)
            &&& reply == if !kv2.contains_key(k) {
                FrameModel::Null
            } else {
                match kv2[k] {
                    ValueModel::ZSet(z) => match zfind(z, m) {
                        Some(i) => FrameModel::Bulk(crate::score::spec_score_repr(z[i].0)),
                        None => FrameModel::Null,
                    },
                    _ => FrameModel::Error(wrongtype_msg()),
                }
            }
        },
        CommandModel::ZRangeByScore(k, min, max) => {
            &&& kv2 == purged_kv(kv, ttl, k, now)
            &&& ttl2 == purged_ttl(ttl, k, now)
            &&& reply == if !kv2.contains_key(k) {
                FrameModel::Array(Seq::empty())
            } else {
                match kv2[k] {
                    ValueModel::ZSet(z) => FrameModel::Array(bulks_of(zmembers_in(z, min, max))),
                    _ => FrameModel::Error(wrongtype_msg()),
                }
            }
        },
        CommandModel::ZRemRangeByScore(k, min, max) => {
            let kv1 = purged_kv(kv, ttl, k, now);
            &&& ttl2 == purged_ttl(ttl, k, now)
            &&& if !kv1.contains_key(k) {
                kv2 == kv1 && reply == FrameModel::Integer(0)
            } else {
                match kv1[k] {
                    ValueModel::ZSet(z) => {
                        let kept = z.filter(score_out(min, max));
                        kv2 == kv1.insert(k, ValueModel::ZSet(kept)) && reply
                            == FrameModel::Integer(len_i64(z.len() - kept.len()))
                    },
                    _ => kv2 == kv1 && reply == FrameModel::Error(wrongtype_msg()),
                }
            }
        },
        CommandModel::ZRank(k, m) => {
            &&& kv2 == purged_kv(kv, ttl, k, now)
            &&& ttl2 == purged_ttl(ttl, k, now)
            &&& reply == if !kv2.contains_key(k) {
                FrameModel::Null
            } else {
                match kv2[k] {
                    ValueModel::ZSet(z) => match zfind(z, m) {
                        Some(i) => FrameModel::Integer(len_i64(i)),
                        None => FrameModel::Null,
                    },
                    _ => FrameModel::Error(wrongtype_msg()),
                }
            }
        },
        CommandModel::ZRevRank(k, m) => {
            &&& kv2 == purged_kv(kv, ttl, k, now)
            &&& ttl2 == purged_ttl(ttl, k, now)
            &&& reply == if !kv2.contains_key(k) {
                FrameModel::Null
            } else {
                match kv2[k] {
                    ValueModel::ZSet(z) => match zfind(z, m) {
                        Some(i) => FrameModel::Integer(len_i64(z.len() - 1 - i)),
                        None => FrameModel::Null,
                    },
                    _ => FrameModel::Error(wrongtype_msg()),
                }
            }
        },
        CommandModel::ZCount(k, min, max) => {
            &&& kv2 == purged_kv(kv, ttl, k, now)
            &&& ttl2 == purged_ttl(ttl, k, now)
            &&& reply == if !kv2.contains_key(k) {
                FrameModel::Integer(0)
            } else {
                match kv2[k] {
                    ValueModel::ZSet(z) => FrameModel::Integer(
                        len_i64(zmembers_in(z, min, max).len() as int),
                    ),
                    _ => FrameModel::Error(wrongtype_msg()),
                }
            }
        },
    }
}

impl Store {
    /// Runs one command against the store at time `now` and returns the
    /// reply frame. A blocking pop that finds nothing answers Null at once;
    /// the caller owns all waiting.
    pub fn apply(&mut self, cmd: Command, now: u64) -> (r: Frame)
        requires
            old(self).wf(),
        ensures
            final(self).wf(),
            apply_rel(
                old(self).kv(),
                old(self).ttl(),
                cmd@,
                now as int,
                final(self).kv(),
                final(self).ttl(),
                r@,
            ),
    {
        match cmd {
            Command::Ping => pong_frame(),
            Command::Expire(k, secs) => self.expire(k, secs, now),
            Command::Ttl(k) => self.ttl_cmd(&k, now),
            Command::Get(k) => self.get(&k, now),
            Command::SetCmd(k, v) => self.set(k, v, now),
            Command::Del(k) => self.del(&k, now),
            Command::Append(k, v) => self.append(k, v, now),
            Command::StrLen(k) => self.strlen(&k, now),
            Command::GetSet(k, v) => self.getset(k, v, now),
            Command::Incr(k) => self.incr(k, now),
            Command::IncrBy(k, amt) => self.incrby(k, amt, now),
            Command::MSet(pairs) => self.mset(&pairs, now),
            Command::MGet(keys) => self.mget(&keys, now),
            Command::LPush(k, vals) => self.lpush(k, &vals, now),
            Command::LPop(k) => self.lpop(&k, now),
            Command::RPush(k, vals) => self.rpush(k, &vals, now),
            Command::RPop(k) => self.rpop(&k, now),
            Command::LLen(k) => self.llen(&k, now),
            Command::LRange(k, s, e) => self.lrange(&k, s, e, now),
            Command::LIndex(k, idx) => self.lindex(&k, idx, now),
            Command::LSet(k, idx, v) => self.lset(&k, idx, v, now),
            Command::LTrim(k, s, e) => self.ltrim(&k, s, e, now),
            Command::BRPop(k, _timeout) => {
                match self.brpop_step(&k, now) {
                    BrpopStep::Done(f) => f,
                    BrpopStep::Wait => Frame::Null,
                    BrpopStep::Poll => Frame::Null,
                }
            },
            Command::HSet(k, f, v) => self.hset(k, f, v, now),
            Command::HGet(k, f) => self.hget(&k, &f, now),
            Command::HDel(k, fs) => self.hdel(&k, &fs, now),
            Command::HGetAll(k) => self.hgetall(&k, now),
            Command::HMGet(k, fs) => self.hmget(&k, &fs, now),
            Command::HExists(k, f) => self.hexists(&k, &f, now),
            Command::HLen(k) => self.hlen(&k, now),
            Command::HKeys(k) => self.hkeys(&k, now),
            Command::HVals(k) => self.hvals(&k, now),
            Command::SAdd(k, ms) => self.sadd(k, &ms, now),
            Command::SRem(k, ms) => self.srem(&k, &ms, now),
            Command::SMembers(k) => self.smembers(&k, now),
            Command::SIsMember(k, m) => self.sismember(&k, &m, now),
            Command::SCard(k) => self.scard(&k, now),
            Command::SUnion(keys) => self.sunion(&keys, now),
            Command::SInter(keys) => self.sinter(&keys, now),
            Command::SDiff(keys) => {
                if keys.len() == 0 {
                    let empty: Vec<Frame> = Vec::new();
                    proof {
                        crate::frame::lemma_array_view(empty);
                        assert(crate::frame::frames_view(empty) =~= Seq::<FrameModel>::empty());
                    }
                    Frame::Array(empty)
                } else {
                    self.sdiff(&keys, now)
                }
            },
            Command::ZAdd(k, sc, m) => self.zadd(k, sc, m, now),
            Command::ZRem(k, m) => self.zrem(&k, &m, now),
            Command::ZRange(k, s, e) => self.zrange(&k, s, e, now),
            Command::ZRevRange(k, s, e) => self.zrevrange(&k, s, e, now),
            Command::ZCard(k) => self.zcard(&k, now),
            Command::ZScore(k, m) => self.zscore(&k, &m, now),
            Command::ZRangeByScore(k, min, max) => self.zrange_by_score(&k, min, max, now),
            Command::ZRemRangeByScore(k, min, max) => self.zremrangebyscore(&k, min, max, now),
            Command::ZRank(k, m) => self.zrank(&k, &m, now),
            Command::ZRevRank(k, m) => self.zrevrank(&k, &m, now),
            Command::ZCount(k, min, max) => self.zcount(&k, min, max, now),
        }
    }
}


// ---------------------------------------------------------------------------
// Replay laws: the dispatch relation is deterministic, so a journal replay
// reconstructs exactly the state it was written from.
// ---------------------------------------------------------------------------

/// One command from one state fixes the successor maps and the reply.
pub proof fn lemma_apply_deterministic(
    kv: Map<Seq<u8>, ValueModel>,
    ttl: Map<Seq<u8>, int>,
    cmd: CommandModel,
    now: int,
    kv2: Map<Seq<u8>, ValueModel>,
    ttl2: Map<Seq<u8>, int>,
    r: FrameModel,
    kv3: Map<Seq<u8>, ValueModel>,
    ttl3: Map<Seq<u8>, int>,
    r2: FrameModel,
)
    requires
        apply_rel(kv, ttl, cmd, now, kv2, ttl2, r),
        apply_rel(kv, ttl, cmd, now, kv3, ttl3, r2),
    ensures
        kv2 == kv3,
        ttl2 == ttl3,
        r == r2,
{
}

/// Reaching `(kv2, ttl2)` by applying the commands in order, each step
/// related by `apply_rel`.
pub open spec fn runs_to(
    kv: Map<Seq<u8>, ValueModel>,
    ttl: Map<Seq<u8>, int>,
    cmds: Seq<CommandModel>,
    now: int,
    kv2: Map<Seq<u8>, ValueModel>,
    ttl2: Map<Seq<u8>, int>,
) -> bool
    decreases cmds.len(),
{
    if cmds.len() == 0 {
        kv2 == kv && ttl2 == ttl
    } else {
        exists|kvm: Map<Seq<u8>, ValueModel>, ttlm: Map<Seq<u8>, int>, rep: FrameModel|
            #[trigger] apply_rel(kv, ttl, cmds[0], now, kvm, ttlm, rep) && runs_to(
                kvm,
                ttlm,
                cmds.subrange(1, cmds.len() as int),
                now,
                kv2,
                ttl2,
            )
    }
}

/// Two runs of the same command list from the same state end in the same
/// maps; with the step determinism above, they also answer every further
/// command identically.
pub proof fn lemma_replay_equivalence(
    kv: Map<Seq<u8>, ValueModel>,
    ttl: Map<Seq<u8>, int>,
    cmds: Seq<CommandModel>,
    now: int,
    kv2: Map<Seq<u8>, ValueModel>,
    ttl2: Map<Seq<u8>, int>,
    kv3: Map<Seq<u8>, ValueModel>,
    ttl3: Map<Seq<u8>, int>,
)
    requires
        runs_to(kv, ttl, cmds, now, kv2, ttl2),
        runs_to(kv, ttl, cmds, now, kv3, ttl3),
    ensures
        kv2 == kv3,
        ttl2 == ttl3,
    decreases cmds.len(),
{
    if cmds.len() > 0 {
        let rest = cmds.subrange(1, cmds.len() as int);
        let (kvm, ttlm, rep) = choose|kvm: Map<Seq<u8>, ValueModel>, ttlm: Map<
            Seq<u8>,
            int,
        >, rep: FrameModel|
            #[trigger] apply_rel(kv, ttl, cmds[0], now, kvm, ttlm, rep) && runs_to(
                kvm,
                ttlm,
                rest,
                now,
                kv2,
                ttl2,
            );
        let (kvm2, ttlm2, rep2) = choose|kvm2: Map<Seq<u8>, ValueModel>, ttlm2: Map<
            Seq<u8>,
            int,
        >, rep2: FrameModel|
            #[trigger] apply_rel(kv, ttl, cmds[0], now, kvm2, ttlm2, rep2) && runs_to(
                kvm2,
                ttlm2,
                rest,
                now,
                kv3,
                ttl3,
            );
        lemma_apply_deterministic(
            kv,
            ttl,
            cmds[0],
            now,
            kvm,
            ttlm,
            rep,
            kvm2,
            ttlm2,
            rep2,
        );
        lemma_replay_equivalence(kvm, ttlm, rest, now, kv2, ttl2, kv3, ttl3);
    }
}

/// The commands a frame list resolves to, skipping the unresolvable ones as
/// replay does.
pub open spec fn replay_cmds(frames: Seq<FrameModel>) -> Seq<CommandModel>
    decreases frames.len(),
{
    if frames.len() == 0 {
        Seq::empty()
    } else {
        let rest = replay_cmds(frames.subrange(1, frames.len() as int));
        match crate::command::spec_command_of(frames[0]) {
            Ok(c) => seq![c] + rest,
            Err(_) => rest,
        }
    }
}

/// Replaying a journal reconstructs the journaled state: the journal of some
/// well-formed request frames decodes back to those frames, so a fresh run
/// of the commands they resolve to ends in the same maps as the run that
/// wrote the journal.
pub proof fn lemma_journal_replay(
    frames: Seq<FrameModel>,
    kv: Map<Seq<u8>, ValueModel>,
    ttl: Map<Seq<u8>, int>,
    now: int,
    kv2: Map<Seq<u8>, ValueModel>,
    ttl2: Map<Seq<u8>, int>,
    kv3: Map<Seq<u8>, ValueModel>,
    ttl3: Map<Seq<u8>, int>,
)
    requires
        crate::codec_laws::wf_frames(frames),
        runs_to(kv, ttl, replay_cmds(frames), now, kv2, ttl2),
        crate::aof::spec_frames_from(crate::encoder::spec_encode_n(frames)) is Ok,
        runs_to(
            kv,
            ttl,
            replay_cmds(
                crate::aof::spec_frames_from(crate::encoder::spec_encode_n(frames))->Ok_0,
            ),
            now,
            kv3,
            ttl3,
        ),
    ensures
        kv2 == kv3,
        ttl2 == ttl3,
{
    crate::aof::lemma_journal_roundtrip(frames);
    lemma_replay_equivalence(
        kv,
        ttl,
        replay_cmds(frames),
        now,
        kv2,
        ttl2,
        kv3,
        ttl3,
    );
}

} // verus!
