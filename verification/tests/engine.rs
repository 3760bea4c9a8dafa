use redisling::command::Command;
use redisling::encoder::encode_frame;
use redisling::frame::Frame;
use redisling::store::Store;
use redisling::store_lists::BrpopStep;

fn b(s: &str) -> Vec<u8> {
    s.as_bytes().to_vec()
}

fn enc(f: &Frame) -> Vec<u8> {
    encode_frame(f)
}

fn assert_frame_eq(a: &Frame, bf: &Frame) {
    assert_eq!(enc(a), enc(bf));
}

#[test]
fn set_then_get() {
    let mut s = Store::new();
    let r = s.set(b("k"), b("v"), 0);
    assert_frame_eq(&r, &Frame::Simple(b("OK")));
    let g = s.get(&b("k"), 0);
    assert_frame_eq(&g, &Frame::Bulk(b("v")));
}

#[test]
fn incr_from_one_gives_two() {
    let mut s = Store::new();
    s.set(b("k"), b("1"), 0);
    let r = s.incr(b("k"), 0);
    assert_frame_eq(&r, &Frame::Integer(2));
    let g = s.get(&b("k"), 0);
    assert_frame_eq(&g, &Frame::Bulk(b("2")));
}

#[test]
fn incr_on_absent_and_bad_values() {
    let mut s = Store::new();
    let r = s.incr(b("c"), 0);
    assert_frame_eq(&r, &Frame::Integer(1));
    s.set(b("t"), b("abc"), 0);
    let e = s.incr(b("t"), 0);
    assert_frame_eq(&e, &Frame::Error(b("ERR value is not an integer")));
    let r2 = s.incrby(b("c"), 41, 0);
    assert_frame_eq(&r2, &Frame::Integer(42));
}

#[test]
fn lpush_then_lrange_reverses() {
    let mut s = Store::new();
    let r = s.lpush(b("k"), &vec![b("a"), b("b")], 0);
    assert_frame_eq(&r, &Frame::Integer(2));
    let g = s.lrange(&b("k"), 0, -1, 0);
    assert_frame_eq(
        &g,
        &Frame::Array(vec![Frame::Bulk(b("b")), Frame::Bulk(b("a"))]),
    );
}

#[test]
fn rpush_pop_both_ends() {
    let mut s = Store::new();
    s.rpush(b("q"), &vec![b("1"), b("2"), b("3")], 0);
    let l = s.lpop(&b("q"), 0);
    assert_frame_eq(&l, &Frame::Bulk(b("1")));
    let r = s.rpop(&b("q"), 0);
    assert_frame_eq(&r, &Frame::Bulk(b("3")));
    let n = s.llen(&b("q"), 0);
    assert_frame_eq(&n, &Frame::Integer(1));
    let e = s.lpop(&b("missing"), 0);
    assert_frame_eq(&e, &Frame::Null);
}

#[test]
fn lindex_lset_ltrim() {
    let mut s = Store::new();
    s.rpush(b("l"), &vec![b("a"), b("b"), b("c"), b("d")], 0);
    assert_frame_eq(&s.lindex(&b("l"), -1, 0), &Frame::Bulk(b("d")));
    assert_frame_eq(&s.lindex(&b("l"), 9, 0), &Frame::Null);
    assert_frame_eq(&s.lset(&b("l"), 1, b("B"), 0), &Frame::Simple(b("OK")));
    assert_frame_eq(
        &s.lset(&b("l"), 9, b("x"), 0),
        &Frame::Error(b("ERR index out of range")),
    );
    assert_frame_eq(
        &s.lset(&b("nope"), 0, b("x"), 0),
        &Frame::Error(b("ERR no such key")),
    );
    assert_frame_eq(&s.ltrim(&b("l"), 1, 2, 0), &Frame::Simple(b("OK")));
    assert_frame_eq(
        &s.lrange(&b("l"), 0, -1, 0),
        &Frame::Array(vec![Frame::Bulk(b("B")), Frame::Bulk(b("c"))]),
    );
}

#[test]
fn hash_cycle() {
    let mut s = Store::new();
    assert_frame_eq(&s.hset(b("h"), b("f"), b("v"), 0), &Frame::Integer(1));
    assert_frame_eq(&s.hget(&b("h"), &b("f"), 0), &Frame::Bulk(b("v")));
    assert_frame_eq(&s.hdel(&b("h"), &vec![b("f")], 0), &Frame::Integer(1));
    assert_frame_eq(&s.hexists(&b("h"), &b("f"), 0), &Frame::Integer(0));
}

#[test]
fn hash_bulk_queries() {
    let mut s = Store::new();
    s.hset(b("h"), b("a"), b("1"), 0);
    s.hset(b("h"), b("b"), b("2"), 0);
    assert_frame_eq(&s.hset(b("h"), b("a"), b("9"), 0), &Frame::Integer(0));
    assert_frame_eq(&s.hlen(&b("h"), 0), &Frame::Integer(2));
    assert_frame_eq(
        &s.hgetall(&b("h"), 0),
        &Frame::Array(vec![
            Frame::Bulk(b("a")),
            Frame::Bulk(b("9")),
            Frame::Bulk(b("b")),
            Frame::Bulk(b("2")),
        ]),
    );
    assert_frame_eq(
        &s.hmget(&b("h"), &vec![b("b"), b("zz")], 0),
        &Frame::Array(vec![Frame::Bulk(b("2")), Frame::Null]),
    );
    assert_frame_eq(
        &s.hkeys(&b("h"), 0),
        &Frame::Array(vec![Frame::Bulk(b("a")), Frame::Bulk(b("b"))]),
    );
    assert_frame_eq(
        &s.hvals(&b("h"), 0),
        &Frame::Array(vec![Frame::Bulk(b("9")), Frame::Bulk(b("2"))]),
    );
}

#[test]
fn expire_then_get_later_is_null_and_ttl_gone() {
    let mut s = Store::new();
    s.set(b("k"), b("v"), 0);
    assert_frame_eq(&s.expire(b("k"), 1, 1000), &Frame::Integer(1));
    // less than a second later the value is still there
    assert_frame_eq(&s.get(&b("k"), 1500), &Frame::Bulk(b("v")));
    // more than a second later it is gone
    assert_frame_eq(&s.get(&b("k"), 2500), &Frame::Null);
    assert_frame_eq(&s.ttl_cmd(&b("k"), 2500), &Frame::Integer(-2));
}

#[test]
fn ttl_reports_remaining_and_missing() {
    let mut s = Store::new();
    assert_frame_eq(&s.ttl_cmd(&b("k"), 0), &Frame::Integer(-2));
    s.set(b("k"), b("v"), 0);
    assert_frame_eq(&s.ttl_cmd(&b("k"), 0), &Frame::Integer(-1));
    s.expire(b("k"), 10, 0);
    assert_frame_eq(&s.ttl_cmd(&b("k"), 4000), &Frame::Integer(6));
    assert_frame_eq(&s.expire(b("nope"), 5, 0), &Frame::Integer(0));
}

#[test]
fn wrongtype_keeps_value() {
    let mut s = Store::new();
    s.set(b("k"), b("x"), 0);
    let e = s.lpush(b("k"), &vec![b("y")], 0);
    assert_frame_eq(
        &e,
        &Frame::Error(b(
            "WRONGTYPE Operation against a key holding the wrong kind of value",
        )),
    );
    assert_frame_eq(&s.get(&b("k"), 0), &Frame::Bulk(b("x")));
}

#[test]
fn del_and_strlen_append_getset() {
    let mut s = Store::new();
    assert_frame_eq(&s.append(b("k"), b("ab"), 0), &Frame::Integer(2));
    assert_frame_eq(&s.append(b("k"), b("cd"), 0), &Frame::Integer(4));
    assert_frame_eq(&s.strlen(&b("k"), 0), &Frame::Integer(4));
    assert_frame_eq(&s.getset(b("k"), b("new"), 0), &Frame::Bulk(b("abcd")));
    assert_frame_eq(&s.del(&b("k"), 0), &Frame::Integer(1));
    assert_frame_eq(&s.del(&b("k"), 0), &Frame::Integer(0));
    assert_frame_eq(&s.strlen(&b("k"), 0), &Frame::Integer(0));
}

#[test]
fn mset_and_mget() {
    let mut s = Store::new();
    let pairs = vec![
        redisling::value::Pair { k: b("a"), v: b("1") },
        redisling::value::Pair { k: b("b"), v: b("2") },
    ];
    assert_frame_eq(&s.mset(&pairs, 0), &Frame::Simple(b("OK")));
    s.lpush(b("l"), &vec![b("x")], 0);
    assert_frame_eq(
        &s.mget(&vec![b("a"), b("missing"), b("l"), b("b")], 0),
        &Frame::Array(vec![
            Frame::Bulk(b("1")),
            Frame::Null,
            Frame::Error(b(
                "WRONGTYPE Operation against a key holding the wrong kind of value",
            )),
            Frame::Bulk(b("2")),
        ]),
    );
}

#[test]
fn sets_basic_and_algebra() {
    let mut s = Store::new();
    assert_frame_eq(&s.sadd(b("s1"), &vec![b("a"), b("b"), b("a")], 0), &Frame::Integer(2));
    assert_frame_eq(&s.sismember(&b("s1"), &b("a"), 0), &Frame::Integer(1));
    assert_frame_eq(&s.scard(&b("s1"), 0), &Frame::Integer(2));
    s.sadd(b("s2"), &vec![b("b"), b("c")], 0);
    assert_frame_eq(
        &s.sunion(&vec![b("s1"), b("s2")], 0),
        &Frame::Array(vec![Frame::Bulk(b("a")), Frame::Bulk(b("b")), Frame::Bulk(b("c"))]),
    );
    assert_frame_eq(
        &s.sinter(&vec![b("s1"), b("s2")], 0),
        &Frame::Array(vec![Frame::Bulk(b("b"))]),
    );
    assert_frame_eq(
        &s.sdiff(&vec![b("s1"), b("s2")], 0),
        &Frame::Array(vec![Frame::Bulk(b("a"))]),
    );
    assert_frame_eq(&s.srem(&b("s1"), &vec![b("a"), b("zz")], 0), &Frame::Integer(1));
    assert_frame_eq(
        &s.smembers(&b("s1"), 0),
        &Frame::Array(vec![Frame::Bulk(b("b"))]),
    );
}

#[test]
fn zset_orders_by_score_then_member() {
    let mut s = Store::new();
    // scores are millionths
    s.zadd(b("z"), 2_000_000, b("b"), 0);
    s.zadd(b("z"), 1_000_000, b("c"), 0);
    s.zadd(b("z"), 1_000_000, b("a"), 0);
    assert_frame_eq(
        &s.zrange(&b("z"), 0, -1, 0),
        &Frame::Array(vec![Frame::Bulk(b("a")), Frame::Bulk(b("c")), Frame::Bulk(b("b"))]),
    );
    assert_frame_eq(
        &s.zrevrange(&b("z"), 0, -1, 0),
        &Frame::Array(vec![Frame::Bulk(b("b")), Frame::Bulk(b("c")), Frame::Bulk(b("a"))]),
    );
}

#[test]
fn zset_rank_matches_iteration_index() {
    let mut s = Store::new();
    s.zadd(b("z"), 1_000_000, b("a"), 0);
    s.zadd(b("z"), 2_000_000, b("b"), 0);
    s.zadd(b("z"), 3_000_000, b("c"), 0);
    assert_frame_eq(&s.zrank(&b("z"), &b("a"), 0), &Frame::Integer(0));
    assert_frame_eq(&s.zrank(&b("z"), &b("b"), 0), &Frame::Integer(1));
    assert_frame_eq(&s.zrank(&b("z"), &b("c"), 0), &Frame::Integer(2));
    assert_frame_eq(&s.zrevrank(&b("z"), &b("a"), 0), &Frame::Integer(2));
    assert_frame_eq(&s.zrank(&b("z"), &b("zz"), 0), &Frame::Null);
}

#[test]
fn zset_range_by_score_is_score_filter() {
    let mut s = Store::new();
    s.zadd(b("z"), 1_000_000, b("a"), 0);
    s.zadd(b("z"), 2_000_000, b("b"), 0);
    s.zadd(b("z"), 3_000_000, b("c"), 0);
    assert_frame_eq(
        &s.zrange_by_score(&b("z"), 2_000_000, 3_000_000, 0),
        &Frame::Array(vec![Frame::Bulk(b("b")), Frame::Bulk(b("c"))]),
    );
    assert_frame_eq(&s.zcount(&b("z"), 2_000_000, 3_000_000, 0), &Frame::Integer(2));
    assert_frame_eq(&s.zremrangebyscore(&b("z"), 1_000_000, 2_000_000, 0), &Frame::Integer(2));
    assert_frame_eq(&s.zcard(&b("z"), 0), &Frame::Integer(1));
}

#[test]
fn zset_reinsert_updates_score_and_keeps_cardinality() {
    let mut s = Store::new();
    s.zadd(b("z"), 1_000_000, b("a"), 0);
    s.zadd(b("z"), 2_000_000, b("b"), 0);
    assert_frame_eq(&s.zcard(&b("z"), 0), &Frame::Integer(2));
    s.zadd(b("z"), 5_500_000, b("a"), 0);
    assert_frame_eq(&s.zcard(&b("z"), 0), &Frame::Integer(2));
    assert_frame_eq(&s.zscore(&b("z"), &b("a"), 0), &Frame::Bulk(b("5.5")));
    assert_frame_eq(
        &s.zrange(&b("z"), 0, -1, 0),
        &Frame::Array(vec![Frame::Bulk(b("b")), Frame::Bulk(b("a"))]),
    );
    assert_frame_eq(&s.zrem(&b("z"), &b("a"), 0), &Frame::Integer(1));
    assert_frame_eq(&s.zrem(&b("z"), &b("a"), 0), &Frame::Integer(0));
}

#[test]
fn brpop_step_outcomes() {
    let mut s = Store::new();
    // absent key: the caller must poll
    assert!(matches!(s.brpop_step(&b("q"), 0), BrpopStep::Poll));
    // empty list: the caller must wait on the signal
    s.rpush(b("q"), &vec![b("x")], 0);
    s.rpop(&b("q"), 0);
    assert!(matches!(s.brpop_step(&b("q"), 0), BrpopStep::Wait));
    // a produced element wakes a consumer with [key, value]
    s.lpush(b("q"), &vec![b("42")], 0);
    match s.brpop_step(&b("q"), 0) {
        BrpopStep::Done(f) => assert_frame_eq(
            &f,
            &Frame::Array(vec![Frame::Bulk(b("q")), Frame::Bulk(b("42"))]),
        ),
        _ => panic!("expected a popped reply"),
    }
}

#[test]
fn two_incr_applications_never_lose_an_update() {
    // the engine applies commands one at a time under the caller's lock; two
    // increments from an absent start always answer 1 then 2
    let mut s = Store::new();
    let c1 = Command::try_from(Frame::Array(vec![
        Frame::Bulk(b("INCR")),
        Frame::Bulk(b("c")),
    ]))
    .unwrap();
    let c2 = Command::try_from(Frame::Array(vec![
        Frame::Bulk(b("INCR")),
        Frame::Bulk(b("c")),
    ]))
    .unwrap();
    assert_frame_eq(&s.apply(c1, 0), &Frame::Integer(1));
    assert_frame_eq(&s.apply(c2, 0), &Frame::Integer(2));
    assert_frame_eq(&s.get(&b("c"), 0), &Frame::Bulk(b("2")));
}

#[test]
fn zadd_answers_one_even_for_an_existing_member() {
    let mut s = Store::new();
    assert_frame_eq(&s.zadd(b("z"), 1_000_000, b("a"), 0), &Frame::Integer(1));
    assert_frame_eq(&s.zadd(b("z"), 2_000_000, b("a"), 0), &Frame::Integer(1));
}

#[test]
fn sinter_with_a_non_set_first_key_is_empty() {
    let mut s = Store::new();
    s.set(b("k"), b("v"), 0);
    s.sadd(b("s"), &vec![b("a")], 0);
    // a plain string key never seeds the intersection
    assert_frame_eq(&s.sinter(&vec![b("k")], 0), &Frame::Array(vec![]));
}

#[test]
fn sunion_skips_expired_keys() {
    let mut s = Store::new();
    s.sadd(b("s1"), &vec![b("a")], 0);
    s.sadd(b("s2"), &vec![b("b")], 0);
    s.expire(b("s1"), 1, 0);
    assert_frame_eq(
        &s.sunion(&vec![b("s1"), b("s2")], 5000),
        &Frame::Array(vec![Frame::Bulk(b("b"))]),
    );
}

#[test]
fn empty_values_report_zero_lengths() {
    let mut s = Store::new();
    s.rpush(b("l"), &vec![b("x")], 0);
    s.rpop(&b("l"), 0);
    assert_frame_eq(&s.llen(&b("l"), 0), &Frame::Integer(0));
    s.hset(b("h"), b("f"), b("v"), 0);
    s.hdel(&b("h"), &vec![b("f")], 0);
    assert_frame_eq(&s.hlen(&b("h"), 0), &Frame::Integer(0));
}

#[test]
fn getset_on_wrong_type_keeps_the_old_value() {
    let mut s = Store::new();
    s.rpush(b("k"), &vec![b("x")], 0);
    let e = s.getset(b("k"), b("v"), 0);
    assert_frame_eq(
        &e,
        &Frame::Error(b(
            "WRONGTYPE Operation against a key holding the wrong kind of value",
        )),
    );
    // the list survived
    assert_frame_eq(
        &s.lrange(&b("k"), 0, -1, 0),
        &Frame::Array(vec![Frame::Bulk(b("x"))]),
    );
}

#[test]
fn mget_reads_an_expired_key_as_null() {
    let mut s = Store::new();
    s.set(b("k"), b("v"), 0);
    s.expire(b("k"), 1, 0);
    assert_frame_eq(
        &s.mget(&vec![b("k")], 2000),
        &Frame::Array(vec![Frame::Null]),
    );
    // before the deadline the value still reads
    assert_frame_eq(
        &s.mget(&vec![b("k")], 500),
        &Frame::Array(vec![Frame::Bulk(b("v"))]),
    );
}

#[test]
fn mset_over_an_expired_key_clears_the_stale_deadline() {
    let mut s = Store::new();
    s.set(b("k"), b("old"), 0);
    s.expire(b("k"), 1, 0);
    let pairs = vec![redisling::value::Pair { k: b("k"), v: b("new") }];
    s.mset(&pairs, 5000);
    // the fresh value is alive: no leftover deadline kills it
    assert_frame_eq(&s.get(&b("k"), 6000), &Frame::Bulk(b("new")));
    assert_frame_eq(&s.ttl_cmd(&b("k"), 6000), &Frame::Integer(-1));
}

#[test]
fn sweep_purges_exactly_the_due_keys() {
    let mut s = Store::new();
    s.set(b("a"), b("1"), 0);
    s.set(b("b"), b("2"), 0);
    s.set(b("c"), b("3"), 0);
    s.expire(b("a"), 1, 0);
    s.expire(b("b"), 10, 0);
    s.sweep(5000);
    assert_frame_eq(&s.get(&b("a"), 5000), &Frame::Null);
    assert_frame_eq(&s.get(&b("b"), 5000), &Frame::Bulk(b("2")));
    assert_frame_eq(&s.get(&b("c"), 5000), &Frame::Bulk(b("3")));
    assert_frame_eq(&s.ttl_cmd(&b("a"), 5000), &Frame::Integer(-2));
    assert_frame_eq(&s.ttl_cmd(&b("b"), 5000), &Frame::Integer(5));
}

#[test]
fn sdiff_of_no_keys_is_an_empty_array() {
    let mut s = Store::new();
    let r = s.apply(Command::SDiff(vec![]), 0);
    assert_frame_eq(&r, &Frame::Array(vec![]));
}

#[test]
fn expire_does_not_resurrect_an_expired_key() {
    let mut s = Store::new();
    s.set(b("k"), b("v"), 0);
    s.expire(b("k"), 1, 0);
    // the deadline passed but nothing touched the key; a new EXPIRE must not
    // re-arm it
    assert_frame_eq(&s.expire(b("k"), 100, 5000), &Frame::Integer(0));
    assert_frame_eq(&s.get(&b("k"), 5000), &Frame::Null);
    assert_frame_eq(&s.ttl_cmd(&b("k"), 5000), &Frame::Integer(-2));
}
