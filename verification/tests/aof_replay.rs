use redisling::aof::{parse_frames_from_bytes, AofFsync};
use redisling::command::Command;
use redisling::encoder::encode_frame;
use redisling::frame::Frame;
use redisling::parser::parse_frame;
use redisling::store::Store;

fn b(s: &str) -> Vec<u8> {
    s.as_bytes().to_vec()
}

fn req(parts: &[&str]) -> Frame {
    Frame::Array(parts.iter().map(|p| Frame::Bulk(b(p))).collect())
}

/// Runs requests against a store, journaling the frames of successful
/// mutations exactly as the connection loop would.
fn run_and_journal(s: &mut Store, requests: Vec<Frame>, journal: &mut Vec<u8>) {
    for frame in requests {
        let wire = encode_frame(&frame);
        let cmd = Command::try_from(frame).expect("request resolves");
        let should_log = cmd.is_write();
        let reply = s.apply(cmd, 0);
        let is_err = matches!(reply, Frame::Error(_));
        if should_log && !is_err {
            journal.extend_from_slice(&wire);
        }
    }
}

#[test]
fn replaying_the_journal_restores_the_state() {
    let mut live = Store::new();
    let mut journal: Vec<u8> = Vec::new();
    run_and_journal(
        &mut live,
        vec![
            req(&["SET", "k", "v"]),
            req(&["INCR", "n"]),
            req(&["INCR", "n"]),
            req(&["RPUSH", "l", "a", "b"]),
            req(&["HSET", "h", "f", "x"]),
            req(&["SADD", "s", "m1", "m2"]),
            req(&["ZADD", "z", "1.5", "a"]),
            req(&["GET", "k"]),
            req(&["DEL", "gone"]),
        ],
        &mut journal,
    );

    // a fresh process replays the journal with journaling off
    let frames = parse_frames_from_bytes(&journal).expect("journal parses");
    let mut restored = Store::new();
    for f in frames {
        if let Ok(cmd) = Command::try_from(f) {
            let _ = restored.apply(cmd, 0);
        }
    }

    for probe in [
        req(&["GET", "k"]),
        req(&["GET", "n"]),
        req(&["LRANGE", "l", "0", "-1"]),
        req(&["HGET", "h", "f"]),
        req(&["SMEMBERS", "s"]),
        req(&["ZSCORE", "z", "a"]),
    ] {
        let c1 = Command::try_from(clone_frame(&probe)).unwrap();
        let c2 = Command::try_from(probe).unwrap();
        let a = encode_frame(&live.apply(c1, 0));
        let bb = encode_frame(&restored.apply(c2, 0));
        assert_eq!(a, bb);
    }
}

fn clone_frame(f: &Frame) -> Frame {
    let (g, _) = parse_frame(&encode_frame(f)).unwrap();
    g
}

#[test]
fn journal_with_truncated_tail_is_fatal() {
    let first = encode_frame(&req(&["SET", "k", "v"]));
    let mut journal = first.clone();
    let more = encode_frame(&req(&["SET", "k2", "v2"]));
    journal.extend_from_slice(&more[..more.len() - 3]);
    let err = parse_frames_from_bytes(&journal).expect_err("half-written record is fatal");
    let expected = format!("AOF parse error at offset {}", first.len());
    assert_eq!(err.text(), expected.as_bytes().to_vec());
}

#[test]
fn journal_ending_on_a_frame_boundary_replays_whole() {
    let mut journal = encode_frame(&req(&["SET", "k", "v"]));
    journal.extend_from_slice(&encode_frame(&req(&["SET", "k2", "v2"])));
    let frames = parse_frames_from_bytes(&journal).expect("clean journal parses");
    assert_eq!(frames.len(), 2);
}

#[test]
fn journal_with_garbage_is_refused() {
    let first = encode_frame(&req(&["SET", "k", "v"]));
    let mut journal = first.clone();
    journal.extend_from_slice(b"?garbage\r\n");
    let err = parse_frames_from_bytes(&journal).expect_err("garbage tail is fatal");
    let expected = format!("AOF parse error at offset {}", first.len());
    assert_eq!(err.text(), expected.as_bytes().to_vec());
}

#[test]
fn fsync_policy_names() {
    assert!(matches!(AofFsync::parse(&b("always")), Ok(AofFsync::Always)));
    assert!(matches!(AofFsync::parse(&b("EVERYSEC")), Ok(AofFsync::EverySec)));
    assert!(matches!(AofFsync::parse(&b("no")), Ok(AofFsync::No)));
    assert!(AofFsync::parse(&b("sometimes")).is_err());
}
