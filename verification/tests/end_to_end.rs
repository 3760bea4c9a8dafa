use redisling::command::Command;
use redisling::encoder::encode_frame;
use redisling::frame::Frame;
use redisling::parser::parse_frame;
use redisling::store::Store;

fn b(s: &str) -> Vec<u8> {
    s.as_bytes().to_vec()
}

/// Feeds one wire request through parse, resolve and apply, and returns the
/// encoded reply.
fn roundtrip(s: &mut Store, input: &[u8], now: u64) -> Vec<u8> {
    let (frame, used) = parse_frame(input).expect("request parses");
    assert_eq!(used, input.len());
    match Command::try_from(frame) {
        Ok(cmd) => encode_frame(&s.apply(cmd, now)),
        Err(e) => {
            let mut msg = b("ERR ");
            msg.extend_from_slice(&e.text());
            encode_frame(&Frame::Error(msg))
        }
    }
}

#[test]
fn ping_pong() {
    let mut s = Store::new();
    let out = roundtrip(&mut s, b"*1\r\n$4\r\nPING\r\n", 0);
    assert_eq!(out, b("+PONG\r\n"));
}

#[test]
fn set_then_get_wire() {
    let mut s = Store::new();
    let out1 = roundtrip(&mut s, b"*3\r\n$3\r\nSET\r\n$1\r\nk\r\n$1\r\nv\r\n", 0);
    assert_eq!(out1, b("+OK\r\n"));
    let out2 = roundtrip(&mut s, b"*2\r\n$3\r\nGET\r\n$1\r\nk\r\n", 0);
    assert_eq!(out2, b("$1\r\nv\r\n"));
}

#[test]
fn lpush_then_lrange_wire() {
    let mut s = Store::new();
    let out1 = roundtrip(
        &mut s,
        b"*4\r\n$5\r\nLPUSH\r\n$1\r\nq\r\n$1\r\na\r\n$1\r\nb\r\n",
        0,
    );
    assert_eq!(out1, b(":2\r\n"));
    let out2 = roundtrip(
        &mut s,
        b"*4\r\n$6\r\nLRANGE\r\n$1\r\nq\r\n$1\r\n0\r\n$2\r\n-1\r\n",
        0,
    );
    assert_eq!(out2, b("*2\r\n$1\r\nb\r\n$1\r\na\r\n"));
}

#[test]
fn zadd_then_zrangebyscore_wire() {
    let mut s = Store::new();
    let o1 = roundtrip(
        &mut s,
        b"*4\r\n$4\r\nZADD\r\n$1\r\nz\r\n$1\r\n1\r\n$1\r\na\r\n",
        0,
    );
    assert_eq!(o1, b(":1\r\n"));
    let o2 = roundtrip(
        &mut s,
        b"*4\r\n$4\r\nZADD\r\n$1\r\nz\r\n$1\r\n2\r\n$1\r\nb\r\n",
        0,
    );
    assert_eq!(o2, b(":1\r\n"));
    let o3 = roundtrip(
        &mut s,
        b"*4\r\n$4\r\nZADD\r\n$1\r\nz\r\n$1\r\n3\r\n$1\r\nc\r\n",
        0,
    );
    assert_eq!(o3, b(":1\r\n"));
    let out = roundtrip(
        &mut s,
        b"*4\r\n$13\r\nZRANGEBYSCORE\r\n$1\r\nz\r\n$1\r\n2\r\n$1\r\n3\r\n",
        0,
    );
    assert_eq!(out, b("*2\r\n$1\r\nb\r\n$1\r\nc\r\n"));
}

#[test]
fn expired_key_reads_null_wire() {
    let mut s = Store::new();
    roundtrip(&mut s, b"*3\r\n$3\r\nSET\r\n$1\r\nx\r\n$1\r\nv\r\n", 0);
    let e = roundtrip(&mut s, b"*3\r\n$6\r\nEXPIRE\r\n$1\r\nx\r\n$1\r\n0\r\n", 0);
    assert_eq!(e, b(":1\r\n"));
    // waiting past the deadline
    let out = roundtrip(&mut s, b"*2\r\n$3\r\nGET\r\n$1\r\nx\r\n", 1500);
    assert_eq!(out, b("$-1\r\n"));
}

#[test]
fn unknown_command_reports_error() {
    let mut s = Store::new();
    let out = roundtrip(&mut s, b"*1\r\n$5\r\nHELLO\r\n", 0);
    assert_eq!(out, b("-ERR unknown command\r\n"));
}

#[test]
fn wrong_arity_reports_error() {
    let mut s = Store::new();
    let out = roundtrip(&mut s, b"*1\r\n$3\r\nGET\r\n", 0);
    assert_eq!(
        out,
        b("-ERR ERR wrong number of arguments for 'GET'\r\n")
    );
}

#[test]
fn command_names_are_case_insensitive() {
    let mut s = Store::new();
    let out = roundtrip(&mut s, b"*1\r\n$4\r\nping\r\n", 0);
    assert_eq!(out, b("+PONG\r\n"));
}

#[test]
fn brpop_on_absent_key_is_null_reply() {
    let mut s = Store::new();
    let out = roundtrip(&mut s, b"*3\r\n$5\r\nBRPOP\r\n$1\r\nq\r\n$1\r\n1\r\n", 0);
    assert_eq!(out, b("$-1\r\n"));
}

#[test]
fn brpop_zero_timeout_is_immediate_null() {
    let mut s = Store::new();
    let out = roundtrip(&mut s, b"*3\r\n$5\r\nBRPOP\r\n$1\r\nq\r\n$1\r\n0\r\n", 0);
    assert_eq!(out, b("$-1\r\n"));
}

#[test]
fn mset_and_mget_wire() {
    let mut s = Store::new();
    let o1 = roundtrip(
        &mut s,
        b"*5\r\n$4\r\nMSET\r\n$1\r\na\r\n$1\r\n1\r\n$1\r\nb\r\n$1\r\n2\r\n",
        0,
    );
    assert_eq!(o1, b("+OK\r\n"));
    let o2 = roundtrip(&mut s, b"*3\r\n$4\r\nMGET\r\n$1\r\na\r\n$1\r\nb\r\n", 0);
    assert_eq!(o2, b("*2\r\n$1\r\n1\r\n$1\r\n2\r\n"));
}

#[test]
fn bad_score_reports_float_error() {
    let mut s = Store::new();
    let out = roundtrip(
        &mut s,
        b"*4\r\n$4\r\nZADD\r\n$1\r\nz\r\n$3\r\nabc\r\n$1\r\na\r\n",
        0,
    );
    assert_eq!(out, b("-ERR ERR score must be a float\r\n"));
}
