use redisling::aof::AofFsync;
use redisling::config::Config;
use redisling::score::{parse_score, score_repr};

fn b(s: &str) -> Vec<u8> {
    s.as_bytes().to_vec()
}

#[test]
fn score_parsing_in_millionths() {
    assert_eq!(parse_score(b"1"), Some(1_000_000));
    assert_eq!(parse_score(b"2.5"), Some(2_500_000));
    assert_eq!(parse_score(b"-0.25"), Some(-250_000));
    assert_eq!(parse_score(b"+3."), Some(3_000_000));
    assert_eq!(parse_score(b".5"), Some(500_000));
    assert_eq!(parse_score(b""), None);
    assert_eq!(parse_score(b"."), None);
    assert_eq!(parse_score(b"abc"), None);
    assert_eq!(parse_score(b"1.2.3"), None);
}

#[test]
fn score_rendering_drops_trailing_zeros() {
    assert_eq!(score_repr(1_000_000), b("1"));
    assert_eq!(score_repr(2_500_000), b("2.5"));
    assert_eq!(score_repr(-250_000), b("-0.25"));
    assert_eq!(score_repr(0), b("0"));
    assert_eq!(score_repr(1_234_567), b("1.234567"));
}

#[test]
fn config_defaults_and_flags() {
    let c = Config::from_args(&vec![]).unwrap();
    assert_eq!(c.addr, b("0.0.0.0:6379"));
    assert_eq!(c.aof_path, b("appendonly.aof"));
    assert!(matches!(c.aof_fsync, AofFsync::EverySec));

    let c2 = Config::from_args(&vec![
        b("--addr"),
        b("127.0.0.1:7000"),
        b("--aof-fsync"),
        b("always"),
    ])
    .unwrap();
    assert_eq!(c2.addr, b("127.0.0.1:7000"));
    assert!(matches!(c2.aof_fsync, AofFsync::Always));

    assert!(Config::from_args(&vec![b("--bogus")]).is_err());
    assert!(Config::from_args(&vec![b("--addr")]).is_err());
}
