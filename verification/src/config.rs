use vstd::prelude::*;

use crate::aof::{fsync_usage_msg, lower, AofFsync};
use crate::errors::{RedisError, RedisErrorModel};

verus! {

broadcast use vstd::seq::group_seq_axioms;

// ---------------------------------------------------------------------------
// Start-up settings, read from flag/value argument pairs.
// ---------------------------------------------------------------------------

pub struct Config {
    pub addr: Vec<u8>,
    pub aof_path: Vec<u8>,
    pub aof_fsync: AofFsync,
}

pub open spec fn default_addr() -> Seq<u8> {
    seq![48u8, 46u8, 48u8, 46u8, 48u8, 46u8, 48u8, 58u8, 54u8, 51u8, 55u8, 57u8]
}

pub open spec fn default_aof_path() -> Seq<u8> {
    seq![
        97u8, 112u8, 112u8, 101u8, 110u8, 100u8, 111u8, 110u8, 108u8, 121u8, 46u8, 97u8,
        111u8, 102u8,
    ]
}

/// The policy a name denotes, if any.
pub open spec fn spec_fsync_of(s: Seq<u8>) -> Option<AofFsync> {
    if lower(s) == seq![97u8, 108u8, 119u8, 97u8, 121u8, 115u8] {
        Some(AofFsync::Always)
    } else if lower(s) == seq![101u8, 118u8, 101u8, 114u8, 121u8, 115u8, 101u8, 99u8] {
        Some(AofFsync::EverySec)
    } else if lower(s) == seq![110u8, 111u8] {
        Some(AofFsync::No)
    } else {
        None
    }
}

pub open spec fn addr_flag() -> Seq<u8> {
    seq![45u8, 45u8, 97u8, 100u8, 100u8, 114u8]
}

pub open spec fn aof_flag() -> Seq<u8> {
    seq![45u8, 45u8, 97u8, 111u8, 102u8]
}

pub open spec fn fsync_flag() -> Seq<u8> {
    seq![45u8, 45u8, 97u8, 111u8, 102u8, 45u8, 102u8, 115u8, 121u8, 110u8, 99u8]
}

/// The bytes of " requires a value".
pub open spec fn requires_value_suffix() -> Seq<u8> {
    seq![
        32u8, 114u8, 101u8, 113u8, 117u8, 105u8, 114u8, 101u8, 115u8, 32u8, 97u8, 32u8,
        118u8, 97u8, 108u8, 117u8, 101u8,
    ]
}

/// The bytes of "unknown argument: ".
pub open spec fn unknown_arg_prefix() -> Seq<u8> {
    seq![
        117u8, 110u8, 107u8, 110u8, 111u8, 119u8, 110u8, 32u8, 97u8, 114u8, 103u8, 117u8,
        109u8, 101u8, 110u8, 116u8, 58u8, 32u8,
    ]
}

/// What the flag walk settles on, given what is already chosen; a refusal
/// carries its exact message.
pub open spec fn spec_from_args(
    args: Seq<Seq<u8>>,
    addr: Seq<u8>,
    path: Seq<u8>,
    fs: AofFsync,
) -> Result<(Seq<u8>, Seq<u8>, AofFsync), Seq<u8>>
    decreases args.len(),
{
    if args.len() == 0 {
        Ok((addr, path, fs))
    } else if args[0] == addr_flag() {
        if args.len() < 2 {
            Err(addr_flag() + requires_value_suffix())
        } else {
            spec_from_args(args.subrange(2, args.len() as int), args[1], path, fs)
        }
    } else if args[0] == aof_flag() {
        if args.len() < 2 {
            Err(aof_flag() + requires_value_suffix())
        } else {
            spec_from_args(args.subrange(2, args.len() as int), addr, args[1], fs)
        }
    } else if args[0] == fsync_flag() {
        if args.len() < 2 {
            Err(fsync_flag() + requires_value_suffix())
        } else {
            match spec_fsync_of(args[1]) {
                Some(p) => spec_from_args(args.subrange(2, args.len() as int), addr, path, p),
                None => Err(fsync_usage_msg()),
            }
        }
    } else {
        Err(unknown_arg_prefix() + args[0])
    }
}

impl Config {
    /// Reads the flags, starting from the defaults; any unknown flag or
    /// missing value refuses the whole line with its exact message.
    pub fn from_args(args: &Vec<Vec<u8>>) -> (r: Result<Config, RedisError>)
        ensures
            match r {
                Ok(c) => spec_from_args(
                    args@.map_values(|a: Vec<u8>| a@),
                    default_addr(),
                    default_aof_path(),
                    AofFsync::EverySec,
                ) == Ok::<(Seq<u8>, Seq<u8>, AofFsync), Seq<u8>>(
                    (c.addr@, c.aof_path@, c.aof_fsync),
                ),
                Err(e) => spec_from_args(
                    args@.map_values(|a: Vec<u8>| a@),
                    default_addr(),
                    default_aof_path(),
                    AofFsync::EverySec,
                ) is Err && e@ == RedisErrorModel::Other(
                    spec_from_args(
                        args@.map_values(|a: Vec<u8>| a@),
                        default_addr(),
                        default_aof_path(),
                        AofFsync::EverySec,
                    )->Err_0,
                ),
            },
    {
        let ghost avs = args@.map_values(|a: Vec<u8>| a@);
        let mut addr: Vec<u8> = vec![48u8, 46u8, 48u8, 46u8, 48u8, 46u8, 48u8, 58u8, 54u8,
            51u8, 55u8, 57u8];
        let mut aof_path: Vec<u8> = vec![97u8, 112u8, 112u8, 101u8, 110u8, 100u8, 111u8, 110u8,
            108u8, 121u8, 46u8, 97u8, 111u8, 102u8];
        let mut fsync = AofFsync::EverySec;
        proof {
            assert(addr@ =~= default_addr());
            assert(aof_path@ =~= default_aof_path());
            assert(avs.skip(0) =~= avs);
        }
        let n = args.len();
        let mut i: usize = 0;
        while i < n
            invariant
                i <= n,
                n == args@.len(),
                avs == args@.map_values(|a: Vec<u8>| a@),
                spec_from_args(avs, default_addr(), default_aof_path(), AofFsync::EverySec)
                    == spec_from_args(avs.skip(i as int), addr@, aof_path@, fsync),
            decreases n - i,
        {
            proof {
                assert(avs.skip(i as int)[0] == avs[i as int]);
                assert(avs[i as int] == args@[i as int]@);
                if i + 2 <= n {
                    assert(avs.skip(i as int).subrange(2, avs.skip(i as int).len() as int)
                        =~= avs.skip(i + 2));
                }
                if i + 1 < n {
                    assert(avs.skip(i as int)[1] == avs[i + 1]);
                    assert(avs[i + 1] == args@[i + 1]@);
                }
            }
            let arg = &args[i];
            if flag_is(arg, [45u8, 45u8, 97u8, 100u8, 100u8, 114u8]) {
                proof {
                    assert(avs[i as int] =~= addr_flag());
                }
                if i + 1 >= n {
                    return Err(flag_needs_value_err([45u8, 45u8, 97u8, 100u8, 100u8, 114u8]));
                }
                addr = crate::zset::bytes_clone(&args[i + 1]);
                i = i + 2;
            } else if flag_is(arg, [45u8, 45u8, 97u8, 111u8, 102u8]) {
                proof {
                    assert(avs[i as int] =~= aof_flag());
                    assert(!(avs[i as int] == addr_flag()));
                }
                if i + 1 >= n {
                    return Err(flag_needs_value_err([45u8, 45u8, 97u8, 111u8, 102u8]));
                }
                aof_path = crate::zset::bytes_clone(&args[i + 1]);
                i = i + 2;
            } else if flag_is(arg, [45u8, 45u8, 97u8, 111u8, 102u8, 45u8, 102u8, 115u8, 121u8,
                110u8, 99u8]) {
                proof {
                    assert(avs[i as int] =~= fsync_flag());
                    assert(!(avs[i as int] == addr_flag()));
                    assert(!(avs[i as int] == aof_flag()));
                }
                if i + 1 >= n {
                    return Err(flag_needs_value_err([45u8, 45u8, 97u8, 111u8, 102u8, 45u8,
                        102u8, 115u8, 121u8, 110u8, 99u8]));
                }
                match AofFsync::parse(&args[i + 1]) {
                    Ok(p) => {
                        proof {
                            assert(spec_fsync_of(avs[i + 1]) == Some(p));
                        }
                        fsync = p;
                        i = i + 2;
                    }
                    Err(e) => {
                        proof {
                            assert(spec_fsync_of(avs[i + 1]) is None);
                        }
                        return Err(e);
                    }
                }
            } else {
                proof {
                    assert(!(avs[i as int] == addr_flag()));
                    assert(!(avs[i as int] == aof_flag()));
                    assert(!(avs[i as int] == fsync_flag()));
                }
                return Err(unknown_arg_err(arg));
            }
        }
        proof {
            assert(avs.skip(n as int) =~= Seq::<Seq<u8>>::empty());
        }
        Ok(Config { addr, aof_path, aof_fsync: fsync })
    }
}

fn flag_is<const N: usize>(b: &Vec<u8>, lit: [u8; N]) -> (r: bool)
    ensures
        r == (b@ == lit@),
{
    if b.len() != N {
        proof {
            assert(lit@.len() == N);
        }
        return false;
    }
    let mut i: usize = 0;
    while i < N
        invariant
            i <= N,
            b@.len() == N,
            lit@.len() == N,
            forall|j: int| 0 <= j < i ==> b@[j] == lit@[j],
        decreases N - i,
    {
        if b[i] != lit[i] {
            return false;
        }
        i = i + 1;
    }
    proof {
        assert(b@ =~= lit@);
    }
    true
}

/// The refusal for a flag with no value after it.
fn flag_needs_value_err<const N: usize>(flag: [u8; N]) -> (e: RedisError)
    ensures
        e@ == RedisErrorModel::Other(flag@ + requires_value_suffix()),
{
    let mut msg: Vec<u8> = Vec::new();
    let mut i: usize = 0;
    while i < N
        invariant
            i <= N,
            flag@.len() == N,
            msg@ == flag@.take(i as int),
        decreases N - i,
    {
        msg.push(flag[i]);
        proof {
            assert(flag@.take(i as int) + seq![flag@[i as int]] =~= flag@.take(i + 1));
        }
        i = i + 1;
    }
    proof {
        assert(flag@.take(N as int) =~= flag@);
    }
    let suffix: Vec<u8> = vec![
        32u8, 114u8, 101u8, 113u8, 117u8, 105u8, 114u8, 101u8, 115u8, 32u8, 97u8, 32u8,
        118u8, 97u8, 108u8, 117u8, 101u8,
    ];
    proof {
        assert(suffix@ =~= requires_value_suffix());
    }
    crate::zset::copy_bytes(&mut msg, &suffix);
    RedisError::Other(msg)
}

/// The refusal naming an argument nothing expects.
fn unknown_arg_err(arg: &Vec<u8>) -> (e: RedisError)
    ensures
        e@ == RedisErrorModel::Other(unknown_arg_prefix() + arg@),
{
    let mut msg: Vec<u8> = vec![
        117u8, 110u8, 107u8, 110u8, 111u8, 119u8, 110u8, 32u8, 97u8, 114u8, 103u8, 117u8,
        109u8, 101u8, 110u8, 116u8, 58u8, 32u8,
    ];
    proof {
        assert(msg@ =~= unknown_arg_prefix());
    }
    crate::zset::copy_bytes(&mut msg, arg);
    RedisError::Other(msg)
}

} // verus!
