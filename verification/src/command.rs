use vstd::prelude::*;

use crate::errors::{RedisError, RedisErrorModel};
use crate::frame::{frames_view, Frame, FrameModel};
use crate::numbers::{int_line_val, int_line_valid, parse_int_line};
use crate::score::{parse_score, score_micros, score_valid};
use crate::value::Pair;

verus! {

broadcast use vstd::seq::group_seq_axioms;

// ---------------------------------------------------------------------------
// The typed command a client request resolves to.
// ---------------------------------------------------------------------------

pub enum Command {
    Ping,
    Expire(Vec<u8>, u64),
    Ttl(Vec<u8>),
    Get(Vec<u8>),
    SetCmd(Vec<u8>, Vec<u8>),
    Del(Vec<u8>),
    Append(Vec<u8>, Vec<u8>),
    StrLen(Vec<u8>),
    GetSet(Vec<u8>, Vec<u8>),
    Incr(Vec<u8>),
    IncrBy(Vec<u8>, i64),
    MSet(Vec<Pair>),
    MGet(Vec<Vec<u8>>),
    LPush(Vec<u8>, Vec<Vec<u8>>),
    LPop(Vec<u8>),
    RPush(Vec<u8>, Vec<Vec<u8>>),
    RPop(Vec<u8>),
    LLen(Vec<u8>),
    LRange(Vec<u8>, i64, i64),
    LIndex(Vec<u8>, i64),
    LSet(Vec<u8>, i64, Vec<u8>),
    LTrim(Vec<u8>, i64, i64),
    BRPop(Vec<u8>, u64),
    HSet(Vec<u8>, Vec<u8>, Vec<u8>),
    HGet(Vec<u8>, Vec<u8>),
    HDel(Vec<u8>, Vec<Vec<u8>>),
    HGetAll(Vec<u8>),
    HMGet(Vec<u8>, Vec<Vec<u8>>),
    HExists(Vec<u8>, Vec<u8>),
    HLen(Vec<u8>),
    HKeys(Vec<u8>),
    HVals(Vec<u8>),
    SAdd(Vec<u8>, Vec<Vec<u8>>),
    SRem(Vec<u8>, Vec<Vec<u8>>),
    SMembers(Vec<u8>),
    SIsMember(Vec<u8>, Vec<u8>),
    SCard(Vec<u8>),
    SUnion(Vec<Vec<u8>>),
    SInter(Vec<Vec<u8>>),
    SDiff(Vec<Vec<u8>>),
    ZAdd(Vec<u8>, i64, Vec<u8>),
    ZRem(Vec<u8>, Vec<u8>),
    ZRange(Vec<u8>, i64, i64),
    ZRevRange(Vec<u8>, i64, i64),
    ZCard(Vec<u8>),
    ZScore(Vec<u8>, Vec<u8>),
    ZRangeByScore(Vec<u8>, i64, i64),
    ZRemRangeByScore(Vec<u8>, i64, i64),
    ZRank(Vec<u8>, Vec<u8>),
    ZRevRank(Vec<u8>, Vec<u8>),
    ZCount(Vec<u8>, i64, i64),
}

pub enum CommandModel {
    Ping,
    Expire(Seq<u8>, int),
    Ttl(Seq<u8>),
    Get(Seq<u8>),
    SetCmd(Seq<u8>, Seq<u8>),
    Del(Seq<u8>),
    Append(Seq<u8>, Seq<u8>),
    StrLen(Seq<u8>),
    GetSet(Seq<u8>, Seq<u8>),
    Incr(Seq<u8>),
    IncrBy(Seq<u8>, int),
    MSet(Seq<(Seq<u8>, Seq<u8>)>),
    MGet(Seq<Seq<u8>>),
    LPush(Seq<u8>, Seq<Seq<u8>>),
    LPop(Seq<u8>),
    RPush(Seq<u8>, Seq<Seq<u8>>),
    RPop(Seq<u8>),
    LLen(Seq<u8>),
    LRange(Seq<u8>, int, int),
    LIndex(Seq<u8>, int),
    LSet(Seq<u8>, int, Seq<u8>),
    LTrim(Seq<u8>, int, int),
    BRPop(Seq<u8>, int),
    HSet(Seq<u8>, Seq<u8>, Seq<u8>),
    HGet(Seq<u8>, Seq<u8>),
    HDel(Seq<u8>, Seq<Seq<u8>>),
    HGetAll(Seq<u8>),
    HMGet(Seq<u8>, Seq<Seq<u8>>),
    HExists(Seq<u8>, Seq<u8>),
    HLen(Seq<u8>),
    HKeys(Seq<u8>),
    HVals(Seq<u8>),
    SAdd(Seq<u8>, Seq<Seq<u8>>),
    SRem(Seq<u8>, Seq<Seq<u8>>),
    SMembers(Seq<u8>),
    SIsMember(Seq<u8>, Seq<u8>),
    SCard(Seq<u8>),
    SUnion(Seq<Seq<u8>>),
    SInter(Seq<Seq<u8>>),
    SDiff(Seq<Seq<u8>>),
    ZAdd(Seq<u8>, int, Seq<u8>),
    ZRem(Seq<u8>, Seq<u8>),
    ZRange(Seq<u8>, int, int),
    ZRevRange(Seq<u8>, int, int),
    ZCard(Seq<u8>),
    ZScore(Seq<u8>, Seq<u8>),
    ZRangeByScore(Seq<u8>, int, int),
    ZRemRangeByScore(Seq<u8>, int, int),
    ZRank(Seq<u8>, Seq<u8>),
    ZRevRank(Seq<u8>, Seq<u8>),
    ZCount(Seq<u8>, int, int),
}

impl View for Command {
    type V = CommandModel;

    open spec fn view(&self) -> CommandModel {
        match self {
            Command::Ping => CommandModel::Ping,
            Command::Expire(a0, a1) => CommandModel::Expire(a0@, *a1 as int),
            Command::Ttl(a0) => CommandModel::Ttl(a0@),
            Command::Get(a0) => CommandModel::Get(a0@),
            Command::SetCmd(a0, a1) => CommandModel::SetCmd(a0@, a1@),
            Command::Del(a0) => CommandModel::Del(a0@),
            Command::Append(a0, a1) => CommandModel::Append(a0@, a1@),
            Command::StrLen(a0) => CommandModel::StrLen(a0@),
            Command::GetSet(a0, a1) => CommandModel::GetSet(a0@, a1@),
            Command::Incr(a0) => CommandModel::Incr(a0@),
            Command::IncrBy(a0, a1) => CommandModel::IncrBy(a0@, *a1 as int),
            Command::MSet(a0) => CommandModel::MSet(a0@.map_values(|p: Pair| p@)),
            Command::MGet(a0) => CommandModel::MGet(a0@.map_values(|x: Vec<u8>| x@)),
            Command::LPush(a0, a1) => CommandModel::LPush(a0@, a1@.map_values(|x: Vec<u8>| x@)),
            Command::LPop(a0) => CommandModel::LPop(a0@),
            Command::RPush(a0, a1) => CommandModel::RPush(a0@, a1@.map_values(|x: Vec<u8>| x@)),
            Command::RPop(a0) => CommandModel::RPop(a0@),
            Command::LLen(a0) => CommandModel::LLen(a0@),
            Command::LRange(a0, a1, a2) => CommandModel::LRange(a0@, *a1 as int, *a2 as int),
            Command::LIndex(a0, a1) => CommandModel::LIndex(a0@, *a1 as int),
            Command::LSet(a0, a1, a2) => CommandModel::LSet(a0@, *a1 as int, a2@),
            Command::LTrim(a0, a1, a2) => CommandModel::LTrim(a0@, *a1 as int, *a2 as int),
            Command::BRPop(a0, a1) => CommandModel::BRPop(a0@, *a1 as int),
            Command::HSet(a0, a1, a2) => CommandModel::HSet(a0@, a1@, a2@),
            Command::HGet(a0, a1) => CommandModel::HGet(a0@, a1@),
            Command::HDel(a0, a1) => CommandModel::HDel(a0@, a1@.map_values(|x: Vec<u8>| x@)),
            Command::HGetAll(a0) => CommandModel::HGetAll(a0@),
            Command::HMGet(a0, a1) => CommandModel::HMGet(a0@, a1@.map_values(|x: Vec<u8>| x@)),
            Command::HExists(a0, a1) => CommandModel::HExists(a0@, a1@),
            Command::HLen(a0) => CommandModel::HLen(a0@),
            Command::HKeys(a0) => CommandModel::HKeys(a0@),
            Command::HVals(a0) => CommandModel::HVals(a0@),
            Command::SAdd(a0, a1) => CommandModel::SAdd(a0@, a1@.map_values(|x: Vec<u8>| x@)),
            Command::SRem(a0, a1) => CommandModel::SRem(a0@, a1@.map_values(|x: Vec<u8>| x@)),
            Command::SMembers(a0) => CommandModel::SMembers(a0@),
            Command::SIsMember(a0, a1) => CommandModel::SIsMember(a0@, a1@),
            Command::SCard(a0) => CommandModel::SCard(a0@),
            Command::SUnion(a0) => CommandModel::SUnion(a0@.map_values(|x: Vec<u8>| x@)),
            Command::SInter(a0) => CommandModel::SInter(a0@.map_values(|x: Vec<u8>| x@)),
            Command::SDiff(a0) => CommandModel::SDiff(a0@.map_values(|x: Vec<u8>| x@)),
            Command::ZAdd(a0, a1, a2) => CommandModel::ZAdd(a0@, *a1 as int, a2@),
            Command::ZRem(a0, a1) => CommandModel::ZRem(a0@, a1@),
            Command::ZRange(a0, a1, a2) => CommandModel::ZRange(a0@, *a1 as int, *a2 as int),
            Command::ZRevRange(a0, a1, a2) => CommandModel::ZRevRange(a0@, *a1 as int, *a2 as int),
            Command::ZCard(a0) => CommandModel::ZCard(a0@),
            Command::ZScore(a0, a1) => CommandModel::ZScore(a0@, a1@),
            Command::ZRangeByScore(a0, a1, a2) => CommandModel::ZRangeByScore(a0@, *a1 as int, *a2 as int),
            Command::ZRemRangeByScore(a0, a1, a2) => CommandModel::ZRemRangeByScore(a0@, *a1 as int, *a2 as int),
            Command::ZRank(a0, a1) => CommandModel::ZRank(a0@, a1@),
            Command::ZRevRank(a0, a1) => CommandModel::ZRevRank(a0@, a1@),
            Command::ZCount(a0, a1, a2) => CommandModel::ZCount(a0@, *a1 as int, *a2 as int),
        }
    }
}

impl Command {
    /// Whether a successful run of this command belongs in the append-only
    /// journal.
    pub fn is_write(&self) -> (r: bool)
        ensures
            r == spec_is_write(self@),
    {
        match self {
            Command::Ping => false,
            Command::Expire(..) => true,
            Command::Ttl(..) => false,
            Command::Get(..) => false,
            Command::SetCmd(..) => true,
            Command::Del(..) => true,
            Command::Append(..) => true,
            Command::StrLen(..) => false,
            Command::GetSet(..) => false,
            Command::Incr(..) => true,
            Command::IncrBy(..) => true,
            Command::MSet(..) => true,
            Command::MGet(..) => false,
            Command::LPush(..) => true,
            Command::LPop(..) => true,
            Command::RPush(..) => true,
            Command::RPop(..) => true,
            Command::LLen(..) => false,
            Command::LRange(..) => false,
            Command::LIndex(..) => false,
            Command::LSet(..) => true,
            Command::LTrim(..) => true,
            Command::BRPop(..) => false,
            Command::HSet(..) => true,
            Command::HGet(..) => false,
            Command::HDel(..) => true,
            Command::HGetAll(..) => false,
            Command::HMGet(..) => false,
            Command::HExists(..) => false,
            Command::HLen(..) => false,
            Command::HKeys(..) => false,
            Command::HVals(..) => false,
            Command::SAdd(..) => true,
            Command::SRem(..) => true,
            Command::SMembers(..) => false,
            Command::SIsMember(..) => false,
            Command::SCard(..) => false,
            Command::SUnion(..) => false,
            Command::SInter(..) => false,
            Command::SDiff(..) => false,
            Command::ZAdd(..) => true,
            Command::ZRem(..) => true,
            Command::ZRange(..) => false,
            Command::ZRevRange(..) => false,
            Command::ZCard(..) => false,
            Command::ZScore(..) => false,
            Command::ZRangeByScore(..) => false,
            Command::ZRemRangeByScore(..) => true,
            Command::ZRank(..) => false,
            Command::ZRevRank(..) => false,
            Command::ZCount(..) => false,
        }
    }
}

pub open spec fn spec_is_write(c: CommandModel) -> bool {
    match c {
            CommandModel::Ping => false,
            CommandModel::Expire(..) => true,
            CommandModel::Ttl(..) => false,
            CommandModel::Get(..) => false,
            CommandModel::SetCmd(..) => true,
            CommandModel::Del(..) => true,
            CommandModel::Append(..) => true,
            CommandModel::StrLen(..) => false,
            CommandModel::GetSet(..) => false,
            CommandModel::Incr(..) => true,
            CommandModel::IncrBy(..) => true,
            CommandModel::MSet(..) => true,
            CommandModel::MGet(..) => false,
            CommandModel::LPush(..) => true,
            CommandModel::LPop(..) => true,
            CommandModel::RPush(..) => true,
            CommandModel::RPop(..) => true,
            CommandModel::LLen(..) => false,
            CommandModel::LRange(..) => false,
            CommandModel::LIndex(..) => false,
            CommandModel::LSet(..) => true,
            CommandModel::LTrim(..) => true,
            CommandModel::BRPop(..) => false,
            CommandModel::HSet(..) => true,
            CommandModel::HGet(..) => false,
            CommandModel::HDel(..) => true,
            CommandModel::HGetAll(..) => false,
            CommandModel::HMGet(..) => false,
            CommandModel::HExists(..) => false,
            CommandModel::HLen(..) => false,
            CommandModel::HKeys(..) => false,
            CommandModel::HVals(..) => false,
            CommandModel::SAdd(..) => true,
            CommandModel::SRem(..) => true,
            CommandModel::SMembers(..) => false,
            CommandModel::SIsMember(..) => false,
            CommandModel::SCard(..) => false,
            CommandModel::SUnion(..) => false,
            CommandModel::SInter(..) => false,
            CommandModel::SDiff(..) => false,
            CommandModel::ZAdd(..) => true,
            CommandModel::ZRem(..) => true,
            CommandModel::ZRange(..) => false,
            CommandModel::ZRevRange(..) => false,
            CommandModel::ZCard(..) => false,
            CommandModel::ZScore(..) => false,
            CommandModel::ZRangeByScore(..) => false,
            CommandModel::ZRemRangeByScore(..) => true,
            CommandModel::ZRank(..) => false,
            CommandModel::ZRevRank(..) => false,
            CommandModel::ZCount(..) => false,
    }
}

// ---------------------------------------------------------------------------
// Reading arguments out of a request frame.
// ---------------------------------------------------------------------------

/// The byte payload of a bulk or simple frame.
pub open spec fn arg_bytes(f: FrameModel) -> Option<Seq<u8>> {
    match f {
        FrameModel::Bulk(b) => Some(b),
        FrameModel::Simple(s) => Some(s),
        _ => None,
    }
}

/// ASCII upper-casing, byte by byte.
pub open spec fn upper(s: Seq<u8>) -> Seq<u8> {
    s.map_values(|c: u8| if 97 <= c <= 122 { (c - 32) as u8 } else { c })
}

/// The payloads of the frames from `from` on; `None` if any is not a byte
/// string.
pub open spec fn args_bytes(items: Seq<FrameModel>, from: int) -> Option<Seq<Seq<u8>>>
    decreases items.len() - from,
{
    if from < 0 || from >= items.len() {
        Some(Seq::empty())
    } else {
        match arg_bytes(items[from]) {
            None => None,
            Some(b) => match args_bytes(items, from + 1) {
                Some(r) => Some(seq![b] + r),
                None => None,
            },
        }
    }
}

/// Adjacent pairs, in order.
pub open spec fn pair_up(args: Seq<Seq<u8>>) -> Seq<(Seq<u8>, Seq<u8>)>
    decreases args.len(),
{
    if args.len() < 2 {
        Seq::empty()
    } else {
        seq![(args[0], args[1])] + pair_up(args.subrange(2, args.len() as int))
    }
}

/// The bytes of "expected bulk or simple string".
pub open spec fn expected_bytes_msg() -> Seq<u8> {
    seq![101u8, 120u8, 112u8, 101u8, 99u8, 116u8, 101u8, 100u8, 32u8, 98u8, 117u8, 108u8, 107u8, 32u8, 111u8, 114u8, 32u8, 115u8, 105u8, 109u8, 112u8, 108u8, 101u8, 32u8, 115u8, 116u8, 114u8, 105u8, 110u8, 103u8]
}

/// The bytes of "expected array frame".
pub open spec fn expected_array_msg() -> Seq<u8> {
    seq![101u8, 120u8, 112u8, 101u8, 99u8, 116u8, 101u8, 100u8, 32u8, 97u8, 114u8, 114u8, 97u8, 121u8, 32u8, 102u8, 114u8, 97u8, 109u8, 101u8]
}

/// The bytes of "empty command".
pub open spec fn empty_command_msg() -> Seq<u8> {
    seq![101u8, 109u8, 112u8, 116u8, 121u8, 32u8, 99u8, 111u8, 109u8, 109u8, 97u8, 110u8, 100u8]
}

/// The bytes of "invalid command name".
pub open spec fn invalid_name_msg() -> Seq<u8> {
    seq![105u8, 110u8, 118u8, 97u8, 108u8, 105u8, 100u8, 32u8, 99u8, 111u8, 109u8, 109u8, 97u8, 110u8, 100u8, 32u8, 110u8, 97u8, 109u8, 101u8]
}

/// The bytes of "ERR value is not an integer".
pub open spec fn not_int_arg_msg() -> Seq<u8> {
    seq![69u8, 82u8, 82u8, 32u8, 118u8, 97u8, 108u8, 117u8, 101u8, 32u8, 105u8, 115u8, 32u8, 110u8, 111u8, 116u8, 32u8, 97u8, 110u8, 32u8, 105u8, 110u8, 116u8, 101u8, 103u8, 101u8, 114u8]
}

/// The bytes of "ERR timeout must be integer".
pub open spec fn timeout_int_msg() -> Seq<u8> {
    seq![69u8, 82u8, 82u8, 32u8, 116u8, 105u8, 109u8, 101u8, 111u8, 117u8, 116u8, 32u8, 109u8, 117u8, 115u8, 116u8, 32u8, 98u8, 101u8, 32u8, 105u8, 110u8, 116u8, 101u8, 103u8, 101u8, 114u8]
}

/// The bytes of "ERR score must be a float".
pub open spec fn score_float_msg() -> Seq<u8> {
    seq![69u8, 82u8, 82u8, 32u8, 115u8, 99u8, 111u8, 114u8, 101u8, 32u8, 109u8, 117u8, 115u8, 116u8, 32u8, 98u8, 101u8, 32u8, 97u8, 32u8, 102u8, 108u8, 111u8, 97u8, 116u8]
}

/// The bytes of "ERR min must be a float".
pub open spec fn min_float_msg() -> Seq<u8> {
    seq![69u8, 82u8, 82u8, 32u8, 109u8, 105u8, 110u8, 32u8, 109u8, 117u8, 115u8, 116u8, 32u8, 98u8, 101u8, 32u8, 97u8, 32u8, 102u8, 108u8, 111u8, 97u8, 116u8]
}

/// The bytes of "ERR max must be a float".
pub open spec fn max_float_msg() -> Seq<u8> {
    seq![69u8, 82u8, 82u8, 32u8, 109u8, 97u8, 120u8, 32u8, 109u8, 117u8, 115u8, 116u8, 32u8, 98u8, 101u8, 32u8, 97u8, 32u8, 102u8, 108u8, 111u8, 97u8, 116u8]
}

/// The bytes of "ERR start must be an integer".
pub open spec fn start_int_msg() -> Seq<u8> {
    seq![69u8, 82u8, 82u8, 32u8, 115u8, 116u8, 97u8, 114u8, 116u8, 32u8, 109u8, 117u8, 115u8, 116u8, 32u8, 98u8, 101u8, 32u8, 97u8, 110u8, 32u8, 105u8, 110u8, 116u8, 101u8, 103u8, 101u8, 114u8]
}

/// The bytes of "ERR stop must be an integer".
pub open spec fn stop_int_msg() -> Seq<u8> {
    seq![69u8, 82u8, 82u8, 32u8, 115u8, 116u8, 111u8, 112u8, 32u8, 109u8, 117u8, 115u8, 116u8, 32u8, 98u8, 101u8, 32u8, 97u8, 110u8, 32u8, 105u8, 110u8, 116u8, 101u8, 103u8, 101u8, 114u8]
}

/// The bytes of "ERR start must be a float".
pub open spec fn start_float_msg() -> Seq<u8> {
    seq![69u8, 82u8, 82u8, 32u8, 115u8, 116u8, 97u8, 114u8, 116u8, 32u8, 109u8, 117u8, 115u8, 116u8, 32u8, 98u8, 101u8, 32u8, 97u8, 32u8, 102u8, 108u8, 111u8, 97u8, 116u8]
}

pub open spec fn wrong_args_prefix() -> Seq<u8> {
    seq![69u8, 82u8, 82u8, 32u8, 119u8, 114u8, 111u8, 110u8, 103u8, 32u8, 110u8, 117u8, 109u8, 98u8, 101u8, 114u8, 32u8, 111u8, 102u8, 32u8, 97u8, 114u8, 103u8, 117u8, 109u8, 101u8, 110u8, 116u8, 115u8, 32u8, 102u8, 111u8, 114u8, 32u8, 39u8]
}

/// The bytes of "ERR wrong number of arguments for 'NAME'".
pub open spec fn wrong_args_msg(name: Seq<u8>) -> Seq<u8> {
    wrong_args_prefix() + name + seq![39u8]
}

/// What a request frame resolves to: the typed command, or the error the
/// resolution reports.
pub open spec fn spec_command_of(f: FrameModel) -> Result<CommandModel, RedisErrorModel> {
    match f {
        FrameModel::Array(items) => if items.len() == 0 {
            Err(RedisErrorModel::Other(empty_command_msg()))
        } else {
            match arg_bytes(items[0]) {
                None => Err(RedisErrorModel::Other(invalid_name_msg())),
                Some(raw) => spec_dispatch_name(upper(raw), items),
            }
        },
        _ => Err(RedisErrorModel::Other(expected_array_msg())),
    }
}

pub open spec fn spec_dispatch_name(name: Seq<u8>, items: Seq<FrameModel>) -> Result<
    CommandModel,
    RedisErrorModel,
> {
    if name == seq![80u8, 73u8, 78u8, 71u8] {
        Ok(CommandModel::Ping)
    } else if name == seq![69u8, 88u8, 80u8, 73u8, 82u8, 69u8] {
        if items.len() != 3 {
            Err(RedisErrorModel::Other(wrong_args_msg(seq![69u8, 88u8, 80u8, 73u8, 82u8, 69u8])))
        } else {
            match arg_bytes(items[1]) {
                None => Err(RedisErrorModel::Other(expected_bytes_msg())),
                Some(x0) => {
                    match arg_bytes(items[2]) {
                        None => Err(RedisErrorModel::Other(expected_bytes_msg())),
                        Some(x1) => {
                            if !(int_line_valid(x1) && int_line_val(x1) >= 0) {
                                Err(RedisErrorModel::Other(not_int_arg_msg()))
                            } else {
                                Ok(CommandModel::Expire(x0, int_line_val(x1)))
                            }
                        },
                    }
                },
            }
        }
    } else if name == seq![84u8, 84u8, 76u8] {
        if items.len() != 2 {
            Err(RedisErrorModel::Other(wrong_args_msg(seq![84u8, 84u8, 76u8])))
        } else {
            match arg_bytes(items[1]) {
                None => Err(RedisErrorModel::Other(expected_bytes_msg())),
                Some(x0) => {
                    Ok(CommandModel::Ttl(x0))
                },
            }
        }
    } else if name == seq![71u8, 69u8, 84u8] {
        if items.len() != 2 {
            Err(RedisErrorModel::Other(wrong_args_msg(seq![71u8, 69u8, 84u8])))
        } else {
            match arg_bytes(items[1]) {
                None => Err(RedisErrorModel::Other(expected_bytes_msg())),
                Some(x0) => {
                    Ok(CommandModel::Get(x0))
                },
            }
        }
    } else if name == seq![83u8, 69u8, 84u8] {
        if items.len() != 3 {
            Err(RedisErrorModel::Other(wrong_args_msg(seq![83u8, 69u8, 84u8])))
        } else {
            match arg_bytes(items[1]) {
                None => Err(RedisErrorModel::Other(expected_bytes_msg())),
                Some(x0) => {
                    match arg_bytes(items[2]) {
                        None => Err(RedisErrorModel::Other(expected_bytes_msg())),
                        Some(x1) => {
                            Ok(CommandModel::SetCmd(x0, x1))
                        },
                    }
                },
            }
        }
    } else if name == seq![68u8, 69u8, 76u8] {
        if items.len() != 2 {
            Err(RedisErrorModel::Other(wrong_args_msg(seq![68u8, 69u8, 76u8])))
        } else {
            match arg_bytes(items[1]) {
                None => Err(RedisErrorModel::Other(expected_bytes_msg())),
                Some(x0) => {
                    Ok(CommandModel::Del(x0))
                },
            }
        }
    } else if name == seq![65u8, 80u8, 80u8, 69u8, 78u8, 68u8] {
        if items.len() != 3 {
            Err(RedisErrorModel::Other(wrong_args_msg(seq![65u8, 80u8, 80u8, 69u8, 78u8, 68u8])))
        } else {
            match arg_bytes(items[1]) {
                None => Err(RedisErrorModel::Other(expected_bytes_msg())),
                Some(x0) => {
                    match arg_bytes(items[2]) {
                        None => Err(RedisErrorModel::Other(expected_bytes_msg())),
                        Some(x1) => {
                            Ok(CommandModel::Append(x0, x1))
                        },
                    }
                },
            }
        }
    } else if name == seq![83u8, 84u8, 82u8, 76u8, 69u8, 78u8] {
        if items.len() != 2 {
            Err(RedisErrorModel::Other(wrong_args_msg(seq![83u8, 84u8, 82u8, 76u8, 69u8, 78u8])))
        } else {
            match arg_bytes(items[1]) {
                None => Err(RedisErrorModel::Other(expected_bytes_msg())),
                Some(x0) => {
                    Ok(CommandModel::StrLen(x0))
                },
            }
        }
    } else if name == seq![71u8, 69u8, 84u8, 83u8, 69u8, 84u8] {
        if items.len() != 3 {
            Err(RedisErrorModel::Other(wrong_args_msg(seq![71u8, 69u8, 84u8, 83u8, 69u8, 84u8])))
        } else {
            match arg_bytes(items[1]) {
                None => Err(RedisErrorModel::Other(expected_bytes_msg())),
                Some(x0) => {
                    match arg_bytes(items[2]) {
                        None => Err(RedisErrorModel::Other(expected_bytes_msg())),
                        Some(x1) => {
                            Ok(CommandModel::GetSet(x0, x1))
                        },
                    }
                },
            }
        }
    } else if name == seq![73u8, 78u8, 67u8, 82u8] {
        if items.len() != 2 {
            Err(RedisErrorModel::Other(wrong_args_msg(seq![73u8, 78u8, 67u8, 82u8])))
        } else {
            match arg_bytes(items[1]) {
                None => Err(RedisErrorModel::Other(expected_bytes_msg())),
                Some(x0) => {
                    Ok(CommandModel::Incr(x0))
                },
            }
        }
    } else if name == seq![73u8, 78u8, 67u8, 82u8, 66u8, 89u8] {
        if items.len() != 3 {
            Err(RedisErrorModel::Other(wrong_args_msg(seq![73u8, 78u8, 67u8, 82u8, 66u8, 89u8])))
        } else {
            match arg_bytes(items[1]) {
                None => Err(RedisErrorModel::Other(expected_bytes_msg())),
                Some(x0) => {
                    match arg_bytes(items[2]) {
                        None => Err(RedisErrorModel::Other(expected_bytes_msg())),
                        Some(x1) => {
                            if !int_line_valid(x1) {
                                Err(RedisErrorModel::Other(not_int_arg_msg()))
                            } else {
                                Ok(CommandModel::IncrBy(x0, int_line_val(x1)))
                            }
                        },
                    }
                },
            }
        }
    } else if name == seq![77u8, 83u8, 69u8, 84u8] {
        if items.len() < 3 || items.len() % 2 == 0 {
            Err(RedisErrorModel::Other(wrong_args_msg(seq![77u8, 83u8, 69u8, 84u8])))
        } else {
            match args_bytes(items, 1) {
                None => Err(RedisErrorModel::Other(expected_bytes_msg())),
                Some(vs0) => {
                    Ok(CommandModel::MSet(pair_up(vs0)))
                },
            }
        }
    } else if name == seq![77u8, 71u8, 69u8, 84u8] {
        if items.len() < 2 {
            Err(RedisErrorModel::Other(wrong_args_msg(seq![77u8, 71u8, 69u8, 84u8])))
        } else {
            match args_bytes(items, 1) {
                None => Err(RedisErrorModel::Other(expected_bytes_msg())),
                Some(vs0) => {
                    Ok(CommandModel::MGet(vs0))
                },
            }
        }
    } else if name == seq![76u8, 80u8, 85u8, 83u8, 72u8] {
        if items.len() < 3 {
            Err(RedisErrorModel::Other(wrong_args_msg(seq![76u8, 80u8, 85u8, 83u8, 72u8])))
        } else {
            match arg_bytes(items[1]) {
                None => Err(RedisErrorModel::Other(expected_bytes_msg())),
                Some(x0) => {
                    match args_bytes(items, 2) {
                        None => Err(RedisErrorModel::Other(expected_bytes_msg())),
                        Some(vs1) => {
                            Ok(CommandModel::LPush(x0, vs1))
                        },
                    }
                },
            }
        }
    } else if name == seq![76u8, 80u8, 79u8, 80u8] {
        if items.len() != 2 {
            Err(RedisErrorModel::Other(wrong_args_msg(seq![76u8, 80u8, 79u8, 80u8])))
        } else {
            match arg_bytes(items[1]) {
                None => Err(RedisErrorModel::Other(expected_bytes_msg())),
                Some(x0) => {
                    Ok(CommandModel::LPop(x0))
                },
            }
        }
    } else if name == seq![82u8, 80u8, 85u8, 83u8, 72u8] {
        if items.len() < 3 {
            Err(RedisErrorModel::Other(wrong_args_msg(seq![82u8, 80u8, 85u8, 83u8, 72u8])))
        } else {
            match arg_bytes(items[1]) {
                None => Err(RedisErrorModel::Other(expected_bytes_msg())),
                Some(x0) => {
                    match args_bytes(items, 2) {
                        None => Err(RedisErrorModel::Other(expected_bytes_msg())),
                        Some(vs1) => {
                            Ok(CommandModel::RPush(x0, vs1))
                        },
                    }
                },
            }
        }
    } else if name == seq![82u8, 80u8, 79u8, 80u8] {
        if items.len() != 2 {
            Err(RedisErrorModel::Other(wrong_args_msg(seq![82u8, 80u8, 79u8, 80u8])))
        } else {
            match arg_bytes(items[1]) {
                None => Err(RedisErrorModel::Other(expected_bytes_msg())),
                Some(x0) => {
                    Ok(CommandModel::RPop(x0))
                },
            }
        }
    } else if name == seq![76u8, 76u8, 69u8, 78u8] {
        if items.len() != 2 {
            Err(RedisErrorModel::Other(wrong_args_msg(seq![76u8, 76u8, 69u8, 78u8])))
        } else {
            match arg_bytes(items[1]) {
                None => Err(RedisErrorModel::Other(expected_bytes_msg())),
                Some(x0) => {
                    Ok(CommandModel::LLen(x0))
                },
            }
        }
    } else if name == seq![76u8, 82u8, 65u8, 78u8, 71u8, 69u8] {
        if items.len() != 4 {
            Err(RedisErrorModel::Other(wrong_args_msg(seq![76u8, 82u8, 65u8, 78u8, 71u8, 69u8])))
        } else {
            match arg_bytes(items[1]) {
                None => Err(RedisErrorModel::Other(expected_bytes_msg())),
                Some(x0) => {
                    match arg_bytes(items[2]) {
                        None => Err(RedisErrorModel::Other(expected_bytes_msg())),
                        Some(x1) => {
                            if !int_line_valid(x1) {
                                Err(RedisErrorModel::Other(not_int_arg_msg()))
                            } else {
                                match arg_bytes(items[3]) {
                                    None => Err(RedisErrorModel::Other(expected_bytes_msg())),
                                    Some(x2) => {
                                        if !int_line_valid(x2) {
                                            Err(RedisErrorModel::Other(not_int_arg_msg()))
                                        } else {
                                            Ok(CommandModel::LRange(x0, int_line_val(x1), int_line_val(x2)))
                                        }
                                    },
                                }
                            }
                        },
                    }
                },
            }
        }
    } else if name == seq![76u8, 73u8, 78u8, 68u8, 69u8, 88u8] {
        if items.len() != 3 {
            Err(RedisErrorModel::Other(wrong_args_msg(seq![76u8, 73u8, 78u8, 68u8, 69u8, 88u8])))
        } else {
            match arg_bytes(items[1]) {
                None => Err(RedisErrorModel::Other(expected_bytes_msg())),
                Some(x0) => {
                    match arg_bytes(items[2]) {
                        None => Err(RedisErrorModel::Other(expected_bytes_msg())),
                        Some(x1) => {
                            if !int_line_valid(x1) {
                                Err(RedisErrorModel::Other(not_int_arg_msg()))
                            } else {
                                Ok(CommandModel::LIndex(x0, int_line_val(x1)))
                            }
                        },
                    }
                },
            }
        }
    } else if name == seq![76u8, 83u8, 69u8, 84u8] {
        if items.len() != 4 {
            Err(RedisErrorModel::Other(wrong_args_msg(seq![76u8, 83u8, 69u8, 84u8])))
        } else {
            match arg_bytes(items[1]) {
                None => Err(RedisErrorModel::Other(expected_bytes_msg())),
                Some(x0) => {
                    match arg_bytes(items[2]) {
                        None => Err(RedisErrorModel::Other(expected_bytes_msg())),
                        Some(x1) => {
                            if !int_line_valid(x1) {
                                Err(RedisErrorModel::Other(not_int_arg_msg()))
                            } else {
                                match arg_bytes(items[3]) {
                                    None => Err(RedisErrorModel::Other(expected_bytes_msg())),
                                    Some(x2) => {
                                        Ok(CommandModel::LSet(x0, int_line_val(x1), x2))
                                    },
                                }
                            }
                        },
                    }
                },
            }
        }
    } else if name == seq![76u8, 84u8, 82u8, 73u8, 77u8] {
        if items.len() != 4 {
            Err(RedisErrorModel::Other(wrong_args_msg(seq![76u8, 84u8, 82u8, 73u8, 77u8])))
        } else {
            match arg_bytes(items[1]) {
                None => Err(RedisErrorModel::Other(expected_bytes_msg())),
                Some(x0) => {
                    match arg_bytes(items[2]) {
                        None => Err(RedisErrorModel::Other(expected_bytes_msg())),
                        Some(x1) => {
                            if !int_line_valid(x1) {
                                Err(RedisErrorModel::Other(not_int_arg_msg()))
                            } else {
                                match arg_bytes(items[3]) {
                                    None => Err(RedisErrorModel::Other(expected_bytes_msg())),
                                    Some(x2) => {
                                        if !int_line_valid(x2) {
                                            Err(RedisErrorModel::Other(not_int_arg_msg()))
                                        } else {
                                            Ok(CommandModel::LTrim(x0, int_line_val(x1), int_line_val(x2)))
                                        }
                                    },
                                }
                            }
                        },
                    }
                },
            }
        }
    } else if name == seq![66u8, 82u8, 80u8, 79u8, 80u8] {
        if items.len() != 3 {
            Err(RedisErrorModel::Other(wrong_args_msg(seq![66u8, 82u8, 80u8, 79u8, 80u8])))
        } else {
            match arg_bytes(items[1]) {
                None => Err(RedisErrorModel::Other(expected_bytes_msg())),
                Some(x0) => {
                    match arg_bytes(items[2]) {
                        None => Err(RedisErrorModel::Other(expected_bytes_msg())),
                        Some(x1) => {
                            if !(int_line_valid(x1) && int_line_val(x1) >= 0) {
                                Err(RedisErrorModel::Other(timeout_int_msg()))
                            } else {
                                Ok(CommandModel::BRPop(x0, int_line_val(x1)))
                            }
                        },
                    }
                },
            }
        }
    } else if name == seq![72u8, 83u8, 69u8, 84u8] {
        if items.len() != 4 {
            Err(RedisErrorModel::Other(wrong_args_msg(seq![72u8, 83u8, 69u8, 84u8])))
        } else {
            match arg_bytes(items[1]) {
                None => Err(RedisErrorModel::Other(expected_bytes_msg())),
                Some(x0) => {
                    match arg_bytes(items[2]) {
                        None => Err(RedisErrorModel::Other(expected_bytes_msg())),
                        Some(x1) => {
                            match arg_bytes(items[3]) {
                                None => Err(RedisErrorModel::Other(expected_bytes_msg())),
                                Some(x2) => {
                                    Ok(CommandModel::HSet(x0, x1, x2))
                                },
                            }
                        },
                    }
                },
            }
        }
    } else if name == seq![72u8, 71u8, 69u8, 84u8] {
        if items.len() != 3 {
            Err(RedisErrorModel::Other(wrong_args_msg(seq![72u8, 71u8, 69u8, 84u8])))
        } else {
            match arg_bytes(items[1]) {
                None => Err(RedisErrorModel::Other(expected_bytes_msg())),
                Some(x0) => {
                    match arg_bytes(items[2]) {
                        None => Err(RedisErrorModel::Other(expected_bytes_msg())),
                        Some(x1) => {
                            Ok(CommandModel::HGet(x0, x1))
                        },
                    }
                },
            }
        }
    } else if name == seq![72u8, 68u8, 69u8, 76u8] {
        if items.len() < 3 {
            Err(RedisErrorModel::Other(wrong_args_msg(seq![72u8, 68u8, 69u8, 76u8])))
        } else {
            match arg_bytes(items[1]) {
                None => Err(RedisErrorModel::Other(expected_bytes_msg())),
                Some(x0) => {
                    match args_bytes(items, 2) {
                        None => Err(RedisErrorModel::Other(expected_bytes_msg())),
                        Some(vs1) => {
                            Ok(CommandModel::HDel(x0, vs1))
                        },
                    }
                },
            }
        }
    } else if name == seq![72u8, 71u8, 69u8, 84u8, 65u8, 76u8, 76u8] {
        if items.len() != 2 {
            Err(RedisErrorModel::Other(wrong_args_msg(seq![72u8, 71u8, 69u8, 84u8, 65u8, 76u8, 76u8])))
        } else {
            match arg_bytes(items[1]) {
                None => Err(RedisErrorModel::Other(expected_bytes_msg())),
                Some(x0) => {
                    Ok(CommandModel::HGetAll(x0))
                },
            }
        }
    } else if name == seq![72u8, 77u8, 71u8, 69u8, 84u8] {
        if items.len() < 3 {
            Err(RedisErrorModel::Other(wrong_args_msg(seq![72u8, 77u8, 71u8, 69u8, 84u8])))
        } else {
            match arg_bytes(items[1]) {
                None => Err(RedisErrorModel::Other(expected_bytes_msg())),
                Some(x0) => {
                    match args_bytes(items, 2) {
                        None => Err(RedisErrorModel::Other(expected_bytes_msg())),
                        Some(vs1) => {
                            Ok(CommandModel::HMGet(x0, vs1))
                        },
                    }
                },
            }
        }
    } else if name == seq![72u8, 69u8, 88u8, 73u8, 83u8, 84u8, 83u8] {
        if items.len() != 3 {
            Err(RedisErrorModel::Other(wrong_args_msg(seq![72u8, 69u8, 88u8, 73u8, 83u8, 84u8, 83u8])))
        } else {
            match arg_bytes(items[1]) {
                None => Err(RedisErrorModel::Other(expected_bytes_msg())),
                Some(x0) => {
                    match arg_bytes(items[2]) {
                        None => Err(RedisErrorModel::Other(expected_bytes_msg())),
                        Some(x1) => {
                            Ok(CommandModel::HExists(x0, x1))
                        },
                    }
                },
            }
        }
    } else if name == seq![72u8, 76u8, 69u8, 78u8] {
        if items.len() != 2 {
            Err(RedisErrorModel::Other(wrong_args_msg(seq![72u8, 76u8, 69u8, 78u8])))
        } else {
            match arg_bytes(items[1]) {
                None => Err(RedisErrorModel::Other(expected_bytes_msg())),
                Some(x0) => {
                    Ok(CommandModel::HLen(x0))
                },
            }
        }
    } else if name == seq![72u8, 75u8, 69u8, 89u8, 83u8] {
        if items.len() != 2 {
            Err(RedisErrorModel::Other(wrong_args_msg(seq![72u8, 75u8, 69u8, 89u8, 83u8])))
        } else {
            match arg_bytes(items[1]) {
                None => Err(RedisErrorModel::Other(expected_bytes_msg())),
                Some(x0) => {
                    Ok(CommandModel::HKeys(x0))
                },
            }
        }
    } else if name == seq![72u8, 86u8, 65u8, 76u8, 83u8] {
        if items.len() != 2 {
            Err(RedisErrorModel::Other(wrong_args_msg(seq![72u8, 86u8, 65u8, 76u8, 83u8])))
        } else {
            match arg_bytes(items[1]) {
                None => Err(RedisErrorModel::Other(expected_bytes_msg())),
                Some(x0) => {
                    Ok(CommandModel::HVals(x0))
                },
            }
        }
    } else if name == seq![83u8, 65u8, 68u8, 68u8] {
        if items.len() < 3 {
            Err(RedisErrorModel::Other(wrong_args_msg(seq![83u8, 65u8, 68u8, 68u8])))
        } else {
            match arg_bytes(items[1]) {
                None => Err(RedisErrorModel::Other(expected_bytes_msg())),
                Some(x0) => {
                    match args_bytes(items, 2) {
                        None => Err(RedisErrorModel::Other(expected_bytes_msg())),
                        Some(vs1) => {
                            Ok(CommandModel::SAdd(x0, vs1))
                        },
                    }
                },
            }
        }
    } else if name == seq![83u8, 82u8, 69u8, 77u8] {
        if items.len() < 3 {
            Err(RedisErrorModel::Other(wrong_args_msg(seq![83u8, 82u8, 69u8, 77u8])))
        } else {
            match arg_bytes(items[1]) {
                None => Err(RedisErrorModel::Other(expected_bytes_msg())),
                Some(x0) => {
                    match args_bytes(items, 2) {
                        None => Err(RedisErrorModel::Other(expected_bytes_msg())),
                        Some(vs1) => {
                            Ok(CommandModel::SRem(x0, vs1))
                        },
                    }
                },
            }
        }
    } else if name == seq![83u8, 77u8, 69u8, 77u8, 66u8, 69u8, 82u8, 83u8] {
        if items.len() != 2 {
            Err(RedisErrorModel::Other(wrong_args_msg(seq![83u8, 77u8, 69u8, 77u8, 66u8, 69u8, 82u8, 83u8])))
        } else {
            match arg_bytes(items[1]) {
                None => Err(RedisErrorModel::Other(expected_bytes_msg())),
                Some(x0) => {
                    Ok(CommandModel::SMembers(x0))
                },
            }
        }
    } else if name == seq![83u8, 73u8, 83u8, 77u8, 69u8, 77u8, 66u8, 69u8, 82u8] {
        if items.len() != 3 {
            Err(RedisErrorModel::Other(wrong_args_msg(seq![83u8, 73u8, 83u8, 77u8, 69u8, 77u8, 66u8, 69u8, 82u8])))
        } else {
            match arg_bytes(items[1]) {
                None => Err(RedisErrorModel::Other(expected_bytes_msg())),
                Some(x0) => {
                    match arg_bytes(items[2]) {
                        None => Err(RedisErrorModel::Other(expected_bytes_msg())),
                        Some(x1) => {
                            Ok(CommandModel::SIsMember(x0, x1))
                        },
                    }
                },
            }
        }
    } else if name == seq![83u8, 67u8, 65u8, 82u8, 68u8] {
        if items.len() != 2 {
            Err(RedisErrorModel::Other(wrong_args_msg(seq![83u8, 67u8, 65u8, 82u8, 68u8])))
        } else {
            match arg_bytes(items[1]) {
                None => Err(RedisErrorModel::Other(expected_bytes_msg())),
                Some(x0) => {
                    Ok(CommandModel::SCard(x0))
                },
            }
        }
    } else if name == seq![83u8, 85u8, 78u8, 73u8, 79u8, 78u8] {
        if items.len() < 2 {
            Err(RedisErrorModel::Other(wrong_args_msg(seq![83u8, 85u8, 78u8, 73u8, 79u8, 78u8])))
        } else {
            match args_bytes(items, 1) {
                None => Err(RedisErrorModel::Other(expected_bytes_msg())),
                Some(vs0) => {
                    Ok(CommandModel::SUnion(vs0))
                },
            }
        }
    } else if name == seq![83u8, 73u8, 78u8, 84u8, 69u8, 82u8] {
        if items.len() < 2 {
            Err(RedisErrorModel::Other(wrong_args_msg(seq![83u8, 73u8, 78u8, 84u8, 69u8, 82u8])))
        } else {
            match args_bytes(items, 1) {
                None => Err(RedisErrorModel::Other(expected_bytes_msg())),
                Some(vs0) => {
                    Ok(CommandModel::SInter(vs0))
                },
            }
        }
    } else if name == seq![83u8, 68u8, 73u8, 70u8, 70u8] {
        if items.len() < 2 {
            Err(RedisErrorModel::Other(wrong_args_msg(seq![83u8, 68u8, 73u8, 70u8, 70u8])))
        } else {
            match args_bytes(items, 1) {
                None => Err(RedisErrorModel::Other(expected_bytes_msg())),
                Some(vs0) => {
                    Ok(CommandModel::SDiff(vs0))
                },
            }
        }
    } else if name == seq![90u8, 65u8, 68u8, 68u8] {
        if items.len() != 4 {
            Err(RedisErrorModel::Other(wrong_args_msg(seq![90u8, 65u8, 68u8, 68u8])))
        } else {
            match arg_bytes(items[1]) {
                None => Err(RedisErrorModel::Other(expected_bytes_msg())),
                Some(x0) => {
                    match arg_bytes(items[2]) {
                        None => Err(RedisErrorModel::Other(expected_bytes_msg())),
                        Some(x1) => {
                            if !score_valid(x1) {
                                Err(RedisErrorModel::Other(score_float_msg()))
                            } else {
                                match arg_bytes(items[3]) {
                                    None => Err(RedisErrorModel::Other(expected_bytes_msg())),
                                    Some(x2) => {
                                        Ok(CommandModel::ZAdd(x0, score_micros(x1), x2))
                                    },
                                }
                            }
                        },
                    }
                },
            }
        }
    } else if name == seq![90u8, 82u8, 69u8, 77u8] {
        if items.len() != 3 {
            Err(RedisErrorModel::Other(wrong_args_msg(seq![90u8, 82u8, 69u8, 77u8])))
        } else {
            match arg_bytes(items[1]) {
                None => Err(RedisErrorModel::Other(expected_bytes_msg())),
                Some(x0) => {
                    match arg_bytes(items[2]) {
                        None => Err(RedisErrorModel::Other(expected_bytes_msg())),
                        Some(x1) => {
                            Ok(CommandModel::ZRem(x0, x1))
                        },
                    }
                },
            }
        }
    } else if name == seq![90u8, 82u8, 65u8, 78u8, 71u8, 69u8] {
        if items.len() != 4 {
            Err(RedisErrorModel::Other(wrong_args_msg(seq![90u8, 82u8, 65u8, 78u8, 71u8, 69u8])))
        } else {
            match arg_bytes(items[1]) {
                None => Err(RedisErrorModel::Other(expected_bytes_msg())),
                Some(x0) => {
                    match arg_bytes(items[2]) {
                        None => Err(RedisErrorModel::Other(expected_bytes_msg())),
                        Some(x1) => {
                            if !int_line_valid(x1) {
                                Err(RedisErrorModel::Other(start_int_msg()))
                            } else {
                                match arg_bytes(items[3]) {
                                    None => Err(RedisErrorModel::Other(expected_bytes_msg())),
                                    Some(x2) => {
                                        if !int_line_valid(x2) {
                                            Err(RedisErrorModel::Other(stop_int_msg()))
                                        } else {
                                            Ok(CommandModel::ZRange(x0, int_line_val(x1), int_line_val(x2)))
                                        }
                                    },
                                }
                            }
                        },
                    }
                },
            }
        }
    } else if name == seq![90u8, 82u8, 69u8, 86u8, 82u8, 65u8, 78u8, 71u8, 69u8] {
        if items.len() != 4 {
            Err(RedisErrorModel::Other(wrong_args_msg(seq![90u8, 82u8, 69u8, 86u8, 82u8, 65u8, 78u8, 71u8, 69u8])))
        } else {
            match arg_bytes(items[1]) {
                None => Err(RedisErrorModel::Other(expected_bytes_msg())),
                Some(x0) => {
                    match arg_bytes(items[2]) {
                        None => Err(RedisErrorModel::Other(expected_bytes_msg())),
                        Some(x1) => {
                            if !int_line_valid(x1) {
                                Err(RedisErrorModel::Other(start_int_msg()))
                            } else {
                                match arg_bytes(items[3]) {
                                    None => Err(RedisErrorModel::Other(expected_bytes_msg())),
                                    Some(x2) => {
                                        if !int_line_valid(x2) {
                                            Err(RedisErrorModel::Other(start_int_msg()))
                                        } else {
                                            Ok(CommandModel::ZRevRange(x0, int_line_val(x1), int_line_val(x2)))
                                        }
                                    },
                                }
                            }
                        },
                    }
                },
            }
        }
    } else if name == seq![90u8, 67u8, 65u8, 82u8, 68u8] {
        if items.len() != 2 {
            Err(RedisErrorModel::Other(wrong_args_msg(seq![90u8, 67u8, 65u8, 82u8, 68u8])))
        } else {
            match arg_bytes(items[1]) {
                None => Err(RedisErrorModel::Other(expected_bytes_msg())),
                Some(x0) => {
                    Ok(CommandModel::ZCard(x0))
                },
            }
        }
    } else if name == seq![90u8, 83u8, 67u8, 79u8, 82u8, 69u8] {
        if items.len() != 3 {
            Err(RedisErrorModel::Other(wrong_args_msg(seq![90u8, 83u8, 67u8, 79u8, 82u8, 69u8])))
        } else {
            match arg_bytes(items[1]) {
                None => Err(RedisErrorModel::Other(expected_bytes_msg())),
                Some(x0) => {
                    match arg_bytes(items[2]) {
                        None => Err(RedisErrorModel::Other(expected_bytes_msg())),
                        Some(x1) => {
                            Ok(CommandModel::ZScore(x0, x1))
                        },
                    }
                },
            }
        }
    } else if name == seq![90u8, 82u8, 65u8, 78u8, 71u8, 69u8, 66u8, 89u8, 83u8, 67u8, 79u8, 82u8, 69u8] {
        if items.len() != 4 {
            Err(RedisErrorModel::Other(wrong_args_msg(seq![90u8, 82u8, 65u8, 78u8, 71u8, 69u8, 66u8, 89u8, 83u8, 67u8, 79u8, 82u8, 69u8])))
        } else {
            match arg_bytes(items[1]) {
                None => Err(RedisErrorModel::Other(expected_bytes_msg())),
                Some(x0) => {
                    match arg_bytes(items[2]) {
                        None => Err(RedisErrorModel::Other(expected_bytes_msg())),
                        Some(x1) => {
                            if !score_valid(x1) {
                                Err(RedisErrorModel::Other(min_float_msg()))
                            } else {
                                match arg_bytes(items[3]) {
                                    None => Err(RedisErrorModel::Other(expected_bytes_msg())),
                                    Some(x2) => {
                                        if !score_valid(x2) {
                                            Err(RedisErrorModel::Other(max_float_msg()))
                                        } else {
                                            Ok(CommandModel::ZRangeByScore(x0, score_micros(x1), score_micros(x2)))
                                        }
                                    },
                                }
                            }
                        },
                    }
                },
            }
        }
    } else if name == seq![90u8, 82u8, 69u8, 77u8, 82u8, 65u8, 78u8, 71u8, 69u8, 66u8, 89u8, 83u8, 67u8, 79u8, 82u8, 69u8] {
        if items.len() != 4 {
            Err(RedisErrorModel::Other(wrong_args_msg(seq![90u8, 82u8, 69u8, 77u8, 82u8, 65u8, 78u8, 71u8, 69u8, 66u8, 89u8, 83u8, 67u8, 79u8, 82u8, 69u8])))
        } else {
            match arg_bytes(items[1]) {
                None => Err(RedisErrorModel::Other(expected_bytes_msg())),
                Some(x0) => {
                    match arg_bytes(items[2]) {
                        None => Err(RedisErrorModel::Other(expected_bytes_msg())),
                        Some(x1) => {
                            if !score_valid(x1) {
                                Err(RedisErrorModel::Other(min_float_msg()))
                            } else {
                                match arg_bytes(items[3]) {
                                    None => Err(RedisErrorModel::Other(expected_bytes_msg())),
                                    Some(x2) => {
                                        if !score_valid(x2) {
                                            Err(RedisErrorModel::Other(max_float_msg()))
                                        } else {
                                            Ok(CommandModel::ZRemRangeByScore(x0, score_micros(x1), score_micros(x2)))
                                        }
                                    },
                                }
                            }
                        },
                    }
                },
            }
        }
    } else if name == seq![90u8, 82u8, 65u8, 78u8, 75u8] {
        if items.len() != 3 {
            Err(RedisErrorModel::Other(wrong_args_msg(seq![90u8, 82u8, 65u8, 78u8, 75u8])))
        } else {
            match arg_bytes(items[1]) {
                None => Err(RedisErrorModel::Other(expected_bytes_msg())),
                Some(x0) => {
                    match arg_bytes(items[2]) {
                        None => Err(RedisErrorModel::Other(expected_bytes_msg())),
                        Some(x1) => {
                            Ok(CommandModel::ZRank(x0, x1))
                        },
                    }
                },
            }
        }
    } else if name == seq![90u8, 82u8, 69u8, 86u8, 82u8, 65u8, 78u8, 75u8] {
        if items.len() != 3 {
            Err(RedisErrorModel::Other(wrong_args_msg(seq![90u8, 82u8, 69u8, 86u8, 82u8, 65u8, 78u8, 75u8])))
        } else {
            match arg_bytes(items[1]) {
                None => Err(RedisErrorModel::Other(expected_bytes_msg())),
                Some(x0) => {
                    match arg_bytes(items[2]) {
                        None => Err(RedisErrorModel::Other(expected_bytes_msg())),
                        Some(x1) => {
                            Ok(CommandModel::ZRevRank(x0, x1))
                        },
                    }
                },
            }
        }
    } else if name == seq![90u8, 67u8, 79u8, 85u8, 78u8, 84u8] {
        if items.len() != 4 {
            Err(RedisErrorModel::Other(wrong_args_msg(seq![90u8, 67u8, 79u8, 85u8, 78u8, 84u8])))
        } else {
            match arg_bytes(items[1]) {
                None => Err(RedisErrorModel::Other(expected_bytes_msg())),
                Some(x0) => {
                    match arg_bytes(items[2]) {
                        None => Err(RedisErrorModel::Other(expected_bytes_msg())),
                        Some(x1) => {
                            if !score_valid(x1) {
                                Err(RedisErrorModel::Other(start_float_msg()))
                            } else {
                                match arg_bytes(items[3]) {
                                    None => Err(RedisErrorModel::Other(expected_bytes_msg())),
                                    Some(x2) => {
                                        if !score_valid(x2) {
                                            Err(RedisErrorModel::Other(start_float_msg()))
                                        } else {
                                            Ok(CommandModel::ZCount(x0, score_micros(x1), score_micros(x2)))
                                        }
                                    },
                                }
                            }
                        },
                    }
                },
            }
        }
    } else {
        Err(RedisErrorModel::UnknownCommand)
    }
}

// ---------------------------------------------------------------------------
// Executable resolution.
// ---------------------------------------------------------------------------

fn name_is<const N: usize>(name: &Vec<u8>, lit: [u8; N]) -> (r: bool)
    ensures
        r == (name@ == lit@),
{
    if name.len() != N {
        proof {
            assert(lit@.len() == N);
        }
        return false;
    }
    let mut i: usize = 0;
    while i < N
        invariant
            i <= N,
            name@.len() == N,
            lit@.len() == N,
            forall|j: int| 0 <= j < i ==> name@[j] == lit@[j],
        decreases N - i,
    {
        if name[i] != lit[i] {
            return false;
        }
        i = i + 1;
    }
    proof {
        assert(name@ =~= lit@);
    }
    true
}

/// The byte payload of a bulk or simple frame, copied out.
fn frame_arg_bytes(f: &Frame) -> (r: Option<Vec<u8>>)
    ensures
        match r {
            Some(b) => arg_bytes(f@) == Some(b@),
            None => arg_bytes(f@) is None,
        },
{
    match f {
        Frame::Bulk(b) => Some(crate::zset::bytes_clone(b)),
        Frame::Simple(s) => Some(crate::zset::bytes_clone(s)),
        _ => None,
    }
}

/// The payloads of the frames from `from` on, copied out.
fn collect_bytes(items: &Vec<Frame>, from: usize) -> (r: Option<Vec<Vec<u8>>>)
    ensures
        match r {
            Some(vs) => args_bytes(frames_view(*items), from as int) == Some(
                vs@.map_values(|b: Vec<u8>| b@),
            ),
            None => args_bytes(frames_view(*items), from as int) is None,
        },
    decreases items@.len() - from,
{
    let n = items.len();
    if from >= n {
        let out: Vec<Vec<u8>> = Vec::new();
        proof {
            assert(out@.map_values(|b: Vec<u8>| b@) =~= Seq::<Seq<u8>>::empty());
        }
        return Some(out);
    }
    match frame_arg_bytes(&items[from]) {
        None => None,
        Some(b) => match collect_bytes(items, from + 1) {
            Some(rest) => {
                let mut out: Vec<Vec<u8>> = Vec::new();
                out.push(b);
                let ghost b0 = out@[0]@;
                let mut it = rest;
                let ghost rv = it@.map_values(|x: Vec<u8>| x@);
                let m = it.len();
                let mut i: usize = 0;
                while i < m
                    invariant
                        i <= m,
                        m == it@.len() + i,
                        out@.len() == i + 1,
                        out@[0]@ == b0,
                        rv.len() == m,
                        forall|j: int| 0 <= j < it@.len() ==> (#[trigger] it@[j])@ == rv[j + i],
                        forall|j: int| 1 <= j < out@.len() ==> (#[trigger] out@[j])@ == rv[j - 1],
                    decreases m - i,
                {
                    let x = it.remove(0);
                    out.push(x);
                    i = i + 1;
                }
                proof {
                    assert(out@.map_values(|x: Vec<u8>| x@) =~= seq![b0] + rv);
                }
                Some(out)
            },
            None => None,
        },
    }
}

/// Adjacent pairs, in order.
fn make_pairs(args: Vec<Vec<u8>>) -> (r: Vec<Pair>)
    ensures
        r@.map_values(|p: Pair| p@) == pair_up(args@.map_values(|b: Vec<u8>| b@)),
{
    let ghost avs = args@.map_values(|b: Vec<u8>| b@);
    let mut out: Vec<Pair> = Vec::new();
    let mut it = args;
    while it.len() >= 2
        invariant
            avs == pair_seq_expand(out@.map_values(|p: Pair| p@)) + it@.map_values(
                |b: Vec<u8>| b@,
            ),
            pair_up(avs) == out@.map_values(|p: Pair| p@) + pair_up(
                it@.map_values(|b: Vec<u8>| b@),
            ),
        decreases it@.len(),
    {
        let ghost itv = it@.map_values(|b: Vec<u8>| b@);
        let k = it.remove(0);
        let v = it.remove(0);
        proof {
            assert(itv[0] == k@);
            assert(itv[1] == v@);
            assert(it@.map_values(|b: Vec<u8>| b@) =~= itv.subrange(2, itv.len() as int));
        }
        let ghost before = out@.map_values(|p: Pair| p@);
        out.push(Pair { k, v });
        proof {
            assert(out@.map_values(|p: Pair| p@) =~= before.push((itv[0], itv[1])));
            assert(before.push((itv[0], itv[1])) + pair_up(itv.subrange(2, itv.len() as int))
                =~= before + (seq![(itv[0], itv[1])] + pair_up(
                itv.subrange(2, itv.len() as int),
            )));
            assert(before.push((itv[0], itv[1])).drop_last() =~= before);
            assert(before.push((itv[0], itv[1])).last() == (itv[0], itv[1]));
            assert(pair_seq_expand(before.push((itv[0], itv[1]))) == pair_seq_expand(before)
                + seq![itv[0], itv[1]]);
            assert(pair_seq_expand(out@.map_values(|p: Pair| p@)) =~= pair_seq_expand(before)
                + seq![itv[0], itv[1]]);
            assert(pair_seq_expand(before) + seq![itv[0], itv[1]] + it@.map_values(
                |b: Vec<u8>| b@,
            ) =~= pair_seq_expand(before) + itv);
        }
    }
    proof {
        assert(pair_up(it@.map_values(|b: Vec<u8>| b@)) =~= Seq::<(Seq<u8>, Seq<u8>)>::empty());
        assert(out@.map_values(|p: Pair| p@) + Seq::<(Seq<u8>, Seq<u8>)>::empty()
            =~= out@.map_values(|p: Pair| p@));
    }
    out
}

/// The flat byte strings a pair list came from.
pub open spec fn pair_seq_expand(ps: Seq<(Seq<u8>, Seq<u8>)>) -> Seq<Seq<u8>>
    decreases ps.len(),
{
    if ps.len() == 0 {
        Seq::empty()
    } else {
        pair_seq_expand(ps.drop_last()) + seq![ps.last().0, ps.last().1]
    }
}

fn upper_bytes(name: &Vec<u8>) -> (r: Vec<u8>)
    ensures
        r@ == upper(name@),
{
    let mut out: Vec<u8> = Vec::new();
    let n = name.len();
    let mut i: usize = 0;
    while i < n
        invariant
            i <= n,
            n == name@.len(),
            out@.len() == i,
            forall|j: int| 0 <= j < i ==> out@[j] == upper(name@)[j],
        decreases n - i,
    {
        let c = name[i];
        if 97 <= c && c <= 122 {
            out.push(c - 32);
        } else {
            out.push(c);
        }
        i = i + 1;
    }
    proof {
        assert(out@ =~= upper(name@));
    }
    out
}

fn wrong_args_err<const N: usize>(lit: [u8; N]) -> (e: RedisError)
    ensures
        e@ == RedisErrorModel::Other(wrong_args_msg(lit@)),
{
    let mut v: Vec<u8> = vec![69u8, 82u8, 82u8, 32u8, 119u8, 114u8, 111u8, 110u8, 103u8, 32u8, 110u8, 117u8, 109u8, 98u8, 101u8, 114u8, 32u8, 111u8, 102u8, 32u8, 97u8, 114u8, 103u8, 117u8, 109u8, 101u8, 110u8, 116u8, 115u8, 32u8, 102u8, 111u8, 114u8, 32u8, 39u8];
    proof {
        assert(v@ =~= wrong_args_prefix());
    }
    let mut i: usize = 0;
    while i < N
        invariant
            i <= N,
            lit@.len() == N,
            v@ == wrong_args_prefix() + lit@.take(i as int),
        decreases N - i,
    {
        v.push(lit[i]);
        proof {
            assert(wrong_args_prefix() + lit@.take(i as int) + seq![lit@[i as int]]
                =~= wrong_args_prefix() + lit@.take(i + 1));
        }
        i = i + 1;
    }
    v.push(39);
    proof {
        assert(lit@.take(N as int) =~= lit@);
        assert(v@ =~= wrong_args_msg(lit@));
    }
    RedisError::Other(v)
}

fn expected_bytes_err() -> (e: RedisError)
    ensures
        e@ == RedisErrorModel::Other(expected_bytes_msg()),
{
    let v: Vec<u8> = vec![101u8, 120u8, 112u8, 101u8, 99u8, 116u8, 101u8, 100u8, 32u8, 98u8, 117u8, 108u8, 107u8, 32u8, 111u8, 114u8, 32u8, 115u8, 105u8, 109u8, 112u8, 108u8, 101u8, 32u8, 115u8, 116u8, 114u8, 105u8, 110u8, 103u8];
    proof {
        assert(v@ =~= expected_bytes_msg());
    }
    RedisError::Other(v)
}

fn expected_array_err() -> (e: RedisError)
    ensures
        e@ == RedisErrorModel::Other(expected_array_msg()),
{
    let v: Vec<u8> = vec![101u8, 120u8, 112u8, 101u8, 99u8, 116u8, 101u8, 100u8, 32u8, 97u8, 114u8, 114u8, 97u8, 121u8, 32u8, 102u8, 114u8, 97u8, 109u8, 101u8];
    proof {
        assert(v@ =~= expected_array_msg());
    }
    RedisError::Other(v)
}

fn empty_command_err() -> (e: RedisError)
    ensures
        e@ == RedisErrorModel::Other(empty_command_msg()),
{
    let v: Vec<u8> = vec![101u8, 109u8, 112u8, 116u8, 121u8, 32u8, 99u8, 111u8, 109u8, 109u8, 97u8, 110u8, 100u8];
    proof {
        assert(v@ =~= empty_command_msg());
    }
    RedisError::Other(v)
}

fn invalid_name_err() -> (e: RedisError)
    ensures
        e@ == RedisErrorModel::Other(invalid_name_msg()),
{
    let v: Vec<u8> = vec![105u8, 110u8, 118u8, 97u8, 108u8, 105u8, 100u8, 32u8, 99u8, 111u8, 109u8, 109u8, 97u8, 110u8, 100u8, 32u8, 110u8, 97u8, 109u8, 101u8];
    proof {
        assert(v@ =~= invalid_name_msg());
    }
    RedisError::Other(v)
}

fn not_int_arg_err() -> (e: RedisError)
    ensures
        e@ == RedisErrorModel::Other(not_int_arg_msg()),
{
    let v: Vec<u8> = vec![69u8, 82u8, 82u8, 32u8, 118u8, 97u8, 108u8, 117u8, 101u8, 32u8, 105u8, 115u8, 32u8, 110u8, 111u8, 116u8, 32u8, 97u8, 110u8, 32u8, 105u8, 110u8, 116u8, 101u8, 103u8, 101u8, 114u8];
    proof {
        assert(v@ =~= not_int_arg_msg());
    }
    RedisError::Other(v)
}

fn timeout_int_err() -> (e: RedisError)
    ensures
        e@ == RedisErrorModel::Other(timeout_int_msg()),
{
    let v: Vec<u8> = vec![69u8, 82u8, 82u8, 32u8, 116u8, 105u8, 109u8, 101u8, 111u8, 117u8, 116u8, 32u8, 109u8, 117u8, 115u8, 116u8, 32u8, 98u8, 101u8, 32u8, 105u8, 110u8, 116u8, 101u8, 103u8, 101u8, 114u8];
    proof {
        assert(v@ =~= timeout_int_msg());
    }
    RedisError::Other(v)
}

fn score_float_err() -> (e: RedisError)
    ensures
        e@ == RedisErrorModel::Other(score_float_msg()),
{
    let v: Vec<u8> = vec![69u8, 82u8, 82u8, 32u8, 115u8, 99u8, 111u8, 114u8, 101u8, 32u8, 109u8, 117u8, 115u8, 116u8, 32u8, 98u8, 101u8, 32u8, 97u8, 32u8, 102u8, 108u8, 111u8, 97u8, 116u8];
    proof {
        assert(v@ =~= score_float_msg());
    }
    RedisError::Other(v)
}

fn min_float_err() -> (e: RedisError)
    ensures
        e@ == RedisErrorModel::Other(min_float_msg()),
{
    let v: Vec<u8> = vec![69u8, 82u8, 82u8, 32u8, 109u8, 105u8, 110u8, 32u8, 109u8, 117u8, 115u8, 116u8, 32u8, 98u8, 101u8, 32u8, 97u8, 32u8, 102u8, 108u8, 111u8, 97u8, 116u8];
    proof {
        assert(v@ =~= min_float_msg());
    }
    RedisError::Other(v)
}

fn max_float_err() -> (e: RedisError)
    ensures
        e@ == RedisErrorModel::Other(max_float_msg()),
{
    let v: Vec<u8> = vec![69u8, 82u8, 82u8, 32u8, 109u8, 97u8, 120u8, 32u8, 109u8, 117u8, 115u8, 116u8, 32u8, 98u8, 101u8, 32u8, 97u8, 32u8, 102u8, 108u8, 111u8, 97u8, 116u8];
    proof {
        assert(v@ =~= max_float_msg());
    }
    RedisError::Other(v)
}

fn start_int_err() -> (e: RedisError)
    ensures
        e@ == RedisErrorModel::Other(start_int_msg()),
{
    let v: Vec<u8> = vec![69u8, 82u8, 82u8, 32u8, 115u8, 116u8, 97u8, 114u8, 116u8, 32u8, 109u8, 117u8, 115u8, 116u8, 32u8, 98u8, 101u8, 32u8, 97u8, 110u8, 32u8, 105u8, 110u8, 116u8, 101u8, 103u8, 101u8, 114u8];
    proof {
        assert(v@ =~= start_int_msg());
    }
    RedisError::Other(v)
}

fn stop_int_err() -> (e: RedisError)
    ensures
        e@ == RedisErrorModel::Other(stop_int_msg()),
{
    let v: Vec<u8> = vec![69u8, 82u8, 82u8, 32u8, 115u8, 116u8, 111u8, 112u8, 32u8, 109u8, 117u8, 115u8, 116u8, 32u8, 98u8, 101u8, 32u8, 97u8, 110u8, 32u8, 105u8, 110u8, 116u8, 101u8, 103u8, 101u8, 114u8];
    proof {
        assert(v@ =~= stop_int_msg());
    }
    RedisError::Other(v)
}

fn start_float_err() -> (e: RedisError)
    ensures
        e@ == RedisErrorModel::Other(start_float_msg()),
{
    let v: Vec<u8> = vec![69u8, 82u8, 82u8, 32u8, 115u8, 116u8, 97u8, 114u8, 116u8, 32u8, 109u8, 117u8, 115u8, 116u8, 32u8, 98u8, 101u8, 32u8, 97u8, 32u8, 102u8, 108u8, 111u8, 97u8, 116u8];
    proof {
        assert(v@ =~= start_float_msg());
    }
    RedisError::Other(v)
}

impl Command {
    /// Resolves a request frame into a typed command, judging shape, arity
    /// and numeric arguments.
    #[verifier::rlimit(100)]
    pub fn try_from(frame: Frame) -> (r: Result<Command, RedisError>)
        ensures
            match r {
                Ok(c) => spec_command_of(frame@) == Ok::<CommandModel, RedisErrorModel>(c@),
                Err(e) => spec_command_of(frame@) == Err::<CommandModel, RedisErrorModel>(e@),
            },
    {
        let items: Vec<Frame> = match frame {
            Frame::Array(a) => a,
            _ => {
                return Err(expected_array_err());
            },
        };
        proof {
            crate::frame::lemma_array_view(items);
        }
        if items.len() == 0 {
            return Err(empty_command_err());
        }
        let raw = match frame_arg_bytes(&items[0]) {
            Some(b) => b,
            None => {
                return Err(invalid_name_err());
            },
        };
        let name = upper_bytes(&raw);
        proof {
            assert(frames_view(items)[0] == items@[0]@);
        }
        if name_is(&name, [80u8, 73u8, 78u8, 71u8]) {
            return Ok(Command::Ping);
        }
        if name_is(&name, [69u8, 88u8, 80u8, 73u8, 82u8, 69u8]) {
            if items.len() != 3 {
                return Err(wrong_args_err([69u8, 88u8, 80u8, 73u8, 82u8, 69u8]));
            }
            let x0 = match frame_arg_bytes(&items[1]) {
                Some(b) => b,
                None => {
                    return Err(expected_bytes_err());
                },
            };
            let x1 = match frame_arg_bytes(&items[2]) {
                Some(b) => b,
                None => {
                    return Err(expected_bytes_err());
                },
            };
            let n1 = match parse_int_line(x1.as_slice()) {
                Some(v) => if v >= 0 {
                    v as u64
                } else {
                    return Err(not_int_arg_err());
                },
                None => {
                    return Err(not_int_arg_err());
                },
            };
            return Ok(Command::Expire(x0, n1));
        }
        if name_is(&name, [84u8, 84u8, 76u8]) {
            if items.len() != 2 {
                return Err(wrong_args_err([84u8, 84u8, 76u8]));
            }
            let x0 = match frame_arg_bytes(&items[1]) {
                Some(b) => b,
                None => {
                    return Err(expected_bytes_err());
                },
            };
            return Ok(Command::Ttl(x0));
        }
        if name_is(&name, [71u8, 69u8, 84u8]) {
            if items.len() != 2 {
                return Err(wrong_args_err([71u8, 69u8, 84u8]));
            }
            let x0 = match frame_arg_bytes(&items[1]) {
                Some(b) => b,
                None => {
                    return Err(expected_bytes_err());
                },
            };
            return Ok(Command::Get(x0));
        }
        if name_is(&name, [83u8, 69u8, 84u8]) {
            if items.len() != 3 {
                return Err(wrong_args_err([83u8, 69u8, 84u8]));
            }
            let x0 = match frame_arg_bytes(&items[1]) {
                Some(b) => b,
                None => {
                    return Err(expected_bytes_err());
                },
            };
            let x1 = match frame_arg_bytes(&items[2]) {
                Some(b) => b,
                None => {
                    return Err(expected_bytes_err());
                },
            };
            return Ok(Command::SetCmd(x0, x1));
        }
        if name_is(&name, [68u8, 69u8, 76u8]) {
            if items.len() != 2 {
                return Err(wrong_args_err([68u8, 69u8, 76u8]));
            }
            let x0 = match frame_arg_bytes(&items[1]) {
                Some(b) => b,
                None => {
                    return Err(expected_bytes_err());
                },
            };
            return Ok(Command::Del(x0));
        }
        if name_is(&name, [65u8, 80u8, 80u8, 69u8, 78u8, 68u8]) {
            if items.len() != 3 {
                return Err(wrong_args_err([65u8, 80u8, 80u8, 69u8, 78u8, 68u8]));
            }
            let x0 = match frame_arg_bytes(&items[1]) {
                Some(b) => b,
                None => {
                    return Err(expected_bytes_err());
                },
            };
            let x1 = match frame_arg_bytes(&items[2]) {
                Some(b) => b,
                None => {
                    return Err(expected_bytes_err());
                },
            };
            return Ok(Command::Append(x0, x1));
        }
        if name_is(&name, [83u8, 84u8, 82u8, 76u8, 69u8, 78u8]) {
            if items.len() != 2 {
                return Err(wrong_args_err([83u8, 84u8, 82u8, 76u8, 69u8, 78u8]));
            }
            let x0 = match frame_arg_bytes(&items[1]) {
                Some(b) => b,
                None => {
                    return Err(expected_bytes_err());
                },
            };
            return Ok(Command::StrLen(x0));
        }
        if name_is(&name, [71u8, 69u8, 84u8, 83u8, 69u8, 84u8]) {
            if items.len() != 3 {
                return Err(wrong_args_err([71u8, 69u8, 84u8, 83u8, 69u8, 84u8]));
            }
            let x0 = match frame_arg_bytes(&items[1]) {
                Some(b) => b,
                None => {
                    return Err(expected_bytes_err());
                },
            };
            let x1 = match frame_arg_bytes(&items[2]) {
                Some(b) => b,
                None => {
                    return Err(expected_bytes_err());
                },
            };
            return Ok(Command::GetSet(x0, x1));
        }
        if name_is(&name, [73u8, 78u8, 67u8, 82u8]) {
            if items.len() != 2 {
                return Err(wrong_args_err([73u8, 78u8, 67u8, 82u8]));
            }
            let x0 = match frame_arg_bytes(&items[1]) {
                Some(b) => b,
                None => {
                    return Err(expected_bytes_err());
                },
            };
            return Ok(Command::Incr(x0));
        }
        if name_is(&name, [73u8, 78u8, 67u8, 82u8, 66u8, 89u8]) {
            if items.len() != 3 {
                return Err(wrong_args_err([73u8, 78u8, 67u8, 82u8, 66u8, 89u8]));
            }
            let x0 = match frame_arg_bytes(&items[1]) {
                Some(b) => b,
                None => {
                    return Err(expected_bytes_err());
                },
            };
            let x1 = match frame_arg_bytes(&items[2]) {
                Some(b) => b,
                None => {
                    return Err(expected_bytes_err());
                },
            };
            let n1 = match parse_int_line(x1.as_slice()) {
                Some(v) => v,
                None => {
                    return Err(not_int_arg_err());
                },
            };
            return Ok(Command::IncrBy(x0, n1));
        }
        if name_is(&name, [77u8, 83u8, 69u8, 84u8]) {
            if items.len() < 3 || items.len() % 2 == 0 {
                return Err(wrong_args_err([77u8, 83u8, 69u8, 84u8]));
            }
            let vs0 = match collect_bytes(&items, 1) {
                Some(v) => v,
                None => {
                    return Err(expected_bytes_err());
                },
            };
            let ps0 = make_pairs(vs0);
            return Ok(Command::MSet(ps0));
        }
        if name_is(&name, [77u8, 71u8, 69u8, 84u8]) {
            if items.len() < 2 {
                return Err(wrong_args_err([77u8, 71u8, 69u8, 84u8]));
            }
            let vs0 = match collect_bytes(&items, 1) {
                Some(v) => v,
                None => {
                    return Err(expected_bytes_err());
                },
            };
            return Ok(Command::MGet(vs0));
        }
        if name_is(&name, [76u8, 80u8, 85u8, 83u8, 72u8]) {
            if items.len() < 3 {
                return Err(wrong_args_err([76u8, 80u8, 85u8, 83u8, 72u8]));
            }
            let x0 = match frame_arg_bytes(&items[1]) {
                Some(b) => b,
                None => {
                    return Err(expected_bytes_err());
                },
            };
            let vs1 = match collect_bytes(&items, 2) {
                Some(v) => v,
                None => {
                    return Err(expected_bytes_err());
                },
            };
            return Ok(Command::LPush(x0, vs1));
        }
        if name_is(&name, [76u8, 80u8, 79u8, 80u8]) {
            if items.len() != 2 {
                return Err(wrong_args_err([76u8, 80u8, 79u8, 80u8]));
            }
            let x0 = match frame_arg_bytes(&items[1]) {
                Some(b) => b,
                None => {
                    return Err(expected_bytes_err());
                },
            };
            return Ok(Command::LPop(x0));
        }
        if name_is(&name, [82u8, 80u8, 85u8, 83u8, 72u8]) {
            if items.len() < 3 {
                return Err(wrong_args_err([82u8, 80u8, 85u8, 83u8, 72u8]));
            }
            let x0 = match frame_arg_bytes(&items[1]) {
                Some(b) => b,
                None => {
                    return Err(expected_bytes_err());
                },
            };
            let vs1 = match collect_bytes(&items, 2) {
                Some(v) => v,
                None => {
                    return Err(expected_bytes_err());
                },
            };
            return Ok(Command::RPush(x0, vs1));
        }
        if name_is(&name, [82u8, 80u8, 79u8, 80u8]) {
            if items.len() != 2 {
                return Err(wrong_args_err([82u8, 80u8, 79u8, 80u8]));
            }
            let x0 = match frame_arg_bytes(&items[1]) {
                Some(b) => b,
                None => {
                    return Err(expected_bytes_err());
                },
            };
            return Ok(Command::RPop(x0));
        }
        if name_is(&name, [76u8, 76u8, 69u8, 78u8]) {
            if items.len() != 2 {
                return Err(wrong_args_err([76u8, 76u8, 69u8, 78u8]));
            }
            let x0 = match frame_arg_bytes(&items[1]) {
                Some(b) => b,
                None => {
                    return Err(expected_bytes_err());
                },
            };
            return Ok(Command::LLen(x0));
        }
        if name_is(&name, [76u8, 82u8, 65u8, 78u8, 71u8, 69u8]) {
            if items.len() != 4 {
                return Err(wrong_args_err([76u8, 82u8, 65u8, 78u8, 71u8, 69u8]));
            }
            let x0 = match frame_arg_bytes(&items[1]) {
                Some(b) => b,
                None => {
                    return Err(expected_bytes_err());
                },
            };
            let x1 = match frame_arg_bytes(&items[2]) {
                Some(b) => b,
                None => {
                    return Err(expected_bytes_err());
                },
            };
            let n1 = match parse_int_line(x1.as_slice()) {
                Some(v) => v,
                None => {
                    return Err(not_int_arg_err());
                },
            };
            let x2 = match frame_arg_bytes(&items[3]) {
                Some(b) => b,
                None => {
                    return Err(expected_bytes_err());
                },
            };
            let n2 = match parse_int_line(x2.as_slice()) {
                Some(v) => v,
                None => {
                    return Err(not_int_arg_err());
                },
            };
            return Ok(Command::LRange(x0, n1, n2));
        }
        if name_is(&name, [76u8, 73u8, 78u8, 68u8, 69u8, 88u8]) {
            if items.len() != 3 {
                return Err(wrong_args_err([76u8, 73u8, 78u8, 68u8, 69u8, 88u8]));
            }
            let x0 = match frame_arg_bytes(&items[1]) {
                Some(b) => b,
                None => {
                    return Err(expected_bytes_err());
                },
            };
            let x1 = match frame_arg_bytes(&items[2]) {
                Some(b) => b,
                None => {
                    return Err(expected_bytes_err());
                },
            };
            let n1 = match parse_int_line(x1.as_slice()) {
                Some(v) => v,
                None => {
                    return Err(not_int_arg_err());
                },
            };
            return Ok(Command::LIndex(x0, n1));
        }
        if name_is(&name, [76u8, 83u8, 69u8, 84u8]) {
            if items.len() != 4 {
                return Err(wrong_args_err([76u8, 83u8, 69u8, 84u8]));
            }
            let x0 = match frame_arg_bytes(&items[1]) {
                Some(b) => b,
                None => {
                    return Err(expected_bytes_err());
                },
            };
            let x1 = match frame_arg_bytes(&items[2]) {
                Some(b) => b,
                None => {
                    return Err(expected_bytes_err());
                },
            };
            let n1 = match parse_int_line(x1.as_slice()) {
                Some(v) => v,
                None => {
                    return Err(not_int_arg_err());
                },
            };
            let x2 = match frame_arg_bytes(&items[3]) {
                Some(b) => b,
                None => {
                    return Err(expected_bytes_err());
                },
            };
            return Ok(Command::LSet(x0, n1, x2));
        }
        if name_is(&name, [76u8, 84u8, 82u8, 73u8, 77u8]) {
            if items.len() != 4 {
                return Err(wrong_args_err([76u8, 84u8, 82u8, 73u8, 77u8]));
            }
            let x0 = match frame_arg_bytes(&items[1]) {
                Some(b) => b,
                None => {
                    return Err(expected_bytes_err());
                },
            };
            let x1 = match frame_arg_bytes(&items[2]) {
                Some(b) => b,
                None => {
                    return Err(expected_bytes_err());
                },
            };
            let n1 = match parse_int_line(x1.as_slice()) {
                Some(v) => v,
                None => {
                    return Err(not_int_arg_err());
                },
            };
            let x2 = match frame_arg_bytes(&items[3]) {
                Some(b) => b,
                None => {
                    return Err(expected_bytes_err());
                },
            };
            let n2 = match parse_int_line(x2.as_slice()) {
                Some(v) => v,
                None => {
                    return Err(not_int_arg_err());
                },
            };
            return Ok(Command::LTrim(x0, n1, n2));
        }
        if name_is(&name, [66u8, 82u8, 80u8, 79u8, 80u8]) {
            if items.len() != 3 {
                return Err(wrong_args_err([66u8, 82u8, 80u8, 79u8, 80u8]));
            }
            let x0 = match frame_arg_bytes(&items[1]) {
                Some(b) => b,
                None => {
                    return Err(expected_bytes_err());
                },
            };
            let x1 = match frame_arg_bytes(&items[2]) {
                Some(b) => b,
                None => {
                    return Err(expected_bytes_err());
                },
            };
            let n1 = match parse_int_line(x1.as_slice()) {
                Some(v) => if v >= 0 {
                    v as u64
                } else {
                    return Err(timeout_int_err());
                },
                None => {
                    return Err(timeout_int_err());
                },
            };
            return Ok(Command::BRPop(x0, n1));
        }
        if name_is(&name, [72u8, 83u8, 69u8, 84u8]) {
            if items.len() != 4 {
                return Err(wrong_args_err([72u8, 83u8, 69u8, 84u8]));
            }
            let x0 = match frame_arg_bytes(&items[1]) {
                Some(b) => b,
                None => {
                    return Err(expected_bytes_err());
                },
            };
            let x1 = match frame_arg_bytes(&items[2]) {
                Some(b) => b,
                None => {
                    return Err(expected_bytes_err());
                },
            };
            let x2 = match frame_arg_bytes(&items[3]) {
                Some(b) => b,
                None => {
                    return Err(expected_bytes_err());
                },
            };
            return Ok(Command::HSet(x0, x1, x2));
        }
        if name_is(&name, [72u8, 71u8, 69u8, 84u8]) {
            if items.len() != 3 {
                return Err(wrong_args_err([72u8, 71u8, 69u8, 84u8]));
            }
            let x0 = match frame_arg_bytes(&items[1]) {
                Some(b) => b,
                None => {
                    return Err(expected_bytes_err());
                },
            };
            let x1 = match frame_arg_bytes(&items[2]) {
                Some(b) => b,
                None => {
                    return Err(expected_bytes_err());
                },
            };
            return Ok(Command::HGet(x0, x1));
        }
        if name_is(&name, [72u8, 68u8, 69u8, 76u8]) {
            if items.len() < 3 {
                return Err(wrong_args_err([72u8, 68u8, 69u8, 76u8]));
            }
            let x0 = match frame_arg_bytes(&items[1]) {
                Some(b) => b,
                None => {
                    return Err(expected_bytes_err());
                },
            };
            let vs1 = match collect_bytes(&items, 2) {
                Some(v) => v,
                None => {
                    return Err(expected_bytes_err());
                },
            };
            return Ok(Command::HDel(x0, vs1));
        }
        if name_is(&name, [72u8, 71u8, 69u8, 84u8, 65u8, 76u8, 76u8]) {
            if items.len() != 2 {
                return Err(wrong_args_err([72u8, 71u8, 69u8, 84u8, 65u8, 76u8, 76u8]));
            }
            let x0 = match frame_arg_bytes(&items[1]) {
                Some(b) => b,
                None => {
                    return Err(expected_bytes_err());
                },
            };
            return Ok(Command::HGetAll(x0));
        }
        if name_is(&name, [72u8, 77u8, 71u8, 69u8, 84u8]) {
            if items.len() < 3 {
                return Err(wrong_args_err([72u8, 77u8, 71u8, 69u8, 84u8]));
            }
            let x0 = match frame_arg_bytes(&items[1]) {
                Some(b) => b,
                None => {
                    return Err(expected_bytes_err());
                },
            };
            let vs1 = match collect_bytes(&items, 2) {
                Some(v) => v,
                None => {
                    return Err(expected_bytes_err());
                },
            };
            return Ok(Command::HMGet(x0, vs1));
        }
        if name_is(&name, [72u8, 69u8, 88u8, 73u8, 83u8, 84u8, 83u8]) {
            if items.len() != 3 {
                return Err(wrong_args_err([72u8, 69u8, 88u8, 73u8, 83u8, 84u8, 83u8]));
            }
            let x0 = match frame_arg_bytes(&items[1]) {
                Some(b) => b,
                None => {
                    return Err(expected_bytes_err());
                },
            };
            let x1 = match frame_arg_bytes(&items[2]) {
                Some(b) => b,
                None => {
                    return Err(expected_bytes_err());
                },
            };
            return Ok(Command::HExists(x0, x1));
        }
        if name_is(&name, [72u8, 76u8, 69u8, 78u8]) {
            if items.len() != 2 {
                return Err(wrong_args_err([72u8, 76u8, 69u8, 78u8]));
            }
            let x0 = match frame_arg_bytes(&items[1]) {
                Some(b) => b,
                None => {
                    return Err(expected_bytes_err());
                },
            };
            return Ok(Command::HLen(x0));
        }
        if name_is(&name, [72u8, 75u8, 69u8, 89u8, 83u8]) {
            if items.len() != 2 {
                return Err(wrong_args_err([72u8, 75u8, 69u8, 89u8, 83u8]));
            }
            let x0 = match frame_arg_bytes(&items[1]) {
                Some(b) => b,
                None => {
                    return Err(expected_bytes_err());
                },
            };
            return Ok(Command::HKeys(x0));
        }
        if name_is(&name, [72u8, 86u8, 65u8, 76u8, 83u8]) {
            if items.len() != 2 {
                return Err(wrong_args_err([72u8, 86u8, 65u8, 76u8, 83u8]));
            }
            let x0 = match frame_arg_bytes(&items[1]) {
                Some(b) => b,
                None => {
                    return Err(expected_bytes_err());
                },
            };
            return Ok(Command::HVals(x0));
        }
        if name_is(&name, [83u8, 65u8, 68u8, 68u8]) {
            if items.len() < 3 {
                return Err(wrong_args_err([83u8, 65u8, 68u8, 68u8]));
            }
            let x0 = match frame_arg_bytes(&items[1]) {
                Some(b) => b,
                None => {
                    return Err(expected_bytes_err());
                },
            };
            let vs1 = match collect_bytes(&items, 2) {
                Some(v) => v,
                None => {
                    return Err(expected_bytes_err());
                },
            };
            return Ok(Command::SAdd(x0, vs1));
        }
        if name_is(&name, [83u8, 82u8, 69u8, 77u8]) {
            if items.len() < 3 {
                return Err(wrong_args_err([83u8, 82u8, 69u8, 77u8]));
            }
            let x0 = match frame_arg_bytes(&items[1]) {
                Some(b) => b,
                None => {
                    return Err(expected_bytes_err());
                },
            };
            let vs1 = match collect_bytes(&items, 2) {
                Some(v) => v,
                None => {
                    return Err(expected_bytes_err());
                },
            };
            return Ok(Command::SRem(x0, vs1));
        }
        if name_is(&name, [83u8, 77u8, 69u8, 77u8, 66u8, 69u8, 82u8, 83u8]) {
            if items.len() != 2 {
                return Err(wrong_args_err([83u8, 77u8, 69u8, 77u8, 66u8, 69u8, 82u8, 83u8]));
            }
            let x0 = match frame_arg_bytes(&items[1]) {
                Some(b) => b,
                None => {
                    return Err(expected_bytes_err());
                },
            };
            return Ok(Command::SMembers(x0));
        }
        if name_is(&name, [83u8, 73u8, 83u8, 77u8, 69u8, 77u8, 66u8, 69u8, 82u8]) {
            if items.len() != 3 {
                return Err(wrong_args_err([83u8, 73u8, 83u8, 77u8, 69u8, 77u8, 66u8, 69u8, 82u8]));
            }
            let x0 = match frame_arg_bytes(&items[1]) {
                Some(b) => b,
                None => {
                    return Err(expected_bytes_err());
                },
            };
            let x1 = match frame_arg_bytes(&items[2]) {
                Some(b) => b,
                None => {
                    return Err(expected_bytes_err());
                },
            };
            return Ok(Command::SIsMember(x0, x1));
        }
        if name_is(&name, [83u8, 67u8, 65u8, 82u8, 68u8]) {
            if items.len() != 2 {
                return Err(wrong_args_err([83u8, 67u8, 65u8, 82u8, 68u8]));
            }
            let x0 = match frame_arg_bytes(&items[1]) {
                Some(b) => b,
                None => {
                    return Err(expected_bytes_err());
                },
            };
            return Ok(Command::SCard(x0));
        }
        if name_is(&name, [83u8, 85u8, 78u8, 73u8, 79u8, 78u8]) {
            if items.len() < 2 {
                return Err(wrong_args_err([83u8, 85u8, 78u8, 73u8, 79u8, 78u8]));
            }
            let vs0 = match collect_bytes(&items, 1) {
                Some(v) => v,
                None => {
                    return Err(expected_bytes_err());
                },
            };
            return Ok(Command::SUnion(vs0));
        }
        if name_is(&name, [83u8, 73u8, 78u8, 84u8, 69u8, 82u8]) {
            if items.len() < 2 {
                return Err(wrong_args_err([83u8, 73u8, 78u8, 84u8, 69u8, 82u8]));
            }
            let vs0 = match collect_bytes(&items, 1) {
                Some(v) => v,
                None => {
                    return Err(expected_bytes_err());
                },
            };
            return Ok(Command::SInter(vs0));
        }
        if name_is(&name, [83u8, 68u8, 73u8, 70u8, 70u8]) {
            if items.len() < 2 {
                return Err(wrong_args_err([83u8, 68u8, 73u8, 70u8, 70u8]));
            }
            let vs0 = match collect_bytes(&items, 1) {
                Some(v) => v,
                None => {
                    return Err(expected_bytes_err());
                },
            };
            return Ok(Command::SDiff(vs0));
        }
        if name_is(&name, [90u8, 65u8, 68u8, 68u8]) {
            if items.len() != 4 {
                return Err(wrong_args_err([90u8, 65u8, 68u8, 68u8]));
            }
            let x0 = match frame_arg_bytes(&items[1]) {
                Some(b) => b,
                None => {
                    return Err(expected_bytes_err());
                },
            };
            let x1 = match frame_arg_bytes(&items[2]) {
                Some(b) => b,
                None => {
                    return Err(expected_bytes_err());
                },
            };
            let n1 = match parse_score(x1.as_slice()) {
                Some(v) => v,
                None => {
                    return Err(score_float_err());
                },
            };
            let x2 = match frame_arg_bytes(&items[3]) {
                Some(b) => b,
                None => {
                    return Err(expected_bytes_err());
                },
            };
            return Ok(Command::ZAdd(x0, n1, x2));
        }
        if name_is(&name, [90u8, 82u8, 69u8, 77u8]) {
            if items.len() != 3 {
                return Err(wrong_args_err([90u8, 82u8, 69u8, 77u8]));
            }
            let x0 = match frame_arg_bytes(&items[1]) {
                Some(b) => b,
                None => {
                    return Err(expected_bytes_err());
                },
            };
            let x1 = match frame_arg_bytes(&items[2]) {
                Some(b) => b,
                None => {
                    return Err(expected_bytes_err());
                },
            };
            return Ok(Command::ZRem(x0, x1));
        }
        if name_is(&name, [90u8, 82u8, 65u8, 78u8, 71u8, 69u8]) {
            if items.len() != 4 {
                return Err(wrong_args_err([90u8, 82u8, 65u8, 78u8, 71u8, 69u8]));
            }
            let x0 = match frame_arg_bytes(&items[1]) {
                Some(b) => b,
                None => {
                    return Err(expected_bytes_err());
                },
            };
            let x1 = match frame_arg_bytes(&items[2]) {
                Some(b) => b,
                None => {
                    return Err(expected_bytes_err());
                },
            };
            let n1 = match parse_int_line(x1.as_slice()) {
                Some(v) => v,
                None => {
                    return Err(start_int_err());
                },
            };
            let x2 = match frame_arg_bytes(&items[3]) {
                Some(b) => b,
                None => {
                    return Err(expected_bytes_err());
                },
            };
            let n2 = match parse_int_line(x2.as_slice()) {
                Some(v) => v,
                None => {
                    return Err(stop_int_err());
                },
            };
            return Ok(Command::ZRange(x0, n1, n2));
        }
        if name_is(&name, [90u8, 82u8, 69u8, 86u8, 82u8, 65u8, 78u8, 71u8, 69u8]) {
            if items.len() != 4 {
                return Err(wrong_args_err([90u8, 82u8, 69u8, 86u8, 82u8, 65u8, 78u8, 71u8, 69u8]));
            }
            let x0 = match frame_arg_bytes(&items[1]) {
                Some(b) => b,
                None => {
                    return Err(expected_bytes_err());
                },
            };
            let x1 = match frame_arg_bytes(&items[2]) {
                Some(b) => b,
                None => {
                    return Err(expected_bytes_err());
                },
            };
            let n1 = match parse_int_line(x1.as_slice()) {
                Some(v) => v,
                None => {
                    return Err(start_int_err());
                },
            };
            let x2 = match frame_arg_bytes(&items[3]) {
                Some(b) => b,
                None => {
                    return Err(expected_bytes_err());
                },
            };
            let n2 = match parse_int_line(x2.as_slice()) {
                Some(v) => v,
                None => {
                    return Err(start_int_err());
                },
            };
            return Ok(Command::ZRevRange(x0, n1, n2));
        }
        if name_is(&name, [90u8, 67u8, 65u8, 82u8, 68u8]) {
            if items.len() != 2 {
                return Err(wrong_args_err([90u8, 67u8, 65u8, 82u8, 68u8]));
            }
            let x0 = match frame_arg_bytes(&items[1]) {
                Some(b) => b,
                None => {
                    return Err(expected_bytes_err());
                },
            };
            return Ok(Command::ZCard(x0));
        }
        if name_is(&name, [90u8, 83u8, 67u8, 79u8, 82u8, 69u8]) {
            if items.len() != 3 {
                return Err(wrong_args_err([90u8, 83u8, 67u8, 79u8, 82u8, 69u8]));
            }
            let x0 = match frame_arg_bytes(&items[1]) {
                Some(b) => b,
                None => {
                    return Err(expected_bytes_err());
                },
            };
            let x1 = match frame_arg_bytes(&items[2]) {
                Some(b) => b,
                None => {
                    return Err(expected_bytes_err());
                },
            };
            return Ok(Command::ZScore(x0, x1));
        }
        if name_is(&name, [90u8, 82u8, 65u8, 78u8, 71u8, 69u8, 66u8, 89u8, 83u8, 67u8, 79u8, 82u8, 69u8]) {
            if items.len() != 4 {
                return Err(wrong_args_err([90u8, 82u8, 65u8, 78u8, 71u8, 69u8, 66u8, 89u8, 83u8, 67u8, 79u8, 82u8, 69u8]));
            }
            let x0 = match frame_arg_bytes(&items[1]) {
                Some(b) => b,
                None => {
                    return Err(expected_bytes_err());
                },
            };
            let x1 = match frame_arg_bytes(&items[2]) {
                Some(b) => b,
                None => {
                    return Err(expected_bytes_err());
                },
            };
            let n1 = match parse_score(x1.as_slice()) {
                Some(v) => v,
                None => {
                    return Err(min_float_err());
                },
            };
            let x2 = match frame_arg_bytes(&items[3]) {
                Some(b) => b,
                None => {
                    return Err(expected_bytes_err());
                },
            };
            let n2 = match parse_score(x2.as_slice()) {
                Some(v) => v,
                None => {
                    return Err(max_float_err());
                },
            };
            return Ok(Command::ZRangeByScore(x0, n1, n2));
        }
        if name_is(&name, [90u8, 82u8, 69u8, 77u8, 82u8, 65u8, 78u8, 71u8, 69u8, 66u8, 89u8, 83u8, 67u8, 79u8, 82u8, 69u8]) {
            if items.len() != 4 {
                return Err(wrong_args_err([90u8, 82u8, 69u8, 77u8, 82u8, 65u8, 78u8, 71u8, 69u8, 66u8, 89u8, 83u8, 67u8, 79u8, 82u8, 69u8]));
            }
            let x0 = match frame_arg_bytes(&items[1]) {
                Some(b) => b,
                None => {
                    return Err(expected_bytes_err());
                },
            };
            let x1 = match frame_arg_bytes(&items[2]) {
                Some(b) => b,
                None => {
                    return Err(expected_bytes_err());
                },
            };
            let n1 = match parse_score(x1.as_slice()) {
                Some(v) => v,
                None => {
                    return Err(min_float_err());
                },
            };
            let x2 = match frame_arg_bytes(&items[3]) {
                Some(b) => b,
                None => {
                    return Err(expected_bytes_err());
                },
            };
            let n2 = match parse_score(x2.as_slice()) {
                Some(v) => v,
                None => {
                    return Err(max_float_err());
                },
            };
            return Ok(Command::ZRemRangeByScore(x0, n1, n2));
        }
        if name_is(&name, [90u8, 82u8, 65u8, 78u8, 75u8]) {
            if items.len() != 3 {
                return Err(wrong_args_err([90u8, 82u8, 65u8, 78u8, 75u8]));
            }
            let x0 = match frame_arg_bytes(&items[1]) {
                Some(b) => b,
                None => {
                    return Err(expected_bytes_err());
                },
            };
            let x1 = match frame_arg_bytes(&items[2]) {
                Some(b) => b,
                None => {
                    return Err(expected_bytes_err());
                },
            };
            return Ok(Command::ZRank(x0, x1));
        }
        if name_is(&name, [90u8, 82u8, 69u8, 86u8, 82u8, 65u8, 78u8, 75u8]) {
            if items.len() != 3 {
                return Err(wrong_args_err([90u8, 82u8, 69u8, 86u8, 82u8, 65u8, 78u8, 75u8]));
            }
            let x0 = match frame_arg_bytes(&items[1]) {
                Some(b) => b,
                None => {
                    return Err(expected_bytes_err());
                },
            };
            let x1 = match frame_arg_bytes(&items[2]) {
                Some(b) => b,
                None => {
                    return Err(expected_bytes_err());
                },
            };
            return Ok(Command::ZRevRank(x0, x1));
        }
        if name_is(&name, [90u8, 67u8, 79u8, 85u8, 78u8, 84u8]) {
            if items.len() != 4 {
                return Err(wrong_args_err([90u8, 67u8, 79u8, 85u8, 78u8, 84u8]));
            }
            let x0 = match frame_arg_bytes(&items[1]) {
                Some(b) => b,
                None => {
                    return Err(expected_bytes_err());
                },
            };
            let x1 = match frame_arg_bytes(&items[2]) {
                Some(b) => b,
                None => {
                    return Err(expected_bytes_err());
                },
            };
            let n1 = match parse_score(x1.as_slice()) {
                Some(v) => v,
                None => {
                    return Err(start_float_err());
                },
            };
            let x2 = match frame_arg_bytes(&items[3]) {
                Some(b) => b,
                None => {
                    return Err(expected_bytes_err());
                },
            };
            let n2 = match parse_score(x2.as_slice()) {
                Some(v) => v,
                None => {
                    return Err(start_float_err());
                },
            };
            return Ok(Command::ZCount(x0, n1, n2));
        }
        Err(RedisError::UnknownCommand)
    }
}

} // verus!
