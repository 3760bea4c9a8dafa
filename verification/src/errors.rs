use vstd::prelude::*;

verus! {

/// The library's error type: an unknown command name, a type clash, or a
/// shaped message.
#[derive(Debug)]
pub enum RedisError {
    UnknownCommand,
    WrongType,
    Other(Vec<u8>),
}

pub enum RedisErrorModel {
    UnknownCommand,
    WrongType,
    Other(Seq<u8>),
}

impl View for RedisError {
    type V = RedisErrorModel;

    open spec fn view(&self) -> RedisErrorModel {
        match self {
            RedisError::UnknownCommand => RedisErrorModel::UnknownCommand,
            RedisError::WrongType => RedisErrorModel::WrongType,
            RedisError::Other(b) => RedisErrorModel::Other(b@),
        }
    }
}

/// The display text, as replies carry it.
pub open spec fn spec_error_text(e: RedisErrorModel) -> Seq<u8> {
    match e {
        RedisErrorModel::UnknownCommand => seq![
            117u8, 110u8, 107u8, 110u8, 111u8, 119u8, 110u8, 32u8, 99u8, 111u8, 109u8, 109u8,
            97u8, 110u8, 100u8,
        ],
        RedisErrorModel::WrongType => seq![119u8, 114u8, 111u8, 110u8, 103u8, 32u8, 116u8,
            121u8, 112u8, 101u8],
        RedisErrorModel::Other(b) => b,
    }
}

impl RedisError {
    /// The display text, as replies carry it.
    pub fn text(self) -> (r: Vec<u8>)
        ensures
            r@ == spec_error_text(self@),
    {
        match self {
            RedisError::UnknownCommand => {
                let v: Vec<u8> = vec![117u8, 110u8, 107u8, 110u8, 111u8, 119u8, 110u8, 32u8,
                    99u8, 111u8, 109u8, 109u8, 97u8, 110u8, 100u8];
                proof {
                    assert(v@ =~= spec_error_text(RedisErrorModel::UnknownCommand));
                }
                v
            }
            RedisError::WrongType => {
                let v: Vec<u8> = vec![119u8, 114u8, 111u8, 110u8, 103u8, 32u8, 116u8, 121u8,
                    112u8, 101u8];
                proof {
                    assert(v@ =~= spec_error_text(RedisErrorModel::WrongType));
                }
                v
            }
            RedisError::Other(b) => b,
        }
    }
}

} // verus!
