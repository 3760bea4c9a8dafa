// An in-memory key/value data server speaking the RESP wire format, built
// as a verified library. The byte-level codec, the keyspace engine with its
// per-key expiry, the ordered sorted-set index, the command resolution and
// the journal decoding all carry contracts; the process around them (TCP,
// disk, clocks, waiting) lives in the unverified application shell.

use vstd::prelude::*;

pub mod frame;
pub mod numbers;
pub mod parser;
pub mod encoder;
pub mod codec_laws;
pub mod score;
pub mod zset;
pub mod replies;
pub mod value;
pub mod store;
pub mod store_strings;
pub mod store_lists;
pub mod store_hashes;
pub mod store_sets;
pub mod store_zsets;
pub mod errors;
pub mod command;
pub mod dispatch;
pub mod aof;
pub mod config;
pub mod zset_laws;
