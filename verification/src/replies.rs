use vstd::prelude::*;

use crate::frame::{Frame, FrameModel};

verus! {

broadcast use vstd::seq::group_seq_axioms;

// ---------------------------------------------------------------------------
// Reply frames and their fixed texts.
// ---------------------------------------------------------------------------
/// The bytes of "OK".
pub open spec fn ok_msg() -> Seq<u8> {
    seq![79u8, 75u8]
}
/// The bytes of "PONG".
pub open spec fn pong_msg() -> Seq<u8> {
    seq![80u8, 79u8, 78u8, 71u8]
}
/// The bytes of "WRONGTYPE Operation against a key holding the wrong kind of value".
pub open spec fn wrongtype_msg() -> Seq<u8> {
    seq![87u8, 82u8, 79u8, 78u8, 71u8, 84u8, 89u8, 80u8, 69u8, 32u8, 79u8, 112u8, 101u8, 114u8, 97u8, 116u8, 105u8, 111u8, 110u8, 32u8, 97u8, 103u8, 97u8, 105u8, 110u8, 115u8, 116u8, 32u8, 97u8, 32u8, 107u8, 101u8, 121u8, 32u8, 104u8, 111u8, 108u8, 100u8, 105u8, 110u8, 103u8, 32u8, 116u8, 104u8, 101u8, 32u8, 119u8, 114u8, 111u8, 110u8, 103u8, 32u8, 107u8, 105u8, 110u8, 100u8, 32u8, 111u8, 102u8, 32u8, 118u8, 97u8, 108u8, 117u8, 101u8]
}
/// The bytes of "ERR value is not an integer".
pub open spec fn not_int_msg() -> Seq<u8> {
    seq![69u8, 82u8, 82u8, 32u8, 118u8, 97u8, 108u8, 117u8, 101u8, 32u8, 105u8, 115u8, 32u8, 110u8, 111u8, 116u8, 32u8, 97u8, 110u8, 32u8, 105u8, 110u8, 116u8, 101u8, 103u8, 101u8, 114u8]
}
/// The bytes of "ERR no such key".
pub open spec fn no_such_key_msg() -> Seq<u8> {
    seq![69u8, 82u8, 82u8, 32u8, 110u8, 111u8, 32u8, 115u8, 117u8, 99u8, 104u8, 32u8, 107u8, 101u8, 121u8]
}
/// The bytes of "ERR index out of range".
pub open spec fn index_range_msg() -> Seq<u8> {
    seq![69u8, 82u8, 82u8, 32u8, 105u8, 110u8, 100u8, 101u8, 120u8, 32u8, 111u8, 117u8, 116u8, 32u8, 111u8, 102u8, 32u8, 114u8, 97u8, 110u8, 103u8, 101u8]
}
/// The fixed WRONGTYPE error reply.
pub fn wrongtype_frame() -> (f: Frame)
    ensures
        f@ == FrameModel::Error(wrongtype_msg()),
{
    let v: Vec<u8> = vec![87u8, 82u8, 79u8, 78u8, 71u8, 84u8, 89u8, 80u8, 69u8, 32u8, 79u8, 112u8, 101u8, 114u8, 97u8, 116u8, 105u8, 111u8, 110u8, 32u8, 97u8, 103u8, 97u8, 105u8, 110u8, 115u8, 116u8, 32u8, 97u8, 32u8, 107u8, 101u8, 121u8, 32u8, 104u8, 111u8, 108u8, 100u8, 105u8, 110u8, 103u8, 32u8, 116u8, 104u8, 101u8, 32u8, 119u8, 114u8, 111u8, 110u8, 103u8, 32u8, 107u8, 105u8, 110u8, 100u8, 32u8, 111u8, 102u8, 32u8, 118u8, 97u8, 108u8, 117u8, 101u8];
    proof {
        assert(v@ =~= wrongtype_msg());
    }
    Frame::Error(v)
}

/// The `+OK` reply.
pub fn ok_frame() -> (f: Frame)
    ensures
        f@ == FrameModel::Simple(ok_msg()),
{
    let v: Vec<u8> = vec![79u8, 75u8];
    proof {
        assert(v@ =~= ok_msg());
    }
    Frame::Simple(v)
}

/// The `+PONG` reply.
pub fn pong_frame() -> (f: Frame)
    ensures
        f@ == FrameModel::Simple(pong_msg()),
{
    let v: Vec<u8> = vec![80u8, 79u8, 78u8, 71u8];
    proof {
        assert(v@ =~= pong_msg());
    }
    Frame::Simple(v)
}

/// The reply for a value that does not read as an integer.
pub fn not_int_frame() -> (f: Frame)
    ensures
        f@ == FrameModel::Error(not_int_msg()),
{
    let v: Vec<u8> = vec![69u8, 82u8, 82u8, 32u8, 118u8, 97u8, 108u8, 117u8, 101u8, 32u8, 105u8, 115u8, 32u8, 110u8, 111u8, 116u8, 32u8, 97u8, 110u8, 32u8, 105u8, 110u8, 116u8, 101u8, 103u8, 101u8, 114u8];
    proof {
        assert(v@ =~= not_int_msg());
    }
    Frame::Error(v)
}

/// The reply for a list command on a missing key that needs one.
pub fn no_such_key_frame() -> (f: Frame)
    ensures
        f@ == FrameModel::Error(no_such_key_msg()),
{
    let v: Vec<u8> = vec![69u8, 82u8, 82u8, 32u8, 110u8, 111u8, 32u8, 115u8, 117u8, 99u8, 104u8, 32u8, 107u8, 101u8, 121u8];
    proof {
        assert(v@ =~= no_such_key_msg());
    }
    Frame::Error(v)
}

/// The reply for an out-of-range list index.
pub fn index_range_frame() -> (f: Frame)
    ensures
        f@ == FrameModel::Error(index_range_msg()),
{
    let v: Vec<u8> = vec![69u8, 82u8, 82u8, 32u8, 105u8, 110u8, 100u8, 101u8, 120u8, 32u8, 111u8, 117u8, 116u8, 32u8, 111u8, 102u8, 32u8, 114u8, 97u8, 110u8, 103u8, 101u8];
    proof {
        assert(v@ =~= index_range_msg());
    }
    Frame::Error(v)
}

/// Bulk frames of the given byte strings, in order.
pub open spec fn bulks_of(s: Seq<Seq<u8>>) -> Seq<FrameModel> {
    s.map_values(|b: Seq<u8>| FrameModel::Bulk(b))
}

/// Wraps byte strings as an array of bulk frames.
pub fn bulk_array(items: Vec<Vec<u8>>) -> (f: Frame)
    ensures
        f@ == FrameModel::Array(bulks_of(items@.map_values(|b: Vec<u8>| b@))),
{
    let mut frames: Vec<Frame> = Vec::new();
    let n = items.len();
    let mut it = items;
    let ghost all = it@;
    let mut i: usize = 0;
    // move the byte strings out back to front to avoid copying
    while i < n
        invariant
            i <= n,
            n == all.len(),
            it@ =~= all.skip(i as int),
            frames@.len() == i,
            forall|j: int| 0 <= j < i ==> frames@[j]@ == FrameModel::Bulk(all[j]@),
        decreases n - i,
    {
        let b = it.remove(0);
        proof {
            assert(all.skip(i as int)[0] == b);
            assert(it@ =~= all.skip(i + 1));
        }
        frames.push(Frame::Bulk(b));
        i = i + 1;
    }
    let f = Frame::Array(frames);
    proof {
        crate::frame::lemma_array_view(frames);
        assert(crate::frame::frames_view(frames) =~= bulks_of(all.map_values(|b: Vec<u8>| b@)));
    }
    f
}

/// Saturates a length into the signed 64-bit range of an integer reply.
pub open spec fn len_i64(n: int) -> int {
    if n <= i64::MAX {
        n
    } else {
        i64::MAX as int
    }
}

pub fn u64_to_i64_sat(n: u64) -> (r: i64)
    ensures
        r as int == len_i64(n as int),
{
    if n <= 9223372036854775807u64 {
        n as i64
    } else {
        9223372036854775807i64
    }
}

pub fn len_to_i64(n: usize) -> (r: i64)
    ensures
        r as int == len_i64(n as int),
{
    if n as u64 <= 9223372036854775807u64 {
        n as i64
    } else {
        9223372036854775807i64
    }
}

} // verus!
