use vstd::prelude::*;

use crate::codec_laws::{lemma_encode_len, lemma_parse_encode, wf_frames};
use crate::encoder::{spec_encode, spec_encode_n};
use crate::errors::{RedisError, RedisErrorModel};
use crate::numbers::spec_u64_dec;
use crate::frame::{Frame, FrameModel};
use crate::parser::{parse_frame, spec_parse, ParseError, SpecParse};

verus! {

broadcast use vstd::seq::group_seq_axioms;

// ---------------------------------------------------------------------------
// The append-only journal: a bare concatenation of encoded request frames.
// Reading the file and syncing it belong to the caller; this module judges
// the bytes.
// ---------------------------------------------------------------------------

/// When the journal is pushed to disk.
#[derive(Debug, Clone, Copy, PartialEq, Eq)]
pub enum AofFsync {
    Always,
    EverySec,
    No,
}

/// ASCII lower-casing, byte by byte.
pub open spec fn lower(s: Seq<u8>) -> Seq<u8> {
    s.map_values(|c: u8| if 65 <= c <= 90 { (c + 32) as u8 } else { c })
}

/// The bytes of "ERR --aof-fsync must be one of: always | everysec | no".
pub open spec fn fsync_usage_msg() -> Seq<u8> {
    seq![
        69u8, 82u8, 82u8, 32u8, 45u8, 45u8, 97u8, 111u8, 102u8, 45u8, 102u8, 115u8, 121u8,
        110u8, 99u8, 32u8, 109u8, 117u8, 115u8, 116u8, 32u8, 98u8, 101u8, 32u8, 111u8, 110u8,
        101u8, 32u8, 111u8, 102u8, 58u8, 32u8, 97u8, 108u8, 119u8, 97u8, 121u8, 115u8, 32u8,
        124u8, 32u8, 101u8, 118u8, 101u8, 114u8, 121u8, 115u8, 101u8, 99u8, 32u8, 124u8, 32u8,
        110u8, 111u8,
    ]
}

impl AofFsync {
    /// Reads a policy name, any ASCII case.
    pub fn parse(s: &Vec<u8>) -> (r: Result<AofFsync, RedisError>)
        ensures
            match r {
                Ok(p) => (p == AofFsync::Always <==> lower(s@) == seq![
                    97u8, 108u8, 119u8, 97u8, 121u8, 115u8,
                ]) && (p == AofFsync::EverySec <==> lower(s@) == seq![
                    101u8, 118u8, 101u8, 114u8, 121u8, 115u8, 101u8, 99u8,
                ]) && (p == AofFsync::No <==> lower(s@) == seq![110u8, 111u8]),
                Err(e) => lower(s@) != seq![97u8, 108u8, 119u8, 97u8, 121u8, 115u8] && lower(
                    s@,
                ) != seq![101u8, 118u8, 101u8, 114u8, 121u8, 115u8, 101u8, 99u8] && lower(s@)
                    != seq![110u8, 111u8] && e@ == crate::errors::RedisErrorModel::Other(
                    fsync_usage_msg(),
                ),
            },
    {
        let mut low: Vec<u8> = Vec::new();
        let n = s.len();
        let mut i: usize = 0;
        while i < n
            invariant
                i <= n,
                n == s@.len(),
                low@.len() == i,
                forall|j: int| 0 <= j < i ==> low@[j] == lower(s@)[j],
            decreases n - i,
        {
            let c = s[i];
            if 65 <= c && c <= 90 {
                low.push(c + 32);
            } else {
                low.push(c);
            }
            i = i + 1;
        }
        proof {
            assert(low@ =~= lower(s@));
        }
        if cmp_lit(&low, [97u8, 108u8, 119u8, 97u8, 121u8, 115u8]) {
            proof {
                assert(lower(s@) =~= seq![97u8, 108u8, 119u8, 97u8, 121u8, 115u8]);
            }
            Ok(AofFsync::Always)
        } else if cmp_lit(&low, [101u8, 118u8, 101u8, 114u8, 121u8, 115u8, 101u8, 99u8]) {
            proof {
                assert(lower(s@) =~= seq![101u8, 118u8, 101u8, 114u8, 121u8, 115u8, 101u8, 99u8]);
            }
            Ok(AofFsync::EverySec)
        } else if cmp_lit(&low, [110u8, 111u8]) {
            proof {
                assert(lower(s@) =~= seq![110u8, 111u8]);
            }
            Ok(AofFsync::No)
        } else {
            let msg: Vec<u8> = vec![
                69u8, 82u8, 82u8, 32u8, 45u8, 45u8, 97u8, 111u8, 102u8, 45u8, 102u8, 115u8,
                121u8, 110u8, 99u8, 32u8, 109u8, 117u8, 115u8, 116u8, 32u8, 98u8, 101u8, 32u8,
                111u8, 110u8, 101u8, 32u8, 111u8, 102u8, 58u8, 32u8, 97u8, 108u8, 119u8, 97u8,
                121u8, 115u8, 32u8, 124u8, 32u8, 101u8, 118u8, 101u8, 114u8, 121u8, 115u8,
                101u8, 99u8, 32u8, 124u8, 32u8, 110u8, 111u8,
            ];
            proof {
                assert(msg@ =~= fsync_usage_msg());
            }
            Err(RedisError::Other(msg))
        }
    }
}

fn cmp_lit<const N: usize>(b: &Vec<u8>, lit: [u8; N]) -> (r: bool)
    ensures
        r == (b@ == lit@),
{
    if b.len() != N {
        proof {
            assert(lit@.len() == N);
        }
        return false;
    }
    let mut i: usize = 0;
    while i < N
        invariant
            i <= N,
            b@.len() == N,
            lit@.len() == N,
            forall|j: int| 0 <= j < i ==> b@[j] == lit@[j],
        decreases N - i,
    {
        if b[i] != lit[i] {
            return false;
        }
        i = i + 1;
    }
    proof {
        assert(b@ =~= lit@);
    }
    true
}

/// The bytes of "AOF parse error at offset ".
pub open spec fn aof_err_prefix() -> Seq<u8> {
    seq![
        65u8, 79u8, 70u8, 32u8, 112u8, 97u8, 114u8, 115u8, 101u8, 32u8, 101u8, 114u8, 114u8,
        111u8, 114u8, 32u8, 97u8, 116u8, 32u8, 111u8, 102u8, 102u8, 115u8, 101u8, 116u8, 32u8,
    ]
}

/// The refusal for a journal that stops making sense at byte `off`.
pub open spec fn aof_err_msg(off: int) -> Seq<u8> {
    aof_err_prefix() + spec_u64_dec(off)
}

/// What the journal bytes from offset `off` decode to: each complete frame
/// in order until the bytes end exactly; a malformed or truncated record is
/// an error naming where it starts. Only a journal that ends on a frame
/// boundary decodes.
pub open spec fn spec_frames_from_at(b: Seq<u8>, off: int) -> Result<Seq<FrameModel>, int>
    decreases b.len(),
{
    if b.len() == 0 {
        Ok(Seq::empty())
    } else {
        match spec_parse(b) {
            SpecParse::Parsed(f, used) => {
                let u = if 1 <= used <= b.len() {
                    used
                } else {
                    b.len() as int
                };
                match spec_frames_from_at(b.skip(u), off + u) {
                    Ok(rest) => Ok(seq![f] + rest),
                    Err(e) => Err(e),
                }
            }
            SpecParse::Incomplete => Err(off),
            SpecParse::Invalid => Err(off),
        }
    }
}

pub open spec fn spec_frames_from(b: Seq<u8>) -> Result<Seq<FrameModel>, int> {
    spec_frames_from_at(b, 0)
}

/// A journal holding exactly the encodings of well-formed frames decodes
/// back to exactly those frames: writing mutations and replaying them loses
/// nothing at the byte level.
pub proof fn lemma_journal_roundtrip(frames: Seq<FrameModel>)
    requires
        wf_frames(frames),
    ensures
        spec_frames_from(spec_encode_n(frames)) == Ok::<Seq<FrameModel>, int>(frames),
{
    lemma_journal_roundtrip_at(frames, 0);
}

proof fn lemma_journal_roundtrip_at(frames: Seq<FrameModel>, off: int)
    requires
        wf_frames(frames),
    ensures
        spec_frames_from_at(spec_encode_n(frames), off) == Ok::<Seq<FrameModel>, int>(frames),
    decreases frames.len(),
{
    if frames.len() == 0 {
        assert(spec_encode_n(frames).len() == 0);
        assert(frames =~= Seq::<FrameModel>::empty());
    } else {
        let f0 = frames[0];
        let rest = frames.subrange(1, frames.len() as int);
        let b = spec_encode_n(frames);
        assert(b == spec_encode(f0) + spec_encode_n(rest));
        lemma_parse_encode(f0, spec_encode_n(rest));
        lemma_encode_len(f0);
        assert(b.len() > 0);
        assert(spec_parse(b) == SpecParse::Parsed(f0, spec_encode(f0).len() as int));
        let u = spec_encode(f0).len() as int;
        assert(1 <= u <= b.len());
        assert(b.skip(u) =~= spec_encode_n(rest));
        lemma_journal_roundtrip_at(rest, off + u);
        assert(seq![f0] + rest =~= frames);
    }
}

/// Decodes the whole journal into frames; a malformed or truncated tail is
/// refused with the byte offset where it begins.
pub fn parse_frames_from_bytes(bytes: &[u8]) -> (r: Result<Vec<Frame>, RedisError>)
    ensures
        match r {
            Ok(frames) => spec_frames_from(bytes@) == Ok::<Seq<FrameModel>, int>(
                crate::frame::frames_view(frames),
            ),
            Err(e) => spec_frames_from(bytes@) is Err && e@ == RedisErrorModel::Other(
                aof_err_msg(spec_frames_from(bytes@)->Err_0),
            ),
        },
{
    let mut frames: Vec<Frame> = Vec::new();
    let mut offset: usize = 0;
    let n = bytes.len();
    proof {
        assert(bytes@.skip(0) =~= bytes@);
        assert(crate::frame::frames_view(frames) =~= Seq::<FrameModel>::empty());
        match spec_frames_from(bytes@) {
            Ok(fs) => {
                assert(Seq::<FrameModel>::empty() + fs =~= fs);
            }
            Err(_) => {}
        }
    }
    loop
        invariant
            offset <= n,
            n == bytes@.len(),
            ({
                let whole = spec_frames_from(bytes@);
                let rest = spec_frames_from_at(bytes@.skip(offset as int), offset as int);
                match rest {
                    Ok(fs) => whole == Ok::<Seq<FrameModel>, int>(
                        crate::frame::frames_view(frames) + fs,
                    ),
                    Err(e) => whole == Err::<Seq<FrameModel>, int>(e),
                }
            }),
        decreases n - offset,
    {
        if offset >= n {
            proof {
                assert(bytes@.skip(offset as int).len() == 0);
                assert(spec_frames_from_at(bytes@.skip(offset as int), offset as int)
                    == Ok::<Seq<FrameModel>, int>(Seq::empty()));
                assert(crate::frame::frames_view(frames) + Seq::<FrameModel>::empty()
                    =~= crate::frame::frames_view(frames));
            }
            return Ok(frames);
        }
        let rest = vstd::slice::slice_subrange(bytes, offset, n);
        proof {
            assert(rest@ =~= bytes@.skip(offset as int));
        }
        match parse_frame(rest) {
            Ok((f, used)) => {
                proof {
                    assert(bytes@.skip(offset as int).skip(used as int) =~= bytes@.skip(
                        offset + used,
                    ));
                }
                let ghost before = crate::frame::frames_view(frames);
                frames.push(f);
                proof {
                    assert(crate::frame::frames_view(frames) =~= before.push(f@));
                    match spec_frames_from_at(bytes@.skip(offset + used), offset + used) {
                        Ok(fs) => {
                            assert(before + (seq![f@] + fs) =~= before.push(f@) + fs);
                        }
                        Err(_) => {}
                    }
                }
                offset = offset + used;
            }
            Err(_) => {
                // a malformed or half-written record: the journal cannot be
                // trusted from here on
                let mut msg: Vec<u8> = vec![
                    65u8, 79u8, 70u8, 32u8, 112u8, 97u8, 114u8, 115u8, 101u8, 32u8, 101u8,
                    114u8, 114u8, 111u8, 114u8, 32u8, 97u8, 116u8, 32u8, 111u8, 102u8, 102u8,
                    115u8, 101u8, 116u8, 32u8,
                ];
                proof {
                    assert(msg@ =~= aof_err_prefix());
                }
                crate::numbers::push_u64_dec(&mut msg, offset as u64);
                proof {
                    assert(msg@ =~= aof_err_msg(offset as int));
                }
                return Err(RedisError::Other(msg));
            }
        }
    }
}

} // verus!
