use vstd::prelude::*;

use crate::frame::{frames_view, lemma_array_view, Frame, FrameModel};
use crate::numbers::{push_i64_dec, push_u64_dec, spec_i64_dec, spec_u64_dec};

verus! {

broadcast use vstd::seq::group_seq_axioms, vstd::std_specs::vec::group_vec_axioms;

/// The wire bytes of a frame: tag, decimal header where the grammar has one,
/// CRLF terminators, and payload bytes verbatim.
pub open spec fn spec_encode(f: FrameModel) -> Seq<u8>
    decreases f,
{
    match f {
        FrameModel::Simple(s) => seq![43u8] + s + seq![13u8, 10u8],
        FrameModel::Error(s) => seq![45u8] + s + seq![13u8, 10u8],
        FrameModel::Integer(i) => seq![58u8] + spec_i64_dec(i) + seq![13u8, 10u8],
        FrameModel::Bulk(d) => seq![36u8] + spec_u64_dec(d.len() as int) + seq![13u8, 10u8] + d
            + seq![13u8, 10u8],
        FrameModel::Array(items) => seq![42u8] + spec_u64_dec(items.len() as int)
            + seq![13u8, 10u8] + spec_encode_n(items),
        FrameModel::Null => seq![36u8, 45u8, 49u8, 13u8, 10u8],
    }
}

/// The concatenated encodings of a list of frames.
pub open spec fn spec_encode_n(items: Seq<FrameModel>) -> Seq<u8>
    decreases items,
{
    if items.len() == 0 {
        Seq::empty()
    } else {
        spec_encode(items[0]) + spec_encode_n(items.subrange(1, items.len() as int))
    }
}

/// Splitting the concatenation before the last element.
pub proof fn lemma_encode_n_last(items: Seq<FrameModel>)
    requires
        items.len() > 0,
    ensures
        spec_encode_n(items) == spec_encode_n(items.drop_last()) + spec_encode(items.last()),
    decreases items.len(),
{
    if items.len() == 1 {
        assert(items.subrange(1, 1) =~= Seq::<FrameModel>::empty());
        assert(items.drop_last() =~= Seq::<FrameModel>::empty());
        assert(spec_encode_n(items.drop_last()) + spec_encode(items.last()) =~= spec_encode(
            items[0],
        ) + Seq::<u8>::empty());
        assert(spec_encode(items[0]) + Seq::<u8>::empty() =~= spec_encode(items[0]));
    } else {
        let t = items.subrange(1, items.len() as int);
        lemma_encode_n_last(t);
        assert(t.drop_last() =~= items.drop_last().subrange(
            1,
            items.drop_last().len() as int,
        ));
        assert(t.last() == items.last());
        assert(items.drop_last()[0] == items[0]);
        assert(spec_encode_n(items.drop_last()) == spec_encode(items[0]) + spec_encode_n(
            t.drop_last(),
        ));
        assert((spec_encode(items[0]) + spec_encode_n(t.drop_last())) + spec_encode(items.last())
            =~= spec_encode(items[0]) + (spec_encode_n(t.drop_last()) + spec_encode(
            items.last(),
        )));
    }
}

/// Appends the encoding of `frame` to `out`.
fn encode_into(frame: &Frame, out: &mut Vec<u8>)
    ensures
        final(out)@ == old(out)@ + spec_encode(frame@),
    decreases frame@,
{
    match frame {
        Frame::Simple(s) => {
            out.push(43);
            push_all(out, s);
            out.push(13);
            out.push(10);
            proof {
                assert(final(out)@ =~= old(out)@ + spec_encode(frame@));
            }
        }
        Frame::Error(s) => {
            out.push(45);
            push_all(out, s);
            out.push(13);
            out.push(10);
            proof {
                assert(final(out)@ =~= old(out)@ + spec_encode(frame@));
            }
        }
        Frame::Integer(i) => {
            out.push(58);
            push_i64_dec(out, *i);
            out.push(13);
            out.push(10);
            proof {
                assert(final(out)@ =~= old(out)@ + spec_encode(frame@));
            }
        }
        Frame::Bulk(d) => {
            out.push(36);
            push_u64_dec(out, d.len() as u64);
            out.push(13);
            out.push(10);
            push_all(out, d);
            out.push(13);
            out.push(10);
            proof {
                assert(final(out)@ =~= old(out)@ + spec_encode(frame@));
            }
        }
        Frame::Array(items) => {
            out.push(42);
            push_u64_dec(out, items.len() as u64);
            out.push(13);
            out.push(10);
            let ghost header = out@;
            proof {
                lemma_array_view(*items);
            }
            let n = items.len();
            let mut i: usize = 0;
            while i < n
                invariant
                    i <= n,
                    n == items@.len(),
                    frame@ == FrameModel::Array(frames_view(*items)),
                    out@ == header + spec_encode_n(frames_view(*items).take(i as int)),
                decreases n - i,
            {
                proof {
                    assert(frame@ == FrameModel::Array(frames_view(*items)));
                    assert(decreases_to!(frame@ => frame@->Array_0));
                    assert(frame@->Array_0.len() == items@.len());
                    assert(decreases_to!(frame@->Array_0 => frame@->Array_0[i as int]));
                    assert(items@[i as int]@ == frame@->Array_0[i as int]);
                }
                encode_into(&items[i], out);
                proof {
                    let fv = frames_view(*items);
                    assert(fv.take(i + 1).drop_last() =~= fv.take(i as int));
                    assert(fv.take(i + 1).last() == frame_view_of_item(*items, i as int));
                    lemma_encode_n_last(fv.take(i + 1));
                    assert((header + spec_encode_n(fv.take(i as int))) + spec_encode(fv[i as int])
                        =~= header + (spec_encode_n(fv.take(i as int)) + spec_encode(
                        fv[i as int],
                    )));
                }
                i = i + 1;
            }
            proof {
                let fv = frames_view(*items);
                assert(fv.take(n as int) =~= fv);
                lemma_array_view(*items);
                assert(final(out)@ =~= old(out)@ + spec_encode(frame@));
            }
        }
        Frame::Null => {
            out.push(36);
            out.push(45);
            out.push(49);
            out.push(13);
            out.push(10);
            proof {
                assert(final(out)@ =~= old(out)@ + spec_encode(frame@));
            }
        }
    }
}

/// The view of an element of a frame vector.
pub open spec fn frame_view_of_item(v: Vec<Frame>, i: int) -> FrameModel {
    frames_view(v)[i]
}

/// Appends all bytes of `src` to `out`.
fn push_all(out: &mut Vec<u8>, src: &Vec<u8>)
    ensures
        final(out)@ == old(out)@ + src@,
{
    let n = src.len();
    let mut i: usize = 0;
    while i < n
        invariant
            i <= n,
            n == src@.len(),
            out@ == old(out)@ + src@.take(i as int),
        decreases n - i,
    {
        out.push(src[i]);
        proof {
            assert(src@.take(i + 1) =~= src@.take(i as int) + seq![src@[i as int]]);
            assert(old(out)@ + src@.take(i as int) + seq![src@[i as int]] =~= old(out)@
                + src@.take(i + 1));
        }
        i = i + 1;
    }
    proof {
        assert(src@.take(n as int) =~= src@);
    }
}

/// Encodes a frame into its wire bytes.
pub fn encode_frame(frame: &Frame) -> (out: Vec<u8>)
    ensures
        out@ == spec_encode(frame@),
{
    let mut out: Vec<u8> = Vec::new();
    encode_into(frame, &mut out);
    proof {
        assert(Seq::<u8>::empty() + spec_encode(frame@) =~= spec_encode(frame@));
    }
    out
}

} // verus!
