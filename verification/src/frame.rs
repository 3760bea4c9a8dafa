use vstd::prelude::*;

verus! {

broadcast use vstd::seq::group_seq_axioms, vstd::std_specs::vec::group_vec_axioms;

/// A single RESP value, possibly nested through the array form.
#[derive(Debug)]
pub enum Frame {
    Simple(Vec<u8>),
    Error(Vec<u8>),
    Integer(i64),
    Bulk(Vec<u8>),
    Array(Vec<Frame>),
    Null,
}

/// Mathematical model of a frame: byte payloads become sequences and the
/// integer becomes unbounded.
pub enum FrameModel {
    Simple(Seq<u8>),
    Error(Seq<u8>),
    Integer(int),
    Bulk(Seq<u8>),
    Array(Seq<FrameModel>),
    Null,
}

pub open spec fn frame_view(f: Frame) -> FrameModel
    decreases f,
{
    match f {
        Frame::Simple(s) => FrameModel::Simple(s@),
        Frame::Error(s) => FrameModel::Error(s@),
        Frame::Integer(i) => FrameModel::Integer(i as int),
        Frame::Bulk(d) => FrameModel::Bulk(d@),
        Frame::Array(items) => FrameModel::Array(frames_view_from(items, 0)),
        Frame::Null => FrameModel::Null,
    }
}

pub open spec fn frames_view_from(v: Vec<Frame>, i: int) -> Seq<FrameModel>
    decreases v, v@.len() - i,
{
    if i < 0 || i >= v@.len() {
        Seq::empty()
    } else {
        seq![frame_view(v[i as int])] + frames_view_from(v, i + 1)
    }
}

impl View for Frame {
    type V = FrameModel;

    open spec fn view(&self) -> FrameModel {
        frame_view(*self)
    }
}

/// The element views of a vector of frames, in order.
pub open spec fn frames_view(v: Vec<Frame>) -> Seq<FrameModel> {
    Seq::new(v@.len(), |i: int| frame_view(v@[i]))
}

pub proof fn lemma_frames_view_from(v: Vec<Frame>, i: int)
    requires
        0 <= i <= v@.len(),
    ensures
        frames_view_from(v, i) =~= frames_view(v).skip(i),
    decreases v@.len() - i,
{
    if i < v@.len() {
        lemma_frames_view_from(v, i + 1);
    }
}

/// An array frame's model is the pointwise model of its elements.
pub proof fn lemma_array_view(items: Vec<Frame>)
    ensures
        frame_view(Frame::Array(items)) == FrameModel::Array(frames_view(items)),
{
    lemma_frames_view_from(items, 0);
    assert(frames_view(items).skip(0) =~= frames_view(items));
}

} // verus!
