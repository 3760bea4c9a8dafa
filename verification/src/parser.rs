use vstd::prelude::*;

use crate::frame::{frames_view, lemma_array_view, Frame, FrameModel};
use crate::numbers::{int_line_val, int_line_valid, parse_int_line};

verus! {

broadcast use vstd::seq::group_seq_axioms;

/// Why a buffer failed to yield a frame: more bytes may help, or the bytes
/// already seen break the grammar.
#[derive(Debug, PartialEq, Eq)]
pub enum ParseError {
    Incomplete,
    Invalid,
}

/// Outcome of parsing a byte sequence: a frame model with the number of bytes
/// it occupies, or one of the two failure modes.
pub enum SpecParse {
    Parsed(FrameModel, int),
    Incomplete,
    Invalid,
}

pub enum SpecParseList {
    Parsed(Seq<FrameModel>, int),
    Incomplete,
    Invalid,
}

pub open spec fn crlf_at(b: Seq<u8>, i: int) -> bool {
    0 <= i && i + 2 <= b.len() && b[i] == 13 && b[i + 1] == 10
}

/// Position of the first CRLF pair, if any.
pub open spec fn spec_find_crlf(b: Seq<u8>) -> Option<int>
    decreases b.len(),
{
    if b.len() < 2 {
        None
    } else if b[0] == 13 && b[1] == 10 {
        Some(0)
    } else {
        match spec_find_crlf(b.skip(1)) {
            Some(i) => Some(i + 1),
            None => None,
        }
    }
}

pub proof fn lemma_find_crlf(b: Seq<u8>)
    ensures
        match spec_find_crlf(b) {
            Some(i) => crlf_at(b, i) && forall|j: int| 0 <= j < i ==> !crlf_at(b, j),
            None => forall|j: int| !crlf_at(b, j),
        },
    decreases b.len(),
{
    if b.len() < 2 {
    } else if b[0] == 13 && b[1] == 10 {
    } else {
        lemma_find_crlf(b.skip(1));
        assert forall|j: int| 0 <= j implies crlf_at(b.skip(1), j) == crlf_at(b, j + 1) by {
            if j + 2 <= b.skip(1).len() {
                assert(b.skip(1)[j] == b[j + 1]);
                assert(b.skip(1)[j + 1] == b[j + 2]);
            }
        }
        match spec_find_crlf(b.skip(1)) {
            Some(i) => {
                assert(crlf_at(b.skip(1), i));
                assert(crlf_at(b, i + 1));
                assert forall|j: int| 0 <= j < i + 1 implies !crlf_at(b, j) by {
                    if j == 0 {
                        assert(!(b[0] == 13 && b[1] == 10));
                    } else {
                        assert(!crlf_at(b.skip(1), j - 1));
                    }
                }
            }
            None => {
                assert forall|j: int| !crlf_at(b, j) by {
                    if 1 <= j {
                        assert(!crlf_at(b.skip(1), j - 1));
                    } else if j == 0 {
                        assert(!(b[0] == 13 && b[1] == 10));
                    }
                }
            }
        }
    }
}

/// If a CRLF stands at `i` and none earlier, the search finds exactly `i`.
pub proof fn lemma_find_crlf_is(b: Seq<u8>, i: int)
    requires
        crlf_at(b, i),
        forall|j: int| 0 <= j < i ==> !crlf_at(b, j),
    ensures
        spec_find_crlf(b) == Some(i),
{
    lemma_find_crlf(b);
    match spec_find_crlf(b) {
        Some(i2) => {
            if i2 < i {
                assert(!crlf_at(b, i2));
            } else if i2 > i {
                assert(!crlf_at(b, i));
            }
        }
        None => {
            assert(!crlf_at(b, i));
        }
    }
}

/// Parses the front of `b` as one frame. Mirrors the incremental parser: an
/// exhausted buffer is `Incomplete`, a grammar violation is `Invalid`.
pub open spec fn spec_parse(b: Seq<u8>) -> SpecParse
    decreases b.len(), 1int,
{
    if b.len() == 0 {
        SpecParse::Incomplete
    } else if b[0] == 43 || b[0] == 45 {
        match spec_find_crlf(b) {
            Some(pos) => {
                let line = b.subrange(1, pos);
                if b[0] == 43 {
                    SpecParse::Parsed(FrameModel::Simple(line), pos + 2)
                } else {
                    SpecParse::Parsed(FrameModel::Error(line), pos + 2)
                }
            }
            None => SpecParse::Incomplete,
        }
    } else if b[0] == 58 {
        match spec_find_crlf(b) {
            Some(pos) => {
                let line = b.subrange(1, pos);
                if int_line_valid(line) {
                    SpecParse::Parsed(FrameModel::Integer(int_line_val(line)), pos + 2)
                } else {
                    SpecParse::Invalid
                }
            }
            None => SpecParse::Incomplete,
        }
    } else if b[0] == 36 {
        match spec_find_crlf(b) {
            Some(pos) => {
                let line = b.subrange(1, pos);
                if !int_line_valid(line) {
                    SpecParse::Invalid
                } else if int_line_val(line) == -1 {
                    SpecParse::Parsed(FrameModel::Null, pos + 2)
                } else if int_line_val(line) < -1 {
                    SpecParse::Invalid
                } else {
                    let len = int_line_val(line);
                    let start = pos + 2;
                    let end = start + len;
                    if b.len() < end + 2 {
                        SpecParse::Incomplete
                    } else if b[end] == 13 && b[end + 1] == 10 {
                        SpecParse::Parsed(FrameModel::Bulk(b.subrange(start, end)), end + 2)
                    } else {
                        SpecParse::Invalid
                    }
                }
            }
            None => SpecParse::Incomplete,
        }
    } else if b[0] == 42 {
        match spec_find_crlf(b) {
            Some(pos) => {
                let line = b.subrange(1, pos);
                if !int_line_valid(line) {
                    SpecParse::Invalid
                } else if int_line_val(line) == -1 {
                    SpecParse::Parsed(FrameModel::Null, pos + 2)
                } else if int_line_val(line) < -1 {
                    SpecParse::Invalid
                } else {
                    let k = if 1 <= pos + 2 <= b.len() {
                        pos + 2
                    } else {
                        b.len() as int
                    };
                    match spec_parse_n(b.skip(k), int_line_val(line)) {
                        SpecParseList::Parsed(items, used) => SpecParse::Parsed(
                            FrameModel::Array(items),
                            k + used,
                        ),
                        SpecParseList::Incomplete => SpecParse::Incomplete,
                        SpecParseList::Invalid => SpecParse::Invalid,
                    }
                }
            }
            None => SpecParse::Incomplete,
        }
    } else {
        SpecParse::Invalid
    }
}

/// Parses `n` consecutive frames from the front of `b`.
pub open spec fn spec_parse_n(b: Seq<u8>, n: int) -> SpecParseList
    decreases b.len(), n + 2,
{
    if n <= 0 {
        SpecParseList::Parsed(Seq::empty(), 0)
    } else {
        match spec_parse(b) {
            SpecParse::Parsed(f, used) => {
                let u = if 0 <= used <= b.len() {
                    used
                } else {
                    b.len() as int
                };
                match spec_parse_n(b.skip(u), n - 1) {
                    SpecParseList::Parsed(rest, used2) => SpecParseList::Parsed(
                        seq![f] + rest,
                        u + used2,
                    ),
                    SpecParseList::Incomplete => SpecParseList::Incomplete,
                    SpecParseList::Invalid => SpecParseList::Invalid,
                }
            }
            SpecParse::Incomplete => SpecParseList::Incomplete,
            SpecParse::Invalid => SpecParseList::Invalid,
        }
    }
}

/// How an executable parse result must relate to the parse model.
pub open spec fn parse_matches(r: Result<(Frame, usize), ParseError>, s: SpecParse) -> bool {
    match r {
        Ok((f, used)) => s == SpecParse::Parsed(f@, used as int),
        Err(ParseError::Incomplete) => s == SpecParse::Incomplete,
        Err(ParseError::Invalid) => s == SpecParse::Invalid,
    }
}

pub fn find_crlf(src: &[u8]) -> (r: Option<usize>)
    ensures
        match r {
            Some(pos) => spec_find_crlf(src@) == Some(pos as int) && pos + 2 <= src.len()
                && crlf_at(src@, pos as int),
            None => spec_find_crlf(src@) == None::<int>,
        },
{
    let n = src.len();
    if n < 2 {
        return None;
    }
    let mut i: usize = 0;
    while i < n - 1
        invariant
            n == src@.len(),
            2 <= n,
            i <= n - 1,
            forall|j: int| 0 <= j < i ==> !crlf_at(src@, j),
        decreases n - i,
    {
        if src[i] == 13 && src[i + 1] == 10 {
            proof {
                lemma_find_crlf_is(src@, i as int);
            }
            return Some(i);
        }
        proof {
            assert(!crlf_at(src@, i as int));
        }
        i = i + 1;
    }
    proof {
        assert(forall|j: int| !crlf_at(src@, j)) by {
            assert(forall|j: int| j >= n - 1 ==> !crlf_at(src@, j));
        }
        lemma_find_crlf(src@);
        if spec_find_crlf(src@) is Some {
            let p = spec_find_crlf(src@)->Some_0;
            assert(!crlf_at(src@, p));
        }
    }
    None
}

/// Parses the front of `src` as one frame, returning the frame and how many
/// bytes it occupied.
pub fn parse_frame(src: &[u8]) -> (r: Result<(Frame, usize), ParseError>)
    ensures
        parse_matches(r, spec_parse(src@)),
        r matches Ok((f, used)) ==> 1 <= used <= src.len(),
    decreases src.len(), 3int,
{
    if src.len() == 0 {
        return Err(ParseError::Incomplete);
    }
    let tag = src[0];
    if tag == 43 || tag == 45 {
        parse_line_frame(src)
    } else if tag == 58 {
        parse_integer(src)
    } else if tag == 36 {
        parse_bulk(src)
    } else if tag == 42 {
        parse_array(src)
    } else {
        Err(ParseError::Invalid)
    }
}

/// Simple strings and errors: everything up to the first CRLF.
fn parse_line_frame(src: &[u8]) -> (r: Result<(Frame, usize), ParseError>)
    requires
        src@.len() > 0,
        src@[0] == 43 || src@[0] == 45,
    ensures
        parse_matches(r, spec_parse(src@)),
        r matches Ok((f, used)) ==> 1 <= used <= src.len(),
{
    match find_crlf(src) {
        Some(pos) => {
            let line = vstd::slice::slice_to_vec(vstd::slice::slice_subrange(src, 1, pos));
            if src[0] == 43 {
                Ok((Frame::Simple(line), pos + 2))
            } else {
                Ok((Frame::Error(line), pos + 2))
            }
        }
        None => Err(ParseError::Incomplete),
    }
}

fn parse_integer(src: &[u8]) -> (r: Result<(Frame, usize), ParseError>)
    requires
        src@.len() > 0,
        src@[0] == 58,
    ensures
        parse_matches(r, spec_parse(src@)),
        r matches Ok((f, used)) ==> 1 <= used <= src.len(),
{
    match find_crlf(src) {
        Some(pos) => {
            let line = vstd::slice::slice_subrange(src, 1, pos);
            match parse_int_line(line) {
                Some(v) => Ok((Frame::Integer(v), pos + 2)),
                None => Err(ParseError::Invalid),
            }
        }
        None => Err(ParseError::Incomplete),
    }
}

fn parse_bulk(src: &[u8]) -> (r: Result<(Frame, usize), ParseError>)
    requires
        src@.len() > 0,
        src@[0] == 36,
    ensures
        parse_matches(r, spec_parse(src@)),
        r matches Ok((f, used)) ==> 1 <= used <= src.len(),
{
    match find_crlf(src) {
        Some(pos) => {
            let line = vstd::slice::slice_subrange(src, 1, pos);
            match parse_int_line(line) {
                Some(len) => {
                    if len == -1 {
                        Ok((Frame::Null, pos + 2))
                    } else if len < -1 {
                        Err(ParseError::Invalid)
                    } else {
                        let start = pos + 2;
                        let rem = src.len() - start;
                        if (len as u64) > (rem as u64) {
                            return Err(ParseError::Incomplete);
                        }
                        let lenu = len as usize;
                        if rem - lenu < 2 {
                            return Err(ParseError::Incomplete);
                        }
                        let end = start + lenu;
                        if src[end] == 13 && src[end + 1] == 10 {
                            let data = vstd::slice::slice_to_vec(
                                vstd::slice::slice_subrange(src, start, end),
                            );
                            Ok((Frame::Bulk(data), end + 2))
                        } else {
                            Err(ParseError::Invalid)
                        }
                    }
                }
                None => Err(ParseError::Invalid),
            }
        }
        None => Err(ParseError::Incomplete),
    }
}

/// How much of the list model is already settled by the elements parsed so
/// far, given what the rest of the buffer yields.
pub open spec fn list_combine(prefix: Seq<FrameModel>, used: int, r: SpecParseList) -> SpecParseList {
    match r {
        SpecParseList::Parsed(fs, u) => SpecParseList::Parsed(prefix + fs, used + u),
        SpecParseList::Incomplete => SpecParseList::Incomplete,
        SpecParseList::Invalid => SpecParseList::Invalid,
    }
}

fn parse_array(src: &[u8]) -> (r: Result<(Frame, usize), ParseError>)
    requires
        src@.len() > 0,
        src@[0] == 42,
    ensures
        parse_matches(r, spec_parse(src@)),
        r matches Ok((f, used)) ==> 1 <= used <= src.len(),
    decreases src.len(), 2int,
{
    match find_crlf(src) {
        Some(pos) => {
            let line = vstd::slice::slice_subrange(src, 1, pos);
            match parse_int_line(line) {
                Some(count) => {
                    if count == -1 {
                        Ok((Frame::Null, pos + 2))
                    } else if count < -1 {
                        Err(ParseError::Invalid)
                    } else {
                        let ghost b0 = src@.skip(pos + 2);
                        let mut items: Vec<Frame> = Vec::new();
                        let mut offset: usize = pos + 2;
                        let mut k: i64 = 0;
                        while k < count
                            invariant
                                0 <= k <= count,
                                pos + 2 <= offset <= src.len(),
                                src@[0] == 42,
                                spec_find_crlf(src@) == Some(pos as int),
                                pos + 2 <= src.len(),
                                int_line_valid(src@.subrange(1, pos as int)),
                                count == int_line_val(src@.subrange(1, pos as int)),
                                count >= 0,
                                b0 == src@.skip(pos + 2),
                                items@.len() == k,
                                spec_parse_n(b0, count as int) == list_combine(
                                    frames_view(items),
                                    offset - (pos + 2),
                                    spec_parse_n(src@.skip(offset as int), count - k),
                                ),
                            decreases count - k,
                        {
                            let rest = vstd::slice::slice_subrange(src, offset, src.len());
                            proof {
                                assert(rest@ =~= src@.skip(offset as int));
                            }
                            match parse_frame(rest) {
                                Ok((f, used)) => {
                                    proof {
                                        assert(src@.skip(offset as int).skip(used as int)
                                            =~= src@.skip(offset + used));
                                        assert(frames_view(items).push(f@) =~= frames_view(
                                            items,
                                        ) + seq![f@]);
                                    }
                                    let ghost old_items = items;
                                    items.push(f);
                                    proof {
                                        assert(frames_view(items) =~= frames_view(old_items)
                                            + seq![f@]) by {
                                            assert(forall|j: int|
                                                0 <= j < old_items@.len() ==> items@[j]
                                                    == old_items@[j]);
                                        }
                                        let tail_res = spec_parse_n(
                                            src@.skip(offset + used),
                                            count - k - 1,
                                        );
                                        assert(spec_parse_n(src@.skip(offset as int), count - k)
                                            == list_combine(
                                            seq![f@],
                                            used as int,
                                            tail_res,
                                        ));
                                        assert(list_combine(
                                            frames_view(old_items),
                                            offset - (pos + 2),
                                            list_combine(seq![f@], used as int, tail_res),
                                        ) == list_combine(
                                            frames_view(items),
                                            offset + used - (pos + 2),
                                            tail_res,
                                        )) by {
                                            match tail_res {
                                                SpecParseList::Parsed(fs, u) => {
                                                    assert(frames_view(old_items) + (seq![f@]
                                                        + fs) =~= frames_view(items) + fs);
                                                }
                                                _ => {}
                                            }
                                        }
                                    }
                                    offset = offset + used;
                                    k = k + 1;
                                }
                                Err(ParseError::Incomplete) => {
                                    return Err(ParseError::Incomplete);
                                }
                                Err(ParseError::Invalid) => {
                                    return Err(ParseError::Invalid);
                                }
                            }
                        }
                        proof {
                            assert(spec_parse_n(src@.skip(offset as int), 0)
                                == SpecParseList::Parsed(Seq::<FrameModel>::empty(), 0));
                            assert(frames_view(items) + Seq::<FrameModel>::empty()
                                =~= frames_view(items));
                            assert(spec_parse_n(b0, count as int) == SpecParseList::Parsed(
                                frames_view(items),
                                offset - (pos + 2),
                            ));
                            lemma_array_view(items);
                        }
                        Ok((Frame::Array(items), offset))
                    }
                }
                None => Err(ParseError::Invalid),
            }
        }
        None => Err(ParseError::Incomplete),
    }
}

} // verus!
