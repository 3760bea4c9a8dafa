use vstd::prelude::*;

use crate::encoder::{spec_encode, spec_encode_n};
use crate::frame::FrameModel;
use crate::numbers::{
    all_digits, clean, dec_val, int_line_val, int_line_valid, is_digit, lemma_i64_dec_line,
    lemma_u64_dec, spec_i64_dec, spec_u64_dec,
};
use crate::parser::{
    crlf_at, lemma_find_crlf_is, spec_find_crlf, spec_parse, spec_parse_n, SpecParse,
    SpecParseList,
};

verus! {

broadcast use vstd::seq::group_seq_axioms;

/// No CRLF pair occurs inside `s`.
pub open spec fn no_crlf(s: Seq<u8>) -> bool {
    forall|i: int| 0 <= i < s.len() - 1 ==> !(#[trigger] s[i] == 13 && s[i + 1] == 10)
}

/// A frame that the grammar can carry: line payloads hold no CRLF pair, and
/// counts fit the signed 64-bit headers.
pub open spec fn wf_frame(f: FrameModel) -> bool
    decreases f,
{
    match f {
        FrameModel::Simple(s) => no_crlf(s),
        FrameModel::Error(s) => no_crlf(s),
        FrameModel::Integer(i) => i64::MIN <= i <= i64::MAX,
        FrameModel::Bulk(d) => d.len() <= i64::MAX,
        FrameModel::Array(items) => items.len() <= i64::MAX && wf_frames(items),
        FrameModel::Null => true,
    }
}

pub open spec fn wf_frames(items: Seq<FrameModel>) -> bool
    decreases items,
{
    if items.len() == 0 {
        true
    } else {
        wf_frame(items[0]) && wf_frames(items.subrange(1, items.len() as int))
    }
}

/// Clean lines have no CRLF pair.
pub proof fn lemma_clean_no_crlf(s: Seq<u8>)
    requires
        clean(s),
    ensures
        no_crlf(s),
{
}

pub proof fn lemma_digits_clean(s: Seq<u8>)
    requires
        all_digits(s),
    ensures
        clean(s),
{
    assert forall|i: int| 0 <= i < s.len() implies #[trigger] s[i] != 13 && s[i] != 10 by {
        assert(is_digit(s[i]));
    }
}

/// Inside any prefix of `[tag] line CRLF suffix` long enough to contain the
/// terminator, the first CRLF is the terminator; shorter prefixes hold none.
pub proof fn lemma_find_header(tag: u8, line: Seq<u8>, suffix: Seq<u8>, m: int)
    requires
        tag != 13,
        no_crlf(line),
        0 <= m <= 1 + line.len() + 2 + suffix.len(),
    ensures
        m >= line.len() + 3 ==> spec_find_crlf((seq![tag] + line + seq![13u8, 10u8]
            + suffix).take(m)) == Some(line.len() as int + 1),
        m >= line.len() + 3 ==> (seq![tag] + line + seq![13u8, 10u8] + suffix).take(m).subrange(
            1,
            line.len() as int + 1,
        ) == line,
        m < line.len() + 3 ==> spec_find_crlf((seq![tag] + line + seq![13u8, 10u8]
            + suffix).take(m)) is None,
{
    let full = seq![tag] + line + seq![13u8, 10u8] + suffix;
    let b = full.take(m);
    let ll = line.len() as int;
    assert(full.len() == 3 + ll + suffix.len());
    assert forall|j: int| 0 <= j < ll + 1 implies !crlf_at(full, j) by {
        if j == 0 {
            assert(full[0] == tag);
        } else if j < ll {
            assert(full[j] == line[j - 1]);
            assert(full[j + 1] == line[j]);
        } else {
            assert(full[j + 1] == 13);
        }
    }
    assert forall|j: int| 0 <= j < ll + 1 implies !crlf_at(b, j) by {
        if j + 2 <= m {
            assert(b[j] == full[j]);
            assert(b[j + 1] == full[j + 1]);
        }
    }
    if m >= ll + 3 {
        assert(b[ll + 1] == full[ll + 1]);
        assert(b[ll + 2] == full[ll + 2]);
        assert(full[ll + 1] == 13);
        assert(full[ll + 2] == 10);
        assert(crlf_at(b, ll + 1));
        lemma_find_crlf_is(b, ll + 1);
        assert(b.subrange(1, ll + 1) =~= line);
    } else {
        assert forall|j: int| !crlf_at(b, j) by {
            if 0 <= j && j + 2 <= m {
                assert(j < ll + 1);
            }
        }
        crate::parser::lemma_find_crlf(b);
        if spec_find_crlf(b) is Some {
            let p = spec_find_crlf(b)->Some_0;
            assert(!crlf_at(b, p));
        }
    }
}

/// Round trip: the encoding of a well-formed frame, followed by anything,
/// parses back to exactly that frame, consuming exactly the encoding.
pub proof fn lemma_parse_encode(f: FrameModel, tail: Seq<u8>)
    requires
        wf_frame(f),
    ensures
        spec_parse(spec_encode(f) + tail) == SpecParse::Parsed(f, spec_encode(f).len() as int),
    decreases f,
{
    let e = spec_encode(f);
    let b = e + tail;
    assert(b.take(b.len() as int) =~= b);
    match f {
        FrameModel::Simple(s) => {
            let ll = s.len() as int;
            assert(b =~= seq![43u8] + s + seq![13u8, 10u8] + tail);
            lemma_find_header(43, s, tail, b.len() as int);
            assert(b[0] == 43);
        }
        FrameModel::Error(s) => {
            let ll = s.len() as int;
            assert(b =~= seq![45u8] + s + seq![13u8, 10u8] + tail);
            lemma_find_header(45, s, tail, b.len() as int);
            assert(b[0] == 45);
        }
        FrameModel::Integer(i) => {
            let dec = spec_i64_dec(i);
            lemma_i64_dec_line(i);
            lemma_clean_no_crlf(dec);
            assert(b =~= seq![58u8] + dec + seq![13u8, 10u8] + tail);
            lemma_find_header(58, dec, tail, b.len() as int);
            assert(b[0] == 58);
        }
        FrameModel::Bulk(d) => {
            let dec = spec_u64_dec(d.len() as int);
            lemma_u64_dec(d.len() as int);
            lemma_digits_clean(dec);
            lemma_clean_no_crlf(dec);
            let dl = dec.len() as int;
            let suffix = d + seq![13u8, 10u8] + tail;
            assert(b =~= seq![36u8] + dec + seq![13u8, 10u8] + suffix);
            lemma_find_header(36, dec, suffix, b.len() as int);
            assert(b[0] == 36);
            let line = b.subrange(1, dl + 1);
            assert(line == dec);
            assert(is_digit(dec[0]));
            assert(int_line_val(dec) == dec_val(dec));
            assert(int_line_valid(dec));
            let pos = dl + 1;
            let start = pos + 2;
            let end = start + d.len();
            assert(b.len() == end + 2 + tail.len());
            assert forall|j: int| 0 <= j < d.len() implies b[start + j] == d[j] by {}
            assert(b[end] == 13);
            assert(b[end + 1] == 10);
            assert(b.subrange(start, end) =~= d);
            assert(spec_parse(b) == SpecParse::Parsed(FrameModel::Bulk(d), end + 2));
            assert(e.len() == end + 2);
        }
        FrameModel::Array(items) => {
            let n = items.len() as int;
            let dec = spec_u64_dec(n);
            lemma_u64_dec(n);
            lemma_digits_clean(dec);
            lemma_clean_no_crlf(dec);
            let dl = dec.len() as int;
            let body = spec_encode_n(items);
            let suffix = body + tail;
            assert(b =~= seq![42u8] + dec + seq![13u8, 10u8] + suffix);
            lemma_find_header(42, dec, suffix, b.len() as int);
            assert(b[0] == 42);
            let line = b.subrange(1, dl + 1);
            assert(line == dec);
            assert(is_digit(dec[0]));
            assert(int_line_val(dec) == n);
            assert(int_line_valid(dec));
            let pos = dl + 1;
            let k = pos + 2;
            assert(1 <= k <= b.len());
            assert(b.skip(k) =~= body + tail);
            assert(decreases_to!(f => f->Array_0));
            lemma_parse_encode_n(items, tail);
            assert(spec_parse_n(b.skip(k), n) == SpecParseList::Parsed(
                items,
                body.len() as int,
            ));
            assert(spec_parse(b) == SpecParse::Parsed(FrameModel::Array(items), k
                + body.len()));
            assert(e.len() == k + body.len());
        }
        FrameModel::Null => {
            let line = seq![45u8, 49u8];
            assert(no_crlf(line));
            assert(b =~= seq![36u8] + line + seq![13u8, 10u8] + tail);
            lemma_find_header(36, line, tail, b.len() as int);
            assert(b[0] == 36);
            assert(b.subrange(1, 3) == line);
            assert(all_digits(line.skip(1))) by {
                assert(line.skip(1) =~= seq![49u8]);
            }
            assert(dec_val(seq![49u8]) == 1) by {
                let s1 = seq![49u8];
                assert(s1.len() == 1);
                assert(s1.last() == 49);
                assert(s1.drop_last() =~= Seq::<u8>::empty());
                assert(dec_val(Seq::<u8>::empty()) == 0);
                assert(dec_val(s1) == dec_val(s1.drop_last()) * 10 + (s1.last() - 48));
            }
            assert(line.skip(1) =~= seq![49u8]);
            assert(int_line_val(line) == -1);
            assert(int_line_valid(line));
            assert(spec_parse(b) == SpecParse::Parsed(FrameModel::Null, 5));
        }
    }
}

/// Round trip for a run of frames.
pub proof fn lemma_parse_encode_n(items: Seq<FrameModel>, tail: Seq<u8>)
    requires
        wf_frames(items),
    ensures
        spec_parse_n(spec_encode_n(items) + tail, items.len() as int) == SpecParseList::Parsed(
            items,
            spec_encode_n(items).len() as int,
        ),
    decreases items,
{
    let body = spec_encode_n(items);
    let b = body + tail;
    if items.len() == 0 {
        assert(spec_parse_n(b, 0) == SpecParseList::Parsed(Seq::<FrameModel>::empty(), 0));
        assert(items =~= Seq::<FrameModel>::empty());
    } else {
        let rest = items.subrange(1, items.len() as int);
        let e0 = spec_encode(items[0]);
        let restbody = spec_encode_n(rest);
        assert(body == e0 + restbody);
        assert(b =~= e0 + (restbody + tail));
        assert(decreases_to!(items => items[0]));
        lemma_parse_encode(items[0], restbody + tail);
        assert(spec_parse(b) == SpecParse::Parsed(items[0], e0.len() as int));
        let u = e0.len() as int;
        assert(0 <= u <= b.len());
        assert(b.skip(u) =~= restbody + tail);
        assert(decreases_to!(items => items.subrange(1, items.len() as int)));
        lemma_parse_encode_n(rest, tail);
        assert(spec_parse_n(b.skip(u), items.len() - 1) == SpecParseList::Parsed(
            rest,
            restbody.len() as int,
        ));
        assert(seq![items[0]] + rest =~= items);
        assert(spec_parse_n(b, items.len() as int) == SpecParseList::Parsed(
            items,
            u + restbody.len(),
        ));
    }
}

/// Every frame encoding is at least three bytes long.
pub proof fn lemma_encode_len(f: FrameModel)
    ensures
        spec_encode(f).len() >= 3,
{
    match f {
        FrameModel::Integer(i) => {
            assert(spec_i64_dec(i).len() >= 1) by {
                if i >= 0 {
                    assert(spec_u64_dec(i).len() >= 1) by {
                        if i < 10 {
                        }
                    }
                } else {
                    assert(spec_i64_dec(i) == seq![45u8] + spec_u64_dec(-i));
                }
            }
        }
        _ => {}
    }
}

/// Parsing any strictly shorter prefix of a well-formed frame's encoding
/// reports that the frame is incomplete.
pub proof fn lemma_parse_encode_prefix(f: FrameModel, m: int)
    requires
        wf_frame(f),
        0 <= m < spec_encode(f).len(),
    ensures
        spec_parse(spec_encode(f).take(m)) == SpecParse::Incomplete,
    decreases f,
{
    let e = spec_encode(f);
    let b = e.take(m);
    if m == 0 {
        assert(b =~= Seq::<u8>::empty());
        return ;
    }
    match f {
        FrameModel::Simple(s) => {
            assert(e =~= seq![43u8] + s + seq![13u8, 10u8] + Seq::<u8>::empty());
            lemma_find_header(43, s, Seq::empty(), m);
            assert(b[0] == e[0]);
            assert(m < s.len() + 3);
        }
        FrameModel::Error(s) => {
            assert(e =~= seq![45u8] + s + seq![13u8, 10u8] + Seq::<u8>::empty());
            lemma_find_header(45, s, Seq::empty(), m);
            assert(b[0] == e[0]);
            assert(m < s.len() + 3);
        }
        FrameModel::Integer(i) => {
            let dec = spec_i64_dec(i);
            lemma_i64_dec_line(i);
            lemma_clean_no_crlf(dec);
            assert(e =~= seq![58u8] + dec + seq![13u8, 10u8] + Seq::<u8>::empty());
            lemma_find_header(58, dec, Seq::empty(), m);
            assert(b[0] == e[0]);
            assert(m < dec.len() + 3);
        }
        FrameModel::Bulk(d) => {
            let dec = spec_u64_dec(d.len() as int);
            lemma_u64_dec(d.len() as int);
            lemma_digits_clean(dec);
            lemma_clean_no_crlf(dec);
            let dl = dec.len() as int;
            let suffix = d + seq![13u8, 10u8] + Seq::<u8>::empty();
            assert(e =~= seq![36u8] + dec + seq![13u8, 10u8] + suffix);
            lemma_find_header(36, dec, suffix, m);
            assert(b[0] == e[0]);
            if m >= dl + 3 {
                let line = b.subrange(1, dl + 1);
                assert(line == dec);
                assert(is_digit(dec[0]));
                assert(int_line_val(dec) == dec_val(dec));
                assert(int_line_valid(dec));
                let pos = dl + 1;
                let start = pos + 2;
                let end = start + d.len();
                assert(e.len() == end + 2);
                assert(b.len() == m < end + 2);
            }
        }
        FrameModel::Array(items) => {
            let n = items.len() as int;
            let dec = spec_u64_dec(n);
            lemma_u64_dec(n);
            lemma_digits_clean(dec);
            lemma_clean_no_crlf(dec);
            let dl = dec.len() as int;
            let body = spec_encode_n(items);
            let suffix = body + Seq::<u8>::empty();
            assert(suffix =~= body);
            assert(e =~= seq![42u8] + dec + seq![13u8, 10u8] + body);
            lemma_find_header(42, dec, body, m);
            assert(b[0] == e[0]);
            if m >= dl + 3 {
                let line = b.subrange(1, dl + 1);
                assert(line == dec);
                assert(is_digit(dec[0]));
                assert(int_line_val(dec) == n);
                assert(int_line_valid(dec));
                let pos = dl + 1;
                let k = pos + 2;
                assert(1 <= k <= b.len());
                assert(b.skip(k) =~= body.take(m - k));
                assert(m - k < body.len());
                assert(decreases_to!(f => f->Array_0));
                lemma_parse_n_prefix(items, m - k);
                assert(spec_parse_n(b.skip(k), n) == SpecParseList::Incomplete);
            }
        }
        FrameModel::Null => {
            let line = seq![45u8, 49u8];
            assert(no_crlf(line));
            assert(e =~= seq![36u8] + line + seq![13u8, 10u8] + Seq::<u8>::empty());
            lemma_find_header(36, line, Seq::empty(), m);
            assert(b[0] == e[0]);
            assert(m < 5);
        }
    }
}

/// Parsing a strictly shorter prefix of a run of encodings is incomplete.
pub proof fn lemma_parse_n_prefix(items: Seq<FrameModel>, m: int)
    requires
        wf_frames(items),
        0 <= m < spec_encode_n(items).len(),
    ensures
        spec_parse_n(spec_encode_n(items).take(m), items.len() as int)
            == SpecParseList::Incomplete,
    decreases items,
{
    let body = spec_encode_n(items);
    assert(items.len() > 0);
    let rest = items.subrange(1, items.len() as int);
    let e0 = spec_encode(items[0]);
    let restbody = spec_encode_n(rest);
    assert(body == e0 + restbody);
    let b = body.take(m);
    if m < e0.len() {
        assert(b =~= e0.take(m));
        assert(decreases_to!(items => items[0]));
        lemma_parse_encode_prefix(items[0], m);
        assert(spec_parse(b) == SpecParse::Incomplete);
    } else {
        assert(b =~= e0 + restbody.take(m - e0.len()));
        assert(decreases_to!(items => items[0]));
        lemma_parse_encode(items[0], restbody.take(m - e0.len()));
        assert(spec_parse(b) == SpecParse::Parsed(items[0], e0.len() as int));
        let u = e0.len() as int;
        assert(0 <= u <= b.len());
        assert(b.skip(u) =~= restbody.take(m - u));
        assert(m - u < restbody.len());
        assert(decreases_to!(items => items.subrange(1, items.len() as int)));
        lemma_parse_n_prefix(rest, m - u);
        assert(spec_parse_n(b.skip(u), items.len() - 1) == SpecParseList::Incomplete);
    }
}

} // verus!
