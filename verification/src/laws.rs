//! Laws of the marker transformer, proved once and for all: splicing is
//! idempotent on its own output, and a bare-marker document round-trips the
//! documentation exactly.

use vstd::prelude::*;

verus! {

use crate::bytes::{trimmed, first_nonblank, last_nonblank};
use crate::lines::{
    raw_lines,
    wf_line,
    terminated,
    lemma_raw_lines_props,
    lemma_resplit,
    lemma_flatten_count,
    NL,
    CR,
};
use crate::markers::{
    bare_marker,
    start_marker,
    end_marker,
    classify_line,
    line_classes,
    MarkerClass,
    ScanState,
    nl_seq,
    generated_block,
    splice_final_state,
    splice_ok,
    splice_text,
    first_mark,
    first_end,
    is_mark,
    lemma_machine_state,
    lemma_first_mark_props,
    lemma_first_end_props,
    lemma_first_mark_value,
    lemma_first_end_value,
    lemma_state_characterization,
};

/// The lines of the rendered documentation as they stand inside the
/// generated region: terminated by the chosen newline.
pub open spec fn doc_lines(doc: Seq<u8>, crlf: bool) -> Seq<Seq<u8>> {
    if doc.len() == 0 {
        Seq::empty()
    } else {
        raw_lines(doc + nl_seq(crlf))
    }
}

/// No line of the rendered documentation is itself a marker line.  The laws
/// below need this: a documentation line spelling a marker would change the
/// marker structure of the output.
pub open spec fn doc_is_plain(doc: Seq<u8>, crlf: bool) -> bool {
    forall|j: int|
        0 <= j < doc_lines(doc, crlf).len() ==> classify_line(
            #[trigger] doc_lines(doc, crlf)[j],
        ) == MarkerClass::OtherLine
}

/// The lines of the generated region: start marker, documentation, end
/// marker.
pub open spec fn generated_lines(doc: Seq<u8>, crlf: bool) -> Seq<Seq<u8>> {
    seq![start_marker() + nl_seq(crlf)] + doc_lines(doc, crlf) + seq![
        end_marker() + nl_seq(crlf),
    ]
}

/// The start and end marker lines of the generated region are terminated
/// lines and classify as their markers.
pub proof fn lemma_marker_lines(crlf: bool)
    ensures
        terminated(start_marker() + nl_seq(crlf)),
        terminated(end_marker() + nl_seq(crlf)),
        classify_line(start_marker() + nl_seq(crlf)) == MarkerClass::StartMark,
        classify_line(end_marker() + nl_seq(crlf)) == MarkerClass::EndMark,
{
    reveal_strlit("<!-- cargo-sync-readme -->");
    reveal_strlit("<!-- cargo-sync-readme start -->");
    reveal_strlit("<!-- cargo-sync-readme end -->");
    assert(bare_marker().len() == 26);
    assert(start_marker().len() == 32);
    assert(end_marker().len() == 30);
    let nl = nl_seq(crlf);
    let s = start_marker() + nl;
    let e = end_marker() + nl;
    assert(s[s.len() - 1] == NL);
    assert(e[e.len() - 1] == NL);
    assert(forall|k: int| 0 <= k < 32 ==> #[trigger] s[k] == start_marker()[k]);
    assert(forall|k: int| 0 <= k < 32 ==> #[trigger] start_marker()[k] != NL);
    assert(forall|k: int| 0 <= k < 30 ==> #[trigger] e[k] == end_marker()[k]);
    assert(forall|k: int| 0 <= k < 30 ==> #[trigger] end_marker()[k] != NL);
    assert(!crate::bytes::is_blank_byte(s[0]));
    assert(!crate::bytes::is_blank_byte(e[0]));
    assert(!crate::bytes::is_blank_byte(s[31]));
    assert(!crate::bytes::is_blank_byte(e[29]));
    assert(crlf ==> s[32] == CR && e[30] == CR);
    assert(terminated(s));
    assert(terminated(e));
    assert(first_nonblank(s, 0) == 0);
    assert(first_nonblank(e, 0) == 0);
    if crlf {
        assert(s.len() == 34 && s[33] == NL && s[32] == CR);
        assert(last_nonblank(s, 34) == last_nonblank(s, 33));
        assert(last_nonblank(s, 33) == last_nonblank(s, 32));
        assert(last_nonblank(s, 32) == 32);
        assert(e.len() == 32 && e[31] == NL && e[30] == CR);
        assert(last_nonblank(e, 32) == last_nonblank(e, 31));
        assert(last_nonblank(e, 31) == last_nonblank(e, 30));
        assert(last_nonblank(e, 30) == 30);
    } else {
        assert(s.len() == 33 && s[32] == NL);
        assert(last_nonblank(s, 33) == last_nonblank(s, 32));
        assert(last_nonblank(s, 32) == 32);
        assert(e.len() == 31 && e[30] == NL);
        assert(last_nonblank(e, 31) == last_nonblank(e, 30));
        assert(last_nonblank(e, 30) == 30);
    }
    assert(last_nonblank(s, s.len() as int) == 32);
    assert(last_nonblank(e, e.len() as int) == 30);
    assert(trimmed(s) =~= start_marker());
    assert(trimmed(e) =~= end_marker());
    assert(trimmed(s) != bare_marker());
    assert(trimmed(e) != bare_marker());
    assert(trimmed(e) != start_marker());
}

/// The line where the generated region starts.
pub open spec fn anchor_index(readme: Seq<u8>) -> int {
    match splice_final_state(readme) {
        ScanState::FoundBare(b) => b as int,
        ScanState::Closed(s, e) => s as int,
        _ => 0,
    }
}

/// The line where the original document resumes after the anchor.
pub open spec fn resume_index(readme: Seq<u8>) -> int {
    match splice_final_state(readme) {
        ScanState::FoundBare(b) => b + 1,
        ScanState::Closed(s, e) => e + 1,
        _ => 0,
    }
}

/// How a successful splice decomposes, line-wise: the lines before the
/// anchor, the generated region's lines, and the lines after the anchor —
/// and the output splits back into exactly those lines.
pub proof fn lemma_splice_structure(readme: Seq<u8>, doc: Seq<u8>, crlf: bool)
    requires
        readme.len() + doc.len() + 4 <= usize::MAX,
        doc_is_plain(doc, crlf),
        splice_ok(readme),
    ensures
        ({
            let ls = raw_lines(readme);
            let a = anchor_index(readme);
            let r = resume_index(readme);
            let gl = generated_lines(doc, crlf);
            0 <= a < r <= ls.len() && ls.len() <= readme.len() && doc_lines(doc, crlf).len()
                <= doc.len() + 2 && gl.flatten() == generated_block(doc, nl_seq(crlf))
                && splice_text(readme, doc, crlf) == ls.take(a).flatten() + generated_block(
                doc,
                nl_seq(crlf),
            ) + ls.skip(r).flatten() && raw_lines(splice_text(readme, doc, crlf)) == ls.take(a) + gl
                + ls.skip(r) && (forall|j: int|
                0 <= j < a ==> !is_mark(#[trigger] line_classes(ls)[j]))
        }),
{
    let ls = raw_lines(readme);
    let cls = line_classes(ls);
    lemma_raw_lines_props(readme);
    lemma_flatten_count(ls);
    assert(ls.len() <= readme.len());
    lemma_machine_state(cls, 0, ScanState::Seeking, Seq::empty());
    lemma_state_characterization(cls, 0);
    lemma_first_mark_props(cls, 0);
    let st = splice_final_state(readme);
    let m = first_mark(cls, 0);
    let a = anchor_index(readme);
    let r = resume_index(readme);
    if m == cls.len() {
        assert(st == ScanState::Seeking);
        assert(false);
    }
    assert(is_mark(cls[m]));
    lemma_first_end_props(cls, m + 1);
    match st {
        ScanState::FoundBare(b) => {
            if cls[m] == MarkerClass::StartMark {
                assert(false);
            }
            assert(st == ScanState::FoundBare(m as usize));
            assert(a == m && r == m + 1);
        },
        ScanState::Closed(s, e) => {
            if cls[m] == MarkerClass::BareMark {
                assert(false);
            }
            let e0 = first_end(cls, m + 1);
            lemma_first_end_props(cls, m + 1);
            if e0 == cls.len() {
                assert(st == ScanState::FoundStart(m as usize));
                assert(false);
            }
            assert(st == ScanState::Closed(m as usize, e0 as usize));
            assert(a == m && r == e0 + 1);
        },
        _ => {
            assert(false);
        },
    }
    assert(0 <= a < r <= ls.len());
    assert(forall|j: int| 0 <= j < a ==> !is_mark(#[trigger] cls[j]));
    // The three pieces of the output.
    let nl = nl_seq(crlf);
    let dl = doc_lines(doc, crlf);
    let gl = generated_lines(doc, crlf);
    let pre = ls.take(a);
    let post = ls.skip(r);
    let ol = pre + gl + post;
    lemma_marker_lines(crlf);
    if doc.len() > 0 {
        assert((doc + nl)[(doc + nl).len() - 1] == NL);
        lemma_raw_lines_props(doc + nl);
        lemma_flatten_count(dl);
        assert(dl.len() <= doc.len() + 2);
    }
    assert(gl.len() == dl.len() + 2);
    assert(gl[0] == start_marker() + nl);
    assert(gl[gl.len() - 1] == end_marker() + nl);
    assert(forall|j: int| 0 < j < gl.len() - 1 ==> #[trigger] gl[j] == dl[j - 1]);
    // Every line of the output but the last is terminated; the last is
    // well-formed.
    assert forall|j: int| 0 <= j < ol.len() - 1 implies terminated(#[trigger] ol[j]) by {
        if j < a {
            assert(ol[j] == ls[j]);
            assert(j < ls.len() - 1);
        } else if j < a + gl.len() {
            assert(ol[j] == gl[j - a]);
        } else {
            assert(ol[j] == ls[r + (j - a - gl.len())]);
            assert(r + (j - a - gl.len()) < ls.len() - 1);
        }
    }
    assert(ol.len() > 0);
    assert(wf_line(ol[ol.len() - 1])) by {
        if post.len() > 0 {
            assert(ol[ol.len() - 1] == ls[ls.len() - 1]);
        } else {
            assert(ol[ol.len() - 1] == gl[gl.len() - 1]);
        }
    }
    // The output is the flattening of those lines.
    vstd::seq_lib::lemma_flatten_concat(pre + gl, post);
    vstd::seq_lib::lemma_flatten_concat(pre, gl);
    vstd::seq_lib::lemma_flatten_concat(seq![start_marker() + nl] + dl, seq![end_marker() + nl]);
    vstd::seq_lib::lemma_flatten_concat(seq![start_marker() + nl], dl);
    seq![start_marker() + nl].lemma_flatten_one_element();
    seq![end_marker() + nl].lemma_flatten_one_element();
    if doc.len() == 0 {
        assert(dl.flatten().len() == 0);
        assert(gl.flatten() =~= generated_block(doc, nl));
    } else {
        assert(dl.flatten() == doc + nl);
        assert(gl.flatten() =~= generated_block(doc, nl));
    }
    assert(splice_text(readme, doc, crlf) == pre.flatten() + generated_block(doc, nl)
        + post.flatten());
    assert(ol.flatten() =~= splice_text(readme, doc, crlf));
    lemma_resplit(ol);
}

/// Idempotence: splicing the same documentation into an already spliced
/// document reproduces that document byte for byte.
pub proof fn lemma_splice_idempotent(readme: Seq<u8>, doc: Seq<u8>, crlf: bool)
    requires
        readme.len() + doc.len() + 4 <= usize::MAX,
        doc_is_plain(doc, crlf),
        splice_ok(readme),
    ensures
        splice_ok(splice_text(readme, doc, crlf)),
        splice_text(splice_text(readme, doc, crlf), doc, crlf) == splice_text(readme, doc, crlf),
{
    lemma_splice_structure(readme, doc, crlf);
    let ls = raw_lines(readme);
    let a = anchor_index(readme);
    let r = resume_index(readme);
    let nl = nl_seq(crlf);
    let dl = doc_lines(doc, crlf);
    let gl = generated_lines(doc, crlf);
    let pre = ls.take(a);
    let post = ls.skip(r);
    let out = splice_text(readme, doc, crlf);
    let ol = raw_lines(out);
    assert(ol == pre + gl + post);
    let cls2 = line_classes(ol);
    lemma_marker_lines(crlf);
    assert(ol[a] == gl[0]);
    assert(cls2[a] == MarkerClass::StartMark);
    assert forall|j: int| 0 <= j < a implies !is_mark(#[trigger] cls2[j]) by {
        assert(ol[j] == ls[j]);
        assert(cls2[j] == line_classes(ls)[j]);
    }
    lemma_first_mark_value(cls2, 0, a);
    let e2 = a + 1 + dl.len();
    assert(ol[e2] == gl[gl.len() - 1]);
    assert(cls2[e2] == MarkerClass::EndMark);
    assert forall|j: int| a + 1 <= j < e2 implies #[trigger] cls2[j] != MarkerClass::EndMark by {
        assert(ol[j] == gl[j - a]);
        assert(gl[j - a] == dl[j - a - 1]);
        assert(classify_line(dl[j - a - 1]) == MarkerClass::OtherLine);
    }
    lemma_first_end_value(cls2, a + 1, e2);
    lemma_machine_state(cls2, 0, ScanState::Seeking, Seq::empty());
    lemma_state_characterization(cls2, 0);
    assert(splice_final_state(out) == ScanState::Closed(a as usize, e2 as usize));
    assert(splice_ok(out));
    assert(anchor_index(out) == a);
    assert(resume_index(out) == e2 + 1);
    assert(ol.take(a) =~= pre);
    assert(ol.skip(e2 + 1) =~= post);
    assert(splice_text(out, doc, crlf) == pre.flatten() + generated_block(doc, nl)
        + post.flatten());
}

/// Round-trip: splicing into a document that is a single bare marker line
/// yields exactly the generated region, and the lines strictly between the
/// generated start and end markers concatenate back to the documentation,
/// closed by the chosen newline.
pub proof fn lemma_bare_round_trip(readme: Seq<u8>, doc: Seq<u8>, crlf: bool)
    requires
        readme.len() + doc.len() + 4 <= usize::MAX,
        raw_lines(readme).len() == 1,
        classify_line(raw_lines(readme)[0]) == MarkerClass::BareMark,
        doc_is_plain(doc, crlf),
        doc.len() > 0,
    ensures
        splice_ok(readme),
        ({
            let ol = raw_lines(splice_text(readme, doc, crlf));
            ol.len() >= 2 && ol[0] == start_marker() + nl_seq(crlf) && ol[ol.len() - 1]
                == end_marker() + nl_seq(crlf) && ol.subrange(1, ol.len() - 1).flatten() == doc
                + nl_seq(crlf)
        }),
{
    let ls = raw_lines(readme);
    let cls = line_classes(ls);
    lemma_machine_state(cls, 0, ScanState::Seeking, Seq::empty());
    lemma_state_characterization(cls, 0);
    assert(is_mark(cls[0]));
    assert(first_mark(cls, 0) == 0);
    assert(splice_final_state(readme) == ScanState::FoundBare(0usize));
    assert(splice_ok(readme));
    lemma_splice_structure(readme, doc, crlf);
    let dl = doc_lines(doc, crlf);
    let gl = generated_lines(doc, crlf);
    let out = splice_text(readme, doc, crlf);
    let ol = raw_lines(out);
    assert(anchor_index(readme) == 0 && resume_index(readme) == 1);
    assert(ol =~= gl);
    assert(ol.subrange(1, ol.len() - 1) =~= dl);
    assert((doc + nl_seq(crlf))[(doc + nl_seq(crlf)).len() - 1] == NL);
    lemma_raw_lines_props(doc + nl_seq(crlf));
    assert(dl.flatten() == doc + nl_seq(crlf));
}

} // verus!
