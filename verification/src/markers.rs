//! The marker transformer: finds the marker lines of the target document,
//! splices the documentation between them, and reports structural anomalies.
//!
//! The document is scanned line by line with an explicit state machine.  A
//! bare marker line is a zero-width insertion point; a start/end marker pair
//! delimits a replacement region.  The first usable anchor wins; every later
//! marker only adds a warning.  Text outside the spliced region is kept
//! byte for byte.

use vstd::prelude::*;

verus! {

use crate::bytes::{ascii_bytes, lit, trim, trimmed, bytes_eq};
use crate::lines::{raw_lines, views, split_raw_lines, concat_bytes};
use crate::warnings::{Warning, WarningView, warning_views, WithWarnings};

/// A fatal condition: no line of the document can anchor the documentation.
#[derive(Debug, Clone, Copy, PartialEq, Eq, Structural)]
pub enum TransformError {
    /// The document holds no marker line at all.
    NoMarkerFound,
    /// A start marker was found but no end marker follows it.
    UnclosedStartMarker,
}

/// The bare marker: the insertion point a user writes by hand.
pub open spec fn bare_marker() -> Seq<u8> {
    ascii_bytes("<!-- cargo-sync-readme -->"@)
}

/// The start marker: opens the generated region.
pub open spec fn start_marker() -> Seq<u8> {
    ascii_bytes("<!-- cargo-sync-readme start -->"@)
}

/// The end marker: closes the generated region.
pub open spec fn end_marker() -> Seq<u8> {
    ascii_bytes("<!-- cargo-sync-readme end -->"@)
}

/// The bare marker as bytes.
pub fn bare_marker_vec() -> (r: Vec<u8>)
    ensures
        r@ == bare_marker(),
{
    proof {
        reveal_strlit("<!-- cargo-sync-readme -->");
    }
    lit("<!-- cargo-sync-readme -->")
}

/// The start marker as bytes.
pub fn start_marker_vec() -> (r: Vec<u8>)
    ensures
        r@ == start_marker(),
{
    proof {
        reveal_strlit("<!-- cargo-sync-readme start -->");
    }
    lit("<!-- cargo-sync-readme start -->")
}

/// The end marker as bytes.
pub fn end_marker_vec() -> (r: Vec<u8>)
    ensures
        r@ == end_marker(),
{
    proof {
        reveal_strlit("<!-- cargo-sync-readme end -->");
    }
    lit("<!-- cargo-sync-readme end -->")
}

/// What a document line is to the marker scan.
#[derive(Debug, Clone, Copy, PartialEq, Eq, Structural)]
pub enum MarkerClass {
    BareMark,
    StartMark,
    EndMark,
    OtherLine,
}

/// A line is a marker exactly when, with surrounding whitespace trimmed, it
/// equals one of the three marker literals.
pub open spec fn classify_line(l: Seq<u8>) -> MarkerClass {
    let t = trimmed(l);
    if t == bare_marker() {
        MarkerClass::BareMark
    } else if t == start_marker() {
        MarkerClass::StartMark
    } else if t == end_marker() {
        MarkerClass::EndMark
    } else {
        MarkerClass::OtherLine
    }
}

/// The classes of a sequence of lines.
pub open spec fn line_classes(ls: Seq<Seq<u8>>) -> Seq<MarkerClass> {
    ls.map_values(|l: Seq<u8>| classify_line(l))
}

/// Classifies one document line.
pub fn classify(line: &Vec<u8>) -> (c: MarkerClass)
    ensures
        c == classify_line(line@),
{
    let t = trim(line);
    let bare = bare_marker_vec();
    if bytes_eq(&t, &bare) {
        return MarkerClass::BareMark;
    }
    let start = start_marker_vec();
    if bytes_eq(&t, &start) {
        return MarkerClass::StartMark;
    }
    let end = end_marker_vec();
    if bytes_eq(&t, &end) {
        return MarkerClass::EndMark;
    }
    MarkerClass::OtherLine
}

/// The scanner's state: which anchor, if any, has been chosen so far.
/// Indices are line numbers in the document.
#[derive(Debug, Clone, Copy, PartialEq, Eq, Structural)]
pub enum ScanState {
    /// No anchor yet.
    Seeking,
    /// A bare marker was chosen as insertion point.
    FoundBare(usize),
    /// A start marker is open, awaiting its end marker.
    FoundStart(usize),
    /// A start/end pair was captured as the replacement region.
    Closed(usize, usize),
}

/// One transition of the marker scan; the second component is the warning
/// the step emits, if any.
pub open spec fn machine_step(st: ScanState, c: MarkerClass, i: usize) -> (
    ScanState,
    Seq<WarningView>,
) {
    match st {
        ScanState::Seeking => match c {
            MarkerClass::BareMark => (ScanState::FoundBare(i), Seq::empty()),
            MarkerClass::StartMark => (ScanState::FoundStart(i), Seq::empty()),
            MarkerClass::EndMark => (
                ScanState::Seeking,
                seq![WarningView::UnmatchedEndMarker],
            ),
            MarkerClass::OtherLine => (ScanState::Seeking, Seq::empty()),
        },
        ScanState::FoundBare(b) => match c {
            MarkerClass::OtherLine => (st, Seq::empty()),
            _ => (st, seq![WarningView::MultipleMarkers]),
        },
        ScanState::FoundStart(s) => match c {
            MarkerClass::EndMark => (ScanState::Closed(s, i), Seq::empty()),
            MarkerClass::OtherLine => (st, Seq::empty()),
            _ => (st, seq![WarningView::MultipleMarkers]),
        },
        ScanState::Closed(s, e) => match c {
            MarkerClass::OtherLine => (st, Seq::empty()),
            _ => (st, seq![WarningView::MultipleMarkers]),
        },
    }
}

/// The scan from line `i` onward, starting in state `st` with the warnings
/// `ws` already emitted.
pub open spec fn machine_from(
    cls: Seq<MarkerClass>,
    i: int,
    st: ScanState,
    ws: Seq<WarningView>,
) -> (ScanState, Seq<WarningView>)
    decreases cls.len() - i,
{
    if i < 0 || i >= cls.len() {
        (st, ws)
    } else {
        let step = machine_step(st, cls[i], i as usize);
        machine_from(cls, i + 1, step.0, ws + step.1)
    }
}

/// The whole scan of a classified document.
pub open spec fn run_machine(cls: Seq<MarkerClass>) -> (ScanState, Seq<WarningView>) {
    machine_from(cls, 0, ScanState::Seeking, Seq::empty())
}

/// The state the scan of `readme` ends in.
pub open spec fn splice_final_state(readme: Seq<u8>) -> ScanState {
    run_machine(line_classes(raw_lines(readme))).0
}

/// The warnings the scan of `readme` emits, in order.
pub open spec fn splice_warnings(readme: Seq<u8>) -> Seq<WarningView> {
    run_machine(line_classes(raw_lines(readme))).1
}

/// Whether `readme` holds a usable anchor: splicing succeeds exactly then.
pub open spec fn splice_ok(readme: Seq<u8>) -> bool {
    splice_final_state(readme) matches ScanState::FoundBare(_) || splice_final_state(readme)
        matches ScanState::Closed(_, _)
}

/// The newline rendering chosen by the `crlf` flag.
pub open spec fn nl_seq(crlf: bool) -> Seq<u8> {
    if crlf {
        seq![13u8, 10u8]
    } else {
        seq![10u8]
    }
}

/// The chosen newline as bytes.
pub fn nl_vec(crlf: bool) -> (r: Vec<u8>)
    ensures
        r@ == nl_seq(crlf),
{
    let mut r: Vec<u8> = Vec::new();
    if crlf {
        r.push(13);
    }
    r.push(10);
    proof {
        assert(r@ =~= nl_seq(crlf));
    }
    r
}

/// The freshly generated region: start marker, documentation, end marker,
/// each line closed with the chosen newline.
pub open spec fn generated_block(doc: Seq<u8>, nl: Seq<u8>) -> Seq<u8> {
    if doc.len() == 0 {
        start_marker() + nl + end_marker() + nl
    } else {
        start_marker() + nl + doc + nl + end_marker() + nl
    }
}

/// The spliced document text, when the scan ended in a usable state: lines
/// before the anchor, the generated region, and the lines after the anchor
/// (after the end marker, for a replacement region).
pub open spec fn splice_text(readme: Seq<u8>, doc: Seq<u8>, crlf: bool) -> Seq<u8> {
    let ls = raw_lines(readme);
    match splice_final_state(readme) {
        ScanState::FoundBare(b) => ls.take(b as int).flatten() + generated_block(
            doc,
            nl_seq(crlf),
        ) + ls.skip(b + 1 as int).flatten(),
        ScanState::Closed(s, e) => ls.take(s as int).flatten() + generated_block(
            doc,
            nl_seq(crlf),
        ) + ls.skip(e + 1 as int).flatten(),
        _ => Seq::empty(),
    }
}

/// Bounds that the scan keeps on the indices stored in its state after
/// reading `i` lines.
pub open spec fn state_in_bounds(st: ScanState, i: int) -> bool {
    match st {
        ScanState::Seeking => true,
        ScanState::FoundBare(b) => (b as int) < i,
        ScanState::FoundStart(s) => (s as int) < i,
        ScanState::Closed(s, e) => (s as int) < (e as int) && (e as int) < i,
    }
}

/// The scan with the warnings projected away: states evolve independently
/// of the warnings emitted.
pub open spec fn state_from(cls: Seq<MarkerClass>, i: int, st: ScanState) -> ScanState
    decreases cls.len() - i,
{
    if i < 0 || i >= cls.len() {
        st
    } else {
        state_from(cls, i + 1, machine_step(st, cls[i], i as usize).0)
    }
}

/// The full scan ends in the state that the warning-free projection computes.
pub proof fn lemma_machine_state(cls: Seq<MarkerClass>, i: int, st: ScanState, ws: Seq<WarningView>)
    ensures
        machine_from(cls, i, st, ws).0 == state_from(cls, i, st),
    decreases cls.len() - i,
{
    if 0 <= i < cls.len() {
        let step = machine_step(st, cls[i], i as usize);
        lemma_machine_state(cls, i + 1, step.0, ws + step.1);
    }
}

/// A class that can open an anchor.
pub open spec fn is_mark(c: MarkerClass) -> bool {
    c == MarkerClass::BareMark || c == MarkerClass::StartMark
}

/// First index at or after `i` whose class can open an anchor, or the length.
pub open spec fn first_mark(cls: Seq<MarkerClass>, i: int) -> int
    decreases cls.len() - i,
{
    if i < 0 || i >= cls.len() {
        cls.len() as int
    } else if is_mark(cls[i]) {
        i
    } else {
        first_mark(cls, i + 1)
    }
}

/// First index at or after `i` classified as an end marker, or the length.
pub open spec fn first_end(cls: Seq<MarkerClass>, i: int) -> int
    decreases cls.len() - i,
{
    if i < 0 || i >= cls.len() {
        cls.len() as int
    } else if cls[i] == MarkerClass::EndMark {
        i
    } else {
        first_end(cls, i + 1)
    }
}

pub proof fn lemma_first_mark_props(cls: Seq<MarkerClass>, i: int)
    requires
        0 <= i <= cls.len(),
    ensures
        i <= first_mark(cls, i) <= cls.len(),
        forall|j: int| i <= j < first_mark(cls, i) ==> !is_mark(#[trigger] cls[j]),
        first_mark(cls, i) < cls.len() ==> is_mark(cls[first_mark(cls, i)]),
    decreases cls.len() - i,
{
    if i < cls.len() && !is_mark(cls[i]) {
        lemma_first_mark_props(cls, i + 1);
    }
}

/// Pins `first_mark` when the earlier classes are known.
pub proof fn lemma_first_mark_value(cls: Seq<MarkerClass>, i: int, a: int)
    requires
        0 <= i <= a < cls.len(),
        forall|j: int| i <= j < a ==> !is_mark(#[trigger] cls[j]),
        is_mark(cls[a]),
    ensures
        first_mark(cls, i) == a,
    decreases a - i,
{
    if i < a {
        lemma_first_mark_value(cls, i + 1, a);
    }
}

/// Pins `first_end` when the earlier classes are known.
pub proof fn lemma_first_end_value(cls: Seq<MarkerClass>, i: int, e: int)
    requires
        0 <= i <= e < cls.len(),
        forall|j: int| i <= j < e ==> #[trigger] cls[j] != MarkerClass::EndMark,
        cls[e] == MarkerClass::EndMark,
    ensures
        first_end(cls, i) == e,
    decreases e - i,
{
    if i < e {
        lemma_first_end_value(cls, i + 1, e);
    }
}

pub proof fn lemma_first_end_props(cls: Seq<MarkerClass>, i: int)
    requires
        0 <= i <= cls.len(),
    ensures
        i <= first_end(cls, i) <= cls.len(),
        forall|j: int| i <= j < first_end(cls, i) ==> #[trigger] cls[j] != MarkerClass::EndMark,
        first_end(cls, i) < cls.len() ==> cls[first_end(cls, i)] == MarkerClass::EndMark,
    decreases cls.len() - i,
{
    if i < cls.len() && cls[i] != MarkerClass::EndMark {
        lemma_first_end_props(cls, i + 1);
    }
}

/// A chosen insertion point is never given up.
pub proof fn lemma_bare_stays(cls: Seq<MarkerClass>, i: int, b: usize)
    ensures
        state_from(cls, i, ScanState::FoundBare(b)) == ScanState::FoundBare(b),
    decreases cls.len() - i,
{
    if 0 <= i < cls.len() {
        lemma_bare_stays(cls, i + 1, b);
    }
}

/// A captured replacement region is never given up.
pub proof fn lemma_closed_stays(cls: Seq<MarkerClass>, i: int, s: usize, e: usize)
    ensures
        state_from(cls, i, ScanState::Closed(s, e)) == ScanState::Closed(s, e),
    decreases cls.len() - i,
{
    if 0 <= i < cls.len() {
        lemma_closed_stays(cls, i + 1, s, e);
    }
}

/// An open start marker closes at the first end marker after it, if any.
pub proof fn lemma_start_evolves(cls: Seq<MarkerClass>, i: int, s: usize)
    requires
        0 <= i <= cls.len(),
    ensures
        first_end(cls, i) < cls.len() ==> state_from(cls, i, ScanState::FoundStart(s))
            == ScanState::Closed(s, first_end(cls, i) as usize),
        first_end(cls, i) == cls.len() ==> state_from(cls, i, ScanState::FoundStart(s))
            == ScanState::FoundStart(s),
    decreases cls.len() - i,
{
    if i < cls.len() {
        if cls[i] == MarkerClass::EndMark {
            lemma_closed_stays(cls, i + 1, s, i as usize);
        } else {
            lemma_start_evolves(cls, i + 1, s);
        }
    }
}

/// How the scan from `Seeking` ends, as a function of the first anchoring
/// mark and the first end marker after it.
pub proof fn lemma_state_characterization(cls: Seq<MarkerClass>, i: int)
    requires
        0 <= i <= cls.len(),
    ensures
        ({
            let m = first_mark(cls, i);
            let r = state_from(cls, i, ScanState::Seeking);
            (m == cls.len() ==> r == ScanState::Seeking) && (m < cls.len() && cls[m]
                == MarkerClass::BareMark ==> r == ScanState::FoundBare(m as usize)) && (m
                < cls.len() && cls[m] == MarkerClass::StartMark ==> ({
                let e = first_end(cls, m + 1);
                (e < cls.len() ==> r == ScanState::Closed(m as usize, e as usize)) && (e
                    == cls.len() ==> r == ScanState::FoundStart(m as usize))
            }))
        }),
    decreases cls.len() - i,
{
    if i < cls.len() {
        if cls[i] == MarkerClass::BareMark {
            lemma_bare_stays(cls, i + 1, i as usize);
        } else if cls[i] == MarkerClass::StartMark {
            lemma_start_evolves(cls, i + 1, i as usize);
        } else {
            lemma_state_characterization(cls, i + 1);
        }
    }
}

/// The generated region as bytes.
pub fn generated_block_vec(doc: &Vec<u8>, crlf: bool) -> (r: Vec<u8>)
    ensures
        r@ == generated_block(doc@, nl_seq(crlf)),
{
    let nl = nl_vec(crlf);
    let start = start_marker_vec();
    let end = end_marker_vec();
    let mut r = concat_bytes(&start, &nl);
    if doc.len() > 0 {
        r = concat_bytes(&r, doc);
        r = concat_bytes(&r, &nl);
    }
    r = concat_bytes(&r, &end);
    r = concat_bytes(&r, &nl);
    proof {
        assert(r@ =~= generated_block(doc@, nl_seq(crlf)));
    }
    r
}

/// The concatenation of the raw lines `ls[from..to]`.
pub fn concat_line_range(ls: &Vec<Vec<u8>>, from: usize, to: usize) -> (r: Vec<u8>)
    requires
        from <= to <= ls@.len(),
    ensures
        r@ == views(ls@).subrange(from as int, to as int).flatten(),
{
    let mut r: Vec<u8> = Vec::new();
    let mut i: usize = from;
    proof {
        assert(views(ls@).subrange(from as int, from as int) =~= Seq::<Seq<u8>>::empty());
        assert(Seq::<Seq<u8>>::empty().flatten() =~= Seq::<u8>::empty());
    }
    while i < to
        invariant
            from <= i <= to <= ls@.len(),
            r@ == views(ls@).subrange(from as int, i as int).flatten(),
        decreases to - i,
    {
        r = concat_bytes(&r, &ls[i]);
        proof {
            let vs = views(ls@);
            vs.subrange(from as int, i as int).lemma_flatten_push(vs[i as int]);
            assert(vs.subrange(from as int, i + 1 as int) =~= vs.subrange(
                from as int,
                i as int,
            ).push(vs[i as int]));
        }
        i += 1;
    }
    r
}

/// Splices the documentation `doc` into `readme` at the marker anchor that
/// the scan chooses, or reports why no anchor is usable.
pub fn splice_doc(readme: &Vec<u8>, doc: &Vec<u8>, crlf: bool) -> (r: Result<
    WithWarnings<Vec<u8>>,
    TransformError,
>)
    ensures
        r is Ok <==> splice_ok(readme@),
        r matches Ok(ww) ==> ww.value@ == splice_text(readme@, doc@, crlf) && warning_views(
            ww.warnings@,
        ) == splice_warnings(readme@),
        r matches Err(e) ==> (e == TransformError::NoMarkerFound <==> splice_final_state(readme@)
            is Seeking) && (e == TransformError::UnclosedStartMarker <==> splice_final_state(
            readme@,
        ) is FoundStart),
{
    let lines = split_raw_lines(readme);
    let ghost cls = line_classes(views(lines@));
    let mut st = ScanState::Seeking;
    let mut warnings: Vec<Warning> = Vec::new();
    let mut i: usize = 0;
    proof {
        assert(warning_views(warnings@) =~= Seq::<WarningView>::empty());
    }
    while i < lines.len()
        invariant
            0 <= i <= lines@.len(),
            cls == line_classes(views(lines@)),
            cls.len() == lines@.len(),
            state_in_bounds(st, i as int),
            run_machine(cls) == machine_from(cls, i as int, st, warning_views(warnings@)),
        decreases lines@.len() - i,
    {
        let c = classify(&lines[i]);
        proof {
            assert(cls[i as int] == classify_line(views(lines@)[i as int]));
        }
        let ghost prev_ws = warning_views(warnings@);
        let ghost step = machine_step(st, c, i);
        match st {
            ScanState::Seeking => {
                match c {
                    MarkerClass::BareMark => {
                        st = ScanState::FoundBare(i);
                    },
                    MarkerClass::StartMark => {
                        st = ScanState::FoundStart(i);
                    },
                    MarkerClass::EndMark => {
                        warnings.push(Warning::UnmatchedEndMarker);
                    },
                    MarkerClass::OtherLine => {},
                }
            },
            ScanState::FoundBare(_) => {
                match c {
                    MarkerClass::OtherLine => {},
                    _ => {
                        warnings.push(Warning::MultipleMarkers);
                    },
                }
            },
            ScanState::FoundStart(s) => {
                match c {
                    MarkerClass::EndMark => {
                        st = ScanState::Closed(s, i);
                    },
                    MarkerClass::OtherLine => {},
                    _ => {
                        warnings.push(Warning::MultipleMarkers);
                    },
                }
            },
            ScanState::Closed(_, _) => {
                match c {
                    MarkerClass::OtherLine => {},
                    _ => {
                        warnings.push(Warning::MultipleMarkers);
                    },
                }
            },
        }
        proof {
            assert(st == step.0);
            assert(warning_views(warnings@) =~= prev_ws + step.1);
        }
        i += 1;
    }
    proof {
        assert(run_machine(cls) == (st, warning_views(warnings@)));
        assert(raw_lines(readme@) == views(lines@));
    }
    match st {
        ScanState::Seeking => Err(TransformError::NoMarkerFound),
        ScanState::FoundStart(_) => Err(TransformError::UnclosedStartMarker),
        ScanState::FoundBare(b) => {
            let before = concat_line_range(&lines, 0, b);
            let block = generated_block_vec(doc, crlf);
            let after = concat_line_range(&lines, b + 1, lines.len());
            let mut text = concat_bytes(&before, &block);
            text = concat_bytes(&text, &after);
            proof {
                let ls = views(lines@);
                assert(ls.subrange(0, b as int) =~= ls.take(b as int));
                assert(ls.subrange(b + 1 as int, ls.len() as int) =~= ls.skip(b + 1 as int));
            }
            Ok(WithWarnings { value: text, warnings })
        },
        ScanState::Closed(s, e) => {
            let before = concat_line_range(&lines, 0, s);
            let block = generated_block_vec(doc, crlf);
            let after = concat_line_range(&lines, e + 1, lines.len());
            let mut text = concat_bytes(&before, &block);
            text = concat_bytes(&text, &after);
            proof {
                let ls = views(lines@);
                assert(ls.subrange(0, s as int) =~= ls.take(s as int));
                assert(ls.subrange(e + 1 as int, ls.len() as int) =~= ls.skip(e + 1 as int));
            }
            Ok(WithWarnings { value: text, warnings })
        },
    }
}

} // verus!
