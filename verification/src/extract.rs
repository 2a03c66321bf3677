//! The documentation extractor: isolates the leading inner-documentation
//! block of a source file, tags hidden example lines, and renders the block
//! as text.
//!
//! Only the leading block counts: scanning stops at the first line that is
//! neither an inner-documentation line, nor blank, nor an attribute line.
//! Inside fenced code blocks, a line starting with `#` followed by a space
//! or nothing is a hidden example line, dropped from the rendered text
//! unless hidden lines are asked for.

use vstd::prelude::*;

verus! {

use crate::bytes::{ascii_bytes, trimmed, starts_with, lit, trim, has_prefix, subvec};
use crate::lines::{raw_lines, views, split_raw_lines, content_lines, join, join_lines};
use crate::markers::nl_seq;

/// Extraction fails only when the source has no leading documentation block.
#[derive(Debug, Clone, Copy, PartialEq, Eq, Structural)]
pub enum ExtractError {
    NoDocumentation,
}

/// The inner-documentation prefix of a source line.
pub open spec fn doc_prefix() -> Seq<u8> {
    ascii_bytes("//!"@)
}

/// The opening of a fenced code block, possibly indented.
pub open spec fn fence_prefix() -> Seq<u8> {
    ascii_bytes("```"@)
}

/// Whether a source line carries inner documentation.
pub open spec fn is_doc_line(c: Seq<u8>) -> bool {
    starts_with(c, doc_prefix())
}

/// The documentation text of an inner-documentation line: the prefix and at
/// most one following space are stripped.
pub open spec fn doc_text(c: Seq<u8>) -> Seq<u8> {
    let rest = c.skip(3);
    if rest.len() > 0 && rest[0] == 32 {
        rest.skip(1)
    } else {
        rest
    }
}

/// A line of nothing but whitespace.
pub open spec fn is_blank_line(c: Seq<u8>) -> bool {
    trimmed(c).len() == 0
}

/// An attribute line; such a line does not end the leading block.
pub open spec fn is_attr_line(c: Seq<u8>) -> bool {
    trimmed(c).len() > 0 && trimmed(c)[0] == 35
}

/// The leading-block scan: documentation lines are collected, blank and
/// attribute lines are passed over, and the first other line stops the scan.
pub open spec fn collect_doc(ls: Seq<Seq<u8>>, i: int, acc: Seq<Seq<u8>>) -> Seq<Seq<u8>>
    decreases ls.len() - i,
{
    if i < 0 || i >= ls.len() {
        acc
    } else if is_doc_line(ls[i]) {
        collect_doc(ls, i + 1, acc.push(doc_text(ls[i])))
    } else if is_blank_line(ls[i]) || is_attr_line(ls[i]) {
        collect_doc(ls, i + 1, acc)
    } else {
        acc
    }
}

/// The content lines of a source text.
pub open spec fn source_content_lines(src: Seq<u8>) -> Seq<Seq<u8>> {
    crate::lines::contents_of(raw_lines(src))
}

/// The documentation texts of the leading block of a source text, in order.
pub open spec fn doc_texts(src: Seq<u8>) -> Seq<Seq<u8>> {
    collect_doc(source_content_lines(src), 0, Seq::empty())
}

/// Whether a documentation text toggles a code fence.
pub open spec fn is_fence_text(t: Seq<u8>) -> bool {
    starts_with(trimmed(t), fence_prefix())
}

/// The hidden-line form: a `#` alone or followed by a space.
pub open spec fn is_hidden_text(t: Seq<u8>) -> bool {
    t.len() > 0 && t[0] == 35 && (t.len() == 1 || t[1] == 32)
}

/// The fence-tracking tagger: a text is hidden only inside a fence, and a
/// fence line itself is never hidden.
pub open spec fn tag_from(ts: Seq<Seq<u8>>, i: int, fence: bool, acc: Seq<(Seq<u8>, bool)>) -> Seq<
    (Seq<u8>, bool),
>
    decreases ts.len() - i,
{
    if i < 0 || i >= ts.len() {
        acc
    } else if is_fence_text(ts[i]) {
        tag_from(ts, i + 1, !fence, acc.push((ts[i], false)))
    } else {
        tag_from(ts, i + 1, fence, acc.push((ts[i], fence && is_hidden_text(ts[i]))))
    }
}

/// The tagged documentation block of a source text.
pub open spec fn tagged_doc(src: Seq<u8>) -> Seq<(Seq<u8>, bool)> {
    tag_from(doc_texts(src), 0, false, Seq::empty())
}

/// The texts kept by rendering: hidden ones only when asked for.
pub open spec fn kept_from(
    tls: Seq<(Seq<u8>, bool)>,
    i: int,
    show_hidden: bool,
    acc: Seq<Seq<u8>>,
) -> Seq<Seq<u8>>
    decreases tls.len() - i,
{
    if i < 0 || i >= tls.len() {
        acc
    } else if show_hidden || !tls[i].1 {
        kept_from(tls, i + 1, show_hidden, acc.push(tls[i].0))
    } else {
        kept_from(tls, i + 1, show_hidden, acc)
    }
}

/// The rendering of a tagged block: the kept texts joined by the chosen
/// newline, with no trailing newline.
pub open spec fn spec_render(tls: Seq<(Seq<u8>, bool)>, show_hidden: bool, crlf: bool) -> Seq<u8> {
    join(kept_from(tls, 0, show_hidden, Seq::empty()), nl_seq(crlf))
}

/// The rendered leading documentation of a source text.
pub open spec fn rendered_doc(src: Seq<u8>, show_hidden: bool, crlf: bool) -> Seq<u8> {
    spec_render(tagged_doc(src), show_hidden, crlf)
}

/// One extracted documentation line, tagged hidden when it is a hidden
/// example line of a fenced block.
pub struct DocLine {
    pub text: Vec<u8>,
    pub hidden: bool,
}

impl View for DocLine {
    type V = (Seq<u8>, bool);

    open spec fn view(&self) -> (Seq<u8>, bool) {
        (self.text@, self.hidden)
    }
}

/// The views of a vector of documentation lines.
pub open spec fn doc_line_views(ls: Seq<DocLine>) -> Seq<(Seq<u8>, bool)> {
    ls.map_values(|d: DocLine| d@)
}

/// The extracted leading documentation block: its lines in source order.
pub struct DocBlock {
    pub lines: Vec<DocLine>,
}

impl View for DocBlock {
    type V = Seq<(Seq<u8>, bool)>;

    open spec fn view(&self) -> Seq<(Seq<u8>, bool)> {
        doc_line_views(self.lines@)
    }
}

/// Whether a content line carries inner documentation.
fn is_doc_line_x(c: &Vec<u8>) -> (r: bool)
    ensures
        r == is_doc_line(c@),
{
    proof {
        reveal_strlit("//!");
    }
    let p = lit("//!");
    has_prefix(c, &p)
}

/// The documentation text of an inner-documentation line.
fn doc_text_x(c: &Vec<u8>) -> (r: Vec<u8>)
    requires
        is_doc_line(c@),
    ensures
        r@ == doc_text(c@),
{
    proof {
        reveal_strlit("//!");
    }
    let start: usize = if c.len() > 3 && c[3] == 32 {
        4
    } else {
        3
    };
    let r = subvec(c, start, c.len());
    proof {
        assert(r@ =~= doc_text(c@));
    }
    r
}

/// Extracts the leading inner-documentation block of `source`, tagging
/// hidden example lines; fails exactly when the source has no such block.
pub fn extract_doc_block(source: &Vec<u8>) -> (r: Result<DocBlock, ExtractError>)
    ensures
        r is Ok <==> doc_texts(source@).len() > 0,
        r matches Ok(d) ==> d@ == tagged_doc(source@),
        r is Err ==> (r matches Err(e) && e == ExtractError::NoDocumentation),
{
    let rl = split_raw_lines(source);
    let cl = content_lines(&rl);
    let ghost clv = source_content_lines(source@);
    proof {
        assert(views(cl@) == clv);
    }
    let mut texts: Vec<Vec<u8>> = Vec::new();
    let mut i: usize = 0;
    let mut stopped = false;
    proof {
        assert(views(texts@) =~= Seq::<Seq<u8>>::empty());
    }
    while i < cl.len() && !stopped
        invariant
            0 <= i <= cl@.len(),
            clv == views(cl@),
            doc_texts(source@) == if stopped {
                views(texts@)
            } else {
                collect_doc(clv, i as int, views(texts@))
            },
        decreases cl@.len() - i + if stopped {
            0int
        } else {
            1int
        },
    {
        let ghost prev = views(texts@);
        let line = &cl[i];
        if is_doc_line_x(line) {
            texts.push(doc_text_x(line));
            i += 1;
            proof {
                assert(views(texts@) =~= prev.push(doc_text(clv[i - 1])));
            }
        } else {
            let t = trim(line);
            if t.len() == 0 || t[0] == 35 {
                i += 1;
            } else {
                stopped = true;
            }
        }
    }
    if texts.len() == 0 {
        proof {
            assert(doc_texts(source@).len() == 0);
        }
        return Err(ExtractError::NoDocumentation);
    }
    // Tag the collected texts, tracking fence state.
    let ghost tv = doc_texts(source@);
    proof {
        assert(tv == views(texts@));
    }
    let fence_lit = {
        proof {
            reveal_strlit("```");
        }
        lit("```")
    };
    let mut out: Vec<DocLine> = Vec::new();
    let mut fence = false;
    let mut j: usize = 0;
    proof {
        assert(doc_line_views(out@) =~= Seq::<(Seq<u8>, bool)>::empty());
    }
    while j < texts.len()
        invariant
            0 <= j <= texts@.len(),
            tv == views(texts@),
            fence_lit@ == fence_prefix(),
            tagged_doc(source@) == tag_from(tv, j as int, fence, doc_line_views(out@)),
        decreases texts@.len() - j,
    {
        let ghost prev = doc_line_views(out@);
        let t = &texts[j];
        let tt = trim(t);
        let is_fence = has_prefix(&tt, &fence_lit);
        if is_fence {
            out.push(DocLine { text: subvec(t, 0, t.len()), hidden: false });
            fence = !fence;
            proof {
                assert(doc_line_views(out@) =~~= prev.push((tv[j as int], false)));
            }
        } else {
            let hid = fence && t.len() > 0 && t[0] == 35 && (t.len() == 1 || t[1] == 32);
            proof {
                assert(hid == (fence && is_hidden_text(tv[j as int])));
            }
            out.push(DocLine { text: subvec(t, 0, t.len()), hidden: hid });
            proof {
                assert(doc_line_views(out@) =~~= prev.push((tv[j as int], hid)));
            }
        }
        j += 1;
    }
    Ok(DocBlock { lines: out })
}

/// Renders a documentation block: kept lines joined by the chosen newline.
pub fn render_doc_block(d: &DocBlock, show_hidden_doc: bool, crlf: bool) -> (r: Vec<u8>)
    ensures
        r@ == spec_render(d@, show_hidden_doc, crlf),
{
    let mut kept: Vec<Vec<u8>> = Vec::new();
    let mut i: usize = 0;
    proof {
        assert(views(kept@) =~= Seq::<Seq<u8>>::empty());
    }
    while i < d.lines.len()
        invariant
            0 <= i <= d.lines@.len(),
            kept_from(d@, 0, show_hidden_doc, Seq::empty()) == kept_from(
                d@,
                i as int,
                show_hidden_doc,
                views(kept@),
            ),
        decreases d.lines@.len() - i,
    {
        let ghost prev = views(kept@);
        let line = &d.lines[i];
        if show_hidden_doc || !line.hidden {
            kept.push(subvec(&line.text, 0, line.text.len()));
            proof {
                assert(views(kept@) =~~= prev.push(d@[i as int].0));
            }
        }
        i += 1;
    }
    join_lines(&kept, &crate::markers::nl_vec(crlf))
}

/// Extracts and renders the leading inner documentation of `source`: the
/// visible lines (all lines, when hidden ones are asked for) joined by the
/// chosen newline.  Fails exactly when the source has no leading block.
pub fn extract_inner_doc(source: &Vec<u8>, show_hidden_doc: bool, crlf: bool) -> (r: Result<
    Vec<u8>,
    ExtractError,
>)
    ensures
        r is Ok <==> doc_texts(source@).len() > 0,
        r matches Ok(t) ==> t@ == rendered_doc(source@, show_hidden_doc, crlf),
        r is Err ==> (r matches Err(e) && e == ExtractError::NoDocumentation),
{
    match extract_doc_block(source) {
        Ok(block) => Ok(render_doc_block(&block, show_hidden_doc, crlf)),
        Err(e) => Err(e),
    }
}

} // verus!
