//! Splitting text into lines and joining lines back into text.
//!
//! A *raw line* keeps its terminating newline byte, so that the concatenation
//! of the raw lines of a text is the text itself; only the final line of a
//! text may lack the terminator.  A *content* form of a line drops one
//! trailing newline and one trailing carriage return, mirroring how textual
//! scans ignore the line ending.

use vstd::prelude::*;

verus! {

pub const NL: u8 = 10;

pub const CR: u8 = 13;

/// Accumulator form of raw-line splitting: bytes before `i` have been folded
/// into the finished lines `acc` and the open line `cur`.
pub open spec fn raw_lines_from(s: Seq<u8>, i: int, cur: Seq<u8>, acc: Seq<Seq<u8>>) -> Seq<
    Seq<u8>,
>
    decreases s.len() - i,
{
    if i < 0 || i >= s.len() {
        if cur.len() == 0 {
            acc
        } else {
            acc.push(cur)
        }
    } else if s[i] == NL {
        raw_lines_from(s, i + 1, Seq::empty(), acc.push(cur.push(NL)))
    } else {
        raw_lines_from(s, i + 1, cur.push(s[i]), acc)
    }
}

/// The raw lines of `s`: each line keeps its `\n` terminator; the last line
/// keeps none when `s` does not end in `\n`.
pub open spec fn raw_lines(s: Seq<u8>) -> Seq<Seq<u8>> {
    raw_lines_from(s, 0, Seq::empty(), Seq::empty())
}

/// The views of a vector of byte vectors.
pub open spec fn views(ls: Seq<Vec<u8>>) -> Seq<Seq<u8>> {
    ls.map_values(|l: Vec<u8>| l@)
}

/// A line with one trailing `\n` and then one trailing `\r` removed.
pub open spec fn content_of(l: Seq<u8>) -> Seq<u8> {
    let a = if l.len() > 0 && l[l.len() - 1] == NL {
        l.take(l.len() - 1)
    } else {
        l
    };
    if a.len() > 0 && a[a.len() - 1] == CR {
        a.take(a.len() - 1)
    } else {
        a
    }
}

/// Accumulator form of joining: lines before `i` already stand in `acc`,
/// separated by `sep`.
pub open spec fn join_from(ls: Seq<Seq<u8>>, i: int, acc: Seq<u8>, sep: Seq<u8>) -> Seq<u8>
    decreases ls.len() - i,
{
    if i < 0 || i >= ls.len() {
        acc
    } else {
        join_from(ls, i + 1, acc + sep + ls[i], sep)
    }
}

/// The lines of `ls` joined with the separator `sep`, with no trailing
/// separator.
pub open spec fn join(ls: Seq<Seq<u8>>, sep: Seq<u8>) -> Seq<u8> {
    if ls.len() == 0 {
        Seq::empty()
    } else {
        join_from(ls, 1, ls[0], sep)
    }
}

/// Splits `v` into its raw lines.
pub fn split_raw_lines(v: &Vec<u8>) -> (r: Vec<Vec<u8>>)
    ensures
        views(r@) == raw_lines(v@),
{
    let mut out: Vec<Vec<u8>> = Vec::new();
    let mut cur: Vec<u8> = Vec::new();
    let mut i: usize = 0;
    proof {
        assert(views(out@) =~= Seq::<Seq<u8>>::empty());
    }
    while i < v.len()
        invariant
            0 <= i <= v@.len(),
            raw_lines(v@) == raw_lines_from(v@, i as int, cur@, views(out@)),
        decreases v@.len() - i,
    {
        let ghost prev_out = views(out@);
        let ghost prev_cur = cur@;
        let b = v[i];
        if b == NL {
            cur.push(NL);
            out.push(cur);
            cur = Vec::new();
            proof {
                assert(views(out@) =~= prev_out.push(prev_cur.push(NL)));
            }
        } else {
            cur.push(b);
        }
        i += 1;
    }
    if cur.len() > 0 {
        let ghost prev_out = views(out@);
        let ghost prev_cur = cur@;
        out.push(cur);
        proof {
            assert(views(out@) =~= prev_out.push(prev_cur));
        }
    }
    out
}

/// Joins `ls[from..]` with the separator, mirroring `join`.
pub fn join_lines(ls: &Vec<Vec<u8>>, sep: &Vec<u8>) -> (r: Vec<u8>)
    ensures
        r@ == join(views(ls@), sep@),
{
    let mut out: Vec<u8> = Vec::new();
    if ls.len() == 0 {
        return out;
    }
    out = concat_bytes(&out, &ls[0]);
    let mut i: usize = 1;
    while i < ls.len()
        invariant
            1 <= i <= ls@.len(),
            join(views(ls@), sep@) == join_from(views(ls@), i as int, out@, sep@),
        decreases ls@.len() - i,
    {
        out = concat_bytes(&out, sep);
        out = concat_bytes(&out, &ls[i]);
        i += 1;
    }
    out
}

/// The concatenation of two byte vectors, as a fresh vector.
pub fn concat_bytes(a: &Vec<u8>, b: &Vec<u8>) -> (r: Vec<u8>)
    ensures
        r@ == a@ + b@,
{
    let mut r: Vec<u8> = Vec::new();
    let mut i: usize = 0;
    while i < a.len()
        invariant
            0 <= i <= a@.len(),
            r@ =~= a@.take(i as int),
        decreases a@.len() - i,
    {
        r.push(a[i]);
        i += 1;
        proof {
            assert(r@ =~= a@.take(i as int));
        }
    }
    let mut j: usize = 0;
    while j < b.len()
        invariant
            0 <= j <= b@.len(),
            r@ =~= a@ + b@.take(j as int),
        decreases b@.len() - j,
    {
        r.push(b[j]);
        j += 1;
        proof {
            assert(r@ =~= a@ + b@.take(j as int));
        }
    }
    proof {
        assert(r@ =~= a@ + b@);
    }
    r
}

/// The content forms of a sequence of lines.
pub open spec fn contents_of(ls: Seq<Seq<u8>>) -> Seq<Seq<u8>> {
    ls.map_values(|l: Seq<u8>| content_of(l))
}

/// The content forms of the raw lines of a vector of lines.
pub fn content_lines(ls: &Vec<Vec<u8>>) -> (r: Vec<Vec<u8>>)
    ensures
        views(r@) == contents_of(views(ls@)),
{
    let mut out: Vec<Vec<u8>> = Vec::new();
    let mut i: usize = 0;
    while i < ls.len()
        invariant
            0 <= i <= ls@.len(),
            views(out@) =~= contents_of(views(ls@).take(i as int)),
        decreases ls@.len() - i,
    {
        let ghost prev = views(out@);
        out.push(line_content(&ls[i]));
        i += 1;
        proof {
            assert(views(out@) =~= prev.push(content_of(views(ls@)[i - 1])));
            assert(views(out@) =~= contents_of(views(ls@).take(i as int)));
        }
    }
    proof {
        assert(views(ls@).take(ls@.len() as int) =~= views(ls@));
    }
    out
}

/// A byte sequence with no newline byte anywhere.
pub open spec fn no_nl(l: Seq<u8>) -> bool {
    forall|k: int| 0 <= k < l.len() ==> l[k] != NL
}

/// A well-formed raw line: non-empty, with a newline at most as its final
/// byte.
pub open spec fn wf_line(l: Seq<u8>) -> bool {
    l.len() > 0 && forall|k: int| 0 <= k < l.len() - 1 ==> l[k] != NL
}

/// A terminated raw line: well-formed and closed by a newline byte.
pub open spec fn terminated(l: Seq<u8>) -> bool {
    wf_line(l) && l[l.len() - 1] == NL
}

/// Scanning a concatenation from the start of its second part is scanning
/// the second part.
pub proof fn lemma_scan_shift(x: Seq<u8>, y: Seq<u8>, i: int, cur: Seq<u8>, acc: Seq<Seq<u8>>)
    requires
        0 <= i <= y.len(),
    ensures
        raw_lines_from(x + y, x.len() + i, cur, acc) == raw_lines_from(y, i, cur, acc),
    decreases y.len() - i,
{
    if i >= y.len() {
        assert(x.len() + i >= (x + y).len());
    } else {
        assert((x + y)[x.len() + i] == y[i]);
        if y[i] == NL {
            lemma_scan_shift(x, y, i + 1, Seq::empty(), acc.push(cur.push(NL)));
        } else {
            lemma_scan_shift(x, y, i + 1, cur.push(y[i]), acc);
        }
    }
}

/// Scanning a terminated line followed by anything files the line into the
/// accumulator and goes on with the rest.
pub proof fn lemma_scan_terminated(l: Seq<u8>, y: Seq<u8>, j: int, acc: Seq<Seq<u8>>)
    requires
        terminated(l),
        0 <= j < l.len(),
    ensures
        raw_lines_from(l + y, j, l.take(j), acc) == raw_lines_from(y, 0, Seq::empty(), acc.push(l)),
    decreases l.len() - j,
{
    assert((l + y)[j] == l[j]);
    if j == l.len() - 1 {
        assert(l[j] == NL);
        assert(l.take(j).push(NL) =~= l);
        lemma_scan_shift(l, y, 0, Seq::empty(), acc.push(l));
        assert(raw_lines_from(l + y, j, l.take(j), acc) == raw_lines_from(
            l + y,
            l.len() as int + 0,
            Seq::empty(),
            acc.push(l),
        ));
    } else {
        assert(l[j] != NL);
        assert(l.take(j).push(l[j]) =~= l.take(j + 1));
        lemma_scan_terminated(l, y, j + 1, acc);
    }
}

/// Scanning a newline-free tail pushes it as the final line, or nothing when
/// it is empty.
pub proof fn lemma_scan_tail(l: Seq<u8>, j: int, acc: Seq<Seq<u8>>)
    requires
        no_nl(l),
        0 <= j <= l.len(),
    ensures
        raw_lines_from(l, j, l.take(j), acc) == if l.len() == 0 {
            acc
        } else {
            acc.push(l)
        },
    decreases l.len() - j,
{
    if j >= l.len() {
        assert(l.take(j) =~= l);
        if l.len() == 0 {
            assert(l.take(j).len() == 0);
        }
    } else {
        assert(l[j] != NL);
        assert(l.take(j).push(l[j]) =~= l.take(j + 1));
        lemma_scan_tail(l, j + 1, acc);
    }
}

/// Splitting the concatenation of well-formed lines gives those lines back:
/// every line but the last must be terminated.
pub proof fn lemma_resplit_from(ls: Seq<Seq<u8>>, acc: Seq<Seq<u8>>)
    requires
        forall|j: int| 0 <= j < ls.len() - 1 ==> terminated(#[trigger] ls[j]),
        ls.len() > 0 ==> wf_line(ls[ls.len() - 1]),
    ensures
        raw_lines_from(ls.flatten(), 0, Seq::empty(), acc) == acc + ls,
    decreases ls.len(),
{
    if ls.len() == 0 {
        assert(ls.flatten().len() == 0);
        assert(acc + ls =~= acc);
    } else if ls.len() == 1 && !terminated(ls[0]) {
        assert(ls.flatten() =~= ls[0] + ls.drop_first().flatten());
        assert(ls.drop_first().flatten().len() == 0);
        assert(ls.flatten() =~= ls[0]);
        assert(no_nl(ls[0]));
        assert(ls[0].take(0) =~= Seq::<u8>::empty());
        lemma_scan_tail(ls[0], 0, acc);
        assert(acc.push(ls[0]) =~= acc + ls);
    } else {
        let rest = ls.drop_first();
        assert(terminated(ls[0])) by {
            if ls.len() == 1 {
            } else {
                assert(ls[0] == ls[0]);
            }
        }
        assert(ls.flatten() == ls[0] + rest.flatten());
        assert(ls[0].take(0) =~= Seq::<u8>::empty());
        lemma_scan_terminated(ls[0], rest.flatten(), 0, acc);
        assert(forall|j: int| 0 <= j < rest.len() - 1 ==> terminated(#[trigger] rest[j]));
        assert(rest.len() > 0 ==> wf_line(rest[rest.len() - 1]));
        lemma_resplit_from(rest, acc.push(ls[0]));
        assert(acc.push(ls[0]) + rest =~= acc + ls);
    }
}

/// `raw_lines` undoes the flattening of well-formed lines.
pub proof fn lemma_resplit(ls: Seq<Seq<u8>>)
    requires
        forall|j: int| 0 <= j < ls.len() - 1 ==> terminated(#[trigger] ls[j]),
        ls.len() > 0 ==> wf_line(ls[ls.len() - 1]),
    ensures
        raw_lines(ls.flatten()) == ls,
{
    lemma_resplit_from(ls, Seq::empty());
    assert(Seq::<Seq<u8>>::empty() + ls =~= ls);
}

/// Structural facts about the raw lines of any text, stated over the
/// accumulator form of the scan.
pub proof fn lemma_raw_from_props(s: Seq<u8>, i: int, cur: Seq<u8>, acc: Seq<Seq<u8>>)
    requires
        0 <= i <= s.len(),
        no_nl(cur),
        forall|j: int| 0 <= j < acc.len() ==> terminated(#[trigger] acc[j]),
    ensures
        ({
            let r = raw_lines_from(s, i, cur, acc);
            (forall|j: int| 0 <= j < r.len() ==> wf_line(#[trigger] r[j])) && (forall|j: int|
                0 <= j < r.len() - 1 ==> terminated(#[trigger] r[j])) && ((i == s.len() && cur.len()
                == 0) || (i < s.len() && s[s.len() - 1] == NL) ==> forall|j: int|
                0 <= j < r.len() ==> terminated(#[trigger] r[j])) && r.flatten() == acc.flatten()
                + cur + s.subrange(i, s.len() as int)
        }),
    decreases s.len() - i,
{
    broadcast use Seq::lemma_flatten_push;

    if i >= s.len() {
        let r = raw_lines_from(s, i, cur, acc);
        assert(s.subrange(i, s.len() as int) =~= Seq::<u8>::empty());
        if cur.len() == 0 {
            assert(r == acc);
            assert(r.flatten() =~= acc.flatten() + cur + s.subrange(i, s.len() as int));
        } else {
            assert(r == acc.push(cur));
            assert(wf_line(cur));
            assert(r.flatten() =~= acc.flatten() + cur + s.subrange(i, s.len() as int));
        }
    } else if s[i] == NL {
        let line = cur.push(NL);
        assert(terminated(line));
        lemma_raw_from_props(s, i + 1, Seq::empty(), acc.push(line));
        assert(acc.push(line).flatten() =~= acc.flatten() + line);
        assert(acc.flatten() + line + Seq::<u8>::empty() + s.subrange(i + 1, s.len() as int)
            =~= acc.flatten() + cur + s.subrange(i, s.len() as int));
    } else {
        assert(no_nl(cur.push(s[i])));
        lemma_raw_from_props(s, i + 1, cur.push(s[i]), acc);
        assert(acc.flatten() + cur.push(s[i]) + s.subrange(i + 1, s.len() as int) =~= acc.flatten()
            + cur + s.subrange(i, s.len() as int));
    }
}

/// Structural facts about `raw_lines`: every line is well-formed, every line
/// but the last is terminated, the last is terminated too when the text ends
/// in a newline, and the lines flatten back to the text.
pub proof fn lemma_raw_lines_props(s: Seq<u8>)
    ensures
        forall|j: int| 0 <= j < raw_lines(s).len() ==> wf_line(#[trigger] raw_lines(s)[j]),
        forall|j: int| 0 <= j < raw_lines(s).len() - 1 ==> terminated(#[trigger] raw_lines(s)[j]),
        s.len() > 0 && s[s.len() - 1] == NL ==> forall|j: int|
            0 <= j < raw_lines(s).len() ==> terminated(#[trigger] raw_lines(s)[j]),
        raw_lines(s).flatten() == s,
{
    lemma_raw_from_props(s, 0, Seq::empty(), Seq::empty());
    assert(Seq::<Seq<u8>>::empty().flatten() =~= Seq::<u8>::empty());
    assert(Seq::<Seq<u8>>::empty().flatten() + Seq::<u8>::empty() + s.subrange(0, s.len() as int)
        =~= s);
}

/// Flattening sequences of non-empty lines gives at least one byte per line.
pub proof fn lemma_flatten_count(ls: Seq<Seq<u8>>)
    requires
        forall|j: int| 0 <= j < ls.len() ==> #[trigger] ls[j].len() >= 1,
    ensures
        ls.flatten().len() >= ls.len(),
    decreases ls.len(),
{
    if ls.len() > 0 {
        let rest = ls.drop_first();
        assert(forall|j: int| 0 <= j < rest.len() ==> #[trigger] rest[j].len() >= 1);
        lemma_flatten_count(rest);
        assert(ls.flatten() == ls[0] + rest.flatten());
    }
}

/// The content form of one raw line.
pub fn line_content(l: &Vec<u8>) -> (r: Vec<u8>)
    ensures
        r@ == content_of(l@),
{
    let mut hi: usize = l.len();
    if hi > 0 && l[hi - 1] == NL {
        hi -= 1;
    }
    if hi > 0 && l[hi - 1] == CR {
        hi -= 1;
    }
    let r = crate::bytes::subvec(l, 0, hi);
    proof {
        assert(r@ =~= content_of(l@));
    }
    r
}

} // verus!
