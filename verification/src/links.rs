//! The intra-link resolver: rewrites Markdown link destinations of the
//! forms `crate::…` and `::std::…` (also `::core::…`, `::alloc::…`) into
//! external documentation URLs.
//!
//! A crate link is resolved by looking the final path segment up in the
//! symbol table; the symbol's kind chooses the URL's file-name convention.
//! An unknown symbol or an unknown standard-library root leaves the link
//! unchanged and adds a warning.  Every other destination passes through
//! untouched.  Reference-style link definitions are not recognized and
//! pass through silently.

use vstd::prelude::*;

verus! {

use crate::bytes::{ascii_bytes, lit, subvec, bytes_eq, has_prefix, starts_with};
use crate::lines::{raw_lines, views, join, join_lines, concat_bytes, split_raw_lines};
use crate::symbols::{SymbolKind, SymbolTable, spec_lookup};
use crate::warnings::{Warning, WarningView, warning_views, WithWarnings};

pub open spec fn crate_prefix() -> Seq<u8> {
    ascii_bytes("crate::"@)
}

pub open spec fn colon2() -> Seq<u8> {
    ascii_bytes("::"@)
}

pub open spec fn slash() -> Seq<u8> {
    ascii_bytes("/"@)
}

pub open spec fn docs_rs_prefix() -> Seq<u8> {
    ascii_bytes("https://docs.rs/"@)
}

pub open spec fn latest_infix() -> Seq<u8> {
    ascii_bytes("/latest/"@)
}

pub open spec fn std_doc_prefix() -> Seq<u8> {
    ascii_bytes("https://doc.rust-lang.org/"@)
}

/// Splits a path on `::`, keeping empty segments; there is always at least
/// one segment.
pub open spec fn seg_from(s: Seq<u8>, i: int, cur: Seq<u8>, acc: Seq<Seq<u8>>) -> Seq<Seq<u8>>
    decreases s.len() - i,
{
    if i < 0 || i >= s.len() {
        acc.push(cur)
    } else if i + 1 < s.len() && s[i] == 58 && s[i + 1] == 58 {
        seg_from(s, i + 2, Seq::empty(), acc.push(cur))
    } else {
        seg_from(s, i + 1, cur.push(s[i]), acc)
    }
}

pub open spec fn path_segments(s: Seq<u8>) -> Seq<Seq<u8>> {
    seg_from(s, 0, Seq::empty(), Seq::empty())
}

/// A crate name as it appears in a documentation path: dashes become
/// underscores.
pub open spec fn undash(name: Seq<u8>) -> Seq<u8> {
    name.map_values(|b: u8| if b == 45 { 95u8 } else { b })
}

/// The file-name convention the documentation host uses for each kind.
pub open spec fn kind_file(kind: SymbolKind, name: Seq<u8>) -> Seq<u8> {
    match kind {
        SymbolKind::Module => name + ascii_bytes("/index.html"@),
        SymbolKind::Struct => ascii_bytes("struct."@) + name + ascii_bytes(".html"@),
        SymbolKind::Enum => ascii_bytes("enum."@) + name + ascii_bytes(".html"@),
        SymbolKind::Trait => ascii_bytes("trait."@) + name + ascii_bytes(".html"@),
        SymbolKind::Function => ascii_bytes("fn."@) + name + ascii_bytes(".html"@),
        SymbolKind::Macro => ascii_bytes("macro."@) + name + ascii_bytes(".html"@),
        SymbolKind::Const => ascii_bytes("constant."@) + name + ascii_bytes(".html"@),
        SymbolKind::Static => ascii_bytes("static."@) + name + ascii_bytes(".html"@),
        SymbolKind::TypeAlias => ascii_bytes("type."@) + name + ascii_bytes(".html"@),
        SymbolKind::Union => ascii_bytes("union."@) + name + ascii_bytes(".html"@),
    }
}

/// The module directories of a path: every segment but the last, each
/// closed by a slash.
pub open spec fn mods_path(segs: Seq<Seq<u8>>) -> Seq<u8> {
    if segs.len() <= 1 {
        Seq::empty()
    } else {
        join(segs.take(segs.len() - 1), slash()) + slash()
    }
}

/// The documentation-host URL of a crate symbol.
pub open spec fn crate_url(crate_name: Seq<u8>, segs: Seq<Seq<u8>>, kind: SymbolKind) -> Seq<u8> {
    docs_rs_prefix() + crate_name + latest_infix() + undash(crate_name) + slash() + mods_path(segs)
        + kind_file(kind, segs[segs.len() - 1])
}

/// The generic URL of a standard-library path.
pub open spec fn std_url(segs: Seq<Seq<u8>>) -> Seq<u8> {
    std_doc_prefix() + join(segs, slash())
}

/// Whether a root names a standard-library crate.
pub open spec fn is_std_root(root: Seq<u8>) -> bool {
    root == ascii_bytes("std"@) || root == ascii_bytes("core"@) || root == ascii_bytes("alloc"@)
}

/// What one link destination becomes, with the warnings that arise.
pub open spec fn resolve_dest(
    dest: Seq<u8>,
    tbl: Seq<(Seq<u8>, SymbolKind, bool)>,
    crate_name: Seq<u8>,
) -> (Seq<u8>, Seq<WarningView>) {
    if starts_with(dest, crate_prefix()) {
        let segs = path_segments(dest.skip(7));
        match spec_lookup(tbl, segs[segs.len() - 1]) {
            Some(en) => (crate_url(crate_name, segs, en.1), Seq::empty()),
            None => (dest, seq![WarningView::UnresolvedIntraLink(dest)]),
        }
    } else if starts_with(dest, colon2()) {
        let segs = path_segments(dest.skip(2));
        if is_std_root(segs[0]) {
            (std_url(segs), Seq::empty())
        } else {
            (dest, seq![WarningView::UnresolvedIntraLink(dest)])
        }
    } else {
        (dest, Seq::empty())
    }
}

/// First index at or after `j` holding a closing parenthesis, or the length.
pub open spec fn find_close(s: Seq<u8>, j: int) -> int
    decreases s.len() - j,
{
    if j < 0 || j >= s.len() {
        s.len() as int
    } else if s[j] == 41 {
        j
    } else {
        find_close(s, j + 1)
    }
}

/// The link-rewriting scan of one line: bytes outside `](…)` groups are
/// copied; each parenthesized destination is resolved.
pub open spec fn rewrite_from(
    line: Seq<u8>,
    i: int,
    tbl: Seq<(Seq<u8>, SymbolKind, bool)>,
    crate_name: Seq<u8>,
    out: Seq<u8>,
    ws: Seq<WarningView>,
) -> (Seq<u8>, Seq<WarningView>)
    decreases line.len() - i,
{
    if i < 0 || i >= line.len() {
        (out, ws)
    } else if i + 1 < line.len() && line[i] == 93 && line[i + 1] == 40 {
        let close = find_close(line, i + 2);
        if close >= line.len() {
            (out + line.subrange(i, line.len() as int), ws)
        } else {
            let dest = line.subrange(i + 2, close);
            let rd = resolve_dest(dest, tbl, crate_name);
            let next = if close + 1 < i + 3 {
                i + 3
            } else {
                close + 1
            };
            rewrite_from(
                line,
                next,
                tbl,
                crate_name,
                out + line.subrange(i, i + 2) + rd.0 + seq![41u8],
                ws + rd.1,
            )
        }
    } else {
        rewrite_from(line, i + 1, tbl, crate_name, out.push(line[i]), ws)
    }
}

/// What one line becomes, with its warnings.
pub open spec fn spec_resolve_line(
    line: Seq<u8>,
    tbl: Seq<(Seq<u8>, SymbolKind, bool)>,
    crate_name: Seq<u8>,
) -> (Seq<u8>, Seq<WarningView>) {
    rewrite_from(line, 0, tbl, crate_name, Seq::empty(), Seq::empty())
}

/// The line-by-line resolution of a whole rendered documentation text.
pub open spec fn resolve_doc_from(
    ls: Seq<Seq<u8>>,
    i: int,
    tbl: Seq<(Seq<u8>, SymbolKind, bool)>,
    crate_name: Seq<u8>,
    out: Seq<u8>,
    ws: Seq<WarningView>,
) -> (Seq<u8>, Seq<WarningView>)
    decreases ls.len() - i,
{
    if i < 0 || i >= ls.len() {
        (out, ws)
    } else {
        let r = spec_resolve_line(ls[i], tbl, crate_name);
        resolve_doc_from(ls, i + 1, tbl, crate_name, out + r.0, ws + r.1)
    }
}

/// What a rendered documentation text becomes, with its ordered warnings.
pub open spec fn spec_resolve_doc(
    doc: Seq<u8>,
    tbl: Seq<(Seq<u8>, SymbolKind, bool)>,
    crate_name: Seq<u8>,
) -> (Seq<u8>, Seq<WarningView>) {
    resolve_doc_from(raw_lines(doc), 0, tbl, crate_name, Seq::empty(), Seq::empty())
}

/// First closing parenthesis at or after `j`.
fn find_close_x(s: &Vec<u8>, j: usize) -> (r: usize)
    requires
        j <= s@.len(),
    ensures
        r as int == find_close(s@, j as int),
        j <= r <= s@.len(),
{
    let mut k = j;
    while k < s.len() && s[k] != 41
        invariant
            j <= k <= s@.len(),
            find_close(s@, j as int) == find_close(s@, k as int),
        decreases s@.len() - k,
    {
        k += 1;
    }
    k
}

/// Splits a path on `::`.
fn split_path_x(p: &Vec<u8>) -> (r: Vec<Vec<u8>>)
    ensures
        views(r@) == path_segments(p@),
        r@.len() >= 1,
{
    let mut acc: Vec<Vec<u8>> = Vec::new();
    let mut cur: Vec<u8> = Vec::new();
    let mut i: usize = 0;
    proof {
        assert(views(acc@) =~= Seq::<Seq<u8>>::empty());
    }
    while i < p.len()
        invariant
            0 <= i <= p@.len(),
            path_segments(p@) == seg_from(p@, i as int, cur@, views(acc@)),
        decreases p@.len() - i,
    {
        let ghost prev_acc = views(acc@);
        let ghost prev_cur = cur@;
        if i + 1 < p.len() && p[i] == 58 && p[i + 1] == 58 {
            acc.push(cur);
            cur = Vec::new();
            i += 2;
            proof {
                assert(views(acc@) =~= prev_acc.push(prev_cur));
            }
        } else {
            cur.push(p[i]);
            i += 1;
        }
    }
    let ghost prev_acc = views(acc@);
    let ghost prev_cur = cur@;
    acc.push(cur);
    proof {
        assert(views(acc@) =~= prev_acc.push(prev_cur));
    }
    acc
}

/// A crate name with dashes turned into underscores.
fn undash_x(name: &Vec<u8>) -> (r: Vec<u8>)
    ensures
        r@ == undash(name@),
{
    let mut r: Vec<u8> = Vec::new();
    let mut i: usize = 0;
    while i < name.len()
        invariant
            0 <= i <= name@.len(),
            r@ =~= undash(name@.take(i as int)),
        decreases name@.len() - i,
    {
        if name[i] == 45 {
            r.push(95);
        } else {
            r.push(name[i]);
        }
        i += 1;
        proof {
            assert(r@ =~= undash(name@.take(i as int)));
        }
    }
    proof {
        assert(name@.take(name@.len() as int) =~= name@);
    }
    r
}

/// The kind-dependent file name of a symbol's documentation page.
fn kind_file_x(kind: SymbolKind, name: &Vec<u8>) -> (r: Vec<u8>)
    ensures
        r@ == kind_file(kind, name@),
{
    proof {
        reveal_strlit("/index.html");
        reveal_strlit(".html");
        reveal_strlit("struct.");
        reveal_strlit("enum.");
        reveal_strlit("trait.");
        reveal_strlit("fn.");
        reveal_strlit("macro.");
        reveal_strlit("constant.");
        reveal_strlit("static.");
        reveal_strlit("type.");
        reveal_strlit("union.");
    }
    let html = lit(".html");
    match kind {
        SymbolKind::Module => concat_bytes(name, &lit("/index.html")),
        SymbolKind::Struct => concat_bytes(&concat_bytes(&lit("struct."), name), &html),
        SymbolKind::Enum => concat_bytes(&concat_bytes(&lit("enum."), name), &html),
        SymbolKind::Trait => concat_bytes(&concat_bytes(&lit("trait."), name), &html),
        SymbolKind::Function => concat_bytes(&concat_bytes(&lit("fn."), name), &html),
        SymbolKind::Macro => concat_bytes(&concat_bytes(&lit("macro."), name), &html),
        SymbolKind::Const => concat_bytes(&concat_bytes(&lit("constant."), name), &html),
        SymbolKind::Static => concat_bytes(&concat_bytes(&lit("static."), name), &html),
        SymbolKind::TypeAlias => concat_bytes(&concat_bytes(&lit("type."), name), &html),
        SymbolKind::Union => concat_bytes(&concat_bytes(&lit("union."), name), &html),
    }
}

/// The module-directory part of a path.
fn mods_path_x(segs: &Vec<Vec<u8>>) -> (r: Vec<u8>)
    requires
        segs@.len() >= 1,
    ensures
        r@ == mods_path(views(segs@)),
{
    proof {
        reveal_strlit("/");
    }
    if segs.len() <= 1 {
        Vec::new()
    } else {
        let mut mods: Vec<Vec<u8>> = Vec::new();
        let mut i: usize = 0;
        proof {
            assert(views(mods@) =~= Seq::<Seq<u8>>::empty());
        }
        while i < segs.len() - 1
            invariant
                segs@.len() >= 1,
                0 <= i <= segs@.len() - 1,
                views(mods@) =~= views(segs@).take(segs@.len() - 1).take(i as int),
            decreases segs@.len() - 1 - i,
        {
            let ghost prev = views(mods@);
            mods.push(subvec(&segs[i], 0, segs[i].len()));
            i += 1;
            proof {
                assert(views(mods@) =~~= prev.push(views(segs@)[i - 1]));
                assert(views(mods@) =~~= views(segs@).take(segs@.len() - 1).take(i as int));
            }
        }
        proof {
            assert(views(mods@) =~= views(segs@).take(segs@.len() - 1));
        }
        let sl = lit("/");
        concat_bytes(&join_lines(&mods, &sl), &sl)
    }
}

/// Resolves one destination; appends any warning to `ws`.
fn resolve_dest_x(dest: &Vec<u8>, tbl: &SymbolTable, crate_name: &Vec<u8>, ws: Vec<Warning>) -> (r:
    (Vec<u8>, Vec<Warning>))
    ensures
        r.0@ == resolve_dest(dest@, tbl@, crate_name@).0,
        warning_views(r.1@) == warning_views(ws@) + resolve_dest(dest@, tbl@, crate_name@).1,
{
    proof {
        reveal_strlit("crate::");
        reveal_strlit("::");
        reveal_strlit("/");
        reveal_strlit("https://docs.rs/");
        reveal_strlit("/latest/");
        reveal_strlit("https://doc.rust-lang.org/");
        reveal_strlit("std");
        reveal_strlit("core");
        reveal_strlit("alloc");
    }
    let mut ws = ws;
    let ghost ws0 = warning_views(ws@);
    let cp = lit("crate::");
    let c2 = lit("::");
    if has_prefix(dest, &cp) {
        let path = subvec(dest, 7, dest.len());
        proof {
            assert(path@ =~= dest@.skip(7));
        }
        let segs = split_path_x(&path);
        let last = &segs[segs.len() - 1];
        proof {
            assert(last@ == path_segments(dest@.skip(7))[path_segments(dest@.skip(7)).len() - 1]);
        }
        match tbl.lookup(last) {
            Some(en) => {
                let url = concat_bytes(
                    &concat_bytes(
                        &concat_bytes(
                            &concat_bytes(
                                &concat_bytes(&lit("https://docs.rs/"), crate_name),
                                &lit("/latest/"),
                            ),
                            &undash_x(crate_name),
                        ),
                        &lit("/"),
                    ),
                    &concat_bytes(&mods_path_x(&segs), &kind_file_x(en.kind, last)),
                );
                proof {
                    assert(url@ =~= crate_url(
                        crate_name@,
                        path_segments(dest@.skip(7)),
                        en.kind,
                    ));
                    assert(warning_views(ws@) =~= ws0 + Seq::<WarningView>::empty());
                }
                (url, ws)
            },
            None => {
                let carried = subvec(dest, 0, dest.len());
                let ghost cv = carried@;
                proof {
                    assert(cv =~= dest@);
                }
                ws.push(Warning::UnresolvedIntraLink(carried));
                let back = subvec(dest, 0, dest.len());
                proof {
                    assert(warning_views(ws@) =~= ws0 + seq![
                        WarningView::UnresolvedIntraLink(dest@),
                    ]);
                    assert(back@ =~= dest@);
                }
                (back, ws)
            },
        }
    } else if has_prefix(dest, &c2) {
        let path = subvec(dest, 2, dest.len());
        proof {
            assert(path@ =~= dest@.skip(2));
        }
        let segs = split_path_x(&path);
        let root = &segs[0];
        proof {
            assert(root@ == path_segments(dest@.skip(2))[0]);
        }
        let is_std = bytes_eq(root, &lit("std")) || bytes_eq(root, &lit("core")) || bytes_eq(
            root,
            &lit("alloc"),
        );
        if is_std {
            let url = concat_bytes(&lit("https://doc.rust-lang.org/"), &join_lines(&segs, &lit("/")));
            proof {
                assert(url@ =~= std_url(path_segments(dest@.skip(2))));
                assert(warning_views(ws@) =~= ws0 + Seq::<WarningView>::empty());
            }
            (url, ws)
        } else {
            let carried = subvec(dest, 0, dest.len());
            let ghost cv = carried@;
            proof {
                assert(cv =~= dest@);
            }
            ws.push(Warning::UnresolvedIntraLink(carried));
            let back = subvec(dest, 0, dest.len());
            proof {
                assert(warning_views(ws@) =~= ws0 + seq![
                    WarningView::UnresolvedIntraLink(dest@),
                ]);
                assert(back@ =~= dest@);
            }
            (back, ws)
        }
    } else {
        let back = subvec(dest, 0, dest.len());
        proof {
            assert(warning_views(ws@) =~= ws0 + Seq::<WarningView>::empty());
            assert(back@ =~= dest@);
        }
        (back, ws)
    }
}

/// Rewrites the links of one line; appends the line's warnings to `ws`.
fn resolve_line_x(line: &Vec<u8>, tbl: &SymbolTable, crate_name: &Vec<u8>, ws: Vec<Warning>) -> (r:
    (Vec<u8>, Vec<Warning>))
    ensures
        r.0@ == spec_resolve_line(line@, tbl@, crate_name@).0,
        warning_views(r.1@) == warning_views(ws@) + spec_resolve_line(line@, tbl@, crate_name@).1,
{
    let mut ws = ws;
    let ghost ws0 = warning_views(ws@);
    let mut out: Vec<u8> = Vec::new();
    let mut i: usize = 0;
    let ghost goal = spec_resolve_line(line@, tbl@, crate_name@);
    proof {
        assert(warning_views(ws@).take(ws0.len() as int) =~= ws0);
        assert(warning_views(ws@).skip(ws0.len() as int) =~= Seq::<WarningView>::empty());
    }
    while i < line.len()
        invariant
            0 <= i <= line@.len(),
            goal == spec_resolve_line(line@, tbl@, crate_name@),
            goal == rewrite_from(
                line@,
                i as int,
                tbl@,
                crate_name@,
                out@,
                warning_views(ws@).skip(ws0.len() as int),
            ),
            ws0.len() <= warning_views(ws@).len(),
            warning_views(ws@).take(ws0.len() as int) == ws0,
        decreases line@.len() - i,
    {
        let ghost out_prev = out@;
        let ghost prev_ws = warning_views(ws@).skip(ws0.len() as int);
        let ghost i0 = i as int;
        if i + 1 < line.len() && line[i] == 93 && line[i + 1] == 40 {
            let close = find_close_x(line, i + 2);
            if close >= line.len() {
                let rest = subvec(line, i, line.len());
                out = concat_bytes(&out, &rest);
                i = line.len();
                proof {
                    assert(rewrite_from(line@, i0, tbl@, crate_name@, out_prev, prev_ws) == (
                        out_prev + line@.subrange(i0, line@.len() as int),
                        prev_ws,
                    ));
                }
            } else {
                let dest = subvec(line, i + 2, close);
                let opener = subvec(line, i, i + 2);
                proof {
                    assert(dest@ =~= line@.subrange(i0 + 2, close as int));
                    assert(opener@ =~= line@.subrange(i0, i0 + 2));
                    assert(warning_views(ws@) =~= warning_views(ws@).take(ws0.len() as int)
                        + warning_views(ws@).skip(ws0.len() as int));
                    assert(warning_views(ws@) == ws0 + prev_ws);
                }
                let rd = resolve_dest_x(&dest, tbl, crate_name, ws);
                ws = rd.1;
                let mut piece = concat_bytes(&opener, &rd.0);
                piece.push(41);
                out = concat_bytes(&out, &piece);
                i = close + 1;
                proof {
                    let rds = resolve_dest(line@.subrange(i0 + 2, close as int), tbl@, crate_name@);
                    assert(out@ =~= out_prev + line@.subrange(i0, i0 + 2) + rds.0 + seq![41u8]);
                    assert(warning_views(ws@) =~= ws0 + prev_ws + rds.1);
                    assert(warning_views(ws@).skip(ws0.len() as int) =~= prev_ws + rds.1);
                    assert(warning_views(ws@).take(ws0.len() as int) =~= ws0);
                    assert(rewrite_from(line@, i0, tbl@, crate_name@, out_prev, prev_ws)
                        == rewrite_from(line@, i as int, tbl@, crate_name@, out@, prev_ws + rds.1));
                }
            }
        } else {
            out.push(line[i]);
            i += 1;
        }
    }
    proof {
        assert(warning_views(ws@) =~= warning_views(ws@).take(ws0.len() as int) + warning_views(
            ws@,
        ).skip(ws0.len() as int));
        assert(warning_views(ws@) == ws0 + warning_views(ws@).skip(ws0.len() as int));
    }
    (out, ws)
}

/// Rewrites the intra-links of a rendered documentation text, line by line;
/// bytes outside link destinations, line endings included, are kept.
pub fn resolve_intra_links(doc: &Vec<u8>, table: &SymbolTable, crate_name: &Vec<u8>) -> (r:
    WithWarnings<Vec<u8>>)
    ensures
        r.value@ == spec_resolve_doc(doc@, table@, crate_name@).0,
        warning_views(r.warnings@) == spec_resolve_doc(doc@, table@, crate_name@).1,
{
    let lines = split_raw_lines(doc);
    let mut out: Vec<u8> = Vec::new();
    let mut ws: Vec<Warning> = Vec::new();
    let mut i: usize = 0;
    let ghost goal = spec_resolve_doc(doc@, table@, crate_name@);
    proof {
        assert(warning_views(ws@) =~= Seq::<WarningView>::empty());
    }
    while i < lines.len()
        invariant
            0 <= i <= lines@.len(),
            views(lines@) == raw_lines(doc@),
            goal == spec_resolve_doc(doc@, table@, crate_name@),
            goal == resolve_doc_from(
                views(lines@),
                i as int,
                table@,
                crate_name@,
                out@,
                warning_views(ws@),
            ),
        decreases lines@.len() - i,
    {
        let rl = resolve_line_x(&lines[i], table, crate_name, ws);
        out = concat_bytes(&out, &rl.0);
        ws = rl.1;
        i += 1;
    }
    WithWarnings { value: out, warnings: ws }
}

} // verus!
