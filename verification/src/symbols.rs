//! The symbol classifier: a shallow, single-pass scan of a source file's
//! top-level declarations, recording each identifier's syntactic kind and
//! visibility.
//!
//! The scan reads declaration lines only: an optional `pub` with its
//! optional parenthesized restriction, optional one-word qualifiers, the
//! declaring keyword, and the declared name.  Macros are never expanded, so
//! a symbol defined only by a macro call is absent from the table.  The
//! first declaration of a name wins; later declarations of the same name
//! are ignored.

use vstd::prelude::*;

verus! {

use crate::bytes::{ascii_bytes, lit, subvec, bytes_eq};
use crate::lines::views;

/// The syntactic kind of a declared symbol.
#[derive(Debug, Clone, Copy, PartialEq, Eq, Structural)]
pub enum SymbolKind {
    Struct,
    Enum,
    Trait,
    Function,
    Module,
    Macro,
    Const,
    Static,
    TypeAlias,
    Union,
}

/// A byte that may stand inside an identifier.
pub open spec fn is_ident_byte(b: u8) -> bool {
    (48 <= b <= 57) || (65 <= b <= 90) || (97 <= b <= 122) || b == 95
}

/// A byte that may open an identifier.
pub open spec fn is_ident_start(b: u8) -> bool {
    (65 <= b <= 90) || (97 <= b <= 122) || b == 95
}

/// End of the identifier run beginning at `i`.
pub open spec fn ident_end(c: Seq<u8>, i: int) -> int
    decreases c.len() - i,
{
    if 0 <= i < c.len() && is_ident_byte(c[i]) {
        ident_end(c, i + 1)
    } else {
        i
    }
}

/// First index at or after `i` that is not a space or tab.
pub open spec fn skip_spaces(c: Seq<u8>, i: int) -> int
    decreases c.len() - i,
{
    if 0 <= i < c.len() && (c[i] == 32 || c[i] == 9) {
        skip_spaces(c, i + 1)
    } else {
        i
    }
}

/// Index just past the closing parenthesis sought from `j`.
pub open spec fn paren_close(c: Seq<u8>, j: int) -> int
    decreases c.len() - j,
{
    if j < 0 || j >= c.len() {
        c.len() as int
    } else if c[j] == 41 {
        j + 1
    } else {
        paren_close(c, j + 1)
    }
}

/// Skips one parenthesized group, when one opens at `i`.
pub open spec fn skip_group(c: Seq<u8>, i: int) -> int {
    if 0 <= i < c.len() && c[i] == 40 {
        paren_close(c, i + 1)
    } else {
        i
    }
}

pub open spec fn kw_pub() -> Seq<u8> {
    ascii_bytes("pub"@)
}

pub open spec fn kw_unsafe() -> Seq<u8> {
    ascii_bytes("unsafe"@)
}

pub open spec fn kw_async() -> Seq<u8> {
    ascii_bytes("async"@)
}

/// Position of the declaring keyword: up to three leading qualifiers
/// (`pub` with its optional group, `unsafe`, `async`) are passed over.
pub open spec fn after_one_modifier(c: Seq<u8>, i: int) -> int {
    let e = ident_end(c, i);
    let t = c.subrange(i, e);
    if t == kw_pub() {
        skip_spaces(c, skip_group(c, skip_spaces(c, e)))
    } else if t == kw_unsafe() || t == kw_async() {
        skip_spaces(c, e)
    } else {
        i
    }
}

pub open spec fn decl_start(c: Seq<u8>) -> int {
    after_one_modifier(c, after_one_modifier(c, after_one_modifier(c, 0)))
}

/// The declared name beginning at `j`, with its kind and visibility, when a
/// valid identifier stands there.
pub open spec fn named_symbol(c: Seq<u8>, j: int, kind: SymbolKind, vis: bool) -> Option<
    (Seq<u8>, SymbolKind, bool),
> {
    let e = ident_end(c, j);
    if 0 <= j < c.len() && e > j && is_ident_start(c[j]) {
        Some((c.subrange(j, e), kind, vis))
    } else {
        None
    }
}

/// The declaration a top-level source line makes, if any.
pub open spec fn parse_decl(c: Seq<u8>) -> Option<(Seq<u8>, SymbolKind, bool)> {
    let vis = c.subrange(0, ident_end(c, 0)) == kw_pub();
    let m = decl_start(c);
    let e = ident_end(c, m);
    let kw = c.subrange(m, e);
    if kw == ascii_bytes("struct"@) {
        named_symbol(c, skip_spaces(c, e), SymbolKind::Struct, vis)
    } else if kw == ascii_bytes("enum"@) {
        named_symbol(c, skip_spaces(c, e), SymbolKind::Enum, vis)
    } else if kw == ascii_bytes("trait"@) {
        named_symbol(c, skip_spaces(c, e), SymbolKind::Trait, vis)
    } else if kw == ascii_bytes("fn"@) {
        named_symbol(c, skip_spaces(c, e), SymbolKind::Function, vis)
    } else if kw == ascii_bytes("mod"@) {
        named_symbol(c, skip_spaces(c, e), SymbolKind::Module, vis)
    } else if kw == ascii_bytes("static"@) {
        named_symbol(c, skip_spaces(c, e), SymbolKind::Static, vis)
    } else if kw == ascii_bytes("type"@) {
        named_symbol(c, skip_spaces(c, e), SymbolKind::TypeAlias, vis)
    } else if kw == ascii_bytes("union"@) {
        named_symbol(c, skip_spaces(c, e), SymbolKind::Union, vis)
    } else if kw == ascii_bytes("const"@) {
        // `const fn` declares a function; `const NAME` a constant.
        let j = skip_spaces(c, e);
        let e2 = ident_end(c, j);
        if c.subrange(j, e2) == ascii_bytes("fn"@) {
            named_symbol(c, skip_spaces(c, e2), SymbolKind::Function, vis)
        } else {
            named_symbol(c, j, SymbolKind::Const, vis)
        }
    } else if kw == ascii_bytes("macro_rules"@) && 0 <= e < c.len() && c[e] == 33 {
        named_symbol(c, skip_spaces(c, e + 1), SymbolKind::Macro, vis)
    } else {
        None
    }
}

/// Whether the table already holds `n`.
pub open spec fn contains_name(tbl: Seq<(Seq<u8>, SymbolKind, bool)>, n: Seq<u8>) -> bool {
    exists|k: int| 0 <= k < tbl.len() && tbl[k].0 == n
}

/// The table built from the lines before `i`, first declaration winning.
pub open spec fn table_from(
    ls: Seq<Seq<u8>>,
    i: int,
    acc: Seq<(Seq<u8>, SymbolKind, bool)>,
) -> Seq<(Seq<u8>, SymbolKind, bool)>
    decreases ls.len() - i,
{
    if i < 0 || i >= ls.len() {
        acc
    } else {
        match parse_decl(ls[i]) {
            Some(t) => if contains_name(acc, t.0) {
                table_from(ls, i + 1, acc)
            } else {
                table_from(ls, i + 1, acc.push(t))
            },
            None => table_from(ls, i + 1, acc),
        }
    }
}

/// The symbol table of a source text.
pub open spec fn spec_classify(src: Seq<u8>) -> Seq<(Seq<u8>, SymbolKind, bool)> {
    table_from(crate::extract::source_content_lines(src), 0, Seq::empty())
}

/// First entry of the table named `n`, if any.
pub open spec fn lookup_from(
    tbl: Seq<(Seq<u8>, SymbolKind, bool)>,
    i: int,
    n: Seq<u8>,
) -> Option<(Seq<u8>, SymbolKind, bool)>
    decreases tbl.len() - i,
{
    if i < 0 || i >= tbl.len() {
        None
    } else if tbl[i].0 == n {
        Some(tbl[i])
    } else {
        lookup_from(tbl, i + 1, n)
    }
}

pub open spec fn spec_lookup(tbl: Seq<(Seq<u8>, SymbolKind, bool)>, n: Seq<u8>) -> Option<
    (Seq<u8>, SymbolKind, bool),
> {
    lookup_from(tbl, 0, n)
}

/// One recorded top-level declaration.
pub struct SymbolEntry {
    pub name: Vec<u8>,
    pub kind: SymbolKind,
    pub is_public: bool,
}

impl View for SymbolEntry {
    type V = (Seq<u8>, SymbolKind, bool);

    open spec fn view(&self) -> (Seq<u8>, SymbolKind, bool) {
        (self.name@, self.kind, self.is_public)
    }
}

/// The views of a vector of entries.
pub open spec fn entry_views(es: Seq<SymbolEntry>) -> Seq<(Seq<u8>, SymbolKind, bool)> {
    es.map_values(|e: SymbolEntry| e@)
}

/// The symbol table: entries in declaration order, names unique.
pub struct SymbolTable {
    pub entries: Vec<SymbolEntry>,
}

impl View for SymbolTable {
    type V = Seq<(Seq<u8>, SymbolKind, bool)>;

    open spec fn view(&self) -> Seq<(Seq<u8>, SymbolKind, bool)> {
        entry_views(self.entries@)
    }
}

impl SymbolTable {
    /// First entry with the given name, as the classifier recorded it.
    pub fn lookup(&self, name: &Vec<u8>) -> (r: Option<&SymbolEntry>)
        ensures
            r matches Some(e) ==> spec_lookup(self@, name@) == Some(e@),
            r is None ==> spec_lookup(self@, name@) is None,
    {
        let mut i: usize = 0;
        while i < self.entries.len()
            invariant
                0 <= i <= self.entries@.len(),
                spec_lookup(self@, name@) == lookup_from(self@, i as int, name@),
            decreases self.entries@.len() - i,
        {
            if bytes_eq(&self.entries[i].name, name) {
                return Some(&self.entries[i]);
            }
            i += 1;
        }
        None
    }
}

/// End of the identifier run beginning at `i`.
fn ident_end_x(c: &Vec<u8>, i: usize) -> (r: usize)
    requires
        i <= c@.len(),
    ensures
        r as int == ident_end(c@, i as int),
        i <= r <= c@.len(),
{
    let mut e = i;
    while e < c.len() && (
        (48 <= c[e] && c[e] <= 57) || (65 <= c[e] && c[e] <= 90) || (97 <= c[e] && c[e] <= 122)
        || c[e] == 95
    )
        invariant
            i <= e <= c@.len(),
            ident_end(c@, i as int) == ident_end(c@, e as int),
        decreases c@.len() - e,
    {
        e += 1;
    }
    e
}

/// First index at or after `i` that is not a space or tab.
fn skip_spaces_x(c: &Vec<u8>, i: usize) -> (r: usize)
    requires
        i <= c@.len(),
    ensures
        r as int == skip_spaces(c@, i as int),
        i <= r <= c@.len(),
{
    let mut e = i;
    while e < c.len() && (c[e] == 32 || c[e] == 9)
        invariant
            i <= e <= c@.len(),
            skip_spaces(c@, i as int) == skip_spaces(c@, e as int),
        decreases c@.len() - e,
    {
        e += 1;
    }
    e
}

/// Skips one parenthesized group, when one opens at `i`.
fn skip_group_x(c: &Vec<u8>, i: usize) -> (r: usize)
    requires
        i <= c@.len(),
    ensures
        r as int == skip_group(c@, i as int),
        i <= r <= c@.len(),
{
    if i < c.len() && c[i] == 40 {
        let mut j = i + 1;
        while j < c.len() && c[j] != 41
            invariant
                i + 1 <= j <= c@.len(),
                paren_close(c@, i + 1 as int) == paren_close(c@, j as int),
            decreases c@.len() - j,
        {
            j += 1;
        }
        if j < c.len() {
            j + 1
        } else {
            j
        }
    } else {
        i
    }
}

/// Whether `c[i..e]` spells exactly `kw`.
fn token_is(c: &Vec<u8>, i: usize, e: usize, kw: &Vec<u8>) -> (r: bool)
    requires
        i <= e <= c@.len(),
    ensures
        r <==> c@.subrange(i as int, e as int) == kw@,
{
    let t = subvec(c, i, e);
    bytes_eq(&t, kw)
}

/// Position of the declaring keyword of a line.
fn decl_start_x(c: &Vec<u8>) -> (r: usize)
    ensures
        r as int == decl_start(c@),
        r <= c@.len(),
{
    proof {
        reveal_strlit("pub");
        reveal_strlit("unsafe");
        reveal_strlit("async");
    }
    let kpub = lit("pub");
    let kunsafe = lit("unsafe");
    let kasync = lit("async");
    let mut i: usize = 0;
    let mut step: usize = 0;
    while step < 3
        invariant
            i <= c@.len(),
            step <= 3,
            step == 0 ==> i == 0,
            step == 1 ==> i as int == after_one_modifier(c@, 0),
            step == 2 ==> i as int == after_one_modifier(c@, after_one_modifier(c@, 0)),
            step == 3 ==> i as int == decl_start(c@),
            kpub@ == kw_pub() && kunsafe@ == kw_unsafe() && kasync@ == kw_async(),
        decreases 3 - step,
    {
        let e = ident_end_x(c, i);
        if token_is(c, i, e, &kpub) {
            i = skip_spaces_x(c, skip_group_x(c, skip_spaces_x(c, e)));
        } else if token_is(c, i, e, &kunsafe) || token_is(c, i, e, &kasync) {
            i = skip_spaces_x(c, e);
        }
        step += 1;
    }
    i
}

/// Reads the declared name at `j` as an entry, when a valid identifier
/// stands there.
fn named_symbol_x(c: &Vec<u8>, j: usize, kind: SymbolKind, vis: bool) -> (r: Option<SymbolEntry>)
    requires
        j <= c@.len(),
    ensures
        r matches Some(en) ==> named_symbol(c@, j as int, kind, vis) == Some(en@),
        r is None ==> named_symbol(c@, j as int, kind, vis) is None,
{
    let e = ident_end_x(c, j);
    if j < c.len() && e > j && (
        (65 <= c[j] && c[j] <= 90) || (97 <= c[j] && c[j] <= 122) || c[j] == 95
    ) {
        Some(SymbolEntry { name: subvec(c, j, e), kind, is_public: vis })
    } else {
        None
    }
}

/// The declaration a top-level source line makes, if any.
fn parse_decl_x(c: &Vec<u8>) -> (r: Option<SymbolEntry>)
    ensures
        r matches Some(en) ==> parse_decl(c@) == Some(en@),
        r is None ==> parse_decl(c@) is None,
{
    proof {
        reveal_strlit("pub");
        reveal_strlit("struct");
        reveal_strlit("enum");
        reveal_strlit("trait");
        reveal_strlit("fn");
        reveal_strlit("mod");
        reveal_strlit("static");
        reveal_strlit("type");
        reveal_strlit("union");
        reveal_strlit("const");
        reveal_strlit("macro_rules");
    }
    let e0 = ident_end_x(c, 0);
    let kpub = lit("pub");
    let vis = token_is(c, 0, e0, &kpub);
    let m = decl_start_x(c);
    let e = ident_end_x(c, m);
    if token_is(c, m, e, &lit("struct")) {
        named_symbol_x(c, skip_spaces_x(c, e), SymbolKind::Struct, vis)
    } else if token_is(c, m, e, &lit("enum")) {
        named_symbol_x(c, skip_spaces_x(c, e), SymbolKind::Enum, vis)
    } else if token_is(c, m, e, &lit("trait")) {
        named_symbol_x(c, skip_spaces_x(c, e), SymbolKind::Trait, vis)
    } else if token_is(c, m, e, &lit("fn")) {
        named_symbol_x(c, skip_spaces_x(c, e), SymbolKind::Function, vis)
    } else if token_is(c, m, e, &lit("mod")) {
        named_symbol_x(c, skip_spaces_x(c, e), SymbolKind::Module, vis)
    } else if token_is(c, m, e, &lit("static")) {
        named_symbol_x(c, skip_spaces_x(c, e), SymbolKind::Static, vis)
    } else if token_is(c, m, e, &lit("type")) {
        named_symbol_x(c, skip_spaces_x(c, e), SymbolKind::TypeAlias, vis)
    } else if token_is(c, m, e, &lit("union")) {
        named_symbol_x(c, skip_spaces_x(c, e), SymbolKind::Union, vis)
    } else if token_is(c, m, e, &lit("const")) {
        let j = skip_spaces_x(c, e);
        let e2 = ident_end_x(c, j);
        if token_is(c, j, e2, &lit("fn")) {
            named_symbol_x(c, skip_spaces_x(c, e2), SymbolKind::Function, vis)
        } else {
            named_symbol_x(c, j, SymbolKind::Const, vis)
        }
    } else if token_is(c, m, e, &lit("macro_rules")) && e < c.len() && c[e] == 33 {
        named_symbol_x(c, skip_spaces_x(c, e + 1), SymbolKind::Macro, vis)
    } else {
        None
    }
}

/// Whether the table under construction already holds `name`.
fn contains_x(entries: &Vec<SymbolEntry>, name: &Vec<u8>) -> (r: bool)
    ensures
        r <==> contains_name(entry_views(entries@), name@),
{
    let mut i: usize = 0;
    while i < entries.len()
        invariant
            0 <= i <= entries@.len(),
            forall|k: int| 0 <= k < i ==> entry_views(entries@)[k].0 != name@,
        decreases entries@.len() - i,
    {
        if bytes_eq(&entries[i].name, name) {
            proof {
                assert(entry_views(entries@)[i as int].0 == name@);
            }
            return true;
        }
        i += 1;
    }
    false
}

/// Builds the symbol table of `source` by the shallow top-level scan; the
/// first declaration of a name wins.
pub fn classify_symbols(source: &Vec<u8>) -> (t: SymbolTable)
    ensures
        t@ == spec_classify(source@),
{
    let rl = crate::lines::split_raw_lines(source);
    let cl = crate::lines::content_lines(&rl);
    let ghost clv = crate::extract::source_content_lines(source@);
    proof {
        assert(views(cl@) == clv);
    }
    let mut entries: Vec<SymbolEntry> = Vec::new();
    let mut i: usize = 0;
    proof {
        assert(entry_views(entries@) =~= Seq::<(Seq<u8>, SymbolKind, bool)>::empty());
    }
    while i < cl.len()
        invariant
            0 <= i <= cl@.len(),
            clv == views(cl@),
            spec_classify(source@) == table_from(clv, i as int, entry_views(entries@)),
        decreases cl@.len() - i,
    {
        let ghost prev = entry_views(entries@);
        match parse_decl_x(&cl[i]) {
            Some(en) => {
                if !contains_x(&entries, &en.name) {
                    let ghost env = en@;
                    entries.push(en);
                    proof {
                        assert(entry_views(entries@) =~~= prev.push(env));
                    }
                }
            },
            None => {},
        }
        i += 1;
    }
    SymbolTable { entries }
}

} // verus!
