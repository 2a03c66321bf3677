use sync_readme::links::resolve_intra_links;
use sync_readme::symbols::classify_symbols;
use sync_readme::warnings::Warning;

fn b(s: &str) -> Vec<u8> {
    s.as_bytes().to_vec()
}

fn s(v: &[u8]) -> String {
    String::from_utf8(v.to_vec()).unwrap()
}

#[test]
fn struct_link_rewrites_with_struct_segment() {
    let table = classify_symbols(&b("pub struct Foo;\n"));
    let r = resolve_intra_links(&b("See [Foo](crate::Foo)."), &table, &b("demo"));
    assert_eq!(s(&r.value), "See [Foo](https://docs.rs/demo/latest/demo/struct.Foo.html).");
    assert!(r.warnings.is_empty());
}

#[test]
fn unknown_symbol_left_unchanged_with_one_warning() {
    let table = classify_symbols(&b("pub struct Foo;\n"));
    let r = resolve_intra_links(&b("See [Gone](crate::Gone)."), &table, &b("demo"));
    assert_eq!(s(&r.value), "See [Gone](crate::Gone).");
    assert_eq!(r.warnings.len(), 1);
    assert!(matches!(&r.warnings[0], Warning::UnresolvedIntraLink(d) if d == &b("crate::Gone")));
}

#[test]
fn module_path_becomes_directories() {
    let table = classify_symbols(&b("pub struct Thing;\n"));
    let r = resolve_intra_links(&b("[t](crate::sub::Thing)"), &table, &b("demo"));
    assert_eq!(s(&r.value), "[t](https://docs.rs/demo/latest/demo/sub/struct.Thing.html)");
}

#[test]
fn module_link_uses_index_page() {
    let table = classify_symbols(&b("pub mod sub;\n"));
    let r = resolve_intra_links(&b("[m](crate::sub)"), &table, &b("demo"));
    assert_eq!(s(&r.value), "[m](https://docs.rs/demo/latest/demo/sub/index.html)");
}

#[test]
fn function_and_macro_segments() {
    let table = classify_symbols(&b("pub fn run() {}\nmacro_rules! go { () => {} }\n"));
    let r = resolve_intra_links(&b("[r](crate::run) [g](crate::go)"), &table, &b("demo"));
    assert_eq!(
        s(&r.value),
        "[r](https://docs.rs/demo/latest/demo/fn.run.html) \
         [g](https://docs.rs/demo/latest/demo/macro.go.html)"
    );
}

#[test]
fn dashed_crate_name_is_underscored_in_path_only() {
    let table = classify_symbols(&b("pub struct Foo;\n"));
    let r = resolve_intra_links(&b("[f](crate::Foo)"), &table, &b("my-crate"));
    assert_eq!(
        s(&r.value),
        "[f](https://docs.rs/my-crate/latest/my_crate/struct.Foo.html)"
    );
}

#[test]
fn std_link_uses_generic_form() {
    let table = classify_symbols(&b(""));
    let r = resolve_intra_links(&b("[v](::std::vec::Vec)"), &table, &b("demo"));
    assert_eq!(s(&r.value), "[v](https://doc.rust-lang.org/std/vec/Vec)");
    assert!(r.warnings.is_empty());
}

#[test]
fn unknown_root_is_flagged_and_kept() {
    let table = classify_symbols(&b(""));
    let r = resolve_intra_links(&b("[x](::mystery::Y)"), &table, &b("demo"));
    assert_eq!(s(&r.value), "[x](::mystery::Y)");
    assert_eq!(r.warnings.len(), 1);
    assert!(matches!(&r.warnings[0], Warning::UnresolvedIntraLink(d) if d == &b("::mystery::Y")));
}

#[test]
fn other_destinations_pass_through() {
    let table = classify_symbols(&b(""));
    let text = b("[a](https://example.com) [b](relative/path) plain ]( stray");
    let r = resolve_intra_links(&text, &table, &b("demo"));
    assert_eq!(r.value, text);
    assert!(r.warnings.is_empty());
}

#[test]
fn reference_style_links_are_ignored_silently() {
    let table = classify_symbols(&b("pub struct Foo;\n"));
    let text = b("[Foo] is nice.\n[Foo]: crate::Foo\n");
    let r = resolve_intra_links(&text, &table, &b("demo"));
    assert_eq!(r.value, text);
    assert!(r.warnings.is_empty());
}

#[test]
fn line_endings_are_preserved() {
    let table = classify_symbols(&b("pub struct Foo;\n"));
    let text = b("line one\r\n[f](crate::Foo)\r\nlast");
    let r = resolve_intra_links(&text, &table, &b("demo"));
    assert_eq!(
        s(&r.value),
        "line one\r\n[f](https://docs.rs/demo/latest/demo/struct.Foo.html)\r\nlast"
    );
}

#[test]
fn warnings_accumulate_in_order() {
    let table = classify_symbols(&b(""));
    let r = resolve_intra_links(&b("[a](crate::A)\n[b](crate::B)\n"), &table, &b("demo"));
    assert_eq!(r.warnings.len(), 2);
    assert!(matches!(&r.warnings[0], Warning::UnresolvedIntraLink(d) if d == &b("crate::A")));
    assert!(matches!(&r.warnings[1], Warning::UnresolvedIntraLink(d) if d == &b("crate::B")));
}
