use sync_readme::symbols::{classify_symbols, SymbolKind};

fn b(s: &str) -> Vec<u8> {
    s.as_bytes().to_vec()
}

#[test]
fn classifies_common_declarations() {
    let src = b(
        "pub struct Foo;\nenum Bar { A }\npub trait Tr {}\nfn baz() {}\npub mod sub;\n\
         macro_rules! mac { () => {} }\nconst LIMIT: u8 = 3;\nstatic GLOBAL: u8 = 0;\n\
         type Alias = u8;\npub union U { a: u8 }\n",
    );
    let t = classify_symbols(&src);
    let cases = [
        ("Foo", SymbolKind::Struct, true),
        ("Bar", SymbolKind::Enum, false),
        ("Tr", SymbolKind::Trait, true),
        ("baz", SymbolKind::Function, false),
        ("sub", SymbolKind::Module, true),
        ("mac", SymbolKind::Macro, false),
        ("LIMIT", SymbolKind::Const, false),
        ("GLOBAL", SymbolKind::Static, false),
        ("Alias", SymbolKind::TypeAlias, false),
        ("U", SymbolKind::Union, true),
    ];
    for (name, kind, public) in cases {
        let e = t.lookup(&b(name)).unwrap();
        assert_eq!(e.kind, kind, "kind of {}", name);
        assert_eq!(e.is_public, public, "visibility of {}", name);
    }
}

#[test]
fn qualifiers_are_passed_over() {
    let src = b("pub(crate) unsafe fn danger() {}\npub async fn fut() {}\npub const fn cf() {}\n");
    let t = classify_symbols(&src);
    assert_eq!(t.lookup(&b("danger")).unwrap().kind, SymbolKind::Function);
    assert_eq!(t.lookup(&b("fut")).unwrap().kind, SymbolKind::Function);
    assert_eq!(t.lookup(&b("cf")).unwrap().kind, SymbolKind::Function);
    assert!(t.lookup(&b("danger")).unwrap().is_public);
}

#[test]
fn first_declaration_wins() {
    let src = b("fn twice() {}\npub struct twice;\n");
    let t = classify_symbols(&src);
    let e = t.lookup(&b("twice")).unwrap();
    assert_eq!(e.kind, SymbolKind::Function);
    assert!(!e.is_public);
}

#[test]
fn indented_and_macro_generated_items_are_absent() {
    let src = b("    fn inner() {}\nmake_thing!(Generated);\n");
    let t = classify_symbols(&src);
    assert!(t.lookup(&b("inner")).is_none());
    assert!(t.lookup(&b("Generated")).is_none());
}

#[test]
fn lookup_of_unknown_name_is_none() {
    let src = b("pub struct Foo;\n");
    let t = classify_symbols(&src);
    assert!(t.lookup(&b("Missing")).is_none());
}
