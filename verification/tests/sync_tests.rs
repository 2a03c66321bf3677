use sync_readme::extract::extract_inner_doc;
use sync_readme::report_synchronized;
use sync_readme::transform_readme;
use sync_readme::warnings::Warning;

fn b(s: &str) -> Vec<u8> {
    s.as_bytes().to_vec()
}

fn s(v: &[u8]) -> String {
    String::from_utf8(v.to_vec()).unwrap()
}

#[test]
fn end_to_end_extract_resolve_splice() {
    let source = b("//! Uses [Foo](crate::Foo).\npub struct Foo;\n");
    let readme = b("# Demo\n<!-- cargo-sync-readme -->\nfooter\n");
    let doc = extract_inner_doc(&source, false, false).unwrap();
    let r = transform_readme(&readme, &doc, &b("demo"), &source, false).unwrap();
    assert_eq!(
        s(&r.value),
        "# Demo\n<!-- cargo-sync-readme start -->\nUses [Foo](https://docs.rs/demo/latest/demo/struct.Foo.html).\n<!-- cargo-sync-readme end -->\nfooter\n"
    );
    assert!(r.warnings.is_empty());
}

#[test]
fn resolver_warnings_come_before_marker_warnings() {
    let source = b("//! [Gone](crate::Gone)\n");
    let readme = b("<!-- cargo-sync-readme -->\n<!-- cargo-sync-readme -->\n");
    let doc = extract_inner_doc(&source, false, false).unwrap();
    let r = transform_readme(&readme, &doc, &b("demo"), &source, false).unwrap();
    assert_eq!(r.warnings.len(), 2);
    assert!(matches!(&r.warnings[0], Warning::UnresolvedIntraLink(d) if d == &b("crate::Gone")));
    assert!(matches!(r.warnings[1], Warning::MultipleMarkers));
}

#[test]
fn check_mode_reports_synchronized_document() {
    let source = b("//! stable docs\n");
    let readme = b("<!-- cargo-sync-readme start -->\nstable docs\n<!-- cargo-sync-readme end -->\n");
    let doc = extract_inner_doc(&source, false, false).unwrap();
    let r = transform_readme(&readme, &doc, &b("demo"), &source, false).unwrap();
    assert!(report_synchronized(&readme, &r.value));
}

#[test]
fn check_mode_reports_drift_after_one_changed_character() {
    let source = b("//! stable docs\n");
    let readme = b("<!-- cargo-sync-readme start -->\nstable Docs\n<!-- cargo-sync-readme end -->\n");
    let doc = extract_inner_doc(&source, false, false).unwrap();
    let r = transform_readme(&readme, &doc, &b("demo"), &source, false).unwrap();
    assert!(!report_synchronized(&readme, &r.value));
}

#[test]
fn report_synchronized_compares_bytes() {
    assert!(report_synchronized(&b("same"), &b("same")));
    assert!(!report_synchronized(&b("same"), &b("same ")));
    assert!(!report_synchronized(&b("a"), &b("b")));
    assert!(report_synchronized(&b(""), &b("")));
}

#[test]
fn transform_propagates_missing_marker() {
    let source = b("//! docs\n");
    let doc = extract_inner_doc(&source, false, false).unwrap();
    let r = transform_readme(&b("no markers here\n"), &doc, &b("demo"), &source, false);
    assert!(r.is_err());
}
