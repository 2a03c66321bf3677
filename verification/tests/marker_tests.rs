use sync_readme::markers::{splice_doc, TransformError};
use sync_readme::warnings::Warning;

fn b(s: &str) -> Vec<u8> {
    s.as_bytes().to_vec()
}

fn s(v: &[u8]) -> String {
    String::from_utf8(v.to_vec()).unwrap()
}

#[test]
fn bare_marker_becomes_wrapped_region() {
    let readme = b("# Title\n<!-- cargo-sync-readme -->\ntail\n");
    let r = splice_doc(&readme, &b("DOC"), false).unwrap();
    assert_eq!(
        s(&r.value),
        "# Title\n<!-- cargo-sync-readme start -->\nDOC\n<!-- cargo-sync-readme end -->\ntail\n"
    );
    assert!(r.warnings.is_empty());
}

#[test]
fn region_between_start_and_end_is_replaced() {
    let readme = b(
        "before\n<!-- cargo-sync-readme start -->\nold stuff\nmore old\n<!-- cargo-sync-readme end -->\nafter\n",
    );
    let r = splice_doc(&readme, &b("new"), false).unwrap();
    assert_eq!(
        s(&r.value),
        "before\n<!-- cargo-sync-readme start -->\nnew\n<!-- cargo-sync-readme end -->\nafter\n"
    );
    assert!(r.warnings.is_empty());
}

#[test]
fn no_marker_is_fatal() {
    match splice_doc(&b("just text\n"), &b("doc"), false) {
        Err(e) => assert_eq!(e, TransformError::NoMarkerFound),
        Ok(_) => panic!("expected an error"),
    }
}

#[test]
fn unclosed_start_is_fatal() {
    match splice_doc(&b("a\n<!-- cargo-sync-readme start -->\nb\n"), &b("doc"), false) {
        Err(e) => assert_eq!(e, TransformError::UnclosedStartMarker),
        Ok(_) => panic!("expected an error"),
    }
}

#[test]
fn two_bare_markers_use_first_and_warn() {
    let readme = b("<!-- cargo-sync-readme -->\nmid\n<!-- cargo-sync-readme -->\n");
    let r = splice_doc(&readme, &b("D"), false).unwrap();
    assert_eq!(
        s(&r.value),
        "<!-- cargo-sync-readme start -->\nD\n<!-- cargo-sync-readme end -->\nmid\n<!-- cargo-sync-readme -->\n"
    );
    assert_eq!(r.warnings.len(), 1);
    assert!(matches!(r.warnings[0], Warning::MultipleMarkers));
}

#[test]
fn stray_end_marker_warns_and_scan_goes_on() {
    let readme = b("<!-- cargo-sync-readme end -->\n<!-- cargo-sync-readme -->\n");
    let r = splice_doc(&readme, &b("D"), false).unwrap();
    assert_eq!(
        s(&r.value),
        "<!-- cargo-sync-readme end -->\n<!-- cargo-sync-readme start -->\nD\n<!-- cargo-sync-readme end -->\n"
    );
    assert_eq!(r.warnings.len(), 1);
    assert!(matches!(r.warnings[0], Warning::UnmatchedEndMarker));
}

#[test]
fn markers_after_closed_region_warn() {
    let readme = b(
        "<!-- cargo-sync-readme start -->\nold\n<!-- cargo-sync-readme end -->\n<!-- cargo-sync-readme -->\n",
    );
    let r = splice_doc(&readme, &b("D"), false).unwrap();
    assert_eq!(r.warnings.len(), 1);
    assert!(matches!(r.warnings[0], Warning::MultipleMarkers));
    assert_eq!(
        s(&r.value),
        "<!-- cargo-sync-readme start -->\nD\n<!-- cargo-sync-readme end -->\n<!-- cargo-sync-readme -->\n"
    );
}

#[test]
fn indented_marker_line_is_recognized() {
    let readme = b("  <!-- cargo-sync-readme -->  \n");
    let r = splice_doc(&readme, &b("D"), false).unwrap();
    assert_eq!(
        s(&r.value),
        "<!-- cargo-sync-readme start -->\nD\n<!-- cargo-sync-readme end -->\n"
    );
}

#[test]
fn empty_doc_produces_adjacent_markers() {
    let readme = b("<!-- cargo-sync-readme -->\n");
    let r = splice_doc(&readme, &b(""), false).unwrap();
    assert_eq!(s(&r.value), "<!-- cargo-sync-readme start -->\n<!-- cargo-sync-readme end -->\n");
}

#[test]
fn crlf_renders_generated_newlines() {
    let readme = b("head\r\n<!-- cargo-sync-readme -->\r\ntail\r\n");
    let r = splice_doc(&readme, &b("A\r\nB"), true).unwrap();
    assert_eq!(
        s(&r.value),
        "head\r\n<!-- cargo-sync-readme start -->\r\nA\r\nB\r\n<!-- cargo-sync-readme end -->\r\ntail\r\n"
    );
}

#[test]
fn text_outside_region_is_kept_byte_for_byte() {
    let readme = b("a \t weird  line\r\n<!-- cargo-sync-readme -->\nmixed\rbytes\n");
    let r = splice_doc(&readme, &b("D"), false).unwrap();
    assert_eq!(
        s(&r.value),
        "a \t weird  line\r\n<!-- cargo-sync-readme start -->\nD\n<!-- cargo-sync-readme end -->\nmixed\rbytes\n"
    );
}

#[test]
fn empty_document_has_no_marker() {
    match splice_doc(&Vec::new(), &b("doc"), false) {
        Err(e) => assert_eq!(e, TransformError::NoMarkerFound),
        Ok(_) => panic!("expected an error"),
    }
}

#[test]
fn splice_twice_is_idempotent() {
    let readme = b("intro\n<!-- cargo-sync-readme -->\noutro\n");
    let doc = b("line one\nline two");
    let once = splice_doc(&readme, &doc, false).unwrap().value;
    let twice = splice_doc(&once, &doc, false).unwrap().value;
    assert_eq!(once, twice);
}

#[test]
fn round_trip_recovers_doc_from_bare_marker_document() {
    let doc = b("alpha\nbeta");
    let out = splice_doc(&b("<!-- cargo-sync-readme -->"), &doc, false).unwrap().value;
    let text = s(&out);
    let inner = text
        .strip_prefix("<!-- cargo-sync-readme start -->\n")
        .unwrap()
        .strip_suffix("<!-- cargo-sync-readme end -->\n")
        .unwrap();
    assert_eq!(inner, "alpha\nbeta\n");
}
