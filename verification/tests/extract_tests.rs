use sync_readme::extract::{extract_inner_doc, ExtractError};

fn b(s: &str) -> Vec<u8> {
    s.as_bytes().to_vec()
}

fn s(v: &[u8]) -> String {
    String::from_utf8(v.to_vec()).unwrap()
}

#[test]
fn extracts_leading_inner_doc() {
    let src = b("//! Hello\n//! World\nfn main() {}\n");
    let doc = extract_inner_doc(&src, false, false).unwrap();
    assert_eq!(s(&doc), "Hello\nWorld");
}

#[test]
fn strips_one_space_after_prefix() {
    let src = b("//!no space\n//!  two spaces\nfn main() {}\n");
    let doc = extract_inner_doc(&src, false, false).unwrap();
    assert_eq!(s(&doc), "no space\n two spaces");
}

#[test]
fn stops_at_first_code_line() {
    let src = b("//! kept\nuse other::thing;\n//! dropped\n");
    let doc = extract_inner_doc(&src, false, false).unwrap();
    assert_eq!(s(&doc), "kept");
}

#[test]
fn blank_and_attribute_lines_do_not_stop_the_block() {
    let src = b("//! one\n\n#![allow(dead_code)]\n//! two\nfn f() {}\n");
    let doc = extract_inner_doc(&src, false, false).unwrap();
    assert_eq!(s(&doc), "one\ntwo");
}

#[test]
fn no_documentation_is_an_error() {
    let src = b("fn main() {}\n");
    assert_eq!(extract_inner_doc(&src, false, false), Err(ExtractError::NoDocumentation));
}

#[test]
fn doc_after_code_only_is_an_error() {
    let src = b("use x::y;\n//! late\n");
    assert_eq!(extract_inner_doc(&src, false, false), Err(ExtractError::NoDocumentation));
}

#[test]
fn hidden_line_dropped_by_default() {
    let src = b("//! ```\n//! # secret\n//! shown\n//! ```\nfn f() {}\n");
    let doc = extract_inner_doc(&src, false, false).unwrap();
    assert_eq!(s(&doc), "```\nshown\n```");
}

#[test]
fn hidden_line_kept_on_request() {
    let src = b("//! ```\n//! # secret\n//! shown\n//! ```\nfn f() {}\n");
    let doc = extract_inner_doc(&src, true, false).unwrap();
    assert_eq!(s(&doc), "```\n# secret\nshown\n```");
}

#[test]
fn hash_outside_fence_is_prose_not_hidden() {
    let src = b("//! # Heading\n//! text\nfn f() {}\n");
    let doc = extract_inner_doc(&src, false, false).unwrap();
    assert_eq!(s(&doc), "# Heading\ntext");
}

#[test]
fn double_hash_inside_fence_is_not_hidden() {
    let src = b("//! ```\n//! ## kept\n//! ```\nfn f() {}\n");
    let doc = extract_inner_doc(&src, false, false).unwrap();
    assert_eq!(s(&doc), "```\n## kept\n```");
}

#[test]
fn crlf_renders_crlf_joins() {
    let src = b("//! a\n//! b\nfn f() {}\n");
    let doc = extract_inner_doc(&src, false, true).unwrap();
    assert_eq!(s(&doc), "a\r\nb");
}

#[test]
fn empty_source_is_an_error() {
    assert_eq!(extract_inner_doc(&Vec::new(), false, false), Err(ExtractError::NoDocumentation));
}

#[test]
fn fence_state_spans_several_blocks() {
    let src = b(
        "//! ```\n//! # h1\n//! ```\n//! # prose\n//! ```\n//! # h2\n//! ```\nfn f() {}\n",
    );
    let doc = extract_inner_doc(&src, false, false).unwrap();
    assert_eq!(s(&doc), "```\n```\n# prose\n```\n```");
}

#[test]
fn crlf_source_lines_are_read() {
    let src = b("//! a\r\n//! b\r\nfn f() {}\r\n");
    let doc = extract_inner_doc(&src, false, false).unwrap();
    assert_eq!(s(&doc), "a\nb");
}
