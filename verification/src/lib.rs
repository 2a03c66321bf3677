//! Synchronizes the top-level documentation of a source module into a
//! delimited region of a Markdown document.
//!
//! The engine extracts the leading inner-documentation block of a source
//! file, rewrites intra-documentation links into external documentation
//! URLs, and splices the result between marker lines of a target document,
//! accumulating structural warnings instead of failing on anomalies.

use vstd::prelude::*;

pub mod bytes;
pub mod lines;
pub mod links;
pub mod extract;
pub mod laws;
pub mod markers;
pub mod symbols;
pub mod warnings;

verus! {

use crate::markers::{
    splice_ok,
    splice_text,
    splice_warnings,
    splice_final_state,
    TransformError,
};
use crate::symbols::spec_classify;
use crate::links::spec_resolve_doc;
use crate::warnings::{warning_views, WithWarnings, WarningView};

/// The documentation text after link resolution against the source's
/// symbol table.
pub open spec fn resolved_doc_text(doc: Seq<u8>, source: Seq<u8>, crate_name: Seq<u8>) -> Seq<u8> {
    spec_resolve_doc(doc, spec_classify(source), crate_name).0
}

/// The warnings link resolution emits, in order.
pub open spec fn resolution_warnings(doc: Seq<u8>, source: Seq<u8>, crate_name: Seq<u8>) -> Seq<
    WarningView,
> {
    spec_resolve_doc(doc, spec_classify(source), crate_name).1
}

/// Rewrites the intra-links of `doc` against the symbols declared in
/// `source`, then splices the result into `readme` at its marker anchor.
/// The warnings are the link resolver's followed by the marker scan's.
pub fn transform_readme(
    readme: &Vec<u8>,
    doc: &Vec<u8>,
    crate_name: &Vec<u8>,
    source: &Vec<u8>,
    crlf: bool,
) -> (r: Result<WithWarnings<Vec<u8>>, TransformError>)
    ensures
        r is Ok <==> splice_ok(readme@),
        r matches Ok(ww) ==> ww.value@ == splice_text(
            readme@,
            resolved_doc_text(doc@, source@, crate_name@),
            crlf,
        ) && warning_views(ww.warnings@) == resolution_warnings(doc@, source@, crate_name@)
            + splice_warnings(readme@),
        r matches Err(e) ==> (e == TransformError::NoMarkerFound <==> splice_final_state(readme@)
            is Seeking) && (e == TransformError::UnclosedStartMarker <==> splice_final_state(
            readme@,
        ) is FoundStart),
{
    let table = crate::symbols::classify_symbols(source);
    let resolved = crate::links::resolve_intra_links(doc, &table, crate_name);
    match crate::markers::splice_doc(readme, &resolved.value, crlf) {
        Ok(spliced) => {
            let mut all = resolved.warnings;
            let mut more = spliced.warnings;
            let ghost first = warning_views(all@);
            let ghost second = warning_views(more@);
            all.append(&mut more);
            proof {
                assert(warning_views(all@) =~= first + second);
            }
            Ok(WithWarnings { value: spliced.value, warnings: all })
        },
        Err(e) => Err(e),
    }
}

/// Whether the document on disk already equals the freshly generated one:
/// the verdict of check mode.
pub fn report_synchronized(old_text: &Vec<u8>, new_text: &Vec<u8>) -> (r: bool)
    ensures
        r <==> old_text@ == new_text@,
{
    if old_text.len() != new_text.len() {
        return false;
    }
    let mut i: usize = 0;
    while i < old_text.len()
        invariant
            0 <= i <= old_text@.len(),
            old_text@.len() == new_text@.len(),
            forall|j: int| 0 <= j < i ==> old_text@[j] == new_text@[j],
        decreases old_text@.len() - i,
    {
        if old_text[i] != new_text[i] {
            return false;
        }
        i += 1;
    }
    proof {
        assert(old_text@ =~= new_text@);
    }
    true
}

} // verus!
