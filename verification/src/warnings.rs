//! Warnings and the warning-carrying result wrapper.
//!
//! Warnings are accumulated in order and never dropped: an anomaly degrades
//! the run to a best-effort result but stays visible to the caller.

use vstd::prelude::*;

verus! {

/// A non-fatal anomaly met while transforming the document.
pub enum Warning {
    /// An intra-documentation link whose target could not be classified;
    /// the link was left unchanged.  Carries the link destination.
    UnresolvedIntraLink(Vec<u8>),
    /// More than one usable marker or marker group was found; the first one
    /// was used.
    MultipleMarkers,
    /// An end marker appeared before any start marker and was ignored.
    UnmatchedEndMarker,
}

/// The mathematical form of a warning, over byte sequences.
pub enum WarningView {
    UnresolvedIntraLink(Seq<u8>),
    MultipleMarkers,
    UnmatchedEndMarker,
}

impl View for Warning {
    type V = WarningView;

    open spec fn view(&self) -> WarningView {
        match self {
            Warning::UnresolvedIntraLink(d) => WarningView::UnresolvedIntraLink(d@),
            Warning::MultipleMarkers => WarningView::MultipleMarkers,
            Warning::UnmatchedEndMarker => WarningView::UnmatchedEndMarker,
        }
    }
}

/// The views of a vector of warnings, in order.
pub open spec fn warning_views(ws: Seq<Warning>) -> Seq<WarningView> {
    ws.map_values(|w: Warning| w@)
}

/// A value together with the ordered warnings met while producing it.
pub struct WithWarnings<T> {
    pub value: T,
    pub warnings: Vec<Warning>,
}

} // verus!
