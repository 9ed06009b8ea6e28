//! The report protocol: every level of the inventory renders a textual
//! status report, composed from its children's reports.

use vstd::prelude::*;

verus! {

/// Types that render a human-readable text report of their state. The
/// exact text is pinned by `spec_report`.
pub trait Report {
    /// The exact text of the report.
    spec fn spec_report(&self) -> Seq<char>;

    /// Renders the report.
    fn report(&self) -> (r: String)
        ensures
            r@ == self.spec_report(),
    ;
}

} // verus!
