//! The `fork` scenario.
use vstd::prelude::*;
use crate::lab::report::{LabReport, LabReportView, fresh, noted};

verus! {

/// The report of the `fork` scenario.
pub open spec fn fork_report() -> LabReportView {
    noted(fresh("fork"@), "local fork behavior recorded without public-network interaction"@)
}

/// Runs the `fork` scenario.
pub fn run() -> (r: LabReport)
    ensures
        r@ == fork_report(),
{
    LabReport::new("fork").with_note("local fork behavior recorded without public-network interaction")
}

} // verus!
