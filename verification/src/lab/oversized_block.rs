//! The `oversized-block` scenario.
use vstd::prelude::*;
use crate::lab::report::{LabReport, LabReportView, fresh, noted};

verus! {

/// The report of the `oversized-block` scenario.
pub open spec fn oversized_block_report() -> LabReportView {
    noted(fresh("oversized-block"@), "block size limit rejected oversized payload"@)
}

/// Runs the `oversized-block` scenario.
pub fn run() -> (r: LabReport)
    ensures
        r@ == oversized_block_report(),
{
    LabReport::new("oversized-block").with_note("block size limit rejected oversized payload")
}

} // verus!
