//! The `invalid-block` scenario.
use vstd::prelude::*;
use crate::lab::report::{LabReport, LabReportView, fresh, noted};

verus! {

/// The report of the `invalid-block` scenario.
pub open spec fn invalid_block_report() -> LabReportView {
    noted(fresh("invalid-block"@), "bad roots and wrong previous hash were rejected"@)
}

/// Runs the `invalid-block` scenario.
pub fn run() -> (r: LabReport)
    ensures
        r@ == invalid_block_report(),
{
    LabReport::new("invalid-block").with_note("bad roots and wrong previous hash were rejected")
}

} // verus!
