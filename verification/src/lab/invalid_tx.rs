//! The `invalid-tx` scenario.
use vstd::prelude::*;
use crate::lab::report::{LabReport, LabReportView, fresh, noted};

verus! {

/// The report of the `invalid-tx` scenario.
pub open spec fn invalid_tx_report() -> LabReportView {
    noted(fresh("invalid-tx"@), "malformed signatures and zero-amount transfers were rejected"@)
}

/// Runs the `invalid-tx` scenario.
pub fn run() -> (r: LabReport)
    ensures
        r@ == invalid_tx_report(),
{
    LabReport::new("invalid-tx").with_note("malformed signatures and zero-amount transfers were rejected")
}

} // verus!
