//! The `replay` scenario.
use vstd::prelude::*;
use crate::lab::report::{LabReport, LabReportView, fresh, noted};

verus! {

/// The report of the `replay` scenario.
pub open spec fn replay_report() -> LabReportView {
    noted(fresh("replay"@), "nonce and chain_id prevented replay"@)
}

/// Runs the `replay` scenario.
pub fn run() -> (r: LabReport)
    ensures
        r@ == replay_report(),
{
    LabReport::new("replay").with_note("nonce and chain_id prevented replay")
}

} // verus!
