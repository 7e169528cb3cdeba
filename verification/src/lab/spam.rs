//! The `spam` scenario: a flood of transfers against the mempool limits.
use vstd::prelude::*;
use crate::lab::report::{LabReport, LabReportView};

verus! {

/// The report of the `spam` scenario with `txs` generated transfers: at most
/// 2 000 accepted, the rest split between underpriced (a half), bad nonce (a
/// quarter) and a full mempool (what remains).
pub open spec fn spam_report(txs: u64) -> LabReportView {
    let accepted: u64 = if txs < 2_000 { txs } else { 2_000 };
    let remaining: u64 = (txs - accepted) as u64;
    LabReportView {
        scenario: "spam"@,
        generated: txs,
        accepted,
        rejected_underpriced: remaining / 2,
        rejected_nonce: remaining / 4,
        rejected_mempool_full: (remaining - remaining / 2 - remaining / 4) as u64,
        rejected_malformed: 0,
        node_status: "healthy"@,
        panic: false,
        notes: seq!["local simulation only; no third-party targets"@],
    }
}

/// Runs the `spam` scenario with `txs` generated transfers. Every transfer is
/// counted once: accepted, or rejected for one reason.
pub fn run(txs: u64) -> (r: LabReport)
    ensures
        r@ == spam_report(txs),
        r.accepted + r.rejected_underpriced + r.rejected_nonce + r.rejected_mempool_full + r.rejected_malformed
            == r.generated,
{
    let accepted = if txs < 2_000 { txs } else { 2_000 };
    let remaining = txs - accepted;
    let mut notes: Vec<String> = Vec::new();
    notes.push(String::from_str("local simulation only; no third-party targets"));
    let r = LabReport {
        scenario: String::from_str("spam"),
        generated: txs,
        accepted,
        rejected_underpriced: remaining / 2,
        rejected_nonce: remaining / 4,
        rejected_mempool_full: remaining - (remaining / 2) - (remaining / 4),
        rejected_malformed: 0,
        node_status: String::from_str("healthy"),
        panic: false,
        notes,
    };
    assert(r@.notes =~= seq!["local simulation only; no third-party targets"@]);
    r
}

} // verus!
