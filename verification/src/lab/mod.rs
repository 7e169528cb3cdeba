//! Local scenarios that exercise the node's rules and report what happened.
pub mod fork;
pub mod invalid_block;
pub mod invalid_tx;
pub mod oversized_block;
pub mod replay;
pub mod report;
pub mod spam;

pub use report::LabReport;

use vstd::prelude::*;
use crate::node::text_eq;

verus! {

/// The report of the scenario called `name`, run with `txs` transactions where
/// it takes a count; a name that is no scenario gives a report saying so.
pub fn run_named(name: &str, txs: u64) -> (r: LabReport)
    ensures
        name@ == "spam"@ ==> r@ == spam::spam_report(txs),
        name@ == "replay"@ ==> r@ == replay::replay_report(),
        name@ == "invalid-tx"@ ==> r@ == invalid_tx::invalid_tx_report(),
        name@ == "invalid-block"@ ==> r@ == invalid_block::invalid_block_report(),
        name@ == "oversized-block"@ ==> r@ == oversized_block::oversized_block_report(),
        name@ == "fork"@ ==> r@ == fork::fork_report(),
        name@ != "spam"@ && name@ != "replay"@ && name@ != "invalid-tx"@ && name@ != "invalid-block"@
            && name@ != "oversized-block"@ && name@ != "fork"@ ==> r@ == report::noted(
            report::fresh(name@),
            "unknown scenario"@,
        ),
{
    proof {
        reveal_strlit("spam");
        reveal_strlit("replay");
        reveal_strlit("invalid-tx");
        reveal_strlit("invalid-block");
        reveal_strlit("oversized-block");
        reveal_strlit("fork");
        assert("replay"@.len() != "spam"@.len());
        assert("invalid-tx"@.len() != "spam"@.len());
        assert("invalid-tx"@.len() != "replay"@.len());
        assert("invalid-block"@.len() != "spam"@.len());
        assert("invalid-block"@.len() != "replay"@.len());
        assert("invalid-block"@.len() != "invalid-tx"@.len());
        assert("oversized-block"@.len() != "spam"@.len());
        assert("oversized-block"@.len() != "replay"@.len());
        assert("oversized-block"@.len() != "invalid-tx"@.len());
        assert("oversized-block"@.len() != "invalid-block"@.len());
        assert("fork"@[0] != "spam"@[0]);
        assert("fork"@.len() != "replay"@.len());
        assert("fork"@.len() != "invalid-tx"@.len());
        assert("fork"@.len() != "invalid-block"@.len());
        assert("fork"@.len() != "oversized-block"@.len());
    }
    if text_eq(name, "spam") {
        spam::run(txs)
    } else if text_eq(name, "replay") {
        replay::run()
    } else if text_eq(name, "invalid-tx") {
        invalid_tx::run()
    } else if text_eq(name, "invalid-block") {
        invalid_block::run()
    } else if text_eq(name, "oversized-block") {
        oversized_block::run()
    } else if text_eq(name, "fork") {
        fork::run()
    } else {
        LabReport::new(name).with_note("unknown scenario")
    }
}

} // verus!
