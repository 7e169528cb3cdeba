//! The report a lab scenario gives.
use vstd::prelude::*;
use crate::text::{decimal, push_decimal};

verus! {

/// What a scenario generated, how the node answered, and notes.
#[derive(Debug)]
pub struct LabReport {
    pub scenario: String,
    pub generated: u64,
    pub accepted: u64,
    pub rejected_underpriced: u64,
    pub rejected_nonce: u64,
    pub rejected_mempool_full: u64,
    pub rejected_malformed: u64,
    pub node_status: String,
    pub panic: bool,
    pub notes: Vec<String>,
}

/// A report as plain values.
pub struct LabReportView {
    pub scenario: Seq<char>,
    pub generated: u64,
    pub accepted: u64,
    pub rejected_underpriced: u64,
    pub rejected_nonce: u64,
    pub rejected_mempool_full: u64,
    pub rejected_malformed: u64,
    pub node_status: Seq<char>,
    pub panic: bool,
    pub notes: Seq<Seq<char>>,
}

impl View for LabReport {
    type V = LabReportView;

    open spec fn view(&self) -> LabReportView {
        LabReportView {
            scenario: self.scenario@,
            generated: self.generated,
            accepted: self.accepted,
            rejected_underpriced: self.rejected_underpriced,
            rejected_nonce: self.rejected_nonce,
            rejected_mempool_full: self.rejected_mempool_full,
            rejected_malformed: self.rejected_malformed,
            node_status: self.node_status@,
            panic: self.panic,
            notes: self.notes@.map_values(|n: String| n@),
        }
    }
}

/// A report with nothing counted, a healthy node and no notes.
pub open spec fn fresh(scenario: Seq<char>) -> LabReportView {
    LabReportView {
        scenario,
        generated: 0,
        accepted: 0,
        rejected_underpriced: 0,
        rejected_nonce: 0,
        rejected_mempool_full: 0,
        rejected_malformed: 0,
        node_status: "healthy"@,
        panic: false,
        notes: Seq::empty(),
    }
}

/// A report with one more note.
pub open spec fn noted(r: LabReportView, note: Seq<char>) -> LabReportView {
    LabReportView { notes: r.notes.push(note), ..r }
}

/// The text of a flag.
pub open spec fn flag_text(b: bool) -> Seq<char> {
    if b {
        "true"@
    } else {
        "false"@
    }
}

/// The note lines of a report.
pub open spec fn note_lines(notes: Seq<Seq<char>>) -> Seq<char>
    decreases notes.len(),
{
    if notes.len() == 0 {
        Seq::empty()
    } else {
        note_lines(notes.drop_last()) + "note: "@ + notes.last() + "\n"@
    }
}

/// A report as text, one `name: value` line each, then one line per note.
pub open spec fn report_text(r: LabReportView) -> Seq<char> {
    "scenario: "@ + r.scenario + "\n"@ + "generated: "@ + decimal(r.generated as nat) + "\n"@ + "accepted: "@
        + decimal(r.accepted as nat) + "\n"@ + "rejected_underpriced: "@ + decimal(r.rejected_underpriced as nat)
        + "\n"@ + "rejected_nonce: "@ + decimal(r.rejected_nonce as nat) + "\n"@ + "rejected_mempool_full: "@
        + decimal(r.rejected_mempool_full as nat) + "\n"@ + "rejected_malformed: "@ + decimal(
        r.rejected_malformed as nat,
    ) + "\n"@ + "node_status: "@ + r.node_status + "\n"@ + "panic: "@ + flag_text(r.panic) + "\n"@ + note_lines(
        r.notes,
    )
}

impl LabReport {
    /// A report for `scenario` with nothing counted, a healthy node and no notes.
    pub fn new(scenario: &str) -> (r: Self)
        ensures
            r@ == fresh(scenario@),
    {
        let r = LabReport {
            scenario: String::from_str(scenario),
            generated: 0,
            accepted: 0,
            rejected_underpriced: 0,
            rejected_nonce: 0,
            rejected_mempool_full: 0,
            rejected_malformed: 0,
            node_status: String::from_str("healthy"),
            panic: false,
            notes: Vec::new(),
        };
        assert(r@.notes =~= Seq::<Seq<char>>::empty());
        r
    }

    /// The report with `note` added after the others.
    pub fn with_note(self, note: &str) -> (r: Self)
        ensures
            r@ == noted(self@, note@),
    {
        let mut r = self;
        let ghost before = r.notes@;
        r.notes.push(String::from_str(note));
        assert(r.notes@.map_values(|n: String| n@) =~= before.map_values(|n: String| n@).push(note@));
        r
    }

    /// The report as text, one `name: value` line each, then one line per note.
    pub fn render(&self) -> (s: String)
        ensures
            s@ == report_text(self@),
    {
        let mut out = String::from_str("scenario: ");
        out.append(self.scenario.as_str());
        out.append("\n");
        out.append("generated: ");
        push_decimal(&mut out, self.generated);
        out.append("\n");
        out.append("accepted: ");
        push_decimal(&mut out, self.accepted);
        out.append("\n");
        out.append("rejected_underpriced: ");
        push_decimal(&mut out, self.rejected_underpriced);
        out.append("\n");
        out.append("rejected_nonce: ");
        push_decimal(&mut out, self.rejected_nonce);
        out.append("\n");
        out.append("rejected_mempool_full: ");
        push_decimal(&mut out, self.rejected_mempool_full);
        out.append("\n");
        out.append("rejected_malformed: ");
        push_decimal(&mut out, self.rejected_malformed);
        out.append("\n");
        out.append("node_status: ");
        out.append(self.node_status.as_str());
        out.append("\n");
        out.append("panic: ");
        if self.panic {
            out.append("true");
        } else {
            out.append("false");
        }
        out.append("\n");
        let ghost head = out@;
        let ghost notes = self@.notes;
        let mut i: usize = 0;
        while i < self.notes.len()
            invariant
                i <= self.notes@.len(),
                notes == self@.notes,
                out@ == head + note_lines(notes.take(i as int)),
            decreases self.notes@.len() - i,
        {
            out.append("note: ");
            out.append(self.notes[i].as_str());
            out.append("\n");
            assert(notes.take(i + 1).drop_last() =~= notes.take(i as int));
            i += 1;
        }
        assert(notes.take(self.notes@.len() as int) =~= notes);
        out
    }
}

} // verus!
