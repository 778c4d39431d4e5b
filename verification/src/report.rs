//! What one command left behind: its name and the text to show for it.

use vstd::prelude::*;

verus! {

/// The outcome of attempting one command.
#[derive(Debug, Clone, PartialEq, Eq)]
pub struct CmdOutput {
    /// The executable's name; it labels the tab.
    pub cmdname: String,
    /// The text shown in the tab.
    pub summary: String,
}

/// A `CmdOutput` as two sequences of characters.
pub struct CmdOutputView {
    pub cmdname: Seq<char>,
    pub summary: Seq<char>,
}

impl View for CmdOutput {
    type V = CmdOutputView;

    open spec fn view(&self) -> CmdOutputView {
        CmdOutputView { cmdname: self.cmdname@, summary: self.summary@ }
    }
}

/// The views of a list of outputs, in the same order.
pub open spec fn views(outputs: Seq<CmdOutput>) -> Seq<CmdOutputView> {
    Seq::new(outputs.len(), |i: int| outputs[i]@)
}

} // verus!
