//! One command, from the answer on whether it is installed to its result.

use vstd::prelude::*;
use vstd::string::StringExecFns;
use crate::availability::{available, check_which_cmd, Probe};
use crate::executor::{run_cmd, split_args, summary_of, words, Launch};
use crate::report::{CmdOutput, CmdOutputView};
use crate::source::{CommandLine, CommandSpec};
use crate::text::texts;

verus! {

/// What the result of a command that is not installed starts with.
pub const NOT_FOUND_HEAD: &'static str = "CMD ";

/// What follows the command's name in that result.
pub const NOT_FOUND_TAIL: &'static str =
    " not exist. Please recheck or install corresponding packages.";

/// What to do for a command once it is known whether it is installed.
#[derive(Debug, Clone, PartialEq, Eq)]
pub enum Step {
    /// Start the executable with these arguments.
    Launch { program: String, argv: Vec<String> },
    /// Run nothing: this is the command's result.
    Done(CmdOutput),
}

/// A `Step` over sequences of characters.
pub enum StepView {
    Launch { program: Seq<char>, argv: Seq<Seq<char>> },
    Done(CmdOutputView),
}

impl View for Step {
    type V = StepView;

    open spec fn view(&self) -> StepView {
        match *self {
            Step::Launch { program, argv } => StepView::Launch {
                program: program@,
                argv: texts(argv@),
            },
            Step::Done(out) => StepView::Done(out@),
        }
    }
}

/// The text shown for a command that is not installed.
pub open spec fn not_found_text(name: Seq<char>) -> Seq<char> {
    NOT_FOUND_HEAD@ + name + NOT_FOUND_TAIL@
}

/// The result of a command that is not installed.
pub open spec fn not_found(command: CommandLine) -> CmdOutputView {
    CmdOutputView { cmdname: command.name, summary: not_found_text(command.name) }
}

/// The step that follows the probe: a command taken to be
/// installed is started with its arguments split at white space; for any
/// other nothing is started.
pub open spec fn planned(command: CommandLine, probe: Probe) -> StepView {
    if available(probe) {
        StepView::Launch { program: command.name, argv: words(command.args) }
    } else {
        StepView::Done(not_found(command))
    }
}

/// The result of a command that was started.
pub open spec fn concluded(command: CommandLine, launch: Launch) -> CmdOutputView {
    CmdOutputView { cmdname: command.name, summary: summary_of(launch) }
}

/// Decides what to do for `command` once the probe is in.
pub fn plan(command: &CommandSpec, probe: Probe) -> (step: Step)
    ensures
        step@ == planned(command@, probe),
{
    if check_which_cmd(probe) {
        Step::Launch {
            program: command.name().to_owned(),
            argv: split_args(command.args()),
        }
    } else {
        let mut summary: String = String::from_str(NOT_FOUND_HEAD);
        summary.append(command.name());
        summary.append(NOT_FOUND_TAIL);
        Step::Done(CmdOutput { cmdname: command.name().to_owned(), summary })
    }
}

/// Makes the result of `command` from the way its run ended.
pub fn conclude(command: &CommandSpec, launch: &Launch) -> (out: CmdOutput)
    ensures
        out@ == concluded(command@, *launch),
{
    CmdOutput { cmdname: command.name().to_owned(), summary: run_cmd(launch) }
}

} // verus!
