//! The command list: one command per line, `#` starts a comment, lines with
//! nothing left are skipped.

use vstd::prelude::*;
use crate::text::{
    from_chars, lemma_scan_back_stop, lemma_scan_stop, scan, scan_back, scan_backward,
    scan_forward, texts, to_chars, Class,
};

verus! {

/// One command to run: the executable's name and its arguments, still in one
/// piece.
#[derive(Debug, Clone, PartialEq, Eq)]
pub struct CommandSpec {
    name: String,
    args: String,
}

/// A `CommandSpec` as two sequences of characters.
pub struct CommandLine {
    pub name: Seq<char>,
    pub args: Seq<char>,
}

/// The line up to its first `#`.
pub open spec fn strip_comment(line: Seq<char>) -> Seq<char> {
    line.take(scan(line, 0, Class::Hash, false))
}

/// `s` without the white space at its two ends.
pub open spec fn trim(s: Seq<char>) -> Seq<char> {
    let start = scan(s, 0, Class::Blank, true);
    let end = scan_back(s, s.len() as int, Class::Blank, true);
    if start < end {
        s.subrange(start, end)
    } else {
        Seq::empty()
    }
}

/// What a line holds once its comment and the surrounding white space are gone.
pub open spec fn command_text(line: Seq<char>) -> Seq<char> {
    trim(strip_comment(line))
}

/// Whether a line holds a command.
pub open spec fn is_command(line: Seq<char>) -> bool {
    command_text(line).len() > 0
}

/// The text split at its first run of white space: the name before the run,
/// the arguments after it.
pub open spec fn split_command(text: Seq<char>) -> CommandLine {
    let name_end = scan(text, 0, Class::Blank, false);
    let args_start = scan(text, name_end, Class::Blank, true);
    CommandLine { name: text.take(name_end), args: text.skip(args_start) }
}

/// The command on a line, if the line holds one.
pub open spec fn command_on(line: Seq<char>) -> Option<CommandLine> {
    if is_command(line) {
        Some(split_command(command_text(line)))
    } else {
        None
    }
}

/// The commands on the lines that hold one, in the lines' order.
pub open spec fn commands_on(lines: Seq<Seq<char>>) -> Seq<CommandLine> {
    lines.filter_map(|line: Seq<char>| command_on(line))
}

/// The commands as pairs of sequences of characters.
pub open spec fn command_views(commands: Seq<CommandSpec>) -> Seq<CommandLine> {
    Seq::new(commands.len(), |i: int| commands[i]@)
}

impl View for CommandSpec {
    type V = CommandLine;

    closed spec fn view(&self) -> CommandLine {
        CommandLine { name: self.name@, args: self.args@ }
    }
}

impl CommandSpec {
    /// A command has a name.
    pub open spec fn wf(&self) -> bool {
        self@.name.len() > 0
    }

    /// The executable's name.
    pub fn name(&self) -> (name: &str)
        ensures
            name@ == self@.name,
    {
        self.name.as_str()
    }

    /// The arguments, as written on the line.
    pub fn args(&self) -> (args: &str)
        ensures
            args@ == self@.args,
    {
        self.args.as_str()
    }

    /// Reads one line of the command list.
    pub fn parse(line: &str) -> (parsed: Option<CommandSpec>)
        ensures
            parsed is Some <==> is_command(line@),
            parsed matches Some(command) ==> Some(command@) == command_on(line@) && command.wf(),
    {
        let mut chars: Vec<char> = to_chars(line);
        let cut: usize = scan_forward(&chars, 0, Class::Hash, false);
        chars.truncate(cut);
        let start: usize = scan_forward(&chars, 0, Class::Blank, true);
        let end: usize = scan_backward(&chars, chars.len(), Class::Blank, true);
        if start >= end {
            return None;
        }
        chars.truncate(end);
        let text: Vec<char> = chars.split_off(start);
        assert(text@ == command_text(line@));
        let name_end: usize = scan_forward(&text, 0, Class::Blank, false);
        let args_start: usize = scan_forward(&text, name_end, Class::Blank, true);
        let name: String = from_chars(&text, 0, name_end);
        let args: String = from_chars(&text, args_start, text.len());
        proof {
            lemma_command_shape(line@);
        }
        Some(CommandSpec { name, args })
    }
}

/// What is left of a line that holds a command neither starts nor ends with
/// white space, and holds no `#`.
pub proof fn lemma_command_text_edges(line: Seq<char>)
    requires
        is_command(line),
    ensures
        !Class::Blank.has(command_text(line).first()),
        !Class::Blank.has(command_text(line).last()),
        forall|k: int|
            0 <= k < command_text(line).len() ==> #[trigger] command_text(line)[k] != '#',
{
    let code = strip_comment(line);
    lemma_scan_stop(line, 0, Class::Hash, false);
    lemma_scan_stop(code, 0, Class::Blank, true);
    lemma_scan_back_stop(code, code.len() as int, Class::Blank, true);
}

/// A command has a name, which holds no white space; neither the name nor
/// the arguments hold a `#`: a comment is never passed on.
pub proof fn lemma_command_shape(line: Seq<char>)
    requires
        is_command(line),
    ensures
        command_on(line) is Some,
        command_on(line)->0.name.len() > 0,
        forall|k: int|
            0 <= k < command_on(line)->0.name.len() ==> !Class::Blank.has(
                #[trigger] command_on(line)->0.name[k],
            ),
        forall|k: int|
            0 <= k < command_on(line)->0.name.len() ==> #[trigger] command_on(line)->0.name[k]
                != '#',
        forall|k: int|
            0 <= k < command_on(line)->0.args.len() ==> #[trigger] command_on(line)->0.args[k]
                != '#',
{
    let text = command_text(line);
    let name_end = scan(text, 0, Class::Blank, false);
    let args_start = scan(text, name_end, Class::Blank, true);
    lemma_command_text_edges(line);
    lemma_scan_stop(text, 0, Class::Blank, false);
    lemma_scan_stop(text, name_end, Class::Blank, true);
    let command = split_command(text);
    assert forall|k: int| 0 <= k < command.name.len() implies !Class::Blank.has(
        #[trigger] command.name[k],
    ) && command.name[k] != '#' by {
        assert(command.name[k] == text[k]);
    }
    assert forall|k: int| 0 <= k < command.args.len() implies #[trigger] command.args[k]
        != '#' by {
        assert(command.args[k] == text[args_start + k]);
    }
}

/// The command list holds as many commands as it has lines that are neither
/// blank nor only a comment.
pub proof fn lemma_one_command_per_usable_line(lines: Seq<Seq<char>>)
    ensures
        commands_on(lines).len() == lines.filter(|line: Seq<char>| is_command(line)).len(),
    decreases lines.len(),
{
    let usable = |line: Seq<char>| is_command(line);
    if lines.len() == 0 {
        lines.lemma_filter_len(usable);
    } else {
        lemma_one_command_per_usable_line(lines.drop_last());
        lines.drop_last().lemma_filter_push(lines.last(), usable);
        assert(lines.drop_last().push(lines.last()) == lines);
    }
}

/// Reads the command list: every line that holds a command gives one
/// command, in the order of the lines.
pub fn read_cmds(lines: &Vec<String>) -> (commands: Vec<CommandSpec>)
    ensures
        command_views(commands@) == commands_on(texts(lines@)),
        forall|i: int| 0 <= i < commands.len() ==> (#[trigger] commands[i]).wf(),
{
    let mut commands: Vec<CommandSpec> = Vec::new();
    let ghost all = texts(lines@);
    let ghost f = |line: Seq<char>| command_on(line);
    let mut i: usize = 0;
    while i < lines.len()
        invariant
            i <= lines.len(),
            all == texts(lines@),
            f == |line: Seq<char>| command_on(line),
            command_views(commands@) == all.take(i as int).filter_map(f),
            forall|k: int| 0 <= k < commands.len() ==> (#[trigger] commands[k]).wf(),
        decreases lines.len() - i,
    {
        proof {
            all.lemma_filter_map_take_succ(f, i as int);
        }
        if let Some(command) = CommandSpec::parse(lines[i].as_str()) {
            commands.push(command);
        }
        i = i + 1;
    }
    assert(all.take(lines.len() as int) == all);
    commands
}

} // verus!
