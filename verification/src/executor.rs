//! From a finished attempt to run a command to the text shown for it.

use vstd::prelude::*;
use vstd::string::StringExecFns;
use crate::text::{from_chars, lemma_scan_stop, scan, scan_forward, texts, to_chars, Class};

verus! {

/// What a tab character becomes: four spaces.
pub const TAB_FILL: &'static str = "    ";

/// What stands between the output of a failed command and its exit status.
pub const FAILURE_HEAD: &'static str = "\n\n----------\nCMD failed with status: ";

/// What stands between the exit status and the captured error output.
pub const STDERR_HEAD: &'static str = ", STDERR:\n";

/// The text for the bytes that a command wrote, as `String::from_utf8_lossy`
/// decodes them: invalid sequences are replaced, never rejected.
pub uninterp spec fn lossy_text(bytes: Seq<u8>) -> Seq<char>;

/// `String::from_utf8_lossy` of the standard library. Nothing is proved of
/// it; what is taken on trust is that the text depends on the bytes alone.
#[verifier::external_body]
fn decode_lossy(bytes: &[u8]) -> (text: String)
    ensures
        text@ == lossy_text(bytes@),
{
    String::from_utf8_lossy(bytes).into_owned()
}

/// What a process left behind when it exited.
#[derive(Debug, Clone, PartialEq, Eq)]
pub struct Captured {
    /// Whether the exit status reports success.
    pub success: bool,
    /// The exit status, as text.
    pub status: String,
    /// The bytes written to standard output.
    pub stdout: Vec<u8>,
    /// The bytes written to standard error.
    pub stderr: Vec<u8>,
}

/// How the attempt to run a command ended.
#[derive(Debug, Clone, PartialEq, Eq)]
pub enum Launch {
    /// The process ran and exited.
    Exited(Captured),
    /// The process could not be started; the text says why.
    Failed(String),
}

/// The arguments in `s` from position `from` on: the runs of characters
/// between ASCII white space.
pub open spec fn words_from(s: Seq<char>, from: int) -> Seq<Seq<char>>
    decreases s.len() - from,
{
    let start = scan(s, from, Class::AsciiBlank, true);
    let end = scan(s, start, Class::AsciiBlank, false);
    if 0 <= from && start < s.len() {
        proof {
            lemma_word_is_not_empty(s, from);
        }
        seq![s.subrange(start, end)] + words_from(s, end)
    } else {
        Seq::empty()
    }
}

/// The arguments that an argument string holds. There is no quoting: an
/// argument cannot hold white space.
pub open spec fn words(s: Seq<char>) -> Seq<Seq<char>> {
    words_from(s, 0)
}

/// After white space has been passed over, the run that follows, if the
/// sequence has not ended, holds at least one character.
pub proof fn lemma_word_is_not_empty(s: Seq<char>, from: int)
    requires
        0 <= from,
        scan(s, from, Class::AsciiBlank, true) < s.len(),
    ensures
        from <= scan(s, from, Class::AsciiBlank, true) < scan(
            s,
            scan(s, from, Class::AsciiBlank, true),
            Class::AsciiBlank,
            false,
        ) <= s.len(),
{
    let start = scan(s, from, Class::AsciiBlank, true);
    lemma_scan_stop(s, from, Class::AsciiBlank, true);
    lemma_scan_stop(s, start + 1, Class::AsciiBlank, false);
}

/// Every argument holds at least one character and no ASCII white space.
pub proof fn lemma_words_are_solid(s: Seq<char>, from: int)
    requires
        0 <= from <= s.len(),
    ensures
        forall|i: int|
            0 <= i < words_from(s, from).len() ==> (#[trigger] words_from(s, from)[i]).len() > 0,
        forall|i: int, k: int|
            0 <= i < words_from(s, from).len() && 0 <= k < words_from(s, from)[i].len()
                ==> !Class::AsciiBlank.has(#[trigger] words_from(s, from)[i][k]),
    decreases s.len() - from,
{
    let start = scan(s, from, Class::AsciiBlank, true);
    let end = scan(s, start, Class::AsciiBlank, false);
    lemma_scan_stop(s, from, Class::AsciiBlank, true);
    if start < s.len() {
        lemma_word_is_not_empty(s, from);
        lemma_scan_stop(s, start, Class::AsciiBlank, false);
        lemma_words_are_solid(s, end);
        let word = s.subrange(start, end);
        let rest = words_from(s, end);
        assert forall|i: int, k: int|
            0 <= i < words_from(s, from).len() && 0 <= k < words_from(s, from)[i].len()
            implies !Class::AsciiBlank.has(#[trigger] words_from(s, from)[i][k]) by {
            if i == 0 {
                assert(word[k] == s[start + k]);
            } else {
                assert(words_from(s, from)[i] == rest[i - 1]);
            }
        }
    }
}

/// What one character becomes in normalized output.
pub open spec fn glyph(c: char) -> Seq<char> {
    if c == '\t' {
        TAB_FILL@
    } else {
        seq![c]
    }
}

/// The text with every tab replaced by four spaces.
pub open spec fn expand_tabs(s: Seq<char>) -> Seq<char>
    decreases s.len(),
{
    if s.len() == 0 {
        Seq::empty()
    } else {
        expand_tabs(s.drop_last()) + glyph(s.last())
    }
}

/// What is added to the output of a command that exited with a failure.
pub open spec fn failure_note(status: Seq<char>, stderr: Seq<char>) -> Seq<char> {
    FAILURE_HEAD@ + status + STDERR_HEAD@ + stderr
}

/// The text shown for a process that exited.
pub open spec fn rendered(
    stdout: Seq<char>,
    success: bool,
    status: Seq<char>,
    stderr: Seq<char>,
) -> Seq<char> {
    if success {
        expand_tabs(stdout)
    } else {
        expand_tabs(stdout) + failure_note(status, stderr)
    }
}

/// The text shown for an attempt to run a command.
pub open spec fn summary_of(launch: Launch) -> Seq<char> {
    match launch {
        Launch::Exited(captured) => rendered(
            lossy_text(captured.stdout@),
            captured.success,
            captured.status@,
            lossy_text(captured.stderr@),
        ),
        Launch::Failed(reason) => reason@,
    }
}

/// Normalized output holds no tab.
pub proof fn lemma_expand_tabs_has_no_tab(s: Seq<char>)
    ensures
        forall|k: int| 0 <= k < expand_tabs(s).len() ==> #[trigger] expand_tabs(s)[k] != '\t',
    decreases s.len(),
{
    if s.len() > 0 {
        lemma_expand_tabs_has_no_tab(s.drop_last());
        let head = expand_tabs(s.drop_last());
        let tail = glyph(s.last());
        assert forall|k: int| 0 <= k < tail.len() implies #[trigger] tail[k] != '\t' by {
            reveal_strlit("    ");
        }
        assert forall|k: int| 0 <= k < expand_tabs(s).len() implies #[trigger] expand_tabs(s)[k]
            != '\t' by {
            if k >= head.len() {
                assert(expand_tabs(s)[k] == tail[k - head.len()]);
            }
        }
    }
}

/// Replaces every tab by four spaces.
pub fn normalize(text: &str) -> (out: String)
    ensures
        out@ == expand_tabs(text@),
        forall|k: int| 0 <= k < out@.len() ==> #[trigger] out@[k] != '\t',
{
    let mut out: String = String::new();
    for c in it: text.chars()
        invariant
            it.seq() == text@,
            out@ == expand_tabs(text@.take(it.index() as int)),
    {
        assert(text@.take(it.index() + 1).drop_last() == text@.take(it.index() as int));
        if c == '\t' {
            out.append(TAB_FILL);
        } else {
            out.push(c);
        }
    }
    proof {
        assert(text@.take(text@.len() as int) == text@);
        lemma_expand_tabs_has_no_tab(text@);
    }
    out
}

/// Splits an argument string at ASCII white space.
pub fn split_args(args: &str) -> (argv: Vec<String>)
    ensures
        texts(argv@) == words(args@),
        forall|i: int| 0 <= i < argv.len() ==> (#[trigger] argv[i])@.len() > 0,
        forall|i: int, k: int|
            0 <= i < argv.len() && 0 <= k < argv[i]@.len() ==> !Class::AsciiBlank.has(
                #[trigger] argv[i]@[k],
            ),
{
    let chars: Vec<char> = to_chars(args);
    let mut argv: Vec<String> = Vec::new();
    let mut start: usize = scan_forward(&chars, 0, Class::AsciiBlank, true);
    proof {
        lemma_scan_stop(chars@, 0, Class::AsciiBlank, true);
    }
    while start < chars.len()
        invariant
            start <= chars.len(),
            chars@ == args@,
            start == scan(chars@, start as int, Class::AsciiBlank, true),
            texts(argv@) + words_from(chars@, start as int) == words(args@),
        decreases chars.len() - start,
    {
        let end: usize = scan_forward(&chars, start, Class::AsciiBlank, false);
        let word: String = from_chars(&chars, start, end);
        let next: usize = scan_forward(&chars, end, Class::AsciiBlank, true);
        proof {
            lemma_word_is_not_empty(chars@, start as int);
            lemma_scan_stop(chars@, end as int, Class::AsciiBlank, true);
            assert(words_from(chars@, start as int) == seq![word@] + words_from(
                chars@,
                end as int,
            ));
        }
        argv.push(word);
        start = next;
    }
    proof {
        lemma_words_are_solid(args@, 0);
        assert forall|i: int| 0 <= i < argv.len() implies (#[trigger] argv[i])@ == words(
            args@,
        )[i] by {
            assert(texts(argv@)[i] == argv[i]@);
        }
    }
    argv
}

/// The text shown for a process that exited: its output with tabs replaced
/// and, after a failure, the exit status and the error output.
pub fn render(stdout: &str, success: bool, status: &str, stderr: &str) -> (out: String)
    ensures
        out@ == rendered(stdout@, success, status@, stderr@),
{
    let mut out: String = normalize(stdout);
    if !success {
        out.append(FAILURE_HEAD);
        out.append(status);
        out.append(STDERR_HEAD);
        out.append(stderr);
    }
    out
}

/// The text shown for an attempt to run a command. A process that could not
/// be started gives the reason as its text.
pub fn run_cmd(launch: &Launch) -> (out: String)
    ensures
        out@ == summary_of(*launch),
{
    match launch {
        Launch::Exited(captured) => {
            let stdout: String = decode_lossy(captured.stdout.as_slice());
            if captured.success {
                render(stdout.as_str(), true, "", "")
            } else {
                let stderr: String = decode_lossy(captured.stderr.as_slice());
                render(stdout.as_str(), false, captured.status.as_str(), stderr.as_str())
            }
        },
        Launch::Failed(reason) => reason.clone(),
    }
}

} // verus!
