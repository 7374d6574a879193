//! Journal lines: their severity, the bounded buffer that holds them, the
//! `journalctl` command line, and the decisions of the loop that follows
//! `journalctl -f` and restarts it when it ends.
//!
//! Spawning the process, reading its output, sending lines on and sleeping
//! are the caller's part; [`follow_step`] says what to do after each of them.

use vstd::prelude::*;
use std::collections::VecDeque;
use crate::config::Config;
use crate::text::{
    chars_of, contains, contains_vec, decimal, decimal_string, lemma_parse_decimal, lower_all,
    lower_vec, parse_unsigned, string_views,
};

verus! {

/// A rough severity, used to tint a line.
#[derive(Debug, Clone, Copy, PartialEq, Eq, Structural)]
pub enum Severity {
    Error,
    Warning,
    Info,
    Debug,
}

/// One line of the journal with its severity.
#[derive(Debug, Clone)]
pub struct LogLine {
    pub text: String,
    pub severity: Severity,
}

// ---------------------------------------------------------------------------
// Severity
// ---------------------------------------------------------------------------

/// The severity of a `short-iso` journal line, from words in it, in any
/// ASCII case: errors first, then warnings, then debug output; anything
/// else is informational.
pub open spec fn severity_of(line: Seq<char>) -> Severity {
    let l = lower_all(line);
    if contains(l, " error"@) || contains(l, ":error"@) || contains(l, " err:"@) || contains(
        l,
        "critical"@,
    ) || contains(l, "fatal"@) || contains(l, " failed"@) || contains(l, "failure"@) {
        Severity::Error
    } else if contains(l, " warn"@) || contains(l, ":warn"@) || contains(l, "warning"@) {
        Severity::Warning
    } else if contains(l, " debug"@) || contains(l, ":debug"@) || contains(l, " trace"@) {
        Severity::Debug
    } else {
        Severity::Info
    }
}

/// Whether the lower-cased line `l` contains `word`.
fn has(l: &Vec<char>, word: &str) -> (r: bool)
    ensures
        r == contains(l@, word@),
{
    contains_vec(l, &chars_of(word))
}

/// Infers a rough severity from a `short-iso` journal line, for tinting.
pub fn classify(line: &str) -> (r: Severity)
    ensures
        r == severity_of(line@),
{
    let l = lower_vec(&chars_of(line));
    if has(&l, " error") || has(&l, ":error") || has(&l, " err:") || has(&l, "critical") || has(
        &l,
        "fatal",
    ) || has(&l, " failed") || has(&l, "failure") {
        Severity::Error
    } else if has(&l, " warn") || has(&l, ":warn") || has(&l, "warning") {
        Severity::Warning
    } else if has(&l, " debug") || has(&l, ":debug") || has(&l, " trace") {
        Severity::Debug
    } else {
        Severity::Info
    }
}

// ---------------------------------------------------------------------------
// The line buffer
// ---------------------------------------------------------------------------

/// The last `max` items of `s` (all of them when there are no more).
pub open spec fn newest<T>(s: Seq<T>, max: nat) -> Seq<T> {
    if s.len() > max {
        s.skip(s.len() - max)
    } else {
        s
    }
}

/// Appends `line` and drops the oldest lines until at most `max_lines` are left.
pub fn push_line(buffer: &mut VecDeque<LogLine>, line: LogLine, max_lines: usize)
    ensures
        final(buffer)@ == newest(old(buffer)@.push(line), max_lines as nat),
{
    let ghost all = old(buffer)@.push(line);
    buffer.push_back(line);
    while buffer.len() > max_lines
        invariant
            all.len() >= buffer@.len(),
            buffer@.len() >= max_lines || buffer@.len() == all.len(),
            buffer@ == all.skip(all.len() - buffer@.len()),
        decreases buffer@.len(),
    {
        let _ = buffer.pop_front();
        assert(buffer@ =~= all.skip(all.len() - buffer@.len()));
    }
    assert(all.skip(0) =~= all);
}

// ---------------------------------------------------------------------------
// The command line
// ---------------------------------------------------------------------------

/// The `journalctl` arguments for `c`: follow, `short-iso` output, no pager,
/// the last `max_lines` lines, then the extra arguments of the configuration.
pub open spec fn journalctl_args_for(max_lines: usize, extra: Seq<Seq<char>>) -> Seq<Seq<char>> {
    seq!["-f"@, "-o"@, "short-iso"@, "--no-pager"@, "-n"@, decimal(max_lines as nat)] + extra
}

/// Builds the `journalctl` argv: defaults plus optional config extras.
pub fn journalctl_args(config: &Config) -> (r: Vec<String>)
    ensures
        string_views(r@) == journalctl_args_for(config.max_lines, config@.journal_args),
{
    let mut r: Vec<String> = Vec::new();
    r.push(String::from_str("-f"));
    r.push(String::from_str("-o"));
    r.push(String::from_str("short-iso"));
    r.push(String::from_str("--no-pager"));
    r.push(String::from_str("-n"));
    r.push(decimal_string(config.max_lines as u64));
    let ghost base = string_views(r@);
    assert(base =~= seq!["-f"@, "-o"@, "short-iso"@, "--no-pager"@, "-n"@, decimal(config.max_lines as nat)]);
    let mut i: usize = 0;
    while i < config.journal_args.len()
        invariant
            i <= config.journal_args.len(),
            string_views(r@) == base + config@.journal_args.take(i as int),
        decreases config.journal_args.len() - i,
    {
        let ghost before = string_views(r@);
        r.push(config.journal_args[i].clone());
        assert(string_views(r@) =~= before.push(config@.journal_args[i as int]));
        assert(config@.journal_args.take(i + 1) =~= config@.journal_args.take(i as int).push(
            config@.journal_args[i as int],
        ));
        i = i + 1;
    }
    assert(config@.journal_args.take(i as int) =~= config@.journal_args);
    r
}

// ---------------------------------------------------------------------------
// Following the journal
// ---------------------------------------------------------------------------

/// What happened since the last step of the follow loop.
pub enum FollowEvent {
    /// `journalctl` started and its output can be read.
    Spawned,
    /// `journalctl` could not be started; the error's message.
    SpawnFailed(String),
    /// `journalctl` started but gave no output pipe.
    NoStdout,
    /// A line was read from `journalctl`.
    Line(String),
    /// `journalctl`'s output ended.
    Closed,
    /// Reading `journalctl`'s output failed; the error's message.
    ReadFailed(String),
    /// A line could not be passed on: nobody listens any more.
    SendFailed,
}

/// One thing for the caller to do.
pub enum FollowAction {
    /// Pass the line on; if that fails, report [`FollowEvent::SendFailed`].
    Send(LogLine),
    /// Pass the status line on; a failure is ignored.
    Notify(LogLine),
    /// Kill the running `journalctl`.
    Kill,
    /// Wait this many seconds.
    Sleep(u64),
}

/// What the loop does once the actions are done.
#[derive(Debug, Clone, Copy, PartialEq, Eq, Structural)]
pub enum FollowNext {
    /// Start `journalctl` (again).
    Spawn,
    /// Read the next line.
    Read,
    /// End the loop.
    Done,
}

/// The actions of one step, and what comes next.
pub struct FollowStep {
    pub actions: Vec<FollowAction>,
    pub next: FollowNext,
}

/// A [`FollowAction`] with its text taken as characters.
pub enum ActionView {
    Send(Seq<char>, Severity),
    Notify(Seq<char>, Severity),
    Kill,
    Sleep(u64),
}

pub open spec fn action_view(a: FollowAction) -> ActionView {
    match a {
        FollowAction::Send(l) => ActionView::Send(l.text@, l.severity),
        FollowAction::Notify(l) => ActionView::Notify(l.text@, l.severity),
        FollowAction::Kill => ActionView::Kill,
        FollowAction::Sleep(s) => ActionView::Sleep(s),
    }
}

pub open spec fn action_views(s: Seq<FollowAction>) -> Seq<ActionView> {
    s.map_values(|a: FollowAction| action_view(a))
}

/// The status line sent when `journalctl` ends and is started again.
pub open spec fn restarting_text() -> Seq<char> {
    "journalctl exited; restarting…"@
}

/// What the follow loop does on `event`: pass non-empty lines on with their
/// severity; on a failed start, report it and retry after five seconds; when
/// the output ends or fails, stop `journalctl`, report it, and start it again
/// after two seconds; stop only when nobody listens any more.
pub open spec fn follow_actions(event: FollowEvent) -> Seq<ActionView> {
    match event {
        FollowEvent::Spawned => Seq::empty(),
        FollowEvent::SpawnFailed(e) => seq![
            ActionView::Notify("failed to start journalctl: "@ + e@, Severity::Error),
            ActionView::Sleep(5),
        ],
        FollowEvent::NoStdout => seq![
            ActionView::Notify("journalctl produced no stdout"@, Severity::Error),
            ActionView::Sleep(5),
        ],
        FollowEvent::Line(t) => if t@.len() == 0 {
            Seq::empty()
        } else {
            seq![ActionView::Send(t@, severity_of(t@))]
        },
        FollowEvent::Closed => seq![
            ActionView::Kill,
            ActionView::Notify(restarting_text(), Severity::Warning),
            ActionView::Sleep(2),
        ],
        FollowEvent::ReadFailed(e) => seq![
            ActionView::Notify("journal read error: "@ + e@, Severity::Error),
            ActionView::Kill,
            ActionView::Notify(restarting_text(), Severity::Warning),
            ActionView::Sleep(2),
        ],
        FollowEvent::SendFailed => seq![ActionView::Kill],
    }
}

/// Where the follow loop goes after `event`.
pub open spec fn follow_next(event: FollowEvent) -> FollowNext {
    match event {
        FollowEvent::Spawned => FollowNext::Read,
        FollowEvent::SpawnFailed(_) => FollowNext::Spawn,
        FollowEvent::NoStdout => FollowNext::Spawn,
        FollowEvent::Line(_) => FollowNext::Read,
        FollowEvent::Closed => FollowNext::Spawn,
        FollowEvent::ReadFailed(_) => FollowNext::Spawn,
        FollowEvent::SendFailed => FollowNext::Done,
    }
}

/// A status line of the given severity.
fn status(text: String, severity: Severity) -> (r: FollowAction)
    ensures
        action_view(r) == ActionView::Notify(text@, severity),
{
    FollowAction::Notify(LogLine { text, severity })
}

/// Decides the next step of the follow loop after `event`.
pub fn follow_step(event: FollowEvent) -> (r: FollowStep)
    ensures
        action_views(r.actions@) == follow_actions(event),
        r.next == follow_next(event),
{
    let ghost ev = event;
    let mut actions: Vec<FollowAction> = Vec::new();
    let next = match event {
        FollowEvent::Spawned => FollowNext::Read,
        FollowEvent::SpawnFailed(e) => {
            let text = String::from_str("failed to start journalctl: ").concat(e.as_str());
            actions.push(status(text, Severity::Error));
            actions.push(FollowAction::Sleep(5));
            FollowNext::Spawn
        },
        FollowEvent::NoStdout => {
            actions.push(status(String::from_str("journalctl produced no stdout"), Severity::Error));
            actions.push(FollowAction::Sleep(5));
            FollowNext::Spawn
        },
        FollowEvent::Line(t) => {
            if t.as_str().unicode_len() > 0 {
                let severity = classify(t.as_str());
                actions.push(FollowAction::Send(LogLine { text: t, severity }));
            }
            FollowNext::Read
        },
        FollowEvent::Closed => {
            actions.push(FollowAction::Kill);
            actions.push(status(String::from_str("journalctl exited; restarting…"), Severity::Warning));
            actions.push(FollowAction::Sleep(2));
            FollowNext::Spawn
        },
        FollowEvent::ReadFailed(e) => {
            let text = String::from_str("journal read error: ").concat(e.as_str());
            actions.push(status(text, Severity::Error));
            actions.push(FollowAction::Kill);
            actions.push(status(String::from_str("journalctl exited; restarting…"), Severity::Warning));
            actions.push(FollowAction::Sleep(2));
            FollowNext::Spawn
        },
        FollowEvent::SendFailed => {
            actions.push(FollowAction::Kill);
            FollowNext::Done
        },
    };
    assert(action_views(actions@) =~= follow_actions(ev));
    FollowStep { actions, next }
}

// ---------------------------------------------------------------------------
// Laws
// ---------------------------------------------------------------------------

/// The buffer never holds more than `max_lines` lines, keeps the newest ones
/// in order, and ends with the line just pushed when there is room for one.
pub proof fn lemma_push_line_bounded(old_lines: Seq<LogLine>, line: LogLine, max_lines: nat)
    ensures
        newest(old_lines.push(line), max_lines).len() <= max_lines,
        newest(old_lines.push(line), max_lines).len() == if old_lines.len() + 1 <= max_lines {
            old_lines.len() + 1
        } else {
            max_lines
        },
        max_lines > 0 ==> newest(old_lines.push(line), max_lines).last() == line,
        forall|k: int|
            0 <= k < newest(old_lines.push(line), max_lines).len() ==> #[trigger] newest(
                old_lines.push(line),
                max_lines,
            )[k] == old_lines.push(line)[k + old_lines.len() + 1 - newest(
                old_lines.push(line),
                max_lines,
            ).len()],
{
}

/// Severity does not depend on ASCII case.
pub proof fn lemma_severity_ignores_case(line: Seq<char>)
    ensures
        severity_of(lower_all(line)) == severity_of(line),
{
    assert(lower_all(lower_all(line)) =~= lower_all(line));
}

/// The follow loop ends only when nobody listens any more; every other
/// event leads to reading on or to starting `journalctl` again.
pub proof fn lemma_follow_ends_only_on_send_failure(event: FollowEvent)
    ensures
        follow_next(event) == FollowNext::Done <==> event is SendFailed,
{
}


/// The line count handed to `journalctl` reads back as `max_lines`.
pub proof fn lemma_line_count_reads_back(max_lines: usize, extra: Seq<Seq<char>>)
    ensures
        journalctl_args_for(max_lines, extra)[4] == "-n"@,
        parse_unsigned(journalctl_args_for(max_lines, extra)[5], usize::MAX as nat) == Some(
            max_lines as nat,
        ),
        journalctl_args_for(max_lines, extra).skip(6) == extra,
{
    lemma_parse_decimal(max_lines as nat, usize::MAX as nat);
    assert(journalctl_args_for(max_lines, extra).skip(6) =~= extra);
}


/// The buffer after pushing each of `lines` in turn, starting from an
/// empty one, with the same limit `max` every time.
pub open spec fn after_pushes<T>(lines: Seq<T>, max: nat) -> Seq<T>
    decreases lines.len(),
{
    if lines.len() == 0 {
        Seq::empty()
    } else {
        newest(after_pushes(lines.drop_last(), max).push(lines.last()), max)
    }
}

/// Keeping the newest lines once more and then pushing is the same as
/// pushing onto the whole history.
proof fn lemma_newest_push<T>(s: Seq<T>, x: T, max: nat)
    ensures
        newest(newest(s, max).push(x), max) == newest(s.push(x), max),
{
    let n = newest(s, max);
    if s.len() > max {
        assert(newest(n.push(x), max) =~= newest(s.push(x), max));
    } else {
        assert(n == s);
    }
}

/// Pushing `k` lines one by one into an empty buffer, with the limit `max`
/// each time, leaves the `min(k, max)` newest of them, in arrival order.
pub proof fn lemma_push_lines_from_empty<T>(lines: Seq<T>, max: nat)
    ensures
        after_pushes(lines, max) == newest(lines, max),
        after_pushes(lines, max).len() == if lines.len() <= max {
            lines.len()
        } else {
            max
        },
        forall|i: int|
            0 <= i < after_pushes(lines, max).len() ==> #[trigger] after_pushes(lines, max)[i]
                == lines[lines.len() - after_pushes(lines, max).len() + i],
    decreases lines.len(),
{
    if lines.len() > 0 {
        let prev = lines.drop_last();
        lemma_push_lines_from_empty(prev, max);
        lemma_newest_push(prev, lines.last(), max);
        assert(prev.push(lines.last()) =~= lines);
    } else {
        assert(newest(lines, max) =~= Seq::<T>::empty());
    }
}


/// One of the words that mark an error, in a lower-cased line.
pub open spec fn has_error_word(l: Seq<char>) -> bool {
    ||| contains(l, " error"@)
    ||| contains(l, ":error"@)
    ||| contains(l, " err:"@)
    ||| contains(l, "critical"@)
    ||| contains(l, "fatal"@)
    ||| contains(l, " failed"@)
    ||| contains(l, "failure"@)
}

/// How a line is classified, by the words its lower-cased text holds: any
/// error word makes it an error; otherwise ` warn`, `:warn` or `warning`
/// makes it a warning; otherwise ` debug`, `:debug` or ` trace` makes it
/// debug output; anything else is informational.
pub proof fn lemma_classify_by_words(line: Seq<char>)
    ensures
        has_error_word(lower_all(line)) ==> severity_of(line) == Severity::Error,
        !has_error_word(lower_all(line)) && contains(lower_all(line), "warning"@) ==> severity_of(
            line,
        ) == Severity::Warning,
        !has_error_word(lower_all(line)) && contains(lower_all(line), " warn"@) ==> severity_of(
            line,
        ) == Severity::Warning,
        !has_error_word(lower_all(line)) && contains(lower_all(line), ":warn"@) ==> severity_of(
            line,
        ) == Severity::Warning,
        !has_error_word(lower_all(line)) && !contains(lower_all(line), "warning"@) && !contains(
            lower_all(line),
            " warn"@,
        ) && !contains(lower_all(line), ":warn"@) ==> (severity_of(line) == Severity::Debug <==> (
        contains(lower_all(line), " debug"@) || contains(lower_all(line), ":debug"@) || contains(
            lower_all(line),
            " trace"@,
        ))),
        severity_of(line) == Severity::Info <==> !has_error_word(lower_all(line)) && !contains(
            lower_all(line),
            "warning"@,
        ) && !contains(lower_all(line), " warn"@) && !contains(lower_all(line), ":warn"@)
            && !contains(lower_all(line), " debug"@) && !contains(lower_all(line), ":debug"@)
            && !contains(lower_all(line), " trace"@),
{
}

/// Every line read that is not empty is passed on once, with its text
/// unchanged and the severity that `classify` gives it, whatever that is; an
/// empty line is passed over; either way the loop reads on.
pub proof fn lemma_every_line_is_sent(t: String)
    ensures
        t@.len() > 0 ==> follow_actions(FollowEvent::Line(t)) =~= seq![
            ActionView::Send(t@, severity_of(t@)),
        ],
        t@.len() == 0 ==> follow_actions(FollowEvent::Line(t)).len() == 0,
        follow_next(FollowEvent::Line(t)) == FollowNext::Read,
{
}

} // verus!
