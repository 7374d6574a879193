use std::collections::VecDeque;

use cosmic_desk_log::config::Config;
use cosmic_desk_log::journal::{
    classify, follow_step, journalctl_args, push_line, FollowAction, FollowEvent, FollowNext,
    LogLine, Severity,
};

fn line(text: &str) -> LogLine {
    LogLine { text: text.to_string(), severity: Severity::Info }
}

fn texts(buffer: &VecDeque<LogLine>) -> Vec<String> {
    buffer.iter().map(|l| l.text.clone()).collect()
}

#[test]
fn classify_errors() {
    assert_eq!(classify("2024-01-01T00:00:00 host app[1]: Error opening file"), Severity::Error);
    assert_eq!(classify("kernel:error something"), Severity::Error);
    assert_eq!(classify("x err: bad"), Severity::Error);
    assert_eq!(classify("CRITICAL temperature"), Severity::Error);
    assert_eq!(classify("fatal"), Severity::Error);
    assert_eq!(classify("unit Failed to start"), Severity::Error);
    assert_eq!(classify("disk failure"), Severity::Error);
}

#[test]
fn classify_warnings_and_debug() {
    assert_eq!(classify("host app: Warning low battery"), Severity::Warning);
    assert_eq!(classify("x warn y"), Severity::Warning);
    assert_eq!(classify("x:WARN y"), Severity::Warning);
    assert_eq!(classify("x debug y"), Severity::Debug);
    assert_eq!(classify("x:debug y"), Severity::Debug);
    assert_eq!(classify("x TRACE y"), Severity::Debug);
}

#[test]
fn classify_precedence_and_info() {
    assert_eq!(classify("warning: operation failure"), Severity::Error);
    assert_eq!(classify("debug warning"), Severity::Warning);
    assert_eq!(classify("started session"), Severity::Info);
    assert_eq!(classify("error at start"), Severity::Info);
    assert_eq!(classify(""), Severity::Info);
    assert_eq!(classify("terror"), Severity::Info);
}

#[test]
fn push_line_keeps_newest() {
    let mut b: VecDeque<LogLine> = VecDeque::new();
    for t in ["a", "b", "c", "d"] {
        push_line(&mut b, line(t), 3);
    }
    assert_eq!(texts(&b), vec!["b", "c", "d"]);
}

#[test]
fn push_line_below_limit_appends() {
    let mut b: VecDeque<LogLine> = VecDeque::new();
    push_line(&mut b, line("a"), 5);
    push_line(&mut b, line("b"), 5);
    assert_eq!(texts(&b), vec!["a", "b"]);
}

#[test]
fn push_line_shrinks_to_smaller_limit() {
    let mut b: VecDeque<LogLine> = VecDeque::new();
    for t in ["a", "b", "c", "d", "e"] {
        push_line(&mut b, line(t), 10);
    }
    push_line(&mut b, line("f"), 2);
    assert_eq!(texts(&b), vec!["e", "f"]);
    push_line(&mut b, line("g"), 0);
    assert!(b.is_empty());
}

#[test]
fn journalctl_args_defaults_then_extras() {
    let c = Config::parse("max_lines=350\njournal_args=-p err");
    assert_eq!(
        journalctl_args(&c),
        vec!["-f", "-o", "short-iso", "--no-pager", "-n", "350", "-p", "err"]
    );
    let c = Config::default();
    assert_eq!(journalctl_args(&c), vec!["-f", "-o", "short-iso", "--no-pager", "-n", "200"]);
}

#[test]
fn journalctl_args_line_counts() {
    let mut c = Config::default();
    c.max_lines = 0;
    assert_eq!(journalctl_args(&c)[5], "0");
    c.max_lines = 5000;
    assert_eq!(journalctl_args(&c)[5], "5000");
    c.max_lines = 1234567;
    assert_eq!(journalctl_args(&c)[5], "1234567");
}

fn notify(a: &FollowAction) -> (String, Severity) {
    match a {
        FollowAction::Notify(l) => (l.text.clone(), l.severity),
        _ => panic!("not a status line"),
    }
}

#[test]
fn follow_spawn_failure_retries() {
    let s = follow_step(FollowEvent::SpawnFailed("No such file".to_string()));
    assert_eq!(s.next, FollowNext::Spawn);
    assert_eq!(s.actions.len(), 2);
    assert_eq!(
        notify(&s.actions[0]),
        ("failed to start journalctl: No such file".to_string(), Severity::Error)
    );
    assert!(matches!(s.actions[1], FollowAction::Sleep(5)));
}

#[test]
fn follow_no_stdout_retries() {
    let s = follow_step(FollowEvent::NoStdout);
    assert_eq!(s.next, FollowNext::Spawn);
    assert_eq!(
        notify(&s.actions[0]),
        ("journalctl produced no stdout".to_string(), Severity::Error)
    );
    assert!(matches!(s.actions[1], FollowAction::Sleep(5)));
}

#[test]
fn follow_lines_are_sent_with_severity() {
    let s = follow_step(FollowEvent::Spawned);
    assert_eq!(s.next, FollowNext::Read);
    assert!(s.actions.is_empty());
    let s = follow_step(FollowEvent::Line("unit failed".to_string()));
    assert_eq!(s.next, FollowNext::Read);
    assert_eq!(s.actions.len(), 1);
    match &s.actions[0] {
        FollowAction::Send(l) => {
            assert_eq!(l.text, "unit failed");
            assert_eq!(l.severity, Severity::Error);
        }
        _ => panic!("expected a line to send"),
    }
    let s = follow_step(FollowEvent::Line(String::new()));
    assert_eq!(s.next, FollowNext::Read);
    assert!(s.actions.is_empty());
}

#[test]
fn follow_end_of_output_restarts() {
    let s = follow_step(FollowEvent::Closed);
    assert_eq!(s.next, FollowNext::Spawn);
    assert_eq!(s.actions.len(), 3);
    assert!(matches!(s.actions[0], FollowAction::Kill));
    assert_eq!(
        notify(&s.actions[1]),
        ("journalctl exited; restarting…".to_string(), Severity::Warning)
    );
    assert!(matches!(s.actions[2], FollowAction::Sleep(2)));
}

#[test]
fn follow_read_error_reports_and_restarts() {
    let s = follow_step(FollowEvent::ReadFailed("broken pipe".to_string()));
    assert_eq!(s.next, FollowNext::Spawn);
    assert_eq!(s.actions.len(), 4);
    assert_eq!(
        notify(&s.actions[0]),
        ("journal read error: broken pipe".to_string(), Severity::Error)
    );
    assert!(matches!(s.actions[1], FollowAction::Kill));
    assert_eq!(notify(&s.actions[2]).1, Severity::Warning);
    assert!(matches!(s.actions[3], FollowAction::Sleep(2)));
}

#[test]
fn follow_stops_when_nobody_listens() {
    let s = follow_step(FollowEvent::SendFailed);
    assert_eq!(s.next, FollowNext::Done);
    assert_eq!(s.actions.len(), 1);
    assert!(matches!(s.actions[0], FollowAction::Kill));
}

#[test]
fn push_line_many_pushes_keep_newest_in_order() {
    for m in [0usize, 1, 3, 10] {
        let mut b: VecDeque<LogLine> = VecDeque::new();
        let all: Vec<String> = (0..7).map(|i| format!("line {}", i)).collect();
        for t in &all {
            push_line(&mut b, line(t), m);
        }
        let kept = std::cmp::min(all.len(), m);
        assert_eq!(b.len(), kept);
        assert_eq!(texts(&b), all[all.len() - kept..].to_vec());
    }
}
