use wash::history::{expand_line, HistoryExpansion};
use wash::shell_base::{Effect, LineDisposition, Shell};

fn hist(entries: &[&str]) -> Vec<String> {
    entries.iter().map(|s| s.to_string()).collect()
}

#[test]
fn bang_bang_recalls_newest() {
    let h = hist(&["ls -la", "echo hi"]);
    match expand_line("!!", &h) {
        HistoryExpansion::Expanded(e) => assert_eq!(e, "echo hi"),
        _ => panic!("expected an expansion"),
    }
}

#[test]
fn bang_bang_empty_history_stays_literal() {
    let h: Vec<String> = Vec::new();
    match expand_line("!!", &h) {
        HistoryExpansion::Unchanged => {}
        _ => panic!("expected the line unchanged"),
    }
}

#[test]
fn numeric_designator_absolute() {
    let h = hist(&["first", "second"]);
    match expand_line("!1", &h) {
        HistoryExpansion::Expanded(e) => assert_eq!(e, "first"),
        _ => panic!("expected an expansion"),
    }
}

#[test]
fn numeric_designator_relative() {
    let h = hist(&["first", "second", "third"]);
    match expand_line("!-2", &h) {
        HistoryExpansion::Expanded(e) => assert_eq!(e, "second"),
        _ => panic!("expected an expansion"),
    }
}

#[test]
fn numeric_designator_out_of_range() {
    let h = hist(&["a", "b"]);
    match expand_line("!3", &h) {
        HistoryExpansion::EventNotFound(ev) => assert_eq!(ev, "!3"),
        _ => panic!("expected event not found"),
    }
}

#[test]
fn numeric_designator_zero_misses() {
    let h = hist(&["a"]);
    match expand_line("!0", &h) {
        HistoryExpansion::EventNotFound(ev) => assert_eq!(ev, "!0"),
        _ => panic!("expected event not found"),
    }
}

#[test]
fn prefix_designator_finds_newest_match() {
    let h = hist(&["echo one", "ls", "echo two"]);
    match expand_line("!echo", &h) {
        HistoryExpansion::Expanded(e) => assert_eq!(e, "echo two"),
        _ => panic!("expected an expansion"),
    }
}

#[test]
fn prefix_designator_miss() {
    let h = hist(&["ls"]);
    match expand_line("!zz", &h) {
        HistoryExpansion::EventNotFound(ev) => assert_eq!(ev, "!zz"),
        _ => panic!("expected event not found"),
    }
}

#[test]
fn designator_inside_line() {
    let h = hist(&["ls"]);
    match expand_line("sudo !!", &h) {
        HistoryExpansion::Expanded(e) => assert_eq!(e, "sudo ls"),
        _ => panic!("expected an expansion"),
    }
}

#[test]
fn plain_line_unchanged() {
    let h = hist(&["ls"]);
    match expand_line("echo plain", &h) {
        HistoryExpansion::Unchanged => {}
        _ => panic!("expected the line unchanged"),
    }
}

#[test]
fn history_round_trip_not_reappended() {
    // appending `echo hi`, then submitting `!!`, expands to `echo hi` and
    // the literal `!!` never lands in the history
    let mut sh = Shell::new(false, "/");
    let (d1, fx1) = sh.process_line("echo hi");
    match d1 {
        LineDisposition::Execute(line) => assert_eq!(line, "echo hi"),
        _ => panic!("expected execution"),
    }
    assert_eq!(fx1.len(), 1);
    match &fx1[0] {
        Effect::AppendHistory(t) => assert_eq!(t, "echo hi"),
        _ => panic!("expected a history-file append"),
    }
    assert_eq!(sh.history().len(), 1);
    let (d2, fx2) = sh.process_line("!!");
    match d2 {
        LineDisposition::Redisplay(e) => assert_eq!(e, "echo hi"),
        _ => panic!("expected redisplay of the expansion"),
    }
    assert!(fx2.is_empty());
    assert_eq!(sh.history().len(), 1);
    assert_eq!(sh.history()[0], "echo hi");
}

#[test]
fn missed_event_leaves_history_alone() {
    // `!3` with fewer than three entries misses and the history stands
    let mut sh = Shell::new(false, "/");
    let (_, _) = sh.process_line("a");
    let (_, _) = sh.process_line("b");
    assert_eq!(sh.history().len(), 2);
    let (d, fx) = sh.process_line("!3");
    match d {
        LineDisposition::EventNotFound(ev) => assert_eq!(ev, "!3"),
        _ => panic!("expected event not found"),
    }
    assert!(fx.is_empty());
    assert_eq!(sh.history().len(), 2);
    assert_eq!(sh.history()[0], "a");
    assert_eq!(sh.history()[1], "b");
}

#[test]
fn duplicate_of_newest_not_appended() {
    let mut sh = Shell::new(false, "/");
    let (_, fx1) = sh.process_line("ls");
    assert_eq!(fx1.len(), 1);
    let (_, fx2) = sh.process_line("ls");
    assert!(fx2.is_empty());
    assert_eq!(sh.history().len(), 1);
}
