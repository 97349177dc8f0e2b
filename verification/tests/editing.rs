use wash::editor::LineEditor;
use wash::shell_base::{dot_file_path, Shell};

fn feed(ed: &mut LineEditor, hist: &Vec<String>, bytes: &[u8]) -> Option<String> {
    let mut done = None;
    for b in bytes {
        let out = ed.on_byte(*b, hist);
        if out.submitted.is_some() {
            done = out.submitted;
        }
    }
    done
}

#[test]
fn typing_and_enter_submits_trimmed() {
    let mut ed = LineEditor::new(false);
    let hist: Vec<String> = Vec::new();
    let done = feed(&mut ed, &hist, b"  hi there \n");
    assert_eq!(done.unwrap(), "hi there");
    assert_eq!(ed.cursor_position, 0);
}

#[test]
fn backspace_deletes_left_of_cursor() {
    let mut ed = LineEditor::new(false);
    let hist: Vec<String> = Vec::new();
    let done = feed(&mut ed, &hist, b"abc\x7f\n");
    assert_eq!(done.unwrap(), "ab");
}

#[test]
fn backspace_at_start_is_a_no_op() {
    let mut ed = LineEditor::new(false);
    let hist: Vec<String> = Vec::new();
    let done = feed(&mut ed, &hist, b"\x7fab\n");
    assert_eq!(done.unwrap(), "ab");
}

#[test]
fn left_arrow_then_insert() {
    let mut ed = LineEditor::new(false);
    let hist: Vec<String> = Vec::new();
    // type "ac", move left once, insert "b": "abc"
    let done = feed(&mut ed, &hist, b"ac\x1b[Db\n");
    assert_eq!(done.unwrap(), "abc");
}

#[test]
fn home_and_end_move_cursor() {
    let mut ed = LineEditor::new(false);
    let hist: Vec<String> = Vec::new();
    // "bc", home, insert "a", end, insert "d"
    let done = feed(&mut ed, &hist, b"bc\x1b[Ha\x1b[Fd\n");
    assert_eq!(done.unwrap(), "abcd");
}

#[test]
fn delete_removes_at_cursor() {
    let mut ed = LineEditor::new(false);
    let hist: Vec<String> = Vec::new();
    // "abc", left, left, delete: removes "b"
    let done = feed(&mut ed, &hist, b"abc\x1b[D\x1b[D\x1b[3~\n");
    assert_eq!(done.unwrap(), "ac");
}

#[test]
fn arrow_up_recalls_history() {
    let mut ed = LineEditor::new(false);
    let hist = vec!["older".to_string(), "newest".to_string()];
    let done = feed(&mut ed, &hist, b"\x1b[A\n");
    assert_eq!(done.unwrap(), "newest");
}

#[test]
fn arrow_up_twice_goes_older() {
    let mut ed = LineEditor::new(false);
    let hist = vec!["older".to_string(), "newest".to_string()];
    let done = feed(&mut ed, &hist, b"\x1b[A\x1b[A\n");
    assert_eq!(done.unwrap(), "older");
}

#[test]
fn arrow_down_restores_stashed_line() {
    let mut ed = LineEditor::new(false);
    let hist = vec!["older".to_string()];
    // type a partial line, go up into history, come back down
    let done = feed(&mut ed, &hist, b"part\x1b[A\x1b[B\n");
    assert_eq!(done.unwrap(), "part");
}

#[test]
fn unknown_escape_returns_to_normal() {
    let mut ed = LineEditor::new(false);
    let hist: Vec<String> = Vec::new();
    let done = feed(&mut ed, &hist, b"a\x1bxb\n");
    assert_eq!(done.unwrap(), "ab");
}

#[test]
fn echo_produced_only_when_enabled() {
    let hist: Vec<String> = Vec::new();
    let mut silent = LineEditor::new(false);
    let out = silent.on_byte(b'a', &hist);
    assert_eq!(out.echo, "");
    let mut loud = LineEditor::new(true);
    let out = loud.on_byte(b'a', &hist);
    assert_eq!(out.echo, "a");
}

#[test]
fn cursor_never_leaves_the_line() {
    let mut ed = LineEditor::new(false);
    let hist = vec!["x".to_string()];
    let bytes = b"ab\x1b[D\x1b[D\x1b[D\x1b[C\x1b[C\x1b[C\x1b[A\x1b[B\x7f";
    for b in bytes.iter() {
        let _ = ed.on_byte(*b, &hist);
        assert!(ed.cursor_position <= ed.line.len());
    }
}

#[test]
fn prompt_substitutes_user_host_and_home() {
    let mut sh = Shell::new(false, "/home/u/proj");
    sh.env.set("PS1", "\\u@\\h \\w$ ");
    sh.env.set("USER", "alice");
    sh.env.set("HOSTNAME", "box");
    sh.env.set("HOME", "/home/u");
    assert_eq!(sh.parse_prompt_string(), "alice@box ~/proj$ ");
}

#[test]
fn prompt_defaults_without_variables() {
    let sh = Shell::new(false, "/");
    let p = sh.parse_prompt_string();
    assert!(p.contains("user@hostname"));
}

#[test]
fn history_file_under_home_or_pwd() {
    assert_eq!(
        dot_file_path("/home/u", true, "/w", ".shell_history"),
        "/home/u/.shell_history"
    );
    assert_eq!(
        dot_file_path("/home/u", false, "/w", ".shell_history"),
        "/w/.shell_history"
    );
}

#[test]
fn shift_delete_swallows_two_bytes() {
    let mut ed = LineEditor::new(false);
    let hist: Vec<String> = Vec::new();
    // the two bytes after `ESC [ 3 ;` belong to the sequence, not the line
    let done = feed(&mut ed, &hist, b"ab\x1b[3;XY\n");
    assert_eq!(done.unwrap(), "ab");
}

#[test]
fn prompt_home_replacement_is_global() {
    // the home text is replaced wherever it occurs in the directory
    let mut sh = Shell::new(false, "/a/u/b");
    sh.env.set("PS1", "\\w");
    sh.env.set("HOME", "/u");
    assert_eq!(sh.parse_prompt_string(), "/a~/b");
}
