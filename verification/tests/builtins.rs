use wash::shell_base::{
    Answer, Effect, ExecCont, ExecStep, Query, Redirect, Shell,
};
use wash::{EXIT_CMD_NOT_FOUND, EXIT_FAILURE, EXIT_SUCCESS};

fn args(list: &[&str]) -> Vec<String> {
    list.iter().map(|s| s.to_string()).collect()
}

fn fresh(pwd: &str) -> Shell {
    Shell::new(false, pwd)
}

#[test]
fn pwd_prints_working_directory() {
    let mut sh = fresh("/home/user");
    let step = sh.execute_command("pwd", &args(&[]), &Vec::new(), false, &Vec::new());
    match step {
        ExecStep::Done(effects, st) => {
            assert_eq!(st, EXIT_SUCCESS);
            assert_eq!(effects.len(), 2);
            match &effects[0] {
                Effect::TermOut(t) => assert_eq!(t, "/home/user\n"),
                _ => panic!("expected terminal output"),
            }
        }
        _ => panic!("expected a finished command"),
    }
    assert_eq!(sh.last_exit_status, EXIT_SUCCESS);
}

#[test]
fn clear_emits_escape_code() {
    let mut sh = fresh("/");
    let step = sh.execute_command("clear", &args(&[]), &Vec::new(), false, &Vec::new());
    match step {
        ExecStep::Done(effects, st) => {
            assert_eq!(st, EXIT_SUCCESS);
            match &effects[0] {
                Effect::TermOut(t) => assert_eq!(t, "\u{1b}[2J\u{1b}[H"),
                _ => panic!("expected terminal output"),
            }
        }
        _ => panic!("expected a finished command"),
    }
}

#[test]
fn exit_with_code() {
    let mut sh = fresh("/");
    match sh.execute_command("exit", &args(&["3"]), &Vec::new(), false, &Vec::new()) {
        ExecStep::Exit(c) => assert_eq!(c, 3),
        _ => panic!("expected process termination"),
    }
    match sh.execute_command("exit", &args(&[]), &Vec::new(), false, &Vec::new()) {
        ExecStep::Exit(c) => assert_eq!(c, EXIT_SUCCESS),
        _ => panic!("expected process termination"),
    }
}

#[test]
fn cd_and_back_restores_pwd() {
    // after `cd A` then `cd -`, pwd is what it was before `cd A`
    let mut sh = fresh("/start");
    sh.env.set("HOME", "/home/u");
    let step = sh.execute_command("cd", &args(&["work"]), &Vec::new(), false, &Vec::new());
    let cont = match step {
        ExecStep::Need(_, Query::PathInfo(t), cont) => {
            assert_eq!(t, "/start/work");
            cont
        }
        _ => panic!("expected a path question"),
    };
    match sh.resume_command(
        cont,
        Answer::Path { exists: true, is_dir: true, canonical: "/start/work".to_string() },
    ) {
        ExecStep::Done(effects, st) => {
            assert_eq!(st, EXIT_SUCCESS);
            match &effects[0] {
                Effect::NotifyEnv((k, Some(v))) => {
                    assert_eq!(k, "OLDPWD");
                    assert_eq!(v, "/start");
                }
                _ => panic!("expected the old directory recorded"),
            }
        }
        _ => panic!("expected a finished command"),
    }
    assert_eq!(sh.pwd, "/start/work");
    assert_eq!(sh.env.get("OLDPWD").unwrap(), "/start");
    assert_eq!(sh.env.get("PWD").unwrap(), "/start/work");

    let step = sh.execute_command("cd", &args(&["-"]), &Vec::new(), false, &Vec::new());
    let cont = match step {
        ExecStep::Need(_, Query::PathInfo(t), cont) => {
            assert_eq!(t, "/start");
            cont
        }
        _ => panic!("expected a path question"),
    };
    match sh.resume_command(
        cont,
        Answer::Path { exists: true, is_dir: true, canonical: "/start".to_string() },
    ) {
        ExecStep::Done(_, st) => assert_eq!(st, EXIT_SUCCESS),
        _ => panic!("expected a finished command"),
    }
    assert_eq!(sh.pwd, "/start");
    assert_eq!(sh.env.get("OLDPWD").unwrap(), "/start/work");
}

#[test]
fn cd_missing_directory_fails() {
    let mut sh = fresh("/");
    let step = sh.execute_command("cd", &args(&["/nope"]), &Vec::new(), false, &Vec::new());
    let cont = match step {
        ExecStep::Need(_, Query::PathInfo(_), cont) => cont,
        _ => panic!("expected a path question"),
    };
    match sh.resume_command(
        cont,
        Answer::Path { exists: false, is_dir: false, canonical: String::new() },
    ) {
        ExecStep::Done(effects, st) => {
            assert_eq!(st, EXIT_FAILURE);
            match &effects[1] {
                Effect::TermErr(t) => assert_eq!(t, "cd: /nope: No such file or directory\n"),
                _ => panic!("expected an error message"),
            }
        }
        _ => panic!("expected a finished command"),
    }
}

#[test]
fn cd_file_not_a_directory() {
    let mut sh = fresh("/");
    let step = sh.execute_command("cd", &args(&["/f"]), &Vec::new(), false, &Vec::new());
    let cont = match step {
        ExecStep::Need(_, Query::PathInfo(_), cont) => cont,
        _ => panic!("expected a path question"),
    };
    match sh.resume_command(
        cont,
        Answer::Path { exists: true, is_dir: false, canonical: String::new() },
    ) {
        ExecStep::Done(effects, st) => {
            assert_eq!(st, EXIT_FAILURE);
            match &effects[1] {
                Effect::TermErr(t) => assert_eq!(t, "cd: /f: Not a directory\n"),
                _ => panic!("expected an error message"),
            }
        }
        _ => panic!("expected a finished command"),
    }
}

#[test]
fn history_lists_with_indices() {
    let mut sh = fresh("/");
    let (_, _) = sh.process_line("first");
    let (_, _) = sh.process_line("second");
    match sh.execute_command("history", &args(&[]), &Vec::new(), false, &Vec::new()) {
        ExecStep::Done(effects, st) => {
            assert_eq!(st, EXIT_SUCCESS);
            match &effects[0] {
                Effect::TermOut(t) => assert_eq!(t, "1: first\n2: second\n"),
                _ => panic!("expected terminal output"),
            }
        }
        _ => panic!("expected a finished command"),
    }
}

#[test]
fn unset_removes_and_refuses_special() {
    let mut sh = fresh("/");
    sh.vars.set("A", "1");
    sh.env.set("B", "2");
    match sh.execute_command("unset", &args(&["A", "B", "PWD"]), &Vec::new(), false, &Vec::new()) {
        ExecStep::Done(effects, st) => {
            assert_eq!(st, EXIT_SUCCESS);
            match &effects[0] {
                Effect::NotifyEnv((k, None)) => assert_eq!(k, "B"),
                _ => panic!("expected the bridge told of the removal"),
            }
            match &effects[1] {
                Effect::TermOut(t) => assert_eq!(t, "unset: cannot unset PWD\n"),
                _ => panic!("expected a notice"),
            }
        }
        _ => panic!("expected a finished command"),
    }
    assert!(sh.vars.get("A").is_none());
    assert!(sh.env.get("B").is_none());
}

#[test]
fn unset_without_operands_fails() {
    let mut sh = fresh("/");
    match sh.execute_command("unset", &args(&[]), &Vec::new(), false, &Vec::new()) {
        ExecStep::Done(effects, st) => {
            assert_eq!(st, EXIT_FAILURE);
            match &effects[1] {
                Effect::TermErr(t) => assert_eq!(t, "unset: help: unset <VAR> [<VAR>] ...\n"),
                _ => panic!("expected the usage message"),
            }
        }
        _ => panic!("expected a finished command"),
    }
}

#[test]
fn export_sets_and_promotes() {
    let mut sh = fresh("/");
    sh.vars.set("LOCAL", "v");
    match sh.execute_command(
        "export",
        &args(&["K=V", "LOCAL", "EMPTY"]),
        &Vec::new(),
        false,
        &Vec::new(),
    ) {
        ExecStep::Done(_, st) => assert_eq!(st, EXIT_SUCCESS),
        _ => panic!("expected a finished command"),
    }
    assert_eq!(sh.env.get("K").unwrap(), "V");
    assert_eq!(sh.env.get("LOCAL").unwrap(), "v");
    assert!(sh.vars.get("LOCAL").is_none());
    assert_eq!(sh.env.get("EMPTY").unwrap(), "");
}

#[test]
fn export_without_operands_fails() {
    let mut sh = fresh("/");
    match sh.execute_command("export", &args(&[]), &Vec::new(), false, &Vec::new()) {
        ExecStep::Done(_, st) => assert_eq!(st, EXIT_FAILURE),
        _ => panic!("expected a finished command"),
    }
}

#[test]
fn declare_lists_and_moves_variables() {
    let mut sh = fresh("/");
    sh.vars.set("A", "1");
    sh.env.set("B", "2");
    match sh.execute_command("declare", &args(&[]), &Vec::new(), false, &Vec::new()) {
        ExecStep::Done(effects, st) => {
            assert_eq!(st, EXIT_SUCCESS);
            match &effects[0] {
                Effect::TermOut(t) => assert_eq!(t, "A=1\nB=2\n"),
                _ => panic!("expected the listing"),
            }
        }
        _ => panic!("expected a finished command"),
    }
    match sh.execute_command("declare", &args(&["-x", "C=3"]), &Vec::new(), false, &Vec::new()) {
        ExecStep::Done(_, st) => assert_eq!(st, EXIT_SUCCESS),
        _ => panic!("expected a finished command"),
    }
    assert_eq!(sh.env.get("C").unwrap(), "3");
    match sh.execute_command("declare", &args(&["+x", "B"]), &Vec::new(), false, &Vec::new()) {
        ExecStep::Done(_, st) => assert_eq!(st, EXIT_SUCCESS),
        _ => panic!("expected a finished command"),
    }
    assert!(sh.env.get("B").is_none());
    assert_eq!(sh.vars.get("B").unwrap(), "2");
    match sh.execute_command("declare", &args(&["D=4"]), &Vec::new(), false, &Vec::new()) {
        ExecStep::Done(_, st) => assert_eq!(st, EXIT_SUCCESS),
        _ => panic!("expected a finished command"),
    }
    assert_eq!(sh.vars.get("D").unwrap(), "4");
    assert!(sh.env.get("D").is_none());
}

#[test]
fn sleep_parses_seconds() {
    let mut sh = fresh("/");
    match sh.execute_command("sleep", &args(&["2"]), &Vec::new(), false, &Vec::new()) {
        ExecStep::Need(_, Query::Sleep(n), cont) => {
            assert_eq!(n, 2);
            match sh.resume_command(cont, Answer::Unit) {
                ExecStep::Done(_, st) => assert_eq!(st, EXIT_SUCCESS),
                _ => panic!("expected a finished command"),
            }
        }
        _ => panic!("expected a sleep question"),
    }
    match sh.execute_command("sleep", &args(&["xx"]), &Vec::new(), false, &Vec::new()) {
        ExecStep::Done(effects, st) => {
            assert_eq!(st, EXIT_FAILURE);
            match &effects[1] {
                Effect::TermErr(t) => assert_eq!(t, "sleep: invalid time interval `xx`\n"),
                _ => panic!("expected the error message"),
            }
        }
        _ => panic!("expected a finished command"),
    }
}

#[test]
fn write_round_trip() {
    // `write f.txt hello` then reading `f.txt` yields exactly `hello`
    let mut sh = fresh("/");
    let mut fake_file: Option<String> = None;
    match sh.execute_command(
        "write",
        &args(&["f.txt", "hello"]),
        &Vec::new(),
        false,
        &Vec::new(),
    ) {
        ExecStep::Need(_, Query::WriteFile((path, content)), cont) => {
            assert_eq!(path, "f.txt");
            assert_eq!(content, "hello");
            fake_file = Some(content);
            match sh.resume_command(cont, Answer::WriteResult(None)) {
                ExecStep::Done(_, st) => assert_eq!(st, EXIT_SUCCESS),
                _ => panic!("expected a finished command"),
            }
        }
        _ => panic!("expected a write question"),
    }
    assert_eq!(fake_file.unwrap(), "hello");
}

#[test]
fn write_joins_words_and_reports_errors() {
    let mut sh = fresh("/");
    match sh.execute_command(
        "write",
        &args(&["f.txt", "a", "b", "c"]),
        &Vec::new(),
        false,
        &Vec::new(),
    ) {
        ExecStep::Need(_, Query::WriteFile((_, content)), cont) => {
            assert_eq!(content, "a b c");
            match sh.resume_command(cont, Answer::WriteResult(Some("denied".to_string()))) {
                ExecStep::Done(effects, st) => {
                    assert_eq!(st, EXIT_FAILURE);
                    match &effects[1] {
                        Effect::TermErr(t) => {
                            assert_eq!(t, "write: failed to write to file 'f.txt': denied\n")
                        }
                        _ => panic!("expected the error message"),
                    }
                }
                _ => panic!("expected a finished command"),
            }
        }
        _ => panic!("expected a write question"),
    }
}

#[test]
fn redirect_write_then_append_doubles_content() {
    // `cmd > f.txt` then `cmd >> f.txt` leaves the output twice
    let mut file = String::new();
    let mut sh = fresh("/d");
    let reds = vec![Redirect::Write((1, "f.txt".to_string()))];
    match sh.execute_command("pwd", &args(&[]), &Vec::new(), false, &reds) {
        ExecStep::Done(effects, _) => {
            for e in &effects {
                match e {
                    Effect::FileWrite((p, t)) => {
                        assert_eq!(p, "f.txt");
                        file = t.clone();
                    }
                    Effect::FileAppend((p, t)) => {
                        assert_eq!(p, "f.txt");
                        file.push_str(t);
                    }
                    Effect::TermOut(_) => panic!("terminal output must be suppressed"),
                    _ => {}
                }
            }
        }
        _ => panic!("expected a finished command"),
    }
    let reds = vec![Redirect::Append((1, "f.txt".to_string()))];
    match sh.execute_command("pwd", &args(&[]), &Vec::new(), false, &reds) {
        ExecStep::Done(effects, _) => {
            for e in &effects {
                match e {
                    Effect::FileWrite((_, t)) => file = t.clone(),
                    Effect::FileAppend((_, t)) => file.push_str(t),
                    Effect::TermOut(_) => panic!("terminal output must be suppressed"),
                    _ => {}
                }
            }
        }
        _ => panic!("expected a finished command"),
    }
    assert_eq!(file, "/d\n/d\n");
}

#[test]
fn hexdump_two_rows_for_seventeen_bytes() {
    // 17 bytes: two rows, the second blank-padded, gutters exact
    let mut sh = fresh("/");
    let mut bytes: Vec<u8> = Vec::new();
    for i in 0..16u8 {
        bytes.push(0x41 + i);
    }
    bytes.push(0x01);
    match sh.execute_command("hexdump", &args(&["f"]), &Vec::new(), false, &Vec::new()) {
        ExecStep::Need(_, Query::ReadFileBytes(p), cont) => {
            assert_eq!(p, "f");
            match sh.resume_command(cont, Answer::MaybeBytes(Some(bytes))) {
                ExecStep::Done(effects, st) => {
                    assert_eq!(st, EXIT_SUCCESS);
                    let mut expected = String::new();
                    expected.push_str(
                        "00000000  41 42 43 44 45 46 47 48  49 4a 4b 4c 4d 4e 4f 50  |ABCDEFGHIJKLMNOP|\n",
                    );
                    expected.push_str("00000010  01 ");
                    expected.push_str(&" ".repeat(45));
                    expected.push_str("  |.|\n");
                    match &effects[0] {
                        Effect::TermOut(t) => assert_eq!(t, &expected),
                        _ => panic!("expected the dump"),
                    }
                }
                _ => panic!("expected a finished command"),
            }
        }
        _ => panic!("expected a file question"),
    }
}

#[test]
fn hexdump_missing_file_fails() {
    let mut sh = fresh("/");
    match sh.execute_command("hexdump", &args(&["f"]), &Vec::new(), false, &Vec::new()) {
        ExecStep::Need(_, Query::ReadFileBytes(_), cont) => {
            match sh.resume_command(cont, Answer::MaybeBytes(None)) {
                ExecStep::Done(effects, st) => {
                    assert_eq!(st, EXIT_FAILURE);
                    match &effects[0] {
                        Effect::TermOut(t) => assert_eq!(t, "hexdump: error: file not found.\n"),
                        _ => panic!("expected the notice"),
                    }
                }
                _ => panic!("expected a finished command"),
            }
        }
        _ => panic!("expected a file question"),
    }
}

#[test]
fn external_command_not_found_gives_127() {
    let mut sh = fresh("/");
    sh.env.set("PATH", "/bin:/usr/bin");
    match sh.execute_command("frobnicate", &args(&[]), &Vec::new(), false, &Vec::new()) {
        ExecStep::Need(_, Query::FindExecutable(cands), cont) => {
            assert_eq!(cands, vec!["/bin/frobnicate", "/usr/bin/frobnicate"]);
            match sh.resume_command(cont, Answer::Found(None)) {
                ExecStep::Done(effects, st) => {
                    assert_eq!(st, EXIT_CMD_NOT_FOUND);
                    match &effects[1] {
                        Effect::TermErr(t) => {
                            assert_eq!(t, "shell: frobnicate: command not found\n")
                        }
                        _ => panic!("expected the error message"),
                    }
                }
                _ => panic!("expected a finished command"),
            }
        }
        _ => panic!("expected a search question"),
    }
    assert_eq!(sh.last_exit_status, EXIT_CMD_NOT_FOUND);
}

#[test]
fn external_script_gets_interpreter_and_stdin() {
    let mut sh = fresh("/");
    match sh.execute_command(
        "/opt/tool",
        &args(&["x"]),
        &Vec::new(),
        false,
        &Vec::new(),
    ) {
        ExecStep::Need(_, Query::FindExecutable(cands), cont) => {
            assert_eq!(cands, vec!["/opt/tool"]);
            match sh.resume_command(cont, Answer::Found(Some("/opt/tool".to_string()))) {
                ExecStep::Need(_, Query::ReadFirstLine(p), cont) => {
                    assert_eq!(p, "/opt/tool");
                    match sh.resume_command(
                        cont,
                        Answer::MaybeLine(Some("#! /bin/sh ".to_string())),
                    ) {
                        ExecStep::Need(_, Query::Spawn(req), cont) => {
                            assert_eq!(req.args, vec!["/bin/sh", "x"]);
                            assert_eq!(req.redirects.len(), 1);
                            match &req.redirects[0] {
                                Redirect::Read((fd, p)) => {
                                    assert_eq!(*fd, 0);
                                    assert_eq!(p, "/opt/tool");
                                }
                                _ => panic!("expected the script wired to stdin"),
                            }
                            match sh.resume_command(cont, Answer::Code(7)) {
                                ExecStep::Done(_, st) => assert_eq!(st, 7),
                                _ => panic!("expected a finished command"),
                            }
                        }
                        _ => panic!("expected a spawn question"),
                    }
                }
                _ => panic!("expected a first-line question"),
            }
        }
        _ => panic!("expected a search question"),
    }
    assert_eq!(sh.last_exit_status, 7);
}

#[test]
fn external_binary_spawns_directly() {
    let mut sh = fresh("/w");
    match sh.execute_command("./run", &args(&[]), &Vec::new(), false, &Vec::new()) {
        ExecStep::Need(_, Query::FindExecutable(cands), cont) => {
            assert_eq!(cands, vec!["/w/./run"]);
            match sh.resume_command(cont, Answer::Found(Some("/w/./run".to_string()))) {
                ExecStep::Need(_, Query::ReadFirstLine(_), cont) => {
                    match sh.resume_command(cont, Answer::MaybeLine(None)) {
                        ExecStep::Need(_, Query::Spawn(req), _) => {
                            assert_eq!(req.args, vec!["/w/./run"]);
                            assert!(req.redirects.is_empty());
                        }
                        _ => panic!("expected a spawn question"),
                    }
                }
                _ => panic!("expected a first-line question"),
            }
        }
        _ => panic!("expected a search question"),
    }
}

#[test]
fn source_runs_script_and_succeeds() {
    let mut sh = fresh("/");
    match sh.execute_command("source", &args(&["rc.sh"]), &Vec::new(), false, &Vec::new()) {
        ExecStep::Need(_, Query::RunScript(f), cont) => {
            assert_eq!(f, "rc.sh");
            match sh.resume_command(cont, Answer::Code(EXIT_FAILURE)) {
                ExecStep::Done(_, st) => assert_eq!(st, EXIT_SUCCESS),
                _ => panic!("expected a finished command"),
            }
        }
        _ => panic!("expected a script question"),
    }
}

#[test]
fn imgcat_and_unzip_effects() {
    let mut sh = fresh("/");
    match sh.execute_command("imgcat", &args(&["p.png"]), &Vec::new(), false, &Vec::new()) {
        ExecStep::Done(effects, st) => {
            assert_eq!(st, EXIT_SUCCESS);
            match &effects[0] {
                Effect::ShowImage(p) => assert_eq!(p, "p.png"),
                _ => panic!("expected an image effect"),
            }
        }
        _ => panic!("expected a finished command"),
    }
    match sh.execute_command("unzip", &args(&["a.zip"]), &Vec::new(), false, &Vec::new()) {
        ExecStep::Done(effects, st) => {
            assert_eq!(st, EXIT_SUCCESS);
            match &effects[0] {
                Effect::ExtractArchive(p) => assert_eq!(p, "a.zip"),
                _ => panic!("expected an archive effect"),
            }
        }
        _ => panic!("expected a finished command"),
    }
    match sh.execute_command("unzip", &args(&[]), &Vec::new(), false, &Vec::new()) {
        ExecStep::Done(_, st) => assert_eq!(st, EXIT_FAILURE),
        _ => panic!("expected a finished command"),
    }
}

#[test]
fn cd_without_home_fails() {
    let mut sh = fresh("/");
    match sh.execute_command("cd", &args(&[]), &Vec::new(), false, &Vec::new()) {
        ExecStep::Done(effects, st) => {
            assert_eq!(st, EXIT_FAILURE);
            match &effects[1] {
                Effect::TermErr(t) => assert_eq!(t, "cd: HOME not set\n"),
                _ => panic!("expected the error message"),
            }
        }
        _ => panic!("expected a finished command"),
    }
}

#[test]
fn cd_without_oldpwd_fails() {
    let mut sh = fresh("/");
    match sh.execute_command("cd", &args(&["-"]), &Vec::new(), false, &Vec::new()) {
        ExecStep::Done(_, st) => assert_eq!(st, EXIT_FAILURE),
        _ => panic!("expected a finished command"),
    }
}

#[test]
fn cd_with_relative_canonical_is_a_host_fault() {
    let mut sh = fresh("/");
    let step = sh.execute_command("cd", &args(&["/d"]), &Vec::new(), false, &Vec::new());
    let cont = match step {
        ExecStep::Need(_, Query::PathInfo(_), cont) => cont,
        _ => panic!("expected a path question"),
    };
    match sh.resume_command(
        cont,
        Answer::Path { exists: true, is_dir: true, canonical: "d".to_string() },
    ) {
        ExecStep::Done(_, st) => assert_eq!(st, wash::EXIT_CRITICAL_FAILURE),
        _ => panic!("expected a finished command"),
    }
    assert_eq!(sh.pwd, "/");
}
