use wash::interpreter::{
    advance, interpret, resume, AndOr, AndOrList, Command, ComplexWord, ListableCommand,
    PipeableCommand, RedirectOrCmdWord, SimpleCommand, SimpleWord, Step, TopLevelCommand, Word,
};
use wash::shell_base::{Answer, Effect, Query, Redirect, Shell};
use wash::{EXIT_FAILURE, EXIT_SUCCESS};

fn word(text: &str) -> ComplexWord {
    ComplexWord::Single(Word::Simple(SimpleWord::Literal(text.to_string())))
}

fn simple(words: &[&str]) -> PipeableCommand {
    PipeableCommand::Simple(SimpleCommand {
        redirects_or_env_vars: Vec::new(),
        redirects_or_cmd_words: words
            .iter()
            .map(|w| RedirectOrCmdWord::CmdWord(word(w)))
            .collect(),
    })
}

fn list_of(first: ListableCommand, rest: Vec<AndOr>) -> TopLevelCommand {
    TopLevelCommand(Command::List(AndOrList { first, rest }))
}

/// A pretend host: external commands "emit:<text>" write their text to any
/// stdout file redirect, and "count" reports the byte length of its stdin
/// redirect's file as its exit status. Files live in a vector of pairs.
struct FakeHost {
    files: Vec<(String, String)>,
}

impl FakeHost {
    fn new() -> FakeHost {
        FakeHost { files: Vec::new() }
    }

    fn read(&self, path: &str) -> Option<String> {
        self.files.iter().find(|p| p.0 == path).map(|p| p.1.clone())
    }

    fn write(&mut self, path: &str, content: &str) {
        for p in self.files.iter_mut() {
            if p.0 == path {
                p.1 = content.to_string();
                return;
            }
        }
        self.files.push((path.to_string(), content.to_string()));
    }

    fn remove(&mut self, path: &str) {
        self.files.retain(|p| p.0 != path);
    }

    fn apply_effects(&mut self, effects: &[Effect]) {
        for e in effects {
            match e {
                Effect::FileWrite((p, t)) => self.write(p, t),
                Effect::FileAppend((p, t)) => {
                    let old = self.read(p).unwrap_or_default();
                    let mut n = old;
                    n.push_str(t);
                    self.write(p, &n);
                }
                Effect::RemoveFile(p) => self.remove(p),
                _ => {}
            }
        }
    }

    fn answer(&mut self, q: &Query) -> Answer {
        match q {
            Query::FindExecutable(cands) => Answer::Found(Some(cands[0].clone())),
            Query::ReadFirstLine(_) => Answer::MaybeLine(None),
            Query::Spawn(req) => {
                let prog = req.args[0].clone();
                if let Some(text) = prog.strip_prefix("emit:") {
                    for r in &req.redirects {
                        if let Redirect::Write((1, path)) = r {
                            self.write(path, text);
                        }
                    }
                    Answer::Code(EXIT_SUCCESS)
                } else if prog == "count" {
                    let mut n = 0;
                    for r in &req.redirects {
                        if let Redirect::Read((0, path)) = r {
                            n = self.read(path).map(|c| c.len()).unwrap_or(0);
                        }
                    }
                    Answer::Code(n as i32)
                } else if prog == "fail" {
                    Answer::Code(EXIT_FAILURE)
                } else {
                    Answer::Code(EXIT_SUCCESS)
                }
            }
            _ => Answer::Unit,
        }
    }
}

fn drive(sh: &mut Shell, cmd: TopLevelCommand, host: &mut FakeHost) -> i32 {
    let mut step = interpret(sh, cmd);
    loop {
        match step {
            Step::Need(effects, q, cont) => {
                host.apply_effects(&effects);
                let a = host.answer(&q);
                step = resume(sh, cont, a);
            }
            Step::Continue(effects, status, stack) => {
                host.apply_effects(&effects);
                step = advance(sh, stack, status);
            }
            Step::Done(st) => return st,
            Step::Exit(c) => return c,
        }
    }
}

#[test]
fn two_stage_pipeline_materializes_channel() {
    // stage 1 writes channel 0; stage 2 reads it; the channel file is gone
    // when the pipeline is done
    let mut sh = Shell::new(false, "/");
    let mut host = FakeHost::new();
    let pipe = ListableCommand::Pipe(false, vec![simple(&["emit:foo"]), simple(&["count"])]);
    let status = drive(&mut sh, list_of(pipe, Vec::new()), &mut host);
    // `count` reported the byte count of `foo` through its exit status
    assert_eq!(status, 3);
    assert!(host.read("/proc/pipe0.txt").is_none());
}

#[test]
fn pipeline_stage_redirects_chain() {
    let mut sh = Shell::new(false, "/");
    let mut host = FakeHost::new();
    let mut seen: Vec<Vec<Redirect>> = Vec::new();
    let pipe = ListableCommand::Pipe(
        false,
        vec![simple(&["emit:a"]), simple(&["emit:b"]), simple(&["count"])],
    );
    let mut step = interpret(&mut sh, list_of(pipe, Vec::new()));
    loop {
        match step {
            Step::Need(effects, q, cont) => {
                host.apply_effects(&effects);
                if let Query::Spawn(req) = &q {
                    seen.push(wash::shell_base::clone_redirects(&req.redirects));
                }
                let a = host.answer(&q);
                step = resume(&mut sh, cont, a);
            }
            Step::Continue(effects, status, stack) => {
                host.apply_effects(&effects);
                step = advance(&mut sh, stack, status);
            }
            Step::Done(_) => break,
            Step::Exit(_) => break,
        }
    }
    assert_eq!(seen.len(), 3);
    assert!(matches!(&seen[0][0], Redirect::Write((1, p)) if p == "/proc/pipe0.txt"));
    assert!(matches!(&seen[1][0], Redirect::Read((0, p)) if p == "/proc/pipe0.txt"));
    assert!(matches!(&seen[1][1], Redirect::Write((1, p)) if p == "/proc/pipe1.txt"));
    assert!(matches!(&seen[2][0], Redirect::Read((0, p)) if p == "/proc/pipe1.txt"));
}

#[test]
fn negated_pipeline_inverts_status() {
    let mut sh = Shell::new(false, "/");
    let mut host = FakeHost::new();
    let pipe = ListableCommand::Pipe(true, vec![simple(&["emit:x"]), simple(&["fail"])]);
    let status = drive(&mut sh, list_of(pipe, Vec::new()), &mut host);
    assert_eq!(status, EXIT_SUCCESS);
    // the channel is removed even though the last stage failed
    assert!(host.read("/proc/pipe0.txt").is_none());
}

#[test]
fn and_or_short_circuit() {
    let mut sh = Shell::new(false, "/");
    let mut host = FakeHost::new();
    // pwd && pwd: both run, success
    let cmd = list_of(
        ListableCommand::Single(simple(&["pwd"])),
        vec![AndOr::And(ListableCommand::Single(simple(&["pwd"])))],
    );
    assert_eq!(drive(&mut sh, cmd, &mut host), EXIT_SUCCESS);
    // fail || pwd: second runs, success
    let cmd = list_of(
        ListableCommand::Single(simple(&["fail"])),
        vec![AndOr::Or(ListableCommand::Single(simple(&["pwd"])))],
    );
    assert_eq!(drive(&mut sh, cmd, &mut host), EXIT_SUCCESS);
    // fail && pwd: second skipped, failure stands
    let cmd = list_of(
        ListableCommand::Single(simple(&["fail"])),
        vec![AndOr::And(ListableCommand::Single(simple(&["pwd"])))],
    );
    assert_eq!(drive(&mut sh, cmd, &mut host), EXIT_FAILURE);
}

#[test]
fn bare_assignment_updates_tables() {
    let mut sh = Shell::new(false, "/");
    sh.env.set("GLOBAL", "old");
    let mut host = FakeHost::new();
    let cmd = TopLevelCommand(Command::List(AndOrList {
        first: ListableCommand::Single(PipeableCommand::Simple(SimpleCommand {
            redirects_or_env_vars: vec![
                wash::interpreter::RedirectOrEnvVar::EnvVar(
                    "GLOBAL".to_string(),
                    Some(word("new")),
                ),
                wash::interpreter::RedirectOrEnvVar::EnvVar("LOCAL".to_string(), None),
            ],
            redirects_or_cmd_words: Vec::new(),
        })),
        rest: Vec::new(),
    }));
    assert_eq!(drive(&mut sh, cmd, &mut host), EXIT_SUCCESS);
    assert_eq!(sh.env.get("GLOBAL").unwrap(), "new");
    assert_eq!(sh.vars.get("LOCAL").unwrap(), "");
}

#[test]
fn word_resolution_uses_variables() {
    let mut sh = Shell::new(false, "/");
    sh.vars.set("NAME", "world");
    sh.env.set("HOME", "/home/u");
    sh.last_exit_status = 7;
    let w = ComplexWord::Concat(vec![
        Word::SingleQuoted("hi ".to_string()),
        Word::Simple(SimpleWord::Param(wash::interpreter::Parameter::Var(
            "NAME".to_string(),
        ))),
    ]);
    assert_eq!(
        wash::interpreter::handle_top_level_word(&sh, &w).unwrap(),
        "hi world"
    );
    let tilde = ComplexWord::Single(Word::Simple(SimpleWord::Tilde));
    assert_eq!(
        wash::interpreter::handle_top_level_word(&sh, &tilde).unwrap(),
        "/home/u"
    );
    let status = ComplexWord::Single(Word::Simple(SimpleWord::Param(
        wash::interpreter::Parameter::Question,
    )));
    assert_eq!(
        wash::interpreter::handle_top_level_word(&sh, &status).unwrap(),
        "7"
    );
    let unset = ComplexWord::Single(Word::Simple(SimpleWord::Param(
        wash::interpreter::Parameter::Var("NOPE".to_string()),
    )));
    assert!(wash::interpreter::handle_top_level_word(&sh, &unset).is_none());
}

#[test]
fn double_quotes_join_with_spaces() {
    let sh = Shell::new(false, "/");
    let w = ComplexWord::Single(Word::DoubleQuoted(vec![
        SimpleWord::Literal("a".to_string()),
        SimpleWord::Colon,
        SimpleWord::Literal("b".to_string()),
    ]));
    assert_eq!(
        wash::interpreter::handle_top_level_word(&sh, &w).unwrap(),
        "a : b"
    );
}

#[test]
fn param_free_word_resolves_the_same_in_any_session() {
    // resolving a word with no parameter references is idempotent: two
    // resolutions, even in different sessions, give the same string
    let mut sh1 = Shell::new(false, "/a");
    sh1.vars.set("X", "1");
    let mut sh2 = Shell::new(true, "/b");
    sh2.env.set("HOME", "/zzz");
    sh2.last_exit_status = 42;
    let w = ComplexWord::Concat(vec![
        Word::SingleQuoted("lit".to_string()),
        Word::Simple(SimpleWord::Colon),
        Word::DoubleQuoted(vec![
            SimpleWord::Literal("q".to_string()),
            SimpleWord::Literal("r".to_string()),
        ]),
    ]);
    let once = wash::interpreter::handle_top_level_word(&sh1, &w).unwrap();
    let again = wash::interpreter::handle_top_level_word(&sh1, &w).unwrap();
    let elsewhere = wash::interpreter::handle_top_level_word(&sh2, &w).unwrap();
    assert_eq!(once, "lit:q r");
    assert_eq!(once, again);
    assert_eq!(once, elsewhere);
}

#[test]
fn relative_redirect_resolved_against_pwd() {
    let sh = Shell::new(false, "/work");
    let node = wash::interpreter::RedirectNode::Write(None, word("out.txt"));
    match wash::interpreter::handle_redirect_type(&sh, &node).unwrap() {
        Redirect::Write((fd, p)) => {
            assert_eq!(fd, 1);
            assert_eq!(p, "/work/out.txt");
        }
        _ => panic!("expected a write redirect"),
    }
    let node = wash::interpreter::RedirectNode::Read(Some(5), word("/abs.txt"));
    match wash::interpreter::handle_redirect_type(&sh, &node).unwrap() {
        Redirect::Read((fd, p)) => {
            assert_eq!(fd, 5);
            assert_eq!(p, "/abs.txt");
        }
        _ => panic!("expected a read redirect"),
    }
}

#[test]
fn subshell_runs_in_sequence() {
    let mut sh = Shell::new(false, "/");
    let mut host = FakeHost::new();
    let inner1 = list_of(ListableCommand::Single(simple(&["pwd"])), Vec::new());
    let inner2 = list_of(ListableCommand::Single(simple(&["fail"])), Vec::new());
    let cmd = list_of(
        ListableCommand::Single(PipeableCommand::Compound(
            wash::interpreter::CompoundCommand::Subshell(vec![inner1, inner2]),
        )),
        Vec::new(),
    );
    assert_eq!(drive(&mut sh, cmd, &mut host), EXIT_FAILURE);
}

#[test]
fn function_definition_reported() {
    let mut sh = Shell::new(false, "/");
    let mut host = FakeHost::new();
    let cmd = list_of(
        ListableCommand::Single(PipeableCommand::FunctionDef("f".to_string())),
        Vec::new(),
    );
    assert_eq!(drive(&mut sh, cmd, &mut host), EXIT_FAILURE);
}

#[test]
fn simple_command_decodes_to_actions() {
    let mut sh = Shell::new(false, "/");
    sh.env.set("SET", "yes");
    let cmd = SimpleCommand {
        redirects_or_env_vars: vec![
            wash::interpreter::RedirectOrEnvVar::EnvVar("A".to_string(), Some(word("1"))),
            wash::interpreter::RedirectOrEnvVar::EnvVar("B".to_string(), None),
        ],
        redirects_or_cmd_words: vec![
            RedirectOrCmdWord::CmdWord(word("run")),
            RedirectOrCmdWord::CmdWord(word("arg")),
        ],
    };
    let actions = wash::interpreter::handle_simple_command(&sh, &cmd, true);
    assert_eq!(actions.len(), 3);
    assert!(matches!(&actions[0],
        wash::interpreter::Action::SetEnv { key, value } if key == "A" && value == "1"));
    assert!(matches!(&actions[1],
        wash::interpreter::Action::SetEnv { key, value } if key == "B" && value == ""));
    match &actions[2] {
        wash::interpreter::Action::Command { name, args, background } => {
            assert_eq!(name, "run");
            assert_eq!(args, &vec!["arg".to_string()]);
            assert!(*background);
        }
        _ => panic!("expected the command action"),
    }
    let empty = SimpleCommand {
        redirects_or_env_vars: Vec::new(),
        redirects_or_cmd_words: Vec::new(),
    };
    let actions = wash::interpreter::handle_simple_command(&sh, &empty, false);
    assert_eq!(actions.len(), 1);
    assert!(matches!(&actions[0], wash::interpreter::Action::Invalid));
}
