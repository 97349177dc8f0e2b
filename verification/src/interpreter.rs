use vstd::prelude::*;

use crate::shell_base::{exec_post, spec_join_path, Answer, Effect, EffectV, EnvOutcome, ExecCont, ExecStep, Query, Redirect, RedirectV, Shell};
use crate::table::VarTable;
use crate::table::VarTable as OverlayTable;
use crate::text::{i32_to_string, join_strings, spec_dec, spec_i32_dec, spec_join, str_to_chars, u64_to_string};
use crate::{STDIN, STDOUT};

verus! {

/// A parameter reference inside a word.
pub enum Parameter {
    /// A named variable.
    Var(String),
    /// The last exit status, `$?`.
    Question,
    /// The session's process identifier, `$$`.
    Dollar,
    /// A parameter form the interpreter does not handle; the payload
    /// describes it.
    Other(String),
}

/// One atom of an unquoted or double-quoted word.
pub enum SimpleWord {
    /// Literal text.
    Literal(String),
    /// A literal colon.
    Colon,
    /// `~`, standing for the home directory.
    Tilde,
    /// A parameter reference.
    Param(Parameter),
    /// A word form the interpreter does not handle; the payload describes
    /// it.
    Other(String),
}

/// One quoted or unquoted word.
pub enum Word {
    /// Text between single quotes, taken as it stands.
    SingleQuoted(String),
    /// A bare atom.
    Simple(SimpleWord),
    /// Atoms between double quotes.
    DoubleQuoted(Vec<SimpleWord>),
}

/// A full word: one piece, or pieces written back to back.
pub enum ComplexWord {
    Single(Word),
    Concat(Vec<Word>),
}

/// A redirection as parsed: an optional descriptor and the target word.
pub enum RedirectNode {
    Read(Option<u16>, ComplexWord),
    Write(Option<u16>, ComplexWord),
    Append(Option<u16>, ComplexWord),
    /// A redirection form the interpreter does not handle.
    Other(String),
}

/// What may stand before the command word: an assignment or a redirection.
pub enum RedirectOrEnvVar {
    EnvVar(String, Option<ComplexWord>),
    Redirect(RedirectNode),
}

/// What may stand from the command word on: a word or a redirection.
pub enum RedirectOrCmdWord {
    CmdWord(ComplexWord),
    Redirect(RedirectNode),
}

/// One simple command: its leading assignments and redirections, then its
/// words and redirections.
pub struct SimpleCommand {
    pub redirects_or_env_vars: Vec<RedirectOrEnvVar>,
    pub redirects_or_cmd_words: Vec<RedirectOrCmdWord>,
}

/// A compound command: only a subshell is interpreted.
pub enum CompoundCommand {
    Subshell(Vec<TopLevelCommand>),
    /// A compound form the interpreter does not handle.
    Other(String),
}

/// One stage of a pipeline.
pub enum PipeableCommand {
    Simple(SimpleCommand),
    Compound(CompoundCommand),
    /// A function definition; the payload is its name. Not interpreted.
    FunctionDef(String),
}

/// A single stage, or a `!`-negatable pipeline of stages.
pub enum ListableCommand {
    Single(PipeableCommand),
    Pipe(bool, Vec<PipeableCommand>),
}

/// One link of an `&&`/`||` chain.
pub enum AndOr {
    And(ListableCommand),
    Or(ListableCommand),
}

/// A left-associated chain of pipelines joined by `&&` and `||`.
pub struct AndOrList {
    pub first: ListableCommand,
    pub rest: Vec<AndOr>,
}

/// A chain run in the background, or one run in the foreground.
pub enum Command {
    Job(AndOrList),
    List(AndOrList),
}

/// One top-level node of the syntax tree.
pub struct TopLevelCommand(pub Command);

/// One decoded interpreter output unit: a command to run, an environment
/// update, or a unit the interpreter cannot decode.
pub enum Action {
    Command { name: String, args: Vec<String>, background: bool },
    SetEnv { key: String, value: String },
    Invalid,
}

/// The value of one decoded interpreter output unit.
pub enum ActionV {
    Command(Seq<char>, Seq<Seq<char>>, bool),
    SetEnv(Seq<char>, Seq<char>),
    Invalid,
}

impl View for Action {
    type V = ActionV;

    open spec fn view(&self) -> ActionV {
        match self {
            Action::Command { name, args, background } => ActionV::Command(
                name@,
                args.deep_view(),
                *background,
            ),
            Action::SetEnv { key, value } => ActionV::SetEnv(key@, value@),
            Action::Invalid => ActionV::Invalid,
        }
    }
}

impl DeepView for Action {
    type V = ActionV;

    open spec fn deep_view(&self) -> ActionV {
        self.view()
    }
}

/// The actions one simple command decodes to: an environment update per
/// overlay assignment, in table order, then the command itself when there
/// is a command word; a command with neither decodes to nothing the engine
/// can run.
pub open spec fn spec_actions(
    overlay: Seq<(Seq<char>, Seq<char>)>,
    args: Seq<Seq<char>>,
    background: bool,
) -> Seq<ActionV> {
    let sets = overlay.map_values(|p: (Seq<char>, Seq<char>)| ActionV::SetEnv(p.0, p.1));
    if args.len() > 0 {
        sets.push(ActionV::Command(args[0], args.drop_first(), background))
    } else if overlay.len() == 0 {
        seq![ActionV::Invalid]
    } else {
        sets
    }
}

/// What one atom resolves to: literal text as itself, a colon as itself,
/// `~` as the home directory, a named parameter from the shell-local
/// variables first and the environment second (an unset one resolves to
/// nothing and drops the word), `$?` as the last exit status and `$$` as the
/// process identifier. Unhandled forms resolve to a note naming them.
pub open spec fn spec_resolve_simple_word(
    w: SimpleWord,
    vars: Map<Seq<char>, Seq<char>>,
    env: Map<Seq<char>, Seq<char>>,
    status: int,
    pid: u64,
) -> Option<Seq<char>> {
    match w {
        SimpleWord::Literal(s) => Some(s@),
        SimpleWord::Colon => Some(seq![':']),
        SimpleWord::Tilde => if env.dom().contains("HOME"@) {
            Some(env["HOME"@])
        } else {
            Some(Seq::empty())
        },
        SimpleWord::Param(p) => match p {
            Parameter::Var(k) => if vars.dom().contains(k@) {
                Some(vars[k@])
            } else if env.dom().contains(k@) {
                Some(env[k@])
            } else {
                None
            },
            Parameter::Question => Some(spec_i32_dec(status as int)),
            Parameter::Dollar => Some(spec_dec(pid as nat)),
            Parameter::Other(d) => Some("parameter not yet handled: "@ + d@),
        },
        SimpleWord::Other(d) => Some("simple word not yet handled: "@ + d@),
    }
}

/// The atoms of a list that resolve to something, in order.
pub open spec fn spec_resolved_parts(
    ws: Seq<SimpleWord>,
    vars: Map<Seq<char>, Seq<char>>,
    env: Map<Seq<char>, Seq<char>>,
    status: int,
    pid: u64,
) -> Seq<Seq<char>>
    decreases ws.len(),
{
    if ws.len() == 0 {
        Seq::empty()
    } else {
        let rest = spec_resolved_parts(ws.drop_first(), vars, env, status, pid);
        match spec_resolve_simple_word(ws[0], vars, env, status, pid) {
            Some(v) => seq![v] + rest,
            None => rest,
        }
    }
}

/// What one word resolves to: single-quoted text as it stands, a bare atom
/// as that atom, and a double-quoted word as its resolved atoms joined by
/// single spaces.
pub open spec fn spec_resolve_word(
    w: Word,
    vars: Map<Seq<char>, Seq<char>>,
    env: Map<Seq<char>, Seq<char>>,
    status: int,
    pid: u64,
) -> Option<Seq<char>> {
    match w {
        Word::SingleQuoted(s) => Some(s@),
        Word::Simple(sw) => spec_resolve_simple_word(sw, vars, env, status, pid),
        Word::DoubleQuoted(ws) => Some(
            spec_join(spec_resolved_parts(ws@, vars, env, status, pid), seq![' ']),
        ),
    }
}

/// The words of a list that resolve to something, in order.
pub open spec fn spec_resolved_words(
    ws: Seq<Word>,
    vars: Map<Seq<char>, Seq<char>>,
    env: Map<Seq<char>, Seq<char>>,
    status: int,
    pid: u64,
) -> Seq<Seq<char>>
    decreases ws.len(),
{
    if ws.len() == 0 {
        Seq::empty()
    } else {
        let rest = spec_resolved_words(ws.drop_first(), vars, env, status, pid);
        match spec_resolve_word(ws[0], vars, env, status, pid) {
            Some(v) => seq![v] + rest,
            None => rest,
        }
    }
}

/// What a full word resolves to: its single piece, or its pieces joined
/// with nothing between them.
pub open spec fn spec_resolve_complex(
    c: ComplexWord,
    vars: Map<Seq<char>, Seq<char>>,
    env: Map<Seq<char>, Seq<char>>,
    status: int,
    pid: u64,
) -> Option<Seq<char>> {
    match c {
        ComplexWord::Single(w) => spec_resolve_word(w, vars, env, status, pid),
        ComplexWord::Concat(ws) => Some(
            spec_join(spec_resolved_words(ws@, vars, env, status, pid), Seq::empty()),
        ),
    }
}

fn resolve_simple_word(sh: &Shell, w: &SimpleWord) -> (r: Option<String>)
    requires
        sh.wf(),
    ensures
        match r {
            Some(v) => spec_resolve_simple_word(*w, sh.vmap(), sh.emap(), sh.last_exit_status as int, sh.pid)
                == Some(v@),
            None => spec_resolve_simple_word(*w, sh.vmap(), sh.emap(), sh.last_exit_status as int, sh.pid)
                is None,
        },
{
    match w {
        SimpleWord::Literal(s) => Some(s.clone()),
        SimpleWord::Colon => {
            proof {
                assert(":"@ =~= seq![':']) by {
                    reveal_strlit(":");
                }
            }
            Some(":".to_owned())
        },
        SimpleWord::Tilde => match sh.env.get("HOME") {
            Some(v) => Some(v),
            None => Some(String::new()),
        },
        SimpleWord::Param(p) => match p {
            Parameter::Var(k) => match sh.vars.get(k.as_str()) {
                Some(v) => Some(v),
                None => sh.env.get(k.as_str()),
            },
            Parameter::Question => Some(i32_to_string(sh.last_exit_status)),
            Parameter::Dollar => Some(u64_to_string(sh.pid)),
            Parameter::Other(d) => {
                let mut m = "parameter not yet handled: ".to_owned();
                m.append(d.as_str());
                Some(m)
            },
        },
        SimpleWord::Other(d) => {
            let mut m = "simple word not yet handled: ".to_owned();
            m.append(d.as_str());
            Some(m)
        },
    }
}

fn resolve_word(sh: &Shell, w: &Word) -> (r: Option<String>)
    requires
        sh.wf(),
    ensures
        match r {
            Some(v) => spec_resolve_word(*w, sh.vmap(), sh.emap(), sh.last_exit_status as int, sh.pid)
                == Some(v@),
            None => spec_resolve_word(*w, sh.vmap(), sh.emap(), sh.last_exit_status as int, sh.pid)
                is None,
        },
{
    match w {
        Word::SingleQuoted(s) => Some(s.clone()),
        Word::Simple(sw) => resolve_simple_word(sh, sw),
        Word::DoubleQuoted(ws) => {
            let mut parts: Vec<String> = Vec::new();
            let mut i: usize = 0;
            while i < ws.len()
                invariant
                    sh.wf(),
                    i <= ws@.len(),
                    parts.deep_view() == spec_resolved_parts(
                        ws@.subrange(0, i as int),
                        sh.vmap(),
                        sh.emap(),
                        sh.last_exit_status as int,
                        sh.pid,
                    ),
                decreases ws@.len() - i,
            {
                let ghost pre = ws@.subrange(0, i as int);
                match resolve_simple_word(sh, &ws[i]) {
                    Some(v) => {
                        parts.push(v);
                    },
                    None => {},
                }
                i = i + 1;
                proof {
                    let cur = ws@.subrange(0, i as int);
                    lemma_resolved_parts_snoc(
                        pre,
                        ws@[i - 1],
                        sh.vmap(),
                        sh.emap(),
                        sh.last_exit_status as int,
                        sh.pid,
                    );
                    assert(pre.push(ws@[i - 1]) =~= cur);
                    assert(parts.deep_view() =~= spec_resolved_parts(
                        cur,
                        sh.vmap(),
                        sh.emap(),
                        sh.last_exit_status as int,
                        sh.pid,
                    ));
                }
            }
            proof {
                assert(ws@.subrange(0, ws@.len() as int) =~= ws@);
                assert(" "@ =~= seq![' ']) by {
                    reveal_strlit(" ");
                }
            }
            Some(join_strings(&parts, " "))
        },
    }
}

/// One more atom extends the resolved parts by its resolution, if any.
proof fn lemma_resolved_parts_snoc(
    ws: Seq<SimpleWord>,
    w: SimpleWord,
    vars: Map<Seq<char>, Seq<char>>,
    env: Map<Seq<char>, Seq<char>>,
    status: int,
    pid: u64,
)
    ensures
        spec_resolved_parts(ws.push(w), vars, env, status, pid) == spec_resolved_parts(
            ws,
            vars,
            env,
            status,
            pid,
        ) + (match spec_resolve_simple_word(w, vars, env, status, pid) {
            Some(v) => seq![v],
            None => Seq::<Seq<char>>::empty(),
        }),
    decreases ws.len(),
{
    let extra = (match spec_resolve_simple_word(w, vars, env, status, pid) {
        Some(v) => seq![v],
        None => Seq::<Seq<char>>::empty(),
    });
    if ws.len() == 0 {
        assert(ws.push(w)[0] == w);
        assert(ws.push(w).drop_first() =~= Seq::<SimpleWord>::empty());
        assert(spec_resolved_parts(Seq::<SimpleWord>::empty(), vars, env, status, pid)
            =~= Seq::<Seq<char>>::empty());
        assert(spec_resolved_parts(ws, vars, env, status, pid) + extra =~= extra);
        assert(spec_resolved_parts(ws.push(w), vars, env, status, pid) =~= extra);
    } else {
        lemma_resolved_parts_snoc(ws.drop_first(), w, vars, env, status, pid);
        assert(ws.push(w)[0] == ws[0]);
        assert(ws.push(w).drop_first() =~= ws.drop_first().push(w));
        match spec_resolve_simple_word(ws[0], vars, env, status, pid) {
            Some(v) => {
                assert(spec_resolved_parts(ws.push(w), vars, env, status, pid) =~= seq![v]
                    + spec_resolved_parts(ws.drop_first(), vars, env, status, pid) + extra);
                assert(spec_resolved_parts(ws, vars, env, status, pid) + extra =~= seq![v]
                    + spec_resolved_parts(ws.drop_first(), vars, env, status, pid) + extra);
            },
            None => {},
        }
    }
}

/// One more word extends the resolved words by its resolution, if any.
proof fn lemma_resolved_words_snoc(
    ws: Seq<Word>,
    w: Word,
    vars: Map<Seq<char>, Seq<char>>,
    env: Map<Seq<char>, Seq<char>>,
    status: int,
    pid: u64,
)
    ensures
        spec_resolved_words(ws.push(w), vars, env, status, pid) == spec_resolved_words(
            ws,
            vars,
            env,
            status,
            pid,
        ) + (match spec_resolve_word(w, vars, env, status, pid) {
            Some(v) => seq![v],
            None => Seq::<Seq<char>>::empty(),
        }),
    decreases ws.len(),
{
    let extra = (match spec_resolve_word(w, vars, env, status, pid) {
        Some(v) => seq![v],
        None => Seq::<Seq<char>>::empty(),
    });
    if ws.len() == 0 {
        assert(ws.push(w)[0] == w);
        assert(ws.push(w).drop_first() =~= Seq::<Word>::empty());
        assert(spec_resolved_words(Seq::<Word>::empty(), vars, env, status, pid)
            =~= Seq::<Seq<char>>::empty());
        assert(spec_resolved_words(ws, vars, env, status, pid) + extra =~= extra);
        match spec_resolve_word(w, vars, env, status, pid) {
            Some(v) => {
                assert(spec_resolved_words(ws.push(w), vars, env, status, pid) =~= seq![v]
                    + spec_resolved_words(ws.push(w).drop_first(), vars, env, status, pid));
                assert(spec_resolved_words(ws.push(w), vars, env, status, pid) =~= extra);
            },
            None => {
                assert(spec_resolved_words(ws.push(w), vars, env, status, pid) =~= extra);
            },
        }
    } else {
        lemma_resolved_words_snoc(ws.drop_first(), w, vars, env, status, pid);
        assert(ws.push(w)[0] == ws[0]);
        assert(ws.push(w).drop_first() =~= ws.drop_first().push(w));
        match spec_resolve_word(ws[0], vars, env, status, pid) {
            Some(v) => {
                assert(spec_resolved_words(ws.push(w), vars, env, status, pid) =~= seq![v]
                    + spec_resolved_words(ws.drop_first(), vars, env, status, pid) + extra);
                assert(spec_resolved_words(ws, vars, env, status, pid) + extra =~= seq![v]
                    + spec_resolved_words(ws.drop_first(), vars, env, status, pid) + extra);
            },
            None => {},
        }
    }
}

/// Resolves a full word against the session, exactly as
/// `spec_resolve_complex` lays it out.
pub fn handle_top_level_word(sh: &Shell, c: &ComplexWord) -> (r: Option<String>)
    requires
        sh.wf(),
    ensures
        match r {
            Some(v) => spec_resolve_complex(*c, sh.vmap(), sh.emap(), sh.last_exit_status as int, sh.pid)
                == Some(v@),
            None => spec_resolve_complex(*c, sh.vmap(), sh.emap(), sh.last_exit_status as int, sh.pid)
                is None,
        },
{
    match c {
        ComplexWord::Single(w) => resolve_word(sh, w),
        ComplexWord::Concat(ws) => {
            let mut parts: Vec<String> = Vec::new();
            let mut i: usize = 0;
            while i < ws.len()
                invariant
                    sh.wf(),
                    i <= ws@.len(),
                    parts.deep_view() == spec_resolved_words(
                        ws@.subrange(0, i as int),
                        sh.vmap(),
                        sh.emap(),
                        sh.last_exit_status as int,
                        sh.pid,
                    ),
                decreases ws@.len() - i,
            {
                let ghost pre = ws@.subrange(0, i as int);
                match resolve_word(sh, &ws[i]) {
                    Some(v) => {
                        parts.push(v);
                    },
                    None => {},
                }
                i = i + 1;
                proof {
                    let cur = ws@.subrange(0, i as int);
                    lemma_resolved_words_snoc(
                        pre,
                        ws@[i - 1],
                        sh.vmap(),
                        sh.emap(),
                        sh.last_exit_status as int,
                        sh.pid,
                    );
                    assert(pre.push(ws@[i - 1]) =~= cur);
                    assert(parts.deep_view() =~= spec_resolved_words(
                        cur,
                        sh.vmap(),
                        sh.emap(),
                        sh.last_exit_status as int,
                        sh.pid,
                    ));
                }
            }
            proof {
                assert(ws@.subrange(0, ws@.len() as int) =~= ws@);
                assert(""@ =~= Seq::<char>::empty()) by {
                    reveal_strlit("");
                }
            }
            Some(join_strings(&parts, ""))
        },
    }
}

/// A path made absolute: kept as it stands when it already leads with the
/// separator, joined to the working directory otherwise.
pub open spec fn spec_absolute(pwd: Seq<char>, p: Seq<char>) -> Seq<char> {
    if p.len() > 0 && p[0] == '/' {
        p
    } else {
        spec_join_path(pwd, p)
    }
}

/// What a redirection node resolves to: the written descriptor defaulting
/// to standard output, the read one to standard input, and the target made
/// absolute against the working directory. A node whose word resolves to
/// nothing, or an unhandled form, resolves to no redirection.
pub open spec fn spec_resolve_redirect(
    r: RedirectNode,
    vars: Map<Seq<char>, Seq<char>>,
    env: Map<Seq<char>, Seq<char>>,
    status: int,
    pid: u64,
    pwd: Seq<char>,
) -> Option<RedirectV> {
    match r {
        RedirectNode::Read(fd, w) => match spec_resolve_complex(w, vars, env, status, pid) {
            Some(f) => Some(
                RedirectV::Read(
                    match fd {
                        Some(n) => n,
                        None => STDIN,
                    },
                    spec_absolute(pwd, f),
                ),
            ),
            None => None,
        },
        RedirectNode::Write(fd, w) => match spec_resolve_complex(w, vars, env, status, pid) {
            Some(f) => Some(
                RedirectV::Write(
                    match fd {
                        Some(n) => n,
                        None => STDOUT,
                    },
                    spec_absolute(pwd, f),
                ),
            ),
            None => None,
        },
        RedirectNode::Append(fd, w) => match spec_resolve_complex(w, vars, env, status, pid) {
            Some(f) => Some(
                RedirectV::Append(
                    match fd {
                        Some(n) => n,
                        None => STDOUT,
                    },
                    spec_absolute(pwd, f),
                ),
            ),
            None => None,
        },
        RedirectNode::Other(d) => None,
    }
}

fn make_absolute(pwd: &String, p: String) -> (r: String)
    ensures
        r@ == spec_absolute(pwd@, p@),
{
    let chars = str_to_chars(p.as_str());
    if chars.len() > 0 && chars[0] == '/' {
        p
    } else {
        let pchars = str_to_chars(pwd.as_str());
        let mut r = pwd.clone();
        if pchars.len() > 0 && pchars[pchars.len() - 1] == '/' {
            r.append(p.as_str());
        } else {
            r.append("/");
            r.append(p.as_str());
            proof {
                assert("/"@ =~= seq!['/']) by {
                    reveal_strlit("/");
                }
            }
        }
        r
    }
}

/// Resolves one redirection node against the session, exactly as
/// `spec_resolve_redirect` lays it out.
pub fn handle_redirect_type(sh: &Shell, r: &RedirectNode) -> (res: Option<Redirect>)
    requires
        sh.wf(),
    ensures
        match res {
            Some(rd) => spec_resolve_redirect(
                *r,
                sh.vmap(),
                sh.emap(),
                sh.last_exit_status as int,
                sh.pid,
                sh.pwd@,
            ) == Some(rd@),
            None => spec_resolve_redirect(
                *r,
                sh.vmap(),
                sh.emap(),
                sh.last_exit_status as int,
                sh.pid,
                sh.pwd@,
            ) is None,
        },
{
    match r {
        RedirectNode::Read(fd, w) => match handle_top_level_word(sh, w) {
            Some(f) => {
                let n = match fd {
                    Some(n) => *n,
                    None => STDIN,
                };
                Some(Redirect::Read((n, make_absolute(&sh.pwd, f))))
            },
            None => None,
        },
        RedirectNode::Write(fd, w) => match handle_top_level_word(sh, w) {
            Some(f) => {
                let n = match fd {
                    Some(n) => *n,
                    None => STDOUT,
                };
                Some(Redirect::Write((n, make_absolute(&sh.pwd, f))))
            },
            None => None,
        },
        RedirectNode::Append(fd, w) => match handle_top_level_word(sh, w) {
            Some(f) => {
                let n = match fd {
                    Some(n) => *n,
                    None => STDOUT,
                };
                Some(Redirect::Append((n, make_absolute(&sh.pwd, f))))
            },
            None => None,
        },
        RedirectNode::Other(d) => None,
    }
}

/// Whether a word is free of parameter references: no `~`, no `$` form.
/// Such a word resolves the same in every session state.
pub open spec fn simple_word_no_params(w: SimpleWord) -> bool {
    match w {
        SimpleWord::Literal(s) => true,
        SimpleWord::Colon => true,
        SimpleWord::Tilde => false,
        SimpleWord::Param(p) => false,
        SimpleWord::Other(d) => true,
    }
}

/// Whether every atom of a word is free of parameter references.
pub open spec fn word_no_params(w: Word) -> bool {
    match w {
        Word::SingleQuoted(s) => true,
        Word::Simple(sw) => simple_word_no_params(sw),
        Word::DoubleQuoted(ws) => forall|i: int|
            0 <= i < ws@.len() ==> simple_word_no_params(#[trigger] ws@[i]),
    }
}

/// Whether every piece of a full word is free of parameter references.
pub open spec fn complex_word_no_params(c: ComplexWord) -> bool {
    match c {
        ComplexWord::Single(w) => word_no_params(w),
        ComplexWord::Concat(ws) => forall|i: int|
            0 <= i < ws@.len() ==> word_no_params(#[trigger] ws@[i]),
    }
}

proof fn lemma_parts_state_free(
    ws: Seq<SimpleWord>,
    vars1: Map<Seq<char>, Seq<char>>,
    env1: Map<Seq<char>, Seq<char>>,
    status1: int,
    pid1: u64,
    vars2: Map<Seq<char>, Seq<char>>,
    env2: Map<Seq<char>, Seq<char>>,
    status2: int,
    pid2: u64,
)
    requires
        forall|i: int| 0 <= i < ws.len() ==> simple_word_no_params(#[trigger] ws[i]),
    ensures
        spec_resolved_parts(ws, vars1, env1, status1, pid1) == spec_resolved_parts(
            ws,
            vars2,
            env2,
            status2,
            pid2,
        ),
    decreases ws.len(),
{
    if ws.len() > 0 {
        assert(simple_word_no_params(ws[0]));
        lemma_parts_state_free(
            ws.drop_first(),
            vars1,
            env1,
            status1,
            pid1,
            vars2,
            env2,
            status2,
            pid2,
        );
    }
}

proof fn lemma_word_state_free(
    w: Word,
    vars1: Map<Seq<char>, Seq<char>>,
    env1: Map<Seq<char>, Seq<char>>,
    status1: int,
    pid1: u64,
    vars2: Map<Seq<char>, Seq<char>>,
    env2: Map<Seq<char>, Seq<char>>,
    status2: int,
    pid2: u64,
)
    requires
        word_no_params(w),
    ensures
        spec_resolve_word(w, vars1, env1, status1, pid1) == spec_resolve_word(
            w,
            vars2,
            env2,
            status2,
            pid2,
        ),
{
    match w {
        Word::SingleQuoted(s) => {},
        Word::Simple(sw) => {},
        Word::DoubleQuoted(ws) => {
            lemma_parts_state_free(
                ws@,
                vars1,
                env1,
                status1,
                pid1,
                vars2,
                env2,
                status2,
                pid2,
            );
        },
    }
}

proof fn lemma_words_state_free(
    ws: Seq<Word>,
    vars1: Map<Seq<char>, Seq<char>>,
    env1: Map<Seq<char>, Seq<char>>,
    status1: int,
    pid1: u64,
    vars2: Map<Seq<char>, Seq<char>>,
    env2: Map<Seq<char>, Seq<char>>,
    status2: int,
    pid2: u64,
)
    requires
        forall|i: int| 0 <= i < ws.len() ==> word_no_params(#[trigger] ws[i]),
    ensures
        spec_resolved_words(ws, vars1, env1, status1, pid1) == spec_resolved_words(
            ws,
            vars2,
            env2,
            status2,
            pid2,
        ),
    decreases ws.len(),
{
    if ws.len() > 0 {
        assert(word_no_params(ws[0]));
        lemma_word_state_free(
            ws[0],
            vars1,
            env1,
            status1,
            pid1,
            vars2,
            env2,
            status2,
            pid2,
        );
        lemma_words_state_free(
            ws.drop_first(),
            vars1,
            env1,
            status1,
            pid1,
            vars2,
            env2,
            status2,
            pid2,
        );
    }
}

/// Resolution of a word with no parameter references does not depend on the
/// session state: two sessions, whatever their variables, environment, last
/// status and process identifier, resolve it to the same text. Resolving it
/// twice therefore yields the same string.
pub proof fn lemma_resolve_no_params_state_free(
    c: ComplexWord,
    vars1: Map<Seq<char>, Seq<char>>,
    env1: Map<Seq<char>, Seq<char>>,
    status1: int,
    pid1: u64,
    vars2: Map<Seq<char>, Seq<char>>,
    env2: Map<Seq<char>, Seq<char>>,
    status2: int,
    pid2: u64,
)
    requires
        complex_word_no_params(c),
    ensures
        spec_resolve_complex(c, vars1, env1, status1, pid1) == spec_resolve_complex(
            c,
            vars2,
            env2,
            status2,
            pid2,
        ),
{
    match c {
        ComplexWord::Single(w) => {
            lemma_word_state_free(
                w,
                vars1,
                env1,
                status1,
                pid1,
                vars2,
                env2,
                status2,
                pid2,
            );
        },
        ComplexWord::Concat(ws) => {
            lemma_words_state_free(
                ws@,
                vars1,
                env1,
                status1,
                pid1,
                vars2,
                env2,
                status2,
                pid2,
            );
        },
    }
}

/// The environment overlay a simple command's leading assignments build: a
/// later assignment to the same name wins, an assignment with no word sets
/// the empty value, and one whose word resolves to nothing is dropped.
/// Redirections in the leading positions contribute nothing.
pub open spec fn spec_overlay(
    items: Seq<RedirectOrEnvVar>,
    vars: Map<Seq<char>, Seq<char>>,
    env: Map<Seq<char>, Seq<char>>,
    status: int,
    pid: u64,
) -> Map<Seq<char>, Seq<char>>
    decreases items.len(),
{
    if items.len() == 0 {
        Map::empty()
    } else {
        let m = spec_overlay(items.drop_last(), vars, env, status, pid);
        match items.last() {
            RedirectOrEnvVar::EnvVar(k, w) => match w {
                None => m.insert(k@, Seq::empty()),
                Some(cw) => match spec_resolve_complex(cw, vars, env, status, pid) {
                    Some(v) => m.insert(k@, v),
                    None => m,
                },
            },
            RedirectOrEnvVar::Redirect(rd) => m,
        }
    }
}

/// A name set in a pair list: updated in place where the name already
/// stands, appended otherwise.
pub open spec fn pairs_set(
    ps: Seq<(Seq<char>, Seq<char>)>,
    k: Seq<char>,
    v: Seq<char>,
) -> Seq<(Seq<char>, Seq<char>)> {
    if exists|i: int| 0 <= i < ps.len() && (#[trigger] ps[i]).0 == k {
        ps.update(choose|i: int| 0 <= i < ps.len() && (#[trigger] ps[i]).0 == k, (k, v))
    } else {
        ps.push((k, v))
    }
}

/// The overlay as ordered pairs: `spec_overlay` with first-assignment
/// order kept.
pub open spec fn spec_overlay_pairs(
    items: Seq<RedirectOrEnvVar>,
    vars: Map<Seq<char>, Seq<char>>,
    env: Map<Seq<char>, Seq<char>>,
    status: int,
    pid: u64,
) -> Seq<(Seq<char>, Seq<char>)>
    decreases items.len(),
{
    if items.len() == 0 {
        Seq::empty()
    } else {
        let ps = spec_overlay_pairs(items.drop_last(), vars, env, status, pid);
        match items.last() {
            RedirectOrEnvVar::EnvVar(k, w) => match w {
                None => pairs_set(ps, k@, Seq::empty()),
                Some(cw) => match spec_resolve_complex(cw, vars, env, status, pid) {
                    Some(v) => pairs_set(ps, k@, v),
                    None => ps,
                },
            },
            RedirectOrEnvVar::Redirect(rd) => ps,
        }
    }
}

/// The argument words of a simple command, resolved in order; a word that
/// resolves to nothing is dropped.
pub open spec fn spec_args(
    items: Seq<RedirectOrCmdWord>,
    vars: Map<Seq<char>, Seq<char>>,
    env: Map<Seq<char>, Seq<char>>,
    status: int,
    pid: u64,
) -> Seq<Seq<char>>
    decreases items.len(),
{
    if items.len() == 0 {
        Seq::empty()
    } else {
        let rest = spec_args(items.drop_first(), vars, env, status, pid);
        match items[0] {
            RedirectOrCmdWord::CmdWord(cw) => match spec_resolve_complex(cw, vars, env, status, pid) {
                Some(v) => seq![v] + rest,
                None => rest,
            },
            RedirectOrCmdWord::Redirect(rd) => rest,
        }
    }
}

/// The redirections of a simple command, resolved in order.
pub open spec fn spec_extra_redirects(
    items: Seq<RedirectOrCmdWord>,
    vars: Map<Seq<char>, Seq<char>>,
    env: Map<Seq<char>, Seq<char>>,
    status: int,
    pid: u64,
    pwd: Seq<char>,
) -> Seq<RedirectV>
    decreases items.len(),
{
    if items.len() == 0 {
        Seq::empty()
    } else {
        let rest = spec_extra_redirects(items.drop_first(), vars, env, status, pid, pwd);
        match items[0] {
            RedirectOrCmdWord::Redirect(rd) => match spec_resolve_redirect(
                rd,
                vars,
                env,
                status,
                pid,
                pwd,
            ) {
                Some(v) => seq![v] + rest,
                None => rest,
            },
            RedirectOrCmdWord::CmdWord(cw) => rest,
        }
    }
}

/// The notices a simple command's unhandled redirection forms draw, in
/// order.
pub open spec fn spec_warnings(items: Seq<RedirectOrCmdWord>) -> Seq<Seq<char>>
    decreases items.len(),
{
    if items.len() == 0 {
        Seq::empty()
    } else {
        let rest = spec_warnings(items.drop_first());
        match items[0] {
            RedirectOrCmdWord::Redirect(rd) => match rd {
                RedirectNode::Other(d) => seq!["Redirect not yet handled: "@ + d@] + rest,
                _ => rest,
            },
            RedirectOrCmdWord::CmdWord(cw) => rest,
        }
    }
}

proof fn lemma_args_snoc(
    items: Seq<RedirectOrCmdWord>,
    it: RedirectOrCmdWord,
    vars: Map<Seq<char>, Seq<char>>,
    env: Map<Seq<char>, Seq<char>>,
    status: int,
    pid: u64,
    pwd: Seq<char>,
)
    ensures
        spec_args(items.push(it), vars, env, status, pid) == spec_args(items, vars, env, status, pid)
            + (match it {
            RedirectOrCmdWord::CmdWord(cw) => match spec_resolve_complex(cw, vars, env, status, pid) {
                Some(v) => seq![v],
                None => Seq::<Seq<char>>::empty(),
            },
            RedirectOrCmdWord::Redirect(rd) => Seq::<Seq<char>>::empty(),
        }),
        spec_extra_redirects(items.push(it), vars, env, status, pid, pwd) == spec_extra_redirects(
            items,
            vars,
            env,
            status,
            pid,
            pwd,
        ) + (match it {
            RedirectOrCmdWord::Redirect(rd) => match spec_resolve_redirect(rd, vars, env, status, pid, pwd) {
                Some(v) => seq![v],
                None => Seq::<RedirectV>::empty(),
            },
            RedirectOrCmdWord::CmdWord(cw) => Seq::<RedirectV>::empty(),
        }),
        spec_warnings(items.push(it)) == spec_warnings(items) + (match it {
            RedirectOrCmdWord::Redirect(rd) => match rd {
                RedirectNode::Other(d) => seq!["Redirect not yet handled: "@ + d@],
                _ => Seq::<Seq<char>>::empty(),
            },
            RedirectOrCmdWord::CmdWord(cw) => Seq::<Seq<char>>::empty(),
        }),
    decreases items.len(),
{
    if items.len() == 0 {
        assert(items.push(it)[0] == it);
        assert(items.push(it).drop_first() =~= Seq::<RedirectOrCmdWord>::empty());
        assert(spec_args(Seq::<RedirectOrCmdWord>::empty(), vars, env, status, pid)
            =~= Seq::<Seq<char>>::empty());
        assert(spec_extra_redirects(Seq::<RedirectOrCmdWord>::empty(), vars, env, status, pid, pwd)
            =~= Seq::<RedirectV>::empty());
        assert(spec_warnings(Seq::<RedirectOrCmdWord>::empty()) =~= Seq::<Seq<char>>::empty());
        assert(spec_args(items.push(it), vars, env, status, pid) =~= spec_args(
            items,
            vars,
            env,
            status,
            pid,
        ) + (match it {
            RedirectOrCmdWord::CmdWord(cw) => match spec_resolve_complex(cw, vars, env, status, pid) {
                Some(v) => seq![v],
                None => Seq::<Seq<char>>::empty(),
            },
            RedirectOrCmdWord::Redirect(rd) => Seq::<Seq<char>>::empty(),
        }));
        assert(spec_extra_redirects(items.push(it), vars, env, status, pid, pwd)
            =~= spec_extra_redirects(items, vars, env, status, pid, pwd) + (match it {
            RedirectOrCmdWord::Redirect(rd) => match spec_resolve_redirect(rd, vars, env, status, pid, pwd) {
                Some(v) => seq![v],
                None => Seq::<RedirectV>::empty(),
            },
            RedirectOrCmdWord::CmdWord(cw) => Seq::<RedirectV>::empty(),
        }));
        assert(spec_warnings(items.push(it)) =~= spec_warnings(items) + (match it {
            RedirectOrCmdWord::Redirect(rd) => match rd {
                RedirectNode::Other(d) => seq!["Redirect not yet handled: "@ + d@],
                _ => Seq::<Seq<char>>::empty(),
            },
            RedirectOrCmdWord::CmdWord(cw) => Seq::<Seq<char>>::empty(),
        }));
    } else {
        lemma_args_snoc(items.drop_first(), it, vars, env, status, pid, pwd);
        assert(items.push(it)[0] == items[0]);
        assert(items.push(it).drop_first() =~= items.drop_first().push(it));
        let ae = (match it {
            RedirectOrCmdWord::CmdWord(cw) => match spec_resolve_complex(cw, vars, env, status, pid) {
                Some(v) => seq![v],
                None => Seq::<Seq<char>>::empty(),
            },
            RedirectOrCmdWord::Redirect(rd) => Seq::<Seq<char>>::empty(),
        });
        let re = (match it {
            RedirectOrCmdWord::Redirect(rd) => match spec_resolve_redirect(rd, vars, env, status, pid, pwd) {
                Some(v) => seq![v],
                None => Seq::<RedirectV>::empty(),
            },
            RedirectOrCmdWord::CmdWord(cw) => Seq::<RedirectV>::empty(),
        });
        let we = (match it {
            RedirectOrCmdWord::Redirect(rd) => match rd {
                RedirectNode::Other(d) => seq!["Redirect not yet handled: "@ + d@],
                _ => Seq::<Seq<char>>::empty(),
            },
            RedirectOrCmdWord::CmdWord(cw) => Seq::<Seq<char>>::empty(),
        });
        assert(spec_args(items.push(it), vars, env, status, pid) =~= spec_args(
            items,
            vars,
            env,
            status,
            pid,
        ) + ae);
        assert(spec_extra_redirects(items.push(it), vars, env, status, pid, pwd)
            =~= spec_extra_redirects(items, vars, env, status, pid, pwd) + re);
        assert(spec_warnings(items.push(it)) =~= spec_warnings(items) + we);
    }
}


/// The table's in-place-or-append update is exactly `pairs_set`, since no
/// two entries share a name.
proof fn lemma_table_set_pairs(
    ps0: Seq<(Seq<char>, Seq<char>)>,
    had: bool,
    ps1: Seq<(Seq<char>, Seq<char>)>,
    k: Seq<char>,
    v: Seq<char>,
)
    requires
        forall|a: int, b: int|
            0 <= a < b < ps0.len() ==> (#[trigger] ps0[a]).0 != (#[trigger] ps0[b]).0,
        had ==> exists|i: int|
            0 <= i < ps0.len() && (#[trigger] ps0[i]).0 == k && ps1 == ps0.update(i, (k, v)),
        !had ==> ps1 == ps0.push((k, v)),
        had == exists|i: int| 0 <= i < ps0.len() && (#[trigger] ps0[i]).0 == k,
    ensures
        ps1 == pairs_set(ps0, k, v),
{
    if had {
        let i = choose|i: int|
            0 <= i < ps0.len() && (#[trigger] ps0[i]).0 == k && ps1 == ps0.update(i, (k, v));
        let j = choose|j: int| 0 <= j < ps0.len() && (#[trigger] ps0[j]).0 == k;
        if i != j {
            if i < j {
                assert(ps0[i].0 != ps0[j].0);
            } else {
                assert(ps0[j].0 != ps0[i].0);
            }
        }
        assert(ps1 == pairs_set(ps0, k, v));
    }
}

/// What decoding one simple command yields: the assignment overlay, the
/// argument words, the given redirections with the command's own appended,
/// and the notices its unhandled forms drew.
pub struct DecodedSimple {
    pub overlay: OverlayTable,
    pub args: Vec<String>,
    pub redirects: Vec<Redirect>,
    pub warnings: Vec<String>,
}

/// Decodes one simple command against the session: the overlay per
/// `spec_overlay`, the arguments per `spec_args`, the redirections extended
/// per `spec_extra_redirects`, and the notices per `spec_warnings`.
pub fn handle_simple_command_parts(sh: &Shell, cmd: &SimpleCommand, redirects: Vec<Redirect>) -> (r:
    DecodedSimple)
    requires
        sh.wf(),
    ensures
        r.overlay.wf(),
        r.overlay.as_map() == spec_overlay(
            cmd.redirects_or_env_vars@,
            sh.vmap(),
            sh.emap(),
            sh.last_exit_status as int,
            sh.pid,
        ),
        r.overlay.pairs() == spec_overlay_pairs(
            cmd.redirects_or_env_vars@,
            sh.vmap(),
            sh.emap(),
            sh.last_exit_status as int,
            sh.pid,
        ),
        r.args.deep_view() == spec_args(
            cmd.redirects_or_cmd_words@,
            sh.vmap(),
            sh.emap(),
            sh.last_exit_status as int,
            sh.pid,
        ),
        r.redirects.deep_view() == redirects.deep_view() + spec_extra_redirects(
            cmd.redirects_or_cmd_words@,
            sh.vmap(),
            sh.emap(),
            sh.last_exit_status as int,
            sh.pid,
            sh.pwd@,
        ),
        r.warnings.deep_view() == spec_warnings(cmd.redirects_or_cmd_words@),
{
    let ghost vars = sh.vmap();
    let ghost env = sh.emap();
    let ghost status = sh.last_exit_status as int;
    let ghost pid = sh.pid;
    let mut overlay = OverlayTable::new();
    let evs = &cmd.redirects_or_env_vars;
    let mut i: usize = 0;
    while i < evs.len()
        invariant
            sh.wf(),
            i <= evs@.len(),
            overlay.wf(),
            overlay.as_map() == spec_overlay(evs@.subrange(0, i as int), vars, env, status, pid),
            overlay.pairs() == spec_overlay_pairs(
                evs@.subrange(0, i as int),
                vars,
                env,
                status,
                pid,
            ),
            vars == sh.vmap(),
            env == sh.emap(),
            status == sh.last_exit_status as int,
            pid == sh.pid,
        decreases evs@.len() - i,
    {
        let ghost pre = evs@.subrange(0, i as int);
        let ghost ps0 = overlay.pairs();
        match &evs[i] {
            RedirectOrEnvVar::EnvVar(k, w) => {
                match w {
                    None => {
                        let ghost kk = k@;
                        let ghost was = overlay.has(kk);
                        overlay.set(k.as_str(), "");
                        proof {
                            assert(""@ =~= Seq::<char>::empty()) by {
                                reveal_strlit("");
                            }
                            lemma_table_set_pairs(ps0, was, overlay.pairs(), kk, Seq::empty());
                        }
                    },
                    Some(cw) => {
                        match handle_top_level_word(sh, cw) {
                            Some(v) => {
                                let ghost kk = k@;
                                let ghost was = overlay.has(kk);
                                let ghost vv = v@;
                                overlay.set(k.as_str(), v.as_str());
                                proof {
                                    lemma_table_set_pairs(ps0, was, overlay.pairs(), kk, vv);
                                }
                            },
                            None => {},
                        }
                    },
                }
            },
            RedirectOrEnvVar::Redirect(rd) => {},
        }
        i = i + 1;
        proof {
            let cur = evs@.subrange(0, i as int);
            assert(cur.drop_last() =~= pre);
            assert(cur.last() == evs@[i - 1]);
        }
    }
    proof {
        assert(evs@.subrange(0, evs@.len() as int) =~= evs@);
    }
    let items = &cmd.redirects_or_cmd_words;
    let mut args: Vec<String> = Vec::new();
    let mut reds = redirects;
    let ghost reds0 = reds.deep_view();
    let mut warnings: Vec<String> = Vec::new();
    let mut j: usize = 0;
    proof {
        assert(args.deep_view() =~= Seq::<Seq<char>>::empty());
        assert(warnings.deep_view() =~= Seq::<Seq<char>>::empty());
        assert(spec_args(items@.subrange(0, 0), vars, env, status, pid)
            =~= Seq::<Seq<char>>::empty());
        assert(spec_extra_redirects(items@.subrange(0, 0), vars, env, status, pid, sh.pwd@)
            =~= Seq::<RedirectV>::empty());
        assert(spec_warnings(items@.subrange(0, 0)) =~= Seq::<Seq<char>>::empty());
        assert(reds.deep_view() =~= reds0 + Seq::<RedirectV>::empty());
    }
    while j < items.len()
        invariant
            sh.wf(),
            j <= items@.len(),
            vars == sh.vmap(),
            env == sh.emap(),
            status == sh.last_exit_status as int,
            pid == sh.pid,
            args.deep_view() == spec_args(items@.subrange(0, j as int), vars, env, status, pid),
            reds.deep_view() == reds0 + spec_extra_redirects(
                items@.subrange(0, j as int),
                vars,
                env,
                status,
                pid,
                sh.pwd@,
            ),
            warnings.deep_view() == spec_warnings(items@.subrange(0, j as int)),
        decreases items@.len() - j,
    {
        let ghost pre = items@.subrange(0, j as int);
        let ghost args0 = args.deep_view();
        let ghost args0v = args@;
        let ghost redsp = reds.deep_view();
        let ghost redspv = reds@;
        let ghost warn0 = warnings.deep_view();
        let ghost warn0v = warnings@;
        match &items[j] {
            RedirectOrCmdWord::CmdWord(cw) => {
                match handle_top_level_word(sh, cw) {
                    Some(v) => {
                        args.push(v);
                        proof {
                            assert forall|k: int| 0 <= k < args@.len() implies args.deep_view()[k]
                                == args0.push(args@[args@.len() - 1]@)[k] by {
                                if k < args0v.len() {
                                    assert(args@[k] == args0v[k]);
                                }
                            }
                            assert(args.deep_view() =~= args0.push(args@[args@.len() - 1]@));
                        }
                    },
                    None => {},
                }
            },
            RedirectOrCmdWord::Redirect(rd) => {
                match rd {
                    RedirectNode::Other(d) => {
                        let mut msg = "Redirect not yet handled: ".to_owned();
                        msg.append(d.as_str());
                        warnings.push(msg);
                        proof {
                            assert forall|k: int|
                                0 <= k < warnings@.len() implies warnings.deep_view()[k]
                                == warn0.push(warnings@[warnings@.len() - 1]@)[k] by {
                                if k < warn0v.len() {
                                    assert(warnings@[k] == warn0v[k]);
                                }
                            }
                            assert(warnings.deep_view() =~= warn0.push(
                                warnings@[warnings@.len() - 1]@,
                            ));
                        }
                    },
                    _ => {
                        match handle_redirect_type(sh, rd) {
                            Some(rr) => {
                                reds.push(rr);
                                proof {
                                    assert forall|k: int|
                                        0 <= k < reds@.len() implies reds.deep_view()[k]
                                        == redsp.push(reds@[reds@.len() - 1]@)[k] by {
                                        if k < redspv.len() {
                                            assert(reds@[k] == redspv[k]);
                                        }
                                    }
                                    assert(reds.deep_view() =~= redsp.push(
                                        reds@[reds@.len() - 1]@,
                                    ));
                                }
                            },
                            None => {},
                        }
                    },
                }
            },
        }
        j = j + 1;
        proof {
            let cur = items@.subrange(0, j as int);
            lemma_args_snoc(pre, items@[j - 1], vars, env, status, pid, sh.pwd@);
            assert(pre.push(items@[j - 1]) =~= cur);
            assert(args.deep_view() =~= spec_args(cur, vars, env, status, pid));
            assert(reds.deep_view() =~= reds0 + spec_extra_redirects(
                cur,
                vars,
                env,
                status,
                pid,
                sh.pwd@,
            ));
            assert(warnings.deep_view() =~= spec_warnings(cur));
        }
    }
    proof {
        assert(items@.subrange(0, items@.len() as int) =~= items@);
    }
    DecodedSimple { overlay, args, redirects: reds, warnings }
}

/// One bare assignment applied to the session: a name the environment holds
/// is updated there, with the bridge told; any other name becomes a
/// shell-local variable.
pub open spec fn assign_step(o: EnvOutcome, k: Seq<char>, v: Seq<char>) -> EnvOutcome {
    if o.env.dom().contains(k) {
        EnvOutcome {
            env: o.env.insert(k, v),
            notes: o.notes.push(EffectV::NotifyEnv(k, Some(v))),
            ..o
        }
    } else {
        EnvOutcome { vars: o.vars.insert(k, v), ..o }
    }
}

/// Bare assignments applied in order.
pub open spec fn assign_fold(ps: Seq<(Seq<char>, Seq<char>)>, o: EnvOutcome) -> EnvOutcome
    decreases ps.len(),
{
    if ps.len() == 0 {
        o
    } else {
        assign_fold(ps.drop_first(), assign_step(o, ps[0].0, ps[0].1))
    }
}

impl Shell {
    /// Applies a simple command with no command word: each assignment of the
    /// overlay, in table order, per `assign_fold`. Returns what the bridge
    /// is told.
    pub fn apply_assignments(&mut self, overlay: &OverlayTable) -> (notes: Vec<Effect>)
        requires
            old(self).wf(),
            overlay.wf(),
        ensures
            final(self).wf(),
            ({
                let o = assign_fold(
                    overlay.pairs(),
                    EnvOutcome {
                        vars: old(self).vmap(),
                        env: old(self).emap(),
                        out: Seq::empty(),
                        notes: Seq::empty(),
                    },
                );
                &&& final(self).vmap() == o.vars
                &&& final(self).emap() == o.env
                &&& notes.deep_view() == o.notes
            }),
            final(self).pwd == old(self).pwd,
            final(self).pid == old(self).pid,
            final(self).history == old(self).history,
            final(self).should_echo == old(self).should_echo,
            final(self).last_exit_status == old(self).last_exit_status,
    {
        let ghost ps = overlay.pairs();
        let ghost init = EnvOutcome {
            vars: self.vmap(),
            env: self.emap(),
            out: Seq::empty(),
            notes: Seq::empty(),
        };
        let mut notes: Vec<Effect> = Vec::new();
        let n = overlay.len();
        let mut i: usize = 0;
        proof {
            assert(notes.deep_view() =~= Seq::<EffectV>::empty());
            assert(ps.skip(0) =~= ps);
        }
        while i < n
            invariant
                old(self).wf(),
                self.wf(),
                overlay.wf(),
                ps == overlay.pairs(),
                n == ps.len(),
                i <= n,
                self.pwd == old(self).pwd,
                self.pid == old(self).pid,
                self.history == old(self).history,
                self.should_echo == old(self).should_echo,
                self.last_exit_status == old(self).last_exit_status,
                init == (EnvOutcome {
                    vars: old(self).vmap(),
                    env: old(self).emap(),
                    out: Seq::empty(),
                    notes: Seq::empty(),
                }),
                assign_fold(ps, init) == assign_fold(
                    ps.skip(i as int),
                    (EnvOutcome {
                        vars: self.vmap(),
                        env: self.emap(),
                        out: Seq::empty(),
                        notes: notes.deep_view(),
                    }),
                ),
            decreases n - i,
        {
            let ghost cur = EnvOutcome {
                vars: self.vmap(),
                env: self.emap(),
                out: Seq::empty(),
                notes: notes.deep_view(),
            };
            let ghost notes0 = notes.deep_view();
            let ghost notes0v = notes@;
            let e = overlay.entry_at(i);
            if self.env.contains(e.0.as_str()) {
                self.env.set(e.0.as_str(), e.1.as_str());
                notes.push(Effect::NotifyEnv((e.0.clone(), Some(e.1.clone()))));
                proof {
                    assert forall|k: int| 0 <= k < notes@.len() implies notes.deep_view()[k]
                        == notes0.push(EffectV::NotifyEnv(e.0@, Some(e.1@)))[k] by {
                        if k < notes0v.len() {
                            assert(notes@[k] == notes0v[k]);
                        }
                    }
                    assert(notes.deep_view() =~= notes0.push(
                        EffectV::NotifyEnv(e.0@, Some(e.1@)),
                    ));
                }
            } else {
                self.vars.set(e.0.as_str(), e.1.as_str());
            }
            i = i + 1;
            proof {
                let now = EnvOutcome {
                    vars: self.vmap(),
                    env: self.emap(),
                    out: Seq::empty(),
                    notes: notes.deep_view(),
                };
                assert(e.0@ == ps[i - 1].0 && e.1@ == ps[i - 1].1);
                assert(now =~= assign_step(cur, ps[i - 1].0, ps[i - 1].1));
                assert(now == assign_step(cur, ps[i - 1].0, ps[i - 1].1));
                assert(ps.skip(i - 1).drop_first() =~= ps.skip(i as int));
                assert(ps.skip(i - 1)[0] == ps[i - 1]);
                assert(assign_fold(ps.skip(i - 1), cur) == assign_fold(ps.skip(i as int), now));
            }
        }
        proof {
            assert(ps.skip(ps.len() as int) =~= Seq::<(Seq<char>, Seq<char>)>::empty());
        }
        notes
    }
}

/// The path of pipeline channel `i`: the file that carries stage `i`'s
/// output to stage `i + 1`.
pub open spec fn spec_channel_path(i: int) -> Seq<char> {
    "/proc/pipe"@ + spec_dec(i as nat) + ".txt"@
}

/// The redirections wiring stage `pos` of an `n`-stage pipeline: the first
/// stage writes channel `0`, an inner stage reads the channel before it and
/// writes its own, and the last stage reads the channel before it. A
/// one-stage pipeline needs no channel.
pub open spec fn spec_pipe_redirects(pos: int, n: int) -> Seq<RedirectV> {
    if n <= 1 {
        Seq::empty()
    } else if pos == 0 {
        seq![RedirectV::Write(crate::STDOUT, spec_channel_path(0))]
    } else if pos < n - 1 {
        seq![
            RedirectV::Read(crate::STDIN, spec_channel_path(pos - 1)),
            RedirectV::Write(crate::STDOUT, spec_channel_path(pos)),
        ]
    } else {
        seq![RedirectV::Read(crate::STDIN, spec_channel_path(pos - 1))]
    }
}

fn channel_path(i: usize) -> (r: String)
    ensures
        r@ == spec_channel_path(i as int),
{
    let mut r = "/proc/pipe".to_owned();
    let num = u64_to_string(i as u64);
    r.append(num.as_str());
    r.append(".txt");
    r
}

/// Builds the redirections wiring one pipeline stage, exactly as
/// `spec_pipe_redirects` lays them out.
pub fn pipe_stage_redirects(pos: usize, n: usize) -> (r: Vec<Redirect>)
    requires
        pos < n,
    ensures
        r.deep_view() == spec_pipe_redirects(pos as int, n as int),
{
    let mut r: Vec<Redirect> = Vec::new();
    if n <= 1 {
        proof {
            assert(r.deep_view() =~= spec_pipe_redirects(pos as int, n as int));
        }
        r
    } else if pos == 0 {
        r.push(Redirect::Write((crate::STDOUT, channel_path(0))));
        proof {
            assert(r.deep_view() =~= spec_pipe_redirects(pos as int, n as int));
        }
        r
    } else if pos < n - 1 {
        r.push(Redirect::Read((crate::STDIN, channel_path(pos - 1))));
        r.push(Redirect::Write((crate::STDOUT, channel_path(pos))));
        proof {
            assert(r.deep_view() =~= spec_pipe_redirects(pos as int, n as int));
        }
        r
    } else {
        r.push(Redirect::Read((crate::STDIN, channel_path(pos - 1))));
        proof {
            assert(r.deep_view() =~= spec_pipe_redirects(pos as int, n as int));
        }
        r
    }
}

/// The cleanup of an `n`-stage pipeline: every channel file removed, in
/// order.
pub fn pipe_cleanup_effects(n: usize) -> (r: Vec<Effect>)
    requires
        n >= 1,
    ensures
        r.deep_view() == Seq::new((n - 1) as nat, |i: int| EffectV::RemoveFile(spec_channel_path(i))),
{
    let mut r: Vec<Effect> = Vec::new();
    let mut i: usize = 0;
    while i < n - 1
        invariant
            n >= 1,
            i <= n - 1,
            r@.len() == i,
            forall|k: int|
                0 <= k < i ==> (#[trigger] r@[k])@ == EffectV::RemoveFile(spec_channel_path(k)),
        decreases n - 1 - i,
    {
        r.push(Effect::RemoveFile(channel_path(i)));
        i = i + 1;
    }
    proof {
        assert forall|k: int| 0 <= k < r@.len() implies r.deep_view()[k] == Seq::new(
            (n - 1) as nat,
            |j: int| EffectV::RemoveFile(spec_channel_path(j)),
        )[k] by {
            assert(r@[k]@ == EffectV::RemoveFile(spec_channel_path(k)));
        }
        assert(r.deep_view() =~= Seq::new(
            (n - 1) as nat,
            |j: int| EffectV::RemoveFile(spec_channel_path(j)),
        ));
    }
    r
}

/// In an `n`-stage pipeline, each inner stage reads exactly the channel the
/// stage before it writes, and every channel any stage touches is among the
/// files the pipeline removes when it is done.
pub proof fn lemma_pipeline_chain(i: int, n: int)
    requires
        2 <= n,
        1 <= i < n,
    ensures
        spec_pipe_redirects(i, n)[0] == RedirectV::Read(crate::STDIN, spec_channel_path(i - 1)),
        spec_pipe_redirects(i - 1, n).last() == RedirectV::Write(
            crate::STDOUT,
            spec_channel_path(i - 1),
        ),
        forall|k: int|
            0 <= k < spec_pipe_redirects(i, n).len() ==> exists|j: int|
                0 <= j < n - 1 && redirect_path(#[trigger] spec_pipe_redirects(i, n)[k])
                    == spec_channel_path(j),
{
    assert forall|k: int| 0 <= k < spec_pipe_redirects(i, n).len() implies exists|j: int|
        0 <= j < n - 1 && redirect_path(#[trigger] spec_pipe_redirects(i, n)[k])
            == spec_channel_path(j) by {
        if k == 0 {
            assert(redirect_path(spec_pipe_redirects(i, n)[0]) == spec_channel_path(i - 1));
            assert(0 <= i - 1 < n - 1);
        } else {
            assert(i < n - 1);
            assert(redirect_path(spec_pipe_redirects(i, n)[1]) == spec_channel_path(i));
        }
    }
}

/// A two-stage pipeline's wiring, written out: the first stage writes
/// channel `0` and nothing else; the second reads channel `0` and nothing
/// else. A byte-counting second stage therefore sees exactly the first
/// stage's output.
pub proof fn lemma_two_stage_wiring()
    ensures
        spec_pipe_redirects(0, 2) == seq![
            RedirectV::Write(crate::STDOUT, spec_channel_path(0)),
        ],
        spec_pipe_redirects(1, 2) == seq![RedirectV::Read(crate::STDIN, spec_channel_path(0))],
{
    assert(spec_pipe_redirects(0, 2) =~= seq![
        RedirectV::Write(crate::STDOUT, spec_channel_path(0)),
    ]);
    assert(spec_pipe_redirects(1, 2) =~= seq![RedirectV::Read(crate::STDIN, spec_channel_path(0))]);
}

/// The path a redirection touches.
pub open spec fn redirect_path(r: RedirectV) -> Seq<char> {
    match r {
        RedirectV::Read(fd, p) => p,
        RedirectV::Write(fd, p) => p,
        RedirectV::Append(fd, p) => p,
    }
}

/// The chain link's pipeline.
pub open spec fn andor_cmd(a: AndOr) -> ListableCommand {
    match a {
        AndOr::And(c) => c,
        AndOr::Or(c) => c,
    }
}

/// How much interpreting work one top-level node holds.
pub open spec fn size_top(t: TopLevelCommand) -> nat
    decreases t,
{
    match t.0 {
        Command::Job(l) => 1 + size_andor_list(l),
        Command::List(l) => 1 + size_andor_list(l),
    }
}

/// How much interpreting work one chain holds.
pub open spec fn size_andor_list(l: AndOrList) -> nat
    decreases l,
{
    2 + size_listable(l.first) + sum_andor_from(l.rest@, 0)
}

/// The work of the chain links from `i` on.
pub open spec fn sum_andor_from(s: Seq<AndOr>, i: int) -> nat
    decreases s, s.len() - i,
{
    if i < 0 || i >= s.len() {
        0
    } else {
        1 + size_listable(andor_cmd(s[i])) + sum_andor_from(s, i + 1)
    }
}

/// How much interpreting work one pipeline holds.
pub open spec fn size_listable(c: ListableCommand) -> nat
    decreases c,
{
    match c {
        ListableCommand::Single(p) => 1 + size_pipeable(p),
        ListableCommand::Pipe(neg, cmds) => 2 + sum_pipe_from(cmds@, 0),
    }
}

/// The work of the pipeline stages from `i` on.
pub open spec fn sum_pipe_from(s: Seq<PipeableCommand>, i: int) -> nat
    decreases s, s.len() - i,
{
    if i < 0 || i >= s.len() {
        0
    } else {
        1 + size_pipeable(s[i]) + sum_pipe_from(s, i + 1)
    }
}

/// How much interpreting work one stage holds.
pub open spec fn size_pipeable(p: PipeableCommand) -> nat
    decreases p,
{
    match p {
        PipeableCommand::Simple(sc) => 1,
        PipeableCommand::FunctionDef(n) => 1,
        PipeableCommand::Compound(cc) => match cc {
            CompoundCommand::Subshell(cmds) => 2 + sum_top_from(cmds@, 0),
            CompoundCommand::Other(d) => 1,
        },
    }
}

/// The work of the subshell's inner nodes from `i` on.
pub open spec fn sum_top_from(s: Seq<TopLevelCommand>, i: int) -> nat
    decreases s, s.len() - i,
{
    if i < 0 || i >= s.len() {
        0
    } else {
        1 + size_top(s[i]) + sum_top_from(s, i + 1)
    }
}

/// One suspended level of the tree walk: what remains of a chain, of a
/// pipeline, or of a subshell once the stage now running returns.
pub enum Frame {
    AndOrRest { rest: Vec<AndOr>, background: bool },
    PipeRest {
        rest: Vec<PipeableCommand>,
        pos: usize,
        total: usize,
        negate: bool,
        background: bool,
    },
    SubshellRest { rest: Vec<TopLevelCommand> },
}

/// The value of one suspended level.
pub enum FrameV {
    AndOrRest(Seq<AndOr>, bool),
    PipeRest(Seq<PipeableCommand>, int, int, bool, bool),
    SubshellRest(Seq<TopLevelCommand>),
}

impl View for Frame {
    type V = FrameV;

    open spec fn view(&self) -> FrameV {
        match self {
            Frame::AndOrRest { rest, background } => FrameV::AndOrRest(rest@, *background),
            Frame::PipeRest { rest, pos, total, negate, background } => FrameV::PipeRest(
                rest@,
                *pos as int,
                *total as int,
                *negate,
                *background,
            ),
            Frame::SubshellRest { rest } => FrameV::SubshellRest(rest@),
        }
    }
}

impl DeepView for Frame {
    type V = FrameV;

    open spec fn deep_view(&self) -> FrameV {
        self.view()
    }
}

/// Where the interpretation of one top-level node stands: a question for
/// the host with the walk suspended around it, one finished stage with its
/// status and the levels still above it (the host hands those to `advance`
/// after carrying out the effects), the finished node's status, or an
/// immediate end of the process.
pub enum Step {
    Need(Vec<Effect>, Query, Cont),
    Continue(Vec<Effect>, i32, Vec<Frame>),
    Done(i32),
    Exit(i32),
}

/// A suspended interpretation: the suspended command and the tree levels
/// above it.
pub struct Cont {
    pub pending: ExecCont,
    pub stack: Vec<Frame>,
}

fn append_effects(a: &mut Vec<Effect>, b: Vec<Effect>)
    ensures
        final(a).deep_view() == old(a).deep_view() + b.deep_view(),
{
    let ghost p1 = a.deep_view();
    let ghost v1 = a@;
    let ghost p2 = b.deep_view();
    let ghost v2 = b@;
    let mut b2 = b;
    a.append(&mut b2);
    proof {
        assert(a@ == v1 + v2);
        assert forall|k: int| 0 <= k < a@.len() implies a.deep_view()[k] == (p1 + p2)[k] by {
            if k < v1.len() {
                assert(a@[k] == v1[k]);
            } else {
                assert(a@[k] == v2[k - v1.len()]);
            }
        }
        assert(a.deep_view() =~= p1 + p2);
    }
}

/// The terminal-error effects that a list of notices becomes.
pub open spec fn warn_effects(warns: Seq<Seq<char>>) -> Seq<EffectV> {
    warns.map_values(|w: Seq<char>| EffectV::TermErr(w + seq!['\n']))
}

/// The walk's step wraps one command's step: the same question with the
/// walk suspended around it, the same finished status handed back with the
/// levels above it, or the same immediate end — with the effects so far in
/// front.
pub open spec fn wrap_step(
    r: Step,
    pre_effects: Seq<EffectV>,
    stackv: Seq<FrameV>,
    es: ExecStep,
) -> bool {
    match es {
        ExecStep::Need(e2, q, ec) => r matches Step::Need(e, q2, c) && q2 == q && c.pending == ec
            && c.stack.deep_view() == stackv && e.deep_view() == pre_effects + e2.deep_view(),
        ExecStep::Done(e2, st) => r matches Step::Continue(e, st2, s2) && st2 == st
            && s2.deep_view() == stackv && e.deep_view() == pre_effects + e2.deep_view(),
        ExecStep::Exit(c2) => r matches Step::Exit(c3) && c3 == c2,
    }
}

/// Starting one top-level node with the walk suspended at `stackv`: a job's
/// chain runs in the background, a list's in the foreground.
pub open spec fn starts_top(
    pre: Shell,
    post: Shell,
    t: TopLevelCommand,
    stackv: Seq<FrameV>,
    r: Step,
) -> bool
    decreases size_top(t),
{
    match t.0 {
        Command::Job(l) => starts_chain(pre, post, l, true, stackv, r),
        Command::List(l) => starts_chain(pre, post, l, false, stackv, r),
    }
}

/// Starting a chain: its first pipeline runs now; the rest waits on a
/// chain level above it, to be picked over by the short-circuit rule as
/// statuses come in.
pub open spec fn starts_chain(
    pre: Shell,
    post: Shell,
    l: AndOrList,
    background: bool,
    stackv: Seq<FrameV>,
    r: Step,
) -> bool
    decreases size_andor_list(l),
{
    starts_listable(
        pre,
        post,
        l.first,
        background,
        stackv.push(FrameV::AndOrRest(l.rest@, background)),
        r,
    )
}

/// Starting a pipeline or a single stage: a single stage runs with no
/// wiring; a pipeline's first stage writes channel `0` and the rest waits
/// on a pipeline level above it; an empty pipeline is a failed stage.
pub open spec fn starts_listable(
    pre: Shell,
    post: Shell,
    c: ListableCommand,
    background: bool,
    stackv: Seq<FrameV>,
    r: Step,
) -> bool
    decreases size_listable(c),
{
    match c {
        ListableCommand::Single(p) => starts_pipeable(
            pre,
            post,
            p,
            background,
            Seq::empty(),
            stackv,
            r,
        ),
        ListableCommand::Pipe(negate, cmds) => if cmds@.len() == 0 {
            &&& post == pre
            &&& r matches Step::Continue(e, st, s2) && st == crate::EXIT_FAILURE && e.deep_view()
                == Seq::<EffectV>::empty() && s2.deep_view() == stackv
        } else {
            starts_pipeable(
                pre,
                post,
                cmds@[0],
                background,
                spec_pipe_redirects(0, cmds@.len() as int),
                stackv.push(
                    FrameV::PipeRest(
                        cmds@.drop_first(),
                        1,
                        cmds@.len() as int,
                        negate,
                        background,
                    ),
                ),
                r,
            )
        },
    }
}

/// Starting one stage with redirections `reds` and the walk suspended at
/// `stackv`. A simple command with a command word is dispatched per
/// `exec_post` and its step wrapped per `wrap_step`, with its notices in
/// front; one with only assignments applies them per `assign_fold` and the
/// stage succeeds. A subshell runs its nodes in order against the same
/// session, an empty one succeeding at once. An unhandled compound form or
/// a function definition is reported and the stage fails.
pub open spec fn starts_pipeable(
    pre: Shell,
    post: Shell,
    p: PipeableCommand,
    background: bool,
    reds: Seq<RedirectV>,
    stackv: Seq<FrameV>,
    r: Step,
) -> bool
    decreases size_pipeable(p),
{
    match p {
        PipeableCommand::Simple(sc) => {
            let vars = pre.vmap();
            let env = pre.emap();
            let st0 = pre.last_exit_status as int;
            let args = spec_args(sc.redirects_or_cmd_words@, vars, env, st0, pre.pid);
            let warns = warn_effects(spec_warnings(sc.redirects_or_cmd_words@));
            if args.len() > 0 {
                exists|es: ExecStep|
                    {
                        &&& #[trigger] exec_post(
                            pre,
                            post,
                            args[0],
                            args.drop_first(),
                            spec_overlay_pairs(sc.redirects_or_env_vars@, vars, env, st0, pre.pid),
                            background,
                            reds + spec_extra_redirects(
                                sc.redirects_or_cmd_words@,
                                vars,
                                env,
                                st0,
                                pre.pid,
                                pre.pwd@,
                            ),
                            es,
                        )
                        &&& wrap_step(r, warns, stackv, es)
                    }
            } else {
                let o = assign_fold(
                    spec_overlay_pairs(sc.redirects_or_env_vars@, vars, env, st0, pre.pid),
                    EnvOutcome { vars, env, out: Seq::empty(), notes: Seq::empty() },
                );
                &&& post.vmap() == o.vars
                &&& post.emap() == o.env
                &&& post.wf()
                &&& post.pwd == pre.pwd
                &&& post.pid == pre.pid
                &&& post.history == pre.history
                &&& post.should_echo == pre.should_echo
                &&& post.last_exit_status == pre.last_exit_status
                &&& r matches Step::Continue(e, st, s2) && st == crate::EXIT_SUCCESS
                    && s2.deep_view() == stackv && e.deep_view() == warns + o.notes
            }
        },
        PipeableCommand::Compound(cc) => match cc {
            CompoundCommand::Subshell(cmds) => if cmds@.len() == 0 {
                &&& post == pre
                &&& r matches Step::Continue(e, st, s2) && st == crate::EXIT_SUCCESS
                    && e.deep_view() == Seq::<EffectV>::empty() && s2.deep_view() == stackv
            } else {
                starts_top(
                    pre,
                    post,
                    cmds@[0],
                    stackv.push(FrameV::SubshellRest(cmds@.drop_first())),
                    r,
                )
            },
            CompoundCommand::Other(d) => {
                &&& post == pre
                &&& r matches Step::Continue(e, st, s2) && st == crate::EXIT_FAILURE
                    && s2.deep_view() == stackv && e.deep_view() == seq![
                    EffectV::TermErr("CompoundCommandKind not yet handled: "@ + d@ + seq!['\n']),
                ]
            },
        },
        PipeableCommand::FunctionDef(name) => {
            &&& post == pre
            &&& r matches Step::Continue(e, st, s2) && st == crate::EXIT_FAILURE && s2.deep_view()
                == stackv && e.deep_view() == seq![
                EffectV::TermErr("FunctionDef not yet handled (but it would be cool)\n"@),
            ]
        },
    }
}

/// Whether the short-circuit rule lets this chain link run after `status`:
/// an `&&` link after success, an `||` link after failure.
pub open spec fn runnable_after(a: AndOr, status: i32) -> bool {
    match a {
        AndOr::And(c) => status == crate::EXIT_SUCCESS,
        AndOr::Or(c) => status != crate::EXIT_SUCCESS,
    }
}

/// The first chain link the short-circuit rule lets run after `status`, if
/// any.
pub open spec fn first_runnable(rest: Seq<AndOr>, status: i32) -> Option<int>
    decreases rest.len(),
{
    if rest.len() == 0 {
        None
    } else if runnable_after(rest[0], status) {
        Some(0)
    } else {
        match first_runnable(rest.drop_first(), status) {
            Some(j) => Some(j + 1),
            None => None,
        }
    }
}

proof fn lemma_first_runnable_at(rest: Seq<AndOr>, status: i32, k: int)
    requires
        0 <= k < rest.len(),
        runnable_after(rest[k], status),
        forall|j: int| 0 <= j < k ==> !runnable_after(#[trigger] rest[j], status),
    ensures
        first_runnable(rest, status) == Some(k),
    decreases k,
{
    if k > 0 {
        assert(!runnable_after(rest[0], status));
        assert(rest.drop_first()[k - 1] == rest[k]);
        assert forall|j: int| 0 <= j < k - 1 implies !runnable_after(
            #[trigger] rest.drop_first()[j],
            status,
        ) by {
            assert(rest.drop_first()[j] == rest[j + 1]);
        }
        lemma_first_runnable_at(rest.drop_first(), status, k - 1);
    }
}

proof fn lemma_first_runnable_none(rest: Seq<AndOr>, status: i32)
    requires
        forall|j: int| 0 <= j < rest.len() ==> !runnable_after(#[trigger] rest[j], status),
    ensures
        first_runnable(rest, status) is None,
    decreases rest.len(),
{
    if rest.len() > 0 {
        assert(!runnable_after(rest[0], status));
        assert forall|j: int| 0 <= j < rest.drop_first().len() implies !runnable_after(
            #[trigger] rest.drop_first()[j],
            status,
        ) by {
            assert(rest.drop_first()[j] == rest[j + 1]);
        }
        lemma_first_runnable_none(rest.drop_first(), status);
    }
}

fn skip_unrunnable(rest: Vec<AndOr>, status: i32) -> (r: Vec<AndOr>)
    ensures
        exists|k: int|
            0 <= k <= rest@.len() && r@ == rest@.skip(k) && forall|j: int|
                0 <= j < k ==> !runnable_after(#[trigger] rest@[j], status),
        r@.len() > 0 ==> runnable_after(r@[0], status),
{
    let ghost orig = rest@;
    let mut r = rest;
    let total_len = r.len();
    let mut dropped: usize = 0;
    loop
        invariant
            orig.len() == total_len,
            dropped <= orig.len(),
            r@ == orig.skip(dropped as int),
            forall|j: int| 0 <= j < dropped ==> !runnable_after(#[trigger] orig[j], status),
            r@.len() == orig.len() - dropped,
        ensures
            r@.len() > 0 ==> runnable_after(r@[0], status),
        decreases r@.len(),
    {
        if r.len() == 0 {
            break ;
        }
        let runs = match &r[0] {
            AndOr::And(c) => status == crate::EXIT_SUCCESS,
            AndOr::Or(c) => status != crate::EXIT_SUCCESS,
        };
        if runs {
            break ;
        }
        let ghost rpre = r@;
        proof {
            assert(rpre.len() > 0);
            assert(dropped < orig.len());
        }
        let item = r.remove(0);
        dropped = dropped + 1;
        proof {
            assert(r@ =~= rpre.drop_first());
            assert(r@ =~= orig.skip(dropped as int));
            assert(!runnable_after(orig[dropped - 1], status));
        }
    }
    proof {
        let k = dropped as int;
        assert(0 <= k <= orig.len() && r@ == orig.skip(k) && forall|j: int|
            0 <= j < k ==> !runnable_after(#[trigger] orig[j], status));
    }
    r
}

/// What handing a finished stage's status to the topmost suspended level
/// does: with nothing suspended the node is done with that status. A chain
/// level runs its first link the short-circuit rule admits, the skipped
/// prefix's status carried, or hands the status on unchanged when no link
/// may run. A pipeline level wires and runs its next stage with
/// `spec_pipe_redirects`, or — once its last stage has returned, whatever
/// the status — removes every channel and hands on the status, inverted
/// when the pipeline was negated. A subshell level runs its next node, or
/// hands on its last node's status.
pub open spec fn advance_post(
    pre: Shell,
    post: Shell,
    stackv: Seq<FrameV>,
    status: i32,
    r: Step,
) -> bool {
    if stackv.len() == 0 {
        &&& post == pre
        &&& r matches Step::Done(st) && st == status
    } else {
        let below = stackv.drop_last();
        match stackv.last() {
            FrameV::AndOrRest(rest, background) => match first_runnable(rest, status) {
                None => {
                    &&& post == pre
                    &&& r matches Step::Continue(e, st, s2) && st == status && e.deep_view()
                        == Seq::<EffectV>::empty() && s2.deep_view() == below
                },
                Some(k) => starts_listable(
                    pre,
                    post,
                    andor_cmd(rest[k]),
                    background,
                    below.push(FrameV::AndOrRest(rest.skip(k + 1), background)),
                    r,
                ),
            },
            FrameV::PipeRest(rest, pos, total, negate, background) => if rest.len() == 0 {
                let status2: i32 = if negate {
                    if status != crate::EXIT_SUCCESS {
                        crate::EXIT_SUCCESS
                    } else {
                        crate::EXIT_FAILURE
                    }
                } else {
                    status
                };
                &&& post == pre
                &&& r matches Step::Continue(e, st, s2) && st == status2 && s2.deep_view()
                    == below && e.deep_view() == (if total >= 1 {
                    Seq::new(
                        (total - 1) as nat,
                        |i: int| EffectV::RemoveFile(spec_channel_path(i)),
                    )
                } else {
                    Seq::<EffectV>::empty()
                })
            } else {
                starts_pipeable(
                    pre,
                    post,
                    rest[0],
                    background,
                    if 0 <= pos < total {
                        spec_pipe_redirects(pos, total)
                    } else {
                        Seq::empty()
                    },
                    below.push(
                        FrameV::PipeRest(
                            rest.drop_first(),
                            if pos < total {
                                pos + 1
                            } else {
                                pos
                            },
                            total,
                            negate,
                            background,
                        ),
                    ),
                    r,
                )
            },
            FrameV::SubshellRest(rest) => if rest.len() == 0 {
                &&& post == pre
                &&& r matches Step::Continue(e, st, s2) && st == status && e.deep_view()
                    == Seq::<EffectV>::empty() && s2.deep_view() == below
            } else {
                starts_top(
                    pre,
                    post,
                    rest[0],
                    below.push(FrameV::SubshellRest(rest.drop_first())),
                    r,
                )
            },
        }
    }
}

/// Starts one top-level node, exactly as `starts_top` lays it out.
fn start_top(sh: &mut Shell, t: TopLevelCommand, stack: Vec<Frame>) -> (r: Step)
    requires
        old(sh).wf(),
    ensures
        final(sh).wf(),
        starts_top(*old(sh), *final(sh), t, stack.deep_view(), r),
    decreases size_top(t),
{
    match t.0 {
        Command::Job(l) => start_andor(sh, l, true, stack),
        Command::List(l) => start_andor(sh, l, false, stack),
    }
}

/// Starts a chain, exactly as `starts_chain` lays it out.
fn start_andor(sh: &mut Shell, l: AndOrList, background: bool, stack: Vec<Frame>) -> (r: Step)
    requires
        old(sh).wf(),
    ensures
        final(sh).wf(),
        starts_chain(*old(sh), *final(sh), l, background, stack.deep_view(), r),
    decreases size_andor_list(l),
{
    let ghost stackv = stack.deep_view();
    let AndOrList { first, rest } = l;
    let ghost restv = rest@;
    let mut stack2 = stack;
    let ghost s0v = stack2@;
    let f = Frame::AndOrRest { rest, background };
    let ghost fv = f@;
    stack2.push(f);
    proof {
        assert forall|k: int| 0 <= k < stack2@.len() implies stack2.deep_view()[k]
            == stackv.push(fv)[k] by {
            if k < s0v.len() {
                assert(stack2@[k] == s0v[k]);
            }
        }
        assert(stack2.deep_view() =~= stackv.push(fv));
        assert(fv == FrameV::AndOrRest(restv, background));
    }
    start_listable(sh, first, background, stack2)
}

/// Starts a pipeline or a single stage, exactly as `starts_listable` lays
/// it out.
fn start_listable(sh: &mut Shell, c: ListableCommand, background: bool, stack: Vec<Frame>) -> (r:
    Step)
    requires
        old(sh).wf(),
    ensures
        final(sh).wf(),
        starts_listable(*old(sh), *final(sh), c, background, stack.deep_view(), r),
    decreases size_listable(c),
{
    let ghost stackv = stack.deep_view();
    match c {
        ListableCommand::Single(p) => {
            let none_reds: Vec<Redirect> = Vec::new();
            proof {
                assert(none_reds.deep_view() =~= Seq::<RedirectV>::empty());
            }
            start_pipeable(sh, p, background, none_reds, stack)
        },
        ListableCommand::Pipe(negate, cmds) => {
            let total = cmds.len();
            if total == 0 {
                let none_eff: Vec<Effect> = Vec::new();
                proof {
                    assert(none_eff.deep_view() =~= Seq::<EffectV>::empty());
                }
                Step::Continue(none_eff, crate::EXIT_FAILURE, stack)
            } else {
                let mut rest = cmds;
                let ghost cs = rest@;
                let first = rest.remove(0);
                proof {
                    assert(rest@ =~= cs.drop_first());
                    assert(sum_pipe_from(cs, 0) == 1 + size_pipeable(cs[0]) + sum_pipe_from(cs, 1));
                }
                let reds = pipe_stage_redirects(0, total);
                let mut stack2 = stack;
                let ghost s0v = stack2@;
                let f = Frame::PipeRest { rest, pos: 1, total, negate, background };
                let ghost fv = f@;
                stack2.push(f);
                proof {
                    assert forall|k: int| 0 <= k < stack2@.len() implies stack2.deep_view()[k]
                        == stackv.push(fv)[k] by {
                        if k < s0v.len() {
                            assert(stack2@[k] == s0v[k]);
                        }
                    }
                    assert(stack2.deep_view() =~= stackv.push(fv));
                    assert(fv == FrameV::PipeRest(cs.drop_first(), 1, cs.len() as int, negate, background));
                }
                let r = start_pipeable(sh, first, background, reds, stack2);
                r
            }
        },
    }
}

/// Starts one stage, exactly as `starts_pipeable` lays it out.
fn start_pipeable(
    sh: &mut Shell,
    p: PipeableCommand,
    background: bool,
    redirects: Vec<Redirect>,
    stack: Vec<Frame>,
) -> (r: Step)
    requires
        old(sh).wf(),
    ensures
        final(sh).wf(),
        starts_pipeable(
            *old(sh),
            *final(sh),
            p,
            background,
            redirects.deep_view(),
            stack.deep_view(),
            r,
        ),
    decreases size_pipeable(p),
{
    let ghost stackv = stack.deep_view();
    let ghost redsv = redirects.deep_view();
    match p {
        PipeableCommand::Simple(sc) => {
            let ghost pre_sh = *sh;
            let ghost warnsv = spec_warnings(sc.redirects_or_cmd_words@);
            let decoded = handle_simple_command_parts(&*sh, &sc, redirects);
            let mut effects2: Vec<Effect> = Vec::new();
            proof {
                assert(effects2.deep_view() =~= Seq::<EffectV>::empty());
                assert(warnsv.take(0) =~= Seq::<Seq<char>>::empty());
                assert(warn_effects(warnsv.take(0)) =~= Seq::<EffectV>::empty());
                assert(effects2.deep_view() =~= warn_effects(warnsv.take(0)));
            }
            let mut wi: usize = 0;
            while wi < decoded.warnings.len()
                invariant
                    wi <= decoded.warnings@.len(),
                    sh.wf(),
                    decoded.warnings.deep_view() == warnsv,
                    effects2.deep_view() == warn_effects(warnsv.take(wi as int)),
                decreases decoded.warnings@.len() - wi,
            {
                let ghost e0 = effects2.deep_view();
                let ghost e0v = effects2@;
                let mut msg = decoded.warnings[wi].clone();
                msg.append("\n");
                proof {
                    assert("\n"@ =~= seq!['\n']) by {
                        reveal_strlit("\n");
                    }
                }
                effects2.push(Effect::TermErr(msg));
                wi = wi + 1;
                proof {
                    let lastv = EffectV::TermErr(warnsv[wi - 1] + seq!['\n']);
                    assert(effects2@[effects2@.len() - 1]@ == lastv);
                    assert forall|k: int| 0 <= k < effects2@.len() implies effects2.deep_view()[k]
                        == e0.push(lastv)[k] by {
                        if k < e0v.len() {
                            assert(effects2@[k] == e0v[k]);
                        }
                    }
                    assert(effects2.deep_view() =~= e0.push(lastv));
                    assert(warn_effects(warnsv.take(wi as int)) =~= warn_effects(
                        warnsv.take(wi - 1),
                    ).push(lastv));
                    assert(effects2.deep_view() =~= warn_effects(warnsv.take(wi as int)));
                }
            }
            proof {
                assert(warnsv.take(warnsv.len() as int) =~= warnsv);
            }
            if decoded.args.len() > 0 {
                let mut args = decoded.args;
                let ghost argsv = args.deep_view();
                let name = args.remove(0);
                proof {
                    assert(args.deep_view() =~= argsv.drop_first());
                }
                let mut envp: Vec<(String, String)> = Vec::new();
                let en = decoded.overlay.len();
                let mut ei: usize = 0;
                while ei < en
                    invariant
                        en == decoded.overlay.pairs().len(),
                        ei <= en,
                        sh.wf(),
                        envp@.len() == ei,
                        forall|k: int|
                            0 <= k < ei ==> (#[trigger] envp@[k]).0@ == decoded.overlay.pairs()[k].0
                                && envp@[k].1@ == decoded.overlay.pairs()[k].1,
                    decreases en - ei,
                {
                    let e = decoded.overlay.entry_at(ei);
                    envp.push((e.0, e.1));
                    ei = ei + 1;
                }
                proof {
                    assert forall|k: int| 0 <= k < en implies envp.deep_view()[k]
                        == decoded.overlay.pairs()[k] by {
                        assert(envp@[k].0@ == decoded.overlay.pairs()[k].0 && envp@[k].1@
                            == decoded.overlay.pairs()[k].1);
                    }
                    assert(envp.deep_view() =~= decoded.overlay.pairs());
                }
                let es = sh.execute_command(
                    name.as_str(),
                    &args,
                    &envp,
                    background,
                    &decoded.redirects,
                );
                let ghost ges = es;
                let ghost argsq = spec_args(
                    sc.redirects_or_cmd_words@,
                    pre_sh.vmap(),
                    pre_sh.emap(),
                    pre_sh.last_exit_status as int,
                    pre_sh.pid,
                );
                proof {
                    assert(argsv == argsq);
                    assert(name@ == argsq[0]);
                    assert(args.deep_view() == argsq.drop_first());
                    assert(envp.deep_view() == spec_overlay_pairs(
                        sc.redirects_or_env_vars@,
                        pre_sh.vmap(),
                        pre_sh.emap(),
                        pre_sh.last_exit_status as int,
                        pre_sh.pid,
                    ));
                    assert(decoded.redirects.deep_view() == redsv + spec_extra_redirects(
                        sc.redirects_or_cmd_words@,
                        pre_sh.vmap(),
                        pre_sh.emap(),
                        pre_sh.last_exit_status as int,
                        pre_sh.pid,
                        pre_sh.pwd@,
                    ));
                    assert(exec_post(
                        pre_sh,
                        *sh,
                        argsq[0],
                        argsq.drop_first(),
                        spec_overlay_pairs(
                            sc.redirects_or_env_vars@,
                            pre_sh.vmap(),
                            pre_sh.emap(),
                            pre_sh.last_exit_status as int,
                            pre_sh.pid,
                        ),
                        background,
                        redsv + spec_extra_redirects(
                            sc.redirects_or_cmd_words@,
                            pre_sh.vmap(),
                            pre_sh.emap(),
                            pre_sh.last_exit_status as int,
                            pre_sh.pid,
                            pre_sh.pwd@,
                        ),
                        ges,
                    ));
                }
                match es {
                    ExecStep::Need(e2, q, ec) => {
                        append_effects(&mut effects2, e2);
                        let out = Step::Need(effects2, q, Cont { pending: ec, stack });
                        proof {
                            assert(wrap_step(out, warn_effects(warnsv), stackv, ges));
                        }
                        out
                    },
                    ExecStep::Done(e2, st) => {
                        append_effects(&mut effects2, e2);
                        let out = Step::Continue(effects2, st, stack);
                        proof {
                            assert(wrap_step(out, warn_effects(warnsv), stackv, ges));
                        }
                        out
                    },
                    ExecStep::Exit(c) => {
                        let out = Step::Exit(c);
                        proof {
                            assert(wrap_step(out, warn_effects(warnsv), stackv, ges));
                        }
                        out
                    },
                }
            } else {
                let notes = sh.apply_assignments(&decoded.overlay);
                let ghost notesv = notes.deep_view();
                append_effects(&mut effects2, notes);
                let out = Step::Continue(effects2, crate::EXIT_SUCCESS, stack);
                out
            }
        },
        PipeableCommand::Compound(cc) => match cc {
            CompoundCommand::Subshell(cmds) => {
                if cmds.len() == 0 {
                    let none_eff: Vec<Effect> = Vec::new();
                    proof {
                        assert(none_eff.deep_view() =~= Seq::<EffectV>::empty());
                    }
                    Step::Continue(none_eff, crate::EXIT_SUCCESS, stack)
                } else {
                    let mut rest = cmds;
                    let ghost cs = rest@;
                    let first = rest.remove(0);
                    proof {
                        assert(rest@ =~= cs.drop_first());
                        assert(sum_top_from(cs, 0) == 1 + size_top(cs[0]) + sum_top_from(cs, 1));
                    }
                    let mut stack2 = stack;
                    let ghost s0v = stack2@;
                    let f = Frame::SubshellRest { rest };
                    let ghost fv = f@;
                    stack2.push(f);
                    proof {
                        assert forall|k: int| 0 <= k < stack2@.len() implies stack2.deep_view()[k]
                            == stackv.push(fv)[k] by {
                            if k < s0v.len() {
                                assert(stack2@[k] == s0v[k]);
                            }
                        }
                        assert(stack2.deep_view() =~= stackv.push(fv));
                        assert(fv == FrameV::SubshellRest(cs.drop_first()));
                    }
                    start_top(sh, first, stack2)
                }
            },
            CompoundCommand::Other(d) => {
                let mut effects2: Vec<Effect> = Vec::new();
                let mut msg = "CompoundCommandKind not yet handled: ".to_owned();
                msg.append(d.as_str());
                msg.append("\n");
                effects2.push(Effect::TermErr(msg));
                proof {
                    assert("\n"@ =~= seq!['\n']) by {
                        reveal_strlit("\n");
                    }
                    assert(effects2.deep_view() =~= seq![
                        EffectV::TermErr(
                            "CompoundCommandKind not yet handled: "@ + d@ + seq!['\n'],
                        ),
                    ]);
                }
                Step::Continue(effects2, crate::EXIT_FAILURE, stack)
            },
        },
        PipeableCommand::FunctionDef(name) => {
            let mut effects2: Vec<Effect> = Vec::new();
            effects2.push(
                Effect::TermErr("FunctionDef not yet handled (but it would be cool)\n".to_owned()),
            );
            proof {
                assert(effects2.deep_view() =~= seq![
                    EffectV::TermErr("FunctionDef not yet handled (but it would be cool)\n"@),
                ]);
            }
            Step::Continue(effects2, crate::EXIT_FAILURE, stack)
        },
    }
}

/// Hands a finished stage's status to the topmost suspended level and
/// performs exactly one transition of the walk, exactly as `advance_post`
/// lays it out. The host calls this with the stack and status a
/// `Step::Continue` handed back, once it has carried out the effects.
pub fn advance(sh: &mut Shell, stack: Vec<Frame>, status: i32) -> (r: Step)
    requires
        old(sh).wf(),
    ensures
        final(sh).wf(),
        advance_post(*old(sh), *final(sh), stack.deep_view(), status, r),
{
    let ghost stackv = stack.deep_view();
    let ghost sv = stack@;
    let mut stack2 = stack;
    match stack2.pop() {
        None => Step::Done(status),
        Some(frame) => {
            let ghost belowv = stack2.deep_view();
            proof {
                assert(stack2@ =~= sv.drop_last());
                assert forall|k: int| 0 <= k < stack2@.len() implies stack2.deep_view()[k]
                    == stackv.drop_last()[k] by {
                    assert(stack2@[k] == sv[k]);
                }
                assert(stack2.deep_view() =~= stackv.drop_last());
                assert(frame@ == stackv.last());
            }
            match frame {
                Frame::AndOrRest { rest, background } => {
                    let ghost restv = rest@;
                    let mut suffix = skip_unrunnable(rest, status);
                    if suffix.len() == 0 {
                        proof {
                            let k = choose|k: int|
                                0 <= k <= restv.len() && suffix@ == restv.skip(k) && forall|j: int|
                                    0 <= j < k ==> !runnable_after(#[trigger] restv[j], status);
                            assert(restv.skip(k).len() == restv.len() - k);
                            assert(k == restv.len());
                            lemma_first_runnable_none(restv, status);
                        }
                        let none_eff: Vec<Effect> = Vec::new();
                        proof {
                            assert(none_eff.deep_view() =~= Seq::<EffectV>::empty());
                        }
                        Step::Continue(none_eff, status, stack2)
                    } else {
                        let ghost k = choose|k: int|
                            0 <= k <= restv.len() && suffix@ == restv.skip(k) && forall|j: int|
                                0 <= j < k ==> !runnable_after(#[trigger] restv[j], status);
                        proof {
                            assert(suffix@[0] == restv[k]);
                            assert(runnable_after(restv[k], status));
                            lemma_first_runnable_at(restv, status, k);
                        }
                        let ghost sufv = suffix@;
                        let item = suffix.remove(0);
                        proof {
                            assert(suffix@ =~= sufv.drop_first());
                            assert(suffix@ =~= restv.skip(k + 1));
                        }
                        let cmd = match item {
                            AndOr::And(c) => c,
                            AndOr::Or(c) => c,
                        };
                        proof {
                            assert(cmd == andor_cmd(restv[k]));
                        }
                        let f = Frame::AndOrRest { rest: suffix, background };
                        let ghost fv = f@;
                        let ghost b0v = stack2@;
                        stack2.push(f);
                        proof {
                            assert forall|j: int| 0 <= j < stack2@.len() implies stack2
                                .deep_view()[j] == belowv.push(fv)[j] by {
                                if j < b0v.len() {
                                    assert(stack2@[j] == b0v[j]);
                                }
                            }
                            assert(stack2.deep_view() =~= belowv.push(fv));
                            assert(fv == FrameV::AndOrRest(restv.skip(k + 1), background));
                        }
                        start_listable(sh, cmd, background, stack2)
                    }
                },
                Frame::PipeRest { rest, pos, total, negate, background } => {
                    if rest.len() == 0 {
                        let status2: i32 = if negate {
                            if status != crate::EXIT_SUCCESS {
                                crate::EXIT_SUCCESS
                            } else {
                                crate::EXIT_FAILURE
                            }
                        } else {
                            status
                        };
                        let effects2 = if total >= 1 {
                            pipe_cleanup_effects(total)
                        } else {
                            Vec::new()
                        };
                        proof {
                            if total < 1 {
                                assert(effects2.deep_view() =~= Seq::<EffectV>::empty());
                            }
                        }
                        Step::Continue(effects2, status2, stack2)
                    } else {
                        let mut rest2 = rest;
                        let ghost r0 = rest2@;
                        let first = rest2.remove(0);
                        proof {
                            assert(rest2@ =~= r0.drop_first());
                        }
                        let reds = if pos < total {
                            pipe_stage_redirects(pos, total)
                        } else {
                            Vec::new()
                        };
                        proof {
                            if pos >= total {
                                assert(reds.deep_view() =~= Seq::<RedirectV>::empty());
                            }
                        }
                        let newpos = if pos < total {
                            pos + 1
                        } else {
                            pos
                        };
                        let f = Frame::PipeRest {
                            rest: rest2,
                            pos: newpos,
                            total,
                            negate,
                            background,
                        };
                        let ghost fv = f@;
                        let ghost b0v = stack2@;
                        stack2.push(f);
                        proof {
                            assert forall|j: int| 0 <= j < stack2@.len() implies stack2
                                .deep_view()[j] == belowv.push(fv)[j] by {
                                if j < b0v.len() {
                                    assert(stack2@[j] == b0v[j]);
                                }
                            }
                            assert(stack2.deep_view() =~= belowv.push(fv));
                        }
                        start_pipeable(sh, first, background, reds, stack2)
                    }
                },
                Frame::SubshellRest { rest } => {
                    if rest.len() == 0 {
                        let none_eff: Vec<Effect> = Vec::new();
                        proof {
                            assert(none_eff.deep_view() =~= Seq::<EffectV>::empty());
                        }
                        Step::Continue(none_eff, status, stack2)
                    } else {
                        let mut rest2 = rest;
                        let ghost r0 = rest2@;
                        let first = rest2.remove(0);
                        proof {
                            assert(rest2@ =~= r0.drop_first());
                        }
                        let f = Frame::SubshellRest { rest: rest2 };
                        let ghost fv = f@;
                        let ghost b0v = stack2@;
                        stack2.push(f);
                        proof {
                            assert forall|j: int| 0 <= j < stack2@.len() implies stack2
                                .deep_view()[j] == belowv.push(fv)[j] by {
                                if j < b0v.len() {
                                    assert(stack2@[j] == b0v[j]);
                                }
                            }
                            assert(stack2.deep_view() =~= belowv.push(fv));
                            assert(fv == FrameV::SubshellRest(r0.drop_first()));
                        }
                        start_top(sh, first, stack2)
                    }
                },
            }
        },
    }
}

/// Interprets one top-level node of the syntax tree against the session,
/// handing back the first step of its walk, exactly as `starts_top` lays it
/// out with nothing suspended above.
pub fn interpret(sh: &mut Shell, cmd: TopLevelCommand) -> (r: Step)
    requires
        old(sh).wf(),
    ensures
        final(sh).wf(),
        starts_top(*old(sh), *final(sh), cmd, Seq::empty(), r),
{
    handle_top_level_command(sh, cmd, false, Vec::new())
}

/// Interprets one top-level node: a job's chain runs in the background, a
/// list's in the foreground; the given flag and redirections play no part,
/// as each node decides for itself.
pub fn handle_top_level_command(
    sh: &mut Shell,
    cmd: TopLevelCommand,
    background: bool,
    redirects: Vec<Redirect>,
) -> (r: Step)
    requires
        old(sh).wf(),
    ensures
        final(sh).wf(),
        starts_top(*old(sh), *final(sh), cmd, Seq::empty(), r),
{
    let stack: Vec<Frame> = Vec::new();
    proof {
        assert(stack.deep_view() =~= Seq::<FrameV>::empty());
    }
    start_top(sh, cmd, stack)
}

/// Carries a suspended interpretation on with the host's answer: the
/// suspended command takes it per `resume_post`, and the walk's step wraps
/// the command's own, the suspended levels handed back as they stood.
pub fn resume(sh: &mut Shell, cont: Cont, answer: Answer) -> (r: Step)
    requires
        old(sh).wf(),
    ensures
        final(sh).wf(),
        exists|es: ExecStep|
            {
                &&& #[trigger] crate::shell_base::resume_post(
                    *old(sh),
                    *final(sh),
                    cont.pending,
                    answer,
                    es,
                )
                &&& wrap_step(r, Seq::empty(), cont.stack.deep_view(), es)
            },
{
    let Cont { pending, stack } = cont;
    let es = sh.resume_command(pending, answer);
    let ghost ges = es;
    match es {
        ExecStep::Need(e2, q, ec) => {
            let ghost e2v = e2.deep_view();
            let out = Step::Need(e2, q, Cont { pending: ec, stack });
            proof {
                assert(Seq::<EffectV>::empty() + e2v =~= e2v);
                assert(wrap_step(out, Seq::empty(), cont.stack.deep_view(), ges));
            }
            out
        },
        ExecStep::Done(e2, st) => {
            let ghost e2v = e2.deep_view();
            let out = Step::Continue(e2, st, stack);
            proof {
                assert(Seq::<EffectV>::empty() + e2v =~= e2v);
                assert(wrap_step(out, Seq::empty(), cont.stack.deep_view(), ges));
            }
            out
        },
        ExecStep::Exit(c) => {
            let out = Step::Exit(c);
            proof {
                assert(wrap_step(out, Seq::empty(), cont.stack.deep_view(), ges));
            }
            out
        },
    }
}

/// Decodes one simple command into its actions, exactly as `spec_actions`
/// lays them out over the decoded overlay and arguments.
pub fn handle_simple_command(sh: &Shell, cmd: &SimpleCommand, background: bool) -> (r: Vec<Action>)
    requires
        sh.wf(),
    ensures
        ({
            let vars = sh.vmap();
            let env = sh.emap();
            let st = sh.last_exit_status as int;
            r.deep_view() == spec_actions(
                spec_overlay_pairs(cmd.redirects_or_env_vars@, vars, env, st, sh.pid),
                spec_args(cmd.redirects_or_cmd_words@, vars, env, st, sh.pid),
                background,
            )
        }),
{
    let decoded = handle_simple_command_parts(sh, cmd, Vec::new());
    let ghost op = decoded.overlay.pairs();
    let ghost argsv = decoded.args.deep_view();
    let mut r: Vec<Action> = Vec::new();
    let n = decoded.overlay.len();
    let mut i: usize = 0;
    while i < n
        invariant
            n == op.len(),
            op == decoded.overlay.pairs(),
            i <= n,
            r@.len() == i,
            forall|k: int|
                0 <= k < i ==> (#[trigger] r@[k])@ == ActionV::SetEnv(op[k].0, op[k].1),
        decreases n - i,
    {
        let e = decoded.overlay.entry_at(i);
        r.push(Action::SetEnv { key: e.0, value: e.1 });
        i = i + 1;
    }
    let ghost sets = op.map_values(|p: (Seq<char>, Seq<char>)| ActionV::SetEnv(p.0, p.1));
    proof {
        assert forall|k: int| 0 <= k < i implies r.deep_view()[k] == sets[k] by {
            assert(r@[k]@ == ActionV::SetEnv(op[k].0, op[k].1));
        }
    }
    if decoded.args.len() > 0 {
        let mut args = decoded.args;
        let name = args.remove(0);
        proof {
            assert(args.deep_view() =~= argsv.drop_first());
        }
        r.push(Action::Command { name, args, background });
        proof {
            assert forall|k: int| 0 <= k < r@.len() implies r.deep_view()[k] == sets.push(
                ActionV::Command(argsv[0], argsv.drop_first(), background),
            )[k] by {
                if k < sets.len() {
                    assert(r@[k]@ == ActionV::SetEnv(op[k].0, op[k].1));
                }
            }
            assert(r.deep_view() =~= sets.push(
                ActionV::Command(argsv[0], argsv.drop_first(), background),
            ));
        }
        r
    } else if n == 0 {
        r.push(Action::Invalid);
        proof {
            assert(r.deep_view() =~= seq![ActionV::Invalid]);
            assert(sets =~= Seq::<ActionV>::empty());
        }
        r
    } else {
        proof {
            assert(r.deep_view() =~= sets);
        }
        r
    }
}

} // verus!
