use vstd::prelude::*;

use crate::history::{expand_line, spec_expand, HistoryExpansion};
use crate::output_device::{fd_flush_plan, OutputDevice};
use crate::table::VarTable;
use crate::text::{join_strings, spec_join, spec_i32_dec, i32_to_string, parse_i32, str_to_chars, chars_to_string, spec_replace, replace_str, spec_dec, u64_to_string, split_string};

verus! {

/// The outcome of one bridge call: the exit status of the unit that ran and
/// whatever textual output the host captured for it.
pub struct SyscallResult {
    pub exit_status: i32,
    pub output: String,
}

/// One descriptor redirection: the mode, the target descriptor and the
/// resolved absolute path of the file backing it.
pub enum Redirect {
    Read((u16, String)),
    Write((u16, String)),
    Append((u16, String)),
}

/// The value of a redirection: mode, descriptor and path characters.
pub enum RedirectV {
    Read(u16, Seq<char>),
    Write(u16, Seq<char>),
    Append(u16, Seq<char>),
}

impl View for Redirect {
    type V = RedirectV;

    open spec fn view(&self) -> RedirectV {
        match self {
            Redirect::Read((fd, p)) => RedirectV::Read(*fd, p@),
            Redirect::Write((fd, p)) => RedirectV::Write(*fd, p@),
            Redirect::Append((fd, p)) => RedirectV::Append(*fd, p@),
        }
    }
}

impl DeepView for Redirect {
    type V = RedirectV;

    open spec fn deep_view(&self) -> RedirectV {
        self.view()
    }
}

/// Clones one redirection, value for value.
pub fn clone_redirect(r: &Redirect) -> (c: Redirect)
    ensures
        c@ == r@,
{
    match r {
        Redirect::Read((fd, p)) => Redirect::Read((*fd, p.clone())),
        Redirect::Write((fd, p)) => Redirect::Write((*fd, p.clone())),
        Redirect::Append((fd, p)) => Redirect::Append((*fd, p.clone())),
    }
}

/// Clones a list of redirections, value for value.
pub fn clone_redirects(rs: &Vec<Redirect>) -> (c: Vec<Redirect>)
    ensures
        c.deep_view() == rs.deep_view(),
{
    let mut c: Vec<Redirect> = Vec::new();
    let mut i: usize = 0;
    while i < rs.len()
        invariant
            i <= rs@.len(),
            c@.len() == i,
            forall|k: int| 0 <= k < i ==> (#[trigger] c@[k])@ == rs@[k]@,
        decreases rs@.len() - i,
    {
        c.push(clone_redirect(&rs[i]));
        i = i + 1;
    }
    proof {
        assert forall|k: int| 0 <= k < rs@.len() implies c.deep_view()[k] == rs.deep_view()[k] by {
            assert(c@[k]@ == rs@[k]@);
        }
        assert(c.deep_view() =~= rs.deep_view());
    }
    c
}

/// One outward action the session asks its host to perform. The host carries
/// each one out in order; none of them sends anything back.
pub enum Effect {
    /// Replace the contents of the file at the path with the text.
    FileWrite((String, String)),
    /// Append the text to the file at the path.
    FileAppend((String, String)),
    /// Show the text on the terminal's standard output.
    TermOut(String),
    /// Show the text on the terminal's standard error.
    TermErr(String),
    /// Tell the bridge that an environment entry changed: a name and a value
    /// to set it to, or a name alone to drop it.
    NotifyEnv((String, Option<String>)),
    /// Make the host process follow the session into this directory.
    ChangeDir(String),
    /// Remove the file at the path.
    RemoveFile(String),
    /// Append one line to the history file.
    AppendHistory(String),
    /// Display the image file at the path inline on the terminal.
    ShowImage(String),
    /// Unpack the archive file at the path into the working directory.
    ExtractArchive(String),
}

/// The value of an outward action.
pub enum EffectV {
    FileWrite(Seq<char>, Seq<char>),
    FileAppend(Seq<char>, Seq<char>),
    TermOut(Seq<char>),
    TermErr(Seq<char>),
    NotifyEnv(Seq<char>, Option<Seq<char>>),
    ChangeDir(Seq<char>),
    RemoveFile(Seq<char>),
    AppendHistory(Seq<char>),
    ShowImage(Seq<char>),
    ExtractArchive(Seq<char>),
}

impl View for Effect {
    type V = EffectV;

    open spec fn view(&self) -> EffectV {
        match self {
            Effect::FileWrite((p, t)) => EffectV::FileWrite(p@, t@),
            Effect::FileAppend((p, t)) => EffectV::FileAppend(p@, t@),
            Effect::TermOut(t) => EffectV::TermOut(t@),
            Effect::TermErr(t) => EffectV::TermErr(t@),
            Effect::NotifyEnv((k, v)) => EffectV::NotifyEnv(
                k@,
                match v {
                    Some(s) => Some(s@),
                    None => None,
                },
            ),
            Effect::ChangeDir(p) => EffectV::ChangeDir(p@),
            Effect::RemoveFile(p) => EffectV::RemoveFile(p@),
            Effect::AppendHistory(t) => EffectV::AppendHistory(t@),
            Effect::ShowImage(p) => EffectV::ShowImage(p@),
            Effect::ExtractArchive(p) => EffectV::ExtractArchive(p@),
        }
    }
}

impl DeepView for Effect {
    type V = EffectV;

    open spec fn deep_view(&self) -> EffectV {
        self.view()
    }
}

/// The delimiter character reserved by the bridge's wire format.
pub const WIRE_DELIM: char = '\u{1b}';

/// One redirect on the wire: the mode word, the descriptor and the path,
/// separated by single spaces.
pub open spec fn wire_redirect(r: RedirectV) -> Seq<char> {
    match r {
        RedirectV::Read(fd, p) => "read "@ + spec_i32_dec(fd as int) + seq![' '] + p,
        RedirectV::Write(fd, p) => "write "@ + spec_i32_dec(fd as int) + seq![' '] + p,
        RedirectV::Append(fd, p) => "append "@ + spec_i32_dec(fd as int) + seq![' '] + p,
    }
}

/// A whole request on the wire: command, arguments, environment pairs,
/// background flag and redirects, the fields of each section separated by the
/// reserved delimiter and the sections by the delimiter doubled.
pub open spec fn wire_request(
    command: Seq<char>,
    args: Seq<Seq<char>>,
    env: Seq<(Seq<char>, Seq<char>)>,
    background: bool,
    redirects: Seq<RedirectV>,
) -> Seq<char> {
    let d = seq![WIRE_DELIM];
    let dd = d + d;
    command + dd + spec_join(args, d) + dd + spec_join(
        env.map_values(|p: (Seq<char>, Seq<char>)| p.0 + seq!['='] + p.1),
        d,
    ) + dd + (if background {
        "true"@
    } else {
        "false"@
    }) + dd + spec_join(redirects.map_values(|r: RedirectV| wire_redirect(r)), d)
}

fn encode_redirect(r: &Redirect) -> (s: String)
    ensures
        s@ == wire_redirect(r@),
{
    let (word, fd, p) = match r {
        Redirect::Read((fd, p)) => ("read ", *fd, p),
        Redirect::Write((fd, p)) => ("write ", *fd, p),
        Redirect::Append((fd, p)) => ("append ", *fd, p),
    };
    let mut s = word.to_owned();
    let n = i32_to_string(fd as i32);
    s.append(n.as_str());
    s.append(" ");
    s.append(p.as_str());
    proof {
        assert(" "@ =~= seq![' ']) by {
            reveal_strlit(" ");
        }
    }
    s
}

/// Encodes one bridge request for the channel backend, exactly as
/// `wire_request` lays it out.
pub fn encode_request(
    command: &str,
    args: &Vec<String>,
    env: &Vec<(String, String)>,
    background: bool,
    redirects: &Vec<Redirect>,
) -> (s: String)
    ensures
        s@ == wire_request(
            command@,
            args.deep_view(),
            env.deep_view(),
            background,
            redirects.deep_view(),
        ),
{
    let d = "\u{1b}";
    proof {
        assert(d@ =~= seq![WIRE_DELIM]) by {
            reveal_strlit("\u{1b}");
        }
    }
    let mut env_parts: Vec<String> = Vec::new();
    let mut i: usize = 0;
    while i < env.len()
        invariant
            i <= env@.len(),
            env_parts@.len() == i,
            forall|k: int|
                0 <= k < i ==> (#[trigger] env_parts@[k])@ == env@[k].0@ + seq!['='] + env@[k].1@,
        decreases env@.len() - i,
    {
        let mut part = env[i].0.clone();
        part.append("=");
        part.append(env[i].1.as_str());
        proof {
            assert("="@ =~= seq!['=']) by {
                reveal_strlit("=");
            }
        }
        env_parts.push(part);
        i = i + 1;
    }
    proof {
        assert forall|k: int| 0 <= k < env@.len() implies env_parts.deep_view()[k] == env.deep_view().map_values(
            |p: (Seq<char>, Seq<char>)| p.0 + seq!['='] + p.1,
        )[k] by {
            assert(env_parts@[k]@ == env@[k].0@ + seq!['='] + env@[k].1@);
            assert(env.deep_view()[k] == (env@[k].0@, env@[k].1@));
        }
        assert(env_parts.deep_view() =~= env.deep_view().map_values(
            |p: (Seq<char>, Seq<char>)| p.0 + seq!['='] + p.1,
        ));
    }
    let mut red_parts: Vec<String> = Vec::new();
    let mut j: usize = 0;
    while j < redirects.len()
        invariant
            j <= redirects@.len(),
            red_parts@.len() == j,
            forall|k: int|
                0 <= k < j ==> (#[trigger] red_parts@[k])@ == wire_redirect(redirects@[k]@),
        decreases redirects@.len() - j,
    {
        red_parts.push(encode_redirect(&redirects[j]));
        j = j + 1;
    }
    proof {
        assert forall|k: int| 0 <= k < redirects@.len() implies red_parts.deep_view()[k]
            == redirects.deep_view().map_values(|r: RedirectV| wire_redirect(r))[k] by {
            assert(red_parts@[k]@ == wire_redirect(redirects@[k]@));
        }
        assert(red_parts.deep_view() =~= redirects.deep_view().map_values(
            |r: RedirectV| wire_redirect(r),
        ));
    }
    let mut s = command.to_owned();
    s.append(d);
    s.append(d);
    let a = join_strings(args, d);
    s.append(a.as_str());
    s.append(d);
    s.append(d);
    let e = join_strings(&env_parts, d);
    s.append(e.as_str());
    s.append(d);
    s.append(d);
    if background {
        s.append("true");
    } else {
        s.append("false");
    }
    s.append(d);
    s.append(d);
    let r = join_strings(&red_parts, d);
    s.append(r.as_str());
    s
}

/// The position of the first reserved delimiter in `s`, if any.
pub open spec fn first_delim(s: Seq<char>) -> Option<int> {
    if exists|i: int| 0 <= i < s.len() && s[i] == WIRE_DELIM {
        Some(
            choose|i: int|
                0 <= i < s.len() && s[i] == WIRE_DELIM && forall|j: int|
                    0 <= j < i ==> s[j] != WIRE_DELIM,
        )
    } else {
        None
    }
}

/// Decodes one bridge response for the channel backend: the digits before the
/// first reserved delimiter are the exit status and everything after it is
/// the captured output. Returns nothing when no delimiter is present or the
/// status is not a number.
pub fn decode_response(s: &str) -> (r: Option<SyscallResult>)
    ensures
        match r {
            Some(res) => {
                &&& first_delim(s@) matches Some(i)
                &&& parse_i32_at(s@, i) matches Some(v) && res.exit_status == v
                &&& res.output@ == s@.subrange(i + 1, s@.len() as int)
            },
            None => {
                first_delim(s@) matches Some(i) ==> parse_i32_at(s@, i) is None
            },
        },
{
    let chars = str_to_chars(s);
    let mut i: usize = 0;
    while i < chars.len()
        invariant
            i <= chars@.len(),
            chars@ == s@,
            forall|j: int| 0 <= j < i ==> s@[j] != WIRE_DELIM,
        decreases chars@.len() - i,
    {
        if chars[i] == '\u{1b}' {
            proof {
                assert(s@[i as int] == WIRE_DELIM);
                let w = choose|w: int|
                    0 <= w < s@.len() && s@[w] == WIRE_DELIM && forall|j: int|
                        0 <= j < w ==> s@[j] != WIRE_DELIM;
                assert(first_delim(s@) == Some(w));
                if w < i {
                    assert(s@[w] != WIRE_DELIM);
                }
                if i < w {
                    assert(s@[i as int] != WIRE_DELIM);
                }
                assert(w == i);
            }
            let mut status_part: Vec<char> = Vec::new();
            let mut a: usize = 0;
            while a < i
                invariant
                    a <= i <= chars@.len(),
                    chars@ == s@,
                    status_part@ == s@.subrange(0, a as int),
                decreases i - a,
            {
                status_part.push(chars[a]);
                a = a + 1;
                proof {
                    assert(status_part@ =~= s@.subrange(0, a as int));
                }
            }
            let mut out_part: Vec<char> = Vec::new();
            let mut b: usize = i + 1;
            while b < chars.len()
                invariant
                    i + 1 <= b <= chars@.len(),
                    chars@ == s@,
                    out_part@ == s@.subrange(i + 1, b as int),
                decreases chars@.len() - b,
            {
                out_part.push(chars[b]);
                b = b + 1;
                proof {
                    assert(out_part@ =~= s@.subrange(i + 1, b as int));
                }
            }
            proof {
                assert(out_part@ =~= s@.subrange(i + 1, s@.len() as int));
            }
            match parse_i32(&status_part) {
                Some(v) => {
                    return Some(
                        SyscallResult { exit_status: v, output: chars_to_string(&out_part) },
                    );
                },
                None => {
                    return None;
                },
            }
        }
        i = i + 1;
    }
    proof {
        if exists|w: int| 0 <= w < s@.len() && s@[w] == WIRE_DELIM {
            let w = choose|w: int| 0 <= w < s@.len() && s@[w] == WIRE_DELIM;
            assert(s@[w] != WIRE_DELIM);
        }
        assert(first_delim(s@) is None);
    }
    None
}

/// The exit status a response carries: the number its digits before the
/// delimiter at `i` denote.
pub open spec fn parse_i32_at(s: Seq<char>, i: int) -> Option<i32> {
    crate::text::spec_parse_i32(s.subrange(0, i))
}

/// The prompt template used when the environment carries no `PS1`.
pub const DEFAULT_PS1: &'static str = "\u{1b}[1;34m\\u@\\h \u{1b}[1;33m\\w$\u{1b}[0m ";

/// One interactive or batch session: its working directory, shell-local
/// variables, a model of the process environment as the session sees it, the
/// last exit status, the history, and the identifier the host reports for
/// the session's process.
pub struct Shell {
    pub pwd: String,
    pub vars: VarTable,
    pub env: VarTable,
    pub last_exit_status: i32,
    pub pid: u64,
    pub history: Vec<String>,
    pub should_echo: bool,
}

/// No two neighboring history entries are the same.
pub open spec fn no_adjacent_repeats(h: Seq<Seq<char>>) -> bool {
    forall|i: int| 0 <= i < h.len() - 1 ==> h[i] != #[trigger] h[i + 1]
}

/// What the session does with one submitted line.
pub enum LineDisposition {
    /// Run the line.
    Execute(String),
    /// Show the expanded line in place of the input and wait for the next
    /// submission.
    Redisplay(String),
    /// A designator named no event; the payload is the designator.
    EventNotFound(String),
}

/// The prompt text: the template with `\u` replaced by the user, `\h` by the
/// host, and `\w` by the working directory, in which a non-empty home is
/// shown as `~`.
pub open spec fn spec_prompt(
    ps1: Seq<char>,
    user: Seq<char>,
    host: Seq<char>,
    home: Seq<char>,
    pwd: Seq<char>,
) -> Seq<char> {
    let wdisp = if home.len() > 0 {
        spec_replace(pwd, home, seq!['~'])
    } else {
        pwd
    };
    spec_replace(
        spec_replace(spec_replace(ps1, seq!['\\', 'u'], user), seq!['\\', 'h'], host),
        seq!['\\', 'w'],
        wdisp,
    )
}

/// The target directory a `cd` with these arguments names: the home
/// directory for none, the previous directory for `-`, the argument itself
/// when absolute, and the argument joined to the working directory
/// otherwise. The error names the variable a bare or `-` form needed and
/// did not find.
pub open spec fn cd_target(
    args: Seq<Seq<char>>,
    env: Map<Seq<char>, Seq<char>>,
    pwd: Seq<char>,
) -> Result<Seq<char>, Seq<char>> {
    if args.len() == 0 {
        if env.dom().contains("HOME"@) {
            Ok(env["HOME"@])
        } else {
            Err("HOME"@)
        }
    } else if args[0] == "-"@ {
        if env.dom().contains("OLDPWD"@) {
            Ok(env["OLDPWD"@])
        } else {
            Err("OLDPWD"@)
        }
    } else if args[0].len() > 0 && args[0][0] == '/' {
        Ok(args[0])
    } else {
        Ok(spec_join_path(pwd, args[0]))
    }
}

/// A relative path joined to a base directory with a single separator.
pub open spec fn spec_join_path(base: Seq<char>, rel: Seq<char>) -> Seq<char> {
    if base.len() > 0 && base.last() == '/' {
        base + rel
    } else {
        base + seq!['/'] + rel
    }
}

/// The working directory and environment after a successful change of
/// directory that landed at `canonical`: the previous directory is kept in
/// `OLDPWD` and the new one stands in `pwd` and `PWD`.
pub open spec fn cd_env_after(
    env: Map<Seq<char>, Seq<char>>,
    pwd_before: Seq<char>,
    canonical: Seq<char>,
) -> Map<Seq<char>, Seq<char>> {
    env.insert("OLDPWD"@, pwd_before).insert("PWD"@, canonical)
}

impl Shell {
    /// The shell-local variable mapping.
    pub open spec fn vmap(self) -> Map<Seq<char>, Seq<char>> {
        self.vars.as_map()
    }

    /// The environment mapping as the session models it.
    pub open spec fn emap(self) -> Map<Seq<char>, Seq<char>> {
        self.env.as_map()
    }

    /// Both variable tables are well formed, and the working directory is
    /// an absolute path, as the session's invariant has it.
    pub open spec fn wf(self) -> bool {
        self.vars.wf() && self.env.wf() && self.pwd@.len() > 0 && self.pwd@[0] == '/'
    }

    /// The history entries.
    pub open spec fn hist(self) -> Seq<Seq<char>> {
        self.history.deep_view()
    }

    /// Whether redraw output is echoed back to the terminal.
    pub open spec fn echo_on(self) -> bool {
        self.should_echo
    }

    /// A fresh session in the given absolute directory, with success as its
    /// last status, no variables, no history and an empty environment model.
    pub fn new(should_echo: bool, pwd: &str) -> (sh: Shell)
        requires
            pwd@.len() > 0,
            pwd@[0] == '/',
        ensures
            sh.wf(),
            sh.pwd@ == pwd@,
            sh.vars.as_map() == Map::<Seq<char>, Seq<char>>::empty(),
            sh.env.as_map() == Map::<Seq<char>, Seq<char>>::empty(),
            sh.last_exit_status == crate::EXIT_SUCCESS,
            sh.pid == 0,
            sh.hist() == Seq::<Seq<char>>::empty(),
            sh.echo_on() == should_echo,
    {
        let sh = Shell {
            pwd: pwd.to_owned(),
            vars: VarTable::new(),
            env: VarTable::new(),
            last_exit_status: crate::EXIT_SUCCESS,
            pid: 0,
            history: Vec::new(),
            should_echo,
        };
        proof {
            assert(sh.hist() =~= Seq::<Seq<char>>::empty());
        }
        sh
    }

    /// The history entries, oldest first.
    pub fn history(&self) -> (h: &Vec<String>)
        ensures
            h.deep_view() == self.hist(),
    {
        &self.history
    }

    /// Replaces the history wholesale, as loading the history file does.
    pub fn load_history(&mut self, lines: Vec<String>)
        ensures
            final(self).hist() == lines.deep_view(),
            final(self).pwd == old(self).pwd,
            final(self).vars == old(self).vars,
            final(self).env == old(self).env,
            final(self).last_exit_status == old(self).last_exit_status,
            final(self).pid == old(self).pid,
            final(self).echo_on() == old(self).echo_on(),
    {
        self.history = lines;
    }

    /// Records that the session hit an unrecoverable error while carrying
    /// out a command, so the last status is never left stale.
    pub fn record_critical(&mut self)
        ensures
            final(self).last_exit_status == crate::EXIT_CRITICAL_FAILURE,
            final(self).pwd == old(self).pwd,
            final(self).vars == old(self).vars,
            final(self).env == old(self).env,
            final(self).pid == old(self).pid,
            final(self).hist() == old(self).hist(),
            final(self).echo_on() == old(self).echo_on(),
    {
        self.last_exit_status = crate::EXIT_CRITICAL_FAILURE;
    }

    /// The prompt for the next line, built from `PS1` or the default
    /// template, with the user, host and working directory filled in.
    pub fn parse_prompt_string(&self) -> (r: String)
        requires
            self.wf(),
        ensures
            r@ == spec_prompt(
                if self.env.has("PS1"@) {
                    self.env.val("PS1"@)
                } else {
                    DEFAULT_PS1@
                },
                if self.env.has("USER"@) {
                    self.env.val("USER"@)
                } else {
                    "user"@
                },
                if self.env.has("HOSTNAME"@) {
                    self.env.val("HOSTNAME"@)
                } else {
                    "hostname"@
                },
                if self.env.has("HOME"@) {
                    self.env.val("HOME"@)
                } else {
                    Seq::empty()
                },
                self.pwd@,
            ),
    {
        let ps1 = match self.env.get("PS1") {
            Some(v) => v,
            None => DEFAULT_PS1.to_owned(),
        };
        let user = match self.env.get("USER") {
            Some(v) => v,
            None => "user".to_owned(),
        };
        let host = match self.env.get("HOSTNAME") {
            Some(v) => v,
            None => "hostname".to_owned(),
        };
        let home = match self.env.get("HOME") {
            Some(v) => v,
            None => String::new(),
        };
        let wdisp = if home.as_str().unicode_len() > 0 {
            replace_str(self.pwd.as_str(), home.as_str(), "~")
        } else {
            self.pwd.clone()
        };
        proof {
            assert("~"@ =~= seq!['~']) by {
                reveal_strlit("~");
            }
            assert("\\u"@ =~= seq!['\\', 'u']) by {
                reveal_strlit("\\u");
            }
            assert("\\h"@ =~= seq!['\\', 'h']) by {
                reveal_strlit("\\h");
            }
            assert("\\w"@ =~= seq!['\\', 'w']) by {
                reveal_strlit("\\w");
            }
        }
        let a = replace_str(ps1.as_str(), "\\u", user.as_str());
        let b = replace_str(a.as_str(), "\\h", host.as_str());
        replace_str(b.as_str(), "\\w", wdisp.as_str())
    }

    /// Applies history expansion to one submitted line and decides its
    /// disposition. An unchanged line is appended to the history unless it
    /// repeats the newest entry, and the effects say what to add to the
    /// history file; an expanded line is handed back for redisplay and a
    /// missed event reported, neither touching the history.
    pub fn process_line(&mut self, input: &str) -> (r: (LineDisposition, Vec<Effect>))
        ensures
            no_adjacent_repeats(old(self).hist()) ==> no_adjacent_repeats(final(self).hist()),
            final(self).pwd == old(self).pwd,
            final(self).vars == old(self).vars,
            final(self).env == old(self).env,
            final(self).last_exit_status == old(self).last_exit_status,
            final(self).pid == old(self).pid,
            final(self).echo_on() == old(self).echo_on(),
            match r.0 {
                LineDisposition::Execute(line) => {
                    &&& spec_expand(input@, old(self).hist()) == Ok::<Seq<char>, Seq<char>>(input@)
                    &&& line@ == input@
                    &&& if old(self).hist().len() > 0 && old(self).hist().last() == input@ {
                        final(self).hist() == old(self).hist() && r.1.deep_view()
                            == Seq::<EffectV>::empty()
                    } else {
                        final(self).hist() == old(self).hist().push(input@) && r.1.deep_view()
                            =~= seq![EffectV::AppendHistory(input@)]
                    }
                },
                LineDisposition::Redisplay(e) => {
                    &&& spec_expand(input@, old(self).hist()) == Ok::<Seq<char>, Seq<char>>(e@)
                    &&& e@ != input@
                    &&& final(self).hist() == old(self).hist()
                    &&& r.1.deep_view() == Seq::<EffectV>::empty()
                },
                LineDisposition::EventNotFound(ev) => {
                    &&& spec_expand(input@, old(self).hist()) == Err::<Seq<char>, Seq<char>>(ev@)
                    &&& final(self).hist() == old(self).hist()
                    &&& r.1.deep_view() == Seq::<EffectV>::empty()
                },
            },
    {
        let expansion = expand_line(input, &self.history);
        match expansion {
            HistoryExpansion::Unchanged => {
                let owned = input.to_owned();
                let mut effects: Vec<Effect> = Vec::new();
                let is_dup = if self.history.len() > 0 {
                    self.history[self.history.len() - 1].eq(&owned)
                } else {
                    false
                };
                if !is_dup {
                    let ghost h0 = self.hist();
                    self.history.push(input.to_owned());
                    proof {
                        assert(self.hist() =~= h0.push(input@));
                    }
                    effects.push(Effect::AppendHistory(input.to_owned()));
                    proof {
                        assert(effects.deep_view() =~= seq![EffectV::AppendHistory(input@)]);
                    }
                } else {
                    proof {
                        assert(old(self).hist().last() == old(self).history@[
                            old(self).history@.len() - 1
                        ]@);
                        assert(effects.deep_view() =~= Seq::<EffectV>::empty());
                    }
                }
                (LineDisposition::Execute(owned), effects)
            },
            HistoryExpansion::Expanded(e) => {
                let effects: Vec<Effect> = Vec::new();
                proof {
                    assert(effects.deep_view() =~= Seq::<EffectV>::empty());
                }
                (LineDisposition::Redisplay(e), effects)
            },
            HistoryExpansion::EventNotFound(ev) => {
                let effects: Vec<Effect> = Vec::new();
                proof {
                    assert(effects.deep_view() =~= Seq::<EffectV>::empty());
                }
                (LineDisposition::EventNotFound(ev), effects)
            },
        }
    }
}

/// The path of a dot file of the session: under the home directory when it
/// exists, under the working directory otherwise.
pub fn dot_file_path(home: &str, home_exists: bool, pwd: &str, name: &str) -> (r: String)
    ensures
        r@ == (if home_exists {
            home@
        } else {
            pwd@
        }) + seq!['/'] + name@,
{
    let mut r = if home_exists {
        home.to_owned()
    } else {
        pwd.to_owned()
    };
    r.append("/");
    r.append(name);
    proof {
        assert("/"@ =~= seq!['/']) by {
            reveal_strlit("/");
        }
    }
    r
}

/// The flush plan of one command: what its standard-output buffer does,
/// then what its standard-error buffer does.
pub open spec fn spec_flush(rs: Seq<RedirectV>, out: Seq<char>, err: Seq<char>) -> Seq<EffectV> {
    fd_flush_plan(rs, crate::STDOUT, out) + fd_flush_plan(rs, crate::STDERR, err)
}

/// Whether two strings hold the same characters.
pub fn str_eq_str(a: &str, b: &str) -> (r: bool)
    ensures
        r == (a@ == b@),
{
    let ao = a.to_owned();
    let bo = b.to_owned();
    ao.eq(&bo)
}

/// Clones a list of strings, value for value.
pub fn clone_strings(v: &Vec<String>) -> (c: Vec<String>)
    ensures
        c.deep_view() == v.deep_view(),
{
    let mut c: Vec<String> = Vec::new();
    let mut i: usize = 0;
    while i < v.len()
        invariant
            i <= v@.len(),
            c@.len() == i,
            forall|k: int| 0 <= k < i ==> (#[trigger] c@[k])@ == v@[k]@,
        decreases v@.len() - i,
    {
        c.push(v[i].clone());
        i = i + 1;
    }
    proof {
        assert forall|k: int| 0 <= k < v@.len() implies c.deep_view()[k] == v.deep_view()[k] by {
            assert(c@[k]@ == v@[k]@);
        }
        assert(c.deep_view() =~= v.deep_view());
    }
    c
}

/// Clones a list of name/value pairs, value for value.
pub fn clone_pairs(v: &Vec<(String, String)>) -> (c: Vec<(String, String)>)
    ensures
        c.deep_view() == v.deep_view(),
{
    let mut c: Vec<(String, String)> = Vec::new();
    let mut i: usize = 0;
    while i < v.len()
        invariant
            i <= v@.len(),
            c@.len() == i,
            forall|k: int|
                0 <= k < i ==> (#[trigger] c@[k]).0@ == v@[k].0@ && c@[k].1@ == v@[k].1@,
        decreases v@.len() - i,
    {
        c.push((v[i].0.clone(), v[i].1.clone()));
        i = i + 1;
    }
    proof {
        assert forall|k: int| 0 <= k < v@.len() implies c.deep_view()[k] == v.deep_view()[k] by {
            assert(c@[k].0@ == v@[k].0@ && c@[k].1@ == v@[k].1@);
        }
        assert(c.deep_view() =~= v.deep_view());
    }
    c
}

/// The position of the first `c` in `s`, if any.
pub open spec fn spec_first_index(s: Seq<char>, c: char) -> Option<int> {
    if exists|i: int| 0 <= i < s.len() && s[i] == c {
        Some(
            choose|i: int|
                0 <= i < s.len() && s[i] == c && forall|j: int| 0 <= j < i ==> s[j] != c,
        )
    } else {
        None
    }
}

/// `s` split at its first `c`: the parts before and after it, if one is
/// there at all.
pub open spec fn spec_split_once(s: Seq<char>, c: char) -> Option<(Seq<char>, Seq<char>)> {
    match spec_first_index(s, c) {
        Some(i) => Some((s.subrange(0, i), s.subrange(i + 1, s.len() as int))),
        None => None,
    }
}

/// Splits a string at its first `c`, exactly as `spec_split_once` lays it
/// out.
pub fn split_once_char(s: &str, c: char) -> (r: Option<(String, String)>)
    ensures
        match r {
            Some(kv) => spec_split_once(s@, c) == Some((kv.0@, kv.1@)),
            None => spec_split_once(s@, c) is None,
        },
{
    let chars = str_to_chars(s);
    let mut i: usize = 0;
    while i < chars.len()
        invariant
            chars@ == s@,
            i <= s@.len(),
            forall|j: int| 0 <= j < i ==> s@[j] != c,
        decreases s@.len() - i,
    {
        if chars[i] == c {
            proof {
                let w = choose|w: int|
                    0 <= w < s@.len() && s@[w] == c && forall|j: int| 0 <= j < w ==> s@[j] != c;
                assert(s@[i as int] == c);
                if w < i {
                    assert(s@[w] != c);
                }
                if i < w {
                    assert(s@[i as int] != c);
                }
                assert(spec_first_index(s@, c) == Some(i as int));
            }
            let mut before: Vec<char> = Vec::new();
            let mut a: usize = 0;
            while a < i
                invariant
                    a <= i <= chars@.len(),
                    chars@ == s@,
                    before@ == s@.subrange(0, a as int),
                decreases i - a,
            {
                before.push(chars[a]);
                a = a + 1;
                proof {
                    assert(before@ =~= s@.subrange(0, a as int));
                }
            }
            let mut after: Vec<char> = Vec::new();
            let mut b: usize = i + 1;
            while b < chars.len()
                invariant
                    i + 1 <= b <= chars@.len(),
                    chars@ == s@,
                    after@ == s@.subrange(i + 1, b as int),
                decreases chars@.len() - b,
            {
                after.push(chars[b]);
                b = b + 1;
                proof {
                    assert(after@ =~= s@.subrange(i + 1, b as int));
                }
            }
            proof {
                assert(after@ =~= s@.subrange(i + 1, s@.len() as int));
            }
            return Some((chars_to_string(&before), chars_to_string(&after)));
        }
        i = i + 1;
    }
    proof {
        if exists|w: int| 0 <= w < s@.len() && s@[w] == c {
            let w = choose|w: int| 0 <= w < s@.len() && s@[w] == c;
            assert(s@[w] != c);
        }
        assert(spec_first_index(s@, c) is None);
    }
    None
}

/// The running outcome of a variable builtin: the two mappings, what has
/// been printed, and which environment changes the bridge is told of.
#[verifier::ext_equal]
pub struct EnvOutcome {
    pub vars: Map<Seq<char>, Seq<char>>,
    pub env: Map<Seq<char>, Seq<char>>,
    pub out: Seq<char>,
    pub notes: Seq<EffectV>,
}

/// One `unset` argument: `PWD` and `HOME` are refused with a notice; any
/// other name leaves both tables, and the bridge hears of it when it was in
/// the environment.
pub open spec fn unset_step(o: EnvOutcome, arg: Seq<char>) -> EnvOutcome {
    if arg == "PWD"@ || arg == "HOME"@ {
        EnvOutcome { out: o.out + "unset: cannot unset "@ + arg + seq!['\n'], ..o }
    } else if o.env.dom().contains(arg) {
        EnvOutcome {
            vars: o.vars.remove(arg),
            env: o.env.remove(arg),
            notes: o.notes.push(EffectV::NotifyEnv(arg, None)),
            ..o
        }
    } else {
        EnvOutcome { vars: o.vars.remove(arg), ..o }
    }
}

/// `unset` over all its arguments, in order.
pub open spec fn unset_fold(args: Seq<Seq<char>>, o: EnvOutcome) -> EnvOutcome
    decreases args.len(),
{
    if args.len() == 0 {
        o
    } else {
        unset_fold(args.drop_first(), unset_step(o, args[0]))
    }
}

/// One `export` argument: `K=V` sets the environment entry directly; a bare
/// name promotes the local variable of that name, or exports an empty value
/// when there is none. The promoted or set name always leaves the local
/// table, and the bridge hears of every change.
pub open spec fn export_step(o: EnvOutcome, arg: Seq<char>) -> EnvOutcome {
    match spec_split_once(arg, '=') {
        Some(kv) => EnvOutcome {
            vars: o.vars.remove(kv.0),
            env: o.env.insert(kv.0, kv.1),
            notes: o.notes.push(EffectV::NotifyEnv(kv.0, Some(kv.1))),
            ..o
        },
        None => if o.vars.dom().contains(arg) {
            EnvOutcome {
                vars: o.vars.remove(arg),
                env: o.env.insert(arg, o.vars[arg]),
                notes: o.notes.push(EffectV::NotifyEnv(arg, Some(o.vars[arg]))),
                ..o
            }
        } else {
            EnvOutcome {
                env: o.env.insert(arg, Seq::empty()),
                notes: o.notes.push(EffectV::NotifyEnv(arg, Some(Seq::empty()))),
                ..o
            }
        },
    }
}

/// `export` over all its arguments, in order.
pub open spec fn export_fold(args: Seq<Seq<char>>, o: EnvOutcome) -> EnvOutcome
    decreases args.len(),
{
    if args.len() == 0 {
        o
    } else {
        export_fold(args.drop_first(), export_step(o, args[0]))
    }
}

/// One `declare -x` argument: an assignment is exported; anything else is
/// left alone.
pub open spec fn declare_export_step(o: EnvOutcome, arg: Seq<char>) -> EnvOutcome {
    match spec_split_once(arg, '=') {
        Some(kv) => EnvOutcome {
            env: o.env.insert(kv.0, kv.1),
            notes: o.notes.push(EffectV::NotifyEnv(kv.0, Some(kv.1))),
            ..o
        },
        None => o,
    }
}

/// `declare -x` over the arguments after the flag, in order.
pub open spec fn declare_export_fold(args: Seq<Seq<char>>, o: EnvOutcome) -> EnvOutcome
    decreases args.len(),
{
    if args.len() == 0 {
        o
    } else {
        declare_export_fold(args.drop_first(), declare_export_step(o, args[0]))
    }
}

/// One `declare +x` argument: an assignment, or the name of an environment
/// entry, becomes local only, and the bridge hears that the environment
/// entry is gone. A bare name with no environment entry is left alone.
pub open spec fn declare_demote_step(o: EnvOutcome, arg: Seq<char>) -> EnvOutcome {
    match spec_split_once(arg, '=') {
        Some(kv) => EnvOutcome {
            vars: o.vars.insert(kv.0, kv.1),
            env: o.env.remove(kv.0),
            notes: o.notes.push(EffectV::NotifyEnv(kv.0, None)),
            ..o
        },
        None => if o.env.dom().contains(arg) {
            EnvOutcome {
                vars: o.vars.insert(arg, o.env[arg]),
                env: o.env.remove(arg),
                notes: o.notes.push(EffectV::NotifyEnv(arg, None)),
                ..o
            }
        } else {
            o
        },
    }
}

/// `declare +x` over the arguments after the flag, in order.
pub open spec fn declare_demote_fold(args: Seq<Seq<char>>, o: EnvOutcome) -> EnvOutcome
    decreases args.len(),
{
    if args.len() == 0 {
        o
    } else {
        declare_demote_fold(args.drop_first(), declare_demote_step(o, args[0]))
    }
}

/// One plain `declare` argument: an assignment becomes a local variable;
/// anything else is left alone.
pub open spec fn declare_local_step(o: EnvOutcome, arg: Seq<char>) -> EnvOutcome {
    match spec_split_once(arg, '=') {
        Some(kv) => EnvOutcome { vars: o.vars.insert(kv.0, kv.1), ..o },
        None => o,
    }
}

/// Plain `declare` over all its arguments, in order.
pub open spec fn declare_local_fold(args: Seq<Seq<char>>, o: EnvOutcome) -> EnvOutcome
    decreases args.len(),
{
    if args.len() == 0 {
        o
    } else {
        declare_local_fold(args.drop_first(), declare_local_step(o, args[0]))
    }
}

/// The first `n` entries of a table listing, one `name=value` line each.
pub open spec fn pairs_lines(ps: Seq<(Seq<char>, Seq<char>)>, n: int) -> Seq<char>
    decreases n,
{
    if n <= 0 {
        Seq::empty()
    } else {
        pairs_lines(ps, n - 1) + ps[n - 1].0 + seq!['='] + ps[n - 1].1 + seq!['\n']
    }
}

/// The first `n` history entries listed with their one-based indices.
pub open spec fn hist_lines(h: Seq<Seq<char>>, n: int) -> Seq<char>
    decreases n,
{
    if n <= 0 {
        Seq::empty()
    } else {
        hist_lines(h, n - 1) + spec_dec(n as nat) + ": "@ + h[n - 1] + seq!['\n']
    }
}

/// Where an external command may be found: an absolute name as it stands, a
/// dot-relative name against the working directory, and any other name in
/// each directory of the search path, in path order.
pub open spec fn spec_candidates(cmd: Seq<char>, pwd: Seq<char>, path: Seq<char>) -> Seq<
    Seq<char>,
> {
    if cmd.len() > 0 && cmd[0] == '/' {
        seq![cmd]
    } else if cmd.len() > 0 && cmd[0] == '.' {
        seq![spec_join_path(pwd, cmd)]
    } else {
        crate::text::spec_split(path, ':').map_values(
            |d: Seq<char>|
                if d.len() == 0 {
                    cmd
                } else {
                    spec_join_path(d, cmd)
                },
        )
    }
}

/// The escape sequence that clears the terminal.
pub const CLEAR_ESCAPE_CODE: &'static str = "\u{1b}[2J\u{1b}[H";

/// One request to run an external unit: its argument vector (the program
/// first), the environment overlay, the background flag and the
/// redirections to apply.
pub struct SpawnRequest {
    pub args: Vec<String>,
    pub env: Vec<(String, String)>,
    pub background: bool,
    pub redirects: Vec<Redirect>,
}

/// One question the session asks its host mid-command. The host answers
/// with the matching `Answer` and hands it to `resume_command`.
pub enum Query {
    /// Whether the path exists, whether it names a directory, and its
    /// canonical absolute form.
    PathInfo(String),
    /// The first of the candidate paths that names an existing file.
    FindExecutable(Vec<String>),
    /// The first line of the file, when the file starts with valid text.
    ReadFirstLine(String),
    /// The whole contents of the file, if it can be read.
    ReadFileBytes(String),
    /// Write the text to the file, truncating it; on failure the answer
    /// carries the error text.
    WriteFile((String, String)),
    /// Run the unit, waiting for it unless it is in the background.
    Spawn(SpawnRequest),
    /// Run the named file as a script in the current session.
    RunScript(String),
    /// Suspend the session for the given number of seconds.
    Sleep(u64),
}

/// The host's reply to one `Query`, of the matching kind.
pub enum Answer {
    Path { exists: bool, is_dir: bool, canonical: String },
    Found(Option<String>),
    MaybeLine(Option<String>),
    MaybeBytes(Option<Vec<u8>>),
    WriteResult(Option<String>),
    Code(i32),
    Unit,
}

/// Where a suspended command stands: its output device and whatever it
/// needs to go on once the answer is in.
pub enum ExecCont {
    Cd { device: OutputDevice, target: String },
    WritePending { device: OutputDevice, filename: String },
    HexdumpPending { device: OutputDevice },
    SourcePending { device: OutputDevice },
    SleepPending { device: OutputDevice },
    FindPending {
        device: OutputDevice,
        missing: String,
        args: Vec<String>,
        envp: Vec<(String, String)>,
        background: bool,
        redirects: Vec<Redirect>,
    },
    ShebangPending {
        device: OutputDevice,
        path: String,
        args: Vec<String>,
        envp: Vec<(String, String)>,
        background: bool,
        redirects: Vec<Redirect>,
    },
    SpawnPending { device: OutputDevice },
}

/// What one step of a command leaves the host to do: carry out the effects
/// and answer the query, carry out the effects of a finished command, or
/// end the whole process at once, flushing nothing.
pub enum ExecStep {
    Need(Vec<Effect>, Query, ExecCont),
    Done(Vec<Effect>, i32),
    Exit(i32),
}

/// The device of a suspended command.
pub open spec fn cont_device(c: ExecCont) -> OutputDevice {
    match c {
        ExecCont::Cd { device, .. } => device,
        ExecCont::WritePending { device, .. } => device,
        ExecCont::HexdumpPending { device, .. } => device,
        ExecCont::SourcePending { device, .. } => device,
        ExecCont::SleepPending { device, .. } => device,
        ExecCont::FindPending { device, .. } => device,
        ExecCont::ShebangPending { device, .. } => device,
        ExecCont::SpawnPending { device, .. } => device,
    }
}

/// Everything of the session but the last exit status is the same.
pub open spec fn core_same(a: Shell, b: Shell) -> bool {
    a.pwd == b.pwd && a.vars == b.vars && a.env == b.env && a.pid == b.pid && a.history
        == b.history && a.should_echo == b.should_echo
}

/// The step finished with status `st`, its effects the notes and then the
/// flush of a device holding `out` and `err` routed by `reds`.
pub open spec fn done_with(
    r: ExecStep,
    notes: Seq<EffectV>,
    reds: Seq<RedirectV>,
    out: Seq<char>,
    err: Seq<char>,
    st: i32,
) -> bool {
    &&& r matches ExecStep::Done(effects, s) && s == st && effects.deep_view() == notes
        + spec_flush(reds, out, err)
}

/// A device with empty buffers routing by `reds`.
pub open spec fn fresh_device(d: OutputDevice, reds: Seq<RedirectV>) -> bool {
    d.reds() == reds && d.out() == Seq::<char>::empty() && d.err() == Seq::<char>::empty()
}

/// The starting outcome of a variable builtin in session `pre`.
pub open spec fn env_init(pre: Shell) -> EnvOutcome {
    EnvOutcome {
        vars: pre.vmap(),
        env: pre.emap(),
        out: Seq::empty(),
        notes: Seq::empty(),
    }
}

/// The session after a variable builtin whose outcome is `o`: the two
/// mappings are `o`'s and everything else stands.
pub open spec fn env_outcome_applied(pre: Shell, post: Shell, o: EnvOutcome) -> bool {
    &&& post.vmap() == o.vars
    &&& post.emap() == o.env
    &&& post.wf()
    &&& post.pwd == pre.pwd
    &&& post.pid == pre.pid
    &&& post.history == pre.history
    &&& post.should_echo == pre.should_echo
}

/// The message a failed resolution of an external command prints: absolute
/// and dot-relative names that name no file, and other names found in no
/// search directory.
pub open spec fn spec_missing(cmd: Seq<char>, pwd: Seq<char>) -> Seq<char> {
    if cmd.len() > 0 && cmd[0] == '/' {
        cmd + ": no such file or directory"@
    } else if cmd.len() > 0 && cmd[0] == '.' {
        spec_join_path(pwd, cmd) + ": no such file or directory"@
    } else {
        cmd + ": command not found"@
    }
}

/// The search path the session resolves external commands against.
pub open spec fn spec_path_of(pre: Shell) -> Seq<char> {
    if pre.emap().dom().contains("PATH"@) {
        pre.emap()["PATH"@]
    } else {
        Seq::empty()
    }
}

/// What `execute_command` leaves behind, command by command, for session
/// `pre` becoming `post` with step `r`: the dispatch contract of the
/// execution engine.
pub open spec fn exec_post(
    pre: Shell,
    post: Shell,
    command: Seq<char>,
    args: Seq<Seq<char>>,
    envp: Seq<(Seq<char>, Seq<char>)>,
    background: bool,
    reds: Seq<RedirectV>,
    r: ExecStep,
) -> bool {
    if command == "clear"@ {
        &&& core_same(pre, post)
        &&& post.last_exit_status == crate::EXIT_SUCCESS
        &&& done_with(r, Seq::empty(), reds, CLEAR_ESCAPE_CODE@, Seq::empty(), crate::EXIT_SUCCESS)
    } else if command == "exit"@ {
        if args.len() == 0 {
            &&& post == pre
            &&& r matches ExecStep::Exit(c) && c == crate::EXIT_SUCCESS
        } else {
            match crate::text::spec_parse_i32(args[0]) {
                Some(v) => {
                    &&& post == pre
                    &&& r matches ExecStep::Exit(c) && c == v
                },
                None => {
                    &&& core_same(pre, post)
                    &&& post.last_exit_status == crate::EXIT_FAILURE
                    &&& done_with(
                        r,
                        Seq::empty(),
                        reds,
                        Seq::empty(),
                        "exit: invalid exit code `"@ + args[0] + "`"@ + seq!['\n'],
                        crate::EXIT_FAILURE,
                    )
                },
            }
        }
    } else if command == "pwd"@ {
        &&& core_same(pre, post)
        &&& post.last_exit_status == crate::EXIT_SUCCESS
        &&& done_with(
            r,
            Seq::empty(),
            reds,
            pre.pwd@ + seq!['\n'],
            Seq::empty(),
            crate::EXIT_SUCCESS,
        )
    } else if command == "cd"@ {
        match cd_target(args, pre.emap(), pre.pwd@) {
            Ok(t) => {
                &&& post == pre
                &&& r matches ExecStep::Need(effects, q, cont)
                &&& effects.deep_view() == Seq::<EffectV>::empty()
                &&& q matches Query::PathInfo(tt) && tt@ == t
                &&& cont matches ExecCont::Cd { device, target } && fresh_device(device, reds)
                    && target@ == t
            },
            Err(var) => {
                &&& core_same(pre, post)
                &&& post.last_exit_status == crate::EXIT_FAILURE
                &&& done_with(
                    r,
                    Seq::empty(),
                    reds,
                    Seq::empty(),
                    "cd: "@ + var + " not set"@ + seq!['\n'],
                    crate::EXIT_FAILURE,
                )
            },
        }
    } else if command == "history"@ {
        &&& core_same(pre, post)
        &&& post.last_exit_status == crate::EXIT_SUCCESS
        &&& done_with(
            r,
            Seq::empty(),
            reds,
            hist_lines(pre.hist(), pre.hist().len() as int),
            Seq::empty(),
            crate::EXIT_SUCCESS,
        )
    } else if command == "unset"@ {
        if args.len() == 0 {
            &&& core_same(pre, post)
            &&& post.last_exit_status == crate::EXIT_FAILURE
            &&& done_with(
                r,
                Seq::empty(),
                reds,
                Seq::empty(),
                "unset: help: unset <VAR> [<VAR>] ..."@ + seq!['\n'],
                crate::EXIT_FAILURE,
            )
        } else {
            let o = unset_fold(args, env_init(pre));
            &&& env_outcome_applied(pre, post, o)
            &&& post.last_exit_status == crate::EXIT_SUCCESS
            &&& done_with(r, o.notes, reds, o.out, Seq::empty(), crate::EXIT_SUCCESS)
        }
    } else if command == "declare"@ {
        if args.len() == 0 {
            &&& core_same(pre, post)
            &&& post.last_exit_status == crate::EXIT_SUCCESS
            &&& done_with(
                r,
                Seq::empty(),
                reds,
                pairs_lines(pre.vars.pairs(), pre.vars.pairs().len() as int) + pairs_lines(
                    pre.env.pairs(),
                    pre.env.pairs().len() as int,
                ),
                Seq::empty(),
                crate::EXIT_SUCCESS,
            )
        } else {
            let o = if args[0] == "-x"@ {
                declare_export_fold(args.drop_first(), env_init(pre))
            } else if args[0] == "+x"@ {
                declare_demote_fold(args.drop_first(), env_init(pre))
            } else {
                declare_local_fold(args, env_init(pre))
            };
            &&& env_outcome_applied(pre, post, o)
            &&& post.last_exit_status == crate::EXIT_SUCCESS
            &&& done_with(r, o.notes, reds, o.out, Seq::empty(), crate::EXIT_SUCCESS)
        }
    } else if command == "export"@ {
        if args.len() == 0 {
            &&& core_same(pre, post)
            &&& post.last_exit_status == crate::EXIT_FAILURE
            &&& done_with(
                r,
                Seq::empty(),
                reds,
                Seq::empty(),
                "export: help: export <VAR>[=<VALUE>] [<VAR>[=<VALUE>]] ..."@ + seq!['\n'],
                crate::EXIT_FAILURE,
            )
        } else {
            let o = export_fold(args, env_init(pre));
            &&& env_outcome_applied(pre, post, o)
            &&& post.last_exit_status == crate::EXIT_SUCCESS
            &&& done_with(r, o.notes, reds, o.out, Seq::empty(), crate::EXIT_SUCCESS)
        }
    } else if command == "source"@ {
        if args.len() == 0 {
            &&& core_same(pre, post)
            &&& post.last_exit_status == crate::EXIT_FAILURE
            &&& done_with(
                r,
                Seq::empty(),
                reds,
                Seq::empty(),
                "source: help: source <filename>"@ + seq!['\n'],
                crate::EXIT_FAILURE,
            )
        } else {
            &&& post == pre
            &&& r matches ExecStep::Need(effects, q, cont)
            &&& effects.deep_view() == Seq::<EffectV>::empty()
            &&& q matches Query::RunScript(f) && f@ == args[0]
            &&& cont matches ExecCont::SourcePending { device } && fresh_device(device, reds)
        }
    } else if command == "write"@ {
        if args.len() < 2 {
            &&& core_same(pre, post)
            &&& post.last_exit_status == crate::EXIT_FAILURE
            &&& done_with(
                r,
                Seq::empty(),
                reds,
                Seq::empty(),
                "write: help: write <filename> <contents>"@ + seq!['\n'],
                crate::EXIT_FAILURE,
            )
        } else {
            &&& post == pre
            &&& r matches ExecStep::Need(effects, q, cont)
            &&& effects.deep_view() == Seq::<EffectV>::empty()
            &&& q matches Query::WriteFile(fc) && fc.0@ == args[0] && fc.1@ == spec_join(
                args.drop_first(),
                seq![' '],
            )
            &&& cont matches ExecCont::WritePending { device, filename } && fresh_device(
                device,
                reds,
            ) && filename@ == args[0]
        }
    } else if command == "imgcat"@ {
        if args.len() == 0 {
            &&& core_same(pre, post)
            &&& post.last_exit_status == crate::EXIT_FAILURE
            &&& done_with(
                r,
                Seq::empty(),
                reds,
                Seq::empty(),
                "usage: imgcat <IMAGE>"@ + seq!['\n'],
                crate::EXIT_FAILURE,
            )
        } else {
            &&& core_same(pre, post)
            &&& post.last_exit_status == crate::EXIT_SUCCESS
            &&& done_with(
                r,
                seq![EffectV::ShowImage(args[0])],
                reds,
                Seq::empty(),
                Seq::empty(),
                crate::EXIT_SUCCESS,
            )
        }
    } else if command == "unzip"@ {
        if args.len() == 0 {
            &&& core_same(pre, post)
            &&& post.last_exit_status == crate::EXIT_FAILURE
            &&& done_with(
                r,
                Seq::empty(),
                reds,
                Seq::empty(),
                "unzip: missing operand"@ + seq!['\n'],
                crate::EXIT_FAILURE,
            )
        } else {
            &&& core_same(pre, post)
            &&& post.last_exit_status == crate::EXIT_SUCCESS
            &&& done_with(
                r,
                seq![EffectV::ExtractArchive(args[0])],
                reds,
                Seq::empty(),
                Seq::empty(),
                crate::EXIT_SUCCESS,
            )
        }
    } else if command == "sleep"@ {
        if args.len() == 0 {
            &&& core_same(pre, post)
            &&& post.last_exit_status == crate::EXIT_FAILURE
            &&& done_with(
                r,
                Seq::empty(),
                reds,
                Seq::empty(),
                "sleep: missing operand"@ + seq!['\n'],
                crate::EXIT_FAILURE,
            )
        } else {
            match crate::text::spec_parse_u64(args[0]) {
                Some(n) => {
                    &&& post == pre
                    &&& r matches ExecStep::Need(effects, q, cont)
                    &&& effects.deep_view() == Seq::<EffectV>::empty()
                    &&& q matches Query::Sleep(m) && m == n
                    &&& cont matches ExecCont::SleepPending { device } && fresh_device(
                        device,
                        reds,
                    )
                },
                None => {
                    &&& core_same(pre, post)
                    &&& post.last_exit_status == crate::EXIT_FAILURE
                    &&& done_with(
                        r,
                        Seq::empty(),
                        reds,
                        Seq::empty(),
                        "sleep: invalid time interval `"@ + args[0] + "`"@ + seq!['\n'],
                        crate::EXIT_FAILURE,
                    )
                },
            }
        }
    } else if command == "hexdump"@ {
        if args.len() == 0 {
            &&& core_same(pre, post)
            &&& post.last_exit_status == crate::EXIT_FAILURE
            &&& done_with(
                r,
                Seq::empty(),
                reds,
                Seq::empty(),
                "hexdump: help: hexdump <filename>"@ + seq!['\n'],
                crate::EXIT_FAILURE,
            )
        } else {
            &&& post == pre
            &&& r matches ExecStep::Need(effects, q, cont)
            &&& effects.deep_view() == Seq::<EffectV>::empty()
            &&& q matches Query::ReadFileBytes(f) && f@ == args[0]
            &&& cont matches ExecCont::HexdumpPending { device } && fresh_device(device, reds)
        }
    } else {
        &&& post == pre
        &&& r matches ExecStep::Need(effects, q, cont)
        &&& effects.deep_view() == Seq::<EffectV>::empty()
        &&& q matches Query::FindExecutable(c) && c.deep_view() == spec_candidates(
            command,
            pre.pwd@,
            spec_path_of(pre),
        )
        &&& cont matches ExecCont::FindPending {
            device,
            missing,
            args: a2,
            envp: e2,
            background: b2,
            redirects: r2,
        } && fresh_device(device, reds) && missing@ == spec_missing(command, pre.pwd@)
            && a2.deep_view() == args && e2.deep_view() == envp && b2 == background
            && r2.deep_view() == reds
    }
}

/// A relative path joined to a base with a single separator, exactly as
/// `spec_join_path` lays it out.
pub fn join_path(base: &str, rel: &str) -> (r: String)
    ensures
        r@ == spec_join_path(base@, rel@),
{
    let bchars = str_to_chars(base);
    let mut r = base.to_owned();
    if bchars.len() > 0 && bchars[bchars.len() - 1] == '/' {
        r.append(rel);
    } else {
        r.append("/");
        r.append(rel);
        proof {
            assert("/"@ =~= seq!['/']) by {
                reveal_strlit("/");
            }
        }
    }
    r
}

impl Shell {
    /// Ends a command: the effects so far, then the device's flush plan, and
    /// the status recorded as the session's last.
    fn finish(&mut self, pre_effects: Vec<Effect>, device: &OutputDevice, status: i32) -> (r:
        ExecStep)
        ensures
            final(self).last_exit_status == status,
            core_same(*old(self), *final(self)),
            done_with(
                r,
                pre_effects.deep_view(),
                device.reds(),
                device.out(),
                device.err(),
                status,
            ),
    {
        let ghost p1 = pre_effects.deep_view();
        let mut effects = pre_effects;
        let mut plan = device.flush();
        let ghost v1 = effects@;
        let ghost v2 = plan@;
        let ghost p2 = plan.deep_view();
        effects.append(&mut plan);
        proof {
            assert(effects@ == v1 + v2);
            assert forall|k: int| 0 <= k < effects@.len() implies effects.deep_view()[k] == (p1
                + p2)[k] by {
                if k < v1.len() {
                    assert(effects@[k] == v1[k]);
                } else {
                    assert(effects@[k] == v2[k - v1.len()]);
                }
            }
            assert(effects.deep_view() =~= p1 + p2);
        }
        self.last_exit_status = status;
        ExecStep::Done(effects, status)
    }

    /// Dispatches one resolved command: the built-ins are carried out here,
    /// against the session state and the output device, and anything else
    /// becomes a search for an external unit. The whole behavior, command by
    /// command, is `exec_post`.
    #[verifier::rlimit(100)]
    pub fn execute_command(
        &mut self,
        command: &str,
        args: &Vec<String>,
        env: &Vec<(String, String)>,
        background: bool,
        redirects: &Vec<Redirect>,
    ) -> (r: ExecStep)
        requires
            old(self).wf(),
        ensures
            final(self).wf(),
            exec_post(
                *old(self),
                *final(self),
                command@,
                args.deep_view(),
                env.deep_view(),
                background,
                redirects.deep_view(),
                r,
            ),
    {
        let ghost argsv = args.deep_view();
        let ghost reds = redirects.deep_view();
        let no_effects: Vec<Effect> = Vec::new();
        proof {
            assert(no_effects.deep_view() =~= Seq::<EffectV>::empty());
        }
        let mut device = OutputDevice::new(redirects);
        if str_eq_str(command, "clear") {
            device.print(CLEAR_ESCAPE_CODE);
            self.finish(no_effects, &device, crate::EXIT_SUCCESS)
        } else if str_eq_str(command, "exit") {
            if args.len() == 0 {
                ExecStep::Exit(crate::EXIT_SUCCESS)
            } else {
                let chars = str_to_chars(args[0].as_str());
                match parse_i32(&chars) {
                    Some(v) => ExecStep::Exit(v),
                    None => {
                        device.eprint("exit: invalid exit code `");
                        device.eprint(args[0].as_str());
                        device.eprintln("`");
                        self.finish(no_effects, &device, crate::EXIT_FAILURE)
                    },
                }
            }
        } else if str_eq_str(command, "pwd") {
            let p = self.pwd.clone();
            device.println(p.as_str());
            self.finish(no_effects, &device, crate::EXIT_SUCCESS)
        } else if str_eq_str(command, "cd") {
            let target: Result<String, &'static str> = if args.len() == 0 {
                match self.env.get("HOME") {
                    Some(t) => Ok(t),
                    None => Err("HOME"),
                }
            } else if str_eq_str(args[0].as_str(), "-") {
                match self.env.get("OLDPWD") {
                    Some(t) => Ok(t),
                    None => Err("OLDPWD"),
                }
            } else {
                let c0 = str_to_chars(args[0].as_str());
                if c0.len() > 0 && c0[0] == '/' {
                    Ok(args[0].clone())
                } else {
                    Ok(join_path(self.pwd.as_str(), args[0].as_str()))
                }
            };
            match target {
                Ok(t) => {
                    proof {
                        assert(cd_target(argsv, self.emap(), self.pwd@) == Ok::<Seq<char>, Seq<char>>(
                            t@,
                        ));
                    }
                    ExecStep::Need(
                        no_effects,
                        Query::PathInfo(t.clone()),
                        ExecCont::Cd { device, target: t },
                    )
                },
                Err(var) => {
                    device.eprint("cd: ");
                    device.eprint(var);
                    device.eprintln(" not set");
                    self.finish(no_effects, &device, crate::EXIT_FAILURE)
                },
            }
        } else if str_eq_str(command, "history") {
            let ghost h = self.hist();
            let n = self.history.len();
            let mut i: usize = 0;
            while i < n
                invariant
                    h == self.hist(),
                    n == h.len(),
                    i <= n,
                    device.out() == hist_lines(h, i as int),
                    device.err() == Seq::<char>::empty(),
                    device.reds() == reds,
                decreases n - i,
            {
                let line = u64_to_string((i as u64) + 1);
                device.print(line.as_str());
                device.print(": ");
                device.println(self.history[i].as_str());
                i = i + 1;
                proof {
                    assert(h[i - 1] == self.history@[i - 1]@);
                    assert(device.out() =~= hist_lines(h, i as int));
                }
            }
            self.finish(no_effects, &device, crate::EXIT_SUCCESS)
        } else if str_eq_str(command, "unset") {
            if args.len() == 0 {
                device.eprintln("unset: help: unset <VAR> [<VAR>] ...");
                self.finish(no_effects, &device, crate::EXIT_FAILURE)
            } else {
                let ghost init = env_init(*self);
                let mut notes: Vec<Effect> = Vec::new();
                let mut i: usize = 0;
                proof {
                    assert(notes.deep_view() =~= Seq::<EffectV>::empty());
                    assert(argsv.skip(0) =~= argsv);
                }
                while i < args.len()
                    invariant
                        old(self).wf(),
                        self.wf(),
                        argsv == args.deep_view(),
                        i <= argsv.len(),
                        self.pwd == old(self).pwd,
                        self.pid == old(self).pid,
                        self.history == old(self).history,
                        self.should_echo == old(self).should_echo,
                        self.last_exit_status == old(self).last_exit_status,
                        init == env_init(*old(self)),
                        device.err() == Seq::<char>::empty(),
                        device.reds() == reds,
                        unset_fold(argsv, init) == unset_fold(
                            argsv.skip(i as int),
                            EnvOutcome {
                                vars: self.vmap(),
                                env: self.emap(),
                                out: device.out(),
                                notes: notes.deep_view(),
                            },
                        ),
                    decreases argsv.len() - i,
                {
                    let ghost cur = EnvOutcome {
                        vars: self.vmap(),
                        env: self.emap(),
                        out: device.out(),
                        notes: notes.deep_view(),
                    };
                    let ghost notes0 = notes.deep_view();
                    let ghost notes0v = notes@;
                    let arg = args[i].clone();
                    if str_eq_str(arg.as_str(), "PWD") || str_eq_str(arg.as_str(), "HOME") {
                        let mut msg = "unset: cannot unset ".to_owned();
                        msg.append(arg.as_str());
                        device.println(msg.as_str());
                    } else {
                        let in_env = self.env.contains(arg.as_str());
                        let removed = self.vars.remove(arg.as_str());
                        if in_env {
                            let removed_env = self.env.remove(arg.as_str());
                            notes.push(Effect::NotifyEnv((arg.clone(), None)));
                            proof {
                                assert forall|k: int| 0 <= k < notes@.len() implies notes
                                    .deep_view()[k] == notes0.push(
                                    EffectV::NotifyEnv(arg@, None),
                                )[k] by {
                                    if k < notes0v.len() {
                                        assert(notes@[k] == notes0v[k]);
                                    }
                                }
                                assert(notes.deep_view() =~= notes0.push(
                                    EffectV::NotifyEnv(arg@, None),
                                ));
                            }
                        }
                    }
                    i = i + 1;
                    proof {
                        assert(arg@ == argsv[i - 1]);
                        let now = EnvOutcome {
                            vars: self.vmap(),
                            env: self.emap(),
                            out: device.out(),
                            notes: notes.deep_view(),
                        };
                        assert(now =~= unset_step(cur, argsv[i - 1]));
                            assert(now == unset_step(cur, argsv[i - 1]));
                        assert(argsv.skip(i - 1).drop_first() =~= argsv.skip(i as int));
                        assert(argsv.skip(i - 1)[0] == argsv[i - 1]);
                        assert(unset_fold(argsv.skip(i - 1), cur) == unset_fold(
                            argsv.skip(i as int),
                            now,
                        ));
                    }
                }
                proof {
                    assert(argsv.skip(argsv.len() as int) =~= Seq::<Seq<char>>::empty());
                }
                self.finish(notes, &device, crate::EXIT_SUCCESS)
            }
        } else if str_eq_str(command, "declare") {
            if args.len() == 0 {
                let vn = self.vars.len();
                let mut i: usize = 0;
                while i < vn
                    invariant
                        self.wf(),
                        vn == self.vars.pairs().len(),
                        i <= vn,
                        device.out() == pairs_lines(self.vars.pairs(), i as int),
                        device.err() == Seq::<char>::empty(),
                        device.reds() == reds,
                    decreases vn - i,
                {
                    let e = self.vars.entry_at(i);
                    device.print(e.0.as_str());
                    device.print("=");
                    device.println(e.1.as_str());
                    i = i + 1;
                    proof {
                        assert("="@ =~= seq!['=']) by {
                            reveal_strlit("=");
                        }
                        assert(device.out() =~= pairs_lines(self.vars.pairs(), i as int));
                    }
                }
                let en = self.env.len();
                let mut j: usize = 0;
                while j < en
                    invariant
                        self.wf(),
                        en == self.env.pairs().len(),
                        j <= en,
                        device.out() == pairs_lines(
                            self.vars.pairs(),
                            self.vars.pairs().len() as int,
                        ) + pairs_lines(self.env.pairs(), j as int),
                        device.err() == Seq::<char>::empty(),
                        device.reds() == reds,
                    decreases en - j,
                {
                    let e = self.env.entry_at(j);
                    device.print(e.0.as_str());
                    device.print("=");
                    device.println(e.1.as_str());
                    j = j + 1;
                    proof {
                        assert("="@ =~= seq!['=']) by {
                            reveal_strlit("=");
                        }
                        assert(device.out() =~= pairs_lines(
                            self.vars.pairs(),
                            self.vars.pairs().len() as int,
                        ) + pairs_lines(self.env.pairs(), j as int));
                    }
                }
                self.finish(no_effects, &device, crate::EXIT_SUCCESS)
            } else {
                let flag_export = str_eq_str(args[0].as_str(), "-x");
                let flag_demote = !flag_export && str_eq_str(args[0].as_str(), "+x");
                let ghost init = env_init(*self);
                let mut notes: Vec<Effect> = Vec::new();
                proof {
                    assert(notes.deep_view() =~= Seq::<EffectV>::empty());
                }
                if flag_export || flag_demote {
                    let ghost dargs = argsv.drop_first();
                    let mut i: usize = 1;
                    proof {
                        assert(dargs.skip(0) =~= dargs);
                    }
                    while i < args.len()
                        invariant
                            old(self).wf(),
                            self.wf(),
                            argsv == args.deep_view(),
                            argsv.len() > 0,
                            dargs == argsv.drop_first(),
                            1 <= i <= argsv.len(),
                            self.pwd == old(self).pwd,
                            self.pid == old(self).pid,
                            self.history == old(self).history,
                            self.should_echo == old(self).should_echo,
                            self.last_exit_status == old(self).last_exit_status,
                            init == env_init(*old(self)),
                            device.out() == Seq::<char>::empty(),
                            device.err() == Seq::<char>::empty(),
                            device.reds() == reds,
                            flag_export ==> declare_export_fold(dargs, init)
                                == declare_export_fold(
                                dargs.skip(i - 1),
                                EnvOutcome {
                                    vars: self.vmap(),
                                    env: self.emap(),
                                    out: Seq::empty(),
                                    notes: notes.deep_view(),
                                },
                            ),
                            !flag_export ==> declare_demote_fold(dargs, init)
                                == declare_demote_fold(
                                dargs.skip(i - 1),
                                EnvOutcome {
                                    vars: self.vmap(),
                                    env: self.emap(),
                                    out: Seq::empty(),
                                    notes: notes.deep_view(),
                                },
                            ),
                        decreases argsv.len() - i,
                    {
                        let ghost cur = EnvOutcome {
                            vars: self.vmap(),
                            env: self.emap(),
                            out: Seq::empty(),
                            notes: notes.deep_view(),
                        };
                        let ghost notes0 = notes.deep_view();
                        let ghost notes0v = notes@;
                        let arg = args[i].clone();
                        if flag_export {
                            match split_once_char(arg.as_str(), '=') {
                                Some(kv) => {
                                    self.env.set(kv.0.as_str(), kv.1.as_str());
                                    notes.push(
                                        Effect::NotifyEnv((kv.0.clone(), Some(kv.1.clone()))),
                                    );
                                    proof {
                                        assert forall|k: int|
                                            0 <= k < notes@.len() implies notes.deep_view()[k]
                                            == notes0.push(
                                            EffectV::NotifyEnv(kv.0@, Some(kv.1@)),
                                        )[k] by {
                                            if k < notes0v.len() {
                                                assert(notes@[k] == notes0v[k]);
                                            }
                                        }
                                        assert(notes.deep_view() =~= notes0.push(
                                            EffectV::NotifyEnv(kv.0@, Some(kv.1@)),
                                        ));
                                    }
                                },
                                None => {},
                            }
                        } else {
                            match split_once_char(arg.as_str(), '=') {
                                Some(kv) => {
                                    self.vars.set(kv.0.as_str(), kv.1.as_str());
                                    let removed = self.env.remove(kv.0.as_str());
                                    notes.push(Effect::NotifyEnv((kv.0.clone(), None)));
                                    proof {
                                        assert forall|k: int|
                                            0 <= k < notes@.len() implies notes.deep_view()[k]
                                            == notes0.push(EffectV::NotifyEnv(kv.0@, None))[k] by {
                                            if k < notes0v.len() {
                                                assert(notes@[k] == notes0v[k]);
                                            }
                                        }
                                        assert(notes.deep_view() =~= notes0.push(
                                            EffectV::NotifyEnv(kv.0@, None),
                                        ));
                                    }
                                },
                                None => {
                                    match self.env.remove(arg.as_str()) {
                                        Some(v) => {
                                            self.vars.set(arg.as_str(), v.as_str());
                                            notes.push(Effect::NotifyEnv((arg.clone(), None)));
                                            proof {
                                                assert forall|k: int|
                                                    0 <= k < notes@.len() implies notes
                                                    .deep_view()[k] == notes0.push(
                                                    EffectV::NotifyEnv(arg@, None),
                                                )[k] by {
                                                    if k < notes0v.len() {
                                                        assert(notes@[k] == notes0v[k]);
                                                    }
                                                }
                                                assert(notes.deep_view() =~= notes0.push(
                                                    EffectV::NotifyEnv(arg@, None),
                                                ));
                                            }
                                        },
                                        None => {},
                                    }
                                },
                            }
                        }
                        i = i + 1;
                        proof {
                            assert(arg@ == argsv[i - 1]);
                            assert(dargs[i - 2] == argsv[i - 1]);
                            let now = EnvOutcome {
                                vars: self.vmap(),
                                env: self.emap(),
                                out: Seq::empty(),
                                notes: notes.deep_view(),
                            };
                            assert(dargs.skip(i - 2).drop_first() =~= dargs.skip(i - 1));
                            assert(dargs.skip(i - 2)[0] == dargs[i - 2]);
                            if flag_export {
                                assert(now =~= declare_export_step(cur, dargs[i - 2]));
                            assert(now == declare_export_step(cur, dargs[i - 2]));
                                assert(declare_export_fold(dargs.skip(i - 2), cur)
                                    == declare_export_fold(dargs.skip(i - 1), now));
                            } else {
                                assert(now =~= declare_demote_step(cur, dargs[i - 2]));
                            assert(now == declare_demote_step(cur, dargs[i - 2]));
                                assert(declare_demote_fold(dargs.skip(i - 2), cur)
                                    == declare_demote_fold(dargs.skip(i - 1), now));
                            }
                        }
                    }
                    proof {
                        assert(dargs.skip(dargs.len() as int) =~= Seq::<Seq<char>>::empty());
                    }
                    self.finish(notes, &device, crate::EXIT_SUCCESS)
                } else {
                    let mut i: usize = 0;
                    proof {
                        assert(argsv.skip(0) =~= argsv);
                    }
                    while i < args.len()
                        invariant
                            old(self).wf(),
                            self.wf(),
                            argsv == args.deep_view(),
                            i <= argsv.len(),
                            self.pwd == old(self).pwd,
                            self.pid == old(self).pid,
                            self.history == old(self).history,
                            self.should_echo == old(self).should_echo,
                            self.last_exit_status == old(self).last_exit_status,
                            init == env_init(*old(self)),
                            device.out() == Seq::<char>::empty(),
                            device.err() == Seq::<char>::empty(),
                            device.reds() == reds,
                            notes.deep_view() == Seq::<EffectV>::empty(),
                            declare_local_fold(argsv, init) == declare_local_fold(
                                argsv.skip(i as int),
                                EnvOutcome {
                                    vars: self.vmap(),
                                    env: self.emap(),
                                    out: Seq::empty(),
                                    notes: Seq::empty(),
                                },
                            ),
                        decreases argsv.len() - i,
                    {
                        let ghost cur = EnvOutcome {
                            vars: self.vmap(),
                            env: self.emap(),
                            out: Seq::empty(),
                            notes: Seq::empty(),
                        };
                        let arg = args[i].clone();
                        match split_once_char(arg.as_str(), '=') {
                            Some(kv) => {
                                self.vars.set(kv.0.as_str(), kv.1.as_str());
                            },
                            None => {},
                        }
                        i = i + 1;
                        proof {
                            assert(arg@ == argsv[i - 1]);
                            let now = EnvOutcome {
                                vars: self.vmap(),
                                env: self.emap(),
                                out: Seq::empty(),
                                notes: Seq::empty(),
                            };
                            assert(now =~= declare_local_step(cur, argsv[i - 1]));
                            assert(now == declare_local_step(cur, argsv[i - 1]));
                            assert(argsv.skip(i - 1).drop_first() =~= argsv.skip(i as int));
                            assert(argsv.skip(i - 1)[0] == argsv[i - 1]);
                            assert(declare_local_fold(argsv.skip(i - 1), cur)
                                == declare_local_fold(argsv.skip(i as int), now));
                        }
                    }
                    proof {
                        assert(argsv.skip(argsv.len() as int) =~= Seq::<Seq<char>>::empty());
                    }
                    self.finish(notes, &device, crate::EXIT_SUCCESS)
                }
            }
        } else if str_eq_str(command, "export") {
            if args.len() == 0 {
                device.eprintln("export: help: export <VAR>[=<VALUE>] [<VAR>[=<VALUE>]] ...");
                self.finish(no_effects, &device, crate::EXIT_FAILURE)
            } else {
                let ghost init = env_init(*self);
                let mut notes: Vec<Effect> = Vec::new();
                let mut i: usize = 0;
                proof {
                    assert(notes.deep_view() =~= Seq::<EffectV>::empty());
                    assert(argsv.skip(0) =~= argsv);
                }
                while i < args.len()
                    invariant
                        old(self).wf(),
                        self.wf(),
                        argsv == args.deep_view(),
                        i <= argsv.len(),
                        self.pwd == old(self).pwd,
                        self.pid == old(self).pid,
                        self.history == old(self).history,
                        self.should_echo == old(self).should_echo,
                        self.last_exit_status == old(self).last_exit_status,
                        init == env_init(*old(self)),
                        device.out() == Seq::<char>::empty(),
                        device.err() == Seq::<char>::empty(),
                        device.reds() == reds,
                        export_fold(argsv, init) == export_fold(
                            argsv.skip(i as int),
                            EnvOutcome {
                                vars: self.vmap(),
                                env: self.emap(),
                                out: Seq::empty(),
                                notes: notes.deep_view(),
                            },
                        ),
                    decreases argsv.len() - i,
                {
                    let ghost cur = EnvOutcome {
                        vars: self.vmap(),
                        env: self.emap(),
                        out: Seq::empty(),
                        notes: notes.deep_view(),
                    };
                    let ghost notes0 = notes.deep_view();
                    let ghost notes0v = notes@;
                    let arg = args[i].clone();
                    match split_once_char(arg.as_str(), '=') {
                        Some(kv) => {
                            let removed = self.vars.remove(kv.0.as_str());
                            self.env.set(kv.0.as_str(), kv.1.as_str());
                            notes.push(Effect::NotifyEnv((kv.0.clone(), Some(kv.1.clone()))));
                            proof {
                                assert forall|k: int| 0 <= k < notes@.len() implies notes
                                    .deep_view()[k] == notes0.push(
                                    EffectV::NotifyEnv(kv.0@, Some(kv.1@)),
                                )[k] by {
                                    if k < notes0v.len() {
                                        assert(notes@[k] == notes0v[k]);
                                    }
                                }
                                assert(notes.deep_view() =~= notes0.push(
                                    EffectV::NotifyEnv(kv.0@, Some(kv.1@)),
                                ));
                            }
                        },
                        None => {
                            match self.vars.remove(arg.as_str()) {
                                Some(v) => {
                                    self.env.set(arg.as_str(), v.as_str());
                                    notes.push(Effect::NotifyEnv((arg.clone(), Some(v))));
                                    proof {
                                        assert forall|k: int|
                                            0 <= k < notes@.len() implies notes.deep_view()[k]
                                            == notes0.push(
                                            EffectV::NotifyEnv(arg@, Some(cur.vars[arg@])),
                                        )[k] by {
                                            if k < notes0v.len() {
                                                assert(notes@[k] == notes0v[k]);
                                            }
                                        }
                                        assert(notes.deep_view() =~= notes0.push(
                                            EffectV::NotifyEnv(arg@, Some(cur.vars[arg@])),
                                        ));
                                    }
                                },
                                None => {
                                    self.env.set(arg.as_str(), "");
                                    notes.push(
                                        Effect::NotifyEnv((arg.clone(), Some(String::new()))),
                                    );
                                    proof {
                                        assert(""@ =~= Seq::<char>::empty()) by {
                                            reveal_strlit("");
                                        }
                                        assert forall|k: int|
                                            0 <= k < notes@.len() implies notes.deep_view()[k]
                                            == notes0.push(
                                            EffectV::NotifyEnv(arg@, Some(Seq::empty())),
                                        )[k] by {
                                            if k < notes0v.len() {
                                                assert(notes@[k] == notes0v[k]);
                                            }
                                        }
                                        assert(notes.deep_view() =~= notes0.push(
                                            EffectV::NotifyEnv(arg@, Some(Seq::empty())),
                                        ));
                                    }
                                },
                            }
                        },
                    }
                    i = i + 1;
                    proof {
                        assert(arg@ == argsv[i - 1]);
                        let now = EnvOutcome {
                            vars: self.vmap(),
                            env: self.emap(),
                            out: Seq::empty(),
                            notes: notes.deep_view(),
                        };
                        assert(now =~= export_step(cur, argsv[i - 1]));
                            assert(now == export_step(cur, argsv[i - 1]));
                        assert(argsv.skip(i - 1).drop_first() =~= argsv.skip(i as int));
                        assert(argsv.skip(i - 1)[0] == argsv[i - 1]);
                        assert(export_fold(argsv.skip(i - 1), cur) == export_fold(
                            argsv.skip(i as int),
                            now,
                        ));
                    }
                }
                proof {
                    assert(argsv.skip(argsv.len() as int) =~= Seq::<Seq<char>>::empty());
                }
                self.finish(notes, &device, crate::EXIT_SUCCESS)
            }
        } else if str_eq_str(command, "source") {
            if args.len() == 0 {
                device.eprintln("source: help: source <filename>");
                self.finish(no_effects, &device, crate::EXIT_FAILURE)
            } else {
                ExecStep::Need(
                    no_effects,
                    Query::RunScript(args[0].clone()),
                    ExecCont::SourcePending { device },
                )
            }
        } else if str_eq_str(command, "write") {
            if args.len() < 2 {
                device.eprintln("write: help: write <filename> <contents>");
                self.finish(no_effects, &device, crate::EXIT_FAILURE)
            } else {
                let mut rest: Vec<String> = Vec::new();
                let mut i: usize = 1;
                while i < args.len()
                    invariant
                        argsv == args.deep_view(),
                        1 <= i <= argsv.len(),
                        rest@.len() == i - 1,
                        forall|k: int| 0 <= k < i - 1 ==> (#[trigger] rest@[k])@ == argsv[k + 1],
                    decreases argsv.len() - i,
                {
                    rest.push(args[i].clone());
                    i = i + 1;
                }
                proof {
                    assert forall|k: int| 0 <= k < argsv.len() - 1 implies rest.deep_view()[k]
                        == argsv.drop_first()[k] by {
                        assert(rest@[k]@ == argsv[k + 1]);
                    }
                    assert(rest.deep_view() =~= argsv.drop_first());
                    assert(" "@ =~= seq![' ']) by {
                        reveal_strlit(" ");
                    }
                }
                let content = join_strings(&rest, " ");
                let filename = args[0].clone();
                ExecStep::Need(
                    no_effects,
                    Query::WriteFile((args[0].clone(), content)),
                    ExecCont::WritePending { device, filename },
                )
            }
        } else if str_eq_str(command, "imgcat") {
            if args.len() == 0 {
                device.eprintln("usage: imgcat <IMAGE>");
                self.finish(no_effects, &device, crate::EXIT_FAILURE)
            } else {
                let mut notes: Vec<Effect> = Vec::new();
                notes.push(Effect::ShowImage(args[0].clone()));
                proof {
                    assert(notes.deep_view() =~= seq![EffectV::ShowImage(argsv[0])]);
                }
                self.finish(notes, &device, crate::EXIT_SUCCESS)
            }
        } else if str_eq_str(command, "unzip") {
            if args.len() == 0 {
                device.eprintln("unzip: missing operand");
                self.finish(no_effects, &device, crate::EXIT_FAILURE)
            } else {
                let mut notes: Vec<Effect> = Vec::new();
                notes.push(Effect::ExtractArchive(args[0].clone()));
                proof {
                    assert(notes.deep_view() =~= seq![EffectV::ExtractArchive(argsv[0])]);
                }
                self.finish(notes, &device, crate::EXIT_SUCCESS)
            }
        } else if str_eq_str(command, "sleep") {
            if args.len() == 0 {
                device.eprintln("sleep: missing operand");
                self.finish(no_effects, &device, crate::EXIT_FAILURE)
            } else {
                let chars = str_to_chars(args[0].as_str());
                match crate::text::parse_u64(&chars) {
                    Some(n) => ExecStep::Need(
                        no_effects,
                        Query::Sleep(n),
                        ExecCont::SleepPending { device },
                    ),
                    None => {
                        device.eprint("sleep: invalid time interval `");
                        device.eprint(args[0].as_str());
                        device.eprintln("`");
                        self.finish(no_effects, &device, crate::EXIT_FAILURE)
                    },
                }
            }
        } else if str_eq_str(command, "hexdump") {
            if args.len() == 0 {
                device.eprintln("hexdump: help: hexdump <filename>");
                self.finish(no_effects, &device, crate::EXIT_FAILURE)
            } else {
                ExecStep::Need(
                    no_effects,
                    Query::ReadFileBytes(args[0].clone()),
                    ExecCont::HexdumpPending { device },
                )
            }
        } else {
            let cchars = str_to_chars(command);
            let mut missing: String;
            let mut cands: Vec<String> = Vec::new();
            if cchars.len() > 0 && cchars[0] == '/' {
                cands.push(command.to_owned());
                missing = command.to_owned();
                missing.append(": no such file or directory");
                proof {
                    assert(cands.deep_view() =~= spec_candidates(
                        command@,
                        self.pwd@,
                        spec_path_of(*self),
                    ));
                }
            } else if cchars.len() > 0 && cchars[0] == '.' {
                let joined = join_path(self.pwd.as_str(), command);
                cands.push(joined.clone());
                missing = joined;
                missing.append(": no such file or directory");
                proof {
                    assert(cands.deep_view() =~= spec_candidates(
                        command@,
                        self.pwd@,
                        spec_path_of(*self),
                    ));
                }
            } else {
                let path_val = match self.env.get("PATH") {
                    Some(v) => v,
                    None => String::new(),
                };
                proof {
                    assert(path_val@ == spec_path_of(*self));
                }
                let dirs = split_string(path_val.as_str(), ':');
                let mut k: usize = 0;
                while k < dirs.len()
                    invariant
                        dirs.deep_view() == crate::text::spec_split(spec_path_of(*self), ':'),
                        k <= dirs@.len(),
                        cands@.len() == k,
                        forall|j: int|
                            0 <= j < k ==> (#[trigger] cands@[j])@ == (if dirs.deep_view()[j].len()
                                == 0 {
                                command@
                            } else {
                                spec_join_path(dirs.deep_view()[j], command@)
                            }),
                        self.wf(),
                    decreases dirs@.len() - k,
                {
                    let d = &dirs[k];
                    if d.as_str().unicode_len() == 0 {
                        cands.push(command.to_owned());
                    } else {
                        cands.push(join_path(d.as_str(), command));
                    }
                    k = k + 1;
                    proof {
                        assert(dirs@[k - 1]@ == dirs.deep_view()[k - 1]);
                    }
                }
                proof {
                    let mapped = crate::text::spec_split(spec_path_of(*self), ':').map_values(
                        |d: Seq<char>|
                            if d.len() == 0 {
                                command@
                            } else {
                                spec_join_path(d, command@)
                            },
                    );
                    assert forall|j: int| 0 <= j < cands@.len() implies cands.deep_view()[j]
                        == mapped[j] by {
                        assert(cands@[j]@ == (if dirs.deep_view()[j].len() == 0 {
                            command@
                        } else {
                            spec_join_path(dirs.deep_view()[j], command@)
                        }));
                    }
                    assert(cands.deep_view() =~= mapped);
                }
                missing = command.to_owned();
                missing.append(": command not found");
            }
            let cont = ExecCont::FindPending {
                device,
                missing,
                args: clone_strings(args),
                envp: clone_pairs(env),
                background,
                redirects: clone_redirects(redirects),
            };
            ExecStep::Need(no_effects, Query::FindExecutable(cands), cont)
        }
    }
}

/// The program a found executable runs through: the interpreter its first
/// line names after `#!`, or else the `SHELL` environment entry, or nothing
/// when that too is unset.
pub open spec fn shebang_binary(line: Seq<char>, env: Map<Seq<char>, Seq<char>>) -> Seq<char> {
    if line.len() >= 2 && line[0] == '#' && line[1] == '!' {
        crate::text::spec_trim(line.subrange(2, line.len() as int))
    } else if env.dom().contains("SHELL"@) {
        env["SHELL"@]
    } else {
        Seq::empty()
    }
}

/// What `resume_command` leaves behind for a suspended command `cont`
/// answered with `answer`: the other half of the execution engine's
/// dispatch contract. An answer of the wrong kind records the critical
/// failure status.
pub open spec fn resume_post(
    pre: Shell,
    post: Shell,
    cont: ExecCont,
    answer: Answer,
    r: ExecStep,
) -> bool {
    let mismatch = {
        &&& core_same(pre, post)
        &&& post.last_exit_status == crate::EXIT_CRITICAL_FAILURE
        &&& done_with(
            r,
            Seq::empty(),
            cont_device(cont).reds(),
            cont_device(cont).out(),
            cont_device(cont).err(),
            crate::EXIT_CRITICAL_FAILURE,
        )
    };
    match cont {
        ExecCont::Cd { device, target } => match answer {
            Answer::Path { exists, is_dir, canonical } => {
                if !exists {
                    &&& core_same(pre, post)
                    &&& post.last_exit_status == crate::EXIT_FAILURE
                    &&& done_with(
                        r,
                        Seq::empty(),
                        device.reds(),
                        device.out(),
                        device.err() + "cd: "@ + target@ + ": No such file or directory"@
                            + seq!['\n'],
                        crate::EXIT_FAILURE,
                    )
                } else if !is_dir {
                    &&& core_same(pre, post)
                    &&& post.last_exit_status == crate::EXIT_FAILURE
                    &&& done_with(
                        r,
                        Seq::empty(),
                        device.reds(),
                        device.out(),
                        device.err() + "cd: "@ + target@ + ": Not a directory"@ + seq!['\n'],
                        crate::EXIT_FAILURE,
                    )
                } else if canonical@.len() > 0 && canonical@[0] == '/' {
                    &&& post.pwd@ == canonical@
                    &&& post.vars == pre.vars
                    &&& post.emap() == cd_env_after(pre.emap(), pre.pwd@, canonical@)
                    &&& post.wf()
                    &&& post.pid == pre.pid
                    &&& post.history == pre.history
                    &&& post.should_echo == pre.should_echo
                    &&& post.last_exit_status == crate::EXIT_SUCCESS
                    &&& done_with(
                        r,
                        seq![
                            EffectV::NotifyEnv("OLDPWD"@, Some(pre.pwd@)),
                            EffectV::NotifyEnv("PWD"@, Some(canonical@)),
                            EffectV::ChangeDir(canonical@),
                        ],
                        device.reds(),
                        device.out(),
                        device.err(),
                        crate::EXIT_SUCCESS,
                    )
                } else {
                    // a canonical form that is not absolute is a host fault
                    mismatch
                }
            },
            _ => mismatch,
        },
        ExecCont::WritePending { device, filename } => match answer {
            Answer::WriteResult(err) => match err {
                None => {
                    &&& core_same(pre, post)
                    &&& post.last_exit_status == crate::EXIT_SUCCESS
                    &&& done_with(
                        r,
                        Seq::empty(),
                        device.reds(),
                        device.out(),
                        device.err(),
                        crate::EXIT_SUCCESS,
                    )
                },
                Some(e) => {
                    &&& core_same(pre, post)
                    &&& post.last_exit_status == crate::EXIT_FAILURE
                    &&& done_with(
                        r,
                        Seq::empty(),
                        device.reds(),
                        device.out(),
                        device.err() + "write: failed to write to file '"@ + filename@ + "': "@
                            + e@ + seq!['\n'],
                        crate::EXIT_FAILURE,
                    )
                },
            },
            _ => mismatch,
        },
        ExecCont::HexdumpPending { device } => match answer {
            Answer::MaybeBytes(bytes) => match bytes {
                Some(b) => {
                    &&& core_same(pre, post)
                    &&& post.last_exit_status == crate::EXIT_SUCCESS
                    &&& done_with(
                        r,
                        Seq::empty(),
                        device.reds(),
                        device.out() + crate::hexdump::spec_hexdump(b@),
                        device.err(),
                        crate::EXIT_SUCCESS,
                    )
                },
                None => {
                    &&& core_same(pre, post)
                    &&& post.last_exit_status == crate::EXIT_FAILURE
                    &&& done_with(
                        r,
                        Seq::empty(),
                        device.reds(),
                        device.out() + "hexdump: error: file not found."@ + seq!['\n'],
                        device.err(),
                        crate::EXIT_FAILURE,
                    )
                },
            },
            _ => mismatch,
        },
        ExecCont::SourcePending { device } => match answer {
            Answer::Code(c) => {
                &&& core_same(pre, post)
                &&& post.last_exit_status == crate::EXIT_SUCCESS
                &&& done_with(
                    r,
                    Seq::empty(),
                    device.reds(),
                    device.out(),
                    device.err(),
                    crate::EXIT_SUCCESS,
                )
            },
            _ => mismatch,
        },
        ExecCont::SleepPending { device } => match answer {
            Answer::Unit => {
                &&& core_same(pre, post)
                &&& post.last_exit_status == crate::EXIT_SUCCESS
                &&& done_with(
                    r,
                    Seq::empty(),
                    device.reds(),
                    device.out(),
                    device.err(),
                    crate::EXIT_SUCCESS,
                )
            },
            _ => mismatch,
        },
        ExecCont::FindPending { device, missing, args, envp, background, redirects } => match answer {
            Answer::Found(found) => match found {
                None => {
                    &&& core_same(pre, post)
                    &&& post.last_exit_status == crate::EXIT_CMD_NOT_FOUND
                    &&& done_with(
                        r,
                        Seq::empty(),
                        device.reds(),
                        device.out(),
                        device.err() + "shell: "@ + missing@ + seq!['\n'],
                        crate::EXIT_CMD_NOT_FOUND,
                    )
                },
                Some(path) => {
                    &&& post == pre
                    &&& r matches ExecStep::Need(effects, q, cont2)
                    &&& effects.deep_view() == Seq::<EffectV>::empty()
                    &&& q matches Query::ReadFirstLine(p) && p@ == path@
                    &&& cont2 matches ExecCont::ShebangPending {
                        device: d2,
                        path: p2,
                        args: a2,
                        envp: e2,
                        background: b2,
                        redirects: r2,
                    } && d2 == device && p2@ == path@ && a2.deep_view() == args.deep_view()
                        && e2.deep_view() == envp.deep_view() && b2 == background
                        && r2.deep_view() == redirects.deep_view()
                },
            },
            _ => mismatch,
        },
        ExecCont::ShebangPending { device, path, args, envp, background, redirects } => match answer {
            Answer::MaybeLine(line) => {
                &&& post == pre
                &&& r matches ExecStep::Need(effects, q, cont2)
                &&& effects.deep_view() == Seq::<EffectV>::empty()
                &&& q matches Query::Spawn(req) && req.env.deep_view() == envp.deep_view()
                    && req.background == background && (match line {
                    Some(l) => req.args.deep_view() == seq![shebang_binary(l@, pre.emap())]
                        + args.deep_view() && req.redirects.deep_view()
                        == redirects.deep_view().push(RedirectV::Read(crate::STDIN, path@)),
                    None => req.args.deep_view() == seq![path@] + args.deep_view()
                        && req.redirects.deep_view() == redirects.deep_view(),
                })
                &&& cont2 matches ExecCont::SpawnPending { device: d2 } && d2 == device
            },
            _ => mismatch,
        },
        ExecCont::SpawnPending { device } => match answer {
            Answer::Code(st) => {
                // the unit's own output was routed by the host through the
                // spawn request, so the session flushes nothing of its own
                &&& core_same(pre, post)
                &&& post.last_exit_status == st
                &&& r matches ExecStep::Done(effects, s) && s == st && effects.deep_view()
                    == Seq::<EffectV>::empty()
            },
            _ => mismatch,
        },
    }
}

impl Shell {
    /// Carries a suspended command on with the host's answer: the other
    /// half of the dispatch, `resume_post` in whole.
    #[verifier::rlimit(80)]
    pub fn resume_command(&mut self, cont: ExecCont, answer: Answer) -> (r: ExecStep)
        requires
            old(self).wf(),
        ensures
            final(self).wf(),
            resume_post(*old(self), *final(self), cont, answer, r),
    {
        let no_effects: Vec<Effect> = Vec::new();
        proof {
            assert(no_effects.deep_view() =~= Seq::<EffectV>::empty());
        }
        match cont {
            ExecCont::Cd { mut device, target } => match answer {
                Answer::Path { exists, is_dir, canonical } => {
                    if !exists {
                        device.eprint("cd: ");
                        device.eprint(target.as_str());
                        device.eprintln(": No such file or directory");
                        self.finish(no_effects, &device, crate::EXIT_FAILURE)
                    } else if !is_dir {
                        device.eprint("cd: ");
                        device.eprint(target.as_str());
                        device.eprintln(": Not a directory");
                        self.finish(no_effects, &device, crate::EXIT_FAILURE)
                    } else {
                        let cch = str_to_chars(canonical.as_str());
                        if !(cch.len() > 0 && cch[0] == '/') {
                            return self.finish(no_effects, &device, crate::EXIT_CRITICAL_FAILURE);
                        }
                        let old_pwd = self.pwd.clone();
                        self.env.set("OLDPWD", old_pwd.as_str());
                        self.env.set("PWD", canonical.as_str());
                        self.pwd = canonical.clone();
                        let mut notes: Vec<Effect> = Vec::new();
                        notes.push(Effect::NotifyEnv(("OLDPWD".to_owned(), Some(old_pwd.clone()))));
                        notes.push(Effect::NotifyEnv(("PWD".to_owned(), Some(canonical.clone()))));
                        notes.push(Effect::ChangeDir(canonical.clone()));
                        proof {
                            assert(notes.deep_view() =~= seq![
                                EffectV::NotifyEnv("OLDPWD"@, Some(old(self).pwd@)),
                                EffectV::NotifyEnv("PWD"@, Some(canonical@)),
                                EffectV::ChangeDir(canonical@),
                            ]);
                        }
                        self.finish(notes, &device, crate::EXIT_SUCCESS)
                    }
                },
                _ => {
                    self.finish(no_effects, &device, crate::EXIT_CRITICAL_FAILURE)
                },
            },
            ExecCont::WritePending { mut device, filename } => match answer {
                Answer::WriteResult(err) => match err {
                    None => self.finish(no_effects, &device, crate::EXIT_SUCCESS),
                    Some(e) => {
                        device.eprint("write: failed to write to file '");
                        device.eprint(filename.as_str());
                        device.eprint("': ");
                        device.eprintln(e.as_str());
                        self.finish(no_effects, &device, crate::EXIT_FAILURE)
                    },
                },
                _ => {
                    self.finish(no_effects, &device, crate::EXIT_CRITICAL_FAILURE)
                },
            },
            ExecCont::HexdumpPending { mut device } => match answer {
                Answer::MaybeBytes(bytes) => match bytes {
                    Some(b) => {
                        let text = crate::hexdump::hexdump_text(&b);
                        device.print(text.as_str());
                        self.finish(no_effects, &device, crate::EXIT_SUCCESS)
                    },
                    None => {
                        device.println("hexdump: error: file not found.");
                        self.finish(no_effects, &device, crate::EXIT_FAILURE)
                    },
                },
                _ => {
                    self.finish(no_effects, &device, crate::EXIT_CRITICAL_FAILURE)
                },
            },
            ExecCont::SourcePending { device } => match answer {
                Answer::Code(c) => self.finish(no_effects, &device, crate::EXIT_SUCCESS),
                _ => {
                    self.finish(no_effects, &device, crate::EXIT_CRITICAL_FAILURE)
                },
            },
            ExecCont::SleepPending { device } => match answer {
                Answer::Unit => self.finish(no_effects, &device, crate::EXIT_SUCCESS),
                _ => {
                    self.finish(no_effects, &device, crate::EXIT_CRITICAL_FAILURE)
                },
            },
            ExecCont::FindPending { mut device, missing, args, envp, background, redirects } => match answer {
                Answer::Found(found) => match found {
                    None => {
                        device.eprint("shell: ");
                        device.eprintln(missing.as_str());
                        self.finish(no_effects, &device, crate::EXIT_CMD_NOT_FOUND)
                    },
                    Some(path) => {
                        ExecStep::Need(
                            no_effects,
                            Query::ReadFirstLine(path.clone()),
                            ExecCont::ShebangPending {
                                device,
                                path,
                                args,
                                envp,
                                background,
                                redirects,
                            },
                        )
                    },
                },
                _ => {
                    self.finish(no_effects, &device, crate::EXIT_CRITICAL_FAILURE)
                },
            },
            ExecCont::ShebangPending { device, path, args, envp, background, redirects } => match answer {
                Answer::MaybeLine(line) => {
                    let ghost argsd = args.deep_view();
                    let mut argv: Vec<String> = Vec::new();
                    let mut redirects2 = redirects;
                    let ghost reds0 = redirects2.deep_view();
                    match &line {
                        Some(l) => {
                            let lchars = str_to_chars(l.as_str());
                            let binary: String = if lchars.len() >= 2 && lchars[0] == '#'
                                && lchars[1] == '!' {
                                let rest = crate::history::copy_range(&lchars, 2, lchars.len());
                                let trimmed = crate::text::trim_chars(&rest);
                                chars_to_string(&trimmed)
                            } else {
                                match self.env.get("SHELL") {
                                    Some(v) => v,
                                    None => String::new(),
                                }
                            };
                            proof {
                                assert(binary@ == shebang_binary(l@, self.emap()));
                            }
                            argv.push(binary);
                            proof {
                                assert(argv.deep_view() =~= seq![shebang_binary(l@, self.emap())]);
                            }
                            let ghost reds0v = redirects2@;
                            redirects2.push(
                                Redirect::Read((crate::STDIN, path.clone())),
                            );
                            proof {
                                assert forall|k: int|
                                    0 <= k < redirects2@.len() implies redirects2.deep_view()[k]
                                    == reds0.push(RedirectV::Read(crate::STDIN, path@))[k] by {
                                    if k < reds0v.len() {
                                        assert(redirects2@[k] == reds0v[k]);
                                    }
                                }
                                assert(redirects2.deep_view() =~= reds0.push(
                                    RedirectV::Read(crate::STDIN, path@),
                                ));
                            }
                        },
                        None => {
                            argv.push(path.clone());
                            proof {
                                assert(argv.deep_view() =~= seq![path@]);
                            }
                        },
                    }
                    let ghost head = argv.deep_view();
                    let ghost headv = argv@;
                    let mut i: usize = 0;
                    while i < args.len()
                        invariant
                            argsd == args.deep_view(),
                            i <= argsd.len(),
                            argv@.len() == headv.len() + i,
                            headv.len() == 1,
                            head.len() == 1,
                            forall|k: int| 0 <= k < headv.len() ==> argv@[k] == headv[k],
                            forall|k: int|
                                0 <= k < i ==> (#[trigger] argv@[headv.len() + k])@ == argsd[k],
                        decreases argsd.len() - i,
                    {
                        argv.push(args[i].clone());
                        i = i + 1;
                    }
                    proof {
                        assert forall|k: int| 0 <= k < argv@.len() implies argv.deep_view()[k]
                            == (head + argsd)[k] by {
                            if k < 1 {
                                assert(argv@[k] == headv[k]);
                                assert(argv.deep_view()[k] == argv@[k]@);
                            } else {
                                assert(argv@[headv.len() + (k - 1)]@ == argsd[k - 1]);
                                assert(argv.deep_view()[k] == argv@[k]@);
                            }
                        }
                        assert(argv.deep_view() =~= head + argsd);
                    }
                    ExecStep::Need(
                        no_effects,
                        Query::Spawn(
                            SpawnRequest {
                                args: argv,
                                env: envp,
                                background,
                                redirects: redirects2,
                            },
                        ),
                        ExecCont::SpawnPending { device },
                    )
                },
                _ => {
                    self.finish(no_effects, &device, crate::EXIT_CRITICAL_FAILURE)
                },
            },
            ExecCont::SpawnPending { device } => match answer {
                Answer::Code(st) => {
                    self.last_exit_status = st;
                    ExecStep::Done(no_effects, st)
                },
                _ => {
                    self.finish(no_effects, &device, crate::EXIT_CRITICAL_FAILURE)
                },
            },
        }
    }
}

/// After a successful change of directory into `a` (landing at canonical
/// `c`), a `cd -` names exactly the directory the session stood in before,
/// and when the file system canonicalizes that former directory to itself,
/// the session stands where it began, with `OLDPWD` now naming `c`.
pub proof fn lemma_cd_round_trip(
    pwd0: Seq<char>,
    env0: Map<Seq<char>, Seq<char>>,
    c1: Seq<char>,
)
    ensures
        cd_target(seq!["-"@], cd_env_after(env0, pwd0, c1), c1) == Ok::<Seq<char>, Seq<char>>(
            pwd0,
        ),
        cd_env_after(cd_env_after(env0, pwd0, c1), c1, pwd0)["PWD"@] == pwd0,
        cd_env_after(cd_env_after(env0, pwd0, c1), c1, pwd0)["OLDPWD"@] == c1,
{
    let env1 = cd_env_after(env0, pwd0, c1);
    assert(env1.dom().contains("OLDPWD"@));
    assert(env1["OLDPWD"@] == pwd0) by {
        assert("OLDPWD"@ != "PWD"@) by {
            reveal_strlit("OLDPWD");
            reveal_strlit("PWD");
            assert("OLDPWD"@.len() == 6);
            assert("PWD"@.len() == 3);
        }
    }
    assert(seq!["-"@][0] == "-"@);
}

} // verus!
