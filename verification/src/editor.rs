use vstd::prelude::*;

use crate::text::{chars_to_string, repeat_char, spec_trim, str_to_chars, trim_chars};

verus! {

/// Where the escape-sequence decoder stands: plain bytes, after an escape
/// byte, after `ESC [`, after a numeric parameter byte, or swallowing the
/// tail bytes of a long sequence.
pub enum EscState {
    Normal,
    Escape,
    Csi,
    CsiParam(u8),
    Swallow(u8),
}

/// The interactive line editor: the line being built, the cursor inside it,
/// the decoder state, which history entry is shown while browsing, and the
/// not-yet-submitted line stashed when browsing began.
pub struct LineEditor {
    pub line: Vec<char>,
    pub cursor_position: usize,
    pub state: EscState,
    pub browse: Option<usize>,
    pub stash: Vec<char>,
    pub should_echo: bool,
}

/// What one byte produced: the bytes to echo back to the terminal, and the
/// finished line when the byte ended one.
pub struct ByteOutcome {
    pub echo: String,
    pub submitted: Option<String>,
}

/// The backspace character.
pub const BS: char = '\u{8}';

/// `n` copies of `c`; none for a negative count.
pub open spec fn chars_rep(c: char, n: int) -> Seq<char> {
    if n <= 0 {
        Seq::empty()
    } else {
        Seq::new(n as nat, |i: int| c)
    }
}

/// The erase dance for `n` characters: backspace, blank, backspace, `n`
/// times over.
pub open spec fn bs_space(n: int) -> Seq<char>
    decreases n,
{
    if n <= 0 {
        Seq::empty()
    } else {
        bs_space(n - 1) + seq![BS, ' ', BS]
    }
}

/// What stands from `from` to the end of the line.
pub open spec fn suffix(line: Seq<char>, from: int) -> Seq<char> {
    line.skip(from)
}

/// Echo output, only when echoing is on.
pub open spec fn gate(on: bool, s: Seq<char>) -> Seq<char> {
    if on {
        s
    } else {
        Seq::empty()
    }
}

/// The editor's invariant: the cursor never leaves the line.
pub open spec fn ed_wf(e: LineEditor) -> bool {
    e.cursor_position <= e.line@.len()
}

/// The editor fields `on_byte` never touches.
pub open spec fn same_echo_flag(a: LineEditor, b: LineEditor) -> bool {
    a.should_echo == b.should_echo
}

/// One transition of the editor on byte `b` against history `hist`: the
/// whole behavior of the line editor, state by state.
pub open spec fn editor_post(
    pre: LineEditor,
    post: LineEditor,
    b: u8,
    hist: Seq<Seq<char>>,
    r: ByteOutcome,
) -> bool {
    let on = pre.should_echo;
    match pre.state {
        EscState::Normal => {
            if b == 10 {
                // enter: the trimmed line is done; everything resets
                &&& post.line@ == Seq::<char>::empty()
                &&& post.cursor_position == 0
                &&& post.state is Normal
                &&& post.browse is None
                &&& r.echo@ == gate(on, seq!['\n'])
                &&& r.submitted matches Some(sub) && sub@ == spec_trim(pre.line@)
            } else if b == 127 {
                // backspace: the character left of the cursor goes
                if pre.line@.len() > 0 && pre.cursor_position > 0 {
                    let n = pre.line@.len() as int;
                    let c = pre.cursor_position as int;
                    let line2 = pre.line@.remove(c - 1);
                    &&& post.line@ == line2
                    &&& post.cursor_position == c - 1
                    &&& post.state is Normal
                    &&& post.browse is None
                    &&& post.stash == pre.stash
                    &&& r.echo@ == gate(
                        on,
                        seq![BS] + chars_rep(' ', n - c + 1) + chars_rep(BS, line2.len() - (c - 1) + 1)
                            + suffix(line2, c - 1) + chars_rep(BS, line2.len() - (c - 1)),
                    )
                    &&& r.submitted is None
                } else {
                    &&& post.line == pre.line
                    &&& post.cursor_position == pre.cursor_position
                    &&& post.state is Normal
                    &&& post.browse is None
                    &&& post.stash == pre.stash
                    &&& r.echo@ == Seq::<char>::empty()
                    &&& r.submitted is None
                }
            } else if b == 27 {
                // escape begins a sequence; browsing state is kept
                &&& post.line == pre.line
                &&& post.cursor_position == pre.cursor_position
                &&& post.state is Escape
                &&& post.browse == pre.browse
                &&& post.stash == pre.stash
                &&& r.echo@ == Seq::<char>::empty()
                &&& r.submitted is None
            } else if b < 32 {
                // other control bytes are ignored
                &&& post.line == pre.line
                &&& post.cursor_position == pre.cursor_position
                &&& post.state is Normal
                &&& post.browse is None
                &&& post.stash == pre.stash
                &&& r.echo@ == Seq::<char>::empty()
                &&& r.submitted is None
            } else {
                // a printable byte lands at the cursor
                let c = pre.cursor_position as int;
                let line2 = pre.line@.insert(c, b as char);
                &&& post.line@ == line2
                &&& post.cursor_position == c + 1
                &&& post.state is Normal
                &&& post.browse is None
                &&& post.stash == pre.stash
                &&& r.echo@ == gate(
                    on,
                    suffix(line2, c) + chars_rep(BS, line2.len() - c - 1),
                )
                &&& r.submitted is None
            }
        },
        EscState::Escape => {
            &&& post.line == pre.line
            &&& post.cursor_position == pre.cursor_position
            &&& post.browse == pre.browse
            &&& post.stash == pre.stash
            &&& (if b == 0x5b {
                post.state is Csi
            } else {
                post.state is Normal
            })
            &&& r.echo@ == Seq::<char>::empty()
            &&& r.submitted is None
        },
        EscState::Csi => {
            if b == 0x32 || b == 0x33 || b == 0x35 || b == 0x36 {
                &&& post.line == pre.line
                &&& post.cursor_position == pre.cursor_position
                &&& post.browse == pre.browse
                &&& post.stash == pre.stash
                &&& post.state matches EscState::CsiParam(p) && p == b
                &&& r.echo@ == Seq::<char>::empty()
                &&& r.submitted is None
            } else if b == 0x41 {
                // arrow up: recall an older entry, stashing the fresh line
                let stepped = (match pre.browse {
                    None => if hist.len() > 0 {
                        Some((hist.len() - 1) as usize)
                    } else {
                        None
                    },
                    Some(i) => if i > 0 && i < hist.len() {
                        Some((i - 1) as usize)
                    } else {
                        None
                    },
                });
                match stepped {
                    Some(j) => {
                        &&& post.line@ == hist[j as int]
                        &&& post.cursor_position == hist[j as int].len()
                        &&& post.browse matches Some(j2) && j2 == j
                        &&& (pre.browse is None ==> post.stash@ == pre.line@)
                        &&& (pre.browse is Some ==> post.stash == pre.stash)
                        &&& post.state is Normal
                        &&& r.echo@ == gate(
                            on,
                            suffix(pre.line@, pre.cursor_position as int) + bs_space(
                                pre.line@.len() as int,
                            ) + hist[j as int],
                        )
                        &&& r.submitted is None
                    },
                    None => {
                        &&& post.line == pre.line
                        &&& post.cursor_position == pre.cursor_position
                        &&& post.browse == pre.browse
                        &&& post.stash == pre.stash
                        &&& post.state is Normal
                        &&& r.echo@ == Seq::<char>::empty()
                        &&& r.submitted is None
                    },
                }
            } else if b == 0x42 {
                // arrow down: toward newer entries, or back to the stash
                match pre.browse {
                    Some(i) => {
                        if i + 1 < hist.len() {
                            &&& post.line@ == hist[i + 1]
                            &&& post.cursor_position == hist[i + 1].len()
                            &&& post.browse matches Some(j2) && j2 == i + 1
                            &&& post.stash == pre.stash
                            &&& post.state is Normal
                            &&& r.echo@ == gate(
                                on,
                                suffix(pre.line@, pre.cursor_position as int) + bs_space(
                                    pre.line@.len() as int,
                                ) + hist[i + 1],
                            )
                            &&& r.submitted is None
                        } else {
                            &&& post.line@ == pre.stash@
                            &&& post.cursor_position == pre.stash@.len()
                            &&& post.browse is None
                            &&& post.stash == pre.stash
                            &&& post.state is Normal
                            &&& r.echo@ == gate(
                                on,
                                suffix(pre.line@, pre.cursor_position as int) + bs_space(
                                    pre.line@.len() as int,
                                ) + pre.stash@,
                            )
                            &&& r.submitted is None
                        }
                    },
                    None => {
                        &&& post.line == pre.line
                        &&& post.cursor_position == pre.cursor_position
                        &&& post.browse is None
                        &&& post.stash == pre.stash
                        &&& post.state is Normal
                        &&& r.echo@ == Seq::<char>::empty()
                        &&& r.submitted is None
                    },
                }
            } else if b == 0x43 {
                // arrow right
                if pre.cursor_position < pre.line@.len() {
                    &&& post.line == pre.line
                    &&& post.cursor_position == pre.cursor_position + 1
                    &&& post.browse == pre.browse
                    &&& post.stash == pre.stash
                    &&& post.state is Normal
                    &&& r.echo@ == gate(on, seq![pre.line@[pre.cursor_position as int]])
                    &&& r.submitted is None
                } else {
                    &&& post.line == pre.line
                    &&& post.cursor_position == pre.cursor_position
                    &&& post.browse == pre.browse
                    &&& post.stash == pre.stash
                    &&& post.state is Normal
                    &&& r.echo@ == Seq::<char>::empty()
                    &&& r.submitted is None
                }
            } else if b == 0x44 {
                // arrow left
                if pre.cursor_position > 0 {
                    &&& post.line == pre.line
                    &&& post.cursor_position == pre.cursor_position - 1
                    &&& post.browse == pre.browse
                    &&& post.stash == pre.stash
                    &&& post.state is Normal
                    &&& r.echo@ == gate(on, seq![BS])
                    &&& r.submitted is None
                } else {
                    &&& post.line == pre.line
                    &&& post.cursor_position == pre.cursor_position
                    &&& post.browse == pre.browse
                    &&& post.stash == pre.stash
                    &&& post.state is Normal
                    &&& r.echo@ == Seq::<char>::empty()
                    &&& r.submitted is None
                }
            } else if b == 0x46 {
                // end
                &&& post.line == pre.line
                &&& post.cursor_position == pre.line@.len()
                &&& post.browse == pre.browse
                &&& post.stash == pre.stash
                &&& post.state is Normal
                &&& r.echo@ == gate(on, suffix(pre.line@, pre.cursor_position as int))
                &&& r.submitted is None
            } else if b == 0x48 {
                // home
                &&& post.line == pre.line
                &&& post.cursor_position == 0
                &&& post.browse == pre.browse
                &&& post.stash == pre.stash
                &&& post.state is Normal
                &&& r.echo@ == gate(on, chars_rep(BS, pre.cursor_position as int))
                &&& r.submitted is None
            } else {
                &&& post.line == pre.line
                &&& post.cursor_position == pre.cursor_position
                &&& post.browse == pre.browse
                &&& post.stash == pre.stash
                &&& post.state is Normal
                &&& r.echo@ == Seq::<char>::empty()
                &&& r.submitted is None
            }
        },
        EscState::CsiParam(p) => {
            if b == 0x7e && p == 0x33 {
                // delete: the character at the cursor goes
                if pre.line@.len() > pre.cursor_position {
                    let n = pre.line@.len() as int;
                    let c = pre.cursor_position as int;
                    let line2 = pre.line@.remove(c);
                    &&& post.line@ == line2
                    &&& post.cursor_position == c
                    &&& post.browse == pre.browse
                    &&& post.stash == pre.stash
                    &&& post.state is Normal
                    &&& r.echo@ == gate(
                        on,
                        chars_rep(' ', n - c + 1) + chars_rep(BS, line2.len() - c + 2) + suffix(
                            line2,
                            c,
                        ) + chars_rep(BS, line2.len() - c),
                    )
                    &&& r.submitted is None
                } else {
                    &&& post.line == pre.line
                    &&& post.cursor_position == pre.cursor_position
                    &&& post.browse == pre.browse
                    &&& post.stash == pre.stash
                    &&& post.state is Normal
                    &&& r.echo@ == Seq::<char>::empty()
                    &&& r.submitted is None
                }
            } else if b == 0x3b && p == 0x33 {
                // shift and delete: two more bytes follow and are dropped
                &&& post.line == pre.line
                &&& post.cursor_position == pre.cursor_position
                &&& post.browse == pre.browse
                &&& post.stash == pre.stash
                &&& post.state matches EscState::Swallow(n) && n == 2
                &&& r.echo@ == Seq::<char>::empty()
                &&& r.submitted is None
            } else {
                &&& post.line == pre.line
                &&& post.cursor_position == pre.cursor_position
                &&& post.browse == pre.browse
                &&& post.stash == pre.stash
                &&& post.state is Normal
                &&& r.echo@ == Seq::<char>::empty()
                &&& r.submitted is None
            }
        },
        EscState::Swallow(n) => {
            &&& post.line == pre.line
            &&& post.cursor_position == pre.cursor_position
            &&& post.browse == pre.browse
            &&& post.stash == pre.stash
            &&& (if n > 1 {
                post.state matches EscState::Swallow(m) && m == n - 1
            } else {
                post.state is Normal
            })
            &&& r.echo@ == Seq::<char>::empty()
            &&& r.submitted is None
        },
    }
}

fn suffix_string(line: &Vec<char>, from: usize) -> (r: String)
    requires
        from <= line@.len(),
    ensures
        r@ == suffix(line@, from as int),
{
    let mut v: Vec<char> = Vec::new();
    let mut i = from;
    while i < line.len()
        invariant
            from <= i <= line@.len(),
            v@ == line@.subrange(from as int, i as int),
        decreases line@.len() - i,
    {
        v.push(line[i]);
        i = i + 1;
        proof {
            assert(v@ =~= line@.subrange(from as int, i as int));
        }
    }
    proof {
        assert(v@ =~= suffix(line@, from as int));
    }
    chars_to_string(&v)
}

fn bs_space_string(n: usize) -> (r: String)
    ensures
        r@ == bs_space(n as int),
{
    let mut r = String::new();
    let mut i: usize = 0;
    while i < n
        invariant
            i <= n,
            r@ == bs_space(i as int),
        decreases n - i,
    {
        r.append("\u{8} \u{8}");
        i = i + 1;
        proof {
            assert("\u{8} \u{8}"@ =~= seq![BS, ' ', BS]) by {
                reveal_strlit("\u{8} \u{8}");
            }
        }
    }
    r
}

impl LineEditor {
    /// A fresh editor with an empty line.
    pub fn new(should_echo: bool) -> (e: LineEditor)
        ensures
            ed_wf(e),
            e.line@ == Seq::<char>::empty(),
            e.cursor_position == 0,
            e.state is Normal,
            e.browse is None,
            e.should_echo == should_echo,
    {
        LineEditor {
            line: Vec::new(),
            cursor_position: 0,
            state: EscState::Normal,
            browse: None,
            stash: Vec::new(),
            should_echo,
        }
    }

    /// Shows text already standing on the line, as the prompt does when a
    /// line is redisplayed: the editor takes it as the line being built.
    pub fn preset_line(&mut self, text: &str)
        ensures
            ed_wf(*final(self)),
            final(self).line@ == text@,
            final(self).cursor_position == text@.len(),
            final(self).state == old(self).state,
            final(self).browse == old(self).browse,
            final(self).should_echo == old(self).should_echo,
    {
        self.line = str_to_chars(text);
        self.cursor_position = self.line.len();
    }

    /// Feeds one byte to the editor, exactly as `editor_post` lays the
    /// transition out.
    pub fn on_byte(&mut self, b: u8, history: &Vec<String>) -> (r: ByteOutcome)
        requires
            ed_wf(*old(self)),
        ensures
            ed_wf(*final(self)),
            same_echo_flag(*old(self), *final(self)),
            editor_post(*old(self), *final(self), b, history.deep_view(), r),
    {
        match self.state {
            EscState::Normal => self.normal_byte(b),
            EscState::Escape => self.escape_byte(b),
            EscState::Csi => self.csi_byte(b, history),
            EscState::CsiParam(p) => self.csiparam_byte(p, b),
            EscState::Swallow(n) => self.swallow_byte(n),
        }
    }

    fn normal_byte(&mut self, b: u8) -> (r: ByteOutcome)
        requires
            ed_wf(*old(self)),
            old(self).state is Normal,
        ensures
            ed_wf(*final(self)),
            same_echo_flag(*old(self), *final(self)),
            editor_post(*old(self), *final(self), b, Seq::empty(), r),
    {
        let on = self.should_echo;
        let none_echo = String::new();
        if b == 10 {
                    let trimmed = trim_chars(&self.line);
                    let sub = chars_to_string(&trimmed);
                    self.line = Vec::new();
                    self.cursor_position = 0;
                    self.browse = None;
                    let echo = if on {
                        "\n".to_owned()
                    } else {
                        String::new()
                    };
                    proof {
                        assert("\n"@ =~= seq!['\n']) by {
                            reveal_strlit("\n");
                        }
                        assert(self.line@ =~= Seq::<char>::empty());
                    }
                    ByteOutcome { echo, submitted: Some(sub) }
                } else if b == 127 {
                    self.browse = None;
                    if self.line.len() > 0 && self.cursor_position > 0 {
                        let n = self.line.len();
                        let c = self.cursor_position;
                        let mut echo = String::new();
                        if on {
                            echo.append("\u{8}");
                            let sp = repeat_char(' ', n - c + 1);
                            echo.append(sp.as_str());
                        }
                        self.line.remove(c - 1);
                        self.cursor_position = c - 1;
                        if on {
                            let back1 = repeat_char('\u{8}', self.line.len() - (c - 1) + 1);
                            echo.append(back1.as_str());
                            let suf = suffix_string(&self.line, c - 1);
                            echo.append(suf.as_str());
                            let back2 = repeat_char('\u{8}', self.line.len() - (c - 1));
                            echo.append(back2.as_str());
                        }
                        proof {
                            assert("\u{8}"@ =~= seq![BS]) by {
                                reveal_strlit("\u{8}");
                            }
                            if on {
                                assert(echo@ =~= seq![BS] + chars_rep(' ', n - c + 1) + chars_rep(
                                    BS,
                                    self.line@.len() - (c - 1) + 1,
                                ) + suffix(self.line@, c - 1) + chars_rep(
                                    BS,
                                    self.line@.len() - (c - 1),
                                ));
                            } else {
                                assert(echo@ =~= Seq::<char>::empty());
                                assert(gate(on, seq![BS] + chars_rep(' ', n - c + 1) + chars_rep(
                                    BS,
                                    self.line@.len() - (c - 1) + 1,
                                ) + suffix(self.line@, c - 1) + chars_rep(
                                    BS,
                                    self.line@.len() - (c - 1),
                                )) =~= Seq::<char>::empty());
                            }
                        }
                        ByteOutcome { echo, submitted: None }
                    } else {
                        ByteOutcome { echo: none_echo, submitted: None }
                    }
                } else if b == 27 {
                    self.state = EscState::Escape;
                    ByteOutcome { echo: none_echo, submitted: None }
                } else if b < 32 {
                    self.browse = None;
                    ByteOutcome { echo: none_echo, submitted: None }
                } else {
                    self.browse = None;
                    let c = self.cursor_position;
                    self.line.insert(c, b as char);
                    let nl = self.line.len();
                    proof {
                        assert(nl == old(self).line@.len() + 1);
                        assert(c < nl);
                    }
                    self.cursor_position = c + 1;
                    let echo = if on {
                        let mut e = suffix_string(&self.line, c);
                        let back = repeat_char('\u{8}', self.line.len() - c - 1);
                        e.append(back.as_str());
                        e
                    } else {
                        String::new()
                    };
                    proof {
                        assert("\u{8}"@ =~= seq![BS]) by {
                            reveal_strlit("\u{8}");
                        }
                        if on {
                            assert(echo@ =~= suffix(self.line@, c as int) + chars_rep(
                                BS,
                                self.line@.len() - c - 1,
                            ));
                        }
                    }
                    ByteOutcome { echo, submitted: None }
                }
    }

    fn escape_byte(&mut self, b: u8) -> (r: ByteOutcome)
        requires
            ed_wf(*old(self)),
            old(self).state is Escape,
        ensures
            ed_wf(*final(self)),
            same_echo_flag(*old(self), *final(self)),
            editor_post(*old(self), *final(self), b, Seq::empty(), r),
    {
        let none_echo = String::new();
        if b == 0x5b {
                    self.state = EscState::Csi;
                } else {
                    self.state = EscState::Normal;
                }
                ByteOutcome { echo: none_echo, submitted: None }
    }

    #[verifier::rlimit(60)]
    fn csi_byte(&mut self, b: u8, history: &Vec<String>) -> (r: ByteOutcome)
        requires
            ed_wf(*old(self)),
            old(self).state is Csi,
        ensures
            ed_wf(*final(self)),
            same_echo_flag(*old(self), *final(self)),
            editor_post(*old(self), *final(self), b, history.deep_view(), r),
    {
        let on = self.should_echo;
        let none_echo = String::new();
        if b == 0x32 || b == 0x33 || b == 0x35 || b == 0x36 {
                    self.state = EscState::CsiParam(b);
                    ByteOutcome { echo: none_echo, submitted: None }
                } else if b == 0x41 {
                    self.state = EscState::Normal;
                    let stepped: Option<usize> = match self.browse {
                        None => if history.len() > 0 {
                            Some(history.len() - 1)
                        } else {
                            None
                        },
                        Some(i) => if i > 0 && i < history.len() {
                            Some(i - 1)
                        } else {
                            None
                        },
                    };
                    match stepped {
                        Some(j) => {
                            let mut echo = String::new();
                            if on {
                                let suf = suffix_string(&self.line, self.cursor_position);
                                echo.append(suf.as_str());
                                let er = bs_space_string(self.line.len());
                                echo.append(er.as_str());
                            }
                            if matches!(self.browse, Option::None) {
                                self.stash = self.line.clone();
                                proof {
                                    assert(self.stash@ == old(self).line@);
                                }
                            }
                            self.browse = Some(j);
                            self.line = str_to_chars(history[j].as_str());
                            self.cursor_position = self.line.len();
                            if on {
                                let shown = chars_to_string(&self.line);
                                echo.append(shown.as_str());
                            }
                            proof {
                                assert(self.line@ == history.deep_view()[j as int]);
                                if on {
                                    assert(echo@ =~= suffix(
                                        old(self).line@,
                                        old(self).cursor_position as int,
                                    ) + bs_space(old(self).line@.len() as int) + history.deep_view()[
                                        j as int
                                    ]);
                                } else {
                                    assert(gate(on, suffix(
                                        old(self).line@,
                                        old(self).cursor_position as int,
                                    ) + bs_space(old(self).line@.len() as int) + history.deep_view()[
                                        j as int
                                    ]) =~= Seq::<char>::empty());
                                }
                            }
                            ByteOutcome { echo, submitted: None }
                        },
                        None => ByteOutcome { echo: none_echo, submitted: None },
                    }
                } else if b == 0x42 {
                    self.state = EscState::Normal;
                    match self.browse {
                        Some(i) => {
                            let hlen = history.len();
                            proof {
                                assert(history.deep_view().len() == hlen as int);
                            }
                            let mut echo = String::new();
                            if on {
                                let suf = suffix_string(&self.line, self.cursor_position);
                                echo.append(suf.as_str());
                                let er = bs_space_string(self.line.len());
                                echo.append(er.as_str());
                            }
                            if i < usize::MAX && i + 1 < hlen {
                                let next = i + 1;
                                self.browse = Some(next);
                                let entry = &history[next];
                                let newline = str_to_chars(entry.as_str());
                                proof {
                                    assert(entry@ == history@[next as int]@);
                                    assert(history.deep_view()[next as int] == history@[next as int]@);
                                    assert(newline@ == history.deep_view()[next as int]);
                                    assert(next as int == i + 1);
                                }
                                self.line = newline;
                                proof {
                                    assert(self.line@ == history.deep_view()[i + 1]);
                                }
                            } else {
                                self.browse = None;
                                self.line = self.stash.clone();
                            }
                            self.cursor_position = self.line.len();
                            if on {
                                let shown = chars_to_string(&self.line);
                                echo.append(shown.as_str());
                            }
                            proof {
                                if i + 1 < history.deep_view().len() {
                                    assert(self.line@ == history.deep_view()[i + 1]);
                                } else {
                                    assert(self.line@ == old(self).stash@);
                                }
                                if on {
                                    assert(echo@ =~= suffix(
                                        old(self).line@,
                                        old(self).cursor_position as int,
                                    ) + bs_space(old(self).line@.len() as int) + self.line@);
                                } else {
                                    assert(gate(on, suffix(
                                        old(self).line@,
                                        old(self).cursor_position as int,
                                    ) + bs_space(old(self).line@.len() as int) + self.line@)
                                        =~= Seq::<char>::empty());
                                }
                            }
                            ByteOutcome { echo, submitted: None }
                        },
                        None => ByteOutcome { echo: none_echo, submitted: None },
                    }
                } else if b == 0x43 {
                    self.state = EscState::Normal;
                    if self.cursor_position < self.line.len() {
                        let ch = self.line[self.cursor_position];
                        self.cursor_position = self.cursor_position + 1;
                        let echo = if on {
                            let mut e = String::new();
                            crate::text::push_char(&mut e, ch);
                            e
                        } else {
                            String::new()
                        };
                        proof {
                            if on {
                                assert(echo@ =~= seq![
                                    old(self).line@[old(self).cursor_position as int],
                                ]);
                            }
                        }
                        ByteOutcome { echo, submitted: None }
                    } else {
                        ByteOutcome { echo: none_echo, submitted: None }
                    }
                } else if b == 0x44 {
                    self.state = EscState::Normal;
                    if self.cursor_position > 0 {
                        self.cursor_position = self.cursor_position - 1;
                        let echo = if on {
                            "\u{8}".to_owned()
                        } else {
                            String::new()
                        };
                        proof {
                            assert("\u{8}"@ =~= seq![BS]) by {
                                reveal_strlit("\u{8}");
                            }
                        }
                        ByteOutcome { echo, submitted: None }
                    } else {
                        ByteOutcome { echo: none_echo, submitted: None }
                    }
                } else if b == 0x46 {
                    self.state = EscState::Normal;
                    let echo = if on {
                        suffix_string(&self.line, self.cursor_position)
                    } else {
                        String::new()
                    };
                    self.cursor_position = self.line.len();
                    ByteOutcome { echo, submitted: None }
                } else if b == 0x48 {
                    self.state = EscState::Normal;
                    let echo = if on {
                        repeat_char('\u{8}', self.cursor_position)
                    } else {
                        String::new()
                    };
                    self.cursor_position = 0;
                    proof {
                        if on {
                            assert(echo@ =~= chars_rep(BS, old(self).cursor_position as int));
                        }
                    }
                    ByteOutcome { echo, submitted: None }
                } else {
                    self.state = EscState::Normal;
                    ByteOutcome { echo: none_echo, submitted: None }
                }
    }

    #[verifier::rlimit(60)]
    fn csiparam_byte(&mut self, p: u8, b: u8) -> (r: ByteOutcome)
        requires
            ed_wf(*old(self)),
            old(self).state matches EscState::CsiParam(q) && q == p,
        ensures
            ed_wf(*final(self)),
            same_echo_flag(*old(self), *final(self)),
            editor_post(*old(self), *final(self), b, Seq::empty(), r),
    {
        let on = self.should_echo;
        let none_echo = String::new();
        if b == 0x7e && p == 0x33 {
                    self.state = EscState::Normal;
                    if self.line.len() > self.cursor_position {
                        let n = self.line.len();
                        let c = self.cursor_position;
                        let mut echo = String::new();
                        if on {
                            let mut sp = repeat_char(' ', n - c);
                            crate::text::push_char(&mut sp, ' ');
                            proof {
                                assert(sp@ =~= chars_rep(' ', n - c + 1));
                            }
                            echo.append(sp.as_str());
                        }
                        self.line.remove(c);
                        if on {
                            let mut back1 = repeat_char('\u{8}', self.line.len() - c);
                            crate::text::push_char(&mut back1, '\u{8}');
                            crate::text::push_char(&mut back1, '\u{8}');
                            proof {
                                assert(back1@ =~= chars_rep(BS, self.line@.len() - c + 2));
                            }
                            echo.append(back1.as_str());
                            let suf = suffix_string(&self.line, c);
                            echo.append(suf.as_str());
                            let back2 = repeat_char('\u{8}', self.line.len() - c);
                            echo.append(back2.as_str());
                        }
                        proof {
                            assert("\u{8}"@ =~= seq![BS]) by {
                                reveal_strlit("\u{8}");
                            }
                            if on {
                                assert(echo@ =~= chars_rep(' ', n - c + 1) + chars_rep(
                                    BS,
                                    self.line@.len() - c + 2,
                                ) + suffix(self.line@, c as int) + chars_rep(
                                    BS,
                                    self.line@.len() - c,
                                ));
                            } else {
                                assert(gate(on, chars_rep(' ', n - c + 1) + chars_rep(
                                    BS,
                                    self.line@.len() - c + 2,
                                ) + suffix(self.line@, c as int) + chars_rep(
                                    BS,
                                    self.line@.len() - c,
                                )) =~= Seq::<char>::empty());
                            }
                        }
                        ByteOutcome { echo, submitted: None }
                    } else {
                        ByteOutcome { echo: none_echo, submitted: None }
                    }
                } else if b == 0x3b && p == 0x33 {
                    self.state = EscState::Swallow(2);
                    ByteOutcome { echo: none_echo, submitted: None }
                } else {
                    self.state = EscState::Normal;
                    ByteOutcome { echo: none_echo, submitted: None }
                }
    }

    fn swallow_byte(&mut self, n: u8) -> (r: ByteOutcome)
        requires
            ed_wf(*old(self)),
            old(self).state matches EscState::Swallow(m) && m == n,
        ensures
            ed_wf(*final(self)),
            same_echo_flag(*old(self), *final(self)),
            editor_post(*old(self), *final(self), 0, Seq::empty(), r),
    {
        let none_echo = String::new();
        if n > 1 {
                    self.state = EscState::Swallow(n - 1);
                } else {
                    self.state = EscState::Normal;
                }
                ByteOutcome { echo: none_echo, submitted: None }
    }
}

} // verus!
