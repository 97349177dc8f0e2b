use vstd::prelude::*;

use crate::shell_base::{clone_redirects, Effect, EffectV, Redirect, RedirectV};
use crate::{STDERR, STDOUT};

verus! {

/// Per-command output buffers for standard output and standard error. Writes
/// accumulate here; `flush` turns them into one plan of outward actions, so
/// each descriptor is written exactly once per command, to its redirect
/// targets or else to the terminal.
pub struct OutputDevice {
    redirects: Vec<Redirect>,
    stdout: String,
    stderr: String,
}

/// The descriptor a redirection writes to, if it writes at all.
pub open spec fn out_fd(r: RedirectV) -> Option<u16> {
    match r {
        RedirectV::Read(fd, p) => None,
        RedirectV::Write(fd, p) => Some(fd),
        RedirectV::Append(fd, p) => Some(fd),
    }
}

/// Whether some redirection in `rs` writes to descriptor `fd`.
pub open spec fn redirects_fd(rs: Seq<RedirectV>, fd: u16) -> bool {
    exists|i: int| 0 <= i < rs.len() && out_fd(#[trigger] rs[i]) == Some(fd)
}

/// The file actions that flushing buffer `buf` of descriptor `fd` performs:
/// one write or append per matching redirection, in redirect order.
pub open spec fn fd_file_actions(rs: Seq<RedirectV>, fd: u16, buf: Seq<char>) -> Seq<EffectV>
    decreases rs.len(),
{
    if rs.len() == 0 {
        Seq::empty()
    } else {
        let rest = fd_file_actions(rs.drop_first(), fd, buf);
        match rs[0] {
            RedirectV::Write(f, p) => if f == fd {
                seq![EffectV::FileWrite(p, buf)] + rest
            } else {
                rest
            },
            RedirectV::Append(f, p) => if f == fd {
                seq![EffectV::FileAppend(p, buf)] + rest
            } else {
                rest
            },
            RedirectV::Read(f, p) => rest,
        }
    }
}

/// Everything flushing buffer `buf` of descriptor `fd` does: its file
/// actions, or one terminal write when no redirection claims the descriptor.
pub open spec fn fd_flush_plan(rs: Seq<RedirectV>, fd: u16, buf: Seq<char>) -> Seq<EffectV> {
    if redirects_fd(rs, fd) {
        fd_file_actions(rs, fd, buf)
    } else if fd == STDOUT {
        seq![EffectV::TermOut(buf)]
    } else {
        seq![EffectV::TermErr(buf)]
    }
}

impl OutputDevice {
    /// The redirections the device routes by.
    pub closed spec fn reds(self) -> Seq<RedirectV> {
        self.redirects.deep_view()
    }

    /// What has been printed to standard output so far.
    pub closed spec fn out(self) -> Seq<char> {
        self.stdout@
    }

    /// What has been printed to standard error so far.
    pub closed spec fn err(self) -> Seq<char> {
        self.stderr@
    }

    /// A device with empty buffers routing by the given redirections.
    pub fn new(redirects: &Vec<Redirect>) -> (d: OutputDevice)
        ensures
            d.reds() == redirects.deep_view(),
            d.out() == Seq::<char>::empty(),
            d.err() == Seq::<char>::empty(),
    {
        OutputDevice {
            redirects: clone_redirects(redirects),
            stdout: String::new(),
            stderr: String::new(),
        }
    }

    /// Appends to the standard-output buffer.
    pub fn print(&mut self, output: &str)
        ensures
            final(self).out() == old(self).out() + output@,
            final(self).err() == old(self).err(),
            final(self).reds() == old(self).reds(),
    {
        self.stdout.append(output);
    }

    /// Appends to the standard-output buffer, and then a newline.
    pub fn println(&mut self, output: &str)
        ensures
            final(self).out() == old(self).out() + output@ + seq!['\n'],
            final(self).err() == old(self).err(),
            final(self).reds() == old(self).reds(),
    {
        self.stdout.append(output);
        self.stdout.append("\n");
        proof {
            assert("\n"@ =~= seq!['\n']) by {
                reveal_strlit("\n");
            }
        }
    }

    /// Appends to the standard-error buffer.
    pub fn eprint(&mut self, output: &str)
        ensures
            final(self).err() == old(self).err() + output@,
            final(self).out() == old(self).out(),
            final(self).reds() == old(self).reds(),
    {
        self.stderr.append(output);
    }

    /// Appends to the standard-error buffer, and then a newline.
    pub fn eprintln(&mut self, output: &str)
        ensures
            final(self).err() == old(self).err() + output@ + seq!['\n'],
            final(self).out() == old(self).out(),
            final(self).reds() == old(self).reds(),
    {
        self.stderr.append(output);
        self.stderr.append("\n");
        proof {
            assert("\n"@ =~= seq!['\n']) by {
                reveal_strlit("\n");
            }
        }
    }

    /// The flush plan: first everything the standard-output buffer does,
    /// then everything the standard-error buffer does.
    pub fn flush(&self) -> (plan: Vec<Effect>)
        ensures
            plan.deep_view() == fd_flush_plan(self.reds(), STDOUT, self.out()) + fd_flush_plan(
                self.reds(),
                STDERR,
                self.err(),
            ),
    {
        let mut plan = self.flush_fd(STDOUT, true);
        let mut err_plan = self.flush_fd(STDERR, false);
        let ghost p1 = plan.deep_view();
        let ghost p2 = err_plan.deep_view();
        let ghost prev1 = plan@;
        let ghost prev2 = err_plan@;
        plan.append(&mut err_plan);
        proof {
            assert(plan@ == prev1 + prev2);
            assert forall|k: int| 0 <= k < plan@.len() implies plan.deep_view()[k] == (p1 + p2)[k] by {
                if k < prev1.len() {
                    assert(plan@[k] == prev1[k]);
                } else {
                    assert(plan@[k] == prev2[k - prev1.len()]);
                }
            }
            assert(plan.deep_view() =~= p1 + p2);
        }
        plan
    }

    fn flush_fd(&self, fd: u16, is_out: bool) -> (plan: Vec<Effect>)
        requires
            is_out ==> fd == STDOUT,
            !is_out ==> fd == STDERR,
        ensures
            plan.deep_view() == fd_flush_plan(
                self.reds(),
                fd,
                if is_out {
                    self.out()
                } else {
                    self.err()
                },
            ),
    {
        let buf: &String = if is_out {
            &self.stdout
        } else {
            &self.stderr
        };
        let ghost bufv = buf@;
        let mut plan: Vec<Effect> = Vec::new();
        let mut matched = false;
        let mut i: usize = 0;
        while i < self.redirects.len()
            invariant
                i <= self.reds().len(),
                self.reds().len() == self.redirects@.len(),
                bufv == buf@,
                matched == redirects_fd(self.reds().subrange(0, i as int), fd),
                plan.deep_view() == fd_file_actions(self.reds().subrange(0, i as int), fd, bufv),
            decreases self.redirects@.len() - i,
        {
            let ghost pre = self.reds().subrange(0, i as int);
            let ghost plan0 = plan.deep_view();
            let ghost plan0v = plan@;
            match &self.redirects[i] {
                Redirect::Write((f, p)) => {
                    if *f == fd {
                        plan.push(Effect::FileWrite((p.clone(), buf.clone())));
                        matched = true;
                    }
                },
                Redirect::Append((f, p)) => {
                    if *f == fd {
                        plan.push(Effect::FileAppend((p.clone(), buf.clone())));
                        matched = true;
                    }
                },
                Redirect::Read(_) => {},
            }
            i = i + 1;
            proof {
                let cur = self.reds().subrange(0, i as int);
                lemma_fd_file_actions_snoc(pre, self.reds()[i - 1], fd, bufv);
                assert(pre.push(self.reds()[i - 1]) =~= cur);
                if plan@.len() == plan0v.len() {
                    assert(plan.deep_view() =~= plan0);
                } else {
                    assert(plan@.len() == plan0v.len() + 1);
                    assert forall|k: int| 0 <= k < plan@.len() implies plan.deep_view()[k] == plan0.push(
                        plan@[plan@.len() - 1]@,
                    )[k] by {
                        if k < plan0v.len() {
                            assert(plan@[k] == plan0v[k]);
                        }
                    }
                    assert(plan.deep_view() =~= plan0.push(plan@[plan@.len() - 1]@));
                }
                assert(plan.deep_view() =~= fd_file_actions(cur, fd, bufv));
                if redirects_fd(cur, fd) && !redirects_fd(pre, fd) {
                    let w = choose|w: int| 0 <= w < cur.len() && out_fd(#[trigger] cur[w]) == Some(
                        fd,
                    );
                    if w < i - 1 {
                        assert(out_fd(pre[w]) == Some(fd));
                        assert(redirects_fd(pre, fd));
                    }
                }
                if redirects_fd(pre, fd) {
                    let w = choose|w: int| 0 <= w < pre.len() && out_fd(#[trigger] pre[w]) == Some(
                        fd,
                    );
                    assert(out_fd(cur[w]) == Some(fd));
                    assert(redirects_fd(cur, fd));
                }
                if out_fd(self.reds()[i - 1]) == Some(fd) {
                    assert(cur[i - 1] == self.reds()[i - 1]);
                    assert(out_fd(cur[i - 1]) == Some(fd));
                    assert(redirects_fd(cur, fd));
                }
            }
        }
        proof {
            assert(self.reds().subrange(0, self.reds().len() as int) =~= self.reds());
        }
        if matched {
            plan
        } else {
            let mut plan2: Vec<Effect> = Vec::new();
            if is_out {
                plan2.push(Effect::TermOut(buf.clone()));
                proof {
                    assert(plan2.deep_view() =~= seq![EffectV::TermOut(bufv)]);
                }
            } else {
                plan2.push(Effect::TermErr(buf.clone()));
                proof {
                    assert(plan2.deep_view() =~= seq![EffectV::TermErr(bufv)]);
                }
            }
            plan2
        }
    }
}

/// One more redirection extends the file actions by at most one action, at
/// the end.
proof fn lemma_fd_file_actions_snoc(rs: Seq<RedirectV>, r: RedirectV, fd: u16, buf: Seq<char>)
    ensures
        fd_file_actions(rs.push(r), fd, buf) == fd_file_actions(rs, fd, buf) + (
        match r {
            RedirectV::Write(f, p) => if f == fd {
                seq![EffectV::FileWrite(p, buf)]
            } else {
                Seq::empty()
            },
            RedirectV::Append(f, p) => if f == fd {
                seq![EffectV::FileAppend(p, buf)]
            } else {
                Seq::empty()
            },
            RedirectV::Read(f, p) => Seq::empty(),
        }),
    decreases rs.len(),
{
    if rs.len() == 0 {
        assert(rs.push(r)[0] == r);
        assert(rs.push(r).drop_first() =~= Seq::<RedirectV>::empty());
        assert(fd_file_actions(Seq::empty(), fd, buf) == Seq::<EffectV>::empty());
        match r {
            RedirectV::Write(f, p) => {
                if f == fd {
                    assert(fd_file_actions(rs.push(r), fd, buf) =~= seq![
                        EffectV::FileWrite(p, buf),
                    ]);
                    assert(fd_file_actions(rs, fd, buf) + seq![EffectV::FileWrite(p, buf)] =~= seq![
                        EffectV::FileWrite(p, buf),
                    ]);
                } else {
                    assert(fd_file_actions(rs, fd, buf) + Seq::<EffectV>::empty()
                        =~= fd_file_actions(rs.push(r), fd, buf));
                }
            },
            RedirectV::Append(f, p) => {
                if f == fd {
                    assert(fd_file_actions(rs.push(r), fd, buf) =~= seq![
                        EffectV::FileAppend(p, buf),
                    ]);
                    assert(fd_file_actions(rs, fd, buf) + seq![EffectV::FileAppend(p, buf)] =~= seq![
                        EffectV::FileAppend(p, buf),
                    ]);
                } else {
                    assert(fd_file_actions(rs, fd, buf) + Seq::<EffectV>::empty()
                        =~= fd_file_actions(rs.push(r), fd, buf));
                }
            },
            RedirectV::Read(f, p) => {
                assert(fd_file_actions(rs, fd, buf) + Seq::<EffectV>::empty() =~= fd_file_actions(
                    rs.push(r),
                    fd,
                    buf,
                ));
            },
        }
    } else {
        lemma_fd_file_actions_snoc(rs.drop_first(), r, fd, buf);
        assert(rs.push(r)[0] == rs[0]);
        assert(rs.push(r).drop_first() =~= rs.drop_first().push(r));
        let tail_old = fd_file_actions(rs.drop_first(), fd, buf);
        let tail_new = fd_file_actions(rs.drop_first().push(r), fd, buf);
        let extra = (match r {
            RedirectV::Write(f, p) => if f == fd {
                seq![EffectV::FileWrite(p, buf)]
            } else {
                Seq::<EffectV>::empty()
            },
            RedirectV::Append(f, p) => if f == fd {
                seq![EffectV::FileAppend(p, buf)]
            } else {
                Seq::<EffectV>::empty()
            },
            RedirectV::Read(f, p) => Seq::<EffectV>::empty(),
        });
        assert(tail_new == tail_old + extra);
        match rs[0] {
            RedirectV::Write(f, p) => {
                if f == fd {
                    assert(fd_file_actions(rs.push(r), fd, buf) =~= seq![
                        EffectV::FileWrite(p, buf),
                    ] + tail_old + extra);
                    assert(fd_file_actions(rs, fd, buf) + extra =~= seq![
                        EffectV::FileWrite(p, buf),
                    ] + tail_old + extra);
                } else {
                    assert(fd_file_actions(rs.push(r), fd, buf) =~= fd_file_actions(rs, fd, buf)
                        + extra);
                }
            },
            RedirectV::Append(f, p) => {
                if f == fd {
                    assert(fd_file_actions(rs.push(r), fd, buf) =~= seq![
                        EffectV::FileAppend(p, buf),
                    ] + tail_old + extra);
                    assert(fd_file_actions(rs, fd, buf) + extra =~= seq![
                        EffectV::FileAppend(p, buf),
                    ] + tail_old + extra);
                } else {
                    assert(fd_file_actions(rs.push(r), fd, buf) =~= fd_file_actions(rs, fd, buf)
                        + extra);
                }
            },
            RedirectV::Read(f, p) => {
                assert(fd_file_actions(rs.push(r), fd, buf) =~= fd_file_actions(rs, fd, buf)
                    + extra);
            },
        }
    }
}

} // verus!
