//! Local terminal sessions: which shell a local session starts, and what
//! happens to the output of the pseudo-terminal.
//!
//! Opening the pseudo-terminal, spawning the shell and the reader and writer
//! threads are the caller's.

use vstd::prelude::*;
use crate::ls::words_of;
use crate::osc::{osc_push, string_views, OscStripper};
use crate::session_io::{shows, IoEffects};
use crate::text::{chars_of, skip_ws_forward, string_from_range, to_owned_string, trim_seq, trim_string, is_whitespace, is_ws, leading_ws, lemma_leading_ws};

verus! {

/// The shell a local session runs.
#[derive(Debug)]
pub struct ShellCommand {
    /// The program started.
    pub program: String,
    /// Its arguments.
    pub args: Vec<String>,
    /// The name the shell is recognised by.
    pub name: String,
}

/// The shell command line: the configured one when it is not blank,
/// otherwise PowerShell on Windows and `$SHELL` (or `/bin/bash`) elsewhere.
pub open spec fn shell_line(configured: Option<Seq<char>>, windows: bool, env_shell: Option<Seq<char>>) -> Seq<char> {
    match configured {
        Some(c) if trim_seq(c).len() > 0 => c,
        _ => if windows {
            "powershell.exe"@
        } else {
            match env_shell {
                Some(s) => s,
                None => "/bin/bash"@,
            }
        },
    }
}

/// The local shell: the words of the command line are the program and its
/// arguments, the program naming the shell; a line without words falls back
/// to PowerShell on Windows and `/bin/bash` (named `bash`) elsewhere.
pub fn shell_command(configured: Option<&str>, windows: bool, env_shell: Option<&str>) -> (res: ShellCommand)
    ensures
        ({
            let line = shell_line(
                match configured {
                    Some(c) => Some(c@),
                    None => None,
                },
                windows,
                match env_shell {
                    Some(s) => Some(s@),
                    None => None,
                },
            );
            let parts = words_of(line);
            if parts.len() == 0 {
                &&& res.args@.len() == 0
                &&& res.program@ == (if windows {
                    "powershell.exe"@
                } else {
                    "/bin/bash"@
                })
                &&& res.name@ == (if windows {
                    "powershell.exe"@
                } else {
                    "bash"@
                })
            } else {
                &&& res.program@ == parts[0]
                &&& res.name@ == parts[0]
                &&& string_views(res.args@) == parts.skip(1)
            }
        }),
{
    let line: String = match configured {
        Some(c) => {
            let t = trim_string(c);
            if !t.as_str().is_empty() {
                to_owned_string(c)
            } else if windows {
                to_owned_string("powershell.exe")
            } else {
                match env_shell {
                    Some(s) => to_owned_string(s),
                    None => to_owned_string("/bin/bash"),
                }
            }
        },
        None => {
            if windows {
                to_owned_string("powershell.exe")
            } else {
                match env_shell {
                    Some(s) => to_owned_string(s),
                    None => to_owned_string("/bin/bash"),
                }
            }
        },
    };
    let v = chars_of(line.as_str());
    let parts = split_words(&v);
    if parts.len() == 0 {
        if windows {
            return ShellCommand {
                program: to_owned_string("powershell.exe"),
                args: Vec::new(),
                name: to_owned_string("powershell.exe"),
            };
        } else {
            return ShellCommand {
                program: to_owned_string("/bin/bash"),
                args: Vec::new(),
                name: to_owned_string("bash"),
            };
        }
    }
    let mut parts = parts;
    let ghost all = string_views(parts@);
    let program = parts.remove(0);
    proof {
        assert(string_views(parts@) =~= all.skip(1));
    }
    let name = program.clone();
    ShellCommand { program, args: parts, name }
}

/// The words of `v` (`split_whitespace`).
fn split_words(v: &Vec<char>) -> (res: Vec<String>)
    ensures
        string_views(res@) == words_of(v@),
{
    let mut out: Vec<String> = Vec::new();
    let mut i: usize = 0;
    let n = v.len();
    assert(v@.subrange(0, n as int) =~= v@);
    loop
        invariant
            i <= n == v.len(),
            words_of(v@) == string_views(out@) + words_of(v@.subrange(i as int, n as int)),
        ensures
            words_of(v@) == string_views(out@),
        decreases n - i,
    {
        let ghost rest = v@.subrange(i as int, n as int);
        let j = skip_ws_forward(v, i, n);
        if j == n {
            proof {
                assert(words_of(rest) == Seq::<Seq<char>>::empty());
                assert(string_views(out@) + Seq::<Seq<char>>::empty() =~= string_views(out@));
            }
            break;
        }
        let mut k = j;
        while k < n && !is_whitespace(v[k])
            invariant
                j <= k <= n == v.len(),
                forall|m: int| j <= m < k ==> !is_ws(v@[m]),
            decreases n - k,
        {
            k = k + 1;
        }
        proof {
            let t = v@.subrange(j as int, n as int);
            lemma_leading_ws(rest);
            assert(rest.skip(leading_ws(rest) as int) =~= t);
            assert(t[0] == v@[j as int]);
            assert forall|m: int| 0 <= m < k - j implies !is_ws(t[m]) by {
                assert(t[m] == v@[j + m]);
            }
            crate::ls::lemma_word_len_from(t, k - j);
            let u = t.skip(k - j);
            if u.len() > 0 {
                assert(u[0] == v@[k as int]);
            }
            assert(t.take(k - j) =~= v@.subrange(j as int, k as int));
            assert(u =~= v@.subrange(k as int, n as int));
        }
        let w = string_from_range(v, j, k);
        let ghost before = string_views(out@);
        out.push(w);
        proof {
            assert(string_views(out@) =~= before.push(w@));
            assert(words_of(rest) == seq![w@] + words_of(v@.subrange(k as int, n as int)));
            assert(before.push(w@) + words_of(v@.subrange(k as int, n as int)) =~= before + (seq![
                w@,
            ] + words_of(v@.subrange(k as int, n as int))));
        }
        i = k;
    }
    out
}

/// What one chunk of output does to a local session's output state
/// `(injecting, attached, held, partial)`: the new state and the texts shown
/// to the frontend.  Until the ready marker ends the injection everything is
/// discarded; afterwards non-empty visible text is shown at once when the
/// frontend is attached and held otherwise.
pub open spec fn pty_data_step(
    st: (bool, bool, Seq<Seq<char>>, Seq<char>),
    text: Seq<char>,
) -> ((bool, bool, Seq<Seq<char>>, Seq<char>), Seq<Seq<char>>) {
    let out = osc_push(st.3, text);
    let still = st.0 && !out.2;
    if still {
        ((true, st.1, st.2, out.3), Seq::empty())
    } else if out.0.len() == 0 {
        ((false, st.1, st.2, out.3), Seq::empty())
    } else if st.1 {
        ((false, true, st.2, out.3), seq![out.0])
    } else {
        ((false, false, st.2.push(out.0), out.3), Seq::empty())
    }
}

/// What the frontend attaching does: the held texts are shown, in order.
pub open spec fn pty_attach_step(st: (bool, bool, Seq<Seq<char>>, Seq<char>)) -> (
    (bool, bool, Seq<Seq<char>>, Seq<char>),
    Seq<Seq<char>>,
) {
    ((st.0, true, Seq::empty(), st.3), st.2)
}

/// A run of events (`Some(text)` for output, `None` for the frontend
/// attaching): the final state and everything shown, in order.
pub open spec fn pty_run(
    st: (bool, bool, Seq<Seq<char>>, Seq<char>),
    events: Seq<Option<Seq<char>>>,
) -> ((bool, bool, Seq<Seq<char>>, Seq<char>), Seq<Seq<char>>)
    decreases events.len(),
{
    if events.len() == 0 {
        (st, Seq::empty())
    } else {
        let before = pty_run(st, events.drop_last());
        let step = match events.last() {
            Some(t) => pty_data_step(before.0, t),
            None => pty_attach_step(before.0),
        };
        (step.0, before.1 + step.1)
    }
}

/// The texts a run of output releases, attaching aside: the non-empty visible
/// text of each chunk that comes once the ready marker has ended the
/// injection, in order; with whether the injection is still on and what the
/// stripper holds at the end.
pub open spec fn pty_released(
    injecting: bool,
    partial: Seq<char>,
    events: Seq<Option<Seq<char>>>,
) -> (bool, Seq<char>, Seq<Seq<char>>)
    decreases events.len(),
{
    if events.len() == 0 {
        (injecting, partial, Seq::empty())
    } else {
        let before = pty_released(injecting, partial, events.drop_last());
        match events.last() {
            Some(t) => {
                let out = osc_push(before.1, t);
                let still = before.0 && !out.2;
                (
                    still,
                    out.3,
                    if !still && out.0.len() > 0 {
                        before.2.push(out.0)
                    } else {
                        before.2
                    },
                )
            },
            None => before,
        }
    }
}

/// Local output reaches the frontend once and in order: over any run of
/// output chunks and attaches, what was shown followed by what is still held
/// is exactly the text released after the ready marker, whenever the
/// frontend attached; nothing is held once it has attached.
pub proof fn law_pty_output_shown_once_in_order(
    st: (bool, bool, Seq<Seq<char>>, Seq<char>),
    events: Seq<Option<Seq<char>>>,
)
    requires
        st.1 ==> st.2.len() == 0,
    ensures
        ({
            let run = pty_run(st, events);
            let rel = pty_released(st.0, st.3, events);
            &&& run.0.0 == rel.0
            &&& run.0.3 == rel.1
            &&& run.1 + run.0.2 == st.2 + rel.2
            &&& run.0.1 ==> run.0.2.len() == 0
        }),
    decreases events.len(),
{
    if events.len() > 0 {
        law_pty_output_shown_once_in_order(st, events.drop_last());
        let before = pty_run(st, events.drop_last());
        let rel0 = pty_released(st.0, st.3, events.drop_last());
        match events.last() {
            Some(t) => {
                let out = osc_push(before.0.3, t);
                if !(before.0.0 && !out.2) && out.0.len() > 0 {
                    if before.0.1 {
                        assert(before.1 + seq![out.0] + Seq::<Seq<char>>::empty() =~= before.1
                            + before.0.2 + seq![out.0]);
                        assert(before.1 + before.0.2 =~= before.1);
                    } else {
                        assert(before.1 + Seq::<Seq<char>>::empty() + before.0.2.push(out.0)
                            =~= (before.1 + before.0.2).push(out.0));
                        assert((st.2 + rel0.2).push(out.0) =~= st.2 + rel0.2.push(out.0));
                    }
                } else {
                    assert(before.1 + Seq::<Seq<char>>::empty() =~= before.1);
                }
            },
            None => {
                assert(before.1 + before.0.2 + Seq::<Seq<char>>::empty() =~= before.1
                    + before.0.2);
            },
        }
    } else {
        assert(Seq::<Seq<char>>::empty() + st.2 =~= st.2 + Seq::<Seq<char>>::empty());
    }
}

/// Nothing of a local session's output is released while the injection is
/// on: a run after which the ready marker still has not come released no
/// text at all.
pub proof fn law_pty_nothing_before_ready(
    partial: Seq<char>,
    events: Seq<Option<Seq<char>>>,
)
    ensures
        pty_released(true, partial, events).0 ==> pty_released(true, partial, events).2.len() == 0,
    decreases events.len(),
{
    if events.len() > 0 {
        law_pty_nothing_before_ready(partial, events.drop_last());
    }
}

/// The state of a local session's output handling.
pub struct PtyOutput {
    injecting: bool,
    attached: bool,
    buffer: Vec<String>,
    stripper: OscStripper,
}

impl PtyOutput {
    /// Whether the hook's echo is still being discarded.
    pub closed spec fn injecting(&self) -> bool {
        self.injecting
    }

    /// Whether the frontend has attached.
    pub closed spec fn attached(&self) -> bool {
        self.attached
    }

    /// Output held until the frontend attaches.
    pub closed spec fn held(&self) -> Seq<Seq<char>> {
        string_views(self.buffer@)
    }

    /// Output the stripper holds back.
    pub closed spec fn partial(&self) -> Seq<char> {
        self.stripper.buffered()
    }

    /// The state the laws speak of: `(injecting, attached, held, partial)`.
    pub open spec fn state(&self) -> (bool, bool, Seq<Seq<char>>, Seq<char>) {
        (self.injecting(), self.attached(), self.held(), self.partial())
    }

    /// Output handling for a session that sent the hook (`injecting`) or not.
    pub fn new(injecting: bool, ready_marker: &str) -> (res: Self)
        ensures
            res.injecting() == injecting,
            !res.attached(),
            res.held().len() == 0,
            res.partial().len() == 0,
    {
        let res = PtyOutput {
            injecting,
            attached: false,
            buffer: Vec::new(),
            stripper: OscStripper::new(ready_marker),
        };
        assert(res.held() =~= Seq::<Seq<char>>::empty());
        res
    }

    /// Output of the shell: discarded, working-directory reports included,
    /// until the ready marker ends the injection; shown afterwards.
    pub fn on_data(&mut self, text: &str) -> (res: IoEffects)
        ensures
            ({
                let out = osc_push(old(self).partial(), text@);
                let still = old(self).injecting() && !out.2;
                &&& final(self).partial() == out.3
                &&& final(self).injecting() == still
                &&& final(self).attached() == old(self).attached()
                &&& if still {
                    &&& res.cwd_paths@.len() == 0 && res.record is None && res.emit@.len() == 0
                    &&& res.send is None && !res.restart_deadline
                    &&& final(self).held() == old(self).held()
                } else {
                    shows(out.0, out.1, old(self).attached(), old(self).held(), res, final(self).held())
                }
            }),
            pty_data_step(old(self).state(), text@) == (final(self).state(), string_views(res.emit@)),
    {
        let result = self.stripper.push(text);
        if result.ready && self.injecting {
            self.injecting = false;
        }
        let mut eff = IoEffects {
            cwd_paths: Vec::new(),
            record: None,
            emit: Vec::new(),
            send: None,
            restart_deadline: false,
        };
        assert(string_views(eff.emit@) =~= Seq::<Seq<char>>::empty());
        if self.injecting {
            return eff;
        }
        eff.cwd_paths = result.cwd_paths;
        let visible = result.visible;
        if visible.as_str().is_empty() {
            return eff;
        }
        eff.record = Some(visible.clone());
        if self.attached {
            eff.emit.push(visible);
            assert(string_views(eff.emit@) =~= seq![eff.emit@[0]@]);
        } else {
            let ghost before = self.held();
            self.buffer.push(visible);
            assert(self.held() =~= before.push(eff.record->0@));
        }
        eff
    }

    /// The frontend attached: the held output is handed over, in order.
    pub fn on_attach(&mut self) -> (res: Vec<String>)
        ensures
            string_views(res@) == old(self).held(),
            final(self).attached(),
            final(self).held().len() == 0,
            final(self).injecting() == old(self).injecting(),
            final(self).partial() == old(self).partial(),
            pty_attach_step(old(self).state()) == (final(self).state(), string_views(res@)),
    {
        self.attached = true;
        let mut out: Vec<String> = Vec::new();
        std::mem::swap(&mut out, &mut self.buffer);
        assert(self.held() =~= Seq::<Seq<char>>::empty());
        out
    }
}

} // verus!
