//! The decisions of an SSH session's I/O loop: which shell was detected, when
//! the working-directory hook is injected, which output is suppressed while
//! the hook's echo passes, and which output waits until the frontend attaches.
//!
//! The loop itself (channel reads and writes, the frontend events, the
//! injection deadline) is the caller's: it hands each event to [`SessionIo`]
//! and carries out the [`IoEffects`] it gets back.

use vstd::prelude::*;
use crate::osc::{
    injection_script, injection_script_of, osc_push, shell_kind_of_name, string_views,
    OscStripper, ShellKind,
};
use crate::error::{AppError, AppResult};
use crate::text::{push_str, to_owned_string, trim_seq, trim_string};

verus! {

/// The shell that the probe command's output names, when the hook can be
/// injected into it: an unknown shell and PowerShell are not probed this way.
pub open spec fn probed_shell(output: Seq<char>) -> Option<ShellKind> {
    let kind = shell_kind_of_name(trim_seq(output));
    if kind == ShellKind::Unknown || kind == ShellKind::PowerShell {
        None
    } else {
        Some(kind)
    }
}

/// The shell named by the output of the probe command (`$SHELL` and the
/// process name).
pub fn shell_from_probe(output: &str) -> (res: Option<ShellKind>)
    ensures
        res == probed_shell(output@),
{
    let t = trim_string(output);
    let kind = ShellKind::from_name(t.as_str());
    if kind == ShellKind::Unknown || kind == ShellKind::PowerShell {
        None
    } else {
        Some(kind)
    }
}

/// The hook script to inject for the detected shell, if any.
pub fn injection_for(detected: Option<ShellKind>, ready_marker: &str) -> (res: Option<String>)
    ensures
        match detected {
            Some(k) => match injection_script_of(k, ready_marker@) {
                Some(s) => res matches Some(r) && r@ == s,
                None => res is None,
            },
            None => res is None,
        },
{
    match detected {
        Some(k) => injection_script(k, ready_marker),
        None => None,
    }
}

/// Where the hook injection stands.
#[derive(Debug, Clone, Copy, PartialEq, Eq, Structural)]
pub enum IoPhase {
    /// Passing all output through until the shell's first output (banner,
    /// MOTD) has been shown; then the hook is sent.
    WaitInitial,
    /// Hook sent: its echo is discarded until the ready marker comes or the
    /// deadline passes.
    Suppressing,
    /// Normal operation: our sequences are stripped, the rest is shown.
    Normal,
}

/// What the loop does after an event, in this order: store and report each
/// new working directory, record the output, show the texts, send the hook,
/// and restart the injection deadline.
#[derive(Debug)]
pub struct IoEffects {
    pub cwd_paths: Vec<String>,
    pub record: Option<String>,
    pub emit: Vec<String>,
    pub send: Option<String>,
    pub restart_deadline: bool,
}

/// The events of a session's I/O loop as far as the hook injection goes:
/// shell output (and whether it carried the ready marker), error output, the
/// frontend attaching, and the injection deadline passing.
pub enum IoEvent {
    Data { ready: bool },
    ExtendedData,
    Attach,
    InjectTimeout,
}

/// The order of the phases: waiting, suppressing, normal.
pub open spec fn phase_rank(p: IoPhase) -> int {
    match p {
        IoPhase::WaitInitial => 0,
        IoPhase::Suppressing => 1,
        IoPhase::Normal => 2,
    }
}

/// The hooks an event's effects send.
pub open spec fn sent_of(eff: IoEffects) -> Seq<Seq<char>> {
    match eff.send {
        Some(s) => seq![s@],
        None => Seq::empty(),
    }
}

/// What an event does to the injection: the next phase, the hook still to
/// send, and the hooks sent.  The first output sends the hook and starts
/// suppressing; the ready marker or the deadline ends the suppression.
pub open spec fn io_step(phase: IoPhase, pending: Option<Seq<char>>, ev: IoEvent) -> (
    IoPhase,
    Option<Seq<char>>,
    Seq<Seq<char>>,
) {
    match ev {
        IoEvent::Data { ready } => match phase {
            IoPhase::WaitInitial => (
                IoPhase::Suppressing,
                None,
                match pending {
                    Some(s) => seq![s],
                    None => Seq::empty(),
                },
            ),
            IoPhase::Suppressing => (
                if ready {
                    IoPhase::Normal
                } else {
                    IoPhase::Suppressing
                },
                pending,
                Seq::empty(),
            ),
            IoPhase::Normal => (IoPhase::Normal, pending, Seq::empty()),
        },
        IoEvent::InjectTimeout => (
            if phase == IoPhase::Suppressing {
                IoPhase::Normal
            } else {
                phase
            },
            pending,
            Seq::empty(),
        ),
        _ => (phase, pending, Seq::empty()),
    }
}

/// A run of events: the final phase, the hook still to send, and every hook
/// sent, in order.
pub open spec fn io_run(phase: IoPhase, pending: Option<Seq<char>>, events: Seq<IoEvent>) -> (
    IoPhase,
    Option<Seq<char>>,
    Seq<Seq<char>>,
)
    decreases events.len(),
{
    if events.len() == 0 {
        (phase, pending, Seq::empty())
    } else {
        let before = io_run(phase, pending, events.drop_last());
        let step = io_step(before.0, before.1, events.last());
        (step.0, step.1, before.2 + step.2)
    }
}

/// Whether a run holds shell output.
pub open spec fn has_output(events: Seq<IoEvent>) -> bool
    decreases events.len(),
{
    events.len() > 0 && (events.last() is Data || has_output(events.drop_last()))
}

/// The injection phases never go back: over any run, each event leaves the
/// phase where it was or moves it on (waiting, suppressing, normal).
pub proof fn law_io_phases_never_go_back(
    phase: IoPhase,
    pending: Option<Seq<char>>,
    events: Seq<IoEvent>,
)
    ensures
        forall|i: int|
            0 <= i < events.len() ==> phase_rank(io_run(phase, pending, events.take(i)).0)
                <= phase_rank(#[trigger] io_run(phase, pending, events.take(i + 1)).0),
{
    assert forall|i: int| 0 <= i < events.len() implies phase_rank(
        io_run(phase, pending, events.take(i)).0,
    ) <= phase_rank(#[trigger] io_run(phase, pending, events.take(i + 1)).0) by {
        assert(events.take(i + 1).drop_last() =~= events.take(i));
        assert(events.take(i + 1).last() == events[i]);
    }
}

/// The hook is sent once at most: exactly when the session was waiting with
/// a hook and shell output came, the hook goes out, once, and nothing is
/// left to send; a session still waiting has had no output.
pub proof fn law_io_hook_sent_once(
    phase: IoPhase,
    pending: Option<Seq<char>>,
    events: Seq<IoEvent>,
)
    ensures
        ({
            let run = io_run(phase, pending, events);
            let fired = phase == IoPhase::WaitInitial && has_output(events);
            &&& run.2 == (if fired {
                match pending {
                    Some(s) => seq![s],
                    None => Seq::<Seq<char>>::empty(),
                }
            } else {
                Seq::<Seq<char>>::empty()
            })
            &&& run.2.len() <= 1
            &&& run.1 == (if fired {
                None
            } else {
                pending
            })
            &&& (run.0 == IoPhase::WaitInitial <==> (phase == IoPhase::WaitInitial && !has_output(
                events,
            )))
        }),
    decreases events.len(),
{
    if events.len() > 0 {
        law_io_hook_sent_once(phase, pending, events.drop_last());
        let before = io_run(phase, pending, events.drop_last());
        assert(before.2 + Seq::<Seq<char>>::empty() =~= before.2);
        if let Some(s) = pending {
            assert(Seq::<Seq<char>>::empty() + seq![s] =~= seq![s]);
        } else {
            assert(Seq::<Seq<char>>::empty() + Seq::<Seq<char>>::empty() =~= Seq::<Seq<char>>::empty());
        }
    }
}

/// The state of one session's output handling.
pub struct SessionIo {
    phase: IoPhase,
    pending_script: Option<String>,
    attached: bool,
    buffer: Vec<String>,
    stripper: OscStripper,
}

/// The effects of showing `visible` (with `paths` found) to a frontend that is
/// `attached` or not, the held output going from `held` to `held2`.
pub open spec fn shows(
    visible: Seq<char>,
    paths: Seq<Seq<char>>,
    attached: bool,
    held: Seq<Seq<char>>,
    eff: IoEffects,
    held2: Seq<Seq<char>>,
) -> bool {
    &&& string_views(eff.cwd_paths@) == paths
    &&& eff.send is None
    &&& !eff.restart_deadline
    &&& if visible.len() == 0 {
        eff.record is None && eff.emit@.len() == 0 && held2 == held
    } else {
        &&& (eff.record matches Some(r) && r@ == visible)
        &&& if attached {
            string_views(eff.emit@) == seq![visible] && held2 == held
        } else {
            eff.emit@.len() == 0 && held2 == held.push(visible)
        }
    }
}

/// Effects that do nothing.
pub open spec fn no_effects(eff: IoEffects) -> bool {
    &&& eff.cwd_paths@.len() == 0
    &&& eff.record is None
    &&& eff.emit@.len() == 0
    &&& eff.send is None
    &&& !eff.restart_deadline
}

fn empty_effects() -> (res: IoEffects)
    ensures
        no_effects(res),
{
    IoEffects {
        cwd_paths: Vec::new(),
        record: None,
        emit: Vec::new(),
        send: None,
        restart_deadline: false,
    }
}

impl SessionIo {
    /// Where the injection stands.
    pub closed spec fn phase(&self) -> IoPhase {
        self.phase
    }

    /// The hook still to send.
    pub closed spec fn pending(&self) -> Option<Seq<char>> {
        match self.pending_script {
            Some(s) => Some(s@),
            None => None,
        }
    }

    /// Whether the frontend has attached.
    pub closed spec fn attached(&self) -> bool {
        self.attached
    }

    /// Output held until the frontend attaches.
    pub closed spec fn held(&self) -> Seq<Seq<char>> {
        string_views(self.buffer@)
    }

    /// Output the stripper holds back.
    pub closed spec fn partial(&self) -> Seq<char> {
        self.stripper.buffered()
    }

    /// A session whose frontend has not attached yet; with a hook to inject
    /// it waits for the shell's first output, without one it starts normal.
    pub fn new(injection_script: Option<String>, ready_marker: &str) -> (res: Self)
        ensures
            res.phase() == (if injection_script is Some {
                IoPhase::WaitInitial
            } else {
                IoPhase::Normal
            }),
            res.pending() == match injection_script {
                Some(s) => Some(s@),
                None => None::<Seq<char>>,
            },
            !res.attached(),
            res.held().len() == 0,
            res.partial().len() == 0,
    {
        let phase = if injection_script.is_some() {
            IoPhase::WaitInitial
        } else {
            IoPhase::Normal
        };
        let res = SessionIo {
            phase,
            pending_script: injection_script,
            attached: false,
            buffer: Vec::new(),
            stripper: OscStripper::new(ready_marker),
        };
        assert(res.held() =~= Seq::<Seq<char>>::empty());
        res
    }

    /// Whether the injection deadline matters now.
    pub fn waiting_for_ready(&self) -> (res: bool)
        ensures
            res == (self.phase() == IoPhase::Suppressing),
    {
        self.phase == IoPhase::Suppressing
    }

    /// The frontend attached: the held output is handed over, in order, and
    /// from now on output is shown at once.
    pub fn on_attach(&mut self) -> (res: Vec<String>)
        ensures
            string_views(res@) == old(self).held(),
            final(self).attached(),
            final(self).held().len() == 0,
            final(self).phase() == old(self).phase(),
            final(self).pending() == old(self).pending(),
            final(self).partial() == old(self).partial(),
            io_step(old(self).phase(), old(self).pending(), IoEvent::Attach) == (
                final(self).phase(),
                final(self).pending(),
                Seq::<Seq<char>>::empty(),
            ),
    {
        self.attached = true;
        let mut out: Vec<String> = Vec::new();
        std::mem::swap(&mut out, &mut self.buffer);
        assert(self.held() =~= Seq::<Seq<char>>::empty());
        out
    }

    fn show(&mut self, visible: String, cwd_paths: Vec<String>) -> (res: IoEffects)
        ensures
            shows(
                visible@,
                string_views(cwd_paths@),
                old(self).attached(),
                old(self).held(),
                res,
                final(self).held(),
            ),
            final(self).attached() == old(self).attached(),
            final(self).phase() == old(self).phase(),
            final(self).pending() == old(self).pending(),
            final(self).partial() == old(self).partial(),
    {
        let mut eff = empty_effects();
        eff.cwd_paths = cwd_paths;
        if visible.as_str().is_empty() {
            return eff;
        }
        eff.record = Some(visible.clone());
        if self.attached {
            eff.emit.push(visible);
            assert(string_views(eff.emit@) =~= seq![eff.emit@[0]@]);
        } else {
            let ghost before = self.held();
            self.buffer.push(visible);
            assert(self.held() =~= before.push(eff.record->0@));
        }
        eff
    }

    /// Output from the shell.  Before the first output is shown the hook is
    /// sent; while its echo passes only working-directory reports and the
    /// ready marker count; otherwise the visible text is shown.
    pub fn on_data(&mut self, text: &str) -> (res: IoEffects)
        ensures
            ({
                let out = osc_push(old(self).partial(), text@);
                &&& final(self).partial() == out.3
                &&& final(self).attached() == old(self).attached()
                &&& match old(self).phase() {
                    IoPhase::WaitInitial => {
                        &&& final(self).phase() == IoPhase::Suppressing
                        &&& final(self).pending() is None
                        &&& res.restart_deadline
                        &&& (match old(self).pending() {
                            Some(s) => res.send matches Some(x) && x@ == s,
                            None => res.send is None,
                        })
                        &&& string_views(res.cwd_paths@) == out.1
                        &&& if out.0.len() == 0 {
                            res.record is None && res.emit@.len() == 0 && final(self).held()
                                == old(self).held()
                        } else {
                            &&& (res.record matches Some(r) && r@ == out.0)
                            &&& if old(self).attached() {
                                string_views(res.emit@) == seq![out.0] && final(self).held()
                                    == old(self).held()
                            } else {
                                res.emit@.len() == 0 && final(self).held() == old(self).held().push(
                                    out.0,
                                )
                            }
                        }
                    },
                    IoPhase::Suppressing => {
                        &&& final(self).phase() == (if out.2 {
                            IoPhase::Normal
                        } else {
                            IoPhase::Suppressing
                        })
                        &&& final(self).pending() == old(self).pending()
                        &&& final(self).held() == old(self).held()
                        &&& string_views(res.cwd_paths@) == out.1
                        &&& res.record is None && res.emit@.len() == 0 && res.send is None
                        &&& !res.restart_deadline
                    },
                    IoPhase::Normal => {
                        &&& final(self).phase() == IoPhase::Normal
                        &&& final(self).pending() == old(self).pending()
                        &&& shows(out.0, out.1, old(self).attached(), old(self).held(), res, final(self).held())
                    },
                }
            }),
            io_step(
                old(self).phase(),
                old(self).pending(),
                IoEvent::Data { ready: osc_push(old(self).partial(), text@).2 },
            ) == (final(self).phase(), final(self).pending(), sent_of(res)),
    {
        let result = self.stripper.push(text);
        match self.phase {
            IoPhase::WaitInitial => {
                let mut eff = self.show(result.visible, result.cwd_paths);
                let mut script: Option<String> = None;
                std::mem::swap(&mut script, &mut self.pending_script);
                eff.send = script;
                eff.restart_deadline = true;
                self.phase = IoPhase::Suppressing;
                eff
            },
            IoPhase::Suppressing => {
                let mut eff = empty_effects();
                eff.cwd_paths = result.cwd_paths;
                if result.ready {
                    self.phase = IoPhase::Normal;
                }
                eff
            },
            IoPhase::Normal => self.show(result.visible, result.cwd_paths),
        }
    }

    /// Output from the shell's error stream: recorded and shown as it is.
    pub fn on_extended_data(&mut self, text: String) -> (res: IoEffects)
        ensures
            res.record matches Some(r) && r@ == text@,
            res.cwd_paths@.len() == 0 && res.send is None && !res.restart_deadline,
            old(self).attached() ==> string_views(res.emit@) == seq![text@] && final(self).held()
                == old(self).held(),
            !old(self).attached() ==> res.emit@.len() == 0 && final(self).held() == old(
                self,
            ).held().push(text@),
            final(self).attached() == old(self).attached(),
            final(self).phase() == old(self).phase(),
            final(self).pending() == old(self).pending(),
            final(self).partial() == old(self).partial(),
            io_step(old(self).phase(), old(self).pending(), IoEvent::ExtendedData) == (
                final(self).phase(),
                final(self).pending(),
                sent_of(res),
            ),
    {
        let mut eff = empty_effects();
        eff.record = Some(text.clone());
        if self.attached {
            eff.emit.push(text);
            assert(string_views(eff.emit@) =~= seq![eff.emit@[0]@]);
        } else {
            let ghost before = self.held();
            self.buffer.push(text);
            assert(self.held() =~= before.push(eff.record->0@));
        }
        eff
    }

    /// The ready marker did not come in time: normal operation resumes and
    /// whatever the stripper held back is shown.
    pub fn on_inject_timeout(&mut self) -> (res: IoEffects)
        requires
            old(self).phase() == IoPhase::Suppressing,
        ensures
            final(self).phase() == IoPhase::Normal,
            final(self).partial().len() == 0,
            final(self).pending() == old(self).pending(),
            final(self).attached() == old(self).attached(),
            shows(
                old(self).partial(),
                Seq::empty(),
                old(self).attached(),
                old(self).held(),
                res,
                final(self).held(),
            ),
            io_step(old(self).phase(), old(self).pending(), IoEvent::InjectTimeout) == (
                final(self).phase(),
                final(self).pending(),
                sent_of(res),
            ),
    {
        self.phase = IoPhase::Normal;
        let flushed = self.stripper.flush();
        let none: Vec<String> = Vec::new();
        assert(string_views(none@) =~= Seq::<Seq<char>>::empty());
        self.show(flushed, none)
    }
}


/// The answer to a one-time-password response: accepted when a pending
/// request took it, an authentication error naming the request otherwise.
pub fn otp_response_result(delivered: bool, request_id: &str) -> (res: AppResult<()>)
    ensures
        delivered ==> res is Ok,
        !delivered ==> (res matches Err(AppError::Auth(m)) && m@ == "No pending OTP request with id '"@
            + request_id@ + "'"@),
{
    if delivered {
        return Ok(());
    }
    let mut m = to_owned_string("No pending OTP request with id '");
    push_str(&mut m, request_id);
    push_str(&mut m, "'");
    Err(AppError::Auth(m))
}

} // verus!
