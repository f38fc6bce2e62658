//! Stopping a runner: which signal is sent when, and when the runner counts as stopped.
use vstd::prelude::*;
use crate::launch;
use crate::launch::{verify_identity, Evidence};
use crate::listing;
use crate::text;
use crate::text::{borrowed, write_decimal};

verus! {

/// How often a signalled process is looked at again, after a pause each, before more is done.
pub const STOP_LOOKS: u32 = 25;

/// How long to wait between two looks, in milliseconds.
pub const STOP_PAUSE: u64 = 100;

/// The signals that stop a process.
#[derive(Debug, Clone, Copy, PartialEq, Eq, Structural)]
pub enum Signal {
    Term,
    Kill,
}

/// What became of a signal.
#[derive(Debug)]
pub enum Delivery {
    Sent,
    /// There is no such process (`ESRCH`).
    NoSuchProcess,
    /// The process belongs to another user (`EPERM`).
    NotPermitted,
    /// Another error; what the system says.
    Failed(String),
}

/// How a stop ended well.
#[derive(Debug, Clone, Copy, PartialEq, Eq, Structural)]
pub enum StopOutcome {
    /// The process was signalled and is gone.
    Stopped,
    /// The process was gone before it was signalled.
    AlreadyGone,
}

/// Why a stop failed.
#[derive(Debug, PartialEq, Eq)]
pub enum StopError {
    /// The process id is not one to signal.
    Refused(u32),
    /// The process is not the runner that was to be stopped.
    NotTheRunner(u32),
    /// The process belongs to another user.
    NotPermitted(u32),
    /// The signal could not be sent; what the system says.
    SignalFailed(u32, String),
    /// The process lives on.
    StillAlive(u32),
}

/// What a [`StopError`] holds.
#[verifier::ext_equal]
pub enum StopErrorView {
    Refused(u32),
    NotTheRunner(u32),
    NotPermitted(u32),
    SignalFailed(u32, Seq<char>),
    StillAlive(u32),
}

impl View for StopError {
    type V = StopErrorView;

    open spec fn view(&self) -> StopErrorView {
        match self {
            StopError::Refused(p) => StopErrorView::Refused(*p),
            StopError::NotTheRunner(p) => StopErrorView::NotTheRunner(*p),
            StopError::NotPermitted(p) => StopErrorView::NotPermitted(*p),
            StopError::SignalFailed(p, s) => StopErrorView::SignalFailed(*p, s@),
            StopError::StillAlive(p) => StopErrorView::StillAlive(*p),
        }
    }
}

/// The message of an error.
pub open spec fn stop_error_text(e: StopErrorView) -> Seq<char> {
    match e {
        StopErrorView::Refused(p) => "refusing to stop pid "@ + text::decimal(p as nat),
        StopErrorView::NotTheRunner(p) => "pid "@ + text::decimal(p as nat)
            + " does not look like this `amp --no-tui` runner"@,
        StopErrorView::NotPermitted(p) => "not permitted to signal pid "@ + text::decimal(
            p as nat,
        ),
        StopErrorView::SignalFailed(p, s) => "failed to signal pid "@ + text::decimal(p as nat)
            + ": "@ + s,
        StopErrorView::StillAlive(p) => "pid "@ + text::decimal(p as nat) + " is still alive"@,
    }
}

impl StopError {
    /// The message.
    pub fn message(&self) -> (r: String)
        ensures
            r@ == stop_error_text(self@),
    {
        match self {
            StopError::Refused(p) => {
                let mut out = "refusing to stop pid ".to_owned();
                out.append(write_decimal(*p as u64).as_str());
                out
            },
            StopError::NotTheRunner(p) => {
                let mut out = "pid ".to_owned();
                out.append(write_decimal(*p as u64).as_str());
                out.append(" does not look like this `amp --no-tui` runner");
                out
            },
            StopError::NotPermitted(p) => {
                let mut out = "not permitted to signal pid ".to_owned();
                out.append(write_decimal(*p as u64).as_str());
                out
            },
            StopError::SignalFailed(p, s) => {
                let mut out = "failed to signal pid ".to_owned();
                out.append(write_decimal(*p as u64).as_str());
                out.append(": ");
                out.append(s.as_str());
                out
            },
            StopError::StillAlive(p) => {
                let mut out = "pid ".to_owned();
                out.append(write_decimal(*p as u64).as_str());
                out.append(" is still alive");
                out
            },
        }
    }
}

/// Where a stop stands.
#[derive(Debug, Clone, Copy, PartialEq, Eq, Structural)]
pub enum StopPhase {
    /// The process is inspected before this signal.
    Inspecting(Signal),
    /// This signal is being sent.
    Signalling(Signal),
    /// This signal was sent; so many looks are left.
    Waiting(Signal, u32),
    /// The process is gone; its record is being dropped.
    Forgetting(StopOutcome),
}

/// What a stop asks for.
#[derive(Debug, Clone, Copy, PartialEq, Eq, Structural)]
pub enum StopAsk {
    /// What the system tells of the process.
    Inspect,
    /// The signal, to this process alone.
    Send(Signal),
    /// Whether the process is alive, at once or after a pause.
    Look { pause: bool },
    /// That the registry drops the process.
    Forget,
}

/// What a stop is told.
#[derive(Debug)]
pub enum StopAnswer {
    Inspected(Evidence),
    Delivered(Delivery),
    Looked { alive: bool },
    Forgotten,
}

/// What a stop does next.
#[derive(Debug)]
pub enum StopTurn {
    Ask(StopAsk),
    Done(Result<StopOutcome, StopError>),
}

/// What a [`StopTurn`] holds, with where the stop then stands.
#[verifier::ext_equal]
pub enum StopNext {
    Ask(StopPhase, StopAsk),
    Done(Result<StopOutcome, StopErrorView>),
}

/// Whether a process id is one to signal: above 1, and one of 32 bits with a sign.
pub open spec fn may_signal(pid: u32) -> bool {
    pid > 1 && listing::valid_pid(pid as int)
}

/// How a stop begins.
pub open spec fn stop_first(pid: u32) -> StopNext {
    if may_signal(pid) {
        StopNext::Ask(StopPhase::Inspecting(Signal::Term), StopAsk::Inspect)
    } else {
        StopNext::Done(Err(StopErrorView::Refused(pid)))
    }
}

/// How a stop counts where the process is gone before or after this signal was sent.
pub open spec fn gone(signal: Signal) -> StopOutcome {
    if signal == Signal::Term {
        StopOutcome::AlreadyGone
    } else {
        StopOutcome::Stopped
    }
}

/// What is asked for in a phase.
pub open spec fn asked(phase: StopPhase) -> StopAsk {
    match phase {
        StopPhase::Inspecting(_) => StopAsk::Inspect,
        StopPhase::Signalling(s) => StopAsk::Send(s),
        StopPhase::Waiting(_, left) => StopAsk::Look { pause: left < STOP_LOOKS },
        StopPhase::Forgetting(_) => StopAsk::Forget,
    }
}

/// A stop whose process is gone: the registry is to drop it.
pub open spec fn forgetting(outcome: StopOutcome) -> StopNext {
    StopNext::Ask(StopPhase::Forgetting(outcome), StopAsk::Forget)
}

/// What follows an answer. An answer to another question leaves the stop where it is.
pub open spec fn stop_next(
    pid: u32,
    runner_id: Option<Seq<char>>,
    phase: StopPhase,
    answer: StopAnswer,
) -> StopNext {
    match (phase, answer) {
        (StopPhase::Inspecting(signal), StopAnswer::Inspected(e)) => if !e.alive {
            forgetting(gone(signal))
        } else if launch::is_runner(e, runner_id) {
            StopNext::Ask(StopPhase::Signalling(signal), StopAsk::Send(signal))
        } else {
            StopNext::Done(Err(StopErrorView::NotTheRunner(pid)))
        },
        (StopPhase::Signalling(signal), StopAnswer::Delivered(d)) => match d {
            Delivery::Sent => StopNext::Ask(
                StopPhase::Waiting(signal, STOP_LOOKS),
                StopAsk::Look { pause: false },
            ),
            Delivery::NoSuchProcess => forgetting(gone(signal)),
            Delivery::NotPermitted => StopNext::Done(Err(StopErrorView::NotPermitted(pid))),
            Delivery::Failed(s) => StopNext::Done(Err(StopErrorView::SignalFailed(pid, s@))),
        },
        (StopPhase::Waiting(signal, left), StopAnswer::Looked { alive }) => if !alive {
            forgetting(StopOutcome::Stopped)
        } else if left > 0 {
            StopNext::Ask(
                StopPhase::Waiting(signal, (left - 1) as u32),
                StopAsk::Look { pause: true },
            )
        } else if signal == Signal::Term {
            StopNext::Ask(StopPhase::Inspecting(Signal::Kill), StopAsk::Inspect)
        } else {
            StopNext::Done(Err(StopErrorView::StillAlive(pid)))
        },
        (StopPhase::Forgetting(outcome), StopAnswer::Forgotten) => StopNext::Done(Ok(outcome)),
        _ => StopNext::Ask(phase, asked(phase)),
    }
}

/// A stop of one process under way.
#[derive(Debug)]
pub struct StopRun {
    pub pid: u32,
    pub runner_id: Option<String>,
    pub phase: StopPhase,
}

/// What a turn says, with where the stop then stands.
pub open spec fn turn_view(phase: StopPhase, turn: StopTurn) -> StopNext {
    match turn {
        StopTurn::Ask(a) => StopNext::Ask(phase, a),
        StopTurn::Done(Ok(o)) => StopNext::Done(Ok(o)),
        StopTurn::Done(Err(e)) => StopNext::Done(Err(e@)),
    }
}

fn gone_outcome(signal: Signal) -> (r: StopOutcome)
    ensures
        r == gone(signal),
{
    if signal == Signal::Term {
        StopOutcome::AlreadyGone
    } else {
        StopOutcome::Stopped
    }
}

/// Begins to stop the process `pid`, if it is the runner with this id.
pub fn stop_verified(pid: u32, runner_id: Option<String>) -> (r: (StopRun, StopTurn))
    ensures
        r.0.pid == pid,
        text::opt_text(r.0.runner_id) == text::opt_text(runner_id),
        turn_view(r.0.phase, r.1) == stop_first(pid),
{
    let run = StopRun { pid, runner_id, phase: StopPhase::Inspecting(Signal::Term) };
    if pid > 1 && pid <= 0x7fff_ffff {
        (run, StopTurn::Ask(StopAsk::Inspect))
    } else {
        (run, StopTurn::Done(Err(StopError::Refused(pid))))
    }
}

impl StopRun {
    fn go(&mut self, phase: StopPhase, ask: StopAsk) -> (r: StopTurn)
        ensures
            final(self).pid == old(self).pid,
            final(self).runner_id == old(self).runner_id,
            final(self).phase == phase,
            turn_view(phase, r) == StopNext::Ask(phase, ask),
    {
        self.phase = phase;
        StopTurn::Ask(ask)
    }

    fn forget(&mut self, outcome: StopOutcome) -> (r: StopTurn)
        ensures
            final(self).pid == old(self).pid,
            final(self).runner_id == old(self).runner_id,
            turn_view(final(self).phase, r) == forgetting(outcome),
    {
        self.go(StopPhase::Forgetting(outcome), StopAsk::Forget)
    }

    /// What follows an answer.
    pub fn answer(&mut self, answer: StopAnswer) -> (r: StopTurn)
        ensures
            final(self).pid == old(self).pid,
            final(self).runner_id == old(self).runner_id,
            turn_view(final(self).phase, r) == stop_next(
                old(self).pid,
                text::opt_text(old(self).runner_id),
                old(self).phase,
                answer,
            ),
    {
        let pid: u32 = self.pid;
        match (self.phase, answer) {
            (StopPhase::Inspecting(signal), StopAnswer::Inspected(e)) => {
                if !e.alive {
                    return self.forget(gone_outcome(signal));
                }
                if verify_identity(&e, borrowed(&self.runner_id)) {
                    return self.go(StopPhase::Signalling(signal), StopAsk::Send(signal));
                }
                StopTurn::Done(Err(StopError::NotTheRunner(pid)))
            },
            (StopPhase::Signalling(signal), StopAnswer::Delivered(d)) => match d {
                Delivery::Sent => self.go(
                    StopPhase::Waiting(signal, STOP_LOOKS),
                    StopAsk::Look { pause: false },
                ),
                Delivery::NoSuchProcess => self.forget(gone_outcome(signal)),
                Delivery::NotPermitted => StopTurn::Done(Err(StopError::NotPermitted(pid))),
                Delivery::Failed(s) => StopTurn::Done(Err(StopError::SignalFailed(pid, s))),
            },
            (StopPhase::Waiting(signal, left), StopAnswer::Looked { alive }) => {
                if !alive {
                    return self.forget(StopOutcome::Stopped);
                }
                if left > 0 {
                    return self.go(
                        StopPhase::Waiting(signal, left - 1),
                        StopAsk::Look { pause: true },
                    );
                }
                if signal == Signal::Term {
                    return self.go(StopPhase::Inspecting(Signal::Kill), StopAsk::Inspect);
                }
                StopTurn::Done(Err(StopError::StillAlive(pid)))
            },
            (StopPhase::Forgetting(outcome), StopAnswer::Forgotten) => StopTurn::Done(Ok(outcome)),
            (StopPhase::Inspecting(signal), _) => self.go(
                StopPhase::Inspecting(signal),
                StopAsk::Inspect,
            ),
            (StopPhase::Signalling(signal), _) => self.go(
                StopPhase::Signalling(signal),
                StopAsk::Send(signal),
            ),
            (StopPhase::Waiting(signal, left), _) => self.go(
                StopPhase::Waiting(signal, left),
                StopAsk::Look { pause: left < STOP_LOOKS },
            ),
            (StopPhase::Forgetting(outcome), _) => self.forget(outcome),
        }
    }
}

/// No process id of 0 or 1, and none that is negative to the system, is asked about or signalled.
pub proof fn low_pids_are_refused(pid: u32)
    ensures
        stop_first(pid) is Ask <==> 1 < pid <= i32::MAX,
        stop_first(pid) is Done ==> stop_first(pid) == StopNext::Done(
            Err(StopErrorView::Refused(pid)),
        ),
{
}

/// A stop turns to sending a signal only on evidence that the process is the runner: alive, `amp
/// --no-tui` by its executable and its command line, and of the same runner id where both are
/// known.
pub proof fn signals_need_identity(
    pid: u32,
    runner_id: Option<Seq<char>>,
    phase: StopPhase,
    answer: StopAnswer,
)
    requires
        !(phase is Signalling),
        stop_next(pid, runner_id, phase, answer) is Ask,
        stop_next(pid, runner_id, phase, answer)->Ask_1 is Send,
    ensures
        answer is Inspected,
        launch::is_runner(answer->Inspected_0, runner_id),
        answer->Inspected_0.alive,
{
}

/// Whether an answer shows that the process is gone: an inspection, a signal that found no process,
/// or a look.
pub open spec fn shows_gone(answer: StopAnswer) -> bool {
    match answer {
        StopAnswer::Inspected(e) => !e.alive,
        StopAnswer::Delivered(d) => d is NoSuchProcess,
        StopAnswer::Looked { alive } => !alive,
        StopAnswer::Forgotten => false,
    }
}

/// A stop turns to forgetting the process only where it was seen to be gone, and ends well exactly
/// where the process was then forgotten.
pub proof fn success_means_gone(
    pid: u32,
    runner_id: Option<Seq<char>>,
    phase: StopPhase,
    answer: StopAnswer,
)
    ensures
        match stop_next(pid, runner_id, phase, answer) {
            StopNext::Ask(next, ask) => {
                &&& ask is Forget <==> next is Forgetting
                &&& next is Forgetting ==> phase == next || shows_gone(answer)
            },
            StopNext::Done(r) => r is Ok <==> phase is Forgetting && answer is Forgotten,
        },
        phase is Forgetting && answer is Forgotten ==> stop_next(pid, runner_id, phase, answer)
            == StopNext::Done(Ok(phase->Forgetting_0)),
{
}

/// How far a stop is from its end, answers to other questions aside.
pub open spec fn stop_distance(phase: StopPhase) -> nat {
    match phase {
        StopPhase::Inspecting(Signal::Term) => (2 * STOP_LOOKS + 8) as nat,
        StopPhase::Signalling(Signal::Term) => (2 * STOP_LOOKS + 7) as nat,
        StopPhase::Waiting(Signal::Term, left) => (STOP_LOOKS + left + 5) as nat,
        StopPhase::Inspecting(Signal::Kill) => (STOP_LOOKS + 4) as nat,
        StopPhase::Signalling(Signal::Kill) => (STOP_LOOKS + 3) as nat,
        StopPhase::Waiting(Signal::Kill, left) => (left + 1) as nat,
        StopPhase::Forgetting(_) => 0,
    }
}

/// Whether an answer is one to what is asked in a phase.
pub open spec fn answers(phase: StopPhase, answer: StopAnswer) -> bool {
    match phase {
        StopPhase::Inspecting(_) => answer is Inspected,
        StopPhase::Signalling(_) => answer is Delivered,
        StopPhase::Waiting(_, _) => answer is Looked,
        StopPhase::Forgetting(_) => answer is Forgotten,
    }
}

/// A stop comes to an end: each answer ends it or brings it nearer to its end.
pub proof fn stopping_ends(
    pid: u32,
    runner_id: Option<Seq<char>>,
    phase: StopPhase,
    answer: StopAnswer,
)
    requires
        answers(phase, answer),
        phase is Waiting ==> phase->Waiting_1 <= STOP_LOOKS,
    ensures
        match stop_next(pid, runner_id, phase, answer) {
            StopNext::Ask(next, _) => stop_distance(next) < stop_distance(phase) && (
            next is Waiting ==> next->Waiting_1 <= STOP_LOOKS),
            StopNext::Done(_) => true,
        },
{
}

/// A stop looks at the process before each signal, and ends without one where the process is not the
/// runner; it asks the process to end first, and makes it end only where it lives on.
pub proof fn stops_go_from_asking_to_making(
    pid: u32,
    runner_id: Option<Seq<char>>,
    signal: Signal,
    answer: StopAnswer,
)
    ensures
        1 < pid <= i32::MAX ==> stop_first(pid) == StopNext::Ask(
            StopPhase::Inspecting(Signal::Term),
            StopAsk::Inspect,
        ),
        answer is Inspected && answer->Inspected_0.alive && launch::is_runner(
            answer->Inspected_0,
            runner_id,
        ) ==> stop_next(pid, runner_id, StopPhase::Inspecting(signal), answer) == StopNext::Ask(
            StopPhase::Signalling(signal),
            StopAsk::Send(signal),
        ),
        answer is Inspected && answer->Inspected_0.alive && !launch::is_runner(
            answer->Inspected_0,
            runner_id,
        ) ==> stop_next(pid, runner_id, StopPhase::Inspecting(signal), answer) == StopNext::Done(
            Err(StopErrorView::NotTheRunner(pid)),
        ),
        answer is Delivered && answer->Delivered_0 is Sent ==> stop_next(
            pid,
            runner_id,
            StopPhase::Signalling(signal),
            answer,
        ) == StopNext::Ask(StopPhase::Waiting(signal, 25), StopAsk::Look { pause: false }),
        answer is Delivered && answer->Delivered_0 is NotPermitted ==> stop_next(
            pid,
            runner_id,
            StopPhase::Signalling(signal),
            answer,
        ) == StopNext::Done(Err(StopErrorView::NotPermitted(pid))),
        answer is Delivered && answer->Delivered_0 is Failed ==> stop_next(
            pid,
            runner_id,
            StopPhase::Signalling(signal),
            answer,
        ) == StopNext::Done(
            Err(StopErrorView::SignalFailed(pid, answer->Delivered_0->Failed_0@)),
        ),
        answer is Looked && answer->alive ==> stop_next(
            pid,
            runner_id,
            StopPhase::Waiting(Signal::Term, 0),
            answer,
        ) == StopNext::Ask(StopPhase::Inspecting(Signal::Kill), StopAsk::Inspect),
        answer is Looked && answer->alive ==> stop_next(
            pid,
            runner_id,
            StopPhase::Waiting(Signal::Kill, 0),
            answer,
        ) == StopNext::Done(Err(StopErrorView::StillAlive(pid))),
{
}

/// After a signal the process is looked at again, with a pause, until it is gone or the looks are used
/// up: each look that finds it alive leaves one less.
pub proof fn looks_are_counted_down(
    pid: u32,
    runner_id: Option<Seq<char>>,
    signal: Signal,
    left: u32,
)
    requires
        left > 0,
    ensures
        stop_next(
            pid,
            runner_id,
            StopPhase::Waiting(signal, left),
            StopAnswer::Looked { alive: true },
        ) == StopNext::Ask(
            StopPhase::Waiting(signal, (left - 1) as u32),
            StopAsk::Look { pause: true },
        ),
{
}

/// A process that is gone is forgotten, and reported as stopped where it was signalled, and as already
/// gone where it was not.
pub proof fn gone_processes_are_forgotten(
    pid: u32,
    runner_id: Option<Seq<char>>,
    signal: Signal,
    left: u32,
    answer: StopAnswer,
)
    requires
        shows_gone(answer),
    ensures
        answer is Inspected ==> stop_next(pid, runner_id, StopPhase::Inspecting(signal), answer)
            == StopNext::Ask(
            StopPhase::Forgetting(
                if signal == Signal::Term {
                    StopOutcome::AlreadyGone
                } else {
                    StopOutcome::Stopped
                },
            ),
            StopAsk::Forget,
        ),
        answer is Delivered ==> stop_next(pid, runner_id, StopPhase::Signalling(signal), answer)
            == StopNext::Ask(
            StopPhase::Forgetting(
                if signal == Signal::Term {
                    StopOutcome::AlreadyGone
                } else {
                    StopOutcome::Stopped
                },
            ),
            StopAsk::Forget,
        ),
        answer is Looked ==> stop_next(pid, runner_id, StopPhase::Waiting(signal, left), answer)
            == StopNext::Ask(StopPhase::Forgetting(StopOutcome::Stopped), StopAsk::Forget),
{
}

/// The message of a failed stop holds the process id, and what the system said where it said anything.
pub proof fn stop_messages_name_the_process(pid: u32, s: Seq<char>)
    ensures
        ({
            let n = text::decimal(pid as nat);
            &&& text::has_suffix(stop_error_text(StopErrorView::Refused(pid)), n)
            &&& text::holds(stop_error_text(StopErrorView::NotTheRunner(pid)), n)
            &&& text::has_suffix(stop_error_text(StopErrorView::NotPermitted(pid)), n)
            &&& text::holds(stop_error_text(StopErrorView::SignalFailed(pid, s)), n)
            &&& text::has_suffix(stop_error_text(StopErrorView::SignalFailed(pid, s)), s)
            &&& text::holds(stop_error_text(StopErrorView::StillAlive(pid)), n)
        }),
{
    let n = text::decimal(pid as nat);
    text::prefixes_and_rests(n, "refusing to stop pid "@, n);
    text::lemma_holds("pid "@, n, " does not look like this `amp --no-tui` runner"@);
    text::prefixes_and_rests(n, "not permitted to signal pid "@, n);
    let f = stop_error_text(StopErrorView::SignalFailed(pid, s));
    text::lemma_holds("failed to signal pid "@, n, ": "@ + s);
    assert("failed to signal pid "@ + n + (": "@ + s) =~= f);
    text::prefixes_and_rests(s, "failed to signal pid "@ + n + ": "@, f);
    text::lemma_holds("pid "@, n, " is still alive"@);
}

} // verus!
