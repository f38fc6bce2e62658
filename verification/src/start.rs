//! Starting a runner: what is checked before, what is recorded after, and how it then does.
use vstd::prelude::*;
use crate::args;
use crate::args::start_runner_args;
use crate::client::AmpClient;
use crate::launch;
use crate::launch::{
    appears_in, runner_log_path_in, start_health, LaunchSpec, LaunchView, OutcomeView, StartOutcome,
    HEALTH_LOOKS,
};
use crate::path;
use crate::path::parent;
use crate::runner;
use crate::runner::{OptionsView, Runner, StartOptions};
use crate::text;
use crate::text::borrowed;

verus! {

/// What a start asks for.
#[derive(Debug)]
pub enum StartAsk {
    /// Whether a path is a directory.
    CheckDir(String),
    /// A run of Amp in a session of its own, with no input, and with its output in a fresh log
    /// whose directory is made first.
    Spawn { cwd: String, args: Vec<String>, log_dir: Option<String>, log_path: String },
    /// That both registries take up the start.
    Record(LaunchSpec),
    /// Whether the process is alive, what Amp lists and what the log says; at once or after a
    /// pause.
    Look { pid: u32, log_path: String, pause: bool },
}

/// What a [`StartAsk`] holds.
#[verifier::ext_equal]
pub enum StartAskView {
    CheckDir(Seq<char>),
    Spawn {
        cwd: Seq<char>,
        args: Seq<Seq<char>>,
        log_dir: Option<Seq<char>>,
        log_path: Seq<char>,
    },
    Record(LaunchView),
    Look { pid: u32, log_path: Seq<char>, pause: bool },
}

impl View for StartAsk {
    type V = StartAskView;

    open spec fn view(&self) -> StartAskView {
        match self {
            StartAsk::CheckDir(p) => StartAskView::CheckDir(p@),
            StartAsk::Spawn { cwd, args, log_dir, log_path } => StartAskView::Spawn {
                cwd: cwd@,
                args: text::strings(args@),
                log_dir: text::opt_text(*log_dir),
                log_path: log_path@,
            },
            StartAsk::Record(s) => StartAskView::Record(s@),
            StartAsk::Look { pid, log_path, pause } => StartAskView::Look {
                pid: *pid,
                log_path: log_path@,
                pause: *pause,
            },
        }
    }
}

/// What a start is told.
#[derive(Debug)]
pub enum StartAnswer {
    IsDir(bool),
    /// The process id, or why nothing was started.
    Spawned(Result<u32, String>),
    Recorded,
    Looked {
        alive: bool,
        /// What Amp lists, where it gave a list.
        list: Option<Vec<Runner>>,
        log: String,
    },
}

/// Where a start stands.
#[derive(Debug, Clone, Copy, PartialEq, Eq, Structural)]
pub enum StartPhase {
    Checking,
    Spawning,
    Recording(u32),
    /// The process runs; so many looks are left after this one.
    Looking(u32, u32),
}

/// What a start does next.
#[verifier::ext_equal]
pub enum StartNext {
    Ask(StartPhase, StartAskView),
    Done(Result<OutcomeView, Seq<char>>),
}

/// What a start is about.
#[verifier::ext_equal]
pub struct StartView {
    pub cwd: Seq<char>,
    pub opts: OptionsView,
    pub log_path: Seq<char>,
}

/// What is asked for in a phase.
pub open spec fn asked(s: StartView, phase: StartPhase) -> StartAskView {
    match phase {
        StartPhase::Checking => StartAskView::CheckDir(s.cwd),
        StartPhase::Spawning => StartAskView::Spawn {
            cwd: s.cwd,
            args: args::start_args(s.opts),
            log_dir: path::parent_text(s.log_path),
            log_path: s.log_path,
        },
        StartPhase::Recording(pid) => StartAskView::Record(
            LaunchView { pid, cwd: s.cwd, options: s.opts },
        ),
        StartPhase::Looking(pid, left) => StartAskView::Look {
            pid,
            log_path: s.log_path,
            pause: left < HEALTH_LOOKS,
        },
    }
}

/// A start that goes to a phase.
pub open spec fn go(s: StartView, phase: StartPhase) -> StartNext {
    StartNext::Ask(phase, asked(s, phase))
}

/// Whether the list that was given has the runner.
pub open spec fn listed(
    list: Option<Vec<Runner>>,
    pid: u32,
    runner_id: Option<Seq<char>>,
) -> bool {
    match list {
        Some(v) => launch::in_list(runner::runners(v@), pid, runner_id),
        None => false,
    }
}

/// What follows an answer. An answer to another question leaves the start where it is.
pub open spec fn start_next(s: StartView, phase: StartPhase, answer: StartAnswer) -> StartNext {
    match (phase, answer) {
        (StartPhase::Checking, StartAnswer::IsDir(yes)) => if yes {
            go(s, StartPhase::Spawning)
        } else {
            StartNext::Done(Err("working directory does not exist: "@ + s.cwd))
        },
        (StartPhase::Spawning, StartAnswer::Spawned(r)) => match r {
            Ok(pid) => go(s, StartPhase::Recording(pid)),
            Err(e) => StartNext::Done(Err(e@)),
        },
        (StartPhase::Recording(pid), StartAnswer::Recorded) => go(
            s,
            StartPhase::Looking(pid, HEALTH_LOOKS),
        ),
        (StartPhase::Looking(pid, left), StartAnswer::Looked { alive, list, log }) => {
            match launch::health_of(
                alive,
                listed(list, pid, s.opts.runner_id),
                log@,
                left == 0,
            ) {
                Some(health) => StartNext::Done(
                    Ok(OutcomeView { pid, cwd: s.cwd, log_path: s.log_path, health }),
                ),
                None => go(s, StartPhase::Looking(pid, (left - 1) as u32)),
            }
        },
        _ => go(s, phase),
    }
}

/// What a start does next.
#[derive(Debug)]
pub enum StartTurn {
    Ask(StartAsk),
    Done(Result<StartOutcome, String>),
}

/// What a turn says, with where the start then stands.
pub open spec fn turn_view(phase: StartPhase, turn: StartTurn) -> StartNext {
    match turn {
        StartTurn::Ask(a) => StartNext::Ask(phase, a@),
        StartTurn::Done(Ok(o)) => StartNext::Done(Ok(o@)),
        StartTurn::Done(Err(e)) => StartNext::Done(Err(e@)),
    }
}

/// A start under way.
#[derive(Debug)]
pub struct StartRun {
    pub cwd: String,
    pub opts: StartOptions,
    pub log_path: String,
    pub phase: StartPhase,
}

impl View for StartRun {
    type V = StartView;

    open spec fn view(&self) -> StartView {
        StartView { cwd: self.cwd@, opts: self.opts@, log_path: self.log_path@ }
    }
}

impl AmpClient {
    /// Begins to start `amp --no-tui` in `cwd`, with its log in a state directory.
    pub fn start_runner(&self, cwd: &str, opts: &StartOptions, state: &str) -> (r: (
        StartRun,
        StartAsk,
    ))
        ensures
            r.0@ == (StartView {
                cwd: cwd@,
                opts: opts@,
                log_path: launch::log_path_text(state@, opts@.runner_id, Some(cwd@)),
            }),
            r.0.phase == StartPhase::Checking,
            r.1@ == StartAskView::CheckDir(cwd@),
    {
        let run = StartRun {
            cwd: cwd.to_owned(),
            opts: opts.duplicate(),
            log_path: runner_log_path_in(state, borrowed(&opts.runner_id), Some(cwd)),
            phase: StartPhase::Checking,
        };
        (run, StartAsk::CheckDir(cwd.to_owned()))
    }
}

impl StartRun {
    fn ask(&self) -> (r: StartAsk)
        ensures
            r@ == asked(self@, self.phase),
    {
        match self.phase {
            StartPhase::Checking => StartAsk::CheckDir(self.cwd.clone()),
            StartPhase::Spawning => StartAsk::Spawn {
                cwd: self.cwd.clone(),
                args: start_runner_args(&self.opts),
                log_dir: parent(self.log_path.as_str()),
                log_path: self.log_path.clone(),
            },
            StartPhase::Recording(pid) => StartAsk::Record(
                LaunchSpec { pid, cwd: self.cwd.clone(), options: self.opts.duplicate() },
            ),
            StartPhase::Looking(pid, left) => StartAsk::Look {
                pid,
                log_path: self.log_path.clone(),
                pause: left < HEALTH_LOOKS,
            },
        }
    }

    fn go(&mut self, phase: StartPhase) -> (r: StartTurn)
        ensures
            final(self)@ == old(self)@,
            turn_view(final(self).phase, r) == go(old(self)@, phase),
    {
        self.phase = phase;
        StartTurn::Ask(self.ask())
    }

    /// What follows an answer.
    pub fn answer(&mut self, answer: StartAnswer) -> (r: StartTurn)
        ensures
            final(self)@ == old(self)@,
            turn_view(final(self).phase, r) == start_next(old(self)@, old(self).phase, answer),
    {
        match (self.phase, answer) {
            (StartPhase::Checking, StartAnswer::IsDir(yes)) => {
                if yes {
                    return self.go(StartPhase::Spawning);
                }
                let mut out = "working directory does not exist: ".to_owned();
                out.append(self.cwd.as_str());
                StartTurn::Done(Err(out))
            },
            (StartPhase::Spawning, StartAnswer::Spawned(r)) => match r {
                Ok(pid) => self.go(StartPhase::Recording(pid)),
                Err(e) => StartTurn::Done(Err(e)),
            },
            (StartPhase::Recording(pid), StartAnswer::Recorded) => self.go(
                StartPhase::Looking(pid, HEALTH_LOOKS),
            ),
            (StartPhase::Looking(pid, left), StartAnswer::Looked { alive, list, log }) => {
                let listed: bool = match &list {
                    Some(v) => appears_in(v, pid, borrowed(&self.opts.runner_id)),
                    None => false,
                };
                match start_health(alive, listed, log.as_str(), left == 0) {
                    Some(health) => StartTurn::Done(
                        Ok(
                            StartOutcome {
                                pid,
                                cwd: self.cwd.clone(),
                                log_path: self.log_path.clone(),
                                health,
                            },
                        ),
                    ),
                    None => self.go(StartPhase::Looking(pid, left - 1)),
                }
            },
            (phase, _) => self.go(phase),
        }
    }
}

/// What is started is what was asked for: in its directory, with the arguments of its options, and
/// recorded with both.
pub proof fn start_uses_its_options(s: StartView, phase: StartPhase, answer: StartAnswer)
    ensures
        match start_next(s, phase, answer) {
            StartNext::Ask(_, StartAskView::Spawn { cwd, args, log_dir, log_path }) => cwd == s.cwd
                && args == args::start_args(s.opts) && log_path == s.log_path,
            StartNext::Ask(_, StartAskView::Record(spec)) => spec.cwd == s.cwd && spec.options
                == s.opts,
            _ => true,
        },
{
}

/// A start is called healthy only of a living process that is listed, or that waits for a login;
/// its outcome names the log.
pub proof fn healthy_means_seen(s: StartView, phase: StartPhase, answer: StartAnswer)
    ensures
        match start_next(s, phase, answer) {
            StartNext::Done(Ok(o)) => o.log_path == s.log_path && match (o.health, answer) {
                (launch::HealthView::Listed, StartAnswer::Looked { alive, list, log }) => alive
                    && listed(list, o.pid, s.opts.runner_id),
                (launch::HealthView::NeedsLogin, StartAnswer::Looked { alive, list, log }) => alive
                    && launch::asks_for_login(log@),
                (launch::HealthView::Alive, StartAnswer::Looked { alive, list, log }) => alive,
                (launch::HealthView::Exited { hint }, StartAnswer::Looked { alive, list, log }) =>
                    !alive,
                _ => false,
            },
            _ => true,
        },
{
}

/// A start checks its directory, spawns there, records the process under its own id and directory,
/// and then looks after it; it ends at once where the directory is none or the spawn fails.
pub proof fn starts_go_step_by_step(s: StartView, pid: u32, answer: StartAnswer)
    ensures
        ({
            let next = start_next(s, StartPhase::Checking, answer);
            &&& answer is IsDir && answer->IsDir_0 ==> next is Ask && next->Ask_0
                == StartPhase::Spawning && next->Ask_1 is Spawn && next->Ask_1->Spawn_cwd == s.cwd
                && next->Ask_1->args == args::start_args(s.opts) && next->Ask_1->Spawn_log_path
                == s.log_path && next->Ask_1->log_dir == path::parent_text(s.log_path)
            &&& answer is IsDir && !answer->IsDir_0 ==> next is Done && next->Done_0 is Err
                && text::has_suffix(next->Done_0->Err_0, s.cwd)
        }),
        ({
            let next = start_next(s, StartPhase::Spawning, answer);
            &&& answer is Spawned && answer->Spawned_0 is Ok ==> next == StartNext::Ask(
                StartPhase::Recording(answer->Spawned_0->Ok_0),
                StartAskView::Record(
                    LaunchView { pid: answer->Spawned_0->Ok_0, cwd: s.cwd, options: s.opts },
                ),
            )
            &&& answer is Spawned && answer->Spawned_0 is Err ==> next is Done && next->Done_0 == Err::<
                OutcomeView,
                Seq<char>,
            >(answer->Spawned_0->Err_0@)
        }),
        ({
            let next = start_next(s, StartPhase::Recording(pid), answer);
            answer is Recorded ==> next == StartNext::Ask(
                StartPhase::Looking(pid, 8),
                StartAskView::Look { pid, log_path: s.log_path, pause: false },
            )
        }),
{
    text::prefixes_and_rests(
        s.cwd,
        "working directory does not exist: "@,
        "working directory does not exist: "@ + s.cwd,
    );
}

/// A look at a started process ends the start where it has exited, is listed or waits for a login, and
/// at the last look in any case; else there is one look less to come, with a pause before it.
pub proof fn looks_end_or_go_on(s: StartView, pid: u32, left: u32, answer: StartAnswer)
    requires
        answer is Looked,
        left <= 8,
    ensures
        ({
            let next = start_next(s, StartPhase::Looking(pid, left), answer);
            let seen = listed(answer->list, pid, s.opts.runner_id);
            let waits = launch::asks_for_login(answer->log@);
            &&& !answer->alive || seen || waits || left == 0 ==> next is Done && next->Done_0 is Ok
                && next->Done_0->Ok_0.pid == pid && next->Done_0->Ok_0.cwd == s.cwd
                && next->Done_0->Ok_0.log_path == s.log_path
            &&& !answer->alive ==> next->Done_0->Ok_0.health is Exited
            &&& answer->alive && seen ==> next->Done_0->Ok_0.health is Listed
            &&& answer->alive && !seen && waits ==> next->Done_0->Ok_0.health is NeedsLogin
            &&& answer->alive && !seen && !waits && left == 0 ==> next->Done_0->Ok_0.health is Alive
            &&& answer->alive && !seen && !waits && left > 0 ==> next == StartNext::Ask(
                StartPhase::Looking(pid, (left - 1) as u32),
                StartAskView::Look { pid, log_path: s.log_path, pause: true },
            )
        }),
{
}

} // verus!
