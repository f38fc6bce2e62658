//! The work that is done off the screen: which job asks for what, and which event it ends in.
use vstd::prelude::*;
use crate::args;
use crate::args::{dirs_add_args, dirs_list_args, dirs_remove_args, update_args, version_args};
use crate::client;
use crate::client::{AmpClient, CallError, CommandReply};
use crate::launch;
use crate::launch::{
    restart_start_options, validate_launch_spec, LaunchSpec, LaunchView, OutcomeView, StartOutcome,
};
use crate::listing;
use crate::runner;
use crate::runner::{OptionsView, Runner, RunnerView, StartOptions};
use crate::stop;
use crate::stop::{StopError, StopOutcome};
use crate::text;
use crate::text::borrowed;

verus! {

/// A job for the Amp worker.
#[derive(Debug)]
pub enum AmpJob {
    Refresh,
    Update,
    Start { cwd: String, opts: StartOptions },
    Stop { pid: u32, runner_id: Option<String>, display_id: String },
    Restart { pid: u32, runner_id: Option<String>, display_id: String, spec: LaunchSpec },
    DirsAdd { runner_id: Option<String>, display_id: String, path: String },
    DirsRemove { runner_id: Option<String>, display_id: String, path: String },
    DirsList { runner_id: Option<String>, match_id: String },
}

/// What an [`AmpJob`] holds.
#[verifier::ext_equal]
pub enum JobView {
    Refresh,
    Update,
    Start { cwd: Seq<char>, opts: OptionsView },
    Stop { pid: u32, runner_id: Option<Seq<char>>, display_id: Seq<char> },
    Restart {
        pid: u32,
        runner_id: Option<Seq<char>>,
        display_id: Seq<char>,
        spec: LaunchView,
    },
    DirsAdd { runner_id: Option<Seq<char>>, display_id: Seq<char>, path: Seq<char> },
    DirsRemove { runner_id: Option<Seq<char>>, display_id: Seq<char>, path: Seq<char> },
    DirsList { runner_id: Option<Seq<char>>, match_id: Seq<char> },
}

impl View for AmpJob {
    type V = JobView;

    open spec fn view(&self) -> JobView {
        match self {
            AmpJob::Refresh => JobView::Refresh,
            AmpJob::Update => JobView::Update,
            AmpJob::Start { cwd, opts } => JobView::Start { cwd: cwd@, opts: opts@ },
            AmpJob::Stop { pid, runner_id, display_id } => JobView::Stop {
                pid: *pid,
                runner_id: text::opt_text(*runner_id),
                display_id: display_id@,
            },
            AmpJob::Restart { pid, runner_id, display_id, spec } => JobView::Restart {
                pid: *pid,
                runner_id: text::opt_text(*runner_id),
                display_id: display_id@,
                spec: spec@,
            },
            AmpJob::DirsAdd { runner_id, display_id, path } => JobView::DirsAdd {
                runner_id: text::opt_text(*runner_id),
                display_id: display_id@,
                path: path@,
            },
            AmpJob::DirsRemove { runner_id, display_id, path } => JobView::DirsRemove {
                runner_id: text::opt_text(*runner_id),
                display_id: display_id@,
                path: path@,
            },
            AmpJob::DirsList { runner_id, match_id } => JobView::DirsList {
                runner_id: text::opt_text(*runner_id),
                match_id: match_id@,
            },
        }
    }
}

/// What a job ended in.
#[derive(Debug)]
#[allow(inconsistent_fields)]
pub enum AmpEvent {
    RefreshOk(Vec<Runner>),
    UpdateOk { out: String, version: Option<String> },
    Started { id: String, outcome: StartOutcome },
    Stopped { id: String, outcome: StopOutcome, pid: u32 },
    Restarted { id: String, outcome: StartOutcome },
    DirsAddOk { runner_id: Option<String>, id: String, path: String, out: String },
    DirsRemoveOk { runner_id: Option<String>, id: String, path: String, out: String },
    DirsListOk { match_id: String, dirs: Vec<String> },
    Failed(String),
}

/// What an [`AmpEvent`] holds.
#[verifier::ext_equal]
#[allow(inconsistent_fields)]
pub enum EventView {
    RefreshOk(Seq<RunnerView>),
    UpdateOk { out: Seq<char>, version: Option<Seq<char>> },
    Started { id: Seq<char>, outcome: OutcomeView },
    Stopped { id: Seq<char>, outcome: StopOutcome, pid: u32 },
    Restarted { id: Seq<char>, outcome: OutcomeView },
    DirsAddOk { runner_id: Option<Seq<char>>, id: Seq<char>, path: Seq<char>, out: Seq<char> },
    DirsRemoveOk { runner_id: Option<Seq<char>>, id: Seq<char>, path: Seq<char>, out: Seq<char> },
    DirsListOk { match_id: Seq<char>, dirs: Seq<Seq<char>> },
    Failed(Seq<char>),
}

impl View for AmpEvent {
    type V = EventView;

    open spec fn view(&self) -> EventView {
        match self {
            AmpEvent::RefreshOk(v) => EventView::RefreshOk(runner::runners(v@)),
            AmpEvent::UpdateOk { out, version } => EventView::UpdateOk {
                out: out@,
                version: text::opt_text(*version),
            },
            AmpEvent::Started { id, outcome } => EventView::Started {
                id: id@,
                outcome: outcome@,
            },
            AmpEvent::Stopped { id, outcome, pid } => EventView::Stopped {
                id: id@,
                outcome: *outcome,
                pid: *pid,
            },
            AmpEvent::Restarted { id, outcome } => EventView::Restarted {
                id: id@,
                outcome: outcome@,
            },
            AmpEvent::DirsAddOk { runner_id, id, path, out } => EventView::DirsAddOk {
                runner_id: text::opt_text(*runner_id),
                id: id@,
                path: path@,
                out: out@,
            },
            AmpEvent::DirsRemoveOk { runner_id, id, path, out } => EventView::DirsRemoveOk {
                runner_id: text::opt_text(*runner_id),
                id: id@,
                path: path@,
                out: out@,
            },
            AmpEvent::DirsListOk { match_id, dirs } => EventView::DirsListOk {
                match_id: match_id@,
                dirs: text::strings(dirs@),
            },
            AmpEvent::Failed(s) => EventView::Failed(s@),
        }
    }
}

/// What a job asks for.
#[derive(Debug)]
pub enum JobAsk {
    /// The runners to show.
    List,
    /// A run of Amp with these arguments.
    Command(Vec<String>),
    /// Whether a path is a directory.
    CheckDir(String),
    /// The stop of a process, if it is the runner with this id.
    Stop { pid: u32, runner_id: Option<String> },
    /// The start of a runner.
    Start { cwd: String, opts: StartOptions },
}

/// What a [`JobAsk`] holds.
#[verifier::ext_equal]
pub enum AskView {
    List,
    Command(Seq<Seq<char>>),
    CheckDir(Seq<char>),
    Stop { pid: u32, runner_id: Option<Seq<char>> },
    Start { cwd: Seq<char>, opts: OptionsView },
}

impl View for JobAsk {
    type V = AskView;

    open spec fn view(&self) -> AskView {
        match self {
            JobAsk::List => AskView::List,
            JobAsk::Command(v) => AskView::Command(text::strings(v@)),
            JobAsk::CheckDir(p) => AskView::CheckDir(p@),
            JobAsk::Stop { pid, runner_id } => AskView::Stop {
                pid: *pid,
                runner_id: text::opt_text(*runner_id),
            },
            JobAsk::Start { cwd, opts } => AskView::Start { cwd: cwd@, opts: opts@ },
        }
    }
}

/// What a job is told.
#[derive(Debug)]
pub enum JobAnswer {
    Listed(Result<Vec<Runner>, CallError>),
    Replied(CommandReply),
    IsDir(bool),
    Stopped(Result<StopOutcome, StopError>),
    /// The outcome of a start, or why nothing was started.
    Started(Result<StartOutcome, String>),
}

/// Where a job stands.
#[derive(Debug)]
pub enum JobPhase {
    /// It waits for its first answer.
    First,
    /// An update ran; this is what it printed. The version is asked for.
    Updated(String),
    /// The spec of a restart is good; the runner is being stopped.
    Stopping,
    /// The runner is stopped and being started again.
    Starting,
}

/// What a [`JobPhase`] holds.
#[verifier::ext_equal]
pub enum PhaseView {
    First,
    Updated(Seq<char>),
    Stopping,
    Starting,
}

impl View for JobPhase {
    type V = PhaseView;

    open spec fn view(&self) -> PhaseView {
        match self {
            JobPhase::First => PhaseView::First,
            JobPhase::Updated(s) => PhaseView::Updated(s@),
            JobPhase::Stopping => PhaseView::Stopping,
            JobPhase::Starting => PhaseView::Starting,
        }
    }
}

/// What a job does next.
#[verifier::ext_equal]
pub enum JobNext {
    Ask(PhaseView, AskView),
    Done(EventView),
}

/// The name of a runner that is being started.
pub open spec fn started_id(opts: OptionsView) -> Seq<char> {
    match opts.runner_id {
        Some(id) => id,
        None => "(amp-assigned id)"@,
    }
}

/// What a job asks for first.
pub open spec fn first_ask(job: JobView) -> AskView {
    match job {
        JobView::Refresh => AskView::List,
        JobView::Update => AskView::Command(seq!["update"@]),
        JobView::Start { cwd, opts } => AskView::Start { cwd, opts },
        JobView::Stop { pid, runner_id, display_id } => AskView::Stop { pid, runner_id },
        JobView::Restart { pid, runner_id, display_id, spec } => AskView::CheckDir(spec.cwd),
        JobView::DirsAdd { runner_id, display_id, path } => AskView::Command(
            args::dirs_args("add"@, runner_id).push(path),
        ),
        JobView::DirsRemove { runner_id, display_id, path } => AskView::Command(
            args::dirs_args("remove"@, runner_id).push(path),
        ),
        JobView::DirsList { runner_id, match_id } => AskView::Command(
            args::dirs_args("list"@, runner_id),
        ),
    }
}

/// What a job asks for in a phase.
pub open spec fn asked(job: JobView, phase: PhaseView) -> AskView {
    match (phase, job) {
        (PhaseView::Updated(_), _) => AskView::Command(seq!["version"@]),
        (PhaseView::Stopping, JobView::Restart { pid, runner_id, display_id, spec }) => {
            AskView::Stop { pid, runner_id }
        },
        (PhaseView::Starting, JobView::Restart { pid, runner_id, display_id, spec }) => {
            AskView::Start { cwd: spec.cwd, opts: spec.options }
        },
        _ => first_ask(job),
    }
}

/// A failure with its cause.
pub open spec fn failed(what: Seq<char>, cause: Seq<char>) -> JobNext {
    JobNext::Done(EventView::Failed(what + cause))
}

/// What follows an answer. An answer to another question leaves the job where it is.
pub open spec fn job_next(
    binary: Seq<char>,
    job: JobView,
    phase: PhaseView,
    answer: JobAnswer,
) -> JobNext {
    match (job, phase, answer) {
        (JobView::Refresh, PhaseView::First, JobAnswer::Listed(r)) => match client::list_result(r) {
            Ok(v) => JobNext::Done(EventView::RefreshOk(v)),
            Err(e) => failed("refresh failed: "@, client::call_error_text(e)),
        },
        (JobView::Update, PhaseView::First, JobAnswer::Replied(reply)) => {
            match client::output_of(binary, seq!["update"@], reply) {
                Ok(out) => JobNext::Ask(
                    PhaseView::Updated(out),
                    AskView::Command(seq!["version"@]),
                ),
                Err(e) => failed("amp update failed: "@, client::call_error_text(e)),
            }
        },
        (JobView::Update, PhaseView::Updated(out), JobAnswer::Replied(reply)) => JobNext::Done(
            EventView::UpdateOk {
                out,
                version: match client::output_of(binary, seq!["version"@], reply) {
                    Ok(v) => Some(text::first_line_of(v)),
                    Err(_) => None,
                },
            },
        ),
        (JobView::Start { cwd, opts }, PhaseView::First, JobAnswer::Started(r)) => match r {
            Ok(outcome) => JobNext::Done(
                EventView::Started { id: started_id(opts), outcome: outcome@ },
            ),
            Err(e) => failed("start failed: "@, e@),
        },
        (
            JobView::Stop { pid, runner_id, display_id },
            PhaseView::First,
            JobAnswer::Stopped(r),
        ) => match r {
            Ok(outcome) => JobNext::Done(
                EventView::Stopped { id: display_id, outcome, pid },
            ),
            Err(e) => failed("stop failed: "@, stop::stop_error_text(e@)),
        },
        (
            JobView::Restart { pid, runner_id, display_id, spec },
            PhaseView::First,
            JobAnswer::IsDir(yes),
        ) => match launch::spec_fault(spec, yes) {
            Some(e) => failed(
                "restart aborted (spec invalid): "@,
                launch::launch_error_text(e),
            ),
            None => JobNext::Ask(PhaseView::Stopping, AskView::Stop { pid, runner_id }),
        },
        (
            JobView::Restart { pid, runner_id, display_id, spec },
            PhaseView::Stopping,
            JobAnswer::Stopped(r),
        ) => match r {
            Ok(_) => JobNext::Ask(
                PhaseView::Starting,
                AskView::Start { cwd: spec.cwd, opts: spec.options },
            ),
            Err(e) => failed("stop before restart failed: "@, stop::stop_error_text(e@)),
        },
        (
            JobView::Restart { pid, runner_id, display_id, spec },
            PhaseView::Starting,
            JobAnswer::Started(r),
        ) => match r {
            Ok(outcome) => JobNext::Done(
                EventView::Restarted { id: display_id, outcome: outcome@ },
            ),
            Err(e) => failed("restart spawn failed: "@, e@),
        },
        (
            JobView::DirsAdd { runner_id, display_id, path },
            PhaseView::First,
            JobAnswer::Replied(reply),
        ) => match client::output_of(
            binary,
            args::dirs_args("add"@, runner_id).push(path),
            reply,
        ) {
            Ok(out) => JobNext::Done(
                EventView::DirsAddOk { runner_id, id: display_id, path, out },
            ),
            Err(e) => failed("dirs add failed: "@, client::call_error_text(e)),
        },
        (
            JobView::DirsRemove { runner_id, display_id, path },
            PhaseView::First,
            JobAnswer::Replied(reply),
        ) => match client::output_of(
            binary,
            args::dirs_args("remove"@, runner_id).push(path),
            reply,
        ) {
            Ok(out) => JobNext::Done(
                EventView::DirsRemoveOk { runner_id, id: display_id, path, out },
            ),
            Err(e) => failed("dirs remove failed: "@, client::call_error_text(e)),
        },
        (
            JobView::DirsList { runner_id, match_id },
            PhaseView::First,
            JobAnswer::Replied(reply),
        ) => match client::output_of(binary, args::dirs_args("list"@, runner_id), reply) {
            Ok(out) => JobNext::Done(
                EventView::DirsListOk { match_id, dirs: listing::dirs_listed(out) },
            ),
            Err(e) => failed("dirs list failed: "@, client::call_error_text(e)),
        },
        _ => JobNext::Ask(phase, asked(job, phase)),
    }
}

/// What a job does next.
#[derive(Debug)]
pub enum JobTurn {
    Ask(JobAsk),
    Done(AmpEvent),
}

/// What a turn says, with where the job then stands.
pub open spec fn turn_view(phase: PhaseView, turn: JobTurn) -> JobNext {
    match turn {
        JobTurn::Ask(a) => JobNext::Ask(phase, a@),
        JobTurn::Done(e) => JobNext::Done(e@),
    }
}

/// A job under way.
#[derive(Debug)]
pub struct JobRun {
    pub job: AmpJob,
    pub phase: JobPhase,
}

fn failure(what: &str, cause: &str) -> (r: JobTurn)
    ensures
        forall|p: PhaseView| #[trigger] turn_view(p, r) == failed(what@, cause@),
{
    let mut s = what.to_owned();
    s.append(cause);
    JobTurn::Done(AmpEvent::Failed(s))
}

fn ask_for(job: &AmpJob, phase: &JobPhase) -> (r: JobAsk)
    ensures
        r@ == asked(job@, phase@),
{
    match (phase, job) {
        (JobPhase::Updated(_), _) => JobAsk::Command(version_args()),
        (JobPhase::Stopping, AmpJob::Restart { pid, runner_id, display_id, spec }) => JobAsk::Stop {
            pid: *pid,
            runner_id: runner_id.clone(),
        },
        (JobPhase::Starting, AmpJob::Restart { pid, runner_id, display_id, spec }) => JobAsk::Start {
            cwd: spec.cwd.clone(),
            opts: restart_start_options(spec),
        },
        (_, AmpJob::Refresh) => JobAsk::List,
        (_, AmpJob::Update) => JobAsk::Command(update_args()),
        (_, AmpJob::Start { cwd, opts }) => JobAsk::Start {
            cwd: cwd.clone(),
            opts: opts.duplicate(),
        },
        (_, AmpJob::Stop { pid, runner_id, display_id }) => JobAsk::Stop {
            pid: *pid,
            runner_id: runner_id.clone(),
        },
        (_, AmpJob::Restart { pid, runner_id, display_id, spec }) => JobAsk::CheckDir(
            spec.cwd.clone(),
        ),
        (_, AmpJob::DirsAdd { runner_id, display_id, path }) => JobAsk::Command(
            dirs_add_args(borrowed(runner_id), path.as_str()),
        ),
        (_, AmpJob::DirsRemove { runner_id, display_id, path }) => JobAsk::Command(
            dirs_remove_args(borrowed(runner_id), path.as_str()),
        ),
        (_, AmpJob::DirsList { runner_id, match_id }) => JobAsk::Command(
            dirs_list_args(borrowed(runner_id)),
        ),
    }
}

/// Begins a job: what it asks for first.
pub fn run_job(job: AmpJob) -> (r: (JobRun, JobAsk))
    ensures
        r.0.job@ == job@,
        r.0.phase@ == PhaseView::First,
        r.1@ == first_ask(job@),
{
    let phase = JobPhase::First;
    let ask = ask_for(&job, &phase);
    (JobRun { job, phase }, ask)
}

impl JobRun {
    fn again(&self) -> (r: JobTurn)
        ensures
            turn_view(self.phase@, r) == JobNext::Ask(self.phase@, asked(self.job@, self.phase@)),
    {
        JobTurn::Ask(ask_for(&self.job, &self.phase))
    }

    /// What follows an answer.
    pub fn answer(&mut self, client: &AmpClient, answer: JobAnswer) -> (r: JobTurn)
        ensures
            final(self).job == old(self).job,
            turn_view(final(self).phase@, r) == job_next(
                client.binary@,
                old(self).job@,
                old(self).phase@,
                answer,
            ),
    {
        match (&self.job, &self.phase, answer) {
            (AmpJob::Refresh, JobPhase::First, JobAnswer::Listed(r)) => match r {
                Ok(v) => JobTurn::Done(AmpEvent::RefreshOk(v)),
                Err(e) => failure("refresh failed: ", e.message().as_str()),
            },
            (AmpJob::Update, JobPhase::First, JobAnswer::Replied(reply)) => {
                match client.update(&reply) {
                    Ok(out) => {
                        self.phase = JobPhase::Updated(out);
                        self.again()
                    },
                    Err(e) => failure("amp update failed: ", e.message().as_str()),
                }
            },
            (AmpJob::Update, JobPhase::Updated(out), JobAnswer::Replied(reply)) => {
                let version = match client.version(&reply) {
                    Ok(v) => Some(v),
                    Err(_) => None,
                };
                JobTurn::Done(AmpEvent::UpdateOk { out: out.clone(), version })
            },
            (AmpJob::Start { cwd, opts }, JobPhase::First, JobAnswer::Started(r)) => match r {
                Ok(outcome) => {
                    let id = match &opts.runner_id {
                        Some(id) => id.clone(),
                        None => "(amp-assigned id)".to_owned(),
                    };
                    JobTurn::Done(AmpEvent::Started { id, outcome })
                },
                Err(e) => failure("start failed: ", e.as_str()),
            },
            (
                AmpJob::Stop { pid, runner_id, display_id },
                JobPhase::First,
                JobAnswer::Stopped(r),
            ) => match r {
                Ok(outcome) => JobTurn::Done(
                    AmpEvent::Stopped { id: display_id.clone(), outcome, pid: *pid },
                ),
                Err(e) => failure("stop failed: ", e.message().as_str()),
            },
            (
                AmpJob::Restart { pid, runner_id, display_id, spec },
                JobPhase::First,
                JobAnswer::IsDir(yes),
            ) => match validate_launch_spec(spec, yes) {
                Err(e) => failure("restart aborted (spec invalid): ", e.message().as_str()),
                Ok(_) => {
                    self.phase = JobPhase::Stopping;
                    self.again()
                },
            },
            (
                AmpJob::Restart { pid, runner_id, display_id, spec },
                JobPhase::Stopping,
                JobAnswer::Stopped(r),
            ) => match r {
                Ok(_) => {
                    self.phase = JobPhase::Starting;
                    self.again()
                },
                Err(e) => failure("stop before restart failed: ", e.message().as_str()),
            },
            (
                AmpJob::Restart { pid, runner_id, display_id, spec },
                JobPhase::Starting,
                JobAnswer::Started(r),
            ) => match r {
                Ok(outcome) => JobTurn::Done(
                    AmpEvent::Restarted { id: display_id.clone(), outcome },
                ),
                Err(e) => failure("restart spawn failed: ", e.as_str()),
            },
            (
                AmpJob::DirsAdd { runner_id, display_id, path },
                JobPhase::First,
                JobAnswer::Replied(reply),
            ) => match client.dirs_add(borrowed(runner_id), path.as_str(), &reply) {
                Ok(out) => JobTurn::Done(
                    AmpEvent::DirsAddOk {
                        runner_id: runner_id.clone(),
                        id: display_id.clone(),
                        path: path.clone(),
                        out,
                    },
                ),
                Err(e) => failure("dirs add failed: ", e.message().as_str()),
            },
            (
                AmpJob::DirsRemove { runner_id, display_id, path },
                JobPhase::First,
                JobAnswer::Replied(reply),
            ) => match client.dirs_remove(borrowed(runner_id), path.as_str(), &reply) {
                Ok(out) => JobTurn::Done(
                    AmpEvent::DirsRemoveOk {
                        runner_id: runner_id.clone(),
                        id: display_id.clone(),
                        path: path.clone(),
                        out,
                    },
                ),
                Err(e) => failure("dirs remove failed: ", e.message().as_str()),
            },
            (
                AmpJob::DirsList { runner_id, match_id },
                JobPhase::First,
                JobAnswer::Replied(reply),
            ) => match client.dirs_list(borrowed(runner_id), &reply) {
                Ok(dirs) => JobTurn::Done(
                    AmpEvent::DirsListOk { match_id: match_id.clone(), dirs },
                ),
                Err(e) => failure("dirs list failed: ", e.message().as_str()),
            },
            _ => self.again(),
        }
    }
}

/// A restart stops the runner only after its spec was found good, starts it only after it was
/// stopped, and starts it with the spec's own directory and options.
pub proof fn restart_goes_in_order(
    binary: Seq<char>,
    pid: u32,
    runner_id: Option<Seq<char>>,
    display_id: Seq<char>,
    spec: LaunchView,
    phase: PhaseView,
    answer: JobAnswer,
)
    ensures
        match job_next(
            binary,
            JobView::Restart { pid, runner_id, display_id, spec },
            phase,
            answer,
        ) {
            JobNext::Ask(next, AskView::Stop { .. }) => phase is Stopping || (answer is IsDir
                && launch::spec_fault(spec, answer->IsDir_0) is None),
            JobNext::Ask(next, AskView::Start { cwd, opts }) => cwd == spec.cwd && opts
                == spec.options && (phase is Starting || (phase is Stopping && answer is Stopped
                && answer->Stopped_0 is Ok)),
            JobNext::Done(EventView::Restarted { id, outcome }) => phase is Starting && match answer {
                JobAnswer::Started(Ok(o)) => outcome == o@,
                _ => false,
            },
            _ => true,
        },
{
}

/// Each job begins with the outside work of its name, on what it was handed out for: a stop on its
/// process, a start in its directory with its options, a restart with a look at the saved directory,
/// and a change of directories with a command that ends with the path.
pub proof fn jobs_begin_with_their_work(
    pid: u32,
    runner_id: Option<Seq<char>>,
    id: Seq<char>,
    path: Seq<char>,
    spec: LaunchView,
    opts: OptionsView,
)
    ensures
        first_ask(JobView::Refresh) == AskView::List,
        first_ask(JobView::Update) == AskView::Command(seq!["update"@]),
        first_ask(JobView::Start { cwd: path, opts }) == (AskView::Start { cwd: path, opts }),
        first_ask(JobView::Stop { pid, runner_id, display_id: id }) == (AskView::Stop {
            pid,
            runner_id,
        }),
        first_ask(JobView::Restart { pid, runner_id, display_id: id, spec }) == AskView::CheckDir(
            spec.cwd,
        ),
        ({
            let ask = first_ask(JobView::DirsAdd { runner_id, display_id: id, path });
            &&& ask is Command
            &&& ask->Command_0.drop_last() == args::dirs_args("add"@, runner_id)
            &&& ask->Command_0.last() == path
        }),
        ({
            let ask = first_ask(JobView::DirsRemove { runner_id, display_id: id, path });
            &&& ask is Command
            &&& ask->Command_0.drop_last() == args::dirs_args("remove"@, runner_id)
            &&& ask->Command_0.last() == path
        }),
        first_ask(JobView::DirsList { runner_id, match_id: id }) == AskView::Command(
            args::dirs_args("list"@, runner_id),
        ),
{
    assert(args::dirs_args("add"@, runner_id).push(path).drop_last() =~= args::dirs_args(
        "add"@,
        runner_id,
    ));
    assert(args::dirs_args("remove"@, runner_id).push(path).drop_last() =~= args::dirs_args(
        "remove"@,
        runner_id,
    ));
}

/// Whether a report is about a job: of the kind of the job, on the runner, the process and the path
/// that the job was handed out for.
pub open spec fn reports_on(job: JobView, e: EventView) -> bool {
    match job {
        JobView::Refresh => e is RefreshOk,
        JobView::Update => e is UpdateOk,
        JobView::Start { cwd, opts } => e is Started && match opts.runner_id {
            Some(id) => e->Started_id == id,
            None => e->Started_id == "(amp-assigned id)"@,
        },
        JobView::Stop { pid, runner_id, display_id } => e is Stopped && e->Stopped_id == display_id
            && e->Stopped_pid == pid,
        JobView::Restart { pid, runner_id, display_id, spec } => e is Restarted && e->Restarted_id
            == display_id,
        JobView::DirsAdd { runner_id, display_id, path } => e is DirsAddOk
            && e->DirsAddOk_runner_id == runner_id && e->DirsAddOk_id == display_id
            && e->DirsAddOk_path == path,
        JobView::DirsRemove { runner_id, display_id, path } => e is DirsRemoveOk
            && e->DirsRemoveOk_runner_id == runner_id && e->DirsRemoveOk_id == display_id
            && e->DirsRemoveOk_path == path,
        JobView::DirsList { runner_id, match_id } => e is DirsListOk && e->match_id == match_id,
    }
}

/// A job that ends reports on itself, or a failure.
pub proof fn jobs_report_on_themselves(
    binary: Seq<char>,
    job: JobView,
    phase: PhaseView,
    answer: JobAnswer,
)
    requires
        job_next(binary, job, phase, answer) is Done,
    ensures
        ({
            let e = job_next(binary, job, phase, answer)->Done_0;
            e is Failed || reports_on(job, e)
        }),
{
}

/// Whether the outside work went well.
pub open spec fn went_well(answer: JobAnswer) -> bool {
    match answer {
        JobAnswer::Listed(r) => r is Ok,
        JobAnswer::Replied(reply) => reply is Finished && reply->success,
        JobAnswer::Started(r) => r is Ok,
        JobAnswer::Stopped(r) => r is Ok,
        JobAnswer::IsDir(yes) => yes,
    }
}

/// Whether an answer is to what a job asks for at first.
pub open spec fn answers_first(job: JobView, answer: JobAnswer) -> bool {
    match job {
        JobView::Refresh => answer is Listed,
        JobView::Start { cwd, opts } => answer is Started,
        JobView::Stop { pid, runner_id, display_id } => answer is Stopped,
        JobView::Restart { pid, runner_id, display_id, spec } => answer is IsDir,
        _ => answer is Replied,
    }
}

/// A job whose work went well ends with its report, one whose work did not ends with a failure; an
/// update asks for the version before it ends, and a restart stops and starts.
pub proof fn jobs_end_as_their_work_went(binary: Seq<char>, job: JobView, answer: JobAnswer)
    requires
        answers_first(job, answer),
        !(job is Restart),
    ensures
        ({
            let next = job_next(binary, job, PhaseView::First, answer);
            &&& !went_well(answer) ==> next is Done && next->Done_0 is Failed
            &&& went_well(answer) && !(job is Update) ==> next is Done && reports_on(
                job,
                next->Done_0,
            )
            &&& went_well(answer) && job is Update ==> next is Ask && next->Ask_1
                == AskView::Command(seq!["version"@])
        }),
{
}

/// A restart whose directory is there and whose runner id can be one stops the process, starts the
/// runner as it was launched once the stop went well, and is over once that went well; a failure on
/// the way ends it.
pub proof fn restarts_stop_then_start(
    binary: Seq<char>,
    pid: u32,
    runner_id: Option<Seq<char>>,
    display_id: Seq<char>,
    spec: LaunchView,
    answer: JobAnswer,
)
    ensures
        ({
            let job = JobView::Restart { pid, runner_id, display_id, spec };
            let first = job_next(binary, job, PhaseView::First, answer);
            let second = job_next(binary, job, PhaseView::Stopping, answer);
            let third = job_next(binary, job, PhaseView::Starting, answer);
            &&& answer is IsDir && launch::spec_fault(spec, answer->IsDir_0) is None ==> first
                == JobNext::Ask(PhaseView::Stopping, AskView::Stop { pid, runner_id })
            &&& answer is IsDir && launch::spec_fault(spec, answer->IsDir_0) is Some
                ==> first is Done && first->Done_0 is Failed
            &&& answer is Stopped && went_well(answer) ==> second == JobNext::Ask(
                PhaseView::Starting,
                AskView::Start { cwd: spec.cwd, opts: spec.options },
            )
            &&& answer is Stopped && !went_well(answer) ==> second is Done
                && second->Done_0 is Failed
            &&& answer is Started && went_well(answer) ==> third is Done && reports_on(
                job,
                third->Done_0,
            ) && third->Done_0->Restarted_outcome == answer->Started_0->Ok_0@
            &&& answer is Started && !went_well(answer) ==> third is Done
                && third->Done_0 is Failed
        }),
{
}

/// Reports hand on what the outside work gave: the list, the outcome, the output, and the directories
/// that the output lists.
pub proof fn reports_hand_on_the_answers(
    binary: Seq<char>,
    job: JobView,
    answer: JobAnswer,
    out: Seq<char>,
)
    ensures
        ({
            let next = job_next(binary, job, PhaseView::First, answer);
            &&& job is Refresh && answer is Listed && answer->Listed_0 is Ok ==> next
                == JobNext::Done(
                EventView::RefreshOk(crate::runner::runners(answer->Listed_0->Ok_0@)),
            )
            &&& job is Start && answer is Started && answer->Started_0 is Ok
                ==> next->Done_0->Started_outcome == answer->Started_0->Ok_0@
            &&& job is Stop && answer is Stopped && answer->Stopped_0 is Ok
                ==> next->Done_0->Stopped_outcome == answer->Stopped_0->Ok_0
            &&& job is DirsAdd && answer is Replied && went_well(answer)
                ==> next->Done_0->DirsAddOk_out == text::utf8_lossy(
                answer->Replied_0->stdout@,
            )
            &&& job is DirsRemove && answer is Replied && went_well(answer)
                ==> next->Done_0->DirsRemoveOk_out == text::utf8_lossy(
                answer->Replied_0->stdout@,
            )
            &&& job is DirsList && answer is Replied && went_well(answer) ==> next->Done_0->dirs
                == listing::dirs_listed(text::utf8_lossy(answer->Replied_0->stdout@))
        }),
        answer is Replied ==> ({
            let next = job_next(binary, JobView::Update, PhaseView::Updated(out), answer);
            &&& next is Done
            &&& next->Done_0 is UpdateOk
            &&& next->Done_0->UpdateOk_out == out
            &&& went_well(answer) ==> next->Done_0->version == Some(
                text::first_line_of(text::utf8_lossy(answer->Replied_0->stdout@)),
            )
            &&& !went_well(answer) ==> next->Done_0->version is None
        }),
{
}

/// A failure is told by the name of the job, with the cause behind it.
pub proof fn failures_name_the_job(binary: Seq<char>, job: JobView, answer: JobAnswer)
    requires
        answers_first(job, answer),
        !went_well(answer),
    ensures
        ({
            let next = job_next(binary, job, PhaseView::First, answer);
            let t = next->Done_0->Failed_0;
            &&& next is Done && next->Done_0 is Failed
            &&& job is Refresh ==> text::has_prefix(t, "refresh failed: "@) && text::has_suffix(
                t,
                client::call_error_text(answer->Listed_0->Err_0@),
            )
            &&& job is Update ==> text::has_prefix(t, "amp update failed: "@)
            &&& job is Start ==> text::has_prefix(t, "start failed: "@) && text::has_suffix(
                t,
                answer->Started_0->Err_0@,
            )
            &&& job is Stop ==> text::has_prefix(t, "stop failed: "@) && text::has_suffix(
                t,
                stop::stop_error_text(answer->Stopped_0->Err_0@),
            )
            &&& job is Restart ==> text::has_prefix(t, "restart aborted (spec invalid): "@)
            &&& job is DirsAdd ==> text::has_prefix(t, "dirs add failed: "@)
            &&& job is DirsRemove ==> text::has_prefix(t, "dirs remove failed: "@)
            &&& job is DirsList ==> text::has_prefix(t, "dirs list failed: "@)
            &&& answer is Replied && answer->Replied_0 is NotRun ==> text::has_suffix(
                t,
                answer->Replied_0->NotRun_0@,
            )
        }),
{
    match job {
        JobView::Refresh => {
            lemma_told("refresh failed: "@, client::call_error_text(answer->Listed_0->Err_0@));
        },
        JobView::Start { cwd, opts } => {
            lemma_told("start failed: "@, answer->Started_0->Err_0@);
        },
        JobView::Stop { pid, runner_id, display_id } => {
            lemma_told("stop failed: "@, stop::stop_error_text(answer->Stopped_0->Err_0@));
        },
        JobView::Restart { pid, runner_id, display_id, spec } => {
            lemma_told(
                "restart aborted (spec invalid): "@,
                launch::launch_error_text(launch::spec_fault(spec, answer->IsDir_0)->0),
            );
        },
        JobView::Update => {
            lemma_command_told(binary, seq!["update"@], "amp update failed: "@, answer);
        },
        JobView::DirsAdd { runner_id, display_id, path } => {
            lemma_command_told(
                binary,
                args::dirs_args("add"@, runner_id).push(path),
                "dirs add failed: "@,
                answer,
            );
        },
        JobView::DirsRemove { runner_id, display_id, path } => {
            lemma_command_told(
                binary,
                args::dirs_args("remove"@, runner_id).push(path),
                "dirs remove failed: "@,
                answer,
            );
        },
        JobView::DirsList { runner_id, match_id } => {
            lemma_command_told(
                binary,
                args::dirs_args("list"@, runner_id),
                "dirs list failed: "@,
                answer,
            );
        },
    }
}

proof fn lemma_told(what: Seq<char>, cause: Seq<char>)
    ensures
        text::has_prefix(what + cause, what),
        text::has_suffix(what + cause, cause),
{
    text::prefixes_and_rests(what, cause, cause);
    text::prefixes_and_rests(cause, what, cause);
}

proof fn lemma_command_told(
    binary: Seq<char>,
    args: Seq<Seq<char>>,
    what: Seq<char>,
    answer: JobAnswer,
)
    requires
        answer is Replied,
        !went_well(answer),
    ensures
        ({
            let r = client::output_of(binary, args, answer->Replied_0);
            let t = what + client::call_error_text(r->Err_0);
            &&& r is Err
            &&& text::has_prefix(t, what)
            &&& answer->Replied_0 is NotRun ==> text::has_suffix(t, answer->Replied_0->NotRun_0@)
        }),
{
    let r = client::output_of(binary, args, answer->Replied_0);
    let cause = client::call_error_text(r->Err_0);
    lemma_told(what, cause);
    if answer->Replied_0 is NotRun {
        let d = answer->Replied_0->NotRun_0@;
        let shown = text::joined(args, " "@);
        let head = what + ("failed to execute "@ + binary + " "@ + shown + ": "@);
        assert(what + cause =~= head + d);
        text::prefixes_and_rests(d, head, d);
    }
}

} // verus!
