//! The state of the screen, and what a key, an event or an answer does to it.
use vstd::prelude::*;
use std::collections::VecDeque;
use crate::config;
use crate::config::{
    user_home_dir, Config, ConfigView, DefaultsView, FileWrite, FileWriteView, StartDefaults,
};
use crate::document;
use crate::flags;
use crate::flags::{commit_edit, flag_text, nudge_flag, FlagField};
use crate::jobs::{AmpEvent, AmpJob, EventView, JobView};
use crate::launch;
use crate::launch::{
    launch_spec_for_restart, HealthView, LaunchSpec, LaunchView, OutcomeView, StartHealth,
    StartOutcome,
};
use crate::path;
use crate::path::same_path;
use crate::picker;
use crate::picker::{
    clamp, display_path_in, expand_path_in, typed_path_of, DirPicker, EntryView, Key, KeyPress, Listing,
    MoveView, PickerEntry, PickerJob, PickerMove, PickerPurpose, PickerView, Surroundings,
};
use crate::process;
use crate::process::find_by_id;
use crate::runner;
use crate::runner::{is_plausible_runner_id, Runner, RunnerView};
use crate::stop::StopOutcome;
use crate::text;
use crate::text::{
    borrowed, chars_of, first_line, owned, string_of, strip_prefix, three, trimmed, trimmed_str,
    two, write_decimal,
};

verus! {

/// How often the runner list is asked for, in milliseconds.
pub const REFRESH_EVERY: u64 = 3000;

/// How many log lines are kept.
pub const LOG_CAP: usize = 200;

/// The panes.
#[derive(Debug, Clone, Copy, PartialEq, Eq, Structural)]
pub enum Pane {
    Runners,
    Dirs,
}

/// What lies over the panes.
#[derive(Debug, Clone, Copy, PartialEq, Eq, Structural)]
pub enum Overlay {
    /// Nothing.
    Clear,
    Help,
    Flags,
    Picker,
    EditField,
    Confirm,
}

/// What is to be confirmed.
#[derive(Debug, Clone, Copy, PartialEq, Eq, Structural)]
pub enum ConfirmAction {
    Stop,
    Restart,
    RemoveDir,
}

/// The kind of a message.
#[derive(Debug, Clone, Copy, PartialEq, Eq, Structural)]
pub enum LogKind {
    Info,
    Good,
    Error,
}

/// A line of the log.
#[derive(Debug)]
pub struct LogLine {
    pub time: String,
    pub text: String,
    pub kind: LogKind,
}

/// What a [`LogLine`] holds.
#[verifier::ext_equal]
pub struct LogView {
    pub time: Seq<char>,
    pub text: Seq<char>,
    pub kind: LogKind,
}

impl View for LogLine {
    type V = LogView;

    open spec fn view(&self) -> LogView {
        LogView { time: self.time@, text: self.text@, kind: self.kind }
    }
}

/// What log lines hold.
pub open spec fn log_view(v: Seq<LogLine>) -> Seq<LogView> {
    Seq::new(v.len(), |i: int| v[i]@)
}

/// The moment of a step, and where the program then stands.
#[derive(Debug)]
pub struct Now {
    /// A clock that never goes back, in milliseconds.
    pub millis: u64,
    /// The time of day, as it is shown.
    pub clock: String,
    pub around: Surroundings,
}

/// What a [`Now`] holds.
pub struct NowView {
    pub millis: u64,
    pub clock: Seq<char>,
    pub cwd: Option<Seq<char>>,
    pub home: Option<Seq<char>>,
}

impl View for Now {
    type V = NowView;

    open spec fn view(&self) -> NowView {
        NowView {
            millis: self.millis,
            clock: self.clock@,
            cwd: text::opt_text(self.around.cwd),
            home: text::opt_text(self.around.home),
        }
    }
}

/// `chrono::Local::now` in the form `%H:%M:%S`. It depends on the time and the zone of the machine,
/// so nothing is said of it.
#[verifier::external_body]
fn local_clock() -> (r: String)
{
    chrono::Local::now().format("%H:%M:%S").to_string()
}

/// The moment of a step.
pub fn moment(millis: u64, cwd: Option<String>) -> (r: Now)
    ensures
        r@.millis == millis,
        r@.cwd == text::opt_text(cwd),
{
    Now { millis, clock: local_clock(), around: Surroundings { cwd, home: user_home_dir() } }
}

/// What a step still waits for.
#[derive(Debug)]
pub enum Pending {
    /// The config is being saved after a start.
    Started { id: String, outcome: StartOutcome },
    /// The config is being saved after a directory was added.
    DirAdded { runner_id: Option<String>, id: String, path: String, out: String },
    /// The config is being saved with new flags.
    Flags,
    /// The list of the picker is being made.
    Listing,
    /// The picker goes to this path, if it is a directory.
    Descend(String),
    /// This path was picked, if it is a directory.
    Finish { purpose: PickerPurpose, path: String },
    /// The launch specs are being read.
    Restart,
}

/// What a [`Pending`] holds.
#[verifier::ext_equal]
pub enum PendingView {
    Started { id: Seq<char>, outcome: OutcomeView },
    DirAdded { runner_id: Option<Seq<char>>, id: Seq<char>, path: Seq<char>, out: Seq<char> },
    Flags,
    Listing,
    Descend(Seq<char>),
    Finish { purpose: PickerPurpose, path: Seq<char> },
    Restart,
}

impl View for Pending {
    type V = PendingView;

    open spec fn view(&self) -> PendingView {
        match self {
            Pending::Started { id, outcome } => PendingView::Started {
                id: id@,
                outcome: outcome@,
            },
            Pending::DirAdded { runner_id, id, path, out } => PendingView::DirAdded {
                runner_id: text::opt_text(*runner_id),
                id: id@,
                path: path@,
                out: out@,
            },
            Pending::Flags => PendingView::Flags,
            Pending::Listing => PendingView::Listing,
            Pending::Descend(p) => PendingView::Descend(p@),
            Pending::Finish { purpose, path } => PendingView::Finish {
                purpose: *purpose,
                path: path@,
            },
            Pending::Restart => PendingView::Restart,
        }
    }
}

/// What a step asks of the outside.
#[derive(Debug)]
pub enum Effect {
    Nothing,
    /// Hand this job to the worker.
    Run(AmpJob),
    /// Write the config; then [`App::config_saved`].
    Save(FileWrite),
    /// Read this directory and test this path, where given; then [`App::picker_listed`].
    List { root: Option<String>, typed: Option<String> },
    /// Test whether this path is a directory; then [`App::dir_checked`].
    CheckDir(String),
    /// Read the launch specs; then [`App::launches_read`].
    ReadLaunches,
}

/// What an [`Effect`] holds.
#[verifier::ext_equal]
pub enum EffectView {
    Nothing,
    Run(JobView),
    Save(FileWriteView),
    List { root: Option<Seq<char>>, typed: Option<Seq<char>> },
    CheckDir(Seq<char>),
    ReadLaunches,
}

impl View for Effect {
    type V = EffectView;

    open spec fn view(&self) -> EffectView {
        match self {
            Effect::Nothing => EffectView::Nothing,
            Effect::Run(j) => EffectView::Run(j@),
            Effect::Save(w) => EffectView::Save(w@),
            Effect::List { root, typed } => EffectView::List {
                root: text::opt_text(*root),
                typed: text::opt_text(*typed),
            },
            Effect::CheckDir(p) => EffectView::CheckDir(p@),
            Effect::ReadLaunches => EffectView::ReadLaunches,
        }
    }
}

/// The state of the screen.
#[derive(Debug)]
pub struct App {
    pub config: Config,
    pub config_path: String,
    pub config_writable: bool,
    pub runners: Vec<Runner>,
    pub selected_runner: usize,
    pub selected_dir: usize,
    pub pane: Pane,
    pub overlay: Overlay,
    pub confirm: Option<ConfirmAction>,
    pub picker: Option<DirPicker>,
    pub flags: StartDefaults,
    pub flag_field: FlagField,
    pub edit_buffer: String,
    pub log: VecDeque<LogLine>,
    pub status: String,
    pub status_kind: LogKind,
    pub amp_version: String,
    /// When the runner list last arrived, in milliseconds.
    pub last_refresh: Option<u64>,
    pub should_quit: bool,
    pub busy: bool,
    pub help_scroll: u16,
    pub pending: Option<Pending>,
}

/// What an [`App`] holds.
#[verifier::ext_equal]
pub struct AppView {
    pub config: ConfigView,
    pub config_path: Seq<char>,
    pub config_writable: bool,
    pub runners: Seq<RunnerView>,
    pub selected_runner: nat,
    pub selected_dir: nat,
    pub pane: Pane,
    pub overlay: Overlay,
    pub confirm: Option<ConfirmAction>,
    pub picker: Option<PickerView>,
    pub flags: DefaultsView,
    pub flag_field: FlagField,
    pub edit_buffer: Seq<char>,
    pub log: Seq<LogView>,
    pub status: Seq<char>,
    pub status_kind: LogKind,
    pub amp_version: Seq<char>,
    pub last_refresh: Option<u64>,
    pub should_quit: bool,
    pub busy: bool,
    pub help_scroll: u16,
    pub pending: Option<PendingView>,
}

/// What an optional picker holds.
pub open spec fn opt_picker(p: Option<DirPicker>) -> Option<PickerView> {
    match p {
        Some(x) => Some(x@),
        None => None,
    }
}

/// What an optional wait holds.
pub open spec fn opt_pending(p: Option<Pending>) -> Option<PendingView> {
    match p {
        Some(x) => Some(x@),
        None => None,
    }
}

impl View for App {
    type V = AppView;

    open spec fn view(&self) -> AppView {
        AppView {
            config: self.config@,
            config_path: self.config_path@,
            config_writable: self.config_writable,
            runners: runner::runners(self.runners@),
            selected_runner: self.selected_runner as nat,
            selected_dir: self.selected_dir as nat,
            pane: self.pane,
            overlay: self.overlay,
            confirm: self.confirm,
            picker: opt_picker(self.picker),
            flags: self.flags@,
            flag_field: self.flag_field,
            edit_buffer: self.edit_buffer@,
            log: log_view(self.log@),
            status: self.status@,
            status_kind: self.status_kind,
            amp_version: self.amp_version@,
            last_refresh: self.last_refresh,
            should_quit: self.should_quit,
            busy: self.busy,
            help_scroll: self.help_scroll,
            pending: opt_pending(self.pending),
        }
    }
}

// ---------------------------------------------------------------------------------------------
// Messages and jobs

/// The newest lines of a log, as many as are kept.
pub open spec fn capped_log(v: Seq<LogView>) -> Seq<LogView> {
    if v.len() > LOG_CAP {
        v.skip(v.len() - LOG_CAP)
    } else {
        v
    }
}

/// A state with one message more, shown and logged.
pub open spec fn logged(a: AppView, now: NowView, kind: LogKind, text: Seq<char>) -> AppView {
    AppView {
        status: text,
        status_kind: kind,
        log: capped_log(a.log.push(LogView { time: now.clock, text, kind })),
        ..a
    }
}

/// A state with one error more, and nothing asked.
pub open spec fn refused(a: AppView, now: NowView, text: Seq<char>) -> (AppView, EffectView) {
    (logged(a, now, LogKind::Error, text), EffectView::Nothing)
}

/// A job handed to the worker, unless one is under way.
pub open spec fn submitted(a: AppView, now: NowView, job: JobView, working: Seq<char>) -> (
    AppView,
    EffectView,
) {
    if a.busy {
        (logged(a, now, LogKind::Info, "already working…"@), EffectView::Nothing)
    } else {
        (
            AppView { busy: true, status: working, status_kind: LogKind::Info, ..a },
            EffectView::Run(job),
        )
    }
}

/// The runner list asked for, unless a job is under way.
pub open spec fn refresh_requested(a: AppView, now: NowView) -> (AppView, EffectView) {
    if a.busy {
        (a, EffectView::Nothing)
    } else {
        submitted(a, now, JobView::Refresh, "working… refresh"@)
    }
}

/// The selected runner.
pub open spec fn current_runner(a: AppView) -> Option<RunnerView> {
    if a.selected_runner < a.runners.len() {
        Some(a.runners[a.selected_runner as int])
    } else {
        None
    }
}

/// The served directories of the selected runner.
pub open spec fn current_dirs(a: AppView) -> Seq<Seq<char>> {
    match current_runner(a) {
        Some(r) => r.dirs,
        None => Seq::empty(),
    }
}

/// The selected directory.
pub open spec fn selected_dir_of(a: AppView) -> Option<Seq<char>> {
    if a.selected_dir < current_dirs(a).len() {
        Some(current_dirs(a)[a.selected_dir as int])
    } else {
        None
    }
}

/// The first directory from `i` on that is the path.
pub open spec fn dir_from(dirs: Seq<Seq<char>>, p: Seq<char>, i: int) -> Option<int>
    decreases dirs.len() - i,
{
    if i < 0 || i >= dirs.len() {
        None
    } else if path::same_path_text(dirs[i], p) {
        Some(i)
    } else {
        dir_from(dirs, p, i + 1)
    }
}

/// The selection kept on the runner with the id and on the directory, where they are still there,
/// and on the lists in any case.
pub open spec fn reselected(a: AppView, id: Option<Seq<char>>, dir: Option<Seq<char>>) -> AppView {
    let by_id = match id {
        Some(x) => match process::with_id_from(a.runners, x, 0) {
            Some(i) => i as nat,
            None => a.selected_runner,
        },
        None => a.selected_runner,
    };
    let b = AppView { selected_runner: picker::clamped(by_id, a.runners.len()), ..a };
    let dirs = current_dirs(b);
    let by_dir = match dir {
        Some(d) => match dir_from(dirs, d, 0) {
            Some(i) => i as nat,
            None => b.selected_dir,
        },
        None => b.selected_dir,
    };
    AppView { selected_dir: picker::clamped(by_dir, dirs.len()), ..b }
}

/// The selected directory kept on its list.
pub open spec fn dir_clamped(a: AppView) -> AppView {
    AppView { selected_dir: picker::clamped(a.selected_dir, current_dirs(a).len()), ..a }
}

// ---------------------------------------------------------------------------------------------
// Events

/// The first line of an output, or `ok`.
pub open spec fn summary(out: Seq<char>) -> Seq<char> {
    if text::first_line_of(out).len() == 0 {
        "ok"@
    } else {
        text::first_line_of(out)
    }
}

/// The message on a start.
pub open spec fn start_message(
    verb: Seq<char>,
    id: Seq<char>,
    o: OutcomeView,
    home: Option<Seq<char>>,
) -> Seq<char> {
    let log = picker::displayed(o.log_path, home);
    let pid = text::decimal(o.pid as nat);
    match o.health {
        HealthView::Listed => verb + " "@ + id + " (pid "@ + pid + ", listed)  log "@ + log,
        HealthView::Alive => "spawned "@ + id + " (pid "@ + pid
            + ") — not yet in `amp runner list`; log "@ + log,
        HealthView::NeedsLogin => "Amp at pid "@ + pid
            + " is waiting for login. Run `amp login` in a terminal. log "@ + log,
        HealthView::Exited { hint } => {
            let said = id + " exited immediately (pid "@ + pid + "). See "@ + log;
            if text::trim(hint).len() == 0 {
                said
            } else {
                said + " — "@ + text::trim(hint)
            }
        },
    }
}

/// The kind of the message on a start.
pub open spec fn start_kind(h: HealthView) -> LogKind {
    match h {
        HealthView::Listed => LogKind::Good,
        HealthView::Alive => LogKind::Info,
        _ => LogKind::Error,
    }
}

/// The message on a start, shown and logged.
pub open spec fn start_logged(
    a: AppView,
    now: NowView,
    verb: Seq<char>,
    id: Seq<char>,
    o: OutcomeView,
) -> AppView {
    logged(a, now, start_kind(o.health), start_message(verb, id, o, now.home))
}

/// What follows a change of the config that was saved, or could not be.
pub open spec fn resumed(a: AppView, now: NowView, p: PendingView) -> (AppView, EffectView) {
    match p {
        PendingView::Started { id, outcome } => refresh_requested(
            start_logged(a, now, "started"@, id, outcome),
            now,
        ),
        PendingView::DirAdded { runner_id, id, path, out } => submitted(
            logged(
                a,
                now,
                LogKind::Good,
                text::trim(
                    "added "@ + picker::displayed(path, now.home) + " to "@ + id + " "@
                        + text::first_line_of(out),
                ),
            ),
            now,
            JobView::DirsList { runner_id, match_id: id },
            "working… dirs"@,
        ),
        _ => (a, EffectView::Nothing),
    }
}

/// The message on a failed save.
pub open spec fn save_failed(a: AppView, now: NowView, cause: Seq<char>) -> AppView {
    logged(a, now, LogKind::Error, "save failed: "@ + cause)
}

/// Why a config cannot be written.
pub open spec fn unwritable() -> Seq<char> {
    "failed to serialize config: too many quotes in a row"@
}

/// How the config is written.
pub open spec fn config_write(a: AppView) -> FileWriteView {
    config::write_of(a.config_path, document::toml_text(config::config_tree(a.config)))
}

/// The config saved where it may be, with what follows.
pub open spec fn saving(a: AppView, now: NowView, p: PendingView) -> (AppView, EffectView) {
    if !a.config_writable {
        resumed(a, now, p)
    } else if config::can_save(a.config) {
        (AppView { pending: Some(p), ..a }, EffectView::Save(config_write(a)))
    } else {
        resumed(save_failed(a, now, unwritable()), now, p)
    }
}

/// A state with a directory remembered.
pub open spec fn remembering(a: AppView, dir: Seq<char>) -> AppView {
    AppView {
        config: ConfigView {
            recent_dirs: config::remembered(a.config.recent_dirs, dir),
            ..a.config
        },
        ..a
    }
}

/// A new list of runners.
pub open spec fn refreshed_with(a: AppView, now: NowView, list: Seq<RunnerView>) -> AppView {
    let id = match current_runner(a) {
        Some(r) => Some(r.id),
        None => None,
    };
    let b = reselected(AppView { runners: list, ..a }, id, selected_dir_of(a));
    let c = if b.status_kind != LogKind::Error {
        AppView {
            status: text::decimal(list.len()) + " runner(s)"@,
            status_kind: LogKind::Info,
            ..b
        }
    } else {
        b
    };
    AppView { last_refresh: Some(now.millis), ..c }
}

/// The runners with new directories for the first one of an id.
pub open spec fn with_dirs_of(rs: Seq<RunnerView>, id: Seq<char>, dirs: Seq<Seq<char>>) -> Seq<
    RunnerView,
> {
    match process::with_id_from(rs, id, 0) {
        Some(i) => rs.update(i, RunnerView { dirs, ..rs[i] }),
        None => rs,
    }
}

/// What an update does: its first line is shown, and the new version is taken over.
pub open spec fn update_done(a: AppView, now: NowView, out: Seq<char>, version: Option<Seq<char>>) -> AppView {
    let b = logged(a, now, LogKind::Good, "amp update: "@ + summary(out));
    match version {
        Some(v) => AppView { amp_version: v, ..b },
        None => b,
    }
}

/// What a stop does: it is shown, and the runner list is asked for.
pub open spec fn stop_done(
    a: AppView,
    now: NowView,
    id: Seq<char>,
    outcome: StopOutcome,
    pid: u32,
) -> (AppView, EffectView) {
    refresh_requested(
        match outcome {
            StopOutcome::Stopped => logged(
                a,
                now,
                LogKind::Good,
                "stopped "@ + id + " (pid "@ + text::decimal(pid as nat) + ")"@,
            ),
            StopOutcome::AlreadyGone => logged(
                a,
                now,
                LogKind::Info,
                "pid "@ + text::decimal(pid as nat) + " for "@ + id + " was already gone"@,
            ),
        },
        now,
    )
}

/// What the removal of a directory does: it is shown, and the directories are asked for.
pub open spec fn remove_done(
    a: AppView,
    now: NowView,
    runner_id: Option<Seq<char>>,
    id: Seq<char>,
    path: Seq<char>,
    out: Seq<char>,
) -> (AppView, EffectView) {
    submitted(
        logged(
            a,
            now,
            LogKind::Good,
            text::trim(
                "removed "@ + picker::displayed(path, now.home) + " from "@ + id + " "@
                    + text::first_line_of(out),
            ),
        ),
        now,
        JobView::DirsList { runner_id, match_id: id },
        "working… dirs"@,
    )
}

/// What a list of directories does: the runner takes it over; an empty one has the runner list
/// asked for.
pub open spec fn dirs_done(a: AppView, now: NowView, id: Seq<char>, dirs: Seq<Seq<char>>) -> (
    AppView,
    EffectView,
) {
    let (b, effect) = if dirs.len() > 0 {
        (AppView { runners: with_dirs_of(a.runners, id, dirs), ..a }, EffectView::Nothing)
    } else {
        refresh_requested(a, now)
    };
    (dir_clamped(b), effect)
}

/// What an event does.
pub open spec fn event_handled(a0: AppView, now: NowView, e: EventView) -> (AppView, EffectView) {
    let a = AppView { busy: false, ..a0 };
    match e {
        EventView::RefreshOk(list) => (refreshed_with(a, now, list), EffectView::Nothing),
        EventView::UpdateOk { out, version } => (
            update_done(a, now, out, version),
            EffectView::Nothing,
        ),
        EventView::Started { id, outcome } => saving(
            remembering(a, outcome.cwd),
            now,
            PendingView::Started { id, outcome },
        ),
        EventView::Stopped { id, outcome, pid } => stop_done(a, now, id, outcome, pid),
        EventView::Restarted { id, outcome } => refresh_requested(
            start_logged(a, now, "restarted"@, id, outcome),
            now,
        ),
        EventView::DirsAddOk { runner_id, id, path, out } => saving(
            remembering(a, path),
            now,
            PendingView::DirAdded { runner_id, id, path, out },
        ),
        EventView::DirsRemoveOk { runner_id, id, path, out } => remove_done(
            a,
            now,
            runner_id,
            id,
            path,
            out,
        ),
        EventView::DirsListOk { match_id, dirs } => dirs_done(a, now, match_id, dirs),
        EventView::Failed(err) => refused(a, now, err),
    }
}

/// What follows a save.
pub open spec fn after_save(a0: AppView, now: NowView, r: Result<(), Seq<char>>) -> (
    AppView,
    EffectView,
) {
    let a = AppView { pending: None, ..a0 };
    match a0.pending {
        Some(PendingView::Flags) => match r {
            Ok(_) => (
                AppView {
                    overlay: Overlay::Clear,
                    ..logged(a, now, LogKind::Good, "saved defaults to "@ + a.config_path)
                },
                EffectView::Nothing,
            ),
            Err(e) => (save_failed(a, now, e), EffectView::Nothing),
        },
        Some(p) => match r {
            Ok(_) => resumed(a, now, p),
            Err(e) => resumed(save_failed(a, now, e), now, p),
        },
        None => (a, EffectView::Nothing),
    }
}

// ---------------------------------------------------------------------------------------------
// Keys

/// A number moved by one step and kept below `n`.
pub open spec fn moved(sel: nat, forward: bool, n: nat) -> nat {
    if forward {
        picker::clamped(sel + 1, n)
    } else if sel > 0 {
        picker::clamped((sel - 1) as nat, n)
    } else {
        0
    }
}

/// The selection of the focused pane moved by one step.
pub open spec fn selection_moved(a: AppView, forward: bool) -> AppView {
    match a.pane {
        Pane::Runners => if a.runners.len() == 0 {
            a
        } else {
            AppView {
                selected_runner: moved(a.selected_runner, forward, a.runners.len()),
                selected_dir: 0,
                ..a
            }
        },
        Pane::Dirs => if current_dirs(a).len() == 0 {
            a
        } else {
            AppView {
                selected_dir: moved(a.selected_dir, forward, current_dirs(a).len()),
                ..a
            }
        },
    }
}

/// The other pane.
pub open spec fn other_pane(p: Pane) -> Pane {
    match p {
        Pane::Runners => Pane::Dirs,
        Pane::Dirs => Pane::Runners,
    }
}

/// What the list of a picker needs from the file system.
pub open spec fn list_effect(p: PickerView, home: Option<Seq<char>>) -> EffectView {
    if text::trim(p.input).len() == 0 {
        EffectView::List { root: Some(p.browse_root), typed: None }
    } else {
        EffectView::List { root: None, typed: picker::typed_path(text::trim(p.input), home) }
    }
}

/// A picker whose list is to be made.
pub open spec fn listing_picker(a: AppView, now: NowView, p: PickerView) -> (AppView, EffectView) {
    let q = picker::refreshed(p, now.millis);
    (
        AppView { picker: Some(q), pending: Some(PendingView::Listing), ..a },
        list_effect(q, now.home),
    )
}

/// A picker that was just opened.
pub open spec fn new_picker(purpose: PickerPurpose, root: Seq<char>) -> PickerView {
    PickerView {
        purpose,
        input: Seq::empty(),
        filter_mode: false,
        browse_root: root,
        cursor: 0,
        entries: Seq::empty(),
        search_gen: 0,
        searching: false,
        debounce_until: None,
    }
}

/// The picker opened at the current directory.
pub open spec fn picker_opened(a: AppView, now: NowView, purpose: PickerPurpose) -> (
    AppView,
    EffectView,
) {
    if purpose == PickerPurpose::AddDir && current_runner(a) is None {
        refused(a, now, "select a runner before adding a directory"@)
    } else {
        let root = match now.cwd {
            Some(d) => d,
            None => "."@,
        };
        listing_picker(
            AppView { overlay: Overlay::Picker, ..a },
            now,
            new_picker(purpose, root),
        )
    }
}

/// A confirmation asked for, where there is something to confirm.
pub open spec fn confirm_asked(a: AppView, now: NowView, action: ConfirmAction) -> (
    AppView,
    EffectView,
) {
    if current_runner(a) is None {
        refused(a, now, "no runner selected"@)
    } else if action == ConfirmAction::RemoveDir && selected_dir_of(a) is None {
        refused(a, now, "no directory selected"@)
    } else {
        (AppView { confirm: Some(action), overlay: Overlay::Confirm, ..a }, EffectView::Nothing)
    }
}

/// What a key does to the panes.
pub open spec fn normal_key(a: AppView, now: NowView, k: Key) -> (AppView, EffectView) {
    let none = EffectView::Nothing;
    match k {
        Key::Tab => (AppView { pane: other_pane(a.pane), ..a }, none),
        Key::BackTab => (AppView { pane: other_pane(a.pane), ..a }, none),
        Key::Left => (AppView { pane: Pane::Runners, ..a }, none),
        Key::Right => (AppView { pane: Pane::Dirs, ..a }, none),
        Key::Down => (selection_moved(a, true), none),
        Key::Up => (selection_moved(a, false), none),
        Key::Enter => if a.pane == Pane::Dirs && selected_dir_of(a) is Some {
            (AppView { status: selected_dir_of(a)->0, ..a }, none)
        } else {
            (a, none)
        },
        Key::Char(c) => if c == 'q' {
            (AppView { should_quit: true, ..a }, none)
        } else if c == '?' {
            (AppView { overlay: Overlay::Help, ..a }, none)
        } else if c == 'h' {
            (AppView { pane: Pane::Runners, ..a }, none)
        } else if c == 'l' {
            (AppView { pane: Pane::Dirs, ..a }, none)
        } else if c == 'j' {
            (selection_moved(a, true), none)
        } else if c == 'k' {
            (selection_moved(a, false), none)
        } else if c == 'g' {
            refresh_requested(a, now)
        } else if c == 's' {
            picker_opened(a, now, PickerPurpose::Start)
        } else if c == 'x' {
            confirm_asked(a, now, ConfirmAction::Stop)
        } else if c == 'r' {
            confirm_asked(a, now, ConfirmAction::Restart)
        } else if c == 'a' {
            picker_opened(a, now, PickerPurpose::AddDir)
        } else if c == 'd' {
            confirm_asked(a, now, ConfirmAction::RemoveDir)
        } else if c == 'u' {
            submitted(a, now, JobView::Update, "working… amp update"@)
        } else if c == 'f' {
            (
                AppView {
                    flags: a.config.defaults,
                    flag_field: FlagField::RunnerId,
                    overlay: Overlay::Flags,
                    ..a
                },
                none,
            )
        } else if c == 'c' {
            (
                AppView {
                    status: a.config_path,
                    ..logged(a, now, LogKind::Info, "config "@ + a.config_path)
                },
                none,
            )
        } else {
            (a, none)
        },
        _ => (a, none),
    }
}

/// What a key does to the help.
pub open spec fn help_key(a: AppView, k: Key) -> AppView {
    if k == Key::Esc || k == Key::Char('q') || k == Key::Char('?') {
        AppView { overlay: Overlay::Clear, ..a }
    } else if k == Key::Char('j') || k == Key::Down {
        AppView {
            help_scroll: if a.help_scroll < u16::MAX {
                (a.help_scroll + 1) as u16
            } else {
                a.help_scroll
            },
            ..a
        }
    } else if k == Key::Char('k') || k == Key::Up {
        AppView {
            help_scroll: if a.help_scroll > 0 {
                (a.help_scroll - 1) as u16
            } else {
                0
            },
            ..a
        }
    } else {
        a
    }
}

/// The focused field of the flags edited, moved on, or switched.
pub open spec fn field_activated(a: AppView) -> AppView {
    if flags::text_field(a.flag_field) {
        AppView {
            edit_buffer: match flags::field_text(a.flags, a.flag_field) {
                Some(s) => s,
                None => Seq::empty(),
            },
            overlay: Overlay::EditField,
            ..a
        }
    } else {
        AppView { flags: flags::nudged(a.flags, a.flag_field), ..a }
    }
}

/// The flags taken over into the config and saved, where the runner id is a hostname and the config
/// may be written.
pub open spec fn flags_saved(a: AppView, now: NowView) -> (AppView, EffectView) {
    if a.flags.runner_id is Some && !runner::plausible_id(a.flags.runner_id->0) {
        refused(
            a,
            now,
            "runner-id `"@ + a.flags.runner_id->0
                + "` is not a hostname (letters, digits, '-', '.')"@,
        )
    } else if !a.config_writable {
        refused(a, now, "refusing to write invalid config "@ + a.config_path)
    } else {
        let b = AppView { config: ConfigView { defaults: a.flags, ..a.config }, ..a };
        if config::can_save(b.config) {
            (
                AppView { pending: Some(PendingView::Flags), ..b },
                EffectView::Save(config_write(b)),
            )
        } else {
            (save_failed(b, now, unwritable()), EffectView::Nothing)
        }
    }
}

/// What a key does to the flags.
pub open spec fn flags_key(a: AppView, now: NowView, k: Key) -> (AppView, EffectView) {
    let none = EffectView::Nothing;
    if k == Key::Esc || k == Key::Char('q') {
        (AppView { overlay: Overlay::Clear, ..a }, none)
    } else if k == Key::Char('j') || k == Key::Down {
        (AppView { flag_field: flags::field_below(a.flag_field), ..a }, none)
    } else if k == Key::Char('k') || k == Key::Up {
        (AppView { flag_field: flags::field_above(a.flag_field), ..a }, none)
    } else if k == Key::Char('s') {
        flags_saved(a, now)
    } else if k == Key::Enter || k == Key::Char(' ') {
        (field_activated(a), none)
    } else if k == Key::Char('l') || k == Key::Right || k == Key::Char('h') || k == Key::Left {
        (AppView { flags: flags::nudged(a.flags, a.flag_field), ..a }, none)
    } else {
        (a, none)
    }
}

/// What a key does to the text that is being edited.
pub open spec fn edit_key(a: AppView, k: KeyPress) -> AppView {
    match k.key {
        Key::Esc => AppView { overlay: Overlay::Flags, ..a },
        Key::Enter => AppView {
            flags: flags::edited(a.flags, a.flag_field, a.edit_buffer),
            overlay: Overlay::Flags,
            ..a
        },
        Key::Backspace => AppView { edit_buffer: picker::without_last(a.edit_buffer), ..a },
        Key::Char(c) => if !k.control {
            AppView { edit_buffer: a.edit_buffer.push(c), ..a }
        } else {
            a
        },
        _ => a,
    }
}

/// The process id that a runner is stopped by.
pub open spec fn stop_pid_of(r: RunnerView) -> Option<u32> {
    match r.pid {
        Some(pid) => if pid > 0 {
            Some(pid)
        } else {
            None
        },
        None => None,
    }
}

/// The selected runner stopped.
pub open spec fn stop_begun(a: AppView, now: NowView) -> (AppView, EffectView) {
    match current_runner(a) {
        None => refused(a, now, "no runner selected"@),
        Some(r) => match stop_pid_of(r) {
            Some(pid) => submitted(
                a,
                now,
                JobView::Stop {
                    pid,
                    runner_id: runner::id_flag(r.id),
                    display_id: runner::shown_id(r.id),
                },
                "working… stop "@ + runner::shown_id(r.id),
            ),
            None => refused(
                a,
                now,
                "could not determine PID for "@ + runner::shown_id(r.id)
                    + ". `amp runner list` had no PID and no matching amp --no-tui process was found."@,
            ),
        },
    }
}

/// The selected directory removed.
pub open spec fn remove_begun(a: AppView, now: NowView) -> (AppView, EffectView) {
    match (current_runner(a), selected_dir_of(a)) {
        (None, _) => refused(a, now, "no runner selected"@),
        (_, None) => refused(a, now, "no directory selected"@),
        (Some(r), Some(path)) => submitted(
            a,
            now,
            JobView::DirsRemove {
                runner_id: runner::id_flag(r.id),
                display_id: runner::shown_id(r.id),
                path,
            },
            "working… remove dir from "@ + runner::shown_id(r.id),
        ),
    }
}

/// What was confirmed, begun.
pub open spec fn confirmed(a: AppView, now: NowView, action: ConfirmAction) -> (
    AppView,
    EffectView,
) {
    match action {
        ConfirmAction::Stop => stop_begun(a, now),
        ConfirmAction::Restart => if current_runner(a) is None {
            refused(a, now, "no runner selected"@)
        } else {
            (AppView { pending: Some(PendingView::Restart), ..a }, EffectView::ReadLaunches)
        },
        ConfirmAction::RemoveDir => remove_begun(a, now),
    }
}

/// What a key does to a confirmation.
pub open spec fn confirm_key(a: AppView, now: NowView, k: Key) -> (AppView, EffectView) {
    if k == Key::Esc || k == Key::Char('n') || k == Key::Char('q') {
        (AppView { confirm: None, overlay: Overlay::Clear, ..a }, EffectView::Nothing)
    } else if k == Key::Enter || k == Key::Char('y') {
        let b = AppView { confirm: None, overlay: Overlay::Clear, ..a };
        match a.confirm {
            Some(action) => confirmed(b, now, action),
            None => (b, EffectView::Nothing),
        }
    } else {
        (a, EffectView::Nothing)
    }
}

/// What a key does to the picker.
pub open spec fn picker_key(a: AppView, now: NowView, k: KeyPress) -> (AppView, EffectView) {
    match a.picker {
        None => (AppView { overlay: Overlay::Clear, ..a }, EffectView::Nothing),
        Some(p) => {
            let (q, does) = picker::keyed(p, k, now.home);
            let closed = AppView { picker: None, overlay: Overlay::Clear, ..a };
            match does {
                MoveView::Stay => (AppView { picker: Some(q), ..a }, EffectView::Nothing),
                MoveView::Refresh => listing_picker(a, now, q),
                MoveView::Close => (closed, EffectView::Nothing),
                MoveView::Chosen(x) => {
                    let path = picker::expanded(x, now.home);
                    (
                        AppView {
                            pending: Some(PendingView::Finish { purpose: p.purpose, path }),
                            ..closed
                        },
                        EffectView::CheckDir(path),
                    )
                },
                MoveView::Descend(x) => (
                    AppView { picker: Some(q), pending: Some(PendingView::Descend(x)), ..a },
                    EffectView::CheckDir(x),
                ),
            }
        },
    }
}

/// What a key does.
pub open spec fn key_handled(a: AppView, now: NowView, k: KeyPress) -> (AppView, EffectView) {
    if k.control && k.key == Key::Char('c') {
        (AppView { should_quit: true, ..a }, EffectView::Nothing)
    } else {
        match a.overlay {
            Overlay::Help => (help_key(a, k.key), EffectView::Nothing),
            Overlay::Flags => flags_key(a, now, k.key),
            Overlay::Picker => picker_key(a, now, k),
            Overlay::EditField => (edit_key(a, k), EffectView::Nothing),
            Overlay::Confirm => confirm_key(a, now, k.key),
            Overlay::Clear => normal_key(a, now, k.key),
        }
    }
}

// ---------------------------------------------------------------------------------------------
// Answers

/// A runner started in a directory, where the runner id of the defaults is a hostname.
pub open spec fn start_begun(a: AppView, now: NowView, cwd: Seq<char>) -> (AppView, EffectView) {
    let id = a.config.defaults.runner_id;
    if id is Some && !runner::plausible_id(id->0) {
        refused(
            a,
            now,
            "refusing to start: runner-id `"@ + id->0 + "` is not a hostname"@,
        )
    } else {
        submitted(
            a,
            now,
            JobView::Start { cwd, opts: config::options_of(a.config.defaults) },
            "working… start in "@ + picker::displayed(cwd, now.home),
        )
    }
}

/// A directory added to the selected runner.
pub open spec fn add_begun(a: AppView, now: NowView, path: Seq<char>) -> (AppView, EffectView) {
    match current_runner(a) {
        None => refused(a, now, "no runner selected"@),
        Some(r) => submitted(
            a,
            now,
            JobView::DirsAdd {
                runner_id: runner::id_flag(r.id),
                display_id: runner::shown_id(r.id),
                path,
            },
            "working… add "@ + picker::displayed(path, now.home),
        ),
    }
}

/// What follows the test whether a path is a directory.
pub open spec fn after_check(a0: AppView, now: NowView, is_dir: bool) -> (AppView, EffectView) {
    let a = AppView { pending: None, ..a0 };
    match a0.pending {
        Some(PendingView::Finish { purpose, path }) => if !is_dir {
            refused(a, now, "not a directory: "@ + path)
        } else {
            match purpose {
                PickerPurpose::Start => start_begun(a, now, path),
                PickerPurpose::AddDir => add_begun(a, now, path),
            }
        },
        Some(PendingView::Descend(dir)) => match a.picker {
            Some(p) => if is_dir {
                listing_picker(a, now, picker::descended(p, dir))
            } else {
                (a, EffectView::Nothing)
            },
            None => (a, EffectView::Nothing),
        },
        _ => (a, EffectView::Nothing),
    }
}

/// The picker with the list that was asked for.
pub open spec fn after_listing(a0: AppView, around: Surroundings, listing: Listing) -> AppView {
    let a = AppView { pending: None, ..a0 };
    match a.picker {
        Some(p) => AppView {
            picker: Some(
                picker::relisted(
                    p,
                    picker::fresh_entries(p, a.config.recent_dirs, listing, around),
                ),
            ),
            ..a
        },
        None => a,
    }
}

/// What follows the reading of the launch specs: the restart of the selected runner, from its own
/// spec.
pub open spec fn after_launches(a0: AppView, now: NowView, specs: Seq<LaunchView>) -> (
    AppView,
    EffectView,
) {
    let a = AppView { pending: None, ..a0 };
    match current_runner(a) {
        None => refused(a, now, "no runner selected"@),
        Some(r) => match launch::restart_spec(specs, r) {
            None => refused(
                a,
                now,
                "cannot restart: "@ + launch::launch_error_text(
                    launch::LaunchErrorView::Unknown(runner::shown_id(r.id)),
                ),
            ),
            Some(spec) => match stop_pid_of(r) {
                None => refused(
                    a,
                    now,
                    "cannot restart: no PID (see README for PID detection)"@,
                ),
                Some(pid) => submitted(
                    a,
                    now,
                    JobView::Restart {
                        pid,
                        runner_id: runner::id_flag(r.id),
                        display_id: runner::shown_id(r.id),
                        spec,
                    },
                    "working… restart "@ + runner::shown_id(r.id),
                ),
            },
        },
    }
}

/// A state with the results of a search, where the picker is open.
pub open spec fn results_taken(a: AppView, gen: u64, results: Seq<EntryView>) -> AppView {
    AppView {
        picker: match a.picker {
            Some(p) => Some(picker::with_results(p, gen, results)),
            None => None,
        },
        ..a
    }
}

/// A state whose search was begun, if one was due.
pub open spec fn search_begun(a: AppView, now: NowView) -> AppView {
    AppView {
        picker: match a.picker {
            Some(p) => Some(picker::dispatched(p, now.millis)),
            None => None,
        },
        ..a
    }
}

/// A state whose worker is lost.
pub open spec fn worker_lost(a: AppView, now: NowView, text: Seq<char>) -> AppView {
    logged(AppView { busy: false, ..a }, now, LogKind::Error, text)
}

/// Whether the runner list is to be asked for again.
pub open spec fn refresh_due(a: AppView, now: u64) -> bool {
    a.overlay == Overlay::Clear && !a.busy && match a.last_refresh {
        Some(t) => now >= t && now - t >= REFRESH_EVERY,
        None => true,
    }
}

/// How a version reads: without the word `amp` before it.
pub open spec fn version_label(v: Seq<char>) -> Seq<char> {
    match text::without_prefix(text::trim(v), "amp "@) {
        Some(rest) => rest,
        None => text::trim(v),
    }
}

/// The state that the program starts with.
pub open spec fn first_state(
    config: ConfigView,
    config_path: Seq<char>,
    config_writable: bool,
    version: Option<Seq<char>>,
) -> AppView {
    AppView {
        config,
        config_path,
        config_writable,
        runners: Seq::empty(),
        selected_runner: 0,
        selected_dir: 0,
        pane: Pane::Runners,
        overlay: Overlay::Clear,
        confirm: None,
        picker: None,
        flags: config.defaults,
        flag_field: FlagField::RunnerId,
        edit_buffer: Seq::empty(),
        log: Seq::empty(),
        status: "ready"@,
        status_kind: LogKind::Info,
        amp_version: match version {
            Some(v) => v,
            None => "unknown"@,
        },
        last_refresh: None,
        should_quit: false,
        busy: false,
        help_scroll: 0,
        pending: None,
    }
}

/// How the program starts: Amp is named, an invalid config is reported, and the runner list is
/// asked for.
pub open spec fn opened(
    config: ConfigView,
    config_path: Seq<char>,
    config_writable: bool,
    version: Option<Seq<char>>,
    binary: Seq<char>,
    now: NowView,
) -> (AppView, EffectView) {
    let a = first_state(config, config_path, config_writable, version);
    let b = logged(
        a,
        now,
        LogKind::Info,
        "Amp "@ + version_label(a.amp_version) + " — "@ + binary,
    );
    let c = if config_writable {
        b
    } else {
        logged(
            b,
            now,
            LogKind::Error,
            "config "@ + config_path + " is invalid; changes will not be saved"@,
        )
    };
    refresh_requested(c, now)
}

// ---------------------------------------------------------------------------------------------
// The state machine

/// How a version reads.
pub fn amp_version_label(v: &str) -> (r: String)
    ensures
        r@ == version_label(v@),
{
    let chars = chars_of(v);
    let t = trimmed(&chars);
    match strip_prefix(t, &chars_of("amp ")) {
        Some(rest) => string_of(rest),
        None => string_of(t),
    }
}

/// The first line of an output, or `ok`.
pub fn summarize_output(s: &str) -> (r: String)
    ensures
        r@ == summary(s@),
{
    let line = first_line(s);
    if line.as_str().is_empty() {
        "ok".to_owned()
    } else {
        line
    }
}

fn step(sel: usize, forward: bool, n: usize) -> (r: usize)
    requires
        n > 0,
    ensures
        r == moved(sel as nat, forward, n as nat),
{
    if forward {
        if sel < n - 1 {
            sel + 1
        } else {
            n - 1
        }
    } else if sel > 0 {
        clamp(sel - 1, n)
    } else {
        0
    }
}

fn position_of_dir(dirs: &Vec<String>, p: &str) -> (r: Option<usize>)
    ensures
        match r {
            Some(i) => dir_from(text::strings(dirs@), p@, 0) == Some(i as int),
            None => dir_from(text::strings(dirs@), p@, 0) is None,
        },
{
    let ghost all = text::strings(dirs@);
    for i in 0..dirs.len()
        invariant
            all == text::strings(dirs@),
            dir_from(all, p@, 0) == dir_from(all, p@, i as int),
    {
        assert(all[i as int] == dirs@[i as int]@);
        if same_path(dirs[i].as_str(), p) {
            return Some(i);
        }
    }
    None
}

fn pid_text(pid: u32) -> (r: String)
    ensures
        r@ == text::decimal(pid as nat),
{
    write_decimal(pid as u64)
}

fn message_on_start(verb: &str, id: &str, o: &StartOutcome, home: Option<&str>) -> (r: String)
    ensures
        r@ == start_message(verb@, id@, o@, text::opt_str(home)),
{
    let log = display_path_in(o.log_path.as_str(), home);
    let pid = pid_text(o.pid);
    match &o.health {
        StartHealth::Listed => {
            let mut out = three(verb, " ", id);
            out.append(" (pid ");
            out.append(pid.as_str());
            out.append(", listed)  log ");
            out.append(log.as_str());
            out
        },
        StartHealth::Alive => {
            let mut out = three("spawned ", id, " (pid ");
            out.append(pid.as_str());
            out.append(") — not yet in `amp runner list`; log ");
            out.append(log.as_str());
            out
        },
        StartHealth::NeedsLogin => {
            let mut out = two("Amp at pid ", pid.as_str());
            out.append(" is waiting for login. Run `amp login` in a terminal. log ");
            out.append(log.as_str());
            out
        },
        StartHealth::Exited { hint } => {
            let mut out = three(id, " exited immediately (pid ", pid.as_str());
            out.append("). See ");
            out.append(log.as_str());
            let hint = trimmed_str(hint.as_str());
            if !hint.as_str().is_empty() {
                out.append(" — ");
                out.append(hint.as_str());
            }
            out
        },
    }
}

fn kind_on_start(h: &StartHealth) -> (r: LogKind)
    ensures
        r == start_kind(h@),
{
    match h {
        StartHealth::Listed => LogKind::Good,
        StartHealth::Alive => LogKind::Info,
        _ => LogKind::Error,
    }
}

/// The process id that a runner is stopped by.
pub fn resolve_stop_pid(r: &Runner) -> (out: Option<u32>)
    ensures
        out == stop_pid_of(r@),
{
    match r.pid {
        Some(pid) => if pid > 0 {
            Some(pid)
        } else {
            None
        },
        None => None,
    }
}

impl App {
    /// Shows and logs a message.
    pub fn log(&mut self, now: &Now, kind: LogKind, text: String)
        ensures
            final(self)@ == logged(old(self)@, now@, kind, text@),
    {
        let ghost before = log_view(self.log@);
        self.status = text.clone();
        self.status_kind = kind;
        let line = LogLine { time: now.clock.clone(), text, kind };
        let ghost lv = line@;
        self.log.push_back(line);
        let ghost all = before.push(lv);
        assert(log_view(self.log@) == all);
        assert(all.skip(0) == all);
        let ghost mut gone: int = 0;
        while self.log.len() > LOG_CAP
            invariant
                0 <= gone <= all.len(),
                log_view(self.log@) == all.skip(gone),
                gone > 0 ==> all.len() - gone >= LOG_CAP,
                self.status@ == text@,
                self.status_kind == kind,
                self@ == (AppView {
                    status: text@,
                    status_kind: kind,
                    log: all.skip(gone),
                    ..old(self)@
                }),
            decreases self.log@.len(),
        {
            let ghost here = log_view(self.log@);
            let _ = self.log.pop_front();
            assert(log_view(self.log@) == here.drop_first());
            assert(here.drop_first() == all.skip(gone + 1));
            proof {
                gone = gone + 1;
            }
        }
        assert(all.skip(gone) == capped_log(all));
    }

    fn refuse(&mut self, now: &Now, text: String) -> (r: Effect)
        ensures
            (final(self)@, r@) == refused(old(self)@, now@, text@),
    {
        self.log(now, LogKind::Error, text);
        Effect::Nothing
    }

    fn submit(&mut self, now: &Now, job: AmpJob, working: String) -> (r: Effect)
        ensures
            (final(self)@, r@) == submitted(old(self)@, now@, job@, working@),
    {
        if self.busy {
            self.log(now, LogKind::Info, "already working…".to_owned());
            return Effect::Nothing;
        }
        self.busy = true;
        self.status = working;
        self.status_kind = LogKind::Info;
        Effect::Run(job)
    }

    /// Asks for the runner list, unless a job is under way.
    pub fn request_refresh(&mut self, now: &Now) -> (r: Effect)
        ensures
            (final(self)@, r@) == refresh_requested(old(self)@, now@),
    {
        if self.busy {
            return Effect::Nothing;
        }
        self.submit(now, AmpJob::Refresh, "working… refresh".to_owned())
    }

    /// The selected runner.
    pub fn current_runner(&self) -> (r: Option<&Runner>)
        ensures
            match r {
                Some(x) => current_runner(self@) == Some(x@),
                None => current_runner(self@) is None,
            },
    {
        if self.selected_runner < self.runners.len() {
            assert(self@.runners[self.selected_runner as int]
                == self.runners@[self.selected_runner as int]@);
            Some(&self.runners[self.selected_runner])
        } else {
            None
        }
    }

    /// The served directories of the selected runner.
    pub fn current_dirs(&self) -> (r: Vec<String>)
        ensures
            text::strings(r@) == current_dirs(self@),
    {
        match self.current_runner() {
            Some(x) => x.dirs.clone(),
            None => Vec::new(),
        }
    }

    /// The selected directory.
    pub fn selected_dir_path(&self) -> (r: Option<String>)
        ensures
            text::opt_text(r) == selected_dir_of(self@),
    {
        let dirs = self.current_dirs();
        if self.selected_dir < dirs.len() {
            assert(text::strings(dirs@)[self.selected_dir as int]
                == dirs@[self.selected_dir as int]@);
            Some(dirs[self.selected_dir].clone())
        } else {
            None
        }
    }

    fn reselect(&mut self, id: Option<&str>, dir: Option<&str>)
        ensures
            final(self)@ == reselected(old(self)@, text::opt_str(id), text::opt_str(dir)),
    {
        match id {
            Some(x) => match find_by_id(&self.runners, x) {
                Some(i) => {
                    self.selected_runner = i;
                },
                None => {},
            },
            None => {},
        }
        self.selected_runner = clamp(self.selected_runner, self.runners.len());
        let dirs = self.current_dirs();
        match dir {
            Some(d) => match position_of_dir(&dirs, d) {
                Some(i) => {
                    self.selected_dir = i;
                },
                None => {},
            },
            None => {},
        }
        self.selected_dir = clamp(self.selected_dir, dirs.len());
    }

    fn clamp_dir(&mut self)
        ensures
            final(self)@ == dir_clamped(old(self)@),
    {
        self.selected_dir = clamp(self.selected_dir, self.current_dirs().len());
    }

    fn log_start_outcome(&mut self, now: &Now, verb: &str, id: &str, outcome: &StartOutcome)
        ensures
            final(self)@ == start_logged(old(self)@, now@, verb@, id@, outcome@),
    {
        let text = message_on_start(verb, id, outcome, borrowed(&now.around.home));
        self.log(now, kind_on_start(&outcome.health), text);
    }

    fn resume(&mut self, now: &Now, p: Pending) -> (r: Effect)
        ensures
            (final(self)@, r@) == resumed(old(self)@, now@, p@),
    {
        match p {
            Pending::Started { id, outcome } => {
                self.log_start_outcome(now, "started", id.as_str(), &outcome);
                self.request_refresh(now)
            },
            Pending::DirAdded { runner_id, id, path, out } => {
                let shown = display_path_in(path.as_str(), borrowed(&now.around.home));
                let mut text = three("added ", shown.as_str(), " to ");
                text.append(id.as_str());
                text.append(" ");
                text.append(first_line(out.as_str()).as_str());
                self.log(now, LogKind::Good, trimmed_str(text.as_str()));
                self.submit(
                    now,
                    AmpJob::DirsList { runner_id, match_id: id },
                    "working… dirs".to_owned(),
                )
            },
            _ => Effect::Nothing,
        }
    }

    fn save_then(&mut self, now: &Now, p: Pending) -> (r: Effect)
        ensures
            (final(self)@, r@) == saving(old(self)@, now@, p@),
    {
        if !self.config_writable {
            return self.resume(now, p);
        }
        match self.config.save_to(self.config_path.as_str()) {
            Ok(w) => {
                self.pending = Some(p);
                Effect::Save(w)
            },
            Err(e) => {
                let text = two("save failed: ", e.message().as_str());
                self.log(now, LogKind::Error, text);
                self.resume(now, p)
            },
        }
    }

    fn take_list(&mut self, now: &Now, list: Vec<Runner>)
        ensures
            final(self)@ == refreshed_with(old(self)@, now@, runner::runners(list@)),
    {
        let id = match self.current_runner() {
            Some(x) => Some(x.id.clone()),
            None => None,
        };
        let dir = self.selected_dir_path();
        self.runners = list;
        self.reselect(borrowed(&id), borrowed(&dir));
        if self.status_kind != LogKind::Error {
            let mut text = write_decimal(self.runners.len() as u64);
            text.append(" runner(s)");
            self.status = text;
            self.status_kind = LogKind::Info;
        }
        self.last_refresh = Some(now.millis);
    }

    fn set_dirs(&mut self, id: &str, dirs: Vec<String>)
        ensures
            final(self)@ == (AppView {
                runners: with_dirs_of(old(self)@.runners, id@, text::strings(dirs@)),
                ..old(self)@
            }),
    {
        match find_by_id(&self.runners, id) {
            Some(i) => {
                let ghost before = runner::runners(self.runners@);
                let mut r = self.runners[i].duplicate();
                assert(before[i as int] == r@);
                r.dirs = dirs;
                let ghost rv = r@;
                self.runners.set(i, r);
                assert(runner::runners(self.runners@) == before.update(i as int, rv));
            },
            None => {},
        }
    }

    fn take_update(&mut self, now: &Now, out: &str, version: Option<String>)
        ensures
            final(self)@ == update_done(old(self)@, now@, out@, text::opt_text(version)),
    {
        let text = two("amp update: ", summarize_output(out).as_str());
        self.log(now, LogKind::Good, text);
        match version {
            Some(v) => {
                self.amp_version = v;
            },
            None => {},
        }
    }

    fn take_stop(&mut self, now: &Now, id: &str, outcome: StopOutcome, pid: u32) -> (r: Effect)
        ensures
            (final(self)@, r@) == stop_done(old(self)@, now@, id@, outcome, pid),
    {
        match outcome {
            StopOutcome::Stopped => {
                let mut text = three("stopped ", id, " (pid ");
                text.append(pid_text(pid).as_str());
                text.append(")");
                self.log(now, LogKind::Good, text);
            },
            StopOutcome::AlreadyGone => {
                let mut text = three("pid ", pid_text(pid).as_str(), " for ");
                text.append(id);
                text.append(" was already gone");
                self.log(now, LogKind::Info, text);
            },
        }
        self.request_refresh(now)
    }

    fn take_removal(
        &mut self,
        now: &Now,
        runner_id: Option<String>,
        id: String,
        path: &str,
        out: &str,
    ) -> (r: Effect)
        ensures
            (final(self)@, r@) == remove_done(
                old(self)@,
                now@,
                text::opt_text(runner_id),
                id@,
                path@,
                out@,
            ),
    {
        let shown = display_path_in(path, borrowed(&now.around.home));
        let mut text = three("removed ", shown.as_str(), " from ");
        text.append(id.as_str());
        text.append(" ");
        text.append(first_line(out).as_str());
        self.log(now, LogKind::Good, trimmed_str(text.as_str()));
        self.submit(
            now,
            AmpJob::DirsList { runner_id, match_id: id },
            "working… dirs".to_owned(),
        )
    }

    fn take_dirs(&mut self, now: &Now, id: &str, dirs: Vec<String>) -> (r: Effect)
        ensures
            (final(self)@, r@) == dirs_done(old(self)@, now@, id@, text::strings(dirs@)),
    {
        let effect = if dirs.len() > 0 {
            self.set_dirs(id, dirs);
            Effect::Nothing
        } else {
            self.request_refresh(now)
        };
        self.clamp_dir();
        effect
    }

    fn take_start(&mut self, now: &Now, id: String, outcome: StartOutcome) -> (r: Effect)
        ensures
            (final(self)@, r@) == saving(
                remembering(old(self)@, outcome@.cwd),
                now@,
                PendingView::Started { id: id@, outcome: outcome@ },
            ),
    {
        self.config.remember_dir(outcome.cwd.as_str());
        self.save_then(now, Pending::Started { id, outcome })
    }

    fn take_restart(&mut self, now: &Now, id: &str, outcome: &StartOutcome) -> (r: Effect)
        ensures
            (final(self)@, r@) == refresh_requested(
                start_logged(old(self)@, now@, "restarted"@, id@, outcome@),
                now@,
            ),
    {
        self.log_start_outcome(now, "restarted", id, outcome);
        self.request_refresh(now)
    }

    fn take_addition(
        &mut self,
        now: &Now,
        runner_id: Option<String>,
        id: String,
        path: String,
        out: String,
    ) -> (r: Effect)
        ensures
            (final(self)@, r@) == saving(
                remembering(old(self)@, path@),
                now@,
                PendingView::DirAdded {
                    runner_id: text::opt_text(runner_id),
                    id: id@,
                    path: path@,
                    out: out@,
                },
            ),
    {
        self.config.remember_dir(path.as_str());
        self.save_then(now, Pending::DirAdded { runner_id, id, path, out })
    }

    /// What an event does.
    #[verifier::rlimit(30)]
    pub fn handle_event(&mut self, now: &Now, event: AmpEvent) -> (r: Effect)
        ensures
            (final(self)@, r@) == event_handled(old(self)@, now@, event@),
    {
        self.busy = false;
        assert(self@ == (AppView { busy: false, ..old(self)@ }));
        match event {
            AmpEvent::RefreshOk(list) => {
                self.take_list(now, list);
                Effect::Nothing
            },
            AmpEvent::UpdateOk { out, version } => {
                self.take_update(now, out.as_str(), version);
                Effect::Nothing
            },
            AmpEvent::Started { id, outcome } => self.take_start(now, id, outcome),
            AmpEvent::Stopped { id, outcome, pid } => self.take_stop(
                now,
                id.as_str(),
                outcome,
                pid,
            ),
            AmpEvent::Restarted { id, outcome } => self.take_restart(now, id.as_str(), &outcome),
            AmpEvent::DirsAddOk { runner_id, id, path, out } => self.take_addition(
                now,
                runner_id,
                id,
                path,
                out,
            ),
            AmpEvent::DirsRemoveOk { runner_id, id, path, out } => self.take_removal(
                now,
                runner_id,
                id,
                path.as_str(),
                out.as_str(),
            ),
            AmpEvent::DirsListOk { match_id, dirs } => self.take_dirs(
                now,
                match_id.as_str(),
                dirs,
            ),
            AmpEvent::Failed(err) => self.refuse(now, err),
        }
    }

    /// What follows a save of the config.
    pub fn config_saved(&mut self, now: &Now, result: Result<(), String>) -> (r: Effect)
        ensures
            (final(self)@, r@) == after_save(
                old(self)@,
                now@,
                match result {
                    Ok(_) => Ok(()),
                    Err(e) => Err(e@),
                },
            ),
    {
        let pending = self.pending.take();
        match pending {
            Some(Pending::Flags) => {
                match result {
                    Ok(_) => {
                        let text = two("saved defaults to ", self.config_path.as_str());
                        self.log(now, LogKind::Good, text);
                        self.overlay = Overlay::Clear;
                    },
                    Err(e) => {
                        let text = two("save failed: ", e.as_str());
                        self.log(now, LogKind::Error, text);
                    },
                }
                Effect::Nothing
            },
            Some(p) => {
                match result {
                    Ok(_) => {},
                    Err(e) => {
                        let text = two("save failed: ", e.as_str());
                        self.log(now, LogKind::Error, text);
                    },
                }
                self.resume(now, p)
            },
            None => Effect::Nothing,
        }
    }
}

impl App {
    fn move_sel(&mut self, forward: bool)
        ensures
            final(self)@ == selection_moved(old(self)@, forward),
    {
        match self.pane {
            Pane::Runners => {
                let n: usize = self.runners.len();
                if n > 0 {
                    self.selected_runner = step(self.selected_runner, forward, n);
                    self.selected_dir = 0;
                }
            },
            Pane::Dirs => {
                let n: usize = self.current_dirs().len();
                if n > 0 {
                    self.selected_dir = step(self.selected_dir, forward, n);
                }
            },
        }
    }

    fn cycle_pane(&mut self)
        ensures
            final(self)@ == (AppView { pane: other_pane(old(self)@.pane), ..old(self)@ }),
    {
        self.pane = match self.pane {
            Pane::Runners => Pane::Dirs,
            Pane::Dirs => Pane::Runners,
        };
    }

    fn list_picker(&mut self, now: &Now, p: DirPicker) -> (r: Effect)
        ensures
            (final(self)@, r@) == listing_picker(old(self)@, now@, p@),
    {
        let mut p = p;
        p.refresh(now.millis);
        let query = trimmed_str(p.input.as_str());
        let effect = if query.as_str().is_empty() {
            Effect::List { root: Some(p.browse_root.clone()), typed: None }
        } else {
            Effect::List {
                root: None,
                typed: typed_path_of(query.as_str(), borrowed(&now.around.home)),
            }
        };
        self.picker = Some(p);
        self.pending = Some(Pending::Listing);
        effect
    }

    fn open_picker(&mut self, now: &Now, purpose: PickerPurpose) -> (r: Effect)
        ensures
            (final(self)@, r@) == picker_opened(old(self)@, now@, purpose),
    {
        if purpose == PickerPurpose::AddDir && self.current_runner().is_none() {
            return self.refuse(now, "select a runner before adding a directory".to_owned());
        }
        let root = match &now.around.cwd {
            Some(d) => d.clone(),
            None => ".".to_owned(),
        };
        self.overlay = Overlay::Picker;
        self.list_picker(now, DirPicker::new(purpose, root))
    }

    fn ask_confirm(&mut self, now: &Now, action: ConfirmAction) -> (r: Effect)
        ensures
            (final(self)@, r@) == confirm_asked(old(self)@, now@, action),
    {
        if self.current_runner().is_none() {
            return self.refuse(now, "no runner selected".to_owned());
        }
        if action == ConfirmAction::RemoveDir && self.selected_dir_path().is_none() {
            return self.refuse(now, "no directory selected".to_owned());
        }
        self.confirm = Some(action);
        self.overlay = Overlay::Confirm;
        Effect::Nothing
    }

    fn handle_normal_char(&mut self, now: &Now, c: char) -> (r: Effect)
        ensures
            (final(self)@, r@) == normal_key(old(self)@, now@, Key::Char(c)),
    {
        if c == 'q' {
            self.should_quit = true;
        } else if c == '?' {
            self.overlay = Overlay::Help;
        } else if c == 'h' {
            self.pane = Pane::Runners;
        } else if c == 'l' {
            self.pane = Pane::Dirs;
        } else if c == 'j' {
            self.move_sel(true);
        } else if c == 'k' {
            self.move_sel(false);
        } else if c == 'g' {
            return self.request_refresh(now);
        } else if c == 's' {
            return self.open_picker(now, PickerPurpose::Start);
        } else if c == 'x' {
            return self.ask_confirm(now, ConfirmAction::Stop);
        } else if c == 'r' {
            return self.ask_confirm(now, ConfirmAction::Restart);
        } else if c == 'a' {
            return self.open_picker(now, PickerPurpose::AddDir);
        } else if c == 'd' {
            return self.ask_confirm(now, ConfirmAction::RemoveDir);
        } else if c == 'u' {
            return self.submit(now, AmpJob::Update, "working… amp update".to_owned());
        } else if c == 'f' {
            self.flags = self.config.defaults.duplicate();
            self.flag_field = FlagField::RunnerId;
            self.overlay = Overlay::Flags;
        } else if c == 'c' {
            let text = two("config ", self.config_path.as_str());
            self.log(now, LogKind::Info, text);
            self.status = self.config_path.clone();
        }
        Effect::Nothing
    }

    fn handle_normal_key(&mut self, now: &Now, k: Key) -> (r: Effect)
        ensures
            (final(self)@, r@) == normal_key(old(self)@, now@, k),
    {
        match k {
            Key::Char(c) => {
                return self.handle_normal_char(now, c);
            },
            Key::Tab => {
                self.cycle_pane();
            },
            Key::BackTab => {
                self.cycle_pane();
            },
            Key::Left => {
                self.pane = Pane::Runners;
            },
            Key::Right => {
                self.pane = Pane::Dirs;
            },
            Key::Down => {
                self.move_sel(true);
            },
            Key::Up => {
                self.move_sel(false);
            },
            Key::Enter => {
                if self.pane == Pane::Dirs {
                    match self.selected_dir_path() {
                        Some(dir) => {
                            self.status = dir;
                        },
                        None => {},
                    }
                }
            },
            _ => {},
        }
        Effect::Nothing
    }

    fn handle_help_key(&mut self, k: Key)
        ensures
            final(self)@ == help_key(old(self)@, k),
    {
        if k == Key::Esc || k == Key::Char('q') || k == Key::Char('?') {
            self.overlay = Overlay::Clear;
        } else if k == Key::Char('j') || k == Key::Down {
            if self.help_scroll < u16::MAX {
                self.help_scroll = self.help_scroll + 1;
            }
        } else if k == Key::Char('k') || k == Key::Up {
            if self.help_scroll > 0 {
                self.help_scroll = self.help_scroll - 1;
            }
        }
    }

    fn activate_flag_field(&mut self)
        ensures
            final(self)@ == field_activated(old(self)@),
    {
        if self.flag_field.is_text() {
            self.edit_buffer = match flag_text(&self.flags, self.flag_field) {
                Some(s) => s,
                None => String::new(),
            };
            self.overlay = Overlay::EditField;
        } else {
            nudge_flag(&mut self.flags, self.flag_field);
        }
    }

    fn save_flags(&mut self, now: &Now) -> (r: Effect)
        ensures
            (final(self)@, r@) == flags_saved(old(self)@, now@),
    {
        let id = self.flags.runner_id.clone();
        match &id {
            Some(id) => {
                if !is_plausible_runner_id(id.as_str()) {
                    let text = three(
                        "runner-id `",
                        id.as_str(),
                        "` is not a hostname (letters, digits, '-', '.')",
                    );
                    return self.refuse(now, text);
                }
            },
            None => {},
        }
        if !self.config_writable {
            let text = two("refusing to write invalid config ", self.config_path.as_str());
            return self.refuse(now, text);
        }
        self.config.defaults = self.flags.duplicate();
        match self.config.save_to(self.config_path.as_str()) {
            Ok(w) => {
                self.pending = Some(Pending::Flags);
                Effect::Save(w)
            },
            Err(e) => {
                let text = two("save failed: ", e.message().as_str());
                self.refuse(now, text)
            },
        }
    }

    fn handle_flags_key(&mut self, now: &Now, k: Key) -> (r: Effect)
        ensures
            (final(self)@, r@) == flags_key(old(self)@, now@, k),
    {
        if k == Key::Esc || k == Key::Char('q') {
            self.overlay = Overlay::Clear;
        } else if k == Key::Char('j') || k == Key::Down {
            self.flag_field = self.flag_field.next();
        } else if k == Key::Char('k') || k == Key::Up {
            self.flag_field = self.flag_field.prev();
        } else if k == Key::Char('s') {
            return self.save_flags(now);
        } else if k == Key::Enter || k == Key::Char(' ') {
            self.activate_flag_field();
        } else if k == Key::Char('l') || k == Key::Right || k == Key::Char('h') || k == Key::Left {
            nudge_flag(&mut self.flags, self.flag_field);
        }
        Effect::Nothing
    }

    fn handle_edit_key(&mut self, k: KeyPress)
        ensures
            final(self)@ == edit_key(old(self)@, k),
    {
        match k.key {
            Key::Esc => {
                self.overlay = Overlay::Flags;
            },
            Key::Enter => {
                commit_edit(&mut self.flags, self.flag_field, self.edit_buffer.as_str());
                self.overlay = Overlay::Flags;
            },
            Key::Backspace => {
                let mut chars = chars_of(self.edit_buffer.as_str());
                let ghost before = chars@;
                let _ = chars.pop();
                assert(chars@ == picker::without_last(before));
                self.edit_buffer = string_of(&chars);
            },
            Key::Char(c) => {
                if !k.control {
                    self.edit_buffer.push(c);
                }
            },
            _ => {},
        }
    }

    fn stop_selected(&mut self, now: &Now) -> (r: Effect)
        ensures
            (final(self)@, r@) == stop_begun(old(self)@, now@),
    {
        let runner = match self.current_runner() {
            Some(x) => x.duplicate(),
            None => {
                return self.refuse(now, "no runner selected".to_owned());
            },
        };
        match resolve_stop_pid(&runner) {
            Some(pid) => self.submit(
                now,
                AmpJob::Stop {
                    pid,
                    runner_id: owned(runner.runner_id_flag()),
                    display_id: runner.display_id().to_owned(),
                },
                two("working… stop ", runner.display_id()),
            ),
            None => self.refuse(
                now,
                three(
                    "could not determine PID for ",
                    runner.display_id(),
                    ". `amp runner list` had no PID and no matching amp --no-tui process was found.",
                ),
            ),
        }
    }

    fn remove_selected_dir(&mut self, now: &Now) -> (r: Effect)
        ensures
            (final(self)@, r@) == remove_begun(old(self)@, now@),
    {
        let runner = match self.current_runner() {
            Some(x) => x.duplicate(),
            None => {
                return self.refuse(now, "no runner selected".to_owned());
            },
        };
        let path = match self.selected_dir_path() {
            Some(p) => p,
            None => {
                return self.refuse(now, "no directory selected".to_owned());
            },
        };
        self.submit(
            now,
            AmpJob::DirsRemove {
                runner_id: owned(runner.runner_id_flag()),
                display_id: runner.display_id().to_owned(),
                path,
            },
            two("working… remove dir from ", runner.display_id()),
        )
    }

    fn perform_confirm(&mut self, now: &Now, action: ConfirmAction) -> (r: Effect)
        ensures
            (final(self)@, r@) == confirmed(old(self)@, now@, action),
    {
        match action {
            ConfirmAction::Stop => self.stop_selected(now),
            ConfirmAction::Restart => {
                if self.current_runner().is_none() {
                    return self.refuse(now, "no runner selected".to_owned());
                }
                self.pending = Some(Pending::Restart);
                Effect::ReadLaunches
            },
            ConfirmAction::RemoveDir => self.remove_selected_dir(now),
        }
    }

    fn handle_confirm_key(&mut self, now: &Now, k: Key) -> (r: Effect)
        ensures
            (final(self)@, r@) == confirm_key(old(self)@, now@, k),
    {
        if k == Key::Esc || k == Key::Char('n') || k == Key::Char('q') {
            self.confirm = None;
            self.overlay = Overlay::Clear;
        } else if k == Key::Enter || k == Key::Char('y') {
            let action = self.confirm.take();
            self.overlay = Overlay::Clear;
            match action {
                Some(x) => {
                    return self.perform_confirm(now, x);
                },
                None => {},
            }
        }
        Effect::Nothing
    }

    fn handle_picker_key(&mut self, now: &Now, k: KeyPress) -> (r: Effect)
        ensures
            (final(self)@, r@) == picker_key(old(self)@, now@, k),
    {
        let mut p = match self.picker.take() {
            Some(x) => x,
            None => {
                self.overlay = Overlay::Clear;
                return Effect::Nothing;
            },
        };
        let home = borrowed(&now.around.home);
        match p.key(k, home) {
            PickerMove::Stay => {
                self.picker = Some(p);
                Effect::Nothing
            },
            PickerMove::Refresh => self.list_picker(now, p),
            PickerMove::Close => {
                self.overlay = Overlay::Clear;
                Effect::Nothing
            },
            PickerMove::Chosen(x) => {
                self.overlay = Overlay::Clear;
                let path = expand_path_in(x.as_str(), home);
                self.pending = Some(Pending::Finish { purpose: p.purpose, path: path.clone() });
                Effect::CheckDir(path)
            },
            PickerMove::Descend(x) => {
                self.picker = Some(p);
                self.pending = Some(Pending::Descend(x.clone()));
                Effect::CheckDir(x)
            },
        }
    }

    /// What a key does.
    pub fn handle_key(&mut self, now: &Now, k: KeyPress) -> (r: Effect)
        ensures
            (final(self)@, r@) == key_handled(old(self)@, now@, k),
    {
        if k.control && k.key == Key::Char('c') {
            self.should_quit = true;
            return Effect::Nothing;
        }
        match self.overlay {
            Overlay::Help => {
                self.handle_help_key(k.key);
                Effect::Nothing
            },
            Overlay::Flags => self.handle_flags_key(now, k.key),
            Overlay::Picker => self.handle_picker_key(now, k),
            Overlay::EditField => {
                self.handle_edit_key(k);
                Effect::Nothing
            },
            Overlay::Confirm => self.handle_confirm_key(now, k.key),
            Overlay::Clear => self.handle_normal_key(now, k.key),
        }
    }

    fn start_in(&mut self, now: &Now, cwd: &str) -> (r: Effect)
        ensures
            (final(self)@, r@) == start_begun(old(self)@, now@, cwd@),
    {
        let id = self.config.defaults.runner_id.clone();
        match &id {
            Some(id) => {
                if !is_plausible_runner_id(id.as_str()) {
                    let text = three(
                        "refusing to start: runner-id `",
                        id.as_str(),
                        "` is not a hostname",
                    );
                    return self.refuse(now, text);
                }
            },
            None => {},
        }
        let opts = self.config.defaults.to_start_options();
        let shown = display_path_in(cwd, borrowed(&now.around.home));
        self.submit(
            now,
            AmpJob::Start { cwd: cwd.to_owned(), opts },
            two("working… start in ", shown.as_str()),
        )
    }

    fn add_dir(&mut self, now: &Now, path: &str) -> (r: Effect)
        ensures
            (final(self)@, r@) == add_begun(old(self)@, now@, path@),
    {
        let runner = match self.current_runner() {
            Some(x) => x.duplicate(),
            None => {
                return self.refuse(now, "no runner selected".to_owned());
            },
        };
        let shown = display_path_in(path, borrowed(&now.around.home));
        self.submit(
            now,
            AmpJob::DirsAdd {
                runner_id: owned(runner.runner_id_flag()),
                display_id: runner.display_id().to_owned(),
                path: path.to_owned(),
            },
            two("working… add ", shown.as_str()),
        )
    }

    /// What follows the test whether a path is a directory.
    pub fn dir_checked(&mut self, now: &Now, is_dir: bool) -> (r: Effect)
        ensures
            (final(self)@, r@) == after_check(old(self)@, now@, is_dir),
    {
        match self.pending.take() {
            Some(Pending::Finish { purpose, path }) => {
                if !is_dir {
                    return self.refuse(now, two("not a directory: ", path.as_str()));
                }
                match purpose {
                    PickerPurpose::Start => self.start_in(now, path.as_str()),
                    PickerPurpose::AddDir => self.add_dir(now, path.as_str()),
                }
            },
            Some(Pending::Descend(dir)) => {
                if !is_dir {
                    return Effect::Nothing;
                }
                match self.picker.take() {
                    Some(p) => {
                        let mut p = p;
                        p.descend(dir);
                        self.list_picker(now, p)
                    },
                    None => Effect::Nothing,
                }
            },
            _ => Effect::Nothing,
        }
    }

    /// Takes up what the file system answers to the picker.
    pub fn picker_listed(&mut self, around: &Surroundings, listing: &Listing)
        ensures
            final(self)@ == after_listing(old(self)@, *around, *listing),
    {
        self.pending = None;
        match self.picker.take() {
            Some(p) => {
                let mut p = p;
                p.list(&self.config.recent_dirs, listing, around);
                self.picker = Some(p);
            },
            None => {},
        }
    }

    /// What follows the reading of the launch specs.
    pub fn launches_read(&mut self, now: &Now, specs: &Vec<LaunchSpec>) -> (r: Effect)
        ensures
            (final(self)@, r@) == after_launches(old(self)@, now@, launch::launches(specs@)),
    {
        self.pending = None;
        let runner = match self.current_runner() {
            Some(x) => x.duplicate(),
            None => {
                return self.refuse(now, "no runner selected".to_owned());
            },
        };
        let spec = match launch_spec_for_restart(specs, &runner) {
            Ok(s) => s,
            Err(e) => {
                return self.refuse(now, two("cannot restart: ", e.message().as_str()));
            },
        };
        match resolve_stop_pid(&runner) {
            Some(pid) => self.submit(
                now,
                AmpJob::Restart {
                    pid,
                    runner_id: owned(runner.runner_id_flag()),
                    display_id: runner.display_id().to_owned(),
                    spec,
                },
                two("working… restart ", runner.display_id()),
            ),
            None => self.refuse(
                now,
                "cannot restart: no PID (see README for PID detection)".to_owned(),
            ),
        }
    }

    /// The worker does not take the job that was handed to it.
    pub fn worker_gone(&mut self, now: &Now)
        ensures
            final(self)@ == worker_lost(old(self)@, now@, "Amp worker thread is gone"@),
    {
        self.busy = false;
        self.log(now, LogKind::Error, "Amp worker thread is gone".to_owned());
    }

    /// No more events come from the worker.
    pub fn worker_disconnected(&mut self, now: &Now)
        ensures
            final(self)@ == worker_lost(old(self)@, now@, "Amp worker thread disconnected"@),
    {
        self.busy = false;
        self.log(now, LogKind::Error, "Amp worker thread disconnected".to_owned());
    }

    /// Whether the runner list is to be asked for again.
    pub fn is_refresh_due(&self, now: u64) -> (r: bool)
        ensures
            r == refresh_due(self@, now),
    {
        self.overlay == Overlay::Clear && !self.busy && match self.last_refresh {
            Some(t) => now >= t && now - t >= REFRESH_EVERY,
            None => true,
        }
    }

    /// How long to wait for a key, in milliseconds.
    pub fn poll_timeout(&self, now: u64) -> (r: u64)
        ensures
            r == picker::wait_for_key(
                match self@.picker {
                    Some(p) => p.debounce_until,
                    None => None,
                },
                now,
            ),
    {
        match &self.picker {
            Some(p) => crate::picker::poll_timeout(p.debounce_until, now),
            None => crate::picker::poll_timeout(None, now),
        }
    }

    /// Takes up the results of a search, where the picker is open.
    pub fn picker_results(&mut self, gen: u64, entries: Vec<PickerEntry>)
        ensures
            final(self)@ == results_taken(old(self)@, gen, picker::entries_view(entries@)),
    {
        match self.picker.take() {
            Some(p) => {
                let mut p = p;
                p.results(gen, entries);
                self.picker = Some(p);
            },
            None => {},
        }
    }

    /// Begins a search of the picker, if one is due.
    pub fn maybe_dispatch_picker_search(&mut self, now: &Now) -> (r: Option<PickerJob>)
        ensures
            final(self)@ == search_begun(old(self)@, now@),
            match (r, old(self)@.picker) {
                (Some(j), Some(p)) => picker::search_job(
                    p,
                    now@.millis,
                    old(self)@.config.recent_dirs,
                    now@.home,
                ) == Some(j@),
                (None, Some(p)) => picker::search_job(
                    p,
                    now@.millis,
                    old(self)@.config.recent_dirs,
                    now@.home,
                ) is None,
                (Some(_), None) => false,
                (None, None) => true,
            },
    {
        match self.picker.take() {
            Some(p) => {
                let mut p = p;
                let job = p.dispatch(
                    now.millis,
                    &self.config.recent_dirs,
                    borrowed(&now.around.home),
                );
                self.picker = Some(p);
                job
            },
            None => None,
        }
    }

    /// The search that was begun goes nowhere.
    pub fn picker_search_lost(&mut self)
        ensures
            final(self)@ == (AppView {
                picker: match old(self)@.picker {
                    Some(p) => Some(PickerView { searching: false, ..p }),
                    None => None,
                },
                ..old(self)@
            }),
    {
        match self.picker.take() {
            Some(p) => {
                let mut p = p;
                p.searching = false;
                self.picker = Some(p);
            },
            None => {},
        }
    }

    /// What is written when the program ends: the config, where it may be and can be.
    pub fn save_on_quit(&self) -> (r: Option<FileWrite>)
        ensures
            match r {
                Some(w) => self@.config_writable && config::can_save(self@.config) && w@
                    == config_write(self@),
                None => !self@.config_writable || !config::can_save(self@.config),
            },
    {
        if !self.config_writable {
            return None;
        }
        match self.config.save_to(self.config_path.as_str()) {
            Ok(w) => Some(w),
            Err(_) => None,
        }
    }

    /// How the program starts.
    pub fn new(
        config: Config,
        config_path: String,
        config_writable: bool,
        version: Option<String>,
        binary: &str,
        now: &Now,
    ) -> (r: (App, Effect))
        ensures
            (r.0@, r.1@) == opened(
                config@,
                config_path@,
                config_writable,
                text::opt_text(version),
                binary@,
                now@,
            ),
    {
        let flags = config.defaults.duplicate();
        let amp_version = match version {
            Some(v) => v,
            None => "unknown".to_owned(),
        };
        let mut app = App {
            config,
            config_path,
            config_writable,
            runners: Vec::new(),
            selected_runner: 0,
            selected_dir: 0,
            pane: Pane::Runners,
            overlay: Overlay::Clear,
            confirm: None,
            picker: None,
            flags,
            flag_field: FlagField::RunnerId,
            edit_buffer: String::new(),
            log: VecDeque::new(),
            status: "ready".to_owned(),
            status_kind: LogKind::Info,
            amp_version,
            last_refresh: None,
            should_quit: false,
            busy: false,
            help_scroll: 0,
            pending: None,
        };
        assert(app@ == first_state(
            config@,
            config_path@,
            config_writable,
            text::opt_text(version),
        ));
        let mut text = three("Amp ", amp_version_label(app.amp_version.as_str()).as_str(), " — ");
        text.append(binary);
        app.log(now, LogKind::Info, text);
        if !app.config_writable {
            let text = three(
                "config ",
                app.config_path.as_str(),
                " is invalid; changes will not be saved",
            );
            app.log(now, LogKind::Error, text);
        }
        let effect = app.request_refresh(now);
        (app, effect)
    }
}

// ---------------------------------------------------------------------------------------------
// Laws of the screen

/// What no step changes: where the config stands, and whether it may be written.
pub open spec fn same_config_file(a: AppView, b: AppView) -> bool {
    a.config_path == b.config_path && a.config_writable == b.config_writable
}

/// Whether a step leaves a config that may not be written alone.
pub open spec fn keeps_config_file(a: AppView, next: (AppView, EffectView)) -> bool {
    same_config_file(a, next.0) && (!a.config_writable ==> !(next.1 is Save))
}

proof fn lemma_file_of_saving(a: AppView, now: NowView, p: PendingView)
    ensures
        keeps_config_file(a, saving(a, now, p)),
        keeps_config_file(a, resumed(a, now, p)),
        !(resumed(a, now, p).1 is Save),
{
}

proof fn lemma_file_of_event(a: AppView, now: NowView, e: EventView)
    ensures
        keeps_config_file(a, event_handled(a, now, e)),
{
    let b = AppView { busy: false, ..a };
    match e {
        EventView::Started { id, outcome } => lemma_file_of_saving(
            remembering(b, outcome.cwd),
            now,
            PendingView::Started { id, outcome },
        ),
        EventView::DirsAddOk { runner_id, id, path, out } => lemma_file_of_saving(
            remembering(b, path),
            now,
            PendingView::DirAdded { runner_id, id, path, out },
        ),
        _ => {},
    }
}

proof fn lemma_file_of_panes(a: AppView, now: NowView, k: KeyPress)
    ensures
        keeps_config_file(a, normal_key(a, now, k.key)),
        keeps_config_file(a, confirm_key(a, now, k.key)),
{
}

proof fn lemma_file_of_overlays(a: AppView, now: NowView, k: KeyPress)
    ensures
        keeps_config_file(a, flags_key(a, now, k.key)),
        keeps_config_file(a, picker_key(a, now, k)),
        same_config_file(a, help_key(a, k.key)),
        same_config_file(a, edit_key(a, k)),
{
}

proof fn lemma_file_of_answers(
    a: AppView,
    now: NowView,
    saved: Result<(), Seq<char>>,
    is_dir: bool,
    specs: Seq<LaunchView>,
)
    ensures
        keeps_config_file(a, after_save(a, now, saved)),
        keeps_config_file(a, after_check(a, now, is_dir)),
        keeps_config_file(a, after_launches(a, now, specs)),
{
}

/// An invalid config file is never written: whatever key, event or answer comes, a state whose
/// config may not be written stays one and asks for no write.
pub proof fn invalid_config_is_never_written(
    a: AppView,
    now: NowView,
    k: KeyPress,
    e: EventView,
    saved: Result<(), Seq<char>>,
    is_dir: bool,
    specs: Seq<LaunchView>,
)
    ensures
        keeps_config_file(a, key_handled(a, now, k)),
        keeps_config_file(a, event_handled(a, now, e)),
        keeps_config_file(a, after_save(a, now, saved)),
        keeps_config_file(a, after_check(a, now, is_dir)),
        keeps_config_file(a, after_launches(a, now, specs)),
{
    lemma_file_of_event(a, now, e);
    lemma_file_of_answers(a, now, saved, is_dir, specs);
    assert(keeps_config_file(a, key_handled(a, now, k))) by {
        lemma_file_of_panes(a, now, k);
        lemma_file_of_overlays(a, now, k);
    }
}

/// Whether a step hands out a job only where none is under way, and then counts as busy.
pub open spec fn one_job(a: AppView, next: (AppView, EffectView)) -> bool {
    next.1 is Run ==> !a.busy && next.0.busy
}

/// One job at a time: no key and no answer to a question hands out a job while one is under way.
pub proof fn one_job_at_a_time(
    a: AppView,
    now: NowView,
    k: KeyPress,
    saved: Result<(), Seq<char>>,
    is_dir: bool,
    specs: Seq<LaunchView>,
)
    ensures
        one_job(a, key_handled(a, now, k)),
        one_job(a, after_save(a, now, saved)),
        one_job(a, after_check(a, now, is_dir)),
        one_job(a, after_launches(a, now, specs)),
        one_job(a, refresh_requested(a, now)),
{
}

/// Whether a job ends a process or takes something from a runner.
pub open spec fn needs_confirmation(j: JobView) -> bool {
    j is Stop || j is Restart || j is DirsRemove
}

/// Whether an effect ends a process, takes something from a runner, or leads to that.
pub open spec fn harms(e: EffectView) -> bool {
    (e is Run && needs_confirmation(e->Run_0)) || e is ReadLaunches
}

/// Whether a state is asked for a confirmation, and a key gives it.
pub open spec fn confirms(a: AppView, k: KeyPress) -> bool {
    a.overlay == Overlay::Confirm && a.confirm is Some && (k.key == Key::Enter || k.key
        == Key::Char('y'))
}

proof fn lemma_harmless_event(a: AppView, now: NowView, e: EventView)
    ensures
        !harms(event_handled(a, now, e).1),
{
}

proof fn lemma_harmless_key(a: AppView, now: NowView, k: KeyPress)
    ensures
        harms(key_handled(a, now, k).1) ==> confirms(a, k),
{
}

proof fn lemma_harmless_answers(
    a: AppView,
    now: NowView,
    saved: Result<(), Seq<char>>,
    is_dir: bool,
)
    ensures
        !harms(after_save(a, now, saved).1),
        !harms(after_check(a, now, is_dir).1),
        !harms(refresh_requested(a, now).1),
{
}

/// A runner is stopped or restarted, or a directory removed, only as the answer `y` or Enter to the
/// question for it: another key does not lead to it, nor does an event, the end of a save or the
/// test of a path.
pub proof fn harm_is_confirmed(
    a: AppView,
    now: NowView,
    k: KeyPress,
    e: EventView,
    saved: Result<(), Seq<char>>,
    is_dir: bool,
)
    ensures
        harms(key_handled(a, now, k).1) ==> confirms(a, k),
        !harms(event_handled(a, now, e).1),
        !harms(after_save(a, now, saved).1),
        !harms(after_check(a, now, is_dir).1),
        !harms(refresh_requested(a, now).1),
{
    assert(!harms(event_handled(a, now, e).1)) by {
        lemma_harmless_event(a, now, e);
    }
    assert(harms(key_handled(a, now, k).1) ==> confirms(a, k)) by {
        lemma_harmless_key(a, now, k);
    }
    lemma_harmless_answers(a, now, saved, is_dir);
}

/// A restart is asked for with the spec of the selected runner and with its process id.
pub proof fn restart_uses_saved_spec(a: AppView, now: NowView, specs: Seq<LaunchView>)
    ensures
        ({
            let effect = after_launches(a, now, specs).1;
            effect is Run ==> match (effect->Run_0, current_runner(a)) {
                (
                    JobView::Restart { pid, runner_id, display_id, spec },
                    Some(r),
                ) => r.pid == Some(pid) && pid > 0 && launch::restart_spec(specs, r) == Some(spec)
                    && runner_id == runner::id_flag(r.id),
                _ => false,
            }
        }),
{
}

/// Control-c ends the program, whatever lies over the panes.
pub proof fn control_c_quits(a: AppView, now: NowView, k: KeyPress)
    requires
        k.control,
        k.key == Key::Char('c'),
    ensures
        key_handled(a, now, k).0.should_quit,
{
}

/// Whether the selection is on the lists, and the log is no longer than it may be.
pub open spec fn sound(a: AppView) -> bool {
    &&& a.selected_runner < a.runners.len() || a.selected_runner == 0
    &&& a.selected_dir < current_dirs(a).len() || a.selected_dir == 0
    &&& a.log.len() <= LOG_CAP
    &&& a.picker is Some ==> picker::cursor_sound(a.picker->0)
}

proof fn lemma_sound_picker(a: AppView, now: NowView, k: KeyPress)
    requires
        sound(a),
    ensures
        sound(picker_key(a, now, k).0),
{
    match a.picker {
        Some(p) => {
            picker::cursor_stays_on_list(p, k, now.home, now.millis, 0, Seq::empty());
            let q = picker::keyed(p, k, now.home).0;
            picker::cursor_stays_on_list(q, k, now.home, now.millis, 0, Seq::empty());
        },
        None => {},
    }
}

proof fn lemma_sound_panes(a: AppView, now: NowView, k: Key)
    requires
        sound(a),
    ensures
        sound(normal_key(a, now, k).0),
{
}

proof fn lemma_sound_confirm(a: AppView, now: NowView, k: Key)
    requires
        sound(a),
    ensures
        sound(confirm_key(a, now, k).0),
{
}

proof fn lemma_sound_flags(a: AppView, now: NowView, k: KeyPress)
    requires
        sound(a),
    ensures
        sound(flags_key(a, now, k.key).0),
        sound(help_key(a, k.key)),
        sound(edit_key(a, k)),
{
}

proof fn lemma_sound_resumed(a: AppView, now: NowView, p: PendingView)
    requires
        sound(a),
    ensures
        sound(resumed(a, now, p).0),
        sound(saving(a, now, p).0),
{
}

proof fn lemma_sound_list(a: AppView, now: NowView, list: Seq<RunnerView>)
    requires
        sound(a),
    ensures
        sound(refreshed_with(a, now, list)),
{
}

proof fn lemma_sound_dirs(a: AppView, now: NowView, id: Seq<char>, dirs: Seq<Seq<char>>)
    requires
        sound(a),
    ensures
        sound(dirs_done(a, now, id, dirs).0),
{
    process::lemma_with_id(a.runners, id, 0);
}

proof fn lemma_sound_shown(
    a: AppView,
    now: NowView,
    id: Seq<char>,
    outcome: StopOutcome,
    o: OutcomeView,
    pid: u32,
    err: Seq<char>,
)
    requires
        sound(a),
    ensures
        sound(stop_done(a, now, id, outcome, pid).0),
        sound(refresh_requested(start_logged(a, now, "restarted"@, id, o), now).0),
        sound(refused(a, now, err).0),
{
}

proof fn lemma_sound_told(
    a: AppView,
    now: NowView,
    runner_id: Option<Seq<char>>,
    id: Seq<char>,
    path: Seq<char>,
    out: Seq<char>,
    version: Option<Seq<char>>,
)
    requires
        sound(a),
    ensures
        sound(remove_done(a, now, runner_id, id, path, out).0),
        sound(update_done(a, now, out, version)),
{
}

proof fn lemma_sound_event(a: AppView, now: NowView, e: EventView)
    requires
        sound(a),
    ensures
        sound(event_handled(a, now, e).0),
{
    let b = AppView { busy: false, ..a };
    let next = event_handled(a, now, e).0;
    match e {
        EventView::RefreshOk(list) => {
            assert(sound(next)) by {
                lemma_sound_list(b, now, list);
            }
        },
        EventView::UpdateOk { out, version } => {
            assert(sound(next)) by {
                lemma_sound_told(b, now, None, out, out, out, version);
            }
        },
        EventView::Started { id, outcome } => {
            let c = remembering(b, outcome.cwd);
            assert(sound(next)) by {
                lemma_sound_resumed(c, now, PendingView::Started { id, outcome });
            }
        },
        EventView::Stopped { id, outcome, pid } => {
            assert(sound(next)) by {
                lemma_sound_shown(b, now, id, outcome, arbitrary(), pid, id);
            }
        },
        EventView::Restarted { id, outcome } => {
            assert(sound(next)) by {
                lemma_sound_shown(b, now, id, StopOutcome::Stopped, outcome, 0, id);
            }
        },
        EventView::DirsAddOk { runner_id, id, path, out } => {
            let c = remembering(b, path);
            assert(sound(next)) by {
                lemma_sound_resumed(c, now, PendingView::DirAdded { runner_id, id, path, out });
            }
        },
        EventView::DirsRemoveOk { runner_id, id, path, out } => {
            assert(sound(next)) by {
                lemma_sound_told(b, now, runner_id, id, path, out, None);
            }
        },
        EventView::DirsListOk { match_id, dirs } => {
            assert(sound(next)) by {
                lemma_sound_dirs(b, now, match_id, dirs);
            }
        },
        EventView::Failed(err) => {
            assert(sound(next)) by {
                lemma_sound_shown(b, now, err, StopOutcome::Stopped, arbitrary(), 0, err);
            }
        },
    }
}

proof fn lemma_sound_save(a: AppView, now: NowView, saved: Result<(), Seq<char>>)
    requires
        sound(a),
    ensures
        sound(after_save(a, now, saved).0),
{
}

proof fn lemma_sound_check(a: AppView, now: NowView, is_dir: bool)
    requires
        sound(a),
    ensures
        sound(after_check(a, now, is_dir).0),
{
}

proof fn lemma_sound_answers(
    a: AppView,
    now: NowView,
    specs: Seq<LaunchView>,
    around: Surroundings,
    listing: Listing,
)
    requires
        sound(a),
    ensures
        sound(after_launches(a, now, specs).0),
        sound(after_listing(a, around, listing)),
{
}

/// The program starts with a selection on the lists and a short log.
pub proof fn screen_starts_sound(
    config: ConfigView,
    path: Seq<char>,
    writable: bool,
    version: Option<Seq<char>>,
    binary: Seq<char>,
    now: NowView,
)
    ensures
        sound(opened(config, path, writable, version, binary, now).0),
{
}

/// The selection stays on the lists, and the log stays short, whatever key, event, answer or search
/// result comes.
pub proof fn screen_stays_sound(
    a: AppView,
    now: NowView,
    k: KeyPress,
    e: EventView,
    saved: Result<(), Seq<char>>,
    is_dir: bool,
    specs: Seq<LaunchView>,
    around: Surroundings,
    listing: Listing,
    gen: u64,
    results: Seq<EntryView>,
)
    requires
        sound(a),
    ensures
        sound(key_handled(a, now, k).0),
        sound(event_handled(a, now, e).0),
        sound(after_save(a, now, saved).0),
        sound(after_check(a, now, is_dir).0),
        sound(after_launches(a, now, specs).0),
        sound(after_listing(a, around, listing)),
        sound(results_taken(a, gen, results)),
        sound(search_begun(a, now)),
{
    match a.picker {
        Some(p) => {
            picker::cursor_stays_on_list(p, k, now.home, now.millis, gen, results);
        },
        None => {},
    }
    lemma_sound_event(a, now, e);
    lemma_sound_save(a, now, saved);
    lemma_sound_check(a, now, is_dir);
    lemma_sound_answers(a, now, specs, around, listing);
    assert(sound(key_handled(a, now, k).0)) by {
        lemma_sound_picker(a, now, k);
        lemma_sound_panes(a, now, k.key);
        lemma_sound_confirm(a, now, k.key);
        lemma_sound_flags(a, now, k);
    }
}

/// After a new list the same runner is selected, where it is still listed: the first one with its
/// id, in any case of letters.
pub proof fn refresh_keeps_selection(a: AppView, now: NowView, list: Seq<RunnerView>)
    requires
        current_runner(a) is Some,
        process::with_id_from(list, current_runner(a)->0.id, 0) is Some,
    ensures
        refreshed_with(a, now, list).selected_runner == process::with_id_from(
            list,
            current_runner(a)->0.id,
            0,
        )->0,
{
    process::lemma_with_id(list, current_runner(a)->0.id, 0);
}

} // verus!
