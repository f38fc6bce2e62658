//! Starting, stopping and restarting a runner: what is recorded, what is checked, and what each
//! outcome is.
use vstd::prelude::*;
use crate::config;
use crate::config::state_dir;
use crate::path;
use crate::path::join_path;
use crate::process;
use crate::process::{find_by_id, find_by_pid, is_amp_binary, parse_amp_cmdline};
use crate::runner;
use crate::runner::{
    is_plausible_runner_id, LocalProcess, OptionsView, ProcessView, Runner, RunnerView,
    StartOptions,
};
use crate::text;
use crate::text::{
    alphanumeric, borrowed, chars_of, contains, keep_nonblank, lines, lower, nonempty, owned,
    same_ignoring_case, string_of, strings_of, trimmed_by, Class,
};

verus! {

// ---------------------------------------------------------------------------------------------
// Files of the state directory

/// A name with `_` for what is neither a letter, a digit, `-` nor `_`.
pub open spec fn slug_chars(s: Seq<char>) -> Seq<char> {
    Seq::new(
        s.len(),
        |i: int|
            if text::is_alphanumeric(s[i]) || s[i] == '-' || s[i] == '_' {
                s[i]
            } else {
                '_'
            },
    )
}

/// A file name for a text: its [`slug_chars`] without `_` around them.
pub open spec fn slug(s: Seq<char>) -> Seq<char> {
    text::trim_by(slug_chars(s), Class::Underscore)
}

/// A file name for a text.
pub fn sanitize_slug(s: &str) -> (r: String)
    ensures
        r@ == slug(s@),
{
    let chars = chars_of(s);
    let mut out: Vec<char> = Vec::new();
    for i in 0..chars.len()
        invariant
            chars@ == s@,
            out@ == slug_chars(s@).take(i as int),
    {
        let c = chars[i];
        if alphanumeric(c) || c == '-' || c == '_' {
            out.push(c);
        } else {
            out.push('_');
        }
        assert(out@ == slug_chars(s@).take(i + 1));
    }
    assert(slug_chars(s@).take(s@.len() as int) == slug_chars(s@));
    string_of(trimmed_by(&out, Class::Underscore))
}

/// The name of a runner's log: after its id, else after its working directory.
pub open spec fn log_slug(runner_id: Option<Seq<char>>, cwd: Option<Seq<char>>) -> Seq<char> {
    let by_dir = match cwd {
        Some(d) => slug(d),
        None => Seq::empty(),
    };
    match runner_id {
        Some(id) => if slug(id).len() > 0 {
            slug(id)
        } else {
            by_dir
        },
        None => by_dir,
    }
}

/// The log of a runner in a state directory.
pub open spec fn log_path_text(
    state: Seq<char>,
    runner_id: Option<Seq<char>>,
    cwd: Option<Seq<char>>,
) -> Seq<char> {
    path::joined_path(path::joined_path(state, "logs"@), log_slug(runner_id, cwd) + ".log"@)
}

/// The log of a runner in a state directory.
pub fn runner_log_path_in(state: &str, runner_id: Option<&str>, cwd: Option<&str>) -> (r: String)
    ensures
        r@ == log_path_text(state@, text::opt_str(runner_id), text::opt_str(cwd)),
{
    let by_dir = match cwd {
        Some(d) => sanitize_slug(d),
        None => String::new(),
    };
    let mut name = match runner_id {
        Some(id) => {
            let s = sanitize_slug(id);
            if s.as_str().is_empty() {
                by_dir
            } else {
                s
            }
        },
        None => by_dir,
    };
    name.append(".log");
    join_path(join_path(state, "logs").as_str(), name.as_str())
}

/// The log of a runner.
pub fn runner_log_path(runner_id: Option<&str>, cwd: Option<&str>) -> (r: String)
    ensures
        exists|dir: Option<Seq<char>>|
            r@ == log_path_text(
                #[trigger] config::state_dir_text(dir),
                text::opt_str(runner_id),
                text::opt_str(cwd),
            ),
{
    runner_log_path_in(state_dir().as_str(), runner_id, cwd)
}

/// The registry of started processes in a state directory.
pub fn spawn_registry_path(state: &str) -> (r: String)
    ensures
        r@ == path::joined_path(state@, "spawned.json"@),
{
    join_path(state, "spawned.json")
}

/// The registry of launch specs in a state directory.
pub fn launch_registry_path(state: &str) -> (r: String)
    ensures
        r@ == path::joined_path(state@, "launches.json"@),
{
    join_path(state, "launches.json")
}

/// The last `n` of the texts.
pub open spec fn last_texts(v: Seq<Seq<char>>, n: nat) -> Seq<Seq<char>> {
    if v.len() > n {
        v.skip(v.len() - n)
    } else {
        v
    }
}

/// The last `n` lines of a log.
pub fn tail_log_lines(log: &str, n: usize) -> (r: Vec<String>)
    ensures
        text::strings(r@) == last_texts(text::lines_of(log@), n as nat),
{
    let all = strings_of(&lines(&chars_of(log)));
    if all.len() <= n {
        return all;
    }
    let ghost texts = text::strings(all@);
    let start: usize = all.len() - n;
    let mut out: Vec<String> = Vec::new();
    for i in start..all.len()
        invariant
            texts == text::strings(all@),
            start <= i,
            text::strings(out@) == texts.subrange(start as int, i as int),
    {
        let ghost before = text::strings(out@);
        out.push(all[i].clone());
        assert(text::strings(out@) == before.push(texts[i as int]));
        assert(texts.subrange(start as int, i + 1) == texts.subrange(start as int, i as int).push(
            texts[i as int],
        ));
    }
    assert(texts.subrange(start as int, texts.len() as int) == texts.skip(start as int));
    out
}

// ---------------------------------------------------------------------------------------------
// Identity of a process

/// The executable of a process.
#[derive(Debug)]
pub enum Executable {
    Path(String),
    Unreadable,
    /// The system does not tell: the command line is all there is.
    Untold,
}

/// What the system tells of a process.
#[derive(Debug)]
pub struct Evidence {
    pub alive: bool,
    pub exe: Executable,
    pub args: Vec<String>,
}

/// Whether the executable is no reason to doubt that a process is Amp.
pub open spec fn exe_fits(exe: Executable) -> bool {
    match exe {
        Executable::Path(p) => process::names_amp(p@),
        Executable::Unreadable => false,
        Executable::Untold => true,
    }
}

/// Whether a process looks like `amp --no-tui`: it is alive, and its executable and its command
/// line say so.
pub open spec fn looks_like_runner(e: Evidence) -> bool {
    e.alive && exe_fits(e.exe) && process::amp_process(text::strings(e.args@)) is Some
}

/// Whether two runner ids can be of one runner: they are the same where both are known.
pub open spec fn ids_fit(wanted: Option<Seq<char>>, found: Option<Seq<char>>) -> bool {
    match (wanted, found) {
        (Some(a), Some(b)) => text::same_but_case(a, b),
        _ => true,
    }
}

/// Whether a process is the runner with an id: it looks like `amp --no-tui`, and its runner id
/// fits.
pub open spec fn is_runner(e: Evidence, wanted: Option<Seq<char>>) -> bool {
    looks_like_runner(e) && ids_fit(
        wanted,
        process::amp_process(text::strings(e.args@))->0.runner_id,
    )
}

fn is_amp_exe(exe: &Executable) -> (r: bool)
    ensures
        r == exe_fits(*exe),
{
    match exe {
        Executable::Path(p) => is_amp_binary(p.as_str()),
        Executable::Unreadable => false,
        Executable::Untold => true,
    }
}

/// Whether a process is the runner with an id.
pub fn verify_identity(e: &Evidence, wanted: Option<&str>) -> (r: bool)
    ensures
        r == is_runner(*e, text::opt_str(wanted)),
{
    if !e.alive || !is_amp_exe(&e.exe) {
        return false;
    }
    match parse_amp_cmdline(&e.args) {
        Some(p) => match (wanted, &p.runner_id) {
            (Some(a), Some(b)) => same_ignoring_case(&chars_of(a), &chars_of(b.as_str())),
            _ => true,
        },
        None => false,
    }
}

// ---------------------------------------------------------------------------------------------
// Registry of started processes

/// A started process.
#[derive(Debug, Clone, PartialEq, Eq)]
pub struct SpawnRecord {
    pub pid: u32,
    pub runner_id: Option<String>,
    pub cwd: String,
}

/// What a [`SpawnRecord`] holds.
#[verifier::ext_equal]
pub struct SpawnView {
    pub pid: u32,
    pub runner_id: Option<Seq<char>>,
    pub cwd: Seq<char>,
}

impl View for SpawnRecord {
    type V = SpawnView;

    open spec fn view(&self) -> SpawnView {
        SpawnView { pid: self.pid, runner_id: text::opt_text(self.runner_id), cwd: self.cwd@ }
    }
}

impl SpawnRecord {
    /// A copy.
    pub fn duplicate(&self) -> (r: SpawnRecord)
        ensures
            r@ == self@,
    {
        SpawnRecord { pid: self.pid, runner_id: self.runner_id.clone(), cwd: self.cwd.clone() }
    }
}

/// What records hold.
pub open spec fn spawns(v: Seq<SpawnRecord>) -> Seq<SpawnView> {
    Seq::new(v.len(), |i: int| v[i]@)
}

/// A record with what the system tells of its process now.
#[derive(Debug)]
pub struct Witnessed {
    pub record: SpawnRecord,
    pub evidence: Evidence,
}

/// Whether a record is still good: its process still looks like `amp --no-tui`.
pub open spec fn still_good(w: Witnessed) -> bool {
    looks_like_runner(w.evidence)
}

/// The records that are still good, but for those of a process id.
pub open spec fn good_records(v: Seq<Witnessed>, but: Option<u32>) -> Seq<SpawnView>
    decreases v.len(),
{
    if v.len() == 0 {
        Seq::empty()
    } else if still_good(v.last()) && but != Some(v.last().record.pid) {
        good_records(v.drop_last(), but).push(v.last().record@)
    } else {
        good_records(v.drop_last(), but)
    }
}

/// The process of a record.
pub open spec fn recorded_process(s: SpawnView) -> ProcessView {
    ProcessView {
        pid: s.pid,
        runner_id: s.runner_id,
        cwd: Some(s.cwd),
        extra_dirs: Seq::empty(),
    }
}

/// The processes of records.
pub open spec fn recorded_processes(v: Seq<SpawnView>) -> Seq<ProcessView> {
    Seq::new(v.len(), |i: int| recorded_process(v[i]))
}

fn keep_good(v: &Vec<Witnessed>, but: Option<u32>) -> (r: Vec<SpawnRecord>)
    ensures
        spawns(r@) == good_records(v@, but),
{
    let mut out: Vec<SpawnRecord> = Vec::new();
    for i in 0..v.len()
        invariant
            spawns(out@) == good_records(v@.take(i as int), but),
    {
        assert(v@.take(i + 1).drop_last() == v@.take(i as int));
        let w = &v[i];
        let other: bool = match but {
            Some(pid) => w.record.pid != pid,
            None => true,
        };
        if other && verify_identity(&w.evidence, None) {
            let ghost before = spawns(out@);
            out.push(w.record.duplicate());
            assert(spawns(out@) == before.push(w.record@));
        }
    }
    assert(v@.take(v@.len() as int) == v@);
    out
}

/// The started processes that still look like `amp --no-tui`.
pub fn load_spawn_registry(v: &Vec<Witnessed>) -> (r: Vec<LocalProcess>)
    ensures
        runner::processes(r@) == recorded_processes(good_records(v@, None)),
{
    let records = keep_good(v, None);
    let ghost all = spawns(records@);
    let ghost want = recorded_processes(all);
    let mut out: Vec<LocalProcess> = Vec::new();
    for i in 0..records.len()
        invariant
            all == spawns(records@),
            want == recorded_processes(all),
            runner::processes(out@) == want.take(i as int),
    {
        let ghost before = runner::processes(out@);
        let x = &records[i];
        let p = LocalProcess {
            pid: x.pid,
            runner_id: x.runner_id.clone(),
            cwd: Some(x.cwd.clone()),
            extra_dirs: Vec::new(),
        };
        assert(all[i as int] == x@);
        assert(p@ == want[i as int]);
        let ghost pv = p@;
        out.push(p);
        assert(runner::processes(out@) == before.push(pv));
        assert(want.take(i + 1) == want.take(i as int).push(want[i as int]));
    }
    assert(want.take(want.len() as int) == want);
    out
}

/// The registry with a process that was just started: records of its process id and those that
/// are no longer good are dropped.
pub fn record_spawn(
    v: &Vec<Witnessed>,
    pid: u32,
    runner_id: Option<&str>,
    cwd: &str,
) -> (r: Vec<SpawnRecord>)
    ensures
        spawns(r@) == good_records(v@, Some(pid)).push(
            SpawnView { pid, runner_id: text::opt_str(runner_id), cwd: cwd@ },
        ),
{
    let mut out = keep_good(v, Some(pid));
    let ghost before = spawns(out@);
    let x = SpawnRecord { pid, runner_id: owned(runner_id), cwd: cwd.to_owned() };
    let ghost xv = x@;
    out.push(x);
    assert(spawns(out@) == before.push(xv));
    out
}

/// The records of other processes.
pub open spec fn without_pid(v: Seq<SpawnView>, pid: u32) -> Seq<SpawnView>
    decreases v.len(),
{
    if v.len() == 0 {
        Seq::empty()
    } else if v.last().pid == pid {
        without_pid(v.drop_last(), pid)
    } else {
        without_pid(v.drop_last(), pid).push(v.last())
    }
}

/// The registry without a process.
pub fn forget_spawn(v: &Vec<SpawnRecord>, pid: u32) -> (r: Vec<SpawnRecord>)
    ensures
        spawns(r@) == without_pid(spawns(v@), pid),
{
    let ghost all = spawns(v@);
    let mut out: Vec<SpawnRecord> = Vec::new();
    for i in 0..v.len()
        invariant
            all == spawns(v@),
            spawns(out@) == without_pid(all.take(i as int), pid),
    {
        assert(all.take(i + 1).drop_last() == all.take(i as int));
        assert(all[i as int] == v@[i as int]@);
        if v[i].pid != pid {
            let ghost before = spawns(out@);
            out.push(v[i].duplicate());
            assert(spawns(out@) == before.push(all[i as int]));
        }
    }
    assert(all.take(all.len() as int) == all);
    out
}

/// After a process was forgotten, no record has its process id, and the others stay.
pub proof fn forgetting_drops_the_pid_alone(v: Seq<SpawnView>, pid: u32, s: SpawnView)
    ensures
        without_pid(v, pid).contains(s) <==> v.contains(s) && s.pid != pid,
    decreases v.len(),
{
    if v.len() > 0 {
        let front = v.drop_last();
        let out = without_pid(v, pid);
        let before = without_pid(front, pid);
        forgetting_drops_the_pid_alone(front, pid, s);
        if v.contains(s) {
            let i = choose|i: int| 0 <= i < v.len() && v[i] == s;
            if i < front.len() {
                assert(front[i] == s);
            }
        }
        if front.contains(s) {
            let i = choose|i: int| 0 <= i < front.len() && front[i] == s;
            assert(v[i] == s);
        }
        if v.last().pid != pid {
            assert(out == before.push(v.last()));
            if before.contains(s) {
                let i = choose|i: int| 0 <= i < before.len() && before[i] == s;
                assert(out[i] == s);
            }
            if out.contains(s) {
                let i = choose|i: int| 0 <= i < out.len() && out[i] == s;
                if i < before.len() {
                    assert(before[i] == s);
                } else {
                    assert(v[v.len() - 1] == s);
                }
            }
            if v.last() == s {
                assert(out[out.len() - 1] == s);
            }
        }
    }
}

// ---------------------------------------------------------------------------------------------
// Launch specs

/// How a runner was started.
#[derive(Debug, Clone, PartialEq, Eq)]
pub struct LaunchSpec {
    pub pid: u32,
    pub cwd: String,
    pub options: StartOptions,
}

/// What a [`LaunchSpec`] holds.
#[verifier::ext_equal]
pub struct LaunchView {
    pub pid: u32,
    pub cwd: Seq<char>,
    pub options: OptionsView,
}

impl View for LaunchSpec {
    type V = LaunchView;

    open spec fn view(&self) -> LaunchView {
        LaunchView { pid: self.pid, cwd: self.cwd@, options: self.options@ }
    }
}

impl LaunchSpec {
    /// A copy.
    pub fn duplicate(&self) -> (r: LaunchSpec)
        ensures
            r@ == self@,
    {
        LaunchSpec {
            pid: self.pid,
            cwd: self.cwd.clone(),
            options: self.options.duplicate(),
        }
    }
}

/// What launch specs hold.
pub open spec fn launches(v: Seq<LaunchSpec>) -> Seq<LaunchView> {
    Seq::new(v.len(), |i: int| v[i]@)
}

/// Whether a spec has a runner id, in any case of letters.
pub open spec fn spec_has_id(s: LaunchView, id: Seq<char>) -> bool {
    match text::nonblank(s.options.runner_id) {
        Some(own) => text::same_but_case(own, id),
        None => false,
    }
}

/// The newest spec with a process id.
pub open spec fn spec_of_pid(v: Seq<LaunchView>, pid: u32) -> Option<LaunchView>
    decreases v.len(),
{
    if v.len() == 0 {
        None
    } else if v.last().pid == pid {
        Some(v.last())
    } else {
        spec_of_pid(v.drop_last(), pid)
    }
}

/// The newest spec with a runner id.
pub open spec fn spec_of_id(v: Seq<LaunchView>, id: Seq<char>) -> Option<LaunchView>
    decreases v.len(),
{
    if v.len() == 0 {
        None
    } else if spec_has_id(v.last(), id) {
        Some(v.last())
    } else {
        spec_of_id(v.drop_last(), id)
    }
}

/// The spec that a runner is restarted from: the one of its process id, else the one of its runner
/// id.
pub open spec fn restart_spec(v: Seq<LaunchView>, r: RunnerView) -> Option<LaunchView> {
    let by_pid = match r.pid {
        Some(pid) => spec_of_pid(v, pid),
        None => None,
    };
    match by_pid {
        Some(s) => Some(s),
        None => if r.id.len() > 0 {
            spec_of_id(v, r.id)
        } else {
            None
        },
    }
}

/// Why a launch spec cannot be used.
#[derive(Debug, PartialEq, Eq)]
pub enum LaunchError {
    /// No spec was saved for the runner that is shown under this name.
    Unknown(String),
    /// The working directory does not exist.
    NoDirectory(String),
    /// The runner id is not a hostname.
    BadId(String),
}

/// What a [`LaunchError`] holds.
#[verifier::ext_equal]
pub enum LaunchErrorView {
    Unknown(Seq<char>),
    NoDirectory(Seq<char>),
    BadId(Seq<char>),
}

impl View for LaunchError {
    type V = LaunchErrorView;

    open spec fn view(&self) -> LaunchErrorView {
        match self {
            LaunchError::Unknown(s) => LaunchErrorView::Unknown(s@),
            LaunchError::NoDirectory(s) => LaunchErrorView::NoDirectory(s@),
            LaunchError::BadId(s) => LaunchErrorView::BadId(s@),
        }
    }
}

/// The message of an error.
pub open spec fn launch_error_text(e: LaunchErrorView) -> Seq<char> {
    match e {
        LaunchErrorView::Unknown(s) => "no saved launch spec for "@ + s,
        LaunchErrorView::NoDirectory(s) => "working directory does not exist: "@ + s,
        LaunchErrorView::BadId(s) => "runner-id `"@ + s + "` is not a hostname"@,
    }
}

impl LaunchError {
    /// The message.
    pub fn message(&self) -> (r: String)
        ensures
            r@ == launch_error_text(self@),
    {
        match self {
            LaunchError::Unknown(s) => {
                let mut out = "no saved launch spec for ".to_owned();
                out.append(s.as_str());
                out
            },
            LaunchError::NoDirectory(s) => {
                let mut out = "working directory does not exist: ".to_owned();
                out.append(s.as_str());
                out
            },
            LaunchError::BadId(s) => {
                let mut out = "runner-id `".to_owned();
                out.append(s.as_str());
                out.append("` is not a hostname");
                out
            },
        }
    }
}

fn has_id(s: &LaunchSpec, id: &str) -> (r: bool)
    ensures
        r == spec_has_id(s@, id@),
{
    match nonempty(borrowed(&s.options.runner_id)) {
        Some(own) => same_ignoring_case(&chars_of(own.as_str()), &chars_of(id)),
        None => false,
    }
}

fn find_spec_of_pid(v: &Vec<LaunchSpec>, pid: u32) -> (r: Option<LaunchSpec>)
    ensures
        match r {
            Some(s) => spec_of_pid(launches(v@), pid) == Some(s@),
            None => spec_of_pid(launches(v@), pid) is None,
        },
{
    let ghost all = launches(v@);
    let mut n: usize = v.len();
    assert(all.take(n as int) == all);
    while n > 0
        invariant
            n <= v@.len(),
            all == launches(v@),
            spec_of_pid(all, pid) == spec_of_pid(all.take(n as int), pid),
        decreases n,
    {
        assert(all.take(n as int).last() == v@[n - 1]@);
        assert(all.take(n as int).drop_last() == all.take(n - 1));
        if v[n - 1].pid == pid {
            return Some(v[n - 1].duplicate());
        }
        n -= 1;
    }
    None
}

fn find_spec_of_id(v: &Vec<LaunchSpec>, id: &str) -> (r: Option<LaunchSpec>)
    ensures
        match r {
            Some(s) => spec_of_id(launches(v@), id@) == Some(s@),
            None => spec_of_id(launches(v@), id@) is None,
        },
{
    let ghost all = launches(v@);
    let mut n: usize = v.len();
    assert(all.take(n as int) == all);
    while n > 0
        invariant
            n <= v@.len(),
            all == launches(v@),
            spec_of_id(all, id@) == spec_of_id(all.take(n as int), id@),
        decreases n,
    {
        assert(all.take(n as int).last() == v@[n - 1]@);
        assert(all.take(n as int).drop_last() == all.take(n - 1));
        if has_id(&v[n - 1], id) {
            return Some(v[n - 1].duplicate());
        }
        n -= 1;
    }
    None
}

/// The spec that a runner is restarted from.
pub fn launch_spec_for_restart(v: &Vec<LaunchSpec>, r: &Runner) -> (out: Result<
    LaunchSpec,
    LaunchError,
>)
    ensures
        match out {
            Ok(s) => restart_spec(launches(v@), r@) == Some(s@),
            Err(e) => restart_spec(launches(v@), r@) is None && e@ == LaunchErrorView::Unknown(
                runner::shown_id(r@.id),
            ),
        },
{
    match r.pid {
        Some(pid) => match find_spec_of_pid(v, pid) {
            Some(s) => {
                return Ok(s);
            },
            None => {},
        },
        None => {},
    }
    if !r.id.as_str().is_empty() {
        match find_spec_of_id(v, r.id.as_str()) {
            Some(s) => {
                return Ok(s);
            },
            None => {},
        }
    }
    Err(LaunchError::Unknown(r.display_id().to_owned()))
}

/// Whether two specs are of one runner: of one process id or one runner id.
pub open spec fn same_launch(a: LaunchView, b: LaunchView) -> bool {
    a.pid == b.pid || (text::nonblank(b.options.runner_id) is Some && spec_has_id(
        a,
        text::nonblank(b.options.runner_id)->0,
    ))
}

/// The specs of other runners.
pub open spec fn other_launches(v: Seq<LaunchView>, s: LaunchView) -> Seq<LaunchView>
    decreases v.len(),
{
    if v.len() == 0 {
        Seq::empty()
    } else if same_launch(v.last(), s) {
        other_launches(v.drop_last(), s)
    } else {
        other_launches(v.drop_last(), s).push(v.last())
    }
}

/// The registry with how a runner was just started, in place of how it was before.
pub fn record_launch(v: &Vec<LaunchSpec>, s: LaunchSpec) -> (r: Vec<LaunchSpec>)
    ensures
        launches(r@) == other_launches(launches(v@), s@).push(s@),
{
    let ghost all = launches(v@);
    let id = nonempty(borrowed(&s.options.runner_id));
    let mut out: Vec<LaunchSpec> = Vec::new();
    for i in 0..v.len()
        invariant
            all == launches(v@),
            text::opt_text(id) == text::nonblank(s@.options.runner_id),
            launches(out@) == other_launches(all.take(i as int), s@),
    {
        assert(all.take(i + 1).drop_last() == all.take(i as int));
        assert(all[i as int] == v@[i as int]@);
        let same: bool = v[i].pid == s.pid || match &id {
            Some(x) => has_id(&v[i], x.as_str()),
            None => false,
        };
        if !same {
            let ghost before = launches(out@);
            out.push(v[i].duplicate());
            assert(launches(out@) == before.push(all[i as int]));
        }
    }
    assert(all.take(all.len() as int) == all);
    let ghost before = launches(out@);
    let ghost sv = s@;
    out.push(s);
    assert(launches(out@) == before.push(sv));
    out
}

/// A restart replays the start: the spec that a start records is the one that a runner of its
/// process id, or one of its runner id that no other start has the process id of, is restarted
/// from.
pub proof fn restart_replays_the_start(v: Seq<LaunchView>, s: LaunchView, r: RunnerView)
    requires
        r.pid == Some(s.pid) || (r.id.len() > 0 && spec_has_id(s, r.id) && (r.pid is Some
            ==> spec_of_pid(v, r.pid->0) is None)),
    ensures
        restart_spec(other_launches(v, s).push(s), r) == Some(s),
{
    let all = other_launches(v, s).push(s);
    assert(all.last() == s);
    assert(all.drop_last() == other_launches(v, s));
    if r.pid is Some && r.pid != Some(s.pid) {
        lemma_other_pid(v, s, r.pid->0);
    }
}

proof fn lemma_other_pid(v: Seq<LaunchView>, s: LaunchView, pid: u32)
    requires
        spec_of_pid(v, pid) is None,
    ensures
        spec_of_pid(other_launches(v, s), pid) is None,
    decreases v.len(),
{
    if v.len() > 0 {
        lemma_other_pid(v.drop_last(), s, pid);
        let before = other_launches(v.drop_last(), s);
        if !same_launch(v.last(), s) {
            assert(before.push(v.last()).drop_last() == before);
        }
    }
}

/// The options that a restart starts with: those of the spec.
pub fn restart_start_options(spec: &LaunchSpec) -> (r: StartOptions)
    ensures
        r@ == spec@.options,
{
    spec.options.duplicate()
}

/// What is wrong with a spec, if anything.
pub open spec fn spec_fault(s: LaunchView, cwd_is_dir: bool) -> Option<LaunchErrorView> {
    if !cwd_is_dir {
        Some(LaunchErrorView::NoDirectory(s.cwd))
    } else {
        match text::nonblank(s.options.runner_id) {
            Some(id) => if runner::plausible_id(id) {
                None
            } else {
                Some(LaunchErrorView::BadId(id))
            },
            None => None,
        }
    }
}

/// Whether a spec can be used again.
pub fn validate_launch_spec(spec: &LaunchSpec, cwd_is_dir: bool) -> (r: Result<(), LaunchError>)
    ensures
        match r {
            Ok(_) => spec_fault(spec@, cwd_is_dir) is None,
            Err(e) => spec_fault(spec@, cwd_is_dir) == Some(e@),
        },
{
    if !cwd_is_dir {
        return Err(LaunchError::NoDirectory(spec.cwd.clone()));
    }
    match nonempty(borrowed(&spec.options.runner_id)) {
        Some(id) => {
            if is_plausible_runner_id(id.as_str()) {
                Ok(())
            } else {
                Err(LaunchError::BadId(id))
            }
        },
        None => Ok(()),
    }
}

// ---------------------------------------------------------------------------------------------
// Health of a started runner

/// How a started runner does.
#[derive(Debug, Clone, PartialEq, Eq)]
pub enum StartHealth {
    /// It is alive and in the runner list.
    Listed,
    /// It is alive and not in the runner list yet.
    Alive,
    /// It is alive and waits for a login.
    NeedsLogin,
    /// It is gone; the last thing it said.
    Exited { hint: String },
}

/// What a [`StartHealth`] holds.
#[verifier::ext_equal]
pub enum HealthView {
    Listed,
    Alive,
    NeedsLogin,
    Exited { hint: Seq<char> },
}

impl View for StartHealth {
    type V = HealthView;

    open spec fn view(&self) -> HealthView {
        match self {
            StartHealth::Listed => HealthView::Listed,
            StartHealth::Alive => HealthView::Alive,
            StartHealth::NeedsLogin => HealthView::NeedsLogin,
            StartHealth::Exited { hint } => HealthView::Exited { hint: hint@ },
        }
    }
}

/// What became of a start.
#[derive(Debug, Clone, PartialEq, Eq)]
pub struct StartOutcome {
    pub pid: u32,
    pub cwd: String,
    pub log_path: String,
    pub health: StartHealth,
}

/// What a [`StartOutcome`] holds.
#[verifier::ext_equal]
pub struct OutcomeView {
    pub pid: u32,
    pub cwd: Seq<char>,
    pub log_path: Seq<char>,
    pub health: HealthView,
}

impl View for StartOutcome {
    type V = OutcomeView;

    open spec fn view(&self) -> OutcomeView {
        OutcomeView {
            pid: self.pid,
            cwd: self.cwd@,
            log_path: self.log_path@,
            health: self.health@,
        }
    }
}

/// Whether a log says that Amp waits for a login.
pub open spec fn asks_for_login(log: Seq<char>) -> bool {
    let l = text::lower_text(log);
    text::contains_text(l, "amp login"@) || text::contains_text(l, "not logged in"@)
        || text::contains_text(l, "log in to"@) || text::contains_text(l, "waiting for login"@)
}

/// Whether a log says that Amp waits for a login.
pub fn login_prompt(log: &str) -> (r: bool)
    ensures
        r == asks_for_login(log@),
{
    let l = lower(&chars_of(log));
    contains(&l, &chars_of("amp login")) || contains(&l, &chars_of("not logged in")) || contains(
        &l,
        &chars_of("log in to"),
    ) || contains(&l, &chars_of("waiting for login"))
}

/// The last line of a log that is not blank.
pub open spec fn last_words(log: Seq<char>) -> Seq<char> {
    let kept = text::nonblank_texts(text::lines_of(log));
    if kept.len() > 0 {
        kept.last()
    } else {
        Seq::empty()
    }
}

fn last_line(log: &str) -> (r: String)
    ensures
        r@ == last_words(log@),
{
    let kept = keep_nonblank(&lines(&chars_of(log)));
    let n: usize = kept.len();
    if n > 0 {
        assert(text::texts(kept@)[n - 1] == kept@[n - 1]@);
        string_of(&kept[n - 1])
    } else {
        String::new()
    }
}

/// Whether a list has the started runner: by its process id, or by its runner id where it was
/// given one.
pub open spec fn in_list(list: Seq<RunnerView>, pid: u32, runner_id: Option<Seq<char>>) -> bool {
    ||| process::with_pid_from(list, pid, 0) is Some
    ||| match text::nonblank(runner_id) {
        Some(id) => process::with_id_from(list, id, 0) is Some,
        None => false,
    }
}

/// Whether a list has the started runner.
pub fn appears_in(list: &Vec<Runner>, pid: u32, runner_id: Option<&str>) -> (r: bool)
    ensures
        r == in_list(runner::runners(list@), pid, text::opt_str(runner_id)),
{
    match nonempty(runner_id) {
        Some(id) => {
            if find_by_id(list, id.as_str()).is_some() {
                return true;
            }
        },
        None => {},
    }
    find_by_pid(list, pid).is_some()
}

/// How a started runner does, by a look at it: gone, in the list, or waiting for a login. `None`
/// where it is alive and neither can be said, and there will be another look.
pub open spec fn health_of(alive: bool, listed: bool, log: Seq<char>, last_look: bool) -> Option<
    HealthView,
> {
    if !alive {
        Some(HealthView::Exited { hint: last_words(log) })
    } else if listed {
        Some(HealthView::Listed)
    } else if asks_for_login(log) {
        Some(HealthView::NeedsLogin)
    } else if last_look {
        Some(HealthView::Alive)
    } else {
        None
    }
}

/// How many looks are taken at a started runner after the first one.
pub const HEALTH_LOOKS: u32 = 8;

/// How long to wait between two looks, in milliseconds.
pub const HEALTH_PAUSE: u64 = 500;

/// How a started runner does, by a look at it.
pub fn start_health(alive: bool, listed: bool, log: &str, last_look: bool) -> (r: Option<
    StartHealth,
>)
    ensures
        match r {
            Some(h) => health_of(alive, listed, log@, last_look) == Some(h@),
            None => health_of(alive, listed, log@, last_look) is None,
        },
{
    if !alive {
        return Some(StartHealth::Exited { hint: last_line(log) });
    }
    if listed {
        return Some(StartHealth::Listed);
    }
    if login_prompt(log) {
        return Some(StartHealth::NeedsLogin);
    }
    if last_look {
        return Some(StartHealth::Alive);
    }
    None
}

/// A start is called listed, or waiting for a login, of a living process alone; and a process that
/// is gone is never called alive.
pub proof fn health_needs_life(alive: bool, listed: bool, log: Seq<char>, last_look: bool)
    ensures
        health_of(alive, listed, log, last_look) == Some(HealthView::Listed) ==> alive && listed,
        health_of(alive, listed, log, last_look) == Some(HealthView::NeedsLogin) ==> alive
            && asks_for_login(log),
        health_of(alive, listed, log, last_look) == Some(HealthView::Alive) ==> alive,
        !alive ==> health_of(alive, listed, log, last_look) == Some(
            HealthView::Exited { hint: last_words(log) },
        ),
        last_look ==> health_of(alive, listed, log, last_look) is Some,
{
}

/// Whether a character is kept in the name of a log file.
pub open spec fn file_char(c: char) -> bool {
    'a' <= c <= 'z' || 'A' <= c <= 'Z' || '0' <= c <= '9' || c == '-' || c == '_'
}

/// The name of a log file holds letters, digits, dashes and underscores alone, and a text of them that
/// neither starts nor ends with an underscore is its own name.
pub proof fn log_names_are_plain(s: Seq<char>, i: int)
    ensures
        0 <= i < slug(s).len() ==> file_char(slug(s)[i]),
        slug(s).len() > 0 ==> slug(s)[0] != '_' && slug(s).last() != '_',
        s.len() > 0 && s[0] != '_' && s.last() != '_' && (forall|j: int|
            0 <= j < s.len() ==> file_char(#[trigger] s[j])) ==> slug(s) == s,
{
    let c = slug_chars(s);
    let a = text::trim_start_by(c, Class::Underscore);
    text::lemma_trim_ends(c, Class::Underscore);
    text::lemma_trim_ends(a, Class::Underscore);
    lemma_trim_start_suffix(c);
    if 0 <= i < slug(s).len() {
        assert(slug(s)[i] == a[i]);
        assert(a[i] == c[c.len() - a.len() + i]);
    }
    if slug(s).len() > 0 {
        assert(slug(s)[0] == a[0]);
    }
    if s.len() > 0 && (forall|j: int| 0 <= j < s.len() ==> file_char(#[trigger] s[j])) {
        assert(c =~= s);
    }
}

proof fn lemma_trim_start_suffix(s: Seq<char>)
    ensures
        text::trim_start_by(s, Class::Underscore).len() <= s.len(),
        text::trim_start_by(s, Class::Underscore) == s.skip(
            s.len() - text::trim_start_by(s, Class::Underscore).len(),
        ),
    decreases s.len(),
{
    let t = text::trim_start_by(s, Class::Underscore);
    if s.len() > 0 && s[0] == '_' {
        lemma_trim_start_suffix(s.drop_first());
        assert(s.drop_first().skip(s.drop_first().len() - t.len()) =~= s.skip(s.len() - t.len()));
    } else {
        assert(s.skip(0) =~= s);
    }
}

/// A log file is in `logs` below the state directory, by the name of the runner id, or of the working
/// directory where there is no id to name it by.
pub proof fn logs_have_their_places(
    state: Seq<char>,
    runner_id: Option<Seq<char>>,
    cwd: Option<Seq<char>>,
)
    requires
        state.len() > 0,
        state.last() != '/',
    ensures
        runner_id is Some && slug(runner_id->0).len() > 0 ==> log_path_text(state, runner_id, cwd)
            == state + "/logs/"@ + slug(runner_id->0) + ".log"@,
        (runner_id is None || slug(runner_id->0).len() == 0) && cwd is Some && slug(cwd->0).len()
            > 0 ==> log_path_text(state, runner_id, cwd) == state + "/logs/"@ + slug(cwd->0)
            + ".log"@,
{
    reveal_strlit("logs");
    reveal_strlit("/logs/");
    reveal_strlit(".log");
    let name = log_slug(runner_id, cwd);
    if name.len() > 0 {
        if runner_id is Some && slug(runner_id->0).len() > 0 {
            log_names_are_plain(runner_id->0, 0);
        } else if cwd is Some {
            log_names_are_plain(cwd->0, 0);
        }
        assert(name[0] != '/');
        assert((name + ".log"@)[0] == name[0]);
        assert(log_path_text(state, runner_id, cwd) =~= state + "/logs/"@ + name + ".log"@);
    }
}

/// The last lines are the end of all lines, in their order, and as many as asked for where there are
/// as many.
pub proof fn last_lines_are_the_end(v: Seq<Seq<char>>, n: nat)
    ensures
        last_texts(v, n).len() == if v.len() < n {
            v.len()
        } else {
            n
        },
        forall|i: int|
            0 <= i < last_texts(v, n).len() ==> #[trigger] last_texts(v, n)[i] == v[v.len()
                - last_texts(v, n).len() + i],
{
}

/// A process is taken for the runner only where it lives, its executable fits or cannot be told, its
/// arguments are those of a runner, and no other runner id stands in them; and in all those cases.
pub proof fn runners_are_recognised(e: Evidence, wanted: Option<Seq<char>>)
    ensures
        is_runner(e, wanted) ==> e.alive,
        is_runner(e, wanted) ==> !(e.exe is Unreadable),
        e.exe is Path && !process::names_amp(e.exe->Path_0@) ==> !is_runner(e, wanted),
        is_runner(e, wanted) ==> process::amp_process(text::strings(e.args@)) is Some,
        ({
            let p = process::amp_process(text::strings(e.args@));
            let fits = e.exe is Untold || e.exe is Path && process::names_amp(e.exe->Path_0@);
            &&& is_runner(e, wanted) && wanted is Some && p->0.runner_id is Some
                ==> text::same_but_case(wanted->0, p->0.runner_id->0)
            &&& e.alive && fits && p is Some && (wanted is None || p->0.runner_id is None
                || text::same_but_case(wanted->0, p->0.runner_id->0)) ==> is_runner(e, wanted)
        }),
{
}

proof fn lemma_good_records_add(a: Seq<Witnessed>, w: Witnessed, but: Option<u32>)
    ensures
        good_records(a.push(w), but) == if still_good(w) && but != Some(w.record.pid) {
            good_records(a, but).push(w.record@)
        } else {
            good_records(a, but)
        },
{
    assert(a.push(w).drop_last() =~= a);
}

/// Of the recorded starts those stay whose process is still a living runner, in their order, but for
/// the one that is left out.
pub proof fn records_need_a_living_runner(a: Seq<Witnessed>, w: Witnessed, but: Option<u32>)
    ensures
        !w.evidence.alive ==> good_records(a.push(w), but) == good_records(a, but),
        but == Some(w.record.pid) ==> good_records(a.push(w), but) == good_records(a, but),
        looks_like_runner(w.evidence) && but != Some(w.record.pid) ==> good_records(a.push(w), but)
            == good_records(a, but).push(w.record@),
        good_records(Seq::empty(), but).len() == 0,
{
    lemma_good_records_add(a, w, but);
}

/// A recorded start stands for a process of its process id and its runner id, in its directory.
pub proof fn records_stand_for_processes(v: Seq<SpawnView>, i: int)
    requires
        0 <= i < v.len(),
    ensures
        recorded_processes(v).len() == v.len(),
        recorded_processes(v)[i].pid == v[i].pid,
        recorded_processes(v)[i].runner_id == v[i].runner_id,
        recorded_processes(v)[i].cwd == Some(v[i].cwd),
        recorded_processes(v)[i].extra_dirs.len() == 0,
{
}

/// A launch is the one of a process id where it is the latest one saved for it, and that of a runner id
/// where it is the latest one with that id, in any case of letters; the process id goes first.
pub proof fn the_latest_launch_counts(v: Seq<LaunchView>, s: LaunchView, r: RunnerView)
    ensures
        r.pid == Some(s.pid) ==> restart_spec(v.push(s), r) == Some(s),
        r.pid is Some && spec_of_pid(v, r.pid->0) is Some && s.pid != r.pid->0 ==> restart_spec(
            v.push(s),
            r,
        ) == restart_spec(v, r),
        (r.pid is None || spec_of_pid(v.push(s), r.pid->0) is None) && r.id.len() > 0
            && s.options.runner_id is Some && !text::blank(s.options.runner_id->0)
            && text::same_but_case(text::trim(s.options.runner_id->0), r.id) ==> restart_spec(
            v.push(s),
            r,
        ) == Some(s),
        r.pid != Some(s.pid) && (s.options.runner_id is None || text::blank(s.options.runner_id->0)
            || !text::same_but_case(text::trim(s.options.runner_id->0), r.id)) ==> restart_spec(
            v.push(s),
            r,
        ) == restart_spec(v, r),
        restart_spec(Seq::empty(), r) is None,
        r.pid is None && r.id.len() == 0 ==> restart_spec(v, r) is None,
{
    assert(v.push(s).drop_last() =~= v);
    text::blank_values_are_none(s.options.runner_id);
}

/// Saving a launch drops those of its process id and of its runner id, and keeps the others in their
/// order.
pub proof fn saving_replaces_its_own_launch(v: Seq<LaunchView>, x: LaunchView, s: LaunchView)
    ensures
        x.pid == s.pid ==> other_launches(v.push(x), s) == other_launches(v, s),
        x.pid != s.pid && (s.options.runner_id is None || text::blank(s.options.runner_id->0)
            || x.options.runner_id is None || text::blank(x.options.runner_id->0))
            ==> other_launches(v.push(x), s) == other_launches(v, s).push(x),
        x.pid != s.pid && s.options.runner_id is Some && !text::blank(s.options.runner_id->0)
            && x.options.runner_id is Some && !text::blank(x.options.runner_id->0)
            ==> other_launches(v.push(x), s) == if text::same_but_case(
            text::trim(x.options.runner_id->0),
            text::trim(s.options.runner_id->0),
        ) {
            other_launches(v, s)
        } else {
            other_launches(v, s).push(x)
        },
        other_launches(Seq::empty(), s).len() == 0,
{
    assert(v.push(x).drop_last() =~= v);
    text::blank_values_are_none(s.options.runner_id);
    text::blank_values_are_none(x.options.runner_id);
}

/// A launch can be used again where its directory is there and its runner id, if it has one, can be
/// one; the error says which of them fails.
pub proof fn launches_are_checked(s: LaunchView, cwd_is_dir: bool)
    ensures
        !cwd_is_dir ==> spec_fault(s, cwd_is_dir) == Some(LaunchErrorView::NoDirectory(s.cwd)),
        cwd_is_dir && (s.options.runner_id is None || text::blank(s.options.runner_id->0))
            ==> spec_fault(s, cwd_is_dir) is None,
        cwd_is_dir && s.options.runner_id is Some && !text::blank(s.options.runner_id->0) ==> (
        spec_fault(s, cwd_is_dir) is None <==> runner::plausible_id(s.options.runner_id->0)),
        cwd_is_dir && spec_fault(s, cwd_is_dir) is Some ==> spec_fault(s, cwd_is_dir) == Some(
            LaunchErrorView::BadId(text::trim(s.options.runner_id->0)),
        ),
{
    text::blank_values_are_none(s.options.runner_id);
    if s.options.runner_id is Some {
        runner::spaces_around_ids_do_not_count(s.options.runner_id->0);
    }
}

/// A started runner is in a list that has its process id or its runner id, in any case of letters; and
/// only there.
pub proof fn lists_have_runners_by_either_id(
    list: Seq<RunnerView>,
    pid: u32,
    runner_id: Option<Seq<char>>,
    i: int,
)
    ensures
        0 <= i < list.len() && list[i].pid == Some(pid) ==> in_list(list, pid, runner_id),
        0 <= i < list.len() && runner_id is Some && !text::blank(runner_id->0)
            && text::same_but_case(list[i].id, text::trim(runner_id->0)) ==> in_list(
            list,
            pid,
            runner_id,
        ),
        in_list(list, pid, runner_id) ==> exists|j: int|
            0 <= j < list.len() && ((#[trigger] list[j]).pid == Some(pid) || runner_id is Some
                && !text::blank(runner_id->0) && text::same_but_case(
                list[j].id,
                text::trim(runner_id->0),
            )),
{
    text::blank_values_are_none(runner_id);
    lemma_pid_found(list, pid, 0);
    if runner_id is Some {
        process::lemma_with_id(list, text::trim(runner_id->0), 0);
    }
    if in_list(list, pid, runner_id) {
        let j = if process::with_pid_from(list, pid, 0) is Some {
            process::with_pid_from(list, pid, 0)->0
        } else {
            process::with_id_from(list, text::trim(runner_id->0), 0)->0
        };
        assert(list[j].pid == Some(pid) || runner_id is Some && text::same_but_case(
            list[j].id,
            text::trim(runner_id->0),
        ));
    }
}

proof fn lemma_pid_found(list: Seq<RunnerView>, pid: u32, i: int)
    requires
        0 <= i,
    ensures
        match process::with_pid_from(list, pid, i) {
            Some(k) => i <= k < list.len() && list[k].pid == Some(pid),
            None => forall|j: int| i <= j < list.len() ==> (#[trigger] list[j]).pid != Some(pid),
        },
    decreases list.len() - i,
{
    if i < list.len() && list[i].pid != Some(pid) {
        lemma_pid_found(list, pid, i + 1);
    }
}

/// A log asks for a login where any of four phrases stands in it, in any case of letters, and only
/// there.
pub proof fn logins_are_noticed(log: Seq<char>, i: int)
    ensures
        ({
            let low = text::lower_text(log);
            &&& text::occurs_at(low, "amp login"@, i) ==> asks_for_login(log)
            &&& text::occurs_at(low, "not logged in"@, i) ==> asks_for_login(log)
            &&& text::occurs_at(low, "log in to"@, i) ==> asks_for_login(log)
            &&& text::occurs_at(low, "waiting for login"@, i) ==> asks_for_login(log)
            &&& asks_for_login(log) ==> exists|j: int|
                #![trigger text::occurs_at(low, "amp login"@, j)]
                text::occurs_at(low, "amp login"@, j) || text::occurs_at(low, "not logged in"@, j)
                    || text::occurs_at(low, "log in to"@, j) || text::occurs_at(
                    low,
                    "waiting for login"@,
                    j,
                )
        }),
{
    let low = text::lower_text(log);
    text::lemma_find(low, "amp login"@, 0);
    text::lemma_find(low, "not logged in"@, 0);
    text::lemma_find(low, "log in to"@, 0);
    text::lemma_find(low, "waiting for login"@, 0);
    if asks_for_login(log) {
        let j = if text::find_text(low, "amp login"@) is Some {
            text::find_text(low, "amp login"@)->0
        } else if text::find_text(low, "not logged in"@) is Some {
            text::find_text(low, "not logged in"@)->0
        } else if text::find_text(low, "log in to"@) is Some {
            text::find_text(low, "log in to"@)->0
        } else {
            text::find_text(low, "waiting for login"@)->0
        };
        assert(text::occurs_at(low, "amp login"@, j) || text::occurs_at(low, "not logged in"@, j)
            || text::occurs_at(low, "log in to"@, j) || text::occurs_at(
            low,
            "waiting for login"@,
            j,
        ));
    }
}

/// A look at a started process tells where it is listed, waits for a login or has exited, in that
/// order of weight but for the last, which goes first; and tells nothing before the last look else.
pub proof fn looks_tell_the_health(alive: bool, listed: bool, log: Seq<char>, last_look: bool)
    ensures
        alive && listed ==> health_of(alive, listed, log, last_look) == Some(HealthView::Listed),
        alive && !listed && asks_for_login(log) ==> health_of(alive, listed, log, last_look)
            == Some(HealthView::NeedsLogin),
        alive && !listed && !asks_for_login(log) && last_look ==> health_of(
            alive,
            listed,
            log,
            last_look,
        ) == Some(HealthView::Alive),
        alive && !listed && !asks_for_login(log) && !last_look ==> health_of(
            alive,
            listed,
            log,
            last_look,
        ) is None,
{
}

/// The message about a launch holds what it is about.
pub proof fn launch_messages_name_their_cause(s: Seq<char>)
    ensures
        text::has_suffix(launch_error_text(LaunchErrorView::Unknown(s)), s),
        text::has_suffix(launch_error_text(LaunchErrorView::NoDirectory(s)), s),
        text::holds(launch_error_text(LaunchErrorView::BadId(s)), s),
{
    text::prefixes_and_rests(s, "no saved launch spec for "@, s);
    text::prefixes_and_rests(s, "working directory does not exist: "@, s);
    text::lemma_holds("runner-id `"@, s, "` is not a hostname"@);
}

/// The last words of a log are its last line that is not blank, trimmed.
pub proof fn last_words_come_last(a: Seq<char>, rest: Seq<char>)
    requires
        !a.contains('\n'),
    ensures
        text::nonblank_texts(text::lines_of(rest)).len() > 0 ==> last_words(a.push('\n') + rest)
            == last_words(rest),
        text::nonblank_texts(text::lines_of(rest)).len() == 0 && !text::blank(
            text::without_cr(a),
        ) ==> last_words(a.push('\n') + rest) == text::trim(text::without_cr(a)),
        !text::blank(a) ==> last_words(a) == text::trim(a),
        last_words(Seq::empty()).len() == 0,
{
    text::lines_end_at_newlines(a, rest);
    let w = text::without_cr(a);
    let v = text::nonblank_texts(text::lines_of(rest));
    text::lemma_nonblank_front(w, text::lines_of(rest));
    if v.len() > 0 {
        assert((seq![text::trim(w)] + v).last() == v.last());
    } else {
        assert((seq![text::trim(w)] + v).last() == text::trim(w));
    }
    let none = Seq::<Seq<char>>::empty();
    text::lemma_nonblank_front(a, none);
    assert(seq![a] + none =~= seq![a]);
    assert(text::nonblank_texts(none) =~= none);
}

} // verus!
