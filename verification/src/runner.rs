//! Runners, the local processes behind them, and the options that a runner is started with.
use vstd::prelude::*;
use crate::text;
use crate::text::{alphanumeric, begins_with, chars_of, trimmed};

verus! {

/// Options used when spawning `amp --no-tui`.
#[derive(Debug, Clone, PartialEq, Eq)]
pub struct StartOptions {
    pub runner_id: Option<String>,
    pub mode: Option<String>,
    pub log_level: Option<String>,
    pub settings_file: Option<String>,
    pub mcp_config: Option<String>,
    pub visibility: Option<String>,
    pub remote_control_terminal: bool,
    pub extra_dirs: Vec<String>,
    pub discover_dirs: bool,
    pub amp_env: bool,
}

/// What [`StartOptions`] hold.
#[verifier::ext_equal]
pub struct OptionsView {
    pub runner_id: Option<Seq<char>>,
    pub mode: Option<Seq<char>>,
    pub log_level: Option<Seq<char>>,
    pub settings_file: Option<Seq<char>>,
    pub mcp_config: Option<Seq<char>>,
    pub visibility: Option<Seq<char>>,
    pub remote_control_terminal: bool,
    pub extra_dirs: Seq<Seq<char>>,
    pub discover_dirs: bool,
    pub amp_env: bool,
}

impl View for StartOptions {
    type V = OptionsView;

    open spec fn view(&self) -> OptionsView {
        OptionsView {
            runner_id: text::opt_text(self.runner_id),
            mode: text::opt_text(self.mode),
            log_level: text::opt_text(self.log_level),
            settings_file: text::opt_text(self.settings_file),
            mcp_config: text::opt_text(self.mcp_config),
            visibility: text::opt_text(self.visibility),
            remote_control_terminal: self.remote_control_terminal,
            extra_dirs: text::strings(self.extra_dirs@),
            discover_dirs: self.discover_dirs,
            amp_env: self.amp_env,
        }
    }
}

/// No flag set and no value given.
pub open spec fn no_options() -> OptionsView {
    OptionsView {
        runner_id: None,
        mode: None,
        log_level: None,
        settings_file: None,
        mcp_config: None,
        visibility: None,
        remote_control_terminal: false,
        extra_dirs: Seq::empty(),
        discover_dirs: false,
        amp_env: false,
    }
}

impl Default for StartOptions {
    fn default() -> (r: StartOptions)
        ensures
            r@ == no_options(),
    {
        StartOptions {
            runner_id: None,
            mode: None,
            log_level: None,
            settings_file: None,
            mcp_config: None,
            visibility: None,
            remote_control_terminal: false,
            extra_dirs: Vec::new(),
            discover_dirs: false,
            amp_env: false,
        }
    }
}

impl StartOptions {
    /// A copy.
    pub fn duplicate(&self) -> (r: StartOptions)
        ensures
            r@ == self@,
    {
        StartOptions {
            runner_id: self.runner_id.clone(),
            mode: self.mode.clone(),
            log_level: self.log_level.clone(),
            settings_file: self.settings_file.clone(),
            mcp_config: self.mcp_config.clone(),
            visibility: self.visibility.clone(),
            remote_control_terminal: self.remote_control_terminal,
            extra_dirs: self.extra_dirs.clone(),
            discover_dirs: self.discover_dirs,
            amp_env: self.amp_env,
        }
    }
}

/// A runner discovered from `amp runner list` and/or local process scan.
#[derive(Debug, Clone, PartialEq, Eq)]
pub struct Runner {
    pub id: String,
    pub pid: Option<u32>,
    pub cwd: Option<String>,
    pub dirs: Vec<String>,
    pub from_amp_list: bool,
    pub from_local_scan: bool,
}

/// What a [`Runner`] holds.
#[verifier::ext_equal]
pub struct RunnerView {
    pub id: Seq<char>,
    pub pid: Option<u32>,
    pub cwd: Option<Seq<char>>,
    pub dirs: Seq<Seq<char>>,
    pub from_amp_list: bool,
    pub from_local_scan: bool,
}

impl View for Runner {
    type V = RunnerView;

    open spec fn view(&self) -> RunnerView {
        RunnerView {
            id: self.id@,
            pid: self.pid,
            cwd: text::opt_text(self.cwd),
            dirs: text::strings(self.dirs@),
            from_amp_list: self.from_amp_list,
            from_local_scan: self.from_local_scan,
        }
    }
}

/// What a list of runners holds.
pub open spec fn runners(v: Seq<Runner>) -> Seq<RunnerView> {
    Seq::new(v.len(), |i: int| v[i]@)
}

/// The name shown for a runner id.
pub open spec fn shown_id(id: Seq<char>) -> Seq<char> {
    if id.len() == 0 {
        "(unnamed)"@
    } else {
        id
    }
}

/// The `--runner-id` value for a runner id.
pub open spec fn id_flag(id: Seq<char>) -> Option<Seq<char>> {
    if id.len() == 0 {
        None
    } else {
        Some(id)
    }
}

impl Runner {
    /// The id, or a placeholder where there is none.
    pub fn display_id(&self) -> (r: &str)
        ensures
            r@ == shown_id(self.id@),
    {
        if self.id.as_str().is_empty() {
            "(unnamed)"
        } else {
            self.id.as_str()
        }
    }

    /// The value for `--runner-id`, where there is one.
    pub fn runner_id_flag(&self) -> (r: Option<&str>)
        ensures
            text::opt_str(r) == id_flag(self.id@),
    {
        if self.id.as_str().is_empty() {
            None
        } else {
            Some(self.id.as_str())
        }
    }

    /// A copy.
    pub fn duplicate(&self) -> (r: Runner)
        ensures
            r@ == self@,
    {
        Runner {
            id: self.id.clone(),
            pid: self.pid,
            cwd: self.cwd.clone(),
            dirs: self.dirs.clone(),
            from_amp_list: self.from_amp_list,
            from_local_scan: self.from_local_scan,
        }
    }
}

/// Local `amp --no-tui` process found on this machine.
#[derive(Debug, Clone, PartialEq, Eq)]
pub struct LocalProcess {
    pub pid: u32,
    pub runner_id: Option<String>,
    pub cwd: Option<String>,
    pub extra_dirs: Vec<String>,
}

/// What a [`LocalProcess`] holds.
#[verifier::ext_equal]
pub struct ProcessView {
    pub pid: u32,
    pub runner_id: Option<Seq<char>>,
    pub cwd: Option<Seq<char>>,
    pub extra_dirs: Seq<Seq<char>>,
}

impl View for LocalProcess {
    type V = ProcessView;

    open spec fn view(&self) -> ProcessView {
        ProcessView {
            pid: self.pid,
            runner_id: text::opt_text(self.runner_id),
            cwd: text::opt_text(self.cwd),
            extra_dirs: text::strings(self.extra_dirs@),
        }
    }
}

/// What a list of processes holds.
pub open spec fn processes(v: Seq<LocalProcess>) -> Seq<ProcessView> {
    Seq::new(v.len(), |i: int| v[i]@)
}

/// The longest runner id, in bytes.
pub const MAX_RUNNER_ID: usize = 253;

/// A character of a hostname.
pub open spec fn is_hostname_char(c: char) -> bool {
    text::is_alphanumeric(c) || c == '-' || c == '.'
}

/// A hostname-style id: not blank, no hyphen at either end, nothing but ASCII letters, digits,
/// hyphens and dots, and not too long. White space around it is ignored.
pub open spec fn plausible_id(id: Seq<char>) -> bool {
    let t = text::trim(id);
    &&& 0 < t.len() <= MAX_RUNNER_ID
    &&& t[0] != '-'
    &&& t.last() != '-'
    &&& forall|i: int| 0 <= i < t.len() ==> is_hostname_char(#[trigger] t[i])
}

/// Light hostname-style check for `--runner-id` (Amp requires a valid hostname).
///
/// The length limit counts bytes; only ASCII passes, so that it counts characters.
pub fn is_plausible_runner_id(id: &str) -> (r: bool)
    ensures
        r == plausible_id(id@),
{
    let chars = chars_of(id);
    let t = trimmed(&chars);
    if t.len() == 0 || t.len() > MAX_RUNNER_ID || begins_with(t, '-') || t[t.len() - 1] == '-' {
        return false;
    }
    for i in 0..t.len()
        invariant
            t@ == text::trim(id@),
            forall|j: int| 0 <= j < i ==> is_hostname_char(#[trigger] t@[j]),
    {
        let c = t[i];
        if !(alphanumeric(c) || c == '-' || c == '.') {
            assert(!is_hostname_char(t@[i as int]));
            return false;
        }
    }
    true
}

/// A runner id can be one where, without the space around it, it has 1 to 253 letters, digits, dashes
/// and dots, and neither starts nor ends with a dash; and only then.
pub proof fn ids_look_like_host_names(id: Seq<char>, i: int)
    requires
        id.len() > 0,
        !text::is_space(id[0]),
        !text::is_space(id.last()),
    ensures
        plausible_id(id) ==> id.len() <= 253 && id[0] != '-' && id.last() != '-',
        plausible_id(id) && 0 <= i < id.len() ==> 'a' <= id[i] <= 'z' || 'A' <= id[i] <= 'Z' || '0'
            <= id[i] <= '9' || id[i] == '-' || id[i] == '.',
        id.len() <= 253 && id[0] != '-' && id.last() != '-' && (forall|j: int|
            0 <= j < id.len() ==> 'a' <= #[trigger] id[j] <= 'z' || 'A' <= id[j] <= 'Z' || '0'
                <= id[j] <= '9' || id[j] == '-' || id[j] == '.') ==> plausible_id(id),
{
    let none = Seq::<char>::empty();
    text::trimming_ignores_spaces_around(none, id, none);
    assert(none + id + none =~= id);
    if plausible_id(id) && 0 <= i < id.len() {
        assert(is_hostname_char(id[i]));
    }
}

/// A blank id cannot be one, and the space around an id makes no difference.
pub proof fn spaces_around_ids_do_not_count(id: Seq<char>)
    ensures
        text::blank(id) ==> !plausible_id(id),
        plausible_id(id) <==> plausible_id(text::trim(id)),
{
    let cut = text::trimming_drops_only_spaces(id);
    text::trim_is_stable(id);
}

/// A runner is shown by its id, and told to Amp by it; one without an id is shown as unnamed and not
/// told by any.
pub proof fn runners_go_by_their_ids(id: Seq<char>)
    ensures
        id.len() > 0 ==> shown_id(id) == id && id_flag(id) == Some(id),
        id.len() == 0 ==> shown_id(id) == "(unnamed)"@ && id_flag(id) is None,
{
}

} // verus!
