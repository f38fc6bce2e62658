//! Persistent lazyamp preferences (`$XDG_CONFIG_HOME/lazyamp/config.toml`).
use vstd::prelude::*;
use crate::args;
use crate::document;
use crate::document::{
    can_write, error_under, lookup, parse_toml, type_error, write_toml, Toml, TomlView, Written,
};
use crate::path;
use crate::path::{join_path, parent};
use crate::runner;
use crate::runner::{OptionsView, StartOptions};
use crate::text;
use crate::text::{
    borrowed, chars_of, nonempty, same_ignoring_case, same_str, three, trimmed, two, write_decimal,
};

verus! {

/// Maximum remembered working directories.
pub const MAX_RECENT_DIRS: usize = 12;

/// Built-in Amp modes.
pub const MODES: [&'static str; 4] = ["low", "medium", "high", "ultra"];

/// Log levels of Amp.
pub const LOG_LEVELS: [&'static str; 5] = ["debug", "info", "warn", "error", "audit"];

/// Visibilities of a thread.
pub const VISIBILITIES: [&'static str; 4] = ["private", "unlisted", "workspace", "group"];

/// Default flags applied when starting `amp --no-tui`.
#[derive(Debug, Clone, PartialEq, Eq)]
pub struct StartDefaults {
    pub runner_id: Option<String>,
    /// Built-in Amp modes: `low`, `medium`, `high`, `ultra`.
    pub mode: Option<String>,
    /// `debug`, `info`, `warn`, `error`, `audit`.
    pub log_level: Option<String>,
    pub settings_file: Option<String>,
    pub mcp_config: Option<String>,
    /// `private`, `unlisted`, `workspace`, `group`.
    pub visibility: Option<String>,
    pub remote_control_terminal: bool,
    pub discover_dirs: bool,
    pub amp_env: bool,
}

/// What [`StartDefaults`] hold.
#[verifier::ext_equal]
pub struct DefaultsView {
    pub runner_id: Option<Seq<char>>,
    pub mode: Option<Seq<char>>,
    pub log_level: Option<Seq<char>>,
    pub settings_file: Option<Seq<char>>,
    pub mcp_config: Option<Seq<char>>,
    pub visibility: Option<Seq<char>>,
    pub remote_control_terminal: bool,
    pub discover_dirs: bool,
    pub amp_env: bool,
}

impl View for StartDefaults {
    type V = DefaultsView;

    open spec fn view(&self) -> DefaultsView {
        DefaultsView {
            runner_id: text::opt_text(self.runner_id),
            mode: text::opt_text(self.mode),
            log_level: text::opt_text(self.log_level),
            settings_file: text::opt_text(self.settings_file),
            mcp_config: text::opt_text(self.mcp_config),
            visibility: text::opt_text(self.visibility),
            remote_control_terminal: self.remote_control_terminal,
            discover_dirs: self.discover_dirs,
            amp_env: self.amp_env,
        }
    }
}

/// No default at all.
pub open spec fn no_defaults() -> DefaultsView {
    DefaultsView {
        runner_id: None,
        mode: None,
        log_level: None,
        settings_file: None,
        mcp_config: None,
        visibility: None,
        remote_control_terminal: false,
        discover_dirs: false,
        amp_env: false,
    }
}

impl Default for StartDefaults {
    fn default() -> (r: StartDefaults)
        ensures
            r@ == no_defaults(),
    {
        StartDefaults {
            runner_id: None,
            mode: None,
            log_level: None,
            settings_file: None,
            mcp_config: None,
            visibility: None,
            remote_control_terminal: false,
            discover_dirs: false,
            amp_env: false,
        }
    }
}

/// The start options that defaults stand for: blank values are none, and no directory is served
/// beyond the working directory.
pub open spec fn options_of(d: DefaultsView) -> OptionsView {
    OptionsView {
        runner_id: text::nonblank(d.runner_id),
        mode: text::nonblank(d.mode),
        log_level: text::nonblank(d.log_level),
        settings_file: text::nonblank(d.settings_file),
        mcp_config: text::nonblank(d.mcp_config),
        visibility: text::nonblank(d.visibility),
        remote_control_terminal: d.remote_control_terminal,
        extra_dirs: Seq::empty(),
        discover_dirs: d.discover_dirs,
        amp_env: d.amp_env,
    }
}

impl StartDefaults {
    /// Convert stored defaults into Amp start options.
    pub fn to_start_options(&self) -> (r: StartOptions)
        ensures
            r@ == options_of(self@),
    {
        let r = StartOptions {
            runner_id: nonempty(borrowed(&self.runner_id)),
            mode: nonempty(borrowed(&self.mode)),
            log_level: nonempty(borrowed(&self.log_level)),
            settings_file: nonempty(borrowed(&self.settings_file)),
            mcp_config: nonempty(borrowed(&self.mcp_config)),
            visibility: nonempty(borrowed(&self.visibility)),
            remote_control_terminal: self.remote_control_terminal,
            extra_dirs: Vec::new(),
            discover_dirs: self.discover_dirs,
            amp_env: self.amp_env,
        };
        assert(r@ == options_of(self@));
        r
    }

    /// A copy.
    pub fn duplicate(&self) -> (r: StartDefaults)
        ensures
            r@ == self@,
    {
        StartDefaults {
            runner_id: self.runner_id.clone(),
            mode: self.mode.clone(),
            log_level: self.log_level.clone(),
            settings_file: self.settings_file.clone(),
            mcp_config: self.mcp_config.clone(),
            visibility: self.visibility.clone(),
            remote_control_terminal: self.remote_control_terminal,
            discover_dirs: self.discover_dirs,
            amp_env: self.amp_env,
        }
    }
}

/// On-disk configuration.
#[derive(Debug, Clone, PartialEq, Eq)]
pub struct Config {
    pub defaults: StartDefaults,
    /// Recently used directories, newest first.
    pub recent_dirs: Vec<String>,
}

/// What a [`Config`] holds.
#[verifier::ext_equal]
pub struct ConfigView {
    pub defaults: DefaultsView,
    pub recent_dirs: Seq<Seq<char>>,
}

impl View for Config {
    type V = ConfigView;

    open spec fn view(&self) -> ConfigView {
        ConfigView { defaults: self.defaults@, recent_dirs: text::strings(self.recent_dirs@) }
    }
}

/// A configuration that nothing was set in.
pub open spec fn no_config() -> ConfigView {
    ConfigView { defaults: no_defaults(), recent_dirs: Seq::empty() }
}

impl Default for Config {
    fn default() -> (r: Config)
        ensures
            r@ == no_config(),
    {
        let r = Config { defaults: StartDefaults::default(), recent_dirs: Vec::new() };
        assert(r@ == no_config());
        r
    }
}

// ---------------------------------------------------------------------------------------------
// Places

/// `dirs::config_dir`: the configuration directory of the user, where there is one. It depends on
/// the environment, so nothing is said of it.
#[verifier::external_body]
fn user_config_dir() -> (r: Option<String>)
{
    dirs::config_dir().map(|p| p.to_string_lossy().into_owned())
}

/// `dirs::state_dir`: the state directory of the user, where there is one. It depends on the
/// environment, so nothing is said of it.
#[verifier::external_body]
fn user_state_dir() -> (r: Option<String>)
{
    dirs::state_dir().map(|p| p.to_string_lossy().into_owned())
}

/// `dirs::data_local_dir`: the local data directory of the user, where there is one. It depends on
/// the environment, so nothing is said of it.
#[verifier::external_body]
fn user_data_dir() -> (r: Option<String>)
{
    dirs::data_local_dir().map(|p| p.to_string_lossy().into_owned())
}

/// `dirs::home_dir`: the home directory of the user, where there is one. It depends on the
/// environment, so nothing is said of it.
#[verifier::external_body]
pub(crate) fn user_home_dir() -> (r: Option<String>)
{
    dirs::home_dir().map(|p| p.to_string_lossy().into_owned())
}

/// The path of the config file under a config home.
pub open spec fn config_path_text(config_dir: Option<Seq<char>>) -> Seq<char> {
    let base = match config_dir {
        Some(d) => d,
        None => ".config"@,
    };
    path::joined_path(path::joined_path(base, "lazyamp"@), "config.toml"@)
}

/// The state directory under a state home.
pub open spec fn state_dir_text(state_home: Option<Seq<char>>) -> Seq<char> {
    let base = match state_home {
        Some(d) => d,
        None => path::joined_path(".local"@, "state"@),
    };
    path::joined_path(base, "lazyamp"@)
}

/// Resolve the config file path using the process XDG/config directory.
pub fn config_path() -> (r: String)
    ensures
        exists|dir: Option<Seq<char>>| r@ == #[trigger] config_path_text(dir),
{
    let dir = user_config_dir();
    let r = config_path_from(borrowed(&dir));
    assert(r@ == config_path_text(text::opt_text(dir)));
    r
}

/// Resolve the config file under an explicit config home.
pub fn config_path_from(config_dir: Option<&str>) -> (r: String)
    ensures
        r@ == config_path_text(text::opt_str(config_dir)),
{
    let base = match config_dir {
        Some(d) => d,
        None => ".config",
    };
    join_path(join_path(base, "lazyamp").as_str(), "config.toml")
}

/// The home of the state: the state home, else the local data home.
pub open spec fn state_home_of(
    state: Option<Seq<char>>,
    data: Option<Seq<char>>,
) -> Option<Seq<char>> {
    if state is Some {
        state
    } else {
        data
    }
}

/// The home of the state: the state home, else the local data home.
pub fn state_home(state: Option<&str>, data: Option<&str>) -> (r: Option<String>)
    ensures
        text::opt_text(r) == state_home_of(text::opt_str(state), text::opt_str(data)),
{
    match state {
        Some(d) => Some(d.to_owned()),
        None => match data {
            Some(d) => Some(d.to_owned()),
            None => None,
        },
    }
}

/// Directory for spawn-PID registry and runner logs.
pub fn state_dir() -> (r: String)
    ensures
        exists|state: Option<Seq<char>>, data: Option<Seq<char>>|
            r@ == state_dir_text(#[trigger] state_home_of(state, data)),
{
    let state = user_state_dir();
    let data = user_data_dir();
    let home = state_home(borrowed(&state), borrowed(&data));
    let r = state_dir_from(borrowed(&home));
    assert(r@ == state_dir_text(state_home_of(text::opt_text(state), text::opt_text(data))));
    r
}

/// Resolve the state directory under an explicit state home.
pub fn state_dir_from(state_home: Option<&str>) -> (r: String)
    ensures
        r@ == state_dir_text(text::opt_str(state_home)),
{
    match state_home {
        Some(d) => join_path(d, "lazyamp"),
        None => join_path(join_path(".local", "state").as_str(), "lazyamp"),
    }
}

// ---------------------------------------------------------------------------------------------
// Normal form

/// The texts that are not blank.
pub open spec fn not_blank(v: Seq<Seq<char>>) -> Seq<Seq<char>>
    decreases v.len(),
{
    if v.len() == 0 {
        Seq::empty()
    } else if text::trim(v.last()).len() == 0 {
        not_blank(v.drop_last())
    } else {
        not_blank(v.drop_last()).push(v.last())
    }
}

/// At most as many directories as are remembered.
pub open spec fn capped(v: Seq<Seq<char>>) -> Seq<Seq<char>> {
    if v.len() > MAX_RECENT_DIRS {
        v.take(MAX_RECENT_DIRS as int)
    } else {
        v
    }
}

/// Defaults without blank values.
pub open spec fn normal_defaults(d: DefaultsView) -> DefaultsView {
    DefaultsView {
        runner_id: text::nonblank(d.runner_id),
        mode: text::nonblank(d.mode),
        log_level: text::nonblank(d.log_level),
        settings_file: text::nonblank(d.settings_file),
        mcp_config: text::nonblank(d.mcp_config),
        visibility: text::nonblank(d.visibility),
        ..d
    }
}

/// A configuration without blank values and with no more directories than are remembered.
pub open spec fn normal_config(c: ConfigView) -> ConfigView {
    ConfigView {
        defaults: normal_defaults(c.defaults),
        recent_dirs: capped(not_blank(c.recent_dirs)),
    }
}

fn drop_blank(v: &Vec<String>) -> (r: Vec<String>)
    ensures
        text::strings(r@) == not_blank(text::strings(v@)),
{
    let ghost all = text::strings(v@);
    let mut out: Vec<String> = Vec::new();
    for i in 0..v.len()
        invariant
            all == text::strings(v@),
            text::strings(out@) == not_blank(all.take(i as int)),
    {
        assert(all.take(i + 1).drop_last() == all.take(i as int));
        assert(all[i as int] == v@[i as int]@);
        if trimmed(&chars_of(v[i].as_str())).len() > 0 {
            let ghost before = text::strings(out@);
            out.push(v[i].clone());
            assert(text::strings(out@) == before.push(all[i as int]));
        }
    }
    assert(all.take(all.len() as int) == all);
    out
}

fn cap_recents(v: &mut Vec<String>)
    ensures
        text::strings(final(v)@) == capped(text::strings(old(v)@)),
{
    let ghost all = text::strings(v@);
    if v.len() > MAX_RECENT_DIRS {
        v.truncate(MAX_RECENT_DIRS);
        assert(text::strings(v@) == all.take(MAX_RECENT_DIRS as int));
    }
}

impl Config {
    fn normalized(&self) -> (r: Config)
        ensures
            r@ == normal_config(self@),
    {
        let d = &self.defaults;
        let mut recent_dirs = drop_blank(&self.recent_dirs);
        cap_recents(&mut recent_dirs);
        let r = Config {
            defaults: StartDefaults {
                runner_id: nonempty(borrowed(&d.runner_id)),
                mode: nonempty(borrowed(&d.mode)),
                log_level: nonempty(borrowed(&d.log_level)),
                settings_file: nonempty(borrowed(&d.settings_file)),
                mcp_config: nonempty(borrowed(&d.mcp_config)),
                visibility: nonempty(borrowed(&d.visibility)),
                remote_control_terminal: d.remote_control_terminal,
                discover_dirs: d.discover_dirs,
                amp_env: d.amp_env,
            },
            recent_dirs,
        };
        r
    }
}

// ---------------------------------------------------------------------------------------------
// Reading

/// The text of a value: a string, or a date or a time as it is written.
pub open spec fn leaf_text(v: TomlView) -> Option<Seq<char>> {
    match v {
        TomlView::Text(s) => Some(s),
        TomlView::Datetime(s) => Some(s),
        _ => None,
    }
}

/// The value of a field that may be missing; `None` where it is no text.
pub open spec fn opt_field(v: Option<TomlView>) -> Option<Option<Seq<char>>> {
    match v {
        Some(x) => match leaf_text(x) {
            Some(s) => Some(Some(s)),
            None => None,
        },
        None => Some(None),
    }
}

/// The value of a switch that may be missing; `None` where it is no boolean.
pub open spec fn bool_field(v: Option<TomlView>) -> Option<bool> {
    match v {
        Some(TomlView::Boolean(b)) => Some(b),
        Some(_) => None,
        None => Some(false),
    }
}

/// The texts of the items; `None` where one is no text.
pub open spec fn item_texts(items: Seq<TomlView>) -> Option<Seq<Seq<char>>>
    decreases items.len(),
{
    if items.len() == 0 {
        Some(Seq::empty())
    } else {
        match (item_texts(items.drop_last()), leaf_text(items.last())) {
            (Some(front), Some(s)) => Some(front.push(s)),
            _ => None,
        }
    }
}

/// The list of directories; `None` where it is no array of texts.
pub open spec fn list_field(v: Option<TomlView>) -> Option<Seq<Seq<char>>> {
    match v {
        Some(TomlView::Array(items)) => item_texts(items),
        Some(_) => None,
        None => Some(Seq::empty()),
    }
}

/// Defaults by the values of their fields; `None` where a value has the wrong type.
pub open spec fn defaults_of(f: Seq<Option<TomlView>>) -> Option<DefaultsView> {
    match (
        opt_field(f[0]),
        opt_field(f[1]),
        opt_field(f[2]),
        opt_field(f[3]),
        opt_field(f[4]),
        opt_field(f[5]),
        bool_field(f[6]),
        bool_field(f[7]),
        bool_field(f[8]),
    ) {
        (
            Some(runner_id),
            Some(mode),
            Some(log_level),
            Some(settings_file),
            Some(mcp_config),
            Some(visibility),
            Some(remote_control_terminal),
            Some(discover_dirs),
            Some(amp_env),
        ) => Some(
            DefaultsView {
                runner_id,
                mode,
                log_level,
                settings_file,
                mcp_config,
                visibility,
                remote_control_terminal,
                discover_dirs,
                amp_env,
            },
        ),
        _ => None,
    }
}

/// The names of the fields of the defaults.
pub open spec fn default_keys() -> Seq<Seq<char>> {
    seq![
        "runner_id"@,
        "mode"@,
        "log_level"@,
        "settings_file"@,
        "mcp_config"@,
        "visibility"@,
        "remote_control_terminal"@,
        "discover_dirs"@,
        "amp_env"@,
    ]
}

/// The values of the fields by their position in an array.
pub open spec fn placed_fields(items: Seq<TomlView>) -> Seq<Option<TomlView>> {
    Seq::new(
        9,
        |i: int|
            if i < items.len() {
                Some(items[i])
            } else {
                None
            },
    )
}

/// The values of the fields: by name in a table, by position in an array.
pub open spec fn default_fields(v: Option<TomlView>) -> Option<Seq<Option<TomlView>>> {
    match v {
        Some(TomlView::Table(entries)) => Some(
            Seq::new(9, |i: int| document::entry(entries, default_keys()[i])),
        ),
        Some(TomlView::Array(items)) => if items.len() <= 9 {
            Some(placed_fields(items))
        } else {
            None
        },
        Some(_) => None,
        None => Some(Seq::new(9, |i: int| None)),
    }
}

/// The strings among the items.
pub open spec fn strings_among(items: Seq<TomlView>) -> Seq<Seq<char>>
    decreases items.len(),
{
    if items.len() == 0 {
        Seq::empty()
    } else {
        match items.last() {
            TomlView::Text(s) => strings_among(items.drop_last()).push(s),
            _ => strings_among(items.drop_last()),
        }
    }
}

/// The directories that stand among the defaults.
pub open spec fn misplaced_dirs(defaults: Option<TomlView>) -> Seq<Seq<char>> {
    match defaults {
        Some(TomlView::Table(entries)) => match document::entry(entries, "recent_dirs"@) {
            Some(TomlView::Array(items)) => strings_among(items),
            _ => Seq::empty(),
        },
        _ => Seq::empty(),
    }
}

/// The configuration that a document stands for; `None` where a value has the wrong type.
pub open spec fn config_of(t: TomlView) -> Option<ConfigView> {
    match t {
        TomlView::Table(entries) => {
            let d = document::entry(entries, "defaults"@);
            match (default_fields(d), list_field(document::entry(entries, "recent_dirs"@))) {
                (Some(fields), Some(dirs)) => match defaults_of(fields) {
                    Some(defaults) => Some(
                        normal_config(
                            ConfigView {
                                defaults,
                                recent_dirs: if dirs.len() == 0 {
                                    misplaced_dirs(d)
                                } else {
                                    dirs
                                },
                            },
                        ),
                    ),
                    None => None,
                },
                _ => None,
            }
        },
        _ => None,
    }
}

// ---------------------------------------------------------------------------------------------
// Faults of a document

/// The order in which the fields of a table are read: that of their names.
pub open spec fn name_order() -> Seq<usize> {
    seq![8usize, 7, 2, 4, 1, 6, 0, 3, 5]
}

/// The order in which the fields of an array are read: that of their places.
pub open spec fn place_order() -> Seq<usize> {
    seq![0usize, 1, 2, 3, 4, 5, 6, 7, 8]
}

/// What is wrong with the value of a field of the defaults: the first six are texts, the others
/// switches.
pub open spec fn field_fault(v: Option<TomlView>, k: int) -> Option<Seq<char>> {
    match v {
        Some(x) => if k < 6 && leaf_text(x) is None {
            Some(document::type_fault(x, "a string"@))
        } else if k >= 6 && !(x is Boolean) {
            Some(document::type_fault(x, "a boolean"@))
        } else {
            None
        },
        None => None,
    }
}

/// The first field of the wrong type, in an order from `i` on, and what is wrong with it.
pub open spec fn first_fault(f: Seq<Option<TomlView>>, order: Seq<usize>, i: int) -> Option<
    (usize, Seq<char>),
>
    decreases order.len() - i,
{
    if i < 0 || i >= order.len() {
        None
    } else {
        match field_fault(f[order[i] as int], order[i] as int) {
            Some(m) => Some((order[i], m)),
            None => first_fault(f, order, i + 1),
        }
    }
}

/// What is wrong with the defaults, if anything.
pub open spec fn defaults_fault(v: Option<TomlView>) -> Option<Seq<char>> {
    match v {
        Some(TomlView::Table(_)) => match first_fault(default_fields(v)->0, name_order(), 0) {
            Some((k, m)) => Some(
                document::fault_under(m, "defaults."@ + default_keys()[k as int]),
            ),
            None => None,
        },
        Some(TomlView::Array(items)) => match first_fault(
            placed_fields(items),
            place_order(),
            0,
        ) {
            Some((k, m)) => Some(document::fault_under(m, "defaults"@)),
            None => if items.len() > 9 {
                Some(
                    document::fault_under(
                        "invalid length "@ + text::decimal(items.len())
                            + ", expected fewer elements in array"@,
                        "defaults"@,
                    ),
                )
            } else {
                None
            },
        },
        Some(x) => Some(
            document::fault_under(
                document::type_fault(x, "struct StartDefaults"@),
                "defaults"@,
            ),
        ),
        None => None,
    }
}

/// The first item from `i` on that is no text.
pub open spec fn first_other(items: Seq<TomlView>, i: int) -> Option<TomlView>
    decreases items.len() - i,
{
    if i < 0 || i >= items.len() {
        None
    } else if leaf_text(items[i]) is None {
        Some(items[i])
    } else {
        first_other(items, i + 1)
    }
}

/// What is wrong with the list of directories, if anything.
pub open spec fn list_fault(v: Option<TomlView>) -> Option<Seq<char>> {
    match v {
        Some(TomlView::Array(items)) => match first_other(items, 0) {
            Some(x) => Some(
                document::fault_under(document::type_fault(x, "a string"@), "recent_dirs"@),
            ),
            None => None,
        },
        Some(x) => Some(
            document::fault_under(document::type_fault(x, "a sequence"@), "recent_dirs"@),
        ),
        None => None,
    }
}

/// What is wrong with a document, if anything: first with the defaults, then with the list of
/// directories.
pub open spec fn config_fault(t: TomlView) -> Option<Seq<char>> {
    match t {
        TomlView::Table(entries) => match defaults_fault(document::entry(entries, "defaults"@)) {
            Some(m) => Some(m),
            None => list_fault(document::entry(entries, "recent_dirs"@)),
        },
        _ => Some(document::type_fault(t, "struct Config"@) + "\n"@),
    }
}

proof fn lemma_first_fault(f: Seq<Option<TomlView>>, order: Seq<usize>, i: int)
    requires
        0 <= i,
    ensures
        first_fault(f, order, i) is None <==> forall|j: int|
            i <= j < order.len() ==> field_fault(f[(#[trigger] order[j]) as int], order[j] as int)
                is None,
    decreases order.len() - i,
{
    if i < order.len() {
        lemma_first_fault(f, order, i + 1);
    }
}

proof fn lemma_defaults_fault(f: Seq<Option<TomlView>>)
    ensures
        first_fault(f, name_order(), 0) is None <==> defaults_of(f) is Some,
        first_fault(f, place_order(), 0) is None <==> defaults_of(f) is Some,
{
    lemma_first_fault(f, name_order(), 0);
    lemma_first_fault(f, place_order(), 0);
    let n = name_order();
    let p = place_order();
    assert(n[0] == 8 && n[1] == 7 && n[2] == 2 && n[3] == 4 && n[4] == 1 && n[5] == 6 && n[6] == 0
        && n[7] == 3 && n[8] == 5);
    assert(p[0] == 0 && p[1] == 1 && p[2] == 2 && p[3] == 3 && p[4] == 4 && p[5] == 5 && p[6] == 6
        && p[7] == 7 && p[8] == 8);
}

proof fn lemma_first_other(items: Seq<TomlView>, n: int)
    requires
        0 <= n <= items.len(),
    ensures
        first_other(items, n) is None <==> forall|j: int|
            n <= j < items.len() ==> leaf_text(#[trigger] items[j]) is Some,
    decreases items.len() - n,
{
    if n < items.len() {
        lemma_first_other(items, n + 1);
    }
}

proof fn lemma_item_texts(items: Seq<TomlView>)
    ensures
        item_texts(items) is Some <==> forall|j: int|
            0 <= j < items.len() ==> leaf_text(#[trigger] items[j]) is Some,
    decreases items.len(),
{
    if items.len() > 0 {
        let front = items.drop_last();
        lemma_item_texts(front);
        assert(items[items.len() - 1] == items.last());
        assert(forall|j: int| 0 <= j < front.len() ==> front[j] == #[trigger] items[j]);
        if item_texts(items) is Some {
            assert forall|j: int| 0 <= j < items.len() implies leaf_text(#[trigger] items[j])
                is Some by {
                if j < front.len() {
                    assert(front[j] == items[j]);
                }
            }
        }
    }
}

/// A document stands for a configuration, or something is wrong with it.
pub proof fn config_or_fault(t: TomlView)
    ensures
        config_of(t) is Some <==> config_fault(t) is None,
{
    match t {
        TomlView::Table(entries) => {
            let d = document::entry(entries, "defaults"@);
            match d {
                Some(TomlView::Table(_)) => lemma_defaults_fault(default_fields(d)->0),
                Some(TomlView::Array(items)) => lemma_defaults_fault(placed_fields(items)),
                Some(_) => {},
                None => {
                    let f = default_fields(d)->0;
                    assert(forall|k: int| 0 <= k < 9 ==> #[trigger] f[k] is None);
                },
            }
            match document::entry(entries, "recent_dirs"@) {
                Some(TomlView::Array(items)) => {
                    lemma_first_other(items, 0);
                    lemma_item_texts(items);
                },
                _ => {},
            }
        },
        _ => {},
    }
}

/// Why a text is no configuration.
#[derive(Debug, PartialEq, Eq)]
pub enum ConfigError {
    /// It is no TOML; what the parser says.
    Syntax(String),
    /// A value has the wrong type; which one, and what was expected.
    Shape(String),
}

/// What a [`ConfigError`] holds.
#[verifier::ext_equal]
pub enum ConfigErrorView {
    Syntax(Seq<char>),
    Shape(Seq<char>),
}

impl View for ConfigError {
    type V = ConfigErrorView;

    open spec fn view(&self) -> ConfigErrorView {
        match self {
            ConfigError::Syntax(s) => ConfigErrorView::Syntax(s@),
            ConfigError::Shape(s) => ConfigErrorView::Shape(s@),
        }
    }
}

/// The message of an error.
pub open spec fn config_error_text(e: ConfigErrorView) -> Seq<char> {
    match e {
        ConfigErrorView::Syntax(s) => "invalid lazyamp config.toml: "@ + s,
        ConfigErrorView::Shape(s) => "invalid lazyamp config.toml: "@ + s,
    }
}

impl ConfigError {
    /// The message with its cause.
    pub fn message(&self) -> (r: String)
        ensures
            r@ == config_error_text(self@),
    {
        match self {
            ConfigError::Syntax(s) => two("invalid lazyamp config.toml: ", s.as_str()),
            ConfigError::Shape(s) => two("invalid lazyamp config.toml: ", s.as_str()),
        }
    }
}

/// The configuration that a text stands for. A blank text is an empty configuration.
pub open spec fn parsed_config(raw: Seq<char>) -> Result<ConfigView, ConfigErrorView> {
    if text::trim(raw).len() == 0 {
        Ok(no_config())
    } else {
        match document::toml_document(raw) {
            Ok(t) => match config_of(t) {
                Some(c) => Ok(c),
                None => Err(ConfigErrorView::Shape(config_fault(t)->0)),
            },
            Err(e) => Err(ConfigErrorView::Syntax(e)),
        }
    }
}

/// What an optional value holds.
pub open spec fn opt_toml(v: Option<&Toml>) -> Option<TomlView> {
    match v {
        Some(t) => Some(t@),
        None => None,
    }
}

fn text_of(v: &Toml) -> (r: Option<String>)
    ensures
        text::opt_text(r) == leaf_text(v@),
{
    match v {
        Toml::Text(s) => Some(s.clone()),
        Toml::Datetime(s) => Some(s.clone()),
        _ => None,
    }
}

/// What an optional text that may be missing holds.
pub open spec fn opt_opt_text(v: Option<Option<String>>) -> Option<Option<Seq<char>>> {
    match v {
        Some(x) => Some(text::opt_text(x)),
        None => None,
    }
}

fn read_opt(v: Option<&Toml>) -> (r: Option<Option<String>>)
    ensures
        opt_opt_text(r) == opt_field(opt_toml(v)),
{
    match v {
        Some(t) => match text_of(t) {
            Some(s) => Some(Some(s)),
            None => None,
        },
        None => Some(None),
    }
}

fn read_bool(v: Option<&Toml>) -> (r: Option<bool>)
    ensures
        r == bool_field(opt_toml(v)),
{
    match v {
        Some(t) => match t {
            Toml::Boolean(b) => Some(*b),
            _ => None,
        },
        None => Some(false),
    }
}

fn read_texts(items: &Vec<Toml>) -> (r: Option<Vec<String>>)
    ensures
        match r {
            Some(v) => item_texts(document::items_view(items@)) == Some(text::strings(v@)),
            None => item_texts(document::items_view(items@)) is None,
        },
{
    let ghost all = document::items_view(items@);
    let mut out: Vec<String> = Vec::new();
    for i in 0..items.len()
        invariant
            all == document::items_view(items@),
            item_texts(all.take(i as int)) == Some(text::strings(out@)),
    {
        assert(all.take(i + 1).drop_last() == all.take(i as int));
        assert(all[i as int] == items@[i as int]@);
        match text_of(&items[i]) {
            Some(s) => {
                let ghost before = text::strings(out@);
                let ghost sv = s@;
                out.push(s);
                assert(text::strings(out@) == before.push(sv));
            },
            None => {
                proof {
                    lemma_item_texts_fail(all, i + 1);
                }
                return None;
            },
        }
    }
    assert(all.take(all.len() as int) == all);
    Some(out)
}

proof fn lemma_item_texts_fail(items: Seq<TomlView>, n: int)
    requires
        0 <= n <= items.len(),
        item_texts(items.take(n)) is None,
    ensures
        item_texts(items) is None,
    decreases items.len() - n,
{
    if n < items.len() {
        assert(items.take(n + 1).drop_last() == items.take(n));
        lemma_item_texts_fail(items, n + 1);
    } else {
        assert(items.take(n) == items);
    }
}

fn read_list(v: Option<&Toml>) -> (r: Option<Vec<String>>)
    ensures
        match r {
            Some(x) => list_field(opt_toml(v)) == Some(text::strings(x@)),
            None => list_field(opt_toml(v)) is None,
        },
{
    match v {
        Some(t) => match t.as_array() {
            Some(items) => read_texts(items),
            None => None,
        },
        None => {
            let out: Vec<String> = Vec::new();
            assert(text::strings(out@) == Seq::<Seq<char>>::empty());
            Some(out)
        },
    }
}

/// What optional values hold.
spec fn opt_tomls(v: Seq<Option<&Toml>>) -> Seq<Option<TomlView>> {
    Seq::new(v.len(), |i: int| opt_toml(v[i]))
}

/// The values of the fields by their position.
fn place_fields<'a>(items: &'a Vec<Toml>) -> (r: Vec<Option<&'a Toml>>)
    ensures
        r@.len() == 9,
        opt_tomls(r@) == placed_fields(document::items_view(items@)),
{
    let mut out: Vec<Option<&'a Toml>> = Vec::new();
    for i in 0..9usize
        invariant
            out@.len() == i,
            forall|j: int|
                0 <= j < i ==> opt_toml(#[trigger] out@[j]) == if j < items@.len() {
                    Some(items@[j]@)
                } else {
                    None
                },
    {
        if i < items.len() {
            out.push(Some(&items[i]));
        } else {
            out.push(None);
        }
    }
    out
}

fn read_fields<'a>(v: Option<&'a Toml>) -> (r: Option<Vec<Option<&'a Toml>>>)
    ensures
        match r {
            Some(f) => f@.len() == 9 && default_fields(opt_toml(v)) == Some(opt_tomls(f@)),
            None => default_fields(opt_toml(v)) is None,
        },
{
    let mut out: Vec<Option<&'a Toml>> = Vec::new();
    match v {
        Some(t) => {
            match t.as_table() {
                Some(entries) => {
                    out.push(lookup(entries, "runner_id"));
                    out.push(lookup(entries, "mode"));
                    out.push(lookup(entries, "log_level"));
                    out.push(lookup(entries, "settings_file"));
                    out.push(lookup(entries, "mcp_config"));
                    out.push(lookup(entries, "visibility"));
                    out.push(lookup(entries, "remote_control_terminal"));
                    out.push(lookup(entries, "discover_dirs"));
                    out.push(lookup(entries, "amp_env"));
                    assert(opt_tomls(out@) == default_fields(opt_toml(v))->0);
                    return Some(out);
                },
                None => {},
            }
            match t.as_array() {
                Some(items) => {
                    if items.len() > 9 {
                        return None;
                    }
                    Some(place_fields(items))
                },
                None => None,
            }
        },
        None => {
            for i in 0..9usize
                invariant
                    out@.len() == i,
                    forall|j: int| 0 <= j < i ==> (#[trigger] out@[j]) is None,
            {
                out.push(None);
            }
            assert(opt_tomls(out@) == default_fields(opt_toml(v))->0);
            Some(out)
        },
    }
}

fn read_defaults(f: &Vec<Option<&Toml>>) -> (r: Option<StartDefaults>)
    requires
        f@.len() == 9,
    ensures
        match r {
            Some(d) => defaults_of(opt_tomls(f@)) == Some(d@),
            None => defaults_of(opt_tomls(f@)) is None,
        },
{
    let ghost all = opt_tomls(f@);
    assert(all.len() == 9);
    match (
        read_opt(f[0]),
        read_opt(f[1]),
        read_opt(f[2]),
        read_opt(f[3]),
        read_opt(f[4]),
        read_opt(f[5]),
        read_bool(f[6]),
        read_bool(f[7]),
        read_bool(f[8]),
    ) {
        (
            Some(runner_id),
            Some(mode),
            Some(log_level),
            Some(settings_file),
            Some(mcp_config),
            Some(visibility),
            Some(remote_control_terminal),
            Some(discover_dirs),
            Some(amp_env),
        ) => Some(
            StartDefaults {
                runner_id,
                mode,
                log_level,
                settings_file,
                mcp_config,
                visibility,
                remote_control_terminal,
                discover_dirs,
                amp_env,
            },
        ),
        _ => None,
    }
}

fn read_misplaced(v: Option<&Toml>) -> (r: Vec<String>)
    ensures
        text::strings(r@) == misplaced_dirs(opt_toml(v)),
{
    let mut out: Vec<String> = Vec::new();
    assert(text::strings(out@) == Seq::<Seq<char>>::empty());
    let entries = match v {
        Some(t) => match t.as_table() {
            Some(e) => e,
            None => {
                return out;
            },
        },
        None => {
            return out;
        },
    };
    let items = match lookup(entries, "recent_dirs") {
        Some(t) => match t.as_array() {
            Some(i) => i,
            None => {
                return out;
            },
        },
        None => {
            return out;
        },
    };
    let ghost all = document::items_view(items@);
    for i in 0..items.len()
        invariant
            all == document::items_view(items@),
            text::strings(out@) == strings_among(all.take(i as int)),
    {
        assert(all.take(i + 1).drop_last() == all.take(i as int));
        assert(all[i as int] == items@[i as int]@);
        match &items[i] {
            Toml::Text(s) => {
                let ghost before = text::strings(out@);
                out.push(s.clone());
                assert(text::strings(out@) == before.push(s@));
            },
            _ => {},
        }
    }
    assert(all.take(all.len() as int) == all);
    out
}

fn read_fault(v: Option<&Toml>, k: usize) -> (r: Option<String>)
    ensures
        text::opt_text(r) == field_fault(opt_toml(v), k as int),
{
    match v {
        Some(t) => {
            if k < 6 {
                match text_of(t) {
                    Some(_) => None,
                    None => Some(type_error(t, "a string")),
                }
            } else {
                match t {
                    Toml::Boolean(_) => None,
                    _ => Some(type_error(t, "a boolean")),
                }
            }
        },
        None => None,
    }
}

/// The first field of the wrong type, in an order, and what is wrong with it.
fn read_first_fault(f: &Vec<Option<&Toml>>, order: &Vec<usize>) -> (r: Option<(usize, String)>)
    requires
        f@.len() == 9,
        forall|i: int| 0 <= i < order@.len() ==> (#[trigger] order@[i]) < 9,
    ensures
        match r {
            Some(x) => x.0 < 9 && first_fault(opt_tomls(f@), order@, 0) == Some((x.0, x.1@)),
            None => first_fault(opt_tomls(f@), order@, 0) is None,
        },
{
    let ghost all = opt_tomls(f@);
    for i in 0..order.len()
        invariant
            all == opt_tomls(f@),
            f@.len() == 9,
            forall|i: int| 0 <= i < order@.len() ==> (#[trigger] order@[i]) < 9,
            first_fault(all, order@, 0) == first_fault(all, order@, i as int),
    {
        let k: usize = order[i];
        assert(all[k as int] == opt_toml(f@[k as int]));
        match read_fault(f[k], k) {
            Some(m) => {
                return Some((k, m));
            },
            None => {},
        }
    }
    None
}

fn key_name(k: usize) -> (r: &'static str)
    requires
        k < 9,
    ensures
        r@ == default_keys()[k as int],
{
    if k == 0 {
        "runner_id"
    } else if k == 1 {
        "mode"
    } else if k == 2 {
        "log_level"
    } else if k == 3 {
        "settings_file"
    } else if k == 4 {
        "mcp_config"
    } else if k == 5 {
        "visibility"
    } else if k == 6 {
        "remote_control_terminal"
    } else if k == 7 {
        "discover_dirs"
    } else {
        "amp_env"
    }
}

fn read_defaults_fault(v: Option<&Toml>) -> (r: Option<String>)
    ensures
        text::opt_text(r) == defaults_fault(opt_toml(v)),
{
    let t = match v {
        Some(t) => t,
        None => {
            return None;
        },
    };
    match t.as_table() {
        Some(_) => {
            let fields = match read_fields(v) {
                Some(f) => f,
                None => {
                    return None;
                },
            };
            let order: Vec<usize> = vec![8, 7, 2, 4, 1, 6, 0, 3, 5];
            assert(order@ == name_order());
            return match read_first_fault(&fields, &order) {
                Some((k, m)) => Some(
                    error_under(m.as_str(), two("defaults.", key_name(k)).as_str()),
                ),
                None => None,
            };
        },
        None => {},
    }
    match t.as_array() {
        Some(items) => {
            let fields = place_fields(items);
            let order: Vec<usize> = vec![0, 1, 2, 3, 4, 5, 6, 7, 8];
            assert(order@ == place_order());
            match read_first_fault(&fields, &order) {
                Some((_, m)) => Some(error_under(m.as_str(), "defaults")),
                None => {
                    if items.len() > 9 {
                        let m = three(
                            "invalid length ",
                            write_decimal(items.len() as u64).as_str(),
                            ", expected fewer elements in array",
                        );
                        Some(error_under(m.as_str(), "defaults"))
                    } else {
                        None
                    }
                },
            }
        },
        None => Some(
            error_under(type_error(t, "struct StartDefaults").as_str(), "defaults"),
        ),
    }
}

fn read_list_fault(v: Option<&Toml>) -> (r: Option<String>)
    ensures
        text::opt_text(r) == list_fault(opt_toml(v)),
{
    let t = match v {
        Some(t) => t,
        None => {
            return None;
        },
    };
    let items = match t.as_array() {
        Some(i) => i,
        None => {
            return Some(error_under(type_error(t, "a sequence").as_str(), "recent_dirs"));
        },
    };
    let ghost all = document::items_view(items@);
    for i in 0..items.len()
        invariant
            all == document::items_view(items@),
            first_other(all, 0) == first_other(all, i as int),
            opt_toml(v) == Some(TomlView::Array(all)),
    {
        assert(all[i as int] == items@[i as int]@);
        match text_of(&items[i]) {
            Some(_) => {},
            None => {
                return Some(
                    error_under(type_error(&items[i], "a string").as_str(), "recent_dirs"),
                );
            },
        }
    }
    None
}

/// What is wrong with a document, if anything.
fn read_config_fault(t: &Toml) -> (r: Option<String>)
    ensures
        text::opt_text(r) == config_fault(t@),
{
    match t.as_table() {
        Some(entries) => match read_defaults_fault(lookup(entries, "defaults")) {
            Some(m) => Some(m),
            None => read_list_fault(lookup(entries, "recent_dirs")),
        },
        None => Some(two(type_error(t, "struct Config").as_str(), "\n")),
    }
}

/// The configuration that a document stands for, or what is wrong with the first value of the
/// wrong type.
pub fn config_from_document(t: &Toml) -> (r: Result<Config, String>)
    ensures
        match r {
            Ok(c) => config_of(t@) == Some(c@),
            Err(e) => config_of(t@) is None && config_fault(t@) == Some(e@),
        },
{
    proof {
        config_or_fault(t@);
    }
    match read_config_fault(t) {
        Some(e) => Err(e),
        None => match read_config(t) {
            Some(c) => Ok(c),
            None => Err(String::new()),
        },
    }
}

fn read_config(t: &Toml) -> (r: Option<Config>)
    ensures
        match r {
            Some(c) => config_of(t@) == Some(c@),
            None => config_of(t@) is None,
        },
{
    let entries = match t.as_table() {
        Some(e) => e,
        None => {
            return None;
        },
    };
    let d = lookup(entries, "defaults");
    let fields = match read_fields(d) {
        Some(f) => f,
        None => {
            return None;
        },
    };
    let mut recent_dirs = match read_list(lookup(entries, "recent_dirs")) {
        Some(v) => v,
        None => {
            return None;
        },
    };
    let defaults = match read_defaults(&fields) {
        Some(x) => x,
        None => {
            return None;
        },
    };
    if recent_dirs.len() == 0 {
        recent_dirs = read_misplaced(d);
    }
    Some(Config { defaults, recent_dirs }.normalized())
}

impl Config {
    /// Parse TOML into a [`Config`].
    ///
    /// `recent_dirs` may be written at the top level (preferred) or accidentally
    /// after `[defaults]` — TOML treats the latter as `defaults.recent_dirs`.
    pub fn parse(raw: &str) -> (r: Result<Config, ConfigError>)
        ensures
            match r {
                Ok(c) => parsed_config(raw@) == Ok::<ConfigView, ConfigErrorView>(c@),
                Err(e) => parsed_config(raw@) == Err::<ConfigView, ConfigErrorView>(e@),
            },
    {
        if trimmed(&chars_of(raw)).len() == 0 {
            return Ok(Config::default());
        }
        match parse_toml(raw) {
            Ok(t) => match config_from_document(&t) {
                Ok(c) => Ok(c),
                Err(e) => Err(ConfigError::Shape(e)),
            },
            Err(e) => Err(ConfigError::Syntax(e)),
        }
    }
}

// ---------------------------------------------------------------------------------------------
// Writing

/// A text as a TOML value, where there is one.
pub open spec fn text_entry(v: Option<Seq<char>>) -> Option<TomlView> {
    match v {
        Some(s) => Some(TomlView::Text(s)),
        None => None,
    }
}

/// The value that is written for a field of the defaults, by its place among the keys.
pub open spec fn written_field(d: DefaultsView, k: int) -> Option<TomlView> {
    if k == 0 {
        text_entry(d.runner_id)
    } else if k == 1 {
        text_entry(d.mode)
    } else if k == 2 {
        text_entry(d.log_level)
    } else if k == 3 {
        text_entry(d.settings_file)
    } else if k == 4 {
        text_entry(d.mcp_config)
    } else if k == 5 {
        text_entry(d.visibility)
    } else if k == 6 {
        Some(TomlView::Boolean(d.remote_control_terminal))
    } else if k == 7 {
        Some(TomlView::Boolean(d.discover_dirs))
    } else {
        Some(TomlView::Boolean(d.amp_env))
    }
}

/// The entries that are written for the first `n` fields.
pub open spec fn written_fields(d: DefaultsView, n: int) -> Seq<(Seq<char>, TomlView)>
    decreases n,
{
    if n <= 0 {
        Seq::empty()
    } else {
        match written_field(d, n - 1) {
            Some(v) => written_fields(d, n - 1).push((default_keys()[n - 1], v)),
            None => written_fields(d, n - 1),
        }
    }
}

/// The document that a configuration is written as: the directories, then the defaults that are
/// set.
pub open spec fn config_tree(c: ConfigView) -> TomlView {
    TomlView::Table(
        seq![
            ("recent_dirs"@, document::text_array(c.recent_dirs)),
            ("defaults"@, TomlView::Table(written_fields(c.defaults, 9))),
        ],
    )
}

/// Whether a text that may be missing can be written.
pub open spec fn opt_writable(v: Option<Seq<char>>) -> bool {
    v is Some ==> document::writable_text(v->0)
}

/// Whether all texts of a configuration can be written.
pub open spec fn can_save(c: ConfigView) -> bool {
    &&& opt_writable(c.defaults.runner_id)
    &&& opt_writable(c.defaults.mode)
    &&& opt_writable(c.defaults.log_level)
    &&& opt_writable(c.defaults.settings_file)
    &&& opt_writable(c.defaults.mcp_config)
    &&& opt_writable(c.defaults.visibility)
    &&& forall|i: int|
        0 <= i < c.recent_dirs.len() ==> document::writable_text(#[trigger] c.recent_dirs[i])
}

proof fn lemma_entry_push(
    entries: Seq<(Seq<char>, TomlView)>,
    k: Seq<char>,
    v: TomlView,
    key: Seq<char>,
    i: int,
)
    requires
        0 <= i <= entries.len(),
    ensures
        document::entry_from(entries.push((k, v)), key, i) == match document::entry_from(
            entries,
            key,
            i,
        ) {
            Some(x) => Some(x),
            None => if k == key {
                Some(v)
            } else {
                None
            },
        },
    decreases entries.len() - i,
{
    let more = entries.push((k, v));
    if i < entries.len() {
        assert(more[i] == entries[i]);
        lemma_entry_push(entries, k, v, key, i + 1);
    } else {
        assert(more[i] == (k, v));
        assert(document::entry_from(more, key, i + 1) is None);
    }
}

proof fn lemma_default_keys()
    ensures
        default_keys().len() == 9,
        forall|i: int, j: int|
            0 <= i < j < 9 ==> #[trigger] default_keys()[i] != #[trigger] default_keys()[j],
        forall|i: int|
            0 <= i < 9 ==> document::bare_key(#[trigger] default_keys()[i]) && default_keys()[i]
                != "recent_dirs"@,
{
    reveal_strlit("runner_id");
    reveal_strlit("mode");
    reveal_strlit("log_level");
    reveal_strlit("settings_file");
    reveal_strlit("mcp_config");
    reveal_strlit("visibility");
    reveal_strlit("remote_control_terminal");
    reveal_strlit("discover_dirs");
    reveal_strlit("amp_env");
    reveal_strlit("recent_dirs");
    let k = default_keys();
    assert(k[0].len() == 9 && k[0][0] == 'r');
    assert(k[1].len() == 4);
    assert(k[2].len() == 9 && k[2][0] == 'l');
    assert(k[3].len() == 13 && k[3][0] == 's');
    assert(k[4].len() == 10 && k[4][0] == 'm');
    assert(k[5].len() == 10 && k[5][0] == 'v');
    assert(k[6].len() == 23);
    assert(k[7].len() == 13 && k[7][0] == 'd');
    assert(k[8].len() == 7);
    assert forall|i: int, j: int| 0 <= i < j < 9 implies #[trigger] k[i] != #[trigger] k[j] by {
        if k[i].len() == k[j].len() {
            assert(k[i][0] != k[j][0]);
        }
    }
}

proof fn lemma_written_fields(d: DefaultsView, n: int)
    requires
        0 <= n <= 9,
    ensures
        forall|k: int|
            0 <= k < 9 ==> document::entry(written_fields(d, n), #[trigger] default_keys()[k])
                == if k < n {
                written_field(d, k)
            } else {
                None
            },
        document::entry(written_fields(d, n), "recent_dirs"@) is None,
        document::sound_keys(written_fields(d, n)),
        forall|i: int|
            0 <= i < written_fields(d, n).len() ==> exists|k: int|
                0 <= k < n && (#[trigger] written_fields(d, n)[i]).0 == #[trigger] default_keys()[k]
                    && written_field(d, k) == Some(written_fields(d, n)[i].1),
    decreases n,
{
    lemma_default_keys();
    if n > 0 {
        lemma_written_fields(d, n - 1);
        let front = written_fields(d, n - 1);
        let all = written_fields(d, n);
        match written_field(d, n - 1) {
            Some(v) => {
                let key = default_keys()[n - 1];
                assert(all == front.push((key, v)));
                assert forall|k: int| 0 <= k < 9 implies document::entry(
                    all,
                    #[trigger] default_keys()[k],
                ) == if k < n {
                    written_field(d, k)
                } else {
                    None
                } by {
                    lemma_entry_push(front, key, v, default_keys()[k], 0);
                }
                lemma_entry_push(front, key, v, "recent_dirs"@, 0);
                assert forall|i: int, j: int| 0 <= i < j < all.len() implies (#[trigger] all[i]).0
                    != (#[trigger] all[j]).0 by {
                    assert(all[i] == front[i]);
                    let k = choose|k: int|
                        0 <= k < n - 1 && front[i].0 == #[trigger] default_keys()[k]
                            && written_field(d, k) == Some(front[i].1);
                    if j < front.len() {
                        assert(all[j] == front[j]);
                    } else {
                        assert(default_keys()[k] != default_keys()[n - 1]);
                    }
                }
                assert forall|i: int| 0 <= i < all.len() implies document::bare_key(
                    (#[trigger] all[i]).0,
                ) by {
                    if i < front.len() {
                        assert(all[i] == front[i]);
                    }
                }
                assert forall|i: int| 0 <= i < all.len() implies exists|k: int|
                    0 <= k < n && (#[trigger] all[i]).0 == #[trigger] default_keys()[k]
                        && written_field(d, k) == Some(all[i].1) by {
                    if i < front.len() {
                        assert(all[i] == front[i]);
                        let k = choose|k: int|
                            0 <= k < n - 1 && front[i].0 == #[trigger] default_keys()[k]
                                && written_field(d, k) == Some(front[i].1);
                        assert(all[i].0 == default_keys()[k]);
                    } else {
                        assert(all[i].0 == default_keys()[n - 1]);
                    }
                }
            },
            None => {},
        }
    }
}

proof fn lemma_text_array(v: Seq<Seq<char>>)
    ensures
        item_texts(document::text_array(v)->Array_0) == Some(v),
    decreases v.len(),
{
    let items = document::text_array(v)->Array_0;
    if v.len() > 0 {
        lemma_text_array(v.drop_last());
        assert(items.drop_last() == document::text_array(v.drop_last())->Array_0);
        assert(v.drop_last().push(v.last()) == v);
    } else {
        assert(v == Seq::<Seq<char>>::empty());
    }
}

proof fn lemma_tree_entries(c: ConfigView)
    ensures
        document::entry(config_tree(c)->Table_0, "recent_dirs"@) == Some(
            document::text_array(c.recent_dirs),
        ),
        document::entry(config_tree(c)->Table_0, "defaults"@) == Some(
            TomlView::Table(written_fields(c.defaults, 9)),
        ),
{
    reveal_strlit("recent_dirs");
    reveal_strlit("defaults");
    reveal_with_fuel(document::entry_from, 3);
    let e = config_tree(c)->Table_0;
    assert(e[0].0 == "recent_dirs"@);
    assert(e[1].0 == "defaults"@);
}

/// The document of a configuration stands for its normal form.
pub proof fn document_stands_for_config(c: ConfigView)
    ensures
        config_of(config_tree(c)) == Some(normal_config(c)),
{
    lemma_tree_entries(c);
    lemma_text_array(c.recent_dirs);
    lemma_written_fields(c.defaults, 9);
    lemma_default_keys();
    let d = Some(TomlView::Table(written_fields(c.defaults, 9)));
    let fields = default_fields(d)->0;
    assert forall|k: int| 0 <= k < 9 implies fields[k] == written_field(c.defaults, k) by {
        assert(fields[k] == document::entry(written_fields(c.defaults, 9), default_keys()[k]));
    }
    assert(defaults_of(fields) == Some(c.defaults));
    if c.recent_dirs.len() == 0 {
        assert(misplaced_dirs(d) == Seq::<Seq<char>>::empty());
        assert(c.recent_dirs == Seq::<Seq<char>>::empty());
    }
}

proof fn lemma_tree_writable(c: ConfigView)
    requires
        can_save(c),
    ensures
        document::writable(config_tree(c)),
{
    reveal_strlit("recent_dirs");
    reveal_strlit("defaults");
    lemma_written_fields(c.defaults, 9);
    let fields = written_fields(c.defaults, 9);
    assert forall|i: int| 0 <= i < fields.len() implies document::writable_leaf(
        (#[trigger] fields[i]).1,
    ) by {
        let k = choose|k: int|
            0 <= k < 9 && fields[i].0 == #[trigger] default_keys()[k] && written_field(
                c.defaults,
                k,
            ) == Some(fields[i].1);
    }
    assert(fields.len() > 0);
    let e = config_tree(c)->Table_0;
    assert(e[0].0.len() == 11 && e[1].0.len() == 8);
    assert(document::writable_table(e[1].1));
    let items = document::text_array(c.recent_dirs)->Array_0;
    assert forall|i: int| 0 <= i < items.len() implies (#[trigger] items[i]) is Text
        && document::writable_text(items[i]->Text_0) by {
        assert(items[i] == TomlView::Text(c.recent_dirs[i]));
    }
    assert(document::writable_leaf(e[0].1));
}

fn push_text(out: &mut Vec<(String, Written)>, key: &str, value: &Option<String>)
    ensures
        document::written_view(final(out)@) == match text_entry(text::opt_text(*value)) {
            Some(v) => document::written_view(old(out)@).push((key@, v)),
            None => document::written_view(old(out)@),
        },
{
    match value {
        Some(s) => {
            let ghost before = document::written_view(out@);
            out.push((key.to_owned(), Written::Text(s.clone())));
            assert(document::written_view(out@) == before.push((key@, TomlView::Text(s@))));
        },
        None => {},
    }
}

fn push_bool(out: &mut Vec<(String, Written)>, key: &str, value: bool)
    ensures
        document::written_view(final(out)@) == document::written_view(old(out)@).push(
            (key@, TomlView::Boolean(value)),
        ),
{
    let ghost before = document::written_view(out@);
    out.push((key.to_owned(), Written::Boolean(value)));
    assert(document::written_view(out@) == before.push((key@, TomlView::Boolean(value))));
}

fn default_entries(d: &StartDefaults) -> (r: Vec<(String, Written)>)
    ensures
        document::written_view(r@) == written_fields(d@, 9),
{
    let mut out: Vec<(String, Written)> = Vec::new();
    let ghost v = d@;
    assert(document::written_view(out@) == written_fields(v, 0));
    push_text(&mut out, "runner_id", &d.runner_id);
    assert(document::written_view(out@) == written_fields(v, 1));
    push_text(&mut out, "mode", &d.mode);
    assert(document::written_view(out@) == written_fields(v, 2));
    push_text(&mut out, "log_level", &d.log_level);
    assert(document::written_view(out@) == written_fields(v, 3));
    push_text(&mut out, "settings_file", &d.settings_file);
    assert(document::written_view(out@) == written_fields(v, 4));
    push_text(&mut out, "mcp_config", &d.mcp_config);
    assert(document::written_view(out@) == written_fields(v, 5));
    push_text(&mut out, "visibility", &d.visibility);
    assert(document::written_view(out@) == written_fields(v, 6));
    push_bool(&mut out, "remote_control_terminal", d.remote_control_terminal);
    assert(document::written_view(out@) == written_fields(v, 7));
    push_bool(&mut out, "discover_dirs", d.discover_dirs);
    assert(document::written_view(out@) == written_fields(v, 8));
    push_bool(&mut out, "amp_env", d.amp_env);
    assert(document::written_view(out@) == written_fields(v, 9));
    out
}

/// That a configuration cannot be written: a text has more quotes in a row than can be written.
#[derive(Debug, Clone, Copy, PartialEq, Eq)]
pub struct TooManyQuotes;

impl TooManyQuotes {
    /// The message.
    pub fn message(&self) -> (r: String)
        ensures
            r@ == "failed to serialize config: too many quotes in a row"@,
    {
        "failed to serialize config: too many quotes in a row".to_owned()
    }
}

fn opt_can_write(v: &Option<String>) -> (r: bool)
    ensures
        r == opt_writable(text::opt_text(*v)),
{
    match v {
        Some(s) => can_write(s.as_str()),
        None => true,
    }
}

impl Config {
    fn savable(&self) -> (r: bool)
        ensures
            r == can_save(self@),
    {
        let d = &self.defaults;
        let ghost dirs = text::strings(self.recent_dirs@);
        for i in 0..self.recent_dirs.len()
            invariant
                dirs == text::strings(self.recent_dirs@),
                forall|j: int| 0 <= j < i ==> document::writable_text(#[trigger] dirs[j]),
        {
            assert(dirs[i as int] == self.recent_dirs@[i as int]@);
            if !can_write(self.recent_dirs[i].as_str()) {
                assert(!document::writable_text(self@.recent_dirs[i as int]));
                return false;
            }
        }
        opt_can_write(&d.runner_id) && opt_can_write(&d.mode) && opt_can_write(&d.log_level)
            && opt_can_write(&d.settings_file) && opt_can_write(&d.mcp_config) && opt_can_write(
            &d.visibility,
        )
    }

    fn document(&self) -> (r: Written)
        ensures
            r@ == config_tree(self@),
    {
        let inner = Written::Table(default_entries(&self.defaults));
        proof {
            document::lemma_table_view(inner);
        }
        let mut entries: Vec<(String, Written)> = Vec::new();
        entries.push(("recent_dirs".to_owned(), Written::List(self.recent_dirs.clone())));
        entries.push(("defaults".to_owned(), inner));
        let doc = Written::Table(entries);
        proof {
            document::lemma_table_view(doc);
            assert(document::written_view(entries@) == config_tree(self@)->Table_0);
        }
        doc
    }

    /// Serialize to pretty TOML. Reading it gives the normal form of the configuration back.
    pub fn to_toml(&self) -> (r: Result<String, TooManyQuotes>)
        ensures
            match r {
                Ok(s) => can_save(self@) && s@ == document::toml_text(config_tree(self@))
                    && parsed_config(s@) == Ok::<ConfigView, ConfigErrorView>(
                    normal_config(self@),
                ),
                Err(_) => !can_save(self@),
            },
    {
        if !self.savable() {
            return Err(TooManyQuotes);
        }
        proof {
            lemma_tree_writable(self@);
            document_stands_for_config(self@);
        }
        Ok(write_toml(self.document()))
    }
}

/// A normal form is its own normal form.
pub proof fn normal_form_is_stable(c: ConfigView)
    ensures
        normal_config(normal_config(c)) == normal_config(c),
{
    lemma_nonblank_stable(c.defaults.runner_id);
    lemma_nonblank_stable(c.defaults.mode);
    lemma_nonblank_stable(c.defaults.log_level);
    lemma_nonblank_stable(c.defaults.settings_file);
    lemma_nonblank_stable(c.defaults.mcp_config);
    lemma_nonblank_stable(c.defaults.visibility);
    lemma_not_blank(c.recent_dirs);
    lemma_not_blank_stable(normal_config(c).recent_dirs);
}

proof fn lemma_nonblank_stable(v: Option<Seq<char>>)
    ensures
        text::nonblank(text::nonblank(v)) == text::nonblank(v),
{
    match v {
        Some(s) => text::trim_is_stable(s),
        None => {},
    }
}

proof fn lemma_not_blank(v: Seq<Seq<char>>)
    ensures
        forall|i: int|
            0 <= i < not_blank(v).len() ==> text::trim(#[trigger] not_blank(v)[i]).len() > 0,
    decreases v.len(),
{
    if v.len() > 0 {
        let front = not_blank(v.drop_last());
        let out = not_blank(v);
        lemma_not_blank(v.drop_last());
        assert forall|i: int| 0 <= i < out.len() implies text::trim(#[trigger] out[i]).len() > 0 by {
            if i < front.len() {
                assert(out[i] == front[i]);
            }
        }
    }
}

proof fn lemma_not_blank_stable(v: Seq<Seq<char>>)
    requires
        forall|i: int| 0 <= i < v.len() ==> text::trim(#[trigger] v[i]).len() > 0,
    ensures
        not_blank(v) == v,
    decreases v.len(),
{
    if v.len() > 0 {
        assert(v[v.len() - 1] == v.last());
        assert forall|i: int| 0 <= i < v.drop_last().len() implies text::trim(
            #[trigger] v.drop_last()[i],
        ).len() > 0 by {
            assert(v.drop_last()[i] == v[i]);
        }
        lemma_not_blank_stable(v.drop_last());
        assert(v.drop_last().push(v.last()) == v);
    } else {
        assert(v == Seq::<Seq<char>>::empty());
    }
}

/// A configuration that was read is in its normal form.
pub proof fn parsed_config_is_normal(raw: Seq<char>)
    ensures
        match parsed_config(raw) {
            Ok(c) => normal_config(c) == c,
            Err(_) => true,
        },
{
    if text::trim(raw).len() > 0 {
        match document::toml_document(raw) {
            Ok(t) => {
                let entries = t->Table_0;
                let d = document::entry(entries, "defaults"@);
                let dirs = list_field(document::entry(entries, "recent_dirs"@))->0;
                normal_form_is_stable(
                    ConfigView {
                        defaults: defaults_of(default_fields(d)->0)->0,
                        recent_dirs: if dirs.len() == 0 {
                            misplaced_dirs(d)
                        } else {
                            dirs
                        },
                    },
                );
            },
            Err(_) => {},
        }
    } else {
        assert(normal_config(no_config()) == no_config());
    }
}

// ---------------------------------------------------------------------------------------------
// Recent directories

/// The texts other than `p`.
pub open spec fn without(v: Seq<Seq<char>>, p: Seq<char>) -> Seq<Seq<char>>
    decreases v.len(),
{
    if v.len() == 0 {
        Seq::empty()
    } else if v.last() == p {
        without(v.drop_last(), p)
    } else {
        without(v.drop_last(), p).push(v.last())
    }
}

/// The directories with `p` as the newest one. An empty path is not remembered.
pub open spec fn remembered(v: Seq<Seq<char>>, p: Seq<char>) -> Seq<Seq<char>> {
    if p.len() == 0 {
        v
    } else {
        capped(seq![p] + without(v, p))
    }
}

fn drop_text(v: &Vec<String>, p: &str) -> (r: Vec<String>)
    ensures
        text::strings(r@) == without(text::strings(v@), p@),
{
    let ghost all = text::strings(v@);
    let mut out: Vec<String> = Vec::new();
    for i in 0..v.len()
        invariant
            all == text::strings(v@),
            text::strings(out@) == without(all.take(i as int), p@),
    {
        assert(all.take(i + 1).drop_last() == all.take(i as int));
        assert(all[i as int] == v@[i as int]@);
        if !same_str(v[i].as_str(), p) {
            let ghost before = text::strings(out@);
            out.push(v[i].clone());
            assert(text::strings(out@) == before.push(all[i as int]));
        }
    }
    assert(all.take(all.len() as int) == all);
    out
}

impl Config {
    /// Remember `path` as the most recent directory.
    pub fn remember_dir(&mut self, path: &str)
        ensures
            final(self)@ == (ConfigView {
                recent_dirs: remembered(old(self)@.recent_dirs, path@),
                ..old(self)@
            }),
    {
        if path.is_empty() {
            return ;
        }
        let mut dirs = drop_text(&self.recent_dirs, path);
        let ghost rest = text::strings(dirs@);
        dirs.insert(0, path.to_owned());
        assert(text::strings(dirs@) == seq![path@] + rest);
        cap_recents(&mut dirs);
        self.recent_dirs = dirs;
    }
}

proof fn lemma_without(v: Seq<Seq<char>>, p: Seq<char>)
    ensures
        !without(v, p).contains(p),
        forall|x: Seq<char>| #[trigger] without(v, p).contains(x) ==> v.contains(x),
        v.no_duplicates() ==> without(v, p).no_duplicates(),
        without(v, p).len() <= v.len(),
    decreases v.len(),
{
    if v.len() > 0 {
        let front = v.drop_last();
        lemma_without(front, p);
        let out = without(v, p);
        let before = without(front, p);
        assert forall|x: Seq<char>| #[trigger] out.contains(x) implies v.contains(x) by {
            let i = choose|i: int| 0 <= i < out.len() && out[i] == x;
            if i < before.len() {
                assert(before[i] == x);
                assert(before.contains(x));
                let j = choose|j: int| 0 <= j < front.len() && front[j] == x;
                assert(v[j] == x);
            } else {
                assert(v[v.len() - 1] == x);
            }
        }
        if v.no_duplicates() {
            assert(front.no_duplicates());
            if v.last() != p {
                if before.contains(v.last()) {
                    let j = choose|j: int| 0 <= j < front.len() && front[j] == v.last();
                    assert(v[j] == v[v.len() - 1]);
                }
                assert(out == before.push(v.last()));
                assert forall|i: int, j: int| 0 <= i < j < out.len() implies out[i] != out[j] by {
                    if j == before.len() {
                        assert(before.contains(before[i]));
                    }
                }
            }
        }
    }
}

/// A remembered directory is the newest one and is listed once; no more directories are kept than
/// fit, and a list without repetitions stays one.
pub proof fn remembering_keeps_order(v: Seq<Seq<char>>, p: Seq<char>)
    requires
        p.len() > 0,
    ensures
        remembered(v, p)[0] == p,
        0 < remembered(v, p).len() <= MAX_RECENT_DIRS,
        v.no_duplicates() ==> remembered(v, p).no_duplicates(),
        remembered(remembered(v, p), p) == remembered(v, p),
{
    lemma_without(v, p);
    let rest = without(v, p);
    let all = seq![p] + rest;
    let out = remembered(v, p);
    if v.no_duplicates() {
        assert forall|i: int, j: int| 0 <= i < j < out.len() implies out[i] != out[j] by {
            assert(out[i] == all[i] && out[j] == all[j]);
            if i == 0 {
                assert(rest[j - 1] == all[j]);
                assert(rest.contains(rest[j - 1]));
            } else {
                assert(rest[i - 1] == all[i] && rest[j - 1] == all[j]);
            }
        }
    }
    let tail = out.drop_first();
    assert(out == seq![p] + tail);
    assert forall|i: int| 0 <= i < tail.len() implies #[trigger] tail[i] != p by {
        assert(tail[i] == rest[i]);
        assert(rest.contains(rest[i]));
    }
    lemma_without_front(p, tail);
}

proof fn lemma_without_front(p: Seq<char>, tail: Seq<Seq<char>>)
    requires
        forall|i: int| 0 <= i < tail.len() ==> #[trigger] tail[i] != p,
    ensures
        without(seq![p] + tail, p) == tail,
    decreases tail.len(),
{
    let all = seq![p] + tail;
    if tail.len() > 0 {
        let front = tail.drop_last();
        assert(all.drop_last() == seq![p] + front);
        assert forall|i: int| 0 <= i < front.len() implies #[trigger] front[i] != p by {
            assert(front[i] == tail[i]);
        }
        lemma_without_front(p, front);
        assert(all.last() == tail[tail.len() - 1]);
        assert(front.push(tail.last()) == tail);
    } else {
        assert(all.drop_last() == Seq::<Seq<char>>::empty());
        assert(all.last() == p);
        reveal_with_fuel(without, 2);
        assert(tail == Seq::<Seq<char>>::empty());
    }
}

// ---------------------------------------------------------------------------------------------
// Choices

/// A list of choices as texts.
pub open spec fn choice_texts(v: Seq<&str>) -> Seq<Seq<char>> {
    Seq::new(v.len(), |i: int| v[i]@)
}

/// The first choice from `i` on that is `cur`, in any case of letters.
pub open spec fn choice_from(choices: Seq<Seq<char>>, cur: Seq<char>, i: int) -> Option<int>
    decreases choices.len() - i,
{
    if i < 0 || i >= choices.len() {
        None
    } else if text::same_but_case(choices[i], cur) {
        Some(i)
    } else {
        choice_from(choices, cur, i + 1)
    }
}

/// The choice after the current one: the first where there is none, none after the last one and
/// after one that is no choice.
pub open spec fn next_choice(current: Option<Seq<char>>, choices: Seq<Seq<char>>) -> Option<
    Seq<char>,
> {
    if choices.len() == 0 {
        None
    } else {
        match text::nonblank(current) {
            None => Some(choices[0]),
            Some(cur) => match choice_from(choices, cur, 0) {
                Some(i) => if i + 1 < choices.len() {
                    Some(choices[i + 1])
                } else {
                    None
                },
                None => None,
            },
        }
    }
}

/// Cycle helper used by the flags panel.
pub fn cycle_choice(current: Option<&str>, choices: &[&str]) -> (r: Option<String>)
    ensures
        text::opt_text(r) == next_choice(text::opt_str(current), choice_texts(choices@)),
{
    let ghost all = choice_texts(choices@);
    let n: usize = choices.len();
    if n == 0 {
        return None;
    }
    let cur = match nonempty(current) {
        Some(c) => chars_of(c.as_str()),
        None => {
            return Some(choices[0].to_owned());
        },
    };
    for i in 0..n
        invariant
            n == choices@.len(),
            all == choice_texts(choices@),
            text::nonblank(text::opt_str(current)) == Some(cur@),
            choice_from(all, cur@, 0) == choice_from(all, cur@, i as int),
    {
        assert(all[i as int] == choices@[i as int]@);
        if same_ignoring_case(&chars_of(choices[i]), &cur) {
            if i < n - 1 {
                assert(all[i + 1] == choices@[i + 1]@);
                return Some(choices[i + 1].to_owned());
            }
            return None;
        }
    }
    None
}

proof fn lemma_choice_from(choices: Seq<Seq<char>>, k: int, i: int)
    requires
        0 <= i <= k < choices.len(),
        forall|a: int, b: int|
            0 <= a < b < choices.len() ==> !text::same_but_case(
                #[trigger] choices[a],
                #[trigger] choices[b],
            ),
    ensures
        choice_from(choices, choices[k], i) == Some(k),
    decreases k - i,
{
    if i < k {
        assert(!text::same_but_case(choices[i], choices[k]));
        lemma_choice_from(choices, k, i + 1);
    }
}

/// Cycling goes through all choices in order and then back to none, where no two choices are the
/// same in any case of letters and none has space around it.
pub proof fn cycling_visits_every_choice(choices: Seq<Seq<char>>, k: int)
    requires
        0 <= k < choices.len(),
        forall|a: int, b: int|
            0 <= a < b < choices.len() ==> !text::same_but_case(
                #[trigger] choices[a],
                #[trigger] choices[b],
            ),
        choices[k].len() > 0,
        text::trim(choices[k]) == choices[k],
    ensures
        next_choice(None, choices) == Some(choices[0]),
        next_choice(Some(choices[k]), choices) == if k + 1 < choices.len() {
            Some(choices[k + 1])
        } else {
            None
        },
{
    lemma_choice_from(choices, k, 0);
}

// ---------------------------------------------------------------------------------------------
// Files

/// What a file holds.
#[derive(Debug)]
pub enum FileText {
    Missing,
    /// It is there and could not be read; why.
    Unreadable(String),
    Text(String),
}

/// A file to write: `text` goes to `temp`, in the directory `dir` that is made first, and `temp`
/// is then renamed to `path`.
#[derive(Debug)]
pub struct FileWrite {
    pub dir: Option<String>,
    pub temp: String,
    pub path: String,
    pub text: String,
}

/// What a [`FileWrite`] holds.
#[verifier::ext_equal]
pub struct FileWriteView {
    pub dir: Option<Seq<char>>,
    pub temp: Seq<char>,
    pub path: Seq<char>,
    pub text: Seq<char>,
}

impl View for FileWrite {
    type V = FileWriteView;

    open spec fn view(&self) -> FileWriteView {
        FileWriteView {
            dir: text::opt_text(self.dir),
            temp: self.temp@,
            path: self.path@,
            text: self.text@,
        }
    }
}

/// How a text is written to a path: beside it first.
pub open spec fn write_of(p: Seq<char>, content: Seq<char>) -> FileWriteView {
    FileWriteView { dir: path::parent_text(p), temp: p + ".tmp"@, path: p, text: content }
}

/// How a text is written to a path: beside it first, so that no reader finds half of it.
pub fn atomic_write(p: &str, content: String) -> (r: FileWrite)
    ensures
        r@ == write_of(p@, content@),
{
    let mut temp = p.to_owned();
    temp.append(".tmp");
    FileWrite { dir: parent(p), temp, path: p.to_owned(), text: content }
}

/// Why a config file could not be used.
#[derive(Debug, PartialEq, Eq)]
pub enum LoadError {
    Unreadable { path: String, detail: String },
    Invalid { path: String, error: ConfigError },
}

/// What a [`LoadError`] holds.
#[verifier::ext_equal]
pub enum LoadErrorView {
    Unreadable { path: Seq<char>, detail: Seq<char> },
    Invalid { path: Seq<char>, error: ConfigErrorView },
}

impl View for LoadError {
    type V = LoadErrorView;

    open spec fn view(&self) -> LoadErrorView {
        match self {
            LoadError::Unreadable { path, detail } => LoadErrorView::Unreadable {
                path: path@,
                detail: detail@,
            },
            LoadError::Invalid { path, error } => LoadErrorView::Invalid {
                path: path@,
                error: error@,
            },
        }
    }
}

/// The message of an error.
pub open spec fn load_error_text(e: LoadErrorView) -> Seq<char> {
    match e {
        LoadErrorView::Unreadable { path, detail } => "failed to read "@ + path + ": "@ + detail,
        LoadErrorView::Invalid { path, error } => "failed to parse "@ + path + ": "@
            + config_error_text(error),
    }
}

impl LoadError {
    /// The message with its causes.
    pub fn message(&self) -> (r: String)
        ensures
            r@ == load_error_text(self@),
    {
        match self {
            LoadError::Unreadable { path, detail } => {
                let mut out = "failed to read ".to_owned();
                out.append(path.as_str());
                out.append(": ");
                out.append(detail.as_str());
                out
            },
            LoadError::Invalid { path, error } => {
                let mut out = "failed to parse ".to_owned();
                out.append(path.as_str());
                out.append(": ");
                out.append(error.message().as_str());
                out
            },
        }
    }
}

/// The configuration that a file gives. A missing file gives defaults.
pub open spec fn loaded(p: Seq<char>, file: FileText) -> Result<ConfigView, LoadErrorView> {
    match file {
        FileText::Missing => Ok(no_config()),
        FileText::Unreadable(detail) => Err(
            LoadErrorView::Unreadable { path: p, detail: detail@ },
        ),
        FileText::Text(raw) => match parsed_config(raw@) {
            Ok(c) => Ok(c),
            Err(e) => Err(LoadErrorView::Invalid { path: p, error: e }),
        },
    }
}

/// A configuration that was loaded.
#[derive(Debug)]
pub struct LoadedConfig {
    pub config: Config,
}

impl LoadedConfig {
    /// Whether the config file may be written: it is missing or valid.
    pub fn may_write(&self) -> (r: bool)
        ensures
            r,
    {
        true
    }
}

impl Config {
    /// Load config from the default path. Missing file yields defaults.
    pub fn load(file: &FileText) -> (r: Result<LoadedConfig, LoadError>)
        ensures
            match r {
                Ok(l) => exists|p: Seq<char>| #[trigger]
                    loaded(p, *file) == Ok::<ConfigView, LoadErrorView>(l.config@),
                Err(e) => exists|dir: Option<Seq<char>>|
                    loaded(#[trigger] config_path_text(dir), *file) == Err::<
                        ConfigView,
                        LoadErrorView,
                    >(e@),
            },
    {
        let p = config_path();
        match Config::load_from(p.as_str(), file) {
            Ok(config) => Ok(LoadedConfig { config }),
            Err(e) => Err(e),
        }
    }

    /// Load config from what the file at `path` holds. Missing file yields defaults.
    pub fn load_from(path: &str, file: &FileText) -> (r: Result<Config, LoadError>)
        ensures
            match r {
                Ok(c) => loaded(path@, *file) == Ok::<ConfigView, LoadErrorView>(c@),
                Err(e) => loaded(path@, *file) == Err::<ConfigView, LoadErrorView>(e@),
            },
    {
        match file {
            FileText::Missing => Ok(Config::default()),
            FileText::Unreadable(detail) => Err(
                LoadError::Unreadable { path: path.to_owned(), detail: detail.clone() },
            ),
            FileText::Text(raw) => match Config::parse(raw.as_str()) {
                Ok(c) => Ok(c),
                Err(e) => Err(LoadError::Invalid { path: path.to_owned(), error: e }),
            },
        }
    }

    /// How to write the config to `path`. What is written loads as the normal form of the config.
    pub fn save_to(&self, path: &str) -> (r: Result<FileWrite, TooManyQuotes>)
        ensures
            match r {
                Ok(w) => can_save(self@) && w@ == write_of(
                    path@,
                    document::toml_text(config_tree(self@)),
                ) && loaded(path@, FileText::Text(w.text)) == Ok::<ConfigView, LoadErrorView>(
                    normal_config(self@),
                ),
                Err(_) => !can_save(self@),
            },
    {
        match self.to_toml() {
            Ok(s) => Ok(atomic_write(path, s)),
            Err(e) => Err(e),
        }
    }

    /// How to write the config to the default path.
    pub fn save(&self) -> (r: Result<FileWrite, TooManyQuotes>)
        ensures
            match r {
                Ok(w) => can_save(self@) && exists|dir: Option<Seq<char>>|
                    w@ == #[trigger] write_of(
                        config_path_text(dir),
                        document::toml_text(config_tree(self@)),
                    ),
                Err(_) => !can_save(self@),
            },
    {
        self.save_to(config_path().as_str())
    }

    /// A copy.
    pub fn duplicate(&self) -> (r: Config)
        ensures
            r@ == self@,
    {
        Config { defaults: self.defaults.duplicate(), recent_dirs: self.recent_dirs.clone() }
    }
}

/// What the program starts with: the configuration, whether its file may be written, and what is
/// to be said of it.
#[derive(Debug)]
pub struct Startup {
    pub config: Config,
    pub writable: bool,
    pub error: Option<String>,
}

/// What is said of a config file that could not be used.
pub open spec fn startup_error(p: Seq<char>, e: LoadErrorView) -> Seq<char> {
    "invalid config "@ + p + " — using defaults in memory, will not overwrite: "@
        + load_error_text(e)
}

/// What the program starts with, by what the file at `path` holds. A file that is there and could
/// not be used is never overwritten.
pub fn startup(path: &str, file: &FileText) -> (r: Startup)
    ensures
        match loaded(path@, *file) {
            Ok(c) => r.config@ == c && r.writable && r.error is None,
            Err(e) => r.config@ == no_config() && !r.writable && text::opt_text(r.error) == Some(
                startup_error(path@, e),
            ),
        },
{
    match Config::load_from(path, file) {
        Ok(config) => Startup { config, writable: true, error: None },
        Err(e) => {
            let mut text = "invalid config ".to_owned();
            text.append(path);
            text.append(" — using defaults in memory, will not overwrite: ");
            text.append(e.message().as_str());
            Startup { config: Config::default(), writable: false, error: Some(text) }
        },
    }
}

/// Whether an option is the trimmed text of a default, and missing where that is missing or blank.
pub open spec fn trimmed_from(option: Option<Seq<char>>, default: Option<Seq<char>>) -> bool {
    match default {
        Some(t) => if text::blank(t) {
            option is None
        } else {
            option == Some(text::trim(t))
        },
        None => option is None,
    }
}

/// The options of a start are the defaults, field by field: each text is the trimmed text of the
/// default of the same name, each switch is the switch of the same name, and there are no further
/// directories.
pub proof fn options_come_from_defaults(d: DefaultsView)
    ensures
        trimmed_from(options_of(d).runner_id, d.runner_id),
        trimmed_from(options_of(d).mode, d.mode),
        trimmed_from(options_of(d).log_level, d.log_level),
        trimmed_from(options_of(d).settings_file, d.settings_file),
        trimmed_from(options_of(d).mcp_config, d.mcp_config),
        trimmed_from(options_of(d).visibility, d.visibility),
        options_of(d).remote_control_terminal == d.remote_control_terminal,
        options_of(d).discover_dirs == d.discover_dirs,
        options_of(d).amp_env == d.amp_env,
        options_of(d).extra_dirs.len() == 0,
{
    text::blank_values_are_none(d.runner_id);
    text::blank_values_are_none(d.mode);
    text::blank_values_are_none(d.log_level);
    text::blank_values_are_none(d.settings_file);
    text::blank_values_are_none(d.mcp_config);
    text::blank_values_are_none(d.visibility);
}

proof fn lemma_default_told(
    all: Seq<Seq<char>>,
    flag: Seq<char>,
    option: Option<Seq<char>>,
    default: Option<Seq<char>>,
)
    requires
        trimmed_from(option, default),
        args::told_flag(all, flag, option),
    ensures
        args::told_flag(all, flag, default),
{
    if default is Some && !text::blank(default->0) {
        let t = text::trim(default->0);
        text::trim_is_stable(default->0);
        let a = text::trimming_drops_only_spaces(default->0);
        let b = text::trimming_drops_only_spaces(t);
        assert(!text::blank(t));
    }
}

/// A runner that is started with the defaults is told each of them by the flag of its name: the
/// settings file directly behind `--settings-file`, the MCP config directly behind `--mcp-config`,
/// and so the others, each trimmed, where it is there and not blank.
pub proof fn defaults_reach_the_start(d: DefaultsView)
    ensures
        ({
            let all = args::start_args(options_of(d));
            &&& args::told_flag(all, "--runner-id"@, d.runner_id)
            &&& args::told_flag(all, "--mode"@, d.mode)
            &&& args::told_flag(all, "--log-level"@, d.log_level)
            &&& args::told_flag(all, "--settings-file"@, d.settings_file)
            &&& args::told_flag(all, "--mcp-config"@, d.mcp_config)
            &&& args::told_flag(all, "--visibility"@, d.visibility)
            &&& d.remote_control_terminal ==> all.contains("--remote-control-terminal"@)
            &&& d.discover_dirs ==> all.contains("--discover-dirs"@)
            &&& d.amp_env ==> all.contains("--amp-env"@)
            &&& all.len() == 1 + args::taken(d.runner_id) + args::taken(d.mode) + args::taken(
                d.log_level,
            ) + args::taken(d.settings_file) + args::taken(d.mcp_config) + args::taken(d.visibility)
                + args::set_flag(d.remote_control_terminal) + args::set_flag(d.discover_dirs)
                + args::set_flag(d.amp_env)
        }),
{
    let o = options_of(d);
    let all = args::start_args(o);
    options_come_from_defaults(d);
    args::options_follow_their_flags(o);
    args::start_tells_nothing_else(o);
    lemma_default_told(all, "--runner-id"@, o.runner_id, d.runner_id);
    lemma_default_told(all, "--mode"@, o.mode, d.mode);
    lemma_default_told(all, "--log-level"@, o.log_level, d.log_level);
    lemma_default_told(all, "--settings-file"@, o.settings_file, d.settings_file);
    lemma_default_told(all, "--mcp-config"@, o.mcp_config, d.mcp_config);
    lemma_default_told(all, "--visibility"@, o.visibility, d.visibility);
    lemma_taken(o.runner_id, d.runner_id);
    lemma_taken(o.mode, d.mode);
    lemma_taken(o.log_level, d.log_level);
    lemma_taken(o.settings_file, d.settings_file);
    lemma_taken(o.mcp_config, d.mcp_config);
    lemma_taken(o.visibility, d.visibility);
}

proof fn lemma_taken(option: Option<Seq<char>>, default: Option<Seq<char>>)
    requires
        trimmed_from(option, default),
    ensures
        args::taken(option) == args::taken(default),
{
    if default is Some && !text::blank(default->0) {
        let t = text::trim(default->0);
        text::trim_is_stable(default->0);
        let a = text::trimming_drops_only_spaces(default->0);
        let b = text::trimming_drops_only_spaces(t);
    }
}

/// Whether a table has a text under a name, and nothing where there is none.
pub open spec fn text_under(
    entries: Seq<(Seq<char>, TomlView)>,
    key: Seq<char>,
    value: Option<Seq<char>>,
) -> bool {
    document::entry(entries, key) == match value {
        Some(s) => Some(TomlView::Text(s)),
        None => None,
    }
}

/// A config is written with each default under its own name, the switches as booleans, and the recent
/// directories as a list, in their order.
pub proof fn fields_are_written_under_their_names(c: ConfigView)
    ensures
        config_tree(c) is Table,
        ({
            let top = config_tree(c)->Table_0;
            let table = document::entry(top, "defaults"@);
            let list = document::entry(top, "recent_dirs"@);
            let d = table->0->Table_0;
            &&& table is Some && table->0 is Table
            &&& text_under(d, "runner_id"@, c.defaults.runner_id)
            &&& text_under(d, "mode"@, c.defaults.mode)
            &&& text_under(d, "log_level"@, c.defaults.log_level)
            &&& text_under(d, "settings_file"@, c.defaults.settings_file)
            &&& text_under(d, "mcp_config"@, c.defaults.mcp_config)
            &&& text_under(d, "visibility"@, c.defaults.visibility)
            &&& document::entry(d, "remote_control_terminal"@) == Some(
                TomlView::Boolean(c.defaults.remote_control_terminal),
            )
            &&& document::entry(d, "discover_dirs"@) == Some(
                TomlView::Boolean(c.defaults.discover_dirs),
            )
            &&& document::entry(d, "amp_env"@) == Some(TomlView::Boolean(c.defaults.amp_env))
            &&& list is Some && list->0 is Array
            &&& list->0->Array_0.len() == c.recent_dirs.len()
            &&& forall|i: int|
                0 <= i < c.recent_dirs.len() ==> list->0->Array_0[i] == TomlView::Text(
                    #[trigger] c.recent_dirs[i],
                )
        }),
{
    lemma_tree_entries(c);
    lemma_written_fields(c.defaults, 9);
    lemma_default_keys();
    let d = written_fields(c.defaults, 9);
    assert forall|k: int| 0 <= k < 9 implies document::entry(d, #[trigger] default_keys()[k])
        == written_field(c.defaults, k) by {}
    let keys = default_keys();
    assert(keys[0] == "runner_id"@);
    assert(keys[1] == "mode"@);
    assert(keys[2] == "log_level"@);
    assert(keys[3] == "settings_file"@);
    assert(keys[4] == "mcp_config"@);
    assert(keys[5] == "visibility"@);
    assert(keys[6] == "remote_control_terminal"@);
    assert(keys[7] == "discover_dirs"@);
    assert(keys[8] == "amp_env"@);
}

/// Whether a text of a config is what a document has under a name: its trimmed text.
pub open spec fn read_from(value: Option<Seq<char>>, found: Option<TomlView>) -> bool {
    match found {
        Some(TomlView::Text(s)) => trimmed_from(value, Some(s)),
        Some(TomlView::Datetime(s)) => trimmed_from(value, Some(s)),
        Some(_) => false,
        None => value is None,
    }
}

/// Whether a switch of a config is what a document has under a name, and off where it has nothing.
pub open spec fn switch_from(value: bool, found: Option<TomlView>) -> bool {
    match found {
        Some(TomlView::Boolean(b)) => value == b,
        Some(_) => false,
        None => !value,
    }
}

/// A config that a document gives has each default from the entry of its own name.
pub proof fn fields_are_read_by_their_names(
    top: Seq<(Seq<char>, TomlView)>,
    d: Seq<(Seq<char>, TomlView)>,
)
    requires
        document::entry(top, "defaults"@) == Some(TomlView::Table(d)),
        config_of(TomlView::Table(top)) is Some,
    ensures
        ({
            let c = config_of(TomlView::Table(top))->0.defaults;
            &&& read_from(c.runner_id, document::entry(d, "runner_id"@))
            &&& read_from(c.mode, document::entry(d, "mode"@))
            &&& read_from(c.log_level, document::entry(d, "log_level"@))
            &&& read_from(c.settings_file, document::entry(d, "settings_file"@))
            &&& read_from(c.mcp_config, document::entry(d, "mcp_config"@))
            &&& read_from(c.visibility, document::entry(d, "visibility"@))
            &&& switch_from(
                c.remote_control_terminal,
                document::entry(d, "remote_control_terminal"@),
            )
            &&& switch_from(c.discover_dirs, document::entry(d, "discover_dirs"@))
            &&& switch_from(c.amp_env, document::entry(d, "amp_env"@))
        }),
{
    let fields = default_fields(Some(TomlView::Table(d)))->0;
    let keys = default_keys();
    assert forall|k: int| 0 <= k < 9 implies #[trigger] fields[k] == document::entry(
        d,
        keys[k],
    ) by {}
    assert(fields[0] == document::entry(d, "runner_id"@));
    assert(fields[1] == document::entry(d, "mode"@));
    assert(fields[2] == document::entry(d, "log_level"@));
    assert(fields[3] == document::entry(d, "settings_file"@));
    assert(fields[4] == document::entry(d, "mcp_config"@));
    assert(fields[5] == document::entry(d, "visibility"@));
    assert(fields[6] == document::entry(d, "remote_control_terminal"@));
    assert(fields[7] == document::entry(d, "discover_dirs"@));
    assert(fields[8] == document::entry(d, "amp_env"@));
    normalising_trims_each_field(defaults_of(fields)->0);
}

/// A normal config has each text of the defaults trimmed, or not at all where it is blank, and the
/// switches as they are.
pub proof fn normalising_trims_each_field(d: DefaultsView)
    ensures
        trimmed_from(normal_defaults(d).runner_id, d.runner_id),
        trimmed_from(normal_defaults(d).mode, d.mode),
        trimmed_from(normal_defaults(d).log_level, d.log_level),
        trimmed_from(normal_defaults(d).settings_file, d.settings_file),
        trimmed_from(normal_defaults(d).mcp_config, d.mcp_config),
        trimmed_from(normal_defaults(d).visibility, d.visibility),
        normal_defaults(d).remote_control_terminal == d.remote_control_terminal,
        normal_defaults(d).discover_dirs == d.discover_dirs,
        normal_defaults(d).amp_env == d.amp_env,
{
    text::blank_values_are_none(d.runner_id);
    text::blank_values_are_none(d.mode);
    text::blank_values_are_none(d.log_level);
    text::blank_values_are_none(d.settings_file);
    text::blank_values_are_none(d.mcp_config);
    text::blank_values_are_none(d.visibility);
}

proof fn lemma_not_blank_add(a: Seq<Seq<char>>, b: Seq<Seq<char>>)
    ensures
        not_blank(a + b) == not_blank(a) + not_blank(b),
    decreases b.len(),
{
    if b.len() == 0 {
        assert(a + b =~= a);
        assert(not_blank(a) + not_blank(b) =~= not_blank(a));
    } else {
        assert((a + b).drop_last() =~= a + b.drop_last());
        lemma_not_blank_add(a, b.drop_last());
        assert(not_blank(a + b) =~= not_blank(a) + not_blank(b));
    }
}

/// A normal config has the recent directories that are not blank, in their order and as they are, and
/// of them the first 12.
pub proof fn normal_lists_drop_blanks(a: Seq<Seq<char>>, x: Seq<char>, b: Seq<Seq<char>>)
    ensures
        text::blank(x) ==> not_blank(a.push(x) + b) == not_blank(a + b),
        !text::blank(x) ==> not_blank(a.push(x) + b) == not_blank(a).push(x) + not_blank(b),
        not_blank(a).len() <= a.len(),
        capped(a).is_prefix_of(a),
        capped(a).len() == if a.len() < 12 {
            a.len()
        } else {
            12
        },
        normal_config(
            ConfigView { defaults: no_defaults(), recent_dirs: a },
        ).recent_dirs == capped(not_blank(a)),
    decreases a.len(),
{
    let cut = text::trimming_drops_only_spaces(x);
    lemma_not_blank_add(a.push(x), b);
    lemma_not_blank_add(a, b);
    assert(a.push(x).drop_last() =~= a);
    assert(capped(a) =~= a.take(capped(a).len() as int));
    if a.len() > 0 {
        normal_lists_drop_blanks(a.drop_last(), x, b);
    }
}

proof fn lemma_without_add(a: Seq<Seq<char>>, b: Seq<Seq<char>>, p: Seq<char>)
    ensures
        without(a + b, p) == without(a, p) + without(b, p),
    decreases b.len(),
{
    if b.len() == 0 {
        assert(a + b =~= a);
        assert(without(a, p) + without(b, p) =~= without(a, p));
    } else {
        assert((a + b).drop_last() =~= a + b.drop_last());
        lemma_without_add(a, b.drop_last(), p);
        assert(without(a + b, p) =~= without(a, p) + without(b, p));
    }
}

proof fn lemma_without_absent(v: Seq<Seq<char>>, p: Seq<char>)
    requires
        !v.contains(p),
    ensures
        without(v, p) == v,
    decreases v.len(),
{
    if v.len() > 0 {
        assert(v[v.len() - 1] != p);
        assert forall|i: int| 0 <= i < v.drop_last().len() implies v.drop_last()[i] != p by {
            assert(v[i] != p);
        }
        lemma_without_absent(v.drop_last(), p);
        assert(v.drop_last().push(v.last()) =~= v);
    }
}

/// A used directory comes first in the recent ones, once; the others follow in their order, and only
/// those beyond the 12th go.
pub proof fn recent_directories_move_up(a: Seq<Seq<char>>, p: Seq<char>, b: Seq<Seq<char>>)
    requires
        p.len() > 0,
        !a.contains(p),
        !b.contains(p),
    ensures
        remembered(a + b, p) == capped(seq![p] + a + b),
        remembered(a.push(p) + b, p) == capped(seq![p] + a + b),
        a.len() + b.len() < 12 ==> remembered(a + b, p) == seq![p] + a + b,
        a.len() + b.len() < 12 ==> remembered(a.push(p) + b, p) == seq![p] + a + b,
        remembered(a, Seq::empty()) == a,
{
    lemma_without_absent(a, p);
    lemma_without_absent(b, p);
    lemma_without_add(a, b, p);
    lemma_without_add(a.push(p), b, p);
    assert(a.push(p).drop_last() =~= a);
    assert(seq![p] + (a + b) =~= seq![p] + a + b);
}

/// The recent directories of a document are those of its own list where that has any, and else those
/// in the table of defaults.
pub proof fn misplaced_directories_are_found(top: Seq<(Seq<char>, TomlView)>, dirs: Seq<Seq<char>>)
    requires
        config_of(TomlView::Table(top)) is Some,
        document::entry(top, "recent_dirs"@) == Some(document::text_array(dirs)),
    ensures
        dirs.len() > 0 ==> config_of(TomlView::Table(top))->0.recent_dirs == capped(
            not_blank(dirs),
        ),
        dirs.len() == 0 ==> config_of(TomlView::Table(top))->0.recent_dirs == capped(
            not_blank(misplaced_dirs(document::entry(top, "defaults"@))),
        ),
{
    lemma_text_array(dirs);
}

/// A missing file and a blank one give an empty config; a file that cannot be read or used gives an
/// error that names it.
pub proof fn unusable_files_are_named(p: Seq<char>, raw: String, detail: String)
    ensures
        loaded(p, FileText::Missing) == Ok::<ConfigView, LoadErrorView>(no_config()),
        text::blank(raw@) ==> loaded(p, FileText::Text(raw)) == Ok::<ConfigView, LoadErrorView>(
            no_config(),
        ),
        no_config().recent_dirs.len() == 0,
        options_of(no_config().defaults) == runner::no_options(),
        loaded(p, FileText::Unreadable(detail)) == Err::<ConfigView, LoadErrorView>(
            LoadErrorView::Unreadable { path: p, detail: detail@ },
        ),
        loaded(p, FileText::Text(raw)) is Err ==> loaded(p, FileText::Text(raw))->Err_0 is Invalid
            && loaded(p, FileText::Text(raw))->Err_0->Invalid_path == p,
        !text::blank(raw@) && document::toml_document(raw@) is Err ==> loaded(
            p,
            FileText::Text(raw),
        ) is Err,
{
    let cut = text::trimming_drops_only_spaces(raw@);
}

/// A file is written whole beside its place first, and then put in its place.
pub proof fn files_are_written_beside(p: Seq<char>, content: Seq<char>)
    ensures
        write_of(p, content).path == p,
        write_of(p, content).text == content,
        write_of(p, content).temp != p,
        write_of(p, content).temp == p + seq!['.', 't', 'm', 'p'],
        write_of(p, content).dir == path::parent_text(p),
{
    reveal_strlit(".tmp");
    assert(".tmp"@ =~= seq!['.', 't', 'm', 'p']);
    assert(write_of(p, content).temp.len() == p.len() + 4);
}

/// The config file is `lazyamp/config.toml` below the config directory, and the state is in `lazyamp`
/// below the state directory, or the data directory where there is none.
pub proof fn files_have_their_places(dir: Seq<char>, other: Seq<char>)
    requires
        dir.len() > 0,
        dir.last() != '/',
    ensures
        config_path_text(Some(dir)) == dir + "/lazyamp/config.toml"@,
        config_path_text(None) == ".config/lazyamp/config.toml"@,
        state_dir_text(state_home_of(Some(dir), Some(other))) == dir + "/lazyamp"@,
        state_dir_text(state_home_of(None, Some(dir))) == dir + "/lazyamp"@,
        state_dir_text(state_home_of(None, None)) == ".local/state/lazyamp"@,
{
    reveal_strlit(".config");
    reveal_strlit("lazyamp");
    reveal_strlit("config.toml");
    reveal_strlit("/lazyamp/config.toml");
    reveal_strlit(".config/lazyamp/config.toml");
    reveal_strlit("/lazyamp");
    reveal_strlit(".local");
    reveal_strlit("state");
    reveal_strlit(".local/state/lazyamp");
    assert(config_path_text(Some(dir)) =~= dir + "/lazyamp/config.toml"@);
    assert(config_path_text(None) =~= ".config/lazyamp/config.toml"@);
    assert(state_dir_text(Some(dir)) =~= dir + "/lazyamp"@);
    assert(state_dir_text(None) =~= ".local/state/lazyamp"@);
}

/// A value that is none of the choices has no next one.
pub proof fn unknown_values_are_dropped(current: Seq<char>, choices: Seq<Seq<char>>)
    requires
        choices.len() > 0,
        forall|i: int|
            0 <= i < choices.len() ==> !text::same_but_case(
                #[trigger] choices[i],
                text::trim(current),
            ),
    ensures
        text::blank(current) ==> next_choice(Some(current), choices) == Some(choices[0]),
        !text::blank(current) ==> next_choice(Some(current), choices) is None,
{
    text::blank_values_are_none(Some(current));
    lemma_no_choice(choices, text::trim(current), 0);
}

proof fn lemma_no_choice(choices: Seq<Seq<char>>, cur: Seq<char>, i: int)
    requires
        0 <= i,
        forall|j: int| 0 <= j < choices.len() ==> !text::same_but_case(#[trigger] choices[j], cur),
    ensures
        choice_from(choices, cur, i) is None,
    decreases choices.len() - i,
{
    if i < choices.len() {
        assert(!text::same_but_case(choices[i], cur));
        lemma_no_choice(choices, cur, i + 1);
    }
}

/// Directories that stand in the table of defaults are the texts of the list there, in their order.
pub proof fn misplaced_lists_are_read(
    d: Seq<(Seq<char>, TomlView)>,
    items: Seq<TomlView>,
    v: TomlView,
)
    ensures
        document::entry(d, "recent_dirs"@) == Some(TomlView::Array(items)) ==> misplaced_dirs(
            Some(TomlView::Table(d)),
        ) == strings_among(items),
        document::entry(d, "recent_dirs"@) is None ==> misplaced_dirs(
            Some(TomlView::Table(d)),
        ).len() == 0,
        v is Text ==> strings_among(items.push(v)) == strings_among(items).push(v->Text_0),
        !(v is Text) ==> strings_among(items.push(v)) == strings_among(items),
        strings_among(Seq::empty()).len() == 0,
{
    assert(items.push(v).drop_last() =~= items);
}

/// Defaults that are written as a list have their values in the order of the fields, and lack those
/// behind its end.
pub proof fn listed_defaults_are_read_in_order(
    top: Seq<(Seq<char>, TomlView)>,
    items: Seq<TomlView>,
)
    requires
        document::entry(top, "defaults"@) == Some(TomlView::Array(items)),
        config_of(TomlView::Table(top)) is Some,
    ensures
        ({
            let c = config_of(TomlView::Table(top))->0.defaults;
            let at = |i: int|
                if i < items.len() {
                    Some(items[i])
                } else {
                    None
                };
            &&& items.len() <= 9
            &&& read_from(c.runner_id, at(0))
            &&& read_from(c.mode, at(1))
            &&& read_from(c.log_level, at(2))
            &&& read_from(c.settings_file, at(3))
            &&& read_from(c.mcp_config, at(4))
            &&& read_from(c.visibility, at(5))
            &&& switch_from(c.remote_control_terminal, at(6))
            &&& switch_from(c.discover_dirs, at(7))
            &&& switch_from(c.amp_env, at(8))
        }),
{
    let fields = placed_fields(items);
    normalising_trims_each_field(defaults_of(fields)->0);
}

/// Whether a value can be a text of a config: a text or a date.
pub open spec fn text_like(v: TomlView) -> bool {
    v is Text || v is Datetime
}

/// A document gives a config where each of its defaults is of the kind of its field and the recent
/// directories are a list of texts; a value of another kind gives none.
pub proof fn kinds_are_checked(
    top: Seq<(Seq<char>, TomlView)>,
    d: Seq<(Seq<char>, TomlView)>,
    key: int,
)
    requires
        document::entry(top, "defaults"@) == Some(TomlView::Table(d)),
        document::entry(top, "recent_dirs"@) is None,
        0 <= key < 9,
    ensures
        ({
            let texts = seq![
                "runner_id"@,
                "mode"@,
                "log_level"@,
                "settings_file"@,
                "mcp_config"@,
                "visibility"@,
            ];
            let switches = seq!["remote_control_terminal"@, "discover_dirs"@, "amp_env"@];
            let found = config_of(TomlView::Table(top)) is Some;
            &&& key < 6 && document::entry(d, texts[key]) is Some && !text_like(
                document::entry(d, texts[key])->0,
            ) ==> !found
            &&& key < 3 && document::entry(d, switches[key]) is Some && !(document::entry(
                d,
                switches[key],
            )->0 is Boolean) ==> !found
            &&& (forall|k: int|
                0 <= k < 6 && document::entry(d, #[trigger] texts[k]) is Some ==> text_like(
                    document::entry(d, texts[k])->0,
                )) && (forall|k: int|
                0 <= k < 3 && document::entry(d, #[trigger] switches[k]) is Some
                    ==> document::entry(d, switches[k])->0 is Boolean) ==> found
        }),
{
    let fields = default_fields(Some(TomlView::Table(d)))->0;
    let texts = seq![
        "runner_id"@,
        "mode"@,
        "log_level"@,
        "settings_file"@,
        "mcp_config"@,
        "visibility"@,
    ];
    let switches = seq!["remote_control_terminal"@, "discover_dirs"@, "amp_env"@];
    assert(fields[0] == document::entry(d, texts[0]));
    assert(fields[1] == document::entry(d, texts[1]));
    assert(fields[2] == document::entry(d, texts[2]));
    assert(fields[3] == document::entry(d, texts[3]));
    assert(fields[4] == document::entry(d, texts[4]));
    assert(fields[5] == document::entry(d, texts[5]));
    assert(fields[6] == document::entry(d, switches[0]));
    assert(fields[7] == document::entry(d, switches[1]));
    assert(fields[8] == document::entry(d, switches[2]));
    if key < 6 {
        assert(fields[key] == document::entry(d, texts[key]));
    }
    if key < 3 {
        assert(fields[key + 6] == document::entry(d, switches[key]));
    }
}

proof fn lemma_fault_found(f: Seq<Option<TomlView>>, order: Seq<usize>, i: int)
    requires
        0 <= i,
    ensures
        match first_fault(f, order, i) {
            Some((k, m)) => field_fault(f[k as int], k as int) == Some(m) && order.contains(k),
            None => true,
        },
    decreases order.len() - i,
{
    if i < order.len() {
        if field_fault(f[order[i] as int], order[i] as int) is Some {
            assert(order.contains(order[i]));
        } else {
            lemma_fault_found(f, order, i + 1);
        }
    }
}

/// Whether a fault is about an entry of the defaults: it names the entry, which is there and of another
/// kind than its field.
pub open spec fn fault_names(fault: Seq<char>, d: Seq<(Seq<char>, TomlView)>, k: int) -> bool {
    let found = document::entry(d, default_keys()[k]);
    &&& 0 <= k < 9
    &&& found is Some
    &&& k < 6 ==> !text_like(found->0)
    &&& k >= 6 ==> !(found->0 is Boolean)
    &&& text::holds(fault, "defaults."@ + default_keys()[k])
}

/// A fault in the table of defaults names an entry of it that is of another kind than its field; one in
/// the recent directories names them.
pub proof fn faults_name_their_entry(d: Seq<(Seq<char>, TomlView)>, v: TomlView)
    ensures
        defaults_fault(Some(TomlView::Table(d))) is Some ==> exists|k: int| #[trigger]
            fault_names(defaults_fault(Some(TomlView::Table(d)))->0, d, k),
        list_fault(Some(v)) is Some ==> text::holds(list_fault(Some(v))->0, "recent_dirs"@),
{
    let t = Some(TomlView::Table(d));
    let f = default_fields(t)->0;
    lemma_fault_found(f, name_order(), 0);
    match first_fault(f, name_order(), 0) {
        Some((k, m)) => {
            let o = name_order();
            let j = choose|j: int| 0 <= j < o.len() && o[j] == k;
            assert(0 <= k < 9);
            assert(f[k as int] == document::entry(d, default_keys()[k as int]));
            let key = "defaults."@ + default_keys()[k as int];
            text::lemma_holds(m + "\nin `"@, key, "`\n"@);
            assert(fault_names(defaults_fault(t)->0, d, k as int));
        },
        None => {},
    }
    match v {
        TomlView::Array(items) => {
            if first_other(items, 0) is Some {
                let m = document::type_fault(first_other(items, 0)->0, "a string"@);
                text::lemma_holds(m + "\nin `"@, "recent_dirs"@, "`\n"@);
            }
        },
        _ => {
            let m = document::type_fault(v, "a sequence"@);
            text::lemma_holds(m + "\nin `"@, "recent_dirs"@, "`\n"@);
        },
    }
}

/// The messages about a config file hold its path and the cause.
pub proof fn config_messages_name_the_file(
    p: Seq<char>,
    detail: Seq<char>,
    error: ConfigErrorView,
    e: LoadErrorView,
)
    ensures
        ({
            let t = load_error_text(LoadErrorView::Unreadable { path: p, detail });
            text::holds(t, p) && text::has_suffix(t, detail)
        }),
        ({
            let t = load_error_text(LoadErrorView::Invalid { path: p, error });
            text::holds(t, p) && text::has_suffix(
                t,
                match error {
                    ConfigErrorView::Syntax(s) => s,
                    ConfigErrorView::Shape(s) => s,
                },
            )
        }),
        text::holds(startup_error(p, e), p),
        text::has_suffix(startup_error(p, e), load_error_text(e)),
{
    let a = load_error_text(LoadErrorView::Unreadable { path: p, detail });
    text::lemma_holds("failed to read "@, p, ": "@ + detail);
    assert("failed to read "@ + p + (": "@ + detail) =~= a);
    text::prefixes_and_rests(detail, "failed to read "@ + p + ": "@, a);
    let b = load_error_text(LoadErrorView::Invalid { path: p, error });
    let said = config_error_text(error);
    let cause = match error {
        ConfigErrorView::Syntax(s) => s,
        ConfigErrorView::Shape(s) => s,
    };
    text::lemma_holds("failed to parse "@, p, ": "@ + said);
    assert("failed to parse "@ + p + (": "@ + said) =~= b);
    let head = "failed to parse "@ + p + ": "@ + "invalid lazyamp config.toml: "@;
    assert(head + cause =~= b);
    text::prefixes_and_rests(cause, head, b);
    let tail = " — using defaults in memory, will not overwrite: "@;
    let s = startup_error(p, e);
    text::lemma_holds("invalid config "@, p, tail + load_error_text(e));
    assert("invalid config "@ + p + (tail + load_error_text(e)) =~= s);
    text::prefixes_and_rests(load_error_text(e), "invalid config "@ + p + tail, s);
}

} // verus!
