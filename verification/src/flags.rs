//! The panel of common flags: its fields, and what a key does to them.
use vstd::prelude::*;
use crate::args;
use crate::config;
use crate::config::{
    cycle_choice, DefaultsView, StartDefaults, LOG_LEVELS, MODES, VISIBILITIES,
};
use crate::text;
use crate::text::{borrowed, nonempty};

verus! {

/// A field of the flags panel.
#[derive(Debug, Clone, Copy, PartialEq, Eq, Structural)]
pub enum FlagField {
    RunnerId,
    Mode,
    LogLevel,
    Visibility,
    SettingsFile,
    McpConfig,
    RemoteControl,
    DiscoverDirs,
    AmpEnv,
}

/// The fields from top to bottom.
pub open spec fn all_fields() -> Seq<FlagField> {
    seq![
        FlagField::RunnerId,
        FlagField::Mode,
        FlagField::LogLevel,
        FlagField::Visibility,
        FlagField::SettingsFile,
        FlagField::McpConfig,
        FlagField::RemoteControl,
        FlagField::DiscoverDirs,
        FlagField::AmpEnv,
    ]
}

/// The place of a field from the top.
pub open spec fn place(f: FlagField) -> int {
    match f {
        FlagField::RunnerId => 0,
        FlagField::Mode => 1,
        FlagField::LogLevel => 2,
        FlagField::Visibility => 3,
        FlagField::SettingsFile => 4,
        FlagField::McpConfig => 5,
        FlagField::RemoteControl => 6,
        FlagField::DiscoverDirs => 7,
        FlagField::AmpEnv => 8,
    }
}

/// The field below, round the end.
pub open spec fn field_below(f: FlagField) -> FlagField {
    all_fields()[(place(f) + 1) % 9]
}

/// The field above, round the start.
pub open spec fn field_above(f: FlagField) -> FlagField {
    all_fields()[(place(f) + 8) % 9]
}

/// Whether a field is edited as text.
pub open spec fn text_field(f: FlagField) -> bool {
    f == FlagField::RunnerId || f == FlagField::SettingsFile || f == FlagField::McpConfig
}

/// Whether a field goes through choices.
pub open spec fn cycle_field(f: FlagField) -> bool {
    f == FlagField::Mode || f == FlagField::LogLevel || f == FlagField::Visibility
}

/// The flag that a field stands for.
pub open spec fn flag_name(f: FlagField) -> Seq<char> {
    match f {
        FlagField::RunnerId => "--runner-id"@,
        FlagField::Mode => "--mode"@,
        FlagField::LogLevel => "--log-level"@,
        FlagField::Visibility => "--visibility"@,
        FlagField::SettingsFile => "--settings-file"@,
        FlagField::McpConfig => "--mcp-config"@,
        FlagField::RemoteControl => "--remote-control-terminal"@,
        FlagField::DiscoverDirs => "--discover-dirs"@,
        FlagField::AmpEnv => "--amp-env"@,
    }
}

impl FlagField {
    /// The fields from top to bottom.
    pub fn all() -> (r: Vec<FlagField>)
        ensures
            r@ == all_fields(),
    {
        vec![
            FlagField::RunnerId,
            FlagField::Mode,
            FlagField::LogLevel,
            FlagField::Visibility,
            FlagField::SettingsFile,
            FlagField::McpConfig,
            FlagField::RemoteControl,
            FlagField::DiscoverDirs,
            FlagField::AmpEnv,
        ]
    }

    /// The field below, round the end.
    pub fn next(self) -> (r: FlagField)
        ensures
            r == field_below(self),
    {
        match self {
            FlagField::RunnerId => FlagField::Mode,
            FlagField::Mode => FlagField::LogLevel,
            FlagField::LogLevel => FlagField::Visibility,
            FlagField::Visibility => FlagField::SettingsFile,
            FlagField::SettingsFile => FlagField::McpConfig,
            FlagField::McpConfig => FlagField::RemoteControl,
            FlagField::RemoteControl => FlagField::DiscoverDirs,
            FlagField::DiscoverDirs => FlagField::AmpEnv,
            FlagField::AmpEnv => FlagField::RunnerId,
        }
    }

    /// The field above, round the start.
    pub fn prev(self) -> (r: FlagField)
        ensures
            r == field_above(self),
    {
        match self {
            FlagField::RunnerId => FlagField::AmpEnv,
            FlagField::Mode => FlagField::RunnerId,
            FlagField::LogLevel => FlagField::Mode,
            FlagField::Visibility => FlagField::LogLevel,
            FlagField::SettingsFile => FlagField::Visibility,
            FlagField::McpConfig => FlagField::SettingsFile,
            FlagField::RemoteControl => FlagField::McpConfig,
            FlagField::DiscoverDirs => FlagField::RemoteControl,
            FlagField::AmpEnv => FlagField::DiscoverDirs,
        }
    }

    /// Whether the field is edited as text.
    pub fn is_text(self) -> (r: bool)
        ensures
            r == text_field(self),
    {
        self == FlagField::RunnerId || self == FlagField::SettingsFile || self
            == FlagField::McpConfig
    }

    /// Whether the field goes through choices.
    pub fn is_cycle(self) -> (r: bool)
        ensures
            r == cycle_field(self),
    {
        self == FlagField::Mode || self == FlagField::LogLevel || self == FlagField::Visibility
    }

    /// The flag that the field stands for.
    pub fn label(self) -> (r: &'static str)
        ensures
            r@ == flag_name(self),
    {
        match self {
            FlagField::RunnerId => "--runner-id",
            FlagField::Mode => "--mode",
            FlagField::LogLevel => "--log-level",
            FlagField::Visibility => "--visibility",
            FlagField::SettingsFile => "--settings-file",
            FlagField::McpConfig => "--mcp-config",
            FlagField::RemoteControl => "--remote-control-terminal",
            FlagField::DiscoverDirs => "--discover-dirs",
            FlagField::AmpEnv => "--amp-env",
        }
    }
}

/// One step down undoes one step up, and the other way round; every field is reached.
pub proof fn fields_go_round(f: FlagField)
    ensures
        field_above(field_below(f)) == f,
        field_below(field_above(f)) == f,
        all_fields()[place(f)] == f,
{
}

/// The text that a text field holds.
pub open spec fn field_text(d: DefaultsView, f: FlagField) -> Option<Seq<char>> {
    match f {
        FlagField::RunnerId => d.runner_id,
        FlagField::SettingsFile => d.settings_file,
        FlagField::McpConfig => d.mcp_config,
        _ => None,
    }
}

/// The text that a text field holds.
pub fn flag_text(flags: &StartDefaults, field: FlagField) -> (r: Option<String>)
    ensures
        text::opt_text(r) == field_text(flags@, field),
{
    match field {
        FlagField::RunnerId => flags.runner_id.clone(),
        FlagField::SettingsFile => flags.settings_file.clone(),
        FlagField::McpConfig => flags.mcp_config.clone(),
        _ => None,
    }
}

/// A text, or a word in its place.
pub open spec fn text_or(v: Option<Seq<char>>, word: Seq<char>) -> Seq<char> {
    match v {
        Some(s) => s,
        None => word,
    }
}

/// How a switch reads.
pub open spec fn switch_text(on: bool) -> Seq<char> {
    if on {
        "on"@
    } else {
        "off"@
    }
}

/// How the value of a field reads.
pub open spec fn field_shown(d: DefaultsView, f: FlagField) -> Seq<char> {
    match f {
        FlagField::RunnerId => text_or(d.runner_id, "(none)"@),
        FlagField::Mode => text_or(d.mode, "(amp default)"@),
        FlagField::LogLevel => text_or(d.log_level, "(amp default)"@),
        FlagField::Visibility => text_or(d.visibility, "(amp default)"@),
        FlagField::SettingsFile => text_or(d.settings_file, "(none)"@),
        FlagField::McpConfig => text_or(d.mcp_config, "(none)"@),
        FlagField::RemoteControl => switch_text(d.remote_control_terminal),
        FlagField::DiscoverDirs => switch_text(d.discover_dirs),
        FlagField::AmpEnv => switch_text(d.amp_env),
    }
}

fn or_word(v: &Option<String>, word: &str) -> (r: String)
    ensures
        r@ == text_or(text::opt_text(*v), word@),
{
    match v {
        Some(s) => s.clone(),
        None => word.to_owned(),
    }
}

/// How a switch reads.
pub fn on_off(v: bool) -> (r: String)
    ensures
        r@ == switch_text(v),
{
    if v {
        "on".to_owned()
    } else {
        "off".to_owned()
    }
}

/// How the value of a field reads.
pub fn flag_value_display(flags: &StartDefaults, field: FlagField) -> (r: String)
    ensures
        r@ == field_shown(flags@, field),
{
    match field {
        FlagField::RunnerId => or_word(&flags.runner_id, "(none)"),
        FlagField::Mode => or_word(&flags.mode, "(amp default)"),
        FlagField::LogLevel => or_word(&flags.log_level, "(amp default)"),
        FlagField::Visibility => or_word(&flags.visibility, "(amp default)"),
        FlagField::SettingsFile => or_word(&flags.settings_file, "(none)"),
        FlagField::McpConfig => or_word(&flags.mcp_config, "(none)"),
        FlagField::RemoteControl => on_off(flags.remote_control_terminal),
        FlagField::DiscoverDirs => on_off(flags.discover_dirs),
        FlagField::AmpEnv => on_off(flags.amp_env),
    }
}

/// The flags with one field moved on: to its next choice, or to the other position. A text field
/// stays.
pub open spec fn nudged(d: DefaultsView, f: FlagField) -> DefaultsView {
    match f {
        FlagField::Mode => DefaultsView {
            mode: config::next_choice(d.mode, config::choice_texts(MODES@)),
            ..d
        },
        FlagField::LogLevel => DefaultsView {
            log_level: config::next_choice(d.log_level, config::choice_texts(LOG_LEVELS@)),
            ..d
        },
        FlagField::Visibility => DefaultsView {
            visibility: config::next_choice(d.visibility, config::choice_texts(VISIBILITIES@)),
            ..d
        },
        FlagField::RemoteControl => DefaultsView {
            remote_control_terminal: !d.remote_control_terminal,
            ..d
        },
        FlagField::DiscoverDirs => DefaultsView { discover_dirs: !d.discover_dirs, ..d },
        FlagField::AmpEnv => DefaultsView { amp_env: !d.amp_env, ..d },
        _ => d,
    }
}

/// Moves one field on.
pub fn nudge_flag(flags: &mut StartDefaults, field: FlagField)
    ensures
        final(flags)@ == nudged(old(flags)@, field),
{
    match field {
        FlagField::Mode => {
            flags.mode = cycle_choice(borrowed(&flags.mode), &MODES);
        },
        FlagField::LogLevel => {
            flags.log_level = cycle_choice(borrowed(&flags.log_level), &LOG_LEVELS);
        },
        FlagField::Visibility => {
            flags.visibility = cycle_choice(borrowed(&flags.visibility), &VISIBILITIES);
        },
        FlagField::RemoteControl => {
            flags.remote_control_terminal = !flags.remote_control_terminal;
        },
        FlagField::DiscoverDirs => {
            flags.discover_dirs = !flags.discover_dirs;
        },
        FlagField::AmpEnv => {
            flags.amp_env = !flags.amp_env;
        },
        _ => {},
    }
}

/// The flags with a text field set to what was typed, or to none where that is blank.
pub open spec fn edited(d: DefaultsView, f: FlagField, typed: Seq<char>) -> DefaultsView {
    let value = text::nonblank(Some(typed));
    match f {
        FlagField::RunnerId => DefaultsView { runner_id: value, ..d },
        FlagField::SettingsFile => DefaultsView { settings_file: value, ..d },
        FlagField::McpConfig => DefaultsView { mcp_config: value, ..d },
        _ => d,
    }
}

/// Sets a text field to what was typed.
pub fn commit_edit(flags: &mut StartDefaults, field: FlagField, typed: &str)
    ensures
        final(flags)@ == edited(old(flags)@, field, typed@),
{
    let value = nonempty(Some(typed));
    match field {
        FlagField::RunnerId => {
            flags.runner_id = value;
        },
        FlagField::SettingsFile => {
            flags.settings_file = value;
        },
        FlagField::McpConfig => {
            flags.mcp_config = value;
        },
        _ => {},
    }
}

/// The next value of a choice changes that field alone: nothing becomes the first choice, each choice
/// the one behind it, and the last one nothing.
pub proof fn choices_go_in_turn(d: DefaultsView)
    ensures
        nudged(d, FlagField::Mode) == (DefaultsView { mode: nudged(d, FlagField::Mode).mode, ..d }),
        d.mode is None ==> nudged(d, FlagField::Mode).mode == Some("low"@),
        d.mode == Some("low"@) ==> nudged(d, FlagField::Mode).mode == Some("medium"@),
        d.mode == Some("medium"@) ==> nudged(d, FlagField::Mode).mode == Some("high"@),
        d.mode == Some("high"@) ==> nudged(d, FlagField::Mode).mode == Some("ultra"@),
        d.mode == Some("ultra"@) ==> nudged(d, FlagField::Mode).mode is None,
        nudged(d, FlagField::LogLevel) == (DefaultsView {
            log_level: nudged(d, FlagField::LogLevel).log_level,
            ..d
        }),
        d.log_level is None ==> nudged(d, FlagField::LogLevel).log_level == Some("debug"@),
        d.log_level == Some("debug"@) ==> nudged(d, FlagField::LogLevel).log_level == Some("info"@),
        d.log_level == Some("info"@) ==> nudged(d, FlagField::LogLevel).log_level == Some("warn"@),
        d.log_level == Some("warn"@) ==> nudged(d, FlagField::LogLevel).log_level == Some("error"@),
        d.log_level == Some("error"@) ==> nudged(d, FlagField::LogLevel).log_level == Some(
            "audit"@,
        ),
        d.log_level == Some("audit"@) ==> nudged(d, FlagField::LogLevel).log_level is None,
        nudged(d, FlagField::Visibility) == (DefaultsView {
            visibility: nudged(d, FlagField::Visibility).visibility,
            ..d
        }),
        d.visibility is None ==> nudged(d, FlagField::Visibility).visibility == Some("private"@),
        d.visibility == Some("private"@) ==> nudged(d, FlagField::Visibility).visibility == Some(
            "unlisted"@,
        ),
        d.visibility == Some("unlisted"@) ==> nudged(d, FlagField::Visibility).visibility == Some(
            "workspace"@,
        ),
        d.visibility == Some("workspace"@) ==> nudged(d, FlagField::Visibility).visibility == Some(
            "group"@,
        ),
        d.visibility == Some("group"@) ==> nudged(d, FlagField::Visibility).visibility is None,
{
    lemma_modes(d.mode);
    lemma_log_levels(d.log_level);
    lemma_visibilities(d.visibility);
}

proof fn lemma_first_letters(a: Seq<char>, b: Seq<char>)
    requires
        a.len() != b.len() || (a.len() > 0 && 'a' <= a[0] <= 'z' && 'a' <= b[0] <= 'z' && a[0]
            != b[0]),
    ensures
        !text::same_but_case(a, b),
{
    let x = text::lower_text(a);
    let y = text::lower_text(b);
    if a.len() == b.len() {
        assert(x[0] == a[0] && y[0] == b[0]);
    } else {
        assert(x.len() != y.len());
    }
}

proof fn lemma_plain(s: Seq<char>)
    requires
        s.len() > 0,
        'a' <= s[0] <= 'z',
        'a' <= s.last() <= 'z',
    ensures
        text::trim(s) == s,
{
    let none = Seq::<char>::empty();
    text::trimming_ignores_spaces_around(none, s, none);
    assert(none + s + none =~= s);
}

proof fn lemma_modes(mode: Option<Seq<char>>)
    ensures
        ({
            let next = config::next_choice(mode, config::choice_texts(MODES@));
            &&& mode is None ==> next == Some("low"@)
            &&& mode == Some("low"@) ==> next == Some("medium"@)
            &&& mode == Some("medium"@) ==> next == Some("high"@)
            &&& mode == Some("high"@) ==> next == Some("ultra"@)
            &&& mode == Some("ultra"@) ==> next is None
        }),
{
    let c = config::choice_texts(MODES@);
    reveal_strlit("low");
    reveal_strlit("medium");
    reveal_strlit("high");
    reveal_strlit("ultra");
    assert(c.len() == 4);
    assert(c[0] == "low"@ && c[1] == "medium"@ && c[2] == "high"@ && c[3] == "ultra"@);
    assert forall|a: int, b: int| 0 <= a < b < c.len() implies !text::same_but_case(
        #[trigger] c[a],
        #[trigger] c[b],
    ) by {
        lemma_first_letters(c[a], c[b]);
    }
    assert forall|k: int| 0 <= k < 4 implies text::trim(#[trigger] c[k]) == c[k] && c[k].len()
        > 0 by {
        lemma_plain(c[k]);
    }
    config::cycling_visits_every_choice(c, 0);
    config::cycling_visits_every_choice(c, 1);
    config::cycling_visits_every_choice(c, 2);
    config::cycling_visits_every_choice(c, 3);
}

proof fn lemma_log_levels(level: Option<Seq<char>>)
    ensures
        ({
            let next = config::next_choice(level, config::choice_texts(LOG_LEVELS@));
            &&& level is None ==> next == Some("debug"@)
            &&& level == Some("debug"@) ==> next == Some("info"@)
            &&& level == Some("info"@) ==> next == Some("warn"@)
            &&& level == Some("warn"@) ==> next == Some("error"@)
            &&& level == Some("error"@) ==> next == Some("audit"@)
            &&& level == Some("audit"@) ==> next is None
        }),
{
    let c = config::choice_texts(LOG_LEVELS@);
    reveal_strlit("debug");
    reveal_strlit("info");
    reveal_strlit("warn");
    reveal_strlit("error");
    reveal_strlit("audit");
    assert(c.len() == 5);
    assert(c[0] == "debug"@ && c[1] == "info"@ && c[2] == "warn"@ && c[3] == "error"@ && c[4]
        == "audit"@);
    assert forall|a: int, b: int| 0 <= a < b < c.len() implies !text::same_but_case(
        #[trigger] c[a],
        #[trigger] c[b],
    ) by {
        lemma_first_letters(c[a], c[b]);
    }
    assert forall|k: int| 0 <= k < 5 implies text::trim(#[trigger] c[k]) == c[k] && c[k].len()
        > 0 by {
        lemma_plain(c[k]);
    }
    config::cycling_visits_every_choice(c, 0);
    config::cycling_visits_every_choice(c, 1);
    config::cycling_visits_every_choice(c, 2);
    config::cycling_visits_every_choice(c, 3);
    config::cycling_visits_every_choice(c, 4);
}

proof fn lemma_visibilities(v: Option<Seq<char>>)
    ensures
        ({
            let next = config::next_choice(v, config::choice_texts(VISIBILITIES@));
            &&& v is None ==> next == Some("private"@)
            &&& v == Some("private"@) ==> next == Some("unlisted"@)
            &&& v == Some("unlisted"@) ==> next == Some("workspace"@)
            &&& v == Some("workspace"@) ==> next == Some("group"@)
            &&& v == Some("group"@) ==> next is None
        }),
{
    let c = config::choice_texts(VISIBILITIES@);
    reveal_strlit("private");
    reveal_strlit("unlisted");
    reveal_strlit("workspace");
    reveal_strlit("group");
    assert(c.len() == 4);
    assert(c[0] == "private"@ && c[1] == "unlisted"@ && c[2] == "workspace"@ && c[3] == "group"@);
    assert forall|a: int, b: int| 0 <= a < b < c.len() implies !text::same_but_case(
        #[trigger] c[a],
        #[trigger] c[b],
    ) by {
        lemma_first_letters(c[a], c[b]);
    }
    assert forall|k: int| 0 <= k < 4 implies text::trim(#[trigger] c[k]) == c[k] && c[k].len()
        > 0 by {
        lemma_plain(c[k]);
    }
    config::cycling_visits_every_choice(c, 0);
    config::cycling_visits_every_choice(c, 1);
    config::cycling_visits_every_choice(c, 2);
    config::cycling_visits_every_choice(c, 3);
}

/// The next value of a switch is the other one, and changes that switch alone; a text field has no
/// next value.
pub proof fn switches_go_over(d: DefaultsView)
    ensures
        nudged(d, FlagField::RemoteControl) == (DefaultsView {
            remote_control_terminal: !d.remote_control_terminal,
            ..d
        }),
        nudged(d, FlagField::DiscoverDirs) == (DefaultsView { discover_dirs: !d.discover_dirs, ..d }),
        nudged(d, FlagField::AmpEnv) == (DefaultsView { amp_env: !d.amp_env, ..d }),
        nudged(d, FlagField::RunnerId) == d,
        nudged(d, FlagField::SettingsFile) == d,
        nudged(d, FlagField::McpConfig) == d,
{
}

/// Editing a text field gives it what was typed, trimmed, or nothing where that is blank, and changes
/// that field alone; the other fields are not edited so.
pub proof fn editing_changes_its_field(d: DefaultsView, typed: Seq<char>, f: FlagField)
    ensures
        ({
            let e = edited(d, FlagField::RunnerId, typed);
            e == (DefaultsView { runner_id: e.runner_id, ..d }) && config::trimmed_from(
                e.runner_id,
                Some(typed),
            )
        }),
        ({
            let e = edited(d, FlagField::SettingsFile, typed);
            e == (DefaultsView { settings_file: e.settings_file, ..d }) && config::trimmed_from(
                e.settings_file,
                Some(typed),
            )
        }),
        ({
            let e = edited(d, FlagField::McpConfig, typed);
            e == (DefaultsView { mcp_config: e.mcp_config, ..d }) && config::trimmed_from(
                e.mcp_config,
                Some(typed),
            )
        }),
        text_field(f) <==> f == FlagField::RunnerId || f == FlagField::SettingsFile || f
            == FlagField::McpConfig,
        text_field(f) ==> config::trimmed_from(field_text(edited(d, f, typed), f), Some(typed)),
        !text_field(f) ==> edited(d, f, typed) == d,
{
    text::blank_values_are_none(Some(typed));
}

/// Each field is shown with its own value, and its text is what it is edited from.
pub proof fn fields_show_their_values(d: DefaultsView)
    ensures
        d.runner_id is Some ==> field_shown(d, FlagField::RunnerId) == d.runner_id->0,
        d.mode is Some ==> field_shown(d, FlagField::Mode) == d.mode->0,
        d.log_level is Some ==> field_shown(d, FlagField::LogLevel) == d.log_level->0,
        d.visibility is Some ==> field_shown(d, FlagField::Visibility) == d.visibility->0,
        d.settings_file is Some ==> field_shown(d, FlagField::SettingsFile) == d.settings_file->0,
        d.mcp_config is Some ==> field_shown(d, FlagField::McpConfig) == d.mcp_config->0,
        d.runner_id is None ==> field_shown(d, FlagField::RunnerId) == "(none)"@,
        d.settings_file is None ==> field_shown(d, FlagField::SettingsFile) == "(none)"@,
        d.mcp_config is None ==> field_shown(d, FlagField::McpConfig) == "(none)"@,
        d.mode is None ==> field_shown(d, FlagField::Mode) == "(amp default)"@,
        d.log_level is None ==> field_shown(d, FlagField::LogLevel) == "(amp default)"@,
        d.visibility is None ==> field_shown(d, FlagField::Visibility) == "(amp default)"@,
        field_shown(d, FlagField::RemoteControl) == if d.remote_control_terminal {
            "on"@
        } else {
            "off"@
        },
        field_shown(d, FlagField::DiscoverDirs) == if d.discover_dirs {
            "on"@
        } else {
            "off"@
        },
        field_shown(d, FlagField::AmpEnv) == if d.amp_env {
            "on"@
        } else {
            "off"@
        },
        field_text(d, FlagField::RunnerId) == d.runner_id,
        field_text(d, FlagField::SettingsFile) == d.settings_file,
        field_text(d, FlagField::McpConfig) == d.mcp_config,
{
}

/// What is typed into a field is what a runner that is started is told behind the flag that names the
/// field; and a switch that is on is told by the flag that names it.
pub proof fn fields_are_named_by_their_flags(d: DefaultsView, f: FlagField, typed: Seq<char>)
    ensures
        text_field(f) && !text::blank(typed) ==> args::gives(
            args::start_args(config::options_of(edited(d, f, typed))),
            flag_name(f),
            text::trim(typed),
        ),
        d.mode is Some && !text::blank(d.mode->0) ==> args::gives(
            args::start_args(config::options_of(d)),
            flag_name(FlagField::Mode),
            text::trim(d.mode->0),
        ),
        d.log_level is Some && !text::blank(d.log_level->0) ==> args::gives(
            args::start_args(config::options_of(d)),
            flag_name(FlagField::LogLevel),
            text::trim(d.log_level->0),
        ),
        d.visibility is Some && !text::blank(d.visibility->0) ==> args::gives(
            args::start_args(config::options_of(d)),
            flag_name(FlagField::Visibility),
            text::trim(d.visibility->0),
        ),
        d.remote_control_terminal ==> args::start_args(config::options_of(d)).contains(
            flag_name(FlagField::RemoteControl),
        ),
        d.discover_dirs ==> args::start_args(config::options_of(d)).contains(
            flag_name(FlagField::DiscoverDirs),
        ),
        d.amp_env ==> args::start_args(config::options_of(d)).contains(
            flag_name(FlagField::AmpEnv),
        ),
{
    config::defaults_reach_the_start(d);
    let e = edited(d, f, typed);
    config::defaults_reach_the_start(e);
    text::blank_values_are_none(Some(typed));
    if !text::blank(typed) {
        let t = text::trim(typed);
        text::trim_is_stable(typed);
        let a = text::trimming_drops_only_spaces(typed);
        let b = text::trimming_drops_only_spaces(t);
    }
}

/// The fields stand in one order, from the runner id to the environment, and going down from the last
/// one comes to the first.
pub proof fn fields_stand_in_order()
    ensures
        field_below(FlagField::RunnerId) == FlagField::Mode,
        field_below(FlagField::Mode) == FlagField::LogLevel,
        field_below(FlagField::LogLevel) == FlagField::Visibility,
        field_below(FlagField::Visibility) == FlagField::SettingsFile,
        field_below(FlagField::SettingsFile) == FlagField::McpConfig,
        field_below(FlagField::McpConfig) == FlagField::RemoteControl,
        field_below(FlagField::RemoteControl) == FlagField::DiscoverDirs,
        field_below(FlagField::DiscoverDirs) == FlagField::AmpEnv,
        field_below(FlagField::AmpEnv) == FlagField::RunnerId,
{
}

} // verus!
