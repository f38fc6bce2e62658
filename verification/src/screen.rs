//! What the screen shows: its texts, its colours and its areas.
use vstd::prelude::*;
use ratatui::layout::{Constraint, Direction, Layout, Rect};
use crate::app;
use crate::app::{
    amp_version_label, App, AppView, ConfirmAction, LogKind, LogLine, Overlay, Pane,
};
use crate::flags;
use crate::flags::{flag_value_display, FlagField};
use crate::launch;
use crate::launch::runner_log_path_in;
use crate::picker;
use crate::picker::{display_path_in, PickerPurpose, PickerView};
use crate::runner;
use crate::runner::{Runner, RunnerView};
use crate::text;
use crate::text::{chars_of, join, string_of, three, two, write_decimal};

verus! {

/// The help.
pub const HELP_TEXT: &'static str = "\
lazyamp — manage Amp --no-tui runners

Navigation
  hjkl / arrows     move; h/l also switch panes
  Tab               next pane (runners ↔ served dirs)
  Enter             confirm (picker / flags / typed path)
  Esc               close overlay
  q / Ctrl-c        quit
  ?                 this help

Runners
  s                 start amp --no-tui (pick the process start cwd)
  x                 stop the selected runner (confirms)
  r                 restart selected runner (confirms)
  g                 refresh `amp runner list`

Served directories (paths the runner can see; not the start cwd)
  a                 add a served directory (`amp runner dirs add`)
  d                 remove the selected served directory

Other
  f                 common flags / defaults (saved to config)
  u                 run `amp update`
  c                 show config path

Directory picker: hjkl browse immediate children. / or typing filters
recursively under the browse root, plus recent dirs and `zoxide query -l`
when zoxide is installed.

This UI does not open Amp's interactive agent TUI.";

/// A colour.
#[derive(Debug, Clone, Copy, PartialEq, Eq, Structural)]
pub enum Tone {
    Plain,
    Cyan,
    DarkGray,
    Gray,
    Green,
    Red,
    Yellow,
}

/// A piece of text in one colour.
#[derive(Debug, PartialEq, Eq)]
pub struct Span {
    pub text: String,
    pub tone: Tone,
    pub bold: bool,
}

/// What a [`Span`] holds.
#[verifier::ext_equal]
pub struct SpanView {
    pub text: Seq<char>,
    pub tone: Tone,
    pub bold: bool,
}

impl View for Span {
    type V = SpanView;

    open spec fn view(&self) -> SpanView {
        SpanView { text: self.text@, tone: self.tone, bold: self.bold }
    }
}

/// What spans hold.
pub open spec fn spans(v: Seq<Span>) -> Seq<SpanView> {
    Seq::new(v.len(), |i: int| v[i]@)
}

/// A span that is not bold.
pub open spec fn light(text: Seq<char>, tone: Tone) -> SpanView {
    SpanView { text, tone, bold: false }
}

fn span(text: String, tone: Tone, bold: bool) -> (r: Span)
    ensures
        r@ == (SpanView { text: text@, tone, bold }),
{
    Span { text, tone, bold }
}

fn push_span(v: &mut Vec<Span>, s: Span)
    ensures
        spans(final(v)@) == spans(old(v)@).push(s@),
{
    let ghost before = spans(v@);
    let ghost sv = s@;
    v.push(s);
    assert(spans(v@) == before.push(sv));
}

/// What a list, or the text in its place, is.
#[derive(Debug)]
pub enum Body {
    /// A text in place of a list.
    Text(String),
    /// A list with one selected item.
    List { items: Vec<String>, selected: usize },
}

/// What a [`Body`] holds.
#[verifier::ext_equal]
pub enum BodyView {
    Text(Seq<char>),
    List { items: Seq<Seq<char>>, selected: nat },
}

impl View for Body {
    type V = BodyView;

    open spec fn view(&self) -> BodyView {
        match self {
            Body::Text(s) => BodyView::Text(s@),
            Body::List { items, selected } => BodyView::List {
                items: text::strings(items@),
                selected: *selected as nat,
            },
        }
    }
}

/// A pane.
#[derive(Debug)]
pub struct Panel {
    pub title: String,
    pub focused: bool,
    pub body: Body,
}

/// What a [`Panel`] holds.
#[verifier::ext_equal]
pub struct PanelView {
    pub title: Seq<char>,
    pub focused: bool,
    pub body: BodyView,
}

impl View for Panel {
    type V = PanelView;

    open spec fn view(&self) -> PanelView {
        PanelView { title: self.title@, focused: self.focused, body: self.body@ }
    }
}

/// The colours of a pane: of its border, and of its title.
pub open spec fn pane_tones(focused: bool) -> (Tone, Tone) {
    if focused {
        (Tone::Cyan, Tone::Cyan)
    } else {
        (Tone::DarkGray, Tone::Gray)
    }
}

/// The colours of a pane: of its border, and of its title, which is bold where it has the focus.
pub fn pane_block(focused: bool) -> (r: (Tone, Tone))
    ensures
        r == pane_tones(focused),
{
    if focused {
        (Tone::Cyan, Tone::Cyan)
    } else {
        (Tone::DarkGray, Tone::Gray)
    }
}

// ---------------------------------------------------------------------------------------------
// Title and status

/// The title line.
pub open spec fn title_spans(a: AppView, version: Seq<char>) -> Seq<SpanView> {
    seq![
        SpanView { text: " lazyamp "@, tone: Tone::Cyan, bold: true },
        light("v"@ + version + "  "@, Tone::DarkGray),
        light("amp "@, Tone::Plain),
        light(app::version_label(a.amp_version), Tone::Green),
        light(
            "   q quit  ? help  s start  x stop  r restart  f flags  u update"@,
            Tone::DarkGray,
        ),
    ]
}

/// The title line.
pub fn draw_title(app: &App, version: &str) -> (r: Vec<Span>)
    ensures
        spans(r@) == title_spans(app@, version@),
{
    let mut v: Vec<Span> = Vec::new();
    push_span(&mut v, span(" lazyamp ".to_owned(), Tone::Cyan, true));
    push_span(&mut v, span(three("v", version, "  "), Tone::DarkGray, false));
    push_span(&mut v, span("amp ".to_owned(), Tone::Plain, false));
    push_span(&mut v, span(amp_version_label(app.amp_version.as_str()), Tone::Green, false));
    push_span(
        &mut v,
        span(
            "   q quit  ? help  s start  x stop  r restart  f flags  u update".to_owned(),
            Tone::DarkGray,
            false,
        ),
    );
    assert(spans(v@) == title_spans(app@, version@));
    v
}

/// The status line.
pub open spec fn status_span(a: AppView) -> SpanView {
    light(
        " "@ + a.status,
        match a.status_kind {
            LogKind::Error => Tone::Red,
            LogKind::Good => Tone::Green,
            LogKind::Info => if a.busy {
                Tone::Yellow
            } else {
                Tone::Gray
            },
        },
    )
}

/// The status line.
pub fn draw_status(app: &App) -> (r: Span)
    ensures
        r@ == status_span(app@),
{
    let tone = match app.status_kind {
        LogKind::Error => Tone::Red,
        LogKind::Good => Tone::Green,
        LogKind::Info => {
            if app.busy {
                Tone::Yellow
            } else {
                Tone::Gray
            }
        },
    };
    span(two(" ", app.status.as_str()), tone, false)
}

// ---------------------------------------------------------------------------------------------
// Runners

/// A text of at most `max` characters: a longer one ends in an ellipsis.
pub open spec fn cut(s: Seq<char>, max: nat) -> Seq<char> {
    if s.len() <= max {
        s
    } else if max == 0 {
        seq!['…']
    } else {
        s.take(max - 1).push('…')
    }
}

/// A text of at most `max` characters.
pub fn truncate(s: &str, max: usize) -> (r: String)
    ensures
        r@ == cut(s@, max as nat),
{
    let chars = chars_of(s);
    if chars.len() <= max {
        return s.to_owned();
    }
    let n: usize = if max > 0 {
        max - 1
    } else {
        0
    };
    let mut out: Vec<char> = Vec::new();
    for i in 0..n
        invariant
            n < chars@.len(),
            out@ == chars@.take(i as int),
    {
        out.push(chars[i]);
        assert(out@ == chars@.take(i + 1));
    }
    out.push('…');
    assert(out@ == cut(s@, max as nat));
    string_of(&out)
}

/// A text with spaces behind it, up to a width.
pub open spec fn padded(s: Seq<char>, width: nat) -> Seq<char> {
    if s.len() >= width {
        s
    } else {
        s + Seq::new((width - s.len()) as nat, |i: int| ' ')
    }
}

/// A text with spaces behind it, up to a width.
pub fn pad(s: &str, width: usize) -> (r: String)
    ensures
        r@ == padded(s@, width as nat),
{
    let mut out = chars_of(s);
    let n: usize = out.len();
    if n >= width {
        return s.to_owned();
    }
    for i in n..width
        invariant
            n == s@.len(),
            n <= i <= width,
            out@ == padded(s@, i as nat),
    {
        out.push(' ');
        assert(out@ == padded(s@, (i + 1) as nat));
    }
    string_of(&out)
}

/// Where a runner is known from.
pub open spec fn health_label(r: RunnerView) -> Seq<char> {
    if r.from_amp_list {
        "connected"@
    } else {
        "local only"@
    }
}

/// Where a runner is known from.
pub fn runner_health_label(r: &Runner) -> (out: &'static str)
    ensures
        out@ == health_label(r@),
{
    if r.from_amp_list {
        "connected"
    } else {
        "local only"
    }
}

/// How the process id of a runner reads.
pub open spec fn pid_label(r: RunnerView) -> Seq<char> {
    match r.pid {
        Some(p) => "pid "@ + text::decimal(p as nat),
        None => "pid ?"@,
    }
}

/// The row of a runner.
pub open spec fn runner_row(r: RunnerView) -> Seq<char> {
    padded(cut(runner::shown_id(r.id), 20), 20) + "  "@ + padded(pid_label(r), 12) + "  "@
        + text::decimal(r.dirs.len()) + (if r.dirs.len() == 1 {
        " dir  "@
    } else {
        " dirs  "@
    }) + health_label(r)
}

/// The row of a runner.
pub fn row_of(r: &Runner) -> (out: String)
    ensures
        out@ == runner_row(r@),
{
    let pid = match r.pid {
        Some(p) => two("pid ", write_decimal(p as u64).as_str()),
        None => "pid ?".to_owned(),
    };
    let n: usize = r.dirs.len();
    let mut out = pad(truncate(r.display_id(), 20).as_str(), 20);
    out.append("  ");
    out.append(pad(pid.as_str(), 12).as_str());
    out.append("  ");
    out.append(write_decimal(n as u64).as_str());
    if n == 1 {
        out.append(" dir  ");
    } else {
        out.append(" dirs  ");
    }
    out.append(runner_health_label(r));
    out
}

/// The rows of runners.
pub open spec fn runner_rows(v: Seq<RunnerView>) -> Seq<Seq<char>> {
    Seq::new(v.len(), |i: int| runner_row(v[i]))
}

/// The pane of the runners.
pub open spec fn runners_panel(a: AppView) -> PanelView {
    PanelView {
        title: " runners "@,
        focused: a.pane == Pane::Runners && a.overlay == Overlay::Clear,
        body: if a.runners.len() == 0 {
            BodyView::Text("No runners on this machine.\nPress s to start `amp --no-tui`."@)
        } else {
            BodyView::List { items: runner_rows(a.runners), selected: a.selected_runner }
        },
    }
}

/// The pane of the runners.
pub fn draw_runners(app: &App) -> (r: Panel)
    ensures
        r@ == runners_panel(app@),
{
    let focused: bool = app.pane == Pane::Runners && app.overlay == Overlay::Clear;
    if app.runners.len() == 0 {
        return Panel {
            title: " runners ".to_owned(),
            focused,
            body: Body::Text(
                "No runners on this machine.\nPress s to start `amp --no-tui`.".to_owned(),
            ),
        };
    }
    let ghost all = runner_rows(app@.runners);
    let mut items: Vec<String> = Vec::new();
    for i in 0..app.runners.len()
        invariant
            all == runner_rows(app@.runners),
            text::strings(items@) == all.take(i as int),
    {
        let ghost before = text::strings(items@);
        assert(app@.runners[i as int] == app.runners@[i as int]@);
        items.push(row_of(&app.runners[i]));
        assert(text::strings(items@) == before.push(all[i as int]));
        assert(all.take(i + 1) == all.take(i as int).push(all[i as int]));
    }
    assert(all.take(all.len() as int) == all);
    Panel {
        title: " runners ".to_owned(),
        focused,
        body: Body::List { items, selected: app.selected_runner },
    }
}

// ---------------------------------------------------------------------------------------------
// Directories and logs

/// The paths as they are shown.
pub open spec fn shown_paths(v: Seq<Seq<char>>, home: Option<Seq<char>>) -> Seq<Seq<char>> {
    Seq::new(v.len(), |i: int| picker::displayed(v[i], home))
}

/// The pane of the served directories.
pub open spec fn dirs_panel(a: AppView, home: Option<Seq<char>>) -> PanelView {
    PanelView {
        title: match app::current_runner(a) {
            Some(r) => " served dirs · "@ + runner::shown_id(r.id) + " "@,
            None => " served dirs "@,
        },
        focused: a.pane == Pane::Dirs && a.overlay == Overlay::Clear,
        body: if app::current_dirs(a).len() == 0 {
            BodyView::Text(
                "No served directories recorded.\na adds a served path (`amp runner dirs add`).\ns starts a runner in a working directory (start cwd)."@,
            )
        } else {
            BodyView::List {
                items: shown_paths(app::current_dirs(a), home),
                selected: a.selected_dir,
            }
        },
    }
}

/// The pane of the served directories.
pub fn draw_dirs(app: &App, home: Option<&str>) -> (r: Panel)
    ensures
        r@ == dirs_panel(app@, text::opt_str(home)),
{
    let focused: bool = app.pane == Pane::Dirs && app.overlay == Overlay::Clear;
    let title = match app.current_runner() {
        Some(x) => three(" served dirs · ", x.display_id(), " "),
        None => " served dirs ".to_owned(),
    };
    let dirs = app.current_dirs();
    if dirs.len() == 0 {
        return Panel {
            title,
            focused,
            body: Body::Text(
                "No served directories recorded.\na adds a served path (`amp runner dirs add`).\ns starts a runner in a working directory (start cwd).".to_owned(),
            ),
        };
    }
    let ghost all = shown_paths(text::strings(dirs@), text::opt_str(home));
    let mut items: Vec<String> = Vec::new();
    for i in 0..dirs.len()
        invariant
            all == shown_paths(text::strings(dirs@), text::opt_str(home)),
            text::strings(items@) == all.take(i as int),
    {
        let ghost before = text::strings(items@);
        assert(text::strings(dirs@)[i as int] == dirs@[i as int]@);
        items.push(display_path_in(dirs[i].as_str(), home));
        assert(text::strings(items@) == before.push(all[i as int]));
        assert(all.take(i + 1) == all.take(i as int).push(all[i as int]));
    }
    assert(all.take(all.len() as int) == all);
    Panel { title, focused, body: Body::List { items, selected: app.selected_dir } }
}

/// How many lines of a runner's log are shown.
pub const RUNNER_LOG_LINES: usize = 8;

/// The log of the selected runner, in a state directory.
pub open spec fn selected_log(a: AppView, state: Seq<char>) -> Option<Seq<char>> {
    match app::current_runner(a) {
        Some(r) => Some(launch::log_path_text(state, runner::id_flag(r.id), r.cwd)),
        None => None,
    }
}

/// The log of the selected runner, in a state directory.
pub fn selected_log_path(app: &App, state: &str) -> (r: Option<String>)
    ensures
        text::opt_text(r) == selected_log(app@, state@),
{
    match app.current_runner() {
        Some(x) => Some(
            runner_log_path_in(state, x.runner_id_flag(), crate::text::borrowed(&x.cwd)),
        ),
        None => None,
    }
}

/// The title and the text of the log pane, by the path of the log and its last lines.
pub open spec fn runner_log_texts(
    log: Option<Seq<char>>,
    lines: Seq<Seq<char>>,
    home: Option<Seq<char>>,
) -> (Seq<char>, Seq<char>) {
    match log {
        Some(p) => (
            " runner log · "@ + picker::displayed(p, home) + " "@,
            if lines.len() == 0 {
                "(empty or missing)\n"@ + p
            } else {
                text::joined(lines, "\n"@)
            },
        ),
        None => (" runner log "@, "Select a runner to see its last log lines."@),
    }
}

/// The title and the text of the log pane, by the path of the log and its last lines.
pub fn draw_runner_log(log: Option<&str>, lines: &Vec<String>, home: Option<&str>) -> (r: (
    String,
    String,
))
    ensures
        (r.0@, r.1@) == runner_log_texts(
            text::opt_str(log),
            text::strings(lines@),
            text::opt_str(home),
        ),
{
    match log {
        Some(p) => {
            let title = three(" runner log · ", display_path_in(p, home).as_str(), " ");
            let body = if lines.len() == 0 {
                two("(empty or missing)\n", p)
            } else {
                join(lines, "\n")
            };
            (title, body)
        },
        None => (
            " runner log ".to_owned(),
            "Select a runner to see its last log lines.".to_owned(),
        ),
    }
}

/// The colour of a message.
pub open spec fn kind_tone(k: LogKind) -> Tone {
    match k {
        LogKind::Info => Tone::Gray,
        LogKind::Good => Tone::Green,
        LogKind::Error => Tone::Red,
    }
}

/// How a log line is shown: its time, then its text in the colour of its kind.
pub open spec fn log_spans(l: app::LogView) -> (SpanView, SpanView) {
    (light(l.time + "  "@, Tone::DarkGray), light(l.text, kind_tone(l.kind)))
}

/// The newest log lines, as many as fit.
pub open spec fn log_shown(a: AppView, height: u16) -> Seq<(SpanView, SpanView)> {
    let room = if height >= 2 {
        (height - 2) as nat
    } else {
        0nat
    };
    let first = if a.log.len() > room {
        a.log.len() - room
    } else {
        0
    };
    Seq::new((a.log.len() - first) as nat, |i: int| log_spans(a.log[first + i]))
}

/// What pairs of spans hold.
pub open spec fn span_pairs(v: Seq<(Span, Span)>) -> Seq<(SpanView, SpanView)> {
    Seq::new(v.len(), |i: int| (v[i].0@, v[i].1@))
}

fn spans_of_line(l: &LogLine) -> (r: (Span, Span))
    ensures
        (r.0@, r.1@) == log_spans(l@),
{
    let tone = match l.kind {
        LogKind::Info => Tone::Gray,
        LogKind::Good => Tone::Green,
        LogKind::Error => Tone::Red,
    };
    (
        span(two(l.time.as_str(), "  "), Tone::DarkGray, false),
        span(l.text.clone(), tone, false),
    )
}

/// The newest log lines, as many as fit into a box of this height.
pub fn draw_log(app: &App, height: u16) -> (r: Vec<(Span, Span)>)
    ensures
        span_pairs(r@) == log_shown(app@, height),
{
    let room: usize = if height >= 2 {
        (height - 2) as usize
    } else {
        0
    };
    let n: usize = app.log.len();
    let first: usize = if n > room {
        n - room
    } else {
        0
    };
    let ghost all = log_shown(app@, height);
    let mut out: Vec<(Span, Span)> = Vec::new();
    for i in first..n
        invariant
            first <= i <= n,
            n == app.log@.len(),
            all.len() == n - first,
            forall|j: int| 0 <= j < all.len() ==> #[trigger] all[j] == log_spans(app@.log[first + j]),
            span_pairs(out@) == all.take(i - first),
    {
        let ghost before = span_pairs(out@);
        assert(app@.log[i as int] == app.log@[i as int]@);
        let pair = spans_of_line(&app.log[i]);
        let ghost pv = (pair.0@, pair.1@);
        out.push(pair);
        assert(span_pairs(out@) == before.push(pv));
        assert(all[i - first] == pv);
        assert(all.take(i + 1 - first) == all.take(i - first).push(all[i - first]));
    }
    assert(all.take(n - first) == all);
    out
}

// ---------------------------------------------------------------------------------------------
// Overlays

/// The line of a field of the flags.
pub open spec fn flag_line(a: AppView, f: FlagField) -> SpanView {
    let selected = f == a.flag_field;
    SpanView {
        text: (if selected {
            "> "@
        } else {
            "  "@
        }) + padded(flags::flag_name(f), 28) + " "@ + flags::field_shown(a.flags, f),
        tone: if selected {
            Tone::Yellow
        } else {
            Tone::Plain
        },
        bold: selected,
    }
}

/// The lines of the flags panel.
pub open spec fn flag_lines(a: AppView) -> Seq<SpanView> {
    seq![
        light(
            "Start defaults (Enter/space to edit or cycle, s save, esc cancel)"@,
            Tone::Plain,
        ),
        light(Seq::empty(), Tone::Plain),
    ] + Seq::new(9, |i: int| flag_line(a, flags::all_fields()[i])) + seq![
        light(Seq::empty(), Tone::Plain),
        light("saved at "@ + a.config_path, Tone::DarkGray),
    ]
}

fn line_of_flag(app: &App, f: FlagField) -> (r: Span)
    ensures
        r@ == flag_line(app@, f),
{
    let selected: bool = f == app.flag_field;
    let mut text = if selected {
        "> ".to_owned()
    } else {
        "  ".to_owned()
    };
    text.append(pad(f.label(), 28).as_str());
    text.append(" ");
    text.append(flag_value_display(&app.flags, f).as_str());
    let tone = if selected {
        Tone::Yellow
    } else {
        Tone::Plain
    };
    span(text, tone, selected)
}

/// The lines of the flags panel.
pub fn draw_flags(app: &App) -> (r: Vec<Span>)
    ensures
        spans(r@) == flag_lines(app@),
{
    let mut v: Vec<Span> = Vec::new();
    push_span(
        &mut v,
        span(
            "Start defaults (Enter/space to edit or cycle, s save, esc cancel)".to_owned(),
            Tone::Plain,
            false,
        ),
    );
    push_span(&mut v, span(String::new(), Tone::Plain, false));
    let ghost head = spans(v@);
    let fields = FlagField::all();
    let ghost middle = Seq::new(9, |i: int| flag_line(app@, flags::all_fields()[i]));
    assert(head + middle.take(0) == head);
    for i in 0..fields.len()
        invariant
            fields@ == flags::all_fields(),
            middle == Seq::new(9, |j: int| flag_line(app@, flags::all_fields()[j])),
            spans(v@) == head + middle.take(i as int),
    {
        push_span(&mut v, line_of_flag(app, fields[i]));
        assert(head + middle.take(i + 1) == (head + middle.take(i as int)).push(middle[i as int]));
    }
    assert(middle.take(9) == middle);
    push_span(&mut v, span(String::new(), Tone::Plain, false));
    push_span(
        &mut v,
        span(two("saved at ", app.config_path.as_str()), Tone::DarkGray, false),
    );
    assert(spans(v@) == flag_lines(app@));
    v
}

/// The title and the text of the edit box.
pub fn draw_edit(app: &App) -> (r: (String, String))
    ensures
        r.0@ == " edit "@ + flags::flag_name(app@.flag_field) + "  (enter confirm, esc cancel) "@,
        r.1@ == app@.edit_buffer + "_"@,
{
    (
        three(" edit ", app.flag_field.label(), "  (enter confirm, esc cancel) "),
        two(app.edit_buffer.as_str(), "_"),
    )
}

/// The picker as it is shown.
#[derive(Debug)]
pub struct PickerPanel {
    pub title: String,
    pub input_title: String,
    pub input: String,
    pub items: Vec<String>,
    pub selected: Option<usize>,
    pub hint: String,
}

/// What a [`PickerPanel`] holds.
#[verifier::ext_equal]
pub struct PickerPanelView {
    pub title: Seq<char>,
    pub input_title: Seq<char>,
    pub input: Seq<char>,
    pub items: Seq<Seq<char>>,
    pub selected: Option<nat>,
    pub hint: Seq<char>,
}

impl View for PickerPanel {
    type V = PickerPanelView;

    open spec fn view(&self) -> PickerPanelView {
        PickerPanelView {
            title: self.title@,
            input_title: self.input_title@,
            input: self.input@,
            items: text::strings(self.items@),
            selected: match self.selected {
                Some(n) => Some(n as nat),
                None => None,
            },
            hint: self.hint@,
        }
    }
}

/// What a picker is doing.
pub open spec fn picker_mode(p: PickerView) -> Seq<char> {
    if p.searching {
        " searching / path "@
    } else if p.filter_mode {
        " filter / path "@
    } else {
        " nav / path "@
    }
}

/// The picker as it is shown.
pub open spec fn picker_panel(p: PickerView) -> PickerPanelView {
    PickerPanelView {
        title: match p.purpose {
            PickerPurpose::Start => " start runner · pick start cwd "@,
            PickerPurpose::AddDir => " add served directory to selected runner "@,
        },
        input_title: picker_mode(p),
        input: p.input + "_"@,
        items: Seq::new(p.entries.len(), |i: int| p.entries[i].label),
        selected: if p.entries.len() == 0 {
            None
        } else {
            Some(picker::clamped(p.cursor, p.entries.len()))
        },
        hint: "/ recursive filter · zoxide if installed · hjkl browse children (nav) · enter select"@,
    }
}

/// The picker as it is shown, where it is open.
pub fn draw_picker(app: &App) -> (r: Option<PickerPanel>)
    ensures
        match (r, app@.picker) {
            (Some(x), Some(p)) => x@ == picker_panel(p),
            (None, None) => true,
            _ => false,
        },
{
    let p = match &app.picker {
        Some(p) => p,
        None => {
            return None;
        },
    };
    let title = match p.purpose {
        PickerPurpose::Start => " start runner · pick start cwd ".to_owned(),
        PickerPurpose::AddDir => " add served directory to selected runner ".to_owned(),
    };
    let input_title = if p.searching {
        " searching / path ".to_owned()
    } else if p.filter_mode {
        " filter / path ".to_owned()
    } else {
        " nav / path ".to_owned()
    };
    let n: usize = p.entries.len();
    let ghost all = picker_panel(p@).items;
    let mut items: Vec<String> = Vec::new();
    for i in 0..n
        invariant
            n == p.entries@.len(),
            all == picker_panel(p@).items,
            text::strings(items@) == all.take(i as int),
    {
        let ghost before = text::strings(items@);
        assert(p@.entries[i as int] == p.entries@[i as int]@);
        items.push(p.entries[i].label.clone());
        assert(text::strings(items@) == before.push(all[i as int]));
        assert(all.take(i + 1) == all.take(i as int).push(all[i as int]));
    }
    assert(all.take(n as int) == all);
    let selected = if n == 0 {
        None
    } else if p.cursor < n {
        Some(p.cursor)
    } else {
        Some(n - 1)
    };
    Some(
        PickerPanel {
            title,
            input_title,
            input: two(p.input.as_str(), "_"),
            items,
            selected,
            hint: "/ recursive filter · zoxide if installed · hjkl browse children (nav) · enter select".to_owned(),
        },
    )
}

/// The question of a confirmation.
pub open spec fn confirm_question(a: AppView, action: ConfirmAction, home: Option<Seq<char>>) -> Seq<
    char,
> {
    let id = match app::current_runner(a) {
        Some(r) => runner::shown_id(r.id),
        None => "?"@,
    };
    match action {
        ConfirmAction::Stop => "Stop runner `"@ + id + "`?  SIGTERM then SIGKILL if needed."@,
        ConfirmAction::Restart => "Restart runner `"@ + id + "` using its saved launch spec?"@,
        ConfirmAction::RemoveDir => "Remove served directory `"@ + (match app::selected_dir_of(a) {
            Some(p) => picker::displayed(p, home),
            None => "?"@,
        }) + "` from the selected runner?"@,
    }
}

/// The question of a confirmation, where one is open.
pub fn draw_confirm(app: &App, home: Option<&str>) -> (r: Option<String>)
    ensures
        text::opt_text(r) == match app@.confirm {
            Some(action) => Some(confirm_question(app@, action, text::opt_str(home))),
            None => None,
        },
{
    let action = match app.confirm {
        Some(x) => x,
        None => {
            return None;
        },
    };
    let id = match app.current_runner() {
        Some(x) => x.display_id().to_owned(),
        None => "?".to_owned(),
    };
    Some(
        match action {
            ConfirmAction::Stop => three(
                "Stop runner `",
                id.as_str(),
                "`?  SIGTERM then SIGKILL if needed.",
            ),
            ConfirmAction::Restart => three(
                "Restart runner `",
                id.as_str(),
                "` using its saved launch spec?",
            ),
            ConfirmAction::RemoveDir => {
                let path = match app.selected_dir_path() {
                    Some(p) => display_path_in(p.as_str(), home),
                    None => "?".to_owned(),
                };
                three(
                    "Remove served directory `",
                    path.as_str(),
                    "` from the selected runner?",
                )
            },
        },
    )
}

// ---------------------------------------------------------------------------------------------
// Areas

/// A rectangle of the screen.
#[derive(Debug, Clone, Copy, PartialEq, Eq, Structural)]
pub struct Area {
    pub x: u16,
    pub y: u16,
    pub width: u16,
    pub height: u16,
}

/// How much of an area a part takes.
#[derive(Debug, Clone, Copy, PartialEq, Eq, Structural)]
pub enum Part {
    Percent(u16),
    Length(u16),
    AtLeast(u16),
}

/// Whether an area lies on the screen: its far edges have coordinates.
pub open spec fn on_screen(a: Area) -> bool {
    a.x + a.width <= u16::MAX && a.y + a.height <= u16::MAX
}

/// Whether an area lies within another.
pub open spec fn inside(a: Area, b: Area) -> bool {
    &&& b.x <= a.x
    &&& b.y <= a.y
    &&& a.x + a.width <= b.x + b.width
    &&& a.y + a.height <= b.y + b.height
}

/// Where an area starts, down a column or along a row.
pub open spec fn start_of(column: bool, a: Area) -> int {
    if column {
        a.y as int
    } else {
        a.x as int
    }
}

/// How much room an area has, down a column or along a row.
pub open spec fn room_of(column: bool, a: Area) -> int {
    if column {
        a.height as int
    } else {
        a.width as int
    }
}

/// What the parts ask for in sum: shares in percent, lengths and least lengths as they are.
pub open spec fn total(parts: Seq<Part>) -> int
    decreases parts.len(),
{
    if parts.len() == 0 {
        0
    } else {
        total(parts.drop_last()) + match parts.last() {
            Part::Percent(n) => n as int,
            Part::Length(n) => n as int,
            Part::AtLeast(n) => n as int,
        }
    }
}

/// Whether the parts are shares, of no more than the whole.
pub open spec fn are_shares(parts: Seq<Part>) -> bool {
    total(parts) <= 100 && forall|i: int| 0 <= i < parts.len() ==> (#[trigger] parts[i]) is Percent
}

/// Whether the parts are lengths but for one that takes the rest, and fit into the room.
pub open spec fn are_lengths(parts: Seq<Part>, room: int, rest: int) -> bool {
    &&& 0 <= rest < parts.len()
    &&& parts[rest] is AtLeast
    &&& total(parts) <= room
    &&& forall|i: int| 0 <= i < parts.len() && i != rest ==> (#[trigger] parts[i]) is Length
}

/// Whether a size is a share of the room in percent, but for the rounding.
pub open spec fn near_share(n: int, pct: int, room: int) -> bool {
    room * pct - 100 <= 100 * n <= room * pct + 100
}

/// Whether areas follow one another from the start of another area on, without a gap.
pub open spec fn in_line(column: bool, v: Seq<Area>, area: Area) -> bool {
    &&& v.len() > 0 ==> start_of(column, v[0]) == start_of(column, area)
    &&& forall|i: int, j: int|
        0 <= i < v.len() && j == i + 1 && j < v.len() ==> start_of(column, #[trigger] v[j])
            == start_of(column, #[trigger] v[i]) + room_of(column, v[i])
}

/// `ratatui::layout::Layout::split` with the default margin, spacing and flex: one area for each
/// part, each within the given area, and as wide as it in a column or as high as it in a row. Shares
/// of no more than the whole follow one another, each of its percentage but for the rounding.
/// Lengths that fit follow one another, each as long as it says, and the one part that is not fixed
/// takes the rest. How the room is shared out where there is too little depends on a solver that
/// walks hash maps, so nothing is said of it.
#[verifier::external_body]
fn split_area(column: bool, parts: &Vec<Part>, area: Area) -> (r: Vec<Area>)
    requires
        on_screen(area),
    ensures
        r@.len() == parts@.len(),
        forall|i: int| 0 <= i < r@.len() ==> inside(#[trigger] r@[i], area),
        forall|i: int|
            0 <= i < r@.len() && column ==> (#[trigger] r@[i]).x == area.x && r@[i].width
                == area.width,
        forall|i: int|
            0 <= i < r@.len() && !column ==> (#[trigger] r@[i]).y == area.y && r@[i].height
                == area.height,
        are_shares(parts@) ==> in_line(column, r@, area),
        are_shares(parts@) ==> forall|i: int|
            0 <= i < r@.len() ==> near_share(
                room_of(column, #[trigger] r@[i]),
                parts@[i]->Percent_0 as int,
                room_of(column, area),
            ),
        forall|k: int| #[trigger]
            are_lengths(parts@, room_of(column, area), k) ==> in_line(column, r@, area),
        forall|k: int, i: int|
            #[trigger] are_lengths(parts@, room_of(column, area), k) && 0 <= i < r@.len() && i != k
                ==> room_of(column, #[trigger] r@[i]) == parts@[i]->Length_0,
        forall|k: int| #[trigger]
            are_lengths(parts@, room_of(column, area), k) ==> start_of(column, r@.last())
                + room_of(column, r@.last()) == start_of(column, area) + room_of(column, area),
{
    let direction = if column { Direction::Vertical } else { Direction::Horizontal };
    let rect = Rect { x: area.x, y: area.y, width: area.width, height: area.height };
    let constraints = parts.iter().map(|p| match p {
        Part::Percent(n) => Constraint::Percentage(*n),
        Part::Length(n) => Constraint::Length(*n),
        Part::AtLeast(n) => Constraint::Min(*n),
    });
    let rects = Layout::default().direction(direction).constraints(constraints).split(rect);
    rects.iter().map(|r| Area { x: r.x, y: r.y, width: r.width, height: r.height }).collect()
}

/// The parts around a share in the middle, in percent.
pub open spec fn middle_parts(pct: u16) -> Seq<Part> {
    let edge = ((100 - pct) / 2) as u16;
    seq![Part::Percent(edge), Part::Percent(pct), Part::Percent(edge)]
}

proof fn lemma_middle_parts(pct: u16)
    requires
        pct <= 100,
    ensures
        are_shares(middle_parts(pct)),
{
    reveal_with_fuel(total, 4);
}

/// The parts around a share in the middle, in percent.
pub fn parts_around(pct: u16) -> (r: Vec<Part>)
    requires
        pct <= 100,
    ensures
        r@ == middle_parts(pct),
{
    let edge: u16 = (100 - pct) / 2;
    let r = vec![Part::Percent(edge), Part::Percent(pct), Part::Percent(edge)];
    assert(r@ == middle_parts(pct));
    r
}

/// An area in the middle of another, with these shares of its width and height in percent.
pub fn centered(area: Area, width_pct: u16, height_pct: u16) -> (r: Area)
    requires
        on_screen(area),
        width_pct <= 100,
        height_pct <= 100,
    ensures
        inside(r, area),
        near_share(r.height as int, height_pct as int, area.height as int),
        near_share(r.y - area.y, (100 - height_pct) / 2, area.height as int),
        near_share(r.width as int, width_pct as int, area.width as int),
        near_share(r.x - area.x, (100 - width_pct) / 2, area.width as int),
{
    proof {
        lemma_middle_parts(height_pct);
        lemma_middle_parts(width_pct);
    }
    let rows = split_area(true, &parts_around(height_pct), area);
    let row = rows[1];
    assert(near_share(room_of(true, rows@[0]), (100 - height_pct) / 2, area.height as int));
    let cols = split_area(false, &parts_around(width_pct), row);
    assert(near_share(room_of(false, cols@[0]), (100 - width_pct) / 2, area.width as int));
    cols[1]
}

/// The areas of the screen.
#[derive(Debug, Clone, Copy, PartialEq, Eq)]
pub struct Areas {
    pub title: Area,
    pub runners: Area,
    pub dirs: Area,
    pub runner_log: Area,
    pub log: Area,
    pub status: Area,
}

/// The areas of the screen: a title, the runners beside their directories and their log, the log
/// and the status, each within the screen.
pub fn screen_areas(area: Area) -> (r: Areas)
    requires
        on_screen(area),
    ensures
        inside(r.title, area),
        inside(r.runners, area),
        inside(r.dirs, area),
        inside(r.runner_log, area),
        inside(r.log, area),
        inside(r.status, area),
        r.title.width == area.width,
        r.log.width == area.width,
        r.status.width == area.width,
        r.dirs.x == r.runner_log.x,
        r.dirs.width == r.runner_log.width,
        near_share(r.runners.width as int, 48, area.width as int),
        near_share(r.dirs.width as int, 52, area.width as int),
        near_share(r.dirs.height as int, 55, r.runners.height as int),
        near_share(r.runner_log.height as int, 45, r.runners.height as int),
        r.runners.x == area.x,
        r.dirs.x == r.runners.x + r.runners.width,
        r.dirs.y == r.runners.y,
        r.runner_log.y == r.dirs.y + r.dirs.height,
        area.height >= 17 ==> {
            &&& r.title.y == area.y
            &&& r.title.height == 1
            &&& r.runners.y == area.y + 1
            &&& r.runners.height == area.height - 9
            &&& r.log.y == area.y + area.height - 8
            &&& r.log.height == 7
            &&& r.status.y == area.y + area.height - 1
            &&& r.status.height == 1
        },
{
    let parts = vec![Part::Length(1), Part::AtLeast(8), Part::Length(7), Part::Length(1)];
    let halves = vec![Part::Percent(48), Part::Percent(52)];
    let boxed = vec![Part::Percent(55), Part::Percent(45)];
    proof {
        reveal_with_fuel(total, 5);
        assert(parts@ == seq![
            Part::Length(1),
            Part::AtLeast(8),
            Part::Length(7),
            Part::Length(1),
        ]);
        assert(area.height >= 17 ==> are_lengths(parts@, room_of(true, area), 1));
        assert(halves@ == seq![Part::Percent(48), Part::Percent(52)]);
        assert(are_shares(halves@));
        assert(boxed@ == seq![Part::Percent(55), Part::Percent(45)]);
        assert(are_shares(boxed@));
    }
    let rows = split_area(true, &parts, area);
    let main = rows[1];
    let cols = split_area(false, &halves, main);
    let right = cols[1];
    let boxes = split_area(true, &boxed, right);
    Areas {
        title: rows[0],
        runners: cols[0],
        dirs: boxes[0],
        runner_log: boxes[1],
        log: rows[2],
        status: rows[3],
    }
}

/// The areas of the picker within its border: the input, the list and the hint, each within it.
pub fn picker_areas(inner: Area) -> (r: (Area, Area, Area))
    requires
        on_screen(inner),
    ensures
        inside(r.0, inner),
        inside(r.1, inner),
        inside(r.2, inner),
        r.0.width == inner.width,
        r.1.width == inner.width,
        r.2.width == inner.width,
        inner.height >= 8 ==> {
            &&& r.0.y == inner.y
            &&& r.0.height == 3
            &&& r.1.y == inner.y + 3
            &&& r.1.height == inner.height - 4
            &&& r.2.y == inner.y + inner.height - 1
            &&& r.2.height == 1
        },
{
    let parts = vec![Part::Length(3), Part::AtLeast(4), Part::Length(1)];
    proof {
        reveal_with_fuel(total, 4);
        assert(parts@ == seq![Part::Length(3), Part::AtLeast(4), Part::Length(1)]);
        assert(inner.height >= 8 ==> are_lengths(parts@, room_of(true, inner), 1));
    }
    let rows = split_area(true, &parts, inner);
    (rows[0], rows[1], rows[2])
}

// ---------------------------------------------------------------------------------------------
// What the screen shows

/// A text that is cut keeps its start, has the width at most and ends with an ellipsis; one that fits
/// stays as it is. A text that is padded starts with itself, and has blanks behind it up to the width.
pub proof fn texts_fit_their_width(s: Seq<char>, max: nat, i: int)
    ensures
        s.len() <= max ==> cut(s, max) == s,
        s.len() > max > 0 ==> cut(s, max).len() == max && cut(s, max).last() == '…' && cut(
            s,
            max,
        ).drop_last() == s.take(max - 1),
        s.len() >= max ==> padded(s, max) == s,
        s.len() < max ==> padded(s, max).len() == max && padded(s, max).take(s.len() as int) == s,
        s.len() <= i < padded(s, max).len() ==> padded(s, max)[i] == ' ',
{
    if s.len() > max && max > 0 {
        assert(cut(s, max).drop_last() =~= s.take(max - 1));
    }
    if s.len() < max {
        assert(padded(s, max).take(s.len() as int) =~= s);
    }
}

/// A runner's row starts with its id, where that fits, shows its process id and how many directories it
/// serves, and ends with whether Amp lists it.
pub proof fn rows_show_their_runners(r: RunnerView)
    ensures
        0 < r.id.len() <= 20 ==> text::has_prefix(runner_row(r), r.id),
        r.id.len() == 0 ==> text::has_prefix(runner_row(r), "(unnamed)"@),
        r.id.len() > 20 ==> text::has_prefix(runner_row(r), r.id.take(19)),
        r.pid is Some ==> text::holds(runner_row(r), "pid "@ + text::decimal(r.pid->0 as nat)),
        r.pid is None ==> text::holds(runner_row(r), "pid ?"@),
        r.dirs.len() == 1 ==> text::holds(runner_row(r), text::decimal(1) + " dir  "@),
        r.dirs.len() != 1 ==> text::holds(runner_row(r), text::decimal(r.dirs.len()) + " dirs  "@),
        r.from_amp_list ==> text::has_suffix(runner_row(r), "connected"@),
        !r.from_amp_list ==> text::has_suffix(runner_row(r), "local only"@),
{
    let name = cut(runner::shown_id(r.id), 20);
    let first = padded(name, 20);
    let pid = pid_label(r);
    let second = padded(pid, 12);
    let count = text::decimal(r.dirs.len()) + (if r.dirs.len() == 1 {
        " dir  "@
    } else {
        " dirs  "@
    });
    let last = health_label(r);
    let all = runner_row(r);
    assert(all =~= first + "  "@ + second + "  "@ + count + last);
    reveal_strlit("(unnamed)");
    texts_fit_their_width(runner::shown_id(r.id), 20, 0);
    texts_fit_their_width(name, 20, 0);
    texts_fit_their_width(pid, 12, 0);
    assert(first.take(name.len() as int) =~= name);
    let rest = first.skip(name.len() as int) + "  "@ + second + "  "@ + count + last;
    assert(first =~= name + first.skip(name.len() as int));
    assert(all =~= name + rest);
    text::prefixes_and_rests(name, rest, all);
    if r.id.len() > 20 {
        assert(all.take(19) =~= r.id.take(19)) by {
            assert(name.drop_last() == r.id.take(19));
            assert(all.take(19) =~= name.drop_last());
        }
    }
    let tail = second.skip(pid.len() as int) + "  "@ + count + last;
    assert(second.take(pid.len() as int) =~= pid);
    assert(second =~= pid + second.skip(pid.len() as int));
    text::lemma_holds(first + "  "@, pid, tail);
    assert(first + "  "@ + pid + tail =~= all);
    text::lemma_holds(first + "  "@ + second + "  "@, count, last);
    text::prefixes_and_rests(last, first + "  "@ + second + "  "@ + count, all);
}

/// The panel of runners has a row for each runner, in their order, with the selected one marked; it has
/// the focus where its pane is chosen and nothing is open over the panes.
pub proof fn the_runners_are_shown(a: AppView, i: int)
    ensures
        runners_panel(a).focused <==> a.pane == Pane::Runners && a.overlay == Overlay::Clear,
        a.runners.len() == 0 ==> runners_panel(a).body is Text,
        a.runners.len() > 0 ==> {
            let body = runners_panel(a).body;
            &&& body is List
            &&& body->List_items.len() == a.runners.len()
            &&& 0 <= i < a.runners.len() ==> body->List_items[i] == runner_row(a.runners[i])
            &&& body->List_selected == a.selected_runner
        },
{
}

/// The panel of directories has those of the selected runner, in their order and short below the home
/// directory, with the selected one marked, and names the runner.
pub proof fn the_directories_are_shown(a: AppView, home: Option<Seq<char>>, i: int)
    ensures
        dirs_panel(a, home).focused <==> a.pane == Pane::Dirs && a.overlay == Overlay::Clear,
        a.selected_runner < a.runners.len() ==> {
            let r = a.runners[a.selected_runner as int];
            let body = dirs_panel(a, home).body;
            &&& r.id.len() > 0 ==> text::holds(dirs_panel(a, home).title, r.id)
            &&& r.dirs.len() == 0 ==> body is Text
            &&& r.dirs.len() > 0 ==> {
                &&& body is List
                &&& body->List_items.len() == r.dirs.len()
                &&& 0 <= i < r.dirs.len() ==> body->List_items[i] == picker::displayed(
                    r.dirs[i],
                    home,
                )
                &&& body->List_selected == a.selected_dir
            }
        },
{
    if a.selected_runner < a.runners.len() {
        text::lemma_holds(
            " served dirs · "@,
            runner::shown_id(a.runners[a.selected_runner as int].id),
            " "@,
        );
    }
}

/// The status line is the status, red for an error, green for good news, yellow while a job is under
/// way, and gray else.
pub proof fn the_status_is_shown(a: AppView)
    ensures
        status_span(a).text == " "@ + a.status,
        a.status_kind == LogKind::Error ==> status_span(a).tone == Tone::Red,
        a.status_kind == LogKind::Good ==> status_span(a).tone == Tone::Green,
        a.status_kind == LogKind::Info && a.busy ==> status_span(a).tone == Tone::Yellow,
        a.status_kind == LogKind::Info && !a.busy ==> status_span(a).tone == Tone::Gray,
{
}

/// The log shows its newest lines, as many as fit, the newest last, each with its time and its text and
/// in the colour of its kind.
pub proof fn the_newest_lines_are_shown(a: AppView, height: u16, i: int)
    requires
        height >= 2,
    ensures
        ({
            let v = log_shown(a, height);
            &&& v.len() == if a.log.len() < height - 2 {
                a.log.len() as int
            } else {
                height - 2
            }
            &&& 0 <= i < v.len() ==> {
                let l = a.log[a.log.len() - v.len() + i];
                &&& v[i].0.text == l.time + "  "@
                &&& v[i].1.text == l.text
                &&& l.kind == LogKind::Error <==> v[i].1.tone == Tone::Red
                &&& l.kind == LogKind::Good <==> v[i].1.tone == Tone::Green
                &&& l.kind == LogKind::Info <==> v[i].1.tone == Tone::Gray
            }
        }),
{
}

/// The question before a stop or a restart names the selected runner, and the one before a removal the
/// selected directory.
pub proof fn questions_name_what_is_at_stake(a: AppView, home: Option<Seq<char>>)
    requires
        a.selected_runner < a.runners.len(),
    ensures
        ({
            let r = a.runners[a.selected_runner as int];
            let name = if r.id.len() > 0 {
                r.id
            } else {
                "(unnamed)"@
            };
            &&& text::has_prefix(confirm_question(a, ConfirmAction::Stop, home), "Stop runner `"@)
            &&& text::holds(confirm_question(a, ConfirmAction::Stop, home), name)
            &&& text::has_prefix(
                confirm_question(a, ConfirmAction::Restart, home),
                "Restart runner `"@,
            )
            &&& text::holds(confirm_question(a, ConfirmAction::Restart, home), name)
            &&& text::has_prefix(
                confirm_question(a, ConfirmAction::RemoveDir, home),
                "Remove served directory `"@,
            )
            &&& a.selected_dir < r.dirs.len() ==> text::holds(
                confirm_question(a, ConfirmAction::RemoveDir, home),
                picker::displayed(r.dirs[a.selected_dir as int], home),
            )
        }),
{
    let r = a.runners[a.selected_runner as int];
    let name = runner::shown_id(r.id);
    let stop = confirm_question(a, ConfirmAction::Stop, home);
    let restart = confirm_question(a, ConfirmAction::Restart, home);
    let remove = confirm_question(a, ConfirmAction::RemoveDir, home);
    text::lemma_holds("Stop runner `"@, name, "`?  SIGTERM then SIGKILL if needed."@);
    text::lemma_holds("Restart runner `"@, name, "` using its saved launch spec?"@);
    let dir = match app::selected_dir_of(a) {
        Some(p) => picker::displayed(p, home),
        None => "?"@,
    };
    text::lemma_holds("Remove served directory `"@, dir, "` from the selected runner?"@);
    text::prefixes_and_rests(
        "Stop runner `"@,
        name + "`?  SIGTERM then SIGKILL if needed."@,
        stop,
    );
    assert("Stop runner `"@ + (name + "`?  SIGTERM then SIGKILL if needed."@) =~= stop);
    text::prefixes_and_rests(
        "Restart runner `"@,
        name + "` using its saved launch spec?"@,
        restart,
    );
    assert("Restart runner `"@ + (name + "` using its saved launch spec?"@) =~= restart);
    text::prefixes_and_rests(
        "Remove served directory `"@,
        dir + "` from the selected runner?"@,
        remove,
    );
    assert("Remove served directory `"@ + (dir + "` from the selected runner?"@) =~= remove);
}

/// The panel of flags has a line for each field, in their order, with the field's flag and its value,
/// and marks the one that is edited; below them stands where they are saved.
pub proof fn the_flags_are_shown(a: AppView, i: int)
    ensures
        flag_lines(a).len() == 13,
        0 <= i < 9 ==> {
            let f = flags::all_fields()[i];
            let line = flag_lines(a)[i + 2];
            &&& text::holds(line.text, flags::flag_name(f))
            &&& text::has_suffix(line.text, flags::field_shown(a.flags, f))
            &&& line.bold <==> f == a.flag_field
            &&& line.tone == Tone::Yellow <==> f == a.flag_field
            &&& f == a.flag_field ==> text::has_prefix(line.text, "> "@)
            &&& f != a.flag_field ==> text::has_prefix(line.text, "  "@)
        },
        text::has_suffix(flag_lines(a)[12].text, a.config_path),
{
    text::prefixes_and_rests(a.config_path, "saved at "@, "saved at "@ + a.config_path);
    if 0 <= i < 9 {
        let f = flags::all_fields()[i];
        let line = flag_lines(a)[i + 2];
        assert(line == flag_line(a, f));
        let mark = if f == a.flag_field {
            "> "@
        } else {
            "  "@
        };
        let name = flags::flag_name(f);
        let wide = padded(name, 28);
        let value = flags::field_shown(a.flags, f);
        texts_fit_their_width(name, 28, 0);
        assert(wide.take(name.len() as int) =~= name);
        assert(wide =~= name + wide.skip(name.len() as int));
        let tail = wide.skip(name.len() as int) + " "@ + value;
        text::lemma_holds(mark, name, tail);
        assert(mark + name + tail =~= line.text);
        text::prefixes_and_rests(value, mark + wide + " "@, line.text);
        text::prefixes_and_rests(mark, wide + " "@ + value, line.text);
        assert(mark + (wide + " "@ + value) =~= line.text);
    }
}

/// The picker shows its entries by their labels, in their order, with the one under the cursor marked,
/// and what was typed with a cursor behind it; its title says what it was opened for.
pub proof fn the_picker_is_shown(p: PickerView, i: int)
    ensures
        picker_panel(p).items.len() == p.entries.len(),
        0 <= i < p.entries.len() ==> picker_panel(p).items[i] == p.entries[i].label,
        p.entries.len() == 0 ==> picker_panel(p).selected is None,
        p.cursor < p.entries.len() ==> picker_panel(p).selected == Some(p.cursor),
        picker_panel(p).input == p.input.push('_'),
        p.purpose is Start ==> text::holds(picker_panel(p).title, "start runner"@),
        p.purpose is AddDir ==> text::holds(picker_panel(p).title, "add served directory"@),
        p.searching ==> text::holds(picker_panel(p).input_title, "searching"@),
        !p.searching && p.filter_mode ==> text::holds(picker_panel(p).input_title, "filter"@),
        !p.searching && !p.filter_mode ==> text::holds(picker_panel(p).input_title, "nav"@),
{
    reveal_strlit("_");
    assert(p.input + "_"@ =~= p.input.push('_'));
    reveal_strlit(" start runner · pick start cwd ");
    reveal_strlit("start runner");
    reveal_strlit(" add served directory to selected runner ");
    reveal_strlit("add served directory");
    reveal_strlit(" searching / path ");
    reveal_strlit("searching");
    reveal_strlit(" filter / path ");
    reveal_strlit("filter");
    reveal_strlit(" nav / path ");
    reveal_strlit("nav");
    let t = picker_panel(p).title;
    if p.purpose is Start {
        assert(t.subrange(1, 13) =~= "start runner"@);
        assert(text::occurs_at(t, "start runner"@, 1));
    } else {
        assert(t.subrange(1, 21) =~= "add served directory"@);
        assert(text::occurs_at(t, "add served directory"@, 1));
    }
    let m = picker_panel(p).input_title;
    if p.searching {
        assert(m.subrange(1, 10) =~= "searching"@);
        assert(text::occurs_at(m, "searching"@, 1));
    } else if p.filter_mode {
        assert(m.subrange(1, 7) =~= "filter"@);
        assert(text::occurs_at(m, "filter"@, 1));
    } else {
        assert(m.subrange(1, 4) =~= "nav"@);
        assert(text::occurs_at(m, "nav"@, 1));
    }
}

/// The log of the selected runner is the file that a start of its id, or in its directory, writes; its
/// panel names the file and shows the lines that were read from it, one below the other.
pub proof fn the_runner_log_is_shown(
    a: AppView,
    state: Seq<char>,
    log: Seq<char>,
    lines: Seq<Seq<char>>,
    home: Option<Seq<char>>,
)
    ensures
        a.selected_runner >= a.runners.len() ==> selected_log(a, state) is None,
        a.selected_runner < a.runners.len() ==> {
            let r = a.runners[a.selected_runner as int];
            selected_log(a, state) == Some(
                launch::log_path_text(
                    state,
                    if r.id.len() > 0 {
                        Some(r.id)
                    } else {
                        None
                    },
                    r.cwd,
                ),
            )
        },
        text::holds(runner_log_texts(Some(log), lines, home).0, picker::displayed(log, home)),
        lines.len() > 0 ==> runner_log_texts(Some(log), lines, home).1 == text::joined(
            lines,
            "\n"@,
        ),
        lines.len() == 0 ==> text::has_suffix(runner_log_texts(Some(log), lines, home).1, log),
{
    text::lemma_holds(" runner log · "@, picker::displayed(log, home), " "@);
    text::prefixes_and_rests(log, "(empty or missing)\n"@, log);
}

/// The title shows the version of the program and that of Amp.
pub proof fn the_versions_are_shown(a: AppView, version: Seq<char>)
    ensures
        exists|i: int|
            0 <= i < title_spans(a, version).len() && text::holds(
                (#[trigger] title_spans(a, version)[i]).text,
                version,
            ),
        exists|i: int|
            0 <= i < title_spans(a, version).len() && (#[trigger] title_spans(a, version)[i]).text
                == app::version_label(a.amp_version),
{
    let t = title_spans(a, version);
    text::lemma_holds("v"@, version, "  "@);
    assert(t[1].text == "v"@ + version + "  "@);
    assert(t[3].text == app::version_label(a.amp_version));
}

} // verus!
