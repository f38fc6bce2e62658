//! How the program behaves: what each key, event and answer comes to, told by the state before and
//! after it.
use vstd::prelude::*;
use crate::app;
use crate::app::{
    AppView, ConfirmAction, EffectView, LogKind, NowView, Overlay, Pane, PendingView,
};
use crate::config;
use crate::config::ConfigView;
use crate::flags::FlagField;
use crate::jobs::{EventView, JobView};
use crate::launch::{HealthView, LaunchView, OutcomeView};
use crate::path;
use crate::picker;
use crate::picker::{
    EntryView, Key, KeyPress, Listing, PickerPurpose, PickerView, Surroundings,
};
use crate::process;
use crate::runner;
use crate::runner::RunnerView;
use crate::stop::StopOutcome;
use crate::text;

verus! {

/// Whether a key is not the one that always quits.
pub open spec fn ordinary(k: KeyPress) -> bool {
    !(k.control && k.key == Key::Char('c'))
}

/// Whether the last line of the log, and the status, tell a text.
pub open spec fn told(a: AppView, now: NowView, kind: LogKind, text: Seq<char>) -> bool {
    &&& a.status == text
    &&& a.status_kind == kind
    &&& a.log.len() > 0
    &&& a.log.last().text == text
    &&& a.log.last().kind == kind
    &&& a.log.last().time == now.clock
}

/// Whether a state differs from another in its log and its status alone.
pub open spec fn same_but_log(a: AppView, b: AppView) -> bool {
    b == (AppView { log: b.log, status: b.status, status_kind: b.status_kind, ..a })
}

/// Whether the later log holds the newest lines of the earlier one, in their order, before its last
/// line; the oldest go where there are more than 200.
pub open spec fn one_line_more(before: AppView, after: AppView) -> bool {
    &&& after.log.len() == if before.log.len() < 200 {
        before.log.len() + 1
    } else {
        200
    }
    &&& forall|i: int|
        1 <= i < after.log.len() ==> #[trigger] after.log[after.log.len() - 1 - i]
            == before.log[before.log.len() - i]
}

/// What is logged is the newest line, with its time and its kind, and is shown as the status; the
/// lines before it stay, up to the 200 newest, and nothing else changes.
pub proof fn logging_tells(a: AppView, now: NowView, kind: LogKind, text: Seq<char>)
    requires
        a.log.len() <= 200,
    ensures
        told(app::logged(a, now, kind, text), now, kind, text),
        same_but_log(a, app::logged(a, now, kind, text)),
        one_line_more(a, app::logged(a, now, kind, text)),
{
    let b = app::logged(a, now, kind, text);
    let full = a.log.push(b.log.last());
    assert forall|i: int| 1 <= i < b.log.len() implies #[trigger] b.log[b.log.len() - 1 - i]
        == a.log[a.log.len() - i] by {
        assert(b.log[b.log.len() - 1 - i] == a.log.push(
            app::LogView { time: now.clock, text, kind },
        )[a.log.len() - i]);
    }
}

/// Whether a step hands out this job: none was under way, one is now, and the status says so.
pub open spec fn hands_out(a: AppView, next: (AppView, EffectView), job: JobView) -> bool {
    &&& next.1 == EffectView::Run(job)
    &&& next.0.busy
    &&& next.0.status_kind == LogKind::Info
    &&& text::has_prefix(next.0.status, "working…"@)
    &&& next.0.runners == a.runners
    &&& next.0.config == a.config
}

/// Whether a step is turned down: an error is told, and nothing else is done or changed.
pub open spec fn turned_down(a: AppView, now: NowView, next: (AppView, EffectView)) -> bool {
    &&& next.1 is Nothing
    &&& same_but_log(a, next.0)
    &&& told(next.0, now, LogKind::Error, next.0.status)
}

// ---------------------------------------------------------------------------------------------
// Keys over the panes

/// The keys that only look elsewhere: quitting, help, the panes, the flags and the config path.
pub proof fn keys_look_elsewhere(a: AppView, now: NowView, k: KeyPress)
    requires
        a.overlay == Overlay::Clear,
        ordinary(k),
    ensures
        ({
            let next = app::key_handled(a, now, k);
            let b = next.0;
            &&& k.key == Key::Char('q') ==> b == (AppView { should_quit: true, ..a })
            &&& k.key == Key::Char('?') ==> b == (AppView { overlay: Overlay::Help, ..a })
            &&& k.key == Key::Tab || k.key == Key::BackTab ==> b.pane != a.pane && b == (AppView {
                pane: b.pane,
                ..a
            })
            &&& k.key == Key::Char('h') || k.key == Key::Left ==> b == (AppView {
                pane: Pane::Runners,
                ..a
            })
            &&& k.key == Key::Char('l') || k.key == Key::Right ==> b == (AppView {
                pane: Pane::Dirs,
                ..a
            })
            &&& k.key == Key::Char('f') ==> b == (AppView {
                overlay: Overlay::Flags,
                flags: a.config.defaults,
                flag_field: FlagField::RunnerId,
                ..a
            })
            &&& k.key == Key::Char('c') ==> b.status == a.config_path && same_but_log(a, b)
                && b.log.len() > 0 && b.log.last().text == "config "@ + a.config_path
            &&& k.key == Key::Char('q') || k.key == Key::Char('?') || k.key == Key::Tab || k.key
                == Key::BackTab || k.key == Key::Char('h') || k.key == Key::Left || k.key
                == Key::Char('l') || k.key == Key::Right || k.key == Key::Char('f') || k.key
                == Key::Char('c') ==> next.1 is Nothing
        }),
{
}

/// `j` and the down key go one further in the list of the pane, `k` and the up key one back, and
/// neither beyond its ends; another runner is shown from its first directory on.
pub proof fn keys_move_the_selection(a: AppView, now: NowView, k: KeyPress)
    requires
        a.overlay == Overlay::Clear,
        k.key == Key::Char('j') || k.key == Key::Down || k.key == Key::Char('k') || k.key
            == Key::Up,
        a.selected_runner < a.runners.len(),
        a.runners[a.selected_runner as int].dirs.len() > 0 ==> a.selected_dir
            < a.runners[a.selected_runner as int].dirs.len(),
    ensures
        ({
            let next = app::key_handled(a, now, k);
            let b = next.0;
            let down = k.key == Key::Char('j') || k.key == Key::Down;
            let dirs = a.runners[a.selected_runner as int].dirs;
            &&& next.1 is Nothing
            &&& a.pane == Pane::Runners ==> {
                &&& b == (AppView { selected_runner: b.selected_runner, selected_dir: 0, ..a })
                &&& down && a.selected_runner + 1 < a.runners.len() ==> b.selected_runner
                    == a.selected_runner + 1
                &&& down && a.selected_runner + 1 == a.runners.len() ==> b.selected_runner
                    == a.selected_runner
                &&& !down && a.selected_runner > 0 ==> b.selected_runner == a.selected_runner - 1
                &&& !down && a.selected_runner == 0 ==> b.selected_runner == 0
            }
            &&& a.pane == Pane::Dirs ==> {
                &&& b == (AppView { selected_dir: b.selected_dir, ..a })
                &&& dirs.len() == 0 ==> b == a
                &&& dirs.len() > 0 && down && a.selected_dir + 1 < dirs.len() ==> b.selected_dir
                    == a.selected_dir + 1
                &&& dirs.len() > 0 && down && a.selected_dir + 1 == dirs.len() ==> b.selected_dir
                    == a.selected_dir
                &&& dirs.len() > 0 && !down && a.selected_dir > 0 ==> b.selected_dir
                    == a.selected_dir - 1
                &&& dirs.len() > 0 && !down && a.selected_dir == 0 ==> b.selected_dir == 0
            }
        }),
{
}

/// `u` updates Amp and `g` asks for the runner list, where no job is under way; where one is, `u` is
/// answered so, and `g` does nothing.
pub proof fn keys_ask_amp(a: AppView, now: NowView, k: KeyPress)
    requires
        a.overlay == Overlay::Clear,
    ensures
        ({
            let next = app::key_handled(a, now, k);
            &&& k.key == Key::Char('u') && !a.busy ==> hands_out(a, next, JobView::Update)
            &&& k.key == Key::Char('g') && !a.busy ==> hands_out(a, next, JobView::Refresh)
            &&& k.key == Key::Char('g') && a.busy ==> next == (a, EffectView::Nothing)
            &&& k.key == Key::Char('u') && a.busy ==> next.1 is Nothing && same_but_log(a, next.0)
                && told(next.0, now, LogKind::Info, "already working…"@)
        }),
{
    lemma_working_literals();
}

/// `x`, `r` and `d` ask for a confirmation of a stop, a restart and a removal, where there is a
/// runner to stop or restart, or a directory to remove; else they are turned down.
pub proof fn keys_ask_first(a: AppView, now: NowView, k: KeyPress)
    requires
        a.overlay == Overlay::Clear,
        k.key == Key::Char('x') || k.key == Key::Char('r') || k.key == Key::Char('d'),
    ensures
        ({
            let next = app::key_handled(a, now, k);
            let action = if k.key == Key::Char('x') {
                ConfirmAction::Stop
            } else if k.key == Key::Char('r') {
                ConfirmAction::Restart
            } else {
                ConfirmAction::RemoveDir
            };
            let there = a.selected_runner < a.runners.len() && (k.key == Key::Char('d')
                ==> a.selected_dir < a.runners[a.selected_runner as int].dirs.len());
            &&& there ==> next == (
                AppView { overlay: Overlay::Confirm, confirm: Some(action), ..a },
                EffectView::Nothing,
            )
            &&& !there ==> turned_down(a, now, next)
        }),
{
}

/// `s` opens the picker to start a runner, and `a` to add a directory to the selected one, each at
/// the working directory, with nothing typed yet; `a` is turned down where no runner is selected.
pub proof fn keys_open_the_picker(a: AppView, now: NowView, k: KeyPress)
    requires
        a.overlay == Overlay::Clear,
        k.key == Key::Char('s') || k.key == Key::Char('a'),
    ensures
        ({
            let next = app::key_handled(a, now, k);
            let b = next.0;
            if k.key == Key::Char('s') || a.selected_runner < a.runners.len() {
                &&& b.overlay == Overlay::Picker
                &&& b.picker is Some
                &&& b.picker->0.purpose == if k.key == Key::Char('s') {
                    PickerPurpose::Start
                } else {
                    PickerPurpose::AddDir
                }
                &&& b.picker->0.input.len() == 0
                &&& !b.picker->0.filter_mode
                &&& b.picker->0.cursor == 0
                &&& b.picker->0.browse_root == match now.cwd {
                    Some(d) => d,
                    None => "."@,
                }
                &&& next.1 == EffectView::List { root: Some(b.picker->0.browse_root), typed: None }
                &&& b == (AppView {
                    overlay: b.overlay,
                    picker: b.picker,
                    pending: b.pending,
                    ..a
                })
            } else {
                turned_down(a, now, next)
            }
        }),
{
}

/// Enter in the pane of directories shows the selected one as the status.
pub proof fn enter_shows_the_directory(a: AppView, now: NowView, k: KeyPress)
    requires
        a.overlay == Overlay::Clear,
        k.key == Key::Enter,
    ensures
        ({
            let next = app::key_handled(a, now, k);
            &&& next.1 is Nothing
            &&& next.0 == (AppView { status: next.0.status, ..a })
            &&& a.pane == Pane::Dirs && a.selected_runner < a.runners.len() && a.selected_dir
                < a.runners[a.selected_runner as int].dirs.len() ==> next.0.status
                == a.runners[a.selected_runner as int].dirs[a.selected_dir as int]
            &&& a.pane == Pane::Runners ==> next.0.status == a.status
        }),
{
}

/// The other keys over the panes do nothing.
pub proof fn other_keys_do_nothing(a: AppView, now: NowView, k: KeyPress)
    requires
        a.overlay == Overlay::Clear,
        ordinary(k),
        match k.key {
            Key::Char(c) => !seq!['q', '?', 'h', 'j', 'k', 'l', 'g', 's', 'x', 'r', 'a', 'd', 'u',
                'f', 'c'].contains(c),
            Key::Esc => true,
            Key::Backspace => true,
            Key::Other => true,
            _ => false,
        },
    ensures
        app::key_handled(a, now, k) == (a, EffectView::Nothing),
{
    let s = seq!['q', '?', 'h', 'j', 'k', 'l', 'g', 's', 'x', 'r', 'a', 'd', 'u', 'f', 'c'];
    assert(s[0] == 'q' && s[1] == '?' && s[2] == 'h' && s[3] == 'j' && s[4] == 'k' && s[5] == 'l'
        && s[6] == 'g' && s[7] == 's' && s[8] == 'x' && s[9] == 'r' && s[10] == 'a' && s[11] == 'd'
        && s[12] == 'u' && s[13] == 'f' && s[14] == 'c');
}

proof fn lemma_starts(a: Seq<char>, b: Seq<char>, p: Seq<char>)
    requires
        text::has_prefix(a, p),
    ensures
        text::has_prefix(a + b, p),
{
    assert((a + b).take(p.len() as int) == a.take(p.len() as int));
}

proof fn lemma_working_literals()
    ensures
        text::has_prefix("working… refresh"@, "working…"@),
        text::has_prefix("working… amp update"@, "working…"@),
        text::has_prefix("working… dirs"@, "working…"@),
        text::has_prefix("working… stop "@, "working…"@),
        text::has_prefix("working… restart "@, "working…"@),
        text::has_prefix("working… add "@, "working…"@),
        text::has_prefix("working… start in "@, "working…"@),
        text::has_prefix("working… remove dir from "@, "working…"@),
{
    reveal_strlit("working…");
    reveal_strlit("working… refresh");
    reveal_strlit("working… amp update");
    reveal_strlit("working… dirs");
    reveal_strlit("working… stop ");
    reveal_strlit("working… restart ");
    reveal_strlit("working… add ");
    reveal_strlit("working… start in ");
    reveal_strlit("working… remove dir from ");
    let w = "working…"@;
    assert("working… refresh"@.take(w.len() as int) =~= w);
    assert("working… amp update"@.take(w.len() as int) =~= w);
    assert("working… dirs"@.take(w.len() as int) =~= w);
    assert("working… stop "@.take(w.len() as int) =~= w);
    assert("working… restart "@.take(w.len() as int) =~= w);
    assert("working… add "@.take(w.len() as int) =~= w);
    assert("working… start in "@.take(w.len() as int) =~= w);
    assert("working… remove dir from "@.take(w.len() as int) =~= w);
}

// ---------------------------------------------------------------------------------------------
// Confirmations

/// The runner id of a job for a runner: its id, where it has one.
pub open spec fn job_id(r: RunnerView, runner_id: Option<Seq<char>>) -> bool {
    if r.id.len() == 0 {
        runner_id is None
    } else {
        runner_id == Some(r.id)
    }
}

/// What a runner is called: its id, where it has one.
pub open spec fn called(r: RunnerView, name: Seq<char>) -> bool {
    if r.id.len() == 0 {
        name == "(unnamed)"@
    } else {
        name == r.id
    }
}

/// Whether a job is about the selected runner: a stop or a restart is of its process, by its id; a
/// removal or an addition is under its id, and a removal is of its selected directory.
pub open spec fn about_selected(a: AppView, job: JobView) -> bool {
    let r = a.runners[a.selected_runner as int];
    match job {
        JobView::Stop { pid, runner_id, display_id } => {
            &&& a.selected_runner < a.runners.len()
            &&& r.pid == Some(pid)
            &&& pid > 0
            &&& job_id(r, runner_id)
            &&& called(r, display_id)
        },
        JobView::Restart { pid, runner_id, display_id, spec } => {
            &&& a.selected_runner < a.runners.len()
            &&& r.pid == Some(pid)
            &&& pid > 0
            &&& job_id(r, runner_id)
            &&& called(r, display_id)
        },
        JobView::DirsRemove { runner_id, display_id, path } => {
            &&& a.selected_runner < a.runners.len()
            &&& a.selected_dir < r.dirs.len()
            &&& path == r.dirs[a.selected_dir as int]
            &&& job_id(r, runner_id)
            &&& called(r, display_id)
        },
        JobView::DirsAdd { runner_id, display_id, path } => {
            &&& a.selected_runner < a.runners.len()
            &&& job_id(r, runner_id)
            &&& called(r, display_id)
        },
        _ => true,
    }
}

/// Whatever key or answer hands out a job, a job about a runner is about the selected one.
pub proof fn jobs_are_about_the_selected(
    a: AppView,
    now: NowView,
    k: KeyPress,
    is_dir: bool,
    specs: Seq<LaunchView>,
)
    ensures
        app::key_handled(a, now, k).1 is Run ==> about_selected(
            a,
            app::key_handled(a, now, k).1->Run_0,
        ),
        app::after_check(a, now, is_dir).1 is Run ==> about_selected(
            a,
            app::after_check(a, now, is_dir).1->Run_0,
        ),
        app::after_launches(a, now, specs).1 is Run ==> about_selected(
            a,
            app::after_launches(a, now, specs).1->Run_0,
        ),
{
    lemma_key_job(a, now, k);
    lemma_answer_job(a, now, is_dir, specs);
}

proof fn lemma_key_job(a: AppView, now: NowView, k: KeyPress)
    ensures
        app::key_handled(a, now, k).1 is Run ==> about_selected(
            a,
            app::key_handled(a, now, k).1->Run_0,
        ),
{
}

proof fn lemma_answer_job(a: AppView, now: NowView, is_dir: bool, specs: Seq<LaunchView>)
    ensures
        app::after_check(a, now, is_dir).1 is Run ==> about_selected(
            a,
            app::after_check(a, now, is_dir).1->Run_0,
        ),
        app::after_launches(a, now, specs).1 is Run ==> about_selected(
            a,
            app::after_launches(a, now, specs).1->Run_0,
        ),
{
}

/// `y` or Enter does what was asked, where no job is under way: a stop of a runner with a process id
/// is handed out, a removal of a directory is, and for a restart the launches are read. Either way
/// the question is gone.
pub proof fn yes_does_it(a: AppView, now: NowView, k: KeyPress)
    requires
        a.overlay == Overlay::Confirm,
        k.key == Key::Char('y') || k.key == Key::Enter,
        a.selected_runner < a.runners.len(),
    ensures
        ({
            let next = app::key_handled(a, now, k);
            let r = a.runners[a.selected_runner as int];
            &&& next.0.overlay == Overlay::Clear
            &&& next.0.confirm is None
            &&& a.confirm == Some(ConfirmAction::Stop) && !a.busy && r.pid is Some && r.pid->0 > 0
                ==> next.1 is Run && next.1->Run_0 is Stop && hands_out(a, next, next.1->Run_0)
            &&& a.confirm == Some(ConfirmAction::Stop) && r.pid is None ==> next.1 is Nothing
                && next.0.status_kind == LogKind::Error
            &&& a.confirm == Some(ConfirmAction::RemoveDir) && !a.busy && a.selected_dir
                < r.dirs.len() ==> next.1 is Run && next.1->Run_0 is DirsRemove && hands_out(
                a,
                next,
                next.1->Run_0,
            )
            &&& a.confirm == Some(ConfirmAction::Restart) ==> next.1 is ReadLaunches
                && next.0.pending == Some(PendingView::Restart)
        }),
{
    lemma_working_literals();
    let r = a.runners[a.selected_runner as int];
    let name = runner::shown_id(r.id);
    lemma_starts("working… stop "@, name, "working…"@);
    lemma_starts("working… remove dir from "@, name, "working…"@);
}

/// `n`, `q` and Esc call it off: the question is gone, and nothing is done. Other keys leave the
/// question.
pub proof fn no_calls_it_off(a: AppView, now: NowView, k: KeyPress)
    requires
        a.overlay == Overlay::Confirm,
        ordinary(k),
        k.key != Key::Char('y'),
        k.key != Key::Enter,
    ensures
        ({
            let next = app::key_handled(a, now, k);
            &&& next.1 is Nothing
            &&& k.key == Key::Char('n') || k.key == Key::Char('q') || k.key == Key::Esc ==> next.0
                == (AppView { overlay: Overlay::Clear, confirm: None, ..a })
            &&& !(k.key == Key::Char('n') || k.key == Key::Char('q') || k.key == Key::Esc)
                ==> next.0 == a
        }),
{
}

// ---------------------------------------------------------------------------------------------
// The picker, the flags and the help over the panes

/// Enter over the picker closes it and has the highlighted path looked at, for what the picker was
/// opened for; right has it looked at to go into it; Esc closes it where nothing was typed.
pub proof fn picker_hands_over_the_highlighted(a: AppView, now: NowView, k: KeyPress)
    requires
        a.overlay == Overlay::Picker,
        a.picker is Some,
        ordinary(k),
    ensures
        ({
            let next = app::key_handled(a, now, k);
            let p = a.picker->0;
            let path = p.entries[p.cursor as int].path;
            let closed = AppView { picker: None, overlay: Overlay::Clear, ..a };
            &&& k.key == Key::Enter && p.cursor < p.entries.len() ==> next == (
                AppView {
                    pending: Some(
                        PendingView::Finish {
                            purpose: p.purpose,
                            path: picker::expanded(path, now.home),
                        },
                    ),
                    ..closed
                },
                EffectView::CheckDir(picker::expanded(path, now.home)),
            )
            &&& k.key == Key::Right && p.cursor < p.entries.len() ==> next == (
                AppView { pending: Some(PendingView::Descend(path)), ..a },
                EffectView::CheckDir(path),
            )
            &&& k.key == Key::Esc && p.input.len() == 0 && !p.filter_mode ==> next == (
                closed,
                EffectView::Nothing,
            )
            &&& k.key == Key::Esc && (p.input.len() > 0 || p.filter_mode) ==> next.0.overlay
                == Overlay::Picker && next.0.picker is Some && next.0.picker->0.input.len() == 0
        }),
{
}

/// A path that starts with a slash and has no space around it is looked at as it is.
pub proof fn rooted_paths_are_taken_as_they_are(p: Seq<char>, home: Option<Seq<char>>)
    requires
        p.len() > 0,
        p[0] == '/',
        !text::is_space(p.last()),
    ensures
        picker::expanded(p, home) == p,
{
    text::trimming_ignores_spaces_around(Seq::empty(), p, Seq::empty());
    assert(Seq::<char>::empty() + p + Seq::<char>::empty() =~= p);
    assert(!text::blank(p)) by {
        assert(!text::is_space(p[0]));
    }
    picker::typing_is_expanded(p, home);
}

/// What the picker shows is listed anew with each change: the browsed directory where nothing is
/// typed, and else what was typed.
pub proof fn the_picker_lists_what_it_browses(a: AppView, now: NowView, k: KeyPress)
    requires
        a.overlay == Overlay::Picker,
        a.picker is Some,
        k.key == Key::Left || k.key == Key::Backspace || k.key == Key::Esc,
        app::key_handled(a, now, k).0.overlay == Overlay::Picker,
        app::key_handled(a, now, k).1 is List,
    ensures
        ({
            let next = app::key_handled(a, now, k);
            let q = next.0.picker->0;
            &&& next.0.picker is Some
            &&& next.0.pending == Some(PendingView::Listing)
            &&& q.search_gen != a.picker->0.search_gen
            &&& text::blank(q.input) ==> next.1 == (EffectView::List {
                root: Some(q.browse_root),
                typed: None,
            })
            &&& !text::blank(q.input) ==> next.1->root is None && next.1->typed == Some(
                picker::expanded(q.input, now.home),
            )
        }),
{
    let q = app::key_handled(a, now, k).0.picker->0;
    let cut = text::trimming_drops_only_spaces(q.input);
    text::trim_is_stable(q.input);
}

/// A picked path starts a runner there or is added to the selected runner, where it is a directory;
/// where it is none, an error names it.
pub proof fn picked_paths_are_used(a: AppView, now: NowView, is_dir: bool)
    requires
        a.pending is Some,
        a.pending->0 is Finish,
    ensures
        ({
            let next = app::after_check(a, now, is_dir);
            let b = AppView { pending: None, ..a };
            let path = a.pending->0->Finish_path;
            let starts = a.pending->0->Finish_purpose is Start;
            let id = a.config.defaults.runner_id;
            &&& next.0.pending is None
            &&& !is_dir ==> turned_down(b, now, next) && text::holds(next.0.status, path)
            &&& is_dir && starts && !a.busy && (id is None || runner::plausible_id(id->0))
                ==> hands_out(
                b,
                next,
                JobView::Start { cwd: path, opts: config::options_of(a.config.defaults) },
            )
            &&& is_dir && starts && id is Some && !runner::plausible_id(id->0) ==> turned_down(
                b,
                now,
                next,
            ) && text::holds(next.0.status, id->0)
            &&& is_dir && !starts && !a.busy && a.selected_runner < a.runners.len() ==> {
                &&& next.1 is Run
                &&& hands_out(b, next, next.1->Run_0)
                &&& next.1->Run_0 is DirsAdd
                &&& next.1->Run_0->DirsAdd_path == path
                &&& job_id(
                    a.runners[a.selected_runner as int],
                    next.1->Run_0->DirsAdd_runner_id,
                )
            }
            &&& is_dir && a.busy ==> !(next.1 is Run)
        }),
{
    lemma_working_literals();
    let path = a.pending->0->Finish_path;
    let shown = picker::displayed(path, now.home);
    lemma_starts("working… start in "@, shown, "working…"@);
    lemma_starts("working… add "@, shown, "working…"@);
    text::lemma_holds("not a directory: "@, path, Seq::empty());
    assert("not a directory: "@ + path + Seq::<char>::empty() =~= "not a directory: "@ + path);
    if a.config.defaults.runner_id is Some {
        text::lemma_holds(
            "refusing to start: runner-id `"@,
            a.config.defaults.runner_id->0,
            "` is not a hostname"@,
        );
    }
}

/// Going into a directory browses it from its first entry on; where it is none, the picker stays.
pub proof fn going_into_a_directory(a: AppView, now: NowView, is_dir: bool)
    requires
        a.pending is Some,
        a.pending->0 is Descend,
        a.picker is Some,
    ensures
        ({
            let next = app::after_check(a, now, is_dir);
            let dir = a.pending->0->Descend_0;
            &&& is_dir ==> next.0.picker is Some && next.0.picker->0.browse_root == dir
                && next.0.picker->0.cursor == 0 && next.0.picker->0.input == a.picker->0.input
                && next.0.picker->0.purpose == a.picker->0.purpose && next.0.overlay == a.overlay
            &&& is_dir && text::blank(a.picker->0.input) ==> next.1 == (EffectView::List {
                root: Some(dir),
                typed: None,
            })
            &&& !is_dir ==> next == (AppView { pending: None, ..a }, EffectView::Nothing)
        }),
{
    let cut = text::trimming_drops_only_spaces(a.picker->0.input);
}

/// The keys over the flags: Esc and `q` leave without a change to the config; `s` makes the flags the
/// defaults and saves them, where the runner id can be one and the config can be written, and is
/// turned down else.
pub proof fn flags_are_saved_on_demand(a: AppView, now: NowView, k: KeyPress)
    requires
        a.overlay == Overlay::Flags,
        ordinary(k),
    ensures
        ({
            let next = app::key_handled(a, now, k);
            let b = next.0;
            let valid = a.flags.runner_id is None || runner::plausible_id(a.flags.runner_id->0);
            &&& k.key == Key::Esc || k.key == Key::Char('q') ==> next == (
                AppView { overlay: Overlay::Clear, ..a },
                EffectView::Nothing,
            )
            &&& k.key != Key::Char('s') ==> b.config == a.config && next.1 is Nothing
            &&& k.key == Key::Char('s') && !(valid && a.config_writable) ==> turned_down(
                a,
                now,
                next,
            )
            &&& k.key == Key::Char('s') && !valid ==> text::holds(b.status, a.flags.runner_id->0)
            &&& k.key == Key::Char('s') && valid && a.config_writable ==> {
                &&& b.config == (ConfigView { defaults: a.flags, ..a.config })
                &&& b.flags == a.flags
                &&& b.overlay == Overlay::Flags
                &&& config::can_save(b.config) ==> next.1 is Save && next.1->Save_0
                    == config::write_of(
                    a.config_path,
                    crate::document::toml_text(config::config_tree(b.config)),
                ) && b.pending == Some(PendingView::Flags)
                &&& !config::can_save(b.config) ==> next.1 is Nothing && b.status_kind
                    == LogKind::Error
            }
        }),
{
    if a.flags.runner_id is Some {
        text::lemma_holds(
            "runner-id `"@,
            a.flags.runner_id->0,
            "` is not a hostname (letters, digits, '-', '.')"@,
        );
    }
}

/// The other keys over the flags: `j` and `k` go from field to field; Enter and space edit a text
/// field, from the text that it has, or give another field its next value; left and right give the
/// field its next value.
pub proof fn flags_are_edited_field_by_field(a: AppView, now: NowView, k: KeyPress)
    requires
        a.overlay == Overlay::Flags,
        ordinary(k),
    ensures
        ({
            let b = app::key_handled(a, now, k).0;
            let opens = k.key == Key::Enter || k.key == Key::Char(' ');
            let nudges = k.key == Key::Char('l') || k.key == Key::Right || k.key == Key::Char('h')
                || k.key == Key::Left;
            &&& k.key == Key::Char('j') || k.key == Key::Down ==> b == (AppView {
                flag_field: crate::flags::field_below(a.flag_field),
                ..a
            })
            &&& k.key == Key::Char('k') || k.key == Key::Up ==> b == (AppView {
                flag_field: crate::flags::field_above(a.flag_field),
                ..a
            })
            &&& opens && crate::flags::text_field(a.flag_field) ==> b == (AppView {
                overlay: Overlay::EditField,
                edit_buffer: b.edit_buffer,
                ..a
            }) && match crate::flags::field_text(a.flags, a.flag_field) {
                Some(s) => b.edit_buffer == s,
                None => b.edit_buffer.len() == 0,
            }
            &&& opens && !crate::flags::text_field(a.flag_field) || nudges ==> b == (AppView {
                flags: crate::flags::nudged(a.flags, a.flag_field),
                ..a
            })
        }),
{
}

/// The keys over a field that is edited: a letter goes behind the text, backspace takes the last one
/// off, Enter puts the text into the field, and Esc leaves the field as it was.
pub proof fn fields_are_typed(a: AppView, now: NowView, k: KeyPress)
    requires
        a.overlay == Overlay::EditField,
        ordinary(k),
    ensures
        ({
            let next = app::key_handled(a, now, k);
            let b = next.0;
            &&& next.1 is Nothing
            &&& b.config == a.config
            &&& k.key is Char && !k.control ==> b == (AppView {
                edit_buffer: a.edit_buffer.push(k.key->Char_0),
                ..a
            })
            &&& k.key is Char && k.control ==> b == a
            &&& k.key == Key::Backspace && a.edit_buffer.len() > 0 ==> b == (AppView {
                edit_buffer: a.edit_buffer.drop_last(),
                ..a
            })
            &&& k.key == Key::Esc ==> b == (AppView { overlay: Overlay::Flags, ..a })
            &&& k.key == Key::Enter ==> b == (AppView {
                overlay: Overlay::Flags,
                flags: crate::flags::edited(a.flags, a.flag_field, a.edit_buffer),
                ..a
            })
        }),
{
}

/// The keys over the help: Esc, `q` and `?` close it, `j` and `k` scroll it by one line and not above
/// its first.
pub proof fn help_scrolls(a: AppView, now: NowView, k: KeyPress)
    requires
        a.overlay == Overlay::Help,
        ordinary(k),
    ensures
        ({
            let next = app::key_handled(a, now, k);
            let b = next.0;
            &&& next.1 is Nothing
            &&& k.key == Key::Esc || k.key == Key::Char('q') || k.key == Key::Char('?') ==> b == (
            AppView { overlay: Overlay::Clear, ..a })
            &&& (k.key == Key::Char('j') || k.key == Key::Down) && a.help_scroll < u16::MAX
                ==> b.help_scroll == a.help_scroll + 1
            &&& (k.key == Key::Char('k') || k.key == Key::Up) && a.help_scroll > 0 ==> b.help_scroll
                == a.help_scroll - 1
            &&& (k.key == Key::Char('k') || k.key == Key::Up) && a.help_scroll == 0 ==> b == a
            &&& b == (AppView { overlay: b.overlay, help_scroll: b.help_scroll, ..a })
        }),
{
}

// ---------------------------------------------------------------------------------------------
// What the worker reports

/// A report ends the job; a new one is under way where one is handed out. What is open over the
/// panes stays as it is.
#[verifier::rlimit(60)]
pub proof fn reports_end_the_job(a: AppView, now: NowView, e: EventView)
    ensures
        ({
            let next = app::event_handled(a, now, e);
            let b = next.0;
            &&& b.busy <==> next.1 is Run
            &&& b.config_path == a.config_path && b.config_writable == a.config_writable
            &&& b.config.defaults == a.config.defaults
            &&& b.pane == a.pane && b.overlay == a.overlay && b.confirm == a.confirm
            &&& b.picker == a.picker && b.flags == a.flags && b.flag_field == a.flag_field
            &&& b.edit_buffer == a.edit_buffer && b.help_scroll == a.help_scroll
            &&& b.should_quit == a.should_quit
            &&& !(e is UpdateOk) ==> b.amp_version == a.amp_version
            &&& !(e is RefreshOk) ==> b.last_refresh == a.last_refresh
            &&& !(e is RefreshOk || e is DirsListOk) ==> b.runners == a.runners
            &&& !(e is Started || e is DirsAddOk) ==> b.config == a.config
        }),
{
    match e {
        EventView::RefreshOk(list) => {},
        EventView::Started { id, outcome } => {},
        EventView::DirsAddOk { runner_id, id, path, out } => {},
        EventView::DirsListOk { match_id, dirs } => {},
        _ => {},
    }
}

proof fn lemma_dir_from(dirs: Seq<Seq<char>>, p: Seq<char>, i: int)
    requires
        0 <= i,
    ensures
        match app::dir_from(dirs, p, i) {
            Some(k) => i <= k < dirs.len() && path::same_path_text(dirs[k], p),
            None => forall|j: int|
                i <= j < dirs.len() ==> !path::same_path_text(#[trigger] dirs[j], p),
        },
    decreases dirs.len() - i,
{
    if i < dirs.len() && !path::same_path_text(dirs[i], p) {
        lemma_dir_from(dirs, p, i + 1);
    }
}

/// A new list takes the place of the old one; the selected runner stays selected where the list has
/// one of its id, and its selected directory where it still has that; an error stays on the screen,
/// anything else makes room for the number of runners.
pub proof fn a_new_list_keeps_the_selection(
    a: AppView,
    now: NowView,
    list: Seq<RunnerView>,
    i: int,
    d: int,
)
    requires
        a.selected_runner < a.runners.len(),
    ensures
        ({
            let next = app::event_handled(a, now, EventView::RefreshOk(list));
            let b = next.0;
            let r = a.runners[a.selected_runner as int];
            let s = list[b.selected_runner as int];
            let dir = r.dirs[a.selected_dir as int];
            &&& next.1 is Nothing
            &&& b.runners == list
            &&& b.last_refresh == Some(now.millis)
            &&& b.log == a.log
            &&& a.status_kind == LogKind::Error ==> b.status == a.status && b.status_kind
                == LogKind::Error
            &&& a.status_kind != LogKind::Error ==> b.status == text::decimal(list.len())
                + " runner(s)"@ && b.status_kind == LogKind::Info
            &&& list.len() > 0 ==> b.selected_runner < list.len()
            &&& 0 <= i < list.len() && text::same_but_case(list[i].id, r.id) ==> text::same_but_case(
                s.id,
                r.id,
            )
            &&& list.len() > 0 && a.selected_dir < r.dirs.len() && 0 <= d < s.dirs.len()
                && path::same_path_text(s.dirs[d], dir) ==> b.selected_dir < s.dirs.len()
                && path::same_path_text(s.dirs[b.selected_dir as int], dir)
            &&& (forall|j: int|
                0 <= j < list.len() ==> !text::same_but_case((#[trigger] list[j]).id, r.id))
                && a.selected_runner < list.len() ==> b.selected_runner == a.selected_runner
        }),
{
    let r = a.runners[a.selected_runner as int];
    let b = app::event_handled(a, now, EventView::RefreshOk(list)).0;
    process::lemma_with_id(list, r.id, 0);
    if list.len() > 0 && a.selected_dir < r.dirs.len() {
        lemma_dir_from(list[b.selected_runner as int].dirs, r.dirs[a.selected_dir as int], 0);
    }
}

/// A stop is told with the runner and its process id, as done or as already over, and the list is
/// asked for again.
pub proof fn stops_are_told(a: AppView, now: NowView, id: Seq<char>, outcome: StopOutcome, pid: u32)
    requires
        a.log.len() <= 200,
    ensures
        ({
            let next = app::event_handled(a, now, EventView::Stopped { id, outcome, pid });
            let line = next.0.log.last();
            &&& next.1 == EffectView::Run(JobView::Refresh)
            &&& one_line_more(a, next.0)
            &&& line.time == now.clock
            &&& text::holds(line.text, id)
            &&& text::holds(line.text, text::decimal(pid as nat))
            &&& outcome is Stopped ==> line.kind == LogKind::Good && text::has_prefix(
                line.text,
                "stopped "@,
            )
            &&& outcome is AlreadyGone ==> line.kind == LogKind::Info && text::has_suffix(
                line.text,
                " was already gone"@,
            )
        }),
{
    let a1 = AppView { busy: false, ..a };
    let n = text::decimal(pid as nat);
    if outcome is Stopped {
        let t = "stopped "@ + id + " (pid "@ + n + ")"@;
        logging_tells(a1, now, LogKind::Good, t);
        text::lemma_holds("stopped "@, id, " (pid "@ + n + ")"@);
        assert("stopped "@ + id + (" (pid "@ + n + ")"@) =~= t);
        text::lemma_holds("stopped "@ + id + " (pid "@, n, ")"@);
        text::prefixes_and_rests("stopped "@, id + " (pid "@ + n + ")"@, t);
        assert("stopped "@ + (id + " (pid "@ + n + ")"@) =~= t);
    } else {
        let t = "pid "@ + n + " for "@ + id + " was already gone"@;
        logging_tells(a1, now, LogKind::Info, t);
        text::lemma_holds("pid "@, n, " for "@ + id + " was already gone"@);
        assert("pid "@ + n + (" for "@ + id + " was already gone"@) =~= t);
        text::lemma_holds("pid "@ + n + " for "@, id, " was already gone"@);
        text::prefixes_and_rests(" was already gone"@, "pid "@ + n + " for "@ + id, t);
    }
}

/// A failure is told as it came, and nothing else changes but that the job is over.
pub proof fn failures_are_told(a: AppView, now: NowView, err: Seq<char>)
    ensures
        turned_down(
            AppView { busy: false, ..a },
            now,
            app::event_handled(a, now, EventView::Failed(err)),
        ),
        app::event_handled(a, now, EventView::Failed(err)).0.status == err,
{
}

/// An update is told with the first line of what Amp said, and shows the version that it found.
pub proof fn updates_are_told(
    a: AppView,
    now: NowView,
    out: Seq<char>,
    version: Option<Seq<char>>,
)
    ensures
        ({
            let next = app::event_handled(a, now, EventView::UpdateOk { out, version });
            &&& next.1 is Nothing
            &&& told(next.0, now, LogKind::Good, next.0.status)
            &&& text::has_prefix(next.0.status, "amp update: "@)
            &&& text::has_suffix(
                next.0.status,
                if text::first_line_of(out).len() == 0 {
                    "ok"@
                } else {
                    text::first_line_of(out)
                },
            )
            &&& version is Some ==> next.0.amp_version == version->0
            &&& version is None ==> next.0.amp_version == a.amp_version
        }),
{
    let said = app::summary(out);
    text::prefixes_and_rests("amp update: "@, said, said);
    text::prefixes_and_rests(said, "amp update: "@, said);
}

/// Whether a report of a start tells of an outcome: good news where Amp lists the runner, bad news
/// where it exited or waits for a login; with the process id and the log file, and with the id but
/// where a login is waited for.
pub open spec fn tells_outcome(
    text: Seq<char>,
    kind: LogKind,
    id: Seq<char>,
    o: OutcomeView,
    home: Option<Seq<char>>,
) -> bool {
    &&& o.health is Listed <==> kind == LogKind::Good
    &&& o.health is Alive <==> kind == LogKind::Info
    &&& text::holds(text, text::decimal(o.pid as nat))
    &&& text::holds(text, picker::displayed(o.log_path, home))
    &&& !(o.health is NeedsLogin) ==> text::holds(text, id)
    &&& o.health is NeedsLogin ==> text::holds(text, "amp login"@)
    &&& o.health is Exited && !text::blank(o.health->hint) ==> text::holds(text, text::trim(o.health->hint))
}

/// The report of a start tells of its outcome.
pub proof fn starts_are_told(
    verb: Seq<char>,
    id: Seq<char>,
    o: OutcomeView,
    home: Option<Seq<char>>,
)
    ensures
        tells_outcome(
            app::start_message(verb, id, o, home),
            app::start_kind(o.health),
            id,
            o,
            home,
        ),
        o.health is Listed ==> text::has_prefix(app::start_message(verb, id, o, home), verb),
{
    let t = app::start_message(verb, id, o, home);
    let n = text::decimal(o.pid as nat);
    let log = picker::displayed(o.log_path, home);
    let none = Seq::<char>::empty();
    match o.health {
        HealthView::Listed => {
            let rest = " "@ + id + " (pid "@ + n + ", listed)  log "@ + log;
            assert(verb + rest =~= t);
            text::prefixes_and_rests(verb, rest, t);
            text::lemma_holds(verb + " "@, id, " (pid "@ + n + ", listed)  log "@ + log);
            assert(verb + " "@ + id + (" (pid "@ + n + ", listed)  log "@ + log) =~= t);
            text::lemma_holds(verb + " "@ + id + " (pid "@, n, ", listed)  log "@ + log);
            assert(verb + " "@ + id + " (pid "@ + n + (", listed)  log "@ + log) =~= t);
            text::lemma_holds(verb + " "@ + id + " (pid "@ + n + ", listed)  log "@, log, none);
            assert(t + none =~= t);
        },
        HealthView::Alive => {
            let tail = ") — not yet in `amp runner list`; log "@;
            text::lemma_holds("spawned "@, id, " (pid "@ + n + tail + log);
            assert("spawned "@ + id + (" (pid "@ + n + tail + log) =~= t);
            text::lemma_holds("spawned "@ + id + " (pid "@, n, tail + log);
            assert("spawned "@ + id + " (pid "@ + n + (tail + log) =~= t);
            text::lemma_holds("spawned "@ + id + " (pid "@ + n + tail, log, none);
            assert(t + none =~= t);
        },
        HealthView::NeedsLogin => {
            let tail = " is waiting for login. Run `amp login` in a terminal. log "@;
            reveal_strlit(" is waiting for login. Run `amp login` in a terminal. log ");
            reveal_strlit("amp login");
            assert(tail.subrange(28, 37) =~= "amp login"@);
            assert(text::occurs_at(tail, "amp login"@, 28));
            let head = "Amp at pid "@ + n;
            let at = head.len() as int + 28;
            assert(t.subrange(at, at + 9) =~= "amp login"@) by {
                assert(t.subrange(at, at + 9) =~= tail.subrange(28, 37));
            }
            assert(text::occurs_at(t, "amp login"@, at));
            text::lemma_holds("Amp at pid "@, n, tail + log);
            assert("Amp at pid "@ + n + (tail + log) =~= t);
            text::lemma_holds("Amp at pid "@ + n + tail, log, none);
            assert(t + none =~= t);
        },
        HealthView::Exited { hint } => {
            let said = id + " exited immediately (pid "@ + n + "). See "@ + log;
            text::lemma_holds(none, id, " exited immediately (pid "@ + n + "). See "@ + log);
            assert(none + id + (" exited immediately (pid "@ + n + "). See "@ + log) =~= said);
            text::lemma_holds(id + " exited immediately (pid "@, n, "). See "@ + log);
            assert(id + " exited immediately (pid "@ + n + ("). See "@ + log) =~= said);
            text::lemma_holds(id + " exited immediately (pid "@ + n + "). See "@, log, none);
            assert(said + none =~= said);
            let cut = text::trimming_drops_only_spaces(hint);
            if !text::blank(hint) {
                let more = " — "@ + text::trim(hint);
                assert(said + more =~= t);
                text::lemma_holds_wider(said, id, more);
                text::lemma_holds_wider(said, n, more);
                text::lemma_holds_wider(said, log, more);
                text::lemma_holds(said + " — "@, text::trim(hint), none);
                assert(t + none =~= t);
            }
        },
    }
}

/// A restart is told, changes nothing that is saved, and has the list asked for again.
pub proof fn restarts_are_told(a: AppView, now: NowView, id: Seq<char>, outcome: OutcomeView)
    requires
        a.log.len() <= 200,
    ensures
        ({
            let next = app::event_handled(a, now, EventView::Restarted { id, outcome });
            let line = next.0.log.last();
            &&& next.1 == EffectView::Run(JobView::Refresh)
            &&& one_line_more(a, next.0)
            &&& tells_outcome(line.text, line.kind, id, outcome, now.home)
            &&& outcome.health is Listed ==> text::has_prefix(line.text, "restarted"@)
        }),
{
    starts_are_told("restarted"@, id, outcome, now.home);
    logging_tells(
        AppView { busy: false, ..a },
        now,
        app::start_kind(outcome.health),
        app::start_message("restarted"@, id, outcome, now.home),
    );
}

/// Whether a step has the config written: the file at the config's path, with the whole config.
pub open spec fn writes_config(a: AppView, next: (AppView, EffectView)) -> bool {
    next.1 is Save && next.1->Save_0 == config::write_of(
        a.config_path,
        crate::document::toml_text(config::config_tree(next.0.config)),
    )
}

/// A start and an added directory are remembered in the config, which is written where it can be;
/// what is left to tell waits for that.
pub proof fn used_directories_are_remembered(a: AppView, now: NowView, e: EventView)
    requires
        e is Started || e is DirsAddOk,
    ensures
        ({
            let next = app::event_handled(a, now, e);
            let dir = match e {
                EventView::Started { id, outcome } => outcome.cwd,
                EventView::DirsAddOk { runner_id, id, path, out } => path,
                _ => Seq::empty(),
            };
            &&& next.0.config == (ConfigView {
                recent_dirs: config::remembered(a.config.recent_dirs, dir),
                ..a.config
            })
            &&& a.config_writable && config::can_save(next.0.config) ==> writes_config(a, next)
                && next.0.pending == Some(
                match e {
                    EventView::DirsAddOk { runner_id, id, path, out } => PendingView::DirAdded {
                        runner_id,
                        id,
                        path,
                        out,
                    },
                    EventView::Started { id, outcome } => PendingView::Started { id, outcome },
                    _ => PendingView::Flags,
                },
            )
            &&& !a.config_writable ==> !(next.1 is Save)
        }),
{
}

/// Once the config is written, or could not be, a start is told and the list is asked for again; for
/// an added directory the directories of its runner are.
pub proof fn writing_is_followed_up(a: AppView, now: NowView, saved: Result<(), Seq<char>>)
    requires
        a.log.len() <= 200,
        !a.busy,
        a.pending is Some,
    ensures
        ({
            let next = app::after_save(a, now, saved);
            let line = next.0.log.last();
            &&& next.0.pending is None
            &&& next.0.config == a.config
            &&& a.pending->0 is Started ==> next.1 == EffectView::Run(JobView::Refresh)
                && tells_outcome(
                line.text,
                line.kind,
                a.pending->0->Started_id,
                a.pending->0->Started_outcome,
                now.home,
            )
            &&& a.pending->0 is DirAdded ==> next.1 == EffectView::Run(
                JobView::DirsList {
                    runner_id: a.pending->0->DirAdded_runner_id,
                    match_id: a.pending->0->DirAdded_id,
                },
            ) && line.kind == LogKind::Good
            &&& a.pending->0 is Flags && saved is Ok ==> next.1 is Nothing && next.0.overlay
                == Overlay::Clear && told(next.0, now, LogKind::Good, next.0.status) && text::holds(
                next.0.status,
                a.config_path,
            )
            &&& a.pending->0 is Flags && saved is Err ==> next.1 is Nothing && next.0.overlay
                == a.overlay && told(next.0, now, LogKind::Error, next.0.status) && text::holds(
                next.0.status,
                saved->Err_0,
            )
        }),
{
    let b = AppView { pending: None, ..a };
    let c = match saved {
        Ok(_) => b,
        Err(e) => app::save_failed(b, now, e),
    };
    if saved is Err {
        logging_tells(b, now, LogKind::Error, "save failed: "@ + saved->Err_0);
        text::lemma_holds("save failed: "@, saved->Err_0, Seq::empty());
        assert("save failed: "@ + saved->Err_0 + Seq::<char>::empty() =~= "save failed: "@
            + saved->Err_0);
    }
    if a.pending->0 is Started {
        let id = a.pending->0->Started_id;
        let o = a.pending->0->Started_outcome;
        starts_are_told("started"@, id, o, now.home);
        logging_tells(
            c,
            now,
            app::start_kind(o.health),
            app::start_message("started"@, id, o, now.home),
        );
    }
    if a.pending->0 is Flags && saved is Ok {
        logging_tells(b, now, LogKind::Good, "saved defaults to "@ + a.config_path);
        text::lemma_holds("saved defaults to "@, a.config_path, Seq::empty());
        assert("saved defaults to "@ + a.config_path + Seq::<char>::empty()
            =~= "saved defaults to "@ + a.config_path);
    }
}

/// A removed directory is told, and the directories of its runner are asked for again.
pub proof fn removals_are_told(
    a: AppView,
    now: NowView,
    runner_id: Option<Seq<char>>,
    id: Seq<char>,
    path: Seq<char>,
    out: Seq<char>,
)
    requires
        a.log.len() <= 200,
    ensures
        ({
            let next = app::event_handled(
                a,
                now,
                EventView::DirsRemoveOk { runner_id, id, path, out },
            );
            &&& next.1 == EffectView::Run(JobView::DirsList { runner_id, match_id: id })
            &&& one_line_more(a, next.0)
            &&& next.0.log.last().kind == LogKind::Good
            &&& next.0.log.last().text == text::trim(
                "removed "@ + picker::displayed(path, now.home) + " from "@ + id + " "@
                    + text::first_line_of(out),
            )
        }),
{
    logging_tells(
        AppView { busy: false, ..a },
        now,
        LogKind::Good,
        text::trim(
            "removed "@ + picker::displayed(path, now.home) + " from "@ + id + " "@
                + text::first_line_of(out),
        ),
    );
}

/// The directories that Amp lists for a runner are shown for the runner of that id, and for no other;
/// where it lists none, the whole list is asked for again.
pub proof fn listed_directories_go_to_their_runner(
    a: AppView,
    now: NowView,
    id: Seq<char>,
    dirs: Seq<Seq<char>>,
    i: int,
)
    requires
        0 <= i < a.runners.len(),
    ensures
        ({
            let next = app::event_handled(a, now, EventView::DirsListOk { match_id: id, dirs });
            let b = next.0;
            &&& b.runners.len() == a.runners.len()
            &&& b.selected_runner == a.selected_runner
            &&& !text::same_but_case(a.runners[i].id, id) ==> b.runners[i] == a.runners[i]
            &&& b.runners[i] == (RunnerView { dirs: b.runners[i].dirs, ..a.runners[i] })
            &&& dirs.len() > 0 ==> next.1 is Nothing
            &&& dirs.len() > 0 && text::same_but_case(a.runners[i].id, id) && (forall|j: int|
                0 <= j < i ==> !text::same_but_case((#[trigger] a.runners[j]).id, id))
                ==> b.runners[i].dirs == dirs
            &&& dirs.len() == 0 ==> next.1 == EffectView::Run(JobView::Refresh) && b.runners
                == a.runners
        }),
{
    process::lemma_with_id(a.runners, id, 0);
    if text::same_but_case(a.runners[i].id, id) {
        lemma_first_with_id(a.runners, id, 0, i);
    }
}

proof fn lemma_first_with_id(rs: Seq<RunnerView>, id: Seq<char>, from: int, i: int)
    requires
        0 <= from <= i < rs.len(),
        text::same_but_case(rs[i].id, id),
    ensures
        process::with_id_from(rs, id, from) is Some,
        from <= process::with_id_from(rs, id, from)->0 <= i,
    decreases rs.len() - from,
{
    if !text::same_but_case(rs[from].id, id) {
        lemma_first_with_id(rs, id, from + 1, i);
    }
}

/// A restart needs a saved launch and a process id; where both are there and no job is under way, it
/// is handed out, and else it is turned down.
pub proof fn restarts_need_a_launch(a: AppView, now: NowView, specs: Seq<LaunchView>)
    requires
        a.selected_runner < a.runners.len(),
    ensures
        ({
            let next = app::after_launches(a, now, specs);
            let b = AppView { pending: None, ..a };
            let r = a.runners[a.selected_runner as int];
            let spec = crate::launch::restart_spec(specs, r);
            let ready = spec is Some && r.pid is Some && r.pid->0 > 0;
            &&& ready && !a.busy ==> hands_out(
                b,
                next,
                JobView::Restart {
                    pid: r.pid->0,
                    runner_id: next.1->Run_0->Restart_runner_id,
                    display_id: next.1->Run_0->Restart_display_id,
                    spec: spec->0,
                },
            )
            &&& !ready ==> turned_down(b, now, next)
        }),
{
    lemma_working_literals();
    let r = a.runners[a.selected_runner as int];
    lemma_starts("working… restart "@, runner::shown_id(r.id), "working…"@);
}

/// The list is asked for again by itself 3 seconds after it came, but not while a job is under way or
/// anything is open over the panes.
pub proof fn the_list_is_kept_fresh(a: AppView, now: u64)
    ensures
        a.busy || a.overlay != Overlay::Clear ==> !app::refresh_due(a, now),
        !a.busy && a.overlay == Overlay::Clear && a.last_refresh is None ==> app::refresh_due(
            a,
            now,
        ),
        !a.busy && a.overlay == Overlay::Clear && a.last_refresh is Some ==> (app::refresh_due(
            a,
            now,
        ) <==> now - a.last_refresh->0 >= 3000),
{
}

/// A worker that is lost is told as an error, and its job is over.
pub proof fn a_lost_worker_is_told(a: AppView, now: NowView, text: Seq<char>)
    ensures
        turned_down(
            AppView { busy: false, ..a },
            now,
            (app::worker_lost(a, now, text), EffectView::Nothing),
        ),
        app::worker_lost(a, now, text).status == text,
{
}

/// The version is shown without the name before it.
pub proof fn versions_are_shown_bare(v: Seq<char>)
    requires
        v.len() > 0,
        !text::is_space(v[0]),
        !text::is_space(v.last()),
    ensures
        app::version_label("amp "@ + v) == v,
        !text::has_prefix(v, "amp "@) ==> app::version_label(v) == v,
{
    let none = Seq::<char>::empty();
    let named = "amp "@ + v;
    reveal_strlit("amp ");
    text::trimming_ignores_spaces_around(none, v, none);
    assert(none + v + none =~= v);
    text::trimming_ignores_spaces_around(none, named, none);
    assert(none + named + none =~= named);
    text::prefixes_and_rests("amp "@, v, v);
}

/// The program opens on the runners, with nothing over the panes, the config that was read and its
/// defaults as the flags; it has logged the version and the binary, and after them that the config is
/// invalid where it is, and asks for the list.
pub proof fn opening_asks_for_the_list(
    config: ConfigView,
    config_path: Seq<char>,
    config_writable: bool,
    version: Option<Seq<char>>,
    binary: Seq<char>,
    now: NowView,
)
    ensures
        ({
            let next = app::opened(config, config_path, config_writable, version, binary, now);
            let a = next.0;
            &&& next.1 == EffectView::Run(JobView::Refresh)
            &&& a.busy
            &&& a.config == config
            &&& a.config_path == config_path
            &&& a.config_writable == config_writable
            &&& a.flags == config.defaults
            &&& a.runners.len() == 0
            &&& a.overlay == Overlay::Clear
            &&& a.pane == Pane::Runners
            &&& a.picker is None && a.confirm is None && a.pending is None
            &&& !a.should_quit
            &&& version is Some ==> a.amp_version == version->0
            &&& version is None ==> a.amp_version == "unknown"@
            &&& a.log.len() == if config_writable {
                1int
            } else {
                2
            }
            &&& a.log[0].kind == LogKind::Info
            &&& text::has_suffix(a.log[0].text, binary)
            &&& text::holds(a.log[0].text, app::version_label(a.amp_version))
            &&& !config_writable ==> a.log[1].kind == LogKind::Error && text::holds(
                a.log[1].text,
                config_path,
            )
        }),
{
    let v = app::version_label(
        match version {
            Some(v) => v,
            None => "unknown"@,
        },
    );
    let t = "Amp "@ + v + " — "@ + binary;
    text::lemma_holds("Amp "@, v, " — "@ + binary);
    assert("Amp "@ + v + (" — "@ + binary) =~= t);
    text::prefixes_and_rests(binary, "Amp "@ + v + " — "@, t);
    text::lemma_holds("config "@, config_path, " is invalid; changes will not be saved"@);
}

/// What was listed becomes the entries of the picker, with the recent directories of the config among
/// them where nothing is typed; nothing else changes.
pub proof fn listings_reach_the_picker(
    a: AppView,
    around: Surroundings,
    listing: Listing,
    i: int,
    d: Seq<char>,
)
    ensures
        ({
            let b = app::after_listing(a, around, listing);
            let home = text::opt_text(around.home);
            &&& b == (AppView { pending: None, picker: b.picker, ..a })
            &&& b.picker is Some <==> a.picker is Some
            &&& a.picker is Some ==> b.picker->0 == (PickerView {
                entries: b.picker->0.entries,
                cursor: b.picker->0.cursor,
                ..a.picker->0
            })
            &&& a.picker is Some && text::blank(a.picker->0.input) && d.len() > 0 ==> {
                &&& text::opt_text(around.cwd) == Some(d) ==> picker::entry_for(
                    b.picker->0.entries,
                    d,
                )
                &&& 0 <= i < a.config.recent_dirs.len() && text::trim(
                    picker::expanded(a.config.recent_dirs[i], home),
                ) == d ==> picker::entry_for(b.picker->0.entries, d)
            }
        }),
{
    if a.picker is Some && text::blank(a.picker->0.input) && d.len() > 0 {
        picker::browsing_offers_what_is_known(
            a.picker->0,
            a.config.recent_dirs,
            listing,
            around,
            d,
            i,
        );
    }
}

/// The results of a search reach the picker that asked for them, and those of an earlier search are
/// dropped; a search that is due is begun once.
pub proof fn results_reach_their_picker(
    a: AppView,
    now: NowView,
    gen: u64,
    results: Seq<EntryView>,
    recent_dirs: Seq<Seq<char>>,
)
    ensures
        app::results_taken(a, gen, results) == (AppView {
            picker: app::results_taken(a, gen, results).picker,
            ..a
        }),
        a.picker is None || a.picker->0.search_gen != gen ==> app::results_taken(a, gen, results)
            == a,
        a.picker is Some && a.picker->0.search_gen == gen ==> ({
            let q = app::results_taken(a, gen, results).picker;
            q is Some && q->0.entries == results && !q->0.searching && q->0.input
                == a.picker->0.input
        }),
        ({
            let b = app::search_begun(a, now);
            &&& b == (AppView { picker: b.picker, ..a })
            &&& a.picker is Some ==> b.picker is Some && picker::search_job(
                b.picker->0,
                now.millis,
                recent_dirs,
                now.home,
            ) is None && b.picker->0.input == a.picker->0.input && b.picker->0.entries
                == a.picker->0.entries && b.picker->0.search_gen == a.picker->0.search_gen
        }),
{
}

/// An added and a removed directory are told with the directory and the runner.
pub proof fn changes_of_directories_are_told(
    a: AppView,
    now: NowView,
    runner_id: Option<Seq<char>>,
    id: Seq<char>,
    path: Seq<char>,
    out: Seq<char>,
)
    requires
        a.log.len() <= 200,
        id.len() > 0,
        !text::is_space(id.last()),
    ensures
        ({
            let added = app::after_save(
                AppView {
                    pending: Some(PendingView::DirAdded { runner_id, id, path, out }),
                    busy: false,
                    ..a
                },
                now,
                Ok(()),
            ).0;
            let removed = app::event_handled(
                a,
                now,
                EventView::DirsRemoveOk { runner_id, id, path, out },
            ).0;
            let shown = picker::displayed(path, now.home);
            &&& text::has_prefix(added.log.last().text, "added "@ + shown + " to "@ + id)
            &&& text::has_prefix(removed.log.last().text, "removed "@ + shown + " from "@ + id)
        }),
{
    reveal_strlit("added ");
    reveal_strlit("removed ");
    let shown = picker::displayed(path, now.home);
    let rest = " "@ + text::first_line_of(out);
    let plus = "added "@ + shown + " to "@ + id;
    let minus = "removed "@ + shown + " from "@ + id;
    text::trimming_keeps_a_solid_start(plus, rest);
    text::trimming_keeps_a_solid_start(minus, rest);
    assert(plus + rest =~= plus + " "@ + text::first_line_of(out));
    assert(minus + rest =~= minus + " "@ + text::first_line_of(out));
    let b = AppView { pending: None, busy: false, ..a };
    logging_tells(b, now, LogKind::Good, text::trim(plus + rest));
    logging_tells(AppView { busy: false, ..a }, now, LogKind::Good, text::trim(minus + rest));
}

} // verus!
