use lazyamp::app::{
    amp_version_label, moment, resolve_stop_pid, summarize_output, App, ConfirmAction, Effect,
    LogKind, Now, Overlay, Pane, LOG_CAP, REFRESH_EVERY,
};
use lazyamp::config::{Config, StartDefaults};
use lazyamp::dirpick::{fuzzy_match, DirEntry, EntryKind, PathSource, RankedPath};
use lazyamp::flags::{flag_text, flag_value_display, FlagField};
use lazyamp::jobs::{AmpEvent, AmpJob};
use lazyamp::launch::{LaunchSpec, StartHealth, StartOutcome};
use lazyamp::picker::{
    display_path, display_path_in, expand_path, expand_path_in, expanded_recent_dirs,
    filter_search_entries, picker_char_is_filter, picker_entries_from_sources, poll_timeout,
    ranked_to_entry, Key, KeyPress, Listing, PickerEntry, PickerJob, PickerPurpose, Surroundings,
};
use lazyamp::runner::{Runner, StartOptions};
use lazyamp::screen::{
    centered, draw_confirm, draw_dirs, draw_edit, draw_flags, draw_log, draw_picker, draw_runner_log,
    draw_runners, draw_status, draw_title, pad, pane_block, picker_areas, row_of, screen_areas,
    selected_log_path, truncate, Area, Body, Tone,
};
use lazyamp::stop::StopOutcome;
use std::path::PathBuf;

#[test]
fn ui_fuzzy_contains_and_subsequence() {
    assert!(fuzzy_match("amp", "/home/me/amp-cli"));
    assert!(fuzzy_match("hml", "/home/me/lazy"));
    assert!(!fuzzy_match("zzz", "/home/me"));
    assert!(fuzzy_match("", "anything"));
}

#[test]
fn expand_home_and_plain() {
    if let Some(home) = dirs::home_dir() {
        assert_eq!(PathBuf::from(expand_path("~")), home);
        assert_eq!(PathBuf::from(expand_path("~/code")), home.join("code"));
    }
    assert_eq!(PathBuf::from(expand_path("/tmp/x")), PathBuf::from("/tmp/x"));
}

#[test]
fn amp_version_label_strips_prefix() {
    assert_eq!(amp_version_label("amp 0.0.0-stub"), "0.0.0-stub");
    assert_eq!(amp_version_label("1.2.3"), "1.2.3");
}

#[test]
fn picker_hjkl_type_in_filter_mode_only() {
    assert!(!picker_char_is_filter(false, 'h'));
    assert!(!picker_char_is_filter(false, 'j'));
    assert!(picker_char_is_filter(false, 's'));
    assert!(picker_char_is_filter(true, 'h'));
    assert!(picker_char_is_filter(true, 'l'));
}

fn around() -> Surroundings {
    Surroundings { cwd: Some("/work".into()), home: Some("/home/me".into()) }
}

fn now(millis: u64) -> Now {
    Now { millis, clock: "12:00:00".into(), around: around() }
}

fn press(key: Key) -> KeyPress {
    KeyPress { key, control: false, plain: true }
}

fn ch(c: char) -> KeyPress {
    press(Key::Char(c))
}

fn runner(id: &str, pid: Option<u32>, dirs: &[&str]) -> Runner {
    Runner {
        id: id.into(),
        pid,
        cwd: Some("/w".into()),
        dirs: dirs.iter().map(|d| d.to_string()).collect(),
        from_amp_list: true,
        from_local_scan: false,
    }
}

fn listing(names: &[&str]) -> Listing {
    Listing {
        typed_is_dir: false,
        entries: names
            .iter()
            .map(|n| DirEntry { name: n.to_string(), kind: EntryKind::Directory })
            .collect(),
    }
}

/// An app whose first refresh gave these runners.
fn app_with(runners: Vec<Runner>, writable: bool) -> App {
    let (mut app, effect) = App::new(
        Config::default(),
        "/c/config.toml".into(),
        writable,
        Some("amp 1.0".into()),
        "/bin/amp",
        &now(0),
    );
    assert!(matches!(effect, Effect::Run(AmpJob::Refresh)));
    assert!(app.busy);
    assert!(matches!(app.handle_event(&now(1), AmpEvent::RefreshOk(runners)), Effect::Nothing));
    assert!(!app.busy);
    app
}

fn last_log(app: &App) -> (&str, LogKind) {
    let line = app.log.back().unwrap();
    (line.text.as_str(), line.kind)
}

fn outcome(health: StartHealth) -> StartOutcome {
    StartOutcome {
        pid: 7,
        cwd: "/home/me/p".into(),
        log_path: "/home/me/l.log".into(),
        health,
    }
}

#[test]
fn paths_are_shown_and_expanded_under_home() {
    let home = Some("/home/me");
    assert_eq!(expand_path_in("  ", home), ".");
    assert_eq!(expand_path_in(" ~/a/b ", home), "/home/me/a/b");
    assert_eq!(expand_path_in("~", None), "/");
    assert_eq!(expand_path_in("~/a", None), "~/a");
    assert_eq!(expand_path_in("~x", home), "~x");
    assert_eq!(display_path_in("/home/me", home), "~");
    assert_eq!(display_path_in("/home/me/a/b", home), "~/a/b");
    assert_eq!(display_path_in("/home/meow", home), "/home/meow");
    assert_eq!(display_path_in("/home/me", None), "/home/me");
    assert_eq!(display_path("/definitely/elsewhere"), "/definitely/elsewhere");
    assert_eq!(expanded_recent_dirs(&vec!["~/a".into(), "/b".into()], home), vec!["/home/me/a", "/b"]);
}

#[test]
fn entries_are_labelled_by_their_source() {
    let label = |path: &str, source: PathSource| {
        ranked_to_entry(&RankedPath { path: path.into(), source }, "/home/me", Some("/home/me")).label
    };
    assert_eq!(label("/home/me/p", PathSource::Current), "current  ~/p");
    assert_eq!(label("/home/me", PathSource::Home), "home     ~");
    assert_eq!(label("/r", PathSource::Recent), "recent   /r");
    assert_eq!(label("/z", PathSource::Zoxide), "zoxide   /z");
    assert_eq!(label("/home", PathSource::Parent), "..       /home");
    assert_eq!(label("/home/me/kid", PathSource::Browse), "browse   kid/");
    assert_eq!(label("/", PathSource::Browse), "browse   //");
    assert_eq!(label("/home/me/a/b", PathSource::Nested), "nested   a/b/");
    assert_eq!(label("/other/b", PathSource::Nested), "nested   /other/b");
    assert_eq!(label("/e", PathSource::Exact), "exact    /e");
}

#[test]
fn sources_make_entries() {
    let browse = picker_entries_from_sources(
        "",
        "/work",
        &vec!["/r".into()],
        &Vec::new(),
        &Vec::new(),
        true,
        &listing(&["b", "a", "node_modules"]),
        &around(),
    );
    let labels: Vec<&str> = browse.iter().map(|e| e.label.as_str()).collect();
    assert_eq!(
        labels,
        vec!["current  /work", "home     ~", "recent   /r", "..       /", "browse   a/", "browse   b/"]
    );
    let job = PickerJob {
        gen: 1,
        query: "proj".into(),
        browse_root: "/work".into(),
        recent_dirs: vec!["/r/proj".into(), "/r/else".into()],
    };
    let found = filter_search_entries(
        &job,
        &vec!["/z/proj".into()],
        &vec!["/work/deep/proj".into()],
        &Listing { typed_is_dir: false, entries: Vec::new() },
        &around(),
    );
    let paths: Vec<&str> = found.iter().map(|e| e.path.as_str()).collect();
    assert!(paths.contains(&"/r/proj") && paths.contains(&"/z/proj"));
    assert!(paths.contains(&"/work/deep/proj") && !paths.contains(&"/r/else"));
}

#[test]
fn opening_logs_the_version_and_refreshes() {
    let (app, effect) = App::new(
        Config::default(),
        "/c/config.toml".into(),
        false,
        None,
        "/bin/amp",
        &now(0),
    );
    assert!(matches!(effect, Effect::Run(AmpJob::Refresh)));
    assert_eq!(app.log.len(), 2);
    assert_eq!(app.log[0].text, "Amp unknown — /bin/amp");
    assert_eq!(app.log[0].time, "12:00:00");
    assert_eq!(app.log[1].text, "config /c/config.toml is invalid; changes will not be saved");
    assert_eq!(app.status, "working… refresh");
    let m = moment(5, Some("/x".into()));
    assert_eq!(m.millis, 5);
    assert_eq!(m.around.cwd.as_deref(), Some("/x"));
    assert_eq!(m.clock.len(), 8);
    assert_eq!(m.around.home, dirs::home_dir().map(|h| h.display().to_string()));
}

#[test]
fn a_refresh_keeps_the_selection() {
    let mut app = app_with(vec![runner("a", None, &[]), runner("b", None, &["/x", "/y"])], true);
    assert_eq!(app.status, "2 runner(s)");
    app.handle_key(&now(2), ch('j'));
    app.handle_key(&now(2), ch('l'));
    assert_eq!(app.pane, Pane::Dirs);
    app.handle_key(&now(2), press(Key::Down));
    assert_eq!(app.selected_dir_path().as_deref(), Some("/y"));
    let list = vec![runner("B", None, &["/y", "/x"]), runner("a", None, &[])];
    app.handle_event(&now(3), AmpEvent::RefreshOk(list));
    assert_eq!(app.current_runner().unwrap().id, "B");
    assert_eq!(app.selected_dir_path().as_deref(), Some("/y"));
    app.handle_event(&now(4), AmpEvent::RefreshOk(Vec::new()));
    assert!(app.current_runner().is_none());
    assert_eq!((app.selected_runner, app.selected_dir), (0, 0));
}

#[test]
fn refresh_is_due_after_a_while() {
    let mut app = app_with(Vec::new(), true);
    assert!(!app.is_refresh_due(1));
    assert!(!app.is_refresh_due(REFRESH_EVERY));
    assert!(app.is_refresh_due(1 + REFRESH_EVERY));
    assert!(matches!(app.handle_key(&now(5), ch('g')), Effect::Run(AmpJob::Refresh)));
    assert!(!app.is_refresh_due(1 + REFRESH_EVERY));
    assert!(matches!(app.handle_key(&now(6), ch('g')), Effect::Nothing));
    assert!(matches!(app.handle_key(&now(6), ch('u')), Effect::Nothing));
    assert_eq!(last_log(&app).0, "already working…");
    app.worker_gone(&now(7));
    assert!(!app.busy);
    assert_eq!(last_log(&app), ("Amp worker thread is gone", LogKind::Error));
    app.worker_disconnected(&now(7));
    assert_eq!(last_log(&app).0, "Amp worker thread disconnected");
    app.handle_key(&now(8), ch('?'));
    assert!(!app.is_refresh_due(9 + REFRESH_EVERY));
}

#[test]
fn a_start_goes_from_picker_to_saved_config() {
    let mut app = app_with(Vec::new(), true);
    match app.handle_key(&now(2), ch('s')) {
        Effect::List { root, typed } => assert_eq!((root.as_deref(), typed), (Some("/work"), None)),
        other => panic!("{other:?}"),
    }
    assert_eq!(app.overlay, Overlay::Picker);
    app.picker_listed(&around(), &listing(&["kid"]));
    let n = app.picker.as_ref().unwrap().entries.len();
    for _ in 0..n {
        app.handle_key(&now(2), ch('j'));
    }
    assert_eq!(app.picker.as_ref().unwrap().selected().as_deref(), Some("/work/kid"));
    match app.handle_key(&now(3), press(Key::Enter)) {
        Effect::CheckDir(p) => assert_eq!(p, "/work/kid"),
        other => panic!("{other:?}"),
    }
    assert_eq!(app.overlay, Overlay::Clear);
    match app.dir_checked(&now(3), true) {
        Effect::Run(AmpJob::Start { cwd, opts }) => {
            assert_eq!(cwd, "/work/kid");
            assert_eq!(opts, StartDefaults::default().to_start_options());
        }
        other => panic!("{other:?}"),
    }
    assert_eq!(app.status, "working… start in /work/kid");
    let event = AmpEvent::Started { id: "box".into(), outcome: outcome(StartHealth::Listed) };
    match app.handle_event(&now(4), event) {
        Effect::Save(w) => {
            assert_eq!(w.path, "/c/config.toml");
            assert!(w.text.contains("/home/me/p"));
        }
        other => panic!("{other:?}"),
    }
    assert!(matches!(app.config_saved(&now(4), Ok(())), Effect::Run(AmpJob::Refresh)));
    assert_eq!(last_log(&app), ("started box (pid 7, listed)  log ~/l.log", LogKind::Good));
    assert_eq!(app.config.recent_dirs, vec!["/home/me/p"]);
}

#[test]
fn starts_are_reported_by_their_health() {
    let report = |health: StartHealth| {
        let mut app = app_with(Vec::new(), false);
        let event = AmpEvent::Restarted { id: "box".into(), outcome: outcome(health) };
        assert!(matches!(app.handle_event(&now(4), event), Effect::Run(AmpJob::Refresh)));
        let (text, kind) = last_log(&app);
        (text.to_string(), kind)
    };
    assert_eq!(
        report(StartHealth::Listed),
        ("restarted box (pid 7, listed)  log ~/l.log".into(), LogKind::Good)
    );
    assert_eq!(
        report(StartHealth::Alive),
        ("spawned box (pid 7) — not yet in `amp runner list`; log ~/l.log".into(), LogKind::Info)
    );
    assert_eq!(
        report(StartHealth::NeedsLogin),
        (
            "Amp at pid 7 is waiting for login. Run `amp login` in a terminal. log ~/l.log".into(),
            LogKind::Error
        )
    );
    assert_eq!(
        report(StartHealth::Exited { hint: " boom ".into() }),
        ("box exited immediately (pid 7). See ~/l.log — boom".into(), LogKind::Error)
    );
    assert_eq!(
        report(StartHealth::Exited { hint: " ".into() }),
        ("box exited immediately (pid 7). See ~/l.log".into(), LogKind::Error)
    );
}

#[test]
fn a_picked_path_must_be_a_directory() {
    let mut app = app_with(Vec::new(), true);
    app.handle_key(&now(2), ch('s'));
    app.picker_listed(&around(), &listing(&[]));
    assert!(matches!(app.handle_key(&now(3), press(Key::Enter)), Effect::CheckDir(_)));
    assert!(matches!(app.dir_checked(&now(3), false), Effect::Nothing));
    assert_eq!(last_log(&app), ("not a directory: /work", LogKind::Error));
    assert!(!app.busy);
}

#[test]
fn a_bad_runner_id_refuses_the_start() {
    let mut app = app_with(Vec::new(), true);
    app.config.defaults.runner_id = Some("-bad".into());
    app.handle_key(&now(2), ch('s'));
    app.picker_listed(&around(), &listing(&[]));
    app.handle_key(&now(3), press(Key::Enter));
    assert!(matches!(app.dir_checked(&now(3), true), Effect::Nothing));
    assert_eq!(last_log(&app).0, "refusing to start: runner-id `-bad` is not a hostname");
}

#[test]
fn stopping_is_confirmed_first() {
    let mut app = app_with(vec![runner("box", Some(9), &[])], true);
    assert!(matches!(app.handle_key(&now(2), ch('x')), Effect::Nothing));
    assert_eq!(app.overlay, Overlay::Confirm);
    assert_eq!(app.confirm, Some(ConfirmAction::Stop));
    assert_eq!(
        draw_confirm(&app, None).unwrap(),
        "Stop runner `box`?  SIGTERM then SIGKILL if needed."
    );
    app.handle_key(&now(2), ch('n'));
    assert_eq!((app.overlay, app.confirm), (Overlay::Clear, None));
    app.handle_key(&now(2), ch('x'));
    match app.handle_key(&now(3), ch('y')) {
        Effect::Run(AmpJob::Stop { pid, runner_id, display_id }) => {
            assert_eq!((pid, runner_id.as_deref(), display_id.as_str()), (9, Some("box"), "box"));
        }
        other => panic!("{other:?}"),
    }
    let stopped = AmpEvent::Stopped { id: "box".into(), outcome: StopOutcome::Stopped, pid: 9 };
    assert!(matches!(app.handle_event(&now(4), stopped), Effect::Run(AmpJob::Refresh)));
    assert_eq!(last_log(&app), ("stopped box (pid 9)", LogKind::Good));
    let gone = AmpEvent::Stopped { id: "box".into(), outcome: StopOutcome::AlreadyGone, pid: 9 };
    app.handle_event(&now(5), gone);
    assert_eq!(last_log(&app), ("pid 9 for box was already gone", LogKind::Info));
}

#[test]
fn stopping_needs_a_runner_and_a_pid() {
    let mut app = app_with(Vec::new(), true);
    app.handle_key(&now(2), ch('x'));
    assert_eq!(last_log(&app), ("no runner selected", LogKind::Error));
    assert_eq!(app.overlay, Overlay::Clear);
    let mut app = app_with(vec![runner("box", None, &[])], true);
    app.handle_key(&now(2), ch('x'));
    assert!(matches!(app.handle_key(&now(2), press(Key::Enter)), Effect::Nothing));
    assert_eq!(
        last_log(&app).0,
        "could not determine PID for box. `amp runner list` had no PID and no matching amp --no-tui process was found."
    );
    assert_eq!(resolve_stop_pid(&runner("box", Some(0), &[])), None);
    assert_eq!(resolve_stop_pid(&runner("box", Some(4), &[])), Some(4));
}

#[test]
fn restarting_uses_the_saved_spec() {
    let spec = LaunchSpec {
        pid: 3,
        cwd: "/old".into(),
        options: StartOptions { runner_id: Some("box".into()), ..StartOptions::default() },
    };
    let mut app = app_with(vec![runner("box", Some(9), &[])], true);
    app.handle_key(&now(2), ch('r'));
    assert_eq!(
        draw_confirm(&app, None).unwrap(),
        "Restart runner `box` using its saved launch spec?"
    );
    assert!(matches!(app.handle_key(&now(2), ch('y')), Effect::ReadLaunches));
    match app.launches_read(&now(2), &vec![spec.clone()]) {
        Effect::Run(AmpJob::Restart { pid, spec: s, .. }) => {
            assert_eq!(pid, 9);
            assert_eq!(s, spec);
        }
        other => panic!("{other:?}"),
    }
    let mut app = app_with(vec![runner("box", Some(9), &[])], true);
    app.handle_key(&now(2), ch('r'));
    app.handle_key(&now(2), ch('y'));
    assert!(matches!(app.launches_read(&now(2), &Vec::new()), Effect::Nothing));
    assert_eq!(last_log(&app).0, "cannot restart: no saved launch spec for box");
    let mut app = app_with(vec![runner("box", None, &[])], true);
    app.handle_key(&now(2), ch('r'));
    app.handle_key(&now(2), ch('y'));
    app.launches_read(&now(2), &vec![spec]);
    assert_eq!(last_log(&app).0, "cannot restart: no PID (see README for PID detection)");
}

#[test]
fn served_directories_are_added_and_removed() {
    let mut app = app_with(Vec::new(), true);
    app.handle_key(&now(2), ch('a'));
    assert_eq!(last_log(&app).0, "select a runner before adding a directory");
    app.handle_key(&now(2), ch('d'));
    assert_eq!(last_log(&app).0, "no runner selected");
    let mut app = app_with(vec![runner("box", None, &[])], true);
    app.handle_key(&now(2), ch('d'));
    assert_eq!(last_log(&app).0, "no directory selected");
    app.handle_key(&now(2), ch('a'));
    app.picker_listed(&around(), &listing(&[]));
    app.handle_key(&now(3), press(Key::Enter));
    match app.dir_checked(&now(3), true) {
        Effect::Run(AmpJob::DirsAdd { runner_id, path, .. }) => {
            assert_eq!((runner_id.as_deref(), path.as_str()), (Some("box"), "/work"));
        }
        other => panic!("{other:?}"),
    }
    let added = AmpEvent::DirsAddOk {
        runner_id: Some("box".into()),
        id: "box".into(),
        path: "/work".into(),
        out: "\n ok \n".into(),
    };
    assert!(matches!(app.handle_event(&now(4), added), Effect::Save(_)));
    assert!(matches!(
        app.config_saved(&now(4), Err("disk full".into())),
        Effect::Run(AmpJob::DirsList { .. })
    ));
    let n = app.log.len();
    assert_eq!(app.log[n - 2].text, "save failed: disk full");
    assert_eq!(app.log[n - 1].text, "added /work to box ok");
    let dirs = AmpEvent::DirsListOk { match_id: "BOX".into(), dirs: vec!["/work".into()] };
    assert!(matches!(app.handle_event(&now(5), dirs), Effect::Nothing));
    assert_eq!(app.current_dirs(), vec!["/work"]);
    app.handle_key(&now(6), ch('d'));
    assert_eq!(
        draw_confirm(&app, None).unwrap(),
        "Remove served directory `/work` from the selected runner?"
    );
    assert!(matches!(
        app.handle_key(&now(6), ch('y')),
        Effect::Run(AmpJob::DirsRemove { path, .. }) if path == "/work"
    ));
    let removed = AmpEvent::DirsRemoveOk {
        runner_id: Some("box".into()),
        id: "box".into(),
        path: "/work".into(),
        out: String::new(),
    };
    assert!(matches!(app.handle_event(&now(7), removed), Effect::Run(AmpJob::DirsList { .. })));
    assert_eq!(last_log(&app).0, "removed /work from box");
    let none = AmpEvent::DirsListOk { match_id: "box".into(), dirs: Vec::new() };
    assert!(matches!(app.handle_event(&now(8), none), Effect::Run(AmpJob::Refresh)));
}

#[test]
fn updates_and_failures_are_logged() {
    let mut app = app_with(Vec::new(), true);
    assert!(matches!(app.handle_key(&now(2), ch('u')), Effect::Run(AmpJob::Update)));
    app.handle_event(&now(3), AmpEvent::UpdateOk { out: " \n".into(), version: Some("amp 2".into()) });
    assert_eq!(last_log(&app).0, "amp update: ok");
    assert_eq!(app.amp_version, "amp 2");
    app.handle_event(&now(3), AmpEvent::UpdateOk { out: "to 3".into(), version: None });
    assert_eq!(app.amp_version, "amp 2");
    app.handle_event(&now(3), AmpEvent::Failed("start failed: no".into()));
    assert_eq!(last_log(&app), ("start failed: no", LogKind::Error));
    // An error stays on the status line over the next refresh.
    app.handle_event(&now(4), AmpEvent::RefreshOk(Vec::new()));
    assert_eq!(app.status, "start failed: no");
    assert_eq!(summarize_output("\n a \nb"), "a");
    assert_eq!(summarize_output(" "), "ok");
    for i in 0..(LOG_CAP + 5) {
        app.log(&now(5), LogKind::Info, format!("line {i}"));
    }
    assert_eq!(app.log.len(), LOG_CAP);
    assert_eq!(app.log[0].text, "line 5");
}

#[test]
fn flags_are_edited_and_saved() {
    let mut app = app_with(Vec::new(), true);
    app.handle_key(&now(2), ch('f'));
    assert_eq!(app.overlay, Overlay::Flags);
    app.handle_key(&now(2), press(Key::Enter));
    assert_eq!(app.overlay, Overlay::EditField);
    for c in "bos".chars() {
        app.handle_key(&now(2), ch(c));
    }
    app.handle_key(&now(2), press(Key::Backspace));
    app.handle_key(&now(2), ch('x'));
    let (title, text) = draw_edit(&app);
    assert_eq!(title, " edit --runner-id  (enter confirm, esc cancel) ");
    assert_eq!(text, "box_");
    app.handle_key(&now(2), press(Key::Enter));
    assert_eq!(app.flags.runner_id.as_deref(), Some("box"));
    app.handle_key(&now(2), ch('j'));
    app.handle_key(&now(2), ch(' '));
    assert_eq!(app.flag_field, FlagField::Mode);
    assert_eq!(app.flags.mode.as_deref(), Some(lazyamp::config::MODES[0]));
    let lines = draw_flags(&app);
    assert_eq!(lines.len(), 13);
    assert_eq!(lines[2].text, "  --runner-id                  box");
    assert_eq!(lines[3].text, format!("> --mode                       {}", lazyamp::config::MODES[0]));
    assert!(lines[3].bold && !lines[2].bold);
    assert_eq!(lines[12].text, "saved at /c/config.toml");
    assert!(matches!(app.handle_key(&now(3), ch('s')), Effect::Save(_)));
    assert!(matches!(app.config_saved(&now(3), Ok(())), Effect::Nothing));
    assert_eq!(last_log(&app), ("saved defaults to /c/config.toml", LogKind::Good));
    assert_eq!(app.overlay, Overlay::Clear);
    assert_eq!(app.config.defaults.runner_id.as_deref(), Some("box"));
}

#[test]
fn flags_that_cannot_be_saved() {
    let mut app = app_with(Vec::new(), true);
    app.handle_key(&now(2), ch('f'));
    app.flags.runner_id = Some("a b".into());
    assert!(matches!(app.handle_key(&now(3), ch('s')), Effect::Nothing));
    assert_eq!(
        last_log(&app).0,
        "runner-id `a b` is not a hostname (letters, digits, '-', '.')"
    );
    assert_eq!(app.overlay, Overlay::Flags);
    app.flags.runner_id = None;
    assert!(matches!(app.handle_key(&now(3), ch('s')), Effect::Save(_)));
    app.config_saved(&now(3), Err("denied".into()));
    assert_eq!(last_log(&app).0, "save failed: denied");
    assert_eq!(app.overlay, Overlay::Flags);
}

#[test]
fn an_invalid_config_is_not_written() {
    let mut app = app_with(vec![runner("box", None, &[])], false);
    app.handle_key(&now(2), ch('f'));
    assert!(matches!(app.handle_key(&now(3), ch('s')), Effect::Nothing));
    assert_eq!(last_log(&app).0, "refusing to write invalid config /c/config.toml");
    app.handle_key(&now(3), press(Key::Esc));
    let event = AmpEvent::Started { id: "box".into(), outcome: outcome(StartHealth::Alive) };
    assert!(matches!(app.handle_event(&now(4), event), Effect::Run(AmpJob::Refresh)));
    assert!(app.save_on_quit().is_none());
    let app = app_with(Vec::new(), true);
    assert_eq!(app.save_on_quit().unwrap().path, "/c/config.toml");
}

#[test]
fn flag_fields_go_round_and_show_their_values() {
    let mut f = FlagField::RunnerId;
    let mut seen = Vec::new();
    for _ in 0..9 {
        seen.push(f.label());
        assert_eq!(f.next().prev(), f);
        f = f.next();
    }
    assert_eq!(f, FlagField::RunnerId);
    assert_eq!(seen[6], "--remote-control-terminal");
    let flags = StartDefaults { settings_file: Some("/s".into()), ..StartDefaults::default() };
    assert_eq!(flag_value_display(&flags, FlagField::SettingsFile), "/s");
    assert_eq!(flag_value_display(&flags, FlagField::Mode), "(amp default)");
    assert_eq!(flag_value_display(&flags, FlagField::McpConfig), "(none)");
    assert_eq!(flag_value_display(&flags, FlagField::AmpEnv), if flags.amp_env { "on" } else { "off" });
    assert_eq!(flag_text(&flags, FlagField::SettingsFile).as_deref(), Some("/s"));
    assert_eq!(flag_text(&flags, FlagField::Mode), None);
    assert!(FlagField::McpConfig.is_text() && !FlagField::McpConfig.is_cycle());
}

#[test]
fn typing_in_the_picker_searches_later() {
    let mut app = app_with(Vec::new(), true);
    app.handle_key(&now(10), ch('s'));
    app.picker_listed(&around(), &listing(&["kid"]));
    match app.handle_key(&now(20), ch('w')) {
        Effect::List { root, typed } => assert_eq!((root, typed.as_deref()), (None, Some("w"))),
        other => panic!("{other:?}"),
    }
    app.picker_listed(&around(), &Listing { typed_is_dir: false, entries: Vec::new() });
    app.handle_key(&now(20), ch('h'));
    app.picker_listed(&around(), &Listing { typed_is_dir: false, entries: Vec::new() });
    let p = app.picker.as_ref().unwrap();
    assert_eq!(p.input, "wh");
    assert!(p.filter_mode && p.searching);
    assert_eq!(app.poll_timeout(40), 100);
    assert_eq!(app.poll_timeout(140), 10);
    assert_eq!(poll_timeout(None, 0), 200);
    assert_eq!(poll_timeout(Some(1000), 0), 200);
    assert!(app.maybe_dispatch_picker_search(&now(139)).is_none());
    let job = app.maybe_dispatch_picker_search(&now(140)).unwrap();
    assert_eq!((job.query.as_str(), job.browse_root.as_str()), ("wh", "/work"));
    assert!(app.maybe_dispatch_picker_search(&now(141)).is_none());
    let entry = |p: &str| PickerEntry { label: p.into(), path: p.into() };
    app.picker_results(job.gen.wrapping_sub(1), vec![entry("/stale")]);
    assert!(app.picker.as_ref().unwrap().searching);
    app.picker_results(job.gen, vec![entry("/a"), entry("/b")]);
    let p = app.picker.as_ref().unwrap();
    assert!(!p.searching);
    assert_eq!(p.entries, vec![entry("/a"), entry("/b")]);
    let panel = draw_picker(&app).unwrap();
    assert_eq!(panel.title, " start runner · pick start cwd ");
    assert_eq!(panel.input_title, " filter / path ");
    assert_eq!(panel.input, "wh_");
    assert_eq!(panel.items, vec!["/a", "/b"]);
    assert_eq!(panel.selected, Some(0));
    app.picker_search_lost();
    // The first Esc clears the filter, the second closes the picker.
    app.handle_key(&now(150), press(Key::Esc));
    app.picker_listed(&around(), &listing(&["kid"]));
    let p = app.picker.as_ref().unwrap();
    assert_eq!(p.input, "");
    assert!(!p.filter_mode);
    app.handle_key(&now(160), press(Key::Esc));
    assert!(app.picker.is_none());
    assert_eq!(app.overlay, Overlay::Clear);
}

#[test]
fn the_picker_browses_up_and_down() {
    let mut app = app_with(Vec::new(), true);
    app.handle_key(&now(1), ch('s'));
    app.picker_listed(&around(), &listing(&["kid"]));
    assert!(matches!(app.handle_key(&now(2), ch('h')), Effect::List { root: Some(r), .. } if r == "/"));
    app.picker_listed(&around(), &listing(&["etc", "usr"]));
    assert_eq!(app.picker.as_ref().unwrap().browse_root, "/");
    assert!(matches!(app.handle_key(&now(3), press(Key::Left)), Effect::Nothing));
    for _ in 0..9 {
        app.handle_key(&now(3), press(Key::Down));
    }
    app.handle_key(&now(3), press(Key::Up));
    assert!(matches!(app.handle_key(&now(3), ch('l')), Effect::CheckDir(p) if p == "/etc"));
    assert!(matches!(
        app.dir_checked(&now(3), true),
        Effect::List { root: Some(r), .. } if r == "/etc"
    ));
    app.picker_listed(&around(), &listing(&[]));
    assert_eq!(app.picker.as_ref().unwrap().browse_root, "/etc");
    assert!(matches!(app.handle_key(&now(3), press(Key::Right)), Effect::CheckDir(_)));
    app.dir_checked(&now(3), false);
    assert_eq!(app.picker.as_ref().unwrap().browse_root, "/etc");
    assert_eq!(app.picker.as_ref().unwrap().purpose, PickerPurpose::Start);
}

#[test]
fn other_keys() {
    let mut app = app_with(vec![runner("box", None, &["/d"])], true);
    app.handle_key(&now(1), ch('?'));
    app.handle_key(&now(1), ch('k'));
    assert_eq!(app.help_scroll, 0);
    app.handle_key(&now(1), ch('j'));
    assert_eq!(app.help_scroll, 1);
    app.handle_key(&now(1), ch('q'));
    assert_eq!(app.overlay, Overlay::Clear);
    app.handle_key(&now(1), press(Key::Tab));
    assert_eq!(app.pane, Pane::Dirs);
    app.handle_key(&now(1), press(Key::Enter));
    assert_eq!(app.status, "/d");
    app.handle_key(&now(1), press(Key::BackTab));
    assert_eq!(app.pane, Pane::Runners);
    app.handle_key(&now(1), ch('c'));
    assert_eq!(app.status, "/c/config.toml");
    assert_eq!(last_log(&app).0, "config /c/config.toml");
    app.handle_key(&now(1), ch('f'));
    app.handle_key(&now(1), KeyPress { key: Key::Char('c'), control: true, plain: false });
    assert!(app.should_quit);
    let mut app = app_with(Vec::new(), true);
    app.handle_key(&now(1), ch('q'));
    assert!(app.should_quit);
}

#[test]
fn rows_and_titles() {
    let mut r = runner("a-runner-with-a-long-name", Some(42), &["/d"]);
    assert_eq!(row_of(&r), "a-runner-with-a-lon…  pid 42        1 dir  connected");
    r.id = String::new();
    r.pid = None;
    r.dirs.clear();
    r.from_amp_list = false;
    assert_eq!(row_of(&r), "(unnamed)             pid ?         0 dirs  local only");
    assert_eq!(truncate("abc", 3), "abc");
    assert_eq!(truncate("abcd", 3), "ab…");
    assert_eq!(truncate("abcd", 0), "…");
    assert_eq!(pad("é", 3), format!("{:<3}", "é"));
    assert_eq!(pad("abcd", 3), "abcd");
    assert_eq!(pane_block(true), (Tone::Cyan, Tone::Cyan));
    assert_eq!(pane_block(false), (Tone::DarkGray, Tone::Gray));
    let app = app_with(vec![runner("box", None, &["/home/me/d"])], true);
    let title: String = draw_title(&app, "0.1").iter().map(|s| s.text.as_str()).collect();
    assert_eq!(
        title,
        " lazyamp v0.1  amp 1.0   q quit  ? help  s start  x stop  r restart  f flags  u update"
    );
    let status = draw_status(&app);
    assert_eq!((status.text.as_str(), status.tone), (" 1 runner(s)", Tone::Gray));
    let panel = draw_dirs(&app, Some("/home/me"));
    assert_eq!(panel.title, " served dirs · box ");
    assert!(!panel.focused);
    assert!(matches!(panel.body, Body::List { items, selected: 0 } if items == ["~/d"]));
    assert!(draw_runners(&app).focused);
    let empty = app_with(Vec::new(), true);
    assert!(matches!(draw_runners(&empty).body, Body::Text(t) if t.starts_with("No runners")));
    assert!(matches!(draw_dirs(&empty, None).body, Body::Text(t) if t.starts_with("No served")));
    assert_eq!(draw_dirs(&empty, None).title, " served dirs ");
}

#[test]
fn log_panels() {
    let app = app_with(vec![runner("box", None, &[])], true);
    let shown = draw_log(&app, 7);
    assert_eq!(shown.len(), 1);
    assert_eq!(shown[0].0.text, "12:00:00  ");
    assert_eq!(shown[0].1.text, "Amp 1.0 — /bin/amp");
    assert!(draw_log(&app, 1).is_empty());
    assert_eq!(selected_log_path(&app, "/s").as_deref(), Some("/s/logs/box.log"));
    let (title, body) = draw_runner_log(Some("/s/x.log"), &vec!["a".into(), "b".into()], None);
    assert_eq!((title.as_str(), body.as_str()), (" runner log · /s/x.log ", "a\nb"));
    let (_, body) = draw_runner_log(Some("/s/x.log"), &Vec::new(), None);
    assert_eq!(body, "(empty or missing)\n/s/x.log");
    let (title, body) = draw_runner_log(None, &Vec::new(), None);
    assert_eq!(title, " runner log ");
    assert_eq!(body, "Select a runner to see its last log lines.");
}

#[test]
fn areas_are_laid_out_on_the_screen() {
    let area = Area { x: 0, y: 0, width: 100, height: 40 };
    let a = screen_areas(area);
    assert_eq!(a.title, Area { x: 0, y: 0, width: 100, height: 1 });
    assert_eq!(a.status, Area { x: 0, y: 39, width: 100, height: 1 });
    assert_eq!(a.log, Area { x: 0, y: 32, width: 100, height: 7 });
    assert_eq!(a.runners, Area { x: 0, y: 1, width: 48, height: 31 });
    assert_eq!((a.dirs.x, a.dirs.width), (48, 52));
    assert_eq!(a.dirs.height + a.runner_log.height, 31);
    assert_eq!(centered(area, 60, 20), Area { x: 20, y: 16, width: 60, height: 8 });
    let (input, list, hint) = picker_areas(Area { x: 1, y: 1, width: 50, height: 20 });
    assert_eq!((input.height, list.height, hint.height), (3, 16, 1));
}

#[test]
fn areas_keep_their_shares() {
    let near = |n: u16, pct: u16, room: u16| {
        let (n, share) = (100 * i64::from(n), i64::from(pct) * i64::from(room));
        share - 100 <= n && n <= share + 100
    };
    for height in [0, 1, 2, 7, 8, 16, 17, 18, 24, 41, 60] {
        for width in [0, 1, 3, 50, 80, 99, 133, 220] {
            let area = Area { x: 3, y: 5, width, height };
            for (w, h) in [(72, 80), (70, 70), (60, 20), (76, 80), (60, 24), (0, 100), (33, 1)] {
                let a = centered(area, w, h);
                assert!(near(a.width, w, width) && near(a.height, h, height), "{area:?} {a:?}");
                assert!(near(a.x - 3, (100 - w) / 2, width), "{area:?} {a:?}");
                assert!(near(a.y - 5, (100 - h) / 2, height), "{area:?} {a:?}");
                assert!(a.x + a.width <= 3 + width && a.y + a.height <= 5 + height);
            }
            let a = screen_areas(area);
            assert!(near(a.runners.width, 48, width) && near(a.dirs.width, 52, width));
            assert!(near(a.dirs.height, 55, a.runners.height));
            assert!(near(a.runner_log.height, 45, a.runners.height));
            assert_eq!((a.runners.x, a.dirs.x), (3, 3 + a.runners.width));
            assert_eq!(a.runner_log.y, a.dirs.y + a.dirs.height);
            if height >= 17 {
                assert_eq!((a.title.y, a.title.height), (5, 1));
                assert_eq!((a.runners.y, a.runners.height), (6, height - 9));
                assert_eq!((a.log.y, a.log.height), (5 + height - 8, 7));
                assert_eq!((a.status.y, a.status.height), (5 + height - 1, 1));
            }
            let (input, list, hint) = picker_areas(area);
            if height >= 8 {
                assert_eq!((input.y, input.height), (5, 3));
                assert_eq!((list.y, list.height), (8, height - 4));
                assert_eq!((hint.y, hint.height), (5 + height - 1, 1));
            }
        }
    }
}

#[test]
fn areas_at_the_far_edge() {
    let area = Area { x: 65_000, y: 60_001, width: 535, height: 5_534 };
    let a = screen_areas(area);
    assert_eq!(a.status, Area { x: 65_000, y: 65_534, width: 535, height: 1 });
    assert_eq!(a.dirs.x + a.dirs.width, 65_535);
    let whole = Area { x: 0, y: 0, width: u16::MAX, height: u16::MAX };
    let a = screen_areas(whole);
    assert_eq!((a.log.y, a.log.height), (u16::MAX - 8, 7));
    assert_eq!(a.runners.width + a.dirs.width, u16::MAX);
}
