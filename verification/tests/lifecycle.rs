use lazyamp::client::{AmpClient, CallError, CommandReply, ListStep};
use lazyamp::jobs::{run_job, AmpEvent, AmpJob, JobAnswer, JobAsk, JobTurn};
use lazyamp::launch::{
    forget_spawn, launch_registry_path, launch_spec_for_restart, load_spawn_registry, record_launch,
    record_spawn, restart_start_options, spawn_registry_path, start_health, validate_launch_spec,
    Evidence, Executable, LaunchError, LaunchSpec, SpawnRecord, StartHealth, Witnessed,
    HEALTH_LOOKS,
};
use lazyamp::runner::{LocalProcess, Runner, StartOptions};
use lazyamp::start::{StartAnswer, StartAsk, StartTurn};
use lazyamp::stop::{
    stop_verified, Delivery, Signal, StopAnswer, StopAsk, StopError, StopOutcome, StopTurn,
    STOP_LOOKS,
};

fn client() -> AmpClient {
    AmpClient { binary: "/bin/amp".into() }
}

fn ok(stdout: &str) -> CommandReply {
    CommandReply::Finished {
        success: true,
        status: "exit status: 0".into(),
        stdout: stdout.as_bytes().to_vec(),
        stderr: Vec::new(),
    }
}

fn failed() -> CommandReply {
    CommandReply::Finished {
        success: false,
        status: "exit status: 3".into(),
        stdout: b" out \n".to_vec(),
        stderr: b"\nerr".to_vec(),
    }
}

fn runner(id: &str, pid: Option<u32>) -> Runner {
    Runner {
        id: id.into(),
        pid,
        cwd: None,
        dirs: Vec::new(),
        from_amp_list: true,
        from_local_scan: false,
    }
}

fn evidence(args: &[&str]) -> Evidence {
    Evidence {
        alive: true,
        exe: Executable::Path("/opt/amp".into()),
        args: args.iter().map(|s| s.to_string()).collect(),
    }
}

fn gone() -> Evidence {
    Evidence { alive: false, exe: Executable::Unreadable, args: Vec::new() }
}

fn options(id: Option<&str>) -> StartOptions {
    StartOptions { runner_id: id.map(Into::into), mode: Some("low".into()), ..StartOptions::default() }
}

fn spec(pid: u32, id: Option<&str>, cwd: &str) -> LaunchSpec {
    LaunchSpec { pid, cwd: cwd.into(), options: options(id) }
}

#[test]
fn failures_name_the_command() {
    let c = client();
    let err = c.update(&failed()).unwrap_err();
    assert_eq!(err.message(), "`amp update` failed (exit status: 3): out err");
    let err = c.dirs_add(Some("box"), "/p", &CommandReply::NotRun("no such file".into())).unwrap_err();
    assert_eq!(
        err.message(),
        "failed to execute /bin/amp runner dirs add --runner-id box /p: no such file"
    );
    assert_eq!(c.version(&ok("\n amp 1.2 \n")).unwrap(), "amp 1.2");
    assert_eq!(c.dirs_list(None, &ok("/a\n")).unwrap(), vec!["/a"]);
    assert_eq!(c.dirs_remove(None, "/p", &ok("done")).unwrap(), "done");
}

#[test]
fn listing_tries_json_then_text() {
    let c = client();
    assert!(matches!(c.listed_as_json(&failed()), ListStep::AskText));
    assert!(matches!(c.listed_as_json(&ok("")), ListStep::AskText));
    match c.listed_as_json(&ok(" []")) {
        ListStep::Done(Ok(v)) => assert!(v.is_empty()),
        other => panic!("{other:?}"),
    }
    match c.listed_as_json(&ok("box pid 4\n")) {
        ListStep::Done(Ok(v)) => assert_eq!(v[0].pid, Some(4)),
        other => panic!("{other:?}"),
    }
    match c.listed_as_json(&ok("{oops")) {
        ListStep::Done(Err(CallError::NotJson(_))) => {}
        other => panic!("{other:?}"),
    }
    assert_eq!(c.listed_as_text(&ok("box pid 4\n")).unwrap()[0].id, "box");
    assert!(c.listed_as_text(&failed()).is_err());
}

#[test]
fn local_processes_stand_in_for_a_failed_list() {
    let c = client();
    let local = vec![LocalProcess { pid: 9, runner_id: None, cwd: None, extra_dirs: Vec::new() }];
    let err = || c.listed_as_text(&failed());
    assert!(c.list_runners(err(), &Vec::new(), &local).is_err());
    let shown = c.list_runners(err(), &local, &Vec::new()).unwrap();
    assert_eq!(shown.len(), 1);
    assert_eq!(shown[0].pid, Some(9));
    let both = c.list_runners(Ok(vec![runner("box", Some(9))]), &local, &Vec::new()).unwrap();
    assert_eq!(both.len(), 1);
    assert!(both[0].from_local_scan);
}

#[test]
fn low_and_wide_pids_are_refused() {
    for pid in [0, 1, 0x8000_0000, u32::MAX] {
        match stop_verified(pid, None).1 {
            StopTurn::Done(Err(StopError::Refused(p))) => assert_eq!(p, pid),
            other => panic!("{other:?}"),
        }
    }
    assert_eq!(StopError::Refused(1).message(), "refusing to stop pid 1");
}

#[test]
fn a_runner_is_stopped_by_term() {
    let (mut run, turn) = stop_verified(42, Some("Box".into()));
    assert!(matches!(turn, StopTurn::Ask(StopAsk::Inspect)));
    let e = evidence(&["amp", "--no-tui", "--runner-id", "box"]);
    assert!(matches!(run.answer(StopAnswer::Inspected(e)), StopTurn::Ask(StopAsk::Send(Signal::Term))));
    assert!(matches!(
        run.answer(StopAnswer::Delivered(Delivery::Sent)),
        StopTurn::Ask(StopAsk::Look { pause: false })
    ));
    assert!(matches!(
        run.answer(StopAnswer::Looked { alive: true }),
        StopTurn::Ask(StopAsk::Look { pause: true })
    ));
    assert!(matches!(
        run.answer(StopAnswer::Looked { alive: false }),
        StopTurn::Ask(StopAsk::Forget)
    ));
    assert!(matches!(
        run.answer(StopAnswer::Looked { alive: true }),
        StopTurn::Ask(StopAsk::Forget)
    ));
    assert!(matches!(
        run.answer(StopAnswer::Forgotten),
        StopTurn::Done(Ok(StopOutcome::Stopped))
    ));
}

#[test]
fn a_runner_is_killed_only_after_another_inspection() {
    let (mut run, _) = stop_verified(42, None);
    let e = || evidence(&["amp", "--no-tui"]);
    run.answer(StopAnswer::Inspected(e()));
    run.answer(StopAnswer::Delivered(Delivery::Sent));
    for _ in 0..STOP_LOOKS {
        assert!(matches!(
            run.answer(StopAnswer::Looked { alive: true }),
            StopTurn::Ask(StopAsk::Look { pause: true })
        ));
    }
    assert!(matches!(run.answer(StopAnswer::Looked { alive: true }), StopTurn::Ask(StopAsk::Inspect)));
    assert!(matches!(run.answer(StopAnswer::Inspected(e())), StopTurn::Ask(StopAsk::Send(Signal::Kill))));
    run.answer(StopAnswer::Delivered(Delivery::Sent));
    for _ in 0..STOP_LOOKS {
        run.answer(StopAnswer::Looked { alive: true });
    }
    match run.answer(StopAnswer::Looked { alive: true }) {
        StopTurn::Done(Err(e)) => assert_eq!(e.message(), "pid 42 is still alive"),
        other => panic!("{other:?}"),
    }
}

#[test]
fn other_processes_are_left_alone() {
    let strangers = [
        evidence(&["vim", "--no-tui"]),
        evidence(&["amp", "threads"]),
        evidence(&["amp", "--no-tui", "--runner-id", "other"]),
        Evidence { exe: Executable::Path("/bin/node".into()), ..evidence(&["amp", "--no-tui"]) },
        Evidence { exe: Executable::Unreadable, ..evidence(&["amp", "--no-tui"]) },
    ];
    for e in strangers {
        let (mut run, _) = stop_verified(42, Some("box".into()));
        match run.answer(StopAnswer::Inspected(e)) {
            StopTurn::Done(Err(e)) => {
                assert_eq!(e.message(), "pid 42 does not look like this `amp --no-tui` runner")
            }
            other => panic!("{other:?}"),
        }
    }
    let untold = Evidence { exe: Executable::Untold, ..evidence(&["amp", "--no-tui"]) };
    let (mut run, _) = stop_verified(42, Some("box".into()));
    assert!(matches!(run.answer(StopAnswer::Inspected(untold)), StopTurn::Ask(StopAsk::Send(Signal::Term))));
}

#[test]
fn stops_that_end_early() {
    let (mut run, _) = stop_verified(42, None);
    assert!(matches!(
        run.answer(StopAnswer::Inspected(gone())),
        StopTurn::Ask(StopAsk::Forget)
    ));
    assert!(matches!(
        run.answer(StopAnswer::Forgotten),
        StopTurn::Done(Ok(StopOutcome::AlreadyGone))
    ));
    for (delivery, message) in [
        (Delivery::NotPermitted, "not permitted to signal pid 42"),
        (Delivery::Failed("odd".into()), "failed to signal pid 42: odd"),
    ] {
        let (mut run, _) = stop_verified(42, None);
        run.answer(StopAnswer::Inspected(evidence(&["amp", "--no-tui"])));
        match run.answer(StopAnswer::Delivered(delivery)) {
            StopTurn::Done(Err(e)) => assert_eq!(e.message(), message),
            other => panic!("{other:?}"),
        }
    }
    let (mut run, _) = stop_verified(42, None);
    run.answer(StopAnswer::Inspected(evidence(&["amp", "--no-tui"])));
    assert!(matches!(
        run.answer(StopAnswer::Delivered(Delivery::NoSuchProcess)),
        StopTurn::Ask(StopAsk::Forget)
    ));
    assert!(matches!(
        run.answer(StopAnswer::Forgotten),
        StopTurn::Done(Ok(StopOutcome::AlreadyGone))
    ));
    let (mut run, _) = stop_verified(42, None);
    assert!(matches!(run.answer(StopAnswer::Looked { alive: false }), StopTurn::Ask(StopAsk::Inspect)));
}

#[test]
fn registry_keeps_living_runners() {
    let record = |pid: u32, id: &str| SpawnRecord { pid, runner_id: Some(id.into()), cwd: "/w".into() };
    let seen = |pid: u32, id: &str, e: Evidence| Witnessed { record: record(pid, id), evidence: e };
    let all = || {
        vec![
            seen(5, "a", evidence(&["amp", "--no-tui"])),
            seen(6, "b", gone()),
            seen(7, "c", evidence(&["vim"])),
            seen(8, "d", evidence(&["amp", "--no-tui", "--runner-id", "renamed"])),
        ]
    };
    let loaded = load_spawn_registry(&all());
    let pids: Vec<u32> = loaded.iter().map(|p| p.pid).collect();
    assert_eq!(pids, vec![5, 8]);
    assert_eq!(loaded[0].cwd.as_deref(), Some("/w"));
    assert!(loaded[0].extra_dirs.is_empty());
    let after = record_spawn(&all(), 5, None, "/new");
    assert_eq!(after.len(), 2);
    assert_eq!(after[0].pid, 8);
    assert_eq!(after[1], SpawnRecord { pid: 5, runner_id: None, cwd: "/new".into() });
    let forgotten = forget_spawn(&after, 8);
    assert_eq!(forgotten, vec![after[1].clone()]);
    assert_eq!(spawn_registry_path("/s"), "/s/spawned.json");
    assert_eq!(launch_registry_path("/s"), "/s/launches.json");
}

#[test]
fn restart_replays_the_saved_launch() {
    let first = record_launch(&Vec::new(), spec(5, Some("box"), "/old"));
    let second = record_launch(&first, spec(6, Some(" BOX "), "/new"));
    assert_eq!(second.len(), 1);
    let third = record_launch(&second, spec(7, None, "/new"));
    assert_eq!(third.len(), 2);
    assert_eq!(launch_spec_for_restart(&third, &runner("box", None)).unwrap().cwd, "/new");
    assert_eq!(launch_spec_for_restart(&third, &runner("assigned", Some(7))).unwrap(), third[1]);
    let err = launch_spec_for_restart(&third, &runner("", Some(99))).unwrap_err();
    assert_eq!(err.message(), "no saved launch spec for (unnamed)");
    // Another runner in the same directory has no claim on the spec.
    assert!(launch_spec_for_restart(&third, &runner("other", None)).is_err());
    assert_eq!(restart_start_options(&third[0]), options(Some(" BOX ")));
}

#[test]
fn launch_specs_are_validated() {
    assert!(validate_launch_spec(&spec(1, Some("box"), "/w"), true).is_ok());
    assert!(validate_launch_spec(&spec(1, None, "/w"), true).is_ok());
    let err = validate_launch_spec(&spec(1, None, "/w"), false).unwrap_err();
    assert_eq!(err.message(), "working directory does not exist: /w");
    let err = validate_launch_spec(&spec(1, Some("-x"), "/w"), true).unwrap_err();
    assert_eq!(err, LaunchError::BadId("-x".into()));
    assert_eq!(err.message(), "runner-id `-x` is not a hostname");
}

#[test]
fn health_is_not_claimed_early() {
    assert_eq!(start_health(true, false, "", false), None);
    assert_eq!(start_health(true, false, "", true), Some(StartHealth::Alive));
    assert_eq!(start_health(true, true, "amp login", false), Some(StartHealth::Listed));
    assert_eq!(
        start_health(true, false, "Please run AMP LOGIN first", false),
        Some(StartHealth::NeedsLogin)
    );
    assert_eq!(
        start_health(false, true, "one\n two \n\n", false),
        Some(StartHealth::Exited { hint: "two".into() })
    );
}

#[test]
fn a_start_goes_through_its_steps() {
    let opts = options(Some("box"));
    let (mut run, ask) = client().start_runner("/w", &opts, "/s");
    assert!(matches!(ask, StartAsk::CheckDir(p) if p == "/w"));
    match run.answer(StartAnswer::IsDir(true)) {
        StartTurn::Ask(StartAsk::Spawn { cwd, args, log_dir, log_path }) => {
            assert_eq!(cwd, "/w");
            assert_eq!(args, vec!["--no-tui", "--runner-id", "box", "--mode", "low"]);
            assert_eq!(log_dir.as_deref(), Some("/s/logs"));
            assert_eq!(log_path, "/s/logs/box.log");
        }
        other => panic!("{other:?}"),
    }
    match run.answer(StartAnswer::Spawned(Ok(77))) {
        StartTurn::Ask(StartAsk::Record(s)) => assert_eq!(s, spec(77, Some("box"), "/w")),
        other => panic!("{other:?}"),
    }
    assert!(matches!(
        run.answer(StartAnswer::Recorded),
        StartTurn::Ask(StartAsk::Look { pid: 77, pause: false, .. })
    ));
    assert!(matches!(
        run.answer(StartAnswer::Looked { alive: true, list: None, log: String::new() }),
        StartTurn::Ask(StartAsk::Look { pause: true, .. })
    ));
    match run.answer(StartAnswer::Looked {
        alive: true,
        list: Some(vec![runner("BOX", None)]),
        log: String::new(),
    }) {
        StartTurn::Done(Ok(o)) => {
            assert_eq!(o.pid, 77);
            assert_eq!(o.cwd, "/w");
            assert_eq!(o.log_path, "/s/logs/box.log");
            assert_eq!(o.health, StartHealth::Listed);
        }
        other => panic!("{other:?}"),
    }
}

#[test]
fn starts_that_fail_or_stay_unlisted() {
    let (mut run, _) = client().start_runner("/w", &options(None), "/s");
    match run.answer(StartAnswer::IsDir(false)) {
        StartTurn::Done(Err(e)) => assert_eq!(e, "working directory does not exist: /w"),
        other => panic!("{other:?}"),
    }
    let (mut run, _) = client().start_runner("/w", &options(None), "/s");
    run.answer(StartAnswer::IsDir(true));
    match run.answer(StartAnswer::Spawned(Err("failed to spawn".into()))) {
        StartTurn::Done(Err(e)) => assert_eq!(e, "failed to spawn"),
        other => panic!("{other:?}"),
    }
    let (mut run, _) = client().start_runner("/w", &options(None), "/s");
    run.answer(StartAnswer::IsDir(true));
    run.answer(StartAnswer::Spawned(Ok(3)));
    run.answer(StartAnswer::Recorded);
    let mut looks = 0;
    let outcome = loop {
        looks += 1;
        let look = StartAnswer::Looked { alive: true, list: Some(vec![]), log: "up".into() };
        match run.answer(look) {
            StartTurn::Ask(_) => {}
            StartTurn::Done(r) => break r.unwrap(),
        }
    };
    assert_eq!(looks, HEALTH_LOOKS + 1);
    assert_eq!(outcome.health, StartHealth::Alive);
}

#[test]
fn jobs_that_run_one_command() {
    let c = client();
    let add = || AmpJob::DirsAdd { runner_id: None, display_id: "box".into(), path: "/p".into() };
    let (mut run, ask) = run_job(add());
    assert!(matches!(ask, JobAsk::Command(v) if v == ["runner", "dirs", "add", "/p"]));
    match run.answer(&c, JobAnswer::Replied(ok("fine"))) {
        JobTurn::Done(AmpEvent::DirsAddOk { runner_id, id, path, out }) => {
            assert_eq!((runner_id, id.as_str(), path.as_str(), out.as_str()), (None, "box", "/p", "fine"));
        }
        other => panic!("{other:?}"),
    }
    let (mut run, _) = run_job(add());
    assert!(matches!(run.answer(&c, JobAnswer::IsDir(true)), JobTurn::Ask(JobAsk::Command(_))));
    match run.answer(&c, JobAnswer::Replied(failed())) {
        JobTurn::Done(AmpEvent::Failed(e)) => assert_eq!(
            e,
            "dirs add failed: `amp runner dirs add /p` failed (exit status: 3): out err"
        ),
        other => panic!("{other:?}"),
    }
    let (mut run, ask) = run_job(AmpJob::DirsRemove {
        runner_id: Some("box".into()),
        display_id: "box".into(),
        path: "/p".into(),
    });
    assert!(matches!(ask, JobAsk::Command(v) if v.len() == 6 && v[2] == "remove"));
    assert!(matches!(
        run.answer(&c, JobAnswer::Replied(ok(""))),
        JobTurn::Done(AmpEvent::DirsRemoveOk { .. })
    ));
    let (mut run, _) = run_job(AmpJob::DirsList { runner_id: None, match_id: "m".into() });
    match run.answer(&c, JobAnswer::Replied(ok("/a\n/b\n"))) {
        JobTurn::Done(AmpEvent::DirsListOk { match_id, dirs }) => {
            assert_eq!(match_id, "m");
            assert_eq!(dirs, vec!["/a", "/b"]);
        }
        other => panic!("{other:?}"),
    }
}

#[test]
fn an_update_asks_for_the_version() {
    let c = client();
    for (reply, version) in [(ok("amp 2\n"), Some("amp 2".to_string())), (failed(), None)] {
        let (mut run, ask) = run_job(AmpJob::Update);
        assert!(matches!(ask, JobAsk::Command(v) if v == ["update"]));
        match run.answer(&c, JobAnswer::Replied(ok("updated"))) {
            JobTurn::Ask(JobAsk::Command(v)) => assert_eq!(v, vec!["version"]),
            other => panic!("{other:?}"),
        }
        match run.answer(&c, JobAnswer::Replied(reply)) {
            JobTurn::Done(AmpEvent::UpdateOk { out, version: v }) => {
                assert_eq!(out, "updated");
                assert_eq!(v, version);
            }
            other => panic!("{other:?}"),
        }
    }
    let (mut run, _) = run_job(AmpJob::Update);
    assert!(matches!(
        run.answer(&c, JobAnswer::Replied(failed())),
        JobTurn::Done(AmpEvent::Failed(e)) if e.starts_with("amp update failed: ")
    ));
}

#[test]
fn refresh_stop_and_start_jobs() {
    let c = client();
    let (mut run, ask) = run_job(AmpJob::Refresh);
    assert!(matches!(ask, JobAsk::List));
    assert!(matches!(
        run.answer(&c, JobAnswer::Listed(Ok(vec![runner("a", None)]))),
        JobTurn::Done(AmpEvent::RefreshOk(v)) if v.len() == 1
    ));
    let (mut run, _) = run_job(AmpJob::Refresh);
    assert!(matches!(
        run.answer(&c, JobAnswer::Listed(Err(CallError::NotJson("x".into())))),
        JobTurn::Done(AmpEvent::Failed(e)) if e == "refresh failed: amp runner list --json is not JSON: x"
    ));
    let stop = || AmpJob::Stop { pid: 5, runner_id: Some("box".into()), display_id: "box".into() };
    let (mut run, ask) = run_job(stop());
    assert!(matches!(ask, JobAsk::Stop { pid: 5, runner_id: Some(id) } if id == "box"));
    assert!(matches!(
        run.answer(&c, JobAnswer::Stopped(Ok(StopOutcome::AlreadyGone))),
        JobTurn::Done(AmpEvent::Stopped { pid: 5, outcome: StopOutcome::AlreadyGone, .. })
    ));
    let (mut run, _) = run_job(stop());
    assert!(matches!(
        run.answer(&c, JobAnswer::Stopped(Err(StopError::NotPermitted(5)))),
        JobTurn::Done(AmpEvent::Failed(e)) if e == "stop failed: not permitted to signal pid 5"
    ));
    let (mut run, _) = run_job(AmpJob::Start { cwd: "/w".into(), opts: options(None) });
    assert!(matches!(
        run.answer(&c, JobAnswer::Started(Err("no".into()))),
        JobTurn::Done(AmpEvent::Failed(e)) if e == "start failed: no"
    ));
}

#[test]
fn a_restart_goes_in_order() {
    let c = client();
    let job = || AmpJob::Restart {
        pid: 5,
        runner_id: Some("box".into()),
        display_id: "box".into(),
        spec: spec(5, Some("box"), "/w"),
    };
    let (mut run, ask) = run_job(job());
    assert!(matches!(ask, JobAsk::CheckDir(p) if p == "/w"));
    assert!(matches!(run.answer(&c, JobAnswer::IsDir(true)), JobTurn::Ask(JobAsk::Stop { pid: 5, .. })));
    match run.answer(&c, JobAnswer::Stopped(Ok(StopOutcome::Stopped))) {
        JobTurn::Ask(JobAsk::Start { cwd, opts }) => {
            assert_eq!(cwd, "/w");
            assert_eq!(opts, options(Some("box")));
        }
        other => panic!("{other:?}"),
    }
    let outcome = lazyamp::launch::StartOutcome {
        pid: 6,
        cwd: "/w".into(),
        log_path: "/l".into(),
        health: StartHealth::Listed,
    };
    assert!(matches!(
        run.answer(&c, JobAnswer::Started(Ok(outcome))),
        JobTurn::Done(AmpEvent::Restarted { id, outcome }) if id == "box" && outcome.pid == 6
    ));
    let (mut run, _) = run_job(job());
    assert!(matches!(
        run.answer(&c, JobAnswer::IsDir(false)),
        JobTurn::Done(AmpEvent::Failed(e))
            if e == "restart aborted (spec invalid): working directory does not exist: /w"
    ));
    let (mut run, _) = run_job(job());
    run.answer(&c, JobAnswer::IsDir(true));
    assert!(matches!(
        run.answer(&c, JobAnswer::Stopped(Err(StopError::StillAlive(5)))),
        JobTurn::Done(AmpEvent::Failed(e)) if e == "stop before restart failed: pid 5 is still alive"
    ));
}
