use lazyamp::args::{
    dirs_add_args, dirs_list_args, dirs_remove_args, list_runners_args, start_runner_args,
    update_args,
};
use lazyamp::listing::{parse_dirs_list, parse_runner_list, parse_runner_text, ListError};
use lazyamp::process::{
    merge_runners, parse_amp_cmdline, scan_local_amp_processes, scan_ps_output, split_cmdline,
    ProcessEntry,
};
use lazyamp::runner::{is_plausible_runner_id, LocalProcess, Runner, StartOptions};

fn runner(id: &str, pid: Option<u32>, cwd: Option<&str>, dirs: &[&str]) -> Runner {
    Runner {
        id: id.into(),
        pid,
        cwd: cwd.map(Into::into),
        dirs: dirs.iter().map(|d| d.to_string()).collect(),
        from_amp_list: true,
        from_local_scan: false,
    }
}

fn process(pid: u32, id: Option<&str>, cwd: Option<&str>, dirs: &[&str]) -> LocalProcess {
    LocalProcess {
        pid,
        runner_id: id.map(Into::into),
        cwd: cwd.map(Into::into),
        extra_dirs: dirs.iter().map(|d| d.to_string()).collect(),
    }
}

#[test]
fn start_args_minimal() {
    assert_eq!(start_runner_args(&StartOptions::default()), vec!["--no-tui"]);
}

#[test]
fn start_args_full() {
    let opts = StartOptions {
        runner_id: Some("dev-box".into()),
        mode: Some("high".into()),
        log_level: Some("debug".into()),
        settings_file: Some("/tmp/s.json".into()),
        mcp_config: Some("/tmp/m.json".into()),
        visibility: Some("private".into()),
        remote_control_terminal: true,
        extra_dirs: vec!["/work/a".into(), "/work/b".into()],
        discover_dirs: true,
        amp_env: true,
    };
    assert_eq!(
        start_runner_args(&opts),
        vec![
            "--no-tui",
            "--runner-id",
            "dev-box",
            "--mode",
            "high",
            "--log-level",
            "debug",
            "--settings-file",
            "/tmp/s.json",
            "--mcp-config",
            "/tmp/m.json",
            "--visibility",
            "private",
            "--remote-control-terminal",
            "--discover-dirs",
            "--amp-env",
            "--dir",
            "/work/a",
            "--dir",
            "/work/b",
        ]
    );
}

#[test]
fn start_args_skip_blank_optionals() {
    let opts = StartOptions {
        runner_id: Some("  ".into()),
        mode: Some(String::new()),
        ..StartOptions::default()
    };
    assert_eq!(start_runner_args(&opts), vec!["--no-tui"]);
}

#[test]
fn start_args_trim_values() {
    let opts = StartOptions { mode: Some("  low ".into()), ..StartOptions::default() };
    assert_eq!(start_runner_args(&opts), vec!["--no-tui", "--mode", "low"]);
}

#[test]
fn dirs_and_update_args() {
    let p = "/tmp/proj";
    assert_eq!(
        dirs_list_args(Some("box")),
        vec!["runner", "dirs", "list", "--runner-id", "box"]
    );
    assert_eq!(
        dirs_add_args(Some("box"), p),
        vec!["runner", "dirs", "add", "--runner-id", "box", "/tmp/proj"]
    );
    assert_eq!(
        dirs_remove_args(None, p),
        vec!["runner", "dirs", "remove", "/tmp/proj"]
    );
    assert_eq!(update_args(), vec!["update"]);
    assert_eq!(list_runners_args(true), vec!["runner", "list", "--json"]);
    assert_eq!(list_runners_args(false), vec!["runner", "list"]);
}

#[test]
fn parse_json_array() {
    let raw = r#"[{"id":"mac-mini","pid":1234,"dirs":["/a","/b"]}]"#;
    let runners = parse_runner_list(raw).unwrap();
    assert_eq!(runners.len(), 1);
    assert_eq!(runners[0].id, "mac-mini");
    assert_eq!(runners[0].pid, Some(1234));
    assert_eq!(runners[0].dirs, vec!["/a", "/b"]);
}

#[test]
fn parse_json_wrapped_camel_case() {
    let raw = r#"{"runners":[{"runnerId":"box","processId":"99","directories":["/tmp"],"cwd":"/tmp"}]}"#;
    let runners = parse_runner_list(raw).unwrap();
    assert_eq!(runners[0].id, "box");
    assert_eq!(runners[0].pid, Some(99));
    assert_eq!(runners[0].cwd, Some("/tmp".to_string()));
    assert_eq!(runners[0].dirs, vec!["/tmp"]);
}

#[test]
fn parse_text_table_with_pid() {
    let raw = "\
ID          PID     DIRECTORIES
mac-mini    1234    /home/a, /home/b
work        99      /src
";
    let runners = parse_runner_list(raw).unwrap();
    assert_eq!(runners.len(), 2);
    assert_eq!(runners[0].id, "mac-mini");
    assert_eq!(runners[0].pid, Some(1234));
    assert_eq!(runners[0].dirs, vec!["/home/a", "/home/b"]);
    assert_eq!(runners[1].id, "work");
    assert_eq!(runners[1].pid, Some(99));
}

#[test]
fn parse_text_indented() {
    let raw = "\
mac-mini (pid 4321)
  /Users/me/code/amp
  /Users/me/code/sandcastle
";
    let runners = parse_runner_list(raw).unwrap();
    assert_eq!(runners.len(), 1);
    assert_eq!(runners[0].id, "mac-mini");
    assert_eq!(runners[0].pid, Some(4321));
    assert_eq!(runners[0].dirs.len(), 2);
}

#[test]
fn parse_empty_list() {
    assert!(parse_runner_list("").unwrap().is_empty());
    assert!(parse_runner_list("   \n").unwrap().is_empty());
}

#[test]
fn parse_dirs_list_paths_and_json() {
    let text = "directories\n/tmp/a\n/tmp/b\n";
    assert_eq!(parse_dirs_list(text), vec!["/tmp/a", "/tmp/b"]);
    let json = r#"["/x","/y"]"#;
    assert_eq!(parse_dirs_list(json), vec!["/x", "/y"]);
}

#[test]
fn cmdline_detects_no_tui_and_flags() {
    let args: Vec<String> = vec![
        "/usr/local/bin/amp".into(),
        "--no-tui".into(),
        "--runner-id".into(),
        "box".into(),
        "--dir".into(),
        "/extra".into(),
    ];
    let proc = parse_amp_cmdline(&args).unwrap();
    assert_eq!(proc.runner_id.as_deref(), Some("box"));
    assert_eq!(proc.extra_dirs, vec!["/extra"]);
    assert!(parse_amp_cmdline(&vec!["amp".into(), "threads".into()]).is_none());
}

#[test]
fn split_cmdline_null_separated() {
    let bytes = b"amp\0--no-tui\0--runner-id\0box\0";
    assert_eq!(
        split_cmdline(bytes),
        vec!["amp", "--no-tui", "--runner-id", "box"]
    );
}

#[test]
fn merge_attaches_pid_by_id() {
    let listed = vec![Runner {
        id: "Box".into(),
        pid: None,
        cwd: None,
        dirs: vec!["/work".into()],
        from_amp_list: true,
        from_local_scan: false,
    }];
    let local = vec![LocalProcess {
        pid: 7,
        runner_id: Some("box".into()),
        cwd: Some("/work".into()),
        extra_dirs: Vec::new(),
    }];
    let merged = merge_runners(listed, &local, &Vec::new());
    assert_eq!(merged[0].pid, Some(7));
    assert!(merged[0].from_local_scan);
    assert!(merged[0].from_amp_list);
}

#[test]
fn merge_adds_local_only_process() {
    let local = vec![LocalProcess {
        pid: 8,
        runner_id: Some("solo".into()),
        cwd: Some("/tmp".into()),
        extra_dirs: Vec::new(),
    }];
    let merged = merge_runners(Vec::new(), &local, &Vec::new());
    assert_eq!(merged.len(), 1);
    assert_eq!(merged[0].id, "solo");
    assert!(!merged[0].from_amp_list);
}

#[test]
fn runner_id_validation() {
    assert!(is_plausible_runner_id("dev-box"));
    assert!(is_plausible_runner_id("grandmas-garage-server"));
    assert!(!is_plausible_runner_id(""));
    assert!(!is_plausible_runner_id("-bad"));
    assert!(!is_plausible_runner_id("has space"));
}

#[test]
fn runner_id_length_and_ends() {
    assert!(is_plausible_runner_id(&"a".repeat(253)));
    assert!(!is_plausible_runner_id(&"a".repeat(254)));
    assert!(!is_plausible_runner_id("bad-"));
    assert!(is_plausible_runner_id("  dev.box  "));
    assert!(!is_plausible_runner_id("a_b"));
    assert!(!is_plausible_runner_id("é"));
}

#[test]
fn broken_json_is_an_error() {
    let err = parse_runner_list("[{").unwrap_err();
    let ListError::NotJson(detail) = &err;
    assert!(!detail.is_empty());
    assert_ne!(detail, "[{");
    assert_eq!(err.message(), format!("amp runner list --json is not JSON: {detail}"));
}

#[test]
fn pids_outside_the_signed_range_are_ignored() {
    let raw = r#"[{"id":"a","pid":0},{"id":"b","pid":2147483648},{"id":"c","pid":2147483647},
        {"id":"d","pid":-4},{"id":"e","pid":"0"},{"id":"f","pid":4294967297,"processId":12}]"#;
    let runners = parse_runner_list(raw).unwrap();
    let pids: Vec<Option<u32>> = runners.iter().map(|r| r.pid).collect();
    assert_eq!(pids, vec![None, None, Some(2147483647), None, None, Some(12)]);
    let text = parse_runner_text("box pid=2147483648 /a\n");
    assert_eq!(text[0].pid, None);
    assert_eq!(text[0].id, "box");
}

#[test]
fn json_object_forms() {
    let single = parse_runner_list(r#"{"name":"one","dir":"/d","workdir":"/w"}"#).unwrap();
    assert_eq!(single, vec![runner("one", None, Some("/w"), &["/w", "/d"])]);
    let data = parse_runner_list(r#"{"data":[{"id":7,"dirs":"/a; /b,"}]}"#).unwrap();
    assert_eq!(data, vec![runner("7", None, None, &["/a", "/b"])]);
    // `runners` that is no array: the object itself is the runner.
    let odd = parse_runner_list(r#"{"runners":3,"id":"x"}"#).unwrap();
    assert_eq!(odd, vec![runner("x", None, None, &[])]);
    assert!(parse_runner_list(r#"[{}, 3, "x", {"other": 1}]"#).unwrap().is_empty());
}

#[test]
fn text_noise_is_skipped() {
    let raw = "Runners\n-----\n2 runner(s)\n3 runners\n\nbox: pid: 12, dirs: x\n\t\"/q\"\n  pid 13\n";
    // No token of the first line is a path: the list after its first colon stands in.
    assert_eq!(parse_runner_text(raw), vec![runner("box", Some(12), None, &["pid", "/q"])]);
}

#[test]
fn text_table_with_bars() {
    let raw = "name | pid | cwd\nbox | 31 | /a;/b\n";
    assert_eq!(parse_runner_text(raw), vec![runner("box", Some(31), None, &["/a", "/b"])]);
}

#[test]
fn dirs_list_objects_and_fallback() {
    assert_eq!(
        parse_dirs_list(r#"[{"path":"/p"},{"dir":"/d"},{"x":1},5,"/s"]"#),
        vec!["/p", "/d", "/s"]
    );
    assert_eq!(parse_dirs_list(r#"{"paths":["/p", 4]}"#), vec!["/p"]);
    assert_eq!(parse_dirs_list("[/not json\n/tmp\n  ./rel\n~\nother\nPaths\n"), vec!["/tmp", "./rel", "~"]);
}

#[test]
fn equal_signs_in_flags() {
    let args: Vec<String> = ["amp", "--no-tui", "--runner-id=", "--dir=/a", "--runner-id=x", "--dir", "/b"]
        .iter()
        .map(|s| s.to_string())
        .collect();
    let p = parse_amp_cmdline(&args).unwrap();
    assert_eq!(p.runner_id.as_deref(), Some("x"));
    assert_eq!(p.extra_dirs, vec!["/a", "/b"]);
    let empty: Vec<String> = ["amp", "--no-tui", "--runner-id", ""].iter().map(|s| s.to_string()).collect();
    assert_eq!(parse_amp_cmdline(&empty).unwrap().runner_id, None);
    let other: Vec<String> = ["/bin/ampere", "--no-tui"].iter().map(|s| s.to_string()).collect();
    assert!(parse_amp_cmdline(&other).is_none());
    assert!(parse_amp_cmdline(&Vec::new()).is_none());
}

#[test]
fn a_started_command_line_is_recognised() {
    let opts = StartOptions {
        runner_id: Some(" dev-box ".into()),
        mode: Some("high".into()),
        extra_dirs: vec!["/a".into(), "--odd".into()],
        amp_env: true,
        ..StartOptions::default()
    };
    let mut args = vec!["/usr/bin/amp".to_string()];
    args.extend(start_runner_args(&opts));
    let p = parse_amp_cmdline(&args).unwrap();
    assert_eq!(p, process(0, Some("dev-box"), None, &["/a", "--odd"]));
}

#[test]
fn split_cmdline_replaces_bad_bytes() {
    assert_eq!(split_cmdline(b"amp\0\xff\0\0"), vec!["amp", "\u{fffd}"]);
    assert!(split_cmdline(b"").is_empty());
    assert_eq!(split_cmdline(b"last"), vec!["last"]);
}

#[test]
fn scan_reads_process_entries() {
    let entries = vec![
        ProcessEntry { name: "12".into(), cmdline: Some(b"/x/amp\0--no-tui\0".to_vec()), cwd: Some("/w".into()) },
        ProcessEntry { name: "self".into(), cmdline: Some(b"/x/amp\0--no-tui\0".to_vec()), cwd: None },
        ProcessEntry { name: "13".into(), cmdline: None, cwd: None },
        ProcessEntry { name: "14".into(), cmdline: Some(b"vim\0".to_vec()), cwd: None },
    ];
    assert_eq!(scan_local_amp_processes(&entries), vec![process(12, None, Some("/w"), &[])]);
}

#[test]
fn scan_reads_ps_lines() {
    let out = b"  77 /opt/amp --no-tui --runner-id box --dir=/a\n  78 vim amp --no-tui\n79\nx amp --no-tui\n";
    assert_eq!(scan_ps_output(out), vec![process(77, Some("box"), None, &["/a"])]);
}

#[test]
fn shared_directories_are_not_merged() {
    let listed = vec![runner("one", Some(5), Some("/work"), &["/work"])];
    let local = vec![process(6, Some("two"), Some("/work"), &[]), process(5, None, Some("/else"), &["/x"])];
    let merged = merge_runners(listed, &local, &Vec::new());
    assert_eq!(merged.len(), 2);
    assert_eq!(merged[0].id, "one");
    assert_eq!(merged[0].dirs, vec!["/work", "/x", "/else"]);
    assert_eq!(merged[0].pid, Some(5));
    assert_eq!(merged[1].id, "two");
    assert_eq!(merged[1].pid, Some(6));
}

#[test]
fn merge_sorts_by_shown_id_and_keeps_listed_values() {
    let listed = vec![
        runner("b", Some(2), None, &[]),
        runner("", Some(3), None, &["/n"]),
        runner("a", None, None, &["/a/"]),
        runner("b", None, Some("/second"), &[]),
    ];
    let local = vec![process(9, Some("A"), Some("/a"), &[])];
    let spawned = vec![process(9, Some("a"), Some("/b"), &[])];
    let merged = merge_runners(listed, &local, &spawned);
    let ids: Vec<&str> = merged.iter().map(|r| r.display_id()).collect();
    assert_eq!(ids, vec!["(unnamed)", "a", "b", "b"]);
    assert_eq!(merged[1].pid, Some(9));
    // The listed spelling of a directory stays; the same path is not added again.
    assert_eq!(merged[1].dirs, vec!["/a/", "/b"]);
    assert_eq!(merged[2].pid, Some(2));
    assert_eq!(merged[3].cwd.as_deref(), Some("/second"));
    assert_eq!(merged[0].runner_id_flag(), None);
    assert_eq!(merged[1].runner_id_flag(), Some("a"));
}

#[test]
fn listed_runners_keep_rows_of_their_own() {
    let listed = vec![
        runner("", Some(9), None, &["/b"]),
        runner("box", None, None, &["/x"]),
        runner("", Some(4), None, &["/a"]),
        runner("box", None, None, &["/x"]),
    ];
    let merged = merge_runners(listed, &vec![process(4, None, None, &[])], &Vec::new());
    let rows: Vec<(&str, Option<u32>)> = merged.iter().map(|r| (r.id.as_str(), r.pid)).collect();
    assert_eq!(rows, vec![("", Some(9)), ("", Some(4)), ("box", None), ("box", None)]);
}

#[test]
fn decoration_changes_no_table() {
    let plain = "ID  PID\nbox  12\n  /a\ntop  13\n";
    let decorated = "Runners\n\nID  PID\n---  ---\nbox  12\n====\n  /a\n \ntop  13\n2 runner(s)\n";
    assert_eq!(parse_runner_text(decorated), parse_runner_text(plain));
    assert_eq!(parse_runner_text(plain).len(), 2);
}
