use lazyamp::config::{
    atomic_write, config_path, config_path_from, cycle_choice, startup, state_dir, state_dir_from,
    state_home,
    Config, ConfigError, FileText, LoadError, StartDefaults, TooManyQuotes, LOG_LEVELS,
    MAX_RECENT_DIRS, MODES, VISIBILITIES,
};

#[test]
fn parse_empty_is_default() {
    let cfg = Config::parse("").unwrap();
    assert_eq!(cfg, Config::default());
}

#[test]
fn parse_roundtrip() {
    let raw = r#"
[defaults]
runner_id = "dev-box"
mode = "high"
log_level = "info"
settings_file = "/tmp/settings.json"
mcp_config = "/tmp/mcp.json"
visibility = "private"
remote_control_terminal = true
discover_dirs = true
amp_env = false

recent_dirs = ["/tmp/a", "/tmp/b"]
"#;
    let cfg = Config::parse(raw).unwrap();
    assert_eq!(cfg.defaults.runner_id.as_deref(), Some("dev-box"));
    assert_eq!(cfg.defaults.mode.as_deref(), Some("high"));
    assert!(cfg.defaults.remote_control_terminal);
    assert_eq!(cfg.recent_dirs, vec!["/tmp/a", "/tmp/b"]);

    let again = Config::parse(&cfg.to_toml().unwrap()).unwrap();
    assert_eq!(cfg, again);
}

#[test]
fn blanks_become_none() {
    let cfg = Config::parse(
        r#"
[defaults]
runner_id = "  "
mode = ""
"#,
    )
    .unwrap();
    assert_eq!(cfg.defaults.runner_id, None);
    assert_eq!(cfg.defaults.mode, None);
}

#[test]
fn remember_dir_newest_first_and_dedup() {
    let mut cfg = Config::default();
    cfg.remember_dir("/a");
    cfg.remember_dir("/b");
    cfg.remember_dir("/a");
    assert_eq!(cfg.recent_dirs, vec!["/a", "/b"]);
}

#[test]
fn remember_dir_caps_length() {
    let mut cfg = Config::default();
    for i in 0..20 {
        cfg.remember_dir(&format!("/p{i}"));
    }
    assert_eq!(cfg.recent_dirs.len(), MAX_RECENT_DIRS);
    assert_eq!(cfg.recent_dirs[0], "/p19");
}

#[test]
fn remember_dir_ignores_the_empty_path() {
    let mut cfg = Config::default();
    cfg.remember_dir("");
    assert!(cfg.recent_dirs.is_empty());
}

#[test]
fn config_path_from_joins_lazyamp() {
    let path = config_path_from(Some("/xdg/config"));
    assert_eq!(path, "/xdg/config/lazyamp/config.toml");
    assert_eq!(config_path_from(None), ".config/lazyamp/config.toml");
}

#[test]
fn state_dir_from_joins_lazyamp() {
    let path = state_dir_from(Some("/xdg/state"));
    assert_eq!(path, "/xdg/state/lazyamp");
    assert_eq!(state_dir_from(None), ".local/state/lazyamp");
}

#[test]
fn user_directories_are_used() {
    let config = dirs::config_dir().map(|p| p.to_string_lossy().into_owned());
    assert_eq!(config_path(), config_path_from(config.as_deref()));
    let state = dirs::state_dir().or_else(dirs::data_local_dir).map(|p| p.to_string_lossy().into_owned());
    assert_eq!(state_dir(), state_dir_from(state.as_deref()));
}

#[test]
fn load_missing_file_is_default() {
    assert_eq!(Config::load_from("missing.toml", &FileText::Missing).unwrap(), Config::default());
    assert_eq!(Config::load(&FileText::Missing).unwrap().config, Config::default());
    assert!(Config::load(&FileText::Missing).unwrap().may_write());
}

#[test]
fn save_and_load_from_disk() {
    let mut cfg = Config::default();
    cfg.defaults.runner_id = Some("box".into());
    cfg.remember_dir("/work");
    let write = cfg.save_to("nested/config.toml").unwrap();
    assert_eq!(write.dir.as_deref(), Some("nested"));
    assert_eq!(write.temp, "nested/config.toml.tmp");
    assert_eq!(write.path, "nested/config.toml");
    let loaded = Config::load_from("nested/config.toml", &FileText::Text(write.text)).unwrap();
    assert_eq!(loaded, cfg);
    assert_eq!(cfg.save().unwrap().path, config_path());
}

#[test]
fn written_config_has_recent_dirs_first() {
    let mut cfg = Config::default();
    cfg.defaults.mode = Some("low".into());
    cfg.defaults.amp_env = true;
    cfg.remember_dir("/work");
    assert_eq!(
        cfg.to_toml().unwrap(),
        "recent_dirs = [\"/work\"]\n\n[defaults]\nmode = \"low\"\nremote_control_terminal = false\ndiscover_dirs = false\namp_env = true\n"
    );
}

#[test]
fn odd_texts_survive_a_save() {
    let mut cfg = Config::default();
    cfg.defaults.settings_file = Some("a\"b'c\\d\te\nf\r\ng \u{1} \u{7f} é".into());
    cfg.defaults.mcp_config = Some("'''\"\"\"\"".into());
    cfg.recent_dirs = vec!["''".into(), "x\ny\"\"".into(), "\"'".into()];
    let again = Config::parse(&cfg.to_toml().unwrap()).unwrap();
    assert_eq!(cfg, again);
}

#[test]
fn a_saved_config_loads_in_its_normal_form() {
    let mut cfg = Config::default();
    cfg.defaults.runner_id = Some("  box ".into());
    cfg.defaults.mode = Some("   ".into());
    cfg.recent_dirs = (0..15).map(|i| if i == 2 { "  ".to_string() } else { format!("/{i}") }).collect();
    let loaded = Config::parse(&cfg.to_toml().unwrap()).unwrap();
    assert_eq!(loaded.defaults.runner_id.as_deref(), Some("box"));
    assert_eq!(loaded.defaults.mode, None);
    assert_eq!(loaded.recent_dirs.len(), MAX_RECENT_DIRS);
    assert_eq!(loaded.recent_dirs[2], "/3");
    let again = Config::parse(&loaded.to_toml().unwrap()).unwrap();
    assert_eq!(again, loaded);
}

#[test]
fn endless_quotes_are_not_written() {
    let mut cfg = Config::default();
    cfg.defaults.mode = Some("'".repeat(255));
    assert_eq!(Config::parse(&cfg.to_toml().unwrap()).unwrap(), cfg);
    cfg.defaults.mode = Some(format!("x{}y", "\"".repeat(256)));
    assert_eq!(cfg.to_toml(), Err(TooManyQuotes));
    assert_eq!(TooManyQuotes.message(), "failed to serialize config: too many quotes in a row");
}

fn fault(raw: &str) -> String {
    match Config::parse(raw) {
        Err(ConfigError::Shape(detail)) => detail,
        other => panic!("{raw}: {other:?}"),
    }
}

#[test]
fn wrong_types_are_refused() {
    for (raw, detail) in [
        ("defaults = 5", "invalid type: integer `5`, expected struct StartDefaults\nin `defaults`\n"),
        (
            "defaults = 1979-05-27",
            "invalid type: string \"1979-05-27\", expected struct StartDefaults\nin `defaults`\n",
        ),
        (
            "[defaults]\nmode = 5\n",
            "invalid type: integer `5`, expected a string\nin `defaults.mode`\n",
        ),
        (
            "[defaults]\nmode = 5.0\n",
            "invalid type: floating point `5.0`, expected a string\nin `defaults.mode`\n",
        ),
        (
            "[defaults]\nrunner_id = [\"a\"]\n",
            "invalid type: sequence, expected a string\nin `defaults.runner_id`\n",
        ),
        (
            "[defaults]\namp_env = \"yes\"\n",
            "invalid type: string \"yes\", expected a boolean\nin `defaults.amp_env`\n",
        ),
        (
            "[defaults.visibility]\na = 1\n",
            "invalid type: map, expected a string\nin `defaults.visibility`\n",
        ),
        (
            "recent_dirs = true",
            "invalid type: boolean `true`, expected a sequence\nin `recent_dirs`\n",
        ),
        (
            "recent_dirs = [\"/a\", false]",
            "invalid type: boolean `false`, expected a string\nin `recent_dirs`\n",
        ),
        (
            "defaults = [\"a\", 7]",
            "invalid type: integer `7`, expected a string\nin `defaults`\n",
        ),
        (
            "defaults = [\"a\", \"b\", \"c\", \"d\", \"e\", \"f\", true, true, true, true]",
            "invalid length 10, expected fewer elements in array\nin `defaults`\n",
        ),
        (
            "defaults = [\"a\", \"b\", \"c\", \"d\", \"e\", \"f\", true, true, \"x\", true]",
            "invalid type: string \"x\", expected a boolean\nin `defaults`\n",
        ),
    ] {
        assert_eq!(fault(raw), detail, "{raw}");
    }
    assert_eq!(
        ConfigError::Shape("odd\n".into()).message(),
        "invalid lazyamp config.toml: odd\n"
    );
}

#[test]
fn the_first_fault_is_told_by_key() {
    let two = "recent_dirs = 1\n[defaults]\nvisibility = 2\nlog_level = 3\n";
    assert_eq!(
        fault(two),
        "invalid type: integer `3`, expected a string\nin `defaults.log_level`\n"
    );
}

#[test]
fn faults_are_told_as_the_reader_tells_them() {
    type Table<T> = std::collections::BTreeMap<String, T>;
    for value in ["-7", "1.5", "1e3", "inf", "true", "[1]", "{ a = 1 }"] {
        let raw = format!("defaults = {{ mode = {value} }}");
        let told = raw.parse::<toml::Value>().unwrap().try_into::<Table<Table<Option<String>>>>();
        assert_eq!(fault(&raw), told.unwrap_err().to_string());
        let raw = format!("recent_dirs = [{value}]");
        let told = raw.parse::<toml::Value>().unwrap().try_into::<Table<Vec<String>>>();
        assert_eq!(fault(&raw), told.unwrap_err().to_string());
    }
    for value in ["5", "\"a'b\"", "\"q\\\"\\u0007é\"", "1979-05-27T07:32:00Z", "[]"] {
        let raw = format!("defaults = {{ amp_env = {value} }}");
        let told = raw.parse::<toml::Value>().unwrap().try_into::<Table<Table<bool>>>();
        assert_eq!(fault(&raw), told.unwrap_err().to_string());
    }
    for value in ["\"/a\"", "5", "{ a = 1 }", "07:32:00"] {
        let raw = format!("recent_dirs = {value}");
        let told = raw.parse::<toml::Value>().unwrap().try_into::<Table<Vec<String>>>();
        assert_eq!(fault(&raw), told.unwrap_err().to_string());
    }
}

#[test]
fn odd_but_valid_documents() {
    let by_place = Config::parse("defaults = [\"box\", \"low\"]").unwrap();
    assert_eq!(by_place.defaults.runner_id.as_deref(), Some("box"));
    assert_eq!(by_place.defaults.mode.as_deref(), Some("low"));
    let dated = Config::parse("[defaults]\nmode = 1979-05-27\nother = 5\n").unwrap();
    assert_eq!(dated.defaults.mode.as_deref(), Some("1979-05-27"));
    let misplaced = Config::parse("[defaults]\nrecent_dirs = [\"/a\", 3, \"/b\"]\n").unwrap();
    assert_eq!(misplaced.recent_dirs, vec!["/a", "/b"]);
    let both = Config::parse("recent_dirs = [\"/top\"]\n[defaults]\nrecent_dirs = [\"/a\"]\n").unwrap();
    assert_eq!(both.recent_dirs, vec!["/top"]);
    assert_eq!(Config::parse("unknown = 1.5\n").unwrap(), Config::default());
}

#[test]
fn invalid_files_are_reported_and_not_writable() {
    let text = FileText::Text("not toml at all [".into());
    let err = Config::load_from("/c/config.toml", &text).unwrap_err();
    let detail = match &err {
        LoadError::Invalid { path, error: ConfigError::Syntax(d) } => {
            assert_eq!(path, "/c/config.toml");
            d.clone()
        }
        other => panic!("{other:?}"),
    };
    assert!(detail.contains("TOML parse error"));
    assert_eq!(
        err.message(),
        format!("failed to parse /c/config.toml: invalid lazyamp config.toml: {detail}")
    );
    let start = startup("/c/config.toml", &text);
    assert!(!start.writable);
    assert_eq!(start.config, Config::default());
    assert_eq!(
        start.error.unwrap(),
        format!(
            "invalid config /c/config.toml — using defaults in memory, will not overwrite: {}",
            err.message()
        )
    );
    let unreadable = FileText::Unreadable("denied".into());
    let err = Config::load_from("/c", &unreadable).unwrap_err();
    assert_eq!(err.message(), "failed to read /c: denied");
    assert!(!startup("/c", &unreadable).writable);
    let missing = startup("/c", &FileText::Missing);
    assert!(missing.writable);
    assert_eq!(missing.error, None);
    assert!(Config::load(&unreadable).is_err());
}

#[test]
fn writes_go_beside_the_file_first() {
    let w = atomic_write("plain.json", "x".into());
    assert_eq!(w.dir.as_deref(), Some(""));
    assert_eq!(w.temp, "plain.json.tmp");
    assert_eq!(w.text, "x");
}

#[test]
fn defaults_map_to_start_options() {
    let defaults = StartDefaults {
        runner_id: Some("box".into()),
        mode: Some("ultra".into()),
        log_level: Some("debug".into()),
        settings_file: Some("/s.json".into()),
        mcp_config: Some("/m.json".into()),
        visibility: Some("workspace".into()),
        remote_control_terminal: true,
        discover_dirs: true,
        amp_env: true,
    };
    let opts = defaults.to_start_options();
    assert_eq!(opts.runner_id.as_deref(), Some("box"));
    assert!(opts.remote_control_terminal);
    assert!(opts.discover_dirs);
    assert!(opts.amp_env);
    assert!(opts.extra_dirs.is_empty());
    assert_eq!(StartDefaults::default().to_start_options().mode, None);
}

#[test]
fn cycle_choice_wraps_to_none() {
    assert_eq!(cycle_choice(None, &MODES).as_deref(), Some("low"));
    assert_eq!(cycle_choice(Some("low"), &MODES).as_deref(), Some("medium"));
    assert_eq!(cycle_choice(Some("ultra"), &MODES), None);
    assert_eq!(cycle_choice(Some("nope"), &MODES), None);
}

#[test]
fn cycling_visits_every_choice() {
    for choices in [&MODES[..], &LOG_LEVELS[..], &VISIBILITIES[..]] {
        let mut seen = Vec::new();
        let mut current: Option<String> = None;
        loop {
            current = cycle_choice(current.as_deref(), choices);
            match &current {
                Some(c) => seen.push(c.clone()),
                None => break,
            }
        }
        assert_eq!(seen, choices.to_vec());
    }
    assert_eq!(cycle_choice(Some(" LOW "), &MODES).as_deref(), Some("medium"));
    assert_eq!(cycle_choice(None, &[]), None);
}

#[test]
fn the_state_home_comes_before_the_data_home() {
    assert_eq!(state_home(Some("/s"), Some("/d")).as_deref(), Some("/s"));
    assert_eq!(state_home(Some("/s"), None).as_deref(), Some("/s"));
    assert_eq!(state_home(None, Some("/d")).as_deref(), Some("/d"));
    assert_eq!(state_home(None, None), None);
}
