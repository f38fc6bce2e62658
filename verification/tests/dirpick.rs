use lazyamp::client::{query_zoxide_dirs, CommandReply};
use lazyamp::dirpick::{
    collect_ranked_paths, fuzzy_match, list_immediate_subdirs, parse_zoxide_output, skip_dir_name,
    walk_matching_dirs, walk_matching_dirs_limited, DirEntry, EntryKind, PathSource, RankedSearch,
    Walk, BROWSE_CHILD_CAP, FILTER_RESULT_CAP,
};

fn dir(name: &str) -> DirEntry {
    DirEntry { name: name.into(), kind: EntryKind::Directory }
}

/// The entries of a directory in a tree that is given by its leaves.
fn entries(leaves: &[String], at: &str) -> Vec<DirEntry> {
    let prefix = format!("{at}/");
    let mut names: Vec<String> = leaves
        .iter()
        .filter_map(|l| l.strip_prefix(&prefix))
        .map(|rest| rest.split('/').next().unwrap().to_string())
        .collect();
    names.sort();
    names.dedup();
    names.reverse();
    names.iter().map(|n| dir(n)).collect()
}

fn run(mut walk: Walk, leaves: &[String]) -> Vec<String> {
    while let Some(d) = walk.next_dir(true) {
        walk.read(Some(&entries(leaves, &d)));
    }
    walk.found().clone()
}

#[test]
fn dirpick_fuzzy_contains_and_subsequence() {
    assert!(fuzzy_match("amp", "/home/me/amp-cli"));
    assert!(fuzzy_match("hml", "/home/me/lazy"));
    assert!(!fuzzy_match("zzz", "/home/me"));
    assert!(fuzzy_match("", "anything"));
}

#[test]
fn fuzzy_ignores_case_and_keeps_order() {
    assert!(fuzzy_match("AMP", "x/Amp"));
    assert!(!fuzzy_match("pma", "amp"));
    assert!(!fuzzy_match("aa", "a"));
    assert!(!fuzzy_match("a", ""));
}

#[test]
fn skip_heavy_and_hidden() {
    assert!(skip_dir_name("node_modules"));
    assert!(skip_dir_name("target"));
    assert!(skip_dir_name(".git"));
    assert!(skip_dir_name(".cache"));
    assert!(!skip_dir_name("src"));
    assert!(!skip_dir_name("amp"));
}

#[test]
fn skip_names_in_any_case() {
    assert!(skip_dir_name("Node_Modules"));
    assert!(skip_dir_name(".."));
    assert!(skip_dir_name("."));
    assert!(skip_dir_name("site-packages"));
    assert!(!skip_dir_name(""));
    assert!(!skip_dir_name("targets"));
}

#[test]
fn walk_finds_nested_and_skips_heavy() {
    let root = "/r";
    let leaves: Vec<String> = [
        "code/amp/cli",
        "code/sandcastle",
        "code/node_modules/should-not-see",
        "code/target/debug",
        "code/.git/objects",
    ]
    .iter()
    .map(|l| format!("{root}/{l}"))
    .collect();
    let nested = run(walk_matching_dirs_limited(root, "cli", 32, 200), &leaves);
    assert!(
        nested.iter().any(|p| p.ends_with("code/amp/cli")),
        "expected nested cli dir, got {nested:?}"
    );
    assert!(nested.iter().all(|p| {
        !p.split('/').any(|n| n == "node_modules" || n == "target" || n == ".git")
    }));
}

#[test]
fn walk_keeps_its_limits() {
    let leaves: Vec<String> = (0..9).map(|i| format!("/r/m{i}/x")).collect();
    let two = run(walk_matching_dirs_limited("/r", "m", 2, 200), &leaves);
    assert_eq!(two, vec!["/r/m0", "/r/m1"]);
    let one_visit = run(walk_matching_dirs_limited("/r", "x", 32, 1), &leaves);
    assert!(one_visit.is_empty());
    let blank = run(walk_matching_dirs_limited("/r", "  ", 32, 200), &leaves);
    assert!(blank.is_empty());
    let deep: Vec<String> = vec!["/r/a/b/c/d/e/f/g/h/i/j".into()];
    let found = run(walk_matching_dirs("/r", "r"), &deep);
    assert_eq!(found.last().unwrap(), "/r/a/b/c/d/e/f/g/h");
    assert_eq!(found.len(), 8);
    let mut late = walk_matching_dirs("/r", "r");
    assert_eq!(late.next_dir(false), None);
    assert_eq!(late.next_dir(true), None);
    let mut unreadable = walk_matching_dirs("/r", "r");
    assert_eq!(unreadable.next_dir(true).as_deref(), Some("/r"));
    unreadable.read(None);
    assert_eq!(unreadable.next_dir(true), None);
}

#[test]
fn a_walk_goes_by_levels() {
    let leaves: Vec<String> =
        ["/r/b/x/.git/x", "/r/b/x/target/x", "/r/a/x/x", "/r/x/a", "/r/.x/x"]
            .iter()
            .map(|l| l.to_string())
            .collect();
    let found = run(walk_matching_dirs("/r", "x"), &leaves);
    assert_eq!(found, vec!["/r/x", "/r/a/x", "/r/b/x", "/r/x/a", "/r/a/x/x"]);
    let relative = run(walk_matching_dirs("r", "x"), &["r/x/x".to_string()]);
    assert_eq!(relative, vec!["r/x", "r/x/x"]);
}

#[test]
fn children_are_sorted_directories() {
    let entries = vec![
        dir("b"),
        DirEntry { name: "link".into(), kind: EntryKind::Symlink },
        DirEntry { name: "file".into(), kind: EntryKind::Other },
        dir("a"),
        dir("build"),
        dir(".x"),
    ];
    assert_eq!(list_immediate_subdirs("/r/", &entries), vec!["/r/a", "/r/b"]);
    let many: Vec<DirEntry> = (0..500).map(|i| dir(&format!("d{i:03}"))).collect();
    let listed = list_immediate_subdirs("/r", &many);
    assert_eq!(listed.len(), BROWSE_CHILD_CAP);
    assert_eq!(listed[399], "/r/d399");
}

#[test]
fn zoxide_output_is_one_path_per_line() {
    let parsed = parse_zoxide_output("/home/me/code\n/tmp/work\n\n");
    assert_eq!(parsed, vec!["/home/me/code", "/tmp/work"]);
}

#[test]
fn zoxide_failures_are_empty() {
    let ok = CommandReply::Finished {
        success: true,
        status: "exit status: 0".into(),
        stdout: b"/a\n \xff\n".to_vec(),
        stderr: Vec::new(),
    };
    assert_eq!(query_zoxide_dirs(&Some(ok)), vec!["/a", "\u{fffd}"]);
    let bad = CommandReply::Finished {
        success: false,
        status: "exit status: 1".into(),
        stdout: b"/a\n".to_vec(),
        stderr: Vec::new(),
    };
    assert!(query_zoxide_dirs(&Some(bad)).is_empty());
    assert!(query_zoxide_dirs(&Some(CommandReply::NotRun("no".into()))).is_empty());
    assert!(query_zoxide_dirs(&None).is_empty());
}

#[test]
fn ranked_filter_prefers_zoxide_then_recent() {
    let root = "/t";
    let zox = "/t/from-zoxide/deep/project".to_string();
    let recent = "/t/recent-only/project".to_string();
    let nested = "/t/browse/nested/project".to_string();
    let ranked = collect_ranked_paths(&RankedSearch {
        query: "proj",
        browse_root: root,
        recent_dirs: &vec![recent.clone()],
        zoxide_dirs: &vec![zox.clone()],
        nested_dirs: &vec![nested.clone()],
        cwd: None,
        home: None,
        typed_exact: None,
        typed_is_dir: false,
        browse_children: false,
        browse_entries: &vec![],
    });
    let sources: Vec<PathSource> = ranked.iter().map(|r| r.source).collect();
    assert_eq!(sources.first().copied(), Some(PathSource::Zoxide));
    assert!(sources.contains(&PathSource::Recent));
    assert!(sources.contains(&PathSource::Nested));
    assert_eq!(ranked[0].path, zox);
}

#[test]
fn browse_mode_lists_only_immediate_children() {
    let root = "/t";
    let leaves = vec!["/t/top/nested".to_string()];
    let ranked = collect_ranked_paths(&RankedSearch {
        query: "",
        browse_root: root,
        recent_dirs: &vec![],
        zoxide_dirs: &vec![],
        nested_dirs: &vec![],
        cwd: None,
        home: None,
        typed_exact: None,
        typed_is_dir: false,
        browse_children: true,
        browse_entries: &entries(&leaves, root),
    });
    assert!(ranked.iter().any(|r| r.path.ends_with("top")));
    assert!(!ranked.iter().any(|r| r.path.ends_with("nested")));
}

#[test]
fn ranked_paths_come_once_in_order() {
    let ranked = collect_ranked_paths(&RankedSearch {
        query: "",
        browse_root: "/w/here",
        recent_dirs: &vec![" /home/ ".into(), "".into(), "/z".into(), "/r".into()],
        zoxide_dirs: &vec!["/z".into(), "".into(), "/z/".into()],
        nested_dirs: &vec!["/n".into(), "/w/here/kid".into()],
        cwd: Some("/w/here"),
        home: Some("/home"),
        typed_exact: Some("/typed"),
        typed_is_dir: true,
        browse_children: true,
        browse_entries: &vec![dir("kid")],
    });
    let got: Vec<(PathSource, &str)> = ranked.iter().map(|r| (r.source, r.path.as_str())).collect();
    assert_eq!(
        got,
        vec![
            (PathSource::Exact, "/typed"),
            (PathSource::Zoxide, "/z"),
            (PathSource::Current, "/w/here"),
            (PathSource::Home, "/home"),
            (PathSource::Recent, "/r"),
            (PathSource::Parent, "/w"),
            (PathSource::Browse, "/w/here/kid"),
            (PathSource::Nested, "/n"),
        ]
    );
}

#[test]
fn filter_results_are_capped() {
    let many: Vec<String> = (0..100).map(|i| format!("/m{i}")).collect();
    let search = |query| {
        collect_ranked_paths(&RankedSearch {
            query,
            browse_root: "/",
            recent_dirs: &vec![],
            zoxide_dirs: &many,
            nested_dirs: &vec![],
            cwd: None,
            home: None,
            typed_exact: Some("/none"),
            typed_is_dir: false,
            browse_children: false,
            browse_entries: &vec![],
        })
        .len()
    };
    assert_eq!(search(" m "), FILTER_RESULT_CAP);
    assert_eq!(search(""), 100);
    assert_eq!(search("99"), 1);
}
