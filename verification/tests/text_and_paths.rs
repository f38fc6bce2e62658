use lazyamp::client::{executable_candidates, missing_amp_message, AmpClient};
use lazyamp::launch::{runner_log_path, runner_log_path_in, sanitize_slug, tail_log_lines};
use lazyamp::order::{in_order, sort_texts};
use lazyamp::path::{file_name, is_compound, join_path, parent, same_path, strip_base};
use lazyamp::text::{
    chars_of, find, first_line, lines, lossy_text, lower, parse_u32, same_ignoring_case, space, split,
    split_text, split_words, string_of, strings_of, trimmed_str, write_decimal, Class,
};
use std::path::Path;

const TEXTS: [&str; 17] = [
    "", " ", "a", " a b ", "a\tb\u{a0}c", "\n", "a\n", "a\r\nb", "\r", "a\n\nb\n", "é ß",
    "\u{2003}x\u{3000}", "x\ry", "--", "aaa", "a,b;c", "\u{85}z",
];

const PATHS: [&str; 26] = [
    "", "/", "//", ".", "..", "./", "../", "a", "a/", "a//b", "/a", "/a/", "/a/b", "/a/./b", "./a",
    "a/.", "a/..", "/a/../b", "//a//b//", "~", "~/x", "a/b/c", "/.", "/..", "./.", "a/./",
];

#[test]
fn whitespace_agrees_with_std() {
    for n in 0..=0x10ffffu32 {
        if let Some(c) = char::from_u32(n) {
            assert_eq!(space(c), c.is_whitespace(), "{n:x}");
        }
    }
}

#[test]
fn text_functions_agree_with_std() {
    for t in TEXTS {
        let c = chars_of(t);
        assert_eq!(string_of(&c), t);
        assert_eq!(trimmed_str(t), t.trim());
        assert_eq!(strings_of(&lines(&c)), t.lines().collect::<Vec<_>>());
        assert_eq!(strings_of(&split_words(&c)), t.split_whitespace().collect::<Vec<_>>());
        assert_eq!(string_of(&lower(&c)), t.to_ascii_lowercase());
        assert_eq!(
            strings_of(&split(&c, Class::CommaOrSemicolon)),
            t.split([',', ';']).collect::<Vec<_>>()
        );
        assert_eq!(
            strings_of(&split_text(&c, &chars_of("aa"))),
            t.split("aa").collect::<Vec<_>>()
        );
        for u in TEXTS {
            let d = chars_of(u);
            assert_eq!(find(&c, &d).is_some(), t.contains(u));
            assert_eq!(same_ignoring_case(&c, &d), t.eq_ignore_ascii_case(u));
            assert_eq!(in_order(t, u), t <= u);
        }
    }
}

#[test]
fn numbers_agree_with_std() {
    for t in ["", "0", "7", "007", "+5", "-5", "4294967295", "4294967296", "1 ", "x", "+", "99999999999999"] {
        assert_eq!(parse_u32(&chars_of(t)), t.parse::<u32>().ok(), "{t}");
    }
    for n in [0, 9, 10, 101, u64::MAX] {
        assert_eq!(write_decimal(n), n.to_string());
    }
}

#[test]
fn paths_agree_with_std() {
    for p in PATHS {
        let path = Path::new(p);
        assert_eq!(parent(p), path.parent().map(|q| q.to_str().unwrap().to_string()), "{p}");
        assert_eq!(
            file_name(p),
            path.file_name().map(|q| q.to_str().unwrap().to_string()),
            "{p}"
        );
        assert_eq!(is_compound(p), path.components().count() > 1 || path.is_absolute(), "{p}");
        for q in PATHS {
            let other = Path::new(q);
            assert_eq!(same_path(p, q), path == other, "{p} {q}");
            assert_eq!(join_path(p, q), path.join(q).to_str().unwrap(), "{p} {q}");
            assert_eq!(
                strip_base(p, q),
                path.strip_prefix(other).ok().map(|r| r.to_str().unwrap().to_string()),
                "{p} {q}"
            );
        }
    }
}

#[test]
fn sorting_agrees_with_std() {
    let mut v: Vec<String> = TEXTS.iter().map(|t| t.to_string()).collect();
    let sorted = sort_texts(&v);
    v.sort();
    assert_eq!(sorted, v);
}

#[test]
fn bad_bytes_are_replaced() {
    assert_eq!(lossy_text(b"a\xff\xc3\xa9"), "a\u{fffd}é");
    assert_eq!(lossy_text(b""), "");
}

#[test]
fn first_line_is_trimmed() {
    assert_eq!(first_line("\n  amp 1.2 \nmore"), "amp 1.2");
    assert_eq!(first_line(" \n"), "");
}

#[test]
fn slugs_and_log_paths() {
    assert_eq!(sanitize_slug("/home/me/a b"), "home_me_a_b");
    assert_eq!(sanitize_slug("dev-box_1"), "dev-box_1");
    assert_eq!(sanitize_slug("///"), "");
    assert_eq!(runner_log_path_in("/s", Some("box"), Some("/w")), "/s/logs/box.log");
    assert_eq!(runner_log_path_in("/s", Some("é"), Some("/w/x")), "/s/logs/w_x.log");
    assert_eq!(runner_log_path_in("/s", None, Some("/w/x")), "/s/logs/w_x.log");
    assert!(runner_log_path(Some("box"), None).ends_with("lazyamp/logs/box.log"));
}

#[test]
fn log_tails() {
    assert_eq!(tail_log_lines("a\nb\nc\n", 2), vec!["b", "c"]);
    assert_eq!(tail_log_lines("a\n", 8), vec!["a"]);
    assert!(tail_log_lines("", 8).is_empty());
    assert!(tail_log_lines("a\nb", 0).is_empty());
}

#[test]
fn executables_are_looked_for_on_the_path() {
    assert_eq!(executable_candidates("amp", Some("/a:/b/:")), vec!["/a/amp", "/b/amp", "amp"]);
    assert_eq!(executable_candidates("/x/amp", Some("/a")), vec!["/x/amp"]);
    assert_eq!(executable_candidates("x/amp", None), vec!["x/amp"]);
    assert!(executable_candidates("amp", None).is_empty());
}

#[test]
fn a_missing_amp_is_reported() {
    let message = missing_amp_message("amp");
    assert!(message.starts_with("Amp CLI not found on PATH (looked for `amp`).\n\nlazyamp wraps"));
    assert!(message.ends_with("Optional: set AMP_BIN to the full path of the amp binary."));
    assert_eq!(AmpClient::detect(Some("/x"), None).unwrap_err(), missing_amp_message("/x"));
    assert_eq!(AmpClient::detect(None, None).unwrap_err(), message);
    assert_eq!(AmpClient::detect(None, Some("/bin/amp")).unwrap().binary, "/bin/amp");
}
