//! Parsers for the output of `amp runner list` and `amp runner dirs list`.
use vstd::prelude::*;
use vstd::slice::slice_subrange;
use crate::json;
use crate::json::{lookup, parse_json, Json, JsonView};
use crate::path;
use crate::path::same_path;
use crate::runner;
use crate::runner::{Runner, RunnerView};
use crate::text;
use crate::text::{
    before, begins_with, chars_of, contains, ends_with, find, has_char, keep_nonblank, lines, lower,
    only_digits, parse_u32, same, same_ignoring_case, split, split_text, split_words, starts_with,
    string_of, strings_of, trimmed, trimmed_by, trimmed_end_by, trimmed_start_by, Class,
};

verus! {

/// Process ids that a signal can go to: the positive ones of 32 bits.
pub open spec fn valid_pid(n: int) -> bool {
    0 < n <= i32::MAX
}

/// The process id that a token holds: its digits, whatever stands around them.
pub open spec fn pid_token(token: Seq<char>) -> Option<u32> {
    match text::u32_of(text::trim_by(text::trim(token), Class::NotDigit)) {
        Some(n) => if valid_pid(n as int) {
            Some(n)
        } else {
            None
        },
        None => None,
    }
}

/// The process id that a token holds.
pub fn parse_pid_token(token: &[char]) -> (r: Option<u32>)
    ensures
        r == pid_token(token@),
{
    match parse_u32(trimmed_by(trimmed(token), Class::NotDigit)) {
        Some(n) => if 0 < n && n <= 0x7fff_ffff {
            Some(n)
        } else {
            None
        },
        None => None,
    }
}

/// The paths of a list with commas or semicolons.
pub open spec fn dir_list(raw: Seq<char>) -> Seq<Seq<char>> {
    text::nonblank_texts(text::split_by(raw, Class::CommaOrSemicolon))
}

/// The paths of a list with commas or semicolons.
pub fn split_dir_list(raw: &[char]) -> (r: Vec<String>)
    ensures
        text::strings(r@) == dir_list(raw@),
{
    strings_of(&keep_nonblank(&split(raw, Class::CommaOrSemicolon)))
}

/// Whether `dirs` has `dir`, as a path.
pub open spec fn has_dir(dirs: Seq<Seq<char>>, dir: Seq<char>) -> bool {
    exists|i: int| 0 <= i < dirs.len() && path::same_path_text(#[trigger] dirs[i], dir)
}

/// `dirs` with `dir` at the end unless it is there.
pub open spec fn with_dir(dirs: Seq<Seq<char>>, dir: Seq<char>) -> Seq<Seq<char>> {
    if has_dir(dirs, dir) {
        dirs
    } else {
        dirs.push(dir)
    }
}

/// `dirs` with each of `more` at the end unless it is there.
pub open spec fn with_dirs(dirs: Seq<Seq<char>>, more: Seq<Seq<char>>) -> Seq<Seq<char>>
    decreases more.len(),
{
    if more.len() == 0 {
        dirs
    } else {
        with_dir(with_dirs(dirs, more.drop_last()), more.last())
    }
}

/// Whether `dirs` has `dir`, as a path.
pub fn dir_listed(dirs: &Vec<String>, dir: &str) -> (r: bool)
    ensures
        r == has_dir(text::strings(dirs@), dir@),
{
    let ghost all = text::strings(dirs@);
    for i in 0..dirs.len()
        invariant
            all == text::strings(dirs@),
            forall|j: int| 0 <= j < i ==> !path::same_path_text(#[trigger] all[j], dir@),
    {
        assert(all[i as int] == dirs@[i as int]@);
        if same_path(dirs[i].as_str(), dir) {
            return true;
        }
    }
    false
}

/// Adds a directory unless it is there.
pub fn push_unique_dir(dirs: &mut Vec<String>, dir: &str)
    ensures
        text::strings(final(dirs)@) == with_dir(text::strings(old(dirs)@), dir@),
{
    if !dir_listed(dirs, dir) {
        let ghost before = text::strings(dirs@);
        dirs.push(dir.to_owned());
        assert(text::strings(dirs@) == before.push(dir@));
    }
}

/// Adds each directory unless it is there.
pub fn push_unique_dirs(dirs: &mut Vec<String>, more: &Vec<String>)
    ensures
        text::strings(final(dirs)@) == with_dirs(
            text::strings(old(dirs)@),
            text::strings(more@),
        ),
{
    let ghost before = text::strings(dirs@);
    let ghost all = text::strings(more@);
    for i in 0..more.len()
        invariant
            all == text::strings(more@),
            text::strings(dirs@) == with_dirs(before, all.take(i as int)),
    {
        assert(all.take(i + 1).drop_last() == all.take(i as int));
        push_unique_dir(dirs, more[i].as_str());
    }
    assert(all.take(all.len() as int) == all);
}

// ---------------------------------------------------------------------------------------------
// JSON

/// A list of keys as texts.
pub open spec fn strs(v: Seq<&str>) -> Seq<Seq<char>> {
    Seq::new(v.len(), |i: int| v[i]@)
}

/// The text of a value: a string that is not blank, or a number as it is written.
pub open spec fn text_value(v: JsonView) -> Option<Seq<char>> {
    match v {
        JsonView::Text(s) => if text::trim(s).len() == 0 {
            None
        } else {
            Some(s)
        },
        JsonView::Number { text, unsigned } => Some(text),
        _ => None,
    }
}

/// The text of the first of the keys from `i` on that has one.
pub open spec fn first_text(
    entries: Seq<(Seq<char>, JsonView)>,
    keys: Seq<Seq<char>>,
    i: int,
) -> Option<Seq<char>>
    decreases keys.len() - i,
{
    if i < 0 || i >= keys.len() {
        None
    } else {
        match json::entry(entries, keys[i]) {
            Some(v) => match text_value(v) {
                Some(s) => Some(s),
                None => first_text(entries, keys, i + 1),
            },
            None => first_text(entries, keys, i + 1),
        }
    }
}

/// The process id of a value.
pub open spec fn pid_value(v: JsonView) -> Option<u32> {
    match v {
        JsonView::Number { text, unsigned } => match unsigned {
            Some(n) => if valid_pid(n as int) {
                Some(n as u32)
            } else {
                None
            },
            None => None,
        },
        JsonView::Text(s) => pid_token(s),
        _ => None,
    }
}

/// The process id of the first of the keys from `i` on that has one.
pub open spec fn first_pid_of(
    entries: Seq<(Seq<char>, JsonView)>,
    keys: Seq<Seq<char>>,
    i: int,
) -> Option<u32>
    decreases keys.len() - i,
{
    if i < 0 || i >= keys.len() {
        None
    } else {
        match json::entry(entries, keys[i]) {
            Some(v) => match pid_value(v) {
                Some(n) => Some(n),
                None => first_pid_of(entries, keys, i + 1),
            },
            None => first_pid_of(entries, keys, i + 1),
        }
    }
}

/// The strings among the items.
pub open spec fn text_items(items: Seq<JsonView>) -> Seq<Seq<char>>
    decreases items.len(),
{
    if items.len() == 0 {
        Seq::empty()
    } else {
        match items.last() {
            JsonView::Text(s) => text_items(items.drop_last()).push(s),
            _ => text_items(items.drop_last()),
        }
    }
}

/// The paths of the first of the keys from `i` on that holds an array or a string.
pub open spec fn first_list_of(
    entries: Seq<(Seq<char>, JsonView)>,
    keys: Seq<Seq<char>>,
    i: int,
) -> Seq<Seq<char>>
    decreases keys.len() - i,
{
    if i < 0 || i >= keys.len() {
        Seq::empty()
    } else {
        match json::entry(entries, keys[i]) {
            Some(JsonView::Array(items)) => text_items(items),
            Some(JsonView::Text(s)) => dir_list(s),
            _ => first_list_of(entries, keys, i + 1),
        }
    }
}

fn value_text(v: &Json) -> (r: Option<String>)
    ensures
        text::opt_text(r) == text_value(v@),
{
    match v {
        Json::Text(s) => {
            if trimmed(&chars_of(s.as_str())).len() == 0 {
                None
            } else {
                Some(s.clone())
            }
        },
        Json::Number { text, unsigned } => Some(text.clone()),
        _ => None,
    }
}

fn json_pid(v: &Json) -> (r: Option<u32>)
    ensures
        r == pid_value(v@),
{
    match v {
        Json::Number { text, unsigned } => match unsigned {
            Some(n) => if 0 < *n && *n <= 0x7fff_ffff {
                Some(*n as u32)
            } else {
                None
            },
            None => None,
        },
        Json::Text(s) => parse_pid_token(&chars_of(s.as_str())),
        _ => None,
    }
}

fn first_string(entries: &Vec<(String, Json)>, keys: &Vec<&str>) -> (r: Option<String>)
    ensures
        text::opt_text(r) == first_text(json::entries_view(entries@), strs(keys@), 0),
{
    let ghost m = json::entries_view(entries@);
    let ghost names = strs(keys@);
    for i in 0..keys.len()
        invariant
            m == json::entries_view(entries@),
            names == strs(keys@),
            first_text(m, names, 0) == first_text(m, names, i as int),
    {
        assert(names[i as int] == keys@[i as int]@);
        match lookup(entries, keys[i]) {
            Some(v) => match value_text(v) {
                Some(s) => {
                    return Some(s);
                },
                None => {},
            },
            None => {},
        }
    }
    None
}

fn first_pid(entries: &Vec<(String, Json)>, keys: &Vec<&str>) -> (r: Option<u32>)
    ensures
        r == first_pid_of(json::entries_view(entries@), strs(keys@), 0),
{
    let ghost m = json::entries_view(entries@);
    let ghost names = strs(keys@);
    for i in 0..keys.len()
        invariant
            m == json::entries_view(entries@),
            names == strs(keys@),
            first_pid_of(m, names, 0) == first_pid_of(m, names, i as int),
    {
        assert(names[i as int] == keys@[i as int]@);
        match lookup(entries, keys[i]) {
            Some(v) => match json_pid(v) {
                Some(n) => {
                    return Some(n);
                },
                None => {},
            },
            None => {},
        }
    }
    None
}

fn texts_among(items: &Vec<Json>) -> (r: Vec<String>)
    ensures
        text::strings(r@) == text_items(json::items_view(items@)),
{
    let ghost all = json::items_view(items@);
    let mut out: Vec<String> = Vec::new();
    for i in 0..items.len()
        invariant
            all == json::items_view(items@),
            text::strings(out@) == text_items(all.take(i as int)),
    {
        proof {
            assert(all.take(i + 1).drop_last() == all.take(i as int));
            assert(all[i as int] == items@[i as int]@);
        }
        match &items[i] {
            Json::Text(s) => {
                let ghost before = text::strings(out@);
                out.push(s.clone());
                assert(text::strings(out@) == before.push(s@));
            },
            _ => {},
        }
    }
    assert(all.take(all.len() as int) == all);
    out
}

fn first_string_list(entries: &Vec<(String, Json)>, keys: &Vec<&str>) -> (r: Vec<String>)
    ensures
        text::strings(r@) == first_list_of(json::entries_view(entries@), strs(keys@), 0),
{
    let ghost m = json::entries_view(entries@);
    let ghost names = strs(keys@);
    for i in 0..keys.len()
        invariant
            m == json::entries_view(entries@),
            names == strs(keys@),
            first_list_of(m, names, 0) == first_list_of(m, names, i as int),
    {
        assert(names[i as int] == keys@[i as int]@);
        match lookup(entries, keys[i]) {
            Some(v) => {
                match v.as_array() {
                    Some(items) => {
                        return texts_among(items);
                    },
                    None => {},
                }
                match v {
                    Json::Text(s) => {
                        return split_dir_list(&chars_of(s.as_str()));
                    },
                    _ => {},
                }
            },
            None => {},
        }
    }
    Vec::new()
}

/// The keys of the id.
pub open spec fn id_keys() -> Seq<Seq<char>> {
    seq!["id"@, "runnerId"@, "runner_id"@, "name"@, "runner"@]
}

/// The keys of the process id.
pub open spec fn pid_keys() -> Seq<Seq<char>> {
    seq!["pid"@, "PID"@, "processId"@, "process_id"@]
}

/// The keys of the working directory.
pub open spec fn cwd_keys() -> Seq<Seq<char>> {
    seq!["cwd"@, "workdir"@, "workingDirectory"@, "working_directory"@]
}

/// The keys of the served directories.
pub open spec fn dirs_keys() -> Seq<Seq<char>> {
    seq!["dirs"@, "directories"@, "servedDirs"@, "served_dirs"@]
}

/// The keys of a single served directory.
pub open spec fn dir_keys() -> Seq<Seq<char>> {
    seq!["dir"@, "directory"@, "path"@]
}

/// The served directories of an entry: the list, else the single one, with the working
/// directory first unless it is there.
pub open spec fn json_served_dirs(
    entries: Seq<(Seq<char>, JsonView)>,
    cwd: Option<Seq<char>>,
) -> Seq<Seq<char>> {
    let list = first_list_of(entries, dirs_keys(), 0);
    let dirs = if list.len() == 0 {
        match first_text(entries, dir_keys(), 0) {
            Some(d) => seq![d],
            None => list,
        }
    } else {
        list
    };
    match cwd {
        Some(c) => if has_dir(dirs, c) {
            dirs
        } else {
            seq![c] + dirs
        },
        None => dirs,
    }
}

/// Whether there is anything to know a runner by.
pub open spec fn listed(r: RunnerView) -> bool {
    r.id.len() > 0 || r.pid is Some || r.dirs.len() > 0
}

/// The runner that a value stands for: an object that gives an id, a process id or a directory.
pub open spec fn json_runner(v: JsonView) -> Option<RunnerView> {
    match v {
        JsonView::Object(entries) => {
            let cwd = first_text(entries, cwd_keys(), 0);
            let r = RunnerView {
                id: match first_text(entries, id_keys(), 0) {
                    Some(s) => s,
                    None => Seq::empty(),
                },
                pid: first_pid_of(entries, pid_keys(), 0),
                cwd,
                dirs: json_served_dirs(entries, cwd),
                from_amp_list: true,
                from_local_scan: false,
            };
            if listed(r) {
                Some(r)
            } else {
                None
            }
        },
        _ => None,
    }
}

/// The runners that the items stand for.
pub open spec fn json_runners(items: Seq<JsonView>) -> Seq<RunnerView>
    decreases items.len(),
{
    if items.len() == 0 {
        Seq::empty()
    } else {
        match json_runner(items.last()) {
            Some(r) => json_runners(items.drop_last()).push(r),
            None => json_runners(items.drop_last()),
        }
    }
}

/// The items of a document: those of the array, or of the array under the first of `runners`,
/// `items` and `data` that is there, or the object itself.
pub open spec fn document_items(v: JsonView) -> Seq<JsonView> {
    match v {
        JsonView::Array(items) => items,
        JsonView::Object(entries) => {
            let under = match json::entry(entries, "runners"@) {
                Some(u) => Some(u),
                None => match json::entry(entries, "items"@) {
                    Some(u) => Some(u),
                    None => json::entry(entries, "data"@),
                },
            };
            match under {
                Some(JsonView::Array(items)) => items,
                _ => seq![v],
            }
        },
        _ => Seq::empty(),
    }
}

fn runner_from_json(value: &Json) -> (r: Option<Runner>)
    ensures
        match r {
            Some(x) => json_runner(value@) == Some(x@),
            None => json_runner(value@) is None,
        },
{
    let entries = match value.as_object() {
        Some(e) => e,
        None => {
            return None;
        },
    };
    let ghost m = json::entries_view(entries@);
    let k_id = vec!["id", "runnerId", "runner_id", "name", "runner"];
    let k_pid = vec!["pid", "PID", "processId", "process_id"];
    let k_cwd = vec!["cwd", "workdir", "workingDirectory", "working_directory"];
    let k_dirs = vec!["dirs", "directories", "servedDirs", "served_dirs"];
    let k_dir = vec!["dir", "directory", "path"];
    proof {
        assert(strs(k_id@) == id_keys());
        assert(strs(k_pid@) == pid_keys());
        assert(strs(k_cwd@) == cwd_keys());
        assert(strs(k_dirs@) == dirs_keys());
        assert(strs(k_dir@) == dir_keys());
    }
    let id = match first_string(entries, &k_id) {
        Some(s) => s,
        None => String::new(),
    };
    let pid = first_pid(entries, &k_pid);
    let cwd = first_string(entries, &k_cwd);
    let mut dirs = first_string_list(entries, &k_dirs);
    if dirs.len() == 0 {
        match first_string(entries, &k_dir) {
            Some(dir) => {
                dirs.push(dir);
                assert(text::strings(dirs@) == seq![dir@]);
            },
            None => {},
        }
    }
    match &cwd {
        Some(c) => {
            if !dir_listed(&dirs, c.as_str()) {
                let ghost before = text::strings(dirs@);
                dirs.insert(0, c.clone());
                assert(text::strings(dirs@) == seq![c@] + before);
            }
        },
        None => {},
    }
    assert(text::strings(dirs@) == json_served_dirs(m, text::opt_text(cwd)));
    if id.as_str().is_empty() && pid.is_none() && dirs.len() == 0 {
        return None;
    }
    Some(Runner { id, pid, cwd, dirs, from_amp_list: true, from_local_scan: false })
}

fn runners_from_items(items: &Vec<Json>) -> (r: Vec<Runner>)
    ensures
        runner::runners(r@) == json_runners(json::items_view(items@)),
{
    let ghost all = json::items_view(items@);
    let mut out: Vec<Runner> = Vec::new();
    for i in 0..items.len()
        invariant
            all == json::items_view(items@),
            runner::runners(out@) == json_runners(all.take(i as int)),
    {
        proof {
            assert(all.take(i + 1).drop_last() == all.take(i as int));
            assert(all[i as int] == items@[i as int]@);
        }
        match runner_from_json(&items[i]) {
            Some(x) => {
                let ghost before = runner::runners(out@);
                let ghost xv = x@;
                out.push(x);
                assert(runner::runners(out@) == before.push(xv));
            },
            None => {},
        }
    }
    assert(all.take(all.len() as int) == all);
    out
}

/// The runners of a document.
pub fn runners_from_document(value: &Json) -> (r: Vec<Runner>)
    ensures
        runner::runners(r@) == json_runners(document_items(value@)),
{
    match value.as_array() {
        Some(items) => {
            return runners_from_items(items);
        },
        None => {},
    }
    match value.as_object() {
        Some(entries) => {
            let under = match lookup(entries, "runners") {
                Some(u) => Some(u),
                None => match lookup(entries, "items") {
                    Some(u) => Some(u),
                    None => lookup(entries, "data"),
                },
            };
            match under {
                Some(u) => match u.as_array() {
                    Some(items) => {
                        return runners_from_items(items);
                    },
                    None => {},
                },
                None => {},
            }
            assert(document_items(value@) == seq![value@]);
            let mut out: Vec<Runner> = Vec::new();
            proof {
                reveal_with_fuel(json_runners, 2);
                assert(seq![value@].drop_last() == Seq::<JsonView>::empty());
            }
            match runner_from_json(value) {
                Some(x) => {
                    let ghost xv = x@;
                    out.push(x);
                    assert(runner::runners(out@) == seq![xv]);
                },
                None => {},
            }
            out
        },
        None => Vec::new(),
    }
}

/// Whether a text starts like a JSON object or array.
pub open spec fn json_start(s: Seq<char>) -> bool {
    let t = text::trim_start_by(s, Class::Space);
    text::begins(t, '{') || text::begins(t, '[')
}

/// Whether a text starts like a JSON object or array.
pub fn looks_like_json(s: &[char]) -> (r: bool)
    ensures
        r == json_start(s@),
{
    let t = trimmed_start_by(s, Class::Space);
    begins_with(t, '{') || begins_with(t, '[')
}

// ---------------------------------------------------------------------------------------------
// Text tables

/// The words that name the id column.
pub open spec fn is_id_word(w: Seq<char>) -> bool {
    w == "id"@ || w == "runner"@ || w == "runner-id"@ || w == "runner_id"@ || w == "name"@
}

fn is_text(s: &[char], w: &str) -> (r: bool)
    ensures
        r == (s@ == w@),
{
    same(s, &chars_of(w))
}

fn id_word(w: &[char]) -> (r: bool)
    ensures
        r == is_id_word(w@),
{
    is_text(w, "id") || is_text(w, "runner") || is_text(w, "runner-id") || is_text(w, "runner_id")
        || is_text(w, "name")
}

/// A line that only decorates a table: a rule, a title or a count.
pub open spec fn noise(line: Seq<char>) -> bool {
    let t = text::trim(line);
    ||| forall|i: int| 0 <= i < t.len() ==> #[trigger] t[i] == '-' || t[i] == '=' || t[i] == ' '
    ||| text::same_but_case(t, "runners"@)
    ||| text::has_suffix(text::lower_text(t), " runner(s)"@)
    ||| text::has_suffix(text::lower_text(t), " runners"@)
}

fn only_rule(t: &[char]) -> (r: bool)
    ensures
        r == (forall|i: int|
            0 <= i < t@.len() ==> #[trigger] t@[i] == '-' || t@[i] == '=' || t@[i] == ' '),
{
    for i in 0..t.len()
        invariant
            forall|j: int|
                0 <= j < i ==> #[trigger] t@[j] == '-' || t@[j] == '=' || t@[j] == ' ',
    {
        if !(t[i] == '-' || t[i] == '=' || t[i] == ' ') {
            return false;
        }
    }
    true
}

fn is_noise_line(line: &[char]) -> (r: bool)
    ensures
        r == noise(line@),
{
    let t = trimmed(line);
    let low = lower(t);
    only_rule(t) || same_ignoring_case(t, &chars_of("runners")) || ends_with(
        &low,
        &chars_of(" runner(s)"),
    ) || ends_with(&low, &chars_of(" runners"))
}

/// Whether a word of the line, without colons and commas around it, names the id column.
pub open spec fn names_id(ws: Seq<Seq<char>>) -> bool {
    exists|i: int|
        0 <= i < ws.len() && is_id_word(text::trim_by(#[trigger] ws[i], Class::ColonOrComma))
}

/// Whether a word of the line names another column.
pub open spec fn names_other(ws: Seq<Seq<char>>) -> bool {
    exists|i: int| 0 <= i < ws.len() && other_word(#[trigger] ws[i])
}

/// A word that holds the name of another column.
pub open spec fn other_word(w: Seq<char>) -> bool {
    text::contains_text(w, "pid"@) || text::contains_text(w, "dir"@) || text::contains_text(
        w,
        "cwd"@,
    ) || text::contains_text(w, "path"@)
}

/// A line of column names: one for the id and one more.
pub open spec fn header_line(line: Seq<char>) -> bool {
    let ws = text::words(text::lower_text(line));
    names_id(ws) && names_other(ws)
}

fn looks_like_header(line: &[char]) -> (r: bool)
    ensures
        r == header_line(line@),
{
    let ws = split_words(&lower(line));
    let ghost all = text::words(text::lower_text(line@));
    let mut has_id: bool = false;
    let mut has_other: bool = false;
    let k_pid = chars_of("pid");
    let k_dir = chars_of("dir");
    let k_cwd = chars_of("cwd");
    let k_path = chars_of("path");
    for i in 0..ws.len()
        invariant
            all == text::texts(ws@),
            k_pid@ == "pid"@,
            k_dir@ == "dir"@,
            k_cwd@ == "cwd"@,
            k_path@ == "path"@,
            has_id == (exists|j: int|
                0 <= j < i && is_id_word(text::trim_by(#[trigger] all[j], Class::ColonOrComma))),
            has_other == (exists|j: int| 0 <= j < i && other_word(#[trigger] all[j])),
    {
        assert(all[i as int] == ws@[i as int]@);
        if id_word(trimmed_by(&ws[i], Class::ColonOrComma)) {
            has_id = true;
        }
        if contains(&ws[i], &k_pid) || contains(&ws[i], &k_dir) || contains(&ws[i], &k_cwd)
            || contains(&ws[i], &k_path) {
            has_other = true;
        }
    }
    has_id && has_other
}

/// The columns of the parts: what two spaces or more keep apart, without the blank ones.
pub open spec fn part_columns(parts: Seq<Seq<char>>) -> Seq<Seq<char>>
    decreases parts.len(),
{
    if parts.len() == 0 {
        Seq::empty()
    } else {
        part_columns(parts.drop_last()) + text::nonblank_texts(
            text::split_at_text(parts.last(), "  "@),
        )
    }
}

/// The columns of a line: tabs, bars and double spaces keep them apart.
pub open spec fn columns(line: Seq<char>) -> Seq<Seq<char>> {
    part_columns(text::split_by(line, Class::TabOrBar))
}

fn split_columns(line: &[char]) -> (r: Vec<Vec<char>>)
    ensures
        text::texts(r@) == columns(line@),
{
    let parts = split(line, Class::TabOrBar);
    let ghost all = text::texts(parts@);
    let gap = chars_of("  ");
    proof {
        reveal_strlit("  ");
    }
    let mut out: Vec<Vec<char>> = Vec::new();
    for i in 0..parts.len()
        invariant
            gap@ == "  "@,
            gap@.len() > 0,
            all == text::texts(parts@),
            text::texts(out@) == part_columns(all.take(i as int)),
    {
        proof {
            assert(all.take(i + 1).drop_last() == all.take(i as int));
            assert(all[i as int] == parts@[i as int]@);
        }
        let ghost before = text::texts(out@);
        let mut found = keep_nonblank(&split_text(&parts[i], &gap));
        let ghost f = text::texts(found@);
        out.append(&mut found);
        assert(text::texts(out@) == before + f);
    }
    assert(all.take(all.len() as int) == all);
    out
}

/// A text that is a path on its face.
pub open spec fn path_like(t: Seq<char>) -> bool {
    text::begins(t, '/') || text::has_prefix(t, "~/"@) || t == "~"@
}

/// The tokens that are paths, without the quotes around them.
pub open spec fn path_tokens(tokens: Seq<Seq<char>>) -> Seq<Seq<char>>
    decreases tokens.len(),
{
    if tokens.len() == 0 {
        Seq::empty()
    } else {
        let t = text::trim_by(text::trim(tokens.last()), Class::Quote);
        if path_like(t) {
            path_tokens(tokens.drop_last()).push(t)
        } else {
            path_tokens(tokens.drop_last())
        }
    }
}

/// The paths in a line: its tokens that are paths, else the list between the first colon and
/// the next.
pub open spec fn paths_in(line: Seq<char>) -> Seq<Seq<char>> {
    let found = path_tokens(text::split_by(line, Class::SpaceOrComma));
    let parts = text::split_by(line, Class::Colon);
    if found.len() == 0 && parts.len() > 1 {
        dir_list(parts[1])
    } else {
        found
    }
}

fn extract_paths(line: &[char]) -> (r: Vec<String>)
    ensures
        text::strings(r@) == paths_in(line@),
{
    let tokens = split(line, Class::SpaceOrComma);
    let ghost all = text::texts(tokens@);
    let home_slash = chars_of("~/");
    let mut dirs: Vec<String> = Vec::new();
    for i in 0..tokens.len()
        invariant
            home_slash@ == "~/"@,
            all == text::texts(tokens@),
            text::strings(dirs@) == path_tokens(all.take(i as int)),
    {
        proof {
            assert(all.take(i + 1).drop_last() == all.take(i as int));
            assert(all[i as int] == tokens@[i as int]@);
        }
        let t = trimmed_by(trimmed(&tokens[i]), Class::Quote);
        if begins_with(t, '/') || starts_with(t, &home_slash) || is_text(t, "~") {
            let ghost before = text::strings(dirs@);
            dirs.push(string_of(t));
            assert(text::strings(dirs@) == before.push(t@));
        }
    }
    assert(all.take(all.len() as int) == all);
    if dirs.len() == 0 {
        let parts = split(line, Class::Colon);
        if parts.len() > 1 {
            assert(text::texts(parts@)[1] == parts@[1]@);
            return split_dir_list(&parts[1]);
        }
    }
    dirs
}

/// The first run of digits in a text.
pub open spec fn first_digits(s: Seq<char>) -> Option<Seq<char>> {
    let runs = text::nonempty_texts(text::split_by(s, Class::NotDigit));
    if runs.len() > 0 {
        Some(runs[0])
    } else {
        None
    }
}

/// The process id in what follows a key.
pub open spec fn pid_after(line: Seq<char>, at: int) -> Option<u32> {
    match first_digits(line.skip(at)) {
        Some(d) => pid_token(d),
        None => None,
    }
}

/// The process id in a line: the digits after the first `pid=`, else after the first `pid:`,
/// else after the first `pid` with a space.
pub open spec fn pid_in(line: Seq<char>) -> Option<u32> {
    let low = text::lower_text(line);
    match text::find_text(low, "pid="@) {
        Some(i) => pid_after(line, i + 4),
        None => match text::find_text(low, "pid:"@) {
            Some(i) => pid_after(line, i + 4),
            None => match text::find_text(low, "pid "@) {
                Some(i) => pid_after(line, i + 4),
                None => None,
            },
        },
    }
}

fn pid_from(line: &[char], at: usize) -> (r: Option<u32>)
    requires
        at <= line@.len(),
    ensures
        r == pid_after(line@, at as int),
{
    let rest = slice_subrange(line, at, line.len());
    assert(rest@ == line@.skip(at as int));
    let runs = crate::text::keep_nonempty(&split(rest, Class::NotDigit));
    if runs.len() > 0 {
        assert(text::texts(runs@)[0] == runs@[0]@);
        parse_pid_token(&runs[0])
    } else {
        None
    }
}

fn extract_pid(line: &[char]) -> (r: Option<u32>)
    ensures
        r == pid_in(line@),
{
    let low = lower(line);
    let n: usize = low.len();
    proof {
        assert(n == line@.len());
        reveal_strlit("pid=");
        reveal_strlit("pid:");
        reveal_strlit("pid ");
    }
    match find(&low, &chars_of("pid=")) {
        Some(i) => {
            return pid_from(line, i + 4);
        },
        None => {},
    }
    match find(&low, &chars_of("pid:")) {
        Some(i) => {
            return pid_from(line, i + 4);
        },
        None => {},
    }
    match find(&low, &chars_of("pid ")) {
        Some(i) => pid_from(line, i + 4),
        None => None,
    }
}

/// A token that can be an id: no path, no list, no number and no setting.
pub open spec fn id_token(t: Seq<char>) -> bool {
    !text::begins(t, '/') && !text::begins(t, '~') && !t.contains(',') && !text::all_digits(t)
        && !t.contains('=')
}

/// The first token from `i` on that can be an id, without colons and commas around it.
pub open spec fn first_id(ws: Seq<Seq<char>>, i: int) -> Seq<char>
    decreases ws.len() - i,
{
    if i < 0 || i >= ws.len() {
        Seq::empty()
    } else if id_token(ws[i]) {
        text::trim_by(ws[i], Class::ColonOrComma)
    } else {
        first_id(ws, i + 1)
    }
}

/// The id that a line without columns gives: among the words before any `pid`.
pub open spec fn inferred_id(line: Seq<char>) -> Seq<char> {
    first_id(text::words(text::before_text(text::before_text(line, "pid"@), "PID"@)), 0)
}

fn infer_id_from_line(line: &[char]) -> (r: String)
    ensures
        r@ == inferred_id(line@),
{
    let ws = split_words(before(before(line, &chars_of("pid")), &chars_of("PID")));
    let ghost all = text::texts(ws@);
    for i in 0..ws.len()
        invariant
            all == text::texts(ws@),
            inferred_id(line@) == first_id(all, i as int),
    {
        let t = &ws[i];
        assert(all[i as int] == t@);
        if !(begins_with(t, '/') || begins_with(t, '~') || has_char(t, ',') || only_digits(t)
            || has_char(t, '=')) {
            return string_of(trimmed_by(t, Class::ColonOrComma));
        }
    }
    String::new()
}

/// A listed runner that nothing is known of.
pub open spec fn blank_row() -> RunnerView {
    RunnerView {
        id: Seq::empty(),
        pid: None,
        cwd: None,
        dirs: Seq::empty(),
        from_amp_list: true,
        from_local_scan: false,
    }
}

/// What one column adds: the id, the process id or directories, by the name of the column.
pub open spec fn with_column(r: RunnerView, name: Seq<char>, value: Seq<char>) -> RunnerView {
    let h = text::lower_text(name);
    if is_id_word(h) {
        RunnerView { id: value, ..r }
    } else if text::contains_text(h, "pid"@) {
        RunnerView { pid: pid_token(value), ..r }
    } else if text::contains_text(h, "dir"@) || text::contains_text(h, "path"@)
        || text::contains_text(h, "cwd"@) {
        RunnerView { dirs: r.dirs + dir_list(value), ..r }
    } else {
        r
    }
}

/// What the first `n` columns add.
pub open spec fn with_columns(names: Seq<Seq<char>>, values: Seq<Seq<char>>, n: int) -> RunnerView
    decreases n,
{
    if n <= 0 {
        blank_row()
    } else {
        with_column(with_columns(names, values, n - 1), names[n - 1], values[n - 1])
    }
}

/// The lesser of two numbers.
pub open spec fn lesser(a: nat, b: nat) -> nat {
    if a < b {
        a
    } else {
        b
    }
}

/// The row that a line gives under the column names, where there are any.
pub open spec fn table_row(line: Seq<char>, header: Option<Seq<Seq<char>>>) -> RunnerView {
    match header {
        Some(names) => with_columns(
            names,
            columns(line),
            lesser(names.len(), columns(line).len()) as int,
        ),
        None => blank_row(),
    }
}

fn runner_from_text_line(line: &[char], header: &Option<Vec<Vec<char>>>) -> (r: Runner)
    ensures
        r@ == table_row(
            line@,
            match *header {
                Some(h) => Some(text::texts(h@)),
                None => None,
            },
        ),
{
    let mut r = Runner {
        id: String::new(),
        pid: None,
        cwd: None,
        dirs: Vec::new(),
        from_amp_list: true,
        from_local_scan: false,
    };
    assert(r@ == blank_row());
    match header {
        Some(headers) => {
            let cols = split_columns(line);
            let n: usize = if headers.len() < cols.len() {
                headers.len()
            } else {
                cols.len()
            };
            let ghost names = text::texts(headers@);
            let ghost values = text::texts(cols@);
            let k_pid = chars_of("pid");
            let k_dir = chars_of("dir");
            let k_cwd = chars_of("cwd");
            let k_path = chars_of("path");
            for i in 0..n
                invariant
                    n <= headers@.len(),
                    n <= cols@.len(),
                    names == text::texts(headers@),
                    values == text::texts(cols@),
                    k_pid@ == "pid"@,
                    k_dir@ == "dir"@,
                    k_cwd@ == "cwd"@,
                    k_path@ == "path"@,
                    r@ == with_columns(names, values, i as int),
            {
                let h = lower(&headers[i]);
                let value = &cols[i];
                assert(names[i as int] == headers@[i as int]@);
                assert(values[i as int] == value@);
                if id_word(&h) {
                    r.id = string_of(value);
                } else if contains(&h, &k_pid) {
                    r.pid = parse_pid_token(value);
                } else if contains(&h, &k_dir) || contains(&h, &k_path) || contains(&h, &k_cwd) {
                    let ghost before = text::strings(r.dirs@);
                    let mut more = split_dir_list(value);
                    let ghost m = text::strings(more@);
                    r.dirs.append(&mut more);
                    assert(text::strings(r.dirs@) == before + m);
                }
                assert(r@ == with_columns(names, values, i + 1));
            }
        },
        None => {},
    }
    r
}

/// A new runner from a line that is not indented.
pub open spec fn row(line: Seq<char>, header: Option<Seq<Seq<char>>>) -> RunnerView {
    let r = table_row(line, header);
    RunnerView {
        id: if r.id.len() == 0 {
            inferred_id(line)
        } else {
            r.id
        },
        pid: if r.pid is None {
            pid_in(line)
        } else {
            r.pid
        },
        dirs: if r.dirs.len() == 0 {
            paths_in(line)
        } else {
            r.dirs
        },
        ..r
    }
}

/// A runner with what an indented line below it adds.
pub open spec fn continued(r: RunnerView, line: Seq<char>) -> RunnerView {
    RunnerView {
        dirs: with_dirs(r.dirs, paths_in(line)),
        pid: if r.pid is None {
            pid_in(line)
        } else {
            r.pid
        },
        ..r
    }
}

/// What is known after some lines of a table.
#[verifier::ext_equal]
pub struct TableView {
    pub done: Seq<RunnerView>,
    pub current: Option<RunnerView>,
    pub header: Option<Seq<Seq<char>>>,
}

/// All runners read so far.
pub open spec fn all_rows(t: TableView) -> Seq<RunnerView> {
    match t.current {
        Some(r) => t.done.push(r),
        None => t.done,
    }
}

/// What one more line does: nothing where it is blank or decoration; else it names the columns,
/// adds to the runner above it where it is indented, or starts a new runner.
pub open spec fn with_line(t: TableView, raw: Seq<char>) -> TableView {
    let line = text::trim_end_by(raw, Class::Space);
    if text::trim(line).len() == 0 || noise(line) {
        t
    } else if header_line(line) {
        TableView { header: Some(columns(line)), ..t }
    } else if text::begins(raw, ' ') || text::begins(raw, '\t') {
        match t.current {
            Some(r) => TableView { current: Some(continued(r, line)), ..t },
            None => t,
        }
    } else {
        TableView { done: all_rows(t), current: Some(row(line, t.header)), ..t }
    }
}

/// What is known after all the lines.
pub open spec fn table(lines: Seq<Seq<char>>) -> TableView
    decreases lines.len(),
{
    if lines.len() == 0 {
        TableView { done: Seq::empty(), current: None, header: None }
    } else {
        with_line(table(lines.drop_last()), lines.last())
    }
}

/// The runners that there is anything to know by.
pub open spec fn only_listed(rows: Seq<RunnerView>) -> Seq<RunnerView>
    decreases rows.len(),
{
    if rows.len() == 0 {
        Seq::empty()
    } else if listed(rows.last()) {
        only_listed(rows.drop_last()).push(rows.last())
    } else {
        only_listed(rows.drop_last())
    }
}

/// The runners of a table.
pub open spec fn text_runners(output: Seq<char>) -> Seq<RunnerView> {
    only_listed(all_rows(table(text::lines_of(output))))
}

struct Table {
    done: Vec<Runner>,
    current: Option<Runner>,
    header: Option<Vec<Vec<char>>>,
}

impl View for Table {
    type V = TableView;

    closed spec fn view(&self) -> TableView {
        TableView {
            done: runner::runners(self.done@),
            current: match self.current {
                Some(r) => Some(r@),
                None => None,
            },
            header: match self.header {
                Some(h) => Some(text::texts(h@)),
                None => None,
            },
        }
    }
}

impl Table {
    fn finish_row(&mut self)
        ensures
            final(self)@ == (TableView { done: all_rows(old(self)@), current: None, ..old(self)@ }),
    {
        match self.current.take() {
            Some(r) => {
                let ghost before = runner::runners(self.done@);
                let ghost rv = r@;
                self.done.push(r);
                assert(runner::runners(self.done@) == before.push(rv));
            },
            None => {},
        }
    }

    fn read_line(&mut self, raw: &[char])
        ensures
            final(self)@ == with_line(old(self)@, raw@),
    {
        let line = trimmed_end_by(raw, Class::Space);
        if trimmed(line).len() == 0 || is_noise_line(line) {
            return ;
        }
        if looks_like_header(line) {
            self.header = Some(split_columns(line));
            return ;
        }
        if begins_with(raw, ' ') || begins_with(raw, '\t') {
            match self.current.take() {
                Some(mut r) => {
                    push_unique_dirs(&mut r.dirs, &extract_paths(line));
                    if r.pid.is_none() {
                        r.pid = extract_pid(line);
                    }
                    self.current = Some(r);
                },
                None => {},
            }
            return ;
        }
        self.finish_row();
        let mut r = runner_from_text_line(line, &self.header);
        if r.dirs.len() == 0 {
            r.dirs = extract_paths(line);
        }
        if r.pid.is_none() {
            r.pid = extract_pid(line);
        }
        if r.id.as_str().is_empty() {
            r.id = infer_id_from_line(line);
        }
        self.current = Some(r);
    }
}

/// Heuristic parser for human-readable `amp runner list` tables.
pub fn parse_runner_text(output: &str) -> (r: Vec<Runner>)
    ensures
        runner::runners(r@) == text_runners(output@),
{
    let ls = lines(&chars_of(output));
    let ghost all = text::texts(ls@);
    let mut t = Table { done: Vec::new(), current: None, header: None };
    assert(t@ == table(all.take(0)));
    for i in 0..ls.len()
        invariant
            all == text::texts(ls@),
            t@ == table(all.take(i as int)),
    {
        assert(all.take(i + 1).drop_last() == all.take(i as int));
        t.read_line(&ls[i]);
    }
    assert(all.take(all.len() as int) == all);
    t.finish_row();
    let ghost rows = runner::runners(t.done@);
    let mut out: Vec<Runner> = Vec::new();
    for i in 0..t.done.len()
        invariant
            rows == runner::runners(t.done@),
            runner::runners(out@) == only_listed(rows.take(i as int)),
    {
        proof {
            assert(rows.take(i + 1).drop_last() == rows.take(i as int));
            assert(rows[i as int] == t.done@[i as int]@);
        }
        let x = &t.done[i];
        if !x.id.as_str().is_empty() || x.pid.is_some() || x.dirs.len() > 0 {
            let ghost before = runner::runners(out@);
            out.push(x.duplicate());
            assert(runner::runners(out@) == before.push(x@));
        }
    }
    assert(rows.take(rows.len() as int) == rows);
    out
}

/// Why a runner list could not be read.
#[derive(Debug, PartialEq, Eq)]
pub enum ListError {
    /// The output starts like JSON and is none; what the parser says.
    NotJson(String),
}

impl ListError {
    /// The message with its cause.
    pub open spec fn text(self) -> Seq<char> {
        match self {
            ListError::NotJson(detail) => "amp runner list --json is not JSON: "@ + detail@,
        }
    }

    /// The message with its cause.
    pub fn message(&self) -> (r: String)
        ensures
            r@ == self.text(),
    {
        match self {
            ListError::NotJson(detail) => {
                let mut out = "amp runner list --json is not JSON: ".to_owned();
                out.append(detail.as_str());
                out
            },
        }
    }
}

/// The runners that an output lists, as JSON where it starts like it, else as text; or what the
/// JSON parser says.
pub open spec fn runner_list(output: Seq<char>) -> Result<Seq<RunnerView>, Seq<char>> {
    let t = text::trim(output);
    if t.len() == 0 {
        Ok(Seq::empty())
    } else if json_start(t) {
        match json::json_document(t) {
            Ok(v) => Ok(json_runners(document_items(v))),
            Err(e) => Err(e),
        }
    } else {
        Ok(text_runners(output))
    }
}

/// Parse `amp runner list` stdout (JSON or text).
pub fn parse_runner_list(output: &str) -> (r: Result<Vec<Runner>, ListError>)
    ensures
        match r {
            Ok(v) => runner_list(output@) == Ok::<Seq<RunnerView>, Seq<char>>(
                runner::runners(v@),
            ),
            Err(ListError::NotJson(detail)) => runner_list(output@) == Err::<
                Seq<RunnerView>,
                Seq<char>,
            >(detail@),
        },
{
    let chars = chars_of(output);
    let t = trimmed(&chars);
    if t.len() == 0 {
        let out: Vec<Runner> = Vec::new();
        assert(runner::runners(out@) == Seq::<RunnerView>::empty());
        return Ok(out);
    }
    if looks_like_json(t) {
        let raw = string_of(t);
        return match parse_json(raw.as_str()) {
            Ok(v) => Ok(runners_from_document(&v)),
            Err(e) => Err(ListError::NotJson(e)),
        };
    }
    Ok(parse_runner_text(output))
}

// ---------------------------------------------------------------------------------------------
// Served directories

/// A title line of a directory list.
pub open spec fn dirs_header(line: Seq<char>) -> bool {
    let l = text::lower_text(line);
    l == "dir"@ || l == "dirs"@ || l == "directory"@ || l == "directories"@ || l == "path"@ || l
        == "paths"@
}

fn looks_like_dirs_header(line: &[char]) -> (r: bool)
    ensures
        r == dirs_header(line@),
{
    let l = lower(line);
    is_text(&l, "dir") || is_text(&l, "dirs") || is_text(&l, "directory") || is_text(
        &l,
        "directories",
    ) || is_text(&l, "path") || is_text(&l, "paths")
}

/// A line that is a directory: no title, and it starts like a path.
pub open spec fn dir_line(line: Seq<char>) -> bool {
    !dirs_header(line) && (text::begins(line, '/') || text::begins(line, '~') || text::begins(
        line,
        '.',
    ))
}

/// The lines that are directories.
pub open spec fn dir_lines(lines: Seq<Seq<char>>) -> Seq<Seq<char>>
    decreases lines.len(),
{
    if lines.len() == 0 {
        Seq::empty()
    } else if dir_line(lines.last()) {
        dir_lines(lines.drop_last()).push(lines.last())
    } else {
        dir_lines(lines.drop_last())
    }
}

/// The path keys of an item of a directory list.
pub open spec fn item_path_keys() -> Seq<Seq<char>> {
    seq!["path"@, "dir"@, "directory"@]
}

/// The list keys of a directory document.
pub open spec fn document_list_keys() -> Seq<Seq<char>> {
    seq!["dirs"@, "directories"@, "paths"@]
}

/// The directory that an item stands for.
pub open spec fn item_dir(v: JsonView) -> Option<Seq<char>> {
    match v {
        JsonView::Text(s) => Some(s),
        JsonView::Object(entries) => first_text(entries, item_path_keys(), 0),
        _ => None,
    }
}

/// The directories that the items stand for.
pub open spec fn item_dirs(items: Seq<JsonView>) -> Seq<Seq<char>>
    decreases items.len(),
{
    if items.len() == 0 {
        Seq::empty()
    } else {
        match item_dir(items.last()) {
            Some(d) => item_dirs(items.drop_last()).push(d),
            None => item_dirs(items.drop_last()),
        }
    }
}

/// The directories of a document.
pub open spec fn document_dirs(v: JsonView) -> Seq<Seq<char>> {
    match v {
        JsonView::Array(items) => item_dirs(items),
        JsonView::Object(entries) => first_list_of(entries, document_list_keys(), 0),
        _ => Seq::empty(),
    }
}

fn dir_of_item(v: &Json) -> (r: Option<String>)
    ensures
        text::opt_text(r) == item_dir(v@),
{
    match v.as_object() {
        Some(entries) => {
            let keys = vec!["path", "dir", "directory"];
            assert(strs(keys@) == item_path_keys());
            return first_string(entries, &keys);
        },
        None => {},
    }
    match v {
        Json::Text(s) => Some(s.clone()),
        _ => None,
    }
}

/// The directories of a document.
pub fn json_dirs(value: &Json) -> (r: Vec<String>)
    ensures
        text::strings(r@) == document_dirs(value@),
{
    match value.as_array() {
        Some(items) => {
            let ghost all = json::items_view(items@);
            let mut out: Vec<String> = Vec::new();
            for i in 0..items.len()
                invariant
                    all == json::items_view(items@),
                    text::strings(out@) == item_dirs(all.take(i as int)),
            {
                proof {
                    assert(all.take(i + 1).drop_last() == all.take(i as int));
                    assert(all[i as int] == items@[i as int]@);
                }
                match dir_of_item(&items[i]) {
                    Some(d) => {
                        let ghost before = text::strings(out@);
                        out.push(d);
                        assert(text::strings(out@) == before.push(d@));
                    },
                    None => {},
                }
            }
            assert(all.take(all.len() as int) == all);
            return out;
        },
        None => {},
    }
    match value.as_object() {
        Some(entries) => {
            let keys = vec!["dirs", "directories", "paths"];
            assert(strs(keys@) == document_list_keys());
            first_string_list(entries, &keys)
        },
        None => Vec::new(),
    }
}

/// The directories that a text lists, one on a line.
pub open spec fn text_dirs(output: Seq<char>) -> Seq<Seq<char>> {
    dir_lines(text::nonblank_texts(text::lines_of(output)))
}

/// The directories that an output lists: as JSON where it is, else as text.
pub open spec fn dirs_listed(output: Seq<char>) -> Seq<Seq<char>> {
    let t = text::trim(output);
    if json_start(t) {
        match json::json_document(t) {
            Ok(v) => document_dirs(v),
            Err(_) => text_dirs(output),
        }
    } else {
        text_dirs(output)
    }
}

fn parse_dirs_text(output: &[char]) -> (r: Vec<String>)
    ensures
        text::strings(r@) == text_dirs(output@),
{
    let ls = keep_nonblank(&lines(output));
    let ghost all = text::texts(ls@);
    let mut out: Vec<String> = Vec::new();
    for i in 0..ls.len()
        invariant
            all == text::texts(ls@),
            text::strings(out@) == dir_lines(all.take(i as int)),
    {
        proof {
            assert(all.take(i + 1).drop_last() == all.take(i as int));
            assert(all[i as int] == ls@[i as int]@);
        }
        let l = &ls[i];
        if !looks_like_dirs_header(l) && (begins_with(l, '/') || begins_with(l, '~')
            || begins_with(l, '.')) {
            let ghost before = text::strings(out@);
            out.push(string_of(l));
            assert(text::strings(out@) == before.push(l@));
        }
    }
    assert(all.take(all.len() as int) == all);
    out
}

/// Parse `amp runner dirs list` stdout.
pub fn parse_dirs_list(output: &str) -> (r: Vec<String>)
    ensures
        text::strings(r@) == dirs_listed(output@),
{
    let chars = chars_of(output);
    let t = trimmed(&chars);
    if looks_like_json(t) {
        let raw = string_of(t);
        match parse_json(raw.as_str()) {
            Ok(v) => {
                return json_dirs(&v);
            },
            Err(_) => {},
        }
    }
    parse_dirs_text(&chars)
}

// ---------------------------------------------------------------------------------------------
// Laws of the runner list

/// Whether a line of a table says nothing: it is blank, or it only decorates.
pub open spec fn decoration(raw: Seq<char>) -> bool {
    let line = text::trim_end_by(raw, Class::Space);
    text::trim(line).len() == 0 || noise(line)
}

/// A line that is blank or only decorates changes nothing, wherever in a table it stands.
pub proof fn decoration_changes_nothing(
    above: Seq<Seq<char>>,
    line: Seq<char>,
    below: Seq<Seq<char>>,
)
    requires
        decoration(line),
    ensures
        table(above.push(line) + below) == table(above + below),
    decreases below.len(),
{
    if below.len() == 0 {
        assert(above.push(line) + below == above.push(line));
        assert(above + below == above);
        assert(above.push(line).drop_last() == above);
    } else {
        let front = below.drop_last();
        decoration_changes_nothing(above, line, front);
        assert((above.push(line) + below).drop_last() == above.push(line) + front);
        assert((above + below).drop_last() == above + front);
    }
}

/// What holds of every listed runner: Amp listed it, no scan found it, and its process id, where
/// it has one, is a positive one of 32 bits.
pub open spec fn from_list(r: RunnerView) -> bool {
    r.from_amp_list && !r.from_local_scan && (r.pid is Some ==> valid_pid(r.pid->0 as int))
}

proof fn lemma_with_columns(names: Seq<Seq<char>>, values: Seq<Seq<char>>, n: int)
    ensures
        from_list(with_columns(names, values, n)),
    decreases n,
{
    if n > 0 {
        lemma_with_columns(names, values, n - 1);
    }
}

proof fn lemma_row(line: Seq<char>, header: Option<Seq<Seq<char>>>)
    ensures
        from_list(row(line, header)),
{
    match header {
        Some(names) => lemma_with_columns(
            names,
            columns(line),
            lesser(names.len(), columns(line).len()) as int,
        ),
        None => {},
    }
}

proof fn lemma_table(lines: Seq<Seq<char>>)
    ensures
        forall|i: int|
            0 <= i < all_rows(table(lines)).len() ==> from_list(
                #[trigger] all_rows(table(lines))[i],
            ),
    decreases lines.len(),
{
    if lines.len() > 0 {
        lemma_table(lines.drop_last());
        let before = table(lines.drop_last());
        let line = text::trim_end_by(lines.last(), Class::Space);
        lemma_row(line, before.header);
        let after = table(lines);
        assert forall|i: int| 0 <= i < all_rows(after).len() implies from_list(
            #[trigger] all_rows(after)[i],
        ) by {
            if i < all_rows(before).len() {
                assert(from_list(all_rows(before)[i]));
            }
        }
    }
}

proof fn lemma_only_listed(rows: Seq<RunnerView>)
    requires
        forall|i: int| 0 <= i < rows.len() ==> from_list(#[trigger] rows[i]),
    ensures
        forall|i: int|
            0 <= i < only_listed(rows).len() ==> from_list(#[trigger] only_listed(rows)[i])
                && listed(only_listed(rows)[i]),
    decreases rows.len(),
{
    if rows.len() > 0 {
        let front = rows.drop_last();
        assert forall|i: int| 0 <= i < front.len() implies from_list(#[trigger] front[i]) by {
            assert(front[i] == rows[i]);
        }
        lemma_only_listed(front);
        assert(from_list(rows[rows.len() - 1]));
        let out = only_listed(rows);
        assert forall|i: int| 0 <= i < out.len() implies from_list(#[trigger] out[i]) && listed(
            out[i],
        ) by {
            if i < only_listed(front).len() {
                assert(out[i] == only_listed(front)[i]);
            }
        }
    }
}

proof fn lemma_first_pid(entries: Seq<(Seq<char>, JsonView)>, keys: Seq<Seq<char>>, i: int)
    ensures
        first_pid_of(entries, keys, i) is Some ==> valid_pid(
            first_pid_of(entries, keys, i)->0 as int,
        ),
    decreases keys.len() - i,
{
    if 0 <= i < keys.len() {
        lemma_first_pid(entries, keys, i + 1);
    }
}

proof fn lemma_json_runners(items: Seq<JsonView>)
    ensures
        forall|i: int|
            0 <= i < json_runners(items).len() ==> from_list(#[trigger] json_runners(items)[i])
                && listed(json_runners(items)[i]),
    decreases items.len(),
{
    if items.len() > 0 {
        lemma_json_runners(items.drop_last());
        match items.last() {
            JsonView::Object(entries) => lemma_first_pid(entries, pid_keys(), 0),
            _ => {},
        }
        let front = json_runners(items.drop_last());
        let out = json_runners(items);
        assert forall|i: int| 0 <= i < out.len() implies from_list(#[trigger] out[i]) && listed(
            out[i],
        ) by {
            if i < front.len() {
                assert(out[i] == front[i]);
            }
        }
    }
}

/// Every runner of a list can be told by an id, a process id or a directory, and no process id is
/// one that a signal could not go to.
pub proof fn listed_runners_are_sound(output: Seq<char>, i: int)
    ensures
        match runner_list(output) {
            Ok(v) => 0 <= i < v.len() ==> from_list(v[i]) && listed(v[i]),
            Err(_) => true,
        },
{
    let t = text::trim(output);
    if t.len() > 0 {
        if json_start(t) {
            match json::json_document(t) {
                Ok(v) => lemma_json_runners(document_items(v)),
                Err(_) => {},
            }
        } else {
            lemma_table(text::lines_of(output));
            lemma_only_listed(all_rows(table(text::lines_of(output))));
        }
    }
}

/// No directory is listed twice when directories are added one by one to a list without
/// repetitions.
pub proof fn added_dirs_stay_distinct(dirs: Seq<Seq<char>>, more: Seq<Seq<char>>)
    requires
        distinct_dirs(dirs),
    ensures
        distinct_dirs(with_dirs(dirs, more)),
    decreases more.len(),
{
    if more.len() > 0 {
        added_dirs_stay_distinct(dirs, more.drop_last());
    }
}

/// Whether no two entries are the same path.
pub open spec fn distinct_dirs(dirs: Seq<Seq<char>>) -> bool {
    forall|i: int, j: int|
        0 <= i < j < dirs.len() ==> !path::same_path_text(#[trigger] dirs[i], #[trigger] dirs[j])
}

/// Whether a stretch of a text is one whole part of it, between two characters of a class or the
/// ends.
pub open spec fn whole_part(s: Seq<char>, k: Class, i: int, j: int) -> bool {
    &&& 0 <= i <= j <= s.len()
    &&& forall|m: int| i <= m < j ==> !k.has(#[trigger] s[m])
    &&& i == 0 || k.has(s[i - 1])
    &&& j == s.len() || k.has(s[j])
}

proof fn lemma_part(s: Seq<char>, k: Class, i: int, j: int) -> (m: int)
    requires
        whole_part(s, k, i, j),
    ensures
        0 <= m < text::split_by(s, k).len(),
        text::split_by(s, k)[m] == s.subrange(i, j),
        j < s.len() ==> m < text::split_by(s, k).len() - 1,
        j == s.len() ==> m == text::split_by(s, k).len() - 1,
        i == 0 ==> m == 0,
    decreases s.len(),
{
    if s.len() == 0 {
        assert(s.subrange(i, j) =~= Seq::empty());
        0
    } else {
        let front = s.drop_last();
        let before = text::split_by(front, k);
        let parts = text::split_by(s, k);
        text::lemma_split_nonempty(front, k);
        if j < s.len() {
            assert(whole_part(front, k, i, j));
            let m = lemma_part(front, k, i, j);
            assert(front.subrange(i, j) =~= s.subrange(i, j));
            if j == s.len() - 1 {
                assert(parts == before.push(Seq::empty()));
            } else if !k.has(s.last()) {
                assert(parts[m] == before[m]);
            }
            m
        } else if i == s.len() {
            assert(k.has(s.last()));
            assert(s.subrange(i, j) =~= Seq::empty());
            parts.len() - 1
        } else {
            assert(!k.has(s.last()));
            assert(whole_part(front, k, i, j - 1));
            let m = lemma_part(front, k, i, j - 1);
            assert(front.subrange(i, j - 1).push(s.last()) =~= s.subrange(i, j));
            assert(parts.last() == before.last().push(s.last()));
            m
        }
    }
}

proof fn lemma_path_token(tokens: Seq<Seq<char>>, m: int)
    requires
        0 <= m < tokens.len(),
        path_like(tokens[m]),
        !text::is_space(tokens[m][0]),
        !text::is_space(tokens[m].last()),
        tokens[m].last() != '"',
    ensures
        path_tokens(tokens).contains(tokens[m]),
    decreases tokens.len(),
{
    let t = tokens[m];
    reveal_strlit("~");
    reveal_strlit("~/");
    if m == tokens.len() - 1 {
        assert(t.len() > 0);
        assert(t[0] == '/' || t[0] == '~') by {
            if text::has_prefix(t, "~/"@) {
                assert(t.take(2)[0] == t[0]);
            }
        }
        assert(text::trim(t) == t);
        assert(text::trim_by(t, Class::Quote) == t);
        let r = path_tokens(tokens);
        assert(r == path_tokens(tokens.drop_last()).push(t));
        assert(r.last() == t);
    } else {
        lemma_path_token(tokens.drop_last(), m);
        let front = path_tokens(tokens.drop_last());
        let n = choose|n: int| 0 <= n < front.len() && front[n] == t;
        let r = path_tokens(tokens);
        assert(r[n] == t);
    }
}

proof fn lemma_path_tokens_are_paths(tokens: Seq<Seq<char>>, n: int)
    requires
        0 <= n < path_tokens(tokens).len(),
    ensures
        path_like(path_tokens(tokens)[n]),
    decreases tokens.len(),
{
    if tokens.len() > 0 {
        let front = path_tokens(tokens.drop_last());
        if n < front.len() {
            lemma_path_tokens_are_paths(tokens.drop_last(), n);
        }
    }
}

/// Whether a stretch of a line is a path: a whole word of it that starts with a slash, and neither
/// holds white space nor a comma nor ends with a quote.
pub open spec fn path_at(line: Seq<char>, i: int, j: int) -> bool {
    &&& 0 <= i < j <= line.len()
    &&& line[i] == '/'
    &&& line[j - 1] != '"'
    &&& forall|m: int| i <= m < j ==> !text::is_space(#[trigger] line[m]) && line[m] != ','
    &&& i == 0 || text::is_space(line[i - 1]) || line[i - 1] == ','
    &&& j == line.len() || text::is_space(line[j]) || line[j] == ','
}

/// Every path of a line is found in it; and where there is one, nothing is taken for a directory but
/// words that start with a slash or a tilde.
pub proof fn paths_of_a_line_are_found(line: Seq<char>, i: int, j: int, n: int)
    requires
        path_at(line, i, j),
    ensures
        paths_in(line).contains(line.subrange(i, j)),
        0 <= n < paths_in(line).len() ==> paths_in(line)[n].len() > 0 && (paths_in(line)[n][0]
            == '/' || paths_in(line)[n][0] == '~'),
{
    assert forall|m: int| i <= m < j implies !Class::SpaceOrComma.has(#[trigger] line[m]) by {}
    let m = lemma_part(line, Class::SpaceOrComma, i, j);
    let tokens = text::split_by(line, Class::SpaceOrComma);
    let t = line.subrange(i, j);
    assert(t[0] == line[i]);
    assert(t.last() == line[j - 1]);
    assert(!text::is_space(line[i]) && !text::is_space(line[j - 1]));
    lemma_path_token(tokens, m);
    let found = path_tokens(tokens);
    assert(found.len() > 0);
    if 0 <= n < found.len() {
        lemma_path_tokens_are_paths(tokens, n);
        reveal_strlit("~");
        reveal_strlit("~/");
        if text::has_prefix(found[n], "~/"@) {
            assert(found[n].take(2)[0] == found[n][0]);
        }
    }
}

/// Adding directories keeps those that were there, in their places; each added one is there, as the
/// same path, and nothing else is.
pub proof fn adding_dirs_adds_each(dirs: Seq<Seq<char>>, more: Seq<Seq<char>>)
    ensures
        dirs.is_prefix_of(with_dirs(dirs, more)),
        forall|k: int| 0 <= k < more.len() ==> has_dir(with_dirs(dirs, more), #[trigger] more[k]),
        forall|m: int|
            dirs.len() <= m < with_dirs(dirs, more).len() ==> more.contains(
                #[trigger] with_dirs(dirs, more)[m],
            ),
    decreases more.len(),
{
    let all = with_dirs(dirs, more);
    if more.len() > 0 {
        let front = with_dirs(dirs, more.drop_last());
        adding_dirs_adds_each(dirs, more.drop_last());
        assert(all == with_dir(front, more.last()));
        assert(dirs.is_prefix_of(all)) by {
            assert(dirs =~= all.take(dirs.len() as int));
        }
        assert forall|k: int| 0 <= k < more.len() implies has_dir(all, #[trigger] more[k]) by {
            if k < more.len() - 1 {
                assert(more.drop_last()[k] == more[k]);
                let a = choose|a: int|
                    0 <= a < front.len() && path::same_path_text(#[trigger] front[a], more[k]);
                assert(all[a] == front[a]);
            } else if !has_dir(front, more.last()) {
                assert(all[all.len() - 1] == more[k]);
            }
        }
        assert forall|m: int| dirs.len() <= m < all.len() implies more.contains(
            #[trigger] all[m],
        ) by {
            if m < front.len() {
                assert(all[m] == front[m]);
                let a = choose|a: int|
                    0 <= a < more.drop_last().len() && more.drop_last()[a] == front[m];
                assert(more[a] == front[m]);
            } else {
                assert(more[more.len() - 1] == all[m]);
            }
        }
    }
}

/// Whether a line goes on with the runner above it: it is indented, and neither decoration nor a
/// header.
pub open spec fn indented(raw: Seq<char>) -> bool {
    &&& !decoration(raw)
    &&& !header_line(text::trim_end_by(raw, Class::Space))
    &&& raw.len() > 0 && (raw[0] == ' ' || raw[0] == '\t')
}

/// Whether a line starts a runner: it is not indented, and neither decoration nor a header.
pub open spec fn opens_runner(raw: Seq<char>) -> bool {
    &&& !decoration(raw)
    &&& !header_line(text::trim_end_by(raw, Class::Space))
    &&& raw.len() > 0 && raw[0] != ' ' && raw[0] != '\t'
}

/// An indented line belongs to the runner above it, whatever runners came before: that runner has
/// the directories it had and every path of the line, and no others, and keeps its id; its process
/// id is the line's where it had none. The runners before it stay as they are.
pub proof fn indented_lines_belong_to_the_runner_above(t: TableView, raw: Seq<char>)
    requires
        t.current is Some,
        indented(raw),
    ensures
        ({
            let next = with_line(t, raw);
            let r = t.current->0;
            let line = text::trim_end_by(raw, Class::Space);
            &&& next.done == t.done
            &&& next.header == t.header
            &&& next.current is Some
            &&& next.current->0 == (RunnerView {
                dirs: next.current->0.dirs,
                pid: next.current->0.pid,
                ..r
            })
            &&& r.dirs.is_prefix_of(next.current->0.dirs)
            &&& forall|k: int|
                0 <= k < paths_in(line).len() ==> has_dir(
                    next.current->0.dirs,
                    #[trigger] paths_in(line)[k],
                )
            &&& forall|i: int, j: int|
                #[trigger] path_at(raw, i, j) ==> has_dir(
                    next.current->0.dirs,
                    raw.subrange(i, j),
                )
            &&& forall|m: int|
                r.dirs.len() <= m < next.current->0.dirs.len() ==> paths_in(line).contains(
                    #[trigger] next.current->0.dirs[m],
                )
            &&& r.pid is Some ==> next.current->0.pid == r.pid
            &&& r.pid is None ==> next.current->0.pid == pid_in(line)
        }),
{
    let r = t.current->0;
    let line = text::trim_end_by(raw, Class::Space);
    let dirs = with_line(t, raw).current->0.dirs;
    adding_dirs_adds_each(r.dirs, paths_in(line));
    text::lemma_trim_ends(raw, Class::Space);
    assert forall|i: int, j: int| #[trigger] path_at(raw, i, j) implies has_dir(
        dirs,
        raw.subrange(i, j),
    ) by {
        lemma_kept_by_trim_end(raw, j - 1);
        assert(line =~= raw.take(line.len() as int));
        assert(path_at(line, i, j));
        paths_of_a_line_are_found(line, i, j, 0);
        assert(line.subrange(i, j) =~= raw.subrange(i, j));
        let k = choose|k: int|
            0 <= k < paths_in(line).len() && paths_in(line)[k] == raw.subrange(i, j);
        assert(has_dir(dirs, paths_in(line)[k]));
    }
}

proof fn lemma_kept_by_trim_end(s: Seq<char>, i: int)
    requires
        0 <= i < s.len(),
        !text::is_space(s[i]),
    ensures
        i < text::trim_end_by(s, Class::Space).len(),
    decreases s.len(),
{
    if text::is_space(s.last()) {
        lemma_kept_by_trim_end(s.drop_last(), i);
    }
}

/// An indented line under no runner is dropped, and a line that starts a runner leaves the finished
/// ones and the one above it as they are.
pub proof fn lines_keep_the_runners_above(t: TableView, raw: Seq<char>)
    ensures
        indented(raw) && t.current is None ==> with_line(t, raw) == t,
        opens_runner(raw) ==> with_line(t, raw).done == all_rows(t) && with_line(
            t,
            raw,
        ).current is Some && with_line(t, raw).header == t.header,
        opens_runner(raw) && t.header is None ==> with_line(t, raw).current == with_line(
            TableView { done: Seq::empty(), current: None, header: None },
            raw,
        ).current,
        all_rows(t) == if t.current is Some {
            t.done + seq![t.current->0]
        } else {
            t.done
        },
{
    if t.current is Some {
        assert(t.done + seq![t.current->0] =~= t.done.push(t.current->0));
    }
}

proof fn lemma_block(above: Seq<Seq<char>>, block: Seq<Seq<char>>)
    requires
        table(above).header is None,
        block.len() > 0,
        opens_runner(block[0]),
    ensures
        table(block).current is Some,
        table(above + block).current == table(block).current,
        table(above + block).header == table(block).header,
        table(above + block).done == all_rows(table(above)) + table(block).done,
    decreases block.len(),
{
    let whole = above + block;
    assert(whole.drop_last() =~= above + block.drop_last());
    assert(whole.last() == block.last());
    if block.len() == 1 {
        assert(block.drop_last() =~= Seq::empty());
        assert(above + block.drop_last() =~= above);
        assert(all_rows(table(above)) + Seq::<RunnerView>::empty() =~= all_rows(table(above)));
        reveal_with_fuel(table, 2);
    } else {
        assert(block.drop_last()[0] == block[0]);
        lemma_block(above, block.drop_last());
        let a = table(above + block.drop_last());
        let b = table(block.drop_last());
        assert(all_rows(a) =~= all_rows(table(above)) + all_rows(b));
    }
}

/// A block of lines that starts with a runner's line gives the same runners whether or not lines
/// without a header stand above it; and what stands above gives the same runners as without it.
pub proof fn blocks_stand_alone(above: Seq<Seq<char>>, block: Seq<Seq<char>>)
    requires
        table(above).header is None,
        block.len() > 0,
        opens_runner(block[0]),
    ensures
        all_rows(table(above + block)) == all_rows(table(above)) + all_rows(table(block)),
        only_listed(all_rows(table(above + block))) == only_listed(all_rows(table(above)))
            + only_listed(all_rows(table(block))),
{
    lemma_block(above, block);
    assert(all_rows(table(above + block)) =~= all_rows(table(above)) + all_rows(table(block)));
    lemma_only_listed_add(all_rows(table(above)), all_rows(table(block)));
}

proof fn lemma_only_listed_add(a: Seq<RunnerView>, b: Seq<RunnerView>)
    ensures
        only_listed(a + b) == only_listed(a) + only_listed(b),
    decreases b.len(),
{
    if b.len() == 0 {
        assert(a + b =~= a);
        assert(only_listed(a) + only_listed(b) =~= only_listed(a));
    } else {
        assert((a + b).drop_last() =~= a + b.drop_last());
        assert((a + b).last() == b.last());
        lemma_only_listed_add(a, b.drop_last());
        assert(only_listed(a + b) =~= only_listed(a) + only_listed(b));
    }
}

/// A runner is listed where it has an id, a process id or a directory, and only then; the listed ones
/// stay in their order.
pub proof fn empty_rows_are_left_out(a: Seq<RunnerView>, r: RunnerView, b: Seq<RunnerView>)
    ensures
        r.id.len() > 0 || r.pid is Some || r.dirs.len() > 0 ==> only_listed(a.push(r) + b)
            == only_listed(a).push(r) + only_listed(b),
        r.id.len() == 0 && r.pid is None && r.dirs.len() == 0 ==> only_listed(a.push(r) + b)
            == only_listed(a + b),
{
    lemma_only_listed_add(a.push(r), b);
    lemma_only_listed_add(a, b);
    assert(a.push(r).drop_last() =~= a);
}

proof fn lemma_first_nonempty(parts: Seq<Seq<char>>)
    requires
        parts.len() > 0,
        parts[0].len() > 0,
    ensures
        text::nonempty_texts(parts).len() > 0,
        text::nonempty_texts(parts)[0] == parts[0],
    decreases parts.len(),
{
    if parts.len() == 1 {
        assert(parts.drop_last() =~= Seq::empty());
        reveal_with_fuel(text::nonempty_texts, 2);
    } else {
        lemma_first_nonempty(parts.drop_last());
    }
}

proof fn lemma_digits_read(n: u32)
    requires
        0 < n <= i32::MAX,
    ensures
        pid_token(text::decimal(n as nat)) == Some(n),
{
    let d = text::decimal(n as nat);
    text::decimal_reads_back(n as nat);
    text::numbers_read_back(n, d);
    assert(text::is_digit(d[0]) && text::is_digit(d.last()));
    assert(text::trim(d) == d);
    assert(text::trim_by(d, Class::NotDigit) == d);
}

/// The id of a runner in a table without a header is the first word of its line, where that reads as
/// an id: it starts with neither a slash nor a tilde, holds no comma, no equals sign and something
/// else than digits, and ends with no colon; and nothing in it reads `pid`.
pub proof fn the_first_word_is_the_id(word: Seq<char>, rest: Seq<char>)
    requires
        word.len() > 0,
        forall|i: int| 0 <= i < word.len() ==> !text::is_space(#[trigger] word[i]),
        rest.len() == 0 || text::is_space(rest[0]),
        word[0] != '/' && word[0] != '~' && word[0] != ':' && word.last() != ':',
        !word.contains(',') && !word.contains('='),
        !text::all_digits(word),
        forall|j: int|
            0 <= j < word.len() ==> !#[trigger] text::occurs_at(word + rest, "pid"@, j),
        forall|j: int|
            0 <= j < word.len() ==> !#[trigger] text::occurs_at(word + rest, "PID"@, j),
    ensures
        row(word + rest, None).id == word,
        row(word + rest, None).pid == pid_in(word + rest),
        row(word + rest, None).dirs == paths_in(word + rest),
        row(word + rest, None).cwd is None,
{
    let line = word + rest;
    let low = "pid"@;
    let high = "PID"@;
    reveal_strlit("pid");
    reveal_strlit("PID");
    text::lemma_find(line, low, 0);
    let a = text::before_text(line, low);
    let n = word.len() as int;
    assert(a.len() >= n && a =~= line.take(a.len() as int)) by {
        match text::find_text(line, low) {
            Some(i) => {
                if i < n {
                    assert(!text::occurs_at(line, low, i));
                }
            },
            None => {},
        }
    }
    text::lemma_find(a, high, 0);
    let b = text::before_text(a, high);
    assert(b.len() >= n && b =~= line.take(b.len() as int)) by {
        match text::find_text(a, high) {
            Some(i) => {
                if i < n {
                    assert(a.subrange(i, i + 3) =~= line.subrange(i, i + 3));
                    assert(text::occurs_at(line, high, i));
                }
            },
            None => {},
        }
    }
    assert forall|m: int| 0 <= m < n implies !Class::Space.has(#[trigger] b[m]) by {
        assert(b[m] == word[m]);
    }
    if b.len() > n {
        assert(b[n] == rest[0]);
    }
    let m = lemma_part(b, Class::Space, 0, n);
    assert(b.subrange(0, n) =~= word);
    lemma_first_nonempty(text::split_by(b, Class::Space));
    let ws = text::words(b);
    assert(ws[0] == word);
    assert(id_token(word));
    assert(word.contains(word[0]) && word.contains(word.last()));
    assert(text::trim_by(word, Class::ColonOrComma) == word);
}

// ---------------------------------------------------------------------------------------------
// Runners in JSON

/// Whether an object has no text under a name: nothing, something else than a text or a number, or a
/// blank text.
pub open spec fn no_text(entries: Seq<(Seq<char>, JsonView)>, key: Seq<char>) -> bool {
    match json::entry(entries, key) {
        Some(JsonView::Text(s)) => text::blank(s),
        Some(JsonView::Number { text, unsigned }) => false,
        _ => true,
    }
}

/// Whether an object has a text under a name that is not blank.
pub open spec fn has_text(
    entries: Seq<(Seq<char>, JsonView)>,
    key: Seq<char>,
    s: Seq<char>,
) -> bool {
    json::entry(entries, key) == Some(JsonView::Text(s)) && !text::blank(s)
}

proof fn lemma_no_text(entries: Seq<(Seq<char>, JsonView)>, key: Seq<char>, s: Seq<char>)
    ensures
        no_text(entries, key) ==> json::entry(entries, key) is None || text_value(
            json::entry(entries, key)->0,
        ) is None,
        has_text(entries, key, s) ==> text_value(json::entry(entries, key)->0) == Some(s),
{
    match json::entry(entries, key) {
        Some(JsonView::Text(x)) => {
            let cut = text::trimming_drops_only_spaces(x);
        },
        _ => {},
    }
    let cut = text::trimming_drops_only_spaces(s);
}

/// A runner in JSON has the id under `id`, or else under the other names of an id, the first of them
/// that has one; and so its working directory under `cwd`, which is among its directories.
pub proof fn json_fields_are_read(entries: Seq<(Seq<char>, JsonView)>, s: Seq<char>)
    requires
        json_runner(JsonView::Object(entries)) is Some,
    ensures
        ({
            let r = json_runner(JsonView::Object(entries))->0;
            &&& has_text(entries, "id"@, s) ==> r.id == s
            &&& no_text(entries, "id"@) && has_text(entries, "runnerId"@, s) ==> r.id == s
            &&& no_text(entries, "id"@) && no_text(entries, "runnerId"@) && has_text(
                entries,
                "runner_id"@,
                s,
            ) ==> r.id == s
            &&& has_text(entries, "cwd"@, s) ==> r.cwd == Some(s) && has_dir(r.dirs, s)
            &&& no_text(entries, "cwd"@) && has_text(entries, "workdir"@, s) ==> r.cwd == Some(s)
                && has_dir(r.dirs, s)
            &&& r.from_amp_list && !r.from_local_scan
        }),
{
    lemma_no_text(entries, "id"@, s);
    lemma_no_text(entries, "runnerId"@, s);
    lemma_no_text(entries, "runner_id"@, s);
    lemma_no_text(entries, "cwd"@, s);
    lemma_no_text(entries, "workdir"@, s);
    let ids = id_keys();
    let cwds = cwd_keys();
    assert(ids[0] == "id"@ && ids[1] == "runnerId"@ && ids[2] == "runner_id"@);
    assert(cwds[0] == "cwd"@ && cwds[1] == "workdir"@);
    reveal_with_fuel(first_text, 4);
    let r = json_runner(JsonView::Object(entries))->0;
    if r.cwd is Some {
        let c = r.cwd->0;
        if r.dirs.len() > 0 && r.dirs[0] == c {
            assert(path::same_path_text(r.dirs[0], c));
        }
    }
}

/// A runner in JSON has the process id under `pid`, where that is a number from 1 up, or a text of its
/// digits.
pub proof fn json_process_ids_are_read(
    entries: Seq<(Seq<char>, JsonView)>,
    n: u32,
    shown: Seq<char>,
)
    requires
        0 < n <= i32::MAX,
        json_runner(JsonView::Object(entries)) is Some,
    ensures
        json::entry(entries, "pid"@) == Some(
            JsonView::Number { text: shown, unsigned: Some(n as u64) },
        ) ==> json_runner(JsonView::Object(entries))->0.pid == Some(n),
        json::entry(entries, "pid"@) == Some(JsonView::Text(text::decimal(n as nat)))
            ==> json_runner(JsonView::Object(entries))->0.pid == Some(n),
        json::entry(entries, "pid"@) == Some(
            JsonView::Number { text: shown, unsigned: Some(0) },
        ) && json::entry(entries, "PID"@) is None && json::entry(entries, "processId"@) is None
            && json::entry(entries, "process_id"@) is None ==> json_runner(
            JsonView::Object(entries),
        )->0.pid is None,
{
    lemma_digits_read(n);
    let keys = pid_keys();
    assert(keys[0] == "pid"@ && keys[1] == "PID"@ && keys[2] == "processId"@ && keys[3]
        == "process_id"@);
    reveal_with_fuel(first_pid_of, 5);
}

proof fn lemma_text_items(items: Seq<JsonView>, i: int)
    requires
        0 <= i < items.len(),
        items[i] is Text,
    ensures
        text_items(items).contains(items[i]->Text_0),
    decreases items.len(),
{
    let all = text_items(items);
    if i == items.len() - 1 {
        assert(all.last() == items[i]->Text_0);
        assert(all[all.len() - 1] == items[i]->Text_0);
    } else {
        lemma_text_items(items.drop_last(), i);
        let front = text_items(items.drop_last());
        let k = choose|k: int| 0 <= k < front.len() && front[k] == items[i]->Text_0;
        assert(all[k] == items[i]->Text_0);
    }
}

/// A runner in JSON serves every text of the list under `dirs`; and where there is no such list, the
/// directory under `dir`.
pub proof fn json_directories_are_read(
    entries: Seq<(Seq<char>, JsonView)>,
    items: Seq<JsonView>,
    i: int,
    s: Seq<char>,
)
    requires
        json_runner(JsonView::Object(entries)) is Some,
    ensures
        ({
            let r = json_runner(JsonView::Object(entries))->0;
            &&& json::entry(entries, "dirs"@) == Some(JsonView::Array(items)) && 0 <= i
                < items.len() && items[i] is Text ==> r.dirs.contains(items[i]->Text_0)
            &&& json::entry(entries, "dirs"@) is None && json::entry(
                entries,
                "directories"@,
            ) is None && json::entry(entries, "servedDirs"@) is None && json::entry(
                entries,
                "served_dirs"@,
            ) is None && has_text(entries, "dir"@, s) ==> r.dirs.contains(s)
        }),
{
    let r = json_runner(JsonView::Object(entries))->0;
    let lists = dirs_keys();
    let singles = dir_keys();
    assert(lists[0] == "dirs"@ && lists[1] == "directories"@ && lists[2] == "servedDirs"@
        && lists[3] == "served_dirs"@);
    assert(singles[0] == "dir"@);
    reveal_with_fuel(first_list_of, 5);
    reveal_with_fuel(first_text, 2);
    lemma_no_text(entries, "dir"@, s);
    let list = first_list_of(entries, dirs_keys(), 0);
    let cwd = first_text(entries, cwd_keys(), 0);
    if json::entry(entries, "dirs"@) == Some(JsonView::Array(items)) && 0 <= i < items.len()
        && items[i] is Text {
        lemma_text_items(items, i);
        let k = choose|k: int| 0 <= k < list.len() && list[k] == items[i]->Text_0;
        if cwd is Some && !has_dir(list, cwd->0) {
            assert(r.dirs[k + 1] == list[k]);
        } else {
            assert(r.dirs[k] == list[k]);
        }
    }
    if json::entry(entries, "dirs"@) is None && json::entry(entries, "directories"@) is None
        && json::entry(entries, "servedDirs"@) is None && json::entry(
        entries,
        "served_dirs"@,
    ) is None && has_text(entries, "dir"@, s) {
        let one = seq![s];
        assert(one[0] == s);
        if cwd is Some && !has_dir(one, cwd->0) {
            assert(r.dirs[1] == s);
        } else {
            assert(r.dirs[0] == s);
        }
    }
}

/// A list in JSON gives the runner of each of its objects that has an id, a process id or a directory,
/// in their order; it is the document itself, or stands under `runners`, `items` or `data`.
pub proof fn json_lists_are_read(
    items: Seq<JsonView>,
    v: JsonView,
    entries: Seq<(Seq<char>, JsonView)>,
)
    ensures
        json_runner(v) is Some ==> json_runners(items.push(v)) == json_runners(items).push(
            json_runner(v)->0,
        ),
        json_runner(v) is None ==> json_runners(items.push(v)) == json_runners(items),
        json_runners(Seq::empty()).len() == 0,
        !(v is Object) ==> json_runner(v) is None,
        json_runner(v) is Some ==> json_runner(v)->0.id.len() > 0 || json_runner(v)->0.pid is Some
            || json_runner(v)->0.dirs.len() > 0,
        document_items(JsonView::Array(items)) == items,
        json::entry(entries, "runners"@) == Some(JsonView::Array(items)) ==> document_items(
            JsonView::Object(entries),
        ) == items,
        json::entry(entries, "runners"@) is None && json::entry(entries, "items"@) == Some(
            JsonView::Array(items),
        ) ==> document_items(JsonView::Object(entries)) == items,
        json::entry(entries, "runners"@) is None && json::entry(entries, "items"@) is None
            && json::entry(entries, "data"@) == Some(JsonView::Array(items)) ==> document_items(
            JsonView::Object(entries),
        ) == items,
        json::entry(entries, "runners"@) is None && json::entry(entries, "items"@) is None
            && json::entry(entries, "data"@) is None ==> document_items(JsonView::Object(entries))
            == seq![JsonView::Object(entries)],
{
    assert(items.push(v).drop_last() =~= items);
}

/// What Amp prints is read as JSON where it starts with a brace or a bracket, behind white space or
/// not, and as text else; nothing but white space is a list of none.
pub proof fn output_is_read_by_its_start(output: Seq<char>)
    ensures
        text::blank(output) ==> runner_list(output) == Ok::<Seq<RunnerView>, Seq<char>>(
            Seq::empty(),
        ),
        ({
            let t = text::trim(output);
            let as_json = t.len() > 0 && (t[0] == '{' || t[0] == '[');
            &&& as_json && json::json_document(t) is Ok ==> runner_list(output) == Ok::<
                Seq<RunnerView>,
                Seq<char>,
            >(json_runners(document_items(json::json_document(t)->Ok_0)))
            &&& as_json && json::json_document(t) is Err ==> runner_list(output) == Err::<
                Seq<RunnerView>,
                Seq<char>,
            >(json::json_document(t)->Err_0)
            &&& !as_json && !text::blank(output) ==> runner_list(output) == Ok::<
                Seq<RunnerView>,
                Seq<char>,
            >(text_runners(output))
        }),
{
    let cut = text::trimming_drops_only_spaces(output);
    let t = text::trim(output);
    if t.len() > 0 {
        assert(text::trim_start_by(t, Class::Space) == t);
    }
}

// ---------------------------------------------------------------------------------------------
// Tables with a header, and lists of directories

/// A column under a name of an id is the id, one under a name with `pid` the process id, and one under
/// a name with `dir`, `path` or `cwd` adds its directories; any other changes nothing. Names are in any
/// case of letters.
pub proof fn columns_go_by_their_names(
    r: RunnerView,
    name: Seq<char>,
    value: Seq<char>,
    i: int,
)
    ensures
        ({
            let low = text::lower_text(name);
            let is_id = low == "id"@ || low == "runner"@ || low == "runner-id"@ || low
                == "runner_id"@ || low == "name"@;
            let next = with_column(r, name, value);
            &&& is_id ==> next == (RunnerView { id: value, ..r })
            &&& !is_id && text::occurs_at(low, "pid"@, i) ==> next == (RunnerView {
                pid: pid_token(value),
                ..r
            })
            &&& !is_id && !text::contains_text(low, "pid"@) && (text::occurs_at(low, "dir"@, i)
                || text::occurs_at(low, "path"@, i) || text::occurs_at(low, "cwd"@, i)) ==> next == (
            RunnerView { dirs: r.dirs + dir_list(value), ..r })
            &&& !is_id && !text::contains_text(low, "pid"@) && !text::contains_text(low, "dir"@)
                && !text::contains_text(low, "path"@) && !text::contains_text(low, "cwd"@)
                ==> next == r
        }),
{
    let low = text::lower_text(name);
    text::texts_are_found_at_their_first_place(low, "pid"@, i);
    text::texts_are_found_at_their_first_place(low, "dir"@, i);
    text::texts_are_found_at_their_first_place(low, "path"@, i);
    text::texts_are_found_at_their_first_place(low, "cwd"@, i);
}

/// A row under a header takes its columns from left to right, each under the name above it, and
/// ignores those that have none.
pub proof fn rows_take_their_columns_in_turn(
    names: Seq<Seq<char>>,
    values: Seq<Seq<char>>,
    n: int,
)
    requires
        0 < n,
    ensures
        with_columns(names, values, n) == with_column(
            with_columns(names, values, n - 1),
            names[n - 1],
            values[n - 1],
        ),
        with_columns(names, values, 0).id.len() == 0,
        with_columns(names, values, 0).pid is None,
        with_columns(names, values, 0).dirs.len() == 0,
        with_columns(names, values, 0).cwd is None,
        with_columns(names, values, 0).from_amp_list,
{
}

/// A row under a header has what its columns give, and what they leave open from the line itself.
pub proof fn rows_fill_in_from_the_line(line: Seq<char>, names: Seq<Seq<char>>)
    ensures
        ({
            let r = row(line, Some(names));
            let n = if names.len() < columns(line).len() {
                names.len()
            } else {
                columns(line).len()
            };
            let t = with_columns(names, columns(line), n as int);
            &&& t.id.len() > 0 ==> r.id == t.id
            &&& t.id.len() == 0 ==> r.id == inferred_id(line)
            &&& t.pid is Some ==> r.pid == t.pid
            &&& t.pid is None ==> r.pid == pid_in(line)
            &&& t.dirs.len() > 0 ==> r.dirs == t.dirs
            &&& t.dirs.len() == 0 ==> r.dirs == paths_in(line)
        }),
{
}

/// The directories that Amp lists as text are its lines that start with a slash, a tilde or a dot,
/// trimmed and in their order; a header over them is none.
pub proof fn directory_lines_are_listed(lines: Seq<Seq<char>>, line: Seq<char>)
    ensures
        line.len() > 0 && line[0] == '/' ==> dir_lines(lines.push(line)) == dir_lines(lines).push(
            line,
        ),
        line.len() > 0 && line[0] == '~' ==> dir_lines(lines.push(line)) == dir_lines(lines).push(
            line,
        ),
        line.len() > 0 && line[0] == '.' ==> dir_lines(lines.push(line)) == dir_lines(lines).push(
            line,
        ),
        line.len() == 0 || line[0] != '/' && line[0] != '~' && line[0] != '.' ==> dir_lines(
            lines.push(line),
        ) == dir_lines(lines),
        dir_lines(Seq::empty()).len() == 0,
{
    assert(lines.push(line).drop_last() =~= lines);
    reveal_strlit("dir");
    reveal_strlit("dirs");
    reveal_strlit("directory");
    reveal_strlit("directories");
    reveal_strlit("path");
    reveal_strlit("paths");
    if line.len() > 0 {
        assert(text::lower_text(line)[0] == text::lower_char(line[0]));
    }
}

/// The directories that Amp lists are read as text where the output is not JSON, or cannot be read as
/// such; from JSON they are the texts of a list, and the texts under `path`, `dir` or `directory` of
/// the objects in it.
pub proof fn directories_are_read_by_their_start(
    output: Seq<char>,
    items: Seq<JsonView>,
    v: JsonView,
    entries: Seq<(Seq<char>, JsonView)>,
    s: Seq<char>,
)
    ensures
        ({
            let t = text::trim(output);
            let as_json = t.len() > 0 && (t[0] == '{' || t[0] == '[');
            &&& !as_json || json::json_document(t) is Err ==> dirs_listed(output) == dir_lines(
                text::nonblank_texts(text::lines_of(output)),
            )
            &&& as_json && json::json_document(t) == Ok::<JsonView, Seq<char>>(
                JsonView::Array(items),
            ) ==> dirs_listed(output) == item_dirs(items)
        }),
        item_dirs(items.push(JsonView::Text(s))) == item_dirs(items).push(s),
        has_text(entries, "path"@, s) ==> item_dirs(items.push(JsonView::Object(entries)))
            == item_dirs(items).push(s),
        no_text(entries, "path"@) && has_text(entries, "dir"@, s) ==> item_dirs(
            items.push(JsonView::Object(entries)),
        ) == item_dirs(items).push(s),
        !(v is Text) && !(v is Object) ==> item_dirs(items.push(v)) == item_dirs(items),
        json::entry(entries, "dirs"@) == Some(JsonView::Array(items)) ==> document_dirs(
            JsonView::Object(entries),
        ) == text_items(items),
        text_items(items.push(JsonView::Text(s))) == text_items(items).push(s),
{
    let t = text::trim(output);
    let cut = text::trimming_drops_only_spaces(output);
    if t.len() > 0 {
        assert(text::trim_start_by(t, Class::Space) == t);
    }
    lemma_no_text(entries, "path"@, s);
    lemma_no_text(entries, "dir"@, s);
    let keys = item_path_keys();
    let lists = document_list_keys();
    assert(keys[0] == "path"@ && keys[1] == "dir"@);
    assert(lists[0] == "dirs"@);
    reveal_with_fuel(first_text, 3);
    reveal_with_fuel(first_list_of, 2);
    assert(items.push(JsonView::Text(s)).drop_last() =~= items);
    assert(items.push(JsonView::Object(entries)).drop_last() =~= items);
    assert(items.push(v).drop_last() =~= items);
}

// ---------------------------------------------------------------------------------------------
// Lines of a table

/// A line is decoration where nothing is left of it without the space around it, where dashes, equals
/// signs and blanks are, where it reads `runners`, or where it ends with a count of runners; in any
/// case of letters. No other line is.
pub proof fn decoration_is_rules_and_counts(raw: Seq<char>)
    ensures
        ({
            let t = text::trim(text::trim_end_by(raw, Class::Space));
            let low = text::lower_text(t);
            decoration(raw) <==> {
                ||| forall|i: int|
                    0 <= i < t.len() ==> #[trigger] t[i] == '-' || t[i] == '=' || t[i] == ' '
                ||| low == "runners"@
                ||| text::has_suffix(low, " runner(s)"@)
                ||| text::has_suffix(low, " runners"@)
            }
        }),
{
    reveal_strlit("runners");
    assert(text::lower_text("runners"@) =~= "runners"@);
}

/// A line is a header where one of its words is a name of an id, without a colon or a comma at its
/// ends, and one holds `pid`, `dir`, `cwd` or `path`; in any case of letters. No other line is.
pub proof fn headers_name_an_id_and_more(line: Seq<char>)
    ensures
        ({
            let ws = text::words(text::lower_text(line));
            header_line(line) <==> {
                &&& exists|i: int|
                    0 <= i < ws.len() && {
                        let w = text::trim_by(#[trigger] ws[i], Class::ColonOrComma);
                        w == "id"@ || w == "runner"@ || w == "runner-id"@ || w == "runner_id"@ || w
                            == "name"@
                    }
                &&& exists|i: int|
                    0 <= i < ws.len() && {
                        let w = #[trigger] ws[i];
                        text::holds(w, "pid"@) || text::holds(w, "dir"@) || text::holds(w, "cwd"@)
                            || text::holds(w, "path"@)
                    }
            }
        }),
{
    let ws = text::words(text::lower_text(line));
    assert forall|i: int| 0 <= i < ws.len() implies (other_word(#[trigger] ws[i]) <==> (text::holds(
        ws[i],
        "pid"@,
    ) || text::holds(ws[i], "dir"@) || text::holds(ws[i], "cwd"@) || text::holds(
        ws[i],
        "path"@,
    ))) by {
        lemma_contains_holds(ws[i], "pid"@);
        lemma_contains_holds(ws[i], "dir"@);
        lemma_contains_holds(ws[i], "cwd"@);
        lemma_contains_holds(ws[i], "path"@);
    }
    if names_id(ws) {
        let i = choose|i: int|
            0 <= i < ws.len() && is_id_word(text::trim_by(#[trigger] ws[i], Class::ColonOrComma));
        let w = text::trim_by(ws[i], Class::ColonOrComma);
        assert(w == "id"@ || w == "runner"@ || w == "runner-id"@ || w == "runner_id"@ || w
            == "name"@);
    }
    if names_other(ws) {
        let i = choose|i: int| 0 <= i < ws.len() && other_word(#[trigger] ws[i]);
        assert(other_word(ws[i]));
    }
}

proof fn lemma_contains_holds(s: Seq<char>, pat: Seq<char>)
    ensures
        text::contains_text(s, pat) <==> text::holds(s, pat),
{
    text::lemma_find(s, pat, 0);
    if text::contains_text(s, pat) {
        assert(text::occurs_at(s, pat, text::find_text(s, pat)->0));
    }
    if text::holds(s, pat) {
        let i = choose|i: int| #[trigger] text::occurs_at(s, pat, i);
        text::texts_are_found_at_their_first_place(s, pat, i);
    }
}

/// A list of directories in one text is what stands between its commas and semicolons, trimmed, in
/// order and without the blank ones.
pub proof fn directory_lists_are_split(a: Seq<char>, sep: char, rest: Seq<char>)
    requires
        sep == ',' || sep == ';',
        !a.contains(',') && !a.contains(';'),
    ensures
        text::blank(a) ==> dir_list(a.push(sep) + rest) == dir_list(rest),
        !text::blank(a) ==> dir_list(a.push(sep) + rest) == seq![text::trim(a)] + dir_list(rest),
        !text::blank(a) ==> dir_list(a) == seq![text::trim(a)],
        text::blank(a) ==> dir_list(a).len() == 0,
{
    assert forall|i: int| 0 <= i < a.len() implies !Class::CommaOrSemicolon.has(
        #[trigger] a[i],
    ) by {
        assert(a.contains(a[i]));
    }
    text::lemma_split_front(a, sep, rest, Class::CommaOrSemicolon);
    text::lemma_split_one(a, Class::CommaOrSemicolon);
    text::lemma_nonblank_front(a, text::split_by(rest, Class::CommaOrSemicolon));
    let none = Seq::<Seq<char>>::empty();
    text::lemma_nonblank_front(a, none);
    assert(seq![a] + none =~= seq![a]);
    assert(text::nonblank_texts(none) =~= none);
    if !text::blank(a) {
        assert(seq![text::trim(a)] + none =~= seq![text::trim(a)]);
    }
}

proof fn lemma_trim_from(s: Seq<char>, k: Class, c: char)
    ensures
        text::trim_by(s, k).contains(c) ==> s.contains(c),
{
    let a = text::trim_start_by(s, k);
    lemma_trim_start_from(s, k, c);
    text::lemma_trim_ends(a, k);
    let t = text::trim_by(s, k);
    if t.contains(c) {
        let i = choose|i: int| 0 <= i < t.len() && t[i] == c;
        assert(a[i] == c);
    }
}

proof fn lemma_trim_start_from(s: Seq<char>, k: Class, c: char)
    ensures
        text::trim_start_by(s, k).contains(c) ==> s.contains(c),
    decreases s.len(),
{
    if s.len() > 0 && k.has(s[0]) {
        lemma_trim_start_from(s.drop_first(), k, c);
        if s.drop_first().contains(c) {
            let i = choose|i: int| 0 <= i < s.drop_first().len() && s.drop_first()[i] == c;
            assert(s[i + 1] == c);
        }
    }
}

proof fn lemma_parts_from(s: Seq<char>, k: Class, m: int, c: char)
    requires
        0 <= m < text::split_by(s, k).len(),
        text::split_by(s, k)[m].contains(c),
    ensures
        s.contains(c),
    decreases s.len(),
{
    let parts = text::split_by(s, k);
    if s.len() == 0 {
        assert(parts[m].len() == 0);
    } else {
        let front = s.drop_last();
        let before = text::split_by(front, k);
        text::lemma_split_nonempty(front, k);
        let part = parts[m];
        let i = choose|i: int| 0 <= i < part.len() && part[i] == c;
        if k.has(s.last()) {
            if m < before.len() {
                lemma_parts_from(front, k, m, c);
            } else {
                assert(part.len() == 0);
            }
        } else if m < before.len() - 1 {
            assert(parts[m] == before[m]);
            lemma_parts_from(front, k, m, c);
        } else if i < before.last().len() {
            assert(before.last()[i] == c);
            assert(before[before.len() - 1].contains(c));
            lemma_parts_from(front, k, before.len() - 1, c);
        } else {
            assert(s[s.len() - 1] == c);
        }
        if front.contains(c) {
            let j = choose|j: int| 0 <= j < front.len() && front[j] == c;
            assert(s[j] == c);
        }
    }
}

proof fn lemma_no_path_tokens(tokens: Seq<Seq<char>>)
    requires
        forall|m: int|
            0 <= m < tokens.len() ==> !(#[trigger] tokens[m]).contains('/') && !tokens[m].contains(
                '~',
            ),
    ensures
        path_tokens(tokens).len() == 0,
    decreases tokens.len(),
{
    if tokens.len() > 0 {
        let front = tokens.drop_last();
        assert forall|m: int| 0 <= m < front.len() implies !(#[trigger] front[m]).contains('/')
            && !front[m].contains('~') by {
            assert(front[m] == tokens[m]);
        }
        lemma_no_path_tokens(front);
        let last = tokens[tokens.len() - 1];
        let t = text::trim_by(text::trim(last), Class::Quote);
        lemma_trim_from(text::trim(last), Class::Quote, '/');
        lemma_trim_from(text::trim(last), Class::Quote, '~');
        lemma_trim_from(last, Class::Space, '/');
        lemma_trim_from(last, Class::Space, '~');
        if path_like(t) {
            reveal_strlit("~");
            reveal_strlit("~/");
            if text::has_prefix(t, "~/"@) {
                assert(t.take(2)[0] == t[0]);
            }
            assert(t.contains(t[0]));
        }
    }
}

/// A line without a slash and a tilde has its directories behind its colon, up to another one; without
/// a colon it has none.
pub proof fn directories_stand_behind_a_colon(a: Seq<char>, list: Seq<char>, rest: Seq<char>)
    requires
        !a.contains(':') && !a.contains('/') && !a.contains('~'),
        !list.contains(':') && !list.contains('/') && !list.contains('~'),
        !rest.contains('/') && !rest.contains('~'),
    ensures
        paths_in(a.push(':') + list) == dir_list(list),
        paths_in(a.push(':') + (list.push(':') + rest)) == dir_list(list),
        paths_in(a).len() == 0,
{
    lemma_bare(a);
    let one = a.push(':') + list;
    let two = a.push(':') + (list.push(':') + rest);
    assert(!one.contains('/') && !one.contains('~')) by {
        assert forall|i: int| 0 <= i < one.len() implies one[i] != '/' && one[i] != '~' by {
            if i < a.len() {
                assert(a.contains(a[i]));
            } else if i > a.len() {
                assert(list.contains(list[i - a.len() - 1]));
            }
        }
    }
    assert(!two.contains('/') && !two.contains('~')) by {
        assert forall|i: int| 0 <= i < two.len() implies two[i] != '/' && two[i] != '~' by {
            if i < a.len() {
                assert(a.contains(a[i]));
            } else if a.len() < i < a.len() + 1 + list.len() {
                assert(list.contains(list[i - a.len() - 1]));
            } else if i > a.len() + 1 + list.len() {
                assert(rest.contains(rest[i - a.len() - list.len() - 2]));
            }
        }
    }
    lemma_bare(one);
    lemma_bare(two);
    assert forall|i: int| 0 <= i < a.len() implies !Class::Colon.has(#[trigger] a[i]) by {
        assert(a.contains(a[i]));
    }
    assert forall|i: int| 0 <= i < list.len() implies !Class::Colon.has(#[trigger] list[i]) by {
        assert(list.contains(list[i]));
    }
    text::lemma_split_front(a, ':', list, Class::Colon);
    text::lemma_split_one(list, Class::Colon);
    text::lemma_split_front(a, ':', list.push(':') + rest, Class::Colon);
    text::lemma_split_front(list, ':', rest, Class::Colon);
    text::lemma_split_one(a, Class::Colon);
    assert(text::split_by(one, Class::Colon)[1] == list);
    assert(text::split_by(two, Class::Colon)[1] == list);
}

proof fn lemma_bare(line: Seq<char>)
    requires
        !line.contains('/') && !line.contains('~'),
    ensures
        path_tokens(text::split_by(line, Class::SpaceOrComma)).len() == 0,
{
    let tokens = text::split_by(line, Class::SpaceOrComma);
    assert forall|m: int| 0 <= m < tokens.len() implies !(#[trigger] tokens[m]).contains('/')
        && !tokens[m].contains('~') by {
        if tokens[m].contains('/') {
            lemma_parts_from(line, Class::SpaceOrComma, m, '/');
        }
        if tokens[m].contains('~') {
            lemma_parts_from(line, Class::SpaceOrComma, m, '~');
        }
    }
    lemma_no_path_tokens(tokens);
}

proof fn lemma_digits_behind(gap: Seq<char>, n: u32, after: Seq<char>)
    requires
        0 < n <= i32::MAX,
        forall|i: int| 0 <= i < gap.len() ==> !('0' <= #[trigger] gap[i] <= '9'),
        after.len() > 0 ==> !('0' <= after[0] <= '9'),
    ensures
        first_digits(gap + text::decimal(n as nat) + after) == Some(text::decimal(n as nat)),
    decreases gap.len(),
{
    let d = text::decimal(n as nat);
    let s = gap + d + after;
    text::decimal_reads_back(n as nat);
    if gap.len() == 0 {
        assert(s =~= d + after);
        assert forall|m: int| 0 <= m < d.len() implies !Class::NotDigit.has(#[trigger] s[m]) by {
            assert(s[m] == d[m]);
            assert(text::is_digit(d[m]));
        }
        if after.len() > 0 {
            assert(s[d.len() as int] == after[0]);
        }
        let m = lemma_part(s, Class::NotDigit, 0, d.len() as int);
        assert(s.subrange(0, d.len() as int) =~= d);
        lemma_first_nonempty(text::split_by(s, Class::NotDigit));
    } else {
        let tail = gap.drop_first();
        assert forall|i: int| 0 <= i < tail.len() implies !('0' <= #[trigger] tail[i] <= '9') by {
            assert(tail[i] == gap[i + 1]);
        }
        lemma_digits_behind(tail, n, after);
        let none = Seq::<char>::empty();
        assert(s =~= none.push(gap[0]) + (tail + d + after));
        text::lemma_split_front(none, gap[0], tail + d + after, Class::NotDigit);
        lemma_nonempty_behind(text::split_by(tail + d + after, Class::NotDigit));
    }
}

proof fn lemma_nonempty_behind(v: Seq<Seq<char>>)
    ensures
        text::nonempty_texts(seq![Seq::empty()] + v) == text::nonempty_texts(v),
    decreases v.len(),
{
    let none = Seq::<char>::empty();
    let s = seq![none] + v;
    if v.len() == 0 {
        assert(s =~= seq![none]);
        assert(seq![none].drop_last() =~= v);
    } else {
        assert(s.drop_last() =~= seq![none] + v.drop_last());
        assert(s.last() == v.last());
        lemma_nonempty_behind(v.drop_last());
    }
}

/// Whether a line has a key of a process id at a place, in any case of letters, and nowhere before it.
pub open spec fn pid_key_at(line: Seq<char>, key: Seq<char>, at: int) -> bool {
    &&& text::occurs_at(text::lower_text(line), key, at)
    &&& forall|j: int| 0 <= j < at ==> !#[trigger] text::occurs_at(text::lower_text(line), key, j)
}

/// A process id stands behind `pid=`, or else behind `pid:`, or else behind `pid` and a blank: the
/// first digits there are the number, whatever comes before and behind them. A line with none of the
/// three has no process id.
pub proof fn process_ids_stand_behind_their_key(
    line: Seq<char>,
    at: int,
    gap: Seq<char>,
    n: u32,
    after: Seq<char>,
)
    requires
        0 < n <= i32::MAX,
        line.skip(at + 4) == gap + text::decimal(n as nat) + after,
        forall|i: int| 0 <= i < gap.len() ==> !('0' <= #[trigger] gap[i] <= '9'),
        after.len() > 0 ==> !('0' <= after[0] <= '9'),
    ensures
        ({
            let low = text::lower_text(line);
            &&& pid_key_at(line, "pid="@, at) ==> pid_in(line) == Some(n)
            &&& pid_key_at(line, "pid:"@, at) && !text::holds(low, "pid="@) ==> pid_in(line)
                == Some(n)
            &&& pid_key_at(line, "pid "@, at) && !text::holds(low, "pid="@) && !text::holds(
                low,
                "pid:"@,
            ) ==> pid_in(line) == Some(n)
            &&& !text::holds(low, "pid="@) && !text::holds(low, "pid:"@) && !text::holds(
                low,
                "pid "@,
            ) ==> pid_in(line) is None
        }),
{
    let low = text::lower_text(line);
    lemma_digits_behind(gap, n, after);
    lemma_digits_read(n);
    lemma_contains_holds(low, "pid="@);
    lemma_contains_holds(low, "pid:"@);
    lemma_contains_holds(low, "pid "@);
    lemma_key_found(line, "pid="@, at);
    lemma_key_found(line, "pid:"@, at);
    lemma_key_found(line, "pid "@, at);
}

proof fn lemma_key_found(line: Seq<char>, key: Seq<char>, at: int)
    ensures
        pid_key_at(line, key, at) ==> text::find_text(text::lower_text(line), key) == Some(at),
{
    let low = text::lower_text(line);
    if pid_key_at(line, key, at) {
        text::texts_are_found_at_their_first_place(low, key, at);
        let k = text::find_text(low, key)->0;
        text::lemma_find(low, key, 0);
        if k < at {
            assert(!text::occurs_at(low, key, k));
        }
    }
}

/// A row is split at its tabs and bars, and at two blanks in a row; the columns are trimmed, and blank
/// ones are none.
pub proof fn rows_are_split_into_columns(a: Seq<char>, sep: char, rest: Seq<char>)
    requires
        sep == '\t' || sep == '|',
        !a.contains('\t') && !a.contains('|'),
    ensures
        columns(a.push(sep) + rest) == columns(a) + columns(rest),
        columns(a) == text::nonblank_texts(text::split_at_text(a, "  "@)),
{
    assert forall|i: int| 0 <= i < a.len() implies !Class::TabOrBar.has(#[trigger] a[i]) by {
        assert(a.contains(a[i]));
    }
    text::lemma_split_front(a, sep, rest, Class::TabOrBar);
    text::lemma_split_one(a, Class::TabOrBar);
    lemma_part_columns_front(a, text::split_by(rest, Class::TabOrBar));
    let none = Seq::<Seq<char>>::empty();
    lemma_part_columns_front(a, none);
    assert(seq![a] + none =~= seq![a]);
    assert(part_columns(none) =~= none);
    assert(text::nonblank_texts(text::split_at_text(a, "  "@)) + none =~= text::nonblank_texts(
        text::split_at_text(a, "  "@),
    ));
}

proof fn lemma_part_columns_front(a: Seq<char>, v: Seq<Seq<char>>)
    ensures
        part_columns(seq![a] + v) == text::nonblank_texts(text::split_at_text(a, "  "@))
            + part_columns(v),
    decreases v.len(),
{
    let s = seq![a] + v;
    let mine = text::nonblank_texts(text::split_at_text(a, "  "@));
    if v.len() == 0 {
        let none = Seq::<Seq<char>>::empty();
        assert(s.drop_last() =~= none);
        assert(v =~= none);
        assert(part_columns(none) =~= none);
        assert(none + mine =~= mine + none);
    } else {
        assert(s.drop_last() =~= seq![a] + v.drop_last());
        assert(s.last() == v.last());
        lemma_part_columns_front(a, v.drop_last());
        let more = text::nonblank_texts(text::split_at_text(v.last(), "  "@));
        assert(mine + part_columns(v.drop_last()) + more =~= mine + (part_columns(v.drop_last())
            + more));
    }
}

/// A text is split at a pattern from its first place on, and is one part where it does not hold it.
pub proof fn texts_are_split_at_a_pattern(s: Seq<char>, pat: Seq<char>)
    requires
        pat.len() > 0,
    ensures
        !text::holds(s, pat) ==> text::split_at_text(s, pat) == seq![s],
        text::holds(s, pat) ==> ({
            let i = text::find_text(s, pat)->0;
            &&& text::occurs_at(s, pat, i)
            &&& text::split_at_text(s, pat) == seq![s.take(i)] + text::split_at_text(
                s.skip(i + pat.len()),
                pat,
            )
        }),
{
    lemma_contains_holds(s, pat);
    text::lemma_find(s, pat, 0);
}

// ---------------------------------------------------------------------------------------------
// The names of fields in JSON

proof fn lemma_text_in_turn(
    entries: Seq<(Seq<char>, JsonView)>,
    keys: Seq<Seq<char>>,
    from: int,
    i: int,
    s: Seq<char>,
)
    requires
        0 <= from <= i < keys.len(),
        forall|j: int| from <= j < i ==> no_text(entries, #[trigger] keys[j]),
        has_text(entries, keys[i], s),
    ensures
        first_text(entries, keys, from) == Some(s),
    decreases i - from,
{
    lemma_no_text(entries, keys[from], s);
    if from < i {
        assert(no_text(entries, keys[from]));
        lemma_text_in_turn(entries, keys, from + 1, i, s);
    }
}

/// The id, the working directory and the single directory of a runner in JSON are each under the first
/// of their names that has a text.
pub proof fn json_names_go_in_turn(entries: Seq<(Seq<char>, JsonView)>, i: int, s: Seq<char>)
    requires
        json_runner(JsonView::Object(entries)) is Some,
    ensures
        ({
            let r = json_runner(JsonView::Object(entries))->0;
            let ids = seq!["id"@, "runnerId"@, "runner_id"@, "name"@, "runner"@];
            let cwds = seq!["cwd"@, "workdir"@, "workingDirectory"@, "working_directory"@];
            &&& 0 <= i < 5 && has_text(entries, ids[i], s) && (forall|j: int|
                0 <= j < i ==> no_text(entries, #[trigger] ids[j])) ==> r.id == s
            &&& 0 <= i < 4 && has_text(entries, cwds[i], s) && (forall|j: int|
                0 <= j < i ==> no_text(entries, #[trigger] cwds[j])) ==> r.cwd == Some(s)
        }),
{
    let ids = id_keys();
    let cwds = cwd_keys();
    if 0 <= i < 5 && has_text(entries, ids[i], s) && (forall|j: int|
        0 <= j < i ==> no_text(entries, #[trigger] ids[j])) {
        lemma_text_in_turn(entries, ids, 0, i, s);
    }
    if 0 <= i < 4 && has_text(entries, cwds[i], s) && (forall|j: int|
        0 <= j < i ==> no_text(entries, #[trigger] cwds[j])) {
        lemma_text_in_turn(entries, cwds, 0, i, s);
    }
}

/// A number under the name of an id is the id as it is written.
pub proof fn json_numbers_are_ids(
    entries: Seq<(Seq<char>, JsonView)>,
    shown: Seq<char>,
    unsigned: Option<u64>,
)
    requires
        json_runner(JsonView::Object(entries)) is Some,
        json::entry(entries, "id"@) == Some(JsonView::Number { text: shown, unsigned }),
    ensures
        json_runner(JsonView::Object(entries))->0.id == shown,
{
    let ids = id_keys();
    assert(ids[0] == "id"@);
}

/// Whether an object has no process id under a name.
pub open spec fn no_pid(entries: Seq<(Seq<char>, JsonView)>, key: Seq<char>) -> bool {
    json::entry(entries, key) is None
}

/// Whether an object has a list of directories under a name, as a list or in one text.
pub open spec fn list_under(
    entries: Seq<(Seq<char>, JsonView)>,
    key: Seq<char>,
    dirs: Seq<Seq<char>>,
) -> bool {
    match json::entry(entries, key) {
        Some(JsonView::Array(items)) => dirs == text_items(items),
        Some(JsonView::Text(s)) => dirs == dir_list(s),
        _ => false,
    }
}

proof fn lemma_pid_in_turn(
    entries: Seq<(Seq<char>, JsonView)>,
    keys: Seq<Seq<char>>,
    from: int,
    i: int,
)
    requires
        0 <= from <= i < keys.len(),
        forall|j: int| from <= j < i ==> no_pid(entries, #[trigger] keys[j]),
        json::entry(entries, keys[i]) is Some,
        pid_value(json::entry(entries, keys[i])->0) is Some,
    ensures
        first_pid_of(entries, keys, from) == pid_value(json::entry(entries, keys[i])->0),
    decreases i - from,
{
    if from < i {
        assert(no_pid(entries, keys[from]));
        lemma_pid_in_turn(entries, keys, from + 1, i);
    }
}

proof fn lemma_list_in_turn(
    entries: Seq<(Seq<char>, JsonView)>,
    keys: Seq<Seq<char>>,
    from: int,
    i: int,
    dirs: Seq<Seq<char>>,
)
    requires
        0 <= from <= i < keys.len(),
        forall|j: int| from <= j < i ==> json::entry(entries, #[trigger] keys[j]) is None,
        list_under(entries, keys[i], dirs),
    ensures
        first_list_of(entries, keys, from) == dirs,
    decreases i - from,
{
    if from < i {
        assert(json::entry(entries, keys[from]) is None);
        lemma_list_in_turn(entries, keys, from + 1, i, dirs);
    }
}

/// The process id of a runner in JSON, its list of directories, and the list of a document of
/// directories, are each under the first of their names that is there.
pub proof fn json_lists_and_ids_go_in_turn(
    entries: Seq<(Seq<char>, JsonView)>,
    i: int,
    n: u32,
    shown: Seq<char>,
    dirs: Seq<Seq<char>>,
    s: Seq<char>,
)
    requires
        json_runner(JsonView::Object(entries)) is Some,
        0 < n <= i32::MAX,
    ensures
        ({
            let r = json_runner(JsonView::Object(entries))->0;
            let pids = seq!["pid"@, "PID"@, "processId"@, "process_id"@];
            let lists = seq!["dirs"@, "directories"@, "servedDirs"@, "served_dirs"@];
            let singles = seq!["dir"@, "directory"@, "path"@];
            let papers = seq!["dirs"@, "directories"@, "paths"@];
            &&& 0 <= i < 4 && json::entry(entries, pids[i]) == Some(
                JsonView::Number { text: shown, unsigned: Some(n as u64) },
            ) && (forall|j: int| 0 <= j < i ==> no_pid(entries, #[trigger] pids[j])) ==> r.pid
                == Some(n)
            &&& 0 <= i < 4 && r.cwd is None && dirs.len() > 0 && list_under(entries, lists[i], dirs)
                && (forall|j: int|
                0 <= j < i ==> json::entry(entries, #[trigger] lists[j]) is None) ==> r.dirs == dirs
            &&& 0 <= i < 3 && r.cwd is None && (forall|j: int|
                0 <= j < 4 ==> json::entry(entries, #[trigger] lists[j]) is None) && has_text(
                entries,
                singles[i],
                s,
            ) && (forall|j: int| 0 <= j < i ==> no_text(entries, #[trigger] singles[j])) ==> r.dirs
                == seq![s]
            &&& 0 <= i < 3 && list_under(entries, papers[i], dirs) && (forall|j: int|
                0 <= j < i ==> json::entry(entries, #[trigger] papers[j]) is None)
                ==> document_dirs(JsonView::Object(entries)) == dirs
        }),
{
    let pids = pid_keys();
    let lists = dirs_keys();
    let singles = dir_keys();
    let papers = document_list_keys();
    if 0 <= i < 4 && json::entry(entries, pids[i]) == Some(
        JsonView::Number { text: shown, unsigned: Some(n as u64) },
    ) && (forall|j: int| 0 <= j < i ==> no_pid(entries, #[trigger] pids[j])) {
        lemma_pid_in_turn(entries, pids, 0, i);
    }
    if 0 <= i < 4 && list_under(entries, lists[i], dirs) && (forall|j: int|
        0 <= j < i ==> json::entry(entries, #[trigger] lists[j]) is None) {
        lemma_list_in_turn(entries, lists, 0, i, dirs);
    }
    if forall|j: int| 0 <= j < 4 ==> json::entry(entries, #[trigger] lists[j]) is None {
        assert(json::entry(entries, lists[0]) is None && json::entry(entries, lists[1]) is None
            && json::entry(entries, lists[2]) is None && json::entry(entries, lists[3]) is None);
        reveal_with_fuel(first_list_of, 5);
        if 0 <= i < 3 && has_text(entries, singles[i], s) && (forall|j: int|
            0 <= j < i ==> no_text(entries, #[trigger] singles[j])) {
            lemma_text_in_turn(entries, singles, 0, i, s);
        }
    }
    if 0 <= i < 3 && list_under(entries, papers[i], dirs) && (forall|j: int|
        0 <= j < i ==> json::entry(entries, #[trigger] papers[j]) is None) {
        lemma_list_in_turn(entries, papers, 0, i, dirs);
    }
}

/// The directory of an object in a list is under the first of its names that has a text.
pub proof fn json_items_go_in_turn(
    items: Seq<JsonView>,
    entries: Seq<(Seq<char>, JsonView)>,
    i: int,
    s: Seq<char>,
)
    ensures
        ({
            let names = seq!["path"@, "dir"@, "directory"@];
            0 <= i < 3 && has_text(entries, names[i], s) && (forall|j: int|
                0 <= j < i ==> no_text(entries, #[trigger] names[j])) ==> item_dirs(
                items.push(JsonView::Object(entries)),
            ) == item_dirs(items).push(s)
        }),
{
    let names = item_path_keys();
    assert(items.push(JsonView::Object(entries)).drop_last() =~= items);
    if 0 <= i < 3 && has_text(entries, names[i], s) && (forall|j: int|
        0 <= j < i ==> no_text(entries, #[trigger] names[j])) {
        lemma_text_in_turn(entries, names, 0, i, s);
    }
}

} // verus!
