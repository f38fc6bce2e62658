//! The directory picker: its entries, and what a key does to it.
use vstd::prelude::*;
use crate::config::user_home_dir;
use crate::dirpick;
use crate::dirpick::{
    collect_ranked_paths, DirEntry, PathSource, RankedPath, RankedSearch, RankedView, SearchView,
};
use crate::path;
use crate::path::{file_name, join_path, parent, same_path, strip_base};
use crate::text;
use crate::text::{
    borrowed, chars_of, same_str, string_of, strip_prefix, three, trimmed_str, two,
};

verus! {

/// How long typing rests before a search begins, in milliseconds.
pub const PICKER_DEBOUNCE: u64 = 120;

/// How long the screen waits for a key, in milliseconds.
pub const POLL_LIMIT: u64 = 200;

/// How long the screen waits for a key where a search is due, in milliseconds.
pub const POLL_DUE: u64 = 10;

// ---------------------------------------------------------------------------------------------
// Paths with `~`

/// The path that a typed text stands for, under a home directory.
pub open spec fn expanded(s: Seq<char>, home: Option<Seq<char>>) -> Seq<char> {
    let t = text::trim(s);
    if t.len() == 0 {
        "."@
    } else if t == "~"@ {
        match home {
            Some(h) => h,
            None => "/"@,
        }
    } else {
        match (text::without_prefix(t, "~/"@), home) {
            (Some(rest), Some(h)) => path::joined_path(h, rest),
            _ => t,
        }
    }
}

/// How a path is shown under a home directory: with `~` for it.
pub open spec fn displayed(p: Seq<char>, home: Option<Seq<char>>) -> Seq<char> {
    match home {
        Some(h) => match path::below_text(p, h) {
            Some(rest) => if rest.len() == 0 {
                "~"@
            } else {
                "~/"@ + rest
            },
            None => p,
        },
        None => p,
    }
}

/// The path that a typed text stands for, under a home directory.
pub fn expand_path_in(s: &str, home: Option<&str>) -> (r: String)
    ensures
        r@ == expanded(s@, text::opt_str(home)),
{
    let t = trimmed_str(s);
    if t.as_str().is_empty() {
        return ".".to_owned();
    }
    if same_str(t.as_str(), "~") {
        return match home {
            Some(h) => h.to_owned(),
            None => "/".to_owned(),
        };
    }
    match (strip_prefix(&chars_of(t.as_str()), &chars_of("~/")), home) {
        (Some(rest), Some(h)) => {
            return join_path(h, string_of(rest).as_str());
        },
        _ => {},
    }
    t
}

/// The path that a typed text stands for, under the home directory of the user.
pub fn expand_path(s: &str) -> (r: String)
    ensures
        exists|home: Option<Seq<char>>| r@ == #[trigger] expanded(s@, home),
{
    let home = user_home_dir();
    let r = expand_path_in(s, borrowed(&home));
    assert(r@ == expanded(s@, text::opt_text(home)));
    r
}

/// How a path is shown under a home directory.
pub fn display_path_in(p: &str, home: Option<&str>) -> (r: String)
    ensures
        r@ == displayed(p@, text::opt_str(home)),
{
    match home {
        Some(h) => match strip_base(p, h) {
            Some(rest) => {
                if rest.as_str().is_empty() {
                    return "~".to_owned();
                }
                let mut out = "~/".to_owned();
                out.append(rest.as_str());
                out
            },
            None => p.to_owned(),
        },
        None => p.to_owned(),
    }
}

/// How a path is shown under the home directory of the user.
pub fn display_path(p: &str) -> (r: String)
    ensures
        exists|home: Option<Seq<char>>| r@ == #[trigger] displayed(p@, home),
{
    let home = user_home_dir();
    let r = display_path_in(p, borrowed(&home));
    assert(r@ == displayed(p@, text::opt_text(home)));
    r
}

/// The paths that typed texts stand for.
pub open spec fn expanded_all(v: Seq<Seq<char>>, home: Option<Seq<char>>) -> Seq<Seq<char>> {
    Seq::new(v.len(), |i: int| expanded(v[i], home))
}

/// The recent directories as paths.
pub fn expanded_recent_dirs(recent_dirs: &Vec<String>, home: Option<&str>) -> (r: Vec<String>)
    ensures
        text::strings(r@) == expanded_all(text::strings(recent_dirs@), text::opt_str(home)),
{
    let ghost all = expanded_all(text::strings(recent_dirs@), text::opt_str(home));
    let mut out: Vec<String> = Vec::new();
    for i in 0..recent_dirs.len()
        invariant
            all == expanded_all(text::strings(recent_dirs@), text::opt_str(home)),
            text::strings(out@) == all.take(i as int),
    {
        let ghost before = text::strings(out@);
        assert(text::strings(recent_dirs@)[i as int] == recent_dirs@[i as int]@);
        out.push(expand_path_in(recent_dirs[i].as_str(), home));
        assert(text::strings(out@) == before.push(all[i as int]));
        assert(all.take(i + 1) == all.take(i as int).push(all[i as int]));
    }
    assert(all.take(all.len() as int) == all);
    out
}

// ---------------------------------------------------------------------------------------------
// Entries

/// An entry of the picker.
#[derive(Debug, Clone, PartialEq, Eq)]
pub struct PickerEntry {
    pub label: String,
    pub path: String,
}

/// What a [`PickerEntry`] holds.
#[verifier::ext_equal]
pub struct EntryView {
    pub label: Seq<char>,
    pub path: Seq<char>,
}

impl View for PickerEntry {
    type V = EntryView;

    open spec fn view(&self) -> EntryView {
        EntryView { label: self.label@, path: self.path@ }
    }
}

/// What entries hold.
pub open spec fn entries_view(v: Seq<PickerEntry>) -> Seq<EntryView> {
    Seq::new(v.len(), |i: int| v[i]@)
}

/// How a ranked path reads in the picker.
pub open spec fn entry_label(r: RankedView, root: Seq<char>, home: Option<Seq<char>>) -> Seq<char> {
    let shown = displayed(r.path, home);
    match r.source {
        PathSource::Current => "current  "@ + shown,
        PathSource::Home => "home     "@ + shown,
        PathSource::Recent => "recent   "@ + shown,
        PathSource::Zoxide => "zoxide   "@ + shown,
        PathSource::Parent => "..       "@ + shown,
        PathSource::Browse => match path::file_name_text(r.path) {
            Some(name) => "browse   "@ + name + "/"@,
            None => "browse   "@ + shown + "/"@,
        },
        PathSource::Nested => match path::below_text(r.path, root) {
            Some(rel) => "nested   "@ + rel + "/"@,
            None => "nested   "@ + shown,
        },
        PathSource::Exact => "exact    "@ + shown,
    }
}

/// The entry of a ranked path.
pub open spec fn entry_of(r: RankedView, root: Seq<char>, home: Option<Seq<char>>) -> EntryView {
    EntryView { label: entry_label(r, root, home), path: r.path }
}

/// The entry of a ranked path.
pub fn ranked_to_entry(ranked: &RankedPath, browse_root: &str, home: Option<&str>) -> (r:
    PickerEntry)
    ensures
        r@ == entry_of(ranked@, browse_root@, text::opt_str(home)),
{
    let p = ranked.path.as_str();
    let shown = display_path_in(p, home);
    let label = match ranked.source {
        PathSource::Current => two("current  ", shown.as_str()),
        PathSource::Home => two("home     ", shown.as_str()),
        PathSource::Recent => two("recent   ", shown.as_str()),
        PathSource::Zoxide => two("zoxide   ", shown.as_str()),
        PathSource::Parent => two("..       ", shown.as_str()),
        PathSource::Browse => match file_name(p) {
            Some(name) => three("browse   ", name.as_str(), "/"),
            None => three("browse   ", shown.as_str(), "/"),
        },
        PathSource::Nested => match strip_base(p, browse_root) {
            Some(rel) => three("nested   ", rel.as_str(), "/"),
            None => two("nested   ", shown.as_str()),
        },
        PathSource::Exact => two("exact    ", shown.as_str()),
    };
    PickerEntry { label, path: ranked.path.clone() }
}

/// Where the picker stands in the file system.
#[derive(Debug)]
pub struct Surroundings {
    pub cwd: Option<String>,
    pub home: Option<String>,
}

/// What the file system answers to a picker.
#[derive(Debug)]
pub struct Listing {
    /// Whether the typed path is a directory.
    pub typed_is_dir: bool,
    /// The entries of the browse root.
    pub entries: Vec<DirEntry>,
}

/// The path that a query is, if it is not blank.
pub open spec fn typed_path(query: Seq<char>, home: Option<Seq<char>>) -> Option<Seq<char>> {
    if text::trim(query).len() == 0 {
        None
    } else {
        Some(expanded(text::trim(query), home))
    }
}

/// The path that a query is, if it is not blank.
pub fn typed_path_of(query: &str, home: Option<&str>) -> (r: Option<String>)
    ensures
        text::opt_text(r) == typed_path(query@, text::opt_str(home)),
{
    let t = trimmed_str(query);
    if t.as_str().is_empty() {
        None
    } else {
        Some(expand_path_in(t.as_str(), home))
    }
}

/// The search behind a list of entries.
pub open spec fn search_of(
    query: Seq<char>,
    browse_root: Seq<char>,
    recent_dirs: Seq<Seq<char>>,
    zoxide_dirs: Seq<Seq<char>>,
    nested_dirs: Seq<Seq<char>>,
    browse_children: bool,
    listing: Listing,
    around: Surroundings,
) -> SearchView {
    SearchView {
        query,
        browse_root,
        recent_dirs,
        zoxide_dirs,
        nested_dirs,
        cwd: text::opt_text(around.cwd),
        home: text::opt_text(around.home),
        typed_exact: typed_path(query, text::opt_text(around.home)),
        typed_is_dir: listing.typed_is_dir,
        browse_children,
        browse_entries: listing.entries@,
    }
}

/// The entries of ranked paths.
pub open spec fn entries_of(
    v: Seq<RankedView>,
    root: Seq<char>,
    home: Option<Seq<char>>,
) -> Seq<EntryView> {
    Seq::new(v.len(), |i: int| entry_of(v[i], root, home))
}

/// The entries to show for a query, from all sources.
pub fn picker_entries_from_sources(
    query: &str,
    browse_root: &str,
    recent_dirs: &Vec<String>,
    zoxide_dirs: &Vec<String>,
    nested_dirs: &Vec<String>,
    browse_children: bool,
    listing: &Listing,
    around: &Surroundings,
) -> (r: Vec<PickerEntry>)
    ensures
        entries_view(r@) == entries_of(
            dirpick::ranked(
                search_of(
                    query@,
                    browse_root@,
                    text::strings(recent_dirs@),
                    text::strings(zoxide_dirs@),
                    text::strings(nested_dirs@),
                    browse_children,
                    *listing,
                    *around,
                ),
            ),
            browse_root@,
            text::opt_text(around.home),
        ),
{
    let home = borrowed(&around.home);
    let typed = typed_path_of(query, home);
    let search = RankedSearch {
        query,
        browse_root,
        recent_dirs,
        zoxide_dirs,
        nested_dirs,
        cwd: borrowed(&around.cwd),
        home,
        typed_exact: borrowed(&typed),
        typed_is_dir: listing.typed_is_dir,
        browse_children,
        browse_entries: &listing.entries,
    };
    let ranked = collect_ranked_paths(&search);
    let ghost all = dirpick::ranked_paths(ranked@);
    let ghost want = entries_of(all, browse_root@, text::opt_text(around.home));
    let mut out: Vec<PickerEntry> = Vec::new();
    for i in 0..ranked.len()
        invariant
            all == dirpick::ranked_paths(ranked@),
            text::opt_str(home) == text::opt_text(around.home),
            want == entries_of(all, browse_root@, text::opt_text(around.home)),
            entries_view(out@) == want.take(i as int),
    {
        let ghost before = entries_view(out@);
        assert(all[i as int] == ranked@[i as int]@);
        let e = ranked_to_entry(&ranked[i], browse_root, home);
        let ghost ev = e@;
        out.push(e);
        assert(entries_view(out@) == before.push(ev));
        assert(want.take(i + 1) == want.take(i as int).push(want[i as int]));
    }
    assert(want.take(want.len() as int) == want);
    out
}

// ---------------------------------------------------------------------------------------------
// Keys

/// A key.
#[derive(Debug, Clone, Copy, PartialEq, Eq, Structural)]
pub enum Key {
    Char(char),
    Enter,
    Esc,
    Tab,
    BackTab,
    Backspace,
    Left,
    Right,
    Up,
    Down,
    Other,
}

/// A key that was pressed.
#[derive(Debug, Clone, Copy, PartialEq, Eq, Structural)]
pub struct KeyPress {
    pub key: Key,
    /// Whether control was held.
    pub control: bool,
    /// Whether no modifier was held.
    pub plain: bool,
}

/// What the picked directory is for.
#[derive(Debug, Clone, Copy, PartialEq, Eq, Structural)]
pub enum PickerPurpose {
    Start,
    AddDir,
}

/// Whether a character goes to the filter: any one in filter mode, else any but `hjkl`.
pub open spec fn filters(filter_mode: bool, c: char) -> bool {
    filter_mode || !(c == 'h' || c == 'j' || c == 'k' || c == 'l')
}

/// Whether a character goes to the filter.
pub fn picker_char_is_filter(filter_mode: bool, c: char) -> (r: bool)
    ensures
        r == filters(filter_mode, c),
{
    filter_mode || !(c == 'h' || c == 'j' || c == 'k' || c == 'l')
}

/// The directory picker.
#[derive(Debug)]
pub struct DirPicker {
    pub purpose: PickerPurpose,
    pub input: String,
    pub filter_mode: bool,
    pub browse_root: String,
    pub cursor: usize,
    pub entries: Vec<PickerEntry>,
    pub search_gen: u64,
    pub searching: bool,
    /// When a search begins, in milliseconds.
    pub debounce_until: Option<u64>,
}

/// What a [`DirPicker`] holds.
#[verifier::ext_equal]
pub struct PickerView {
    pub purpose: PickerPurpose,
    pub input: Seq<char>,
    pub filter_mode: bool,
    pub browse_root: Seq<char>,
    pub cursor: nat,
    pub entries: Seq<EntryView>,
    pub search_gen: u64,
    pub searching: bool,
    pub debounce_until: Option<u64>,
}

impl View for DirPicker {
    type V = PickerView;

    open spec fn view(&self) -> PickerView {
        PickerView {
            purpose: self.purpose,
            input: self.input@,
            filter_mode: self.filter_mode,
            browse_root: self.browse_root@,
            cursor: self.cursor as nat,
            entries: entries_view(self.entries@),
            search_gen: self.search_gen,
            searching: self.searching,
            debounce_until: self.debounce_until,
        }
    }
}

/// A cursor that stays on a list of `n` entries.
pub open spec fn clamped(cursor: nat, n: nat) -> nat {
    if cursor < n {
        cursor
    } else if n > 0 {
        (n - 1) as nat
    } else {
        0
    }
}

/// A time that lies `d` milliseconds after another.
pub open spec fn later(t: u64, d: u64) -> u64 {
    if t + d <= u64::MAX {
        (t + d) as u64
    } else {
        u64::MAX
    }
}

/// The number after `n`, round the end.
pub open spec fn wrapped_next(n: u64) -> u64 {
    if n < u64::MAX {
        (n + 1) as u64
    } else {
        0
    }
}

/// A picker whose list is to be made anew: older searches are void; a blank input ends the filter
/// and shows the children, another one waits for a search.
pub open spec fn refreshed(p: PickerView, now: u64) -> PickerView {
    let next = PickerView { search_gen: wrapped_next(p.search_gen), ..p };
    if text::trim(p.input).len() == 0 {
        PickerView {
            searching: false,
            debounce_until: None,
            filter_mode: p.filter_mode && p.input.len() > 0,
            ..next
        }
    } else {
        PickerView { searching: true, debounce_until: Some(later(now, PICKER_DEBOUNCE)), ..next }
    }
}

/// A picker with a new list.
pub open spec fn relisted(p: PickerView, entries: Seq<EntryView>) -> PickerView {
    PickerView { entries, cursor: clamped(p.cursor, entries.len()), ..p }
}

/// The list of a picker that was made anew.
pub open spec fn fresh_entries(
    p: PickerView,
    recent_dirs: Seq<Seq<char>>,
    listing: Listing,
    around: Surroundings,
) -> Seq<EntryView> {
    let q = text::trim(p.input);
    let home = text::opt_text(around.home);
    entries_of(
        dirpick::ranked(
            search_of(
                q,
                p.browse_root,
                expanded_all(recent_dirs, home),
                Seq::empty(),
                Seq::empty(),
                q.len() == 0,
                listing,
                around,
            ),
        ),
        p.browse_root,
        home,
    )
}

/// What a key does to a picker.
#[derive(Debug)]
pub enum PickerMove {
    /// Nothing else is to be done.
    Stay,
    /// The list is to be made anew.
    Refresh,
    /// The picker is closed.
    Close,
    /// This path was chosen, and the picker is closed.
    Chosen(String),
    /// The picker goes to this path, if it is a directory.
    Descend(String),
}

/// What a [`PickerMove`] holds.
#[verifier::ext_equal]
pub enum MoveView {
    Stay,
    Refresh,
    Close,
    Chosen(Seq<char>),
    Descend(Seq<char>),
}

impl View for PickerMove {
    type V = MoveView;

    open spec fn view(&self) -> MoveView {
        match self {
            PickerMove::Stay => MoveView::Stay,
            PickerMove::Refresh => MoveView::Refresh,
            PickerMove::Close => MoveView::Close,
            PickerMove::Chosen(p) => MoveView::Chosen(p@),
            PickerMove::Descend(p) => MoveView::Descend(p@),
        }
    }
}

/// The path under the cursor.
pub open spec fn selected_path(p: PickerView) -> Option<Seq<char>> {
    if p.cursor < p.entries.len() {
        Some(p.entries[p.cursor as int].path)
    } else {
        None
    }
}

/// The path that Enter chooses: the one under the cursor, else the typed one.
pub open spec fn chosen_path(p: PickerView, home: Option<Seq<char>>) -> Option<Seq<char>> {
    match selected_path(p) {
        Some(x) => Some(x),
        None => typed_path(p.input, home),
    }
}

/// A picker one directory up, if there is one.
pub open spec fn up(p: PickerView) -> (PickerView, MoveView) {
    match path::parent_text(p.browse_root) {
        Some(d) => (PickerView { browse_root: d, cursor: 0, ..p }, MoveView::Refresh),
        None => (p, MoveView::Stay),
    }
}

/// A picker that is to go to the path under the cursor.
pub open spec fn down_into(p: PickerView) -> (PickerView, MoveView) {
    match selected_path(p) {
        Some(d) => (p, MoveView::Descend(d)),
        None => (p, MoveView::Stay),
    }
}

/// A picker with the cursor one further, if there is an entry.
pub open spec fn cursor_on(p: PickerView) -> (PickerView, MoveView) {
    (
        PickerView {
            cursor: if p.cursor + 1 < p.entries.len() {
                p.cursor + 1
            } else {
                p.cursor
            },
            ..p
        },
        MoveView::Stay,
    )
}

/// A picker with the cursor one back, if there is an entry.
pub open spec fn cursor_back(p: PickerView) -> (PickerView, MoveView) {
    (
        PickerView {
            cursor: if p.cursor > 0 {
                (p.cursor - 1) as nat
            } else {
                0
            },
            ..p
        },
        MoveView::Stay,
    )
}

/// The text without its last character.
pub open spec fn without_last(s: Seq<char>) -> Seq<char> {
    if s.len() > 0 {
        s.drop_last()
    } else {
        s
    }
}

/// What a key does to a picker.
pub open spec fn keyed(p: PickerView, k: KeyPress, home: Option<Seq<char>>) -> (
    PickerView,
    MoveView,
) {
    let navigates = k.plain && !p.filter_mode;
    match k.key {
        Key::Esc => if p.filter_mode || p.input.len() > 0 {
            (
                PickerView { input: Seq::empty(), filter_mode: false, cursor: 0, ..p },
                MoveView::Refresh,
            )
        } else {
            (p, MoveView::Close)
        },
        Key::Enter => match chosen_path(p, home) {
            Some(x) => (p, MoveView::Chosen(x)),
            None => (p, MoveView::Stay),
        },
        Key::Right => down_into(p),
        Key::Left => up(p),
        Key::Down => cursor_on(p),
        Key::Up => cursor_back(p),
        Key::Backspace => {
            let input = without_last(p.input);
            (
                PickerView {
                    input,
                    filter_mode: p.filter_mode && input.len() > 0,
                    cursor: 0,
                    ..p
                },
                MoveView::Refresh,
            )
        },
        Key::Char(c) => if navigates && c == 'l' {
            down_into(p)
        } else if navigates && c == 'h' {
            up(p)
        } else if navigates && c == 'j' {
            cursor_on(p)
        } else if navigates && c == 'k' {
            cursor_back(p)
        } else if navigates && c == '/' {
            (PickerView { filter_mode: true, ..p }, MoveView::Stay)
        } else if !k.control && filters(p.filter_mode, c) {
            (
                PickerView { filter_mode: true, input: p.input.push(c), cursor: 0, ..p },
                MoveView::Refresh,
            )
        } else {
            (p, MoveView::Stay)
        },
        _ => (p, MoveView::Stay),
    }
}

/// A picker that goes to a directory.
pub open spec fn descended(p: PickerView, dir: Seq<char>) -> PickerView {
    PickerView { browse_root: dir, cursor: 0, ..p }
}

/// The first entry from `i` on with a path.
pub open spec fn entry_at(entries: Seq<EntryView>, p: Seq<char>, i: int) -> Option<int>
    decreases entries.len() - i,
{
    if i < 0 || i >= entries.len() {
        None
    } else if path::same_path_text(entries[i].path, p) {
        Some(i)
    } else {
        entry_at(entries, p, i + 1)
    }
}

/// A picker with the results of a search, unless a newer one is under way. The cursor stays on its
/// path, where that is still there.
pub open spec fn with_results(p: PickerView, gen: u64, entries: Seq<EntryView>) -> PickerView {
    if p.search_gen != gen {
        p
    } else {
        PickerView {
            entries,
            searching: false,
            cursor: match selected_path(p) {
                Some(x) => match entry_at(entries, x, 0) {
                    Some(i) => i as nat,
                    None => 0,
                },
                None => clamped(p.cursor, entries.len()),
            },
            ..p
        }
    }
}

/// A search that is due.
#[derive(Debug)]
pub struct PickerJob {
    pub gen: u64,
    pub query: String,
    pub browse_root: String,
    pub recent_dirs: Vec<String>,
}

/// What a [`PickerJob`] holds.
#[verifier::ext_equal]
pub struct SearchJobView {
    pub gen: u64,
    pub query: Seq<char>,
    pub browse_root: Seq<char>,
    pub recent_dirs: Seq<Seq<char>>,
}

impl View for PickerJob {
    type V = SearchJobView;

    open spec fn view(&self) -> SearchJobView {
        SearchJobView {
            gen: self.gen,
            query: self.query@,
            browse_root: self.browse_root@,
            recent_dirs: text::strings(self.recent_dirs@),
        }
    }
}

/// Whether a search is due.
pub open spec fn due(p: PickerView, now: u64) -> bool {
    p.debounce_until is Some && now >= p.debounce_until->0
}

/// A picker after its search was begun, if one was due.
pub open spec fn dispatched(p: PickerView, now: u64) -> PickerView {
    if due(p, now) {
        PickerView {
            debounce_until: None,
            searching: p.searching && text::trim(p.input).len() > 0,
            ..p
        }
    } else {
        p
    }
}

/// The search that is begun, if one is due and there is anything to search for.
pub open spec fn search_job(
    p: PickerView,
    now: u64,
    recent_dirs: Seq<Seq<char>>,
    home: Option<Seq<char>>,
) -> Option<SearchJobView> {
    if due(p, now) && text::trim(p.input).len() > 0 {
        Some(
            SearchJobView {
                gen: p.search_gen,
                query: text::trim(p.input),
                browse_root: p.browse_root,
                recent_dirs: expanded_all(recent_dirs, home),
            },
        )
    } else {
        None
    }
}

/// How long the screen waits for a key: no longer than to the next search.
pub open spec fn wait_for_key(debounce_until: Option<u64>, now: u64) -> u64 {
    match debounce_until {
        Some(until) => if until <= now {
            POLL_DUE
        } else if until - now < POLL_LIMIT {
            (until - now) as u64
        } else {
            POLL_LIMIT
        },
        None => POLL_LIMIT,
    }
}

/// A place on a list of `n`: the same one, or the last one where it lies beyond.
pub(crate) fn clamp(cursor: usize, n: usize) -> (r: usize)
    ensures
        r == clamped(cursor as nat, n as nat),
{
    if cursor < n {
        cursor
    } else if n > 0 {
        n - 1
    } else {
        0
    }
}

/// A time that lies `d` milliseconds after another.
pub fn time_later(t: u64, d: u64) -> (r: u64)
    ensures
        r == later(t, d),
{
    if t <= u64::MAX - d {
        t + d
    } else {
        u64::MAX
    }
}

impl DirPicker {
    /// A picker that begins at a directory; its list is still to be made.
    pub fn new(purpose: PickerPurpose, browse_root: String) -> (r: DirPicker)
        ensures
            r@ == (PickerView {
                purpose,
                input: Seq::empty(),
                filter_mode: false,
                browse_root: browse_root@,
                cursor: 0,
                entries: Seq::empty(),
                search_gen: 0,
                searching: false,
                debounce_until: None,
            }),
    {
        let r = DirPicker {
            purpose,
            input: String::new(),
            filter_mode: false,
            browse_root,
            cursor: 0,
            entries: Vec::new(),
            search_gen: 0,
            searching: false,
            debounce_until: None,
        };
        assert(r@.entries == Seq::<EntryView>::empty());
        r
    }

    /// Prepares the list to be made anew.
    pub fn refresh(&mut self, now: u64)
        ensures
            final(self)@ == refreshed(old(self)@, now),
    {
        self.search_gen = if self.search_gen < u64::MAX {
            self.search_gen + 1
        } else {
            0
        };
        if trimmed_str(self.input.as_str()).as_str().is_empty() {
            self.searching = false;
            self.debounce_until = None;
            self.filter_mode = self.filter_mode && !self.input.as_str().is_empty();
        } else {
            self.searching = true;
            self.debounce_until = Some(time_later(now, PICKER_DEBOUNCE));
        }
    }

    /// Makes the list anew.
    pub fn list(&mut self, recent_dirs: &Vec<String>, listing: &Listing, around: &Surroundings)
        ensures
            final(self)@ == relisted(
                old(self)@,
                fresh_entries(old(self)@, text::strings(recent_dirs@), *listing, *around),
            ),
    {
        let query = trimmed_str(self.input.as_str());
        let none: Vec<String> = Vec::new();
        assert(text::strings(none@) == Seq::<Seq<char>>::empty());
        let recents = expanded_recent_dirs(recent_dirs, borrowed(&around.home));
        let entries = picker_entries_from_sources(
            query.as_str(),
            self.browse_root.as_str(),
            &recents,
            &none,
            &none,
            query.as_str().is_empty(),
            listing,
            around,
        );
        self.cursor = clamp(self.cursor, entries.len());
        self.entries = entries;
    }

    /// The path under the cursor.
    pub fn selected(&self) -> (r: Option<String>)
        ensures
            text::opt_text(r) == selected_path(self@),
    {
        if self.cursor < self.entries.len() {
            Some(self.entries[self.cursor].path.clone())
        } else {
            None
        }
    }

    fn into_selected(&self) -> (r: PickerMove)
        ensures
            (self@, r@) == down_into(self@),
    {
        match self.selected() {
            Some(p) => PickerMove::Descend(p),
            None => PickerMove::Stay,
        }
    }

    fn go_up(&mut self) -> (r: PickerMove)
        ensures
            (final(self)@, r@) == up(old(self)@),
    {
        match parent(self.browse_root.as_str()) {
            Some(d) => {
                self.browse_root = d;
                self.cursor = 0;
                PickerMove::Refresh
            },
            None => PickerMove::Stay,
        }
    }

    fn go_on(&mut self) -> (r: PickerMove)
        ensures
            (final(self)@, r@) == cursor_on(old(self)@),
    {
        let n: usize = self.entries.len();
        if n > 0 && self.cursor < n - 1 {
            self.cursor = self.cursor + 1;
        }
        PickerMove::Stay
    }

    fn go_back(&mut self) -> (r: PickerMove)
        ensures
            (final(self)@, r@) == cursor_back(old(self)@),
    {
        if self.cursor > 0 {
            self.cursor = self.cursor - 1;
        }
        PickerMove::Stay
    }

    /// What a key does.
    pub fn key(&mut self, k: KeyPress, home: Option<&str>) -> (r: PickerMove)
        ensures
            (final(self)@, r@) == keyed(old(self)@, k, text::opt_str(home)),
    {
        let navigates: bool = k.plain && !self.filter_mode;
        match k.key {
            Key::Esc => {
                if self.filter_mode || !self.input.as_str().is_empty() {
                    self.input = String::new();
                    self.filter_mode = false;
                    self.cursor = 0;
                    PickerMove::Refresh
                } else {
                    PickerMove::Close
                }
            },
            Key::Enter => {
                match self.selected() {
                    Some(p) => {
                        return PickerMove::Chosen(p);
                    },
                    None => {},
                }
                match typed_path_of(self.input.as_str(), home) {
                    Some(p) => PickerMove::Chosen(p),
                    None => PickerMove::Stay,
                }
            },
            Key::Right => self.into_selected(),
            Key::Left => self.go_up(),
            Key::Down => self.go_on(),
            Key::Up => self.go_back(),
            Key::Backspace => {
                let mut chars = chars_of(self.input.as_str());
                let ghost before = chars@;
                let _ = chars.pop();
                assert(chars@ == without_last(before));
                self.input = string_of(&chars);
                if chars.len() == 0 {
                    self.filter_mode = false;
                }
                self.cursor = 0;
                PickerMove::Refresh
            },
            Key::Char(c) => {
                if navigates && c == 'l' {
                    return self.into_selected();
                }
                if navigates && c == 'h' {
                    return self.go_up();
                }
                if navigates && c == 'j' {
                    return self.go_on();
                }
                if navigates && c == 'k' {
                    return self.go_back();
                }
                if navigates && c == '/' {
                    self.filter_mode = true;
                    return PickerMove::Stay;
                }
                if !k.control && picker_char_is_filter(self.filter_mode, c) {
                    self.filter_mode = true;
                    self.input.push(c);
                    self.cursor = 0;
                    return PickerMove::Refresh;
                }
                PickerMove::Stay
            },
            _ => PickerMove::Stay,
        }
    }

    /// Goes to a directory.
    pub fn descend(&mut self, dir: String)
        ensures
            final(self)@ == descended(old(self)@, dir@),
    {
        self.browse_root = dir;
        self.cursor = 0;
    }

    /// Takes up the results of a search.
    pub fn results(&mut self, gen: u64, entries: Vec<PickerEntry>)
        ensures
            final(self)@ == with_results(old(self)@, gen, entries_view(entries@)),
    {
        if self.search_gen != gen {
            return ;
        }
        let prev = self.selected();
        let ghost all = entries_view(entries@);
        let cursor: usize = match &prev {
            Some(p) => position_of(&entries, p.as_str()),
            None => clamp(self.cursor, entries.len()),
        };
        self.entries = entries;
        self.searching = false;
        self.cursor = cursor;
    }

    /// Begins a search, if one is due.
    pub fn dispatch(&mut self, now: u64, recent_dirs: &Vec<String>, home: Option<&str>) -> (r:
        Option<PickerJob>)
        ensures
            final(self)@ == dispatched(old(self)@, now),
            match r {
                Some(j) => search_job(
                    old(self)@,
                    now,
                    text::strings(recent_dirs@),
                    text::opt_str(home),
                ) == Some(j@),
                None => search_job(
                    old(self)@,
                    now,
                    text::strings(recent_dirs@),
                    text::opt_str(home),
                ) is None,
            },
    {
        match self.debounce_until {
            Some(until) => {
                if now < until {
                    return None;
                }
            },
            None => {
                return None;
            },
        }
        self.debounce_until = None;
        let query = trimmed_str(self.input.as_str());
        if query.as_str().is_empty() {
            self.searching = false;
            return None;
        }
        Some(
            PickerJob {
                gen: self.search_gen,
                query,
                browse_root: self.browse_root.clone(),
                recent_dirs: expanded_recent_dirs(recent_dirs, home),
            },
        )
    }
}

fn position_of(entries: &Vec<PickerEntry>, p: &str) -> (r: usize)
    ensures
        r == match entry_at(entries_view(entries@), p@, 0) {
            Some(i) => i,
            None => 0,
        },
{
    let ghost all = entries_view(entries@);
    for i in 0..entries.len()
        invariant
            all == entries_view(entries@),
            entry_at(all, p@, 0) == entry_at(all, p@, i as int),
    {
        assert(all[i as int] == entries@[i as int]@);
        if same_path(entries[i].path.as_str(), p) {
            return i;
        }
    }
    0
}

/// How long the screen waits for a key.
pub fn poll_timeout(debounce_until: Option<u64>, now: u64) -> (r: u64)
    ensures
        r == wait_for_key(debounce_until, now),
{
    match debounce_until {
        Some(until) => {
            if until <= now {
                POLL_DUE
            } else if until - now < POLL_LIMIT {
                until - now
            } else {
                POLL_LIMIT
            }
        },
        None => POLL_LIMIT,
    }
}

/// The entries of a search, from zoxide, recent directories and what a walk found.
pub fn filter_search_entries(
    job: &PickerJob,
    zoxide_dirs: &Vec<String>,
    nested_dirs: &Vec<String>,
    listing: &Listing,
    around: &Surroundings,
) -> (r: Vec<PickerEntry>)
    ensures
        entries_view(r@) == entries_of(
            dirpick::ranked(
                search_of(
                    job@.query,
                    job@.browse_root,
                    job@.recent_dirs,
                    text::strings(zoxide_dirs@),
                    text::strings(nested_dirs@),
                    false,
                    *listing,
                    *around,
                ),
            ),
            job@.browse_root,
            text::opt_text(around.home),
        ),
{
    picker_entries_from_sources(
        job.query.as_str(),
        job.browse_root.as_str(),
        &job.recent_dirs,
        zoxide_dirs,
        nested_dirs,
        false,
        listing,
        around,
    )
}

// ---------------------------------------------------------------------------------------------
// Laws of the picker

/// Whether the cursor is on an entry, or at the top of an empty list.
pub open spec fn cursor_sound(p: PickerView) -> bool {
    p.cursor < p.entries.len() || p.cursor == 0
}

proof fn lemma_entry_at(entries: Seq<EntryView>, p: Seq<char>, i: int)
    requires
        0 <= i,
    ensures
        match entry_at(entries, p, i) {
            Some(k) => i <= k < entries.len() && path::same_path_text(entries[k].path, p),
            None => true,
        },
    decreases entries.len() - i,
{
    if i < entries.len() {
        lemma_entry_at(entries, p, i + 1);
    }
}

/// The cursor stays on the list, whatever key is pressed, and whatever list or result arrives.
pub proof fn cursor_stays_on_list(
    p: PickerView,
    k: KeyPress,
    home: Option<Seq<char>>,
    now: u64,
    gen: u64,
    entries: Seq<EntryView>,
)
    requires
        cursor_sound(p),
    ensures
        cursor_sound(keyed(p, k, home).0),
        cursor_sound(refreshed(p, now)),
        cursor_sound(relisted(p, entries)),
        cursor_sound(with_results(p, gen, entries)),
        cursor_sound(dispatched(p, now)),
{
    match selected_path(p) {
        Some(x) => lemma_entry_at(entries, x, 0),
        None => {},
    }
}

/// Results of a search that is no longer the newest change nothing.
pub proof fn stale_results_are_dropped(p: PickerView, now: u64, entries: Seq<EntryView>)
    ensures
        with_results(refreshed(p, now), p.search_gen, entries) == refreshed(p, now),
{
}

/// Esc clears a filter first, and closes the picker when there is none.
pub proof fn esc_clears_then_closes(p: PickerView, k: KeyPress, home: Option<Seq<char>>)
    requires
        k.key == Key::Esc,
    ensures
        p.input.len() == 0 && !p.filter_mode ==> keyed(p, k, home).1 is Close,
        p.input.len() > 0 || p.filter_mode ==> keyed(p, k, home).1 is Refresh && keyed(
            keyed(p, k, home).0,
            k,
            home,
        ).1 is Close,
{
}

/// In filter mode every character that is typed without control goes to the input, `hjkl` too; and
/// a typed character starts filter mode.
pub proof fn typing_filters(p: PickerView, c: char, k: KeyPress, home: Option<Seq<char>>)
    requires
        k.key == Key::Char(c),
        !k.control,
        p.filter_mode || !(c == 'h' || c == 'j' || c == 'k' || c == 'l' || c == '/'),
    ensures
        keyed(p, k, home).0.input == p.input.push(c),
        keyed(p, k, home).0.filter_mode,
        keyed(p, k, home).1 is Refresh,
{
}

/// Enter takes the highlighted entry, whatever was typed; the typed path is taken only where no
/// entry is highlighted, and nothing where nothing was typed either. The picker stays as it is.
pub proof fn enter_takes_the_highlighted(p: PickerView, k: KeyPress, home: Option<Seq<char>>)
    requires
        k.key == Key::Enter,
    ensures
        keyed(p, k, home).0 == p,
        p.cursor < p.entries.len() ==> keyed(p, k, home).1 == MoveView::Chosen(
            p.entries[p.cursor as int].path,
        ),
        p.cursor >= p.entries.len() && text::blank(p.input) ==> keyed(p, k, home).1 is Stay,
        p.cursor >= p.entries.len() && !text::blank(p.input) ==> keyed(p, k, home).1 is Chosen
            && stands_for(keyed(p, k, home).1->Chosen_0, text::trim(p.input), home),
{
    let cut = text::trimming_drops_only_spaces(p.input);
    text::trim_is_stable(p.input);
    if !text::blank(p.input) {
        typing_is_expanded(p.input, home);
        typing_is_expanded(text::trim(p.input), home);
    }
}

/// Whether a path is what a typed text stands for: the home directory for `~`, what is below it for
/// a text that starts with `~/`, and else the text itself.
pub open spec fn stands_for(path: Seq<char>, typed: Seq<char>, home: Option<Seq<char>>) -> bool {
    let below = typed.len() >= 2 && typed[0] == '~' && typed[1] == '/';
    if typed == seq!['~'] {
        path == match home {
            Some(h) => h,
            None => seq!['/'],
        }
    } else if below && home is Some {
        let rest = typed.skip(2);
        let h = home->0;
        if rest.len() > 0 && rest[0] == '/' {
            path == rest
        } else if h.len() > 0 && h.last() != '/' {
            path == h + seq!['/'] + rest
        } else {
            path == h + rest
        }
    } else {
        path == typed
    }
}

/// A typed text is the path that it stands for, without the space around it; where nothing was
/// typed, that is the working directory.
pub proof fn typing_is_expanded(typed: Seq<char>, home: Option<Seq<char>>)
    ensures
        text::blank(typed) ==> expanded(typed, home) == seq!['.'],
        !text::blank(typed) ==> stands_for(expanded(typed, home), text::trim(typed), home),
{
    let cut = text::trimming_drops_only_spaces(typed);
    let t = text::trim(typed);
    reveal_strlit(".");
    reveal_strlit("~");
    reveal_strlit("/");
    reveal_strlit("~/");
    assert("."@ =~= seq!['.']);
    assert("~"@ =~= seq!['~']);
    assert("/"@ =~= seq!['/']);
    assert("~/"@ =~= seq!['~', '/']);
    if t.len() >= 2 {
        assert(t.take(2) =~= seq![t[0], t[1]]);
        assert(t.take(2)[0] == t[0] && t.take(2)[1] == t[1]);
        assert(seq!['~', '/'][0] == '~' && seq!['~', '/'][1] == '/');
    }
    if home is Some {
        let h = home->0;
        assert(h.push('/') + t.skip(2) =~= h + seq!['/'] + t.skip(2));
    }
}

/// A path at or below the home directory is shown from `~` on, any other as it is.
pub proof fn home_is_shown_short(p: Seq<char>, home: Option<Seq<char>>)
    ensures
        home is None || !path::is_below(p, home->0) ==> displayed(p, home) == p,
        displayed(p, home) != p ==> displayed(p, home)[0] == '~' && (displayed(p, home).len() == 1
            || displayed(p, home)[1] == '/'),
{
    reveal_strlit("~");
    reveal_strlit("~/");
}

/// The keys that move: right and `l` go into the highlighted directory, left and `h` to the parent
/// of the one that is browsed, down and `j` to the next entry, up and `k` to the one before, and none
/// beyond the ends.
pub proof fn keys_browse(p: PickerView, k: KeyPress, home: Option<Seq<char>>)
    ensures
        ({
            let next = keyed(p, k, home);
            let letters = k.plain && !p.filter_mode;
            let right = k.key == Key::Right || letters && k.key == Key::Char('l');
            let left = k.key == Key::Left || letters && k.key == Key::Char('h');
            let down = k.key == Key::Down || letters && k.key == Key::Char('j');
            let back = k.key == Key::Up || letters && k.key == Key::Char('k');
            &&& right && p.cursor < p.entries.len() ==> next == (
                p,
                MoveView::Descend(p.entries[p.cursor as int].path),
            )
            &&& right && p.cursor >= p.entries.len() ==> next == (p, MoveView::Stay)
            &&& left ==> match path::parent_text(p.browse_root) {
                Some(d) => next == (
                    PickerView { browse_root: d, cursor: 0, ..p },
                    MoveView::Refresh,
                ),
                None => next == (p, MoveView::Stay),
            }
            &&& down || back ==> next.1 is Stay && next.0 == (PickerView {
                cursor: next.0.cursor,
                ..p
            })
            &&& down && p.cursor + 1 < p.entries.len() ==> next.0.cursor == p.cursor + 1
            &&& down && p.cursor + 1 >= p.entries.len() ==> next.0.cursor == p.cursor
            &&& back && p.cursor > 0 ==> next.0.cursor == p.cursor - 1
            &&& back && p.cursor == 0 ==> next.0.cursor == 0
        }),
{
}

/// The keys that edit: a slash starts the filter, a letter is put behind what was typed, backspace
/// takes the last one off, and with nothing left the filter ends; a letter with control does nothing.
/// Whatever the key, what the picker is for and its entries stay.
pub proof fn keys_edit_the_filter(p: PickerView, k: KeyPress, home: Option<Seq<char>>)
    ensures
        ({
            let next = keyed(p, k, home);
            &&& k.plain && !p.filter_mode && k.key == Key::Char('/') ==> next == (
                PickerView { filter_mode: true, ..p },
                MoveView::Stay,
            )
            &&& p.filter_mode && !k.control && k.key is Char ==> next == (
                PickerView { input: p.input.push(k.key->Char_0), cursor: 0, ..p },
                MoveView::Refresh,
            )
            &&& k.key == Key::Backspace && p.input.len() > 0 ==> next == (
                PickerView {
                    input: p.input.drop_last(),
                    filter_mode: p.filter_mode && p.input.len() > 1,
                    cursor: 0,
                    ..p
                },
                MoveView::Refresh,
            )
            &&& k.key == Key::Backspace && p.input.len() == 0 ==> next.0.input == p.input
                && !next.0.filter_mode
            &&& k.key is Char && k.control && !k.plain ==> next == (p, MoveView::Stay)
            &&& k.key == Key::Tab || k.key == Key::BackTab || k.key == Key::Other ==> next == (
                p,
                MoveView::Stay,
            )
            &&& next.0.purpose == p.purpose
            &&& next.0.entries == p.entries
            &&& next.0.search_gen == p.search_gen
            &&& next.0.searching == p.searching
            &&& next.0.debounce_until == p.debounce_until
        }),
{
}

/// What was typed is searched for 120 milliseconds after the last key, under a number that no earlier
/// search has just had; where nothing was typed there is no search.
pub proof fn searches_wait_for_the_last_key(
    p: PickerView,
    now: u64,
    at: u64,
    recent_dirs: Seq<Seq<char>>,
    home: Option<Seq<char>>,
)
    requires
        now + 120 <= u64::MAX,
    ensures
        ({
            let q = refreshed(p, now);
            let job = search_job(q, at, recent_dirs, home);
            &&& q.search_gen != p.search_gen
            &&& q.purpose == p.purpose
            &&& q.input == p.input
            &&& q.browse_root == p.browse_root
            &&& q.entries == p.entries
            &&& q.cursor == p.cursor
            &&& q.searching == !text::blank(p.input)
            &&& job is Some <==> !text::blank(p.input) && at >= now + 120
            &&& job is Some ==> {
                &&& job->0.gen == q.search_gen
                &&& job->0.query == text::trim(p.input)
                &&& job->0.browse_root == p.browse_root
                &&& job->0.recent_dirs.len() == recent_dirs.len()
                &&& forall|i: int|
                    0 <= i < recent_dirs.len() ==> #[trigger] job->0.recent_dirs[i] == expanded(
                        recent_dirs[i],
                        home,
                    )
                &&& search_job(dispatched(q, at), at, recent_dirs, home) is None
            }
            &&& dispatched(q, at) == (PickerView {
                debounce_until: dispatched(q, at).debounce_until,
                ..q
            })
            &&& at < now + 120 ==> dispatched(q, at) == q
        }),
{
    let cut = text::trimming_drops_only_spaces(p.input);
}

proof fn lemma_entry_found(entries: Seq<EntryView>, p: Seq<char>, i: int)
    requires
        0 <= i,
    ensures
        match entry_at(entries, p, i) {
            Some(k) => i <= k < entries.len() && path::same_path_text(entries[k].path, p)
                && forall|j: int|
                i <= j < k ==> !path::same_path_text((#[trigger] entries[j]).path, p),
            None => forall|j: int|
                i <= j < entries.len() ==> !path::same_path_text((#[trigger] entries[j]).path, p),
        },
    decreases entries.len() - i,
{
    if i < entries.len() && !path::same_path_text(entries[i].path, p) {
        lemma_entry_found(entries, p, i + 1);
    }
}

/// The results of the latest search take the place of the entries; the entry that was highlighted
/// stays highlighted where it is among them, and else the first one is.
pub proof fn results_keep_the_highlighted(p: PickerView, entries: Seq<EntryView>, i: int)
    requires
        p.cursor < p.entries.len(),
    ensures
        ({
            let q = with_results(p, p.search_gen, entries);
            let path = p.entries[p.cursor as int].path;
            &&& q == (PickerView { entries, searching: false, cursor: q.cursor, ..p })
            &&& 0 <= i < entries.len() && path::same_path_text(entries[i].path, path) ==> q.cursor
                <= i && path::same_path_text(entries[q.cursor as int].path, path)
            &&& (forall|j: int|
                0 <= j < entries.len() ==> !path::same_path_text(
                    (#[trigger] entries[j]).path,
                    path,
                )) ==> q.cursor == 0
        }),
{
    lemma_entry_found(entries, p.entries[p.cursor as int].path, 0);
}

/// New entries leave the cursor where it is as long as there is one at its place; else it is on the
/// last one.
pub proof fn listing_keeps_the_cursor(p: PickerView, entries: Seq<EntryView>, dir: Seq<char>)
    ensures
        relisted(p, entries) == (PickerView { entries, cursor: relisted(p, entries).cursor, ..p }),
        p.cursor < entries.len() ==> relisted(p, entries).cursor == p.cursor,
        p.cursor >= entries.len() && entries.len() > 0 ==> relisted(p, entries).cursor + 1
            == entries.len(),
        descended(p, dir) == (PickerView { browse_root: dir, cursor: 0, ..p }),
{
}

/// Each entry is of the path found at its place, and its label ends with that path, with what is
/// below the browsed directory, or with the name and a slash.
pub proof fn entries_are_of_their_paths(
    v: Seq<RankedView>,
    root: Seq<char>,
    home: Option<Seq<char>>,
    i: int,
)
    requires
        0 <= i < v.len(),
    ensures
        entries_of(v, root, home).len() == v.len(),
        entries_of(v, root, home)[i].path == v[i].path,
        ({
            let label = entries_of(v, root, home)[i].label;
            &&& label.len() >= 9
            &&& (v[i].source is Current || v[i].source is Home || v[i].source is Recent
                || v[i].source is Zoxide || v[i].source is Parent || v[i].source is Exact)
                ==> label.skip(9) == displayed(v[i].path, home)
            &&& v[i].source is Browse && path::file_name_text(v[i].path) is Some ==> label.skip(9)
                == path::file_name_text(v[i].path)->0.push('/')
            &&& v[i].source is Nested && path::below_text(v[i].path, root) is Some ==> label.skip(9)
                == path::below_text(v[i].path, root)->0.push('/')
        }),
{
    reveal_strlit("current  ");
    reveal_strlit("home     ");
    reveal_strlit("recent   ");
    reveal_strlit("zoxide   ");
    reveal_strlit("..       ");
    reveal_strlit("exact    ");
    reveal_strlit("browse   ");
    reveal_strlit("nested   ");
    reveal_strlit("/");
    let label = entries_of(v, root, home)[i].label;
    let shown = displayed(v[i].path, home);
    match v[i].source {
        PathSource::Browse => match path::file_name_text(v[i].path) {
            Some(name) => {
                assert(label.skip(9) =~= name.push('/'));
            },
            None => {},
        },
        PathSource::Nested => match path::below_text(v[i].path, root) {
            Some(rel) => {
                assert(label.skip(9) =~= rel.push('/'));
            },
            None => {},
        },
        _ => {
            assert(label.skip(9) =~= shown);
        },
    }
}

/// The wait for a key is never over 200 milliseconds, and never past the moment at which a search is
/// due, but for 10 milliseconds where that has passed.
pub proof fn waiting_is_short(debounce_until: Option<u64>, now: u64)
    ensures
        wait_for_key(debounce_until, now) <= 200,
        debounce_until is None ==> wait_for_key(debounce_until, now) == 200,
        debounce_until is Some && now < debounce_until->0 ==> now + wait_for_key(debounce_until, now)
            <= debounce_until->0 && wait_for_key(debounce_until, now) > 0,
        debounce_until is Some && now < debounce_until->0 <= now + 200 ==> now + wait_for_key(
            debounce_until,
            now,
        ) == debounce_until->0,
        debounce_until is Some && now >= debounce_until->0 ==> wait_for_key(debounce_until, now)
            == 10,
{
}

/// Whether a path is among the entries, as the same path.
pub open spec fn entry_for(entries: Seq<EntryView>, p: Seq<char>) -> bool {
    exists|k: int| 0 <= k < entries.len() && path::same_path_text((#[trigger] entries[k]).path, p)
}

/// Where nothing is typed, the picker offers the working directory, the home directory, the recent
/// directories as the paths that they stand for, the parent of the browsed directory and its children.
pub proof fn browsing_offers_what_is_known(
    p: PickerView,
    recent_dirs: Seq<Seq<char>>,
    listing: Listing,
    around: Surroundings,
    d: Seq<char>,
    i: int,
)
    requires
        text::blank(p.input),
        d.len() > 0,
    ensures
        ({
            let entries = fresh_entries(p, recent_dirs, listing, around);
            let home = text::opt_text(around.home);
            &&& text::opt_text(around.cwd) == Some(d) ==> entry_for(entries, d)
            &&& home == Some(d) ==> entry_for(entries, d)
            &&& path::parent_text(p.browse_root) == Some(d) ==> entry_for(entries, d)
            &&& dirpick::browse_children(p.browse_root, listing.entries@).contains(d)
                ==> entry_for(entries, d)
            &&& 0 <= i < recent_dirs.len() && text::trim(expanded(recent_dirs[i], home)) == d
                ==> entry_for(entries, d)
        }),
{
    let q = text::trim(p.input);
    let home = text::opt_text(around.home);
    let cut = text::trimming_drops_only_spaces(p.input);
    text::trim_is_stable(p.input);
    let recent = expanded_all(recent_dirs, home);
    let s = search_of(
        q,
        p.browse_root,
        recent,
        Seq::empty(),
        Seq::empty(),
        true,
        listing,
        around,
    );
    let entries = fresh_entries(p, recent_dirs, listing, around);
    assert(text::blank(q));
    dirpick::searches_list_what_is_offered(s, d, 0);
    if 0 <= i < recent_dirs.len() {
        assert(recent[i] == expanded(recent_dirs[i], home));
        assert(s.recent_dirs[i] == recent[i]);
    }
    if dirpick::has_path(dirpick::ranked(s), d) {
        let v = dirpick::ranked(s);
        let k = choose|k: int| 0 <= k < v.len() && path::same_path_text(#[trigger] v[k].path, d);
        assert(entries[k].path == v[k].path);
        assert(path::same_path_text(entries[k].path, d));
    }
}

/// Where something is typed, the directory that it stands for comes first, where it is one, and no
/// child of the browsed directory is listed as such.
pub proof fn typing_offers_the_typed_directory(
    p: PickerView,
    recent_dirs: Seq<Seq<char>>,
    listing: Listing,
    around: Surroundings,
    k: int,
)
    requires
        !text::blank(p.input),
    ensures
        ({
            let entries = fresh_entries(p, recent_dirs, listing, around);
            let typed = expanded(p.input, text::opt_text(around.home));
            &&& listing.typed_is_dir && typed.len() > 0 ==> entries.len() > 0 && entries[0].path
                == typed
            &&& 0 <= k < entries.len() ==> !text::has_prefix(entries[k].label, "browse"@)
        }),
{
    let q = text::trim(p.input);
    let home = text::opt_text(around.home);
    let cut = text::trimming_drops_only_spaces(p.input);
    text::trim_is_stable(p.input);
    let s = search_of(
        q,
        p.browse_root,
        expanded_all(recent_dirs, home),
        Seq::empty(),
        Seq::empty(),
        false,
        listing,
        around,
    );
    let typed = expanded(p.input, home);
    let entries = fresh_entries(p, recent_dirs, listing, around);
    let v = dirpick::ranked(s);
    if listing.typed_is_dir && typed.len() > 0 {
        dirpick::typed_directories_come_first(s, typed);
        assert(entries[0].path == v[0].path);
    }
    if 0 <= k < entries.len() {
        dirpick::searches_list_what_is_offered(s, seq!['/'], k);
        assert(!(v[k].source is Browse));
        reveal_strlit("browse");
        reveal_strlit("current  ");
        reveal_strlit("home     ");
        reveal_strlit("recent   ");
        reveal_strlit("zoxide   ");
        reveal_strlit("..       ");
        reveal_strlit("exact    ");
        reveal_strlit("nested   ");
        let label = entries[k].label;
        assert(label == entry_label(v[k], p.browse_root, home));
        assert(label[0] != 'b');
        if text::has_prefix(label, "browse"@) {
            assert(label.take(6)[0] == label[0]);
        }
    }
}

/// A search is made with everything that it was asked with, and knows the typed text as the path that
/// it stands for.
pub proof fn searches_know_what_was_asked(
    query: Seq<char>,
    browse_root: Seq<char>,
    recent_dirs: Seq<Seq<char>>,
    zoxide_dirs: Seq<Seq<char>>,
    nested_dirs: Seq<Seq<char>>,
    browse_children: bool,
    listing: Listing,
    around: Surroundings,
)
    ensures
        ({
            let s = search_of(
                query,
                browse_root,
                recent_dirs,
                zoxide_dirs,
                nested_dirs,
                browse_children,
                listing,
                around,
            );
            let home = text::opt_text(around.home);
            &&& s.query == query && s.browse_root == browse_root
            &&& s.recent_dirs == recent_dirs && s.zoxide_dirs == zoxide_dirs && s.nested_dirs
                == nested_dirs
            &&& s.cwd == text::opt_text(around.cwd) && s.home == home
            &&& s.browse_entries == listing.entries@ && s.typed_is_dir == listing.typed_is_dir
            &&& s.browse_children == browse_children
            &&& text::blank(query) ==> s.typed_exact is None
            &&& !text::blank(query) ==> s.typed_exact is Some && stands_for(
                s.typed_exact->0,
                text::trim(query),
                home,
            )
        }),
{
    let cut = text::trimming_drops_only_spaces(query);
    text::trim_is_stable(query);
    if !text::blank(query) {
        let again = text::trimming_drops_only_spaces(text::trim(query));
        typing_is_expanded(text::trim(query), text::opt_text(around.home));
    }
}

/// The home directory is shown as a tilde, and what is below it behind a tilde and a slash.
pub proof fn home_is_a_tilde(p: Seq<char>, h: Seq<char>)
    requires
        path::below_text(p, h) is Some,
    ensures
        path::below_text(p, h)->0.len() == 0 ==> displayed(p, Some(h)) == seq!['~'],
        path::below_text(p, h)->0.len() > 0 ==> displayed(p, Some(h)) == seq!['~', '/']
            + path::below_text(p, h)->0,
{
    reveal_strlit("~");
    reveal_strlit("~/");
    assert("~"@ =~= seq!['~']);
    assert("~/"@ =~= seq!['~', '/']);
}

} // verus!
