//! Directory picker search: immediate browse, recursive filter, optional zoxide.
use vstd::prelude::*;
use crate::order;
use crate::order::sort_texts;
use crate::path;
use crate::path::{file_name, join_path, parent, same_path};
use crate::text;
use crate::text::{
    borrowed, chars_of, keep_nonblank, lines, lower, same_ignoring_case, strings_of, trimmed,
    trimmed_str,
};

verus! {

/// Immediate children shown while navigating with hjkl.
pub const BROWSE_CHILD_CAP: usize = 400;

/// Cap on filter matches so the list stays usable.
pub const FILTER_RESULT_CAP: usize = 64;

/// How many directories a walk reads at most.
pub const WALK_VISIT_CAP: usize = 2500;

/// How far below its root a walk goes.
pub const WALK_DEPTH_CAP: usize = 8;

/// How long a walk may take, in milliseconds.
pub const WALK_TIME_BUDGET: u64 = 400;

/// How long zoxide may take, in milliseconds.
pub const ZOXIDE_TIMEOUT: u64 = 400;

/// Directory names that are expensive or uninteresting to walk.
pub const HEAVY_DIR_NAMES: [&'static str; 26] = [
    "node_modules",
    "target",
    "dist",
    "build",
    "vendor",
    "coverage",
    "__pycache__",
    "venv",
    ".venv",
    "site-packages",
    ".git",
    ".hg",
    ".svn",
    ".cache",
    ".next",
    ".turbo",
    ".direnv",
    ".yarn",
    ".pnpm-store",
    ".idea",
    ".vscode",
    ".tox",
    ".mypy_cache",
    ".pytest_cache",
    ".gradle",
    ".terraform",
];

/// Where a path of the picker comes from.
#[derive(Debug, Clone, Copy, PartialEq, Eq, Structural)]
pub enum PathSource {
    Current,
    Home,
    Recent,
    Zoxide,
    Parent,
    Browse,
    Nested,
    Exact,
}

/// A path of the picker with where it comes from.
#[derive(Debug, Clone, PartialEq, Eq)]
pub struct RankedPath {
    pub source: PathSource,
    pub path: String,
}

/// What a [`RankedPath`] holds.
#[verifier::ext_equal]
pub struct RankedView {
    pub source: PathSource,
    pub path: Seq<char>,
}

impl View for RankedPath {
    type V = RankedView;

    open spec fn view(&self) -> RankedView {
        RankedView { source: self.source, path: self.path@ }
    }
}

/// What ranked paths hold.
pub open spec fn ranked_paths(v: Seq<RankedPath>) -> Seq<RankedView> {
    Seq::new(v.len(), |i: int| v[i]@)
}

/// Whether the characters of `q` occur in `c` in their order.
pub open spec fn subsequence(q: Seq<char>, c: Seq<char>) -> bool
    decreases c.len(),
{
    if q.len() == 0 {
        true
    } else if c.len() == 0 {
        false
    } else if q[0] == c[0] {
        subsequence(q.drop_first(), c.drop_first())
    } else {
        subsequence(q, c.drop_first())
    }
}

/// Whether the characters of the query occur in the candidate in their order, in any case of
/// letters.
pub open spec fn fuzzy(query: Seq<char>, candidate: Seq<char>) -> bool {
    subsequence(text::lower_text(query), text::lower_text(candidate))
}

/// True when `query` is a substring or a subsequence of `candidate`.
pub fn fuzzy_match(query: &str, candidate: &str) -> (r: bool)
    ensures
        r == fuzzy(query@, candidate@),
{
    let q = lower(&chars_of(query));
    let c = lower(&chars_of(candidate));
    let mut k: usize = 0;
    assert(q@.skip(0) == q@);
    assert(c@.skip(0) == c@);
    for i in 0..c.len()
        invariant
            k <= q@.len(),
            fuzzy(query@, candidate@) == subsequence(q@.skip(k as int), c@.skip(i as int)),
    {
        let ghost rest = q@.skip(k as int);
        let ghost tail = c@.skip(i as int);
        assert(tail.drop_first() == c@.skip(i + 1));
        if k < q.len() {
            assert(rest[0] == q@[k as int]);
            assert(tail[0] == c@[i as int]);
            if q[k] == c[i] {
                assert(rest.drop_first() == q@.skip(k + 1));
                k += 1;
            }
        }
    }
    k == q.len()
}

/// Whether a directory is not walked: it is hidden or heavy.
pub open spec fn skipped_name(name: Seq<char>) -> bool {
    ||| text::begins(name, '.')
    ||| exists|i: int|
        0 <= i < HEAVY_DIR_NAMES@.len() && text::same_but_case(
            name,
            #[trigger] HEAVY_DIR_NAMES@[i]@,
        )
}

/// Whether a directory is not walked: it is hidden or heavy.
pub fn skip_dir_name(name: &str) -> (r: bool)
    ensures
        r == skipped_name(name@),
{
    let chars = chars_of(name);
    if chars.len() > 0 && chars[0] == '.' {
        return true;
    }
    for i in 0..HEAVY_DIR_NAMES.len()
        invariant
            chars@ == name@,
            forall|j: int|
                0 <= j < i ==> !text::same_but_case(name@, #[trigger] HEAVY_DIR_NAMES@[j]@),
    {
        if same_ignoring_case(&chars, &chars_of(HEAVY_DIR_NAMES[i])) {
            return true;
        }
    }
    false
}

/// The last name of a path, or the path itself where it has none.
pub open spec fn name_of(p: Seq<char>) -> Seq<char> {
    match path::file_name_text(p) {
        Some(name) => name,
        None => p,
    }
}

/// The last name of a path, or the path itself where it has none.
pub fn dir_name(p: &str) -> (r: String)
    ensures
        r@ == name_of(p@),
{
    match file_name(p) {
        Some(name) => name,
        None => p.to_owned(),
    }
}

/// What kind of file an entry of a directory is, where that could be told.
#[derive(Debug, Clone, Copy, PartialEq, Eq, Structural)]
pub enum EntryKind {
    Directory,
    Symlink,
    Other,
}

/// An entry of a directory.
#[derive(Debug)]
pub struct DirEntry {
    pub name: String,
    pub kind: EntryKind,
}

/// Whether a text can be the name of an entry: it is not empty, and there is no slash in it.
pub open spec fn entry_name(name: Seq<char>) -> bool {
    name.len() > 0 && !name.contains('/')
}

/// Whether the entries can be those of a directory: each has a name, and no two have the same.
pub open spec fn real_listing(entries: Seq<DirEntry>) -> bool {
    &&& forall|i: int| 0 <= i < entries.len() ==> entry_name((#[trigger] entries[i]).name@)
    &&& forall|i: int, j: int|
        0 <= i < j < entries.len() ==> (#[trigger] entries[i]).name@ != (
        #[trigger] entries[j]).name@
}

/// Whether an entry is a directory to show.
pub open spec fn shown_entry(e: DirEntry) -> bool {
    e.kind == EntryKind::Directory && !skipped_name(e.name@)
}

/// The names of the directories to show among the entries.
pub open spec fn shown_names(entries: Seq<DirEntry>) -> Seq<Seq<char>>
    decreases entries.len(),
{
    if entries.len() == 0 {
        Seq::empty()
    } else if shown_entry(entries.last()) {
        shown_names(entries.drop_last()).push(entries.last().name@)
    } else {
        shown_names(entries.drop_last())
    }
}

/// At most the first `n` of the texts.
pub open spec fn at_most(v: Seq<Seq<char>>, n: nat) -> Seq<Seq<char>> {
    if v.len() <= n {
        v
    } else {
        v.take(n as int)
    }
}

/// The paths of the names below `root`.
pub open spec fn below(root: Seq<char>, names: Seq<Seq<char>>) -> Seq<Seq<char>> {
    Seq::new(names.len(), |i: int| path::joined_path(root, names[i]))
}

/// The children of a directory to show, in order: of its entries the first ones up to the cap.
pub open spec fn browse_children(root: Seq<char>, entries: Seq<DirEntry>) -> Seq<Seq<char>> {
    below(root, order::sorted_texts(at_most(shown_names(entries), BROWSE_CHILD_CAP as nat)))
}

fn is_shown(e: &DirEntry) -> (r: bool)
    ensures
        r == shown_entry(*e),
{
    e.kind == EntryKind::Directory && !skip_dir_name(e.name.as_str())
}

proof fn lemma_shown_grows(entries: Seq<DirEntry>, i: int)
    requires
        0 <= i <= entries.len(),
    ensures
        shown_names(entries.take(i)).is_prefix_of(shown_names(entries)),
    decreases entries.len() - i,
{
    if i < entries.len() {
        lemma_shown_grows(entries, i + 1);
        let more = entries.take(i + 1);
        assert(more.drop_last() == entries.take(i));
        let a = shown_names(entries.take(i));
        let b = shown_names(more);
        let c = shown_names(entries);
        assert(a.is_prefix_of(b));
        assert forall|k: int| 0 <= k < a.len() implies a[k] == c[k] by {
            assert(b[k] == c[k]);
        }
    } else {
        assert(entries.take(i) == entries);
    }
}

fn names_up_to(entries: &Vec<DirEntry>, cap: usize) -> (r: Vec<String>)
    ensures
        text::strings(r@) == at_most(shown_names(entries@), cap as nat),
{
    let mut names: Vec<String> = Vec::new();
    for i in 0..entries.len()
        invariant
            names@.len() <= cap,
            text::strings(names@) == shown_names(entries@.take(i as int)),
    {
        if names.len() >= cap {
            proof {
                lemma_shown_grows(entries@, i as int);
                let a = text::strings(names@);
                assert(at_most(shown_names(entries@), cap as nat) == a);
            }
            return names;
        }
        assert(entries@.take(i + 1).drop_last() == entries@.take(i as int));
        if is_shown(&entries[i]) {
            let ghost before = text::strings(names@);
            names.push(entries[i].name.clone());
            assert(text::strings(names@) == before.push(entries@[i as int].name@));
        }
    }
    assert(entries@.take(entries@.len() as int) == entries@);
    names
}

fn join_all(root: &str, names: &Vec<String>) -> (r: Vec<String>)
    ensures
        text::strings(r@) == below(root@, text::strings(names@)),
{
    let mut out: Vec<String> = Vec::new();
    let ghost all = below(root@, text::strings(names@));
    for i in 0..names.len()
        invariant
            all == below(root@, text::strings(names@)),
            text::strings(out@) == all.take(i as int),
    {
        let ghost before = text::strings(out@);
        assert(text::strings(names@)[i as int] == names@[i as int]@);
        out.push(join_path(root, names[i].as_str()));
        assert(text::strings(out@) == before.push(all[i as int]));
        assert(all.take(i + 1) == all.take(i as int).push(all[i as int]));
    }
    assert(all.take(all.len() as int) == all);
    out
}

/// Immediate non-hidden children of `root` (hjkl browse), from its entries.
pub fn list_immediate_subdirs(root: &str, entries: &Vec<DirEntry>) -> (r: Vec<String>)
    ensures
        text::strings(r@) == browse_children(root@, entries@),
{
    join_all(root, &sort_texts(&names_up_to(entries, BROWSE_CHILD_CAP)))
}

/// Whether a path or its last name matches the query.
pub open spec fn path_matches(query: Seq<char>, p: Seq<char>) -> bool {
    fuzzy(query, p) || fuzzy(query, name_of(p))
}

/// Whether a path or its last name matches the query.
pub fn path_matches_query(query: &str, p: &str) -> (r: bool)
    ensures
        r == path_matches(query@, p@),
{
    fuzzy_match(query, p) || fuzzy_match(query, dir_name(p).as_str())
}

// ---------------------------------------------------------------------------------------------
// Walk

/// What a [`Walk`] holds.
#[verifier::ext_equal]
pub struct WalkView {
    pub query: Seq<char>,
    pub max_results: nat,
    pub max_visit: nat,
    pub visited: nat,
    /// The directory that is being read, with its depth.
    pub current: Option<(Seq<char>, nat)>,
    /// The directories to read, with their depths.
    pub queue: Seq<(Seq<char>, nat)>,
    pub found: Seq<Seq<char>>,
}

/// A breadth-first search for directories that match a query. It asks for one directory after
/// the other ([`Walk::next_dir`]) and is told what stands in it ([`Walk::read`]).
#[derive(Debug)]
pub struct Walk {
    query: String,
    max_results: usize,
    max_visit: usize,
    visited: usize,
    current: Option<(String, usize)>,
    queue: Vec<(String, usize)>,
    found: Vec<String>,
}

/// What the queue holds.
spec fn queued(v: Seq<(String, usize)>) -> Seq<(Seq<char>, nat)> {
    Seq::new(v.len(), |i: int| (v[i].0@, v[i].1 as nat))
}

impl View for Walk {
    type V = WalkView;

    closed spec fn view(&self) -> WalkView {
        WalkView {
            query: self.query@,
            max_results: self.max_results as nat,
            max_visit: self.max_visit as nat,
            visited: self.visited as nat,
            current: match self.current {
                Some(c) => Some((c.0@, c.1 as nat)),
                None => None,
            },
            queue: queued(self.queue@),
            found: text::strings(self.found@),
        }
    }
}

/// A walk that has read nothing yet. A blank query finds nothing.
pub open spec fn new_walk(
    root: Seq<char>,
    query: Seq<char>,
    max_results: nat,
    max_visit: nat,
) -> WalkView {
    WalkView {
        query,
        max_results,
        max_visit,
        visited: 0,
        current: None,
        queue: if text::trim(query).len() == 0 {
            Seq::empty()
        } else {
            seq![(root, 0nat)]
        },
        found: Seq::empty(),
    }
}

/// Whether a walk goes on: something is to be read, and no limit is reached.
pub open spec fn walk_goes_on(w: WalkView, time_left: bool) -> bool {
    w.queue.len() > 0 && w.visited < w.max_visit && w.found.len() < w.max_results && time_left
}

/// A walk that turns to its next directory, or is over.
pub open spec fn walk_turned(w: WalkView, time_left: bool) -> WalkView {
    if walk_goes_on(w, time_left) {
        WalkView {
            visited: w.visited + 1,
            current: Some(w.queue[0]),
            queue: w.queue.drop_first(),
            ..w
        }
    } else {
        WalkView { current: None, queue: Seq::empty(), ..w }
    }
}

/// A walk after one child of a directory at `depth`.
pub open spec fn walk_with_child(w: WalkView, depth: nat, child: Seq<char>) -> WalkView {
    WalkView {
        found: if path_matches(w.query, child) && w.found.len() < w.max_results {
            w.found.push(child)
        } else {
            w.found
        },
        queue: if depth + 1 < WALK_DEPTH_CAP {
            w.queue.push((child, depth + 1))
        } else {
            w.queue
        },
        ..w
    }
}

/// A walk after the children of a directory at `depth`.
pub open spec fn walk_with_children(w: WalkView, depth: nat, children: Seq<Seq<char>>) -> WalkView
    decreases children.len(),
{
    if children.len() == 0 {
        w
    } else {
        walk_with_child(walk_with_children(w, depth, children.drop_last()), depth, children.last())
    }
}

/// The children of a directory that a walk looks at, in order.
pub open spec fn walk_children(dir: Seq<char>, entries: Seq<DirEntry>) -> Seq<Seq<char>> {
    below(dir, order::sorted_texts(shown_names(entries)))
}

/// A walk after its directory was read, or could not be.
pub open spec fn walk_read(w: WalkView, entries: Option<Seq<DirEntry>>) -> WalkView {
    let rest = WalkView { current: None, ..w };
    match (w.current, entries) {
        (Some((dir, depth)), Some(e)) => walk_with_children(rest, depth, walk_children(dir, e)),
        _ => rest,
    }
}

/// Starts a search under `root` with its usual limits.
pub fn walk_matching_dirs(root: &str, query: &str) -> (r: Walk)
    ensures
        r@ == new_walk(root@, query@, FILTER_RESULT_CAP as nat, WALK_VISIT_CAP as nat),
{
    walk_matching_dirs_limited(root, query, FILTER_RESULT_CAP, WALK_VISIT_CAP)
}

/// Starts a search under `root` that finds at most `max_results` directories and reads at most
/// `max_visit`.
pub fn walk_matching_dirs_limited(
    root: &str,
    query: &str,
    max_results: usize,
    max_visit: usize,
) -> (r: Walk)
    ensures
        r@ == new_walk(root@, query@, max_results as nat, max_visit as nat),
{
    let mut queue: Vec<(String, usize)> = Vec::new();
    if trimmed(&chars_of(query)).len() > 0 {
        queue.push((root.to_owned(), 0));
    }
    Walk {
        query: query.to_owned(),
        max_results,
        max_visit,
        visited: 0,
        current: None,
        queue,
        found: Vec::new(),
    }
}

impl Walk {
    /// The directory to read next; `None` when the walk is over.
    pub fn next_dir(&mut self, time_left: bool) -> (r: Option<String>)
        ensures
            final(self)@ == walk_turned(old(self)@, time_left),
            match r {
                Some(dir) => walk_goes_on(old(self)@, time_left) && dir@ == old(self)@.queue[0].0,
                None => !walk_goes_on(old(self)@, time_left),
            },
    {
        if self.queue.len() == 0 || self.visited >= self.max_visit || self.found.len()
            >= self.max_results || !time_left {
            self.current = None;
            self.queue = Vec::new();
            return None;
        }
        let ghost before = queued(self.queue@);
        let (dir, depth) = self.queue.remove(0);
        assert(before[0] == (dir@, depth as nat));
        assert(queued(self.queue@) == before.drop_first());
        self.visited = self.visited + 1;
        self.current = Some((dir.clone(), depth));
        Some(dir)
    }

    fn see_child(&mut self, depth: usize, child: &str)
        ensures
            final(self)@ == walk_with_child(old(self)@, depth as nat, child@),
    {
        if path_matches_query(self.query.as_str(), child) && self.found.len() < self.max_results {
            let ghost before = text::strings(self.found@);
            self.found.push(child.to_owned());
            assert(text::strings(self.found@) == before.push(child@));
        }
        if depth < WALK_DEPTH_CAP - 1 {
            let ghost before = queued(self.queue@);
            self.queue.push((child.to_owned(), depth + 1));
            assert(queued(self.queue@) == before.push((child@, (depth + 1) as nat)));
        }
    }

    /// What stands in the directory that was asked for last; `None` where it cannot be read.
    pub fn read(&mut self, entries: Option<&Vec<DirEntry>>)
        ensures
            final(self)@ == walk_read(
                old(self)@,
                match entries {
                    Some(e) => Some(e@),
                    None => None,
                },
            ),
    {
        let (dir, depth) = match self.current.take() {
            Some(c) => c,
            None => {
                return ;
            },
        };
        let listed = match entries {
            Some(e) => e,
            None => {
                return ;
            },
        };
        let ghost w = self@;
        let children = join_all(
            dir.as_str(),
            &sort_texts(&names_up_to(listed, listed.len())),
        );
        proof {
            lemma_shown_len(listed@);
        }
        let ghost all = text::strings(children@);
        assert(all == walk_children(dir@, listed@));
        for i in 0..children.len()
            invariant
                all == text::strings(children@),
                self@ == walk_with_children(w, depth as nat, all.take(i as int)),
        {
            assert(all.take(i + 1).drop_last() == all.take(i as int));
            self.see_child(depth, children[i].as_str());
        }
        assert(all.take(all.len() as int) == all);
    }

    /// The directories found so far.
    pub fn found(&self) -> (r: &Vec<String>)
        ensures
            text::strings(r@) == self@.found,
    {
        &self.found
    }
}

proof fn lemma_shown_len(entries: Seq<DirEntry>)
    ensures
        shown_names(entries).len() <= entries.len(),
    decreases entries.len(),
{
    if entries.len() > 0 {
        lemma_shown_len(entries.drop_last());
    }
}

/// The paths of `zoxide query -l`, one on a line.
pub open spec fn zoxide_paths(stdout: Seq<char>) -> Seq<Seq<char>> {
    text::nonblank_texts(text::lines_of(stdout))
}

/// Parse `zoxide query -l` stdout (one path per line, frecency-first).
pub fn parse_zoxide_output(stdout: &str) -> (r: Vec<String>)
    ensures
        text::strings(r@) == zoxide_paths(stdout@),
{
    strings_of(&keep_nonblank(&lines(&chars_of(stdout))))
}

// ---------------------------------------------------------------------------------------------
// Ranked paths

/// Whether a path is to be shown for a query.
pub open spec fn matches(query: Seq<char>, p: Seq<char>) -> bool {
    query.len() == 0 || path_matches(query, p)
}

fn matches_query(query: &str, p: &str) -> (r: bool)
    ensures
        r == matches(query@, p@),
{
    query.is_empty() || path_matches_query(query, p)
}

/// Inputs for a ranked picker list.
pub struct RankedSearch<'a> {
    pub query: &'a str,
    pub browse_root: &'a str,
    pub recent_dirs: &'a Vec<String>,
    pub zoxide_dirs: &'a Vec<String>,
    pub nested_dirs: &'a Vec<String>,
    pub cwd: Option<&'a str>,
    pub home: Option<&'a str>,
    pub typed_exact: Option<&'a str>,
    /// Whether the typed path is a directory.
    pub typed_is_dir: bool,
    pub browse_children: bool,
    /// The entries of the browse root.
    pub browse_entries: &'a Vec<DirEntry>,
}

/// What a [`RankedSearch`] holds.
pub struct SearchView {
    pub query: Seq<char>,
    pub browse_root: Seq<char>,
    pub recent_dirs: Seq<Seq<char>>,
    pub zoxide_dirs: Seq<Seq<char>>,
    pub nested_dirs: Seq<Seq<char>>,
    pub cwd: Option<Seq<char>>,
    pub home: Option<Seq<char>>,
    pub typed_exact: Option<Seq<char>>,
    pub typed_is_dir: bool,
    pub browse_children: bool,
    pub browse_entries: Seq<DirEntry>,
}

impl<'a> View for RankedSearch<'a> {
    type V = SearchView;

    open spec fn view(&self) -> SearchView {
        SearchView {
            query: self.query@,
            browse_root: self.browse_root@,
            recent_dirs: text::strings(self.recent_dirs@),
            zoxide_dirs: text::strings(self.zoxide_dirs@),
            nested_dirs: text::strings(self.nested_dirs@),
            cwd: text::opt_str(self.cwd),
            home: text::opt_str(self.home),
            typed_exact: text::opt_str(self.typed_exact),
            typed_is_dir: self.typed_is_dir,
            browse_children: self.browse_children,
            browse_entries: self.browse_entries@,
        }
    }
}

/// Whether a path is in a list.
pub open spec fn has_path(out: Seq<RankedView>, p: Seq<char>) -> bool {
    exists|i: int| 0 <= i < out.len() && path::same_path_text(#[trigger] out[i].path, p)
}

/// A list with one path more, unless it is empty or there.
pub open spec fn with_path(out: Seq<RankedView>, source: PathSource, p: Seq<char>) -> Seq<
    RankedView,
> {
    if p.len() == 0 || has_path(out, p) {
        out
    } else {
        out.push(RankedView { source, path: p })
    }
}

/// A list with those of the paths that match the query.
pub open spec fn with_matches(
    out: Seq<RankedView>,
    source: PathSource,
    query: Seq<char>,
    paths: Seq<Seq<char>>,
) -> Seq<RankedView>
    decreases paths.len(),
{
    if paths.len() == 0 {
        out
    } else {
        let front = with_matches(out, source, query, paths.drop_last());
        if matches(query, paths.last()) {
            with_path(front, source, paths.last())
        } else {
            front
        }
    }
}

/// The texts without the space around them.
pub open spec fn trimmed_texts(v: Seq<Seq<char>>) -> Seq<Seq<char>> {
    Seq::new(v.len(), |i: int| text::trim(v[i]))
}

/// A text, or none, as a list.
pub open spec fn opt_list(o: Option<Seq<char>>) -> Seq<Seq<char>> {
    match o {
        Some(p) => seq![p],
        None => Seq::empty(),
    }
}

/// All paths to show, each once, where it comes first: what was typed, zoxide, the current
/// directory, home, recent directories, the parent, the children, and what a walk found.
pub open spec fn all_ranked(s: SearchView) -> Seq<RankedView> {
    let q = text::trim(s.query);
    let exact = if s.typed_is_dir {
        with_matches(
            Seq::empty(),
            PathSource::Exact,
            Seq::empty(),
            opt_list(s.typed_exact),
        )
    } else {
        Seq::empty()
    };
    let zoxide = with_matches(exact, PathSource::Zoxide, q, s.zoxide_dirs);
    let current = with_matches(zoxide, PathSource::Current, q, opt_list(s.cwd));
    let home = with_matches(current, PathSource::Home, q, opt_list(s.home));
    let recent = with_matches(home, PathSource::Recent, q, trimmed_texts(s.recent_dirs));
    let above = if q.len() == 0 {
        with_matches(
            recent,
            PathSource::Parent,
            q,
            opt_list(path::parent_text(s.browse_root)),
        )
    } else {
        recent
    };
    let browse = if s.browse_children {
        with_matches(
            above,
            PathSource::Browse,
            q,
            browse_children(s.browse_root, s.browse_entries),
        )
    } else {
        above
    };
    with_matches(browse, PathSource::Nested, q, s.nested_dirs)
}

/// The paths to show: all of them, or the first ones up to the cap where there is a query.
pub open spec fn ranked(s: SearchView) -> Seq<RankedView> {
    let all = all_ranked(s);
    if text::trim(s.query).len() > 0 && all.len() > FILTER_RESULT_CAP {
        all.take(FILTER_RESULT_CAP as int)
    } else {
        all
    }
}

fn push_path(out: &mut Vec<RankedPath>, source: PathSource, p: &str)
    ensures
        ranked_paths(final(out)@) == with_path(ranked_paths(old(out)@), source, p@),
{
    if p.is_empty() {
        return ;
    }
    let ghost before = ranked_paths(out@);
    for i in 0..out.len()
        invariant
            before == ranked_paths(out@),
            before == ranked_paths(old(out)@),
            p@.len() > 0,
            forall|j: int| 0 <= j < i ==> !path::same_path_text(#[trigger] before[j].path, p@),
    {
        assert(before[i as int].path == out@[i as int].path@);
        if same_path(out[i].path.as_str(), p) {
            return ;
        }
    }
    out.push(RankedPath { source, path: p.to_owned() });
    assert(ranked_paths(out@) == before.push(RankedView { source, path: p@ }));
}

fn push_matches(out: &mut Vec<RankedPath>, source: PathSource, query: &str, paths: &Vec<String>)
    ensures
        ranked_paths(final(out)@) == with_matches(
            ranked_paths(old(out)@),
            source,
            query@,
            text::strings(paths@),
        ),
{
    let ghost before = ranked_paths(out@);
    let ghost all = text::strings(paths@);
    for i in 0..paths.len()
        invariant
            all == text::strings(paths@),
            ranked_paths(out@) == with_matches(before, source, query@, all.take(i as int)),
    {
        assert(all.take(i + 1).drop_last() == all.take(i as int));
        assert(all[i as int] == paths@[i as int]@);
        if matches_query(query, paths[i].as_str()) {
            push_path(out, source, paths[i].as_str());
        }
    }
    assert(all.take(all.len() as int) == all);
}

fn listed_path(p: Option<&str>) -> (r: Vec<String>)
    ensures
        text::strings(r@) == opt_list(text::opt_str(p)),
{
    let mut v: Vec<String> = Vec::new();
    match p {
        Some(s) => {
            v.push(s.to_owned());
        },
        None => {},
    }
    assert(text::strings(v@) == opt_list(text::opt_str(p)));
    v
}

fn trim_all(v: &Vec<String>) -> (r: Vec<String>)
    ensures
        text::strings(r@) == trimmed_texts(text::strings(v@)),
{
    let ghost all = trimmed_texts(text::strings(v@));
    let mut out: Vec<String> = Vec::new();
    for i in 0..v.len()
        invariant
            all == trimmed_texts(text::strings(v@)),
            text::strings(out@) == all.take(i as int),
    {
        let ghost before = text::strings(out@);
        assert(text::strings(v@)[i as int] == v@[i as int]@);
        out.push(trimmed_str(v[i].as_str()));
        assert(text::strings(out@) == before.push(all[i as int]));
        assert(all.take(i + 1) == all.take(i as int).push(all[i as int]));
    }
    assert(all.take(all.len() as int) == all);
    out
}

/// Build a ranked, de-duplicated list of picker paths.
///
/// Filter mode prefers zoxide (anywhere), then recent dirs, then nested matches
/// under `browse_root`. Browse mode lists immediate children only.
pub fn collect_ranked_paths(search: &RankedSearch) -> (r: Vec<RankedPath>)
    ensures
        ranked_paths(r@) == ranked(search@),
{
    let mut out: Vec<RankedPath> = Vec::new();
    let query = trimmed_str(search.query);
    let q = query.as_str();
    assert(ranked_paths(out@) == Seq::<RankedView>::empty());
    proof {
        reveal_strlit("");
        assert(""@ == Seq::<char>::empty());
    }
    if search.typed_is_dir {
        push_matches(&mut out, PathSource::Exact, "", &listed_path(search.typed_exact));
    }
    push_matches(&mut out, PathSource::Zoxide, q, search.zoxide_dirs);
    push_matches(&mut out, PathSource::Current, q, &listed_path(search.cwd));
    push_matches(&mut out, PathSource::Home, q, &listed_path(search.home));
    push_matches(&mut out, PathSource::Recent, q, &trim_all(search.recent_dirs));
    if q.is_empty() {
        let above = parent(search.browse_root);
        push_matches(
            &mut out,
            PathSource::Parent,
            q,
            &listed_path(borrowed(&above)),
        );
    }
    if search.browse_children {
        push_matches(
            &mut out,
            PathSource::Browse,
            q,
            &list_immediate_subdirs(search.browse_root, search.browse_entries),
        );
    }
    push_matches(&mut out, PathSource::Nested, q, search.nested_dirs);
    if !q.is_empty() && out.len() > FILTER_RESULT_CAP {
        let ghost all = ranked_paths(out@);
        out.truncate(FILTER_RESULT_CAP);
        assert(ranked_paths(out@) == all.take(FILTER_RESULT_CAP as int));
    }
    out
}

// ---------------------------------------------------------------------------------------------
// Laws of the search

/// Whether `at` gives, for each character of `q`, where it stands in `c`, from left to right.
pub open spec fn embeds(q: Seq<char>, c: Seq<char>, at: Seq<int>) -> bool {
    &&& at.len() == q.len()
    &&& forall|i: int| 0 <= i < q.len() ==> 0 <= #[trigger] at[i] < c.len() && c[at[i]] == q[i]
    &&& forall|i: int, j: int| 0 <= i < j < q.len() ==> #[trigger] at[i] < #[trigger] at[j]
}

proof fn lemma_embedding(q: Seq<char>, c: Seq<char>)
    requires
        subsequence(q, c),
    ensures
        exists|at: Seq<int>| embeds(q, c, at),
    decreases c.len(),
{
    if q.len() == 0 {
        assert(embeds(q, c, Seq::empty()));
    } else if q[0] == c[0] {
        lemma_embedding(q.drop_first(), c.drop_first());
        let rest = choose|at: Seq<int>| embeds(q.drop_first(), c.drop_first(), at);
        let at = Seq::new(
            q.len(),
            |i: int|
                if i == 0 {
                    0int
                } else {
                    rest[i - 1] + 1
                },
        );
        assert forall|i: int| 0 <= i < q.len() implies 0 <= #[trigger] at[i] < c.len() && c[at[i]]
            == q[i] by {
            if i > 0 {
                assert(q.drop_first()[i - 1] == q[i]);
                assert(0 <= rest[i - 1] < c.drop_first().len());
                assert(c.drop_first()[rest[i - 1]] == c[rest[i - 1] + 1]);
            }
        }
        assert forall|i: int, j: int| 0 <= i < j < q.len() implies #[trigger] at[i]
            < #[trigger] at[j] by {
            assert(0 <= rest[j - 1]);
            if i > 0 {
                assert(rest[i - 1] < rest[j - 1]);
            }
        }
        assert(embeds(q, c, at));
    } else {
        lemma_embedding(q, c.drop_first());
        let rest = choose|at: Seq<int>| embeds(q, c.drop_first(), at);
        let at = Seq::new(q.len(), |i: int| rest[i] + 1);
        assert forall|i: int| 0 <= i < q.len() implies 0 <= #[trigger] at[i] < c.len() && c[at[i]]
            == q[i] by {
            assert(0 <= rest[i] < c.drop_first().len());
            assert(c.drop_first()[rest[i]] == c[rest[i] + 1]);
        }
        assert forall|i: int, j: int| 0 <= i < j < q.len() implies #[trigger] at[i]
            < #[trigger] at[j] by {
            assert(rest[i] < rest[j]);
        }
        assert(embeds(q, c, at));
    }
}

proof fn lemma_embedded(q: Seq<char>, c: Seq<char>, at: Seq<int>)
    requires
        embeds(q, c, at),
    ensures
        subsequence(q, c),
    decreases c.len(),
{
    if q.len() > 0 {
        assert(0 <= at[0] < c.len());
        let tail = c.drop_first();
        if q[0] == c[0] {
            let rest = q.drop_first();
            let moved = Seq::new(rest.len(), |i: int| at[i + 1] - 1);
            assert forall|i: int| 0 <= i < rest.len() implies 0 <= #[trigger] moved[i] < tail.len()
                && tail[moved[i]] == rest[i] by {
                assert(at[0] < at[i + 1]);
                assert(at[i + 1] < c.len());
                assert(tail[moved[i]] == c[at[i + 1]]);
            }
            assert forall|i: int, j: int| 0 <= i < j < rest.len() implies #[trigger] moved[i]
                < #[trigger] moved[j] by {
                assert(at[i + 1] < at[j + 1]);
            }
            lemma_embedded(rest, tail, moved);
        } else {
            let moved = Seq::new(q.len(), |i: int| at[i] - 1);
            assert forall|i: int| 0 <= i < q.len() implies 0 <= #[trigger] moved[i] < tail.len()
                && tail[moved[i]] == q[i] by {
                assert(0 <= at[i] < c.len());
                if i > 0 {
                    assert(at[0] < at[i]);
                }
                assert(tail[moved[i]] == c[at[i]]);
            }
            assert forall|i: int, j: int| 0 <= i < j < q.len() implies #[trigger] moved[i]
                < #[trigger] moved[j] by {
                assert(at[i] < at[j]);
            }
            lemma_embedded(q, tail, moved);
        }
    }
}

/// A query matches a candidate exactly where its characters can be found in it from left to
/// right, in any case of letters.
pub proof fn fuzzy_is_embedding(query: Seq<char>, candidate: Seq<char>)
    ensures
        fuzzy(query, candidate) <==> exists|at: Seq<int>|
            embeds(text::lower_text(query), text::lower_text(candidate), at),
{
    let q = text::lower_text(query);
    let c = text::lower_text(candidate);
    if fuzzy(query, candidate) {
        lemma_embedding(q, c);
    }
    if exists|at: Seq<int>| embeds(q, c, at) {
        lemma_embedded(q, c, choose|at: Seq<int>| embeds(q, c, at));
    }
}

/// A query that stands in a candidate as it is, in any case of letters, matches it.
pub proof fn substring_matches(query: Seq<char>, candidate: Seq<char>)
    requires
        text::contains_text(text::lower_text(candidate), text::lower_text(query)),
    ensures
        fuzzy(query, candidate),
{
    let q = text::lower_text(query);
    let c = text::lower_text(candidate);
    text::lemma_find(c, q, 0);
    let k = text::find_text(c, q)->0;
    let at = Seq::new(q.len(), |i: int| k + i);
    assert forall|i: int| 0 <= i < q.len() implies 0 <= #[trigger] at[i] < c.len() && c[at[i]]
        == q[i] by {
        assert(c.subrange(k, k + q.len())[i] == q[i]);
    }
    lemma_embedded(q, c, at);
}

/// A name of an entry that is neither hidden nor heavy.
pub open spec fn shown_name(n: Seq<char>) -> bool {
    entry_name(n) && !skipped_name(n)
}

/// Whether all names are those of entries that are neither hidden nor heavy.
pub open spec fn all_shown(names: Seq<Seq<char>>) -> bool {
    forall|i: int| 0 <= i < names.len() ==> shown_name(#[trigger] names[i])
}

/// Whether a path is a child of a directory under the name of an entry that is neither hidden nor
/// heavy.
pub open spec fn shown_child(p: Seq<char>) -> bool {
    exists|dir: Seq<char>, name: Seq<char>|
        p == #[trigger] path::joined_path(dir, name) && shown_name(name)
}

/// What holds of a walk at every point: it keeps to its limits, and whatever it found matches
/// the query and is a child under a name that is neither hidden nor heavy.
pub open spec fn walk_sound(w: WalkView) -> bool {
    &&& w.visited <= w.max_visit
    &&& w.found.len() <= w.max_results
    &&& forall|i: int|
        0 <= i < w.found.len() ==> path_matches(w.query, #[trigger] w.found[i]) && shown_child(
            w.found[i],
        )
    &&& forall|i: int| 0 <= i < w.queue.len() ==> (#[trigger] w.queue[i]).1 < WALK_DEPTH_CAP
    &&& w.current is Some ==> (w.current->0).1 < WALK_DEPTH_CAP
}

/// The names to show among the entries of a real directory.
pub proof fn lemma_real_names(entries: Seq<DirEntry>)
    requires
        real_listing(entries),
    ensures
        all_shown(shown_names(entries)),
        shown_names(entries).no_duplicates(),
        forall|i: int|
            0 <= i < shown_names(entries).len() ==> exists|k: int|
                0 <= k < entries.len() && (#[trigger] entries[k]).name@
                    == #[trigger] shown_names(entries)[i],
    decreases entries.len(),
{
    if entries.len() > 0 {
        let front = entries.drop_last();
        assert forall|i: int| 0 <= i < front.len() implies entry_name(
            (#[trigger] front[i]).name@,
        ) by {
            assert(front[i] == entries[i]);
        }
        assert forall|i: int, j: int| 0 <= i < j < front.len() implies (#[trigger] front[i]).name@
            != (#[trigger] front[j]).name@ by {
            assert(front[i] == entries[i] && front[j] == entries[j]);
        }
        lemma_real_names(front);
        let before = shown_names(front);
        let out = shown_names(entries);
        let last = entries[entries.len() - 1];
        assert(entries.last() == last);
        assert forall|i: int| 0 <= i < out.len() implies exists|k: int|
            0 <= k < entries.len() && (#[trigger] entries[k]).name@ == #[trigger] out[i] by {
            if i < before.len() {
                assert(out[i] == before[i]);
                let k = choose|k: int|
                    0 <= k < front.len() && (#[trigger] front[k]).name@ == before[i];
                assert(entries[k] == front[k]);
            } else {
                assert(last.name@ == out[i]);
            }
        }
        assert forall|i: int| 0 <= i < out.len() implies shown_name(#[trigger] out[i]) by {
            if i < before.len() {
                assert(out[i] == before[i]);
            } else {
                assert(entry_name(last.name@));
            }
        }
        assert forall|i: int, j: int| 0 <= i < j < out.len() implies out[i] != out[j] by {
            assert(out[i] == before[i]);
            if j < before.len() {
                assert(out[j] == before[j]);
            } else {
                let k = choose|k: int|
                    0 <= k < front.len() && (#[trigger] front[k]).name@ == before[i];
                assert(entries[k] == front[k]);
                assert(entries[k].name@ != last.name@);
            }
        }
    }
}

/// Sorted names are still names to show, each once.
pub proof fn lemma_sorted_names(v: Seq<Seq<char>>)
    requires
        all_shown(v),
        v.no_duplicates(),
    ensures
        all_shown(order::sorted_texts(v)),
        order::sorted_texts(v).no_duplicates(),
{
    let out = order::sorted_texts(v);
    order::sorting_orders_texts(v);
    out.to_multiset_ensures();
    v.to_multiset_ensures();
    assert forall|i: int| 0 <= i < out.len() implies shown_name(#[trigger] out[i]) by {
        assert(out.contains(out[i]));
        assert(out.to_multiset().count(out[i]) > 0);
        assert(v.to_multiset().count(out[i]) > 0);
        assert(v.contains(out[i]));
    }
    v.lemma_multiset_has_no_duplicates();
    out.lemma_multiset_has_no_duplicates_conv();
}

proof fn lemma_walk_children(dir: Seq<char>, entries: Seq<DirEntry>)
    requires
        real_listing(entries),
    ensures
        forall|i: int|
            0 <= i < walk_children(dir, entries).len() ==> shown_child(
                #[trigger] walk_children(dir, entries)[i],
            ),
{
    lemma_real_names(entries);
    let names = order::sorted_texts(shown_names(entries));
    lemma_sorted_names(shown_names(entries));
    let out = walk_children(dir, entries);
    assert forall|i: int| 0 <= i < out.len() implies shown_child(#[trigger] out[i]) by {
        assert(out[i] == path::joined_path(dir, names[i]));
    }
}

proof fn lemma_walk_with_children(w: WalkView, depth: nat, children: Seq<Seq<char>>)
    requires
        walk_sound(w),
        forall|i: int| 0 <= i < children.len() ==> shown_child(#[trigger] children[i]),
    ensures
        walk_sound(walk_with_children(w, depth, children)),
    decreases children.len(),
{
    if children.len() > 0 {
        let front = children.drop_last();
        assert forall|i: int| 0 <= i < front.len() implies shown_child(#[trigger] front[i]) by {
            assert(front[i] == children[i]);
        }
        lemma_walk_with_children(w, depth, front);
        assert(shown_child(children[children.len() - 1]));
    }
}

/// A walk keeps to its limits and to what it may find, from its start, whenever it turns to
/// another directory, and whatever stands in that directory, which a listing of a real directory
/// tells.
pub proof fn walk_stays_sound(
    w: WalkView,
    root: Seq<char>,
    query: Seq<char>,
    max_results: nat,
    max_visit: nat,
    time_left: bool,
    entries: Option<Seq<DirEntry>>,
)
    ensures
        walk_sound(new_walk(root, query, max_results, max_visit)),
        walk_sound(w) ==> walk_sound(walk_turned(w, time_left)),
        walk_sound(w) && (entries is Some ==> real_listing(entries->0)) ==> walk_sound(
            walk_read(w, entries),
        ),
{
    if walk_sound(w) {
        if walk_goes_on(w, time_left) {
            let next = walk_turned(w, time_left);
            assert forall|i: int| 0 <= i < next.queue.len() implies (#[trigger] next.queue[i]).1
                < WALK_DEPTH_CAP by {
                assert(next.queue[i] == w.queue[i + 1]);
            }
        }
        match (w.current, entries) {
            (Some((dir, depth)), Some(e)) => if real_listing(e) {
                lemma_walk_children(dir, e);
                lemma_walk_with_children(
                    WalkView { current: None, ..w },
                    depth,
                    walk_children(dir, e),
                );
            },
            _ => {},
        }
    }
}

/// The place of a source among those of a list.
pub open spec fn source_rank(s: PathSource) -> int {
    match s {
        PathSource::Exact => 0,
        PathSource::Zoxide => 1,
        PathSource::Current => 2,
        PathSource::Home => 3,
        PathSource::Recent => 4,
        PathSource::Parent => 5,
        PathSource::Browse => 6,
        PathSource::Nested => 7,
    }
}

/// What holds of a list of ranked paths: no path is empty or there twice, and what was typed
/// comes first, then zoxide, the current directory, home, recent directories, the parent, the
/// children, and what a walk found; up to `top`.
pub open spec fn well_ranked(out: Seq<RankedView>, top: int) -> bool {
    &&& forall|i: int|
        0 <= i < out.len() ==> (#[trigger] out[i]).path.len() > 0 && source_rank(out[i].source)
            <= top
    &&& forall|i: int, j: int|
        0 <= i < j < out.len() ==> !path::same_path_text(
            (#[trigger] out[i]).path,
            (#[trigger] out[j]).path,
        ) && source_rank(out[i].source) <= source_rank(out[j].source)
}

/// Whether each path but a typed one matches the query.
pub open spec fn all_match(out: Seq<RankedView>, query: Seq<char>) -> bool {
    forall|i: int|
        0 <= i < out.len() ==> (#[trigger] out[i]).source == PathSource::Exact || matches(
            query,
            out[i].path,
        )
}

proof fn lemma_with_matches(
    out: Seq<RankedView>,
    source: PathSource,
    query: Seq<char>,
    shown_query: Seq<char>,
    paths: Seq<Seq<char>>,
    top: int,
)
    requires
        well_ranked(out, top),
        top <= source_rank(source),
        all_match(out, shown_query),
        query == shown_query || source == PathSource::Exact,
    ensures
        well_ranked(with_matches(out, source, query, paths), source_rank(source)),
        all_match(with_matches(out, source, query, paths), shown_query),
    decreases paths.len(),
{
    if paths.len() > 0 {
        let front = paths.drop_last();
        lemma_with_matches(out, source, query, shown_query, front, top);
        let before = with_matches(out, source, query, front);
        let p = paths.last();
        if matches(query, p) && p.len() > 0 && !has_path(before, p) {
            let after = with_matches(out, source, query, paths);
            assert(after == before.push(RankedView { source, path: p }));
            assert forall|i: int, j: int| 0 <= i < j < after.len() implies !path::same_path_text(
                (#[trigger] after[i]).path,
                (#[trigger] after[j]).path,
            ) && source_rank(after[i].source) <= source_rank(after[j].source) by {
                assert(after[i] == before[i]);
                if j < before.len() {
                    assert(after[j] == before[j]);
                } else {
                    assert(!path::same_path_text(before[i].path, p));
                }
            }
        }
    }
}

/// A ranked list holds no path twice, keeps the order of its sources, shows what matches the
/// query alone but for a typed directory, and stays under the cap where there is a query.
pub proof fn ranked_list_is_sound(s: SearchView)
    ensures
        well_ranked(ranked(s), 7),
        all_match(ranked(s), text::trim(s.query)),
        text::trim(s.query).len() > 0 ==> ranked(s).len() <= FILTER_RESULT_CAP,
{
    let q = text::trim(s.query);
    let none = Seq::<RankedView>::empty();
    let typed = opt_list(s.typed_exact);
    lemma_with_matches(none, PathSource::Exact, Seq::empty(), q, typed, 0);
    let exact = if s.typed_is_dir {
        with_matches(none, PathSource::Exact, Seq::empty(), typed)
    } else {
        none
    };
    let zoxide = with_matches(exact, PathSource::Zoxide, q, s.zoxide_dirs);
    lemma_with_matches(exact, PathSource::Zoxide, q, q, s.zoxide_dirs, 0);
    let current = with_matches(zoxide, PathSource::Current, q, opt_list(s.cwd));
    lemma_with_matches(zoxide, PathSource::Current, q, q, opt_list(s.cwd), 1);
    let home = with_matches(current, PathSource::Home, q, opt_list(s.home));
    lemma_with_matches(current, PathSource::Home, q, q, opt_list(s.home), 2);
    let recents = trimmed_texts(s.recent_dirs);
    let recent = with_matches(home, PathSource::Recent, q, recents);
    lemma_with_matches(home, PathSource::Recent, q, q, recents, 3);
    let up = opt_list(path::parent_text(s.browse_root));
    lemma_with_matches(recent, PathSource::Parent, q, q, up, 4);
    let above = if q.len() == 0 {
        with_matches(recent, PathSource::Parent, q, up)
    } else {
        recent
    };
    assert(well_ranked(above, 5));
    let children = browse_children(s.browse_root, s.browse_entries);
    lemma_with_matches(above, PathSource::Browse, q, q, children, 5);
    let browse = if s.browse_children {
        with_matches(above, PathSource::Browse, q, children)
    } else {
        above
    };
    assert(well_ranked(browse, 6));
    lemma_with_matches(browse, PathSource::Nested, q, q, s.nested_dirs, 6);
    let all = all_ranked(s);
    assert(all == with_matches(browse, PathSource::Nested, q, s.nested_dirs));
    let out = ranked(s);
    assert forall|i: int| 0 <= i < out.len() implies out[i] == #[trigger] all[i] by {}
    assert(well_ranked(out, 7)) by {
        assert forall|i: int, j: int| 0 <= i < j < out.len() implies !path::same_path_text(
            (#[trigger] out[i]).path,
            (#[trigger] out[j]).path,
        ) && source_rank(out[i].source) <= source_rank(out[j].source) by {
            assert(out[i] == all[i] && out[j] == all[j]);
        }
        assert forall|i: int| 0 <= i < out.len() implies (#[trigger] out[i]).path.len() > 0
            && source_rank(out[i].source) <= 7 by {
            assert(out[i] == all[i]);
        }
    }
    assert forall|i: int| 0 <= i < out.len() implies (#[trigger] out[i]).source
        == PathSource::Exact || matches(q, out[i].path) by {
        assert(out[i] == all[i]);
    }
}

/// A directory is left out where its name starts with a dot or is that of one that holds what is built
/// or fetched, in any case of letters; any other name is shown.
pub proof fn heavy_directories_are_left_out(name: Seq<char>, i: int)
    ensures
        name.len() > 0 && name[0] == '.' ==> skipped_name(name),
        0 <= i < HEAVY_DIR_NAMES@.len() && text::same_but_case(name, HEAVY_DIR_NAMES@[i]@)
            ==> skipped_name(name),
        skipped_name(name) && name.len() > 0 && name[0] != '.' ==> exists|j: int|
            0 <= j < HEAVY_DIR_NAMES@.len() && text::same_but_case(
                name,
                #[trigger] HEAVY_DIR_NAMES@[j]@,
            ),
        text::same_but_case(name, "node_modules"@) ==> skipped_name(name),
        text::same_but_case(name, "target"@) ==> skipped_name(name),
        text::same_but_case(name, "dist"@) ==> skipped_name(name),
        text::same_but_case(name, "build"@) ==> skipped_name(name),
        text::same_but_case(name, "vendor"@) ==> skipped_name(name),
{
    let h = HEAVY_DIR_NAMES@;
    assert(h.contains("node_modules"));
    assert(h.contains("target"));
    assert(h.contains("dist"));
    assert(h.contains("build"));
    assert(h.contains("vendor"));
}

/// Of a directory's entries the directories whose names are shown stay, in their order, and nothing
/// else.
pub proof fn directories_alone_are_shown(entries: Seq<DirEntry>, e: DirEntry)
    ensures
        e.kind != EntryKind::Directory ==> shown_names(entries.push(e)) == shown_names(entries),
        skipped_name(e.name@) ==> shown_names(entries.push(e)) == shown_names(entries),
        e.kind == EntryKind::Directory && !skipped_name(e.name@) ==> shown_names(entries.push(e))
            == shown_names(entries).push(e.name@),
        shown_names(Seq::empty()).len() == 0,
{
    assert(entries.push(e).drop_last() =~= entries);
}

proof fn lemma_shown(entries: Seq<DirEntry>, i: int)
    requires
        0 <= i < entries.len(),
        shown_entry(entries[i]),
    ensures
        shown_names(entries).contains(entries[i].name@),
    decreases entries.len(),
{
    let all = shown_names(entries);
    if i == entries.len() - 1 {
        assert(all.last() == entries[i].name@);
        assert(all[all.len() - 1] == entries[i].name@);
    } else {
        lemma_shown(entries.drop_last(), i);
        let front = shown_names(entries.drop_last());
        let k = choose|k: int| 0 <= k < front.len() && front[k] == entries[i].name@;
        assert(all[k] == entries[i].name@);
    }
}

proof fn lemma_sorted_contains(v: Seq<Seq<char>>, x: Seq<char>)
    requires
        v.contains(x),
    ensures
        order::sorted_texts(v).contains(x),
{
    order::sorting_orders_texts(v);
    v.to_multiset_ensures();
    order::sorted_texts(v).to_multiset_ensures();
    assert(v.to_multiset().count(x) > 0);
    assert(order::sorted_texts(v).to_multiset().count(x) > 0);
}

/// Browsing lists the shown directories of a directory, each below it, in the order of their names, and
/// at most 400 of them; where there are no more, it lists all.
pub proof fn browsing_lists_the_shown_directories(
    root: Seq<char>,
    entries: Seq<DirEntry>,
    i: int,
)
    requires
        0 <= i < entries.len(),
    ensures
        ({
            let all = browse_children(root, entries);
            let names = shown_names(entries);
            &&& all.len() == if names.len() < 400 {
                names.len()
            } else {
                400
            }
            &&& names.len() <= 400 && entries[i].kind == EntryKind::Directory && !skipped_name(
                entries[i].name@,
            ) ==> all.contains(path::joined_path(root, entries[i].name@))
            &&& exists|sorted: Seq<Seq<char>>| #[trigger]
                order::ordered(sorted) && sorted.len() == all.len() && (forall|k: int|
                    0 <= k < all.len() ==> all[k] == path::joined_path(root, #[trigger] sorted[k]))
        }),
{
    let names = at_most(shown_names(entries), 400);
    let sorted = order::sorted_texts(names);
    let all = browse_children(root, entries);
    order::sorting_orders_texts(names);
    assert(order::ordered(sorted));
    if shown_names(entries).len() <= 400 && shown_entry(entries[i]) {
        lemma_shown(entries, i);
        lemma_sorted_contains(names, entries[i].name@);
        let k = choose|k: int| 0 <= k < sorted.len() && sorted[k] == entries[i].name@;
        assert(all[k] == path::joined_path(root, entries[i].name@));
    }
    assert forall|k: int| 0 <= k < all.len() implies all[k] == path::joined_path(
        root,
        #[trigger] sorted[k],
    ) by {}
}

/// A walk begins at its root where there is something to look for, goes on as long as there is a
/// directory to read, time, and room for visits and results, and takes the directories in the order in
/// which it found them.
pub proof fn walks_read_one_directory_after_another(
    root: Seq<char>,
    query: Seq<char>,
    max_results: nat,
    max_visit: nat,
    w: WalkView,
    time_left: bool,
)
    ensures
        ({
            let n = new_walk(root, query, max_results, max_visit);
            &&& text::blank(query) ==> n.queue.len() == 0
            &&& !text::blank(query) ==> n.queue == seq![(root, 0nat)]
            &&& n.found.len() == 0 && n.visited == 0 && n.current is None
            &&& n.query == query && n.max_results == max_results && n.max_visit == max_visit
        }),
        ({
            let t = walk_turned(w, time_left);
            let goes_on = w.queue.len() > 0 && w.visited < w.max_visit && w.found.len()
                < w.max_results && time_left;
            &&& goes_on ==> t.current == Some(w.queue[0]) && seq![w.queue[0]] + t.queue == w.queue
                && t.visited == w.visited + 1
            &&& !goes_on ==> t.current is None && t.queue.len() == 0
            &&& t.found == w.found && t.query == w.query && t.max_results == w.max_results
                && t.max_visit == w.max_visit
        }),
{
    let cut = text::trimming_drops_only_spaces(query);
    if w.queue.len() > 0 {
        assert(seq![w.queue[0]] + w.queue.drop_first() =~= w.queue);
    }
}

proof fn lemma_children_read(w: WalkView, depth: nat, children: Seq<Seq<char>>)
    ensures
        ({
            let r = walk_with_children(w, depth, children);
            &&& r.query == w.query && r.max_results == w.max_results && r.max_visit == w.max_visit
                && r.visited == w.visited && r.current == w.current
            &&& w.found.is_prefix_of(r.found)
            &&& w.queue.is_prefix_of(r.queue)
            &&& r.found.len() <= w.found.len() + children.len()
            &&& depth + 1 < WALK_DEPTH_CAP ==> r.queue.len() == w.queue.len() + children.len()
            &&& depth + 1 >= WALK_DEPTH_CAP ==> r.queue == w.queue
            &&& depth + 1 < WALK_DEPTH_CAP ==> forall|i: int|
                0 <= i < children.len() ==> r.queue[w.queue.len() + i] == (
                    #[trigger] children[i],
                    depth + 1,
                )
            &&& forall|i: int|
                0 <= i < children.len() && w.found.len() + children.len() <= w.max_results
                    && path_matches(w.query, #[trigger] children[i]) ==> r.found.contains(
                    children[i],
                )
        }),
    decreases children.len(),
{
    let r = walk_with_children(w, depth, children);
    if children.len() > 0 {
        let front = children.drop_last();
        let m = walk_with_children(w, depth, front);
        lemma_children_read(w, depth, front);
        assert(w.found =~= r.found.take(w.found.len() as int));
        assert(w.queue =~= r.queue.take(w.queue.len() as int));
        if depth + 1 < WALK_DEPTH_CAP {
            assert forall|i: int| 0 <= i < children.len() implies r.queue[w.queue.len() + i] == (
                #[trigger] children[i],
                depth + 1,
            ) by {
                if i < front.len() {
                    assert(front[i] == children[i]);
                    assert(m.queue[w.queue.len() + i] == (front[i], depth + 1));
                }
            }
        }
        assert forall|i: int|
            0 <= i < children.len() && w.found.len() + children.len() <= w.max_results
                && path_matches(w.query, #[trigger] children[i]) implies r.found.contains(
            children[i],
        ) by {
            if i < front.len() {
                assert(front[i] == children[i]);
                assert(m.found.contains(front[i]));
                let k = choose|k: int| 0 <= k < m.found.len() && m.found[k] == front[i];
                assert(r.found[k] == children[i]);
            } else {
                assert(r.found.last() == children[i]);
                assert(r.found[r.found.len() - 1] == children[i]);
            }
        }
    }
}

/// A read of a directory finds every shown child that matches, where there is room for all of them,
/// and puts every shown child behind the directories to read, down to 8 levels; what was found and what
/// was to be read stays before that.
pub proof fn walks_find_what_matches(w: WalkView, entries: Seq<DirEntry>, i: int)
    requires
        w.current is Some,
        0 <= i < entries.len(),
        entries[i].kind == EntryKind::Directory,
        !skipped_name(entries[i].name@),
    ensures
        ({
            let r = walk_read(w, Some(entries));
            let dir = (w.current->0).0;
            let depth = (w.current->0).1;
            let child = path::joined_path(dir, entries[i].name@);
            &&& r.current is None
            &&& w.found.is_prefix_of(r.found)
            &&& w.queue.is_prefix_of(r.queue)
            &&& depth + 1 < 8 ==> r.queue.contains((child, depth + 1))
            &&& depth + 1 >= 8 ==> r.queue == w.queue
            &&& w.found.len() + shown_names(entries).len() <= w.max_results && (fuzzy(
                w.query,
                child,
            ) || fuzzy(w.query, name_of(child))) ==> r.found.contains(child)
        }),
{
    let dir = (w.current->0).0;
    let depth = (w.current->0).1;
    let rest = WalkView { current: None, ..w };
    let sorted = order::sorted_texts(shown_names(entries));
    let children = walk_children(dir, entries);
    let child = path::joined_path(dir, entries[i].name@);
    order::sorting_orders_texts(shown_names(entries));
    lemma_shown(entries, i);
    lemma_sorted_contains(shown_names(entries), entries[i].name@);
    let k = choose|k: int| 0 <= k < sorted.len() && sorted[k] == entries[i].name@;
    assert(children[k] == child);
    lemma_children_read(rest, depth, children);
    let r = walk_read(w, Some(entries));
    assert(r == walk_with_children(rest, depth, children));
    if depth + 1 < 8 {
        assert(r.queue[w.queue.len() + k] == (children[k], depth + 1));
    }
}

/// A directory that cannot be read adds nothing.
pub proof fn unreadable_directories_add_nothing(w: WalkView)
    ensures
        walk_read(w, None) == (WalkView { current: None, ..w }),
{
}

proof fn lemma_matches_added(
    out: Seq<RankedView>,
    source: PathSource,
    query: Seq<char>,
    paths: Seq<Seq<char>>,
)
    ensures
        out.is_prefix_of(with_matches(out, source, query, paths)),
        forall|i: int|
            0 <= i < paths.len() && (#[trigger] paths[i]).len() > 0 && matches(query, paths[i])
                ==> has_path(with_matches(out, source, query, paths), paths[i]),
        forall|k: int|
            out.len() <= k < with_matches(out, source, query, paths).len() ==> (
            #[trigger] with_matches(out, source, query, paths)[k]).source == source
                && paths.contains(with_matches(out, source, query, paths)[k].path),
    decreases paths.len(),
{
    let all = with_matches(out, source, query, paths);
    if paths.len() > 0 {
        let front = with_matches(out, source, query, paths.drop_last());
        lemma_matches_added(out, source, query, paths.drop_last());
        assert(out =~= all.take(out.len() as int));
        assert forall|i: int|
            0 <= i < paths.len() && (#[trigger] paths[i]).len() > 0 && matches(
                query,
                paths[i],
            ) implies has_path(all, paths[i]) by {
            if i < paths.len() - 1 {
                assert(paths.drop_last()[i] == paths[i]);
                assert(has_path(front, paths[i]));
                lemma_has_path_grows(front, all, paths[i]);
            } else if !has_path(front, paths[i]) {
                assert(all.last().path == paths[i]);
                assert(path::same_path_text(all[all.len() - 1].path, paths[i]));
            } else {
                lemma_has_path_grows(front, all, paths[i]);
            }
        }
        assert forall|k: int| out.len() <= k < all.len() implies (#[trigger] all[k]).source
            == source && paths.contains(all[k].path) by {
            if k < front.len() {
                assert(all[k] == front[k]);
                let m = choose|m: int|
                    0 <= m < paths.drop_last().len() && paths.drop_last()[m] == front[k].path;
                assert(paths[m] == all[k].path);
            } else {
                assert(paths[paths.len() - 1] == all[k].path);
            }
        }
    } else {
        assert(out =~= all.take(out.len() as int));
    }
}

proof fn lemma_has_path_grows(a: Seq<RankedView>, b: Seq<RankedView>, p: Seq<char>)
    requires
        a.len() <= b.len(),
        forall|i: int| 0 <= i < a.len() ==> #[trigger] a[i] == b[i],
        has_path(a, p),
    ensures
        has_path(b, p),
{
    let i = choose|i: int| 0 <= i < a.len() && path::same_path_text(#[trigger] a[i].path, p);
    assert(b[i] == a[i]);
    assert(path::same_path_text(b[i].path, p));
}

/// Whether a path is offered by a search: it is the typed directory, or it matches the query and is
/// known to zoxide, the working directory, the home directory, a recent one, or a nested one that was
/// found; without a query also the parent of the browsed directory; and a child of that, where it is
/// browsed.
pub open spec fn offered(s: SearchView, p: Seq<char>) -> bool {
    let q = text::trim(s.query);
    ||| s.typed_is_dir && s.typed_exact == Some(p)
    ||| matches(q, p) && {
        ||| s.zoxide_dirs.contains(p)
        ||| s.cwd == Some(p)
        ||| s.home == Some(p)
        ||| exists|i: int|
            0 <= i < s.recent_dirs.len() && text::trim(#[trigger] s.recent_dirs[i]) == p
        ||| q.len() == 0 && path::parent_text(s.browse_root) == Some(p)
        ||| s.browse_children && browse_children(s.browse_root, s.browse_entries).contains(p)
        ||| s.nested_dirs.contains(p)
    }
}

/// Whether an entry of a search is what its source says.
pub open spec fn true_source(s: SearchView, r: RankedView) -> bool {
    match r.source {
        PathSource::Exact => s.typed_is_dir && s.typed_exact == Some(r.path),
        PathSource::Zoxide => s.zoxide_dirs.contains(r.path),
        PathSource::Current => s.cwd == Some(r.path),
        PathSource::Home => s.home == Some(r.path),
        PathSource::Recent => exists|i: int|
            0 <= i < s.recent_dirs.len() && text::trim(#[trigger] s.recent_dirs[i]) == r.path,
        PathSource::Parent => text::blank(s.query) && path::parent_text(s.browse_root) == Some(
            r.path,
        ),
        PathSource::Browse => s.browse_children && browse_children(
            s.browse_root,
            s.browse_entries,
        ).contains(r.path),
        PathSource::Nested => s.nested_dirs.contains(r.path),
    }
}

/// Every path that a search offers is in its list, as the same path; every entry of the list is what
/// its source says; and where there is a query the list is cut at 64 entries, from its end.
pub proof fn searches_list_what_is_offered(s: SearchView, p: Seq<char>, k: int)
    requires
        p.len() > 0,
    ensures
        offered(s, p) ==> has_path(all_ranked(s), p),
        0 <= k < ranked(s).len() ==> true_source(s, ranked(s)[k]),
        ranked(s).is_prefix_of(all_ranked(s)),
        text::blank(s.query) || all_ranked(s).len() <= 64 ==> ranked(s) == all_ranked(s),
        !text::blank(s.query) && all_ranked(s).len() > 64 ==> ranked(s).len() == 64,
{
    let cut = text::trimming_drops_only_spaces(s.query);
    let q = text::trim(s.query);
    let none = Seq::<RankedView>::empty();
    let no_query = Seq::<char>::empty();
    let typed = opt_list(s.typed_exact);
    let exact = if s.typed_is_dir {
        with_matches(none, PathSource::Exact, no_query, typed)
    } else {
        none
    };
    let zoxide = with_matches(exact, PathSource::Zoxide, q, s.zoxide_dirs);
    let current = with_matches(zoxide, PathSource::Current, q, opt_list(s.cwd));
    let home = with_matches(current, PathSource::Home, q, opt_list(s.home));
    let recent = with_matches(home, PathSource::Recent, q, trimmed_texts(s.recent_dirs));
    let up = opt_list(path::parent_text(s.browse_root));
    let above = if q.len() == 0 {
        with_matches(recent, PathSource::Parent, q, up)
    } else {
        recent
    };
    let kids = browse_children(s.browse_root, s.browse_entries);
    let browse = if s.browse_children {
        with_matches(above, PathSource::Browse, q, kids)
    } else {
        above
    };
    let all = with_matches(browse, PathSource::Nested, q, s.nested_dirs);
    assert(all == all_ranked(s));
    lemma_matches_added(none, PathSource::Exact, no_query, typed);
    lemma_matches_added(exact, PathSource::Zoxide, q, s.zoxide_dirs);
    lemma_matches_added(zoxide, PathSource::Current, q, opt_list(s.cwd));
    lemma_matches_added(current, PathSource::Home, q, opt_list(s.home));
    lemma_matches_added(home, PathSource::Recent, q, trimmed_texts(s.recent_dirs));
    lemma_matches_added(recent, PathSource::Parent, q, up);
    lemma_matches_added(above, PathSource::Browse, q, kids);
    lemma_matches_added(browse, PathSource::Nested, q, s.nested_dirs);
    if offered(s, p) {
        lemma_offered_is_listed(s, p, exact, zoxide, current, home, recent, above, browse, all);
    }
    if ranked(s).len() < all.len() {
        assert(ranked(s) =~= all.take(ranked(s).len() as int));
    } else {
        assert(ranked(s) =~= all.take(ranked(s).len() as int));
    }
    if 0 <= k < ranked(s).len() {
        let r = all[k];
        assert(ranked(s)[k] == r);
        if k < exact.len() {
            assert(r == exact[k]);
            assert(typed.contains(r.path));
        } else if k < zoxide.len() {
            assert(r == zoxide[k]);
        } else if k < current.len() {
            assert(r == current[k]);
            assert(opt_list(s.cwd).contains(r.path));
        } else if k < home.len() {
            assert(r == home[k]);
            assert(opt_list(s.home).contains(r.path));
        } else if k < recent.len() {
            assert(r == recent[k]);
            let v = trimmed_texts(s.recent_dirs);
            let i = choose|i: int| 0 <= i < v.len() && v[i] == r.path;
            assert(text::trim(s.recent_dirs[i]) == r.path);
        } else if k < above.len() {
            assert(r == above[k]);
            assert(up.contains(r.path));
        } else if k < browse.len() {
            assert(r == browse[k]);
        }
    }
}

proof fn lemma_offered_is_listed(
    s: SearchView,
    p: Seq<char>,
    exact: Seq<RankedView>,
    zoxide: Seq<RankedView>,
    current: Seq<RankedView>,
    home: Seq<RankedView>,
    recent: Seq<RankedView>,
    above: Seq<RankedView>,
    browse: Seq<RankedView>,
    all: Seq<RankedView>,
)
    requires
        p.len() > 0,
        offered(s, p),
        exact == if s.typed_is_dir {
            with_matches(
                Seq::empty(),
                PathSource::Exact,
                Seq::empty(),
                opt_list(s.typed_exact),
            )
        } else {
            Seq::empty()
        },
        zoxide == with_matches(exact, PathSource::Zoxide, text::trim(s.query), s.zoxide_dirs),
        current == with_matches(
            zoxide,
            PathSource::Current,
            text::trim(s.query),
            opt_list(s.cwd),
        ),
        home == with_matches(current, PathSource::Home, text::trim(s.query), opt_list(s.home)),
        recent == with_matches(
            home,
            PathSource::Recent,
            text::trim(s.query),
            trimmed_texts(s.recent_dirs),
        ),
        above == if text::trim(s.query).len() == 0 {
            with_matches(
                recent,
                PathSource::Parent,
                text::trim(s.query),
                opt_list(path::parent_text(s.browse_root)),
            )
        } else {
            recent
        },
        browse == if s.browse_children {
            with_matches(
                above,
                PathSource::Browse,
                text::trim(s.query),
                browse_children(s.browse_root, s.browse_entries),
            )
        } else {
            above
        },
        all == with_matches(browse, PathSource::Nested, text::trim(s.query), s.nested_dirs),
    ensures
        has_path(all, p),
{
    let q = text::trim(s.query);
    let none = Seq::<RankedView>::empty();
    let no_query = Seq::<char>::empty();
    let typed = opt_list(s.typed_exact);
    let up = opt_list(path::parent_text(s.browse_root));
    let kids = browse_children(s.browse_root, s.browse_entries);
    let past = trimmed_texts(s.recent_dirs);
    lemma_matches_added(none, PathSource::Exact, no_query, typed);
    lemma_matches_added(exact, PathSource::Zoxide, q, s.zoxide_dirs);
    lemma_matches_added(zoxide, PathSource::Current, q, opt_list(s.cwd));
    lemma_matches_added(current, PathSource::Home, q, opt_list(s.home));
    lemma_matches_added(home, PathSource::Recent, q, past);
    lemma_matches_added(recent, PathSource::Parent, q, up);
    lemma_matches_added(above, PathSource::Browse, q, kids);
    lemma_matches_added(browse, PathSource::Nested, q, s.nested_dirs);
    if s.typed_is_dir && s.typed_exact == Some(p) {
        assert(typed[0] == p);
        lemma_has_path_grows(exact, zoxide, p);
    } else if s.zoxide_dirs.contains(p) {
        let i = choose|i: int| 0 <= i < s.zoxide_dirs.len() && s.zoxide_dirs[i] == p;
        assert(has_path(zoxide, s.zoxide_dirs[i]));
    }
    if has_path(zoxide, p) {
        lemma_has_path_grows(zoxide, current, p);
    } else if s.cwd == Some(p) {
        assert(opt_list(s.cwd)[0] == p);
    }
    if has_path(current, p) {
        lemma_has_path_grows(current, home, p);
    } else if s.home == Some(p) {
        assert(opt_list(s.home)[0] == p);
    }
    if has_path(home, p) {
        lemma_has_path_grows(home, recent, p);
    } else if exists|i: int|
        0 <= i < s.recent_dirs.len() && text::trim(#[trigger] s.recent_dirs[i]) == p {
        let i = choose|i: int|
            0 <= i < s.recent_dirs.len() && text::trim(#[trigger] s.recent_dirs[i]) == p;
        assert(past[i] == p);
        assert(has_path(recent, past[i]));
    }
    if has_path(recent, p) {
        lemma_has_path_grows(recent, above, p);
    } else if q.len() == 0 && path::parent_text(s.browse_root) == Some(p) {
        assert(up[0] == p);
    }
    if has_path(above, p) {
        lemma_has_path_grows(above, browse, p);
    } else if s.browse_children && kids.contains(p) {
        let i = choose|i: int| 0 <= i < kids.len() && kids[i] == p;
        assert(has_path(browse, kids[i]));
    }
    if has_path(browse, p) {
        lemma_has_path_grows(browse, all, p);
    } else {
        assert(s.nested_dirs.contains(p));
        let i = choose|i: int| 0 <= i < s.nested_dirs.len() && s.nested_dirs[i] == p;
        assert(has_path(all, s.nested_dirs[i]));
    }
}

/// A query matches a path where it matches the whole of it or its name; without a query every path
/// matches. A query is matched by any text that its letters stand in, in their order.
pub proof fn queries_match_paths_and_names(query: Seq<char>, p: Seq<char>)
    ensures
        query.len() == 0 ==> matches(query, p),
        fuzzy(query, p) ==> matches(query, p),
        path::file_name_text(p) is Some && fuzzy(query, path::file_name_text(p)->0) ==> matches(
            query,
            p,
        ),
        query.len() > 0 && matches(query, p) ==> fuzzy(query, p) || fuzzy(query, name_of(p)),
        path::file_name_text(p) is Some ==> name_of(p) == path::file_name_text(p)->0,
        path::file_name_text(p) is None ==> name_of(p) == p,
{
}

/// A typed directory comes first in the list of a search.
pub proof fn typed_directories_come_first(s: SearchView, p: Seq<char>)
    requires
        s.typed_is_dir,
        s.typed_exact == Some(p),
        p.len() > 0,
    ensures
        ranked(s).len() > 0,
        ranked(s)[0].path == p,
        ranked(s)[0].source is Exact,
{
    let q = text::trim(s.query);
    let none = Seq::<RankedView>::empty();
    let no_query = Seq::<char>::empty();
    let typed = opt_list(s.typed_exact);
    let exact = with_matches(none, PathSource::Exact, no_query, typed);
    let zoxide = with_matches(exact, PathSource::Zoxide, q, s.zoxide_dirs);
    let current = with_matches(zoxide, PathSource::Current, q, opt_list(s.cwd));
    let home = with_matches(current, PathSource::Home, q, opt_list(s.home));
    let recent = with_matches(home, PathSource::Recent, q, trimmed_texts(s.recent_dirs));
    let up = opt_list(path::parent_text(s.browse_root));
    let above = if q.len() == 0 {
        with_matches(recent, PathSource::Parent, q, up)
    } else {
        recent
    };
    let kids = browse_children(s.browse_root, s.browse_entries);
    let browse = if s.browse_children {
        with_matches(above, PathSource::Browse, q, kids)
    } else {
        above
    };
    let all = with_matches(browse, PathSource::Nested, q, s.nested_dirs);
    assert(typed[0] == p);
    lemma_matches_added(none, PathSource::Exact, no_query, typed);
    assert(has_path(exact, typed[0]));
    assert(typed.contains(exact[0].path));
    assert(exact[0].path == p && exact[0].source is Exact);
    lemma_matches_added(exact, PathSource::Zoxide, q, s.zoxide_dirs);
    assert(zoxide[0] == exact[0]);
    lemma_matches_added(zoxide, PathSource::Current, q, opt_list(s.cwd));
    assert(current[0] == exact[0]);
    lemma_matches_added(current, PathSource::Home, q, opt_list(s.home));
    assert(home[0] == exact[0]);
    lemma_matches_added(home, PathSource::Recent, q, trimmed_texts(s.recent_dirs));
    assert(recent[0] == exact[0]);
    lemma_matches_added(recent, PathSource::Parent, q, up);
    assert(above[0] == exact[0]);
    lemma_matches_added(above, PathSource::Browse, q, kids);
    assert(browse[0] == exact[0]);
    lemma_matches_added(browse, PathSource::Nested, q, s.nested_dirs);
    assert(all[0] == exact[0]);
    assert(all == all_ranked(s));
}

} // verus!
