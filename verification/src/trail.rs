//! What a whole walk finds: its paths, by the names below its root.
use vstd::prelude::*;
use crate::dirpick;
use crate::dirpick::{DirEntry, WalkView, WALK_DEPTH_CAP};
use crate::order;
use crate::path;
use crate::text;

verus! {

/// The path of names below a root, from the top down.
pub open spec fn path_below(root: Seq<char>, names: Seq<Seq<char>>) -> Seq<char>
    decreases names.len(),
{
    if names.len() == 0 {
        root
    } else {
        path::joined_path(path_below(root, names.drop_last()), names.last())
    }
}

/// One step of a walk: whether there was time for it, and what stood in the directory that it turned
/// to, where that could be read.
pub struct WalkStep {
    pub time_left: bool,
    pub entries: Option<Seq<DirEntry>>,
}

/// Whether the steps read real directories.
pub open spec fn real_steps(steps: Seq<WalkStep>) -> bool {
    forall|i: int|
        0 <= i < steps.len() && (#[trigger] steps[i]).entries is Some ==> dirpick::real_listing(
            steps[i].entries->0,
        )
}

/// A walk after some steps.
pub open spec fn walk_run(w: WalkView, steps: Seq<WalkStep>) -> WalkView
    decreases steps.len(),
{
    if steps.len() == 0 {
        w
    } else {
        dirpick::walk_read(
            dirpick::walk_turned(walk_run(w, steps.drop_last()), steps.last().time_left),
            steps.last().entries,
        )
    }
}

/// Whether paths are those of names below a root: each one to eight levels below it, under no name
/// that is hidden or heavy, and none before one that is less far below.
pub open spec fn found_below(
    root: Seq<char>,
    found: Seq<Seq<char>>,
    names: Seq<Seq<Seq<char>>>,
) -> bool {
    &&& names.len() == found.len()
    &&& forall|i: int|
        0 <= i < names.len() ==> found[i] == path_below(root, #[trigger] names[i]) && dirpick::all_shown(
            names[i],
        ) && 1 <= names[i].len() <= WALK_DEPTH_CAP
    &&& forall|i: int, j: int|
        0 <= i <= j < names.len() ==> (#[trigger] names[i]).len() <= (#[trigger] names[j]).len()
}

// ---------------------------------------------------------------------------------------------
// A path has one sequence of names

proof fn lemma_shown_path(root: Seq<char>, names: Seq<Seq<char>>)
    requires
        dirpick::all_shown(names),
        names.len() > 0,
    ensures
        path_below(root, names).len() > 0,
        path_below(root, names).last() != '/',
        path_below(root, names).len() > path_below(root, names.drop_last()).len(),
        names.len() >= 2 ==> path_below(root, names) == path_below(root, names.drop_last()).push(
            '/',
        ) + names.last(),
    decreases names.len(),
{
    let front = names.drop_last();
    let n = names.last();
    assert(dirpick::shown_name(names[names.len() - 1]));
    let p = path_below(root, names);
    assert(p[p.len() - 1] == n[n.len() - 1]);
    assert(n.contains(n[n.len() - 1]));
    assert(!text::begins(n, '/')) by {
        assert(n.contains(n[0]));
    }
    if names.len() >= 2 {
        assert forall|i: int| 0 <= i < front.len() implies dirpick::shown_name(#[trigger] front[i]) by {
            assert(front[i] == names[i]);
        }
        lemma_shown_path(root, front);
    }
}

proof fn lemma_base_len(root: Seq<char>, names: Seq<Seq<char>>)
    requires
        dirpick::all_shown(names),
        names.len() > 0,
    ensures
        path_below(root, names).len() >= path::joined_path(root, names[0]).len(),
    decreases names.len(),
{
    lemma_shown_path(root, names);
    if names.len() >= 2 {
        let front = names.drop_last();
        assert forall|i: int| 0 <= i < front.len() implies dirpick::shown_name(#[trigger] front[i]) by {
            assert(front[i] == names[i]);
        }
        lemma_base_len(root, front);
        assert(front[0] == names[0]);
    } else {
        reveal_with_fuel(path_below, 2);
        assert(names.drop_last().len() == 0);
        assert(names.last() == names[0]);
    }
}

proof fn lemma_last_name(a: Seq<char>, m: Seq<char>, b: Seq<char>, n: Seq<char>)
    requires
        a.push('/') + m == b.push('/') + n,
        !m.contains('/'),
        !n.contains('/'),
    ensures
        a == b,
        m == n,
{
    let x = a.push('/');
    let y = b.push('/');
    let p = x + m;
    assert(p == y + n);
    assert(p.len() == x.len() + m.len());
    assert(p.len() == y.len() + n.len());
    assert forall|i: int| 0 <= i < m.len() implies p[x.len() + i] == #[trigger] m[i] by {}
    assert forall|i: int| 0 <= i < n.len() implies p[y.len() + i] == #[trigger] n[i] by {}
    if a.len() < b.len() {
        let k = b.len() - x.len();
        assert(p[b.len() as int] == y[b.len() as int]);
        assert(0 <= k < m.len());
        assert(m[k] == '/');
        assert(m.contains('/'));
    } else if b.len() < a.len() {
        let k = a.len() - y.len();
        assert(p[a.len() as int] == x[a.len() as int]);
        assert(0 <= k < n.len());
        assert(n[k] == '/');
        assert(n.contains('/'));
    }
    assert(a.len() == b.len());
    assert forall|i: int| 0 <= i < a.len() implies a[i] == b[i] by {
        assert(p[i] == x[i]);
        assert(p[i] == y[i]);
    }
    assert forall|i: int| 0 <= i < m.len() implies m[i] == n[i] by {
        assert(p[x.len() + i] == m[i]);
        assert(p[y.len() + i] == n[i]);
    }
    assert(a == b);
    assert(m == n);
}

proof fn lemma_one_name(root: Seq<char>, a: Seq<Seq<char>>, b: Seq<Seq<char>>)
    requires
        dirpick::all_shown(a),
        dirpick::all_shown(b),
        a.len() == 1,
        b.len() > 0,
        path_below(root, a) == path_below(root, b),
    ensures
        a == b,
{
    reveal_with_fuel(path_below, 2);
    assert(a.drop_last().len() == 0);
    let n = a[0];
    assert(dirpick::shown_name(a[0]));
    assert(dirpick::shown_name(b[0]));
    assert(n.contains(n[0]));
    let p = path_below(root, a);
    assert(p == path::joined_path(root, n));
    let base = p.len() - n.len();
    if b.len() == 1 {
        assert(b.drop_last().len() == 0);
        let m = b[0];
        assert(m.contains(m[0]));
        assert(p == path::joined_path(root, m));
        assert(m.len() == n.len());
        assert forall|i: int| 0 <= i < n.len() implies n[i] == m[i] by {
            assert(p[base + i] == n[i]);
            assert(p[base + i] == m[i]);
        }
        assert(n == m);
        assert(a == b);
    } else {
        let front = b.drop_last();
        assert forall|i: int| 0 <= i < front.len() implies dirpick::shown_name(#[trigger] front[i]) by {
            assert(front[i] == b[i]);
        }
        lemma_shown_path(root, b);
        lemma_base_len(root, front);
        assert(front[0] == b[0]);
        assert(b[0].contains(b[0][0]));
        let y = path_below(root, front);
        assert(p == y.push('/') + b.last());
        assert(p[y.len() as int] == '/');
        assert(y.len() >= base + b[0].len());
        assert(n[y.len() - base] == '/');
        assert(n.contains('/'));
    }
}

/// A path has one sequence of names below a root.
pub proof fn names_are_unique(root: Seq<char>, a: Seq<Seq<char>>, b: Seq<Seq<char>>)
    requires
        dirpick::all_shown(a),
        dirpick::all_shown(b),
        a.len() > 0,
        b.len() > 0,
        path_below(root, a) == path_below(root, b),
    ensures
        a == b,
    decreases a.len(),
{
    if a.len() == 1 {
        lemma_one_name(root, a, b);
    } else if b.len() == 1 {
        lemma_one_name(root, b, a);
    } else {
        let x = a.drop_last();
        let y = b.drop_last();
        assert forall|i: int| 0 <= i < x.len() implies dirpick::shown_name(#[trigger] x[i]) by {
            assert(x[i] == a[i]);
        }
        assert forall|i: int| 0 <= i < y.len() implies dirpick::shown_name(#[trigger] y[i]) by {
            assert(y[i] == b[i]);
        }
        lemma_shown_path(root, a);
        lemma_shown_path(root, b);
        assert(dirpick::shown_name(a[a.len() - 1]));
        assert(dirpick::shown_name(b[b.len() - 1]));
        lemma_last_name(path_below(root, x), a.last(), path_below(root, y), b.last());
        names_are_unique(root, x, y);
        assert(a == x.push(a.last()));
        assert(b == y.push(b.last()));
    }
}

// ---------------------------------------------------------------------------------------------
// The walk by names

/// A walk by names: the directories that were read, those to read, those found, and how far below
/// the root the last one read was.
struct Trail {
    read: Set<Seq<Seq<char>>>,
    queue: Seq<Seq<Seq<char>>>,
    found: Seq<Seq<Seq<char>>>,
    depth: nat,
}

/// Whether a directory is the root or below one that was read.
spec fn reached(read: Set<Seq<Seq<char>>>, names: Seq<Seq<char>>) -> bool {
    names.len() == 0 || read.contains(names.drop_last())
}

/// Whether the directories stand by their depth, none further below than `most`.
spec fn by_depth(v: Seq<Seq<Seq<char>>>, most: nat) -> bool {
    &&& forall|i: int| 0 <= i < v.len() ==> (#[trigger] v[i]).len() <= most
    &&& forall|i: int, j: int|
        0 <= i <= j < v.len() ==> (#[trigger] v[i]).len() <= (#[trigger] v[j]).len()
}

/// What holds of a walk by names at every step.
spec fn trail_sound(t: Trail) -> bool {
    &&& forall|r: Seq<Seq<char>>| #[trigger] t.read.contains(r) ==> reached(t.read, r)
    &&& t.queue.no_duplicates()
    &&& forall|i: int|
        0 <= i < t.queue.len() ==> {
            &&& !t.read.contains(#[trigger] t.queue[i])
            &&& reached(t.read, t.queue[i])
            &&& dirpick::all_shown(t.queue[i])
            &&& t.depth <= t.queue[i].len() < WALK_DEPTH_CAP
        }
    &&& by_depth(t.queue, t.depth + 1)
    &&& t.found.no_duplicates()
    &&& forall|i: int|
        0 <= i < t.found.len() ==> {
            &&& 1 <= (#[trigger] t.found[i]).len() <= WALK_DEPTH_CAP
            &&& reached(t.read, t.found[i])
            &&& dirpick::all_shown(t.found[i])
        }
    &&& by_depth(t.found, t.depth + 1)
}

/// Whether a walk is at the paths of a walk by names.
spec fn at_trail(root: Seq<char>, w: WalkView, t: Trail) -> bool {
    &&& w.current is None
    &&& w.queue.len() == t.queue.len()
    &&& forall|i: int|
        0 <= i < t.queue.len() ==> #[trigger] w.queue[i] == (
            path_below(root, t.queue[i]),
            t.queue[i].len(),
        )
    &&& w.found.len() == t.found.len()
    &&& forall|i: int|
        0 <= i < t.found.len() ==> #[trigger] w.found[i] == path_below(root, t.found[i])
}

/// Whether `x` is a child of `c` under one of the names.
spec fn child_under(x: Seq<Seq<char>>, c: Seq<Seq<char>>, ns: Seq<Seq<char>>) -> bool {
    x.len() == c.len() + 1 && x.drop_last() == c && ns.contains(x.last())
}

/// Whether the directories are the ones before and children of `c` under the names.
spec fn grown(
    after: Seq<Seq<Seq<char>>>,
    before: Seq<Seq<Seq<char>>>,
    c: Seq<Seq<char>>,
    ns: Seq<Seq<char>>,
) -> bool {
    &&& after.no_duplicates()
    &&& by_depth(after, c.len() + 1)
    &&& forall|i: int|
        0 <= i < after.len() ==> before.contains(#[trigger] after[i]) || child_under(
            after[i],
            c,
            ns,
        )
}

proof fn lemma_grows(
    after: Seq<Seq<Seq<char>>>,
    before: Seq<Seq<Seq<char>>>,
    c: Seq<Seq<char>>,
    ns: Seq<Seq<char>>,
    n: Seq<char>,
)
    requires
        grown(after, before, c, ns),
        !ns.contains(n),
        !before.contains(c.push(n)),
    ensures
        grown(after, before, c, ns.push(n)),
        grown(after.push(c.push(n)), before, c, ns.push(n)),
{
    let x = c.push(n);
    let more = ns.push(n);
    assert(x.drop_last() == c);
    assert(x.last() == n);
    assert(more[more.len() - 1] == n);
    assert forall|i: int| 0 <= i < after.len() implies before.contains(#[trigger] after[i])
        || child_under(after[i], c, more) by {
        if !before.contains(after[i]) {
            let k = choose|k: int| 0 <= k < ns.len() && ns[k] == after[i].last();
            assert(more[k] == after[i].last());
        }
    }
    let out = after.push(x);
    assert forall|i: int| 0 <= i < out.len() implies before.contains(#[trigger] out[i])
        || child_under(out[i], c, more) by {
        if i < after.len() {
            assert(out[i] == after[i]);
        } else {
            assert(out[i] == x);
            assert(more.contains(n));
        }
    }
    assert forall|i: int, j: int| 0 <= i < j < out.len() implies out[i] != out[j] by {
        if j == after.len() {
            assert(out[i] == after[i]);
            assert(before.contains(after[i]) || child_under(after[i], c, ns));
        }
    }
    assert forall|i: int| 0 <= i < out.len() implies (#[trigger] out[i]).len() <= c.len() + 1 by {
        if i < after.len() {
            assert(out[i] == after[i]);
        }
    }
    assert forall|i: int, j: int| 0 <= i <= j < out.len() implies (#[trigger] out[i]).len() <= (
    #[trigger] out[j]).len() by {
        if j < after.len() {
            assert(out[i] == after[i] && out[j] == after[j]);
        }
    }
}

/// A walk after the children of a directory, by their names.
proof fn names_added(
    root: Seq<char>,
    w: WalkView,
    t: Trail,
    c: Seq<Seq<char>>,
    ns: Seq<Seq<char>>,
) -> (r: Trail)
    requires
        at_trail(root, w, t),
        trail_sound(t),
        t.depth == c.len(),
        !t.read.contains(c),
        dirpick::all_shown(ns),
        ns.no_duplicates(),
    ensures
        at_trail(
            root,
            dirpick::walk_with_children(
                w,
                c.len(),
                dirpick::below(path_below(root, c), ns),
            ),
            r,
        ),
        r.read == t.read,
        r.depth == t.depth,
        grown(r.queue, t.queue, c, ns),
        grown(r.found, t.found, c, ns),
        forall|i: int|
            0 <= i < r.queue.len() && !t.queue.contains(#[trigger] r.queue[i]) ==> c.len() + 1
                < WALK_DEPTH_CAP,
    decreases ns.len(),
{
    let dir = path_below(root, c);
    let children = dirpick::below(dir, ns);
    if ns.len() == 0 {
        assert forall|i: int| 0 <= i < t.queue.len() implies t.queue.contains(
            #[trigger] t.queue[i],
        ) by {}
        assert forall|i: int| 0 <= i < t.found.len() implies t.found.contains(
            #[trigger] t.found[i],
        ) by {}
        t
    } else {
        let front = ns.drop_last();
        let n = ns.last();
        let x = c.push(n);
        assert forall|i: int| 0 <= i < front.len() implies dirpick::shown_name(#[trigger] front[i]) by {
            assert(front[i] == ns[i]);
        }
        assert(front.no_duplicates());
        assert(!front.contains(n)) by {
            if front.contains(n) {
                let k = choose|k: int| 0 <= k < front.len() && front[k] == n;
                assert(ns[k] == ns[ns.len() - 1]);
            }
        }
        assert(front.push(n) == ns);
        let r = names_added(root, w, t, c, front);
        assert(children.drop_last() == dirpick::below(dir, front));
        assert(x.drop_last() == c);
        assert(children.last() == path_below(root, x));
        if t.queue.contains(x) {
            let k = choose|k: int| 0 <= k < t.queue.len() && t.queue[k] == x;
            assert(reached(t.read, t.queue[k]));
        }
        if t.found.contains(x) {
            let k = choose|k: int| 0 <= k < t.found.len() && t.found[k] == x;
            assert(reached(t.read, t.found[k]));
        }
        lemma_grows(r.queue, t.queue, c, front, n);
        lemma_grows(r.found, t.found, c, front, n);
        let before = dirpick::walk_with_children(w, c.len(), children.drop_last());
        let after = dirpick::walk_with_children(w, c.len(), children);
        let out = Trail {
            queue: if c.len() + 1 < WALK_DEPTH_CAP {
                r.queue.push(x)
            } else {
                r.queue
            },
            found: if dirpick::path_matches(before.query, children.last()) && before.found.len()
                < before.max_results {
                r.found.push(x)
            } else {
                r.found
            },
            ..r
        };
        assert(after == dirpick::walk_with_child(before, c.len(), children.last()));
        assert forall|i: int|
            0 <= i < out.queue.len() && !t.queue.contains(#[trigger] out.queue[i]) implies c.len()
            + 1 < WALK_DEPTH_CAP by {
            if i < r.queue.len() {
                assert(out.queue[i] == r.queue[i]);
            }
        }
        assert forall|i: int| 0 <= i < out.queue.len() implies #[trigger] after.queue[i] == (
            path_below(root, out.queue[i]),
            out.queue[i].len(),
        ) by {
            if i < r.queue.len() {
                assert(after.queue[i] == before.queue[i]);
                assert(out.queue[i] == r.queue[i]);
            }
        }
        assert forall|i: int| 0 <= i < out.found.len() implies #[trigger] after.found[i]
            == path_below(root, out.found[i]) by {
            if i < r.found.len() {
                assert(after.found[i] == before.found[i]);
                assert(out.found[i] == r.found[i]);
            }
        }
        out
    }
}

proof fn lemma_shown_child(
    c: Seq<Seq<char>>,
    ns: Seq<Seq<char>>,
    x: Seq<Seq<char>>,
)
    requires
        dirpick::all_shown(c),
        dirpick::all_shown(ns),
        child_under(x, c, ns),
    ensures
        dirpick::all_shown(x),
{
    assert forall|i: int| 0 <= i < x.len() implies dirpick::shown_name(#[trigger] x[i]) by {
        if i < c.len() {
            assert(x.drop_last()[i] == x[i]);
            assert(c[i] == x[i]);
        } else {
            let k = choose|k: int| 0 <= k < ns.len() && ns[k] == x.last();
            assert(dirpick::shown_name(ns[k]));
        }
    }
}

/// A walk by names after a directory was read.
proof fn directory_read(t: Trail, r: Trail, c: Seq<Seq<char>>, ns: Seq<Seq<char>>) -> (out: Trail)
    requires
        trail_sound(t),
        t.depth == c.len(),
        !t.read.contains(c),
        !t.queue.contains(c),
        reached(t.read, c),
        dirpick::all_shown(c),
        c.len() < WALK_DEPTH_CAP,
        dirpick::all_shown(ns),
        r.read == t.read,
        r.depth == t.depth,
        grown(r.queue, t.queue, c, ns),
        grown(r.found, t.found, c, ns),
        forall|i: int|
            0 <= i < r.queue.len() && !t.queue.contains(#[trigger] r.queue[i]) ==> c.len() + 1
                < WALK_DEPTH_CAP,
    ensures
        trail_sound(out),
        out.queue == r.queue,
        out.found == r.found,
{
    let out = Trail { read: t.read.insert(c), ..r };
    assert forall|p: Seq<Seq<char>>| #[trigger] out.read.contains(p) implies reached(
        out.read,
        p,
    ) by {
        if p != c {
            assert(t.read.contains(p));
            assert(reached(t.read, p));
        }
    }
    assert forall|i: int| 0 <= i < out.queue.len() implies {
        &&& !out.read.contains(#[trigger] out.queue[i])
        &&& reached(out.read, out.queue[i])
        &&& dirpick::all_shown(out.queue[i])
        &&& out.depth <= out.queue[i].len() < WALK_DEPTH_CAP
    } by {
        let x = r.queue[i];
        if t.queue.contains(x) {
            let k = choose|k: int| 0 <= k < t.queue.len() && t.queue[k] == x;
            assert(!t.read.contains(t.queue[k]));
        } else {
            lemma_shown_child(c, ns, x);
            if t.read.contains(x) {
                assert(reached(t.read, x));
            }
        }
    }
    assert forall|i: int| 0 <= i < out.found.len() implies {
        &&& 1 <= (#[trigger] out.found[i]).len() <= WALK_DEPTH_CAP
        &&& reached(out.read, out.found[i])
        &&& dirpick::all_shown(out.found[i])
    } by {
        let x = r.found[i];
        if t.found.contains(x) {
            let k = choose|k: int| 0 <= k < t.found.len() && t.found[k] == x;
            assert(reached(t.read, t.found[k]));
        } else {
            lemma_shown_child(c, ns, x);
        }
    }
    out
}

/// A walk by names after one step.
proof fn step_taken(root: Seq<char>, w: WalkView, t: Trail, s: WalkStep) -> (r: Trail)
    requires
        at_trail(root, w, t),
        trail_sound(t),
        s.entries is Some ==> dirpick::real_listing(s.entries->0),
    ensures
        at_trail(
            root,
            dirpick::walk_read(dirpick::walk_turned(w, s.time_left), s.entries),
            r,
        ),
        trail_sound(r),
{
    let turned = dirpick::walk_turned(w, s.time_left);
    if !dirpick::walk_goes_on(w, s.time_left) {
        Trail { queue: Seq::empty(), ..t }
    } else {
        let c = t.queue[0];
        let rest = t.queue.drop_first();
        let mid = Trail { queue: rest, depth: c.len(), ..t };
        let left = WalkView { current: None, ..turned };
        assert(w.queue[0] == (path_below(root, c), c.len()));
        assert forall|i: int| 0 <= i < rest.len() implies {
            &&& !mid.read.contains(#[trigger] rest[i])
            &&& reached(mid.read, rest[i])
            &&& dirpick::all_shown(rest[i])
            &&& mid.depth <= rest[i].len() < WALK_DEPTH_CAP
            &&& rest[i].len() <= mid.depth + 1
            &&& rest[i] != c
        } by {
            assert(rest[i] == t.queue[i + 1]);
            assert(t.queue[0].len() <= t.queue[i + 1].len());
        }
        assert(rest.no_duplicates());
        assert forall|i: int, j: int| 0 <= i <= j < rest.len() implies (#[trigger] rest[i]).len()
            <= (#[trigger] rest[j]).len() by {
            assert(rest[i] == t.queue[i + 1] && rest[j] == t.queue[j + 1]);
        }
        assert forall|i: int| 0 <= i < t.found.len() implies (#[trigger] t.found[i]).len()
            <= mid.depth + 1 by {}
        assert(trail_sound(mid));
        assert forall|i: int| 0 <= i < rest.len() implies #[trigger] left.queue[i] == (
            path_below(root, rest[i]),
            rest[i].len(),
        ) by {
            assert(left.queue[i] == w.queue[i + 1]);
        }
        assert(at_trail(root, left, mid));
        match s.entries {
            Some(e) => {
                let ns = order::sorted_texts(dirpick::shown_names(e));
                dirpick::lemma_real_names(e);
                dirpick::lemma_sorted_names(dirpick::shown_names(e));
                let r = names_added(root, left, mid, c, ns);
                directory_read(mid, r, c, ns)
            },
            None => mid,
        }
    }
}

proof fn steps_taken(root: Seq<char>, w: WalkView, t: Trail, steps: Seq<WalkStep>) -> (r: Trail)
    requires
        at_trail(root, w, t),
        trail_sound(t),
        real_steps(steps),
    ensures
        at_trail(root, walk_run(w, steps), r),
        trail_sound(r),
    decreases steps.len(),
{
    if steps.len() == 0 {
        t
    } else {
        let front = steps.drop_last();
        assert forall|i: int| 0 <= i < front.len() && (#[trigger] front[i]).entries is Some implies
            dirpick::real_listing(front[i].entries->0) by {
            assert(front[i] == steps[i]);
        }
        let mid = steps_taken(root, w, t, front);
        assert(steps[steps.len() - 1] == steps.last());
        step_taken(root, walk_run(w, front), mid, steps.last())
    }
}

proof fn lemma_run_sound(w: WalkView, steps: Seq<WalkStep>)
    requires
        dirpick::walk_sound(w),
        real_steps(steps),
    ensures
        dirpick::walk_sound(walk_run(w, steps)),
    decreases steps.len(),
{
    if steps.len() > 0 {
        let front = steps.drop_last();
        assert forall|i: int| 0 <= i < front.len() && (#[trigger] front[i]).entries is Some implies
            dirpick::real_listing(front[i].entries->0) by {
            assert(front[i] == steps[i]);
        }
        lemma_run_sound(w, front);
        let s = steps[steps.len() - 1];
        let before = walk_run(w, front);
        let turned = dirpick::walk_turned(before, s.time_left);
        dirpick::walk_stays_sound(before, w.query, w.query, 0, 0, s.time_left, None);
        dirpick::walk_stays_sound(turned, w.query, w.query, 0, 0, s.time_left, s.entries);
    }
}

/// A walk finds no path twice, and keeps to its limits and to its query. Each path that it finds is
/// one to eight levels below its root, under no name that is hidden or heavy, and none comes before
/// one that is less far below. This holds after any steps that read real directories.
pub proof fn walk_goes_by_levels(
    root: Seq<char>,
    query: Seq<char>,
    max_results: nat,
    max_visit: nat,
    steps: Seq<WalkStep>,
)
    requires
        real_steps(steps),
    ensures
        ({
            let w = walk_run(dirpick::new_walk(root, query, max_results, max_visit), steps);
            &&& w.found.no_duplicates()
            &&& dirpick::walk_sound(w)
            &&& exists|names: Seq<Seq<Seq<char>>>| #[trigger] found_below(root, w.found, names)
        }),
{
    let start = dirpick::new_walk(root, query, max_results, max_visit);
    let first: Seq<Seq<char>> = Seq::empty();
    let t = Trail {
        read: Set::empty(),
        queue: if start.queue.len() == 0 {
            Seq::empty()
        } else {
            seq![first]
        },
        found: Seq::empty(),
        depth: 0,
    };
    assert(at_trail(root, start, t));
    assert(trail_sound(t));
    let r = steps_taken(root, start, t, steps);
    let w = walk_run(start, steps);
    dirpick::walk_stays_sound(start, root, query, max_results, max_visit, true, None);
    lemma_run_sound(start, steps);
    assert forall|i: int, j: int| 0 <= i < j < w.found.len() implies w.found[i] != w.found[j] by {
        assert(w.found[i] == path_below(root, r.found[i]));
        assert(w.found[j] == path_below(root, r.found[j]));
        if w.found[i] == w.found[j] {
            names_are_unique(root, r.found[i], r.found[j]);
        }
    }
    assert forall|i: int| 0 <= i < r.found.len() implies w.found[i] == path_below(
        root,
        #[trigger] r.found[i],
    ) && dirpick::all_shown(r.found[i]) && 1 <= r.found[i].len() <= WALK_DEPTH_CAP by {
        assert(w.found[i] == path_below(root, r.found[i]));
    }
    assert(found_below(root, w.found, r.found));
}

} // verus!
