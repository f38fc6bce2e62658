//! Directory paths as text, compared and taken apart component by component.
//!
//! A path is rooted when it starts with a slash. Its components are what stands between the
//! slashes; empty ones and `.` do not count, except that a `.` at the very start of a path
//! that is not rooted does.
use vstd::prelude::*;
use vstd::slice::slice_subrange;
use vstd::slice::slice_to_vec;
use crate::text;
use crate::text::{begins_with, chars_of, same, split, string_of, Class};

verus! {

/// What a path names: two texts with the same view are the same path.
#[verifier::ext_equal]
pub struct PathView {
    pub rooted: bool,
    pub names: Seq<Seq<char>>,
}

/// The name of the current directory.
pub open spec fn dot() -> Seq<char> {
    seq!['.']
}

/// The name of the parent directory.
pub open spec fn dot_dot() -> Seq<char> {
    seq!['.', '.']
}

/// The pieces that count as components wherever they stand.
pub open spec fn component_names(pieces: Seq<Seq<char>>) -> Seq<Seq<char>>
    decreases pieces.len(),
{
    if pieces.len() == 0 {
        Seq::empty()
    } else if pieces.last().len() == 0 || pieces.last() == dot() {
        component_names(pieces.drop_last())
    } else {
        component_names(pieces.drop_last()).push(pieces.last())
    }
}

/// The view of a path.
pub open spec fn path_view(p: Seq<char>) -> PathView {
    let pieces = text::split_by(p, Class::Slash);
    let names = component_names(pieces);
    PathView {
        rooted: text::begins(p, '/'),
        names: if pieces[0] == dot() {
            seq![dot()] + names
        } else {
            names
        },
    }
}

/// Whether two texts are the same path.
pub open spec fn same_path_text(a: Seq<char>, b: Seq<char>) -> bool {
    path_view(a) == path_view(b)
}

/// The components of a path.
struct Components {
    rooted: bool,
    names: Vec<Vec<char>>,
}

impl View for Components {
    type V = PathView;

    closed spec fn view(&self) -> PathView {
        PathView { rooted: self.rooted, names: text::texts(self.names@) }
    }
}

fn components(p: &[char]) -> (r: Components)
    ensures
        r@ == path_view(p@),
{
    let pieces = split(p, Class::Slash);
    let ghost all = text::texts(pieces@);
    let mut one_dot: Vec<char> = Vec::new();
    one_dot.push('.');
    assert(one_dot@ == dot());
    let mut names: Vec<Vec<char>> = Vec::new();
    for i in 0..pieces.len()
        invariant
            all == text::texts(pieces@),
            one_dot@ == dot(),
            text::texts(names@) == component_names(all.take(i as int)),
    {
        let ghost before = text::texts(names@);
        proof {
            assert(all.take(i + 1).drop_last() == all.take(i as int));
            assert(all[i as int] == pieces@[i as int]@);
        }
        if pieces[i].len() > 0 && !same(&pieces[i], &one_dot) {
            names.push(slice_to_vec(&pieces[i]));
            assert(text::texts(names@) == before.push(all[i as int]));
        }
    }
    assert(all.take(all.len() as int) == all);
    assert(all[0] == pieces@[0]@);
    if same(&pieces[0], &one_dot) {
        let ghost before = text::texts(names@);
        names.insert(0, one_dot);
        assert(text::texts(names@) == seq![dot()] + before);
    }
    Components { rooted: begins_with(p, '/'), names }
}

/// Whether two lists of texts are the same.
pub fn same_texts(a: &Vec<Vec<char>>, b: &Vec<Vec<char>>) -> (r: bool)
    ensures
        r == (text::texts(a@) == text::texts(b@)),
{
    if a.len() != b.len() {
        assert(text::texts(a@).len() != text::texts(b@).len());
        return false;
    }
    for i in 0..a.len()
        invariant
            a@.len() == b@.len(),
            forall|j: int| 0 <= j < i ==> a@[j]@ == #[trigger] b@[j]@,
    {
        if !same(&a[i], &b[i]) {
            assert(text::texts(a@)[i as int] != text::texts(b@)[i as int]);
            return false;
        }
    }
    assert(text::texts(a@) == text::texts(b@));
    true
}

fn same_components(a: &Components, b: &Components) -> (r: bool)
    ensures
        r == (a@ == b@),
{
    a.rooted == b.rooted && same_texts(&a.names, &b.names)
}

/// Whether two texts are the same path.
pub fn same_path(a: &str, b: &str) -> (r: bool)
    ensures
        r == same_path_text(a@, b@),
{
    same_components(&components(&chars_of(a)), &components(&chars_of(b)))
}

/// The shortest prefix of `p`, from length `k` on, that is the path `v`.
pub open spec fn first_prefix(p: Seq<char>, v: PathView, k: int) -> Option<Seq<char>>
    decreases p.len() + 1 - k,
{
    if k < 0 || k > p.len() {
        None
    } else if path_view(p.take(k)) == v {
        Some(p.take(k))
    } else {
        first_prefix(p, v, k + 1)
    }
}

/// The longest suffix of `p`, from position `k` on, that is the path `v`.
pub open spec fn first_suffix(p: Seq<char>, v: PathView, k: int) -> Option<Seq<char>>
    decreases p.len() + 1 - k,
{
    if k < 0 || k > p.len() {
        None
    } else if path_view(p.skip(k)) == v {
        Some(p.skip(k))
    } else {
        first_suffix(p, v, k + 1)
    }
}

fn prefix_with<'a>(p: &'a [char], v: &Components) -> (r: Option<&'a [char]>)
    ensures
        match r {
            Some(t) => first_prefix(p@, v@, 0) == Some(t@),
            None => first_prefix(p@, v@, 0) is None,
        },
{
    let n: usize = p.len();
    for k in 0..n
        invariant
            n == p@.len(),
            first_prefix(p@, v@, 0) == first_prefix(p@, v@, k as int),
    {
        let t = slice_subrange(p, 0, k);
        assert(t@ == p@.take(k as int));
        if same_components(&components(t), v) {
            return Some(t);
        }
    }
    assert(p@.take(n as int) == p@);
    if same_components(&components(p), v) {
        Some(p)
    } else {
        assert(first_prefix(p@, v@, n + 1) is None);
        None
    }
}

fn suffix_with<'a>(p: &'a [char], v: &Components) -> (r: Option<&'a [char]>)
    ensures
        match r {
            Some(t) => first_suffix(p@, v@, 0) == Some(t@),
            None => first_suffix(p@, v@, 0) is None,
        },
{
    let n: usize = p.len();
    for k in 0..n
        invariant
            n == p@.len(),
            first_suffix(p@, v@, 0) == first_suffix(p@, v@, k as int),
    {
        let t = slice_subrange(p, k, n);
        assert(t@ == p@.skip(k as int));
        if same_components(&components(t), v) {
            return Some(t);
        }
    }
    let t = slice_subrange(p, n, n);
    assert(t@ == p@.skip(n as int));
    if same_components(&components(t), v) {
        Some(t)
    } else {
        assert(first_suffix(p@, v@, n + 1) is None);
        None
    }
}

/// The path that holds `p`: the shortest prefix of the text with every component but the
/// last. A path without components has none.
pub open spec fn parent_text(p: Seq<char>) -> Option<Seq<char>> {
    let v = path_view(p);
    if v.names.len() == 0 {
        None
    } else {
        first_prefix(p, PathView { rooted: v.rooted, names: v.names.drop_last() }, 0)
    }
}

/// The path that holds `p`.
pub fn parent(p: &str) -> (r: Option<String>)
    ensures
        text::opt_text(r) == parent_text(p@),
{
    let chars = chars_of(p);
    let mut c = components(&chars);
    if c.names.len() == 0 {
        return None;
    }
    let ghost all = c@;
    let _ = c.names.pop();
    assert(text::texts(c.names@) == all.names.drop_last());
    match prefix_with(&chars, &c) {
        Some(t) => Some(string_of(t)),
        None => None,
    }
}

/// The last component of a path, where it is a name.
pub open spec fn file_name_text(p: Seq<char>) -> Option<Seq<char>> {
    let names = path_view(p).names;
    if names.len() == 0 || names.last() == dot() || names.last() == dot_dot() {
        None
    } else {
        Some(names.last())
    }
}

/// The last component of a path, where it is a name.
pub fn file_name(p: &str) -> (r: Option<String>)
    ensures
        text::opt_text(r) == file_name_text(p@),
{
    let c = components(&chars_of(p));
    if c.names.len() == 0 {
        return None;
    }
    let last = &c.names[c.names.len() - 1];
    assert(path_view(p@).names.last() == last@);
    if last.len() == 1 && last[0] == '.' {
        assert(last@ == dot());
        None
    } else if last.len() == 2 && last[0] == '.' && last[1] == '.' {
        assert(last@ == dot_dot());
        None
    } else {
        Some(string_of(last))
    }
}

/// How many components a path has, the root counted.
pub open spec fn component_count(p: Seq<char>) -> int {
    let v = path_view(p);
    v.names.len() + if v.rooted {
        1int
    } else {
        0
    }
}

/// Whether a path has more than one component, the root counted, or is rooted.
pub fn is_compound(p: &str) -> (r: bool)
    ensures
        r == (component_count(p@) > 1 || path_view(p@).rooted),
{
    let c = components(&chars_of(p));
    c.rooted || c.names.len() > 1
}

/// `p` below `base`; a rooted `p` stands for itself.
pub open spec fn joined_path(base: Seq<char>, p: Seq<char>) -> Seq<char> {
    if text::begins(p, '/') {
        p
    } else if base.len() == 0 || base.last() == '/' {
        base + p
    } else {
        base.push('/') + p
    }
}

/// `p` below `base`.
pub fn join_path(base: &str, p: &str) -> (r: String)
    ensures
        r@ == joined_path(base@, p@),
{
    let b = chars_of(base);
    if begins_with(&chars_of(p), '/') {
        return p.to_owned();
    }
    let mut out = base.to_owned();
    if b.len() > 0 && b[b.len() - 1] != '/' {
        out.push('/');
    }
    out.append(p);
    out
}

/// Whether `base` holds `p`, or is `p`.
pub open spec fn is_below(p: Seq<char>, base: Seq<char>) -> bool {
    let v = path_view(p);
    let b = path_view(base);
    if b.rooted {
        v.rooted && b.names.is_prefix_of(v.names)
    } else if b.names.len() == 0 {
        true
    } else {
        !v.rooted && b.names.is_prefix_of(v.names)
    }
}

/// What is left of `p` without `base`: the text from the first component that `base` does not
/// have to the end of the last component.
pub open spec fn below_text(p: Seq<char>, base: Seq<char>) -> Option<Seq<char>> {
    let v = path_view(p);
    let b = path_view(base);
    if !is_below(p, base) {
        None
    } else {
        let left = if !b.rooted && b.names.len() == 0 {
            v
        } else {
            PathView { rooted: false, names: v.names.skip(b.names.len() as int) }
        };
        match first_suffix(p, left, 0) {
            Some(t) => first_prefix(t, left, 0),
            None => None,
        }
    }
}

/// Whether the names of `b` are the first ones of `a`.
fn leads(a: &Vec<Vec<char>>, b: &Vec<Vec<char>>) -> (r: bool)
    ensures
        r == text::texts(b@).is_prefix_of(text::texts(a@)),
{
    if b.len() > a.len() {
        return false;
    }
    for i in 0..b.len()
        invariant
            b@.len() <= a@.len(),
            forall|j: int| 0 <= j < i ==> a@[j]@ == #[trigger] b@[j]@,
    {
        if !same(&a[i], &b[i]) {
            assert(text::texts(a@).subrange(0, b@.len() as int)[i as int] == a@[i as int]@);
            assert(text::texts(b@)[i as int] == b@[i as int]@);
            return false;
        }
    }
    assert(text::texts(b@) == text::texts(a@).subrange(0, b@.len() as int));
    true
}

/// What is left of `p` without `base`.
pub fn strip_base(p: &str, base: &str) -> (r: Option<String>)
    ensures
        text::opt_text(r) == below_text(p@, base@),
{
    let chars = chars_of(p);
    let v = components(&chars);
    let b = components(&chars_of(base));
    let none_left: bool = !b.rooted && b.names.len() == 0;
    let below: bool = if none_left {
        true
    } else {
        v.rooted == b.rooted && leads(&v.names, &b.names)
    };
    assert(below == is_below(p@, base@));
    if !below {
        return None;
    }
    let left = if none_left {
        v
    } else {
        let mut names: Vec<Vec<char>> = Vec::new();
        let n: usize = b.names.len();
        for i in n..v.names.len()
            invariant
                n == b.names@.len(),
                n <= v.names@.len(),
                names@.len() == i - n,
                forall|j: int| 0 <= j < i - n ==> #[trigger] names@[j]@ == v.names@[n + j]@,
        {
            names.push(slice_to_vec(&v.names[i]));
        }
        assert(text::texts(names@) == text::texts(v.names@).skip(n as int));
        Components { rooted: false, names }
    };
    match suffix_with(&chars, &left) {
        Some(t) => match prefix_with(t, &left) {
            Some(t) => Some(string_of(t)),
            None => None,
        },
        None => None,
    }
}

/// Whether a text is a plain name: not empty, without a slash, and neither `.` nor `..`.
pub open spec fn plain_name(s: Seq<char>) -> bool {
    s.len() > 0 && !s.contains('/') && s != seq!['.'] && s != seq!['.', '.']
}

proof fn lemma_split_push(s: Seq<char>, name: Seq<char>)
    requires
        !name.contains('/'),
    ensures
        text::split_by(s.push('/') + name, Class::Slash) == text::split_by(s, Class::Slash).push(
            name,
        ),
    decreases name.len(),
{
    let whole = s.push('/') + name;
    let parts = text::split_by(s, Class::Slash);
    if name.len() == 0 {
        assert(whole =~= s.push('/'));
        assert(whole.drop_last() =~= s);
        assert(name =~= Seq::empty());
    } else {
        let front = name.drop_last();
        assert(!front.contains('/')) by {
            assert forall|i: int| 0 <= i < front.len() implies front[i] != '/' by {
                assert(name[i] == front[i]);
                assert(name.contains(name[i]));
            }
        }
        lemma_split_push(s, front);
        assert(whole.drop_last() =~= s.push('/') + front);
        assert(name.contains(name.last()));
        assert(whole.last() == name.last());
        let before = parts.push(front);
        assert(before.drop_last() =~= parts);
        assert(front.push(name.last()) =~= name);
    }
}

proof fn lemma_view_push(base: Seq<char>, name: Seq<char>)
    requires
        base.len() > 0,
        plain_name(name),
    ensures
        path_view(base.push('/') + name).rooted == path_view(base).rooted,
        path_view(base.push('/') + name).names == path_view(base).names.push(name),
{
    let whole = base.push('/') + name;
    let parts = text::split_by(base, Class::Slash);
    lemma_split_push(base, name);
    text::lemma_split_nonempty(base, Class::Slash);
    assert(whole[0] == base[0]);
    assert(parts.push(name).drop_last() =~= parts);
    assert(dot() =~= seq!['.']);
    assert(component_names(parts.push(name)) == component_names(parts).push(name));
    assert(parts.push(name)[0] == parts[0]);
    assert(path_view(whole).names =~= path_view(base).names.push(name));
}

proof fn lemma_first_prefix(p: Seq<char>, v: PathView, k: int, at: int)
    requires
        0 <= k <= at <= p.len(),
        path_view(p.take(at)) == v,
    ensures
        first_prefix(p, v, k) is Some,
        path_view(first_prefix(p, v, k)->0) == v,
        first_prefix(p, v, k)->0.is_prefix_of(p),
    decreases at - k,
{
    if path_view(p.take(k)) != v {
        lemma_first_prefix(p, v, k + 1, at);
    } else {
        assert(p.take(k) =~= p.take(p.take(k).len() as int));
    }
}

proof fn lemma_first_prefix_sound(p: Seq<char>, v: PathView, k: int)
    requires
        0 <= k,
    ensures
        first_prefix(p, v, k) is Some ==> path_view(first_prefix(p, v, k)->0) == v
            && first_prefix(p, v, k)->0.is_prefix_of(p),
    decreases p.len() + 1 - k,
{
    if k <= p.len() {
        if path_view(p.take(k)) != v {
            lemma_first_prefix_sound(p, v, k + 1);
        } else {
            assert(p.take(k) =~= p.take(p.take(k).len() as int));
        }
    }
}

proof fn lemma_first_suffix_sound(p: Seq<char>, v: PathView, k: int)
    requires
        0 <= k,
    ensures
        first_suffix(p, v, k) is Some ==> path_view(first_suffix(p, v, k)->0) == v,
    decreases p.len() + 1 - k,
{
    if k <= p.len() && path_view(p.skip(k)) != v {
        lemma_first_suffix_sound(p, v, k + 1);
    }
}

/// A name joined to a path is below it: the name is its last one, what is before the name is its
/// parent, and the path is as it was.
pub proof fn joining_adds_a_name(base: Seq<char>, name: Seq<char>)
    requires
        base.len() > 0,
        base.last() != '/',
        plain_name(name),
    ensures
        joined_path(base, name) == base + seq!['/'] + name,
        file_name_text(joined_path(base, name)) == Some(name),
        parent_text(joined_path(base, name)) is Some,
        same_path_text(parent_text(joined_path(base, name))->0, base),
        parent_text(joined_path(base, name))->0.is_prefix_of(joined_path(base, name)),
        is_below(joined_path(base, name), base),
        !same_path_text(joined_path(base, name), base),
{
    let whole = joined_path(base, name);
    assert(name.contains(name[0]));
    assert(base.push('/') + name =~= base + seq!['/'] + name);
    lemma_view_push(base, name);
    let v = path_view(whole);
    assert(dot() =~= seq!['.']);
    assert(dot_dot() =~= seq!['.', '.']);
    assert(v.names.drop_last() =~= path_view(base).names);
    assert(whole.take(base.len() as int) =~= base);
    lemma_first_prefix(
        whole,
        PathView { rooted: v.rooted, names: v.names.drop_last() },
        0,
        base.len() as int,
    );
    assert(path_view(base).names =~= v.names.take(path_view(base).names.len() as int));
    assert(v.names.len() != path_view(base).names.len());
}

/// A path that starts with a slash stays as it is when it is joined to another one; joining to nothing,
/// or behind a slash, adds no slash.
pub proof fn joining_a_rooted_path(base: Seq<char>, p: Seq<char>)
    ensures
        p.len() > 0 && p[0] == '/' ==> joined_path(base, p) == p,
        (p.len() == 0 || p[0] != '/') && (base.len() == 0 || base.last() == '/') ==> joined_path(
            base,
            p,
        ) == base + p,
{
}

/// A parent has all names of the path but the last, and is what the path starts with; a path without
/// names has none.
pub proof fn parents_lack_the_last_name(p: Seq<char>)
    ensures
        path_view(p).names.len() == 0 ==> parent_text(p) is None,
        parent_text(p) is Some ==> {
            let t = parent_text(p)->0;
            &&& t.is_prefix_of(p)
            &&& path_view(t).rooted == path_view(p).rooted
            &&& path_view(t).names == path_view(p).names.drop_last()
        },
{
    let v = path_view(p);
    if v.names.len() > 0 {
        lemma_first_prefix_sound(p, PathView { rooted: v.rooted, names: v.names.drop_last() }, 0);
    }
}

/// What is left of a path below another one has the names that come behind those of the other one; a
/// path is below another one of its own kind where it starts with its names.
pub proof fn the_rest_has_the_other_names(p: Seq<char>, base: Seq<char>)
    requires
        base.len() > 0,
        base[0] == '/',
    ensures
        is_below(p, base) <==> p.len() > 0 && p[0] == '/' && path_view(base).names.is_prefix_of(
            path_view(p).names,
        ),
        below_text(p, base) is Some ==> is_below(p, base) && !path_view(
            below_text(p, base)->0,
        ).rooted && path_view(below_text(p, base)->0).names == path_view(p).names.skip(
            path_view(base).names.len() as int,
        ),
        is_below(base, base),
{
    let v = path_view(p);
    let b = path_view(base);
    let left = PathView { rooted: false, names: v.names.skip(b.names.len() as int) };
    lemma_first_suffix_sound(p, left, 0);
    match first_suffix(p, left, 0) {
        Some(t) => {
            lemma_first_prefix_sound(t, left, 0);
        },
        None => {},
    }
    assert(b.names =~= b.names.take(b.names.len() as int));
}

/// Two texts are the same path where they agree but for slashes at the end; a different last name
/// makes a different path.
pub proof fn trailing_slashes_make_no_difference(
    base: Seq<char>,
    one: Seq<char>,
    other: Seq<char>,
)
    requires
        base.len() > 0,
        plain_name(one),
        plain_name(other),
    ensures
        same_path_text(base.push('/'), base),
        same_path_text(base.push('/') + one, base.push('/') + other) <==> one == other,
{
    lemma_view_push(base, one);
    lemma_view_push(base, other);
    let names = path_view(base).names;
    assert(names.push(one).last() == one && names.push(other).last() == other);
    let parts = text::split_by(base, Class::Slash);
    let none = Seq::<char>::empty();
    lemma_split_push(base, none);
    text::lemma_split_nonempty(base, Class::Slash);
    assert(base.push('/') + none =~= base.push('/'));
    assert(parts.push(none).drop_last() =~= parts);
    assert(parts.push(none)[0] == parts[0]);
    assert(component_names(parts.push(none)) == component_names(parts));
    assert(path_view(base.push('/')) == path_view(base));
}

/// The names of a path are what stands between its slashes, without the empty ones and without `.`
/// but at the start; a path is rooted where it starts with a slash.
pub proof fn names_stand_between_slashes(p: Seq<char>, name: Seq<char>)
    requires
        plain_name(name),
    ensures
        path_view(seq!['/'] + name) == (PathView { rooted: true, names: seq![name] }),
        name[0] != '/',
        path_view(name) == (PathView { rooted: false, names: seq![name] }),
        path_view(p).rooted <==> p.len() > 0 && p[0] == '/',
{
    assert(name.contains(name[0]));
    let none = Seq::<char>::empty();
    lemma_split_push(none, name);
    assert(none.push('/') + name =~= seq!['/'] + name);
    assert(dot() =~= seq!['.']);
    let one = seq![none];
    assert(text::split_by(none, Class::Slash) =~= one);
    assert(one.push(name).drop_last() =~= one);
    assert(one.drop_last() =~= Seq::<Seq<char>>::empty());
    reveal_with_fuel(component_names, 3);
    assert(component_names(one) =~= Seq::<Seq<char>>::empty());
    assert(component_names(one.push(name)) =~= seq![name]);
    assert(one.push(name)[0] == none);
    assert(none != dot()) by {
        assert(none.len() == 0 && dot().len() == 1);
    }
    lemma_split_whole(name);
    assert(seq![name].drop_last() =~= Seq::<Seq<char>>::empty());
    assert(component_names(seq![name]) =~= seq![name]);
}

proof fn lemma_split_whole(name: Seq<char>)
    requires
        !name.contains('/'),
    ensures
        text::split_by(name, Class::Slash) == seq![name],
    decreases name.len(),
{
    if name.len() == 0 {
        assert(name =~= Seq::empty());
    } else {
        let front = name.drop_last();
        assert(!front.contains('/')) by {
            assert forall|i: int| 0 <= i < front.len() implies front[i] != '/' by {
                assert(name[i] == front[i]);
                assert(name.contains(name[i]));
            }
        }
        lemma_split_whole(front);
        assert(name.contains(name.last()));
        assert(seq![front].drop_last() =~= Seq::<Seq<char>>::empty());
        assert(seq![front].last() == front);
        assert(front.push(name.last()) =~= name);
        assert(Seq::<Seq<char>>::empty().push(name) =~= seq![name]);
    }
}

/// A dot behind a slash makes no difference to a path, two dots do.
pub proof fn dots_make_no_difference(base: Seq<char>)
    requires
        base.len() > 0,
    ensures
        same_path_text(base.push('/').push('.'), base),
        !same_path_text(base.push('/').push('.').push('.'), base),
{
    let one = seq!['.'];
    let two = seq!['.', '.'];
    let parts = text::split_by(base, Class::Slash);
    text::lemma_split_nonempty(base, Class::Slash);
    assert(dot() =~= one);
    lemma_split_push(base, one);
    lemma_split_push(base, two);
    assert(base.push('/') + one =~= base.push('/').push('.'));
    assert(base.push('/') + two =~= base.push('/').push('.').push('.'));
    assert(parts.push(one).drop_last() =~= parts);
    assert(parts.push(two).drop_last() =~= parts);
    assert(parts.push(one)[0] == parts[0]);
    assert(parts.push(two)[0] == parts[0]);
    assert(two != one) by {
        assert(two.len() == 2 && one.len() == 1);
    }
    assert(component_names(parts.push(one)) == component_names(parts));
    assert(component_names(parts.push(two)) == component_names(parts).push(two));
    assert(path_view(base.push('/').push('.')) == path_view(base));
    assert(path_view(base.push('/').push('.').push('.')).names.len() == path_view(base).names.len()
        + 1);
}

/// A path that starts with a slash is not below one that does not and has a name, and the other way
/// round.
pub proof fn rooted_and_relative_paths_stay_apart(p: Seq<char>, base: Seq<char>)
    requires
        path_view(base).names.len() > 0,
        path_view(p).rooted != path_view(base).rooted,
    ensures
        !is_below(p, base),
        below_text(p, base) is None,
{
}

} // verus!
