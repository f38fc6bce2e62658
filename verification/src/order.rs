//! The order of texts by their characters, and a stable sort by it.
use vstd::prelude::*;
use crate::text;
use crate::text::chars_of;

verus! {

/// Whether `a` does not come after `b`.
pub open spec fn text_le(a: Seq<char>, b: Seq<char>) -> bool
    decreases a.len(),
{
    if a.len() == 0 {
        true
    } else if b.len() == 0 {
        false
    } else if a[0] == b[0] {
        text_le(a.drop_first(), b.drop_first())
    } else {
        a[0] < b[0]
    }
}

/// Of two texts one does not come after the other.
pub proof fn text_order_total(a: Seq<char>, b: Seq<char>)
    ensures
        text_le(a, b) || text_le(b, a),
    decreases a.len(),
{
    if a.len() > 0 && b.len() > 0 && a[0] == b[0] {
        text_order_total(a.drop_first(), b.drop_first());
    }
}

/// The order is transitive.
pub proof fn text_order_transitive(a: Seq<char>, b: Seq<char>, c: Seq<char>)
    requires
        text_le(a, b),
        text_le(b, c),
    ensures
        text_le(a, c),
    decreases a.len(),
{
    if a.len() > 0 && b.len() > 0 && c.len() > 0 && a[0] == b[0] && b[0] == c[0] {
        text_order_transitive(a.drop_first(), b.drop_first(), c.drop_first());
    }
}

/// Two texts that do not come after one another are equal.
pub proof fn text_order_antisymmetric(a: Seq<char>, b: Seq<char>)
    requires
        text_le(a, b),
        text_le(b, a),
    ensures
        a == b,
    decreases a.len(),
{
    if a.len() > 0 && b.len() > 0 {
        text_order_antisymmetric(a.drop_first(), b.drop_first());
        assert(a == seq![a[0]] + a.drop_first());
        assert(b == seq![b[0]] + b.drop_first());
    } else {
        assert(a == b);
    }
}

/// Whether `a` does not come after `b`.
pub fn in_order(a: &str, b: &str) -> (r: bool)
    ensures
        r == text_le(a@, b@),
{
    let x = chars_of(a);
    let y = chars_of(b);
    let mut i: usize = 0;
    assert(x@.skip(0) == x@);
    assert(y@.skip(0) == y@);
    while i < x.len()
        invariant
            i <= x@.len(),
            i <= y@.len(),
            text_le(a@, b@) == text_le(x@.skip(i as int), y@.skip(i as int)),
        decreases x@.len() - i,
    {
        let ghost p = x@.skip(i as int);
        let ghost q = y@.skip(i as int);
        if i >= y.len() {
            return false;
        }
        assert(p[0] == x@[i as int] && q[0] == y@[i as int]);
        if x[i] != y[i] {
            return x[i] < y[i];
        }
        assert(p.drop_first() == x@.skip(i + 1));
        assert(q.drop_first() == y@.skip(i + 1));
        i += 1;
    }
    true
}

/// The number of leading keys that do not come after `key`.
pub open spec fn rank(keys: Seq<Seq<char>>, key: Seq<char>) -> int
    decreases keys.len(),
{
    if keys.len() == 0 {
        0
    } else if text_le(keys.last(), key) {
        keys.len() as int
    } else {
        rank(keys.drop_last(), key)
    }
}

/// Where `key` goes among the keys.
pub proof fn lemma_rank(keys: Seq<Seq<char>>, key: Seq<char>)
    ensures
        0 <= rank(keys, key) <= keys.len(),
        forall|i: int| rank(keys, key) <= i < keys.len() ==> !text_le(#[trigger] keys[i], key),
        rank(keys, key) > 0 ==> text_le(keys[rank(keys, key) - 1], key),
    decreases keys.len(),
{
    if keys.len() > 0 && !text_le(keys.last(), key) {
        lemma_rank(keys.drop_last(), key);
        let n = rank(keys, key);
        assert forall|i: int| n <= i < keys.len() implies !text_le(#[trigger] keys[i], key) by {
            if i < keys.len() - 1 {
                assert(keys[i] == keys.drop_last()[i]);
            }
        }
        if n > 0 {
            assert(keys[n - 1] == keys.drop_last()[n - 1]);
        }
    }
}

/// Keys in order.
pub open spec fn ordered(keys: Seq<Seq<char>>) -> bool {
    forall|i: int, j: int| 0 <= i <= j < keys.len() ==> text_le(#[trigger] keys[i], #[trigger] keys[j])
}

/// A key put at its rank keeps the keys in order.
pub proof fn lemma_rank_keeps_order(keys: Seq<Seq<char>>, key: Seq<char>)
    requires
        ordered(keys),
    ensures
        ordered(keys.insert(rank(keys, key), key)),
{
    lemma_rank(keys, key);
    let n = rank(keys, key);
    let out = keys.insert(n, key);
    assert forall|i: int, j: int| 0 <= i <= j < out.len() implies text_le(
        #[trigger] out[i],
        #[trigger] out[j],
    ) by {
        text_order_total(key, key);
        if i < n && j == n {
            text_order_transitive(keys[i], keys[n - 1], key);
        } else if i == n && j > n {
            text_order_total(key, keys[j - 1]);
        } else if i < n && j < n {
            assert(text_le(keys[i], keys[j]));
        } else if i < n && j > n {
            assert(text_le(keys[i], keys[j - 1]));
        } else if i > n {
            assert(text_le(keys[i - 1], keys[j - 1]));
        }
    }
}

/// The texts in order; equal ones stay as they were.
pub open spec fn sorted_texts(v: Seq<Seq<char>>) -> Seq<Seq<char>>
    decreases v.len(),
{
    if v.len() == 0 {
        Seq::empty()
    } else {
        let front = sorted_texts(v.drop_last());
        front.insert(rank(front, v.last()), v.last())
    }
}

/// Sorted texts are the same texts, in order.
pub proof fn sorting_orders_texts(v: Seq<Seq<char>>)
    ensures
        ordered(sorted_texts(v)),
        sorted_texts(v).to_multiset() == v.to_multiset(),
        sorted_texts(v).len() == v.len(),
    decreases v.len(),
{
    if v.len() > 0 {
        let front = sorted_texts(v.drop_last());
        sorting_orders_texts(v.drop_last());
        lemma_rank(front, v.last());
        lemma_rank_keeps_order(front, v.last());
        vstd::seq_lib::to_multiset_insert(front, rank(front, v.last()), v.last());
        assert(v == v.drop_last().push(v.last()));
        vstd::seq_lib::to_multiset_build(v.drop_last(), v.last());
    } else {
        assert(sorted_texts(v) == v);
    }
}

fn place(v: &Vec<String>, key: &str) -> (n: usize)
    ensures
        n <= v@.len(),
        n == rank(text::strings(v@), key@),
{
    let ghost keys = text::strings(v@);
    let mut n: usize = v.len();
    assert(keys.take(n as int) == keys);
    while n > 0
        invariant
            n <= v@.len(),
            keys == text::strings(v@),
            rank(keys, key@) == rank(keys.take(n as int), key@),
        decreases n,
    {
        assert(keys.take(n as int).last() == keys[n - 1]);
        if in_order(v[n - 1].as_str(), key) {
            return n;
        }
        assert(keys.take(n as int).drop_last() == keys.take(n - 1));
        n -= 1;
    }
    0
}

/// The texts in order.
pub fn sort_texts(v: &Vec<String>) -> (r: Vec<String>)
    ensures
        text::strings(r@) == sorted_texts(text::strings(v@)),
{
    let ghost all = text::strings(v@);
    let mut out: Vec<String> = Vec::new();
    for i in 0..v.len()
        invariant
            all == text::strings(v@),
            text::strings(out@) == sorted_texts(all.take(i as int)),
    {
        assert(all.take(i + 1).drop_last() == all.take(i as int));
        let ghost before = text::strings(out@);
        let n: usize = place(&out, v[i].as_str());
        out.insert(n, v[i].clone());
        assert(text::strings(out@) == before.insert(n as int, all[i as int]));
    }
    assert(all.take(all.len() as int) == all);
    out
}

/// Texts are ordered by their first different character, and a text comes before what it starts.
pub proof fn the_first_difference_decides(
    same: Seq<char>,
    x: char,
    y: char,
    a: Seq<char>,
    b: Seq<char>,
)
    ensures
        text_le(same, same + a),
        a.len() > 0 ==> !text_le(same + a, same),
        x < y ==> text_le(same + seq![x] + a, same + seq![y] + b),
        x < y ==> !text_le(same + seq![y] + b, same + seq![x] + a),
    decreases same.len(),
{
    if same.len() == 0 {
        assert(same + a =~= a);
        assert(same + seq![x] + a =~= seq![x] + a);
        assert(same + seq![y] + b =~= seq![y] + b);
    } else {
        let tail = same.drop_first();
        the_first_difference_decides(tail, x, y, a, b);
        assert((same + a).drop_first() =~= tail + a);
        assert((same + seq![x] + a).drop_first() =~= tail + seq![x] + a);
        assert((same + seq![y] + b).drop_first() =~= tail + seq![y] + b);
    }
}

} // verus!
