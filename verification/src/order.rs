//! Facts about the sibling order and about sorting by it.

use crate::model::{distinct_paths, slot, sort_nodes, sorted, sorts_before, NodeView};
use crate::path::{
    lemma_lex_connected, lemma_lex_irreflexive, lemma_lex_transitive, lex_lt, name_of,
};
use vstd::prelude::*;
use vstd::seq_lib::{to_multiset_build, to_multiset_contains, to_multiset_insert};

verus! {

/// Of two siblings at most one sorts before the other.
pub proof fn lemma_before_asymmetric(a: NodeView, b: NodeView)
    requires
        sorts_before(a, b),
    ensures
        !sorts_before(b, a),
{
    if a.is_dir == b.is_dir {
        let x = name_of(a.path);
        let y = name_of(b.path);
        if lex_lt(y, x) {
            lemma_lex_transitive(x, y, x, 0);
            lemma_lex_irreflexive(x, 0);
        }
    }
}

/// The sibling order is transitive.
pub proof fn lemma_before_transitive(a: NodeView, b: NodeView, c: NodeView)
    requires
        sorts_before(a, b),
        sorts_before(b, c),
    ensures
        sorts_before(a, c),
{
    if a.is_dir == b.is_dir && b.is_dir == c.is_dir {
        lemma_lex_transitive(name_of(a.path), name_of(b.path), name_of(c.path), 0);
    }
}

/// Two siblings of which neither sorts before the other are of one kind and
/// bear one name.
pub proof fn lemma_before_connected(a: NodeView, b: NodeView)
    requires
        !sorts_before(a, b),
        !sorts_before(b, a),
    ensures
        a.is_dir == b.is_dir,
        name_of(a.path) == name_of(b.path),
{
    let x = name_of(a.path);
    let y = name_of(b.path);
    assert(x.take(0) =~= y.take(0));
    lemma_lex_connected(x, y, 0);
}

/// What sorts before neither of two neighbours in a chain sorts before none.
pub proof fn lemma_not_before_transitive(a: NodeView, b: NodeView, c: NodeView)
    requires
        !sorts_before(a, b),
        !sorts_before(b, c),
    ensures
        !sorts_before(a, c),
{
    if sorts_before(a, c) {
        if sorts_before(b, a) {
            lemma_before_transitive(b, a, c);
        } else {
            lemma_before_connected(a, b);
        }
    }
}

/// The slot of `x` lies inside `s`; `x` sorts before all that stands from the
/// slot on, and not before what stands just ahead of it.
pub proof fn lemma_slot(s: Seq<NodeView>, x: NodeView)
    ensures
        0 <= slot(s, x) <= s.len(),
        forall|j: int| slot(s, x) <= j < s.len() ==> sorts_before(x, #[trigger] s[j]),
        slot(s, x) > 0 ==> !sorts_before(x, s[slot(s, x) - 1]),
    decreases s.len(),
{
    if s.len() == 0 || !sorts_before(x, s.last()) {
    } else {
        let front = s.drop_last();
        lemma_slot(front, x);
        assert forall|j: int| slot(s, x) <= j < s.len() implies sorts_before(
            x,
            #[trigger] s[j],
        ) by {
            if j < front.len() {
                assert(front[j] == s[j]);
            }
        }
    }
}

/// Putting `x` into its slot among ordered siblings leaves them ordered.
pub proof fn lemma_insert_sorted(s: Seq<NodeView>, x: NodeView)
    requires
        sorted(s),
    ensures
        sorted(s.insert(slot(s, x), x)),
{
    lemma_slot(s, x);
    let k = slot(s, x);
    let r = s.insert(k, x);
    s.insert_ensures(k, x);
    assert forall|i: int, j: int| 0 <= i < j < r.len() implies !sorts_before(r[j], r[i]) by {
        if j == k {
            // r[j] is x, r[i] stands ahead of the slot
            assert(r[i] == s[i]);
            if i < k - 1 {
                lemma_not_before_transitive(x, s[k - 1], s[i]);
            }
        } else if i == k {
            assert(r[j] == s[j - 1]);
            lemma_before_asymmetric(x, s[j - 1]);
        } else {
            let si = if i < k { i } else { i - 1 };
            let sj = if j < k { j } else { j - 1 };
            assert(r[i] == s[si]);
            assert(r[j] == s[sj]);
        }
    }
}

/// Sorting keeps every sibling, each as often as it stood there, and leaves
/// them in sibling order.
pub proof fn lemma_sort_nodes(s: Seq<NodeView>)
    ensures
        sort_nodes(s).len() == s.len(),
        sorted(sort_nodes(s)),
        sort_nodes(s).to_multiset() == s.to_multiset(),
        forall|x: NodeView| sort_nodes(s).contains(x) <==> s.contains(x),
    decreases s.len(),
{
    if s.len() == 0 {
    } else {
        let rest = s.drop_last();
        let front = sort_nodes(rest);
        lemma_sort_nodes(rest);
        lemma_slot(front, s.last());
        lemma_insert_sorted(front, s.last());
        to_multiset_insert(front, slot(front, s.last()), s.last());
        assert(s =~= rest.push(s.last()));
        to_multiset_build(rest, s.last());
    }
    assert forall|x: NodeView| sort_nodes(s).contains(x) <==> s.contains(x) by {
        to_multiset_contains(sort_nodes(s), x);
        to_multiset_contains(s, x);
    }
}

/// Sorting siblings of distinct paths leaves their paths distinct.
pub proof fn lemma_sort_nodes_distinct(s: Seq<NodeView>)
    requires
        distinct_paths(s),
    ensures
        distinct_paths(sort_nodes(s)),
    decreases s.len(),
{
    if s.len() > 0 {
        let rest = s.drop_last();
        let x = s.last();
        let front = sort_nodes(rest);
        assert(distinct_paths(rest)) by {
            assert forall|i: int, j: int| 0 <= i < j < rest.len() implies rest[i].path
                != rest[j].path by {
                assert(rest[i] == s[i] && rest[j] == s[j]);
            }
        }
        lemma_sort_nodes_distinct(rest);
        lemma_sort_nodes(rest);
        lemma_slot(front, x);
        let k = slot(front, x);
        let r = front.insert(k, x);
        front.insert_ensures(k, x);
        assert forall|i: int| 0 <= i < front.len() implies front[i].path != x.path by {
            assert(front.contains(front[i]));
            assert(rest.contains(front[i]));
            let m = choose|m: int| 0 <= m < rest.len() && rest[m] == front[i];
            assert(s[m] == rest[m]);
        }
        assert forall|i: int, j: int| 0 <= i < j < r.len() implies r[i].path != r[j].path by {
            let fi = if i < k { i } else { i - 1 };
            let fj = if j < k { j } else { j - 1 };
            if i == k {
                assert(r[j] == front[fj]);
            } else if j == k {
                assert(r[i] == front[fi]);
            } else {
                assert(r[i] == front[fi]);
                assert(r[j] == front[fj]);
            }
        }
    }
}

/// Siblings that stand in order are left as they are.
pub proof fn lemma_sort_nodes_of_sorted(s: Seq<NodeView>)
    requires
        sorted(s),
    ensures
        sort_nodes(s) == s,
    decreases s.len(),
{
    if s.len() > 0 {
        let rest = s.drop_last();
        assert(sorted(rest)) by {
            assert forall|i: int, j: int| 0 <= i < j < rest.len() implies !sorts_before(
                rest[j],
                rest[i],
            ) by {
                assert(rest[i] == s[i] && rest[j] == s[j]);
            }
        }
        lemma_sort_nodes_of_sorted(rest);
        lemma_slot(rest, s.last());
        let k = slot(rest, s.last());
        if k < rest.len() {
            assert(sorts_before(s.last(), rest[k]));
            assert(rest[k] == s[k]);
        }
        assert(rest.insert(k, s.last()) =~= s);
    }
}

} // verus!
