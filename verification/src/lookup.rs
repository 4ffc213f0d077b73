//! Facts about the search for a node by its path, and about setting the
//! expansion of the node found.

use crate::model::{
    distinct_paths, expanded_at, leads, locate, locate_in, node_at, sorted, sorts_before,
    toggled, wf, with_expanded, NodeView,
};
use crate::path::{
    is_path_prefix, join, lemma_join_prefix, lemma_name_of_join, lemma_prefix_of_join, name_of,
    valid_name,
};
use crate::rows::visible;
use vstd::prelude::*;

verus! {

/// What well-formedness says of one child.
pub proof fn lemma_wf_child(n: NodeView, i: int)
    requires
        wf(n),
        0 <= i < n.children.len(),
    ensures
        valid_name(name_of(n.children[i].path)),
        n.children[i].path == join(n.path, name_of(n.children[i].path)),
        wf(n.children[i]),
        distinct_paths(n.children),
        sorted(n.children),
{
    let path = n.children[i].path;
}

/// A way through expanded nodes is a way.
pub proof fn lemma_visible_leads(n: NodeView, trail: Seq<int>)
    requires
        visible(n, trail),
    ensures
        leads(n, trail),
    decreases trail.len(),
{
    if trail.len() > 0 {
        lemma_visible_leads(n.children[trail[0]], trail.drop_first());
    }
}

/// In a well-formed node, the path of whatever stands below lies under the
/// path of the child that leads to it, and is longer than the node's own.
pub proof fn lemma_descendant_path(n: NodeView, trail: Seq<int>)
    requires
        wf(n),
        leads(n, trail),
        trail.len() > 0,
    ensures
        is_path_prefix(n.children[trail[0]].path, node_at(n, trail).path),
        node_at(n, trail).path.len() > n.path.len(),
        wf(node_at(n, trail)),
    decreases trail.len(),
{
    reveal_with_fuel(leads, 2);
    reveal_with_fuel(node_at, 2);
    let child = n.children[trail[0]];
    let sub = trail.drop_first();
    let target = node_at(n, trail).path;
    lemma_wf_child(n, trail[0]);
    lemma_name_of_join(n.path, name_of(child.path));
    if sub.len() == 0 {
        assert(child.path.take(child.path.len() as int) =~= child.path);
    } else {
        lemma_descendant_path(child, sub);
        let next = child.children[sub[0]];
        lemma_wf_child(child, sub[0]);
        lemma_prefix_of_join(child.path, name_of(next.path), target);
    }
}

/// The search passes over siblings under whose paths the target does not lie.
pub proof fn lemma_locate_in_skips(s: Seq<NodeView>, target: Seq<char>, from: int, to: int)
    requires
        0 <= from <= to <= s.len(),
        forall|i: int| from <= i < to ==> !is_path_prefix(#[trigger] s[i].path, target),
    ensures
        locate_in(s, target, from) == locate_in(s, target, to),
    decreases to - from,
{
    if from < to {
        lemma_locate_in_skips(s, target, from + 1, to);
    }
}

/// In a well-formed node, the search for the path of a node that stands in it
/// finds that node, by the way that leads to it.
pub proof fn lemma_locate_trail(n: NodeView, trail: Seq<int>)
    requires
        wf(n),
        leads(n, trail),
    ensures
        locate(n, node_at(n, trail).path) == Some(trail),
    decreases trail.len(),
{
    if trail.len() == 0 {
        assert(trail =~= Seq::<int>::empty());
    } else {
        let j = trail[0];
        let child = n.children[j];
        let sub = trail.drop_first();
        let target = node_at(n, trail).path;
        let name = name_of(child.path);
        lemma_wf_child(n, j);
        lemma_descendant_path(n, trail);
        lemma_locate_trail(child, sub);
        lemma_join_prefix(n.path, name, target);
        assert forall|i: int| 0 <= i < j implies !is_path_prefix(
            #[trigger] n.children[i].path,
            target,
        ) by {
            let other = name_of(n.children[i].path);
            lemma_wf_child(n, i);
            assert(n.children[i].path == join(n.path, other));
            assert(n.children[i].path != child.path);
        }
        lemma_locate_in_skips(n.children, target, 0, j);
        assert(seq![j] + sub =~= trail);
    }
}

/// Setting an expansion keeps every path and every kind, and the node whose
/// expansion is set is where it was.
pub proof fn lemma_with_expanded_keeps(n: NodeView, trail: Seq<int>, value: bool)
    requires
        leads(n, trail),
    ensures
        with_expanded(n, trail, value).path == n.path,
        with_expanded(n, trail, value).is_dir == n.is_dir,
        with_expanded(n, trail, value).children.len() == n.children.len(),
        leads(with_expanded(n, trail, value), trail),
        node_at(with_expanded(n, trail, value), trail) == (NodeView {
            expanded: value,
            ..node_at(n, trail)
        }),
    decreases trail.len(),
{
    if trail.len() > 0 {
        lemma_with_expanded_keeps(n.children[trail[0]], trail.drop_first(), value);
    }
}

/// Setting an expansion leaves a well-formed node well-formed.
pub proof fn lemma_with_expanded_wf(n: NodeView, trail: Seq<int>, value: bool)
    requires
        wf(n),
        leads(n, trail),
    ensures
        wf(with_expanded(n, trail, value)),
    decreases trail.len(),
{
    let made = with_expanded(n, trail, value);
    if trail.len() > 0 {
        let j = trail[0];
        lemma_wf_child(n, j);
        lemma_with_expanded_wf(n.children[j], trail.drop_first(), value);
        lemma_with_expanded_keeps(n.children[j], trail.drop_first(), value);
        assert forall|i: int| 0 <= i < made.children.len() implies {
            &&& valid_name(name_of(#[trigger] made.children[i].path))
            &&& made.children[i].path == join(made.path, name_of(made.children[i].path))
            &&& wf(made.children[i])
        } by {
            lemma_wf_child(n, i);
            assert(made.children[i].path == n.children[i].path);
            if i != j {
                assert(made.children[i] == n.children[i]);
            }
        }
        assert forall|a: int, b: int| 0 <= a < b < made.children.len() implies made.children[a].path
            != made.children[b].path && !sorts_before(made.children[b], made.children[a]) by {
            assert(made.children[a].path == n.children[a].path);
            assert(made.children[b].path == n.children[b].path);
            assert(made.children[a].is_dir == n.children[a].is_dir);
            assert(made.children[b].is_dir == n.children[b].is_dir);
            assert(!sorts_before(n.children[b], n.children[a]));
        }
    } else {
        assert(made.children == n.children);
    }
}

/// The search among siblings goes by their paths and by what the search finds
/// in each.
pub proof fn lemma_locate_in_same(
    a: Seq<NodeView>,
    b: Seq<NodeView>,
    target: Seq<char>,
    from: int,
)
    requires
        a.len() == b.len(),
        0 <= from,
        forall|i: int|
            0 <= i < a.len() ==> (#[trigger] a[i]).path == b[i].path && locate(a[i], target)
                == locate(b[i], target),
    ensures
        locate_in(a, target, from) == locate_in(b, target, from),
    decreases a.len() - from,
{
    if from < a.len() {
        assert(a[from].path == b[from].path);
        lemma_locate_in_same(a, b, target, from + 1);
    }
}

/// Setting an expansion does not change what the search finds.
pub proof fn lemma_with_expanded_locate(
    n: NodeView,
    trail: Seq<int>,
    value: bool,
    target: Seq<char>,
)
    requires
        leads(n, trail),
    ensures
        locate(with_expanded(n, trail, value), target) == locate(n, target),
    decreases trail.len(),
{
    if trail.len() > 0 {
        let j = trail[0];
        let made = with_expanded(n, trail, value);
        lemma_with_expanded_locate(n.children[j], trail.drop_first(), value, target);
        lemma_with_expanded_keeps(n.children[j], trail.drop_first(), value);
        assert forall|i: int| 0 <= i < made.children.len() implies (
        #[trigger] made.children[i]).path == n.children[i].path && locate(
            made.children[i],
            target,
        ) == locate(n.children[i], target) by {
            if i != j {
                assert(made.children[i] == n.children[i]);
            }
        }
        lemma_locate_in_same(made.children, n.children, target, 0);
    }
}

/// Of two expansions set one after the other at one node, the second stands;
/// and setting the expansion that a node has leaves all as it is.
pub proof fn lemma_with_expanded_twice(n: NodeView, trail: Seq<int>, first: bool, second: bool)
    requires
        leads(n, trail),
    ensures
        with_expanded(with_expanded(n, trail, first), trail, second) == with_expanded(
            n,
            trail,
            second,
        ),
        with_expanded(n, trail, node_at(n, trail).expanded) == n,
    decreases trail.len(),
{
    if trail.len() > 0 {
        let j = trail[0];
        let sub = trail.drop_first();
        lemma_with_expanded_twice(n.children[j], sub, first, second);
        let once = with_expanded(n, trail, first);
        assert(with_expanded(once, trail, second).children =~= with_expanded(
            n,
            trail,
            second,
        ).children);
        assert(with_expanded(n, trail, node_at(n, trail).expanded).children =~= n.children);
    }
}

/// What the search finds is a node of the tree that bears the path searched.
pub proof fn lemma_locate_leads(n: NodeView, target: Seq<char>)
    requires
        locate(n, target) is Some,
    ensures
        leads(n, locate(n, target)->0),
        node_at(n, locate(n, target)->0).path == target,
    decreases n, 0nat,
{
    if n.path != target {
        lemma_locate_in_leads(n.children, target, 0);
        let trail = locate(n, target)->0;
        let j = trail[0];
        assert(trail.drop_first() =~= locate(n.children[j], target)->0);
    }
}

/// The same of the search among siblings: it names the sibling into which it
/// went, and what it found there.
pub proof fn lemma_locate_in_leads(s: Seq<NodeView>, target: Seq<char>, from: int)
    requires
        0 <= from,
        locate_in(s, target, from) is Some,
    ensures
        ({
            let trail = locate_in(s, target, from)->0;
            &&& trail.len() > 0
            &&& from <= trail[0] < s.len()
            &&& locate(s[trail[0]], target) == Some(trail.drop_first())
            &&& leads(s[trail[0]], trail.drop_first())
            &&& node_at(s[trail[0]], trail.drop_first()).path == target
        }),
    decreases s, s.len() - from,
{
    if is_path_prefix(s[from].path, target) && locate(s[from], target) is Some {
        let sub = locate(s[from], target)->0;
        lemma_locate_leads(s[from], target);
        assert((seq![from] + sub).drop_first() =~= sub);
    } else {
        lemma_locate_in_leads(s, target, from + 1);
    }
}

/// Setting or flipping the expansion of the node that bears a path leaves a
/// well-formed tree well-formed.
pub proof fn lemma_expansion_wf(n: NodeView, target: Seq<char>, value: bool)
    requires
        wf(n),
    ensures
        wf(expanded_at(n, target, value)),
        wf(toggled(n, target)),
{
    if locate(n, target) is Some {
        let trail = locate(n, target)->0;
        lemma_locate_leads(n, target);
        lemma_with_expanded_wf(n, trail, value);
        lemma_with_expanded_wf(n, trail, !node_at(n, trail).expanded);
    }
}

} // verus!
