//! What a tree holds: the nodes that sequences of names lead to, and which of
//! them are files.

use crate::insertion::{lemma_inserted_keeps, lemma_inserted_wf};
use crate::lookup::{lemma_with_expanded_keeps, lemma_wf_child};
use crate::model::{
    child_index, distinct_paths, fresh, inserted, leads, lemma_child_index, populated,
    relative_segments, sort_nodes, sorted, sorts_before, wf, with_expanded, NodeView,
};
use crate::order::{
    lemma_before_connected, lemma_sort_nodes, lemma_sort_nodes_distinct,
    lemma_sort_nodes_of_sorted,
};
use crate::path::{
    join, lemma_join_injective, lemma_segments_names, name_of, segments, valid_name,
};
use vstd::prelude::*;

verus! {

/// The node that the names `names` lead to from `n`, each name picking the
/// child whose path is the path so far joined with it.
pub open spec fn node_by_names(n: NodeView, names: Seq<Seq<char>>) -> Option<NodeView>
    decreases names.len(),
{
    if names.len() == 0 {
        Some(n)
    } else {
        let k = child_index(n.children, join(n.path, names[0]));
        if k < 0 {
            None
        } else {
            node_by_names(n.children[k], names.drop_first())
        }
    }
}

/// The names lead from `n` to a node that is a file.
pub open spec fn file_at(n: NodeView, names: Seq<Seq<char>>) -> bool {
    match node_by_names(n, names) {
        Some(found) => !found.is_dir,
        None => false,
    }
}

/// The names lead from `n` to a node that is a directory.
pub open spec fn dir_at(n: NodeView, names: Seq<Seq<char>>) -> bool {
    match node_by_names(n, names) {
        Some(found) => found.is_dir,
        None => false,
    }
}

/// Every one of `names` is a name.
pub open spec fn all_names(names: Seq<Seq<char>>) -> bool {
    forall|i: int| 0 <= i < names.len() ==> valid_name(#[trigger] names[i])
}

/// Where `path` is the path of exactly one of `s`, standing at `k`, the first
/// that bears it stands at `k`.
pub proof fn lemma_child_index_is(s: Seq<NodeView>, path: Seq<char>, k: int)
    requires
        0 <= k < s.len(),
        s[k].path == path,
        forall|j: int| 0 <= j < k ==> (#[trigger] s[j]).path != path,
    ensures
        child_index(s, path) == k,
{
    lemma_child_index(s, path);
}

/// Sorting siblings of distinct paths does not change which sibling bears a
/// path.
pub proof fn lemma_child_in_sorted(kids: Seq<NodeView>, path: Seq<char>)
    requires
        distinct_paths(kids),
    ensures
        child_index(sort_nodes(kids), path) >= 0 <==> child_index(kids, path) >= 0,
        child_index(kids, path) >= 0 ==> sort_nodes(kids)[child_index(sort_nodes(kids), path)]
            == kids[child_index(kids, path)],
{
    let r = sort_nodes(kids);
    lemma_sort_nodes(kids);
    lemma_sort_nodes_distinct(kids);
    lemma_child_index(kids, path);
    lemma_child_index(r, path);
    let k = child_index(kids, path);
    let c = child_index(r, path);
    if k >= 0 {
        assert(kids.contains(kids[k]));
        assert(r.contains(kids[k]));
        let m = choose|m: int| 0 <= m < r.len() && r[m] == kids[k];
        assert(r[m].path == path);
        assert(c >= 0);
        if c != m {
            assert(r[c].path == r[m].path);
        }
    }
    if c >= 0 {
        assert(r.contains(r[c]));
        assert(kids.contains(r[c]));
        let m = choose|m: int| 0 <= m < kids.len() && kids[m] == r[c];
        assert(kids[m].path == path);
    }
}

/// What is seen where the names lead: nothing, or a node of some kind
/// (`true` for a directory) and some expansion.
pub open spec fn seen(n: NodeView, names: Seq<Seq<char>>) -> Option<(bool, bool)> {
    match node_by_names(n, names) {
        Some(found) => Some((found.is_dir, found.expanded)),
        None => None,
    }
}

/// `names` is the beginning of `segs`, or all of it.
pub open spec fn leads_to(names: Seq<Seq<char>>, segs: Seq<Seq<char>>) -> bool {
    names.len() <= segs.len() && names == segs.take(names.len() as int)
}

/// What is seen at `names` once `segs` was inserted, given what was seen
/// before: the node that `segs` names is a file; the nodes on the way to it
/// are there, as collapsed directories where they were missing; all else is
/// as it was.
pub open spec fn seen_after(
    before: Option<(bool, bool)>,
    names: Seq<Seq<char>>,
    segs: Seq<Seq<char>>,
) -> Option<(bool, bool)> {
    match before {
        Some((is_dir, expanded)) => Some((is_dir && names != segs, expanded)),
        None => if leads_to(names, segs) {
            Some((names != segs, false))
        } else {
            None
        },
    }
}

/// Replacing a sibling by one of the same path does not change which sibling
/// bears a path.
pub proof fn lemma_child_index_update(s: Seq<NodeView>, k: int, x: NodeView, path: Seq<char>)
    requires
        0 <= k < s.len(),
        x.path == s[k].path,
    ensures
        child_index(s.update(k, x), path) == child_index(s, path),
{
    let t = s.update(k, x);
    lemma_child_index(s, path);
    lemma_child_index(t, path);
    let a = child_index(s, path);
    let b = child_index(t, path);
    assert forall|j: int| 0 <= j < s.len() implies (#[trigger] t[j]).path == s[j].path by {}
    if a >= 0 {
        assert(t[a].path == path);
    }
    if b >= 0 {
        assert(s[b].path == t[b].path);
    }
}

/// A first name and the names behind it make up a sequence of names.
pub proof fn lemma_names_split(names: Seq<Seq<char>>, segs: Seq<Seq<char>>)
    requires
        names.len() > 0,
        segs.len() > 0,
    ensures
        names == segs <==> names[0] == segs[0] && names.drop_first() == segs.drop_first(),
        leads_to(names, segs) <==> names[0] == segs[0] && leads_to(
            names.drop_first(),
            segs.drop_first(),
        ),
{
    let n1 = names.drop_first();
    let s1 = segs.drop_first();
    if names[0] == segs[0] && n1 == s1 {
        assert(names =~= seq![names[0]] + n1);
        assert(segs =~= seq![segs[0]] + s1);
    }
    if leads_to(names, segs) {
        assert(segs.take(names.len() as int)[0] == segs[0]);
        assert(n1 =~= s1.take(n1.len() as int));
    }
    if names[0] == segs[0] && leads_to(n1, s1) {
        assert forall|i: int| 0 <= i < names.len() implies names[i] == segs.take(
            names.len() as int,
        )[i] by {
            if i > 0 {
                assert(names[i] == n1[i - 1]);
                assert(s1.take(n1.len() as int)[i - 1] == s1[i - 1]);
            }
        }
        assert(names =~= segs.take(names.len() as int));
    }
}

/// What is seen in a tree after an insertion: see `seen_after`.
pub proof fn lemma_inserted_seen(n: NodeView, segs: Seq<Seq<char>>, names: Seq<Seq<char>>)
    requires
        wf(n),
        all_names(segs),
    ensures
        seen(inserted(n, segs), names) == seen_after(seen(n, names), names, segs),
    decreases segs.len(),
{
    let after = inserted(n, segs);
    lemma_inserted_keeps(n, segs);
    if names.len() == 0 {
        if segs.len() == 0 {
            assert(names =~= segs);
        }
    } else if segs.len() == 0 {
        lemma_sort_nodes_of_sorted(n.children);
        assert(after.children == n.children);
        assert(!leads_to(names, segs));
    } else {
        let path = join(n.path, segs[0]);
        let rest = segs.drop_first();
        let wanted = join(n.path, names[0]);
        let behind = names.drop_first();
        let k = child_index(n.children, path);
        lemma_child_index(n.children, path);
        lemma_names_split(names, segs);
        assert(all_names(rest)) by {
            assert forall|i: int| 0 <= i < rest.len() implies valid_name(#[trigger] rest[i]) by {
                assert(rest[i] == segs[i + 1]);
            }
        }
        let start = if k >= 0 {
            n.children[k]
        } else {
            fresh(path, rest.len() > 0)
        };
        if k >= 0 {
            lemma_wf_child(n, k);
        }
        let child = inserted(start, rest);
        let kids = if k >= 0 {
            n.children.update(k, child)
        } else {
            n.children.push(child)
        };
        let at = if k >= 0 {
            k
        } else {
            n.children.len() as int
        };
        lemma_inserted_keeps(start, rest);
        assert(kids[at] == child);
        assert(distinct_paths(kids)) by {
            assert forall|i: int, j: int| 0 <= i < j < kids.len() implies kids[i].path
                != kids[j].path by {
                if i < n.children.len() {
                    assert(kids[i].path == n.children[i].path);
                }
                if j < n.children.len() {
                    assert(kids[j].path == n.children[j].path);
                }
            }
        }
        lemma_child_in_sorted(kids, wanted);
        lemma_child_index(kids, wanted);
        lemma_child_index(n.children, wanted);
        let was = child_index(n.children, wanted);
        let now = child_index(kids, wanted);
        if names[0] == segs[0] {
            assert(was == k);
            assert(now == at) by {
                assert forall|j: int| 0 <= j < at implies (#[trigger] kids[j]).path != path by {
                    assert(kids[j].path == n.children[j].path);
                }
                lemma_child_index_is(kids, path, at);
            }
            lemma_inserted_seen(start, rest, behind);
            assert(seen(after, names) == seen(child, behind));
            if k >= 0 {
                assert(seen(n, names) == seen(start, behind));
            } else {
                assert(seen(n, names) is None);
                if behind.len() == 0 {
                    assert(behind =~= rest.take(0));
                    if rest.len() == 0 {
                        assert(behind =~= rest);
                    }
                } else {
                    assert(child_index(start.children, join(start.path, behind[0])) == -1);
                    assert(seen(start, behind) is None);
                }
            }
        } else {
            if wanted == path {
                lemma_join_injective(n.path, names[0], segs[0]);
            }
            if k >= 0 {
                lemma_child_index_update(n.children, k, child, wanted);
                if was >= 0 {
                    assert(kids[was] == n.children[was]);
                }
            } else {
                assert(kids.drop_last() =~= n.children);
                if was >= 0 {
                    assert(kids[was] == n.children[was]);
                }
            }
            assert(now == was);
            assert(seen(after, names) == seen(n, names));
        }
    }
}

/// The segments by which a path is inserted are names.
pub proof fn lemma_relative_segments_names(root_path: Seq<char>, path: Seq<char>)
    ensures
        all_names(relative_segments(root_path, path)),
{
    let rel = relative_segments(root_path, path);
    let segs = segments(path);
    lemma_segments_names(path);
    assert forall|i: int| 0 <= i < rel.len() implies valid_name(#[trigger] rel[i]) by {
        if rel != segs {
            assert(rel[i] == segs[i + segments(root_path).len()]);
        }
    }
}

/// Populating a well-formed root leaves it well-formed, at its path.
pub proof fn lemma_populated_wf(root: NodeView, paths: Seq<Seq<char>>)
    requires
        wf(root),
    ensures
        wf(populated(root, paths)),
        populated(root, paths).path == root.path,
        populated(root, paths).expanded == root.expanded,
    decreases paths.len(),
{
    if paths.len() > 0 {
        let before = populated(root, paths.drop_last());
        let rel = relative_segments(root.path, paths.last());
        lemma_populated_wf(root, paths.drop_last());
        lemma_relative_segments_names(root.path, paths.last());
        lemma_inserted_wf(before, rel);
        lemma_inserted_keeps(before, rel);
    }
}

/// One of `paths` is inserted by the segments `names`.
pub open spec fn names_given(
    root_path: Seq<char>,
    paths: Seq<Seq<char>>,
    names: Seq<Seq<char>>,
) -> bool {
    exists|k: int|
        0 <= k < paths.len() && #[trigger] relative_segments(root_path, paths[k]) == names
}

/// One of `paths` is inserted by segments that begin with `names`.
pub open spec fn names_on_way(
    root_path: Seq<char>,
    paths: Seq<Seq<char>>,
    names: Seq<Seq<char>>,
) -> bool {
    exists|k: int|
        0 <= k < paths.len() && leads_to(names, #[trigger] relative_segments(root_path, paths[k]))
}

/// What is seen in a populated tree: a file where one of the paths names it
/// or a file was before; a node where one was before or a path leads over it;
/// and the expansion that was there before, none on a new node.
pub proof fn lemma_populated_seen(root: NodeView, paths: Seq<Seq<char>>, names: Seq<Seq<char>>)
    requires
        wf(root),
    ensures
        seen(populated(root, paths), names) == match seen(root, names) {
            Some((is_dir, expanded)) => Some(
                (is_dir && !names_given(root.path, paths, names), expanded),
            ),
            None => if names_on_way(root.path, paths, names) {
                Some((!names_given(root.path, paths, names), false))
            } else {
                None
            },
        },
    decreases paths.len(),
{
    if paths.len() == 0 {
    } else {
        let front = paths.drop_last();
        let before = populated(root, front);
        let rel = relative_segments(root.path, paths.last());
        lemma_populated_wf(root, front);
        lemma_populated_seen(root, front, names);
        lemma_relative_segments_names(root.path, paths.last());
        lemma_inserted_seen(before, rel, names);
        assert(relative_segments(root.path, paths[paths.len() - 1]) == rel);
        // what the paths so far give, and what the last one adds
        assert(names_given(root.path, paths, names) <==> names_given(root.path, front, names)
            || names == rel) by {
            if names_given(root.path, front, names) {
                let k = choose|k: int|
                    0 <= k < front.len() && #[trigger] relative_segments(root.path, front[k])
                        == names;
                assert(front[k] == paths[k]);
            }
            if names_given(root.path, paths, names) {
                let k = choose|k: int|
                    0 <= k < paths.len() && #[trigger] relative_segments(root.path, paths[k])
                        == names;
                if k < front.len() {
                    assert(front[k] == paths[k]);
                }
            }
        }
        assert(names_on_way(root.path, paths, names) <==> names_on_way(root.path, front, names)
            || leads_to(names, rel)) by {
            if names_on_way(root.path, front, names) {
                let k = choose|k: int|
                    0 <= k < front.len() && leads_to(
                        names,
                        #[trigger] relative_segments(root.path, front[k]),
                    );
                assert(front[k] == paths[k]);
            }
            if names_on_way(root.path, paths, names) {
                let k = choose|k: int|
                    0 <= k < paths.len() && leads_to(
                        names,
                        #[trigger] relative_segments(root.path, paths[k]),
                    );
                if k < front.len() {
                    assert(front[k] == paths[k]);
                }
            }
        }
        if names_given(root.path, front, names) {
            let k = choose|k: int|
                0 <= k < front.len() && #[trigger] relative_segments(root.path, front[k]) == names;
            assert(leads_to(names, relative_segments(root.path, front[k]))) by {
                assert(names =~= names.take(names.len() as int));
            }
        }
        if names == rel {
            assert(names =~= rel.take(names.len() as int));
        }
    }
}

/// Each of `s` has the path of `parent` joined with a name.
pub open spec fn paths_fit(parent: Seq<char>, s: Seq<NodeView>) -> bool {
    forall|i: int|
        0 <= i < s.len() ==> valid_name(name_of(#[trigger] s[i].path)) && s[i].path == join(
            parent,
            name_of(s[i].path),
        )
}

/// Two runs of siblings under one parent that stand in order, hold no path
/// twice, and hold the same nodes, are one and the same run.
pub proof fn lemma_sorted_same(x: Seq<NodeView>, y: Seq<NodeView>, parent: Seq<char>)
    requires
        paths_fit(parent, x),
        paths_fit(parent, y),
        distinct_paths(x),
        distinct_paths(y),
        sorted(x),
        sorted(y),
        forall|i: int| 0 <= i < x.len() ==> y.contains(#[trigger] x[i]),
        forall|j: int| 0 <= j < y.len() ==> x.contains(#[trigger] y[j]),
    ensures
        x == y,
    decreases x.len(),
{
    if x.len() == 0 {
        if y.len() > 0 {
            assert(x.contains(y[0]));
        }
        assert(x =~= y);
    } else if y.len() == 0 {
        assert(y.contains(x[0]));
    } else {
        let xl = x.last();
        let yl = y.last();
        assert(y.contains(x[x.len() - 1]));
        assert(x.contains(y[y.len() - 1]));
        let j = choose|j: int| 0 <= j < y.len() && y[j] == xl;
        let i = choose|i: int| 0 <= i < x.len() && x[i] == yl;
        if xl != yl {
            assert(!sorts_before(y[y.len() - 1], y[j]));
            assert(!sorts_before(x[x.len() - 1], x[i]));
            lemma_before_connected(xl, yl);
            assert(x[i].path == join(parent, name_of(x[i].path)));
            assert(x[x.len() - 1].path == join(parent, name_of(x[x.len() - 1].path)));
            assert(x[i].path == x[x.len() - 1].path);
        }
        let xs = x.drop_last();
        let ys = y.drop_last();
        assert forall|a: int| 0 <= a < xs.len() implies ys.contains(#[trigger] xs[a]) by {
            assert(xs[a] == x[a]);
            assert(y.contains(x[a]));
            let b = choose|b: int| 0 <= b < y.len() && y[b] == x[a];
            if b == y.len() - 1 {
                assert(x[a].path == x[x.len() - 1].path);
            }
            assert(ys[b] == xs[a]);
        }
        assert forall|b: int| 0 <= b < ys.len() implies xs.contains(#[trigger] ys[b]) by {
            assert(ys[b] == y[b]);
            assert(x.contains(y[b]));
            let a = choose|a: int| 0 <= a < x.len() && x[a] == y[b];
            if a == x.len() - 1 {
                assert(y[b].path == y[y.len() - 1].path);
            }
            assert(xs[a] == ys[b]);
        }
        assert(paths_fit(parent, xs)) by {
            assert forall|a: int| 0 <= a < xs.len() implies valid_name(
                name_of(#[trigger] xs[a].path),
            ) && xs[a].path == join(parent, name_of(xs[a].path)) by {
                assert(xs[a] == x[a]);
            }
        }
        assert(paths_fit(parent, ys)) by {
            assert forall|a: int| 0 <= a < ys.len() implies valid_name(
                name_of(#[trigger] ys[a].path),
            ) && ys[a].path == join(parent, name_of(ys[a].path)) by {
                assert(ys[a] == y[a]);
            }
        }
        assert(distinct_paths(xs) && sorted(xs)) by {
            assert forall|a: int, b: int| 0 <= a < b < xs.len() implies xs[a].path != xs[b].path
                && !sorts_before(xs[b], xs[a]) by {
                assert(xs[a] == x[a] && xs[b] == x[b]);
            }
        }
        assert(distinct_paths(ys) && sorted(ys)) by {
            assert forall|a: int, b: int| 0 <= a < b < ys.len() implies ys[a].path != ys[b].path
                && !sorts_before(ys[b], ys[a]) by {
                assert(ys[a] == y[a] && ys[b] == y[b]);
            }
        }
        lemma_sorted_same(xs, ys, parent);
        assert(x =~= xs.push(xl));
        assert(y =~= ys.push(yl));
    }
}

/// What is seen below a child is what is seen below its parent behind the
/// child's name.
pub proof fn lemma_seen_below(n: NodeView, i: int, names: Seq<Seq<char>>)
    requires
        wf(n),
        0 <= i < n.children.len(),
    ensures
        seen(n, seq![name_of(n.children[i].path)] + names) == seen(n.children[i], names),
{
    let name = name_of(n.children[i].path);
    let all = seq![name] + names;
    lemma_wf_child(n, i);
    lemma_child_index(n.children, n.children[i].path);
    let k = child_index(n.children, n.children[i].path);
    if k != i {
        assert(n.children[k].path == n.children[i].path);
    }
    assert(all[0] == name);
    assert(all.drop_first() =~= names);
}

/// Two well-formed trees at one path in which the same is seen wherever
/// names lead are one and the same tree.
pub proof fn lemma_same_seen_same_tree(a: NodeView, b: NodeView)
    requires
        wf(a),
        wf(b),
        a.path == b.path,
        forall|names: Seq<Seq<char>>| seen(a, names) == seen(b, names),
    ensures
        a == b,
    decreases a,
{
    assert(seen(a, Seq::empty()) == seen(b, Seq::empty()));
    assert forall|i: int| 0 <= i < a.children.len() implies b.children.contains(
        #[trigger] a.children[i],
    ) by {
        let ca = a.children[i];
        let name = name_of(ca.path);
        lemma_wf_child(a, i);
        lemma_seen_below(a, i, Seq::empty());
        let one = seq![name] + Seq::<Seq<char>>::empty();
        assert(seen(b, one) is Some);
        assert(one[0] == name);
        let k = child_index(b.children, join(b.path, name));
        lemma_child_index(b.children, join(b.path, name));
        assert(k >= 0);
        let cb = b.children[k];
        lemma_wf_child(b, k);
        assert forall|names: Seq<Seq<char>>| seen(ca, names) == seen(cb, names) by {
            lemma_seen_below(a, i, names);
            lemma_seen_below(b, k, names);
        }
        lemma_same_seen_same_tree(ca, cb);
    }
    assert forall|k: int| 0 <= k < b.children.len() implies a.children.contains(
        #[trigger] b.children[k],
    ) by {
        let cb = b.children[k];
        let name = name_of(cb.path);
        lemma_wf_child(b, k);
        lemma_seen_below(b, k, Seq::empty());
        let one = seq![name] + Seq::<Seq<char>>::empty();
        assert(seen(a, one) is Some);
        assert(one[0] == name);
        let i = child_index(a.children, join(a.path, name));
        lemma_child_index(a.children, join(a.path, name));
        assert(i >= 0);
        let ca = a.children[i];
        lemma_wf_child(a, i);
        assert forall|names: Seq<Seq<char>>| seen(ca, names) == seen(cb, names) by {
            lemma_seen_below(a, i, names);
            lemma_seen_below(b, k, names);
        }
        lemma_same_seen_same_tree(ca, cb);
    }
    assert(paths_fit(a.path, a.children)) by {
        assert forall|i: int| 0 <= i < a.children.len() implies valid_name(
            name_of(#[trigger] a.children[i].path),
        ) && a.children[i].path == join(a.path, name_of(a.children[i].path)) by {
            lemma_wf_child(a, i);
        }
    }
    assert(paths_fit(a.path, b.children)) by {
        assert forall|i: int| 0 <= i < b.children.len() implies valid_name(
            name_of(#[trigger] b.children[i].path),
        ) && b.children[i].path == join(a.path, name_of(b.children[i].path)) by {
            lemma_wf_child(b, i);
        }
    }
    lemma_sorted_same(a.children, b.children, a.path);
}

/// Two trees hold the same files: names lead to a file in the one exactly if
/// they do in the other.
pub open spec fn same_files(a: NodeView, b: NodeView) -> bool {
    forall|names: Seq<Seq<char>>| names.len() > 0 ==> (file_at(a, names) <==> file_at(b, names))
}

/// Setting an expansion changes neither where names lead nor the kind of the
/// node that they lead to.
pub proof fn lemma_with_expanded_kinds(
    n: NodeView,
    trail: Seq<int>,
    value: bool,
    names: Seq<Seq<char>>,
)
    requires
        leads(n, trail),
    ensures
        file_at(with_expanded(n, trail, value), names) == file_at(n, names),
        dir_at(with_expanded(n, trail, value), names) == dir_at(n, names),
    decreases names.len(),
{
    let made = with_expanded(n, trail, value);
    lemma_with_expanded_keeps(n, trail, value);
    if names.len() > 0 && trail.len() > 0 {
        let j = trail[0];
        let sub = trail.drop_first();
        let wanted = join(n.path, names[0]);
        lemma_with_expanded_keeps(n.children[j], sub, value);
        lemma_child_index_update(n.children, j, with_expanded(n.children[j], sub, value), wanted);
        lemma_child_index(n.children, wanted);
        let k = child_index(n.children, wanted);
        if k == j {
            lemma_with_expanded_kinds(n.children[j], sub, value, names.drop_first());
        } else if k >= 0 {
            assert(made.children[k] == n.children[k]);
        }
    }
}

} // verus!
