//! Facts about insertion: what it keeps and what it adds.

use crate::model::{
    child_index, distinct_paths, fresh, inserted, lemma_child_index, sort_nodes, sorted, wf,
    NodeView,
};
use crate::order::{lemma_sort_nodes, lemma_sort_nodes_distinct, lemma_sort_nodes_of_sorted};
use crate::path::{join, lemma_name_of_join, name_of, valid_name};
use vstd::prelude::*;

verus! {

/// Each child's path is the path of `n` joined with a name, and each child is
/// well-formed.
pub open spec fn children_fit(path: Seq<char>, kids: Seq<NodeView>) -> bool {
    forall|i: int|
        0 <= i < kids.len() ==> {
            &&& valid_name(name_of(#[trigger] kids[i].path))
            &&& kids[i].path == join(path, name_of(kids[i].path))
            &&& wf(kids[i])
        }
}

/// Sorting children that fit under a path and differ in their paths gives the
/// children of a well-formed node.
pub proof fn lemma_sorted_children_wf(n: NodeView, kids: Seq<NodeView>)
    requires
        children_fit(n.path, kids),
        distinct_paths(kids),
    ensures
        wf(NodeView { children: sort_nodes(kids), ..n }),
{
    let r = sort_nodes(kids);
    lemma_sort_nodes(kids);
    lemma_sort_nodes_distinct(kids);
    assert forall|i: int| 0 <= i < r.len() implies {
        &&& valid_name(name_of(#[trigger] r[i].path))
        &&& r[i].path == join(n.path, name_of(r[i].path))
        &&& wf(r[i])
    } by {
        assert(r.contains(r[i]));
        assert(kids.contains(r[i]));
        let m = choose|m: int| 0 <= m < kids.len() && kids[m] == r[i];
        assert(valid_name(name_of(kids[m].path)));
    }
    let made = NodeView { children: r, ..n };
    assert(made.children == r);
    assert(made.path == n.path);
    assert(forall|i: int|
        0 <= i < made.children.len() ==> {
            &&& valid_name(name_of(#[trigger] made.children[i].path))
            &&& made.children[i].path == join(made.path, name_of(made.children[i].path))
            &&& wf(made.children[i])
        });
    assert(distinct_paths(made.children));
    assert(sorted(made.children));
}

/// Insertion keeps a node's path and its expansion.
pub proof fn lemma_inserted_keeps(n: NodeView, segs: Seq<Seq<char>>)
    ensures
        inserted(n, segs).path == n.path,
        inserted(n, segs).expanded == n.expanded,
        segs.len() > 0 ==> inserted(n, segs).is_dir == n.is_dir,
        segs.len() == 0 ==> !inserted(n, segs).is_dir,
{
}

/// Insertion of a path made of names leaves a well-formed node well-formed.
pub proof fn lemma_inserted_wf(n: NodeView, segs: Seq<Seq<char>>)
    requires
        wf(n),
        forall|i: int| 0 <= i < segs.len() ==> valid_name(#[trigger] segs[i]),
    ensures
        wf(inserted(n, segs)),
    decreases segs.len(),
{
    if segs.len() == 0 {
        lemma_sort_nodes_of_sorted(n.children);
        assert(children_fit(n.path, n.children));
        lemma_sorted_children_wf(n, n.children);
    } else {
        let path = join(n.path, segs[0]);
        let rest = segs.drop_first();
        let k = child_index(n.children, path);
        lemma_child_index(n.children, path);
        lemma_name_of_join(n.path, segs[0]);
        assert forall|i: int| 0 <= i < rest.len() implies valid_name(#[trigger] rest[i]) by {
            assert(rest[i] == segs[i + 1]);
        }
        if k >= 0 {
            let child = inserted(n.children[k], rest);
            let kids = n.children.update(k, child);
            lemma_inserted_wf(n.children[k], rest);
            lemma_inserted_keeps(n.children[k], rest);
            assert(children_fit(n.path, kids)) by {
                assert forall|i: int| 0 <= i < kids.len() implies {
                    &&& valid_name(name_of(#[trigger] kids[i].path))
                    &&& kids[i].path == join(n.path, name_of(kids[i].path))
                    &&& wf(kids[i])
                } by {
                    assert(kids[i].path == n.children[i].path);
                    if i != k {
                        assert(kids[i] == n.children[i]);
                    }
                }
            }
            assert(distinct_paths(kids)) by {
                assert forall|i: int, j: int| 0 <= i < j < kids.len() implies kids[i].path
                    != kids[j].path by {
                    assert(kids[i].path == n.children[i].path);
                    assert(kids[j].path == n.children[j].path);
                }
            }
            lemma_sorted_children_wf(n, kids);
        } else {
            let made = fresh(path, rest.len() > 0);
            let child = inserted(made, rest);
            let kids = n.children.push(child);
            assert(wf(made));
            lemma_inserted_wf(made, rest);
            lemma_inserted_keeps(made, rest);
            assert(children_fit(n.path, kids)) by {
                assert forall|i: int| 0 <= i < kids.len() implies {
                    &&& valid_name(name_of(#[trigger] kids[i].path))
                    &&& kids[i].path == join(n.path, name_of(kids[i].path))
                    &&& wf(kids[i])
                } by {
                    if i < n.children.len() {
                        assert(kids[i] == n.children[i]);
                    }
                }
            }
            assert(distinct_paths(kids)) by {
                assert forall|i: int, j: int| 0 <= i < j < kids.len() implies kids[i].path
                    != kids[j].path by {
                    assert(kids[i] == n.children[i]);
                    if j < n.children.len() {
                        assert(kids[j] == n.children[j]);
                    }
                }
            }
            lemma_sorted_children_wf(n, kids);
        }
    }
}

} // verus!
