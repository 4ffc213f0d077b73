//! What holds of the tree, its projection and the selection, whatever the
//! paths and whatever the state.

use crate::content::{
    all_names, file_at, leads_to, lemma_inserted_seen, lemma_populated_seen, lemma_populated_wf,
    lemma_same_seen_same_tree, lemma_seen_below, lemma_with_expanded_kinds, names_given,
    names_on_way, node_by_names, same_files, seen,
};
use crate::insertion::{lemma_inserted_keeps, lemma_inserted_wf};
use crate::lookup::{
    lemma_locate_leads, lemma_locate_trail, lemma_visible_leads, lemma_wf_child,
    lemma_with_expanded_keeps, lemma_with_expanded_locate, lemma_with_expanded_twice,
    lemma_with_expanded_wf,
};
use crate::model::{
    child_index, cleared, flatten, flatten_all, inserted, leads, lemma_child_index,
    lemma_row_index,
    locate, next_index, node_at, parent_from, parent_row, populated, previous_index, projection,
    relative_segments, reselected, row_index, row_of, selection_fits, toggled, wf,
    with_expanded, NodeView, Row,
};
use crate::path::{join, lemma_join_injective, lemma_segments_join, name_of, segments};
use crate::rows::{
    lemma_trail_in, lemma_with_expanded_rows_in, node_in, offset_in, trail_in, visible,
};
use vstd::prelude::*;

verus! {

/// A step forward followed by a step back leaves the selection where it was,
/// and so does a step back followed by a step forward, as long as there are
/// rows and one of them is selected.
pub proof fn law_steps_undo_each_other(selected: Option<usize>, len: nat)
    requires
        0 < len <= usize::MAX,
        selection_fits(selected, len),
    ensures
        previous_index(next_index(selected, len), len) == selected,
        next_index(previous_index(selected, len), len) == selected,
{
}

/// A step forward from the last row leads to the first, and a step back from
/// the first row leads to the last.
pub proof fn law_steps_wrap_around(len: nat)
    requires
        0 < len <= usize::MAX,
    ensures
        next_index(Some((len - 1) as usize), len) == Some(0usize),
        previous_index(Some(0usize), len) == Some((len - 1) as usize),
{
}

/// With no row there is nothing to select: a step in either direction leaves
/// the selection absent, whatever it was.
pub proof fn law_steps_on_no_rows(selected: Option<usize>)
    ensures
        next_index(selected, 0) is None,
        previous_index(selected, 0) is None,
{
}

/// A step in either direction ends on one of the rows, whatever was selected.
pub proof fn law_steps_fit(selected: Option<usize>, len: nat)
    requires
        len <= usize::MAX,
    ensures
        selection_fits(next_index(selected, len), len),
        selection_fits(previous_index(selected, len), len),
{
}

/// Looking up from row `j`, the parent of row `i` is the nearest row above
/// that is less deep; there is none exactly if no row above `j` is less deep.
pub proof fn lemma_parent_from(rows: Seq<Row>, i: int, j: int)
    requires
        0 <= j <= i < rows.len(),
    ensures
        match parent_from(rows, i, j) {
            Some(p) => {
                &&& 0 <= p < j
                &&& rows[p].depth < rows[i].depth
                &&& forall|k: int| p < k < j ==> rows[k].depth >= rows[i].depth
            },
            None => forall|k: int| 0 <= k < j ==> rows[k].depth >= rows[i].depth,
        },
    decreases j,
{
    if j > 0 && rows[j - 1].depth >= rows[i].depth {
        lemma_parent_from(rows, i, j - 1);
    }
}

/// The parent of a row is the nearest row above it that is less deep, and a
/// row has none exactly if no row above it is less deep.
pub proof fn law_parent_row(rows: Seq<Row>, i: int)
    requires
        0 <= i < rows.len(),
    ensures
        match parent_row(rows, i) {
            Some(p) => {
                &&& 0 <= p < i
                &&& rows[p].depth < rows[i].depth
                &&& forall|k: int| p < k < i ==> rows[k].depth >= rows[i].depth
            },
            None => forall|k: int| 0 <= k < i ==> rows[k].depth >= rows[i].depth,
        },
{
    lemma_parent_from(rows, i, i);
}

/// A row at depth 0 has no parent.
pub proof fn law_top_row_has_no_parent(rows: Seq<Row>, i: int)
    requires
        0 <= i < rows.len(),
        rows[i].depth == 0,
    ensures
        parent_row(rows, i) is None,
{
    lemma_parent_from(rows, i, i);
}

/// The node that a row of the projection shows: the way to it through the
/// tree, by the number of the row.
pub open spec fn row_trail(root: NodeView, i: int) -> Seq<int> {
    trail_in(root.children, 0, i)
}

/// Every row of the projection of a well-formed tree shows a node of the
/// tree that stands under expanded nodes only, with its path, its kind, and
/// its depth below the root; and the search for the row's path finds that
/// very node.
pub proof fn law_rows_show_nodes(root: NodeView, i: int)
    requires
        wf(root),
        0 <= i < projection(root).len(),
    ensures
        ({
            let row = projection(root)[i];
            let trail = row_trail(root, i);
            &&& visible(root, trail)
            &&& trail.len() > 0
            &&& row == row_of(node_at(root, trail), (trail.len() - 1) as nat)
            &&& locate(root, row.path) == Some(trail)
            &&& offset_in(root.children, 0, trail) == i
        }),
{
    let trail = row_trail(root, i);
    lemma_trail_in(root.children, 0, i);
    assert(node_at(root, trail) == node_in(root.children, trail));
    assert(visible(root, trail));
    lemma_visible_leads(root, trail);
    lemma_locate_trail(root, trail);
}

/// No two rows of the projection of a well-formed tree show the same path.
pub proof fn law_rows_differ(root: NodeView, i: int, j: int)
    requires
        wf(root),
        0 <= i < projection(root).len(),
        0 <= j < projection(root).len(),
        projection(root)[i].path == projection(root)[j].path,
    ensures
        i == j,
{
    law_rows_show_nodes(root, i);
    law_rows_show_nodes(root, j);
}

/// Where the rows up to the selected one stay as they are, and no row above
/// it shows its path, the selection stays where it is.
pub proof fn lemma_reselected_same(before: Seq<Row>, i: usize, after: Seq<Row>)
    requires
        i < before.len(),
        i < after.len(),
        forall|k: int| 0 <= k <= i ==> #[trigger] after[k] == before[k],
        forall|k: int| 0 <= k < i ==> (#[trigger] before[k]).path != before[i as int].path,
    ensures
        reselected(before, Some(i), after) == Some(i),
{
    let path = before[i as int].path;
    lemma_row_index(after, path);
    let found = row_index(after, path);
    assert(after[i as int].path == path);
    if 0 <= found < i {
        assert(after[found] == before[found]);
    }
}

/// The rows once the directory of row `i` was toggled: if it was collapsed,
/// the rows of its children stand right behind its row, one level deeper; if
/// it was expanded, exactly those rows are gone. All other rows stay, in
/// their order.
pub open spec fn rows_after_toggle(root: NodeView, i: int) -> Seq<Row> {
    let rows = projection(root);
    let node = node_at(root, row_trail(root, i));
    let inner = flatten_all(node.children, rows[i].depth + 1);
    if node.expanded {
        rows.take(i + 1) + rows.skip(i + 1 + inner.len())
    } else {
        rows.take(i + 1) + inner + rows.skip(i + 1)
    }
}

/// Toggling the directory of a row changes the rows as `rows_after_toggle`
/// says: the rows of its children come in behind its row or go out, and
/// where they go out, they were there. The tree stays well-formed, and
/// toggling once more restores it.
pub proof fn law_toggle_rows(root: NodeView, i: int)
    requires
        wf(root),
        0 <= i < projection(root).len(),
    ensures
        ({
            let rows = projection(root);
            let node = node_at(root, row_trail(root, i));
            let after = toggled(root, rows[i].path);
            let inner = flatten_all(node.children, rows[i].depth + 1);
            &&& wf(after)
            &&& toggled(after, rows[i].path) == root
            &&& projection(after) == rows_after_toggle(root, i)
            &&& node.expanded ==> {
                &&& i + 1 + inner.len() <= rows.len()
                &&& rows.subrange(i + 1, i + 1 + inner.len()) == inner
            }
        }),
{
    let rows = projection(root);
    let trail = row_trail(root, i);
    let node = node_at(root, trail);
    let value = !node.expanded;
    law_rows_show_nodes(root, i);
    lemma_visible_leads(root, trail);
    let after = with_expanded(root, trail, value);
    assert(after == toggled(root, rows[i].path));
    lemma_with_expanded_wf(root, trail, value);
    lemma_with_expanded_rows_in(root.children, 0, trail, value);
    lemma_with_expanded_keeps(root, trail, value);
    lemma_with_expanded_locate(root, trail, value, rows[i].path);
    lemma_with_expanded_twice(root, trail, value, node.expanded);
    assert(node_at(after, trail).expanded == value);
    assert(toggled(after, rows[i].path) == with_expanded(after, trail, !value));
    if node.expanded {
        assert(projection(after) =~= rows.take(i + 1) + rows.skip(
            i + 1 + flatten_all(node.children, rows[i].depth + 1).len(),
        ));
    }
}

/// Expanding a collapsed directory whose children are all collapsed makes the
/// projection longer by exactly the number of its children, and collapsing it
/// again gives back the rows as they were.
pub proof fn law_expand_adds_children(root: NodeView, i: int)
    requires
        wf(root),
        0 <= i < projection(root).len(),
        !node_at(root, row_trail(root, i)).expanded,
        forall|j: int|
            0 <= j < node_at(root, row_trail(root, i)).children.len() ==> !(#[trigger] node_at(
                root,
                row_trail(root, i),
            ).children[j]).expanded,
    ensures
        ({
            let rows = projection(root);
            let node = node_at(root, row_trail(root, i));
            let after = toggled(root, rows[i].path);
            &&& projection(after).len() == rows.len() + node.children.len()
            &&& projection(toggled(after, rows[i].path)) == rows
        }),
{
    let rows = projection(root);
    let node = node_at(root, row_trail(root, i));
    law_toggle_rows(root, i);
    lemma_collapsed_rows_each(node.children, rows[i].depth + 1);
}

/// Inserting a path a second time changes nothing.
pub proof fn law_insert_twice(n: NodeView, segs: Seq<Seq<char>>)
    requires
        wf(n),
        all_names(segs),
    ensures
        inserted(inserted(n, segs), segs) == inserted(n, segs),
{
    let once = inserted(n, segs);
    let twice = inserted(once, segs);
    lemma_inserted_wf(n, segs);
    lemma_inserted_wf(once, segs);
    lemma_inserted_keeps(n, segs);
    lemma_inserted_keeps(once, segs);
    assert forall|names: Seq<Seq<char>>| seen(twice, names) == seen(once, names) by {
        lemma_inserted_seen(n, segs, names);
        lemma_inserted_seen(once, segs, names);
    }
    lemma_same_seen_same_tree(twice, once);
}

/// Two paths inserted one after the other give the same tree in either order.
pub proof fn law_inserts_commute(n: NodeView, first: Seq<Seq<char>>, second: Seq<Seq<char>>)
    requires
        wf(n),
        all_names(first),
        all_names(second),
    ensures
        inserted(inserted(n, first), second) == inserted(inserted(n, second), first),
{
    let a = inserted(n, first);
    let b = inserted(n, second);
    let ab = inserted(a, second);
    let ba = inserted(b, first);
    lemma_inserted_wf(n, first);
    lemma_inserted_wf(n, second);
    lemma_inserted_wf(a, second);
    lemma_inserted_wf(b, first);
    lemma_inserted_keeps(n, first);
    lemma_inserted_keeps(n, second);
    lemma_inserted_keeps(a, second);
    lemma_inserted_keeps(b, first);
    assert forall|names: Seq<Seq<char>>| seen(ab, names) == seen(ba, names) by {
        lemma_inserted_seen(n, first, names);
        lemma_inserted_seen(n, second, names);
        lemma_inserted_seen(a, second, names);
        lemma_inserted_seen(b, first, names);
        if names == first {
            assert(names =~= first.take(names.len() as int));
        }
        if names == second {
            assert(names =~= second.take(names.len() as int));
        }
    }
    lemma_same_seen_same_tree(ab, ba);
}

/// After the tree was populated, its files are exactly the paths that were
/// given: names lead from the root to a file if and only if one of the paths
/// is inserted by these very names.
pub proof fn law_files_are_the_paths(
    root: NodeView,
    paths: Seq<Seq<char>>,
    names: Seq<Seq<char>>,
)
    requires
        names.len() > 0,
    ensures
        file_at(populated(cleared(root), paths), names) <==> names_given(root.path, paths, names),
{
    let start = cleared(root);
    assert(wf(start));
    lemma_populated_seen(start, paths, names);
    assert(child_index(start.children, join(start.path, names[0])) == -1);
    assert(seen(start, names) is None);
    if names_given(root.path, paths, names) {
        let k = choose|k: int|
            0 <= k < paths.len() && #[trigger] relative_segments(root.path, paths[k]) == names;
        assert(names =~= relative_segments(root.path, paths[k]).take(names.len() as int));
        assert(leads_to(names, relative_segments(root.path, paths[k])));
    }
}

/// The order in which paths are given does not matter: two lists that hold
/// the same paths populate the root to one and the same tree, with every
/// node in the same place among its siblings.
pub proof fn law_order_does_not_matter(
    root: NodeView,
    first: Seq<Seq<char>>,
    second: Seq<Seq<char>>,
)
    requires
        forall|path: Seq<char>| first.contains(path) <==> second.contains(path),
    ensures
        populated(cleared(root), first) == populated(cleared(root), second),
{
    let start = cleared(root);
    let a = populated(start, first);
    let b = populated(start, second);
    assert(wf(start));
    lemma_populated_wf(start, first);
    lemma_populated_wf(start, second);
    assert forall|names: Seq<Seq<char>>| seen(a, names) == seen(b, names) by {
        lemma_populated_seen(start, first, names);
        lemma_populated_seen(start, second, names);
        lemma_same_paths(root.path, first, second, names);
        lemma_same_paths(root.path, second, first, names);
    }
    lemma_same_seen_same_tree(a, b);
}

/// What one list of paths gives, a list that holds all its paths gives too.
pub proof fn lemma_same_paths(
    root_path: Seq<char>,
    first: Seq<Seq<char>>,
    second: Seq<Seq<char>>,
    names: Seq<Seq<char>>,
)
    requires
        forall|path: Seq<char>| first.contains(path) ==> second.contains(path),
    ensures
        names_given(root_path, first, names) ==> names_given(root_path, second, names),
        names_on_way(root_path, first, names) ==> names_on_way(root_path, second, names),
{
    if names_given(root_path, first, names) {
        let k = choose|k: int|
            0 <= k < first.len() && #[trigger] relative_segments(root_path, first[k]) == names;
        assert(first.contains(first[k]));
        let m = choose|m: int| 0 <= m < second.len() && second[m] == first[k];
        assert(relative_segments(root_path, second[m]) == names);
    }
    if names_on_way(root_path, first, names) {
        let k = choose|k: int|
            0 <= k < first.len() && leads_to(
                names,
                #[trigger] relative_segments(root_path, first[k]),
            );
        assert(first.contains(first[k]));
        let m = choose|m: int| 0 <= m < second.len() && second[m] == first[k];
        assert(leads_to(names, relative_segments(root_path, second[m])));
    }
}

/// The names of the nodes on the way `trail` from `n`, one for each step.
pub open spec fn names_along(n: NodeView, trail: Seq<int>) -> Seq<Seq<char>>
    decreases trail.len(),
{
    if trail.len() == 0 {
        Seq::empty()
    } else {
        seq![name_of(n.children[trail[0]].path)] + names_along(
            n.children[trail[0]],
            trail.drop_first(),
        )
    }
}

/// In a well-formed tree the names along a way lead to the node at its end.
pub proof fn lemma_names_along(n: NodeView, trail: Seq<int>)
    requires
        wf(n),
        leads(n, trail),
    ensures
        node_by_names(n, names_along(n, trail)) == Some(node_at(n, trail)),
        names_along(n, trail).len() == trail.len(),
    decreases trail.len(),
{
    if trail.len() > 0 {
        let j = trail[0];
        let child = n.children[j];
        let sub = trail.drop_first();
        let names = names_along(n, trail);
        lemma_wf_child(n, j);
        lemma_names_along(child, sub);
        lemma_child_index(n.children, child.path);
        let k = child_index(n.children, child.path);
        if k != j {
            assert(n.children[k].path == n.children[j].path);
        }
        assert(names[0] == name_of(child.path));
        assert(names.drop_first() =~= names_along(child, sub));
    }
}

/// In a well-formed tree the path of a node is made of the segments of the
/// root's path and the names along the way to the node.
pub proof fn law_node_paths(n: NodeView, trail: Seq<int>)
    requires
        wf(n),
        leads(n, trail),
    ensures
        segments(node_at(n, trail).path) == segments(n.path) + names_along(n, trail),
    decreases trail.len(),
{
    if trail.len() == 0 {
        assert(segments(n.path) + names_along(n, trail) =~= segments(n.path));
    } else {
        let j = trail[0];
        let child = n.children[j];
        let sub = trail.drop_first();
        lemma_wf_child(n, j);
        lemma_segments_join(n.path, name_of(child.path));
        law_node_paths(child, sub);
        assert(segments(n.path).push(name_of(child.path)) + names_along(child, sub) =~= segments(
            n.path,
        ) + names_along(n, trail));
    }
}

/// The path `shown` is that of one of `paths` under the root: its segments
/// are those of the root's path and those by which the path was inserted.
pub open spec fn shows_given(
    root_path: Seq<char>,
    paths: Seq<Seq<char>>,
    shown: Seq<char>,
) -> bool {
    exists|k: int|
        0 <= k < paths.len() && segments(shown) == segments(root_path)
            + #[trigger] relative_segments(root_path, paths[k])
}

/// After the tree was populated, every row that shows a file shows one of the
/// paths that were given: the names along the way to its node are the
/// segments by which one of the paths was inserted, and the path of the row
/// is that path under the root. This holds of every projection of the tree,
/// whatever was expanded since.
pub proof fn law_file_rows_are_paths(
    root: NodeView,
    paths: Seq<Seq<char>>,
    tree: NodeView,
    i: int,
)
    requires
        wf(tree),
        tree.path == root.path,
        same_files(tree, populated(cleared(root), paths)),
        0 <= i < projection(tree).len(),
        !projection(tree)[i].is_dir,
    ensures
        names_given(root.path, paths, names_along(tree, row_trail(tree, i))),
        shows_given(root.path, paths, projection(tree)[i].path),
{
    let trail = row_trail(tree, i);
    let names = names_along(tree, trail);
    law_rows_show_nodes(tree, i);
    lemma_visible_leads(tree, trail);
    lemma_names_along(tree, trail);
    assert(file_at(tree, names));
    law_files_are_the_paths(root, paths, names);
    law_node_paths(tree, trail);
    let k = choose|k: int|
        0 <= k < paths.len() && #[trigger] relative_segments(root.path, paths[k]) == names;
    assert(segments(projection(tree)[i].path) == segments(root.path) + relative_segments(
        root.path,
        paths[k],
    ));
}

/// The way that names lead from `n`: for each name the place of the child
/// that bears it.
pub open spec fn trail_by_names(n: NodeView, names: Seq<Seq<char>>) -> Seq<int>
    decreases names.len(),
{
    if names.len() == 0 {
        Seq::empty()
    } else {
        let k = child_index(n.children, join(n.path, names[0]));
        if k < 0 {
            Seq::empty()
        } else {
            seq![k] + trail_by_names(n.children[k], names.drop_first())
        }
    }
}

/// Where names lead to a node, the way by these names leads to it.
pub proof fn lemma_trail_by_names(n: NodeView, names: Seq<Seq<char>>)
    requires
        node_by_names(n, names) is Some,
    ensures
        leads(n, trail_by_names(n, names)),
        node_at(n, trail_by_names(n, names)) == node_by_names(n, names)->0,
        trail_by_names(n, names).len() == names.len(),
    decreases names.len(),
{
    if names.len() > 0 {
        let k = child_index(n.children, join(n.path, names[0]));
        lemma_child_index(n.children, join(n.path, names[0]));
        let sub = trail_by_names(n.children[k], names.drop_first());
        lemma_trail_by_names(n.children[k], names.drop_first());
        assert((seq![k] + sub).drop_first() =~= sub);
    }
}

/// After the tree was populated, every path that was given has a row that
/// shows it as a file, as soon as the directories on the way to it are
/// expanded: the row stands where the way by its segments leads.
pub proof fn law_paths_have_file_rows(
    root: NodeView,
    paths: Seq<Seq<char>>,
    tree: NodeView,
    k: int,
)
    requires
        wf(tree),
        same_files(tree, populated(cleared(root), paths)),
        0 <= k < paths.len(),
        relative_segments(root.path, paths[k]).len() > 0,
        visible(tree, trail_by_names(tree, relative_segments(root.path, paths[k]))),
    ensures
        ({
            let names = relative_segments(root.path, paths[k]);
            let trail = trail_by_names(tree, names);
            let i = offset_in(tree.children, 0, trail);
            &&& 0 <= i < projection(tree).len()
            &&& projection(tree)[i] == row_of(node_at(tree, trail), (names.len() - 1) as nat)
            &&& !projection(tree)[i].is_dir
            &&& names_along(tree, row_trail(tree, i)) == names
        }),
{
    let names = relative_segments(root.path, paths[k]);
    let trail = trail_by_names(tree, names);
    law_files_are_the_paths(root, paths, names);
    assert(file_at(tree, names));
    lemma_trail_by_names(tree, names);
    lemma_with_expanded_rows_in(tree.children, 0, trail, true);
    assert(node_at(tree, trail) == node_in(tree.children, trail));
    let i = offset_in(tree.children, 0, trail);
    law_rows_show_nodes(tree, i);
    lemma_locate_trail(tree, trail);
    lemma_names_along(tree, trail);
    lemma_names_of_trail(tree, names);
}

/// The names along the way by names are these names, where they lead to a
/// node of a well-formed tree.
pub proof fn lemma_names_of_trail(n: NodeView, names: Seq<Seq<char>>)
    requires
        wf(n),
        node_by_names(n, names) is Some,
    ensures
        names_along(n, trail_by_names(n, names)) == names,
    decreases names.len(),
{
    let trail = trail_by_names(n, names);
    if names.len() == 0 {
        assert(names_along(n, trail) =~= names);
    } else {
        let path = join(n.path, names[0]);
        let k = child_index(n.children, path);
        lemma_child_index(n.children, path);
        lemma_wf_child(n, k);
        let child = n.children[k];
        let sub = trail_by_names(child, names.drop_first());
        lemma_names_of_trail(child, names.drop_first());
        lemma_join_injective(n.path, names[0], name_of(child.path));
        assert(trail[0] == k);
        assert(trail.drop_first() =~= sub);
        assert(names_along(n, trail) =~= seq![names[0]] + names.drop_first());
        assert(seq![names[0]] + names.drop_first() =~= names);
    }
}

/// Toggling the node that bears a path leaves the tree with the files it
/// had.
pub proof fn law_toggle_keeps_files(tree: NodeView, path: Seq<char>)
    ensures
        same_files(toggled(tree, path), tree),
{
    if locate(tree, path) is Some {
        let trail = locate(tree, path)->0;
        lemma_locate_leads(tree, path);
        assert forall|names: Seq<Seq<char>>| names.len() > 0 implies (file_at(
            toggled(tree, path),
            names,
        ) <==> file_at(tree, names)) by {
            lemma_with_expanded_kinds(tree, trail, !node_at(tree, trail).expanded, names);
        }
    }
}

/// Right after the tree was populated, all is collapsed: the projection shows
/// the children of the root, one row each, in sibling order at depth 0.
pub proof fn law_fresh_projection(root: NodeView, paths: Seq<Seq<char>>)
    requires
        root.expanded,
    ensures
        ({
            let tree = populated(cleared(root), paths);
            &&& projection(tree).len() == tree.children.len()
            &&& forall|j: int|
                0 <= j < tree.children.len() ==> #[trigger] projection(tree)[j] == row_of(
                    tree.children[j],
                    0,
                )
        }),
{
    let start = cleared(root);
    let tree = populated(start, paths);
    assert(wf(start));
    lemma_populated_wf(start, paths);
    assert forall|j: int| 0 <= j < tree.children.len() implies !(
    #[trigger] tree.children[j]).expanded by {
        let one = seq![name_of(tree.children[j].path)] + Seq::<Seq<char>>::empty();
        lemma_seen_below(tree, j, Seq::empty());
        lemma_populated_seen(start, paths, one);
        assert(child_index(start.children, join(start.path, one[0])) == -1);
        assert(seen(start, one) is None);
    }
    lemma_collapsed_rows_each(tree.children, 0);
}

/// Siblings that are all collapsed show one row each, in their order.
pub proof fn lemma_collapsed_rows_each(s: Seq<NodeView>, depth: nat)
    requires
        forall|j: int| 0 <= j < s.len() ==> !(#[trigger] s[j]).expanded,
    ensures
        flatten_all(s, depth).len() == s.len(),
        forall|j: int|
            0 <= j < s.len() ==> #[trigger] flatten_all(s, depth)[j] == row_of(s[j], depth),
    decreases s.len(),
{
    if s.len() > 0 {
        let front = s.drop_last();
        assert forall|j: int| 0 <= j < front.len() implies !(#[trigger] front[j]).expanded by {
            assert(front[j] == s[j]);
        }
        lemma_collapsed_rows_each(front, depth);
        assert(!s[s.len() - 1].expanded);
        assert(flatten(s.last(), depth) =~= seq![row_of(s.last(), depth)]);
        assert forall|j: int| 0 <= j < s.len() implies #[trigger] flatten_all(s, depth)[j]
            == row_of(s[j], depth) by {
            if j < front.len() {
                assert(flatten_all(front, depth)[j] == row_of(front[j], depth));
                assert(front[j] == s[j]);
            }
        }
    }
}

/// Right after the tree was populated under an expanded root, the rows that
/// show files are exactly the given paths of a single segment: a name has a
/// file row if and only if one of the paths is inserted by that name alone.
pub proof fn law_fresh_file_rows(root: NodeView, paths: Seq<Seq<char>>, name: Seq<char>)
    requires
        root.expanded,
    ensures
        ({
            let rows = projection(populated(cleared(root), paths));
            let row = Row { path: join(root.path, name), depth: 0, is_dir: false };
            rows.contains(row) <==> names_given(root.path, paths, seq![name])
        }),
{
    let start = cleared(root);
    let tree = populated(start, paths);
    let rows = projection(tree);
    let row = Row { path: join(root.path, name), depth: 0, is_dir: false };
    let one = seq![name];
    reveal_with_fuel(node_by_names, 2);
    assert(one[0] == name);
    assert(wf(start));
    lemma_populated_wf(start, paths);
    law_fresh_projection(root, paths);
    law_files_are_the_paths(root, paths, one);
    lemma_child_index(tree.children, join(tree.path, name));
    let k = child_index(tree.children, join(tree.path, name));
    assert(one.drop_first() =~= Seq::<Seq<char>>::empty());
    if rows.contains(row) {
        let j = choose|j: int| 0 <= j < rows.len() && rows[j] == row;
        assert(rows[j] == row_of(tree.children[j], 0));
        assert(tree.children[j].path == join(tree.path, name));
        if k != j {
            lemma_wf_child(tree, j);
            assert(tree.children[k].path == tree.children[j].path);
        }
        assert(file_at(tree, one));
    }
    if names_given(root.path, paths, one) {
        assert(file_at(tree, one));
        assert(k >= 0);
        assert(rows[k] == row_of(tree.children[k], 0));
        assert(rows[k] == row);
    }
}

} // verus!
