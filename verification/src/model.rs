//! The tree as a mathematical value, and what its operations compute.

use crate::path::{is_path_prefix, join, lex_lt, name_of, segments, valid_name};
use vstd::prelude::*;

verus! {

/// A node of the tree as a value: its path as text, its flags, and the values
/// of its children in sibling order.
pub struct NodeView {
    pub path: Seq<char>,
    pub is_dir: bool,
    pub expanded: bool,
    pub children: Seq<NodeView>,
}

/// One visible row: a path, its depth, and whether it names a directory.
pub struct Row {
    pub path: Seq<char>,
    pub depth: nat,
    pub is_dir: bool,
}

/// The sibling order: directories before files, and within each group by the
/// final name of the path.
pub open spec fn sorts_before(a: NodeView, b: NodeView) -> bool {
    if a.is_dir != b.is_dir {
        a.is_dir
    } else {
        lex_lt(name_of(a.path), name_of(b.path))
    }
}

/// Siblings in order: none sorts before one that stands ahead of it.
pub open spec fn sorted(s: Seq<NodeView>) -> bool {
    forall|i: int, j: int| 0 <= i < j < s.len() ==> !sorts_before(s[j], s[i])
}

/// No two siblings share a path.
pub open spec fn distinct_paths(s: Seq<NodeView>) -> bool {
    forall|i: int, j: int| 0 <= i < j < s.len() ==> s[i].path != s[j].path
}

/// A well-formed node: each child's path is the node's path joined with a name,
/// no two children share a path, the children stand in sibling order, and each
/// child is well-formed in turn.
pub open spec fn wf(n: NodeView) -> bool
    decreases n,
{
    &&& forall|i: int|
        0 <= i < n.children.len() ==> {
            &&& valid_name(name_of(#[trigger] n.children[i].path))
            &&& n.children[i].path == join(n.path, name_of(n.children[i].path))
            &&& wf(n.children[i])
        }
    &&& distinct_paths(n.children)
    &&& sorted(n.children)
}

/// Where `x` goes among `s` when it arrives behind all of them: behind every
/// sibling that it does not sort before, reading from the end.
pub open spec fn slot(s: Seq<NodeView>, x: NodeView) -> int
    decreases s.len(),
{
    if s.len() == 0 || !sorts_before(x, s.last()) {
        s.len() as int
    } else {
        slot(s.drop_last(), x)
    }
}

/// The siblings `s` in sibling order; where neither of two sorts before the
/// other, the one that stood first stays first.
pub open spec fn sort_nodes(s: Seq<NodeView>) -> Seq<NodeView>
    decreases s.len(),
{
    if s.len() == 0 {
        s
    } else {
        let front = sort_nodes(s.drop_last());
        front.insert(slot(front, s.last()), s.last())
    }
}

/// The place of the first of `s` that bears `path`, or `-1` where none does.
pub open spec fn child_index(s: Seq<NodeView>, path: Seq<char>) -> int
    decreases s.len(),
{
    if s.len() == 0 {
        -1
    } else {
        let k = child_index(s.drop_last(), path);
        if k >= 0 {
            k
        } else if s.last().path == path {
            s.len() - 1
        } else {
            -1
        }
    }
}

/// A node as it is created: collapsed and childless.
pub open spec fn fresh(path: Seq<char>, is_dir: bool) -> NodeView {
    NodeView { path, is_dir, expanded: false, children: Seq::empty() }
}

/// The node `n` after the path made of the segments `segs` was inserted under
/// it. With no segment left, `n` itself is what the path names: a file. Else
/// the first segment names a child, found by its path or created (a directory
/// if more segments follow), into which the remaining segments are inserted;
/// the children are then put in sibling order.
pub open spec fn inserted(n: NodeView, segs: Seq<Seq<char>>) -> NodeView
    decreases segs.len(),
{
    if segs.len() == 0 {
        NodeView { is_dir: false, children: sort_nodes(n.children), ..n }
    } else {
        let path = join(n.path, segs[0]);
        let rest = segs.drop_first();
        let k = child_index(n.children, path);
        let kids = if k >= 0 {
            n.children.update(k, inserted(n.children[k], rest))
        } else {
            n.children.push(inserted(fresh(path, rest.len() > 0), rest))
        };
        NodeView { children: sort_nodes(kids), ..n }
    }
}

/// The first of `s` that bears `path` is found, or none bears it.
pub proof fn lemma_child_index(s: Seq<NodeView>, path: Seq<char>)
    ensures
        -1 <= child_index(s, path) < s.len(),
        child_index(s, path) >= 0 ==> s[child_index(s, path)].path == path,
        forall|j: int|
            0 <= j < s.len() && (j < child_index(s, path) || child_index(s, path) < 0) ==> (
            #[trigger] s[j]).path != path,
    decreases s.len(),
{
    if s.len() > 0 {
        let front = s.drop_last();
        lemma_child_index(front, path);
        assert forall|j: int|
            0 <= j < s.len() && (j < child_index(s, path) || child_index(s, path)
                < 0) implies (#[trigger] s[j]).path != path by {
            if j < front.len() {
                assert(front[j] == s[j]);
            }
        }
    }
}

/// The row that shows `n` at `depth`.
pub open spec fn row_of(n: NodeView, depth: nat) -> Row {
    Row { path: n.path, depth, is_dir: n.is_dir }
}

/// The rows of `n` and of what is visible under it, in pre-order: its own row,
/// then, if it is expanded, the rows of its children one level deeper.
pub open spec fn flatten(n: NodeView, depth: nat) -> Seq<Row>
    decreases n,
{
    if n.expanded {
        seq![row_of(n, depth)] + flatten_all(n.children, depth + 1)
    } else {
        seq![row_of(n, depth)]
    }
}

/// The rows of the siblings `s`, one after the other, all at `depth`.
pub open spec fn flatten_all(s: Seq<NodeView>, depth: nat) -> Seq<Row>
    decreases s,
{
    if s.len() == 0 {
        Seq::empty()
    } else {
        flatten_all(s.drop_last(), depth) + flatten(s.last(), depth)
    }
}

/// The projection: the rows of the root's children at depth 0. The root has no
/// row of its own; a collapsed root shows nothing.
pub open spec fn projection(root: NodeView) -> Seq<Row> {
    if root.expanded {
        flatten_all(root.children, 0)
    } else {
        Seq::empty()
    }
}

/// The way to the node that bears `target`, as the indices of the children to
/// descend into, where the search finds one. The search looks at a node, then
/// goes through its children in order and descends into those under whose
/// path `target` lies; the first node found is the answer.
pub open spec fn locate(n: NodeView, target: Seq<char>) -> Option<Seq<int>>
    decreases n, 0nat,
{
    if n.path == target {
        Some(Seq::empty())
    } else {
        locate_in(n.children, target, 0)
    }
}

/// The search among the siblings `s` from index `from` on.
pub open spec fn locate_in(s: Seq<NodeView>, target: Seq<char>, from: int) -> Option<Seq<int>>
    decreases s, s.len() - from,
{
    if from < 0 || from >= s.len() {
        None
    } else if is_path_prefix(s[from].path, target) && locate(s[from], target) is Some {
        Some(seq![from] + locate(s[from], target)->0)
    } else {
        locate_in(s, target, from + 1)
    }
}

/// The node at the end of the way `trail` from `n`.
pub open spec fn node_at(n: NodeView, trail: Seq<int>) -> NodeView
    decreases trail.len(),
{
    if trail.len() == 0 {
        n
    } else {
        node_at(n.children[trail[0]], trail.drop_first())
    }
}

/// The way `trail` leads from `n` to a node.
pub open spec fn leads(n: NodeView, trail: Seq<int>) -> bool
    decreases trail.len(),
{
    trail.len() == 0 || (0 <= trail[0] < n.children.len() && leads(
        n.children[trail[0]],
        trail.drop_first(),
    ))
}

/// The node `n` with the expansion of the node at the end of `trail` set.
pub open spec fn with_expanded(n: NodeView, trail: Seq<int>, value: bool) -> NodeView
    decreases trail.len(),
{
    if trail.len() == 0 {
        NodeView { expanded: value, ..n }
    } else {
        NodeView {
            children: n.children.update(
                trail[0],
                with_expanded(n.children[trail[0]], trail.drop_first(), value),
            ),
            ..n
        }
    }
}

/// The node `n` with the expansion of the node that bears `target` set to
/// `value`; `n` itself where the search finds none.
pub open spec fn expanded_at(n: NodeView, target: Seq<char>, value: bool) -> NodeView {
    match locate(n, target) {
        Some(trail) => with_expanded(n, trail, value),
        None => n,
    }
}

/// The node `n` with the expansion of the node that bears `target` flipped.
pub open spec fn toggled(n: NodeView, target: Seq<char>) -> NodeView {
    match locate(n, target) {
        Some(trail) => with_expanded(n, trail, !node_at(n, trail).expanded),
        None => n,
    }
}

/// The nearest row above row `i`, looking up from row `j`, that is less deep
/// than row `i`.
pub open spec fn parent_from(rows: Seq<Row>, i: int, j: int) -> Option<int>
    decreases j,
{
    if j <= 0 {
        None
    } else if rows[j - 1].depth < rows[i].depth {
        Some(j - 1)
    } else {
        parent_from(rows, i, j - 1)
    }
}

/// The row of the parent of row `i`: the nearest row above it that is less
/// deep, if there is one.
pub open spec fn parent_row(rows: Seq<Row>, i: int) -> Option<int> {
    parent_from(rows, i, i)
}

/// A path that begins at the root of the file system.
pub open spec fn is_absolute(path: Seq<char>) -> bool {
    path.len() > 0 && path[0] == '/'
}

/// The segments by which `path` is inserted under a root at `root_path`: an
/// absolute path under an absolute root is taken relative to the root, every
/// other path as it stands.
pub open spec fn relative_segments(root_path: Seq<char>, path: Seq<char>) -> Seq<Seq<char>> {
    let segs = segments(path);
    let base = segments(root_path);
    if is_absolute(path) && is_absolute(root_path) && base.is_prefix_of(segs) {
        segs.skip(base.len() as int)
    } else {
        segs
    }
}

/// The root after each of `paths` was inserted under it, in their order.
pub open spec fn populated(root: NodeView, paths: Seq<Seq<char>>) -> NodeView
    decreases paths.len(),
{
    if paths.len() == 0 {
        root
    } else {
        inserted(
            populated(root, paths.drop_last()),
            relative_segments(root.path, paths.last()),
        )
    }
}

/// The node without its children.
pub open spec fn cleared(n: NodeView) -> NodeView {
    NodeView { children: Seq::empty(), ..n }
}

/// The selection after a step forward over `len` rows: the next row, the first
/// one behind the last or where none was selected, none where there is no row.
pub open spec fn next_index(selected: Option<usize>, len: nat) -> Option<usize> {
    if len == 0 {
        None
    } else {
        match selected {
            Some(i) => if i + 1 < len {
                Some((i + 1) as usize)
            } else {
                Some(0)
            },
            None => Some(0),
        }
    }
}

/// The selection after a step back over `len` rows: the row before, the last
/// one before the first or where the selection lay behind the rows, the first
/// where none was selected, none where there is no row.
pub open spec fn previous_index(selected: Option<usize>, len: nat) -> Option<usize> {
    if len == 0 {
        None
    } else {
        match selected {
            Some(i) => if 0 < i <= len {
                Some((i - 1) as usize)
            } else {
                Some((len - 1) as usize)
            },
            None => Some(0),
        }
    }
}

/// The place of the first of `rows` that shows `path`, or `-1` where none does.
pub open spec fn row_index(rows: Seq<Row>, path: Seq<char>) -> int
    decreases rows.len(),
{
    if rows.len() == 0 {
        -1
    } else {
        let k = row_index(rows.drop_last(), path);
        if k >= 0 {
            k
        } else if rows.last().path == path {
            rows.len() - 1
        } else {
            -1
        }
    }
}

/// The selection once the rows have changed from `before` to `after`: on the
/// row that shows the path that was selected, if there is one; else on the
/// row of the same number, or on the last row where that number lies behind
/// the rows. Where nothing was selected, the first row is. Where there is no
/// row, nothing is selected.
pub open spec fn reselected(before: Seq<Row>, selected: Option<usize>, after: Seq<Row>) -> Option<
    usize,
> {
    if after.len() == 0 {
        None
    } else {
        match selected {
            Some(i) => if i < before.len() && row_index(after, before[i as int].path) >= 0 {
                Some(row_index(after, before[i as int].path) as usize)
            } else if i < after.len() {
                Some(i)
            } else {
                Some((after.len() - 1) as usize)
            },
            None => Some(0),
        }
    }
}

/// The first of `rows` that shows `path` is found, or none shows it.
pub proof fn lemma_row_index(rows: Seq<Row>, path: Seq<char>)
    ensures
        -1 <= row_index(rows, path) < rows.len(),
        row_index(rows, path) >= 0 ==> rows[row_index(rows, path)].path == path,
        forall|j: int|
            0 <= j < rows.len() && (j < row_index(rows, path) || row_index(rows, path) < 0) ==> (
            #[trigger] rows[j]).path != path,
    decreases rows.len(),
{
    if rows.len() > 0 {
        let front = rows.drop_last();
        lemma_row_index(front, path);
        assert forall|j: int|
            0 <= j < rows.len() && (j < row_index(rows, path) || row_index(rows, path)
                < 0) implies (#[trigger] rows[j]).path != path by {
            if j < front.len() {
                assert(front[j] == rows[j]);
            }
        }
    }
}

/// A selection that fits `len` rows: absent where there is none, else one of them.
pub open spec fn selection_fits(selected: Option<usize>, len: nat) -> bool {
    match selected {
        Some(i) => i < len,
        None => len == 0,
    }
}

} // verus!
