//! The path tree, its projection into visible rows, and the selection.

use crate::content::{lemma_inserted_seen, seen, seen_after};
use crate::insertion::{lemma_inserted_keeps, lemma_inserted_wf};
use crate::laws::{
    law_rows_differ, law_rows_show_nodes, law_toggle_rows, law_top_row_has_no_parent,
    lemma_parent_from, lemma_reselected_same, rows_after_toggle,
};
use crate::lookup::lemma_expansion_wf;
use crate::model::{
    cleared, expanded_at, flatten, flatten_all, fresh, inserted, is_absolute, lemma_child_index,
    lemma_row_index, locate, locate_in, next_index, node_at, parent_from, parent_row,
    populated, previous_index, projection, relative_segments, reselected, row_index, row_of,
    selection_fits, slot, sort_nodes, sorted, sorts_before, toggled, wf, with_expanded, NodeView,
    Row,
};
use crate::order::lemma_sort_nodes;
use crate::path::{
    join_path, lemma_segments_names, name_less, path_starts_with, segments, split_segments,
    texts, to_chars, valid_name,
};
use vstd::prelude::*;
use vstd::string::StrSliceExecFns;

verus! {

/// One file or directory entry, identified by its path.
#[derive(Debug)]
pub struct FileNode {
    pub path: String,
    pub is_dir: bool,
    pub expanded: bool,
    pub children: Vec<FileNode>,
}

/// The values of a list of nodes.
pub open spec fn views(s: Seq<FileNode>) -> Seq<NodeView>
    decreases s,
{
    Seq::new(
        s.len(),
        |i: int|
            if 0 <= i < s.len() {
                s[i]@
            } else {
                arbitrary()
            },
    )
}

impl View for FileNode {
    type V = NodeView;

    /// The node as a value, with the values of its children.
    open spec fn view(&self) -> NodeView
        decreases self,
    {
        NodeView {
            path: self.path@,
            is_dir: self.is_dir,
            expanded: self.expanded,
            children: views(self.children@),
        }
    }
}

impl Clone for FileNode {
    /// A copy of the node and of all that stands under it.
    fn clone(&self) -> (copy: Self)
        ensures
            copy@ == self@,
        decreases self,
    {
        let mut children: Vec<FileNode> = Vec::new();
        let mut i: usize = 0;
        while i < self.children.len()
            invariant
                i <= self.children@.len(),
                children@.len() == i,
                forall|j: int| 0 <= j < i ==> children@[j]@ == self.children@[j]@,
            decreases self.children@.len() - i,
        {
            let child = self.children[i].clone();
            children.push(child);
            i += 1;
        }
        let copy = FileNode {
            path: self.path.clone(),
            is_dir: self.is_dir,
            expanded: self.expanded,
            children,
        };
        assert(views(copy.children@) =~= views(self.children@));
        copy
    }
}

/// Taking a node out of a list takes its value out of the list of values.
pub proof fn lemma_views_remove(s: Seq<FileNode>, i: int)
    requires
        0 <= i < s.len(),
    ensures
        views(s.remove(i)) == views(s).remove(i),
{
    s.remove_ensures(i);
    views(s).remove_ensures(i);
    assert(views(s.remove(i)) =~= views(s).remove(i));
}

/// Putting a node into a list puts its value into the list of values.
pub proof fn lemma_views_insert(s: Seq<FileNode>, i: int, x: FileNode)
    requires
        0 <= i <= s.len(),
    ensures
        views(s.insert(i, x)) == views(s).insert(i, x@),
{
    s.insert_ensures(i, x);
    views(s).insert_ensures(i, x@);
    assert(views(s.insert(i, x)) =~= views(s).insert(i, x@));
}

/// Whether two strings hold the same text.
fn same_text(a: &String, b: &String) -> (same: bool)
    ensures
        same == (a@ == b@),
{
    *a == *b
}

/// Whether a path begins at the root of the file system.
fn starts_at_root(path: &str) -> (absolute: bool)
    ensures
        absolute == is_absolute(path@),
{
    !path.is_empty() && path.get_char(0) == '/'
}

/// Whether the segments `segs` begin with all of `base`.
fn segments_start_with(segs: &Vec<String>, base: &Vec<String>) -> (starts: bool)
    ensures
        starts == texts(base@).is_prefix_of(texts(segs@)),
{
    let n = base.len();
    if n > segs.len() {
        return false;
    }
    let mut i: usize = 0;
    while i < n
        invariant
            i <= n,
            n == base@.len(),
            n <= segs@.len(),
            forall|j: int| 0 <= j < i ==> base@[j]@ == segs@[j]@,
        decreases n - i,
    {
        if !same_text(&base[i], &segs[i]) {
            proof {
                assert(texts(segs@).subrange(0, n as int)[i as int] != texts(base@)[i as int]);
            }
            return false;
        }
        i += 1;
    }
    assert(texts(base@) =~= texts(segs@).subrange(0, n as int));
    true
}

/// Whether `a` sorts before `b` as a sibling.
fn node_before(a: &FileNode, b: &FileNode) -> (before: bool)
    ensures
        before == sorts_before(a@, b@),
{
    if a.is_dir != b.is_dir {
        a.is_dir
    } else {
        name_less(a.path.as_str(), b.path.as_str())
    }
}

impl FileNode {
    /// A collapsed node without children.
    pub fn new(path: String, is_dir: bool) -> (node: Self)
        ensures
            node@ == fresh(path@, is_dir),
    {
        let node = FileNode { path, is_dir, expanded: false, children: Vec::new() };
        assert(node@.children =~= Seq::empty());
        node
    }

    /// Inserts the entry that `relative_path` names under this node, with the
    /// directories that lead to it. `relative_path` is read as segments between
    /// `/`; `full_path`, the same entry as the caller knows it, is not read.
    ///
    /// In a well-formed node this changes what is seen as `seen_after` says:
    /// the entry is a file, the directories on the way to it are there, and
    /// everything else is as it was.
    #[allow(unused_variables)]
    pub fn insert(&mut self, full_path: &str, relative_path: &str)
        ensures
            final(self)@ == inserted(old(self)@, segments(relative_path@)),
            wf(old(self)@) ==> wf(final(self)@),
            wf(old(self)@) ==> forall|names: Seq<Seq<char>>|
                #![trigger seen(final(self)@, names)]
                seen(final(self)@, names) == seen_after(
                    seen(old(self)@, names),
                    names,
                    segments(relative_path@),
                ),
    {
        let segs = split_segments(relative_path);
        proof {
            assert(texts(segs@).skip(0) =~= texts(segs@));
            lemma_segments_names(relative_path@);
            if wf(self@) {
                lemma_inserted_wf(self@, segments(relative_path@));
                assert forall|names: Seq<Seq<char>>|
                    #![trigger seen(inserted(self@, segments(relative_path@)), names)]
                    seen(inserted(self@, segments(relative_path@)), names) == seen_after(
                        seen(self@, names),
                        names,
                        segments(relative_path@),
                    ) by {
                    lemma_inserted_seen(self@, segments(relative_path@), names);
                }
            }
        }
        self.insert_segments(&segs, 0);
    }

    /// Inserts the entry named by the segments from `from` on.
    fn insert_segments(&mut self, segs: &Vec<String>, from: usize)
        requires
            from <= segs@.len(),
        ensures
            final(self)@ == inserted(old(self)@, texts(segs@).skip(from as int)),
        decreases segs@.len() - from,
    {
        let ghost rest = texts(segs@).skip(from as int);
        if from < segs.len() {
            let path = join_path(self.path.as_str(), segs[from].as_str());
            let len = self.children.len();
            let mut at: usize = 0;
            while at < len && !same_text(&self.children[at].path, &path)
                invariant
                    at <= len,
                    len == self.children@.len(),
                    *self == *old(self),
                    forall|j: int| 0 <= j < at ==> self.children@[j].path@ != path@,
                decreases len - at,
            {
                at += 1;
            }
            let ghost kids = views(self.children@);
            proof {
                lemma_child_index(kids, path@);
                assert(rest[0] == segs@[from as int]@);
                assert(rest.drop_first() =~= texts(segs@).skip(from + 1));
                assert(forall|j: int| 0 <= j < at ==> kids[j].path != path@);
                if at < len {
                    assert(kids[at as int].path == path@);
                }
            }
            if at < len {
                self.children[at].insert_segments(segs, from + 1);
                assert(views(self.children@) =~= kids.update(
                    at as int,
                    inserted(kids[at as int], rest.drop_first()),
                ));
            } else {
                let mut node = FileNode::new(path, from + 1 < segs.len());
                node.insert_segments(segs, from + 1);
                self.children.push(node);
                assert(views(self.children@) =~= kids.push(
                    inserted(fresh(path@, rest.drop_first().len() > 0), rest.drop_first()),
                ));
            }
        } else {
            self.is_dir = false;
        }
        self.sort_children();
    }

    /// Puts the children in sibling order: directories first, then by name.
    /// Children of which neither sorts before the other keep their order.
    pub fn sort_children(&mut self)
        ensures
            final(self)@ == (NodeView {
                children: sort_nodes(old(self)@.children),
                ..old(self)@
            }),
            sorted(final(self)@.children),
            final(self)@.children.to_multiset() == old(self)@.children.to_multiset(),
    {
        let len = self.children.len();
        let ghost orig = views(self.children@);
        let mut i: usize = 0;
        assert(sort_nodes(orig.take(0)) + orig.skip(0) =~= orig);
        while i < len
            invariant
                i <= len,
                orig.len() == len,
                self.children@.len() == len,
                self.path == old(self).path,
                self.is_dir == old(self).is_dir,
                self.expanded == old(self).expanded,
                views(self.children@) == sort_nodes(orig.take(i as int)) + orig.skip(i as int),
            decreases len - i,
        {
            let ghost before = views(self.children@);
            let ghost front = sort_nodes(orig.take(i as int));
            proof {
                lemma_sort_nodes(orig.take(i as int));
                assert(before[i as int] == orig.skip(i as int)[0]);
                let next = orig.take(i + 1);
                assert(next.drop_last() =~= orig.take(i as int));
                assert(next.last() == orig[i as int]);
                if i > 0 {
                    assert(before[i - 1] == front[i - 1]);
                }
            }
            if i > 0 && node_before(&self.children[i], &self.children[i - 1]) {
                let ghost whole = self.children@;
                let x = self.children.remove(i);
                proof {
                    lemma_views_remove(whole, i as int);
                    before.remove_ensures(i as int);
                    assert(before.remove(i as int) =~= front + orig.skip(i + 1));
                }
                let mut j: usize = i;
                assert(front.take(j as int) =~= front);
                while j > 0 && node_before(&x, &self.children[j - 1])
                    invariant
                        j <= i < len,
                        front.len() == i,
                        self.children@.len() == len - 1,
                        views(self.children@) == front + orig.skip(i + 1),
                        slot(front, x@) == slot(front.take(j as int), x@),
                    decreases j,
                {
                    proof {
                        assert(views(self.children@)[j - 1] == front[j - 1]);
                        assert(front.take(j as int).last() == front[j - 1]);
                        assert(front.take(j as int).drop_last() =~= front.take(j - 1));
                    }
                    j -= 1;
                }
                proof {
                    if j > 0 {
                        assert(views(self.children@)[j - 1] == front[j - 1]);
                        assert(front.take(j as int).last() == front[j - 1]);
                    }
                    assert(slot(front, x@) == j);
                }
                let ghost parted = self.children@;
                self.children.insert(j, x);
                proof {
                    lemma_views_insert(parted, j as int, x);
                    let joined = front + orig.skip(i + 1);
                    joined.insert_ensures(j as int, x@);
                    front.insert_ensures(j as int, x@);
                    assert(joined.insert(j as int, x@) =~= front.insert(j as int, x@)
                        + orig.skip(i + 1));
                }
            } else {
                // the child stands behind all that it does not sort before
                proof {
                    assert(slot(front, orig[i as int]) == i);
                    assert(before =~= front.insert(i as int, orig[i as int]) + orig.skip(i + 1));
                }
            }
            i += 1;
        }
        proof {
            assert(orig.take(len as int) =~= orig);
            assert(views(self.children@) =~= sort_nodes(orig));
            lemma_sort_nodes(orig);
        }
    }
}

/// The rows that a list of items shows.
pub open spec fn rows(items: Seq<(String, usize, bool)>) -> Seq<Row> {
    Seq::new(
        items.len(),
        |i: int| Row { path: items[i].0@, depth: items[i].1 as nat, is_dir: items[i].2 },
    )
}

/// The selection: the index of one row of the projection, or none.
#[derive(Debug, Clone, Copy)]
pub struct Selection {
    pub index: Option<usize>,
}

impl Selection {
    /// A selection of no row.
    pub fn new() -> (selection: Self)
        ensures
            selection.index is None,
    {
        Selection { index: None }
    }

    /// The selected index, if any.
    pub fn selected(&self) -> (index: Option<usize>)
        ensures
            index == self.index,
    {
        self.index
    }

    /// Selects `index`, or nothing.
    pub fn select(&mut self, index: Option<usize>)
        ensures
            final(self).index == index,
    {
        self.index = index;
    }
}

/// The tree under a root, the rows that it shows, and the selected row.
#[derive(Debug, Clone)]
pub struct FileTree {
    pub root: FileNode,
    pub state: Selection,
    pub items: Vec<(String, usize, bool)>,
}

/// Appends the rows of `node` and of what is visible under it to `items`.
fn flatten_recursive(node: &FileNode, depth: usize, items: &mut Vec<(String, usize, bool)>)
    requires
        depth <= old(items)@.len(),
    ensures
        rows(final(items)@) == rows(old(items)@) + flatten(node@, depth as nat),
    decreases node,
{
    let ghost start = rows(items@);
    items.push((node.path.clone(), depth, node.is_dir));
    assert(rows(items@) =~= start + seq![row_of(node@, depth as nat)]);
    if node.expanded {
        let len = node.children.len();
        let ghost kids = views(node.children@);
        let mut i: usize = 0;
        assert(flatten_all(kids.take(0), (depth + 1) as nat) =~= Seq::<Row>::empty());
        while i < len
            invariant
                i <= len,
                len == node.children@.len(),
                kids == views(node.children@),
                depth < items@.len(),
                rows(items@) == start + seq![row_of(node@, depth as nat)] + flatten_all(
                    kids.take(i as int),
                    (depth + 1) as nat,
                ),
            decreases len - i,
        {
            // every row above this one is in `items` already, so the depth
            // stays below their count
            let count = items.len();
            assert(depth < count);
            flatten_recursive(&node.children[i], depth + 1, items);
            proof {
                let next = kids.take(i + 1);
                assert(next.drop_last() =~= kids.take(i as int));
                assert(next.last() == node.children@[i as int]@);
                assert(rows(items@) =~= start + seq![row_of(node@, depth as nat)] + flatten_all(
                    next,
                    (depth + 1) as nat,
                ));
            }
            i += 1;
        }
        assert(kids.take(len as int) =~= kids);
        assert(rows(items@) =~= start + flatten(node@, depth as nat));
    }
}

/// Searches the node that bears the path `target` under `node`, descending
/// only into children under whose path `target` lies. `chars` are the
/// characters of `target`.
fn find_node_recursive<'a>(node: &'a FileNode, target: &String, chars: &Vec<char>) -> (found:
    Option<&'a FileNode>)
    requires
        chars@ == target@,
    ensures
        match found {
            Some(at) => locate(node@, target@) is Some && at@ == node_at(
                node@,
                locate(node@, target@)->0,
            ),
            None => locate(node@, target@) is None,
        },
    decreases node,
{
    if same_text(&node.path, target) {
        return Some(node);
    }
    let len = node.children.len();
    let ghost kids = views(node.children@);
    let mut i: usize = 0;
    while i < len
        invariant
            i <= len,
            len == node.children@.len(),
            kids == views(node.children@),
            chars@ == target@,
            locate(node@, target@) == locate_in(kids, target@, i as int),
        decreases len - i,
    {
        if path_starts_with(chars, node.children[i].path.as_str()) {
            let found = find_node_recursive(&node.children[i], target, chars);
            if found.is_some() {
                proof {
                    let trail = locate(kids[i as int], target@)->0;
                    assert((seq![i as int] + trail).drop_first() =~= trail);
                }
                return found;
            }
        }
        i += 1;
    }
    None
}

/// Sets the expansion of the node that bears the path `target` under `node`,
/// found by the same search, and tells whether there is one.
fn set_expanded_recursive(
    node: &mut FileNode,
    target: &String,
    chars: &Vec<char>,
    value: bool,
) -> (found: bool)
    requires
        chars@ == target@,
    ensures
        found == (locate(old(node)@, target@) is Some),
        final(node)@ == expanded_at(old(node)@, target@, value),
    decreases *old(node),
{
    if same_text(&node.path, target) {
        node.expanded = value;
        return true;
    }
    let len = node.children.len();
    let ghost kids = views(node.children@);
    let mut i: usize = 0;
    while i < len
        invariant
            i <= len,
            len == node.children@.len(),
            len == old(node).children@.len(),
            kids == views(node.children@),
            node@ == old(node)@,
            forall|j: int| i <= j < len ==> node.children@[j] == old(node).children@[j],
            chars@ == target@,
            node.path@ != target@,
            locate(node@, target@) == locate_in(kids, target@, i as int),
        decreases len - i,
    {
        if path_starts_with(chars, node.children[i].path.as_str()) {
            assert(node.children@[i as int] == old(node).children@[i as int]);
            let found = set_expanded_recursive(&mut node.children[i], target, chars, value);
            if found {
                proof {
                    let trail = locate(kids[i as int], target@)->0;
                    assert((seq![i as int] + trail).drop_first() =~= trail);
                    assert(views(node.children@) =~= kids.update(
                        i as int,
                        with_expanded(kids[i as int], trail, value),
                    ));
                }
                return true;
            }
            assert(views(node.children@) =~= kids);
        }
        i += 1;
    }
    false
}

/// The place of the first of the items that shows `path`.
fn find_row(items: &Vec<(String, usize, bool)>, path: &String) -> (found: Option<usize>)
    ensures
        match found {
            Some(j) => j < items@.len() && j == row_index(rows(items@), path@),
            None => row_index(rows(items@), path@) < 0,
        },
{
    let ghost shown = rows(items@);
    let mut j: usize = 0;
    proof {
        lemma_row_index(shown, path@);
    }
    while j < items.len()
        invariant
            j <= items@.len(),
            shown == rows(items@),
            forall|k: int| 0 <= k < j ==> (#[trigger] shown[k]).path != path@,
        decreases items@.len() - j,
    {
        if same_text(&items[j].0, path) {
            proof {
                lemma_row_index(shown, path@);
                assert(shown[j as int].path == path@);
            }
            return Some(j);
        }
        j += 1;
    }
    proof {
        lemma_row_index(shown, path@);
    }
    None
}

impl FileTree {
    /// An empty tree under an expanded root at `root_path`, with no row and no
    /// selection.
    pub fn new(root_path: String) -> (tree: Self)
        ensures
            tree.root@ == (NodeView { expanded: true, ..fresh(root_path@, true) }),
            tree.items@.len() == 0,
            tree.state.index is None,
            tree.consistent(),
    {
        let mut root = FileNode::new(root_path, true);
        root.expanded = true;
        let tree = FileTree { root, state: Selection::new(), items: Vec::new() };
        assert(rows(tree.items@) =~= projection(tree.root@));
        tree
    }

    /// The rows that the items show.
    pub open spec fn rows(&self) -> Seq<Row> {
        rows(self.items@)
    }

    /// A consistent state: the root is well-formed, the items are its
    /// projection, and the selection is absent where there is no row and one
    /// of the rows otherwise.
    pub open spec fn consistent(&self) -> bool {
        &&& wf(self.root@)
        &&& self.rows() == projection(self.root@)
        &&& selection_fits(self.state.index, self.items@.len())
    }

    /// Replaces the whole content of the tree by the entries that `paths`
    /// name and shows its projection. Expansion is not carried over: every
    /// node is collapsed. The selection follows as in `update_items`: on a
    /// tree without selection the first row is selected if there is one.
    pub fn populate_from_paths(&mut self, paths: Vec<String>)
        ensures
            final(self).root@ == populated(cleared(old(self).root@), texts(paths@)),
            final(self).state.index == reselected(
                old(self).rows(),
                old(self).state.index,
                final(self).rows(),
            ),
            final(self).consistent(),
    {
        self.root.children.clear();
        assert(self.root@ == cleared(old(self).root@)) by {
            assert(views(self.root.children@) =~= Seq::empty());
        }
        let ghost start = self.root@;
        let base = split_segments(self.root.path.as_str());
        let rooted = starts_at_root(self.root.path.as_str());
        let len = paths.len();
        let mut i: usize = 0;
        assert(texts(paths@).take(0) =~= Seq::empty());
        while i < len
            invariant
                i <= len,
                len == paths@.len(),
                start.path == self.root.path@,
                texts(base@) == segments(start.path),
                rooted == is_absolute(start.path),
                self.state == old(self).state,
                self.items == old(self).items,
                self.root@ == populated(start, texts(paths@).take(i as int)),
                wf(self.root@),
            decreases len - i,
        {
            let segs = split_segments(paths[i].as_str());
            let from: usize = if rooted && starts_at_root(paths[i].as_str())
                && segments_start_with(&segs, &base) {
                base.len()
            } else {
                0
            };
            proof {
                let next = texts(paths@).take(i + 1);
                assert(next.drop_last() =~= texts(paths@).take(i as int));
                assert(next.last() == paths@[i as int]@);
                assert(texts(segs@).skip(0) =~= texts(segs@));
                let rel = relative_segments(start.path, paths@[i as int]@);
                assert(rel == texts(segs@).skip(from as int));
                lemma_segments_names(paths@[i as int]@);
                assert forall|k: int| 0 <= k < rel.len() implies valid_name(#[trigger] rel[k]) by {
                    assert(rel[k] == segments(paths@[i as int]@)[k + from]);
                }
                lemma_inserted_wf(self.root@, rel);
                lemma_inserted_keeps(self.root@, rel);
            }
            self.root.insert_segments(&segs, from);
            i += 1;
        }
        assert(texts(paths@).take(len as int) =~= texts(paths@));
        self.update_items();
    }

    /// The selected row, if the selection is one of the rows.
    pub fn selected_row(&self) -> (row: Option<&(String, usize, bool)>)
        ensures
            match row {
                Some(item) => match self.state.index {
                    Some(i) => i < self.items@.len() && *item == self.items@[i as int],
                    None => false,
                },
                None => match self.state.index {
                    Some(i) => i >= self.items@.len(),
                    None => true,
                },
            },
    {
        match self.state.selected() {
            Some(i) => if i < self.items.len() {
                Some(&self.items[i])
            } else {
                None
            },
            None => None,
        }
    }

    /// The way to the node that row `i` shows, where the search finds it.
    pub open spec fn trail_of_row(&self, i: int) -> Option<Seq<int>> {
        locate(self.root@, self.items@[i].0@)
    }

    /// Row `i` shows a directory that the search finds expanded.
    pub open spec fn row_is_expanded_dir(&self, i: int) -> bool {
        &&& self.items@[i].2
        &&& self.trail_of_row(i) is Some
        &&& node_at(self.root@, self.trail_of_row(i)->0).expanded
    }

    /// What toggling the selected directory makes of the tree: the node that
    /// bears the path of the selected row, if that row shows a directory, has
    /// its expansion flipped, the items are the new projection, and the
    /// selection follows its path. With no row selected, or a file, nothing
    /// changes.
    pub open spec fn toggles_to(&self, after: &FileTree) -> bool {
        match self.state.index {
            Some(i) if i < self.items@.len() && self.items@[i as int].2 => {
                &&& after.root@ == toggled(self.root@, self.items@[i as int].0@)
                &&& after.rows() == projection(after.root@)
                &&& after.state.index == reselected(self.rows(), self.state.index, after.rows())
            },
            _ => *after == *self,
        }
    }

    /// What collapsing or moving to the parent makes of the tree: where the
    /// selected row shows a directory that is found expanded, that node is
    /// collapsed, the items are the new projection and the selection follows
    /// its path; otherwise the tree and the items stay, and the selection
    /// moves to the row of the parent, if there is one. With no row selected
    /// nothing changes.
    pub open spec fn collapses_to(&self, after: &FileTree) -> bool {
        match self.state.index {
            Some(i) if i < self.items@.len() => {
                if self.row_is_expanded_dir(i as int) {
                    &&& after.root@ == with_expanded(
                        self.root@,
                        self.trail_of_row(i as int)->0,
                        false,
                    )
                    &&& after.rows() == projection(after.root@)
                    &&& after.state.index == reselected(
                        self.rows(),
                        self.state.index,
                        after.rows(),
                    )
                } else {
                    &&& after.root == self.root
                    &&& after.items == self.items
                    &&& after.state.index == match parent_row(self.rows(), i as int) {
                        Some(j) => Some(j as usize),
                        None => self.state.index,
                    }
                }
            },
            _ => *after == *self,
        }
    }

    /// Computes the items anew: the projection of the tree as it stands. The
    /// selection follows: it stays on the path that was selected if a row
    /// still shows it, else on the row of the same number or on the last row;
    /// nothing is selected where there is no row, and the first row where
    /// nothing was selected.
    pub fn update_items(&mut self)
        ensures
            final(self).root == old(self).root,
            final(self).rows() == projection(old(self).root@),
            final(self).state.index == reselected(
                old(self).rows(),
                old(self).state.index,
                final(self).rows(),
            ),
            selection_fits(final(self).state.index, final(self).items@.len()),
    {
        let selected = self.state.selected();
        let kept: Option<String> = match selected {
            Some(i) => if i < self.items.len() {
                Some(self.items[i].0.clone())
            } else {
                None
            },
            None => None,
        };
        assert(match selected {
            Some(i) if i < self.items@.len() => match kept {
                Some(path) => path@ == self.rows()[i as int].path,
                None => false,
            },
            _ => kept is None,
        });
        self.project();
        let len = self.items.len();
        assert(self.rows().len() == len);
        if len == 0 {
            self.state.select(None);
        } else {
            match selected {
                Some(i) => {
                    let found = match kept {
                        Some(path) => find_row(&self.items, &path),
                        None => None,
                    };
                    match found {
                        Some(j) => {
                            self.state.select(Some(j));
                        },
                        None => {
                            if i < len {
                                self.state.select(Some(i));
                            } else {
                                self.state.select(Some(len - 1));
                            }
                        },
                    }
                },
                None => {
                    self.state.select(Some(0));
                },
            }
        }
    }

    /// Computes the items anew and leaves the selection alone.
    fn project(&mut self)
        ensures
            final(self).root == old(self).root,
            final(self).state == old(self).state,
            final(self).rows() == projection(old(self).root@),
    {
        self.items.clear();
        assert(rows(self.items@) =~= Seq::<Row>::empty());
        if self.root.expanded {
            let len = self.root.children.len();
            let ghost kids = views(self.root.children@);
            let mut i: usize = 0;
            assert(flatten_all(kids.take(0), 0) =~= Seq::<Row>::empty());
            while i < len
                invariant
                    i <= len,
                    len == self.root.children@.len(),
                    self.root == old(self).root,
                    self.state == old(self).state,
                    kids == views(self.root.children@),
                    rows(self.items@) == flatten_all(kids.take(i as int), 0),
                decreases len - i,
            {
                flatten_recursive(&self.root.children[i], 0, &mut self.items);
                proof {
                    let next = kids.take(i + 1);
                    assert(next.drop_last() =~= kids.take(i as int));
                    assert(next.last() == self.root.children@[i as int]@);
                }
                i += 1;
            }
            assert(kids.take(len as int) =~= kids);
        }
    }

    /// Expands the selected directory if it is collapsed, collapses it if it
    /// is expanded, and shows the new projection. With no row selected, or a
    /// file, nothing changes.
    ///
    /// In a consistent state the selection stays on its row, and the rows
    /// change as `rows_after_toggle` says: the rows of the children come in
    /// behind the row of the directory, or go out.
    pub fn toggle_expand(&mut self)
        ensures
            old(self).toggles_to(final(self)),
            wf(old(self).root@) ==> wf(final(self).root@),
            old(self).consistent() ==> final(self).consistent(),
            old(self).consistent() ==> final(self).state == old(self).state,
            match old(self).state.index {
                Some(i) => old(self).consistent() && old(self).items@[i as int].2
                    ==> final(self).rows() == rows_after_toggle(old(self).root@, i as int),
                None => true,
            },
    {
        if let Some(i) = self.state.selected() {
            if i < self.items.len() {
                if self.items[i].2 {
                    let target = self.items[i].0.clone();
                    let chars = to_chars(target.as_str());
                    proof {
                        if wf(self.root@) {
                            lemma_expansion_wf(self.root@, target@, true);
                        }
                    }
                    let expanded = match find_node_recursive(&self.root, &target, &chars) {
                        Some(node) => Some(node.expanded),
                        None => None,
                    };
                    if let Some(was) = expanded {
                        set_expanded_recursive(&mut self.root, &target, &chars, !was);
                    }
                    self.update_items();
                    proof {
                        if old(self).consistent() {
                            let shown = old(self).rows();
                            assert(shown[i as int].path == target@);
                            law_toggle_rows(old(self).root@, i as int);
                            assert(shown.take(i + 1).len() == i + 1);
                            assert(self.rows().len() == self.items@.len());
                            assert(self.rows().len() >= i + 1);
                            assert forall|k: int| 0 <= k < i implies (#[trigger] shown[k]).path
                                != shown[i as int].path by {
                                if shown[k].path == shown[i as int].path {
                                    law_rows_differ(old(self).root@, k, i as int);
                                }
                            }
                            lemma_reselected_same(shown, i, self.rows());
                        }
                    }
                }
            }
        }
    }

    /// Collapses the selected directory if it is expanded. Otherwise moves the
    /// selection to the row of the parent: the nearest row above that is less
    /// deep. Where there is none, nothing changes: so on a row at depth 0
    /// that is no expanded directory.
    pub fn collapse_or_parent(&mut self)
        ensures
            old(self).collapses_to(final(self)),
            match old(self).state.index {
                Some(i) => i < old(self).items@.len() && old(self).items@[i as int].1 == 0 && !old(
                    self,
                ).row_is_expanded_dir(i as int) ==> *final(self) == *old(self),
                None => true,
            },
            wf(old(self).root@) ==> wf(final(self).root@),
            old(self).consistent() ==> final(self).consistent(),
            match old(self).state.index {
                Some(i) => old(self).consistent() && old(self).row_is_expanded_dir(i as int) ==> {
                    &&& final(self).state == old(self).state
                    &&& final(self).rows() == rows_after_toggle(old(self).root@, i as int)
                },
                None => true,
            },
    {
        if let Some(i) = self.state.selected() {
            if i < self.items.len() {
                proof {
                    if wf(self.root@) {
                        lemma_expansion_wf(self.root@, self.items@[i as int].0@, false);
                    }
                    assert(self.rows()[i as int].path == self.items@[i as int].0@);
                    assert(self.rows()[i as int].depth == self.items@[i as int].1);
                    if self.consistent() {
                        law_toggle_rows(self.root@, i as int);
                        law_rows_show_nodes(self.root@, i as int);
                    }
                    if self.items@[i as int].1 == 0 {
                        law_top_row_has_no_parent(self.rows(), i as int);
                    }
                    lemma_parent_from(self.rows(), i as int, i as int);
                }
                if self.items[i].2 {
                    let target = self.items[i].0.clone();
                    let chars = to_chars(target.as_str());
                    let expanded = match find_node_recursive(&self.root, &target, &chars) {
                        Some(node) => node.expanded,
                        None => false,
                    };
                    if expanded {
                        set_expanded_recursive(&mut self.root, &target, &chars, false);
                        self.update_items();
                        proof {
                            if old(self).consistent() {
                                let shown = old(self).rows();
                                assert(shown.take(i + 1).len() == i + 1);
                                assert(self.rows().len() == self.items@.len());
                                assert(self.rows().len() >= i + 1);
                                assert forall|k: int| 0 <= k < i implies (
                                #[trigger] shown[k]).path != shown[i as int].path by {
                                    if shown[k].path == shown[i as int].path {
                                        law_rows_differ(old(self).root@, k, i as int);
                                    }
                                }
                                lemma_reselected_same(shown, i, self.rows());
                            }
                        }
                        return;
                    }
                }
                let depth = self.items[i].1;
                let mut j: usize = i;
                while j > 0
                    invariant
                        j <= i < self.items@.len(),
                        depth == self.items@[i as int].1,
                        *self == *old(self),
                        self.state.index == Some(i),
                        !self.row_is_expanded_dir(i as int),
                        parent_row(self.rows(), i as int) matches Some(p) ==> p < i,
                        parent_row(self.rows(), i as int) == parent_from(
                            self.rows(),
                            i as int,
                            j as int,
                        ),
                    decreases j,
                {
                    j -= 1;
                    proof {
                        let shown = self.rows();
                        assert(shown[j as int].depth == self.items@[j as int].1);
                        assert(shown[i as int].depth == depth);
                    }
                    if self.items[j].1 < depth {
                        assert(parent_row(self.rows(), i as int) == Some(j as int));
                        self.state.select(Some(j));
                        return;
                    }
                }
            }
        }
    }

    /// Moves the selection one row forward, from the last row to the first.
    /// With no selection the first row is selected; with no row, nothing.
    pub fn next(&mut self)
        ensures
            *final(self) == (FileTree {
                state: Selection {
                    index: next_index(old(self).state.index, old(self).items@.len()),
                },
                ..*old(self)
            }),
            selection_fits(final(self).state.index, final(self).items@.len()),
    {
        let len = self.items.len();
        if len == 0 {
            self.state.select(None);
        } else {
            let i: usize = match self.state.selected() {
                Some(i) => if i >= len - 1 {
                    0
                } else {
                    i + 1
                },
                None => 0,
            };
            self.state.select(Some(i));
        }
    }

    /// Moves the selection one row back, from the first row to the last. With
    /// no selection the first row is selected; with no row, nothing.
    pub fn previous(&mut self)
        ensures
            *final(self) == (FileTree {
                state: Selection {
                    index: previous_index(old(self).state.index, old(self).items@.len()),
                },
                ..*old(self)
            }),
            selection_fits(final(self).state.index, final(self).items@.len()),
    {
        let len = self.items.len();
        if len == 0 {
            self.state.select(None);
        } else {
            let i: usize = match self.state.selected() {
                Some(i) => if i == 0 || i > len {
                    len - 1
                } else {
                    i - 1
                },
                None => 0,
            };
            self.state.select(Some(i));
        }
    }
}

} // verus!
