//! How the rows of a projection relate to the nodes of the tree: which node a
//! row shows, and how the rows change when a node is expanded or collapsed.

use crate::model::{flatten, flatten_all, node_at, row_of, with_expanded, NodeView, Row};
use vstd::prelude::*;

verus! {

/// The way `trail` leads through expanded nodes only, so that the node at its
/// end has a row among the rows of `n`.
pub open spec fn visible(n: NodeView, trail: Seq<int>) -> bool
    decreases trail.len(), 1nat,
{
    trail.len() == 0 || (n.expanded && visible_in(n.children, trail))
}

/// The way `trail` begins at one of the siblings `s` and leads on from it
/// through expanded nodes only.
pub open spec fn visible_in(s: Seq<NodeView>, trail: Seq<int>) -> bool
    decreases trail.len(), 0nat,
{
    trail.len() > 0 && 0 <= trail[0] < s.len() && visible(s[trail[0]], trail.drop_first())
}

/// The node at the end of a way that begins at one of the siblings `s`.
pub open spec fn node_in(s: Seq<NodeView>, trail: Seq<int>) -> NodeView {
    node_at(s[trail[0]], trail.drop_first())
}

/// The index, among the rows of `n` at `depth`, of the row of the node at the
/// end of `trail`.
pub open spec fn offset(n: NodeView, depth: nat, trail: Seq<int>) -> int
    decreases trail.len(), 1nat,
{
    if trail.len() == 0 {
        0
    } else {
        1 + offset_in(n.children, depth + 1, trail)
    }
}

/// The index, among the rows of the siblings `s` at `depth`, of the row of
/// the node at the end of `trail`.
pub open spec fn offset_in(s: Seq<NodeView>, depth: nat, trail: Seq<int>) -> int
    decreases trail.len(), 0nat,
{
    if trail.len() == 0 {
        0
    } else {
        flatten_all(s.take(trail[0]), depth).len() + offset(
            s[trail[0]],
            depth,
            trail.drop_first(),
        )
    }
}

/// The way from `n` to the node that row `i` of its rows shows.
pub open spec fn trail_of(n: NodeView, depth: nat, i: int) -> Seq<int>
    decreases n,
{
    if i <= 0 || !n.expanded {
        Seq::empty()
    } else {
        trail_in(n.children, depth + 1, i - 1)
    }
}

/// The way, beginning at one of the siblings `s`, to the node that row `i` of
/// their rows shows.
pub open spec fn trail_in(s: Seq<NodeView>, depth: nat, i: int) -> Seq<int>
    decreases s,
{
    if s.len() == 0 {
        Seq::empty()
    } else {
        let before = flatten_all(s.drop_last(), depth).len();
        if i >= before {
            seq![s.len() - 1] + trail_of(s.last(), depth, i - before)
        } else {
            trail_in(s.drop_last(), depth, i)
        }
    }
}

/// The rows of two runs of siblings, one after the other.
pub proof fn lemma_flatten_all_add(a: Seq<NodeView>, b: Seq<NodeView>, depth: nat)
    ensures
        flatten_all(a + b, depth) == flatten_all(a, depth) + flatten_all(b, depth),
    decreases b.len(),
{
    if b.len() == 0 {
        assert(a + b =~= a);
        assert(flatten_all(a, depth) + flatten_all(b, depth) =~= flatten_all(a, depth));
    } else {
        lemma_flatten_all_add(a, b.drop_last(), depth);
        assert((a + b).drop_last() =~= a + b.drop_last());
        assert((a + b).last() == b.last());
        assert(flatten_all(a + b, depth) =~= flatten_all(a, depth) + flatten_all(b, depth));
    }
}

/// The rows of a single sibling.
pub proof fn lemma_flatten_all_one(x: NodeView, depth: nat)
    ensures
        flatten_all(seq![x], depth) == flatten(x, depth),
{
    let s = seq![x];
    assert(s.drop_last() =~= Seq::<NodeView>::empty());
    assert(flatten_all(s.drop_last(), depth) =~= Seq::<Row>::empty());
    assert(flatten_all(s, depth) =~= flatten(x, depth));
}

/// The rows of siblings are those of the siblings ahead of the `j`-th, those
/// of the `j`-th, and those of the siblings behind it.
pub proof fn lemma_flatten_all_split(s: Seq<NodeView>, depth: nat, j: int)
    requires
        0 <= j < s.len(),
    ensures
        flatten_all(s, depth) == flatten_all(s.take(j), depth) + flatten(s[j], depth)
            + flatten_all(s.skip(j + 1), depth),
{
    assert(s =~= (s.take(j) + seq![s[j]]) + s.skip(j + 1));
    lemma_flatten_all_add(s.take(j) + seq![s[j]], s.skip(j + 1), depth);
    lemma_flatten_all_add(s.take(j), seq![s[j]], depth);
    lemma_flatten_all_one(s[j], depth);
}

/// Each row shows the node at the end of a way through expanded nodes, at the
/// depth that the length of the way gives.
pub proof fn lemma_trail_of(n: NodeView, depth: nat, i: int)
    requires
        0 <= i < flatten(n, depth).len(),
    ensures
        visible(n, trail_of(n, depth, i)),
        offset(n, depth, trail_of(n, depth, i)) == i,
        flatten(n, depth)[i] == row_of(
            node_at(n, trail_of(n, depth, i)),
            depth + trail_of(n, depth, i).len(),
        ),
    decreases n, 0nat,
{
    if i > 0 {
        lemma_trail_in(n.children, depth + 1, i - 1);
        let t = trail_in(n.children, depth + 1, i - 1);
        assert(trail_of(n, depth, i) == t);
        assert(node_at(n, t) == node_in(n.children, t));
    }
}

/// The same of the rows of siblings.
pub proof fn lemma_trail_in(s: Seq<NodeView>, depth: nat, i: int)
    requires
        0 <= i < flatten_all(s, depth).len(),
    ensures
        visible_in(s, trail_in(s, depth, i)),
        offset_in(s, depth, trail_in(s, depth, i)) == i,
        flatten_all(s, depth)[i] == row_of(
            node_in(s, trail_in(s, depth, i)),
            (depth + trail_in(s, depth, i).len() - 1) as nat,
        ),
    decreases s, 1nat,
{
    let front = s.drop_last();
    let before = flatten_all(front, depth).len();
    if i >= before {
        let sub = trail_of(s.last(), depth, i - before);
        let t = seq![s.len() - 1] + sub;
        lemma_trail_of(s.last(), depth, i - before);
        assert(t.drop_first() =~= sub);
        assert(s.take(s.len() - 1) =~= front);
    } else {
        lemma_trail_in(front, depth, i);
        let t = trail_in(front, depth, i);
        assert(front[t[0]] == s[t[0]]);
        assert(front.take(t[0]) =~= s.take(t[0]));
    }
}

/// Replacing a stretch inside the middle one of three runs replaces the same
/// stretch of the three runs laid end to end.
pub proof fn lemma_splice(
    ahead: Seq<Row>,
    own: Seq<Row>,
    behind: Seq<Row>,
    middle: Seq<Row>,
    at: int,
    shown: int,
)
    requires
        0 <= at <= own.len(),
        0 <= shown,
        at + shown <= own.len(),
    ensures
        ({
            let rows = ahead + own + behind;
            let k = ahead.len() + at;
            &&& ahead + (own.take(at) + middle + own.skip(at + shown)) + behind == rows.take(k)
                + middle + rows.skip(k + shown)
            &&& rows.subrange(k, k + shown) == own.subrange(at, at + shown)
            &&& at < own.len() ==> rows[k] == own[at]
            &&& at > 0 ==> rows[k - 1] == own[at - 1]
        }),
{
    let rows = ahead + own + behind;
    let k = ahead.len() + at;
    assert(ahead + (own.take(at) + middle + own.skip(at + shown)) + behind =~= rows.take(k)
        + middle + rows.skip(k + shown));
    assert(rows.subrange(k, k + shown) =~= own.subrange(at, at + shown));
}

/// What expanding or collapsing a visible node does to the rows: the rows up
/// to its own stay, the rows of its children come in behind it or go out,
/// and the rows behind those follow.
pub proof fn lemma_with_expanded_rows(n: NodeView, depth: nat, trail: Seq<int>, value: bool)
    requires
        visible(n, trail),
    ensures
        ({
            let rows = flatten(n, depth);
            let node = node_at(n, trail);
            let k = offset(n, depth, trail);
            let inner = flatten_all(node.children, depth + trail.len() + 1);
            let shown = if node.expanded {
                inner.len() as int
            } else {
                0
            };
            &&& 0 <= k < rows.len()
            &&& rows[k] == row_of(node, depth + trail.len())
            &&& k + 1 + shown <= rows.len()
            &&& node.expanded ==> rows.subrange(k + 1, k + 1 + shown) == inner
            &&& flatten(with_expanded(n, trail, value), depth) == rows.take(k + 1) + (if value {
                inner
            } else {
                Seq::empty()
            }) + rows.skip(k + 1 + shown)
        }),
    decreases trail.len(), 1nat,
{
    let rows = flatten(n, depth);
    if trail.len() == 0 {
        let inner = flatten_all(n.children, depth + 1);
        let after = flatten(with_expanded(n, trail, value), depth);
        let shown = if n.expanded {
            inner.len() as int
        } else {
            0
        };
        if n.expanded {
            assert(rows.subrange(1, 1 + shown) =~= inner);
        }
        assert(after =~= rows.take(1) + (if value {
            inner
        } else {
            Seq::empty()
        }) + rows.skip(1 + shown));
    } else {
        lemma_with_expanded_rows_in(n.children, depth + 1, trail, value);
        let kids = n.children;
        let changed = kids.update(
            trail[0],
            with_expanded(kids[trail[0]], trail.drop_first(), value),
        );
        let below = flatten_all(kids, depth + 1);
        let node = node_at(n, trail);
        let k = offset(n, depth, trail);
        let inner = flatten_all(node.children, depth + trail.len() + 1);
        let shown = if node.expanded {
            inner.len() as int
        } else {
            0
        };
        assert(rows =~= seq![row_of(n, depth)] + below);
        assert(flatten(with_expanded(n, trail, value), depth) =~= seq![row_of(n, depth)]
            + flatten_all(changed, depth + 1));
        if node.expanded {
            assert(rows.subrange(k + 1, k + 1 + shown) =~= below.subrange(k, k + shown));
        }
        assert(flatten(with_expanded(n, trail, value), depth) =~= rows.take(k + 1) + (if value {
            inner
        } else {
            Seq::empty()
        }) + rows.skip(k + 1 + shown));
    }
}

/// The same of the rows of siblings, one of which leads to the node.
pub proof fn lemma_with_expanded_rows_in(
    s: Seq<NodeView>,
    depth: nat,
    trail: Seq<int>,
    value: bool,
)
    requires
        visible_in(s, trail),
    ensures
        ({
            let rows = flatten_all(s, depth);
            let node = node_in(s, trail);
            let k = offset_in(s, depth, trail);
            let inner = flatten_all(node.children, depth + trail.len());
            let shown = if node.expanded {
                inner.len() as int
            } else {
                0
            };
            let changed = s.update(
                trail[0],
                with_expanded(s[trail[0]], trail.drop_first(), value),
            );
            &&& 0 <= k < rows.len()
            &&& rows[k] == row_of(node, (depth + trail.len() - 1) as nat)
            &&& k + 1 + shown <= rows.len()
            &&& node.expanded ==> rows.subrange(k + 1, k + 1 + shown) == inner
            &&& flatten_all(changed, depth) == rows.take(k + 1) + (if value {
                inner
            } else {
                Seq::empty()
            }) + rows.skip(k + 1 + shown)
        }),
    decreases trail.len(), 0nat,
{
    let j = trail[0];
    let sub = trail.drop_first();
    let child = s[j];
    let rows = flatten_all(s, depth);
    let node = node_in(s, trail);
    let inner = flatten_all(node.children, depth + trail.len());
    let shown = if node.expanded {
        inner.len() as int
    } else {
        0
    };
    let made = with_expanded(child, sub, value);
    let changed = s.update(j, made);
    lemma_with_expanded_rows(child, depth, sub, value);
    lemma_flatten_all_split(s, depth, j);
    lemma_flatten_all_split(changed, depth, j);
    assert(changed.take(j) =~= s.take(j));
    assert(changed.skip(j + 1) =~= s.skip(j + 1));
    let ahead = flatten_all(s.take(j), depth);
    let own = flatten(child, depth);
    let behind = flatten_all(s.skip(j + 1), depth);
    let k1 = offset(child, depth, sub);
    let middle = if value {
        inner
    } else {
        Seq::empty()
    };
    lemma_splice(ahead, own, behind, middle, k1 + 1, shown);
}

} // verus!
