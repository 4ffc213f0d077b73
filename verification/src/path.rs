//! Paths as text: segments between `/`, joining a name to a parent, the final
//! name of a path, nesting of one path under another, and the order of names.

use vstd::prelude::*;
use vstd::string::*;

verus! {

/// A name is one segment of a path: not empty, and free of separators.
pub open spec fn valid_name(name: Seq<char>) -> bool {
    &&& name.len() > 0
    &&& forall|i: int| 0 <= i < name.len() ==> name[i] != '/'
}

/// The path of the entry `name` directly under `parent`.
pub open spec fn join(parent: Seq<char>, name: Seq<char>) -> Seq<char> {
    if parent.len() == 0 {
        name
    } else if parent.last() == '/' {
        parent + name
    } else {
        parent.push('/') + name
    }
}

/// Where the final name of `path` begins: just behind its last separator.
pub open spec fn name_start(path: Seq<char>) -> int
    decreases path.len(),
{
    if path.len() == 0 {
        0
    } else if path.last() == '/' {
        path.len() as int
    } else {
        name_start(path.drop_last())
    }
}

/// The final name of `path`: what follows its last separator.
pub open spec fn name_of(path: Seq<char>) -> Seq<char> {
    path.skip(name_start(path))
}

/// The segments of `s` from `start` on, where `s[start..i]` holds no separator.
pub open spec fn split_from(s: Seq<char>, start: int, i: int) -> Seq<Seq<char>>
    decreases s.len() - i,
{
    if i >= s.len() {
        if start < s.len() {
            seq![s.subrange(start, s.len() as int)]
        } else {
            Seq::empty()
        }
    } else if s[i] == '/' {
        if start < i {
            seq![s.subrange(start, i)] + split_from(s, i + 1, i + 1)
        } else {
            split_from(s, i + 1, i + 1)
        }
    } else {
        split_from(s, start, i + 1)
    }
}

/// The segments of a path: the maximal runs of characters between separators,
/// in order. Empty runs (a leading, trailing or doubled `/`) yield no segment.
pub open spec fn segments(s: Seq<char>) -> Seq<Seq<char>> {
    split_from(s, 0, 0)
}

/// `target` is `prefix` itself or lies under it: `prefix` opens `target` and
/// ends where a segment of `target` ends.
pub open spec fn is_path_prefix(prefix: Seq<char>, target: Seq<char>) -> bool {
    &&& prefix.len() <= target.len()
    &&& target.take(prefix.len() as int) == prefix
    &&& (prefix.len() == target.len() || target[prefix.len() as int] == '/')
}

/// Lexicographic order by character code, decided from position `i` on.
pub open spec fn lex_lt_from(a: Seq<char>, b: Seq<char>, i: int) -> bool
    decreases a.len() - i,
{
    if i >= b.len() {
        false
    } else if i >= a.len() {
        true
    } else if a[i] != b[i] {
        (a[i] as int) < (b[i] as int)
    } else {
        lex_lt_from(a, b, i + 1)
    }
}

/// `a` comes strictly before `b` in lexicographic order.
pub open spec fn lex_lt(a: Seq<char>, b: Seq<char>) -> bool {
    lex_lt_from(a, b, 0)
}

/// The texts of a list of strings.
pub open spec fn texts(v: Seq<String>) -> Seq<Seq<char>> {
    Seq::new(v.len(), |i: int| v[i]@)
}

/// No name comes before itself.
pub proof fn lemma_lex_irreflexive(a: Seq<char>, i: int)
    requires
        0 <= i,
    ensures
        !lex_lt_from(a, a, i),
    decreases a.len() - i,
{
    if i < a.len() {
        lemma_lex_irreflexive(a, i + 1);
    }
}

/// Two names that agree before `i` and of which neither comes first are equal.
pub proof fn lemma_lex_connected(a: Seq<char>, b: Seq<char>, i: int)
    requires
        0 <= i,
        i <= a.len(),
        i <= b.len(),
        a.take(i) == b.take(i),
        !lex_lt_from(a, b, i),
        !lex_lt_from(b, a, i),
    ensures
        a == b,
    decreases a.len() - i,
{
    if i >= a.len() || i >= b.len() {
        assert(a.len() == b.len());
        assert(a.take(i) == a);
        assert(b.take(i) == b);
    } else {
        assert(a[i] == b[i]);
        assert(a.take(i + 1) == a.take(i).push(a[i]));
        assert(b.take(i + 1) == b.take(i).push(b[i]));
        lemma_lex_connected(a, b, i + 1);
    }
}

/// The order of names is transitive.
pub proof fn lemma_lex_transitive(a: Seq<char>, b: Seq<char>, c: Seq<char>, i: int)
    requires
        0 <= i,
        lex_lt_from(a, b, i),
        lex_lt_from(b, c, i),
    ensures
        lex_lt_from(a, c, i),
    decreases a.len() - i,
{
    if i < a.len() && i < b.len() && i < c.len() {
        if a[i] == b[i] && b[i] == c[i] {
            lemma_lex_transitive(a, b, c, i + 1);
        }
    }
}

/// Every segment that `split_from` yields is a name.
pub proof fn lemma_split_from_names(s: Seq<char>, start: int, i: int)
    requires
        0 <= start <= i <= s.len(),
        forall|k: int| start <= k < i ==> s[k] != '/',
    ensures
        forall|k: int|
            0 <= k < split_from(s, start, i).len() ==> valid_name(
                #[trigger] split_from(s, start, i)[k],
            ),
    decreases s.len() - i,
{
    let all = split_from(s, start, i);
    if i >= s.len() {
        if start < s.len() {
            let tail = s.subrange(start, s.len() as int);
            assert forall|j: int| 0 <= j < tail.len() implies tail[j] != '/' by {
                assert(tail[j] == s[start + j]);
            }
            assert(all =~= seq![tail]);
        }
    } else if s[i] == '/' {
        lemma_split_from_names(s, i + 1, i + 1);
        let rest = split_from(s, i + 1, i + 1);
        if start < i {
            let head = s.subrange(start, i);
            assert forall|j: int| 0 <= j < head.len() implies head[j] != '/' by {
                assert(head[j] == s[start + j]);
            }
            assert(all =~= seq![head] + rest);
            assert forall|k: int| 0 <= k < all.len() implies valid_name(#[trigger] all[k]) by {
                if k > 0 {
                    assert(all[k] == rest[k - 1]);
                } else {
                    assert(all[k] == head);
                }
            }
        } else {
            assert(all =~= rest);
        }
    } else {
        lemma_split_from_names(s, start, i + 1);
        assert(all =~= split_from(s, start, i + 1));
    }
}

/// Every segment of a path is a name.
pub proof fn lemma_segments_names(s: Seq<char>)
    ensures
        forall|k: int| 0 <= k < segments(s).len() ==> valid_name(#[trigger] segments(s)[k]),
{
    lemma_split_from_names(s, 0, 0);
}

/// A run of characters without a separator, up to the end of the text, is one
/// segment.
pub proof fn lemma_split_run(s: Seq<char>, start: int, i: int)
    requires
        0 <= start <= i <= s.len(),
        start < s.len(),
        forall|k: int| start <= k < s.len() ==> s[k] != '/',
    ensures
        split_from(s, start, i) == seq![s.subrange(start, s.len() as int)],
    decreases s.len() - i,
{
    if i < s.len() {
        lemma_split_run(s, start, i + 1);
    }
}

/// A separator at the end of a text adds no segment.
pub proof fn lemma_split_trailing(s: Seq<char>, start: int, i: int)
    requires
        0 <= start <= i <= s.len(),
    ensures
        split_from(s.push('/'), start, i) == split_from(s, start, i),
    decreases s.len() - i,
{
    let t = s.push('/');
    if i < s.len() {
        assert(t[i] == s[i]);
        if s[i] == '/' {
            lemma_split_trailing(s, i + 1, i + 1);
            if start < i {
                assert(t.subrange(start, i) =~= s.subrange(start, i));
            }
        } else {
            lemma_split_trailing(s, start, i + 1);
        }
    } else {
        assert(t[i] == '/');
        assert(split_from(t, i + 1, i + 1) =~= Seq::<Seq<char>>::empty());
        if start < i {
            assert(t.subrange(start, i) =~= s.subrange(start, s.len() as int));
            assert(split_from(t, start, i) =~= seq![t.subrange(start, i)]);
        }
    }
}

/// Behind a text, a second text is split as it is split alone.
pub proof fn lemma_split_shift(a: Seq<char>, b: Seq<char>, start: int, i: int)
    requires
        0 <= start <= i <= b.len(),
    ensures
        split_from(a + b, a.len() + start, a.len() + i) == split_from(b, start, i),
    decreases b.len() - i,
{
    let s = a + b;
    let n = a.len() as int;
    if i >= b.len() {
        if start < b.len() {
            assert(s.subrange(n + start, s.len() as int) =~= b.subrange(start, b.len() as int));
        }
    } else {
        assert(s[n + i] == b[i]);
        if b[i] == '/' {
            lemma_split_shift(a, b, i + 1, i + 1);
            if start < i {
                assert(s.subrange(n + start, n + i) =~= b.subrange(start, i));
            }
        } else {
            lemma_split_shift(a, b, start, i + 1);
        }
    }
}

/// A text that ends in a separator and a second text behind it are split
/// each for itself.
pub proof fn lemma_split_closed(a: Seq<char>, b: Seq<char>, start: int, i: int)
    requires
        a.len() > 0,
        a.last() == '/',
        0 <= start <= i <= a.len(),
        forall|k: int| start <= k < i ==> a[k] != '/',
    ensures
        split_from(a + b, start, i) == split_from(a, start, i) + segments(b),
    decreases a.len() - i,
{
    let s = a + b;
    if i >= a.len() {
        assert(start == a.len()) by {
            if start < a.len() {
                assert(a[a.len() - 1] != '/');
            }
        }
        lemma_split_shift(a, b, 0, 0);
        assert(split_from(a, start, i) + segments(b) =~= segments(b));
    } else {
        assert(s[i] == a[i]);
        if a[i] == '/' {
            lemma_split_closed(a, b, i + 1, i + 1);
            if start < i {
                assert(s.subrange(start, i) =~= a.subrange(start, i));
                let head = seq![a.subrange(start, i)];
                let rest = split_from(a, i + 1, i + 1);
                assert(head + (rest + segments(b)) =~= (head + rest) + segments(b));
            }
        } else {
            lemma_split_closed(a, b, start, i + 1);
        }
    }
}

/// Joining a name to a path adds the name to its segments.
pub proof fn lemma_segments_join(parent: Seq<char>, name: Seq<char>)
    requires
        valid_name(name),
    ensures
        segments(join(parent, name)) == segments(parent).push(name),
{
    lemma_split_run(name, 0, 0);
    assert(name.subrange(0, name.len() as int) =~= name);
    assert(segments(name) == seq![name]);
    if parent.len() == 0 {
        assert(segments(parent) =~= Seq::<Seq<char>>::empty());
        assert(seq![name] =~= segments(parent).push(name));
    } else if parent.last() == '/' {
        lemma_split_closed(parent, name, 0, 0);
        assert(segments(parent) + seq![name] =~= segments(parent).push(name));
    } else {
        let closed = parent.push('/');
        lemma_split_trailing(parent, 0, 0);
        lemma_split_closed(closed, name, 0, 0);
        assert(segments(parent) + seq![name] =~= segments(parent).push(name));
    }
}

/// The final name is settled by the characters behind any of its separators.
pub proof fn lemma_name_start_unique(path: Seq<char>, k: int)
    requires
        0 <= k <= path.len(),
        k > 0 ==> path[k - 1] == '/',
        forall|j: int| k <= j < path.len() ==> path[j] != '/',
    ensures
        name_start(path) == k,
    decreases path.len(),
{
    if path.len() == 0 {
    } else if path.last() == '/' {
    } else {
        lemma_name_start_unique(path.drop_last(), k);
    }
}

/// The final name of a joined path is the name that was joined.
pub proof fn lemma_name_of_join(parent: Seq<char>, name: Seq<char>)
    requires
        valid_name(name),
    ensures
        name_of(join(parent, name)) == name,
        join(parent, name).len() > 0,
        join(parent, name).last() != '/',
{
    let p = join(parent, name);
    let k = p.len() - name.len();
    assert(forall|j: int| k <= j < p.len() ==> p[j] == name[j - k]);
    lemma_name_start_unique(p, k);
    assert(p.skip(k) =~= name);
}

/// Under one parent, different names give different paths.
pub proof fn lemma_join_injective(parent: Seq<char>, a: Seq<char>, b: Seq<char>)
    requires
        join(parent, a) == join(parent, b),
    ensures
        a == b,
{
    let pa = join(parent, a);
    let pb = join(parent, b);
    let k = pa.len() - a.len();
    assert(pb.len() - b.len() == k);
    assert(a =~= pa.skip(k));
    assert(b =~= pb.skip(k));
}

/// A joined path lies under its parent's own children only: it is nested
/// under the sibling path of another name in no case.
pub proof fn lemma_join_prefix(parent: Seq<char>, name: Seq<char>, target: Seq<char>)
    requires
        valid_name(name),
        is_path_prefix(join(parent, name), target),
    ensures
        forall|other: Seq<char>|
            valid_name(other) && other != name ==> !is_path_prefix(
                #[trigger] join(parent, other),
                target,
            ),
{
    assert forall|other: Seq<char>| valid_name(other) && other != name implies !is_path_prefix(
        #[trigger] join(parent, other),
        target,
    ) by {
        let p = join(parent, name);
        let q = join(parent, other);
        let k = p.len() - name.len();
        if is_path_prefix(q, target) {
            assert(q.len() - other.len() == k);
            assert forall|j: int| 0 <= j < name.len() && j < other.len() implies name[j]
                == other[j] by {
                assert(target.take(p.len() as int)[k + j] == p[k + j]);
                assert(target.take(q.len() as int)[k + j] == q[k + j]);
            }
            if name.len() < other.len() {
                // the character of `target` behind `name` ends a segment
                assert(target.take(q.len() as int)[k + name.len()] == q[k + name.len()]);
                assert(other[name.len() as int] == '/');
            } else if other.len() < name.len() {
                assert(target.take(p.len() as int)[k + other.len()] == p[k + other.len()]);
                assert(name[other.len() as int] == '/');
            } else {
                assert(name =~= other);
            }
        }
    }
}

/// A path lies under itself, and whatever lies under a joined path lies under
/// the parent too, unless the parent ends in a separator of its own.
pub proof fn lemma_prefix_of_join(parent: Seq<char>, name: Seq<char>, target: Seq<char>)
    requires
        valid_name(name),
        is_path_prefix(join(parent, name), target),
        parent.len() > 0,
        parent.last() != '/',
    ensures
        is_path_prefix(parent, target),
        parent != target,
{
    let p = join(parent, name);
    assert(target.take(p.len() as int)[parent.len() as int] == p[parent.len() as int]);
    assert(target.take(parent.len() as int) =~= parent) by {
        assert forall|j: int| 0 <= j < parent.len() implies target[j] == parent[j] by {
            assert(target.take(p.len() as int)[j] == p[j]);
        }
    }
}

/// The characters of a string, in a vector.
pub fn to_chars(s: &str) -> (v: Vec<char>)
    ensures
        v@ == s@,
{
    let mut v: Vec<char> = Vec::new();
    for c in it: s.chars()
        invariant
            it.seq() == s@,
            v@ == it.seq().take(it.index() as int),
    {
        v.push(c);
    }
    v
}

/// Splits a path into its segments.
pub fn split_segments(path: &str) -> (segs: Vec<String>)
    ensures
        texts(segs@) == segments(path@),
{
    let chars = to_chars(path);
    let len = chars.len();
    let mut segs: Vec<String> = Vec::new();
    let mut start: usize = 0;
    let mut i: usize = 0;
    while i < len
        invariant
            chars@ == path@,
            len == chars@.len(),
            start <= i <= len,
            forall|k: int| start <= k < i ==> chars@[k] != '/',
            texts(segs@) + split_from(path@, start as int, i as int) == segments(path@),
        decreases len - i,
    {
        if chars[i] == '/' {
            if start < i {
                let piece = String::from_str(path.substring_char(start, i));
                proof {
                    let before = texts(segs@);
                    let rest = split_from(path@, i + 1, i + 1);
                    assert(texts(segs@.push(piece)) =~= before.push(piece@));
                    assert(before.push(piece@) + rest =~= before + (seq![piece@] + rest));
                }
                segs.push(piece);
            }
            start = i + 1;
        }
        i += 1;
    }
    if start < len {
        let piece = String::from_str(path.substring_char(start, len));
        proof {
            let before = texts(segs@);
            assert(texts(segs@.push(piece)) =~= before.push(piece@));
            assert(before.push(piece@) =~= before + seq![piece@]);
        }
        segs.push(piece);
    } else {
        assert(texts(segs@) + Seq::<Seq<char>>::empty() =~= texts(segs@));
    }
    segs
}

/// Joins a name to the path of its parent.
pub fn join_path(parent: &str, name: &str) -> (path: String)
    ensures
        path@ == join(parent@, name@),
{
    let mut path = String::from_str(parent);
    let len = parent.unicode_len();
    if len > 0 {
        if parent.get_char(len - 1) != '/' {
            proof {
                reveal_strlit("/");
            }
            path.append("/");
            assert(path@ =~= parent@.push('/'));
        }
    }
    path.append(name);
    path
}

/// Where the final name begins in a path given by its characters.
pub fn name_start_of(chars: &Vec<char>) -> (k: usize)
    ensures
        k == name_start(chars@),
        k <= chars@.len(),
{
    let mut k: usize = chars.len();
    proof {
        assert(chars@.take(chars@.len() as int) =~= chars@);
    }
    while k > 0 && chars[k - 1] != '/'
        invariant
            k <= chars@.len(),
            name_start(chars@) == name_start(chars@.take(k as int)),
        decreases k,
    {
        proof {
            assert(chars@.take(k as int).drop_last() =~= chars@.take(k - 1));
        }
        k -= 1;
    }
    k
}

/// Whether the final name of `a` comes strictly before that of `b`.
pub fn name_less(a: &str, b: &str) -> (less: bool)
    ensures
        less == lex_lt(name_of(a@), name_of(b@)),
{
    let ca = to_chars(a);
    let cb = to_chars(b);
    let sa = name_start_of(&ca);
    let sb = name_start_of(&cb);
    let la = ca.len() - sa;
    let lb = cb.len() - sb;
    let ghost na = name_of(a@);
    let ghost nb = name_of(b@);
    let mut i: usize = 0;
    loop
        invariant
            ca@ == a@,
            cb@ == b@,
            sa == name_start(a@),
            sb == name_start(b@),
            sa + la == ca@.len(),
            sb + lb == cb@.len(),
            ca@.len() <= usize::MAX,
            cb@.len() <= usize::MAX,
            na == name_of(a@),
            nb == name_of(b@),
            i <= la,
            i <= lb,
            lex_lt(na, nb) == lex_lt_from(na, nb, i as int),
        decreases la - i,
    {
        if i >= lb {
            return false;
        }
        if i >= la {
            return true;
        }
        let x = ca[sa + i];
        let y = cb[sb + i];
        if x != y {
            return x < y;
        }
        i += 1;
    }
}

/// Whether `target`, given by its characters, is `prefix` or lies under it.
pub fn path_starts_with(target: &Vec<char>, prefix: &str) -> (under: bool)
    ensures
        under == is_path_prefix(prefix@, target@),
{
    let p = to_chars(prefix);
    let n = p.len();
    if n > target.len() {
        return false;
    }
    let mut i: usize = 0;
    while i < n
        invariant
            p@ == prefix@,
            n == p@.len(),
            n <= target@.len(),
            i <= n,
            target@.take(i as int) == p@.take(i as int),
        decreases n - i,
    {
        if target[i] != p[i] {
            proof {
                assert(target@.take(n as int)[i as int] != p@[i as int]);
            }
            return false;
        }
        proof {
            assert(target@.take(i + 1) =~= target@.take(i as int).push(target@[i as int]));
            assert(p@.take(i + 1) =~= p@.take(i as int).push(p@[i as int]));
        }
        i += 1;
    }
    proof {
        assert(p@.take(n as int) =~= p@);
    }
    n == target.len() || target[n] == '/'
}

} // verus!
