use vstd::prelude::*;
use crate::dicom::TagView;
use crate::tree::lemma_node_paths_len;
use crate::tree::lemma_paths_len;
use crate::tree::lemma_paths_split;
use crate::tree::locate;
use crate::tree::node_at;
use crate::tree::node_paths;
use crate::tree::prefixed;
use crate::tree::project;
use crate::tree::project_node;
use crate::tree::reachable;
use crate::tree::valid_path;
use crate::tree::visible_paths;

verus! {

/// The row at which the node of a reachable path is displayed: the rows of
/// the roots before its root come first, then its root, then, below the
/// root, the rows before it among the root's children.
pub open spec fn position(f: Seq<TagView>, path: Seq<int>) -> int
    decreases path.len(),
{
    if path.len() == 0 {
        0
    } else if path.len() == 1 {
        project(f.take(path[0])).len() as int
    } else {
        project(f.take(path[0])).len() + 1 + position(f[path[0]].children, path.drop_first())
    }
}

/// The paths of the nodes that are on display.
pub open spec fn reachable_paths(f: Seq<TagView>) -> Set<Seq<int>> {
    Set::new(|p: Seq<int>| reachable(f, p))
}

/// A reachable path leads to a node.
pub proof fn lemma_reachable_is_valid(f: Seq<TagView>, path: Seq<int>)
    requires
        reachable(f, path),
    ensures
        valid_path(f, path),
    decreases path.len(),
{
    if path.len() > 1 {
        lemma_reachable_is_valid(f[path[0]].children, path.drop_first());
    }
}

/// The node of a reachable path is displayed at its position, under its path.
pub proof fn lemma_position_of_reachable(f: Seq<TagView>, path: Seq<int>)
    requires
        reachable(f, path),
    ensures
        0 <= position(f, path) < visible_paths(f).len(),
        visible_paths(f)[position(f, path)] == path,
    decreases path.len(),
{
    let i = path[0];
    lemma_paths_split(f, i);
    lemma_paths_len(f.take(i), 0);
    lemma_node_paths_len(f[i], i);
    if path.len() == 1 {
        assert(path =~= seq![i]);
    } else {
        let rest = path.drop_first();
        lemma_position_of_reachable(f[i].children, rest);
        let k = position(f[i].children, rest);
        assert(node_paths(f[i], i)[1 + k] == prefixed(i, visible_paths(f[i].children))[k]);
        assert(seq![i] + rest =~= path);
    }
}

/// Each row's path is reachable and leads to the node that the row shows,
/// and the row is the position of its path.
pub proof fn lemma_row_paths(f: Seq<TagView>, k: int)
    requires
        0 <= k < visible_paths(f).len(),
    ensures
        reachable(f, visible_paths(f)[k]),
        position(f, visible_paths(f)[k]) == k,
        visible_paths(f).len() == project(f).len(),
        node_at(f, visible_paths(f)[k]) == project(f)[k],
    decreases f,
{
    lemma_paths_len(f, 0);
    let n = f.len() as int;
    let front = f.drop_last();
    let t = f.last();
    lemma_paths_len(front, 0);
    lemma_node_paths_len(t, n - 1);
    let q = visible_paths(f)[k];
    if k < visible_paths(front).len() {
        lemma_row_paths(front, k);
        assert(q == visible_paths(front)[k]);
        lemma_transfer_from_front(f, q);
    } else {
        let j = k - visible_paths(front).len();
        assert(q == node_paths(t, n - 1)[j]);
        assert(f.take(n - 1) =~= front);
        if j == 0 {
            assert(q =~= seq![n - 1]);
            assert(project(f)[k] == project_node(t)[0]);
        } else {
            lemma_paths_len(t.children, 0);
            let sub = visible_paths(t.children)[j - 1];
            lemma_row_paths(t.children, j - 1);
            assert(q == prefixed(n - 1, visible_paths(t.children))[j - 1]);
            assert(q.drop_first() =~= sub);
            assert(project(f)[k] == project_node(t)[j]);
            assert(project_node(t)[j] == project(t.children)[j - 1]);
        }
    }
}

/// A path that is reachable in a forest without its last root is reachable
/// in the forest, at the same position and with the same node.
proof fn lemma_transfer_from_front(f: Seq<TagView>, q: Seq<int>)
    requires
        f.len() > 0,
        reachable(f.drop_last(), q),
    ensures
        reachable(f, q),
        position(f, q) == position(f.drop_last(), q),
        node_at(f, q) == node_at(f.drop_last(), q),
{
    let front = f.drop_last();
    assert(front[q[0]] == f[q[0]]);
    assert(front.take(q[0]) =~= f.take(q[0]));
}

/// Two rows never share a path.
pub proof fn lemma_paths_distinct(f: Seq<TagView>)
    ensures
        visible_paths(f).no_duplicates(),
{
    assert forall|a: int, b: int|
        0 <= a < visible_paths(f).len() && 0 <= b < visible_paths(f).len() && a != b implies visible_paths(
        f,
    )[a] != visible_paths(f)[b] by {
        lemma_row_paths(f, a);
        lemma_row_paths(f, b);
    }
}

/// The rows of a forest are exactly the nodes that can be reached from the
/// roots through nodes that show their children: there is one row for each
/// such node, so the number of rows is the number of such nodes.
pub proof fn lemma_rows_are_reachable_nodes(f: Seq<TagView>)
    ensures
        visible_paths(f).to_set() == reachable_paths(f),
        visible_paths(f).no_duplicates(),
        reachable_paths(f).finite(),
        project(f).len() == reachable_paths(f).len(),
{
    let vp = visible_paths(f);
    lemma_paths_distinct(f);
    lemma_paths_len(f, 0);
    assert forall|p: Seq<int>| vp.to_set().contains(p) <==> reachable_paths(f).contains(p) by {
        if vp.to_set().contains(p) {
            let k = choose|k: int| 0 <= k < vp.len() && vp[k] == p;
            lemma_row_paths(f, k);
        }
        if reachable(f, p) {
            lemma_position_of_reachable(f, p);
            assert(vp.contains(p));
        }
    }
    assert(vp.to_set() =~= reachable_paths(f));
    vp.unique_seq_to_set();
    vstd::seq_lib::seq_to_set_is_finite(vp);
}

/// The path found for a row leads to the node that the row shows; for an
/// index that is no row the path is empty.
pub proof fn lemma_locate(f: Seq<TagView>, index: int)
    ensures
        0 <= index < project(f).len() ==> reachable(f, locate(f, index)) && node_at(
            f,
            locate(f, index),
        ) == project(f)[index] && position(f, locate(f, index)) == index,
        !(0 <= index < project(f).len()) ==> locate(f, index) == Seq::<int>::empty(),
{
    lemma_paths_len(f, 0);
    if 0 <= index < project(f).len() {
        lemma_row_paths(f, index);
    }
}

} // verus!
