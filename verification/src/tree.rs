use vstd::prelude::*;
use crate::dicom::TagView;

verus! {

/// A node whose children are on display: it is expanded and has children.
pub open spec fn shows_children(t: TagView) -> bool {
    t.is_expanded && t.children.len() > 0
}

/// A node with another expansion flag.
pub open spec fn with_expanded(t: TagView, value: bool) -> TagView {
    TagView { is_expanded: value, ..t }
}

/// A node with other children.
pub open spec fn with_children(t: TagView, children: Seq<TagView>) -> TagView {
    TagView { children: children, ..t }
}

/// A node is well formed at a depth: it stands at that depth, it counts as
/// expandable exactly if it has children, it is expanded only if it is
/// expandable, and its children are well formed one level below.
pub open spec fn node_wf(t: TagView, depth: int) -> bool
    decreases t,
{
    &&& t.depth == depth
    &&& t.is_expandable == (t.children.len() > 0)
    &&& (t.is_expanded ==> t.is_expandable)
    &&& forall|i: int| 0 <= i < t.children.len() ==> node_wf(#[trigger] t.children[i], depth + 1)
}

/// Every node of a forest is well formed, the roots standing at `depth`.
pub open spec fn forest_wf(f: Seq<TagView>, depth: int) -> bool {
    forall|i: int| 0 <= i < f.len() ==> node_wf(#[trigger] f[i], depth)
}

/// The rows that a node contributes to the display: itself, then, if its
/// children are shown, their rows.
pub open spec fn project_node(t: TagView) -> Seq<TagView>
    decreases t,
{
    if shows_children(t) {
        seq![t] + project(t.children)
    } else {
        seq![t]
    }
}

/// The displayed rows of a forest: its nodes in depth-first pre-order, going
/// below a node only where its children are shown.
pub open spec fn project(f: Seq<TagView>) -> Seq<TagView>
    decreases f,
{
    if f.len() == 0 {
        Seq::empty()
    } else {
        project(f.drop_last()) + project_node(f.last())
    }
}

/// Each path of `paths` with the index `i` put in front.
pub open spec fn prefixed(i: int, paths: Seq<Seq<int>>) -> Seq<Seq<int>> {
    Seq::new(paths.len(), |k: int| seq![i] + paths[k])
}

/// The paths of the rows that the node at root position `i` contributes.
pub open spec fn node_paths(t: TagView, i: int) -> Seq<Seq<int>>
    decreases t,
{
    if shows_children(t) {
        seq![seq![i]] + prefixed(i, paths_from(t.children, 0))
    } else {
        seq![seq![i]]
    }
}

/// The paths of the displayed rows of `f`, in display order, where the roots
/// of `f` are numbered from `first` on.
pub open spec fn paths_from(f: Seq<TagView>, first: int) -> Seq<Seq<int>>
    decreases f,
{
    if f.len() == 0 {
        Seq::empty()
    } else {
        paths_from(f.drop_last(), first) + node_paths(f.last(), first + f.len() - 1)
    }
}

/// The path of each displayed row: the child indices that lead from a root to
/// the row's node.
pub open spec fn visible_paths(f: Seq<TagView>) -> Seq<Seq<int>> {
    paths_from(f, 0)
}

/// The path of the row at `index`, or the empty path where there is no such row.
pub open spec fn locate(f: Seq<TagView>, index: int) -> Seq<int> {
    if 0 <= index < visible_paths(f).len() {
        visible_paths(f)[index]
    } else {
        Seq::empty()
    }
}

/// `path` leads to a node of `f`.
pub open spec fn valid_path(f: Seq<TagView>, path: Seq<int>) -> bool
    decreases path.len(),
{
    &&& path.len() > 0
    &&& 0 <= path[0] < f.len()
    &&& (path.len() == 1 || valid_path(f[path[0]].children, path.drop_first()))
}

/// The node that a valid path leads to.
pub open spec fn node_at(f: Seq<TagView>, path: Seq<int>) -> TagView
    recommends
        valid_path(f, path),
    decreases path.len(),
{
    if path.len() <= 1 {
        f[path[0]]
    } else {
        node_at(f[path[0]].children, path.drop_first())
    }
}

/// `path` leads to a node, and every node above it on the way shows its
/// children: the node is on display.
pub open spec fn reachable(f: Seq<TagView>, path: Seq<int>) -> bool
    decreases path.len(),
{
    &&& path.len() > 0
    &&& 0 <= path[0] < f.len()
    &&& (path.len() == 1 || (shows_children(f[path[0]]) && reachable(
        f[path[0]].children,
        path.drop_first(),
    )))
}

/// The forest with the expansion flag of the node at `path` set to `value`;
/// the forest itself where the path leads nowhere.
pub open spec fn set_expanded(f: Seq<TagView>, path: Seq<int>, value: bool) -> Seq<TagView>
    decreases path.len(),
{
    if path.len() == 0 || !(0 <= path[0] < f.len()) {
        f
    } else if path.len() == 1 {
        f.update(path[0], with_expanded(f[path[0]], value))
    } else {
        f.update(
            path[0],
            with_children(f[path[0]], set_expanded(f[path[0]].children, path.drop_first(), value)),
        )
    }
}

/// A path of machine indices as a path of integers.
pub open spec fn path_view(p: Seq<usize>) -> Seq<int> {
    Seq::new(p.len(), |i: int| p[i] as int)
}

/// The rows of the first `i + 1` roots are those of the first `i`, then those
/// of root `i`.
pub proof fn lemma_project_take(f: Seq<TagView>, i: int)
    requires
        0 <= i < f.len(),
    ensures
        project(f.take(i + 1)) == project(f.take(i)) + project_node(f[i]),
{
    assert(f.take(i + 1).drop_last() =~= f.take(i));
}

/// The same for paths, with the roots numbered from `first` on.
pub proof fn lemma_paths_concat(a: Seq<TagView>, b: Seq<TagView>, first: int)
    ensures
        paths_from(a + b, first) == paths_from(a, first) + paths_from(b, first + a.len()),
    decreases b.len(),
{
    if b.len() == 0 {
        assert(a + b =~= a);
        assert(paths_from(a, first) + paths_from(b, first + a.len()) =~= paths_from(a, first));
    } else {
        lemma_paths_concat(a, b.drop_last(), first);
        assert((a + b).drop_last() =~= a + b.drop_last());
        assert((a + b).last() == b.last());
        assert(paths_from(a + b, first) =~= paths_from(a, first) + paths_from(
            b,
            first + a.len(),
        ));
    }
}

/// The paths of a forest of one node.
pub proof fn lemma_paths_single(t: TagView, first: int)
    ensures
        paths_from(seq![t], first) == node_paths(t, first),
{
    assert(seq![t].drop_last() =~= Seq::<TagView>::empty());
    assert(paths_from(Seq::<TagView>::empty(), first) =~= Seq::empty());
    assert(paths_from(seq![t], first) =~= node_paths(t, first));
}

/// The paths of a forest, split at root `i`: those of the roots before it,
/// those of the root, those of the roots after it.
pub proof fn lemma_paths_split(f: Seq<TagView>, i: int)
    requires
        0 <= i < f.len(),
    ensures
        visible_paths(f) == paths_from(f.take(i), 0) + node_paths(f[i], i) + paths_from(
            f.skip(i + 1),
            i + 1,
        ),
{
    assert(f =~= (f.take(i) + seq![f[i]]) + f.skip(i + 1));
    lemma_paths_concat(f.take(i) + seq![f[i]], f.skip(i + 1), 0);
    lemma_paths_concat(f.take(i), seq![f[i]], 0);
    lemma_paths_single(f[i], i);
}

/// There are as many paths as rows, for a node and for a forest.
pub proof fn lemma_paths_len(f: Seq<TagView>, first: int)
    ensures
        paths_from(f, first).len() == project(f).len(),
    decreases f,
{
    if f.len() > 0 {
        lemma_paths_len(f.drop_last(), first);
        lemma_node_paths_len(f.last(), first + f.len() - 1);
    }
}

/// There are as many paths as rows for one node.
pub proof fn lemma_node_paths_len(t: TagView, i: int)
    ensures
        node_paths(t, i).len() == project_node(t).len(),
    decreases t,
{
    if shows_children(t) {
        lemma_paths_len(t.children, 0);
    }
}

/// The position of the first root at or after `from` whose identifier is
/// `id`.
pub open spec fn find_root_from(f: Seq<TagView>, id: Seq<char>, from: int) -> Option<int>
    decreases f.len() - from,
{
    if from < 0 || from >= f.len() {
        None
    } else if f[from].tag == id {
        Some(from)
    } else {
        find_root_from(f, id, from + 1)
    }
}

/// The position of the first root whose identifier is `id`.
pub open spec fn find_root(f: Seq<TagView>, id: Seq<char>) -> Option<int> {
    find_root_from(f, id, 0)
}

/// What `find_root_from` finds is a root with the identifier, and no root
/// between `from` and it has the identifier; where it finds none, none has.
pub proof fn lemma_find_root_from(f: Seq<TagView>, id: Seq<char>, from: int)
    requires
        0 <= from,
    ensures
        match find_root_from(f, id, from) {
            Some(i) => from <= i < f.len() && f[i].tag == id && forall|j: int|
                from <= j < i ==> f[j].tag != id,
            None => forall|j: int| from <= j < f.len() ==> f[j].tag != id,
        },
    decreases f.len() - from,
{
    if from < f.len() && f[from].tag != id {
        lemma_find_root_from(f, id, from + 1);
    }
}

} // verus!
