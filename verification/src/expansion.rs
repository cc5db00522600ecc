use vstd::prelude::*;
use crate::dicom::TagView;
use crate::paths::lemma_position_of_reachable;
use crate::paths::lemma_reachable_is_valid;
use crate::paths::lemma_row_paths;
use crate::paths::position;
use crate::seqs::lemma_filter_all;
use crate::seqs::lemma_filter_none;
use crate::tree::forest_wf;
use crate::tree::lemma_paths_len;
use crate::tree::lemma_paths_split;
use crate::tree::node_at;
use crate::tree::node_paths;
use crate::tree::node_wf;
use crate::tree::paths_from;
use crate::tree::prefixed;
use crate::tree::project;
use crate::tree::reachable;
use crate::tree::set_expanded;
use crate::tree::shows_children;
use crate::tree::valid_path;
use crate::tree::visible_paths;
use crate::tree::with_expanded;

verus! {

/// `q` leads below the node of `p`: it is longer than `p` and begins with it.
pub open spec fn is_below(p: Seq<int>, q: Seq<int>) -> bool {
    p.len() < q.len() && q.take(p.len() as int) == p
}

/// The test "this path does not lead below the node of `p`".
pub open spec fn not_below(p: Seq<int>) -> spec_fn(Seq<int>) -> bool {
    |q: Seq<int>| !is_below(p, q)
}

/// Two nodes make the same row: they agree in all but their children.
pub open spec fn same_row(a: TagView, b: TagView) -> bool {
    &&& a.tag == b.tag
    &&& a.name == b.name
    &&& a.vr == b.vr
    &&& a.value == b.value
    &&& a.baseline_value == b.baseline_value
    &&& a.depth == b.depth
    &&& a.is_expandable == b.is_expandable
    &&& a.is_expanded == b.is_expanded
    &&& a.children.len() == b.children.len()
    &&& a.diff_status == b.diff_status
}

/// Setting a flag leaves the number of roots as it is.
pub proof fn lemma_set_expanded_len(f: Seq<TagView>, path: Seq<int>, value: bool)
    ensures
        set_expanded(f, path, value).len() == f.len(),
{
}

/// Setting the flag of one node changes that flag and nothing else: every
/// path leads to a node afterwards if it did before, to the node with the
/// new flag at the path itself, and elsewhere to a node that makes the same
/// row as before.
pub proof fn lemma_set_expanded_nodes(f: Seq<TagView>, path: Seq<int>, value: bool, q: Seq<int>)
    requires
        valid_path(f, q),
    ensures
        valid_path(set_expanded(f, path, value), q),
        q == path ==> node_at(set_expanded(f, path, value), q) == with_expanded(
            node_at(f, q),
            value,
        ),
        q != path ==> same_row(node_at(set_expanded(f, path, value), q), node_at(f, q)),
    decreases q.len(),
{
    let g = set_expanded(f, path, value);
    if path.len() == 0 || !(0 <= path[0] < f.len()) {
    } else if q[0] != path[0] {
        assert(g[q[0]] == f[q[0]]);
        lemma_same_children_same_node(g, f, q);
    } else if path.len() == 1 {
        if q.len() == 1 {
            assert(q =~= path);
        } else {
            assert(g[q[0]].children == f[q[0]].children);
            lemma_same_children_same_node(g, f, q);
        }
    } else {
        if q.len() == 1 {
            lemma_set_expanded_len(f[q[0]].children, path.drop_first(), value);
        } else {
            lemma_set_expanded_nodes(f[q[0]].children, path.drop_first(), value, q.drop_first());
            if q.drop_first() == path.drop_first() {
                assert(q =~= seq![q[0]] + q.drop_first());
                assert(path =~= seq![path[0]] + path.drop_first());
            }
        }
    }
}

/// Where two forests hold, at the first index of a path, nodes with the
/// same children or, for a path of one index, the same node, the path leads
/// to the same node in both.
proof fn lemma_same_children_same_node(g: Seq<TagView>, f: Seq<TagView>, q: Seq<int>)
    requires
        valid_path(f, q),
        g.len() == f.len(),
        q.len() == 1 ==> g[q[0]] == f[q[0]],
        q.len() > 1 ==> g[q[0]].children == f[q[0]].children,
    ensures
        valid_path(g, q),
        node_at(g, q) == node_at(f, q),
{
}

/// Expanding a collapsed node and collapsing it again gives back the forest,
/// and with it the rows.
pub proof fn lemma_expand_collapse_round_trip(f: Seq<TagView>, path: Seq<int>)
    requires
        valid_path(f, path),
        !node_at(f, path).is_expanded,
    ensures
        set_expanded(set_expanded(f, path, true), path, false) == f,
        project(set_expanded(set_expanded(f, path, true), path, false)) == project(f),
    decreases path.len(),
{
    let i = path[0];
    let g = set_expanded(f, path, true);
    if path.len() > 1 {
        lemma_expand_collapse_round_trip(f[i].children, path.drop_first());
    }
    assert(set_expanded(g, path, false) =~= f);
}

/// Every path among those of a forest whose roots are numbered from
/// `first` on begins with the number of one of these roots.
pub proof fn lemma_paths_begin(f: Seq<TagView>, first: int, k: int)
    requires
        0 <= k < paths_from(f, first).len(),
    ensures
        paths_from(f, first)[k].len() > 0,
        first <= paths_from(f, first)[k][0] < first + f.len(),
    decreases f.len(),
{
    let front = f.drop_last();
    let t = f.last();
    let i = first + f.len() - 1;
    let q = paths_from(f, first)[k];
    assert(paths_from(f, first) == paths_from(front, first) + node_paths(t, i));
    if k < paths_from(front, first).len() {
        lemma_paths_begin(front, first, k);
        assert(q == paths_from(front, first)[k]);
    } else {
        let j = k - paths_from(front, first).len();
        assert(q == node_paths(t, i)[j]);
        if j > 0 {
            assert(node_paths(t, i) == seq![seq![i]] + prefixed(i, paths_from(t.children, 0)));
            assert(q == prefixed(i, paths_from(t.children, 0))[j - 1]);
            assert(q == seq![i] + paths_from(t.children, 0)[j - 1]);
        } else {
            assert(node_paths(t, i)[0] == seq![i]);
        }
    }
}

/// With one index in front of both, a path leads below another exactly if
/// it did before.
pub proof fn lemma_below_prefixed(i: int, rest: Seq<int>, q: Seq<int>)
    ensures
        is_below(seq![i] + rest, seq![i] + q) == is_below(rest, q),
{
    let p = seq![i] + rest;
    if rest.len() < q.len() {
        assert((seq![i] + q).take(p.len() as int) =~= seq![i] + q.take(rest.len() as int));
        assert((seq![i] + q.take(rest.len() as int)).drop_first() =~= q.take(rest.len() as int));
        assert(p.drop_first() =~= rest);
    }
}

/// Putting an index in front of each path commutes with dropping the paths
/// below a node.
proof fn lemma_prefixed_filter(i: int, paths: Seq<Seq<int>>, rest: Seq<int>)
    ensures
        prefixed(i, paths).filter(not_below(seq![i] + rest)) == prefixed(
            i,
            paths.filter(not_below(rest)),
        ),
    decreases paths.len(),
{
    reveal(Seq::filter);
    let p = seq![i] + rest;
    if paths.len() == 0 {
        assert(prefixed(i, paths) =~= Seq::<Seq<int>>::empty());
        assert(prefixed(i, paths.filter(not_below(rest))) =~= Seq::<Seq<int>>::empty());
    } else {
        let q = paths.last();
        lemma_prefixed_filter(i, paths.drop_last(), rest);
        assert(prefixed(i, paths).drop_last() =~= prefixed(i, paths.drop_last()));
        assert(prefixed(i, paths).last() == seq![i] + q);
        lemma_below_prefixed(i, rest, q);
        if !is_below(rest, q) {
            assert(prefixed(i, paths.drop_last().filter(not_below(rest)).push(q)) =~= prefixed(
                i,
                paths.drop_last().filter(not_below(rest)),
            ).push(seq![i] + q));
        }
    }
}

/// Collapsing a node takes from the rows all those, and only those, that
/// lie below the node, and leaves the others in their order.
pub proof fn lemma_collapse_removes_descendants(f: Seq<TagView>, path: Seq<int>)
    requires
        valid_path(f, path),
    ensures
        visible_paths(set_expanded(f, path, false)) == visible_paths(f).filter(not_below(path)),
    decreases path.len(),
{
    let i = path[0];
    let g = set_expanded(f, path, false);
    let pred = not_below(path);
    let t = f[i];
    let u = g[i];
    lemma_paths_split(f, i);
    lemma_paths_split(g, i);
    assert(g.take(i) =~= f.take(i));
    assert(g.skip(i + 1) =~= f.skip(i + 1));
    let a = paths_from(f.take(i), 0);
    let c = paths_from(f.skip(i + 1), i + 1);
    assert forall|k: int| 0 <= k < a.len() implies pred(#[trigger] a[k]) by {
        lemma_paths_begin(f.take(i), 0, k);
        if is_below(path, a[k]) {
            assert(a[k].take(path.len() as int)[0] == path[0]);
        }
    }
    assert forall|k: int| 0 <= k < c.len() implies pred(#[trigger] c[k]) by {
        lemma_paths_begin(f.skip(i + 1), i + 1, k);
        if is_below(path, c[k]) {
            assert(c[k].take(path.len() as int)[0] == path[0]);
        }
    }
    lemma_filter_all(a, pred);
    lemma_filter_all(c, pred);
    assert(pred(seq![i])) by {
        if is_below(path, seq![i]) {
        }
    }
    assert(node_paths(t, i).filter(pred) == node_paths(u, i)) by {
        let below = prefixed(i, paths_from(t.children, 0));
        let head = seq![seq![i]];
        lemma_filter_all(head, pred);
        if path.len() == 1 {
            assert(path =~= seq![i]);
            assert forall|k: int| 0 <= k < below.len() implies !pred(#[trigger] below[k]) by {
                lemma_paths_begin(t.children, 0, k);
                assert(below[k] == seq![i] + paths_from(t.children, 0)[k]);
                assert(below[k].take(1) =~= seq![i]);
            }
            lemma_filter_none(below, pred);
            Seq::filter_distributes_over_add(head, below, pred);
            assert(head + Seq::<Seq<int>>::empty() =~= head);
        } else {
            let rest = path.drop_first();
            assert(path =~= seq![i] + rest);
            lemma_collapse_removes_descendants(t.children, rest);
            lemma_set_expanded_len(t.children, rest, false);
            lemma_prefixed_filter(i, paths_from(t.children, 0), rest);
            Seq::filter_distributes_over_add(head, below, pred);
        }
    }
    Seq::filter_distributes_over_add(a + node_paths(t, i), c, pred);
    Seq::filter_distributes_over_add(a, node_paths(t, i), pred);
}

/// The rows below a node come after the node's own row.
pub proof fn lemma_descendants_follow(f: Seq<TagView>, p: Seq<int>, q: Seq<int>)
    requires
        reachable(f, q),
        is_below(p, q),
        p.len() > 0,
    ensures
        reachable(f, p),
        shows_children(node_at(f, p)),
        position(f, p) < position(f, q),
    decreases p.len(),
{
    assert(q.take(p.len() as int)[0] == q[0]);
    lemma_position_of_reachable(f[q[0]].children, q.drop_first());
    if p.len() > 1 {
        assert(q.drop_first().take(p.len() - 1) =~= p.drop_first()) by {
            assert(q.take(p.len() as int).drop_first() =~= q.drop_first().take(p.len() - 1));
        }
        lemma_descendants_follow(f[q[0]].children, p.drop_first(), q.drop_first());
    }
}

/// Collapsing the node of a row leaves that row and all rows before it in
/// place.
pub proof fn lemma_collapse_keeps_rows_before(f: Seq<TagView>, k: int)
    requires
        0 <= k < visible_paths(f).len(),
    ensures
        k < visible_paths(set_expanded(f, visible_paths(f)[k], false)).len(),
        visible_paths(set_expanded(f, visible_paths(f)[k], false)).take(k + 1) == visible_paths(
            f,
        ).take(k + 1),
{
    let vp = visible_paths(f);
    let p = vp[k];
    let pred = not_below(p);
    lemma_row_paths(f, k);
    lemma_reachable_is_valid(f, p);
    lemma_collapse_removes_descendants(f, p);
    let front = vp.take(k + 1);
    let back = vp.skip(k + 1);
    assert(vp =~= front + back);
    assert forall|j: int| 0 <= j < front.len() implies pred(#[trigger] front[j]) by {
        if is_below(p, front[j]) {
            lemma_row_paths(f, j);
            lemma_descendants_follow(f, p, vp[j]);
        }
    }
    lemma_filter_all(front, pred);
    Seq::filter_distributes_over_add(front, back, pred);
    assert((front + back.filter(pred)).take(k + 1) =~= front);
}

/// Setting the flag of a node keeps a forest well formed, provided that a
/// node that is set to expanded is expandable.
pub proof fn lemma_set_expanded_wf(f: Seq<TagView>, path: Seq<int>, value: bool, depth: int)
    requires
        forest_wf(f, depth),
        value && valid_path(f, path) ==> node_at(f, path).is_expandable,
    ensures
        forest_wf(set_expanded(f, path, value), depth),
    decreases path.len(),
{
    let g = set_expanded(f, path, value);
    if path.len() == 0 || !(0 <= path[0] < f.len()) {
    } else {
        let i = path[0];
        assert(node_wf(f[i], depth));
        if path.len() > 1 {
            let c = f[i].children;
            assert(forest_wf(c, depth + 1)) by {
                assert forall|k: int| 0 <= k < c.len() implies node_wf(#[trigger] c[k], depth + 1) by {}
            }
            lemma_set_expanded_wf(c, path.drop_first(), value, depth + 1);
            lemma_set_expanded_len(c, path.drop_first(), value);
        }
        assert forall|k: int| 0 <= k < g.len() implies node_wf(#[trigger] g[k], depth) by {
            if k != i {
                assert(g[k] == f[k]);
            }
        }
    }
}

/// In a well-formed forest the node of a valid path stands at the depth of
/// the roots plus the number of steps below them.
pub proof fn lemma_depth_of_node(f: Seq<TagView>, path: Seq<int>, depth: int)
    requires
        forest_wf(f, depth),
        valid_path(f, path),
    ensures
        node_wf(node_at(f, path), depth + path.len() - 1),
    decreases path.len(),
{
    assert(node_wf(f[path[0]], depth));
    if path.len() > 1 {
        let c = f[path[0]].children;
        assert forall|k: int| 0 <= k < c.len() implies node_wf(#[trigger] c[k], depth + 1) by {}
        lemma_depth_of_node(c, path.drop_first(), depth + 1);
    }
}

/// The rows after a node has been collapsed: the rows from before without
/// those below the node, in their order, each showing what it showed before;
/// only the row of the node itself now shows the node as collapsed.
pub proof fn lemma_collapse_rows(f: Seq<TagView>, path: Seq<int>)
    requires
        valid_path(f, path),
    ensures
        ({
            let g = set_expanded(f, path, false);
            let kept = visible_paths(f).filter(not_below(path));
            &&& visible_paths(g) == kept
            &&& project(g).len() == kept.len()
            &&& forall|k: int|
                0 <= k < kept.len() ==> if kept[k] == path {
                    #[trigger] project(g)[k] == with_expanded(node_at(f, path), false)
                } else {
                    same_row(project(g)[k], node_at(f, kept[k]))
                }
        }),
{
    let g = set_expanded(f, path, false);
    let kept = visible_paths(f).filter(not_below(path));
    lemma_collapse_removes_descendants(f, path);
    lemma_paths_len(g, 0);
    assert forall|k: int| 0 <= k < kept.len() implies if kept[k] == path {
        #[trigger] project(g)[k] == with_expanded(node_at(f, path), false)
    } else {
        same_row(project(g)[k], node_at(f, kept[k]))
    } by {
        lemma_row_paths(g, k);
        assert(kept.contains(kept[k]));
        visible_paths(f).lemma_filter_contains_rev(not_below(path), kept[k]);
        let j = choose|j: int| 0 <= j < visible_paths(f).len() && visible_paths(f)[j] == kept[k];
        lemma_row_paths(f, j);
        lemma_reachable_is_valid(f, kept[k]);
        lemma_set_expanded_nodes(f, path, false, kept[k]);
    }
}

/// A node with every expansion flag in it cleared.
pub open spec fn collapsed(t: TagView) -> TagView
    decreases t,
{
    TagView {
        is_expanded: false,
        children: Seq::new(
            t.children.len(),
            |i: int|
                if 0 <= i < t.children.len() {
                    collapsed(t.children[i])
                } else {
                    arbitrary()
                },
        ),
        ..t
    }
}

/// A forest with every expansion flag in it cleared: what the forest is
/// apart from its expansion state.
pub open spec fn collapsed_forest(f: Seq<TagView>) -> Seq<TagView> {
    Seq::new(f.len(), |i: int| collapsed(f[i]))
}

/// Setting an expansion flag changes nothing else in a forest: no node is
/// added, removed or altered.
pub proof fn lemma_set_expanded_keeps_structure(f: Seq<TagView>, path: Seq<int>, value: bool)
    ensures
        collapsed_forest(set_expanded(f, path, value)) == collapsed_forest(f),
    decreases path.len(),
{
    let g = set_expanded(f, path, value);
    if path.len() == 0 || !(0 <= path[0] < f.len()) {
    } else {
        let i = path[0];
        if path.len() == 1 {
            assert(collapsed(g[i]).children =~= collapsed(f[i]).children);
        } else {
            let c = f[i].children;
            let d = set_expanded(c, path.drop_first(), value);
            lemma_set_expanded_keeps_structure(c, path.drop_first(), value);
            assert forall|k: int| 0 <= k < c.len() implies collapsed(d[k]) == collapsed(c[k]) by {
                assert(collapsed_forest(d)[k] == collapsed_forest(c)[k]);
            }
            assert(d.len() == c.len()) by {
                assert(collapsed_forest(d).len() == collapsed_forest(c).len());
            }
            assert(collapsed(g[i]).children =~= collapsed(f[i]).children);
        }
        assert(collapsed(g[i]) == collapsed(f[i]));
        assert forall|k: int| 0 <= k < f.len() implies collapsed(g[k]) == collapsed(f[k]) by {
            if k != i {
                assert(g[k] == f[k]);
            }
        }
    }
    assert(collapsed_forest(g) =~= collapsed_forest(f));
}

/// The number of rows below the node of a path.
pub open spec fn rows_below(f: Seq<TagView>, path: Seq<int>) -> nat {
    if shows_children(node_at(f, path)) {
        project(node_at(f, path).children).len()
    } else {
        0
    }
}

/// The rows below a node on display are the rows that follow the node's
/// own row, as many as there are, and no others.
pub proof fn lemma_rows_below_follow(f: Seq<TagView>, path: Seq<int>, j: int)
    requires
        reachable(f, path),
        0 <= j < visible_paths(f).len(),
    ensures
        position(f, path) + rows_below(f, path) < visible_paths(f).len(),
        is_below(path, visible_paths(f)[j]) <==> position(f, path) < j <= position(f, path)
            + rows_below(f, path),
    decreases path.len(),
{
    let i = path[0];
    let t = f[i];
    let a = paths_from(f.take(i), 0);
    let n = node_paths(t, i);
    let c = paths_from(f.skip(i + 1), i + 1);
    let q = visible_paths(f)[j];
    lemma_paths_split(f, i);
    lemma_paths_len(f.take(i), 0);
    lemma_paths_len(t.children, 0);
    if path.len() > 1 {
        lemma_position_of_reachable(t.children, path.drop_first());
        lemma_rows_below_follow(t.children, path.drop_first(), position(t.children, path.drop_first()));
        assert(path =~= seq![i] + path.drop_first());
    } else {
        assert(path =~= seq![i]);
    }
    if j < a.len() {
        lemma_paths_begin(f.take(i), 0, j);
        assert(q == a[j]);
        if is_below(path, q) {
            assert(q.take(path.len() as int)[0] == path[0]);
        }
    } else if j >= a.len() + n.len() {
        let k = j - a.len() - n.len();
        lemma_paths_begin(f.skip(i + 1), i + 1, k);
        assert(q == c[k]);
        if is_below(path, q) {
            assert(q.take(path.len() as int)[0] == path[0]);
        }
    } else if j == a.len() {
        assert(q == n[0]);
        assert(q =~= seq![i]);
    } else {
        let k = j - a.len() - 1;
        let sub = visible_paths(t.children)[k];
        assert(q == n[k + 1]);
        assert(q == seq![i] + sub);
        if path.len() == 1 {
            lemma_paths_begin(t.children, 0, k);
            assert(q.take(1) =~= seq![i]);
        } else {
            lemma_below_prefixed(i, path.drop_first(), sub);
            lemma_rows_below_follow(t.children, path.drop_first(), k);
        }
    }
}

/// Collapsing a node on display takes away the rows that follow its own,
/// as many as lie below it, and leaves the rows before and after in place.
pub proof fn lemma_collapse_removes_block(f: Seq<TagView>, path: Seq<int>)
    requires
        reachable(f, path),
    ensures
        ({
            let k = position(f, path);
            let below = rows_below(f, path);
            let rows = visible_paths(f);
            &&& visible_paths(set_expanded(f, path, false)) == rows.take(k + 1) + rows.skip(
                k + 1 + below,
            )
            &&& project(set_expanded(f, path, false)).len() + below == project(f).len()
        }),
{
    let k = position(f, path);
    let below = rows_below(f, path);
    let rows = visible_paths(f);
    let pred = not_below(path);
    crate::paths::lemma_reachable_is_valid(f, path);
    lemma_collapse_removes_descendants(f, path);
    lemma_position_of_reachable(f, path);
    lemma_rows_below_follow(f, path, k);
    let front = rows.take(k + 1);
    let block = rows.subrange(k + 1, k + 1 + below);
    let back = rows.skip(k + 1 + below);
    assert(rows =~= front + block + back);
    assert forall|j: int| 0 <= j < front.len() implies pred(#[trigger] front[j]) by {
        lemma_rows_below_follow(f, path, j);
    }
    assert forall|j: int| 0 <= j < block.len() implies !pred(#[trigger] block[j]) by {
        lemma_rows_below_follow(f, path, k + 1 + j);
    }
    assert forall|j: int| 0 <= j < back.len() implies pred(#[trigger] back[j]) by {
        lemma_rows_below_follow(f, path, k + 1 + below + j);
    }
    lemma_filter_all(front, pred);
    lemma_filter_none(block, pred);
    lemma_filter_all(back, pred);
    Seq::filter_distributes_over_add(front + block, back, pred);
    Seq::filter_distributes_over_add(front, block, pred);
    assert(front + Seq::<Seq<int>>::empty() + back =~= front + back);
    lemma_paths_len(f, 0);
    lemma_paths_len(set_expanded(f, path, false), 0);
}

} // verus!
