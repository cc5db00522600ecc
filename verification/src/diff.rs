use vstd::prelude::*;
use crate::dicom::DicomTag;
use crate::dicom::DiffStatus;
use crate::dicom::TagView;
use crate::dicom::find_root_index;
use crate::dicom::forest_view;
use crate::dicom::lemma_children_view;
use crate::seqs::lemma_filter_none;
use crate::seqs::lemma_filter_unique;
use crate::tree::lemma_find_root_from;
use crate::seqs::lemma_filter_push;
use crate::text::lemma_lex_le_antisymmetric;
use crate::text::lemma_lex_le_reflexive;
use crate::text::lemma_lex_le_total;
use crate::text::lemma_lex_le_transitive;
use crate::text::lex_le;
use crate::text::text_le;
use crate::tree::find_root;
use crate::tree::forest_wf;
use crate::tree::node_wf;

verus! {

/// A node with a diff status and a baseline value.
pub open spec fn marked(t: TagView, status: DiffStatus, baseline: Option<Seq<char>>) -> TagView {
    TagView { diff_status: Some(status), baseline_value: baseline, ..t }
}

/// A root of the modified record, annotated against the baseline `a`:
/// added where the baseline has no root with its identifier; else unchanged
/// or changed, as its display value is or is not that of the first such
/// root, and where changed carrying that root's display value.
pub open spec fn annotate(a: Seq<TagView>, m: TagView) -> TagView {
    match find_root(a, m.tag) {
        None => marked(m, DiffStatus::Added, None),
        Some(i) => if a[i].value == m.value {
            marked(m, DiffStatus::Unchanged, None)
        } else {
            marked(m, DiffStatus::Changed, Some(a[i].value))
        },
    }
}

/// The roots of the modified record `b`, each annotated against `a`.
pub open spec fn annotated(a: Seq<TagView>, b: Seq<TagView>) -> Seq<TagView> {
    Seq::new(b.len(), |i: int| annotate(a, b[i]))
}

/// The test "no root of `b` has this node's identifier".
pub open spec fn unmatched_in(b: Seq<TagView>) -> spec_fn(TagView) -> bool {
    |t: TagView| find_root(b, t.tag) is None
}

/// The roots of the baseline `a` whose identifier no root of `b` has, each
/// marked as deleted.
pub open spec fn deleted(a: Seq<TagView>, b: Seq<TagView>) -> Seq<TagView> {
    a.filter(unmatched_in(b)).map_values(|t: TagView| marked(t, DiffStatus::Deleted, None))
}

/// The entries of the comparison before they are put in order: the
/// annotated roots of `b`, then the deleted roots of `a`.
pub open spec fn merged(a: Seq<TagView>, b: Seq<TagView>) -> Seq<TagView> {
    annotated(a, b) + deleted(a, b)
}

/// The identifiers of a forest's roots ascend, equal ones allowed.
pub open spec fn sorted_by_id(r: Seq<TagView>) -> bool {
    forall|i: int, j: int| 0 <= i < j < r.len() ==> lex_le(#[trigger] r[i].tag, #[trigger] r[j].tag)
}

/// The test "this node's identifier is `id`".
pub open spec fn with_id(id: Seq<char>) -> spec_fn(TagView) -> bool {
    |t: TagView| t.tag == id
}

/// For each identifier, `r` and `m` hold the same entries with that
/// identifier, in the same order.
pub open spec fn same_by_id(r: Seq<TagView>, m: Seq<TagView>) -> bool {
    forall|id: Seq<char>| #[trigger] r.filter(with_id(id)) == m.filter(with_id(id))
}

/// `r` is `m` put in ascending order of identifier, entries of one
/// identifier keeping their order.
pub open spec fn is_stable_sort(r: Seq<TagView>, m: Seq<TagView>) -> bool {
    r.len() == m.len() && sorted_by_id(r) && same_by_id(r, m)
}

/// The deleted entries among the first `n` roots of the baseline: those
/// among the first `n - 1`, then root `n - 1` marked as deleted where no
/// root of `b` has its identifier.
pub proof fn lemma_deleted_step(a: Seq<TagView>, b: Seq<TagView>, n: int)
    requires
        0 <= n <= a.len(),
    ensures
        n == 0 ==> deleted(a.take(n), b) == Seq::<TagView>::empty(),
        n > 0 ==> deleted(a.take(n), b) == if find_root(b, a[n - 1].tag) is None {
            deleted(a.take(n - 1), b).push(marked(a[n - 1], DiffStatus::Deleted, None))
        } else {
            deleted(a.take(n - 1), b)
        },
{
    reveal(Seq::filter);
    if n == 0 {
        assert(deleted(a.take(n), b) =~= Seq::<TagView>::empty());
    } else {
        assert(a.take(n).drop_last() =~= a.take(n - 1));
        assert(unmatched_in(b)(a[n - 1]) == (find_root(b, a[n - 1].tag) is None));
        if find_root(b, a[n - 1].tag) is None {
            assert(deleted(a.take(n), b) =~= deleted(a.take(n - 1), b).push(
                marked(a[n - 1], DiffStatus::Deleted, None),
            ));
        }
    }
}

/// Putting `x` into a sorted list, behind every entry whose identifier is
/// not above its own and before the others, gives the stable sort of the
/// list with `x` at its end.
pub proof fn lemma_insert_keeps_order(r: Seq<TagView>, x: TagView, pos: int)
    requires
        sorted_by_id(r),
        0 <= pos <= r.len(),
        forall|j: int| 0 <= j < pos ==> lex_le(#[trigger] r[j].tag, x.tag),
        pos < r.len() ==> !lex_le(r[pos].tag, x.tag),
    ensures
        is_stable_sort(r.insert(pos, x), r.push(x)),
{
    let out = r.insert(pos, x);
    assert forall|j: int| pos <= j < r.len() implies lex_le(x.tag, #[trigger] r[j].tag) && r[j].tag
        != x.tag by {
        lemma_lex_le_total(x.tag, r[pos].tag);
        if pos < j {
            assert(lex_le(r[pos].tag, r[j].tag));
        } else {
            lemma_lex_le_reflexive(r[pos].tag);
        }
        lemma_lex_le_transitive(x.tag, r[pos].tag, r[j].tag);
        if r[j].tag == x.tag {
            lemma_lex_le_reflexive(x.tag);
            lemma_lex_le_transitive(r[pos].tag, r[j].tag, x.tag);
        }
    }
    assert forall|i: int, j: int| 0 <= i < j < out.len() implies lex_le(
        #[trigger] out[i].tag,
        #[trigger] out[j].tag,
    ) by {
        if i < pos && j > pos {
            assert(lex_le(r[i].tag, x.tag));
            assert(lex_le(x.tag, r[j - 1].tag));
            lemma_lex_le_transitive(r[i].tag, x.tag, r[j - 1].tag);
        } else if i < pos && j < pos {
            assert(lex_le(r[i].tag, r[j].tag));
        } else if i > pos {
            assert(lex_le(r[i - 1].tag, r[j - 1].tag));
        }
    }
    assert forall|id: Seq<char>| #[trigger]
        out.filter(with_id(id)) == r.push(x).filter(with_id(id)) by {
        let pred = with_id(id);
        let front = r.take(pos);
        let back = r.skip(pos);
        assert(out =~= front + seq![x] + back);
        assert(r =~= front + back);
        assert(r.push(x) =~= front + back + seq![x]);
        Seq::filter_distributes_over_add(front + seq![x], back, pred);
        Seq::filter_distributes_over_add(front, seq![x], pred);
        Seq::filter_distributes_over_add(front + back, seq![x], pred);
        Seq::filter_distributes_over_add(front, back, pred);
        if id == x.tag {
            assert forall|i: int| 0 <= i < back.len() implies !pred(#[trigger] back[i]) by {
                assert(back[i] == r[pos + i]);
            }
            lemma_filter_none(back, pred);
            assert(out.filter(pred) =~= r.push(x).filter(pred));
        } else {
            assert(!pred(x));
            lemma_filter_none(seq![x], pred);
            assert(out.filter(pred) =~= r.push(x).filter(pred));
        }
    }
}

/// Where `r` is the stable sort of `m`, and `out` that of `r` with `x` at
/// its end, `out` is the stable sort of `m` with `x` at its end.
pub proof fn lemma_stable_sort_push(out: Seq<TagView>, r: Seq<TagView>, m: Seq<TagView>, x: TagView)
    requires
        is_stable_sort(r, m),
        is_stable_sort(out, r.push(x)),
    ensures
        is_stable_sort(out, m.push(x)),
{
    assert forall|id: Seq<char>| #[trigger]
        out.filter(with_id(id)) == m.push(x).filter(with_id(id)) by {
        lemma_filter_push(r, x, with_id(id));
        lemma_filter_push(m, x, with_id(id));
        assert(r.filter(with_id(id)) == m.filter(with_id(id)));
        assert(out.filter(with_id(id)) == r.push(x).filter(with_id(id)));
    }
}

/// The place of a new entry with the identifier `id` in a list: the first
/// position at or after `from` whose entry has an identifier above `id`, or
/// the end of the list.
pub open spec fn insert_position(r: Seq<TagView>, id: Seq<char>, from: int) -> int
    decreases r.len() - from,
{
    if from < 0 || from >= r.len() {
        r.len() as int
    } else if !lex_le(r[from].tag, id) {
        from
    } else {
        insert_position(r, id, from + 1)
    }
}

/// The place of a new entry lies behind every entry from `from` on that it
/// passes over, and before an entry with an identifier above its own.
pub proof fn lemma_insert_position(r: Seq<TagView>, id: Seq<char>, from: int)
    requires
        0 <= from <= r.len(),
    ensures
        from <= insert_position(r, id, from) <= r.len(),
        forall|j: int| from <= j < insert_position(r, id, from) ==> lex_le(#[trigger] r[j].tag, id),
        insert_position(r, id, from) < r.len() ==> !lex_le(r[insert_position(r, id, from)].tag, id),
    decreases r.len() - from,
{
    if from < r.len() && lex_le(r[from].tag, id) {
        lemma_insert_position(r, id, from + 1);
    }
}

/// Puts a node into a forest at its place: before the first entry whose
/// identifier is above its own. In a forest that is sorted by identifier
/// this keeps the order, with the node behind the entries of its own
/// identifier.
pub fn insert_sorted(forest: &mut Vec<DicomTag>, node: DicomTag)
    ensures
        forest_view(final(forest)@) == forest_view(old(forest)@).insert(
            insert_position(forest_view(old(forest)@), node@.tag, 0),
            node@,
        ),
        sorted_by_id(forest_view(old(forest)@)) ==> is_stable_sort(
            forest_view(final(forest)@),
            forest_view(old(forest)@).push(node@),
        ),
{
    let ghost fv = forest_view(forest@);
    let mut pos: usize = 0;
    while pos < forest.len() && text_le(forest[pos].tag.as_str(), node.tag.as_str())
        invariant
            pos <= forest.len(),
            fv == forest_view(forest@),
            insert_position(fv, node@.tag, 0) == insert_position(fv, node@.tag, pos as int),
        decreases forest.len() - pos,
    {
        pos += 1;
    }
    proof {
        lemma_insert_position(fv, node@.tag, 0);
        if sorted_by_id(fv) {
            lemma_insert_keeps_order(fv, node@, pos as int);
        }
    }
    forest.insert(pos, node);
    assert(forest_view(forest@) =~= fv.insert(pos as int, node@));
}

/// Annotates a root of the modified record against the baseline.
pub fn annotate_root(baseline: &Vec<DicomTag>, modified_tag: &DicomTag) -> (r: DicomTag)
    ensures
        r@ == annotate(forest_view(baseline@), modified_tag@),
{
    let mut result_tag = modified_tag.clone();
    proof {
        lemma_children_view(result_tag);
    }
    let ghost before = result_tag;
    match find_root_index(baseline, &modified_tag.tag) {
        Some(i) => {
            if baseline[i].value == modified_tag.value {
                result_tag.diff_status = Some(DiffStatus::Unchanged);
                result_tag.baseline_value = None;
            } else {
                result_tag.diff_status = Some(DiffStatus::Changed);
                result_tag.baseline_value = Some(baseline[i].value.clone());
            }
        },
        None => {
            result_tag.diff_status = Some(DiffStatus::Added);
            result_tag.baseline_value = None;
        },
    }
    proof {
        lemma_children_view(result_tag);
        assert(result_tag@.children == before@.children);
    }
    result_tag
}

/// Copies a root of the baseline and marks the copy as deleted.
pub fn mark_deleted(baseline_tag: &DicomTag) -> (r: DicomTag)
    ensures
        r@ == marked(baseline_tag@, DiffStatus::Deleted, None),
{
    let mut deleted_tag = baseline_tag.clone();
    proof {
        lemma_children_view(deleted_tag);
    }
    let ghost before = deleted_tag;
    deleted_tag.diff_status = Some(DiffStatus::Deleted);
    deleted_tag.baseline_value = None;
    proof {
        lemma_children_view(deleted_tag);
        assert(deleted_tag@.children == before@.children);
    }
    deleted_tag
}

/// No identifier occurs twice among the roots of a forest.
pub open spec fn distinct_ids(f: Seq<TagView>) -> bool {
    forall|i: int, j: int| 0 <= i < j < f.len() ==> (#[trigger] f[i]).tag != (#[trigger] f[j]).tag
}

/// The roots with a given identifier, in a forest whose identifiers are
/// distinct: the root found, or none.
pub proof fn lemma_roots_with_id(f: Seq<TagView>, id: Seq<char>)
    requires
        distinct_ids(f),
    ensures
        f.filter(with_id(id)) == match find_root(f, id) {
            Some(i) => seq![f[i]],
            None => Seq::<TagView>::empty(),
        },
{
    lemma_find_root_from(f, id, 0);
    match find_root(f, id) {
        Some(i) => {
            assert forall|k: int| 0 <= k < f.len() && k != i implies !with_id(id)(
                #[trigger] f[k],
            ) by {
                if k < i {
                    assert(f[k].tag != f[i].tag);
                } else {
                    assert(f[i].tag != f[k].tag);
                }
            }
            lemma_filter_unique(f, with_id(id), i);
        },
        None => {
            lemma_filter_none(f, with_id(id));
        },
    }
}

/// The deleted entries with a given identifier: the baseline's roots with
/// that identifier, marked, where the modified record has none; no entry
/// where it has one.
pub proof fn lemma_deleted_with_id(a: Seq<TagView>, b: Seq<TagView>, id: Seq<char>, n: int)
    requires
        0 <= n <= a.len(),
    ensures
        deleted(a.take(n), b).filter(with_id(id)) == if find_root(b, id) is None {
            a.take(n).filter(with_id(id)).map_values(
                |t: TagView| marked(t, DiffStatus::Deleted, None),
            )
        } else {
            Seq::<TagView>::empty()
        },
    decreases n,
{
    reveal(Seq::filter);
    lemma_deleted_step(a, b, n);
    let mark = |t: TagView| marked(t, DiffStatus::Deleted, None);
    if n == 0 {
        assert(a.take(0).filter(with_id(id)).map_values(mark) =~= Seq::<TagView>::empty());
    } else {
        lemma_deleted_with_id(a, b, id, n - 1);
        let x = a[n - 1];
        let m = marked(x, DiffStatus::Deleted, None);
        assert(a.take(n) =~= a.take(n - 1).push(x));
        lemma_filter_push(a.take(n - 1), x, with_id(id));
        if find_root(b, x.tag) is None {
            lemma_filter_push(deleted(a.take(n - 1), b), m, with_id(id));
        }
        if find_root(b, id) is None {
            if x.tag == id {
                assert(a.take(n).filter(with_id(id)).map_values(mark) =~= a.take(n - 1).filter(
                    with_id(id),
                ).map_values(mark).push(m));
            }
        }
    }
}

/// The annotated entries with a given identifier, where the identifiers of
/// the modified record are distinct: the annotated root found, or none.
pub proof fn lemma_annotated_with_id(a: Seq<TagView>, b: Seq<TagView>, id: Seq<char>)
    requires
        distinct_ids(b),
    ensures
        annotated(a, b).filter(with_id(id)) == match find_root(b, id) {
            Some(j) => seq![annotate(a, b[j])],
            None => Seq::<TagView>::empty(),
        },
{
    let s = annotated(a, b);
    lemma_find_root_from(b, id, 0);
    assert forall|k: int| 0 <= k < s.len() implies (#[trigger] s[k]).tag == b[k].tag by {}
    match find_root(b, id) {
        Some(j) => {
            assert forall|k: int| 0 <= k < s.len() && k != j implies !with_id(id)(
                #[trigger] s[k],
            ) by {
                if k < j {
                    assert(b[k].tag != b[j].tag);
                } else {
                    assert(b[j].tag != b[k].tag);
                }
            }
            lemma_filter_unique(s, with_id(id), j);
        },
        None => {
            lemma_filter_none(s, with_id(id));
        },
    }
}

/// What a comparison holds for each identifier, where no record holds an
/// identifier twice. An identifier of the modified record alone has one
/// entry: the modified root, marked as added. An identifier of the baseline
/// alone has one entry: the baseline root, marked as deleted. An identifier
/// of both has one entry: the modified root, marked as unchanged where the
/// display values agree, and else as changed, with the baseline's display
/// value beside its own. Any other identifier has no entry. The entries
/// ascend by identifier.
pub proof fn lemma_comparison_entries(
    a: Seq<TagView>,
    b: Seq<TagView>,
    r: Seq<TagView>,
    id: Seq<char>,
)
    requires
        distinct_ids(a),
        distinct_ids(b),
        is_stable_sort(r, merged(a, b)),
    ensures
        sorted_by_id(r),
        r.filter(with_id(id)) == match (find_root(a, id), find_root(b, id)) {
            (None, None) => Seq::<TagView>::empty(),
            (None, Some(j)) => seq![marked(b[j], DiffStatus::Added, None)],
            (Some(i), None) => seq![marked(a[i], DiffStatus::Deleted, None)],
            (Some(i), Some(j)) => if a[i].value == b[j].value {
                seq![marked(b[j], DiffStatus::Unchanged, None)]
            } else {
                seq![marked(b[j], DiffStatus::Changed, Some(a[i].value))]
            },
        },
{
    let pred = with_id(id);
    assert(r.filter(pred) == merged(a, b).filter(pred));
    Seq::filter_distributes_over_add(annotated(a, b), deleted(a, b), pred);
    lemma_annotated_with_id(a, b, id);
    assert(a.take(a.len() as int) =~= a);
    lemma_deleted_with_id(a, b, id, a.len() as int);
    lemma_roots_with_id(a, id);
    lemma_find_root_from(a, id, 0);
    lemma_find_root_from(b, id, 0);
    let mark = |t: TagView| marked(t, DiffStatus::Deleted, None);
    match (find_root(a, id), find_root(b, id)) {
        (None, None) => {
            assert(Seq::<TagView>::empty().map_values(mark) =~= Seq::<TagView>::empty());
        },
        (None, Some(j)) => {
            assert(b[j].tag == id);
        },
        (Some(i), None) => {
            assert(seq![a[i]].map_values(mark) =~= seq![marked(a[i], DiffStatus::Deleted, None)]);
            assert(Seq::<TagView>::empty() + seq![marked(a[i], DiffStatus::Deleted, None)]
                =~= seq![marked(a[i], DiffStatus::Deleted, None)]);
        },
        (Some(i), Some(j)) => {
            assert(b[j].tag == id);
            assert(seq![annotate(a, b[j])] + Seq::<TagView>::empty() =~= seq![
                annotate(a, b[j]),
            ]);
        },
    }
}

/// Every entry of a comparison is an entry of the merged list.
pub proof fn lemma_sorted_entry_is_merged(r: Seq<TagView>, m: Seq<TagView>, k: int)
    requires
        same_by_id(r, m),
        0 <= k < r.len(),
    ensures
        m.contains(r[k]),
{
    broadcast use vstd::seq_lib::group_filter_ensures;
    let pred = with_id(r[k].tag);
    assert(pred(r[k]));
    assert(r.filter(pred).contains(r[k]));
    assert(r.filter(pred) == m.filter(pred));
    m.lemma_filter_contains_rev(pred, r[k]);
}

/// The comparison of two well-formed forests is a well-formed forest.
pub proof fn lemma_comparison_wf(a: Seq<TagView>, b: Seq<TagView>, r: Seq<TagView>)
    requires
        forest_wf(a, 0),
        forest_wf(b, 0),
        is_stable_sort(r, merged(a, b)),
    ensures
        forest_wf(r, 0),
{
    broadcast use vstd::seq_lib::group_filter_ensures;
    let m = merged(a, b);
    assert forall|k: int| 0 <= k < r.len() implies node_wf(#[trigger] r[k], 0) by {
        lemma_sorted_entry_is_merged(r, m, k);
        let n = choose|n: int| 0 <= n < m.len() && m[n] == r[k];
        if n < annotated(a, b).len() {
            assert(m[n] == annotate(a, b[n]));
            assert(node_wf(b[n], 0));
            assert(m[n].children == b[n].children);
        } else {
            let d = a.filter(unmatched_in(b));
            let j = n - annotated(a, b).len();
            assert(m[n] == marked(d[j], DiffStatus::Deleted, None));
            assert(d.contains(d[j]));
            a.lemma_filter_contains_rev(unmatched_in(b), d[j]);
            let i = choose|i: int| 0 <= i < a.len() && a[i] == d[j];
            assert(node_wf(a[i], 0));
            assert(m[n].children == a[i].children);
        }
    }
}

/// Two sorted lists of one length that hold, for each identifier, the
/// same entries in the same order are the same list.
pub proof fn lemma_sorted_lists_agree(r1: Seq<TagView>, r2: Seq<TagView>)
    requires
        r1.len() == r2.len(),
        sorted_by_id(r1),
        sorted_by_id(r2),
        same_by_id(r1, r2),
    ensures
        r1 == r2,
    decreases r1.len(),
{
    broadcast use vstd::seq_lib::group_filter_ensures;
    if r1.len() == 0 {
        assert(r1 =~= r2);
    } else {
        let n = r1.len() - 1;
        let x = r1.last();
        let y = r2.last();
        let k = x.tag;
        let f1 = r1.drop_last();
        let f2 = r2.drop_last();
        assert(r1 =~= f1.push(x));
        assert(r2 =~= f2.push(y));
        if y.tag != k {
            // an entry with the identifier of `y` stands in `r1`, not behind `x`
            let py = with_id(y.tag);
            assert(py(y));
            assert(r2.filter(py).contains(y));
            assert(r1.filter(py) == r2.filter(py));
            r1.lemma_filter_contains_rev(py, y);
            let i = choose|i: int| 0 <= i < r1.len() && r1[i] == y;
            assert(i != n);
            assert(lex_le(r1[i].tag, r1[n].tag));
            // and an entry with the identifier of `x` stands in `r2`, before `y`
            let px = with_id(k);
            assert(px(x));
            assert(r1.filter(px).contains(x));
            assert(r1.filter(px) == r2.filter(px));
            r2.lemma_filter_contains_rev(px, x);
            let j = choose|j: int| 0 <= j < r2.len() && r2[j] == x;
            assert(j != n);
            assert(lex_le(r2[j].tag, r2[n].tag));
            lemma_lex_le_antisymmetric(y.tag, k);
        }
        assert forall|id: Seq<char>| #[trigger]
            f1.filter(with_id(id)) == f2.filter(with_id(id)) by {
            let pred = with_id(id);
            lemma_filter_push(f1, x, pred);
            lemma_filter_push(f2, y, pred);
            assert(r1.filter(pred) == r2.filter(pred));
            if id == k {
                assert(f1.filter(pred).push(x).drop_last() =~= f1.filter(pred));
                assert(f2.filter(pred).push(y).drop_last() =~= f2.filter(pred));
            }
        }
        assert(x == y) by {
            let pred = with_id(k);
            lemma_filter_push(f1, x, pred);
            lemma_filter_push(f2, y, pred);
            assert(r1.filter(pred) == r2.filter(pred));
            assert(f1.filter(pred).push(x).last() == x);
            assert(f2.filter(pred).push(y).last() == y);
        }
        assert(sorted_by_id(f1)) by {
            assert forall|a: int, b: int| 0 <= a < b < f1.len() implies lex_le(
                #[trigger] f1[a].tag,
                #[trigger] f1[b].tag,
            ) by {
                assert(lex_le(r1[a].tag, r1[b].tag));
            }
        }
        assert(sorted_by_id(f2)) by {
            assert forall|a: int, b: int| 0 <= a < b < f2.len() implies lex_le(
                #[trigger] f2[a].tag,
                #[trigger] f2[b].tag,
            ) by {
                assert(lex_le(r2[a].tag, r2[b].tag));
            }
        }
        lemma_sorted_lists_agree(f1, f2);
    }
}

/// A list has one stable sort only: what `compare_dicom_files` promises of
/// its result holds of no other forest.
pub proof fn lemma_stable_sort_unique(r1: Seq<TagView>, r2: Seq<TagView>, m: Seq<TagView>)
    requires
        is_stable_sort(r1, m),
        is_stable_sort(r2, m),
    ensures
        r1 == r2,
{
    assert forall|id: Seq<char>| #[trigger]
        r1.filter(with_id(id)) == r2.filter(with_id(id)) by {
        assert(r1.filter(with_id(id)) == m.filter(with_id(id)));
        assert(r2.filter(with_id(id)) == m.filter(with_id(id)));
    }
    lemma_sorted_lists_agree(r1, r2);
}

} // verus!
