use vstd::prelude::*;
use crate::dicom::DicomTag;
use crate::dicom::TagView;
use crate::dicom::forest_view;
use crate::seqs::lemma_filter_none;
use crate::text::contains;
use crate::text::is_substring;
use crate::text::lowercase;
use crate::text::to_lowercase;
use crate::tree::forest_wf;
use crate::tree::node_wf;

verus! {

/// A lower-cased query occurs in a lower-cased identifier or name.
pub open spec fn folded_match(id: Seq<char>, name: Seq<char>, query: Seq<char>) -> bool {
    is_substring(query, id) || is_substring(query, name)
}

/// A root is retained by a query: the query occurs in its identifier or in
/// its name, letter case aside.
pub open spec fn matches_query(t: TagView, query: Seq<char>) -> bool {
    folded_match(lowercase(t.tag), lowercase(t.name), lowercase(query))
}

/// The test that a query puts to each root.
pub open spec fn query_pred(query: Seq<char>) -> spec_fn(TagView) -> bool {
    |t: TagView| matches_query(t, query)
}

/// The roots that a query retains, each with its whole subtree, in their
/// order in the forest.
pub open spec fn filter_forest(f: Seq<TagView>, query: Seq<char>) -> Seq<TagView> {
    f.filter(query_pred(query))
}

/// Tells whether a query occurs in an identifier or a name, all three given
/// in lower case.
pub fn matches_folded(id: &str, name: &str, query: &str) -> (r: bool)
    ensures
        r == folded_match(id@, name@, query@),
{
    contains(id, query) || contains(name, query)
}

/// Tells whether a query, given in lower case, retains a root.
pub fn tag_matches(tag: &DicomTag, folded_query: &str) -> (r: bool)
    ensures
        r == folded_match(lowercase(tag@.tag), lowercase(tag@.name), folded_query@),
{
    let id = to_lowercase(tag.tag.as_str());
    let name = to_lowercase(tag.name.as_str());
    matches_folded(id.as_str(), name.as_str(), folded_query)
}

/// Copies the roots that a query retains, each with its whole subtree.
pub fn filter_roots(tags: &Vec<DicomTag>, query: &str) -> (r: Vec<DicomTag>)
    ensures
        forest_view(r@) == filter_forest(forest_view(tags@), query@),
{
    let folded = to_lowercase(query);
    let ghost fv = forest_view(tags@);
    let ghost pred = query_pred(query@);
    let mut r: Vec<DicomTag> = Vec::new();
    let mut i: usize = 0;
    proof {
        reveal(Seq::filter);
        assert(forest_view(r@) =~= fv.take(0).filter(pred));
    }
    while i < tags.len()
        invariant
            i <= tags.len(),
            fv == forest_view(tags@),
            pred == query_pred(query@),
            folded@ == lowercase(query@),
            forest_view(r@) == fv.take(i as int).filter(pred),
        decreases tags.len() - i,
    {
        let ghost rows = forest_view(r@);
        proof {
            reveal(Seq::filter);
            assert(fv.take(i + 1).drop_last() =~= fv.take(i as int));
        }
        if tag_matches(&tags[i], folded.as_str()) {
            r.push(tags[i].clone());
            assert(forest_view(r@) =~= rows.push(fv[i as int]));
        }
        assert(pred(fv[i as int]) == matches_query(fv[i as int], query@));
        i += 1;
    }
    assert(fv.take(tags.len() as int) =~= fv);
    r
}

/// Every root that a query retains is a root of the forest, whole, and
/// passes the query by its own identifier or name: a root that only holds a
/// match somewhere below it is not retained.
pub proof fn lemma_retained_roots_match(f: Seq<TagView>, query: Seq<char>, k: int)
    requires
        0 <= k < filter_forest(f, query).len(),
    ensures
        matches_query(filter_forest(f, query)[k], query),
        f.contains(filter_forest(f, query)[k]),
{
    broadcast use vstd::seq_lib::group_filter_ensures;
    let r = filter_forest(f, query);
    assert(query_pred(query)(r[k]));
    assert(r.contains(r[k]));
    f.lemma_filter_contains_rev(query_pred(query), r[k]);
}

/// Every root that passes a query is retained.
pub proof fn lemma_matching_roots_retained(f: Seq<TagView>, query: Seq<char>, i: int)
    requires
        0 <= i < f.len(),
        matches_query(f[i], query),
    ensures
        filter_forest(f, query).contains(f[i]),
{
    broadcast use vstd::seq_lib::group_filter_ensures;
    assert(query_pred(query)(f[i]));
}

/// A query that no root passes retains nothing.
pub proof fn lemma_no_match_retains_nothing(f: Seq<TagView>, query: Seq<char>)
    requires
        forall|i: int| 0 <= i < f.len() ==> !matches_query(#[trigger] f[i], query),
    ensures
        filter_forest(f, query) == Seq::<TagView>::empty(),
{
    lemma_filter_none(f, query_pred(query));
}

/// The roots that a query retains of a well-formed forest make a
/// well-formed forest.
pub proof fn lemma_filter_forest_wf(f: Seq<TagView>, query: Seq<char>)
    requires
        forest_wf(f, 0),
    ensures
        forest_wf(filter_forest(f, query), 0),
{
    let r = filter_forest(f, query);
    assert forall|k: int| 0 <= k < r.len() implies node_wf(#[trigger] r[k], 0) by {
        lemma_retained_roots_match(f, query, k);
        let i = choose|i: int| 0 <= i < f.len() && f[i] == r[k];
        assert(node_wf(f[i], 0));
    }
}

} // verus!
