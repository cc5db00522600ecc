use vstd::prelude::*;

verus! {

/// Where no entry passes a test, the filter leaves nothing.
pub proof fn lemma_filter_none<A>(s: Seq<A>, pred: spec_fn(A) -> bool)
    requires
        forall|i: int| 0 <= i < s.len() ==> !pred(#[trigger] s[i]),
    ensures
        s.filter(pred) == Seq::<A>::empty(),
    decreases s.len(),
{
    reveal(Seq::filter);
    if s.len() > 0 {
        assert(!pred(s[s.len() - 1]));
        assert forall|i: int| 0 <= i < s.drop_last().len() implies !pred(
            #[trigger] s.drop_last()[i],
        ) by {
            assert(s.drop_last()[i] == s[i]);
        }
        lemma_filter_none(s.drop_last(), pred);
    }
}

/// Where every entry passes a test, the filter leaves all.
pub proof fn lemma_filter_all<A>(s: Seq<A>, pred: spec_fn(A) -> bool)
    requires
        forall|i: int| 0 <= i < s.len() ==> pred(#[trigger] s[i]),
    ensures
        s.filter(pred) == s,
    decreases s.len(),
{
    reveal(Seq::filter);
    if s.len() > 0 {
        assert(pred(s[s.len() - 1]));
        assert forall|i: int| 0 <= i < s.drop_last().len() implies pred(
            #[trigger] s.drop_last()[i],
        ) by {
            assert(s.drop_last()[i] == s[i]);
        }
        lemma_filter_all(s.drop_last(), pred);
        assert(s.drop_last().push(s.last()) =~= s);
    }
}

/// The filter of a list with one more entry at its end.
pub proof fn lemma_filter_push<A>(s: Seq<A>, x: A, pred: spec_fn(A) -> bool)
    ensures
        s.push(x).filter(pred) == if pred(x) {
            s.filter(pred).push(x)
        } else {
            s.filter(pred)
        },
{
    reveal(Seq::filter);
    assert(s.push(x).drop_last() =~= s);
}

/// Where exactly one entry passes a test, the filter leaves that entry.
pub proof fn lemma_filter_unique<A>(s: Seq<A>, pred: spec_fn(A) -> bool, j: int)
    requires
        0 <= j < s.len(),
        pred(s[j]),
        forall|k: int| 0 <= k < s.len() && k != j ==> !pred(#[trigger] s[k]),
    ensures
        s.filter(pred) == seq![s[j]],
{
    let front = s.take(j);
    let back = s.skip(j + 1);
    assert(s =~= front + seq![s[j]] + back);
    assert forall|k: int| 0 <= k < front.len() implies !pred(#[trigger] front[k]) by {
        assert(front[k] == s[k]);
    }
    assert forall|k: int| 0 <= k < back.len() implies !pred(#[trigger] back[k]) by {
        assert(back[k] == s[j + 1 + k]);
    }
    lemma_filter_none(front, pred);
    lemma_filter_none(back, pred);
    lemma_filter_all(seq![s[j]], pred);
    Seq::filter_distributes_over_add(front + seq![s[j]], back, pred);
    Seq::filter_distributes_over_add(front, seq![s[j]], pred);
    assert(s.filter(pred) =~= seq![s[j]]);
}

/// Where some entry fails a test, the filter leaves fewer entries than
/// there were.
pub proof fn lemma_filter_shorter<A>(s: Seq<A>, pred: spec_fn(A) -> bool, j: int)
    requires
        0 <= j < s.len(),
        !pred(s[j]),
    ensures
        s.filter(pred).len() < s.len(),
{
    let front = s.take(j);
    let back = s.skip(j + 1);
    assert(s =~= front + seq![s[j]] + back);
    lemma_filter_none(seq![s[j]], pred);
    Seq::filter_distributes_over_add(front + seq![s[j]], back, pred);
    Seq::filter_distributes_over_add(front, seq![s[j]], pred);
    front.lemma_filter_len(pred);
    back.lemma_filter_len(pred);
}

} // verus!
