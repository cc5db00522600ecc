use vstd::prelude::*;
use crate::dicom::DicomTag;
use crate::dicom::DiffStatus;
use crate::dicom::TagView;

verus! {

/// What a stretch of an inline difference is: common to both texts, only in
/// the baseline, or only in the modified text.
#[derive(Clone, Copy, Debug, PartialEq, Eq, Structural)]
pub enum ChangeKind {
    Equal,
    Delete,
    Insert,
}

/// One stretch of an inline difference.
#[derive(Debug)]
pub struct DiffSegment {
    pub kind: ChangeKind,
    pub text: String,
}

/// The stretches of a list, each as its kind and its characters.
pub open spec fn segments_view(v: Seq<DiffSegment>) -> Seq<(ChangeKind, Seq<char>)> {
    Seq::new(v.len(), |i: int| (v[i].kind, v[i].text@))
}

/// The stretches of an optional list.
pub open spec fn option_segments_view(v: Option<Vec<DiffSegment>>) -> Option<
    Seq<(ChangeKind, Seq<char>)>,
> {
    match v {
        Some(s) => Some(segments_view(s@)),
        None => None,
    }
}

/// The word-by-word difference of two texts, as `TextDiff::from_words` of
/// the `similar` crate computes it and `iter_all_changes` lists it: each
/// change with its kind and its text. It depends on the two texts alone.
pub uninterp spec fn word_diff(baseline: Seq<char>, modified: Seq<char>) -> Seq<
    (ChangeKind, Seq<char>),
>;

/// Calls `TextDiff::from_words` of the `similar` crate and lists all
/// changes. Trusted: the result is that difference, change by change; this
/// crate does not say what the difference is.
#[verifier::external_body]
pub(crate) fn word_changes(baseline: &str, modified: &str) -> (r: Vec<DiffSegment>)
    ensures
        segments_view(r@) == word_diff(baseline@, modified@),
{
    let diff = ::similar::TextDiff::from_words(baseline, modified);
    diff.iter_all_changes().map(
        |change|
            DiffSegment {
                kind: match change.tag() {
                    ::similar::ChangeTag::Equal => ChangeKind::Equal,
                    ::similar::ChangeTag::Delete => ChangeKind::Delete,
                    ::similar::ChangeTag::Insert => ChangeKind::Insert,
                },
                text: change.value().to_string(),
            },
    ).collect()
}

/// The inline difference that a row shows: for an entry marked as changed
/// that carries its baseline value, the word-by-word difference of that
/// value and the entry's own; none for any other entry.
pub open spec fn inline_segments(t: TagView) -> Option<Seq<(ChangeKind, Seq<char>)>> {
    if t.diff_status == Some(DiffStatus::Changed) {
        match t.baseline_value {
            Some(b) => Some(word_diff(b, t.value)),
            None => None,
        }
    } else {
        None
    }
}

/// Computes the inline difference that a row shows.
pub fn inline_diff(tag: &DicomTag) -> (r: Option<Vec<DiffSegment>>)
    ensures
        option_segments_view(r) == inline_segments(tag@),
{
    match tag.diff_status {
        Some(DiffStatus::Changed) => match &tag.baseline_value {
            Some(baseline) => Some(word_changes(baseline.as_str(), tag.value.as_str())),
            None => None,
        },
        _ => None,
    }
}

} // verus!
