use vstd::prelude::*;
use crate::diff::annotate_root;
use crate::diff::annotated;
use crate::diff::deleted;
use crate::diff::insert_sorted;
use crate::diff::is_stable_sort;
use crate::diff::lemma_deleted_step;
use crate::diff::lemma_stable_sort_push;
use crate::diff::mark_deleted;
use crate::diff::merged;
use crate::record::RawElement;
use crate::record::depths_fit;
use crate::record::depths_within;
use crate::record::extract_tags;
use crate::record::record_forest;
use crate::tree::find_root;
use crate::tree::find_root_from;

verus! {

/// How a root entry of a merged forest relates to the baseline record.
#[derive(Clone, Copy, Debug, PartialEq, Eq, Structural)]
pub enum DiffStatus {
    Unchanged,
    Added,
    Deleted,
    Changed,
}

/// The mathematical value of a node: its texts as character sequences and
/// its children as a sequence of values.
pub struct TagView {
    pub tag: Seq<char>,
    pub name: Seq<char>,
    pub vr: Seq<char>,
    pub value: Seq<char>,
    pub baseline_value: Option<Seq<char>>,
    pub depth: usize,
    pub is_expandable: bool,
    pub is_expanded: bool,
    pub children: Seq<TagView>,
    pub diff_status: Option<DiffStatus>,
}

/// One entry of a record: a field, or the header of a sequence item, with the
/// entries nested below it.
#[derive(Debug)]
pub struct DicomTag {
    /// Identifier: `(GGGG,EEEE)` in hexadecimal, or `Item #N` for an item header.
    pub tag: String,
    /// Human-readable name.
    pub name: String,
    /// Two-letter code of the value's kind.
    pub vr: String,
    /// Display value.
    pub value: String,
    /// The baseline's display value, on an entry whose status is `Changed`.
    pub baseline_value: Option<String>,
    /// Nesting level, 0 at the root.
    pub depth: usize,
    /// Whether the entry has children.
    pub is_expandable: bool,
    /// Whether the children are shown.
    pub is_expanded: bool,
    /// The nested entries, in order.
    pub children: Vec<DicomTag>,
    /// Set on the roots of a merged forest, absent elsewhere.
    pub diff_status: Option<DiffStatus>,
}

/// The characters of an optional text.
pub open spec fn text_view(s: Option<String>) -> Option<Seq<char>> {
    match s {
        Some(t) => Some(t@),
        None => None,
    }
}

/// The value of a node, children included.
pub open spec fn tag_view(t: DicomTag) -> TagView
    decreases t,
{
    TagView {
        tag: t.tag@,
        name: t.name@,
        vr: t.vr@,
        value: t.value@,
        baseline_value: text_view(t.baseline_value),
        depth: t.depth,
        is_expandable: t.is_expandable,
        is_expanded: t.is_expanded,
        children: Seq::new(
            t.children@.len(),
            |i: int|
                if 0 <= i < t.children@.len() {
                    tag_view(t.children@[i])
                } else {
                    arbitrary()
                },
        ),
        diff_status: t.diff_status,
    }
}

impl View for DicomTag {
    type V = TagView;

    open spec fn view(&self) -> TagView {
        tag_view(*self)
    }
}

/// The values of the nodes of a forest, in order.
pub open spec fn forest_view(f: Seq<DicomTag>) -> Seq<TagView> {
    Seq::new(f.len(), |i: int| f[i]@)
}

/// The children of a node's value are the values of its children.
pub proof fn lemma_children_view(t: DicomTag)
    ensures
        t@.children == forest_view(t.children@),
{
    assert(t@.children =~= forest_view(t.children@));
}

/// The value of a hexadecimal digit, in either case; none for another
/// character.
pub open spec fn hex_value(c: char) -> Option<int> {
    if '0' <= c <= '9' {
        Some(c as u32 - '0' as u32)
    } else if 'a' <= c <= 'f' {
        Some(c as u32 - 'a' as u32 + 10)
    } else if 'A' <= c <= 'F' {
        Some(c as u32 - 'A' as u32 + 10)
    } else {
        None
    }
}

/// The group number in an identifier: the number that the four characters
/// behind the first one spell in hexadecimal, where a plus sign may stand for
/// the first digit. None where the first character is not a plain ASCII one,
/// where the identifier is too short, or where the four are no such number.
pub open spec fn group_number(tag: Seq<char>) -> Option<int> {
    if tag.len() < 5 || tag[0] as u32 >= 128 {
        None
    } else {
        let first = if tag[1] == '+' {
            Some(0int)
        } else {
            hex_value(tag[1])
        };
        match (first, hex_value(tag[2]), hex_value(tag[3]), hex_value(tag[4])) {
            (Some(a), Some(b), Some(c), Some(d)) => Some(a * 4096 + b * 256 + c * 16 + d),
            _ => None,
        }
    }
}

/// An identifier names a private field: its group number is odd.
pub open spec fn private_id(tag: Seq<char>) -> bool {
    match group_number(tag) {
        Some(g) => g % 2 == 1,
        None => false,
    }
}

/// Reads a hexadecimal digit.
pub fn hex_digit(c: char) -> (r: Option<u16>)
    ensures
        match r {
            Some(v) => hex_value(c) == Some(v as int) && v < 16,
            None => hex_value(c) is None,
        },
{
    if '0' <= c && c <= '9' {
        Some((c as u32 - '0' as u32) as u16)
    } else if 'a' <= c && c <= 'f' {
        Some((c as u32 - 'a' as u32 + 10) as u16)
    } else if 'A' <= c && c <= 'F' {
        Some((c as u32 - 'A' as u32 + 10) as u16)
    } else {
        None
    }
}

/// Reads the group number of an identifier.
pub fn read_group(tag: &str) -> (r: Option<u16>)
    ensures
        match r {
            Some(g) => group_number(tag@) == Some(g as int),
            None => group_number(tag@) is None,
        },
{
    let mut it = tag.chars();
    let c0 = match it.next() {
        Some(c) => c,
        None => {
            return None;
        },
    };
    let c1 = match it.next() {
        Some(c) => c,
        None => {
            return None;
        },
    };
    let c2 = match it.next() {
        Some(c) => c,
        None => {
            return None;
        },
    };
    let c3 = match it.next() {
        Some(c) => c,
        None => {
            return None;
        },
    };
    let c4 = match it.next() {
        Some(c) => c,
        None => {
            return None;
        },
    };
    assert(tag@.len() >= 5 && tag@[0] == c0 && tag@[1] == c1 && tag@[2] == c2 && tag@[3] == c3
        && tag@[4] == c4);
    if c0 as u32 >= 128 {
        return None;
    }
    let first = if c1 == '+' {
        Some(0u16)
    } else {
        hex_digit(c1)
    };
    match (first, hex_digit(c2), hex_digit(c3), hex_digit(c4)) {
        (Some(a), Some(b), Some(c), Some(d)) => Some(a * 4096 + b * 256 + c * 16 + d),
        _ => None,
    }
}

impl DicomTag {
    /// Tells whether the entry is a private field: one whose identifier has
    /// an odd group number.
    pub fn is_private(&self) -> (r: bool)
        ensures
            r == private_id(self@.tag),
    {
        match read_group(self.tag.as_str()) {
            Some(group) => group % 2 == 1,
            None => false,
        }
    }
}

/// Copies a forest with everything below it, expansion flags and diff
/// annotations included.
pub fn copy_forest(f: &Vec<DicomTag>) -> (r: Vec<DicomTag>)
    ensures
        forest_view(r@) == forest_view(f@),
    decreases f,
{
    let mut r: Vec<DicomTag> = Vec::new();
    let mut i: usize = 0;
    while i < f.len()
        invariant
            i <= f.len(),
            r.len() == i,
            forall|j: int| 0 <= j < i ==> r[j]@ == f[j]@,
        decreases f.len() - i,
    {
        let c = f[i].clone();
        r.push(c);
        i += 1;
    }
    assert(forest_view(r@) =~= forest_view(f@));
    r
}

impl Clone for DicomTag {
    /// A deep copy: the same value, children included.
    fn clone(&self) -> (r: Self)
        ensures
            r@ == self@,
        decreases self,
    {
        let children = copy_forest(&self.children);
        let r = DicomTag {
            tag: self.tag.clone(),
            name: self.name.clone(),
            vr: self.vr.clone(),
            value: self.value.clone(),
            baseline_value: self.baseline_value.clone(),
            depth: self.depth,
            is_expandable: self.is_expandable,
            is_expanded: self.is_expanded,
            children,
            diff_status: self.diff_status,
        };
        proof {
            lemma_children_view(r);
            lemma_children_view(*self);
        }
        r
    }
}

/// Finds the first root with the identifier `id`.
pub fn find_root_index(forest: &Vec<DicomTag>, id: &String) -> (r: Option<usize>)
    ensures
        match r {
            Some(i) => find_root(forest_view(forest@), id@) == Some(i as int) && i
                < forest.len(),
            None => find_root(forest_view(forest@), id@) is None,
        },
{
    let ghost fv = forest_view(forest@);
    let mut i: usize = 0;
    while i < forest.len()
        invariant
            i <= forest.len(),
            fv == forest_view(forest@),
            find_root(fv, id@) == find_root_from(fv, id@, i as int),
        decreases forest.len() - i,
    {
        if forest[i].tag == *id {
            return Some(i);
        }
        i += 1;
    }
    None
}

/// Compares two records root by root. Each root of the modified record is
/// annotated against the baseline: added, unchanged or changed. Each root of
/// the baseline whose identifier the modified record lacks follows as
/// deleted. The entries come out in ascending order of identifier, entries
/// with one identifier in the order just given. Where the baseline holds an
/// identifier twice, its first occurrence is the one compared with.
pub fn compare_dicom_files(baseline: &Vec<DicomTag>, modified: &Vec<DicomTag>) -> (result: Vec<
    DicomTag,
>)
    ensures
        is_stable_sort(
            forest_view(result@),
            merged(forest_view(baseline@), forest_view(modified@)),
        ),
{
    let ghost av = forest_view(baseline@);
    let ghost bv = forest_view(modified@);
    let mut result_tags: Vec<DicomTag> = Vec::new();
    let mut i: usize = 0;
    assert(annotated(av, bv.take(0)) =~= forest_view(result_tags@));
    while i < modified.len()
        invariant
            i <= modified.len(),
            av == forest_view(baseline@),
            bv == forest_view(modified@),
            is_stable_sort(
                forest_view(result_tags@),
                annotated(av, bv.take(i as int)),
            ),
        decreases modified.len() - i,
    {
        let ghost before = forest_view(result_tags@);
        let node = annotate_root(baseline, &modified[i]);
        insert_sorted(&mut result_tags, node);
        proof {
            lemma_stable_sort_push(
                forest_view(result_tags@),
                before,
                annotated(av, bv.take(i as int)),
                node@,
            );
            assert(annotated(av, bv.take(i + 1)) =~= annotated(
                av,
                bv.take(i as int),
            ).push(node@));
        }
        i += 1;
    }
    assert(bv.take(modified.len() as int) =~= bv);
    let mut k: usize = 0;
    proof {
        lemma_deleted_step(av, bv, 0);
        assert(annotated(av, bv) + deleted(av.take(0), bv)
            =~= annotated(av, bv));
    }
    while k < baseline.len()
        invariant
            k <= baseline.len(),
            av == forest_view(baseline@),
            bv == forest_view(modified@),
            is_stable_sort(
                forest_view(result_tags@),
                annotated(av, bv) + deleted(av.take(k as int), bv),
            ),
        decreases baseline.len() - k,
    {
        let ghost before = forest_view(result_tags@);
        let ghost so_far = annotated(av, bv) + deleted(
            av.take(k as int),
            bv,
        );
        proof {
            lemma_deleted_step(av, bv, k as int + 1);
        }
        if find_root_index(modified, &baseline[k].tag).is_none() {
            let node = mark_deleted(&baseline[k]);
            insert_sorted(&mut result_tags, node);
            proof {
                lemma_stable_sort_push(
                    forest_view(result_tags@),
                    before,
                    so_far,
                    node@,
                );
                assert(so_far.push(node@) =~= annotated(av, bv)
                    + deleted(av.take(k + 1), bv));
            }
        }
        k += 1;
    }
    assert(av.take(baseline.len() as int) =~= av);
    result_tags
}

/// Why a decoded record has no forest.
#[derive(Clone, Copy, Debug, PartialEq, Eq, Structural)]
pub enum LoadFailure {
    /// The record nests sequences deeper than a depth can count.
    TooDeep,
}

/// Builds the forest of a decoded record: one root for each element, in
/// order, each with its items and their elements below it, all collapsed.
/// Fails only on a record whose nesting no depth can count.
pub fn load_dicom_file(record: &Vec<RawElement>) -> (r: Result<
    Vec<DicomTag>,
    LoadFailure,
>)
    ensures
        match r {
            Ok(tags) => depths_fit(record@, 0) && forest_view(tags@)
                == record_forest(record@),
            Err(e) => !depths_fit(record@, 0) && e == LoadFailure::TooDeep,
        },
{
    if depths_within(record, 0) {
        Ok(extract_tags(record))
    } else {
        Err(LoadFailure::TooDeep)
    }
}

} // verus!
