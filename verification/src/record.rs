use vstd::prelude::*;
use crate::dicom::DicomTag;
use crate::dicom::TagView;
use crate::dicom::forest_view;
use crate::dicom::lemma_children_view;
use crate::dictionary::dictionary_alias;
use crate::dictionary::standard_alias;
use crate::format::append_decimal;
use crate::format::decimal;
use crate::format::format_tag;
use crate::format::tag_text;
use crate::format::truncate_value;
use crate::format::truncated;
use crate::tree::forest_wf;
use crate::tree::node_wf;

verus! {

/// The value of a decoded element, as far as the viewer reads it.
pub enum RawValue {
    /// A primitive value, rendered as text.
    Text(String),
    /// A sequence of items.
    Items(Vec<RawItem>),
    /// Encapsulated pixel data.
    Fragments,
}

/// One item of a sequence: a list of elements.
pub struct RawItem {
    pub elements: Vec<RawElement>,
}

/// One decoded element of a record.
pub struct RawElement {
    pub group: u16,
    pub element: u16,
    /// Two-letter code of the value's kind.
    pub vr: String,
    pub value: RawValue,
}

/// The longest display value, in characters.
pub const MAX_VALUE_LEN: usize = 256;

/// Summary of a sequence with `n` items.
pub open spec fn sequence_summary(n: nat) -> Seq<char> {
    "<Sequence with "@ + decimal(n) + " item(s)>"@
}

/// Summary of an item with `n` elements.
pub open spec fn item_summary(n: nat) -> Seq<char> {
    "<"@ + decimal(n) + " element(s)>"@
}

/// Label of the item with the number `n`, counted from one.
pub open spec fn item_label(n: nat) -> Seq<char> {
    "Item #"@ + decimal(n)
}

/// The display value of a value: the text of a primitive value, a summary
/// of anything else, cut to the longest display value.
pub open spec fn display_value(v: RawValue) -> Seq<char> {
    match v {
        RawValue::Text(s) => truncated(s@, MAX_VALUE_LEN as nat),
        RawValue::Items(items) => truncated(
            sequence_summary(items@.len()),
            MAX_VALUE_LEN as nat,
        ),
        RawValue::Fragments => truncated("<Pixel Data Sequence>"@, MAX_VALUE_LEN as nat),
    }
}

/// Every depth that the tree below the elements needs, the elements
/// themselves standing at `depth`, is a machine number.
pub open spec fn depths_fit(elements: Seq<RawElement>, depth: int) -> bool
    decreases elements,
{
    forall|i: int| 0 <= i < elements.len() ==> element_fits(#[trigger] elements[i], depth)
}

/// The same for one element at `depth`.
pub open spec fn element_fits(e: RawElement, depth: int) -> bool
    decreases e,
{
    match e.value {
        RawValue::Items(items) => depth + 1 <= usize::MAX && items_fit(items@, depth + 1),
        _ => true,
    }
}

/// The same for the items of a sequence, their headers standing at `depth`.
pub open spec fn items_fit(items: Seq<RawItem>, depth: int) -> bool
    decreases items,
{
    forall|k: int|
        0 <= k < items.len() ==> depth + 1 <= usize::MAX && depths_fit(
            (#[trigger] items[k]).elements@,
            depth + 1,
        )
}

/// The node of one element at a depth: identifier and name of its field,
/// its display value, for a sequence its summary, and below it one node for
/// each item of a sequence.
pub open spec fn element_node(e: RawElement, depth: int) -> TagView
    decreases e,
{
    let children = match e.value {
        RawValue::Items(items) => Seq::new(
            items@.len(),
            |k: int|
                if 0 <= k < items@.len() {
                    item_node(items@[k], k, depth + 1)
                } else {
                    arbitrary()
                },
        ),
        _ => Seq::empty(),
    };
    TagView {
        tag: tag_text(e.group, e.element),
        name: standard_alias(e.group, e.element),
        vr: e.vr@,
        value: match e.value {
            RawValue::Items(items) => sequence_summary(items@.len()),
            _ => display_value(e.value),
        },
        baseline_value: None,
        depth: depth as usize,
        is_expandable: children.len() > 0,
        is_expanded: false,
        children: children,
        diff_status: None,
    }
}

/// The header node of the item at position `index` of a sequence, with
/// the nodes of the item's elements below it.
pub open spec fn item_node(item: RawItem, index: int, depth: int) -> TagView
    decreases item,
{
    let children = Seq::new(
        item.elements@.len(),
        |i: int|
            if 0 <= i < item.elements@.len() {
                element_node(item.elements@[i], depth + 1)
            } else {
                arbitrary()
            },
    );
    TagView {
        tag: item_label((index + 1) as nat),
        name: Seq::empty(),
        vr: Seq::empty(),
        value: item_summary(item.elements@.len()),
        baseline_value: None,
        depth: depth as usize,
        is_expandable: children.len() > 0,
        is_expanded: false,
        children: children,
        diff_status: None,
    }
}

/// The nodes of a list of elements at a depth.
pub open spec fn element_nodes(elements: Seq<RawElement>, depth: int) -> Seq<TagView> {
    Seq::new(elements.len(), |i: int| element_node(elements[i], depth))
}

/// The header nodes of the items of a sequence at a depth.
pub open spec fn item_nodes(items: Seq<RawItem>, depth: int) -> Seq<TagView> {
    Seq::new(items.len(), |k: int| item_node(items[k], k, depth))
}

/// The forest of a decoded record: the nodes of its elements at depth 0.
pub open spec fn record_forest(record: Seq<RawElement>) -> Seq<TagView> {
    element_nodes(record, 0)
}

/// Cuts a text to the longest display value.
pub fn format_text(text: &str) -> (r: String)
    ensures
        r@ == truncated(text@, MAX_VALUE_LEN as nat),
{
    truncate_value(text, MAX_VALUE_LEN)
}

/// Writes the summary of a sequence with `n` items.
pub fn format_sequence_summary(n: usize) -> (r: String)
    ensures
        r@ == sequence_summary(n as nat),
{
    let mut r = String::from_str("<Sequence with ");
    append_decimal(&mut r, n);
    r.append(" item(s)>");
    r
}

/// Writes the display value of an element.
pub fn format_value(value: &RawValue) -> (r: String)
    ensures
        r@ == display_value(*value),
{
    match value {
        RawValue::Text(s) => format_text(s.as_str()),
        RawValue::Items(items) => {
            let summary = format_sequence_summary(items.len());
            format_text(summary.as_str())
        },
        RawValue::Fragments => format_text("<Pixel Data Sequence>"),
    }
}

/// Tells whether every depth that the tree below the elements needs, the
/// elements themselves standing at `depth`, is a machine number.
pub fn depths_within(elements: &Vec<RawElement>, depth: usize) -> (r: bool)
    ensures
        r == depths_fit(elements@, depth as int),
    decreases elements,
{
    let mut i: usize = 0;
    while i < elements.len()
        invariant
            i <= elements.len(),
            forall|j: int| 0 <= j < i ==> element_fits(#[trigger] elements@[j], depth as int),
        decreases elements.len() - i,
    {
        match &elements[i].value {
            RawValue::Items(items) => {
                if depth == usize::MAX || !items_within(items, depth + 1) {
                    assert(!element_fits(elements@[i as int], depth as int));
                    return false;
                }
            },
            _ => {},
        }
        i += 1;
    }
    true
}

/// The same for the items of a sequence, their headers standing at `depth`.
pub fn items_within(items: &Vec<RawItem>, depth: usize) -> (r: bool)
    ensures
        r == items_fit(items@, depth as int),
    decreases items,
{
    let mut k: usize = 0;
    while k < items.len()
        invariant
            k <= items.len(),
            k > 0 ==> depth < usize::MAX,
            forall|n: int| 0 <= n < k ==> depths_fit((#[trigger] items@[n]).elements@, depth + 1),
        decreases items.len() - k,
    {
        if depth == usize::MAX || !depths_within(&items[k].elements, depth + 1) {
            let ghost bad = items@[k as int];
            assert(!(depth + 1 <= usize::MAX && depths_fit(bad.elements@, depth + 1)));
            return false;
        }
        k += 1;
    }
    true
}

/// Builds the nodes of a list of elements at a depth.
pub fn extract_tags_from_inmem_object(elements: &Vec<RawElement>, depth: usize) -> (tags: Vec<
    DicomTag,
>)
    requires
        depths_fit(elements@, depth as int),
    ensures
        forest_view(tags@) == element_nodes(elements@, depth as int),
    decreases elements,
{
    let mut tags: Vec<DicomTag> = Vec::new();
    let mut i: usize = 0;
    while i < elements.len()
        invariant
            i <= elements.len(),
            depths_fit(elements@, depth as int),
            tags.len() == i,
            forall|j: int| 0 <= j < i ==> (#[trigger] tags@[j])@ == element_node(
                elements@[j],
                depth as int,
            ),
        decreases elements.len() - i,
    {
        let element = &elements[i];
        assert(element_fits(elements@[i as int], depth as int));
        let tag_str = format_tag(element.group, element.element);
        let name = dictionary_alias(element.group, element.element);
        let vr = element.vr.clone();
        let (value, children, is_expandable) = match &element.value {
            RawValue::Items(items) => {
                let children = extract_sequence_items(items, depth + 1);
                let is_expandable = !children.is_empty();
                let value = format_sequence_summary(items.len());
                (value, children, is_expandable)
            },
            _ => (format_value(&element.value), Vec::new(), false),
        };
        let node = DicomTag {
            tag: tag_str,
            name,
            vr,
            value,
            baseline_value: None,
            depth,
            is_expandable,
            is_expanded: false,
            children,
            diff_status: None,
        };
        proof {
            lemma_children_view(node);
            assert(node@.children =~= element_node(elements@[i as int], depth as int).children);
        }
        tags.push(node);
        i += 1;
    }
    assert(forest_view(tags@) =~= element_nodes(elements@, depth as int));
    tags
}

/// Builds the header nodes of the items of a sequence at a depth, each
/// with the nodes of its elements below it.
pub fn extract_sequence_items(items: &Vec<RawItem>, depth: usize) -> (children: Vec<DicomTag>)
    requires
        items_fit(items@, depth as int),
    ensures
        forest_view(children@) == item_nodes(items@, depth as int),
    decreases items,
{
    let mut children: Vec<DicomTag> = Vec::new();
    let mut item_idx: usize = 0;
    while item_idx < items.len()
        invariant
            item_idx <= items.len(),
            items_fit(items@, depth as int),
            children.len() == item_idx,
            forall|j: int| 0 <= j < item_idx ==> (#[trigger] children@[j])@ == item_node(
                items@[j],
                j,
                depth as int,
            ),
        decreases items.len() - item_idx,
    {
        let item = &items[item_idx];
        assert(depths_fit(items@[item_idx as int].elements@, depth + 1));
        let item_children = extract_tags_from_inmem_object(&item.elements, depth + 1);
        let mut label = String::from_str("Item #");
        append_decimal(&mut label, item_idx + 1);
        let mut summary = String::from_str("<");
        append_decimal(&mut summary, item.elements.len());
        summary.append(" element(s)>");
        let item_header = DicomTag {
            tag: label,
            name: String::new(),
            vr: String::new(),
            value: summary,
            baseline_value: None,
            depth,
            is_expandable: !item_children.is_empty(),
            is_expanded: false,
            children: item_children,
            diff_status: None,
        };
        proof {
            lemma_children_view(item_header);
            assert(item_header@.children =~= item_node(
                items@[item_idx as int],
                item_idx as int,
                depth as int,
            ).children);
        }
        children.push(item_header);
        item_idx += 1;
    }
    assert(forest_view(children@) =~= item_nodes(items@, depth as int));
    children
}

/// Builds the forest of a decoded record.
pub fn extract_tags(record: &Vec<RawElement>) -> (tags: Vec<DicomTag>)
    requires
        depths_fit(record@, 0),
    ensures
        forest_view(tags@) == record_forest(record@),
{
    extract_tags_from_inmem_object(record, 0)
}

/// The nodes built from a list of elements are well formed: each at its
/// depth, expandable exactly if it has children, and collapsed.
pub proof fn lemma_element_nodes_wf(elements: Seq<RawElement>, depth: int)
    requires
        0 <= depth <= usize::MAX,
        depths_fit(elements, depth),
    ensures
        forest_wf(element_nodes(elements, depth), depth),
    decreases elements,
{
    assert forall|i: int| 0 <= i < elements.len() implies node_wf(
        #[trigger] element_nodes(elements, depth)[i],
        depth,
    ) by {
        let e = elements[i];
        assert(element_fits(e, depth));
        let t = element_node(e, depth);
        match e.value {
            RawValue::Items(items) => {
                assert forall|k: int| 0 <= k < t.children.len() implies node_wf(
                    #[trigger] t.children[k],
                    depth + 1,
                ) by {
                    let item = items@[k];
                    lemma_element_nodes_wf(item.elements@, depth + 2);
                    let u = item_node(item, k, depth + 1);
                    assert(t.children[k] == u);
                    assert forall|n: int| 0 <= n < u.children.len() implies node_wf(
                        #[trigger] u.children[n],
                        depth + 2,
                    ) by {
                        assert(u.children[n] == element_nodes(item.elements@, depth + 2)[n]);
                    }
                }
            },
            _ => {},
        }
    }
}

/// The forest of a decoded record is well formed, its roots at depth 0.
pub proof fn lemma_record_forest_wf(record: Seq<RawElement>)
    requires
        depths_fit(record, 0),
    ensures
        forest_wf(record_forest(record), 0),
{
    lemma_element_nodes_wf(record, 0);
}

} // verus!
