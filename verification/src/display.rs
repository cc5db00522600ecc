use vstd::prelude::*;
use crate::app::App;
use crate::dicom::DicomTag;
use crate::dicom::DiffStatus;
use crate::dicom::TagView;
use crate::rules::ct_image_storage;
use crate::rules::mr_image_storage;
use crate::state::AppView;
use crate::validation::SopClass;
use crate::validation::SopClassView;
use crate::validation::ValidationResult;
use crate::validation::ValidationView;
use crate::validation::texts_view;

verus! {

/// Two spaces for each level of depth.
pub open spec fn indent(depth: nat) -> Seq<char>
    decreases depth,
{
    if depth == 0 {
        Seq::empty()
    } else {
        indent((depth - 1) as nat) + "  "@
    }
}

/// The mark in front of an identifier: a triangle that points down on an
/// expanded node, one that points right on a collapsed node that can be
/// expanded, blanks on any other node.
pub open spec fn expand_indicator(t: TagView) -> Seq<char> {
    if t.is_expandable {
        if t.is_expanded {
            "▼ "@
        } else {
            "▶ "@
        }
    } else {
        "  "@
    }
}

/// The first cell of a row: indentation, mark and identifier.
pub open spec fn row_label(t: TagView) -> Seq<char> {
    indent(t.depth as nat) + expand_indicator(t) + t.tag
}

/// The one-letter mark of a diff status.
pub open spec fn diff_indicator(status: Option<DiffStatus>) -> Seq<char> {
    match status {
        Some(DiffStatus::Added) => "+"@,
        Some(DiffStatus::Deleted) => "-"@,
        Some(DiffStatus::Changed) => "M"@,
        _ => " "@,
    }
}

/// The name under which a class is shown.
pub open spec fn sop_class_name(c: SopClassView) -> Seq<char> {
    match c {
        SopClassView::Ct => "CT Image Storage"@,
        SopClassView::Mr => "MR Image Storage"@,
        SopClassView::Other(_) => "Other"@,
        SopClassView::Unknown => "Unknown"@,
    }
}

/// The identifier under which a class is shown.
pub open spec fn sop_class_uid(c: SopClassView) -> Seq<char> {
    match c {
        SopClassView::Ct => ct_image_storage(),
        SopClassView::Mr => mr_image_storage(),
        SopClassView::Other(uid) => uid,
        SopClassView::Unknown => "N/A"@,
    }
}

/// The line that names the record's class.
pub open spec fn sop_class_line(c: SopClassView) -> Seq<char> {
    "SOP Class: "@ + sop_class_name(c) + " ("@ + sop_class_uid(c) + ")"@
}

/// The heading of the validation report.
pub open spec fn validation_title(v: ValidationView) -> Seq<char> {
    match v {
        ValidationView::Valid => " ✓ All required fields present "@,
        ValidationView::Invalid(_) => " ✗ Missing required fields "@,
        ValidationView::NotApplicable => " Validation not applicable "@,
    }
}

/// The number of screen lines that the validation report takes.
pub open spec fn validation_height(v: ValidationView) -> u16 {
    if v is Invalid {
        4
    } else {
        3
    }
}

/// Texts in a row, a comma and a space between each two.
pub open spec fn comma_separated(names: Seq<Seq<char>>) -> Seq<char>
    decreases names.len(),
{
    if names.len() == 0 {
        Seq::empty()
    } else if names.len() == 1 {
        names[0]
    } else {
        comma_separated(names.drop_last()) + ", "@ + names.last()
    }
}

/// The heading of the table.
pub open spec fn window_title(v: AppView) -> Seq<char> {
    if v.diff_mode {
        match v.modified_name {
            Some(modified) => " DICOM Diff: "@ + v.file_name + " ↔ "@ + modified + " "@,
            None => " DICOM Diff: "@ + v.file_name + " "@,
        }
    } else {
        " DICOM Viewer: "@ + v.file_name + " "@
    }
}

/// The line on which the query is edited.
pub open spec fn search_prompt(query: Seq<char>) -> Seq<char> {
    "/"@ + query + "_"@
}

/// Writes the first cell of a row.
pub fn tag_display(tag: &DicomTag) -> (r: String)
    ensures
        r@ == row_label(tag@),
{
    let mut r = String::new();
    let mut i: usize = 0;
    assert(r@ =~= indent(0));
    while i < tag.depth
        invariant
            i <= tag.depth,
            r@ == indent(i as nat),
        decreases tag.depth - i,
    {
        r.append("  ");
        i += 1;
    }
    let indicator = if tag.is_expandable {
        if tag.is_expanded {
            "▼ "
        } else {
            "▶ "
        }
    } else {
        "  "
    };
    r.append(indicator);
    r.append(tag.tag.as_str());
    r
}

/// The one-letter mark of a diff status.
pub fn diff_indicator_text(status: Option<DiffStatus>) -> (r: &'static str)
    ensures
        r@ == diff_indicator(status),
{
    match status {
        Some(DiffStatus::Added) => "+",
        Some(DiffStatus::Deleted) => "-",
        Some(DiffStatus::Changed) => "M",
        _ => " ",
    }
}

/// Writes the line that names the record's class.
pub fn sop_class_text(sop_class: &SopClass) -> (r: String)
    ensures
        r@ == sop_class_line(sop_class@),
{
    let mut r = String::from_str("SOP Class: ");
    match sop_class {
        SopClass::Ct => {
            r.append("CT Image Storage");
            r.append(" (");
            r.append("1.2.840.10008.5.1.4.1.1.2");
        },
        SopClass::Mr => {
            r.append("MR Image Storage");
            r.append(" (");
            r.append("1.2.840.10008.5.1.4.1.1.4");
        },
        SopClass::Other(uid) => {
            r.append("Other");
            r.append(" (");
            r.append(uid.as_str());
        },
        SopClass::Unknown => {
            r.append("Unknown");
            r.append(" (");
            r.append("N/A");
        },
    }
    r.append(")");
    assert(r@ =~= sop_class_line(sop_class@));
    r
}

/// The heading of the validation report.
pub fn validation_title_text(result: &ValidationResult) -> (r: &'static str)
    ensures
        r@ == validation_title(result@),
{
    match result {
        ValidationResult::Valid => " ✓ All required fields present ",
        ValidationResult::Invalid(_) => " ✗ Missing required fields ",
        ValidationResult::NotApplicable => " Validation not applicable ",
    }
}

/// The number of screen lines that the validation report takes.
pub fn validation_pane_height(result: &ValidationResult) -> (r: u16)
    ensures
        r == validation_height(result@),
{
    match result {
        ValidationResult::Invalid(_) => 4,
        _ => 3,
    }
}

/// Writes the names of the missing fields in a row.
pub fn missing_text(missing: &Vec<String>) -> (r: String)
    ensures
        r@ == comma_separated(texts_view(missing@)),
{
    let ghost names = texts_view(missing@);
    let mut r = String::new();
    let mut i: usize = 0;
    assert(r@ =~= comma_separated(names.take(0)));
    while i < missing.len()
        invariant
            i <= missing.len(),
            names == texts_view(missing@),
            r@ == comma_separated(names.take(i as int)),
        decreases missing.len() - i,
    {
        if i > 0 {
            r.append(", ");
        }
        r.append(missing[i].as_str());
        proof {
            assert(names.take(i + 1).drop_last() =~= names.take(i as int));
            assert(r@ =~= comma_separated(names.take(i + 1)));
        }
        i += 1;
    }
    assert(names.take(missing.len() as int) =~= names);
    r
}

/// Writes the heading of the table.
pub fn window_title_text(app: &App) -> (r: String)
    ensures
        r@ == window_title(app@),
{
    let mut r = String::new();
    if app.diff_mode {
        r.append(" DICOM Diff: ");
        r.append(app.file_name.as_str());
        match &app.modified_name {
            Some(modified) => {
                r.append(" ↔ ");
                r.append(modified.as_str());
            },
            None => {},
        }
    } else {
        r.append(" DICOM Viewer: ");
        r.append(app.file_name.as_str());
    }
    r.append(" ");
    assert(r@ =~= window_title(app@));
    r
}

/// Writes the line on which the query is edited.
pub fn search_prompt_text(query: &str) -> (r: String)
    ensures
        r@ == search_prompt(query@),
{
    let mut r = String::from_str("/");
    r.append(query);
    r.append("_");
    r
}

} // verus!
