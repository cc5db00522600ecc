use dcr::app::App;
use dcr::dicom::DicomTag;
use dcr::search::{filter_roots, matches_folded, tag_matches};
use dcr::validation::{SopClass, ValidationResult};

fn leaf(tag: &str, name: &str, depth: usize) -> DicomTag {
    DicomTag {
        tag: tag.to_string(),
        name: name.to_string(),
        vr: "LO".to_string(),
        value: "value".to_string(),
        baseline_value: None,
        depth,
        is_expandable: false,
        is_expanded: false,
        children: Vec::new(),
        diff_status: None,
    }
}

fn forest() -> Vec<DicomTag> {
    let mut seq = leaf("(0008,1110)", "ReferencedStudySequence", 0);
    seq.is_expandable = true;
    seq.is_expanded = true;
    seq.children = vec![leaf("(0008,1150)", "ReferencedSOPClassUID", 1), leaf("(0010,0010)", "HiddenPatientName", 1)];
    vec![leaf("(0010,0010)", "PatientName", 0), seq, leaf("(7FE0,0010)", "PixelData", 0), leaf("(0020,000D)", "StudyInstanceUID", 0)]
}

fn ids(tags: &[DicomTag]) -> Vec<&str> {
    tags.iter().map(|t| t.tag.as_str()).collect()
}

#[test]
fn roots_match_by_identifier_or_name_whatever_the_case() {
    let f = forest();
    assert_eq!(ids(&filter_roots(&f, "patient")), vec!["(0010,0010)"]);
    assert_eq!(ids(&filter_roots(&f, "PATIENT")), vec!["(0010,0010)"]);
    assert_eq!(ids(&filter_roots(&f, "7fe0")), vec!["(7FE0,0010)"]);
    assert_eq!(ids(&filter_roots(&f, "7FE0")), vec!["(7FE0,0010)"]);
    assert_eq!(ids(&filter_roots(&f, "000d")), vec!["(0020,000D)"]);
    assert_eq!(ids(&filter_roots(&f, "study")), vec!["(0008,1110)", "(0020,000D)"]);
    assert_eq!(ids(&filter_roots(&f, "0010")), vec!["(0010,0010)", "(7FE0,0010)"]);
    assert_eq!(ids(&filter_roots(&f, "(")), vec!["(0010,0010)", "(0008,1110)", "(7FE0,0010)", "(0020,000D)"]);
    assert_eq!(ids(&filter_roots(&f, "")), vec!["(0010,0010)", "(0008,1110)", "(7FE0,0010)", "(0020,000D)"]);
    assert!(filter_roots(&f, "no such thing").is_empty());
    assert!(filter_roots(&Vec::new(), "a").is_empty());
}

#[test]
fn a_match_below_a_root_does_not_surface_the_root() {
    let f = forest();
    assert!(filter_roots(&f, "sopclass").is_empty());
    assert!(filter_roots(&f, "1150").is_empty());
    assert_eq!(ids(&filter_roots(&f, "hidden")), Vec::<&str>::new());
}

#[test]
fn retained_roots_keep_their_subtree_and_flags() {
    let f = forest();
    let kept = filter_roots(&f, "referenced");
    assert_eq!(kept.len(), 1);
    assert!(kept[0].is_expanded);
    assert_eq!(ids(&kept[0].children), vec!["(0008,1150)", "(0010,0010)"]);
    assert_eq!(kept[0].children[1].name, "HiddenPatientName");
    assert_eq!(kept[0].children[1].depth, 1);
}

#[test]
fn matching_on_lower_cased_texts() {
    assert!(matches_folded("(0010,0010)", "patientname", "name"));
    assert!(matches_folded("(0010,0010)", "patientname", "10,00"));
    assert!(matches_folded("(0010,0010)", "patientname", ""));
    assert!(matches_folded("", "", ""));
    assert!(!matches_folded("(0010,0010)", "patientname", "names"));
    assert!(!matches_folded("", "", "a"));
    assert!(!matches_folded("(0010,0010)", "patientname", "Name"));
    let tag = leaf("(7FE0,0010)", "PixelData", 0);
    assert!(tag_matches(&tag, "pixel"));
    assert!(tag_matches(&tag, "7fe0"));
    assert!(!tag_matches(&tag, "Pixel"));
    assert!(!tag_matches(&tag, "7FE0"));
    let umlaut = leaf("x", "GRÖSSE", 0);
    assert!(tag_matches(&umlaut, "größe") == "GRÖSSE".to_lowercase().contains("größe"));
    assert!(tag_matches(&umlaut, "grösse"));
}

#[test]
fn an_empty_query_shows_the_whole_forest_as_it_is() {
    let mut app = App::new(forest(), "test.dcm".to_string(), ValidationResult::Valid, SopClass::Ct);
    let all: Vec<String> = app.tags.iter().map(|t| t.tag.clone()).collect();
    assert_eq!(all.len(), 6);
    app.search_query = "pixel".to_string();
    app.filter_tags();
    assert_eq!(app.tags.len(), 1);
    assert!(app.filtered_tags.is_some());
    app.search_query = String::new();
    app.filter_tags();
    assert!(app.filtered_tags.is_none());
    let again: Vec<String> = app.tags.iter().map(|t| t.tag.clone()).collect();
    assert_eq!(again, all);
    assert_eq!(app.table_state.selected(), Some(0));
    assert_eq!(app.active_tags().len(), 4);
}

#[test]
fn a_query_without_match_leaves_no_row_and_no_selection() {
    let mut app = App::new(forest(), "test.dcm".to_string(), ValidationResult::Valid, SopClass::Ct);
    app.table_state.offset = 3;
    app.search_query = "sopclass".to_string();
    app.filter_tags();
    assert!(app.tags.is_empty());
    assert_eq!(app.table_state.selected(), None);
    assert_eq!(app.table_state.offset(), 0);
    assert_eq!(app.all_tags.len(), 4);
    app.expand_selected();
    app.collapse_parent();
    app.scroll_down(1);
    assert_eq!(app.table_state.selected(), None);
    app.clear_filter();
    assert_eq!(app.tags.len(), 6);
    assert_eq!(app.table_state.selected(), Some(0));
    assert_eq!(app.search_query, "");
    app.reset_selection();
    assert_eq!(app.table_state.selected(), Some(0));
}
