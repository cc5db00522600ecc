use dcr::app::App;
use dcr::cursor::{SelectionCursor, TableArea};
use dcr::dicom::DicomTag;
use dcr::events::{InputEvent, KeyInput};
use dcr::validation::{SopClass, ValidationResult};

fn leaf(tag: &str, name: &str, depth: usize) -> DicomTag {
    DicomTag {
        tag: tag.to_string(),
        name: name.to_string(),
        vr: "LO".to_string(),
        value: "value".to_string(),
        baseline_value: None,
        depth,
        is_expandable: false,
        is_expanded: false,
        children: Vec::new(),
        diff_status: None,
    }
}

fn node(tag: &str, name: &str, depth: usize, children: Vec<DicomTag>) -> DicomTag {
    let mut t = leaf(tag, name, depth);
    t.vr = "SQ".to_string();
    t.is_expandable = !children.is_empty();
    t.children = children;
    t
}

fn two_roots() -> Vec<DicomTag> {
    vec![
        leaf("(0010,0010)", "PatientName", 0),
        node(
            "(0008,1110)",
            "ReferencedStudySequence",
            0,
            vec![leaf("(0008,0100)", "CodeValue", 1), leaf("(0008,0102)", "CodingSchemeDesignator", 1)],
        ),
    ]
}

fn nested() -> Vec<DicomTag> {
    vec![
        leaf("(0008,0060)", "Modality", 0),
        node(
            "(0008,1110)",
            "ReferencedStudySequence",
            0,
            vec![
                node(
                    "Item #1",
                    "",
                    1,
                    vec![leaf("(0008,1150)", "ReferencedSOPClassUID", 2), leaf("(0008,1155)", "ReferencedSOPInstanceUID", 2)],
                ),
                node("Item #2", "", 1, vec![leaf("(0008,1150)", "ReferencedSOPClassUID", 2)]),
            ],
        ),
        leaf("(0010,0010)", "PatientName", 0),
    ]
}

fn viewer(tags: Vec<DicomTag>) -> App {
    App::new(tags, "test.dcm".to_string(), ValidationResult::Valid, SopClass::Ct)
}

fn ids(app: &App) -> Vec<String> {
    app.tags.iter().map(|t| t.tag.clone()).collect()
}

fn key(app: &mut App, k: KeyInput) {
    app.handle_events(InputEvent::Key(k));
}

fn type_text(app: &mut App, text: &str) {
    for c in text.chars() {
        key(app, KeyInput::Char(c));
    }
}

#[test]
fn scenario_expand_selected_then_collapse_parent() {
    let mut app = viewer(two_roots());
    assert_eq!(ids(&app), vec!["(0010,0010)", "(0008,1110)"]);
    assert_eq!(app.tags.len(), 2);

    app.table_state.select(Some(1));
    app.expand_selected();
    assert_eq!(ids(&app), vec!["(0010,0010)", "(0008,1110)", "(0008,0100)", "(0008,0102)"]);
    assert_eq!(app.tags.len(), 4);
    assert!(app.tags[1].is_expanded);
    assert_eq!(app.table_state.selected(), Some(1));

    app.table_state.select(Some(2));
    app.collapse_parent();
    assert_eq!(app.tags.len(), 2);
    assert_eq!(ids(&app), vec!["(0010,0010)", "(0008,1110)"]);
    assert_eq!(app.table_state.selected(), Some(1));
    assert_eq!(app.tags[1].tag, "(0008,1110)");
    assert!(!app.tags[1].is_expanded);
    assert!(!app.all_tags[1].is_expanded);
}

#[test]
fn expand_selected_ignores_leaves_and_expanded_rows() {
    let mut app = viewer(two_roots());
    app.table_state.select(Some(0));
    app.expand_selected();
    assert_eq!(app.tags.len(), 2);
    assert!(!app.all_tags[0].is_expanded);

    app.table_state.select(Some(1));
    app.expand_selected();
    app.expand_selected();
    assert_eq!(app.tags.len(), 4);

    app.table_state.select(None);
    app.expand_selected();
    assert_eq!(app.tags.len(), 4);

    app.table_state.select(Some(99));
    app.expand_selected();
    app.collapse_parent();
    assert_eq!(app.tags.len(), 4);
    assert_eq!(app.table_state.selected(), Some(99));
}

#[test]
fn expand_reaches_nested_nodes_through_their_path() {
    let mut app = viewer(nested());
    app.table_state.select(Some(1));
    app.expand_selected();
    assert_eq!(ids(&app), vec!["(0008,0060)", "(0008,1110)", "Item #1", "Item #2", "(0010,0010)"]);
    app.table_state.select(Some(3));
    app.expand_selected();
    assert_eq!(
        ids(&app),
        vec!["(0008,0060)", "(0008,1110)", "Item #1", "Item #2", "(0008,1150)", "(0010,0010)"]
    );
    assert!(app.all_tags[1].children[1].is_expanded);
    assert!(!app.all_tags[1].children[0].is_expanded);
    assert_eq!(app.build_path_to_tag(4), vec![1, 1, 0]);
    assert_eq!(app.build_path_to_tag(5), vec![2]);
    assert_eq!(app.build_path_to_tag(0), vec![0]);
    assert_eq!(app.build_path_to_tag(6), Vec::<usize>::new());
    assert_eq!(app.build_path_to_tag(usize::MAX), Vec::<usize>::new());
}

#[test]
fn collapse_parent_takes_the_nearest_open_ancestor() {
    let mut app = viewer(nested());
    app.table_state.select(Some(1));
    app.expand_selected();
    app.table_state.select(Some(2));
    app.expand_selected();
    app.table_state.select(Some(5));
    app.expand_selected();
    assert_eq!(
        ids(&app),
        vec![
            "(0008,0060)", "(0008,1110)", "Item #1", "(0008,1150)", "(0008,1155)", "Item #2",
            "(0008,1150)", "(0010,0010)"
        ]
    );
    // from a leaf of the second item: the second item closes
    app.table_state.select(Some(6));
    app.collapse_parent();
    assert_eq!(app.table_state.selected(), Some(5));
    assert_eq!(app.tags.len(), 7);
    assert_eq!(app.tags[5].tag, "Item #2");
    assert!(!app.tags[5].is_expanded);
    // from the second item, now collapsed: the sequence closes, with all below it
    app.collapse_parent();
    assert_eq!(app.table_state.selected(), Some(1));
    assert_eq!(ids(&app), vec!["(0008,0060)", "(0008,1110)", "(0010,0010)"]);
    // the first item keeps its own flag for the next expansion
    assert!(app.all_tags[1].children[0].is_expanded);
    app.expand_selected();
    assert_eq!(app.tags.len(), 7);
    // at depth 0 nothing happens
    app.table_state.select(Some(0));
    app.collapse_parent();
    assert_eq!(app.tags.len(), 7);
    assert_eq!(app.table_state.selected(), Some(0));
}

#[test]
fn collapsing_removes_exactly_the_rows_below_the_node() {
    let mut app = viewer(nested());
    app.table_state.select(Some(1));
    app.expand_selected();
    app.table_state.select(Some(2));
    app.expand_selected();
    let before = ids(&app);
    assert_eq!(before.len(), 7);
    let paths: Vec<Vec<usize>> = (0..before.len()).map(|i| app.build_path_to_tag(i)).collect();
    let target = vec![1usize];
    App::set_expanded_in_tree(&mut app.all_tags, &target, false);
    app.rebuild_visible_tags();
    let after: Vec<Vec<usize>> = (0..app.tags.len()).map(|i| app.build_path_to_tag(i)).collect();
    let kept: Vec<Vec<usize>> = paths
        .into_iter()
        .filter(|p| !(p.len() > target.len() && p[..target.len()] == target[..]))
        .collect();
    assert_eq!(after, kept);
    assert_eq!(ids(&app), vec!["(0008,0060)", "(0008,1110)", "(0010,0010)"]);
}

#[test]
fn expand_then_collapse_gives_back_the_rows() {
    let mut app = viewer(nested());
    app.table_state.select(Some(1));
    app.expand_selected();
    let before = ids(&app);
    let path = app.build_path_to_tag(3);
    assert_eq!(path, vec![1, 1]);
    App::set_expanded_in_tree(&mut app.all_tags, &path, true);
    app.rebuild_visible_tags();
    assert_eq!(app.tags.len(), before.len() + 1);
    App::set_expanded_in_tree(&mut app.all_tags, &path, false);
    app.rebuild_visible_tags();
    assert_eq!(ids(&app), before);
}

#[test]
fn rows_are_the_nodes_reached_through_expanded_nodes() {
    fn count(tags: &[DicomTag]) -> usize {
        tags.iter()
            .map(|t| 1 + if t.is_expanded && !t.children.is_empty() { count(&t.children) } else { 0 })
            .sum()
    }
    let mut forest = nested();
    assert_eq!(App::build_visible_tags_from(&forest).len(), count(&forest));
    forest[1].is_expanded = true;
    assert_eq!(App::build_visible_tags_from(&forest).len(), 5);
    assert_eq!(App::build_visible_tags_from(&forest).len(), count(&forest));
    forest[1].children[0].is_expanded = true;
    forest[1].children[1].is_expanded = true;
    assert_eq!(App::build_visible_tags_from(&forest).len(), 8);
    assert_eq!(App::build_visible_tags_from(&forest).len(), count(&forest));
    forest[1].is_expanded = false;
    assert_eq!(App::build_visible_tags_from(&forest).len(), 3);
    // an expanded flag on a node without children shows nothing more
    forest[0].is_expanded = true;
    assert_eq!(App::build_visible_tags_from(&forest).len(), 3);
    let mut rows = vec![leaf("first", "", 0)];
    App::collect_visible_tags(&forest, &mut rows);
    assert_eq!(rows.len(), 4);
    assert_eq!(rows[0].tag, "first");
    assert_eq!(rows[3].tag, "(0010,0010)");
}

#[test]
fn set_expanded_in_tree_ignores_paths_that_lead_nowhere() {
    let mut forest = nested();
    App::set_expanded_in_tree(&mut forest, &[], true);
    App::set_expanded_in_tree(&mut forest, &[3], true);
    App::set_expanded_in_tree(&mut forest, &[1, 2], true);
    App::set_expanded_in_tree(&mut forest, &[1, 0, 5], true);
    App::set_expanded_in_tree(&mut forest, &[0, 0], true);
    App::set_expanded_in_tree(&mut forest, &[usize::MAX], true);
    assert!(forest.iter().all(|t| !t.is_expanded));
    assert!(forest[1].children.iter().all(|t| !t.is_expanded));
    assert!(forest[1].children[0].children.iter().all(|t| !t.is_expanded));
    App::set_expanded_in_tree(&mut forest, &[1, 0, 1], true);
    assert!(forest[1].children[0].children[1].is_expanded);
    assert!(!forest[1].children[0].is_expanded);
    assert!(!forest[1].is_expanded);
    App::set_expanded_in_tree(&mut forest, &[1, 0, 1], false);
    assert!(!forest[1].children[0].children[1].is_expanded);
}

#[test]
fn scrolling_stays_within_the_rows() {
    let mut app = viewer(nested());
    assert_eq!(app.table_state.selected(), Some(0));
    app.scroll_down(1);
    assert_eq!(app.table_state.selected(), Some(1));
    app.scroll_down(3);
    assert_eq!(app.table_state.selected(), Some(2));
    app.scroll_down(usize::MAX);
    assert_eq!(app.table_state.selected(), Some(2));
    app.scroll_up(1);
    assert_eq!(app.table_state.selected(), Some(1));
    app.scroll_up(3);
    assert_eq!(app.table_state.selected(), Some(0));
    app.scroll_up(usize::MAX);
    assert_eq!(app.table_state.selected(), Some(0));
    app.table_state.select(None);
    app.scroll_down(2);
    assert_eq!(app.table_state.selected(), Some(2));
    app.table_state.select(None);
    app.scroll_up(2);
    assert_eq!(app.table_state.selected(), Some(0));
    app.table_state.select(Some(usize::MAX));
    app.scroll_down(1);
    assert_eq!(app.table_state.selected(), Some(2));

    let mut empty = viewer(Vec::new());
    empty.scroll_down(1);
    empty.scroll_up(1);
    assert_eq!(empty.table_state.selected(), None);
}

#[test]
fn mouse_wheel_moves_three_rows() {
    let mut forest = nested();
    forest[1].is_expanded = true;
    forest[1].children[0].is_expanded = true;
    let mut app = viewer(forest);
    assert_eq!(app.tags.len(), 7);
    app.handle_events(InputEvent::ScrollDown);
    assert_eq!(app.table_state.selected(), Some(3));
    app.handle_events(InputEvent::ScrollDown);
    assert_eq!(app.table_state.selected(), Some(6));
    app.handle_events(InputEvent::ScrollDown);
    assert_eq!(app.table_state.selected(), Some(6));
    app.handle_events(InputEvent::ScrollUp);
    assert_eq!(app.table_state.selected(), Some(3));
    app.handle_events(InputEvent::Other);
    assert_eq!(app.table_state.selected(), Some(3));
}

#[test]
fn a_click_selects_the_row_drawn_there() {
    let mut forest = nested();
    forest[1].is_expanded = true;
    let mut app = viewer(forest);
    assert_eq!(app.tags.len(), 5);
    app.table_area = TableArea { x: 0, y: 3, width: 80, height: 10 };
    // rows start two lines below the top of the area
    app.handle_events(InputEvent::LeftClick { row: 5 });
    assert_eq!(app.table_state.selected(), Some(0));
    app.handle_events(InputEvent::LeftClick { row: 7 });
    assert_eq!(app.table_state.selected(), Some(2));
    // border and header
    app.handle_events(InputEvent::LeftClick { row: 4 });
    app.handle_events(InputEvent::LeftClick { row: 3 });
    app.handle_events(InputEvent::LeftClick { row: 0 });
    assert_eq!(app.table_state.selected(), Some(2));
    // below the last row, and below the area
    app.handle_events(InputEvent::LeftClick { row: 10 });
    app.handle_events(InputEvent::LeftClick { row: 13 });
    app.handle_events(InputEvent::LeftClick { row: u16::MAX });
    assert_eq!(app.table_state.selected(), Some(2));
    app.handle_events(InputEvent::LeftClick { row: 9 });
    assert_eq!(app.table_state.selected(), Some(4));
    // scrolled by two rows
    app.table_state = SelectionCursor { offset: 2, selected: Some(0) };
    app.click(5);
    assert_eq!(app.table_state.selected(), Some(2));
    app.click(8);
    assert_eq!(app.table_state.selected(), Some(2));
    app.table_state = SelectionCursor { offset: usize::MAX, selected: Some(0) };
    app.click(6);
    assert_eq!(app.table_state.selected(), Some(0));
    app.table_area = TableArea { x: 0, y: u16::MAX, width: 80, height: u16::MAX };
    app.click(u16::MAX);
    assert_eq!(app.table_state.selected(), Some(0));
}

#[test]
fn selecting_none_goes_back_to_the_top() {
    let mut cursor = SelectionCursor::new();
    assert_eq!(cursor.selected(), None);
    assert_eq!(cursor.offset(), 0);
    cursor.offset = 7;
    cursor.select(Some(9));
    assert_eq!(cursor.selected(), Some(9));
    assert_eq!(cursor.offset(), 7);
    cursor.select(None);
    assert_eq!(cursor.selected(), None);
    assert_eq!(cursor.offset(), 0);
}

#[test]
fn navigation_keys_in_normal_mode() {
    let mut app = viewer(two_roots());
    key(&mut app, KeyInput::Down);
    assert_eq!(app.table_state.selected(), Some(1));
    key(&mut app, KeyInput::Right);
    assert_eq!(app.tags.len(), 4);
    key(&mut app, KeyInput::Char('j'));
    assert_eq!(app.table_state.selected(), Some(2));
    key(&mut app, KeyInput::Char('h'));
    assert_eq!(app.tags.len(), 2);
    assert_eq!(app.table_state.selected(), Some(1));
    key(&mut app, KeyInput::Char('l'));
    assert_eq!(app.tags.len(), 4);
    key(&mut app, KeyInput::Char('k'));
    assert_eq!(app.table_state.selected(), Some(0));
    key(&mut app, KeyInput::Down);
    key(&mut app, KeyInput::Down);
    key(&mut app, KeyInput::Left);
    assert_eq!(app.tags.len(), 2);
    key(&mut app, KeyInput::Up);
    assert_eq!(app.table_state.selected(), Some(0));
    key(&mut app, KeyInput::Enter);
    key(&mut app, KeyInput::Backspace);
    key(&mut app, KeyInput::Other);
    key(&mut app, KeyInput::Char('x'));
    assert!(!app.search_mode);
    assert!(!app.should_quit);
    assert_eq!(app.search_query, "");
    assert_eq!(app.tags.len(), 2);
}

#[test]
fn quit_keys_quit_when_no_filter_is_applied() {
    let mut app = viewer(two_roots());
    key(&mut app, KeyInput::Char('q'));
    assert!(app.should_quit);
    let mut app = viewer(two_roots());
    key(&mut app, KeyInput::Esc);
    assert!(app.should_quit);
}

#[test]
fn scenario_search_for_0010_and_clear() {
    let mut app = viewer(two_roots());
    key(&mut app, KeyInput::Char('/'));
    assert!(app.search_mode);
    type_text(&mut app, "0010");
    assert_eq!(app.search_query, "0010");
    assert_eq!(ids(&app), vec!["(0010,0010)"]);
    assert_eq!(app.table_state.selected(), Some(0));
    for _ in 0..4 {
        key(&mut app, KeyInput::Backspace);
    }
    assert_eq!(app.search_query, "");
    assert!(app.search_mode);
    assert!(app.filtered_tags.is_none());
    assert_eq!(ids(&app), vec!["(0010,0010)", "(0008,1110)"]);
    key(&mut app, KeyInput::Backspace);
    assert_eq!(app.search_query, "");
    assert_eq!(app.tags.len(), 2);
}

#[test]
fn search_state_machine() {
    let mut app = viewer(nested());
    app.table_state.select(Some(2));
    key(&mut app, KeyInput::Char('/'));
    assert!(app.search_mode);
    assert_eq!(app.table_state.selected(), Some(2));
    // keys that edit nothing
    key(&mut app, KeyInput::Down);
    key(&mut app, KeyInput::Left);
    key(&mut app, KeyInput::Other);
    assert_eq!(app.table_state.selected(), Some(2));
    // letters that are commands elsewhere are text here
    type_text(&mut app, "q");
    assert!(!app.should_quit);
    assert_eq!(app.search_query, "q");
    assert_eq!(app.tags.len(), 1);
    assert_eq!(app.tags[0].tag, "(0008,1110)");
    assert_eq!(app.table_state.selected(), Some(0));
    type_text(&mut app, "z");
    assert_eq!(app.tags.len(), 0);
    assert_eq!(app.table_state.selected(), None);
    key(&mut app, KeyInput::Backspace);
    assert_eq!(app.search_query, "q");
    assert_eq!(app.tags.len(), 1);
    // confirm: back to normal, the filter stays
    key(&mut app, KeyInput::Enter);
    assert!(!app.search_mode);
    assert_eq!(app.search_query, "q");
    assert_eq!(app.tags.len(), 1);
    // expansion works on the filtered roots, and leaves the whole forest alone
    key(&mut app, KeyInput::Right);
    assert_eq!(ids(&app), vec!["(0008,1110)", "Item #1", "Item #2"]);
    assert!(!app.all_tags[1].is_expanded);
    key(&mut app, KeyInput::Down);
    key(&mut app, KeyInput::Left);
    assert_eq!(ids(&app), vec!["(0008,1110)"]);
    // quit removes the filter first
    key(&mut app, KeyInput::Char('q'));
    assert!(!app.should_quit);
    assert_eq!(app.search_query, "");
    assert!(app.filtered_tags.is_none());
    assert_eq!(app.tags.len(), 3);
    assert_eq!(app.table_state.selected(), Some(0));
    key(&mut app, KeyInput::Char('q'));
    assert!(app.should_quit);
}

#[test]
fn cancel_clears_query_and_filter() {
    let mut app = viewer(nested());
    key(&mut app, KeyInput::Char('/'));
    type_text(&mut app, "patient");
    assert_eq!(ids(&app), vec!["(0010,0010)"]);
    key(&mut app, KeyInput::Esc);
    assert!(!app.search_mode);
    assert!(!app.should_quit);
    assert_eq!(app.search_query, "");
    assert!(app.filtered_tags.is_none());
    assert_eq!(app.tags.len(), 3);
    assert_eq!(app.table_state.selected(), Some(0));
}

#[test]
fn activating_search_starts_from_an_empty_query() {
    let mut app = viewer(nested());
    key(&mut app, KeyInput::Char('/'));
    type_text(&mut app, "modality");
    key(&mut app, KeyInput::Enter);
    assert_eq!(app.tags.len(), 1);
    key(&mut app, KeyInput::Char('/'));
    assert!(app.search_mode);
    assert_eq!(app.search_query, "");
    assert!(app.filtered_tags.is_none());
    assert_eq!(app.tags.len(), 3);
    assert!(!app.filter_applied());
    type_text(&mut app, "seq");
    assert!(app.filter_applied());
    assert_eq!(ids(&app), vec!["(0008,1110)"]);
}

#[test]
fn every_query_edit_filters_the_whole_forest_afresh() {
    let mut app = viewer(nested());
    key(&mut app, KeyInput::Char('/'));
    type_text(&mut app, "0008");
    assert_eq!(ids(&app), vec!["(0008,0060)", "(0008,1110)"]);
    key(&mut app, KeyInput::Enter);
    key(&mut app, KeyInput::Down);
    key(&mut app, KeyInput::Right);
    assert_eq!(app.tags.len(), 4);
    // narrowing the query starts from the unfiltered forest: the expansion is gone
    app.search_mode = true;
    type_text(&mut app, ",1");
    assert_eq!(app.search_query, "0008,1");
    assert_eq!(ids(&app), vec!["(0008,1110)"]);
    // widening brings back roots that the longer query had dropped
    key(&mut app, KeyInput::Backspace);
    key(&mut app, KeyInput::Backspace);
    key(&mut app, KeyInput::Backspace);
    key(&mut app, KeyInput::Backspace);
    assert_eq!(app.search_query, "00");
    assert_eq!(app.tags.len(), 3);
}

#[test]
fn sessions_carry_report_and_class() {
    let app = App::for_record(two_roots(), "a.dcm".to_string());
    assert_eq!(app.file_name, "a.dcm");
    assert!(!app.diff_mode);
    assert!(app.modified_name.is_none());
    assert!(matches!(app.validation_result, ValidationResult::NotApplicable));
    assert!(matches!(app.sop_class, SopClass::Unknown));
    assert_eq!(app.tags.len(), 2);
    assert_eq!(app.table_state.selected(), Some(0));
    assert_eq!(app.table_area, TableArea { x: 0, y: 0, width: 0, height: 0 });

    let mut class = leaf("(0008,0016)", "SOPClassUID", 0);
    class.vr = "UI".to_string();
    class.value = "1.2.840.10008.5.1.4.1.1.4".to_string();
    let baseline = vec![class, leaf("(0010,0010)", "PatientName", 0)];
    let modified = vec![leaf("(0010,0020)", "PatientID", 0)];
    let app = App::for_comparison(&baseline, &modified, "a.dcm".to_string(), "b.dcm".to_string());
    assert!(app.diff_mode);
    assert_eq!(app.file_name, "a.dcm");
    assert_eq!(app.modified_name, Some("b.dcm".to_string()));
    assert!(matches!(app.sop_class, SopClass::Mr));
    match &app.validation_result {
        ValidationResult::Invalid(missing) => {
            assert_eq!(missing[0], "SOPInstanceUID");
            assert_eq!(missing.len(), 21);
        }
        other => panic!("expected an invalid report, got {:?}", other),
    }
    assert_eq!(ids(&app), vec!["(0008,0016)", "(0010,0010)", "(0010,0020)"]);
}
