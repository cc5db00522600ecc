use vstd::prelude::*;
use crate::cursor::SelectionCursor;
use crate::cursor::TableArea;
use crate::dicom::DicomTag;
use crate::dicom::TagView;
use crate::dicom::compare_dicom_files;
use crate::dicom::forest_view;
use crate::dicom::lemma_children_view;
use crate::dicom::text_view;
use crate::diff::is_stable_sort;
use crate::diff::merged;
use crate::events::InputEvent;
use crate::events::KeyInput;
use crate::rules::sop_class_field;
use crate::rules::type1_rules;
use crate::search::filter_roots;
use crate::state::AppView;
use crate::state::lemma_handle_events_wf;
use crate::state::nearest_open_above;
use crate::text::pop_char;
use crate::text::push_char;
use crate::tree::forest_wf;
use crate::tree::lemma_node_paths_len;
use crate::tree::lemma_paths_len;
use crate::tree::lemma_paths_split;
use crate::tree::lemma_project_take;
use crate::tree::locate;
use crate::tree::node_paths;
use crate::tree::path_view;
use crate::tree::project;
use crate::tree::set_expanded;
use crate::tree::visible_paths;
use crate::validation::SopClass;
use crate::validation::ValidationResult;
use crate::validation::class_uid;
use crate::validation::get_sop_class;
use crate::validation::sop_class_of;
use crate::validation::validate;
use crate::validation::validate_type1_fields;

verus! {

/// The interactive state of the viewer.
pub struct App {
    /// The rows on display: the active forest flattened by expansion state.
    pub tags: Vec<DicomTag>,
    /// The whole forest, unfiltered.
    pub all_tags: Vec<DicomTag>,
    /// The roots that the search query retains, while a filter is applied.
    pub filtered_tags: Option<Vec<DicomTag>>,
    /// The highlighted row and the scroll position.
    pub table_state: SelectionCursor,
    /// Set once the user has asked to leave.
    pub should_quit: bool,
    /// Name of the record on display, of the baseline when comparing.
    pub file_name: String,
    /// Whether two records are being compared.
    pub diff_mode: bool,
    /// Name of the modified record when comparing.
    pub modified_name: Option<String>,
    /// Whether the query is being edited.
    pub search_mode: bool,
    /// The search query.
    pub search_query: String,
    /// Report on the mandatory fields.
    pub validation_result: ValidationResult,
    /// Conformance class of the record.
    pub sop_class: SopClass,
    /// Where the table was last drawn.
    pub table_area: TableArea,
}

/// The value of a forest that may be absent.
pub open spec fn option_forest_view(f: Option<Vec<DicomTag>>) -> Option<Seq<TagView>> {
    match f {
        Some(v) => Some(forest_view(v@)),
        None => None,
    }
}

impl View for App {
    type V = AppView;

    open spec fn view(&self) -> AppView {
        AppView {
            tags: forest_view(self.tags@),
            all_tags: forest_view(self.all_tags@),
            filtered_tags: option_forest_view(self.filtered_tags),
            table_state: self.table_state,
            should_quit: self.should_quit,
            file_name: self.file_name@,
            diff_mode: self.diff_mode,
            modified_name: text_view(self.modified_name),
            search_mode: self.search_mode,
            search_query: self.search_query@,
            validation_result: self.validation_result@,
            sop_class: self.sop_class@,
            table_area: self.table_area,
        }
    }
}

impl App {
    /// Starts the viewer on one record.
    pub fn new(
        tags: Vec<DicomTag>,
        file_name: String,
        validation_result: ValidationResult,
        sop_class: SopClass,
    ) -> (app: Self)
        ensures
            app@ == AppView::initial(
                forest_view(tags@),
                file_name@,
                None,
                validation_result@,
                sop_class@,
                false,
            ),
    {
        Self::new_with_diff(tags, file_name, None, validation_result, sop_class, false)
    }

    /// Starts the viewer on a forest: every row that the expansion flags put
    /// on display is shown, the cursor is on the first of them, no filter is
    /// applied.
    pub fn new_with_diff(
        tags: Vec<DicomTag>,
        file_name: String,
        modified_name: Option<String>,
        validation_result: ValidationResult,
        sop_class: SopClass,
        diff_mode: bool,
    ) -> (app: Self)
        ensures
            app@ == AppView::initial(
                forest_view(tags@),
                file_name@,
                text_view(modified_name),
                validation_result@,
                sop_class@,
                diff_mode,
            ),
            forest_wf(forest_view(tags@), 0) ==> app@.wf(),
    {
        let mut table_state = SelectionCursor::new();
        let visible_tags = Self::build_visible_tags_from(&tags);
        if !visible_tags.is_empty() {
            table_state.select(Some(0));
        }
        App {
            tags: visible_tags,
            all_tags: tags,
            filtered_tags: None,
            table_state,
            should_quit: false,
            file_name,
            diff_mode,
            modified_name,
            search_mode: false,
            search_query: String::new(),
            validation_result,
            sop_class,
            table_area: TableArea { x: 0, y: 0, width: 0, height: 0 },
        }
    }

    /// Starts the viewer on one record: its forest, its name, the report on
    /// its mandatory fields and its class.
    pub fn for_record(tags: Vec<DicomTag>, file_name: String) -> (app: Self)
        ensures
            app@ == AppView::initial(
                forest_view(tags@),
                file_name@,
                None,
                validate(forest_view(tags@), type1_rules()),
                sop_class_of(
                    class_uid(
                        forest_view(tags@),
                        sop_class_field(),
                    ),
                ),
                false,
            ),
    {
        let validation_result = validate_type1_fields(&tags);
        let sop_class = get_sop_class(&tags);
        Self::new_with_diff(tags, file_name, None, validation_result, sop_class, false)
    }

    /// Starts the viewer on the comparison of two records: the merged
    /// forest, both names, and the report and the class of the baseline.
    pub fn for_comparison(
        baseline: &Vec<DicomTag>,
        modified: &Vec<DicomTag>,
        baseline_name: String,
        modified_name: String,
    ) -> (app: Self)
        ensures
            is_stable_sort(
                app@.all_tags,
                merged(forest_view(baseline@), forest_view(modified@)),
            ),
            app@ == AppView::initial(
                app@.all_tags,
                baseline_name@,
                Some(modified_name@),
                validate(forest_view(baseline@), type1_rules()),
                sop_class_of(
                    class_uid(
                        forest_view(baseline@),
                        sop_class_field(),
                    ),
                ),
                true,
            ),
    {
        let tags = compare_dicom_files(baseline, modified);
        let validation_result = validate_type1_fields(baseline);
        let sop_class = get_sop_class(baseline);
        Self::new_with_diff(
            tags,
            baseline_name,
            Some(modified_name),
            validation_result,
            sop_class,
            true,
        )
    }

    /// Rebuilds the rows from the active forest.
    pub fn rebuild_visible_tags(&mut self)
        ensures
            final(self)@ == old(self)@.rebuild_visible_tags(),
    {
        let rows = Self::build_visible_tags_from(self.active_tags());
        self.tags = rows;
    }

    /// The forest that drives the display.
    pub fn active_tags(&self) -> (r: &Vec<DicomTag>)
        ensures
            forest_view(r@) == self@.active(),
    {
        match &self.filtered_tags {
            Some(f) => f,
            None => &self.all_tags,
        }
    }

    /// The forest that drives the display, to be changed in place.
    fn active_tags_mut(&mut self) -> (r: &mut Vec<DicomTag>)
        ensures
            forest_view(r@) == old(self)@.active(),
            final(self)@ == old(self)@.with_active(forest_view(final(r)@)),
    {
        if self.filtered_tags.is_some() {
            self.filtered_tags.as_mut().unwrap()
        } else {
            &mut self.all_tags
        }
    }

    /// Expands the highlighted row, where it can be expanded and is not.
    pub fn expand_selected(&mut self)
        ensures
            final(self)@ == old(self)@.expand_selected(),
    {
        if let Some(selected_idx) = self.table_state.selected() {
            if selected_idx < self.tags.len() {
                if self.tags[selected_idx].is_expandable && !self.tags[selected_idx].is_expanded {
                    let path = self.build_path_to_tag(selected_idx);
                    Self::set_expanded_in_tree(self.active_tags_mut(), path.as_slice(), true);
                    self.rebuild_visible_tags();
                }
            }
        }
    }

    /// Collapses the nearest expanded row above the highlighted one that lies
    /// at a smaller depth, and moves the cursor onto it.
    pub fn collapse_parent(&mut self)
        ensures
            final(self)@ == old(self)@.collapse_parent(),
    {
        if let Some(selected_idx) = self.table_state.selected() {
            if selected_idx < self.tags.len() {
                let current_depth = self.tags[selected_idx].depth;
                if current_depth > 0 {
                    let mut i = selected_idx;
                    while i > 0
                        invariant
                            i <= selected_idx < self.tags.len(),
                            *self == *old(self),
                            self.table_state.selected == Some(selected_idx),
                            current_depth == self.tags[selected_idx as int].depth,
                            current_depth > 0,
                            nearest_open_above(
                                forest_view(self.tags@),
                                current_depth,
                                selected_idx as int,
                            ) == nearest_open_above(forest_view(self.tags@), current_depth, i as int),
                        decreases i,
                    {
                        i -= 1;
                        if self.tags[i].depth < current_depth && self.tags[i].is_expanded {
                            let path = self.build_path_to_tag(i);
                            Self::set_expanded_in_tree(
                                self.active_tags_mut(),
                                path.as_slice(),
                                false,
                            );
                            self.rebuild_visible_tags();
                            self.table_state.select(Some(i));
                            return ;
                        }
                    }
                }
            }
        }
    }

    /// The path of the row at `visible_idx` in the active forest; the empty
    /// path where there is no such row.
    pub fn build_path_to_tag(&self, visible_idx: usize) -> (path: Vec<usize>)
        ensures
            path_view(path@) == locate(self@.active(), visible_idx as int),
    {
        let mut path: Vec<usize> = Vec::new();
        let mut current_idx: usize = 0;
        proof {
            lemma_paths_len(self@.active(), 0);
        }
        let found = Self::find_path_to_index(
            self.active_tags(),
            visible_idx,
            &mut current_idx,
            &mut path,
        );
        assert(path_view(path@) =~= locate(self@.active(), visible_idx as int));
        path
    }

    /// Moves the cursor down by `amount` rows, at most to the last row.
    pub fn scroll_down(&mut self, amount: usize)
        ensures
            final(self)@ == old(self)@.scroll_down(amount),
    {
        if self.tags.is_empty() {
            return ;
        }
        let current = match self.table_state.selected() {
            Some(s) => s,
            None => 0,
        };
        let max_index = self.tags.len() - 1;
        let new_index = if current <= max_index && amount <= max_index - current {
            current + amount
        } else {
            max_index
        };
        self.table_state.select(Some(new_index));
    }

    /// Moves the cursor up by `amount` rows, at most to the first row.
    pub fn scroll_up(&mut self, amount: usize)
        ensures
            final(self)@ == old(self)@.scroll_up(amount),
    {
        if self.tags.is_empty() {
            return ;
        }
        let current = match self.table_state.selected() {
            Some(s) => s,
            None => 0,
        };
        let new_index = if current >= amount {
            current - amount
        } else {
            0
        };
        self.table_state.select(Some(new_index));
    }

    /// Evaluates the filter afresh from the query, against the whole forest,
    /// and puts the cursor on the first row.
    pub fn filter_tags(&mut self)
        ensures
            final(self)@ == old(self)@.filter_tags(),
    {
        if self.search_query.as_str().is_empty() {
            self.filtered_tags = None;
            self.rebuild_visible_tags();
        } else {
            let filtered = filter_roots(&self.all_tags, self.search_query.as_str());
            self.filtered_tags = Some(filtered);
            self.rebuild_visible_tags();
        }
        self.reset_selection();
    }

    /// Empties the query, removes the filter and puts the cursor on the first
    /// row.
    pub fn clear_filter(&mut self)
        ensures
            final(self)@ == old(self)@.clear_filter(),
    {
        self.search_query = String::new();
        self.filtered_tags = None;
        self.rebuild_visible_tags();
        self.reset_selection();
    }

    /// Puts the cursor on the first row, or on none where there is no row.
    pub fn reset_selection(&mut self)
        ensures
            final(self)@ == old(self)@.reset_selection(),
    {
        if self.tags.is_empty() {
            self.table_state.select(None);
        } else {
            self.table_state.select(Some(0));
        }
    }

    /// Moves the cursor to the table row drawn on screen row `row`, if there
    /// is one.
    pub fn click(&mut self, row: u16)
        ensures
            final(self)@ == old(self)@.click(row),
    {
        let top = self.table_area.y as u32;
        let height = self.table_area.height as u32;
        let y = row as u32;
        if y > top + 1 && y < top + height {
            let row_in_viewport = (y - top - 2) as usize;
            let offset = self.table_state.offset();
            if row_in_viewport < self.tags.len() && offset < self.tags.len() - row_in_viewport {
                self.table_state.select(Some(offset + row_in_viewport));
            }
        }
    }

    /// Tells whether a filter is applied, or a query is there to apply.
    pub fn filter_applied(&self) -> (r: bool)
        ensures
            r == self@.filter_applied(),
    {
        self.filtered_tags.is_some() || !self.search_query.as_str().is_empty()
    }

    /// Activates search: the query starts empty, and a filter that was
    /// applied is removed.
    pub fn begin_search(&mut self)
        ensures
            final(self)@ == old(self)@.begin_search(),
    {
        if self.filter_applied() {
            self.clear_filter();
        }
        self.search_mode = true;
    }

    /// Handles one key press while the query is being edited.
    pub fn search_key(&mut self, key: KeyInput)
        ensures
            final(self)@ == old(self)@.search_key(key),
    {
        match key {
            KeyInput::Esc => {
                self.search_mode = false;
                self.clear_filter();
            },
            KeyInput::Enter => {
                self.search_mode = false;
            },
            KeyInput::Backspace => {
                pop_char(&mut self.search_query);
                self.filter_tags();
            },
            KeyInput::Char(c) => {
                push_char(&mut self.search_query, c);
                self.filter_tags();
            },
            _ => {},
        }
    }

    /// Handles one key press outside search.
    pub fn normal_key(&mut self, key: KeyInput)
        ensures
            final(self)@ == old(self)@.normal_key(key),
    {
        match key {
            KeyInput::Char('q') | KeyInput::Esc => {
                if self.filter_applied() {
                    self.clear_filter();
                } else {
                    self.should_quit = true;
                }
            },
            KeyInput::Down | KeyInput::Char('j') => {
                self.scroll_down(1);
            },
            KeyInput::Up | KeyInput::Char('k') => {
                self.scroll_up(1);
            },
            KeyInput::Char('/') => {
                self.begin_search();
            },
            KeyInput::Right | KeyInput::Char('l') => {
                self.expand_selected();
            },
            KeyInput::Left | KeyInput::Char('h') => {
                self.collapse_parent();
            },
            _ => {},
        }
    }

    /// Handles one input event: the whole reaction of the viewer to it. A
    /// well-formed state stays well formed.
    pub fn handle_events(&mut self, event: InputEvent)
        ensures
            final(self)@ == old(self)@.handle_events(event),
            old(self)@.wf() ==> final(self)@.wf(),
    {
        proof {
            if old(self)@.wf() {
                lemma_handle_events_wf(old(self)@, event);
            }
        }
        match event {
            InputEvent::Key(key) => {
                if self.search_mode {
                    self.search_key(key);
                } else {
                    self.normal_key(key);
                }
            },
            InputEvent::ScrollDown => {
                self.scroll_down(3);
            },
            InputEvent::ScrollUp => {
                self.scroll_up(3);
            },
            InputEvent::LeftClick { row } => {
                self.click(row);
            },
            InputEvent::Other => {},
        }
    }

    /// The rows of a forest: deep copies of its nodes on display, in order.
    pub fn build_visible_tags_from(tags: &Vec<DicomTag>) -> (visible: Vec<DicomTag>)
        ensures
            forest_view(visible@) == project(forest_view(tags@)),
    {
        let mut visible: Vec<DicomTag> = Vec::new();
        Self::collect_visible_tags(tags, &mut visible);
        assert(forest_view(visible@) =~= project(forest_view(tags@)));
        visible
    }

    /// Appends the rows of a forest to `visible`.
    pub fn collect_visible_tags(tags: &Vec<DicomTag>, visible: &mut Vec<DicomTag>)
        ensures
            forest_view(final(visible)@) == forest_view(old(visible)@) + project(
                forest_view(tags@),
            ),
        decreases tags,
    {
        let ghost fv = forest_view(tags@);
        let ghost before = forest_view(visible@);
        assert(before + project(fv.take(0)) =~= before);
        let mut i: usize = 0;
        while i < tags.len()
            invariant
                i <= tags.len(),
                fv == forest_view(tags@),
                forest_view(visible@) == before + project(fv.take(i as int)),
            decreases tags.len() - i,
        {
            let tag = &tags[i];
            let ghost rows = forest_view(visible@);
            visible.push(tag.clone());
            assert(forest_view(visible@) =~= rows + seq![fv[i as int]]);
            if tag.is_expanded && !tag.children.is_empty() {
                Self::collect_visible_tags(&tag.children, visible);
            }
            proof {
                lemma_children_view(tags[i as int]);
                lemma_project_take(fv, i as int);
                assert(forest_view(visible@) =~= before + project(fv.take(i + 1)));
            }
            i += 1;
        }
        assert(fv.take(tags.len() as int) =~= fv);
    }

    /// Looks for the row `target_idx - current_idx` of a forest. Where the
    /// forest has it, appends the row's path to `path`; else leaves `path` as it
    /// was and adds the number of the forest's rows to `current_idx`.
    fn find_path_to_index(
        tags: &Vec<DicomTag>,
        target_idx: usize,
        current_idx: &mut usize,
        path: &mut Vec<usize>,
    ) -> (found: bool)
        requires
            *old(current_idx) <= target_idx,
        ensures
            found == (target_idx - *old(current_idx) < project(forest_view(tags@)).len()),
            found ==> path_view(final(path)@) == path_view(old(path)@) + visible_paths(
                forest_view(tags@),
            )[target_idx - *old(current_idx)],
            !found ==> final(path)@ == old(path)@ && *final(current_idx) == *old(current_idx)
                + project(forest_view(tags@)).len(),
        decreases tags,
    {
        let ghost fv = forest_view(tags@);
        let ghost base = *current_idx as int;
        let ghost k = target_idx - base;
        let ghost path0 = path@;
        proof {
            lemma_paths_len(fv, 0);
        }
        let mut i: usize = 0;
        while i < tags.len()
            invariant
                i <= tags.len(),
                fv == forest_view(tags@),
                *current_idx == base + project(fv.take(i as int)).len(),
                *current_idx <= target_idx,
                path@ == path0,
                path0 == old(path)@,
                base == *old(current_idx),
                k == target_idx - base,
                visible_paths(fv).len() == project(fv).len(),
            decreases tags.len() - i,
        {
            let tag = &tags[i];
            proof {
                lemma_children_view(tags[i as int]);
                lemma_project_take(fv, i as int);
                lemma_paths_split(fv, i as int);
                lemma_paths_len(fv.take(i as int), 0);
                lemma_paths_len(fv.skip(i + 1), i + 1);
                lemma_node_paths_len(fv[i as int], i as int);
                lemma_paths_len(fv[i as int].children, 0);
            }
            if *current_idx == target_idx {
                path.push(i);
                assert(path_view(path@) =~= path_view(path0) + visible_paths(fv)[k]);
                return true;
            }
            *current_idx += 1;
            if tag.is_expanded && !tag.children.is_empty() {
                path.push(i);
                let ghost path1 = path@;
                let ghost sub = target_idx - *current_idx;
                if Self::find_path_to_index(&tag.children, target_idx, current_idx, path) {
                    assert(visible_paths(fv)[k] == node_paths(fv[i as int], i as int)[1 + sub]);
                    assert(path_view(path1) =~= path_view(path0) + seq![i as int]);
                    assert(path_view(path@) =~= path_view(path0) + visible_paths(fv)[k]);
                    return true;
                }
                path.pop();
                assert(path@ =~= path0);
            }
            i += 1;
        }
        assert(fv.take(tags.len() as int) =~= fv);
        false
    }

    /// Sets the expansion flag of the node at `path`; does nothing where the
    /// path leads to no node.
    pub fn set_expanded_in_tree(tags: &mut Vec<DicomTag>, path: &[usize], expanded: bool)
        ensures
            forest_view(final(tags)@) == set_expanded(
                forest_view(old(tags)@),
                path_view(path@),
                expanded,
            ),
        decreases path@.len(),
    {
        if path.len() == 0 {
            return ;
        }
        let idx = path[0];
        if idx >= tags.len() {
            return ;
        }
        if path.len() == 1 {
            tags[idx].is_expanded = expanded;
            proof {
                lemma_children_view(tags[idx as int]);
                lemma_children_view(old(tags)[idx as int]);
                assert(forest_view(tags@) =~= set_expanded(
                    forest_view(old(tags)@),
                    path_view(path@),
                    expanded,
                ));
            }
        } else {
            let rest = &path[1..path.len()];
            Self::set_expanded_in_tree(&mut tags[idx].children, rest, expanded);
            proof {
                assert(path_view(rest@) =~= path_view(path@).drop_first());
                lemma_children_view(tags[idx as int]);
                lemma_children_view(old(tags)[idx as int]);
                assert(forest_view(tags@) =~= set_expanded(
                    forest_view(old(tags)@),
                    path_view(path@),
                    expanded,
                ));
            }
        }
    }
}

} // verus!
