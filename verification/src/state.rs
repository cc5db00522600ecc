use vstd::prelude::*;
use crate::cursor::SelectionCursor;
use crate::cursor::TableArea;
use crate::dicom::TagView;
use crate::events::InputEvent;
use crate::events::KeyInput;
use crate::expansion::collapsed_forest;
use crate::expansion::lemma_collapse_keeps_rows_before;
use crate::expansion::lemma_collapse_removes_descendants;
use crate::expansion::is_below;
use crate::expansion::lemma_depth_of_node;
use crate::expansion::lemma_descendants_follow;
use crate::expansion::lemma_rows_below_follow;
use crate::expansion::lemma_expand_collapse_round_trip;
use crate::expansion::lemma_set_expanded_keeps_structure;
use crate::expansion::lemma_set_expanded_len;
use crate::expansion::lemma_set_expanded_nodes;
use crate::expansion::lemma_set_expanded_wf;
use crate::expansion::not_below;
use crate::paths::lemma_locate;
use crate::paths::lemma_position_of_reachable;
use crate::paths::lemma_reachable_is_valid;
use crate::paths::lemma_row_paths;
use crate::paths::position;
use crate::search::filter_forest;
use crate::search::lemma_filter_forest_wf;
use crate::search::lemma_no_match_retains_nothing;
use crate::search::matches_query;
use crate::seqs::lemma_filter_shorter;
use crate::tree::forest_wf;
use crate::tree::lemma_paths_len;
use crate::tree::locate;
use crate::tree::node_at;
use crate::tree::project;
use crate::tree::reachable;
use crate::tree::set_expanded;
use crate::tree::shows_children;
use crate::tree::visible_paths;
use crate::validation::SopClassView;
use crate::validation::ValidationView;

verus! {

/// The mathematical value of the viewer's state. The operations of the viewer
/// are functions from one such value to the next.
pub struct AppView {
    pub tags: Seq<TagView>,
    pub all_tags: Seq<TagView>,
    pub filtered_tags: Option<Seq<TagView>>,
    pub table_state: SelectionCursor,
    pub should_quit: bool,
    pub file_name: Seq<char>,
    pub diff_mode: bool,
    pub modified_name: Option<Seq<char>>,
    pub search_mode: bool,
    pub search_query: Seq<char>,
    pub validation_result: ValidationView,
    pub sop_class: SopClassView,
    pub table_area: TableArea,
}

/// The nearest row above row `below` that is expanded and lies at a depth
/// under `depth`.
pub open spec fn nearest_open_above(rows: Seq<TagView>, depth: usize, below: int) -> Option<int>
    decreases below,
{
    if below <= 0 || below > rows.len() {
        None
    } else if rows[below - 1].depth < depth && rows[below - 1].is_expanded {
        Some(below - 1)
    } else {
        nearest_open_above(rows, depth, below - 1)
    }
}

/// What `nearest_open_above` finds is an expanded row at a smaller depth, and
/// no row between it and `below` is one; where it finds none, there is none.
pub proof fn lemma_nearest_open_above(rows: Seq<TagView>, depth: usize, below: int)
    requires
        0 <= below <= rows.len(),
    ensures
        match nearest_open_above(rows, depth, below) {
            Some(i) => {
                &&& 0 <= i < below
                &&& rows[i].depth < depth
                &&& rows[i].is_expanded
                &&& forall|j: int| i < j < below ==> !(rows[j].depth < depth && rows[j].is_expanded)
            },
            None => forall|j: int| 0 <= j < below ==> !(rows[j].depth < depth && rows[j].is_expanded),
        },
    decreases below,
{
    if below > 0 && !(rows[below - 1].depth < depth && rows[below - 1].is_expanded) {
        lemma_nearest_open_above(rows, depth, below - 1);
    }
}

impl AppView {
    /// The state in which the viewer starts on a forest.
    pub open spec fn initial(
        forest: Seq<TagView>,
        file_name: Seq<char>,
        modified_name: Option<Seq<char>>,
        validation_result: ValidationView,
        sop_class: SopClassView,
        diff_mode: bool,
    ) -> AppView {
        AppView {
            tags: project(forest),
            all_tags: forest,
            filtered_tags: None,
            table_state: SelectionCursor {
                offset: 0,
                selected: if project(forest).len() > 0 {
                    Some(0usize)
                } else {
                    None
                },
            },
            should_quit: false,
            file_name: file_name,
            diff_mode: diff_mode,
            modified_name: modified_name,
            search_mode: false,
            search_query: Seq::empty(),
            validation_result: validation_result,
            sop_class: sop_class,
            table_area: TableArea { x: 0, y: 0, width: 0, height: 0 },
        }
    }

    /// The forest that drives the display: the filtered roots while a filter
    /// is applied, the whole forest otherwise.
    pub open spec fn active(self) -> Seq<TagView> {
        match self.filtered_tags {
            Some(f) => f,
            None => self.all_tags,
        }
    }

    /// A filter is applied, or a query is there to apply.
    pub open spec fn filter_applied(self) -> bool {
        self.filtered_tags is Some || self.search_query.len() > 0
    }

    /// The rows are those of the active forest, the cursor is on one of them
    /// or on none, a filter is applied exactly while the query is not empty,
    /// and the forests are well formed.
    pub open spec fn wf(self) -> bool {
        &&& self.tags == project(self.active())
        &&& match self.table_state.selected {
            Some(i) => i < self.tags.len(),
            None => true,
        }
        &&& (self.filtered_tags is Some <==> self.search_query.len() > 0)
        &&& forest_wf(self.all_tags, 0)
        &&& forest_wf(self.active(), 0)
    }

    /// The state with another active forest, the rows not yet rebuilt.
    pub open spec fn with_active(self, f: Seq<TagView>) -> AppView {
        if self.filtered_tags is Some {
            AppView { filtered_tags: Some(f), ..self }
        } else {
            AppView { all_tags: f, ..self }
        }
    }

    /// The state with the rows rebuilt from the active forest.
    pub open spec fn rebuild_visible_tags(self) -> AppView {
        AppView { tags: project(self.active()), ..self }
    }

    /// The state with the cursor on the first row, or on none where there is
    /// no row.
    pub open spec fn reset_selection(self) -> AppView {
        AppView {
            table_state: self.table_state.spec_select(
                if self.tags.len() == 0 {
                    None
                } else {
                    Some(0usize)
                },
            ),
            ..self
        }
    }

    /// The state with the highlighted row expanded, where that row can be
    /// expanded and is not.
    pub open spec fn expand_selected(self) -> AppView {
        match self.table_state.selected {
            Some(s) => {
                if s < self.tags.len() && self.tags[s as int].is_expandable
                    && !self.tags[s as int].is_expanded {
                    self.with_active(
                        set_expanded(self.active(), locate(self.active(), s as int), true),
                    ).rebuild_visible_tags()
                } else {
                    self
                }
            },
            None => self,
        }
    }

    /// The state with the nearest expanded row above the highlighted one, at
    /// a smaller depth, collapsed and highlighted; the state itself where
    /// there is no such row.
    pub open spec fn collapse_parent(self) -> AppView {
        match self.table_state.selected {
            Some(s) => {
                if s < self.tags.len() && self.tags[s as int].depth > 0 {
                    match nearest_open_above(self.tags, self.tags[s as int].depth, s as int) {
                        Some(i) => {
                            let next = self.with_active(
                                set_expanded(self.active(), locate(self.active(), i), false),
                            ).rebuild_visible_tags();
                            AppView {
                                table_state: next.table_state.spec_select(Some(i as usize)),
                                ..next
                            }
                        },
                        None => self,
                    }
                } else {
                    self
                }
            },
            None => self,
        }
    }

    /// The state with the cursor `amount` rows further down, at most on the
    /// last row.
    pub open spec fn scroll_down(self, amount: usize) -> AppView {
        if self.tags.len() == 0 {
            self
        } else {
            let current: int = match self.table_state.selected {
                Some(s) => s as int,
                None => 0,
            };
            let target: int = if current + amount <= self.tags.len() - 1 {
                current + amount
            } else {
                self.tags.len() - 1
            };
            AppView { table_state: self.table_state.spec_select(Some(target as usize)), ..self }
        }
    }

    /// The state with the cursor `amount` rows further up, at most on the
    /// first row.
    pub open spec fn scroll_up(self, amount: usize) -> AppView {
        if self.tags.len() == 0 {
            self
        } else {
            let current: int = match self.table_state.selected {
                Some(s) => s as int,
                None => 0,
            };
            let target: int = if current >= amount {
                current - amount
            } else {
                0
            };
            AppView { table_state: self.table_state.spec_select(Some(target as usize)), ..self }
        }
    }

    /// The state after the filter has been evaluated afresh from the query,
    /// against the whole forest: no filter for an empty query.
    pub open spec fn filter_tags(self) -> AppView {
        let filtered = if self.search_query.len() == 0 {
            None
        } else {
            Some(filter_forest(self.all_tags, self.search_query))
        };
        AppView { filtered_tags: filtered, ..self }.rebuild_visible_tags().reset_selection()
    }

    /// The state with the query emptied and the filter removed.
    pub open spec fn clear_filter(self) -> AppView {
        AppView {
            search_query: Seq::empty(),
            filtered_tags: None,
            ..self
        }.rebuild_visible_tags().reset_selection()
    }

    /// The state after a click on screen row `row`: the cursor goes to the
    /// table row drawn there, if there is one.
    pub open spec fn click(self, row: u16) -> AppView {
        let area = self.table_area;
        let index = self.table_state.offset + (row - area.y - 2);
        if row > area.y + 1 && row < area.y + area.height && index < self.tags.len() {
            AppView { table_state: self.table_state.spec_select(Some(index as usize)), ..self }
        } else {
            self
        }
    }

    /// The state after search has been activated: the query starts empty, so
    /// a filter that was applied is removed.
    pub open spec fn begin_search(self) -> AppView {
        let cleared = if self.filter_applied() {
            self.clear_filter()
        } else {
            self
        };
        AppView { search_mode: true, ..cleared }
    }

    /// The state after a key press while the query is being edited.
    pub open spec fn search_key(self, key: KeyInput) -> AppView {
        match key {
            KeyInput::Esc => AppView { search_mode: false, ..self }.clear_filter(),
            KeyInput::Enter => AppView { search_mode: false, ..self },
            KeyInput::Backspace => AppView {
                search_query: if self.search_query.len() > 0 {
                    self.search_query.drop_last()
                } else {
                    self.search_query
                },
                ..self
            }.filter_tags(),
            KeyInput::Char(c) => AppView {
                search_query: self.search_query.push(c),
                ..self
            }.filter_tags(),
            _ => self,
        }
    }

    /// The state after a key press outside search. The quit keys remove an
    /// applied filter first, and quit only where none is applied.
    pub open spec fn normal_key(self, key: KeyInput) -> AppView {
        if key == KeyInput::Char('q') || key == KeyInput::Esc {
            if self.filter_applied() {
                self.clear_filter()
            } else {
                AppView { should_quit: true, ..self }
            }
        } else if key == KeyInput::Down || key == KeyInput::Char('j') {
            self.scroll_down(1)
        } else if key == KeyInput::Up || key == KeyInput::Char('k') {
            self.scroll_up(1)
        } else if key == KeyInput::Char('/') {
            self.begin_search()
        } else if key == KeyInput::Right || key == KeyInput::Char('l') {
            self.expand_selected()
        } else if key == KeyInput::Left || key == KeyInput::Char('h') {
            self.collapse_parent()
        } else {
            self
        }
    }

    /// The state after one input event.
    pub open spec fn handle_events(self, event: InputEvent) -> AppView {
        match event {
            InputEvent::Key(key) => {
                if self.search_mode {
                    self.search_key(key)
                } else {
                    self.normal_key(key)
                }
            },
            InputEvent::ScrollDown => self.scroll_down(3),
            InputEvent::ScrollUp => self.scroll_up(3),
            InputEvent::LeftClick { row } => self.click(row),
            InputEvent::Other => self,
        }
    }
}

/// The viewer starts in a well-formed state on a well-formed forest.
pub proof fn lemma_initial_wf(
    forest: Seq<TagView>,
    file_name: Seq<char>,
    modified_name: Option<Seq<char>>,
    validation_result: ValidationView,
    sop_class: SopClassView,
    diff_mode: bool,
)
    requires
        forest_wf(forest, 0),
    ensures
        AppView::initial(
            forest,
            file_name,
            modified_name,
            validation_result,
            sop_class,
            diff_mode,
        ).wf(),
{
}

/// Evaluating the filter leaves a well-formed state, whatever the cursor
/// and the rows were before.
pub proof fn lemma_filter_tags_wf(v: AppView)
    requires
        forest_wf(v.all_tags, 0),
    ensures
        v.filter_tags().wf(),
        v.clear_filter().wf(),
{
    lemma_filter_forest_wf(v.all_tags, v.search_query);
}

/// Expanding the highlighted row keeps the state well formed, and no row
/// goes away.
pub proof fn lemma_expand_selected_wf(v: AppView)
    requires
        v.wf(),
    ensures
        v.expand_selected().wf(),
        v.expand_selected().tags.len() >= v.tags.len(),
{
    let w = v.expand_selected();
    match v.table_state.selected {
        Some(s) => {
            if s < v.tags.len() && v.tags[s as int].is_expandable && !v.tags[s as int].is_expanded {
                let f = v.active();
                let p = locate(f, s as int);
                lemma_locate(f, s as int);
                lemma_reachable_is_valid(f, p);
                let g = set_expanded(f, p, true);
                lemma_set_expanded_wf(f, p, true, 0);
                lemma_expand_collapse_round_trip(f, p);
                lemma_set_expanded_nodes(f, p, true, p);
                lemma_collapse_removes_descendants(g, p);
                visible_paths(g).lemma_filter_len(not_below(p));
                lemma_paths_len(f, 0);
                lemma_paths_len(g, 0);
                assert(w.active() == g);
            }
        },
        None => {},
    }
}

/// Collapsing the parent keeps the state well formed, and the cursor ends
/// on the row of the node that was collapsed.
pub proof fn lemma_collapse_parent_wf(v: AppView)
    requires
        v.wf(),
    ensures
        v.collapse_parent().wf(),
        v.collapse_parent() != v ==> match v.collapse_parent().table_state.selected {
            Some(i) => locate(v.collapse_parent().active(), i as int) == locate(v.active(), i as int),
            None => false,
        },
{
    let w = v.collapse_parent();
    match v.table_state.selected {
        Some(s) => {
            if s < v.tags.len() && v.tags[s as int].depth > 0 {
                lemma_nearest_open_above(v.tags, v.tags[s as int].depth, s as int);
                match nearest_open_above(v.tags, v.tags[s as int].depth, s as int) {
                    Some(i) => {
                        let f = v.active();
                        let p = locate(f, i);
                        lemma_locate(f, i);
                        lemma_paths_len(f, 0);
                        lemma_reachable_is_valid(f, p);
                        let g = set_expanded(f, p, false);
                        lemma_set_expanded_wf(f, p, false, 0);
                        lemma_collapse_keeps_rows_before(f, i);
                        lemma_paths_len(g, 0);
                        assert(w.active() == g);
                        assert(visible_paths(g).take(i + 1)[i] == visible_paths(f).take(i + 1)[i]);
                    },
                    None => {},
                }
            }
        },
        None => {},
    }
}

/// Every input event leaves a well-formed state well formed.
pub proof fn lemma_handle_events_wf(v: AppView, event: InputEvent)
    requires
        v.wf(),
    ensures
        v.handle_events(event).wf(),
{
    lemma_filter_tags_wf(v);
    lemma_expand_selected_wf(v);
    lemma_collapse_parent_wf(v);
    match event {
        InputEvent::Key(key) => {
            if v.search_mode {
                match key {
                    KeyInput::Esc => {
                        lemma_filter_tags_wf(AppView { search_mode: false, ..v });
                    },
                    KeyInput::Backspace => {
                        lemma_filter_tags_wf(
                            AppView {
                                search_query: if v.search_query.len() > 0 {
                                    v.search_query.drop_last()
                                } else {
                                    v.search_query
                                },
                                ..v
                            },
                        );
                    },
                    KeyInput::Char(c) => {
                        lemma_filter_tags_wf(AppView { search_query: v.search_query.push(c), ..v });
                    },
                    _ => {},
                }
            }
        },
        _ => {},
    }
}

/// With an empty query the filter is off: the whole forest is on display,
/// exactly as it is.
pub proof fn lemma_empty_query_restores_forest(v: AppView)
    requires
        v.search_query.len() == 0,
    ensures
        v.filter_tags().all_tags == v.all_tags,
        v.filter_tags().active() == v.all_tags,
        v.filter_tags().tags == project(v.all_tags),
        v.clear_filter().active() == v.all_tags,
        v.clear_filter().tags == project(v.all_tags),
{
}

/// A query that no root passes leaves no row on display, and no row
/// highlighted.
pub proof fn lemma_no_match_shows_nothing(v: AppView)
    requires
        v.search_query.len() > 0,
        forall|i: int| 0 <= i < v.all_tags.len() ==> !matches_query(
            #[trigger] v.all_tags[i],
            v.search_query,
        ),
    ensures
        v.filter_tags().tags == Seq::<TagView>::empty(),
        v.filter_tags().table_state.selected is None,
{
    lemma_no_match_retains_nothing(v.all_tags, v.search_query);
    assert(project(Seq::<TagView>::empty()) =~= Seq::<TagView>::empty());
}

/// The first child of a node that shows its children is displayed right
/// below the node.
pub proof fn lemma_first_child_follows(f: Seq<TagView>, path: Seq<int>)
    requires
        reachable(f, path),
        shows_children(node_at(f, path)),
    ensures
        reachable(f, path.push(0)),
        position(f, path.push(0)) == position(f, path) + 1,
        node_at(f, path.push(0)) == node_at(f, path).children[0],
    decreases path.len(),
{
    let q = path.push(0);
    let i = path[0];
    assert(q[0] == i);
    if path.len() == 1 {
        assert(q.drop_first() =~= seq![0int]);
        let c = f[i].children;
        assert(c.take(0) =~= Seq::<TagView>::empty());
        assert(project(Seq::<TagView>::empty()) =~= Seq::<TagView>::empty());
        assert(reachable(c, seq![0int]));
        assert(position(c, seq![0int]) == 0);
        assert(node_at(c, seq![0int]) == c[0]);
    } else {
        lemma_first_child_follows(f[i].children, path.drop_first());
        assert(q.drop_first() =~= path.drop_first().push(0));
    }
}

/// Expanding a collapsed row and then collapsing it from its first child
/// gives back the rows and the forest, with the cursor on the row again.
pub proof fn lemma_expand_then_collapse(v: AppView, s: usize)
    requires
        v.wf(),
        v.table_state.selected == Some(s),
        s < v.tags.len(),
        v.tags[s as int].is_expandable,
        !v.tags[s as int].is_expanded,
        s + 1 <= usize::MAX,
    ensures
        ({
            let expanded = v.expand_selected();
            let on_child = AppView {
                table_state: expanded.table_state.spec_select(Some((s + 1) as usize)),
                ..expanded
            };
            let back = on_child.collapse_parent();
            &&& expanded.tags.len() > v.tags.len()
            &&& back.tags == v.tags
            &&& back.active() == v.active()
            &&& back.all_tags == v.all_tags
            &&& back.table_state.selected == Some(s)
        }),
{
    let f = v.active();
    let p = locate(f, s as int);
    lemma_locate(f, s as int);
    lemma_paths_len(f, 0);
    lemma_reachable_is_valid(f, p);
    let g = set_expanded(f, p, true);
    let expanded = v.expand_selected();
    assert(expanded.active() == g);
    lemma_expand_selected_wf(v);
    lemma_set_expanded_nodes(f, p, true, p);
    lemma_expand_collapse_round_trip(f, p);
    lemma_reachable_after_flag(f, p, true, p);
    lemma_position_after_flag(f, p, true);
    lemma_paths_len(g, 0);
    lemma_depth_of_node(f, p, 0);
    assert(v.tags[s as int] == node_at(f, p));
    assert(shows_children(node_at(g, p)));
    lemma_first_child_follows(g, p);
    lemma_position_of_reachable(g, p);
    lemma_position_of_reachable(g, p.push(0));
    lemma_row_paths(g, s as int);
    lemma_row_paths(g, s + 1);
    lemma_depth_of_node(g, p, 0);
    lemma_reachable_is_valid(g, p.push(0));
    lemma_depth_of_node(g, p.push(0), 0);
    let rows = expanded.tags;
    assert(rows[s as int] == node_at(g, p));
    assert(rows[s + 1] == node_at(g, p.push(0)));
    assert(rows[s as int].depth < rows[s + 1].depth);
    assert(rows[s as int].is_expanded);
    assert(nearest_open_above(rows, rows[s + 1].depth, s + 1) == Some(s as int));
    assert(locate(g, s as int) == p);
    assert(expanded.tags.len() > v.tags.len()) by {
        lemma_collapse_removes_descendants(g, p);
        assert(p.push(0).take(p.len() as int) =~= p);
        lemma_filter_shorter(visible_paths(g), not_below(p), s + 1);
    }
    let on_child = AppView {
        table_state: expanded.table_state.spec_select(Some((s + 1) as usize)),
        ..expanded
    };
    let back = on_child.collapse_parent();
    assert(on_child.active() == g);
    assert(on_child.tags == rows);
    assert(rows[s + 1].depth > 0);
    assert(back.active() == f);
    assert(back.tags == v.tags);
    assert(back.all_tags == v.all_tags);
    assert(back.table_state.selected == Some(s));
}

/// A path that was reachable stays reachable when the flag of its own
/// node is set.
pub proof fn lemma_reachable_after_flag(f: Seq<TagView>, path: Seq<int>, value: bool, q: Seq<int>)
    requires
        reachable(f, q),
        q == path,
    ensures
        reachable(set_expanded(f, path, value), q),
    decreases q.len(),
{
    if q.len() > 1 {
        lemma_reachable_after_flag(
            f[q[0]].children,
            path.drop_first(),
            value,
            q.drop_first(),
        );
        lemma_set_expanded_len(f[q[0]].children, path.drop_first(), value);
    }
}

/// Setting the flag of a node on display leaves the node on its row.
pub proof fn lemma_position_after_flag(f: Seq<TagView>, path: Seq<int>, value: bool)
    requires
        reachable(f, path),
    ensures
        position(set_expanded(f, path, value), path) == position(f, path),
    decreases path.len(),
{
    let g = set_expanded(f, path, value);
    assert(g.take(path[0]) =~= f.take(path[0]));
    if path.len() > 1 {
        lemma_position_after_flag(f[path[0]].children, path.drop_first(), value);
    }
}

/// No input event changes the forest other than in its expansion flags,
/// and while a filter is applied not even in these.
pub proof fn lemma_handle_events_keeps_structure(v: AppView, event: InputEvent)
    ensures
        collapsed_forest(v.handle_events(event).all_tags) == collapsed_forest(v.all_tags),
        v.filtered_tags is Some && v.handle_events(event).filtered_tags is Some ==> v.handle_events(
            event,
        ).all_tags == v.all_tags,
{
    let f = v.active();
    match v.table_state.selected {
        Some(s) => {
            lemma_set_expanded_keeps_structure(f, locate(f, s as int), true);
            if s < v.tags.len() {
                match nearest_open_above(v.tags, v.tags[s as int].depth, s as int) {
                    Some(i) => {
                        lemma_set_expanded_keeps_structure(f, locate(f, i), false);
                    },
                    None => {},
                }
            }
        },
        None => {},
    }
}

/// In a well-formed state the row that `collapse_parent` collapses is the
/// parent of the highlighted row: the nearest expanded row above it at a
/// smaller depth is the row of the node one step up its path.
pub proof fn lemma_collapse_parent_finds_parent(v: AppView, s: usize)
    requires
        v.wf(),
        v.table_state.selected == Some(s),
        s < v.tags.len(),
        v.tags[s as int].depth > 0,
    ensures
        ({
            let parent = locate(v.active(), s as int).drop_last();
            &&& reachable(v.active(), parent)
            &&& nearest_open_above(v.tags, v.tags[s as int].depth, s as int) == Some(
                position(v.active(), parent),
            )
            &&& v.collapse_parent().active() == set_expanded(v.active(), parent, false)
            &&& v.collapse_parent().table_state.selected == Some(
                position(v.active(), parent) as usize,
            )
        }),
{
    let f = v.active();
    let rows = v.tags;
    let q = locate(f, s as int);
    let p = q.drop_last();
    let depth = rows[s as int].depth;
    lemma_paths_len(f, 0);
    lemma_locate(f, s as int);
    lemma_reachable_is_valid(f, q);
    lemma_depth_of_node(f, q, 0);
    assert(q.len() >= 2);
    assert(q.take(p.len() as int) =~= p);
    assert(is_below(p, q));
    lemma_descendants_follow(f, p, q);
    lemma_position_of_reachable(f, p);
    let k = position(f, p);
    lemma_row_paths(f, k);
    lemma_reachable_is_valid(f, p);
    lemma_depth_of_node(f, p, 0);
    assert(rows[k].depth < depth && rows[k].is_expanded);
    lemma_rows_below_follow(f, p, s as int);
    assert forall|j: int| k < j < s implies !(rows[j].depth < depth && rows[j].is_expanded) by {
        lemma_rows_below_follow(f, p, j);
        lemma_row_paths(f, j);
        lemma_reachable_is_valid(f, visible_paths(f)[j]);
        lemma_depth_of_node(f, visible_paths(f)[j], 0);
    }
    lemma_nearest_open_above(rows, depth, s as int);
    assert(nearest_open_above(rows, depth, s as int) == Some(k));
    assert(locate(f, k) == p);
}

} // verus!
