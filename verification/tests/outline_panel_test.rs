use std::sync::Arc;
use zed_core::collections::{VecMap, VecSet};
use zed_core::outline_panel::activity::{query, ItemStep};
use zed_core::outline_panel::cached::GenerationOptions;
use zed_core::outline_panel::entries::{
    Anchor, AnchorRange, CollapsedEntry, ExcerptOutlines, ExcerptRange, FsEntry, GitEntry,
    GitSummary, OutlineEntry, OutlineItem, PanelEntry, Rows, SearchKind, SelectedEntry,
    SearchData, StringMatch,
};
use zed_core::outline_panel::entry_paths::{abs_path, relative_path, EntryPath};
use zed_core::outline_panel::events::{EditorEvent, NextStep};
use zed_core::outline_panel::filter::filter_entries;
use zed_core::outline_panel::fs_gather::{ExcerptSnapshot, WorktreeFile};
use zed_core::outline_panel::labels::{dir_names_string, entry_name, excerpt_label};
use zed_core::outline_panel::location::{CursorPlace, DisplayPoint, OutlineSpan};
use zed_core::outline_panel::panel::{
    ExcerptKey, ItemsDisplayMode, OutlinePanel, PanelEnv, WorktreeInfo,
};
use zed_core::outline_panel::search::{
    context_borders, extended_borders, match_highlights, FoundMatches, HighlightChunk,
    MatchContext,
};
use zed_core::outline_panel::toggle_all::{should_reveal, RelatedFile};
use zed_core::outline_panel::view::{
    click_changes_focus, position_is_valid, serialization_key, should_autohide_scrollbar,
    should_show_scrollbar, Contents, DockPosition, OutlinePanelDockPosition, ScrollMove,
    ScrollOffset, ScrollTarget, ShowScrollbar, ViewOptions,
};
use zed_core::path::{AnyPath, Component, Os, RelPath};
use zed_core::rope::position::Point;

fn rel(path: &str) -> Arc<RelPath> {
    Arc::new(RelPath {
        components: path
            .split('/')
            .filter(|name| !name.is_empty())
            .map(|name| name.to_string())
            .collect(),
    })
}

fn any(path: &str) -> AnyPath {
    AnyPath {
        absolute: true,
        components: path
            .split('/')
            .filter(|name| !name.is_empty())
            .map(|name| Component::Normal(name.to_string()))
            .collect(),
    }
}

fn git_entry(id: u64, path: &str, is_dir: bool) -> GitEntry {
    GitEntry {
        id,
        path: rel(path),
        is_dir,
        is_ignored: false,
        git_summary: GitSummary(0),
    }
}

const DIRS: [(u64, &str); 4] = [(1, ""), (2, "src"), (4, "src/deep"), (5, "src/deep/inner")];

fn chain(id: u64, path: &str) -> Vec<GitEntry> {
    let mut chain = vec![git_entry(id, path, false)];
    for (dir_id, dir) in DIRS.iter().rev() {
        if dir.is_empty() || path.starts_with(&format!("{}/", dir)) {
            chain.push(git_entry(*dir_id, dir, true));
        }
    }
    chain
}

fn range() -> ExcerptRange {
    ExcerptRange {
        start: 0,
        end: 10,
        rows: Some(Rows { start: 0, end: 9 }),
    }
}

fn excerpt(excerpt_id: u64, buffer_id: u64, entry_id: u64, path: &str) -> ExcerptSnapshot {
    ExcerptSnapshot {
        excerpt_id,
        buffer_id,
        range: range(),
        is_folded: false,
        file: Some(WorktreeFile {
            worktree_id: 1,
            root_entry_id: Some(1),
            chain: Arc::new(chain(entry_id, path)),
        }),
    }
}

fn project() -> Vec<ExcerptSnapshot> {
    vec![
        excerpt(101, 31, 3, "src/a.rs"),
        excerpt(102, 61, 6, "src/deep/inner/c.rs"),
        excerpt(103, 71, 7, "README.md"),
    ]
}

fn env(auto_fold_dirs: bool) -> PanelEnv {
    PanelEnv {
        os: Os::Other,
        auto_fold_dirs,
        worktrees: vec![WorktreeInfo {
            id: 1,
            abs_path: any("/work/project"),
            root_entry: Some(git_entry(1, "", true)),
        }],
        folded_buffers: VecSet::new(),
        buffer_paths: VecMap::new(),
    }
}

const OPTIONS: GenerationOptions = GenerationOptions {
    is_singleton: false,
    has_query: false,
};

fn panel(auto_fold_dirs: bool) -> OutlinePanel {
    let mut panel = OutlinePanel::new(Some((1, Vec::new())));
    panel.active = true;
    let update = panel.begin_fs_entries_update().unwrap();
    panel.update_fs_entries(&update, auto_fold_dirs, &project());
    refresh(&mut panel, &env(auto_fold_dirs));
    panel
}

fn refresh(panel: &mut OutlinePanel, env: &PanelEnv) {
    let number = panel.update_cached_entries().unwrap();
    let state = panel.generate_cached_entries(env, OPTIONS);
    let (entries, widest) = filter_entries(state, None);
    panel.finish_cached_entries_update(number, entries, widest);
}

fn label(env: &PanelEnv, entry: &PanelEntry) -> String {
    match entry {
        PanelEntry::Fs(FsEntry::Directory(dir)) => {
            format!("{}/", entry_name(env, dir.worktree_id, &dir.entry))
        }
        PanelEntry::Fs(FsEntry::File(file)) => entry_name(env, file.worktree_id, &file.entry),
        PanelEntry::Fs(FsEntry::ExternalFile(file)) => format!("external {}", file.buffer_id),
        PanelEntry::FoldedDirs(folded) => {
            format!("{}//", dir_names_string(env, folded.worktree_id, &folded.entries))
        }
        PanelEntry::Outline(OutlineEntry::Excerpt(excerpt)) => format!("excerpt {}", excerpt.id),
        PanelEntry::Outline(OutlineEntry::Outline(outline)) => outline.outline.text.clone(),
        PanelEntry::Search(_) => "match".to_string(),
    }
}

fn lines(panel: &OutlinePanel, env: &PanelEnv) -> Vec<String> {
    panel
        .cached_entries
        .iter()
        .map(|cached| format!("{}{}", "  ".repeat(cached.depth), label(env, &cached.entry)))
        .collect()
}

#[test]
fn entries_are_in_order() {
    let panel = panel(false);
    assert_eq!(
        lines(&panel, &env(false)),
        vec![
            "project/",
            "  README.md",
            "    excerpt 103",
            "  src/",
            "    a.rs",
            "      excerpt 101",
            "    deep/",
            "      inner/",
            "        c.rs",
            "          excerpt 102",
        ]
    );
}

#[test]
fn lone_directories_are_folded() {
    let panel = panel(true);
    assert_eq!(
        lines(&panel, &env(true)),
        vec![
            "project/",
            "  README.md",
            "    excerpt 103",
            "  src/",
            "    a.rs",
            "      excerpt 101",
            "    deep/inner//",
            "      c.rs",
            "        excerpt 102",
        ]
    );
}

#[test]
fn collapsed_lines_hide_what_is_below() {
    let env = env(false);
    let mut panel = panel(false);
    let src = panel.cached_entries[3].entry.clone();
    panel.select_entry(src.clone());
    let outcome = panel.collapse_selected_entry(&env).unwrap();
    assert!(outcome.fold);
    refresh(&mut panel, &env);
    assert_eq!(lines(&panel, &env), vec!["project/", "  README.md", "    excerpt 103", "  src/"]);
    // Opening it again shows what was shown before.
    panel.expand_selected_entry(&env).unwrap();
    refresh(&mut panel, &env);
    assert_eq!(panel.cached_entries.len(), 10);
    panel.toggle_expanded(&env, &src);
    assert!(panel.collapsed_entries.contains(&CollapsedEntry::Dir(1, 2)));
    panel.toggle_expanded(&env, &src);
    assert!(!panel.collapsed_entries.contains(&CollapsedEntry::Dir(1, 2)));
}

#[test]
fn all_lines_are_collapsed_and_expanded() {
    let env = env(false);
    let mut panel = panel(false);
    panel.collapse_all_entries(&env);
    refresh(&mut panel, &env);
    assert_eq!(panel.cached_entries.len(), 1);
    panel.expand_all_entries(&env);
    refresh(&mut panel, &env);
    assert_eq!(panel.cached_entries.len(), 10);
    assert!(panel.collapsed_entries.is_empty());
}

#[test]
fn selection_moves_between_lines() {
    let env = env(false);
    let mut panel = panel(false);
    let selected = |panel: &OutlinePanel| panel.selected_entry().map(|entry| label(&env, entry));
    assert_eq!(selected(&panel), None);
    panel.select_next();
    assert_eq!(selected(&panel), Some("project/".to_string()));
    panel.select_next();
    assert_eq!(selected(&panel), Some("README.md".to_string()));
    panel.select_previous();
    assert_eq!(selected(&panel), Some("project/".to_string()));
    panel.select_last();
    assert_eq!(selected(&panel), Some("excerpt 102".to_string()));
    panel.select_first();
    assert_eq!(selected(&panel), Some("project/".to_string()));
    let inner_file = panel.cached_entries[8].entry.clone();
    panel.select_entry(inner_file.clone());
    assert_eq!(panel.position_of(&inner_file), Some(8));
    assert_eq!(panel.autoscroll(), Some(8));
    panel.select_parent();
    assert_eq!(selected(&panel), Some("inner/".to_string()));
    panel.selected_entry.invalidate();
    assert!(panel.selected_entry.is_invalidated());
    assert!(panel.selected_entry.get().is_some());
}

#[test]
fn queries_only_remove_lines() {
    let env = env(false);
    let panel = panel(false);
    let with_query = GenerationOptions {
        is_singleton: false,
        has_query: true,
    };
    let state = panel.generate_cached_entries(&env, with_query);
    let texts: Vec<String> = state
        .match_candidates
        .iter()
        .map(|candidate| candidate.string.clone())
        .collect();
    assert!(texts.contains(&"a.rs".to_string()));
    let id = state
        .match_candidates
        .iter()
        .find(|candidate| candidate.string == "a.rs")
        .unwrap()
        .id;
    let hits = vec![StringMatch {
        candidate_id: id,
        positions: vec![0],
    }];
    let (entries, _) = filter_entries(state, Some(hits));
    assert_eq!(entries.len(), 1);
    assert_eq!(label(&env, &entries[0].entry), "a.rs");
    assert!(entries[0].string_match.is_some());
    assert_eq!(query("  "), None);
    assert_eq!(query("a b"), Some("a b".to_string()));
}

#[test]
fn outlines_are_shown_below_files() {
    let env = env(false);
    let mut panel = panel(false);
    let item = |depth: usize, start: u64, end: u64, text: &str| {
        Arc::new(OutlineItem {
            depth,
            start,
            end,
            text: text.to_string(),
        })
    };
    let key = ExcerptKey {
        buffer_id: 31,
        excerpt_id: 101,
    };
    let open = VecSet::from_items(&vec![31u64]);
    let given_up = panel.fetch_outdated_outlines(&open);
    assert!(given_up.ranges.contains_key(&key));
    panel.invalidate_outlines(&vec![102]);
    assert!(!panel.set_outlines(key, given_up.number, Arc::new(vec![])));
    let earlier = panel.fetch_outdated_outlines(&open);
    let wanted = panel.fetch_outdated_outlines(&open);
    assert!(wanted.ranges.contains_key(&key));
    assert!(!panel.set_outlines(key, earlier.number, Arc::new(vec![])));
    let outlines = Arc::new(vec![item(0, 0, 9, "struct A"), item(1, 2, 4, "field"), item(0, 9, 10, "fn b")]);
    assert!(panel.set_outlines(key, wanted.number, outlines));
    assert!(!panel
        .excerpt_fetch_ranges(&VecSet::from_items(&vec![31u64]))
        .contains_key(&key));
    refresh(&mut panel, &env);
    assert_eq!(
        lines(&panel, &env)[4..9].to_vec(),
        vec!["    a.rs", "      excerpt 101", "        struct A", "          field", "        fn b"]
    );
    panel.invalidate_outlines(&vec![101]);
    assert!(matches!(
        panel.excerpts.items.get(&key).unwrap().outlines,
        ExcerptOutlines::Invalidated(_)
    ));
    assert_eq!(panel.on_settings_changed(false, true), NextStep::Repaint);
    assert_eq!(panel.on_settings_changed(false, false), NextStep::Nothing);
    assert_eq!(panel.on_settings_changed(true, true), NextStep::UpdateNonFsItems);
    assert!(panel.excerpts.items.get(&key).unwrap().should_fetch_outlines());
}

#[test]
fn innermost_outline_holds_the_cursor() {
    let mut panel = panel(false);
    let key = ExcerptKey {
        buffer_id: 31,
        excerpt_id: 101,
    };
    let item = |start: u64, end: u64, text: &str| {
        Arc::new(OutlineItem {
            depth: 0,
            start,
            end,
            text: text.to_string(),
        })
    };
    let fetch = panel.fetch_outdated_outlines(&VecSet::from_items(&vec![31u64]));
    let outlines = Arc::new(vec![item(0, 9, "outer"), item(2, 4, "inner")]);
    assert!(panel.set_outlines(key, fetch.number, outlines));
    let at = |row: u32| DisplayPoint { row, column: 0 };
    let span = |start: u32, end: u32| {
        Some(OutlineSpan {
            start: at(start),
            end: at(end),
        })
    };
    let place = |row: u32| {
        Some(CursorPlace {
            buffer_id: 31,
            excerpt_id: 101,
            is_folded: false,
            cursor: at(row),
            spans: vec![span(0, 9), span(2, 4)],
            match_spans: vec![],
        })
    };
    match panel.location_for_editor_selection(&place(3)) {
        Some(PanelEntry::Outline(OutlineEntry::Outline(outline))) => {
            assert_eq!(outline.outline.text, "inner")
        }
        other => panic!("{:?}", other),
    }
    match panel.location_for_editor_selection(&place(7)) {
        Some(PanelEntry::Outline(OutlineEntry::Outline(outline))) => {
            assert_eq!(outline.outline.text, "outer")
        }
        other => panic!("{:?}", other),
    }
    assert!(panel.location_for_editor_selection(&None).is_none());
    assert!(matches!(panel.find_file_entry(31), Some(FsEntry::File(_))));
    assert!(panel.find_file_entry(99).is_none());
    assert!(at(1).is_before(&at(2)));
}

#[test]
fn editor_events_lead_to_updates() {
    let mut panel = panel(false);
    let folded: VecSet<u64> = VecSet::new();
    assert_eq!(
        panel.on_editor_event(&folded, &EditorEvent::SelectionsChanged { local: true }),
        NextStep::RevealSelection
    );
    assert_eq!(
        panel.on_editor_event(&folded, &EditorEvent::SelectionsChanged { local: false }),
        NextStep::Nothing
    );
    assert_eq!(
        panel.on_editor_event(&folded, &EditorEvent::ExcerptsAdded(vec![200])),
        NextStep::UpdateFsEntries
    );
    assert!(panel.new_entries_for_fs_update.contains(&200));
    panel.on_editor_event(&folded, &EditorEvent::ExcerptsRemoved(vec![101]));
    assert!(!panel.excerpts.items.contains_key(&ExcerptKey {
        buffer_id: 31,
        excerpt_id: 101
    }));
    assert_eq!(panel.on_editor_event(&folded, &EditorEvent::Other), NextStep::Nothing);
}

#[test]
fn buffers_follow_the_folds_of_the_editor() {
    let mut panel = OutlinePanel::new(Some((1, Vec::new())));
    panel.active = true;
    let update = panel.begin_fs_entries_update().unwrap();
    let mut snapshots = project();
    snapshots[0].is_folded = true;
    panel.update_fs_entries(&update, false, &snapshots);
    assert!(panel.collapsed_entries.contains(&CollapsedEntry::File(1, 31)));
    assert!(!panel.collapsed_entries.contains(&CollapsedEntry::File(1, 61)));
}

#[test]
fn paths_of_lines() {
    let mut panel = panel(true);
    let folded = panel.cached_entries[6].entry.clone();
    match abs_path(&folded) {
        Some(EntryPath::Inside(1, path)) => assert!(path.same(&rel("src/deep/inner"))),
        other => panic!("{:?}", other),
    }
    let file = panel.cached_entries[4].entry.clone();
    assert!(matches!(abs_path(&file), Some(EntryPath::OfBuffer(31))));
    panel.select_entry(file.clone());
    assert!(matches!(panel.copy_path(), Some(EntryPath::OfBuffer(31))));
    match panel.copy_relative_path() {
        Some(EntryPath::Inside(1, path)) => assert!(path.same(&rel("src/a.rs"))),
        other => panic!("{:?}", other),
    }
    if let PanelEntry::Fs(entry) = &file {
        assert!(matches!(relative_path(entry), EntryPath::Inside(1, _)));
    }
    // A terminal is opened in the directory of a file.
    let directory = panel.open_in_terminal(Some(any("/work/project/src/a.rs"))).unwrap();
    assert_eq!(directory.to_text(), "/work/project/src");
    assert!(panel.open_in_terminal(None).is_none());
}

#[test]
fn editor_is_scrolled_to_lines() {
    let mut panel = panel(false);
    let file = panel.cached_entries[4].entry.clone();
    let plan = panel.scroll_editor_to_entry(&file, false, true).unwrap();
    assert_eq!(plan.target, ScrollTarget::FileStart(3));
    let open = VecSet::new();
    assert_eq!(panel.finish_scroll(file.clone(), plan, false, &open, false), None);
    assert!(panel.selected_entry().is_none());
    let step = panel.finish_scroll(file.clone(), plan, true, &open, false).unwrap();
    assert_eq!(
        step.moves,
        ScrollMove::View(ScrollOffset {
            headers: -1,
            controls: -1
        })
    );
    assert!(step.focus_editor);
    assert!(panel.selected_entry().unwrap().same(&file));
    let dir = panel.cached_entries[3].entry.clone();
    let plan = panel.scroll_editor_to_entry(&dir, true, true).unwrap();
    assert_eq!(plan.target, ScrollTarget::Nowhere);
    assert!(!plan.change_focus);
    panel.active_item = None;
    assert!(panel.scroll_editor_to_entry(&dir, true, true).is_none());
}

#[test]
fn directories_can_be_unfolded() {
    let env = env(true);
    let mut panel = panel(true);
    let folded = panel.cached_entries[6].entry.clone();
    assert!(panel.is_unfoldable(&folded));
    panel.select_entry(folded);
    assert!(panel.unfold_directory());
    refresh(&mut panel, &env);
    assert_eq!(lines(&panel, &env)[6..8].to_vec(), vec!["    deep/", "      inner/"]);
    let deep = panel.cached_entries[6].entry.clone();
    assert!(panel.is_foldable(&deep));
    panel.select_entry(deep);
    assert!(panel.fold_directory(&env));
    refresh(&mut panel, &env);
    assert_eq!(lines(&panel, &env)[6], "    deep/inner//");
}

#[test]
fn revealed_lines_are_shown() {
    let env = env(false);
    let mut panel = panel(false);
    panel.collapse_all_entries(&env);
    let line = PanelEntry::Fs(panel.find_file_entry(61).unwrap());
    let related = Some(RelatedFile {
        worktree_id: 1,
        chain: chain(6, "src/deep/inner/c.rs"),
    });
    let number = panel.begin_reveal(true, false).unwrap();
    assert!(panel.reveal_entry_for_selection(number, Some(line.clone()), &related).is_some());
    assert!(panel.reveal_entry_for_selection(number, Some(line.clone()), &related).is_none());
    refresh(&mut panel, &env);
    assert!(panel.position_of(&line).is_some());
    assert!(should_reveal(true, true, false));
    assert!(!should_reveal(false, true, false));
}

#[test]
fn new_panel_follows_the_workspace() {
    let mut panel = OutlinePanel::new(Some((7, vec![101])));
    assert_eq!(panel.active_item, Some(7));
    assert!(panel.new_entries_for_fs_update.contains(&101));
    assert!(!panel.active);
    assert!(panel.begin_fs_entries_update().is_none());
    panel.active = true;
    let update = panel.begin_fs_entries_update().unwrap();
    panel.update_fs_entries(&update, false, &project());
    assert!(panel.generate_cached_entries(&env(false), OPTIONS).entries.len() > 0);
    panel.active_item = None;
    assert_eq!(panel.generate_cached_entries(&env(false), OPTIONS).entries.len(), 0);
}

#[test]
fn panel_follows_the_active_item() {
    let mut panel = OutlinePanel::new(None);
    assert!(matches!(panel.set_active(true, Some(4)), ItemStep::Replace(4)));
    panel.replace_active_editor(4, &vec![101, 102]);
    assert_eq!(panel.active_item, Some(4));
    assert!(!panel.should_replace_active_item(4));
    assert!(panel.should_replace_active_item(5));
    panel.toggle_active_editor_pin(Some(4));
    assert!(panel.pinned);
    panel.clear_previous();
    assert_eq!(panel.active_item, None);
}

fn anchor(token: u64) -> Anchor {
    Anchor {
        buffer_id: Some(31),
        excerpt_id: 101,
        token,
    }
}

#[test]
fn search_results_are_shown() {
    let env = env(false);
    let mut panel = panel(false);
    let found = FoundMatches {
        project: vec![AnchorRange {
            start: anchor(1),
            end: anchor(2),
        }],
        project_query: "x".to_string(),
        buffer: vec![],
        buffer_query: String::new(),
    };
    assert!(panel.update_search_matches(&found));
    match &panel.mode {
        ItemsDisplayMode::Search(state) => {
            assert_eq!(state.kind, SearchKind::Project);
            assert_eq!(state.query, "x");
        }
        other => panic!("{:?}", other),
    }
    assert!(!panel.update_search_matches(&found));
    refresh(&mut panel, &env);
    assert!(lines(&panel, &env).contains(&"      match".to_string()));
    // A match is drawn once its text has come.
    let end = panel.cached_entries.len();
    assert_eq!(panel.missing_texts(0, end), found.project);
    let data = |text: &str| {
        Arc::new(SearchData {
            context_start: 10,
            context_end: 15,
            context_text: text.to_string(),
            truncated_left: false,
            truncated_right: true,
            match_start: 4,
            match_end: 5,
        })
    };
    panel.set_search_data(found.project[0], data("let x"));
    panel.set_search_data(found.project[0], data("another"));
    assert_eq!(panel.missing_texts(0, end), vec![]);
    let options = ViewOptions {
        file_icons: false,
        folder_icons: false,
        is_singleton: false,
    };
    let views = panel.render_lines(&env, &VecSet::new(), options, 0, end);
    let line = views.iter().find(|view| view.label == "let x").unwrap();
    assert!(line.highlights.is_empty());
    assert_eq!(line.match_place, Some((4, 5)));
    assert!(!line.cut_left && line.cut_right);
    // What the filter found takes the place of the match.
    let at = panel
        .cached_entries
        .iter()
        .position(|cached| matches!(cached.entry, PanelEntry::Search(_)))
        .unwrap();
    panel.cached_entries[at].string_match = Some(StringMatch {
        candidate_id: 0,
        positions: vec![0, 1],
    });
    let views = panel.render_lines(&env, &VecSet::new(), options, at, at + 1);
    assert_eq!(views[0].highlights, vec![0, 1]);
    assert_eq!(views[0].match_place, None);
    assert!(!panel.update_search_matches(&found));
    match &panel.mode {
        ItemsDisplayMode::Search(state) => assert!(state.matches[0].render_data.is_some()),
        other => panic!("{:?}", other),
    }
    let nothing = FoundMatches {
        project: vec![],
        project_query: String::new(),
        buffer: vec![],
        buffer_query: String::new(),
    };
    assert!(panel.update_search_matches(&nothing));
    assert!(matches!(panel.mode, ItemsDisplayMode::Outline));
}

#[test]
fn nearest_match_holds_the_cursor() {
    let env = env(false);
    let mut panel = panel(false);
    let range = |token: u64| AnchorRange {
        start: anchor(token),
        end: anchor(token + 1),
    };
    let found = FoundMatches {
        project: vec![],
        project_query: String::new(),
        buffer: vec![range(1), range(3), range(5)],
        buffer_query: "x".to_string(),
    };
    panel.update_search_matches(&found);
    refresh(&mut panel, &env);
    let at = |row: u32, column: u32| DisplayPoint { row, column };
    let span = |row: u32, start: u32, end: u32| OutlineSpan {
        start: at(row, start),
        end: at(row, end),
    };
    let nearest = |cursor: DisplayPoint| {
        let place = CursorPlace {
            buffer_id: 31,
            excerpt_id: 101,
            is_folded: false,
            cursor,
            spans: vec![],
            match_spans: vec![span(1, 4, 6), span(1, 10, 12), span(8, 0, 2)],
        };
        match panel.location_for_editor_selection(&Some(place)) {
            Some(PanelEntry::Search(found)) => found.match_range,
            other => panic!("{:?}", other),
        }
    };
    assert_eq!(nearest(at(1, 0)), range(1));
    assert_eq!(nearest(at(1, 9)), range(3));
    // Of two that are equally near, the later one.
    assert_eq!(nearest(at(1, 8)), range(3));
    assert_eq!(nearest(at(7, 0)), range(5));
}

#[test]
fn context_of_a_match() {
    let (left, right) = context_borders(Point::new(3, 50), Point::new(3, 60));
    assert_eq!((left, right), (Point::new(3, 10), Point::new(3, 100)));
    let (left, right) = context_borders(Point::new(3, 5), Point::new(3, 6));
    assert_eq!(left, Point::new(3, 0));
    assert_eq!(right, Point::new(3, 46));
    let (outer_left, outer_right) = extended_borders(left, right);
    assert_eq!(outer_left, Point::new(3, 0));
    assert!(outer_right.column >= right.column);
    let context = MatchContext {
        text: "  let found = 1;".to_string(),
        start: 100,
        end: 116,
        match_start: 6,
        match_end: 11,
        more_left: false,
        more_right: true,
        outer_left: None,
        outer_right: Some('x'),
    };
    assert_eq!(context.match_without_blanks(), (4, 9));
    let data = SearchData::new(&context, 4, 9);
    assert_eq!(data.context_text, "let found = 1;");
    assert_eq!((data.context_start, data.context_end), (102, 116));
    assert_eq!((data.match_start, data.match_end), (4, 9));
    // Where the buffer clips the match, the clipped one counts.
    let data = SearchData::new(&context, 3, 9);
    assert_eq!((data.match_start, data.match_end), (3, 9));
}

#[test]
fn highlights_of_a_context() {
    let chunk = |text: &str, style: Option<u64>| HighlightChunk {
        text: text.to_string(),
        style,
    };
    let highlights = match_highlights(&vec![chunk("  ", None), chunk("let", Some(7)), chunk(" x", None)], 5);
    let shown: Vec<(usize, usize, u64)> = highlights
        .iter()
        .map(|highlight| (highlight.start, highlight.end, highlight.style))
        .collect();
    assert_eq!(shown, vec![(0, 3, 7)]);
}

#[test]
fn lines_are_drawn() {
    let env = env(false);
    let panel = panel(false);
    let options = ViewOptions {
        file_icons: true,
        folder_icons: true,
        is_singleton: false,
    };
    let open = VecSet::from_items(&vec![31u64, 61, 71]);
    let views = panel.render_lines(&env, &open, options, 0, panel.cached_entries.len());
    let labels: Vec<&str> = views.iter().map(|view| view.label.as_str()).collect();
    assert_eq!(labels, vec![
            "project",
            "README.md",
            "Lines 1- 10",
            "src",
            "a.rs",
            "Lines 1- 10",
            "deep",
            "inner",
            "c.rs",
            "Lines 1- 10",
        ]);
    assert_eq!(panel.indent_depths(0, 4), vec![0, 1, 2, 1]);
    assert_eq!(panel.render_main_contents(false), Contents::List);
    let empty = OutlinePanel::new(None);
    assert_eq!(empty.render_main_contents(true), Contents::NoMatches);
    assert_eq!(empty.render_main_contents(false), Contents::NoOutlines);
    assert_eq!(excerpt_label(&range()), Some("Lines 1- 10".to_string()));
}

#[test]
fn settings_of_the_view() {
    assert!(!should_show_scrollbar(Some(ShowScrollbar::Never), ShowScrollbar::Always));
    assert!(should_show_scrollbar(None, ShowScrollbar::Auto));
    assert!(should_autohide_scrollbar(Some(ShowScrollbar::Auto), ShowScrollbar::Always, false));
    assert!(!should_autohide_scrollbar(None, ShowScrollbar::Always, true));
    assert_eq!(
        OutlinePanelDockPosition::from_position(DockPosition::Bottom).position(),
        DockPosition::Left
    );
    assert_eq!(
        OutlinePanelDockPosition::from_position(DockPosition::Right).position(),
        DockPosition::Right
    );
    assert!(position_is_valid(DockPosition::Left));
    assert!(!position_is_valid(DockPosition::Bottom));
    assert_eq!(
        serialization_key(Some(-3), None),
        Some("OutlinePanel-\"-3\"".to_string())
    );
    assert_eq!(
        serialization_key(None, Some("s".to_string())),
        Some("OutlinePanel-\"s\"".to_string())
    );
    assert_eq!(serialization_key(None, None), None);
    assert_eq!(click_changes_focus(true, false, 1), None);
    assert_eq!(click_changes_focus(false, false, 2), Some(true));
    assert!(matches!(SelectedEntry::Nothing.get(), None));
}

#[test]
fn work_given_up_is_not_taken() {
    let mut panel = OutlinePanel::new(Some((1, Vec::new())));
    panel.active = true;
    let first = panel.begin_fs_entries_update().unwrap();
    let second = panel.begin_fs_entries_update().unwrap();
    panel.update_fs_entries(&first, false, &project());
    assert_eq!(panel.fs_entries.len(), 0);
    assert!(panel.updating_fs_entries);
    panel.update_fs_entries(&second, false, &project());
    assert!(panel.fs_entries.len() > 0);
    assert!(!panel.updating_fs_entries);
    let update = panel.begin_fs_entries_update().unwrap();
    let number = panel.update_cached_entries().unwrap();
    let state = panel.generate_cached_entries(&env(false), OPTIONS);
    let (entries, widest) = filter_entries(state, None);
    panel.clear_previous();
    panel.update_fs_entries(&update, false, &project());
    assert_eq!(panel.fs_entries.len(), 0);
    assert!(!panel.finish_cached_entries_update(number, entries, widest));
    assert_eq!(panel.cached_entries.len(), 0);
    assert_eq!(panel.begin_reveal(true, true), None);
    assert_eq!(panel.begin_reveal(false, false), None);
}
