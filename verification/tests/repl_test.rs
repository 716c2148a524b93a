use zed_core::collections::VecMap;
use zed_core::repl_editor::{
    language_supported, same_language, Buffer, BufferLanguage, Injection, Line, PointRange,
    ReplStore, SessionSupport,
};
use zed_core::rope::position::Point;

fn buffer(language: &str, prefixes: &[&str], text: &str) -> Buffer {
    Buffer {
        lines: text
            .split('\n')
            .map(|line| Line {
                text: line.to_string(),
                start_language: Some(1),
                end_language: Some(1),
            })
            .collect(),
        language: Some(BufferLanguage {
            name: language.to_string(),
            line_comment_prefixes: prefixes.iter().map(|prefix| prefix.to_string()).collect(),
        }),
    }
}

fn rows(ranges: &[PointRange]) -> Vec<(u32, u32, u32, u32)> {
    ranges
        .iter()
        .map(|range| (range.start.row, range.start.column, range.end.row, range.end.column))
        .collect()
}

const CELLS: &str = "# Hello!\n# %% [markdown]\n# This is some arithmetic\nprint(1 + 1)\nprint(2 + 2)\n\n# %%\nprint(3 + 3)\nprint(4 + 4)\n\nprint(5 + 5)\n\n";

#[test]
fn plain_text_is_run_as_selected() {
    let buffer = buffer("Python", &["# "], "print(1 + 1)\nprint(2 + 2)\n\nprint(4 + 4)\n\n");
    let (ranges, next) = buffer.runnable_ranges(0, 0, &vec![], &vec![]);
    assert_eq!(rows(&ranges), vec![(0, 0, 0, 12)]);
    assert_eq!(next, None);
    // Blank lines at the end are left out.
    let (ranges, _) = buffer.runnable_ranges(1, 2, &vec![], &vec![]);
    assert_eq!(rows(&ranges), vec![(1, 0, 1, 12)]);
    let (ranges, _) = buffer.runnable_ranges(0, 5, &vec![], &vec![]);
    assert_eq!(rows(&ranges), vec![(0, 0, 3, 12)]);
}

#[test]
fn cells_are_run_whole() {
    let buffer = buffer("Python", &["# "], CELLS);
    let (ranges, next) = buffer.runnable_ranges(2, 2, &vec![], &vec![]);
    assert_eq!(rows(&ranges), vec![(1, 0, 4, 12)]);
    assert_eq!(next, Some(Point::new(6, 0)));
    let (ranges, next) = buffer.runnable_ranges(7, 7, &vec![], &vec![]);
    assert_eq!(rows(&ranges), vec![(6, 0, 10, 12)]);
    assert_eq!(next, None);
    // A selection over two cells runs both.
    let (ranges, next) = buffer.runnable_ranges(3, 8, &vec![], &vec![]);
    assert_eq!(rows(&ranges), vec![(1, 0, 4, 12), (6, 0, 10, 12)]);
    assert_eq!(next, None);
    // Above the first cell the line itself is run.
    let (ranges, next) = buffer.runnable_ranges(0, 0, &vec![], &vec![]);
    assert_eq!(rows(&ranges), vec![(0, 0, 0, 8)]);
    assert_eq!(next, None);
}

#[test]
fn cells_follow_one_another() {
    let buffer = buffer("Python", &["# ", "#"], CELLS);
    let last = buffer.lines.len() as u32 - 1;
    for start in 0..=last {
        for end in start..=last {
            let (cells, next) = buffer.jupytext_cells(start, end);
            for pair in cells.windows(2) {
                assert!(pair[0].end.row < pair[1].start.row);
            }
            if let Some(first) = cells.first() {
                assert!(first.start.row <= start);
            }
            if let Some(next) = next {
                assert!(next.row > end);
            }
        }
    }
    assert_eq!(rows(&[buffer.cell_range(3, 5)]), vec![(3, 0, 4, 12)]);
}

#[test]
fn text_of_two_languages_is_not_run() {
    let mut buffer = buffer("Python", &[], "a\nb");
    buffer.lines[1].end_language = Some(2);
    let (ranges, _) = buffer.runnable_ranges(0, 1, &vec![], &vec![]);
    assert!(ranges.is_empty());
    buffer.lines[1].end_language = None;
    let (ranges, _) = buffer.runnable_ranges(0, 1, &vec![], &vec![]);
    assert!(ranges.is_empty());
}

#[test]
fn code_blocks_of_markdown_are_run() {
    let block = |row: u32, language: &str| Injection {
        start: Point::new(row, 0),
        end: Point::new(row + 2, 0),
        language: language.to_string(),
    };
    let buffer = buffer("Markdown", &[], "text\n```python\n1\n```\n```rust\n2\n```\n");
    let kernels = vec!["python".to_string()];
    let (ranges, next) =
        buffer.runnable_ranges(0, 5, &vec![block(1, "Python"), block(4, "Rust")], &kernels);
    assert_eq!(rows(&ranges), vec![(1, 0, 3, 0)]);
    assert_eq!(next, None);
    assert!(language_supported("PYTHON", &kernels));
    assert!(!language_supported("Rust", &kernels));
    assert!(same_language("rust", "rust"));
    assert!(!same_language("a", "b"));
}

fn store(enabled: bool) -> ReplStore {
    ReplStore {
        enabled,
        sessions: VecMap::new(),
        selected_kernels: VecMap::new(),
    }
}

#[test]
fn sessions_of_editors() {
    let mut store = store(true);
    let kernels = vec!["python".to_string()];
    assert_eq!(store.get_session(1), None);
    assert!(matches!(
        store.session(1, Some("Python"), Some(9), None, &kernels),
        SessionSupport::RequiresSetup(name) if name == "Python"
    ));
    assert!(matches!(
        store.session(1, Some("Python"), Some(9), Some(3), &kernels),
        SessionSupport::Inactive(3)
    ));
    assert!(matches!(
        store.session(1, Some("Rust"), Some(9), None, &kernels),
        SessionSupport::Unsupported
    ));
    assert!(matches!(
        store.session(1, None, Some(9), None, &kernels),
        SessionSupport::Unsupported
    ));
    assert!(store.assign_kernelspec(3, 1, None, 50).is_err());
    assert!(store.assign_kernelspec(3, 1, Some(9), 50).is_ok());
    assert_eq!(store.get_session(1), Some(50));
    assert!(matches!(
        store.session(1, None, None, None, &kernels),
        SessionSupport::ActiveSession(50)
    ));
    assert_eq!(store.session_for_action(true, 1), Some(50));
    assert_eq!(store.session_for_action(false, 1), None);
    store.remove_session(1);
    assert_eq!(store.get_session(1), None);
}

#[test]
fn ranges_are_run_in_a_session() {
    let range = PointRange {
        start: Point::new(0, 0),
        end: Point::new(1, 0),
    };
    let mut store = store(true);
    let rust = || Some("Rust".to_string());
    let (runs, error) = store.run(
        Some(1),
        true,
        70,
        &vec![range, range, range],
        &vec![rust(), None, rust()],
        &vec![Some(5), Some(5), Some(6)],
        Some(Point::new(3, 0)),
        true,
    );
    assert!(error.is_none());
    assert_eq!(runs.len(), 2);
    assert_eq!((runs[0].session, runs[0].start_with), (70, Some(5)));
    assert_eq!((runs[1].session, runs[1].start_with), (70, None));
    assert_eq!(runs[1].next_cursor, Some(Point::new(3, 0)));
    assert_eq!(store.get_session(1), Some(70));
    // Without a kernel the rest is not run.
    let (runs, error) = store.run(
        Some(2),
        true,
        71,
        &vec![range, range],
        &vec![rust(), rust()],
        &vec![None, Some(5)],
        None,
        false,
    );
    assert_eq!(error.unwrap().text(), "No kernel found for language: Rust");
    assert!(runs.is_empty());
    assert_eq!(store.get_session(2), None);
    let run_one = |store: &mut ReplStore, editor, shown| {
        store.run(editor, shown, 72, &vec![range], &vec![rust()], &vec![Some(5)], None, false)
    };
    let (runs, error) = run_one(&mut store, None, true);
    assert!(runs.is_empty());
    assert_eq!(error.unwrap().text(), "editor was dropped");
    let (runs, error) = run_one(&mut store, Some(1), false);
    assert!(runs.is_empty() && error.is_none());
    store.enabled = false;
    let (runs, error) = run_one(&mut store, None, true);
    assert!(runs.is_empty() && error.is_none());
}
