use zed_core::search_history::{QueryInsertionBehavior, SearchHistory, SearchHistoryCursor};

#[test]
fn added_query_is_selected() {
    let mut history = SearchHistory::new(Some(3), QueryInsertionBehavior::ReplacePreviousIfContains);
    let mut cursor = SearchHistoryCursor::default();
    assert_eq!(history.current(&cursor), None);
    history.add(&mut cursor, "rust".to_string());
    assert_eq!(history.current(&cursor), Some("rust"));
    // A query that holds the one before it takes its place.
    history.add(&mut cursor, "rustlang".to_string());
    assert_eq!(history.current(&cursor), Some("rustlang"));
    assert_eq!(history.previous(&mut cursor), None);
    history.add(&mut cursor, "php".to_string());
    assert_eq!(history.current(&cursor), Some("php"));
    assert_eq!(history.previous(&mut cursor), Some("rustlang"));
    // The selected query is not added again.
    history.add(&mut cursor, "rustlang".to_string());
    assert_eq!(history.next(&mut cursor), Some("php"));
    assert_eq!(history.next(&mut cursor), None);
    assert_eq!(history.current(&cursor), Some("php"));
}

#[test]
fn history_is_bounded() {
    let mut history = SearchHistory::new(Some(2), QueryInsertionBehavior::AlwaysInsert);
    let mut cursor = SearchHistoryCursor::default();
    for query in ["a", "ab", "abc"] {
        history.add(&mut cursor, query.to_string());
    }
    assert_eq!(history.previous(&mut cursor), Some("ab"));
    assert_eq!(history.previous(&mut cursor), None);
    assert_eq!(history.current(&cursor), Some("ab"));
}

#[test]
fn steps_back_and_forth() {
    let mut history = SearchHistory::new(None, QueryInsertionBehavior::default());
    let mut cursor = SearchHistoryCursor::default();
    assert_eq!(history.previous(&mut cursor), None);
    assert_eq!(history.next(&mut cursor), None);
    for query in ["one", "two", "three"] {
        history.add(&mut cursor, query.to_string());
    }
    cursor.reset();
    assert_eq!(history.next(&mut cursor), None);
    assert_eq!(history.previous(&mut cursor), Some("three"));
    assert_eq!(history.previous(&mut cursor), Some("two"));
    assert_eq!(history.next(&mut cursor), Some("three"));
    assert_eq!(history.previous(&mut cursor), Some("two"));
}

#[test]
fn always_inserted() {
    let mut history = SearchHistory::new(None, QueryInsertionBehavior::AlwaysInsert);
    let mut cursor = SearchHistoryCursor::default();
    history.add(&mut cursor, "a".to_string());
    history.add(&mut cursor, "a".to_string());
    assert_eq!(history.current(&cursor), Some("a"));
    let copy = history.clone();
    let mut other = cursor.clone();
    assert_eq!(copy.previous(&mut other), Some("a"));
    assert_eq!(copy.previous(&mut other), None);
    assert_eq!(history.next(&mut cursor), None);
}
