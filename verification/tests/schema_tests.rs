//! Tests for store shape integrity: the tables exist, accept rows, and
//! cascade correctly.

use tin::errors::AppError;
use tin::store::Store;

const TS: &str = "2024-01-01T00:00:00.000Z";

#[test]
fn test_card_table_exists() {
    let st = Store::new();
    let cards = st.list_cards().unwrap();
    assert_eq!(cards.len(), 0, "Card table should exist");
}

#[test]
fn test_todo_table_exists() {
    let mut st = Store::new();
    st.create_card_at(
        "card-schema-1".to_string(),
        "log-1".to_string(),
        Some("Holder".to_string()),
        "1".to_string(),
        TS.to_string(),
    )
    .unwrap();
    let card = st.get_card("card-schema-1".to_string()).unwrap();
    assert_eq!(card.todos.len(), 0, "Todo table should exist");
}

#[test]
fn test_changelog_table_exists() {
    let st = Store::new();
    let changes = st.recent_changes(None).unwrap();
    assert_eq!(changes.len(), 0, "ChangeLog table should exist");
}

#[test]
fn test_fts5_search_index_exists() {
    let st = Store::new();
    let hits = st.search("anything".to_string()).unwrap();
    assert_eq!(hits.len(), 0, "FTS5 search_index should exist");
}

#[test]
fn test_card_insert_basic() {
    let mut st = Store::new();
    let result = st.create_card_at(
        "test-id-1".to_string(),
        "log-1".to_string(),
        Some("Test Card".to_string()),
        "100".to_string(),
        TS.to_string(),
    );

    assert!(result.is_ok(), "Card insert should succeed");
    assert_eq!(st.list_cards().unwrap().len(), 1, "Should insert 1 row");
}

#[test]
fn test_card_insert_with_null_title() {
    let mut st = Store::new();
    let result = st.create_card_at(
        "test-id-2".to_string(),
        "log-1".to_string(),
        None,
        "50".to_string(),
        TS.to_string(),
    );

    assert!(result.is_ok(), "Card with null title should succeed");
}

#[test]
fn test_todo_foreign_key_constraint() {
    let mut st = Store::new();
    let result = st.add_todo_at(
        "non-existent-card".to_string(),
        "todo-1".to_string(),
        "log-1".to_string(),
        "Test Todo".to_string(),
        None,
        None,
        TS.to_string(),
    );

    assert!(
        result.is_err(),
        "Todo insert without valid cardId should fail"
    );
}

#[test]
fn test_cascade_delete_removes_todos() {
    let mut st = Store::new();
    st.create_card_at(
        "card-2".to_string(),
        "log-1".to_string(),
        Some("To Delete".to_string()),
        "100".to_string(),
        TS.to_string(),
    )
    .unwrap();
    st.add_todo_at(
        "card-2".to_string(),
        "todo-2".to_string(),
        "log-2".to_string(),
        "Will be deleted".to_string(),
        None,
        None,
        TS.to_string(),
    )
    .unwrap();

    st.delete_card("card-2".to_string()).unwrap();

    let gone = st.update_todo(
        "todo-2".to_string(),
        None,
        None,
        Some(true),
        None,
        None,
    );
    assert!(
        matches!(gone, Err(AppError::TodoNotFound(_))),
        "Todos should be cascade deleted with card"
    );
}
