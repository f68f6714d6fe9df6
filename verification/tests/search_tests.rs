//! Tests for full-text search over the title projection.

use tin::store::Store;

const TS: &str = "2024-01-01T00:00:00.000Z";

#[test]
fn test_fts5_indexes_card_on_insert() {
    let mut st = Store::new();
    st.create_card_at(
        "card-search-1".to_string(),
        "log-1".to_string(),
        Some("Groceries Budget".to_string()),
        "500".to_string(),
        TS.to_string(),
    )
    .unwrap();

    let hits = st.search("Groceries".to_string()).unwrap();
    assert_eq!(hits.len(), 1, "FTS5 should index card title on insert");
    assert_eq!(hits[0].card_id, "card-search-1");
}

#[test]
fn test_fts5_indexes_todo_on_insert() {
    let mut st = Store::new();
    st.create_card_at(
        "card-search-2".to_string(),
        "log-1".to_string(),
        Some("Test Card".to_string()),
        "100".to_string(),
        TS.to_string(),
    )
    .unwrap();
    st.add_todo_at(
        "card-search-2".to_string(),
        "todo-search-1".to_string(),
        "log-2".to_string(),
        "Buy milk and eggs".to_string(),
        None,
        None,
        TS.to_string(),
    )
    .unwrap();

    let hits = st.search("milk".to_string()).unwrap();
    assert!(hits.len() >= 1, "FTS5 should index todo title on insert");
    assert_eq!(hits[0].todo_id.as_deref(), Some("todo-search-1"));
}

#[test]
fn test_fts5_updates_on_card_update() {
    let mut st = Store::new();
    st.create_card_at(
        "card-search-3".to_string(),
        "log-1".to_string(),
        Some("Old Title".to_string()),
        "100".to_string(),
        TS.to_string(),
    )
    .unwrap();

    st.update_card_at(
        "card-search-3".to_string(),
        "log-2".to_string(),
        Some("New Entertainment Budget".to_string()),
        None,
        TS.to_string(),
    )
    .unwrap();

    let hits = st.search("Entertainment".to_string()).unwrap();
    assert!(hits.len() >= 1, "FTS5 should update index on card update");
}

#[test]
fn test_fts5_removes_on_card_delete() {
    let mut st = Store::new();
    st.create_card_at(
        "card-search-4".to_string(),
        "log-1".to_string(),
        Some("Unique Delete Test".to_string()),
        "100".to_string(),
        TS.to_string(),
    )
    .unwrap();

    st.delete_card("card-search-4".to_string()).unwrap();

    let hits = st.search("Unique".to_string()).unwrap();
    assert_eq!(
        hits.len(),
        0,
        "FTS5 should remove card from index on delete"
    );
}
