//! Tests for error handling and all-or-nothing mutations.

use tin::errors::AppError;
use tin::store::Store;

const TS: &str = "2024-01-01T00:00:00.000Z";

#[test]
fn test_duplicate_primary_key_rejected() {
    let mut st = Store::new();
    st.create_card_at(
        "duplicate-id".to_string(),
        "log-1".to_string(),
        Some("First".to_string()),
        "100".to_string(),
        TS.to_string(),
    )
    .unwrap();

    let result = st.create_card_at(
        "duplicate-id".to_string(),
        "log-2".to_string(),
        Some("Second".to_string()),
        "200".to_string(),
        TS.to_string(),
    );

    assert!(result.is_err(), "Duplicate primary key should be rejected");
}

#[test]
fn test_query_nonexistent_card_returns_no_rows() {
    let st = Store::new();
    let result = st.get_card("nonexistent-id".to_string());
    assert!(matches!(result, Err(AppError::CardNotFound(_))));
}

#[test]
fn test_transaction_rollback_on_error() {
    let mut st = Store::new();
    st.create_card_at(
        "tx-card-1".to_string(),
        "log-1".to_string(),
        Some("Transaction Test".to_string()),
        "100".to_string(),
        TS.to_string(),
    )
    .unwrap();

    // A failing mutation must leave no partial write behind.
    let result = st.add_todo_at(
        "tx-card-1".to_string(),
        "todo-tx-1".to_string(),
        "log-2".to_string(),
        "Broken".to_string(),
        Some("not-a-number".to_string()),
        None,
        TS.to_string(),
    );
    assert!(result.is_err());

    let card = st.get_card("tx-card-1".to_string()).unwrap();
    assert_eq!(
        card.amount, "100.000000",
        "Rolled back transaction should not persist"
    );
    assert_eq!(card.todos.len(), 0);
}

#[test]
fn test_transaction_commit_persists() {
    let mut st = Store::new();
    st.create_card_at(
        "tx-card-2".to_string(),
        "log-1".to_string(),
        Some("Committed Test".to_string()),
        "100".to_string(),
        TS.to_string(),
    )
    .unwrap();

    let cards = st.list_cards().unwrap();
    assert_eq!(cards.len(), 1, "Committed transaction should persist");
    assert_eq!(cards[0].id, "tx-card-2");
}
