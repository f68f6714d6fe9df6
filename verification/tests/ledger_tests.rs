//! End-to-end scenarios over the whole ledger: amounts, the change log,
//! archival, and search behaviour.

use tin::archiver::run_archive;
use tin::errors::AppError;
use tin::store::Store;

const TS: &str = "2024-01-01T00:00:00.000Z";

#[test]
fn test_search_empty_query_returns_nothing() {
    let mut st = Store::new();
    st.create_card_at(
        "card-q".to_string(),
        "log-1".to_string(),
        Some("Groceries".to_string()),
        "1".to_string(),
        TS.to_string(),
    )
    .unwrap();

    assert_eq!(st.search("".to_string()).unwrap().len(), 0);
    assert_eq!(st.search("   ".to_string()).unwrap().len(), 0);
}

#[test]
fn test_groceries_scenario() {
    let mut st = Store::new();
    let card = st
        .create_card(Some("Groceries".to_string()), "500.000000".to_string())
        .unwrap();

    let res = st
        .add_todo(
            card.id.clone(),
            "Milk".to_string(),
            Some("12.5".to_string()),
            false,
            None,
        )
        .unwrap();
    assert_eq!(res.updated_card.amount, "487.500000");
    assert_eq!(res.todo.amount.as_deref(), Some("12.500000"));

    let full = st.get_card(card.id.clone()).unwrap();
    assert_eq!(full.todos.len(), 1);
    assert_eq!(full.todos[0].order_index, 1);

    let changes = st.recent_changes(Some(2)).unwrap();
    assert_eq!(changes.len(), 2);
    assert_eq!(changes[0].kind, "todo_added");
    assert_eq!(changes[1].kind, "created");
}

#[test]
fn test_amount_rounding_half_up() {
    let mut st = Store::new();
    let a = st
        .create_card_at(
            "round-1".to_string(),
            "log-1".to_string(),
            None,
            "0.9999995".to_string(),
            TS.to_string(),
        )
        .unwrap();
    assert_eq!(a.amount, "1.000000");

    let b = st
        .create_card_at(
            "round-2".to_string(),
            "log-2".to_string(),
            None,
            "1.0000004".to_string(),
            TS.to_string(),
        )
        .unwrap();
    assert_eq!(b.amount, "1.000000");

    let c = st
        .create_card_at(
            "round-3".to_string(),
            "log-3".to_string(),
            None,
            "-2.5000005".to_string(),
            TS.to_string(),
        )
        .unwrap();
    assert_eq!(c.amount, "-2.500001");
}

#[test]
fn test_invalid_amounts_rejected() {
    let mut st = Store::new();
    for bad in ["abc", "", "1e5", "--1", "1.2.3", "+", ".", "12a", "1 2"] {
        let r = st.create_card(None, bad.to_string());
        assert!(
            matches!(r, Err(AppError::InvalidAmount(_))),
            "{:?} should be rejected",
            bad
        );
    }
    for good in ["+5", "1.", ".5", "007", "999999999999"] {
        assert!(
            st.create_card(None, good.to_string()).is_ok(),
            "{:?} should parse",
            good
        );
    }
    let too_big = st.create_card(None, "1000000000000".to_string());
    assert!(matches!(too_big, Err(AppError::InvalidAmount(_))));
}

#[test]
fn test_update_card_partial_fields() {
    let mut st = Store::new();
    st.create_card_at(
        "upd-1".to_string(),
        "log-1".to_string(),
        Some("Original".to_string()),
        "10".to_string(),
        TS.to_string(),
    )
    .unwrap();

    let after_title = st
        .update_card_at(
            "upd-1".to_string(),
            "log-2".to_string(),
            Some("Renamed".to_string()),
            None,
            "2024-01-02T00:00:00.000Z".to_string(),
        )
        .unwrap();
    assert_eq!(after_title.title.as_deref(), Some("Renamed"));
    assert_eq!(after_title.amount, "10.000000");

    let after_amount = st
        .update_card_at(
            "upd-1".to_string(),
            "log-3".to_string(),
            None,
            Some("25.25".to_string()),
            "2024-01-03T00:00:00.000Z".to_string(),
        )
        .unwrap();
    assert_eq!(after_amount.title.as_deref(), Some("Renamed"));
    assert_eq!(after_amount.amount, "25.250000");
    assert_eq!(after_amount.created_at, TS);
}

#[test]
fn test_todo_edits_leave_balance_alone() {
    let mut st = Store::new();
    st.create_card_at(
        "bal-1".to_string(),
        "log-1".to_string(),
        Some("Wallet".to_string()),
        "100".to_string(),
        TS.to_string(),
    )
    .unwrap();
    st.add_todo_at(
        "bal-1".to_string(),
        "todo-bal-1".to_string(),
        "log-2".to_string(),
        "Spend".to_string(),
        Some("30".to_string()),
        None,
        TS.to_string(),
    )
    .unwrap();

    st.update_todo_at(
        "todo-bal-1".to_string(),
        "log-3".to_string(),
        None,
        Some("50".to_string()),
        None,
        None,
        None,
        TS.to_string(),
    )
    .unwrap();
    let card = st.get_card("bal-1".to_string()).unwrap();
    assert_eq!(card.amount, "70.000000");

    st.delete_todo_at(
        "todo-bal-1".to_string(),
        "log-4".to_string(),
        TS.to_string(),
    )
    .unwrap();
    let card = st.get_card("bal-1".to_string()).unwrap();
    assert_eq!(card.amount, "70.000000");

    let changes = st.recent_changes(None).unwrap();
    assert_eq!(changes.len(), 4);
    assert_eq!(changes[0].kind, "todo_deleted");
    assert_eq!(changes[1].kind, "todo_updated");
}

#[test]
fn test_archive_old_cards_idempotent() {
    let mut st = Store::new();
    st.create_card_at(
        "old-1".to_string(),
        "log-1".to_string(),
        Some("Old A".to_string()),
        "1".to_string(),
        "2023-01-01T00:00:00.000Z".to_string(),
    )
    .unwrap();
    st.create_card_at(
        "old-2".to_string(),
        "log-2".to_string(),
        Some("Old B".to_string()),
        "1".to_string(),
        "2023-02-01T00:00:00.000Z".to_string(),
    )
    .unwrap();
    st.create_card_at(
        "new-1".to_string(),
        "log-3".to_string(),
        Some("Fresh".to_string()),
        "1".to_string(),
        "2024-06-01T00:00:00.000Z".to_string(),
    )
    .unwrap();

    let cutoff = "2024-01-01T00:00:00.000Z".to_string();
    let first = st
        .archive_old_cards_at(cutoff.clone(), "2024-07-01T00:00:00.000Z".to_string())
        .unwrap();
    assert_eq!(first.archived_count, 2);

    let second = st
        .archive_old_cards_at(cutoff, "2024-07-01T00:00:01.000Z".to_string())
        .unwrap();
    assert_eq!(second.archived_count, 0);

    assert_eq!(st.list_archived_cards().unwrap().len(), 2);
    assert_eq!(st.list_cards().unwrap().len(), 1);
}

#[test]
fn test_unarchive_restores_listing() {
    let mut st = Store::new();
    st.create_card_at(
        "arc-1".to_string(),
        "log-1".to_string(),
        Some("Box".to_string()),
        "1".to_string(),
        TS.to_string(),
    )
    .unwrap();
    st.archive_card_at("arc-1".to_string(), "log-2".to_string(), TS.to_string())
        .unwrap();
    assert_eq!(st.list_cards().unwrap().len(), 0);
    assert_eq!(st.list_archived_cards().unwrap().len(), 1);

    let card = st
        .unarchive_card_at("arc-1".to_string(), "log-3".to_string(), TS.to_string())
        .unwrap();
    assert!(!card.archived);
    assert!(card.archived_at.is_none());
    assert_eq!(st.list_cards().unwrap().len(), 1);
    assert_eq!(st.list_archived_cards().unwrap().len(), 0);
}

#[test]
fn test_list_cards_newest_first() {
    let mut st = Store::new();
    st.create_card_at(
        "list-1".to_string(),
        "log-1".to_string(),
        Some("Oldest".to_string()),
        "1".to_string(),
        "2024-01-01T00:00:00.000Z".to_string(),
    )
    .unwrap();
    st.create_card_at(
        "list-2".to_string(),
        "log-2".to_string(),
        Some("Newest".to_string()),
        "1".to_string(),
        "2024-03-01T00:00:00.000Z".to_string(),
    )
    .unwrap();
    st.create_card_at(
        "list-3".to_string(),
        "log-3".to_string(),
        Some("Middle".to_string()),
        "1".to_string(),
        "2024-02-01T00:00:00.000Z".to_string(),
    )
    .unwrap();

    let cards = st.list_cards().unwrap();
    assert_eq!(cards.len(), 3);
    assert_eq!(cards[0].id, "list-2");
    assert_eq!(cards[1].id, "list-3");
    assert_eq!(cards[2].id, "list-1");
}

#[test]
fn test_todo_canonical_order() {
    let mut st = Store::new();
    st.create_card_at(
        "ord-1".to_string(),
        "log-1".to_string(),
        Some("List".to_string()),
        "0".to_string(),
        TS.to_string(),
    )
    .unwrap();
    for (todo_id, title) in [("t-1", "First"), ("t-2", "Second"), ("t-3", "Third")] {
        st.add_todo_at(
            "ord-1".to_string(),
            todo_id.to_string(),
            format!("log-{}", todo_id),
            title.to_string(),
            None,
            None,
            TS.to_string(),
        )
        .unwrap();
    }
    // Move the third todo to the front by hand.
    st.update_todo_at(
        "t-3".to_string(),
        "log-move".to_string(),
        None,
        None,
        None,
        None,
        Some(0),
        TS.to_string(),
    )
    .unwrap();

    let card = st.get_card("ord-1".to_string()).unwrap();
    assert_eq!(card.todos.len(), 3);
    assert_eq!(card.todos[0].id, "t-3");
    assert_eq!(card.todos[1].id, "t-1");
    assert_eq!(card.todos[1].order_index, 1);
    assert_eq!(card.todos[2].id, "t-2");
    assert_eq!(card.todos[2].order_index, 2);
}

#[test]
fn test_recent_changes_limits() {
    let mut st = Store::new();
    for k in 0..5 {
        st.create_card_at(
            format!("ch-{}", k),
            format!("log-{}", k),
            None,
            "1".to_string(),
            format!("2024-01-0{}T00:00:00.000Z", k + 1),
        )
        .unwrap();
    }
    assert_eq!(st.recent_changes(Some(3)).unwrap().len(), 3);
    assert_eq!(st.recent_changes(None).unwrap().len(), 5);
    assert_eq!(st.recent_changes(Some(-1)).unwrap().len(), 5);
    let newest = &st.recent_changes(Some(1)).unwrap()[0];
    assert_eq!(newest.card_id, "ch-4");
    assert_eq!(newest.payload.amount.as_deref(), Some("1"));
}

#[test]
fn test_search_prefix_then_rename() {
    let mut st = Store::new();
    st.create_card_at(
        "pfx-1".to_string(),
        "log-1".to_string(),
        Some("Groceries Budget".to_string()),
        "1".to_string(),
        TS.to_string(),
    )
    .unwrap();

    let hits = st.search("Groc".to_string()).unwrap();
    assert_eq!(hits.len(), 1);
    assert_eq!(hits[0].card_id, "pfx-1");

    st.update_card_at(
        "pfx-1".to_string(),
        "log-2".to_string(),
        Some("Household".to_string()),
        None,
        TS.to_string(),
    )
    .unwrap();

    assert_eq!(st.search("Groc".to_string()).unwrap().len(), 0);
}

#[test]
fn test_search_whole_word_and_prefix_terms() {
    let mut st = Store::new();
    st.create_card_at(
        "w-1".to_string(),
        "log-1".to_string(),
        Some("Buy fresh milk".to_string()),
        "1".to_string(),
        TS.to_string(),
    )
    .unwrap();

    // All terms but the last must match whole words; the last is a prefix.
    assert_eq!(st.search("buy mil".to_string()).unwrap().len(), 1);
    assert_eq!(st.search("bu milk".to_string()).unwrap().len(), 0);
    assert_eq!(st.search("MILK".to_string()).unwrap().len(), 1);
}

#[test]
fn test_search_snippet_highlights_matches() {
    let mut st = Store::new();
    st.create_card_at(
        "snip-1".to_string(),
        "log-1".to_string(),
        Some("Groceries Budget".to_string()),
        "1".to_string(),
        TS.to_string(),
    )
    .unwrap();

    let hits = st.search("grocer".to_string()).unwrap();
    assert_eq!(hits.len(), 1);
    assert_eq!(hits[0].snippet, "<b>Groceries</b> Budget");
}

#[test]
fn test_search_date_range() {
    let mut st = Store::new();
    st.create_card_at(
        "d-1".to_string(),
        "log-1".to_string(),
        Some("January".to_string()),
        "1".to_string(),
        "2024-01-15T00:00:00.000Z".to_string(),
    )
    .unwrap();
    st.create_card_at(
        "d-2".to_string(),
        "log-2".to_string(),
        Some("June".to_string()),
        "1".to_string(),
        "2024-06-15T00:00:00.000Z".to_string(),
    )
    .unwrap();

    let hits = st
        .search("after:2024-03-01 before:2024-12-31".to_string())
        .unwrap();
    assert_eq!(hits.len(), 1);
    assert_eq!(hits[0].card_id, "d-2");
    assert_eq!(hits[0].snippet, "June");

    // One bound alone scans nothing.
    let one = st.search("after:2024-03-01".to_string()).unwrap();
    assert_eq!(one.len(), 0);
}

#[test]
fn test_error_messages() {
    assert_eq!(
        AppError::CardNotFound("x-1".to_string()).message(),
        "Card not found: x-1"
    );
    assert_eq!(
        AppError::TodoNotFound("t-1".to_string()).message(),
        "Todo not found: t-1"
    );
    assert_eq!(
        AppError::InvalidAmount("wat".to_string()).message(),
        "Invalid amount: wat"
    );
    assert_eq!(
        AppError::Database("boom".to_string()).message(),
        "Database error: boom"
    );
    assert_eq!(
        AppError::Internal("bug".to_string()).message(),
        "Internal error: bug"
    );
}

#[test]
fn test_run_archive_reports_ok() {
    let mut st = Store::new();
    st.create_card_at(
        "ra-1".to_string(),
        "log-1".to_string(),
        Some("Old".to_string()),
        "1".to_string(),
        "2020-01-01T00:00:00.000Z".to_string(),
    )
    .unwrap();

    assert!(run_archive(&mut st).is_ok());
    assert_eq!(st.list_archived_cards().unwrap().len(), 1);
    assert!(run_archive(&mut st).is_ok());
    assert_eq!(st.list_archived_cards().unwrap().len(), 1);
}

#[test]
fn test_update_todo_not_found() {
    let mut st = Store::new();
    let r = st.update_todo(
        "ghost".to_string(),
        Some("New".to_string()),
        None,
        None,
        None,
        None,
    );
    assert!(matches!(r, Err(AppError::TodoNotFound(_))));
    let d = st.delete_todo("ghost".to_string());
    assert!(matches!(d, Err(AppError::TodoNotFound(_))));
}

#[test]
fn test_archive_missing_card_not_found() {
    let mut st = Store::new();
    let r = st.archive_card("ghost".to_string());
    assert!(matches!(r, Err(AppError::CardNotFound(_))));
    let u = st.unarchive_card("ghost".to_string());
    assert!(matches!(u, Err(AppError::CardNotFound(_))));
    let upd = st.update_card("ghost".to_string(), None, None);
    assert!(matches!(upd, Err(AppError::CardNotFound(_))));
}

#[test]
fn test_delete_missing_card_is_quiet() {
    let mut st = Store::new();
    let r = st.delete_card("ghost".to_string()).unwrap();
    assert!(r.ok);
}

#[test]
fn test_add_todo_scheduled_now() {
    let mut st = Store::new();
    let card = st
        .create_card(Some("Chores".to_string()), "0".to_string())
        .unwrap();

    let scheduled = st
        .add_todo(card.id.clone(), "Sweep".to_string(), None, true, None)
        .unwrap();
    assert!(scheduled.todo.scheduled_at.is_some());
    assert_eq!(
        scheduled.todo.scheduled_at.as_deref(),
        Some(scheduled.todo.created_at.as_str())
    );

    let unscheduled = st
        .add_todo(card.id.clone(), "Rest".to_string(), None, false, None)
        .unwrap();
    assert!(unscheduled.todo.scheduled_at.is_none());
}

#[test]
fn test_list_archived_newest_archival_first() {
    let mut st = Store::new();
    st.create_card_at(
        "la-1".to_string(),
        "log-1".to_string(),
        Some("First".to_string()),
        "1".to_string(),
        TS.to_string(),
    )
    .unwrap();
    st.create_card_at(
        "la-2".to_string(),
        "log-2".to_string(),
        Some("Second".to_string()),
        "1".to_string(),
        TS.to_string(),
    )
    .unwrap();
    st.archive_card_at(
        "la-1".to_string(),
        "log-3".to_string(),
        "2024-05-01T00:00:00.000Z".to_string(),
    )
    .unwrap();
    st.archive_card_at(
        "la-2".to_string(),
        "log-4".to_string(),
        "2024-04-01T00:00:00.000Z".to_string(),
    )
    .unwrap();

    let archived = st.list_archived_cards().unwrap();
    assert_eq!(archived.len(), 2);
    assert_eq!(archived[0].id, "la-1");
    assert_eq!(archived[1].id, "la-2");
}
