//! Tests for card archival logic.

use chrono::Duration;
use chrono::Utc;
use tin::store::Store;

const TS: &str = "2024-01-01T00:00:00.000Z";

#[test]
fn test_archive_card_sets_archived_flag() {
    let mut st = Store::new();
    st.create_card_at(
        "card-archive-1".to_string(),
        "log-1".to_string(),
        Some("Test".to_string()),
        "100".to_string(),
        TS.to_string(),
    )
    .unwrap();

    let now = Utc::now().format("%Y-%m-%dT%H:%M:%S%.3fZ").to_string();
    let card = st
        .archive_card_at("card-archive-1".to_string(), "log-2".to_string(), now)
        .unwrap();

    assert!(card.archived, "Card should be marked as archived");
    assert!(card.archived_at.is_some(), "archivedAt should be set");
}

#[test]
fn test_archived_cards_excluded_from_list() {
    let mut st = Store::new();
    st.create_card_at(
        "card-active".to_string(),
        "log-1".to_string(),
        Some("Active Card".to_string()),
        "100".to_string(),
        TS.to_string(),
    )
    .unwrap();
    st.create_card_at(
        "card-archived".to_string(),
        "log-2".to_string(),
        Some("Archived Card".to_string()),
        "100".to_string(),
        TS.to_string(),
    )
    .unwrap();
    st.archive_card_at(
        "card-archived".to_string(),
        "log-3".to_string(),
        TS.to_string(),
    )
    .unwrap();

    let active = st.list_cards().unwrap();
    assert_eq!(
        active.len(),
        1,
        "Only non-archived cards should be returned"
    );
}

#[test]
fn test_auto_archive_threshold_30_days() {
    let mut st = Store::new();

    let now = Utc::now();
    let old_date = (now - Duration::days(31))
        .format("%Y-%m-%dT%H:%M:%S%.3fZ")
        .to_string();
    let recent_date = (now - Duration::days(5))
        .format("%Y-%m-%dT%H:%M:%S%.3fZ")
        .to_string();
    let threshold = (now - Duration::days(30))
        .format("%Y-%m-%dT%H:%M:%S%.3fZ")
        .to_string();
    let now_str = now.format("%Y-%m-%dT%H:%M:%S%.3fZ").to_string();

    st.create_card_at(
        "card-old".to_string(),
        "log-1".to_string(),
        Some("Old Card".to_string()),
        "100".to_string(),
        old_date,
    )
    .unwrap();
    st.create_card_at(
        "card-recent".to_string(),
        "log-2".to_string(),
        Some("Recent Card".to_string()),
        "100".to_string(),
        recent_date,
    )
    .unwrap();

    let res = st.archive_old_cards_at(threshold, now_str).unwrap();
    assert_eq!(
        res.archived_count, 1,
        "Should find exactly 1 card older than 30 days"
    );
}
