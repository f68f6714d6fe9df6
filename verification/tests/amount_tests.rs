//! Tests for amount calculations and financial operations.

use tin::store::Store;

const TS: &str = "2024-01-01T00:00:00.000Z";

#[test]
fn test_atomic_deduction_on_todo_add() {
    let mut st = Store::new();
    st.create_card_at(
        "card-amount-1".to_string(),
        "log-1".to_string(),
        Some("Test".to_string()),
        "100".to_string(),
        TS.to_string(),
    )
    .unwrap();

    let res = st
        .add_todo_at(
            "card-amount-1".to_string(),
            "todo-amount-1".to_string(),
            "log-2".to_string(),
            "Test todo".to_string(),
            Some("25.50".to_string()),
            None,
            TS.to_string(),
        )
        .unwrap();

    assert_eq!(
        res.updated_card.amount, "74.500000",
        "Amount should be 74.50 after deduction"
    );
}

#[test]
fn test_negative_balance_allowed() {
    let mut st = Store::new();
    st.create_card_at(
        "card-amount-2".to_string(),
        "log-1".to_string(),
        Some("Test".to_string()),
        "50".to_string(),
        TS.to_string(),
    )
    .unwrap();

    let res = st
        .add_todo_at(
            "card-amount-2".to_string(),
            "todo-amount-2".to_string(),
            "log-2".to_string(),
            "Big spend".to_string(),
            Some("100.0".to_string()),
            None,
            TS.to_string(),
        )
        .unwrap();

    assert_eq!(
        res.updated_card.amount, "-50.000000",
        "Negative balance should be allowed"
    );
}

#[test]
fn test_precision_maintained_for_decimals() {
    let mut st = Store::new();
    st.create_card_at(
        "card-amount-3".to_string(),
        "log-1".to_string(),
        Some("Precision Test".to_string()),
        "123.456789".to_string(),
        TS.to_string(),
    )
    .unwrap();

    let card = st.get_card("card-amount-3".to_string()).unwrap();
    assert_eq!(
        card.amount, "123.456789",
        "Decimal precision should be maintained"
    );
}
