//! The store's error taxonomy.

use vstd::prelude::*;

verus! {

/// Why an operation failed: an underlying store fault, a missing row, a
/// malformed amount, or a broken internal expectation.
#[derive(Debug)]
pub enum AppError {
    Database(String),
    CardNotFound(String),
    TodoNotFound(String),
    InvalidAmount(String),
    Internal(String),
}

impl AppError {
    /// The classification line shown to callers.
    pub open spec fn message_view(&self) -> Seq<char> {
        match self {
            AppError::Database(m) => "Database error: "@ + m@,
            AppError::CardNotFound(m) => "Card not found: "@ + m@,
            AppError::TodoNotFound(m) => "Todo not found: "@ + m@,
            AppError::InvalidAmount(m) => "Invalid amount: "@ + m@,
            AppError::Internal(m) => "Internal error: "@ + m@,
        }
    }

    /// Renders the classification line.
    pub fn message(&self) -> (r: String)
        ensures
            r@ == self.message_view(),
    {
        match self {
            AppError::Database(m) => {
                let mut s = String::from_str("Database error: ");
                s.append(m.as_str());
                s
            },
            AppError::CardNotFound(m) => {
                let mut s = String::from_str("Card not found: ");
                s.append(m.as_str());
                s
            },
            AppError::TodoNotFound(m) => {
                let mut s = String::from_str("Todo not found: ");
                s.append(m.as_str());
                s
            },
            AppError::InvalidAmount(m) => {
                let mut s = String::from_str("Invalid amount: ");
                s.append(m.as_str());
                s
            },
            AppError::Internal(m) => {
                let mut s = String::from_str("Internal error: ");
                s.append(m.as_str());
                s
            },
        }
    }
}

} // verus!
