//! Order book engine: fees, matching budgets, order shapes and book state.

pub mod fees;
pub mod reject_reason;
pub mod text;
pub mod clock;
pub mod order_state;
pub mod matching;
pub mod types;
pub mod error;
pub mod order;
pub mod level;
pub mod stp;
pub mod walk;
pub mod book;
pub mod analytics;
pub mod mass_cancel;
pub mod operations;
pub mod cache;
pub mod metrics;
pub mod iterators;
pub mod book_change_event;
pub mod publishing;
pub mod statistics;
pub mod laws;
pub mod priority_laws;
