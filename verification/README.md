# orderbook_rs

A limit order book with price-time priority matching, written in Verus and
proved against its contracts.

## Layout

- `src/` is the verified library.
  - `orderbook/book.rs` holds the book, its mathematical view (`BookView`:
    both sides as sequences of levels in price priority) and the
    operations that change it: admission (`add_order`), matching
    (`match_order_inner`), modification (`update_order`) and cancellation.
    Each states exactly what the book becomes and what is returned, what
    the kill switch refuses, and what an installed order-state tracker
    records.
  - `orderbook/walk.rs` and `orderbook/level.rs` model one matching pass over
    the opposite side, level by level and order by order, including iceberg
    and reserve replenishment and self-trade prevention (`stp.rs`).
  - `orderbook/laws.rs`, and the `law_` proof functions beside the code they
    speak of, state what holds across operations: quantity conservation,
    price priority, post-only and immediate orders, fill-or-kill, and what a
    cancel does.
  - `orderbook/analytics.rs`, `statistics.rs`, `iterators.rs` and
    `mass_cancel.rs` read or clear the book; `fees.rs`, `order_state.rs`,
    `reject_reason.rs` and `publishing.rs` hold the fee arithmetic, the order
    lifecycle, reject codes and the batching/retry rules of the publishers.
  - `fix/` converts FIX fields into book values and runs NewOrderSingle,
    cancel and cancel/replace messages against a book.
- `app/` is the unverified runtime around it: serde forms of the library's
  values, the FIX wire codec, NATS publishers, multi-book managers, buffer
  pools and the floating-point analytics.
- `tests/` runs the library on concrete values.
