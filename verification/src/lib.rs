//! An in-memory account ledger with batched transfer confirmation.
//!
//! The ledger keeps a set of named balances, validates and queues transfer
//! intents, and confirms queued intents in batches: each confirmation drains
//! the pending queue, applies every balance delta in arrival order, and
//! appends an immutable, timestamped record of the batch to the history.

pub mod clock;
pub mod intent;
pub mod laws;
pub mod ledger;
pub mod store;
