//! A minimal commitment-based value ledger.
//!
//! Users hold immutable notes, each an (asset type, amount) pair. A note is
//! referred to only through its commitment, a fixed-width identifier derived
//! from its content. A transaction consumes one note, identified by its
//! commitment, and delivers a destination note to a recipient; the validator
//! applies it atomically to the ledger, conserving the total amount of every
//! asset and refusing to consume the same commitment twice.

pub mod laws;
pub mod ledger;
pub mod note;
pub mod transaction;
pub mod user;
