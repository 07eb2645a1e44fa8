//! Stable, unguessable tokens for an ordered set of configuration entries,
//! reconciled across reloads, and the lookup table built from them.

pub mod config;
pub mod ledger;
pub mod slot;
pub mod state;
pub mod token;
pub mod watch;
