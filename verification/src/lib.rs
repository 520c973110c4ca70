//! A versioned full-text index over recorded edit sessions.
//!
//! The library replays the edit operations of a session, derives what each
//! edit changed, builds the documents to index, keeps the ledger of indexed
//! sessions and turns search requests and engine replies into results.

pub mod decimal;
pub mod deltas;
pub mod diff;
pub mod indexer;
pub mod laws;
pub mod ledger;
pub mod replay;
pub mod schema;
pub mod search;
pub mod storage;
pub mod text;
