//! A local credential vault: named secrets, encrypted under one symmetric
//! key, kept in a table of records and released on demand.
//!
//! The crate holds the rules of the vault: which names are acceptable, how a
//! record is rendered to a label and found again from it, how records are
//! searched, ordered and deleted, and when a secret may be sealed or opened.

pub mod choice;
pub mod cipher;
pub mod error;
pub mod label;
pub mod message;
pub mod order;
pub mod paths;
pub mod record;
pub mod store;
pub mod text;
pub mod vault;
