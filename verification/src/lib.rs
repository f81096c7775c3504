//! A naming registry: second-level names, each with one owning identity, a
//! table of delegates approved to take a name over, and a ledger of
//! registration quota per identity and quota type.

pub mod actor;
pub mod common;
pub mod errors;
pub mod identity;
pub mod name_table;
pub mod naming;
pub mod state;
pub mod text;
pub mod user;
pub mod user_quota_store;
