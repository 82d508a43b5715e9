//! An authorization-gated registry of named repositories, each holding a
//! bounded collection of named issues with a status string.
//!
//! The registry itself is the verified core: an explicit state value whose
//! mutation protocol (initialize once, add/remove/clear under admin
//! authorization, capacity and uniqueness enforcement) is stated in contracts
//! and proved. Host concerns — persistent storage, credential verification,
//! transport — live outside this crate and hand it plain values.
//!
//! The collection is one insertion-ordered sequence of repositories, each
//! with its insertion-ordered issues; names are unique at both levels, so
//! the sequence subsumes both membership and issue tracking. Removal keeps
//! the relative order of the survivors (shift, not swap), so a listing
//! always reports insertion order.

pub mod config;
pub mod error;
pub mod laws;
pub mod lemmas;
pub mod model;
pub mod oracle;

pub use crate::config::ConfigData;
pub use crate::error::Error;
pub use crate::oracle::GithubOracleContract;
pub use crate::oracle::Issue;
pub use crate::oracle::Repo;
