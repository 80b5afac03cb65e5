//! Core of a shared-expense tracking service in which access is granted
//! through bearer tokens scoped to one group rather than user accounts.
//!
//! The crate covers the three parts worth verifying:
//! - the capability model: five independent permissions with legacy-safe
//!   defaulting, attenuation (`cap_by`) and merging (`union_with`);
//! - the token codec: a compact signed claims blob carrying the group id,
//!   an expiry and an optional capability set;
//! - the ledger engine: the pure computation turning a group's transaction
//!   history into each member's net balance.

pub mod api;
pub mod auth;
pub mod b64;
pub mod caps;
pub mod claims;
pub mod codec_laws;
pub mod hexid;
pub mod ledger;
pub mod ledger_laws;
pub mod parse;
pub mod token;

pub use caps::Permissions;
