//! Reconciles tabular action records against a remote ticketing service and
//! prepares the missing ones for submission through an authenticated API.
//!
//! The verified core covers the token lifecycle decisions, the
//! existing-identifier reconciliation, the tolerant normalization of
//! delimited-text and spreadsheet rows into one canonical record, the JSON
//! wire shape of a submission, and the per-record skip-or-submit sweep.
//! Network calls, files and clocks live outside; every decision about their
//! results stands here.

pub mod auth;
pub mod datetime;
pub mod delimited;
pub mod idset;
pub mod normalize;
pub mod process;
pub mod reconcile;
pub mod record;
pub mod strings;
pub mod submit;
pub mod textparse;
pub mod wire;

pub use record::{ActionId, ActionObject};
pub use strings::format_number;
