//! The autofill decoration automatically fills gaps that appear in the log.
//!
//! When a node has a gap in its (local copy of the) log, it must close that gap
//! before it can apply later rounds' entries to its state. There are two
//! reasons why a node may observe gaps in its log.
//!
//!  - A commit message may not have been received due to a temporary networking
//!    issue.
//!  - Multiple appends were running concurrently and one for an earlier round
//!    fails or is abandoned while a later one goes through.
//!
//! Independent of the cause, the solution is to try to fill the gaps, which is
//! what this decoration does. Gaps are filled by appends of
//! [`Importance::MaintainLeadership`][node::Importance::MaintainLeadership], which
//! do not contend with other nodes that may be in the process of proposing some
//! other entry for the same round.

pub mod appends;
pub mod autofill;
pub mod builder;
pub mod config;
pub mod laws;
pub mod model;
pub mod node;
pub mod queue;
pub mod run;
pub mod time;
pub mod wake;

pub use autofill::Autofill;
pub use builder::AutofillBuilderExt;
pub use config::{Config, StaticConfig};
