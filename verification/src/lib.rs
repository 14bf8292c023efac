//! A personal time-tracking ledger: work sessions are recorded against ticket
//! identifiers, reviewed by a human, and synchronized one at a time to an
//! external issue tracker.

pub mod clock;
pub mod codec;
pub mod commit;
pub mod errors;
pub mod ids;
pub mod jira;
pub mod ledger;
pub mod model;
pub mod sync;
pub mod text;
pub mod timespan;
pub mod timestamp;
