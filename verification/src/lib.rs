//! Verified core of a personalized bulk e-mail sender: duration strings,
//! recipients and their templates, the blacklist, and the decisions of a
//! mailing run (throttling, retries with back-off, and the tally).
use vstd::prelude::*;

pub mod config;
pub mod job;
pub mod mailer;
pub mod recipient;
pub mod summary;
pub mod text;

verus! {
}
