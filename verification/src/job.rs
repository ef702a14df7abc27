//! The job: what to send, to whom, and with which attachments.
use vstd::prelude::*;

verus! {

/// A mailing job as its JSON file describes it.
pub struct JobConfig {
    pub subject: String,
    pub recipient_list: String,
    pub body_html: String,
    pub body_txt: String,
    pub personalize: bool,
    pub attachments: Vec<String>,
    pub blacklist: Option<String>,
}

} // verus!
