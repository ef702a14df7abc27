//! The decisions of a mailing run: what each message says, when to pause,
//! which failures are retried and how long to wait, and the tally of results.
//! The run itself (reading files, talking to the SMTP server, sleeping) drives
//! these functions from outside.
use vstd::prelude::*;
use vstd::arithmetic::power2::{lemma_pow2_unfold, pow2};

use crate::job::JobConfig;
use crate::recipient::{personalize, personalized, Recipient};
use crate::text::{chars_of, contains_chars, contains_seq, lowercase, occurs_at, str_to_lowercase};

verus! {

// ---------------------------------------------------------------------------
// Message contents.
// ---------------------------------------------------------------------------

/// The subject and the two bodies of one message.
pub struct MessageTexts {
    pub subject: String,
    pub html: String,
    pub text: String,
}

/// The subject, HTML body and text body of the message to `r`: personalized
/// with the recipient's columns when the job asks for it, as given otherwise.
pub fn message_texts(job: &JobConfig, r: &Recipient, body_html: &str, body_txt: &str) -> (m:
    MessageTexts)
    ensures
        job.personalize ==> m.html@ == personalized(body_html@, r@.fields),
        job.personalize ==> m.text@ == personalized(body_txt@, r@.fields),
        job.personalize ==> m.subject@ == personalized(job.subject@, r@.fields),
        !job.personalize ==> m.html@ == body_html@,
        !job.personalize ==> m.text@ == body_txt@,
        !job.personalize ==> m.subject@ == job.subject@,
{
    let html = if job.personalize {
        personalize(body_html, r)
    } else {
        String::from_str(body_html)
    };
    let text = if job.personalize {
        personalize(body_txt, r)
    } else {
        String::from_str(body_txt)
    };
    let subject = if job.personalize {
        personalize(job.subject.as_str(), r)
    } else {
        job.subject.clone()
    };
    MessageTexts { subject, html, text }
}

/// The first media type that `mime_guess` associates with the extension of a path.
pub uninterp spec fn guessed_mime(path: Seq<char>) -> Option<Seq<char>>;

/// Calls `mime_guess::from_path(path).first()`, the first media type that the
/// crate's table lists for the path's extension (taken as std's
/// `Path::extension` takes it on the platform the library is built for), and
/// renders it as text; the result is named `guessed_mime`.
#[verifier::external_body]
fn mime_guess_first(path: &str) -> (r: Option<String>)
    ensures
        match r {
            Some(m) => guessed_mime(path@) == Some(m@),
            None => guessed_mime(path@) is None,
        },
{
    mime_guess::from_path(path).first().map(|m| m.to_string())
}

/// The media type of an attachment: the guess from its extension, or
/// `application/octet-stream` where there is none.
pub open spec fn attachment_mime_spec(path: Seq<char>) -> Seq<char> {
    match guessed_mime(path) {
        Some(m) => m,
        None => "application/octet-stream"@,
    }
}

/// The media type of an attachment: the guess from its extension, or
/// `application/octet-stream` where there is none.
pub fn attachment_mime(path: &str) -> (r: String)
    ensures
        r@ == attachment_mime_spec(path@),
{
    match mime_guess_first(path) {
        Some(m) => m,
        None => String::from_str("application/octet-stream"),
    }
}

#[verifier::external_type_specification]
#[verifier::external_body]
pub struct ExContentType(lettre::message::header::ContentType);

#[verifier::external_type_specification]
#[verifier::external_body]
pub struct ExContentTypeErr(lettre::message::header::ContentTypeErr);

/// The text is a media type that `lettre` accepts as a `Content-Type`.
pub uninterp spec fn is_media_type(s: Seq<char>) -> bool;

/// A content type together with the text it was parsed from.
pub struct ParsedContentType {
    pub content_type: lettre::message::header::ContentType,
    /// The text that `lettre` parsed into `content_type`.
    pub text: Ghost<Seq<char>>,
}

/// Calls `lettre`'s `ContentType::parse`; whether it succeeds is named
/// `is_media_type`. The content type it gives is opaque here and is carried
/// with the text it was parsed from.
#[verifier::external_body]
fn parse_content_type(s: &str) -> (r: Result<ParsedContentType, lettre::message::header::ContentTypeErr>)
    ensures
        r is Ok <==> is_media_type(s@),
        r matches Ok(t) ==> t.text@ == s@,
{
    lettre::message::header::ContentType::parse(s).map(
        |t| ParsedContentType { content_type: t, text: Ghost(s@) },
    )
}

/// The media type that an attachment is sent with: its guessed media type
/// where `lettre` accepts it, `application/octet-stream` otherwise.
pub open spec fn attachment_content_type_text(path: Seq<char>) -> Seq<char> {
    if is_media_type(attachment_mime_spec(path)) {
        attachment_mime_spec(path)
    } else {
        "application/octet-stream"@
    }
}

/// The `Content-Type` of an attachment: its media type when `lettre` accepts
/// it, `application/octet-stream` otherwise; `None` only where `lettre`
/// accepts neither.
pub fn attachment_content_type(path: &str) -> (r: Option<ParsedContentType>)
    ensures
        r is Some <==> is_media_type(attachment_content_type_text(path@)),
        r matches Some(t) ==> t.text@ == attachment_content_type_text(path@),
{
    let mime = attachment_mime(path);
    match parse_content_type(mime.as_str()) {
        Ok(t) => Some(t),
        Err(_) => match parse_content_type("application/octet-stream") {
            Ok(t) => Some(t),
            Err(_) => None,
        },
    }
}

/// The final component of a path, as `std::path::Path::file_name` gives it,
/// for paths in the syntax of the platform the library is built for.
pub uninterp spec fn final_component(path: Seq<char>) -> Option<Seq<char>>;

/// Calls std's `Path::file_name` on the path and renders the component as
/// text; the result is named `final_component`.
#[verifier::external_body]
fn path_file_name(path: &str) -> (r: Option<String>)
    ensures
        match r {
            Some(n) => final_component(path@) == Some(n@),
            None => final_component(path@) is None,
        },
{
    std::path::Path::new(path).file_name().and_then(|n| n.to_str()).map(|n| n.to_string())
}

/// The file name under which an attachment is sent: the last component of its
/// path, or `attachment` where the path has none.
pub open spec fn attachment_file_name_spec(path: Seq<char>) -> Seq<char> {
    match final_component(path) {
        Some(n) => n,
        None => "attachment"@,
    }
}

/// The file name under which an attachment is sent: the last component of its
/// path, or `attachment` where the path has none.
pub fn attachment_file_name(path: &str) -> (r: String)
    ensures
        r@ == attachment_file_name_spec(path@),
{
    match path_file_name(path) {
        Some(n) => n,
        None => String::from_str("attachment"),
    }
}

/// One attachment as it is sent: its file name, content type and bytes.
pub struct AttachmentPart {
    pub file_name: String,
    pub content_type: ParsedContentType,
    pub data: Vec<u8>,
}

/// The part that sends the file at `path`, holding `data`, its bytes; `None`
/// only where `lettre` accepts neither the guessed media type nor
/// `application/octet-stream`.
pub fn attachment_part(path: &str, data: Vec<u8>) -> (r: Option<AttachmentPart>)
    ensures
        r is Some <==> is_media_type(attachment_content_type_text(path@)),
        r matches Some(a) ==> a.file_name@ == attachment_file_name_spec(path@)
            && a.content_type.text@ == attachment_content_type_text(path@) && a.data@ == data@,
{
    let file_name = attachment_file_name(path);
    match attachment_content_type(path) {
        Some(content_type) => Some(AttachmentPart { file_name, content_type, data }),
        None => None,
    }
}

/// The layout of a message body.
pub enum MessageBody {
    /// A plain-text part and an HTML part, as alternatives, in that order.
    Alternative { text: String, html: String },
    /// That alternative, followed by the attachments, in order.
    Mixed { text: String, html: String, attachments: Vec<AttachmentPart> },
}

/// The body of a message: the text and HTML alternatives, wrapped together
/// with the attachments only when there are attachments.
pub fn message_body(text: String, html: String, attachments: Vec<AttachmentPart>) -> (b:
    MessageBody)
    ensures
        attachments@.len() == 0 ==> (b matches MessageBody::Alternative { text: t, html: h } && t@
            == text@ && h@ == html@),
        attachments@.len() > 0 ==> (b matches MessageBody::Mixed { text: t, html: h, attachments: a }
            && t@ == text@ && h@ == html@ && a@ == attachments@),
{
    if attachments.len() == 0 {
        MessageBody::Alternative { text, html }
    } else {
        MessageBody::Mixed { text, html, attachments }
    }
}

// ---------------------------------------------------------------------------
// Addresses.
// ---------------------------------------------------------------------------

#[verifier::external_type_specification]
#[verifier::external_body]
pub struct ExMailbox(lettre::message::Mailbox);

#[verifier::external_type_specification]
#[verifier::external_body]
pub struct ExAddressError(lettre::address::AddressError);

/// The text is a mailbox that `lettre` accepts, such as `user@example.com` or
/// `Name <user@example.com>`.
pub uninterp spec fn is_mailbox(s: Seq<char>) -> bool;

/// A mailbox together with the text it was parsed from.
pub struct ParsedMailbox {
    pub mailbox: lettre::message::Mailbox,
    /// The text that `lettre` parsed into `mailbox`.
    pub text: Ghost<Seq<char>>,
}

/// Calls `lettre`'s `<Mailbox as FromStr>::from_str`; whether it succeeds is
/// named `is_mailbox`. The mailbox it gives is opaque here and is carried with
/// the text it was parsed from.
#[verifier::external_body]
fn parse_mailbox(s: &str) -> (r: Result<ParsedMailbox, lettre::address::AddressError>)
    ensures
        r is Ok <==> is_mailbox(s@),
        r matches Ok(m) ==> m.text@ == s@,
{
    s.parse::<lettre::message::Mailbox>().map(|m| ParsedMailbox { mailbox: m, text: Ghost(s@) })
}

/// Sender and recipient of one message.
pub struct Addresses {
    pub from: ParsedMailbox,
    pub to: ParsedMailbox,
}

/// An address of a message is not a valid mailbox.
#[derive(Debug)]
pub enum AddressFault {
    /// The account that sends is not a valid mailbox.
    InvalidSender,
    /// The recipient's address is not a valid mailbox.
    InvalidRecipient(String),
}

impl AddressFault {
    /// The text of the error.
    pub open spec fn message_spec(self) -> Seq<char> {
        match self {
            AddressFault::InvalidSender => "Invalid sender address"@,
            AddressFault::InvalidRecipient(e) => "Invalid recipient address: "@ + e@,
        }
    }

    /// The text of the error, e.g. `Invalid recipient address: bob`.
    pub fn message(&self) -> (m: String)
        ensures
            m@ == self.message_spec(),
    {
        match self {
            AddressFault::InvalidSender => String::from_str("Invalid sender address"),
            AddressFault::InvalidRecipient(e) => {
                let mut m = String::from_str("Invalid recipient address: ");
                m.append(e.as_str());
                m
            },
        }
    }
}

/// The sender's and the recipient's mailboxes; the sender is checked first.
pub fn message_addresses(account: &str, email: &str) -> (r: Result<Addresses, AddressFault>)
    ensures
        r is Ok <==> is_mailbox(account@) && is_mailbox(email@),
        r matches Err(AddressFault::InvalidSender) <==> !is_mailbox(account@),
        r matches Err(AddressFault::InvalidRecipient(e)) ==> is_mailbox(account@) && !is_mailbox(
            email@,
        ) && e@ == email@,
        r matches Ok(a) ==> a.from.text@ == account@ && a.to.text@ == email@,
{
    let from = match parse_mailbox(account) {
        Ok(m) => m,
        Err(_) => {
            return Err(AddressFault::InvalidSender);
        },
    };
    let to = match parse_mailbox(email) {
        Ok(m) => m,
        Err(_) => {
            return Err(AddressFault::InvalidRecipient(String::from_str(email)));
        },
    };
    Ok(Addresses { from, to })
}

// ---------------------------------------------------------------------------
// Throttling.
// ---------------------------------------------------------------------------

/// The pause, in seconds, to take before the message with index `idx`: after
/// every `count` messages, when both a count and a duration are configured.
pub open spec fn pause_spec(idx: nat, count: Option<u64>, secs: Option<u64>) -> Option<u64> {
    match (count, secs) {
        (Some(n), Some(d)) => if idx > 0 && idx % (n as nat) == 0 {
            Some(d)
        } else {
            None
        },
        _ => None,
    }
}

/// The pause, in seconds, to take before sending message number `idx`
/// (counted from 0), if any.
pub fn pause_before(idx: u64, timeout_count: Option<u64>, timeout_secs: Option<u64>) -> (r:
    Option<u64>)
    requires
        !(timeout_count == Some(0u64) && timeout_secs is Some && idx > 0),
    ensures
        r == pause_spec(idx as nat, timeout_count, timeout_secs),
{
    match (timeout_count, timeout_secs) {
        (Some(n), Some(d)) => {
            if idx > 0 && idx % n == 0 {
                Some(d)
            } else {
                None
            }
        },
        _ => None,
    }
}

/// A run pauses only when both a batch size and a pause are configured, and
/// then before every message whose index is a positive multiple of the batch
/// size; every pause lasts exactly the configured number of seconds, however
/// many batches went before.
pub proof fn law_pauses_last_the_configured_duration(
    idx: nat,
    count: Option<u64>,
    secs: Option<u64>,
)
    requires
        count == Some(0u64) ==> idx == 0,
    ensures
        count is None || secs is None || idx == 0 ==> pause_spec(idx, count, secs) is None,
        count matches Some(n) ==> (secs matches Some(d) ==> (idx > 0 ==> (pause_spec(idx, count, secs)
            == if idx % (n as nat) == 0 {
            Some(d)
        } else {
            None
        }))),
        pause_spec(idx, count, secs) matches Some(p) ==> secs == Some(p),
{
}

// ---------------------------------------------------------------------------
// Failures and retries.
// ---------------------------------------------------------------------------

/// The lowercased error text names a passing condition: a connection problem,
/// a timeout, a temporary refusal or one of the SMTP codes 421, 450, 451, 452.
pub open spec fn has_retryable_marker(m: Seq<char>) -> bool {
    ||| contains_seq(m, "connection"@)
    ||| contains_seq(m, "timeout"@)
    ||| contains_seq(m, "temporarily"@)
    ||| contains_seq(m, "try again"@)
    ||| contains_seq(m, "421"@)
    ||| contains_seq(m, "450"@)
    ||| contains_seq(m, "451"@)
    ||| contains_seq(m, "452"@)
}

/// An error is worth another attempt exactly when its lowercased text holds
/// one of the words `connection`, `timeout`, `temporarily`, `try again` or one
/// of the codes `421`, `450`, `451`, `452`; no other text makes it so.
pub proof fn law_retryable_exactly_on_markers(msg: Seq<char>)
    ensures
        retryable_spec(msg) <==> exists|i: int|
            #![trigger occurs_at(lowercase(msg), "connection"@, i)]
            #![trigger occurs_at(lowercase(msg), "timeout"@, i)]
            #![trigger occurs_at(lowercase(msg), "temporarily"@, i)]
            #![trigger occurs_at(lowercase(msg), "try again"@, i)]
            #![trigger occurs_at(lowercase(msg), "421"@, i)]
            #![trigger occurs_at(lowercase(msg), "450"@, i)]
            #![trigger occurs_at(lowercase(msg), "451"@, i)]
            #![trigger occurs_at(lowercase(msg), "452"@, i)]
            occurs_at(lowercase(msg), "connection"@, i)
                || occurs_at(lowercase(msg), "timeout"@, i)
                || occurs_at(lowercase(msg), "temporarily"@, i)
                || occurs_at(lowercase(msg), "try again"@, i)
                || occurs_at(lowercase(msg), "421"@, i)
                || occurs_at(lowercase(msg), "450"@, i)
                || occurs_at(lowercase(msg), "451"@, i)
                || occurs_at(lowercase(msg), "452"@, i),
{
}

/// A failure with this error text is worth another attempt.
pub open spec fn retryable_spec(msg: Seq<char>) -> bool {
    has_retryable_marker(lowercase(msg))
}

/// Whether an already lowercased error text names a passing condition.
pub fn retryable_marker(lower: &str) -> (r: bool)
    ensures
        r == has_retryable_marker(lower@),
{
    let m = chars_of(lower);
    contains_chars(&m, &chars_of("connection")) || contains_chars(&m, &chars_of("timeout"))
        || contains_chars(&m, &chars_of("temporarily")) || contains_chars(
        &m,
        &chars_of("try again"),
    ) || contains_chars(&m, &chars_of("421")) || contains_chars(&m, &chars_of("450"))
        || contains_chars(&m, &chars_of("451")) || contains_chars(&m, &chars_of("452"))
}

/// Heuristic: treat connection-level and temporary server errors as retryable.
/// The error text is compared in lowercase.
pub fn is_retryable(msg: &str) -> (r: bool)
    ensures
        r == retryable_spec(msg@),
{
    let lower = str_to_lowercase(msg);
    retryable_marker(lower.as_str())
}

/// How many times a failed message is tried again at most.
pub const MAX_ATTEMPTS: u32 = 6;

/// The wait before the first retry, in seconds.
pub const INITIAL_WAIT_SECS: u64 = 10;

/// The longest wait between two attempts, in seconds.
pub const MAX_WAIT_SECS: u64 = 600;

/// The wait before retry number `attempt`: it starts at ten seconds and
/// doubles after each retry, up to ten minutes.
pub open spec fn backoff(attempt: nat) -> nat
    decreases attempt,
{
    if attempt <= 1 {
        INITIAL_WAIT_SECS as nat
    } else {
        let w = 2 * backoff((attempt - 1) as nat);
        if w > MAX_WAIT_SECS {
            MAX_WAIT_SECS as nat
        } else {
            w
        }
    }
}

/// The wait before retry number `attempt` (from 1) is `min(10 * 2^(attempt-1), 600)`
/// seconds, so it never exceeds ten minutes.
pub proof fn law_backoff_closed_form(attempt: nat)
    requires
        attempt >= 1,
    ensures
        backoff(attempt) == if 10 * pow2((attempt - 1) as nat) <= 600 {
            10 * pow2((attempt - 1) as nat)
        } else {
            600
        },
        backoff(attempt) <= MAX_WAIT_SECS,
    decreases attempt,
{
    if attempt > 1 {
        law_backoff_closed_form((attempt - 1) as nat);
        lemma_pow2_unfold((attempt - 1) as nat);
    } else {
        assert(pow2(0) == 1) by {
            vstd::arithmetic::power2::lemma2_to64();
        }
    }
}

/// The waits between attempts never shrink.
pub proof fn law_backoff_monotone(a: nat, b: nat)
    requires
        1 <= a <= b,
    ensures
        backoff(a) <= backoff(b),
    decreases b - a,
{
    if a < b {
        law_backoff_monotone(a, (b - 1) as nat);
        law_backoff_closed_form((b - 1) as nat);
    }
}

/// What came of one attempt to send a message.
pub enum SendOutcome {
    /// The message went out.
    Sent,
    /// Sending failed with this error text.
    Failed(String),
}

impl SendOutcome {
    /// The attempt failed with an error worth another attempt.
    pub open spec fn retryable(self) -> bool {
        self matches SendOutcome::Failed(m) && retryable_spec(m@)
    }
}

/// A pending retry: its number (from 1) and the seconds to wait before it.
pub struct Retry {
    attempt: u32,
    wait_secs: u64,
}

impl Retry {
    /// The number of this retry, counted from 1.
    pub closed spec fn attempt_no(self) -> nat {
        self.attempt as nat
    }

    /// The seconds to wait before this retry.
    pub closed spec fn wait(self) -> nat {
        self.wait_secs as nat
    }

    #[verifier::type_invariant]
    closed spec fn well_formed(self) -> bool {
        &&& 1 <= self.attempt <= MAX_ATTEMPTS
        &&& self.wait_secs as nat == backoff(self.attempt as nat)
    }

    /// The number of this retry, counted from 1; at most `MAX_ATTEMPTS`.
    pub fn attempt(&self) -> (r: u32)
        ensures
            r as nat == self.attempt_no(),
            1 <= r <= MAX_ATTEMPTS,
    {
        proof {
            use_type_invariant(self);
        }
        self.attempt
    }

    /// The seconds to wait before this retry; they follow `backoff`.
    pub fn wait_secs(&self) -> (r: u64)
        ensures
            r as nat == self.wait(),
            r as nat == backoff(self.attempt_no()),
            r <= MAX_WAIT_SECS,
    {
        proof {
            use_type_invariant(self);
            law_backoff_closed_form(self.attempt as nat);
        }
        self.wait_secs
    }
}

/// What to do after an attempt.
pub enum Next {
    /// Wait, then try again.
    Retry(Retry),
    /// The message went out.
    Delivered,
    /// The message is given up.
    GaveUp,
}

/// What to do after the first attempt at a message: a retryable failure leads
/// to the first retry after ten seconds, any other failure gives up.
pub fn after_send(outcome: &SendOutcome) -> (n: Next)
    ensures
        *outcome is Sent ==> n is Delivered,
        outcome.retryable() ==> (n matches Next::Retry(r) && r.attempt_no() == 1 && r.wait()
            == INITIAL_WAIT_SECS),
        (*outcome is Failed && !outcome.retryable()) ==> n is GaveUp,
{
    match outcome {
        SendOutcome::Sent => Next::Delivered,
        SendOutcome::Failed(msg) => {
            if is_retryable(msg.as_str()) {
                Next::Retry(Retry { attempt: 1, wait_secs: INITIAL_WAIT_SECS })
            } else {
                Next::GaveUp
            }
        },
    }
}

impl Retry {
    /// What to do after this retry: a retryable failure leads to the next
    /// retry with the doubled (capped) wait, unless this was the last one.
    pub fn after_retry(&self, outcome: &SendOutcome) -> (n: Next)
        ensures
            *outcome is Sent ==> n is Delivered,
            (*outcome is Failed && !outcome.retryable()) ==> n is GaveUp,
            (outcome.retryable() && self.attempt_no() == MAX_ATTEMPTS) ==> n is GaveUp,
            (outcome.retryable() && self.attempt_no() < MAX_ATTEMPTS) ==> (n matches Next::Retry(r)
                && r.attempt_no() == self.attempt_no() + 1 && r.wait() == backoff(
                r.attempt_no(),
            )),
    {
        proof {
            use_type_invariant(self);
            law_backoff_closed_form(self.attempt as nat);
        }
        match outcome {
            SendOutcome::Sent => Next::Delivered,
            SendOutcome::Failed(msg) => {
                if !is_retryable(msg.as_str()) {
                    Next::GaveUp
                } else if self.attempt >= MAX_ATTEMPTS {
                    Next::GaveUp
                } else {
                    let doubled = self.wait_secs * 2;
                    let wait = if doubled > MAX_WAIT_SECS {
                        MAX_WAIT_SECS
                    } else {
                        doubled
                    };
                    Next::Retry(Retry { attempt: self.attempt + 1, wait_secs: wait })
                }
            },
        }
    }
}

// ---------------------------------------------------------------------------
// The tally.
// ---------------------------------------------------------------------------

/// How many messages went out and how many were given up.
pub struct SendStats {
    pub sent: u64,
    pub failed: u64,
}

impl SendStats {
    /// No message sent, none failed.
    pub fn new() -> (s: SendStats)
        ensures
            s.sent == 0,
            s.failed == 0,
    {
        SendStats { sent: 0, failed: 0 }
    }

    /// Counts one message: as sent when it was delivered, as failed otherwise.
    pub fn record(&mut self, delivered: bool)
        requires
            delivered ==> old(self).sent < u64::MAX,
            !delivered ==> old(self).failed < u64::MAX,
        ensures
            delivered ==> final(self).sent == old(self).sent + 1 && final(self).failed == old(
                self,
            ).failed,
            !delivered ==> final(self).failed == old(self).failed + 1 && final(self).sent == old(
                self,
            ).sent,
            final(self).sent + final(self).failed == old(self).sent + old(self).failed + 1,
    {
        if delivered {
            self.sent = self.sent + 1;
        } else {
            self.failed = self.failed + 1;
        }
    }
}

/// The progress of a mailing run over its recipients: how many have been
/// handled, and the tally of those. Every recipient handled is counted once,
/// as sent or as failed.
pub struct RunProgress {
    stats: SendStats,
    index: u64,
}

impl RunProgress {
    /// Every recipient handled so far is counted once.
    #[verifier::type_invariant]
    spec fn counted_once(self) -> bool {
        self.stats.sent + self.stats.failed == self.index
    }

    /// The number of recipients handled so far.
    pub closed spec fn handled(self) -> nat {
        self.index as nat
    }

    /// The number of messages sent so far.
    pub closed spec fn sent_count(self) -> nat {
        self.stats.sent as nat
    }

    /// The number of messages given up so far.
    pub closed spec fn failed_count(self) -> nat {
        self.stats.failed as nat
    }

    /// A run that has handled no recipient.
    pub fn new() -> (p: RunProgress)
        ensures
            p.handled() == 0,
            p.sent_count() == 0,
            p.failed_count() == 0,
    {
        RunProgress { stats: SendStats::new(), index: 0 }
    }

    /// The index of the next recipient: the number handled so far.
    pub fn index(&self) -> (r: u64)
        ensures
            r == self.handled(),
            self.sent_count() + self.failed_count() == self.handled(),
    {
        proof {
            use_type_invariant(self);
        }
        self.index
    }

    /// Counts the recipient at the current index, as sent when its message was
    /// delivered and as failed otherwise, and moves to the next recipient.
    pub fn step(&mut self, delivered: bool)
        requires
            old(self).handled() < u64::MAX,
        ensures
            final(self).handled() == old(self).handled() + 1,
            delivered ==> final(self).sent_count() == old(self).sent_count() + 1
                && final(self).failed_count() == old(self).failed_count(),
            !delivered ==> final(self).failed_count() == old(self).failed_count() + 1
                && final(self).sent_count() == old(self).sent_count(),
            final(self).sent_count() + final(self).failed_count() == final(self).handled(),
    {
        proof {
            use_type_invariant(&*self);
        }
        let mut stats = SendStats { sent: self.stats.sent, failed: self.stats.failed };
        stats.record(delivered);
        *self = RunProgress { stats, index: self.index + 1 };
    }

    /// The tally of the run; sent and failed together count the recipients
    /// handled.
    pub fn stats(&self) -> (s: SendStats)
        ensures
            s.sent == self.sent_count(),
            s.failed == self.failed_count(),
            s.sent + s.failed == self.handled(),
    {
        proof {
            use_type_invariant(self);
        }
        SendStats { sent: self.stats.sent, failed: self.stats.failed }
    }
}

} // verus!
