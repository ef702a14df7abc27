//! The job summary shown before a mailing run starts.
use vstd::prelude::*;

use crate::config::BaseConfig;
use crate::job::JobConfig;
use crate::text::{decimal, decimal_chars, string_from_chars, string_views};

verus! {

/// The rule between the parts of the summary.
pub open spec fn rule() -> Seq<char> {
    "========================================"@
}

/// `true` or `false`, as a `bool` is shown.
pub open spec fn bool_text(b: bool) -> Seq<char> {
    if b {
        "true"@
    } else {
        "false"@
    }
}

/// The throttle line: the batch size and the pause when both are configured,
/// `none` otherwise.
pub open spec fn throttle_line(base: BaseConfig) -> Seq<char> {
    match (base.timeout_count, base.timeout_duration) {
        (Some(n), Some(d)) => "Throttle:       pause after every "@ + decimal(n as nat)
            + " mails for "@ + d@,
        _ => "Throttle:       none"@,
    }
}

/// The blacklist line: the blacklist file, or `none`.
pub open spec fn blacklist_line(job: JobConfig) -> Seq<char> {
    match job.blacklist {
        Some(b) => "Blacklist:      "@ + b@,
        None => "Blacklist:      none"@,
    }
}

/// One line per attachment, in order, or a single line saying there is none.
pub open spec fn attachment_lines(attachments: Seq<Seq<char>>) -> Seq<Seq<char>> {
    if attachments.len() == 0 {
        seq!["Attachments:    none"@]
    } else {
        attachments.map_values(|a: Seq<char>| "Attachment:     "@ + a)
    }
}

/// The lines of the job summary, from the banner to the closing rule and the
/// empty line after it.
pub open spec fn summary_spec(
    base: BaseConfig,
    job: JobConfig,
    base_path: Seq<char>,
    job_path: Seq<char>,
    email_col: Seq<char>,
) -> Seq<Seq<char>> {
    seq![
        rule(),
        "  send-all-rs — Job Summary"@,
        rule(),
        "Base config:    "@ + base_path,
        "SMTP server:    "@ + base.smtp_server@ + ":"@ + decimal(base.smtp_port as nat),
        "Account:        "@ + base.account@,
        "TLS mode:       "@ + base.tls_mode.name(),
        throttle_line(base),
        "----------------------------------------"@,
        "Job file:       "@ + job_path,
        "Subject:        "@ + job.subject@,
        "Recipients:     "@ + job.recipient_list@,
        "Body (HTML):    "@ + job.body_html@,
        "Body (TXT):     "@ + job.body_txt@,
        "Personalize:    "@ + bool_text(job.personalize),
        "Email column:   "@ + email_col,
        blacklist_line(job),
    ] + attachment_lines(string_views(job.attachments@)) + seq![rule(), Seq::<char>::empty()]
}

/// The summary shows the job's own settings: line 15 gives the personalize
/// flag as `true` or `false`; line 8 gives the batch size and the pause
/// exactly when both are configured and `none` otherwise; line 17 gives the
/// blacklist file or `none`; then come one line per attachment, in order (or
/// a single line saying there is none), the closing rule and an empty line.
pub proof fn law_summary_shows_the_settings(
    base: BaseConfig,
    job: JobConfig,
    base_path: Seq<char>,
    job_path: Seq<char>,
    email_col: Seq<char>,
)
    ensures
        ({
            let lines = summary_spec(base, job, base_path, job_path, email_col);
            let n = job.attachments@.len();
            &&& lines.len() == 19 + if n == 0 {
                1
            } else {
                n
            }
            &&& lines[14] == "Personalize:    "@ + if job.personalize {
                "true"@
            } else {
                "false"@
            }
            &&& lines[15] == "Email column:   "@ + email_col
            &&& (base.timeout_count is Some && base.timeout_duration is Some) ==> lines[7]
                == "Throttle:       pause after every "@ + decimal(base.timeout_count->0 as nat)
                + " mails for "@ + base.timeout_duration->0@
            &&& !(base.timeout_count is Some && base.timeout_duration is Some) ==> lines[7]
                == "Throttle:       none"@
            &&& job.blacklist matches Some(b) ==> lines[16] == "Blacklist:      "@ + b@
            &&& job.blacklist is None ==> lines[16] == "Blacklist:      none"@
            &&& n == 0 ==> lines[17] == "Attachments:    none"@
            &&& forall|k: int| 0 <= k < n ==> #[trigger] lines[17 + k] == "Attachment:     "@
                + job.attachments@[k]@
        }),
{
    let lines = summary_spec(base, job, base_path, job_path, email_col);
    let names = string_views(job.attachments@);
    let n = job.attachments@.len();
    if n > 0 {
        assert forall|k: int| 0 <= k < n implies #[trigger] lines[17 + k] == "Attachment:     "@
            + job.attachments@[k]@ by {
            assert(names[k] == job.attachments@[k]@);
        }
    }
}

/// `label` followed by `value`.
fn labelled(label: &str, value: &str) -> (r: String)
    ensures
        r@ == label@ + value@,
{
    let mut s = String::from_str(label);
    s.append(value);
    s
}

/// The decimal notation of a number, as a string.
fn decimal_string(n: u64) -> (r: String)
    ensures
        r@ == decimal(n as nat),
{
    string_from_chars(&decimal_chars(n as u128))
}

/// The lines of the summary of a job and its base configuration, where
/// `base_path` and `job_path` are the paths the two were read from and
/// `email_col` names the address column.
pub fn summary_lines(
    base: &BaseConfig,
    job: &JobConfig,
    base_path: &str,
    job_path: &str,
    email_col: &str,
) -> (r: Vec<String>)
    ensures
        string_views(r@) == summary_spec(*base, *job, base_path@, job_path@, email_col@),
{
    let ghost want = summary_spec(*base, *job, base_path@, job_path@, email_col@);
    let mut out: Vec<String> = Vec::new();
    out.push(String::from_str("========================================"));
    out.push(String::from_str("  send-all-rs — Job Summary"));
    out.push(String::from_str("========================================"));
    out.push(labelled("Base config:    ", base_path));
    let mut server = labelled("SMTP server:    ", base.smtp_server.as_str());
    server.append(":");
    server.append(decimal_string(base.smtp_port as u64).as_str());
    out.push(server);
    out.push(labelled("Account:        ", base.account.as_str()));
    out.push(labelled("TLS mode:       ", base.tls_mode.as_string().as_str()));
    let throttle = match (&base.timeout_count, &base.timeout_duration) {
        (Some(n), Some(d)) => {
            let mut t = labelled("Throttle:       pause after every ", decimal_string(*n).as_str());
            t.append(" mails for ");
            t.append(d.as_str());
            t
        },
        _ => String::from_str("Throttle:       none"),
    };
    out.push(throttle);
    out.push(String::from_str("----------------------------------------"));
    out.push(labelled("Job file:       ", job_path));
    out.push(labelled("Subject:        ", job.subject.as_str()));
    out.push(labelled("Recipients:     ", job.recipient_list.as_str()));
    out.push(labelled("Body (HTML):    ", job.body_html.as_str()));
    out.push(labelled("Body (TXT):     ", job.body_txt.as_str()));
    let personalize = if job.personalize {
        "true"
    } else {
        "false"
    };
    out.push(labelled("Personalize:    ", personalize));
    out.push(labelled("Email column:   ", email_col));
    match &job.blacklist {
        Some(b) => out.push(labelled("Blacklist:      ", b.as_str())),
        None => out.push(String::from_str("Blacklist:      none")),
    }
    let ghost head = want.take(17);
    proof {
        reveal_strlit("true");
        reveal_strlit("false");
        assert(string_views(out@) =~= head);
    }
    let ghost names = string_views(job.attachments@);
    if job.attachments.len() == 0 {
        out.push(String::from_str("Attachments:    none"));
        assert(string_views(out@) =~= head + attachment_lines(names));
    } else {
        let n = job.attachments.len();
        for i in 0..n
            invariant
                n == job.attachments@.len(),
                n > 0,
                names == string_views(job.attachments@),
                string_views(out@) =~= head + attachment_lines(names).take(i as int),
        {
            let ghost before = out@;
            let line = labelled("Attachment:     ", job.attachments[i].as_str());
            assert(names[i as int] == job.attachments@[i as int]@);
            out.push(line);
            assert(string_views(out@) =~= string_views(before).push(line@));
            assert(attachment_lines(names)[i as int] == "Attachment:     "@ + names[i as int]);
            assert(attachment_lines(names).take(i + 1) =~= attachment_lines(names).take(i as int)
                + seq!["Attachment:     "@ + names[i as int]]);
        }
        assert(attachment_lines(names).take(n as int) =~= attachment_lines(names));
    }
    let ghost middle = string_views(out@);
    assert(middle =~= head + attachment_lines(names));
    out.push(String::from_str("========================================"));
    out.push(String::new());
    assert(string_views(out@) =~= middle + seq![rule(), Seq::<char>::empty()]);
    assert(want =~= head + attachment_lines(names) + seq![rule(), Seq::<char>::empty()]);
    assert(string_views(out@) =~= want);
    out
}

} // verus!
