use send_all_rs::config::{BaseConfig, TlsMode};
use send_all_rs::job::JobConfig;
use send_all_rs::mailer::RunProgress;
use send_all_rs::summary::summary_lines;

fn base(count: Option<u64>, duration: Option<&str>) -> BaseConfig {
    BaseConfig {
        smtp_server: "smtp.example.com".to_string(),
        smtp_port: 587,
        account: "you@example.com".to_string(),
        tls_mode: TlsMode::Starttls,
        timeout_count: count,
        timeout_duration: duration.map(|s| s.to_string()),
    }
}

fn job(attachments: &[&str], blacklist: Option<&str>) -> JobConfig {
    JobConfig {
        subject: "Hello $FirstName$".to_string(),
        recipient_list: "recipients.csv".to_string(),
        body_html: "body.html".to_string(),
        body_txt: "body.txt".to_string(),
        personalize: true,
        attachments: attachments.iter().map(|a| a.to_string()).collect(),
        blacklist: blacklist.map(|b| b.to_string()),
    }
}

#[test]
fn summary_of_a_full_job() {
    let lines = summary_lines(
        &base(Some(50), Some("5min")),
        &job(&["invoice.pdf", "terms.pdf"], Some("blacklist.txt")),
        "/home/me/.sendallconf",
        "job.json",
        "E-Mail",
    );
    let expected = vec![
        "========================================",
        "  send-all-rs — Job Summary",
        "========================================",
        "Base config:    /home/me/.sendallconf",
        "SMTP server:    smtp.example.com:587",
        "Account:        you@example.com",
        "TLS mode:       starttls",
        "Throttle:       pause after every 50 mails for 5min",
        "----------------------------------------",
        "Job file:       job.json",
        "Subject:        Hello $FirstName$",
        "Recipients:     recipients.csv",
        "Body (HTML):    body.html",
        "Body (TXT):     body.txt",
        "Personalize:    true",
        "Email column:   E-Mail",
        "Blacklist:      blacklist.txt",
        "Attachment:     invoice.pdf",
        "Attachment:     terms.pdf",
        "========================================",
        "",
    ];
    assert_eq!(lines, expected);
}

#[test]
fn summary_without_throttle_blacklist_or_attachments() {
    let lines = summary_lines(&base(Some(50), None), &job(&[], None), "b", "j", "Mail");
    assert_eq!(lines[7], "Throttle:       none");
    assert_eq!(lines[16], "Blacklist:      none");
    assert_eq!(lines[17], "Attachments:    none");
    assert_eq!(lines.len(), 20);
    let lines = summary_lines(&base(None, Some("5")), &job(&[], None), "b", "j", "Mail");
    assert_eq!(lines[7], "Throttle:       none");
}

#[test]
fn run_progress_counts_each_recipient_once() {
    let mut p = RunProgress::new();
    assert_eq!(p.index(), 0);
    for delivered in [true, false, true, true] {
        p.step(delivered);
    }
    let s = p.stats();
    assert_eq!(p.index(), 4);
    assert_eq!((s.sent, s.failed), (3, 1));
}
