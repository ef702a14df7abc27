use send_all_rs::job::JobConfig;
use send_all_rs::mailer::{
    after_send, attachment_content_type, attachment_file_name, attachment_mime, attachment_part, is_retryable, message_addresses,
    message_body, message_texts, pause_before, retryable_marker, AddressFault, MessageBody, Next, SendOutcome, SendStats,
};
use send_all_rs::recipient::Recipient;

fn job(personalize: bool) -> JobConfig {
    JobConfig {
        subject: "Hello $FirstName$, your invoice is ready".to_string(),
        recipient_list: "recipients.csv".to_string(),
        body_html: "body.html".to_string(),
        body_txt: "body.txt".to_string(),
        personalize,
        attachments: vec!["invoice.pdf".to_string()],
        blacklist: None,
    }
}

fn alice() -> Recipient {
    Recipient {
        email: "alice@example.com".to_string(),
        fields: vec![("FirstName".to_string(), "Alice".to_string())],
    }
}

#[test]
fn texts_are_personalized_on_request() {
    let m = message_texts(&job(true), &alice(), "<p>Hi $FirstName$</p>", "Hi $FirstName$");
    assert_eq!(m.subject, "Hello Alice, your invoice is ready");
    assert_eq!(m.html, "<p>Hi Alice</p>");
    assert_eq!(m.text, "Hi Alice");
}

#[test]
fn texts_are_kept_without_personalization() {
    let m = message_texts(&job(false), &alice(), "<p>Hi $FirstName$</p>", "Hi $FirstName$");
    assert_eq!(m.subject, "Hello $FirstName$, your invoice is ready");
    assert_eq!(m.html, "<p>Hi $FirstName$</p>");
    assert_eq!(m.text, "Hi $FirstName$");
}

#[test]
fn attachment_media_types() {
    assert_eq!(attachment_mime("invoice.pdf"), "application/pdf");
    assert_eq!(attachment_mime("dir/photo.PNG"), "image/png");
    assert_eq!(attachment_mime("notes"), "application/octet-stream");
    assert_eq!(attachment_mime("data.unknownextension"), "application/octet-stream");
}

#[test]
fn pauses_after_every_n_mails() {
    let pauses: Vec<u64> = (0..11u64)
        .filter(|i| pause_before(*i, Some(5), Some(300)).is_some())
        .collect();
    assert_eq!(pauses, vec![5, 10]);
    assert_eq!(pause_before(5, Some(5), Some(300)), Some(300));
    assert_eq!(pause_before(0, Some(5), Some(300)), None);
    assert_eq!(pause_before(5, None, Some(300)), None);
    assert_eq!(pause_before(5, Some(5), None), None);
    assert_eq!(pause_before(0, Some(0), Some(1)), None);
}

#[test]
fn retryable_errors() {
    assert!(is_retryable("Connection refused"));
    assert!(is_retryable("TIMEOUT while reading"));
    assert!(is_retryable("service temporarily unavailable"));
    assert!(is_retryable("please Try Again later"));
    assert!(is_retryable("421 too busy"));
    assert!(is_retryable("code 450"));
    assert!(is_retryable("451 local error"));
    assert!(is_retryable("452 mailbox full"));
    assert!(!is_retryable("SMTP error for alice@example.com"));
    assert!(!is_retryable("550 no such user"));
    assert!(!is_retryable(""));
    assert!(retryable_marker("connection reset"));
    assert!(!retryable_marker("Connection reset"));
}

#[test]
fn retries_wait_longer_each_time_and_stop_after_six() {
    let fail = SendOutcome::Failed("Connection refused".to_string());
    let mut waits = Vec::new();
    let mut next = after_send(&fail);
    loop {
        match next {
            Next::Retry(r) => {
                waits.push((r.attempt(), r.wait_secs()));
                next = r.after_retry(&fail);
            }
            Next::GaveUp => break,
            Next::Delivered => panic!("delivered without success"),
        }
    }
    assert_eq!(waits, vec![(1, 10), (2, 20), (3, 40), (4, 80), (5, 160), (6, 320)]);
}

#[test]
fn retry_ends_on_success_or_hard_failure() {
    let soft = SendOutcome::Failed("451 try again".to_string());
    let hard = SendOutcome::Failed("550 rejected".to_string());
    assert!(matches!(after_send(&SendOutcome::Sent), Next::Delivered));
    assert!(matches!(after_send(&hard), Next::GaveUp));
    match after_send(&soft) {
        Next::Retry(r) => {
            assert!(matches!(r.after_retry(&SendOutcome::Sent), Next::Delivered));
            assert!(matches!(r.after_retry(&hard), Next::GaveUp));
        }
        _ => panic!("soft failure not retried"),
    }
}

#[test]
fn stats_count_each_message_once() {
    let mut s = SendStats::new();
    s.record(true);
    s.record(false);
    s.record(true);
    assert_eq!((s.sent, s.failed), (2, 1));
}

#[test]
fn addresses_are_checked_sender_first() {
    let ok = message_addresses("you@example.com", "Alice <alice@example.com>");
    match ok {
        Ok(a) => {
            assert_eq!(a.from.mailbox.email.to_string(), "you@example.com");
            assert_eq!(a.from.mailbox.name, None);
            assert_eq!(a.to.mailbox.email.to_string(), "alice@example.com");
            assert_eq!(a.to.mailbox.name.as_deref(), Some("Alice"));
        }
        Err(e) => panic!("refused: {}", e.message()),
    }
    match message_addresses("not an address", "also bad") {
        Err(e) => {
            assert!(matches!(e, AddressFault::InvalidSender));
            assert_eq!(e.message(), "Invalid sender address");
        }
        Ok(_) => panic!("bad sender accepted"),
    }
    match message_addresses("you@example.com", "bob") {
        Err(e) => {
            assert!(matches!(&e, AddressFault::InvalidRecipient(s) if s == "bob"));
            assert_eq!(e.message(), "Invalid recipient address: bob");
        }
        Ok(_) => panic!("bad recipient accepted"),
    }
}

#[test]
fn attachment_file_names() {
    assert_eq!(attachment_file_name("docs/invoice.pdf"), "invoice.pdf");
    assert_eq!(attachment_file_name("invoice.pdf"), "invoice.pdf");
    assert_eq!(attachment_file_name("docs/.."), "attachment");
    assert_eq!(attachment_file_name(""), "attachment");
}

#[test]
fn attachment_content_types() {
    let pdf = lettre::message::header::ContentType::parse("application/pdf").unwrap();
    let octet = lettre::message::header::ContentType::parse("application/octet-stream").unwrap();
    assert_eq!(attachment_content_type("invoice.pdf").map(|t| t.content_type), Some(pdf));
    assert_eq!(attachment_content_type("README").map(|t| t.content_type), Some(octet));
}

#[test]
fn attachment_parts_carry_name_type_and_bytes() {
    let part = attachment_part("docs/report.pdf", vec![1, 2, 3]).expect("pdf is a media type");
    assert_eq!(part.file_name, "report.pdf");
    assert_eq!(
        part.content_type.content_type,
        lettre::message::header::ContentType::parse("application/pdf").unwrap()
    );
    assert_eq!(part.data, vec![1, 2, 3]);
}

#[test]
fn body_is_mixed_only_with_attachments() {
    match message_body("plain".to_string(), "<p>html</p>".to_string(), Vec::new()) {
        MessageBody::Alternative { text, html } => {
            assert_eq!(text, "plain");
            assert_eq!(html, "<p>html</p>");
        }
        MessageBody::Mixed { .. } => panic!("mixed body without attachments"),
    }
    let parts = vec![
        attachment_part("a.txt", b"first".to_vec()).unwrap(),
        attachment_part("b.png", b"second".to_vec()).unwrap(),
    ];
    match message_body("plain".to_string(), "<p>html</p>".to_string(), parts) {
        MessageBody::Mixed { text, html, attachments } => {
            assert_eq!(text, "plain");
            assert_eq!(html, "<p>html</p>");
            let names: Vec<&str> = attachments.iter().map(|a| a.file_name.as_str()).collect();
            assert_eq!(names, vec!["a.txt", "b.png"]);
            assert_eq!(attachments[1].data, b"second".to_vec());
        }
        MessageBody::Alternative { .. } => panic!("attachments dropped"),
    }
}

#[test]
fn full_error_chain_of_an_smtp_failure_is_retryable() {
    assert!(!is_retryable("SMTP error for bob@example.com"));
    assert!(is_retryable("SMTP error for bob@example.com: Connection refused (os error 111)"));
}
