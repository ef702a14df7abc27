use send_all_rs::recipient::{
    blacklist_from_text, check_email_column, filter_blacklisted, is_on_blacklist, missing_columns, personalize,
    recipients_from_csv, recipients_from_records, CsvFault, Recipient,
};

fn rec(email: &str, fields: &[(&str, &str)]) -> Recipient {
    Recipient {
        email: email.to_string(),
        fields: fields.iter().map(|(h, v)| (h.to_string(), v.to_string())).collect(),
    }
}

fn strings(v: &[&str]) -> Vec<String> {
    v.iter().map(|s| s.to_string()).collect()
}

#[test]
fn readme_subject_personalization() {
    let r = rec("alice@example.com", &[("E-Mail", "alice@example.com"), ("FirstName", "Alice"), ("LastName", "Smith")]);
    assert_eq!(
        personalize("Hello $FirstName$, your invoice is ready", &r),
        "Hello Alice, your invoice is ready"
    );
    assert_eq!(personalize("$FirstName$ $LastName$", &r), "Alice Smith");
}

#[test]
fn missing_columns_are_left_in_place() {
    let r = rec("a@b.c", &[("FirstName", "Alice")]);
    assert_eq!(personalize("Dear $Title$ $FirstName$", &r), "Dear $Title$ Alice");
}

#[test]
fn template_without_placeholders_is_unchanged() {
    let r = rec("a@b.c", &[("FirstName", "Alice")]);
    assert_eq!(personalize("No tokens here: 100% ok", &r), "No tokens here: 100% ok");
    assert_eq!(personalize("", &r), "");
}

#[test]
fn every_occurrence_is_replaced() {
    let r = rec("a@b.c", &[("N", "Bob")]);
    assert_eq!(personalize("$N$, $N$ and $N$", &r), "Bob, Bob and Bob");
}

#[test]
fn empty_and_unterminated_placeholders() {
    let r = rec("a@b.c", &[("N", "Bob"), ("", "empty")]);
    assert_eq!(personalize("costs $$5 for $N$", &r), "costs $$5 for Bob");
    assert_eq!(personalize("price in $ and $N", &r), "price in $ and $N");
    assert_eq!(personalize("a $N$ b $", &r), "a Bob b $");
}

#[test]
fn substitutions_apply_in_turn() {
    // The value of A holds the token of B, which a later substitution replaces.
    let r = rec("a@b.c", &[("A", "$B$"), ("B", "x")]);
    assert_eq!(personalize("$A$ $B$", &r), "x x");
}

#[test]
fn non_ascii_text_is_kept() {
    let r = rec("a@b.c", &[("Name", "Zoë")]);
    assert_eq!(personalize("Grüße, $Name$! 🎉", &r), "Grüße, Zoë! 🎉");
}

#[test]
fn repeated_header_last_column_counts() {
    let r = rec("a@b.c", &[("X", "first"), ("X", "second")]);
    assert_eq!(personalize("$X$", &r), "second");
    assert_eq!(r.field_value(&['X']), Some(vec!['s', 'e', 'c', 'o', 'n', 'd']));
    assert_eq!(r.field_value(&['Y']), None);
}

#[test]
fn recipients_skip_blank_addresses_and_trim() {
    let headers = strings(&["E-Mail", "FirstName"]);
    let records = vec![
        strings(&["  alice@example.com ", "Alice"]),
        strings(&["   ", "Nobody"]),
        strings(&["bob@example.com", "Bob"]),
    ];
    let rs = recipients_from_records(&headers, &records, "E-Mail");
    assert_eq!(rs.len(), 2);
    assert_eq!(rs[0].email, "alice@example.com");
    assert_eq!(rs[0].fields[0], ("E-Mail".to_string(), "  alice@example.com ".to_string()));
    assert_eq!(rs[0].fields[1], ("FirstName".to_string(), "Alice".to_string()));
    assert_eq!(rs[1].email, "bob@example.com");
}

#[test]
fn recipients_with_short_rows() {
    let headers = strings(&["Name", "E-Mail"]);
    let records = vec![strings(&["Only a name"])];
    assert!(recipients_from_records(&headers, &records, "E-Mail").is_empty());
}

#[test]
fn email_column_check() {
    let headers = strings(&["Mail", "FirstName"]);
    assert!(check_email_column(&headers, "Mail").is_ok());
    match check_email_column(&headers, "E-Mail") {
        Err(e) => {
            assert_eq!(e.column, "E-Mail");
            assert_eq!(
                e.message(),
                "Email column 'E-Mail' not found in CSV. Available columns: Mail, FirstName"
            );
        }
        Ok(()) => panic!("missing column accepted"),
    }
}

#[test]
fn blacklist_lines_are_trimmed_and_lowercased() {
    let list = blacklist_from_text("  Alice@Example.com \r\n\n\tBOB@x.org\n   \n");
    assert_eq!(list, strings(&["alice@example.com", "bob@x.org"]));
    assert!(blacklist_from_text("").is_empty());
    assert_eq!(blacklist_from_text("c@d.e"), strings(&["c@d.e"]));
}

#[test]
fn blacklist_filter_is_case_insensitive_and_keeps_order() {
    let list = blacklist_from_text("bob@example.com\n");
    let rs = vec![
        rec("alice@example.com", &[]),
        rec("Bob@Example.COM", &[]),
        rec("carol@example.com", &[]),
    ];
    let kept = filter_blacklisted(rs, &list);
    let emails: Vec<&str> = kept.iter().map(|r| r.email.as_str()).collect();
    assert_eq!(emails, vec!["alice@example.com", "carol@example.com"]);
}

#[test]
fn repeated_headers_are_held_once_with_the_last_value() {
    let headers = strings(&["X", "E-Mail", "X"]);
    let records = vec![strings(&["a", "b@c.d", "z"])];
    let rs = recipients_from_records(&headers, &records, "E-Mail");
    assert_eq!(rs.len(), 1);
    assert_eq!(
        rs[0].fields,
        vec![
            ("E-Mail".to_string(), "b@c.d".to_string()),
            ("X".to_string(), "z".to_string())
        ]
    );
    assert_eq!(personalize("$X$", &rs[0]), "z");
}

#[test]
fn blacklist_entries_are_held_once() {
    let list = blacklist_from_text("a@b.c\nA@B.C\n  a@b.c  \nd@e.f");
    assert_eq!(list, strings(&["a@b.c", "d@e.f"]));
}

#[test]
fn template_with_only_unknown_placeholders_is_unchanged() {
    let r = rec("a@b.c", &[("FirstName", "Alice")]);
    assert_eq!(personalize("Dear $Title$ $Surname$, $$", &r), "Dear $Title$ $Surname$, $$");
}

#[test]
fn csv_recipients_with_skipped_rows() {
    let data = b"E-Mail,FirstName\n alice@example.com ,Alice\n,Nobody\nbob@example.com,Bob\n";
    let table = recipients_from_csv(data, "E-Mail").expect("readable CSV");
    let emails: Vec<&str> = table.recipients.iter().map(|r| r.email.as_str()).collect();
    assert_eq!(emails, vec!["alice@example.com", "bob@example.com"]);
    assert_eq!(table.recipients[1].fields[1], ("FirstName".to_string(), "Bob".to_string()));
    assert_eq!(table.skipped_rows, vec![1]);
    assert_eq!(personalize("Hi $FirstName$", &table.recipients[0]), "Hi Alice");
}

#[test]
fn csv_without_the_address_column() {
    match recipients_from_csv(b"Mail,Name\na@b.c,A\n", "E-Mail") {
        Err(e) => {
            assert!(matches!(e, CsvFault::MissingEmailColumn(_)));
            assert_eq!(e.message(), "Email column 'E-Mail' not found in CSV. Available columns: Mail, Name");
        }
        Ok(_) => panic!("missing column accepted"),
    }
}

#[test]
fn csv_row_with_wrong_field_count() {
    match recipients_from_csv(b"E-Mail,Name\na@b.c,A\nb@c.d,B,extra\n", "E-Mail") {
        Err(e) => {
            assert!(matches!(e, CsvFault::UnreadableRow(1)));
            assert_eq!(e.message(), "Failed to read CSV row 3");
        }
        Ok(_) => panic!("ragged row accepted"),
    }
}

#[test]
fn csv_header_only_and_empty() {
    let table = recipients_from_csv(b"E-Mail\n", "E-Mail").expect("header only");
    assert!(table.recipients.is_empty());
    assert!(table.skipped_rows.is_empty());
    assert!(matches!(recipients_from_csv(b"", "E-Mail"), Err(CsvFault::MissingEmailColumn(_))));
}

#[test]
fn csv_header_that_is_not_text() {
    match recipients_from_csv(&[0xff, 0xfe, b'\n', b'a', b'\n'], "E-Mail") {
        Err(e) => {
            assert!(matches!(e, CsvFault::UnreadableHeaders));
            assert_eq!(e.message(), "Failed to read CSV headers");
        }
        Ok(_) => panic!("invalid header accepted"),
    }
}

#[test]
fn missing_columns_are_reported_in_order() {
    let r = rec("a@b.c", &[("FirstName", "Alice")]);
    assert_eq!(
        missing_columns("Dear $Title$ $FirstName$ $Title$ $$ $Company$", &r),
        strings(&["Title", "Title", "Company"])
    );
    assert!(missing_columns("Hi $FirstName$", &r).is_empty());
    assert!(missing_columns("no tokens", &r).is_empty());
}

#[test]
fn blacklist_lookup_ignores_case_of_the_address() {
    let list = blacklist_from_text("bob@example.com\n");
    assert!(is_on_blacklist("Bob@Example.COM", &list));
    assert!(!is_on_blacklist("alice@example.com", &list));
    assert!(!is_on_blacklist("bob@example.com", &Vec::new()));
}

#[test]
fn address_is_its_own_trim() {
    let headers = strings(&["E-Mail"]);
    let records = vec![strings(&["\t c@d.e \u{3000}"])];
    let rs = recipients_from_records(&headers, &records, "E-Mail");
    assert_eq!(rs[0].email, "c@d.e");
    assert_eq!(rs[0].email.trim(), rs[0].email);
}

#[test]
fn template_without_any_column_token_is_unchanged() {
    let r = rec("a@b.c", &[("FirstName", "Alice"), ("City", "Rome")]);
    let t = "Hello $Name$, costs $5 and $$ here";
    assert_eq!(personalize(t, &r), t);
}
