use send_all_rs::config::{checked_parse_duration, parse_duration, unit_factor, BaseConfig, DurationError, TlsMode};

fn secs(s: &str) -> u64 {
    match parse_duration(s) {
        Ok(n) => n,
        Err(e) => panic!("{} refused: {}", s, e.message()),
    }
}

fn base(timeout: Option<&str>) -> BaseConfig {
    BaseConfig {
        smtp_server: "smtp.example.com".to_string(),
        smtp_port: 587,
        account: "you@example.com".to_string(),
        tls_mode: TlsMode::Starttls,
        timeout_count: Some(50),
        timeout_duration: timeout.map(|s| s.to_string()),
    }
}

#[test]
fn bare_number_is_minutes() {
    assert_eq!(secs("5"), 300);
    assert_eq!(secs("  5  "), 300);
    assert_eq!(secs("0"), 0);
    assert_eq!(secs("5"), secs("5min"));
}

#[test]
fn readme_formats() {
    assert_eq!(secs("30s"), 30);
    assert_eq!(secs("5min"), 300);
    assert_eq!(secs("2h"), 7200);
    assert_eq!(secs("1d"), 86400);
}

#[test]
fn all_unit_spellings() {
    for u in ["s", "sec", "secs", "second", "seconds"] {
        assert_eq!(secs(&format!("7{}", u)), 7);
    }
    for u in ["m", "min", "mins", "minute", "minutes"] {
        assert_eq!(secs(&format!("7{}", u)), 420);
    }
    for u in ["h", "hr", "hrs", "hour", "hours"] {
        assert_eq!(secs(&format!("7{}", u)), 25200);
    }
    for u in ["d", "day", "days"] {
        assert_eq!(secs(&format!("7{}", u)), 604800);
    }
}

#[test]
fn units_ignore_case_and_spaces() {
    assert_eq!(secs("10 Minutes"), 600);
    assert_eq!(secs(" 2 H "), 7200);
    assert_eq!(secs("3SEC"), 3);
    assert_eq!(secs("+4s"), 4);
}

#[test]
fn unit_factor_table() {
    let f = |s: &str| unit_factor(&s.chars().collect::<Vec<char>>());
    assert_eq!(f("s"), Some(1));
    assert_eq!(f("minutes"), Some(60));
    assert_eq!(f("hrs"), Some(3600));
    assert_eq!(f("days"), Some(86400));
    assert_eq!(f("MIN"), None);
    assert_eq!(f("weeks"), None);
    assert_eq!(f(""), None);
}

#[test]
fn invalid_numbers() {
    match parse_duration("abc") {
        Err(DurationError::InvalidNumber(p)) => assert_eq!(p, ""),
        other => panic!("unexpected {:?}", other),
    }
    match parse_duration("5.5h") {
        Err(DurationError::InvalidNumber(p)) => assert_eq!(p, "5.5"),
        other => panic!("unexpected {:?}", other),
    }
    match parse_duration("-5") {
        Err(DurationError::InvalidNumber(p)) => assert_eq!(p, "-5"),
        other => panic!("unexpected {:?}", other),
    }
    match parse_duration("") {
        Err(DurationError::InvalidNumber(p)) => assert_eq!(p, ""),
        other => panic!("unexpected {:?}", other),
    }
    match parse_duration("1 2 s") {
        Err(DurationError::InvalidNumber(p)) => assert_eq!(p, "1 2 "),
        other => panic!("unexpected {:?}", other),
    }
    match parse_duration("99999999999999999999s") {
        Err(DurationError::InvalidNumber(p)) => assert_eq!(p, "99999999999999999999"),
        other => panic!("unexpected {:?}", other),
    }
}

#[test]
fn unknown_units() {
    match parse_duration("5 Weeks") {
        Err(e) => {
            match &e {
                DurationError::UnknownUnit(u) => assert_eq!(u, "weeks"),
                other => panic!("unexpected {:?}", other),
            }
            assert_eq!(e.message(), "Unknown duration unit: 'weeks'");
        }
        other => panic!("unexpected {:?}", other),
    }
    match parse_duration("5mins30") {
        Err(DurationError::UnknownUnit(u)) => assert_eq!(u, "mins30"),
        other => panic!("unexpected {:?}", other),
    }
}

#[test]
fn error_messages() {
    let e = DurationError::InvalidNumber("x1".to_string());
    assert_eq!(e.message(), "Invalid duration number: 'x1'");
}

#[test]
fn overflow_is_reported_by_checked_parse() {
    assert!(checked_parse_duration("300000000000000000d").is_none());
    assert_eq!(checked_parse_duration("1d").map(|r| r.ok()), Some(Some(86400)));
    assert!(matches!(checked_parse_duration("x"), Some(Err(DurationError::InvalidNumber(_)))));
}

#[test]
fn parsed_timeout_of_base_config() {
    assert_eq!(base(None).parsed_timeout().ok(), Some(None));
    assert_eq!(base(Some("5min")).parsed_timeout().ok(), Some(Some(300)));
    assert!(base(Some("5 fortnights")).parsed_timeout().is_err());
    assert!(base(Some("300000000000000000d")).checked_parsed_timeout().is_none());
    assert_eq!(
        base(Some("45s")).checked_parsed_timeout().map(|r| r.ok()),
        Some(Some(Some(45)))
    );
}

#[test]
fn tls_mode_names() {
    assert_eq!(TlsMode::Starttls.as_string(), "starttls");
    assert_eq!(TlsMode::Tls.as_string(), "tls");
    assert_eq!(TlsMode::Plain.as_string(), "plain");
}

#[test]
fn duration_spellings_agree() {
    for n in [0u64, 1, 5, 90, 1440] {
        for pad in ["", " ", "   "] {
            let expected = n * 60;
            assert_eq!(secs(&format!("{}", n)), expected);
            assert_eq!(secs(&format!("{pad}{n} MIN{pad}")), expected);
            assert_eq!(secs(&format!("{n}min")), expected);
            assert_eq!(secs(&format!("{}s", n * 60)), expected);
        }
    }
}

#[test]
fn timeout_agrees_with_duration() {
    for s in ["5", "30s", " 2 H ", "1d", "x", "5 fortnights", "", "10ms"] {
        let t = base(Some(s)).parsed_timeout();
        let p = parse_duration(s);
        match (t, p) {
            (Ok(Some(x)), Ok(y)) => assert_eq!(x, y, "{}", s),
            (Err(e), Err(f)) => assert_eq!(e.message(), f.message(), "{}", s),
            _ => panic!("disagreement on {:?}", s),
        }
    }
    let over = "300000000000000000d";
    assert!(base(Some(over)).checked_parsed_timeout().is_none());
    assert!(checked_parse_duration(over).is_none());
}
