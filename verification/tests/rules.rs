use aegira::rule::{
    is_aegira_service, non_empty, normalize_service_name, validate_rule, Remediation, Rule,
    Verification,
};

fn sound_rule() -> Rule {
    Rule {
        id: "db_down".to_string(),
        name: "Database down".to_string(),
        severity: "high".to_string(),
        error_patterns: vec!["connection lost".to_string()],
        context_patterns: vec!["postgres".to_string()],
        remediation: Remediation::ServiceRestart { service: "postgresql".to_string() },
        verification: Verification::ServiceActive { service: "postgresql".to_string() },
        priority: 0,
    }
}

fn complaint_of(rule: &Rule) -> String {
    validate_rule(rule).unwrap_err()
}

#[test]
fn white_space_alone_is_empty() {
    assert!(!non_empty(""));
    assert!(!non_empty(" \t\r\n"));
    assert!(!non_empty("\u{a0}\u{3000}\u{2028}"));
    assert!(non_empty(" a "));
    assert!(non_empty("\u{200b}"));
}

#[test]
fn white_space_is_the_unicode_property() {
    let listed = |n: u32| {
        matches!(
            n,
            0x9..=0xd | 0x20 | 0x85 | 0xa0 | 0x1680 | 0x2000..=0x200a | 0x2028 | 0x2029 | 0x202f
                | 0x205f | 0x3000
        )
    };
    for n in 0..=0x10ffffu32 {
        if let Some(c) = char::from_u32(n) {
            assert_eq!(non_empty(&c.to_string()), !listed(n), "{:x}", n);
        }
    }
}

#[test]
fn service_names_are_normalized() {
    assert_eq!(normalize_service_name("  Nginx.service \n"), "nginx");
    assert_eq!(normalize_service_name("cron.service.service"), "cron");
    assert_eq!(normalize_service_name(".service"), "");
    assert_eq!(normalize_service_name(""), "");
    assert_eq!(normalize_service_name(" \tcron.service"), normalize_service_name(" \tcron"));
    assert_eq!(normalize_service_name("cron.SERVICE"), "cron.service");
    assert_eq!(normalize_service_name("my.service.d"), "my.service.d");
    assert_eq!(normalize_service_name("ÄRGER"), "ärger");
}

#[test]
fn ascii_letters_are_lowered_and_nothing_else_in_ascii() {
    for n in 0x21..0x7fu8 {
        let c = n as char;
        assert_eq!(normalize_service_name(&c.to_string()), c.to_ascii_lowercase().to_string());
    }
}

#[test]
fn the_engine_is_known_under_its_spellings() {
    for name in ["aegira", "Aegira", "AEGIRA", " aegira ", "aegira.service", "AeGiRa.service.service"] {
        assert!(is_aegira_service(name), "{}", name);
    }
    for name in ["aegira2", "aegira .service", "aegira.SERVICE", "", "a egira"] {
        assert!(!is_aegira_service(name), "{}", name);
    }
}

#[test]
fn a_sound_rule_is_valid() {
    assert_eq!(validate_rule(&sound_rule()), Ok(()));
    let mut rule = sound_rule();
    rule.severity = String::new();
    rule.context_patterns = Vec::new();
    rule.remediation = Remediation::ContainerRestart { container: "aegira".to_string() };
    rule.verification = Verification::ContainerRunning { container: "aegira".to_string() };
    assert_eq!(validate_rule(&rule), Ok(()));
}

#[test]
fn each_fault_is_named() {
    let mut rule = sound_rule();
    rule.id = "  ".to_string();
    assert_eq!(complaint_of(&rule), "Rule id cannot be empty");

    let mut rule = sound_rule();
    rule.name = String::new();
    assert_eq!(complaint_of(&rule), "Rule 'db_down' has an empty name");

    let mut rule = sound_rule();
    rule.error_patterns = Vec::new();
    assert_eq!(complaint_of(&rule), "Rule 'db_down' must contain at least one error pattern");

    let mut rule = sound_rule();
    rule.error_patterns.push("\t".to_string());
    assert_eq!(complaint_of(&rule), "Rule 'db_down' contains an empty error pattern");

    let mut rule = sound_rule();
    rule.context_patterns.push(String::new());
    assert_eq!(complaint_of(&rule), "Rule 'db_down' contains an empty context pattern");

    let mut rule = sound_rule();
    rule.remediation = Remediation::ServiceRestart { service: " ".to_string() };
    assert_eq!(complaint_of(&rule), "Rule 'db_down' has an empty remediation service");

    let mut rule = sound_rule();
    rule.remediation = Remediation::ServiceRestart { service: "Aegira.service".to_string() };
    assert_eq!(complaint_of(&rule), "Rule 'db_down' attempts to restart Aegira itself");

    let mut rule = sound_rule();
    rule.remediation = Remediation::ContainerRestart { container: String::new() };
    assert_eq!(complaint_of(&rule), "Rule 'db_down' has an empty remediation container");

    let mut rule = sound_rule();
    rule.verification = Verification::ServiceActive { service: String::new() };
    assert_eq!(complaint_of(&rule), "Rule 'db_down' has an empty verification service");

    let mut rule = sound_rule();
    rule.verification = Verification::ContainerRunning { container: "\n".to_string() };
    assert_eq!(complaint_of(&rule), "Rule 'db_down' has an empty verification container");
}

#[test]
fn the_first_fault_is_named() {
    let mut rule = sound_rule();
    rule.name = String::new();
    rule.error_patterns = Vec::new();
    rule.verification = Verification::ServiceActive { service: String::new() };
    assert_eq!(complaint_of(&rule), "Rule 'db_down' has an empty name");
}
