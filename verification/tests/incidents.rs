use aegira::cooldown::{cleanup_cooldowns, incident_key, Cooldowns};
use aegira::incident::{
    conclude_incident, is_incident, process_incident, report_outcome, IncidentAction,
};
use aegira::rule::{Remediation, Rule, Verification};

const SECOND: u64 = 1_000_000_000;

fn answering_rule(id: &str, pattern: &str) -> Rule {
    Rule {
        id: id.to_string(),
        name: id.to_string(),
        severity: String::new(),
        error_patterns: vec![pattern.to_string()],
        context_patterns: Vec::new(),
        remediation: Remediation::ServiceRestart { service: "cron".to_string() },
        verification: Verification::ServiceActive { service: "cron".to_string() },
        priority: 5,
    }
}

#[test]
fn incidents_are_marked_lines() {
    assert!(is_incident("12:00 [ERROR] x"));
    assert!(is_incident("[CRITICAL]"));
    assert!(!is_incident("[WARN] error"));
    assert!(!is_incident("[error] x"));
    assert!(!is_incident(""));
}

#[test]
fn keys_join_rule_and_incident_in_lowercase() {
    assert_eq!(incident_key(&answering_rule("DB:x", "p"), "[ERROR] Down"), "db:x:[error] down");
}

#[test]
fn cooldowns_are_recorded_and_forgotten() {
    let mut cooldowns = Cooldowns::new();
    assert_eq!(cooldowns.answered_at("a"), None);
    cooldowns.record("a".to_string(), 5 * SECOND);
    cooldowns.record("b".to_string(), 7 * SECOND);
    cooldowns.record("a".to_string(), 6 * SECOND);
    assert_eq!(cooldowns.answered_at("a"), Some(6 * SECOND));
    assert_eq!(cooldowns.answered_at("b"), Some(7 * SECOND));
    cleanup_cooldowns(&mut cooldowns, 36 * SECOND - 1);
    assert_eq!(cooldowns.answered_at("a"), Some(6 * SECOND));
    cleanup_cooldowns(&mut cooldowns, 36 * SECOND);
    assert_eq!(cooldowns.answered_at("a"), None);
    assert_eq!(cooldowns.answered_at("b"), Some(7 * SECOND));
    cleanup_cooldowns(&mut cooldowns, 0);
    assert_eq!(cooldowns.answered_at("b"), Some(7 * SECOND));
    cleanup_cooldowns(&mut cooldowns, u64::MAX);
    assert_eq!(cooldowns.answered_at("b"), None);
}

#[test]
fn an_unknown_incident_is_left_to_people() {
    let mut cooldowns = Cooldowns::new();
    let rules = vec![answering_rule("r", "disk")];
    let (log, action) = process_incident(&rules, "[ERROR] network", &mut cooldowns, 0, 0);
    assert!(matches!(action, IncidentAction::Investigate));
    assert_eq!(
        log.lines,
        vec![
            "[WATCHER] Incident detected: [ERROR] network",
            "================ INCIDENT ================",
            "[ERROR] network",
            "[MATCH] No known remediation rule found",
            "[MANUAL ACTION] Unknown incident requires investigation",
        ]
    );
    assert_eq!(cooldowns.answered_at("r:[error] network"), None);
}

#[test]
fn a_known_incident_is_repaired_once_in_its_cooldown() {
    let mut cooldowns = Cooldowns::new();
    let rules = vec![answering_rule("R", "disk"), answering_rule("S", "net")];
    let (log, action) = process_incident(&rules, "[ERROR] Disk", &mut cooldowns, SECOND, SECOND);
    match action {
        IncidentAction::Recover { rule } => assert_eq!(rule.id, "R"),
        other => panic!("{:?}", other),
    }
    assert_eq!(log.lines[3], "[MATCH] Confidence score: 65");
    assert_eq!(log.lines.len(), 4);
    assert_eq!(cooldowns.answered_at("r:[error] disk"), Some(SECOND));

    let now = 20 * SECOND;
    let (_, action) = process_incident(&rules, "[ERROR] net", &mut cooldowns, now, now);
    assert!(matches!(action, IncidentAction::Recover { .. }));

    let now = 31 * SECOND - 1;
    let (log, action) = process_incident(&rules, "[error] DISK", &mut cooldowns, now, now);
    assert!(matches!(action, IncidentAction::Skip));
    assert_eq!(log.lines.len(), 4);
    assert_eq!(log.lines[3], "[COOLDOWN] Duplicate incident skipped for rule 'R'");
    assert_eq!(cooldowns.answered_at("r:[error] disk"), Some(SECOND));

    let now = 31 * SECOND;
    let (_, action) = process_incident(&rules, "[ERROR] Disk", &mut cooldowns, now, now);
    assert!(matches!(action, IncidentAction::Recover { .. }));
    assert_eq!(cooldowns.answered_at("r:[error] disk"), Some(31 * SECOND));
}

#[test]
fn a_cooldown_counts_from_the_moment_of_the_answer() {
    let mut cooldowns = Cooldowns::new();
    let rules = vec![answering_rule("r", "disk")];
    let incident = "[ERROR] disk";
    let (_, action) = process_incident(&rules, incident, &mut cooldowns, SECOND, 3 * SECOND);
    assert!(matches!(action, IncidentAction::Recover { .. }));
    assert_eq!(cooldowns.answered_at("r:[error] disk"), Some(3 * SECOND));

    let (_, action) = process_incident(&rules, incident, &mut cooldowns, 31 * SECOND, 40 * SECOND);
    assert!(matches!(action, IncidentAction::Skip));
    assert_eq!(cooldowns.answered_at("r:[error] disk"), Some(3 * SECOND));

    let (_, action) = process_incident(&rules, incident, &mut cooldowns, 33 * SECOND, 34 * SECOND);
    assert!(matches!(action, IncidentAction::Recover { .. }));
    assert_eq!(cooldowns.answered_at("r:[error] disk"), Some(34 * SECOND));
}

#[test]
fn another_incident_of_the_same_rule_is_repaired() {
    let mut cooldowns = Cooldowns::new();
    let rules = vec![answering_rule("r", "disk")];
    process_incident(&rules, "[ERROR] disk sda", &mut cooldowns, 0, 0);
    let (_, action) = process_incident(&rules, "[ERROR] disk sdb", &mut cooldowns, 1, 1);
    assert!(matches!(action, IncidentAction::Recover { .. }));
}

#[test]
fn outcomes_are_reported() {
    let rule = answering_rule("r", "disk");
    assert_eq!(
        report_outcome(&rule, &Ok(()), "2.50s").lines,
        vec!["[RESOLVED] Incident automatically recovered in 2.50s"]
    );
    assert_eq!(
        report_outcome(&rule, &Err("broken".to_string()), "2.50s").lines,
        vec!["[RECOVERY FAILED] broken", "[MANUAL ACTION] Rule 'r' requires intervention"]
    );
}

#[test]
fn times_are_written_with_two_digits() {
    let rule = answering_rule("r", "disk");
    assert_eq!(
        conclude_incident(&rule, &Ok(()), 2_503_000_000).lines,
        vec!["[RESOLVED] Incident automatically recovered in 2.50s"]
    );
    assert_eq!(
        conclude_incident(&rule, &Ok(()), 1_250_000).lines,
        vec!["[RESOLVED] Incident automatically recovered in 1.25ms"]
    );
    assert_eq!(conclude_incident(&rule, &Err("e".to_string()), 7).lines.len(), 2);
}

#[test]
fn the_default_rule_repairs_a_refused_connection() {
    let (rules, _) = aegira::catalog::load_all_rules(Vec::new(), Vec::new());
    let mut cooldowns = Cooldowns::new();
    let incident = "[ERROR] Connection Refused by 10.0.0.1";
    let (log, action) = process_incident(&rules, incident, &mut cooldowns, 0, 0);
    match action {
        IncidentAction::Recover { rule } => assert_eq!(rule.id, "connection_refused"),
        other => panic!("{:?}", other),
    }
    assert_eq!(log.lines[3], "[MATCH] Confidence score: 70");
}
