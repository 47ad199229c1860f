use aegira::matching::{calculate_match_score, contains_case_insensitive, find_best_rule};
use aegira::rule::{Remediation, Rule, Verification};

fn pattern_rule(id: &str, errors: &[&str], contexts: &[&str], priority: i32) -> Rule {
    Rule {
        id: id.to_string(),
        name: id.to_string(),
        severity: String::new(),
        error_patterns: errors.iter().map(|s| s.to_string()).collect(),
        context_patterns: contexts.iter().map(|s| s.to_string()).collect(),
        remediation: Remediation::ServiceRestart { service: "cron".to_string() },
        verification: Verification::ServiceActive { service: "cron".to_string() },
        priority,
    }
}

#[test]
fn case_is_ignored_when_patterns_are_looked_for() {
    assert!(contains_case_insensitive("[ERROR] Connection REFUSED by host", "connection refused"));
    assert!(contains_case_insensitive("connection refused", "Connection Refused"));
    assert!(!contains_case_insensitive("connection", "connection refused"));
    assert!(contains_case_insensitive("anything", ""));
    assert!(contains_case_insensitive("GRÖSSE", "größe".to_uppercase().as_str()));
    assert!(contains_case_insensitive("ÜBER", "über"));
    assert!(!contains_case_insensitive("aab", "ba"));
}

#[test]
fn scores_are_exact() {
    let rule = pattern_rule("r", &["disk", "full", "inode"], &["var", "log"], 0);
    assert_eq!(calculate_match_score(&rule, "network down"), None);
    assert_eq!(calculate_match_score(&rule, "var log"), None);
    assert_eq!(calculate_match_score(&rule, "DISK"), Some(60));
    assert_eq!(calculate_match_score(&rule, "disk full"), Some(70));
    assert_eq!(calculate_match_score(&rule, "disk full inode"), Some(80));
    assert_eq!(calculate_match_score(&rule, "disk on /var"), Some(70));
    assert_eq!(calculate_match_score(&rule, "disk full inode /var/log"), Some(100));
}

#[test]
fn priorities_count_up_to_twenty() {
    assert_eq!(calculate_match_score(&pattern_rule("r", &["x"], &[], 7), "x"), Some(67));
    assert_eq!(calculate_match_score(&pattern_rule("r", &["x"], &[], 20), "x"), Some(80));
    assert_eq!(calculate_match_score(&pattern_rule("r", &["x"], &[], i32::MAX), "x"), Some(80));
    assert_eq!(calculate_match_score(&pattern_rule("r", &["x"], &[], -5), "x"), Some(55));
    assert_eq!(calculate_match_score(&pattern_rule("r", &["x"], &[], i32::MIN), "x"), Some(40));
}

#[test]
fn scores_stop_at_one_hundred() {
    let errors: Vec<&str> = vec!["x"; 50];
    assert_eq!(calculate_match_score(&pattern_rule("r", &errors, &[], -20), "x"), Some(100));
}

#[test]
fn the_best_rule_is_found() {
    let rules = vec![
        pattern_rule("a", &["refused"], &[], 0),
        pattern_rule("b", &["refused"], &["db"], 0),
        pattern_rule("c", &["timeout"], &[], 20),
    ];
    let (rule, score) = find_best_rule(&rules, "[ERROR] refused by DB").unwrap();
    assert_eq!(rule.id, "b");
    assert_eq!(score, 70);
    assert!(find_best_rule(&rules, "[ERROR] segfault").is_none());
    assert!(find_best_rule(&[], "[ERROR] refused").is_none());
}

#[test]
fn a_score_below_sixty_is_no_answer() {
    let rules = vec![pattern_rule("a", &["x"], &[], -1)];
    assert!(find_best_rule(&rules, "x").is_none());
    let rules = vec![pattern_rule("a", &["x"], &["y"], -10)];
    assert_eq!(find_best_rule(&rules, "x y").unwrap().1, 60);
}

#[test]
fn ties_go_to_the_first_id() {
    let rules = vec![
        pattern_rule("beta", &["x"], &[], 0),
        pattern_rule("Alpha", &["x"], &[], 0),
        pattern_rule("gamma", &["x"], &[], 0),
    ];
    assert_eq!(find_best_rule(&rules, "x").unwrap().0.id, "Alpha");
    let swapped = vec![
        pattern_rule("gamma", &["x"], &[], 0),
        pattern_rule("Alpha", &["x"], &[], 0),
        pattern_rule("beta", &["x"], &[], 0),
    ];
    assert_eq!(find_best_rule(&swapped, "x").unwrap().0.id, "Alpha");
}

#[test]
fn ties_between_equal_ids_go_to_the_first_rule() {
    let mut second = pattern_rule("SAME", &["x"], &[], 0);
    second.name = "second".to_string();
    let rules = vec![pattern_rule("same", &["x"], &[], 0), second];
    assert_eq!(find_best_rule(&rules, "x").unwrap().0.name, "same");
}

#[test]
fn a_prefix_and_a_smaller_code_point_come_first() {
    let rules = vec![pattern_rule("ab", &["x"], &[], 0), pattern_rule("a", &["x"], &[], 0)];
    assert_eq!(find_best_rule(&rules, "x").unwrap().0.id, "a");
    let rules = vec![pattern_rule("é", &["x"], &[], 0), pattern_rule("z", &["x"], &[], 0)];
    assert_eq!(find_best_rule(&rules, "x").unwrap().0.id, "z");
    let rules = vec![pattern_rule("\u{10000}", &["x"], &[], 0), pattern_rule("\u{ffee}", &["x"], &[], 0)];
    assert_eq!(find_best_rule(&rules, "x").unwrap().0.id, "\u{ffee}");
}

#[test]
fn case_of_the_incident_changes_nothing() {
    let rules = vec![
        pattern_rule("a", &["Refused"], &[], 3),
        pattern_rule("b", &["refused"], &["Db"], 0),
    ];
    let low = find_best_rule(&rules, "refused db").unwrap();
    let high = find_best_rule(&rules, "REFUSED DB").unwrap();
    assert_eq!(low.0.id, high.0.id);
    assert_eq!(low.1, high.1);
}
