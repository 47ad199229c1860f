use aegira::catalog::{
    get_hardcoded_default_rules, load_all_rules, merge_rules, RuleSource, SeenIds,
};
use aegira::file_order::order_files;
use aegira::loading::{
    empty_rule_load_result, frame_rules, is_rule_file_name, load_rules_from_directory,
    DirectoryListing, FileContents, RuleFile, RulesText,
};
use aegira::rule::{validate_rule, Remediation, Rule, Verification};
use aegira::sorting::sort_rules;

fn named_rule(id: &str, name: &str) -> Rule {
    Rule {
        id: id.to_string(),
        name: name.to_string(),
        severity: String::new(),
        error_patterns: vec!["x".to_string()],
        context_patterns: Vec::new(),
        remediation: Remediation::ContainerRestart { container: "web".to_string() },
        verification: Verification::ContainerRunning { container: "web".to_string() },
        priority: 0,
    }
}

fn parsed_file(path: &str, rules: Vec<Rule>) -> RuleFile {
    RuleFile {
        name: path.as_bytes().to_vec(),
        path: path.to_string(),
        contents: FileContents::Parsed { rules },
    }
}

fn source_of(path: &str, files: Vec<RuleFile>) -> RuleSource {
    RuleSource { path: path.to_string(), listing: DirectoryListing::Files { files } }
}

fn ids_of(rules: &[Rule]) -> Vec<String> {
    rules.iter().map(|rule| rule.id.clone()).collect()
}

#[test]
fn rule_texts_are_told_apart() {
    assert!(matches!(frame_rules(""), RulesText::Empty));
    assert!(matches!(frame_rules(" \n\t "), RulesText::Empty));
    match frame_rules("\n [ {} ] \n") {
        RulesText::Many { text } => assert_eq!(text, "[ {} ]"),
        other => panic!("{:?}", other),
    }
    match frame_rules("  {\"id\": [1]}  ") {
        RulesText::One { text } => assert_eq!(text, "{\"id\": [1]}"),
        other => panic!("{:?}", other),
    }
}

#[test]
fn rule_files_end_in_json() {
    for name in ["a.json", "..json", "a.b.json", "a.json.json", " .json"] {
        assert!(is_rule_file_name(&name.as_bytes().to_vec()), "{}", name);
    }
    for name in ["a.JSON", ".json", "a.json.bak", "a.json5", "ajson", "json", "a.", ""] {
        assert!(!is_rule_file_name(&name.as_bytes().to_vec()), "{}", name);
    }
    assert!(is_rule_file_name(&b"\xff.json".to_vec()));
}

#[test]
fn an_empty_result_is_empty() {
    let result = empty_rule_load_result();
    assert!(result.rules.is_empty());
    assert_eq!(result.json_files_found, 0);
    assert_eq!(result.parse_errors, 0);
}

#[test]
fn a_missing_directory_yields_nothing() {
    let (result, log) = load_rules_from_directory("/rules", DirectoryListing::Missing);
    assert!(result.rules.is_empty());
    assert_eq!(result.json_files_found, 0);
    assert_eq!(result.parse_errors, 0);
    assert!(log.lines.is_empty());
}

#[test]
fn an_unreadable_directory_is_an_error() {
    let listing = DirectoryListing::Unreadable { error: "denied".to_string() };
    let (result, log) = load_rules_from_directory("/rules", listing);
    assert!(result.rules.is_empty());
    assert_eq!(result.json_files_found, 0);
    assert_eq!(result.parse_errors, 1);
    assert_eq!(log.lines, vec!["[RULES ERROR] Failed to read /rules: denied"]);
}

#[test]
fn files_are_gathered_and_errors_counted() {
    let files = vec![
        parsed_file("a.json", vec![named_rule("one", "One"), named_rule("two", " ")]),
        RuleFile {
            name: b"b.json".to_vec(),
            path: "b.json".to_string(),
            contents: FileContents::Unreadable { error: "gone".to_string() },
        },
        RuleFile {
            name: b"c.json".to_vec(),
            path: "c.json".to_string(),
            contents: FileContents::Malformed { error: "bad".to_string() },
        },
        parsed_file("d.json", Vec::new()),
        parsed_file("e.json", vec![named_rule("", "x"), named_rule("three", "Three")]),
    ];
    let (result, log) = load_rules_from_directory("/rules", DirectoryListing::Files { files });
    assert_eq!(ids_of(&result.rules), vec!["one", "three"]);
    assert_eq!(result.json_files_found, 5);
    assert_eq!(result.parse_errors, 4);
    assert_eq!(
        log.lines,
        vec![
            "[RULES ERROR] Invalid rule in a.json: Rule 'two' has an empty name",
            "[RULES ERROR] Failed reading b.json: gone",
            "[RULES ERROR] Invalid JSON c.json: bad",
            "[RULES ERROR] Invalid rule in e.json: Rule id cannot be empty",
        ]
    );
}

#[test]
fn only_rule_files_count() {
    let unreadable = |name: &[u8]| RuleFile {
        name: name.to_vec(),
        path: "/rules/x".to_string(),
        contents: FileContents::Unreadable { error: "gone".to_string() },
    };
    let files = vec![
        parsed_file("a.JSON", vec![named_rule("one", "One")]),
        unreadable(b"notes.txt"),
        parsed_file("b.json", vec![named_rule("two", "Two")]),
        parsed_file(".json", vec![named_rule("", "")]),
        unreadable(b"\xff.json"),
        parsed_file("b.json.bak", vec![named_rule("three", "Three")]),
        parsed_file("a.json", Vec::new()),
    ];
    let (result, log) = load_rules_from_directory("/rules", DirectoryListing::Files { files });
    assert_eq!(ids_of(&result.rules), vec!["two"]);
    assert_eq!(result.json_files_found, 3);
    assert_eq!(result.parse_errors, 1);
    assert_eq!(log.lines, vec!["[RULES ERROR] Failed reading /rules/x: gone"]);

    let files = vec![parsed_file("rules.JSON", vec![named_rule("one", "One")])];
    let (rules, _) = load_all_rules(vec![source_of("/s", files)], Vec::new());
    assert_eq!(ids_of(&rules), vec!["connection_refused"]);
}

#[test]
fn files_are_taken_in_the_order_of_their_names() {
    let named = |name: &[u8], id: &str| RuleFile {
        name: name.to_vec(),
        path: "/rules/x".to_string(),
        contents: FileContents::Parsed { rules: vec![named_rule(id, id)] },
    };
    let files = vec![
        named(b"b.json", "4"),
        named(b"a-b.json", "2"),
        named(b"\xff.json", "6"),
        named(b"B.json", "1"),
        named(b"a.json", "3"),
        named(b"b.json.json", "5"),
    ];
    let ordered: Vec<Vec<u8>> = order_files(files).into_iter().map(|file| file.name).collect();
    let mut expected = ordered.clone();
    expected.sort();
    assert_eq!(ordered, expected);
    assert_eq!(ordered[0], b"B.json".to_vec());
    assert_eq!(ordered[5], b"\xff.json".to_vec());

    let files = vec![named(b"b.json", "4"), named(b"a.json", "3"), named(b"B.json", "1")];
    let (result, _) = load_rules_from_directory("/rules", DirectoryListing::Files { files });
    assert_eq!(ids_of(&result.rules), vec!["1", "3", "4"]);
    assert_eq!(result.json_files_found, 3);
}

#[test]
fn the_file_whose_name_comes_first_wins() {
    let files = || {
        vec![
            parsed_file("20.json", vec![named_rule("web", "late"), named_rule("", "")]),
            parsed_file("10.json", vec![named_rule("WEB", "early"), named_rule("", "")]),
        ]
    };
    let mut turned = files();
    turned.reverse();
    let (rules, log) = load_all_rules(vec![source_of("/s", files())], Vec::new());
    assert_eq!(rules.len(), 1);
    assert_eq!(rules[0].name, "early");
    assert_eq!(log.lines[1], "[RULES ERROR] Invalid rule in 10.json: Rule id cannot be empty");
    let (again, again_log) = load_all_rules(vec![source_of("/s", turned)], Vec::new());
    assert_eq!(again[0].name, "early");
    assert_eq!(log.lines, again_log.lines);
}

#[test]
fn the_default_rule_is_as_written_and_valid() {
    let rules = get_hardcoded_default_rules();
    assert_eq!(rules.len(), 1);
    let rule = &rules[0];
    assert_eq!(rule.id, "connection_refused");
    assert_eq!(rule.name, "Connection Refused");
    assert_eq!(rule.severity, "high");
    assert_eq!(rule.error_patterns, vec!["connection refused"]);
    assert!(rule.context_patterns.is_empty());
    assert!(matches!(&rule.remediation, Remediation::ServiceRestart { service } if service == "cron"));
    assert!(matches!(&rule.verification, Verification::ServiceActive { service } if service == "cron"));
    assert_eq!(rule.priority, 10);
    assert_eq!(validate_rule(rule), Ok(()));
}

#[test]
fn seen_ids_are_remembered() {
    let mut seen = SeenIds::new();
    assert!(seen.insert("a".to_string()));
    assert!(!seen.insert("a".to_string()));
    assert!(seen.insert("A".to_string()));
}

#[test]
fn the_first_rule_under_an_id_is_kept() {
    let mut rules = vec![named_rule("old", "Old")];
    let mut seen = SeenIds::new();
    seen.insert("old".to_string());
    let incoming = vec![
        named_rule(" OLD ", "again"),
        named_rule("new", "first"),
        named_rule("New", "second"),
        named_rule("last", "last"),
    ];
    let log = merge_rules(&mut rules, &mut seen, incoming, "/etc/rules");
    assert_eq!(ids_of(&rules), vec!["old", "new", "last"]);
    assert_eq!(rules[1].name, "first");
    assert_eq!(
        log.lines,
        vec![
            "[RULES ERROR] Duplicate rule ID ' OLD ' ignored from /etc/rules",
            "[RULES] Loaded: new",
            "[RULES ERROR] Duplicate rule ID 'New' ignored from /etc/rules",
            "[RULES] Loaded: last",
        ]
    );
    assert!(!seen.insert("new".to_string()));
    assert!(!seen.insert("last".to_string()));
}

#[test]
fn sorting_is_by_id_and_stable() {
    let sorted = sort_rules(vec![
        named_rule("b", "1"),
        named_rule("C", "2"),
        named_rule("a", "3"),
        named_rule("B", "4"),
        named_rule("aa", "5"),
        named_rule("b", "6"),
    ]);
    let order: Vec<(String, String)> =
        sorted.into_iter().map(|rule| (rule.id, rule.name)).collect();
    let expected: Vec<(String, String)> =
        vec![("a", "3"), ("aa", "5"), ("b", "1"), ("B", "4"), ("b", "6"), ("C", "2")]
            .into_iter()
            .map(|(id, name)| (id.to_string(), name.to_string()))
            .collect();
    assert_eq!(order, expected);
}

#[test]
fn without_rule_files_the_default_is_used() {
    let missing = RuleSource { path: "/p".to_string(), listing: DirectoryListing::Missing };
    let (rules, log) = load_all_rules(vec![missing, source_of("/s", Vec::new())], Vec::new());
    assert_eq!(ids_of(&rules), vec!["connection_refused"]);
    assert_eq!(
        log.lines,
        vec![
            "[RULES] Loading built-in rules...",
            "[RULES] No built-in JSON rules found. Loading bootstrap fallback rule.",
            "[RULES] Loaded fallback: connection_refused",
            "[RULES] Active built-in rules: 1",
        ]
    );
}

#[test]
fn files_without_a_valid_rule_give_no_rules() {
    let broken = source_of("/s", vec![parsed_file("a.json", vec![named_rule("", "")])]);
    let (rules, log) = load_all_rules(vec![broken], Vec::new());
    assert!(rules.is_empty());
    assert_eq!(
        log.lines,
        vec![
            "[RULES] Loading built-in rules...",
            "[RULES ERROR] Invalid rule in a.json: Rule id cannot be empty",
            "[RULES ERROR] Built-in rule files exist but none are valid.",
            "[RULES] Active built-in rules: 0",
        ]
    );
}

#[test]
fn empty_files_without_errors_give_no_rules_and_no_complaint() {
    let empty = source_of("/s", vec![parsed_file("a.json", Vec::new())]);
    let (rules, log) = load_all_rules(vec![empty], Vec::new());
    assert!(rules.is_empty());
    assert_eq!(
        log.lines,
        vec!["[RULES] Loading built-in rules...", "[RULES] Active built-in rules: 0"]
    );
}

#[test]
fn earlier_sources_win_and_rules_are_sorted() {
    let project = source_of("/p", vec![parsed_file("p.json", vec![named_rule("Web", "project")])]);
    let system = source_of(
        "/s",
        vec![parsed_file("s.json", vec![named_rule("web", "system"), named_rule("api", "system")])],
    );
    let (rules, log) = load_all_rules(vec![project, system], Vec::new());
    assert_eq!(ids_of(&rules), vec!["api", "Web"]);
    assert_eq!(rules[1].name, "project");
    assert_eq!(
        log.lines,
        vec![
            "[RULES] Loading built-in rules...",
            "[RULES] Loaded: Web",
            "[RULES ERROR] Duplicate rule ID 'web' ignored from /s",
            "[RULES] Loaded: api",
            "[RULES] Active built-in rules: 2",
        ]
    );
}

#[test]
fn custom_rules_are_reported_and_left_out() {
    let builtin = || source_of("/b", vec![parsed_file("b.json", vec![named_rule("b", "B")])]);
    let customs = vec![
        RuleSource { path: "/pc".to_string(), listing: DirectoryListing::Missing },
        source_of(
            "/c",
            vec![parsed_file("c.json", vec![named_rule("c", "C"), named_rule("d", "")])],
        ),
    ];
    let (plain, _) = load_all_rules(vec![builtin()], Vec::new());
    let (rules, log) = load_all_rules(vec![builtin()], customs);
    assert_eq!(ids_of(&rules), ids_of(&plain));
    assert_eq!(
        log.lines,
        vec![
            "[RULES] Loading built-in rules...",
            "[RULES] Loaded: b",
            "[RULES ERROR] Invalid rule in c.json: Rule 'd' has an empty name",
            "[UPGRADE REQUIRED] Custom rules are not available in Aegira Free.",
            "[RULES] Active built-in rules: 1",
        ]
    );
}

#[test]
fn the_number_of_rules_is_written_in_decimal() {
    let many: Vec<Rule> = (0..120).map(|n| named_rule(&format!("rule{:03}", n), "r")).collect();
    let (rules, log) = load_all_rules(vec![source_of("/s", vec![parsed_file("a.json", many)])], Vec::new());
    assert_eq!(rules.len(), 120);
    assert_eq!(log.lines.last().unwrap(), "[RULES] Active built-in rules: 120");
}
