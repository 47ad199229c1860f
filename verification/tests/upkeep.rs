use aegira::engine::{needs_rotation, readiness_notice, reload_notice, should_reload_rules};
use aegira::paths::{
    builtin_rule_dirs, custom_rule_dirs, project_builtin_rules_dir, project_custom_rules_dir,
};
use aegira::tail::{FileIdentity, LogTail};
use std::path::Path;

const FIRST: FileIdentity = FileIdentity { dev: 1, ino: 10 };
const SECOND_FILE: FileIdentity = FileIdentity { dev: 1, ino: 11 };

#[test]
fn a_file_is_followed_from_its_end() {
    let mut tail = LogTail::new(FIRST, 100);
    assert_eq!(tail.position, 100);
    assert_eq!(tail.partial_line, "");
    let seen = tail.observe(FIRST, 100);
    assert!(!seen.read);
    assert_eq!(seen.notice, None);
    let seen = tail.observe(FIRST, 101);
    assert!(seen.read);
    assert_eq!(seen.notice, None);
    assert_eq!(tail.position, 100);
}

#[test]
fn a_replaced_file_is_read_from_its_beginning() {
    let mut tail = LogTail::new(FIRST, 5);
    tail.accept("begun", 5);
    let seen = tail.observe(SECOND_FILE, 50);
    assert!(seen.read);
    assert_eq!(
        seen.notice.unwrap(),
        "[INFO] Log file replacement detected. Resetting position."
    );
    assert_eq!(tail.position, 0);
    assert_eq!(tail.partial_line, "");
    assert_eq!(tail.identity, SECOND_FILE);
    let seen = tail.observe(FIRST, 0);
    assert!(!seen.read);
    assert!(seen.notice.is_some());
}

#[test]
fn a_truncated_file_is_read_from_its_beginning() {
    let mut tail = LogTail::new(FIRST, 100);
    tail.accept("begun", 5);
    let seen = tail.observe(FIRST, 104);
    assert!(seen.read);
    assert_eq!(seen.notice.unwrap(), "[INFO] Log truncation detected. Resetting position.");
    assert_eq!(tail.position, 0);
    assert_eq!(tail.partial_line, "");
    let seen = tail.observe(FIRST, 0);
    assert!(!seen.read);
    assert_eq!(seen.notice, None);
}

#[test]
fn complete_marked_lines_are_reported() {
    let mut tail = LogTail::new(FIRST, 0);
    assert_eq!(tail.accept("  [ERROR] down \r\n", 17), Some("[ERROR] down".to_string()));
    assert_eq!(tail.accept("[INFO] fine\n", 12), None);
    assert_eq!(tail.accept("[CRITICAL] out\n", 15), Some("[CRITICAL] out".to_string()));
    assert_eq!(tail.accept("\n", 1), None);
    assert_eq!(tail.position, 45);
    assert_eq!(tail.partial_line, "");
}

#[test]
fn a_line_in_pieces_is_reported_as_one() {
    let mut pieces = LogTail::new(FIRST, 0);
    assert_eq!(pieces.accept("[ERR", 4), None);
    assert_eq!(pieces.partial_line, "[ERR");
    assert_eq!(pieces.accept("", 0), None);
    assert_eq!(pieces.accept("OR] dö", 7), None);
    assert_eq!(pieces.accept("wn\n", 3), Some("[ERROR] döwn".to_string()));
    let mut whole = LogTail::new(FIRST, 0);
    assert_eq!(whole.accept("[ERROR] döwn\n", 14), Some("[ERROR] döwn".to_string()));
    assert_eq!(pieces.position, whole.position);
    assert_eq!(pieces.partial_line, whole.partial_line);
}

#[test]
fn rules_are_loaded_anew_after_ten_seconds() {
    assert!(!should_reload_rules(5, 10_000_000_004));
    assert!(should_reload_rules(5, 10_000_000_005));
    assert!(!should_reload_rules(10, 0));
}

#[test]
fn a_large_incident_log_is_rotated() {
    assert!(!needs_rotation(None));
    assert!(!needs_rotation(Some(10 * 1024 * 1024 - 1)));
    assert!(needs_rotation(Some(10 * 1024 * 1024)));
}

#[test]
fn the_number_of_rules_is_announced() {
    assert_eq!(readiness_notice(0), "[WARNING] No valid remediation rules loaded");
    assert_eq!(readiness_notice(12), "[INFO] 12 remediation rules ready");
    assert_eq!(reload_notice(0), "[RULES] Reload complete. Active rules: 0");
    assert_eq!(
        reload_notice(usize::MAX),
        format!("[RULES] Reload complete. Active rules: {}", usize::MAX)
    );
}

#[test]
fn project_directories_stand_in_the_root() {
    assert_eq!(project_builtin_rules_dir(None), None);
    assert_eq!(project_custom_rules_dir(None), None);
    for root in ["/srv/app", "/", "/srv/app/", "", "rel"] {
        let builtin = project_builtin_rules_dir(Some(root.as_bytes().to_vec())).unwrap();
        let expected = Path::new(root).join("rules").join("builtin");
        assert_eq!(builtin, expected.to_str().unwrap().as_bytes());
        let custom = project_custom_rules_dir(Some(root.as_bytes().to_vec())).unwrap();
        let expected = Path::new(root).join("rules").join("custom");
        assert_eq!(custom, expected.to_str().unwrap().as_bytes());
    }
    assert_eq!(
        project_builtin_rules_dir(Some(vec![0x2f, 0xff])).unwrap(),
        [&[0x2f, 0xff][..], b"/rules/builtin"].concat()
    );
}

#[test]
fn project_directories_come_before_those_of_the_system() {
    assert_eq!(
        builtin_rule_dirs(Some(b"/p".to_vec())),
        vec![b"/p/rules/builtin".to_vec(), b"/etc/aegira/rules/builtin".to_vec()]
    );
    assert_eq!(builtin_rule_dirs(None), vec![b"/etc/aegira/rules/builtin".to_vec()]);
    assert_eq!(
        custom_rule_dirs(Some(b"/p".to_vec())),
        vec![b"/p/rules/custom".to_vec(), b"/etc/aegira/rules/custom".to_vec()]
    );
    assert_eq!(custom_rule_dirs(None), vec![b"/etc/aegira/rules/custom".to_vec()]);
}
