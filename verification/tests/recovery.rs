use aegira::command::{
    command_notice, docker_binary, execute_command, find_binary, systemctl_binary, Candidate,
    CommandPoll, CommandStep, InstalledBinaries, COMMAND_TIMEOUT_NANOS,
};
use aegira::recovery::{
    after_remediation, after_verification, judge_verification, perform_remediation,
    recover_with_rule, verify_recovery, CommandOutput, RecoveryStep,
};
use aegira::rule::{Remediation, Rule, Verification};

const NONE: InstalledBinaries = InstalledBinaries {
    systemctl_in_usr_bin: false,
    systemctl_in_bin: false,
    docker_in_usr_bin: false,
    docker_in_bin: false,
    docker_in_usr_local_bin: false,
};

const ALL: InstalledBinaries = InstalledBinaries {
    systemctl_in_usr_bin: true,
    systemctl_in_bin: true,
    docker_in_usr_bin: true,
    docker_in_bin: true,
    docker_in_usr_local_bin: true,
};

fn service_restart(service: &str) -> Remediation {
    Remediation::ServiceRestart { service: service.to_string() }
}

fn printed(success: bool, stdout: &[u8]) -> Result<CommandOutput, String> {
    Ok(CommandOutput { success, stdout: stdout.to_vec() })
}

#[test]
fn the_first_place_with_a_file_is_taken() {
    let candidates = [
        Candidate { path: "/a", present: false },
        Candidate { path: "/b", present: true },
        Candidate { path: "/c", present: true },
    ];
    assert_eq!(find_binary(&candidates), Ok("/b"));
    assert_eq!(
        find_binary(&candidates[..1]),
        Err("Required binary not found. Checked: /a".to_string())
    );
    assert_eq!(find_binary(&[]), Err("Required binary not found. Checked: ".to_string()));
}

#[test]
fn programs_are_looked_for_in_order() {
    assert_eq!(systemctl_binary(&ALL), Ok("/usr/bin/systemctl"));
    assert_eq!(
        systemctl_binary(&InstalledBinaries { systemctl_in_bin: true, ..NONE }),
        Ok("/bin/systemctl")
    );
    assert_eq!(
        systemctl_binary(&NONE),
        Err("Required binary not found. Checked: /usr/bin/systemctl, /bin/systemctl".to_string())
    );
    assert_eq!(docker_binary(&ALL), Ok("/usr/bin/docker"));
    assert_eq!(
        docker_binary(&InstalledBinaries { docker_in_bin: true, docker_in_usr_local_bin: true, ..NONE }),
        Ok("/bin/docker")
    );
    assert_eq!(
        docker_binary(&InstalledBinaries { docker_in_usr_local_bin: true, ..NONE }),
        Ok("/usr/local/bin/docker")
    );
    assert_eq!(
        docker_binary(&NONE),
        Err("Required binary not found. Checked: /usr/bin/docker, /bin/docker, /usr/local/bin/docker"
            .to_string())
    );
}

#[test]
fn commands_are_announced() {
    let args = vec!["restart".to_string(), "cron".to_string()];
    assert_eq!(command_notice("/bin/systemctl", &args), "[EXEC] /bin/systemctl restart cron");
    assert_eq!(command_notice("/bin/true", &Vec::new()), "[EXEC] /bin/true ");
}

#[test]
fn commands_end_as_they_are_seen() {
    let end = |poll: CommandPoll| match execute_command("/bin/x", &poll) {
        CommandStep::Finish { outcome } => outcome,
        other => panic!("{:?}", other),
    };
    assert_eq!(end(CommandPoll::Exited { success: true, status: "exit status: 0".to_string() }), Ok(()));
    assert_eq!(
        end(CommandPoll::Exited { success: false, status: "exit status: 3".to_string() }),
        Err("/bin/x exited with status exit status: 3".to_string())
    );
    assert_eq!(
        end(CommandPoll::NotStarted { error: "no such file".to_string() }),
        Err("Failed to start /bin/x: no such file".to_string())
    );
    assert_eq!(
        end(CommandPoll::Lost { error: "no child".to_string() }),
        Err("Failed waiting for /bin/x: no child".to_string())
    );
}

#[test]
fn a_command_is_given_up_after_twenty_seconds() {
    assert_eq!(COMMAND_TIMEOUT_NANOS, 20_000_000_000);
    assert!(matches!(
        execute_command("/bin/x", &CommandPoll::Running { elapsed: 19_999_999_999 }),
        CommandStep::Wait
    ));
    match execute_command("/bin/x", &CommandPoll::Running { elapsed: 20_000_000_000 }) {
        CommandStep::Kill { error } => assert_eq!(error, "/bin/x timed out after 20 seconds"),
        other => panic!("{:?}", other),
    }
}

#[test]
fn services_and_containers_are_restarted() {
    let plan = perform_remediation(&service_restart(" nginx "), &ALL).unwrap();
    assert_eq!(plan.notice, "[RECOVERY] Restarting service:  nginx ");
    assert_eq!(plan.executable, "/usr/bin/systemctl");
    assert_eq!(plan.args, vec!["restart", "nginx"]);

    let container = Remediation::ContainerRestart { container: "web\n".to_string() };
    let plan = perform_remediation(&container, &ALL).unwrap();
    assert_eq!(plan.notice, "[RECOVERY] Restarting container: web\n");
    assert_eq!(plan.executable, "/usr/bin/docker");
    assert_eq!(plan.args, vec!["restart", "web"]);
}

#[test]
fn the_engine_is_not_restarted() {
    for name in ["aegira", " AEGIRA.service"] {
        assert_eq!(
            perform_remediation(&service_restart(name), &ALL).unwrap_err(),
            "Refusing remediation: rule attempts to restart Aegira itself"
        );
    }
    assert_eq!(
        perform_remediation(&service_restart("aegira"), &NONE).unwrap_err(),
        "Refusing remediation: rule attempts to restart Aegira itself"
    );
}

#[test]
fn without_its_program_nothing_is_restarted() {
    let docker_only = InstalledBinaries { docker_in_usr_bin: true, ..NONE };
    assert_eq!(
        perform_remediation(&service_restart("nginx"), &docker_only).unwrap_err(),
        "Required binary not found. Checked: /usr/bin/systemctl, /bin/systemctl"
    );
    let container = Remediation::ContainerRestart { container: "web".to_string() };
    assert!(perform_remediation(&container, &docker_only).is_ok());
}

#[test]
fn checks_are_planned() {
    let service = Verification::ServiceActive { service: "cron ".to_string() };
    let plan = verify_recovery(&service, &ALL).unwrap();
    assert_eq!(plan.notice, "[VERIFY] Checking service: cron ");
    assert_eq!(plan.executable, "/usr/bin/systemctl");
    assert_eq!(plan.args, vec!["is-active", "cron"]);
    let verdict = verify_recovery(&service, &NONE).unwrap_err();
    assert!(!verdict.healthy);
    assert_eq!(
        verdict.line,
        "[VERIFY ERROR] Required binary not found. Checked: /usr/bin/systemctl, /bin/systemctl"
    );

    let container = Verification::ContainerRunning { container: " web".to_string() };
    let plan = verify_recovery(&container, &ALL).unwrap();
    assert_eq!(plan.notice, "[VERIFY] Checking container:  web");
    assert_eq!(plan.executable, "/usr/bin/docker");
    assert_eq!(plan.args, vec!["inspect", "-f", "{{.State.Running}}", "web"]);
    assert!(!verify_recovery(&container, &NONE).unwrap_err().healthy);
}

#[test]
fn checks_are_judged_by_what_is_printed() {
    let service = Verification::ServiceActive { service: "cron".to_string() };
    let verdict = judge_verification(&service, &printed(true, b"active\n"));
    assert!(verdict.healthy);
    assert_eq!(verdict.line, "[VERIFY] Service is active");
    for (success, stdout) in
        [(false, "active\n"), (true, "inactive\n"), (true, "Active"), (true, ""), (true, "true")]
    {
        let verdict = judge_verification(&service, &printed(success, stdout.as_bytes()));
        assert!(!verdict.healthy, "{}", stdout);
        assert_eq!(verdict.line, "[VERIFY] Service is NOT active");
    }

    let container = Verification::ContainerRunning { container: "web".to_string() };
    let verdict = judge_verification(&container, &printed(true, b" true \r\n"));
    assert!(verdict.healthy);
    assert_eq!(verdict.line, "[VERIFY] Container is running");
    let verdict = judge_verification(&container, &printed(true, b"false\n"));
    assert!(!verdict.healthy);
    assert_eq!(verdict.line, "[VERIFY] Container is NOT running");

    let verdict = judge_verification(&container, &Err("denied".to_string()));
    assert!(!verdict.healthy);
    assert_eq!(verdict.line, "[VERIFY ERROR] denied");
}

#[test]
fn bytes_that_are_no_text_are_not_healthy() {
    let service = Verification::ServiceActive { service: "cron".to_string() };
    assert!(!judge_verification(&service, &printed(true, b"active\xff")).healthy);
    assert!(judge_verification(&service, &printed(true, "\u{2003}active".as_bytes())).healthy);
}

#[test]
fn a_repair_begins_with_the_rule() {
    let mut rule = Rule {
        id: "r1".to_string(),
        name: "Rule one".to_string(),
        severity: "high".to_string(),
        error_patterns: vec!["x".to_string()],
        context_patterns: Vec::new(),
        remediation: service_restart("nginx"),
        verification: Verification::ServiceActive { service: "nginx".to_string() },
        priority: 0,
    };
    let (log, plan) = recover_with_rule(&rule, &ALL);
    assert_eq!(
        log.lines,
        vec!["[MATCH] Rule: Rule one", "[MATCH] Rule ID: r1", "[MATCH] Severity: high"]
    );
    assert_eq!(plan.unwrap().args, vec!["restart", "nginx"]);
    rule.severity = "  ".to_string();
    let (log, plan) = recover_with_rule(&rule, &NONE);
    assert_eq!(log.lines, vec!["[MATCH] Rule: Rule one", "[MATCH] Rule ID: r1"]);
    assert!(plan.is_err());
}

#[test]
fn a_failed_command_ends_the_repair() {
    match after_remediation(Err("broken".to_string())) {
        RecoveryStep::Finish { outcome } => assert_eq!(outcome, Err("broken".to_string())),
        other => panic!("{:?}", other),
    }
    match after_remediation(Ok(())) {
        RecoveryStep::Verify { attempt, delay_secs, notice } => {
            assert_eq!(attempt, 1);
            assert_eq!(delay_secs, 2);
            assert_eq!(notice, "[VERIFY] Verification attempt 1/5");
        }
        other => panic!("{:?}", other),
    }
}

#[test]
fn checks_are_repeated_five_times() {
    let mut step = after_remediation(Ok(()));
    let mut notices = Vec::new();
    let outcome = loop {
        match step {
            RecoveryStep::Verify { attempt, notice, .. } => {
                notices.push(notice);
                step = after_verification(attempt, false);
            }
            RecoveryStep::Finish { outcome } => break outcome,
        }
    };
    assert_eq!(outcome, Err("Remediation executed but health verification failed".to_string()));
    assert_eq!(notices.len(), 5);
    assert_eq!(notices[4], "[VERIFY] Verification attempt 5/5");
}

/// Runs the checks of a repair, and says how it ends and how many were made.
fn checked_repair(
    verification: &Verification,
    found: &[InstalledBinaries],
    outputs: &[Result<CommandOutput, String>],
) -> (Result<(), String>, usize) {
    let mut step = after_remediation(Ok(()));
    let mut made = 0;
    loop {
        match step {
            RecoveryStep::Finish { outcome } => return (outcome, made),
            RecoveryStep::Verify { attempt, .. } => {
                let verdict = match verify_recovery(verification, &found[made]) {
                    Err(verdict) => verdict,
                    Ok(_) => judge_verification(verification, &outputs[made]),
                };
                made += 1;
                step = after_verification(attempt, verdict.healthy);
            }
        }
    }
}

#[test]
fn a_repair_succeeds_where_health_is_shown() {
    let service = Verification::ServiceActive { service: "cron".to_string() };
    let failed = Err("Remediation executed but health verification failed".to_string());
    let outputs = || {
        vec![
            printed(true, b"inactive"),
            Err("denied".to_string()),
            printed(true, b"active"),
            printed(false, b"active"),
            printed(true, b"active"),
        ]
    };
    assert_eq!(checked_repair(&service, &[ALL, ALL, ALL, ALL, ALL], &outputs()), (Ok(()), 3));
    assert_eq!(checked_repair(&service, &[ALL, ALL, NONE, ALL, ALL], &outputs()), (Ok(()), 5));
    assert_eq!(
        checked_repair(&service, &[ALL, ALL, NONE, ALL, NONE], &outputs()),
        (failed.clone(), 5)
    );
    assert_eq!(checked_repair(&service, &[NONE, NONE, NONE, NONE, NONE], &outputs()), (failed, 5));
}

#[test]
fn a_good_check_ends_the_repair() {
    for attempt in 1..=5 {
        match after_verification(attempt, true) {
            RecoveryStep::Finish { outcome } => assert_eq!(outcome, Ok(())),
            other => panic!("{:?}", other),
        }
    }
}
