//! Repairs: which command makes one, which command checks it, and when it is
//! believed.

use vstd::prelude::*;
use vstd::utf8::{decode_utf8, valid_utf8};
use crate::command::{docker_binary, docker_place, systemctl_binary, systemctl_place, CommandPlan,
    InstalledBinaries, PlanView};
use crate::rule::{is_aegira_service, is_self, non_empty, valid_rule, Remediation, RemediationView,
    Rule, RuleView, Verification, VerificationView};
use crate::text::{blank, decimal, decimal_text, lossy_text, lowercase, padding_is_trimmed,
    same_text, text_from_bytes, texts, texts_are_joined_one_by_one, trimmed,
    trimmed_is_empty_only_for_blank, trimming_is_idempotent, trimming_keeps_other_characters,
    white_space, without_suffixes, Log};

verus! {

/// How often a repair is checked at most.
pub const MAX_VERIFY_ATTEMPTS: u32 = 5;

/// How long to wait before a repair is checked, in seconds.
pub const VERIFY_DELAY_SECS: u64 = 2;

/// What a repair consists in, or why there is none.
pub open spec fn remediation_plan(
    remediation: RemediationView,
    installed: InstalledBinaries,
) -> Result<PlanView, Seq<char>> {
    match remediation {
        RemediationView::ServiceRestart { service } => if is_self(service) {
            Err("Refusing remediation: rule attempts to restart Aegira itself"@)
        } else {
            match systemctl_place(installed) {
                Ok(systemctl) => Ok(
                    PlanView {
                        notice: "[RECOVERY] Restarting service: "@ + service,
                        executable: systemctl,
                        args: seq!["restart"@, trimmed(service)],
                    },
                ),
                Err(error) => Err(error),
            }
        },
        RemediationView::ContainerRestart { container } => match docker_place(installed) {
            Ok(docker) => Ok(
                PlanView {
                    notice: "[RECOVERY] Restarting container: "@ + container,
                    executable: docker,
                    args: seq!["restart"@, trimmed(container)],
                },
            ),
            Err(error) => Err(error),
        },
    }
}

/// The result says what the plan says.
pub open spec fn is_plan(
    r: Result<CommandPlan, String>,
    plan: Result<PlanView, Seq<char>>,
) -> bool {
    match plan {
        Ok(plan) => r is Ok && r->Ok_0@ == plan,
        Err(error) => r is Err && r->Err_0@ == error,
    }
}

fn two_args(first: &str, second: &str) -> (r: Vec<String>)
    ensures
        texts(r@) == seq![first@, second@],
{
    let mut args: Vec<String> = Vec::new();
    args.push(first.to_owned());
    args.push(second.to_owned());
    assert(texts(args@) == seq![first@, second@]);
    args
}

/// The command that makes a repair. The engine itself is never restarted.
pub fn perform_remediation(
    remediation: &Remediation,
    installed: &InstalledBinaries,
) -> (r: Result<CommandPlan, String>)
    ensures
        is_plan(r, remediation_plan(remediation@, *installed)),
{
    match remediation {
        Remediation::ServiceRestart { service } => {
            if is_aegira_service(service.as_str()) {
                return Err(
                    "Refusing remediation: rule attempts to restart Aegira itself".to_owned(),
                );
            }
            match systemctl_binary(installed) {
                Ok(systemctl) => Ok(
                    CommandPlan {
                        notice: "[RECOVERY] Restarting service: ".to_owned().concat(
                            service.as_str(),
                        ),
                        executable: systemctl.to_owned(),
                        args: two_args("restart", service.as_str().trim()),
                    },
                ),
                Err(error) => Err(error),
            }
        },
        Remediation::ContainerRestart { container } => {
            match docker_binary(installed) {
                Ok(docker) => Ok(
                    CommandPlan {
                        notice: "[RECOVERY] Restarting container: ".to_owned().concat(
                            container.as_str(),
                        ),
                        executable: docker.to_owned(),
                        args: two_args("restart", container.as_str().trim()),
                    },
                ),
                Err(error) => Err(error),
            }
        },
    }
}

/// What a check consists in, or what the log says where there is none.
pub open spec fn verification_plan(
    verification: VerificationView,
    installed: InstalledBinaries,
) -> Result<PlanView, Seq<char>> {
    match verification {
        VerificationView::ServiceActive { service } => match systemctl_place(installed) {
            Ok(systemctl) => Ok(
                PlanView {
                    notice: "[VERIFY] Checking service: "@ + service,
                    executable: systemctl,
                    args: seq!["is-active"@, trimmed(service)],
                },
            ),
            Err(error) => Err("[VERIFY ERROR] "@ + error),
        },
        VerificationView::ContainerRunning { container } => match docker_place(installed) {
            Ok(docker) => Ok(
                PlanView {
                    notice: "[VERIFY] Checking container: "@ + container,
                    executable: docker,
                    args: seq!["inspect"@, "-f"@, "{{.State.Running}}"@, trimmed(container)],
                },
            ),
            Err(error) => Err("[VERIFY ERROR] "@ + error),
        },
    }
}

/// What a check has printed, and whether its command was successful.
#[derive(Debug)]
pub struct CommandOutput {
    pub success: bool,
    pub stdout: Vec<u8>,
}

/// What a check has shown, and what the log says of it.
#[derive(Debug)]
pub struct Verdict {
    pub healthy: bool,
    pub line: String,
}

/// A check that could not be made has failed.
fn no_check(error: &str) -> (r: Verdict)
    ensures
        !r.healthy,
        r.line@ == "[VERIFY ERROR] "@ + error@,
{
    Verdict { healthy: false, line: "[VERIFY ERROR] ".to_owned().concat(error) }
}

/// The command that checks a repair. Where there is none, the check has failed.
pub fn verify_recovery(
    verification: &Verification,
    installed: &InstalledBinaries,
) -> (r: Result<CommandPlan, Verdict>)
    ensures
        match verification_plan(verification@, *installed) {
            Ok(plan) => r is Ok && r->Ok_0@ == plan,
            Err(line) => r is Err && !r->Err_0.healthy && r->Err_0.line@ == line,
        },
        match verification {
            Verification::ServiceActive { service } => r is Ok <==> installed.systemctl_in_usr_bin
                || installed.systemctl_in_bin,
            Verification::ContainerRunning { container } => r is Ok <==> installed.docker_in_usr_bin
                || installed.docker_in_bin || installed.docker_in_usr_local_bin,
        },
{
    match verification {
        Verification::ServiceActive { service } => {
            match systemctl_binary(installed) {
                Ok(systemctl) => Ok(
                    CommandPlan {
                        notice: "[VERIFY] Checking service: ".to_owned().concat(service.as_str()),
                        executable: systemctl.to_owned(),
                        args: two_args("is-active", service.as_str().trim()),
                    },
                ),
                Err(error) => Err(no_check(error.as_str())),
            }
        },
        Verification::ContainerRunning { container } => {
            match docker_binary(installed) {
                Ok(docker) => {
                    let mut args: Vec<String> = two_args("inspect", "-f");
                    let ghost front = args@;
                    assert(texts(front).len() == 2);
                    assert(texts(front)[0] == front[0]@ && texts(front)[1] == front[1]@);
                    args.push("{{.State.Running}}".to_owned());
                    args.push(container.as_str().trim().to_owned());
                    assert(args@[0] == front[0] && args@[1] == front[1]);
                    assert(texts(args@) == seq![
                        "inspect"@,
                        "-f"@,
                        "{{.State.Running}}"@,
                        trimmed(container@),
                    ]);
                    Ok(
                        CommandPlan {
                            notice: "[VERIFY] Checking container: ".to_owned().concat(
                                container.as_str(),
                            ),
                            executable: docker.to_owned(),
                            args,
                        },
                    )
                },
                Err(error) => Err(no_check(error.as_str())),
            }
        },
    }
}

/// The word that a check prints where the repair is good.
pub open spec fn healthy_word(verification: VerificationView) -> Seq<char> {
    match verification {
        VerificationView::ServiceActive { service } => "active"@,
        VerificationView::ContainerRunning { container } => "true"@,
    }
}

/// The check shows that the repair is good: its command was successful and printed
/// the word for it, and nothing else but white space.
pub open spec fn shows_health(
    verification: VerificationView,
    output: Result<CommandOutput, String>,
) -> bool {
    &&& output is Ok
    &&& output->Ok_0.success
    &&& trimmed(lossy_text(output->Ok_0.stdout@)) == healthy_word(verification)
}

/// What the log says of a check.
pub open spec fn verdict_line(
    verification: VerificationView,
    output: Result<CommandOutput, String>,
) -> Seq<char> {
    match output {
        Err(error) => "[VERIFY ERROR] "@ + error@,
        Ok(_) => match verification {
            VerificationView::ServiceActive { service } => if shows_health(verification, output) {
                "[VERIFY] Service is active"@
            } else {
                "[VERIFY] Service is NOT active"@
            },
            VerificationView::ContainerRunning { container } => if shows_health(
                verification,
                output,
            ) {
                "[VERIFY] Container is running"@
            } else {
                "[VERIFY] Container is NOT running"@
            },
        },
    }
}

/// Decides by what the command of a check has printed whether the repair is good.
pub fn judge_verification(
    verification: &Verification,
    output: &Result<CommandOutput, String>,
) -> (r: Verdict)
    ensures
        r.healthy == shows_health(verification@, *output),
        r.line@ == verdict_line(verification@, *output),
        r.healthy ==> valid_utf8(output->Ok_0.stdout@),
        match output {
            Err(error) => !r.healthy && r.line@ == "[VERIFY ERROR] "@ + error@,
            Ok(output) => {
                let printed = trimmed(decode_utf8(output.stdout@));
                let readable = output.success && valid_utf8(output.stdout@);
                match verification {
                    Verification::ServiceActive { service } => {
                        &&& r.healthy <==> readable && printed == "active"@
                        &&& r.line@ == (if readable && printed == "active"@ {
                            "[VERIFY] Service is active"@
                        } else {
                            "[VERIFY] Service is NOT active"@
                        })
                    },
                    Verification::ContainerRunning { container } => {
                        &&& r.healthy <==> readable && printed == "true"@
                        &&& r.line@ == (if readable && printed == "true"@ {
                            "[VERIFY] Container is running"@
                        } else {
                            "[VERIFY] Container is NOT running"@
                        })
                    },
                }
            },
        },
{
    match output {
        Err(error) => no_check(error.as_str()),
        Ok(output) => {
            let text: String = text_from_bytes(output.stdout.as_slice());
            let printed: &str = text.as_str().trim();
            proof {
                reveal_strlit("active");
                reveal_strlit("true");
                if !valid_utf8(output.stdout@) {
                    trimming_keeps_other_characters(text@, '\u{fffd}');
                    assert(!"active"@.contains('\u{fffd}'));
                    assert(!"true"@.contains('\u{fffd}'));
                }
            }
            match verification {
                Verification::ServiceActive { .. } => {
                    if output.success && same_text(printed, "active") {
                        Verdict {
                            healthy: true,
                            line: "[VERIFY] Service is active".to_owned(),
                        }
                    } else {
                        Verdict {
                            healthy: false,
                            line: "[VERIFY] Service is NOT active".to_owned(),
                        }
                    }
                },
                Verification::ContainerRunning { .. } => {
                    if output.success && same_text(printed, "true") {
                        Verdict {
                            healthy: true,
                            line: "[VERIFY] Container is running".to_owned(),
                        }
                    } else {
                        Verdict {
                            healthy: false,
                            line: "[VERIFY] Container is NOT running".to_owned(),
                        }
                    }
                },
            }
        },
    }
}

/// What the log says of a rule that is about to be applied.
pub open spec fn match_log(rule: RuleView) -> Seq<Seq<char>> {
    let named = seq!["[MATCH] Rule: "@ + rule.name, "[MATCH] Rule ID: "@ + rule.id];
    if blank(rule.severity) {
        named
    } else {
        named.push("[MATCH] Severity: "@ + rule.severity)
    }
}

/// Begins to repair with a rule: what the log says of the rule, and the command
/// that makes the repair. Where there is none, the repair has failed with the error.
pub fn recover_with_rule(rule: &Rule, installed: &InstalledBinaries) -> (r: (
    Log,
    Result<CommandPlan, String>,
))
    ensures
        r.0@ == match_log(rule@),
        is_plan(r.1, remediation_plan(rule@.remediation, *installed)),
{
    let mut log: Log = Log::new();
    log.note("[MATCH] Rule: ".to_owned().concat(rule.name.as_str()));
    log.note("[MATCH] Rule ID: ".to_owned().concat(rule.id.as_str()));
    assert(log@ == seq!["[MATCH] Rule: "@ + rule.name@, "[MATCH] Rule ID: "@ + rule.id@]);
    if non_empty(rule.severity.as_str()) {
        log.note("[MATCH] Severity: ".to_owned().concat(rule.severity.as_str()));
    }
    (log, perform_remediation(&rule.remediation, installed))
}

/// How a repair goes on.
#[derive(Debug)]
pub enum RecoveryStep {
    /// After the delay the log is to say the notice, and the repair is to be checked.
    Verify { attempt: u32, delay_secs: u64, notice: String },
    /// The repair is over, with this outcome.
    Finish { outcome: Result<(), String> },
}

pub enum StepView {
    Verify { attempt: int, delay_secs: int, notice: Seq<char> },
    Finish { outcome: Result<(), Seq<char>> },
}

impl View for RecoveryStep {
    type V = StepView;

    open spec fn view(&self) -> StepView {
        match self {
            RecoveryStep::Verify { attempt, delay_secs, notice } => StepView::Verify {
                attempt: *attempt as int,
                delay_secs: *delay_secs as int,
                notice: notice@,
            },
            RecoveryStep::Finish { outcome: Ok(()) } => StepView::Finish { outcome: Ok(()) },
            RecoveryStep::Finish { outcome: Err(error) } => StepView::Finish {
                outcome: Err(error@),
            },
        }
    }
}

/// A check, the number of which is given.
pub open spec fn check_step(attempt: int) -> StepView {
    StepView::Verify {
        attempt,
        delay_secs: VERIFY_DELAY_SECS as int,
        notice: "[VERIFY] Verification attempt "@ + decimal(attempt as nat) + "/"@ + decimal(
            MAX_VERIFY_ATTEMPTS as nat,
        ),
    }
}

/// How a repair goes on once its command has ended.
pub open spec fn step_after_remediation(outcome: Result<(), Seq<char>>) -> StepView {
    match outcome {
        Ok(()) => check_step(1),
        Err(error) => StepView::Finish { outcome: Err(error) },
    }
}

/// How a repair goes on once it has been checked.
pub open spec fn step_after_verification(attempt: int, healthy: bool) -> StepView {
    if healthy {
        StepView::Finish { outcome: Ok(()) }
    } else if attempt < MAX_VERIFY_ATTEMPTS {
        check_step(attempt + 1)
    } else {
        StepView::Finish {
            outcome: Err("Remediation executed but health verification failed"@),
        }
    }
}

fn check_number(attempt: u32) -> (r: RecoveryStep)
    ensures
        r@ == check_step(attempt as int),
        r matches RecoveryStep::Verify { attempt: number, delay_secs, notice } && number == attempt
            && delay_secs == 2 && notice@ == "[VERIFY] Verification attempt "@ + decimal(
            attempt as nat,
        ) + "/"@ + decimal(5),
{
    RecoveryStep::Verify {
        attempt,
        delay_secs: VERIFY_DELAY_SECS,
        notice: "[VERIFY] Verification attempt ".to_owned().concat(
            decimal_text(attempt as u64).as_str(),
        ).concat("/").concat(decimal_text(MAX_VERIFY_ATTEMPTS as u64).as_str()),
    }
}

/// Decides how a repair goes on once its command has ended.
pub fn after_remediation(outcome: Result<(), String>) -> (r: RecoveryStep)
    ensures
        r@ == step_after_remediation(
            match outcome {
                Ok(()) => Ok(()),
                Err(error) => Err(error@),
            },
        ),
        match outcome {
            Ok(()) => r matches RecoveryStep::Verify { attempt, delay_secs, notice } && attempt == 1
                && delay_secs == 2 && notice@ == "[VERIFY] Verification attempt "@ + decimal(1)
                + "/"@ + decimal(5),
            Err(error) => r matches RecoveryStep::Finish { outcome: Err(e) } && e@ == error@,
        },
{
    match outcome {
        Ok(()) => check_number(1),
        Err(error) => RecoveryStep::Finish { outcome: Err(error) },
    }
}

/// Decides how a repair goes on once it has been checked.
pub fn after_verification(attempt: u32, healthy: bool) -> (r: RecoveryStep)
    ensures
        r@ == step_after_verification(attempt as int, healthy),
        healthy ==> r matches RecoveryStep::Finish { outcome: Ok(()) },
        !healthy && attempt < 5 ==> (r matches RecoveryStep::Verify {
            attempt: next,
            delay_secs,
            notice,
        } && next == attempt + 1 && delay_secs == 2 && notice@
            == "[VERIFY] Verification attempt "@ + decimal((attempt + 1) as nat) + "/"@ + decimal(
            5,
        )),
        !healthy && attempt >= 5 ==> (r matches RecoveryStep::Finish { outcome: Err(e) } && e@
            == "Remediation executed but health verification failed"@),
{
    if healthy {
        RecoveryStep::Finish { outcome: Ok(()) }
    } else if attempt < MAX_VERIFY_ATTEMPTS {
        check_number(attempt + 1)
    } else {
        RecoveryStep::Finish {
            outcome: Err("Remediation executed but health verification failed".to_owned()),
        }
    }
}

/// How a repair ends, and how many checks it takes, where the check with number `n`
/// shows `verdicts(n)` and the check with the given number is the next one.
pub open spec fn check_run(verdicts: spec_fn(int) -> bool, attempt: int) -> (
    Result<(), Seq<char>>,
    int,
)
    decreases MAX_VERIFY_ATTEMPTS - attempt,
{
    match step_after_verification(attempt, verdicts(attempt)) {
        StepView::Finish { outcome } => (outcome, attempt),
        StepView::Verify { attempt: next, .. } => check_run(verdicts, next),
    }
}

proof fn lemma_check_run(verdicts: spec_fn(int) -> bool, attempt: int)
    requires
        1 <= attempt <= MAX_VERIFY_ATTEMPTS,
    ensures
        ({
            let (outcome, used) = check_run(verdicts, attempt);
            &&& attempt <= used <= MAX_VERIFY_ATTEMPTS
            &&& forall|n: int| attempt <= n < used ==> !#[trigger] verdicts(n)
            &&& outcome is Ok <==> verdicts(used)
            &&& outcome is Err ==> used == MAX_VERIFY_ATTEMPTS
        }),
    decreases MAX_VERIFY_ATTEMPTS - attempt,
{
    if !verdicts(attempt) && attempt < MAX_VERIFY_ATTEMPTS {
        lemma_check_run(verdicts, attempt + 1);
    }
}

/// A repair is believed exactly where one of the checks that are allowed shows that
/// it is good. It is not checked again after the first that does, and never more
/// often than allowed.
pub proof fn repair_is_believed_when_a_check_passes(verdicts: spec_fn(int) -> bool)
    ensures
        ({
            let (outcome, used) = check_run(verdicts, 1);
            &&& 1 <= used <= MAX_VERIFY_ATTEMPTS
            &&& outcome is Ok <==> exists|n: int|
                1 <= n <= MAX_VERIFY_ATTEMPTS && #[trigger] verdicts(n)
            &&& outcome is Ok ==> verdicts(used)
            &&& forall|n: int| 1 <= n < used ==> !#[trigger] verdicts(n)
            &&& outcome is Err ==> used == MAX_VERIFY_ATTEMPTS
        }),
{
    lemma_check_run(verdicts, 1);
}

/// How a repair with a rule ends, where its command ends with `command` and the
/// check with number `n` shows `verdicts(n)`.
pub open spec fn repair_outcome(
    rule: RuleView,
    installed: InstalledBinaries,
    command: Result<(), Seq<char>>,
    verdicts: spec_fn(int) -> bool,
) -> Result<(), Seq<char>> {
    match remediation_plan(rule.remediation, installed) {
        Err(error) => Err(error),
        Ok(_) => match step_after_remediation(command) {
            StepView::Finish { outcome } => outcome,
            StepView::Verify { attempt, .. } => check_run(verdicts, attempt).0,
        },
    }
}

/// A repair succeeds exactly where there is a command for it, the command succeeds
/// and one of the checks that are allowed shows that the repair is good.
pub proof fn repair_succeeds_only_as_a_whole(
    rule: RuleView,
    installed: InstalledBinaries,
    command: Result<(), Seq<char>>,
    verdicts: spec_fn(int) -> bool,
)
    ensures
        repair_outcome(rule, installed, command, verdicts) is Ok <==> {
            &&& remediation_plan(rule.remediation, installed) is Ok
            &&& command is Ok
            &&& exists|n: int| 1 <= n <= MAX_VERIFY_ATTEMPTS && #[trigger] verdicts(n)
        },
{
    repair_is_believed_when_a_check_passes(verdicts);
}

/// A check passes where there is a command for it and what the command has printed
/// shows that the repair is good. Where there is no command, it has failed.
pub open spec fn check_passes(
    verification: VerificationView,
    installed: InstalledBinaries,
    output: Result<CommandOutput, String>,
) -> bool {
    verification_plan(verification, installed) is Ok && shows_health(verification, output)
}

/// Where the check with number `n` finds the programs `found(n)` and its command, if
/// there is one, prints `outputs(n)`, a repair succeeds exactly where there is a command
/// for it, the command succeeds, and one of the checks that are allowed has a command
/// whose output shows that the repair is good.
pub proof fn repair_succeeds_where_health_is_shown(
    rule: RuleView,
    installed: InstalledBinaries,
    command: Result<(), Seq<char>>,
    found: spec_fn(int) -> InstalledBinaries,
    outputs: spec_fn(int) -> Result<CommandOutput, String>,
)
    ensures
        repair_outcome(
            rule,
            installed,
            command,
            |n: int| check_passes(rule.verification, found(n), outputs(n)),
        ) is Ok <==> {
            &&& remediation_plan(rule.remediation, installed) is Ok
            &&& command is Ok
            &&& exists|n: int|
                1 <= n <= MAX_VERIFY_ATTEMPTS && verification_plan(
                    rule.verification,
                    #[trigger] found(n),
                ) is Ok && shows_health(rule.verification, #[trigger] outputs(n))
        },
{
    let verdicts = |n: int| check_passes(rule.verification, found(n), outputs(n));
    repair_succeeds_only_as_a_whole(rule, installed, command, verdicts);
    if exists|n: int|
        1 <= n <= MAX_VERIFY_ATTEMPTS && verification_plan(
            rule.verification,
            #[trigger] found(n),
        ) is Ok && shows_health(rule.verification, #[trigger] outputs(n)) {
        let n = choose|n: int|
            1 <= n <= MAX_VERIFY_ATTEMPTS && verification_plan(
                rule.verification,
                #[trigger] found(n),
            ) is Ok && shows_health(rule.verification, #[trigger] outputs(n));
        assert(verdicts(n));
    }
}

/// No repair restarts the engine itself, neither by the name that the rule gives nor
/// by the one that the command is given.
pub proof fn engine_is_never_restarted(service: Seq<char>, installed: InstalledBinaries)
    ensures
        ({
            let plan = remediation_plan(RemediationView::ServiceRestart { service }, installed);
            &&& is_self(service) ==> plan == Err::<PlanView, Seq<char>>(
                "Refusing remediation: rule attempts to restart Aegira itself"@,
            )
            &&& plan is Ok ==> plan->Ok_0.args.len() == 2 && !is_self(plan->Ok_0.args[1])
        }),
{
    trimming_is_idempotent(service);
}

/// A rule that is fit for use is never refused: where the program that it needs is
/// found, there is a command, and what it is to restart has a name.
pub proof fn fit_rules_can_be_applied(rule: RuleView, installed: InstalledBinaries)
    requires
        valid_rule(rule),
    ensures
        rule.remediation is ServiceRestart && systemctl_place(installed) is Ok
            ==> remediation_plan(rule.remediation, installed) is Ok,
        rule.remediation is ContainerRestart && docker_place(installed) is Ok
            ==> remediation_plan(rule.remediation, installed) is Ok,
        remediation_plan(rule.remediation, installed) matches Ok(plan) ==> plan.args.len() == 2
            && plan.args[1].len() > 0,
{
    match rule.remediation {
        RemediationView::ServiceRestart { service } => trimmed_is_empty_only_for_blank(service),
        RemediationView::ContainerRestart { container } => trimmed_is_empty_only_for_blank(
            container,
        ),
    }
}

/// A check shows that a repair is good exactly where its command has run, was
/// successful, and what it printed is, but for white space around it, the word `active`
/// of a service or the word `true` of a container.
pub proof fn only_the_right_word_shows_health(
    name: Seq<char>,
    output: Result<CommandOutput, String>,
)
    ensures
        ({
            let service = VerificationView::ServiceActive { service: name };
            let container = VerificationView::ContainerRunning { container: name };
            match output {
                Err(_) => !shows_health(service, output) && !shows_health(container, output),
                Ok(printed) => {
                    let text = trimmed(lossy_text(printed.stdout@));
                    &&& shows_health(service, output) <==> printed.success && text == "active"@
                    &&& shows_health(container, output) <==> printed.success && text == "true"@
                },
            }
        }),
{
}

/// White space around what a check prints makes no difference.
pub proof fn white_space_never_changes_a_verdict(
    verification: VerificationView,
    front: Seq<char>,
    text: Seq<char>,
    back: Seq<char>,
    padded: CommandOutput,
    bare: CommandOutput,
)
    requires
        blank(front),
        blank(back),
        padded.success == bare.success,
        lossy_text(padded.stdout@) == front + text + back,
        lossy_text(bare.stdout@) == text,
    ensures
        shows_health(verification, Ok(padded)) == shows_health(verification, Ok(bare)),
{
    padding_is_trimmed(front, text, back);
}

/// What the log says of a check tells what it has shown.
pub proof fn the_log_tells_what_a_check_has_shown(
    name: Seq<char>,
    output: Result<CommandOutput, String>,
)
    ensures
        ({
            let service = VerificationView::ServiceActive { service: name };
            let container = VerificationView::ContainerRunning { container: name };
            match output {
                Err(error) => {
                    &&& verdict_line(service, output) == "[VERIFY ERROR] "@ + error@
                    &&& verdict_line(container, output) == "[VERIFY ERROR] "@ + error@
                },
                Ok(_) => {
                    &&& shows_health(service, output) ==> verdict_line(service, output)
                        == "[VERIFY] Service is active"@
                    &&& !shows_health(service, output) ==> verdict_line(service, output)
                        == "[VERIFY] Service is NOT active"@
                    &&& shows_health(container, output) ==> verdict_line(container, output)
                        == "[VERIFY] Container is running"@
                    &&& !shows_health(container, output) ==> verdict_line(container, output)
                        == "[VERIFY] Container is NOT running"@
                },
            }
        }),
{
}

/// A repair restarts what the rule names, with the first program for it that is found,
/// and a check asks about what the rule names in the same way. Only the engine itself
/// is not restarted, and nothing is done where there is no program for it.
pub proof fn commands_name_what_the_rule_names(name: Seq<char>, installed: InstalledBinaries)
    ensures
        ({
            let itself = lowercase(without_suffixes(trimmed(name), ".service"@)) == "aegira"@;
            let found = installed.systemctl_in_usr_bin || installed.systemctl_in_bin;
            let program = if installed.systemctl_in_usr_bin {
                "/usr/bin/systemctl"@
            } else {
                "/bin/systemctl"@
            };
            let missing = "Required binary not found. Checked: "@ + ("/usr/bin/systemctl"@ + ", "@
                + "/bin/systemctl"@);
            let repair = remediation_plan(
                RemediationView::ServiceRestart { service: name },
                installed,
            );
            let check = verification_plan(
                VerificationView::ServiceActive { service: name },
                installed,
            );
            &&& itself ==> repair is Err && repair->Err_0
                == "Refusing remediation: rule attempts to restart Aegira itself"@
            &&& !itself && found ==> repair is Ok && repair->Ok_0 == (PlanView {
                notice: "[RECOVERY] Restarting service: "@ + name,
                executable: program,
                args: seq!["restart"@, trimmed(name)],
            })
            &&& !itself && !found ==> repair is Err && repair->Err_0 == missing
            &&& found ==> check is Ok && check->Ok_0 == (PlanView {
                notice: "[VERIFY] Checking service: "@ + name,
                executable: program,
                args: seq!["is-active"@, trimmed(name)],
            })
            &&& !found ==> check is Err && check->Err_0 == "[VERIFY ERROR] "@ + missing
        }),
        ({
            let found = installed.docker_in_usr_bin || installed.docker_in_bin
                || installed.docker_in_usr_local_bin;
            let program = if installed.docker_in_usr_bin {
                "/usr/bin/docker"@
            } else if installed.docker_in_bin {
                "/bin/docker"@
            } else {
                "/usr/local/bin/docker"@
            };
            let missing = "Required binary not found. Checked: "@ + ("/usr/bin/docker"@ + ", "@
                + "/bin/docker"@ + ", "@ + "/usr/local/bin/docker"@);
            let repair = remediation_plan(
                RemediationView::ContainerRestart { container: name },
                installed,
            );
            let check = verification_plan(
                VerificationView::ContainerRunning { container: name },
                installed,
            );
            &&& found ==> repair is Ok && repair->Ok_0 == (PlanView {
                notice: "[RECOVERY] Restarting container: "@ + name,
                executable: program,
                args: seq!["restart"@, trimmed(name)],
            })
            &&& !found ==> repair is Err && repair->Err_0 == missing
            &&& found ==> check is Ok && check->Ok_0 == (PlanView {
                notice: "[VERIFY] Checking container: "@ + name,
                executable: program,
                args: seq!["inspect"@, "-f"@, "{{.State.Running}}"@, trimmed(name)],
            })
            &&& !found ==> check is Err && check->Err_0 == "[VERIFY ERROR] "@ + missing
        }),
{
    let comma = ", "@;
    let first = seq!["/usr/bin/systemctl"@];
    texts_are_joined_one_by_one(first, "/usr/bin/systemctl"@, comma);
    texts_are_joined_one_by_one(first, "/bin/systemctl"@, comma);
    assert(first.push("/bin/systemctl"@) == seq!["/usr/bin/systemctl"@, "/bin/systemctl"@]);
    let one = seq!["/usr/bin/docker"@];
    let two = seq!["/usr/bin/docker"@, "/bin/docker"@];
    texts_are_joined_one_by_one(one, "/usr/bin/docker"@, comma);
    texts_are_joined_one_by_one(one, "/bin/docker"@, comma);
    texts_are_joined_one_by_one(two, "/usr/local/bin/docker"@, comma);
    assert(one.push("/bin/docker"@) == two);
    assert(two.push("/usr/local/bin/docker"@) == seq![
        "/usr/bin/docker"@,
        "/bin/docker"@,
        "/usr/local/bin/docker"@,
    ]);
}

/// A result that stands for a plan is that plan: a command exactly where there is one,
/// with its notice, its program and its arguments, and the error as it is elsewhere.
pub proof fn a_plan_is_carried_out_as_it_is(
    r: Result<CommandPlan, String>,
    plan: Result<PlanView, Seq<char>>,
)
    requires
        is_plan(r, plan),
    ensures
        r is Ok <==> plan is Ok,
        r is Ok ==> r->Ok_0.notice@ == plan->Ok_0.notice && r->Ok_0.executable@
            == plan->Ok_0.executable && r->Ok_0.args@.len() == plan->Ok_0.args.len() && (forall|
            i: int,
        |
            0 <= i < r->Ok_0.args@.len() ==> (#[trigger] r->Ok_0.args@[i])@ == plan->Ok_0.args[i]),
        r is Err ==> r->Err_0@ == plan->Err_0,
{
    if r is Ok {
        assert forall|i: int| 0 <= i < r->Ok_0.args@.len() implies (#[trigger] r->Ok_0.args@[i])@
            == plan->Ok_0.args[i] by {
            assert(texts(r->Ok_0.args@)[i] == r->Ok_0.args@[i]@);
        }
    }
}

/// Before a rule is applied the log names it and its id, and its severity where that is
/// more than white space.
pub proof fn the_log_names_the_rule(rule: RuleView)
    ensures
        ({
            let log = match_log(rule);
            let graded = exists|i: int|
                0 <= i < rule.severity.len() && !white_space(#[trigger] rule.severity[i]);
            &&& log.len() == (if graded {
                3int
            } else {
                2int
            })
            &&& log[0] == "[MATCH] Rule: "@ + rule.name
            &&& log[1] == "[MATCH] Rule ID: "@ + rule.id
            &&& graded ==> log[2] == "[MATCH] Severity: "@ + rule.severity
        }),
{
}

/// A repair whose command has succeeded is believed with the first check that shows it
/// to be good, and given up after five that do not. One whose command has failed ends
/// with the error of the command, and is not checked.
pub proof fn five_checks_decide_a_repair(
    rule: RuleView,
    installed: InstalledBinaries,
    command: Result<(), Seq<char>>,
    verdicts: spec_fn(int) -> bool,
)
    ensures
        ({
            let plan = remediation_plan(rule.remediation, installed);
            let outcome = repair_outcome(rule, installed, command, verdicts);
            &&& plan is Err ==> outcome is Err && outcome->Err_0 == plan->Err_0
            &&& plan is Ok && command is Err ==> outcome == command
            &&& plan is Ok && command is Ok && (verdicts(1) || verdicts(2) || verdicts(3)
                || verdicts(4) || verdicts(5)) ==> outcome is Ok
            &&& plan is Ok && command is Ok && !verdicts(1) && !verdicts(2) && !verdicts(3)
                && !verdicts(4) && !verdicts(5) ==> outcome is Err && outcome->Err_0
                == "Remediation executed but health verification failed"@
        }),
{
    reveal_with_fuel(check_run, 6);
}

} // verus!
