//! What is done about an incident.

use vstd::prelude::*;
use crate::catalog::{is_load, loaded_rules_are_fit, SourceView};
use crate::cooldown::{cleanup_cooldowns, cooldown_key, elapsed_nanos, incident_key, still_cooling,
    Cooldowns, INCIDENT_COOLDOWN_NANOS};
use crate::matching::{an_eligible_rule_is_found, best_index, case_never_changes_the_answer,
    eligible, find_best_rule, match_score, matches_text, score_is_bounded};
use crate::rule::{rule_views, valid_rule, Rule, RuleView};
use crate::text::{a_part_is_found_wherever_it_stands, contains_text, decimal, decimal_text,
    elapsed_text, format_elapsed, has_part, lowercase, Log};

verus! {

/// A line of the monitored log that reports an incident.
pub open spec fn reports_incident(line: Seq<char>) -> bool {
    contains_text(line, "[ERROR]"@) || contains_text(line, "[CRITICAL]"@)
}

/// Whether a line of the monitored log reports an incident.
pub fn is_incident(line: &str) -> (r: bool)
    ensures
        r == reports_incident(line@),
        r == (contains_text(line@, "[ERROR]"@) || contains_text(line@, "[CRITICAL]"@)),
{
    has_part(line, "[ERROR]") || has_part(line, "[CRITICAL]")
}

/// What is to be done about an incident.
#[derive(Debug)]
pub enum IncidentAction<'a> {
    /// Nothing: no rule answers it.
    Investigate,
    /// Nothing: it has been answered a short while ago.
    Skip,
    /// It is to be repaired with the rule.
    Recover { rule: &'a Rule },
}

pub enum ActionView {
    Investigate,
    Skip,
    /// It is to be repaired with the rule at this position.
    Recover { rule: int },
}

/// What is to be done about an incident.
pub open spec fn decision(
    rules: Seq<RuleView>,
    incident: Seq<char>,
    cooldowns: Map<Seq<char>, u64>,
    now: u64,
) -> ActionView {
    match best_index(rules, incident) {
        None => ActionView::Investigate,
        Some(i) => if still_cooling(cooldowns, now).contains_key(
            cooldown_key(rules[i], incident),
        ) {
            ActionView::Skip
        } else {
            ActionView::Recover { rule: i }
        },
    }
}

/// The incidents that are remembered once it is decided what is done about one: what
/// has cooled off at the moment `now` is forgotten, and an incident that is to be
/// repaired is remembered under the moment `answered`.
pub open spec fn cooldowns_after(
    rules: Seq<RuleView>,
    incident: Seq<char>,
    cooldowns: Map<Seq<char>, u64>,
    now: u64,
    answered: u64,
) -> Map<Seq<char>, u64> {
    match decision(rules, incident, cooldowns, now) {
        ActionView::Recover { rule } => still_cooling(cooldowns, now).insert(
            cooldown_key(rules[rule], incident),
            answered,
        ),
        _ => still_cooling(cooldowns, now),
    }
}

/// What the log says of an incident.
pub open spec fn incident_log(
    rules: Seq<RuleView>,
    incident: Seq<char>,
    cooldowns: Map<Seq<char>, u64>,
    now: u64,
) -> Seq<Seq<char>> {
    let detected = seq![
        "[WATCHER] Incident detected: "@ + incident,
        "================ INCIDENT ================"@,
        incident,
    ];
    match decision(rules, incident, cooldowns, now) {
        ActionView::Investigate => detected + seq![
            "[MATCH] No known remediation rule found"@,
            "[MANUAL ACTION] Unknown incident requires investigation"@,
        ],
        ActionView::Skip => detected.push(
            "[COOLDOWN] Duplicate incident skipped for rule '"@ + rules[best_index(
                rules,
                incident,
            )->0].id + "'"@,
        ),
        ActionView::Recover { rule } => detected.push(
            "[MATCH] Confidence score: "@ + decimal(match_score(rules[rule], incident)->0 as nat),
        ),
    }
}

/// The action is the one decided on.
pub open spec fn is_action(action: IncidentAction, decided: ActionView, rules: Seq<Rule>) -> bool {
    match decided {
        ActionView::Investigate => action is Investigate,
        ActionView::Skip => action is Skip,
        ActionView::Recover { rule } => action matches IncidentAction::Recover { rule: r } && *r
            == rules[rule],
    }
}

/// Decides what is to be done about an incident. An incident that is to be repaired
/// is remembered, and the same incident is not repaired again until its cooldown has
/// passed. Cooldowns are judged by the moment `now`; the one that begins counts from
/// the moment `answered`.
pub fn process_incident<'a>(
    rules: &'a [Rule],
    incident: &str,
    cooldowns: &mut Cooldowns,
    now: u64,
    answered: u64,
) -> (r: (Log, IncidentAction<'a>))
    ensures
        r.0@ == incident_log(rule_views(rules@), incident@, old(cooldowns)@, now),
        is_action(
            r.1,
            decision(rule_views(rules@), incident@, old(cooldowns)@, now),
            rules@,
        ),
        final(cooldowns)@ == cooldowns_after(
            rule_views(rules@),
            incident@,
            old(cooldowns)@,
            now,
            answered,
        ),
        r.1 is Investigate <==> best_index(rule_views(rules@), incident@) is None,
        r.1 matches IncidentAction::Recover { rule } ==> *rule == rules@[best_index(
            rule_views(rules@),
            incident@,
        )->0],
        best_index(rule_views(rules@), incident@) matches Some(i) ==> {
            let key = lowercase(rules@[i].id@) + ":"@ + lowercase(incident@);
            r.1 is Skip <==> old(cooldowns)@.contains_key(key) && now - old(cooldowns)@[key]
                < 30_000_000_000
        },
{
    proof {
        an_eligible_rule_is_found(rule_views(rules@), incident@);
    }
    cleanup_cooldowns(cooldowns, now);
    let mut log: Log = Log::new();
    log.note("[WATCHER] Incident detected: ".to_owned().concat(incident));
    log.note("================ INCIDENT ================".to_owned());
    log.note(incident.to_owned());
    let ghost detected = seq![
        "[WATCHER] Incident detected: "@ + incident@,
        "================ INCIDENT ================"@,
        incident@,
    ];
    assert(log@ == detected);
    match find_best_rule(rules, incident) {
        None => {
            log.note("[MATCH] No known remediation rule found".to_owned());
            log.note("[MANUAL ACTION] Unknown incident requires investigation".to_owned());
            assert(log@ == detected + seq![
                "[MATCH] No known remediation rule found"@,
                "[MANUAL ACTION] Unknown incident requires investigation"@,
            ]);
            (log, IncidentAction::Investigate)
        },
        Some((rule, score)) => {
            let key: String = incident_key(rule, incident);
            if cooldowns.answered_at(key.as_str()).is_some() {
                log.note(
                    "[COOLDOWN] Duplicate incident skipped for rule '".to_owned().concat(
                        rule.id.as_str(),
                    ).concat("'"),
                );
                (log, IncidentAction::Skip)
            } else {
                cooldowns.record(key, answered);
                log.note(
                    "[MATCH] Confidence score: ".to_owned().concat(
                        decimal_text(score as u64).as_str(),
                    ),
                );
                (log, IncidentAction::Recover { rule })
            }
        },
    }
}

/// What the log says once a repair is over.
pub open spec fn outcome_log(
    rule: RuleView,
    outcome: Result<(), String>,
    took: Seq<char>,
) -> Seq<Seq<char>> {
    match outcome {
        Ok(()) => seq!["[RESOLVED] Incident automatically recovered in "@ + took],
        Err(error) => seq![
            "[RECOVERY FAILED] "@ + error@,
            "[MANUAL ACTION] Rule '"@ + rule.id + "' requires intervention"@,
        ],
    }
}

/// Reports how a repair has ended, where the text says how long it took.
pub fn report_outcome(rule: &Rule, outcome: &Result<(), String>, took: &str) -> (log: Log)
    ensures
        log@ == outcome_log(rule@, *outcome, took@),
        match outcome {
            Ok(()) => log@ == seq!["[RESOLVED] Incident automatically recovered in "@ + took@],
            Err(error) => log@ == seq![
                "[RECOVERY FAILED] "@ + error@,
                "[MANUAL ACTION] Rule '"@ + rule.id@ + "' requires intervention"@,
            ],
        },
{
    let mut log: Log = Log::new();
    match outcome {
        Ok(()) => {
            log.note("[RESOLVED] Incident automatically recovered in ".to_owned().concat(took));
        },
        Err(error) => {
            log.note("[RECOVERY FAILED] ".to_owned().concat(error.as_str()));
            log.note(
                "[MANUAL ACTION] Rule '".to_owned().concat(rule.id.as_str()).concat(
                    "' requires intervention",
                ),
            );
        },
    }
    assert(log@ == outcome_log(rule@, *outcome, took@));
    log
}

/// Reports how a repair has ended that took the given number of nanoseconds.
pub fn conclude_incident(rule: &Rule, outcome: &Result<(), String>, elapsed: u64) -> (log: Log)
    ensures
        log@ == outcome_log(rule@, *outcome, elapsed_text(elapsed)),
        match outcome {
            Ok(()) => log@ == seq![
                "[RESOLVED] Incident automatically recovered in "@ + elapsed_text(elapsed),
            ],
            Err(error) => log@ == seq![
                "[RECOVERY FAILED] "@ + error@,
                "[MANUAL ACTION] Rule '"@ + rule.id@ + "' requires intervention"@,
            ],
        },
{
    let took: String = format_elapsed(elapsed);
    report_outcome(rule, outcome, took.as_str())
}

/// With loaded rules, an incident is only ever repaired with a rule that is fit for
/// use and one of whose error patterns stands in the incident.
pub proof fn repairs_use_fit_rules(
    sources: Seq<SourceView>,
    customs: Seq<SourceView>,
    rules: Seq<RuleView>,
    log: Seq<Seq<char>>,
    incident: Seq<char>,
    cooldowns: Map<Seq<char>, u64>,
    now: u64,
)
    requires
        is_load(sources, customs, rules, log),
        decision(rules, incident, cooldowns, now) is Recover,
    ensures
        ({
            let rule = rules[decision(rules, incident, cooldowns, now)->rule];
            &&& valid_rule(rule)
            &&& eligible(rule, incident)
            &&& exists|i: int|
                0 <= i < rule.error_patterns.len() && matches_text(
                    incident,
                    #[trigger] rule.error_patterns[i],
                )
        }),
{
    let i = decision(rules, incident, cooldowns, now)->rule;
    an_eligible_rule_is_found(rules, incident);
    loaded_rules_are_fit(sources, customs, rules, log);
    score_is_bounded(rules[i], incident);
}

/// An incident that is being repaired is skipped when it comes again, in whatever
/// case it is written, until its cooldown has passed.
pub proof fn repeated_incident_is_skipped(
    rules: Seq<RuleView>,
    incident: Seq<char>,
    again: Seq<char>,
    cooldowns: Map<Seq<char>, u64>,
    now: u64,
    answered: u64,
    later: u64,
)
    requires
        decision(rules, incident, cooldowns, now) is Recover,
        lowercase(again) == lowercase(incident),
        elapsed_nanos(answered, later) < INCIDENT_COOLDOWN_NANOS,
    ensures
        decision(
            rules,
            again,
            cooldowns_after(rules, incident, cooldowns, now, answered),
            later,
        ) is Skip,
{
    case_never_changes_the_answer(rules, incident, again);
    let i = best_index(rules, incident)->0;
    let key = cooldown_key(rules[i], incident);
    let after = cooldowns_after(rules, incident, cooldowns, now, answered);
    assert(after.contains_key(key) && after[key] == answered);
    assert(still_cooling(after, later).contains_key(key));
}

/// An incident that has been answered is repaired again once its cooldown has
/// passed.
pub proof fn incident_is_repaired_again(
    rules: Seq<RuleView>,
    incident: Seq<char>,
    cooldowns: Map<Seq<char>, u64>,
    now: u64,
)
    requires
        best_index(rules, incident) matches Some(i) && {
            let key = cooldown_key(rules[i], incident);
            cooldowns.contains_key(key) ==> elapsed_nanos(cooldowns[key], now)
                >= INCIDENT_COOLDOWN_NANOS
        },
    ensures
        decision(rules, incident, cooldowns, now) == (ActionView::Recover {
            rule: best_index(rules, incident)->0,
        }),
{
}

/// What is done about an incident never cuts short the cooldown of another, and
/// never extends it.
pub proof fn cooldowns_are_kept(
    rules: Seq<RuleView>,
    incident: Seq<char>,
    cooldowns: Map<Seq<char>, u64>,
    now: u64,
    answered: u64,
    key: Seq<char>,
)
    requires
        cooldowns.contains_key(key),
        elapsed_nanos(cooldowns[key], now) < INCIDENT_COOLDOWN_NANOS,
    ensures
        cooldowns_after(rules, incident, cooldowns, now, answered).contains_key(key),
        cooldowns_after(rules, incident, cooldowns, now, answered)[key] == cooldowns[key],
{
    assert(still_cooling(cooldowns, now).contains_key(key));
}

/// Only an incident that is to be repaired starts a cooldown, and only its own.
pub proof fn only_repairs_start_cooldowns(
    rules: Seq<RuleView>,
    incident: Seq<char>,
    cooldowns: Map<Seq<char>, u64>,
    now: u64,
    answered: u64,
    key: Seq<char>,
)
    requires
        cooldowns_after(rules, incident, cooldowns, now, answered).contains_key(key),
        !cooldowns.contains_key(key),
    ensures
        decision(rules, incident, cooldowns, now) matches ActionView::Recover { rule } && key
            == cooldown_key(rules[rule], incident),
        cooldowns_after(rules, incident, cooldowns, now, answered)[key] == answered,
{
}

/// Where a mark stands in a line makes no difference: whatever comes before it and
/// whatever comes behind it, the line reports an incident.
pub proof fn a_mark_counts_wherever_it_stands(front: Seq<char>, back: Seq<char>)
    ensures
        reports_incident(front + "[ERROR]"@ + back),
        reports_incident(front + "[CRITICAL]"@ + back),
{
    a_part_is_found_wherever_it_stands(front, "[ERROR]"@, back);
    a_part_is_found_wherever_it_stands(front, "[CRITICAL]"@, back);
}

/// A line in which neither mark stands at any position reports no incident.
pub proof fn a_line_without_a_mark_is_no_incident(line: Seq<char>)
    requires
        forall|at: int|
            0 <= at && at + "[ERROR]"@.len() <= line.len() ==> #[trigger] line.subrange(
                at,
                at + "[ERROR]"@.len(),
            ) != "[ERROR]"@,
        forall|at: int|
            0 <= at && at + "[CRITICAL]"@.len() <= line.len() ==> #[trigger] line.subrange(
                at,
                at + "[CRITICAL]"@.len(),
            ) != "[CRITICAL]"@,
    ensures
        !reports_incident(line),
{
}

/// What is done about an incident, from the rule that answers it and the moment at which
/// it was last answered: where no rule answers it, nothing; where it was answered less
/// than thirty seconds ago, nothing either; else it is repaired with that rule, and
/// remembered under the moment of the answer. Other incidents are remembered for their
/// thirty seconds, and under the moments they had.
pub proof fn an_incident_is_repaired_unless_answered_lately(
    rules: Seq<RuleView>,
    incident: Seq<char>,
    cooldowns: Map<Seq<char>, u64>,
    now: u64,
    answered: u64,
    other: Seq<char>,
)
    ensures
        ({
            let action = decision(rules, incident, cooldowns, now);
            let after = cooldowns_after(rules, incident, cooldowns, now, answered);
            let kept = cooldowns.contains_key(other) && now - cooldowns[other] < 30_000_000_000;
            match best_index(rules, incident) {
                None => {
                    &&& action is Investigate
                    &&& after.contains_key(other) <==> kept
                    &&& kept ==> after[other] == cooldowns[other]
                },
                Some(i) => {
                    let key = lowercase(rules[i].id) + ":"@ + lowercase(incident);
                    let lately = cooldowns.contains_key(key) && now - cooldowns[key]
                        < 30_000_000_000;
                    &&& lately ==> action is Skip && after.contains_key(key) && after[key]
                        == cooldowns[key]
                    &&& !lately ==> action == (ActionView::Recover { rule: i })
                        && after.contains_key(key) && after[key] == answered
                    &&& other != key ==> (after.contains_key(other) <==> kept)
                    &&& other != key && kept ==> after[other] == cooldowns[other]
                },
            }
        }),
{
}

/// The log of an incident begins with the incident and goes on with what is done about
/// it.
pub proof fn the_log_tells_what_is_done(
    rules: Seq<RuleView>,
    incident: Seq<char>,
    cooldowns: Map<Seq<char>, u64>,
    now: u64,
)
    ensures
        ({
            let log = incident_log(rules, incident, cooldowns, now);
            let i = best_index(rules, incident)->0;
            &&& log.len() >= 4
            &&& log[0] == "[WATCHER] Incident detected: "@ + incident
            &&& log[1] == "================ INCIDENT ================"@
            &&& log[2] == incident
            &&& match decision(rules, incident, cooldowns, now) {
                ActionView::Investigate => {
                    &&& log.len() == 5
                    &&& log[3] == "[MATCH] No known remediation rule found"@
                    &&& log[4] == "[MANUAL ACTION] Unknown incident requires investigation"@
                },
                ActionView::Skip => {
                    &&& log.len() == 4
                    &&& log[3] == "[COOLDOWN] Duplicate incident skipped for rule '"@ + rules[i].id
                        + "'"@
                },
                ActionView::Recover { rule } => {
                    &&& log.len() == 4
                    &&& log[3] == "[MATCH] Confidence score: "@ + decimal(
                        match_score(rules[i], incident)->0 as nat,
                    )
                },
            }
        }),
{
}

/// An action that stands for a decision is that decision, with the rule decided on.
pub proof fn an_action_is_what_was_decided(
    action: IncidentAction,
    decided: ActionView,
    rules: Seq<Rule>,
)
    requires
        is_action(action, decided, rules),
    ensures
        decided is Investigate <==> action is Investigate,
        decided is Skip <==> action is Skip,
        decided is Recover <==> action is Recover,
        action matches IncidentAction::Recover { rule } ==> *rule == rules[decided->rule],
{
}

} // verus!
