//! Rules: what they say, and which of them are fit for use.

use vstd::prelude::*;
use vstd::utf8::is_ascii_chars;
use crate::text::{ascii_lower, blank, lowercase, padding_is_trimmed, same_text, strip_suffixes,
    texts, trimmed, trimmed_is_empty_only_for_blank, trimmed_start, trimmed_start_stops_before,
    white_space, without_suffixes};

verus! {

/// The name of the service that the engine itself runs as.
pub const SELF_SERVICE: &'static str = "aegira";

/// How an incident is repaired.
#[derive(Debug, Clone)]
pub enum Remediation {
    ServiceRestart { service: String },
    ContainerRestart { container: String },
}

/// How a repair is checked.
#[derive(Debug, Clone)]
pub enum Verification {
    ServiceActive { service: String },
    ContainerRunning { container: String },
}

/// What an incident looks like, how it is repaired and how the repair is checked.
#[derive(Debug, Clone)]
pub struct Rule {
    pub id: String,
    pub name: String,
    pub severity: String,
    pub error_patterns: Vec<String>,
    pub context_patterns: Vec<String>,
    pub remediation: Remediation,
    pub verification: Verification,
    pub priority: i32,
}

pub enum RemediationView {
    ServiceRestart { service: Seq<char> },
    ContainerRestart { container: Seq<char> },
}

pub enum VerificationView {
    ServiceActive { service: Seq<char> },
    ContainerRunning { container: Seq<char> },
}

pub struct RuleView {
    pub id: Seq<char>,
    pub name: Seq<char>,
    pub severity: Seq<char>,
    pub error_patterns: Seq<Seq<char>>,
    pub context_patterns: Seq<Seq<char>>,
    pub remediation: RemediationView,
    pub verification: VerificationView,
    pub priority: int,
}

impl View for Remediation {
    type V = RemediationView;

    open spec fn view(&self) -> RemediationView {
        match self {
            Remediation::ServiceRestart { service } => RemediationView::ServiceRestart {
                service: service@,
            },
            Remediation::ContainerRestart { container } => RemediationView::ContainerRestart {
                container: container@,
            },
        }
    }
}

impl View for Verification {
    type V = VerificationView;

    open spec fn view(&self) -> VerificationView {
        match self {
            Verification::ServiceActive { service } => VerificationView::ServiceActive {
                service: service@,
            },
            Verification::ContainerRunning { container } => VerificationView::ContainerRunning {
                container: container@,
            },
        }
    }
}

impl View for Rule {
    type V = RuleView;

    open spec fn view(&self) -> RuleView {
        RuleView {
            id: self.id@,
            name: self.name@,
            severity: self.severity@,
            error_patterns: texts(self.error_patterns@),
            context_patterns: texts(self.context_patterns@),
            remediation: self.remediation@,
            verification: self.verification@,
            priority: self.priority as int,
        }
    }
}

/// What each rule of a list says.
pub open spec fn rule_views(rules: Seq<Rule>) -> Seq<RuleView> {
    Seq::new(rules.len(), |i: int| rules[i]@)
}

/// Whether a text holds anything besides white space.
pub fn non_empty(value: &str) -> (r: bool)
    ensures
        r == !blank(value@),
        r <==> exists|i: int| 0 <= i < value@.len() && !white_space(#[trigger] value@[i]),
{
    proof {
        trimmed_is_empty_only_for_blank(value@);
    }
    !value.trim().is_empty()
}

/// The name that a service is known by: trimmed, without the suffix `.service`
/// however often it stands at the end, and in lowercase.
pub open spec fn normalized_service(service: Seq<char>) -> Seq<char> {
    lowercase(without_suffixes(trimmed(service), ".service"@))
}

/// The name that a service is known by.
pub fn normalize_service_name(service: &str) -> (r: String)
    ensures
        r@ == normalized_service(service@),
        r@ == lowercase(without_suffixes(trimmed(service@), ".service"@)),
{
    proof {
        reveal_strlit(".service");
    }
    strip_suffixes(service.trim(), ".service").to_lowercase()
}

/// The service is the engine itself.
pub open spec fn is_self(service: Seq<char>) -> bool {
    normalized_service(service) == "aegira"@
}

/// Whether a service is the engine itself.
pub fn is_aegira_service(service: &str) -> (r: bool)
    ensures
        r == is_self(service@),
        r == (lowercase(without_suffixes(trimmed(service@), ".service"@)) == "aegira"@),
{
    same_text(normalize_service_name(service).as_str(), SELF_SERVICE)
}

/// What can be wrong with a rule.
pub enum RuleFault {
    EmptyId,
    EmptyName,
    NoErrorPattern,
    EmptyErrorPattern,
    EmptyContextPattern,
    EmptyRemediationService,
    RestartsSelf,
    EmptyRemediationContainer,
    EmptyVerificationService,
    EmptyVerificationContainer,
}

/// Some text of the list holds nothing besides white space.
pub open spec fn some_blank(list: Seq<Seq<char>>) -> bool {
    exists|i: int| 0 <= i < list.len() && blank(#[trigger] list[i])
}

pub open spec fn remediation_fault(remediation: RemediationView) -> Option<RuleFault> {
    match remediation {
        RemediationView::ServiceRestart { service } => if blank(service) {
            Some(RuleFault::EmptyRemediationService)
        } else if is_self(service) {
            Some(RuleFault::RestartsSelf)
        } else {
            None
        },
        RemediationView::ContainerRestart { container } => if blank(container) {
            Some(RuleFault::EmptyRemediationContainer)
        } else {
            None
        },
    }
}

pub open spec fn verification_fault(verification: VerificationView) -> Option<RuleFault> {
    match verification {
        VerificationView::ServiceActive { service } => if blank(service) {
            Some(RuleFault::EmptyVerificationService)
        } else {
            None
        },
        VerificationView::ContainerRunning { container } => if blank(container) {
            Some(RuleFault::EmptyVerificationContainer)
        } else {
            None
        },
    }
}

/// The first fault of a rule, in the order in which the faults are looked for.
pub open spec fn first_fault(rule: RuleView) -> Option<RuleFault> {
    if blank(rule.id) {
        Some(RuleFault::EmptyId)
    } else if blank(rule.name) {
        Some(RuleFault::EmptyName)
    } else if rule.error_patterns.len() == 0 {
        Some(RuleFault::NoErrorPattern)
    } else if some_blank(rule.error_patterns) {
        Some(RuleFault::EmptyErrorPattern)
    } else if some_blank(rule.context_patterns) {
        Some(RuleFault::EmptyContextPattern)
    } else if remediation_fault(rule.remediation) is Some {
        remediation_fault(rule.remediation)
    } else {
        verification_fault(rule.verification)
    }
}

/// What is said of a fault of the rule with the given id.
pub open spec fn fault_message(fault: RuleFault, id: Seq<char>) -> Seq<char> {
    match fault {
        RuleFault::EmptyId => "Rule id cannot be empty"@,
        RuleFault::EmptyName => "Rule '"@ + id + "' has an empty name"@,
        RuleFault::NoErrorPattern => "Rule '"@ + id + "' must contain at least one error pattern"@,
        RuleFault::EmptyErrorPattern => "Rule '"@ + id + "' contains an empty error pattern"@,
        RuleFault::EmptyContextPattern => "Rule '"@ + id + "' contains an empty context pattern"@,
        RuleFault::EmptyRemediationService => "Rule '"@ + id
            + "' has an empty remediation service"@,
        RuleFault::RestartsSelf => "Rule '"@ + id + "' attempts to restart Aegira itself"@,
        RuleFault::EmptyRemediationContainer => "Rule '"@ + id
            + "' has an empty remediation container"@,
        RuleFault::EmptyVerificationService => "Rule '"@ + id
            + "' has an empty verification service"@,
        RuleFault::EmptyVerificationContainer => "Rule '"@ + id
            + "' has an empty verification container"@,
    }
}

/// A rule that is fit for use: it is named, it has an error pattern, nothing that
/// it names is blank, and it does not restart the engine itself.
pub open spec fn valid_rule(rule: RuleView) -> bool {
    &&& !blank(rule.id)
    &&& !blank(rule.name)
    &&& rule.error_patterns.len() > 0
    &&& forall|i: int|
        0 <= i < rule.error_patterns.len() ==> !blank(#[trigger] rule.error_patterns[i])
    &&& forall|i: int|
        0 <= i < rule.context_patterns.len() ==> !blank(#[trigger] rule.context_patterns[i])
    &&& match rule.remediation {
        RemediationView::ServiceRestart { service } => !blank(service) && !is_self(service),
        RemediationView::ContainerRestart { container } => !blank(container),
    }
    &&& match rule.verification {
        VerificationView::ServiceActive { service } => !blank(service),
        VerificationView::ContainerRunning { container } => !blank(container),
    }
}

fn about_rule(id: &str, complaint: &str) -> (r: String)
    ensures
        r@ == "Rule '"@ + id@ + complaint@,
{
    "Rule '".to_owned().concat(id).concat(complaint)
}

fn has_blank(list: &Vec<String>) -> (r: bool)
    ensures
        r == some_blank(texts(list@)),
{
    let mut i: usize = 0;
    while i < list.len()
        invariant
            i <= list.len(),
            forall|j: int| 0 <= j < i ==> !blank(#[trigger] texts(list@)[j]),
        decreases list.len() - i,
    {
        if !non_empty(list[i].as_str()) {
            assert(blank(texts(list@)[i as int]));
            return true;
        }
        i = i + 1;
    }
    false
}

/// Accepts a rule that is fit for use, and says of any other what its first fault
/// is.
pub fn validate_rule(rule: &Rule) -> (r: Result<(), String>)
    ensures
        r is Ok <==> valid_rule(rule@),
        match first_fault(rule@) {
            None => r is Ok,
            Some(fault) => r is Err && r->Err_0@ == fault_message(fault, rule.id@),
        },
        r is Ok ==> !blank(rule.id@) && !blank(rule.name@) && rule.error_patterns@.len() > 0,
        r is Ok ==> forall|i: int|
            0 <= i < rule.error_patterns@.len() ==> !blank((#[trigger] rule.error_patterns@[i])@),
        r is Ok ==> forall|i: int|
            0 <= i < rule.context_patterns@.len() ==> !blank(
                (#[trigger] rule.context_patterns@[i])@,
            ),
        r is Ok ==> match rule.remediation {
            Remediation::ServiceRestart { service } => !blank(service@) && lowercase(
                without_suffixes(trimmed(service@), ".service"@),
            ) != "aegira"@,
            Remediation::ContainerRestart { container } => !blank(container@),
        },
        r is Ok ==> match rule.verification {
            Verification::ServiceActive { service } => !blank(service@),
            Verification::ContainerRunning { container } => !blank(container@),
        },
{
    proof {
        no_fault_means_valid(rule@);
        if valid_rule(rule@) {
            assert forall|i: int| 0 <= i < rule.error_patterns@.len() implies !blank(
                (#[trigger] rule.error_patterns@[i])@,
            ) by {
                assert(!blank(rule@.error_patterns[i]));
            }
            assert forall|i: int| 0 <= i < rule.context_patterns@.len() implies !blank(
                (#[trigger] rule.context_patterns@[i])@,
            ) by {
                assert(!blank(rule@.context_patterns[i]));
            }
        }
    }
    let id: &str = rule.id.as_str();
    if !non_empty(id) {
        return Err("Rule id cannot be empty".to_owned());
    }
    if !non_empty(rule.name.as_str()) {
        return Err(about_rule(id, "' has an empty name"));
    }
    if rule.error_patterns.len() == 0 {
        return Err(about_rule(id, "' must contain at least one error pattern"));
    }
    if has_blank(&rule.error_patterns) {
        return Err(about_rule(id, "' contains an empty error pattern"));
    }
    if has_blank(&rule.context_patterns) {
        return Err(about_rule(id, "' contains an empty context pattern"));
    }
    match &rule.remediation {
        Remediation::ServiceRestart { service } => {
            if !non_empty(service.as_str()) {
                return Err(about_rule(id, "' has an empty remediation service"));
            }
            if is_aegira_service(service.as_str()) {
                return Err(about_rule(id, "' attempts to restart Aegira itself"));
            }
        },
        Remediation::ContainerRestart { container } => {
            if !non_empty(container.as_str()) {
                return Err(about_rule(id, "' has an empty remediation container"));
            }
        },
    }
    match &rule.verification {
        Verification::ServiceActive { service } => {
            if !non_empty(service.as_str()) {
                return Err(about_rule(id, "' has an empty verification service"));
            }
        },
        Verification::ContainerRunning { container } => {
            if !non_empty(container.as_str()) {
                return Err(about_rule(id, "' has an empty verification container"));
            }
        },
    }
    Ok(())
}

/// A rule without a fault is one that is fit for use.
pub proof fn no_fault_means_valid(rule: RuleView)
    ensures
        first_fault(rule) is None <==> valid_rule(rule),
{
}

/// White space around the name of a service does not change what it is known by.
pub proof fn padding_never_changes_a_service(front: Seq<char>, service: Seq<char>, back: Seq<char>)
    requires
        blank(front),
        blank(back),
    ensures
        normalized_service(front + service + back) == normalized_service(service),
        is_self(front + service + back) <==> is_self(service),
{
    padding_is_trimmed(front, service, back);
}

/// The suffix `.service` behind the name of a service does not change what it is
/// known by, where the name does not end in white space.
pub proof fn suffix_never_changes_a_service(service: Seq<char>)
    requires
        service.len() > 0 ==> !white_space(service.last()),
    ensures
        normalized_service(service + ".service"@) == normalized_service(service),
        is_self(service + ".service"@) <==> is_self(service),
{
    reveal_strlit(".service");
    let suffix = ".service"@;
    let longer = service + suffix;
    assert(suffix.len() == 8 && suffix[0] == '.' && suffix[7] == 'e');
    let base = trimmed(service);
    assert(trimmed(longer) == base + suffix) by {
        if service.len() == 0 {
            assert(longer == suffix);
            assert(base == service);
            assert(base + suffix == suffix);
        } else {
            assert(!white_space(service[service.len() - 1]));
            assert(!blank(service));
            trimmed_start_stops_before(service, suffix);
            let start = trimmed_start(service);
            assert((start + suffix).last() == suffix.last());
            assert(base == start);
        }
    }
    let whole = base + suffix;
    assert(whole.skip(whole.len() - suffix.len()) == suffix);
    assert(whole.take(whole.len() - suffix.len()) == base);
}

/// The engine's own name is known in every mixture of upper and lower case.
pub proof fn case_never_hides_the_engine(service: Seq<char>)
    requires
        is_ascii_chars(service),
        service.map_values(|c: char| ascii_lower(c)) == "aegira"@,
    ensures
        is_self(service),
{
    reveal_strlit("aegira");
    reveal_strlit(".service");
    let lower = service.map_values(|c: char| ascii_lower(c));
    assert(lower.len() == service.len());
    assert(lower[0] == ascii_lower(service[0]));
    assert(lower[5] == ascii_lower(service[5]));
    assert(lower[0] == 'a');
    assert(lower[5] == 'a');
    assert(!white_space(service[0]));
    assert(!white_space(service.last()));
    assert(trimmed(service) == service);
}

/// The text holds a character that is not white space.
pub open spec fn says_something(text: Seq<char>) -> bool {
    exists|i: int| 0 <= i < text.len() && !white_space(#[trigger] text[i])
}

/// A rule is fit for use exactly where all that it names says something, it has an error
/// pattern, and what it restarts is not the engine itself.
pub proof fn a_rule_is_valid_where_it_says_something(rule: RuleView)
    ensures
        valid_rule(rule) <==> {
            &&& says_something(rule.id)
            &&& says_something(rule.name)
            &&& rule.error_patterns.len() > 0
            &&& forall|i: int|
                0 <= i < rule.error_patterns.len() ==> says_something(
                    #[trigger] rule.error_patterns[i],
                )
            &&& forall|i: int|
                0 <= i < rule.context_patterns.len() ==> says_something(
                    #[trigger] rule.context_patterns[i],
                )
            &&& match rule.remediation {
                RemediationView::ServiceRestart { service } => says_something(service)
                    && lowercase(without_suffixes(trimmed(service), ".service"@)) != "aegira"@,
                RemediationView::ContainerRestart { container } => says_something(container),
            }
            &&& match rule.verification {
                VerificationView::ServiceActive { service } => says_something(service),
                VerificationView::ContainerRunning { container } => says_something(container),
            }
        },
{
    assert forall|text: Seq<char>| #[trigger] says_something(text) <==> !blank(text) by {}
}

/// A rule that is not fit for use is told what is wrong with it. What comes earlier in a
/// rule is told first, and nothing is told of a rule that is fit.
pub proof fn the_first_fault_is_told(rule: RuleView)
    ensures
        ({
            let fault = first_fault(rule);
            let told = fault_message(fault->0, rule.id);
            let named = says_something(rule.id) && says_something(rule.name);
            let errors = forall|i: int|
                0 <= i < rule.error_patterns.len() ==> says_something(
                    #[trigger] rule.error_patterns[i],
                );
            let contexts = forall|i: int|
                0 <= i < rule.context_patterns.len() ==> says_something(
                    #[trigger] rule.context_patterns[i],
                );
            let patterns = named && rule.error_patterns.len() > 0 && errors && contexts;
            let start = "Rule '"@ + rule.id;
            &&& fault is None <==> valid_rule(rule)
            &&& !says_something(rule.id) ==> told == "Rule id cannot be empty"@
            &&& says_something(rule.id) && !says_something(rule.name) ==> told == start
                + "' has an empty name"@
            &&& named && rule.error_patterns.len() == 0 ==> told == start
                + "' must contain at least one error pattern"@
            &&& named && rule.error_patterns.len() > 0 && !errors ==> told == start
                + "' contains an empty error pattern"@
            &&& named && rule.error_patterns.len() > 0 && errors && !contexts ==> told == start
                + "' contains an empty context pattern"@
            &&& patterns ==> match rule.remediation {
                RemediationView::ServiceRestart { service } => {
                    &&& !says_something(service) ==> told == start
                        + "' has an empty remediation service"@
                    &&& says_something(service) && lowercase(
                        without_suffixes(trimmed(service), ".service"@),
                    ) == "aegira"@ ==> told == start + "' attempts to restart Aegira itself"@
                },
                RemediationView::ContainerRestart { container } => !says_something(container)
                    ==> told == start + "' has an empty remediation container"@,
            }
            &&& patterns && (match rule.remediation {
                RemediationView::ServiceRestart { service } => says_something(service)
                    && lowercase(without_suffixes(trimmed(service), ".service"@)) != "aegira"@,
                RemediationView::ContainerRestart { container } => says_something(container),
            }) ==> match rule.verification {
                VerificationView::ServiceActive { service } => !says_something(service) ==> told
                    == start + "' has an empty verification service"@,
                VerificationView::ContainerRunning { container } => !says_something(container)
                    ==> told == start + "' has an empty verification container"@,
            }
        }),
{
    no_fault_means_valid(rule);
    assert forall|text: Seq<char>| #[trigger] says_something(text) <==> !blank(text) by {}
    if some_blank(rule.error_patterns) {
        let i = choose|i: int|
            0 <= i < rule.error_patterns.len() && blank(#[trigger] rule.error_patterns[i]);
        assert(!says_something(rule.error_patterns[i]));
    }
    if some_blank(rule.context_patterns) {
        let i = choose|i: int|
            0 <= i < rule.context_patterns.len() && blank(#[trigger] rule.context_patterns[i]);
        assert(!says_something(rule.context_patterns[i]));
    }
}

/// A name without the suffix `.service` and without white space around it is known in
/// lowercase, with whatever white space it is written.
pub proof fn a_bare_name_is_known_in_lowercase(
    front: Seq<char>,
    name: Seq<char>,
    back: Seq<char>,
)
    requires
        blank(front),
        blank(back),
        name.len() > 0 ==> !white_space(name[0]) && !white_space(name.last()),
        name.len() >= ".service"@.len() ==> name.skip(name.len() - ".service"@.len())
            != ".service"@,
    ensures
        normalized_service(front + name + back) == lowercase(name),
        is_self(front + name + back) <==> lowercase(name) == "aegira"@,
{
    padding_is_trimmed(front, name, back);
    assert(trimmed(name) == name);
}

/// A rule is viewed as it is written, field by field.
pub proof fn a_rule_is_viewed_as_written(rule: Rule)
    ensures
        rule@.id == rule.id@,
        rule@.name == rule.name@,
        rule@.severity == rule.severity@,
        rule@.priority == rule.priority,
        rule@.error_patterns.len() == rule.error_patterns@.len(),
        forall|i: int|
            0 <= i < rule.error_patterns@.len() ==> #[trigger] rule@.error_patterns[i]
                == rule.error_patterns@[i]@,
        rule@.context_patterns.len() == rule.context_patterns@.len(),
        forall|i: int|
            0 <= i < rule.context_patterns@.len() ==> #[trigger] rule@.context_patterns[i]
                == rule.context_patterns@[i]@,
        match rule.remediation {
            Remediation::ServiceRestart { service } => rule@.remediation == (
            RemediationView::ServiceRestart { service: service@ }),
            Remediation::ContainerRestart { container } => rule@.remediation == (
            RemediationView::ContainerRestart { container: container@ }),
        },
        match rule.verification {
            Verification::ServiceActive { service } => rule@.verification == (
            VerificationView::ServiceActive { service: service@ }),
            Verification::ContainerRunning { container } => rule@.verification == (
            VerificationView::ContainerRunning { container: container@ }),
        },
{
}

/// A list of rules is viewed rule by rule, in the order of the list.
pub proof fn rules_are_viewed_one_by_one(rules: Seq<Rule>)
    ensures
        rule_views(rules).len() == rules.len(),
        forall|i: int| 0 <= i < rules.len() ==> #[trigger] rule_views(rules)[i] == rules[i]@,
{
}

} // verus!
