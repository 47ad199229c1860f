//! Which rule answers an incident.

use vstd::prelude::*;
use crate::rule::{rule_views, Rule, RuleView};
use crate::text::{contains_text, has_part, lowercase, precedes, precedes_is_irreflexive,
    precedes_is_total, precedes_is_transitive, text_precedes, texts};

verus! {

/// The score from which on a rule answers an incident.
pub const MIN_MATCH_SCORE: i32 = 60;

/// The pattern stands in the text, upper and lower case taken as the same.
pub open spec fn matches_text(text: Seq<char>, pattern: Seq<char>) -> bool {
    contains_text(lowercase(text), lowercase(pattern))
}

/// Whether a pattern stands in a text, upper and lower case taken as the same.
pub fn contains_case_insensitive(text: &str, pattern: &str) -> (r: bool)
    ensures
        r == matches_text(text@, pattern@),
        r == contains_text(lowercase(text@), lowercase(pattern@)),
{
    has_part(text.to_lowercase().as_str(), pattern.to_lowercase().as_str())
}

/// How many of the patterns stand in the incident.
pub open spec fn match_count(patterns: Seq<Seq<char>>, incident: Seq<char>) -> nat {
    patterns.filter(|pattern: Seq<char>| matches_text(incident, pattern)).len()
}

/// `value`, or the nearer bound where it lies outside of them.
pub open spec fn clamped(value: int, low: int, high: int) -> int {
    if value < low {
        low
    } else if value > high {
        high
    } else {
        value
    }
}

/// How well a rule fits an incident; nothing where none of its error patterns
/// stands in it. The first error pattern counts sixty, each further error pattern
/// and each context pattern ten, and the priority at most twenty either way.
pub open spec fn match_score(rule: RuleView, incident: Seq<char>) -> Option<int> {
    let errors = match_count(rule.error_patterns, incident);
    let contexts = match_count(rule.context_patterns, incident);
    if errors == 0 {
        None
    } else {
        Some(
            clamped(
                60 + 10 * (errors - 1) + 10 * contexts + clamped(rule.priority, -20, 20),
                0,
                100,
            ),
        )
    }
}

fn count_matches(patterns: &Vec<String>, incident: &str) -> (r: usize)
    ensures
        r == match_count(texts(patterns@), incident@),
{
    let ghost found = |pattern: Seq<char>| matches_text(incident@, pattern);
    let mut count: usize = 0;
    let mut i: usize = 0;
    assert(texts(patterns@).take(0).filter(found).len() == 0) by {
        reveal(Seq::filter);
    }
    while i < patterns.len()
        invariant
            i <= patterns.len(),
            count <= i,
            found == (|pattern: Seq<char>| matches_text(incident@, pattern)),
            count == texts(patterns@).take(i as int).filter(found).len(),
        decreases patterns.len() - i,
    {
        proof {
            reveal(Seq::filter);
            let next = texts(patterns@).take(i + 1);
            assert(next.drop_last() == texts(patterns@).take(i as int));
            assert(next.last() == patterns@[i as int]@);
        }
        if contains_case_insensitive(incident, patterns[i].as_str()) {
            count = count + 1;
        }
        i = i + 1;
    }
    assert(texts(patterns@).take(patterns@.len() as int) == texts(patterns@));
    count
}

fn clamp_score(value: i128, low: i32, high: i32) -> (r: i32)
    requires
        low <= high,
    ensures
        r == clamped(value as int, low as int, high as int),
{
    if value < low as i128 {
        low
    } else if value > high as i128 {
        high
    } else {
        value as i32
    }
}

/// How well a rule fits an incident.
pub fn calculate_match_score(rule: &Rule, incident: &str) -> (r: Option<i32>)
    ensures
        match match_score(rule@, incident@) {
            None => r is None,
            Some(score) => r is Some && r->0 == score,
        },
{
    let error_matches: usize = count_matches(&rule.error_patterns, incident);
    if error_matches == 0 {
        return None;
    }
    let context_matches: usize = count_matches(&rule.context_patterns, incident);
    let error_score: i128 = 60 + (error_matches as i128 - 1) * 10;
    let context_score: i128 = context_matches as i128 * 10;
    let priority_score: i32 = clamp_score(rule.priority as i128, -20, 20);
    Some(clamp_score(error_score + context_score + priority_score as i128, 0, 100))
}

/// The rule fits the incident well enough to answer it.
pub open spec fn eligible(rule: RuleView, incident: Seq<char>) -> bool {
    match_score(rule, incident) is Some && match_score(rule, incident)->0 >= MIN_MATCH_SCORE
}

/// Rule `a` is preferred to rule `b`: it fits better, or as well and its id in
/// lowercase comes first.
pub open spec fn outranks(a: RuleView, b: RuleView, incident: Seq<char>) -> bool {
    let score_a = match_score(a, incident)->0;
    let score_b = match_score(b, incident)->0;
    score_a > score_b || (score_a == score_b && precedes(lowercase(a.id), lowercase(b.id)))
}

/// The rule at position `i` is the one that answers the incident: none is
/// preferred to it, and of those that are ranked as high it stands first.
pub open spec fn is_best(rules: Seq<RuleView>, incident: Seq<char>, i: int) -> bool {
    &&& 0 <= i < rules.len()
    &&& eligible(rules[i], incident)
    &&& forall|j: int|
        0 <= j < i && eligible(#[trigger] rules[j], incident) ==> outranks(
            rules[i],
            rules[j],
            incident,
        )
    &&& forall|j: int|
        i < j < rules.len() && eligible(#[trigger] rules[j], incident) ==> !outranks(
            rules[j],
            rules[i],
            incident,
        )
}

/// The position of the rule that answers the incident; nothing where no rule fits
/// well enough.
pub open spec fn best_index(rules: Seq<RuleView>, incident: Seq<char>) -> Option<int> {
    if exists|i: int| is_best(rules, incident, i) {
        Some(choose|i: int| is_best(rules, incident, i))
    } else {
        None
    }
}

/// The rule that answers an incident, with its score.
pub fn find_best_rule<'a>(rules: &'a [Rule], incident: &str) -> (r: Option<(&'a Rule, i32)>)
    ensures
        match best_index(rule_views(rules@), incident@) {
            None => r is None,
            Some(i) => {
                &&& r is Some
                &&& is_best(rule_views(rules@), incident@, i)
                &&& *(r->0).0 == rules@[i]
                &&& Some((r->0).1 as int) == match_score(rules@[i]@, incident@)
            },
        },
        r is None <==> forall|j: int|
            0 <= j < rules@.len() ==> !eligible(#[trigger] rule_views(rules@)[j], incident@),
        r matches Some((best, score)) ==> {
            &&& score >= 60
            &&& match_score(best@, incident@) == Some(score as int)
            &&& exists|i: int| 0 <= i < rules@.len() && *best == #[trigger] rules@[i]
            &&& forall|j: int|
                0 <= j < rules@.len() && match_score((#[trigger] rules@[j])@, incident@) is Some
                    ==> {
                    let other = match_score(rules@[j]@, incident@)->0;
                    &&& other <= score
                    &&& other == score ==> !precedes(
                        lowercase(rules@[j].id@),
                        lowercase(best.id@),
                    )
                }
        },
        r is None ==> forall|j: int|
            0 <= j < rules@.len() && match_score((#[trigger] rules@[j])@, incident@) is Some
                ==> match_score(rules@[j]@, incident@)->0 < 60,
{
    let mut best: Option<(usize, i32)> = None;
    let mut k: usize = 0;
    let ghost views = rule_views(rules@);
    while k < rules.len()
        invariant
            k <= rules@.len(),
            views == rule_views(rules@),
            match best {
                None => forall|j: int| 0 <= j < k ==> !eligible(#[trigger] views[j], incident@),
                Some((i, score)) => i < k && is_best(views.take(k as int), incident@, i as int)
                    && Some(score as int) == match_score(views[i as int], incident@),
            },
        decreases rules.len() - k,
    {
        proof {
            let before = views.take(k as int);
            let after = views.take(k + 1);
            assert(after == before.push(views[k as int]));
            if best is Some {
                let i = (best->0).0 as int;
                if eligible(views[k as int], incident@) && outranks(
                    views[k as int],
                    views[i],
                    incident@,
                ) {
                    assert forall|j: int|
                        0 <= j < k && eligible(#[trigger] after[j], incident@) implies outranks(
                        after[k as int],
                        after[j],
                        incident@,
                    ) by {
                        assert(before[j] == after[j]);
                        best_is_not_outranked(before, incident@, i, j);
                        outranks_carries_over(after[k as int], after[i], after[j], incident@);
                    }
                }
            }
        }
        match calculate_match_score(&rules[k], incident) {
            None => {},
            Some(score) => {
                if score >= MIN_MATCH_SCORE {
                    match best {
                        None => {
                            best = Some((k, score));
                        },
                        Some((i, current)) => {
                            if score > current || (score == current && text_precedes(
                                rules[k].id.to_lowercase().as_str(),
                                rules[i].id.to_lowercase().as_str(),
                            )) {
                                best = Some((k, score));
                            }
                        },
                    }
                }
            },
        }
        k = k + 1;
    }
    assert(views.take(k as int) == views);
    match best {
        None => {
            proof {
                assert forall|j: int|
                    0 <= j < rules@.len() && match_score(
                        (#[trigger] rules@[j])@,
                        incident@,
                    ) is Some implies match_score(rules@[j]@, incident@)->0 < 60 by {
                    assert(!eligible(views[j], incident@));
                }
            }
            None
        },
        Some((i, score)) => {
            proof {
                assert forall|j: int|
                    0 <= j < rules@.len() && match_score(
                        (#[trigger] rules@[j])@,
                        incident@,
                    ) is Some implies {
                    let other = match_score(rules@[j]@, incident@)->0;
                    &&& other <= score
                    &&& other == score ==> !precedes(
                        lowercase(rules@[j].id@),
                        lowercase(rules@[i as int].id@),
                    )
                } by {
                    assert(views[j] == rules@[j]@ && views[i as int] == rules@[i as int]@);
                    if eligible(views[j], incident@) {
                        best_is_not_outranked(views, incident@, i as int, j);
                    }
                }
                let chosen = choose|c: int| is_best(views, incident@, c);
                best_rule_is_unique(views, incident@, i as int, chosen);
            }
            Some((&rules[i], score))
        },
    }
}

proof fn best_is_not_outranked(rules: Seq<RuleView>, incident: Seq<char>, i: int, j: int)
    requires
        is_best(rules, incident, i),
        0 <= j < rules.len(),
        eligible(rules[j], incident),
    ensures
        !outranks(rules[j], rules[i], incident),
{
    precedes_is_irreflexive(lowercase(rules[i].id));
    if j < i {
        let a = lowercase(rules[i].id);
        let b = lowercase(rules[j].id);
        if precedes(a, b) && precedes(b, a) {
            precedes_is_transitive(a, b, a);
        }
    }
}

/// What is preferred to a rule is preferred to all that this rule is not outranked
/// by.
proof fn outranks_carries_over(a: RuleView, b: RuleView, c: RuleView, incident: Seq<char>)
    requires
        outranks(a, b, incident),
        !outranks(c, b, incident),
    ensures
        outranks(a, c, incident),
{
    let x = lowercase(a.id);
    let y = lowercase(b.id);
    let z = lowercase(c.id);
    precedes_is_total(y, z);
    if precedes(x, y) && precedes(y, z) {
        precedes_is_transitive(x, y, z);
    }
}

/// Patterns stand in the incident exactly where the count is not zero.
proof fn count_is_positive_where_something_matches(
    patterns: Seq<Seq<char>>,
    incident: Seq<char>,
)
    ensures
        match_count(patterns, incident) > 0 <==> exists|i: int|
            0 <= i < patterns.len() && matches_text(incident, #[trigger] patterns[i]),
    decreases patterns.len(),
{
    reveal(Seq::filter);
    if patterns.len() > 0 {
        let rest = patterns.drop_last();
        count_is_positive_where_something_matches(rest, incident);
        if match_count(rest, incident) > 0 {
            let i = choose|i: int|
                0 <= i < rest.len() && matches_text(incident, #[trigger] rest[i]);
            assert(patterns[i] == rest[i]);
        }
        if exists|i: int| 0 <= i < patterns.len() && matches_text(incident, #[trigger] patterns[i]) {
            let i = choose|i: int|
                0 <= i < patterns.len() && matches_text(incident, #[trigger] patterns[i]);
            if i < rest.len() {
                assert(rest[i] == patterns[i]);
            }
        }
    }
}

/// There is a score exactly where an error pattern stands in the incident. It lies
/// between forty and one hundred, and is sixty or more where the priority of the rule
/// is not negative.
pub proof fn score_is_bounded(rule: RuleView, incident: Seq<char>)
    ensures
        match_score(rule, incident) is Some <==> exists|i: int|
            0 <= i < rule.error_patterns.len() && matches_text(
                incident,
                #[trigger] rule.error_patterns[i],
            ),
        match_score(rule, incident) is Some ==> 40 <= match_score(rule, incident)->0 <= 100,
        match_score(rule, incident) is Some && rule.priority >= 0 ==> match_score(
            rule,
            incident,
        )->0 >= 60,
{
    count_is_positive_where_something_matches(rule.error_patterns, incident);
}

/// A rule whose priority is not negative answers every incident in which one of
/// its error patterns stands.
pub proof fn one_error_pattern_suffices(rule: RuleView, incident: Seq<char>, i: int)
    requires
        rule.priority >= 0,
        0 <= i < rule.error_patterns.len(),
        matches_text(incident, rule.error_patterns[i]),
    ensures
        eligible(rule, incident),
{
    count_is_positive_where_something_matches(rule.error_patterns, incident);
}

/// Of two rules with the same patterns, the one with the higher priority does not
/// score less.
pub proof fn priority_never_lowers_a_score(low: RuleView, high: RuleView, incident: Seq<char>)
    requires
        low.error_patterns == high.error_patterns,
        low.context_patterns == high.context_patterns,
        low.priority <= high.priority,
    ensures
        match_score(low, incident) is Some <==> match_score(high, incident) is Some,
        match_score(low, incident) is Some ==> match_score(low, incident)->0 <= match_score(
            high,
            incident,
        )->0,
{
}

/// A context pattern that is added to a rule never lowers its score, and an error
/// pattern that is added neither lowers it nor takes it away.
pub proof fn patterns_never_lower_a_score(rule: RuleView, pattern: Seq<char>, incident: Seq<char>)
    ensures
        ({
            let wider = RuleView {
                error_patterns: rule.error_patterns.push(pattern),
                ..rule
            };
            match_score(rule, incident) is Some ==> match_score(wider, incident) is Some
                && match_score(rule, incident)->0 <= match_score(wider, incident)->0
        }),
        ({
            let wider = RuleView {
                context_patterns: rule.context_patterns.push(pattern),
                ..rule
            };
            match_score(rule, incident) is Some ==> match_score(wider, incident) is Some
                && match_score(rule, incident)->0 <= match_score(wider, incident)->0
        }),
{
    reveal(Seq::filter);
    assert(rule.error_patterns.push(pattern).drop_last() == rule.error_patterns);
    assert(rule.context_patterns.push(pattern).drop_last() == rule.context_patterns);
}

/// Incidents that differ in upper and lower case alone are scored alike.
pub proof fn case_never_changes_a_score(rule: RuleView, a: Seq<char>, b: Seq<char>)
    requires
        lowercase(a) == lowercase(b),
    ensures
        match_score(rule, a) == match_score(rule, b),
{
    let in_a = |pattern: Seq<char>| matches_text(a, pattern);
    let in_b = |pattern: Seq<char>| matches_text(b, pattern);
    assert(in_a =~= in_b);
}

proof fn case_never_changes_the_best_rule(
    rules: Seq<RuleView>,
    a: Seq<char>,
    b: Seq<char>,
    i: int,
)
    requires
        lowercase(a) == lowercase(b),
    ensures
        is_best(rules, a, i) <==> is_best(rules, b, i),
{
    assert forall|rule: RuleView| #[trigger] match_score(rule, a) == match_score(rule, b) by {
        case_never_changes_a_score(rule, a, b);
    }
    if is_best(rules, a, i) {
        assert(match_score(rules[i], a) == match_score(rules[i], b));
        assert forall|j: int| 0 <= j < rules.len() && eligible(#[trigger] rules[j], b) implies {
            &&& eligible(rules[j], a)
            &&& j < i ==> outranks(rules[i], rules[j], b)
            &&& i < j ==> !outranks(rules[j], rules[i], b)
        } by {
            assert(match_score(rules[j], a) == match_score(rules[j], b));
        }
    }
    if is_best(rules, b, i) {
        assert(match_score(rules[i], a) == match_score(rules[i], b));
        assert forall|j: int| 0 <= j < rules.len() && eligible(#[trigger] rules[j], a) implies {
            &&& eligible(rules[j], b)
            &&& j < i ==> outranks(rules[i], rules[j], a)
            &&& i < j ==> !outranks(rules[j], rules[i], a)
        } by {
            assert(match_score(rules[j], a) == match_score(rules[j], b));
        }
    }
}

/// Incidents that differ in upper and lower case alone have the same answer.
pub proof fn case_never_changes_the_answer(rules: Seq<RuleView>, a: Seq<char>, b: Seq<char>)
    requires
        lowercase(a) == lowercase(b),
    ensures
        best_index(rules, a) == best_index(rules, b),
{
    assert forall|i: int| #[trigger] is_best(rules, a, i) <==> is_best(rules, b, i) by {
        case_never_changes_the_best_rule(rules, a, b, i);
    }
    if exists|i: int| is_best(rules, a, i) {
        let i = choose|i: int| is_best(rules, a, i);
        assert(is_best(rules, b, i));
        let j = choose|j: int| is_best(rules, b, j);
        best_rule_is_unique(rules, b, i, j);
    }
    if exists|i: int| is_best(rules, b, i) {
        let i = choose|i: int| is_best(rules, b, i);
        assert(is_best(rules, a, i));
    }
}

/// At most one rule is the one that answers an incident.
pub proof fn best_rule_is_unique(rules: Seq<RuleView>, incident: Seq<char>, i: int, j: int)
    requires
        is_best(rules, incident, i),
        is_best(rules, incident, j),
    ensures
        i == j,
{
    if i < j {
        best_is_not_outranked(rules, incident, i, j);
    } else if j < i {
        best_is_not_outranked(rules, incident, j, i);
    }
}

proof fn lemma_best_exists(rules: Seq<RuleView>, incident: Seq<char>, j: int) -> (i: int)
    requires
        0 <= j < rules.len(),
        eligible(rules[j], incident),
    ensures
        is_best(rules, incident, i),
    decreases rules.len(),
{
    let rest = rules.drop_last();
    let last = rules.len() - 1;
    if exists|k: int| 0 <= k < rest.len() && eligible(#[trigger] rest[k], incident) {
        let k = choose|k: int| 0 <= k < rest.len() && eligible(#[trigger] rest[k], incident);
        let i = lemma_best_exists(rest, incident, k);
        assert(rules[i] == rest[i]);
        if eligible(rules[last], incident) && outranks(rules[last], rules[i], incident) {
            assert forall|q: int|
                0 <= q < last && eligible(#[trigger] rules[q], incident) implies outranks(
                rules[last],
                rules[q],
                incident,
            ) by {
                assert(rest[q] == rules[q]);
                best_is_not_outranked(rest, incident, i, q);
                outranks_carries_over(rules[last], rules[i], rules[q], incident);
            }
            last
        } else {
            assert forall|q: int| 0 <= q < last implies rest[q] == #[trigger] rules[q] by {}
            i
        }
    } else {
        assert forall|q: int| 0 <= q < last && eligible(#[trigger] rules[q], incident) implies false by {
            assert(rest[q] == rules[q]);
        }
        assert(j == last);
        last
    }
}

/// A rule answers an incident exactly where some rule fits it well enough.
pub proof fn an_eligible_rule_is_found(rules: Seq<RuleView>, incident: Seq<char>)
    ensures
        best_index(rules, incident) is Some <==> exists|j: int|
            0 <= j < rules.len() && eligible(#[trigger] rules[j], incident),
        best_index(rules, incident) matches Some(i) ==> is_best(rules, incident, i),
{
    if exists|j: int| 0 <= j < rules.len() && eligible(#[trigger] rules[j], incident) {
        let j = choose|j: int| 0 <= j < rules.len() && eligible(#[trigger] rules[j], incident);
        let i = lemma_best_exists(rules, incident, j);
        assert(is_best(rules, incident, i));
    }
    if best_index(rules, incident) is Some {
        let i = best_index(rules, incident)->0;
        assert(eligible(rules[i], incident));
    }
}

/// Which rule answers an incident does not depend on the order of the rules, as
/// long as no two of them have the same id in lowercase.
pub proof fn order_never_changes_the_best_rule(
    rules: Seq<RuleView>,
    others: Seq<RuleView>,
    incident: Seq<char>,
    i: int,
    j: int,
)
    requires
        forall|rule: RuleView| rules.contains(rule) <==> others.contains(rule),
        forall|p: int, q: int|
            0 <= p < q < rules.len() ==> lowercase(#[trigger] rules[p].id) != lowercase(
                #[trigger] rules[q].id,
            ),
        is_best(rules, incident, i),
        is_best(others, incident, j),
    ensures
        rules[i] == others[j],
{
    assert(rules.contains(rules[i]));
    assert(others.contains(others[j]));
    let p = choose|p: int| 0 <= p < rules.len() && rules[p] == others[j];
    let q = choose|q: int| 0 <= q < others.len() && others[q] == rules[i];
    best_is_not_outranked(rules, incident, i, p);
    best_is_not_outranked(others, incident, j, q);
    precedes_is_total(lowercase(rules[i].id), lowercase(rules[p].id));
    if i < p {
        assert(lowercase(rules[i].id) != lowercase(rules[p].id));
    } else if p < i {
        assert(lowercase(rules[p].id) != lowercase(rules[i].id));
    }
}

/// Of all rules that score sixty or more, the one that answers an incident scores
/// highest. Of those that score as high, none has an id in lowercase that comes before
/// its own, and of those with the same id in lowercase it stands first.
pub proof fn the_answer_scores_highest(rules: Seq<RuleView>, incident: Seq<char>, j: int)
    requires
        0 <= j < rules.len(),
        match_score(rules[j], incident) is Some,
        match_score(rules[j], incident)->0 >= 60,
    ensures
        best_index(rules, incident) matches Some(i) && {
            let score = match_score(rules[i], incident)->0;
            let other = match_score(rules[j], incident)->0;
            &&& 0 <= i < rules.len()
            &&& match_score(rules[i], incident) is Some
            &&& other <= score
            &&& other == score ==> !precedes(lowercase(rules[j].id), lowercase(rules[i].id))
            &&& other == score && lowercase(rules[j].id) == lowercase(rules[i].id) ==> i <= j
        },
{
    an_eligible_rule_is_found(rules, incident);
    assert(eligible(rules[j], incident));
    let i = best_index(rules, incident)->0;
    best_is_not_outranked(rules, incident, i, j);
    precedes_is_irreflexive(lowercase(rules[i].id));
}

/// A rule that answers an incident is one of the rules and scores sixty or more. Where
/// none does, none answers it.
pub proof fn only_a_score_of_sixty_answers(rules: Seq<RuleView>, incident: Seq<char>)
    ensures
        best_index(rules, incident) matches Some(i) ==> 0 <= i < rules.len() && match_score(
            rules[i],
            incident,
        ) is Some && match_score(rules[i], incident)->0 >= 60,
        (forall|j: int|
            0 <= j < rules.len() && match_score(#[trigger] rules[j], incident) is Some
                ==> match_score(rules[j], incident)->0 < 60) ==> best_index(
            rules,
            incident,
        ) is None,
{
    an_eligible_rule_is_found(rules, incident);
}

/// How a score is made up, pattern by pattern. Without error patterns there is none.
/// A pattern that does not stand in the incident, in whatever case, changes nothing.
/// The first error pattern that does brings sixty and the priority, of which no more
/// counts than twenty either way; each further one, and each context pattern, brings
/// ten, up to one hundred. Context patterns alone bring nothing.
pub proof fn scores_grow_pattern_by_pattern(
    rule: RuleView,
    pattern: Seq<char>,
    incident: Seq<char>,
)
    ensures
        rule.error_patterns.len() == 0 ==> match_score(rule, incident) is None,
        ({
            let score = match_score(rule, incident);
            let with_error = match_score(
                RuleView { error_patterns: rule.error_patterns.push(pattern), ..rule },
                incident,
            );
            let with_context = match_score(
                RuleView { context_patterns: rule.context_patterns.push(pattern), ..rule },
                incident,
            );
            let ten_more = if score->0 + 10 <= 100 {
                score->0 + 10
            } else {
                100
            };
            let priority = if rule.priority > 20 {
                20
            } else if rule.priority < -20 {
                -20
            } else {
                rule.priority
            };
            if contains_text(lowercase(incident), lowercase(pattern)) {
                &&& score is Some ==> with_error == Some(ten_more) && with_context == Some(ten_more)
                &&& score is None ==> with_context is None
                &&& score is None && rule.context_patterns.len() == 0 ==> with_error == Some(
                    60 + priority,
                )
            } else {
                with_error == score && with_context == score
            }
        }),
{
    reveal(Seq::filter);
    assert(rule.error_patterns.push(pattern).drop_last() == rule.error_patterns);
    assert(rule.context_patterns.push(pattern).drop_last() == rule.context_patterns);
}

} // verus!
