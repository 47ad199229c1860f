//! The active rules: what is gathered from all sources.

use vstd::hash_set::StringHashSet;
use vstd::prelude::*;
use crate::loading::{directory_files, directory_log, directory_rules, directory_rules_are_valid,
    load_rules_from_directory, DirectoryListing, ListingView, RuleLoadResult};
use crate::rule::{is_self, normalized_service, rule_views, valid_rule, Remediation,
    RemediationView, Rule, RuleView, Verification, VerificationView};
use crate::sorting::{is_stable_sort, ordered_rules_stand_by_their_ids, sort_rules,
    stable_sort_is_unique, stable_sort_keeps_rules};
use crate::text::{decimal, decimal_text, lowercase, precedes, texts, trimmed, Log};

verus! {

/// The ids that rules have been taken under.
pub struct SeenIds {
    ids: StringHashSet,
}

impl View for SeenIds {
    type V = Set<Seq<char>>;

    closed spec fn view(&self) -> Set<Seq<char>> {
        self.ids@
    }
}

impl SeenIds {
    /// No ids.
    pub fn new() -> (r: SeenIds)
        ensures
            r@ == Set::<Seq<char>>::empty(),
    {
        SeenIds { ids: StringHashSet::new() }
    }

    /// Takes an id in, and tells whether it was not there before.
    pub fn insert(&mut self, id: String) -> (r: bool)
        ensures
            final(self)@ == old(self)@.insert(id@),
            r == !old(self)@.contains(id@),
    {
        self.ids.insert(id)
    }
}

/// What the id of a rule is compared by: trimmed and in lowercase.
pub open spec fn normalized_id(id: Seq<char>) -> Seq<char> {
    lowercase(trimmed(id))
}

/// The rules taken so far, the ids they were taken under, and what the log says.
pub struct MergeView {
    pub rules: Seq<RuleView>,
    pub seen: Set<Seq<char>>,
    pub log: Seq<Seq<char>>,
}

/// Takes a rule unless its id has been seen.
pub open spec fn taken(state: MergeView, rule: RuleView, source: Seq<char>) -> MergeView {
    if state.seen.contains(normalized_id(rule.id)) {
        MergeView {
            log: state.log.push(
                "[RULES ERROR] Duplicate rule ID '"@ + rule.id + "' ignored from "@ + source,
            ),
            ..state
        }
    } else {
        MergeView {
            rules: state.rules.push(rule),
            seen: state.seen.insert(normalized_id(rule.id)),
            log: state.log.push("[RULES] Loaded: "@ + rule.id),
        }
    }
}

/// Takes rules one after the other.
pub open spec fn merged(
    state: MergeView,
    incoming: Seq<RuleView>,
    source: Seq<char>,
) -> MergeView
    decreases incoming.len(),
{
    if incoming.len() == 0 {
        state
    } else {
        taken(merged(state, incoming.drop_last(), source), incoming.last(), source)
    }
}

/// Adds the rules of a source to those taken so far. Of rules with the same id, up
/// to case and surrounding white space, only the first is taken.
pub fn merge_rules(
    destination: &mut Vec<Rule>,
    seen_ids: &mut SeenIds,
    incoming: Vec<Rule>,
    source: &str,
) -> (log: Log)
    ensures
        ({
            let before = MergeView {
                rules: rule_views(old(destination)@),
                seen: old(seen_ids)@,
                log: Seq::empty(),
            };
            let after = merged(before, rule_views(incoming@), source@);
            &&& rule_views(final(destination)@) == after.rules
            &&& final(seen_ids)@ == after.seen
            &&& log@ == after.log
        }),
{
    let mut log: Log = Log::new();
    let ghost before = MergeView {
        rules: rule_views(destination@),
        seen: seen_ids@,
        log: Seq::empty(),
    };
    let ghost all = rule_views(incoming@);
    assert(merged(before, all.take(0), source@) == before);
    for rule in it: incoming
        invariant
            it.seq() == incoming@,
            all == rule_views(incoming@),
            ({
                let after = merged(before, all.take(it.index() as int), source@);
                &&& rule_views(destination@) == after.rules
                &&& seen_ids@ == after.seen
                &&& log@ == after.log
            }),
    {
        proof {
            let next = all.take(it.index() + 1);
            assert(next.drop_last() == all.take(it.index() as int));
            assert(next.last() == rule@);
        }
        let ghost held = destination@;
        if !seen_ids.insert(rule.id.trim().to_lowercase()) {
            log.note(
                "[RULES ERROR] Duplicate rule ID '".to_owned().concat(rule.id.as_str()).concat(
                    "' ignored from ",
                ).concat(source),
            );
        } else {
            log.note("[RULES] Loaded: ".to_owned().concat(rule.id.as_str()));
            destination.push(rule);
            assert(rule_views(destination@) == rule_views(held).push(rule@));
        }
    }
    assert(all.take(all.len() as int) == all);
    log
}

/// The rules that are used where no rule file is found.
pub open spec fn default_rules() -> Seq<RuleView> {
    seq![
        RuleView {
            id: "connection_refused"@,
            name: "Connection Refused"@,
            severity: "high"@,
            error_patterns: seq!["connection refused"@],
            context_patterns: Seq::empty(),
            remediation: RemediationView::ServiceRestart { service: "cron"@ },
            verification: VerificationView::ServiceActive { service: "cron"@ },
            priority: 10,
        },
    ]
}

/// The rules that are used where no rule file is found.
pub fn get_hardcoded_default_rules() -> (r: Vec<Rule>)
    ensures
        rule_views(r@) == default_rules(),
{
    let mut error_patterns: Vec<String> = Vec::new();
    error_patterns.push("connection refused".to_owned());
    let rule = Rule {
        id: "connection_refused".to_owned(),
        name: "Connection Refused".to_owned(),
        severity: "high".to_owned(),
        error_patterns,
        context_patterns: Vec::new(),
        remediation: Remediation::ServiceRestart { service: "cron".to_owned() },
        verification: Verification::ServiceActive { service: "cron".to_owned() },
        priority: 10,
    };
    assert(texts(rule.error_patterns@) == seq!["connection refused"@]);
    assert(texts(rule.context_patterns@) == Seq::<Seq<char>>::empty());
    let mut rules: Vec<Rule> = Vec::new();
    rules.push(rule);
    assert(rule_views(rules@) == default_rules());
    rules
}

/// A directory that rules are gathered from.
#[derive(Debug)]
pub struct RuleSource {
    pub path: String,
    pub listing: DirectoryListing,
}

pub struct SourceView {
    pub path: Seq<char>,
    pub listing: ListingView,
}

impl View for RuleSource {
    type V = SourceView;

    open spec fn view(&self) -> SourceView {
        SourceView { path: self.path@, listing: self.listing@ }
    }
}

pub open spec fn source_views(sources: Seq<RuleSource>) -> Seq<SourceView> {
    Seq::new(sources.len(), |i: int| sources[i]@)
}

/// What is gathered from sources, one after the other.
pub open spec fn gathered(sources: Seq<SourceView>) -> MergeView
    decreases sources.len(),
{
    if sources.len() == 0 {
        MergeView { rules: Seq::empty(), seen: Set::empty(), log: Seq::empty() }
    } else {
        let before = gathered(sources.drop_last());
        let source = sources.last();
        let after = merged(
            MergeView { log: Seq::empty(), ..before },
            directory_rules(source.listing),
            source.path,
        );
        MergeView {
            log: before.log + directory_log(source.path, source.listing) + after.log,
            ..after
        }
    }
}

/// No source holds a rule file.
pub open spec fn no_rule_files(sources: Seq<SourceView>) -> bool {
    forall|i: int| 0 <= i < sources.len() ==> directory_files(#[trigger] sources[i].listing) == 0
}

/// Something in some source could not be used.
pub open spec fn some_errors(sources: Seq<SourceView>) -> bool {
    exists|i: int|
        0 <= i < sources.len() && directory_log(
            sources[i].path,
            #[trigger] sources[i].listing,
        ).len() > 0
}

/// The active rules before they are put in order: those gathered, or the default
/// rules where no source holds a rule file.
pub open spec fn active_rules(sources: Seq<SourceView>) -> Seq<RuleView> {
    if no_rule_files(sources) {
        gathered(sources).rules + default_rules()
    } else {
        gathered(sources).rules
    }
}

/// What the log says where nothing was found, or nothing of use.
pub open spec fn fallback_log(sources: Seq<SourceView>) -> Seq<Seq<char>> {
    if no_rule_files(sources) {
        seq![
            "[RULES] No built-in JSON rules found. Loading bootstrap fallback rule."@,
            "[RULES] Loaded fallback: "@ + "connection_refused"@,
        ]
    } else if gathered(sources).rules.len() == 0 && some_errors(sources) {
        seq!["[RULES ERROR] Built-in rule files exist but none are valid."@]
    } else {
        Seq::empty()
    }
}

/// What the log says of the sources of custom rules.
pub open spec fn custom_log(customs: Seq<SourceView>) -> Seq<Seq<char>>
    decreases customs.len(),
{
    if customs.len() == 0 {
        Seq::empty()
    } else {
        let custom = customs.last();
        let lines = custom_log(customs.drop_last()) + directory_log(custom.path, custom.listing);
        if directory_files(custom.listing) > 0 {
            lines.push("[UPGRADE REQUIRED] Custom rules are not available in Aegira Free."@)
        } else {
            lines
        }
    }
}

/// All that the log says of loading the rules.
pub open spec fn load_log(sources: Seq<SourceView>, customs: Seq<SourceView>) -> Seq<Seq<char>> {
    (seq!["[RULES] Loading built-in rules..."@] + gathered(sources).log + fallback_log(sources)
        + custom_log(customs)).push(
        "[RULES] Active built-in rules: "@ + decimal(active_rules(sources).len()),
    )
}

/// The rules are those loaded from the built-in sources, and the log says so.
pub open spec fn is_load(
    sources: Seq<SourceView>,
    customs: Seq<SourceView>,
    rules: Seq<RuleView>,
    log: Seq<Seq<char>>,
) -> bool {
    is_stable_sort(active_rules(sources), rules) && log == load_log(sources, customs)
}

/// Reports the sources of custom rules, none of whose rules become active.
fn report_customs(customs: Vec<RuleSource>) -> (log: Log)
    ensures
        log@ == custom_log(source_views(customs@)),
{
    let mut log: Log = Log::new();
    let ghost all = source_views(customs@);
    assert(custom_log(all.take(0)) == Seq::<Seq<char>>::empty());
    for custom in it: customs
        invariant
            it.seq() == customs@,
            all == source_views(customs@),
            log@ == custom_log(all.take(it.index() as int)),
    {
        proof {
            let next = all.take(it.index() + 1);
            assert(next.drop_last() == all.take(it.index() as int));
            assert(next.last() == custom@);
        }
        let path: String = custom.path;
        let (result, lines): (RuleLoadResult, Log) = load_rules_from_directory(
            path.as_str(),
            custom.listing,
        );
        log.extend(lines);
        if result.json_files_found > 0 {
            log.note(
                "[UPGRADE REQUIRED] Custom rules are not available in Aegira Free.".to_owned(),
            );
        }
    }
    assert(all.take(all.len() as int) == all);
    log
}

proof fn lemma_one_more_source(sources: Seq<SourceView>, k: int)
    requires
        0 <= k < sources.len(),
    ensures
        no_rule_files(sources.take(k + 1)) <==> no_rule_files(sources.take(k)) && directory_files(
            sources[k].listing,
        ) == 0,
        some_errors(sources.take(k + 1)) <==> some_errors(sources.take(k)) || directory_log(
            sources[k].path,
            sources[k].listing,
        ).len() > 0,
{
    let before = sources.take(k);
    let after = sources.take(k + 1);
    assert(after[k] == sources[k]);
    assert forall|i: int| 0 <= i < k implies after[i] == before[i] by {}
    if no_rule_files(after) {
        assert forall|i: int| 0 <= i < before.len() implies directory_files(
            #[trigger] before[i].listing,
        ) == 0 by {
            assert(directory_files(after[i].listing) == 0);
        }
        assert(directory_files(after[k].listing) == 0);
    }
    if no_rule_files(before) && directory_files(sources[k].listing) == 0 {
        assert forall|i: int| 0 <= i < after.len() implies directory_files(
            #[trigger] after[i].listing,
        ) == 0 by {
            if i < k {
                assert(directory_files(before[i].listing) == 0);
            }
        }
    }
    if some_errors(before) {
        let i = choose|i: int|
            0 <= i < before.len() && directory_log(
                before[i].path,
                #[trigger] before[i].listing,
            ).len() > 0;
        assert(directory_log(after[i].path, after[i].listing).len() > 0);
    }
    if directory_log(sources[k].path, sources[k].listing).len() > 0 {
        assert(directory_log(after[k].path, after[k].listing).len() > 0);
    }
    if some_errors(after) {
        let i = choose|i: int|
            0 <= i < after.len() && directory_log(
                after[i].path,
                #[trigger] after[i].listing,
            ).len() > 0;
        if i < k {
            assert(directory_log(before[i].path, before[i].listing).len() > 0);
        }
    }
}

/// Loads the active rules: gathers those of the built-in sources, falls back on the
/// default rules where there are no rule files, and puts the rules in the order of
/// their ids. Custom rules are reported and left out.
pub fn load_all_rules(sources: Vec<RuleSource>, customs: Vec<RuleSource>) -> (r: (Vec<Rule>, Log))
    ensures
        is_load(source_views(sources@), source_views(customs@), rule_views(r.0@), r.1@),
{
    let mut log: Log = Log::new();
    log.note("[RULES] Loading built-in rules...".to_owned());
    let mut rules: Vec<Rule> = Vec::new();
    let mut seen_ids: SeenIds = SeenIds::new();
    let mut any_file: bool = false;
    let mut any_error: bool = false;
    let ghost all = source_views(sources@);
    let ghost opening = seq!["[RULES] Loading built-in rules..."@];
    assert(log@ == opening + gathered(all.take(0)).log);
    assert(rule_views(rules@) == gathered(all.take(0)).rules);
    for source in it: sources
        invariant
            it.seq() == sources@,
            all == source_views(sources@),
            opening == seq!["[RULES] Loading built-in rules..."@],
            rule_views(rules@) == gathered(all.take(it.index() as int)).rules,
            seen_ids@ == gathered(all.take(it.index() as int)).seen,
            log@ == opening + gathered(all.take(it.index() as int)).log,
            any_file == !no_rule_files(all.take(it.index() as int)),
            any_error == some_errors(all.take(it.index() as int)),
    {
        proof {
            let next = all.take(it.index() + 1);
            assert(next.drop_last() == all.take(it.index() as int));
            assert(next.last() == source@);
            lemma_one_more_source(all, it.index() as int);
        }
        let path: String = source.path;
        let (result, lines): (RuleLoadResult, Log) = load_rules_from_directory(
            path.as_str(),
            source.listing,
        );
        if result.json_files_found > 0 {
            any_file = true;
        }
        if result.parse_errors > 0 {
            any_error = true;
        }
        let merge_lines: Log = merge_rules(&mut rules, &mut seen_ids, result.rules, path.as_str());
        log.extend(lines);
        log.extend(merge_lines);
        assert(log@ == opening + gathered(all.take(it.index() + 1)).log);
    }
    assert(all.take(all.len() as int) == all);
    let ghost found = rules@;
    if !any_file {
        log.note(
            "[RULES] No built-in JSON rules found. Loading bootstrap fallback rule.".to_owned(),
        );
        let mut defaults: Vec<Rule> = get_hardcoded_default_rules();
        let ghost default_views = rule_views(defaults@);
        assert(default_views.len() == 1);
        assert(default_views[0] == defaults@[0]@);
        log.note("[RULES] Loaded fallback: ".to_owned().concat(defaults[0].id.as_str()));
        rules.append(&mut defaults);
        assert(rule_views(rules@) == rule_views(found) + default_views);
    } else if rules.len() == 0 && any_error {
        log.note("[RULES ERROR] Built-in rule files exist but none are valid.".to_owned());
    }
    assert(log@ == opening + gathered(all).log + fallback_log(all));
    assert(rule_views(rules@) == active_rules(all));
    log.extend(report_customs(customs));
    let sorted: Vec<Rule> = sort_rules(rules);
    log.note("[RULES] Active built-in rules: ".to_owned().concat(decimal_text(
        sorted.len() as u64,
    ).as_str()));
    (sorted, log)
}

/// No two rules have the same id, up to case and surrounding white space.
pub open spec fn distinct_ids(rules: Seq<RuleView>) -> bool {
    forall|i: int, j: int|
        0 <= i < j < rules.len() ==> normalized_id(#[trigger] rules[i].id) != normalized_id(
            #[trigger] rules[j].id,
        )
}

/// The ids seen are those of the rules taken, each of which was taken once.
pub open spec fn consistent(state: MergeView) -> bool {
    &&& distinct_ids(state.rules)
    &&& forall|i: int|
        0 <= i < state.rules.len() ==> state.seen.contains(
            normalized_id(#[trigger] state.rules[i].id),
        )
    &&& forall|id: Seq<char>| #[trigger]
        state.seen.contains(id) ==> exists|i: int|
            0 <= i < state.rules.len() && normalized_id(#[trigger] state.rules[i].id) == id
}

/// Adding rules keeps the ids distinct, and keeps track of them.
pub proof fn merging_keeps_ids_distinct(
    state: MergeView,
    incoming: Seq<RuleView>,
    source: Seq<char>,
)
    requires
        consistent(state),
    ensures
        consistent(merged(state, incoming, source)),
    decreases incoming.len(),
{
    if incoming.len() > 0 {
        merging_keeps_ids_distinct(state, incoming.drop_last(), source);
        let before = merged(state, incoming.drop_last(), source);
        let after = merged(state, incoming, source);
        let rule = incoming.last();
        if !before.seen.contains(normalized_id(rule.id)) {
            let n = before.rules.len() as int;
            assert(after.rules[n] == rule);
            assert forall|i: int| 0 <= i < n implies after.rules[i] == before.rules[i] by {}
            assert forall|id: Seq<char>| #[trigger] after.seen.contains(id) implies exists|i: int|
                0 <= i < after.rules.len() && normalized_id(#[trigger] after.rules[i].id) == id by {
                if before.seen.contains(id) {
                    let i = choose|i: int|
                        0 <= i < before.rules.len() && normalized_id(#[trigger] before.rules[i].id)
                            == id;
                    assert(normalized_id(after.rules[i].id) == id);
                } else {
                    assert(normalized_id(after.rules[n].id) == id);
                }
            }
            assert forall|i: int, j: int| 0 <= i < j < after.rules.len() implies normalized_id(
                #[trigger] after.rules[i].id,
            ) != normalized_id(#[trigger] after.rules[j].id) by {
                assert(after.rules[i] == before.rules[i]);
                if j < n {
                    assert(after.rules[j] == before.rules[j]);
                }
            }
        }
    }
}

/// Adding rules drops none of those that were taken before, and leaves them where
/// they stand.
pub proof fn merging_keeps_earlier_rules(
    state: MergeView,
    incoming: Seq<RuleView>,
    source: Seq<char>,
)
    ensures
        state.rules.is_prefix_of(merged(state, incoming, source).rules),
        state.seen.subset_of(merged(state, incoming, source).seen),
    decreases incoming.len(),
{
    if incoming.len() > 0 {
        merging_keeps_earlier_rules(state, incoming.drop_last(), source);
    }
}

/// The log has one line for each rule that is added or ignored.
pub proof fn each_rule_is_logged_once(
    state: MergeView,
    incoming: Seq<RuleView>,
    source: Seq<char>,
)
    ensures
        merged(state, incoming, source).log.len() == state.log.len() + incoming.len(),
    decreases incoming.len(),
{
    if incoming.len() > 0 {
        each_rule_is_logged_once(state, incoming.drop_last(), source);
    }
}

/// No rule before position `i`, and none that was taken before, has the id of the
/// rule at position `i`.
pub open spec fn comes_first(state: MergeView, incoming: Seq<RuleView>, i: int) -> bool {
    &&& !state.seen.contains(normalized_id(incoming[i].id))
    &&& forall|j: int|
        0 <= j < i ==> normalized_id(#[trigger] incoming[j].id) != normalized_id(incoming[i].id)
}

proof fn lemma_seen_ids(
    state: MergeView,
    incoming: Seq<RuleView>,
    source: Seq<char>,
    id: Seq<char>,
)
    ensures
        merged(state, incoming, source).seen.contains(id) <==> state.seen.contains(id)
            || exists|j: int|
            0 <= j < incoming.len() && normalized_id(#[trigger] incoming[j].id) == id,
    decreases incoming.len(),
{
    if incoming.len() > 0 {
        let rest = incoming.drop_last();
        let n = rest.len() as int;
        lemma_seen_ids(state, rest, source, id);
        assert(incoming[n] == incoming.last());
        if exists|j: int| 0 <= j < rest.len() && normalized_id(#[trigger] rest[j].id) == id {
            let j = choose|j: int| 0 <= j < rest.len() && normalized_id(#[trigger] rest[j].id) == id;
            assert(normalized_id(incoming[j].id) == id);
        }
        if exists|j: int| 0 <= j < incoming.len() && normalized_id(#[trigger] incoming[j].id) == id {
            let j = choose|j: int|
                0 <= j < incoming.len() && normalized_id(#[trigger] incoming[j].id) == id;
            if j < n {
                assert(normalized_id(rest[j].id) == id);
            }
        }
    }
}

/// What is added are, in their order, the rules that come first under their ids,
/// and no others.
pub proof fn first_rule_under_an_id_wins(
    state: MergeView,
    incoming: Seq<RuleView>,
    source: Seq<char>,
    i: int,
)
    requires
        0 <= i < incoming.len(),
    ensures
        ({
            let before = merged(state, incoming.take(i), source);
            let after = merged(state, incoming.take(i + 1), source);
            after.rules == (if comes_first(state, incoming, i) {
                before.rules.push(incoming[i])
            } else {
                before.rules
            })
        }),
{
    let front = incoming.take(i);
    let id = normalized_id(incoming[i].id);
    assert(incoming.take(i + 1).drop_last() == front);
    assert(incoming.take(i + 1).last() == incoming[i]);
    lemma_seen_ids(state, front, source, id);
    if exists|j: int| 0 <= j < front.len() && normalized_id(#[trigger] front[j].id) == id {
        let j = choose|j: int| 0 <= j < front.len() && normalized_id(#[trigger] front[j].id) == id;
        assert(normalized_id(incoming[j].id) == id);
    }
    if !comes_first(state, incoming, i) && !state.seen.contains(id) {
        let j = choose|j: int| 0 <= j < i && normalized_id(#[trigger] incoming[j].id) == id;
        assert(normalized_id(front[j].id) == id);
    }
}

proof fn lemma_gathered(sources: Seq<SourceView>)
    ensures
        consistent(gathered(sources)),
        forall|i: int|
            0 <= i < gathered(sources).rules.len() ==> valid_rule(
                #[trigger] gathered(sources).rules[i],
            ),
        no_rule_files(sources) ==> gathered(sources).rules.len() == 0,
    decreases sources.len(),
{
    if sources.len() > 0 {
        let rest = sources.drop_last();
        let source = sources.last();
        let before = MergeView { log: Seq::empty(), ..gathered(rest) };
        lemma_gathered(rest);
        assert(consistent(before)) by {
            let old_state = gathered(rest);
            assert(before.rules == old_state.rules && before.seen == old_state.seen);
        }
        directory_rules_are_valid(source.listing);
        merging_keeps_ids_distinct(before, directory_rules(source.listing), source.path);
        let after = merged(before, directory_rules(source.listing), source.path);
        assert(gathered(sources).rules == after.rules && gathered(sources).seen == after.seen);
        lemma_merged_rules_are_valid(before, directory_rules(source.listing), source.path);
        assert(consistent(gathered(sources)));
        if no_rule_files(sources) {
            let n = rest.len() as int;
            assert(sources[n] == source);
            assert(directory_files(sources[n].listing) == 0);
            assert forall|i: int| 0 <= i < rest.len() implies directory_files(
                #[trigger] rest[i].listing,
            ) == 0 by {
                assert(directory_files(sources[i].listing) == 0);
            }
            assert(directory_rules(source.listing).len() == 0);
        }
    }
}

proof fn lemma_merged_rules_are_valid(
    state: MergeView,
    incoming: Seq<RuleView>,
    source: Seq<char>,
)
    requires
        forall|i: int| 0 <= i < state.rules.len() ==> valid_rule(#[trigger] state.rules[i]),
        forall|i: int| 0 <= i < incoming.len() ==> valid_rule(#[trigger] incoming[i]),
    ensures
        forall|i: int|
            0 <= i < merged(state, incoming, source).rules.len() ==> valid_rule(
                #[trigger] merged(state, incoming, source).rules[i],
            ),
    decreases incoming.len(),
{
    if incoming.len() > 0 {
        let rest = incoming.drop_last();
        assert forall|i: int| 0 <= i < rest.len() implies valid_rule(#[trigger] rest[i]) by {
            assert(valid_rule(incoming[i]));
        }
        lemma_merged_rules_are_valid(state, rest, source);
        assert(valid_rule(incoming[rest.len() as int]));
        let before = merged(state, rest, source).rules;
        let after = merged(state, incoming, source).rules;
        assert forall|i: int| 0 <= i < after.len() implies valid_rule(#[trigger] after[i]) by {
            if i < before.len() {
                assert(after[i] == before[i]);
            }
        }
    }
}

/// The default rules are fit for use.
pub proof fn default_rules_are_valid()
    ensures
        forall|i: int|
            0 <= i < default_rules().len() ==> valid_rule(#[trigger] default_rules()[i]),
{
    reveal_strlit("connection_refused");
    reveal_strlit("Connection Refused");
    reveal_strlit("connection refused");
    reveal_strlit("cron");
    reveal_strlit("aegira");
    reveal_strlit(".service");
    let rule = default_rules()[0];
    assert(!crate::text::white_space(rule.id[0]));
    assert(!crate::text::white_space(rule.name[0]));
    assert(!crate::text::white_space(rule.error_patterns[0][0]));
    let cron = "cron"@;
    assert(!crate::text::white_space(cron[0]));
    assert(!crate::text::white_space(cron.last()));
    assert(trimmed(cron) == cron);
    assert(normalized_service(cron) == lowercase(cron));
    assert(lowercase(cron).len() == 4) by {
        assert(vstd::utf8::is_ascii_chars(cron));
    }
    assert(!is_self(cron));
}

/// Where no source holds a rule file, the default rules are the active rules.
pub proof fn without_files_the_defaults_are_active(sources: Seq<SourceView>)
    requires
        no_rule_files(sources),
    ensures
        active_rules(sources) == default_rules(),
{
    lemma_gathered(sources);
    assert(active_rules(sources) == default_rules());
}

/// Every rule that is loaded is fit for use, so none restarts the engine itself,
/// and no two of them have the same id.
pub proof fn loaded_rules_are_fit(
    sources: Seq<SourceView>,
    customs: Seq<SourceView>,
    loaded: Seq<RuleView>,
    log: Seq<Seq<char>>,
)
    requires
        is_load(sources, customs, loaded, log),
    ensures
        forall|i: int| 0 <= i < loaded.len() ==> valid_rule(#[trigger] loaded[i]),
        distinct_ids(loaded),
{
    let active = active_rules(sources);
    lemma_gathered(sources);
    default_rules_are_valid();
    stable_sort_keeps_rules(active, loaded);
    if no_rule_files(sources) {
        without_files_the_defaults_are_active(sources);
    }
    assert(distinct_ids(active));
    assert forall|i: int| 0 <= i < loaded.len() implies valid_rule(#[trigger] loaded[i]) by {
        assert(loaded.contains(loaded[i]));
        let j = choose|j: int| 0 <= j < active.len() && active[j] == loaded[i];
        assert(valid_rule(active[j]));
    }
    assert(active.no_duplicates()) by {
        assert forall|i: int, j: int|
            0 <= i < active.len() && 0 <= j < active.len() && i != j implies active[i]
            != active[j] by {
            if i < j {
                assert(normalized_id(active[i].id) != normalized_id(active[j].id));
            } else {
                assert(normalized_id(active[j].id) != normalized_id(active[i].id));
            }
        }
    }
    assert forall|i: int, j: int| 0 <= i < j < loaded.len() implies normalized_id(
        #[trigger] loaded[i].id,
    ) != normalized_id(#[trigger] loaded[j].id) by {
        assert(loaded.contains(loaded[i]));
        assert(loaded.contains(loaded[j]));
        let p = choose|p: int| 0 <= p < active.len() && active[p] == loaded[i];
        let q = choose|q: int| 0 <= q < active.len() && active[q] == loaded[j];
        assert(loaded[i] != loaded[j]);
        if p < q {
            assert(normalized_id(active[p].id) != normalized_id(active[q].id));
        } else {
            assert(normalized_id(active[q].id) != normalized_id(active[p].id));
        }
    }
}

/// A source never displaces what the sources before it have yielded.
pub proof fn earlier_sources_win(sources: Seq<SourceView>, k: int)
    requires
        0 <= k <= sources.len(),
    ensures
        gathered(sources.take(k)).rules.is_prefix_of(gathered(sources).rules),
    decreases sources.len(),
{
    if k == sources.len() {
        assert(sources.take(k) == sources);
    } else {
        let rest = sources.drop_last();
        let source = sources.last();
        assert(rest.take(k) == sources.take(k));
        earlier_sources_win(rest, k);
        merging_keeps_earlier_rules(
            MergeView { log: Seq::empty(), ..gathered(rest) },
            directory_rules(source.listing),
            source.path,
        );
    }
}

/// Which rules are loaded depends on the built-in sources alone, whatever custom
/// rules there are. What the log says depends on all sources, and on nothing else.
pub proof fn custom_rules_are_never_active(
    sources: Seq<SourceView>,
    a_customs: Seq<SourceView>,
    a_rules: Seq<RuleView>,
    a_log: Seq<Seq<char>>,
    b_customs: Seq<SourceView>,
    b_rules: Seq<RuleView>,
    b_log: Seq<Seq<char>>,
)
    requires
        is_load(sources, a_customs, a_rules, a_log),
        is_load(sources, b_customs, b_rules, b_log),
    ensures
        a_rules == b_rules,
        a_customs == b_customs ==> a_log == b_log,
{
    stable_sort_is_unique(active_rules(sources), a_rules, b_rules);
}

/// A rule that is added behind others is taken and named as loaded where none before it
/// has its id, up to case and surrounding white space. Else it is named as a duplicate,
/// and the rules stay as they are.
pub proof fn rules_are_merged_one_by_one(
    state: MergeView,
    incoming: Seq<RuleView>,
    rule: RuleView,
    source: Seq<char>,
)
    requires
        consistent(state),
    ensures
        merged(state, Seq::empty(), source) == state,
        ({
            let before = merged(state, incoming, source);
            let after = merged(state, incoming.push(rule), source);
            if exists|i: int|
                0 <= i < before.rules.len() && lowercase(trimmed(#[trigger] before.rules[i].id))
                    == lowercase(trimmed(rule.id)) {
                &&& after.rules == before.rules
                &&& after.log == before.log.push(
                    "[RULES ERROR] Duplicate rule ID '"@ + rule.id + "' ignored from "@ + source,
                )
            } else {
                &&& after.rules == before.rules.push(rule)
                &&& after.log == before.log.push("[RULES] Loaded: "@ + rule.id)
            }
        }),
{
    merging_keeps_ids_distinct(state, incoming, source);
    let before = merged(state, incoming, source);
    assert(incoming.push(rule).drop_last() == incoming);
    let id = normalized_id(rule.id);
    if before.seen.contains(id) {
        let i = choose|i: int|
            0 <= i < before.rules.len() && normalized_id(#[trigger] before.rules[i].id) == id;
        assert(lowercase(trimmed(before.rules[i].id)) == lowercase(trimmed(rule.id)));
    }
    if exists|i: int|
        0 <= i < before.rules.len() && lowercase(trimmed(#[trigger] before.rules[i].id))
            == lowercase(trimmed(rule.id)) {
        let i = choose|i: int|
            0 <= i < before.rules.len() && lowercase(trimmed(#[trigger] before.rules[i].id))
                == lowercase(trimmed(rule.id));
        assert(before.seen.contains(normalized_id(before.rules[i].id)));
    }
}

/// Whether a rule is taken depends on its id alone, trimmed and in lowercase, and on the
/// ids that were seen before. From then on its id has been seen.
pub proof fn an_id_is_taken_once(
    state: MergeView,
    incoming: Seq<RuleView>,
    rule: RuleView,
    source: Seq<char>,
)
    ensures
        ({
            let before = merged(state, incoming, source);
            let after = merged(state, incoming.push(rule), source);
            let id = lowercase(trimmed(rule.id));
            &&& after.rules == (if before.seen.contains(id) {
                before.rules
            } else {
                before.rules.push(rule)
            })
            &&& after.seen == before.seen.insert(id)
            &&& after.log.len() == before.log.len() + 1
        }),
{
    assert(incoming.push(rule).drop_last() == incoming);
    let before = merged(state, incoming, source);
    let id = lowercase(trimmed(rule.id));
    if before.seen.contains(id) {
        assert(before.seen.insert(id) == before.seen);
    }
}

/// Sources are gathered one by one: the rules of a further source are merged with those
/// gathered before, and its lines come behind theirs.
pub proof fn sources_are_gathered_one_by_one(sources: Seq<SourceView>, source: SourceView)
    ensures
        gathered(Seq::empty()).rules.len() == 0,
        gathered(Seq::empty()).log.len() == 0,
        consistent(gathered(sources)),
        ({
            let before = gathered(sources);
            let after = gathered(sources.push(source));
            let joined = merged(
                MergeView { log: Seq::empty(), ..before },
                directory_rules(source.listing),
                source.path,
            );
            &&& after.rules == joined.rules
            &&& after.seen == joined.seen
            &&& after.log == before.log + directory_log(source.path, source.listing) + joined.log
        }),
{
    lemma_gathered(sources);
    assert(sources.push(source).drop_last() == sources);
}

proof fn lemma_merged_origin(
    state: MergeView,
    incoming: Seq<RuleView>,
    source: Seq<char>,
    i: int,
) -> (q: int)
    requires
        state.rules.len() <= i < merged(state, incoming, source).rules.len(),
    ensures
        0 <= q < incoming.len(),
        incoming[q] == merged(state, incoming, source).rules[i],
        comes_first(state, incoming, q),
    decreases incoming.len(),
{
    let rest = incoming.drop_last();
    let before = merged(state, rest, source);
    let last = incoming.len() - 1;
    if i < before.rules.len() {
        let q = lemma_merged_origin(state, rest, source, i);
        assert forall|j: int| 0 <= j < q implies normalized_id(#[trigger] incoming[j].id)
            != normalized_id(incoming[q].id) by {
            assert(normalized_id(rest[j].id) != normalized_id(rest[q].id));
        }
        q
    } else {
        let id = normalized_id(incoming[last].id);
        lemma_seen_ids(state, rest, source, id);
        assert forall|j: int| 0 <= j < last implies normalized_id(#[trigger] incoming[j].id)
            != id by {
            assert(rest[j] == incoming[j]);
            if normalized_id(rest[j].id) == id {
                assert(before.seen.contains(id));
            }
        }
        last
    }
}

proof fn lemma_every_id_is_seen(sources: Seq<SourceView>, s: int, q: int)
    requires
        0 <= s < sources.len(),
        0 <= q < directory_rules(sources[s].listing).len(),
    ensures
        gathered(sources).seen.contains(normalized_id(directory_rules(sources[s].listing)[q].id)),
    decreases sources.len(),
{
    let rest = sources.drop_last();
    let last = sources.last();
    let state = MergeView { log: Seq::empty(), ..gathered(rest) };
    let incoming = directory_rules(last.listing);
    if s < rest.len() {
        assert(rest[s] == sources[s]);
        lemma_every_id_is_seen(rest, s, q);
        merging_keeps_earlier_rules(state, incoming, last.path);
    } else {
        assert(sources[s] == last);
        let id = normalized_id(incoming[q].id);
        lemma_seen_ids(state, incoming, last.path, id);
    }
}

/// The rule at position `q` of those that the source at position `s` yields comes first
/// under its id: no earlier source, and nothing before it in its own source, yields a rule
/// with that id, up to case and surrounding white space.
pub open spec fn is_first_of_all(sources: Seq<SourceView>, s: int, q: int) -> bool {
    &&& 0 <= s < sources.len()
    &&& 0 <= q < directory_rules(sources[s].listing).len()
    &&& forall|t: int, u: int|
        0 <= t < sources.len() && 0 <= u < directory_rules(sources[t].listing).len() && (t < s || t
            == s && u < q) ==> lowercase(
            trimmed((#[trigger] directory_rules(sources[t].listing)[u]).id),
        ) != lowercase(trimmed(directory_rules(sources[s].listing)[q].id))
}

/// Some source yields the rule, at a place where it comes first under its id.
pub open spec fn is_yielded_first(sources: Seq<SourceView>, rule: RuleView) -> bool {
    exists|s: int, q: int| #[trigger]
        is_first_of_all(sources, s, q) && directory_rules(sources[s].listing)[q] == rule
}

proof fn lemma_gathered_origin(sources: Seq<SourceView>, i: int) -> (place: (int, int))
    requires
        0 <= i < gathered(sources).rules.len(),
    ensures
        is_first_of_all(sources, place.0, place.1),
        directory_rules(sources[place.0].listing)[place.1] == gathered(sources).rules[i],
    decreases sources.len(),
{
    let rest = sources.drop_last();
    let last = sources.last();
    let n = rest.len() as int;
    let state = MergeView { log: Seq::empty(), ..gathered(rest) };
    let incoming = directory_rules(last.listing);
    assert(sources[n] == last);
    if i < gathered(rest).rules.len() {
        merging_keeps_earlier_rules(state, incoming, last.path);
        assert(gathered(sources).rules[i] == gathered(rest).rules[i]);
        let place = lemma_gathered_origin(rest, i);
        let (s, q) = place;
        assert(rest[s] == sources[s]);
        assert forall|t: int, u: int|
            0 <= t < sources.len() && 0 <= u < directory_rules(sources[t].listing).len() && (t < s
                || t == s && u < q) implies lowercase(
            trimmed((#[trigger] directory_rules(sources[t].listing)[u]).id),
        ) != lowercase(trimmed(directory_rules(sources[s].listing)[q].id)) by {
            assert(rest[t] == sources[t]);
            assert(directory_rules(rest[t].listing)[u] == directory_rules(sources[t].listing)[u]);
        }
        place
    } else {
        let q = lemma_merged_origin(state, incoming, last.path, i);
        assert forall|t: int, u: int|
            0 <= t < sources.len() && 0 <= u < directory_rules(sources[t].listing).len() && (t < n
                || t == n && u < q) implies lowercase(
            trimmed((#[trigger] directory_rules(sources[t].listing)[u]).id),
        ) != lowercase(trimmed(directory_rules(sources[n].listing)[q].id)) by {
            if t < n {
                assert(rest[t] == sources[t]);
                lemma_every_id_is_seen(rest, t, u);
            } else {
                assert(normalized_id(incoming[u].id) != normalized_id(incoming[q].id));
            }
        }
        (n, q)
    }
}

/// Of all the rules that the built-in sources yield, none is lost but to one that comes
/// first under the same id: the id of each is among those of the loaded rules.
pub proof fn every_id_is_loaded(
    sources: Seq<SourceView>,
    customs: Seq<SourceView>,
    loaded: Seq<RuleView>,
    log: Seq<Seq<char>>,
    s: int,
    q: int,
) -> (i: int)
    requires
        is_load(sources, customs, loaded, log),
        0 <= s < sources.len(),
        0 <= q < directory_rules(sources[s].listing).len(),
    ensures
        0 <= i < loaded.len(),
        lowercase(trimmed(loaded[i].id)) == lowercase(
            trimmed(directory_rules(sources[s].listing)[q].id),
        ),
{
    let active = active_rules(sources);
    let rules = gathered(sources).rules;
    let id = normalized_id(directory_rules(sources[s].listing)[q].id);
    lemma_gathered(sources);
    lemma_every_id_is_seen(sources, s, q);
    let k = choose|k: int| 0 <= k < rules.len() && normalized_id(#[trigger] rules[k].id) == id;
    assert(active[k] == rules[k]);
    assert(active.contains(active[k]));
    stable_sort_keeps_rules(active, loaded);
    assert(loaded.contains(active[k]));
    choose|i: int| 0 <= i < loaded.len() && loaded[i] == active[k]
}

/// Where there are rule files, each loaded rule is the first under its id of all the rules
/// that the built-in sources yield, in the order of the sources. Each such rule is loaded,
/// and none twice. They stand in the order of their ids.
pub proof fn loaded_rules_are_the_first_under_their_ids(
    sources: Seq<SourceView>,
    customs: Seq<SourceView>,
    loaded: Seq<RuleView>,
    log: Seq<Seq<char>>,
)
    requires
        is_load(sources, customs, loaded, log),
        exists|s: int|
            0 <= s < sources.len() && directory_files(#[trigger] sources[s].listing) > 0,
    ensures
        forall|i: int| 0 <= i < loaded.len() ==> is_yielded_first(sources, #[trigger] loaded[i]),
        forall|s: int, q: int|
            is_first_of_all(sources, s, q) ==> loaded.contains(
                #[trigger] directory_rules(sources[s].listing)[q],
            ),
        forall|i: int, j: int|
            0 <= i < j < loaded.len() ==> lowercase(trimmed((#[trigger] loaded[i]).id))
                != lowercase(trimmed((#[trigger] loaded[j]).id)) && !precedes(
                lowercase(loaded[j].id),
                lowercase(loaded[i].id),
            ),
{
    let active = active_rules(sources);
    assert(!no_rule_files(sources)) by {
        let s = choose|s: int|
            0 <= s < sources.len() && directory_files(#[trigger] sources[s].listing) > 0;
        assert(directory_files(sources[s].listing) != 0);
    }
    assert(active == gathered(sources).rules);
    stable_sort_keeps_rules(active, loaded);
    ordered_rules_stand_by_their_ids(active, loaded);
    loaded_rules_are_fit(sources, customs, loaded, log);
    assert forall|i: int| 0 <= i < loaded.len() implies is_yielded_first(
        sources,
        #[trigger] loaded[i],
    ) by {
        assert(loaded.contains(loaded[i]));
        let k = choose|k: int| 0 <= k < active.len() && active[k] == loaded[i];
        let (s, q) = lemma_gathered_origin(sources, k);
        assert(is_first_of_all(sources, s, q));
    }
    assert forall|s: int, q: int| is_first_of_all(sources, s, q) implies loaded.contains(
        #[trigger] directory_rules(sources[s].listing)[q],
    ) by {
        let rule = directory_rules(sources[s].listing)[q];
        let i = every_id_is_loaded(sources, customs, loaded, log, s, q);
        assert(loaded.contains(loaded[i]));
        let k = choose|k: int| 0 <= k < active.len() && active[k] == loaded[i];
        let (t, u) = lemma_gathered_origin(sources, k);
        let other = directory_rules(sources[t].listing)[u];
        assert(other == loaded[i]);
        if t < s || t == s && u < q {
            assert(lowercase(trimmed(directory_rules(sources[t].listing)[u].id)) != lowercase(
                trimmed(rule.id),
            ));
        } else if s < t || s == t && q < u {
            assert(lowercase(trimmed(directory_rules(sources[s].listing)[q].id)) != lowercase(
                trimmed(other.id),
            ));
        }
    }
    assert forall|i: int, j: int| 0 <= i < j < loaded.len() implies lowercase(
        trimmed((#[trigger] loaded[i]).id),
    ) != lowercase(trimmed((#[trigger] loaded[j]).id)) && !precedes(
        lowercase(loaded[j].id),
        lowercase(loaded[i].id),
    ) by {
        assert(normalized_id(loaded[i].id) != normalized_id(loaded[j].id));
    }
}

/// Where there are no rule files, the one rule that is loaded is the default rule.
pub proof fn without_files_the_default_is_loaded(
    sources: Seq<SourceView>,
    customs: Seq<SourceView>,
    loaded: Seq<RuleView>,
    log: Seq<Seq<char>>,
)
    requires
        is_load(sources, customs, loaded, log),
        forall|s: int|
            0 <= s < sources.len() ==> directory_files(#[trigger] sources[s].listing) == 0,
    ensures
        loaded == default_rules(),
        loaded.len() == 1,
        loaded[0].id == "connection_refused"@,
{
    without_files_the_defaults_are_active(sources);
    stable_sort_keeps_rules(default_rules(), loaded);
    assert(loaded.contains(loaded[0]));
    assert(default_rules().contains(loaded[0]));
    assert(loaded == default_rules());
}

/// The log of a load says first that the rules are loaded and last how many there are.
/// Without custom sources there is between that what the sources have left behind and,
/// where no source holds a rule file, that the default rule is used, or, where errors
/// are all that came out of them, that none is valid.
pub proof fn the_log_of_a_load_says_what_was_found(
    sources: Seq<SourceView>,
    customs: Seq<SourceView>,
    loaded: Seq<RuleView>,
    log: Seq<Seq<char>>,
)
    requires
        is_load(sources, customs, loaded, log),
    ensures
        log.len() >= 2,
        log[0] == "[RULES] Loading built-in rules..."@,
        log.last() == "[RULES] Active built-in rules: "@ + decimal(loaded.len()),
        ({
            let any_file = exists|s: int|
                0 <= s < sources.len() && directory_files(#[trigger] sources[s].listing) > 0;
            let any_error = exists|s: int|
                0 <= s < sources.len() && directory_log(
                    sources[s].path,
                    #[trigger] sources[s].listing,
                ).len() > 0;
            customs.len() == 0 ==> log.subrange(1, log.len() - 1) == gathered(sources).log + (
            if !any_file {
                seq![
                    "[RULES] No built-in JSON rules found. Loading bootstrap fallback rule."@,
                    "[RULES] Loaded fallback: "@ + "connection_refused"@,
                ]
            } else if loaded.len() == 0 && any_error {
                seq!["[RULES ERROR] Built-in rule files exist but none are valid."@]
            } else {
                Seq::empty()
            })
        }),
{
    stable_sort_keeps_rules(active_rules(sources), loaded);
    let any_file = exists|s: int|
        0 <= s < sources.len() && directory_files(#[trigger] sources[s].listing) > 0;
    if !any_file {
        assert(no_rule_files(sources));
    } else {
        let s = choose|s: int|
            0 <= s < sources.len() && directory_files(#[trigger] sources[s].listing) > 0;
        assert(directory_files(sources[s].listing) != 0);
    }
    if customs.len() == 0 {
        assert(log.subrange(1, log.len() - 1) == gathered(sources).log + fallback_log(sources));
    }
}

/// A further custom source leaves behind what its files give rise to and, where it holds
/// a rule file, that custom rules are not available. It leaves nothing else behind.
pub proof fn customs_are_reported_one_by_one(
    sources: Seq<SourceView>,
    customs: Seq<SourceView>,
    custom: SourceView,
    before_rules: Seq<RuleView>,
    before: Seq<Seq<char>>,
    after_rules: Seq<RuleView>,
    after: Seq<Seq<char>>,
)
    requires
        is_load(sources, customs, before_rules, before),
        is_load(sources, customs.push(custom), after_rules, after),
    ensures
        after_rules == before_rules,
        after == (before.drop_last() + directory_log(custom.path, custom.listing) + (
        if directory_files(custom.listing) > 0 {
            seq!["[UPGRADE REQUIRED] Custom rules are not available in Aegira Free."@]
        } else {
            Seq::empty()
        })).push(before.last()),
{
    stable_sort_is_unique(active_rules(sources), before_rules, after_rules);
    assert(customs.push(custom).drop_last() == customs);
    let open = seq!["[RULES] Loading built-in rules..."@] + gathered(sources).log + fallback_log(
        sources,
    );
    assert(before.drop_last() == open + custom_log(customs));
    assert(after.drop_last() == open + custom_log(customs.push(custom)));
    assert(after == after.drop_last().push(after.last()));
}

/// Sources are viewed as they are written, in their order.
pub proof fn sources_are_viewed_as_written(sources: Seq<RuleSource>)
    ensures
        source_views(sources).len() == sources.len(),
        forall|i: int|
            0 <= i < sources.len() ==> (#[trigger] source_views(sources)[i]).path
                == sources[i].path@ && source_views(sources)[i].listing == sources[i].listing@,
{
}

} // verus!
