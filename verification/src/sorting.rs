//! The order in which active rules are kept.

use vstd::prelude::*;
use vstd::seq_lib::{group_to_multiset_ensures, to_multiset_contains};
use crate::rule::{rule_views, Rule, RuleView};
use crate::text::{lowercase, precedes, precedes_is_irreflexive, precedes_is_total,
    precedes_is_transitive, text_precedes};

verus! {

/// What rules are ordered by: the id in lowercase.
pub open spec fn sort_key(rule: RuleView) -> Seq<char> {
    lowercase(rule.id)
}

/// No rule stands behind one with a greater key.
pub open spec fn sorted_by_id(rules: Seq<RuleView>) -> bool {
    forall|i: int, j: int|
        0 <= i < j < rules.len() ==> !precedes(
            sort_key(#[trigger] rules[j]),
            sort_key(#[trigger] rules[i]),
        )
}

/// The rules with one key, in their order.
pub open spec fn with_key(rules: Seq<RuleView>, key: Seq<char>) -> Seq<RuleView> {
    rules.filter(|rule: RuleView| sort_key(rule) == key)
}

/// `output` holds the rules of `input`, ordered by their keys; rules with the same
/// key keep the order in which they stand in `input`.
pub open spec fn is_stable_sort(input: Seq<RuleView>, output: Seq<RuleView>) -> bool {
    &&& input.to_multiset() == output.to_multiset()
    &&& sorted_by_id(output)
    &&& forall|key: Seq<char>| #[trigger] with_key(input, key) == with_key(output, key)
}

proof fn lemma_insertion(
    input: Seq<RuleView>,
    output: Seq<RuleView>,
    rule: RuleView,
    at: int,
)
    requires
        is_stable_sort(input, output),
        0 <= at <= output.len(),
        at > 0 ==> !precedes(sort_key(rule), sort_key(output[at - 1])),
        forall|i: int|
            at <= i < output.len() ==> precedes(sort_key(rule), sort_key(#[trigger] output[i])),
    ensures
        is_stable_sort(input.push(rule), output.insert(at, rule)),
{
    broadcast use group_to_multiset_ensures;

    let longer = output.insert(at, rule);
    let front = output.take(at);
    let back = output.skip(at);
    assert(output == front + back);
    assert(longer == front + seq![rule] + back);
    assert forall|i: int, j: int| 0 <= i < j < longer.len() implies !precedes(
        sort_key(#[trigger] longer[j]),
        sort_key(#[trigger] longer[i]),
    ) by {
        if i == at {
            let a = sort_key(rule);
            let b = sort_key(output[j - 1]);
            if precedes(b, a) {
                precedes_is_transitive(a, b, a);
                precedes_is_irreflexive(a);
            }
        } else if j == at {
            let a = sort_key(rule);
            let b = sort_key(output[at - 1]);
            let c = sort_key(output[i]);
            if precedes(a, c) && i < at - 1 {
                assert(!precedes(b, c));
                precedes_is_total(b, c);
                if b != c {
                    precedes_is_transitive(a, c, b);
                }
            }
        }
    }
    assert forall|key: Seq<char>| #[trigger]
        with_key(input.push(rule), key) == with_key(longer, key) by {
        reveal(Seq::filter);
        let same = |r: RuleView| sort_key(r) == key;
        assert(input.push(rule).drop_last() == input);
        assert(with_key(input, key) == with_key(output, key));
        Seq::filter_distributes_over_add(front, back, same);
        Seq::filter_distributes_over_add(front + seq![rule], back, same);
        assert((front + seq![rule]) == front.push(rule));
        assert(front.push(rule).drop_last() == front);
        if sort_key(rule) == key {
            assert(back.filter(same).len() == 0) by {
                if back.filter(same).len() > 0 {
                    lemma_filtered_rule_stands(back, same, 0);
                    let i = choose|i: int| 0 <= i < back.len() && back[i] == back.filter(same)[0];
                    assert(back[i] == output[at + i]);
                    precedes_is_irreflexive(key);
                }
            }
            assert(with_key(longer, key) == with_key(input, key).push(rule));
        } else {
            assert(with_key(longer, key) == with_key(input, key));
        }
    }
}

proof fn lemma_filtered_rule_stands(
    rules: Seq<RuleView>,
    pred: spec_fn(RuleView) -> bool,
    i: int,
)
    requires
        0 <= i < rules.filter(pred).len(),
    ensures
        pred(rules.filter(pred)[i]),
        rules.contains(rules.filter(pred)[i]),
    decreases rules.len(),
{
    reveal(Seq::filter);
    let rest = rules.drop_last();
    if i < rest.filter(pred).len() {
        lemma_filtered_rule_stands(rest, pred, i);
        let j = choose|j: int| 0 <= j < rest.len() && rest[j] == rest.filter(pred)[i];
        assert(rules[j] == rest[j]);
    } else {
        assert(rules[rules.len() - 1] == rules.last());
    }
}

/// Orders rules by their id in lowercase; rules with the same id in lowercase keep
/// their order.
pub fn sort_rules(rules: Vec<Rule>) -> (r: Vec<Rule>)
    ensures
        is_stable_sort(rule_views(rules@), rule_views(r@)),
        r@.len() == rules@.len(),
        forall|i: int, j: int|
            0 <= i < j < r@.len() ==> !precedes(
                lowercase((#[trigger] r@[j]).id@),
                lowercase((#[trigger] r@[i]).id@),
            ),
{
    let ghost all = rules@;
    let mut sorted: Vec<Rule> = Vec::new();
    assert(rule_views(all.take(0)) == rule_views(sorted@));
    for rule in it: rules
        invariant
            it.seq() == all,
            sorted@.len() == it.index(),
            is_stable_sort(rule_views(all.take(it.index() as int)), rule_views(sorted@)),
    {
        let ghost done = all.take(it.index() as int);
        let ghost before = sorted@;
        let key: String = rule.id.to_lowercase();
        let mut at: usize = sorted.len();
        while at > 0 && text_precedes(key.as_str(), sorted[at - 1].id.to_lowercase().as_str())
            invariant
                at <= sorted@.len(),
                key@ == sort_key(rule@),
                forall|i: int|
                    at <= i < sorted@.len() ==> precedes(
                        key@,
                        sort_key(#[trigger] rule_views(sorted@)[i]),
                    ),
            decreases at,
        {
            at = at - 1;
        }
        proof {
            lemma_insertion(rule_views(done), rule_views(sorted@), rule@, at as int);
            assert(rule_views(done.push(rule)) == rule_views(done).push(rule@));
            assert(all.take(it.index() + 1) == done.push(rule));
        }
        sorted.insert(at, rule);
        assert(rule_views(sorted@) == rule_views(before).insert(at as int, rule@));
    }
    assert(all.take(all.len() as int) == all);
    proof {
        let views = rule_views(sorted@);
        assert forall|i: int, j: int| 0 <= i < j < sorted@.len() implies !precedes(
            lowercase((#[trigger] sorted@[j]).id@),
            lowercase((#[trigger] sorted@[i]).id@),
        ) by {
            assert(!precedes(sort_key(views[j]), sort_key(views[i])));
        }
    }
    sorted
}

proof fn lemma_same_groups(x: Seq<RuleView>, y: Seq<RuleView>)
    requires
        sorted_by_id(x),
        sorted_by_id(y),
        forall|key: Seq<char>| #[trigger] with_key(x, key) == with_key(y, key),
    ensures
        x == y,
    decreases x.len(),
{
    reveal(Seq::filter);
    if x.len() == 0 {
        if y.len() > 0 {
            let key = sort_key(y.last());
            assert(with_key(x, key) == with_key(y, key));
        }
        assert(x == y);
    } else {
        let kx = sort_key(x.last());
        assert(with_key(x, kx) == with_key(y, kx));
        assert(with_key(x, kx).last() == x.last());
        lemma_filtered_rule_stands(
            y,
            |rule: RuleView| sort_key(rule) == kx,
            with_key(y, kx).len() - 1,
        );
        let ky = sort_key(y.last());
        assert(with_key(x, ky) == with_key(y, ky));
        assert(with_key(y, ky).last() == y.last());
        lemma_filtered_rule_stands(
            x,
            |rule: RuleView| sort_key(rule) == ky,
            with_key(x, ky).len() - 1,
        );
        let i = choose|i: int| 0 <= i < y.len() && y[i] == x.last();
        let j = choose|j: int| 0 <= j < x.len() && x[j] == y.last();
        precedes_is_total(kx, ky);
        precedes_is_irreflexive(kx);
        assert(y[y.len() - 1] == y.last());
        assert(x[x.len() - 1] == x.last());
        assert(kx == ky);
        assert(x.last() == y.last());
        let u = x.drop_last();
        let v = y.drop_last();
        assert forall|key: Seq<char>| #[trigger] with_key(u, key) == with_key(v, key) by {
            assert(with_key(x, key) == with_key(y, key));
            if key == kx {
                assert(with_key(u, key) == with_key(x, key).drop_last());
                assert(with_key(v, key) == with_key(y, key).drop_last());
            }
        }
        lemma_same_groups(u, v);
        assert(x == u.push(x.last()));
        assert(y == v.push(y.last()));
    }
}

/// There is only one way to order a list of rules so that rules with the same key
/// keep their order.
pub proof fn stable_sort_is_unique(input: Seq<RuleView>, x: Seq<RuleView>, y: Seq<RuleView>)
    requires
        is_stable_sort(input, x),
        is_stable_sort(input, y),
    ensures
        x == y,
{
    assert forall|key: Seq<char>| #[trigger] with_key(x, key) == with_key(y, key) by {
        assert(with_key(input, key) == with_key(x, key));
        assert(with_key(input, key) == with_key(y, key));
    }
    lemma_same_groups(x, y);
}

/// Ordering rules neither adds nor drops any.
pub proof fn stable_sort_keeps_rules(input: Seq<RuleView>, output: Seq<RuleView>)
    requires
        is_stable_sort(input, output),
    ensures
        input.len() == output.len(),
        forall|rule: RuleView| input.contains(rule) <==> #[trigger] output.contains(rule),
        input.no_duplicates() ==> output.no_duplicates(),
{
    broadcast use group_to_multiset_ensures;

    assert forall|rule: RuleView| input.contains(rule) <==> #[trigger] output.contains(rule) by {
        to_multiset_contains(input, rule);
        to_multiset_contains(output, rule);
    }
    assert(input.len() == input.to_multiset().len());
    assert(output.len() == output.to_multiset().len());
    if input.no_duplicates() {
        input.lemma_multiset_has_no_duplicates();
        output.lemma_multiset_has_no_duplicates_conv();
    }
}

/// In a list that is in order, no id in lowercase comes before that of a rule that stands
/// earlier. A rule that stood before another with the same id in lowercase still does.
pub proof fn ordered_rules_stand_by_their_ids(input: Seq<RuleView>, output: Seq<RuleView>)
    requires
        is_stable_sort(input, output),
    ensures
        input.to_multiset() == output.to_multiset(),
        forall|i: int, j: int|
            0 <= i < j < output.len() ==> !precedes(
                lowercase((#[trigger] output[j]).id),
                lowercase((#[trigger] output[i]).id),
            ),
        forall|id: Seq<char>|
            #![trigger lowercase(id)]
            input.filter(|rule: RuleView| lowercase(rule.id) == lowercase(id)) == output.filter(
                |rule: RuleView| lowercase(rule.id) == lowercase(id),
            ),
{
    assert forall|i: int, j: int| 0 <= i < j < output.len() implies !precedes(
        lowercase((#[trigger] output[j]).id),
        lowercase((#[trigger] output[i]).id),
    ) by {
        assert(!precedes(sort_key(output[j]), sort_key(output[i])));
    }
    assert forall|id: Seq<char>| #![trigger lowercase(id)]
        input.filter(|rule: RuleView| lowercase(rule.id) == lowercase(id)) == output.filter(
            |rule: RuleView| lowercase(rule.id) == lowercase(id),
        ) by {
        let key = lowercase(id);
        assert(with_key(input, key) == with_key(output, key));
        assert((|rule: RuleView| sort_key(rule) == key) =~= (|rule: RuleView| lowercase(rule.id)
            == lowercase(id)));
    }
}

} // verus!
