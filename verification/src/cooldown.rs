//! Cooldowns: the incidents that have been answered a short while ago.
//!
//! Moments are numbers of nanoseconds that have passed since a fixed moment.

use vstd::prelude::*;
use crate::rule::{Rule, RuleView};
use crate::text::{lowercase, same_text};

verus! {

/// How long an incident is not answered again, in nanoseconds.
pub const INCIDENT_COOLDOWN_NANOS: u64 = 30_000_000_000;

/// How much time has passed from one moment to another; none where the other comes
/// first.
pub open spec fn elapsed_nanos(since: u64, now: u64) -> int {
    if now >= since {
        now - since
    } else {
        0
    }
}

/// How much time has passed from one moment to another.
pub(crate) fn elapsed(since: u64, now: u64) -> (r: u64)
    ensures
        r == elapsed_nanos(since, now),
{
    now.saturating_sub(since)
}

spec fn stands_at(entries: Seq<(String, u64)>, key: Seq<char>, i: int) -> bool {
    0 <= i < entries.len() && entries[i].0@ == key
}

spec fn distinct_keys(entries: Seq<(String, u64)>) -> bool {
    forall|i: int, j: int|
        0 <= i < j < entries.len() ==> (#[trigger] entries[i]).0@ != (#[trigger] entries[j]).0@
}

spec fn as_map(entries: Seq<(String, u64)>) -> Map<Seq<char>, u64> {
    Map::new(
        |key: Seq<char>| exists|i: int| stands_at(entries, key, i),
        |key: Seq<char>| entries[choose|i: int| stands_at(entries, key, i)].1,
    )
}

/// For each incident that has been answered, when that was.
pub struct Cooldowns {
    entries: Vec<(String, u64)>,
}

impl View for Cooldowns {
    type V = Map<Seq<char>, u64>;

    closed spec fn view(&self) -> Map<Seq<char>, u64> {
        as_map(self.entries@)
    }
}

proof fn lemma_entry(entries: Seq<(String, u64)>, i: int)
    requires
        distinct_keys(entries),
        0 <= i < entries.len(),
    ensures
        as_map(entries).contains_key(entries[i].0@),
        as_map(entries)[entries[i].0@] == entries[i].1,
{
    let key = entries[i].0@;
    assert(stands_at(entries, key, i));
    let j = choose|j: int| stands_at(entries, key, j);
    if i < j {
        assert(entries[i].0@ != entries[j].0@);
    } else if j < i {
        assert(entries[j].0@ != entries[i].0@);
    }
}

impl Cooldowns {
    #[verifier::type_invariant]
    spec fn keys_are_distinct(self) -> bool {
        distinct_keys(self.entries@)
    }

    /// No incidents.
    pub fn new() -> (r: Cooldowns)
        ensures
            r@ == Map::<Seq<char>, u64>::empty(),
    {
        let r = Cooldowns { entries: Vec::new() };
        assert(r@ == Map::<Seq<char>, u64>::empty());
        r
    }

    fn position(&self, key: &str) -> (r: Option<usize>)
        ensures
            match r {
                Some(i) => stands_at(self.entries@, key@, i as int),
                None => forall|i: int| !stands_at(self.entries@, key@, i),
            },
    {
        let mut i: usize = 0;
        while i < self.entries.len()
            invariant
                i <= self.entries@.len(),
                forall|j: int| 0 <= j < i ==> !#[trigger] stands_at(self.entries@, key@, j),
            decreases self.entries.len() - i,
        {
            if same_text(self.entries[i].0.as_str(), key) {
                return Some(i);
            }
            i = i + 1;
        }
        None
    }

    /// When an incident was answered.
    pub fn answered_at(&self, key: &str) -> (r: Option<u64>)
        ensures
            r is Some <==> self@.contains_key(key@),
            r is Some ==> r->0 == self@[key@],
    {
        proof {
            use_type_invariant(self);
        }
        match self.position(key) {
            Some(i) => {
                proof {
                    lemma_entry(self.entries@, i as int);
                }
                Some(self.entries[i].1)
            },
            None => None,
        }
    }

    /// Notes that an incident is answered now.
    pub fn record(&mut self, key: String, now: u64)
        ensures
            final(self)@ == old(self)@.insert(key@, now),
    {
        proof {
            use_type_invariant(&*self);
        }
        let found: Option<usize> = self.position(key.as_str());
        let mut entries: Vec<(String, u64)> = Vec::new();
        std::mem::swap(&mut entries, &mut self.entries);
        let ghost before = entries@;
        let ghost name = key@;
        match found {
            Some(i) => {
                entries.set(i, (key, now));
                proof {
                    lemma_recorded(before, entries@, name, now, i as int);
                }
            },
            None => {
                entries.push((key, now));
                proof {
                    lemma_recorded(before, entries@, name, now, before.len() as int);
                }
            },
        }
        self.entries = entries;
    }
}

proof fn lemma_recorded(
    before: Seq<(String, u64)>,
    after: Seq<(String, u64)>,
    key: Seq<char>,
    now: u64,
    at: int,
)
    requires
        distinct_keys(before),
        0 <= at < after.len(),
        after[at].0@ == key && after[at].1 == now,
        after.len() == before.len() && before[at].0@ == key || after.len() == before.len() + 1 && at
            == before.len() && (forall|i: int| !stands_at(before, key, i)),
        forall|i: int| 0 <= i < before.len() && i != at ==> after[i] == before[i],
    ensures
        distinct_keys(after),
        as_map(after) == as_map(before).insert(key, now),
{
    assert(distinct_keys(after)) by {
        assert forall|i: int, j: int| 0 <= i < j < after.len() implies (#[trigger] after[i]).0@ != (
        #[trigger] after[j]).0@ by {
            if j == at && at == before.len() {
                assert(!stands_at(before, key, i));
            } else if i != at && j != at {
                assert(before[i].0@ != before[j].0@);
            } else {
                assert(before[i].0@ != before[j].0@);
            }
        }
    }
    lemma_entry(after, at);
    assert forall|k: Seq<char>| #![auto]
        as_map(after).contains_key(k) == as_map(before).insert(key, now).contains_key(k) by {
        if as_map(after).contains_key(k) && k != key {
            let i = choose|i: int| stands_at(after, k, i);
            assert(stands_at(before, k, i));
        }
        if as_map(before).contains_key(k) && k != key {
            let i = choose|i: int| stands_at(before, k, i);
            assert(stands_at(after, k, i));
        }
    }
    assert forall|k: Seq<char>| #![auto] as_map(after).contains_key(k) implies as_map(after)[k]
        == as_map(before).insert(key, now)[k] by {
        if k != key {
            let i = choose|i: int| stands_at(after, k, i);
            lemma_entry(after, i);
            lemma_entry(before, i);
        }
    }
    assert(as_map(after) =~= as_map(before).insert(key, now));
}

/// The incidents whose cooldown has not yet passed.
pub open spec fn still_cooling(cooldowns: Map<Seq<char>, u64>, now: u64) -> Map<Seq<char>, u64> {
    Map::new(
        |key: Seq<char>|
            cooldowns.contains_key(key) && elapsed_nanos(cooldowns[key], now)
                < INCIDENT_COOLDOWN_NANOS,
        |key: Seq<char>| cooldowns[key],
    )
}

/// Forgets the incidents whose cooldown has passed, and no others.
pub fn cleanup_cooldowns(cooldowns: &mut Cooldowns, now: u64)
    ensures
        final(cooldowns)@ == still_cooling(old(cooldowns)@, now),
        forall|key: Seq<char>| #[trigger]
            final(cooldowns)@.contains_key(key) <==> old(cooldowns)@.contains_key(key) && now
                - old(cooldowns)@[key] < 30_000_000_000,
        forall|key: Seq<char>| #[trigger]
            final(cooldowns)@.contains_key(key) ==> final(cooldowns)@[key] == old(
                cooldowns,
            )@[key],
{
    proof {
        use_type_invariant(&*cooldowns);
    }
    let mut entries: Vec<(String, u64)> = Vec::new();
    std::mem::swap(&mut entries, &mut cooldowns.entries);
    let ghost all = entries@;
    let mut kept: Vec<(String, u64)> = Vec::new();
    let ghost mut origin: Seq<int> = Seq::empty();
    for entry in it: entries
        invariant
            it.seq() == all,
            distinct_keys(all),
            kept@.len() == origin.len(),
            forall|k: int|
                0 <= k < kept@.len() ==> 0 <= #[trigger] origin[k] < it.index() && kept@[k]
                    == all[origin[k]] && elapsed_nanos(kept@[k].1, now) < INCIDENT_COOLDOWN_NANOS,
            forall|k: int, l: int|
                0 <= k < l < kept@.len() ==> #[trigger] origin[k] < #[trigger] origin[l],
            forall|i: int|
                0 <= i < it.index() && elapsed_nanos((#[trigger] all[i]).1, now)
                    < INCIDENT_COOLDOWN_NANOS ==> origin.contains(i),
    {
        let ghost held = origin;
        if elapsed(entry.1, now) < INCIDENT_COOLDOWN_NANOS {
            kept.push(entry);
            proof {
                origin = origin.push(it.index() as int);
                assert(origin[held.len() as int] == it.index());
                assert forall|i: int| held.contains(i) implies origin.contains(i) by {
                    let k = choose|k: int| 0 <= k < held.len() && held[k] == i;
                    assert(origin[k] == i);
                }
            }
        }
    }
    proof {
        lemma_kept(all, kept@, origin, now);
    }
    cooldowns.entries = kept;
}

proof fn lemma_kept(
    all: Seq<(String, u64)>,
    kept: Seq<(String, u64)>,
    origin: Seq<int>,
    now: u64,
)
    requires
        distinct_keys(all),
        kept.len() == origin.len(),
        forall|k: int|
            0 <= k < kept.len() ==> 0 <= #[trigger] origin[k] < all.len() && kept[k]
                == all[origin[k]] && elapsed_nanos(kept[k].1, now) < INCIDENT_COOLDOWN_NANOS,
        forall|k: int, l: int|
            0 <= k < l < kept.len() ==> #[trigger] origin[k] < #[trigger] origin[l],
        forall|i: int|
            0 <= i < all.len() && elapsed_nanos((#[trigger] all[i]).1, now)
                < INCIDENT_COOLDOWN_NANOS ==> origin.contains(i),
    ensures
        distinct_keys(kept),
        as_map(kept) == still_cooling(as_map(all), now),
{
    assert(distinct_keys(kept)) by {
        assert forall|k: int, l: int| 0 <= k < l < kept.len() implies (#[trigger] kept[k]).0@ != (
        #[trigger] kept[l]).0@ by {
            assert(origin[k] < origin[l]);
            assert(all[origin[k]].0@ != all[origin[l]].0@);
        }
    }
    let target = still_cooling(as_map(all), now);
    assert forall|key: Seq<char>| #![auto]
        as_map(kept).contains_key(key) == target.contains_key(key) by {
        if as_map(kept).contains_key(key) {
            let k = choose|k: int| stands_at(kept, key, k);
            assert(0 <= origin[k] < all.len());
            lemma_entry(all, origin[k]);
        }
        if target.contains_key(key) {
            let i = choose|i: int| stands_at(all, key, i);
            lemma_entry(all, i);
            assert(origin.contains(i));
            let k = choose|k: int| 0 <= k < origin.len() && origin[k] == i;
            assert(stands_at(kept, key, k));
        }
    }
    assert forall|key: Seq<char>| #![auto] as_map(kept).contains_key(key) implies as_map(kept)[key]
        == target[key] by {
        let k = choose|k: int| stands_at(kept, key, k);
        lemma_entry(kept, k);
        assert(0 <= origin[k] < all.len());
        lemma_entry(all, origin[k]);
    }
    assert(as_map(kept) =~= target);
}

/// What an incident that a rule answers is remembered by.
pub open spec fn cooldown_key(rule: RuleView, incident: Seq<char>) -> Seq<char> {
    lowercase(rule.id) + ":"@ + lowercase(incident)
}

/// What an incident that a rule answers is remembered by.
pub fn incident_key(rule: &Rule, incident: &str) -> (r: String)
    ensures
        r@ == cooldown_key(rule@, incident@),
        r@ == lowercase(rule.id@) + ":"@ + lowercase(incident@),
{
    rule.id.as_str().to_lowercase().concat(":").concat(incident.to_lowercase().as_str())
}

/// Where the ids of rules hold no colon, what an incident is remembered by tells
/// incidents and rules apart, up to upper and lower case.
pub proof fn keys_tell_incidents_apart(a: RuleView, b: RuleView, x: Seq<char>, y: Seq<char>)
    requires
        !lowercase(a.id).contains(':'),
        !lowercase(b.id).contains(':'),
        cooldown_key(a, x) == cooldown_key(b, y),
    ensures
        lowercase(a.id) == lowercase(b.id),
        lowercase(x) == lowercase(y),
{
    reveal_strlit(":");
    let p = lowercase(a.id);
    let q = lowercase(b.id);
    let key = cooldown_key(a, x);
    assert(key[p.len() as int] == ':');
    assert(key[q.len() as int] == ':');
    if p.len() < q.len() {
        assert(key[p.len() as int] == q[p.len() as int]);
        assert(q.contains(q[p.len() as int]));
    } else if q.len() < p.len() {
        assert(key[q.len() as int] == p[q.len() as int]);
        assert(p.contains(p[q.len() as int]));
    }
    assert(p == key.take(p.len() as int));
    assert(q == key.take(q.len() as int));
    assert(lowercase(x) == key.skip(p.len() as int + 1));
    assert(lowercase(y) == key.skip(q.len() as int + 1));
}

/// An incident is remembered for thirty seconds after it was answered, no longer and no
/// shorter, and under the moment at which it was answered.
pub proof fn a_cooldown_lasts_thirty_seconds(
    cooldowns: Map<Seq<char>, u64>,
    now: u64,
    key: Seq<char>,
)
    ensures
        still_cooling(cooldowns, now).contains_key(key) <==> cooldowns.contains_key(key) && now
            - cooldowns[key] < 30_000_000_000,
        still_cooling(cooldowns, now).contains_key(key) ==> still_cooling(cooldowns, now)[key]
            == cooldowns[key],
{
}

/// What incidents are remembered by is the same exactly where the rules have the same id
/// and the incidents are the same, up to upper and lower case, as long as the ids hold no
/// colon. It does not depend on anything else of the rules.
pub proof fn keys_agree_where_ids_and_incidents_do(
    a: RuleView,
    b: RuleView,
    x: Seq<char>,
    y: Seq<char>,
)
    requires
        !lowercase(a.id).contains(':'),
        !lowercase(b.id).contains(':'),
    ensures
        cooldown_key(a, x) == cooldown_key(b, y) <==> lowercase(a.id) == lowercase(b.id)
            && lowercase(x) == lowercase(y),
        cooldown_key(a, x) == lowercase(a.id) + ":"@ + lowercase(x),
{
    if cooldown_key(a, x) == cooldown_key(b, y) {
        keys_tell_incidents_apart(a, b, x, y);
    }
}

} // verus!
