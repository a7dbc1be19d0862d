//! The samples of one metrics scrape, by name.
use vstd::prelude::*;

use crate::binary64::Binary64;

verus! {

/// Samples by name, each name at most once.
pub struct SampleMap {
    entries: Vec<(String, Binary64)>,
}

spec fn distinct(entries: Seq<(String, Binary64)>) -> bool {
    forall|i: int, j: int|
        0 <= i < j < entries.len() ==> #[trigger] entries[i].0@ != #[trigger] entries[j].0@
}

spec fn as_map(entries: Seq<(String, Binary64)>) -> Map<Seq<char>, Binary64>
    decreases entries.len(),
{
    if entries.len() == 0 {
        Map::empty()
    } else {
        as_map(entries.drop_last()).insert(entries.last().0@, entries.last().1)
    }
}

/// What the map holds is what is listed.
proof fn lemma_as_map(entries: Seq<(String, Binary64)>)
    requires
        distinct(entries),
    ensures
        forall|i: int|
            0 <= i < entries.len() ==> as_map(entries).contains_key(#[trigger] entries[i].0@)
                && as_map(entries)[entries[i].0@] == entries[i].1,
        forall|name: Seq<char>| #[trigger]
            as_map(entries).contains_key(name) ==> exists|i: int|
                0 <= i < entries.len() && #[trigger] entries[i].0@ == name,
    decreases entries.len(),
{
    if entries.len() > 0 {
        let rest = entries.drop_last();
        lemma_as_map(rest);
        assert forall|i: int| 0 <= i < entries.len() implies as_map(entries).contains_key(
            #[trigger] entries[i].0@,
        ) && as_map(entries)[entries[i].0@] == entries[i].1 by {
            if i < rest.len() {
                assert(rest[i].0@ == entries[i].0@);
                assert(entries[i].0@ != entries[entries.len() - 1].0@);
            }
        }
        assert forall|name: Seq<char>| #[trigger]
            as_map(entries).contains_key(name) implies exists|i: int|
            0 <= i < entries.len() && #[trigger] entries[i].0@ == name by {
            if name == entries.last().0@ {
                assert(entries[entries.len() - 1].0@ == name);
            } else {
                assert(as_map(rest).contains_key(name));
                let i = choose|i: int| 0 <= i < rest.len() && #[trigger] rest[i].0@ == name;
                assert(entries[i].0@ == name);
            }
        }
    }
}

/// Replacing a listed sample replaces it in the map.
proof fn lemma_update(entries: Seq<(String, Binary64)>, at: int, entry: (String, Binary64))
    requires
        distinct(entries),
        0 <= at < entries.len(),
        entries[at].0@ == entry.0@,
    ensures
        distinct(entries.update(at, entry)),
        as_map(entries.update(at, entry)) == as_map(entries).insert(entry.0@, entry.1),
{
    let changed = entries.update(at, entry);
    assert forall|i: int, j: int| 0 <= i < j < changed.len() implies #[trigger] changed[i].0@
        != #[trigger] changed[j].0@ by {
        assert(entries[i].0@ != entries[j].0@);
    }
    lemma_as_map(entries);
    lemma_as_map(changed);
    let expected = as_map(entries).insert(entry.0@, entry.1);
    assert forall|name: Seq<char>| #[trigger]
        as_map(changed).contains_key(name) == expected.contains_key(name) by {
        if as_map(changed).contains_key(name) {
            let i = choose|i: int| 0 <= i < changed.len() && #[trigger] changed[i].0@ == name;
            assert(entries[i].0@ == name);
        }
        if expected.contains_key(name) {
            if name == entry.0@ {
                assert(changed[at].0@ == name);
            } else {
                let i = choose|i: int| 0 <= i < entries.len() && #[trigger] entries[i].0@ == name;
                assert(changed[i].0@ == name);
            }
        }
    }
    assert forall|name: Seq<char>| as_map(changed).contains_key(name) implies #[trigger] as_map(
        changed,
    )[name] == expected[name] by {
        let i = choose|i: int| 0 <= i < changed.len() && #[trigger] changed[i].0@ == name;
        assert(entries[i].0@ == name);
        if i != at {
            assert(changed[at].0@ == entry.0@);
        }
    }
    assert(as_map(changed) =~= expected);
}

impl View for SampleMap {
    type V = Map<Seq<char>, Binary64>;

    closed spec fn view(&self) -> Map<Seq<char>, Binary64> {
        as_map(self.entries@)
    }
}

impl SampleMap {
    #[verifier::type_invariant]
    spec fn well_formed(self) -> bool {
        distinct(self.entries@)
    }

    /// A map without samples.
    pub fn new() -> (r: SampleMap)
        ensures
            r@ == Map::<Seq<char>, Binary64>::empty(),
    {
        SampleMap { entries: Vec::new() }
    }

    fn position(&self, name: &String) -> (r: Option<usize>)
        ensures
            match r {
                Some(i) => i < self.entries@.len() && self.entries@[i as int].0@ == name@,
                None => forall|i: int|
                    0 <= i < self.entries@.len() ==> #[trigger] self.entries@[i].0@ != name@,
            },
    {
        let mut i: usize = 0;
        while i < self.entries.len()
            invariant
                i <= self.entries@.len(),
                forall|j: int| 0 <= j < i ==> #[trigger] self.entries@[j].0@ != name@,
            decreases self.entries@.len() - i,
        {
            if self.entries[i].0 == *name {
                return Some(i);
            }
            i += 1;
        }
        None
    }

    /// The sample with this name.
    pub fn get(&self, name: &str) -> (r: Option<Binary64>)
        ensures
            r == lookup(self@, name@),
    {
        proof {
            use_type_invariant(self);
            lemma_as_map(self.entries@);
        }
        match self.position(&name.to_string()) {
            Some(i) => Some(self.entries[i].1),
            None => None,
        }
    }

    /// All samples, in no particular order.
    pub(crate) fn entries(&self) -> (r: &Vec<(String, Binary64)>)
        ensures
            forall|i: int|
                0 <= i < r@.len() ==> self@.contains_key(#[trigger] r@[i].0@)
                    && self@[r@[i].0@] == r@[i].1,
            forall|name: Seq<char>| #[trigger]
                self@.contains_key(name) ==> exists|i: int|
                    0 <= i < r@.len() && #[trigger] r@[i].0@ == name,
    {
        proof {
            use_type_invariant(self);
            lemma_as_map(self.entries@);
        }
        &self.entries
    }

    /// Sets the sample with this name, and gives back the one it replaces.
    pub fn insert(&mut self, name: String, value: Binary64) -> (previous: Option<Binary64>)
        ensures
            final(self)@ == old(self)@.insert(name@, value),
            previous == lookup(old(self)@, name@),
    {
        proof {
            use_type_invariant(&*self);
            lemma_as_map(self.entries@);
        }
        let ghost before = self.entries@;
        let found: Option<usize> = self.position(&name);
        let mut entries: Vec<(String, Binary64)> = Vec::new();
        std::mem::swap(&mut entries, &mut self.entries);
        match found {
            Some(i) => {
                let previous: Binary64 = entries[i].1;
                entries.set(i, (name, value));
                proof {
                    lemma_update(before, i as int, (name, value));
                }
                self.entries = entries;
                Some(previous)
            },
            None => {
                entries.push((name, value));
                proof {
                    assert(entries@.drop_last() =~= before);
                }
                self.entries = entries;
                None
            },
        }
    }
}

/// The value under a name, if there is one.
pub open spec fn lookup(samples: Map<Seq<char>, Binary64>, name: Seq<char>) -> Option<Binary64> {
    if samples.contains_key(name) {
        Some(samples[name])
    } else {
        None
    }
}

/// What was set under a name is read back, nothing is where nothing was set,
/// and what other names stand for is as before.
pub proof fn law_sample_is_read_back(
    samples: Map<Seq<char>, Binary64>,
    name: Seq<char>,
    value: Binary64,
    other: Seq<char>,
)
    ensures
        lookup(samples.insert(name, value), name) == Some(value),
        lookup(samples.remove(name), name) is None,
        other != name ==> lookup(samples.insert(name, value), other) == lookup(samples, other),
{
}

/// `get` gives the sample under a name exactly where there is one.
pub proof fn law_get_gives_what_is_there(samples: &SampleMap, name: &str, r: Option<Binary64>)
    requires
        call_ensures(SampleMap::get, (samples, name), r),
    ensures
        r is Some <==> samples@.contains_key(name@),
        r matches Some(value) ==> samples@[name@] == value,
{
}

/// The samples of one scrape, as the engine's exposition text gives them.
pub struct ParsedMetrics {
    /// Counters without labels.
    pub counters: SampleMap,
    /// Gauges without labels.
    pub gauges: SampleMap,
    /// Counters with labels, under `name{label="value"}`.
    pub labeled_counters: SampleMap,
}

impl ParsedMetrics {
    /// A scrape without samples.
    pub fn new() -> (r: ParsedMetrics)
        ensures
            r.counters@ == Map::<Seq<char>, Binary64>::empty(),
            r.gauges@ == Map::<Seq<char>, Binary64>::empty(),
            r.labeled_counters@ == Map::<Seq<char>, Binary64>::empty(),
    {
        ParsedMetrics {
            counters: SampleMap::new(),
            gauges: SampleMap::new(),
            labeled_counters: SampleMap::new(),
        }
    }
}

} // verus!
