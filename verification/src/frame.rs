use vstd::prelude::*;
use crate::timespan::{TimeSpan, max_nanos};

verus! {

/// Named time measurements of the engine's steps.
pub struct ProfilerMap {
    entries: Vec<(String, TimeSpan)>,
}

/// The entries hold each name at most once.
pub open spec fn distinct_names(entries: Seq<(String, TimeSpan)>) -> bool {
    forall|a: int, b: int| 0 <= a < b < entries.len() ==> entries[a].0@ != entries[b].0@
}

/// The map from names to measurements that `entries` holds.
pub open spec fn entries_map(entries: Seq<(String, TimeSpan)>) -> Map<Seq<char>, TimeSpan> {
    Map::new(
        |k: Seq<char>| exists|i: int| 0 <= i < entries.len() && entries[i].0@ == k,
        |k: Seq<char>| entries[choose|i: int| 0 <= i < entries.len() && entries[i].0@ == k].1,
    )
}

proof fn lemma_entries_map_at(entries: Seq<(String, TimeSpan)>, j: int)
    requires
        distinct_names(entries),
        0 <= j < entries.len(),
    ensures
        entries_map(entries).contains_key(entries[j].0@),
        entries_map(entries)[entries[j].0@] == entries[j].1,
{
    let k = entries[j].0@;
    assert(exists|i: int| 0 <= i < entries.len() && entries[i].0@ == k);
    let c = choose|i: int| 0 <= i < entries.len() && entries[i].0@ == k;
    if c != j {
        if c < j {
            assert(entries[c].0@ != entries[j].0@);
        } else {
            assert(entries[j].0@ != entries[c].0@);
        }
    }
}

/// A map held in entries names finitely many measurements.
proof fn lemma_entries_map_finite(entries: Seq<(String, TimeSpan)>)
    ensures
        entries_map(entries).dom().finite(),
{
    let names = entries.map_values(|e: (String, TimeSpan)| e.0@);
    assert forall|k: Seq<char>| entries_map(entries).dom().contains(k) <==> names.to_set().contains(k) by {
        if entries_map(entries).dom().contains(k) {
            let i = choose|i: int| 0 <= i < entries.len() && entries[i].0@ == k;
            assert(names[i] == k);
        }
        if names.to_set().contains(k) {
            let i = choose|i: int| 0 <= i < names.len() && names[i] == k;
            assert(entries[i].0@ == k);
        }
    }
    assert(entries_map(entries).dom() =~= names.to_set());
    vstd::seq_lib::seq_to_set_is_finite(names);
}

impl View for ProfilerMap {
    type V = Map<Seq<char>, TimeSpan>;

    closed spec fn view(&self) -> Map<Seq<char>, TimeSpan> {
        entries_map(self.entries@)
    }
}

/// `e` is `old_entries` with the entry at `idx` set to `(k, value)`: either
/// `k` named that entry already, or `idx` is one past the end and no entry
/// was named `k`. The map they hold gains or changes `k` alone.
proof fn lemma_entries_map_put(
    old_entries: Seq<(String, TimeSpan)>,
    e: Seq<(String, TimeSpan)>,
    idx: int,
    k: Seq<char>,
    value: TimeSpan,
)
    requires
        distinct_names(old_entries),
        0 <= idx <= old_entries.len(),
        e.len() == if idx == old_entries.len() {
            old_entries.len() + 1
        } else {
            old_entries.len() + 0
        },
        e[idx].0@ == k,
        e[idx].1 == value,
        forall|j: int| 0 <= j < old_entries.len() && j != idx ==> e[j] == old_entries[j],
        idx < old_entries.len() ==> old_entries[idx].0@ == k,
        idx == old_entries.len() ==> forall|j: int| 0 <= j < old_entries.len() ==> old_entries[j].0@ != k,
    ensures
        distinct_names(e),
        entries_map(e) == entries_map(old_entries).insert(k, value),
{
    assert forall|a: int, b: int| 0 <= a < b < e.len() implies e[a].0@ != e[b].0@ by {
        if a != idx && b != idx {
            assert(old_entries[a].0@ != old_entries[b].0@);
        } else if a == idx {
            if idx < old_entries.len() {
                assert(old_entries[idx].0@ != old_entries[b].0@);
            }
        } else {
            if idx < old_entries.len() {
                assert(old_entries[a].0@ != old_entries[idx].0@);
            }
        }
    }
    assert forall|key: Seq<char>| #[trigger] entries_map(e).contains_key(key) == entries_map(old_entries).insert(k, value).contains_key(key) by {
        if entries_map(e).contains_key(key) {
            let j = choose|j: int| 0 <= j < e.len() && e[j].0@ == key;
            if j != idx {
                lemma_entries_map_at(old_entries, j);
            }
        }
        if key != k && entries_map(old_entries).contains_key(key) {
            let j = choose|j: int| 0 <= j < old_entries.len() && old_entries[j].0@ == key;
            lemma_entries_map_at(e, j);
        }
        lemma_entries_map_at(e, idx);
    }
    assert forall|key: Seq<char>| #[trigger] entries_map(e).contains_key(key) implies entries_map(e)[key] == entries_map(old_entries).insert(k, value)[key] by {
        let j = choose|j: int| 0 <= j < e.len() && e[j].0@ == key;
        lemma_entries_map_at(e, j);
        if j != idx {
            lemma_entries_map_at(old_entries, j);
        }
    }
    assert(entries_map(e) =~= entries_map(old_entries).insert(k, value));
}

impl ProfilerMap {
    /// Each name is held once.
    #[verifier::type_invariant]
    spec fn inv(self) -> bool {
        distinct_names(self.entries@)
    }

    /// A profiler map names finitely many measurements.
    pub proof fn lemma_finite(&self)
        ensures
            self@.dom().finite(),
    {
        lemma_entries_map_finite(self.entries@);
    }

    /// An empty map.
    pub fn new() -> (r: ProfilerMap)
        ensures
            r@ == Map::<Seq<char>, TimeSpan>::empty(),
            r@.dom().finite(),
    {
        let r = ProfilerMap { entries: Vec::new() };
        assert(r@ =~= Map::<Seq<char>, TimeSpan>::empty());
        r
    }

    /// Position of the entry named `name`.
    fn position(&self, name: &String) -> (r: Option<usize>)
        ensures
            match r {
                Some(i) => i < self.entries@.len() && self.entries@[i as int].0@ == name@,
                None => forall|i: int| 0 <= i < self.entries@.len() ==> self.entries@[i].0@ != name@,
            },
    {
        let n = self.entries.len();
        let mut i: usize = 0;
        while i < n
            invariant
                n == self.entries@.len(),
                0 <= i <= n,
                forall|j: int| 0 <= j < i ==> self.entries@[j].0@ != name@,
            decreases n - i,
        {
            if self.entries[i].0 == *name {
                return Some(i);
            }
            i = i + 1;
        }
        None
    }

    /// Sets the measurement named `name` to `value`, adding the name if it
    /// is new.
    fn put(&mut self, name: String, value: TimeSpan)
        ensures
            final(self)@ == old(self)@.insert(name@, value),
            final(self)@.dom().finite(),
    {
        proof {
            use_type_invariant(&*self);
        }
        let ghost k = name@;
        let found = self.position(&name);
        let mut entries: Vec<(String, TimeSpan)> = Vec::new();
        std::mem::swap(&mut entries, &mut self.entries);
        let ghost old_entries = entries@;
        match found {
            Some(i) => {
                entries.set(i, (name, value));
                proof {
                    lemma_entries_map_put(old_entries, entries@, i as int, k, value);
                }
            },
            None => {
                entries.push((name, value));
                proof {
                    lemma_entries_map_put(old_entries, entries@, old_entries.len() as int, k, value);
                }
            },
        }
        self.entries = entries;
        proof {
            lemma_entries_map_finite(self.entries@);
        }
    }

    /// Records `duration` under the name `s`: the name gains that
    /// measurement, and the map one name when `s` is new.
    pub fn add(&mut self, s: &str, duration: TimeSpan)
        ensures
            final(self)@ == old(self)@.insert(s@, duration),
            final(self)@.dom().finite(),
            final(self)@.len() == old(self)@.len() + if old(self)@.contains_key(s@) {
                0int
            } else {
                1int
            },
    {
        proof {
            lemma_entries_map_finite(self.entries@);
        }
        self.put(s.to_owned(), duration);
    }

    /// The measurement named `s`.
    pub fn get(&self, s: &str) -> (r: Option<&TimeSpan>)
        ensures
            match r {
                Some(v) => self@.contains_key(s@) && *v == self@[s@],
                None => !self@.contains_key(s@),
            },
    {
        proof {
            use_type_invariant(self);
        }
        let name = s.to_owned();
        match self.position(&name) {
            Some(i) => {
                proof {
                    lemma_entries_map_at(self.entries@, i as int);
                }
                Some(&self.entries[i].1)
            },
            None => None,
        }
    }

    /// Blends `duration` into the measurement named `s` as a running
    /// average: the old value weighs `last_ratio` and the new one 1, the
    /// result rounded down to the nanosecond. A new name takes `duration`.
    pub fn mix(&mut self, s: &str, duration: TimeSpan, last_ratio: u32)
        requires
            old(self)@.contains_key(s@) ==> {
                &&& last_ratio < u32::MAX
                &&& old(self)@[s@]@ * last_ratio + duration@ <= max_nanos()
            },
        ensures
            final(self)@ == old(self)@.insert(s@, final(self)@[s@]),
            old(self)@.contains_key(s@) ==> final(self)@[s@]@ == (old(self)@[s@]@ * last_ratio
                + duration@) as nat / (last_ratio as nat + 1),
            !old(self)@.contains_key(s@) ==> final(self)@[s@] == duration,
            final(self)@.dom().finite(),
            final(self)@.len() == old(self)@.len() + if old(self)@.contains_key(s@) {
                0int
            } else {
                1int
            },
    {
        proof {
            use_type_invariant(&*self);
            lemma_entries_map_finite(self.entries@);
        }
        let name = s.to_owned();
        match self.position(&name) {
            Some(i) => {
                proof {
                    lemma_entries_map_at(self.entries@, i as int);
                }
                let val = self.entries[i].1;
                let scaled = val.checked_mul(last_ratio).unwrap();
                let summed = scaled.checked_add(duration).unwrap();
                let mixed = summed.checked_div(last_ratio + 1).unwrap();
                self.put(name, mixed);
            },
            None => {
                self.put(name, duration);
            },
        }
    }

    /// The measurements, each name once.
    pub fn entries(&self) -> (r: &Vec<(String, TimeSpan)>)
        ensures
            distinct_names(r@),
            forall|i: int| 0 <= i < r@.len() ==> self@.contains_key(#[trigger] r@[i].0@) && self@[r@[i].0@] == r@[i].1,
            forall|k: Seq<char>| self@.contains_key(k) ==> exists|i: int| 0 <= i < r@.len() && r@[i].0@ == k,
    {
        proof {
            use_type_invariant(self);
            assert forall|i: int| 0 <= i < self.entries@.len() implies self@.contains_key(#[trigger] self.entries@[i].0@) && self@[self.entries@[i].0@] == self.entries@[i].1 by {
                lemma_entries_map_at(self.entries@, i);
            }
        }
        &self.entries
    }
}

/// What `add` writes under a name, `get` reads back under that name, and
/// the other names keep their measurements.
pub proof fn law_add_then_get(
    before: Map<Seq<char>, TimeSpan>,
    after: Map<Seq<char>, TimeSpan>,
    s: Seq<char>,
    d: TimeSpan,
)
    requires
        after == before.insert(s, d),
    ensures
        after.contains_key(s),
        after[s] == d,
        forall|k: Seq<char>| k != s ==> (after.contains_key(k) <==> before.contains_key(k)),
        forall|k: Seq<char>| k != s && before.contains_key(k) ==> after[k] == before[k],
{
}

/// The running average that `mix` keeps lies between the old measurement
/// and the new one, and a weight of 0 keeps only the new one.
pub proof fn law_mix_between(old_value: nat, new_value: nat, last_ratio: u32)
    ensures
        ({
            let m = (old_value * last_ratio + new_value) as nat / (last_ratio as nat + 1);
            &&& (old_value <= new_value ==> old_value <= m <= new_value)
            &&& (new_value <= old_value ==> new_value <= m <= old_value)
            &&& (last_ratio == 0 ==> m == new_value)
        }),
{
    let r = last_ratio as nat;
    let total = (old_value * last_ratio + new_value) as nat;
    assert(total == old_value * r + new_value);
    let m = total / (r + 1);
    if r == 0 {
        assert(old_value * r == 0) by (nonlinear_arith)
            requires
                r == 0,
        ;
        assert(total / 1 == total) by (nonlinear_arith);
    }
    assert(m * (r + 1) <= total < m * (r + 1) + (r + 1)) by (nonlinear_arith)
        requires
            m == total / (r + 1),
            r + 1 > 0,
    ;
    if old_value <= new_value {
        assert(old_value * (r + 1) <= total <= new_value * (r + 1)) by (nonlinear_arith)
            requires
                old_value <= new_value,
                total == old_value * r + new_value,
        ;
        assert(old_value <= m) by (nonlinear_arith)
            requires
                old_value * (r + 1) <= total,
                total < m * (r + 1) + (r + 1),
                r + 1 > 0,
        ;
        assert(m <= new_value) by (nonlinear_arith)
            requires
                total <= new_value * (r + 1),
                m * (r + 1) <= total,
                r + 1 > 0,
        ;
    }
    if new_value <= old_value {
        assert(new_value * (r + 1) <= total <= old_value * (r + 1)) by (nonlinear_arith)
            requires
                new_value <= old_value,
                total == old_value * r + new_value,
        ;
        assert(new_value <= m) by (nonlinear_arith)
            requires
                new_value * (r + 1) <= total,
                total < m * (r + 1) + (r + 1),
                r + 1 > 0,
        ;
        assert(m <= old_value) by (nonlinear_arith)
            requires
                total <= old_value * (r + 1),
                m * (r + 1) <= total,
                r + 1 > 0,
        ;
    }
}


/// A call that writes into a profiler map: `add` or `mix` of a
/// measurement under a name (with `mix`'s weight).
pub enum ProfilerCall {
    Add(Seq<char>, TimeSpan),
    Mix(Seq<char>, TimeSpan, u32),
}

/// The name a call writes under.
pub open spec fn call_name(c: ProfilerCall) -> Seq<char> {
    match c {
        ProfilerCall::Add(s, _) => s,
        ProfilerCall::Mix(s, _, _) => s,
    }
}

/// The measurement a call writes as it is, when it is an `add`.
pub open spec fn added(c: ProfilerCall) -> Option<TimeSpan> {
    match c {
        ProfilerCall::Add(_, d) => Some(d),
        ProfilerCall::Mix(..) => None,
    }
}

/// `after` is what the call `c` leaves of `before`, as the contracts of
/// `add` and `mix` state it.
pub open spec fn call_effect(before: Map<Seq<char>, TimeSpan>, after: Map<Seq<char>, TimeSpan>, c: ProfilerCall) -> bool {
    match c {
        ProfilerCall::Add(s, d) => after == before.insert(s, d),
        ProfilerCall::Mix(s, d, r) => {
            &&& after == before.insert(s, after[s])
            &&& before.contains_key(s) ==> after[s]@ == (before[s]@ * r + d@) as nat / (r as nat + 1)
            &&& !before.contains_key(s) ==> after[s] == d
        },
    }
}

/// Over any run of `add` and `mix` calls from `new()`: a name is measured
/// exactly when some call wrote under it, and when the last call that wrote
/// under a name was `add(name, d)`, `get(name)` reads `d`.
pub proof fn law_profiler_calls(calls: Seq<ProfilerCall>, maps: Seq<Map<Seq<char>, TimeSpan>>, s: Seq<char>)
    requires
        maps.len() == calls.len() + 1,
        maps[0] == Map::<Seq<char>, TimeSpan>::empty(),
        forall|i: int| 0 <= i < calls.len() ==> call_effect(maps[i], maps[i + 1], #[trigger] calls[i]),
    ensures
        maps.last().contains_key(s) <==> exists|i: int| 0 <= i < calls.len() && call_name(#[trigger] calls[i]) == s,
        forall|i: int|
            0 <= i < calls.len() && call_name(#[trigger] calls[i]) == s && added(calls[i]) is Some && (forall|j: int|
                i < j < calls.len() ==> call_name(#[trigger] calls[j]) != s) ==> maps.last()[s] == added(calls[i])->0,
    decreases calls.len(),
{
    let n = calls.len() as int;
    if n > 0 {
        let cs = calls.drop_last();
        let ms = maps.drop_last();
        assert forall|i: int| 0 <= i < cs.len() implies call_effect(ms[i], ms[i + 1], #[trigger] cs[i]) by {
            assert(cs[i] == calls[i] && ms[i] == maps[i] && ms[i + 1] == maps[i + 1]);
        }
        law_profiler_calls(cs, ms, s);
        let before = maps[n - 1];
        let after = maps[n];
        let c = calls[n - 1];
        assert(call_effect(before, after, c));
        assert(ms.last() == before);
        if after.contains_key(s) {
            if call_name(c) != s {
                assert(before.contains_key(s));
                let i = choose|i: int| 0 <= i < cs.len() && call_name(#[trigger] cs[i]) == s;
                assert(calls[i] == cs[i]);
            }
        }
        if exists|i: int| 0 <= i < calls.len() && call_name(#[trigger] calls[i]) == s {
            let i = choose|i: int| 0 <= i < calls.len() && call_name(#[trigger] calls[i]) == s;
            if i < n - 1 {
                assert(cs[i] == calls[i]);
            }
        }
        assert forall|i: int|
            0 <= i < calls.len() && call_name(#[trigger] calls[i]) == s && added(calls[i]) is Some && (forall|j: int|
                i < j < calls.len() ==> call_name(#[trigger] calls[j]) != s) implies maps.last()[s] == added(calls[i])->0 by {
            if i < n - 1 {
                assert(call_name(calls[n - 1]) != s);
                assert(cs[i] == calls[i]);
                assert forall|j: int| i < j < cs.len() implies call_name(#[trigger] cs[j]) != s by {
                    assert(cs[j] == calls[j]);
                }
            }
        }
    }
}

} // verus!
