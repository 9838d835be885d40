use vstd::prelude::*;

verus! {

/// `x` held at `u64::MAX`.
pub open spec fn clamp(x: int) -> u64 {
    if x > u64::MAX {
        u64::MAX
    } else {
        x as u64
    }
}

/// `a + b`, held at `u64::MAX` instead of wrapping.
pub open spec fn sat_add(a: u64, b: u64) -> u64 {
    clamp(a + b)
}

/// One when `k` is `key`, else zero: the tally of a single increment of `key`.
pub open spec fn hit(k: Seq<char>, key: Seq<char>) -> nat {
    if k == key {
        1
    } else {
        0
    }
}

pub fn saturating_add_u64(a: u64, b: u64) -> (r: u64)
    ensures
        r == sat_add(a, b),
{
    if a > u64::MAX - b {
        u64::MAX
    } else {
        a + b
    }
}

/// A table of totals keyed by name; every name appears at most once.
pub struct NamedTotals {
    names: Vec<String>,
    values: Vec<u64>,
}

impl NamedTotals {
    pub closed spec fn wf(&self) -> bool {
        &&& self.names.len() == self.values.len()
        &&& forall|i: int, j: int|
            0 <= i < j < self.names.len() ==> self.names[i]@ != self.names[j]@
    }

    /// The total recorded under `key`, zero when there is none.
    pub closed spec fn value(&self, key: Seq<char>) -> u64 {
        if exists|i: int| 0 <= i < self.names.len() && self.names[i]@ == key {
            self.values[choose|i: int| 0 <= i < self.names.len() && self.names[i]@ == key]
        } else {
            0
        }
    }

    /// Whether a total was ever recorded under `key`.
    pub closed spec fn contains(&self, key: Seq<char>) -> bool {
        exists|i: int| 0 <= i < self.names.len() && self.names[i]@ == key
    }

    /// The number of names held.
    pub closed spec fn size(&self) -> nat {
        self.names@.len()
    }

    proof fn lemma_value_at(&self, i: int)
        requires
            self.wf(),
            0 <= i < self.names.len(),
        ensures
            self.value(self.names[i]@) == self.values[i],
            self.contains(self.names[i]@),
    {
        let key = self.names[i]@;
        assert(exists|k: int| 0 <= k < self.names.len() && self.names[k]@ == key);
        let j = choose|k: int| 0 <= k < self.names.len() && self.names[k]@ == key;
        if j < i {
            assert(self.names[j]@ != self.names[i]@);
        } else if i < j {
            assert(self.names[i]@ != self.names[j]@);
        }
    }

    pub fn new() -> (r: NamedTotals)
        ensures
            r.wf(),
            r.size() == 0,
            forall|k: Seq<char>| r.value(k) == 0 && !r.contains(k),
    {
        NamedTotals { names: Vec::new(), values: Vec::new() }
    }

    fn find(&self, key: &String) -> (r: Option<usize>)
        requires
            self.wf(),
        ensures
            match r {
                Some(i) => i < self.names.len() && self.names[i as int]@ == key@,
                None => forall|i: int| 0 <= i < self.names.len() ==> self.names[i]@ != key@,
            },
    {
        let mut i: usize = 0;
        while i < self.names.len()
            invariant
                i <= self.names.len(),
                forall|j: int| 0 <= j < i ==> self.names[j]@ != key@,
            decreases self.names.len() - i,
        {
            if self.names[i] == *key {
                return Some(i);
            }
            i = i + 1;
        }
        None
    }

    /// The total under `key`, zero when there is none.
    pub fn get(&self, key: &str) -> (r: u64)
        requires
            self.wf(),
        ensures
            r == self.value(key@),
    {
        let k = key.to_owned();
        match self.find(&k) {
            Some(i) => {
                proof {
                    self.lemma_value_at(i as int);
                }
                self.values[i]
            },
            None => 0,
        }
    }

    /// Replaces the total under `key` by `v`.
    pub fn set(&mut self, key: &str, v: u64)
        requires
            old(self).wf(),
        ensures
            final(self).wf(),
            final(self).value(key@) == v,
            final(self).contains(key@),
            forall|k: Seq<char>|
                k != key@ ==> final(self).value(k) == old(self).value(k) && (final(self).contains(k)
                    == old(self).contains(k)),
    {
        let k = key.to_owned();
        match self.find(&k) {
            Some(i) => {
                let ghost before = *self;
                self.values.set(i, v);
                proof {
                    assert(self.wf());
                    self.lemma_value_at(i as int);
                    assert forall|q: Seq<char>| q != key@ implies self.value(q) == before.value(q)
                        && self.contains(q) == before.contains(q) by {
                        if self.contains(q) {
                            let j = choose|j: int| 0 <= j < self.names.len() && self.names[j]@ == q;
                            self.lemma_value_at(j);
                            before.lemma_value_at(j);
                        }
                    }
                }
            },
            None => {
                let ghost before = *self;
                self.names.push(k);
                self.values.push(v);
                proof {
                    let n = before.names.len() as int;
                    assert(self.names[n]@ == key@);
                    assert forall|i: int, j: int|
                        0 <= i < j < self.names.len() implies self.names[i]@ != self.names[j]@ by {
                        if j < n {
                            assert(before.names[i]@ != before.names[j]@);
                        }
                    }
                    self.lemma_value_at(n);
                    assert forall|q: Seq<char>| q != key@ implies self.value(q) == before.value(q)
                        && self.contains(q) == before.contains(q) by {
                        if self.contains(q) {
                            let j = choose|j: int| 0 <= j < self.names.len() && self.names[j]@ == q;
                            assert(j < n);
                            self.lemma_value_at(j);
                            before.lemma_value_at(j);
                        }
                        if before.contains(q) {
                            let j = choose|j: int|
                                0 <= j < before.names.len() && before.names[j]@ == q;
                            assert(self.names[j]@ == q);
                        }
                    }
                }
            },
        }
    }

    /// Adds `v` to the total under `key`, saturating at `u64::MAX`.
    pub fn add(&mut self, key: &str, v: u64)
        requires
            old(self).wf(),
        ensures
            final(self).wf(),
            final(self).value(key@) == sat_add(old(self).value(key@), v),
            final(self).contains(key@),
            forall|k: Seq<char>|
                k != key@ ==> final(self).value(k) == old(self).value(k) && (final(self).contains(k)
                    == old(self).contains(k)),
    {
        let cur = self.get(key);
        let next = saturating_add_u64(cur, v);
        self.set(key, next);
    }

    /// Adds every total of `other` to the total of the same name here.
    pub fn merge(&mut self, other: &NamedTotals)
        requires
            old(self).wf(),
            other.wf(),
        ensures
            final(self).wf(),
            forall|k: Seq<char>|
                final(self).value(k) == sat_add(old(self).value(k), other.value(k)),
            forall|k: Seq<char>|
                #[trigger] final(self).contains(k) == (old(self).contains(k) || other.contains(k)),
    {
        let ghost start = *self;
        let mut i: usize = 0;
        while i < other.names.len()
            invariant
                self.wf(),
                other.wf(),
                i <= other.names.len(),
                forall|k: Seq<char>|
                    #![trigger self.value(k)]
                    (exists|j: int| 0 <= j < i && other.names[j]@ == k) ==> self.value(k) == sat_add(
                        start.value(k),
                        other.value(k),
                    ),
                forall|k: Seq<char>|
                    #![trigger self.value(k)]
                    !(exists|j: int| 0 <= j < i && other.names[j]@ == k) ==> self.value(k)
                        == start.value(k),
                forall|k: Seq<char>|
                    #![trigger self.contains(k)]
                    self.contains(k) == (start.contains(k) || exists|j: int|
                        0 <= j < i && other.names[j]@ == k),
            decreases other.names.len() - i,
        {
            proof {
                other.lemma_value_at(i as int);
            }
            let ghost before = *self;
            let ghost key = other.names[i as int]@;
            self.add(other.names[i].as_str(), other.values[i]);
            proof {
                assert(!(exists|j: int| 0 <= j < i && other.names[j]@ == key)) by {
                    if exists|j: int| 0 <= j < i && other.names[j]@ == key {
                        let j = choose|j: int| 0 <= j < i && other.names[j]@ == key;
                        assert(other.names[j]@ != other.names[i as int]@);
                    }
                }
                assert forall|k: Seq<char>|
                    (exists|j: int| 0 <= j < i + 1 && other.names[j]@ == k) implies self.value(k)
                    == sat_add(start.value(k), other.value(k)) by {
                    if k != key {
                        let j = choose|j: int| 0 <= j < i + 1 && other.names[j]@ == k;
                        assert(j < i);
                    }
                }
                assert forall|k: Seq<char>|
                    !(exists|j: int| 0 <= j < i + 1 && other.names[j]@ == k) implies self.value(k)
                    == start.value(k) by {
                    assert(k != key);
                    assert(!(exists|j: int| 0 <= j < i && other.names[j]@ == k)) by {
                        if exists|j: int| 0 <= j < i && other.names[j]@ == k {
                            let j = choose|j: int| 0 <= j < i && other.names[j]@ == k;
                            assert(0 <= j < i + 1 && other.names[j]@ == k);
                        }
                    }
                }
                assert forall|k: Seq<char>|
                    self.contains(k) == (start.contains(k) || exists|j: int|
                        0 <= j < i + 1 && other.names[j]@ == k) by {
                    if k == key {
                        assert(0 <= i < i + 1 && other.names[i as int]@ == k);
                    } else {
                        if exists|j: int| 0 <= j < i + 1 && other.names[j]@ == k {
                            let j = choose|j: int| 0 <= j < i + 1 && other.names[j]@ == k;
                            assert(j < i);
                            assert(0 <= j < i && other.names[j]@ == k);
                        }
                        if exists|j: int| 0 <= j < i && other.names[j]@ == k {
                            let j = choose|j: int| 0 <= j < i && other.names[j]@ == k;
                            assert(0 <= j < i + 1 && other.names[j]@ == k);
                        }
                    }
                }
            }
            i = i + 1;
        }
        proof {
            assert forall|k: Seq<char>|
                self.value(k) == sat_add(start.value(k), other.value(k)) by {
                if !(exists|j: int| 0 <= j < other.names.len() && other.names[j]@ == k) {
                    assert(!other.contains(k));
                }
            }
        }
    }

    /// Removes every name.
    pub fn clear(&mut self)
        ensures
            final(self).wf(),
            final(self).size() == 0,
            forall|k: Seq<char>| final(self).value(k) == 0 && !final(self).contains(k),
    {
        self.names.clear();
        self.values.clear();
    }

    /// A copy of this table.
    pub fn duplicate(&self) -> (r: NamedTotals)
        requires
            self.wf(),
        ensures
            r.wf(),
            r.size() == self.size(),
            forall|k: Seq<char>| #[trigger] r.value(k) == self.value(k) && r.contains(k) == self.contains(k),
    {
        let mut names: Vec<String> = Vec::new();
        let mut values: Vec<u64> = Vec::new();
        let mut i: usize = 0;
        while i < self.names.len()
            invariant
                self.wf(),
                i <= self.names@.len(),
                names@.len() == i,
                values@ == self.values@.subrange(0, i as int),
                forall|j: int| 0 <= j < i ==> #[trigger] names@[j]@ == self.names@[j]@,
            decreases self.names@.len() - i,
        {
            names.push(self.names[i].clone());
            values.push(self.values[i]);
            i = i + 1;
            assert(values@ =~= self.values@.subrange(0, i as int));
        }
        assert(values@ =~= self.values@);
        let r = NamedTotals { names, values };
        proof {
            assert forall|k: Seq<char>| #[trigger] r.value(k) == self.value(k) && r.contains(k)
                == self.contains(k) by {
                if r.contains(k) {
                    let j = choose|j: int| 0 <= j < r.names.len() && r.names[j]@ == k;
                    r.lemma_value_at(j);
                    self.lemma_value_at(j);
                }
                if self.contains(k) {
                    let j = choose|j: int| 0 <= j < self.names.len() && self.names[j]@ == k;
                    r.lemma_value_at(j);
                    self.lemma_value_at(j);
                }
            }
        }
        r
    }

    /// The names and totals, in the order the names were first recorded.
    pub fn entries(&self) -> (r: Vec<(String, u64)>)
        requires
            self.wf(),
        ensures
            r.len() == self.size(),
            forall|i: int|
                0 <= i < r.len() ==> self.value(#[trigger] r[i].0@) == r[i].1 && self.contains(
                    r[i].0@,
                ),
            forall|k: Seq<char>|
                self.contains(k) ==> exists|i: int| 0 <= i < r.len() && r[i].0@ == k,
    {
        let mut r: Vec<(String, u64)> = Vec::new();
        let mut i: usize = 0;
        while i < self.names.len()
            invariant
                self.wf(),
                i <= self.names.len(),
                r.len() == i,
                forall|j: int|
                    #![trigger self.names[j]]
                    0 <= j < i ==> r[j].0@ == self.names[j]@ && r[j].1 == self.values[j],
            decreases self.names.len() - i,
        {
            let name = self.names[i].clone();
            let ghost before = r@;
            let ghost entry = (name, self.values[i as int]);
            r.push((name, self.values[i]));
            assert(r@ == before.push(entry));
            assert forall|j: int| 0 <= j < i + 1 implies r[j].0@ == self.names[j]@ && r[j].1
                == self.values[j] by {
                if j < i {
                    assert(r[j] == before[j]);
                }
            }
            i = i + 1;
        }
        proof {
            assert forall|j: int| 0 <= j < r.len() implies self.value(#[trigger] r[j].0@) == r[j].1
                && self.contains(r[j].0@) by {
                self.lemma_value_at(j);
            }
            assert forall|k: Seq<char>| self.contains(k) implies exists|i: int|
                0 <= i < r.len() && r[i].0@ == k by {
                let j = choose|j: int| 0 <= j < self.names.len() && self.names[j]@ == k;
                assert(r[j].0@ == k);
            }
        }
        r
    }
}


/// Named event counters and named accumulated durations.
///
/// Counters only grow between resets: every update saturates at `u64::MAX`.
/// Durations are kept in nanoseconds.
pub struct StatsCounter {
    counters: NamedTotals,
    timers: NamedTotals,
}

impl StatsCounter {
    pub closed spec fn wf(&self) -> bool {
        self.counters.wf() && self.timers.wf()
    }

    /// The value of counter `key`; a counter never touched reads zero.
    pub closed spec fn count(&self, key: Seq<char>) -> u64 {
        self.counters.value(key)
    }

    /// Whether counter `key` has been touched since the last reset.
    pub closed spec fn has_counter(&self, key: Seq<char>) -> bool {
        self.counters.contains(key)
    }

    /// The accumulated duration of timer `key`, in nanoseconds.
    pub closed spec fn timer_nanos(&self, key: Seq<char>) -> u64 {
        self.timers.value(key)
    }

    /// Whether timer `key` has been touched since the last reset.
    pub closed spec fn has_timer(&self, key: Seq<char>) -> bool {
        self.timers.contains(key)
    }

    /// The number of counters touched since the last reset.
    pub closed spec fn counter_count(&self) -> nat {
        self.counters.size()
    }

    /// The number of timers touched since the last reset.
    pub closed spec fn timer_count(&self) -> nat {
        self.timers.size()
    }

    /// `self` equals `old` except that counter `key` went up by `n`.
    pub open spec fn bumped(&self, old: StatsCounter, key: Seq<char>, n: u64) -> bool {
        &&& self.wf()
        &&& self.count(key) == sat_add(old.count(key), n)
        &&& self.has_counter(key)
        &&& forall|k: Seq<char>|
            k != key ==> self.count(k) == old.count(k) && self.has_counter(k) == old.has_counter(k)
        &&& forall|k: Seq<char>|
            self.timer_nanos(k) == old.timer_nanos(k) && self.has_timer(k) == old.has_timer(k)
    }

    /// `self` equals `old` except that each counter `k` went up by `tally(k)`.
    pub open spec fn grew(&self, old: StatsCounter, tally: spec_fn(Seq<char>) -> nat) -> bool {
        &&& self.wf()
        &&& forall|k: Seq<char>| #[trigger] self.count(k) == clamp(old.count(k) + tally(k))
        &&& forall|k: Seq<char>|
            #[trigger] self.has_counter(k) == (old.has_counter(k) || tally(k) > 0)
        &&& forall|k: Seq<char>|
            #[trigger] self.timer_nanos(k) == old.timer_nanos(k) && self.has_timer(k)
                == old.has_timer(k)
    }

    pub fn new() -> (r: StatsCounter)
        ensures
            r.wf(),
            r.counter_count() == 0,
            r.timer_count() == 0,
            forall|k: Seq<char>|
                r.count(k) == 0 && r.timer_nanos(k) == 0 && !r.has_counter(k) && !r.has_timer(k),
    {
        StatsCounter { counters: NamedTotals::new(), timers: NamedTotals::new() }
    }

    /// Adds one to counter `key`.
    pub fn increment(&mut self, key: &str)
        requires
            old(self).wf(),
        ensures
            final(self).bumped(*old(self), key@, 1),
            final(self).grew(*old(self), |k: Seq<char>| hit(k, key@)),
    {
        self.counters.add(key, 1);
    }

    /// Adds `value` to counter `key`.
    pub fn add(&mut self, key: &str, value: u64)
        requires
            old(self).wf(),
        ensures
            final(self).bumped(*old(self), key@, value),
    {
        self.counters.add(key, value);
    }

    /// Sets counter `key` to `value`.
    pub fn set(&mut self, key: &str, value: u64)
        requires
            old(self).wf(),
        ensures
            final(self).wf(),
            final(self).count(key@) == value,
            final(self).has_counter(key@),
            forall|k: Seq<char>|
                k != key@ ==> final(self).count(k) == old(self).count(k) && final(self).has_counter(
                    k,
                ) == old(self).has_counter(k),
            forall|k: Seq<char>|
                final(self).timer_nanos(k) == old(self).timer_nanos(k) && final(self).has_timer(k)
                    == old(self).has_timer(k),
    {
        self.counters.set(key, value);
    }

    /// The value of counter `key`, zero if it was never touched.
    pub fn get(&self, key: &str) -> (r: u64)
        requires
            self.wf(),
        ensures
            r == self.count(key@),
    {
        self.counters.get(key)
    }

    /// Starts timer `key` afresh at zero.
    pub fn start_timer(&mut self, key: &str)
        requires
            old(self).wf(),
        ensures
            final(self).wf(),
            final(self).timer_nanos(key@) == 0,
            final(self).has_timer(key@),
            forall|k: Seq<char>|
                k != key@ ==> final(self).timer_nanos(k) == old(self).timer_nanos(k) && final(self).has_timer(k) == old(self).has_timer(k),
            forall|k: Seq<char>|
                final(self).count(k) == old(self).count(k) && final(self).has_counter(k) == old(self).has_counter(k),
    {
        self.timers.set(key, 0);
    }

    /// Adds a measured duration of `elapsed_nanos` nanoseconds to timer `key`.
    pub fn stop_timer(&mut self, key: &str, elapsed_nanos: u64)
        requires
            old(self).wf(),
        ensures
            final(self).wf(),
            final(self).timer_nanos(key@) == sat_add(old(self).timer_nanos(key@), elapsed_nanos),
            final(self).has_timer(key@),
            forall|k: Seq<char>|
                k != key@ ==> final(self).timer_nanos(k) == old(self).timer_nanos(k) && final(self).has_timer(k) == old(self).has_timer(k),
            forall|k: Seq<char>|
                final(self).count(k) == old(self).count(k) && final(self).has_counter(k) == old(self).has_counter(k),
    {
        self.timers.add(key, elapsed_nanos);
    }

    /// Timer `key` in whole milliseconds.
    pub fn get_timer_ms(&self, key: &str) -> (r: u64)
        requires
            self.wf(),
        ensures
            r == self.timer_nanos(key@) / 1_000_000,
    {
        self.timers.get(key) / 1_000_000
    }

    /// Adds every counter and timer of `other` into `self`.
    pub fn merge(&mut self, other: &StatsCounter)
        requires
            old(self).wf(),
            other.wf(),
        ensures
            final(self).wf(),
            forall|k: Seq<char>|
                final(self).count(k) == sat_add(old(self).count(k), other.count(k)),
            forall|k: Seq<char>|
                final(self).timer_nanos(k) == sat_add(old(self).timer_nanos(k), other.timer_nanos(k)),
            forall|k: Seq<char>|
                #[trigger] final(self).has_counter(k) == (old(self).has_counter(k)
                    || other.has_counter(k)),
            forall|k: Seq<char>|
                #[trigger] final(self).has_timer(k) == (old(self).has_timer(k) || other.has_timer(k)),
    {
        self.counters.merge(&other.counters);
        self.timers.merge(&other.timers);
    }

    /// A copy of these counters and timers.
    pub fn snapshot(&self) -> (r: StatsCounter)
        requires
            self.wf(),
        ensures
            r.wf(),
            r.counter_count() == self.counter_count(),
            r.timer_count() == self.timer_count(),
            forall|k: Seq<char>|
                #[trigger] r.count(k) == self.count(k) && r.has_counter(k) == self.has_counter(k),
            forall|k: Seq<char>|
                #[trigger] r.timer_nanos(k) == self.timer_nanos(k) && r.has_timer(k) == self.has_timer(k),
    {
        StatsCounter { counters: self.counters.duplicate(), timers: self.timers.duplicate() }
    }

    /// Clears every counter and timer.
    pub fn reset(&mut self)
        ensures
            final(self).wf(),
            final(self).counter_count() == 0,
            final(self).timer_count() == 0,
            forall|k: Seq<char>|
                final(self).count(k) == 0 && final(self).timer_nanos(k) == 0 && !final(self).has_counter(k) && !final(self).has_timer(k),
    {
        self.counters.clear();
        self.timers.clear();
    }

    /// The counters touched since the last reset, with their values.
    pub fn counter_entries(&self) -> (r: Vec<(String, u64)>)
        requires
            self.wf(),
        ensures
            r.len() == self.counter_count(),
            forall|i: int|
                0 <= i < r.len() ==> self.count(#[trigger] r[i].0@) == r[i].1 && self.has_counter(
                    r[i].0@,
                ),
            forall|k: Seq<char>|
                self.has_counter(k) ==> exists|i: int| 0 <= i < r.len() && r[i].0@ == k,
    {
        self.counters.entries()
    }

    /// The timers touched since the last reset, with their nanoseconds.
    pub fn timer_entries(&self) -> (r: Vec<(String, u64)>)
        requires
            self.wf(),
        ensures
            r.len() == self.timer_count(),
            forall|i: int|
                0 <= i < r.len() ==> self.timer_nanos(#[trigger] r[i].0@) == r[i].1
                    && self.has_timer(r[i].0@),
            forall|k: Seq<char>|
                self.has_timer(k) ==> exists|i: int| 0 <= i < r.len() && r[i].0@ == k,
    {
        self.timers.entries()
    }
}

/// Growth by `t1` and then by `t2` is growth by their sum.
pub proof fn lemma_grew_chain(
    a: StatsCounter,
    b: StatsCounter,
    c: StatsCounter,
    t1: spec_fn(Seq<char>) -> nat,
    t2: spec_fn(Seq<char>) -> nat,
    t3: spec_fn(Seq<char>) -> nat,
)
    requires
        b.grew(a, t1),
        c.grew(b, t2),
        forall|k: Seq<char>| #[trigger] t3(k) == t1(k) + t2(k),
    ensures
        c.grew(a, t3),
{
    assert forall|k: Seq<char>| #[trigger] c.count(k) == clamp(a.count(k) + t3(k)) by {
        assert(b.count(k) == clamp(a.count(k) + t1(k)));
        assert(c.count(k) == clamp(b.count(k) + t2(k)));
        assert(t3(k) == t1(k) + t2(k));
    }
    assert forall|k: Seq<char>| #[trigger]
        c.has_counter(k) == (a.has_counter(k) || t3(k) > 0) by {
        assert(b.has_counter(k) == (a.has_counter(k) || t1(k) > 0));
        assert(c.has_counter(k) == (b.has_counter(k) || t2(k) > 0));
        assert(t3(k) == t1(k) + t2(k));
    }
    assert forall|k: Seq<char>| #[trigger]
        c.timer_nanos(k) == a.timer_nanos(k) && c.has_timer(k) == a.has_timer(k) by {
        assert(b.timer_nanos(k) == a.timer_nanos(k));
        assert(c.timer_nanos(k) == b.timer_nanos(k));
    }
}

/// Growth by `t1` is growth by any tally equal to it at every name.
pub proof fn lemma_grew_same(
    a: StatsCounter,
    b: StatsCounter,
    t1: spec_fn(Seq<char>) -> nat,
    t2: spec_fn(Seq<char>) -> nat,
)
    requires
        b.grew(a, t1),
        forall|k: Seq<char>| #[trigger] t2(k) == t1(k),
    ensures
        b.grew(a, t2),
{
    assert forall|k: Seq<char>| #[trigger] b.count(k) == clamp(a.count(k) + t2(k)) by {
        assert(b.count(k) == clamp(a.count(k) + t1(k)));
    }
    assert forall|k: Seq<char>| #[trigger] b.has_counter(k) == (a.has_counter(k) || t2(k) > 0) by {
        assert(b.has_counter(k) == (a.has_counter(k) || t1(k) > 0));
    }
}

/// Growth by a tally that is zero everywhere leaves the counters as they were.
pub proof fn lemma_grew_none(a: StatsCounter, t: spec_fn(Seq<char>) -> nat)
    requires
        a.wf(),
        forall|k: Seq<char>| #[trigger] t(k) == 0,
    ensures
        a.grew(a, t),
{
    assert forall|k: Seq<char>| #[trigger] a.count(k) == clamp(a.count(k) + t(k)) by {
        assert(t(k) == 0);
    }
    assert forall|k: Seq<char>| #[trigger] a.has_counter(k) == (a.has_counter(k) || t(k) > 0) by {
        assert(t(k) == 0);
    }
}

} // verus!
