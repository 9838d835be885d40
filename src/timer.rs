use vstd::prelude::*;

use std::time::{Duration, Instant};

verus! {

#[verifier::external_type_specification]
#[verifier::external_body]
pub struct ExInstant(std::time::Instant);

/// Relies on `Instant::now`: a reading of the monotonic clock.
#[verifier::external_body]
fn instant_now() -> Instant {
    Instant::now()
}

/// Relies on `Instant::elapsed`: the time since `start`.
#[verifier::external_body]
fn elapsed_since(start: &Instant) -> Duration {
    start.elapsed()
}

/// Relies on `Duration::as_nanos`: the whole nanoseconds of `d`, cut to 64 bits.
#[verifier::external_body]
fn whole_nanos(d: &Duration) -> u64 {
    d.as_nanos() as u64
}

/// The nanoseconds since `start`.
fn nanos_since(start: &Instant) -> u64 {
    let d = elapsed_since(start);
    whole_nanos(&d)
}

/// `a - b`, or zero when `b` is larger.
pub open spec fn sub_or_zero(a: u64, b: u64) -> u64 {
    if a >= b {
        (a - b) as u64
    } else {
        0
    }
}

/// The time between each mark of `marks` and the one before it (the start,
/// for the first), with the mark's name.
pub open spec fn gaps(marks: Seq<(String, u64)>, i: int) -> (Seq<char>, u64) {
    (marks[i].0@, sub_or_zero(marks[i].1, if i == 0 { 0 } else { marks[i - 1].1 }))
}

/// A stopwatch with named marks.
pub struct HighResTimer {
    start: Instant,
    marks: Vec<(String, u64)>,
}

impl HighResTimer {
    /// The marks: each name with its nanoseconds since the start.
    pub closed spec fn marks_view(&self) -> Seq<(String, u64)> {
        self.marks@
    }

    /// A stopwatch started now, with no marks.
    pub fn new() -> (r: HighResTimer)
        ensures
            r.marks_view().len() == 0,
    {
        HighResTimer { start: instant_now(), marks: Vec::new() }
    }

    /// Records a mark called `name` at the time elapsed so far.
    pub fn mark(&mut self, name: &str)
        ensures
            final(self).marks_view().len() == old(self).marks_view().len() + 1,
            final(self).marks_view().drop_last() == old(self).marks_view(),
            final(self).marks_view().last().0@ == name@,
    {
        let elapsed = nanos_since(&self.start);
        let ghost before = self.marks@;
        self.marks.push((name.to_owned(), elapsed));
        assert(self.marks@.drop_last() =~= before);
    }

    /// Nanoseconds since the start.
    pub fn elapsed_nanos(&self) -> u64 {
        nanos_since(&self.start)
    }

    /// Microseconds since the start.
    pub fn elapsed_micros(&self) -> u64 {
        nanos_since(&self.start) / 1000
    }

    /// Milliseconds since the start.
    pub fn elapsed_millis(&self) -> u64 {
        nanos_since(&self.start) / 1_000_000
    }

    /// For each mark, its name and the nanoseconds since the mark before it.
    pub fn intervals(&self) -> (r: Vec<(String, u64)>)
        ensures
            r@.len() == self.marks_view().len(),
            forall|i: int|
                0 <= i < r@.len() ==> (#[trigger] r@[i]).0@ == gaps(self.marks_view(), i).0 && r@[i].1
                    == gaps(self.marks_view(), i).1,
    {
        let mut result: Vec<(String, u64)> = Vec::new();
        let mut prev: u64 = 0;
        let mut i: usize = 0;
        while i < self.marks.len()
            invariant
                i <= self.marks@.len(),
                result@.len() == i,
                prev == if i == 0 { 0 } else { self.marks@[i - 1].1 },
                forall|j: int|
                    0 <= j < i ==> (#[trigger] result@[j]).0@ == gaps(self.marks@, j).0 && result@[j].1
                        == gaps(self.marks@, j).1,
            decreases self.marks@.len() - i,
        {
            let time = self.marks[i].1;
            let interval = if time >= prev {
                time - prev
            } else {
                0
            };
            let name = self.marks[i].0.clone();
            result.push((name, interval));
            prev = time;
            i = i + 1;
        }
        result
    }

    /// Starts again from now, with no marks.
    pub fn reset(&mut self)
        ensures
            final(self).marks_view().len() == 0,
    {
        self.start = instant_now();
        self.marks.clear();
    }
}

} // verus!
