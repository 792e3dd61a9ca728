//! Cumulative step timings for ingest profiling.

use vstd::prelude::*;
use std::time::Duration;

use crate::text::{
    chars_equal, chars_less, chars_lt, chars_of, lemma_chars_lt_asymmetric,
    lemma_chars_lt_irreflexive, lemma_chars_lt_total, lemma_chars_lt_transitive, owned,
};

verus! {

/// Largest `Duration` in nanoseconds: `u64::MAX` seconds and 999,999,999 nanoseconds.
pub const MAX_DURATION_NANOS: u128 = 18446744073709551615999999999;

/// The whole of a duration in nanoseconds, as `Duration::as_nanos` gives it.
pub uninterp spec fn duration_nanos(d: Duration) -> nat;

/// `Duration::as_nanos`: the whole duration in nanoseconds, which never exceeds the
/// largest duration.
pub assume_specification[ Duration::as_nanos ](d: &Duration) -> (n: u128)
    ensures
        n == duration_nanos(*d),
        n <= MAX_DURATION_NANOS,
;

/// Builds a `Duration` with `Duration::new`: `secs` whole seconds and `nanos`
/// nanoseconds; `nanos` under one second keeps the call from carrying and overflowing.
#[verifier::external_body]
fn duration_new(secs: u64, nanos: u32) -> (d: Duration)
    requires
        nanos < 1_000_000_000,
    ensures
        duration_nanos(d) == secs * 1_000_000_000 + nanos,
{
    Duration::new(secs, nanos)
}

/// Named step with accumulated wall time (nanoseconds) and event count.
struct ProfileStep {
    name: String,
    nanos: u128,
    count: u64,
}

/// Aggregated profile across an ingest run, kept in order of step name.
pub struct IngestProfile {
    steps: Vec<ProfileStep>,
}

/// A step as (name, nanoseconds, count).
pub type StepView = (Seq<char>, nat, nat);

/// Steps strictly ordered by name (so each name occurs once), each time within range.
pub open spec fn steps_wf(v: Seq<StepView>) -> bool {
    &&& forall|i: int, j: int| 0 <= i < j < v.len() ==> chars_lt(#[trigger] v[i].0, #[trigger] v[j].0)
    &&& forall|i: int| 0 <= i < v.len() ==> #[trigger] v[i].1 <= MAX_DURATION_NANOS && v[i].2 <= u64::MAX
}

spec fn steps_view(v: Seq<ProfileStep>) -> Seq<StepView> {
    Seq::new(v.len(), |i: int| (v[i].name@, v[i].nanos as nat, v[i].count as nat))
}

impl View for IngestProfile {
    type V = Seq<StepView>;

    closed spec fn view(&self) -> Seq<StepView> {
        steps_view(self.steps@)
    }
}

/// Index of the step named `name`, if any.
pub open spec fn step_index(v: Seq<StepView>, name: Seq<char>) -> Option<int> {
    if exists|i: int| 0 <= i < v.len() && v[i].0 == name {
        Some(choose|i: int| 0 <= i < v.len() && v[i].0 == name)
    } else {
        None
    }
}

/// Time already recorded for `name`.
pub open spec fn step_nanos(v: Seq<StepView>, name: Seq<char>) -> nat {
    match step_index(v, name) {
        Some(i) => v[i].1,
        None => 0,
    }
}

/// Count already recorded for `name`.
pub open spec fn step_count(v: Seq<StepView>, name: Seq<char>) -> nat {
    match step_index(v, name) {
        Some(i) => v[i].2,
        None => 0,
    }
}

/// Number of steps whose name sorts before `name`.
pub open spec fn names_before(v: Seq<StepView>, name: Seq<char>) -> int
    decreases v.len(),
{
    if v.len() == 0 {
        0
    } else {
        names_before(v.drop_last(), name) + if chars_lt(v.last().0, name) {
            1int
        } else {
            0int
        }
    }
}

/// The profile after adding `nanos` and `count` to step `name` (creating the step in
/// name order when it is new).
pub open spec fn profile_add(v: Seq<StepView>, name: Seq<char>, nanos: nat, count: nat) -> Seq<
    StepView,
> {
    match step_index(v, name) {
        Some(i) => v.update(i, (name, v[i].1 + nanos, v[i].2 + count)),
        None => v.insert(names_before(v, name), (name, nanos, count)),
    }
}

/// What recording `n` nanoseconds and `count` events for `name` did: the addition,
/// or nothing when the step's time would exceed the largest duration.
pub open spec fn record_outcome(
    before: Seq<StepView>,
    after: Seq<StepView>,
    name: Seq<char>,
    n: nat,
    count: nat,
) -> bool {
    n <= MAX_DURATION_NANOS && if step_nanos(before, name) + n <= MAX_DURATION_NANOS {
        after == profile_add(before, name, n, count)
    } else {
        after == before
    }
}

/// Sum of the recorded times.
pub open spec fn total_nanos_of(v: Seq<StepView>) -> nat
    decreases v.len(),
{
    if v.len() == 0 {
        0
    } else {
        total_nanos_of(v.drop_last()) + v.last().1
    }
}

proof fn lemma_names_before_sorted(v: Seq<StepView>, name: Seq<char>, p: int)
    requires
        steps_wf(v),
        0 <= p <= v.len(),
        forall|q: int| 0 <= q < p ==> chars_lt(#[trigger] v[q].0, name),
        forall|q: int| p <= q < v.len() ==> !chars_lt(#[trigger] v[q].0, name),
    ensures
        names_before(v, name) == p,
    decreases v.len(),
{
    if v.len() > 0 {
        let w = v.drop_last();
        if p == v.len() {
            lemma_names_before_sorted(w, name, p - 1);
            assert(chars_lt(v[p - 1].0, name));
        } else {
            lemma_names_before_sorted(w, name, p);
            assert(!chars_lt(v[v.len() - 1].0, name));
        }
    }
}

/// Whether a step is a phase total, left out of the report table.
pub open spec fn is_phase_total(name: Seq<char>) -> bool {
    name == "ingest.total"@ || name == "backfill.total"@
}

/// The steps shown in the report table: all but the phase totals, in name order.
pub open spec fn report_steps(v: Seq<StepView>) -> Seq<StepView>
    decreases v.len(),
{
    if v.len() == 0 {
        Seq::empty()
    } else {
        let rest = report_steps(v.drop_last());
        if is_phase_total(v.last().0) {
            rest
        } else {
            rest.push(v.last())
        }
    }
}

/// Report order: longer time first; equal times in name order.
pub open spec fn report_before(a: StepView, b: StepView) -> bool {
    a.1 > b.1 || (a.1 == b.1 && chars_lt(a.0, b.0))
}

/// Rows (name, nanoseconds, count) as step views.
pub open spec fn row_views(r: Seq<(String, u128, u64)>) -> Seq<StepView> {
    Seq::new(r.len(), |i: int| (r[i].0@, r[i].1 as nat, r[i].2 as nat))
}

/// Sum of the times of the steps shown in the report.
pub open spec fn tracked_nanos_of(v: Seq<StepView>) -> nat {
    total_nanos_of(report_steps(v))
}

proof fn lemma_report_steps_sub(v: Seq<StepView>)
    ensures
        report_steps(v).len() <= v.len(),
        forall|j: int| 0 <= j < report_steps(v).len() ==> v.contains(#[trigger] report_steps(v)[j])
            && !is_phase_total(report_steps(v)[j].0),
    decreases v.len(),
{
    if v.len() > 0 {
        lemma_report_steps_sub(v.drop_last());
        let r = report_steps(v.drop_last());
        assert forall|j: int| 0 <= j < report_steps(v).len() implies v.contains(
            #[trigger] report_steps(v)[j],
        ) && !is_phase_total(report_steps(v)[j].0) by {
            if j < r.len() {
                assert(report_steps(v)[j] == r[j]);
                let k = choose|k: int| 0 <= k < v.drop_last().len() && v.drop_last()[k] == r[j];
                assert(v[k] == r[j]);
            } else {
                assert(report_steps(v)[j] == v[v.len() - 1]);
            }
        }
    }
}

proof fn lemma_report_before_total(a: StepView, b: StepView)
    requires
        a.0 != b.0,
    ensures
        report_before(a, b) || report_before(b, a),
        !(report_before(a, b) && report_before(b, a)),
{
    lemma_chars_lt_total(a.0, b.0);
    lemma_chars_lt_asymmetric(a.0, b.0);
}

proof fn lemma_report_before_transitive(a: StepView, b: StepView, c: StepView)
    requires
        report_before(a, b),
        report_before(b, c),
    ensures
        report_before(a, c),
{
    if a.1 == b.1 && b.1 == c.1 {
        lemma_chars_lt_transitive(a.0, b.0, c.0);
    }
}

impl IngestProfile {
    #[verifier::type_invariant]
    spec fn well_formed(self) -> bool {
        steps_wf(steps_view(self.steps@))
    }

    /// An empty profile.
    pub fn new() -> (p: Self)
        ensures
            p@ == Seq::<StepView>::empty(),
    {
        IngestProfile { steps: Vec::new() }
    }

    /// Adds `nanos` of wall time and `count` events to step `name`.
    pub fn record_nanos(&mut self, name: &str, nanos: u128, count: u64)
        requires
            step_nanos(old(self)@, name@) + nanos <= MAX_DURATION_NANOS,
            step_count(old(self)@, name@) + count <= u64::MAX,
        ensures
            final(self)@ == profile_add(old(self)@, name@, nanos as nat, count as nat),
            steps_wf(final(self)@),
    {
        proof {
            use_type_invariant(&*self);
        }
        let ghost v = steps_view(self.steps@);
        let (found, i) = self.locate(name);
        if found {
            proof {
                assert(v[i as int].0 == name@);
                assert(step_index(v, name@) == Some(i as int)) by {
                    let k = choose|k: int| 0 <= k < v.len() && v[k].0 == name@;
                    lemma_chars_lt_irreflexive(name@);
                    if k < i {
                        assert(chars_lt(v[k].0, v[i as int].0));
                    } else if k > i {
                        assert(chars_lt(v[i as int].0, v[k].0));
                    }
                }
            }
            let old_nanos = self.steps[i].nanos;
            let old_count = self.steps[i].count;
            let updated = ProfileStep {
                name: owned(name),
                nanos: old_nanos + nanos,
                count: old_count + count,
            };
            let mut steps: Vec<ProfileStep> = Vec::new();
            std::mem::swap(&mut steps, &mut self.steps);
            steps.set(i, updated);
            proof {
                let w = steps_view(steps@);
                assert(w =~= v.update(i as int, (name@, v[i as int].1 + nanos as nat, v[i as int].2 + count as nat)));
                assert forall|a: int, b: int| 0 <= a < b < w.len() implies chars_lt(
                    #[trigger] w[a].0,
                    #[trigger] w[b].0,
                ) by {
                    assert(w[a].0 == v[a].0 && w[b].0 == v[b].0);
                }
            }
            self.steps = steps;
            return;
        }
        proof {
            // No step has this name: those before sort before it, those after sort after.
            lemma_chars_lt_irreflexive(name@);
            assert forall|q: int| i <= q < v.len() implies !chars_lt(#[trigger] v[q].0, name@) && v[q].0 != name@ by {
                assert(chars_lt(name@, v[i as int].0));
                if q > i {
                    assert(chars_lt(v[i as int].0, v[q].0));
                    lemma_chars_lt_transitive(name@, v[i as int].0, v[q].0);
                }
                lemma_chars_lt_asymmetric(name@, v[q].0);
            }
            assert forall|q: int| 0 <= q < i implies v[q].0 != name@ by {
                assert(chars_lt(v[q].0, name@));
            }
            assert(step_index(v, name@) is None);
            lemma_names_before_sorted(v, name@, i as int);
        }
        let step = ProfileStep { name: owned(name), nanos, count };
        let mut steps: Vec<ProfileStep> = Vec::new();
        std::mem::swap(&mut steps, &mut self.steps);
        steps.insert(i, step);
        proof {
            let w = steps_view(steps@);
            assert(w =~= v.insert(i as int, (name@, nanos as nat, count as nat)));
            assert forall|a: int, b: int| 0 <= a < b < w.len() implies chars_lt(
                #[trigger] w[a].0,
                #[trigger] w[b].0,
            ) by {
                if b < i {
                    assert(w[a] == v[a] && w[b] == v[b]);
                } else if b == i {
                    assert(w[a] == v[a]);
                    assert(w[b].0 == name@);
                    assert(chars_lt(v[a].0, name@));
                } else if a == i {
                    assert(w[a].0 == name@);
                    assert(w[b] == v[b - 1]);
                    lemma_chars_lt_total(name@, v[b - 1].0);
                } else if a < i {
                    assert(w[a] == v[a] && w[b] == v[b - 1]);
                    lemma_chars_lt_total(name@, v[b - 1].0);
                    lemma_chars_lt_transitive(w[a].0, name@, w[b].0);
                } else {
                    assert(w[a] == v[a - 1] && w[b] == v[b - 1]);
                }
            }
        }
        self.steps = steps;
    }

    /// Where `name` is or would go: whether a step has it, and that step's index or the
    /// index of the first step whose name sorts after it.
    fn locate(&self, name: &str) -> (r: (bool, usize))
        ensures
            r.1 <= self@.len(),
            r.0 ==> r.1 < self@.len() && self@[r.1 as int].0 == name@,
            !r.0 ==> (forall|q: int| 0 <= q < r.1 ==> chars_lt(#[trigger] self@[q].0, name@)) && (
            r.1 < self@.len() ==> chars_lt(name@, self@[r.1 as int].0)),
    {
        let key = chars_of(name);
        let mut i: usize = 0;
        while i < self.steps.len()
            invariant
                i <= self.steps@.len(),
                self@ == steps_view(self.steps@),
                key@ == name@,
                forall|q: int| 0 <= q < i ==> chars_lt(#[trigger] self@[q].0, name@),
            decreases self.steps@.len() - i,
        {
            let other = chars_of(self.steps[i].name.as_str());
            if chars_equal(other.as_slice(), key.as_slice()) {
                return (true, i);
            }
            if chars_less(key.as_slice(), other.as_slice()) {
                return (false, i);
            }
            proof {
                lemma_chars_lt_total(other@, key@);
            }
            i = i + 1;
        }
        (false, i)
    }

    /// Records elapsed time and an associated count for a named step. When adding the
    /// time would exceed the largest duration the profile is left unchanged (adding
    /// the durations in place would panic).
    pub fn record_count(&mut self, name: &str, duration: Duration, count: u64)
        requires
            step_count(old(self)@, name@) + count <= u64::MAX,
        ensures
            steps_wf(final(self)@),
            record_outcome(old(self)@, final(self)@, name@, duration_nanos(duration), count as nat),
    {
        proof {
            use_type_invariant(&*self);
        }
        let n = duration.as_nanos();
        let existing = self.nanos_of(name);
        let ghost before = self@;
        if n <= MAX_DURATION_NANOS - existing {
            self.record_nanos(name, n, count);
        }
        assert(record_outcome(before, self@, name@, n as nat, count as nat));
    }

    /// Records elapsed time for a named step, counting one event.
    pub fn record(&mut self, name: &str, duration: Duration)
        requires
            step_count(old(self)@, name@) + 1 <= u64::MAX,
        ensures
            steps_wf(final(self)@),
            record_outcome(old(self)@, final(self)@, name@, duration_nanos(duration), 1),
    {
        self.record_count(name, duration, 1);
    }

    /// Time recorded so far for `name`, in nanoseconds.
    pub fn nanos_of(&self, name: &str) -> (n: u128)
        ensures
            n == step_nanos(self@, name@),
    {
        proof {
            use_type_invariant(self);
        }
        let key = chars_of(name);
        let mut i: usize = 0;
        while i < self.steps.len()
            invariant
                i <= self.steps@.len(),
                steps_wf(self@),
                self@ == steps_view(self.steps@),
                key@ == name@,
                forall|q: int| 0 <= q < i ==> self@[q].0 != name@,
            decreases self.steps@.len() - i,
        {
            let other = chars_of(self.steps[i].name.as_str());
            if chars_equal(other.as_slice(), key.as_slice()) {
                proof {
                    let v = self@;
                    let k = choose|k: int| 0 <= k < v.len() && v[k].0 == name@;
                    assert(v[i as int].0 == name@);
                    if k != i {
                        lemma_chars_lt_irreflexive(name@);
                    }
                }
                return self.steps[i].nanos;
            }
            i = i + 1;
        }
        0
    }

    /// Total tracked wall time across all steps, in nanoseconds.
    pub fn total_nanos(&self) -> (n: u128)
        requires
            total_nanos_of(self@) <= u128::MAX,
        ensures
            n == total_nanos_of(self@),
    {
        let ghost v = self@;
        let mut sum: u128 = 0;
        let mut i: usize = 0;
        while i < self.steps.len()
            invariant
                i <= self.steps@.len(),
                v == self@,
                v == steps_view(self.steps@),
                total_nanos_of(v) <= u128::MAX,
                sum == total_nanos_of(v.take(i as int)),
            decreases self.steps@.len() - i,
        {
            proof {
                assert(v.take(i + 1).drop_last() == v.take(i as int));
                lemma_total_prefix(v, i + 1);
            }
            sum = sum + self.steps[i].nanos;
            i = i + 1;
        }
        assert(v.take(v.len() as int) == v);
        sum
    }

    /// Total tracked wall time across all steps.
    pub fn total(&self) -> (d: Duration)
        requires
            total_nanos_of(self@) <= MAX_DURATION_NANOS,
        ensures
            duration_nanos(d) == total_nanos_of(self@),
    {
        let n = self.total_nanos();
        let secs: u64 = (n / 1_000_000_000) as u64;
        let nanos: u32 = (n % 1_000_000_000) as u32;
        duration_new(secs, nanos)
    }

    /// The recorded steps as (name, nanoseconds, count), in name order.
    pub fn steps(&self) -> (r: Vec<(String, u128, u64)>)
        ensures
            r@.len() == self@.len(),
            forall|i: int|
                0 <= i < r@.len() ==> (#[trigger] r@[i]).0@ == self@[i].0 && r@[i].1 == self@[i].1
                    && r@[i].2 == self@[i].2,
    {
        let mut out: Vec<(String, u128, u64)> = Vec::new();
        let mut i: usize = 0;
        while i < self.steps.len()
            invariant
                i <= self.steps@.len(),
                self@ == steps_view(self.steps@),
                out@.len() == i,
                forall|k: int|
                    0 <= k < i ==> (#[trigger] out@[k]).0@ == self@[k].0 && out@[k].1
                        == self@[k].1 && out@[k].2 == self@[k].2,
            decreases self.steps@.len() - i,
        {
            let s = &self.steps[i];
            out.push((s.name.clone(), s.nanos, s.count));
            i = i + 1;
        }
        out
    }

    fn row_comes_before(row: &(String, u128, u64), nanos: u128, name: &[char]) -> (r: bool)
        ensures
            r == report_before((row.0@, row.1 as nat, row.2 as nat), (name@, nanos as nat, 0)),
    {
        let row_name = chars_of(row.0.as_str());
        row.1 > nanos || (row.1 == nanos && chars_less(row_name.as_slice(), name))
    }

    /// The report table's rows: every step but the phase totals, longest time first,
    /// equal times in name order.
    pub fn report_rows(&self) -> (r: Vec<(String, u128, u64)>)
        ensures
            row_views(r@).len() == report_steps(self@).len(),
            forall|i: int, j: int|
                0 <= i < j < r@.len() ==> report_before(row_views(r@)[i], row_views(r@)[j]),
            forall|i: int| 0 <= i < r@.len() ==> report_steps(self@).contains(#[trigger] row_views(r@)[i]),
            forall|j: int|
                0 <= j < report_steps(self@).len() ==> row_views(r@).contains(
                    #[trigger] report_steps(self@)[j],
                ),
    {
        proof {
            use_type_invariant(self);
        }
        let ghost v = self@;
        let ingest_total = chars_of("ingest.total");
        let backfill_total = chars_of("backfill.total");
        let mut out: Vec<(String, u128, u64)> = Vec::new();
        let mut i: usize = 0;
        while i < self.steps.len()
            invariant
                i <= self.steps@.len(),
                v == self@,
                v == steps_view(self.steps@),
                steps_wf(v),
                ingest_total@ == "ingest.total"@,
                backfill_total@ == "backfill.total"@,
                row_views(out@).len() == report_steps(v.take(i as int)).len(),
                forall|a: int, b: int|
                    0 <= a < b < out@.len() ==> report_before(row_views(out@)[a], row_views(out@)[b]),
                forall|a: int|
                    0 <= a < out@.len() ==> report_steps(v.take(i as int)).contains(
                        #[trigger] row_views(out@)[a],
                    ),
                forall|j: int|
                    0 <= j < report_steps(v.take(i as int)).len() ==> row_views(out@).contains(
                        #[trigger] report_steps(v.take(i as int))[j],
                    ),
            decreases self.steps@.len() - i,
        {
            let ghost before = report_steps(v.take(i as int));
            let ghost x = v[i as int];
            proof {
                assert(v.take(i + 1).drop_last() == v.take(i as int));
                assert(v.take(i + 1).last() == x);
                lemma_report_steps_sub(v.take(i as int));
            }
            let step = &self.steps[i];
            let name = chars_of(step.name.as_str());
            let skip = chars_equal(name.as_slice(), ingest_total.as_slice()) || chars_equal(
                name.as_slice(),
                backfill_total.as_slice(),
            );
            if !skip {
                let ghost rows0 = row_views(out@);
                // Every row so far is an earlier step, whose name sorts before this one.
                assert forall|a: int| 0 <= a < rows0.len() implies #[trigger] rows0[a].0 != x.0 by {
                    let y = rows0[a];
                    assert(before.contains(y));
                    assert(v.take(i as int).contains(y));
                    let k = choose|k: int| 0 <= k < i && v.take(i as int)[k] == y;
                    assert(chars_lt(v[k].0, v[i as int].0));
                    lemma_chars_lt_irreflexive(x.0);
                }
                let n_out = out.len();
                let mut p: usize = 0;
                let mut go = p < out.len() && Self::row_comes_before(&out[p], step.nanos, name.as_slice());
                while go
                    invariant
                        p <= out@.len(),
                        n_out == out@.len(),
                        rows0 == row_views(out@),
                        name@ == x.0,
                        step.nanos == x.1,
                        forall|q: int| 0 <= q < p ==> report_before(#[trigger] rows0[q], x),
                        go ==> p < out@.len() && report_before(rows0[p as int], x),
                        !go ==> p == out@.len() || !report_before(rows0[p as int], x),
                    decreases out@.len() - p,
                {
                    p = p + 1;
                    go = p < out.len() && Self::row_comes_before(&out[p], step.nanos, name.as_slice());
                }
                out.insert(p, (step.name.clone(), step.nanos, step.count));
                proof {
                    let rows1 = row_views(out@);
                    assert(rows1 =~= rows0.insert(p as int, x));
                    if p < rows0.len() {
                        lemma_report_before_total(rows0[p as int], x);
                    }
                    assert forall|a: int, b: int| 0 <= a < b < rows1.len() implies report_before(
                        rows1[a],
                        rows1[b],
                    ) by {
                        if b < p {
                        } else if b == p {
                            assert(rows1[a] == rows0[a]);
                        } else if a < p {
                            assert(rows1[b] == rows0[b - 1]);
                            if b - 1 > p {
                                lemma_report_before_transitive(x, rows0[p as int], rows0[b - 1]);
                            }
                            lemma_report_before_transitive(rows0[a], x, rows0[b - 1]);
                        } else if a == p {
                            assert(rows1[b] == rows0[b - 1]);
                            if b - 1 > p {
                                lemma_report_before_transitive(x, rows0[p as int], rows0[b - 1]);
                            }
                        } else {
                            assert(rows1[a] == rows0[a - 1]);
                            assert(rows1[b] == rows0[b - 1]);
                        }
                    }
                    let after = report_steps(v.take(i + 1));
                    assert(after == before.push(x));
                    assert forall|a: int| 0 <= a < rows1.len() implies after.contains(#[trigger] rows1[a]) by {
                        if a < p {
                            assert(rows1[a] == rows0[a]);
                            let k = choose|k: int| 0 <= k < before.len() && before[k] == rows0[a];
                            assert(after[k] == before[k]);
                        } else if a == p {
                            assert(after[before.len() as int] == x);
                        } else {
                            assert(rows1[a] == rows0[a - 1]);
                            let k = choose|k: int| 0 <= k < before.len() && before[k] == rows0[a - 1];
                            assert(after[k] == before[k]);
                        }
                    }
                    assert forall|j: int| 0 <= j < after.len() implies rows1.contains(#[trigger] after[j]) by {
                        if j < before.len() {
                            assert(after[j] == before[j]);
                            let k = choose|k: int| 0 <= k < rows0.len() && rows0[k] == before[j];
                            if k < p {
                                assert(rows1[k] == rows0[k]);
                            } else {
                                assert(rows1[k + 1] == rows0[k]);
                            }
                        } else {
                            assert(rows1[p as int] == x);
                        }
                    }
                }
            } else {
                proof {
                    assert(report_steps(v.take(i + 1)) == before);
                }
            }
            i = i + 1;
        }
        assert(v.take(v.len() as int) == v);
        out
    }

    /// Total time of the steps shown in the report, in nanoseconds.
    pub fn tracked_nanos(&self) -> (n: u128)
        requires
            tracked_nanos_of(self@) <= u128::MAX,
        ensures
            n == tracked_nanos_of(self@),
    {
        let ghost v = self@;
        let ingest_total = chars_of("ingest.total");
        let backfill_total = chars_of("backfill.total");
        let mut sum: u128 = 0;
        let mut i: usize = 0;
        while i < self.steps.len()
            invariant
                i <= self.steps@.len(),
                v == self@,
                v == steps_view(self.steps@),
                ingest_total@ == "ingest.total"@,
                backfill_total@ == "backfill.total"@,
                tracked_nanos_of(v) <= u128::MAX,
                sum == total_nanos_of(report_steps(v.take(i as int))),
            decreases self.steps@.len() - i,
        {
            proof {
                assert(v.take(i + 1).drop_last() == v.take(i as int));
                assert(v.take(i + 1).last() == v[i as int]);
                lemma_report_total_prefix(v, i + 1);
            }
            let name = chars_of(self.steps[i].name.as_str());
            let skip = chars_equal(name.as_slice(), ingest_total.as_slice()) || chars_equal(
                name.as_slice(),
                backfill_total.as_slice(),
            );
            proof {
                let rest = report_steps(v.take(i as int));
                if !skip {
                    assert(rest.push(v[i as int]).drop_last() == rest);
                }
            }
            if !skip {
                sum = sum + self.steps[i].nanos;
            }
            i = i + 1;
        }
        assert(v.take(v.len() as int) == v);
        sum
    }
}

proof fn lemma_report_total_prefix(v: Seq<StepView>, k: int)
    requires
        0 <= k <= v.len(),
    ensures
        total_nanos_of(report_steps(v.take(k))) <= tracked_nanos_of(v),
    decreases v.len() - k,
{
    if k < v.len() {
        lemma_report_total_prefix(v, k + 1);
        let a = v.take(k + 1);
        assert(a.drop_last() == v.take(k));
        let rest = report_steps(v.take(k));
        if !is_phase_total(a.last().0) {
            assert(rest.push(a.last()).drop_last() == rest);
        }
    } else {
        assert(v.take(k) == v);
    }
}

/// The count column of the report: the count, or "-" for none.
pub open spec fn spec_count_text(count: nat) -> Seq<char> {
    if count > 0 {
        crate::decimal::decimal_digits(count)
    } else {
        "-"@
    }
}

/// The count column of the report: the count, or "-" for none.
pub fn count_text(count: u64) -> (r: String)
    ensures
        r@ == spec_count_text(count as nat),
{
    if count > 0 {
        let mut out: Vec<char> = Vec::new();
        crate::decimal::push_decimal(&mut out, count);
        crate::text::string_from_chars(out.as_slice())
    } else {
        owned("-")
    }
}

proof fn lemma_total_prefix(v: Seq<StepView>, k: int)
    requires
        0 <= k <= v.len(),
    ensures
        total_nanos_of(v.take(k)) <= total_nanos_of(v),
    decreases v.len() - k,
{
    if k < v.len() {
        lemma_total_prefix(v, k + 1);
        assert(v.take(k + 1).drop_last() == v.take(k));
    } else {
        assert(v.take(k) == v);
    }
}

} // verus!

verus! {

proof fn lemma_total_update(v: Seq<StepView>, i: int, x: StepView)
    requires
        0 <= i < v.len(),
    ensures
        total_nanos_of(v.update(i, x)) + v[i].1 == total_nanos_of(v) + x.1,
    decreases v.len(),
{
    if i == v.len() - 1 {
        assert(v.update(i, x).drop_last() == v.drop_last());
    } else {
        assert(v.update(i, x).drop_last() == v.drop_last().update(i, x));
        lemma_total_update(v.drop_last(), i, x);
    }
}

proof fn lemma_total_insert(v: Seq<StepView>, i: int, x: StepView)
    requires
        0 <= i <= v.len(),
    ensures
        total_nanos_of(v.insert(i, x)) == total_nanos_of(v) + x.1,
    decreases v.len(),
{
    if i == v.len() {
        assert(v.insert(i, x).drop_last() == v);
    } else {
        assert(v.insert(i, x).drop_last() == v.drop_last().insert(i, x));
        assert(v.insert(i, x).last() == v.last());
        lemma_total_insert(v.drop_last(), i, x);
    }
}

proof fn lemma_names_before_bounds(v: Seq<StepView>, name: Seq<char>)
    ensures
        0 <= names_before(v, name) <= v.len(),
    decreases v.len(),
{
    if v.len() > 0 {
        lemma_names_before_bounds(v.drop_last(), name);
    }
}

/// Law: recording adds exactly the recorded time to the profile's total, whether the
/// step is new or already there.
pub proof fn lemma_record_adds_to_total(v: Seq<StepView>, name: Seq<char>, nanos: nat, count: nat)
    ensures
        total_nanos_of(profile_add(v, name, nanos, count)) == total_nanos_of(v) + nanos,
{
    match step_index(v, name) {
        Some(i) => {
            lemma_total_update(v, i, (name, v[i].1 + nanos, v[i].2 + count));
        },
        None => {
            lemma_names_before_bounds(v, name);
            lemma_total_insert(v, names_before(v, name), (name, nanos, count));
        },
    }
}

} // verus!

verus! {

/// Each name occurs in at most one step.
pub open spec fn names_distinct(v: Seq<StepView>) -> bool {
    forall|i: int, j: int| 0 <= i < j < v.len() ==> #[trigger] v[i].0 != #[trigger] v[j].0
}

proof fn lemma_wf_names_distinct(v: Seq<StepView>)
    requires
        steps_wf(v),
    ensures
        names_distinct(v),
{
    assert forall|i: int, j: int| 0 <= i < j < v.len() implies #[trigger] v[i].0 != #[trigger] v[j].0 by {
        assert(chars_lt(v[i].0, v[j].0));
        lemma_chars_lt_irreflexive(v[i].0);
    }
}

proof fn lemma_step_index_at(v: Seq<StepView>, k: Seq<char>, j: int)
    requires
        names_distinct(v),
        0 <= j < v.len(),
        v[j].0 == k,
    ensures
        step_index(v, k) == Some(j),
{
    let c = choose|i: int| 0 <= i < v.len() && v[i].0 == k;
    if c < j {
        assert(v[c].0 != v[j].0);
    } else if c > j {
        assert(v[j].0 != v[c].0);
    }
}

/// Law: recording touches only the step recorded. Its time and count grow by what was
/// recorded (from nothing when the step is new); every other name keeps its time and
/// count.
pub proof fn lemma_record_touches_only_name(
    v: Seq<StepView>,
    name: Seq<char>,
    nanos: nat,
    count: nat,
    k: Seq<char>,
)
    requires
        steps_wf(v),
    ensures
        k == name ==> step_nanos(profile_add(v, name, nanos, count), k) == step_nanos(v, k) + nanos
            && step_count(profile_add(v, name, nanos, count), k) == step_count(v, k) + count,
        k != name ==> step_nanos(profile_add(v, name, nanos, count), k) == step_nanos(v, k)
            && step_count(profile_add(v, name, nanos, count), k) == step_count(v, k),
{
    lemma_wf_names_distinct(v);
    let after = profile_add(v, name, nanos, count);
    match step_index(v, name) {
        Some(i) => {
            lemma_step_index_at(v, name, i);
            assert(v[i].0 == name);
            assert forall|a: int, b: int| 0 <= a < b < after.len() implies #[trigger] after[a].0
                != #[trigger] after[b].0 by {
                assert(after[a].0 == v[a].0 && after[b].0 == v[b].0);
            }
            if k == name {
                lemma_step_index_at(after, k, i);
            } else if let Some(j) = step_index(v, k) {
                assert(v[j].0 == k);
                assert(after[j] == v[j]);
                lemma_step_index_at(after, k, j);
            } else {
                assert forall|j: int| 0 <= j < after.len() implies after[j].0 != k by {
                    if j != i {
                        assert(after[j] == v[j]);
                    }
                }
            }
        },
        None => {
            let p = names_before(v, name);
            lemma_names_before_bounds(v, name);
            assert forall|j: int| 0 <= j < v.len() implies v[j].0 != name by {}
            assert forall|a: int, b: int| 0 <= a < b < after.len() implies #[trigger] after[a].0
                != #[trigger] after[b].0 by {
                if a < p && b < p {
                    assert(after[a] == v[a] && after[b] == v[b]);
                } else if a < p && b == p {
                    assert(after[a] == v[a]);
                } else if a < p {
                    assert(after[a] == v[a] && after[b] == v[b - 1]);
                } else if a == p {
                    assert(after[b] == v[b - 1]);
                } else {
                    assert(after[a] == v[a - 1] && after[b] == v[b - 1]);
                }
            }
            if k == name {
                assert(after[p].0 == name);
                lemma_step_index_at(after, k, p);
            } else if let Some(j) = step_index(v, k) {
                assert(v[j].0 == k);
                let j2 = if j < p { j } else { j + 1 };
                assert(after[j2] == v[j]);
                lemma_step_index_at(after, k, j2);
            } else {
                assert forall|j: int| 0 <= j < after.len() implies after[j].0 != k by {
                    if j < p {
                        assert(after[j] == v[j]);
                    } else if j > p {
                        assert(after[j] == v[j - 1]);
                    }
                }
            }
        },
    }
}

} // verus!
