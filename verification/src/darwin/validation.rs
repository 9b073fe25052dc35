//! Validation stages that a proposed modification goes through, and how the
//! metrics they report are named.

use vstd::prelude::*;
use vstd::string::StringExecFns;
use crate::clock::now_millis;
use crate::core_lib::time_order::by_time;
use crate::core_lib::time_order::lemma_by_time_len;
use crate::core_lib::time_order::sort_by_time;

verus! {

/// Runs the unit tests.
#[derive(Debug, Clone, Copy, PartialEq, Eq, Structural)]
pub struct UnitTestStage;

/// Runs the performance benchmarks.
#[derive(Debug, Clone, Copy, PartialEq, Eq, Structural)]
pub struct PerformanceBenchmarkStage;

/// Runs the security checks.
#[derive(Debug, Clone, Copy, PartialEq, Eq, Structural)]
pub struct SecurityValidationStage;

impl UnitTestStage {
    /// Name under which the stage reports its metrics.
    pub fn name(&self) -> (n: &'static str)
        ensures
            n@ == "unit_tests"@,
    {
        "unit_tests"
    }
}

impl PerformanceBenchmarkStage {
    /// Name under which the stage reports its metrics.
    pub fn name(&self) -> (n: &'static str)
        ensures
            n@ == "performance"@,
    {
        "performance"
    }
}

impl SecurityValidationStage {
    /// Name under which the stage reports its metrics.
    pub fn name(&self) -> (n: &'static str)
        ensures
            n@ == "security"@,
    {
        "security"
    }
}

/// Name of the metric `key` reported by stage `stage`: the two joined by a
/// dot.
pub fn qualified_metric_name(stage: &str, key: &str) -> (n: String)
    ensures
        n@ == stage@ + "."@ + key@,
{
    let mut n = stage.to_owned();
    n.append(".");
    n.append(key);
    n
}

/// Most validation results kept in the history.
pub const MAX_HISTORY: usize = 1000;

/// Number of oldest results to drop from a history of `len` results.
pub fn history_excess(len: usize) -> (excess: usize)
    ensures
        excess == (if len > MAX_HISTORY { len - MAX_HISTORY } else { 0 }),
{
    if len > MAX_HISTORY {
        len - MAX_HISTORY
    } else {
        0
    }
}

/// The outcome of validating one modification: the names of the metrics
/// measured, the measured values `metrics` (read by the rules that judge
/// them), whether the modification passed, and, once known, whether that
/// decision was right.
#[derive(Debug)]
pub struct ValidationRecord<M> {
    pub modification_id: u128,
    pub metric_names: Vec<String>,
    pub metrics: M,
    pub passed: bool,
    pub was_correct: Option<bool>,
}

/// Why feedback on a validation failed.
#[derive(Debug, Clone, Copy, PartialEq, Eq, Structural)]
pub enum ValidationError {
    /// No validation result concerns this modification.
    ResultNotFound(u128),
}

/// Timestamped records after one more was added: beyond [`MAX_HISTORY`],
/// the oldest are dropped and the rest kept oldest first.
pub open spec fn trimmed<M>(s: Seq<(i64, ValidationRecord<M>)>) -> Seq<(i64, ValidationRecord<M>)> {
    if s.len() > MAX_HISTORY {
        by_time(s, false).skip(s.len() - MAX_HISTORY)
    } else {
        s
    }
}

/// Position of the first record of `s` about `id`, if any.
pub open spec fn first_about<M>(s: Seq<(i64, ValidationRecord<M>)>, id: u128) -> Option<int>
    decreases s.len(),
{
    if s.len() == 0 {
        None
    } else {
        match first_about(s.drop_last(), id) {
            Some(i) => Some(i),
            None => if s.last().1.modification_id == id {
                Some(s.len() - 1)
            } else {
                None
            },
        }
    }
}

/// Some text of `measured` reads `name`.
pub open spec fn is_measured(name: Seq<char>, measured: Seq<String>) -> bool {
    exists|j: int| 0 <= j < measured.len() && (#[trigger] measured[j])@ == name
}

/// Every name of `names` is among `measured`.
pub open spec fn all_measured(names: Seq<String>, measured: Seq<String>) -> bool {
    forall|i: int| 0 <= i < names.len() ==> is_measured((#[trigger] names[i])@, measured)
}

/// A record counts for a rule over the metrics `names`: its correctness is
/// known and it measured all of them.
pub open spec fn counts_for<M>(r: ValidationRecord<M>, names: Seq<String>) -> bool {
    r.was_correct is Some && all_measured(names, r.metric_names@)
}

/// Among the first `n` records of `s`: how many count for a rule over
/// `names`, and how many of those the rule, deciding `decisions[i]` on the
/// `i`-th, judged as the feedback did.
pub open spec fn tally<M>(s: Seq<(i64, ValidationRecord<M>)>, names: Seq<String>, decisions: Seq<bool>, n: int) -> (int, int)
    decreases n,
{
    if n <= 0 {
        (0, 0)
    } else {
        let (correct, relevant) = tally(s, names, decisions, n - 1);
        let r = s[n - 1].1;
        if counts_for(r, names) {
            (if decisions[n - 1] == r.was_correct->0 { correct + 1 } else { correct }, relevant + 1)
        } else {
            (correct, relevant)
        }
    }
}

/// Whether every name of `names` is among `measured`.
fn measures_all(names: &Vec<String>, measured: &Vec<String>) -> (b: bool)
    ensures
        b == all_measured(names@, measured@),
{
    let mut i: usize = 0;
    while i < names.len()
        invariant
            i <= names@.len(),
            forall|k: int| 0 <= k < i ==> is_measured((#[trigger] names@[k])@, measured@),
        decreases names@.len() - i,
    {
        let mut j: usize = 0;
        let mut found = false;
        while j < measured.len()
            invariant
                i < names@.len(),
                j <= measured@.len(),
                !found ==> forall|k: int| 0 <= k < j ==> (#[trigger] measured@[k])@ != names@[i as int]@,
                found ==> is_measured(names@[i as int]@, measured@),
            decreases measured@.len() - j,
        {
            if measured[j] == names[i] {
                found = true;
            }
            j = j + 1;
        }
        if !found {
            assert(!is_measured(names@[i as int]@, measured@));
            return false;
        }
        i = i + 1;
    }
    true
}

/// The history of validations, oldest first once trimmed.
#[derive(Debug)]
pub struct ValidationHistory<M> {
    records: Vec<(i64, ValidationRecord<M>)>,
}

impl<M> ValidationHistory<M> {
    /// The timestamped records, in the order they are kept.
    pub closed spec fn records(&self) -> Seq<(i64, ValidationRecord<M>)> {
        self.records@
    }

    /// An empty history.
    pub fn new() -> (h: Self)
        ensures
            h.records() == Seq::<(i64, ValidationRecord<M>)>::empty(),
    {
        ValidationHistory { records: Vec::new() }
    }

    /// Number of records.
    pub fn len(&self) -> (n: usize)
        ensures
            n == self.records().len(),
    {
        self.records.len()
    }

    /// The `i`-th record.
    pub fn record(&self, i: usize) -> (r: &ValidationRecord<M>)
        requires
            i < self.records().len(),
        ensures
            *r == self.records()[i as int].1,
    {
        &self.records[i].1
    }

    /// Records `record`, made at `now`; beyond [`MAX_HISTORY`] records the
    /// oldest are dropped and the rest kept oldest first.
    pub fn record_at(&mut self, record: ValidationRecord<M>, now: i64)
        ensures
            final(self).records() == trimmed(old(self).records().push((now, record))),
            old(self).records().len() <= MAX_HISTORY ==> final(self).records().len() <= MAX_HISTORY,
    {
        self.records.push((now, record));
        let ghost pushed = self.records@;
        let excess = history_excess(self.records.len());
        if excess > 0 {
            let mut all: Vec<(i64, ValidationRecord<M>)> = Vec::new();
            std::mem::swap(&mut all, &mut self.records);
            let sorted = sort_by_time(all, false);
            proof {
                lemma_by_time_len(pushed, false);
            }
            let mut kept: Vec<(i64, ValidationRecord<M>)> = Vec::new();
            let mut rest = sorted;
            let mut dropped: usize = 0;
            while dropped < excess
                invariant
                    dropped <= excess,
                    excess <= rest@.len() + dropped,
                    excess == pushed.len() - MAX_HISTORY,
                    rest@ == by_time(pushed, false).skip(dropped as int),
                    by_time(pushed, false).len() == pushed.len(),
                decreases excess - dropped,
            {
                rest.remove(0);
                dropped = dropped + 1;
                proof {
                    assert(rest@ =~= by_time(pushed, false).skip(dropped as int));
                }
            }
            self.records = rest;
        }
    }

    /// Records `record`, made now: see [`Self::record_at`].
    pub fn record_now(&mut self, record: ValidationRecord<M>)
        ensures
            exists|now: i64| final(self).records() == trimmed(old(self).records().push((now, record))),
    {
        let now = now_millis();
        self.record_at(record, now);
    }

    /// Marks whether the decision on `modification_id` was right, on its
    /// first record; fails if no record concerns it.
    pub fn feedback_on_validation(&mut self, modification_id: u128, was_correct: bool) -> (r: Result<(), ValidationError>)
        ensures
            match first_about(old(self).records(), modification_id) {
                None => r == Err::<(), ValidationError>(ValidationError::ResultNotFound(modification_id))
                    && final(self).records() == old(self).records(),
                Some(i) => r == Ok::<(), ValidationError>(())
                    && final(self).records().len() == old(self).records().len()
                    && (forall|k: int| 0 <= k < old(self).records().len() && k != i
                        ==> #[trigger] final(self).records()[k] == old(self).records()[k])
                    && final(self).records()[i].0 == old(self).records()[i].0
                    && final(self).records()[i].1.modification_id == modification_id
                    && final(self).records()[i].1.metric_names == old(self).records()[i].1.metric_names
                    && final(self).records()[i].1.metrics == old(self).records()[i].1.metrics
                    && final(self).records()[i].1.passed == old(self).records()[i].1.passed
                    && final(self).records()[i].1.was_correct == Some(was_correct),
            },
    {
        let mut i: usize = 0;
        while i < self.records.len()
            invariant
                *self == *old(self),
                i <= self.records@.len(),
                first_about(self.records@.take(i as int), modification_id) is None,
            decreases self.records@.len() - i,
        {
            proof {
                assert(self.records@.take(i + 1).drop_last() =~= self.records@.take(i as int));
            }
            if self.records[i].1.modification_id == modification_id {
                proof {
                    lemma_first_about_prefix(self.records@, modification_id, i + 1);
                }
                let (time, rec) = self.records.remove(i);
                let ValidationRecord { modification_id: id, metric_names, metrics, passed, was_correct: _ } = rec;
                self.records.insert(i, (time, ValidationRecord { modification_id: id, metric_names, metrics, passed, was_correct: Some(was_correct) }));
                proof {
                    assert forall|k: int| 0 <= k < old(self).records().len() && k != i
                        implies #[trigger] self.records@[k] == old(self).records()[k] by {
                        if k < i {
                        } else {
                        }
                    }
                }
                return Ok(());
            }
            i = i + 1;
        }
        proof {
            assert(self.records@.take(self.records@.len() as int) =~= self.records@);
        }
        Err(ValidationError::ResultNotFound(modification_id))
    }

    /// Whether the correctness of some decision is known.
    pub fn has_feedback(&self) -> (b: bool)
        ensures
            b == exists|i: int| 0 <= i < self.records().len() && (#[trigger] self.records()[i]).1.was_correct is Some,
    {
        let mut i: usize = 0;
        while i < self.records.len()
            invariant
                i <= self.records@.len(),
                forall|k: int| 0 <= k < i ==> (#[trigger] self.records@[k]).1.was_correct is None,
            decreases self.records@.len() - i,
        {
            if self.records[i].1.was_correct.is_some() {
                return true;
            }
            i = i + 1;
        }
        false
    }

    /// How a rule over the metrics `names` fared: the number of records it
    /// judged as the feedback did, and the number that count for it (see
    /// [`counts_for`]); `decisions[i]` is the rule's decision on the
    /// `i`-th record.
    pub fn rule_tally(&self, names: &Vec<String>, decisions: &Vec<bool>) -> (t: (usize, usize))
        requires
            decisions@.len() == self.records().len(),
        ensures
            t.0 == tally(self.records(), names@, decisions@, self.records().len() as int).0,
            t.1 == tally(self.records(), names@, decisions@, self.records().len() as int).1,
            t.0 <= t.1 <= self.records().len(),
    {
        let mut correct: usize = 0;
        let mut relevant: usize = 0;
        let mut i: usize = 0;
        while i < self.records.len()
            invariant
                decisions@.len() == self.records@.len(),
                i <= self.records@.len(),
                correct as int == tally(self.records@, names@, decisions@, i as int).0,
                relevant as int == tally(self.records@, names@, decisions@, i as int).1,
                correct <= relevant <= i,
            decreases self.records@.len() - i,
        {
            let r = &self.records[i].1;
            match r.was_correct {
                Some(w) => {
                    if measures_all(names, &r.metric_names) {
                        relevant = relevant + 1;
                        if decisions[i] == w {
                            correct = correct + 1;
                        }
                    }
                },
                None => {},
            }
            i = i + 1;
        }
        (correct, relevant)
    }
}

/// A record about `id` within the first `n` records makes the first one
/// about it lie there too.
pub proof fn lemma_first_about_prefix<M>(s: Seq<(i64, ValidationRecord<M>)>, id: u128, n: int)
    requires
        0 < n <= s.len(),
        first_about(s.take(n - 1), id) is None,
        s[n - 1].1.modification_id == id,
    ensures
        first_about(s, id) == Some(n - 1),
    decreases s.len(),
{
    if n == s.len() {
        assert(s.take(n - 1) =~= s.drop_last());
    } else {
        assert(s.drop_last().take(n - 1) =~= s.take(n - 1));
        assert(s.drop_last()[n - 1] == s[n - 1]);
        lemma_first_about_prefix(s.drop_last(), id, n);
    }
}

} // verus!
