//! Aggregation of the outcomes of all dispatched tasks.
use vstd::prelude::*;

verus! {

/// The terminal outcome of one dispatched task.
#[derive(Debug)]
pub enum ConversionOutcome {
    Success,
    /// The converter reported an error for this file.
    TaskFailure(String),
    /// The unit of execution itself did not complete (it was aborted or panicked).
    InfrastructureFailure(String),
}

/// Number of successes among `s`.
pub open spec fn count_succeeded(s: Seq<ConversionOutcome>) -> nat
    decreases s.len(),
{
    if s.len() == 0 {
        0
    } else {
        count_succeeded(s.drop_last()) + if s.last() is Success {
            1nat
        } else {
            0nat
        }
    }
}

/// Number of task failures among `s`.
pub open spec fn count_task_failures(s: Seq<ConversionOutcome>) -> nat
    decreases s.len(),
{
    if s.len() == 0 {
        0
    } else {
        count_task_failures(s.drop_last()) + if s.last() is TaskFailure {
            1nat
        } else {
            0nat
        }
    }
}

/// Number of infrastructure failures among `s`.
pub open spec fn count_infrastructure_failures(s: Seq<ConversionOutcome>) -> nat
    decreases s.len(),
{
    if s.len() == 0 {
        0
    } else {
        count_infrastructure_failures(s.drop_last()) + if s.last() is InfrastructureFailure {
            1nat
        } else {
            0nat
        }
    }
}

/// Counts of the outcomes of one run.
#[derive(Debug)]
pub struct AggregateReport {
    pub total: usize,
    pub succeeded: usize,
    pub task_failures: usize,
    pub infrastructure_failures: usize,
}

/// The success rate in hundredths of a percent, rounded down: `succeeded /
/// total * 100` with two decimals, and 100% where nothing ran.
pub open spec fn rate_hundredths(succeeded: int, total: int) -> int {
    if total == 0 {
        10000
    } else {
        succeeded * 10000 / total
    }
}

impl AggregateReport {
    /// Each task counts once, in one class.
    pub open spec fn wf(&self) -> bool {
        self.succeeded + self.task_failures + self.infrastructure_failures == self.total
    }

    /// Number of tasks that did not succeed, of either kind.
    pub fn failed(&self) -> (r: usize)
        requires
            self.wf(),
        ensures
            r == self.task_failures + self.infrastructure_failures,
    {
        self.task_failures + self.infrastructure_failures
    }

    /// The success rate in hundredths of a percent (7000 is 70.00%), rounded
    /// down; 10000 where no task ran.
    pub fn success_rate_hundredths(&self) -> (r: u64)
        requires
            self.wf(),
        ensures
            r == rate_hundredths(self.succeeded as int, self.total as int),
            r <= 10000,
    {
        if self.total == 0 {
            return 10000;
        }
        let s = self.succeeded as u128;
        let t = self.total as u128;
        proof {
            let si = s as int;
            let ti = t as int;
            assert(si * 10000 <= ti * 10000) by (nonlinear_arith)
                requires
                    si <= ti,
            ;
            assert(si * 10000 / ti <= 10000) by (nonlinear_arith)
                requires
                    si * 10000 <= ti * 10000,
                    ti > 0,
            ;
        }
        (s * 10000 / t) as u64
    }

    /// Whether every dispatched task succeeded, so that the run may end with
    /// a zero exit status.
    pub fn all_succeeded(&self) -> (r: bool)
        requires
            self.wf(),
        ensures
            r == (self.task_failures + self.infrastructure_failures == 0),
    {
        self.succeeded == self.total
    }
}

/// The report over the outcomes of all dispatched tasks: each is counted in
/// its class, none is raised as an error of the whole run.
pub fn totals(outcomes: &Vec<ConversionOutcome>) -> (r: AggregateReport)
    ensures
        r.wf(),
        r.total == outcomes.len(),
        r.succeeded == count_succeeded(outcomes@),
        r.task_failures == count_task_failures(outcomes@),
        r.infrastructure_failures == count_infrastructure_failures(outcomes@),
{
    let mut succeeded: usize = 0;
    let mut task_failures: usize = 0;
    let mut infrastructure_failures: usize = 0;
    let mut i: usize = 0;
    while i < outcomes.len()
        invariant
            i <= outcomes.len(),
            succeeded == count_succeeded(outcomes@.subrange(0, i as int)),
            task_failures == count_task_failures(outcomes@.subrange(0, i as int)),
            infrastructure_failures == count_infrastructure_failures(outcomes@.subrange(0, i as int)),
            succeeded + task_failures + infrastructure_failures == i,
        decreases outcomes.len() - i,
    {
        assert(outcomes@.subrange(0, i + 1).drop_last() =~= outcomes@.subrange(0, i as int));
        match &outcomes[i] {
            ConversionOutcome::Success => succeeded += 1,
            ConversionOutcome::TaskFailure(_) => task_failures += 1,
            ConversionOutcome::InfrastructureFailure(_) => infrastructure_failures += 1,
        }
        i += 1;
    }
    assert(outcomes@.subrange(0, outcomes.len() as int) =~= outcomes@);
    AggregateReport { total: outcomes.len(), succeeded, task_failures, infrastructure_failures }
}

proof fn lemma_counts_concat(a: Seq<ConversionOutcome>, b: Seq<ConversionOutcome>)
    ensures
        count_succeeded(a + b) == count_succeeded(a) + count_succeeded(b),
        count_task_failures(a + b) == count_task_failures(a) + count_task_failures(b),
        count_infrastructure_failures(a + b) == count_infrastructure_failures(a)
            + count_infrastructure_failures(b),
    decreases b.len(),
{
    if b.len() == 0 {
        assert(a + b =~= a);
    } else {
        lemma_counts_concat(a, b.drop_last());
        assert((a + b).drop_last() =~= a + b.drop_last());
    }
}

/// The counts do not depend on the order in which outcomes arrive:
/// exchanging any two outcomes leaves every count unchanged.
pub proof fn lemma_totals_order_independent(s: Seq<ConversionOutcome>, i: int, j: int)
    requires
        0 <= i < j < s.len(),
    ensures
        ({
            let t = s.update(i, s[j]).update(j, s[i]);
            &&& count_succeeded(t) == count_succeeded(s)
            &&& count_task_failures(t) == count_task_failures(s)
            &&& count_infrastructure_failures(t) == count_infrastructure_failures(s)
        }),
{
    let t = s.update(i, s[j]).update(j, s[i]);
    let a = s.subrange(0, i);
    let b = s.subrange(i + 1, j);
    let c = s.subrange(j + 1, s.len() as int);
    let x = seq![s[i]];
    let y = seq![s[j]];
    assert(s =~= a + x + b + y + c);
    assert(t =~= a + y + b + x + c);
    lemma_counts_concat(a, x);
    lemma_counts_concat(a + x, b);
    lemma_counts_concat(a + x + b, y);
    lemma_counts_concat(a + x + b + y, c);
    lemma_counts_concat(a, y);
    lemma_counts_concat(a + y, b);
    lemma_counts_concat(a + y + b, x);
    lemma_counts_concat(a + y + b + x, c);
}

} // verus!
