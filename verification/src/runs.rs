//! The `runs` collection: the append-only history, one row per (job,
//! agent) execution, inserted by the completion ingestor for every report
//! it accepts. Nothing updates or deletes here; retried reports simply add
//! another row.

use vstd::prelude::*;

use crate::messages::{JobComplete, JobCompleteView, JobOutCome};

verus! {

/// How a recorded run ended, as persisted in history rows.
#[derive(Debug, Clone, Copy, PartialEq, Eq, Structural)]
pub enum Outcome {
    Failure,
    Success,
    Unknown,
}

impl Outcome {
    /// Store encoding of the outcome.
    pub open spec fn spec_code(self) -> i32 {
        match self {
            Outcome::Failure => 0,
            Outcome::Success => 1,
            Outcome::Unknown => 2,
        }
    }

    /// Integer code of this outcome, as persisted.
    pub fn code(self) -> (c: i32)
        ensures
            c == self.spec_code(),
    {
        match self {
            Outcome::Failure => 0,
            Outcome::Success => 1,
            Outcome::Unknown => 2,
        }
    }
}

impl From<Outcome> for i32 {
    fn from(outcome: Outcome) -> (c: i32) {
        outcome.code()
    }
}

impl vstd::std_specs::convert::FromSpecImpl<Outcome> for i32 {
    open spec fn obeys_from_spec() -> bool {
        true
    }

    open spec fn from_spec(outcome: Outcome) -> i32 {
        outcome.spec_code()
    }
}

impl From<i32> for Outcome {
    fn from(value: i32) -> (o: Outcome) {
        if value == 0 {
            Outcome::Failure
        } else if value == 1 {
            Outcome::Success
        } else {
            Outcome::Unknown
        }
    }
}

impl vstd::std_specs::convert::FromSpecImpl<i32> for Outcome {
    open spec fn obeys_from_spec() -> bool {
        true
    }

    open spec fn from_spec(value: i32) -> Outcome {
        if value == 0 {
            Outcome::Failure
        } else if value == 1 {
            Outcome::Success
        } else {
            Outcome::Unknown
        }
    }
}

/// The history outcome naming the same end as a wire outcome.
pub open spec fn spec_outcome_of_wire(o: JobOutCome) -> Outcome {
    match o {
        JobOutCome::Failure => Outcome::Failure,
        JobOutCome::Success => Outcome::Success,
        JobOutCome::Unknown => Outcome::Unknown,
    }
}

impl From<JobOutCome> for Outcome {
    fn from(outcome: JobOutCome) -> (o: Outcome) {
        match outcome {
            JobOutCome::Failure => Outcome::Failure,
            JobOutCome::Success => Outcome::Success,
            JobOutCome::Unknown => Outcome::Unknown,
        }
    }
}

impl vstd::std_specs::convert::FromSpecImpl<JobOutCome> for Outcome {
    open spec fn obeys_from_spec() -> bool {
        true
    }

    open spec fn from_spec(outcome: JobOutCome) -> Outcome {
        spec_outcome_of_wire(outcome)
    }
}

/// One history row. Timestamps are milliseconds since the epoch.
#[derive(Debug, Clone)]
pub struct RunsV1 {
    pub started_at: i64,
    pub completed_at: i64,
    pub job_name: String,
    pub command: String,
    pub outcome: Outcome,
    pub agent_name: String,
    pub return_code: i32,
    pub output: String,
}

/// Ghost mirror of [`RunsV1`].
#[verifier::ext_equal]
pub ghost struct RunView {
    pub started_at: i64,
    pub completed_at: i64,
    pub job_name: Seq<char>,
    pub command: Seq<char>,
    pub outcome: Outcome,
    pub agent_name: Seq<char>,
    pub return_code: i32,
    pub output: Seq<char>,
}

impl View for RunsV1 {
    type V = RunView;

    open spec fn view(&self) -> RunView {
        RunView {
            started_at: self.started_at,
            completed_at: self.completed_at,
            job_name: self.job_name@,
            command: self.command@,
            outcome: self.outcome,
            agent_name: self.agent_name@,
            return_code: self.return_code,
            output: self.output@,
        }
    }
}

/// The history row a completion report produces, every field carried over
/// verbatim.
pub open spec fn spec_run_of_report(c: JobCompleteView) -> RunView {
    RunView {
        started_at: c.started_at,
        completed_at: c.completed_at,
        job_name: c.job_name,
        command: c.command,
        outcome: spec_outcome_of_wire(c.outcome),
        agent_name: c.agent_name,
        return_code: c.return_code,
        output: c.output,
    }
}

impl From<JobComplete> for RunsV1 {
    fn from(job_complete: JobComplete) -> (r: RunsV1) {
        let JobComplete {
            started_at,
            completed_at,
            job_name,
            command,
            agent_name,
            return_code,
            outcome,
            output,
        } = job_complete;
        RunsV1 {
            started_at,
            completed_at,
            job_name,
            command,
            outcome: Outcome::from(outcome),
            agent_name,
            return_code,
            output,
        }
    }
}

impl vstd::std_specs::convert::FromSpecImpl<JobComplete> for RunsV1 {
    open spec fn obeys_from_spec() -> bool {
        true
    }

    open spec fn from_spec(job_complete: JobComplete) -> RunsV1 {
        RunsV1 {
            started_at: job_complete.started_at,
            completed_at: job_complete.completed_at,
            job_name: job_complete.job_name,
            command: job_complete.command,
            outcome: spec_outcome_of_wire(job_complete.outcome),
            agent_name: job_complete.agent_name,
            return_code: job_complete.return_code,
            output: job_complete.output,
        }
    }
}

/// The verified model of the `runs` collection: append-only, no
/// uniqueness.
pub struct RunsTable {
    runs: Vec<RunsV1>,
}

impl View for RunsTable {
    type V = Seq<RunView>;

    closed spec fn view(&self) -> Seq<RunView> {
        Seq::new(self.runs@.len(), |i: int| self.runs@[i]@)
    }
}

impl RunsTable {
    /// The empty history.
    pub fn new() -> (r: RunsTable)
        ensures
            r@ == Seq::<RunView>::empty(),
    {
        let r = RunsTable { runs: Vec::new() };
        assert(r@ =~= Seq::<RunView>::empty());
        r
    }

    /// How many rows the history holds.
    pub fn len(&self) -> (n: usize)
        ensures
            n == self@.len(),
    {
        self.runs.len()
    }

    /// The row at `i`, in insertion order.
    pub fn run_at(&self, i: usize) -> (r: &RunsV1)
        requires
            i < self@.len(),
        ensures
            r@ == self@[i as int],
    {
        &self.runs[i]
    }

    /// Appends one history row; nothing else ever writes here.
    pub fn insert_entry(&mut self, run: RunsV1)
        ensures
            final(self)@ == old(self)@.push(run@),
    {
        let ghost rv = run@;
        self.runs.push(run);
        assert(self@ =~= old(self)@.push(rv));
    }
}

} // verus!
