//! The completion ingestor: what the coordinator does with each message a
//! session delivers. A `RegisterAgent` becomes an `agents` document, a
//! `JobComplete` becomes one `$addToSet` on the job, one appended history
//! row, and the completion check; a ping is only noted. The accept loop,
//! the sockets and the `OK` replies stay with the caller.

use vstd::prelude::*;

use crate::agents::{spec_register, AgentsTable};
use crate::jobs::{
    spec_add_complete, spec_completion_ready, spec_finish_job, JobView, JobsTable, Status,
};
use crate::messages::{JobComplete, JobCompleteView, Message, RegisterAgent};
use crate::runs::{spec_run_of_report, RunsTable, RunsV1};

verus! {

/// What the ingestor does with one decoded message.
#[derive(Debug, Clone, PartialEq, Eq)]
pub enum ReceiverAction {
    /// A keep-alive: noted and answered, nothing stored.
    LogPing,
    /// Insert an agent document.
    Register(RegisterAgent),
    /// Record a completion report.
    RecordCompletion(JobComplete),
    /// Any other variant is ignored by the coordinator.
    Ignore,
}

/// The ingestor's dispatch on a decoded message: pings are logged, agents
/// registered, completions recorded, and everything else ignored.
pub fn receiver_action(msg: Message) -> (a: ReceiverAction)
    ensures
        a@ == spec_receiver_action(msg@),
{
    match msg {
        Message::Ping => ReceiverAction::LogPing,
        Message::RegisterAgent(r) => ReceiverAction::Register(r),
        Message::JobComplete(c) => ReceiverAction::RecordCompletion(c),
        Message::DispatchJob(_) => ReceiverAction::Ignore,
    }
}

/// Ghost mirror of [`ReceiverAction`].
pub ghost enum ReceiverActionView {
    LogPing,
    Register(crate::messages::RegisterAgentView),
    RecordCompletion(JobCompleteView),
    Ignore,
}

impl View for ReceiverAction {
    type V = ReceiverActionView;

    open spec fn view(&self) -> ReceiverActionView {
        match self {
            ReceiverAction::LogPing => ReceiverActionView::LogPing,
            ReceiverAction::Register(r) => ReceiverActionView::Register(r@),
            ReceiverAction::RecordCompletion(c) => ReceiverActionView::RecordCompletion(c@),
            ReceiverAction::Ignore => ReceiverActionView::Ignore,
        }
    }
}

/// What each message variant means to the ingestor.
pub open spec fn spec_receiver_action(m: crate::messages::MessageView) -> ReceiverActionView {
    match m {
        crate::messages::MessageView::Ping => ReceiverActionView::LogPing,
        crate::messages::MessageView::RegisterAgent(r) => ReceiverActionView::Register(r),
        crate::messages::MessageView::JobComplete(c) => ReceiverActionView::RecordCompletion(c),
        crate::messages::MessageView::DispatchJob(_) => ReceiverActionView::Ignore,
    }
}

/// Ingests one registration: the document is inserted unless a unique
/// index rejects it; a duplicate key is expected on re-registration and
/// dropped without effect.
pub fn register_agent(agents: &mut AgentsTable, r: RegisterAgent) -> (inserted: bool)
    requires
        old(agents).wf(),
    ensures
        final(agents).wf(),
        final(agents)@ == spec_register(old(agents)@, r@),
        inserted <==> !crate::agents::spec_register_collides(old(agents)@, r@),
{
    agents.register(r)
}

/// One job after a full ingestion of a report by its agent: the
/// `$addToSet`, then the completion check.
pub open spec fn spec_ingest_job(j: JobView, agent: Seq<char>) -> JobView {
    spec_finish_job(spec_add_complete(j, agent))
}

/// Ingests one completion report: `$addToSet` of the agent on the job,
/// one history row with the reported fields verbatim, then the completion
/// check. A report naming an unknown job still appends its history row.
pub fn complete_agent_run(jobs: &mut JobsTable, runs: &mut RunsTable, report: JobComplete)
    requires
        old(jobs).wf(),
    ensures
        final(jobs).wf(),
        final(runs)@ == old(runs)@.push(spec_run_of_report(report@)),
        final(jobs)@.len() == old(jobs)@.len(),
        forall|k: int|
            0 <= k < old(jobs)@.len() && old(jobs)@[k].name != report@.job_name
                ==> final(jobs)@[k] == old(jobs)@[k],
        forall|k: int|
            0 <= k < old(jobs)@.len() && old(jobs)@[k].name == report@.job_name
                ==> final(jobs)@[k] == spec_ingest_job(old(jobs)@[k], report@.agent_name),
{
    let ghost rv = report@;
    let job_name = report.job_name.clone();
    let agent_name = report.agent_name.clone();
    jobs.complete_agent_on_job(&job_name, &agent_name);
    let ghost mid = jobs@;
    let row = RunsV1::from(report);
    assert(row@ =~~= spec_run_of_report(rv));
    runs.insert_entry(row);
    assert(forall|k: int|
        0 <= k < mid.len() ==> (#[trigger] mid[k]).name == old(jobs)@[k].name);
    jobs.check_job_completion(&job_name);
    assert forall|k: int|
        0 <= k < old(jobs)@.len() && old(jobs)@[k].name == rv.job_name implies jobs@[k]
        == spec_ingest_job(old(jobs)@[k], rv.agent_name) by {
        assert(mid[k] == spec_add_complete(old(jobs)@[k], rv.agent_name));
        assert(jobs@[k] == spec_finish_job(mid[k]));
    }
}

/// An accepted report is in the job's completion set exactly once: it is
/// a member, and the set stays duplicate-free. (The history, by contrast,
/// is append-only and may hold one row per delivery.)
pub proof fn lemma_completion_recorded_once(j: JobView, agent: Seq<char>)
    requires
        j.agents_complete.no_duplicates(),
    ensures
        spec_add_complete(j, agent).agents_complete.contains(agent),
        spec_add_complete(j, agent).agents_complete.no_duplicates(),
{
    let after = spec_add_complete(j, agent).agents_complete;
    if j.agents_complete.contains(agent) {
    } else {
        assert(after[after.len() - 1] == agent);
        assert(after.contains(agent));
        assert forall|a: int, b: int|
            0 <= a < b < after.len() implies after[a] != after[b] by {
            if b == after.len() - 1 {
                assert(j.agents_complete[a] == after[a]);
                assert(j.agents_complete.contains(after[a]));
            }
        }
    }
}

/// Once the completion set equals the required set — as sets, with both
/// lists duplicate-free — the very ingestion that made them equal
/// finalises the job: completed, both runtime lists cleared.
pub proof fn lemma_set_equality_completes(j: JobView, agent: Seq<char>)
    requires
        j.agents_required.len() > 0,
        j.agents_required.no_duplicates(),
        spec_add_complete(j, agent).agents_complete.no_duplicates(),
        spec_add_complete(j, agent).agents_complete.to_set() =~= j.agents_required.to_set(),
    ensures
        ({
            let r = spec_ingest_job(j, agent);
            &&& r.status is Completed
            &&& r.agents_running.len() == 0
            &&& r.agents_complete.len() == 0
        }),
{
    let after = spec_add_complete(j, agent);
    j.agents_required.unique_seq_to_set();
    after.agents_complete.unique_seq_to_set();
    assert(after.agents_complete.len() == j.agents_required.len());
    assert(spec_completion_ready(after));
}

/// Replaying a report that did not finalise the job is harmless: the
/// second ingestion leaves the job exactly as the first left it. Only the
/// append-only history grows by one more row.
pub proof fn lemma_replay_ingest_idempotent(j: JobView, agent: Seq<char>)
    requires
        !spec_completion_ready(spec_add_complete(j, agent)),
    ensures
        spec_ingest_job(spec_ingest_job(j, agent), agent) == spec_ingest_job(j, agent),
{
    crate::jobs::lemma_add_complete_idempotent(j, agent);
}

} // verus!
