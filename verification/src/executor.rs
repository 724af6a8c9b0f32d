//! The agent side: what the agent server does with an inbound message,
//! how the executor turns one `DispatchJob` into a child-process
//! invocation and classifies what came back, and the reporter link's
//! bounded reconnect policy. Spawning the process, the clock and the
//! sockets stay with the caller; everything here is a function of plain
//! values.

use vstd::prelude::*;
use vstd::string::StrSliceExecFns;

use crate::messages::{DispatchJob, DispatchJobView, JobComplete, JobCompleteView, JobOutCome, Message};
use crate::util::contains_i32;

verus! {

/// What the agent server does with one decoded message: forward the
/// keep-alive, hand a job to the executor, ignore the rest.
#[derive(Debug, Clone, PartialEq, Eq)]
pub enum AgentAction {
    /// Answer the coordinator's keep-alive with a ping on the reporter
    /// link.
    ForwardPing,
    /// Hand the job to the executor, without blocking the acceptor.
    Execute(DispatchJob),
    /// Any other variant is ignored by the agent.
    Ignore,
}

/// Ghost mirror of [`AgentAction`].
pub ghost enum AgentActionView {
    ForwardPing,
    Execute(DispatchJobView),
    Ignore,
}

impl View for AgentAction {
    type V = AgentActionView;

    open spec fn view(&self) -> AgentActionView {
        match self {
            AgentAction::ForwardPing => AgentActionView::ForwardPing,
            AgentAction::Execute(d) => AgentActionView::Execute(d@),
            AgentAction::Ignore => AgentActionView::Ignore,
        }
    }
}

/// What each message variant means to the agent server.
pub open spec fn spec_agent_action(m: crate::messages::MessageView) -> AgentActionView {
    match m {
        crate::messages::MessageView::Ping => AgentActionView::ForwardPing,
        crate::messages::MessageView::DispatchJob(d) => AgentActionView::Execute(d),
        crate::messages::MessageView::RegisterAgent(_) => AgentActionView::Ignore,
        crate::messages::MessageView::JobComplete(_) => AgentActionView::Ignore,
    }
}

/// The agent server's dispatch on a decoded message.
pub fn agent_action(msg: Message) -> (a: AgentAction)
    ensures
        a@ == spec_agent_action(msg@),
{
    match msg {
        Message::Ping => AgentAction::ForwardPing,
        Message::DispatchJob(d) => AgentAction::Execute(d),
        Message::RegisterAgent(_) => AgentAction::Ignore,
        Message::JobComplete(_) => AgentAction::Ignore,
    }
}

// ---------------------------------------------------------------------------
// Argument tokenisation
// ---------------------------------------------------------------------------

/// The tokens of a command's argument string: maximal nonempty runs of
/// characters between ASCII spaces. `cur` carries the run read so far.
pub open spec fn spec_tokens_from(s: Seq<char>, cur: Seq<char>) -> Seq<Seq<char>>
    decreases s.len(),
{
    if s.len() == 0 {
        if cur.len() == 0 {
            Seq::empty()
        } else {
            seq![cur]
        }
    } else if s[0] == ' ' {
        if cur.len() == 0 {
            spec_tokens_from(s.drop_first(), Seq::empty())
        } else {
            seq![cur] + spec_tokens_from(s.drop_first(), Seq::empty())
        }
    } else {
        spec_tokens_from(s.drop_first(), cur.push(s[0]))
    }
}

/// The argument vector a `DispatchJob`'s single argument string stands
/// for: split on spaces, empty runs dropped, no shell expansion.
pub open spec fn spec_tokens(s: Seq<char>) -> Seq<Seq<char>> {
    spec_tokens_from(s, Seq::empty())
}

/// Splits an argument string into the argument vector handed to the child
/// process.
pub fn tokenize_args(args: &String) -> (tokens: Vec<String>)
    ensures
        tokens.deep_view() == spec_tokens(args@),
{
    let s = args.as_str();
    let n = s.unicode_len();
    let mut tokens: Vec<String> = Vec::new();
    let mut i: usize = 0;
    let mut start: usize = 0;
    let mut in_token = false;
    proof {
        assert(s@.skip(0) =~= s@);
        assert(tokens.deep_view() + spec_tokens_from(s@, Seq::empty()) =~= spec_tokens_from(
            s@,
            Seq::empty(),
        ));
    }
    while i < n
        invariant
            n == s@.len(),
            i <= n,
            args@ == s@,
            in_token ==> start < i,
            !in_token ==> start <= i,
            spec_tokens(s@) == tokens.deep_view() + spec_tokens_from(
                s@.skip(i as int),
                if in_token {
                    s@.subrange(start as int, i as int)
                } else {
                    Seq::<char>::empty()
                },
            ),
        decreases n - i,
    {
        let ghost cur = if in_token {
            s@.subrange(start as int, i as int)
        } else {
            Seq::<char>::empty()
        };
        proof {
            assert(s@.skip(i as int)[0] == s@[i as int]);
            assert(s@.skip(i as int).drop_first() =~= s@.skip(i as int + 1));
        }
        let c = s.get_char(i);
        if c == ' ' {
            if in_token {
                let ghost before = tokens.deep_view();
                let token = s.substring_char(start, i).to_owned();
                tokens.push(token);
                assert(tokens.deep_view() =~= before.push(cur));
                assert(before.push(cur) + spec_tokens_from(s@.skip(i as int + 1), Seq::empty())
                    =~= before + (seq![cur] + spec_tokens_from(
                    s@.skip(i as int + 1),
                    Seq::empty(),
                )));
                in_token = false;
            }
            start = i + 1;
        } else {
            if !in_token {
                start = i;
                in_token = true;
            }
            assert(s@.subrange(start as int, i as int + 1) =~= cur.push(s@[i as int]));
        }
        i = i + 1;
    }
    if in_token {
        let ghost before = tokens.deep_view();
        let ghost cur = s@.subrange(start as int, n as int);
        let token = s.substring_char(start, n).to_owned();
        tokens.push(token);
        assert(s@.skip(n as int).len() == 0);
        assert(tokens.deep_view() =~= before.push(cur));
        assert(before.push(cur) =~= before + seq![cur]);
    } else {
        assert(s@.skip(n as int).len() == 0);
        assert(tokens.deep_view() + Seq::<Seq<char>>::empty() =~= tokens.deep_view());
    }
    tokens
}

// ---------------------------------------------------------------------------
// Outcome classification
// ---------------------------------------------------------------------------

/// The return code recorded for a finished child: its exit code, or `-1`
/// when it was signalled or never spawned.
pub open spec fn spec_exit_code(code: Option<i32>) -> i32 {
    match code {
        Option::Some(c) => c,
        Option::None => -1i32,
    }
}

/// The recorded return code of a child that exited with `code`, or with
/// none when signalled or failed to spawn.
pub fn exit_return_code(code: Option<i32>) -> (r: i32)
    ensures
        r == spec_exit_code(code),
{
    match code {
        Option::Some(c) => c,
        Option::None => -1i32,
    }
}

/// How the executor classifies a run: success exactly when a valid-return-code list
/// was supplied and holds the observed code; failure otherwise.
pub open spec fn spec_outcome_of_run(valid: Option<Seq<i32>>, return_code: i32) -> JobOutCome {
    match valid {
        Option::Some(codes) => if codes.contains(return_code) {
            JobOutCome::Success
        } else {
            JobOutCome::Failure
        },
        Option::None => JobOutCome::Failure,
    }
}

/// Classifies one observed return code against the job's valid list.
pub fn classify_outcome(valid: &Option<Vec<i32>>, return_code: i32) -> (o: JobOutCome)
    ensures
        o == spec_outcome_of_run(crate::codec::spec_opt_codes_view(valid), return_code),
{
    match valid {
        Option::Some(codes) => if contains_i32(codes, return_code) {
            JobOutCome::Success
        } else {
            JobOutCome::Failure
        },
        Option::None => JobOutCome::Failure,
    }
}

/// With `valid_return_codes` absent or empty, no code is valid: the
/// outcome is failure whatever the child returned.
pub proof fn lemma_no_valid_codes_means_failure(valid: Option<Seq<i32>>, return_code: i32)
    requires
        valid is None || valid->0.len() == 0,
    ensures
        spec_outcome_of_run(valid, return_code) is Failure,
{
}

/// A signalled child (no exit code) is recorded as return code `-1` and
/// classified a failure — provided `-1` itself is not listed as a valid
/// code.
pub proof fn lemma_signalled_run_fails(valid: Option<Seq<i32>>)
    requires
        !(valid is Some && valid->0.contains(-1i32)),
    ensures
        spec_exit_code(Option::None) == -1,
        spec_outcome_of_run(valid, spec_exit_code(Option::None)) is Failure,
{
}

/// The completion report for one finished run, every field fixed by the
/// dispatched job, the agent's own name, the two clock readings, the
/// recorded return code and the captured output.
pub open spec fn spec_job_report(
    d: DispatchJobView,
    agent: Seq<char>,
    started_at: i64,
    completed_at: i64,
    return_code: i32,
    output: Seq<char>,
) -> JobCompleteView {
    JobCompleteView {
        started_at,
        completed_at,
        job_name: d.job_name,
        command: d.command,
        agent_name: agent,
        return_code,
        outcome: spec_outcome_of_run(d.valid_return_codes, return_code),
        output,
    }
}

/// Builds the `JobComplete` the executor emits after one run.
pub fn build_job_complete(
    job: &DispatchJob,
    agent_name: &String,
    started_at: i64,
    completed_at: i64,
    return_code: i32,
    output: String,
) -> (r: JobComplete)
    ensures
        r@ == spec_job_report(
            job@,
            agent_name@,
            started_at,
            completed_at,
            return_code,
            output@,
        ),
{
    let outcome = classify_outcome(&job.valid_return_codes, return_code);
    let r = JobComplete {
        started_at,
        completed_at,
        job_name: job.job_name.clone(),
        command: job.command.clone(),
        agent_name: agent_name.clone(),
        return_code,
        outcome,
        output,
    };
    assert(r@ =~~= spec_job_report(
        job@,
        agent_name@,
        started_at,
        completed_at,
        return_code,
        output@,
    ));
    r
}

// ---------------------------------------------------------------------------
// Executor state machine
// ---------------------------------------------------------------------------

/// Where one job stands on one agent.
#[derive(Debug, Clone, Copy, PartialEq, Eq, Structural)]
pub enum ExecPhase {
    /// The dispatch frame was accepted.
    Received,
    /// The child process is being started.
    Spawning,
    /// The child is running.
    Running,
    /// The child is gone: it exited, was signalled, or never spawned.
    Terminated,
    /// The completion report went out on the reporter link.
    Reported,
}

/// What happens to a job's execution.
#[derive(Debug, Clone, Copy, PartialEq, Eq, Structural)]
pub enum ExecEvent {
    /// The executor picks the job up.
    Start,
    /// The child process started.
    SpawnOk,
    /// The child process could not be started.
    SpawnFailed,
    /// The child exited, normally or not.
    Exited,
    /// The completion report was acknowledged.
    ReportSent,
}

/// The executor's transitions: `Received → Spawning → Running →
/// Terminated → Reported`, with the two failure edges from `Spawning`
/// (spawn error) and `Running` (abnormal exit) both reaching `Terminated`.
/// Every other pairing is invalid.
pub open spec fn spec_exec_step(phase: ExecPhase, event: ExecEvent) -> Option<ExecPhase> {
    match (phase, event) {
        (ExecPhase::Received, ExecEvent::Start) => Option::Some(ExecPhase::Spawning),
        (ExecPhase::Spawning, ExecEvent::SpawnOk) => Option::Some(ExecPhase::Running),
        (ExecPhase::Spawning, ExecEvent::SpawnFailed) => Option::Some(ExecPhase::Terminated),
        (ExecPhase::Running, ExecEvent::Exited) => Option::Some(ExecPhase::Terminated),
        (ExecPhase::Terminated, ExecEvent::ReportSent) => Option::Some(ExecPhase::Reported),
        _ => Option::None,
    }
}

/// Advances the execution of one job by one event; `None` rejects an
/// event the current phase does not admit.
pub fn exec_step(phase: ExecPhase, event: ExecEvent) -> (next: Option<ExecPhase>)
    ensures
        next == spec_exec_step(phase, event),
{
    match (phase, event) {
        (ExecPhase::Received, ExecEvent::Start) => Option::Some(ExecPhase::Spawning),
        (ExecPhase::Spawning, ExecEvent::SpawnOk) => Option::Some(ExecPhase::Running),
        (ExecPhase::Spawning, ExecEvent::SpawnFailed) => Option::Some(ExecPhase::Terminated),
        (ExecPhase::Running, ExecEvent::Exited) => Option::Some(ExecPhase::Terminated),
        (ExecPhase::Terminated, ExecEvent::ReportSent) => Option::Some(ExecPhase::Reported),
        _ => Option::None,
    }
}

// ---------------------------------------------------------------------------
// Reporter-link reconnect policy
// ---------------------------------------------------------------------------

/// How often the reporter link retries a lost connection.
pub const RECONNECT_MAX_ATTEMPTS: u32 = 60;

/// Seconds between reconnect attempts.
pub const RECONNECT_DELAY_SECS: u64 = 5;

/// The bounded reconnect policy of the reporter link: up to
/// `max_attempts` dials, `delay_secs` apart; after exhaustion the write
/// errors upward.
#[derive(Debug, Clone, Copy, PartialEq, Eq, Structural)]
pub struct RetryPolicy {
    pub attempts_made: u32,
    pub max_attempts: u32,
    pub delay_secs: u64,
}

impl RetryPolicy {
    /// A fresh reconnect round for the reporter link.
    pub fn reporter_link() -> (r: RetryPolicy)
        ensures
            r.attempts_made == 0,
            r.max_attempts == RECONNECT_MAX_ATTEMPTS,
            r.delay_secs == RECONNECT_DELAY_SECS,
    {
        RetryPolicy {
            attempts_made: 0,
            max_attempts: RECONNECT_MAX_ATTEMPTS,
            delay_secs: RECONNECT_DELAY_SECS,
        }
    }

    /// Whether the policy allows another dial.
    pub fn exhausted(&self) -> (r: bool)
        ensures
            r <==> self.attempts_made >= self.max_attempts,
    {
        self.attempts_made >= self.max_attempts
    }

    /// Counts one failed dial; gives up exactly when the attempt budget
    /// is spent.
    pub fn record_failure(&mut self) -> (give_up: bool)
        requires
            old(self).attempts_made < old(self).max_attempts,
        ensures
            final(self).attempts_made == old(self).attempts_made + 1,
            final(self).max_attempts == old(self).max_attempts,
            final(self).delay_secs == old(self).delay_secs,
            give_up <==> final(self).attempts_made == final(self).max_attempts,
    {
        self.attempts_made = self.attempts_made + 1;
        self.attempts_made == self.max_attempts
    }
}

} // verus!
