use action_dispatch::agents::{AgentsTable, AgentV1, Status as AgentStatus};
use action_dispatch::executor::{classify_outcome, exit_return_code};
use action_dispatch::ingest::complete_agent_run;
use action_dispatch::jobs::{JobsTable, JobV1, Status as JobStatus};
use action_dispatch::messages::{JobComplete, JobOutCome, RegisterAgent};
use action_dispatch::runs::{Outcome, RunsTable};

fn job(name: &str, next_run: i64, required: &[&str]) -> JobV1 {
    JobV1 {
        name: name.to_string(),
        next_run,
        status: JobStatus::Pending,
        description: String::new(),
        command: "/bin/true".to_string(),
        args: Vec::new(),
        env: Vec::new(),
        cwd: "/".to_string(),
        timeout: 0,
        retries: 0,
        valid_return_codes: vec![0],
        agents_required: required.iter().map(|s| s.to_string()).collect(),
        agents_running: Vec::new(),
        agents_complete: Vec::new(),
    }
}

fn report(job_name: &str, agent: &str, code: i32, outcome: JobOutCome) -> JobComplete {
    JobComplete {
        started_at: 1000,
        completed_at: 2000,
        job_name: job_name.to_string(),
        command: "/bin/true".to_string(),
        agent_name: agent.to_string(),
        return_code: code,
        outcome,
        output: "done".to_string(),
    }
}

fn registration(name: &str, hostname: &str, port: u16) -> RegisterAgent {
    RegisterAgent { name: name.to_string(), hostname: hostname.to_string(), port }
}

#[test]
fn registration_creates_an_offline_document() {
    let mut agents = AgentsTable::new();
    assert!(agents.register(registration("alpha", "127.0.0.1", 9001)));
    assert_eq!(agents.len(), 1);
    let doc: &AgentV1 = agents.agent_at(0);
    assert_eq!(doc.name, "alpha");
    assert_eq!(doc.hostname, "127.0.0.1");
    assert_eq!(doc.port, 9001);
    assert_eq!(doc.status, AgentStatus::Offline);
    assert_eq!(doc.last_ping, 0);
    assert_eq!(doc.version, 1);
}

#[test]
fn re_registration_of_the_same_name_is_a_no_op() {
    let mut agents = AgentsTable::new();
    assert!(agents.register(registration("alpha", "127.0.0.1", 9001)));
    agents.mark_online(&"alpha".to_string(), 777);
    // same name, even with a different endpoint
    assert!(!agents.register(registration("alpha", "10.0.0.9", 1234)));
    assert_eq!(agents.len(), 1);
    let doc = agents.agent_at(0);
    assert_eq!(doc.hostname, "127.0.0.1");
    assert_eq!(doc.status, AgentStatus::Online);
    assert_eq!(doc.last_ping, 777);
}

#[test]
fn registration_with_a_taken_endpoint_is_rejected() {
    let mut agents = AgentsTable::new();
    assert!(agents.register(registration("alpha", "127.0.0.1", 9001)));
    assert!(!agents.register(registration("beta", "127.0.0.1", 9001)));
    assert!(agents.register(registration("beta", "127.0.0.1", 9002)));
    assert_eq!(agents.len(), 2);
}

#[test]
fn ping_updates_flip_status_and_stamp() {
    let mut agents = AgentsTable::new();
    agents.register(registration("alpha", "127.0.0.1", 9001));
    agents.mark_online(&"alpha".to_string(), 424242);
    assert_eq!(agents.agent_at(0).status, AgentStatus::Online);
    assert_eq!(agents.agent_at(0).last_ping, 424242);
    agents.mark_offline(&"alpha".to_string());
    assert_eq!(agents.agent_at(0).status, AgentStatus::Offline);
    // the stamp of the last successful ping stays
    assert_eq!(agents.agent_at(0).last_ping, 424242);
}

#[test]
fn claim_takes_only_due_pending_jobs_with_an_online_required_agent() {
    let mut jobs = JobsTable::new();
    assert!(jobs.insert_job(job("due", 50, &["alpha"])));
    assert!(jobs.insert_job(job("future", 5000, &["alpha"])));
    assert!(jobs.insert_job(job("offline_only", 50, &["gamma"])));
    let online = vec!["alpha".to_string(), "beta".to_string()];
    let claimed = jobs.get_jobs_to_run(100, &online);
    assert_eq!(claimed.len(), 1);
    assert_eq!(claimed[0].name, "due");
    assert_eq!(claimed[0].status, JobStatus::Running);
    assert_eq!(jobs.job_at(0).status, JobStatus::Running);
    assert_eq!(jobs.job_at(1).status, JobStatus::Pending);
    assert_eq!(jobs.job_at(2).status, JobStatus::Pending);
}

#[test]
fn job_with_no_required_agents_is_never_claimable() {
    let mut jobs = JobsTable::new();
    assert!(jobs.insert_job(job("orphan", 0, &[])));
    let online = vec!["alpha".to_string(), "beta".to_string(), "gamma".to_string()];
    let claimed = jobs.get_jobs_to_run(i64::MAX, &online);
    assert_eq!(claimed.len(), 0);
    assert_eq!(jobs.job_at(0).status, JobStatus::Pending);
}

#[test]
fn duplicate_job_names_are_rejected() {
    let mut jobs = JobsTable::new();
    assert!(jobs.insert_job(job("j1", 0, &["a"])));
    assert!(!jobs.insert_job(job("j1", 99, &["b"])));
    assert_eq!(jobs.len(), 1);
    assert_eq!(jobs.job_at(0).next_run, 0);
}

#[test]
fn ingested_completion_is_recorded_exactly_once_with_a_verbatim_row() {
    let mut jobs = JobsTable::new();
    let mut runs = RunsTable::new();
    jobs.insert_job(job("j1", 0, &["a", "b"]));
    complete_agent_run(&mut jobs, &mut runs, report("j1", "a", 0, JobOutCome::Success));
    let j = jobs.job_at(0);
    assert_eq!(j.agents_complete, vec!["a".to_string()]);
    assert_eq!(j.status, JobStatus::Pending);
    assert_eq!(runs.len(), 1);
    let row = runs.run_at(0);
    assert_eq!(row.started_at, 1000);
    assert_eq!(row.completed_at, 2000);
    assert_eq!(row.job_name, "j1");
    assert_eq!(row.command, "/bin/true");
    assert_eq!(row.agent_name, "a");
    assert_eq!(row.return_code, 0);
    assert_eq!(row.outcome, Outcome::Success);
    assert_eq!(row.output, "done");
}

#[test]
fn replaying_a_completion_leaves_the_job_unchanged_and_grows_history() {
    let mut jobs = JobsTable::new();
    let mut runs = RunsTable::new();
    jobs.insert_job(job("j1", 0, &["a", "b", "c"]));
    complete_agent_run(&mut jobs, &mut runs, report("j1", "a", 0, JobOutCome::Success));
    let complete_after_first = jobs.job_at(0).agents_complete.clone();
    let status_after_first = jobs.job_at(0).status;
    complete_agent_run(&mut jobs, &mut runs, report("j1", "a", 0, JobOutCome::Success));
    assert_eq!(jobs.job_at(0).agents_complete, complete_after_first);
    assert_eq!(jobs.job_at(0).status, status_after_first);
    assert_eq!(runs.len(), 2);
}

#[test]
fn set_equality_completes_the_job_and_clears_both_lists() {
    let mut jobs = JobsTable::new();
    let mut runs = RunsTable::new();
    let mut j = job("j1", 0, &["a", "b"]);
    j.status = JobStatus::Running;
    j.agents_running = vec!["a".to_string(), "b".to_string()];
    jobs.insert_job(j);
    complete_agent_run(&mut jobs, &mut runs, report("j1", "a", 0, JobOutCome::Success));
    assert_eq!(jobs.job_at(0).status, JobStatus::Running);
    complete_agent_run(&mut jobs, &mut runs, report("j1", "b", 0, JobOutCome::Success));
    let done = jobs.job_at(0);
    assert_eq!(done.status, JobStatus::Completed);
    assert!(done.agents_running.is_empty());
    assert!(done.agents_complete.is_empty());
}

#[test]
fn completion_report_for_an_unknown_job_only_appends_history() {
    let mut jobs = JobsTable::new();
    let mut runs = RunsTable::new();
    jobs.insert_job(job("j1", 0, &["a"]));
    complete_agent_run(&mut jobs, &mut runs, report("ghost", "a", 0, JobOutCome::Success));
    assert_eq!(jobs.job_at(0).agents_complete.len(), 0);
    assert_eq!(runs.len(), 1);
}

#[test]
fn outcome_is_failure_without_valid_return_codes() {
    assert_eq!(classify_outcome(&None, 0), JobOutCome::Failure);
    assert_eq!(classify_outcome(&Some(Vec::new()), 0), JobOutCome::Failure);
    assert_eq!(classify_outcome(&Some(Vec::new()), -1), JobOutCome::Failure);
}

#[test]
fn outcome_follows_the_valid_return_code_list() {
    assert_eq!(classify_outcome(&Some(vec![0]), 0), JobOutCome::Success);
    assert_eq!(classify_outcome(&Some(vec![0]), 1), JobOutCome::Failure);
    assert_eq!(classify_outcome(&Some(vec![0, 3]), 3), JobOutCome::Success);
}

#[test]
fn signalled_process_records_minus_one_and_fails() {
    let code = exit_return_code(None);
    assert_eq!(code, -1);
    assert_eq!(classify_outcome(&Some(vec![0]), code), JobOutCome::Failure);
    assert_eq!(classify_outcome(&None, code), JobOutCome::Failure);
}

#[test]
fn status_codes_match_the_store_encoding() {
    assert_eq!(i32::from(AgentStatus::Offline), 0);
    assert_eq!(i32::from(AgentStatus::Online), 1);
    assert_eq!(AgentStatus::from(1), AgentStatus::Online);
    assert_eq!(AgentStatus::from(9), AgentStatus::Offline);
    assert_eq!(JobStatus::Pending.code(), 0);
    assert_eq!(JobStatus::Running.code(), 1);
    assert_eq!(JobStatus::Completed.code(), 2);
    assert_eq!(JobStatus::Error.code(), 3);
    assert_eq!(JobStatus::from(2), JobStatus::Completed);
    assert_eq!(JobStatus::from(-5), JobStatus::Error);
    assert_eq!(i32::from(Outcome::Unknown), 2);
    assert_eq!(Outcome::from(1), Outcome::Success);
    assert_eq!(Outcome::from(JobOutCome::Failure), Outcome::Failure);
}
