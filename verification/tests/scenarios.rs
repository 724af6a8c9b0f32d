use action_dispatch::agents::{AgentsTable, Status as AgentStatus};
use action_dispatch::codec::{decode_message, encode_message};
use action_dispatch::dispatch::{
    dispatch_message_for, plan_dispatch, unconnected_agents, ConnectedAgent, ConnectionMap,
};
use action_dispatch::executor::{
    agent_action, build_job_complete, classify_outcome, exec_step, exit_return_code,
    tokenize_args, AgentAction, ExecEvent, ExecPhase, RetryPolicy,
};
use action_dispatch::framing::{build_frame, FrameBuffer, FrameStep};
use action_dispatch::info::{display_agent_info, display_central_command_info, u16_to_decimal};
use action_dispatch::ingest::{complete_agent_run, receiver_action, register_agent, ReceiverAction};
use action_dispatch::jobs::{JobsTable, JobV1, Status as JobStatus};
use action_dispatch::messages::{JobOutCome, Message, MessageError, RegisterAgent};
use action_dispatch::runs::{Outcome, RunsTable};

fn pending_job(name: &str, command: &str, args: &str, codes: &[i32], required: &[&str]) -> JobV1 {
    JobV1 {
        name: name.to_string(),
        next_run: 99,
        status: JobStatus::Pending,
        description: String::new(),
        command: command.to_string(),
        args: args.split(' ').filter(|t| !t.is_empty()).map(|t| t.to_string()).collect(),
        env: Vec::new(),
        cwd: "/".to_string(),
        timeout: 0,
        retries: 0,
        valid_return_codes: codes.to_vec(),
        agents_required: required.iter().map(|s| s.to_string()).collect(),
        agents_running: Vec::new(),
        agents_complete: Vec::new(),
    }
}

fn connect(map: &mut ConnectionMap, name: &str, hostname: &str, port: u16) {
    assert!(map.insert(ConnectedAgent {
        name: name.to_string(),
        hostname: hostname.to_string(),
        port,
    }));
}

/// One delivery of a framed message, as a session would see it.
fn deliver(msg: &Message) -> Message {
    let payload = encode_message(msg).unwrap();
    let frame = build_frame(&payload).unwrap();
    let mut buffer = FrameBuffer::new();
    buffer.feed(&frame);
    match buffer.next_frame() {
        FrameStep::Payload(p) => decode_message(&p).unwrap(),
        other => panic!("expected one frame, got {:?}", other),
    }
}

#[test]
fn register_then_connect() {
    // the agent registers over the wire
    let mut agents = AgentsTable::new();
    let msg = Message::RegisterAgent(RegisterAgent {
        name: "alpha".to_string(),
        hostname: "127.0.0.1".to_string(),
        port: 9001,
    });
    match receiver_action(deliver(&msg)) {
        ReceiverAction::Register(r) => {
            assert!(register_agent(&mut agents, r));
        }
        other => panic!("expected a registration, got {:?}", other),
    }
    assert_eq!(agents.agent_at(0).status, AgentStatus::Offline);

    // the discover sweep finds the record unconnected and dials it
    let mut map = ConnectionMap::new();
    let records = vec![agents.agent_at(0).clone()];
    let to_dial = unconnected_agents(&records, &map);
    assert_eq!(to_dial.len(), 1);
    assert_eq!(to_dial[0].name, "alpha");
    assert!(map.insert(to_dial[0].clone()));
    agents.mark_online(&"alpha".to_string(), 5_000);
    assert_eq!(agents.agent_at(0).status, AgentStatus::Online);

    // once connected, the endpoint is not dialled again
    let again = unconnected_agents(&records, &map);
    assert!(again.is_empty());
}

#[test]
fn single_agent_successful_job() {
    let mut jobs = JobsTable::new();
    let mut runs = RunsTable::new();
    let mut map = ConnectionMap::new();
    connect(&mut map, "alpha", "127.0.0.1", 9001);
    assert!(jobs.insert_job(pending_job("j1", "/bin/true", "", &[0], &["alpha"])));

    // one scheduler tick
    let now = 100;
    let claimed = jobs.get_jobs_to_run(now, &map.connected_names());
    assert_eq!(claimed.len(), 1);
    assert_eq!(jobs.job_at(0).status, JobStatus::Running);
    let targets = plan_dispatch(&claimed[0], &map);
    assert_eq!(targets, vec!["alpha".to_string()]);
    let dispatched = dispatch_message_for(&claimed[0], &targets[0]);
    jobs.add_agent_to_running_job(&claimed[0].name, &targets[0]);
    assert_eq!(jobs.job_at(0).agents_running, vec!["alpha".to_string()]);

    // the agent runs the command and reports
    let delivered = deliver(&Message::DispatchJob(dispatched));
    let job_msg = match agent_action(delivered) {
        AgentAction::Execute(d) => d,
        other => panic!("expected an execution, got {:?}", other),
    };
    let argv = tokenize_args(&job_msg.args);
    assert!(argv.is_empty());
    let code = exit_return_code(Some(0));
    let report = build_job_complete(&job_msg, &"alpha".to_string(), 200, 300, code, String::new());
    assert_eq!(report.outcome, JobOutCome::Success);

    // one ingestor round
    complete_agent_run(&mut jobs, &mut runs, report);
    let done = jobs.job_at(0);
    assert_eq!(done.status, JobStatus::Completed);
    assert!(done.agents_running.is_empty());
    assert!(done.agents_complete.is_empty());
    assert_eq!(runs.len(), 1);
    assert_eq!(runs.run_at(0).return_code, 0);
    assert_eq!(runs.run_at(0).outcome, Outcome::Success);
    assert_eq!(runs.run_at(0).job_name, "j1");
    assert_eq!(runs.run_at(0).agent_name, "alpha");
}

#[test]
fn multi_agent_fan_out() {
    let mut jobs = JobsTable::new();
    let mut runs = RunsTable::new();
    let mut map = ConnectionMap::new();
    connect(&mut map, "a", "10.0.0.1", 9001);
    connect(&mut map, "b", "10.0.0.2", 9001);
    connect(&mut map, "c", "10.0.0.3", 9001);
    assert!(jobs.insert_job(pending_job("fan", "/bin/true", "", &[0], &["a", "b", "c"])));

    let claimed = jobs.get_jobs_to_run(100, &map.connected_names());
    assert_eq!(claimed.len(), 1);
    let targets = plan_dispatch(&claimed[0], &map);
    assert_eq!(targets, vec!["a".to_string(), "b".to_string(), "c".to_string()]);
    for t in &targets {
        jobs.add_agent_to_running_job(&claimed[0].name, t);
    }
    assert_eq!(jobs.job_at(0).agents_running.len(), 3);

    // no later tick picks the job up again
    assert!(jobs.get_jobs_to_run(200, &map.connected_names()).is_empty());

    for (i, agent) in ["a", "b", "c"].iter().enumerate() {
        let dispatched = dispatch_message_for(&claimed[0], &agent.to_string());
        let report =
            build_job_complete(&dispatched, &agent.to_string(), 10, 20, 0, String::new());
        complete_agent_run(&mut jobs, &mut runs, report);
        if i < 2 {
            assert_eq!(jobs.job_at(0).status, JobStatus::Running);
        }
    }
    assert_eq!(jobs.job_at(0).status, JobStatus::Completed);
    assert!(jobs.job_at(0).agents_running.is_empty());
    assert!(jobs.job_at(0).agents_complete.is_empty());
    assert_eq!(runs.len(), 3);
}

#[test]
fn partial_connectivity_leaves_the_job_running() {
    let mut jobs = JobsTable::new();
    let mut runs = RunsTable::new();
    let mut map = ConnectionMap::new();
    connect(&mut map, "a", "10.0.0.1", 9001);
    assert!(jobs.insert_job(pending_job("half", "/bin/true", "", &[0], &["a", "b"])));

    let claimed = jobs.get_jobs_to_run(100, &map.connected_names());
    assert_eq!(claimed.len(), 1);
    let targets = plan_dispatch(&claimed[0], &map);
    assert_eq!(targets, vec!["a".to_string()]);
    jobs.add_agent_to_running_job(&claimed[0].name, &targets[0]);
    assert_eq!(jobs.job_at(0).agents_running, vec!["a".to_string()]);

    // no further tick picks it up: it is no longer pending, and its
    // agents_running is not empty
    assert!(jobs.get_jobs_to_run(200, &map.connected_names()).is_empty());

    // when a reports, the counters stay unequal and the job stays running
    let dispatched = dispatch_message_for(&claimed[0], &"a".to_string());
    let report = build_job_complete(&dispatched, &"a".to_string(), 10, 20, 0, String::new());
    complete_agent_run(&mut jobs, &mut runs, report);
    let j = jobs.job_at(0);
    assert_eq!(j.status, JobStatus::Running);
    assert_eq!(j.agents_complete, vec!["a".to_string()]);
    assert_eq!(j.agents_running, vec!["a".to_string()]);
}

#[test]
fn failing_command_still_counts_toward_completion() {
    let mut jobs = JobsTable::new();
    let mut runs = RunsTable::new();
    let mut map = ConnectionMap::new();
    connect(&mut map, "agent", "10.0.0.1", 9001);
    assert!(jobs.insert_job(pending_job("f", "/bin/false", "", &[0], &["agent"])));

    let claimed = jobs.get_jobs_to_run(100, &map.connected_names());
    let dispatched = dispatch_message_for(&claimed[0], &"agent".to_string());
    jobs.add_agent_to_running_job(&claimed[0].name, &"agent".to_string());

    // /bin/false exits 1; 1 is not among the valid return codes
    let code = exit_return_code(Some(1));
    let report = build_job_complete(&dispatched, &"agent".to_string(), 10, 20, code, String::new());
    assert_eq!(report.return_code, 1);
    assert_eq!(report.outcome, JobOutCome::Failure);

    complete_agent_run(&mut jobs, &mut runs, report);
    // the coordinator does not distinguish run outcome at the job level
    assert_eq!(jobs.job_at(0).status, JobStatus::Completed);
    assert_eq!(runs.run_at(0).outcome, Outcome::Failure);
    assert_eq!(runs.run_at(0).return_code, 1);
}

#[test]
fn agent_drop_mid_dispatch() {
    let mut agents = AgentsTable::new();
    agents.register(RegisterAgent {
        name: "a".to_string(),
        hostname: "10.0.0.1".to_string(),
        port: 9001,
    });
    let mut jobs = JobsTable::new();
    let mut map = ConnectionMap::new();
    connect(&mut map, "a", "10.0.0.1", 9001);
    assert!(jobs.insert_job(pending_job("d", "/bin/true", "", &[0], &["a"])));

    let claimed = jobs.get_jobs_to_run(100, &map.connected_names());
    jobs.add_agent_to_running_job(&claimed[0].name, &"a".to_string());

    // the next ping fails: the registry drops the stream and marks the
    // agent offline
    let at = map.index_of_endpoint(&"10.0.0.1".to_string(), 9001).unwrap();
    let gone = map.remove_at(at);
    assert_eq!(gone.name, "a");
    agents.mark_offline(&"a".to_string());
    assert_eq!(map.len(), 0);
    assert_eq!(agents.agent_at(0).status, AgentStatus::Offline);

    // the job stays running, a still listed as dispatched, never completed
    let j = jobs.job_at(0);
    assert_eq!(j.status, JobStatus::Running);
    assert_eq!(j.agents_running, vec!["a".to_string()]);
    assert!(j.agents_complete.is_empty());
}

#[test]
fn dispatch_message_carries_the_job_and_the_agent() {
    let job = pending_job("j", "/usr/bin/env", "a  b c", &[0, 2], &["x"]);
    let d = dispatch_message_for(&job, &"x".to_string());
    assert_eq!(d.job_name, "j");
    assert_eq!(d.command, "/usr/bin/env");
    assert_eq!(d.args, "a b c");
    assert_eq!(d.agent_name, Some("x".to_string()));
    assert_eq!(d.valid_return_codes, Some(vec![0, 2]));
}

#[test]
fn tokenizer_splits_on_spaces_and_drops_empty_runs() {
    assert_eq!(tokenize_args(&"".to_string()), Vec::<String>::new());
    assert_eq!(tokenize_args(&"   ".to_string()), Vec::<String>::new());
    assert_eq!(
        tokenize_args(&"-l --color auto".to_string()),
        vec!["-l".to_string(), "--color".to_string(), "auto".to_string()]
    );
    assert_eq!(
        tokenize_args(&"  a  bc   d ".to_string()),
        vec!["a".to_string(), "bc".to_string(), "d".to_string()]
    );
}

#[test]
fn executor_phases_follow_the_state_machine() {
    assert_eq!(exec_step(ExecPhase::Received, ExecEvent::Start), Some(ExecPhase::Spawning));
    assert_eq!(exec_step(ExecPhase::Spawning, ExecEvent::SpawnOk), Some(ExecPhase::Running));
    assert_eq!(
        exec_step(ExecPhase::Spawning, ExecEvent::SpawnFailed),
        Some(ExecPhase::Terminated)
    );
    assert_eq!(exec_step(ExecPhase::Running, ExecEvent::Exited), Some(ExecPhase::Terminated));
    assert_eq!(
        exec_step(ExecPhase::Terminated, ExecEvent::ReportSent),
        Some(ExecPhase::Reported)
    );
    assert_eq!(exec_step(ExecPhase::Received, ExecEvent::Exited), None);
    assert_eq!(exec_step(ExecPhase::Reported, ExecEvent::Start), None);
}

#[test]
fn reconnect_policy_gives_up_after_sixty_attempts() {
    let mut policy = RetryPolicy::reporter_link();
    assert_eq!(policy.delay_secs, 5);
    let mut gave_up = false;
    let mut dials = 0;
    while !policy.exhausted() {
        gave_up = policy.record_failure();
        dials += 1;
    }
    assert_eq!(dials, 60);
    assert!(gave_up);
}

#[test]
fn classifier_trusts_a_listed_minus_one() {
    // a job listing -1 as valid marks even a signalled run a success:
    // the classifier follows the list it was given
    assert_eq!(classify_outcome(&Some(vec![-1]), exit_return_code(None)), JobOutCome::Success);
}

#[test]
fn a_segmented_stream_of_messages_arrives_in_order() {
    let msgs = vec![
        Message::Ping,
        Message::RegisterAgent(RegisterAgent {
            name: "alpha".to_string(),
            hostname: "127.0.0.1".to_string(),
            port: 9001,
        }),
        Message::Ping,
    ];
    let mut stream = Vec::new();
    for m in &msgs {
        let payload = encode_message(m).unwrap();
        stream.extend_from_slice(&build_frame(&payload).unwrap());
    }
    for split in [1usize, 4, 5, stream.len() - 1] {
        let mut buffer = FrameBuffer::new();
        buffer.feed(&stream[..split].to_vec());
        buffer.feed(&stream[split..].to_vec());
        let mut got = Vec::new();
        while let FrameStep::Payload(p) = buffer.next_frame() {
            got.push(decode_message(&p).unwrap());
        }
        assert_eq!(got, msgs);
    }
}

#[test]
fn error_kinds_have_log_wording() {
    assert_eq!(MessageError::SerializationError.describe(), "serialization error");
    assert_eq!(MessageError::WriteError.describe(), "write error");
    assert_eq!(MessageError::AcknowledgeError.describe(), "acknowledge error");
    assert_eq!(MessageError::Truncated.describe(), "truncated frame");
}

#[test]
fn banners_carry_name_port_and_version() {
    let lines = display_agent_info(&"alpha".to_string(), 9001);
    assert_eq!(lines.len(), 5);
    assert_eq!(lines[1], "\tRust Action Dispatch Agent");
    assert_eq!(lines[3], "\tAgent Name: alpha Port: 9001");
    let lines = display_central_command_info();
    assert_eq!(lines.len(), 5);
    assert_eq!(lines[3], "\tVersion: 0.1.0 Hosted at 0.0.0.0:8080");
    assert_eq!(u16_to_decimal(0), "0");
    assert_eq!(u16_to_decimal(10), "10");
    assert_eq!(u16_to_decimal(65535), "65535");
}
