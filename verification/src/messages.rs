//! The message set exchanged between agents and the coordinator, together
//! with the mathematical view of each message used throughout the contracts.

use vstd::prelude::*;

verus! {

/// First message an agent sends: how the coordinator can reach it back.
#[derive(Debug, Clone, PartialEq, Eq)]
pub struct RegisterAgent {
    pub name: String,
    pub hostname: String,
    pub port: u16,
}

/// Ghost mirror of [`RegisterAgent`].
pub ghost struct RegisterAgentView {
    pub name: Seq<char>,
    pub hostname: Seq<char>,
    pub port: u16,
}

impl View for RegisterAgent {
    type V = RegisterAgentView;

    open spec fn view(&self) -> RegisterAgentView {
        RegisterAgentView { name: self.name@, hostname: self.hostname@, port: self.port }
    }
}

/// Command delivery from the coordinator to one agent. `args` is a single
/// whitespace-separated string; the executor tokenises it before spawning.
#[derive(Debug, Clone, PartialEq, Eq)]
pub struct DispatchJob {
    pub job_name: String,
    pub command: String,
    pub args: String,
    pub agent_name: Option<String>,
    pub valid_return_codes: Option<Vec<i32>>,
}

/// Ghost mirror of [`DispatchJob`].
pub ghost struct DispatchJobView {
    pub job_name: Seq<char>,
    pub command: Seq<char>,
    pub args: Seq<char>,
    pub agent_name: Option<Seq<char>>,
    pub valid_return_codes: Option<Seq<i32>>,
}

impl View for DispatchJob {
    type V = DispatchJobView;

    open spec fn view(&self) -> DispatchJobView {
        DispatchJobView {
            job_name: self.job_name@,
            command: self.command@,
            args: self.args@,
            agent_name: match self.agent_name {
                Option::Some(s) => Option::Some(s@),
                Option::None => Option::None,
            },
            valid_return_codes: match self.valid_return_codes {
                Option::Some(v) => Option::Some(v@),
                Option::None => Option::None,
            },
        }
    }
}

/// How one run of a command on one agent ended.
#[derive(Debug, Clone, Copy, PartialEq, Eq, Structural)]
pub enum JobOutCome {
    Failure,
    Success,
    Unknown,
}

impl JobOutCome {
    /// Wire and store encoding of the outcome.
    pub open spec fn spec_code(self) -> i32 {
        match self {
            JobOutCome::Failure => 0,
            JobOutCome::Success => 1,
            JobOutCome::Unknown => 2,
        }
    }

    /// Integer code of this outcome, as persisted and sent on the wire.
    pub fn code(self) -> (c: i32)
        ensures
            c == self.spec_code(),
    {
        match self {
            JobOutCome::Failure => 0,
            JobOutCome::Success => 1,
            JobOutCome::Unknown => 2,
        }
    }
}

impl From<JobOutCome> for i32 {
    fn from(outcome: JobOutCome) -> (c: i32) {
        outcome.code()
    }
}

impl vstd::std_specs::convert::FromSpecImpl<JobOutCome> for i32 {
    open spec fn obeys_from_spec() -> bool {
        true
    }

    open spec fn from_spec(outcome: JobOutCome) -> i32 {
        outcome.spec_code()
    }
}

impl From<i32> for JobOutCome {
    fn from(value: i32) -> (o: JobOutCome) {
        if value == 0 {
            JobOutCome::Failure
        } else if value == 1 {
            JobOutCome::Success
        } else {
            JobOutCome::Unknown
        }
    }
}

impl vstd::std_specs::convert::FromSpecImpl<i32> for JobOutCome {
    open spec fn obeys_from_spec() -> bool {
        true
    }

    open spec fn from_spec(value: i32) -> JobOutCome {
        if value == 0 {
            JobOutCome::Failure
        } else if value == 1 {
            JobOutCome::Success
        } else {
            JobOutCome::Unknown
        }
    }
}

/// Completion report an agent sends after running one job.
/// Timestamps are milliseconds since the epoch.
#[derive(Debug, Clone, PartialEq, Eq)]
pub struct JobComplete {
    pub started_at: i64,
    pub completed_at: i64,
    pub job_name: String,
    pub command: String,
    pub agent_name: String,
    pub return_code: i32,
    pub outcome: JobOutCome,
    pub output: String,
}

/// Ghost mirror of [`JobComplete`].
pub ghost struct JobCompleteView {
    pub started_at: i64,
    pub completed_at: i64,
    pub job_name: Seq<char>,
    pub command: Seq<char>,
    pub agent_name: Seq<char>,
    pub return_code: i32,
    pub outcome: JobOutCome,
    pub output: Seq<char>,
}

impl View for JobComplete {
    type V = JobCompleteView;

    open spec fn view(&self) -> JobCompleteView {
        JobCompleteView {
            started_at: self.started_at,
            completed_at: self.completed_at,
            job_name: self.job_name@,
            command: self.command@,
            agent_name: self.agent_name@,
            return_code: self.return_code,
            outcome: self.outcome,
            output: self.output@,
        }
    }
}

/// Everything that crosses a TCP link between the two process kinds.
#[derive(Debug, Clone, PartialEq, Eq)]
pub enum Message {
    Ping,
    RegisterAgent(RegisterAgent),
    DispatchJob(DispatchJob),
    JobComplete(JobComplete),
}

/// Ghost mirror of [`Message`].
pub ghost enum MessageView {
    Ping,
    RegisterAgent(RegisterAgentView),
    DispatchJob(DispatchJobView),
    JobComplete(JobCompleteView),
}

impl View for Message {
    type V = MessageView;

    open spec fn view(&self) -> MessageView {
        match self {
            Message::Ping => MessageView::Ping,
            Message::RegisterAgent(r) => MessageView::RegisterAgent(r@),
            Message::DispatchJob(d) => MessageView::DispatchJob(d@),
            Message::JobComplete(c) => MessageView::JobComplete(c@),
        }
    }
}

/// What can go wrong while encoding a message or exchanging it on a stream.
#[derive(Debug, Clone, PartialEq, Eq, Structural)]
pub enum MessageError {
    /// The message cannot be encoded (a field is too large for its length
    /// prefix), or received bytes decode to no message.
    SerializationError,
    /// The stream failed while writing.
    WriteError,
    /// The peer did not answer `OK`.
    AcknowledgeError,
    /// The stream ended inside a frame.
    Truncated,
}

/// The wording of each error kind.
pub open spec fn spec_error_text(e: MessageError) -> Seq<char> {
    match e {
        MessageError::SerializationError => "serialization error"@,
        MessageError::WriteError => "write error"@,
        MessageError::AcknowledgeError => "acknowledge error"@,
        MessageError::Truncated => "truncated frame"@,
    }
}

impl MessageError {
    /// A short description of the error, for log lines.
    pub fn describe(&self) -> (s: &'static str)
        ensures
            s@ == spec_error_text(*self),
    {
        match self {
            MessageError::SerializationError => "serialization error",
            MessageError::WriteError => "write error",
            MessageError::AcknowledgeError => "acknowledge error",
            MessageError::Truncated => "truncated frame",
        }
    }
}

} // verus!
