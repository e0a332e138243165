//! Records, runtimes and process states, as plain values.
use vstd::prelude::*;

verus! {

/// Where an agent runs.
#[derive(Clone, Copy, Debug, PartialEq, Eq, Structural)]
pub enum BackendKind {
    /// A child process of this host.
    Local,
    /// Anywhere else; the host has no process to manage.
    Remote,
}

/// The persisted bookkeeping of one managed agent.
#[derive(Clone, Debug, PartialEq, Eq)]
pub struct ManagedAgentRecord {
    pub pubkey: String,
    pub backend: BackendKind,
    /// Legacy bookkeeping: the PID that an earlier session stored.
    pub runtime_pid: Option<u32>,
    pub updated_at: String,
    pub last_stopped_at: Option<String>,
    pub last_exit_code: Option<i32>,
    pub last_error: Option<String>,
    pub last_error_code: Option<i64>,
}

/// The contents of a [`ManagedAgentRecord`].
pub struct RecordView {
    pub pubkey: Seq<char>,
    pub backend: BackendKind,
    pub runtime_pid: Option<u32>,
    pub updated_at: Seq<char>,
    pub last_stopped_at: Option<Seq<char>>,
    pub last_exit_code: Option<i32>,
    pub last_error: Option<Seq<char>>,
    pub last_error_code: Option<i64>,
}

/// The characters of an optional string.
pub open spec fn text(s: Option<String>) -> Option<Seq<char>> {
    match s {
        Some(s) => Some(s@),
        None => None,
    }
}

impl View for ManagedAgentRecord {
    type V = RecordView;

    open spec fn view(&self) -> RecordView {
        RecordView {
            pubkey: self.pubkey@,
            backend: self.backend,
            runtime_pid: self.runtime_pid,
            updated_at: self.updated_at@,
            last_stopped_at: text(self.last_stopped_at),
            last_exit_code: self.last_exit_code,
            last_error: text(self.last_error),
            last_error_code: self.last_error_code,
        }
    }
}

/// The contents of a list of records.
pub open spec fn contents(records: Seq<ManagedAgentRecord>) -> Seq<RecordView> {
    Seq::new(records.len(), |i: int| records[i]@)
}

/// The characters of a list of strings.
pub open spec fn texts(strings: Seq<String>) -> Seq<Seq<char>> {
    Seq::new(strings.len(), |i: int| strings[i]@)
}

/// Whether a text is one that the clock gave.
pub open spec fn reading<N: Fn() -> String>(now: N, at: Seq<char>) -> bool {
    exists|s: String| #[trigger] call_ensures(now, (), s) && s@ == at
}

/// How a process ended.
#[derive(Debug, PartialEq, Eq)]
pub struct ExitStatus {
    /// The exit code, or `None` when a signal ended the process.
    pub code: Option<i32>,
    /// The status as the operating system words it.
    pub description: String,
}

impl Clone for ExitStatus {
    fn clone(&self) -> (copy: Self)
        ensures
            copy == *self,
    {
        ExitStatus { code: self.code, description: self.description.clone() }
    }
}

impl ExitStatus {
    /// A process ended well exactly when its exit code is zero; an end by a
    /// signal is no success.
    pub open spec fn is_success(self) -> bool {
        self.code == Some(0i32)
    }

    pub fn success(&self) -> (b: bool)
        ensures
            b == self.is_success(),
            b == (self.code == Some(0i32)),
    {
        match self.code {
            Some(code) => code == 0,
            None => false,
        }
    }
}

/// What one probe of a child process found.
#[derive(Debug)]
pub enum ChildState {
    /// The process runs.
    Live,
    /// The process ended and was reaped by this probe.
    Exited(ExitStatus),
    /// The probe failed: the process was reaped before, or its PID no longer
    /// belongs to it. Holds the error's text.
    Unavailable(String),
}

/// The root process of a runtime, as its last probe found it.
#[derive(Debug)]
pub struct ManagedAgentChild {
    pub pid: u32,
    pub state: ChildState,
}

/// An error that an agent's log reports.
#[derive(Clone, Debug)]
pub struct AgentLogError {
    pub message: String,
    pub code: Option<i64>,
}

/// One running agent on one relay.
#[derive(Debug)]
pub struct ManagedAgentPairRuntime {
    pub child: ManagedAgentChild,
    /// Names the generation that the root and its descendants belong to.
    pub start_nonce: String,
    /// The exit status that a background sweep saw when it reaped the root.
    pub reaped_exit_status: Option<ExitStatus>,
    /// The error that the runtime's log ends with, as far as the log was read.
    pub log_error: Option<AgentLogError>,
}

/// Identifies a runtime: an agent and the relay it serves.
#[derive(Clone, Debug, PartialEq, Eq, Hash)]
pub struct ManagedAgentRuntimeKey {
    pub pubkey: String,
    pub relay_url: String,
}

/// Whether two keys name the same agent on the same relay.
pub open spec fn same_key(a: ManagedAgentRuntimeKey, b: ManagedAgentRuntimeKey) -> bool {
    a.pubkey@ == b.pubkey@ && a.relay_url@ == b.relay_url@
}

impl ManagedAgentRuntimeKey {
    pub fn same(&self, other: &ManagedAgentRuntimeKey) -> (b: bool)
        ensures
            b == same_key(*self, *other),
            b == (self.pubkey@ == other.pubkey@ && self.relay_url@ == other.relay_url@),
    {
        self.pubkey == other.pubkey && self.relay_url == other.relay_url
    }
}

} // verus!
