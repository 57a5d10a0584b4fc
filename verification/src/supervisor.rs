//! On-demand lifecycle of disposable framed workers.
//!
//! The supervisor decides when a worker process is started, kept or stopped,
//! and which reply answers which request. Processes and pipes are driven by its
//! owner, which reports what happened and follows the decisions.

use vstd::prelude::*;

use crate::ordered_map::OrderedMap;
use crate::position;
use crate::protocol;
use crate::protocol::{
    HandshakeResponse, WorkerEnvelope, WorkerError, WorkerErrorCode, WorkerMessage,
    WORKER_PROTOCOL_VERSION,
};
use crate::shown;
use crate::shown::{push, quote, Shown};
use crate::text;
use crate::text::IntoText;
use crate::worker_framing::FrameError;

verus! {

/// How long a worker may stay idle, unless its launch says otherwise.
pub const DEFAULT_IDLE_TIMEOUT_MILLIS: u64 = 30_000;

/// How long a worker may take to reply, unless its launch says otherwise.
pub const DEFAULT_REQUEST_TIMEOUT_MILLIS: u64 = 30_000;

/// A variable of a worker's environment.
#[derive(Debug, PartialEq, Eq)]
pub struct EnvironmentVariable {
    pub name: String,
    pub value: String,
}

impl Clone for EnvironmentVariable {
    fn clone(&self) -> (result: Self)
        ensures
            result == *self,
    {
        EnvironmentVariable { name: self.name.clone(), value: self.value.clone() }
    }
}

/// Command and lifetime limits for one disposable backend implementation.
#[derive(Debug, PartialEq, Eq)]
pub struct WorkerLaunch {
    pub program: String,
    pub args: Vec<String>,
    /// Workspace root used to resolve worker-relative source paths.
    pub working_directory: Option<String>,
    /// Process-local worker configuration; never part of a message.
    pub environment: Vec<EnvironmentVariable>,
    pub idle_timeout_millis: u64,
    pub request_timeout_millis: u64,
}

/// What a `WorkerLaunch` holds.
#[verifier::ext_equal]
pub struct WorkerLaunchView {
    pub program: String,
    pub args: Seq<String>,
    pub working_directory: Option<String>,
    pub environment: Seq<EnvironmentVariable>,
    pub idle_timeout_millis: u64,
    pub request_timeout_millis: u64,
}

impl View for WorkerLaunch {
    type V = WorkerLaunchView;

    open spec fn view(&self) -> WorkerLaunchView {
        WorkerLaunchView {
            program: self.program,
            args: self.args@,
            working_directory: self.working_directory,
            environment: self.environment@,
            idle_timeout_millis: self.idle_timeout_millis,
            request_timeout_millis: self.request_timeout_millis,
        }
    }
}

impl Clone for WorkerLaunch {
    fn clone(&self) -> (result: Self)
        ensures
            result@ == self@,
    {
        let result = WorkerLaunch {
            program: self.program.clone(),
            args: self.args.clone(),
            working_directory: self.working_directory.clone(),
            environment: self.environment.clone(),
            idle_timeout_millis: self.idle_timeout_millis,
            request_timeout_millis: self.request_timeout_millis,
        };
        assert(result.args@ =~= self.args@);
        assert(result.environment@ =~= self.environment@);
        result
    }
}

/// Whether two optional texts are the same.
pub open spec fn same_optional(a: Option<String>, b: Option<String>) -> bool {
    match (a, b) {
        (Some(a), Some(b)) => a@ == b@,
        (None, None) => true,
        _ => false,
    }
}

/// Whether two launches start the same command in the same way.
pub open spec fn same_launch(a: WorkerLaunch, b: WorkerLaunch) -> bool {
    &&& a.program@ == b.program@
    &&& text::texts(a.args@) == text::texts(b.args@)
    &&& same_optional(a.working_directory, b.working_directory)
    &&& a.environment@.len() == b.environment@.len()
    &&& forall|i: int|
        0 <= i < a.environment@.len() ==> (#[trigger] a.environment@[i]).name@
            == b.environment@[i].name@ && a.environment@[i].value@ == b.environment@[i].value@
    &&& a.idle_timeout_millis == b.idle_timeout_millis
    &&& a.request_timeout_millis == b.request_timeout_millis
}

fn is_same_optional(a: &Option<String>, b: &Option<String>) -> (result: bool)
    ensures
        result == same_optional(*a, *b),
{
    match (a, b) {
        (Some(a), Some(b)) => *a == *b,
        (None, None) => true,
        _ => false,
    }
}

fn same_args(a: &[String], b: &[String]) -> (result: bool)
    ensures
        result == (text::texts(a@) == text::texts(b@)),
{
    if a.len() != b.len() {
        assert(text::texts(a@).len() != text::texts(b@).len());
        return false;
    }
    let mut i: usize = 0;
    while i < a.len()
        invariant
            a@.len() == b@.len(),
            i <= a@.len(),
            forall|j: int| 0 <= j < i ==> (#[trigger] a@[j])@ == b@[j]@,
        decreases a@.len() - i,
    {
        if a[i] != b[i] {
            assert(text::texts(a@)[i as int] != text::texts(b@)[i as int]);
            return false;
        }
        i = i + 1;
    }
    assert(text::texts(a@) =~= text::texts(b@));
    true
}

impl WorkerLaunch {
    /// A launch of a program with the default limits.
    pub fn new<T: IntoText>(program: T) -> (result: Self)
        ensures
            result.program@ == program.text(),
            result.args@.len() == 0,
            result.working_directory is None,
            result.environment@.len() == 0,
            result.idle_timeout_millis == DEFAULT_IDLE_TIMEOUT_MILLIS,
            result.request_timeout_millis == DEFAULT_REQUEST_TIMEOUT_MILLIS,
    {
        WorkerLaunch {
            program: program.into_text(),
            args: Vec::new(),
            working_directory: None,
            environment: Vec::new(),
            idle_timeout_millis: DEFAULT_IDLE_TIMEOUT_MILLIS,
            request_timeout_millis: DEFAULT_REQUEST_TIMEOUT_MILLIS,
        }
    }

    /// Computes `same_launch`.
    pub fn same(&self, other: &Self) -> (result: bool)
        ensures
            result == same_launch(*self, *other),
    {
        if self.program != other.program || !same_args(self.args.as_slice(), other.args.as_slice())
            || !is_same_optional(&self.working_directory, &other.working_directory)
            || self.environment.len() != other.environment.len() || self.idle_timeout_millis
            != other.idle_timeout_millis || self.request_timeout_millis
            != other.request_timeout_millis {
            return false;
        }
        let mut i: usize = 0;
        while i < self.environment.len()
            invariant
                self.environment@.len() == other.environment@.len(),
                i <= self.environment@.len(),
                forall|j: int|
                    0 <= j < i ==> (#[trigger] self.environment@[j]).name@
                        == other.environment@[j].name@ && self.environment@[j].value@
                        == other.environment@[j].value@,
            decreases self.environment@.len() - i,
        {
            if self.environment[i].name != other.environment[i].name || self.environment[i].value
                != other.environment[i].value {
                assert(!(self.environment@[i as int].name@ == other.environment@[i as int].name@
                    && self.environment@[i as int].value@ == other.environment@[i as int].value@));
                return false;
            }
            i = i + 1;
        }
        true
    }
}

/// Why a request to a worker failed.
#[derive(Debug, PartialEq, Eq)]
pub enum WorkerSupervisorError {
    Start { program: String, source: String },
    Frame(FrameError),
    InvalidResponse(String),
    TimedOut { timeout_millis: u64 },
    Exited,
    RequestIdMismatch { expected: String, received: String },
    DuplicateRequestId { request_id: String },
    IncompatibleProtocol { found: u32, supported: u32 },
    WorkerReported { error: WorkerError },
    InvalidHandshake { received: Box<WorkerMessage> },
}

/// What came back, or did not, after a request was sent.
#[derive(Debug, PartialEq, Eq)]
pub enum WorkerReply {
    Envelope(WorkerEnvelope),
    BrokenFrame(FrameError),
    Undecodable(String),
    Disconnected,
    TimedOut,
}

/// What has to happen to the process before a request is sent.
#[derive(Debug, Clone, Copy, PartialEq, Eq, Structural)]
pub struct Preparation {
    /// An idle process is to be stopped.
    pub stop: bool,
    /// A process is to be started.
    pub start: bool,
}

/// A running worker process.
pub struct RunningWorker {
    request_ids: OrderedMap<bool>,
    last_activity: u64,
}

/// The model of a running worker: the request ids that it has seen and the time
/// of its last activity in milliseconds.
pub struct RunningWorkerView {
    pub request_ids: Set<Seq<char>>,
    pub last_activity: u64,
}

impl View for RunningWorker {
    type V = RunningWorkerView;

    closed spec fn view(&self) -> RunningWorkerView {
        RunningWorkerView {
            request_ids: self.request_ids@.dom(),
            last_activity: self.last_activity,
        }
    }
}

impl RunningWorker {
    /// The ids are kept in order.
    pub closed spec fn wf(&self) -> bool {
        self.request_ids.wf()
    }
}

/// The lifecycle of the processes of one launch.
pub struct WorkerSupervisor {
    pub launch: WorkerLaunch,
    pub running: Option<RunningWorker>,
    pub starts: u64,
}

/// How long ago an activity was, as seen at `now`.
pub open spec fn idle_time(now: u64, last_activity: u64) -> int {
    if now > last_activity {
        now - last_activity
    } else {
        0
    }
}

impl WorkerSupervisor {
    /// The running worker is well formed.
    pub open spec fn wf(&self) -> bool {
        match self.running {
            Some(running) => running.wf(),
            None => true,
        }
    }

    /// The model of the running worker.
    pub open spec fn worker(&self) -> Option<RunningWorkerView> {
        match self.running {
            Some(running) => Some(running@),
            None => None,
        }
    }

    /// Whether the running worker has been idle for too long.
    pub open spec fn is_idle(&self, now: u64) -> bool {
        match self.running {
            Some(running) => idle_time(now, running@.last_activity)
                >= self.launch.idle_timeout_millis,
            None => false,
        }
    }

    /// A supervisor that has started nothing.
    pub fn new(launch: WorkerLaunch) -> (result: Self)
        ensures
            result.wf(),
            result.launch == launch,
            result.running is None,
            result.starts == 0,
    {
        WorkerSupervisor { launch, running: None, starts: 0 }
    }

    /// How many processes were started.
    pub fn start_count(&self) -> (result: u64)
        ensures
            result == self.starts,
    {
        self.starts
    }

    /// Forgets a process that exited, and tells whether one is running.
    pub fn is_running(&mut self, exited: bool) -> (result: bool)
        requires
            old(self).wf(),
        ensures
            final(self).wf(),
            final(self).launch == old(self).launch,
            final(self).starts == old(self).starts,
            final(self).running == (if exited {
                None
            } else {
                old(self).running
            }),
            result == (final(self).running is Some),
    {
        if exited {
            self.running = None;
        }
        self.running.is_some()
    }

    /// Forgets a worker that has been idle for too long. The owner stops its
    /// process.
    pub fn reap_idle(&mut self, now: u64) -> (result: bool)
        requires
            old(self).wf(),
        ensures
            final(self).wf(),
            final(self).launch == old(self).launch,
            final(self).starts == old(self).starts,
            result == old(self).is_idle(now),
            final(self).running == (if result {
                None
            } else {
                old(self).running
            }),
    {
        let expired: bool = match &self.running {
            Some(running) => {
                let idle: u64 = if now > running.last_activity {
                    now - running.last_activity
                } else {
                    0
                };
                idle >= self.launch.idle_timeout_millis
            },
            None => false,
        };
        if expired {
            self.running = None;
        }
        expired
    }

    /// Forgets the worker. The owner stops its process.
    pub fn stop(&mut self)
        ensures
            final(self).wf(),
            final(self).launch == old(self).launch,
            final(self).starts == old(self).starts,
            final(self).running is None,
    {
        self.running = None;
    }

    /// Decides what has to happen to the process before a request of a
    /// protocol version is sent: an idle worker is stopped, and one that is not
    /// running is started. A request of another version changes nothing.
    pub fn prepare(&mut self, protocol_version: u32, now: u64, exited: bool) -> (result: Result<
        Preparation,
        WorkerSupervisorError,
    >)
        requires
            old(self).wf(),
        ensures
            final(self).wf(),
            final(self).launch == old(self).launch,
            final(self).starts == old(self).starts,
            protocol_version != WORKER_PROTOCOL_VERSION ==> result == Err::<
                Preparation,
                WorkerSupervisorError,
            >(
                WorkerSupervisorError::IncompatibleProtocol {
                    found: protocol_version,
                    supported: WORKER_PROTOCOL_VERSION,
                },
            ) && final(self).running == old(self).running,
            protocol_version == WORKER_PROTOCOL_VERSION ==> {
                &&& result is Ok
                &&& result->Ok_0.stop == old(self).is_idle(now)
                &&& final(self).running == (if old(self).is_idle(now) || exited {
                    None
                } else {
                    old(self).running
                })
                &&& result->Ok_0.start == (final(self).running is None)
            },
    {
        match protocol::ensure_compatible_protocol_version(protocol_version) {
            Ok(()) => {},
            Err(error) => {
                let found: u32 = match error.received_protocol_version {
                    Some(version) => version,
                    None => 0,
                };
                return Err(
                    WorkerSupervisorError::IncompatibleProtocol {
                        found,
                        supported: error.supported_protocol_version,
                    },
                );
            },
        }
        let stop: bool = self.reap_idle(now);
        let running: bool = self.is_running(exited);
        Ok(Preparation { stop, start: !running })
    }

    /// Records that a process was started. It has seen no request.
    pub fn started(&mut self, now: u64)
        requires
            old(self).starts < u64::MAX,
        ensures
            final(self).wf(),
            final(self).launch == old(self).launch,
            final(self).starts == old(self).starts + 1,
            final(self).worker() == Some(
                RunningWorkerView { request_ids: Set::empty(), last_activity: now },
            ),
    {
        let request_ids: OrderedMap<bool> = OrderedMap::new();
        let running = RunningWorker { request_ids, last_activity: now };
        assert(running@.request_ids =~= Set::empty());
        self.running = Some(running);
        self.starts = self.starts + 1;
    }

    /// Records that a request is sent. A worker process sees every request id
    /// at most once.
    pub fn register(&mut self, request_id: &str, now: u64) -> (result: Result<
        (),
        WorkerSupervisorError,
    >)
        requires
            old(self).wf(),
            old(self).running is Some,
        ensures
            final(self).wf(),
            final(self).launch == old(self).launch,
            final(self).starts == old(self).starts,
            ({
                let before = old(self).worker()->Some_0;
                if before.request_ids.contains(request_id@) {
                    &&& result is Err
                    &&& result->Err_0 is DuplicateRequestId
                    &&& result->Err_0->DuplicateRequestId_request_id@ == request_id@
                    &&& final(self).worker() == Some(before)
                } else {
                    &&& result is Ok
                    &&& final(self).worker() == Some(
                        RunningWorkerView {
                            request_ids: before.request_ids.insert(request_id@),
                            last_activity: now,
                        },
                    )
                }
            }),
    {
        let mut running: Option<RunningWorker> = None;
        std::mem::swap(&mut running, &mut self.running);
        match running {
            Some(worker) => {
                let mut worker = worker;
                if worker.request_ids.contains_key(request_id) {
                    self.running = Some(worker);
                    return Err(
                        WorkerSupervisorError::DuplicateRequestId {
                            request_id: request_id.to_owned(),
                        },
                    );
                }
                let ghost before = worker@.request_ids;
                worker.request_ids.insert(request_id.to_owned(), true);
                worker.last_activity = now;
                assert(worker@.request_ids =~= before.insert(request_id@));
                self.running = Some(worker);
                Ok(())
            },
            None => Ok(()),
        }
    }

    /// Whether a reply answers a request: an envelope of the protocol version
    /// and of the request's id that is no error.
    pub open spec fn answers(reply: WorkerReply, request_id: Seq<char>) -> bool {
        match reply {
            WorkerReply::Envelope(envelope) => {
                &&& envelope.protocol_version == WORKER_PROTOCOL_VERSION
                &&& envelope.request_id@ == request_id
                &&& !(envelope.message is Error)
            },
            _ => false,
        }
    }

    /// Whether the worker is to be given up after a reply: after all but a
    /// reply of the right version and id, or one that cannot be decoded.
    pub open spec fn gives_up(reply: WorkerReply, request_id: Seq<char>) -> bool {
        match reply {
            WorkerReply::Envelope(envelope) => envelope.protocol_version != WORKER_PROTOCOL_VERSION
                || envelope.request_id@ != request_id,
            WorkerReply::Undecodable(_) => false,
            _ => true,
        }
    }

    /// Whether an error is the one for a reply that does not answer a request.
    pub open spec fn is_error_of(
        &self,
        error: WorkerSupervisorError,
        reply: WorkerReply,
        request_id: Seq<char>,
    ) -> bool {
        match reply {
            WorkerReply::BrokenFrame(cause) => error == WorkerSupervisorError::Frame(cause),
            WorkerReply::Undecodable(cause) => error == WorkerSupervisorError::InvalidResponse(
                cause,
            ),
            WorkerReply::Disconnected => error is Exited,
            WorkerReply::TimedOut => error == WorkerSupervisorError::TimedOut {
                timeout_millis: self.launch.request_timeout_millis,
            },
            WorkerReply::Envelope(envelope) => if envelope.protocol_version
                != WORKER_PROTOCOL_VERSION {
                error == WorkerSupervisorError::IncompatibleProtocol {
                    found: envelope.protocol_version,
                    supported: WORKER_PROTOCOL_VERSION,
                }
            } else if envelope.request_id@ != request_id {
                &&& error is RequestIdMismatch
                &&& error->RequestIdMismatch_expected@ == request_id
                &&& error->RequestIdMismatch_received@ == envelope.request_id@
            } else {
                &&& envelope.message is Error
                &&& error == WorkerSupervisorError::WorkerReported {
                    error: envelope.message->Error_0,
                }
            },
        }
    }

    /// Takes the reply to a request. Only an answer to that request is handed
    /// out; after a broken, late or foreign reply the worker is given up.
    pub fn accept(&mut self, request_id: &str, reply: WorkerReply, now: u64) -> (result: Result<
        WorkerEnvelope,
        WorkerSupervisorError,
    >)
        requires
            old(self).wf(),
        ensures
            final(self).wf(),
            final(self).launch == old(self).launch,
            final(self).starts == old(self).starts,
            result is Ok <==> Self::answers(reply, request_id@),
            result is Ok ==> WorkerReply::Envelope(result->Ok_0) == reply,
            result is Err ==> old(self).is_error_of(result->Err_0, reply, request_id@),
            Self::gives_up(reply, request_id@) ==> final(self).running is None,
            !Self::gives_up(reply, request_id@) ==> match old(self).worker() {
                None => final(self).running is None,
                Some(before) => final(self).worker() == Some(
                    RunningWorkerView {
                        request_ids: before.request_ids,
                        last_activity: if result is Ok {
                            now
                        } else {
                            before.last_activity
                        },
                    },
                ),
            },
    {
        let envelope = match reply {
            WorkerReply::Envelope(envelope) => envelope,
            WorkerReply::BrokenFrame(error) => {
                self.stop();
                return Err(WorkerSupervisorError::Frame(error));
            },
            WorkerReply::Undecodable(error) => {
                return Err(WorkerSupervisorError::InvalidResponse(error));
            },
            WorkerReply::Disconnected => {
                self.stop();
                return Err(WorkerSupervisorError::Exited);
            },
            WorkerReply::TimedOut => {
                self.stop();
                return Err(
                    WorkerSupervisorError::TimedOut {
                        timeout_millis: self.launch.request_timeout_millis,
                    },
                );
            },
        };
        if envelope.protocol_version != WORKER_PROTOCOL_VERSION {
            self.stop();
            return Err(
                WorkerSupervisorError::IncompatibleProtocol {
                    found: envelope.protocol_version,
                    supported: WORKER_PROTOCOL_VERSION,
                },
            );
        }
        if !text::same_text(envelope.request_id.as_str(), request_id) {
            self.stop();
            return Err(
                WorkerSupervisorError::RequestIdMismatch {
                    expected: request_id.to_owned(),
                    received: envelope.request_id,
                },
            );
        }
        match envelope.message {
            WorkerMessage::Error(error) => {
                return Err(WorkerSupervisorError::WorkerReported { error });
            },
            message => {
                let mut running: Option<RunningWorker> = None;
                std::mem::swap(&mut running, &mut self.running);
                if let Some(worker) = running {
                    let mut worker = worker;
                    worker.last_activity = now;
                    self.running = Some(worker);
                }
                Ok(
                    WorkerEnvelope {
                        protocol_version: envelope.protocol_version,
                        request_id: envelope.request_id,
                        message,
                    },
                )
            },
        }
    }

    /// Takes the answer to a handshake. A worker that advertises another
    /// protocol version is given up.
    pub fn accept_handshake(&mut self, message: WorkerMessage) -> (result: Result<
        HandshakeResponse,
        WorkerSupervisorError,
    >)
        requires
            old(self).wf(),
        ensures
            final(self).wf(),
            final(self).launch == old(self).launch,
            final(self).starts == old(self).starts,
            match message {
                WorkerMessage::HandshakeResponse(response) => if response.capabilities.protocol_version
                    == WORKER_PROTOCOL_VERSION {
                    &&& result == Ok::<HandshakeResponse, WorkerSupervisorError>(response)
                    &&& final(self).running == old(self).running
                } else {
                    &&& result == Err::<HandshakeResponse, WorkerSupervisorError>(
                        WorkerSupervisorError::IncompatibleProtocol {
                            found: response.capabilities.protocol_version,
                            supported: WORKER_PROTOCOL_VERSION,
                        },
                    )
                    &&& final(self).running is None
                },
                received => {
                    &&& result == Err::<HandshakeResponse, WorkerSupervisorError>(
                        WorkerSupervisorError::InvalidHandshake { received: Box::new(received) },
                    )
                    &&& final(self).running == old(self).running
                },
            },
    {
        match message {
            WorkerMessage::HandshakeResponse(response) => {
                if response.capabilities.protocol_version != WORKER_PROTOCOL_VERSION {
                    self.stop();
                    return Err(
                        WorkerSupervisorError::IncompatibleProtocol {
                            found: response.capabilities.protocol_version,
                            supported: WORKER_PROTOCOL_VERSION,
                        },
                    );
                }
                Ok(response)
            },
            received => Err(WorkerSupervisorError::InvalidHandshake { received: Box::new(received) }),
        }
    }
}

/// The protocol error code of a failure, and whether retrying can help.
pub open spec fn failure_code(error: WorkerSupervisorError) -> (WorkerErrorCode, bool) {
    match error {
        WorkerSupervisorError::TimedOut { .. } => (WorkerErrorCode::AnalysisFailed, true),
        WorkerSupervisorError::Exited => (WorkerErrorCode::AnalysisFailed, true),
        WorkerSupervisorError::IncompatibleProtocol { .. } => (
            WorkerErrorCode::IncompatibleProtocolVersion,
            false,
        ),
        _ => (WorkerErrorCode::Internal, false),
    }
}

/// The part of a second in a number of milliseconds, as decimals without
/// trailing zeros.
pub open spec fn decimals_text(millis: nat) -> Seq<char> {
    let hundreds = text::digit_char((millis / 100) as int);
    let tens = text::digit_char((millis / 10 % 10) as int);
    let ones = text::digit_char((millis % 10) as int);
    if millis == 0 {
        Seq::empty()
    } else if millis % 100 == 0 {
        seq!['.', hundreds]
    } else if millis % 10 == 0 {
        seq!['.', hundreds, tens]
    } else {
        seq!['.', hundreds, tens, ones]
    }
}

/// A time as it is shown: in seconds from one second on, else in milliseconds.
pub open spec fn duration_text(millis: nat) -> Seq<char> {
    if millis == 0 {
        "0ns"@
    } else if millis < 1000 {
        text::decimal_text(millis) + "ms"@
    } else {
        text::decimal_text(millis / 1000) + decimals_text(millis % 1000) + "s"@
    }
}

fn decimals(millis: u64) -> (result: String)
    requires
        millis < 1000,
    ensures
        result@ == decimals_text(millis as nat),
{
    let mut out = String::new();
    if millis != 0 {
        out.push('.');
        out.push(text::digit((millis / 100) as u8));
        if millis % 100 != 0 {
            out.push(text::digit((millis / 10 % 10) as u8));
        }
        if millis % 10 != 0 {
            out.push(text::digit((millis % 10) as u8));
        }
    }
    assert(out@ =~= decimals_text(millis as nat));
    out
}

fn duration(millis: u64) -> (result: String)
    ensures
        result@ == duration_text(millis as nat),
{
    if millis == 0 {
        "0ns".to_owned()
    } else if millis < 1000 {
        let mut out = text::decimal(millis);
        push(&mut out, "ms");
        out
    } else {
        let mut out = text::decimal(millis / 1000);
        push(&mut out, decimals(millis % 1000).as_str());
        push(&mut out, "s");
        out
    }
}

/// What is said about a failure.
pub open spec fn error_text(error: WorkerSupervisorError) -> Seq<char> {
    match error {
        WorkerSupervisorError::Start { program, source } => "failed to start worker "@ + program@
            + ": "@ + source@,
        WorkerSupervisorError::Frame(error) => "worker pipe framing failed: "@
            + error.message_text(),
        WorkerSupervisorError::InvalidResponse(error) => {
            "worker emitted an invalid protobuf envelope: "@ + error@
        },
        WorkerSupervisorError::TimedOut { timeout_millis } => "worker did not respond within "@
            + duration_text(timeout_millis as nat),
        WorkerSupervisorError::Exited => "worker exited before a response was available"@,
        WorkerSupervisorError::RequestIdMismatch { expected, received } => {
            "worker response request ID "@ + shown::quoted(received@)
                + " does not match request "@ + shown::quoted(expected@)
        },
        WorkerSupervisorError::DuplicateRequestId { request_id } => "request ID "@ + shown::quoted(
            request_id@,
        ) + " has already been used by this worker process"@,
        WorkerSupervisorError::IncompatibleProtocol { found, supported } => {
            "worker response uses incompatible protocol "@ + text::decimal_text(found as nat)
                + "; supported protocol is "@ + text::decimal_text(supported as nat)
        },
        WorkerSupervisorError::WorkerReported { error } => "worker reported "@ + error.shown(),
        WorkerSupervisorError::InvalidHandshake { received } => "handshake response had kind "@
            + received.shown() + ", expected handshake_response"@,
    }
}

impl WorkerSupervisorError {
    /// Says why a request failed.
    pub fn message(&self) -> (result: String)
        ensures
            result@ == error_text(*self),
    {
        match self {
            WorkerSupervisorError::Start { program, source } => {
                let mut out = "failed to start worker ".to_owned();
                push(&mut out, program.as_str());
                push(&mut out, ": ");
                push(&mut out, source.as_str());
                out
            },
            WorkerSupervisorError::Frame(error) => {
                let mut out = "worker pipe framing failed: ".to_owned();
                push(&mut out, error.message().as_str());
                out
            },
            WorkerSupervisorError::InvalidResponse(error) => {
                let mut out = "worker emitted an invalid protobuf envelope: ".to_owned();
                push(&mut out, error.as_str());
                out
            },
            WorkerSupervisorError::TimedOut { timeout_millis } => {
                let mut out = "worker did not respond within ".to_owned();
                push(&mut out, duration(*timeout_millis).as_str());
                out
            },
            WorkerSupervisorError::Exited => {
                "worker exited before a response was available".to_owned()
            },
            WorkerSupervisorError::RequestIdMismatch { expected, received } => {
                let mut out = "worker response request ID ".to_owned();
                push(&mut out, quote(received.as_str()).as_str());
                push(&mut out, " does not match request ");
                push(&mut out, quote(expected.as_str()).as_str());
                out
            },
            WorkerSupervisorError::DuplicateRequestId { request_id } => {
                let mut out = "request ID ".to_owned();
                push(&mut out, quote(request_id.as_str()).as_str());
                push(&mut out, " has already been used by this worker process");
                out
            },
            WorkerSupervisorError::IncompatibleProtocol { found, supported } => {
                let mut out = "worker response uses incompatible protocol ".to_owned();
                push(&mut out, text::decimal(*found as u64).as_str());
                push(&mut out, "; supported protocol is ");
                push(&mut out, text::decimal(*supported as u64).as_str());
                out
            },
            WorkerSupervisorError::WorkerReported { error } => {
                let mut out = "worker reported ".to_owned();
                push(&mut out, error.show().as_str());
                out
            },
            WorkerSupervisorError::InvalidHandshake { received } => {
                let mut out = "handshake response had kind ".to_owned();
                push(&mut out, received.show().as_str());
                push(&mut out, ", expected handshake_response");
                out
            },
        }
    }
}

/// Converts a failure into the error envelope of the protocol, with what is
/// said about it.
pub fn supervisor_error_envelope<T: IntoText>(request_id: T, error: WorkerSupervisorError) -> (
    result: WorkerEnvelope)
    ensures
        result.protocol_version == WORKER_PROTOCOL_VERSION,
        result.request_id@ == request_id.text(),
        result.message matches WorkerMessage::Error(reported) && {
            &&& reported.code == failure_code(error).0
            &&& reported.message@ == error_text(error)
            &&& reported.retryable == failure_code(error).1
            &&& reported.supported_protocol_version == WORKER_PROTOCOL_VERSION
            &&& reported.received_protocol_version is None
        },
{
    let message = error.message();
    let (code, retryable) = match error {
        WorkerSupervisorError::TimedOut { .. } => (WorkerErrorCode::AnalysisFailed, true),
        WorkerSupervisorError::Exited => (WorkerErrorCode::AnalysisFailed, true),
        WorkerSupervisorError::IncompatibleProtocol { .. } => (
            WorkerErrorCode::IncompatibleProtocolVersion,
            false,
        ),
        _ => (WorkerErrorCode::Internal, false),
    };
    WorkerEnvelope::new(
        request_id,
        WorkerMessage::Error(
            WorkerError {
                code,
                message,
                retryable,
                supported_protocol_version: WORKER_PROTOCOL_VERSION,
                received_protocol_version: None,
            },
        ),
    )
}

/// The level at which a line of a worker's log is passed on.
#[derive(Debug, Clone, Copy, PartialEq, Eq, Structural)]
pub enum LogLevel {
    Error,
    Warn,
    Info,
    Debug,
}

/// Whether a text stands in another.
pub open spec fn holds(s: Seq<char>, part: Seq<char>) -> bool {
    exists|i: int| #[trigger] holds_at(s, part, i)
}

/// Whether a text stands in another at an index.
pub open spec fn holds_at(s: Seq<char>, part: Seq<char>, i: int) -> bool {
    0 <= i && i + part.len() <= s.len() && s.subrange(i, i + part.len()) == part
}

fn does_hold(chars: &[char], part: &str) -> (result: bool)
    ensures
        result == holds(chars@, part@),
{
    let wanted = text::chars_of(part);
    let len: usize = chars.len();
    let width: usize = wanted.len();
    if width > len {
        return false;
    }
    let mut i: usize = 0;
    while i <= len - width
        invariant
            wanted@ == part@,
            len == chars@.len(),
            width == part@.len(),
            width <= len,
            i <= len - width + 1,
            forall|j: int| 0 <= j < i ==> !#[trigger] holds_at(chars@, part@, j),
        decreases len - width + 1 - i,
    {
        let mut k: usize = 0;
        let mut same: bool = true;
        while k < width && same
            invariant
                wanted@ == part@,
                len == chars@.len(),
                width == part@.len(),
                width <= len,
                i <= len - width,
                k <= width,
                same ==> forall|m: int| 0 <= m < k ==> chars@[i + m] == #[trigger] part@[m],
                !same ==> exists|m: int| 0 <= m < width && chars@[i + m] != #[trigger] part@[m],
            decreases width - k,
        {
            if chars[i + k] != wanted[k] {
                same = false;
                assert(chars@[i + k] != part@[k as int]);
            }
            k = k + 1;
        }
        if same {
            assert(chars@.subrange(i as int, i + width) =~= part@);
            assert(holds_at(chars@, part@, i as int));
            return true;
        }
        proof {
            let m = choose|m: int| 0 <= m < width && chars@[i + m] != #[trigger] part@[m];
            if holds_at(chars@, part@, i as int) {
                assert(chars@.subrange(i as int, i + width)[m] == part@[m]);
            }
        }
        if i == len - width {
            return false;
        }
        i = i + 1;
    }
    false
}

/// The level that a line states, white space at its end left out; the most
/// severe, where it states several.
pub open spec fn line_level(line: Seq<char>) -> LogLevel {
    let message = position::trimmed_end(line);
    if holds(message, " ERROR "@) {
        LogLevel::Error
    } else if holds(message, " WARN "@) {
        LogLevel::Warn
    } else if holds(message, " INFO "@) {
        LogLevel::Info
    } else {
        LogLevel::Debug
    }
}

/// Computes `line_level`.
pub fn log_level(line: &str) -> (result: LogLevel)
    ensures
        result == line_level(line@),
{
    let chars = text::chars_of(line);
    let mut end: usize = chars.len();
    assert(chars@.take(end as int) =~= line@);
    while end > 0 && position::white_space(chars[end - 1])
        invariant
            end <= chars@.len(),
            position::trimmed_end(line@) == position::trimmed_end(chars@.take(end as int)),
        decreases end,
    {
        assert(chars@.take(end as int).drop_last() =~= chars@.take(end - 1));
        end = end - 1;
    }
    let message = &chars[0..end];
    assert(message@ =~= chars@.take(end as int));
    if does_hold(message, " ERROR ") {
        LogLevel::Error
    } else if does_hold(message, " WARN ") {
        LogLevel::Warn
    } else if does_hold(message, " INFO ") {
        LogLevel::Info
    } else {
        LogLevel::Debug
    }
}

/// A worker is given up for idleness exactly where the time since its last
/// activity has reached the limit of its launch.
pub proof fn law_idle_workers_are_given_up(
    supervisor: &mut WorkerSupervisor,
    now: u64,
    reaped: bool,
)
    requires
        old(supervisor).wf(),
        call_ensures(WorkerSupervisor::reap_idle, (supervisor, now), reaped),
    ensures
        old(supervisor).running is None ==> !reaped,
        old(supervisor).running is Some && now >= old(supervisor).running->0@.last_activity ==> (
        reaped <==> now - old(supervisor).running->0@.last_activity
            >= old(supervisor).launch.idle_timeout_millis),
        old(supervisor).running is Some && now < old(supervisor).running->0@.last_activity
            && old(supervisor).launch.idle_timeout_millis > 0 ==> !reaped,
        reaped ==> final(supervisor).running is None,
        !reaped ==> final(supervisor).running == old(supervisor).running,
        final(supervisor).starts == old(supervisor).starts,
{
}

/// Before a request of the supported protocol a process is started exactly where
/// none is left running: none was, it exited, or it was idle for too long. Only
/// an idle one is stopped. A request of another protocol is refused.
pub proof fn law_processes_are_started_on_demand(
    supervisor: &mut WorkerSupervisor,
    protocol_version: u32,
    now: u64,
    exited: bool,
    result: Result<Preparation, WorkerSupervisorError>,
)
    requires
        old(supervisor).wf(),
        old(supervisor).running is Some ==> now >= old(supervisor).running->0@.last_activity,
        call_ensures(
            WorkerSupervisor::prepare,
            (supervisor, protocol_version, now, exited),
            result,
        ),
    ensures
        result is Ok <==> protocol_version == WORKER_PROTOCOL_VERSION,
        result is Err ==> result->Err_0 is IncompatibleProtocol
            && result->Err_0->IncompatibleProtocol_found == protocol_version
            && final(supervisor).running == old(supervisor).running,
        ({
            let idle = old(supervisor).running is Some && now
                - old(supervisor).running->0@.last_activity
                >= old(supervisor).launch.idle_timeout_millis;
            result is Ok ==> {
                &&& result->Ok_0.stop <==> idle
                &&& result->Ok_0.start <==> old(supervisor).running is None || exited || idle
                &&& result->Ok_0.start <==> final(supervisor).running is None
                &&& final(supervisor).starts == old(supervisor).starts
            }
        }),
{
}

/// A process sees every request id at most once: the first use is registered,
/// a second one is refused, and other ids stay free.
pub proof fn law_request_ids_are_used_once(
    supervisor: &mut WorkerSupervisor,
    request_id: &str,
    now: u64,
    result: Result<(), WorkerSupervisorError>,
    other: Seq<char>,
)
    requires
        old(supervisor).wf(),
        old(supervisor).running is Some,
        call_ensures(WorkerSupervisor::register, (supervisor, request_id, now), result),
    ensures
        result is Err <==> old(supervisor).running->0@.request_ids.contains(request_id@),
        final(supervisor).running is Some,
        final(supervisor).running->0@.request_ids.contains(request_id@),
        other != request_id@ ==> (final(supervisor).running->0@.request_ids.contains(other)
            <==> old(supervisor).running->0@.request_ids.contains(other)),
        result is Ok ==> final(supervisor).running->0@.last_activity == now,
{
}

/// A reply is handed out exactly where it is an envelope of the supported
/// protocol with the id of the request that reports no error. A broken or
/// missing reply, or one to another request, ends the worker; a reported error
/// or a reply that cannot be decoded does not.
pub proof fn law_only_the_answer_to_the_request_is_handed_out(
    supervisor: &mut WorkerSupervisor,
    request_id: &str,
    reply: WorkerReply,
    now: u64,
    result: Result<WorkerEnvelope, WorkerSupervisorError>,
)
    requires
        old(supervisor).wf(),
        call_ensures(WorkerSupervisor::accept, (supervisor, request_id, reply, now), result),
    ensures
        result is Ok <==> reply is Envelope && reply->Envelope_0.protocol_version
            == WORKER_PROTOCOL_VERSION && reply->Envelope_0.request_id@ == request_id@ && !(
        reply->Envelope_0.message is Error),
        result is Ok ==> result->Ok_0 == reply->Envelope_0,
        reply is BrokenFrame || reply is Disconnected || reply is TimedOut ==> final(supervisor).running is None,
        reply is Envelope && reply->Envelope_0.request_id@ != request_id@ ==> final(supervisor).running is None,
        reply is Envelope && reply->Envelope_0.protocol_version != WORKER_PROTOCOL_VERSION
            ==> final(supervisor).running is None && result->Err_0 is IncompatibleProtocol,
        result is Ok || reply is Undecodable || (reply is Envelope
            && reply->Envelope_0.protocol_version == WORKER_PROTOCOL_VERSION
            && reply->Envelope_0.request_id@ == request_id@) ==> (final(supervisor).running is Some <==> old(supervisor).running is Some),
        reply is TimedOut ==> result->Err_0 is TimedOut,
        reply is Disconnected ==> result->Err_0 is Exited,
        reply is BrokenFrame ==> result->Err_0 is Frame,
        reply is Undecodable ==> result->Err_0 is InvalidResponse,
{
}

/// A started process counts as one more start and has seen no request.
pub proof fn law_started_process_has_seen_nothing(
    supervisor: &mut WorkerSupervisor,
    now: u64,
    id: Seq<char>,
)
    requires
        old(supervisor).starts < u64::MAX,
        call_ensures(WorkerSupervisor::started, (supervisor, now), ()),
    ensures
        final(supervisor).starts == old(supervisor).starts + 1,
        final(supervisor).running is Some,
        final(supervisor).running->0@.last_activity == now,
        !final(supervisor).running->0@.request_ids.contains(id),
{
}

/// A handshake is accepted exactly where it is a response of the supported
/// protocol; a worker of another protocol is given up.
pub proof fn law_handshake_needs_the_supported_protocol(
    supervisor: &mut WorkerSupervisor,
    message: WorkerMessage,
    result: Result<HandshakeResponse, WorkerSupervisorError>,
)
    requires
        call_ensures(WorkerSupervisor::accept_handshake, (supervisor, message), result),
    ensures
        result is Ok <==> message is HandshakeResponse
            && message->HandshakeResponse_0.capabilities.protocol_version
            == WORKER_PROTOCOL_VERSION,
        result is Ok ==> result->Ok_0 == message->HandshakeResponse_0 && final(supervisor).running
            == old(supervisor).running,
        message is HandshakeResponse && result is Err ==> final(supervisor).running is None
            && result->Err_0 is IncompatibleProtocol,
        !(message is HandshakeResponse) ==> result->Err_0 is InvalidHandshake && final(
            supervisor).running == old(supervisor).running,
{
}

/// A failure is worth a retry exactly where the worker was late or gone.
pub proof fn law_late_and_lost_workers_can_be_retried(
    request_id: String,
    error: WorkerSupervisorError,
    envelope: WorkerEnvelope,
)
    requires
        call_ensures(supervisor_error_envelope::<String>, (request_id, error), envelope),
    ensures
        envelope.protocol_version == WORKER_PROTOCOL_VERSION,
        envelope.request_id@ == request_id@,
        envelope.message is Error,
        envelope.message->Error_0.retryable <==> error is TimedOut || error is Exited,
        envelope.message->Error_0.code == WorkerErrorCode::AnalysisFailed <==> error is TimedOut
            || error is Exited,
        envelope.message->Error_0.code == WorkerErrorCode::IncompatibleProtocolVersion
            <==> error is IncompatibleProtocol,
{
}

/// A line of a worker's log that states an error is passed on as one, whatever
/// else it states; a line that states no level is passed on for debugging.
pub proof fn law_lines_have_the_level_they_state(line: &str, level: LogLevel)
    requires
        call_ensures(log_level, (line,), level),
    ensures
        ({
            let message = position::trimmed_end(line@);
            let states = |word: Seq<char>|
                exists|i: int|
                    0 <= i && i + word.len() <= message.len() && #[trigger] message.subrange(
                        i,
                        i + word.len(),
                    ) == word;
            &&& level is Error <==> states(" ERROR "@)
            &&& level is Warn <==> !states(" ERROR "@) && states(" WARN "@)
            &&& level is Info <==> !states(" ERROR "@) && !states(" WARN "@) && states(
                " INFO "@,
            )
        }),
{
    let message = position::trimmed_end(line@);
    lemma_states(message, " ERROR "@);
    lemma_states(message, " WARN "@);
    lemma_states(message, " INFO "@);
}

proof fn lemma_states(message: Seq<char>, word: Seq<char>)
    ensures
        holds(message, word) <==> exists|i: int|
            0 <= i && i + word.len() <= message.len() && #[trigger] message.subrange(
                i,
                i + word.len(),
            ) == word,
{
    if holds(message, word) {
        let i = choose|i: int| #[trigger] holds_at(message, word, i);
        assert(message.subrange(i, i + word.len()) == word);
    }
    if exists|i: int|
        0 <= i && i + word.len() <= message.len() && #[trigger] message.subrange(
            i,
            i + word.len(),
        ) == word {
        let i = choose|i: int|
            0 <= i && i + word.len() <= message.len() && #[trigger] message.subrange(
                i,
                i + word.len(),
            ) == word;
        assert(holds_at(message, word, i));
    }
}

} // verus!
