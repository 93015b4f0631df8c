//! The service supervisor: service life cycle, restart policy, timeouts,
//! shutdown, boot gates and bounded, sequence-numbered logs.
use std::collections::VecDeque;
use vstd::prelude::*;
use crate::config::{
    InitConfig, InitSpec, LogLevel, Readiness, RestartPolicy, ServiceConfig, ServiceKind,
    ServiceSpec, ShutdownConfig, ShutdownTimeoutAction, Signal, StorageFailureAction,
    TimeoutAction, level_rank,
};
use crate::names::{has_name, names_sorted, position, lemma_position_bounds};
use crate::parse::envs_sorted;
use crate::render::{
    level_name, opt_code_text, opt_number_text, push_level_name, push_opt_code, push_opt_number,
    push_signal_name, signal_name,
};
use crate::text::{
    chars_of, chars_of_string, decimal, push_all, push_decimal, push_padded_decimal,
    push_signed_decimal, push_str, signed_decimal, string_of, zero_pad,
};

verus! {

broadcast use vstd::std_specs::vecdeque::group_vec_dequeue_axioms;

/// The handle a process backend gives a child it started.
pub type ChildHandle = u64;

/// How a child ended: an exit code, or the signal that ended it.
#[derive(Debug, Clone, Copy, PartialEq, Eq, Structural)]
pub struct ChildExit {
    pub code: Option<i32>,
    pub signal: Option<u32>,
}

/// A child that exited with code 0 and was not signalled.
pub open spec fn exit_succeeded(e: ChildExit) -> bool {
    e.code == Some(0i32) && e.signal is None
}

impl ChildExit {
    /// An exit with a code.
    pub fn code(code: i32) -> (e: Self)
        ensures
            e.code == Some(code),
            e.signal is None,
    {
        ChildExit { code: Some(code), signal: None }
    }

    /// An end by a signal.
    pub fn signal(signal: u32) -> (e: Self)
        ensures
            e.code is None,
            e.signal == Some(signal),
    {
        ChildExit { code: None, signal: Some(signal) }
    }

    /// A successful exit.
    pub fn success() -> (e: Self)
        ensures
            e.code == Some(0i32),
            e.signal is None,
    {
        ChildExit { code: Some(0), signal: None }
    }

    /// The exit was successful.
    pub fn is_success(self) -> (b: bool)
        ensures
            b == exit_succeeded(self),
    {
        match self.code {
            Some(c) => c == 0 && self.signal.is_none(),
            None => false,
        }
    }
}

/// Why a process backend refused a request.
#[derive(Debug, Clone, PartialEq, Eq)]
pub enum SpawnError {
    Unavailable,
    Invalid(String),
}

/// A backend error with its text as characters.
pub enum SpawnFault {
    Unavailable,
    Invalid(Seq<char>),
}

impl View for SpawnError {
    type V = SpawnFault;

    open spec fn view(&self) -> SpawnFault {
        match self {
            SpawnError::Unavailable => SpawnFault::Unavailable,
            SpawnError::Invalid(s) => SpawnFault::Invalid(s@),
        }
    }
}

/// The text that describes a backend error.
pub open spec fn spawn_error_message(e: SpawnFault) -> Seq<char> {
    match e {
        SpawnFault::Unavailable => "process backend unavailable"@,
        SpawnFault::Invalid(s) => "invalid process request: "@ + s,
    }
}

impl SpawnError {
    /// The message that describes the error.
    pub fn message(&self) -> (m: String)
        ensures
            m@ == spawn_error_message(self@),
    {
        let mut out: Vec<char> = Vec::new();
        push_spawn_error(&mut out, self);
        string_of(&out)
    }
}

/// Appends the message of a backend error.
pub fn push_spawn_error(out: &mut Vec<char>, e: &SpawnError)
    ensures
        final(out)@ == old(out)@ + spawn_error_message(e@),
{
    match e {
        SpawnError::Unavailable => push_str(out, "process backend unavailable"),
        SpawnError::Invalid(s) => {
            push_str(out, "invalid process request: ");
            crate::text::push_string(out, s);
            assert(final(out)@ =~= old(out)@ + spawn_error_message(e@));
        },
    }
}

/// An `Invalid` backend error with the given text.
pub fn invalid_request(msg: &Vec<char>) -> (e: SpawnError)
    ensures
        e@ == SpawnFault::Invalid(msg@),
{
    SpawnError::Invalid(string_of(msg))
}

/// Access to the target's processes: spawn, signal, poll, reap. Users
/// implement it for their target; `log` models the requests made to it and
/// its answers, so that the supervisor's contracts can say which calls it
/// makes and what it does with each answer. The number of orphans reaped is
/// not logged: the default `reap_orphans` keeps no state to log it in.
pub trait ProcessBackend {
    /// What has been asked of the backend and what it answered, oldest
    /// first.
    spec fn log(&self) -> BackendLog;

    /// Starts a child for a service.
    fn spawn(&mut self, name: &str, config: &ServiceConfig) -> (r: Result<ChildHandle, SpawnError>)
        ensures
            final(self).log() == (BackendLog {
                spawns: old(self).log().spawns.push((name@, config@)),
                spawn_answers: old(self).log().spawn_answers.push(spawn_outcome(r)),
                ..old(self).log()
            }),
    ;

    /// Sends a signal to a child.
    fn signal(&mut self, child: ChildHandle, signal: Signal) -> (r: Result<(), SpawnError>)
        ensures
            final(self).log() == (BackendLog {
                signals: old(self).log().signals.push((child, signal)),
                signal_answers: old(self).log().signal_answers.push(request_outcome(r)),
                ..old(self).log()
            }),
    ;

    /// The children that exited since the last poll, with how they ended.
    fn poll(&mut self) -> (r: Vec<(ChildHandle, ChildExit)>)
        ensures
            final(self).log() == (BackendLog { polls: old(self).log().polls.push(r@), ..old(self).log() }),
    ;

    /// Reaps orphaned children and gives their number; a backend that does
    /// not reap orphans reaps none.
    fn reap_orphans(&mut self) -> (n: u32)
        ensures
            final(self).log() == old(self).log(),
        default_ensures
            n == 0,
    {
        0
    }
}

/// The requests made to a process backend and its answers, oldest first.
#[verifier::ext_equal]
pub struct BackendLog {
    /// Spawn requests: the service name and its configuration.
    pub spawns: Seq<(Seq<char>, ServiceSpec)>,
    /// The answer to each spawn request.
    pub spawn_answers: Seq<Result<u64, SpawnFault>>,
    /// Signal requests: the child and the signal.
    pub signals: Seq<(u64, Signal)>,
    /// The answer to each signal request.
    pub signal_answers: Seq<Result<(), SpawnFault>>,
    /// The exits each poll reported.
    pub polls: Seq<Seq<(u64, ChildExit)>>,
}

/// A log with signal requests and their answers added.
pub open spec fn log_signals(
    l: BackendLog,
    signals: Seq<(u64, Signal)>,
    answers: Seq<Result<(), SpawnFault>>,
) -> BackendLog {
    BackendLog { signals: l.signals + signals, signal_answers: l.signal_answers + answers, ..l }
}

/// A log with spawn requests and their answers added.
pub open spec fn log_spawns(
    l: BackendLog,
    spawns: Seq<(Seq<char>, ServiceSpec)>,
    answers: Seq<Result<u64, SpawnFault>>,
) -> BackendLog {
    BackendLog { spawns: l.spawns + spawns, spawn_answers: l.spawn_answers + answers, ..l }
}

/// Where a service stands in its life cycle.
#[derive(Debug, Clone, Copy, PartialEq, Eq, Structural)]
pub enum ServiceState {
    Defined,
    Starting,
    Ready,
    Running,
    Stopping,
    Backoff,
    Stopped,
    Completed,
    Failed,
    Blocked,
}

/// How a service state is printed.
pub open spec fn state_name(state: ServiceState) -> Seq<char> {
    match state {
        ServiceState::Defined => "Defined"@,
        ServiceState::Starting => "Starting"@,
        ServiceState::Ready => "Ready"@,
        ServiceState::Running => "Running"@,
        ServiceState::Stopping => "Stopping"@,
        ServiceState::Backoff => "Backoff"@,
        ServiceState::Stopped => "Stopped"@,
        ServiceState::Completed => "Completed"@,
        ServiceState::Failed => "Failed"@,
        ServiceState::Blocked => "Blocked"@,
    }
}

/// Appends the name of a service state.
pub fn push_state_name(out: &mut Vec<char>, state: ServiceState)
    ensures
        final(out)@ == old(out)@ + state_name(state),
{
    match state {
        ServiceState::Defined => push_str(out, "Defined"),
        ServiceState::Starting => push_str(out, "Starting"),
        ServiceState::Ready => push_str(out, "Ready"),
        ServiceState::Running => push_str(out, "Running"),
        ServiceState::Stopping => push_str(out, "Stopping"),
        ServiceState::Backoff => push_str(out, "Backoff"),
        ServiceState::Stopped => push_str(out, "Stopped"),
        ServiceState::Completed => push_str(out, "Completed"),
        ServiceState::Failed => push_str(out, "Failed"),
        ServiceState::Blocked => push_str(out, "Blocked"),
    }
}

/// A service that dependents and boot gates may rely on.
pub open spec fn is_up(state: ServiceState) -> bool {
    state == ServiceState::Ready || state == ServiceState::Running || state
        == ServiceState::Completed
}

/// A service that has a child in the supervisor's hands.
pub open spec fn is_live(state: ServiceState) -> bool {
    state == ServiceState::Starting || state == ServiceState::Ready || state
        == ServiceState::Running || state == ServiceState::Stopping
}

fn state_is_up(state: ServiceState) -> (b: bool)
    ensures
        b == is_up(state),
{
    match state {
        ServiceState::Ready | ServiceState::Running | ServiceState::Completed => true,
        _ => false,
    }
}

fn state_is_live(state: ServiceState) -> (b: bool)
    ensures
        b == is_live(state),
{
    match state {
        ServiceState::Starting | ServiceState::Ready | ServiceState::Running
        | ServiceState::Stopping => true,
        _ => false,
    }
}

/// Whether the system is going down for good or coming back.
#[derive(Debug, Clone, Copy, PartialEq, Eq, Structural)]
pub enum ShutdownMode {
    Shutdown,
    Reboot,
}

/// The name of a shutdown mode.
pub open spec fn mode_name(mode: ShutdownMode) -> Seq<char> {
    match mode {
        ShutdownMode::Shutdown => "Shutdown"@,
        ShutdownMode::Reboot => "Reboot"@,
    }
}

/// One log record.
#[derive(Debug, Clone, PartialEq, Eq)]
pub struct LogRecord {
    pub sequence: u64,
    pub timestamp_ms: u64,
    pub service: String,
    pub level: LogLevel,
    pub event: String,
    pub detail: String,
}

/// A log record with its texts as characters.
pub struct LogEntry {
    pub sequence: u64,
    pub timestamp_ms: u64,
    pub service: Seq<char>,
    pub level: LogLevel,
    pub event: Seq<char>,
    pub detail: Seq<char>,
}

impl View for LogRecord {
    type V = LogEntry;

    open spec fn view(&self) -> LogEntry {
        LogEntry {
            sequence: self.sequence,
            timestamp_ms: self.timestamp_ms,
            service: self.service@,
            level: self.level,
            event: self.event@,
            detail: self.detail@,
        }
    }
}

/// The line a record is written as: sequence (8 digits), timestamp (12
/// digits), level, service, event and detail, separated by spaces.
pub open spec fn stable_line(r: LogEntry) -> Seq<char> {
    zero_pad(decimal(r.sequence as nat), 8) + " "@ + zero_pad(decimal(r.timestamp_ms as nat), 12)
        + " "@ + level_name(r.level) + " "@ + r.service + " "@ + r.event + " "@ + r.detail
}

impl LogRecord {
    /// The line the record is written as.
    pub fn stable_line(&self) -> (line: String)
        ensures
            line@ == stable_line(self@),
    {
        let out = self.line_chars();
        string_of(&out)
    }

    fn line_chars(&self) -> (out: Vec<char>)
        ensures
            out@ == stable_line(self@),
    {
        let mut out: Vec<char> = Vec::new();
        push_padded_decimal(&mut out, self.sequence, 8);
        push_str(&mut out, " ");
        push_padded_decimal(&mut out, self.timestamp_ms, 12);
        push_str(&mut out, " ");
        push_level_name(&mut out, self.level);
        push_str(&mut out, " ");
        crate::text::push_string(&mut out, &self.service);
        push_str(&mut out, " ");
        crate::text::push_string(&mut out, &self.event);
        push_str(&mut out, " ");
        crate::text::push_string(&mut out, &self.detail);
        out
    }
}

/// How a service's last child ended.
#[derive(Debug, Clone, Copy, PartialEq, Eq, Structural)]
pub struct ExitCause {
    pub code: Option<i32>,
    pub signal: Option<u32>,
}

/// Why a stop was begun.
#[derive(Debug, Clone, Copy, PartialEq, Eq, Structural)]
pub enum StopReason {
    Manual,
    Timeout,
}

/// What the supervisor tracks of one service.
#[derive(Debug, Clone, Copy, PartialEq, Eq, Structural)]
pub struct ServiceRuntime {
    pub state: ServiceState,
    pub child: Option<ChildHandle>,
    pub started_at_ms: u64,
    pub restart_count: u32,
    pub next_start_ms: u64,
    pub last_exit: Option<ExitCause>,
    pub stop_reason: Option<StopReason>,
    pub stop_deadline_ms: Option<u64>,
    pub stop_escalated: bool,
    pub restart_after_stop: bool,
}

/// A service before anything happened to it.
pub open spec fn fresh_runtime() -> ServiceRuntime {
    ServiceRuntime {
        state: ServiceState::Defined,
        child: None,
        started_at_ms: 0,
        restart_count: 0,
        next_start_ms: 0,
        last_exit: None,
        stop_reason: None,
        stop_deadline_ms: None,
        stop_escalated: false,
        restart_after_stop: false,
    }
}

impl Default for ServiceRuntime {
    /// A service before anything happened to it.
    fn default() -> (rt: Self)
        ensures
            rt == fresh_runtime(),
    {
        ServiceRuntime {
            state: ServiceState::Defined,
            child: None,
            started_at_ms: 0,
            restart_count: 0,
            next_start_ms: 0,
            last_exit: None,
            stop_reason: None,
            stop_deadline_ms: None,
            stop_escalated: false,
            restart_after_stop: false,
        }
    }
}

/// Everything the supervisor holds, with texts as characters.
pub struct SupervisorState {
    pub config: InitSpec,
    pub runtimes: Seq<ServiceRuntime>,
    pub manual_starts: Seq<bool>,
    pub logs: Seq<LogEntry>,
    pub serial: Seq<Seq<char>>,
    pub sequence: u64,
    pub now_ms: u64,
    pub log_level: LogLevel,
    pub retention: usize,
    pub serial_fallback: bool,
    pub storage_available: bool,
    pub shutdown: Option<ShutdownMode>,
    pub shutdown_started_at_ms: u64,
    pub shutdown_escalated: bool,
}

/// Every dependency and every boot gate names a defined service.
pub open spec fn links_resolved(c: InitSpec) -> bool {
    &&& forall|i: int, j: int|
        0 <= i < c.services.len() && 0 <= j < c.services[i].1.dependencies.len() ==> has_name(
            c.services,
            #[trigger] c.services[i].1.dependencies[j],
        )
    &&& forall|j: int| 0 <= j < c.boot.mounts.len() ==> has_name(c.services, #[trigger] c.boot.mounts[j])
    &&& forall|j: int|
        0 <= j < c.boot.devices.len() ==> has_name(c.services, #[trigger] c.boot.devices[j])
    &&& forall|j: int|
        0 <= j < c.boot.logging.len() ==> has_name(c.services, #[trigger] c.boot.logging[j])
}

/// The last `n` items of `q`.
pub open spec fn keep_last<T>(q: Seq<T>, n: nat) -> Seq<T> {
    if q.len() > n {
        q.skip(q.len() - n)
    } else {
        q
    }
}

/// Record sequence numbers increase, except once they have saturated.
pub open spec fn sequences_increase(logs: Seq<LogEntry>) -> bool {
    forall|i: int, j: int|
        0 <= i < j < logs.len() ==> logs[i].sequence < logs[j].sequence || logs[i].sequence
            == u64::MAX
}

/// The invariant of the supervisor.
pub open spec fn state_wf(s: SupervisorState) -> bool {
    &&& names_sorted(s.config.services)
    &&& names_sorted(s.config.environment)
    &&& envs_sorted(s.config.services)
    &&& s.runtimes.len() == s.config.services.len()
    &&& s.manual_starts.len() == s.config.services.len()
    &&& s.retention == s.config.logging.retention
    &&& s.serial_fallback == s.config.logging.serial_fallback
    &&& s.logs.len() <= s.retention
    &&& s.serial.len() <= s.retention
    &&& sequences_increase(s.logs)
    &&& forall|i: int| 0 <= i < s.logs.len() ==> #[trigger] s.logs[i].sequence <= s.sequence
    &&& forall|i: int|
        0 <= i < s.runtimes.len() ==> #[trigger] s.runtimes[i].restart_count
            <= s.config.services[i].1.max_restarts
    &&& forall|i: int|
        0 <= i < s.runtimes.len() ==> is_live(#[trigger] s.runtimes[i].state)
            ==> s.runtimes[i].child is Some
}

/// The supervisor right after it was given a configuration.
pub open spec fn initial_state(c: InitSpec) -> SupervisorState {
    SupervisorState {
        config: c,
        runtimes: Seq::new(c.services.len(), |i: int| fresh_runtime()),
        manual_starts: Seq::new(c.services.len(), |i: int| false),
        logs: Seq::empty(),
        serial: Seq::empty(),
        sequence: 0,
        now_ms: 0,
        log_level: c.logging.level,
        retention: c.logging.retention,
        serial_fallback: c.logging.serial_fallback,
        storage_available: true,
        shutdown: None,
        shutdown_started_at_ms: 0,
        shutdown_escalated: false,
    }
}

/// What recording an event does: nothing when the level is filtered out;
/// otherwise the next sequence number, and the record kept in memory (and
/// its line on serial when serial fallback is on) while storage is
/// available, or only its line on serial (by the storage policy) while it
/// is not, where the halt policy also requests a shutdown.
pub open spec fn spec_record(
    s: SupervisorState,
    service: Seq<char>,
    level: LogLevel,
    event: Seq<char>,
    detail: Seq<char>,
) -> SupervisorState {
    if level_rank(level) > level_rank(s.log_level) {
        s
    } else {
        let sequence = if s.sequence == u64::MAX {
            u64::MAX
        } else {
            (s.sequence + 1) as u64
        };
        let rec = LogEntry {
            sequence,
            timestamp_ms: s.now_ms,
            service,
            level,
            event,
            detail,
        };
        let line = stable_line(rec);
        if !s.storage_available {
            let policy = s.config.logging.on_storage_unavailable;
            let write_serial = match policy {
                StorageFailureAction::Continue => s.serial_fallback,
                _ => true,
            };
            SupervisorState {
                sequence,
                serial: if write_serial {
                    keep_last(s.serial.push(line), s.retention as nat)
                } else {
                    s.serial
                },
                shutdown: if policy == StorageFailureAction::Halt && s.shutdown is None {
                    Some(ShutdownMode::Shutdown)
                } else {
                    s.shutdown
                },
                ..s
            }
        } else {
            SupervisorState {
                sequence,
                logs: keep_last(s.logs.push(rec), s.retention as nat),
                serial: if s.serial_fallback {
                    keep_last(s.serial.push(line), s.retention as nat)
                } else {
                    s.serial
                },
                ..s
            }
        }
    }
}

/// The position of a service by name.
pub open spec fn service_index(s: SupervisorState, name: Seq<char>) -> int {
    position(s.config.services, name)
}

/// The state of the named service.
pub open spec fn spec_state(s: SupervisorState, name: Seq<char>) -> Option<ServiceState> {
    let i = service_index(s, name);
    if 0 <= i < s.runtimes.len() {
        Some(s.runtimes[i].state)
    } else {
        None
    }
}

/// Storage is available and every boot gate is up.
pub open spec fn spec_boot_ready(s: SupervisorState) -> bool {
    let gates = s.config.boot.mounts + s.config.boot.devices + s.config.boot.logging;
    &&& s.storage_available
    &&& forall|j: int|
        0 <= j < gates.len() ==> is_up(
            s.runtimes[service_index(s, #[trigger] gates[j])].state,
        )
}

/// Supervises the services of a configuration.
pub struct Supervisor {
    config: InitConfig,
    runtimes: Vec<ServiceRuntime>,
    manual_starts: Vec<bool>,
    logs: VecDeque<LogRecord>,
    serial: VecDeque<String>,
    sequence: u64,
    now_ms: u64,
    log_level: LogLevel,
    retention: usize,
    serial_fallback: bool,
    storage_available: bool,
    shutdown: Option<ShutdownMode>,
    shutdown_started_at_ms: u64,
    shutdown_escalated: bool,
}

impl View for Supervisor {
    type V = SupervisorState;

    closed spec fn view(&self) -> SupervisorState {
        SupervisorState {
            config: self.config@,
            runtimes: self.runtimes@,
            manual_starts: self.manual_starts@,
            logs: self.logs@.map_values(|r: LogRecord| r@),
            serial: self.serial@.map_values(|s: String| s@),
            sequence: self.sequence,
            now_ms: self.now_ms,
            log_level: self.log_level,
            retention: self.retention,
            serial_fallback: self.serial_fallback,
            storage_available: self.storage_available,
            shutdown: self.shutdown,
            shutdown_started_at_ms: self.shutdown_started_at_ms,
            shutdown_escalated: self.shutdown_escalated,
        }
    }
}

fn rank(level: LogLevel) -> (r: u8)
    ensures
        r as int == level_rank(level),
{
    match level {
        LogLevel::Error => 0,
        LogLevel::Warn => 1,
        LogLevel::Notice => 2,
        LogLevel::Debug => 3,
    }
}

/// Drops items from the front until at most `n` are left.
fn trim_front<T>(q: &mut VecDeque<T>, n: usize)
    ensures
        final(q)@ == keep_last(old(q)@, n as nat),
{
    while q.len() > n
        invariant
            old(q)@.len() >= q@.len(),
            q@ == old(q)@.skip(old(q)@.len() - q@.len()),
            q@.len() >= n ==> keep_last(old(q)@, n as nat) == keep_last(q@, n as nat),
            old(q)@.len() > n ==> q@.len() >= n,
            old(q)@.len() <= n ==> q@ == old(q)@,
        decreases q@.len(),
    {
        let ghost before = q@;
        q.pop_front();
        assert(q@ =~= before.skip(1));
        assert(q@ =~= old(q)@.skip(old(q)@.len() - q@.len()));
        assert(keep_last(before, n as nat) =~= keep_last(q@, n as nat));
    }
    assert(keep_last(q@, n as nat) == q@);
}

impl Supervisor {
    /// The supervisor's invariant.
    pub open spec fn wf(&self) -> bool {
        state_wf(self@)
    }

    /// A supervisor for a configuration: every service defined, nothing
    /// started, no logs.
    pub fn new(config: InitConfig) -> (s: Self)
        requires
            config.wf(),
        ensures
            s@ == initial_state(config@),
            s.wf(),
    {
        let n = config.services.len();
        let mut runtimes: Vec<ServiceRuntime> = Vec::new();
        let mut manual_starts: Vec<bool> = Vec::new();
        let mut i: usize = 0;
        while i < n
            invariant
                i <= n,
                runtimes@ == Seq::new(i as nat, |j: int| fresh_runtime()),
                manual_starts@ == Seq::new(i as nat, |j: int| false),
            decreases n - i,
        {
            runtimes.push(ServiceRuntime::default());
            manual_starts.push(false);
            assert(runtimes@ =~= Seq::new((i + 1) as nat, |j: int| fresh_runtime()));
            assert(manual_starts@ =~= Seq::new((i + 1) as nat, |j: int| false));
            i = i + 1;
        }
        let s = Supervisor {
            log_level: config.logging.level,
            retention: config.logging.retention,
            serial_fallback: config.logging.serial_fallback,
            storage_available: true,
            config,
            runtimes,
            manual_starts,
            logs: VecDeque::new(),
            serial: VecDeque::new(),
            sequence: 0,
            now_ms: 0,
            shutdown: None,
            shutdown_started_at_ms: 0,
            shutdown_escalated: false,
        };
        assert(s@.logs =~= Seq::<LogEntry>::empty());
        assert(s@.serial =~= Seq::<Seq<char>>::empty());
        assert(s@ == initial_state(config@));
        s
    }

    /// Records an event.
    fn record(&mut self, service: &Vec<char>, level: LogLevel, event: &str, detail: &Vec<char>)
        requires
            old(self).wf(),
        ensures
            final(self).wf(),
            final(self)@ == spec_record(old(self)@, service@, level, event@, detail@),
    {
        if rank(level) > rank(self.log_level) {
            return ;
        }
        self.sequence = if self.sequence == u64::MAX {
            u64::MAX
        } else {
            self.sequence + 1
        };
        let record = LogRecord {
            sequence: self.sequence,
            timestamp_ms: self.now_ms,
            service: string_of(service),
            level,
            event: event.to_owned(),
            detail: string_of(detail),
        };
        let line = record.stable_line();
        let ghost s0 = old(self)@;
        if !self.storage_available {
            let write_serial = match self.config.logging.on_storage_unavailable {
                StorageFailureAction::Continue => self.serial_fallback,
                _ => true,
            };
            if write_serial {
                let ghost before = self.serial@.map_values(|s: String| s@);
                self.serial.push_back(line);
                assert(self.serial@.map_values(|s: String| s@) =~= before.push(line@));
                let ghost pushed = self.serial@;
                trim_front(&mut self.serial, self.retention);
                assert(self.serial@.map_values(|s: String| s@) =~= keep_last(
                    pushed.map_values(|s: String| s@),
                    self.retention as nat,
                ));
            }
            if self.config.logging.on_storage_unavailable == StorageFailureAction::Halt
                && self.shutdown.is_none() {
                self.shutdown = Some(ShutdownMode::Shutdown);
            }
            proof {
                lemma_bounded_logs(s0, self@);
            }
            return ;
        }
        let ghost logs_before = self.logs@.map_values(|r: LogRecord| r@);
        self.logs.push_back(record);
        assert(self.logs@.map_values(|r: LogRecord| r@) =~= logs_before.push(record@));
        let ghost pushed_logs = self.logs@;
        trim_front(&mut self.logs, self.retention);
        assert(self.logs@.map_values(|r: LogRecord| r@) =~= keep_last(
            pushed_logs.map_values(|r: LogRecord| r@),
            self.retention as nat,
        ));
        if self.serial_fallback {
            let ghost before = self.serial@.map_values(|s: String| s@);
            self.serial.push_back(line);
            assert(self.serial@.map_values(|s: String| s@) =~= before.push(line@));
            let ghost pushed = self.serial@;
            trim_front(&mut self.serial, self.retention);
            assert(self.serial@.map_values(|s: String| s@) =~= keep_last(
                pushed.map_values(|s: String| s@),
                self.retention as nat,
            ));
        }
        proof {
            lemma_bounded_logs(s0, self@);
        }
    }
}

/// Recording keeps the invariant: logs stay within the retention, and
/// sequence numbers keep increasing.
proof fn lemma_bounded_logs(s0: SupervisorState, s1: SupervisorState)
    requires
        state_wf(s0),
        s1.config == s0.config,
        s1.runtimes == s0.runtimes,
        s1.manual_starts == s0.manual_starts,
        s1.retention == s0.retention,
        s1.serial_fallback == s0.serial_fallback,
        s1.sequence == (if s0.sequence == u64::MAX {
            u64::MAX
        } else {
            (s0.sequence + 1) as u64
        }),
        s1.serial == s0.serial || (exists|line: Seq<char>|
            s1.serial == keep_last(#[trigger] s0.serial.push(line), s0.retention as nat)),
        s1.logs == s0.logs || (exists|r: LogEntry|
            r.sequence == s1.sequence && s1.logs == keep_last(
                #[trigger] s0.logs.push(r),
                s0.retention as nat,
            )),
    ensures
        state_wf(s1),
{
    if s1.serial != s0.serial {
        let line = choose|line: Seq<char>|
            s1.serial == keep_last(#[trigger] s0.serial.push(line), s0.retention as nat);
    }
    if s1.logs != s0.logs {
        let r = choose|r: LogEntry|
            r.sequence == s1.sequence && s1.logs == keep_last(
                #[trigger] s0.logs.push(r),
                s0.retention as nat,
            );
        let pushed = s0.logs.push(r);
        assert(sequences_increase(pushed)) by {
            assert forall|i: int, j: int| 0 <= i < j < pushed.len() implies pushed[i].sequence
                < pushed[j].sequence || pushed[i].sequence == u64::MAX by {
                if j == pushed.len() - 1 {
                    assert(pushed[i] == s0.logs[i]);
                    assert(s0.logs[i].sequence <= s0.sequence);
                } else {
                    assert(pushed[i] == s0.logs[i]);
                    assert(pushed[j] == s0.logs[j]);
                }
            }
        }
        let kept = keep_last(pushed, s0.retention as nat);
        assert(sequences_increase(kept)) by {
            if pushed.len() > s0.retention {
                let off = pushed.len() - s0.retention;
                assert forall|i: int, j: int| 0 <= i < j < kept.len() implies kept[i].sequence
                    < kept[j].sequence || kept[i].sequence == u64::MAX by {
                    assert(kept[i] == pushed[i + off]);
                    assert(kept[j] == pushed[j + off]);
                }
            }
        }
        assert forall|i: int| 0 <= i < kept.len() implies #[trigger] kept[i].sequence
            <= s1.sequence by {
            if pushed.len() > s0.retention {
                let off = pushed.len() - s0.retention;
                assert(kept[i] == pushed[i + off]);
                if i + off < s0.logs.len() {
                    assert(pushed[i + off] == s0.logs[i + off]);
                }
            } else {
                if i < s0.logs.len() {
                    assert(pushed[i] == s0.logs[i]);
                }
            }
        }
    } else {
        assert forall|i: int| 0 <= i < s1.logs.len() implies #[trigger] s1.logs[i].sequence
            <= s1.sequence by {
            assert(s1.logs[i] == s0.logs[i]);
        }
    }
}

/// A runtime that may stand at place `i`.
pub open spec fn runtime_ok(s: SupervisorState, i: int, rt: ServiceRuntime) -> bool {
    &&& rt.restart_count <= s.config.services[i].1.max_restarts
    &&& is_live(rt.state) ==> rt.child is Some
}

/// Replacing one runtime (and the manual start mark) keeps the invariant.
pub proof fn lemma_runtime_update(
    s: SupervisorState,
    i: int,
    rt: ServiceRuntime,
    manual: bool,
)
    requires
        state_wf(s),
        0 <= i < s.runtimes.len(),
        runtime_ok(s, i, rt),
    ensures
        state_wf(
            SupervisorState {
                runtimes: s.runtimes.update(i, rt),
                manual_starts: s.manual_starts.update(i, manual),
                ..s
            },
        ),
        state_wf(SupervisorState { runtimes: s.runtimes.update(i, rt), ..s }),
{
    let r = s.runtimes.update(i, rt);
    assert forall|j: int| 0 <= j < r.len() implies #[trigger] r[j].restart_count
        <= s.config.services[j].1.max_restarts by {
        if j != i {
            assert(r[j] == s.runtimes[j]);
        }
    }
    assert forall|j: int| 0 <= j < r.len() && is_live(#[trigger] r[j].state) implies r[j].child is Some by {
        if j != i {
            assert(r[j] == s.runtimes[j]);
        }
    }
}

/// What `start` does: queues a service that is not running for an explicit
/// start.
pub open spec fn spec_start(s: SupervisorState, name: Seq<char>) -> (SupervisorState, Result<
    (),
    SpawnFault,
>) {
    let i = service_index(s, name);
    if !(0 <= i < s.runtimes.len()) {
        (s, Err(SpawnFault::Invalid("unknown service "@ + name)))
    } else {
        let rt = s.runtimes[i];
        if rt.child is Some || is_live(rt.state) {
            (s, Err(SpawnFault::Invalid("service "@ + name + " is already running"@)))
        } else {
            let s1 = SupervisorState {
                manual_starts: s.manual_starts.update(i, true),
                runtimes: s.runtimes.update(
                    i,
                    ServiceRuntime {
                        state: ServiceState::Defined,
                        next_start_ms: s.now_ms,
                        restart_count: 0,
                        ..rt
                    },
                ),
                ..s
            };
            (spec_record(s1, name, LogLevel::Notice, "start"@, "queued"@), Ok(()))
        }
    }
}

/// What `notify_ready` does: a starting service becomes ready.
pub open spec fn spec_notify_ready(s: SupervisorState, name: Seq<char>) -> (
    SupervisorState,
    Result<(), SpawnFault>,
) {
    let i = service_index(s, name);
    if !(0 <= i < s.runtimes.len()) {
        (s, Err(SpawnFault::Invalid("unknown service "@ + name)))
    } else {
        let rt = s.runtimes[i];
        if rt.child is None {
            (s, Err(SpawnFault::Invalid("service "@ + name + " is not running"@)))
        } else if rt.state == ServiceState::Starting {
            let s1 = SupervisorState {
                runtimes: s.runtimes.update(i, ServiceRuntime { state: ServiceState::Ready, ..rt }),
                ..s
            };
            (spec_record(s1, name, LogLevel::Notice, "ready"@, "notification"@), Ok(()))
        } else if rt.state == ServiceState::Ready || rt.state == ServiceState::Running {
            (s, Ok(()))
        } else {
            (
                s,
                Err(
                    SpawnFault::Invalid(
                        "service "@ + name + " cannot become ready from "@ + state_name(rt.state),
                    ),
                ),
            )
        }
    }
}

/// The result of a request, seen as a view.
pub open spec fn request_outcome(r: Result<(), SpawnError>) -> Result<(), SpawnFault> {
    match r {
        Ok(_) => Ok(()),
        Err(e) => Err(e@),
    }
}

/// The status line of one service.
pub open spec fn status_line(name: Seq<char>, rt: ServiceRuntime) -> Seq<char> {
    let code = match rt.last_exit {
        Some(e) => match e.code {
            Some(c) => signed_decimal(c as int),
            None => "-"@,
        },
        None => "-"@,
    };
    let signal = match rt.last_exit {
        Some(e) => match e.signal {
            Some(n) => decimal(n as nat),
            None => "-"@,
        },
        None => "-"@,
    };
    "service="@ + name + " state="@ + state_name(rt.state) + " exit_code="@ + code
        + " exit_signal="@ + signal
}

/// Lines joined by newlines.
pub open spec fn join_lines(lines: Seq<Seq<char>>) -> Seq<char>
    decreases lines.len(),
{
    if lines.len() == 0 {
        Seq::empty()
    } else if lines.len() == 1 {
        lines[0]
    } else {
        join_lines(lines.drop_last()) + "\n"@ + lines.last()
    }
}

/// The status lines of the first `k` services.
pub open spec fn status_lines(s: SupervisorState, k: int) -> Seq<Seq<char>> {
    Seq::new(k as nat, |i: int| status_line(s.config.services[i].0, s.runtimes[i]))
}

/// What `render_status` prints.
pub open spec fn spec_render_status(s: SupervisorState) -> Seq<char> {
    if s.config.services.len() == 0 {
        "no services"@
    } else {
        join_lines(status_lines(s, s.config.services.len() as int))
    }
}

/// The lines of the records that belong to `service` (all records when
/// none is given).
pub open spec fn log_lines(logs: Seq<LogEntry>, service: Option<Seq<char>>) -> Seq<Seq<char>>
    decreases logs.len(),
{
    if logs.len() == 0 {
        Seq::empty()
    } else {
        let rest = log_lines(logs.drop_last(), service);
        match service {
            Some(n) => if logs.last().service == n {
                rest.push(stable_line(logs.last()))
            } else {
                rest
            },
            None => rest.push(stable_line(logs.last())),
        }
    }
}

/// What `render_logs` prints.
pub open spec fn spec_render_logs(s: SupervisorState, service: Option<Seq<char>>) -> Seq<char> {
    let lines = log_lines(s.logs, service);
    if lines.len() == 0 {
        "no logs"@
    } else {
        join_lines(lines)
    }
}

fn push_joined_line(out: &mut Vec<char>, count: usize, line: &Vec<char>)
    ensures
        final(out)@ == if count == 0 {
            old(out)@ + line@
        } else {
            old(out)@ + "\n"@ + line@
        },
{
    if count != 0 {
        push_str(out, "\n");
    }
    push_all(out, line);
}

impl Supervisor {
    /// The state of a service, if it is defined.
    pub fn state(&self, name: &str) -> (r: Option<ServiceState>)
        requires
            self.wf(),
        ensures
            r == spec_state(self@, name@),
    {
        let i = self.config.services.find_str(name);
        if i < self.runtimes.len() {
            Some(self.runtimes[i].state)
        } else {
            None
        }
    }

    /// Every service with its state, in name order.
    pub fn states(&self) -> (r: Vec<(String, ServiceState)>)
        requires
            self.wf(),
        ensures
            r@.len() == self@.runtimes.len(),
            forall|i: int|
                0 <= i < r@.len() ==> (#[trigger] r@[i]).0@ == self@.config.services[i].0
                    && r@[i].1 == self@.runtimes[i].state,
    {
        let mut r: Vec<(String, ServiceState)> = Vec::new();
        let mut i: usize = 0;
        while i < self.runtimes.len()
            invariant
                i <= self.runtimes@.len(),
                self.wf(),
                r@.len() == i,
                forall|j: int|
                    0 <= j < i ==> (#[trigger] r@[j]).0@ == self@.config.services[j].0 && r@[j].1
                        == self@.runtimes[j].state,
            decreases self.runtimes@.len() - i,
        {
            let name = crate::text::copy_string(self.config.services.name_at(i));
            r.push((name, self.runtimes[i].state));
            i = i + 1;
        }
        r
    }

    /// How the last child of a service ended, if it is defined and has
    /// ended.
    pub fn last_exit(&self, name: &str) -> (r: Option<ExitCause>)
        requires
            self.wf(),
        ensures
            r == (if 0 <= service_index(self@, name@) < self@.runtimes.len() {
                self@.runtimes[service_index(self@, name@)].last_exit
            } else {
                None
            }),
    {
        let i = self.config.services.find_str(name);
        if i < self.runtimes.len() {
            self.runtimes[i].last_exit
        } else {
            None
        }
    }

    /// The retained log records, oldest first.
    pub fn logs(&self) -> (r: std::collections::vec_deque::Iter<'_, LogRecord>)
        ensures
            vstd::std_specs::iter::IteratorSpec::remaining(&r).map_values(|x: &LogRecord| x@) == self@.logs,
    {
        let it = self.logs.iter();
        assert(vstd::std_specs::iter::IteratorSpec::remaining(&it).map_values(|x: &LogRecord| x@) =~= self@.logs);
        it
    }

    /// The retained serial lines, oldest first.
    pub fn serial_lines(&self) -> (r: std::collections::vec_deque::Iter<'_, String>)
        ensures
            vstd::std_specs::iter::IteratorSpec::remaining(&r).map_values(|x: &String| x@) == self@.serial,
    {
        let it = self.serial.iter();
        assert(vstd::std_specs::iter::IteratorSpec::remaining(&it).map_values(|x: &String| x@) =~= self@.serial);
        it
    }

    /// The shutdown that has been requested, if any.
    pub fn shutdown_mode(&self) -> (r: Option<ShutdownMode>)
        ensures
            r == self@.shutdown,
    {
        self.shutdown
    }

    /// The level below which events are not recorded.
    pub fn log_level(&self) -> (r: LogLevel)
        ensures
            r == self@.log_level,
    {
        self.log_level
    }

    /// Log storage is available.
    pub fn storage_available(&self) -> (r: bool)
        ensures
            r == self@.storage_available,
    {
        self.storage_available
    }

    /// Reports whether log storage is available.
    pub fn set_storage_available(&mut self, available: bool)
        requires
            old(self).wf(),
        ensures
            final(self).wf(),
            final(self)@ == (SupervisorState { storage_available: available, ..old(self)@ }),
    {
        self.storage_available = available;
    }

    /// The shutdown settings.
    pub fn shutdown_config(&self) -> (r: &ShutdownConfig)
        ensures
            *r == self@.config.shutdown,
    {
        &self.config.shutdown
    }

    fn gates_up(&self, names: &Vec<String>) -> (b: bool)
        requires
            self.wf(),
            forall|j: int|
                0 <= j < names@.len() ==> has_name(self@.config.services, #[trigger] names@[j]@),
        ensures
            b == forall|j: int|
                0 <= j < names@.len() ==> is_up(
                    self@.runtimes[service_index(self@, #[trigger] names@[j]@)].state,
                ),
    {
        let mut j: usize = 0;
        while j < names.len()
            invariant
                j <= names@.len(),
                self.wf(),
                forall|k: int|
                    0 <= k < names@.len() ==> has_name(self@.config.services, #[trigger] names@[k]@),
                forall|k: int|
                    0 <= k < j ==> is_up(
                        self@.runtimes[service_index(self@, #[trigger] names@[k]@)].state,
                    ),
            decreases names@.len() - j,
        {
            let k = self.config.services.find_str(names[j].as_str());
            proof {
                lemma_position_bounds(self@.config.services, names@[j as int]@);
                assert(has_name(self@.config.services, names@[j as int]@));
            }
            if !state_is_up(self.runtimes[k].state) {
                return false;
            }
            j = j + 1;
        }
        true
    }

    /// Storage is available and every boot gate is up.
    pub fn boot_ready(&self) -> (b: bool)
        requires
            links_resolved(self@.config),
            self.wf(),
        ensures
            b == spec_boot_ready(self@),
    {
        let ghost c = self@.config;
        let ghost gates = c.boot.mounts + c.boot.devices + c.boot.logging;
        assert(c.boot.mounts == crate::config::texts(self.config.boot.mounts@));
        proof {
            assert forall|j: int| 0 <= j < self.config.boot.mounts@.len() implies has_name(
                c.services,
                #[trigger] self.config.boot.mounts@[j]@,
            ) by {
                assert(c.boot.mounts[j] == self.config.boot.mounts@[j]@);
            }
            assert forall|j: int| 0 <= j < self.config.boot.devices@.len() implies has_name(
                c.services,
                #[trigger] self.config.boot.devices@[j]@,
            ) by {
                assert(c.boot.devices[j] == self.config.boot.devices@[j]@);
            }
            assert forall|j: int| 0 <= j < self.config.boot.logging@.len() implies has_name(
                c.services,
                #[trigger] self.config.boot.logging@[j]@,
            ) by {
                assert(c.boot.logging[j] == self.config.boot.logging@[j]@);
            }
        }
        if !self.storage_available {
            return false;
        }
        let m = self.gates_up(&self.config.boot.mounts);
        let d = self.gates_up(&self.config.boot.devices);
        let l = self.gates_up(&self.config.boot.logging);
        proof {
            let nm = c.boot.mounts.len();
            let nd = c.boot.devices.len();
            if m && d && l {
                assert forall|j: int| 0 <= j < gates.len() implies is_up(
                    self@.runtimes[service_index(self@, #[trigger] gates[j])].state,
                ) by {
                    if j < nm {
                        assert(gates[j] == self.config.boot.mounts@[j]@);
                    } else if j < nm + nd {
                        assert(gates[j] == self.config.boot.devices@[j - nm]@);
                    } else {
                        assert(gates[j] == self.config.boot.logging@[j - nm - nd]@);
                    }
                }
            } else if !m {
                let k = choose|k: int|
                    0 <= k < self.config.boot.mounts@.len() && !is_up(
                        self@.runtimes[service_index(self@, #[trigger] self.config.boot.mounts@[k]@)].state,
                    );
                assert(gates[k] == self.config.boot.mounts@[k]@);
            } else if !d {
                let k = choose|k: int|
                    0 <= k < self.config.boot.devices@.len() && !is_up(
                        self@.runtimes[service_index(self@, #[trigger] self.config.boot.devices@[k]@)].state,
                    );
                assert(gates[nm + k] == self.config.boot.devices@[k]@);
            } else {
                let k = choose|k: int|
                    0 <= k < self.config.boot.logging@.len() && !is_up(
                        self@.runtimes[service_index(self@, #[trigger] self.config.boot.logging@[k]@)].state,
                    );
                assert(gates[nm + nd + k] == self.config.boot.logging@[k]@);
            }
        }
        m && d && l
    }

    /// Changes the level below which events are not recorded, and records
    /// the change.
    pub fn set_log_level(&mut self, level: LogLevel)
        requires
            old(self).wf(),
        ensures
            final(self).wf(),
            final(self)@ == spec_record(
                SupervisorState { log_level: level, ..old(self)@ },
                "init"@,
                LogLevel::Notice,
                "log-level"@,
                level_name(level),
            ),
    {
        self.log_level = level;
        let service = chars_of("init");
        let mut detail: Vec<char> = Vec::new();
        push_level_name(&mut detail, level);
        self.record(&service, LogLevel::Notice, "log-level", &detail);
    }

    /// Queues an explicit start of a service that is not running.
    pub fn start(&mut self, name: &str) -> (r: Result<(), SpawnError>)
        requires
            old(self).wf(),
        ensures
            final(self).wf(),
            (final(self)@, request_outcome(r)) == spec_start(old(self)@, name@),
    {
        let n = chars_of(name);
        let i = self.config.services.find(&n);
        if i >= self.runtimes.len() {
            return Err(invalid_request(&crate::values::joined("unknown service ", &n)));
        }
        let rt = self.runtimes[i];
        if rt.child.is_some() || state_is_live(rt.state) {
            let mut msg = chars_of("service ");
            push_all(&mut msg, &n);
            push_str(&mut msg, " is already running");
            return Err(invalid_request(&msg));
        }
        let new_rt = ServiceRuntime {
            state: ServiceState::Defined,
            next_start_ms: self.now_ms,
            restart_count: 0,
            ..rt
        };
        proof {
            lemma_runtime_update(self@, i as int, new_rt, true);
        }
        self.manual_starts.set(i, true);
        self.runtimes.set(i, new_rt);
        let detail = chars_of("queued");
        self.record(&n, LogLevel::Notice, "start", &detail);
        Ok(())
    }

    /// Queues the recovery shell for an explicit start.
    pub fn start_recovery_shell(&mut self) -> (r: Result<(), SpawnError>)
        requires
            old(self).wf(),
        ensures
            final(self).wf(),
            (final(self)@, request_outcome(r)) == match old(self)@.config.boot.recovery_shell {
                None => (
                    old(self)@,
                    Err::<(), SpawnFault>(SpawnFault::Invalid("recovery shell is not configured"@)),
                ),
                Some(n) => spec_start(old(self)@, n),
            },
    {
        let name = match &self.config.boot.recovery_shell {
            None => {
                return Err(SpawnError::Invalid("recovery shell is not configured".to_owned()));
            },
            Some(n) => crate::text::copy_string(n),
        };
        self.start(name.as_str())
    }

    /// A readiness notification from a service's child.
    pub fn notify_ready(&mut self, name: &str) -> (r: Result<(), SpawnError>)
        requires
            old(self).wf(),
        ensures
            final(self).wf(),
            (final(self)@, request_outcome(r)) == spec_notify_ready(old(self)@, name@),
    {
        let n = chars_of(name);
        let i = self.config.services.find(&n);
        if i >= self.runtimes.len() {
            return Err(invalid_request(&crate::values::joined("unknown service ", &n)));
        }
        let rt = self.runtimes[i];
        if rt.child.is_none() {
            let mut msg = chars_of("service ");
            push_all(&mut msg, &n);
            push_str(&mut msg, " is not running");
            return Err(invalid_request(&msg));
        }
        match rt.state {
            ServiceState::Starting => {
                let new_rt = ServiceRuntime { state: ServiceState::Ready, ..rt };
                proof {
                    lemma_runtime_update(self@, i as int, new_rt, self@.manual_starts[i as int]);
                }
                self.runtimes.set(i, new_rt);
                let detail = chars_of("notification");
                self.record(&n, LogLevel::Notice, "ready", &detail);
                Ok(())
            },
            ServiceState::Ready | ServiceState::Running => Ok(()),
            state => {
                let mut msg = chars_of("service ");
                push_all(&mut msg, &n);
                push_str(&mut msg, " cannot become ready from ");
                push_state_name(&mut msg, state);
                Err(invalid_request(&msg))
            },
        }
    }

    /// One line per service: name, state and how its last child ended.
    pub fn render_status(&self) -> (out: String)
        requires
            self.wf(),
        ensures
            out@ == spec_render_status(self@),
    {
        if self.config.services.is_empty() {
            return "no services".to_owned();
        }
        let n = self.runtimes.len();
        let mut out: Vec<char> = Vec::new();
        let mut i: usize = 0;
        while i < n
            invariant
                i <= n,
                n == self@.runtimes.len(),
                self.wf(),
                out@ == join_lines(status_lines(self@, i as int)),
            decreases n - i,
        {
            let line = self.status_line_chars(i);
            push_joined_line(&mut out, i, &line);
            assert(status_lines(self@, i + 1).drop_last() =~= status_lines(self@, i as int));
            i = i + 1;
        }
        string_of(&out)
    }

    fn status_line_chars(&self, i: usize) -> (line: Vec<char>)
        requires
            self.wf(),
            i < self@.runtimes.len(),
        ensures
            line@ == status_line(self@.config.services[i as int].0, self@.runtimes[i as int]),
    {
        let rt = self.runtimes[i];
        let mut line = chars_of("service=");
        crate::text::push_string(&mut line, self.config.services.name_at(i));
        push_str(&mut line, " state=");
        push_state_name(&mut line, rt.state);
        push_str(&mut line, " exit_code=");
        match rt.last_exit {
            Some(e) => match e.code {
                Some(c) => push_signed_decimal(&mut line, c as i64),
                None => push_str(&mut line, "-"),
            },
            None => push_str(&mut line, "-"),
        }
        push_str(&mut line, " exit_signal=");
        match rt.last_exit {
            Some(e) => match e.signal {
                Some(c) => push_decimal(&mut line, c as u64),
                None => push_str(&mut line, "-"),
            },
            None => push_str(&mut line, "-"),
        }
        line
    }

    /// The retained records of a service (of every service when none is
    /// given), one line each.
    pub fn render_logs(&self, service: Option<&str>) -> (out: String)
        requires
            self.wf(),
        ensures
            out@ == spec_render_logs(
                self@,
                match service {
                    Some(n) => Some(n@),
                    None => None,
                },
            ),
    {
        let filter: Option<Vec<char>> = match service {
            Some(n) => Some(chars_of(n)),
            None => None,
        };
        let ghost fv = match service {
            Some(n) => Some(n@),
            None => None::<Seq<char>>,
        };
        let ghost lv = self@.logs;
        let mut out: Vec<char> = Vec::new();
        let mut count: usize = 0;
        let mut i: usize = 0;
        assert(lv.take(0) =~= Seq::<LogEntry>::empty());
        while i < self.logs.len()
            invariant
                i <= self.logs@.len(),
                lv == self@.logs,
                lv == self.logs@.map_values(|x: LogRecord| x@),
                fv == match filter {
                    Some(v) => Some(v@),
                    None => None::<Seq<char>>,
                },
                count as int == log_lines(lv.take(i as int), fv).len(),
                count <= i,
                out@ == join_lines(log_lines(lv.take(i as int), fv)),
            decreases self.logs@.len() - i,
        {
            assert(lv.take(i + 1).drop_last() =~= lv.take(i as int));
            assert(lv.take(i + 1).last() == self.logs@[i as int]@);
            let take = match &filter {
                Some(v) => {
                    let s = chars_of_string(&self.logs[i].service);
                    crate::text::eq_chars(&s, v)
                },
                None => true,
            };
            let ghost prev = log_lines(lv.take(i as int), fv);
            if take {
                let line = self.logs[i].line_chars();
                assert(log_lines(lv.take(i + 1), fv) == prev.push(line@));
                let ghost out_before = out@;
                push_joined_line(&mut out, count, &line);
                if count == 0 {
                    assert(prev.len() == 0);
                    assert(out@ =~= join_lines(prev.push(line@)));
                } else {
                    assert(prev.push(line@).drop_last() =~= prev);
                }
                count = count + 1;
            } else {
                assert(log_lines(lv.take(i + 1), fv) == prev);
            }
            i = i + 1;
        }
        assert(lv.take(self.logs@.len() as int) =~= lv);
        if count == 0 {
            return "no logs".to_owned();
        }
        string_of(&out)
    }
}

/// `code=..;signal=..` of an exit, as the stop events print it.
pub open spec fn exit_codes(exit: ChildExit) -> Seq<char> {
    "code="@ + opt_code_text(exit.code) + ";signal="@ + opt_number_text(exit.signal)
}

/// `exit=code:..,signal:..` of an exit, as the restart events print it.
pub open spec fn exit_pair(exit: ChildExit) -> Seq<char> {
    "exit=code:"@ + opt_code_text(exit.code) + ",signal:"@ + opt_number_text(exit.signal)
}

/// Delay before restart attempt `attempt`: 100 ms doubled per attempt, at
/// most 6.4 s.
pub open spec fn spec_backoff(attempt: u32) -> u64 {
    if attempt == 0 {
        100
    } else if attempt == 1 {
        200
    } else if attempt == 2 {
        400
    } else if attempt == 3 {
        800
    } else if attempt == 4 {
        1600
    } else if attempt == 5 {
        3200
    } else {
        6400
    }
}

/// Delay before restart attempt `attempt`.
pub fn backoff_ms(attempt: u32) -> (delay: u64)
    ensures
        delay == spec_backoff(attempt),
{
    let shift: u32 = if attempt < 6 {
        attempt
    } else {
        6
    };
    let factor: u64 = 1u64 << shift;
    assert(factor == spec_backoff(attempt) / 100) by (bit_vector)
        requires
            factor == 1u64 << shift,
            shift == (if attempt < 6 {
                attempt
            } else {
                6u32
            }),
    ;
    100 * factor
}

/// The restart policy asks for a restart after this exit.
pub open spec fn wants_restart(policy: RestartPolicy, failed: bool) -> bool {
    match policy {
        RestartPolicy::Never => false,
        RestartPolicy::OnFailure => failed,
        RestartPolicy::Always => true,
    }
}

/// The exit asks for a restart: the restart policy asks for one, or the
/// child was stopped by a timeout whose declared action is to restart.
pub open spec fn restart_due(rt: ServiceRuntime, cfg: ServiceSpec, failed: bool) -> bool {
    wants_restart(cfg.restart, failed) || (rt.stop_reason == Some(StopReason::Timeout)
        && cfg.timeout_action == TimeoutAction::Restart)
}

/// What a child's exit does to its service: the new runtime, the level and
/// detail of the `exit` event, and whether a start is queued.
pub open spec fn exit_transition(
    rt: ServiceRuntime,
    cfg: ServiceSpec,
    exit: ChildExit,
    now: u64,
) -> (ServiceRuntime, LogLevel, Seq<char>, bool) {
    let base = ServiceRuntime {
        child: None,
        last_exit: Some(ExitCause { code: exit.code, signal: exit.signal }),
        stop_reason: None,
        restart_after_stop: false,
        stop_deadline_ms: None,
        stop_escalated: false,
        ..rt
    };
    let failed = !exit_succeeded(exit);
    if rt.stop_reason == Some(StopReason::Manual) && rt.restart_after_stop {
        (
            ServiceRuntime { state: ServiceState::Defined, next_start_ms: now, ..base },
            LogLevel::Notice,
            "stopped;restart queued;"@ + exit_codes(exit),
            true,
        )
    } else if rt.stop_reason == Some(StopReason::Manual) {
        (
            ServiceRuntime { state: ServiceState::Stopped, ..base },
            LogLevel::Notice,
            "manual-stop;"@ + exit_codes(exit),
            false,
        )
    } else if rt.stop_reason == Some(StopReason::Timeout) && cfg.timeout_action
        == TimeoutAction::Stop {
        (
            ServiceRuntime { state: ServiceState::Stopped, ..base },
            LogLevel::Warn,
            "timeout-stop;"@ + exit_codes(exit),
            false,
        )
    } else if rt.stop_reason == Some(StopReason::Timeout) && cfg.timeout_action
        == TimeoutAction::Fail {
        (
            ServiceRuntime { state: ServiceState::Failed, ..base },
            LogLevel::Error,
            "timeout-failed;"@ + exit_codes(exit),
            false,
        )
    } else if cfg.kind == ServiceKind::Oneshot && !failed {
        (ServiceRuntime { state: ServiceState::Completed, ..base }, LogLevel::Notice, "completed"@, false)
    } else if restart_due(rt, cfg, failed) && rt.restart_count < cfg.max_restarts {
        let count = (rt.restart_count + 1) as u32;
        let next = if now + spec_backoff(count) > u64::MAX {
            u64::MAX
        } else {
            (now + spec_backoff(count)) as u64
        };
        (
            ServiceRuntime {
                state: ServiceState::Backoff,
                restart_count: count,
                next_start_ms: next,
                ..base
            },
            LogLevel::Warn,
            exit_pair(exit) + ";restart="@ + decimal(count as nat) + " at="@ + decimal(next as nat),
            false,
        )
    } else if restart_due(rt, cfg, failed) {
        (
            ServiceRuntime { state: ServiceState::Failed, ..base },
            LogLevel::Error,
            exit_pair(exit) + ";restart-limit="@ + decimal(cfg.max_restarts as nat),
            false,
        )
    } else {
        (
            ServiceRuntime {
                state: if failed {
                    ServiceState::Failed
                } else {
                    ServiceState::Stopped
                },
                ..base
            },
            if failed {
                LogLevel::Warn
            } else {
                LogLevel::Notice
            },
            exit_pair(exit),
            false,
        )
    }
}

/// The first service whose child has this handle, or the number of
/// services when none has.
pub open spec fn child_owner(rts: Seq<ServiceRuntime>, child: u64) -> int
    decreases rts.len(),
{
    if rts.len() == 0 {
        0
    } else if rts[0].child == Some(child) {
        0
    } else {
        1 + child_owner(rts.drop_first(), child)
    }
}

/// The owner of a handle is the first service that holds it.
pub proof fn lemma_child_owner(rts: Seq<ServiceRuntime>, child: u64, i: int)
    requires
        0 <= i <= rts.len(),
        forall|j: int| 0 <= j < i ==> rts[j].child != Some(child),
        i == rts.len() || rts[i].child == Some(child),
    ensures
        child_owner(rts, child) == i,
    decreases i,
{
    if i > 0 {
        lemma_child_owner(rts.drop_first(), child, i - 1);
    }
}

/// What an exit reported by the backend does: an orphan exit is only
/// recorded; otherwise the owning service takes its exit transition and the
/// exit is recorded under its name.
pub open spec fn spec_apply_exit(s: SupervisorState, child: u64, exit: ChildExit) -> SupervisorState {
    let i = child_owner(s.runtimes, child);
    if !(0 <= i < s.runtimes.len()) {
        spec_record(
            s,
            "init"@,
            LogLevel::Debug,
            "orphan-exit"@,
            "child="@ + decimal(child as nat) + " code="@ + opt_code_text(exit.code)
                + " signal="@ + opt_number_text(exit.signal),
        )
    } else {
        let t = exit_transition(s.runtimes[i], s.config.services[i].1, exit, s.now_ms);
        let s1 = SupervisorState {
            runtimes: s.runtimes.update(i, t.0),
            manual_starts: if t.3 {
                s.manual_starts.update(i, true)
            } else {
                s.manual_starts
            },
            ..s
        };
        spec_record(s1, s.config.services[i].0, t.1, "exit"@, t.2)
    }
}

fn push_exit_codes(out: &mut Vec<char>, exit: ChildExit)
    ensures
        final(out)@ == old(out)@ + exit_codes(exit),
{
    push_str(out, "code=");
    push_opt_code(out, exit.code);
    push_str(out, ";signal=");
    push_opt_number(out, exit.signal);
    assert(final(out)@ =~= old(out)@ + exit_codes(exit));
}

fn push_exit_pair(out: &mut Vec<char>, exit: ChildExit)
    ensures
        final(out)@ == old(out)@ + exit_pair(exit),
{
    push_str(out, "exit=code:");
    push_opt_code(out, exit.code);
    push_str(out, ",signal:");
    push_opt_number(out, exit.signal);
    assert(final(out)@ =~= old(out)@ + exit_pair(exit));
}

fn exit_transition_exec(rt: ServiceRuntime, cfg: &ServiceConfig, exit: ChildExit, now: u64) -> (r: (
    ServiceRuntime,
    LogLevel,
    Vec<char>,
    bool,
))
    ensures
        (r.0, r.1, r.2@, r.3) == exit_transition(rt, cfg@, exit, now),
{
    let base = ServiceRuntime {
        child: None,
        last_exit: Some(ExitCause { code: exit.code, signal: exit.signal }),
        stop_reason: None,
        restart_after_stop: false,
        stop_deadline_ms: None,
        stop_escalated: false,
        ..rt
    };
    let failed = !exit.is_success();
    let mut detail: Vec<char> = Vec::new();
    if rt.stop_reason == Some(StopReason::Manual) && rt.restart_after_stop {
        push_str(&mut detail, "stopped;restart queued;");
        push_exit_codes(&mut detail, exit);
        (ServiceRuntime { state: ServiceState::Defined, next_start_ms: now, ..base }, LogLevel::Notice, detail, true)
    } else if rt.stop_reason == Some(StopReason::Manual) {
        push_str(&mut detail, "manual-stop;");
        push_exit_codes(&mut detail, exit);
        (ServiceRuntime { state: ServiceState::Stopped, ..base }, LogLevel::Notice, detail, false)
    } else if rt.stop_reason == Some(StopReason::Timeout) && cfg.timeout_action
        == TimeoutAction::Stop {
        push_str(&mut detail, "timeout-stop;");
        push_exit_codes(&mut detail, exit);
        (ServiceRuntime { state: ServiceState::Stopped, ..base }, LogLevel::Warn, detail, false)
    } else if rt.stop_reason == Some(StopReason::Timeout) && cfg.timeout_action
        == TimeoutAction::Fail {
        push_str(&mut detail, "timeout-failed;");
        push_exit_codes(&mut detail, exit);
        (ServiceRuntime { state: ServiceState::Failed, ..base }, LogLevel::Error, detail, false)
    } else if cfg.kind == ServiceKind::Oneshot && !failed {
        push_str(&mut detail, "completed");
        (ServiceRuntime { state: ServiceState::Completed, ..base }, LogLevel::Notice, detail, false)
    } else {
        let should_restart = match cfg.restart {
            RestartPolicy::Never => false,
            RestartPolicy::OnFailure => failed,
            RestartPolicy::Always => true,
        } || (rt.stop_reason == Some(StopReason::Timeout) && cfg.timeout_action
            == TimeoutAction::Restart);
        if should_restart && rt.restart_count < cfg.max_restarts {
            let count = rt.restart_count + 1;
            let next = saturating_add(now, backoff_ms(count));
            push_exit_pair(&mut detail, exit);
            push_str(&mut detail, ";restart=");
            push_decimal(&mut detail, count as u64);
            push_str(&mut detail, " at=");
            push_decimal(&mut detail, next);
            (
                ServiceRuntime {
                    state: ServiceState::Backoff,
                    restart_count: count,
                    next_start_ms: next,
                    ..base
                },
                LogLevel::Warn,
                detail,
                false,
            )
        } else if should_restart {
            push_exit_pair(&mut detail, exit);
            push_str(&mut detail, ";restart-limit=");
            push_decimal(&mut detail, cfg.max_restarts as u64);
            (ServiceRuntime { state: ServiceState::Failed, ..base }, LogLevel::Error, detail, false)
        } else {
            push_exit_pair(&mut detail, exit);
            (
                ServiceRuntime {
                    state: if failed {
                        ServiceState::Failed
                    } else {
                        ServiceState::Stopped
                    },
                    ..base
                },
                if failed {
                    LogLevel::Warn
                } else {
                    LogLevel::Notice
                },
                detail,
                false,
            )
        }
    }
}

impl Supervisor {
    /// The name of the service at a place, as characters.
    fn name_chars(&self, i: usize) -> (n: Vec<char>)
        requires
            i < self@.config.services.len(),
        ensures
            n@ == self@.config.services[i as int].0,
    {
        chars_of_string(self.config.services.name_at(i))
    }

    /// Handles one exit that the backend reported.
    pub fn apply_exit(&mut self, child: ChildHandle, exit: ChildExit)
        requires
            old(self).wf(),
        ensures
            final(self).wf(),
            final(self)@ == spec_apply_exit(old(self)@, child, exit),
    {
        let mut i: usize = 0;
        while i < self.runtimes.len() && self.runtimes[i].child != Some(child)
            invariant
                i <= self.runtimes@.len(),
                forall|j: int| 0 <= j < i ==> self.runtimes@[j].child != Some(child),
            decreases self.runtimes@.len() - i,
        {
            i = i + 1;
        }
        proof {
            lemma_child_owner(self.runtimes@, child, i as int);
        }
        if i >= self.runtimes.len() {
            let service = chars_of("init");
            let mut detail = chars_of("child=");
            push_decimal(&mut detail, child);
            push_str(&mut detail, " code=");
            push_opt_code(&mut detail, exit.code);
            push_str(&mut detail, " signal=");
            push_opt_number(&mut detail, exit.signal);
            assert(detail@ =~= "child="@ + decimal(child as nat) + " code="@ + opt_code_text(
                exit.code,
            ) + " signal="@ + opt_number_text(exit.signal));
            self.record(&service, LogLevel::Debug, "orphan-exit", &detail);
            return ;
        }
        let rt = self.runtimes[i];
        let t = exit_transition_exec(rt, self.config.services.value_at(i), exit, self.now_ms);
        proof {
            assert(t.0.restart_count <= self@.config.services[i as int].1.max_restarts);
            lemma_runtime_update(
                self@,
                i as int,
                t.0,
                if t.3 {
                    true
                } else {
                    self@.manual_starts[i as int]
                },
            );
        }
        self.runtimes.set(i, t.0);
        if t.3 {
            self.manual_starts.set(i, true);
        } else {
            assert(self@.manual_starts =~= self@.manual_starts.update(i as int, self@.manual_starts[i as int]));
        }
        let name = self.name_chars(i);
        self.record(&name, t.1, "exit", &t.2);
    }
}

/// The place of the `j`-th dependency of service `k`.
pub open spec fn dependency_index(s: SupervisorState, k: int, j: int) -> int {
    service_index(s, s.config.services[k].1.dependencies[j])
}

/// Every dependency of service `k` is up.
pub open spec fn spec_can_start(s: SupervisorState, k: int) -> bool {
    forall|j: int|
        0 <= j < s.config.services[k].1.dependencies.len() ==> is_up(
            s.runtimes[#[trigger] dependency_index(s, k, j)].state,
        )
}

/// A dependency ended for good: failed, blocked or stopped.
pub open spec fn is_down(state: ServiceState) -> bool {
    state == ServiceState::Failed || state == ServiceState::Blocked || state == ServiceState::Stopped
}

/// Some dependency of service `k` is down.
pub open spec fn spec_dependencies_failed(s: SupervisorState, k: int) -> bool {
    exists|j: int|
        0 <= j < s.config.services[k].1.dependencies.len() && is_down(
            s.runtimes[#[trigger] dependency_index(s, k, j)].state,
        )
}

/// A service that `tick` does not spawn again by itself.
pub open spec fn is_settled(state: ServiceState) -> bool {
    state == ServiceState::Failed || state == ServiceState::Stopped || state
        == ServiceState::Completed || state == ServiceState::Blocked
}

/// What `tick` decides for service `k` before spawning: whether to spawn
/// it, and the state after a dependency failure has blocked it.
pub open spec fn spec_prepare_start(s: SupervisorState, k: int) -> (SupervisorState, bool) {
    let name = s.config.services[k].0;
    let cfg = s.config.services[k].1;
    let rt = s.runtimes[k];
    if s.config.boot.shell == Some(name) && !spec_boot_ready(s) {
        (s, false)
    } else if !cfg.autostart && !s.manual_starts[k] {
        (s, false)
    } else if !spec_can_start(s, k) {
        if spec_dependencies_failed(s, k) {
            let s1 = SupervisorState {
                runtimes: s.runtimes.update(k, ServiceRuntime { state: ServiceState::Blocked, ..rt }),
                ..s
            };
            if rt.state != ServiceState::Blocked {
                (spec_record(s1, name, LogLevel::Error, "blocked"@, "dependency failed"@), false)
            } else {
                (s1, false)
            }
        } else {
            (s, false)
        }
    } else if rt.child is Some || is_settled(rt.state) || s.now_ms < rt.next_start_ms {
        (s, false)
    } else {
        (s, true)
    }
}

/// What the backend's answer to a spawn does to service `k`.
pub open spec fn spec_apply_spawn(
    s: SupervisorState,
    k: int,
    result: Result<u64, SpawnFault>,
) -> SupervisorState {
    let name = s.config.services[k].0;
    let rt = s.runtimes[k];
    match result {
        Ok(child) => {
            let state = match s.config.services[k].1.readiness {
                Readiness::Spawn => ServiceState::Running,
                Readiness::Notify => ServiceState::Starting,
            };
            let s1 = SupervisorState {
                runtimes: s.runtimes.update(
                    k,
                    ServiceRuntime {
                        child: Some(child),
                        started_at_ms: s.now_ms,
                        stop_reason: None,
                        stop_deadline_ms: None,
                        stop_escalated: false,
                        restart_after_stop: false,
                        state,
                        ..rt
                    },
                ),
                ..s
            };
            spec_record(
                s1,
                name,
                LogLevel::Notice,
                "start"@,
                "child="@ + decimal(child as nat) + " state="@ + state_name(state),
            )
        },
        Err(e) => {
            let s1 = SupervisorState {
                runtimes: s.runtimes.update(
                    k,
                    ServiceRuntime { last_exit: None, state: ServiceState::Failed, ..rt },
                ),
                ..s
            };
            spec_record(s1, name, LogLevel::Error, "start"@, spawn_error_message(e))
        },
    }
}

/// The result of a spawn, seen as a view.
pub open spec fn spawn_outcome(r: Result<u64, SpawnError>) -> Result<u64, SpawnFault> {
    match r {
        Ok(c) => Ok(c),
        Err(e) => Err(e@),
    }
}

/// A signal that `tick` sends because a timeout passed.
#[derive(Debug, Clone, Copy, PartialEq, Eq, Structural)]
pub struct StopAction {
    pub index: usize,
    pub child: ChildHandle,
    pub signal: Signal,
    pub begin_stop: bool,
    pub readiness_timeout: bool,
}

/// The timeout action for service `i`, if a timeout has passed: a starting
/// service past its readiness timeout and a ready or running service past
/// its runtime timeout get the stop signal; a stopping service past its
/// stop deadline gets the kill signal, once.
pub open spec fn stop_action_for(s: SupervisorState, i: int) -> Option<StopAction> {
    let rt = s.runtimes[i];
    let cfg = s.config.services[i].1;
    let elapsed = if s.now_ms >= rt.started_at_ms {
        s.now_ms - rt.started_at_ms
    } else {
        0
    };
    if rt.state == ServiceState::Starting {
        if cfg.readiness_timeout_ms != 0 && elapsed >= cfg.readiness_timeout_ms && rt.child is Some {
            Some(
                StopAction {
                    index: i as usize,
                    child: rt.child->0,
                    signal: cfg.stop_signal,
                    begin_stop: true,
                    readiness_timeout: true,
                },
            )
        } else {
            None
        }
    } else if rt.state == ServiceState::Stopping {
        if (rt.stop_deadline_ms matches Some(d) && s.now_ms >= d) && !rt.stop_escalated
            && rt.child is Some {
            Some(
                StopAction {
                    index: i as usize,
                    child: rt.child->0,
                    signal: cfg.kill_signal,
                    begin_stop: false,
                    readiness_timeout: false,
                },
            )
        } else {
            None
        }
    } else if cfg.timeout_ms == 0 || elapsed < cfg.timeout_ms || !(rt.state == ServiceState::Ready
        || rt.state == ServiceState::Running) || rt.child is None {
        None
    } else {
        Some(
            StopAction {
                index: i as usize,
                child: rt.child->0,
                signal: cfg.stop_signal,
                begin_stop: true,
                readiness_timeout: false,
            },
        )
    }
}

/// The timeout actions of the first `k` services, in name order.
pub open spec fn stop_actions_upto(s: SupervisorState, k: int) -> Seq<StopAction>
    decreases k,
{
    if k <= 0 {
        Seq::empty()
    } else {
        match stop_action_for(s, k - 1) {
            Some(a) => stop_actions_upto(s, k - 1).push(a),
            None => stop_actions_upto(s, k - 1),
        }
    }
}

/// The event name of a timeout action.
pub open spec fn stop_event(a: StopAction) -> Seq<char> {
    if a.begin_stop {
        if a.readiness_timeout {
            "readiness-timeout"@
        } else {
            "timeout"@
        }
    } else {
        "stop-timeout"@
    }
}

/// What a timeout action does once its signal was delivered: a stop begins
/// (with its deadline), or the stop is marked escalated.
pub open spec fn spec_apply_stop_action(s: SupervisorState, a: StopAction) -> SupervisorState {
    let i = a.index as int;
    let rt = s.runtimes[i];
    let cfg = s.config.services[i].1;
    let new_rt = if a.begin_stop {
        ServiceRuntime {
            state: ServiceState::Stopping,
            stop_reason: Some(StopReason::Timeout),
            stop_deadline_ms: Some(
                if s.now_ms + cfg.stop_timeout_ms > u64::MAX {
                    u64::MAX
                } else {
                    (s.now_ms + cfg.stop_timeout_ms) as u64
                },
            ),
            stop_escalated: false,
            ..rt
        }
    } else {
        ServiceRuntime { stop_escalated: true, ..rt }
    };
    spec_record(
        SupervisorState { runtimes: s.runtimes.update(i, new_rt), ..s },
        s.config.services[i].0,
        LogLevel::Warn,
        stop_event(a),
        "child="@ + decimal(a.child as nat) + ";signal="@ + signal_name(a.signal),
    )
}

/// What the backend's answer to one forwarded signal records.
pub open spec fn spec_signal_result(
    s: SupervisorState,
    i: int,
    child: u64,
    signal: Signal,
    result: Result<(), SpawnFault>,
) -> SupervisorState {
    let name = s.config.services[i].0;
    let base = "child="@ + decimal(child as nat) + ";signal="@ + signal_name(signal);
    match result {
        Ok(_) => spec_record(s, name, LogLevel::Debug, "signal"@, base),
        Err(e) => spec_record(
            s,
            name,
            LogLevel::Error,
            "signal-failed"@,
            base + ";error="@ + spawn_error_message(e),
        ),
    }
}

/// The signal requests a stop makes: the service's stop signal to its
/// child, when the service is known, has a child and is not stopping
/// already.
pub open spec fn stop_signals(s: SupervisorState, name: Seq<char>) -> Seq<(u64, Signal)> {
    let i = service_index(s, name);
    if 0 <= i < s.runtimes.len() && s.runtimes[i].state != ServiceState::Stopping
        && s.runtimes[i].child is Some {
        seq![(s.runtimes[i].child->0, s.config.services[i].1.stop_signal)]
    } else {
        Seq::empty()
    }
}

/// The answers a stop logs: the outcome of its stop signal, when it sends
/// one.
pub open spec fn stop_answers(s: SupervisorState, name: Seq<char>, r: Result<(), SpawnFault>) -> Seq<
    Result<(), SpawnFault>,
> {
    if stop_signals(s, name).len() > 0 {
        seq![r]
    } else {
        Seq::empty()
    }
}

/// What a stop request does once the stop signal (if any) was delivered.
pub open spec fn spec_stop_requested(s: SupervisorState, i: int) -> SupervisorState {
    let rt = s.runtimes[i];
    let cfg = s.config.services[i].1;
    let new_rt = if rt.child is Some {
        ServiceRuntime {
            restart_after_stop: false,
            stop_escalated: false,
            state: ServiceState::Stopping,
            stop_reason: Some(StopReason::Manual),
            stop_deadline_ms: Some(
                if s.now_ms + cfg.stop_timeout_ms > u64::MAX {
                    u64::MAX
                } else {
                    (s.now_ms + cfg.stop_timeout_ms) as u64
                },
            ),
            ..rt
        }
    } else {
        ServiceRuntime {
            restart_after_stop: false,
            stop_escalated: false,
            state: ServiceState::Stopped,
            stop_reason: None,
            stop_deadline_ms: None,
            ..rt
        }
    };
    spec_record(
        SupervisorState {
            manual_starts: s.manual_starts.update(i, false),
            runtimes: s.runtimes.update(i, new_rt),
            ..s
        },
        s.config.services[i].0,
        LogLevel::Notice,
        "stop"@,
        "requested"@,
    )
}

/// What a restart request does once the stop part is done.
pub open spec fn spec_restart_queued(s: SupervisorState, i: int, had_child: bool) -> SupervisorState {
    let rt = s.runtimes[i];
    let new_rt = ServiceRuntime {
        restart_count: 0,
        next_start_ms: s.now_ms,
        restart_after_stop: had_child,
        state: if had_child {
            rt.state
        } else {
            ServiceState::Defined
        },
        ..rt
    };
    spec_record(
        SupervisorState {
            manual_starts: s.manual_starts.update(i, true),
            runtimes: s.runtimes.update(i, new_rt),
            ..s
        },
        s.config.services[i].0,
        LogLevel::Notice,
        "restart"@,
        "queued"@,
    )
}

/// The state once a shutdown in the given mode has begun, before any
/// signal is sent.
pub open spec fn shutdown_begun(s: SupervisorState, mode: ShutdownMode) -> SupervisorState {
    SupervisorState {
        shutdown: Some(mode),
        shutdown_started_at_ms: s.now_ms,
        shutdown_escalated: false,
        ..s
    }
}

/// What a shutdown request leaves, for some answers of the backend to the
/// shutdown signal: each delivery recorded, then the request itself
/// recorded unless a delivery failed, in which case the first failure is
/// returned.
pub open spec fn shutdown_outcome(
    s: SupervisorState,
    t: SupervisorState,
    mode: ShutdownMode,
    r: Result<(), SpawnFault>,
    before: BackendLog,
    after: BackendLog,
) -> bool {
    &&& shutdown_requested(s, t, mode)
    &&& exists|answers: Seq<Result<(), SpawnFault>>|
        #![trigger first_failure(answers)]
        {
            let begun = shutdown_begun(s, mode);
            let all = children_upto(begun, begun.runtimes.len() as int);
            let sent = forward_results(begun, all, begun.config.shutdown.signal, answers);
            &&& answers.len() == all.len()
            &&& after == log_signals(before, shutdown_signals(s, mode), answers)
            &&& match first_failure(answers) {
                Some(e) => r == Err::<(), SpawnFault>(e) && t == sent,
                None => r is Ok && t == spec_record(
                    sent,
                    "init"@,
                    LogLevel::Notice,
                    "shutdown"@,
                    mode_name(mode),
                ),
            }
        }
}

/// The signal requests a shutdown request makes: the shutdown signal to
/// every child, in name order.
pub open spec fn shutdown_signals(s: SupervisorState, mode: ShutdownMode) -> Seq<(u64, Signal)> {
    let begun = shutdown_begun(s, mode);
    signal_requests(children_upto(begun, begun.runtimes.len() as int), s.config.shutdown.signal)
}

/// A shutdown in the given mode has been requested: the supervisor is
/// shutting down from now on, not escalated yet, and its services are as
/// they were.
pub open spec fn shutdown_requested(a: SupervisorState, b: SupervisorState, mode: ShutdownMode) -> bool {
    &&& b.shutdown == Some(mode)
    &&& b.shutdown_started_at_ms == a.now_ms
    &&& !b.shutdown_escalated
    &&& b.runtimes == a.runtimes
    &&& b.manual_starts == a.manual_starts
    &&& b.config == a.config
    &&& b.now_ms == a.now_ms
}

/// Two states differ at most in what recording changes.
pub open spec fn only_records(a: SupervisorState, b: SupervisorState) -> bool {
    &&& b.config == a.config
    &&& b.runtimes == a.runtimes
    &&& b.manual_starts == a.manual_starts
    &&& b.now_ms == a.now_ms
    &&& b.log_level == a.log_level
    &&& b.storage_available == a.storage_available
    &&& b.shutdown_started_at_ms == a.shutdown_started_at_ms
    &&& b.shutdown_escalated == a.shutdown_escalated
    &&& (a.shutdown is Some ==> b.shutdown == a.shutdown)
}

/// The signal requests that sending `signal` to the given children makes,
/// in order.
pub open spec fn signal_requests(children: Seq<(int, u64)>, signal: Signal) -> Seq<(u64, Signal)> {
    children.map_values(|c: (int, u64)| (c.1, signal))
}

/// Forwarding a signal, given the backend's answers: every child is asked
/// in name order and its answer logged, each delivery is recorded, and the
/// first refusal is returned.
pub open spec fn forward_done(
    s: SupervisorState,
    t: SupervisorState,
    signal: Signal,
    r: Result<(), SpawnFault>,
    answers: Seq<Result<(), SpawnFault>>,
    before: BackendLog,
    after: BackendLog,
) -> bool {
    let all = children_upto(s, s.runtimes.len() as int);
    &&& answers.len() == all.len()
    &&& t == forward_results(s, all, signal, answers)
    &&& r == match first_failure(answers) {
        Some(e) => Err(e),
        None => Ok::<(), SpawnFault>(()),
    }
    &&& after == log_signals(before, signal_requests(all, signal), answers)
}

/// What forwarding a signal records, given the backend's answer for each
/// child in turn.
pub open spec fn forward_results(
    s: SupervisorState,
    children: Seq<(int, u64)>,
    signal: Signal,
    answers: Seq<Result<(), SpawnFault>>,
) -> SupervisorState
    decreases children.len(),
{
    if children.len() == 0 {
        s
    } else {
        spec_signal_result(
            forward_results(s, children.drop_last(), signal, answers.drop_last()),
            children.last().0,
            children.last().1,
            signal,
            answers.last(),
        )
    }
}

/// The first refusal among the backend's answers.
pub open spec fn first_failure(answers: Seq<Result<(), SpawnFault>>) -> Option<SpawnFault>
    decreases answers.len(),
{
    if answers.len() == 0 {
        None
    } else {
        match first_failure(answers.drop_last()) {
            Some(e) => Some(e),
            None => match answers.last() {
                Err(e) => Some(e),
                Ok(_) => None,
            },
        }
    }
}

/// The services that have a child, in name order.
pub open spec fn children_upto(s: SupervisorState, k: int) -> Seq<(int, u64)>
    decreases k,
{
    if k <= 0 {
        Seq::empty()
    } else {
        match s.runtimes[k - 1].child {
            Some(c) => children_upto(s, k - 1).push((k - 1, c)),
            None => children_upto(s, k - 1),
        }
    }
}

fn push_child_signal(out: &mut Vec<char>, child: u64, signal: Signal)
    ensures
        final(out)@ == old(out)@ + "child="@ + decimal(child as nat) + ";signal="@ + signal_name(
            signal,
        ),
{
    push_str(out, "child=");
    push_decimal(out, child);
    push_str(out, ";signal=");
    push_signal_name(out, signal);
}

fn saturating_add(a: u64, b: u64) -> (r: u64)
    ensures
        r == (if a + b > u64::MAX {
            u64::MAX
        } else {
            (a + b) as u64
        }),
{
    if a > u64::MAX - b {
        u64::MAX
    } else {
        a + b
    }
}

impl Supervisor {
    /// Decides whether `tick` spawns service `k` now, blocking it where a
    /// dependency failed.
    pub fn prepare_start(&mut self, k: usize) -> (spawn: bool)
        requires
            links_resolved(old(self)@.config),
            old(self).wf(),
            k < old(self)@.runtimes.len(),
        ensures
            final(self).wf(),
            (final(self)@, spawn) == spec_prepare_start(old(self)@, k as int),
    {
        let name = self.name_chars(k);
        let is_shell = match &self.config.boot.shell {
            Some(sh) => {
                let shc = chars_of_string(sh);
                crate::text::eq_chars(&shc, &name)
            },
            None => false,
        };
        if is_shell && !self.boot_ready() {
            return false;
        }
        if !self.config.services.value_at(k).autostart && !self.manual_starts[k] {
            return false;
        }
        let (can, failed) = self.dependency_status(k);
        if !can {
            if failed {
                let rt = self.runtimes[k];
                let new_rt = ServiceRuntime { state: ServiceState::Blocked, ..rt };
                proof {
                    lemma_runtime_update(self@, k as int, new_rt, self@.manual_starts[k as int]);
                }
                self.runtimes.set(k, new_rt);
                if rt.state != ServiceState::Blocked {
                    let detail = chars_of("dependency failed");
                    self.record(&name, LogLevel::Error, "blocked", &detail);
                }
            }
            return false;
        }
        let rt = self.runtimes[k];
        if rt.child.is_some() || match rt.state {
            ServiceState::Failed | ServiceState::Stopped | ServiceState::Completed
            | ServiceState::Blocked => true,
            _ => false,
        } || self.now_ms < rt.next_start_ms {
            return false;
        }
        true
    }

    /// Whether all dependencies of service `k` are up, and whether one is
    /// down.
    fn dependency_status(&self, k: usize) -> (r: (bool, bool))
        requires
            links_resolved(self@.config),
            self.wf(),
            k < self@.runtimes.len(),
        ensures
            r.0 == spec_can_start(self@, k as int),
            r.1 == spec_dependencies_failed(self@, k as int),
    {
        let svc = self.config.services.value_at(k);
        let ghost deps = self@.config.services[k as int].1.dependencies;
        assert(deps == crate::config::texts(svc.dependencies@));
        let mut all_up = true;
        let mut any_down = false;
        let mut j: usize = 0;
        while j < svc.dependencies.len()
            invariant
                j <= svc.dependencies@.len(),
                self.wf(),
                k < self@.runtimes.len(),
                deps == self@.config.services[k as int].1.dependencies,
                deps == crate::config::texts(svc.dependencies@),
                links_resolved(self@.config),
                all_up == forall|x: int|
                    0 <= x < j ==> is_up(self@.runtimes[#[trigger] dependency_index(self@, k as int, x)].state),
                any_down == exists|x: int|
                    0 <= x < j && is_down(self@.runtimes[#[trigger] dependency_index(self@, k as int, x)].state),
            decreases svc.dependencies@.len() - j,
        {
            let d = chars_of_string(&svc.dependencies[j]);
            let p = self.config.services.find(&d);
            proof {
                assert(deps[j as int] == d@);
                assert(has_name(self@.config.services, deps[j as int]));
                lemma_position_bounds(self@.config.services, d@);
                assert(p == dependency_index(self@, k as int, j as int));
            }
            let st = self.runtimes[p].state;
            if !state_is_up(st) {
                all_up = false;
            }
            if match st {
                ServiceState::Failed | ServiceState::Blocked | ServiceState::Stopped => true,
                _ => false,
            } {
                any_down = true;
            }
            j = j + 1;
        }
        (all_up, any_down)
    }

    /// Takes in the backend's answer to a spawn of service `k`.
    pub fn apply_spawn(&mut self, k: usize, result: Result<ChildHandle, SpawnError>)
        requires
            old(self).wf(),
            k < old(self)@.runtimes.len(),
        ensures
            final(self).wf(),
            final(self)@ == spec_apply_spawn(old(self)@, k as int, spawn_outcome(result)),
    {
        let name = self.name_chars(k);
        let rt = self.runtimes[k];
        match result {
            Ok(child) => {
                let state = match self.config.services.value_at(k).readiness {
                    Readiness::Spawn => ServiceState::Running,
                    Readiness::Notify => ServiceState::Starting,
                };
                let new_rt = ServiceRuntime {
                    child: Some(child),
                    started_at_ms: self.now_ms,
                    stop_reason: None,
                    stop_deadline_ms: None,
                    stop_escalated: false,
                    restart_after_stop: false,
                    state,
                    ..rt
                };
                proof {
                    lemma_runtime_update(self@, k as int, new_rt, self@.manual_starts[k as int]);
                }
                self.runtimes.set(k, new_rt);
                let mut detail = chars_of("child=");
                push_decimal(&mut detail, child);
                push_str(&mut detail, " state=");
                push_state_name(&mut detail, state);
                self.record(&name, LogLevel::Notice, "start", &detail);
            },
            Err(e) => {
                let new_rt = ServiceRuntime { last_exit: None, state: ServiceState::Failed, ..rt };
                proof {
                    lemma_runtime_update(self@, k as int, new_rt, self@.manual_starts[k as int]);
                }
                self.runtimes.set(k, new_rt);
                let mut detail: Vec<char> = Vec::new();
                push_spawn_error(&mut detail, &e);
                self.record(&name, LogLevel::Error, "start", &detail);
            },
        }
    }

    /// The timeout actions that are due, in name order.
    pub fn stop_actions(&self) -> (actions: Vec<StopAction>)
        requires
            self.wf(),
        ensures
            actions@ == stop_actions_upto(self@, self@.runtimes.len() as int),
    {
        let mut actions: Vec<StopAction> = Vec::new();
        let now = self.now_ms;
        let mut i: usize = 0;
        while i < self.runtimes.len()
            invariant
                i <= self.runtimes@.len(),
                self.wf(),
                now == self@.now_ms,
                actions@ == stop_actions_upto(self@, i as int),
            decreases self.runtimes@.len() - i,
        {
            let rt = self.runtimes[i];
            let cfg = self.config.services.value_at(i);
            let elapsed: u64 = if now >= rt.started_at_ms {
                now - rt.started_at_ms
            } else {
                0
            };
            let action: Option<StopAction> = if rt.state == ServiceState::Starting {
                if cfg.readiness_timeout_ms != 0 && elapsed >= cfg.readiness_timeout_ms
                    && rt.child.is_some() {
                    Some(
                        StopAction {
                            index: i,
                            child: rt.child.unwrap(),
                            signal: cfg.stop_signal,
                            begin_stop: true,
                            readiness_timeout: true,
                        },
                    )
                } else {
                    None
                }
            } else if rt.state == ServiceState::Stopping {
                let due = match rt.stop_deadline_ms {
                    Some(d) => now >= d,
                    None => false,
                };
                if due && !rt.stop_escalated && rt.child.is_some() {
                    Some(
                        StopAction {
                            index: i,
                            child: rt.child.unwrap(),
                            signal: cfg.kill_signal,
                            begin_stop: false,
                            readiness_timeout: false,
                        },
                    )
                } else {
                    None
                }
            } else if cfg.timeout_ms == 0 || elapsed < cfg.timeout_ms || !(rt.state
                == ServiceState::Ready || rt.state == ServiceState::Running) || rt.child.is_none() {
                None
            } else {
                Some(
                    StopAction {
                        index: i,
                        child: rt.child.unwrap(),
                        signal: cfg.stop_signal,
                        begin_stop: true,
                        readiness_timeout: false,
                    },
                )
            };
            assert(action == stop_action_for(self@, i as int));
            match action {
                Some(a) => actions.push(a),
                None => {},
            }
            i = i + 1;
        }
        actions
    }

    /// Takes in a timeout action whose signal was delivered.
    pub fn apply_stop_action(&mut self, a: StopAction)
        requires
            old(self).wf(),
            a.index < old(self)@.runtimes.len(),
            old(self)@.runtimes[a.index as int].child is Some,
        ensures
            final(self).wf(),
            final(self)@ == spec_apply_stop_action(old(self)@, a),
    {
        let i = a.index;
        let rt = self.runtimes[i];
        let stop_timeout = self.config.services.value_at(i).stop_timeout_ms;
        let new_rt = if a.begin_stop {
            ServiceRuntime {
                state: ServiceState::Stopping,
                stop_reason: Some(StopReason::Timeout),
                stop_deadline_ms: Some(saturating_add(self.now_ms, stop_timeout)),
                stop_escalated: false,
                ..rt
            }
        } else {
            ServiceRuntime { stop_escalated: true, ..rt }
        };
        proof {
            lemma_runtime_update(self@, i as int, new_rt, self@.manual_starts[i as int]);
        }
        self.runtimes.set(i, new_rt);
        let name = self.name_chars(i);
        let mut detail: Vec<char> = Vec::new();
        push_child_signal(&mut detail, a.child, a.signal);
        if a.begin_stop {
            if a.readiness_timeout {
                self.record(&name, LogLevel::Warn, "readiness-timeout", &detail);
            } else {
                self.record(&name, LogLevel::Warn, "timeout", &detail);
            }
        } else {
            self.record(&name, LogLevel::Warn, "stop-timeout", &detail);
        }
    }

    /// Records the backend's answer to a signal forwarded to the child of
    /// service `i`.
    pub fn record_signal_result(
        &mut self,
        i: usize,
        child: ChildHandle,
        signal: Signal,
        result: &Result<(), SpawnError>,
    )
        requires
            old(self).wf(),
            i < old(self)@.runtimes.len(),
        ensures
            final(self).wf(),
            final(self)@ == spec_signal_result(old(self)@, i as int, child, signal, request_outcome(*result)),
    {
        let name = self.name_chars(i);
        let mut detail: Vec<char> = Vec::new();
        push_child_signal(&mut detail, child, signal);
        match result {
            Ok(_) => self.record(&name, LogLevel::Debug, "signal", &detail),
            Err(e) => {
                push_str(&mut detail, ";error=");
                push_spawn_error(&mut detail, e);
                self.record(&name, LogLevel::Error, "signal-failed", &detail);
            },
        }
    }

    /// The services that have a child, with their children, in name order.
    fn children(&self) -> (r: Vec<(usize, ChildHandle)>)
        requires
            self.wf(),
        ensures
            r@.map_values(|p: (usize, ChildHandle)| (p.0 as int, p.1)) == children_upto(
                self@,
                self@.runtimes.len() as int,
            ),
            forall|j: int| 0 <= j < r@.len() ==> (#[trigger] r@[j]).0 < self@.runtimes.len(),
    {
        let mut r: Vec<(usize, ChildHandle)> = Vec::new();
        let mut i: usize = 0;
        while i < self.runtimes.len()
            invariant
                i <= self.runtimes@.len(),
                self.wf(),
                r@.map_values(|p: (usize, ChildHandle)| (p.0 as int, p.1)) == children_upto(self@, i as int),
                forall|j: int| 0 <= j < r@.len() ==> (#[trigger] r@[j]).0 < i,
            decreases self.runtimes@.len() - i,
        {
            let ghost before = r@.map_values(|p: (usize, ChildHandle)| (p.0 as int, p.1));
            match self.runtimes[i].child {
                Some(c) => {
                    r.push((i, c));
                    assert(r@.map_values(|p: (usize, ChildHandle)| (p.0 as int, p.1)) =~= before.push((i as int, c)));
                },
                None => {},
            }
            i = i + 1;
        }
        r
    }

    /// Sends a signal to every child, recording each delivery; every child
    /// is tried, and the first failure is returned.
    pub fn forward_signal<B: ProcessBackend>(&mut self, backend: &mut B, signal: Signal) -> (r:
        Result<(), SpawnError>)
        requires
            old(self).wf(),
        ensures
            final(self).wf(),
            only_records(old(self)@, final(self)@),
            exists|answers: Seq<Result<(), SpawnFault>>|
                #![trigger forward_results(old(self)@, children_upto(old(self)@, old(self)@.runtimes.len() as int), signal, answers)]
                forward_done(old(self)@, final(self)@, signal, request_outcome(r), answers, old(backend).log(), final(backend).log()),
    {
        let children = self.children();
        let ghost start = self@;
        let ghost all = children_upto(start, start.runtimes.len() as int);
        let ghost log0 = backend.log();
        let ghost mut answers: Seq<Result<(), SpawnFault>> = Seq::empty();
        let mut first_error: Option<SpawnError> = None;
        let mut j: usize = 0;
        while j < children.len()
            invariant
                j <= children@.len(),
                self.wf(),
                self@.runtimes.len() == start.runtimes.len(),
                only_records(start, self@),
                forall|x: int| 0 <= x < children@.len() ==> (#[trigger] children@[x]).0 < start.runtimes.len(),
                children@.map_values(|p: (usize, ChildHandle)| (p.0 as int, p.1)) == all,
                answers.len() == j,
                self@ == forward_results(start, all.take(j as int), signal, answers),
                backend.log() == log_signals(log0, signal_requests(all.take(j as int), signal), answers),
                match first_error {
                    Some(e) => first_failure(answers) == Some(e@),
                    None => first_failure(answers) is None,
                },
            decreases children@.len() - j,
        {
            let (i, child) = children[j];
            let result = backend.signal(child, signal);
            let ghost before = self@;
            self.record_signal_result(i, child, signal, &result);
            proof {
                lemma_signal_result_only_records(before, i as int, child, signal, request_outcome(result));
                let next = answers.push(request_outcome(result));
                assert(all.take(j + 1).drop_last() =~= all.take(j as int));
                assert(next.drop_last() =~= answers);
                assert(all.take(j + 1).last() == (i as int, child));
                assert(signal_requests(all.take(j + 1), signal) =~= signal_requests(
                    all.take(j as int),
                    signal,
                ).push((child, signal)));
                assert(backend.log() =~= log_signals(log0, signal_requests(all.take(j + 1), signal), next));
                answers = next;
            }
            match result {
                Ok(_) => {},
                Err(e) => {
                    if first_error.is_none() {
                        first_error = Some(e);
                    }
                },
            }
            j = j + 1;
        }
        proof {
            assert(all.take(children@.len() as int) =~= all);
            assert(forward_done(start, self@, signal, match first_error {
                Some(e) => Err(e@),
                None => Ok::<(), SpawnFault>(()),
            }, answers, log0, backend.log()));
        }
        match first_error {
            Some(e) => Err(e),
            None => Ok(()),
        }
    }

    /// Stops a service: its child gets the stop signal and the service
    /// waits in `Stopping`; a service without a child is stopped at once.
    /// The restart policy does not apply to the exit that follows.
    pub fn stop<B: ProcessBackend>(&mut self, backend: &mut B, name: &str) -> (r: Result<
        (),
        SpawnError,
    >)
        requires
            old(self).wf(),
        ensures
            final(self).wf(),
            final(backend).log() == log_signals(
                old(backend).log(),
                stop_signals(old(self)@, name@),
                stop_answers(old(self)@, name@, request_outcome(r)),
            ),
            ({
                let s = old(self)@;
                let i = service_index(s, name@);
                if !(0 <= i < s.runtimes.len()) {
                    final(self)@ == s && request_outcome(r) == Err::<(), SpawnFault>(
                        SpawnFault::Invalid("unknown service "@ + name@),
                    )
                } else if s.runtimes[i].state == ServiceState::Stopping {
                    final(self)@ == s && r is Ok
                } else if s.runtimes[i].child is None {
                    final(self)@ == spec_stop_requested(s, i) && r is Ok
                } else {
                    (r is Ok && final(self)@ == spec_stop_requested(s, i)) || (r is Err
                        && final(self)@ == s)
                }
            }),
    {
        let n = chars_of(name);
        let i = self.config.services.find(&n);
        proof {
            lemma_position_bounds(self@.config.services, n@);
        }
        if i >= self.runtimes.len() {
            return Err(invalid_request(&crate::values::joined("unknown service ", &n)));
        }
        let rt = self.runtimes[i];
        if rt.state == ServiceState::Stopping {
            return Ok(());
        }
        let cfg_stop_signal = self.config.services.value_at(i).stop_signal;
        let stop_timeout = self.config.services.value_at(i).stop_timeout_ms;
        match rt.child {
            Some(c) => {
                backend.signal(c, cfg_stop_signal)?;
            },
            None => {},
        }
        let new_rt = match rt.child {
            Some(_) => ServiceRuntime {
                restart_after_stop: false,
                stop_escalated: false,
                state: ServiceState::Stopping,
                stop_reason: Some(StopReason::Manual),
                stop_deadline_ms: Some(saturating_add(self.now_ms, stop_timeout)),
                ..rt
            },
            None => ServiceRuntime {
                restart_after_stop: false,
                stop_escalated: false,
                state: ServiceState::Stopped,
                stop_reason: None,
                stop_deadline_ms: None,
                ..rt
            },
        };
        proof {
            lemma_runtime_update(self@, i as int, new_rt, false);
        }
        self.manual_starts.set(i, false);
        self.runtimes.set(i, new_rt);
        let detail = chars_of("requested");
        self.record(&n, LogLevel::Notice, "stop", &detail);
        Ok(())
    }

    /// Restarts a service: stops it as `stop` does, then queues a start
    /// with the restart count reset; a service with a child starts again
    /// once that child has exited.
    pub fn restart<B: ProcessBackend>(&mut self, backend: &mut B, name: &str) -> (r: Result<
        (),
        SpawnError,
    >)
        requires
            old(self).wf(),
        ensures
            final(self).wf(),
            final(backend).log() == log_signals(
                old(backend).log(),
                stop_signals(old(self)@, name@),
                stop_answers(old(self)@, name@, request_outcome(r)),
            ),
            ({
                let s = old(self)@;
                let i = service_index(s, name@);
                let had_child = s.runtimes[i].child is Some;
                if !(0 <= i < s.runtimes.len()) {
                    final(self)@ == s && request_outcome(r) == Err::<(), SpawnFault>(
                        SpawnFault::Invalid("unknown service "@ + name@),
                    )
                } else if s.runtimes[i].state == ServiceState::Stopping {
                    final(self)@ == spec_restart_queued(s, i, had_child) && r is Ok
                } else if !had_child {
                    final(self)@ == spec_restart_queued(spec_stop_requested(s, i), i, had_child)
                        && r is Ok
                } else {
                    (r is Ok && final(self)@ == spec_restart_queued(
                        spec_stop_requested(s, i),
                        i,
                        had_child,
                    )) || (r is Err && final(self)@ == s)
                }
            }),
    {
        let n = chars_of(name);
        let i = self.config.services.find(&n);
        if i >= self.runtimes.len() {
            return Err(invalid_request(&crate::values::joined("unknown service ", &n)));
        }
        proof {
            lemma_position_bounds(self@.config.services, n@);
        }
        let had_child = self.runtimes[i].child.is_some();
        self.stop(backend, name)?;
        let rt = self.runtimes[i];
        let new_rt = ServiceRuntime {
            restart_count: 0,
            next_start_ms: self.now_ms,
            restart_after_stop: had_child,
            state: if had_child {
                rt.state
            } else {
                ServiceState::Defined
            },
            ..rt
        };
        proof {
            lemma_runtime_update(self@, i as int, new_rt, true);
        }
        self.manual_starts.set(i, true);
        self.runtimes.set(i, new_rt);
        let detail = chars_of("queued");
        self.record(&n, LogLevel::Notice, "restart", &detail);
        Ok(())
    }

    /// Requests a shutdown or reboot: the configured shutdown signal goes
    /// to every child, normal startup stops, and the timeout action applies
    /// on a later tick.
    pub fn request_shutdown<B: ProcessBackend>(&mut self, backend: &mut B, mode: ShutdownMode) -> (r:
        Result<(), SpawnError>)
        requires
            old(self).wf(),
        ensures
            final(self).wf(),
            shutdown_outcome(
                old(self)@,
                final(self)@,
                mode,
                request_outcome(r),
                old(backend).log(),
                final(backend).log(),
            ),
    {
        self.shutdown = Some(mode);
        self.shutdown_started_at_ms = self.now_ms;
        self.shutdown_escalated = false;
        let ghost begun = self@;
        assert(begun == shutdown_begun(old(self)@, mode));
        let signal = self.config.shutdown.signal;
        let sent = self.forward_signal(backend, signal);
        let ghost answers = choose|answers: Seq<Result<(), SpawnFault>>|
            forward_done(
                begun,
                self@,
                signal,
                request_outcome(sent),
                answers,
                old(backend).log(),
                backend.log(),
            );
        match sent {
            Ok(_) => {},
            Err(e) => {
                return Err(e);
            },
        }
        let service = chars_of("init");
        let mut detail: Vec<char> = Vec::new();
        match mode {
            ShutdownMode::Shutdown => push_str(&mut detail, "Shutdown"),
            ShutdownMode::Reboot => push_str(&mut detail, "Reboot"),
        }
        self.record(&service, LogLevel::Notice, "shutdown", &detail);
        Ok(())
    }
}

/// Recording the answer to a forwarded signal only records.
pub proof fn lemma_signal_result_only_records(
    s: SupervisorState,
    i: int,
    child: u64,
    signal: Signal,
    result: Result<(), SpawnFault>,
)
    ensures
        only_records(s, spec_signal_result(s, i, child, signal, result)),
{
}

/// The exits the backend reported, applied in turn.
pub open spec fn apply_exits(s: SupervisorState, exits: Seq<(u64, ChildExit)>) -> SupervisorState
    decreases exits.len(),
{
    if exits.len() == 0 {
        s
    } else {
        spec_apply_exit(apply_exits(s, exits.drop_last()), exits.last().0, exits.last().1)
    }
}

/// What reaping `orphans` orphaned children records.
pub open spec fn spec_reap(s: SupervisorState, orphans: u32) -> SupervisorState {
    if orphans != 0 {
        spec_record(s, "init"@, LogLevel::Notice, "reap"@, "orphans="@ + decimal(orphans as nat))
    } else {
        s
    }
}

/// What `tick` does for service `k` in the start pass, given the backend's
/// answer if it spawns the service.
pub open spec fn start_step(s: SupervisorState, k: int, answer: Result<u64, SpawnFault>) -> SupervisorState {
    let (s1, spawn) = spec_prepare_start(s, k);
    if spawn {
        spec_apply_spawn(s1, k, answer)
    } else {
        s1
    }
}

/// The start pass over the services in the given order, with the backend's
/// answer to each spawn (an answer is used only where a spawn is made).
pub open spec fn start_pass(
    s: SupervisorState,
    order: Seq<usize>,
    answers: Seq<Result<u64, SpawnFault>>,
) -> SupervisorState
    decreases order.len(),
{
    if order.len() == 0 {
        s
    } else {
        start_step(
            start_pass(s, order.drop_last(), answers.drop_last()),
            order.last() as int,
            answers.last(),
        )
    }
}

/// The timeout signals sent in turn, with the backend's answer to each: the
/// pass stops at the first refusal, which is returned.
pub open spec fn stop_pass(
    s: SupervisorState,
    actions: Seq<StopAction>,
    answers: Seq<Result<(), SpawnFault>>,
) -> (SupervisorState, Result<(), SpawnFault>)
    decreases actions.len(),
{
    if actions.len() == 0 {
        (s, Ok(()))
    } else {
        let (s1, r1) = stop_pass(s, actions.drop_last(), answers.drop_last());
        if r1 is Err {
            (s1, r1)
        } else {
            match answers.last() {
                Err(e) => (s1, Err(e)),
                Ok(_) => (spec_apply_stop_action(s1, actions.last()), Ok(())),
            }
        }
    }
}

/// The spawn requests of the start pass, in start order: the name and the
/// configuration of each service it decides to spawn.
pub open spec fn start_pass_spawns(
    s: SupervisorState,
    order: Seq<usize>,
    answers: Seq<Result<u64, SpawnFault>>,
) -> Seq<(Seq<char>, ServiceSpec)>
    decreases order.len(),
{
    if order.len() == 0 {
        Seq::empty()
    } else {
        let prev = start_pass(s, order.drop_last(), answers.drop_last());
        let rest = start_pass_spawns(s, order.drop_last(), answers.drop_last());
        let k = order.last() as int;
        if spec_prepare_start(prev, k).1 {
            rest.push((prev.config.services[k].0, prev.config.services[k].1))
        } else {
            rest
        }
    }
}

/// The signal requests of the timeout pass: each timeout signal in turn, up
/// to and including the first the backend refuses.
pub open spec fn stop_pass_signals(
    s: SupervisorState,
    actions: Seq<StopAction>,
    answers: Seq<Result<(), SpawnFault>>,
) -> Seq<(u64, Signal)>
    decreases actions.len(),
{
    if actions.len() == 0 {
        Seq::empty()
    } else {
        let rest = stop_pass_signals(s, actions.drop_last(), answers.drop_last());
        if stop_pass(s, actions.drop_last(), answers.drop_last()).1 is Err {
            rest
        } else {
            rest.push((actions.last().child, actions.last().signal))
        }
    }
}

/// The backend's answers the start pass takes in: the answer to each spawn
/// it makes, in order.
pub open spec fn start_pass_answers(
    s: SupervisorState,
    order: Seq<usize>,
    answers: Seq<Result<u64, SpawnFault>>,
) -> Seq<Result<u64, SpawnFault>>
    decreases order.len(),
{
    if order.len() == 0 {
        Seq::empty()
    } else {
        let prev = start_pass(s, order.drop_last(), answers.drop_last());
        let rest = start_pass_answers(s, order.drop_last(), answers.drop_last());
        if spec_prepare_start(prev, order.last() as int).1 {
            rest.push(answers.last())
        } else {
            rest
        }
    }
}

/// The backend's answers the timeout pass takes in: one per signal it
/// sends, up to and including the first refusal.
pub open spec fn stop_pass_answers(
    s: SupervisorState,
    actions: Seq<StopAction>,
    answers: Seq<Result<(), SpawnFault>>,
) -> Seq<Result<(), SpawnFault>>
    decreases actions.len(),
{
    if actions.len() == 0 {
        Seq::empty()
    } else {
        let rest = stop_pass_answers(s, actions.drop_last(), answers.drop_last());
        if stop_pass(s, actions.drop_last(), answers.drop_last()).1 is Err {
            rest
        } else {
            rest.push(answers.last())
        }
    }
}

/// Once the timeout pass has stopped at a refusal, the signals left do not
/// change its outcome.
pub proof fn lemma_stop_pass_error_sticks(
    s: SupervisorState,
    actions: Seq<StopAction>,
    answers: Seq<Result<(), SpawnFault>>,
    k: int,
)
    requires
        0 <= k <= actions.len(),
        answers.len() == actions.len(),
        stop_pass(s, actions.take(k), answers.take(k)).1 is Err,
    ensures
        stop_pass(s, actions, answers) == stop_pass(s, actions.take(k), answers.take(k)),
        stop_pass_signals(s, actions, answers) == stop_pass_signals(
            s,
            actions.take(k),
            answers.take(k),
        ),
        stop_pass_answers(s, actions, answers) == stop_pass_answers(
            s,
            actions.take(k),
            answers.take(k),
        ),
    decreases actions.len() - k,
{
    if k < actions.len() {
        assert(actions.take(k + 1).drop_last() =~= actions.take(k));
        assert(answers.take(k + 1).drop_last() =~= answers.take(k));
        lemma_stop_pass_error_sticks(s, actions, answers, k + 1);
    } else {
        assert(actions.take(k) =~= actions);
        assert(answers.take(k) =~= answers);
    }
}

/// What `tick` does while a shutdown is pending: once the shutdown timeout
/// has passed, the timeout action applies, once (the kill signal to every
/// child, with the backend's answers, or a halt record).
pub open spec fn shutdown_pass(
    s: SupervisorState,
    now: u64,
    answers: Seq<Result<(), SpawnFault>>,
) -> (SupervisorState, Result<(), SpawnFault>) {
    if !s.shutdown_escalated && shutdown_elapsed(s.shutdown_started_at_ms, now)
        >= s.config.shutdown.timeout_ms {
        let s1 = SupervisorState { shutdown_escalated: true, ..s };
        match s.config.shutdown.on_timeout {
            ShutdownTimeoutAction::Kill => {
                let sent = forward_results(
                    s1,
                    children_upto(s1, s1.runtimes.len() as int),
                    Signal::Kill,
                    answers,
                );
                match first_failure(answers) {
                    Some(e) => (sent, Err(e)),
                    None => (
                        spec_record(
                            sent,
                            "init"@,
                            LogLevel::Warn,
                            "shutdown-timeout"@,
                            "signal=kill"@,
                        ),
                        Ok(()),
                    ),
                }
            },
            ShutdownTimeoutAction::Halt => (
                spec_record(s1, "init"@, LogLevel::Warn, "shutdown-timeout"@, "action=halt"@),
                Ok(()),
            ),
        }
    } else {
        (s, Ok(()))
    }
}

/// The services that have a child depend only on the runtimes.
pub proof fn lemma_children_upto_runtimes(a: SupervisorState, b: SupervisorState, k: int)
    requires
        a.runtimes == b.runtimes,
    ensures
        children_upto(a, k) == children_upto(b, k),
    decreases k,
{
    if k > 0 {
        lemma_children_upto_runtimes(a, b, k - 1);
    }
}

/// The signal requests of the shutdown pass: the kill signal to every child
/// when the shutdown timeout has just passed and its action is to kill.
pub open spec fn shutdown_pass_signals(s: SupervisorState, now: u64) -> Seq<(u64, Signal)> {
    if !s.shutdown_escalated && shutdown_elapsed(s.shutdown_started_at_ms, now)
        >= s.config.shutdown.timeout_ms && s.config.shutdown.on_timeout
        == ShutdownTimeoutAction::Kill {
        let s1 = SupervisorState { shutdown_escalated: true, ..s };
        signal_requests(children_upto(s1, s1.runtimes.len() as int), Signal::Kill)
    } else {
        Seq::empty()
    }
}

/// The backend's answers the shutdown pass takes in: one per child when it
/// sends the kill signal.
pub open spec fn shutdown_pass_answers(
    s: SupervisorState,
    now: u64,
    answers: Seq<Result<(), SpawnFault>>,
) -> Seq<Result<(), SpawnFault>> {
    if !s.shutdown_escalated && shutdown_elapsed(s.shutdown_started_at_ms, now)
        >= s.config.shutdown.timeout_ms && s.config.shutdown.on_timeout
        == ShutdownTimeoutAction::Kill {
        answers
    } else {
        Seq::empty()
    }
}

/// Forwarding a signal only records.
pub proof fn lemma_forward_results_only_records(
    s: SupervisorState,
    children: Seq<(int, u64)>,
    signal: Signal,
    answers: Seq<Result<(), SpawnFault>>,
)
    ensures
        only_records(s, forward_results(s, children, signal, answers)),
    decreases children.len(),
{
    if children.len() > 0 {
        lemma_forward_results_only_records(s, children.drop_last(), signal, answers.drop_last());
        let prev = forward_results(s, children.drop_last(), signal, answers.drop_last());
        lemma_signal_result_only_records(prev, children.last().0, children.last().1, signal, answers.last());
    }
}

/// What the shutdown pass leaves: the shutdown as it was, the runtimes as
/// they were, the timeout action applied once the timeout has passed, and
/// a refusal only from the kill signal.
pub proof fn lemma_shutdown_pass_facts(s: SupervisorState, now: u64, kills: Seq<Result<(), SpawnFault>>)
    requires
        s.shutdown is Some,
    ensures
        ({
            let (t, r) = shutdown_pass(s, now, kills);
            &&& t.now_ms == s.now_ms
            &&& t.config == s.config
            &&& t.shutdown == s.shutdown
            &&& t.runtimes == s.runtimes
            &&& t.shutdown_escalated == (s.shutdown_escalated || shutdown_elapsed(
                s.shutdown_started_at_ms,
                now,
            ) >= s.config.shutdown.timeout_ms)
            &&& r is Err ==> !s.shutdown_escalated && s.config.shutdown.on_timeout
                == ShutdownTimeoutAction::Kill
        }),
{
    let s1 = SupervisorState { shutdown_escalated: true, ..s };
    lemma_forward_results_only_records(
        s1,
        children_upto(s1, s1.runtimes.len() as int),
        Signal::Kill,
        kills,
    );
}

/// Everything that the backend reports or answers during one tick.
pub struct TickAnswers {
    pub exits: Seq<(u64, ChildExit)>,
    pub orphans: u32,
    pub kills: Seq<Result<(), SpawnFault>>,
    pub order: Seq<usize>,
    pub spawns: Seq<Result<u64, SpawnFault>>,
    pub stops: Seq<Result<(), SpawnFault>>,
}

/// The state after the exits and the reaping of a tick.
pub open spec fn tick_reaped(s: SupervisorState, now: u64, a: TickAnswers) -> SupervisorState {
    spec_reap(apply_exits(SupervisorState { now_ms: now, ..s }, a.exits), a.orphans)
}

/// The answers fit the tick: one per child for the kill signal, the start
/// order, one per service for spawns and one per timeout signal.
pub open spec fn tick_answers_fit(s: SupervisorState, now: u64, a: TickAnswers) -> bool {
    let s2 = tick_reaped(s, now, a);
    if s2.shutdown is Some {
        a.kills.len() == children_upto(s2, s2.runtimes.len() as int).len()
    } else {
        &&& is_start_order(s2, a.order)
        &&& a.spawns.len() == a.order.len()
        &&& a.stops.len() == stop_actions_upto(
            start_pass(s2, a.order, a.spawns),
            s2.runtimes.len() as int,
        ).len()
    }
}

/// What one tick leaves and returns, given what the backend reported and
/// answered: exits taken in, orphans reaped, then either the shutdown pass
/// (while a shutdown is pending) or the start pass in start order followed
/// by the timeout pass.
pub open spec fn tick_result(s: SupervisorState, now: u64, a: TickAnswers) -> (
    SupervisorState,
    Result<(), SpawnFault>,
) {
    let s2 = tick_reaped(s, now, a);
    if s2.shutdown is Some {
        shutdown_pass(s2, now, a.kills)
    } else {
        let s3 = start_pass(s2, a.order, a.spawns);
        stop_pass(s3, stop_actions_upto(s3, s3.runtimes.len() as int), a.stops)
    }
}

/// What one tick leaves and returns, for some reports and answers of the
/// backend.
pub open spec fn tick_outcome(
    s: SupervisorState,
    now: u64,
    t: SupervisorState,
    r: Result<(), SpawnFault>,
    before: BackendLog,
    after: BackendLog,
) -> bool {
    exists|a: TickAnswers|
        #![trigger tick_result(s, now, a)]
        tick_answers_fit(s, now, a) && tick_result(s, now, a) == (t, r) && after == tick_log(
            s,
            now,
            a,
            before,
        )
}

/// The backend's log after one tick: one poll that reported the exits, the
/// spawn requests of the start pass and the signal requests of the timeout
/// or shutdown pass, each with the answers taken in.
pub open spec fn tick_log(s: SupervisorState, now: u64, a: TickAnswers, before: BackendLog) -> BackendLog {
    log_signals(
        log_spawns(
            BackendLog { polls: before.polls.push(a.exits), ..before },
            tick_spawns(s, now, a),
            tick_spawn_answers(s, now, a),
        ),
        tick_signals(s, now, a),
        tick_signal_answers(s, now, a),
    )
}

/// The spawn answers one tick takes in.
pub open spec fn tick_spawn_answers(s: SupervisorState, now: u64, a: TickAnswers) -> Seq<
    Result<u64, SpawnFault>,
> {
    let s2 = tick_reaped(s, now, a);
    if s2.shutdown is Some {
        Seq::empty()
    } else {
        start_pass_answers(s2, a.order, a.spawns)
    }
}

/// The signal answers one tick takes in.
pub open spec fn tick_signal_answers(s: SupervisorState, now: u64, a: TickAnswers) -> Seq<
    Result<(), SpawnFault>,
> {
    let s2 = tick_reaped(s, now, a);
    if s2.shutdown is Some {
        shutdown_pass_answers(s2, now, a.kills)
    } else {
        let s3 = start_pass(s2, a.order, a.spawns);
        stop_pass_answers(s3, stop_actions_upto(s3, s3.runtimes.len() as int), a.stops)
    }
}

/// The spawn requests of one tick: none while a shutdown is pending, else
/// those of the start pass.
pub open spec fn tick_spawns(s: SupervisorState, now: u64, a: TickAnswers) -> Seq<(Seq<char>, ServiceSpec)> {
    let s2 = tick_reaped(s, now, a);
    if s2.shutdown is Some {
        Seq::empty()
    } else {
        start_pass_spawns(s2, a.order, a.spawns)
    }
}

/// The signal requests of one tick: those of the shutdown pass while a
/// shutdown is pending, else those of the timeout pass.
pub open spec fn tick_signals(s: SupervisorState, now: u64, a: TickAnswers) -> Seq<(u64, Signal)> {
    let s2 = tick_reaped(s, now, a);
    if s2.shutdown is Some {
        shutdown_pass_signals(s2, now)
    } else {
        let s3 = start_pass(s2, a.order, a.spawns);
        stop_pass_signals(s3, stop_actions_upto(s3, s3.runtimes.len() as int), a.stops)
    }
}

/// A tick that finds a shutdown pending ends with the shutdown pass.
pub proof fn lemma_tick_while_shutting_down(
    s: SupervisorState,
    now: u64,
    exits: Seq<(u64, ChildExit)>,
    orphans: u32,
    kills: Seq<Result<(), SpawnFault>>,
    before: BackendLog,
)
    requires
        ({
            let s2 = spec_reap(apply_exits(SupervisorState { now_ms: now, ..s }, exits), orphans);
            s2.shutdown is Some && kills.len() == children_upto(s2, s2.runtimes.len() as int).len()
        }),
    ensures
        ({
            let s2 = spec_reap(apply_exits(SupervisorState { now_ms: now, ..s }, exits), orphans);
            let (t, r) = shutdown_pass(s2, now, kills);
            tick_outcome(
                s,
                now,
                t,
                r,
                before,
                log_signals(
                    BackendLog { polls: before.polls.push(exits), ..before },
                    shutdown_pass_signals(s2, now),
                    shutdown_pass_answers(s2, now, kills),
                ),
            )
        }),
{
    let a = TickAnswers {
        exits,
        orphans,
        kills,
        order: Seq::empty(),
        spawns: Seq::empty(),
        stops: Seq::empty(),
    };
    let s2 = spec_reap(apply_exits(SupervisorState { now_ms: now, ..s }, exits), orphans);
    assert(tick_answers_fit(s, now, a));
    assert(tick_result(s, now, a) == shutdown_pass(s2, now, kills));
    assert(tick_log(s, now, a, before) =~= log_signals(
        BackendLog { polls: before.polls.push(exits), ..before },
        shutdown_pass_signals(s2, now),
        shutdown_pass_answers(s2, now, kills),
    ));
}

/// A tick that finds no shutdown pending ends with the start pass and the
/// timeout pass.
pub proof fn lemma_tick_running(
    s: SupervisorState,
    now: u64,
    exits: Seq<(u64, ChildExit)>,
    orphans: u32,
    order: Seq<usize>,
    spawns: Seq<Result<u64, SpawnFault>>,
    stops: Seq<Result<(), SpawnFault>>,
    before: BackendLog,
)
    requires
        ({
            let s2 = spec_reap(apply_exits(SupervisorState { now_ms: now, ..s }, exits), orphans);
            let s3 = start_pass(s2, order, spawns);
            &&& s2.shutdown is None
            &&& is_start_order(s2, order)
            &&& spawns.len() == order.len()
            &&& s3.runtimes.len() == s2.runtimes.len()
            &&& stops.len() == stop_actions_upto(s3, s3.runtimes.len() as int).len()
        }),
    ensures
        ({
            let s2 = spec_reap(apply_exits(SupervisorState { now_ms: now, ..s }, exits), orphans);
            let s3 = start_pass(s2, order, spawns);
            let acts = stop_actions_upto(s3, s3.runtimes.len() as int);
            let (t, r) = stop_pass(s3, acts, stops);
            tick_outcome(
                s,
                now,
                t,
                r,
                before,
                log_signals(
                    log_spawns(
                        BackendLog { polls: before.polls.push(exits), ..before },
                        start_pass_spawns(s2, order, spawns),
                        start_pass_answers(s2, order, spawns),
                    ),
                    stop_pass_signals(s3, acts, stops),
                    stop_pass_answers(s3, acts, stops),
                ),
            )
        }),
{
    let a = TickAnswers { exits, orphans, kills: Seq::empty(), order, spawns, stops };
    let s2 = spec_reap(apply_exits(SupervisorState { now_ms: now, ..s }, exits), orphans);
    let s3 = start_pass(s2, order, spawns);
    assert(tick_answers_fit(s, now, a));
    assert(tick_result(s, now, a) == stop_pass(
        s3,
        stop_actions_upto(s3, s3.runtimes.len() as int),
        stops,
    ));
}

/// The time since a shutdown was requested, or zero when the clock is
/// behind the request.
pub open spec fn shutdown_elapsed(started: u64, now: u64) -> int {
    if now >= started {
        now - started
    } else {
        0
    }
}

/// Service `a` comes before service `b` in start order: by `order`, then
/// by name.
pub open spec fn starts_before(s: SupervisorState, a: int, b: int) -> bool {
    let oa = s.config.services[a].1.order;
    let ob = s.config.services[b].1.order;
    oa < ob || (oa == ob && a < b)
}

/// `order` lists every service once, sorted by `order` and then by name.
pub open spec fn is_start_order(s: SupervisorState, order: Seq<usize>) -> bool {
    &&& order.len() == s.runtimes.len()
    &&& forall|x: int| 0 <= x < order.len() ==> (#[trigger] order[x]) < s.runtimes.len()
    &&& forall|x: int, y: int|
        0 <= x < y < order.len() ==> starts_before(s, #[trigger] order[x] as int, #[trigger] order[y] as int)
}

/// The start order lists every service.
pub proof fn lemma_start_order_complete(s: SupervisorState, order: Seq<usize>)
    requires
        is_start_order(s, order),
    ensures
        forall|x: int, y: int| 0 <= x < y < order.len() ==> order[x] != order[y],
{
}

/// The timeout actions name services with a child, each once, in name order.
pub proof fn lemma_stop_actions(s: SupervisorState, k: int)
    requires
        0 <= k <= s.runtimes.len(),
        k <= usize::MAX,
    ensures
        forall|x: int|
            0 <= x < stop_actions_upto(s, k).len() ==> {
                let a = #[trigger] stop_actions_upto(s, k)[x];
                &&& a.index < k
                &&& s.runtimes[a.index as int].child is Some
            },
        forall|x: int, y: int|
            0 <= x < y < stop_actions_upto(s, k).len() ==> (#[trigger] stop_actions_upto(s, k)[x]).index
                < (#[trigger] stop_actions_upto(s, k)[y]).index,
    decreases k,
{
    if k > 0 {
        lemma_stop_actions(s, k - 1);
        let prev = stop_actions_upto(s, k - 1);
        match stop_action_for(s, k - 1) {
            Some(a) => {
                assert(a.index == k - 1);
                let cur = prev.push(a);
                assert forall|x: int| 0 <= x < cur.len() implies {
                    let b = #[trigger] cur[x];
                    &&& b.index < k
                    &&& s.runtimes[b.index as int].child is Some
                } by {
                    if x < prev.len() {
                        assert(cur[x] == prev[x]);
                    }
                }
                assert forall|x: int, y: int| 0 <= x < y < cur.len() implies (#[trigger] cur[x]).index
                    < (#[trigger] cur[y]).index by {
                    assert(cur[x] == prev[x]);
                    if y < prev.len() {
                        assert(cur[y] == prev[y]);
                    }
                }
            },
            None => {},
        }
    }
}

impl Supervisor {
    /// Every service, sorted by `order` and then by name.
    pub fn start_order(&self) -> (order: Vec<usize>)
        requires
            self.wf(),
        ensures
            is_start_order(self@, order@),
    {
        let n = self.runtimes.len();
        let mut out: Vec<usize> = Vec::new();
        let mut i: usize = 0;
        while i < n
            invariant
                i <= n,
                n == self@.runtimes.len(),
                self.wf(),
                out@.len() == i,
                forall|x: int| 0 <= x < out@.len() ==> (#[trigger] out@[x]) < i,
                forall|x: int, y: int|
                    0 <= x < y < out@.len() ==> starts_before(self@, #[trigger] out@[x] as int, #[trigger] out@[y] as int),
            decreases n - i,
        {
            let oi = self.config.services.value_at(i).order;
            let mut p: usize = 0;
            while p < out.len() && self.config.services.value_at(out[p]).order <= oi
                invariant
                    p <= out@.len(),
                    self.wf(),
                    forall|x: int| 0 <= x < out@.len() ==> (#[trigger] out@[x]) < i,
                    i < self@.runtimes.len(),
                    oi == self@.config.services[i as int].1.order,
                    forall|x: int|
                        0 <= x < p ==> self@.config.services[(#[trigger] out@[x]) as int].1.order
                            <= oi,
                decreases out@.len() - p,
            {
                p = p + 1;
            }
            let ghost before = out@;
            out.insert(p, i);
            assert(out@ =~= before.insert(p as int, i));
            assert forall|x: int, y: int| 0 <= x < y < out@.len() implies starts_before(
                self@,
                #[trigger] out@[x] as int,
                #[trigger] out@[y] as int,
            ) by {
                if y < p {
                    assert(out@[x] == before[x] && out@[y] == before[y]);
                } else if y == p {
                    assert(out@[x] == before[x]);
                } else if x < p {
                    assert(out@[x] == before[x] && out@[y] == before[y - 1]);
                } else if x == p {
                    assert(out@[y] == before[y - 1]);
                    assert(!(self@.config.services[before[p as int] as int].1.order <= oi));
                    if y - 1 > p {
                        assert(starts_before(self@, before[p as int] as int, before[y - 1] as int));
                    }
                } else {
                    assert(out@[x] == before[x - 1] && out@[y] == before[y - 1]);
                }
            }
            i = i + 1;
        }
        out
    }

    /// Advances the supervisor to `now_ms`: takes in the exits the backend
    /// reports, reaps orphans, applies the shutdown timeout while a
    /// shutdown is pending, and otherwise starts what may start (in start
    /// order) and signals children whose timeouts passed.
    /// Takes in the exits the backend reported, in order.
    fn take_exits(&mut self, exits: &Vec<(ChildHandle, ChildExit)>)
        requires
            old(self).wf(),
        ensures
            final(self).wf(),
            final(self)@ == apply_exits(old(self)@, exits@),
            final(self)@.config == old(self)@.config,
            final(self)@.now_ms == old(self)@.now_ms,
            final(self)@.runtimes.len() == old(self)@.runtimes.len(),
            old(self)@.shutdown is Some ==> final(self)@.shutdown == old(self)@.shutdown,
            final(self)@.shutdown_started_at_ms == old(self)@.shutdown_started_at_ms,
            final(self)@.shutdown_escalated == old(self)@.shutdown_escalated,
            forall|i: int|
                0 <= i < final(self)@.runtimes.len() && (#[trigger] final(self)@.runtimes[i]).child
                    is Some ==> final(self)@.runtimes[i].child == old(self)@.runtimes[i].child,
    {
        let ghost s0 = self@;
        let mut e: usize = 0;
        assert(exits@.take(0) =~= Seq::<(u64, ChildExit)>::empty());
        while e < exits.len()
            invariant
                e <= exits@.len(),
                self.wf(),
                self@.now_ms == s0.now_ms,
                self@.config == s0.config,
                self@.runtimes.len() == s0.runtimes.len(),
                s0.shutdown is Some ==> self@.shutdown == s0.shutdown,
                self@.shutdown_started_at_ms == s0.shutdown_started_at_ms,
                self@.shutdown_escalated == s0.shutdown_escalated,
                forall|i: int|
                    0 <= i < self@.runtimes.len() && (#[trigger] self@.runtimes[i]).child is Some
                        ==> self@.runtimes[i].child == s0.runtimes[i].child,
                self@ == apply_exits(s0, exits@.take(e as int)),
            decreases exits.len() - e,
        {
            let (child, exit) = exits[e];
            let ghost before = self@;
            self.apply_exit(child, exit);
            proof {
                let k = child_owner(before.runtimes, child);
                assert forall|i: int|
                    0 <= i < self@.runtimes.len() && (#[trigger] self@.runtimes[i]).child is Some
                        implies self@.runtimes[i].child == s0.runtimes[i].child by {
                    if i != k {
                        assert(self@.runtimes[i] == before.runtimes[i]);
                    }
                }
                assert(exits@.take(e + 1).drop_last() =~= exits@.take(e as int));
            }
            e = e + 1;
        }
        assert(exits@.take(exits@.len() as int) =~= exits@);
    }

    /// Records the orphans the backend reaped.
    fn record_reap(&mut self, orphans: u32)
        requires
            old(self).wf(),
        ensures
            final(self).wf(),
            final(self)@ == spec_reap(old(self)@, orphans),
            final(self)@.runtimes == old(self)@.runtimes,
            final(self)@.config == old(self)@.config,
            final(self)@.now_ms == old(self)@.now_ms,
            old(self)@.shutdown is Some ==> final(self)@.shutdown == old(self)@.shutdown,
            final(self)@.shutdown_started_at_ms == old(self)@.shutdown_started_at_ms,
            final(self)@.shutdown_escalated == old(self)@.shutdown_escalated,
    {
        if orphans != 0 {
            let service = chars_of("init");
            let mut detail = chars_of("orphans=");
            push_decimal(&mut detail, orphans as u64);
            self.record(&service, LogLevel::Notice, "reap", &detail);
        }
    }

    /// The shutdown pass of a tick.
    #[verifier::rlimit(50)]
    fn shutdown_step<B: ProcessBackend>(&mut self, backend: &mut B, now_ms: u64) -> (r: (
        Result<(), SpawnError>,
        Ghost<Seq<Result<(), SpawnFault>>>,
    ))
        requires
            old(self).wf(),
            old(self)@.shutdown is Some,
        ensures
            final(self).wf(),
            r.1@.len() == children_upto(old(self)@, old(self)@.runtimes.len() as int).len(),
            shutdown_pass(old(self)@, now_ms, r.1@) == (final(self)@, request_outcome(r.0)),
            final(backend).log() == log_signals(
                old(backend).log(),
                shutdown_pass_signals(old(self)@, now_ms),
                shutdown_pass_answers(old(self)@, now_ms, r.1@),
            ),
    {
        let ghost s2 = self@;
        let ghost log0 = backend.log();
        let elapsed: u64 = if now_ms >= self.shutdown_started_at_ms {
            now_ms - self.shutdown_started_at_ms
        } else {
            0
        };
        let ghost n = children_upto(s2, s2.runtimes.len() as int).len();
        let ghost mut kills: Seq<Result<(), SpawnFault>> = Seq::new(n, |i: int| Ok(()));
        if !self.shutdown_escalated && elapsed >= self.config.shutdown.timeout_ms {
            self.shutdown_escalated = true;
            let ghost s1 = self@;
            proof {
                lemma_children_upto_runtimes(s1, s2, s2.runtimes.len() as int);
            }
            let service = chars_of("init");
            match self.config.shutdown.on_timeout {
                ShutdownTimeoutAction::Kill => {
                    let sent = self.forward_signal(backend, Signal::Kill);
                    proof {
                        kills = choose|answers: Seq<Result<(), SpawnFault>>|
                            forward_done(
                                s1,
                                self@,
                                Signal::Kill,
                                request_outcome(sent),
                                answers,
                                log0,
                                backend.log(),
                            );
                    }
                    match sent {
                        Ok(_) => {},
                        Err(err) => {
                            assert(shutdown_pass(s2, now_ms, kills) == (self@, Err::<(), SpawnFault>(err@)));
                            assert(backend.log() == log_signals(
                                log0,
                                shutdown_pass_signals(s2, now_ms),
                                shutdown_pass_answers(s2, now_ms, kills),
                            ));
                            return (Err(err), Ghost(kills));
                        },
                    }
                    let detail = chars_of("signal=kill");
                    self.record(&service, LogLevel::Warn, "shutdown-timeout", &detail);
                },
                ShutdownTimeoutAction::Halt => {
                    let detail = chars_of("action=halt");
                    self.record(&service, LogLevel::Warn, "shutdown-timeout", &detail);
                },
            }
        }
        assert(shutdown_pass(s2, now_ms, kills) == (self@, Ok::<(), SpawnFault>(())));
        assert(backend.log() =~= log_signals(
            log0,
            shutdown_pass_signals(s2, now_ms),
            shutdown_pass_answers(s2, now_ms, kills),
        ));
        (Ok(()), Ghost(kills))
    }

    /// The start pass of a tick, over the services in the given order.
    #[verifier::rlimit(50)]
    fn start_step_all<B: ProcessBackend>(&mut self, backend: &mut B, order: &Vec<usize>) -> (spawns:
        Ghost<Seq<Result<u64, SpawnFault>>>)
        requires
            links_resolved(old(self)@.config),
            old(self).wf(),
            is_start_order(old(self)@, order@),
        ensures
            final(self).wf(),
            final(self)@.config == old(self)@.config,
            final(self)@.now_ms == old(self)@.now_ms,
            spawns@.len() == order@.len(),
            final(self)@ == start_pass(old(self)@, order@, spawns@),
            final(backend).log() == log_spawns(
                old(backend).log(),
                start_pass_spawns(old(self)@, order@, spawns@),
                start_pass_answers(old(self)@, order@, spawns@),
            ),
    {
        let ghost s2 = self@;
        let ghost log0 = backend.log();
        let ghost mut spawns: Seq<Result<u64, SpawnFault>> = Seq::empty();
        let mut x: usize = 0;
        assert(order@.take(0) =~= Seq::<usize>::empty());
        while x < order.len()
            invariant
                x <= order@.len(),
                self.wf(),
                self@.now_ms == s2.now_ms,
                self@.config == s2.config,
                is_start_order(self@, order@),
                spawns.len() == x,
                self@ == start_pass(s2, order@.take(x as int), spawns),
                links_resolved(self@.config),
                backend.log() == log_spawns(
                    log0,
                    start_pass_spawns(s2, order@.take(x as int), spawns),
                    start_pass_answers(s2, order@.take(x as int), spawns),
                ),
            decreases order.len() - x,
        {
            let k = order[x];
            let ghost before = self@;
            let ghost mut answer: Result<u64, SpawnFault> = Ok(0);
            let go = self.prepare_start(k);
            proof {
                assert(self@.config == before.config);
            }
            if go {
                let result = backend.spawn(
                    self.config.services.name_at(k).as_str(),
                    self.config.services.value_at(k),
                );
                proof {
                    answer = spawn_outcome(result);
                }
                self.apply_spawn(k, result);
            }
            proof {
                assert(self@ == start_step(before, k as int, answer));
                assert(order@.take(x + 1).drop_last() =~= order@.take(x as int));
                assert(spawns.push(answer).drop_last() =~= spawns);
                assert(order@.take(x + 1).last() == k);
                spawns = spawns.push(answer);
                assert(backend.log() =~= log_spawns(
                    log0,
                    start_pass_spawns(s2, order@.take(x + 1), spawns),
                    start_pass_answers(s2, order@.take(x + 1), spawns),
                ));
            }
            x = x + 1;
        }
        assert(order@.take(order@.len() as int) =~= order@);
        Ghost(spawns)
    }

    /// The timeout pass of a tick: the signals of the timeouts that have
    /// passed, stopping at the first the backend refuses.
    #[verifier::rlimit(50)]
    fn timeout_step<B: ProcessBackend>(&mut self, backend: &mut B) -> (r: (
        Result<(), SpawnError>,
        Ghost<Seq<Result<(), SpawnFault>>>,
    ))
        requires
            old(self).wf(),
        ensures
            final(self).wf(),
            final(self)@.config == old(self)@.config,
            final(self)@.now_ms == old(self)@.now_ms,
            r.1@.len() == stop_actions_upto(old(self)@, old(self)@.runtimes.len() as int).len(),
            stop_pass(
                old(self)@,
                stop_actions_upto(old(self)@, old(self)@.runtimes.len() as int),
                r.1@,
            ) == (final(self)@, request_outcome(r.0)),
            final(backend).log() == log_signals(
                old(backend).log(),
                stop_pass_signals(
                    old(self)@,
                    stop_actions_upto(old(self)@, old(self)@.runtimes.len() as int),
                    r.1@,
                ),
                stop_pass_answers(
                    old(self)@,
                    stop_actions_upto(old(self)@, old(self)@.runtimes.len() as int),
                    r.1@,
                ),
            ),
    {
        let ghost log0 = backend.log();
        let actions = self.stop_actions();
        let ghost s3 = self@;
        let n = self.runtimes.len();
        proof {
            lemma_stop_actions(s3, s3.runtimes.len() as int);
        }
        let ghost mut stops: Seq<Result<(), SpawnFault>> = Seq::empty();
        let mut j: usize = 0;
        assert(actions@.take(0) =~= Seq::<StopAction>::empty());
        while j < actions.len()
            invariant
                j <= actions@.len(),
                self.wf(),
                self@.now_ms == s3.now_ms,
                self@.config == s3.config,
                actions@ == stop_actions_upto(s3, s3.runtimes.len() as int),
                self@.runtimes.len() == s3.runtimes.len(),
                forall|y: int|
                    0 <= y < actions@.len() ==> {
                        let a = #[trigger] actions@[y];
                        &&& a.index < s3.runtimes.len()
                        &&& s3.runtimes[a.index as int].child is Some
                    },
                forall|y: int, z: int|
                    0 <= y < z < actions@.len() ==> (#[trigger] actions@[y]).index
                        < (#[trigger] actions@[z]).index,
                forall|y: int|
                    j <= y < actions@.len() ==> self@.runtimes[(#[trigger] actions@[y]).index as int]
                        == s3.runtimes[actions@[y].index as int],
                stops.len() == j,
                stop_pass(s3, actions@.take(j as int), stops) == (self@, Ok::<(), SpawnFault>(())),
                s3 == old(self)@,
                backend.log() == log_signals(
                    log0,
                    stop_pass_signals(s3, actions@.take(j as int), stops),
                    stop_pass_answers(s3, actions@.take(j as int), stops),
                ),
                log0 == old(backend).log(),
            decreases actions@.len() - j,
        {
            let a = actions[j];
            let sent = backend.signal(a.child, a.signal);
            match sent {
                Ok(_) => {},
                Err(err) => {
                    proof {
                        let rest = actions@.len() - j - 1;
                        let full = stops.push(Err(err@)) + Seq::new(
                            rest as nat,
                            |i: int| Ok::<(), SpawnFault>(()),
                        );
                        assert(actions@.take(j + 1).drop_last() =~= actions@.take(j as int));
                        assert(full.take(j + 1).drop_last() =~= stops);
                        assert(full.take(j + 1).last() == Err::<(), SpawnFault>(err@));
                        lemma_stop_pass_error_sticks(s3, actions@, full, j + 1);
                        assert(stop_pass(s3, actions@, full) == (self@, Err::<(), SpawnFault>(err@)));
                        assert(actions@.take(j + 1).last() == a);
                        assert(backend.log() =~= log_signals(
                            log0,
                            stop_pass_signals(s3, actions@, full),
                            stop_pass_answers(s3, actions@, full),
                        ));
                        stops = full;
                    }
                    return (Err(err), Ghost(stops));
                },
            }
            let ghost before = self@;
            self.apply_stop_action(a);
            proof {
                assert forall|y: int| j + 1 <= y < actions@.len() implies self@.runtimes[(#[trigger] actions@[y]).index as int]
                    == s3.runtimes[actions@[y].index as int] by {
                    assert(actions@[y].index != a.index);
                }
                assert(actions@.take(j + 1).drop_last() =~= actions@.take(j as int));
                assert(stops.push(Ok(())).drop_last() =~= stops);
                assert(actions@.take(j + 1).last() == a);
                stops = stops.push(Ok(()));
                assert(backend.log() =~= log_signals(
                    log0,
                    stop_pass_signals(s3, actions@.take(j + 1), stops),
                    stop_pass_answers(s3, actions@.take(j + 1), stops),
                ));
            }
            j = j + 1;
        }
        assert(actions@.take(actions@.len() as int) =~= actions@);
        (Ok(()), Ghost(stops))
    }

    /// Advances the supervisor to `now_ms`: takes in the exits the backend
    /// reports, reaps orphans, applies the shutdown timeout while a
    /// shutdown is pending, and otherwise starts what may start (in start
    /// order) and signals children whose timeouts passed.
    #[verifier::rlimit(80)]
    pub fn tick<B: ProcessBackend>(&mut self, backend: &mut B, now_ms: u64) -> (r: Result<
        (),
        SpawnError,
    >)
        requires
            links_resolved(old(self)@.config),
            old(self).wf(),
        ensures
            final(self).wf(),
            final(self)@.now_ms == now_ms,
            final(self)@.config == old(self)@.config,
            tick_outcome(
                old(self)@,
                now_ms,
                final(self)@,
                request_outcome(r),
                old(backend).log(),
                final(backend).log(),
            ),
            old(self)@.shutdown is Some ==> {
                let s = old(self)@;
                let t = final(self)@;
                &&& t.shutdown == s.shutdown
                &&& t.shutdown_escalated == (s.shutdown_escalated || shutdown_elapsed(
                    s.shutdown_started_at_ms,
                    now_ms,
                ) >= s.config.shutdown.timeout_ms)
                &&& forall|i: int|
                    0 <= i < t.runtimes.len() && (#[trigger] t.runtimes[i]).child is Some
                        ==> t.runtimes[i].child == s.runtimes[i].child
                &&& r is Err ==> !s.shutdown_escalated && s.config.shutdown.on_timeout
                    == ShutdownTimeoutAction::Kill
            },
    {
        let ghost s0 = self@;
        let ghost log0 = backend.log();
        self.now_ms = now_ms;
        let ghost s_now = self@;
        assert(s_now == SupervisorState { now_ms: now_ms, ..s0 });
        let exits = backend.poll();
        self.take_exits(&exits);
        let orphans = backend.reap_orphans();
        self.record_reap(orphans);
        let ghost s2 = self@;
        assert(s2 == spec_reap(apply_exits(SupervisorState { now_ms: now_ms, ..s0 }, exits@), orphans));
        if self.shutdown.is_some() {
            let (r, kills) = self.shutdown_step(backend, now_ms);
            proof {
                lemma_tick_while_shutting_down(s0, now_ms, exits@, orphans, kills@, log0);
                lemma_shutdown_pass_facts(s2, now_ms, kills@);
            }
            return r;
        }
        let order = self.start_order();
        let spawns = self.start_step_all(backend, &order);
        let ghost s3 = self@;
        let (r, stops) = self.timeout_step(backend);
        proof {
            lemma_tick_running(s0, now_ms, exits@, orphans, order@, spawns@, stops@, log0);
        }
        r
    }
}

} // verus!
