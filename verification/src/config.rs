//! The configuration model: what a parsed init configuration holds, and the
//! errors that reject one.
use vstd::prelude::*;
use crate::names::{Entries, NameMap};
use crate::text::{copy_string, string_of};

verus! {

pub const CONFIG_VERSION: u32 = 1;

pub const DEFAULT_LOG_RETENTION: usize = 256;

pub const MAX_LOG_RETENTION: usize = 4096;

pub const DEFAULT_SHUTDOWN_TIMEOUT_MS: u64 = 5_000;

pub const MAX_SHUTDOWN_TIMEOUT_MS: u64 = 3_600_000;

pub const MAX_SERVICE_TIMEOUT_MS: u64 = 3_600_000;

/// Why a configuration was rejected.
#[derive(Debug, Clone, PartialEq, Eq)]
pub enum ConfigError {
    InvalidLine(String),
    UnknownKey(String),
    DuplicateKey(String),
    InvalidValue(String),
    MissingValue(String),
    UnknownService { context: String, service: String },
    UnknownDependency { service: String, dependency: String },
    DependencyCycle(String),
}

/// A configuration error with its texts as character sequences.
pub enum ConfigFault {
    InvalidLine(Seq<char>),
    UnknownKey(Seq<char>),
    DuplicateKey(Seq<char>),
    InvalidValue(Seq<char>),
    MissingValue(Seq<char>),
    UnknownService { context: Seq<char>, service: Seq<char> },
    UnknownDependency { service: Seq<char>, dependency: Seq<char> },
    DependencyCycle(Seq<char>),
}

impl View for ConfigError {
    type V = ConfigFault;

    open spec fn view(&self) -> ConfigFault {
        match self {
            ConfigError::InvalidLine(s) => ConfigFault::InvalidLine(s@),
            ConfigError::UnknownKey(s) => ConfigFault::UnknownKey(s@),
            ConfigError::DuplicateKey(s) => ConfigFault::DuplicateKey(s@),
            ConfigError::InvalidValue(s) => ConfigFault::InvalidValue(s@),
            ConfigError::MissingValue(s) => ConfigFault::MissingValue(s@),
            ConfigError::UnknownService { context, service } => ConfigFault::UnknownService {
                context: context@,
                service: service@,
            },
            ConfigError::UnknownDependency { service, dependency } =>
                ConfigFault::UnknownDependency { service: service@, dependency: dependency@ },
            ConfigError::DependencyCycle(s) => ConfigFault::DependencyCycle(s@),
        }
    }
}

impl ConfigError {
    /// The message that describes the error.
    pub fn message(&self) -> (m: String)
        ensures
            m@ == config_error_message(self@),
    {
        let mut out: Vec<char> = Vec::new();
        match self {
            ConfigError::InvalidLine(line) => {
                crate::text::push_str(&mut out, "invalid config line: ");
                crate::text::push_string(&mut out, line);
            },
            ConfigError::UnknownKey(key) => {
                crate::text::push_str(&mut out, "unknown config key: ");
                crate::text::push_string(&mut out, key);
            },
            ConfigError::DuplicateKey(key) => {
                crate::text::push_str(&mut out, "duplicate config key: ");
                crate::text::push_string(&mut out, key);
            },
            ConfigError::InvalidValue(value) => {
                crate::text::push_str(&mut out, "invalid config value: ");
                crate::text::push_string(&mut out, value);
            },
            ConfigError::MissingValue(key) => {
                crate::text::push_str(&mut out, "missing config value: ");
                crate::text::push_string(&mut out, key);
            },
            ConfigError::UnknownService { context, service } => {
                crate::text::push_string(&mut out, context);
                crate::text::push_str(&mut out, " references unknown service ");
                crate::text::push_string(&mut out, service);
            },
            ConfigError::UnknownDependency { service, dependency } => {
                crate::text::push_str(&mut out, "service ");
                crate::text::push_string(&mut out, service);
                crate::text::push_str(&mut out, " depends on unknown service ");
                crate::text::push_string(&mut out, dependency);
            },
            ConfigError::DependencyCycle(service) => {
                crate::text::push_str(&mut out, "service dependency cycle reaches ");
                crate::text::push_string(&mut out, service);
            },
        }
        string_of(&out)
    }
}

/// The text that describes a configuration error.
pub open spec fn config_error_message(e: ConfigFault) -> Seq<char> {
    match e {
        ConfigFault::InvalidLine(s) => "invalid config line: "@ + s,
        ConfigFault::UnknownKey(s) => "unknown config key: "@ + s,
        ConfigFault::DuplicateKey(s) => "duplicate config key: "@ + s,
        ConfigFault::InvalidValue(s) => "invalid config value: "@ + s,
        ConfigFault::MissingValue(s) => "missing config value: "@ + s,
        ConfigFault::UnknownService { context, service } => context
            + " references unknown service "@ + service,
        ConfigFault::UnknownDependency { service, dependency } => "service "@ + service
            + " depends on unknown service "@ + dependency,
        ConfigFault::DependencyCycle(s) => "service dependency cycle reaches "@ + s,
    }
}

/// What happens when the configuration cannot be used.
#[derive(Debug, Clone, Copy, PartialEq, Eq, Structural)]
pub enum RecoveryMode {
    Halt,
    Shell,
}

/// When a service whose child exited is started again.
#[derive(Debug, Clone, Copy, PartialEq, Eq, Structural)]
pub enum RestartPolicy {
    Never,
    OnFailure,
    Always,
}

/// A signal sent to a child.
#[derive(Debug, Clone, Copy, PartialEq, Eq, Structural)]
pub enum Signal {
    Hangup,
    Terminate,
    Kill,
}

/// When a started service counts as up: at once, or on notification.
#[derive(Debug, Clone, Copy, PartialEq, Eq, Structural)]
pub enum Readiness {
    Spawn,
    Notify,
}

/// Whether a service runs in the foreground or the background.
#[derive(Debug, Clone, Copy, PartialEq, Eq, Structural)]
pub enum ServiceMode {
    Foreground,
    Background,
}

/// What kind of program a service runs.
#[derive(Debug, Clone, Copy, PartialEq, Eq, Structural)]
pub enum ServiceKind {
    Service,
    Daemon,
    Oneshot,
}

/// What a runtime or readiness timeout leads to once the child exited.
#[derive(Debug, Clone, Copy, PartialEq, Eq, Structural)]
pub enum TimeoutAction {
    Restart,
    Fail,
    Stop,
}

/// What happens when a shutdown outlasts its timeout.
#[derive(Debug, Clone, Copy, PartialEq, Eq, Structural)]
pub enum ShutdownTimeoutAction {
    Kill,
    Halt,
}

/// Where records go while log storage is unavailable.
#[derive(Debug, Clone, Copy, PartialEq, Eq, Structural)]
pub enum StorageFailureAction {
    Serial,
    Continue,
    Halt,
}

/// The level of a log record, from the most severe to the least.
#[derive(Debug, Clone, Copy, PartialEq, Eq, PartialOrd, Ord, Structural)]
pub enum LogLevel {
    Error,
    Warn,
    Notice,
    Debug,
}

impl View for RecoveryMode {
    type V = RecoveryMode;

    open spec fn view(&self) -> RecoveryMode {
        *self
    }
}

impl View for RestartPolicy {
    type V = RestartPolicy;

    open spec fn view(&self) -> RestartPolicy {
        *self
    }
}

impl View for Signal {
    type V = Signal;

    open spec fn view(&self) -> Signal {
        *self
    }
}

impl View for Readiness {
    type V = Readiness;

    open spec fn view(&self) -> Readiness {
        *self
    }
}

impl View for ServiceMode {
    type V = ServiceMode;

    open spec fn view(&self) -> ServiceMode {
        *self
    }
}

impl View for ServiceKind {
    type V = ServiceKind;

    open spec fn view(&self) -> ServiceKind {
        *self
    }
}

impl View for TimeoutAction {
    type V = TimeoutAction;

    open spec fn view(&self) -> TimeoutAction {
        *self
    }
}

impl View for ShutdownTimeoutAction {
    type V = ShutdownTimeoutAction;

    open spec fn view(&self) -> ShutdownTimeoutAction {
        *self
    }
}

impl View for StorageFailureAction {
    type V = StorageFailureAction;

    open spec fn view(&self) -> StorageFailureAction {
        *self
    }
}

impl View for LogLevel {
    type V = LogLevel;

    open spec fn view(&self) -> LogLevel {
        *self
    }
}

impl View for ResourceLimits {
    type V = ResourceLimits;

    open spec fn view(&self) -> ResourceLimits {
        *self
    }
}

impl View for ShutdownConfig {
    type V = ShutdownConfig;

    open spec fn view(&self) -> ShutdownConfig {
        *self
    }
}

impl View for LoggingConfig {
    type V = LoggingConfig;

    open spec fn view(&self) -> LoggingConfig {
        *self
    }
}

/// Rank of a level: lower ranks are more severe.
pub open spec fn level_rank(level: LogLevel) -> int {
    match level {
        LogLevel::Error => 0,
        LogLevel::Warn => 1,
        LogLevel::Notice => 2,
        LogLevel::Debug => 3,
    }
}

/// Where a service's standard stream goes.
#[derive(Debug, Clone, PartialEq, Eq)]
pub enum StreamSpec {
    Inherit,
    Null,
    Serial,
    File(String),
}

/// A stream target with its path as characters.
pub enum StreamTarget {
    Inherit,
    Null,
    Serial,
    File(Seq<char>),
}

impl View for StreamSpec {
    type V = StreamTarget;

    open spec fn view(&self) -> StreamTarget {
        match self {
            StreamSpec::Inherit => StreamTarget::Inherit,
            StreamSpec::Null => StreamTarget::Null,
            StreamSpec::Serial => StreamTarget::Serial,
            StreamSpec::File(p) => StreamTarget::File(p@),
        }
    }
}

impl StreamSpec {
    /// A copy of the stream.
    pub fn copy(&self) -> (r: Self)
        ensures
            r@ == self@,
    {
        match self {
            StreamSpec::Inherit => StreamSpec::Inherit,
            StreamSpec::Null => StreamSpec::Null,
            StreamSpec::Serial => StreamSpec::Serial,
            StreamSpec::File(p) => StreamSpec::File(copy_string(p)),
        }
    }
}

/// Optional limits on a service's resources.
#[derive(Debug, Clone, Copy, PartialEq, Eq, Structural)]
pub struct ResourceLimits {
    pub cpu_time_ms: Option<u64>,
    pub memory_bytes: Option<u64>,
    pub open_fds: Option<u32>,
    pub child_processes: Option<u32>,
}

/// How a shutdown proceeds.
#[derive(Debug, Clone, Copy, PartialEq, Eq, Structural)]
pub struct ShutdownConfig {
    pub signal: Signal,
    pub timeout_ms: u64,
    pub on_timeout: ShutdownTimeoutAction,
}

impl Default for ShutdownConfig {
    fn default() -> (c: Self)
        ensures
            c == default_shutdown(),
    {
        ShutdownConfig {
            signal: Signal::Terminate,
            timeout_ms: DEFAULT_SHUTDOWN_TIMEOUT_MS,
            on_timeout: ShutdownTimeoutAction::Kill,
        }
    }
}

/// Shutdown settings that apply when the configuration names none.
pub open spec fn default_shutdown() -> ShutdownConfig {
    ShutdownConfig {
        signal: Signal::Terminate,
        timeout_ms: DEFAULT_SHUTDOWN_TIMEOUT_MS,
        on_timeout: ShutdownTimeoutAction::Kill,
    }
}

/// How records are kept.
#[derive(Debug, Clone, Copy, PartialEq, Eq, Structural)]
pub struct LoggingConfig {
    pub level: LogLevel,
    pub retention: usize,
    pub serial_fallback: bool,
    pub on_storage_unavailable: StorageFailureAction,
}

/// Logging settings that apply when the configuration names none.
pub open spec fn default_logging() -> LoggingConfig {
    LoggingConfig {
        level: LogLevel::Notice,
        retention: DEFAULT_LOG_RETENTION,
        serial_fallback: true,
        on_storage_unavailable: StorageFailureAction::Serial,
    }
}

/// The texts of a list of strings.
pub open spec fn texts(v: Seq<String>) -> Seq<Seq<char>> {
    v.map_values(|s: String| s@)
}

/// Copy of a list of strings.
pub fn copy_strings(v: &Vec<String>) -> (r: Vec<String>)
    ensures
        texts(r@) == texts(v@),
{
    let mut r: Vec<String> = Vec::new();
    let mut i: usize = 0;
    while i < v.len()
        invariant
            i <= v.len(),
            texts(r@) == texts(v@.take(i as int)),
        decreases v.len() - i,
    {
        r.push(copy_string(&v[i]));
        assert(texts(v@.take(i + 1)) =~= texts(v@.take(i as int)).push(v@[i as int]@));
        assert(texts(r@) =~= texts(v@.take(i as int)).push(v@[i as int]@));
        i = i + 1;
    }
    assert(v@.take(v.len() as int) =~= v@);
    r
}

/// A list of strings made from character vectors.
pub fn strings_of(v: &Vec<Vec<char>>) -> (r: Vec<String>)
    ensures
        texts(r@) == v@.map_values(|c: Vec<char>| c@),
{
    let mut r: Vec<String> = Vec::new();
    let mut i: usize = 0;
    while i < v.len()
        invariant
            i <= v.len(),
            texts(r@) == v@.take(i as int).map_values(|c: Vec<char>| c@),
        decreases v.len() - i,
    {
        r.push(string_of(&v[i]));
        assert(v@.take(i + 1).map_values(|c: Vec<char>| c@) =~= v@.take(i as int).map_values(
            |c: Vec<char>| c@,
        ).push(v@[i as int]@));
        assert(texts(r@) =~= v@.take(i as int).map_values(|c: Vec<char>| c@).push(
            v@[i as int]@,
        ));
        i = i + 1;
    }
    assert(v@.take(v.len() as int) =~= v@);
    r
}

/// The text of an optional string.
pub open spec fn opt_text(v: Option<String>) -> Option<Seq<char>> {
    match v {
        Some(s) => Some(s@),
        None => None,
    }
}

/// Copy of a map of strings.
pub fn copy_env(m: &NameMap<String>) -> (r: NameMap<String>)
    requires
        m.wf(),
    ensures
        r@ == m@,
        r.wf(),
{
    let mut r: NameMap<String> = NameMap::new();
    let mut i: usize = 0;
    while i < m.len()
        invariant
            i <= m@.len(),
            m.wf(),
            r.wf(),
            r@ == m@.take(i as int),
        decreases m@.len() - i,
    {
        let k = copy_string(m.name_at(i));
        let v = copy_string(m.value_at(i));
        let ghost before = r@;
        proof {
            crate::names::lemma_lower_bound(before, k@, i as int);
        }
        r.insert(k, v);
        assert(m@.take(i + 1) =~= m@.take(i as int).push(m@[i as int]));
        assert(r@ =~= m@.take(i + 1));
        i = i + 1;
    }
    assert(m@.take(m@.len() as int) =~= m@);
    r
}

/// How one service is started, supervised and stopped.
#[derive(Debug)]
pub struct ServiceConfig {
    pub command: String,
    pub args: Vec<String>,
    pub workdir: String,
    pub mode: ServiceMode,
    pub kind: ServiceKind,
    pub autostart: bool,
    pub stdin: StreamSpec,
    pub stdout: StreamSpec,
    pub stderr: StreamSpec,
    pub environment: NameMap<String>,
    pub dependencies: Vec<String>,
    pub order: u32,
    pub restart: RestartPolicy,
    pub max_restarts: u32,
    pub timeout_ms: u64,
    pub stop_timeout_ms: u64,
    pub stop_signal: Signal,
    pub kill_signal: Signal,
    pub timeout_action: TimeoutAction,
    pub readiness: Readiness,
    pub readiness_timeout_ms: u64,
    pub capabilities: Vec<String>,
    pub limits: ResourceLimits,
}

/// A service configuration with its texts as character sequences.
pub struct ServiceSpec {
    pub command: Seq<char>,
    pub args: Seq<Seq<char>>,
    pub workdir: Seq<char>,
    pub mode: ServiceMode,
    pub kind: ServiceKind,
    pub autostart: bool,
    pub stdin: StreamTarget,
    pub stdout: StreamTarget,
    pub stderr: StreamTarget,
    pub environment: Entries<Seq<char>>,
    pub dependencies: Seq<Seq<char>>,
    pub order: u32,
    pub restart: RestartPolicy,
    pub max_restarts: u32,
    pub timeout_ms: u64,
    pub stop_timeout_ms: u64,
    pub stop_signal: Signal,
    pub kill_signal: Signal,
    pub timeout_action: TimeoutAction,
    pub readiness: Readiness,
    pub readiness_timeout_ms: u64,
    pub capabilities: Seq<Seq<char>>,
    pub limits: ResourceLimits,
}

impl View for ServiceConfig {
    type V = ServiceSpec;

    open spec fn view(&self) -> ServiceSpec {
        ServiceSpec {
            command: self.command@,
            args: texts(self.args@),
            workdir: self.workdir@,
            mode: self.mode,
            kind: self.kind,
            autostart: self.autostart,
            stdin: self.stdin@,
            stdout: self.stdout@,
            stderr: self.stderr@,
            environment: self.environment@,
            dependencies: texts(self.dependencies@),
            order: self.order,
            restart: self.restart,
            max_restarts: self.max_restarts,
            timeout_ms: self.timeout_ms,
            stop_timeout_ms: self.stop_timeout_ms,
            stop_signal: self.stop_signal,
            kill_signal: self.kill_signal,
            timeout_action: self.timeout_action,
            readiness: self.readiness,
            readiness_timeout_ms: self.readiness_timeout_ms,
            capabilities: texts(self.capabilities@),
            limits: self.limits,
        }
    }
}

/// A service as a `[service.NAME]` section with no keys leaves it.
pub open spec fn default_service() -> ServiceSpec {
    ServiceSpec {
        command: Seq::empty(),
        args: Seq::empty(),
        workdir: "/"@,
        mode: ServiceMode::Background,
        kind: ServiceKind::Service,
        autostart: true,
        stdin: StreamTarget::Inherit,
        stdout: StreamTarget::Inherit,
        stderr: StreamTarget::Inherit,
        environment: Seq::empty(),
        dependencies: Seq::empty(),
        order: 0,
        restart: RestartPolicy::Never,
        max_restarts: 3,
        timeout_ms: 0,
        stop_timeout_ms: DEFAULT_SHUTDOWN_TIMEOUT_MS,
        stop_signal: Signal::Terminate,
        kill_signal: Signal::Kill,
        timeout_action: TimeoutAction::Restart,
        readiness: Readiness::Spawn,
        readiness_timeout_ms: 0,
        capabilities: Seq::empty(),
        limits: ResourceLimits {
            cpu_time_ms: None,
            memory_bytes: None,
            open_fds: None,
            child_processes: None,
        },
    }
}

impl ServiceConfig {
    /// The settings of a service whose section names no keys.
    pub fn new_default() -> (c: Self)
        ensures
            c@ == default_service(),
            c.environment.wf(),
    {
        let c = ServiceConfig {
            command: String::new(),
            args: Vec::new(),
            workdir: "/".to_owned(),
            mode: ServiceMode::Background,
            kind: ServiceKind::Service,
            autostart: true,
            stdin: StreamSpec::Inherit,
            stdout: StreamSpec::Inherit,
            stderr: StreamSpec::Inherit,
            environment: NameMap::new(),
            dependencies: Vec::new(),
            order: 0,
            restart: RestartPolicy::Never,
            max_restarts: 3,
            timeout_ms: 0,
            stop_timeout_ms: DEFAULT_SHUTDOWN_TIMEOUT_MS,
            stop_signal: Signal::Terminate,
            kill_signal: Signal::Kill,
            timeout_action: TimeoutAction::Restart,
            readiness: Readiness::Spawn,
            readiness_timeout_ms: 0,
            capabilities: Vec::new(),
            limits: ResourceLimits {
                cpu_time_ms: None,
                memory_bytes: None,
                open_fds: None,
                child_processes: None,
            },
        };
        assert(texts(c.args@) =~= Seq::empty());
        assert(texts(c.dependencies@) =~= Seq::empty());
        assert(texts(c.capabilities@) =~= Seq::empty());
        c
    }

    /// A copy with the same settings.
    pub fn copy(&self) -> (c: Self)
        requires
            self.environment.wf(),
        ensures
            c@ == self@,
            c.environment.wf(),
    {
        ServiceConfig {
            command: copy_string(&self.command),
            args: copy_strings(&self.args),
            workdir: copy_string(&self.workdir),
            mode: self.mode,
            kind: self.kind,
            autostart: self.autostart,
            stdin: self.stdin.copy(),
            stdout: self.stdout.copy(),
            stderr: self.stderr.copy(),
            environment: copy_env(&self.environment),
            dependencies: copy_strings(&self.dependencies),
            order: self.order,
            restart: self.restart,
            max_restarts: self.max_restarts,
            timeout_ms: self.timeout_ms,
            stop_timeout_ms: self.stop_timeout_ms,
            stop_signal: self.stop_signal,
            kill_signal: self.kill_signal,
            timeout_action: self.timeout_action,
            readiness: self.readiness,
            readiness_timeout_ms: self.readiness_timeout_ms,
            capabilities: copy_strings(&self.capabilities),
            limits: self.limits,
        }
    }
}

/// Services that gate the normal shell, and the shells themselves.
#[derive(Debug)]
pub struct BootConfig {
    pub shell: Option<String>,
    pub recovery_shell: Option<String>,
    pub mounts: Vec<String>,
    pub devices: Vec<String>,
    pub logging: Vec<String>,
}

/// Boot settings with their texts as character sequences.
pub struct BootSpec {
    pub shell: Option<Seq<char>>,
    pub recovery_shell: Option<Seq<char>>,
    pub mounts: Seq<Seq<char>>,
    pub devices: Seq<Seq<char>>,
    pub logging: Seq<Seq<char>>,
}

impl View for BootConfig {
    type V = BootSpec;

    open spec fn view(&self) -> BootSpec {
        BootSpec {
            shell: opt_text(self.shell),
            recovery_shell: opt_text(self.recovery_shell),
            mounts: texts(self.mounts@),
            devices: texts(self.devices@),
            logging: texts(self.logging@),
        }
    }
}

/// Boot settings when the configuration has no `[boot]` keys.
pub open spec fn default_boot() -> BootSpec {
    BootSpec {
        shell: None,
        recovery_shell: None,
        mounts: Seq::empty(),
        devices: Seq::empty(),
        logging: Seq::empty(),
    }
}

impl BootConfig {
    /// No shell, no recovery shell, no gates.
    pub fn new_default() -> (b: Self)
        ensures
            b@ == default_boot(),
    {
        let b = BootConfig {
            shell: None,
            recovery_shell: None,
            mounts: Vec::new(),
            devices: Vec::new(),
            logging: Vec::new(),
        };
        assert(texts(b.mounts@) =~= Seq::empty());
        assert(texts(b.devices@) =~= Seq::empty());
        assert(texts(b.logging@) =~= Seq::empty());
        b
    }
}

/// A validated init configuration.
#[derive(Debug)]
pub struct InitConfig {
    pub version: u32,
    pub recovery: RecoveryMode,
    pub environment: NameMap<String>,
    pub services: NameMap<ServiceConfig>,
    pub logging: LoggingConfig,
    pub boot: BootConfig,
    pub shutdown: ShutdownConfig,
}

/// An init configuration with its texts as character sequences.
pub struct InitSpec {
    pub version: u32,
    pub recovery: RecoveryMode,
    pub environment: Entries<Seq<char>>,
    pub services: Entries<ServiceSpec>,
    pub logging: LoggingConfig,
    pub boot: BootSpec,
    pub shutdown: ShutdownConfig,
}

impl View for InitConfig {
    type V = InitSpec;

    open spec fn view(&self) -> InitSpec {
        InitSpec {
            version: self.version,
            recovery: self.recovery,
            environment: self.environment@,
            services: self.services@,
            logging: self.logging,
            boot: self.boot@,
            shutdown: self.shutdown,
        }
    }
}

/// A parsing result with its values and error seen as views.
pub open spec fn lift<T: View>(r: Result<T, ConfigError>) -> Result<T::V, ConfigFault> {
    match r {
        Ok(v) => Ok(v@),
        Err(e) => Err(e@),
    }
}

} // verus!
