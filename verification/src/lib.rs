//! Policy core of an init process and service supervisor: a strict
//! configuration format, the service life cycle, bounded logs, a small
//! control grammar, and the checks of the first process's hand-off.
use vstd::prelude::*;

pub mod text;
pub mod names;
pub mod config;
pub mod values;
pub mod service_keys;
pub mod cycles;
pub mod parse;
pub mod render;
pub mod supervisor;
pub mod control;
pub mod lifecycle;
pub mod bootstrap;

verus! {

} // verus!

pub use config::{
    BootConfig, CONFIG_VERSION, ConfigError, DEFAULT_LOG_RETENTION, DEFAULT_SHUTDOWN_TIMEOUT_MS,
    InitConfig, LogLevel, LoggingConfig, MAX_LOG_RETENTION, MAX_SERVICE_TIMEOUT_MS,
    MAX_SHUTDOWN_TIMEOUT_MS, Readiness, RecoveryMode, ResourceLimits, RestartPolicy,
    ServiceConfig, ServiceKind, ServiceMode, ShutdownConfig, ShutdownTimeoutAction, Signal,
    StorageFailureAction, StreamSpec, TimeoutAction,
};
pub use control::{Command, ControlError, execute_command, execute_line, parse_command};
pub use names::NameMap;
pub use parse::{parse_config, recovery_mode_for_source};
pub use supervisor::{
    ChildExit, ChildHandle, ExitCause, LogRecord, ProcessBackend, ServiceState, ShutdownMode,
    SpawnError, Supervisor, backoff_ms,
};
