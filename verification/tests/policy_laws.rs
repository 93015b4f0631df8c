use std::collections::VecDeque;

use quickinit::supervisor::BackendLog;
use quickinit::{
    backoff_ms, execute_line, parse_command, parse_config, recovery_mode_for_source, ChildExit,
    ChildHandle, ConfigError, ControlError, LogLevel, LogRecord, ProcessBackend, RecoveryMode,
    ServiceConfig, ServiceState, ShutdownMode, Signal, SpawnError, Supervisor,
};

#[derive(Default)]
struct Backend {
    next_child: ChildHandle,
    spawned: Vec<String>,
    pending: VecDeque<(ChildHandle, ChildExit)>,
    signals: Vec<(ChildHandle, Signal)>,
}

impl ProcessBackend for Backend {
    // The request log exists for the verifier only and is never
    // evaluated when the tests run.
    fn log(&self) -> BackendLog {
        unreachable!()
    }

    fn spawn(&mut self, name: &str, _config: &ServiceConfig) -> Result<ChildHandle, SpawnError> {
        self.next_child += 1;
        self.spawned.push(name.to_owned());
        Ok(self.next_child)
    }

    fn signal(&mut self, child: ChildHandle, signal: Signal) -> Result<(), SpawnError> {
        self.signals.push((child, signal));
        Ok(())
    }

    fn poll(&mut self) -> Vec<(ChildHandle, ChildExit)> {
        self.pending.drain(..).collect()
    }
}

fn supervisor(source: &str) -> Supervisor {
    Supervisor::new(parse_config(source).expect("config should parse"))
}

#[test]
fn service_environment_overrides_and_inherits_globals() {
    let config = parse_config(
        r#"
            [init]
            version = 1
            [env]
            PATH = "/bin"
            HOME = "/root"
            [service.app]
            command = "/bin/app"
            [service.app.env]
            PATH = "/opt/bin"
            LANG = "C"
        "#,
    )
    .expect("config should parse");
    let env = &config.services.get("app").unwrap().environment;
    assert_eq!(env.get("PATH").unwrap().as_str(), "/opt/bin");
    assert_eq!(env.get("HOME").unwrap().as_str(), "/root");
    assert_eq!(env.get("LANG").unwrap().as_str(), "C");
    assert_eq!(env.len(), 3);
    assert_eq!(config.environment.get("PATH").unwrap().as_str(), "/bin");
}

#[test]
fn daemon_and_readiness_rules_are_enforced() {
    let daemon = r#"
        [init]
        version = 1
        [service.d]
        command = "/bin/d"
        kind = "daemon"
    "#;
    assert_eq!(
        parse_config(daemon).err(),
        Some(ConfigError::InvalidValue("d.daemon requires readiness=notify".to_owned()))
    );
    let notify = r#"
        [init]
        version = 1
        [service.n]
        command = "/bin/n"
        readiness = "notify"
    "#;
    assert_eq!(
        parse_config(notify).err(),
        Some(ConfigError::MissingValue("n.readiness_timeout_ms".to_owned()))
    );
}

#[test]
fn each_config_error_variant_has_an_input() {
    let cases: Vec<(&str, ConfigError)> = vec![
        ("[init\nversion = 1", ConfigError::InvalidLine("[init".to_owned())),
        ("[init]\nversion = 1\ncolour = 2", ConfigError::UnknownKey("colour".to_owned())),
        ("[init]\nversion = 1\nversion = 1", ConfigError::DuplicateKey("version".to_owned())),
        ("[init]\nversion = 2", ConfigError::InvalidValue("init.version=2".to_owned())),
        ("[init]\nrecovery = \"shell\"", ConfigError::MissingValue("init.version".to_owned())),
        (
            "[init]\nversion = 1\n[boot]\nmounts = [\"nope\"]",
            ConfigError::UnknownService {
                context: "boot.mounts".to_owned(),
                service: "nope".to_owned(),
            },
        ),
        (
            "[init]\nversion = 1\n[service.a]\ncommand = \"/bin/a\"\ndependencies = [\"b\"]",
            ConfigError::UnknownDependency { service: "a".to_owned(), dependency: "b".to_owned() },
        ),
        (
            "[init]\nversion = 1\n[service.a]\ncommand = \"/bin/a\"\ndependencies = [\"a\"]",
            ConfigError::DependencyCycle("a".to_owned()),
        ),
        (
            "[init]\nversion = 1\n[logging]\nretention = 0",
            ConfigError::InvalidValue("retention=0".to_owned()),
        ),
    ];
    for (source, expected) in cases {
        assert_eq!(parse_config(source).err(), Some(expected), "source: {source}");
    }
}

#[test]
fn cycle_error_names_a_service_on_the_cycle() {
    let source = r#"
        [init]
        version = 1
        [service.a]
        command = "/bin/a"
        dependencies = ["b"]
        [service.b]
        command = "/bin/b"
        dependencies = ["c"]
        [service.c]
        command = "/bin/c"
        dependencies = ["b"]
    "#;
    match parse_config(source) {
        Err(ConfigError::DependencyCycle(name)) => assert_eq!(name, "b"),
        other => panic!("expected a cycle, got {other:?}"),
    }
}

#[test]
fn config_error_messages_are_stable() {
    assert_eq!(
        ConfigError::UnknownKey("x".to_owned()).message(),
        "unknown config key: x"
    );
    assert_eq!(
        ConfigError::UnknownService { context: "boot.shell".to_owned(), service: "sh".to_owned() }
            .message(),
        "boot.shell references unknown service sh"
    );
    assert_eq!(
        ConfigError::UnknownDependency { service: "a".to_owned(), dependency: "b".to_owned() }
            .message(),
        "service a depends on unknown service b"
    );
    assert_eq!(
        ConfigError::DependencyCycle("a".to_owned()).message(),
        "service dependency cycle reaches a"
    );
}

#[test]
fn recovery_mode_defaults() {
    assert_eq!(recovery_mode_for_source("[init]\nversion = 1"), RecoveryMode::Halt);
    assert_eq!(
        recovery_mode_for_source("[init]\nversion = 1\nrecovery = \"shell\""),
        RecoveryMode::Shell
    );
    assert_eq!(recovery_mode_for_source("not a config"), RecoveryMode::Shell);
}

#[test]
fn backoff_doubles_up_to_its_cap() {
    assert_eq!(backoff_ms(0), 100);
    assert_eq!(backoff_ms(1), 200);
    assert_eq!(backoff_ms(3), 800);
    assert_eq!(backoff_ms(6), 6400);
    assert_eq!(backoff_ms(7), 6400);
    assert_eq!(backoff_ms(u32::MAX), 6400);
}

#[test]
fn stable_line_pads_sequence_and_timestamp() {
    let record = LogRecord {
        sequence: 1,
        timestamp_ms: 42,
        service: "init".to_owned(),
        level: LogLevel::Notice,
        event: "reap".to_owned(),
        detail: "orphans=1".to_owned(),
    };
    assert_eq!(record.stable_line(), "00000001 000000000042 Notice init reap orphans=1");
}

#[test]
fn error_messages_and_conversion() {
    assert_eq!(SpawnError::Unavailable.message(), "process backend unavailable");
    assert_eq!(
        SpawnError::Invalid("x".to_owned()).message(),
        "invalid process request: x"
    );
    let converted = ControlError::from(SpawnError::Unavailable);
    assert_eq!(converted, ControlError::Backend(SpawnError::Unavailable));
    assert_eq!(converted.message(), "process backend unavailable");
    assert_eq!(ControlError::Invalid("bad".to_owned()).message(), "bad");
}

#[test]
fn command_grammar_errors() {
    assert_eq!(parse_command("   "), Err("empty command"));
    assert_eq!(parse_command("start"), Err("start needs a service"));
    assert_eq!(parse_command("stop"), Err("stop needs a service"));
    assert_eq!(parse_command("restart"), Err("restart needs a service"));
    assert_eq!(parse_command("log-level"), Err("log-level needs a value"));
    assert_eq!(parse_command("log-level loud"), Err("unknown log level"));
    assert_eq!(parse_command("status now"), Err("too many command arguments"));
    assert_eq!(parse_command("frobnicate"), Err("unknown command"));
}

#[test]
fn invalid_control_line_changes_nothing() {
    let mut supervisor = supervisor("[init]\nversion = 1\n[service.app]\ncommand = \"/bin/app\"");
    let mut backend = Backend::default();
    supervisor.tick(&mut backend, 0).expect("tick should work");
    let before = supervisor.render_logs(None);
    assert_eq!(
        execute_line(&mut supervisor, &mut backend, "stop"),
        Err(ControlError::Invalid("stop needs a service".to_owned()))
    );
    assert_eq!(supervisor.render_logs(None), before);
    assert_eq!(
        execute_line(&mut supervisor, &mut backend, "stop nope"),
        Err(ControlError::Backend(SpawnError::Invalid("unknown service nope".to_owned())))
    );
}

#[test]
fn restart_queues_a_new_start_after_the_exit() {
    let mut supervisor = supervisor(
        "[init]\nversion = 1\n[service.app]\ncommand = \"/bin/app\"\nrestart = \"never\"",
    );
    let mut backend = Backend::default();
    supervisor.tick(&mut backend, 0).expect("tick should work");
    assert_eq!(
        execute_line(&mut supervisor, &mut backend, "restart app").as_deref(),
        Ok("restart service=app state=Stopping")
    );
    assert_eq!(backend.signals, vec![(1, Signal::Terminate)]);
    backend.pending.push_back((1, ChildExit::signal(15)));
    supervisor.tick(&mut backend, 5).expect("tick should work");
    assert_eq!(backend.spawned, vec!["app", "app"]);
    assert_eq!(supervisor.state("app"), Some(ServiceState::Running));
}

#[test]
fn stop_without_child_stops_at_once() {
    let mut supervisor = supervisor(
        "[init]\nversion = 1\n[service.app]\ncommand = \"/bin/app\"\nautostart = false",
    );
    let mut backend = Backend::default();
    assert_eq!(
        execute_line(&mut supervisor, &mut backend, "stop app").as_deref(),
        Ok("stop service=app state=Stopped")
    );
    assert!(backend.signals.is_empty());
    supervisor.tick(&mut backend, 1).expect("tick should work");
    assert!(backend.spawned.is_empty());
}

#[test]
fn timeout_stop_action_leaves_service_stopped() {
    let mut supervisor = supervisor(
        "[init]\nversion = 1\n[service.app]\ncommand = \"/bin/app\"\ntimeout_ms = 5\ntimeout_action = \"stop\"\nrestart = \"always\"",
    );
    let mut backend = Backend::default();
    supervisor.tick(&mut backend, 0).expect("tick should work");
    supervisor.tick(&mut backend, 5).expect("tick should work");
    assert_eq!(supervisor.state("app"), Some(ServiceState::Stopping));
    backend.pending.push_back((1, ChildExit::signal(15)));
    supervisor.tick(&mut backend, 6).expect("tick should work");
    assert_eq!(supervisor.state("app"), Some(ServiceState::Stopped));
    supervisor.tick(&mut backend, 100).expect("tick should work");
    assert_eq!(backend.spawned, vec!["app"]);
}

#[test]
fn shutdown_stops_startup_and_halts_once() {
    let mut supervisor = supervisor(
        r#"
            [init]
            version = 1
            [shutdown]
            timeout_ms = 10
            on_timeout = "halt"
            [service.base]
            command = "/bin/base"
            readiness = "notify"
            readiness_timeout_ms = 1000
            [service.app]
            command = "/bin/app"
            dependencies = ["base"]
        "#,
    );
    let mut backend = Backend::default();
    supervisor.tick(&mut backend, 0).expect("tick should work");
    assert_eq!(backend.spawned, vec!["base"]);
    supervisor
        .request_shutdown(&mut backend, ShutdownMode::Shutdown)
        .expect("shutdown should be requested");
    assert_eq!(supervisor.shutdown_mode(), Some(ShutdownMode::Shutdown));
    assert_eq!(backend.signals, vec![(1, Signal::Terminate)]);
    supervisor.notify_ready("base").expect("base should become ready");
    supervisor.tick(&mut backend, 5).expect("tick should work");
    assert_eq!(backend.spawned, vec!["base"]);
    supervisor.tick(&mut backend, 10).expect("tick should work");
    supervisor.tick(&mut backend, 20).expect("tick should work");
    let logs = supervisor.render_logs(Some("init"));
    assert_eq!(logs.matches("shutdown-timeout action=halt").count(), 1);
    assert_eq!(backend.signals, vec![(1, Signal::Terminate)]);
}

#[test]
fn notify_service_waits_for_its_notification() {
    let mut supervisor = supervisor(
        "[init]\nversion = 1\n[service.d]\ncommand = \"/bin/d\"\nkind = \"daemon\"\nreadiness = \"notify\"\nreadiness_timeout_ms = 1000",
    );
    let mut backend = Backend::default();
    for now in [0, 10, 100, 999] {
        supervisor.tick(&mut backend, now).expect("tick should work");
        assert_eq!(supervisor.state("d"), Some(ServiceState::Starting));
    }
    supervisor.notify_ready("d").expect("notification should be accepted");
    assert_eq!(supervisor.state("d"), Some(ServiceState::Ready));
    supervisor.tick(&mut backend, 2000).expect("tick should work");
    assert_eq!(supervisor.state("d"), Some(ServiceState::Ready));
    assert_eq!(backend.spawned, vec!["d"]);
}

#[test]
fn runtime_timeout_with_restart_action_starts_again() {
    let mut supervisor = supervisor(
        "[init]\nversion = 1\n[service.app]\ncommand = \"/bin/app\"\ntimeout_ms = 5",
    );
    let mut backend = Backend::default();
    supervisor.tick(&mut backend, 0).expect("tick should work");
    supervisor.tick(&mut backend, 5).expect("tick should work");
    assert_eq!(supervisor.state("app"), Some(ServiceState::Stopping));
    assert_eq!(backend.signals, vec![(1, Signal::Terminate)]);
    backend.pending.push_back((1, ChildExit::signal(15)));
    supervisor.tick(&mut backend, 6).expect("tick should work");
    assert_eq!(supervisor.state("app"), Some(ServiceState::Backoff));
    supervisor.tick(&mut backend, 205).expect("tick should work");
    assert_eq!(backend.spawned, vec!["app"]);
    supervisor.tick(&mut backend, 206).expect("tick should work");
    assert_eq!(backend.spawned, vec!["app", "app"]);
    assert_eq!(supervisor.state("app"), Some(ServiceState::Running));
}
