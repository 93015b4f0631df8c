use std::collections::{BTreeSet, VecDeque};

use quickinit::supervisor::BackendLog;
use quickinit::{
    execute_line, parse_command, parse_config, ChildExit, ChildHandle, Command, LogLevel,
    ProcessBackend, ServiceConfig, ServiceState, ShutdownMode, Signal, SpawnError, Supervisor,
};

#[derive(Default)]
struct FakeBackend {
    next_child: ChildHandle,
    spawned: Vec<String>,
    pending: VecDeque<(ChildHandle, ChildExit)>,
    signals: Vec<(ChildHandle, Signal)>,
    failed_signals: BTreeSet<ChildHandle>,
    spawn_error: Option<SpawnError>,
    orphan_count: u32,
}

impl ProcessBackend for FakeBackend {
    // The request log exists for the verifier only and is never
    // evaluated when the tests run.
    fn log(&self) -> BackendLog {
        unreachable!()
    }

    fn spawn(&mut self, name: &str, _config: &ServiceConfig) -> Result<ChildHandle, SpawnError> {
        if let Some(error) = &self.spawn_error {
            return Err(error.clone());
        }
        self.next_child += 1;
        self.spawned.push(name.to_owned());
        Ok(self.next_child)
    }

    fn signal(&mut self, child: ChildHandle, signal: Signal) -> Result<(), SpawnError> {
        self.signals.push((child, signal));
        if self.failed_signals.contains(&child) {
            return Err(SpawnError::Unavailable);
        }
        Ok(())
    }

    fn poll(&mut self) -> Vec<(ChildHandle, ChildExit)> {
        self.pending.drain(..).collect()
    }

    fn reap_orphans(&mut self) -> u32 {
        std::mem::take(&mut self.orphan_count)
    }
}

#[test]
fn starts_dependencies_in_stable_order() {
    let config = parse_config(
        r#"
            [init]
            version = 1
            [service.app]
            command = "/bin/app"
            dependencies = ["logger"]
            [service.logger]
            command = "/bin/logger"
        "#,
    )
    .expect("config should parse");
    let mut supervisor = Supervisor::new(config);
    let mut backend = FakeBackend::default();
    supervisor.tick(&mut backend, 10).expect("tick should work");
    assert_eq!(backend.spawned, vec!["logger"]);
    supervisor.tick(&mut backend, 20).expect("tick should work");
    assert_eq!(backend.spawned, vec!["logger", "app"]);
    assert_eq!(supervisor.state("app"), Some(ServiceState::Running));
}

#[test]
fn spawn_failure_fails_service_and_blocks_dependents() {
    let config = parse_config(
        r#"
            [init]
            version = 1
            [service.app]
            command = "/bin/app"
            dependencies = ["missing"]
            [service.missing]
            command = "/bin/missing"
        "#,
    )
    .expect("config should parse");
    let mut supervisor = Supervisor::new(config);
    let mut backend = FakeBackend {
        spawn_error: Some(SpawnError::Unavailable),
        ..FakeBackend::default()
    };
    supervisor.tick(&mut backend, 0).expect("tick should work");
    assert_eq!(supervisor.state("missing"), Some(ServiceState::Failed));
    supervisor.tick(&mut backend, 1).expect("tick should work");
    assert_eq!(supervisor.state("app"), Some(ServiceState::Blocked));
    assert!(backend.spawned.is_empty());
}

#[test]
fn reaps_orphans_and_keeps_sequence_logs_bounded() {
    let config = parse_config(
        r#"
            [init]
            version = 1
            [logging]
            level = "debug"
            retention = 2
            [service.app]
            command = "/bin/app"
        "#,
    )
    .expect("config should parse");
    let mut supervisor = Supervisor::new(config);
    let mut backend = FakeBackend::default();
    supervisor.tick(&mut backend, 0).expect("tick should work");
    backend.orphan_count = 3;
    supervisor.tick(&mut backend, 1).expect("tick should work");
    assert_eq!(supervisor.logs().len(), 2);
    assert!(supervisor.render_logs(Some("init")).contains("reap"));
    let sequences: Vec<u64> = supervisor.logs().map(|record| record.sequence).collect();
    assert!(sequences.windows(2).all(|window| window[0] < window[1]));
}

#[test]
fn gates_shell_until_mounts_devices_and_logging_are_ready() {
    let config = parse_config(
        r#"
            [init]
            version = 1
            [boot]
            shell = "shell"
            recovery_shell = "recovery"
            mounts = ["mounts"]
            devices = ["devices"]
            logging = ["logger"]
            [service.shell]
            command = "/bin/sh"
            order = 0
            [service.recovery]
            command = "/bin/recovery"
            autostart = false
            [service.mounts]
            command = "/bin/mounts"
            order = 10
            [service.devices]
            command = "/bin/devices"
            order = 10
            [service.logger]
            command = "/bin/logger"
            order = 10
        "#,
    )
    .expect("config should parse");
    let mut supervisor = Supervisor::new(config);
    let mut backend = FakeBackend::default();
    supervisor.tick(&mut backend, 0).expect("tick should work");
    assert_eq!(backend.spawned, vec!["devices", "logger", "mounts"]);
    assert!(supervisor.boot_ready());
    assert_eq!(supervisor.state("shell"), Some(ServiceState::Defined));
    supervisor.tick(&mut backend, 1).expect("tick should work");
    assert_eq!(
        backend.spawned,
        vec!["devices", "logger", "mounts", "shell"]
    );

    supervisor
        .start_recovery_shell()
        .expect("recovery shell should queue");
    supervisor.tick(&mut backend, 2).expect("tick should work");
    assert!(backend.spawned.contains(&"recovery".to_owned()));
}

#[test]
fn storage_unavailable_keeps_normal_shell_gated() {
    let config = parse_config(
        r#"
            [init]
            version = 1
            [boot]
            shell = "shell"
            [service.shell]
            command = "/bin/sh"
        "#,
    )
    .expect("config should parse");
    let mut supervisor = Supervisor::new(config);
    let mut backend = FakeBackend::default();
    supervisor.set_storage_available(false);
    supervisor.tick(&mut backend, 0).expect("tick should work");
    assert!(backend.spawned.is_empty());
    supervisor.set_storage_available(true);
    supervisor.tick(&mut backend, 1).expect("tick should work");
    assert_eq!(backend.spawned, vec!["shell"]);
}

#[test]
fn manual_start_controls_non_autostart_service() {
    let config = parse_config(
        r#"
            [init]
            version = 1
            [service.app]
            command = "/bin/app"
            autostart = false
            mode = "foreground"
        "#,
    )
    .expect("config should parse");
    let mut supervisor = Supervisor::new(config);
    let mut backend = FakeBackend::default();
    supervisor.tick(&mut backend, 0).expect("tick should work");
    assert!(backend.spawned.is_empty());
    assert_eq!(supervisor.state("app"), Some(ServiceState::Defined));

    supervisor.start("app").expect("manual start should queue");
    supervisor.tick(&mut backend, 1).expect("tick should work");
    assert_eq!(backend.spawned, vec!["app"]);
    assert_eq!(supervisor.state("app"), Some(ServiceState::Running));
}

#[test]
fn oneshot_success_completes_and_unblocks_dependents() {
    let config = parse_config(
        r#"
            [init]
            version = 1
            [service.prepare]
            command = "/bin/prepare"
            kind = "oneshot"
            [service.app]
            command = "/bin/app"
            dependencies = ["prepare"]
        "#,
    )
    .expect("config should parse");
    let mut supervisor = Supervisor::new(config);
    let mut backend = FakeBackend::default();
    supervisor.tick(&mut backend, 0).expect("tick should work");
    assert_eq!(backend.spawned, vec!["prepare"]);
    backend.pending.push_back((1, ChildExit::success()));
    supervisor.tick(&mut backend, 1).expect("tick should work");
    assert_eq!(supervisor.state("prepare"), Some(ServiceState::Completed));
    assert_eq!(backend.spawned, vec!["prepare", "app"]);
    assert_eq!(supervisor.state("app"), Some(ServiceState::Running));
}

#[test]
fn manual_stop_does_not_apply_always_restart() {
    let config = parse_config(
        r#"
            [init]
            version = 1
            [service.app]
            command = "/bin/app"
            restart = "always"
        "#,
    )
    .expect("config should parse");
    let mut supervisor = Supervisor::new(config);
    let mut backend = FakeBackend::default();
    supervisor.tick(&mut backend, 0).expect("tick should work");
    supervisor
        .stop(&mut backend, "app")
        .expect("stop should work");
    assert_eq!(supervisor.state("app"), Some(ServiceState::Stopping));
    backend.pending.push_back((1, ChildExit::signal(15)));
    supervisor.tick(&mut backend, 1).expect("tick should work");
    assert_eq!(supervisor.state("app"), Some(ServiceState::Stopped));
    supervisor.tick(&mut backend, 2).expect("tick should work");
    assert_eq!(backend.spawned, vec!["app"]);
}

#[test]
fn forwards_signal_to_all_children_after_one_failure() {
    let config = parse_config(
        r#"
            [init]
            version = 1
            [service.a]
            command = "/bin/a"
            [service.b]
            command = "/bin/b"
        "#,
    )
    .expect("config should parse");
    let mut supervisor = Supervisor::new(config);
    let mut backend = FakeBackend::default();
    supervisor.tick(&mut backend, 0).expect("tick should work");
    backend.failed_signals.insert(1);
    assert_eq!(
        supervisor.forward_signal(&mut backend, Signal::Terminate),
        Err(SpawnError::Unavailable)
    );
    assert_eq!(
        backend.signals,
        vec![(1, Signal::Terminate), (2, Signal::Terminate)]
    );
}

#[test]
fn applies_backoff_and_crash_limit() {
    let config = parse_config(
        r#"
            [init]
            version = 1
            [service.app]
            command = "/bin/app"
            restart = "on-failure"
            max_restarts = 1
        "#,
    )
    .expect("config should parse");
    let mut supervisor = Supervisor::new(config);
    let mut backend = FakeBackend::default();
    supervisor.tick(&mut backend, 0).expect("tick should work");
    backend.pending.push_back((1, ChildExit::code(1)));
    supervisor.tick(&mut backend, 1).expect("tick should work");
    assert_eq!(supervisor.state("app"), Some(ServiceState::Backoff));
    assert_eq!(backend.spawned, vec!["app"]);
    supervisor
        .tick(&mut backend, 201)
        .expect("tick should work");
    assert_eq!(backend.spawned, vec!["app", "app"]);
    backend.pending.push_back((2, ChildExit::signal(9)));
    supervisor
        .tick(&mut backend, 202)
        .expect("tick should work");
    assert_eq!(supervisor.state("app"), Some(ServiceState::Failed));
}

#[test]
fn signals_timed_out_child_and_bounds_logs() {
    let config = parse_config(
        r#"
            [init]
            version = 1
            [logging]
            level = "debug"
            retention = 2
            [service.app]
            command = "/bin/app"
            timeout_ms = 10
        "#,
    )
    .expect("config should parse");
    let mut supervisor = Supervisor::new(config);
    let mut backend = FakeBackend::default();
    supervisor.tick(&mut backend, 0).expect("tick should work");
    supervisor.tick(&mut backend, 10).expect("tick should work");
    assert_eq!(backend.signals, vec![(1, Signal::Terminate)]);
    assert_eq!(supervisor.logs().len(), 2);
    assert_eq!(supervisor.serial_lines().len(), 2);
}

#[test]
fn starts_by_explicit_order_and_accepts_readiness_notification() {
    let config = parse_config(
        r#"
            [init]
            version = 1
            [service.app]
            command = "/bin/app"
            order = 20
            dependencies = ["gate"]
            [service.gate]
            command = "/bin/gate"
            order = 10
            readiness = "notify"
            readiness_timeout_ms = 100
        "#,
    )
    .expect("config should parse");
    let mut supervisor = Supervisor::new(config);
    let mut backend = FakeBackend::default();
    supervisor.tick(&mut backend, 0).expect("tick should work");
    assert_eq!(backend.spawned, vec!["gate"]);
    assert_eq!(supervisor.state("gate"), Some(ServiceState::Starting));
    assert_eq!(supervisor.state("app"), Some(ServiceState::Defined));

    supervisor
        .notify_ready("gate")
        .expect("readiness notification should work");
    supervisor.tick(&mut backend, 1).expect("tick should work");
    assert_eq!(backend.spawned, vec!["gate", "app"]);
    assert_eq!(supervisor.state("gate"), Some(ServiceState::Ready));
    assert_eq!(supervisor.state("app"), Some(ServiceState::Running));
}

#[test]
fn readiness_timeout_and_shutdown_use_declared_policy() {
    let config = parse_config(
        r#"
            [init]
            version = 1
            [shutdown]
            signal = "kill"
            timeout_ms = 200
            on_timeout = "kill"
            [service.app]
            command = "/bin/app"
            readiness = "notify"
            readiness_timeout_ms = 5
        "#,
    )
    .expect("config should parse");
    let mut supervisor = Supervisor::new(config);
    let mut backend = FakeBackend::default();
    supervisor.tick(&mut backend, 0).expect("tick should work");
    supervisor.tick(&mut backend, 5).expect("tick should work");
    assert_eq!(supervisor.state("app"), Some(ServiceState::Stopping));
    assert_eq!(backend.signals, vec![(1, Signal::Terminate)]);
    assert_eq!(supervisor.shutdown_config().timeout_ms, 200);

    supervisor
        .request_shutdown(&mut backend, ShutdownMode::Reboot)
        .expect("shutdown should work");
    assert_eq!(supervisor.shutdown_mode(), Some(ShutdownMode::Reboot));
    assert_eq!(
        backend.signals,
        vec![(1, Signal::Terminate), (1, Signal::Kill)]
    );
    supervisor
        .tick(&mut backend, 205)
        .expect("tick should work");
    assert_eq!(
        backend.signals,
        vec![(1, Signal::Terminate), (1, Signal::Kill), (1, Signal::Kill)]
    );
}

#[test]
fn runtime_timeout_escalates_once_and_applies_fail_action() {
    let config = parse_config(
        r#"
            [init]
            version = 1
            [service.app]
            command = "/bin/app"
            timeout_ms = 5
            stop_timeout_ms = 10
            kill_signal = "hangup"
            timeout_action = "fail"
        "#,
    )
    .expect("config should parse");
    let mut supervisor = Supervisor::new(config);
    let mut backend = FakeBackend::default();
    supervisor.tick(&mut backend, 0).expect("tick should work");
    supervisor.tick(&mut backend, 5).expect("tick should work");
    assert_eq!(supervisor.state("app"), Some(ServiceState::Stopping));
    assert_eq!(backend.signals, vec![(1, Signal::Terminate)]);
    supervisor.tick(&mut backend, 15).expect("tick should work");
    assert_eq!(
        backend.signals,
        vec![(1, Signal::Terminate), (1, Signal::Hangup)]
    );
    backend.pending.push_back((1, ChildExit::signal(15)));
    supervisor.tick(&mut backend, 16).expect("tick should work");
    assert_eq!(supervisor.state("app"), Some(ServiceState::Failed));
    supervisor.tick(&mut backend, 17).expect("tick should work");
    assert_eq!(
        backend.signals,
        vec![(1, Signal::Terminate), (1, Signal::Hangup)]
    );
}

#[test]
fn applies_explicit_storage_unavailable_policy() {
    let config = parse_config(
        r#"
            [init]
            version = 1
            [logging]
            level = "debug"
            retention = 2
            serial_fallback = false
            on_storage_unavailable = "serial"
            [service.app]
            command = "/bin/app"
        "#,
    )
    .expect("config should parse");
    let mut supervisor = Supervisor::new(config);
    supervisor.set_storage_available(false);
    supervisor.set_log_level(LogLevel::Debug);
    assert!(supervisor.logs().next().is_none());
    assert_eq!(supervisor.serial_lines().len(), 1);
    assert!(supervisor
        .serial_lines()
        .next()
        .unwrap()
        .contains("log-level"));

    let halt_config = parse_config(
        r#"
            [init]
            version = 1
            [logging]
            on_storage_unavailable = "halt"
            [service.app]
            command = "/bin/app"
        "#,
    )
    .expect("config should parse");
    let mut halted = Supervisor::new(halt_config);
    halted.set_storage_available(false);
    halted.set_log_level(LogLevel::Notice);
    assert_eq!(halted.shutdown_mode(), Some(ShutdownMode::Shutdown));
}

#[test]
fn renders_stable_status_and_logs() {
    let config = parse_config(
        r#"
            [init]
            version = 1
            [logging]
            level = "debug"
            [service.app]
            command = "/bin/app"
        "#,
    )
    .expect("config should parse");
    let mut supervisor = Supervisor::new(config);
    let mut backend = FakeBackend::default();
    supervisor.tick(&mut backend, 42).expect("tick should work");
    assert_eq!(
        supervisor.render_status(),
        "service=app state=Running exit_code=- exit_signal=-"
    );
    let logs = supervisor.render_logs(Some("app"));
    assert!(logs.contains("app start"));
    assert_eq!(supervisor.render_logs(Some("missing")), "no logs");
}

#[test]
fn dispatches_control_commands_and_reports_state() {
    let config = parse_config(
        r#"
            [init]
            version = 1
            [service.app]
            command = "/bin/app"
            autostart = false
        "#,
    )
    .expect("config should parse");
    let mut supervisor = Supervisor::new(config);
    let mut backend = FakeBackend::default();
    assert_eq!(
        execute_line(&mut supervisor, &mut backend, "start app"),
        Ok("start service=app state=queued".to_owned())
    );
    supervisor.tick(&mut backend, 1).expect("tick should work");
    assert_eq!(
        execute_line(&mut supervisor, &mut backend, "stop app"),
        Ok("stop service=app state=Stopping".to_owned())
    );
    backend.pending.push_back((1, ChildExit::signal(15)));
    supervisor.tick(&mut backend, 2).expect("tick should work");
    assert!(execute_line(&mut supervisor, &mut backend, "start missing").is_err());
}

#[test]
fn dispatches_shutdown_and_reboot_modes() {
    let config = parse_config(
        r#"
            [init]
            version = 1
            [service.app]
            command = "/bin/app"
        "#,
    )
    .expect("config should parse");
    let mut supervisor = Supervisor::new(config);
    let mut backend = FakeBackend::default();
    supervisor.tick(&mut backend, 0).expect("tick should work");
    assert_eq!(
        execute_line(&mut supervisor, &mut backend, "reboot"),
        Ok("reboot requested".to_owned())
    );
    assert_eq!(supervisor.shutdown_mode(), Some(ShutdownMode::Reboot));
    assert_eq!(backend.signals, vec![(1, Signal::Terminate)]);
    assert!(supervisor.render_logs(Some("init")).contains("shutdown"));
}

#[test]
fn parses_cli_commands() {
    assert_eq!(parse_command("status"), Ok(Command::Status));
    assert_eq!(
        parse_command("logs app"),
        Ok(Command::Logs {
            service: Some("app".into())
        })
    );
    assert_eq!(
        parse_command("log-level warn"),
        Ok(Command::LogLevel(LogLevel::Warn))
    );
    assert!(parse_command("stop").is_err());
    assert!(parse_command("status extra").is_err());
}
