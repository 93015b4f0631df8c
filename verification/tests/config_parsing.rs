use quickinit::{
    parse_config, recovery_mode_for_source, ConfigError, Readiness, RecoveryMode, ServiceKind,
    ServiceMode, ShutdownTimeoutAction, Signal, StorageFailureAction, StreamSpec, TimeoutAction,
};

const CONFIG: &str = r#"
        [init]
        version = 1
        recovery = "shell"

        [logging]
        level = "debug"
        retention = 3
        serial_fallback = true
        on_storage_unavailable = "serial"

        [env]
        PATH = "/bin"

        [service.logger]
        command = "/bin/logger"
        args = ["--boot"]
        workdir = "/"
        restart = "always"
        max_restarts = 2
        timeout_ms = 100

        [service.shell]
        command = "/bin/sh"
        dependencies = ["logger"]
        restart = "never"
    "#;

#[test]
fn parses_strict_config_and_defaults() {
    let config = parse_config(CONFIG).expect("config should parse");
    assert_eq!(config.version, 1);
    assert_eq!(config.recovery, RecoveryMode::Shell);
    assert_eq!(config.environment.get("PATH").unwrap().as_str(), "/bin");
    assert_eq!(
        config.logging.on_storage_unavailable,
        StorageFailureAction::Serial
    );
    assert_eq!(config.services.get("shell").unwrap().dependencies, vec!["logger"]);
    assert_eq!(config.services.get("shell").unwrap().readiness, Readiness::Spawn);
}

#[test]
fn rejects_dependency_cycles() {
    let source = r#"
            [init]
            version = 1
            [service.a]
            command = "/bin/a"
            dependencies = ["b"]
            [service.b]
            command = "/bin/b"
            dependencies = ["a"]
        "#;
    assert!(matches!(
        parse_config(source),
        Err(ConfigError::DependencyCycle(_))
    ));
}

#[test]
fn parses_boot_gates_and_recovery_shell() {
    let config = parse_config(
        r#"
            [init]
            version = 1
            recovery = "shell"
            [boot]
            shell = "shell"
            recovery_shell = "recovery"
            mounts = ["mounts"]
            devices = ["devices"]
            logging = ["logger"]
            [service.shell]
            command = "/bin/sh"
            [service.recovery]
            command = "/bin/recovery"
            autostart = false
            [service.mounts]
            command = "/bin/mounts"
            [service.devices]
            command = "/bin/devices"
            [service.logger]
            command = "/bin/logger"
        "#,
    )
    .expect("boot config should parse");
    assert_eq!(config.boot.shell.as_deref(), Some("shell"));
    assert_eq!(config.boot.recovery_shell.as_deref(), Some("recovery"));
    assert_eq!(config.boot.mounts, vec!["mounts"]);
    assert_eq!(config.boot.devices, vec!["devices"]);
    assert_eq!(config.boot.logging, vec!["logger"]);
    assert_eq!(recovery_mode_for_source("not valid"), RecoveryMode::Shell);
}

#[test]
fn rejects_malformed_config_before_startup() {
    let duplicate = r#"
            [init]
            version = 1
            version = 1
        "#;
    assert!(matches!(
        parse_config(duplicate),
        Err(ConfigError::DuplicateKey(_))
    ));

    let unknown = r#"
            [init]
            version = 1
            unexpected = true
        "#;
    assert!(matches!(
        parse_config(unknown),
        Err(ConfigError::UnknownKey(_))
    ));
}

#[test]
fn parses_full_service_contract() {
    let config = parse_config(
        r#"
            [init]
            version = 1
            [env]
            PATH = "/bin"
            [shutdown]
            signal = "hangup"
            timeout_ms = 1000
            on_timeout = "halt"
            [service.app]
            command = "/bin/app"
            workdir = "/var/app"
            mode = "background"
            kind = "daemon"
            autostart = false
            stdin = "null"
            stdout = "serial"
            stderr = "file:/var/log/app.log"
            order = 7
            readiness = "notify"
            readiness_timeout_ms = 250
            stop_timeout_ms = 750
            stop_signal = "hangup"
            kill_signal = "kill"
            timeout_action = "fail"
            capabilities = ["net-admin", "memory-map"]
            [service.app.env]
            APP_MODE = "production"
            [service.app.limits]
            cpu_time_ms = 10000
            memory_bytes = 65536
            open_fds = 16
            child_processes = 4
        "#,
    )
    .expect("full service contract should parse");
    let service = config.services.get("app").unwrap();
    assert_eq!(service.mode, ServiceMode::Background);
    assert_eq!(service.kind, ServiceKind::Daemon);
    assert!(!service.autostart);
    assert_eq!(service.stdin, StreamSpec::Null);
    assert_eq!(service.stdout, StreamSpec::Serial);
    assert_eq!(
        service.stderr,
        StreamSpec::File("/var/log/app.log".to_owned())
    );
    assert_eq!(service.environment.get("APP_MODE").unwrap().as_str(), "production");
    assert_eq!(service.environment.get("PATH").unwrap().as_str(), "/bin");
    assert_eq!(service.order, 7);
    assert_eq!(service.readiness, Readiness::Notify);
    assert_eq!(service.readiness_timeout_ms, 250);
    assert_eq!(service.stop_timeout_ms, 750);
    assert_eq!(service.stop_signal, Signal::Hangup);
    assert_eq!(service.timeout_action, TimeoutAction::Fail);
    assert_eq!(service.limits.memory_bytes, Some(65536));
    assert_eq!(config.shutdown.signal, Signal::Hangup);
    assert_eq!(config.shutdown.on_timeout, ShutdownTimeoutAction::Halt);
}

#[test]
fn rejects_unsafe_contract_values() {
    let bad_stream = r#"
            [init]
            version = 1
            [service.app]
            command = "/bin/app"
            stdout = "file:relative.log"
        "#;
    assert!(matches!(
        parse_config(bad_stream),
        Err(ConfigError::InvalidValue(_))
    ));

    let bad_capability = r#"
            [init]
            version = 1
            [service.app]
            command = "/bin/app"
            capabilities = ["all"]
        "#;
    assert!(matches!(
        parse_config(bad_capability),
        Err(ConfigError::InvalidValue(_))
    ));

    let missing_readiness_timeout = r#"
            [init]
            version = 1
            [service.app]
            command = "/bin/app"
            readiness = "notify"
        "#;
    assert!(matches!(
        parse_config(missing_readiness_timeout),
        Err(ConfigError::MissingValue(_))
    ));

    let daemon_without_notification = r#"
            [init]
            version = 1
            [service.app]
            command = "/bin/app"
            kind = "daemon"
        "#;
    assert!(matches!(
        parse_config(daemon_without_notification),
        Err(ConfigError::InvalidValue(_))
    ));
}
