//! The keys of a `[service.NAME]` section and of its `env` and `limits`
//! subsections.
use vstd::prelude::*;
use crate::config::{
    ConfigError, ConfigFault, MAX_SERVICE_TIMEOUT_MS, Readiness, RestartPolicy, ServiceConfig,
    ServiceKind, ServiceMode, ServiceSpec, TimeoutAction,
};
use crate::names::insert_entry;
use crate::text::{eq_str, string_of};
use crate::values::{
    invalid_value, joined3, parse_array, parse_bool, parse_bounded_u64, parse_positive_u32,
    parse_positive_u64, parse_signal, parse_stream, parse_string, parse_u32, spec_parse_array,
    spec_parse_bool, spec_parse_bounded, spec_parse_positive, spec_parse_signal, spec_parse_stream,
    spec_parse_string, spec_parse_uint, spec_validate_env_name, validate_env_name,
};

verus! {

/// What one `key = value` line of a service section does to the service.
pub open spec fn spec_service_field(
    cfg: ServiceSpec,
    service: Seq<char>,
    key: Seq<char>,
    value: Seq<char>,
) -> Result<ServiceSpec, ConfigFault> {
    if key == "command"@ {
        match spec_parse_string(value) {
            Err(e) => Err(e),
            Ok(s) => Ok(ServiceSpec { command: s, ..cfg }),
        }
    } else if key == "args"@ {
        match spec_parse_array(value) {
            Err(e) => Err(e),
            Ok(a) => Ok(ServiceSpec { args: a, ..cfg }),
        }
    } else if key == "workdir"@ {
        match spec_parse_string(value) {
            Err(e) => Err(e),
            Ok(s) => Ok(ServiceSpec { workdir: s, ..cfg }),
        }
    } else if key == "mode"@ {
        match spec_parse_string(value) {
            Err(e) => Err(e),
            Ok(s) => if s == "foreground"@ {
                Ok(ServiceSpec { mode: ServiceMode::Foreground, ..cfg })
            } else if s == "background"@ {
                Ok(ServiceSpec { mode: ServiceMode::Background, ..cfg })
            } else {
                Err(ConfigFault::InvalidValue(service + ".mode="@ + s))
            },
        }
    } else if key == "kind"@ {
        match spec_parse_string(value) {
            Err(e) => Err(e),
            Ok(s) => if s == "service"@ {
                Ok(ServiceSpec { kind: ServiceKind::Service, ..cfg })
            } else if s == "daemon"@ {
                Ok(ServiceSpec { kind: ServiceKind::Daemon, ..cfg })
            } else if s == "oneshot"@ {
                Ok(ServiceSpec { kind: ServiceKind::Oneshot, ..cfg })
            } else {
                Err(ConfigFault::InvalidValue(service + ".kind="@ + s))
            },
        }
    } else if key == "autostart"@ {
        match spec_parse_bool(value) {
            Err(e) => Err(e),
            Ok(b) => Ok(ServiceSpec { autostart: b, ..cfg }),
        }
    } else if key == "stdin"@ {
        match spec_parse_stream(value) {
            Err(e) => Err(e),
            Ok(t) => Ok(ServiceSpec { stdin: t, ..cfg }),
        }
    } else if key == "stdout"@ {
        match spec_parse_stream(value) {
            Err(e) => Err(e),
            Ok(t) => Ok(ServiceSpec { stdout: t, ..cfg }),
        }
    } else if key == "stderr"@ {
        match spec_parse_stream(value) {
            Err(e) => Err(e),
            Ok(t) => Ok(ServiceSpec { stderr: t, ..cfg }),
        }
    } else if key == "dependencies"@ {
        match spec_parse_array(value) {
            Err(e) => Err(e),
            Ok(a) => Ok(ServiceSpec { dependencies: a, ..cfg }),
        }
    } else if key == "order"@ {
        match spec_parse_uint(value, u32::MAX as nat) {
            Err(e) => Err(e),
            Ok(n) => Ok(ServiceSpec { order: n as u32, ..cfg }),
        }
    } else if key == "restart"@ {
        match spec_parse_string(value) {
            Err(e) => Err(e),
            Ok(s) => if s == "never"@ {
                Ok(ServiceSpec { restart: RestartPolicy::Never, ..cfg })
            } else if s == "on-failure"@ {
                Ok(ServiceSpec { restart: RestartPolicy::OnFailure, ..cfg })
            } else if s == "always"@ {
                Ok(ServiceSpec { restart: RestartPolicy::Always, ..cfg })
            } else {
                Err(ConfigFault::InvalidValue(service + ".restart="@ + s))
            },
        }
    } else if key == "max_restarts"@ {
        match spec_parse_uint(value, u32::MAX as nat) {
            Err(e) => Err(e),
            Ok(n) => Ok(ServiceSpec { max_restarts: n as u32, ..cfg }),
        }
    } else if key == "timeout_ms"@ {
        match spec_parse_bounded(value, service + ".timeout_ms"@, MAX_SERVICE_TIMEOUT_MS, false) {
            Err(e) => Err(e),
            Ok(n) => Ok(ServiceSpec { timeout_ms: n, ..cfg }),
        }
    } else if key == "stop_timeout_ms"@ {
        match spec_parse_bounded(
            value,
            service + ".stop_timeout_ms"@,
            MAX_SERVICE_TIMEOUT_MS,
            true,
        ) {
            Err(e) => Err(e),
            Ok(n) => Ok(ServiceSpec { stop_timeout_ms: n, ..cfg }),
        }
    } else if key == "stop_signal"@ {
        match spec_parse_string(value) {
            Err(e) => Err(e),
            Ok(s) => match spec_parse_signal(s) {
                Err(e) => Err(e),
                Ok(sig) => Ok(ServiceSpec { stop_signal: sig, ..cfg }),
            },
        }
    } else if key == "kill_signal"@ {
        match spec_parse_string(value) {
            Err(e) => Err(e),
            Ok(s) => match spec_parse_signal(s) {
                Err(e) => Err(e),
                Ok(sig) => Ok(ServiceSpec { kill_signal: sig, ..cfg }),
            },
        }
    } else if key == "timeout_action"@ {
        match spec_parse_string(value) {
            Err(e) => Err(e),
            Ok(s) => if s == "restart"@ {
                Ok(ServiceSpec { timeout_action: TimeoutAction::Restart, ..cfg })
            } else if s == "fail"@ {
                Ok(ServiceSpec { timeout_action: TimeoutAction::Fail, ..cfg })
            } else if s == "stop"@ {
                Ok(ServiceSpec { timeout_action: TimeoutAction::Stop, ..cfg })
            } else {
                Err(ConfigFault::InvalidValue(service + ".timeout_action="@ + s))
            },
        }
    } else if key == "readiness"@ {
        match spec_parse_string(value) {
            Err(e) => Err(e),
            Ok(s) => if s == "spawn"@ {
                Ok(ServiceSpec { readiness: Readiness::Spawn, ..cfg })
            } else if s == "notify"@ {
                Ok(ServiceSpec { readiness: Readiness::Notify, ..cfg })
            } else {
                Err(ConfigFault::InvalidValue(service + ".readiness="@ + s))
            },
        }
    } else if key == "readiness_timeout_ms"@ {
        match spec_parse_bounded(
            value,
            service + ".readiness_timeout_ms"@,
            MAX_SERVICE_TIMEOUT_MS,
            false,
        ) {
            Err(e) => Err(e),
            Ok(n) => Ok(ServiceSpec { readiness_timeout_ms: n, ..cfg }),
        }
    } else if key == "capabilities"@ {
        match spec_parse_array(value) {
            Err(e) => Err(e),
            Ok(a) => Ok(ServiceSpec { capabilities: a, ..cfg }),
        }
    } else {
        Err(ConfigFault::UnknownKey(service + "."@ + key))
    }
}

/// The `command`, `args`, `workdir` and `dependencies` keys of a service
/// section set exactly that field of the service to the value given (a
/// quoted string, or an array of them), and leave every other field as it
/// was; a value that does not parse is refused with its error.
pub proof fn lemma_service_text_keys(cfg: ServiceSpec, service: Seq<char>, value: Seq<char>)
    ensures
        spec_service_field(cfg, service, "command"@, value) == match spec_parse_string(value) {
            Ok(s) => Ok(ServiceSpec { command: s, ..cfg }),
            Err(e) => Err::<ServiceSpec, ConfigFault>(e),
        },
        spec_service_field(cfg, service, "workdir"@, value) == match spec_parse_string(value) {
            Ok(s) => Ok(ServiceSpec { workdir: s, ..cfg }),
            Err(e) => Err::<ServiceSpec, ConfigFault>(e),
        },
        spec_service_field(cfg, service, "args"@, value) == match spec_parse_array(value) {
            Ok(a) => Ok(ServiceSpec { args: a, ..cfg }),
            Err(e) => Err::<ServiceSpec, ConfigFault>(e),
        },
        spec_service_field(cfg, service, "dependencies"@, value) == match spec_parse_array(value) {
            Ok(a) => Ok(ServiceSpec { dependencies: a, ..cfg }),
            Err(e) => Err::<ServiceSpec, ConfigFault>(e),
        },
        spec_service_field(cfg, service, "workdir"@, value) matches Ok(c) ==> c.workdir
            == spec_parse_string(value)->Ok_0 && c.command == cfg.command,
{
    reveal_strlit("command");
    reveal_strlit("args");
    reveal_strlit("workdir");
    reveal_strlit("mode");
    reveal_strlit("kind");
    reveal_strlit("autostart");
    reveal_strlit("stdin");
    reveal_strlit("stdout");
    reveal_strlit("stderr");
    reveal_strlit("dependencies");
    assert("workdir"@[0] != "command"@[0]);
    assert("args"@.len() != "command"@.len());
    assert("workdir"@.len() != "args"@.len());
    let d = "dependencies"@;
    assert(d.len() == 12);
    let others = seq![
        "command"@,
        "args"@,
        "workdir"@,
        "mode"@,
        "kind"@,
        "autostart"@,
        "stdin"@,
        "stdout"@,
        "stderr"@,
    ];
    assert forall|k: int| 0 <= k < others.len() implies others[k].len() < 12 && #[trigger] others[k]
        != d by {
    }
}

/// What one line of a `[service.NAME.env]` section does to the service.
pub open spec fn spec_service_env(cfg: ServiceSpec, key: Seq<char>, value: Seq<char>) -> Result<
    ServiceSpec,
    ConfigFault,
> {
    match spec_validate_env_name(key) {
        Err(e) => Err(e),
        Ok(_) => match spec_parse_string(value) {
            Err(e) => Err(e),
            Ok(s) => Ok(ServiceSpec { environment: insert_entry(cfg.environment, key, s), ..cfg }),
        },
    }
}

/// What one line of a `[service.NAME.limits]` section does to the service.
pub open spec fn spec_service_limit(
    cfg: ServiceSpec,
    service: Seq<char>,
    key: Seq<char>,
    value: Seq<char>,
) -> Result<ServiceSpec, ConfigFault> {
    let limits = cfg.limits;
    if key == "cpu_time_ms"@ {
        match spec_parse_positive(value, key, u64::MAX as nat) {
            Err(e) => Err(e),
            Ok(n) => Ok(
                ServiceSpec {
                    limits: crate::config::ResourceLimits { cpu_time_ms: Some(n as u64), ..limits },
                    ..cfg
                },
            ),
        }
    } else if key == "memory_bytes"@ {
        match spec_parse_positive(value, key, u64::MAX as nat) {
            Err(e) => Err(e),
            Ok(n) => Ok(
                ServiceSpec {
                    limits: crate::config::ResourceLimits { memory_bytes: Some(n as u64), ..limits },
                    ..cfg
                },
            ),
        }
    } else if key == "open_fds"@ {
        match spec_parse_positive(value, key, u32::MAX as nat) {
            Err(e) => Err(e),
            Ok(n) => Ok(
                ServiceSpec {
                    limits: crate::config::ResourceLimits { open_fds: Some(n as u32), ..limits },
                    ..cfg
                },
            ),
        }
    } else if key == "child_processes"@ {
        match spec_parse_positive(value, key, u32::MAX as nat) {
            Err(e) => Err(e),
            Ok(n) => Ok(
                ServiceSpec {
                    limits: crate::config::ResourceLimits {
                        child_processes: Some(n as u32),
                        ..limits
                    },
                    ..cfg
                },
            ),
        }
    } else {
        Err(ConfigFault::UnknownKey(service + ".limits."@ + key))
    }
}

/// The outcome of an update of a service, as its view.
pub open spec fn updated(
    r: Result<(), ConfigError>,
    before: ServiceSpec,
    after: ServiceSpec,
) -> Result<ServiceSpec, ConfigFault> {
    match r {
        Ok(_) => Ok(after),
        Err(e) => Err(e@),
    }
}

fn apply_mode(cfg: &mut ServiceConfig, service: &Vec<char>, s: &Vec<char>) -> (r: Result<
    (),
    ConfigError,
>)
    requires
        old(cfg).environment.wf(),
    ensures
        final(cfg).environment.wf(),
        updated(r, old(cfg)@, final(cfg)@) == (if s@ == "foreground"@ {
            Ok(ServiceSpec { mode: ServiceMode::Foreground, ..old(cfg)@ })
        } else if s@ == "background"@ {
            Ok(ServiceSpec { mode: ServiceMode::Background, ..old(cfg)@ })
        } else {
            Err(ConfigFault::InvalidValue(service@ + ".mode="@ + s@))
        }),
{
    if eq_str(s, "foreground") {
        cfg.mode = ServiceMode::Foreground;
    } else if eq_str(s, "background") {
        cfg.mode = ServiceMode::Background;
    } else {
        return Err(invalid_value(&joined3(service, ".mode=", s)));
    }
    Ok(())
}

fn apply_kind(cfg: &mut ServiceConfig, service: &Vec<char>, s: &Vec<char>) -> (r: Result<
    (),
    ConfigError,
>)
    requires
        old(cfg).environment.wf(),
    ensures
        final(cfg).environment.wf(),
        updated(r, old(cfg)@, final(cfg)@) == (if s@ == "service"@ {
            Ok(ServiceSpec { kind: ServiceKind::Service, ..old(cfg)@ })
        } else if s@ == "daemon"@ {
            Ok(ServiceSpec { kind: ServiceKind::Daemon, ..old(cfg)@ })
        } else if s@ == "oneshot"@ {
            Ok(ServiceSpec { kind: ServiceKind::Oneshot, ..old(cfg)@ })
        } else {
            Err(ConfigFault::InvalidValue(service@ + ".kind="@ + s@))
        }),
{
    if eq_str(s, "service") {
        cfg.kind = ServiceKind::Service;
    } else if eq_str(s, "daemon") {
        cfg.kind = ServiceKind::Daemon;
    } else if eq_str(s, "oneshot") {
        cfg.kind = ServiceKind::Oneshot;
    } else {
        return Err(invalid_value(&joined3(service, ".kind=", s)));
    }
    Ok(())
}

fn apply_restart(cfg: &mut ServiceConfig, service: &Vec<char>, s: &Vec<char>) -> (r: Result<
    (),
    ConfigError,
>)
    requires
        old(cfg).environment.wf(),
    ensures
        final(cfg).environment.wf(),
        updated(r, old(cfg)@, final(cfg)@) == (if s@ == "never"@ {
            Ok(ServiceSpec { restart: RestartPolicy::Never, ..old(cfg)@ })
        } else if s@ == "on-failure"@ {
            Ok(ServiceSpec { restart: RestartPolicy::OnFailure, ..old(cfg)@ })
        } else if s@ == "always"@ {
            Ok(ServiceSpec { restart: RestartPolicy::Always, ..old(cfg)@ })
        } else {
            Err(ConfigFault::InvalidValue(service@ + ".restart="@ + s@))
        }),
{
    if eq_str(s, "never") {
        cfg.restart = RestartPolicy::Never;
    } else if eq_str(s, "on-failure") {
        cfg.restart = RestartPolicy::OnFailure;
    } else if eq_str(s, "always") {
        cfg.restart = RestartPolicy::Always;
    } else {
        return Err(invalid_value(&joined3(service, ".restart=", s)));
    }
    Ok(())
}

fn apply_timeout_action(cfg: &mut ServiceConfig, service: &Vec<char>, s: &Vec<char>) -> (r:
    Result<(), ConfigError>)
    requires
        old(cfg).environment.wf(),
    ensures
        final(cfg).environment.wf(),
        updated(r, old(cfg)@, final(cfg)@) == (if s@ == "restart"@ {
            Ok(ServiceSpec { timeout_action: TimeoutAction::Restart, ..old(cfg)@ })
        } else if s@ == "fail"@ {
            Ok(ServiceSpec { timeout_action: TimeoutAction::Fail, ..old(cfg)@ })
        } else if s@ == "stop"@ {
            Ok(ServiceSpec { timeout_action: TimeoutAction::Stop, ..old(cfg)@ })
        } else {
            Err(ConfigFault::InvalidValue(service@ + ".timeout_action="@ + s@))
        }),
{
    if eq_str(s, "restart") {
        cfg.timeout_action = TimeoutAction::Restart;
    } else if eq_str(s, "fail") {
        cfg.timeout_action = TimeoutAction::Fail;
    } else if eq_str(s, "stop") {
        cfg.timeout_action = TimeoutAction::Stop;
    } else {
        return Err(invalid_value(&joined3(service, ".timeout_action=", s)));
    }
    Ok(())
}

fn apply_readiness(cfg: &mut ServiceConfig, service: &Vec<char>, s: &Vec<char>) -> (r: Result<
    (),
    ConfigError,
>)
    requires
        old(cfg).environment.wf(),
    ensures
        final(cfg).environment.wf(),
        updated(r, old(cfg)@, final(cfg)@) == (if s@ == "spawn"@ {
            Ok(ServiceSpec { readiness: Readiness::Spawn, ..old(cfg)@ })
        } else if s@ == "notify"@ {
            Ok(ServiceSpec { readiness: Readiness::Notify, ..old(cfg)@ })
        } else {
            Err(ConfigFault::InvalidValue(service@ + ".readiness="@ + s@))
        }),
{
    if eq_str(s, "spawn") {
        cfg.readiness = Readiness::Spawn;
    } else if eq_str(s, "notify") {
        cfg.readiness = Readiness::Notify;
    } else {
        return Err(invalid_value(&joined3(service, ".readiness=", s)));
    }
    Ok(())
}

/// The field name `service.suffix`.
fn field_name(service: &Vec<char>, suffix: &str) -> (f: Vec<char>)
    ensures
        f@ == service@ + suffix@,
{
    let mut f = crate::text::copy_chars(service);
    crate::text::push_str(&mut f, suffix);
    f
}

/// Applies one `key = value` line of a service section.
pub fn apply_service_field(
    cfg: &mut ServiceConfig,
    service: &Vec<char>,
    key: &Vec<char>,
    value: &Vec<char>,
) -> (r: Result<(), ConfigError>)
    requires
        old(cfg).environment.wf(),
    ensures
        final(cfg).environment.wf(),
        updated(r, old(cfg)@, final(cfg)@) == spec_service_field(
            old(cfg)@,
            service@,
            key@,
            value@,
        ),
{
    if eq_str(key, "command") {
        let s = parse_string(value)?;
        cfg.command = string_of(&s);
    } else if eq_str(key, "args") {
        cfg.args = parse_array(value)?;
    } else if eq_str(key, "workdir") {
        let s = parse_string(value)?;
        cfg.workdir = string_of(&s);
    } else if eq_str(key, "mode") {
        let s = parse_string(value)?;
        return apply_mode(cfg, service, &s);
    } else if eq_str(key, "kind") {
        let s = parse_string(value)?;
        return apply_kind(cfg, service, &s);
    } else if eq_str(key, "autostart") {
        cfg.autostart = parse_bool(value)?;
    } else if eq_str(key, "stdin") {
        cfg.stdin = parse_stream(value)?;
    } else if eq_str(key, "stdout") {
        cfg.stdout = parse_stream(value)?;
    } else if eq_str(key, "stderr") {
        cfg.stderr = parse_stream(value)?;
    } else if eq_str(key, "dependencies") {
        cfg.dependencies = parse_array(value)?;
    } else if eq_str(key, "order") {
        cfg.order = parse_u32(value)?;
    } else if eq_str(key, "restart") {
        let s = parse_string(value)?;
        return apply_restart(cfg, service, &s);
    } else if eq_str(key, "max_restarts") {
        cfg.max_restarts = parse_u32(value)?;
    } else if eq_str(key, "timeout_ms") {
        let f = field_name(service, ".timeout_ms");
        cfg.timeout_ms = parse_bounded_u64(value, &f, MAX_SERVICE_TIMEOUT_MS, false)?;
    } else if eq_str(key, "stop_timeout_ms") {
        let f = field_name(service, ".stop_timeout_ms");
        cfg.stop_timeout_ms = parse_bounded_u64(value, &f, MAX_SERVICE_TIMEOUT_MS, true)?;
    } else if eq_str(key, "stop_signal") {
        let s = parse_string(value)?;
        cfg.stop_signal = parse_signal(&s)?;
    } else if eq_str(key, "kill_signal") {
        let s = parse_string(value)?;
        cfg.kill_signal = parse_signal(&s)?;
    } else if eq_str(key, "timeout_action") {
        let s = parse_string(value)?;
        return apply_timeout_action(cfg, service, &s);
    } else if eq_str(key, "readiness") {
        let s = parse_string(value)?;
        return apply_readiness(cfg, service, &s);
    } else if eq_str(key, "readiness_timeout_ms") {
        let f = field_name(service, ".readiness_timeout_ms");
        cfg.readiness_timeout_ms = parse_bounded_u64(value, &f, MAX_SERVICE_TIMEOUT_MS, false)?;
    } else if eq_str(key, "capabilities") {
        cfg.capabilities = parse_array(value)?;
    } else {
        return Err(ConfigError::UnknownKey(string_of(&joined3(service, ".", key))));
    }
    Ok(())
}

/// Applies one line of a `[service.NAME.env]` section.
pub fn apply_service_env(cfg: &mut ServiceConfig, key: &Vec<char>, value: &Vec<char>) -> (r:
    Result<(), ConfigError>)
    requires
        old(cfg).environment.wf(),
    ensures
        final(cfg).environment.wf(),
        updated(r, old(cfg)@, final(cfg)@) == spec_service_env(old(cfg)@, key@, value@),
{
    validate_env_name(key)?;
    let s = parse_string(value)?;
    cfg.environment.insert(string_of(key), string_of(&s));
    Ok(())
}

/// Applies one line of a `[service.NAME.limits]` section.
pub fn apply_service_limit(
    cfg: &mut ServiceConfig,
    service: &Vec<char>,
    key: &Vec<char>,
    value: &Vec<char>,
) -> (r: Result<(), ConfigError>)
    requires
        old(cfg).environment.wf(),
    ensures
        final(cfg).environment.wf(),
        updated(r, old(cfg)@, final(cfg)@) == spec_service_limit(
            old(cfg)@,
            service@,
            key@,
            value@,
        ),
{
    if eq_str(key, "cpu_time_ms") {
        let n = parse_positive_u64(value, key)?;
        cfg.limits.cpu_time_ms = Some(n);
    } else if eq_str(key, "memory_bytes") {
        let n = parse_positive_u64(value, key)?;
        cfg.limits.memory_bytes = Some(n);
    } else if eq_str(key, "open_fds") {
        let n = parse_positive_u32(value, key)?;
        cfg.limits.open_fds = Some(n);
    } else if eq_str(key, "child_processes") {
        let n = parse_positive_u32(value, key)?;
        cfg.limits.child_processes = Some(n);
    } else {
        return Err(ConfigError::UnknownKey(string_of(&joined3(service, ".limits.", key))));
    }
    Ok(())
}

} // verus!
