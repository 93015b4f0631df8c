//! The configuration format: a strict TOML subset read line by line into a
//! draft, then checked as a whole.
use vstd::prelude::*;
use crate::config::{
    BootConfig, BootSpec, ConfigError, ConfigFault, InitConfig, InitSpec, LogLevel, LoggingConfig,
    MAX_LOG_RETENTION, MAX_SHUTDOWN_TIMEOUT_MS, RecoveryMode, ServiceConfig, ServiceKind,
    ServiceSpec, ShutdownConfig, ShutdownTimeoutAction, StorageFailureAction, Readiness,
    default_boot, default_logging, default_service, default_shutdown, lift, texts,
};
use crate::cycles::{detect_cycle, find_cycle, graph_of};
use crate::names::{
    Entries, NameMap, has_name, insert_absent, insert_entry, lookup, names_sorted, position,
    lemma_insert_entry, lemma_insert_entry_values, lemma_lookup_push, lemma_position_bounds,
};
use crate::service_keys::{
    apply_service_env, apply_service_field, apply_service_limit, spec_service_env,
    spec_service_field, spec_service_limit,
};
use crate::text::{
    chars_of, chars_of_string, copy_chars, decimal, eq_str, find, find_char, has_prefix, push_all,
    push_decimal, push_str, slice_chars, split, split_chars, starts_with_str, string_of, text_lt,
    trim, trim_chars, lemma_text_lt_irreflexive,
};
use crate::values::{
    contains_text, invalid_value, joined, joined3, parse_array, parse_bool, parse_bounded_u64,
    parse_log_level, parse_signal, parse_string, parse_u32, parse_u64, spec_parse_array,
    spec_parse_bool, spec_parse_bounded, spec_parse_log_level, spec_parse_signal,
    spec_parse_string, spec_parse_uint, spec_validate_capabilities, spec_validate_env_name,
    spec_validate_name, spec_validate_path, validate_capabilities, validate_env_name,
    validate_name, validate_path,
};

verus! {

/// What the lines read so far have set.
pub struct Draft {
    pub section: Seq<char>,
    pub seen: Seq<Seq<char>>,
    pub version: Option<u32>,
    pub recovery: Option<RecoveryMode>,
    pub environment: Entries<Seq<char>>,
    pub logging: LoggingConfig,
    pub shutdown: ShutdownConfig,
    pub boot: BootSpec,
    pub services: Entries<ServiceSpec>,
}

/// Before the first line: in `[init]`, nothing set.
pub open spec fn initial_draft() -> Draft {
    Draft {
        section: "init"@,
        seen: Seq::empty(),
        version: None,
        recovery: None,
        environment: Seq::empty(),
        logging: default_logging(),
        shutdown: default_shutdown(),
        boot: default_boot(),
        services: Seq::empty(),
    }
}

/// The part of a raw line before any `#`, trimmed.
pub open spec fn clean_line(raw: Seq<char>) -> Seq<char> {
    trim(raw.take(find(raw, '#')))
}

/// Sections with a fixed name.
pub open spec fn fixed_section(s: Seq<char>) -> bool {
    s == "init"@ || s == "logging"@ || s == "env"@ || s == "boot"@ || s == "shutdown"@
}

/// A `[...]` line.
pub open spec fn header_step(d: Draft, line: Seq<char>) -> Result<Draft, ConfigFault> {
    if line.last() != ']' {
        Err(ConfigFault::InvalidLine(line))
    } else {
        let section = trim(line.subrange(1, line.len() - 1));
        if fixed_section(section) {
            Ok(Draft { section, ..d })
        } else if !has_prefix(section, "service."@) {
            Err(ConfigFault::InvalidLine(line))
        } else {
            let parts = split(section.skip(8), '.');
            let name = parts[0];
            if name.len() == 0 {
                Err(ConfigFault::InvalidLine(line))
            } else {
                match spec_validate_name(name) {
                    Err(e) => Err(e),
                    Ok(_) => if parts.len() >= 2 && ((parts[1] != "env"@ && parts[1] != "limits"@)
                        || parts.len() >= 3) {
                        Err(ConfigFault::InvalidLine(line))
                    } else {
                        Ok(
                            Draft {
                                section,
                                services: insert_absent(d.services, name, default_service()),
                                ..d
                            },
                        )
                    },
                }
            }
        }
    }
}

/// A key of `[init]`.
pub open spec fn init_key(d: Draft, key: Seq<char>, value: Seq<char>) -> Result<Draft, ConfigFault> {
    if key == "version"@ {
        match spec_parse_uint(value, u32::MAX as nat) {
            Err(e) => Err(e),
            Ok(n) => Ok(Draft { version: Some(n as u32), ..d }),
        }
    } else if key == "recovery"@ {
        match spec_parse_string(value) {
            Err(e) => Err(e),
            Ok(s) => if s == "halt"@ {
                Ok(Draft { recovery: Some(RecoveryMode::Halt), ..d })
            } else if s == "shell"@ {
                Ok(Draft { recovery: Some(RecoveryMode::Shell), ..d })
            } else {
                Err(ConfigFault::InvalidValue("recovery="@ + s))
            },
        }
    } else {
        Err(ConfigFault::UnknownKey(key))
    }
}

/// A key of `[logging]`.
pub open spec fn logging_key(d: Draft, key: Seq<char>, value: Seq<char>) -> Result<
    Draft,
    ConfigFault,
> {
    let l = d.logging;
    if key == "level"@ {
        match spec_parse_string(value) {
            Err(e) => Err(e),
            Ok(s) => match spec_parse_log_level(s) {
                Err(e) => Err(e),
                Ok(level) => Ok(Draft { logging: LoggingConfig { level, ..l }, ..d }),
            },
        }
    } else if key == "retention"@ {
        match spec_parse_uint(value, u64::MAX as nat) {
            Err(e) => Err(e),
            Ok(n) => if n == 0 || n > MAX_LOG_RETENTION {
                Err(ConfigFault::InvalidValue("retention="@ + decimal(n)))
            } else {
                Ok(Draft { logging: LoggingConfig { retention: n as usize, ..l }, ..d })
            },
        }
    } else if key == "serial_fallback"@ {
        match spec_parse_bool(value) {
            Err(e) => Err(e),
            Ok(b) => Ok(Draft { logging: LoggingConfig { serial_fallback: b, ..l }, ..d }),
        }
    } else if key == "on_storage_unavailable"@ {
        match spec_parse_string(value) {
            Err(e) => Err(e),
            Ok(s) => if s == "serial"@ {
                Ok(
                    Draft {
                        logging: LoggingConfig {
                            on_storage_unavailable: StorageFailureAction::Serial,
                            ..l
                        },
                        ..d
                    },
                )
            } else if s == "continue"@ {
                Ok(
                    Draft {
                        logging: LoggingConfig {
                            on_storage_unavailable: StorageFailureAction::Continue,
                            ..l
                        },
                        ..d
                    },
                )
            } else if s == "halt"@ {
                Ok(
                    Draft {
                        logging: LoggingConfig {
                            on_storage_unavailable: StorageFailureAction::Halt,
                            ..l
                        },
                        ..d
                    },
                )
            } else {
                Err(ConfigFault::InvalidValue("logging.on_storage_unavailable="@ + s))
            },
        }
    } else {
        Err(ConfigFault::UnknownKey(key))
    }
}

/// A key of `[boot]`.
pub open spec fn boot_key(d: Draft, key: Seq<char>, value: Seq<char>) -> Result<Draft, ConfigFault> {
    let b = d.boot;
    if key == "shell"@ {
        match spec_parse_string(value) {
            Err(e) => Err(e),
            Ok(s) => Ok(Draft { boot: BootSpec { shell: Some(s), ..b }, ..d }),
        }
    } else if key == "recovery_shell"@ {
        match spec_parse_string(value) {
            Err(e) => Err(e),
            Ok(s) => Ok(Draft { boot: BootSpec { recovery_shell: Some(s), ..b }, ..d }),
        }
    } else if key == "mounts"@ {
        match spec_parse_array(value) {
            Err(e) => Err(e),
            Ok(a) => Ok(Draft { boot: BootSpec { mounts: a, ..b }, ..d }),
        }
    } else if key == "devices"@ {
        match spec_parse_array(value) {
            Err(e) => Err(e),
            Ok(a) => Ok(Draft { boot: BootSpec { devices: a, ..b }, ..d }),
        }
    } else if key == "logging"@ {
        match spec_parse_array(value) {
            Err(e) => Err(e),
            Ok(a) => Ok(Draft { boot: BootSpec { logging: a, ..b }, ..d }),
        }
    } else {
        Err(ConfigFault::UnknownKey(key))
    }
}

/// A key of `[env]`: an environment variable for every service.
pub open spec fn env_key(d: Draft, key: Seq<char>, value: Seq<char>) -> Result<Draft, ConfigFault> {
    match spec_validate_env_name(key) {
        Err(e) => Err(e),
        Ok(_) => match spec_parse_string(value) {
            Err(e) => Err(e),
            Ok(s) => Ok(Draft { environment: insert_entry(d.environment, key, s), ..d }),
        },
    }
}

/// A key of `[shutdown]`.
pub open spec fn shutdown_key(d: Draft, key: Seq<char>, value: Seq<char>) -> Result<
    Draft,
    ConfigFault,
> {
    let s0 = d.shutdown;
    if key == "signal"@ {
        match spec_parse_string(value) {
            Err(e) => Err(e),
            Ok(s) => match spec_parse_signal(s) {
                Err(e) => Err(e),
                Ok(sig) => Ok(Draft { shutdown: ShutdownConfig { signal: sig, ..s0 }, ..d }),
            },
        }
    } else if key == "timeout_ms"@ {
        match spec_parse_bounded(value, "shutdown.timeout_ms"@, MAX_SHUTDOWN_TIMEOUT_MS, true) {
            Err(e) => Err(e),
            Ok(n) => Ok(Draft { shutdown: ShutdownConfig { timeout_ms: n, ..s0 }, ..d }),
        }
    } else if key == "on_timeout"@ {
        match spec_parse_string(value) {
            Err(e) => Err(e),
            Ok(s) => if s == "kill"@ {
                Ok(
                    Draft {
                        shutdown: ShutdownConfig { on_timeout: ShutdownTimeoutAction::Kill, ..s0 },
                        ..d
                    },
                )
            } else if s == "halt"@ {
                Ok(
                    Draft {
                        shutdown: ShutdownConfig { on_timeout: ShutdownTimeoutAction::Halt, ..s0 },
                        ..d
                    },
                )
            } else {
                Err(ConfigFault::InvalidValue("shutdown.on_timeout="@ + s))
            },
        }
    } else {
        Err(ConfigFault::UnknownKey(key))
    }
}

/// A key of a `[service.NAME]`, `[service.NAME.env]` or
/// `[service.NAME.limits]` section.
pub open spec fn service_key(d: Draft, key: Seq<char>, value: Seq<char>) -> Result<
    Draft,
    ConfigFault,
> {
    let section = d.section;
    let unknown = ConfigFault::InvalidLine("unknown section ["@ + section + "]"@);
    if !has_prefix(section, "service."@) {
        Err(unknown)
    } else {
        let parts = split(section.skip(8), '.');
        let service = parts[0];
        if parts.len() >= 3 {
            Err(unknown)
        } else {
            let i = position(d.services, service);
            if i >= d.services.len() {
                Err(ConfigFault::InvalidLine(section))
            } else {
                let cfg = d.services[i].1;
                let r = if parts.len() == 1 {
                    spec_service_field(cfg, service, key, value)
                } else if parts[1] == "env"@ {
                    spec_service_env(cfg, key, value)
                } else if parts[1] == "limits"@ {
                    spec_service_limit(cfg, service, key, value)
                } else {
                    Err(
                        ConfigFault::InvalidLine(
                            "unknown section [service."@ + service + "."@ + parts[1] + "]"@,
                        ),
                    )
                };
                match r {
                    Err(e) => Err(e),
                    Ok(c) => Ok(Draft { services: d.services.update(i, (service, c)), ..d }),
                }
            }
        }
    }
}

/// A `key = value` line.
pub open spec fn assign_step(d: Draft, line: Seq<char>) -> Result<Draft, ConfigFault> {
    let eq = find(line, '=');
    if eq >= line.len() {
        Err(ConfigFault::InvalidLine(line))
    } else {
        let key = trim(line.take(eq));
        let value = trim(line.skip(eq + 1));
        if key.len() == 0 {
            Err(ConfigFault::InvalidLine(line))
        } else {
            let full = d.section + "."@ + key;
            if d.seen.contains(full) {
                Err(ConfigFault::DuplicateKey(key))
            } else {
                let d1 = Draft { seen: d.seen.push(full), ..d };
                if d.section == "init"@ {
                    init_key(d1, key, value)
                } else if d.section == "logging"@ {
                    logging_key(d1, key, value)
                } else if d.section == "boot"@ {
                    boot_key(d1, key, value)
                } else if d.section == "env"@ {
                    env_key(d1, key, value)
                } else if d.section == "shutdown"@ {
                    shutdown_key(d1, key, value)
                } else {
                    service_key(d1, key, value)
                }
            }
        }
    }
}

/// One raw line: blank and comment lines change nothing.
pub open spec fn step(d: Draft, raw: Seq<char>) -> Result<Draft, ConfigFault> {
    let line = clean_line(raw);
    if line.len() == 0 {
        Ok(d)
    } else if line[0] == '[' {
        header_step(d, line)
    } else {
        assign_step(d, line)
    }
}

/// The lines in order, stopping at the first error.
pub open spec fn run_lines(lines: Seq<Seq<char>>) -> Result<Draft, ConfigFault>
    decreases lines.len(),
{
    if lines.len() == 0 {
        Ok(initial_draft())
    } else {
        match run_lines(lines.drop_last()) {
            Err(e) => Err(e),
            Ok(d) => step(d, lines.last()),
        }
    }
}

/// Dependencies are checked in order: the first unknown one decides.
pub open spec fn check_dependencies(
    all: Entries<ServiceSpec>,
    name: Seq<char>,
    deps: Seq<Seq<char>>,
) -> Result<(), ConfigFault>
    decreases deps.len(),
{
    if deps.len() == 0 {
        Ok(())
    } else {
        match check_dependencies(all, name, deps.drop_last()) {
            Err(e) => Err(e),
            Ok(_) => if has_name(all, deps.last()) {
                Ok(())
            } else {
                Err(ConfigFault::UnknownDependency { service: name, dependency: deps.last() })
            },
        }
    }
}

/// The checks of one service, in the order they are made.
pub open spec fn check_service(all: Entries<ServiceSpec>, name: Seq<char>, svc: ServiceSpec) -> Result<
    (),
    ConfigFault,
> {
    if svc.command.len() == 0 {
        Err(ConfigFault::MissingValue(name + ".command"@))
    } else {
        match spec_validate_path(svc.command, name + ".command"@) {
            Err(e) => Err(e),
            Ok(_) => match spec_validate_path(svc.workdir, name + ".workdir"@) {
                Err(e) => Err(e),
                Ok(_) => match spec_validate_capabilities(name, svc.capabilities) {
                    Err(e) => Err(e),
                    Ok(_) => if svc.kind == ServiceKind::Daemon && svc.readiness
                        != Readiness::Notify {
                        Err(
                            ConfigFault::InvalidValue(
                                name + ".daemon requires readiness=notify"@,
                            ),
                        )
                    } else if svc.readiness == Readiness::Notify && svc.readiness_timeout_ms
                        == 0 {
                        Err(ConfigFault::MissingValue(name + ".readiness_timeout_ms"@))
                    } else {
                        check_dependencies(all, name, svc.dependencies)
                    },
                },
            },
        }
    }
}

/// Every service of `upto` checked in order against all of `all`.
pub open spec fn check_services(all: Entries<ServiceSpec>, upto: Entries<ServiceSpec>) -> Result<
    (),
    ConfigFault,
>
    decreases upto.len(),
{
    if upto.len() == 0 {
        Ok(())
    } else {
        match check_services(all, upto.drop_last()) {
            Err(e) => Err(e),
            Ok(_) => check_service(all, upto.last().0, upto.last().1),
        }
    }
}

/// A service environment completed with the global variables it does not
/// set itself.
pub open spec fn inherit_env(env: Entries<Seq<char>>, global: Entries<Seq<char>>) -> Entries<
    Seq<char>,
>
    decreases global.len(),
{
    if global.len() == 0 {
        env
    } else {
        insert_absent(inherit_env(env, global.drop_last()), global.last().0, global.last().1)
    }
}

/// A service sees each global variable it does not set itself, and its own
/// value for each variable it sets.
pub proof fn lemma_inherit_env(env: Entries<Seq<char>>, global: Entries<Seq<char>>, q: Seq<char>)
    requires
        names_sorted(env),
        names_sorted(global),
    ensures
        names_sorted(inherit_env(env, global)),
        lookup(inherit_env(env, global), q) == if has_name(env, q) {
            lookup(env, q)
        } else {
            lookup(global, q)
        },
    decreases global.len(),
{
    if global.len() > 0 {
        let g = global.drop_last();
        let (k, v) = global.last();
        assert(global =~= g.push((k, v)));
        assert(names_sorted(g));
        let r = inherit_env(env, g);
        lemma_inherit_env(env, g, q);
        lemma_inherit_env(env, g, k);
        lemma_lookup_push(g, (k, v), q);
        lemma_lookup_push(g, (k, v), k);
        assert(!has_name(g, k)) by {
            lemma_position_bounds(g, k);
            if position(g, k) < g.len() {
                assert(text_lt(g[position(g, k)].0, global[global.len() - 1].0));
                lemma_text_lt_irreflexive(k);
            }
        }
        if !has_name(r, k) {
            lemma_insert_entry(r, k, v);
        }
    }
}

/// Every service with the global environment inherited.
pub open spec fn inherit_all(services: Entries<ServiceSpec>, global: Entries<Seq<char>>) -> Entries<
    ServiceSpec,
> {
    Seq::new(
        services.len(),
        |i: int|
            (
                services[i].0,
                ServiceSpec {
                    environment: inherit_env(services[i].1.environment, global),
                    ..services[i].1
                },
            ),
    )
}

/// A service named by `[boot]` must be a valid name of a defined service.
pub open spec fn check_boot_name(
    services: Entries<ServiceSpec>,
    context: Seq<char>,
    name: Seq<char>,
) -> Result<(), ConfigFault> {
    match spec_validate_name(name) {
        Err(e) => Err(e),
        Ok(_) => if has_name(services, name) {
            Ok(())
        } else {
            Err(ConfigFault::UnknownService { context, service: name })
        },
    }
}

/// The names of a `[boot]` list, checked in order.
pub open spec fn check_boot_list(
    services: Entries<ServiceSpec>,
    context: Seq<char>,
    names: Seq<Seq<char>>,
) -> Result<(), ConfigFault>
    decreases names.len(),
{
    if names.len() == 0 {
        Ok(())
    } else {
        match check_boot_list(services, context, names.drop_last()) {
            Err(e) => Err(e),
            Ok(_) => check_boot_name(services, context, names.last()),
        }
    }
}

/// An optional `[boot]` name, checked if present.
pub open spec fn check_boot_opt(
    services: Entries<ServiceSpec>,
    context: Seq<char>,
    name: Option<Seq<char>>,
) -> Result<(), ConfigFault> {
    match name {
        None => Ok(()),
        Some(n) => check_boot_name(services, context, n),
    }
}

/// The `[boot]` names, checked in the order shell, recovery shell, mounts,
/// devices, logging.
pub open spec fn check_boot(services: Entries<ServiceSpec>, boot: BootSpec) -> Result<
    (),
    ConfigFault,
> {
    match check_boot_opt(services, "boot.shell"@, boot.shell) {
        Err(e) => Err(e),
        Ok(_) => match check_boot_opt(services, "boot.recovery_shell"@, boot.recovery_shell) {
            Err(e) => Err(e),
            Ok(_) => match check_boot_list(services, "boot.mounts"@, boot.mounts) {
                Err(e) => Err(e),
                Ok(_) => match check_boot_list(services, "boot.devices"@, boot.devices) {
                    Err(e) => Err(e),
                    Ok(_) => check_boot_list(services, "boot.logging"@, boot.logging),
                },
            },
        },
    }
}

/// The services each service depends on, by their place in name order.
pub open spec fn dependency_graph(services: Entries<ServiceSpec>) -> Seq<Seq<int>> {
    Seq::new(
        services.len(),
        |i: int| services[i].1.dependencies.map_values(|d: Seq<char>| position(services, d)),
    )
}

/// The checks made once every line has been read, and the configuration
/// they give.
pub open spec fn finalize(d: Draft) -> Result<InitSpec, ConfigFault> {
    match d.version {
        None => Err(ConfigFault::MissingValue("init.version"@)),
        Some(v) => if v != 1 {
            Err(ConfigFault::InvalidValue("init.version="@ + decimal(v as nat)))
        } else {
            match check_services(d.services, d.services) {
                Err(e) => Err(e),
                Ok(_) => {
                    let services = inherit_all(d.services, d.environment);
                    match check_boot(services, d.boot) {
                        Err(e) => Err(e),
                        Ok(_) => match find_cycle(dependency_graph(services)) {
                            Some(c) => Err(ConfigFault::DependencyCycle(services[c].0)),
                            None => Ok(
                                InitSpec {
                                    version: v,
                                    recovery: match d.recovery {
                                        Some(r) => r,
                                        None => RecoveryMode::Halt,
                                    },
                                    environment: d.environment,
                                    services,
                                    logging: d.logging,
                                    boot: d.boot,
                                    shutdown: d.shutdown,
                                },
                            ),
                        },
                    }
                },
            }
        }
    }
}

/// What `parse_config` gives for a source text.
pub open spec fn spec_parse_config(source: Seq<char>) -> Result<InitSpec, ConfigFault> {
    match run_lines(split(source, '\n')) {
        Err(e) => Err(e),
        Ok(d) => finalize(d),
    }
}

/// Every service environment has its names sorted.
pub open spec fn envs_sorted(services: Entries<ServiceSpec>) -> bool {
    forall|i: int| 0 <= i < services.len() ==> names_sorted(#[trigger] services[i].1.environment)
}



impl InitConfig {
    /// The maps of the configuration keep their names sorted.
    pub open spec fn wf(&self) -> bool {
        &&& self.environment.wf()
        &&& self.services.wf()
        &&& envs_sorted(self.services@)
    }
}

/// `name` followed by a suffix.
fn suffixed(name: &Vec<char>, suffix: &str) -> (f: Vec<char>)
    ensures
        f@ == name@ + suffix@,
{
    let mut f = copy_chars(name);
    push_str(&mut f, suffix);
    f
}

/// Once a dependency is unknown, the whole list is refused for it.
pub proof fn lemma_deps_error_sticks(
    all: Entries<ServiceSpec>,
    name: Seq<char>,
    deps: Seq<Seq<char>>,
    k: int,
)
    requires
        0 <= k <= deps.len(),
        check_dependencies(all, name, deps.take(k)) is Err,
    ensures
        check_dependencies(all, name, deps) == check_dependencies(all, name, deps.take(k)),
    decreases deps.len() - k,
{
    if k < deps.len() {
        assert(deps.take(k + 1).drop_last() =~= deps.take(k));
        lemma_deps_error_sticks(all, name, deps, k + 1);
    } else {
        assert(deps.take(k) =~= deps);
    }
}

fn check_dependencies_exec(all: &NameMap<ServiceConfig>, name: &Vec<char>, deps: &Vec<String>) -> (r:
    Result<(), ConfigError>)
    ensures
        lift(r) == check_dependencies(all@, name@, texts(deps@)),
{
    let ghost dv = texts(deps@);
    let mut j: usize = 0;
    assert(dv.take(0) =~= Seq::<Seq<char>>::empty());
    while j < deps.len()
        invariant
            j <= deps.len(),
            dv == texts(deps@),
            check_dependencies(all@, name@, dv.take(j as int)) == Ok::<(), ConfigFault>(()),
        decreases deps.len() - j,
    {
        assert(dv.take(j + 1).drop_last() =~= dv.take(j as int));
        assert(dv.take(j + 1).last() == deps@[j as int]@);
        let d = chars_of_string(&deps[j]);
        let pos = all.find(&d);
        if pos >= all.len() {
            proof {
                lemma_deps_error_sticks(all@, name@, dv, j + 1);
            }
            return Err(
                ConfigError::UnknownDependency {
                    service: string_of(name),
                    dependency: crate::text::copy_string(&deps[j]),
                },
            );
        }
        j = j + 1;
    }
    assert(dv.take(deps.len() as int) =~= dv);
    Ok(())
}

fn check_service_exec(all: &NameMap<ServiceConfig>, i: usize) -> (r: Result<(), ConfigError>)
    requires
        i < all@.len(),
    ensures
        lift(r) == check_service(all@, all@[i as int].0, all@[i as int].1),
{
    let name = chars_of_string(all.name_at(i));
    let svc = all.value_at(i);
    let cmd = chars_of_string(&svc.command);
    if cmd.len() == 0 {
        return Err(ConfigError::MissingValue(string_of(&suffixed(&name, ".command"))));
    }
    validate_path(&cmd, &suffixed(&name, ".command"))?;
    let wd = chars_of_string(&svc.workdir);
    validate_path(&wd, &suffixed(&name, ".workdir"))?;
    validate_capabilities(&name, &svc.capabilities)?;
    if svc.kind == ServiceKind::Daemon && svc.readiness != Readiness::Notify {
        return Err(invalid_value(&suffixed(&name, ".daemon requires readiness=notify")));
    }
    if svc.readiness == Readiness::Notify && svc.readiness_timeout_ms == 0 {
        return Err(
            ConfigError::MissingValue(string_of(&suffixed(&name, ".readiness_timeout_ms"))),
        );
    }
    check_dependencies_exec(all, &name, &svc.dependencies)
}

/// Once a service is refused, the whole map is refused for it.
pub proof fn lemma_services_error_sticks(
    all: Entries<ServiceSpec>,
    upto: Entries<ServiceSpec>,
    k: int,
)
    requires
        0 <= k <= upto.len(),
        check_services(all, upto.take(k)) is Err,
    ensures
        check_services(all, upto) == check_services(all, upto.take(k)),
    decreases upto.len() - k,
{
    if k < upto.len() {
        assert(upto.take(k + 1).drop_last() =~= upto.take(k));
        lemma_services_error_sticks(all, upto, k + 1);
    } else {
        assert(upto.take(k) =~= upto);
    }
}

fn check_services_exec(all: &NameMap<ServiceConfig>) -> (r: Result<(), ConfigError>)
    ensures
        lift(r) == check_services(all@, all@),
{
    let mut i: usize = 0;
    assert(all@.take(0) =~= Entries::<ServiceSpec>::empty());
    while i < all.len()
        invariant
            i <= all@.len(),
            check_services(all@, all@.take(i as int)) == Ok::<(), ConfigFault>(()),
        decreases all@.len() - i,
    {
        assert(all@.take(i + 1).drop_last() =~= all@.take(i as int));
        assert(all@.take(i + 1).last() == all@[i as int]);
        match check_service_exec(all, i) {
            Err(e) => {
                proof {
                    lemma_services_error_sticks(all@, all@, i + 1);
                }
                return Err(e);
            },
            Ok(_) => {},
        }
        i = i + 1;
    }
    assert(all@.take(all@.len() as int) =~= all@);
    Ok(())
}

/// Adds to `env` every global variable it does not set.
fn inherit_one(env: &mut NameMap<String>, global: &NameMap<String>)
    requires
        old(env).wf(),
    ensures
        final(env).wf(),
        final(env)@ == inherit_env(old(env)@, global@),
{
    let ghost start = env@;
    let mut j: usize = 0;
    assert(global@.take(0) =~= Entries::<Seq<char>>::empty());
    while j < global.len()
        invariant
            j <= global@.len(),
            env.wf(),
            env@ == inherit_env(start, global@.take(j as int)),
        decreases global@.len() - j,
    {
        assert(global@.take(j + 1).drop_last() =~= global@.take(j as int));
        assert(global@.take(j + 1).last() == global@[j as int]);
        let k = chars_of_string(global.name_at(j));
        let pos = env.find(&k);
        proof {
            lemma_position_bounds(env@, k@);
        }
        if pos >= env.len() {
            env.insert(string_of(&k), crate::text::copy_string(global.value_at(j)));
        }
        j = j + 1;
    }
    assert(global@.take(global@.len() as int) =~= global@);
}

/// Gives every service the global variables it does not set itself.
fn inherit_exec(services: &mut NameMap<ServiceConfig>, global: &NameMap<String>)
    requires
        old(services).wf(),
        envs_sorted(old(services)@),
    ensures
        final(services).wf(),
        envs_sorted(final(services)@),
        final(services)@ == inherit_all(old(services)@, global@),
{
    let ghost orig = services@;
    let ghost goal = inherit_all(orig, global@);
    let n = services.len();
    let mut i: usize = 0;
    while i < n
        invariant
            i <= n,
            n == orig.len(),
            goal == inherit_all(orig, global@),
            services@.len() == n,
            names_sorted(orig),
            envs_sorted(orig),
            forall|j: int| 0 <= j < i ==> services@[j] == goal[j],
            forall|j: int| i <= j < n ==> services@[j] == orig[j],
            forall|j: int| 0 <= j < n ==> names_sorted(#[trigger] services@[j].1.environment),
        decreases n - i,
    {
        let ghost before = services@;
        let (name, mut cfg) = services.take_at(i);
        assert(cfg@ == orig[i as int].1);
        assert(names_sorted(before[i as int].1.environment));
        inherit_one(&mut cfg.environment, global);
        services.put_at(i, name, cfg);
        assert(services@ =~= before.update(i as int, (name@, cfg@)));
        assert(services@[i as int] == goal[i as int]);
        i = i + 1;
    }
    assert(services@ =~= goal);
    assert(names_sorted(services@)) by {
        assert forall|a: int, b: int| 0 <= a < b < services@.len() implies crate::text::text_lt(
            services@[a].0,
            services@[b].0,
        ) by {
            assert(services@[a].0 == orig[a].0);
            assert(services@[b].0 == orig[b].0);
        }
    }
}

fn check_boot_name_exec(services: &NameMap<ServiceConfig>, context: &str, name: &String) -> (r:
    Result<(), ConfigError>)
    ensures
        lift(r) == check_boot_name(services@, context@, name@),
{
    let n = chars_of_string(name);
    validate_name(&n)?;
    let pos = services.find(&n);
    if pos >= services.len() {
        return Err(
            ConfigError::UnknownService {
                context: context.to_owned(),
                service: crate::text::copy_string(name),
            },
        );
    }
    Ok(())
}

/// Once a `[boot]` name is refused, the whole list is refused for it.
pub proof fn lemma_boot_list_error_sticks(
    services: Entries<ServiceSpec>,
    context: Seq<char>,
    names: Seq<Seq<char>>,
    k: int,
)
    requires
        0 <= k <= names.len(),
        check_boot_list(services, context, names.take(k)) is Err,
    ensures
        check_boot_list(services, context, names) == check_boot_list(
            services,
            context,
            names.take(k),
        ),
    decreases names.len() - k,
{
    if k < names.len() {
        assert(names.take(k + 1).drop_last() =~= names.take(k));
        lemma_boot_list_error_sticks(services, context, names, k + 1);
    } else {
        assert(names.take(k) =~= names);
    }
}

fn check_boot_list_exec(services: &NameMap<ServiceConfig>, context: &str, names: &Vec<String>) -> (r:
    Result<(), ConfigError>)
    ensures
        lift(r) == check_boot_list(services@, context@, texts(names@)),
{
    let ghost nv = texts(names@);
    let mut j: usize = 0;
    assert(nv.take(0) =~= Seq::<Seq<char>>::empty());
    while j < names.len()
        invariant
            j <= names.len(),
            nv == texts(names@),
            check_boot_list(services@, context@, nv.take(j as int)) == Ok::<(), ConfigFault>(()),
        decreases names.len() - j,
    {
        assert(nv.take(j + 1).drop_last() =~= nv.take(j as int));
        assert(nv.take(j + 1).last() == names@[j as int]@);
        match check_boot_name_exec(services, context, &names[j]) {
            Err(e) => {
                proof {
                    lemma_boot_list_error_sticks(services@, context@, nv, j + 1);
                }
                return Err(e);
            },
            Ok(_) => {},
        }
        j = j + 1;
    }
    assert(nv.take(names.len() as int) =~= nv);
    Ok(())
}

fn check_boot_exec(services: &NameMap<ServiceConfig>, boot: &BootConfig) -> (r: Result<
    (),
    ConfigError,
>)
    ensures
        lift(r) == check_boot(services@, boot@),
{
    match &boot.shell {
        Some(s) => {
            check_boot_name_exec(services, "boot.shell", s)?;
        },
        None => {},
    }
    match &boot.recovery_shell {
        Some(s) => {
            check_boot_name_exec(services, "boot.recovery_shell", s)?;
        },
        None => {},
    }
    check_boot_list_exec(services, "boot.mounts", &boot.mounts)?;
    check_boot_list_exec(services, "boot.devices", &boot.devices)?;
    check_boot_list_exec(services, "boot.logging", &boot.logging)
}

/// For every service, the places of its dependencies in name order.
fn dependency_numbers(services: &NameMap<ServiceConfig>) -> (g: Vec<Vec<usize>>)
    ensures
        graph_of(g@) == dependency_graph(services@),
{
    let ghost goal = dependency_graph(services@);
    let mut out: Vec<Vec<usize>> = Vec::new();
    let mut i: usize = 0;
    while i < services.len()
        invariant
            i <= services@.len(),
            goal == dependency_graph(services@),
            graph_of(out@) == goal.take(i as int),
        decreases services@.len() - i,
    {
        let svc = services.value_at(i);
        let ghost dv = texts(svc.dependencies@);
        let ghost want = dv.map_values(|d: Seq<char>| position(services@, d));
        assert(want == goal[i as int]);
        let mut row: Vec<usize> = Vec::new();
        let mut j: usize = 0;
        while j < svc.dependencies.len()
            invariant
                j <= svc.dependencies.len(),
                dv == texts(svc.dependencies@),
                want == dv.map_values(|d: Seq<char>| position(services@, d)),
                row@.map_values(|x: usize| x as int) == want.take(j as int),
            decreases svc.dependencies.len() - j,
        {
            let d = chars_of_string(&svc.dependencies[j]);
            let pos = services.find(&d);
            let ghost before = row@.map_values(|x: usize| x as int);
            row.push(pos);
            assert(row@.map_values(|x: usize| x as int) =~= before.push(pos as int));
            assert(want.take(j + 1) =~= want.take(j as int).push(want[j as int]));
            j = j + 1;
        }
        assert(want.take(svc.dependencies.len() as int) =~= want);
        let ghost before_out = graph_of(out@);
        out.push(row);
        assert(graph_of(out@) =~= before_out.push(want));
        assert(goal.take(i + 1) =~= goal.take(i as int).push(goal[i as int]));
        i = i + 1;
    }
    assert(goal.take(services@.len() as int) =~= goal);
    out
}


/// A dependency list that passes names only defined services.
pub proof fn lemma_dependencies_resolved(all: Entries<ServiceSpec>, name: Seq<char>, deps: Seq<Seq<char>>)
    requires
        check_dependencies(all, name, deps) is Ok,
    ensures
        forall|j: int| 0 <= j < deps.len() ==> has_name(all, #[trigger] deps[j]),
    decreases deps.len(),
{
    if deps.len() > 0 {
        lemma_dependencies_resolved(all, name, deps.drop_last());
        assert forall|j: int| 0 <= j < deps.len() implies has_name(all, #[trigger] deps[j]) by {
            if j < deps.len() - 1 {
                assert(deps[j] == deps.drop_last()[j]);
            }
        }
    }
}

/// Services that pass as a whole pass one by one.
pub proof fn lemma_services_checked(all: Entries<ServiceSpec>, upto: Entries<ServiceSpec>)
    requires
        check_services(all, upto) is Ok,
    ensures
        forall|i: int|
            0 <= i < upto.len() ==> check_service(all, upto[i].0, #[trigger] upto[i].1) is Ok,
    decreases upto.len(),
{
    if upto.len() > 0 {
        lemma_services_checked(all, upto.drop_last());
        assert forall|i: int| 0 <= i < upto.len() implies check_service(
            all,
            upto[i].0,
            #[trigger] upto[i].1,
        ) is Ok by {
            if i < upto.len() - 1 {
                assert(upto[i] == upto.drop_last()[i]);
            }
        }
    }
}

/// A `[boot]` list that passes names only defined services.
pub proof fn lemma_boot_list_resolved(
    services: Entries<ServiceSpec>,
    context: Seq<char>,
    names: Seq<Seq<char>>,
)
    requires
        check_boot_list(services, context, names) is Ok,
    ensures
        forall|j: int| 0 <= j < names.len() ==> has_name(services, #[trigger] names[j]),
    decreases names.len(),
{
    if names.len() > 0 {
        lemma_boot_list_resolved(services, context, names.drop_last());
        assert forall|j: int| 0 <= j < names.len() implies has_name(services, #[trigger] names[j]) by {
            if j < names.len() - 1 {
                assert(names[j] == names.drop_last()[j]);
            }
        }
    }
}

/// Maps with the same names in the same order find every name at the same
/// place.
pub proof fn lemma_position_same_names<S, T>(a: Entries<S>, b: Entries<T>, k: Seq<char>)
    requires
        a.len() == b.len(),
        forall|i: int| 0 <= i < a.len() ==> a[i].0 == b[i].0,
    ensures
        position(a, k) == position(b, k),
    decreases a.len(),
{
    if a.len() > 0 {
        assert forall|i: int| 0 <= i < a.drop_first().len() implies a.drop_first()[i].0
            == b.drop_first()[i].0 by {
            assert(a.drop_first()[i] == a[i + 1]);
            assert(b.drop_first()[i] == b[i + 1]);
        }
        lemma_position_same_names(a.drop_first(), b.drop_first(), k);
        assert(a[0].0 == b[0].0);
    }
}

/// A configuration that is accepted names only defined services: every
/// dependency, and every boot gate.
pub proof fn lemma_accepted_links_resolved(source: Seq<char>)
    requires
        spec_parse_config(source) is Ok,
    ensures
        crate::supervisor::links_resolved(spec_parse_config(source)->Ok_0),
{
    let d = run_lines(split(source, '\n'))->Ok_0;
    let c = spec_parse_config(source)->Ok_0;
    let services = inherit_all(d.services, d.environment);
    assert(c.services == services);
    lemma_services_checked(d.services, d.services);
    assert forall|k: Seq<char>| has_name(services, k) == has_name(d.services, k) by {
        lemma_position_same_names(services, d.services, k);
    }
    assert forall|i: int, j: int|
        0 <= i < c.services.len() && 0 <= j < c.services[i].1.dependencies.len() implies has_name(
        c.services,
        #[trigger] c.services[i].1.dependencies[j],
    ) by {
        assert(c.services[i].1.dependencies == d.services[i].1.dependencies);
        assert(check_service(d.services, d.services[i].0, d.services[i].1) is Ok);
        lemma_dependencies_resolved(d.services, d.services[i].0, d.services[i].1.dependencies);
    }
    lemma_boot_list_resolved(services, "boot.mounts"@, d.boot.mounts);
    lemma_boot_list_resolved(services, "boot.devices"@, d.boot.devices);
    lemma_boot_list_resolved(services, "boot.logging"@, d.boot.logging);
}


/// In an accepted configuration every service has a command, every daemon
/// waits for a readiness notification, and every service that waits for one
/// has a readiness timeout.
pub proof fn lemma_accepted_services_valid(source: Seq<char>)
    requires
        spec_parse_config(source) is Ok,
    ensures
        ({
            let services = spec_parse_config(source)->Ok_0.services;
            forall|i: int|
                0 <= i < services.len() ==> {
                    let svc = #[trigger] services[i].1;
                    &&& svc.command.len() > 0
                    &&& svc.kind == ServiceKind::Daemon ==> svc.readiness == Readiness::Notify
                    &&& svc.readiness == Readiness::Notify ==> svc.readiness_timeout_ms > 0
                }
        }),
{
    let d = run_lines(split(source, '\n'))->Ok_0;
    let c = spec_parse_config(source)->Ok_0;
    lemma_services_checked(d.services, d.services);
    assert forall|i: int| 0 <= i < c.services.len() implies {
        let svc = #[trigger] c.services[i].1;
        &&& svc.command.len() > 0
        &&& svc.kind == ServiceKind::Daemon ==> svc.readiness == Readiness::Notify
        &&& svc.readiness == Readiness::Notify ==> svc.readiness_timeout_ms > 0
    } by {
        assert(check_service(d.services, d.services[i].0, d.services[i].1) is Ok);
    }
}

/// An accepted configuration has no dependency cycle.
pub proof fn lemma_accepted_acyclic(source: Seq<char>)
    requires
        spec_parse_config(source) is Ok,
    ensures
        crate::cycles::acyclic(dependency_graph(spec_parse_config(source)->Ok_0.services)),
{
    let c = spec_parse_config(source)->Ok_0;
    crate::cycles::lemma_find_cycle_exact(dependency_graph(c.services));
}

/// A configuration whose services and boot gates check out is rejected
/// exactly when its dependency graph has a cycle, and the rejection names a
/// service that lies on one.
pub proof fn lemma_cycle_rejected(source: Seq<char>)
    requires
        run_lines(split(source, '\n')) is Ok,
        run_lines(split(source, '\n'))->Ok_0.version == Some(1u32),
        check_services(
            run_lines(split(source, '\n'))->Ok_0.services,
            run_lines(split(source, '\n'))->Ok_0.services,
        ) is Ok,
        check_boot(
            inherit_all(
                run_lines(split(source, '\n'))->Ok_0.services,
                run_lines(split(source, '\n'))->Ok_0.environment,
            ),
            run_lines(split(source, '\n'))->Ok_0.boot,
        ) is Ok,
    ensures
        ({
            let d = run_lines(split(source, '\n'))->Ok_0;
            let services = inherit_all(d.services, d.environment);
            let g = dependency_graph(services);
            &&& spec_parse_config(source) is Ok <==> crate::cycles::acyclic(g)
            &&& spec_parse_config(source) matches Err(e) ==> (e matches ConfigFault::DependencyCycle(
                name,
            ) && exists|c: int|
                0 <= c < services.len() && services[c].0 == name && crate::cycles::on_cycle(
                    g,
                    c,
                ))
        }),
{
    let d = run_lines(split(source, '\n'))->Ok_0;
    let services = inherit_all(d.services, d.environment);
    let g = dependency_graph(services);
    crate::cycles::lemma_find_cycle_exact(g);
    if let Some(c) = find_cycle(g) {
        let p = choose|p: Seq<int>| #[trigger] crate::cycles::is_cycle(g, p) && p[0] == c;
        assert(0 <= p[0] < g.len());
        assert(0 <= c < services.len() && crate::cycles::on_cycle(g, c));
    }
}

/// The outcome of a step of the parser, as a draft.
pub open spec fn outcome(r: Result<(), ConfigError>, d: Draft) -> Result<Draft, ConfigFault> {
    match r {
        Ok(_) => Ok(d),
        Err(e) => Err(e@),
    }
}

/// Once a line fails, the whole text fails the same way.
pub proof fn lemma_lines_error_sticks(lines: Seq<Seq<char>>, k: int, e: ConfigFault)
    requires
        0 <= k <= lines.len(),
        run_lines(lines.take(k)) == Err::<Draft, ConfigFault>(e),
    ensures
        run_lines(lines) == Err::<Draft, ConfigFault>(e),
    decreases lines.len() - k,
{
    if k < lines.len() {
        assert(lines.take(k + 1).drop_last() =~= lines.take(k));
        lemma_lines_error_sticks(lines, k + 1, e);
    } else {
        assert(lines.take(k) =~= lines);
    }
}

/// An `InvalidLine` error for the given line.
fn invalid_line(line: &Vec<char>) -> (e: ConfigError)
    ensures
        e@ == ConfigFault::InvalidLine(line@),
{
    ConfigError::InvalidLine(string_of(line))
}

/// The parser: the draft that the lines read so far have built.
struct Parser {
    section: Vec<char>,
    seen: Vec<Vec<char>>,
    version: Option<u32>,
    recovery: Option<RecoveryMode>,
    environment: NameMap<String>,
    logging: LoggingConfig,
    shutdown: ShutdownConfig,
    boot: BootConfig,
    services: NameMap<ServiceConfig>,
}

impl View for Parser {
    type V = Draft;

    closed spec fn view(&self) -> Draft {
        Draft {
            section: self.section@,
            seen: self.seen@.map_values(|v: Vec<char>| v@),
            version: self.version,
            recovery: self.recovery,
            environment: self.environment@,
            logging: self.logging,
            shutdown: self.shutdown,
            boot: self.boot@,
            services: self.services@,
        }
    }
}

impl Parser {
    spec fn wf(&self) -> bool {
        &&& self.environment.wf()
        &&& self.services.wf()
        &&& envs_sorted(self.services@)
    }

    fn new() -> (p: Self)
        ensures
            p@ == initial_draft(),
            p.wf(),
    {
        let p = Parser {
            section: chars_of("init"),
            seen: Vec::new(),
            version: None,
            recovery: None,
            environment: NameMap::new(),
            logging: LoggingConfig {
                level: LogLevel::Notice,
                retention: crate::config::DEFAULT_LOG_RETENTION,
                serial_fallback: true,
                on_storage_unavailable: StorageFailureAction::Serial,
            },
            shutdown: ShutdownConfig {
                signal: crate::config::Signal::Terminate,
                timeout_ms: crate::config::DEFAULT_SHUTDOWN_TIMEOUT_MS,
                on_timeout: ShutdownTimeoutAction::Kill,
            },
            boot: BootConfig::new_default(),
            services: NameMap::new(),
        };
        assert(p.seen@.map_values(|v: Vec<char>| v@) =~= Seq::<Seq<char>>::empty());
        p
    }

    fn header(&mut self, line: &Vec<char>) -> (r: Result<(), ConfigError>)
        requires
            old(self).wf(),
            line@.len() > 0,
            line@[0] == '[',
        ensures
            r is Ok ==> final(self).wf(),
            outcome(r, final(self)@) == header_step(old(self)@, line@),
    {
        let n = line.len();
        if line[n - 1] != ']' {
            return Err(invalid_line(line));
        }
        let inner = slice_chars(line, 1, n - 1);
        let section = trim_chars(&inner);
        if eq_str(&section, "init") || eq_str(&section, "logging") || eq_str(&section, "env")
            || eq_str(&section, "boot") || eq_str(&section, "shutdown") {
            self.section = section;
            return Ok(());
        }
        if !starts_with_str(&section, "service.") {
            return Err(invalid_line(line));
        }
        proof {
            reveal_strlit("service.");
        }
        let suffix = slice_chars(&section, 8, section.len());
        assert(suffix@ =~= section@.skip(8));
        let parts = split_chars(&suffix, '.');
        let ghost pv = parts@.map_values(|p: Vec<char>| p@);
        assert(pv.len() >= 1);
        assert(pv[0] == parts@[0]@);
        if parts[0].len() == 0 {
            return Err(invalid_line(line));
        }
        validate_name(&parts[0])?;
        if parts.len() >= 2 {
            assert(pv[1] == parts@[1]@);
            if (!eq_str(&parts[1], "env") && !eq_str(&parts[1], "limits")) || parts.len() >= 3 {
                return Err(invalid_line(line));
            }
        }
        let name = copy_chars(&parts[0]);
        let pos = self.services.find(&name);
        proof {
            lemma_position_bounds(self.services@, name@);
        }
        if pos >= self.services.len() {
            let fresh = ServiceConfig::new_default();
            proof {
                lemma_insert_entry_values(
                    self.services@,
                    name@,
                    fresh@,
                    |s: ServiceSpec| names_sorted(s.environment),
                );
            }
            let ghost old_services = self.services@;
            self.services.insert(string_of(&name), fresh);
            assert forall|a: int| 0 <= a < self.services@.len() implies names_sorted(
                #[trigger] self.services@[a].1.environment,
            ) by {
                assert((|s: ServiceSpec| names_sorted(s.environment))(
                    insert_entry(old_services, name@, fresh@)[a].1,
                ));
            }
        }
        self.section = section;
        Ok(())
    }

    fn init_key(&mut self, key: &Vec<char>, value: &Vec<char>) -> (r: Result<(), ConfigError>)
        requires
            old(self).wf(),
        ensures
            r is Ok ==> final(self).wf(),
            outcome(r, final(self)@) == init_key(old(self)@, key@, value@),
    {
        if eq_str(key, "version") {
            let n = parse_u32(value)?;
            self.version = Some(n);
        } else if eq_str(key, "recovery") {
            let s = parse_string(value)?;
            if eq_str(&s, "halt") {
                self.recovery = Some(RecoveryMode::Halt);
            } else if eq_str(&s, "shell") {
                self.recovery = Some(RecoveryMode::Shell);
            } else {
                return Err(invalid_value(&joined("recovery=", &s)));
            }
        } else {
            return Err(ConfigError::UnknownKey(string_of(key)));
        }
        Ok(())
    }

    fn logging_key(&mut self, key: &Vec<char>, value: &Vec<char>) -> (r: Result<(), ConfigError>)
        requires
            old(self).wf(),
        ensures
            r is Ok ==> final(self).wf(),
            outcome(r, final(self)@) == logging_key(old(self)@, key@, value@),
    {
        if eq_str(key, "level") {
            let s = parse_string(value)?;
            self.logging.level = parse_log_level(&s)?;
        } else if eq_str(key, "retention") {
            let n = parse_u64(value)?;
            if n == 0 || n > MAX_LOG_RETENTION as u64 {
                let mut msg = chars_of("retention=");
                push_decimal(&mut msg, n);
                return Err(invalid_value(&msg));
            }
            self.logging.retention = n as usize;
        } else if eq_str(key, "serial_fallback") {
            self.logging.serial_fallback = parse_bool(value)?;
        } else if eq_str(key, "on_storage_unavailable") {
            let s = parse_string(value)?;
            if eq_str(&s, "serial") {
                self.logging.on_storage_unavailable = StorageFailureAction::Serial;
            } else if eq_str(&s, "continue") {
                self.logging.on_storage_unavailable = StorageFailureAction::Continue;
            } else if eq_str(&s, "halt") {
                self.logging.on_storage_unavailable = StorageFailureAction::Halt;
            } else {
                return Err(invalid_value(&joined("logging.on_storage_unavailable=", &s)));
            }
        } else {
            return Err(ConfigError::UnknownKey(string_of(key)));
        }
        Ok(())
    }

    fn boot_key(&mut self, key: &Vec<char>, value: &Vec<char>) -> (r: Result<(), ConfigError>)
        requires
            old(self).wf(),
        ensures
            r is Ok ==> final(self).wf(),
            outcome(r, final(self)@) == boot_key(old(self)@, key@, value@),
    {
        if eq_str(key, "shell") {
            let s = parse_string(value)?;
            self.boot.shell = Some(string_of(&s));
        } else if eq_str(key, "recovery_shell") {
            let s = parse_string(value)?;
            self.boot.recovery_shell = Some(string_of(&s));
        } else if eq_str(key, "mounts") {
            self.boot.mounts = parse_array(value)?;
        } else if eq_str(key, "devices") {
            self.boot.devices = parse_array(value)?;
        } else if eq_str(key, "logging") {
            self.boot.logging = parse_array(value)?;
        } else {
            return Err(ConfigError::UnknownKey(string_of(key)));
        }
        Ok(())
    }

    fn env_key(&mut self, key: &Vec<char>, value: &Vec<char>) -> (r: Result<(), ConfigError>)
        requires
            old(self).wf(),
        ensures
            r is Ok ==> final(self).wf(),
            outcome(r, final(self)@) == env_key(old(self)@, key@, value@),
    {
        validate_env_name(key)?;
        let s = parse_string(value)?;
        self.environment.insert(string_of(key), string_of(&s));
        Ok(())
    }

    fn shutdown_key(&mut self, key: &Vec<char>, value: &Vec<char>) -> (r: Result<(), ConfigError>)
        requires
            old(self).wf(),
        ensures
            r is Ok ==> final(self).wf(),
            outcome(r, final(self)@) == shutdown_key(old(self)@, key@, value@),
    {
        if eq_str(key, "signal") {
            let s = parse_string(value)?;
            self.shutdown.signal = parse_signal(&s)?;
        } else if eq_str(key, "timeout_ms") {
            let field = chars_of("shutdown.timeout_ms");
            self.shutdown.timeout_ms = parse_bounded_u64(value, &field, MAX_SHUTDOWN_TIMEOUT_MS, true)?;
        } else if eq_str(key, "on_timeout") {
            let s = parse_string(value)?;
            if eq_str(&s, "kill") {
                self.shutdown.on_timeout = ShutdownTimeoutAction::Kill;
            } else if eq_str(&s, "halt") {
                self.shutdown.on_timeout = ShutdownTimeoutAction::Halt;
            } else {
                return Err(invalid_value(&joined("shutdown.on_timeout=", &s)));
            }
        } else {
            return Err(ConfigError::UnknownKey(string_of(key)));
        }
        Ok(())
    }

    fn service_key(&mut self, key: &Vec<char>, value: &Vec<char>) -> (r: Result<(), ConfigError>)
        requires
            old(self).wf(),
        ensures
            r is Ok ==> final(self).wf(),
            outcome(r, final(self)@) == service_key(old(self)@, key@, value@),
    {
        let mut unknown = chars_of("unknown section [");
        push_all(&mut unknown, &self.section);
        push_str(&mut unknown, "]");
        if !starts_with_str(&self.section, "service.") {
            return Err(ConfigError::InvalidLine(string_of(&unknown)));
        }
        proof {
            reveal_strlit("service.");
        }
        let suffix = slice_chars(&self.section, 8, self.section.len());
        assert(suffix@ =~= self.section@.skip(8));
        let parts = split_chars(&suffix, '.');
        let ghost pv = parts@.map_values(|p: Vec<char>| p@);
        assert(pv.len() >= 1);
        assert(pv[0] == parts@[0]@);
        let service = copy_chars(&parts[0]);
        if parts.len() >= 3 {
            return Err(ConfigError::InvalidLine(string_of(&unknown)));
        }
        let i = self.services.find(&service);
        if i >= self.services.len() {
            return Err(invalid_line(&self.section));
        }
        proof {
            lemma_position_bounds(self.services@, service@);
        }
        let ghost before = self.services@;
        let (name, mut cfg) = self.services.take_at(i);
        assert(names_sorted(before[i as int].1.environment));
        let r = if parts.len() == 1 {
            apply_service_field(&mut cfg, &service, key, value)
        } else {
            assert(pv[1] == parts@[1]@);
            if eq_str(&parts[1], "env") {
                apply_service_env(&mut cfg, key, value)
            } else if eq_str(&parts[1], "limits") {
                apply_service_limit(&mut cfg, &service, key, value)
            } else {
                let mut msg = chars_of("unknown section [service.");
                push_all(&mut msg, &service);
                push_str(&mut msg, ".");
                push_all(&mut msg, &parts[1]);
                push_str(&mut msg, "]");
                Err(ConfigError::InvalidLine(string_of(&msg)))
            }
        };
        match r {
            Err(e) => {
                return Err(e);
            },
            Ok(_) => {},
        }
        self.services.put_at(i, name, cfg);
        assert(self.services@ =~= before.update(i as int, (service@, cfg@)));
        assert(names_sorted(self.services@)) by {
            assert forall|a: int, b: int| 0 <= a < b < self.services@.len() implies
                crate::text::text_lt(self.services@[a].0, self.services@[b].0) by {
                assert(self.services@[a].0 == before[a].0);
                assert(self.services@[b].0 == before[b].0);
            }
        }
        assert(envs_sorted(self.services@)) by {
            assert forall|a: int| 0 <= a < self.services@.len() implies names_sorted(
                #[trigger] self.services@[a].1.environment,
            ) by {
                if a != i {
                    assert(self.services@[a] == before[a]);
                }
            }
        }
        Ok(())
    }

    fn assign(&mut self, line: &Vec<char>) -> (r: Result<(), ConfigError>)
        requires
            old(self).wf(),
        ensures
            r is Ok ==> final(self).wf(),
            outcome(r, final(self)@) == assign_step(old(self)@, line@),
    {
        let eq = find_char(line, '=');
        if eq >= line.len() {
            return Err(invalid_line(line));
        }
        let kraw = slice_chars(line, 0, eq);
        assert(kraw@ =~= line@.take(eq as int));
        let key = trim_chars(&kraw);
        let vraw = slice_chars(line, eq + 1, line.len());
        assert(vraw@ =~= line@.skip(eq + 1));
        let value = trim_chars(&vraw);
        if key.len() == 0 {
            return Err(invalid_line(line));
        }
        let full = joined3(&self.section, ".", &key);
        if contains_text(&self.seen, &full) {
            return Err(ConfigError::DuplicateKey(string_of(&key)));
        }
        let ghost seen_before = self.seen@.map_values(|v: Vec<char>| v@);
        self.seen.push(full);
        assert(self.seen@.map_values(|v: Vec<char>| v@) =~= seen_before.push(full@));
        if eq_str(&self.section, "init") {
            self.init_key(&key, &value)
        } else if eq_str(&self.section, "logging") {
            self.logging_key(&key, &value)
        } else if eq_str(&self.section, "boot") {
            self.boot_key(&key, &value)
        } else if eq_str(&self.section, "env") {
            self.env_key(&key, &value)
        } else if eq_str(&self.section, "shutdown") {
            self.shutdown_key(&key, &value)
        } else {
            self.service_key(&key, &value)
        }
    }

    fn step(&mut self, raw: &Vec<char>) -> (r: Result<(), ConfigError>)
        requires
            old(self).wf(),
        ensures
            r is Ok ==> final(self).wf(),
            outcome(r, final(self)@) == step(old(self)@, raw@),
    {
        let hash = find_char(raw, '#');
        let before = slice_chars(raw, 0, hash);
        assert(before@ =~= raw@.take(hash as int));
        let line = trim_chars(&before);
        if line.len() == 0 {
            return Ok(());
        }
        if line[0] == '[' {
            self.header(&line)
        } else {
            self.assign(&line)
        }
    }
}

impl Parser {
    fn finish(self) -> (r: Result<InitConfig, ConfigError>)
        requires
            self.wf(),
        ensures
            lift(r) == finalize(self@),
            r matches Ok(c) ==> c.wf(),
    {
        let ghost d = self@;
        let Parser {
            section,
            seen,
            version,
            recovery,
            environment,
            logging,
            shutdown,
            boot,
            services,
        } = self;
        let version = match version {
            None => {
                return Err(ConfigError::MissingValue("init.version".to_owned()));
            },
            Some(v) => v,
        };
        if version != crate::config::CONFIG_VERSION {
            let mut msg = chars_of("init.version=");
            push_decimal(&mut msg, version as u64);
            return Err(invalid_value(&msg));
        }
        let recovery = match recovery {
            Some(r) => r,
            None => RecoveryMode::Halt,
        };
        check_services_exec(&services)?;
        let mut services = services;
        inherit_exec(&mut services, &environment);
        check_boot_exec(&services, &boot)?;
        let deps = dependency_numbers(&services);
        match detect_cycle(&deps) {
            Some(c) => {
                return Err(
                    ConfigError::DependencyCycle(crate::text::copy_string(services.name_at(c))),
                );
            },
            None => {},
        }
        Ok(InitConfig { version, recovery, environment, services, logging, boot, shutdown })
    }
}

/// Parses and validates a configuration.
pub fn parse_config(source: &str) -> (r: Result<InitConfig, ConfigError>)
    ensures
        lift(r) == spec_parse_config(source@),
        r matches Ok(c) ==> c.wf() && crate::supervisor::links_resolved(c@)
            && crate::cycles::acyclic(dependency_graph(c@.services)),
{
    let src = chars_of(source);
    let lines = split_chars(&src, '\n');
    let ghost lv = lines@.map_values(|p: Vec<char>| p@);
    let mut p = Parser::new();
    let mut i: usize = 0;
    assert(lv.take(0) =~= Seq::<Seq<char>>::empty());
    while i < lines.len()
        invariant
            i <= lines.len(),
            lv == lines@.map_values(|p: Vec<char>| p@),
            lv == split(source@, '\n'),
            p.wf(),
            run_lines(lv.take(i as int)) == Ok::<Draft, ConfigFault>(p@),
        decreases lines.len() - i,
    {
        assert(lv.take(i + 1).drop_last() =~= lv.take(i as int));
        assert(lv.take(i + 1).last() == lines@[i as int]@);
        match p.step(&lines[i]) {
            Err(e) => {
                proof {
                    lemma_lines_error_sticks(lv, i + 1, e@);
                }
                return Err(e);
            },
            Ok(_) => {},
        }
        i = i + 1;
    }
    assert(lv.take(lines.len() as int) =~= lv);
    let r = p.finish();
    proof {
        if r is Ok {
            lemma_accepted_links_resolved(source@);
            lemma_accepted_acyclic(source@);
        }
    }
    r
}

/// The recovery mode a configuration selects, or the shell when the
/// configuration is rejected.
pub fn recovery_mode_for_source(source: &str) -> (mode: RecoveryMode)
    ensures
        mode == match spec_parse_config(source@) {
            Ok(c) => c.recovery,
            Err(_) => RecoveryMode::Shell,
        },
{
    match parse_config(source) {
        Ok(config) => config.recovery,
        Err(_) => RecoveryMode::Shell,
    }
}

} // verus!
