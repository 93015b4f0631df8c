//! The control grammar: `status`, `logs [service]`, `start SERVICE`,
//! `stop SERVICE`, `restart SERVICE`, `log-level LEVEL`, `shutdown` and
//! `reboot`, and their dispatch to the supervisor.
use vstd::prelude::*;
use crate::config::LogLevel;
use crate::render::level_name;
use crate::supervisor::{
    BackendLog, ProcessBackend, ServiceState, ShutdownMode, SpawnError, SpawnFault, Supervisor,
    SupervisorState, push_state_name, service_index, shutdown_outcome,
    spec_record, spec_render_logs, spec_render_status, spec_restart_queued, spec_start,
    spec_stop_requested, state_name, stop_signals, log_signals, stop_answers,
};
use crate::text::{chars_of, char_is_space, eq_str, is_space, push_str, string_of, trim_start};

verus! {

/// A parsed control command.
#[derive(Debug, Clone, PartialEq, Eq)]
pub enum Command {
    Status,
    Logs { service: Option<String> },
    Start(String),
    Stop(String),
    Restart(String),
    LogLevel(LogLevel),
    Shutdown,
    Reboot,
}

/// A control command with its texts as characters.
pub enum CommandSpec {
    Status,
    Logs { service: Option<Seq<char>> },
    Start(Seq<char>),
    Stop(Seq<char>),
    Restart(Seq<char>),
    LogLevel(LogLevel),
    Shutdown,
    Reboot,
}

impl View for Command {
    type V = CommandSpec;

    open spec fn view(&self) -> CommandSpec {
        match self {
            Command::Status => CommandSpec::Status,
            Command::Logs { service } => CommandSpec::Logs {
                service: match service {
                    Some(s) => Some(s@),
                    None => None,
                },
            },
            Command::Start(s) => CommandSpec::Start(s@),
            Command::Stop(s) => CommandSpec::Stop(s@),
            Command::Restart(s) => CommandSpec::Restart(s@),
            Command::LogLevel(l) => CommandSpec::LogLevel(*l),
            Command::Shutdown => CommandSpec::Shutdown,
            Command::Reboot => CommandSpec::Reboot,
        }
    }
}

/// Index of the first white space in `s`, or its length.
pub open spec fn find_space(s: Seq<char>) -> int
    decreases s.len(),
{
    if s.len() == 0 {
        0
    } else if is_space(s[0]) {
        0
    } else {
        1 + find_space(s.drop_first())
    }
}

/// The first space is found at the first place that holds one.
pub proof fn lemma_find_space(s: Seq<char>, i: int)
    requires
        0 <= i <= s.len(),
        forall|j: int| 0 <= j < i ==> !is_space(s[j]),
        i == s.len() || is_space(s[i]),
    ensures
        find_space(s) == i,
    decreases i,
{
    if i > 0 {
        lemma_find_space(s.drop_first(), i - 1);
    }
}

/// The first space lies within the text.
pub proof fn lemma_find_space_bounds(s: Seq<char>)
    ensures
        0 <= find_space(s) <= s.len(),
        s.len() > 0 && !is_space(s[0]) ==> find_space(s) >= 1,
    decreases s.len(),
{
    if s.len() > 0 && !is_space(s[0]) {
        lemma_find_space_bounds(s.drop_first());
    }
}

/// Trimming the start never lengthens a text.
pub proof fn lemma_trim_start_len(s: Seq<char>)
    ensures
        trim_start(s).len() <= s.len(),
        trim_start(s).len() > 0 ==> !is_space(trim_start(s)[0]),
    decreases s.len(),
{
    if s.len() > 0 && is_space(s[0]) {
        lemma_trim_start_len(s.drop_first());
    }
}

/// The words of `s`: its runs of non-space characters, as
/// `str::split_whitespace` gives them.
pub open spec fn words(s: Seq<char>) -> Seq<Seq<char>>
    decreases s.len(),
{
    let t = trim_start(s);
    if t.len() == 0 {
        Seq::empty()
    } else {
        let end = find_space(t);
        proof {
            lemma_trim_start_len(s);
            lemma_find_space_bounds(t);
        }
        seq![t.take(end)] + words(t.skip(end))
    }
}

/// The words of a line.
pub fn split_words(v: &Vec<char>) -> (w: Vec<Vec<char>>)
    ensures
        w@.map_values(|x: Vec<char>| x@) == words(v@),
{
    let mut out: Vec<Vec<char>> = Vec::new();
    let mut i: usize = 0;
    assert(v@.skip(0) =~= v@);
    loop
        invariant
            i <= v.len(),
            out@.map_values(|x: Vec<char>| x@) + words(v@.skip(i as int)) == words(v@),
        decreases v.len() - i,
    {
        let ghost rest = v@.skip(i as int);
        let start_i = i;
        while i < v.len() && char_is_space(v[i])
            invariant
                start_i <= i <= v.len(),
                trim_start(v@.skip(start_i as int)) == trim_start(v@.skip(i as int)),
            decreases v.len() - i,
        {
            assert(v@.skip(i as int).drop_first() =~= v@.skip(i + 1));
            i = i + 1;
        }
        let ghost t = v@.skip(i as int);
        assert(trim_start(t) == t);
        if i >= v.len() {
            assert(out@.map_values(|x: Vec<char>| x@) =~= words(v@));
            return out;
        }
        let word_start = i;
        while i < v.len() && !char_is_space(v[i])
            invariant
                word_start <= i <= v.len(),
                forall|j: int| word_start <= j < i ==> !is_space(v@[j]),
            decreases v.len() - i,
        {
            i = i + 1;
        }
        proof {
            lemma_find_space(t, (i - word_start) as int);
        }
        let mut word: Vec<char> = Vec::new();
        let mut k: usize = word_start;
        while k < i
            invariant
                word_start <= k <= i <= v.len(),
                word@ == v@.subrange(word_start as int, k as int),
            decreases i - k,
        {
            word.push(v[k]);
            assert(v@.subrange(word_start as int, k + 1) =~= v@.subrange(word_start as int, k as int).push(v@[k as int]));
            k = k + 1;
        }
        assert(word@ =~= t.take((i - word_start) as int));
        assert(t.skip((i - word_start) as int) =~= v@.skip(i as int));
        let ghost before = out@.map_values(|x: Vec<char>| x@);
        out.push(word);
        assert(out@.map_values(|x: Vec<char>| x@) =~= before.push(t.take((i - word_start) as int)));
        assert(words(rest) == seq![t.take((i - word_start) as int)] + words(v@.skip(i as int)));
        assert(before + words(rest) =~= before.push(t.take((i - word_start) as int)) + words(
            v@.skip(i as int),
        ));
    }
}

/// What `parse_command` gives for a line.
pub open spec fn spec_parse_command(line: Seq<char>) -> Result<CommandSpec, Seq<char>> {
    let w = words(line);
    if w.len() == 0 {
        Err("empty command"@)
    } else {
        let c = w[0];
        let parsed: Result<(CommandSpec, int), Seq<char>> = if c == "status"@ {
            Ok((CommandSpec::Status, 1))
        } else if c == "logs"@ {
            if w.len() > 1 {
                Ok((CommandSpec::Logs { service: Some(w[1]) }, 2))
            } else {
                Ok((CommandSpec::Logs { service: None }, 1))
            }
        } else if c == "start"@ {
            if w.len() > 1 {
                Ok((CommandSpec::Start(w[1]), 2))
            } else {
                Err("start needs a service"@)
            }
        } else if c == "stop"@ {
            if w.len() > 1 {
                Ok((CommandSpec::Stop(w[1]), 2))
            } else {
                Err("stop needs a service"@)
            }
        } else if c == "restart"@ {
            if w.len() > 1 {
                Ok((CommandSpec::Restart(w[1]), 2))
            } else {
                Err("restart needs a service"@)
            }
        } else if c == "log-level"@ {
            if w.len() <= 1 {
                Err("log-level needs a value"@)
            } else if w[1] == "error"@ {
                Ok((CommandSpec::LogLevel(LogLevel::Error), 2))
            } else if w[1] == "warn"@ {
                Ok((CommandSpec::LogLevel(LogLevel::Warn), 2))
            } else if w[1] == "notice"@ {
                Ok((CommandSpec::LogLevel(LogLevel::Notice), 2))
            } else if w[1] == "debug"@ {
                Ok((CommandSpec::LogLevel(LogLevel::Debug), 2))
            } else {
                Err("unknown log level"@)
            }
        } else if c == "shutdown"@ {
            Ok((CommandSpec::Shutdown, 1))
        } else if c == "reboot"@ {
            Ok((CommandSpec::Reboot, 1))
        } else {
            Err("unknown command"@)
        };
        match parsed {
            Err(e) => Err(e),
            Ok((cmd, used)) => if w.len() > used {
                Err("too many command arguments"@)
            } else {
                Ok(cmd)
            },
        }
    }
}

/// The word that names a log level on a control line.
pub open spec fn level_word(level: LogLevel) -> Seq<char> {
    match level {
        LogLevel::Error => "error"@,
        LogLevel::Warn => "warn"@,
        LogLevel::Notice => "notice"@,
        LogLevel::Debug => "debug"@,
    }
}

/// The words of the control line that asks for a command.
pub open spec fn command_words(c: CommandSpec) -> Seq<Seq<char>> {
    match c {
        CommandSpec::Status => seq!["status"@],
        CommandSpec::Logs { service: None } => seq!["logs"@],
        CommandSpec::Logs { service: Some(n) } => seq!["logs"@, n],
        CommandSpec::Start(n) => seq!["start"@, n],
        CommandSpec::Stop(n) => seq!["stop"@, n],
        CommandSpec::Restart(n) => seq!["restart"@, n],
        CommandSpec::LogLevel(l) => seq!["log-level"@, level_word(l)],
        CommandSpec::Shutdown => seq!["shutdown"@],
        CommandSpec::Reboot => seq!["reboot"@],
    }
}

/// A control line parses to a command exactly when its words are the
/// words of that command: `status`, `logs [service]`, `start SERVICE`,
/// `stop SERVICE`, `restart SERVICE`, `log-level LEVEL`, `shutdown` and
/// `reboot`, with nothing more. So different commands come from different
/// lines, and every line of a command's words gives that command.
pub proof fn lemma_parse_command_words(line: Seq<char>, c: CommandSpec)
    ensures
        spec_parse_command(line) == Ok::<CommandSpec, Seq<char>>(c) <==> words(line)
            == command_words(c),
{
    reveal_strlit("status");
    reveal_strlit("logs");
    reveal_strlit("start");
    reveal_strlit("stop");
    reveal_strlit("restart");
    reveal_strlit("log-level");
    reveal_strlit("shutdown");
    reveal_strlit("reboot");
    reveal_strlit("error");
    reveal_strlit("warn");
    reveal_strlit("notice");
    reveal_strlit("debug");
    let w = words(line);
    let names = seq![
        "status"@,
        "logs"@,
        "start"@,
        "stop"@,
        "restart"@,
        "log-level"@,
        "shutdown"@,
        "reboot"@,
    ];
    assert forall|a: int, b: int| 0 <= a < b < names.len() implies names[a] != names[b] by {
        if names[a].len() == names[b].len() {
            assert(names[a][0] != names[b][0] || names[a][1] != names[b][1]);
        }
    }
    let levels = seq!["error"@, "warn"@, "notice"@, "debug"@];
    assert forall|a: int, b: int| 0 <= a < b < levels.len() implies levels[a] != levels[b] by {
        if levels[a].len() == levels[b].len() {
            assert(levels[a][0] != levels[b][0]);
        }
    }
    if spec_parse_command(line) == Ok::<CommandSpec, Seq<char>>(c) {
        assert(w.len() >= 1);
        if w.len() == 1 {
            assert(w =~= seq![w[0]]);
        } else {
            assert(w.len() == 2);
            assert(w =~= seq![w[0], w[1]]);
        }
        assert(w =~= command_words(c));
    }
    if words(line) == command_words(c) {
        assert(w[0] == command_words(c)[0]);
        match c {
            CommandSpec::LogLevel(l) => {
                assert(w[1] == level_word(l));
            },
            _ => {},
        }
    }
}

/// Parses one control line.
pub fn parse_command(line: &str) -> (r: Result<Command, &'static str>)
    ensures
        match r {
            Ok(c) => spec_parse_command(line@) == Ok::<CommandSpec, Seq<char>>(c@),
            Err(m) => spec_parse_command(line@) == Err::<CommandSpec, Seq<char>>(m@),
        },
{
    let v = chars_of(line);
    let w = split_words(&v);
    let ghost wv = w@.map_values(|x: Vec<char>| x@);
    if w.len() == 0 {
        return Err("empty command");
    }
    assert(wv[0] == w@[0]@);
    if w.len() > 1 {
        assert(wv[1] == w@[1]@);
    }
    let c = &w[0];
    let (cmd, used): (Command, usize) = if eq_str(c, "status") {
        (Command::Status, 1)
    } else if eq_str(c, "logs") {
        if w.len() > 1 {
            (Command::Logs { service: Some(string_of(&w[1])) }, 2)
        } else {
            (Command::Logs { service: None }, 1)
        }
    } else if eq_str(c, "start") {
        if w.len() > 1 {
            (Command::Start(string_of(&w[1])), 2)
        } else {
            return Err("start needs a service");
        }
    } else if eq_str(c, "stop") {
        if w.len() > 1 {
            (Command::Stop(string_of(&w[1])), 2)
        } else {
            return Err("stop needs a service");
        }
    } else if eq_str(c, "restart") {
        if w.len() > 1 {
            (Command::Restart(string_of(&w[1])), 2)
        } else {
            return Err("restart needs a service");
        }
    } else if eq_str(c, "log-level") {
        if w.len() <= 1 {
            return Err("log-level needs a value");
        } else if eq_str(&w[1], "error") {
            (Command::LogLevel(LogLevel::Error), 2)
        } else if eq_str(&w[1], "warn") {
            (Command::LogLevel(LogLevel::Warn), 2)
        } else if eq_str(&w[1], "notice") {
            (Command::LogLevel(LogLevel::Notice), 2)
        } else if eq_str(&w[1], "debug") {
            (Command::LogLevel(LogLevel::Debug), 2)
        } else {
            return Err("unknown log level");
        }
    } else if eq_str(c, "shutdown") {
        (Command::Shutdown, 1)
    } else if eq_str(c, "reboot") {
        (Command::Reboot, 1)
    } else {
        return Err("unknown command");
    };
    if w.len() > used {
        return Err("too many command arguments");
    }
    Ok(cmd)
}

/// Why a control command failed.
#[derive(Debug, Clone, PartialEq, Eq)]
pub enum ControlError {
    Invalid(String),
    Backend(SpawnError),
}

/// A control error with its texts as characters.
pub enum ControlFault {
    Invalid(Seq<char>),
    Backend(SpawnFault),
}

impl View for ControlError {
    type V = ControlFault;

    open spec fn view(&self) -> ControlFault {
        match self {
            ControlError::Invalid(s) => ControlFault::Invalid(s@),
            ControlError::Backend(e) => ControlFault::Backend(e@),
        }
    }
}

impl ControlError {
    /// The message that describes the error.
    pub fn message(&self) -> (m: String)
        ensures
            m@ == match self@ {
                ControlFault::Invalid(s) => s,
                ControlFault::Backend(e) => crate::supervisor::spawn_error_message(e),
            },
    {
        match self {
            ControlError::Invalid(s) => crate::text::copy_string(s),
            ControlError::Backend(e) => e.message(),
        }
    }
}

/// The outcome of a control command, seen as a view.
pub open spec fn control_outcome(r: Result<String, ControlError>) -> Result<Seq<char>, ControlFault> {
    match r {
        Ok(s) => Ok(s@),
        Err(e) => Err(e@),
    }
}

impl From<SpawnError> for ControlError {
    /// A backend error as a control error.
    fn from(error: SpawnError) -> (r: Self) {
        ControlError::Backend(error)
    }
}

impl vstd::std_specs::convert::FromSpecImpl<SpawnError> for ControlError {
    open spec fn obeys_from_spec() -> bool {
        true
    }

    open spec fn from_spec(error: SpawnError) -> Self {
        ControlError::Backend(error)
    }
}

/// A backend error as a control error.
fn backend_error(e: SpawnError) -> (c: ControlError)
    ensures
        c@ == ControlFault::Backend(e@),
{
    ControlError::from(e)
}

/// The backend's part of a command's answer: its refusal, if that is what
/// the command answers.
pub open spec fn backend_part(r: Result<Seq<char>, ControlFault>) -> Result<(), SpawnFault> {
    match r {
        Err(ControlFault::Backend(e)) => Err(e),
        _ => Ok(()),
    }
}

/// What a `stop` command leaves and answers: an unknown service changes
/// nothing and is refused; otherwise the stop is requested (a service
/// already stopping is left as it is) and the answer names the state, or
/// the stop signal could not be delivered and nothing changed.
pub open spec fn stop_answered(
    s: SupervisorState,
    t: SupervisorState,
    name: Seq<char>,
    r: Result<Seq<char>, ControlFault>,
    before: BackendLog,
    after: BackendLog,
) -> bool {
    &&& after == log_signals(before, stop_signals(s, name), stop_answers(s, name, backend_part(r)))
    &&& stop_state_answered(s, t, name, r)
}

/// What a `stop` command leaves and answers, apart from the backend.
pub open spec fn stop_state_answered(
    s: SupervisorState,
    t: SupervisorState,
    name: Seq<char>,
    r: Result<Seq<char>, ControlFault>,
) -> bool {
    let i = service_index(s, name);
    if !(0 <= i < s.runtimes.len()) {
        t == s && r == Err::<Seq<char>, ControlFault>(
            ControlFault::Backend(SpawnFault::Invalid("unknown service "@ + name)),
        )
    } else {
        &&& r matches Ok(text) ==> {
            &&& t == if s.runtimes[i].state == ServiceState::Stopping {
                s
            } else {
                spec_stop_requested(s, i)
            }
            &&& text == "stop service="@ + name + " state="@ + state_name(t.runtimes[i].state)
        }
        &&& r matches Err(e) ==> {
            &&& t == s
            &&& e is Backend
            &&& s.runtimes[i].state != ServiceState::Stopping
            &&& s.runtimes[i].child is Some
        }
    }
}

/// What a `restart` command leaves and answers, as `stop_answered` with a
/// start queued after the stop.
pub open spec fn restart_answered(
    s: SupervisorState,
    t: SupervisorState,
    name: Seq<char>,
    r: Result<Seq<char>, ControlFault>,
    before: BackendLog,
    after: BackendLog,
) -> bool {
    &&& after == log_signals(before, stop_signals(s, name), stop_answers(s, name, backend_part(r)))
    &&& restart_state_answered(s, t, name, r)
}

/// What a `restart` command leaves and answers, apart from the backend.
pub open spec fn restart_state_answered(
    s: SupervisorState,
    t: SupervisorState,
    name: Seq<char>,
    r: Result<Seq<char>, ControlFault>,
) -> bool {
    let i = service_index(s, name);
    if !(0 <= i < s.runtimes.len()) {
        t == s && r == Err::<Seq<char>, ControlFault>(
            ControlFault::Backend(SpawnFault::Invalid("unknown service "@ + name)),
        )
    } else {
        let had_child = s.runtimes[i].child is Some;
        &&& r matches Ok(text) ==> {
            &&& t == if s.runtimes[i].state == ServiceState::Stopping {
                spec_restart_queued(s, i, had_child)
            } else {
                spec_restart_queued(spec_stop_requested(s, i), i, had_child)
            }
            &&& text == "restart service="@ + name + " state="@ + state_name(t.runtimes[i].state)
        }
        &&& r matches Err(e) ==> {
            &&& t == s
            &&& e is Backend
            &&& s.runtimes[i].state != ServiceState::Stopping
            &&& had_child
        }
    }
}

/// What a `shutdown` or `reboot` command leaves and answers: the request
/// as `request_shutdown` makes it, answered with a fixed text, or the
/// backend's first refusal.
pub open spec fn shutdown_answered(
    s: SupervisorState,
    t: SupervisorState,
    mode: ShutdownMode,
    r: Result<Seq<char>, ControlFault>,
    before: BackendLog,
    after: BackendLog,
) -> bool {
    match r {
        Ok(text) => shutdown_outcome(s, t, mode, Ok(()), before, after) && text == match mode {
            ShutdownMode::Shutdown => "shutdown requested"@,
            ShutdownMode::Reboot => "reboot requested"@,
        },
        Err(ControlFault::Backend(e)) => shutdown_outcome(s, t, mode, Err(e), before, after),
        Err(ControlFault::Invalid(_)) => false,
    }
}

/// Runs a `stop` command.
fn run_stop<B: ProcessBackend>(supervisor: &mut Supervisor, backend: &mut B, name: String) -> (r:
    Result<String, ControlError>)
    requires
        old(supervisor).wf(),
    ensures
        final(supervisor).wf(),
        stop_answered(
            old(supervisor)@,
            final(supervisor)@,
            name@,
            control_outcome(r),
            old(backend).log(),
            final(backend).log(),
        ),
{
    match supervisor.stop(backend, name.as_str()) {
        Ok(_) => {},
        Err(e) => {
            return Err(backend_error(e));
        },
    }
    let state = supervisor.state(name.as_str());
    let mut out = chars_of("stop service=");
    crate::text::push_string(&mut out, &name);
    push_str(&mut out, " state=");
    match state {
        Some(st) => push_state_name(&mut out, st),
        None => {},
    }
    Ok(string_of(&out))
}

/// Runs a `restart` command.
fn run_restart<B: ProcessBackend>(supervisor: &mut Supervisor, backend: &mut B, name: String) -> (r:
    Result<String, ControlError>)
    requires
        old(supervisor).wf(),
    ensures
        final(supervisor).wf(),
        restart_answered(
            old(supervisor)@,
            final(supervisor)@,
            name@,
            control_outcome(r),
            old(backend).log(),
            final(backend).log(),
        ),
{
    match supervisor.restart(backend, name.as_str()) {
        Ok(_) => {},
        Err(e) => {
            return Err(backend_error(e));
        },
    }
    let state = supervisor.state(name.as_str());
    let mut out = chars_of("restart service=");
    crate::text::push_string(&mut out, &name);
    push_str(&mut out, " state=");
    match state {
        Some(st) => push_state_name(&mut out, st),
        None => {},
    }
    Ok(string_of(&out))
}

/// Runs a `shutdown` or `reboot` command.
fn run_shutdown<B: ProcessBackend>(supervisor: &mut Supervisor, backend: &mut B, mode: ShutdownMode) -> (r:
    Result<String, ControlError>)
    requires
        old(supervisor).wf(),
    ensures
        final(supervisor).wf(),
        shutdown_answered(
            old(supervisor)@,
            final(supervisor)@,
            mode,
            control_outcome(r),
            old(backend).log(),
            final(backend).log(),
        ),
{
    match supervisor.request_shutdown(backend, mode) {
        Ok(_) => {},
        Err(e) => {
            return Err(backend_error(e));
        },
    }
    match mode {
        ShutdownMode::Shutdown => Ok("shutdown requested".to_owned()),
        ShutdownMode::Reboot => Ok("reboot requested".to_owned()),
    }
}

/// What a command leaves and answers: `status` and `logs` change nothing
/// and answer the rendering, `start` queues the service, `log-level` sets
/// and records the level, and `stop`, `restart`, `shutdown` and `reboot`
/// are answered as their operations go.
pub open spec fn command_answered(
    s: SupervisorState,
    t: SupervisorState,
    command: CommandSpec,
    r: Result<Seq<char>, ControlFault>,
    before: BackendLog,
    after: BackendLog,
) -> bool {
    match command {
        CommandSpec::Status => t == s && after == before && r == Ok::<Seq<char>, ControlFault>(
            spec_render_status(s),
        ),
        CommandSpec::Logs { service } => t == s && after == before && r == Ok::<
            Seq<char>,
            ControlFault,
        >(spec_render_logs(s, service)),
        CommandSpec::Start(name) => {
            let (s1, res) = spec_start(s, name);
            &&& t == s1
            &&& after == before
            &&& r == match res {
                Ok(_) => Ok::<Seq<char>, ControlFault>("start service="@ + name + " state=queued"@),
                Err(e) => Err(ControlFault::Backend(e)),
            }
        },
        CommandSpec::Stop(name) => stop_answered(s, t, name, r, before, after),
        CommandSpec::Restart(name) => restart_answered(s, t, name, r, before, after),
        CommandSpec::LogLevel(level) => {
            &&& after == before
            &&& t == spec_record(
                SupervisorState { log_level: level, ..s },
                "init"@,
                LogLevel::Notice,
                "log-level"@,
                level_name(level),
            )
            &&& r == Ok::<Seq<char>, ControlFault>("log-level="@ + level_name(level))
        },
        CommandSpec::Shutdown => shutdown_answered(s, t, ShutdownMode::Shutdown, r, before, after),
        CommandSpec::Reboot => shutdown_answered(s, t, ShutdownMode::Reboot, r, before, after),
    }
}

/// Runs a parsed command against the supervisor and the backend, and gives
/// the text that answers it.
pub fn execute_command<B: ProcessBackend>(
    supervisor: &mut Supervisor,
    backend: &mut B,
    command: Command,
) -> (r: Result<String, ControlError>)
    requires
        old(supervisor).wf(),
    ensures
        final(supervisor).wf(),
        command_answered(
            old(supervisor)@,
            final(supervisor)@,
            command@,
            control_outcome(r),
            old(backend).log(),
            final(backend).log(),
        ),
{
    match command {
        Command::Status => Ok(supervisor.render_status()),
        Command::Logs { service } => {
            let out = match &service {
                Some(s) => supervisor.render_logs(Some(s.as_str())),
                None => supervisor.render_logs(None),
            };
            Ok(out)
        },
        Command::Start(name) => {
            match supervisor.start(name.as_str()) {
                Ok(_) => {},
                Err(e) => {
                    return Err(backend_error(e));
                },
            }
            let mut out = chars_of("start service=");
            crate::text::push_string(&mut out, &name);
            push_str(&mut out, " state=queued");
            Ok(string_of(&out))
        },
        Command::Stop(name) => run_stop(supervisor, backend, name),
        Command::Restart(name) => run_restart(supervisor, backend, name),
        Command::LogLevel(level) => {
            supervisor.set_log_level(level);
            let mut out = chars_of("log-level=");
            crate::render::push_level_name(&mut out, level);
            Ok(string_of(&out))
        },
        Command::Shutdown => run_shutdown(supervisor, backend, ShutdownMode::Shutdown),
        Command::Reboot => run_shutdown(supervisor, backend, ShutdownMode::Reboot),
    }
}

/// Parses a control line and runs it; a line that does not parse changes
/// nothing and is answered with the parse error.
pub fn execute_line<B: ProcessBackend>(supervisor: &mut Supervisor, backend: &mut B, line: &str) -> (r:
    Result<String, ControlError>)
    requires
        old(supervisor).wf(),
    ensures
        final(supervisor).wf(),
        match spec_parse_command(line@) {
            Err(m) => final(backend).log() == old(backend).log() && final(supervisor)@ == old(
                supervisor,
            )@ && control_outcome(r) == Err::<
                Seq<char>,
                ControlFault,
            >(ControlFault::Invalid(m)),
            Ok(c) => command_answered(
                old(supervisor)@,
                final(supervisor)@,
                c,
                control_outcome(r),
                old(backend).log(),
                final(backend).log(),
            ),
        },
{
    let command = match parse_command(line) {
        Ok(c) => c,
        Err(m) => {
            return Err(ControlError::Invalid(m.to_owned()));
        },
    };
    execute_command(supervisor, backend, command)
}

} // verus!
