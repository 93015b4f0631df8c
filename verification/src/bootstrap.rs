//! The hand-off checks of the freestanding first process: announce the
//! boot, check that this process is PID 1 with no child yet, start one
//! child and reap it, report readiness, and exit with a status that says
//! which check failed.
//!
//! The checks are a state machine: each step takes what the last system
//! call returned and gives the next stage and the next call to make. The
//! calls themselves are made by the program that runs the machine.
use vstd::prelude::*;

verus! {

/// The system call that waits for a child.
pub const SYS_WAIT: u64 = 61;
/// The system call that ends the process.
pub const SYS_EXIT: u64 = 60;
/// The system call that gives the process id.
pub const SYS_GETPID: u64 = 39;
/// The system call that writes to a file descriptor.
pub const SYS_WRITE: u64 = 1;
/// The system call that starts a program as a child.
pub const SYS_SPAWN: u64 = 400;
/// The error number for "no child to wait for".
pub const ECHILD: u64 = 10;

/// A message of the boot console.
#[derive(Debug, Clone, Copy, PartialEq, Eq, Structural)]
pub enum Message {
    Booting,
    Ready,
    Failure,
}

/// The text of a console message.
pub open spec fn message_chars(m: Message) -> Seq<char> {
    match m {
        Message::Booting => "\x1b[90m[\x1b[0m\x1b[92m  OK  \x1b[0m\x1b[90m]\x1b[0m quickinit: bootstrap entered\n"@,
        Message::Ready => "\x1b[90m[\x1b[0m\x1b[92m  OK  \x1b[0m\x1b[90m]\x1b[0m quickinit: bootstrap ready; child reaped\n"@,
        Message::Failure => "\x1b[90m[\x1b[0m\x1b[91m FAIL \x1b[0m\x1b[90m]\x1b[0m quickinit: bootstrap contract failed\n"@,
    }
}

/// The text of a console message.
pub fn message_text(m: Message) -> (t: &'static str)
    ensures
        t@ == message_chars(m),
{
    match m {
        Message::Booting => "\x1b[90m[\x1b[0m\x1b[92m  OK  \x1b[0m\x1b[90m]\x1b[0m quickinit: bootstrap entered\n",
        Message::Ready => "\x1b[90m[\x1b[0m\x1b[92m  OK  \x1b[0m\x1b[90m]\x1b[0m quickinit: bootstrap ready; child reaped\n",
        Message::Failure => "\x1b[90m[\x1b[0m\x1b[91m FAIL \x1b[0m\x1b[90m]\x1b[0m quickinit: bootstrap contract failed\n",
    }
}

/// The number of bytes of a console message.
pub fn message_len(m: Message) -> (n: usize)
    ensures
        n == message_chars(m).len(),
{
    let t = message_text(m);
    proof {
        reveal_strlit("\x1b[90m[\x1b[0m\x1b[92m  OK  \x1b[0m\x1b[90m]\x1b[0m quickinit: bootstrap entered\n");
        reveal_strlit("\x1b[90m[\x1b[0m\x1b[92m  OK  \x1b[0m\x1b[90m]\x1b[0m quickinit: bootstrap ready; child reaped\n");
        reveal_strlit("\x1b[90m[\x1b[0m\x1b[91m FAIL \x1b[0m\x1b[90m]\x1b[0m quickinit: bootstrap contract failed\n");
        assert(vstd::string::is_ascii(t));
        vstd::string::is_ascii_spec_bytes(t);
    }
    t.len()
}

/// The program started as the child whose reaping is checked.
pub fn child_path() -> (t: &'static str)
    ensures
        t@ == "/bin/rust-smoke"@,
{
    "/bin/rust-smoke"
}

/// A system call result is an error number: the last 4096 values.
pub open spec fn spec_is_error(value: u64) -> bool {
    value >= u64::MAX - 4095
}

/// The result that reports the error number `errno`: its negation modulo
/// two to the 64.
pub open spec fn spec_error(errno: u64) -> u64 {
    if errno == 0 {
        0
    } else {
        (u64::MAX - errno + 1) as u64
    }
}

/// Whether a system call result is an error number.
pub fn is_error(value: u64) -> (b: bool)
    ensures
        b == spec_is_error(value),
{
    value >= u64::MAX - 4095
}

/// The result that reports the error number `errno`.
pub fn error(errno: u64) -> (r: u64)
    ensures
        r == spec_error(errno),
{
    0u64.wrapping_sub(errno)
}

/// The number of bytes a write reports, or zero for an error.
pub open spec fn spec_written(result: u64) -> int {
    if spec_is_error(result) {
        0
    } else {
        (result as usize) as int
    }
}

/// The number of bytes a write reports, or zero for an error.
pub fn written(result: u64) -> (n: usize)
    ensures
        n == spec_written(result),
{
    if is_error(result) {
        0
    } else {
        result as usize
    }
}

/// A system call the hand-off makes next.
#[derive(Debug, Clone, Copy, PartialEq, Eq, Structural)]
pub enum BootAction {
    /// Write a console message to a file descriptor.
    Write { fd: u64, message: Message },
    /// Ask for the process id.
    GetPid,
    /// Wait for a child (0: any child).
    Wait { pid: u64 },
    /// Start the child program.
    Spawn,
    /// End the process with a status.
    Exit { status: u64 },
}

/// Where the hand-off stands: which call's result comes next.
#[derive(Debug, Clone, Copy, PartialEq, Eq, Structural)]
pub enum BootStage {
    /// The boot message is being written.
    Announcing,
    /// The process id is being asked for.
    QueryingPid,
    /// A wait checks that there is no child yet.
    ProbingChildren { pid: u64 },
    /// The child is being started.
    Spawning,
    /// The child is being waited for.
    Reaping { child: u64 },
    /// The ready message is being written.
    Finishing,
    /// The failure message is being written; the exit status follows.
    Failing { status: u64 },
    /// The process is ending.
    Exiting,
}

/// A failed step: the failure message goes to standard error, then the
/// process exits with the status of that step.
pub open spec fn failing(status: u64) -> (BootStage, BootAction) {
    (BootStage::Failing { status }, BootAction::Write { fd: 2, message: Message::Failure })
}

/// The first stage and call: the boot message on standard output.
pub open spec fn spec_boot_start() -> (BootStage, BootAction) {
    (BootStage::Announcing, BootAction::Write { fd: 1, message: Message::Booting })
}

/// The next stage and call, given what the last call returned.
pub open spec fn spec_boot_step(stage: BootStage, result: u64) -> (BootStage, BootAction) {
    match stage {
        BootStage::Announcing => if spec_written(result) != message_chars(Message::Booting).len() {
            failing(1)
        } else {
            (BootStage::QueryingPid, BootAction::GetPid)
        },
        BootStage::QueryingPid => (
            BootStage::ProbingChildren { pid: result },
            BootAction::Wait { pid: 0 },
        ),
        BootStage::ProbingChildren { pid } => if spec_is_error(pid) || pid != 1 || !spec_is_error(
            result,
        ) || result != spec_error(ECHILD) {
            failing(2)
        } else {
            (BootStage::Spawning, BootAction::Spawn)
        },
        BootStage::Spawning => if spec_is_error(result) || result == 0 {
            failing(4)
        } else {
            (BootStage::Reaping { child: result }, BootAction::Wait { pid: result })
        },
        BootStage::Reaping { child } => if result != child {
            failing(5)
        } else {
            (BootStage::Finishing, BootAction::Write { fd: 1, message: Message::Ready })
        },
        BootStage::Finishing => if spec_written(result) != message_chars(Message::Ready).len() {
            failing(3)
        } else {
            (BootStage::Exiting, BootAction::Exit { status: 0 })
        },
        BootStage::Failing { status } => (BootStage::Exiting, BootAction::Exit { status }),
        BootStage::Exiting => (BootStage::Exiting, BootAction::Exit { status: 0 }),
    }
}

/// The first stage and call of the hand-off.
pub fn boot_start() -> (r: (BootStage, BootAction))
    ensures
        r == spec_boot_start(),
{
    (BootStage::Announcing, BootAction::Write { fd: 1, message: Message::Booting })
}

/// The failure message and the exit status of a failed check.
fn fail(status: u64) -> (r: (BootStage, BootAction))
    ensures
        r == failing(status),
{
    (BootStage::Failing { status }, BootAction::Write { fd: 2, message: Message::Failure })
}

/// The next stage and call of the hand-off, given what the last call
/// returned. The process ends at the `Exit` call, so no result comes back
/// from it.
pub fn boot_step(stage: BootStage, result: u64) -> (r: (BootStage, BootAction))
    requires
        stage != BootStage::Exiting,
    ensures
        r == spec_boot_step(stage, result),
{
    match stage {
        BootStage::Announcing => {
            if written(result) != message_len(Message::Booting) {
                fail(1)
            } else {
                (BootStage::QueryingPid, BootAction::GetPid)
            }
        },
        BootStage::QueryingPid => (
            BootStage::ProbingChildren { pid: result },
            BootAction::Wait { pid: 0 },
        ),
        BootStage::ProbingChildren { pid } => {
            if is_error(pid) || pid != 1 || !is_error(result) || result != error(ECHILD) {
                fail(2)
            } else {
                (BootStage::Spawning, BootAction::Spawn)
            }
        },
        BootStage::Spawning => {
            if is_error(result) || result == 0 {
                fail(4)
            } else {
                (BootStage::Reaping { child: result }, BootAction::Wait { pid: result })
            }
        },
        BootStage::Reaping { child } => {
            if result != child {
                fail(5)
            } else {
                (BootStage::Finishing, BootAction::Write { fd: 1, message: Message::Ready })
            }
        },
        BootStage::Finishing => {
            if written(result) != message_len(Message::Ready) {
                fail(3)
            } else {
                (BootStage::Exiting, BootAction::Exit { status: 0 })
            }
        },
        BootStage::Failing { status } => (BootStage::Exiting, BootAction::Exit { status }),
        BootStage::Exiting => (BootStage::Exiting, BootAction::Exit { status: 0 }),
    }
}

/// A stage the hand-off can reach: a failure carries a nonzero status.
pub open spec fn stage_wf(stage: BootStage) -> bool {
    stage matches BootStage::Failing { status } ==> status != 0
}

/// The hand-off starts in a reachable stage and its steps keep it in one.
pub proof fn lemma_steps_stay_reachable(stage: BootStage, result: u64)
    ensures
        stage_wf(spec_boot_start().0),
        stage_wf(stage) ==> stage_wf(spec_boot_step(stage, result).0),
{
}

/// The hand-off exits with status 0 only right after the ready message was
/// written in full; every other exit follows the failure message of the
/// check that failed.
pub proof fn lemma_success_only_when_ready(stage: BootStage, result: u64)
    requires
        stage_wf(stage),
        stage != BootStage::Exiting,
    ensures
        spec_boot_step(stage, result).1 == (BootAction::Exit { status: 0 }) ==> stage
            == BootStage::Finishing && spec_written(result) == message_chars(Message::Ready).len(),
        forall|status: u64|
            spec_boot_step(stage, result).1 == (BootAction::Exit { status }) && status != 0
                ==> stage == (BootStage::Failing { status }),
{
}

/// A failed check writes the failure message to standard error and then
/// exits with a nonzero status.
pub proof fn lemma_failure_reported(stage: BootStage, result: u64)
    requires
        stage != BootStage::Exiting,
        spec_boot_step(stage, result).0 matches BootStage::Failing { .. },
    ensures
        spec_boot_step(stage, result).1 == (BootAction::Write { fd: 2, message: Message::Failure }),
        spec_boot_step(spec_boot_step(stage, result).0, 0).1 matches BootAction::Exit { status }
            && status != 0,
{
}

} // verus!
