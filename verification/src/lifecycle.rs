//! Properties of the service life cycle that span several operations of the
//! supervisor: what a stop, a restart, an exit, a timeout and a readiness
//! notification lead to.
use vstd::prelude::*;
use crate::config::{Readiness, RestartPolicy, ServiceKind, ServiceSpec, TimeoutAction};
use crate::supervisor::{
    ChildExit, ServiceRuntime, ServiceState, SpawnFault, StopAction, StopReason, Supervisor,
    SupervisorState, child_owner, exit_succeeded, exit_transition, is_up, sequences_increase,
    service_index, spec_apply_exit, spec_apply_spawn, spec_apply_stop_action, spec_backoff,
    spec_boot_ready, spec_can_start, spec_notify_ready, spec_prepare_start, spec_restart_queued,
    spec_start, spec_stop_requested, state_wf, stop_action_for, wants_restart, start_pass,
    start_pass_spawns, is_settled, is_start_order, starts_before, tick_answers_fit, tick_reaped,
    tick_spawns, TickAnswers, apply_exits, status_line, state_name, status_lines, ExitCause,
};
use crate::text::{decimal, signed_decimal};
use crate::config::LogLevel;
use crate::supervisor::{LogEntry, log_lines, spec_record, stable_line};

verus! {

/// The owner of a child handle is the first service that holds it.
pub proof fn lemma_child_owner_first(rts: Seq<ServiceRuntime>, child: u64)
    ensures
        0 <= child_owner(rts, child) <= rts.len(),
        forall|j: int| 0 <= j < child_owner(rts, child) ==> rts[j].child != Some(child),
        child_owner(rts, child) < rts.len() ==> rts[child_owner(rts, child)].child == Some(
            child,
        ),
    decreases rts.len(),
{
    if rts.len() > 0 && rts[0].child != Some(child) {
        lemma_child_owner_first(rts.drop_first(), child);
        assert forall|j: int| 0 <= j < child_owner(rts, child) implies rts[j].child != Some(
            child,
        ) by {
            if j > 0 {
                assert(rts[j] == rts.drop_first()[j - 1]);
            }
        }
    }
}

/// Replacing the runtime of the owner of a child by one that keeps the
/// child keeps the owner.
pub proof fn lemma_child_owner_kept(rts: Seq<ServiceRuntime>, child: u64, i: int, rt: ServiceRuntime)
    requires
        0 <= i < rts.len(),
        child_owner(rts, child) == i,
        rt.child == Some(child),
    ensures
        child_owner(rts.update(i, rt), child) == i,
{
    lemma_child_owner_first(rts, child);
    let r = rts.update(i, rt);
    assert forall|j: int| 0 <= j < i implies r[j].child != Some(child) by {
        assert(r[j] == rts[j]);
    }
    crate::supervisor::lemma_child_owner(r, child, i);
}

/// A stop requested by hand is final: when the child then exits, the
/// service is `Stopped` whatever the exit and the restart policy, its
/// restart count is unchanged and no start is queued.
pub proof fn lemma_manual_stop_is_final(s: SupervisorState, i: int, exit: ChildExit)
    requires
        state_wf(s),
        0 <= i < s.runtimes.len(),
        s.runtimes[i].child is Some,
        s.runtimes[i].state != ServiceState::Stopping,
        child_owner(s.runtimes, s.runtimes[i].child->0) == i,
    ensures
        ({
            let c = s.runtimes[i].child->0;
            let stopped = spec_stop_requested(s, i);
            let exited = spec_apply_exit(stopped, c, exit);
            &&& stopped.runtimes[i].state == ServiceState::Stopping
            &&& stopped.runtimes[i].child == Some(c)
            &&& exited.runtimes[i].state == ServiceState::Stopped
            &&& exited.runtimes[i].child is None
            &&& exited.runtimes[i].restart_count == s.runtimes[i].restart_count
            &&& !exited.manual_starts[i]
        }),
{
    let c = s.runtimes[i].child->0;
    let stopped = spec_stop_requested(s, i);
    lemma_child_owner_kept(s.runtimes, c, i, stopped.runtimes[i]);
    assert(stopped.runtimes =~= s.runtimes.update(i, stopped.runtimes[i]));
}

/// After a stop requested by hand at time `t` for a service with a child,
/// no tick before `t + stop_timeout_ms` escalates (the deadline saturates
/// at the largest time), and a tick at or after that time sends the
/// service's kill signal to the child.
pub proof fn lemma_manual_stop_deadline(s: SupervisorState, i: int, later: u64)
    requires
        state_wf(s),
        0 <= i < s.runtimes.len(),
        i <= usize::MAX,
        s.runtimes[i].child is Some,
        s.runtimes[i].state != ServiceState::Stopping,
    ensures
        ({
            let stopped = spec_stop_requested(s, i);
            let at = SupervisorState { now_ms: later, ..stopped };
            let cfg = s.config.services[i].1;
            &&& later < s.now_ms + cfg.stop_timeout_ms && later < u64::MAX ==> stop_action_for(
                at,
                i,
            ) is None
            &&& later >= s.now_ms + cfg.stop_timeout_ms ==> stop_action_for(at, i) == Some(
                StopAction {
                    index: i as usize,
                    child: s.runtimes[i].child->0,
                    signal: cfg.kill_signal,
                    begin_stop: false,
                    readiness_timeout: false,
                },
            )
        }),
{
    let stopped = spec_stop_requested(s, i);
    let at = SupervisorState { now_ms: later, ..stopped };
    let cfg = s.config.services[i].1;
    let rt = at.runtimes[i];
    assert(rt.state == ServiceState::Stopping);
    assert(rt.child == s.runtimes[i].child);
    assert(!rt.stop_escalated);
    assert(at.config.services[i].1 == cfg);
    assert(rt.stop_deadline_ms == Some(
        if s.now_ms + cfg.stop_timeout_ms > u64::MAX {
            u64::MAX
        } else {
            (s.now_ms + cfg.stop_timeout_ms) as u64
        },
    ));
}

/// A restart of a running service stops it and, once its child has exited,
/// queues a new start right away with the restart count reset.
pub proof fn lemma_restart_requeues(s: SupervisorState, i: int, exit: ChildExit)
    requires
        state_wf(s),
        0 <= i < s.runtimes.len(),
        s.runtimes[i].child is Some,
        s.runtimes[i].state != ServiceState::Stopping,
        child_owner(s.runtimes, s.runtimes[i].child->0) == i,
    ensures
        ({
            let c = s.runtimes[i].child->0;
            let queued = spec_restart_queued(spec_stop_requested(s, i), i, true);
            let exited = spec_apply_exit(queued, c, exit);
            &&& queued.runtimes[i].state == ServiceState::Stopping
            &&& exited.runtimes[i].state == ServiceState::Defined
            &&& exited.runtimes[i].child is None
            &&& exited.runtimes[i].restart_count == 0
            &&& exited.runtimes[i].next_start_ms == s.now_ms
            &&& exited.manual_starts[i]
        }),
{
    let c = s.runtimes[i].child->0;
    let stopped = spec_stop_requested(s, i);
    let queued = spec_restart_queued(stopped, i, true);
    lemma_child_owner_kept(s.runtimes, c, i, stopped.runtimes[i]);
    assert(stopped.runtimes =~= s.runtimes.update(i, stopped.runtimes[i]));
    lemma_child_owner_kept(stopped.runtimes, c, i, queued.runtimes[i]);
    assert(queued.runtimes =~= stopped.runtimes.update(i, queued.runtimes[i]));
}

/// A oneshot whose child exits successfully is `Completed`, which counts as
/// up for the services that depend on it.
pub proof fn lemma_oneshot_success_completes(
    rt: ServiceRuntime,
    cfg: ServiceSpec,
    exit: ChildExit,
    now: u64,
)
    requires
        rt.stop_reason is None,
        cfg.kind == ServiceKind::Oneshot,
        exit_succeeded(exit),
    ensures
        exit_transition(rt, cfg, exit, now).0.state == ServiceState::Completed,
        is_up(exit_transition(rt, cfg, exit, now).0.state),
        !exit_transition(rt, cfg, exit, now).3,
{
}

/// An exit the restart policy asks to restart is retried after the backoff
/// delay until the crash limit is reached, and fails from then on.
pub proof fn lemma_crash_limit(rt: ServiceRuntime, cfg: ServiceSpec, exit: ChildExit, now: u64)
    requires
        rt.stop_reason is None,
        !(cfg.kind == ServiceKind::Oneshot && exit_succeeded(exit)),
        wants_restart(cfg.restart, !exit_succeeded(exit)),
        now + 6400 <= u64::MAX,
    ensures
        ({
            let t = exit_transition(rt, cfg, exit, now).0;
            if rt.restart_count < cfg.max_restarts {
                &&& t.state == ServiceState::Backoff
                &&& t.restart_count == rt.restart_count + 1
                &&& t.next_start_ms == now + spec_backoff(t.restart_count)
            } else {
                &&& t.state == ServiceState::Failed
                &&& t.restart_count == rt.restart_count
            }
        }),
{
}

/// A child that exits while no stop is pending, and that the restart policy
/// does not restart (policy `never`, or `on-failure` after a success),
/// leaves its service `Failed` when it exited with a nonzero code or by a
/// signal, and `Stopped` when it exited with code 0 (unless it is a oneshot,
/// which completes). The exit is kept as the last exit, and nothing is
/// queued.
pub proof fn lemma_exit_without_restart(rt: ServiceRuntime, cfg: ServiceSpec, exit: ChildExit, now: u64)
    requires
        rt.stop_reason is None,
        cfg.restart == RestartPolicy::Never || (cfg.restart == RestartPolicy::OnFailure
            && exit.code == Some(0i32) && exit.signal is None),
    ensures
        ({
            let t = exit_transition(rt, cfg, exit, now);
            let success = exit.code == Some(0i32) && exit.signal is None;
            &&& t.0.state == if !success {
                ServiceState::Failed
            } else if cfg.kind == ServiceKind::Oneshot {
                ServiceState::Completed
            } else {
                ServiceState::Stopped
            }
            &&& t.0.child is None
            &&& t.0.restart_count == rt.restart_count
            &&& t.0.last_exit matches Some(e) && e.code == exit.code && e.signal == exit.signal
            &&& !t.3
        }),
{
}

/// With no stop pending and restarts left, an exit is followed by a restart
/// after the backoff exactly when the policy is `always`, or `on-failure`
/// and the child exited with a nonzero code or by a signal (a oneshot that
/// exited with code 0 completes instead).
pub proof fn lemma_restart_policy(rt: ServiceRuntime, cfg: ServiceSpec, exit: ChildExit, now: u64)
    requires
        rt.stop_reason is None,
        rt.restart_count < cfg.max_restarts,
    ensures
        ({
            let success = exit.code == Some(0i32) && exit.signal is None;
            let t = exit_transition(rt, cfg, exit, now).0;
            !(cfg.kind == ServiceKind::Oneshot && success) ==> (t.state == ServiceState::Backoff
                <==> (cfg.restart == RestartPolicy::Always || (cfg.restart
                == RestartPolicy::OnFailure && !success)))
        }),
{
}

/// The exit that ends a timeout stop applies the declared timeout action:
/// `stop` leaves the service stopped, `fail` fails it, and `restart` starts
/// it again after the backoff delay whatever the restart policy says, up to
/// the crash limit (a oneshot that exited successfully is completed).
pub proof fn lemma_timeout_action(rt: ServiceRuntime, cfg: ServiceSpec, exit: ChildExit, now: u64)
    requires
        rt.stop_reason == Some(StopReason::Timeout),
        now + 6400 <= u64::MAX,
    ensures
        cfg.timeout_action == TimeoutAction::Stop ==> exit_transition(rt, cfg, exit, now).0.state
            == ServiceState::Stopped,
        cfg.timeout_action == TimeoutAction::Fail ==> exit_transition(rt, cfg, exit, now).0.state
            == ServiceState::Failed,
        cfg.timeout_action == TimeoutAction::Restart && !(cfg.kind == ServiceKind::Oneshot
            && exit_succeeded(exit)) ==> {
            let t = exit_transition(rt, cfg, exit, now).0;
            if rt.restart_count < cfg.max_restarts {
                &&& t.state == ServiceState::Backoff
                &&& t.restart_count == rt.restart_count + 1
                &&& t.next_start_ms == now + spec_backoff(t.restart_count)
            } else {
                t.state == ServiceState::Failed
            }
        },
{
}

/// The normal shell does not start while a boot gate is down or log storage
/// is unavailable: the supervisor neither spawns it nor changes anything
/// for it.
pub proof fn lemma_shell_gated(s: SupervisorState, k: int)
    requires
        state_wf(s),
        0 <= k < s.runtimes.len(),
        s.config.boot.shell == Some(s.config.services[k].0),
        !spec_boot_ready(s),
    ensures
        spec_prepare_start(s, k) == (s, false),
{
}

/// A stop that has been escalated to the kill signal is not escalated
/// again.
pub proof fn lemma_escalates_once(s: SupervisorState, i: int)
    requires
        state_wf(s),
        0 <= i < s.runtimes.len(),
        i <= usize::MAX,
        stop_action_for(s, i) matches Some(a) && !a.begin_stop,
    ensures
        stop_action_for(spec_apply_stop_action(s, stop_action_for(s, i)->0), i) is None,
{
}

/// A timeout stop puts the service in `Stopping` with a deadline, so that
/// the exit that follows applies the timeout action.
pub proof fn lemma_timeout_begins_stop(s: SupervisorState, i: int)
    requires
        state_wf(s),
        0 <= i < s.runtimes.len(),
        i <= usize::MAX,
        stop_action_for(s, i) matches Some(a) && a.begin_stop,
    ensures
        ({
            let t = spec_apply_stop_action(s, stop_action_for(s, i)->0);
            &&& t.runtimes[i].state == ServiceState::Stopping
            &&& t.runtimes[i].stop_reason == Some(StopReason::Timeout)
            &&& t.runtimes[i].stop_deadline_ms is Some
            &&& t.runtimes[i].child == s.runtimes[i].child
        }),
{
}

/// A spawned service that waits for a readiness notification is
/// `Starting`, one that does not is `Running`; a notification makes a
/// `Starting` service `Ready`.
pub proof fn lemma_readiness(s: SupervisorState, k: int, child: u64)
    requires
        state_wf(s),
        0 <= k < s.runtimes.len(),
    ensures
        spec_apply_spawn(s, k, Ok(child)).runtimes[k].state == match s.config.services[k].1.readiness {
            Readiness::Notify => ServiceState::Starting,
            Readiness::Spawn => ServiceState::Running,
        },
        s.runtimes[k].state == ServiceState::Starting && s.runtimes[k].child is Some ==> spec_notify_ready(
            s,
            s.config.services[k].0,
        ).0.runtimes[k].state == ServiceState::Ready,
{
    if s.runtimes[k].state == ServiceState::Starting && s.runtimes[k].child is Some {
        crate::names::lemma_position_unique(s.config.services, k);
        assert(service_index(s, s.config.services[k].0) == k);
    }
}

/// Only a readiness notification makes a service `Ready`: no exit, spawn,
/// start decision, timeout, stop or restart does.
pub proof fn lemma_ready_only_by_notification(
    s: SupervisorState,
    i: int,
    child: u64,
    exit: ChildExit,
    spawn: Result<u64, SpawnFault>,
    a: StopAction,
)
    requires
        state_wf(s),
        0 <= i < s.runtimes.len(),
        a.index == i,
    ensures
        exit_transition(s.runtimes[i], s.config.services[i].1, exit, s.now_ms).0.state
            != ServiceState::Ready,
        spec_apply_spawn(s, i, spawn).runtimes[i].state != ServiceState::Ready,
        spec_prepare_start(s, i).0.runtimes[i].state == ServiceState::Ready ==> s.runtimes[i].state
            == ServiceState::Ready,
        spec_apply_stop_action(s, a).runtimes[i].state == ServiceState::Ready ==> s.runtimes[i].state
            == ServiceState::Ready,
        spec_stop_requested(s, i).runtimes[i].state != ServiceState::Ready,
        spec_restart_queued(s, i, true).runtimes[i].state == ServiceState::Ready ==> s.runtimes[i].state
            == ServiceState::Ready,
        spec_restart_queued(s, i, false).runtimes[i].state != ServiceState::Ready,
{
}

/// A service queued by `start` is spawned by the next tick's start pass once
/// its dependencies are up, unless it is the normal shell and the boot
/// gates are down.
pub proof fn lemma_start_leads_to_spawn(s: SupervisorState, name: Seq<char>, now: u64)
    requires
        state_wf(s),
        spec_start(s, name).1 is Ok,
        now >= s.now_ms,
        spec_can_start(
            SupervisorState { now_ms: now, ..spec_start(s, name).0 },
            service_index(s, name),
        ),
        !(s.config.boot.shell == Some(name) && !spec_boot_ready(
            SupervisorState { now_ms: now, ..spec_start(s, name).0 },
        )),
    ensures
        spec_prepare_start(
            SupervisorState { now_ms: now, ..spec_start(s, name).0 },
            service_index(s, name),
        ).1,
{
    crate::names::lemma_position_bounds(s.config.services, name);
}

/// What the start pass checks before it spawns service `k`: the normal
/// shell only once the boot gates are up and storage is available, only a
/// service that starts by itself or was queued, only once every dependency
/// is up, and only a service with no child that has not ended for good and
/// whose restart time has come.
pub open spec fn may_spawn(s: SupervisorState, k: int) -> bool {
    &&& s.config.boot.shell == Some(s.config.services[k].0) ==> spec_boot_ready(s)
    &&& s.config.services[k].1.autostart || s.manual_starts[k]
    &&& spec_can_start(s, k)
    &&& s.runtimes[k].child is None
    &&& !is_settled(s.runtimes[k].state)
    &&& s.now_ms >= s.runtimes[k].next_start_ms
}

/// The start pass spawns a service exactly when `may_spawn` holds of it.
pub proof fn lemma_prepare_start_spawns(s: SupervisorState, k: int)
    ensures
        spec_prepare_start(s, k).1 <==> may_spawn(s, k),
{
}

/// Each spawn request of the start pass is for a service of the order at
/// a later place than the one before, with that service's own name and
/// configuration, and `may_spawn` held of it in the state the pass had
/// reached. The places are returned.
#[verifier::rlimit(30)]
pub proof fn lemma_start_pass_spawns(
    s: SupervisorState,
    order: Seq<usize>,
    answers: Seq<Result<u64, SpawnFault>>,
) -> (places: Seq<int>)
    requires
        answers.len() == order.len(),
    ensures
        places.len() == start_pass_spawns(s, order, answers).len(),
        forall|j: int| 0 <= j < places.len() ==> 0 <= #[trigger] places[j] < order.len(),
        forall|j: int, m: int| 0 <= j < m < places.len() ==> places[j] < places[m],
        forall|j: int|
            0 <= j < places.len() ==> {
                let x = #[trigger] places[j];
                let k = order[x] as int;
                let before = start_pass(s, order.take(x), answers.take(x));
                &&& start_pass_spawns(s, order, answers)[j] == (
                    before.config.services[k].0,
                    before.config.services[k].1,
                )
                &&& may_spawn(before, k)
            },
    decreases order.len(),
{
    if order.len() == 0 {
        Seq::empty()
    } else {
        let o = order.drop_last();
        let w = answers.drop_last();
        let prev = lemma_start_pass_spawns(s, o, w);
        let x = order.len() - 1;
        assert(order.take(x) =~= o);
        assert(answers.take(x) =~= w);
        assert forall|j: int| 0 <= j < prev.len() implies {
            let y = #[trigger] prev[j];
            &&& order.take(y) =~= o.take(y)
            &&& answers.take(y) =~= w.take(y)
        } by {
        }
        let k = order[x] as int;
        let before = start_pass(s, o, w);
        lemma_prepare_start_spawns(before, k);
        if spec_prepare_start(before, k).1 {
            prev.push(x)
        } else {
            prev
        }
    }
}

/// The spawn requests of a tick: none while a shutdown is pending; else
/// one per service at most, in start order (by `order`, then by name),
/// each with the service's own name and configuration and only where
/// `may_spawn` held when the pass reached it. The places in the start
/// order are returned.
pub proof fn lemma_tick_spawn_requests(s: SupervisorState, now: u64, a: TickAnswers) -> (places: Seq<
    int,
>)
    requires
        tick_answers_fit(s, now, a),
    ensures
        s.shutdown is Some ==> tick_reaped(s, now, a).shutdown is Some,
        tick_reaped(s, now, a).shutdown is Some ==> tick_spawns(s, now, a).len() == 0,
        tick_reaped(s, now, a).shutdown is None ==> {
            let s2 = tick_reaped(s, now, a);
            let spawns = tick_spawns(s, now, a);
            &&& places.len() == spawns.len()
            &&& forall|j: int, m: int|
                0 <= j < m < places.len() ==> places[j] < places[m] && a.order[places[j]]
                    != a.order[places[m]] && starts_before(
                    s2,
                    a.order[places[j]] as int,
                    a.order[places[m]] as int,
                )
            &&& forall|j: int|
                0 <= j < places.len() ==> {
                    let x = #[trigger] places[j];
                    let k = a.order[x] as int;
                    let before = start_pass(s2, a.order.take(x), a.spawns.take(x));
                    &&& 0 <= x < a.order.len()
                    &&& spawns[j] == (s2.config.services[k].0, s2.config.services[k].1)
                    &&& before.config == s2.config
                    &&& may_spawn(before, k)
                }
        },
{
    let s2 = tick_reaped(s, now, a);
    lemma_exits_keep_shutdown(SupervisorState { now_ms: now, ..s }, a.exits);
    if s2.shutdown is Some {
        Seq::empty()
    } else {
        let places = lemma_start_pass_spawns(s2, a.order, a.spawns);
        crate::supervisor::lemma_start_order_complete(s2, a.order);
        assert forall|j: int| 0 <= j < places.len() implies start_pass(
            s2,
            a.order.take(#[trigger] places[j]),
            a.spawns.take(places[j]),
        ).config == s2.config by {
            lemma_start_pass_config(s2, a.order.take(places[j]), a.spawns.take(places[j]));
        }
        places
    }
}

/// Taking in exits never ends a pending shutdown.
pub proof fn lemma_exits_keep_shutdown(s: SupervisorState, exits: Seq<(u64, ChildExit)>)
    ensures
        s.shutdown is Some ==> apply_exits(s, exits).shutdown == s.shutdown,
    decreases exits.len(),
{
    if exits.len() > 0 {
        lemma_exits_keep_shutdown(s, exits.drop_last());
    }
}

/// The start pass leaves the configuration as it was.
pub proof fn lemma_start_pass_config(
    s: SupervisorState,
    order: Seq<usize>,
    answers: Seq<Result<u64, SpawnFault>>,
)
    ensures
        start_pass(s, order, answers).config == s.config,
    decreases order.len(),
{
    if order.len() > 0 {
        lemma_start_pass_config(s, order.drop_last(), answers.drop_last());
    }
}

/// The status line of a service names it and its state, then gives the
/// exit code of its last exit after `exit_code=` and the signal of its last
/// exit after `exit_signal=`, each `-` when there is none. So a service
/// whose child was killed by signal `n` ends its line with
/// `exit_code=- exit_signal=n`, and one whose child exited with code `c`
/// ends it with `exit_code=c exit_signal=-`.
pub proof fn lemma_status_line_fields(name: Seq<char>, rt: ServiceRuntime)
    ensures
        ({
            let code = match rt.last_exit {
                Some(e) => e.code,
                None => None,
            };
            let signal = match rt.last_exit {
                Some(e) => e.signal,
                None => None,
            };
            let code_text = match code {
                Some(c) => signed_decimal(c as int),
                None => "-"@,
            };
            let signal_text = match signal {
                Some(n) => decimal(n as nat),
                None => "-"@,
            };
            status_line(name, rt) == "service="@ + name + " state="@ + state_name(rt.state)
                + " exit_code="@ + code_text + " exit_signal="@ + signal_text
        }),
        rt.last_exit is None ==> status_line(name, rt) == "service="@ + name + " state="@
            + state_name(rt.state) + " exit_code=- exit_signal=-"@,
        forall|n: u32|
            rt.last_exit == Some(ExitCause { code: None, signal: Some(n) }) ==> status_line(name, rt)
                == "service="@ + name + " state="@ + state_name(rt.state) + " exit_code=-"@
                + " exit_signal="@ + decimal(n as nat),
        forall|c: i32|
            rt.last_exit == Some(ExitCause { code: Some(c), signal: None }) ==> status_line(name, rt)
                == "service="@ + name + " state="@ + state_name(rt.state) + " exit_code="@
                + signed_decimal(c as int) + " exit_signal=-"@,
{
    reveal_strlit(" exit_code=- exit_signal=-");
    reveal_strlit(" exit_code=-");
    reveal_strlit(" exit_code=");
    reveal_strlit(" exit_signal=");
    reveal_strlit(" exit_signal=-");
    reveal_strlit("-");
    let head = "service="@ + name + " state="@ + state_name(rt.state);
    assert(head + " exit_code="@ + "-"@ + " exit_signal="@ + "-"@ =~= head
        + " exit_code=- exit_signal=-"@);
    assert(forall|x: Seq<char>| #[trigger] (head + " exit_code="@ + "-"@ + " exit_signal="@ + x)
        =~= head + " exit_code=-"@ + " exit_signal="@ + x);
    assert(forall|x: Seq<char>| #[trigger] (head + " exit_code="@ + x + " exit_signal="@ + "-"@)
        =~= head + " exit_code="@ + x + " exit_signal=-"@);
}

/// Each line of the status rendering is the status line of the service at
/// that place, in name order.
pub proof fn lemma_status_lines(s: SupervisorState, i: int)
    requires
        state_wf(s),
        0 <= i < s.runtimes.len(),
    ensures
        status_lines(s, s.runtimes.len() as int)[i] == status_line(s.config.services[i].0, s.runtimes[i]),
{
}

/// The backoff before a restart starts at 100 ms and doubles with each
/// attempt up to 6400 ms, where it stays.
pub proof fn lemma_backoff_doubles(attempt: u32)
    ensures
        spec_backoff(0) == 100,
        attempt < 6 ==> spec_backoff((attempt + 1) as u32) == 2 * spec_backoff(attempt),
        attempt >= 6 ==> spec_backoff(attempt) == 6400,
        100 <= spec_backoff(attempt) <= 6400,
{
}

/// Errors are always recorded; debug records only at the debug level; a
/// record kept in memory is the newest one, with the next sequence number,
/// the supervisor's time and the given service, level, event and detail.
pub proof fn lemma_record_keeps_event(
    s: SupervisorState,
    service: Seq<char>,
    level: LogLevel,
    event: Seq<char>,
    detail: Seq<char>,
)
    requires
        state_wf(s),
        s.retention > 0,
        s.storage_available,
        s.sequence < u64::MAX,
    ensures
        ({
            let t = spec_record(s, service, level, event, detail);
            let kept = level == LogLevel::Error || s.log_level == LogLevel::Debug || (level
                == LogLevel::Warn && s.log_level != LogLevel::Error) || (level == LogLevel::Notice
                && (s.log_level == LogLevel::Notice || s.log_level == LogLevel::Debug));
            &&& !kept ==> t == s
            &&& kept ==> {
                &&& t.sequence == s.sequence + 1
                &&& t.logs.len() > 0
                &&& t.logs.last() == (LogEntry {
                    sequence: (s.sequence + 1) as u64,
                    timestamp_ms: s.now_ms,
                    service,
                    level,
                    event,
                    detail,
                })
            }
        }),
{
}

/// The log rendering lists the stable line of every kept record, oldest
/// first, or with a service named, of exactly the records of that service.
pub proof fn lemma_log_lines(logs: Seq<LogEntry>, name: Seq<char>)
    ensures
        log_lines(logs, None) == logs.map_values(|e: LogEntry| stable_line(e)),
        log_lines(logs, Some(name)) == logs.filter(|e: LogEntry| e.service == name).map_values(
            |e: LogEntry| stable_line(e),
        ),
    decreases logs.len(),
{
    reveal(Seq::filter);
    if logs.len() > 0 {
        lemma_log_lines(logs.drop_last(), name);
        assert(logs.map_values(|e: LogEntry| stable_line(e)) =~= logs.drop_last().map_values(
            |e: LogEntry| stable_line(e),
        ).push(stable_line(logs.last())));
        let f = logs.drop_last().filter(|e: LogEntry| e.service == name);
        if logs.last().service == name {
            assert(f.push(logs.last()).map_values(|e: LogEntry| stable_line(e)) =~= f.map_values(
                |e: LogEntry| stable_line(e),
            ).push(stable_line(logs.last())));
        }
    } else {
        assert(logs.map_values(|e: LogEntry| stable_line(e)) =~= Seq::<Seq<char>>::empty());
        assert(logs.filter(|e: LogEntry| e.service == name) =~= Seq::<LogEntry>::empty());
    }
}

/// A supervisor keeps at most `retention` records in memory and on serial,
/// and their sequence numbers increase.
pub proof fn lemma_logs_bounded(s: &Supervisor)
    requires
        s.wf(),
    ensures
        s@.logs.len() <= s@.config.logging.retention,
        s@.serial.len() <= s@.config.logging.retention,
        sequences_increase(s@.logs),
{
}

} // verus!
