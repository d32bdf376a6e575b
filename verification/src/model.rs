//! The supervisor's state machine, as a mathematical model.
//!
//! [`SessionModel`] is the ghost image of a running session;
//! [`step`] says how one observed event moves it.  The executable
//! [`crate::supervisor::Session`] refines this model: its `apply` method
//! ensures that the new view equals `step` of the old view, so every
//! property proved of `step` holds of the running supervisor.

use vstd::prelude::*;
use crate::config::SetModel;
use crate::config::set_model_wf;

verus! {

/// Lifecycle of the whole session.
#[derive(Clone, Copy, Debug, PartialEq, Eq, Structural)]
pub enum SessionPhase {
    /// Created, not yet asked to start.
    Idle,
    /// Launching services in dependency order.
    Starting,
    /// All descriptors handled; watching the live services.
    Running,
    /// Cascading termination in reverse launch order.
    ShuttingDown,
    /// Terminal; the shutdown report is complete.
    Stopped,
}

/// Why a spawn attempt failed.
#[derive(Clone, Copy, Debug, PartialEq, Eq, Structural)]
pub enum LaunchError {
    /// The command was not found.
    NotFound,
    /// The command was not executable by this user.
    PermissionDenied,
    /// The operating system refused the spawn with this error code.
    SpawnFailed { os_error: i32 },
}

/// Why a service never reached `Running`.
#[derive(Clone, Copy, Debug, PartialEq, Eq, Structural)]
pub enum StartFailure {
    /// The spawn itself failed; no process exists.
    Launch { error: LaunchError },
    /// The service was spawned but its readiness gate timed out.
    ReadinessTimeout,
    /// A dependency never reached `Running`, so the service was skipped
    /// and no process exists.
    DependencyUnavailable,
}

/// How the shutdown coordinator disposed of one live service.
#[derive(Clone, Copy, Debug, PartialEq, Eq, Structural)]
pub enum TermOutcome {
    /// Exited with this code within the grace period.
    Graceful { code: i32 },
    /// Ignored the graceful signal and was forcibly killed.
    Forced,
}

/// Per-service state, owned by the supervisor.
#[derive(Clone, Copy, Debug, PartialEq, Eq, Structural)]
pub enum ServiceStatus {
    /// Not yet launched.
    Pending,
    /// Spawned; readiness gate not yet passed.
    Starting,
    /// Spawned, but the readiness gate timed out; the process may linger
    /// and is still torn down at shutdown.
    Unready,
    /// Ready and running.
    Running,
    /// Never spawned, or the spawn failed.
    Failed { failure: StartFailure },
    /// Exited on its own while the session was running.
    Exited { code: i32 },
    /// Terminated by the shutdown coordinator.
    Terminated { outcome: TermOutcome },
}

/// Which unexpected exits end the session.
#[derive(Clone, Copy, Debug, PartialEq, Eq, Structural)]
pub enum ExitPolicy {
    /// Any service exit ends the session.
    AnyExit,
    /// Only a critical service's exit ends the session.
    CriticalOnly,
}

/// What the driver observed and reports back to the supervisor.
#[derive(Clone, Copy, Debug, PartialEq, Eq, Structural)]
pub enum Event {
    /// Session start was requested.
    StartRequested,
    /// The requested launch succeeded.
    LaunchOk,
    /// The requested launch failed.
    LaunchErr { error: LaunchError },
    /// The awaited readiness gate passed.
    ReadyOk,
    /// The awaited readiness gate timed out.
    ReadyTimeout,
    /// The requested skip of a service whose dependency is unavailable.
    DependencyUnavailable,
    /// While monitoring, this service exited with this code.
    ServiceExited { service: usize, code: i32 },
    /// An external shutdown request arrived.
    ShutdownRequested,
    /// The service being terminated exited within its grace period.
    TermExited { code: i32 },
    /// The service being terminated ignored the signal past its grace period.
    TermTimeout,
    /// The requested forced kill completed.
    Killed,
}

/// What the supervisor asks the driver to do next.
#[derive(Clone, Copy, Debug, PartialEq, Eq, Structural)]
pub enum Action {
    /// Wait for a start request.
    AwaitStart,
    /// Spawn the process of this service.
    Launch { service: usize },
    /// Run the readiness gate of this service.
    AwaitReady { service: usize },
    /// Do nothing: this service's dependency is unavailable and it will be
    /// recorded as skipped.
    Skip { service: usize },
    /// Wait for any live service to exit, or for a shutdown request.
    Monitor,
    /// Send the graceful termination signal to this service and wait up to
    /// its grace period for it to exit.
    SignalTerm { service: usize, grace_ms: u64 },
    /// Forcibly kill this service.
    ForceKill { service: usize },
    /// The session is over; the process should exit with this code.
    Finished { code: u8 },
}

/// One line of the shutdown report.
#[derive(Clone, Copy, Debug, PartialEq, Eq, Structural)]
pub struct ReportEntry {
    /// Index of the service that was torn down.
    pub service: usize,
    /// How it went.
    pub outcome: TermOutcome,
}

/// The ghost image of a session.
#[verifier::ext_equal]
pub struct SessionModel {
    /// The validated configuration.
    pub config: SetModel,
    /// Which unexpected exits end the session.
    pub policy: ExitPolicy,
    /// Session lifecycle phase.
    pub phase: SessionPhase,
    /// Per-service state, indexed like the descriptors.
    pub status: Seq<ServiceStatus>,
    /// Indices of the spawned services, in actual launch order.
    pub launched: Seq<usize>,
    /// Position in the planned launch order during `Starting`.
    pub cursor: int,
    /// During shutdown: the forced kill of the current target is owed.
    pub kill_pending: bool,
    /// Services still to tear down, latest-launched first.
    pub shutdown_order: Seq<usize>,
    /// Position in `shutdown_order`.
    pub shutdown_cursor: int,
    /// One entry per torn-down service, in teardown order.
    pub report: Seq<ReportEntry>,
    /// A critical service failed to launch or to become ready.
    pub critical_launch_failure: bool,
    /// A critical service exited abnormally while the session ran.
    pub critical_abnormal_exit: bool,
    /// Some service had to be forcibly killed.
    pub forced_kill: bool,
}

/// The service has a live process: spawned and neither exited nor torn down.
pub open spec fn status_live(st: ServiceStatus) -> bool {
    st is Starting || st is Unready || st is Running
}

/// A process was spawned for the service at some point.
pub open spec fn status_spawned(st: ServiceStatus) -> bool {
    status_live(st) || st is Exited || st is Terminated
}

/// Live now, or already handled by the shutdown coordinator.
pub open spec fn status_live_or_done(st: ServiceStatus) -> bool {
    status_live(st) || st is Terminated
}

/// The service finished its startup slot: it ran, failed, or timed out.
pub open spec fn status_processed(st: ServiceStatus) -> bool {
    st is Running || st is Failed || st is Unready
}

/// The elements of `l` whose status passes `keep`, in reverse order of `l`.
pub open spec fn reverse_keep(
    l: Seq<usize>,
    status: Seq<ServiceStatus>,
    keep: spec_fn(ServiceStatus) -> bool,
) -> Seq<usize>
    decreases l.len(),
{
    if l.len() == 0 {
        Seq::empty()
    } else {
        let x = l.last();
        let rest = reverse_keep(l.drop_last(), status, keep);
        if keep(status[x as int]) {
            seq![x] + rest
        } else {
            rest
        }
    }
}

/// The elements of `l` whose status passes `keep`, in the order of `l`.
pub open spec fn keep_in_order(
    l: Seq<usize>,
    status: Seq<ServiceStatus>,
    keep: spec_fn(ServiceStatus) -> bool,
) -> Seq<usize>
    decreases l.len(),
{
    if l.len() == 0 {
        Seq::empty()
    } else {
        let x = l.last();
        let front = keep_in_order(l.drop_last(), status, keep);
        if keep(status[x as int]) {
            front.push(x)
        } else {
            front
        }
    }
}

/// Taking in reverse order is the reverse of taking in order.
pub proof fn lemma_reverse_keep_is_reverse(
    l: Seq<usize>,
    status: Seq<ServiceStatus>,
    keep: spec_fn(ServiceStatus) -> bool,
)
    ensures
        reverse_keep(l, status, keep) =~= keep_in_order(l, status, keep).reverse(),
    decreases l.len(),
{
    if l.len() > 0 {
        lemma_reverse_keep_is_reverse(l.drop_last(), status, keep);
    }
}

/// Statuses that agree on `keep` over the elements of `l` select the same
/// elements.
pub proof fn lemma_reverse_keep_stable(
    l: Seq<usize>,
    st1: Seq<ServiceStatus>,
    st2: Seq<ServiceStatus>,
    keep: spec_fn(ServiceStatus) -> bool,
)
    requires
        forall|p: int|
            0 <= p < l.len() ==> keep(st1[#[trigger] l[p] as int]) == keep(st2[l[p] as int]),
    ensures
        reverse_keep(l, st1, keep) == reverse_keep(l, st2, keep),
    decreases l.len(),
{
    if l.len() > 0 {
        assert(l[l.len() - 1] == l.last());
        lemma_reverse_keep_stable(l.drop_last(), st1, st2, keep);
    }
}

/// What `reverse_keep` selects: exactly the elements of `l` passing `keep`,
/// without duplicates when `l` has none.
pub proof fn lemma_reverse_keep_elements(
    l: Seq<usize>,
    status: Seq<ServiceStatus>,
    keep: spec_fn(ServiceStatus) -> bool,
)
    ensures
        forall|p: int|
            0 <= p < reverse_keep(l, status, keep).len() ==> l.contains(
                #[trigger] reverse_keep(l, status, keep)[p],
            ) && keep(status[reverse_keep(l, status, keep)[p] as int]),
        forall|x: usize|
            l.contains(x) && keep(status[x as int]) ==> reverse_keep(l, status, keep).contains(x),
        l.no_duplicates() ==> reverse_keep(l, status, keep).no_duplicates(),
    decreases l.len(),
{
    let out = reverse_keep(l, status, keep);
    if l.len() > 0 {
        let x = l.last();
        let front = l.drop_last();
        let rest = reverse_keep(front, status, keep);
        lemma_reverse_keep_elements(front, status, keep);
        assert forall|p: int| 0 <= p < out.len() implies l.contains(#[trigger] out[p]) && keep(
            status[out[p] as int],
        ) by {
            if keep(status[x as int]) {
                if p == 0 {
                    assert(out[p] == x);
                    assert(l[l.len() - 1] == x);
                } else {
                    assert(out[p] == rest[p - 1]);
                    assert(front.contains(out[p]));
                    let q = choose|q: int| 0 <= q < front.len() && front[q] == out[p];
                    assert(l[q] == out[p]);
                }
            } else {
                assert(out[p] == rest[p]);
                assert(front.contains(out[p]));
                let q = choose|q: int| 0 <= q < front.len() && front[q] == out[p];
                assert(l[q] == out[p]);
            }
        }
        assert forall|y: usize| l.contains(y) && keep(status[y as int]) implies out.contains(y) by {
            let q = choose|q: int| 0 <= q < l.len() && l[q] == y;
            if q == l.len() - 1 {
                assert(out[0] == y);
            } else {
                assert(front[q] == y);
                assert(front.contains(y));
                assert(rest.contains(y));
                let p = choose|p: int| 0 <= p < rest.len() && rest[p] == y;
                if keep(status[x as int]) {
                    assert(out[p + 1] == y);
                } else {
                    assert(out[p] == y);
                }
            }
        }
        if l.no_duplicates() {
            assert(front.no_duplicates());
            assert forall|p: int, q: int| 0 <= p < q < out.len() implies out[p] != out[q] by {
                if keep(status[x as int]) {
                    if p == 0 {
                        assert(out[q] == rest[q - 1]);
                        assert(front.contains(out[q]));
                        let w = choose|w: int| 0 <= w < front.len() && front[w] == out[q];
                        assert(l[w] == out[q] && l[l.len() - 1] == x && w < l.len() - 1);
                    } else {
                        assert(out[p] == rest[p - 1] && out[q] == rest[q - 1]);
                    }
                } else {
                    assert(out[p] == rest[p] && out[q] == rest[q]);
                }
            }
        }
    }
}

/// Number of services in the session's configuration.
pub open spec fn n_services(m: SessionModel) -> int {
    m.config.descriptors.len() as int
}

/// Whether failure of service `i` must end the session.
pub open spec fn is_critical(m: SessionModel, i: int) -> bool {
    m.config.descriptors[i].critical
}

/// The service whose startup slot the supervisor is working on.
pub open spec fn current_target(m: SessionModel) -> usize {
    m.config.order[m.cursor]
}

/// Every dependency of service `i` is `Running` right now.
pub open spec fn deps_all_running(m: SessionModel, i: int) -> bool {
    forall|k: int|
        0 <= k < m.config.deps[i].len() ==> m.status[#[trigger] m.config.deps[i][k] as int]
            is Running
}

/// A launch outcome is due: the target is pending and its dependencies run.
pub open spec fn fits_launch(m: SessionModel) -> bool {
    &&& 0 <= m.cursor < n_services(m)
    &&& m.status[current_target(m) as int] is Pending
    &&& deps_all_running(m, current_target(m) as int)
}

/// A skip is due: the target is pending and some dependency is unavailable.
pub open spec fn fits_skip(m: SessionModel) -> bool {
    &&& 0 <= m.cursor < n_services(m)
    &&& m.status[current_target(m) as int] is Pending
    &&& !deps_all_running(m, current_target(m) as int)
}

/// A readiness outcome is due: the target was spawned and is being gated.
pub open spec fn fits_ready(m: SessionModel) -> bool {
    &&& 0 <= m.cursor < n_services(m)
    &&& m.status[current_target(m) as int] is Starting
}

/// Close the current startup slot and move on; all slots closed means the
/// session is `Running`.
pub open spec fn advance_cursor(m: SessionModel) -> SessionModel {
    let m2 = SessionModel { cursor: m.cursor + 1, ..m };
    if m2.cursor == n_services(m2) {
        SessionModel { phase: SessionPhase::Running, ..m2 }
    } else {
        m2
    }
}

/// Enter shutdown: plan to tear down every currently live service, in
/// reverse launch order.  With nothing live the session stops at once.
pub open spec fn begin_shutdown(m: SessionModel) -> SessionModel {
    let ord = reverse_keep(m.launched, m.status, |st: ServiceStatus| status_live_or_done(st));
    let m2 = SessionModel {
        phase: SessionPhase::ShuttingDown,
        shutdown_order: ord,
        shutdown_cursor: 0,
        kill_pending: false,
        ..m
    };
    if ord.len() == 0 {
        SessionModel { phase: SessionPhase::Stopped, ..m2 }
    } else {
        m2
    }
}

/// Record the outcome of the current shutdown target and move to the next;
/// after the last one the session is `Stopped`.
pub open spec fn finish_target(m: SessionModel, outcome: TermOutcome) -> SessionModel {
    let t = m.shutdown_order[m.shutdown_cursor];
    let m2 = SessionModel {
        status: m.status.update(t as int, ServiceStatus::Terminated { outcome }),
        report: m.report.push(ReportEntry { service: t, outcome }),
        shutdown_cursor: m.shutdown_cursor + 1,
        kill_pending: false,
        ..m
    };
    if m2.shutdown_cursor == m2.shutdown_order.len() {
        SessionModel { phase: SessionPhase::Stopped, ..m2 }
    } else {
        m2
    }
}

/// How one observed event moves the session.  An event that does not fit
/// the current state is ignored; in particular a shutdown request to a
/// session that is already shutting down or stopped changes nothing.
pub open spec fn step(m: SessionModel, ev: Event) -> SessionModel {
    match ev {
        Event::StartRequested => {
            if m.phase is Idle {
                if n_services(m) == 0 {
                    SessionModel { phase: SessionPhase::Running, ..m }
                } else {
                    SessionModel { phase: SessionPhase::Starting, ..m }
                }
            } else {
                m
            }
        },
        Event::LaunchOk => {
            if m.phase is Starting && fits_launch(m) {
                let t = current_target(m);
                SessionModel {
                    status: m.status.update(t as int, ServiceStatus::Starting),
                    launched: m.launched.push(t),
                    ..m
                }
            } else {
                m
            }
        },
        Event::LaunchErr { error } => {
            if m.phase is Starting && fits_launch(m) {
                let t = current_target(m);
                let m2 = SessionModel {
                    status: m.status.update(
                        t as int,
                        ServiceStatus::Failed { failure: StartFailure::Launch { error } },
                    ),
                    ..m
                };
                if is_critical(m, t as int) {
                    begin_shutdown(SessionModel { critical_launch_failure: true, ..m2 })
                } else {
                    advance_cursor(m2)
                }
            } else {
                m
            }
        },
        Event::DependencyUnavailable => {
            if m.phase is Starting && fits_skip(m) {
                let t = current_target(m);
                let m2 = SessionModel {
                    status: m.status.update(
                        t as int,
                        ServiceStatus::Failed { failure: StartFailure::DependencyUnavailable },
                    ),
                    ..m
                };
                if is_critical(m, t as int) {
                    begin_shutdown(SessionModel { critical_launch_failure: true, ..m2 })
                } else {
                    advance_cursor(m2)
                }
            } else {
                m
            }
        },
        Event::ReadyOk => {
            if m.phase is Starting && fits_ready(m) {
                let t = current_target(m);
                advance_cursor(
                    SessionModel { status: m.status.update(t as int, ServiceStatus::Running), ..m },
                )
            } else {
                m
            }
        },
        Event::ReadyTimeout => {
            if m.phase is Starting && fits_ready(m) {
                let t = current_target(m);
                let m2 = SessionModel {
                    status: m.status.update(t as int, ServiceStatus::Unready),
                    ..m
                };
                if is_critical(m, t as int) {
                    begin_shutdown(SessionModel { critical_launch_failure: true, ..m2 })
                } else {
                    advance_cursor(m2)
                }
            } else {
                m
            }
        },
        Event::ServiceExited { service, code } => {
            if m.phase is Running && service < n_services(m) && m.status[service as int]
                is Running {
                let m2 = SessionModel {
                    status: m.status.update(service as int, ServiceStatus::Exited { code }),
                    critical_abnormal_exit: m.critical_abnormal_exit || (is_critical(
                        m,
                        service as int,
                    ) && code != 0),
                    ..m
                };
                if m.policy is AnyExit || is_critical(m, service as int) {
                    begin_shutdown(m2)
                } else {
                    m2
                }
            } else {
                m
            }
        },
        Event::ShutdownRequested => {
            match m.phase {
                SessionPhase::Idle => SessionModel { phase: SessionPhase::Stopped, ..m },
                SessionPhase::Starting => begin_shutdown(m),
                SessionPhase::Running => begin_shutdown(m),
                SessionPhase::ShuttingDown => m,
                SessionPhase::Stopped => m,
            }
        },
        Event::TermExited { code } => {
            if m.phase is ShuttingDown && !m.kill_pending {
                finish_target(m, TermOutcome::Graceful { code })
            } else {
                m
            }
        },
        Event::TermTimeout => {
            if m.phase is ShuttingDown && !m.kill_pending {
                SessionModel { kill_pending: true, ..m }
            } else {
                m
            }
        },
        Event::Killed => {
            if m.phase is ShuttingDown && m.kill_pending {
                finish_target(SessionModel { forced_kill: true, ..m }, TermOutcome::Forced)
            } else {
                m
            }
        },
    }
}

/// The process exit code the session reports once stopped: `0` clean, `1`
/// critical launch failure, `2` critical abnormal exit, `3` forced kill.
pub open spec fn exit_code_of(m: SessionModel) -> u8 {
    if m.critical_launch_failure {
        1
    } else if m.critical_abnormal_exit {
        2
    } else if m.forced_kill {
        3
    } else {
        0
    }
}

/// What the supervisor asks of the driver in each state.
pub open spec fn next_action_of(m: SessionModel) -> Action {
    match m.phase {
        SessionPhase::Idle => Action::AwaitStart,
        SessionPhase::Starting => {
            let t = current_target(m);
            if m.status[t as int] is Starting {
                Action::AwaitReady { service: t }
            } else if deps_all_running(m, t as int) {
                Action::Launch { service: t }
            } else {
                Action::Skip { service: t }
            }
        },
        SessionPhase::Running => Action::Monitor,
        SessionPhase::ShuttingDown => {
            let t = m.shutdown_order[m.shutdown_cursor];
            if m.kill_pending {
                Action::ForceKill { service: t }
            } else {
                Action::SignalTerm {
                    service: t,
                    grace_ms: m.config.descriptors[t as int].grace_timeout_ms,
                }
            }
        },
        SessionPhase::Stopped => Action::Finished { code: exit_code_of(m) },
    }
}

/// The session has not begun shutting down.
pub open spec fn startup_phase(p: SessionPhase) -> bool {
    p is Idle || p is Starting || p is Running
}

/// The service reached `Running` at some point (and may since have exited
/// or been torn down): what a dependent is allowed to rely on.
pub open spec fn status_reached(st: ServiceStatus) -> bool {
    st is Running || st is Exited || st is Terminated
}

/// Startup bookkeeping: slots before the cursor are settled, the slot at
/// the cursor is pending or gating, slots after it are untouched.
pub open spec fn startup_positions_ok(m: SessionModel) -> bool {
    &&& forall|p: int|
        0 <= p < m.cursor ==> status_processed(
            m.status[#[trigger] m.config.order[p] as int],
        )
    &&& (m.cursor < n_services(m) ==> (m.status[current_target(m) as int] is Pending
        || m.status[current_target(m) as int] is Starting))
    &&& forall|p: int|
        m.cursor < p < n_services(m) ==> m.status[#[trigger] m.config.order[p] as int] is Pending
}

/// Shutdown bookkeeping: the plan lists, in reverse launch order, exactly
/// the services that were live when shutdown began; entries before the
/// shutdown cursor are torn down and reported, entries at and after it are
/// still live.
pub open spec fn shutdown_wf(m: SessionModel) -> bool {
    &&& m.shutdown_order == reverse_keep(
        m.launched,
        m.status,
        |st: ServiceStatus| status_live_or_done(st),
    )
    &&& m.shutdown_order.no_duplicates()
    &&& forall|p: int|
        0 <= p < m.shutdown_order.len() ==> (#[trigger] m.shutdown_order[p]) < n_services(m)
    &&& 0 <= m.shutdown_cursor <= m.shutdown_order.len()
    &&& forall|p: int|
        0 <= p < m.shutdown_cursor ==> m.status[#[trigger] m.shutdown_order[p] as int]
            is Terminated
    &&& forall|p: int|
        m.shutdown_cursor <= p < m.shutdown_order.len() ==> status_live(
            m.status[#[trigger] m.shutdown_order[p] as int],
        )
    &&& m.report.len() == m.shutdown_cursor
    &&& forall|p: int|
        0 <= p < m.report.len() ==> (#[trigger] m.report[p]).service == m.shutdown_order[p]
            && m.status[m.report[p].service as int] == (ServiceStatus::Terminated {
            outcome: m.report[p].outcome,
        })
}

/// The session invariant: established by construction, preserved by every
/// step, and the ground on which the session's laws stand.
pub open spec fn inv(m: SessionModel) -> bool {
    let n = n_services(m);
    &&& set_model_wf(m.config)
    &&& n <= usize::MAX
    &&& m.status.len() == n
    &&& 0 <= m.cursor <= n
    &&& launch_inv(m)
    &&& (m.phase is Idle ==> m.cursor == 0 && m.launched.len() == 0 && (forall|i: int|
        0 <= i < n ==> #[trigger] m.status[i] is Pending))
    &&& (m.phase is Starting ==> m.cursor < n)
    &&& (m.phase is Running ==> m.cursor == n)
    &&& ((m.phase is Idle || m.phase is Starting) ==> startup_positions_ok(m))
    &&& (startup_phase(m.phase) ==> m.shutdown_order.len() == 0 && m.shutdown_cursor == 0
        && m.report.len() == 0 && !m.kill_pending && !m.critical_launch_failure
        && !m.critical_abnormal_exit && !m.forced_kill && (forall|i: int|
        0 <= i < n ==> !(#[trigger] m.status[i] is Terminated)))
    &&& (m.phase is ShuttingDown ==> 0 <= m.shutdown_cursor < m.shutdown_order.len())
    &&& (m.phase is Stopped ==> m.shutdown_cursor == m.shutdown_order.len())
    &&& ((m.phase is ShuttingDown || m.phase is Stopped) ==> shutdown_wf(m))
    &&& (m.kill_pending ==> m.phase is ShuttingDown)
}

/// A fresh session over a validated configuration: idle, nothing spawned.
pub open spec fn init_model(c: SetModel, policy: ExitPolicy) -> SessionModel {
    SessionModel {
        config: c,
        policy,
        phase: SessionPhase::Idle,
        status: Seq::new(c.descriptors.len(), |i: int| ServiceStatus::Pending),
        launched: Seq::empty(),
        cursor: 0,
        kill_pending: false,
        shutdown_order: Seq::empty(),
        shutdown_cursor: 0,
        report: Seq::empty(),
        critical_launch_failure: false,
        critical_abnormal_exit: false,
        forced_kill: false,
    }
}

/// A fresh session satisfies the invariant.
pub proof fn lemma_init_inv(c: SetModel, policy: ExitPolicy)
    requires
        set_model_wf(c),
        c.descriptors.len() <= usize::MAX,
    ensures
        inv(init_model(c, policy)),
{
    let m = init_model(c, policy);
    assert(forall|i: int| 0 <= i < n_services(m) ==> #[trigger] m.status[i] is Pending);
}

/// The launch-tracking half of the invariant, factored out for reuse.
pub open spec fn launch_inv(m: SessionModel) -> bool {
    let n = n_services(m);
    &&& m.launched.no_duplicates()
    &&& forall|p: int| 0 <= p < m.launched.len() ==> (#[trigger] m.launched[p]) < n
    &&& forall|i: int|
        0 <= i < n ==> (status_spawned(#[trigger] m.status[i]) <==> m.launched.contains(
            i as usize,
        ))
    &&& forall|i: int, k: int|
        0 <= i < n && 0 <= k < m.config.deps[i].len() && status_spawned(m.status[i])
            ==> status_reached(m.status[#[trigger] m.config.deps[i][k] as int])
    &&& launched_deps_ordered(m.launched, m.config.deps)
}

/// The launch record respects the graph: every dependency of a spawned
/// service was itself spawned strictly earlier.
pub open spec fn launched_deps_ordered(launched: Seq<usize>, deps: Seq<Seq<usize>>) -> bool {
    forall|p: int, k: int|
        #![trigger deps[launched[p] as int][k]]
        0 <= p < launched.len() && 0 <= k < deps[launched[p] as int].len() ==> launched.take(
            p,
        ).contains(deps[launched[p] as int][k])
}

/// Entering shutdown from any state that has not begun one yields an
/// invariant-satisfying state, whatever the phase was.
proof fn lemma_begin_shutdown_inv(m: SessionModel)
    requires
        set_model_wf(m.config),
        n_services(m) <= usize::MAX,
        m.status.len() == n_services(m),
        0 <= m.cursor <= n_services(m),
        launch_inv(m),
        m.shutdown_order.len() == 0,
        m.shutdown_cursor == 0,
        m.report.len() == 0,
        !m.kill_pending,
        forall|i: int| 0 <= i < n_services(m) ==> !(#[trigger] m.status[i] is Terminated),
    ensures
        inv(begin_shutdown(m)),
{
    let keep = |st: ServiceStatus| status_live_or_done(st);
    let ord = reverse_keep(m.launched, m.status, keep);
    lemma_reverse_keep_elements(m.launched, m.status, keep);
    let m2 = begin_shutdown(m);
    assert forall|p: int| 0 <= p < ord.len() implies (#[trigger] ord[p]) < n_services(m) by {
        assert(m.launched.contains(ord[p]));
        let q = choose|q: int| 0 <= q < m.launched.len() && m.launched[q] == ord[p];
    }
    assert forall|p: int| 0 <= p < ord.len() implies status_live(
        m2.status[#[trigger] ord[p] as int],
    ) by {
        assert(m.launched.contains(ord[p]) && keep(m.status[ord[p] as int]));
        let q = choose|q: int| 0 <= q < m.launched.len() && m.launched[q] == ord[p];
    }
}

/// The session invariant is preserved by every step on every event.
pub proof fn lemma_step_preserves_inv(m: SessionModel, ev: Event)
    requires
        inv(m),
    ensures
        inv(step(m, ev)),
{
    let n = n_services(m);
    let m2 = step(m, ev);
    match ev {
        Event::StartRequested => {},
        Event::LaunchOk => {
            if m.phase is Starting && fits_launch(m) {
                let t = current_target(m);
                assert(!m.launched.contains(t));
                assert forall|i: int| 0 <= i < n implies (status_spawned(#[trigger] m2.status[i])
                    <==> m2.launched.contains(i as usize)) by {
                    if i == t as int {
                        assert(i as usize == t);
                        assert(m2.launched[m2.launched.len() - 1] == t);
                    } else {
                        assert(m2.status[i] == m.status[i]);
                        if m2.launched.contains(i as usize) {
                            let p = choose|p: int|
                                0 <= p < m2.launched.len() && m2.launched[p] == i as usize;
                            if p == m2.launched.len() - 1 {
                                assert(m2.launched[p] == t);
                            } else {
                                assert(m.launched[p] == i as usize);
                            }
                        }
                        if m.launched.contains(i as usize) {
                            let p = choose|p: int|
                                0 <= p < m.launched.len() && m.launched[p] == i as usize;
                            assert(m2.launched[p] == i as usize);
                        }
                    }
                }
                assert(m2.launched.no_duplicates()) by {
                    assert forall|p: int, q: int|
                        0 <= p < q < m2.launched.len() implies m2.launched[p] != m2.launched[q] by {
                        if q == m2.launched.len() - 1 {
                            assert(m2.launched[p] == m.launched[p]);
                            assert(m.launched.contains(m.launched[p]));
                        }
                    }
                }
                assert forall|i: int, k: int|
                    0 <= i < n && 0 <= k < m.config.deps[i].len() && status_spawned(m2.status[i])
                        implies status_reached(
                    m2.status[#[trigger] m.config.deps[i][k] as int],
                ) by {
                    let d = m.config.deps[i][k] as int;
                    if i == t as int {
                        assert(m.status[d] is Running);
                        assert(d != t as int);
                    } else {
                        assert(status_spawned(m.status[i]));
                        assert(status_reached(m.status[d]));
                        assert(d != t as int);
                    }
                }
                assert(launched_deps_ordered(m2.launched, m.config.deps)) by {
                    assert forall|p: int, k: int|
                        #![trigger m.config.deps[m2.launched[p] as int][k]]
                        0 <= p < m2.launched.len() && 0 <= k
                            < m.config.deps[m2.launched[p] as int].len() implies m2.launched.take(
                        p,
                    ).contains(m.config.deps[m2.launched[p] as int][k]) by {
                        if p < m.launched.len() {
                            assert(m2.launched[p] == m.launched[p]);
                            let d = m.config.deps[m.launched[p] as int][k];
                            assert(m.launched.take(p).contains(d));
                            assert(m2.launched.take(p) =~= m.launched.take(p));
                        } else {
                            assert(m2.launched[p] == t);
                            let d = m.config.deps[t as int][k];
                            assert(m.status[d as int] is Running);
                            assert(status_spawned(m.status[d as int]));
                            assert(m.launched.contains(d));
                            assert(m2.launched.take(p) =~= m.launched);
                        }
                    }
                }
            }
        },
        Event::LaunchErr { error } => {
            if m.phase is Starting && fits_launch(m) {
                let t = current_target(m);
                let m1 = SessionModel {
                    status: m.status.update(
                        t as int,
                        ServiceStatus::Failed { failure: StartFailure::Launch { error } },
                    ),
                    ..m
                };
                lemma_failed_slot_keeps_launch_inv(m, m1, t);
                if is_critical(m, t as int) {
                    lemma_begin_shutdown_inv(
                        SessionModel { critical_launch_failure: true, ..m1 },
                    );
                }
            }
        },
        Event::DependencyUnavailable => {
            if m.phase is Starting && fits_skip(m) {
                let t = current_target(m);
                let m1 = SessionModel {
                    status: m.status.update(
                        t as int,
                        ServiceStatus::Failed { failure: StartFailure::DependencyUnavailable },
                    ),
                    ..m
                };
                lemma_failed_slot_keeps_launch_inv(m, m1, t);
                if is_critical(m, t as int) {
                    lemma_begin_shutdown_inv(
                        SessionModel { critical_launch_failure: true, ..m1 },
                    );
                }
            }
        },
        Event::ReadyOk => {
            if m.phase is Starting && fits_ready(m) {
                let t = current_target(m);
                let m1 = SessionModel {
                    status: m.status.update(t as int, ServiceStatus::Running),
                    ..m
                };
                lemma_settled_slot_keeps_launch_inv(m, m1, t);
            }
        },
        Event::ReadyTimeout => {
            if m.phase is Starting && fits_ready(m) {
                let t = current_target(m);
                let m1 = SessionModel {
                    status: m.status.update(t as int, ServiceStatus::Unready),
                    ..m
                };
                lemma_settled_slot_keeps_launch_inv(m, m1, t);
                if is_critical(m, t as int) {
                    lemma_begin_shutdown_inv(
                        SessionModel { critical_launch_failure: true, ..m1 },
                    );
                }
            }
        },
        Event::ServiceExited { service, code } => {
            if m.phase is Running && service < n && m.status[service as int] is Running {
                let m1 = SessionModel {
                    status: m.status.update(service as int, ServiceStatus::Exited { code }),
                    critical_abnormal_exit: m.critical_abnormal_exit || (is_critical(
                        m,
                        service as int,
                    ) && code != 0),
                    ..m
                };
                lemma_settled_slot_keeps_launch_inv(m, m1, service);
                if m.policy is AnyExit || is_critical(m, service as int) {
                    lemma_begin_shutdown_inv(m1);
                }
            }
        },
        Event::ShutdownRequested => {
            match m.phase {
                SessionPhase::Idle => {
                    let keep = |st: ServiceStatus| status_live_or_done(st);
                    assert(m2.shutdown_order =~= reverse_keep(m2.launched, m2.status, keep));
                },
                SessionPhase::Starting => {
                    lemma_begin_shutdown_inv(m);
                },
                SessionPhase::Running => {
                    lemma_begin_shutdown_inv(m);
                },
                SessionPhase::ShuttingDown => {},
                SessionPhase::Stopped => {},
            }
        },
        Event::TermExited { code } => {
            if m.phase is ShuttingDown && !m.kill_pending {
                lemma_finish_target_inv(m, TermOutcome::Graceful { code });
            }
        },
        Event::TermTimeout => {},
        Event::Killed => {
            if m.phase is ShuttingDown && m.kill_pending {
                lemma_finish_target_inv(SessionModel { forced_kill: true, ..m }, TermOutcome::Forced);
            }
        },
    }
}

/// Marking the pending slot at the cursor as failed — nothing was spawned —
/// keeps the launch bookkeeping intact.
proof fn lemma_failed_slot_keeps_launch_inv(m: SessionModel, m1: SessionModel, t: usize)
    requires
        inv(m),
        m.phase is Starting,
        (t as int) < n_services(m),
        m.status[t as int] is Pending,
        m1 == (SessionModel { status: m.status.update(t as int, m1.status[t as int]), ..m }),
        m1.status[t as int] is Failed,
    ensures
        launch_inv(m1),
        forall|i: int| 0 <= i < n_services(m) ==> !(#[trigger] m1.status[i] is Terminated),
{
    let n = n_services(m);
    assert(!m.launched.contains(t));
    assert forall|i: int| 0 <= i < n implies (status_spawned(#[trigger] m1.status[i])
        <==> m1.launched.contains(i as usize)) by {
        if i != t as int {
            assert(m1.status[i] == m.status[i]);
        }
    }
    assert forall|i: int, k: int|
        0 <= i < n && 0 <= k < m.config.deps[i].len() && status_spawned(m1.status[i])
            implies status_reached(m1.status[#[trigger] m.config.deps[i][k] as int]) by {
        let d = m.config.deps[i][k] as int;
        assert(i != t as int);
        assert(status_spawned(m.status[i]));
        assert(status_reached(m.status[d]));
        assert(d != t as int);
    }
}

/// Moving a spawned service between spawned statuses (ready, unready,
/// exited) keeps the launch bookkeeping intact.
proof fn lemma_settled_slot_keeps_launch_inv(m: SessionModel, m1: SessionModel, t: usize)
    requires
        inv(m),
        (t as int) < n_services(m),
        status_spawned(m.status[t as int]),
        m1 == (SessionModel {
            status: m.status.update(t as int, m1.status[t as int]),
            critical_abnormal_exit: m1.critical_abnormal_exit,
            ..m
        }),
        status_spawned(m1.status[t as int]),
        status_reached(m.status[t as int]) ==> status_reached(m1.status[t as int]),
        !(m1.status[t as int] is Terminated),
    ensures
        launch_inv(m1),
        forall|i: int|
            0 <= i < n_services(m) && !(#[trigger] m.status[i] is Terminated) ==> !(m1.status[i]
                is Terminated),
{
    let n = n_services(m);
    assert forall|i: int| 0 <= i < n implies (status_spawned(#[trigger] m1.status[i])
        <==> m1.launched.contains(i as usize)) by {
        if i != t as int {
            assert(m1.status[i] == m.status[i]);
        } else {
            assert(status_spawned(m.status[t as int]));
        }
    }
    assert forall|i: int, k: int|
        0 <= i < n && 0 <= k < m.config.deps[i].len() && status_spawned(m1.status[i])
            implies status_reached(m1.status[#[trigger] m.config.deps[i][k] as int]) by {
        let d = m.config.deps[i][k] as int;
        if i == t as int {
            assert(status_spawned(m.status[i]));
        } else {
            assert(status_spawned(m.status[i]));
        }
        assert(status_reached(m.status[d]));
    }
}

/// Recording the current shutdown target's outcome preserves the invariant.
proof fn lemma_finish_target_inv(m: SessionModel, outcome: TermOutcome)
    requires
        m.phase is ShuttingDown,
        set_model_wf(m.config),
        n_services(m) <= usize::MAX,
        m.status.len() == n_services(m),
        0 <= m.cursor <= n_services(m),
        launch_inv(m),
        shutdown_wf(m),
        0 <= m.shutdown_cursor < m.shutdown_order.len(),
    ensures
        inv(finish_target(m, outcome)),
{
    let n = n_services(m);
    let keep = |st: ServiceStatus| status_live_or_done(st);
    let t = m.shutdown_order[m.shutdown_cursor];
    let m2 = finish_target(m, outcome);
    assert(status_live(m.status[t as int]));
    lemma_reverse_keep_stable(m.launched, m.status, m2.status, keep);
    assert forall|i: int| 0 <= i < n implies (status_spawned(#[trigger] m2.status[i])
        <==> m2.launched.contains(i as usize)) by {
        if i != t as int {
            assert(m2.status[i] == m.status[i]);
        } else {
            assert(status_spawned(m.status[t as int]));
        }
    }
    assert forall|i: int, k: int|
        0 <= i < n && 0 <= k < m.config.deps[i].len() && status_spawned(m2.status[i])
            implies status_reached(m2.status[#[trigger] m.config.deps[i][k] as int]) by {
        let d = m.config.deps[i][k] as int;
        assert(status_spawned(m.status[i]));
        assert(status_reached(m.status[d]));
    }
    assert forall|p: int| 0 <= p < m2.shutdown_cursor implies m2.status[#[trigger] m2.shutdown_order[p] as int]
        is Terminated by {
        if p < m.shutdown_cursor {
            assert(m.status[m.shutdown_order[p] as int] is Terminated);
            assert(m.shutdown_order[p] != t);
        }
    }
    assert forall|p: int|
        m2.shutdown_cursor <= p < m2.shutdown_order.len() implies status_live(
        m2.status[#[trigger] m2.shutdown_order[p] as int],
    ) by {
        assert(status_live(m.status[m.shutdown_order[p] as int]));
        assert(m.shutdown_order[p] != t);
    }
    assert forall|p: int| 0 <= p < m2.report.len() implies (#[trigger] m2.report[p]).service
        == m2.shutdown_order[p] && m2.status[m2.report[p].service as int]
        == (ServiceStatus::Terminated { outcome: m2.report[p].outcome }) by {
        if p < m.report.len() {
            assert(m2.report[p] == m.report[p]);
            assert(m.shutdown_order[p] != t);
        } else {
            assert(m2.report[p] == (ReportEntry { service: t, outcome }));
        }
    }
}

} // verus!
