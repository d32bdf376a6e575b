//! The supervisor's guarantees, stated and proved over the model.
//!
//! Since [`crate::supervisor::Session::apply`] refines [`step`], each law
//! here holds of the running supervisor as well.

use vstd::prelude::*;
use crate::config::set_model_wf;
use crate::config::SetModel;
use crate::model::Action;
use crate::model::Event;
use crate::model::ServiceStatus;
use crate::model::SessionModel;
use crate::model::deps_all_running;
use crate::model::exit_code_of;
use crate::model::inv;
use crate::model::is_critical;
use crate::model::keep_in_order;
use crate::model::lemma_reverse_keep_elements;
use crate::model::lemma_reverse_keep_is_reverse;
use crate::model::lemma_step_preserves_inv;
use crate::model::n_services;
use crate::model::next_action_of;
use crate::model::status_live;
use crate::model::status_live_or_done;
use crate::model::status_reached;
use crate::model::status_spawned;
use crate::model::step;
use crate::order::valid_complete_order;

verus! {

/// The planned launch order of a validated descriptor set is a complete
/// valid topological order of its dependency graph: every service appears
/// exactly once, after all of its dependencies.
pub proof fn lemma_launch_plan_is_topological(c: SetModel)
    requires
        set_model_wf(c),
    ensures
        valid_complete_order(c.deps, c.order),
{
}

/// A service is launched only while every one of its dependencies is
/// `Running`; and at every instant, a spawned service's dependencies have
/// at least reached `Running` (they may since have exited or been torn
/// down, but were running when the dependent was spawned).
pub proof fn lemma_no_launch_before_dependencies_run(m: SessionModel)
    requires
        inv(m),
    ensures
        forall|t: usize|
            next_action_of(m) == (Action::Launch { service: t }) ==> deps_all_running(
                m,
                t as int,
            ),
        forall|i: int, k: int|
            0 <= i < n_services(m) && 0 <= k < m.config.deps[i].len() && status_spawned(
                m.status[i],
            ) ==> status_reached(m.status[#[trigger] m.config.deps[i][k] as int]),
{
}

/// The actual launch record is itself a dependency-respecting order: every
/// dependency of a spawned service was spawned strictly earlier.
pub proof fn lemma_actual_launch_order_respects_dependencies(m: SessionModel)
    requires
        inv(m),
    ensures
        crate::model::launched_deps_ordered(m.launched, m.config.deps),
{
}

/// Once shutdown has begun, its plan is exactly the reverse of the actual
/// launch order, restricted to the services that were live when it began
/// (each of which is, by now, either still live or already torn down).
pub proof fn lemma_shutdown_reverses_launch_order(m: SessionModel)
    requires
        inv(m),
        m.phase is ShuttingDown || m.phase is Stopped,
    ensures
        m.shutdown_order == keep_in_order(
            m.launched,
            m.status,
            |st: ServiceStatus| status_live_or_done(st),
        ).reverse(),
{
    lemma_reverse_keep_is_reverse(m.launched, m.status, |st: ServiceStatus| status_live_or_done(st));
}

/// Shutdown is idempotent: a stopped session ignores every further event —
/// a second shutdown request in particular — its report never grows, and
/// the only thing it asks of the driver is to exit.
pub proof fn lemma_shutdown_idempotent(m: SessionModel, ev: Event)
    requires
        inv(m),
        m.phase is Stopped,
    ensures
        step(m, ev) == m,
        next_action_of(m) == (Action::Finished { code: exit_code_of(m) }),
{
}

/// A shutdown request reaching a session that is already shutting down or
/// stopped changes nothing: no plan is rebuilt, no service is signalled
/// twice.
pub proof fn lemma_second_shutdown_request_is_noop(m: SessionModel)
    requires
        inv(m),
        m.phase is ShuttingDown || m.phase is Stopped,
    ensures
        step(m, Event::ShutdownRequested) == m,
{
}

/// If a critical service exits while the session is `Running`, one step
/// puts the session into shutdown, and every other service that is live at
/// that moment is in the shutdown plan, so each will receive a termination
/// request.  (With nothing else live, the session stops at once.)
pub proof fn lemma_critical_exit_triggers_full_shutdown(m: SessionModel, s: usize, code: i32)
    requires
        inv(m),
        m.phase is Running,
        (s as int) < n_services(m),
        m.status[s as int] is Running,
        is_critical(m, s as int),
    ensures
        step(m, Event::ServiceExited { service: s, code }).phase is ShuttingDown || step(
            m,
            Event::ServiceExited { service: s, code },
        ).phase is Stopped,
        forall|i: int|
            0 <= i < n_services(m) && i != s && status_live(#[trigger] m.status[i]) ==> step(
                m,
                Event::ServiceExited { service: s, code },
            ).shutdown_order.contains(i as usize),
        code != 0 ==> exit_code_of(step(m, Event::ServiceExited { service: s, code })) == 2,
{
    let ev = Event::ServiceExited { service: s, code };
    let m2 = step(m, ev);
    let keep = |st: ServiceStatus| status_live_or_done(st);
    let m1 = SessionModel {
        status: m.status.update(s as int, ServiceStatus::Exited { code }),
        critical_abnormal_exit: m.critical_abnormal_exit || (is_critical(m, s as int) && code
            != 0),
        ..m
    };
    lemma_reverse_keep_elements(m1.launched, m1.status, keep);
    assert forall|i: int|
        0 <= i < n_services(m) && i != s && status_live(#[trigger] m.status[i]) implies m2
        .shutdown_order.contains(i as usize) by {
        assert(status_spawned(m.status[i]));
        assert(m.launched.contains(i as usize));
        assert(m1.status[i] == m.status[i]);
        assert(keep(m1.status[i as usize as int]));
    }
}

/// The startup events: outcomes of launching, gating and skipping.
pub open spec fn startup_event(ev: Event) -> bool {
    ||| ev is LaunchOk
    ||| ev is LaunchErr
    ||| ev is ReadyOk
    ||| ev is ReadyTimeout
    ||| ev is DependencyUnavailable
}

/// The service lost its chance to run: its launch failed, it was skipped,
/// or its readiness gate timed out.
pub open spec fn startup_casualty(st: ServiceStatus) -> bool {
    st is Failed || st is Unready
}

/// A startup step that makes no critical service a casualty.
pub open spec fn benign_step(m: SessionModel, ev: Event) -> bool {
    &&& startup_event(ev)
    &&& forall|i: int|
        0 <= i < n_services(m) && is_critical(m, i) ==> !startup_casualty(
            #[trigger] step(m, ev).status[i],
        )
}

/// The state after feeding a sequence of events, first one first.
pub open spec fn run(m: SessionModel, evs: Seq<Event>) -> SessionModel
    decreases evs.len(),
{
    if evs.len() == 0 {
        m
    } else {
        run(step(m, evs[0]), evs.skip(1))
    }
}

/// Every step of the run is benign.
pub open spec fn benign_run(m: SessionModel, evs: Seq<Event>) -> bool
    decreases evs.len(),
{
    evs.len() == 0 || (benign_step(m, evs[0]) && benign_run(step(m, evs[0]), evs.skip(1)))
}

/// Launch failures of non-critical services do not end the session: under
/// any sequence of startup outcomes whose casualties are all non-critical,
/// the session stays in `Starting` or `Running` — it never begins shutting
/// down — and every service already `Running` is still `Running`.
pub proof fn lemma_noncritical_failures_never_end_session(m: SessionModel, evs: Seq<Event>)
    requires
        inv(m),
        m.phase is Starting || m.phase is Running,
        benign_run(m, evs),
    ensures
        run(m, evs).phase is Starting || run(m, evs).phase is Running,
        forall|i: int|
            0 <= i < n_services(m) && #[trigger] m.status[i] is Running ==> run(
                m,
                evs,
            ).status[i] is Running,
        inv(run(m, evs)),
    decreases evs.len(),
{
    if evs.len() == 0 {
    } else {
        let ev = evs[0];
        let m1 = step(m, ev);
        lemma_step_preserves_inv(m, ev);
        if m.phase is Starting {
            let t = crate::model::current_target(m);
            if (m1.phase is ShuttingDown || m1.phase is Stopped) {
                assert(is_critical(m, t as int));
                assert(startup_casualty(m1.status[t as int]));
                assert(false);
            }
        }
        lemma_noncritical_failures_never_end_session(m1, evs.skip(1));
        assert forall|i: int|
            0 <= i < n_services(m) && #[trigger] m.status[i] is Running implies run(
            m,
            evs,
        ).status[i] is Running by {
            assert(m1.status[i] is Running);
        }
    }
}

/// Launch failures of non-critical services leave the session able to
/// finish starting: from any startup state whose casualties are all
/// non-critical — provided critical services depend only on critical
/// services, so no critical service is doomed by a non-critical loss —
/// some sequence of benign startup outcomes brings the session to
/// `Running`, with every critical service unharmed.
pub proof fn lemma_startup_completes_despite_noncritical_failures(m: SessionModel) -> (evs: Seq<
    Event,
>)
    requires
        inv(m),
        m.phase is Starting || m.phase is Running,
        forall|i: int, k: int|
            0 <= i < n_services(m) && 0 <= k < m.config.deps[i].len() && is_critical(m, i)
                ==> is_critical(m, #[trigger] m.config.deps[i][k] as int),
        forall|i: int|
            0 <= i < n_services(m) && is_critical(m, i) ==> !startup_casualty(
                #[trigger] m.status[i],
            ),
    ensures
        benign_run(m, evs),
        run(m, evs).phase is Running,
        forall|i: int|
            0 <= i < n_services(m) && is_critical(m, i) ==> !startup_casualty(
                #[trigger] run(m, evs).status[i],
            ),
    decreases 3 * (n_services(m) - m.cursor) - (if crate::model::fits_ready(m) {
        1int
    } else {
        0int
    }),
{
    if m.phase is Running {
        let evs = Seq::<Event>::empty();
        evs
    } else {
        let n = n_services(m);
        let t = crate::model::current_target(m);
        let ev = if m.status[t as int] is Starting {
            Event::ReadyOk
        } else if crate::model::deps_all_running(m, t as int) {
            Event::LaunchOk
        } else {
            // Some dependency of `t` is not running.  Every dependency sits
            // before the cursor, hence is settled; a critical dependency is
            // not a casualty, so it would be running.  A critical `t` has
            // only critical dependencies, so `t` must be non-critical and
            // skipping it is benign.
            assert(!is_critical(m, t as int)) by {
                if is_critical(m, t as int) {
                    assert forall|k: int|
                        0 <= k < m.config.deps[t as int].len() implies m.status[#[trigger] m
                        .config
                        .deps[t as int][k] as int] is Running by {
                        let d = m.config.deps[t as int][k];
                        assert(m.config.order.take(m.cursor).contains(d));
                        let q = choose|q: int|
                            0 <= q < m.cursor && m.config.order.take(m.cursor)[q] == d;
                        assert(m.config.order[q] == d);
                        assert(crate::model::status_processed(m.status[d as int]));
                        assert(is_critical(m, d as int));
                        assert(!startup_casualty(m.status[d as int]));
                    }
                }
            }
            Event::DependencyUnavailable
        };
        let m1 = step(m, ev);
        lemma_step_preserves_inv(m, ev);
        assert(benign_step(m, ev)) by {
            assert forall|i: int| 0 <= i < n && is_critical(m, i) implies !startup_casualty(
                #[trigger] m1.status[i],
            ) by {
                if i != t as int {
                    assert(m1.status[i] == m.status[i]);
                }
            }
        }
        let rest = lemma_startup_completes_despite_noncritical_failures(m1);
        let evs = seq![ev] + rest;
        assert(evs[0] == ev);
        assert(evs.skip(1) =~= rest);
        evs
    }
}

/// A service that ignores the graceful signal past its grace period is
/// escalated: the supervisor's next request is a forced kill, and once the
/// kill is done the session records it, so a clean session ends with exit
/// code `3`.
pub proof fn lemma_grace_timeout_escalates_to_kill(m: SessionModel)
    requires
        inv(m),
        m.phase is ShuttingDown,
        !m.kill_pending,
    ensures
        next_action_of(step(m, Event::TermTimeout)) == (Action::ForceKill {
            service: m.shutdown_order[m.shutdown_cursor],
        }),
        step(step(m, Event::TermTimeout), Event::Killed).forced_kill,
        !m.critical_launch_failure && !m.critical_abnormal_exit ==> exit_code_of(
            step(step(m, Event::TermTimeout), Event::Killed),
        ) == 3,
{
}

} // verus!

