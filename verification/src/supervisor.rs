//! The executable session supervisor.
//!
//! [`Session`] owns all per-service state.  A driver loop outside the crate
//! asks [`Session::next_action`] what to do, performs the spawn, wait,
//! signal or kill, and reports what it observed through [`Session::apply`].
//! `apply` is proved to refine [`crate::model::step`], so the running
//! supervisor inherits every property of the model: launches respect the
//! dependency order, shutdown walks the live services in reverse launch
//! order, and a stopped session never changes again.

use vstd::prelude::*;
use crate::config::DescriptorSet;
use crate::model::Action;
use crate::model::Event;
use crate::model::ExitPolicy;
use crate::model::ReportEntry;
use crate::model::ServiceStatus;
use crate::model::SessionModel;
use crate::model::SessionPhase;
use crate::model::StartFailure;
use crate::model::TermOutcome;
use crate::model::begin_shutdown;
use crate::model::deps_all_running;
use crate::model::exit_code_of;
use crate::model::finish_target;
use crate::model::init_model;
use crate::model::inv;
use crate::model::lemma_init_inv;
use crate::model::lemma_step_preserves_inv;
use crate::model::n_services;
use crate::model::next_action_of;
use crate::model::reverse_keep;
use crate::model::status_live_or_done;
use crate::model::step;

verus! {

/// A session supervisor: the one owner of all service state.
pub struct Session {
    config: DescriptorSet,
    policy: ExitPolicy,
    phase: SessionPhase,
    status: Vec<ServiceStatus>,
    launched: Vec<usize>,
    cursor: usize,
    kill_pending: bool,
    shutdown_order: Vec<usize>,
    shutdown_cursor: usize,
    report: Vec<ReportEntry>,
    critical_launch_failure: bool,
    critical_abnormal_exit: bool,
    forced_kill: bool,
}

impl View for Session {
    type V = SessionModel;

    closed spec fn view(&self) -> SessionModel {
        SessionModel {
            config: self.config@,
            policy: self.policy,
            phase: self.phase,
            status: self.status@,
            launched: self.launched@,
            cursor: self.cursor as int,
            kill_pending: self.kill_pending,
            shutdown_order: self.shutdown_order@,
            shutdown_cursor: self.shutdown_cursor as int,
            report: self.report@,
            critical_launch_failure: self.critical_launch_failure,
            critical_abnormal_exit: self.critical_abnormal_exit,
            forced_kill: self.forced_kill,
        }
    }
}

impl Session {
    /// The session invariant, stated over the model.
    pub open spec fn wf(&self) -> bool {
        inv(self@)
    }

    /// A fresh, idle session over a validated descriptor set.
    pub fn new(config: DescriptorSet, policy: ExitPolicy) -> (s: Session)
        ensures
            s@ == init_model(config@, policy),
            s.wf(),
    {
        proof {
            use_type_invariant(&config);
        }
        let n = config.len();
        let mut status: Vec<ServiceStatus> = Vec::new();
        let mut i: usize = 0;
        while i < n
            invariant
                i <= n,
                status@.len() == i,
                forall|j: int| 0 <= j < i ==> #[trigger] status@[j] is Pending,
            decreases n - i,
        {
            status.push(ServiceStatus::Pending);
            i = i + 1;
        }
        let s = Session {
            config,
            policy,
            phase: SessionPhase::Idle,
            status,
            launched: Vec::new(),
            cursor: 0,
            kill_pending: false,
            shutdown_order: Vec::new(),
            shutdown_cursor: 0,
            report: Vec::new(),
            critical_launch_failure: false,
            critical_abnormal_exit: false,
            forced_kill: false,
        };
        proof {
            assert(s@ =~~= init_model(s.config@, policy));
            lemma_init_inv(s.config@, policy);
        }
        s
    }

    /// Every dependency of service `t` is `Running` right now.
    fn deps_running(&self, t: usize) -> (r: bool)
        requires
            self.wf(),
            (t as int) < n_services(self@),
        ensures
            r == deps_all_running(self@, t as int),
    {
        let ds = self.config.deps_of(t);
        let mut k: usize = 0;
        let m = ds.len();
        while k < m
            invariant
                k <= m,
                m == self@.config.deps[t as int].len(),
                ds@ == self@.config.deps[t as int],
                self@.status.len() == n_services(self@),
                forall|p: int| 0 <= p < m ==> (#[trigger] ds@[p]) < n_services(self@),
                forall|q: int| 0 <= q < k ==> self@.status[#[trigger] ds@[q] as int] is Running,
            decreases m - k,
        {
            let d = ds[k];
            if !(matches!(self.status[d], ServiceStatus::Running)) {
                assert(!(self@.status[ds@[k as int] as int] is Running));
                return false;
            }
            k = k + 1;
        }
        true
    }

    /// Plan the teardown and enter shutdown (or stop at once when nothing
    /// is live): the executable form of [`begin_shutdown`].
    fn enter_shutdown(&mut self)
        requires
            forall|p: int|
                0 <= p < old(self)@.launched.len() ==> (#[trigger] old(self)@.launched[p] as int)
                    < old(self)@.status.len(),
        ensures
            final(self)@ == begin_shutdown(old(self)@),
    {
        let ghost keep = |st: ServiceStatus| status_live_or_done(st);
        let ghost l = self.launched@;
        let ghost st = self.status@;
        let mut ord: Vec<usize> = Vec::new();
        let mut k: usize = 0;
        let len = self.launched.len();
        while k < len
            invariant
                k <= len,
                len == l.len(),
                keep == (|st: ServiceStatus| status_live_or_done(st)),
                self.launched@ == l,
                self.status@ == st,
                forall|p: int| 0 <= p < l.len() ==> (#[trigger] l[p] as int) < st.len(),
                ord@ == reverse_keep(l.take(k as int), st, keep),
            decreases len - k,
        {
            let x = self.launched[k];
            let retained = match self.status[x] {
                ServiceStatus::Starting => true,
                ServiceStatus::Unready => true,
                ServiceStatus::Running => true,
                ServiceStatus::Terminated { .. } => true,
                _ => false,
            };
            proof {
                assert(retained == keep(st[x as int]));
                assert(l.take(k + 1).drop_last() =~= l.take(k as int));
                assert(l.take(k + 1).last() == l[k as int]);
            }
            if retained {
                ord.insert(0, x);
                proof {
                    assert(ord@ =~= reverse_keep(l.take(k + 1), st, keep));
                }
            } else {
                proof {
                    assert(ord@ =~= reverse_keep(l.take(k + 1), st, keep));
                }
            }
            k = k + 1;
        }
        proof {
            assert(l.take(len as int) =~= l);
        }
        self.shutdown_order = ord;
        self.shutdown_cursor = 0;
        self.kill_pending = false;
        if self.shutdown_order.len() == 0 {
            self.phase = SessionPhase::Stopped;
        } else {
            self.phase = SessionPhase::ShuttingDown;
        }
        proof {
            assert(self@ =~~= begin_shutdown(old(self)@));
        }
    }

    /// Record the current shutdown target's outcome and move to the next:
    /// the executable form of [`finish_target`].
    fn close_target(&mut self, outcome: TermOutcome)
        requires
            old(self).wf(),
            old(self)@.phase is ShuttingDown,
        ensures
            final(self)@ == finish_target(old(self)@, outcome),
    {
        let t = self.shutdown_order[self.shutdown_cursor];
        let len = self.shutdown_order.len();
        self.status.set(t, ServiceStatus::Terminated { outcome });
        self.report.push(ReportEntry { service: t, outcome });
        self.shutdown_cursor = self.shutdown_cursor + 1;
        self.kill_pending = false;
        if self.shutdown_cursor == len {
            self.phase = SessionPhase::Stopped;
        }
        proof {
            assert(self@ =~~= finish_target(old(self)@, outcome));
        }
    }

    /// Feed one observed event to the supervisor.  The new state is exactly
    /// [`step`] of the old state, so an event that does not fit the current
    /// state — in particular a second shutdown request — changes nothing.
    pub fn apply(&mut self, ev: Event)
        requires
            old(self).wf(),
        ensures
            final(self)@ == step(old(self)@, ev),
            final(self).wf(),
    {
        proof {
            lemma_step_preserves_inv(old(self)@, ev);
        }
        match ev {
            Event::StartRequested => {
                if matches!(self.phase, SessionPhase::Idle) {
                    if self.config.len() == 0 {
                        self.phase = SessionPhase::Running;
                    } else {
                        self.phase = SessionPhase::Starting;
                    }
                }
                proof {
                    assert(self@ =~~= step(old(self)@, ev));
                }
            },
            Event::LaunchOk => {
                if matches!(self.phase, SessionPhase::Starting) {
                    let t = self.config.launch_order()[self.cursor];
                    if matches!(self.status[t], ServiceStatus::Pending) && self.deps_running(t) {
                        self.status.set(t, ServiceStatus::Starting);
                        self.launched.push(t);
                    }
                }
                proof {
                    assert(self@ =~~= step(old(self)@, ev));
                }
            },
            Event::LaunchErr { error } => {
                if matches!(self.phase, SessionPhase::Starting) {
                    let t = self.config.launch_order()[self.cursor];
                    if matches!(self.status[t], ServiceStatus::Pending) && self.deps_running(t) {
                        self.status.set(
                            t,
                            ServiceStatus::Failed { failure: StartFailure::Launch { error } },
                        );
                        self.settle_failed_slot(t);
                    }
                }
                proof {
                    assert(self@ =~~= step(old(self)@, ev));
                }
            },
            Event::DependencyUnavailable => {
                if matches!(self.phase, SessionPhase::Starting) {
                    let t = self.config.launch_order()[self.cursor];
                    if matches!(self.status[t], ServiceStatus::Pending) && !self.deps_running(t) {
                        self.status.set(
                            t,
                            ServiceStatus::Failed {
                                failure: StartFailure::DependencyUnavailable,
                            },
                        );
                        self.settle_failed_slot(t);
                    }
                }
                proof {
                    assert(self@ =~~= step(old(self)@, ev));
                }
            },
            Event::ReadyOk => {
                if matches!(self.phase, SessionPhase::Starting) {
                    let t = self.config.launch_order()[self.cursor];
                    if matches!(self.status[t], ServiceStatus::Starting) {
                        self.status.set(t, ServiceStatus::Running);
                        self.advance_slot();
                    }
                }
                proof {
                    assert(self@ =~~= step(old(self)@, ev));
                }
            },
            Event::ReadyTimeout => {
                if matches!(self.phase, SessionPhase::Starting) {
                    let t = self.config.launch_order()[self.cursor];
                    if matches!(self.status[t], ServiceStatus::Starting) {
                        self.status.set(t, ServiceStatus::Unready);
                        self.settle_failed_slot(t);
                    }
                }
                proof {
                    assert(self@ =~~= step(old(self)@, ev));
                }
            },
            Event::ServiceExited { service, code } => {
                if matches!(self.phase, SessionPhase::Running) && service < self.config.len() {
                    if matches!(self.status[service], ServiceStatus::Running) {
                        let critical = self.config.descriptors()[service].critical;
                        self.status.set(service, ServiceStatus::Exited { code });
                        if critical && code != 0 {
                            self.critical_abnormal_exit = true;
                        }
                        if matches!(self.policy, ExitPolicy::AnyExit) || critical {
                            self.enter_shutdown();
                        }
                    }
                }
                proof {
                    assert(self@ =~~= step(old(self)@, ev));
                }
            },
            Event::ShutdownRequested => {
                match self.phase {
                    SessionPhase::Idle => {
                        self.phase = SessionPhase::Stopped;
                    },
                    SessionPhase::Starting => {
                        self.enter_shutdown();
                    },
                    SessionPhase::Running => {
                        self.enter_shutdown();
                    },
                    SessionPhase::ShuttingDown => {},
                    SessionPhase::Stopped => {},
                }
                proof {
                    assert(self@ =~~= step(old(self)@, ev));
                }
            },
            Event::TermExited { code } => {
                if matches!(self.phase, SessionPhase::ShuttingDown) && !self.kill_pending {
                    self.close_target(TermOutcome::Graceful { code });
                }
                proof {
                    assert(self@ =~~= step(old(self)@, ev));
                }
            },
            Event::TermTimeout => {
                if matches!(self.phase, SessionPhase::ShuttingDown) && !self.kill_pending {
                    self.kill_pending = true;
                }
                proof {
                    assert(self@ =~~= step(old(self)@, ev));
                }
            },
            Event::Killed => {
                if matches!(self.phase, SessionPhase::ShuttingDown) && self.kill_pending {
                    self.forced_kill = true;
                    self.close_target(TermOutcome::Forced);
                }
                proof {
                    assert(self@ =~~= step(old(self)@, ev));
                }
            },
        }
    }

    /// A failed startup slot: on a critical service the session aborts into
    /// shutdown, otherwise the slot is closed and startup goes on.
    fn settle_failed_slot(&mut self, t: usize)
        requires
            (t as int) < n_services(old(self)@),
            old(self)@.phase is Starting,
            old(self)@.status.len() == n_services(old(self)@),
            n_services(old(self)@) <= usize::MAX,
            0 <= old(self)@.cursor < n_services(old(self)@),
            old(self).cursor < old(self).config@.order.len(),
            forall|p: int|
                0 <= p < old(self)@.launched.len() ==> (#[trigger] old(self)@.launched[p] as int)
                    < old(self)@.status.len(),
        ensures
            final(self)@ == (if old(self)@.config.descriptors[t as int].critical {
                begin_shutdown(
                    SessionModel { critical_launch_failure: true, ..old(self)@ },
                )
            } else {
                crate::model::advance_cursor(old(self)@)
            }),
    {
        if self.config.descriptors()[t].critical {
            self.critical_launch_failure = true;
            self.enter_shutdown();
            proof {
                assert(self@ =~~= begin_shutdown(
                    SessionModel { critical_launch_failure: true, ..old(self)@ },
                ));
            }
        } else {
            self.advance_slot();
        }
    }

    /// Close the current startup slot; after the last one the session runs.
    fn advance_slot(&mut self)
        requires
            old(self)@.phase is Starting,
            0 <= old(self)@.cursor < n_services(old(self)@),
            n_services(old(self)@) <= usize::MAX,
        ensures
            final(self)@ == crate::model::advance_cursor(old(self)@),
    {
        self.cursor = self.cursor + 1;
        if self.cursor == self.config.len() {
            self.phase = SessionPhase::Running;
        }
        proof {
            assert(self@ =~~= crate::model::advance_cursor(old(self)@));
        }
    }

    /// What the driver should do next.
    pub fn next_action(&self) -> (a: Action)
        requires
            self.wf(),
        ensures
            a == next_action_of(self@),
    {
        match self.phase {
            SessionPhase::Idle => Action::AwaitStart,
            SessionPhase::Starting => {
                let t = self.config.launch_order()[self.cursor];
                if matches!(self.status[t], ServiceStatus::Starting) {
                    Action::AwaitReady { service: t }
                } else if self.deps_running(t) {
                    Action::Launch { service: t }
                } else {
                    Action::Skip { service: t }
                }
            },
            SessionPhase::Running => Action::Monitor,
            SessionPhase::ShuttingDown => {
                let t = self.shutdown_order[self.shutdown_cursor];
                if self.kill_pending {
                    Action::ForceKill { service: t }
                } else {
                    Action::SignalTerm {
                        service: t,
                        grace_ms: self.config.descriptors()[t].grace_timeout_ms,
                    }
                }
            },
            SessionPhase::Stopped => Action::Finished { code: self.exit_code() },
        }
    }

    /// The exit code the session's own process should report: `0` clean,
    /// `1` critical launch failure, `2` critical abnormal exit, `3` forced
    /// kill during shutdown.
    pub fn exit_code(&self) -> (c: u8)
        ensures
            c == exit_code_of(self@),
    {
        if self.critical_launch_failure {
            1
        } else if self.critical_abnormal_exit {
            2
        } else if self.forced_kill {
            3
        } else {
            0
        }
    }

    /// Current lifecycle phase.
    pub fn phase(&self) -> (p: SessionPhase)
        ensures
            p == self@.phase,
    {
        self.phase
    }

    /// Per-service state.
    pub fn service_status(&self, i: usize) -> (st: ServiceStatus)
        requires
            self.wf(),
            (i as int) < n_services(self@),
        ensures
            st == self@.status[i as int],
    {
        self.status[i]
    }

    /// The services spawned so far, in actual launch order.
    pub fn launched_order(&self) -> (r: &Vec<usize>)
        ensures
            r@ == self@.launched,
    {
        &self.launched
    }

    /// The shutdown report: one entry per torn-down service, in teardown
    /// order.  Complete exactly when the session is `Stopped`.
    pub fn shutdown_report(&self) -> (r: &Vec<ReportEntry>)
        ensures
            r@ == self@.report,
    {
        &self.report
    }

    /// The validated configuration the session was built over.
    pub fn config(&self) -> (c: &DescriptorSet)
        ensures
            c@ == self@.config,
    {
        &self.config
    }
}

} // verus!
