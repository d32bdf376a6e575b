use oblivion_session::config::DescriptorSet;
use oblivion_session::descriptor::ServiceDescriptor;
use oblivion_session::model::Action;
use oblivion_session::model::Event;
use oblivion_session::model::ExitPolicy;
use oblivion_session::model::LaunchError;
use oblivion_session::model::ServiceStatus;
use oblivion_session::model::SessionPhase;
use oblivion_session::model::StartFailure;
use oblivion_session::model::TermOutcome;
use oblivion_session::supervisor::Session;

fn desc(name: &str, deps: &[&str], critical: bool) -> ServiceDescriptor {
    let mut d = ServiceDescriptor::new(name.to_string(), format!("./bin/{}", name), critical);
    d.depends_on = deps.iter().map(|s| s.to_string()).collect();
    d
}

fn desktop_session(policy: ExitPolicy) -> Session {
    let set = DescriptorSet::new(vec![
        desc("compositor", &[], true),
        desc("panel", &["compositor"], true),
        desc("shell", &["compositor"], true),
    ])
    .unwrap();
    Session::new(set, policy)
}

/// Drive one service through a successful launch and readiness gate,
/// checking that the supervisor asked for exactly that service.
fn launch_ok(s: &mut Session, expect: usize) {
    assert_eq!(s.next_action(), Action::Launch { service: expect });
    s.apply(Event::LaunchOk);
    assert_eq!(s.next_action(), Action::AwaitReady { service: expect });
    s.apply(Event::ReadyOk);
}

#[test]
fn desktop_starts_in_dependency_order_and_critical_exit_ends_it() {
    let mut s = desktop_session(ExitPolicy::AnyExit);
    assert_eq!(s.phase(), SessionPhase::Idle);
    assert_eq!(s.next_action(), Action::AwaitStart);
    s.apply(Event::StartRequested);

    launch_ok(&mut s, 0); // compositor
    launch_ok(&mut s, 1); // panel
    launch_ok(&mut s, 2); // shell
    assert_eq!(s.phase(), SessionPhase::Running);
    assert_eq!(s.launched_order().as_slice(), &[0, 1, 2]);
    assert_eq!(s.next_action(), Action::Monitor);

    // The compositor exits with code 1: the others are torn down in
    // reverse launch order and the session reports exit code 2.
    s.apply(Event::ServiceExited { service: 0, code: 1 });
    assert_eq!(s.phase(), SessionPhase::ShuttingDown);
    assert!(matches!(s.next_action(), Action::SignalTerm { service: 2, .. }));
    s.apply(Event::TermExited { code: 0 });
    assert!(matches!(s.next_action(), Action::SignalTerm { service: 1, .. }));
    s.apply(Event::TermExited { code: 0 });
    assert_eq!(s.phase(), SessionPhase::Stopped);

    let report = s.shutdown_report();
    assert_eq!(report.len(), 2);
    assert_eq!(report[0].service, 2);
    assert_eq!(report[1].service, 1);
    assert_eq!(s.next_action(), Action::Finished { code: 2 });
    assert_eq!(s.exit_code(), 2);
}

#[test]
fn grace_timeout_escalates_to_forced_kill_with_exit_code_3() {
    let mut panel = desc("panel", &[], false);
    panel.grace_timeout_ms = 1000;
    let set = DescriptorSet::new(vec![panel]).unwrap();
    let mut s = Session::new(set, ExitPolicy::AnyExit);
    s.apply(Event::StartRequested);
    launch_ok(&mut s, 0);
    assert_eq!(s.phase(), SessionPhase::Running);

    s.apply(Event::ShutdownRequested);
    assert_eq!(s.phase(), SessionPhase::ShuttingDown);
    assert_eq!(s.next_action(), Action::SignalTerm { service: 0, grace_ms: 1000 });
    // The service ignores the graceful signal past its grace period.
    s.apply(Event::TermTimeout);
    assert_eq!(s.next_action(), Action::ForceKill { service: 0 });
    s.apply(Event::Killed);
    assert_eq!(s.phase(), SessionPhase::Stopped);
    assert_eq!(s.shutdown_report()[0].outcome, TermOutcome::Forced);
    assert_eq!(s.exit_code(), 3);
}

#[test]
fn noncritical_launch_failure_still_reaches_running() {
    let set = DescriptorSet::new(vec![
        desc("compositor", &[], true),
        desc("tray", &[], false),
        desc("shell", &["compositor"], true),
    ])
    .unwrap();
    let mut s = Session::new(set, ExitPolicy::AnyExit);
    s.apply(Event::StartRequested);
    launch_ok(&mut s, 0);
    assert_eq!(s.next_action(), Action::Launch { service: 1 });
    s.apply(Event::LaunchErr { error: LaunchError::NotFound });
    launch_ok(&mut s, 2);
    assert_eq!(s.phase(), SessionPhase::Running);
    assert_eq!(s.launched_order().as_slice(), &[0, 2]);
    assert_eq!(
        s.service_status(1),
        ServiceStatus::Failed { failure: StartFailure::Launch { error: LaunchError::NotFound } }
    );
    assert_eq!(s.exit_code(), 0);
}

#[test]
fn critical_launch_failure_aborts_startup_with_exit_code_1() {
    let mut s = desktop_session(ExitPolicy::AnyExit);
    s.apply(Event::StartRequested);
    launch_ok(&mut s, 0);
    assert_eq!(s.next_action(), Action::Launch { service: 1 });
    s.apply(Event::LaunchErr { error: LaunchError::PermissionDenied });
    // The panel is critical: the compositor, already live, is torn down.
    assert_eq!(s.phase(), SessionPhase::ShuttingDown);
    assert!(matches!(s.next_action(), Action::SignalTerm { service: 0, .. }));
    s.apply(Event::TermExited { code: 0 });
    assert_eq!(s.phase(), SessionPhase::Stopped);
    assert_eq!(s.exit_code(), 1);
}

#[test]
fn dependency_of_failed_service_is_skipped() {
    let set = DescriptorSet::new(vec![
        desc("tray", &[], false),
        desc("applet", &["tray"], false),
    ])
    .unwrap();
    let mut s = Session::new(set, ExitPolicy::AnyExit);
    s.apply(Event::StartRequested);
    assert_eq!(s.next_action(), Action::Launch { service: 0 });
    s.apply(Event::LaunchErr { error: LaunchError::NotFound });
    // The applet's dependency never ran, so it is skipped, not launched.
    assert_eq!(s.next_action(), Action::Skip { service: 1 });
    s.apply(Event::DependencyUnavailable);
    assert_eq!(s.phase(), SessionPhase::Running);
    assert_eq!(
        s.service_status(1),
        ServiceStatus::Failed { failure: StartFailure::DependencyUnavailable }
    );
}

#[test]
fn readiness_timeout_of_critical_service_aborts() {
    let set = DescriptorSet::new(vec![
        desc("compositor", &[], true),
        desc("panel", &["compositor"], false),
    ])
    .unwrap();
    let mut s = Session::new(set, ExitPolicy::AnyExit);
    s.apply(Event::StartRequested);
    assert_eq!(s.next_action(), Action::Launch { service: 0 });
    s.apply(Event::LaunchOk);
    assert_eq!(s.next_action(), Action::AwaitReady { service: 0 });
    s.apply(Event::ReadyTimeout);
    // The compositor was spawned, so the unready process is still torn down.
    assert_eq!(s.phase(), SessionPhase::ShuttingDown);
    assert!(matches!(s.next_action(), Action::SignalTerm { service: 0, .. }));
    s.apply(Event::TermExited { code: 0 });
    assert_eq!(s.phase(), SessionPhase::Stopped);
    assert_eq!(s.exit_code(), 1);
}

#[test]
fn noncritical_exit_under_critical_only_policy_keeps_running() {
    let set = DescriptorSet::new(vec![
        desc("compositor", &[], true),
        desc("tray", &[], false),
    ])
    .unwrap();
    let mut s = Session::new(set, ExitPolicy::CriticalOnly);
    s.apply(Event::StartRequested);
    launch_ok(&mut s, 0);
    launch_ok(&mut s, 1);
    assert_eq!(s.phase(), SessionPhase::Running);
    s.apply(Event::ServiceExited { service: 1, code: 0 });
    assert_eq!(s.phase(), SessionPhase::Running);
    assert_eq!(s.service_status(1), ServiceStatus::Exited { code: 0 });
    // The critical compositor's exit still ends the session.
    s.apply(Event::ServiceExited { service: 0, code: 0 });
    assert_eq!(s.phase(), SessionPhase::Stopped);
    assert_eq!(s.exit_code(), 0);
}

#[test]
fn shutdown_is_idempotent() {
    let set = DescriptorSet::new(vec![desc("panel", &[], false)]).unwrap();
    let mut s = Session::new(set, ExitPolicy::AnyExit);
    s.apply(Event::StartRequested);
    launch_ok(&mut s, 0);
    s.apply(Event::ShutdownRequested);
    s.apply(Event::TermExited { code: 0 });
    assert_eq!(s.phase(), SessionPhase::Stopped);
    assert_eq!(s.shutdown_report().len(), 1);
    // A second shutdown request is a no-op: no new signaling, one report.
    s.apply(Event::ShutdownRequested);
    assert_eq!(s.phase(), SessionPhase::Stopped);
    assert_eq!(s.shutdown_report().len(), 1);
    assert_eq!(s.next_action(), Action::Finished { code: 0 });
}

#[test]
fn external_shutdown_during_startup_cancels_launches() {
    let mut s = desktop_session(ExitPolicy::AnyExit);
    s.apply(Event::StartRequested);
    launch_ok(&mut s, 0);
    // A shutdown request arrives while the panel is still to be launched.
    s.apply(Event::ShutdownRequested);
    assert_eq!(s.phase(), SessionPhase::ShuttingDown);
    assert!(matches!(s.next_action(), Action::SignalTerm { service: 0, .. }));
    s.apply(Event::TermExited { code: 0 });
    assert_eq!(s.phase(), SessionPhase::Stopped);
    assert_eq!(s.service_status(1), ServiceStatus::Pending);
    assert_eq!(s.exit_code(), 0);
}

#[test]
fn unready_service_is_still_torn_down_at_shutdown() {
    let set = DescriptorSet::new(vec![
        desc("compositor", &[], true),
        desc("tray", &[], false),
    ])
    .unwrap();
    let mut s = Session::new(set, ExitPolicy::AnyExit);
    s.apply(Event::StartRequested);
    launch_ok(&mut s, 0);
    assert_eq!(s.next_action(), Action::Launch { service: 1 });
    s.apply(Event::LaunchOk);
    s.apply(Event::ReadyTimeout);
    // The tray was spawned but never became ready; it is non-critical, so
    // the session still runs — and its lingering process is torn down first.
    assert_eq!(s.phase(), SessionPhase::Running);
    assert_eq!(s.service_status(1), ServiceStatus::Unready);
    s.apply(Event::ShutdownRequested);
    assert!(matches!(s.next_action(), Action::SignalTerm { service: 1, .. }));
    s.apply(Event::TermExited { code: 0 });
    assert!(matches!(s.next_action(), Action::SignalTerm { service: 0, .. }));
    s.apply(Event::TermExited { code: 0 });
    assert_eq!(s.phase(), SessionPhase::Stopped);
    assert_eq!(s.exit_code(), 0);
}

#[test]
fn empty_session_starts_and_stops_clean() {
    let set = DescriptorSet::new(Vec::new()).unwrap();
    let mut s = Session::new(set, ExitPolicy::AnyExit);
    s.apply(Event::StartRequested);
    assert_eq!(s.phase(), SessionPhase::Running);
    s.apply(Event::ShutdownRequested);
    assert_eq!(s.phase(), SessionPhase::Stopped);
    assert_eq!(s.exit_code(), 0);
}

#[test]
fn shutdown_covers_all_live_services_in_reverse_order() {
    let set = DescriptorSet::new(vec![
        desc("compositor", &[], true),
        desc("panel", &["compositor"], false),
        desc("shell", &["compositor"], false),
        desc("tray", &[], false),
    ])
    .unwrap();
    let mut s = Session::new(set, ExitPolicy::AnyExit);
    s.apply(Event::StartRequested);
    launch_ok(&mut s, 0);
    launch_ok(&mut s, 1);
    launch_ok(&mut s, 2);
    launch_ok(&mut s, 3);
    s.apply(Event::ServiceExited { service: 1, code: 0 });
    // Everything still live is torn down, latest-launched first.
    let mut torn_down = Vec::new();
    while s.phase() == SessionPhase::ShuttingDown {
        match s.next_action() {
            Action::SignalTerm { service, .. } => {
                torn_down.push(service);
                s.apply(Event::TermExited { code: 0 });
            },
            a => panic!("unexpected action {:?}", a),
        }
    }
    assert_eq!(torn_down, vec![3, 2, 0]);
    assert_eq!(s.exit_code(), 0);
}
