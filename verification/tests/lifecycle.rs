use shell_script_manager::health::{probe_outcome, Health};
use shell_script_manager::order::order_positions;
use shell_script_manager::port::{
    exhausted_message, PortMode, PortSearch, PortStep, FIXED_PORT, MAX_ATTEMPTS, PORT_MAX, PORT_MIN,
};
use shell_script_manager::supervisor::{
    step, Action, CleanupGuard, Event, Phase, Supervisor, SupervisorState,
};

#[test]
fn guard_lets_the_first_request_pass() {
    let mut guard = CleanupGuard::new();
    assert!(!guard.is_started());
    let mut passed = 0;
    for _ in 0..25 {
        if guard.try_begin() {
            passed += 1;
        }
        assert!(guard.is_started());
    }
    assert_eq!(passed, 1);
}

#[test]
fn supervisor_life_cycle() {
    let mut sup = Supervisor::new();
    assert_eq!(sup.state(), SupervisorState::NotStarted);
    assert!(!sup.process_stored());
    assert!(sup.begin_start());
    assert_eq!(sup.state(), SupervisorState::Starting);
    assert!(!sup.begin_start());
    assert!(sup.process_stored());
    assert_eq!(sup.state(), SupervisorState::Running);
    assert_eq!(sup.on_event(Event::Slept), Action::Nothing);
    assert_eq!(sup.state(), SupervisorState::Running);
    assert!(!sup.may_close());
}

#[test]
fn shutdown_runs_once_and_ends() {
    let mut sup = Supervisor::new();
    sup.begin_start();
    sup.process_stored();
    assert_eq!(sup.request_shutdown(), Action::EmitClosing);
    assert_eq!(sup.state(), SupervisorState::ShuttingDown);
    for _ in 0..10 {
        assert_eq!(sup.request_shutdown(), Action::Nothing);
    }
    assert_eq!(sup.on_event(Event::Notified), Action::Sleep(100));
    assert_eq!(sup.request_shutdown(), Action::Nothing);
    assert_eq!(sup.on_event(Event::Slept), Action::Kill);
    assert_eq!(sup.on_event(Event::KillSent), Action::Poll);
    assert_eq!(sup.on_event(Event::StillRunning), Action::Sleep(200));
    assert_eq!(sup.on_event(Event::Slept), Action::Poll);
    assert_eq!(sup.on_event(Event::Exited), Action::Sleep(2000));
    assert_eq!(sup.on_event(Event::Found), Action::Nothing);
    assert_eq!(sup.on_event(Event::Slept), Action::Verify);
    assert!(!sup.may_close());
    assert_eq!(sup.on_event(Event::Gone), Action::AllowClose);
    assert_eq!(sup.state(), SupervisorState::Terminated);
    assert!(sup.may_close());
    assert_eq!(sup.request_shutdown(), Action::Nothing);
    assert_eq!(sup.on_event(Event::Slept), Action::Nothing);
    assert_eq!(sup.state(), SupervisorState::Terminated);
}

#[test]
fn shutdown_escalates_after_the_timeout() {
    let mut sup = Supervisor::new();
    assert_eq!(sup.request_shutdown(), Action::EmitClosing);
    assert_eq!(sup.on_event(Event::Notified), Action::Sleep(100));
    assert_eq!(sup.on_event(Event::Slept), Action::Kill);
    let mut action = sup.on_event(Event::KillSent);
    let mut polls = 0;
    let mut waited = 0;
    while action == Action::Poll {
        polls += 1;
        assert_eq!(sup.on_event(Event::StillRunning), Action::Sleep(200));
        waited += 200;
        action = sup.on_event(Event::Slept);
    }
    assert_eq!(polls, 50);
    assert_eq!(waited, 10_000);
    assert_eq!(action, Action::ForceKill);
    assert_eq!(sup.on_event(Event::ForceKilled), Action::Sleep(500));
    assert_eq!(sup.on_event(Event::Slept), Action::Sleep(2000));
    assert_eq!(sup.on_event(Event::Slept), Action::Verify);
    assert_eq!(sup.on_event(Event::Found), Action::ForceKill);
    assert_eq!(sup.on_event(Event::ForceKilled), Action::Sleep(500));
    assert_eq!(sup.state(), SupervisorState::ShuttingDown);
    assert_eq!(sup.on_event(Event::Slept), Action::AllowClose);
    assert_eq!(sup.state(), SupervisorState::Terminated);
}

#[test]
fn shutdown_without_a_process_or_with_failures() {
    let mut sup = Supervisor::new();
    sup.request_shutdown();
    sup.on_event(Event::Notified);
    sup.on_event(Event::Slept);
    assert_eq!(sup.on_event(Event::NoProcess), Action::Sleep(2000));
    assert_eq!(sup.on_event(Event::Slept), Action::Verify);
    assert_eq!(sup.on_event(Event::VerifyFailed), Action::AllowClose);
    assert!(sup.may_close());

    assert_eq!(
        step(Phase::Killing, 0, Event::KillFailed),
        (Phase::Escalating, 0, Action::ForceKill)
    );
    assert_eq!(
        step(Phase::Polling, 3, Event::PollFailed),
        (Phase::Escalating, 3, Action::ForceKill)
    );
    assert_eq!(
        step(Phase::PollPause, 48, Event::Slept),
        (Phase::Polling, 49, Action::Poll)
    );
    assert_eq!(
        step(Phase::PollPause, 49, Event::Slept),
        (Phase::Escalating, 49, Action::ForceKill)
    );
    assert_eq!(
        step(Phase::Closed, 0, Event::Gone),
        (Phase::Closed, 0, Action::Nothing)
    );
}

#[test]
fn probe_outcomes() {
    assert_eq!(probe_outcome(Some(200)), Health::Up);
    assert_eq!(probe_outcome(Some(204)), Health::Up);
    assert_eq!(probe_outcome(Some(299)), Health::Up);
    assert_eq!(probe_outcome(Some(199)), Health::Down);
    assert_eq!(probe_outcome(Some(300)), Health::Down);
    assert_eq!(probe_outcome(Some(404)), Health::Down);
    assert_eq!(probe_outcome(Some(503)), Health::Down);
    assert_eq!(probe_outcome(None), Health::Down);
}

#[test]
fn fixed_mode_uses_the_fixed_port() {
    let mut search = PortSearch::new(PortMode::Fixed);
    assert_eq!(search.begin(), PortStep::Use(FIXED_PORT));
    assert_eq!(FIXED_PORT, 7070);
}

#[test]
fn dynamic_mode_tries_a_hundred_ports_in_range() {
    let mut search = PortSearch::new(PortMode::Dynamic);
    let mut step = search.begin();
    let mut tried = Vec::new();
    while let PortStep::Try(port) = step {
        assert!(PORT_MIN <= port && port <= PORT_MAX);
        tried.push(port);
        step = search.bind_result(false);
    }
    assert_eq!(step, PortStep::Exhausted);
    assert_eq!(tried.len(), MAX_ATTEMPTS as usize);
    assert_eq!(search.bind_result(false), PortStep::Exhausted);
    assert_eq!(search.bind_result(true), PortStep::Exhausted);
    assert!(tried.iter().any(|p| *p != tried[0]));
    assert!(tried.iter().any(|p| *p != PORT_MIN));
    assert!(tried.iter().any(|p| *p != PORT_MAX));
    assert_eq!(
        exhausted_message(),
        "Could not find an available port in range 10000-60000"
    );
}

#[test]
fn a_bound_port_is_used() {
    let mut search = PortSearch::new(PortMode::Dynamic);
    let first = search.begin();
    let candidate = match first {
        PortStep::Try(port) => port,
        other => panic!("no candidate: {:?}", other),
    };
    assert_eq!(search.bind_result(true), PortStep::Use(candidate));
    assert_eq!(search.bind_result(true), PortStep::Use(candidate));
}

#[test]
fn only_a_candidate_of_the_search_is_used() {
    let mut search = PortSearch::new(PortMode::Dynamic);
    let first = search.bind_result(true);
    let second = match first {
        PortStep::Try(port) => {
            assert!(PORT_MIN <= port && port <= PORT_MAX);
            search.bind_result(false)
        }
        other => panic!("no candidate: {:?}", other),
    };
    let candidate = match second {
        PortStep::Try(port) => port,
        other => panic!("no candidate: {:?}", other),
    };
    assert_eq!(search.bind_result(true), PortStep::Use(candidate));

    let mut fixed = PortSearch::new(PortMode::Fixed);
    assert_eq!(fixed.bind_result(false), PortStep::Use(FIXED_PORT));
    assert_eq!(fixed.bind_result(true), PortStep::Use(FIXED_PORT));
}

#[test]
fn display_order_is_by_index_then_by_age() {
    let keys = vec![2, 0, 2, 1, 0, -1];
    let all = vec![true; 6];
    assert_eq!(order_positions(&keys, &all), vec![5, 1, 4, 3, 0, 2]);
    let some = vec![true, false, true, true, false, false];
    assert_eq!(order_positions(&keys, &some), vec![3, 0, 2]);
    assert_eq!(order_positions(&vec![], &vec![]), Vec::<usize>::new());
}
