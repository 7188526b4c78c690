use hangar::models::{Flight, FlightCreateError, Hangar, HangarCreateError, OutputStream,
    PreflightStep, RunOutcome};
use hangar::session::{create_flight, create_hangar, flight_management, flight_menu_options,
    hangar_ctl, load_hangar, menu_action_for, menu_options, session_transition, FlightMenuStep,
    MainMenuStep, MenuAction, SessionEvent, SessionState};

fn flight(name: &str, stream: OutputStream, flag: &str) -> Flight {
    Flight {
        name: name.to_string(),
        flight_exec: "prog".to_string(),
        preflight_args: Vec::new(),
        stream,
        flag: flag.to_string(),
        package_name: String::new(),
        reinstall: String::new(),
    }
}

fn captured(stdout: &str, stderr: &str) -> RunOutcome {
    RunOutcome::Captured { stdout: stdout.to_string(), stderr: stderr.to_string() }
}

#[test]
fn check_fails_when_invocation_fails() {
    let f = flight("pip", OutputStream::Stdout, "pip");
    let outcome = RunOutcome::InvocationFailed { detail: "No such file or directory".to_string() };
    assert!(!f.check(&outcome));
}

#[test]
fn check_fails_when_output_is_not_text() {
    let f = flight("pip", OutputStream::Stdout, "pip");
    assert!(!f.check(&RunOutcome::InvalidOutput));
}

#[test]
fn check_fails_on_any_stderr_text() {
    let f = flight("pip", OutputStream::Stdout, "pip");
    let outcome = captured("pip 21.1.1 from /usr/lib", "warning: deprecated");
    assert!(!f.check(&outcome));
}

#[test]
fn check_passes_when_marker_in_stdout_and_stderr_empty() {
    let f = flight("pip", OutputStream::Stdout, "pip");
    let outcome = captured("pip 21.1.1 from /usr/lib", "");
    assert!(f.check(&outcome));
}

#[test]
fn check_fails_when_marker_absent() {
    let f = flight("pip", OutputStream::Stdout, "pip");
    let outcome = captured("command not found", "");
    assert!(!f.check(&outcome));
}

#[test]
fn check_on_stderr_stream_with_empty_marker_passes_only_when_empty_pattern() {
    // The criterion inspects stderr, but any stderr text disqualifies first;
    // with empty stderr only an empty marker can match there.
    let empty_marker = flight("f", OutputStream::Stderr, "");
    assert!(empty_marker.check(&captured("anything", "")));
    let real_marker = flight("f", OutputStream::Stderr, "x");
    assert!(!real_marker.check(&captured("anything", "")));
}

#[test]
fn check_empty_marker_matches_any_stdout() {
    let f = flight("f", OutputStream::Stdout, "");
    assert!(f.check(&captured("", "")));
    assert!(f.check(&captured("whatever", "")));
}

#[test]
fn preflight_short_circuits_on_first_failure() {
    let a = flight("a", OutputStream::Stdout, "never-there");
    let b = flight("b", OutputStream::Stdout, "");
    let h = Hangar { name: "Dev Box".to_string(), description: "d".to_string(), flights: vec![a, b] };
    let start = h.preflight_start();
    assert_eq!(start, PreflightStep::Run { index: 0 });
    // Flight a fails: the machine stops at once; flight b is never scheduled.
    let next = h.preflight_next(0, &captured("nothing useful", ""));
    assert_eq!(next, PreflightStep::Done { passed: false });
}

#[test]
fn preflight_all_pass_runs_in_order() {
    let a = flight("a", OutputStream::Stdout, "ok-a");
    let b = flight("b", OutputStream::Stdout, "ok-b");
    let h = Hangar { name: "Dev Box".to_string(), description: "d".to_string(), flights: vec![a, b] };
    let s0 = h.preflight_start();
    assert_eq!(s0, PreflightStep::Run { index: 0 });
    let s1 = h.preflight_next(0, &captured("ok-a", ""));
    assert_eq!(s1, PreflightStep::Run { index: 1 });
    let s2 = h.preflight_next(1, &captured("ok-b", ""));
    assert_eq!(s2, PreflightStep::Done { passed: true });
}

#[test]
fn preflight_of_empty_hangar_passes() {
    let h = Hangar { name: "Empty".to_string(), description: "d".to_string(), flights: Vec::new() };
    assert_eq!(h.preflight_start(), PreflightStep::Done { passed: true });
}

#[test]
fn preflight_scenario_dev_box_pip() {
    let answers = vec![
        ("flight_name".to_string(), "pip".to_string()),
        ("flight_exec".to_string(), "pip".to_string()),
        ("preflight_args".to_string(), "--version".to_string()),
        ("stream".to_string(), "stdout".to_string()),
        ("flag".to_string(), "pip".to_string()),
        ("package_name".to_string(), "python3-pip".to_string()),
        ("reinstall".to_string(), "apt-get --reinstall install {package_name}".to_string()),
    ];
    let pip = Flight::new(answers).expect("a complete answer set describes a flight");
    assert_eq!(pip.preflight_args, vec!["--version".to_string()]);
    let mut h = create_hangar(Some("Dev Box".to_string()), Some("My machine".to_string()))
        .expect("name and description given");
    h.add_flight(pip);
    // What a host with pip installed produces: a version line on stdout,
    // nothing on stderr.
    let outcome = captured("pip 21.1.1 from /usr/lib/python3/dist-packages/pip (python 3.9)", "");
    assert_eq!(h.preflight_start(), PreflightStep::Run { index: 0 });
    assert_eq!(h.preflight_next(0, &outcome), PreflightStep::Done { passed: true });
}

fn full_answers() -> Vec<(String, String)> {
    vec![
        ("flight_name".to_string(), "git check".to_string()),
        ("flight_exec".to_string(), "git".to_string()),
        ("preflight_args".to_string(), "--version|--help".to_string()),
        ("stream".to_string(), "stdout".to_string()),
        ("flag".to_string(), "git version".to_string()),
        ("package_name".to_string(), "git".to_string()),
        ("reinstall".to_string(), "apt-get --reinstall install {package_name}".to_string()),
    ]
}

#[test]
fn flight_new_parses_complete_answers() {
    let f = Flight::new(full_answers()).expect("complete answers");
    assert_eq!(f.name, "git check");
    assert_eq!(f.flight_exec, "git");
    assert_eq!(f.preflight_args, vec!["--version".to_string(), "--help".to_string()]);
    assert!(matches!(f.stream, OutputStream::Stdout));
    assert_eq!(f.flag, "git version");
    assert_eq!(f.package_name, "git");
    assert_eq!(f.reinstall, "apt-get --reinstall install {package_name}");
}

#[test]
fn flight_new_fails_on_any_missing_key() {
    for skip in 0..7 {
        let data: Vec<(String, String)> = full_answers()
            .into_iter()
            .enumerate()
            .filter(|(i, _)| *i != skip)
            .map(|(_, kv)| kv)
            .collect();
        assert!(Flight::new(data).is_none());
    }
}

#[test]
fn flight_new_fails_on_empty_name_or_executable() {
    let mut data = full_answers();
    data[0].1 = String::new();
    assert!(Flight::new(data).is_none());
    let mut data = full_answers();
    data[1].1 = String::new();
    assert!(Flight::new(data).is_none());
}

#[test]
fn flight_new_fails_on_unknown_stream() {
    let mut data = full_answers();
    data[3].1 = "both".to_string();
    assert!(Flight::new(data).is_none());
}

#[test]
fn flight_new_recognises_stderr_stream() {
    let mut data = full_answers();
    data[3].1 = "stderr".to_string();
    let f = Flight::new(data).expect("stderr names a stream");
    assert!(matches!(f.stream, OutputStream::Stderr));
}

#[test]
fn flight_new_takes_first_binding_of_a_key() {
    let mut data = full_answers();
    data.push(("flight_name".to_string(), "shadowed".to_string()));
    let f = Flight::new(data).expect("complete answers");
    assert_eq!(f.name, "git check");
}

#[test]
fn create_flight_reports_invalid_parameter() {
    let r = create_flight(Vec::new());
    assert_eq!(r.err(), Some(FlightCreateError::InvalidParameter));
    let f = create_flight(full_answers()).expect("complete answers");
    assert_eq!(f.name, "git check");
}

#[test]
fn create_hangar_requires_a_name() {
    let r = create_hangar(None, Some("d".to_string()));
    assert_eq!(r.err(), Some(HangarCreateError::NoNameGiven));
    let r = create_hangar(Some(String::new()), Some("d".to_string()));
    assert_eq!(r.err(), Some(HangarCreateError::NoNameGiven));
}

#[test]
fn create_hangar_requires_a_description() {
    let r = create_hangar(Some("Dev Box".to_string()), None);
    assert_eq!(r.err(), Some(HangarCreateError::NoDescriptionGiven));
}

#[test]
fn create_hangar_builds_an_empty_hangar() {
    let h = create_hangar(Some("Dev Box".to_string()), Some("My machine".to_string()))
        .expect("name and description given");
    assert_eq!(h.name, "Dev Box");
    assert_eq!(h.description, "My machine");
    assert!(h.flights.is_empty());
}

#[test]
fn add_flight_appends_in_order() {
    let mut h = create_hangar(Some("Dev Box".to_string()), Some("d".to_string())).unwrap();
    h.add_flight(flight("a", OutputStream::Stdout, "x"));
    h.add_flight(flight("b", OutputStream::Stdout, "y"));
    assert_eq!(h.flights.len(), 2);
    assert_eq!(h.flights[0].name, "a");
    assert_eq!(h.flights[1].name, "b");
}

#[test]
fn remove_flight_keeps_the_order_of_the_rest() {
    let mut h = create_hangar(Some("Dev Box".to_string()), Some("d".to_string())).unwrap();
    h.add_flight(flight("a", OutputStream::Stdout, "x"));
    h.add_flight(flight("b", OutputStream::Stdout, "y"));
    h.add_flight(flight("c", OutputStream::Stdout, "z"));
    let removed = h.remove_flight(1);
    assert_eq!(removed.name, "b");
    assert_eq!(h.flights.len(), 2);
    assert_eq!(h.flights[0].name, "a");
    assert_eq!(h.flights[1].name, "c");
}

#[test]
fn load_hangar_always_reports_no_name() {
    let r = load_hangar("/tmp/sample-hangar.json".to_string());
    assert_eq!(r.err(), Some(HangarCreateError::NoNameGiven));
}

#[test]
fn menu_offers_three_actions() {
    let options = menu_options();
    assert_eq!(options, vec!["Preflight".to_string(), "Manage Flights".to_string(),
        "Exit".to_string()]);
    assert_eq!(menu_action_for("Preflight"), Some(MenuAction::Preflight));
    assert_eq!(menu_action_for("Manage Flights"), Some(MenuAction::ManageFlights));
    assert_eq!(menu_action_for("Exit"), Some(MenuAction::Exit));
    assert_eq!(menu_action_for("Quit"), None);
}

#[test]
fn hangar_ctl_maps_actions_and_tolerates_bad_reads() {
    assert_eq!(hangar_ctl(&Ok(MenuAction::Preflight)), MainMenuStep::RunPreflight);
    assert_eq!(hangar_ctl(&Ok(MenuAction::ManageFlights)), MainMenuStep::EnterFlightMenu);
    assert_eq!(hangar_ctl(&Ok(MenuAction::Exit)), MainMenuStep::ExitSession);
    assert_eq!(hangar_ctl(&Err(Some("terminal went away".to_string()))), MainMenuStep::Stay);
    assert_eq!(hangar_ctl(&Err(None)), MainMenuStep::Stay);
}

#[test]
fn flight_menu_list_puts_create_and_exit_last() {
    let mut h = create_hangar(Some("Dev Box".to_string()), Some("d".to_string())).unwrap();
    let options = flight_menu_options(&h);
    assert_eq!(options, vec!["Create New Flight".to_string(), "Exit".to_string()]);
    h.add_flight(flight("pip", OutputStream::Stdout, "pip"));
    h.add_flight(flight("git", OutputStream::Stdout, "git"));
    let options = flight_menu_options(&h);
    assert_eq!(options, vec!["pip".to_string(), "git".to_string(),
        "Create New Flight".to_string(), "Exit".to_string()]);
}

#[test]
fn flight_management_decides_by_position() {
    // Four options: two flights, then create at index 2, exit at index 3.
    assert_eq!(flight_management(2, 4), FlightMenuStep::CreateFlight);
    assert_eq!(flight_management(3, 4), FlightMenuStep::ExitMenu);
    assert_eq!(flight_management(-1, 4), FlightMenuStep::Abort);
    assert_eq!(flight_management(0, 4), FlightMenuStep::SelectExisting);
    assert_eq!(flight_management(1, 4), FlightMenuStep::SelectExisting);
    // With no flights the same positions still mean create and exit.
    assert_eq!(flight_management(0, 2), FlightMenuStep::CreateFlight);
    assert_eq!(flight_management(1, 2), FlightMenuStep::ExitMenu);
}

#[test]
fn session_transitions_follow_the_lifecycle() {
    let (bootstrap, create, main, flights, ended) = (
        SessionState::Bootstrap,
        SessionState::CreateHangar,
        SessionState::MainMenu,
        SessionState::FlightMenu,
        SessionState::Ended,
    );
    assert_eq!(session_transition(bootstrap,
        &SessionEvent::NeedsInstall { install_ok: true }), create);
    assert_eq!(session_transition(bootstrap,
        &SessionEvent::NeedsInstall { install_ok: false }), ended);
    assert_eq!(session_transition(bootstrap,
        &SessionEvent::AlreadyInstalled { loaded: false }), create);
    assert_eq!(session_transition(bootstrap,
        &SessionEvent::AlreadyInstalled { loaded: true }), main);
    assert_eq!(session_transition(create,
        &SessionEvent::HangarReady { ok: true }), main);
    assert_eq!(session_transition(create,
        &SessionEvent::HangarReady { ok: false }), ended);
    assert_eq!(session_transition(main,
        &SessionEvent::Menu { step: MainMenuStep::RunPreflight }), main);
    assert_eq!(session_transition(main,
        &SessionEvent::Menu { step: MainMenuStep::EnterFlightMenu }), flights);
    assert_eq!(session_transition(main,
        &SessionEvent::Menu { step: MainMenuStep::Stay }), main);
    assert_eq!(session_transition(main,
        &SessionEvent::Menu { step: MainMenuStep::ExitSession }), ended);
    assert_eq!(session_transition(flights,
        &SessionEvent::Flights { substep: FlightMenuStep::CreateFlight }), flights);
    assert_eq!(session_transition(flights,
        &SessionEvent::Flights { substep: FlightMenuStep::SelectExisting }), flights);
    assert_eq!(session_transition(flights,
        &SessionEvent::Flights { substep: FlightMenuStep::ExitMenu }), main);
    assert_eq!(session_transition(flights,
        &SessionEvent::Flights { substep: FlightMenuStep::Abort }), main);
    // A state ignores an event it does not expect, and the end is final.
    assert_eq!(session_transition(main,
        &SessionEvent::HangarReady { ok: true }), main);
    assert_eq!(session_transition(ended,
        &SessionEvent::Menu { step: MainMenuStep::RunPreflight }), ended);
}
