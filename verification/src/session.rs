//! The interactive session's state machine.
//!
//! The session is a finite set of named states with typed transition
//! functions: bootstrap, hangar creation or selection, the main menu, and the
//! flight-management submenu. Prompting the user is outside work: the
//! surrounding program renders each menu, observes an answer or a prompt
//! failure, and hands the observation back here as a plain value to learn
//! what to do next.

use vstd::prelude::*;

use crate::models::{
    Flight, FlightCreateError, Hangar, HangarCreateError, HangarSpec, flight_of_answers,
};
use crate::text::str_eq;

verus! {

/// The actions the main menu offers.
#[derive(PartialEq, Eq, Structural, Clone, Copy, Debug)]
pub enum MenuAction {
    Exit,
    ManageFlights,
    Preflight,
}

/// What one round of the main-menu loop decides: run the preflight sequence,
/// enter the flight-management submenu, end the session, or stay in the menu
/// after a bad read.
#[derive(PartialEq, Eq, Structural, Clone, Copy, Debug)]
pub enum MainMenuStep {
    RunPreflight,
    EnterFlightMenu,
    ExitSession,
    Stay,
}

/// What one round of the flight-management submenu decides: run the
/// flight-creation questionnaire, leave the submenu, abort it after an
/// irrecoverable prompt failure, or note a selected existing flight (a
/// placeholder: no editing action is taken).
#[derive(PartialEq, Eq, Structural, Clone, Copy, Debug)]
pub enum FlightMenuStep {
    CreateFlight,
    ExitMenu,
    Abort,
    SelectExisting,
}

/// The states of the interactive session.
#[derive(PartialEq, Eq, Structural, Clone, Copy, Debug)]
pub enum SessionState {
    Bootstrap,
    CreateHangar,
    MainMenu,
    FlightMenu,
    Ended,
}

/// What the surrounding program observed in the current state.
#[derive(PartialEq, Eq, Structural, Clone, Copy, Debug)]
pub enum SessionEvent {
    /// First run: the application directories had to be created; did that
    /// succeed?
    NeedsInstall { install_ok: bool },
    /// The directories were already present; did a stored hangar get chosen
    /// and loaded?
    AlreadyInstalled { loaded: bool },
    /// The hangar-creation questionnaire ran; did construction succeed?
    HangarReady { ok: bool },
    /// One round of the main menu.
    Menu { step: MainMenuStep },
    /// One round of the flight-management submenu.
    Flights { substep: FlightMenuStep },
}

/// The session lifecycle as one transition function. A failed installation is
/// fatal, as is a failed hangar creation; every prompt mishap inside a menu
/// keeps the session in that menu; an event a state does not expect changes
/// nothing.
pub open spec fn session_transition_spec(s: SessionState, e: SessionEvent) -> SessionState {
    match (s, e) {
        (SessionState::Bootstrap, SessionEvent::NeedsInstall { install_ok }) => if install_ok {
            SessionState::CreateHangar
        } else {
            SessionState::Ended
        },
        (SessionState::Bootstrap, SessionEvent::AlreadyInstalled { loaded }) => if loaded {
            SessionState::MainMenu
        } else {
            SessionState::CreateHangar
        },
        (SessionState::CreateHangar, SessionEvent::HangarReady { ok }) => if ok {
            SessionState::MainMenu
        } else {
            SessionState::Ended
        },
        (SessionState::MainMenu, SessionEvent::Menu { step }) => match step {
            MainMenuStep::RunPreflight => SessionState::MainMenu,
            MainMenuStep::EnterFlightMenu => SessionState::FlightMenu,
            MainMenuStep::ExitSession => SessionState::Ended,
            MainMenuStep::Stay => SessionState::MainMenu,
        },
        (SessionState::FlightMenu, SessionEvent::Flights { substep }) => match substep {
            FlightMenuStep::CreateFlight => SessionState::FlightMenu,
            FlightMenuStep::SelectExisting => SessionState::FlightMenu,
            FlightMenuStep::ExitMenu => SessionState::MainMenu,
            FlightMenuStep::Abort => SessionState::MainMenu,
        },
        _ => s,
    }
}

/// Advance the session by one observed event.
pub fn session_transition(s: SessionState, e: &SessionEvent) -> (r: SessionState)
    ensures
        r == session_transition_spec(s, *e),
{
    match (s, e) {
        (SessionState::Bootstrap, SessionEvent::NeedsInstall { install_ok }) => if *install_ok {
            SessionState::CreateHangar
        } else {
            SessionState::Ended
        },
        (SessionState::Bootstrap, SessionEvent::AlreadyInstalled { loaded }) => if *loaded {
            SessionState::MainMenu
        } else {
            SessionState::CreateHangar
        },
        (SessionState::CreateHangar, SessionEvent::HangarReady { ok }) => if *ok {
            SessionState::MainMenu
        } else {
            SessionState::Ended
        },
        (SessionState::MainMenu, SessionEvent::Menu { step }) => match step {
            MainMenuStep::RunPreflight => SessionState::MainMenu,
            MainMenuStep::EnterFlightMenu => SessionState::FlightMenu,
            MainMenuStep::ExitSession => SessionState::Ended,
            MainMenuStep::Stay => SessionState::MainMenu,
        },
        (SessionState::FlightMenu, SessionEvent::Flights { substep }) => match substep {
            FlightMenuStep::CreateFlight => SessionState::FlightMenu,
            FlightMenuStep::SelectExisting => SessionState::FlightMenu,
            FlightMenuStep::ExitMenu => SessionState::MainMenu,
            FlightMenuStep::Abort => SessionState::MainMenu,
        },
        _ => s,
    }
}

/// The main menu's display texts, in order.
pub fn menu_options() -> (r: Vec<String>)
    ensures
        r@.len() == 3,
        r@[0]@ == "Preflight"@,
        r@[1]@ == "Manage Flights"@,
        r@[2]@ == "Exit"@,
{
    let mut options: Vec<String> = Vec::new();
    options.push(String::from_str("Preflight"));
    options.push(String::from_str("Manage Flights"));
    options.push(String::from_str("Exit"));
    options
}

/// The action behind a main-menu answer text, if the text is one of the
/// menu's options.
pub open spec fn menu_action_spec(answer: Seq<char>) -> Option<MenuAction> {
    if answer == "Preflight"@ {
        Some(MenuAction::Preflight)
    } else if answer == "Manage Flights"@ {
        Some(MenuAction::ManageFlights)
    } else if answer == "Exit"@ {
        Some(MenuAction::Exit)
    } else {
        None
    }
}

/// Recognise a main-menu answer.
pub fn menu_action_for(answer: &str) -> (r: Option<MenuAction>)
    ensures
        r == menu_action_spec(answer@),
{
    if str_eq(answer, "Preflight") {
        Some(MenuAction::Preflight)
    } else if str_eq(answer, "Manage Flights") {
        Some(MenuAction::ManageFlights)
    } else if str_eq(answer, "Exit") {
        Some(MenuAction::Exit)
    } else {
        None
    }
}

/// One round of the main-menu loop: what the prompt's result decides. A
/// prompt failure, with a diagnostic detail (`Err(Some(..))`) or without one
/// (`Err(None)`, no matching option), keeps the session in the main menu: a
/// single bad menu read never ends the session.
pub open spec fn hangar_ctl_spec(event: Result<MenuAction, Option<String>>) -> MainMenuStep {
    match event {
        Ok(MenuAction::Preflight) => MainMenuStep::RunPreflight,
        Ok(MenuAction::ManageFlights) => MainMenuStep::EnterFlightMenu,
        Ok(MenuAction::Exit) => MainMenuStep::ExitSession,
        Err(_) => MainMenuStep::Stay,
    }
}

/// Decide one round of the main-menu loop.
pub fn hangar_ctl(event: &Result<MenuAction, Option<String>>) -> (r: MainMenuStep)
    ensures
        r == hangar_ctl_spec(*event),
{
    match event {
        Ok(MenuAction::Preflight) => MainMenuStep::RunPreflight,
        Ok(MenuAction::ManageFlights) => MainMenuStep::EnterFlightMenu,
        Ok(MenuAction::Exit) => MainMenuStep::ExitSession,
        Err(_) => MainMenuStep::Stay,
    }
}

/// The flight-management submenu's display list: the flight names in stored
/// order, then always "Create New Flight", then always "Exit". The creation
/// and exit entries stand at the second-to-last and last positions whatever
/// the number of flights: the submenu decides by position, not by label.
pub fn flight_menu_options(hangar: &Hangar) -> (r: Vec<String>)
    ensures
        r@.len() == hangar@.flights.len() + 2,
        forall|i: int| 0 <= i < hangar@.flights.len() ==> r@[i]@ == hangar@.flights[i].name,
        r@[r@.len() - 2]@ == "Create New Flight"@,
        r@[r@.len() - 1]@ == "Exit"@,
{
    let mut names: Vec<String> = Vec::new();
    let mut i: usize = 0;
    while i < hangar.flights.len()
        invariant
            i <= hangar.flights@.len(),
            names@.len() == i,
            forall|j: int| 0 <= j < i ==> names@[j]@ == hangar@.flights[j].name,
        decreases hangar.flights@.len() - i,
    {
        names.push(hangar.flights[i].name.clone());
        i = i + 1;
    }
    names.push(String::from_str("Create New Flight"));
    names.push(String::from_str("Exit"));
    names
}

/// What a selection index means in the flight-management submenu, for a
/// display list of `option_count` entries: the second-to-last entry always
/// creates, the last always exits, the prompt's failure sentinel aborts, and
/// any other index names an existing flight.
pub open spec fn flight_management_spec(choice: int, option_count: int) -> FlightMenuStep {
    if choice == option_count - 2 {
        FlightMenuStep::CreateFlight
    } else if choice == option_count - 1 {
        FlightMenuStep::ExitMenu
    } else if choice == -1 {
        FlightMenuStep::Abort
    } else {
        FlightMenuStep::SelectExisting
    }
}

/// Decide one round of the flight-management submenu from the prompt's
/// selection index (`-1` is the prompt's irrecoverable-failure sentinel).
pub fn flight_management(choice: i32, option_count: usize) -> (r: FlightMenuStep)
    requires
        2 <= option_count <= i32::MAX,
    ensures
        r == flight_management_spec(choice as int, option_count as int),
{
    let count = option_count as i32;
    if choice == count - 2 {
        FlightMenuStep::CreateFlight
    } else if choice == count - 1 {
        FlightMenuStep::ExitMenu
    } else if choice == -1 {
        FlightMenuStep::Abort
    } else {
        FlightMenuStep::SelectExisting
    }
}

/// The hangar described by the answers to the hangar-creation questionnaire:
/// a present, non-empty name and a present description give a hangar with no
/// flights; an absent or empty name is `NoNameGiven`, and an absent
/// description `NoDescriptionGiven`.
pub open spec fn create_hangar_spec(name: Option<String>, description: Option<String>) -> Result<
    HangarSpec,
    HangarCreateError,
> {
    match name {
        None => Err(HangarCreateError::NoNameGiven),
        Some(n) => if n@.len() == 0 {
            Err(HangarCreateError::NoNameGiven)
        } else {
            match description {
                None => Err(HangarCreateError::NoDescriptionGiven),
                Some(d) => Ok(
                    HangarSpec { name: n@, description: d@, flights: Seq::<
                        crate::models::FlightSpec,
                    >::empty() },
                ),
            }
        },
    }
}

/// Build a hangar from the raw answers to the hangar-creation questionnaire.
pub fn create_hangar(name: Option<String>, description: Option<String>) -> (r: Result<
    Hangar,
    HangarCreateError,
>)
    ensures
        match r {
            Ok(h) => create_hangar_spec(name, description) == Ok::<HangarSpec, HangarCreateError>(
                h@,
            ) && h@.wf(),
            Err(e) => create_hangar_spec(name, description) == Err::<HangarSpec, HangarCreateError>(
                e,
            ),
        },
{
    match name {
        None => Err(HangarCreateError::NoNameGiven),
        Some(n) => {
            if n.as_str().is_empty() {
                Err(HangarCreateError::NoNameGiven)
            } else {
                match description {
                    None => Err(HangarCreateError::NoDescriptionGiven),
                    Some(d) => {
                        let h = Hangar { name: n, description: d, flights: Vec::new() };
                        proof {
                            assert(h@.flights =~= Seq::<crate::models::FlightSpec>::empty());
                        }
                        Ok(h)
                    },
                }
            }
        },
    }
}

/// Build a flight from the raw answers to the flight-creation questionnaire,
/// reporting `InvalidParameter` exactly when the answers do not describe a
/// well-formed flight.
pub fn create_flight(data: Vec<(String, String)>) -> (r: Result<Flight, FlightCreateError>)
    ensures
        match r {
            Ok(f) => flight_of_answers(data@) == Some(f@) && f@.wf(),
            Err(e) => flight_of_answers(data@) is None && e == FlightCreateError::InvalidParameter,
        },
{
    match Flight::new(data) {
        Some(flight) => Ok(flight),
        None => Err(FlightCreateError::InvalidParameter),
    }
}

/// The legacy load path of the hangar-selection flow. A hangar cannot be
/// read from its file name alone here: every call reports `NoNameGiven`, and
/// the selection flow falls back to creating a hangar. A caller that can
/// read the file itself decodes its text with
/// [`crate::persist::decode_hangar`] instead.
#[allow(unused_variables)]
pub fn load_hangar(hangar_file: String) -> (r: Result<Hangar, HangarCreateError>)
    ensures
        r matches Err(e) && e == HangarCreateError::NoNameGiven,
{
    Err(HangarCreateError::NoNameGiven)
}

} // verus!
