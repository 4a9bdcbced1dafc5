//! The agent as a program and as a service of Windows.
use vstd::prelude::*;

use crate::text::{optional_str, same};

verus! {

/// What the program is started for.
#[derive(Clone, Copy, Debug, PartialEq, Eq, Structural)]
pub enum Command {
    Service,
    Console,
    Version,
    Reset,
    Help,
}

/// What the program is started for, by its first argument.
pub open spec fn command_of(argument: Option<Seq<char>>) -> Command {
    if argument == Some("--service"@) {
        Command::Service
    } else if argument == Some("--console"@) {
        Command::Console
    } else if argument == Some("--version"@) {
        Command::Version
    } else if argument == Some("--reset"@) {
        Command::Reset
    } else {
        Command::Help
    }
}

/// Each argument starts the program for one thing, and any other argument, or none, shows the
/// help.
pub proof fn law_arguments_name_their_command(argument: Option<Seq<char>>)
    ensures
        command_of(argument) == Command::Service <==> argument == Some("--service"@),
        command_of(argument) == Command::Console <==> argument == Some("--console"@),
        command_of(argument) == Command::Version <==> argument == Some("--version"@),
        command_of(argument) == Command::Reset <==> argument == Some("--reset"@),
{
    reveal_strlit("--service");
    reveal_strlit("--console");
    reveal_strlit("--version");
    reveal_strlit("--reset");
    assert("--service"@[2] == 's' && "--console"@[2] == 'c' && "--version"@[2] == 'v' && "--reset"@[2] == 'r');
}

/// What the program is started for, by its first argument.
pub fn command(argument: Option<&str>) -> (r: Command)
    ensures
        r == command_of(optional_str(argument)),
{
    match argument {
        None => Command::Help,
        Some(a) => if same(a, "--service") {
            Command::Service
        } else if same(a, "--console") {
            Command::Console
        } else if same(a, "--version") {
            Command::Version
        } else if same(a, "--reset") {
            Command::Reset
        } else {
            Command::Help
        },
    }
}

/// What Windows asks of the service.
#[derive(Clone, Copy, Debug, PartialEq, Eq, Structural)]
pub enum Control {
    Stop,
    Shutdown,
    Interrogate,
    Other,
}

/// What the service does with what Windows asks of it.
#[derive(Clone, Copy, Debug, PartialEq, Eq, Structural)]
pub enum ControlReply {
    /// Stop, and say that all is well.
    Stop,
    /// Say that all is well.
    Fine,
    /// Say that this is not known.
    Unknown,
}

/// What the service does with what Windows asks of it.
pub open spec fn reply_to(control: Control) -> ControlReply {
    match control {
        Control::Stop | Control::Shutdown => ControlReply::Stop,
        Control::Interrogate => ControlReply::Fine,
        Control::Other => ControlReply::Unknown,
    }
}

/// The service stops when it is told to or the machine shuts down, and for nothing else; it knows
/// one more question, and says of everything else that it does not.
pub proof fn law_the_service_stops_when_told(control: Control)
    ensures
        reply_to(control) == ControlReply::Stop <==> control == Control::Stop || control == Control::Shutdown,
        reply_to(control) == ControlReply::Fine <==> control == Control::Interrogate,
{
}

/// What the service does with what Windows asks of it.
pub fn on_control(control: Control) -> (r: ControlReply)
    ensures
        r == reply_to(control),
{
    match control {
        Control::Stop | Control::Shutdown => ControlReply::Stop,
        Control::Interrogate => ControlReply::Fine,
        Control::Other => ControlReply::Unknown,
    }
}

/// How far the service is.
#[derive(Clone, Copy, Debug, PartialEq, Eq, Structural)]
pub enum ServiceState {
    Starting,
    Running,
    /// Stopped; whether it failed.
    Stopped(bool),
}

/// What the service tells Windows of itself.
#[derive(Clone, Copy, Debug, PartialEq, Eq, Structural)]
pub struct ServiceStatus {
    /// Whether it can be stopped: only while it runs.
    pub stoppable: bool,
    /// The code with which it failed.
    pub failure: Option<u32>,
    /// The seconds in which the next change is to be expected.
    pub wait_seconds: u64,
}

/// What the service tells Windows of itself.
pub open spec fn status_in(state: ServiceState) -> ServiceStatus {
    ServiceStatus {
        stoppable: state == ServiceState::Running,
        failure: if state == ServiceState::Stopped(true) {
            Some(1u32)
        } else {
            None
        },
        wait_seconds: 10,
    }
}

/// The service can be stopped exactly while it runs, and tells of a failure exactly where it
/// stopped with one.
pub proof fn law_only_a_running_service_can_be_stopped(state: ServiceState)
    ensures
        status_in(state).stoppable <==> state is Running,
        status_in(state).failure is Some <==> (state matches ServiceState::Stopped(failed) && failed),
        status_in(state).failure matches Some(code) ==> code == 1,
        status_in(state).wait_seconds == 10,
{
}

/// What the service tells Windows of itself.
pub fn status(state: ServiceState) -> (r: ServiceStatus)
    ensures
        r == status_in(state),
{
    let stoppable = state == ServiceState::Running;
    let failure: Option<u32> = if state == ServiceState::Stopped(true) {
        Some(1)
    } else {
        None
    };
    ServiceStatus { stoppable, failure, wait_seconds: 10 }
}

} // verus!
