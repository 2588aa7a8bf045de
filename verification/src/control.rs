//! The run controller's failure-isolation state machine, the fixed display
//! command sequences, and the startup checks. The controller keeps a
//! long-running device daemon alive: a failed cycle falls back to a minimal
//! text render, and only a failure of that fallback stops the process.

use vstd::prelude::*;
use vstd::string::StringExecFns;

verus! {

/// The states of one display cycle.
#[derive(Clone, Copy, PartialEq, Eq, Structural, Debug)]
pub enum CycleState {
    Idle,
    Running,
    Success,
    Recovered,
    Fatal,
}

/// What happened while a cycle ran: the pipeline finished, or it faulted
/// and the minimal fallback render either reached the display or did not.
#[derive(Clone, Copy, PartialEq, Eq, Structural, Debug)]
pub enum CycleEvent {
    Start,
    PipelineOk,
    PipelineFault { fallback_shown: bool },
}

/// One transition of the cycle state machine: a fault is recovered when
/// the fallback render reached the display, fatal when even that failed;
/// a finished cycle — recovered or not — can start the next one; the fatal
/// state is terminal.
pub fn cycle_step(state: CycleState, event: CycleEvent) -> (next: CycleState)
    ensures
        next == (match (state, event) {
            (CycleState::Idle, CycleEvent::Start) => CycleState::Running,
            (CycleState::Success, CycleEvent::Start) => CycleState::Running,
            (CycleState::Recovered, CycleEvent::Start) => CycleState::Running,
            (CycleState::Running, CycleEvent::PipelineOk) => CycleState::Success,
            (
                CycleState::Running,
                CycleEvent::PipelineFault { fallback_shown },
            ) => if fallback_shown {
                CycleState::Recovered
            } else {
                CycleState::Fatal
            },
            (CycleState::Fatal, _) => CycleState::Fatal,
            (s, _) => s,
        }),
{
    match (state, event) {
        (CycleState::Idle, CycleEvent::Start) => CycleState::Running,
        (CycleState::Success, CycleEvent::Start) => CycleState::Running,
        (CycleState::Recovered, CycleEvent::Start) => CycleState::Running,
        (CycleState::Running, CycleEvent::PipelineOk) => CycleState::Success,
        (CycleState::Running, CycleEvent::PipelineFault { fallback_shown }) => {
            if fallback_shown {
                CycleState::Recovered
            } else {
                CycleState::Fatal
            }
        },
        (CycleState::Fatal, _) => CycleState::Fatal,
        (s, _) => s,
    }
}

/// Whether the scheduler may start another cycle: only the fatal state —
/// even the minimal display path is broken — stops the process.
pub fn cycle_continues(state: CycleState) -> (r: bool)
    ensures
        r == !(state is Fatal),
{
    !matches!(state, CycleState::Fatal)
}

/// The controller never leaves the fatal state: once the fallback render
/// has failed, no event resumes scheduling.
pub proof fn lemma_fatal_is_terminal(event: CycleEvent)
    ensures
        cycle_step_spec(CycleState::Fatal, event) == CycleState::Fatal,
{
}

/// The transition table as a spec function, for stating laws about runs of
/// the machine.
pub open spec fn cycle_step_spec(state: CycleState, event: CycleEvent) -> CycleState {
    match (state, event) {
        (CycleState::Idle, CycleEvent::Start) => CycleState::Running,
        (CycleState::Success, CycleEvent::Start) => CycleState::Running,
        (CycleState::Recovered, CycleEvent::Start) => CycleState::Running,
        (CycleState::Running, CycleEvent::PipelineOk) => CycleState::Success,
        (
            CycleState::Running,
            CycleEvent::PipelineFault { fallback_shown },
        ) => if fallback_shown {
            CycleState::Recovered
        } else {
            CycleState::Fatal
        },
        (CycleState::Fatal, _) => CycleState::Fatal,
        (s, _) => s,
    }
}

/// One command to the physical display, with the fixed pauses between
/// commands that avoid ghosting artifacts.
pub enum DeviceCommand {
    /// Paint the full-screen region.
    FillRegion,
    /// Pause for the given number of milliseconds.
    Wait(u64),
    /// Clear the display.
    Clear,
    /// Show the image stored at the given path.
    ShowImage(String),
    /// Show a line of text.
    ShowText(String),
}

/// The fixed sequence that puts a finished image on the display: the
/// triple clear with one-second pauses, then the image.
pub fn screen_update_commands(path: String) -> (r: Vec<DeviceCommand>)
    ensures
        r@.len() == 7,
        r@[0] is FillRegion,
        r@[1] == DeviceCommand::Wait(1000),
        r@[2] is Clear,
        r@[3] == DeviceCommand::Wait(1000),
        r@[4] is FillRegion,
        r@[5] == DeviceCommand::Wait(1000),
        r@[6] matches DeviceCommand::ShowImage(p) && p@ == path@,
{
    let mut r: Vec<DeviceCommand> = Vec::new();
    r.push(DeviceCommand::FillRegion);
    r.push(DeviceCommand::Wait(1000));
    r.push(DeviceCommand::Clear);
    r.push(DeviceCommand::Wait(1000));
    r.push(DeviceCommand::FillRegion);
    r.push(DeviceCommand::Wait(1000));
    r.push(DeviceCommand::ShowImage(path));
    r
}

/// The minimal fallback sequence that shows a fault message, quoted, after
/// clearing the display.
pub fn panic_display_commands(message: &str) -> (r: Vec<DeviceCommand>)
    ensures
        r@.len() == 4,
        r@[0] == DeviceCommand::Wait(2000),
        r@[1] is Clear,
        r@[2] == DeviceCommand::Wait(2000),
        r@[3] matches DeviceCommand::ShowText(t) && t@ == seq!['"'] + message@ + seq!['"'],
{
    let mut quoted: Vec<char> = Vec::new();
    quoted.push('"');
    let msg = crate::text::chars_of(message);
    crate::text::push_all(&mut quoted, &msg);
    quoted.push('"');
    proof {
        assert(quoted@ =~= seq!['"'] + message@ + seq!['"']);
    }
    let mut r: Vec<DeviceCommand> = Vec::new();
    r.push(DeviceCommand::Wait(2000));
    r.push(DeviceCommand::Clear);
    r.push(DeviceCommand::Wait(2000));
    r.push(DeviceCommand::ShowText(crate::text::string_from_chars(&quoted)));
    r
}

/// Check that every credential file was found, reporting the first missing
/// one: calendar credentials, then the weather key, then the radar station.
pub fn check_sensitives(calendar: bool, weather: bool, bom: bool) -> (r: Result<(), String>)
    ensures
        r is Ok <==> calendar && weather && bom,
        !calendar ==> (r matches Err(e) && e@ == "No sensitive/creds.json"@),
        calendar && !weather ==> (r matches Err(e) && e@ == "No sensitive/openweatherkey.json"@),
        calendar && weather && !bom ==> (r matches Err(e) && e@ == "No sensitive/bom.json"@),
{
    if calendar {
        if weather {
            if bom {
                Ok(())
            } else {
                Err(String::from_str("No sensitive/bom.json"))
            }
        } else {
            Err(String::from_str("No sensitive/openweatherkey.json"))
        }
    } else {
        Err(String::from_str("No sensitive/creds.json"))
    }
}

/// Seconds until the next quarter-hour boundary, computed from the current
/// wall-clock minute and second.
pub fn duration_until_next_interval(minute: u32, second: u32) -> (r: u64)
    requires
        minute < 60,
        second < 60,
    ensures
        r == (15 - minute % 15) * 60 - second,
{
    let next_interval_minutes: u32 = 15 - (minute % 15);
    (next_interval_minutes * 60 - second) as u64
}

} // verus!
