//! The worker that waits for the game, then ticks and reports from time to time.
//!
//! The worker runs in steps. Each call of `run` takes in what came of the last
//! command and gives the next one.

use vstd::prelude::*;

use crate::buf;
use crate::buf::Buf;
use crate::mem::Module;
use crate::model::Model;
use crate::uncensor::{cam_calls, cams_last, func_ok, known, scans, walk_ms, State};

verus! {

/// The module that the game runs from.
pub const TARGET_MODULE: &'static str = "EM-Win64-Shipping.exe";

/// The log line for a process that is not the game's.
pub const NOT_LOADED: &'static str = "Not loaded by EM-Win64-Shipping.exe";

/// The pause between ticks, in milliseconds.
pub const TICK_MS: u32 = 2_500;

/// The time between reports, in milliseconds.
pub const HEARTBEAT_MS: u64 = 60_000;

/// How long the module is waited for, in milliseconds.
pub const PATIENCE_MS: u32 = 30_000;

/// The pause between looks for the module, in milliseconds.
pub const POLL_MS: u32 = 500;

/// What to do after a look for the module.
#[derive(Clone, Copy, Debug, PartialEq, Eq, Structural)]
pub enum Wait {
    /// It is there.
    Ready { module: Module },
    /// Look again after a pause, having waited so long.
    Again { waited: u32 },
    /// It will not come.
    GiveUp,
}

/// How far the worker has come.
#[derive(Clone, Copy, Debug, PartialEq, Eq, Structural)]
pub enum Phase {
    /// Nothing was done yet.
    Start,
    /// The log is being opened.
    Opening,
    /// The module is being looked for, after a wait.
    Seeking { waited: u32 },
    /// A pause before the next look.
    Pausing { waited: u32 },
    /// The module did not come, which is being logged.
    Refused,
    /// The module is there, which is being logged.
    Attached { module: Module },
    /// The time before the first tick is being asked.
    Arming { module: Module },
    /// The time of a tick is being asked.
    Timing { module: Module, last_report: u64 },
    /// A tick runs.
    Ticking { module: Module, last_report: u64, now: u64 },
    /// A report is being logged.
    Reporting { module: Module, last_report: u64 },
    /// A pause before the next tick.
    Sleeping { module: Module, last_report: u64 },
    /// The worker has ended.
    Over,
}

/// What the caller has to do.
#[derive(Debug)]
pub enum Command<L> {
    /// Open the log, and tell whether that worked.
    OpenLog,
    /// Look for the module `TARGET_MODULE`, and tell what was found.
    Find,
    /// Tell the time.
    Clock,
    /// Run a tick to its end.
    Tick { module: Module },
    /// Sleep for so many milliseconds.
    Sleep { ms: u32 },
    /// Write a line to the log.
    Log(L),
    /// End.
    Exit,
}

/// What came of the last command.
#[derive(Clone, Copy, Debug, PartialEq, Eq, Structural)]
pub enum Notice {
    /// The log was opened, or not.
    Opened(bool),
    /// The module that was found, if any.
    Found(Option<Module>),
    /// The time, in milliseconds.
    Time(u64),
    /// It was done.
    Carried,
}

/// The module is waited for until it is there or patience runs out.
pub open spec fn waited_for(found: Option<Module>, waited: u32) -> Wait {
    match found {
        Some(module) => Wait::Ready { module },
        None => if waited >= PATIENCE_MS {
            Wait::GiveUp
        } else {
            Wait::Again { waited: (waited + POLL_MS) as u32 }
        },
    }
}

/// The line that tells of the module.
pub open spec fn attach_line(module: Module) -> Seq<u8> {
    buf::text(TARGET_MODULE) + buf::text(" @ 0x") + buf::padded(
        buf::digits(module.base as nat, 16),
        0,
    ) + buf::text(" size=0x") + buf::padded(buf::digits(module.size as nat, 16), 0)
}

/// The line that tells how the worker fares.
pub open spec fn report_line(model: Model) -> Seq<u8> {
    buf::text("called ") + buf::digits(model.cam_calls as nat, 10) + buf::text(" times, cameras ")
        + buf::digits(model.cams_last as nat, 10) + buf::text(", known ") + buf::digits(
        model.known.len(),
        10,
    ) + buf::text(", walk ") + buf::digits(model.scan_ms as nat, 10) + buf::text("ms x")
        + buf::digits(model.scans as nat, 10) + buf::text(", func ") + if model.func != 0 {
        buf::text("ok")
    } else {
        buf::text("MISSING")
    }
}

/// A report is due.
pub open spec fn report_due(last_report: u64, now: u64) -> bool {
    now.wrapping_sub(last_report) >= HEARTBEAT_MS
}

/// The next phase and the command that begins it. A notice of another kind than
/// the phase waits for has the command given again.
pub open spec fn next(phase: Phase, notice: Notice, model: Model) -> (Phase, Command<Seq<u8>>) {
    match phase {
        Phase::Start => (Phase::Opening, Command::OpenLog),
        Phase::Opening => match notice {
            Notice::Opened(true) => (Phase::Seeking { waited: 0 }, Command::Find),
            Notice::Opened(false) => (Phase::Over, Command::Exit),
            _ => (phase, Command::OpenLog),
        },
        Phase::Seeking { waited } => match notice {
            Notice::Found(found) => match waited_for(found, waited) {
                Wait::Ready { module } => (
                    Phase::Attached { module },
                    Command::Log(attach_line(module)),
                ),
                Wait::Again { waited } => (
                    Phase::Pausing { waited },
                    Command::Sleep { ms: POLL_MS },
                ),
                Wait::GiveUp => (Phase::Refused, Command::Log(buf::text(NOT_LOADED))),
            },
            _ => (phase, Command::Find),
        },
        Phase::Pausing { waited } => (Phase::Seeking { waited }, Command::Find),
        Phase::Refused => (Phase::Over, Command::Exit),
        Phase::Attached { module } => (Phase::Arming { module }, Command::Clock),
        Phase::Arming { module } => match notice {
            Notice::Time(t) => (Phase::Timing { module, last_report: t }, Command::Clock),
            _ => (phase, Command::Clock),
        },
        Phase::Timing { module, last_report } => match notice {
            Notice::Time(now) => (
                Phase::Ticking { module, last_report, now },
                Command::Tick { module },
            ),
            _ => (phase, Command::Clock),
        },
        Phase::Ticking { module, last_report, now } => if report_due(last_report, now) {
            (
                Phase::Reporting { module, last_report: now },
                Command::Log(report_line(model)),
            )
        } else {
            (Phase::Sleeping { module, last_report }, Command::Sleep { ms: TICK_MS })
        },
        Phase::Reporting { module, last_report } => (
            Phase::Sleeping { module, last_report },
            Command::Sleep { ms: TICK_MS },
        ),
        Phase::Sleeping { module, last_report } => (
            Phase::Timing { module, last_report },
            Command::Clock,
        ),
        Phase::Over => (Phase::Over, Command::Exit),
    }
}

impl Command<Buf> {
    /// The command with the line that it logs, if it does.
    pub open spec fn plain(self) -> Command<Seq<u8>> {
        match self {
            Command::OpenLog => Command::OpenLog,
            Command::Find => Command::Find,
            Command::Clock => Command::Clock,
            Command::Tick { module } => Command::Tick { module },
            Command::Sleep { ms } => Command::Sleep { ms },
            Command::Log(line) => Command::Log(line@),
            Command::Exit => Command::Exit,
        }
    }
}

/// Says what to do after a look for the module that came after a wait of `waited`
/// milliseconds.
pub fn wait_for_module(found: Option<Module>, waited: u32) -> (r: Wait)
    ensures
        r == waited_for(found, waited),
{
    match found {
        Some(module) => Wait::Ready { module },
        None => if waited >= PATIENCE_MS {
            Wait::GiveUp
        } else {
            Wait::Again { waited: waited + POLL_MS }
        },
    }
}

/// Tells of the module.
pub fn attach(module: &Module) -> (line: Buf)
    ensures
        line@ == attach_line(*module),
{
    let mut b = Buf::new();
    b.push_str(TARGET_MODULE);
    b.push_str(" @ 0x");
    b.push_hex(module.base as u64, 0);
    b.push_str(" size=0x");
    b.push_hex(module.size as u64, 0);
    assert(b@ =~= attach_line(*module));
    b
}

/// Tells how the worker fares.
pub fn report(state: &State) -> (line: Buf)
    ensures
        line@ == report_line(state@),
{
    let mut b = Buf::new();
    b.push_str("called ");
    b.push_u64(cam_calls(state));
    b.push_str(" times, cameras ");
    b.push_u64(cams_last(state));
    b.push_str(", known ");
    b.push_u64(known(state));
    b.push_str(", walk ");
    b.push_u64(walk_ms(state));
    b.push_str("ms x");
    b.push_u64(scans(state));
    b.push_str(", func ");
    if func_ok(state) {
        b.push_str("ok");
    } else {
        b.push_str("MISSING");
    }
    assert(b@ =~= report_line(state@));
    b
}

/// Takes one step of the worker: takes in what came of the last command, and gives
/// the next one.
pub fn run(phase: &mut Phase, notice: Notice, state: &State) -> (command: Command<Buf>)
    ensures
        (*final(phase), command.plain()) == next(*old(phase), notice, state@),
{
    let (after, command) = match *phase {
        Phase::Start => (Phase::Opening, Command::OpenLog),
        Phase::Opening => match notice {
            Notice::Opened(true) => (Phase::Seeking { waited: 0 }, Command::Find),
            Notice::Opened(false) => (Phase::Over, Command::Exit),
            _ => (Phase::Opening, Command::OpenLog),
        },
        Phase::Seeking { waited } => match notice {
            Notice::Found(found) => match wait_for_module(found, waited) {
                Wait::Ready { module } => (
                    Phase::Attached { module },
                    Command::Log(attach(&module)),
                ),
                Wait::Again { waited } => (
                    Phase::Pausing { waited },
                    Command::Sleep { ms: POLL_MS },
                ),
                Wait::GiveUp => {
                    let mut line = Buf::new();
                    line.push_str(NOT_LOADED);
                    assert(line@ =~= buf::text(NOT_LOADED));
                    (Phase::Refused, Command::Log(line))
                },
            },
            _ => (Phase::Seeking { waited }, Command::Find),
        },
        Phase::Pausing { waited } => (Phase::Seeking { waited }, Command::Find),
        Phase::Refused => (Phase::Over, Command::Exit),
        Phase::Attached { module } => (Phase::Arming { module }, Command::Clock),
        Phase::Arming { module } => match notice {
            Notice::Time(t) => (Phase::Timing { module, last_report: t }, Command::Clock),
            _ => (Phase::Arming { module }, Command::Clock),
        },
        Phase::Timing { module, last_report } => match notice {
            Notice::Time(now) => (
                Phase::Ticking { module, last_report, now },
                Command::Tick { module },
            ),
            _ => (Phase::Timing { module, last_report }, Command::Clock),
        },
        Phase::Ticking { module, last_report, now } => if now.wrapping_sub(last_report)
            >= HEARTBEAT_MS {
            (Phase::Reporting { module, last_report: now }, Command::Log(report(state)))
        } else {
            (Phase::Sleeping { module, last_report }, Command::Sleep { ms: TICK_MS })
        },
        Phase::Reporting { module, last_report } => (
            Phase::Sleeping { module, last_report },
            Command::Sleep { ms: TICK_MS },
        ),
        Phase::Sleeping { module, last_report } => (
            Phase::Timing { module, last_report },
            Command::Clock,
        ),
        Phase::Over => (Phase::Over, Command::Exit),
    };
    *phase = after;
    command
}

} // verus!
