//! What the worker does from its beginning on, whatever it is told.

use vstd::prelude::*;

use crate::buf::Buf;
use crate::laws::lines::spelled;
use crate::mem::Module;
use crate::model::Model;
use crate::worker;
use crate::worker::{Command, Notice, Phase, Wait};

verus! {

/// What the worker is told at its steps, and the state at each of them.
pub struct Course {
    pub notices: Seq<Notice>,
    pub models: Seq<Model>,
}

/// The phase of the worker after so many steps.
pub open spec fn phase_after(course: Course, k: int) -> Phase
    decreases k,
{
    if k <= 0 {
        Phase::Start
    } else {
        worker::next(phase_after(course, k - 1), course.notices[k - 1], course.models[k - 1]).0
    }
}

/// The command that the worker gives at a step.
pub open spec fn command_at(course: Course, k: int) -> Command<Seq<u8>> {
    worker::next(phase_after(course, k), course.notices[k], course.models[k]).1
}

/// A tick was carried out before a step: the step before it gave the command.
pub open spec fn ticked(course: Course, k: int) -> bool {
    1 <= k && command_at(course, k - 1) is Tick
}

/// A report is logged at a step: a tick was carried out, and a line is logged.
pub open spec fn reports(course: Course, k: int) -> bool {
    ticked(course, k) && command_at(course, k) is Log
}

/// The time that was told to the worker for its tick is the one told last before it.
pub proof fn law_tick_is_timed(course: Course, k: int)
    requires
        ticked(course, k),
    ensures
        course.notices[k - 1] is Time,
        phase_after(course, k) matches Phase::Ticking { now, .. } && course.notices[k - 1]
            == Notice::Time(now),
{
}

/// The time of the last report, or the time that was told on attaching: the one that
/// the worker keeps.
spec fn kept(phase: Phase) -> Option<u64> {
    match phase {
        Phase::Timing { last_report, .. } => Some(last_report),
        Phase::Ticking { last_report, .. } => Some(last_report),
        Phase::Reporting { last_report, .. } => Some(last_report),
        Phase::Sleeping { last_report, .. } => Some(last_report),
        _ => None,
    }
}

proof fn lemma_kept(course: Course, i: int, j: int)
    requires
        0 <= i <= j,
        kept(phase_after(course, i)) is Some,
        forall|m: int| i <= m < j ==> !#[trigger] reports(course, m),
    ensures
        kept(phase_after(course, j)) == kept(phase_after(course, i)),
    decreases j - i,
{
    if i < j {
        lemma_kept(course, i, j - 1);
        let phase = phase_after(course, j - 1);
        assert(!reports(course, j - 1));
        if phase is Ticking {
            lemma_before_ticking(course, j - 1);
        }
    }
}

proof fn lemma_before_ticking(course: Course, k: int)
    requires
        phase_after(course, k) is Ticking,
    ensures
        ticked(course, k),
{
    let before = phase_after(course, k - 1);
    if before is Ticking {
        assert(worker::next(before, course.notices[k - 1], course.models[k - 1]).0 !is Ticking);
    }
}

/// After a report, the next one is logged after the first tick for which a time is
/// told that is a minute or more later than the time told for the tick of the last
/// report, and not before.
pub proof fn law_reports_apart(course: Course, i: int, j: int, s: u64, t: u64)
    requires
        i < j,
        reports(course, i),
        ticked(course, j),
        forall|m: int| i < m < j ==> !#[trigger] reports(course, m),
        course.notices[i - 1] == Notice::Time(s),
        course.notices[j - 1] == Notice::Time(t),
    ensures
        reports(course, j) <==> t.wrapping_sub(s) >= 60_000,
        s <= t ==> (reports(course, j) <==> t - s >= 60_000),
{
    law_tick_is_timed(course, i);
    law_tick_is_timed(course, j);
    assert(kept(phase_after(course, i + 1)) == Some(s));
    lemma_kept(course, i + 1, j);
}

/// The first report is logged after the first tick for which a time is told that is a
/// minute or more later than the time told on attaching, and not before.
pub proof fn law_first_report(course: Course, i: int, j: int, s: u64, t: u64)
    requires
        0 <= i < j,
        phase_after(course, i) is Arming,
        course.notices[i] == Notice::Time(s),
        ticked(course, j),
        course.notices[j - 1] == Notice::Time(t),
        forall|m: int| i < m < j ==> !#[trigger] reports(course, m),
    ensures
        reports(course, j) <==> t.wrapping_sub(s) >= 60_000,
        s <= t ==> (reports(course, j) <==> t - s >= 60_000),
{
    law_tick_is_timed(course, j);
    assert(kept(phase_after(course, i + 1)) == Some(s));
    lemma_kept(course, i + 1, j);
}

/// After a tick the worker logs its report if it is due, and else sleeps for two and a
/// half seconds; after a report it sleeps as long. After the sleep it asks for the time, as often as
/// it takes to be told, and ticks again on the same module.
pub proof fn law_round(phase: Phase, notice: Notice, model: Model)
    ensures
        ({
            let (after, command) = worker::next(phase, notice, model);
            let slept = Command::<Seq<u8>>::Sleep { ms: 2_500 };
            match phase {
                Phase::Ticking { module, last_report, now } => {
                    if now.wrapping_sub(last_report) < 60_000 {
                        command == slept && after == Phase::Sleeping { module, last_report }
                    } else {
                        command == Command::Log(worker::report_line(model)) && after
                            == Phase::Reporting { module, last_report: now }
                    }
                },
                Phase::Reporting { module, last_report } => {
                    command == slept && after == Phase::Sleeping { module, last_report }
                },
                Phase::Sleeping { module, last_report } => {
                    command == Command::<Seq<u8>>::Clock && after == Phase::Timing {
                        module,
                        last_report,
                    }
                },
                Phase::Timing { module, last_report } => match notice {
                    Notice::Time(now) => {
                        command == Command::<Seq<u8>>::Tick { module } && after
                            == Phase::Ticking { module, last_report, now }
                    },
                    _ => command == Command::<Seq<u8>>::Clock && after == phase,
                },
                _ => true,
            }
        }),
{
}

/// The worker opens its log, and ends at once if it cannot. It logs the module that it
/// finds, asks for the time, and goes on with its rounds from the time that it is told.
pub proof fn law_beginning(phase: Phase, notice: Notice, model: Model)
    ensures
        ({
            let (after, command) = worker::next(phase, notice, model);
            match phase {
                Phase::Start => command == Command::<Seq<u8>>::OpenLog && after == Phase::Opening,
                Phase::Opening => match notice {
                    Notice::Opened(true) => {
                        command == Command::<Seq<u8>>::Find && after == Phase::Seeking {
                            waited: 0,
                        }
                    },
                    Notice::Opened(false) => command == Command::<Seq<u8>>::Exit && after
                        == Phase::Over,
                    _ => command == Command::<Seq<u8>>::OpenLog && after == phase,
                },
                Phase::Seeking { waited } => match notice {
                    Notice::Found(Some(module)) => {
                        command == Command::Log(worker::attach_line(module)) && after
                            == Phase::Attached { module }
                    },
                    Notice::Found(None) => if waited < 30_000 {
                        command == Command::<Seq<u8>>::Sleep { ms: 500 } && after
                            == Phase::Pausing { waited: (waited + 500) as u32 }
                    } else {
                        command == Command::Log(spelled("Not loaded by EM-Win64-Shipping.exe"@))
                            && after == Phase::Refused
                    },
                    _ => command == Command::<Seq<u8>>::Find && after == phase,
                },
                Phase::Pausing { waited } => {
                    command == Command::<Seq<u8>>::Find && after == Phase::Seeking { waited }
                },
                Phase::Attached { module } => {
                    command == Command::<Seq<u8>>::Clock && after == Phase::Arming { module }
                },
                Phase::Arming { module } => match notice {
                    Notice::Time(t) => {
                        command == Command::<Seq<u8>>::Clock && after == Phase::Timing {
                            module,
                            last_report: t,
                        }
                    },
                    _ => command == Command::<Seq<u8>>::Clock && after == phase,
                },
                Phase::Refused => command == Command::<Seq<u8>>::Exit && after == Phase::Over,
                Phase::Over => command == Command::<Seq<u8>>::Exit && after == Phase::Over,
                _ => true,
            }
        }),
{
    reveal_strlit("Not loaded by EM-Win64-Shipping.exe");
    crate::laws::lines::lemma_spelled("Not loaded by EM-Win64-Shipping.exe");
}

/// The phase after so many looks for the module that found nothing, each with the pause
/// behind it.
pub open spec fn looked(k: nat, carried: Notice, model: Model) -> Phase
    decreases k,
{
    if k == 0 {
        Phase::Seeking { waited: 0 }
    } else {
        let pausing = worker::next(
            looked((k - 1) as nat, carried, model),
            Notice::Found(None),
            model,
        ).0;
        worker::next(pausing, carried, model).0
    }
}

/// The worker looks for the module every half a second, for half a minute: it pauses
/// after each of sixty looks in vain, and gives up after one more.
pub proof fn law_patience(k: nat, carried: Notice, model: Model)
    requires
        k <= 60,
    ensures
        looked(k, carried, model) == (Phase::Seeking { waited: (500 * k) as u32 }),
        ({
            let (after, command) = worker::next(
                looked(k, carried, model),
                Notice::Found(None),
                model,
            );
            if k < 60 {
                command == Command::<Seq<u8>>::Sleep { ms: 500 }
            } else {
                &&& command == Command::Log(spelled("Not loaded by EM-Win64-Shipping.exe"@))
                &&& worker::next(after, carried, model) == (
                    Phase::Over,
                    Command::<Seq<u8>>::Exit,
                )
            }
        }),
    decreases k,
{
    reveal_strlit("Not loaded by EM-Win64-Shipping.exe");
    crate::laws::lines::lemma_spelled("Not loaded by EM-Win64-Shipping.exe");
    if k > 0 {
        law_patience((k - 1) as nat, carried, model);
    }
}

/// A look that finds the module ends the wait, however long it was, and one that does
/// not ends it if and only if the worker has waited for half a minute or more.
pub proof fn law_wait(found: Option<Module>, waited: u32)
    ensures
        found matches Some(module) ==> worker::waited_for(found, waited) == (Wait::Ready {
            module,
        }),
        found is None && waited >= 30_000 ==> worker::waited_for(found, waited) == Wait::GiveUp,
        found is None && waited < 30_000 ==> worker::waited_for(found, waited) == (Wait::Again {
            waited: (waited + 500) as u32,
        }),
{
}

/// What the caller is told to do is what the step says, and what it is told to log is
/// the line as it stands.
pub proof fn law_commands_told(command: Command<Buf>)
    ensures
        match command {
            Command::OpenLog => command.plain() == Command::<Seq<u8>>::OpenLog,
            Command::Find => command.plain() == Command::<Seq<u8>>::Find,
            Command::Clock => command.plain() == Command::<Seq<u8>>::Clock,
            Command::Tick { module } => command.plain() == (Command::<Seq<u8>>::Tick { module }),
            Command::Sleep { ms } => command.plain() == (Command::<Seq<u8>>::Sleep { ms }),
            Command::Log(line) => command.plain() == Command::<Seq<u8>>::Log(line@),
            Command::Exit => command.plain() == Command::<Seq<u8>>::Exit,
        },
{
}

} // verus!
