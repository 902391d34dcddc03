//! A run of `sfdisk`, which reads a script from its standard input.

use crate::command::message;
use vstd::prelude::*;
use vstd::string::*;

verus! {

/// What is to be done next in a run.
#[derive(Debug, Clone, Copy, PartialEq, Eq, Structural)]
pub enum SfdStep {
    /// Start the program, with its input, output and errors piped.
    Spawn,
    /// Write the script to its input.
    Write,
    /// Flush its input.
    Flush,
    /// Close its input, without which it would not go on, and await its end.
    CloseAndWait,
    /// Read what it wrote to its standard error.
    ReadErrors,
}

/// What came of a step.
#[derive(Debug, PartialEq, Eq)]
pub enum SfdEvent {
    /// It was done.
    Done,
    /// It failed, for this reason.
    Failed(String),
    /// The program has ended, with success or not.
    Exited(bool),
    /// This was read.
    Read(String),
}

/// What came of a step, as contracts speak of it.
pub enum SfdEventView {
    Done,
    Failed(Seq<char>),
    Exited(bool),
    Read(Seq<char>),
}

impl View for SfdEvent {
    type V = SfdEventView;

    open spec fn view(&self) -> SfdEventView {
        match self {
            SfdEvent::Done => SfdEventView::Done,
            SfdEvent::Failed(e) => SfdEventView::Failed(e@),
            SfdEvent::Exited(success) => SfdEventView::Exited(*success),
            SfdEvent::Read(text) => SfdEventView::Read(text@),
        }
    }
}

/// How a run goes on.
#[derive(Debug, PartialEq, Eq)]
pub enum SfdNext {
    Do(SfdStep),
    Finish(Result<(), String>),
}

/// How a run goes on, as contracts speak of it.
pub enum SfdNextView {
    Do(SfdStep),
    Finish(Result<(), Seq<char>>),
}

impl View for SfdNext {
    type V = SfdNextView;

    open spec fn view(&self) -> SfdNextView {
        match self {
            SfdNext::Do(step) => SfdNextView::Do(*step),
            SfdNext::Finish(Ok(())) => SfdNextView::Finish(Ok(())),
            SfdNext::Finish(Err(m)) => SfdNextView::Finish(Err(m@)),
        }
    }
}

/// Whether a step can come to this: each can fail, waiting ends in an end,
/// reading in a text, and the others in being done.
pub open spec fn can_come_of(step: SfdStep, event: SfdEventView) -> bool {
    match (step, event) {
        (_, SfdEventView::Failed(_)) => true,
        (SfdStep::CloseAndWait, SfdEventView::Exited(_)) => true,
        (SfdStep::ReadErrors, SfdEventView::Read(_)) => true,
        (SfdStep::Spawn | SfdStep::Write | SfdStep::Flush, SfdEventView::Done) => true,
        _ => false,
    }
}

/// What is said when a step fails.
pub open spec fn failure_text(step: SfdStep) -> Seq<char> {
    match step {
        SfdStep::Spawn => "Could not spawn sfdisk: "@,
        SfdStep::Write => "Could not write stdin: "@,
        SfdStep::Flush => "Could not flush stdin: "@,
        SfdStep::CloseAndWait => "Couldn't join sfdisk: "@,
        SfdStep::ReadErrors => "sfdisk error: could not read sfdisk stderr: "@,
    }
}

/// How a run goes on after a step that came to this.
pub open spec fn sfd_next(step: SfdStep, event: SfdEventView) -> SfdNextView {
    match event {
        SfdEventView::Failed(e) => SfdNextView::Finish(Err(failure_text(step) + e)),
        SfdEventView::Exited(true) => SfdNextView::Finish(Ok(())),
        SfdEventView::Exited(false) => SfdNextView::Do(SfdStep::ReadErrors),
        SfdEventView::Read(text) => SfdNextView::Finish(Err("sfdisk error: "@ + text)),
        SfdEventView::Done => SfdNextView::Do(
            match step {
                SfdStep::Spawn => SfdStep::Write,
                SfdStep::Write => SfdStep::Flush,
                _ => SfdStep::CloseAndWait,
            },
        ),
    }
}

/// How a run goes on after a step that came to this. A run begins with `Spawn`.
pub fn run_sfd_script(step: SfdStep, event: SfdEvent) -> (r: SfdNext)
    requires
        can_come_of(step, event@),
    ensures
        r@ == sfd_next(step, event@),
{
    match event {
        SfdEvent::Failed(e) => {
            let text: &str = match step {
                SfdStep::Spawn => "Could not spawn sfdisk: ",
                SfdStep::Write => "Could not write stdin: ",
                SfdStep::Flush => "Could not flush stdin: ",
                SfdStep::CloseAndWait => "Couldn't join sfdisk: ",
                SfdStep::ReadErrors => "sfdisk error: could not read sfdisk stderr: ",
            };
            SfdNext::Finish(Err(message(text, &e)))
        },
        SfdEvent::Exited(true) => SfdNext::Finish(Ok(())),
        SfdEvent::Exited(false) => SfdNext::Do(SfdStep::ReadErrors),
        SfdEvent::Read(text) => SfdNext::Finish(Err(message("sfdisk error: ", &text))),
        SfdEvent::Done => SfdNext::Do(
            match step {
                SfdStep::Spawn => SfdStep::Write,
                SfdStep::Write => SfdStep::Flush,
                _ => SfdStep::CloseAndWait,
            },
        ),
    }
}

/// What the user is told before a run, with the device as it is shown.
pub fn starting_message(device: &str) -> (r: String)
    ensures
        r@ == "Starting sfdisk on device "@ + device@,
{
    message("Starting sfdisk on device ", device)
}

/// How a run that is at `step` goes on after these events.
pub open spec fn sfd_run(step: SfdStep, events: Seq<SfdEventView>) -> SfdNextView
    decreases events.len(),
{
    if events.len() == 0 {
        SfdNextView::Do(step)
    } else {
        match sfd_next(step, events[0]) {
            SfdNextView::Do(next) => sfd_run(next, events.skip(1)),
            finished => finished,
        }
    }
}

/// Whether each event can come of the step that it follows, up to the end of
/// the run.
pub open spec fn is_run(step: SfdStep, events: Seq<SfdEventView>) -> bool
    decreases events.len(),
{
    events.len() > 0 ==> {
        &&& can_come_of(step, events[0])
        &&& match sfd_next(step, events[0]) {
            SfdNextView::Do(next) => is_run(next, events.skip(1)),
            _ => events.len() == 1,
        }
    }
}

/// A run succeeds exactly if the program was started, the whole script was
/// written and flushed, and the program then ended with success.
pub proof fn law_sfd_run_succeeds(events: Seq<SfdEventView>)
    requires
        is_run(SfdStep::Spawn, events),
    ensures
        sfd_run(SfdStep::Spawn, events) == SfdNextView::Finish(Ok(())) <==> events == seq![
            SfdEventView::Done,
            SfdEventView::Done,
            SfdEventView::Done,
            SfdEventView::Exited(true),
        ],
{
    reveal_with_fuel(sfd_run, 6);
    reveal_with_fuel(is_run, 6);
    let success = seq![
        SfdEventView::Done,
        SfdEventView::Done,
        SfdEventView::Done,
        SfdEventView::Exited(true),
    ];
    if sfd_run(SfdStep::Spawn, events) == SfdNextView::Finish(Ok(())) {
        assert(events =~= success);
    }
}

/// A run ends after at most five steps.
pub proof fn law_sfd_run_ends(events: Seq<SfdEventView>)
    requires
        is_run(SfdStep::Spawn, events),
    ensures
        events.len() <= 5,
        events.len() == 5 ==> sfd_run(SfdStep::Spawn, events) is Finish,
{
    reveal_with_fuel(sfd_run, 7);
    reveal_with_fuel(is_run, 7);
}

} // verus!
