//! What contracts speak of is what the values hold, field by field.

use crate::command::{command_views, Arg, ArgView, CommandLine, Place};
use crate::copy::{
    CopyAction, CopyActionView, CopyEvent, CopyEventView, CopyNext, CopyNextView, CopyPhase, CopyRun,
    PhaseView,
};
use crate::install::{action_views, Action, ActionView};
use crate::json::{json_views, Json, JsonView};
use crate::part::{part_views, Part};
use crate::plan::{outcome_view, PlanNext, PlanNextView};
use crate::sfdisk::{SfdEvent, SfdEventView, SfdNext, SfdNextView};
use crate::tree::{
    TreeAction, TreeActionView, TreeEvent, TreeEventView, TreeNext, TreeNextView, TreeRun,
};
use vstd::prelude::*;

verus! {

/// A partition is spoken of by all of its fields.
pub proof fn law_part_view(p: Part)
    ensures
        p@.number == p.number,
        p@.start == p.start,
        p@.size == p.size,
        p@.type_uuid == p.type_uuid,
        p@.part_uuid == p.part_uuid,
        p@.name == p.name@,
        p@.flag_boot == p.flag_boot,
        p@.flag_esp == p.flag_esp,
{
}

/// A list is spoken of item by item.
pub proof fn law_list_views(
    parts: Seq<Part>,
    commands: Seq<CommandLine>,
    actions: Seq<Action>,
    items: Seq<Json>,
)
    ensures
        part_views(parts).len() == parts.len(),
        forall|i: int| 0 <= i < parts.len() ==> #[trigger] part_views(parts)[i] == parts[i]@,
        command_views(commands).len() == commands.len(),
        forall|i: int|
            0 <= i < commands.len() ==> #[trigger] command_views(commands)[i] == commands[i]@,
        action_views(actions).len() == actions.len(),
        forall|i: int| 0 <= i < actions.len() ==> #[trigger] action_views(actions)[i] == actions[i]@,
        json_views(items).len() == items.len(),
        forall|i: int| 0 <= i < items.len() ==> #[trigger] json_views(items)[i] == items[i]@,
{
}

/// A program is spoken of by its name and by all of its arguments, in order.
pub proof fn law_command_view(c: CommandLine, place: Place)
    ensures
        c@.program == c.program@,
        c@.inherit_stdout == c.inherit_stdout,
        c@.args.len() == c.args@.len(),
        forall|i: int|
            0 <= i < c.args@.len() ==> #[trigger] c@.args[i] == match c.args@[i] {
                Arg::Text(text) => ArgView::Text(text@),
                Arg::Path(prefix, root) => ArgView::Path(prefix@, root),
            },
        place@.root == place.root,
        place@.inside == place.inside@,
{
}

/// An action is spoken of by all that it holds.
pub proof fn law_action_view(a: Action)
    ensures
        a matches Action::Announce(text) ==> a@ == ActionView::Announce(text@),
        a matches Action::Sfdisk { wipe, device, script } ==> a@ == (ActionView::Sfdisk {
            wipe,
            device,
            script: script@,
        }),
        a matches Action::Run(command) ==> a@ == ActionView::Run(command@),
        a matches Action::CreateDir(place) ==> a@ == ActionView::CreateDir(place@),
        a matches Action::CopyTree(from, to) ==> a@ == ActionView::CopyTree(from@, to@),
        a matches Action::CopyFile(from, to) ==> a@ == ActionView::CopyFile(from@, to@),
        a matches Action::WriteFile(place, text) ==> a@ == ActionView::WriteFile(place@, text@),
{
}

/// A document is spoken of by all that it holds.
pub proof fn law_json_view(doc: Json)
    ensures
        doc is Null ==> doc@ == JsonView::Null,
        doc matches Json::Bool(b) ==> doc@ == JsonView::Bool(b),
        doc matches Json::Number(n) ==> doc@ == JsonView::Number(n),
        doc matches Json::Text(s) ==> doc@ == JsonView::Text(s@),
        doc matches Json::Array(items) ==> (doc@ matches JsonView::Array(views) && views.len()
            == items@.len() && forall|i: int|
            0 <= i < views.len() ==> #[trigger] views[i] == items@[i]@),
        doc matches Json::Object(fields) ==> (doc@ matches JsonView::Object(views) && views.len()
            == fields@.len() && forall|i: int|
            0 <= i < views.len() ==> #[trigger] views[i] == (fields@[i].0@, fields@[i].1@)),
{
}

/// A step of a run that copies images is spoken of by all that it holds.
pub proof fn law_copy_views(run: CopyRun, action: CopyAction, event: CopyEvent, next: CopyNext)
    ensures
        run@.names.len() == run.names@.len(),
        forall|i: int|
            0 <= i < run.names@.len() ==> #[trigger] run@.names[i] == match run.names@[i] {
                Some(text) => Some(text@),
                None => None,
            },
        run@.image == run.image,
        run@.config == run.config@,
        run@.planned == run.planned@,
        run.phase is ListImage ==> run@.phase == PhaseView::ListImage,
        run.phase matches CopyPhase::Create { iso_parts, disk_parts } ==> run@.phase == (
        PhaseView::Create { iso: part_views(iso_parts@), disk: part_views(disk_parts@) }),
        run.phase matches CopyPhase::ListDevice { iso_parts, disk_parts } ==> run@.phase == (
        PhaseView::ListDevice { iso: part_views(iso_parts@), disk: part_views(disk_parts@) }),
        run.phase matches CopyPhase::Copy { iso_parts, disk_parts, created, index } ==> run@.phase
            == (PhaseView::Copy {
            iso: part_views(iso_parts@),
            disk: part_views(disk_parts@),
            created: part_views(created@),
            index: index as int,
        }),
        action matches CopyAction::List(root) ==> action@ == CopyActionView::List(root),
        action matches CopyAction::Create { wipe, device, script } ==> action@ == (
        CopyActionView::Create { wipe, device, script: script@ }),
        action matches CopyAction::Copy { command, from, to } ==> action@ == (
        CopyActionView::Copy { command: command@, from, to }),
        event matches CopyEvent::Listed(text) ==> event@ == CopyEventView::Listed(text@),
        event is Done ==> event@ == CopyEventView::Done,
        event matches CopyEvent::Failed(e) ==> event@ == CopyEventView::Failed(e@),
        next matches CopyNext::Go(r, a) ==> next@ == CopyNextView::Go(r@, a@),
        next matches CopyNext::Finish(text) ==> next@ == CopyNextView::Finish(text@),
        next matches CopyNext::Fail(e) ==> next@ == CopyNextView::Fail(e@),
        next is Abort ==> next@ == CopyNextView::Abort,
{
}

/// A step of a list, of a run of `sfdisk` or of the copying of a directory is spoken
/// of by all that it holds.
pub proof fn law_step_views(
    plan: PlanNext,
    outcome: Result<(), String>,
    sfd_event: SfdEvent,
    sfd: SfdNext,
    tree_run: TreeRun,
    tree_action: TreeAction,
    tree_event: TreeEvent,
    tree: TreeNext,
)
    ensures
        plan matches PlanNext::Do(at) ==> plan@ == PlanNextView::Do(at as int),
        plan matches PlanNext::Finish(Err(e)) ==> plan@ == PlanNextView::Finish(Err(e@)),
        plan matches PlanNext::Finish(Ok(())) ==> plan@ == PlanNextView::Finish(Ok(())),
        outcome matches Err(e) ==> outcome_view(outcome) == Err::<(), Seq<char>>(e@),
        outcome is Ok ==> outcome_view(outcome) is Ok,
        sfd_event is Done ==> sfd_event@ == SfdEventView::Done,
        sfd_event matches SfdEvent::Failed(e) ==> sfd_event@ == SfdEventView::Failed(e@),
        sfd_event matches SfdEvent::Exited(b) ==> sfd_event@ == SfdEventView::Exited(b),
        sfd_event matches SfdEvent::Read(text) ==> sfd_event@ == SfdEventView::Read(text@),
        sfd matches SfdNext::Do(step) ==> sfd@ == SfdNextView::Do(step),
        sfd matches SfdNext::Finish(Ok(())) ==> sfd@ == SfdNextView::Finish(Ok(())),
        sfd matches SfdNext::Finish(Err(e)) ==> sfd@ == SfdNextView::Finish(Err(e@)),
        tree_run@.path == tree_run.path@,
        tree_run@.step == tree_run.step,
        tree_action matches TreeAction::Open(path) ==> tree_action@ == TreeActionView::Open(path@),
        tree_action is ReadEntry ==> tree_action@ == TreeActionView::ReadEntry,
        tree_action matches TreeAction::CreateDir(path) ==> tree_action@
            == TreeActionView::CreateDir(path@),
        tree_action matches TreeAction::CopyFile(path) ==> tree_action@
            == TreeActionView::CopyFile(path@),
        tree_event is Done ==> tree_event@ == TreeEventView::Done,
        tree_event matches TreeEvent::Entry(name, kind) ==> tree_event@ == TreeEventView::Entry(
            name,
            kind,
        ),
        tree_event is End ==> tree_event@ == TreeEventView::End,
        tree_event matches TreeEvent::Failed(e) ==> tree_event@ == TreeEventView::Failed(e@),
        tree matches TreeNext::Go(r, a) ==> tree@ == TreeNextView::Go(r@, a@),
        tree matches TreeNext::Finish(Ok(())) ==> tree@ == TreeNextView::Finish(Ok(())),
        tree matches TreeNext::Finish(Err(e)) ==> tree@ == TreeNextView::Finish(Err(e@)),
{
}

} // verus!
