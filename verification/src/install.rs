//! Preparing the drive: its first partition and the boot manager on it.

use crate::command::{
    command_line, command_views, message, path_arg, rescan_device, rescan_lines, text_arg, Arg,
    ArgView, CommandLine, CommandView, Place, PlaceView, Root,
};
use crate::guid::{is_random_uuid, uuid_text, Uuid};
use crate::layout::{parts_to_sfd_script, sfd_script};
use crate::part::{part_views, Part, PartView, ESP_UUID};
use crate::plan::{
    after_step, begin_next, law_plan_goes_on, law_plan_stops, law_plan_succeeds, outcome_view,
    plan_at, plan_run, plan_step, PlanNext, PlanNextView, PlanRun,
};
use crate::text::{same_text, texts};
use vstd::prelude::*;
use vstd::string::*;

verus! {

/// Something that is done to the drive.
#[derive(Debug, PartialEq, Eq)]
pub enum Action {
    /// Tell the user.
    Announce(String),
    /// Write a partition table from a script, over the old one or behind what
    /// is there.
    Sfdisk { wipe: bool, device: Root, script: String },
    /// Run a program.
    Run(CommandLine),
    /// Create a directory with those above it.
    CreateDir(Place),
    /// Copy the files of a directory and of those below it.
    CopyTree(Place, Place),
    /// Copy a file.
    CopyFile(Place, Place),
    /// Write a file.
    WriteFile(Place, String),
}

/// An action as contracts speak of it.
pub enum ActionView {
    Announce(Seq<char>),
    Sfdisk { wipe: bool, device: Root, script: Seq<char> },
    Run(CommandView),
    CreateDir(PlaceView),
    CopyTree(PlaceView, PlaceView),
    CopyFile(PlaceView, PlaceView),
    WriteFile(PlaceView, Seq<char>),
}

impl View for Action {
    type V = ActionView;

    open spec fn view(&self) -> ActionView {
        match self {
            Action::Announce(text) => ActionView::Announce(text@),
            Action::Sfdisk { wipe, device, script } => ActionView::Sfdisk {
                wipe: *wipe,
                device: *device,
                script: script@,
            },
            Action::Run(command) => ActionView::Run(command@),
            Action::CreateDir(place) => ActionView::CreateDir(place@),
            Action::CopyTree(from, to) => ActionView::CopyTree(from@, to@),
            Action::CopyFile(from, to) => ActionView::CopyFile(from@, to@),
            Action::WriteFile(place, contents) => ActionView::WriteFile(place@, contents@),
        }
    }
}

/// A list of actions as contracts speak of it.
pub open spec fn action_views(actions: Seq<Action>) -> Seq<ActionView> {
    actions.map_values(|a: Action| a@)
}

/// What is said when an action fails, before the reason.
pub open spec fn failure_text(action: ActionView) -> Seq<char> {
    match action {
        ActionView::CreateDir(_) => "Could not create /EFI/BOOT: "@,
        ActionView::CopyTree(_, _) | ActionView::CopyFile(_, _) =>
            "Error when copying rEFInd files: "@,
        ActionView::WriteFile(_, _) => "Could not write refind config: "@,
        _ => ""@,
    }
}

/// What is said when an action fails for a reason.
pub fn action_failure(action: &Action, reason: &str) -> (r: String)
    ensures
        r@ == failure_text(action@) + reason@,
{
    let text: &str = match action {
        Action::CreateDir(_) => "Could not create /EFI/BOOT: ",
        Action::CopyTree(_, _) | Action::CopyFile(_, _) => "Error when copying rEFInd files: ",
        Action::WriteFile(_, _) => "Could not write refind config: ",
        _ => "",
    };
    message(text, reason)
}

/// What an action came to, where `failure` is the reason for which it failed, if
/// it did.
pub open spec fn action_outcome(
    action: ActionView,
    failure: Option<Seq<char>>,
) -> Result<(), Seq<char>> {
    match failure {
        None => Ok(()),
        Some(reason) => Err(failure_text(action) + reason),
    }
}

/// The reason for which an action failed, if it did, as contracts speak of it.
pub open spec fn reason_view(failure: Option<String>) -> Option<Seq<char>> {
    match failure {
        Some(reason) => Some(reason@),
        None => None,
    }
}

/// How a list of actions goes on when the action at a position was done: with
/// the next one if it succeeded, and to its end if it failed.
pub open spec fn plan_next(
    actions: Seq<ActionView>,
    at: int,
    failure: Option<Seq<char>>,
) -> PlanNextView {
    plan_step(actions.len(), at, action_outcome(actions[at], failure))
}

/// Goes on with a list of actions when the action at a position was done, where
/// `failure` is the reason for which it failed, if it did.
pub fn after_action(actions: &Vec<Action>, at: usize, failure: Option<String>) -> (r: PlanNext)
    requires
        at < actions@.len(),
    ensures
        r@ == plan_next(action_views(actions@), at as int, reason_view(failure)),
{
    let outcome: Result<(), String> = match failure {
        None => Ok(()),
        Some(reason) => Err(action_failure(&actions[at], &reason)),
    };
    assert(outcome_view(outcome) == action_outcome(
        action_views(actions@)[at as int],
        reason_view(failure),
    ));
    after_step(actions, at, outcome)
}

/// The size that the partition of the boot manager needs, in bytes.
pub const REFIND_SIZE: u64 = 4 * 1024 * 1024;

/// The partition of the boot manager.
pub open spec fn refind_part(part_uuid: Uuid) -> PartView {
    PartView {
        number: 0,
        start: 0,
        size: REFIND_SIZE,
        type_uuid: Uuid { value: ESP_UUID },
        part_uuid,
        name: "rEFInd"@,
        flag_boot: false,
        flag_esp: true,
    }
}

/// The path at which the system shows a partition by its identifier.
pub open spec fn partition_path(part_uuid: Uuid) -> Seq<char> {
    "/dev/disk/by-partuuid/"@ + uuid_text(part_uuid)
}

pub open spec fn place_at(root: Root, inside: Seq<char>) -> PlaceView {
    PlaceView { root, inside }
}

/// The program that formats the partition of the boot manager.
pub open spec fn format_line(part_uuid: Uuid) -> CommandView {
    CommandView {
        program: "mkfs.fat"@,
        args: seq![ArgView::Text(partition_path(part_uuid))],
        inherit_stdout: false,
    }
}

/// The program that mounts the partition of the boot manager.
pub open spec fn mount_line(part_uuid: Uuid) -> CommandView {
    CommandView {
        program: "mount"@,
        args: seq![ArgView::Text(partition_path(part_uuid)), ArgView::Path(""@, Root::Mount)],
        inherit_stdout: false,
    }
}

/// The actions that prepare the drive, in order: a new partition table with
/// one EFI system partition, that partition formatted and mounted, and the
/// files of the boot manager on it.
pub open spec fn install_actions(part_uuid: Uuid) -> Seq<ActionView> {
    seq![
        ActionView::Sfdisk {
            wipe: true,
            device: Root::Device,
            script: sfd_script(seq![refind_part(part_uuid)]),
        },
        ActionView::Run(rescan_lines(Root::Device)[0]),
        ActionView::Run(rescan_lines(Root::Device)[1]),
        ActionView::Run(format_line(part_uuid)),
        ActionView::Run(mount_line(part_uuid)),
        ActionView::CreateDir(place_at(Root::Mount, "EFI/BOOT"@)),
        ActionView::Announce("Installing rEFInd"@),
        ActionView::CopyTree(
            place_at(Root::Refind, "icons"@),
            place_at(Root::Mount, "EFI/BOOT/icons"@),
        ),
        ActionView::CopyTree(
            place_at(Root::Refind, "drivers_x64"@),
            place_at(Root::Mount, "EFI/BOOT/drivers"@),
        ),
        ActionView::CopyTree(
            place_at(Root::Refind, "tools_x64"@),
            place_at(Root::Mount, "EFI/tools"@),
        ),
        ActionView::CopyFile(
            place_at(Root::Refind, "refind_x64.efi"@),
            place_at(Root::Mount, "EFI/BOOT/BOOTX64.EFI"@),
        ),
    ]
}

/// The actions that write the configuration of the boot manager, in order.
pub open spec fn config_actions(config: Seq<char>) -> Seq<ActionView> {
    seq![
        ActionView::Announce("Writing rEFInd config"@),
        ActionView::WriteFile(place_at(Root::Mount, "EFI/BOOT/refind.conf"@), config),
    ]
}

fn place(root: Root, inside: &str) -> (r: Place)
    ensures
        r@ == place_at(root, inside@),
{
    Place { root, inside: inside.to_owned() }
}

fn copy_tree(from: &str, to: &str) -> (r: Action)
    ensures
        r@ == ActionView::CopyTree(place_at(Root::Refind, from@), place_at(Root::Mount, to@)),
{
    Action::CopyTree(place(Root::Refind, from), place(Root::Mount, to))
}

/// The script that creates the partition of the boot manager.
fn refind_script(part_uuid: Uuid) -> (r: String)
    ensures
        r@ == sfd_script(seq![refind_part(part_uuid)]),
{
    let parts: Vec<Part> = vec![Part {
        number: 0,
        start: 0,
        size: REFIND_SIZE,
        type_uuid: Uuid { value: ESP_UUID },
        part_uuid,
        name: "rEFInd".to_owned(),
        flag_boot: false,
        flag_esp: true,
    }];
    assert(part_views(parts@) =~= seq![refind_part(part_uuid)]);
    parts_to_sfd_script(&parts)
}

/// The actions that prepare the drive, with the identifier given for the
/// partition of the boot manager. `after_action` says how they go on.
pub fn install_with_uuid(part_uuid: Uuid) -> (r: Vec<Action>)
    ensures
        action_views(r@) == install_actions(part_uuid),
{
    let script: String = refind_script(part_uuid);
    let esp_path: String = message("/dev/disk/by-partuuid/", &part_uuid.hyphenated());
    let mut actions: Vec<Action> = Vec::new();
    actions.push(Action::Sfdisk { wipe: true, device: Root::Device, script });
    let mut rescan: Vec<CommandLine> = rescan_device(Root::Device);
    let ghost rescan_views = command_views(rescan@);
    assert(rescan_views.len() == 2);
    let reread: CommandLine = rescan.remove(0);
    let settle: CommandLine = rescan.remove(0);
    assert(reread@ == rescan_views[0] && settle@ == rescan_views[1]);
    actions.push(Action::Run(reread));
    actions.push(Action::Run(settle));
    let format_args: Vec<Arg> = vec![text_arg(&esp_path)];
    let format: CommandLine = command_line("mkfs.fat", format_args, false);
    assert(format@.args =~= format_line(part_uuid).args);
    actions.push(Action::Run(format));
    let mount_args: Vec<Arg> = vec![text_arg(&esp_path), path_arg("", Root::Mount)];
    let mount: CommandLine = command_line("mount", mount_args, false);
    assert(mount@.args =~= mount_line(part_uuid).args);
    actions.push(Action::Run(mount));
    actions.push(Action::CreateDir(place(Root::Mount, "EFI/BOOT")));
    actions.push(Action::Announce("Installing rEFInd".to_owned()));
    actions.push(copy_tree("icons", "EFI/BOOT/icons"));
    actions.push(copy_tree("drivers_x64", "EFI/BOOT/drivers"));
    actions.push(copy_tree("tools_x64", "EFI/tools"));
    actions.push(
        Action::CopyFile(
            place(Root::Refind, "refind_x64.efi"),
            place(Root::Mount, "EFI/BOOT/BOOTX64.EFI"),
        ),
    );
    assert(action_views(actions@) =~= install_actions(part_uuid));
    actions
}

/// The actions that prepare the drive, with a new random identifier for the
/// partition of the boot manager.
pub fn install_mount_refind() -> (r: Vec<Action>)
    ensures
        exists|part_uuid: Uuid|
            #[trigger] is_random_uuid(part_uuid) && action_views(r@) == install_actions(part_uuid),
{
    let part_uuid: Uuid = Uuid::new_v4();
    install_with_uuid(part_uuid)
}

/// The actions that write the configuration of the boot manager.
pub fn write_refind_config(config: &str) -> (r: Vec<Action>)
    ensures
        action_views(r@) == config_actions(config@),
{
    let actions: Vec<Action> = vec![
        Action::Announce("Writing rEFInd config".to_owned()),
        Action::WriteFile(place(Root::Mount, "EFI/BOOT/refind.conf"), config.to_owned()),
    ];
    assert(action_views(actions@) =~= config_actions(config@));
    actions
}

// The command line.

/// What the user asks for.
#[derive(Debug, PartialEq, Eq)]
pub enum Invocation {
    Help,
    Run { device: String, refind: String, images: Vec<String> },
}

/// What the user asks for with these arguments, the first of which is the name
/// of the program.
pub fn read_arguments(args: Vec<String>) -> (r: Invocation)
    requires
        args@.len() >= 2,
    ensures
        match r {
            Invocation::Help => args@[1]@ == "--help"@ || args@.len() < 4,
            Invocation::Run { device, refind, images } => {
                &&& args@[1]@ != "--help"@
                &&& args@.len() >= 4
                &&& device@ == args@[1]@
                &&& refind@ == args@[2]@
                &&& texts(images@) == texts(args@).skip(3)
            },
        },
{
    let mut args: Vec<String> = args;
    if same_text(&args[1], "--help") || args.len() < 4 {
        return Invocation::Help;
    }
    let ghost all = args@;
    let images: Vec<String> = args.split_off(3);
    assert(texts(images@) =~= texts(all).skip(3));
    let device: String = args[1].clone();
    let refind: String = args[2].clone();
    Invocation::Run { device, refind, images }
}

// Laws.

/// Preparing the drive wipes it once, first of all.
pub proof fn law_install_wipes_once(part_uuid: Uuid)
    ensures
        install_actions(part_uuid)[0] matches ActionView::Sfdisk {
            wipe: true,
            device: Root::Device,
            ..
        },
        forall|i: int|
            0 < i < install_actions(part_uuid).len() ==> !(#[trigger] install_actions(
                part_uuid,
            )[i] is Sfdisk),
{
}

/// What has come of a list of actions that were done one after the other, where
/// each failed for the reason given, if it did.
pub open spec fn actions_run(
    actions: Seq<ActionView>,
    failures: Seq<Option<Seq<char>>>,
) -> PlanRun<ActionView>
    decreases failures.len(),
{
    if failures.len() == 0 {
        begin_next(actions, Seq::empty(), plan_at(actions.len(), 0))
    } else {
        let before = actions_run(actions, failures.drop_last());
        match before.next {
            PlanNextView::Do(at) => begin_next(
                actions,
                before.begun,
                plan_next(actions, at, failures.last()),
            ),
            PlanNextView::Finish(_) => before,
        }
    }
}

/// The outcomes of actions that failed for these reasons, if they did.
spec fn action_outcomes(
    actions: Seq<ActionView>,
    failures: Seq<Option<Seq<char>>>,
) -> Seq<Result<(), Seq<char>>> {
    Seq::new(failures.len(), |i: int| action_outcome(actions[i], failures[i]))
}

proof fn lemma_actions_run(actions: Seq<ActionView>, failures: Seq<Option<Seq<char>>>)
    ensures
        actions_run(actions, failures) == plan_run(actions, action_outcomes(actions, failures)),
        actions_run(actions, failures).next matches PlanNextView::Do(at) ==> at == failures.len(),
    decreases failures.len(),
{
    if failures.len() > 0 {
        let outcomes = action_outcomes(actions, failures);
        lemma_actions_run(actions, failures.drop_last());
        assert(outcomes.drop_last() =~= action_outcomes(actions, failures.drop_last()));
    }
}

/// The first action that fails ends a list of actions with its message: the
/// actions begun are that one and those before it.
pub proof fn law_actions_stop(
    actions: Seq<ActionView>,
    failures: Seq<Option<Seq<char>>>,
    k: int,
    reason: Seq<char>,
)
    requires
        0 <= k < actions.len(),
        k < failures.len(),
        forall|i: int| 0 <= i < k ==> #[trigger] failures[i] is None,
        failures[k] == Some(reason),
    ensures
        actions_run(actions, failures) == (PlanRun {
            next: PlanNextView::Finish(Err(failure_text(actions[k]) + reason)),
            begun: actions.take(k + 1),
        }),
{
    let outcomes = action_outcomes(actions, failures);
    lemma_actions_run(actions, failures);
    assert forall|i: int| 0 <= i < k implies #[trigger] outcomes[i] is Ok by {
        assert(failures[i] is None);
    }
    law_plan_stops(actions, outcomes, k);
}

/// A list of actions ends with success exactly if each of them succeeded, and
/// then each of them was done.
pub proof fn law_actions_succeed(actions: Seq<ActionView>, failures: Seq<Option<Seq<char>>>)
    requires
        failures.len() <= actions.len(),
    ensures
        actions_run(actions, failures).next == PlanNextView::Finish(Ok(())) <==> failures.len()
            == actions.len() && forall|i: int|
            0 <= i < actions.len() ==> #[trigger] failures[i] is None,
        actions_run(actions, failures).next == PlanNextView::Finish(Ok(())) ==> actions_run(
            actions,
            failures,
        ).begun == actions,
{
    let outcomes = action_outcomes(actions, failures);
    lemma_actions_run(actions, failures);
    law_plan_succeeds(actions, outcomes);
    if failures.len() == actions.len() {
        assert(forall|i: int|
            0 <= i < actions.len() ==> (#[trigger] outcomes[i] is Ok <==> failures[i] is None));
        if forall|i: int| 0 <= i < actions.len() ==> #[trigger] failures[i] is None {
            law_plan_goes_on(actions, outcomes);
        }
        if forall|i: int| 0 <= i < actions.len() ==> #[trigger] outcomes[i] is Ok {
            assert forall|i: int| 0 <= i < actions.len() implies #[trigger] failures[i] is None by {
                assert(outcomes[i] is Ok);
            }
        }
    }
}

/// The first failure while the drive is prepared ends the preparation with its
/// message, and nothing is begun behind it. The programs come first: the message
/// of one that fails is returned as it is, and then no file has been created or
/// copied.
pub proof fn law_install_stops(
    part_uuid: Uuid,
    failures: Seq<Option<Seq<char>>>,
    k: int,
    reason: Seq<char>,
)
    requires
        0 <= k < install_actions(part_uuid).len(),
        k < failures.len(),
        forall|i: int| 0 <= i < k ==> #[trigger] failures[i] is None,
        failures[k] == Some(reason),
    ensures
        actions_run(install_actions(part_uuid), failures) == (PlanRun {
            next: PlanNextView::Finish(Err(failure_text(install_actions(part_uuid)[k]) + reason)),
            begun: install_actions(part_uuid).take(k + 1),
        }),
        k < 5 ==> {
            let run = actions_run(install_actions(part_uuid), failures);
            &&& run.next == PlanNextView::Finish(Err(reason))
            &&& forall|i: int|
                0 <= i < run.begun.len() ==> #[trigger] run.begun[i] is Sfdisk || run.begun[i] is Run
        },
        forall|i: int|
            5 <= i < install_actions(part_uuid).len() ==> !(#[trigger] install_actions(
                part_uuid,
            )[i] is Run) && !(install_actions(part_uuid)[i] is Sfdisk),
{
    law_actions_stop(install_actions(part_uuid), failures, k, reason);
    if k < 5 {
        reveal_strlit("");
        assert(""@ + reason =~= reason);
        let run = actions_run(install_actions(part_uuid), failures);
        assert forall|i: int| 0 <= i < run.begun.len() implies #[trigger] run.begun[i] is Sfdisk
            || run.begun[i] is Run by {
            assert(run.begun[i] == install_actions(part_uuid)[i]);
        }
    }
}

/// The drive is prepared exactly if every action succeeds.
pub proof fn law_install_succeeds(part_uuid: Uuid, failures: Seq<Option<Seq<char>>>)
    requires
        failures.len() <= install_actions(part_uuid).len(),
    ensures
        actions_run(install_actions(part_uuid), failures).next == PlanNextView::Finish(Ok(()))
            <==> failures.len() == install_actions(part_uuid).len() && forall|i: int|
            0 <= i < failures.len() ==> #[trigger] failures[i] is None,
{
    law_actions_succeed(install_actions(part_uuid), failures);
}

} // verus!
