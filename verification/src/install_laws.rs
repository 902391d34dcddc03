//! What holds of the preparation of every drive.

use crate::command::{rescan_lines, ArgView, PlaceView, Root};
use crate::guid::{uuid_text, Uuid};
use crate::install::{
    action_outcome, config_actions, install_actions, reason_view, refind_part, ActionView,
};
use crate::layout::sfd_script;
use crate::layout_laws::{asks_for, law_script_lines};
use crate::part::PartView;
use crate::text::decimal;
use vstd::prelude::*;

verus! {

/// Whether a script creates one partition and nothing else: an EFI system
/// partition with an identifier, of more than four mebibytes and at most five, for
/// the boot manager.
pub open spec fn creates_boot_partition(script: Seq<char>, part_uuid: Uuid) -> bool {
    exists|mib: nat|
        #![trigger decimal(mib)]
        script == "label: gpt\n"@ + "size="@ + decimal(mib) + "MiB, bootable, uuid="@ + uuid_text(
            part_uuid,
        ) + ", type="@ + uuid_text(
            Uuid { value: 0xC12A7328_F81F_11D2_BA4B_00A0C93EC93B },
        ) + ", name=\"rEFInd\"\n"@ && 0x40_0000 < mib * 0x10_0000 <= 0x50_0000
}

/// Whether a program is run on a path as its first argument, with these behind it.
pub open spec fn runs_on(
    action: ActionView,
    program: Seq<char>,
    path: Seq<char>,
    rest: Seq<ArgView>,
) -> bool {
    action matches ActionView::Run(command) && command.program == program && command.args == seq![
        ArgView::Text(path),
    ] + rest && !command.inherit_stdout
}

/// What is formatted and mounted is what was created: for every identifier, the
/// first action wipes the drive and creates one partition under that identifier,
/// `mkfs.fat` is run on the path of that identifier and on nothing else, and that
/// same path is what is mounted.
pub proof fn law_created_is_formatted_and_mounted(part_uuid: Uuid)
    ensures
        install_actions(part_uuid).len() == 11,
        install_actions(part_uuid)[0] matches ActionView::Sfdisk { wipe, device, script } && wipe
            && device == Root::Device && creates_boot_partition(script, part_uuid),
        runs_on(
            install_actions(part_uuid)[3],
            "mkfs.fat"@,
            "/dev/disk/by-partuuid/"@ + uuid_text(part_uuid),
            Seq::empty(),
        ),
        runs_on(
            install_actions(part_uuid)[4],
            "mount"@,
            "/dev/disk/by-partuuid/"@ + uuid_text(part_uuid),
            seq![ArgView::Path(""@, Root::Mount)],
        ),
{
    let actions = install_actions(part_uuid);
    let p = refind_part(part_uuid);
    let script = sfd_script(seq![p]);
    law_script_lines(Seq::empty(), p);
    assert(Seq::<PartView>::empty().push(p) =~= seq![p]);
    let (line, mib) = choose|line: Seq<char>, mib: nat|
        sfd_script(Seq::<PartView>::empty().push(p)) == sfd_script(Seq::empty()) + line
            && #[trigger] asks_for(line, mib, p) && p.size < mib * 0x10_0000 <= p.size + 0x10_0000;
    reveal_strlit("MiB, ");
    reveal_strlit("bootable, ");
    reveal_strlit("uuid=");
    reveal_strlit("MiB, bootable, uuid=");
    reveal_strlit(", name=\"");
    reveal_strlit("rEFInd");
    reveal_strlit("\"\n");
    reveal_strlit(", name=\"rEFInd\"\n");
    assert("MiB, bootable, uuid="@ =~= "MiB, "@ + "bootable, "@ + "uuid="@);
    assert(", name=\"rEFInd\"\n"@ =~= ", name=\""@ + "rEFInd"@ + "\"\n"@);
    assert(script =~= "label: gpt\n"@ + "size="@ + decimal(mib) + "MiB, bootable, uuid="@
        + uuid_text(part_uuid) + ", type="@ + uuid_text(
        Uuid { value: 0xC12A7328_F81F_11D2_BA4B_00A0C93EC93B },
    ) + ", name=\"rEFInd\"\n"@);
    assert(creates_boot_partition(script, part_uuid));
    let path = "/dev/disk/by-partuuid/"@ + uuid_text(part_uuid);
    if let ActionView::Run(command) = actions[3] {
        assert(command.args =~= seq![ArgView::Text(path)] + Seq::empty());
    }
    if let ActionView::Run(command) = actions[4] {
        assert(command.args =~= seq![ArgView::Text(path)] + seq![
            ArgView::Path(""@, Root::Mount),
        ]);
    }
}

/// A place in the directory of the boot manager's files.
pub open spec fn given(inside: Seq<char>) -> PlaceView {
    PlaceView { root: Root::Refind, inside }
}

/// A place on the partition of the boot manager.
pub open spec fn mounted(inside: Seq<char>) -> PlaceView {
    PlaceView { root: Root::Mount, inside }
}

/// Whatever the identifier, the table of the drive is read again behind the first
/// action, and behind the fifth the directory of the loader is created and the
/// files of the boot manager are copied: the icons and the drivers into it, the
/// tools beside it, and the loader under the name for removable media.
pub proof fn law_boot_manager_files(part_uuid: Uuid)
    ensures
        install_actions(part_uuid)[1] == ActionView::Run(rescan_lines(Root::Device)[0]),
        install_actions(part_uuid)[2] == ActionView::Run(rescan_lines(Root::Device)[1]),
        install_actions(part_uuid)[5] == ActionView::CreateDir(mounted("EFI/BOOT"@)),
        install_actions(part_uuid)[6] == ActionView::Announce("Installing rEFInd"@),
        install_actions(part_uuid)[7] == ActionView::CopyTree(
            given("icons"@),
            mounted("EFI/BOOT/icons"@),
        ),
        install_actions(part_uuid)[8] == ActionView::CopyTree(
            given("drivers_x64"@),
            mounted("EFI/BOOT/drivers"@),
        ),
        install_actions(part_uuid)[9] == ActionView::CopyTree(
            given("tools_x64"@),
            mounted("EFI/tools"@),
        ),
        install_actions(part_uuid)[10] == ActionView::CopyFile(
            given("refind_x64.efi"@),
            mounted("EFI/BOOT/BOOTX64.EFI"@),
        ),
{
}

/// Two drives are prepared alike but for the partition that is created, formatted
/// and mounted.
pub proof fn law_preparations_are_alike(a: Uuid, b: Uuid, i: int)
    requires
        0 <= i < install_actions(a).len(),
        i != 0 && i != 3 && i != 4,
    ensures
        install_actions(a).len() == install_actions(b).len(),
        install_actions(a)[i] == install_actions(b)[i],
{
}

/// The configuration is written as it is, to the place where the boot manager looks
/// for it, and nothing else is.
pub proof fn law_configuration_is_written(config: Seq<char>)
    ensures
        config_actions(config).len() == 2,
        config_actions(config)[0] == ActionView::Announce("Writing rEFInd config"@),
        config_actions(config)[1] == ActionView::WriteFile(
            mounted("EFI/BOOT/refind.conf"@),
            config,
        ),
{
}

/// What is said of an action that failed ends in the reason, behind what was
/// tried; of a program and of a partition table the reason says it all.
pub proof fn law_failure_messages(action: ActionView, reason: Seq<char>)
    ensures
        action is CreateDir ==> action_outcome(action, Some(reason)) == Err::<(), Seq<char>>(
            "Could not create /EFI/BOOT: "@ + reason,
        ),
        action is CopyTree || action is CopyFile ==> action_outcome(action, Some(reason)) == Err::<
            (),
            Seq<char>,
        >("Error when copying rEFInd files: "@ + reason),
        action is WriteFile ==> action_outcome(action, Some(reason)) == Err::<(), Seq<char>>(
            "Could not write refind config: "@ + reason,
        ),
        action is Run || action is Sfdisk ==> action_outcome(action, Some(reason)) == Err::<
            (),
            Seq<char>,
        >(reason),
        action_outcome(action, None) is Ok,
        reason_view(None) is None,
        forall|text: String| #[trigger] reason_view(Some(text)) == Some(text@),
{
    reveal_strlit("");
    assert(""@ + reason =~= reason);
}

} // verus!
