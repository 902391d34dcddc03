use multiiso::command::{Arg, CommandLine, Place, Root};
use multiiso::guid::Uuid;
use multiiso::install::{
    action_failure, after_action, install_mount_refind, install_with_uuid, read_arguments,
    write_refind_config, Action, Invocation,
};
use multiiso::plan::{begin_plan, PlanNext};

fn s(text: &str) -> String {
    String::from(text)
}

fn at(root: Root, inside: &str) -> Place {
    Place { root, inside: s(inside) }
}

fn run(program: &str, args: Vec<Arg>) -> Action {
    Action::Run(CommandLine { program: s(program), args, inherit_stdout: false })
}

#[test]
fn the_drive_is_prepared_in_order() {
    let id = "ebd0a0a2-b9e5-4433-87c0-68b6b72699c7";
    let esp = format!("/dev/disk/by-partuuid/{}", id);
    assert_eq!(
        install_with_uuid(Uuid { value: 0xebd0a0a2_b9e5_4433_87c0_68b6b72699c7 }),
        vec![
            Action::Sfdisk {
                wipe: true,
                device: Root::Device,
                script: format!(
                    "label: gpt\nsize=5MiB, bootable, uuid={}, \
                     type=c12a7328-f81f-11d2-ba4b-00a0c93ec93b, name=\"rEFInd\"\n",
                    id
                ),
            },
            run("blockdev", vec![Arg::Text(s("--rereadpt")), Arg::Path(s(""), Root::Device)]),
            run("udevadm", vec![Arg::Text(s("settle"))]),
            run("mkfs.fat", vec![Arg::Text(esp.clone())]),
            run("mount", vec![Arg::Text(esp), Arg::Path(s(""), Root::Mount)]),
            Action::CreateDir(at(Root::Mount, "EFI/BOOT")),
            Action::Announce(s("Installing rEFInd")),
            Action::CopyTree(at(Root::Refind, "icons"), at(Root::Mount, "EFI/BOOT/icons")),
            Action::CopyTree(at(Root::Refind, "drivers_x64"), at(Root::Mount, "EFI/BOOT/drivers")),
            Action::CopyTree(at(Root::Refind, "tools_x64"), at(Root::Mount, "EFI/tools")),
            Action::CopyFile(
                at(Root::Refind, "refind_x64.efi"),
                at(Root::Mount, "EFI/BOOT/BOOTX64.EFI")
            ),
        ]
    );
}

#[test]
fn the_drive_is_wiped_once_and_first() {
    let actions = install_mount_refind();
    assert!(matches!(actions[0], Action::Sfdisk { wipe: true, device: Root::Device, .. }));
    for action in &actions[1..] {
        assert!(!matches!(action, Action::Sfdisk { .. }));
    }
    // The identifier is a new one each time.
    assert_ne!(actions, install_mount_refind());
}

#[test]
fn the_partition_that_is_created_is_the_one_that_is_mounted() {
    let actions = install_mount_refind();
    let script = match &actions[0] {
        Action::Sfdisk { script, .. } => script,
        other => panic!("{:?}", other),
    };
    let mounted = match &actions[4] {
        Action::Run(CommandLine { args, .. }) => match &args[0] {
            Arg::Text(path) => path,
            other => panic!("{:?}", other),
        },
        other => panic!("{:?}", other),
    };
    let id = &mounted["/dev/disk/by-partuuid/".len()..];
    assert_eq!(id.len(), 36);
    assert!(script.contains(&format!("uuid={}, ", id)));
}

#[test]
fn the_configuration_is_written() {
    assert_eq!(
        write_refind_config("timeout 30\n"),
        vec![
            Action::Announce(s("Writing rEFInd config")),
            Action::WriteFile(at(Root::Mount, "EFI/BOOT/refind.conf"), s("timeout 30\n")),
        ]
    );
}

#[test]
fn failures_say_what_was_tried() {
    let here = || at(Root::Mount, "x");
    assert_eq!(
        action_failure(&Action::CreateDir(here()), "e"),
        "Could not create /EFI/BOOT: e"
    );
    assert_eq!(
        action_failure(&Action::CopyTree(here(), here()), "e"),
        "Error when copying rEFInd files: e"
    );
    assert_eq!(
        action_failure(&Action::CopyFile(here(), here()), "e"),
        "Error when copying rEFInd files: e"
    );
    assert_eq!(
        action_failure(&Action::WriteFile(here(), s("")), "e"),
        "Could not write refind config: e"
    );
    assert_eq!(action_failure(&run("dd", vec![]), "Error with dd"), "Error with dd");
}

#[test]
fn arguments_are_read() {
    let read = |args: &[&str]| read_arguments(args.iter().map(|a| s(a)).collect());
    assert_eq!(
        read(&["multiiso", "/dev/sdb", "refind/", "Fedora.iso", "OpenSuse.iso"]),
        Invocation::Run {
            device: s("/dev/sdb"),
            refind: s("refind/"),
            images: vec![s("Fedora.iso"), s("OpenSuse.iso")],
        }
    );
    assert_eq!(read(&["multiiso", "--help"]), Invocation::Help);
    assert_eq!(read(&["multiiso", "--help", "refind/", "a.iso"]), Invocation::Help);
    assert_eq!(read(&["multiiso", "/dev/sdb"]), Invocation::Help);
    assert_eq!(read(&["multiiso", "/dev/sdb", "refind/"]), Invocation::Help);
    assert_eq!(
        read(&["multiiso", "/dev/sdb", "--help", "--help"]),
        Invocation::Run { device: s("/dev/sdb"), refind: s("--help"), images: vec![s("--help")] }
    );
}

/// The number of actions that are begun where the one at `failing` fails, and
/// what the list ends with.
fn run_plan(actions: &Vec<Action>, failing: usize) -> (usize, Result<(), String>) {
    let mut begun = 0;
    let mut next = begin_plan(actions);
    loop {
        next = match next {
            PlanNext::Do(at) => {
                assert_eq!(at, begun);
                begun += 1;
                after_action(actions, at, if at == failing { Some(s("why")) } else { None })
            }
            PlanNext::Finish(outcome) => return (begun, outcome),
        };
    }
}

#[test]
fn a_failure_ends_the_preparation() {
    let actions = install_mount_refind();
    for k in 0..actions.len() {
        assert_eq!(run_plan(&actions, k), (k + 1, Err(action_failure(&actions[k], "why"))));
    }
    for k in 0..5 {
        assert_eq!(run_plan(&actions, k), (k + 1, Err(s("why"))));
    }
    assert_eq!(run_plan(&actions, 5), (6, Err(s("Could not create /EFI/BOOT: why"))));
    assert_eq!(run_plan(&actions, 10), (11, Err(s("Error when copying rEFInd files: why"))));
}

#[test]
fn the_preparation_succeeds_if_every_action_does() {
    assert_eq!(run_plan(&install_mount_refind(), usize::MAX), (11, Ok(())));
    assert_eq!(run_plan(&write_refind_config(""), usize::MAX), (2, Ok(())));
    assert_eq!(
        run_plan(&write_refind_config(""), 1),
        (2, Err(s("Could not write refind config: why")))
    );
    assert_eq!(run_plan(&vec![], 0), (0, Ok(())));
}
