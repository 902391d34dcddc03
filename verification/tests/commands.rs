use multiiso::command::{
    dd_copy_data, get_parted_info, parted_command, parted_listing, rescan_device, run_cmd,
    running_message, sfdisk_command, Arg, CommandLine, PartedEnd, Root, RunEnd,
};
use multiiso::plan::{after_step, begin_plan, PlanNext};
use multiiso::sfdisk::{run_sfd_script, starting_message, SfdEvent, SfdNext, SfdStep};

fn text(s: &str) -> Arg {
    Arg::Text(String::from(s))
}

fn path(prefix: &str, root: Root) -> Arg {
    Arg::Path(String::from(prefix), root)
}

fn line(program: &str, args: Vec<Arg>, inherit_stdout: bool) -> CommandLine {
    CommandLine { program: String::from(program), args, inherit_stdout }
}

fn s(text: &str) -> String {
    String::from(text)
}

#[test]
fn programs_get_their_arguments() {
    assert_eq!(
        parted_command(Root::Image(2)),
        line("parted", vec![path("", Root::Image(2)), text("-j"), text("unit B print")], false)
    );
    assert_eq!(
        sfdisk_command(true, Root::Device),
        line("sfdisk", vec![path("", Root::Device), text("--no-reread")], false)
    );
    assert_eq!(
        sfdisk_command(false, Root::Device),
        line("sfdisk", vec![text("--append"), path("", Root::Device), text("--no-reread")], false)
    );
    assert_eq!(
        rescan_device(Root::Device),
        vec![
            line("blockdev", vec![text("--rereadpt"), path("", Root::Device)], false),
            line("udevadm", vec![text("settle")], false),
        ]
    );
}

#[test]
fn a_copy_says_where_from_and_where_to() {
    assert_eq!(
        dd_copy_data(Root::Image(1), Root::Device, 32768, 5242880, 1000),
        line(
            "dd",
            vec![
                path("if=", Root::Image(1)),
                path("of=", Root::Device),
                text("bs=5M"),
                text("status=progress"),
                text("seek=5242880B"),
                text("skip=32768B"),
                text("count=1000B"),
            ],
            true
        )
    );
}

#[test]
fn programs_are_announced_with_their_arguments() {
    assert_eq!(
        running_message("blockdev", &vec![s("--rereadpt"), s("/dev/sdb")]),
        "Running blockdev --rereadpt /dev/sdb"
    );
    assert_eq!(running_message("udevadm", &vec![s("settle")]), "Running udevadm settle");
    assert_eq!(running_message("true", &vec![]), "Running true ");
    assert_eq!(running_message("x", &vec![s(""), s(""), s("a b")]), "Running x   a b");
    assert_eq!(starting_message("/dev/sdb"), "Starting sfdisk on device /dev/sdb");
}

#[test]
fn what_parted_prints_is_the_listing() {
    let end = |success, stdout: &[u8], stderr: &[u8]| {
        get_parted_info(PartedEnd::Exited {
            success,
            stdout: stdout.to_vec(),
            stderr: stderr.to_vec(),
        })
    };
    assert_eq!(end(true, "{\"a\u{e9}\"}".as_bytes(), b"warning"), Ok(s("{\"a\u{e9}\"}")));
    assert_eq!(end(true, b"", b""), Ok(s("")));
    assert_eq!(end(false, b"{}", b"no such device"), Err(s("Error with parted: no such device")));
    assert_eq!(
        end(false, b"", &[0xff]),
        Err(s("Error with parted: could not read parted stderr"))
    );
    assert_eq!(
        end(true, &[b'a', 0xff], b""),
        Err(s("Couldn't read parted stdout: invalid utf-8 sequence of 1 bytes from index 1"))
    );
    assert_eq!(
        get_parted_info(PartedEnd::NotRun(s("not found"))),
        Err(s("Error with running parted: not found"))
    );
}

#[test]
fn the_end_of_a_program_is_judged() {
    let exited = |success, code, stderr: &[u8]| {
        run_cmd("dd", RunEnd::Exited { success, code, stderr: stderr.to_vec() })
    };
    assert_eq!(exited(true, Some(0), &[0xff]), Ok(()));
    assert_eq!(exited(false, Some(1), b"full"), Err(s("Error with dd, exit status 1: full")));
    assert_eq!(exited(false, Some(-7), b""), Err(s("Error with dd, exit status -7: ")));
    assert_eq!(
        exited(false, Some(i32::MIN), b""),
        Err(s("Error with dd, exit status -2147483648: "))
    );
    assert_eq!(
        exited(false, None, &[0xc3]),
        Err(s("Error with dd, exit status -32000: could not read stderr"))
    );
    assert_eq!(
        run_cmd("dd", RunEnd::NotSpawned(s("x"))),
        Err(s("Could not spawn dd: x"))
    );
    assert_eq!(
        run_cmd("dd", RunEnd::NotAwaited(s("y"))),
        Err(s("Could not wait for dd: y"))
    );
}

#[test]
fn a_run_of_sfdisk_goes_step_by_step() {
    let mut step = SfdStep::Spawn;
    let mut steps = vec![step];
    for _ in 0..3 {
        match run_sfd_script(step, SfdEvent::Done) {
            SfdNext::Do(next) => step = next,
            other => panic!("{:?}", other),
        }
        steps.push(step);
    }
    assert_eq!(
        steps,
        vec![SfdStep::Spawn, SfdStep::Write, SfdStep::Flush, SfdStep::CloseAndWait]
    );
    assert_eq!(run_sfd_script(step, SfdEvent::Exited(true)), SfdNext::Finish(Ok(())));
    assert_eq!(run_sfd_script(step, SfdEvent::Exited(false)), SfdNext::Do(SfdStep::ReadErrors));
    assert_eq!(
        run_sfd_script(SfdStep::ReadErrors, SfdEvent::Read(s("no space"))),
        SfdNext::Finish(Err(s("sfdisk error: no space")))
    );
}

#[test]
fn a_failed_step_ends_a_run_of_sfdisk() {
    for (step, message) in [
        (SfdStep::Spawn, "Could not spawn sfdisk: e"),
        (SfdStep::Write, "Could not write stdin: e"),
        (SfdStep::Flush, "Could not flush stdin: e"),
        (SfdStep::CloseAndWait, "Couldn't join sfdisk: e"),
        (SfdStep::ReadErrors, "sfdisk error: could not read sfdisk stderr: e"),
    ] {
        assert_eq!(
            run_sfd_script(step, SfdEvent::Failed(s("e"))),
            SfdNext::Finish(Err(s(message)))
        );
    }
}

#[test]
fn a_listing_that_could_not_be_read_is_an_error() {
    assert_eq!(parted_listing(Ok(s("{}"))), Ok(s("{}")));
    assert_eq!(parted_listing(Err(s("e"))), Err(s("Couldn't read parted stdout: e")));
    let end = |stdout: &[u8]| {
        get_parted_info(PartedEnd::Exited { success: true, stdout: stdout.to_vec(), stderr: vec![] })
    };
    for bytes in [&[0xffu8][..], &[b'a', b'b', 0xe2, 0x82][..], &[0xed, 0xa0, 0x80][..]] {
        let error = String::from_utf8(bytes.to_vec()).unwrap_err().to_string();
        assert_eq!(end(bytes), parted_listing(Err(error)));
    }
}

#[test]
fn a_rescan_ends_at_its_first_failure() {
    let commands = rescan_device(Root::Device);
    assert_eq!(begin_plan(&commands), PlanNext::Do(0));
    let failed = run_cmd("blockdev", RunEnd::NotSpawned(s("x")));
    assert_eq!(
        after_step(&commands, 0, failed),
        PlanNext::Finish(Err(s("Could not spawn blockdev: x")))
    );
    assert_eq!(after_step(&commands, 0, Ok(())), PlanNext::Do(1));
    assert_eq!(after_step(&commands, 1, Ok(())), PlanNext::Finish(Ok(())));
    assert_eq!(after_step(&commands, 1, Err(s("y"))), PlanNext::Finish(Err(s("y"))));
    assert_eq!(begin_plan(&Vec::<CommandLine>::new()), PlanNext::Finish(Ok(())));
}
