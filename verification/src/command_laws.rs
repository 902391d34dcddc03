//! What holds of every program that is run, said of its arguments, and of every
//! message.

use crate::command::{
    dd_line, parted_line, rescan_lines, run_failure, sfdisk_line, signed_decimal, spaced, text_or,
    ArgView, CommandView, Root, RunEnd,
};
use crate::sfdisk::{sfd_next, sfd_run, SfdEventView, SfdNextView, SfdStep};
use crate::text::{all_digits, decimal, digits_value, law_decimal_reads_back};
use vstd::prelude::*;
use vstd::utf8::{decode_utf8, valid_utf8};

verus! {

/// Whether an argument is a key, decimal digits that denote a number, and the
/// unit of a byte.
pub open spec fn gives_bytes(arg: ArgView, key: Seq<char>, n: int) -> bool {
    exists|digits: Seq<char>|
        arg == ArgView::Text(#[trigger] (key + digits + "B"@)) && digits.len() > 0 && all_digits(
            digits,
        ) && digits_value(digits) == n
}

/// Whether a command copies `n` bytes from an offset of one file to an offset of
/// another, in blocks of five mebibytes, and shows how far it has come.
pub open spec fn copies_bytes(
    command: CommandView,
    source: Root,
    from: int,
    destination: Root,
    to: int,
    n: int,
) -> bool {
    &&& command.program == "dd"@
    &&& command.args.len() == 7
    &&& command.args[0] == ArgView::Path("if="@, source)
    &&& command.args[1] == ArgView::Path("of="@, destination)
    &&& command.args[2] == ArgView::Text("bs=5M"@)
    &&& command.args[3] == ArgView::Text("status=progress"@)
    &&& gives_bytes(command.args[4], "seek="@, to)
    &&& gives_bytes(command.args[5], "skip="@, from)
    &&& gives_bytes(command.args[6], "count="@, n)
    &&& command.inherit_stdout
}

proof fn lemma_gives_bytes(arg: ArgView, key: Seq<char>, n: u64)
    requires
        arg == ArgView::Text(key + decimal(n as nat) + "B"@),
    ensures
        gives_bytes(arg, key, n as int),
{
    law_decimal_reads_back(n as nat);
}

/// A copy writes exactly the bytes from the destination's offset on, reads exactly
/// those from the source's offset on, and as many as it is told, for all offsets
/// and sizes.
pub proof fn law_copy_command(
    source: Root,
    destination: Root,
    source_offset: u64,
    dest_offset: u64,
    size: u64,
)
    ensures
        copies_bytes(
            dd_line(source, destination, source_offset, dest_offset, size),
            source,
            source_offset as int,
            destination,
            dest_offset as int,
            size as int,
        ),
{
    let c = dd_line(source, destination, source_offset, dest_offset, size);
    lemma_gives_bytes(c.args[4], "seek="@, dest_offset);
    lemma_gives_bytes(c.args[5], "skip="@, source_offset);
    lemma_gives_bytes(c.args[6], "count="@, size);
}

/// `parted` is asked for the partitions of the very device that is to be listed, in
/// bytes and as JSON.
pub proof fn law_listing_command(device: Root)
    ensures
        parted_line(device).program == "parted"@,
        parted_line(device).args == seq![
            ArgView::Path(""@, device),
            ArgView::Text("-j"@),
            ArgView::Text("unit B print"@),
        ],
        !parted_line(device).inherit_stdout,
{
}

/// `sfdisk` is told to append exactly if it is not to wipe. Besides that it is
/// given the very device, and told not to have it read again.
pub proof fn law_partition_command(wipe: bool, device: Root)
    ensures
        sfdisk_line(wipe, device).program == "sfdisk"@,
        !sfdisk_line(wipe, device).inherit_stdout,
        sfdisk_line(wipe, device).args.contains(ArgView::Text("--append"@)) <==> !wipe,
        sfdisk_line(true, device).args == seq![
            ArgView::Path(""@, device),
            ArgView::Text("--no-reread"@),
        ],
        sfdisk_line(false, device).args == seq![ArgView::Text("--append"@)] + sfdisk_line(
            true,
            device,
        ).args,
{
    let args = sfdisk_line(wipe, device).args;
    reveal_strlit("--append");
    reveal_strlit("--no-reread");
    assert("--append"@.len() != "--no-reread"@.len());
    assert(sfdisk_line(true, device).args =~= seq![
        ArgView::Path(""@, device),
        ArgView::Text("--no-reread"@),
    ]);
    if !wipe {
        assert(args[0] == ArgView::Text("--append"@));
    } else if args.contains(ArgView::Text("--append"@)) {
        let i = choose|i: int| 0 <= i < args.len() && args[i] == ArgView::Text("--append"@);
        assert(i == 0 || i == 1);
    }
}

/// A rescan has the partition table of the very device read again, and then awaits
/// what comes of that.
pub proof fn law_rescan_commands(device: Root)
    ensures
        rescan_lines(device).len() == 2,
        rescan_lines(device)[0].program == "blockdev"@,
        rescan_lines(device)[0].args == seq![
            ArgView::Text("--rereadpt"@),
            ArgView::Path(""@, device),
        ],
        rescan_lines(device)[1].program == "udevadm"@,
        rescan_lines(device)[1].args == seq![ArgView::Text("settle"@)],
        !rescan_lines(device)[0].inherit_stdout && !rescan_lines(device)[1].inherit_stdout,
{
}

/// A signed number is its digits, with a minus sign before them exactly if it is
/// negative.
pub proof fn law_signed_numbers(n: int)
    ensures
        n >= 0 ==> all_digits(signed_decimal(n)) && digits_value(signed_decimal(n)) == n,
        n < 0 ==> signed_decimal(n).len() > 1 && signed_decimal(n)[0] == '-' && all_digits(
            signed_decimal(n).skip(1),
        ) && digits_value(signed_decimal(n).skip(1)) == -n,
{
    reveal_strlit("-");
    if n >= 0 {
        law_decimal_reads_back(n as nat);
    } else {
        law_decimal_reads_back((-n) as nat);
        assert(signed_decimal(n).skip(1) =~= decimal((-n) as nat));
    }
}

/// A run succeeds exactly if the program ended with success. What is said of
/// another names the program, and ends in the reason, or in what the program wrote
/// to its standard error, behind the code that it ended with, which is -32000 where
/// it has none.
pub proof fn law_run_messages(program: Seq<char>, end: RunEnd)
    ensures
        run_failure(program, end) is None <==> (end matches RunEnd::Exited { success, .. }
            && success),
        end matches RunEnd::NotSpawned(e) ==> run_failure(program, end) == Some(
            "Could not spawn "@ + program + ": "@ + e@,
        ),
        end matches RunEnd::NotAwaited(e) ==> run_failure(program, end) == Some(
            "Could not wait for "@ + program + ": "@ + e@,
        ),
        end matches RunEnd::Exited { success: false, code, stderr } ==> exists|status: Seq<char>|
            {
                &&& run_failure(program, end) == Some(
                    #[trigger] ("Error with "@ + program + ", exit status "@ + status) + ": "@ + (
                    if valid_utf8(stderr@) {
                        decode_utf8(stderr@)
                    } else {
                        "could not read stderr"@
                    }),
                )
                &&& code matches Some(n) ==> status == signed_decimal(n as int)
                &&& code is None ==> status == signed_decimal(-32000)
            },
{
    if let RunEnd::Exited { success: false, code, stderr } = end {
        let status = signed_decimal(
            match code {
                Some(n) => n as int,
                None => -32000,
            },
        );
        assert(run_failure(program, end) == Some(
            ("Error with "@ + program + ", exit status "@ + status) + ": "@ + (if valid_utf8(
                stderr@,
            ) {
                decode_utf8(stderr@)
            } else {
                "could not read stderr"@
            }),
        ));
    }
}

/// Bytes that are UTF-8 are taken at their word, and others are replaced.
pub proof fn law_replaced_texts(bytes: Seq<u8>, otherwise: Seq<char>)
    ensures
        valid_utf8(bytes) ==> text_or(bytes, otherwise) == decode_utf8(bytes),
        !valid_utf8(bytes) ==> text_or(bytes, otherwise) == otherwise,
{
}

/// Texts are set apart by one space: none before the first, and none behind the
/// last.
pub proof fn law_spaced_texts(list: Seq<Seq<char>>, text: Seq<char>)
    ensures
        spaced(Seq::empty()) == Seq::<char>::empty(),
        list.len() == 0 ==> spaced(list.push(text)) == text,
        list.len() > 0 ==> spaced(list.push(text)) == spaced(list) + seq![' '] + text,
{
    reveal_strlit(" ");
    assert(list.push(text).drop_last() =~= list);
    assert(" "@ =~= seq![' ']);
}

// Runs of `sfdisk`.

/// The steps of a run come in this order, and its end decides: with success it
/// succeeds, without it the standard error is read and is what is said.
pub proof fn law_sfd_steps(success: bool, text: Seq<char>)
    ensures
        sfd_next(SfdStep::Spawn, SfdEventView::Done) == SfdNextView::Do(SfdStep::Write),
        sfd_next(SfdStep::Write, SfdEventView::Done) == SfdNextView::Do(SfdStep::Flush),
        sfd_next(SfdStep::Flush, SfdEventView::Done) == SfdNextView::Do(SfdStep::CloseAndWait),
        sfd_next(SfdStep::CloseAndWait, SfdEventView::Exited(success)) == if success {
            SfdNextView::Finish(Ok(()))
        } else {
            SfdNextView::Do(SfdStep::ReadErrors)
        },
        sfd_next(SfdStep::ReadErrors, SfdEventView::Read(text)) == SfdNextView::Finish(
            Err("sfdisk error: "@ + text),
        ),
{
}

/// A step that fails ends the run, and what is said of it ends in the reason.
pub proof fn law_sfd_failures(e: Seq<char>)
    ensures
        sfd_next(SfdStep::Spawn, SfdEventView::Failed(e)) == SfdNextView::Finish(
            Err("Could not spawn sfdisk: "@ + e),
        ),
        sfd_next(SfdStep::Write, SfdEventView::Failed(e)) == SfdNextView::Finish(
            Err("Could not write stdin: "@ + e),
        ),
        sfd_next(SfdStep::Flush, SfdEventView::Failed(e)) == SfdNextView::Finish(
            Err("Could not flush stdin: "@ + e),
        ),
        sfd_next(SfdStep::CloseAndWait, SfdEventView::Failed(e)) == SfdNextView::Finish(
            Err("Couldn't join sfdisk: "@ + e),
        ),
        sfd_next(SfdStep::ReadErrors, SfdEventView::Failed(e)) == SfdNextView::Finish(
            Err("sfdisk error: could not read sfdisk stderr: "@ + e),
        ),
{
}

/// A run that ends without success is answered with what the program wrote, and
/// nothing that was begun is left undone.
pub proof fn law_sfd_refusal(text: Seq<char>)
    ensures
        sfd_run(
            SfdStep::Spawn,
            seq![
                SfdEventView::Done,
                SfdEventView::Done,
                SfdEventView::Done,
                SfdEventView::Exited(false),
                SfdEventView::Read(text),
            ],
        ) == SfdNextView::Finish(Err("sfdisk error: "@ + text)),
{
    reveal_with_fuel(sfd_run, 7);
}

} // verus!
