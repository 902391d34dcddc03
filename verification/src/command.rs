//! The programs that are run, with what arguments, and what their ends mean.

use crate::plan::{plan_run, plan_step, PlanNextView, PlanRun};
use crate::text::{decimal, push_decimal, texts};
use vstd::prelude::*;
use vstd::string::*;
use vstd::utf8::{decode_utf8, valid_utf8};

verus! {

/// A path that the user or the system gives.
#[derive(Debug, Clone, Copy, PartialEq, Eq, Structural)]
pub enum Root {
    /// The block device that is written.
    Device,
    /// The directory at which the first partition of the device is mounted.
    Mount,
    /// The directory of the boot manager's files.
    Refind,
    /// A disk image, by its position in the list of images.
    Image(usize),
}

/// A path inside a root; the root itself where `inside` is empty.
#[derive(Debug, PartialEq, Eq)]
pub struct Place {
    pub root: Root,
    pub inside: String,
}

/// A place as contracts speak of it.
pub struct PlaceView {
    pub root: Root,
    pub inside: Seq<char>,
}

impl View for Place {
    type V = PlaceView;

    open spec fn view(&self) -> PlaceView {
        PlaceView { root: self.root, inside: self.inside@ }
    }
}

/// An argument of a program.
#[derive(Debug, PartialEq, Eq)]
pub enum Arg {
    Text(String),
    /// A root with a text before it.
    Path(String, Root),
}

/// An argument as contracts speak of it.
pub enum ArgView {
    Text(Seq<char>),
    Path(Seq<char>, Root),
}

impl View for Arg {
    type V = ArgView;

    open spec fn view(&self) -> ArgView {
        match self {
            Arg::Text(s) => ArgView::Text(s@),
            Arg::Path(prefix, root) => ArgView::Path(prefix@, *root),
        }
    }
}

/// A program with its arguments.
#[derive(Debug, PartialEq, Eq)]
pub struct CommandLine {
    pub program: String,
    pub args: Vec<Arg>,
    /// Whether the program shows its output to the user.
    pub inherit_stdout: bool,
}

/// A program with its arguments as contracts speak of it.
pub struct CommandView {
    pub program: Seq<char>,
    pub args: Seq<ArgView>,
    pub inherit_stdout: bool,
}

impl View for CommandLine {
    type V = CommandView;

    open spec fn view(&self) -> CommandView {
        CommandView {
            program: self.program@,
            args: self.args@.map_values(|a: Arg| a@),
            inherit_stdout: self.inherit_stdout,
        }
    }
}

/// A list of programs as contracts speak of it.
pub open spec fn command_views(commands: Seq<CommandLine>) -> Seq<CommandView> {
    commands.map_values(|c: CommandLine| c@)
}

// Arguments.

/// The program that lists the partitions of a device in bytes.
pub open spec fn parted_line(device: Root) -> CommandView {
    CommandView {
        program: "parted"@,
        args: seq![
            ArgView::Path(""@, device),
            ArgView::Text("-j"@),
            ArgView::Text("unit B print"@),
        ],
        inherit_stdout: false,
    }
}

/// The program that writes a partition table from a script, over the old one
/// or behind what is there.
pub open spec fn sfdisk_line(wipe: bool, device: Root) -> CommandView {
    CommandView {
        program: "sfdisk"@,
        args: (if wipe {
            Seq::empty()
        } else {
            seq![ArgView::Text("--append"@)]
        }) + seq![ArgView::Path(""@, device), ArgView::Text("--no-reread"@)],
        inherit_stdout: false,
    }
}

/// The programs that make the system see a new partition table.
pub open spec fn rescan_lines(device: Root) -> Seq<CommandView> {
    seq![
        CommandView {
            program: "blockdev"@,
            args: seq![ArgView::Text("--rereadpt"@), ArgView::Path(""@, device)],
            inherit_stdout: false,
        },
        CommandView {
            program: "udevadm"@,
            args: seq![ArgView::Text("settle"@)],
            inherit_stdout: false,
        },
    ]
}

/// An argument of `dd` that gives a number of bytes.
pub open spec fn byte_count(key: Seq<char>, n: u64) -> ArgView {
    ArgView::Text(key + decimal(n as nat) + "B"@)
}

/// The program that copies a range of bytes.
pub open spec fn dd_line(
    source: Root,
    destination: Root,
    source_offset: u64,
    dest_offset: u64,
    size: u64,
) -> CommandView {
    CommandView {
        program: "dd"@,
        args: seq![
            ArgView::Path("if="@, source),
            ArgView::Path("of="@, destination),
            ArgView::Text("bs=5M"@),
            ArgView::Text("status=progress"@),
            byte_count("seek="@, dest_offset),
            byte_count("skip="@, source_offset),
            byte_count("count="@, size),
        ],
        inherit_stdout: true,
    }
}

pub(crate) fn text_arg(text: &str) -> (r: Arg)
    ensures
        r@ == ArgView::Text(text@),
{
    Arg::Text(text.to_owned())
}

pub(crate) fn path_arg(prefix: &str, root: Root) -> (r: Arg)
    ensures
        r@ == ArgView::Path(prefix@, root),
{
    Arg::Path(prefix.to_owned(), root)
}

fn byte_count_arg(key: &str, n: u64) -> (r: Arg)
    ensures
        r@ == byte_count(key@, n),
{
    let mut text: String = key.to_owned();
    push_decimal(&mut text, n);
    text.append("B");
    Arg::Text(text)
}

pub(crate) fn command_line(program: &str, args: Vec<Arg>, inherit_stdout: bool) -> (r: CommandLine)
    ensures
        r@ == (CommandView {
            program: program@,
            args: args@.map_values(|a: Arg| a@),
            inherit_stdout,
        }),
{
    CommandLine { program: program.to_owned(), args, inherit_stdout }
}

/// The program that lists the partitions of a device in bytes.
pub fn parted_command(device: Root) -> (r: CommandLine)
    ensures
        r@ == parted_line(device),
{
    let args: Vec<Arg> = vec![path_arg("", device), text_arg("-j"), text_arg("unit B print")];
    let r = command_line("parted", args, false);
    assert(r@.args =~= parted_line(device).args);
    r
}

/// The program that writes a partition table from a script, over the old one
/// or behind what is there.
pub fn sfdisk_command(wipe: bool, device: Root) -> (r: CommandLine)
    ensures
        r@ == sfdisk_line(wipe, device),
{
    let mut args: Vec<Arg> = Vec::new();
    if !wipe {
        args.push(text_arg("--append"));
    }
    args.push(path_arg("", device));
    args.push(text_arg("--no-reread"));
    let r = command_line("sfdisk", args, false);
    assert(r@.args =~= sfdisk_line(wipe, device).args);
    r
}

/// The programs that make the system see a new partition table, to be run as a
/// list that ends at the first failure.
pub fn rescan_device(device: Root) -> (r: Vec<CommandLine>)
    ensures
        command_views(r@) == rescan_lines(device),
{
    let reread_args: Vec<Arg> = vec![text_arg("--rereadpt"), path_arg("", device)];
    let reread = command_line("blockdev", reread_args, false);
    assert(reread@.args =~= rescan_lines(device)[0].args);
    let settle_args: Vec<Arg> = vec![text_arg("settle")];
    let settle = command_line("udevadm", settle_args, false);
    assert(settle@.args =~= rescan_lines(device)[1].args);
    let r: Vec<CommandLine> = vec![reread, settle];
    assert(command_views(r@) =~= rescan_lines(device));
    r
}

/// Where the first program of a rescan fails, its message is returned and the
/// second is not run. Where it succeeds, the second is run once, and what comes of
/// it is returned.
pub proof fn law_rescan(device: Root, first: Result<(), Seq<char>>, second: Result<(), Seq<char>>)
    ensures
        plan_run(rescan_lines(device), Seq::empty()) == (PlanRun {
            next: PlanNextView::Do(0),
            begun: rescan_lines(device).take(1),
        }),
        first is Err ==> plan_run(rescan_lines(device), seq![first]) == (PlanRun {
            next: PlanNextView::Finish(first),
            begun: rescan_lines(device).take(1),
        }),
        first is Ok ==> plan_run(rescan_lines(device), seq![first]) == (PlanRun {
            next: PlanNextView::Do(1),
            begun: rescan_lines(device),
        }),
        first is Ok ==> plan_run(rescan_lines(device), seq![first, second]) == (PlanRun {
            next: PlanNextView::Finish(second),
            begun: rescan_lines(device),
        }),
{
    reveal_with_fuel(plan_run, 3);
    let lines = rescan_lines(device);
    assert(seq![first].drop_last() =~= Seq::empty());
    assert(seq![first, second].drop_last() =~= seq![first]);
    assert(Seq::empty().push(lines[0]) =~= lines.take(1));
    assert(lines.take(1).push(lines[1]) =~= lines);
    if first is Ok {
        assert(plan_step(2, 1, second) == PlanNextView::Finish(second)) by {
            if let Ok(done) = second {
                assert(done == ());
            }
        }
    }
}

/// The program that copies `size` bytes from one offset to another.
pub fn dd_copy_data(
    source: Root,
    destination: Root,
    source_offset: u64,
    dest_offset: u64,
    size: u64,
) -> (r: CommandLine)
    ensures
        r@ == dd_line(source, destination, source_offset, dest_offset, size),
{
    let args: Vec<Arg> = vec![
        path_arg("if=", source),
        path_arg("of=", destination),
        text_arg("bs=5M"),
        text_arg("status=progress"),
        byte_count_arg("seek=", dest_offset),
        byte_count_arg("skip=", source_offset),
        byte_count_arg("count=", size),
    ];
    let r = command_line("dd", args, true);
    assert(r@.args =~= dd_line(source, destination, source_offset, dest_offset, size).args);
    r
}

// Announcements.

/// Texts with a space between each and the next.
pub open spec fn spaced(list: Seq<Seq<char>>) -> Seq<char>
    decreases list.len(),
{
    if list.len() == 0 {
        Seq::empty()
    } else if list.len() == 1 {
        list[0]
    } else {
        spaced(list.drop_last()) + " "@ + list.last()
    }
}

/// What the user is told before a program is run, with its arguments as they
/// are shown.
pub fn running_message(program: &str, args: &Vec<String>) -> (r: String)
    ensures
        r@ == "Running "@ + program@ + " "@ + spaced(texts(args@)),
{
    let mut m: String = message("Running ", program);
    m.append(" ");
    let ghost start = m@;
    let ghost shown = texts(args@);
    assert(m@ =~= start + spaced(shown.take(0)));
    for i in 0..args.len()
        invariant
            shown == texts(args@),
            m@ == start + spaced(shown.take(i as int)),
    {
        if i > 0 {
            m.append(" ");
        }
        m.append(&args[i]);
        proof {
            assert(shown.take(i + 1).drop_last() =~= shown.take(i as int));
            assert(m@ =~= start + spaced(shown.take(i + 1)));
        }
    }
    assert(shown.take(args@.len() as int) =~= shown);
    m
}

// Ends.

/// What the error of `String::from_utf8` on these bytes says of them.
pub uninterp spec fn utf8_error_text(bytes: Seq<u8>) -> Seq<char>;

/// Calls `String::from_utf8`: the text that the bytes encode, or the words of its
/// error where they are not UTF-8, which depend on the bytes alone.
#[verifier::external_body]
fn text_from_utf8(bytes: Vec<u8>) -> (r: Result<String, String>)
    ensures
        match r {
            Ok(text) => valid_utf8(bytes@) && text@ == decode_utf8(bytes@),
            Err(e) => !valid_utf8(bytes@) && e@ == utf8_error_text(bytes@),
        },
{
    String::from_utf8(bytes).map_err(|e| e.to_string())
}

/// The text that bytes encode, or another where they are not UTF-8.
pub open spec fn text_or(bytes: Seq<u8>, otherwise: Seq<char>) -> Seq<char> {
    if valid_utf8(bytes) {
        decode_utf8(bytes)
    } else {
        otherwise
    }
}

fn read_text_or(bytes: Vec<u8>, otherwise: &str) -> (r: String)
    ensures
        r@ == text_or(bytes@, otherwise@),
{
    match text_from_utf8(bytes) {
        Ok(text) => text,
        Err(_) => otherwise.to_owned(),
    }
}

/// The decimal notation of a number with its sign.
pub open spec fn signed_decimal(n: int) -> Seq<char> {
    if n < 0 {
        "-"@ + decimal((-n) as nat)
    } else {
        decimal(n as nat)
    }
}

fn push_signed_decimal(out: &mut String, n: i32)
    ensures
        final(out)@ == old(out)@ + signed_decimal(n as int),
{
    let ghost before = out@;
    if n < 0 {
        out.append("-");
        push_decimal(out, (-(n as i64)) as u64);
    } else {
        push_decimal(out, n as u64);
    }
    assert(out@ =~= before + signed_decimal(n as int));
}

/// A message made of a text and what follows it.
pub(crate) fn message(text: &str, detail: &str) -> (r: String)
    ensures
        r@ == text@ + detail@,
{
    let mut m: String = text.to_owned();
    m.append(detail);
    m
}

/// How a run of `parted` ended.
#[derive(Debug, PartialEq, Eq)]
pub enum PartedEnd {
    /// It could not be run, for this reason.
    NotRun(String),
    /// It ran, with success or not, and wrote these bytes.
    Exited { success: bool, stdout: Vec<u8>, stderr: Vec<u8> },
}

/// The listing that `parted` has printed, or what went wrong where what it has
/// printed could not be read.
pub fn parted_listing(read: Result<String, String>) -> (r: Result<String, String>)
    ensures
        match read {
            Ok(listing) => r matches Ok(text) && text@ == listing@,
            Err(e) => r matches Err(m) && m@ == "Couldn't read parted stdout: "@ + e@,
        },
{
    match read {
        Ok(listing) => Ok(listing),
        Err(e) => Err(message("Couldn't read parted stdout: ", &e)),
    }
}

/// The listing that a run of `parted` has printed, or what went wrong.
pub fn get_parted_info(end: PartedEnd) -> (r: Result<String, String>)
    ensures
        match end {
            PartedEnd::NotRun(e) => r matches Err(m) && m@ == "Error with running parted: "@ + e@,
            PartedEnd::Exited { success: true, stdout, .. } => if valid_utf8(stdout@) {
                r matches Ok(listing) && listing@ == decode_utf8(stdout@)
            } else {
                r matches Err(m) && m@ == "Couldn't read parted stdout: "@ + utf8_error_text(
                    stdout@,
                )
            },
            PartedEnd::Exited { success: false, stderr, .. } => r matches Err(m) && m@
                == "Error with parted: "@ + text_or(stderr@, "could not read parted stderr"@),
        },
{
    match end {
        PartedEnd::NotRun(e) => Err(message("Error with running parted: ", &e)),
        PartedEnd::Exited { success, stdout, stderr } => {
            if success {
                parted_listing(text_from_utf8(stdout))
            } else {
                let text = read_text_or(stderr, "could not read parted stderr");
                Err(message("Error with parted: ", &text))
            }
        },
    }
}

/// How a run of a program ended.
#[derive(Debug, PartialEq, Eq)]
pub enum RunEnd {
    /// It could not be started, for this reason.
    NotSpawned(String),
    /// Its end could not be awaited, for this reason.
    NotAwaited(String),
    /// It ran, with success or not, ended with this code unless a signal ended
    /// it, and wrote these bytes to its standard error.
    Exited { success: bool, code: Option<i32>, stderr: Vec<u8> },
}

/// The code that stands for the end of a program by a signal.
pub const NO_CODE: i32 = -32000;

/// What went wrong in a run of `program`, if anything did.
pub open spec fn run_failure(program: Seq<char>, end: RunEnd) -> Option<Seq<char>> {
    match end {
        RunEnd::NotSpawned(e) => Some("Could not spawn "@ + program + ": "@ + e@),
        RunEnd::NotAwaited(e) => Some("Could not wait for "@ + program + ": "@ + e@),
        RunEnd::Exited { success, code, stderr } => if success {
            None
        } else {
            Some(
                "Error with "@ + program + ", exit status "@ + signed_decimal(
                    match code {
                        Some(n) => n as int,
                        None => NO_CODE as int,
                    },
                ) + ": "@ + text_or(stderr@, "could not read stderr"@),
            )
        },
    }
}

/// Whether a run of `program` succeeded, or what went wrong.
pub fn run_cmd(program: &str, end: RunEnd) -> (r: Result<(), String>)
    ensures
        match r {
            Ok(_) => run_failure(program@, end) is None,
            Err(m) => run_failure(program@, end) == Some(m@),
        },
{
    match end {
        RunEnd::NotSpawned(e) => {
            let mut m: String = message("Could not spawn ", program);
            m.append(": ");
            m.append(&e);
            Err(m)
        },
        RunEnd::NotAwaited(e) => {
            let mut m: String = message("Could not wait for ", program);
            m.append(": ");
            m.append(&e);
            Err(m)
        },
        RunEnd::Exited { success, code, stderr } => {
            if success {
                return Ok(());
            }
            let mut m: String = message("Error with ", program);
            m.append(", exit status ");
            let status: i32 = match code {
                Some(n) => n,
                None => NO_CODE,
            };
            push_signed_decimal(&mut m, status);
            m.append(": ");
            m.append(&read_text_or(stderr, "could not read stderr"));
            Err(m)
        },
    }
}

} // verus!
