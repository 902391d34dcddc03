//! Copying the partitions of disk images to the drive, and the menu for them.
//!
//! A run says what is to be done next and is resumed with what came of it.

use crate::command::{dd_copy_data, dd_line, message, CommandLine, CommandView, Root};
use crate::guid::{free_uuid, is_random_uuid, uuid_text, Uuid};
use crate::layout::{
    disk_part, iso_part_to_disk, menu_entry, parts_to_sfd_script, sfd_script, write_menuentry,
};
use crate::part::{part_views, Part, PartView, ESP_UUID};
use crate::parted::{checked_read_parted_json, listing_text_has_units, listing_text_parts};
use crate::text::{decimal, push_decimal};
use vstd::prelude::*;
use vstd::string::*;

verus! {

/// Where a run stands with the present image.
#[derive(Debug, PartialEq, Eq)]
pub enum CopyPhase {
    /// The partitions of the image are being listed.
    ListImage,
    /// Partitions for those of the image are being created.
    Create { iso_parts: Vec<Part>, disk_parts: Vec<Part> },
    /// The partitions of the drive are being listed.
    ListDevice { iso_parts: Vec<Part>, disk_parts: Vec<Part> },
    /// The partition number `index` of the image is being copied.
    Copy { iso_parts: Vec<Part>, disk_parts: Vec<Part>, created: Vec<Part>, index: usize },
}

/// Where a run stands with the present image, as contracts speak of it.
pub enum PhaseView {
    ListImage,
    Create { iso: Seq<PartView>, disk: Seq<PartView> },
    ListDevice { iso: Seq<PartView>, disk: Seq<PartView> },
    Copy { iso: Seq<PartView>, disk: Seq<PartView>, created: Seq<PartView>, index: int },
}

impl View for CopyPhase {
    type V = PhaseView;

    open spec fn view(&self) -> PhaseView {
        match self {
            CopyPhase::ListImage => PhaseView::ListImage,
            CopyPhase::Create { iso_parts, disk_parts } => PhaseView::Create {
                iso: part_views(iso_parts@),
                disk: part_views(disk_parts@),
            },
            CopyPhase::ListDevice { iso_parts, disk_parts } => PhaseView::ListDevice {
                iso: part_views(iso_parts@),
                disk: part_views(disk_parts@),
            },
            CopyPhase::Copy { iso_parts, disk_parts, created, index } => PhaseView::Copy {
                iso: part_views(iso_parts@),
                disk: part_views(disk_parts@),
                created: part_views(created@),
                index: *index as int,
            },
        }
    }
}

/// The file name of an image, where its path has one.
pub open spec fn name_view(name: Option<String>) -> Option<Seq<char>> {
    match name {
        Some(text) => Some(text@),
        None => None,
    }
}

/// A run that copies images.
#[derive(Debug, PartialEq, Eq)]
pub struct CopyRun {
    /// The file names of the images.
    pub names: Vec<Option<String>>,
    /// The position of the present image.
    pub image: usize,
    pub phase: CopyPhase,
    /// The menu for the images before.
    pub config: String,
    /// The identifiers of the partitions that were planned for the images before.
    pub planned: Vec<Uuid>,
}

/// A run that copies images as contracts speak of it.
pub struct RunView {
    pub names: Seq<Option<Seq<char>>>,
    pub image: int,
    pub phase: PhaseView,
    pub config: Seq<char>,
    pub planned: Seq<Uuid>,
}

impl View for CopyRun {
    type V = RunView;

    open spec fn view(&self) -> RunView {
        RunView {
            names: self.names@.map_values(|n: Option<String>| name_view(n)),
            image: self.image as int,
            phase: self.phase@,
            config: self.config@,
            planned: self.planned@,
        }
    }
}

/// What is to be done next.
#[derive(Debug, PartialEq, Eq)]
pub enum CopyAction {
    /// List the partitions of a device or image.
    List(Root),
    /// Write a partition table from a script, over the old one or behind what
    /// is there.
    Create { wipe: bool, device: Root, script: String },
    /// Copy a partition of the image, of this number, to one of the drive, of
    /// that number.
    Copy { command: CommandLine, from: u8, to: u8 },
}

/// What is to be done next, as contracts speak of it.
pub enum CopyActionView {
    List(Root),
    Create { wipe: bool, device: Root, script: Seq<char> },
    Copy { command: CommandView, from: u8, to: u8 },
}

impl View for CopyAction {
    type V = CopyActionView;

    open spec fn view(&self) -> CopyActionView {
        match self {
            CopyAction::List(root) => CopyActionView::List(*root),
            CopyAction::Create { wipe, device, script } => CopyActionView::Create {
                wipe: *wipe,
                device: *device,
                script: script@,
            },
            CopyAction::Copy { command, from, to } => CopyActionView::Copy {
                command: command@,
                from: *from,
                to: *to,
            },
        }
    }
}

/// What the user is told before an action, with the present image as it is
/// shown, if anything is told.
pub open spec fn announcement_of(action: CopyActionView, image: Seq<char>) -> Option<Seq<char>> {
    match action {
        CopyActionView::List(_) => None,
        CopyActionView::Create { .. } => Some("Creating partitions on destination device"@),
        CopyActionView::Copy { from, to, .. } => Some(
            "Copying ISO "@ + image + " partition "@ + decimal(from as nat)
                + " to device partition "@ + decimal(to as nat),
        ),
    }
}

impl CopyAction {
    /// What the user is told before the action, with the present image as it
    /// is shown, if anything is told.
    pub fn announcement(&self, image: &str) -> (r: Option<String>)
        ensures
            match r {
                Some(text) => announcement_of(self@, image@) == Some(text@),
                None => announcement_of(self@, image@) is None,
            },
    {
        match self {
            CopyAction::List(_) => None,
            CopyAction::Create { .. } => Some(
                "Creating partitions on destination device".to_owned(),
            ),
            CopyAction::Copy { from, to, .. } => {
                let mut m: String = message("Copying ISO ", image);
                m.append(" partition ");
                push_decimal(&mut m, *from as u64);
                m.append(" to device partition ");
                push_decimal(&mut m, *to as u64);
                Some(m)
            },
        }
    }
}

/// What came of an action: a listing, or nothing but that it was done, or what
/// went wrong.
#[derive(Debug, PartialEq, Eq)]
pub enum CopyEvent {
    Listed(String),
    Done,
    Failed(String),
}

/// What came of an action, as contracts speak of it.
pub enum CopyEventView {
    Listed(Seq<char>),
    Done,
    Failed(Seq<char>),
}

impl View for CopyEvent {
    type V = CopyEventView;

    open spec fn view(&self) -> CopyEventView {
        match self {
            CopyEvent::Listed(text) => CopyEventView::Listed(text@),
            CopyEvent::Done => CopyEventView::Done,
            CopyEvent::Failed(e) => CopyEventView::Failed(e@),
        }
    }
}

/// How a run goes on.
#[derive(Debug, PartialEq, Eq)]
pub enum CopyNext {
    /// With an action.
    Go(CopyRun, CopyAction),
    /// It has ended with this menu.
    Finish(String),
    /// It has failed, for this reason.
    Fail(String),
    /// A listing cannot be taken at its word: a quantity has no unit, or two
    /// partitions of an image have the same number.
    Abort,
}

/// How a run goes on, as contracts speak of it.
pub enum CopyNextView {
    Go(RunView, CopyActionView),
    Finish(Seq<char>),
    Fail(Seq<char>),
    Abort,
}

impl View for CopyNext {
    type V = CopyNextView;

    open spec fn view(&self) -> CopyNextView {
        match self {
            CopyNext::Go(run, action) => CopyNextView::Go(run@, action@),
            CopyNext::Finish(config) => CopyNextView::Finish(config@),
            CopyNext::Fail(e) => CopyNextView::Fail(e@),
            CopyNext::Abort => CopyNextView::Abort,
        }
    }
}

// The parts of a run.

/// Whether no two partitions have the same number.
pub open spec fn numbers_distinct(parts: Seq<PartView>) -> bool {
    forall|a: int, b: int| 0 <= a < b < parts.len() ==> parts[a].number != parts[b].number
}

/// Whether `disk` are partitions for those of an image, each under a random
/// identifier of its own.
pub open spec fn is_disk_for(iso: Seq<PartView>, disk: Seq<PartView>) -> bool {
    &&& disk.len() == iso.len()
    &&& forall|i: int|
        0 <= i < disk.len() ==> (#[trigger] disk[i]) == disk_part(iso[i], disk[i].part_uuid)
            && is_random_uuid(disk[i].part_uuid)
    &&& forall|i: int, j: int| 0 <= i < j < disk.len() ==> disk[i].part_uuid != disk[j].part_uuid
}

/// The identifiers of partitions.
pub open spec fn part_ids(parts: Seq<PartView>) -> Seq<Uuid> {
    Seq::new(parts.len(), |i: int| parts[i].part_uuid)
}

/// The first partition with an identifier.
pub open spec fn find_part(parts: Seq<PartView>, part_uuid: Uuid) -> Option<PartView>
    decreases parts.len(),
{
    if parts.len() == 0 {
        None
    } else if parts[0].part_uuid == part_uuid {
        Some(parts[0])
    } else {
        find_part(parts.skip(1), part_uuid)
    }
}

/// The partitions of a listing that were created for `disk`, or the first
/// identifier that none of them has.
pub open spec fn created_parts(disk: Seq<PartView>, listing: Seq<PartView>) -> Result<
    Seq<PartView>,
    Uuid,
>
    decreases disk.len(),
{
    if disk.len() == 0 {
        Ok(Seq::empty())
    } else {
        match created_parts(disk.drop_last(), listing) {
            Err(missing) => Err(missing),
            Ok(found) => match find_part(listing, disk.last().part_uuid) {
                None => Err(disk.last().part_uuid),
                Some(part) => Ok(found.push(part)),
            },
        }
    }
}

/// The name of an image in the menu.
pub open spec fn display_name(name: Option<Seq<char>>) -> Seq<char> {
    match name {
        Some(text) => text,
        None => "ISO"@,
    }
}

/// The entries of the menu for an image: one for each EFI system partition.
pub open spec fn boot_entries(name: Option<Seq<char>>, disk: Seq<PartView>) -> Seq<char>
    decreases disk.len(),
{
    if disk.len() == 0 {
        Seq::empty()
    } else {
        boot_entries(name, disk.drop_last()) + if disk.last().type_uuid.value == ESP_UUID {
            menu_entry(display_name(name), disk.last().part_uuid)
        } else {
            Seq::empty()
        }
    }
}

/// What stands behind the entries of the menu.
pub open spec fn menu_end() -> Seq<char> {
    "\ntimeout 30\nscanfor manual\n"@
}

/// What is said when a partition of an image does not fit.
pub open spec fn too_large(iso: PartView, created: PartView) -> Seq<char> {
    "Partition "@ + decimal(iso.number as nat) + " on ISO "@ + uuid_text(iso.part_uuid)
        + " is larger than destination partition "@ + uuid_text(created.part_uuid)
}

/// What is said when a partition was not created.
pub open spec fn not_created(missing: Uuid) -> Seq<char> {
    "sfdisk did not create any partition with guid "@ + uuid_text(missing)
}

// A run.

/// How a run goes on with the image at `image`, if there is one.
pub open spec fn at_image(
    names: Seq<Option<Seq<char>>>,
    image: int,
    config: Seq<char>,
    planned: Seq<Uuid>,
) -> CopyNextView {
    if image < names.len() {
        CopyNextView::Go(
            RunView { names, image, phase: PhaseView::ListImage, config, planned },
            CopyActionView::List(Root::Image(image as usize)),
        )
    } else {
        CopyNextView::Finish(config + menu_end())
    }
}

/// How a run goes on when the partitions of an image are known, with these
/// partitions for them.
pub open spec fn at_parts(run: RunView, iso: Seq<PartView>, disk: Seq<PartView>) -> CopyNextView {
    if numbers_distinct(iso) {
        CopyNextView::Go(
            RunView { phase: PhaseView::Create { iso, disk }, ..run },
            CopyActionView::Create {
                wipe: false,
                device: Root::Device,
                script: sfd_script(disk),
            },
        )
    } else {
        CopyNextView::Abort
    }
}

/// How a run goes on with partition number `index` of an image, if there is one.
pub open spec fn at_part(
    run: RunView,
    iso: Seq<PartView>,
    disk: Seq<PartView>,
    created: Seq<PartView>,
    index: int,
) -> CopyNextView {
    if index >= iso.len() {
        at_image(
            run.names,
            run.image + 1,
            run.config + boot_entries(run.names[run.image], disk),
            run.planned + part_ids(disk),
        )
    } else if iso[index].size > created[index].size {
        CopyNextView::Fail(too_large(iso[index], created[index]))
    } else {
        CopyNextView::Go(
            RunView { phase: PhaseView::Copy { iso, disk, created, index }, ..run },
            CopyActionView::Copy {
                command: dd_line(
                    Root::Image(run.image as usize),
                    Root::Device,
                    iso[index].start,
                    created[index].start,
                    iso[index].size,
                ),
                from: iso[index].number,
                to: created[index].number,
            },
        )
    }
}

/// How a run goes on when the partitions of the drive are known.
pub open spec fn at_listing(
    run: RunView,
    iso: Seq<PartView>,
    disk: Seq<PartView>,
    listing: Seq<PartView>,
) -> CopyNextView {
    match created_parts(disk, listing) {
        Err(missing) => CopyNextView::Fail(not_created(missing)),
        Ok(created) => at_part(run, iso, disk, created, 0),
    }
}

/// Whether an event can come of the action that a run waits for.
pub open spec fn can_resume(phase: PhaseView, event: CopyEventView) -> bool {
    match event {
        CopyEventView::Failed(_) => true,
        CopyEventView::Listed(_) => phase is ListImage || phase is ListDevice,
        CopyEventView::Done => phase is Create || phase is Copy,
    }
}

/// How a run goes on after an event. Where partitions are to be created, they
/// are `disk`.
pub open spec fn copy_next(
    run: RunView,
    event: CopyEventView,
    disk: Seq<PartView>,
) -> CopyNextView {
    match (run.phase, event) {
        (_, CopyEventView::Failed(e)) => CopyNextView::Fail(e),
        (PhaseView::ListImage, CopyEventView::Listed(text)) => if !listing_text_has_units(text) {
            CopyNextView::Abort
        } else {
            match listing_text_parts(text) {
                Err(e) => CopyNextView::Fail(e),
                Ok(iso) => at_parts(run, iso, disk),
            }
        },
        (PhaseView::Create { iso, disk: planned }, _) => CopyNextView::Go(
            RunView { phase: PhaseView::ListDevice { iso, disk: planned }, ..run },
            CopyActionView::List(Root::Device),
        ),
        (
            PhaseView::ListDevice { iso, disk: planned },
            CopyEventView::Listed(text),
        ) => if !listing_text_has_units(text) {
            CopyNextView::Abort
        } else {
            match listing_text_parts(text) {
                Err(e) => CopyNextView::Fail(e),
                Ok(listing) => at_listing(run, iso, planned, listing),
            }
        },
        (PhaseView::Copy { iso, disk: planned, created, index }, _) => at_part(
            run,
            iso,
            planned,
            created,
            index + 1,
        ),
        _ => CopyNextView::Abort,
    }
}

/// The partitions that are to be created next, if any are.
pub open spec fn planned_disk(next: CopyNextView) -> Seq<PartView> {
    match next {
        CopyNextView::Go(run, CopyActionView::Create { .. }) => match run.phase {
            PhaseView::Create { disk, .. } => disk,
            _ => Seq::empty(),
        },
        _ => Seq::empty(),
    }
}

/// Whether `created` are the partitions of the drive that were created for
/// `disk`.
pub open spec fn is_created_for(disk: Seq<PartView>, created: Seq<PartView>) -> bool {
    &&& created.len() == disk.len()
    &&& forall|i: int|
        0 <= i < disk.len() ==> (#[trigger] created[i]).part_uuid == disk[i].part_uuid
}

impl RunView {
    /// What holds of every run: there is a present image, what was planned is
    /// planned for its partitions, what was created was created from the plan,
    /// and the partition that is being copied fits where it goes.
    pub open spec fn wf(self) -> bool {
        &&& 0 <= self.image < self.names.len() <= usize::MAX
        &&& match self.phase {
            PhaseView::ListImage => true,
            PhaseView::Create { iso, disk } => is_disk_for(iso, disk) && numbers_distinct(iso),
            PhaseView::ListDevice { iso, disk } => is_disk_for(iso, disk) && numbers_distinct(iso),
            PhaseView::Copy { iso, disk, created, index } => {
                &&& is_disk_for(iso, disk)
                &&& numbers_distinct(iso)
                &&& is_created_for(disk, created)
                &&& 0 <= index < iso.len() <= usize::MAX
                &&& iso[index].size <= created[index].size
            },
        }
    }
}

/// Whether a run that goes on is in order.
pub open spec fn next_wf(next: CopyNextView) -> bool {
    next matches CopyNextView::Go(run, _) ==> run.wf()
}

/// Whether no two partitions have the same number.
fn check_numbers(parts: &Vec<Part>) -> (r: bool)
    ensures
        r == numbers_distinct(part_views(parts@)),
{
    let ghost views = part_views(parts@);
    for b in 0..parts.len()
        invariant
            views == part_views(parts@),
            forall|i: int, j: int|
                0 <= i < j < b ==> (#[trigger] views[i]).number != (#[trigger] views[j]).number,
    {
        for a in 0..b
            invariant
                b < parts@.len(),
                views == part_views(parts@),
                forall|i: int| 0 <= i < a ==> (#[trigger] views[i]).number != views[b as int].number,
        {
            if parts[a].number == parts[b].number {
                assert(views[a as int].number == views[b as int].number);
                return false;
            }
        }
    }
    true
}

/// New partitions for those of an image, each under an identifier of its own that
/// is not among those given.
fn plan_disk(iso_parts: &Vec<Part>, planned: &Vec<Uuid>) -> (r: Vec<Part>)
    ensures
        is_disk_for(part_views(iso_parts@), part_views(r@)),
        forall|i: int, j: int| 0 <= i < j < r@.len() ==> r@[i].part_uuid != r@[j].part_uuid,
        forall|i: int| 0 <= i < r@.len() ==> !planned@.contains((#[trigger] r@[i]).part_uuid),
{
    let mut disk_parts: Vec<Part> = Vec::new();
    let mut taken: Vec<Uuid> = copy_ids(planned);
    for i in 0..iso_parts.len()
        invariant
            disk_parts@.len() == i,
            taken@.len() == planned@.len() + i,
            forall|k: int| 0 <= k < planned@.len() ==> #[trigger] taken@[k] == planned@[k],
            forall|k: int|
                0 <= k < i ==> (#[trigger] disk_parts@[k])@ == disk_part(
                    iso_parts@[k]@,
                    disk_parts@[k].part_uuid,
                ) && is_random_uuid(disk_parts@[k].part_uuid),
            forall|k: int|
                0 <= k < i ==> (#[trigger] disk_parts@[k]).part_uuid == taken@[planned@.len() + k],
            forall|k: int|
                0 <= k < i ==> !planned@.contains((#[trigger] disk_parts@[k]).part_uuid),
            forall|j: int, k: int|
                0 <= j < k < i ==> disk_parts@[j].part_uuid != disk_parts@[k].part_uuid,
    {
        let mut part: Part = iso_part_to_disk(&iso_parts[i]);
        part.part_uuid = free_uuid(part.part_uuid, &taken);
        proof {
            assert forall|k: int| 0 <= k < i implies disk_parts@[k].part_uuid != part.part_uuid by {
                assert(taken@[planned@.len() + k] == disk_parts@[k].part_uuid);
            }
            if planned@.contains(part.part_uuid) {
                let k = choose|k: int| 0 <= k < planned@.len() && planned@[k] == part.part_uuid;
                assert(taken@[k] == part.part_uuid);
            }
        }
        taken.push(part.part_uuid);
        disk_parts.push(part);
    }
    disk_parts
}

fn copy_ids(ids: &Vec<Uuid>) -> (r: Vec<Uuid>)
    ensures
        r@ == ids@,
{
    let mut r: Vec<Uuid> = Vec::new();
    for i in 0..ids.len()
        invariant
            r@ == ids@.take(i as int),
    {
        r.push(ids[i]);
        assert(r@ =~= ids@.take(i + 1));
    }
    assert(r@ =~= ids@);
    r
}

/// Appends the identifiers of partitions.
fn push_ids(ids: &mut Vec<Uuid>, parts: &Vec<Part>)
    ensures
        final(ids)@ == old(ids)@ + part_ids(part_views(parts@)),
{
    let ghost before = ids@;
    let ghost added = part_ids(part_views(parts@));
    assert(ids@ =~= before + added.take(0));
    for i in 0..parts.len()
        invariant
            added == part_ids(part_views(parts@)),
            ids@ == before + added.take(i as int),
    {
        ids.push(parts[i].part_uuid);
        assert(ids@ =~= before + added.take(i + 1));
    }
    assert(added.take(parts@.len() as int) =~= added);
}

/// The position of the first partition with an identifier.
fn position_of(parts: &Vec<Part>, part_uuid: Uuid) -> (r: Option<usize>)
    ensures
        match r {
            Some(i) => i < parts@.len() && find_part(part_views(parts@), part_uuid) == Some(
                parts@[i as int]@,
            ),
            None => find_part(part_views(parts@), part_uuid) is None,
        },
{
    let ghost views = part_views(parts@);
    assert(views.skip(0) =~= views);
    for i in 0..parts.len()
        invariant
            views == part_views(parts@),
            find_part(views, part_uuid) == find_part(views.skip(i as int), part_uuid),
    {
        assert(views.skip(i as int)[0] == parts@[i as int]@);
        assert(views.skip(i as int).skip(1) =~= views.skip(i + 1));
        if parts[i].part_uuid == part_uuid {
            return Some(i);
        }
    }
    None
}

/// The partitions of a listing that were created for `disk_parts`, or the first
/// identifier that none of them has.
pub fn find_created(disk_parts: &Vec<Part>, listing: &Vec<Part>) -> (r: Result<Vec<Part>, Uuid>)
    ensures
        match r {
            Ok(created) => created_parts(part_views(disk_parts@), part_views(listing@)) == Ok::<
                Seq<PartView>,
                Uuid,
            >(part_views(created@)),
            Err(missing) => created_parts(part_views(disk_parts@), part_views(listing@)) == Err::<
                Seq<PartView>,
                Uuid,
            >(missing),
        },
{
    let ghost disk = part_views(disk_parts@);
    let ghost listed = part_views(listing@);
    let mut created: Vec<Part> = Vec::new();
    assert(part_views(created@) =~= Seq::empty());
    for i in 0..disk_parts.len()
        invariant
            disk == part_views(disk_parts@),
            listed == part_views(listing@),
            created_parts(disk.take(i as int), listed) == Ok::<Seq<PartView>, Uuid>(
                part_views(created@),
            ),
    {
        let ghost before = part_views(created@);
        proof {
            assert(disk.take(i + 1).drop_last() =~= disk.take(i as int));
            assert(disk.take(i + 1).last() == disk_parts@[i as int]@);
        }
        match position_of(listing, disk_parts[i].part_uuid) {
            None => {
                proof {
                    lemma_missing_stays(disk, listed, i + 1);
                }
                return Err(disk_parts[i].part_uuid);
            },
            Some(k) => {
                created.push(listing[k].clone());
                assert(part_views(created@) =~= before.push(listing@[k as int]@));
            },
        }
    }
    assert(disk.take(disk_parts@.len() as int) =~= disk);
    Ok(created)
}

/// What is missing for some partitions is missing for more of them.
proof fn lemma_missing_stays(disk: Seq<PartView>, listing: Seq<PartView>, n: int)
    requires
        0 <= n <= disk.len(),
        created_parts(disk.take(n), listing) is Err,
    ensures
        created_parts(disk, listing) == created_parts(disk.take(n), listing),
    decreases disk.len(),
{
    if n < disk.len() {
        assert(disk.drop_last().take(n) =~= disk.take(n));
        lemma_missing_stays(disk.drop_last(), listing, n);
    } else {
        assert(disk.take(n) =~= disk);
    }
}

/// What was created has the identifiers that were planned.
pub(crate) proof fn lemma_created(disk: Seq<PartView>, listing: Seq<PartView>)
    ensures
        created_parts(disk, listing) matches Ok(created) ==> is_created_for(disk, created),
    decreases disk.len(),
{
    if disk.len() > 0 {
        lemma_created(disk.drop_last(), listing);
        lemma_found(listing, disk.last().part_uuid);
    }
}

pub(crate) proof fn lemma_found(parts: Seq<PartView>, part_uuid: Uuid)
    ensures
        find_part(parts, part_uuid) matches Some(p) ==> p.part_uuid == part_uuid
            && parts.contains(p),
    decreases parts.len(),
{
    if parts.len() > 0 && parts[0].part_uuid != part_uuid {
        lemma_found(parts.skip(1), part_uuid);
        if let Some(p) = find_part(parts, part_uuid) {
            let k = choose|k: int| 0 <= k < parts.skip(1).len() && parts.skip(1)[k] == p;
            assert(parts[k + 1] == p);
        }
    }
}

/// Appends the entries of the menu for an image.
fn push_boot_entries(config: &mut String, name: &Option<String>, disk_parts: &Vec<Part>)
    ensures
        final(config)@ == old(config)@ + boot_entries(name_view(*name), part_views(disk_parts@)),
{
    let ghost before = config@;
    let ghost disk = part_views(disk_parts@);
    let ghost title = name_view(*name);
    let shown: String = match name {
        Some(text) => text.clone(),
        None => "ISO".to_owned(),
    };
    assert(config@ =~= before + boot_entries(title, disk.take(0)));
    for i in 0..disk_parts.len()
        invariant
            disk == part_views(disk_parts@),
            shown@ == display_name(title),
            config@ == before + boot_entries(title, disk.take(i as int)),
    {
        proof {
            assert(disk.take(i + 1).drop_last() =~= disk.take(i as int));
            assert(disk.take(i + 1).last() == disk_parts@[i as int]@);
        }
        if disk_parts[i].type_uuid.value == ESP_UUID {
            config.append(&write_menuentry(&shown, &disk_parts[i].part_uuid));
        }
        assert(config@ =~= before + boot_entries(title, disk.take(i + 1)));
    }
    assert(disk.take(disk_parts@.len() as int) =~= disk);
}

fn too_large_message(iso: &Part, created: &Part) -> (r: String)
    ensures
        r@ == too_large(iso@, created@),
{
    let mut m: String = "Partition ".to_owned();
    push_decimal(&mut m, iso.number as u64);
    m.append(" on ISO ");
    m.append(&iso.part_uuid.hyphenated());
    m.append(" is larger than destination partition ");
    m.append(&created.part_uuid.hyphenated());
    m
}

/// Begins a run that copies images, given by their file names.
pub fn copy_partitions(names: Vec<Option<String>>) -> (r: CopyNext)
    ensures
        next_wf(r@),
        r@ == at_image(
            names@.map_values(|n: Option<String>| name_view(n)),
            0,
            Seq::empty(),
            Seq::empty(),
        ),
{
    let config: String = String::new();
    let planned: Vec<Uuid> = Vec::new();
    go_to_image(names, 0, config, planned)
}

/// Goes on with the image at `image`, if there is one.
fn go_to_image(
    names: Vec<Option<String>>,
    image: usize,
    config: String,
    planned: Vec<Uuid>,
) -> (r: CopyNext)
    ensures
        next_wf(r@),
        r@ == at_image(
            names@.map_values(|n: Option<String>| name_view(n)),
            image as int,
            config@,
            planned@,
        ),
{
    if image < names.len() {
        CopyNext::Go(
            CopyRun { names, image, phase: CopyPhase::ListImage, config, planned },
            CopyAction::List(Root::Image(image)),
        )
    } else {
        let mut config: String = config;
        config.append("\ntimeout 30\nscanfor manual\n");
        CopyNext::Finish(config)
    }
}

/// Goes on with partition number `index` of an image, if there is one.
fn go_to_part(
    run: CopyRun,
    iso_parts: Vec<Part>,
    disk_parts: Vec<Part>,
    created: Vec<Part>,
    index: usize,
) -> (r: CopyNext)
    requires
        run@.image < run@.names.len(),
        is_disk_for(part_views(iso_parts@), part_views(disk_parts@)),
        numbers_distinct(part_views(iso_parts@)),
        is_created_for(part_views(disk_parts@), part_views(created@)),
    ensures
        next_wf(r@),
        r@ == at_part(
            run@,
            part_views(iso_parts@),
            part_views(disk_parts@),
            part_views(created@),
            index as int,
        ),
{
    let CopyRun { names, image, phase: _, mut config, mut planned } = run;
    let ghost name_views = names@.map_values(|n: Option<String>| name_view(n));
    let images: usize = names.len();
    assert(images == name_views.len());
    let parts: usize = iso_parts.len();
    assert(parts == part_views(iso_parts@).len());
    if index >= parts {
        assert(name_views[image as int] == name_view(names@[image as int]));
        push_boot_entries(&mut config, &names[image], &disk_parts);
        push_ids(&mut planned, &disk_parts);
        return go_to_image(names, image + 1, config, planned);
    }
    if iso_parts[index].size > created[index].size {
        return CopyNext::Fail(too_large_message(&iso_parts[index], &created[index]));
    }
    let command: CommandLine = dd_copy_data(
        Root::Image(image),
        Root::Device,
        iso_parts[index].start,
        created[index].start,
        iso_parts[index].size,
    );
    let from: u8 = iso_parts[index].number;
    let to: u8 = created[index].number;
    CopyNext::Go(
        CopyRun {
            names,
            image,
            phase: CopyPhase::Copy { iso_parts, disk_parts, created, index },
            config,
            planned,
        },
        CopyAction::Copy { command, from, to },
    )
}

impl CopyRun {
    /// Goes on when the partitions of the present image are known, with these
    /// partitions for them.
    pub fn image_listed(self, iso_parts: Vec<Part>, disk_parts: Vec<Part>) -> (r: CopyNext)
        requires
            self@.wf(),
            is_disk_for(part_views(iso_parts@), part_views(disk_parts@)),
        ensures
            next_wf(r@),
            r@ == at_parts(self@, part_views(iso_parts@), part_views(disk_parts@)),
    {
        if !check_numbers(&iso_parts) {
            return CopyNext::Abort;
        }
        let script: String = parts_to_sfd_script(&disk_parts);
        CopyNext::Go(
            CopyRun { phase: CopyPhase::Create { iso_parts, disk_parts }, ..self },
            CopyAction::Create { wipe: false, device: Root::Device, script },
        )
    }

    /// Goes on when the partitions of the drive are known, where those of the
    /// present image are `iso_parts` and `disk_parts` were created for them.
    pub fn device_listed(
        self,
        iso_parts: Vec<Part>,
        disk_parts: Vec<Part>,
        listing: &Vec<Part>,
    ) -> (r: CopyNext)
        requires
            self@.wf(),
            is_disk_for(part_views(iso_parts@), part_views(disk_parts@)),
            numbers_distinct(part_views(iso_parts@)),
        ensures
            next_wf(r@),
            r@ == at_listing(
                self@,
                part_views(iso_parts@),
                part_views(disk_parts@),
                part_views(listing@),
            ),
    {
        proof {
            lemma_created(part_views(disk_parts@), part_views(listing@));
        }
        match find_created(&disk_parts, listing) {
            Err(missing) => CopyNext::Fail(
                message(
                    "sfdisk did not create any partition with guid ",
                    &missing.hyphenated(),
                ),
            ),
            Ok(created) => go_to_part(self, iso_parts, disk_parts, created, 0),
        }
    }

    /// Goes on after an event. Partitions that are to be created get random
    /// identifiers, no two the same, and none that was planned for an image before.
    pub fn resume(self, event: CopyEvent) -> (r: CopyNext)
        requires
            self@.wf(),
            can_resume(self@.phase, event@),
        ensures
            next_wf(r@),
            r@ == copy_next(self@, event@, planned_disk(r@)),
            r@ matches CopyNextView::Go(
                RunView { phase: PhaseView::Create { disk, .. }, .. },
                CopyActionView::Create { .. },
            ) ==> (forall|i: int, j: int|
                0 <= i < j < disk.len() ==> disk[i].part_uuid != disk[j].part_uuid) && (forall|
                i: int,
            |
                0 <= i < disk.len() ==> !self@.planned.contains((#[trigger] disk[i]).part_uuid)),
    {
        let text: String = match event {
            CopyEvent::Failed(e) => {
                return CopyNext::Fail(e);
            },
            CopyEvent::Listed(text) => text,
            CopyEvent::Done => String::new(),
        };
        let CopyRun { names, image, phase, config, planned } = self;
        match phase {
            CopyPhase::ListImage => {
                let run = CopyRun { names, image, phase: CopyPhase::ListImage, config, planned };
                match checked_read_parted_json(&text) {
                    None => CopyNext::Abort,
                    Some(Err(e)) => CopyNext::Fail(e.to_owned()),
                    Some(Ok(iso_parts)) => {
                        let disk_parts: Vec<Part> = plan_disk(&iso_parts, &run.planned);
                        run.image_listed(iso_parts, disk_parts)
                    },
                }
            },
            CopyPhase::Create { iso_parts, disk_parts } => CopyNext::Go(
                CopyRun {
                    names,
                    image,
                    phase: CopyPhase::ListDevice { iso_parts, disk_parts },
                    config,
                    planned,
                },
                CopyAction::List(Root::Device),
            ),
            CopyPhase::ListDevice { iso_parts, disk_parts } => {
                match checked_read_parted_json(&text) {
                    None => CopyNext::Abort,
                    Some(Err(e)) => CopyNext::Fail(e.to_owned()),
                    Some(Ok(listing)) => {
                        let run = CopyRun { names, image, phase: CopyPhase::ListImage, config, planned };
                        run.device_listed(iso_parts, disk_parts, &listing)
                    },
                }
            },
            CopyPhase::Copy { iso_parts, disk_parts, created, index } => {
                let run = CopyRun { names, image, phase: CopyPhase::ListImage, config, planned };
                go_to_part(run, iso_parts, disk_parts, created, index + 1)
            },
        }
    }
}

} // verus!
