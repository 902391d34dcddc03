//! What a run that copies images does to the drive and tells the user, said of the
//! bytes that are copied and of the identifiers of partitions.

use crate::command::{CommandView, Root};
use crate::command_laws::{copies_bytes, law_copy_command};
use crate::copy::{
    announcement_of, at_image, boot_entries, can_resume, copy_next, created_parts, find_part,
    lemma_created, part_ids, CopyActionView, CopyEventView, CopyNextView, PhaseView, RunView,
};
use crate::copy_laws::{
    all_copies, holds_image, holds_images, image_copies, images_copied, is_course, law_created_parts,
    law_finished_run, record, trace, with_listing, with_text, Trace,
};
use crate::guid::{uuid_text, Uuid};
use crate::layout::{menu_entry, sfd_script};
use crate::part::PartView;
use crate::parted::{listing_text_has_units, listing_text_parts};
use crate::text::decimal;
use vstd::prelude::*;

verus! {

// One step.

/// Every copy reads the whole of a partition of the present image, from where it
/// lies, and writes it to where the partition that was created for it lies: inside
/// that partition, since it is no larger.
pub proof fn law_copied_ranges(run: RunView, event: CopyEventView, plan: Seq<PartView>)
    requires
        run.wf(),
    ensures
        copy_next(run, event, plan) matches CopyNextView::Go(
            next,
            CopyActionView::Copy { command, from, to },
        ) ==> {
            &&& next.phase matches PhaseView::Copy { iso, disk, created, index }
            &&& 0 <= index < iso.len()
            &&& copies_bytes(
                command,
                Root::Image(next.image as usize),
                iso[index].start as int,
                Root::Device,
                created[index].start as int,
                iso[index].size as int,
            )
            &&& created[index].start + iso[index].size <= created[index].start + created[index].size
            &&& created[index].part_uuid == disk[index].part_uuid
            &&& from == iso[index].number
            &&& to == created[index].number
        },
{
    if let PhaseView::ListDevice { iso, disk } = run.phase {
        if let CopyEventView::Listed(text) = event {
            if let Ok(listing) = listing_text_parts(text) {
                lemma_created(disk, listing);
            }
        }
    }
    if let CopyNextView::Go(next, CopyActionView::Copy { .. }) = copy_next(run, event, plan) {
        if let PhaseView::Copy { iso, disk, created, index } = next.phase {
            law_copy_command(
                Root::Image(next.image as usize),
                Root::Device,
                iso[index].start,
                created[index].start,
                iso[index].size,
            );
        }
    }
}

/// A run begins by listing the first image, and ends at once, with an empty menu,
/// where there is none.
pub proof fn law_run_begins(names: Seq<Option<Seq<char>>>)
    ensures
        names.len() > 0 ==> (at_image(names, 0, Seq::empty(), Seq::empty()) matches CopyNextView::Go(
            run,
            CopyActionView::List(Root::Image(0)),
        ) && run.names == names && run.image == 0 && run.phase is ListImage && run.config.len() == 0
            && run.planned.len() == 0),
        names.len() == 0 ==> at_image(names, 0, Seq::empty(), Seq::empty()) == CopyNextView::Finish(
            "\ntimeout 30\nscanfor manual\n"@,
        ),
{
    let end = "\ntimeout 30\nscanfor manual\n"@;
    assert(Seq::<char>::empty() + end =~= end);
}

/// What fails ends a run with its message, wherever the run stands.
pub proof fn law_failures_end_a_run(run: RunView, e: Seq<char>, plan: Seq<PartView>)
    ensures
        copy_next(run, CopyEventView::Failed(e), plan) == CopyNextView::Fail(e),
{
}

/// Whether two partitions have the same number.
pub open spec fn share_a_number(parts: Seq<PartView>) -> bool {
    exists|a: int, b: int|
        0 <= a < b < parts.len() && (#[trigger] parts[a]).number == (#[trigger] parts[b]).number
}

/// The listing of an image is not worked with exactly if a quantity in it lacks a
/// unit, or two of its partitions share a number. A run fails with what is wrong
/// with it where it cannot be read, and otherwise has the partitions of the plan
/// added to the drive.
pub proof fn law_image_is_planned(run: RunView, text: Seq<char>, plan: Seq<PartView>)
    requires
        run.phase is ListImage,
    ensures
        copy_next(run, CopyEventView::Listed(text), plan) == CopyNextView::Abort <==> (
        !listing_text_has_units(text) || (listing_text_parts(text) matches Ok(iso) && share_a_number(
            iso,
        ))),
        listing_text_has_units(text) ==> match listing_text_parts(text) {
            Err(e) => copy_next(run, CopyEventView::Listed(text), plan) == CopyNextView::Fail(e),
            Ok(iso) => !share_a_number(iso) ==> (copy_next(
                run,
                CopyEventView::Listed(text),
                plan,
            ) matches CopyNextView::Go(next, CopyActionView::Create { wipe, device, script }) && !wipe
                && device == Root::Device && script == sfd_script(plan) && next.phase
                == (PhaseView::Create { iso, disk: plan }) && next.image == run.image && next.names
                == run.names && next.config == run.config),
        },
{
    if let Ok(iso) = listing_text_parts(text) {
        if share_a_number(iso) {
            let (a, b) = choose|a: int, b: int|
                0 <= a < b < iso.len() && (#[trigger] iso[a]).number == (#[trigger] iso[b]).number;
            assert(iso[a].number == iso[b].number);
        }
    }
}

/// When partitions were created, the drive is listed.
pub proof fn law_drive_is_listed(run: RunView, plan: Seq<PartView>)
    requires
        run.phase is Create,
    ensures
        copy_next(run, CopyEventView::Done, plan) matches CopyNextView::Go(
            next,
            CopyActionView::List(Root::Device),
        ) && (run.phase matches PhaseView::Create { iso, disk } && next.phase
            == (PhaseView::ListDevice { iso, disk })) && next.image == run.image && next.names
            == run.names && next.config == run.config,
{
}

/// Where the drive has no partition under some identifier of the plan, the run
/// fails and names such an identifier.
pub proof fn law_missing_partition(
    run: RunView,
    text: Seq<char>,
    plan: Seq<PartView>,
    iso: Seq<PartView>,
    disk: Seq<PartView>,
    listing: Seq<PartView>,
    i: int,
)
    requires
        run.phase == (PhaseView::ListDevice { iso, disk }),
        listing_text_has_units(text),
        listing_text_parts(text) == Ok::<Seq<PartView>, Seq<char>>(listing),
        0 <= i < disk.len(),
        !is_on(disk[i].part_uuid, listing),
    ensures
        exists|missing: Uuid|
            !(#[trigger] is_on(missing, listing)) && is_on(missing, disk) && copy_next(
                run,
                CopyEventView::Listed(text),
                plan,
            ) == CopyNextView::Fail(
                "sfdisk did not create any partition with guid "@ + uuid_text(missing),
            ),
{
    law_created_parts(disk, listing);
    lemma_is_on(disk);
    lemma_is_on(listing);
    assert(!crate::copy_laws::has_part(listing, disk[i].part_uuid));
    let missing = created_parts(disk, listing)->Err_0;
    assert(crate::copy_laws::has_part(disk, missing));
    assert(!is_on(missing, listing));
}

/// Whether some partition has an identifier.
pub open spec fn is_on(part_uuid: Uuid, parts: Seq<PartView>) -> bool {
    exists|i: int| 0 <= i < parts.len() && (#[trigger] parts[i]).part_uuid == part_uuid
}

proof fn lemma_is_on(parts: Seq<PartView>)
    ensures
        forall|u: Uuid| #[trigger] crate::copy_laws::has_part(parts, u) <==> is_on(u, parts),
{
}

/// What is said of a partition of an image that is larger than the one that was
/// created for it.
pub open spec fn says_too_large(next: CopyNextView, iso: PartView, created: PartView) -> bool {
    next == CopyNextView::Fail(
        "Partition "@ + decimal(iso.number as nat) + " on ISO "@ + uuid_text(iso.part_uuid)
            + " is larger than destination partition "@ + uuid_text(created.part_uuid),
    )
}

/// A partition of the image that is larger than the one that was created for it is
/// not copied: the run fails and names both, when it comes to that partition.
/// Where it is not larger, it is copied next.
pub proof fn law_next_partition(
    run: RunView,
    plan: Seq<PartView>,
    iso: Seq<PartView>,
    disk: Seq<PartView>,
    created: Seq<PartView>,
    index: int,
)
    requires
        run.phase == (PhaseView::Copy { iso, disk, created, index }),
        0 <= index,
        index + 1 < iso.len(),
    ensures
        iso[index + 1].size > created[index + 1].size ==> says_too_large(
            copy_next(run, CopyEventView::Done, plan),
            iso[index + 1],
            created[index + 1],
        ),
        iso[index + 1].size <= created[index + 1].size ==> (copy_next(
            run,
            CopyEventView::Done,
            plan,
        ) matches CopyNextView::Go(next, CopyActionView::Copy { from, to, .. }) && next.phase
            == (PhaseView::Copy { iso, disk, created, index: index + 1 }) && from == iso[index
            + 1].number && to == created[index + 1].number),
{
}

/// When the drive was listed, the first partition of the image is copied to the one
/// that was created for it, unless it is larger than that one.
pub proof fn law_first_copy(
    run: RunView,
    text: Seq<char>,
    plan: Seq<PartView>,
    iso: Seq<PartView>,
    disk: Seq<PartView>,
    listing: Seq<PartView>,
)
    requires
        run.phase == (PhaseView::ListDevice { iso, disk }),
        listing_text_has_units(text),
        listing_text_parts(text) == Ok::<Seq<PartView>, Seq<char>>(listing),
        created_parts(disk, listing) is Ok,
        iso.len() > 0,
    ensures
        ({
            let created = created_parts(disk, listing)->Ok_0;
            let next = copy_next(run, CopyEventView::Listed(text), plan);
            &&& iso[0].size > created[0].size ==> says_too_large(next, iso[0], created[0])
            &&& iso[0].size <= created[0].size ==> (next matches CopyNextView::Go(
                after,
                CopyActionView::Copy { from, to, .. },
            ) && after.phase == (PhaseView::Copy { iso, disk, created, index: 0 }) && from
                == iso[0].number && to == created[0].number)
        }),
{
}

/// The listing of the drive is not worked with exactly if a quantity in it lacks a
/// unit, and a run fails with what is wrong with it where it cannot be read.
pub proof fn law_drive_listing(run: RunView, text: Seq<char>, plan: Seq<PartView>)
    requires
        run.phase is ListDevice,
        run.wf(),
    ensures
        copy_next(run, CopyEventView::Listed(text), plan) == CopyNextView::Abort
            <==> !listing_text_has_units(text),
        listing_text_has_units(text) ==> (listing_text_parts(text) matches Err(e) ==> copy_next(
            run,
            CopyEventView::Listed(text),
            plan,
        ) == CopyNextView::Fail(e)),
{
}

/// Behind the last partition of an image comes the next image, or the end of the
/// run, with the entries of the menu for the image behind those before.
pub proof fn law_next_image(
    run: RunView,
    plan: Seq<PartView>,
    iso: Seq<PartView>,
    disk: Seq<PartView>,
    created: Seq<PartView>,
    index: int,
)
    requires
        run.phase == (PhaseView::Copy { iso, disk, created, index }),
        index + 1 == iso.len(),
        0 <= run.image < run.names.len() <= usize::MAX,
    ensures
        run.image + 1 < run.names.len() ==> (copy_next(
            run,
            CopyEventView::Done,
            plan,
        ) matches CopyNextView::Go(next, CopyActionView::List(Root::Image(k))) && k == run.image + 1
            && next.image == run.image + 1 && next.names == run.names && next.phase is ListImage
            && next.config == run.config + boot_entries(run.names[run.image], disk)),
        run.image + 1 == run.names.len() ==> copy_next(run, CopyEventView::Done, plan)
            == CopyNextView::Finish(
            run.config + boot_entries(run.names[run.image], disk) + "\ntimeout 30\nscanfor manual\n"@,
        ),
{
}

/// The partition with an identifier is the first one that has it.
pub proof fn law_first_partition(parts: Seq<PartView>, part_uuid: Uuid, i: int)
    requires
        0 <= i < parts.len(),
        parts[i].part_uuid == part_uuid,
        forall|j: int| 0 <= j < i ==> (#[trigger] parts[j]).part_uuid != part_uuid,
    ensures
        find_part(parts, part_uuid) == Some(parts[i]),
    decreases parts.len(),
{
    if i > 0 {
        let rest = parts.skip(1);
        assert(parts[0].part_uuid != part_uuid);
        assert forall|j: int| 0 <= j < i - 1 implies (#[trigger] rest[j]).part_uuid != part_uuid by {
            assert(rest[j] == parts[j + 1]);
        }
        law_first_partition(rest, part_uuid, i - 1);
    }
}

/// What was created for a plan is found one by one, each as the first partition of
/// the drive that has the identifier.
pub proof fn law_created_are_found(disk: Seq<PartView>, listing: Seq<PartView>, i: int)
    requires
        created_parts(disk, listing) is Ok,
        0 <= i < disk.len(),
    ensures
        created_parts(disk, listing)->Ok_0.len() == disk.len(),
        find_part(listing, disk[i].part_uuid) == Some(created_parts(disk, listing)->Ok_0[i]),
    decreases disk.len(),
{
    lemma_created(disk, listing);
    lemma_created(disk.drop_last(), listing);
    if i < disk.len() - 1 {
        law_created_are_found(disk.drop_last(), listing, i);
        assert(disk.drop_last()[i] == disk[i]);
    }
}

// The menu.

/// The menu for an image has an entry for each EFI system partition, in order, and
/// none for another. An entry shows the file name of the image, or `ISO` where it
/// has none.
pub proof fn law_menu_of_an_image(name: Option<Seq<char>>, disk: Seq<PartView>, p: PartView)
    ensures
        boot_entries(name, Seq::empty()).len() == 0,
        p.type_uuid.value != 0xC12A7328_F81F_11D2_BA4B_00A0C93EC93B ==> boot_entries(
            name,
            disk.push(p),
        ) == boot_entries(name, disk),
        p.type_uuid.value == 0xC12A7328_F81F_11D2_BA4B_00A0C93EC93B ==> boot_entries(
            name,
            disk.push(p),
        ) == boot_entries(name, disk) + menu_entry(
            match name {
                Some(text) => text,
                None => "ISO"@,
            },
            p.part_uuid,
        ),
{
    assert(disk.push(p).drop_last() =~= disk);
    assert(boot_entries(name, disk) + Seq::<char>::empty() =~= boot_entries(name, disk));
}

/// The user is told when partitions are created, and of each copy which partition
/// of which image goes to which of the drive.
pub proof fn law_announcements(
    image: Seq<char>,
    root: Root,
    wipe: bool,
    script: Seq<char>,
    command: CommandView,
    from: u8,
    to: u8,
)
    ensures
        announcement_of(CopyActionView::List(root), image) is None,
        announcement_of(CopyActionView::Create { wipe, device: root, script }, image) == Some(
            "Creating partitions on destination device"@,
        ),
        announcement_of(CopyActionView::Copy { command, from, to }, image) == Some(
            "Copying ISO "@ + image + " partition "@ + decimal(from as nat)
                + " to device partition "@ + decimal(to as nat),
        ),
{
}

// Whole runs.

proof fn lemma_image_copies(image: int, iso: Seq<PartView>, created: Seq<PartView>, i: int)
    requires
        0 <= i < iso.len(),
    ensures
        copies_bytes(
            image_copies(image, iso, created, iso.len() as int)[i],
            Root::Image(image as usize),
            iso[i].start as int,
            Root::Device,
            created[i].start as int,
            iso[i].size as int,
        ),
{
    law_copy_command(
        Root::Image(image as usize),
        Root::Device,
        iso[i].start,
        created[i].start,
        iso[i].size,
    );
}

/// Whether a command copies a partition of the image at `k` to a place on the
/// drive.
pub open spec fn copies_part(command: CommandView, k: int, iso: PartView, created: PartView) -> bool {
    copies_bytes(
        command,
        Root::Image(k as usize),
        iso.start as int,
        Root::Device,
        created.start as int,
        iso.size as int,
    )
}

proof fn lemma_has_copy(
    isos: Seq<Seq<PartView>>,
    createds: Seq<Seq<PartView>>,
    k: int,
    i: int,
)
    requires
        isos.len() == createds.len(),
        0 <= k < isos.len(),
        0 <= i < isos[k].len(),
    ensures
        exists|c: int|
            0 <= c < all_copies(isos, createds).len() && copies_part(
                #[trigger] all_copies(isos, createds)[c],
                k,
                isos[k][i],
                createds[k][i],
            ),
    decreases isos.len(),
{
    let n = isos.len() - 1;
    let before = all_copies(isos.drop_last(), createds.drop_last());
    let last = image_copies(n, isos.last(), createds.last(), isos.last().len() as int);
    let all = all_copies(isos, createds);
    assert(all == before + last);
    if k == n {
        lemma_image_copies(n, isos[k], createds[k], i);
        assert(all[before.len() + i] == last[i]);
        assert(copies_part(all[before.len() + i], k, isos[k][i], createds[k][i]));
    } else {
        lemma_has_copy(isos.drop_last(), createds.drop_last(), k, i);
        let c = choose|c: int|
            0 <= c < before.len() && copies_part(
                #[trigger] before[c],
                k,
                isos.drop_last()[k][i],
                createds.drop_last()[k][i],
            );
        assert(all[c] == before[c]);
    }
}

proof fn lemma_is_copy(
    isos: Seq<Seq<PartView>>,
    createds: Seq<Seq<PartView>>,
    c: int,
) -> (r: (int, int))
    requires
        isos.len() == createds.len(),
        0 <= c < all_copies(isos, createds).len(),
    ensures
        0 <= r.0 < isos.len(),
        0 <= r.1 < isos[r.0].len(),
        copies_part(all_copies(isos, createds)[c], r.0, isos[r.0][r.1], createds[r.0][r.1]),
    decreases isos.len(),
{
    let n = isos.len() - 1;
    let before = all_copies(isos.drop_last(), createds.drop_last());
    let last = image_copies(n, isos.last(), createds.last(), isos.last().len() as int);
    let all = all_copies(isos, createds);
    assert(all == before + last);
    if c < before.len() {
        let r = lemma_is_copy(isos.drop_last(), createds.drop_last(), c);
        assert(all[c] == before[c]);
        r
    } else {
        let i = c - before.len();
        lemma_image_copies(n, isos[n], createds[n], i);
        assert(all[c] == last[i]);
        (n, i)
    }
}

/// The partitions of the drive that were created for the images of a run, as they
/// were listed.
pub open spec fn created_for(t: Trace, k: int) -> Seq<PartView> {
    created_parts(t.disks[k], t.listings[k])->Ok_0
}

proof fn lemma_createds(t: Trace) -> (createds: Seq<Seq<PartView>>)
    requires
        images_copied(t.isos, t.disks, t.listings, t.copies),
    ensures
        holds_images(t.isos, t.disks, t.listings, createds),
        t.copies == all_copies(t.isos, createds),
        forall|k: int|
            0 <= k < t.isos.len() ==> #[trigger] created_for(t, k) == createds[k] && created_parts(
                t.disks[k],
                t.listings[k],
            ) is Ok && holds_image(t.isos[k], t.disks[k], t.listings[k], createds[k]),
{
    let createds = choose|createds: Seq<Seq<PartView>>| #[trigger]
        holds_images(t.isos, t.disks, t.listings, createds) && t.copies == all_copies(
            t.isos,
            createds,
        );
    assert forall|k: int| 0 <= k < t.isos.len() implies #[trigger] created_for(t, k) == createds[k]
        && created_parts(t.disks[k], t.listings[k]) is Ok && holds_image(
        t.isos[k],
        t.disks[k],
        t.listings[k],
        createds[k],
    ) by {
        assert(holds_image(t.isos[k], t.disks[k], t.listings[k], createds[k]));
    }
    createds
}

/// Where a run finishes, every partition of every image was copied: the bytes of
/// it, from where it lies in the image to where the partition that was created for
/// it lies on the drive, and no further than that one reaches.
pub proof fn law_finished_run_copies_every_partition(
    names: Seq<Option<Seq<char>>>,
    steps: Seq<(CopyEventView, Seq<PartView>)>,
    k: int,
    i: int,
)
    requires
        names.len() <= usize::MAX,
        is_course(names, steps),
        trace(names, steps).next is Finish,
        0 <= k < names.len(),
        0 <= i < trace(names, steps).isos[k].len(),
    ensures
        ({
            let t = trace(names, steps);
            &&& created_for(t, k).len() == t.isos[k].len()
            &&& t.isos[k][i].size <= created_for(t, k)[i].size
            &&& exists|c: int|
                0 <= c < t.copies.len() && copies_bytes(
                    #[trigger] t.copies[c],
                    Root::Image(k as usize),
                    t.isos[k][i].start as int,
                    Root::Device,
                    created_for(t, k)[i].start as int,
                    t.isos[k][i].size as int,
                )
        }),
{
    let t = trace(names, steps);
    law_finished_run(names, steps);
    let createds = lemma_createds(t);
    assert(created_for(t, k) == createds[k]);
    lemma_has_copy(t.isos, createds, k, i);
    let c = choose|c: int|
        0 <= c < all_copies(t.isos, createds).len() && copies_part(
            #[trigger] all_copies(t.isos, createds)[c],
            k,
            t.isos[k][i],
            createds[k][i],
        );
    assert(copies_part(t.copies[c], k, t.isos[k][i], createds[k][i]));
}

/// Where a run finishes, nothing was copied but partitions of images to those that
/// were created for them.
pub proof fn law_finished_run_copies_nothing_else(
    names: Seq<Option<Seq<char>>>,
    steps: Seq<(CopyEventView, Seq<PartView>)>,
    c: int,
)
    requires
        names.len() <= usize::MAX,
        is_course(names, steps),
        trace(names, steps).next is Finish,
        0 <= c < trace(names, steps).copies.len(),
    ensures
        ({
            let t = trace(names, steps);
            exists|k: int, i: int|
                0 <= k < names.len() && 0 <= i < t.isos[k].len() && copies_bytes(
                    t.copies[c],
                    Root::Image(k as usize),
                    (#[trigger] t.isos[k][i]).start as int,
                    Root::Device,
                    created_for(t, k)[i].start as int,
                    t.isos[k][i].size as int,
                )
        }),
{
    let t = trace(names, steps);
    law_finished_run(names, steps);
    let createds = lemma_createds(t);
    let (k, i) = lemma_is_copy(t.isos, createds, c);
    assert(created_for(t, k) == createds[k]);
    assert(copies_part(t.copies[c], k, t.isos[k][i], createds[k][i]));
}

/// Where a run finishes, no two partitions of an image were copied to the same
/// partition of the drive: those that were created for them have different
/// identifiers, which are the identifiers that were planned for them.
pub proof fn law_partitions_of_an_image_are_kept_apart(
    names: Seq<Option<Seq<char>>>,
    steps: Seq<(CopyEventView, Seq<PartView>)>,
    k: int,
    i: int,
    j: int,
)
    requires
        names.len() <= usize::MAX,
        is_course(names, steps),
        trace(names, steps).next is Finish,
        0 <= k < names.len(),
        0 <= i < j < trace(names, steps).isos[k].len(),
    ensures
        ({
            let t = trace(names, steps);
            &&& t.disks[k].len() == t.isos[k].len()
            &&& t.disks[k][i].part_uuid != t.disks[k][j].part_uuid
            &&& created_for(t, k)[i].part_uuid == t.disks[k][i].part_uuid
            &&& created_for(t, k)[j].part_uuid == t.disks[k][j].part_uuid
            &&& created_for(t, k)[i] != created_for(t, k)[j]
        }),
{
    let t = trace(names, steps);
    law_finished_run(names, steps);
    let createds = lemma_createds(t);
    assert(created_for(t, k) == createds[k]);
    assert(holds_image(t.isos[k], t.disks[k], t.listings[k], createds[k]));
}

/// Whether each plan of a course has identifiers that were not planned for an image
/// before, as those that `CopyRun::resume` makes.
pub open spec fn plans_anew(
    names: Seq<Option<Seq<char>>>,
    steps: Seq<(CopyEventView, Seq<PartView>)>,
) -> bool
    decreases steps.len(),
{
    steps.len() > 0 ==> {
        &&& plans_anew(names, steps.drop_last())
        &&& trace(names, steps.drop_last()).next matches CopyNextView::Go(run, _) ==> (copy_next(
            run,
            steps.last().0,
            steps.last().1,
        ) matches CopyNextView::Go(_, CopyActionView::Create { .. }) ==> forall|i: int|
            0 <= i < steps.last().1.len() ==> !run.planned.contains(
                (#[trigger] steps.last().1[i]).part_uuid,
            ))
    }
}

/// Whether no two plans share an identifier.
pub open spec fn plans_differ(disks: Seq<Seq<PartView>>) -> bool {
    forall|k: int, l: int, i: int, j: int|
        0 <= k < l < disks.len() && 0 <= i < disks[k].len() && 0 <= j < disks[l].len() ==> (
        #[trigger] disks[k][i]).part_uuid != (#[trigger] disks[l][j]).part_uuid
}

/// Whether the identifiers of all plans are among those given.
spec fn covers(planned: Seq<Uuid>, disks: Seq<Seq<PartView>>) -> bool {
    forall|k: int, i: int|
        0 <= k < disks.len() && 0 <= i < disks[k].len() ==> planned.contains(
            (#[trigger] disks[k][i]).part_uuid,
        )
}

spec fn present_plan(phase: PhaseView) -> Option<Seq<PartView>> {
    match phase {
        PhaseView::ListImage => None,
        PhaseView::Create { disk, .. } => Some(disk),
        PhaseView::ListDevice { disk, .. } => Some(disk),
        PhaseView::Copy { disk, .. } => Some(disk),
    }
}

spec fn apart_so_far(t: Trace) -> bool {
    &&& plans_differ(t.disks)
    &&& t.next matches CopyNextView::Go(run, _) ==> match present_plan(run.phase) {
        None => covers(run.planned, t.disks),
        Some(disk) => t.disks.len() > 0 && t.disks.last() == disk && covers(
            run.planned,
            t.disks.drop_last(),
        ),
    }
}

proof fn lemma_covers_more(planned: Seq<Uuid>, disks: Seq<Seq<PartView>>)
    requires
        disks.len() > 0,
        covers(planned, disks.drop_last()),
    ensures
        covers(planned + part_ids(disks.last()), disks),
{
    let more = planned + part_ids(disks.last());
    assert forall|k: int, i: int|
        0 <= k < disks.len() && 0 <= i < disks[k].len() implies more.contains(
        (#[trigger] disks[k][i]).part_uuid,
    ) by {
        let u = disks[k][i].part_uuid;
        if k < disks.len() - 1 {
            assert(disks.drop_last()[k][i] == disks[k][i]);
            let n = choose|n: int| 0 <= n < planned.len() && planned[n] == u;
            assert(more[n] == u);
        } else {
            assert(more[planned.len() + i] == u);
        }
    }
}

#[verifier::spinoff_prover]
proof fn lemma_apart_step(
    t: Trace,
    run: RunView,
    action: CopyActionView,
    event: CopyEventView,
    plan: Seq<PartView>,
)
    requires
        apart_so_far(t),
        t.next == CopyNextView::Go(run, action),
        can_resume(run.phase, event),
        copy_next(run, event, plan) matches CopyNextView::Go(_, CopyActionView::Create { .. })
            ==> forall|i: int|
            0 <= i < plan.len() ==> !run.planned.contains((#[trigger] plan[i]).part_uuid),
    ensures
        apart_so_far(
            record(
                with_text(t.texts, run.phase, event),
                t.isos,
                t.disks,
                with_listing(t.listings, run.phase, event),
                t.copies,
                copy_next(run, event, plan),
            ),
        ),
{
    match run.phase {
        PhaseView::ListImage => {
            if let CopyNextView::Go(_, CopyActionView::Create { .. }) = copy_next(run, event, plan) {
                let disks = t.disks.push(plan);
                assert(disks.drop_last() =~= t.disks);
                assert forall|k: int, l: int, i: int, j: int|
                    0 <= k < l < disks.len() && 0 <= i < disks[k].len() && 0 <= j
                        < disks[l].len() implies (#[trigger] disks[k][i]).part_uuid != (
                #[trigger] disks[l][j]).part_uuid by {
                    if l == t.disks.len() {
                        assert(run.planned.contains(t.disks[k][i].part_uuid));
                        assert(!run.planned.contains(plan[j].part_uuid));
                    } else {
                        assert(t.disks[k][i].part_uuid != t.disks[l][j].part_uuid);
                    }
                }
            }
        },
        _ => {
            lemma_covers_more(run.planned, t.disks);
        },
    }
}

proof fn lemma_apart(
    names: Seq<Option<Seq<char>>>,
    steps: Seq<(CopyEventView, Seq<PartView>)>,
)
    requires
        is_course(names, steps),
        plans_anew(names, steps),
    ensures
        apart_so_far(trace(names, steps)),
    decreases steps.len(),
{
    if steps.len() > 0 {
        lemma_apart(names, steps.drop_last());
        let t = trace(names, steps.drop_last());
        if let CopyNextView::Go(run, action) = t.next {
            lemma_apart_step(t, run, action, steps.last().0, steps.last().1);
        }
    }
}

/// Where each plan of a run has identifiers that were not planned before in it, no
/// two partitions of different images are copied to partitions of the drive with
/// the same identifier.
pub proof fn law_images_are_kept_apart(
    names: Seq<Option<Seq<char>>>,
    steps: Seq<(CopyEventView, Seq<PartView>)>,
    k: int,
    l: int,
    i: int,
    j: int,
)
    requires
        names.len() <= usize::MAX,
        is_course(names, steps),
        plans_anew(names, steps),
        trace(names, steps).next is Finish,
        0 <= k < l < names.len(),
        0 <= i < trace(names, steps).isos[k].len(),
        0 <= j < trace(names, steps).isos[l].len(),
    ensures
        created_for(trace(names, steps), k)[i].part_uuid != created_for(
            trace(names, steps),
            l,
        )[j].part_uuid,
{
    let t = trace(names, steps);
    law_finished_run(names, steps);
    lemma_apart(names, steps);
    let createds = lemma_createds(t);
    assert(created_for(t, k) == createds[k]);
    assert(created_for(t, l) == createds[l]);
    assert(holds_image(t.isos[k], t.disks[k], t.listings[k], createds[k]));
    assert(holds_image(t.isos[l], t.disks[l], t.listings[l], createds[l]));
    assert(t.disks[k][i].part_uuid != t.disks[l][j].part_uuid);
}

} // verus!
