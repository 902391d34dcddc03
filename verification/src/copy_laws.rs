//! What holds of every run that copies images.

use crate::command::{dd_line, CommandView, Root};
use crate::copy::{
    at_image, at_part, boot_entries, can_resume, copy_next, created_parts, display_name, find_part,
    is_created_for, is_disk_for, lemma_created, lemma_found, menu_end, next_wf, CopyActionView,
    CopyEventView, CopyNextView, PhaseView, RunView,
};
use crate::guid::Uuid;
use crate::layout::{
    disk_part, disk_type, law_partition_is_large_enough, menu_entry, sfd_script, size_in_mib, MIB,
};
use crate::part::{PartView, ESP_UUID};
use crate::parted::{listing_text_has_units, listing_text_parts};
use vstd::prelude::*;

verus! {

/// Whether `next` copies the whole of a partition of the present image, from
/// where it lies to where the partition that was created for it lies, and that
/// one is large enough.
pub open spec fn copies_what_fits(next: CopyNextView) -> bool {
    next matches CopyNextView::Go(run, CopyActionView::Copy { command, from, to }) ==> {
        &&& run.phase matches PhaseView::Copy { iso, disk, created, index }
        &&& 0 <= index < iso.len()
        &&& created[index].part_uuid == disk[index].part_uuid
        &&& disk[index] == disk_part(iso[index], disk[index].part_uuid)
        &&& iso[index].size <= created[index].size
        &&& from == iso[index].number
        &&& to == created[index].number
        &&& command == dd_line(
            Root::Image(run.image as usize),
            Root::Device,
            iso[index].start,
            created[index].start,
            iso[index].size,
        )
    }
}

/// Nothing is ever copied but a partition of the present image to the partition
/// that was created for it, and only if it fits.
pub proof fn law_copies_fit(run: RunView, event: CopyEventView, disk: Seq<PartView>)
    requires
        run.wf(),
    ensures
        copies_what_fits(copy_next(run, event, disk)),
{
    match (run.phase, event) {
        (PhaseView::ListDevice { iso, disk: planned }, CopyEventView::Listed(text)) => {
            if let Ok(listing) = listing_text_parts(text) {
                lemma_created(planned, listing);
            }
        },
        _ => {},
    }
}

/// Copying images never wipes the drive: partitions are only ever added to it.
pub proof fn law_copying_never_wipes(run: RunView, event: CopyEventView, disk: Seq<PartView>)
    ensures
        copy_next(run, event, disk) matches CopyNextView::Go(
            _,
            CopyActionView::Create { wipe, device, script },
        ) ==> !wipe && device == Root::Device && script == sfd_script(disk),
{
}

/// How a run goes on when the next `n` copies succeed.
pub open spec fn after_copies(next: CopyNextView, n: nat) -> CopyNextView
    decreases n,
{
    if n == 0 {
        next
    } else {
        match after_copies(next, (n - 1) as nat) {
            CopyNextView::Go(run, _) => copy_next(run, CopyEventView::Done, Seq::empty()),
            stopped => stopped,
        }
    }
}

/// Where every partition of an image fits, the run goes on to the next image
/// after as many copies as the image has partitions, and to the next partition
/// after each copy before.
pub proof fn law_every_partition_is_copied(
    run: RunView,
    iso: Seq<PartView>,
    disk: Seq<PartView>,
    created: Seq<PartView>,
    k: nat,
)
    requires
        k <= iso.len(),
        forall|i: int| 0 <= i < iso.len() ==> (#[trigger] iso[i]).size <= created[i].size,
    ensures
        after_copies(at_part(run, iso, disk, created, 0), k) == at_part(
            run,
            iso,
            disk,
            created,
            k as int,
        ),
    decreases k,
{
    if k > 0 {
        law_every_partition_is_copied(run, iso, disk, created, (k - 1) as nat);
        assert(iso[k - 1].size <= created[k - 1].size);
    }
}

/// Where the drive has partitions of the sizes that the script asks for, every
/// partition of the image fits.
pub proof fn law_created_as_asked_fits(
    iso: Seq<PartView>,
    disk: Seq<PartView>,
    created: Seq<PartView>,
)
    requires
        is_disk_for(iso, disk),
        forall|i: int|
            0 <= i < disk.len() ==> (#[trigger] created[i]).size >= size_in_mib(disk[i].size) * MIB,
    ensures
        forall|i: int| 0 <= i < iso.len() ==> (#[trigger] iso[i]).size <= created[i].size,
{
    assert forall|i: int| 0 <= i < iso.len() implies (#[trigger] iso[i]).size
        <= created[i].size by {
        assert(disk[i] == disk_part(iso[i], disk[i].part_uuid));
        assert(created[i].size >= size_in_mib(disk[i].size) * MIB);
        law_partition_is_large_enough(iso[i].size);
    }
}

/// Whether some partition has an identifier.
pub open spec fn has_part(parts: Seq<PartView>, part_uuid: Uuid) -> bool {
    exists|k: int| 0 <= k < parts.len() && (#[trigger] parts[k]).part_uuid == part_uuid
}

proof fn lemma_has_part(parts: Seq<PartView>, part_uuid: Uuid)
    ensures
        find_part(parts, part_uuid) is Some <==> has_part(parts, part_uuid),
    decreases parts.len(),
{
    if parts.len() > 0 && parts[0].part_uuid != part_uuid {
        let rest = parts.skip(1);
        lemma_has_part(rest, part_uuid);
        if has_part(parts, part_uuid) {
            let k = choose|k: int|
                0 <= k < parts.len() && (#[trigger] parts[k]).part_uuid == part_uuid;
            assert(rest[k - 1].part_uuid == part_uuid);
        }
        if has_part(rest, part_uuid) {
            let k = choose|k: int|
                0 <= k < rest.len() && (#[trigger] rest[k]).part_uuid == part_uuid;
            assert(parts[k + 1].part_uuid == part_uuid);
        }
    }
}

/// The created partitions are found exactly if the drive has one for each
/// identifier that was planned. They are found in the order of the plan, each by
/// its identifier; and an identifier that is said to be missing is one of the
/// plan that no partition of the drive has.
pub proof fn law_created_parts(disk: Seq<PartView>, listing: Seq<PartView>)
    ensures
        created_parts(disk, listing) is Ok <==> forall|i: int|
            0 <= i < disk.len() ==> has_part(listing, (#[trigger] disk[i]).part_uuid),
        match created_parts(disk, listing) {
            Ok(created) => is_created_for(disk, created) && forall|i: int|
                0 <= i < created.len() ==> listing.contains(#[trigger] created[i]),
            Err(missing) => has_part(disk, missing) && !has_part(listing, missing),
        },
    decreases disk.len(),
{
    if disk.len() > 0 {
        let before = disk.drop_last();
        law_created_parts(before, listing);
        lemma_has_part(listing, disk.last().part_uuid);
        lemma_found(listing, disk.last().part_uuid);
        assert(disk[disk.len() - 1] == disk.last());
        if forall|i: int| 0 <= i < disk.len() ==> has_part(listing, (#[trigger] disk[i]).part_uuid) {
            assert forall|i: int| 0 <= i < before.len() implies has_part(
                listing,
                (#[trigger] before[i]).part_uuid,
            ) by {
                assert(before[i] == disk[i]);
            }
        }
        if created_parts(before, listing) is Ok {
            assert forall|i: int| 0 <= i < before.len() implies has_part(
                listing,
                (#[trigger] disk[i]).part_uuid,
            ) by {
                assert(before[i] == disk[i]);
            }
        } else {
            let missing = created_parts(before, listing)->Err_0;
            let k = choose|k: int|
                0 <= k < before.len() && (#[trigger] before[k]).part_uuid == missing;
            assert(disk[k].part_uuid == missing);
        }
    }
}

/// The menu for the images to which these partitions belong.
pub open spec fn menu(names: Seq<Option<Seq<char>>>, disks: Seq<Seq<PartView>>) -> Seq<char>
    decreases disks.len(),
{
    if disks.len() == 0 {
        Seq::empty()
    } else {
        menu(names, disks.drop_last()) + boot_entries(names[disks.len() - 1], disks.last())
    }
}

/// What a run has done so far: how it goes on, the listings of images that it was
/// given, the partitions of the images that it has planned for, the plans for them, the partitions of the drive that
/// were listed after each plan was carried out, and the copies it has begun.
pub struct Trace {
    pub next: CopyNextView,
    pub texts: Seq<Seq<char>>,
    pub isos: Seq<Seq<PartView>>,
    pub disks: Seq<Seq<PartView>>,
    pub listings: Seq<Seq<PartView>>,
    pub copies: Seq<CommandView>,
}

/// A trace with what a run does next.
pub open spec fn record(
    texts: Seq<Seq<char>>,
    isos: Seq<Seq<PartView>>,
    disks: Seq<Seq<PartView>>,
    listings: Seq<Seq<PartView>>,
    copies: Seq<CommandView>,
    next: CopyNextView,
) -> Trace {
    match next {
        CopyNextView::Go(
            RunView { phase: PhaseView::Create { iso, disk }, .. },
            CopyActionView::Create { .. },
        ) => Trace { next, texts, isos: isos.push(iso), disks: disks.push(disk), listings, copies },
        CopyNextView::Go(_, CopyActionView::Copy { command, .. }) => Trace {
            next,
            texts,
            isos,
            disks,
            listings,
            copies: copies.push(command),
        },
        _ => Trace { next, texts, isos, disks, listings, copies },
    }
}

/// The listings of images with the one that an event brings, if it brings one.
pub open spec fn with_text(
    texts: Seq<Seq<char>>,
    phase: PhaseView,
    event: CopyEventView,
) -> Seq<Seq<char>> {
    match (phase, event) {
        (PhaseView::ListImage, CopyEventView::Listed(text)) => texts.push(text),
        _ => texts,
    }
}

/// The listings of the drive with the one that an event brings, if it brings
/// one.
pub open spec fn with_listing(
    listings: Seq<Seq<PartView>>,
    phase: PhaseView,
    event: CopyEventView,
) -> Seq<Seq<PartView>> {
    match (phase, event) {
        (PhaseView::ListDevice { .. }, CopyEventView::Listed(text)) => match listing_text_parts(
            text,
        ) {
            Ok(listing) => listings.push(listing),
            Err(_) => listings,
        },
        _ => listings,
    }
}

/// What a run on images of these names has done after these events. Beside each
/// event stands the plan that is made there, if one is.
pub open spec fn trace(
    names: Seq<Option<Seq<char>>>,
    steps: Seq<(CopyEventView, Seq<PartView>)>,
) -> Trace
    decreases steps.len(),
{
    if steps.len() == 0 {
        record(
            Seq::empty(),
            Seq::empty(),
            Seq::empty(),
            Seq::empty(),
            Seq::empty(),
            at_image(names, 0, Seq::empty(), Seq::empty()),
        )
    } else {
        let before = trace(names, steps.drop_last());
        match before.next {
            CopyNextView::Go(run, _) => record(
                with_text(before.texts, run.phase, steps.last().0),
                before.isos,
                before.disks,
                with_listing(before.listings, run.phase, steps.last().0),
                before.copies,
                copy_next(run, steps.last().0, steps.last().1),
            ),
            _ => before,
        }
    }
}

/// Whether each event can come of the action that it follows, and each plan is
/// one for the partitions of its image.
pub open spec fn is_course(
    names: Seq<Option<Seq<char>>>,
    steps: Seq<(CopyEventView, Seq<PartView>)>,
) -> bool
    decreases steps.len(),
{
    steps.len() > 0 ==> {
        &&& is_course(names, steps.drop_last())
        &&& trace(names, steps.drop_last()).next matches CopyNextView::Go(run, _) ==> {
            &&& can_resume(run.phase, steps.last().0)
            &&& next_wf(copy_next(run, steps.last().0, steps.last().1))
        }
    }
}

/// The copies of the first `n` partitions of the image at `image`.
pub open spec fn image_copies(
    image: int,
    iso: Seq<PartView>,
    created: Seq<PartView>,
    n: int,
) -> Seq<CommandView> {
    Seq::new(
        n as nat,
        |i: int|
            dd_line(
                Root::Image(image as usize),
                Root::Device,
                iso[i].start,
                created[i].start,
                iso[i].size,
            ),
    )
}

/// The copies of all partitions of images.
pub open spec fn all_copies(
    isos: Seq<Seq<PartView>>,
    createds: Seq<Seq<PartView>>,
) -> Seq<CommandView>
    decreases isos.len(),
{
    if isos.len() == 0 {
        Seq::empty()
    } else {
        all_copies(isos.drop_last(), createds.drop_last()) + image_copies(
            isos.len() - 1,
            isos.last(),
            createds.last(),
            isos.last().len() as int,
        )
    }
}

/// Whether `created` are the partitions in a listing of the drive that were
/// created for the plan `disk`, and hold the partitions of the image.
pub open spec fn holds_image(
    iso: Seq<PartView>,
    disk: Seq<PartView>,
    listing: Seq<PartView>,
    created: Seq<PartView>,
) -> bool {
    &&& is_disk_for(iso, disk)
    &&& created_parts(disk, listing) == Ok::<Seq<PartView>, Uuid>(created)
    &&& is_created_for(disk, created)
    &&& forall|i: int| 0 <= i < iso.len() ==> (#[trigger] iso[i]).size <= created[i].size
}

/// Whether `createds` are partitions of the drive that hold all partitions of
/// images.
pub open spec fn holds_images(
    isos: Seq<Seq<PartView>>,
    disks: Seq<Seq<PartView>>,
    listings: Seq<Seq<PartView>>,
    createds: Seq<Seq<PartView>>,
) -> bool {
    &&& isos.len() == disks.len() == listings.len() == createds.len()
    &&& forall|k: int|
        0 <= k < isos.len() ==> holds_image(
            #[trigger] isos[k],
            disks[k],
            listings[k],
            createds[k],
        )
}

/// Whether exactly the partitions of these images were copied, each to one that
/// was created for it and is large enough, in order.
pub open spec fn images_copied(
    isos: Seq<Seq<PartView>>,
    disks: Seq<Seq<PartView>>,
    listings: Seq<Seq<PartView>>,
    copies: Seq<CommandView>,
) -> bool {
    exists|createds: Seq<Seq<PartView>>| #[trigger]
        holds_images(isos, disks, listings, createds) && copies == all_copies(isos, createds)
}

/// Whether `isos` are the partitions in these listings, one for each.
pub open spec fn are_listed(texts: Seq<Seq<char>>, isos: Seq<Seq<PartView>>) -> bool {
    &&& texts.len() == isos.len()
    &&& forall|k: int|
        0 <= k < isos.len() ==> listing_text_parts(texts[k]) == Ok::<Seq<PartView>, Seq<char>>(
            #[trigger] isos[k],
        )
}

/// Whether a trace is in order with `image` images done and the present one in
/// plan.
spec fn planned_for(
    names: Seq<Option<Seq<char>>>,
    t: Trace,
    run: RunView,
    iso: Seq<PartView>,
    disk: Seq<PartView>,
) -> bool {
    &&& t.isos.len() == t.disks.len() == run.image + 1
    &&& t.isos.last() == iso
    &&& t.disks.last() == disk
    &&& run.config == menu(names, t.disks.drop_last())
}

/// What holds of every trace.
spec fn trace_wf(names: Seq<Option<Seq<char>>>, t: Trace) -> bool {
    match t.next {
        CopyNextView::Go(run, _) => {
            &&& run.wf()
            &&& run.names == names
            &&& are_listed(t.texts, t.isos)
            &&& match run.phase {
                PhaseView::ListImage => {
                    &&& t.isos.len() == t.disks.len() == t.listings.len() == run.image
                    &&& run.config == menu(names, t.disks)
                    &&& images_copied(t.isos, t.disks, t.listings, t.copies)
                },
                PhaseView::Create { iso, disk } => {
                    &&& planned_for(names, t, run, iso, disk)
                    &&& t.listings.len() == run.image
                    &&& images_copied(
                        t.isos.drop_last(),
                        t.disks.drop_last(),
                        t.listings,
                        t.copies,
                    )
                },
                PhaseView::ListDevice { iso, disk } => {
                    &&& planned_for(names, t, run, iso, disk)
                    &&& t.listings.len() == run.image
                    &&& images_copied(
                        t.isos.drop_last(),
                        t.disks.drop_last(),
                        t.listings,
                        t.copies,
                    )
                },
                PhaseView::Copy { iso, disk, created, index } => {
                    &&& planned_for(names, t, run, iso, disk)
                    &&& t.listings.len() == run.image + 1
                    &&& created_parts(disk, t.listings.last()) == Ok::<Seq<PartView>, Uuid>(created)
                    &&& forall|i: int|
                        0 <= i <= index ==> (#[trigger] iso[i]).size <= created[i].size
                    &&& t.copies.len() >= index + 1
                    &&& images_copied(
                        t.isos.drop_last(),
                        t.disks.drop_last(),
                        t.listings.drop_last(),
                        t.copies.take(t.copies.len() - (index + 1)),
                    )
                    &&& t.copies.skip(t.copies.len() - (index + 1)) == image_copies(
                        run.image,
                        iso,
                        created,
                        index + 1,
                    )
                },
            }
        },
        CopyNextView::Finish(config) => {
            &&& t.isos.len() == t.disks.len() == t.listings.len() == names.len()
            &&& are_listed(t.texts, t.isos)
            &&& config == menu(names, t.disks) + menu_end()
            &&& images_copied(t.isos, t.disks, t.listings, t.copies)
        },
        _ => true,
    }
}

/// Going on with partition `index`, where those before it were copied behind
/// the copies `done` of the images before.
#[verifier::spinoff_prover]
proof fn lemma_at_part(
    names: Seq<Option<Seq<char>>>,
    run: RunView,
    texts: Seq<Seq<char>>,
    isos: Seq<Seq<PartView>>,
    disks: Seq<Seq<PartView>>,
    listings: Seq<Seq<PartView>>,
    done: Seq<CommandView>,
    created: Seq<PartView>,
    index: int,
)
    requires
        run.names == names,
        0 <= run.image < names.len() <= usize::MAX,
        isos.len() == disks.len() == listings.len() == run.image + 1,
        run.config == menu(names, disks.drop_last()),
        are_listed(texts, isos),
        is_disk_for(isos.last(), disks.last()),
        created_parts(disks.last(), listings.last()) == Ok::<Seq<PartView>, Uuid>(created),
        images_copied(isos.drop_last(), disks.drop_last(), listings.drop_last(), done),
        0 <= index <= isos.last().len(),
        forall|i: int|
            0 <= i < index ==> (#[trigger] isos.last()[i]).size <= created[i].size,
        next_wf(at_part(run, isos.last(), disks.last(), created, index)),
    ensures
        trace_wf(
            names,
            record(
                texts,
                isos,
                disks,
                listings,
                done + image_copies(run.image, isos.last(), created, index),
                at_part(run, isos.last(), disks.last(), created, index),
            ),
        ),
{
    let iso = isos.last();
    let disk = disks.last();
    let copies = done + image_copies(run.image, iso, created, index);
    let next = at_part(run, iso, disk, created, index);
    let t = record(texts, isos, disks, listings, copies, next);
    lemma_created(disk, listings.last());
    if index >= iso.len() {
        let createds = choose|createds: Seq<Seq<PartView>>| #[trigger]
            holds_images(isos.drop_last(), disks.drop_last(), listings.drop_last(), createds)
                && done == all_copies(isos.drop_last(), createds);
        let more = createds.push(created);
        assert(more.drop_last() =~= createds);
        assert(holds_image(iso, disk, listings.last(), created));
        assert forall|k: int| 0 <= k < isos.len() implies holds_image(
            #[trigger] isos[k],
            disks[k],
            listings[k],
            more[k],
        ) by {
            if k < isos.len() - 1 {
                assert(isos.drop_last()[k] == isos[k]);
            }
        }
        assert(holds_images(isos, disks, listings, more));
        assert(copies == all_copies(isos, more));
        assert(images_copied(isos, disks, listings, copies));
    } else if iso[index].size <= created[index].size {
        let command = dd_line(
            Root::Image(run.image as usize),
            Root::Device,
            iso[index].start,
            created[index].start,
            iso[index].size,
        );
        assert(t.copies == copies.push(command));
        assert(t.copies.take(t.copies.len() - (index + 1)) =~= done);
        assert(t.copies.skip(t.copies.len() - (index + 1)) =~= image_copies(
            run.image,
            iso,
            created,
            index + 1,
        ));
    }
}

/// Whether an event takes a run from one trace that is in order to another.
spec fn steps_well(
    names: Seq<Option<Seq<char>>>,
    t: Trace,
    run: RunView,
    event: CopyEventView,
    plan: Seq<PartView>,
) -> bool {
    trace_wf(
        names,
        record(
            with_text(t.texts, run.phase, event),
            t.isos,
            t.disks,
            with_listing(t.listings, run.phase, event),
            t.copies,
            copy_next(run, event, plan),
        ),
    )
}

/// Whether a run stands where a trace that is in order leads.
spec fn stands_at(names: Seq<Option<Seq<char>>>, t: Trace, run: RunView) -> bool {
    &&& names.len() <= usize::MAX
    &&& trace_wf(names, t)
    &&& t.next matches CopyNextView::Go(present, _)
    &&& present == run
}

#[verifier::spinoff_prover]
proof fn lemma_step_list_image(
    names: Seq<Option<Seq<char>>>,
    t: Trace,
    run: RunView,
    event: CopyEventView,
    plan: Seq<PartView>,
)
    requires
        stands_at(names, t, run),
        run.phase is ListImage,
        can_resume(run.phase, event),
        next_wf(copy_next(run, event, plan)),
    ensures
        steps_well(names, t, run, event, plan),
{
    if let CopyEventView::Listed(text) = event {
        if let Ok(iso) = listing_text_parts(text) {
            assert(t.isos.push(iso).drop_last() =~= t.isos);
            assert(t.disks.push(plan).drop_last() =~= t.disks);
        }
    }
}

#[verifier::spinoff_prover]
proof fn lemma_step_list_device(
    names: Seq<Option<Seq<char>>>,
    t: Trace,
    run: RunView,
    event: CopyEventView,
    plan: Seq<PartView>,
)
    requires
        stands_at(names, t, run),
        run.phase is ListDevice,
        can_resume(run.phase, event),
        next_wf(copy_next(run, event, plan)),
    ensures
        steps_well(names, t, run, event, plan),
{
    if let CopyEventView::Listed(text) = event {
        if listing_text_has_units(text) {
            if let Ok(listing) = listing_text_parts(text) {
                let iso = t.isos.last();
                let disk = t.disks.last();
                lemma_created(disk, listing);
                if let Ok(created) = created_parts(disk, listing) {
                    assert(t.copies + image_copies(run.image, iso, created, 0) =~= t.copies);
                    let listings = t.listings.push(listing);
                    assert(listings.drop_last() =~= t.listings);
                    lemma_at_part(
                        names,
                        run,
                        t.texts,
                        t.isos,
                        t.disks,
                        listings,
                        t.copies,
                        created,
                        0,
                    );
                }
            }
        }
    }
}

#[verifier::spinoff_prover]
proof fn lemma_step_copy(
    names: Seq<Option<Seq<char>>>,
    t: Trace,
    run: RunView,
    event: CopyEventView,
    plan: Seq<PartView>,
)
    requires
        stands_at(names, t, run),
        run.phase is Copy,
        can_resume(run.phase, event),
        next_wf(copy_next(run, event, plan)),
    ensures
        steps_well(names, t, run, event, plan),
{
    if let CopyEventView::Done = event {
        if let PhaseView::Copy { iso, disk, created, index } = run.phase {
            let done = t.copies.take(t.copies.len() - (index + 1));
            assert(t.copies =~= done + image_copies(run.image, iso, created, index + 1));
            lemma_at_part(
                names,
                run,
                t.texts,
                t.isos,
                t.disks,
                t.listings,
                done,
                created,
                index + 1,
            );
        }
    }
}

#[verifier::spinoff_prover]
proof fn lemma_trace(
    names: Seq<Option<Seq<char>>>,
    steps: Seq<(CopyEventView, Seq<PartView>)>,
)
    requires
        names.len() <= usize::MAX,
        is_course(names, steps),
    ensures
        trace_wf(names, trace(names, steps)),
    decreases steps.len(),
{
    if steps.len() == 0 {
        let none = Seq::<Seq<PartView>>::empty();
        assert(holds_images(none, none, none, none));
        assert(all_copies(none, none) == Seq::<CommandView>::empty());
        assert(images_copied(none, none, none, Seq::empty()));
    } else {
        lemma_trace(names, steps.drop_last());
        let t = trace(names, steps.drop_last());
        let (event, plan) = steps.last();
        if let CopyNextView::Go(run, _) = t.next {
            assert(stands_at(names, t, run));
            match run.phase {
                PhaseView::ListImage => lemma_step_list_image(names, t, run, event, plan),
                PhaseView::Create { .. } => assert(steps_well(names, t, run, event, plan)),
                PhaseView::ListDevice { .. } => lemma_step_list_device(
                    names,
                    t,
                    run,
                    event,
                    plan,
                ),
                PhaseView::Copy { .. } => lemma_step_copy(names, t, run, event, plan),
            }
        }
    }
}

/// A run that finishes has made a plan for the partitions of each image, which are
/// those in the listing that it was given for the image. It has copied every
/// partition of every image, each to the one on the drive that was created for it
/// and is large enough, and nothing else. The menu that it returns holds the entries of the
/// planned partitions, image by image, and the end.
pub proof fn law_finished_run(
    names: Seq<Option<Seq<char>>>,
    steps: Seq<(CopyEventView, Seq<PartView>)>,
)
    requires
        names.len() <= usize::MAX,
        is_course(names, steps),
    ensures
        trace(names, steps).next matches CopyNextView::Finish(config) ==> {
            let t = trace(names, steps);
            &&& t.isos.len() == t.disks.len() == t.listings.len() == names.len()
            &&& are_listed(t.texts, t.isos)
            &&& images_copied(t.isos, t.disks, t.listings, t.copies)
            &&& config == menu(names, t.disks) + menu_end()
        },
{
    lemma_trace(names, steps);
}

/// Whether a text holds another, somewhere.
pub open spec fn holds_text(text: Seq<char>, part: Seq<char>) -> bool {
    exists|before: Seq<char>, after: Seq<char>| text == #[trigger] (before + part + after)
}

proof fn lemma_holds_text(a: Seq<char>, text: Seq<char>, b: Seq<char>, part: Seq<char>)
    requires
        holds_text(text, part),
    ensures
        holds_text(a + text + b, part),
{
    let (before, after) = choose|before: Seq<char>, after: Seq<char>|
        text == #[trigger] (before + part + after);
    assert(a + text + b =~= (a + before) + part + (after + b));
}

proof fn lemma_boot_entry(name: Option<Seq<char>>, disk: Seq<PartView>, i: int)
    requires
        0 <= i < disk.len(),
        disk[i].type_uuid.value == ESP_UUID,
    ensures
        holds_text(
            boot_entries(name, disk),
            menu_entry(display_name(name), disk[i].part_uuid),
        ),
    decreases disk.len(),
{
    let entry = menu_entry(display_name(name), disk[i].part_uuid);
    let before = boot_entries(name, disk.drop_last());
    let none = Seq::<char>::empty();
    if i == disk.len() - 1 {
        assert(boot_entries(name, disk) =~= before + entry + none);
    } else {
        lemma_boot_entry(name, disk.drop_last(), i);
        let last = if disk.last().type_uuid.value == ESP_UUID {
            menu_entry(display_name(name), disk.last().part_uuid)
        } else {
            none
        };
        lemma_holds_text(none, before, last, entry);
        assert(boot_entries(name, disk) =~= none + before + last);
    }
}

/// Every EFI system partition that is planned for an image has an entry in the
/// menu, under the name of the image and with its identifier.
pub proof fn law_every_system_partition_is_in_the_menu(
    names: Seq<Option<Seq<char>>>,
    disks: Seq<Seq<PartView>>,
    k: int,
    i: int,
)
    requires
        0 <= k < disks.len(),
        0 <= i < disks[k].len(),
        disks[k][i].type_uuid.value == ESP_UUID,
    ensures
        holds_text(
            menu(names, disks) + menu_end(),
            menu_entry(display_name(names[k]), disks[k][i].part_uuid),
        ),
{
    let entry = menu_entry(display_name(names[k]), disks[k][i].part_uuid);
    let none = Seq::<char>::empty();
    lemma_menu_entry(names, disks, k, i);
    lemma_holds_text(none, menu(names, disks), menu_end(), entry);
    assert(menu(names, disks) + menu_end() =~= none + menu(names, disks) + menu_end());
}

proof fn lemma_menu_entry(
    names: Seq<Option<Seq<char>>>,
    disks: Seq<Seq<PartView>>,
    k: int,
    i: int,
)
    requires
        0 <= k < disks.len(),
        0 <= i < disks[k].len(),
        disks[k][i].type_uuid.value == ESP_UUID,
    ensures
        holds_text(
            menu(names, disks),
            menu_entry(display_name(names[k]), disks[k][i].part_uuid),
        ),
    decreases disks.len(),
{
    let entry = menu_entry(display_name(names[k]), disks[k][i].part_uuid);
    let last = boot_entries(names[disks.len() - 1], disks.last());
    let before = menu(names, disks.drop_last());
    let none = Seq::<char>::empty();
    if k == disks.len() - 1 {
        lemma_boot_entry(names[k], disks[k], i);
        lemma_holds_text(before, last, none, entry);
        assert(menu(names, disks) =~= before + last + none);
    } else {
        lemma_menu_entry(names, disks.drop_last(), k, i);
        lemma_holds_text(none, before, last, entry);
        assert(menu(names, disks) =~= none + before + last);
    }
}

/// Where a run finishes, every partition of every image that is an EFI system
/// partition, or has no type and the flag of one, has an entry in the menu that is
/// returned, under the name of the image and with the identifier of the partition
/// that was created for it.
pub proof fn law_finished_run_boots_every_image(
    names: Seq<Option<Seq<char>>>,
    steps: Seq<(CopyEventView, Seq<PartView>)>,
    k: int,
    i: int,
)
    requires
        names.len() <= usize::MAX,
        is_course(names, steps),
        trace(names, steps).next is Finish,
        0 <= k < names.len(),
        0 <= i < trace(names, steps).isos[k].len(),
        disk_type(trace(names, steps).isos[k][i]).value == ESP_UUID,
    ensures
        created_parts(trace(names, steps).disks[k], trace(names, steps).listings[k]) matches Ok(
            created,
        ) && holds_text(
            trace(names, steps).next->Finish_0,
            menu_entry(display_name(names[k]), created[i].part_uuid),
        ),
{
    let t = trace(names, steps);
    law_finished_run(names, steps);
    let createds = choose|createds: Seq<Seq<PartView>>| #[trigger]
        holds_images(t.isos, t.disks, t.listings, createds) && t.copies == all_copies(
            t.isos,
            createds,
        );
    assert(holds_image(t.isos[k], t.disks[k], t.listings[k], createds[k]));
    assert(t.disks[k][i] == disk_part(t.isos[k][i], t.disks[k][i].part_uuid));
    assert(createds[k][i].part_uuid == t.disks[k][i].part_uuid);
    law_every_system_partition_is_in_the_menu(names, t.disks, k, i);
}

} // verus!
