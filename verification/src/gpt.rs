//! The partitions in a GUID partition table.

use crate::bytes::{le_number, padded_text, read_le, read_padded_text};
use crate::guid::{uuid_of_bytes_le, Uuid};
use crate::part::{numbers_grow, part_views, Part, PartView, ESP_UUID, LBA_SIZE};
use crate::table::{
    answers, bytes_at, fits_request, read_slice, Found, Progress, Request, TableError,
};
use vstd::prelude::*;
use vstd::slice::slice_subrange;

verus! {

/// Where the header of a GPT begins.
pub const GPT_HEADER: u64 = 0x200;

/// The number of bytes of an entry of a GPT that are read.
pub const GPT_ENTRY: u64 = 128;

/// Whether these are the bytes with which the header of a GPT begins, `EFI PART`.
pub open spec fn is_gpt_signature(b: Seq<u8>) -> bool {
    b == seq![0x45u8, 0x46, 0x49, 0x20, 0x50, 0x41, 0x52, 0x54]
}

/// Whether the place and size of a partition can be computed from its first
/// and last block.
pub open spec fn extent_fits(first_lba: int, last_lba: int) -> bool {
    &&& first_lba * LBA_SIZE <= u64::MAX
    &&& first_lba <= last_lba
    &&& (last_lba - first_lba + 1) * LBA_SIZE <= u64::MAX
}

/// The first block of the partition in an entry, from the part of the entry
/// behind its type.
pub open spec fn entry_first_lba(body: Seq<u8>) -> int {
    le_number(body.subrange(16, 24)) as int
}

/// The last block of the partition in an entry.
pub open spec fn entry_last_lba(body: Seq<u8>) -> int {
    le_number(body.subrange(24, 32)) as int
}

/// The partition in entry `i`, from its type and the rest of the entry.
pub open spec fn gpt_part(i: int, type_uuid: Uuid, body: Seq<u8>) -> PartView {
    PartView {
        number: ((i + 1) % 256) as u8,
        start: (entry_first_lba(body) * LBA_SIZE) as u64,
        size: ((entry_last_lba(body) - entry_first_lba(body) + 1) * LBA_SIZE) as u64,
        type_uuid,
        part_uuid: uuid_of_bytes_le(body.subrange(0, 16)),
        name: padded_text(body.subrange(40, 112)),
        flag_boot: false,
        flag_esp: type_uuid.value == ESP_UUID,
    }
}

/// Whether an entry that is used can be read and stepped over.
pub open spec fn gpt_entry_fits(entry_size: int, body: Seq<u8>) -> bool {
    extent_fits(entry_first_lba(body), entry_last_lba(body)) && entry_size <= GPT_ENTRY
}

/// Where reading goes on behind an entry at `at` that is used.
pub open spec fn gpt_next_entry(at: int, entry_size: int) -> int {
    at + GPT_ENTRY + (GPT_ENTRY - entry_size)
}

/// What entry `i` and those behind it hold, up to number `count`, behind the
/// partitions that the entries before hold. Entry `i` is taken to begin at
/// `at`. Of an entry without a type only the sixteen bytes of the type are
/// passed over.
pub open spec fn gpt_entries(
    device: Seq<u8>,
    at: int,
    i: int,
    count: int,
    entry_size: int,
    before: Seq<PartView>,
) -> Found<Seq<PartView>>
    decreases count - i,
{
    if i >= count {
        Found::Value(before)
    } else {
        match bytes_at(device, at, 16) {
            None => Found::Failed(TableError::Unreadable),
            Some(type_bytes) => if uuid_of_bytes_le(type_bytes).value == 0 {
                gpt_entries(device, at + 16, i + 1, count, entry_size, before)
            } else {
                match bytes_at(device, at + 16, 112) {
                    None => Found::Failed(TableError::Unreadable),
                    Some(body) => if !gpt_entry_fits(entry_size, body) {
                        Found::Overflow
                    } else {
                        gpt_entries(
                            device,
                            gpt_next_entry(at, entry_size),
                            i + 1,
                            count,
                            entry_size,
                            before.push(gpt_part(i, uuid_of_bytes_le(type_bytes), body)),
                        )
                    },
                }
            },
        }
    }
}

/// What the entries of a GPT hold, found through its header.
pub open spec fn gpt_table(device: Seq<u8>) -> Found<Seq<PartView>> {
    match bytes_at(device, GPT_HEADER + 0x48, 16) {
        None => Found::Failed(TableError::Unreadable),
        Some(header) => {
            let table_lba = le_number(header.subrange(0, 8));
            let count = le_number(header.subrange(8, 12));
            let entry_size = le_number(header.subrange(12, 16));
            if 0x200 * table_lba > u64::MAX {
                Found::Overflow
            } else {
                gpt_entries(
                    device,
                    0x200 * table_lba as int,
                    0,
                    count as int,
                    entry_size as int,
                    Seq::empty(),
                )
            }
        },
    }
}

/// The partitions in the GPT of a device.
pub open spec fn gpt_data(device: Seq<u8>) -> Found<Seq<PartView>> {
    match bytes_at(device, GPT_HEADER as int, 8) {
        Some(signature) if is_gpt_signature(signature) => gpt_table(device),
        _ => Found::Failed(TableError::NotGpt),
    }
}

/// What a reader of a GPT needs next.
#[derive(Debug, Clone, Copy, PartialEq, Eq, Structural)]
pub enum GptPhase {
    /// The signature of the header.
    Signature,
    /// The place, number and size of the entries, in the header.
    Header,
    /// Nothing but to be placed at the first entry.
    Table,
    /// The type of an entry.
    Type,
    /// The rest of an entry of this type.
    Body(Uuid),
}

/// A reader of a GPT.
#[derive(Debug, PartialEq, Eq)]
pub struct GptReader {
    pub phase: GptPhase,
    /// Where the next entry begins.
    pub at: u64,
    /// The number of entries that have been read.
    pub index: u32,
    /// The number of entries.
    pub count: u32,
    /// The size of an entry that the header gives.
    pub entry_size: u32,
    /// The partitions that have been found.
    pub parts: Vec<Part>,
}

impl GptReader {
    pub open spec fn wf(self) -> bool {
        match self.phase {
            GptPhase::Signature | GptPhase::Header => true,
            GptPhase::Table => self.index == 0,
            GptPhase::Type => self.index < self.count,
            GptPhase::Body(_) => self.index < self.count && self.at <= u64::MAX - 16,
        }
    }

    /// An upper bound of how many more times the reader can be resumed.
    pub open spec fn remaining(self) -> nat {
        match self.phase {
            GptPhase::Signature => 0x2_0000_0003,
            GptPhase::Header => 0x2_0000_0002,
            GptPhase::Table => (2 * self.count + 1) as nat,
            GptPhase::Type => (2 * (self.count - self.index)) as nat,
            GptPhase::Body(_) => (2 * (self.count - self.index) - 1) as nat,
        }
    }

    /// What the reader finds on a device in the end.
    pub open spec fn outcome(self, device: Seq<u8>) -> Found<Seq<PartView>> {
        let at = self.at as int;
        let i = self.index as int;
        let before = part_views(self.parts@);
        match self.phase {
            GptPhase::Signature => gpt_data(device),
            GptPhase::Header => gpt_table(device),
            GptPhase::Table | GptPhase::Type => gpt_entries(
                device,
                at,
                i,
                self.count as int,
                self.entry_size as int,
                before,
            ),
            GptPhase::Body(type_uuid) => match bytes_at(device, at + 16, 112) {
                None => Found::Failed(TableError::Unreadable),
                Some(body) => if !gpt_entry_fits(self.entry_size as int, body) {
                    Found::Overflow
                } else {
                    gpt_entries(
                        device,
                        gpt_next_entry(at, self.entry_size as int),
                        i + 1,
                        self.count as int,
                        self.entry_size as int,
                        before.push(gpt_part(i, type_uuid, body)),
                    )
                },
            },
        }
    }

    pub open spec fn spec_request(self) -> Request {
        match self.phase {
            GptPhase::Signature => Request { offset: GPT_HEADER, len: 8 },
            GptPhase::Header => Request { offset: (GPT_HEADER + 0x48) as u64, len: 16 },
            GptPhase::Table => Request { offset: self.at, len: 0 },
            GptPhase::Type => Request { offset: self.at, len: 16 },
            GptPhase::Body(_) => Request { offset: (self.at + 16) as u64, len: 112 },
        }
    }

    /// A reader that has read nothing yet.
    pub fn start() -> (r: GptReader)
        ensures
            r.wf(),
            r.phase is Signature,
            forall|device: Seq<u8>| #[trigger] r.outcome(device) == gpt_data(device),
    {
        GptReader {
            phase: GptPhase::Signature,
            at: 0,
            index: 0,
            count: 0,
            entry_size: 0,
            parts: Vec::new(),
        }
    }

    /// The bytes that the reader needs next.
    pub fn request(&self) -> (r: Request)
        requires
            self.wf(),
        ensures
            r == self.spec_request(),
    {
        match self.phase {
            GptPhase::Signature => Request { offset: GPT_HEADER, len: 8 },
            GptPhase::Header => Request { offset: GPT_HEADER + 0x48, len: 16 },
            GptPhase::Table => Request { offset: self.at, len: 0 },
            GptPhase::Type => Request { offset: self.at, len: 16 },
            GptPhase::Body(_) => Request { offset: self.at + 16, len: 112 },
        }
    }

    /// Goes on behind an entry, `step` bytes further.
    fn pass(self, step: u64) -> (r: Progress<GptReader, Vec<Part>>)
        requires
            self.index < self.count,
        ensures
            r matches Progress::More(next) ==> next.wf() && next.phase is Type
                && next.remaining() < 2 * (self.count - self.index) - 1,
            forall|device: Seq<u8>|
                device.len() <= u64::MAX ==> gpt_outcome(r, device) == #[trigger] gpt_entries(
                    device,
                    self.at + step,
                    self.index + 1,
                    self.count as int,
                    self.entry_size as int,
                    part_views(self.parts@),
                ),
    {
        if self.index + 1 == self.count {
            return Progress::Done(self.parts);
        }
        match self.at.checked_add(step) {
            None => Progress::Failed(TableError::Unreadable),
            Some(at) => Progress::More(
                GptReader {
                    phase: GptPhase::Type,
                    at,
                    index: self.index + 1,
                    count: self.count,
                    entry_size: self.entry_size,
                    parts: self.parts,
                },
            ),
        }
    }

    /// Goes on with the bytes that were asked for, or without them where they
    /// could not be read.
    pub fn resume(self, reply: Option<&[u8]>) -> (r: Progress<GptReader, Vec<Part>>)
        requires
            self.wf(),
            fits_request(self.spec_request(), reply),
        ensures
            reply is None ==> r == Progress::<GptReader, Vec<Part>>::Failed(
                if self.phase is Signature {
                    TableError::NotGpt
                } else {
                    TableError::Unreadable
                },
            ),
            r matches Progress::More(next) ==> next.wf() && next.remaining() < self.remaining(),
            forall|device: Seq<u8>|
                answers(device, self.spec_request(), reply) ==> gpt_outcome(r, device)
                    == #[trigger] self.outcome(device),
    {
        let bytes: &[u8] = match reply {
            None => {
                return Progress::Failed(
                    match self.phase {
                        GptPhase::Signature => TableError::NotGpt,
                        _ => TableError::Unreadable,
                    },
                );
            },
            Some(bytes) => bytes,
        };
        match self.phase {
            GptPhase::Signature => {
                if has_gpt_signature(bytes) {
                    Progress::More(GptReader { phase: GptPhase::Header, ..self })
                } else {
                    Progress::Failed(TableError::NotGpt)
                }
            },
            GptPhase::Header => {
                let table_lba: u64 = read_le(bytes, 0, 8);
                let count: u64 = read_le(bytes, 8, 4);
                let entry_size: u64 = read_le(bytes, 12, 4);
                match table_lba.checked_mul(0x200) {
                    None => Progress::Overflow,
                    Some(at) => {
                        let parts: Vec<Part> = Vec::new();
                        assert(part_views(parts@) =~= Seq::empty());
                        Progress::More(
                            GptReader {
                                phase: GptPhase::Table,
                                at,
                                index: 0,
                                count: count as u32,
                                entry_size: entry_size as u32,
                                parts,
                            },
                        )
                    },
                }
            },
            GptPhase::Table => {
                if self.count == 0 {
                    Progress::Done(self.parts)
                } else {
                    Progress::More(GptReader { phase: GptPhase::Type, ..self })
                }
            },
            GptPhase::Type => {
                let type_uuid: Uuid = read_uuid(bytes, 0);
                assert(bytes@.subrange(0, 16) =~= bytes@);
                if type_uuid == Uuid::nil() {
                    let ghost me = self;
                    let r = self.pass(16);
                    assert forall|device: Seq<u8>|
                        answers(device, me.spec_request(), reply) implies gpt_outcome(r, device)
                        == #[trigger] me.outcome(device) by {
                        assert(gpt_outcome(r, device) == gpt_entries(
                            device,
                            me.at + 16,
                            me.index + 1,
                            me.count as int,
                            me.entry_size as int,
                            part_views(me.parts@),
                        ));
                    }
                    r
                } else if self.at > u64::MAX - 16 {
                    Progress::Failed(TableError::Unreadable)
                } else {
                    Progress::More(GptReader { phase: GptPhase::Body(type_uuid), ..self })
                }
            },
            GptPhase::Body(type_uuid) => {
                match read_gpt_part(self.index, type_uuid, bytes) {
                    None => Progress::Overflow,
                    Some(part) => {
                        if self.entry_size as u64 > GPT_ENTRY {
                            return Progress::Overflow;
                        }
                        let ghost me = self;
                        let GptReader { phase, at, index, count, entry_size, mut parts } = self;
                        let ghost before = part_views(parts@);
                        let ghost added = part@;
                        parts.push(part);
                        assert(part_views(parts@) =~= before.push(added));
                        let step: u64 = GPT_ENTRY + (GPT_ENTRY - entry_size as u64);
                        let ghost after = parts@;
                        let r = GptReader { phase, at, index, count, entry_size, parts }.pass(step);
                        assert forall|device: Seq<u8>|
                            answers(device, me.spec_request(), reply) implies gpt_outcome(r, device)
                            == #[trigger] me.outcome(device) by {
                            assert(gpt_outcome(r, device) == gpt_entries(
                                device,
                                at + step,
                                index + 1,
                                count as int,
                                entry_size as int,
                                part_views(after),
                            ));
                        }
                        r
                    },
                }
            },
        }
    }
}

/// Whether these are the bytes with which the header of a GPT begins.
fn has_gpt_signature(b: &[u8]) -> (r: bool)
    requires
        b@.len() == 8,
    ensures
        r == is_gpt_signature(b@),
{
    let r: bool = b[0] == 0x45 && b[1] == 0x46 && b[2] == 0x49 && b[3] == 0x20 && b[4] == 0x50
        && b[5] == 0x41 && b[6] == 0x52 && b[7] == 0x54;
    proof {
        let signature = seq![0x45u8, 0x46, 0x49, 0x20, 0x50, 0x41, 0x52, 0x54];
        if r {
            assert(b@ =~= signature);
        } else {
            assert(signature[0] == 0x45 && signature[1] == 0x46 && signature[2] == 0x49
                && signature[3] == 0x20 && signature[4] == 0x50 && signature[5] == 0x41
                && signature[6] == 0x52 && signature[7] == 0x54);
        }
    }
    r
}

/// The identifier in the sixteen bytes from `at`.
fn read_uuid(b: &[u8], at: usize) -> (r: Uuid)
    requires
        at + 16 <= b@.len(),
        at <= 1024,
    ensures
        r == uuid_of_bytes_le(b@.subrange(at as int, at + 16)),
{
    let array: [u8; 16] = [
        b[at],
        b[at + 1],
        b[at + 2],
        b[at + 3],
        b[at + 4],
        b[at + 5],
        b[at + 6],
        b[at + 7],
        b[at + 8],
        b[at + 9],
        b[at + 10],
        b[at + 11],
        b[at + 12],
        b[at + 13],
        b[at + 14],
        b[at + 15],
    ];
    assert(array@ =~= b@.subrange(at as int, at + 16));
    Uuid::from_bytes_le(array)
}

/// The partition in entry `i`, from its type and the rest of the entry; `None`
/// where its place or size cannot be computed.
fn read_gpt_part(i: u32, type_uuid: Uuid, body: &[u8]) -> (r: Option<Part>)
    requires
        body@.len() == 112,
        i < u32::MAX,
    ensures
        match r {
            Some(part) => extent_fits(entry_first_lba(body@), entry_last_lba(body@)) && part@
                == gpt_part(i as int, type_uuid, body@),
            None => !extent_fits(entry_first_lba(body@), entry_last_lba(body@)),
        },
{
    let part_num: u32 = i + 1;
    let number: u8 = #[verifier::truncate] (part_num as u8);
    assert(part_num as u8 == part_num % 256) by (bit_vector);
    let part_uuid: Uuid = read_uuid(body, 0);
    let first_lba: u64 = read_le(body, 16, 8);
    let last_lba: u64 = read_le(body, 24, 8);
    if first_lba > u64::MAX / LBA_SIZE || last_lba < first_lba || last_lba - first_lba >= u64::MAX
        / LBA_SIZE {
        return None;
    }
    let name: String = read_padded_text(slice_subrange(body, 40, 112));
    Some(
        Part {
            number,
            start: first_lba * LBA_SIZE,
            size: (last_lba - first_lba + 1) * LBA_SIZE,
            type_uuid,
            part_uuid,
            name,
            flag_boot: false,
            flag_esp: type_uuid.value == ESP_UUID,
        },
    )
}

/// What a reader of a GPT that has come so far finds on a device in the end.
pub open spec fn gpt_outcome(p: Progress<GptReader, Vec<Part>>, device: Seq<u8>) -> Found<
    Seq<PartView>,
> {
    match p {
        Progress::More(reader) => reader.outcome(device),
        Progress::Done(parts) => Found::Value(part_views(parts@)),
        Progress::Failed(e) => Found::Failed(e),
        Progress::Overflow => Found::Overflow,
    }
}

/// Runs a reader of a GPT on a device that lies in memory; `None` where a place
/// or size in the table is too large to be computed.
pub fn checked_gpt_data(device: &[u8]) -> (r: Option<Result<Vec<Part>, TableError>>)
    ensures
        match r {
            Some(Ok(parts)) => gpt_data(device@) == Found::Value(part_views(parts@)),
            Some(Err(e)) => gpt_data(device@) == Found::<Seq<PartView>>::Failed(e),
            None => gpt_data(device@) == Found::<Seq<PartView>>::Overflow,
        },
{
    let mut reader: GptReader = GptReader::start();
    loop
        invariant
            reader.wf(),
            reader.outcome(device@) == gpt_data(device@),
        decreases reader.remaining(),
    {
        let reply: Option<&[u8]> = read_slice(device, reader.request());
        match reader.resume(reply) {
            Progress::More(next) => {
                reader = next;
            },
            Progress::Done(parts) => {
                return Some(Ok(parts));
            },
            Progress::Failed(e) => {
                return Some(Err(e));
            },
            Progress::Overflow => {
                return None;
            },
        }
    }
}

/// The partitions in the GPT of a device that lies in memory.
pub fn get_gpt_data(device: &[u8]) -> (r: Result<Vec<Part>, TableError>)
    requires
        !(gpt_data(device@) is Overflow),
    ensures
        match r {
            Ok(parts) => gpt_data(device@) == Found::Value(part_views(parts@)),
            Err(e) => gpt_data(device@) == Found::<Seq<PartView>>::Failed(e),
        },
{
    match checked_gpt_data(device) {
        Some(found) => found,
        None => Err(TableError::Unreadable),
    }
}

// Laws.

/// What holds of every partition that a GPT gives.
pub open spec fn is_gpt_part(p: PartView) -> bool {
    &&& p.size > 0
    &&& p.size % LBA_SIZE == 0
    &&& p.start % LBA_SIZE == 0
    &&& p.type_uuid.value != 0
    &&& !p.flag_boot
    &&& p.flag_esp == (p.type_uuid.value == ESP_UUID)
}

proof fn lemma_gpt_entries_parts(
    device: Seq<u8>,
    at: int,
    i: int,
    count: int,
    entry_size: int,
    before: Seq<PartView>,
)
    requires
        0 <= i,
        before.len() <= i,
        forall|k: int| 0 <= k < before.len() ==> is_gpt_part(#[trigger] before[k]),
    ensures
        gpt_entries(device, at, i, count, entry_size, before) matches Found::Value(parts) ==> {
            &&& parts.len() <= if i < count { count } else { i }
            &&& forall|k: int| 0 <= k < parts.len() ==> is_gpt_part(#[trigger] parts[k])
        },
    decreases count - i,
{
    if i < count {
        if let Some(type_bytes) = bytes_at(device, at, 16) {
            let type_uuid = uuid_of_bytes_le(type_bytes);
            if type_uuid.value == 0 {
                lemma_gpt_entries_parts(device, at + 16, i + 1, count, entry_size, before);
            } else if let Some(body) = bytes_at(device, at + 16, 112) {
                if gpt_entry_fits(entry_size, body) {
                    lemma_gpt_entries_parts(
                        device,
                        gpt_next_entry(at, entry_size),
                        i + 1,
                        count,
                        entry_size,
                        before.push(gpt_part(i, type_uuid, body)),
                    );
                }
            }
        }
    }
}

/// The number of entries that the header of a GPT gives.
pub open spec fn gpt_count(device: Seq<u8>) -> nat {
    le_number(device.subrange(0x250, 0x254))
}

/// A GPT gives no more partitions than it has entries. Each is made of whole
/// blocks, at least one of them, has a type, is not for legacy boot, and is an
/// EFI system partition exactly if its flag says so.
pub proof fn law_gpt_parts(device: Seq<u8>)
    ensures
        gpt_data(device) matches Found::Value(parts) ==> {
            &&& parts.len() <= gpt_count(device)
            &&& forall|k: int| 0 <= k < parts.len() ==> is_gpt_part(#[trigger] parts[k])
        },
{
    if let Some(header) = bytes_at(device, GPT_HEADER + 0x48, 16) {
        assert(header.subrange(8, 12) =~= device.subrange(0x250, 0x254));
        lemma_gpt_entries_parts(
            device,
            0x200 * le_number(header.subrange(0, 8)) as int,
            0,
            le_number(header.subrange(8, 12)) as int,
            le_number(header.subrange(12, 16)) as int,
            Seq::empty(),
        );
    }
}

proof fn lemma_gpt_entries_numbers(
    device: Seq<u8>,
    at: int,
    i: int,
    count: int,
    entry_size: int,
    before: Seq<PartView>,
)
    requires
        0 <= i,
        count <= 255,
        numbers_grow(before),
        forall|k: int| 0 <= k < before.len() ==> (#[trigger] before[k]).number <= i,
    ensures
        gpt_entries(device, at, i, count, entry_size, before) matches Found::Value(parts)
            ==> numbers_grow(parts),
    decreases count - i,
{
    if i < count {
        if let Some(type_bytes) = bytes_at(device, at, 16) {
            let type_uuid = uuid_of_bytes_le(type_bytes);
            if type_uuid.value == 0 {
                lemma_gpt_entries_numbers(device, at + 16, i + 1, count, entry_size, before);
            } else if let Some(body) = bytes_at(device, at + 16, 112) {
                if gpt_entry_fits(entry_size, body) {
                    lemma_gpt_entries_numbers(
                        device,
                        gpt_next_entry(at, entry_size),
                        i + 1,
                        count,
                        entry_size,
                        before.push(gpt_part(i, type_uuid, body)),
                    );
                }
            }
        }
    }
}

/// Where a GPT has at most 255 entries, its partitions have different numbers,
/// in growing order.
pub proof fn law_gpt_numbers_grow(device: Seq<u8>)
    requires
        gpt_count(device) <= 255,
    ensures
        gpt_data(device) matches Found::Value(parts) ==> numbers_grow(parts),
{
    if let Some(header) = bytes_at(device, GPT_HEADER + 0x48, 16) {
        assert(header.subrange(8, 12) =~= device.subrange(0x250, 0x254));
        lemma_gpt_entries_numbers(
            device,
            0x200 * le_number(header.subrange(0, 8)) as int,
            0,
            le_number(header.subrange(8, 12)) as int,
            le_number(header.subrange(12, 16)) as int,
            Seq::empty(),
        );
    }
}

} // verus!
