//! The partitions in a master boot record.

use crate::bytes::{le_number, read_le};
use crate::guid::Uuid;
use crate::part::{
    numbers_grow, part_views, Part, PartView, ESP_UUID, LBA_SIZE, LINUX_DATA_TYPE, MS_BASIC_TYPE,
};
use crate::table::{
    answers, bytes_at, fits_request, read_slice, Found, Progress, Request, TableError,
};
use vstd::prelude::*;

verus! {

/// Where the record of a partition begins.
pub open spec fn mbr_record(i: int) -> int {
    446 + 16 * i
}

/// The partition type that stands for a system identifier.
pub open spec fn mbr_type(os_type: u8) -> Uuid {
    if os_type == 0x82 || os_type == 0x84 {
        Uuid { value: LINUX_DATA_TYPE }
    } else if os_type == 0xEF {
        Uuid { value: ESP_UUID }
    } else {
        Uuid { value: MS_BASIC_TYPE }
    }
}

/// The partition in a record, from its boot flag, its system identifier and
/// its last eight bytes.
pub open spec fn mbr_part(i: int, flag_boot: bool, os_type: u8, extent: Seq<u8>) -> PartView {
    PartView {
        number: (i + 1) as u8,
        start: (le_number(extent.subrange(0, 4)) * LBA_SIZE) as u64,
        size: (le_number(extent.subrange(4, 8)) * LBA_SIZE) as u64,
        type_uuid: mbr_type(os_type),
        part_uuid: Uuid { value: 0 },
        name: Seq::empty(),
        flag_boot,
        flag_esp: mbr_type(os_type).value == ESP_UUID,
    }
}

/// What the records from number `i` on hold, behind the partitions that the
/// records before hold: nothing at all if one of them protects a GPT.
pub open spec fn mbr_records(device: Seq<u8>, i: int, before: Seq<PartView>) -> Found<
    Option<Seq<PartView>>,
>
    decreases 4 - i,
{
    if i >= 4 {
        Found::Value(Some(before))
    } else {
        match bytes_at(device, mbr_record(i), 5) {
            None => Found::Failed(TableError::Unreadable),
            Some(head) => if head[4] == 0xEE {
                Found::Value(None)
            } else {
                match bytes_at(device, mbr_record(i) + 8, 8) {
                    None => Found::Failed(TableError::Unreadable),
                    Some(extent) => mbr_records(
                        device,
                        i + 1,
                        mbr_with(before, i, head[0] >= 128, head[4], extent),
                    ),
                }
            },
        }
    }
}

/// A list of partitions with the one in a record added, if the record is used.
pub open spec fn mbr_with(
    before: Seq<PartView>,
    i: int,
    flag_boot: bool,
    os_type: u8,
    extent: Seq<u8>,
) -> Seq<PartView> {
    if le_number(extent.subrange(4, 8)) == 0 {
        before
    } else {
        before.push(mbr_part(i, flag_boot, os_type, extent))
    }
}

/// The partitions in the master boot record of a device; nothing at all if it
/// only protects a GPT.
pub open spec fn mbr_data(device: Seq<u8>) -> Found<Option<Seq<PartView>>> {
    mbr_records(device, 0, Seq::empty())
}

/// A reader of a master boot record.
#[derive(Debug, PartialEq, Eq)]
pub struct MbrReader {
    /// The number of records that have been read.
    pub index: u8,
    /// The boot flag and system identifier of a record of which only these
    /// have been read.
    pub head: Option<(bool, u8)>,
    /// The partitions that have been found.
    pub parts: Vec<Part>,
}

impl MbrReader {
    pub open spec fn wf(self) -> bool {
        self.index < 4
    }

    /// How many more times the reader can be resumed.
    pub open spec fn remaining(self) -> nat {
        (if self.head is Some {
            7 - 2 * self.index
        } else {
            8 - 2 * self.index
        }) as nat
    }

    /// What the reader finds on a device in the end.
    pub open spec fn outcome(self, device: Seq<u8>) -> Found<Option<Seq<PartView>>> {
        let i = self.index as int;
        let before = part_views(self.parts@);
        match self.head {
            None => mbr_records(device, i, before),
            Some((flag_boot, os_type)) => match bytes_at(device, mbr_record(i) + 8, 8) {
                None => Found::Failed(TableError::Unreadable),
                Some(extent) => mbr_records(
                    device,
                    i + 1,
                    mbr_with(before, i, flag_boot, os_type, extent),
                ),
            },
        }
    }

    pub open spec fn spec_request(self) -> Request {
        match self.head {
            None => Request { offset: mbr_record(self.index as int) as u64, len: 5 },
            Some(_) => Request { offset: (mbr_record(self.index as int) + 8) as u64, len: 8 },
        }
    }

    /// A reader that has read nothing yet.
    pub fn start() -> (r: MbrReader)
        ensures
            r.wf(),
            forall|device: Seq<u8>| #[trigger] r.outcome(device) == mbr_data(device),
    {
        let parts: Vec<Part> = Vec::new();
        assert(part_views(parts@) =~= Seq::empty());
        MbrReader { index: 0, head: None, parts }
    }

    /// The bytes that the reader needs next.
    pub fn request(&self) -> (r: Request)
        requires
            self.wf(),
        ensures
            r == self.spec_request(),
    {
        let at: u64 = 446 + 16 * (self.index as u64);
        match self.head {
            None => Request { offset: at, len: 5 },
            Some(_) => Request { offset: at + 8, len: 8 },
        }
    }

    /// Goes on with the bytes that were asked for, or without them where they
    /// could not be read.
    pub fn resume(self, reply: Option<&[u8]>) -> (r: Progress<MbrReader, Option<Vec<Part>>>)
        requires
            self.wf(),
            fits_request(self.spec_request(), reply),
        ensures
            reply is None ==> r == Progress::<MbrReader, Option<Vec<Part>>>::Failed(
                TableError::Unreadable,
            ),
            r matches Progress::More(next) ==> next.wf() && next.remaining() < self.remaining(),
            !(r is Overflow),
            forall|device: Seq<u8>|
                answers(device, self.spec_request(), reply) ==> mbr_outcome(r, device)
                    == #[trigger] self.outcome(device),
    {
        let bytes: &[u8] = match reply {
            None => {
                return Progress::Failed(TableError::Unreadable);
            },
            Some(bytes) => bytes,
        };
        let MbrReader { index, head, mut parts } = self;
        match head {
            None => {
                if bytes[4] == 0xEE {
                    return Progress::Done(None);
                }
                let flag_boot: bool = (bytes[0] / 128) % 2 == 1;
                Progress::More(MbrReader { index, head: Some((flag_boot, bytes[4])), parts })
            },
            Some((flag_boot, os_type)) => {
                let start_lba: u64 = read_le(bytes, 0, 4);
                let size_in_lba: u64 = read_le(bytes, 4, 4);
                let ghost before = part_views(parts@);
                if size_in_lba != 0 {
                    let type_value: u128 = match os_type {
                        0x07 | 0x0F | 0x27 => MS_BASIC_TYPE,
                        0x82 | 0x84 => LINUX_DATA_TYPE,
                        0xEF => ESP_UUID,
                        _ => MS_BASIC_TYPE,
                    };
                    let part: Part = Part {
                        number: index + 1,
                        start: start_lba * LBA_SIZE,
                        size: size_in_lba * LBA_SIZE,
                        type_uuid: Uuid { value: type_value },
                        part_uuid: Uuid::nil(),
                        name: String::new(),
                        flag_boot,
                        flag_esp: type_value == ESP_UUID,
                    };
                    let ghost added = part@;
                    parts.push(part);
                    assert(part_views(parts@) =~= before.push(added));
                    assert(added == mbr_part(index as int, flag_boot, os_type, bytes@));
                }
                assert(part_views(parts@) == mbr_with(
                    before,
                    index as int,
                    flag_boot,
                    os_type,
                    bytes@,
                ));
                if index == 3 {
                    Progress::Done(Some(parts))
                } else {
                    Progress::More(MbrReader { index: index + 1, head: None, parts })
                }
            },
        }
    }
}

/// What a reader of a master boot record that has come so far finds on a device
/// in the end.
pub open spec fn mbr_outcome(
    p: Progress<MbrReader, Option<Vec<Part>>>,
    device: Seq<u8>,
) -> Found<Option<Seq<PartView>>> {
    match p {
        Progress::More(reader) => reader.outcome(device),
        Progress::Done(Some(parts)) => Found::Value(Some(part_views(parts@))),
        Progress::Done(None) => Found::Value(None),
        Progress::Failed(e) => Found::Failed(e),
        Progress::Overflow => Found::Overflow,
    }
}

/// The partitions in the master boot record of a device that lies in memory;
/// `Ok(None)` if it only protects a GPT.
pub fn get_mbr_data(device: &[u8]) -> (r: Result<Option<Vec<Part>>, TableError>)
    ensures
        match r {
            Ok(Some(parts)) => mbr_data(device@) == Found::Value(Some(part_views(parts@))),
            Ok(None) => mbr_data(device@) == Found::Value(None::<Seq<PartView>>),
            Err(e) => mbr_data(device@) == Found::<Option<Seq<PartView>>>::Failed(e),
        },
{
    let mut reader: MbrReader = MbrReader::start();
    loop
        invariant
            reader.wf(),
            reader.outcome(device@) == mbr_data(device@),
        decreases reader.remaining(),
    {
        let reply: Option<&[u8]> = read_slice(device, reader.request());
        match reader.resume(reply) {
            Progress::More(next) => {
                reader = next;
            },
            Progress::Done(found) => {
                return Ok(found);
            },
            Progress::Failed(e) => {
                return Err(e);
            },
            Progress::Overflow => {
                return Err(TableError::Unreadable);
            },
        }
    }
}

// Laws.

/// What holds of every partition that a master boot record gives.
pub open spec fn is_mbr_part(p: PartView) -> bool {
    &&& 1 <= p.number <= 4
    &&& p.size > 0
    &&& p.size % LBA_SIZE == 0
    &&& p.start % LBA_SIZE == 0
    &&& p.part_uuid.value == 0
    &&& p.name.len() == 0
    &&& p.flag_esp == (p.type_uuid.value == ESP_UUID)
    &&& p.type_uuid.value == ESP_UUID || p.type_uuid.value == MS_BASIC_TYPE || p.type_uuid.value
        == LINUX_DATA_TYPE
}

proof fn lemma_le_number_4(b: Seq<u8>)
    requires
        b.len() == 4,
    ensures
        le_number(b) < 0x1_0000_0000,
{
    reveal_with_fuel(le_number, 5);
}

proof fn lemma_mbr_records_parts(device: Seq<u8>, i: int, before: Seq<PartView>)
    requires
        0 <= i <= 4,
        before.len() <= i,
        forall|k: int| 0 <= k < before.len() ==> is_mbr_part(#[trigger] before[k]),
        forall|k: int| 0 <= k < before.len() ==> (#[trigger] before[k]).number <= i,
        numbers_grow(before),
    ensures
        mbr_records(device, i, before) matches Found::Value(Some(parts)) ==> {
            &&& parts.len() <= 4
            &&& forall|k: int| 0 <= k < parts.len() ==> is_mbr_part(#[trigger] parts[k])
            &&& numbers_grow(parts)
        },
    decreases 4 - i,
{
    if i < 4 {
        if let Some(head) = bytes_at(device, mbr_record(i), 5) {
            if let Some(extent) = bytes_at(device, mbr_record(i) + 8, 8) {
                lemma_le_number_4(extent.subrange(0, 4));
                lemma_le_number_4(extent.subrange(4, 8));
                let after = mbr_with(before, i, head[0] >= 128, head[4], extent);
                lemma_mbr_records_parts(device, i + 1, after);
            }
        }
    }
}

/// A master boot record gives at most four partitions, numbered from 1 to 4 in
/// growing order. Each is made of whole blocks, at least one of them, has no
/// name and no identifier, and is an EFI system partition exactly if its flag
/// says so.
pub proof fn law_mbr_parts(device: Seq<u8>)
    ensures
        mbr_data(device) matches Found::Value(Some(parts)) ==> {
            &&& parts.len() <= 4
            &&& forall|k: int| 0 <= k < parts.len() ==> is_mbr_part(#[trigger] parts[k])
            &&& numbers_grow(parts)
        },
{
    lemma_mbr_records_parts(device, 0, Seq::empty());
}

/// The system identifier in record `i`.
pub open spec fn mbr_os_type(device: Seq<u8>, i: int) -> u8 {
    device[mbr_record(i) + 4]
}

proof fn lemma_mbr_records_protective(device: Seq<u8>, i: int, before: Seq<PartView>)
    requires
        0 <= i <= 4,
        device.len() >= 510,
    ensures
        match mbr_records(device, i, before) {
            Found::Value(None) => exists|k: int|
                i <= k < 4 && #[trigger] mbr_os_type(device, k) == 0xEE,
            Found::Value(Some(_)) => forall|k: int|
                i <= k < 4 ==> #[trigger] mbr_os_type(device, k) != 0xEE,
            _ => false,
        },
    decreases 4 - i,
{
    if i < 4 {
        let head = bytes_at(device, mbr_record(i), 5)->0;
        assert(head[4] == mbr_os_type(device, i));
        let extent = bytes_at(device, mbr_record(i) + 8, 8)->0;
        lemma_mbr_records_protective(
            device,
            i + 1,
            mbr_with(before, i, head[0] >= 128, head[4], extent),
        );
    }
}

/// Where a device has the four records of a master boot record, it can be read,
/// and it protects a GPT exactly if one of the records says so.
pub proof fn law_mbr_is_protective(device: Seq<u8>)
    requires
        device.len() >= 510,
    ensures
        mbr_data(device) is Value,
        mbr_data(device) == Found::Value(None::<Seq<PartView>>) <==> exists|k: int|
            0 <= k < 4 && #[trigger] mbr_os_type(device, k) == 0xEE,
{
    lemma_mbr_records_protective(device, 0, Seq::empty());
}

proof fn lemma_mbr_records_prefix(device: Seq<u8>, i: int, before: Seq<PartView>)
    requires
        0 <= i <= 4,
        device.len() >= 510,
    ensures
        mbr_records(device, i, before) == mbr_records(device.take(510), i, before),
    decreases 4 - i,
{
    if i < 4 {
        let first = device.take(510);
        assert(bytes_at(device, mbr_record(i), 5)->0 =~= bytes_at(first, mbr_record(i), 5)->0);
        assert(bytes_at(device, mbr_record(i) + 8, 8)->0 =~= bytes_at(
            first,
            mbr_record(i) + 8,
            8,
        )->0);
        let head = bytes_at(device, mbr_record(i), 5)->0;
        let extent = bytes_at(device, mbr_record(i) + 8, 8)->0;
        lemma_mbr_records_prefix(
            device,
            i + 1,
            mbr_with(before, i, head[0] >= 128, head[4], extent),
        );
    }
}

/// What a master boot record gives depends on the first 510 bytes alone.
pub proof fn law_mbr_lies_in_first_block(device: Seq<u8>)
    requires
        device.len() >= 510,
    ensures
        mbr_data(device) == mbr_data(device.take(510)),
{
    lemma_mbr_records_prefix(device, 0, Seq::empty());
}

} // verus!
