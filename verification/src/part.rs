//! Partitions.

use crate::guid::Uuid;
use vstd::prelude::*;

verus! {

/// The value of the identifier of the EFI system partition type.
pub const ESP_UUID: u128 = 0xC12A7328_F81F_11D2_BA4B_00A0C93EC93B;

/// The value of the identifier of the Microsoft basic data type.
pub const MS_BASIC_TYPE: u128 = 0xEBD0A0A2_B9E5_4433_87C0_68B6B72699C7;

/// The value of the identifier of the Linux data type.
pub const LINUX_DATA_TYPE: u128 = 0x0FC63DAF_8483_4772_8E79_3D69D8477DE4;

/// The number of bytes in a logical block.
pub const LBA_SIZE: u64 = 512;

/// A partition: where it lies, in bytes, and what it is.
#[derive(Debug, Hash, PartialEq, Eq)]
pub struct Part {
    pub number: u8,
    pub start: u64,
    pub size: u64,
    pub type_uuid: Uuid,
    pub part_uuid: Uuid,
    pub name: String,
    pub flag_boot: bool,
    pub flag_esp: bool,
}

/// A partition as contracts speak of it.
pub struct PartView {
    pub number: u8,
    pub start: u64,
    pub size: u64,
    pub type_uuid: Uuid,
    pub part_uuid: Uuid,
    pub name: Seq<char>,
    pub flag_boot: bool,
    pub flag_esp: bool,
}

impl View for Part {
    type V = PartView;

    open spec fn view(&self) -> PartView {
        PartView {
            number: self.number,
            start: self.start,
            size: self.size,
            type_uuid: self.type_uuid,
            part_uuid: self.part_uuid,
            name: self.name@,
            flag_boot: self.flag_boot,
            flag_esp: self.flag_esp,
        }
    }
}

impl Clone for Part {
    fn clone(&self) -> (r: Part)
        ensures
            r == *self,
    {
        Part {
            number: self.number,
            start: self.start,
            size: self.size,
            type_uuid: self.type_uuid,
            part_uuid: self.part_uuid,
            name: self.name.clone(),
            flag_boot: self.flag_boot,
            flag_esp: self.flag_esp,
        }
    }
}

/// A list of partitions as contracts speak of it.
pub open spec fn part_views(parts: Seq<Part>) -> Seq<PartView> {
    parts.map_values(|p: Part| p@)
}

/// Whether the numbers of partitions grow from each to the next.
pub open spec fn numbers_grow(parts: Seq<PartView>) -> bool {
    forall|a: int, b: int| 0 <= a < b < parts.len() ==> parts[a].number < parts[b].number
}

} // verus!
