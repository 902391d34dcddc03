//! Putting several bootable disk images on one drive: reading the partitions of
//! the images, planning the partitions of the drive, copying the one to the
//! other, and writing the boot menu.

pub mod buffer;
pub mod bytes;
pub mod command;
pub mod command_laws;
pub mod copy;
pub mod copy_laws;
pub mod gpt;
pub mod guid;
pub mod install;
pub mod install_laws;
pub mod json;
pub mod layout;
pub mod layout_laws;
pub mod listing_laws;
pub mod mbr;
pub mod part;
pub mod parted;
pub mod partition_reader;
pub mod plan;
pub mod run_laws;
pub mod sfdisk;
pub mod table;
pub mod table_laws;
pub mod text;
pub mod text_laws;
pub mod tree;
pub mod view_laws;
