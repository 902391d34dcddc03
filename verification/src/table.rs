//! What the readers of partition tables share: how they ask for the bytes of a
//! device, and how far they have come.

use vstd::prelude::*;
use vstd::slice::slice_subrange;

verus! {

/// Why a partition table could not be read.
#[derive(Debug, Clone, Copy, PartialEq, Eq, Structural)]
pub enum TableError {
    /// The device has no GPT header where there should be one.
    NotGpt,
    /// Bytes that are needed could not be read.
    Unreadable,
}

/// Bytes of a device that a reader needs.
#[derive(Debug, Clone, Copy, PartialEq, Eq, Structural)]
pub struct Request {
    pub offset: u64,
    pub len: usize,
}

/// How far a reader has come.
#[derive(Debug, PartialEq, Eq)]
pub enum Progress<R, T> {
    /// The reader needs more bytes.
    More(R),
    /// The reader has found this.
    Done(T),
    /// The table cannot be read.
    Failed(TableError),
    /// A place or size in the table is too large to be computed.
    Overflow,
}

/// What a reader finds on a device in the end.
pub enum Found<T> {
    Value(T),
    Failed(TableError),
    Overflow,
}

/// The bytes of a device at a place, if it has them all. A place may lie
/// behind the end of the device as long as no byte is taken from there.
pub open spec fn bytes_at(device: Seq<u8>, offset: int, len: int) -> Option<Seq<u8>> {
    if len == 0 {
        Some(Seq::empty())
    } else if offset + len <= device.len() {
        Some(device.subrange(offset, offset + len))
    } else {
        None
    }
}

/// Whether a device of this content answers a request so.
pub open spec fn answers(device: Seq<u8>, request: Request, reply: Option<&[u8]>) -> bool {
    &&& device.len() <= u64::MAX
    &&& match reply {
        Some(bytes) => bytes_at(device, request.offset as int, request.len as int) == Some(bytes@),
        None => bytes_at(device, request.offset as int, request.len as int) is None,
    }
}

/// Whether a reply has the length that was asked for.
pub open spec fn fits_request(request: Request, reply: Option<&[u8]>) -> bool {
    reply matches Some(bytes) ==> bytes@.len() == request.len
}

/// What a device in memory answers to a request.
pub(crate) fn read_slice(device: &[u8], request: Request) -> (r: Option<&[u8]>)
    requires
        request.len <= 1024,
    ensures
        answers(device@, request, r),
{
    let total: usize = device.len();
    if request.len == 0 {
        let none: &[u8] = slice_subrange(device, 0, 0);
        assert(none@ =~= Seq::empty());
        Some(none)
    } else if request.offset <= total as u64 && request.len <= total - request.offset as usize {
        let at: usize = request.offset as usize;
        Some(slice_subrange(device, at, at + request.len))
    } else {
        None
    }
}

} // verus!
