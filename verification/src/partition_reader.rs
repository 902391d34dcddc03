//! Reading the partitions of a device from its own partition tables.
//!
//! A reader says which bytes of the device it needs next and is resumed with
//! them. The functions on slices run a reader on a device that lies in memory.

use crate::gpt::{checked_gpt_data, gpt_data, GptPhase, GptReader};
use crate::mbr::{get_mbr_data, mbr_data, MbrReader};
use crate::part::{part_views, Part, PartView};
use crate::table::{answers, fits_request, Found, Progress, Request, TableError};
use vstd::prelude::*;

verus! {

/// Whether an array holds a default value in each place.
pub open spec fn is_default_array<B: Default, const N: usize>(b: [B; N]) -> bool {
    exists|v: B| #[trigger]
        call_ensures(B::default, (), v) && forall|i: int| 0 <= i < N ==> b@[i] == v
}

/// Calls `fun` on an array of default values, and returns what `fun` returns.
pub fn temp_buf<T, B: Default + Copy, const N: usize, F: FnOnce([B; N]) -> T>(fun: F) -> (r: T)
    requires
        forall|b: [B; N]| is_default_array(b) ==> #[trigger] call_requires(fun, (b,)),
    ensures
        exists|b: [B; N]| is_default_array(b) && #[trigger] call_ensures(fun, (b,), r),
{
    let v: B = B::default();
    let b: [B; N] = [v; N];
    assert(is_default_array(b));
    fun(b)
}

/// The partitions of a device: those in its master boot record, unless that
/// only protects a GPT, in which case those in the GPT.
pub open spec fn device_data(device: Seq<u8>) -> Found<Seq<PartView>> {
    match mbr_data(device) {
        Found::Value(Some(parts)) => Found::Value(parts),
        Found::Value(None) => gpt_data(device),
        Found::Failed(e) => Found::Failed(e),
        Found::Overflow => Found::Overflow,
    }
}

/// A reader of whichever table counts.
#[derive(Debug, PartialEq, Eq)]
pub enum DeviceReader {
    Mbr(MbrReader),
    Gpt(GptReader),
}

impl DeviceReader {
    pub open spec fn wf(self) -> bool {
        match self {
            DeviceReader::Mbr(reader) => reader.wf(),
            DeviceReader::Gpt(reader) => reader.wf(),
        }
    }

    /// An upper bound of how many more times the reader can be resumed.
    pub open spec fn remaining(self) -> nat {
        match self {
            DeviceReader::Mbr(reader) => reader.remaining() + 0x2_0000_0003,
            DeviceReader::Gpt(reader) => reader.remaining(),
        }
    }

    /// What the reader finds on a device in the end.
    pub open spec fn outcome(self, device: Seq<u8>) -> Found<Seq<PartView>> {
        match self {
            DeviceReader::Mbr(reader) => match reader.outcome(device) {
                Found::Value(Some(parts)) => Found::Value(parts),
                Found::Value(None) => gpt_data(device),
                Found::Failed(e) => Found::Failed(e),
                Found::Overflow => Found::Overflow,
            },
            DeviceReader::Gpt(reader) => reader.outcome(device),
        }
    }

    pub open spec fn spec_request(self) -> Request {
        match self {
            DeviceReader::Mbr(reader) => reader.spec_request(),
            DeviceReader::Gpt(reader) => reader.spec_request(),
        }
    }

    /// A reader that has read nothing yet.
    pub fn start() -> (r: DeviceReader)
        ensures
            r.wf(),
            forall|device: Seq<u8>| #[trigger] r.outcome(device) == device_data(device),
    {
        DeviceReader::Mbr(MbrReader::start())
    }

    /// The bytes that the reader needs next.
    pub fn request(&self) -> (r: Request)
        requires
            self.wf(),
        ensures
            r == self.spec_request(),
    {
        match self {
            DeviceReader::Mbr(reader) => reader.request(),
            DeviceReader::Gpt(reader) => reader.request(),
        }
    }

    /// Goes on with the bytes that were asked for, or without them where they
    /// could not be read.
    pub fn resume(self, reply: Option<&[u8]>) -> (r: Progress<DeviceReader, Vec<Part>>)
        requires
            self.wf(),
            fits_request(self.spec_request(), reply),
        ensures
            reply is None ==> r == Progress::<DeviceReader, Vec<Part>>::Failed(
                match self {
                    DeviceReader::Gpt(GptReader { phase: GptPhase::Signature, .. }) =>
                        TableError::NotGpt,
                    _ => TableError::Unreadable,
                },
            ),
            r matches Progress::More(next) ==> next.wf() && next.remaining() < self.remaining(),
            forall|device: Seq<u8>|
                answers(device, self.spec_request(), reply) ==> device_outcome(r, device)
                    == #[trigger] self.outcome(device),
    {
        match self {
            DeviceReader::Mbr(reader) => {
                match reader.resume(reply) {
                    Progress::More(next) => Progress::More(DeviceReader::Mbr(next)),
                    Progress::Done(None) => Progress::More(DeviceReader::Gpt(GptReader::start())),
                    Progress::Done(Some(parts)) => Progress::Done(parts),
                    Progress::Failed(e) => Progress::Failed(e),
                    Progress::Overflow => Progress::Overflow,
                }
            },
            DeviceReader::Gpt(reader) => {
                match reader.resume(reply) {
                    Progress::More(next) => Progress::More(DeviceReader::Gpt(next)),
                    Progress::Done(parts) => Progress::Done(parts),
                    Progress::Failed(e) => Progress::Failed(e),
                    Progress::Overflow => Progress::Overflow,
                }
            },
        }
    }
}

/// What a reader that has come so far finds on a device in the end.
pub open spec fn device_outcome(
    p: Progress<DeviceReader, Vec<Part>>,
    device: Seq<u8>,
) -> Found<Seq<PartView>> {
    match p {
        Progress::More(reader) => reader.outcome(device),
        Progress::Done(parts) => Found::Value(part_views(parts@)),
        Progress::Failed(e) => Found::Failed(e),
        Progress::Overflow => Found::Overflow,
    }
}

/// The partitions of a device that lies in memory; `None` where a place or size
/// in its GPT is too large to be computed.
pub fn checked_device_parts(device: &[u8]) -> (r: Option<Result<Vec<Part>, TableError>>)
    ensures
        match r {
            Some(Ok(parts)) => device_data(device@) == Found::Value(part_views(parts@)),
            Some(Err(e)) => device_data(device@) == Found::<Seq<PartView>>::Failed(e),
            None => device_data(device@) == Found::<Seq<PartView>>::Overflow,
        },
{
    match get_mbr_data(device) {
        Err(e) => Some(Err(e)),
        Ok(None) => checked_gpt_data(device),
        Ok(Some(parts)) => Some(Ok(parts)),
    }
}

/// The partitions of a device that lies in memory.
pub fn get_device_parts(device: &[u8]) -> (r: Result<Vec<Part>, TableError>)
    requires
        !(device_data(device@) is Overflow),
    ensures
        match r {
            Ok(parts) => device_data(device@) == Found::Value(part_views(parts@)),
            Err(e) => device_data(device@) == Found::<Seq<PartView>>::Failed(e),
        },
{
    match checked_device_parts(device) {
        Some(found) => found,
        None => Err(TableError::Unreadable),
    }
}

} // verus!
