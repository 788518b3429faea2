//! Reading the chunk payloads out of a region archive.
//!
//! An archive begins with a table of 1024 entries of four bytes, one for each
//! slot of a grid of 32 by 32. An entry gives the sector at which the chunk
//! of the slot starts and the number of sectors it takes; an entry of zeros
//! marks a slot without a chunk. A chunk begins with its length in four bytes
//! and the compression scheme in one; the compressed payload follows.
//! The archive reader of `fastanvil` does the unpacking.

use vstd::prelude::*;
use fastanvil::Region;
use std::io::Cursor;

verus! {

/// The number of bytes in a sector, and in the table of slots.
pub const SECTOR_BYTES: usize = 4096;

/// The number of slots in an archive.
pub const SLOTS: usize = 1024;

/// The number of slots along one side of the grid.
pub const GRID: usize = 32;

/// `fastanvil::Region`, an archive opened on a stream.
#[verifier::external_type_specification]
#[verifier::external_body]
#[verifier::reject_recursive_types(S)]
pub struct ExRegion<S>(Region<S>);

/// `std::io::Cursor`, a stream over bytes in memory.
#[verifier::external_type_specification]
#[verifier::external_body]
#[verifier::reject_recursive_types(T)]
pub struct ExCursor<T>(Cursor<T>);

/// `fastanvil::Error`, read only for its message.
#[verifier::external_type_specification]
#[verifier::external_body]
pub struct ExRegionError(fastanvil::Error);

/// The bytes of the archive that a region reads from.
pub uninterp spec fn region_bytes(region: Region<Cursor<Vec<u8>>>) -> Seq<u8>;

/// The unpacked payload that `Region::read_chunk` finds at column `x` and
/// row `z` of an archive, or `None` where it finds no chunk or fails on it.
pub uninterp spec fn stored_chunk(archive: Seq<u8>, x: int, z: int) -> Option<Seq<u8>>;

/// The sector at which the chunk of a slot starts, as the table has it.
pub open spec fn sector_offset(archive: Seq<u8>, slot: int) -> int {
    archive[4 * slot] as int * 65536 + archive[4 * slot + 1] as int * 256 + archive[4 * slot
        + 2] as int
}

/// The number of sectors that the chunk of a slot takes, as the table has it.
pub open spec fn sector_count(archive: Seq<u8>, slot: int) -> int {
    archive[4 * slot + 3] as int
}

/// Whether the table marks a slot as one without a chunk.
pub open spec fn slot_is_empty(archive: Seq<u8>, slot: int) -> bool {
    sector_offset(archive, slot) == 0 && sector_count(archive, slot) == 0
}

/// Whether the five bytes at `at` are a chunk header that names a known
/// compression scheme and a length of zero. Such a header contradicts
/// itself: the length counts the scheme byte.
pub open spec fn declares_no_length(archive: Seq<u8>, at: int) -> bool {
    &&& at + 5 <= archive.len()
    &&& archive[at] == 0
    &&& archive[at + 1] == 0
    &&& archive[at + 2] == 0
    &&& archive[at + 3] == 0
    &&& 1 <= archive[at + 4] <= 4
}

/// Whether a slot can be handed to the archive reader: it is empty, or its
/// chunk header does not contradict itself.
pub open spec fn slot_is_readable(archive: Seq<u8>, slot: int) -> bool {
    slot_is_empty(archive, slot) || !declares_no_length(
        archive,
        SECTOR_BYTES * sector_offset(archive, slot),
    )
}

/// The payload of a slot, where it has a readable one.
pub open spec fn slot_payload(archive: Seq<u8>, slot: int) -> Option<Seq<u8>> {
    if slot_is_readable(archive, slot) {
        stored_chunk(archive, slot % (GRID as int), slot / (GRID as int))
    } else {
        None
    }
}

/// The payloads of the first `n` slots, in the order of the slots.
pub open spec fn payloads_before(archive: Seq<u8>, n: int) -> Seq<Seq<u8>>
    decreases n,
{
    if n <= 0 {
        Seq::empty()
    } else {
        match slot_payload(archive, n - 1) {
            Some(payload) => payloads_before(archive, n - 1).push(payload),
            None => payloads_before(archive, n - 1),
        }
    }
}

/// The payloads of an archive, in the order of its slots.
pub open spec fn payloads_of(archive: Seq<u8>) -> Seq<Seq<u8>> {
    payloads_before(archive, SLOTS as int)
}

pub open spec fn payload_views(payloads: Seq<Vec<u8>>) -> Seq<Seq<u8>> {
    payloads.map_values(|p: Vec<u8>| p@)
}

/// Why a file is no archive.
#[derive(Debug, PartialEq, Eq)]
pub struct ArchiveError {
    /// What the archive reader said of the file.
    pub reason: String,
}

/// `Region::from_stream` on a cursor over the bytes. It reads the 1024
/// entries of the table, each at its place, and fails where one cannot be
/// read in full; reading from a cursor fails only at the end of the bytes.
/// So the call succeeds when the table is all there. The region then reads
/// from these bytes.
#[verifier::external_body]
fn open_region(archive: Vec<u8>) -> (r: Result<Region<Cursor<Vec<u8>>>, fastanvil::Error>)
    ensures
        r is Ok <==> archive@.len() >= SECTOR_BYTES,
        r matches Ok(region) ==> region_bytes(region) == archive@,
{
    Region::from_stream(Cursor::new(archive))
}

/// `Region::read_chunk`, with a failure on the chunk taken as no chunk. The
/// call leaves the bytes of the archive as they are. It subtracts one from
/// the length that the chunk header declares once it has accepted the
/// compression scheme, so it is made only where that length is not zero.
#[verifier::external_body]
fn read_slot(region: &mut Region<Cursor<Vec<u8>>>, x: usize, z: usize) -> (payload: Option<
    Vec<u8>,
>)
    requires
        x < GRID,
        z < GRID,
        slot_is_readable(region_bytes(*old(region)), x + GRID * z),
    ensures
        region_bytes(*final(region)) == region_bytes(*old(region)),
        match payload {
            Some(bytes) => stored_chunk(region_bytes(*old(region)), x as int, z as int) == Some(
                bytes@,
            ),
            None => stored_chunk(region_bytes(*old(region)), x as int, z as int) is None,
        },
{
    region.read_chunk(x, z).ok().flatten()
}

/// The message of a `fastanvil::Error`, as its `Display` gives it.
#[verifier::external_body]
fn region_error_text(error: &fastanvil::Error) -> (text: String) {
    error.to_string()
}

/// Whether a slot can be handed to the archive reader.
fn slot_readable(archive: &Vec<u8>, slot: usize) -> (yes: bool)
    requires
        archive@.len() >= 4096,
        slot < 1024,
    ensures
        yes == slot_is_readable(archive@, slot as int),
{
    let entry: usize = 4 * slot;
    let offset: u64 = (archive[entry] as u64) * 65536 + (archive[entry + 1] as u64) * 256 + (
    archive[entry + 2] as u64);
    let sectors: u8 = archive[entry + 3];
    if offset == 0 && sectors == 0 {
        return true;
    }
    let at: u64 = 4096 * offset;
    let len: u64 = archive.len() as u64;
    if at + 5 > len {
        return true;
    }
    let at: usize = at as usize;
    let scheme: u8 = archive[at + 4];
    let no_length = archive[at] == 0 && archive[at + 1] == 0 && archive[at + 2] == 0 && archive[at
        + 3] == 0;
    !(no_length && 1 <= scheme && scheme <= 4)
}

/// For each slot, whether it can be handed to the archive reader.
fn readable_slots(archive: &Vec<u8>) -> (readable: Vec<bool>)
    requires
        archive@.len() >= 4096,
    ensures
        readable@.len() == 1024,
        forall|slot: int|
            0 <= slot < 1024 ==> #[trigger] readable@[slot] == slot_is_readable(archive@, slot),
{
    let mut readable: Vec<bool> = Vec::new();
    let mut slot: usize = 0;
    while slot < SLOTS
        invariant
            slot <= 1024,
            archive@.len() >= 4096,
            readable@.len() == slot,
            forall|s: int|
                0 <= s < slot ==> #[trigger] readable@[s] == slot_is_readable(archive@, s),
        decreases 1024 - slot,
    {
        readable.push(slot_readable(archive, slot));
        slot += 1;
    }
    readable
}

/// Unpacks the chunks of an archive, in the order of its slots.
///
/// A file too short to hold the table of slots is no archive. A slot
/// without a chunk gives nothing, and so does a slot whose chunk cannot be
/// unpacked or whose header contradicts itself.
pub fn chunk_payloads(archive: Vec<u8>) -> (r: Result<Vec<Vec<u8>>, ArchiveError>)
    ensures
        r is Err <==> archive@.len() < SECTOR_BYTES,
        r matches Ok(payloads) ==> payload_views(payloads@) == payloads_of(archive@),
{
    let ghost bytes = archive@;
    let readable = if archive.len() >= SECTOR_BYTES {
        readable_slots(&archive)
    } else {
        Vec::new()
    };
    let mut region = match open_region(archive) {
        Err(e) => {
            return Err(ArchiveError { reason: region_error_text(&e) });
        },
        Ok(region) => region,
    };
    let mut payloads: Vec<Vec<u8>> = Vec::new();
    let mut slot: usize = 0;
    assert(payload_views(payloads@) =~= payloads_before(bytes, 0));
    while slot < SLOTS
        invariant
            slot <= 1024,
            bytes.len() >= 4096,
            region_bytes(region) == bytes,
            readable@.len() == 1024,
            forall|s: int| 0 <= s < 1024 ==> #[trigger] readable@[s] == slot_is_readable(bytes, s),
            payload_views(payloads@) == payloads_before(bytes, slot as int),
        decreases 1024 - slot,
    {
        let ghost before = payloads@;
        if readable[slot] {
            let x: usize = slot % GRID;
            let z: usize = slot / GRID;
            assert(x + 32 * z == slot);
            if let Some(payload) = read_slot(&mut region, x, z) {
                payloads.push(payload);
                assert(payload_views(payloads@) =~= payload_views(before).push(payload@));
            }
        }
        slot += 1;
    }
    Ok(payloads)
}

} // verus!
