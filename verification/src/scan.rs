//! Scanning one archive file for dropped items.

use vstd::prelude::*;
use vstd::string::*;
use crate::archive::{chunk_payloads, payload_views, payloads_of, SECTOR_BYTES};
use crate::decode::{decode_error_text, decode_value, decoded, dump_text, tree_of};
use crate::diagnostics::{
    describe,
    description,
    dump_file_name,
    dump_name,
    local_stamp,
    malformed_message,
    malformed_text,
    undecodable_message,
    undecodable_text,
};
use crate::extract::{
    dropped_items_of,
    extract_dropped_items,
    item_drop_id,
    item_views,
    lemma_no_item_drops_no_records,
    DroppedItem,
    DroppedItemView,
};
use crate::schema::{entities_of, map_entities, SchemaError};
use crate::tree::{Node, Tag};

verus! {

/// Why a chunk gave no records.
#[derive(Debug, PartialEq, Eq)]
pub enum ChunkFailure {
    /// The payload holds no tagged tree.
    Undecodable { reason: String },
    /// The payload holds a tree that is no list of entities. `dump` is the
    /// tree, written out for a reader.
    Malformed { error: SchemaError, dump: String },
}

/// The end of a scan on a chunk that gave no records.
#[derive(Debug, PartialEq, Eq)]
pub struct Halt {
    /// The position of the chunk among the payloads of the archive.
    pub chunk: usize,
    pub failure: ChunkFailure,
    /// What to tell the operator.
    pub message: String,
    /// The name of the file that the dump is to be written to, where there
    /// is a dump.
    pub dump_file: Option<String>,
}

/// What the scan of one file came to.
#[derive(Debug, PartialEq, Eq)]
pub enum FileScan {
    /// The records of all chunks, in the order of the chunks.
    Items(Vec<DroppedItem>),
    /// The file is no archive. The scan of other files goes on.
    Skipped { reason: String },
    /// A chunk gave no records. The whole run ends here.
    Halted(Halt),
}

impl FileScan {
    /// What a file adds to the run: its records, nothing where it was
    /// skipped, or the halt that ends the run.
    pub fn contribution(self) -> (r: Result<Vec<DroppedItem>, Halt>)
        ensures
            match self {
                FileScan::Items(items) => r == Ok::<Vec<DroppedItem>, Halt>(items),
                FileScan::Skipped { .. } => r matches Ok(items) && items@.len() == 0,
                FileScan::Halted(halt) => r == Err::<Vec<DroppedItem>, Halt>(halt),
            },
    {
        match self {
            FileScan::Items(items) => Ok(items),
            FileScan::Skipped { .. } => Ok(Vec::new()),
            FileScan::Halted(halt) => Err(halt),
        }
    }
}

/// Why a chunk gives no records, apart from the words for it.
pub enum Cause {
    Undecodable,
    Malformed(SchemaError),
}

/// What the scan of the payloads of an archive comes to.
pub enum ScanOutcome {
    Items(Seq<DroppedItemView>),
    Halted { chunk: int, cause: Cause },
}

impl ChunkFailure {
    pub open spec fn cause(self) -> Cause {
        match self {
            ChunkFailure::Undecodable { .. } => Cause::Undecodable,
            ChunkFailure::Malformed { error, .. } => Cause::Malformed(error),
        }
    }
}

/// The records in a decoded chunk of the archive `file`.
pub open spec fn items_of(tree: Node, file: Seq<char>) -> Result<Seq<DroppedItemView>, SchemaError> {
    match entities_of(tree) {
        Ok(entities) => Ok(dropped_items_of(entities, file)),
        Err(e) => Err(e),
    }
}

/// What one payload gives: the records of the tree that it decodes to, or
/// the cause for which it gives none.
pub open spec fn chunk_outcome(payload: Seq<u8>, file: Seq<char>) -> Result<
    Seq<DroppedItemView>,
    Cause,
> {
    match decoded(payload) {
        None => Err(Cause::Undecodable),
        Some(tree) => match items_of(tree, file) {
            Ok(items) => Ok(items),
            Err(e) => Err(Cause::Malformed(e)),
        },
    }
}

/// Whether payload `k` is the first that gives no records.
pub open spec fn is_first_failure(payloads: Seq<Seq<u8>>, file: Seq<char>, k: int) -> bool {
    &&& 0 <= k < payloads.len()
    &&& chunk_outcome(payloads[k], file) is Err
    &&& forall|j: int| 0 <= j < k ==> chunk_outcome(#[trigger] payloads[j], file) is Ok
}

/// The records of each payload, one payload after the other.
pub open spec fn records_by_chunk(payloads: Seq<Seq<u8>>, file: Seq<char>) -> Seq<
    Seq<DroppedItemView>,
> {
    Seq::new(payloads.len(), |k: int| chunk_outcome(payloads[k], file)->Ok_0)
}

/// The scan halts at the first payload that gives no records. Where every
/// payload gives some, or none for want of item drops, the records of all
/// are the result, in the order of the payloads.
pub open spec fn scan_outcome(payloads: Seq<Seq<u8>>, file: Seq<char>) -> ScanOutcome {
    if exists|k: int| is_first_failure(payloads, file, k) {
        let k = choose|k: int| is_first_failure(payloads, file, k);
        ScanOutcome::Halted { chunk: k, cause: chunk_outcome(payloads[k], file)->Err_0 }
    } else {
        ScanOutcome::Items(records_by_chunk(payloads, file).flatten())
    }
}

/// Whether the message and the dump file of a halt are those that its
/// failure calls for. The name of the dump file carries a time stamp, of
/// which nothing is said.
pub open spec fn halt_is_worded(halt: Halt) -> bool {
    match halt.failure {
        ChunkFailure::Undecodable { reason } => {
            &&& halt.dump_file is None
            &&& halt.message@ == undecodable_text(reason@)
        },
        ChunkFailure::Malformed { error, .. } => {
            &&& halt.dump_file is Some
            &&& exists|stamp: Seq<char>| halt.dump_file->Some_0@ == #[trigger] dump_name(stamp)
            &&& halt.message@ == malformed_text(description(error), halt.dump_file->Some_0@)
        },
    }
}

/// Whether a scan is the one that the payloads of an archive call for.
pub open spec fn scan_matches(scan: FileScan, outcome: ScanOutcome) -> bool {
    match scan {
        FileScan::Items(items) => outcome == ScanOutcome::Items(item_views(items@)),
        FileScan::Skipped { .. } => false,
        FileScan::Halted(halt) => {
            &&& outcome == (ScanOutcome::Halted {
                chunk: halt.chunk as int,
                cause: halt.failure.cause(),
            })
            &&& halt_is_worded(halt)
        },
    }
}

/// Reads a decoded chunk as a list of entities and selects the item drops.
pub fn items_in_tree(tree: &Tag, entity_file: &str) -> (r: Result<Vec<DroppedItem>, SchemaError>)
    ensures
        match r {
            Ok(items) => items_of(tree@, entity_file@) == Ok::<Seq<DroppedItemView>, SchemaError>(
                item_views(items@),
            ),
            Err(e) => items_of(tree@, entity_file@) == Err::<Seq<DroppedItemView>, SchemaError>(e),
        },
{
    match map_entities(tree) {
        Ok(entities) => Ok(extract_dropped_items(&entities, entity_file)),
        Err(e) => Err(e),
    }
}

/// Decodes one chunk payload and selects the item drops in it.
///
/// A payload that holds no tagged tree is undecodable. One that holds a tree
/// gives the records of that tree, or is malformed where the tree is no list
/// of entities.
pub fn scan_chunk(payload: &[u8], entity_file: &str) -> (r: Result<Vec<DroppedItem>, ChunkFailure>)
    ensures
        match r {
            Ok(items) => chunk_outcome(payload@, entity_file@) == Ok::<Seq<DroppedItemView>, Cause>(
                item_views(items@),
            ),
            Err(failure) => chunk_outcome(payload@, entity_file@) == Err::<
                Seq<DroppedItemView>,
                Cause,
            >(failure.cause()),
        },
{
    let value = match decode_value(payload) {
        Err(e) => {
            return Err(ChunkFailure::Undecodable { reason: decode_error_text(&e) });
        },
        Ok(value) => value,
    };
    let tree = tree_of(&value);
    match items_in_tree(&tree, entity_file) {
        Ok(items) => Ok(items),
        Err(error) => Err(ChunkFailure::Malformed { error, dump: dump_text(&value) }),
    }
}

/// The halt on an undecodable chunk.
pub fn undecodable_halt(chunk: usize, reason: String) -> (halt: Halt)
    ensures
        halt.chunk == chunk,
        halt.failure == (ChunkFailure::Undecodable { reason }),
        halt.dump_file is None,
        halt.message@ == undecodable_text(reason@),
{
    let message = undecodable_message(reason.as_str());
    Halt { chunk, failure: ChunkFailure::Undecodable { reason }, message, dump_file: None }
}

/// The halt on a malformed chunk, with the dump file named after `stamp`.
pub fn malformed_halt(chunk: usize, error: SchemaError, dump: String, stamp: &str) -> (halt: Halt)
    ensures
        halt.chunk == chunk,
        halt.failure == (ChunkFailure::Malformed { error, dump }),
        halt.dump_file is Some,
        halt.dump_file->Some_0@ == dump_name(stamp@),
        halt.message@ == malformed_text(description(error), dump_name(stamp@)),
{
    let name = dump_file_name(stamp);
    let said = describe(&error);
    let message = malformed_message(said.as_str(), name.as_str());
    Halt { chunk, failure: ChunkFailure::Malformed { error, dump }, message, dump_file: Some(name) }
}

/// The halt on a chunk that gave no records. The dump of a malformed chunk
/// gets a file name that carries the local time.
pub fn halt_on(chunk: usize, failure: ChunkFailure) -> (halt: Halt)
    ensures
        halt.chunk == chunk,
        halt.failure == failure,
        halt_is_worded(halt),
{
    match failure {
        ChunkFailure::Undecodable { reason } => undecodable_halt(chunk, reason),
        ChunkFailure::Malformed { error, dump } => {
            let stamp = local_stamp();
            malformed_halt(chunk, error, dump, stamp.as_str())
        },
    }
}

/// Scans the payloads of an archive in order, up to the first that gives no
/// records.
pub fn scan_payloads(payloads: &Vec<Vec<u8>>, entity_file: &str) -> (scan: FileScan)
    ensures
        scan_matches(scan, scan_outcome(payload_views(payloads@), entity_file@)),
{
    let ghost views = payload_views(payloads@);
    let ghost file = entity_file@;
    let mut all: Vec<DroppedItem> = Vec::new();
    let mut k: usize = 0;
    assert(item_views(all@) =~= records_by_chunk(views.take(0), file).flatten());
    while k < payloads.len()
        invariant
            k <= payloads.len(),
            views == payload_views(payloads@),
            file == entity_file@,
            forall|j: int| 0 <= j < k ==> chunk_outcome(#[trigger] views[j], file) is Ok,
            item_views(all@) == records_by_chunk(views.take(k as int), file).flatten(),
        decreases payloads.len() - k,
    {
        assert(views[k as int] == payloads@[k as int]@);
        match scan_chunk(payloads[k].as_slice(), entity_file) {
            Err(failure) => {
                proof {
                    assert(is_first_failure(views, file, k as int));
                    let c = choose|c: int| is_first_failure(views, file, c);
                    assert(c == k);
                }
                let halt = halt_on(k, failure);
                return FileScan::Halted(halt);
            },
            Ok(mut items) => {
                proof {
                    let before = all@;
                    let done = records_by_chunk(views.take(k as int), file);
                    assert(records_by_chunk(views.take(k as int + 1), file) =~= done.push(
                        item_views(items@),
                    ));
                    done.lemma_flatten_push(item_views(items@));
                    assert(item_views(before + items@) =~= item_views(before) + item_views(items@));
                }
                all.append(&mut items);
            },
        }
        k += 1;
    }
    proof {
        assert(views.take(payloads@.len() as int) =~= views);
        assert forall|c: int| !is_first_failure(views, file, c) by {}
    }
    FileScan::Items(all)
}

/// Scans one archive file, given as its name and its bytes, for dropped
/// items.
///
/// A file too short to hold the table of slots is skipped. Otherwise the
/// chunks are scanned in the order of their slots. The records of all chunks
/// are the result, unless a chunk gives none: the scan halts at the first
/// such chunk.
pub fn find_dropped_items_in_entity_file(entity_file: &str, archive: Vec<u8>) -> (scan: FileScan)
    ensures
        scan is Skipped <==> archive@.len() < SECTOR_BYTES,
        archive@.len() >= SECTOR_BYTES ==> scan_matches(
            scan,
            scan_outcome(payloads_of(archive@), entity_file@),
        ),
{
    match chunk_payloads(archive) {
        Err(e) => FileScan::Skipped { reason: e.reason },
        Ok(payloads) => scan_payloads(&payloads, entity_file),
    }
}

/// Whether a payload decodes to a chunk none of whose entities is an item
/// drop.
pub open spec fn holds_no_item_drop(payload: Seq<u8>) -> bool {
    &&& decoded(payload) is Some
    &&& entities_of(decoded(payload)->Some_0) is Ok
    &&& forall|i: int|
        0 <= i < entities_of(decoded(payload)->Some_0)->Ok_0.len() ==> (
        #[trigger] entities_of(decoded(payload)->Some_0)->Ok_0[i]).id != item_drop_id()
}

/// Sequences that are all empty flatten to the empty sequence.
proof fn lemma_flatten_of_empties(parts: Seq<Seq<DroppedItemView>>)
    requires
        forall|k: int| 0 <= k < parts.len() ==> (#[trigger] parts[k]).len() == 0,
    ensures
        parts.flatten() == Seq::<DroppedItemView>::empty(),
    decreases parts.len(),
{
    if parts.len() > 0 {
        lemma_flatten_of_empties(parts.drop_first());
        assert(parts.flatten() =~= Seq::<DroppedItemView>::empty());
    }
}

/// An archive whose chunks all decode, and hold no item drop among their
/// entities, gives no records and no halt.
pub proof fn lemma_no_item_drops_no_report(payloads: Seq<Seq<u8>>, file: Seq<char>)
    requires
        forall|k: int| 0 <= k < payloads.len() ==> holds_no_item_drop(#[trigger] payloads[k]),
    ensures
        scan_outcome(payloads, file) == ScanOutcome::Items(Seq::empty()),
{
    assert forall|k: int| 0 <= k < payloads.len() implies chunk_outcome(
        #[trigger] payloads[k],
        file,
    ) == Ok::<Seq<DroppedItemView>, Cause>(Seq::empty()) by {
        assert(holds_no_item_drop(payloads[k]));
        let entities = entities_of(decoded(payloads[k])->Some_0)->Ok_0;
        lemma_no_item_drops_no_records(entities, file);
    }
    assert forall|c: int| !is_first_failure(payloads, file, c) by {
        if 0 <= c < payloads.len() {
            assert(chunk_outcome(payloads[c], file) is Ok);
        }
    }
    let parts = records_by_chunk(payloads, file);
    assert forall|k: int| 0 <= k < parts.len() implies (#[trigger] parts[k]).len() == 0 by {
        assert(chunk_outcome(payloads[k], file) is Ok);
    }
    lemma_flatten_of_empties(parts);
}

} // verus!
