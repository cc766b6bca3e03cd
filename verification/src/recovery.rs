//! From a source to the files that can be recovered from it.

use vstd::prelude::*;

use crate::carver::{plan_carves, plans_may, CarvePlan};
use crate::disk::ReadAt;
use crate::filter::{active_among, active_signatures, chosen, passes, TypeFilter};
use crate::options::{chunks_are_whole_blocks, scan_chunk, scan_chunk_size};
use crate::plan_laws::{
    database_can_be_scanned, database_resolves_brands_late, plans_are_ordered_and_apart,
    plans_are_sound,
};
use crate::scan_laws::{database_patterns_are_short, scan_finds_every_match};
use crate::scanner::{chunk_used, patterns_of, scan, scan_may, PatternView, ScanResult};
use crate::signatures::{database, database_is_sound, signature_table, views, Signature, Validator};

verus! {

/// The patterns that are scanned for if only types that `filter` lets through
/// are wanted.
pub open spec fn wanted_patterns(filter: Option<Set<Seq<char>>>) -> Seq<PatternView> {
    patterns_of(
        signature_table(),
        active_among(signature_table(), filter, signature_table().len() as int),
    )
}

/// Scans the first `size` bytes of a source for all signatures that can lead to
/// a type that `filter` lets through, and plans the recovery of what was found.
pub fn find_files<R: ReadAt + ?Sized, F: FnMut(u64, usize)>(
    reader: &R,
    size: u64,
    block_size: u64,
    max_size: u64,
    filter: &Option<TypeFilter>,
    progress: F,
) -> (found: (ScanResult, Vec<CarvePlan>))
    requires
        0 < block_size <= isize::MAX - 16,
        forall|done: u64, headers: usize|
            done <= size ==> call_requires(progress, (done, headers)),
    ensures
        exists|seen: Seq<u8>|
            #[trigger] scan_may(
                reader,
                size as int,
                block_size as int,
                scan_chunk(block_size as int),
                wanted_patterns(chosen(*filter)),
                progress,
                seen,
                found.0,
            ),
        plans_may(
            reader,
            size as int,
            found.0.headers@,
            found.0.footers@,
            signature_table(),
            max_size as int,
            chosen(*filter),
            found.1@,
        ),
        forall|i: int, j: int|
            0 <= i < j < found.1@.len() && (#[trigger] found.1@[i]).file_type@ == (
            #[trigger] found.1@[j]).file_type@ ==> found.1@[i].offset + found.1@[i].size
                <= found.1@[j].offset,
        forall|k: int|
            0 <= k < found.1@.len() ==> {
                &&& (#[trigger] found.1@[k]).offset + found.1@[k].size <= size
                &&& found.1@[k].size <= max_size
                &&& passes(chosen(*filter), found.1@[k].file_type@)
            },
{
    let db: &'static [Signature] = database();
    let active: Vec<usize> = active_signatures(db, filter);
    let chunk: u64 = scan_chunk_size(block_size);
    proof {
        database_can_be_scanned(chosen(*filter));
        database_patterns_are_short(active@);
        database_is_sound();
        database_resolves_brands_late();
        chunks_are_whole_blocks(block_size as int);
    }
    let scanned: ScanResult = scan(reader, size, block_size, chunk, db, &active, progress);
    let ghost seen: Seq<u8> = choose|seen: Seq<u8>| #[trigger]
        scan_may(
            reader,
            size as int,
            block_size as int,
            chunk as int,
            patterns_of(views(db@), active@),
            progress,
            seen,
            scanned,
        );
    proof {
        let used = chunk_used(block_size as int, chunk as int);
        assert forall|i: int| 0 <= i < scanned.headers@.len() implies (
        #[trigger] scanned.headers@[i]).1 < db@.len() by {
            let hit = scanned.headers@[i];
            scan_finds_every_match(seen, views(db@), active@, false, used, hit);
            assert(scanned.headers@.contains(hit));
            let k = active@.index_of(hit.1);
            assert(active@[k] == hit.1);
        }
        assert forall|s: int| 0 <= s < db@.len() && (#[trigger] db@[s]).validator
            == Validator::Tiff implies db@[s].header@.len() > 0 by {
            assert(views(db@)[s] == db@[s]@);
            assert(signature_table()[s].header.len() > 0);
        }
    }
    let plans: Vec<CarvePlan> = plan_carves(reader, size, &scanned, db, max_size, filter);
    proof {
        plans_are_sound(
            reader,
            size as int,
            scanned.headers@,
            scanned.footers@,
            views(db@),
            max_size as int,
            chosen(*filter),
            plans@,
        );
        plans_are_ordered_and_apart(
            reader,
            size as int,
            scanned.headers@,
            scanned.footers@,
            views(db@),
            max_size as int,
            chosen(*filter),
            plans@,
        );
    }
    let found: (ScanResult, Vec<CarvePlan>) = (scanned, plans);
    assert(scan_may(
        reader,
        size as int,
        block_size as int,
        scan_chunk(block_size as int),
        wanted_patterns(chosen(*filter)),
        progress,
        seen,
        found.0,
    ));
    found
}

} // verus!
