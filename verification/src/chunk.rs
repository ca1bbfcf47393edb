//! The chunk lifecycle: which chunks should exist around a viewpoint, and
//! the steps that load, generate, save and unload them.

use crate::codec::{decode, decoded, encode, encoded, CodecError};
use crate::grid::{
    chunk_volume, index_x, index_y, index_z, lemma_coords_of_index, lemma_index_carry,
    lemma_index_in_volume, lemma_index_of_coords, local_index, local_pos_to_idx, volume,
};
use crate::table::{is_chunk_key, pos_key};
use crate::terrain::{generate_chunk_voxels, terrain, TerrainBlocks};
use crate::voxel_world::{BlockType, VoxelWorld};
use vstd::prelude::*;

verus! {

/// The record of one chunk that the scheduler tracks: its coordinate,
/// whether its voxels were edited since they were last saved, and the work
/// that is due on it.
#[derive(Clone, Copy, Debug)]
pub struct Chunk {
    pub world_pos: [i32; 3],
    pub dirty: bool,
    pub needs_loading: bool,
    pub needs_generating: bool,
    pub needs_saving: bool,
    pub needs_unloading: bool,
    pub needs_meshing: bool,
}

/// Whether the chunk coordinate `key` lies in the cube of side
/// `2 * radius + 1` around `center`.
pub open spec fn wanted(key: (int, int, int), center: (int, int, int), radius: int) -> bool {
    &&& center.0 - radius <= key.0 <= center.0 + radius
    &&& center.1 - radius <= key.1 <= center.1 + radius
    &&& center.2 - radius <= key.2 <= center.2 + radius
}

/// Tests whether the chunk at `pos` lies in the cube around `center`.
pub fn in_load_region(pos: &[i32; 3], center: &[i32; 3], radius: i32) -> (b: bool)
    ensures
        b == wanted(pos_key(*pos), pos_key(*center), radius as int),
{
    let r = radius as i64;
    let mut inside = true;
    let mut i: usize = 0;
    while i < 3
        invariant
            i <= 3,
            r == radius,
            inside == (forall|k: int|
                0 <= k < i ==> #[trigger] center[k] - r <= pos[k] <= center[k] + r),
        decreases 3 - i,
    {
        let c = center[i] as i64;
        let p = pos[i] as i64;
        if p < c - r || p > c + r {
            inside = false;
        }
        i += 1;
    }
    proof {
        if inside {
            assert(center[0] - r <= pos[0] <= center[0] + r);
            assert(center[1] - r <= pos[1] <= center[1] + r);
            assert(center[2] - r <= pos[2] <= center[2] + r);
        }
    }
    inside
}

/// A record as the scheduler makes it for a chunk that has come into
/// reach: nothing but loading is due on it.
pub open spec fn fresh_chunk(key: (int, int, int)) -> Chunk {
    Chunk {
        world_pos: [key.0 as i32, key.1 as i32, key.2 as i32],
        dirty: false,
        needs_loading: true,
        needs_generating: false,
        needs_saving: false,
        needs_unloading: false,
        needs_meshing: false,
    }
}

/// Makes the record of a chunk that has come into reach.
pub fn spawn_chunk(world_pos: [i32; 3]) -> (c: Chunk)
    ensures
        c == fresh_chunk(pos_key(world_pos)),
{
    let c = Chunk {
        world_pos,
        dirty: false,
        needs_loading: true,
        needs_generating: false,
        needs_saving: false,
        needs_unloading: false,
        needs_meshing: false,
    };
    assert(c.world_pos =~= fresh_chunk(pos_key(world_pos)).world_pos);
    c
}

/// How far, in chunks, the loaded region reaches from the viewpoint's
/// chunk along each axis.
pub const LOAD_RADIUS: i32 = 4;

/// The widest reach of a loaded region whose chunks every machine can
/// count: a cube of side `2 * 812 + 1` has fewer than 2^32 chunks.
pub const MAX_LOAD_RADIUS: i32 = 812;

/// Whether one of the first `n` records is the record of the chunk `key`.
pub open spec fn has_record_among(chunks: Seq<Chunk>, n: nat, key: (int, int, int)) -> bool
    decreases n,
{
    n > 0 && (pos_key(chunks[n - 1].world_pos) == key || has_record_among(
        chunks,
        (n - 1) as nat,
        key,
    ))
}

/// Whether the chunk `key` has a record.
pub open spec fn has_record(chunks: Seq<Chunk>, key: (int, int, int)) -> bool {
    has_record_among(chunks, chunks.len(), key)
}

/// A record after its chunk has left the loaded region: due for unloading,
/// and for saving first where it is dirty.
pub open spec fn retired(c: Chunk) -> Chunk {
    Chunk { needs_saving: c.needs_saving || c.dirty, needs_unloading: true, ..c }
}

/// A record after the membership computation has looked at it.
pub open spec fn reviewed(c: Chunk, center: (int, int, int), radius: int) -> Chunk {
    if wanted(pos_key(c.world_pos), center, radius) {
        c
    } else {
        retired(c)
    }
}

/// The `i`-th chunk coordinate of the loaded region, counted with `x`
/// fastest, then `y`, then `z`, from the corner with the least coordinates.
pub open spec fn cell_key(center: (int, int, int), radius: int, i: int) -> (int, int, int) {
    (
        center.0 - radius + index_x(2 * radius + 1, i),
        center.1 - radius + index_y(2 * radius + 1, i),
        center.2 - radius + index_z(2 * radius + 1, i),
    )
}

/// The records made for those of the first `n` coordinates of the loaded
/// region that have no record yet.
pub open spec fn spawned(chunks: Seq<Chunk>, center: (int, int, int), radius: int, n: nat) -> Seq<
    Chunk,
>
    decreases n,
{
    if n == 0 {
        Seq::empty()
    } else if is_chunk_key(cell_key(center, radius, n - 1)) && !has_record(
        chunks,
        cell_key(center, radius, n - 1),
    ) {
        spawned(chunks, center, radius, (n - 1) as nat).push(
            fresh_chunk(cell_key(center, radius, n - 1)),
        )
    } else {
        spawned(chunks, center, radius, (n - 1) as nat)
    }
}

/// The records after the membership computation: the old ones, each
/// reviewed, followed by a fresh one for every coordinate of the loaded
/// region that had none.
pub open spec fn membership(chunks: Seq<Chunk>, center: (int, int, int), radius: int) -> Seq<
    Chunk,
> {
    chunks.map_values(|c: Chunk| reviewed(c, center, radius)) + spawned(
        chunks,
        center,
        radius,
        volume(2 * radius + 1) as nat,
    )
}

/// Every coordinate of the loaded region is wanted, and no two of them are
/// the same.
pub proof fn lemma_cells(center: (int, int, int), radius: int, i: int, j: int)
    requires
        0 <= radius,
        0 <= i < volume(2 * radius + 1),
        0 <= j < volume(2 * radius + 1),
    ensures
        wanted(cell_key(center, radius, i), center, radius),
        cell_key(center, radius, i) == cell_key(center, radius, j) ==> i == j,
{
    lemma_index_of_coords(2 * radius + 1, i);
    lemma_index_of_coords(2 * radius + 1, j);
}

/// Brings the records up to date with the viewpoint's chunk `center`:
/// records of chunks outside the loaded region become due for unloading
/// (and for saving, where dirty), and every chunk of the region without a
/// record gets one that is due for loading.
pub fn update_membership(chunks: &mut Vec<Chunk>, center: &[i32; 3], radius: i32)
    requires
        0 <= radius <= MAX_LOAD_RADIUS,
    ensures
        final(chunks)@ == membership(old(chunks)@, pos_key(*center), radius as int),
{
    assert(volume(2 * radius + 1) <= 0xFFFF_FFFF) by (nonlinear_arith)
        requires
            0 <= radius <= 812,
    ;
    let ghost before = chunks@;
    let ghost c = pos_key(*center);
    let ghost r = radius as int;
    let ghost s = 2 * r + 1;
    let side: usize = 2 * (radius as usize) + 1;
    let num = chunk_volume(side);
    let mut needs_spawning: Vec<bool> = Vec::new();
    let mut i: usize = 0;
    while i < num
        invariant
            i <= num,
            needs_spawning.len() == i,
            forall|k: int| 0 <= k < i ==> needs_spawning[k],
        decreases num - i,
    {
        needs_spawning.push(true);
        i += 1;
    }
    let mut j: usize = 0;
    while j < chunks.len()
        invariant
            0 <= r == radius,
            s == side == 2 * r + 1,
            num == volume(s),
            c == pos_key(*center),
            j <= chunks.len(),
            chunks.len() == before.len(),
            forall|k: int| 0 <= k < j ==> chunks[k] == reviewed(#[trigger] before[k], c, r),
            forall|k: int| j <= k < chunks.len() ==> chunks[k] == #[trigger] before[k],
            needs_spawning.len() == num,
            forall|i: int|
                0 <= i < num ==> #[trigger] needs_spawning[i] == !has_record_among(
                    before,
                    j as nat,
                    cell_key(c, r, i),
                ),
        decreases chunks.len() - j,
    {
        let mut chunk = chunks[j];
        let ghost key = pos_key(chunk.world_pos);
        if in_load_region(&chunk.world_pos, center, radius) {
            let x = (chunk.world_pos[0] as i64 - (center[0] as i64 - radius as i64)) as usize;
            let y = (chunk.world_pos[1] as i64 - (center[1] as i64 - radius as i64)) as usize;
            let z = (chunk.world_pos[2] as i64 - (center[2] as i64 - radius as i64)) as usize;
            proof {
                lemma_index_in_volume(s, x as int, y as int, z as int);
                lemma_coords_of_index(s, x as int, y as int, z as int);
            }
            let idx = local_pos_to_idx(side, x, y, z);
            needs_spawning[idx] = false;
            proof {
                assert(cell_key(c, r, idx as int) == key);
                assert forall|i: int| 0 <= i < num implies #[trigger] needs_spawning[i]
                    == !has_record_among(before, (j + 1) as nat, cell_key(c, r, i)) by {
                    lemma_cells(c, r, i, idx as int);
                }
            }
        } else {
            if chunk.dirty {
                chunk.needs_saving = true;
            }
            chunk.needs_unloading = true;
            chunks[j] = chunk;
            proof {
                assert(chunk.world_pos =~= retired(before[j as int]).world_pos);
                assert forall|i: int| 0 <= i < num implies #[trigger] needs_spawning[i]
                    == !has_record_among(before, (j + 1) as nat, cell_key(c, r, i)) by {
                    lemma_cells(c, r, i, i);
                }
            }
        }
        j += 1;
    }
    let ghost marked = before.map_values(|c: Chunk| reviewed(c, pos_key(*center), radius as int));
    assert(chunks@ =~= marked);
    proof {
        lemma_index_carry(s, 0, 0);
    }
    let low_x = center[0] as i64 - radius as i64;
    let low_y = center[1] as i64 - radius as i64;
    let low_z = center[2] as i64 - radius as i64;
    let mut n: usize = 0;
    let mut z: usize = 0;
    while z < side
        invariant
            0 <= r == radius,
            s == side == 2 * r + 1,
            num == volume(s),
            c == pos_key(*center),
            low_x == c.0 - r,
            low_y == c.1 - r,
            low_z == c.2 - r,
            z <= side,
            n == local_index(s, 0, 0, z as int),
            needs_spawning.len() == num,
            forall|i: int|
                0 <= i < num ==> #[trigger] needs_spawning[i] == !has_record(
                    before,
                    cell_key(c, r, i),
                ),
            chunks@ == marked + spawned(before, c, r, n as nat),
        decreases side - z,
    {
        let mut y: usize = 0;
        while y < side
            invariant
                0 <= r == radius,
                s == side == 2 * r + 1,
                num == volume(s),
                c == pos_key(*center),
                low_x == c.0 - r,
                low_y == c.1 - r,
                low_z == c.2 - r,
                z < side,
                y <= side,
                n == local_index(s, 0, y as int, z as int),
                needs_spawning.len() == num,
                forall|i: int|
                    0 <= i < num ==> #[trigger] needs_spawning[i] == !has_record(
                        before,
                        cell_key(c, r, i),
                    ),
                chunks@ == marked + spawned(before, c, r, n as nat),
            decreases side - y,
        {
            let mut x: usize = 0;
            while x < side
                invariant
                    0 <= r == radius,
                    s == side == 2 * r + 1,
                    num == volume(s),
                    c == pos_key(*center),
                    low_x == c.0 - r,
                    low_y == c.1 - r,
                    low_z == c.2 - r,
                    z < side,
                    y < side,
                    x <= side,
                    n == local_index(s, x as int, y as int, z as int),
                    needs_spawning.len() == num,
                    forall|i: int|
                        0 <= i < num ==> #[trigger] needs_spawning[i] == !has_record(
                            before,
                            cell_key(c, r, i),
                        ),
                    chunks@ == marked + spawned(before, c, r, n as nat),
                decreases side - x,
            {
                proof {
                    lemma_index_in_volume(s, x as int, y as int, z as int);
                    lemma_coords_of_index(s, x as int, y as int, z as int);
                }
                let cx = low_x + x as i64;
                let cy = low_y + y as i64;
                let cz = low_z + z as i64;
                            if needs_spawning[n] && fits_i32(cx) && fits_i32(cy) && fits_i32(cz) {
                    chunks.push(spawn_chunk([cx as i32, cy as i32, cz as i32]));
                }
                assert(chunks@ =~= marked + spawned(before, c, r, (n + 1) as nat));
                n += 1;
                x += 1;
            }
            proof {
                lemma_index_carry(s, y as int, z as int);
            }
            y += 1;
        }
        proof {
            lemma_index_carry(s, 0, z as int);
        }
        z += 1;
    }
    proof {
        lemma_index_carry(s, 0, 0);
    }
}

/// Whether `v` is the value of a 32-bit signed integer.
fn fits_i32(v: i64) -> (b: bool)
    ensures
        b == (i32::MIN <= v <= i32::MAX),
{
    -0x8000_0000 <= v && v <= 0x7FFF_FFFF
}

/// How many chunks a phase may have worked on in one tick and still take
/// another: a phase stops once it has worked on more than this many.
pub const BATCH_LIMIT: usize = 8;

/// The kinds of work that are rationed per tick.
#[derive(Clone, Copy, Debug, PartialEq, Eq, Structural)]
pub enum Work {
    Loading,
    Generating,
    Saving,
    Meshing,
}

/// Whether work of the kind `work` is due on a chunk.
pub open spec fn is_due(c: Chunk, work: Work) -> bool {
    match work {
        Work::Loading => c.needs_loading,
        Work::Generating => c.needs_generating,
        Work::Saving => c.needs_saving,
        Work::Meshing => c.needs_meshing,
    }
}

/// The first record on which work of the kind `work` is due.
pub fn first_due(chunks: &Vec<Chunk>, work: Work) -> (r: Option<usize>)
    ensures
        r matches Some(i) ==> i < chunks.len() && is_due(chunks[i as int], work) && forall|k: int|
            0 <= k < i ==> !is_due(#[trigger] chunks[k], work),
        r is None ==> forall|k: int| 0 <= k < chunks.len() ==> !is_due(#[trigger] chunks[k], work),
{
    let mut i: usize = 0;
    while i < chunks.len()
        invariant
            i <= chunks.len(),
            forall|k: int| 0 <= k < i ==> !is_due(#[trigger] chunks[k], work),
        decreases chunks.len() - i,
    {
        let c = &chunks[i];
        let due = match work {
            Work::Loading => c.needs_loading,
            Work::Generating => c.needs_generating,
            Work::Saving => c.needs_saving,
            Work::Meshing => c.needs_meshing,
        };
        if due {
            return Some(i);
        }
        i += 1;
    }
    None
}

/// How far a phase has come within one tick: how many chunks it has worked
/// on, and the record from which it looks for the next one.
#[derive(Clone, Copy, Debug)]
pub struct Batch {
    pub done: usize,
    pub from: usize,
}

impl Batch {
    /// The batch after the phase has worked on the chunk of record `i`,
    /// whatever came of it: one more chunk is done, and the phase goes on
    /// behind that record.
    pub open spec fn after(self, i: int) -> Batch {
        Batch { done: (self.done + 1) as usize, from: (i + 1) as usize }
    }

    /// The batch of a phase that begins.
    pub fn new() -> (batch: Batch)
        ensures
            batch.done == 0,
            batch.from == 0,
    {
        Batch { done: 0, from: 0 }
    }

    /// Counts the chunk of record `i` against the batch.
    fn count(&mut self, i: usize)
        requires
            old(self).done < usize::MAX,
            i < usize::MAX,
        ensures
            *final(self) == old(self).after(i as int),
    {
        self.done = self.done + 1;
        self.from = i + 1;
    }
}

/// The next chunk for a phase to work on: the first record, from where the
/// batch stands, on which the work is due, as long as the batch is not
/// used up. A phase thus works on each chunk once in a tick at most, and
/// on nine chunks at most.
pub fn next_due(chunks: &Vec<Chunk>, work: Work, batch: &Batch) -> (r: Option<usize>)
    ensures
        r matches Some(i) ==> batch.done <= BATCH_LIMIT && batch.from <= i < chunks.len() && is_due(
            chunks[i as int],
            work,
        ) && forall|k: int| batch.from <= k < i ==> !is_due(#[trigger] chunks[k], work),
        r is None ==> batch.done > BATCH_LIMIT || forall|k: int|
            batch.from <= k < chunks.len() ==> !is_due(#[trigger] chunks[k], work),
{
    if batch.done > BATCH_LIMIT {
        return None;
    }
    let mut i: usize = batch.from;
    while i < chunks.len()
        invariant
            batch.from <= i,
            batch.done <= BATCH_LIMIT,
            forall|k: int| batch.from <= k < i && k < chunks.len() ==> !is_due(
                #[trigger] chunks[k],
                work,
            ),
        decreases chunks.len() - i,
    {
        let c = &chunks[i];
        let due = match work {
            Work::Loading => c.needs_loading,
            Work::Generating => c.needs_generating,
            Work::Saving => c.needs_saving,
            Work::Meshing => c.needs_meshing,
        };
        if due {
            return Some(i);
        }
        i += 1;
    }
    None
}

/// A record after its chunk's terrain has been generated.
pub open spec fn generated(c: Chunk) -> Chunk {
    Chunk { dirty: true, needs_generating: false, needs_meshing: true, ..c }
}

/// A record after its chunk's mesh has been built.
pub open spec fn meshed(c: Chunk) -> Chunk {
    Chunk { needs_meshing: false, ..c }
}

/// A record after its chunk has been saved.
pub open spec fn saved(c: Chunk) -> Chunk {
    Chunk { dirty: false, needs_saving: false, ..c }
}

/// A record after its chunk's voxels have been read from its save file.
pub open spec fn restored(c: Chunk) -> Chunk {
    Chunk { needs_loading: false, needs_meshing: true, ..c }
}

/// A record after its chunk was found to have no save file.
pub open spec fn unsaved(c: Chunk) -> Chunk {
    Chunk { needs_loading: false, needs_generating: true, ..c }
}

/// Generates the terrain of the chunk of record `i` from its noise
/// samples and installs it in the store. The chunk is then dirty and due
/// for meshing, and no longer due for generating. The chunk counts
/// against the tick's batch.
pub fn finish_generation(
    chunks: &mut Vec<Chunk>,
    world: &mut VoxelWorld,
    i: usize,
    samples: &Vec<u32>,
    blocks: &TerrainBlocks,
    batch: &mut Batch,
)
    requires
        i < old(chunks).len(),
        samples.len() == old(world).chunk_volume(),
        old(batch).done < usize::MAX,
    ensures
        *final(batch) == old(batch).after(i as int),
        old(world).wf() ==> final(world).wf(),
        final(world).chunk_len == old(world).chunk_len,
        final(world).entries() == old(world).entries().insert(
            pos_key(old(chunks)[i as int].world_pos),
            terrain(samples@, old(world).chunk_len as int, *blocks),
        ),
        final(chunks)@ == old(chunks)@.update(i as int, generated(old(chunks)[i as int])),
        store_has_records(old(chunks)@, old(world).entries()) ==> store_has_records(
            final(chunks)@,
            final(world).entries(),
        ),
{
    let mut chunk = chunks[i];
    let voxels = generate_chunk_voxels(samples, world.chunk_len, blocks);
    let ghost installed = voxels@;
    world.load_chunk(&chunk.world_pos, voxels);
    chunk.dirty = true;
    chunk.needs_generating = false;
    chunk.needs_meshing = true;
    assert(chunk.world_pos =~= generated(chunks[i as int]).world_pos);
    chunks[i] = chunk;
    batch.count(i);
    proof {
        lemma_install_keeps_records(
            old(chunks)@,
            chunks@,
            old(world).entries(),
            i as int,
            installed,
        );
    }
}

/// A record after a request to save every active chunk.
pub open spec fn save_requested(c: Chunk, active: bool) -> Chunk {
    if active {
        Chunk { needs_saving: true, ..c }
    } else {
        c
    }
}

/// A record after a request to load every active chunk again.
pub open spec fn load_requested(c: Chunk, active: bool) -> Chunk {
    if active {
        Chunk { needs_loading: true, ..c }
    } else {
        c
    }
}

/// Makes every active chunk, that is every chunk whose voxels are in the
/// store, due for saving.
pub fn mark_save_all(chunks: &mut Vec<Chunk>, world: &VoxelWorld)
    ensures
        final(chunks)@.len() == old(chunks)@.len(),
        forall|k: int|
            0 <= k < old(chunks)@.len() ==> #[trigger] final(chunks)@[k] == save_requested(
                old(chunks)@[k],
                world.loaded(old(chunks)@[k].world_pos),
            ),
{
    let ghost before = chunks@;
    let mut i: usize = 0;
    while i < chunks.len()
        invariant
            i <= chunks.len(),
            chunks.len() == before.len(),
            forall|k: int|
                0 <= k < i ==> #[trigger] chunks[k] == save_requested(
                    before[k],
                    world.loaded(before[k].world_pos),
                ),
            forall|k: int| i <= k < chunks.len() ==> #[trigger] chunks[k] == before[k],
        decreases chunks.len() - i,
    {
        let mut chunk = chunks[i];
        if world.is_loaded(&chunk.world_pos) {
            chunk.needs_saving = true;
            assert(chunk.world_pos =~= save_requested(before[i as int], true).world_pos);
            chunks[i] = chunk;
        }
        i += 1;
    }
}

/// Makes every active chunk, that is every chunk whose voxels are in the
/// store, due for loading from its save file.
pub fn mark_load_all(chunks: &mut Vec<Chunk>, world: &VoxelWorld)
    ensures
        final(chunks)@.len() == old(chunks)@.len(),
        forall|k: int|
            0 <= k < old(chunks)@.len() ==> #[trigger] final(chunks)@[k] == load_requested(
                old(chunks)@[k],
                world.loaded(old(chunks)@[k].world_pos),
            ),
{
    let ghost before = chunks@;
    let mut i: usize = 0;
    while i < chunks.len()
        invariant
            i <= chunks.len(),
            chunks.len() == before.len(),
            forall|k: int|
                0 <= k < i ==> #[trigger] chunks[k] == load_requested(
                    before[k],
                    world.loaded(before[k].world_pos),
                ),
            forall|k: int| i <= k < chunks.len() ==> #[trigger] chunks[k] == before[k],
        decreases chunks.len() - i,
    {
        let mut chunk = chunks[i];
        if world.is_loaded(&chunk.world_pos) {
            chunk.needs_loading = true;
            assert(chunk.world_pos =~= load_requested(before[i as int], true).world_pos);
            chunks[i] = chunk;
        }
        i += 1;
    }
}

/// The autosave: makes every dirty chunk due for saving.
pub fn scheduled_save(chunks: &mut Vec<Chunk>)
    ensures
        final(chunks)@.len() == old(chunks)@.len(),
        forall|k: int|
            0 <= k < old(chunks)@.len() ==> #[trigger] final(chunks)@[k] == save_requested(
                old(chunks)@[k],
                old(chunks)@[k].dirty,
            ),
{
    let ghost before = chunks@;
    let mut i: usize = 0;
    while i < chunks.len()
        invariant
            i <= chunks.len(),
            chunks.len() == before.len(),
            forall|k: int|
                0 <= k < i ==> #[trigger] chunks[k] == save_requested(before[k], before[k].dirty),
            forall|k: int| i <= k < chunks.len() ==> #[trigger] chunks[k] == before[k],
        decreases chunks.len() - i,
    {
        let mut chunk = chunks[i];
        if chunk.dirty {
            chunk.needs_saving = true;
            assert(chunk.world_pos =~= save_requested(before[i as int], true).world_pos);
            chunks[i] = chunk;
        }
        i += 1;
    }
}

/// The bytes to write to the save file of the chunk at `chunk_pos`. They
/// are owed wherever the compressor gives a stream for the chunk's
/// serialised array.
pub fn save_bytes(world: &VoxelWorld, chunk_pos: &[i32; 3]) -> (r: Result<Vec<u8>, CodecError>)
    requires
        world.loaded(*chunk_pos),
    ensures
        r is Ok <==> encoded(world.chunk(*chunk_pos)) is Some,
        r matches Ok(bytes) ==> encoded(world.chunk(*chunk_pos)) == Some(bytes@),
        r matches Ok(bytes) ==> decoded(bytes@, world.chunk(*chunk_pos).len() as int) == Ok::<
            Seq<BlockType>,
            CodecError,
        >(world.chunk(*chunk_pos)),
        r matches Err(e) ==> e == CodecError::Compress,
{
    match world.get_chunk(chunk_pos) {
        Some(voxels) => encode(voxels),
        None => vstd::pervasive::unreached(),
    }
}

/// A record after an attempt to save its chunk: clean and no longer due
/// where the file was written, as it was where it was not.
pub open spec fn save_recorded(c: Chunk, written: bool) -> Chunk {
    if written {
        saved(c)
    } else {
        c
    }
}

/// Records what came of saving the chunk of record `i`. Where its file
/// was written the chunk is clean and no longer due for saving; where it
/// was not, the chunk stays dirty and due, for a later tick to try again.
/// Either way the chunk counts against the tick's batch.
pub fn record_save(chunks: &mut Vec<Chunk>, i: usize, written: bool, batch: &mut Batch)
    requires
        i < old(chunks).len(),
        old(batch).done < usize::MAX,
    ensures
        final(chunks)@ == old(chunks)@.update(
            i as int,
            save_recorded(old(chunks)[i as int], written),
        ),
        written ==> final(chunks)@ == old(chunks)@.update(i as int, saved(old(chunks)[i as int])),
        !written ==> final(chunks)@ == old(chunks)@,
        *final(batch) == old(batch).after(i as int),
{
    if written {
        let mut chunk = chunks[i];
        chunk.dirty = false;
        chunk.needs_saving = false;
        assert(chunk.world_pos =~= saved(chunks[i as int]).world_pos);
        chunks[i] = chunk;
    } else {
        assert(chunks@ =~= chunks@.update(i as int, chunks[i as int]));
    }
    batch.count(i);
}

/// Records that the mesh of the chunk of record `i` has been built: it is
/// no longer due for meshing.
pub fn finish_meshing(chunks: &mut Vec<Chunk>, i: usize)
    requires
        i < old(chunks).len(),
    ensures
        final(chunks)@ == old(chunks)@.update(i as int, meshed(old(chunks)[i as int])),
{
    let mut chunk = chunks[i];
    chunk.needs_meshing = false;
    assert(chunk.world_pos =~= meshed(chunks[i as int]).world_pos);
    chunks[i] = chunk;
}

/// Records that the chunk of record `i` has no save file: it is due for
/// generating in place of loading. The chunk counts against the tick's
/// batch, as one read from its file does.
pub fn mark_unsaved(chunks: &mut Vec<Chunk>, i: usize, batch: &mut Batch)
    requires
        i < old(chunks).len(),
        old(batch).done < usize::MAX,
    ensures
        final(chunks)@ == old(chunks)@.update(i as int, unsaved(old(chunks)[i as int])),
        *final(batch) == old(batch).after(i as int),
{
    let mut chunk = chunks[i];
    chunk.needs_loading = false;
    chunk.needs_generating = true;
    assert(chunk.world_pos =~= unsaved(chunks[i as int]).world_pos);
    chunks[i] = chunk;
    batch.count(i);
}

/// Decodes the contents of the save file of the chunk of record `i` and
/// installs the voxels in the store, in place of any the chunk had. The
/// chunk is then due for meshing and no longer for loading. Where the
/// bytes do not decode, the store and the records stay as they were and
/// the error is returned. Either way the chunk counts against the tick's
/// batch.
pub fn finish_load(
    chunks: &mut Vec<Chunk>,
    world: &mut VoxelWorld,
    i: usize,
    bytes: &[u8],
    batch: &mut Batch,
) -> (r: Result<(), CodecError>)
    requires
        i < old(chunks).len(),
        old(batch).done < usize::MAX,
    ensures
        *final(batch) == old(batch).after(i as int),
        old(world).wf() ==> final(world).wf(),
        final(world).chunk_len == old(world).chunk_len,
        decoded(bytes@, old(world).chunk_volume()) matches Ok(voxels) ==> r is Ok
            && final(world).entries() == old(world).entries().insert(
            pos_key(old(chunks)[i as int].world_pos),
            voxels,
        ) && final(chunks)@ == old(chunks)@.update(i as int, restored(old(chunks)[i as int])),
        decoded(bytes@, old(world).chunk_volume()) matches Err(e) ==> r == Err::<(), CodecError>(e)
            && final(world).entries() == old(world).entries() && final(chunks)@ == old(chunks)@,
        store_has_records(old(chunks)@, old(world).entries()) ==> store_has_records(
            final(chunks)@,
            final(world).entries(),
        ),
{
    match decode(bytes, world.chunk_len) {
        Ok(voxels) => {
            let mut chunk = chunks[i];
            let ghost installed = voxels@;
            world.load_chunk(&chunk.world_pos, voxels);
            chunk.needs_loading = false;
            chunk.needs_meshing = true;
            assert(chunk.world_pos =~= restored(chunks[i as int]).world_pos);
            chunks[i] = chunk;
            batch.count(i);
            proof {
                lemma_install_keeps_records(
                    old(chunks)@,
                    chunks@,
                    old(world).entries(),
                    i as int,
                    installed,
                );
            }
            Ok(())
        },
        Err(e) => {
            batch.count(i);
            Err(e)
        },
    }
}

/// Those of the first `n` records that are not due for unloading.
pub open spec fn kept_among(chunks: Seq<Chunk>, n: nat) -> Seq<Chunk>
    decreases n,
{
    if n == 0 {
        Seq::empty()
    } else if chunks[n - 1].needs_unloading {
        kept_among(chunks, (n - 1) as nat)
    } else {
        kept_among(chunks, (n - 1) as nat).push(chunks[n - 1])
    }
}

/// The arrays left of `entries` once the chunks of those of the first `n`
/// records that are due for unloading have been taken out.
pub open spec fn unloaded_among(
    chunks: Seq<Chunk>,
    n: nat,
    entries: Map<(int, int, int), Seq<BlockType>>,
) -> Map<(int, int, int), Seq<BlockType>>
    decreases n,
{
    if n == 0 {
        entries
    } else if chunks[n - 1].needs_unloading {
        unloaded_among(chunks, (n - 1) as nat, entries).remove(pos_key(chunks[n - 1].world_pos))
    } else {
        unloaded_among(chunks, (n - 1) as nat, entries)
    }
}

/// Whether one of the first `n` records is the record of the chunk `key`
/// and due for unloading.
pub open spec fn leaving_among(chunks: Seq<Chunk>, n: nat, key: (int, int, int)) -> bool
    decreases n,
{
    n > 0 && ((pos_key(chunks[n - 1].world_pos) == key && chunks[n - 1].needs_unloading)
        || leaving_among(chunks, (n - 1) as nat, key))
}

/// The unloading phase: every record that is due for unloading is dropped
/// and its chunk's voxels are taken out of the store.
pub fn unload_chunks(chunks: &mut Vec<Chunk>, world: &mut VoxelWorld)
    ensures
        final(chunks)@ == kept_among(old(chunks)@, old(chunks)@.len()),
        final(world).entries() == unloaded_among(
            old(chunks)@,
            old(chunks)@.len(),
            old(world).entries(),
        ),
        final(world).chunk_len == old(world).chunk_len,
        old(world).wf() ==> final(world).wf(),
        store_has_records(old(chunks)@, old(world).entries()) ==> store_has_records(
            final(chunks)@,
            final(world).entries(),
        ),
{
    let ghost before = chunks@;
    let ghost entries = world.entries();
    let ghost was_wf = world.wf();
    proof {
        if store_has_records(before, entries) {
            lemma_unloading_keeps_records(before, entries);
        }
    }
    let mut kept: Vec<Chunk> = Vec::new();
    let mut i: usize = 0;
    while i < chunks.len()
        invariant
            i <= chunks.len(),
            chunks@ == before,
            kept@ == kept_among(before, i as nat),
            world.entries() == unloaded_among(before, i as nat, entries),
            world.chunk_len == old(world).chunk_len,
            was_wf ==> world.wf(),
        decreases chunks.len() - i,
    {
        let chunk = chunks[i];
        if chunk.needs_unloading {
            world.unload_chunk(&chunk.world_pos);
        } else {
            kept.push(chunk);
        }
        i += 1;
    }
    *chunks = kept;
}

/// What unloading leaves in the store: the arrays of the chunks that have
/// no record due for unloading.
pub proof fn lemma_unloaded_among(
    chunks: Seq<Chunk>,
    n: nat,
    entries: Map<(int, int, int), Seq<BlockType>>,
    key: (int, int, int),
)
    ensures
        unloaded_among(chunks, n, entries).contains_key(key) <==> entries.contains_key(key)
            && !leaving_among(chunks, n, key),
        unloaded_among(chunks, n, entries).contains_key(key) ==> unloaded_among(
            chunks,
            n,
            entries,
        )[key] == entries[key],
    decreases n,
{
    if n > 0 {
        lemma_unloaded_among(chunks, (n - 1) as nat, entries, key);
    }
}

/// What unloading leaves of the records: no record of a chunk all of whose
/// records were due for unloading.
pub proof fn lemma_kept_among(chunks: Seq<Chunk>, n: nat, key: (int, int, int))
    requires
        n <= chunks.len(),
        forall|k: int|
            0 <= k < n && pos_key((#[trigger] chunks[k]).world_pos) == key
                ==> chunks[k].needs_unloading,
    ensures
        !has_record(kept_among(chunks, n), key),
    decreases n,
{
    if n > 0 {
        lemma_kept_among(chunks, (n - 1) as nat, key);
        let rest = kept_among(chunks, (n - 1) as nat);
        if !chunks[n - 1].needs_unloading {
            lemma_has_record_push(rest, chunks[n - 1], key);
        }
    }
}

/// A list with one more record has a record of `key` exactly if the list
/// had one or the new record is of `key`.
pub proof fn lemma_has_record_push(chunks: Seq<Chunk>, c: Chunk, key: (int, int, int))
    ensures
        has_record(chunks.push(c), key) <==> has_record(chunks, key) || pos_key(c.world_pos)
            == key,
{
    lemma_has_record_prefix(chunks.push(c), chunks, chunks.len(), key);
}

/// Whether one of the first `n` records is of `key` depends on those
/// records alone.
pub proof fn lemma_has_record_prefix(a: Seq<Chunk>, b: Seq<Chunk>, n: nat, key: (int, int, int))
    requires
        n <= a.len(),
        n <= b.len(),
        forall|k: int| 0 <= k < n ==> a[k] == b[k],
    ensures
        has_record_among(a, n, key) == has_record_among(b, n, key),
    decreases n,
{
    if n > 0 {
        lemma_has_record_prefix(a, b, (n - 1) as nat, key);
    }
}

/// A chunk has a record among the first `n` exactly if one of them is at
/// its coordinate.
pub proof fn lemma_has_record_among(chunks: Seq<Chunk>, n: nat, key: (int, int, int))
    ensures
        has_record_among(chunks, n, key) <==> exists|k: int|
            0 <= k < n && pos_key((#[trigger] chunks[k]).world_pos) == key,
    decreases n,
{
    if n > 0 {
        lemma_has_record_among(chunks, (n - 1) as nat, key);
        if has_record_among(chunks, n, key) {
            if pos_key(chunks[n - 1].world_pos) == key {
                assert(0 <= n - 1 < n && pos_key(chunks[n - 1].world_pos) == key);
            } else {
                let k = choose|k: int|
                    0 <= k < n - 1 && pos_key((#[trigger] chunks[k]).world_pos) == key;
                assert(0 <= k < n && pos_key(chunks[k].world_pos) == key);
            }
        }
        if exists|k: int| 0 <= k < n && pos_key((#[trigger] chunks[k]).world_pos) == key {
            let k = choose|k: int| 0 <= k < n && pos_key((#[trigger] chunks[k]).world_pos) == key;
            if k < n - 1 {
                assert(0 <= k < n - 1 && pos_key(chunks[k].world_pos) == key);
            }
        }
    }
}

/// A record of `key` that is due for unloading, among the first `n`, makes
/// `key` leave.
pub proof fn lemma_leaving_among(chunks: Seq<Chunk>, n: nat, key: (int, int, int), k: int)
    requires
        0 <= k < n,
        pos_key(chunks[k].world_pos) == key,
        chunks[k].needs_unloading,
    ensures
        leaving_among(chunks, n, key),
    decreases n,
{
    if k < n - 1 {
        lemma_leaving_among(chunks, (n - 1) as nat, key, k);
    }
}

/// After the membership computation, every record of a chunk outside the
/// loaded region is due for unloading.
pub proof fn lemma_membership_retires(
    chunks: Seq<Chunk>,
    center: (int, int, int),
    radius: int,
    k: int,
)
    requires
        0 <= radius,
        0 <= k < membership(chunks, center, radius).len(),
        !wanted(pos_key(membership(chunks, center, radius)[k].world_pos), center, radius),
    ensures
        membership(chunks, center, radius)[k].needs_unloading,
        k < chunks.len(),
{
    if k >= chunks.len() {
        lemma_spawned_are_wanted(
            chunks,
            center,
            radius,
            volume(2 * radius + 1) as nat,
            k - chunks.len(),
        );
    }
}

/// Every record that the membership computation makes is of a chunk of the
/// loaded region.
pub proof fn lemma_spawned_are_wanted(
    chunks: Seq<Chunk>,
    center: (int, int, int),
    radius: int,
    n: nat,
    k: int,
)
    requires
        0 <= radius,
        n <= volume(2 * radius + 1),
        0 <= k < spawned(chunks, center, radius, n).len(),
    ensures
        wanted(pos_key(spawned(chunks, center, radius, n)[k].world_pos), center, radius),
        spawned(chunks, center, radius, n)[k].needs_loading,
        !spawned(chunks, center, radius, n)[k].needs_unloading,
    decreases n,
{
    if n > 0 {
        let rest = spawned(chunks, center, radius, (n - 1) as nat);
        if k < rest.len() {
            lemma_spawned_are_wanted(chunks, center, radius, (n - 1) as nat, k);
        } else {
            lemma_cells(center, radius, n - 1, n - 1);
        }
    }
}

/// Whether the store holds voxels only of chunks that have a record.
pub open spec fn store_has_records(
    chunks: Seq<Chunk>,
    entries: Map<(int, int, int), Seq<BlockType>>,
) -> bool {
    forall|key: (int, int, int)| #[trigger] entries.contains_key(key) ==> has_record(chunks, key)
}

/// Whether every record of a chunk outside the loaded region is due for
/// unloading.
pub open spec fn all_retired(chunks: Seq<Chunk>, center: (int, int, int), radius: int) -> bool {
    forall|k: int|
        0 <= k < chunks.len() && !wanted(pos_key((#[trigger] chunks[k]).world_pos), center, radius)
            ==> chunks[k].needs_unloading
}

/// The chunk of a record has a record.
pub proof fn lemma_has_record_at(chunks: Seq<Chunk>, k: int)
    requires
        0 <= k < chunks.len(),
    ensures
        has_record(chunks, pos_key(chunks[k].world_pos)),
{
    lemma_has_record_among(chunks, chunks.len(), pos_key(chunks[k].world_pos));
}

/// Records that keep their places, and records added to them, leave every
/// chunk with a record that had one.
pub proof fn lemma_same_places(a: Seq<Chunk>, b: Seq<Chunk>, key: (int, int, int))
    requires
        a.len() <= b.len(),
        forall|k: int|
            0 <= k < a.len() ==> pos_key((#[trigger] a[k]).world_pos) == pos_key(b[k].world_pos),
        has_record(a, key),
    ensures
        has_record(b, key),
{
    lemma_has_record_among(a, a.len(), key);
    lemma_has_record_among(b, b.len(), key);
    let k = choose|k: int| 0 <= k < a.len() && pos_key((#[trigger] a[k]).world_pos) == key;
    assert(0 <= k < b.len() && pos_key(b[k].world_pos) == key);
}

/// A store that held voxels only of chunks with records still does so
/// after steps that leave the store alone, keep the records' places, and
/// at most add records: the membership computation, and every step that
/// only changes what is due on a chunk.
pub proof fn lemma_store_keeps_records(
    a: Seq<Chunk>,
    b: Seq<Chunk>,
    entries: Map<(int, int, int), Seq<BlockType>>,
)
    requires
        a.len() <= b.len(),
        forall|k: int|
            0 <= k < a.len() ==> pos_key((#[trigger] a[k]).world_pos) == pos_key(b[k].world_pos),
        store_has_records(a, entries),
    ensures
        store_has_records(b, entries),
{
    assert forall|key: (int, int, int)| #[trigger] entries.contains_key(key) implies has_record(
        b,
        key,
    ) by {
        lemma_same_places(a, b, key);
    }
}

/// Installing voxels for the chunk of a record, while the records keep
/// their places, leaves the store with voxels only of chunks that have a
/// record.
pub proof fn lemma_install_keeps_records(
    a: Seq<Chunk>,
    b: Seq<Chunk>,
    entries: Map<(int, int, int), Seq<BlockType>>,
    i: int,
    voxels: Seq<BlockType>,
)
    requires
        a.len() == b.len(),
        0 <= i < a.len(),
        forall|k: int|
            0 <= k < a.len() ==> pos_key((#[trigger] a[k]).world_pos) == pos_key(b[k].world_pos),
    ensures
        store_has_records(a, entries) ==> store_has_records(
            b,
            entries.insert(pos_key(a[i].world_pos), voxels),
        ),
{
    if store_has_records(a, entries) {
        let after = entries.insert(pos_key(a[i].world_pos), voxels);
        assert forall|key: (int, int, int)| #[trigger] after.contains_key(key) implies has_record(
            b,
            key,
        ) by {
            if key == pos_key(a[i].world_pos) {
                lemma_has_record_at(b, i);
            } else {
                lemma_same_places(a, b, key);
            }
        }
    }
}

/// The membership computation keeps the places of the records it finds.
pub proof fn lemma_membership_keeps_places(
    chunks: Seq<Chunk>,
    center: (int, int, int),
    radius: int,
)
    ensures
        chunks.len() <= membership(chunks, center, radius).len(),
        forall|k: int|
            0 <= k < chunks.len() ==> pos_key((#[trigger] chunks[k]).world_pos) == pos_key(
                membership(chunks, center, radius)[k].world_pos,
            ),
{
    assert forall|k: int| 0 <= k < chunks.len() implies pos_key(
        (#[trigger] chunks[k]).world_pos,
    ) == pos_key(membership(chunks, center, radius)[k].world_pos) by {
        assert(membership(chunks, center, radius)[k] == reviewed(chunks[k], center, radius));
    }
}

/// After the membership computation every record of a chunk outside the
/// loaded region is due for unloading.
pub proof fn lemma_membership_retires_all(
    chunks: Seq<Chunk>,
    center: (int, int, int),
    radius: int,
)
    requires
        0 <= radius,
    ensures
        all_retired(membership(chunks, center, radius), center, radius),
{
    let after = membership(chunks, center, radius);
    assert forall|k: int|
        0 <= k < after.len() && !wanted(
            pos_key((#[trigger] after[k]).world_pos),
            center,
            radius,
        ) implies after[k].needs_unloading by {
        lemma_membership_retires(chunks, center, radius, k);
    }
}

/// The unloading phase clears what is out of reach: where the store holds
/// voxels only of chunks with records, and the records of the chunks
/// outside the loaded region are due for unloading, it leaves neither
/// voxels nor a record of any chunk outside the region.
pub proof fn lemma_unloading_clears(
    chunks: Seq<Chunk>,
    entries: Map<(int, int, int), Seq<BlockType>>,
    center: (int, int, int),
    radius: int,
    key: (int, int, int),
)
    requires
        store_has_records(chunks, entries),
        all_retired(chunks, center, radius),
        !wanted(key, center, radius),
    ensures
        !unloaded_among(chunks, chunks.len(), entries).contains_key(key),
        !has_record(kept_among(chunks, chunks.len()), key),
{
    lemma_kept_among(chunks, chunks.len(), key);
    lemma_unloaded_among(chunks, chunks.len(), entries, key);
    if entries.contains_key(key) {
        lemma_has_record_among(chunks, chunks.len(), key);
        let k = choose|k: int|
            0 <= k < chunks.len() && pos_key((#[trigger] chunks[k]).world_pos) == key;
        lemma_leaving_among(chunks, chunks.len(), key, k);
    }
}

/// Unloading leaves the store with voxels only of chunks that have a
/// record, if it found it so.
pub proof fn lemma_unloading_keeps_records(
    chunks: Seq<Chunk>,
    entries: Map<(int, int, int), Seq<BlockType>>,
)
    requires
        store_has_records(chunks, entries),
    ensures
        store_has_records(
            kept_among(chunks, chunks.len()),
            unloaded_among(chunks, chunks.len(), entries),
        ),
{
    let kept = kept_among(chunks, chunks.len());
    let left = unloaded_among(chunks, chunks.len(), entries);
    assert forall|key: (int, int, int)| #[trigger] left.contains_key(key) implies has_record(
        kept,
        key,
    ) by {
        lemma_unloaded_among(chunks, chunks.len(), entries, key);
        lemma_has_record_among(chunks, chunks.len(), key);
        let k = choose|k: int|
            0 <= k < chunks.len() && pos_key((#[trigger] chunks[k]).world_pos) == key;
        lemma_staying_is_kept(chunks, chunks.len(), key, k);
    }
}

/// A record of a chunk that does not leave is kept.
proof fn lemma_staying_is_kept(chunks: Seq<Chunk>, n: nat, key: (int, int, int), k: int)
    requires
        0 <= k < n,
        pos_key(chunks[k].world_pos) == key,
        !leaving_among(chunks, n, key),
    ensures
        has_record(kept_among(chunks, n), key),
    decreases n,
{
    let rest = kept_among(chunks, (n - 1) as nat);
    if k < n - 1 {
        lemma_staying_is_kept(chunks, (n - 1) as nat, key, k);
        if !chunks[n - 1].needs_unloading {
            lemma_has_record_push(rest, chunks[n - 1], key);
        }
    } else {
        lemma_has_record_push(rest, chunks[n - 1], key);
    }
}

/// A chunk outside the loaded region is gone once the unloading phase has
/// run: where the store holds voxels only of chunks that have a record,
/// the membership computation for a viewpoint followed by unloading leaves
/// neither voxels nor a record of any chunk that is not wanted around that
/// viewpoint.
pub proof fn lemma_left_chunks_are_unloaded(
    chunks: Seq<Chunk>,
    entries: Map<(int, int, int), Seq<BlockType>>,
    center: (int, int, int),
    radius: int,
    key: (int, int, int),
)
    requires
        0 <= radius,
        store_has_records(chunks, entries),
        !wanted(key, center, radius),
    ensures
        !unloaded_among(
            membership(chunks, center, radius),
            membership(chunks, center, radius).len(),
            entries,
        ).contains_key(key),
        !has_record(
            kept_among(
                membership(chunks, center, radius),
                membership(chunks, center, radius).len(),
            ),
            key,
        ),
{
    let after = membership(chunks, center, radius);
    lemma_membership_keeps_places(chunks, center, radius);
    lemma_store_keeps_records(chunks, after, entries);
    lemma_membership_retires_all(chunks, center, radius);
    lemma_unloading_clears(after, entries, center, radius, key);
}

/// Whether no two of the records are of the same chunk.
pub open spec fn one_record_each(chunks: Seq<Chunk>) -> bool {
    forall|i: int, j: int|
        0 <= i < j < chunks.len() ==> pos_key((#[trigger] chunks[i]).world_pos) != pos_key(
            (#[trigger] chunks[j]).world_pos,
        )
}

/// The place in the loaded region of the chunk of the `k`-th of the
/// records made for its first `n` coordinates.
pub open spec fn spawned_cell(
    chunks: Seq<Chunk>,
    center: (int, int, int),
    radius: int,
    n: nat,
    k: int,
) -> int
    decreases n,
{
    if n == 0 {
        0
    } else if k < spawned(chunks, center, radius, (n - 1) as nat).len() {
        spawned_cell(chunks, center, radius, (n - 1) as nat, k)
    } else {
        n - 1
    }
}

/// Each record that the membership computation makes is the fresh record
/// of a coordinate of the loaded region that had no record, and the
/// records come in the order of their coordinates.
pub proof fn lemma_spawned_cell(
    chunks: Seq<Chunk>,
    center: (int, int, int),
    radius: int,
    n: nat,
    k: int,
)
    requires
        0 <= k < spawned(chunks, center, radius, n).len(),
    ensures
        0 <= spawned_cell(chunks, center, radius, n, k) < n,
        is_chunk_key(cell_key(center, radius, spawned_cell(chunks, center, radius, n, k))),
        !has_record(chunks, cell_key(center, radius, spawned_cell(chunks, center, radius, n, k))),
        spawned(chunks, center, radius, n)[k] == fresh_chunk(
            cell_key(center, radius, spawned_cell(chunks, center, radius, n, k)),
        ),
        pos_key(spawned(chunks, center, radius, n)[k].world_pos) == cell_key(
            center,
            radius,
            spawned_cell(chunks, center, radius, n, k),
        ),
        forall|j: int|
            0 <= j < k ==> spawned_cell(chunks, center, radius, n, j) < spawned_cell(
                chunks,
                center,
                radius,
                n,
                k,
            ),
    decreases n,
{
    if n > 0 {
        let rest = spawned(chunks, center, radius, (n - 1) as nat);
        if k < rest.len() {
            lemma_spawned_cell(chunks, center, radius, (n - 1) as nat, k);
            assert forall|j: int| 0 <= j < k implies spawned_cell(chunks, center, radius, n, j)
                < spawned_cell(chunks, center, radius, n, k) by {
                assert(spawned_cell(chunks, center, radius, n, j) == spawned_cell(
                    chunks,
                    center,
                    radius,
                    (n - 1) as nat,
                    j,
                ));
            }
        } else {
            assert(spawned_cell(chunks, center, radius, n, k) == n - 1);
            assert forall|j: int| 0 <= j < k implies spawned_cell(chunks, center, radius, n, j)
                < spawned_cell(chunks, center, radius, n, k) by {
                lemma_spawned_cell(chunks, center, radius, (n - 1) as nat, j);
                assert(spawned_cell(chunks, center, radius, n, j) == spawned_cell(
                    chunks,
                    center,
                    radius,
                    (n - 1) as nat,
                    j,
                ));
            }
        }
    }
}

/// A coordinate of the loaded region that had no record has one among the
/// records made.
pub proof fn lemma_spawned_covers(
    chunks: Seq<Chunk>,
    center: (int, int, int),
    radius: int,
    n: nat,
    i: int,
)
    requires
        0 <= i < n,
        is_chunk_key(cell_key(center, radius, i)),
        !has_record(chunks, cell_key(center, radius, i)),
    ensures
        exists|k: int|
            0 <= k < spawned(chunks, center, radius, n).len() && pos_key(
                (#[trigger] spawned(chunks, center, radius, n)[k]).world_pos,
            ) == cell_key(center, radius, i),
    decreases n,
{
    let all = spawned(chunks, center, radius, n);
    let rest = spawned(chunks, center, radius, (n - 1) as nat);
    if i == n - 1 {
        let k = rest.len() as int;
        assert(all[k] == fresh_chunk(cell_key(center, radius, i)));
        assert(pos_key(all[k].world_pos) == cell_key(center, radius, i));
    } else {
        lemma_spawned_covers(chunks, center, radius, (n - 1) as nat, i);
        let k = choose|k: int|
            0 <= k < rest.len() && pos_key((#[trigger] rest[k]).world_pos) == cell_key(
                center,
                radius,
                i,
            );
        assert(all[k] == rest[k]);
    }
}

/// After the membership computation every chunk of the loaded region has
/// a record.
pub proof fn lemma_membership_covers(
    chunks: Seq<Chunk>,
    center: (int, int, int),
    radius: int,
    key: (int, int, int),
)
    requires
        0 <= radius,
        is_chunk_key(key),
        wanted(key, center, radius),
    ensures
        has_record(membership(chunks, center, radius), key),
{
    let after = membership(chunks, center, radius);
    let side = 2 * radius + 1;
    let n = volume(side) as nat;
    lemma_has_record_among(after, after.len(), key);
    if has_record(chunks, key) {
        lemma_has_record_among(chunks, chunks.len(), key);
        let k = choose|k: int|
            0 <= k < chunks.len() && pos_key((#[trigger] chunks[k]).world_pos) == key;
        assert(after[k] == reviewed(chunks[k], center, radius));
        assert(0 <= k < after.len() && pos_key(after[k].world_pos) == key);
    } else {
        let x = key.0 - (center.0 - radius);
        let y = key.1 - (center.1 - radius);
        let z = key.2 - (center.2 - radius);
        lemma_index_in_volume(side, x, y, z);
        lemma_coords_of_index(side, x, y, z);
        let i = local_index(side, x, y, z);
        assert(cell_key(center, radius, i) == key);
        lemma_spawned_covers(chunks, center, radius, n, i);
        let made = spawned(chunks, center, radius, n);
        let k = choose|k: int|
            0 <= k < made.len() && pos_key((#[trigger] made[k]).world_pos) == key;
        assert(after[chunks.len() + k] == made[k]);
        assert(0 <= chunks.len() + k < after.len() && pos_key(
            after[chunks.len() + k].world_pos,
        ) == key);
    }
}

/// The membership computation keeps to one record for each chunk.
pub proof fn lemma_membership_one_record_each(
    chunks: Seq<Chunk>,
    center: (int, int, int),
    radius: int,
)
    requires
        0 <= radius,
        one_record_each(chunks),
    ensures
        one_record_each(membership(chunks, center, radius)),
{
    let after = membership(chunks, center, radius);
    let n = volume(2 * radius + 1) as nat;
    let made = spawned(chunks, center, radius, n);
    assert forall|i: int, j: int| 0 <= i < j < after.len() implies pos_key(
        (#[trigger] after[i]).world_pos,
    ) != pos_key((#[trigger] after[j]).world_pos) by {
        if j < chunks.len() {
            assert(after[i] == reviewed(chunks[i], center, radius));
            assert(after[j] == reviewed(chunks[j], center, radius));
        } else {
            let kj = j - chunks.len();
            assert(after[j] == made[kj]);
            lemma_spawned_cell(chunks, center, radius, n, kj);
            let cj = spawned_cell(chunks, center, radius, n, kj);
            if i < chunks.len() {
                assert(after[i] == reviewed(chunks[i], center, radius));
                lemma_has_record_among(chunks, chunks.len(), cell_key(center, radius, cj));
            } else {
                let ki = i - chunks.len();
                assert(after[i] == made[ki]);
                lemma_spawned_cell(chunks, center, radius, n, ki);
                let ci = spawned_cell(chunks, center, radius, n, ki);
                lemma_cells(center, radius, ci, cj);
            }
        }
    }
}

} // verus!
