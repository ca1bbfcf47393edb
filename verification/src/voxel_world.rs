//! The voxel store: one dense array of block ids per loaded chunk.

use crate::grid::{checked_local_index, chunk_volume, local_index, local_pos_to_idx, volume};
use crate::table::{
    chunk_table_entries, pos_key, table_get, table_get_mut, table_insert, table_new,
    table_remove, ChunkTable,
};
use vstd::prelude::*;

verus! {

/// Numeric id of a block type.
pub type BlockType = usize;

/// Sparse map from chunk coordinate to the chunk's voxel array.
pub struct VoxelWorld {
    /// Side length of every chunk, in voxels.
    pub chunk_len: usize,
    /// The arrays of the loaded chunks.
    pub voxels: ChunkTable,
}

/// Another name of the store.
pub type VoxelStorage = VoxelWorld;

impl VoxelWorld {
    /// The arrays held, by chunk coordinate.
    pub open spec fn entries(&self) -> Map<(int, int, int), Seq<BlockType>> {
        chunk_table_entries(self.voxels)
    }

    /// Whether the chunk at `pos` is loaded.
    pub open spec fn loaded(&self, pos: [i32; 3]) -> bool {
        self.entries().contains_key(pos_key(pos))
    }

    /// The array of the chunk at `pos`.
    pub open spec fn chunk(&self, pos: [i32; 3]) -> Seq<BlockType> {
        self.entries()[pos_key(pos)]
    }

    /// The block at the local position `(x, y, z)` of the chunk at `pos`:
    /// `None` where the chunk is not loaded or its array has no such
    /// place.
    pub open spec fn voxel(&self, pos: [i32; 3], x: int, y: int, z: int) -> Option<BlockType> {
        if self.loaded(pos) && 0 <= local_index(self.chunk_len as int, x, y, z) < self.chunk(
            pos,
        ).len() {
            Some(self.chunk(pos)[local_index(self.chunk_len as int, x, y, z)])
        } else {
            None
        }
    }

    /// Number of voxels in each chunk.
    pub open spec fn chunk_volume(&self) -> int {
        volume(self.chunk_len as int)
    }

    /// The store's invariant: the chunk volume fits the machine and every
    /// stored array has exactly that many voxels.
    pub open spec fn wf(&self) -> bool {
        &&& self.chunk_volume() <= usize::MAX
        &&& forall|k: (int, int, int)| #[trigger]
            self.entries().contains_key(k) ==> self.entries()[k].len() == self.chunk_volume()
    }

    /// An empty store for chunks of side `chunk_len`.
    pub fn new(chunk_len: usize) -> (world: Self)
        requires
            volume(chunk_len as int) <= usize::MAX,
        ensures
            world.wf(),
            world.chunk_len == chunk_len,
            world.entries() == Map::<(int, int, int), Seq<BlockType>>::empty(),
    {
        VoxelWorld { chunk_len, voxels: table_new() }
    }

    /// Whether the chunk at `chunk_pos` is loaded.
    pub fn is_loaded(&self, chunk_pos: &[i32; 3]) -> (b: bool)
        ensures
            b == self.loaded(*chunk_pos),
    {
        table_get(&self.voxels, chunk_pos).is_some()
    }

    /// The block at local position `(local_x, local_y, local_z)` of the chunk
    /// at `chunk_pos`; `None` where that chunk is not loaded.
    pub fn get_voxel(
        &self,
        chunk_pos: &[i32; 3],
        local_x: usize,
        local_y: usize,
        local_z: usize,
    ) -> (r: Option<BlockType>)
        requires
            self.loaded(*chunk_pos) ==> 0 <= local_index(
                self.chunk_len as int,
                local_x as int,
                local_y as int,
                local_z as int,
            ) < self.chunk(*chunk_pos).len(),
        ensures
            r == if self.loaded(*chunk_pos) {
                Some(
                    self.chunk(*chunk_pos)[local_index(
                        self.chunk_len as int,
                        local_x as int,
                        local_y as int,
                        local_z as int,
                    )],
                )
            } else {
                None
            },
    {
        match table_get(&self.voxels, chunk_pos) {
            Some(chunk) => {
                assert(chunk.len() == chunk@.len());
                let idx = local_pos_to_idx(self.chunk_len, local_x, local_y, local_z);
                Some(chunk[idx])
            },
            None => None,
        }
    }

    /// Writes `block_type` at a local position of the chunk at `chunk_pos`.
    /// Where that chunk is not loaded the edit is dropped and the store is
    /// left as it was.
    pub fn set_voxel(
        &mut self,
        chunk_pos: &[i32; 3],
        local_x: usize,
        local_y: usize,
        local_z: usize,
        block_type: BlockType,
    )
        requires
            old(self).loaded(*chunk_pos) ==> 0 <= local_index(
                old(self).chunk_len as int,
                local_x as int,
                local_y as int,
                local_z as int,
            ) < old(self).chunk(*chunk_pos).len(),
        ensures
            final(self).chunk_len == old(self).chunk_len,
            final(self).entries() == if old(self).loaded(*chunk_pos) {
                old(self).entries().insert(
                    pos_key(*chunk_pos),
                    old(self).chunk(*chunk_pos).update(
                        local_index(
                            old(self).chunk_len as int,
                            local_x as int,
                            local_y as int,
                            local_z as int,
                        ),
                        block_type,
                    ),
                )
            } else {
                old(self).entries()
            },
            old(self).wf() ==> final(self).wf(),
    {
        let side = self.chunk_len;
        match table_get_mut(&mut self.voxels, chunk_pos) {
            Some(chunk) => {
                assert(chunk.len() == chunk@.len());
                let idx = local_pos_to_idx(side, local_x, local_y, local_z);
                chunk[idx] = block_type;
            },
            None => {},
        }
    }

    /// The block at a local position of the chunk at `chunk_pos`, for any
    /// position: `None` where the chunk is not loaded or its array has no
    /// such place.
    pub fn find_voxel(
        &self,
        chunk_pos: &[i32; 3],
        local_x: usize,
        local_y: usize,
        local_z: usize,
    ) -> (r: Option<BlockType>)
        ensures
            r == self.voxel(*chunk_pos, local_x as int, local_y as int, local_z as int),
    {
        match table_get(&self.voxels, chunk_pos) {
            Some(chunk) => match checked_local_index(self.chunk_len, local_x, local_y, local_z) {
                Some(idx) => if idx < chunk.len() {
                    Some(chunk[idx])
                } else {
                    None
                },
                None => {
                    assert(chunk.len() == chunk@.len());
                    None
                },
            },
            None => None,
        }
    }

    /// Writes `block_type` at a local position of the chunk at `chunk_pos`,
    /// for any position, and says whether it did: nothing is written where
    /// the chunk is not loaded or its array has no such place.
    pub fn put_voxel(
        &mut self,
        chunk_pos: &[i32; 3],
        local_x: usize,
        local_y: usize,
        local_z: usize,
        block_type: BlockType,
    ) -> (written: bool)
        ensures
            final(self).chunk_len == old(self).chunk_len,
            written == old(self).voxel(
                *chunk_pos,
                local_x as int,
                local_y as int,
                local_z as int,
            ) is Some,
            final(self).entries() == if written {
                old(self).entries().insert(
                    pos_key(*chunk_pos),
                    old(self).chunk(*chunk_pos).update(
                        local_index(
                            old(self).chunk_len as int,
                            local_x as int,
                            local_y as int,
                            local_z as int,
                        ),
                        block_type,
                    ),
                )
            } else {
                old(self).entries()
            },
            old(self).wf() ==> final(self).wf(),
    {
        let side = self.chunk_len;
        match table_get_mut(&mut self.voxels, chunk_pos) {
            Some(chunk) => match checked_local_index(side, local_x, local_y, local_z) {
                Some(idx) => if idx < chunk.len() {
                    chunk[idx] = block_type;
                    true
                } else {
                    assert(chunk@ == old(self).chunk(*chunk_pos));
                    assert(old(self).entries().insert(pos_key(*chunk_pos), chunk@)
                        =~= old(self).entries());
                    false
                },
                None => {
                    assert(chunk.len() == chunk@.len());
                    assert(old(self).entries().insert(pos_key(*chunk_pos), chunk@)
                        =~= old(self).entries());
                    false
                },
            },
            None => false,
        }
    }

    /// The array of the chunk at `chunk_pos`, if it is loaded.
    pub fn get_chunk(&self, chunk_pos: &[i32; 3]) -> (r: Option<&Vec<BlockType>>)
        ensures
            r is Some <==> self.loaded(*chunk_pos),
            r matches Some(v) ==> v@ == self.chunk(*chunk_pos),
    {
        table_get(&self.voxels, chunk_pos)
    }

    /// Mutable access to the array of the chunk at `chunk_pos`, if it is
    /// loaded. The store afterwards holds whatever the caller leaves in the
    /// array: it stays well formed exactly if the length is kept.
    pub fn get_chunk_mut(&mut self, chunk_pos: &[i32; 3]) -> (r: Option<&mut Vec<BlockType>>)
        ensures
            final(self).chunk_len == old(self).chunk_len,
            r is Some <==> old(self).loaded(*chunk_pos),
            r matches Some(v) ==> v@ == old(self).chunk(*chunk_pos) && final(self).entries()
                == old(self).entries().insert(pos_key(*chunk_pos), final(v)@),
            r is None ==> final(self).entries() == old(self).entries(),
    {
        table_get_mut(&mut self.voxels, chunk_pos)
    }

    /// Installs `chunk_voxels` as the array of the chunk at `chunk_pos`,
    /// in place of any array it had.
    pub fn load_chunk(&mut self, chunk_pos: &[i32; 3], chunk_voxels: Vec<BlockType>)
        requires
            chunk_voxels.len() == old(self).chunk_volume(),
        ensures
            final(self).chunk_len == old(self).chunk_len,
            final(self).entries() == old(self).entries().insert(pos_key(*chunk_pos), chunk_voxels@),
            old(self).wf() ==> final(self).wf(),
    {
        let _ = table_insert(&mut self.voxels, *chunk_pos, chunk_voxels);
    }

    /// Removes the array of the chunk at `chunk_pos`, if it has one.
    pub fn unload_chunk(&mut self, chunk_pos: &[i32; 3])
        ensures
            final(self).chunk_len == old(self).chunk_len,
            final(self).entries() == old(self).entries().remove(pos_key(*chunk_pos)),
            old(self).wf() ==> final(self).wf(),
    {
        let _ = table_remove(&mut self.voxels, chunk_pos);
    }

    /// Index of the voxel `(x, y, z)` in a chunk's array.
    pub fn local_pos_to_idx(&self, x: usize, y: usize, z: usize) -> (idx: usize)
        requires
            local_index(self.chunk_len as int, x as int, y as int, z as int) <= usize::MAX,
        ensures
            idx == local_index(self.chunk_len as int, x as int, y as int, z as int),
    {
        local_pos_to_idx(self.chunk_len, x, y, z)
    }

    /// Number of voxels in each chunk.
    pub fn voxels_per_chunk(&self) -> (n: usize)
        requires
            self.chunk_volume() <= usize::MAX,
        ensures
            n == self.chunk_volume(),
    {
        chunk_volume(self.chunk_len)
    }
}

} // verus!
