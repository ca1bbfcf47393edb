//! What the player does to the voxel world: picking a block, and breaking
//! and placing blocks.

use crate::chunk::{has_record, lemma_same_places, store_has_records, Chunk};
use crate::grid::local_index;
use crate::registry::Registry;
use crate::table::pos_key;
use crate::voxel_world::{BlockType, VoxelWorld};
use vstd::arithmetic::div_mod::lemma_fundamental_div_mod_converse;
use vstd::prelude::*;

verus! {

/// The player's row of block slots and the slot in use.
pub struct Hotbar {
    pub slots: Vec<Option<BlockType>>,
    pub active_slot: usize,
}

impl Hotbar {
    /// Whether the slot in use is one of the slots.
    pub open spec fn wf(&self) -> bool {
        self.active_slot < self.slots.len()
    }

    /// Moves to the next slot, or to the one before, going round at the
    /// ends of the row.
    pub fn scroll(&mut self, forward: bool)
        requires
            old(self).wf(),
        ensures
            final(self).wf(),
            final(self).slots == old(self).slots,
            final(self).active_slot == if forward {
                (old(self).active_slot + 1) % old(self).slots.len() as int
            } else {
                (old(self).active_slot + old(self).slots.len() - 1) % old(self).slots.len() as int
            },
    {
        let len = self.slots.len();
        if forward {
            self.active_slot = if self.active_slot + 1 == len {
                0
            } else {
                self.active_slot + 1
            };
        } else {
            self.active_slot = if self.active_slot == 0 {
                len - 1
            } else {
                self.active_slot - 1
            };
        }
        proof {
            let a = old(self).active_slot as int;
            let n = len as int;
            if forward {
                if a + 1 == n {
                    lemma_fundamental_div_mod_converse(a + 1, n, 1, 0);
                } else {
                    lemma_fundamental_div_mod_converse(a + 1, n, 0, a + 1);
                }
            } else {
                if a == 0 {
                    lemma_fundamental_div_mod_converse(a + n - 1, n, 0, n - 1);
                } else {
                    lemma_fundamental_div_mod_converse(a + n - 1, n, 1, a - 1);
                }
            }
        }
    }

    /// The block in the slot in use, if the slot holds one.
    pub fn selected(&self) -> (r: Option<BlockType>)
        requires
            self.wf(),
        ensures
            r == self.slots[self.active_slot as int],
    {
        self.slots[self.active_slot]
    }
}

/// The block that the player looks at.
#[derive(Clone, Copy, Debug)]
pub struct TargetBlock {
    pub chunk_pos: [i32; 3],
    pub local_pos: [usize; 3],
    pub block_id: BlockType,
    pub model_id: Option<usize>,
}

impl TargetBlock {
    /// Points the target at the voxel `local_pos` of the chunk at
    /// `chunk_pos`. Nothing changes where that is the voxel already aimed
    /// at, or where the store holds no such voxel; else the target takes
    /// the voxel's place, block and model. Returns whether the target
    /// changed.
    pub fn aim(
        &mut self,
        world: &VoxelWorld,
        registry: &Registry,
        chunk_pos: &[i32; 3],
        local_pos: &[usize; 3],
    ) -> (changed: bool)
        requires
            world.voxel(
                *chunk_pos,
                local_pos[0] as int,
                local_pos[1] as int,
                local_pos[2] as int,
            ) matches Some(b) ==> b < registry@.blocks.len(),
        ensures
            changed == (world.voxel(
                *chunk_pos,
                local_pos[0] as int,
                local_pos[1] as int,
                local_pos[2] as int,
            ) is Some && !(old(self).chunk_pos@ == chunk_pos@ && old(self).local_pos@
                == local_pos@)),
            !changed ==> *final(self) == *old(self),
            changed ==> final(self).chunk_pos == *chunk_pos && final(self).local_pos == *local_pos
                && Some(final(self).block_id) == world.voxel(
                *chunk_pos,
                local_pos[0] as int,
                local_pos[1] as int,
                local_pos[2] as int,
            ) && final(self).model_id == registry@.blocks[final(self).block_id as int].model,
    {
        let same = self.chunk_pos[0] == chunk_pos[0] && self.chunk_pos[1] == chunk_pos[1]
            && self.chunk_pos[2] == chunk_pos[2] && self.local_pos[0] == local_pos[0]
            && self.local_pos[1] == local_pos[1] && self.local_pos[2] == local_pos[2];
        proof {
            if same {
                assert(self.chunk_pos@ =~= chunk_pos@);
                assert(self.local_pos@ =~= local_pos@);
            }
        }
        if same {
            return false;
        }
        match world.find_voxel(chunk_pos, local_pos[0], local_pos[1], local_pos[2]) {
            Some(block_id) => {
                self.chunk_pos = *chunk_pos;
                self.local_pos = *local_pos;
                self.block_id = block_id;
                self.model_id = registry.get_block(block_id).model;
                true
            },
            None => false,
        }
    }
}

/// Whether an edit of the voxel `(x, y, z)` of the chunk at `edited` can
/// change the mesh of the chunk `key`: it is the chunk itself, or the chunk
/// beside it on a side on which the voxel lies.
pub open spec fn edit_touches(
    key: (int, int, int),
    edited: (int, int, int),
    side: int,
    x: int,
    y: int,
    z: int,
) -> bool {
    ||| key == edited
    ||| x == 0 && key == (edited.0 - 1, edited.1, edited.2)
    ||| x == side - 1 && key == (edited.0 + 1, edited.1, edited.2)
    ||| y == 0 && key == (edited.0, edited.1 - 1, edited.2)
    ||| y == side - 1 && key == (edited.0, edited.1 + 1, edited.2)
    ||| z == 0 && key == (edited.0, edited.1, edited.2 - 1)
    ||| z == side - 1 && key == (edited.0, edited.1, edited.2 + 1)
}

/// Tests whether an edit of a voxel of the chunk at `edited` can change
/// the mesh of the chunk at `pos`.
pub fn touches(pos: &[i32; 3], edited: &[i32; 3], side: usize, local: &[usize; 3]) -> (b: bool)
    ensures
        b == edit_touches(
            pos_key(*pos),
            pos_key(*edited),
            side as int,
            local[0] as int,
            local[1] as int,
            local[2] as int,
        ),
{
    let dx = pos[0] as i64 - edited[0] as i64;
    let dy = pos[1] as i64 - edited[1] as i64;
    let dz = pos[2] as i64 - edited[2] as i64;
    if dy == 0 && dz == 0 {
        dx == 0 || (dx == -1 && local[0] == 0) || (dx == 1 && side > 0 && local[0] == side - 1)
    } else if dx == 0 && dz == 0 {
        (dy == -1 && local[1] == 0) || (dy == 1 && side > 0 && local[1] == side - 1)
    } else if dx == 0 && dy == 0 {
        (dz == -1 && local[2] == 0) || (dz == 1 && side > 0 && local[2] == side - 1)
    } else {
        false
    }
}

/// Whether the player's edit is carried out: breaking always is, placing
/// only where the voxel holds air.
pub open spec fn edit_applies(found: Option<BlockType>, destroying: bool, air: BlockType) -> bool {
    destroying || found == Some(air)
}

/// A record after an edit: due for meshing where the edit can have changed
/// its chunk's mesh, and dirty where its chunk is the one that was written
/// to.
pub open spec fn edited_record(c: Chunk, remesh: bool, written: bool) -> Chunk {
    Chunk { needs_meshing: c.needs_meshing || remesh, dirty: c.dirty || written, ..c }
}

/// Breaks the block at the voxel `local` of the chunk at `chunk_pos`, or
/// places `block` there. Breaking writes `block`, which is then air,
/// whatever the voxel holds; placing writes only over air. Where the edit
/// is carried out, the chunk and the chunks that the voxel borders on
/// become due for meshing, and the chunk becomes dirty if the store holds
/// the voxel; an edit of a voxel that the store does not hold writes
/// nothing. Returns whether the edit was carried out.
pub fn player_break_place_block(
    chunks: &mut Vec<Chunk>,
    world: &mut VoxelWorld,
    chunk_pos: &[i32; 3],
    local: &[usize; 3],
    block: BlockType,
    destroying: bool,
    air: BlockType,
) -> (applied: bool)
    ensures
        old(world).wf() ==> final(world).wf(),
        final(world).chunk_len == old(world).chunk_len,
        applied == edit_applies(
            old(world).voxel(*chunk_pos, local[0] as int, local[1] as int, local[2] as int),
            destroying,
            air,
        ),
        final(world).entries() == if applied && old(world).voxel(
            *chunk_pos,
            local[0] as int,
            local[1] as int,
            local[2] as int,
        ) is Some {
            old(world).entries().insert(
                pos_key(*chunk_pos),
                old(world).chunk(*chunk_pos).update(
                    local_index(
                        old(world).chunk_len as int,
                        local[0] as int,
                        local[1] as int,
                        local[2] as int,
                    ),
                    block,
                ),
            )
        } else {
            old(world).entries()
        },
        final(chunks)@.len() == old(chunks)@.len(),
        forall|k: int|
            0 <= k < old(chunks)@.len() ==> #[trigger] final(chunks)@[k] == edited_record(
                old(chunks)@[k],
                applied && edit_touches(
                    pos_key(old(chunks)@[k].world_pos),
                    pos_key(*chunk_pos),
                    old(world).chunk_len as int,
                    local[0] as int,
                    local[1] as int,
                    local[2] as int,
                ),
                applied && old(world).voxel(
                    *chunk_pos,
                    local[0] as int,
                    local[1] as int,
                    local[2] as int,
                ) is Some && pos_key(old(chunks)@[k].world_pos) == pos_key(*chunk_pos),
            ),
        store_has_records(old(chunks)@, old(world).entries()) ==> store_has_records(
            final(chunks)@,
            final(world).entries(),
        ),
{
    let ghost before = chunks@;
    let side = world.chunk_len;
    let found = world.find_voxel(chunk_pos, local[0], local[1], local[2]);
    let applied = destroying || match found {
        Some(b) => b == air,
        None => false,
    };
    if !applied {
        assert forall|k: int| 0 <= k < before.len() implies #[trigger] chunks@[k] == edited_record(
            before[k],
            false,
            false,
        ) by {
            assert(chunks@[k].world_pos =~= edited_record(before[k], false, false).world_pos);
        }
        return false;
    }
    let written = world.put_voxel(chunk_pos, local[0], local[1], local[2], block);
    let mut i: usize = 0;
    while i < chunks.len()
        invariant
            i <= chunks.len(),
            chunks.len() == before.len(),
            forall|k: int|
                0 <= k < i ==> #[trigger] chunks[k] == edited_record(
                    before[k],
                    edit_touches(
                        pos_key(before[k].world_pos),
                        pos_key(*chunk_pos),
                        side as int,
                        local[0] as int,
                        local[1] as int,
                        local[2] as int,
                    ),
                    written && pos_key(before[k].world_pos) == pos_key(*chunk_pos),
                ),
            forall|k: int| i <= k < chunks.len() ==> #[trigger] chunks[k] == before[k],
        decreases chunks.len() - i,
    {
        let mut chunk = chunks[i];
        let remesh = touches(&chunk.world_pos, chunk_pos, side, local);
        let here = chunk.world_pos[0] == chunk_pos[0] && chunk.world_pos[1] == chunk_pos[1]
            && chunk.world_pos[2] == chunk_pos[2];
        if remesh {
            chunk.needs_meshing = true;
        }
        if written && here {
            chunk.dirty = true;
        }
        assert(chunk.world_pos =~= before[i as int].world_pos);
        chunks[i] = chunk;
        i += 1;
    }
    proof {
        if store_has_records(before, old(world).entries()) {
            assert forall|key: (int, int, int)| #[trigger]
                world.entries().contains_key(key) implies has_record(chunks@, key) by {
                assert(old(world).entries().contains_key(key));
                lemma_same_places(before, chunks@, key);
            }
        }
    }
    true
}

} // verus!
