//! Terrain generation: from one noise sample per voxel to the chunk's array
//! of block ids.

use crate::grid::{
    in_chunk, index_x, index_y, index_z, lemma_coords_of_index, lemma_index_carry,
    lemma_index_in_volume, lemma_index_of_coords, lemma_index_step_y, local_index,
    local_pos_to_idx, volume,
};
use crate::voxel_world::BlockType;
use vstd::prelude::*;

verus! {

/// The ids of the five block types that the generator writes.
#[derive(Clone, Copy, Debug)]
pub struct TerrainBlocks {
    pub air: BlockType,
    pub stone: BlockType,
    pub grass: BlockType,
    pub dirt: BlockType,
    pub stone_fence: BlockType,
}

impl TerrainBlocks {
    /// Whether the five ids differ from one another.
    pub open spec fn distinct(&self) -> bool {
        &&& self.air != self.stone
        &&& self.air != self.grass
        &&& self.air != self.dirt
        &&& self.air != self.stone_fence
        &&& self.stone != self.grass
        &&& self.stone != self.dirt
        &&& self.stone != self.stone_fence
        &&& self.grass != self.dirt
        &&& self.grass != self.stone_fence
        &&& self.dirt != self.stone_fence
    }
}

/// Whether a noise sample, given as the bit pattern of an IEEE 754 single,
/// is greater than zero: sign bit clear, not zero, not a NaN.
pub open spec fn sample_is_positive(bits: u32) -> bool {
    0 < bits <= 0x7F80_0000
}

/// Tests a noise sample's bit pattern for a value greater than zero.
pub fn is_positive_sample(bits: u32) -> (b: bool)
    ensures
        b == sample_is_positive(bits),
{
    0 < bits && bits <= 0x7F80_0000
}

/// The array before the column pass: stone where the sample is positive,
/// air elsewhere.
pub open spec fn provisional(samples: Seq<u32>, blocks: TerrainBlocks) -> Seq<BlockType> {
    Seq::new(
        samples.len(),
        |i: int|
            if sample_is_positive(samples[i]) {
                blocks.stone
            } else {
                blocks.air
            },
    )
}

/// What the column pass makes of a voxel that is not air: grass directly
/// under air, dirt where air begins two or three voxels up, itself
/// otherwise. The voxels above are read as the pass found them.
pub open spec fn covered(
    before: Seq<BlockType>,
    side: int,
    blocks: TerrainBlocks,
    x: int,
    y: int,
    z: int,
) -> BlockType {
    if y + 1 < side && before[local_index(side, x, y + 1, z)] == blocks.air {
        blocks.grass
    } else if y + 2 < side && before[local_index(side, x, y + 2, z)] == blocks.air {
        blocks.dirt
    } else if y + 3 < side && before[local_index(side, x, y + 3, z)] == blocks.air {
        blocks.dirt
    } else {
        before[local_index(side, x, y, z)]
    }
}

/// What the column pass makes of the voxel `(x, y, z)`. An air voxel turns
/// into a fence where the voxel below it, as the pass left it, is neither
/// air nor a fence; any other voxel is `covered`.
pub open spec fn settled(
    before: Seq<BlockType>,
    side: int,
    blocks: TerrainBlocks,
    x: int,
    y: int,
    z: int,
) -> BlockType
    decreases y,
{
    let here = before[local_index(side, x, y, z)];
    if here == blocks.air {
        if y > 0 {
            let below = settled(before, side, blocks, x, y - 1, z);
            if below != blocks.air && below != blocks.stone_fence {
                blocks.stone_fence
            } else {
                here
            }
        } else {
            here
        }
    } else {
        covered(before, side, blocks, x, y, z)
    }
}

/// The array after the column pass over `before`.
pub open spec fn classified(before: Seq<BlockType>, side: int, blocks: TerrainBlocks) -> Seq<
    BlockType,
> {
    Seq::new(
        before.len(),
        |i: int|
            settled(before, side, blocks, index_x(side, i), index_y(side, i), index_z(side, i)),
    )
}

/// The voxel array generated from the noise samples of one chunk.
pub open spec fn terrain(samples: Seq<u32>, side: int, blocks: TerrainBlocks) -> Seq<BlockType> {
    classified(provisional(samples, blocks), side, blocks)
}

/// Runs the column pass over a chunk's array in place.
pub fn shape_terrain(voxels: &mut Vec<BlockType>, side: usize, blocks: &TerrainBlocks)
    requires
        old(voxels).len() == volume(side as int),
    ensures
        final(voxels)@ == classified(old(voxels)@, side as int, *blocks),
{
    let ghost before = voxels@;
    let ghost target = classified(before, side as int, *blocks);
    let ghost s = side as int;
    assert(voxels.len() == voxels@.len());
    proof {
        lemma_index_carry(s, 0, 0);
    }
    let mut n: usize = 0;
    let mut z: usize = 0;
    while z < side
        invariant
            s == side,
            z <= side,
            n == local_index(s, 0, 0, z as int),
            voxels.len() == volume(s) == before.len(),
            volume(s) <= usize::MAX,
            target == classified(before, s, *blocks),
            forall|i: int|
                0 <= i < voxels.len() ==> voxels[i] == if i < n {
                    target[i]
                } else {
                    before[i]
                },
        decreases side - z,
    {
        let mut y: usize = 0;
        while y < side
            invariant
                s == side,
                z < side,
                y <= side,
                n == local_index(s, 0, y as int, z as int),
                voxels.len() == volume(s) == before.len(),
                volume(s) <= usize::MAX,
                target == classified(before, s, *blocks),
                forall|i: int|
                    0 <= i < voxels.len() ==> voxels[i] == if i < n {
                        target[i]
                    } else {
                        before[i]
                    },
            decreases side - y,
        {
            let mut x: usize = 0;
            while x < side
                invariant
                    s == side,
                    z < side,
                    y < side,
                    x <= side,
                    n == local_index(s, x as int, y as int, z as int),
                    voxels.len() == volume(s) == before.len(),
                    volume(s) <= usize::MAX,
                    target == classified(before, s, *blocks),
                    forall|i: int|
                        0 <= i < voxels.len() ==> voxels[i] == if i < n {
                            target[i]
                        } else {
                            before[i]
                        },
                decreases side - x,
            {
                proof {
                    lemma_index_in_volume(s, x as int, y as int, z as int);
                    lemma_coords_of_index(s, x as int, y as int, z as int);
                    assert(target[n as int] == settled(
                        before,
                        s,
                        *blocks,
                        x as int,
                        y as int,
                        z as int,
                    ));
                }
                let i = local_pos_to_idx(side, x, y, z);
                if voxels[i] == blocks.air {
                    if y > 0 {
                        proof {
                            lemma_index_in_volume(s, x as int, y - 1, z as int);
                            lemma_coords_of_index(s, x as int, y - 1, z as int);
                            lemma_index_step_y(s, x as int, y - 1, z as int, 1);
                        }
                        let below = voxels[local_pos_to_idx(side, x, y - 1, z)];
                        if below != blocks.air && below != blocks.stone_fence {
                            voxels[i] = blocks.stone_fence;
                        }
                    }
                } else {
                    proof {
                        lemma_index_step_y(s, x as int, y as int, z as int, 1);
                        lemma_index_step_y(s, x as int, y as int, z as int, 2);
                        lemma_index_step_y(s, x as int, y as int, z as int, 3);
                        if y + 1 < side {
                            lemma_index_in_volume(s, x as int, y + 1, z as int);
                        }
                        if y + 2 < side {
                            lemma_index_in_volume(s, x as int, y + 2, z as int);
                        }
                        if y + 3 < side {
                            lemma_index_in_volume(s, x as int, y + 3, z as int);
                        }
                    }
                    if side - y > 1 && voxels[local_pos_to_idx(side, x, y + 1, z)] == blocks.air {
                        voxels[i] = blocks.grass;
                    } else if side - y > 2 && voxels[local_pos_to_idx(side, x, y + 2, z)]
                        == blocks.air {
                        voxels[i] = blocks.dirt;
                    } else if side - y > 3 && voxels[local_pos_to_idx(side, x, y + 3, z)]
                        == blocks.air {
                        voxels[i] = blocks.dirt;
                    }
                }
                n += 1;
                x += 1;
            }
            proof {
                lemma_index_carry(s, y as int, z as int);
            }
            y += 1;
        }
        proof {
            lemma_index_carry(s, 0, z as int);
        }
        z += 1;
    }
    proof {
        lemma_index_carry(s, 0, 0);
        assert(voxels@ =~= target);
    }
}

/// Generates the voxel array of one chunk from its noise samples, one
/// sample per voxel in array order.
pub fn generate_chunk_voxels(samples: &Vec<u32>, side: usize, blocks: &TerrainBlocks) -> (voxels:
    Vec<BlockType>)
    requires
        samples.len() == volume(side as int),
    ensures
        voxels@ == terrain(samples@, side as int, *blocks),
{
    let mut voxels: Vec<BlockType> = Vec::with_capacity(samples.len());
    let mut i: usize = 0;
    while i < samples.len()
        invariant
            i <= samples.len(),
            voxels.len() == i,
            forall|k: int|
                0 <= k < i ==> voxels[k] == if sample_is_positive(samples[k]) {
                    blocks.stone
                } else {
                    blocks.air
                },
        decreases samples.len() - i,
    {
        if is_positive_sample(samples[i]) {
            voxels.push(blocks.stone);
        } else {
            voxels.push(blocks.air);
        }
        i += 1;
    }
    assert(voxels@ =~= provisional(samples@, *blocks));
    shape_terrain(&mut voxels, side, blocks);
    voxels
}

/// Generation is a function of the signs of the samples: two sets of
/// samples that are positive at the same places give the same terrain.
pub proof fn lemma_terrain_depends_on_signs(
    samples1: Seq<u32>,
    samples2: Seq<u32>,
    side: int,
    blocks: TerrainBlocks,
)
    requires
        samples1.len() == samples2.len(),
        forall|i: int|
            0 <= i < samples1.len() ==> sample_is_positive(#[trigger] samples1[i])
                == sample_is_positive(samples2[i]),
    ensures
        terrain(samples1, side, blocks) == terrain(samples2, side, blocks),
{
    assert(provisional(samples1, blocks) =~= provisional(samples2, blocks));
}

/// Every voxel of generated terrain holds one of the five terrain blocks.
pub proof fn lemma_terrain_blocks(samples: Seq<u32>, side: int, blocks: TerrainBlocks, i: int)
    requires
        samples.len() == volume(side),
        0 <= i < samples.len(),
    ensures
        terrain(samples, side, blocks)[i] == blocks.air || terrain(samples, side, blocks)[i]
            == blocks.stone || terrain(samples, side, blocks)[i] == blocks.grass || terrain(
            samples,
            side,
            blocks,
        )[i] == blocks.dirt || terrain(samples, side, blocks)[i] == blocks.stone_fence,
{
    lemma_index_of_coords(side, i);
}

/// With five different blocks, the column pass over freshly classified
/// samples leaves a voxel as follows: air stays air, except directly above
/// a solid voxel, where it becomes a fence; a solid voxel becomes grass
/// directly under air, dirt where air begins two or three voxels up, and
/// stays stone otherwise.
pub proof fn lemma_settled_terrain(
    samples: Seq<u32>,
    side: int,
    blocks: TerrainBlocks,
    x: int,
    y: int,
    z: int,
)
    requires
        blocks.distinct(),
        samples.len() == volume(side),
        in_chunk(side, x, y, z),
    ensures
        ({
            let before = provisional(samples, blocks);
            let here = before[local_index(side, x, y, z)];
            let after = settled(before, side, blocks, x, y, z);
            &&& here == blocks.air ==> after == if y > 0 && before[local_index(side, x, y - 1, z)]
                == blocks.stone {
                blocks.stone_fence
            } else {
                blocks.air
            }
            &&& here != blocks.air ==> here == blocks.stone && after == covered(
                before,
                side,
                blocks,
                x,
                y,
                z,
            )
        }),
{
    let before = provisional(samples, blocks);
    lemma_index_in_volume(side, x, y, z);
    if y > 0 {
        lemma_index_in_volume(side, x, y - 1, z);
        let below = settled(before, side, blocks, x, y - 1, z);
        if before[local_index(side, x, y - 1, z)] == blocks.stone {
            assert(below == covered(before, side, blocks, x, y - 1, z));
            assert(below != blocks.air && below != blocks.stone_fence);
        } else {
            assert(below == blocks.air || below == blocks.stone_fence);
        }
    }
}

} // verus!
