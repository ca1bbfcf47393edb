//! The mesh builder: from the voxels of a chunk and of its six neighbours to
//! the vertices of the faces that can be seen, and their triangle indices.

use crate::grid::{
    checked_volume, in_chunk, index_x, index_y, index_z, lemma_coords_of_index,
    lemma_index_carry, lemma_index_in_volume, lemma_index_of_coords, local_index,
    local_pos_to_idx, volume,
};
use crate::registry::{
    default_role, Block, BlockView, FaceView, Model, ModelView, Registry, RegistryView,
};
use crate::table::{is_chunk_key, pos_key};
use crate::voxel_world::{BlockType, VoxelWorld};
use vstd::arithmetic::div_mod::lemma_fundamental_div_mod_converse;
use vstd::prelude::*;

verus! {

/// One vertex of a chunk's mesh: the voxel it belongs to, the model, face
/// and vertex of the model that it is a copy of, and its texture id. The
/// vertex lies where the model's vertex lies, moved by the voxel's local
/// position.
#[derive(Clone, Copy, Debug, PartialEq, Eq, Structural)]
pub struct MeshVertex {
    pub x: usize,
    pub y: usize,
    pub z: usize,
    pub model: usize,
    pub face: usize,
    pub vertex: usize,
    pub texture: usize,
}

/// Whether a face is emitted under the given cull flags: it is unless it
/// names a direction whose flag is set.
pub open spec fn face_visible(face: FaceView, cull: Seq<bool>) -> bool {
    !(face.cull is Some && cull[face.cull->0 as int])
}

/// The texture id of a face on a block: the block's texture for the face's
/// role where it defines one, its default texture otherwise.
pub open spec fn face_texture(face: FaceView, block: BlockView) -> usize {
    if block.textures.contains_key(face.texture) {
        block.textures[face.texture]
    } else {
        block.textures[default_role()]
    }
}

/// The vertices of face number `face` of a model, placed at a voxel.
pub open spec fn face_vertices(
    vertex_count: usize,
    offset: Seq<usize>,
    model: usize,
    face: usize,
    texture: usize,
) -> Seq<MeshVertex> {
    Seq::new(
        vertex_count as nat,
        |j: int|
            MeshVertex {
                x: offset[0],
                y: offset[1],
                z: offset[2],
                model,
                face,
                vertex: j as usize,
                texture,
            },
    )
}

/// The vertices that face number `face` of a model adds to a mesh: its own
/// where it is visible, none where it is culled.
pub open spec fn emitted_face(
    model: ModelView,
    face: int,
    cull: Seq<bool>,
    offset: Seq<usize>,
    model_id: usize,
    block: BlockView,
) -> Seq<MeshVertex> {
    if face_visible(model.faces[face], cull) {
        face_vertices(
            model.faces[face].vertex_count,
            offset,
            model_id,
            face as usize,
            face_texture(model.faces[face], block),
        )
    } else {
        Seq::empty()
    }
}

/// The vertices that the first `n` faces of a model add to a mesh.
pub open spec fn first_faces(
    model: ModelView,
    n: nat,
    cull: Seq<bool>,
    offset: Seq<usize>,
    model_id: usize,
    block: BlockView,
) -> Seq<MeshVertex>
    decreases n,
{
    if n == 0 {
        Seq::empty()
    } else {
        first_faces(model, (n - 1) as nat, cull, offset, model_id, block) + emitted_face(
            model,
            n - 1,
            cull,
            offset,
            model_id,
            block,
        )
    }
}

/// The vertices that a model adds to a mesh when it is placed at a voxel.
pub open spec fn model_vertices(
    model: ModelView,
    cull: Seq<bool>,
    offset: Seq<usize>,
    model_id: usize,
    block: BlockView,
) -> Seq<MeshVertex> {
    first_faces(model, model.faces.len(), cull, offset, model_id, block)
}

/// Whether one of the first `n` faces of a model is visible under the
/// given cull flags.
pub open spec fn shows_among(model: ModelView, n: nat, cull: Seq<bool>) -> bool
    decreases n,
{
    n > 0 && (face_visible(model.faces[n - 1], cull) || shows_among(model, (n - 1) as nat, cull))
}

/// A model none of whose first `n` faces is visible adds no vertex for
/// them.
pub proof fn lemma_shows_nothing(
    model: ModelView,
    n: nat,
    cull: Seq<bool>,
    offset: Seq<usize>,
    model_id: usize,
    block: BlockView,
)
    requires
        !shows_among(model, n, cull),
    ensures
        first_faces(model, n, cull, offset, model_id, block) == Seq::<MeshVertex>::empty(),
    decreases n,
{
    if n > 0 {
        lemma_shows_nothing(model, (n - 1) as nat, cull, offset, model_id, block);
    }
}

impl Model {
    /// Appends to `out` the vertices of every face of this model that is
    /// not culled, for the block `block` at the voxel `offset`. `model_id`
    /// is this model's id in the registry. The block needs its default
    /// texture only where a face is visible.
    pub fn mesh(
        &self,
        cull: &[bool; 6],
        offset: &[usize; 3],
        model_id: usize,
        out: &mut Vec<MeshVertex>,
        block: &Block,
    )
        requires
            self@.wf(),
            shows_among(self@, self@.faces.len(), cull@) ==> block@.textures.contains_key(
                default_role(),
            ),
        ensures
            final(out)@ == old(out)@ + model_vertices(self@, cull@, offset@, model_id, block@),
    {
        let ghost start = out@;
        let f_len = self.faces.len();
        let mut shows = false;
        let mut i: usize = 0;
        while i < f_len && !shows
            invariant
                i <= f_len,
                f_len == self.faces.len(),
                self@.wf(),
                shows == shows_among(self@, i as nat, cull@),
            decreases f_len - i,
        {
            let face = &self.faces[i];
            assert(self@.faces[i as int] == face@);
            assert(face@.wf());
            shows = match face.cull {
                Some(c) => !cull[c],
                None => true,
            };
            i += 1;
        }
        if !shows {
            proof {
                lemma_shows_nothing(self@, f_len as nat, cull@, offset@, model_id, block@);
                assert(out@ =~= start + model_vertices(self@, cull@, offset@, model_id, block@));
            }
            return;
        }
        proof {
            lemma_shows_later(self@, i as nat, f_len as nat, cull@);
        }
        let default_t = match block.texture("default") {
            Some(t) => t,
            None => vstd::pervasive::unreached(),
        };
        let mut i: usize = 0;
        while i < f_len
            invariant
                i <= f_len,
                f_len == self.faces.len(),
                self@.wf(),
                default_t == block@.textures[default_role()],
                out@ == start + first_faces(self@, i as nat, cull@, offset@, model_id, block@),
            decreases f_len - i,
        {
            let face = &self.faces[i];
            assert(self@.faces[i as int] == face@);
            assert(face@.wf());
            let culled = match face.cull {
                Some(c) => cull[c],
                None => false,
            };
            if !culled {
                let t = match block.texture(face.texture.as_str()) {
                    Some(t) => t,
                    None => default_t,
                };
                let ghost before = out@;
                let fv_len = face.vertex_count;
                let mut j: usize = 0;
                while j < fv_len
                    invariant
                        j <= fv_len,
                        out@ == before + face_vertices(fv_len, offset@, model_id, i, t).take(
                            j as int,
                        ),
                    decreases fv_len - j,
                {
                    out.push(
                        MeshVertex {
                            x: offset[0],
                            y: offset[1],
                            z: offset[2],
                            model: model_id,
                            face: i,
                            vertex: j,
                            texture: t,
                        },
                    );
                    j += 1;
                }
                assert(face_vertices(fv_len, offset@, model_id, i, t).take(fv_len as int)
                    =~= face_vertices(fv_len, offset@, model_id, i, t));
            }
            assert(out@ =~= start + first_faces(
                self@,
                (i + 1) as nat,
                cull@,
                offset@,
                model_id,
                block@,
            ));
            i += 1;
        }
    }
}

/// A model that shows one of its first faces shows one of its faces.
proof fn lemma_shows_later(model: ModelView, m: nat, n: nat, cull: Seq<bool>)
    requires
        m <= n,
        shows_among(model, m, cull),
    ensures
        shows_among(model, n, cull),
    decreases n,
{
    if m < n {
        lemma_shows_later(model, m, (n - 1) as nat, cull);
    }
}

/// The number of vertices of the first `n` faces of a model.
pub open spec fn vertex_total(faces: Seq<FaceView>, n: nat) -> int
    decreases n,
{
    if n == 0 {
        0
    } else {
        vertex_total(faces, (n - 1) as nat) + faces[n - 1].vertex_count
    }
}

/// The line indices that draw the outline of a face of `count` vertices,
/// the first of which has the index `offset`: each vertex is joined to the
/// next, the last to the first.
pub open spec fn face_outline(offset: int, count: int) -> Seq<u32> {
    Seq::new(
        (2 * count) as nat,
        |k: int|
            if k % 2 == 0 {
                (offset + k / 2) as u32
            } else {
                (offset + (k / 2 + 1) % count) as u32
            },
    )
}

/// The line indices that draw the outlines of the first `n` faces of a
/// model, its vertices numbered face by face.
pub open spec fn first_outlines(faces: Seq<FaceView>, n: nat) -> Seq<u32>
    decreases n,
{
    if n == 0 {
        Seq::empty()
    } else {
        first_outlines(faces, (n - 1) as nat) + face_outline(
            vertex_total(faces, (n - 1) as nat),
            faces[n - 1].vertex_count as int,
        )
    }
}

/// The vertices of a model's faces add up face by face.
pub proof fn lemma_vertex_total_grows(faces: Seq<FaceView>, m: nat, n: nat)
    requires
        m <= n,
    ensures
        0 <= vertex_total(faces, m) <= vertex_total(faces, n),
    decreases n,
{
    if n > 0 {
        if m < n {
            lemma_vertex_total_grows(faces, m, (n - 1) as nat);
        } else {
            lemma_vertex_total_grows(faces, (m - 1) as nat, (n - 1) as nat);
        }
    }
}

impl Model {
    /// The line indices that draw the outline of every face of this model;
    /// `None` where the model has more vertices than 32-bit indices can
    /// name.
    pub fn outline_indices(&self) -> (r: Option<Vec<u32>>)
        ensures
            r is Some <==> vertex_total(self@.faces, self@.faces.len()) <= u32::MAX + 1,
            r matches Some(indices) ==> indices@ == first_outlines(self@.faces, self@.faces.len()),
    {
        let mut indices: Vec<u32> = Vec::new();
        let mut offset: u64 = 0;
        let mut i: usize = 0;
        while i < self.faces.len()
            invariant
                i <= self.faces.len(),
                offset == vertex_total(self@.faces, i as nat),
                offset <= u32::MAX + 1,
                indices@ == first_outlines(self@.faces, i as nat),
            decreases self.faces.len() - i,
        {
            let count = self.faces[i].vertex_count;
            assert(self@.faces[i as int].vertex_count == count);
            if count as u64 > 0x1_0000_0000u64 - offset {
                proof {
                    lemma_vertex_total_grows(
                        self@.faces,
                        (i + 1) as nat,
                        self@.faces.len(),
                    );
                }
                return None;
            }
            let ghost before = indices@;
            let mut j: usize = 0;
            while j < count
                invariant
                    j <= count,
                    offset + count <= u32::MAX + 1,
                    indices@ == before + face_outline(offset as int, count as int).take(2 * j),
                decreases count - j,
            {
                let next = if j + 1 == count {
                    0
                } else {
                    j + 1
                };
                proof {
                    if j + 1 == count {
                        lemma_fundamental_div_mod_converse(j + 1, count as int, 1, 0);
                    } else {
                        lemma_fundamental_div_mod_converse(j + 1, count as int, 0, j + 1);
                    }
                }
                indices.push((offset + j as u64) as u32);
                indices.push((offset + next as u64) as u32);
                assert(indices@ =~= before + face_outline(offset as int, count as int).take(
                    2 * (j + 1),
                ));
                j += 1;
            }
            assert(face_outline(offset as int, count as int).take(2 * count) =~= face_outline(
                offset as int,
                count as int,
            ));
            offset += count as u64;
            i += 1;
        }
        Some(indices)
    }
}

/// The corner of a quad that the `k`-th index of its two triangles names.
pub open spec fn quad_corner(k: int) -> int {
    if k == 0 || k == 3 {
        0
    } else if k == 1 {
        1
    } else if k == 2 || k == 4 {
        2
    } else {
        3
    }
}

/// The triangle indices of `quads` quads: every four vertices in a row are
/// the corners 0, 1, 2, 3 of a quad, cut into the triangles (0, 1, 2) and
/// (0, 2, 3).
pub open spec fn quad_index_seq(quads: int) -> Seq<u32> {
    Seq::new((6 * quads) as nat, |k: int| (4 * (k / 6) + quad_corner(k % 6)) as u32)
}

/// The triangle indices of a mesh of `vertex_count` vertices; `None` where
/// an index would not fit 32 bits. Vertices left over after the last whole
/// quad get no index.
pub fn quad_indices(vertex_count: usize) -> (r: Option<Vec<u32>>)
    ensures
        r is Some <==> 4 * (vertex_count / 4) <= u32::MAX + 1,
        r matches Some(indices) ==> indices@ == quad_index_seq(vertex_count as int / 4),
{
    let quad_count = vertex_count / 4;
    if quad_count > 0x4000_0000 {
        return None;
    }
    let mut indices: Vec<u32> = Vec::new();
    let mut i: usize = 0;
    while i < quad_count
        invariant
            i <= quad_count <= 0x4000_0000,
            indices@ == quad_index_seq(i as int),
        decreases quad_count - i,
    {
        let base = (i * 4) as u32;
        indices.push(base);
        indices.push(base + 1);
        indices.push(base + 2);
        indices.push(base);
        indices.push(base + 2);
        indices.push(base + 3);
        assert(indices@ =~= quad_index_seq(i + 1));
        i += 1;
    }
    Some(indices)
}

/// The step that leads from a voxel to its neighbour in direction `d`:
/// left, right, up, down, front, back.
pub open spec fn step(d: int) -> (int, int, int) {
    if d == 0 {
        (-1, 0, 0)
    } else if d == 1 {
        (1, 0, 0)
    } else if d == 2 {
        (0, 1, 0)
    } else if d == 3 {
        (0, -1, 0)
    } else if d == 4 {
        (0, 0, 1)
    } else {
        (0, 0, -1)
    }
}

/// A coordinate one step outside a chunk, as a coordinate of the chunk
/// beside it.
pub open spec fn wrapped(side: int, v: int) -> int {
    if v < 0 {
        v + side
    } else if v >= side {
        v - side
    } else {
        v
    }
}

/// The arrays of the six chunks around a chunk, by direction; `None` where
/// a chunk is not loaded.
pub open spec fn around_view(around: [Option<&Vec<BlockType>>; 6]) -> Seq<Option<Seq<BlockType>>> {
    Seq::new(
        6,
        |d: int|
            match around[d] {
                Some(v) => Some(v@),
                None => None,
            },
    )
}

/// The block beside the voxel `(x, y, z)` in direction `d`: read from the
/// chunk itself, or from the chunk beside it where the step leaves the
/// chunk; `None` where that chunk is not loaded.
pub open spec fn neighbour_block(
    side: int,
    center: Seq<BlockType>,
    around: Seq<Option<Seq<BlockType>>>,
    x: int,
    y: int,
    z: int,
    d: int,
) -> Option<BlockType> {
    let nx = x + step(d).0;
    let ny = y + step(d).1;
    let nz = z + step(d).2;
    if in_chunk(side, nx, ny, nz) {
        Some(center[local_index(side, nx, ny, nz)])
    } else if around[d] is Some {
        Some(
            around[d]->0[local_index(
                side,
                wrapped(side, nx),
                wrapped(side, ny),
                wrapped(side, nz),
            )],
        )
    } else {
        None
    }
}

/// Whether the faces of the voxel `(x, y, z)` that look in direction `d`
/// are hidden: the block beside it is known and has the same model.
pub open spec fn cull_flag(
    registry: RegistryView,
    side: int,
    center: Seq<BlockType>,
    around: Seq<Option<Seq<BlockType>>>,
    x: int,
    y: int,
    z: int,
    d: int,
) -> bool {
    neighbour_block(side, center, around, x, y, z, d) is Some && registry.blocks[neighbour_block(
        side,
        center,
        around,
        x,
        y,
        z,
        d,
    )->0 as int].model == registry.blocks[center[local_index(side, x, y, z)] as int].model
}

/// The six cull flags of a voxel, by direction.
pub open spec fn cull_flags(
    registry: RegistryView,
    side: int,
    center: Seq<BlockType>,
    around: Seq<Option<Seq<BlockType>>>,
    x: int,
    y: int,
    z: int,
) -> Seq<bool> {
    Seq::new(6, |d: int| cull_flag(registry, side, center, around, x, y, z, d))
}

/// The vertices that the voxel `(x, y, z)` adds to its chunk's mesh: none
/// where its block has no model, else those faces of the model that its
/// neighbours do not hide.
pub open spec fn voxel_vertices(
    registry: RegistryView,
    side: int,
    center: Seq<BlockType>,
    around: Seq<Option<Seq<BlockType>>>,
    x: int,
    y: int,
    z: int,
) -> Seq<MeshVertex> {
    let block = registry.blocks[center[local_index(side, x, y, z)] as int];
    match block.model {
        None => Seq::empty(),
        Some(m) => model_vertices(
            registry.models[m as int],
            cull_flags(registry, side, center, around, x, y, z),
            seq![x as usize, y as usize, z as usize],
            m,
            block,
        ),
    }
}

/// The vertices that the first `n` voxels of a chunk, in array order, add
/// to its mesh.
pub open spec fn first_voxels(
    registry: RegistryView,
    side: int,
    center: Seq<BlockType>,
    around: Seq<Option<Seq<BlockType>>>,
    n: nat,
) -> Seq<MeshVertex>
    decreases n,
{
    if n == 0 {
        Seq::empty()
    } else {
        first_voxels(registry, side, center, around, (n - 1) as nat) + voxel_vertices(
            registry,
            side,
            center,
            around,
            index_x(side, n - 1),
            index_y(side, n - 1),
            index_z(side, n - 1),
        )
    }
}

/// The vertices of a chunk's mesh.
pub open spec fn chunk_vertices(
    registry: RegistryView,
    side: int,
    center: Seq<BlockType>,
    around: Seq<Option<Seq<BlockType>>>,
) -> Seq<MeshVertex> {
    first_voxels(registry, side, center, around, center.len())
}

/// Whether every id of a voxel array is the id of a block of the registry.
pub open spec fn ids_known(voxels: Seq<BlockType>, registry: RegistryView) -> bool {
    forall|i: int| 0 <= i < voxels.len() ==> #[trigger] voxels[i] < registry.blocks.len()
}

/// Whether the arrays around a chunk are fit for meshing it: each one that
/// is there has `count` voxels, all of blocks that the registry knows.
pub open spec fn around_fit(
    around: Seq<Option<Seq<BlockType>>>,
    count: int,
    registry: RegistryView,
) -> bool {
    &&& around.len() == 6
    &&& forall|d: int|
        0 <= d < 6 ==> ((#[trigger] around[d]) matches Some(v) ==> v.len() == count && ids_known(
            v,
            registry,
        ))
}

/// Reads the block beside the voxel `(x, y, z)` in direction `d`.
pub fn block_beside(
    side: usize,
    center: &Vec<BlockType>,
    around: &[Option<&Vec<BlockType>>; 6],
    x: usize,
    y: usize,
    z: usize,
    d: usize,
) -> (r: Option<BlockType>)
    requires
        in_chunk(side as int, x as int, y as int, z as int),
        d < 6,
        center.len() == volume(side as int),
        forall|k: int|
            0 <= k < 6 ==> ((#[trigger] around_view(*around)[k]) matches Some(v) ==> v.len()
                == volume(side as int)),
    ensures
        r == neighbour_block(
            side as int,
            center@,
            around_view(*around),
            x as int,
            y as int,
            z as int,
            d as int,
        ),
{
    let mut nx = x;
    let mut ny = y;
    let mut nz = z;
    let mut outside = false;
    if d == 0 {
        if x == 0 {
            nx = side - 1;
            outside = true;
        } else {
            nx = x - 1;
        }
    } else if d == 1 {
        if side - x == 1 {
            nx = 0;
            outside = true;
        } else {
            nx = x + 1;
        }
    } else if d == 2 {
        if side - y == 1 {
            ny = 0;
            outside = true;
        } else {
            ny = y + 1;
        }
    } else if d == 3 {
        if y == 0 {
            ny = side - 1;
            outside = true;
        } else {
            ny = y - 1;
        }
    } else if d == 4 {
        if side - z == 1 {
            nz = 0;
            outside = true;
        } else {
            nz = z + 1;
        }
    } else {
        if z == 0 {
            nz = side - 1;
            outside = true;
        } else {
            nz = z - 1;
        }
    }
    proof {
        lemma_index_in_volume(side as int, nx as int, ny as int, nz as int);
        assert(center.len() == center@.len());
        assert(around_view(*around)[d as int] is Some ==> around[d as int] is Some);
    }
    if outside {
        match around[d] {
            Some(beside) => {
                assert(around_view(*around)[d as int] == Some(beside@));
                Some(beside[local_pos_to_idx(side, nx, ny, nz)])
            },
            None => None,
        }
    } else {
        Some(center[local_pos_to_idx(side, nx, ny, nz)])
    }
}

/// Computes one cull flag of the voxel `(x, y, z)`, whose block has the
/// model `model`.
fn is_culled(
    registry: &Registry,
    side: usize,
    center: &Vec<BlockType>,
    around: &[Option<&Vec<BlockType>>; 6],
    x: usize,
    y: usize,
    z: usize,
    d: usize,
    model: Option<usize>,
) -> (r: bool)
    requires
        in_chunk(side as int, x as int, y as int, z as int),
        d < 6,
        center.len() == volume(side as int),
        ids_known(center@, registry@),
        around_fit(around_view(*around), volume(side as int), registry@),
        model == registry@.blocks[center[local_index(
            side as int,
            x as int,
            y as int,
            z as int,
        )] as int].model,
    ensures
        r == cull_flag(
            registry@,
            side as int,
            center@,
            around_view(*around),
            x as int,
            y as int,
            z as int,
            d as int,
        ),
{
    proof {
        let s = side as int;
        let nx = x + step(d as int).0;
        let ny = y + step(d as int).1;
        let nz = z + step(d as int).2;
        if in_chunk(s, nx, ny, nz) {
            lemma_index_in_volume(s, nx, ny, nz);
        } else {
            lemma_index_in_volume(s, wrapped(s, nx), wrapped(s, ny), wrapped(s, nz));
        }
    }
    match block_beside(side, center, around, x, y, z, d) {
        Some(beside) => {
            let other = registry.get_block(beside).model;
            match (other, model) {
                (Some(a), Some(b)) => a == b,
                (None, None) => true,
                _ => false,
            }
        },
        None => false,
    }
}

/// Builds the vertices of a chunk's mesh from its array and the arrays of
/// the chunks around it.
pub fn mesh_voxels(
    registry: &Registry,
    side: usize,
    center: &Vec<BlockType>,
    around: &[Option<&Vec<BlockType>>; 6],
) -> (out: Vec<MeshVertex>)
    requires
        center.len() == volume(side as int),
        ids_known(center@, registry@),
        around_fit(around_view(*around), volume(side as int), registry@),
    ensures
        out@ == chunk_vertices(registry@, side as int, center@, around_view(*around)),
{
    registry.known_wf();
    let ghost s = side as int;
    let ghost reg = registry@;
    let ghost sides = around_view(*around);
    let mut out: Vec<MeshVertex> = Vec::new();
    assert(center.len() == center@.len());
    proof {
        lemma_index_carry(s, 0, 0);
    }
    let mut n: usize = 0;
    let mut z: usize = 0;
    while z < side
        invariant
            s == side,
            reg == registry@,
            sides == around_view(*around),
            z <= side,
            n == local_index(s, 0, 0, z as int),
            reg.wf(),
            center.len() == volume(s) <= usize::MAX,
            ids_known(center@, reg),
            around_fit(sides, volume(s), reg),
            out@ == first_voxels(reg, s, center@, sides, n as nat),
        decreases side - z,
    {
        let mut y: usize = 0;
        while y < side
            invariant
                s == side,
                reg == registry@,
                sides == around_view(*around),
                z < side,
                y <= side,
                n == local_index(s, 0, y as int, z as int),
                reg.wf(),
                center.len() == volume(s) <= usize::MAX,
                ids_known(center@, reg),
                around_fit(sides, volume(s), reg),
                out@ == first_voxels(reg, s, center@, sides, n as nat),
            decreases side - y,
        {
            let mut x: usize = 0;
            while x < side
                invariant
                    s == side,
                    reg == registry@,
                    sides == around_view(*around),
                    z < side,
                    y < side,
                    x <= side,
                    n == local_index(s, x as int, y as int, z as int),
                    reg.wf(),
                    center.len() == volume(s) <= usize::MAX,
                    ids_known(center@, reg),
                    around_fit(sides, volume(s), reg),
                    out@ == first_voxels(reg, s, center@, sides, n as nat),
                decreases side - x,
            {
                proof {
                    lemma_index_in_volume(s, x as int, y as int, z as int);
                    lemma_coords_of_index(s, x as int, y as int, z as int);
                }
                let ghost before = out@;
                let block_id = center[n];
                let block = registry.get_block(block_id);
                match block.model {
                    Some(m) => {
                        let model = block.model;
                        let cull = [
                            is_culled(registry, side, center, around, x, y, z, 0, model),
                            is_culled(registry, side, center, around, x, y, z, 1, model),
                            is_culled(registry, side, center, around, x, y, z, 2, model),
                            is_culled(registry, side, center, around, x, y, z, 3, model),
                            is_culled(registry, side, center, around, x, y, z, 4, model),
                            is_culled(registry, side, center, around, x, y, z, 5, model),
                        ];
                        let offset = [x, y, z];
                        assert(cull@ =~= cull_flags(
                            reg,
                            s,
                            center@,
                            sides,
                            x as int,
                            y as int,
                            z as int,
                        ));
                        assert(offset@ =~= seq![x, y, z]);
                        registry.get_model(m).mesh(&cull, &offset, m, &mut out, block);
                    },
                    None => {},
                }
                assert(out@ =~= before + voxel_vertices(
                    reg,
                    s,
                    center@,
                    sides,
                    x as int,
                    y as int,
                    z as int,
                ));
                n += 1;
                x += 1;
            }
            proof {
                lemma_index_carry(s, y as int, z as int);
            }
            y += 1;
        }
        proof {
            lemma_index_carry(s, 0, z as int);
        }
        z += 1;
    }
    proof {
        lemma_index_carry(s, 0, 0);
    }
    out
}

/// The coordinate one step from the chunk `pos` in direction `d`.
pub open spec fn beside_key(pos: [i32; 3], d: int) -> (int, int, int) {
    (pos[0] + step(d).0, pos[1] + step(d).1, pos[2] + step(d).2)
}

/// The arrays that a store holds for the six chunks around the chunk at
/// `pos`, by direction.
pub open spec fn world_around(entries: Map<(int, int, int), Seq<BlockType>>, pos: [i32; 3]) -> Seq<
    Option<Seq<BlockType>>,
> {
    Seq::new(
        6,
        |d: int|
            if is_chunk_key(beside_key(pos, d)) && entries.contains_key(beside_key(pos, d)) {
                Some(entries[beside_key(pos, d)])
            } else {
                None
            },
    )
}

/// The array of the chunk one step from `chunk_pos` in direction `d`, if
/// there is such a chunk and it is loaded.
fn chunk_beside<'a>(world: &'a VoxelWorld, chunk_pos: &[i32; 3], d: usize) -> (r: Option<
    &'a Vec<BlockType>,
>)
    requires
        d < 6,
    ensures
        r is Some <==> world_around(world.entries(), *chunk_pos)[d as int] is Some,
        r matches Some(v) ==> world_around(world.entries(), *chunk_pos)[d as int] == Some(v@),
{
    let dx: i32 = if d == 0 {
        -1
    } else if d == 1 {
        1
    } else {
        0
    };
    let dy: i32 = if d == 2 {
        1
    } else if d == 3 {
        -1
    } else {
        0
    };
    let dz: i32 = if d == 4 {
        1
    } else if d == 5 {
        -1
    } else {
        0
    };
    match (
        chunk_pos[0].checked_add(dx),
        chunk_pos[1].checked_add(dy),
        chunk_pos[2].checked_add(dz),
    ) {
        (Some(x), Some(y), Some(z)) => {
            let beside = [x, y, z];
            assert(pos_key(beside) == beside_key(*chunk_pos, d as int));
            world.get_chunk(&beside)
        },
        _ => None,
    }
}

/// Builds the vertices of the mesh of the chunk at `chunk_pos` from the
/// store: the chunk's own array and those of the loaded chunks around it.
pub fn mesh_chunk(world: &VoxelWorld, registry: &Registry, chunk_pos: &[i32; 3]) -> (out: Vec<
    MeshVertex,
>)
    requires
        world.loaded(*chunk_pos),
        world.chunk(*chunk_pos).len() == world.chunk_volume(),
        ids_known(world.chunk(*chunk_pos), registry@),
        around_fit(world_around(world.entries(), *chunk_pos), world.chunk_volume(), registry@),
    ensures
        out@ == chunk_vertices(
            registry@,
            world.chunk_len as int,
            world.chunk(*chunk_pos),
            world_around(world.entries(), *chunk_pos),
        ),
{
    let center = match world.get_chunk(chunk_pos) {
        Some(v) => v,
        None => vstd::pervasive::unreached(),
    };
    let around = [
        chunk_beside(world, chunk_pos, 0),
        chunk_beside(world, chunk_pos, 1),
        chunk_beside(world, chunk_pos, 2),
        chunk_beside(world, chunk_pos, 3),
        chunk_beside(world, chunk_pos, 4),
        chunk_beside(world, chunk_pos, 5),
    ];
    assert(around_view(around) =~= world_around(world.entries(), *chunk_pos));
    mesh_voxels(registry, world.chunk_len, center, &around)
}

/// The mesh of a chunk: its vertices, four to a quad, and the indices of
/// the quads' triangles.
pub struct ChunkMesh {
    pub vertices: Vec<MeshVertex>,
    pub indices: Vec<u32>,
}

/// Why a chunk's mesh could not be built.
#[derive(Clone, Copy, Debug, PartialEq, Eq, Structural)]
pub enum MeshError {
    /// The chunk is not loaded.
    NotLoaded,
    /// The array of the chunk, or of a chunk beside it, does not have one
    /// id per voxel.
    WrongLength,
    /// The chunk, or a chunk beside it, holds an id that is not the id of
    /// a block of the registry.
    UnknownBlock,
    /// The mesh has more vertices than 32-bit indices can name.
    TooManyVertices,
}

/// The mesh made of the given vertices: `None` where there are none.
pub fn mesh_of(vertices: Vec<MeshVertex>) -> (r: Result<Option<ChunkMesh>, MeshError>)
    ensures
        r is Err <==> 4 * (vertices@.len() / 4) > u32::MAX + 1,
        r matches Err(e) ==> e == MeshError::TooManyVertices,
        r matches Ok(None) ==> vertices@.len() == 0,
        r matches Ok(Some(mesh)) ==> vertices@.len() > 0 && mesh.vertices@ == vertices@
            && mesh.indices@ == quad_index_seq(vertices@.len() as int / 4),
{
    if vertices.len() == 0 {
        return Ok(None);
    }
    match quad_indices(vertices.len()) {
        Some(indices) => Ok(Some(ChunkMesh { vertices, indices })),
        None => Err(MeshError::TooManyVertices),
    }
}

/// Builds the mesh of the chunk at `chunk_pos`: `None` where the chunk has
/// nothing to show, else its vertices and their triangle indices.
pub fn build_chunk_mesh(world: &VoxelWorld, registry: &Registry, chunk_pos: &[i32; 3]) -> (r:
    Result<Option<ChunkMesh>, MeshError>)
    requires
        world.loaded(*chunk_pos),
        world.chunk(*chunk_pos).len() == world.chunk_volume(),
        ids_known(world.chunk(*chunk_pos), registry@),
        around_fit(world_around(world.entries(), *chunk_pos), world.chunk_volume(), registry@),
    ensures
        r is Err <==> 4 * (world_vertices(world, registry@, *chunk_pos).len() / 4) > u32::MAX + 1,
        r matches Err(e) ==> e == MeshError::TooManyVertices,
        r matches Ok(None) ==> world_vertices(world, registry@, *chunk_pos).len() == 0,
        r matches Ok(Some(mesh)) ==> mesh.vertices@.len() > 0 && mesh.vertices@ == world_vertices(
            world,
            registry@,
            *chunk_pos,
        ) && mesh.indices@ == quad_index_seq(mesh.vertices@.len() as int / 4),
{
    mesh_of(mesh_chunk(world, registry, chunk_pos))
}

/// Whether each array that is there has `count` ids.
pub open spec fn lengths_fit(around: Seq<Option<Seq<BlockType>>>, count: int) -> bool {
    forall|d: int| 0 <= d < 6 ==> ((#[trigger] around[d]) matches Some(v) ==> v.len() == count)
}

/// Whether each array that is there holds ids of the registry's blocks
/// only.
pub open spec fn blocks_fit(around: Seq<Option<Seq<BlockType>>>, registry: RegistryView) -> bool {
    forall|d: int|
        0 <= d < 6 ==> ((#[trigger] around[d]) matches Some(v) ==> ids_known(v, registry))
}

/// What stands against meshing the chunk at `pos`, if anything does:
/// whether it is loaded is looked at first, then the lengths of its array
/// and of those around it, then their ids.
pub open spec fn mesh_obstacle(world: &VoxelWorld, registry: RegistryView, pos: [i32; 3]) -> Option<
    MeshError,
> {
    if !world.loaded(pos) {
        Some(MeshError::NotLoaded)
    } else if world.chunk(pos).len() != world.chunk_volume() || !lengths_fit(
        world_around(world.entries(), pos),
        world.chunk_volume(),
    ) {
        Some(MeshError::WrongLength)
    } else if !ids_known(world.chunk(pos), registry) || !blocks_fit(
        world_around(world.entries(), pos),
        registry,
    ) {
        Some(MeshError::UnknownBlock)
    } else {
        None
    }
}

/// Tests whether every id of an array is below `count`.
fn all_below(voxels: &Vec<BlockType>, count: usize) -> (b: bool)
    ensures
        b == forall|i: int| 0 <= i < voxels.len() ==> #[trigger] voxels[i] < count,
{
    let mut i: usize = 0;
    while i < voxels.len()
        invariant
            i <= voxels.len(),
            forall|k: int| 0 <= k < i ==> #[trigger] voxels[k] < count,
        decreases voxels.len() - i,
    {
        if voxels[i] >= count {
            return false;
        }
        i += 1;
    }
    true
}

/// Tests whether each array that is there has `count` ids.
fn lengths_ok(around: &[Option<&Vec<BlockType>>; 6], count: usize) -> (b: bool)
    ensures
        b == lengths_fit(around_view(*around), count as int),
{
    let mut d: usize = 0;
    while d < 6
        invariant
            d <= 6,
            forall|k: int|
                0 <= k < d ==> ((#[trigger] around_view(*around)[k]) matches Some(v) ==> v.len()
                    == count),
        decreases 6 - d,
    {
        match around[d] {
            Some(v) => {
                assert(around_view(*around)[d as int] == Some(v@));
                if v.len() != count {
                    return false;
                }
            },
            None => {
                assert(around_view(*around)[d as int] is None);
            },
        }
        d += 1;
    }
    true
}

/// Tests whether each array that is there holds ids below `count` only.
fn blocks_ok(around: &[Option<&Vec<BlockType>>; 6], registry: &Registry) -> (b: bool)
    ensures
        b == blocks_fit(around_view(*around), registry@),
{
    let count = registry.block_count();
    let mut d: usize = 0;
    while d < 6
        invariant
            d <= 6,
            count == registry@.blocks.len(),
            forall|k: int|
                0 <= k < d ==> ((#[trigger] around_view(*around)[k]) matches Some(v) ==> ids_known(
                    v,
                    registry@,
                )),
        decreases 6 - d,
    {
        match around[d] {
            Some(v) => {
                assert(around_view(*around)[d as int] == Some(v@));
                if !all_below(v, count) {
                    return false;
                }
            },
            None => {
                assert(around_view(*around)[d as int] is None);
            },
        }
        d += 1;
    }
    true
}

/// The vertices of the mesh of the chunk at `pos` of a store.
pub open spec fn world_vertices(world: &VoxelWorld, registry: RegistryView, pos: [i32; 3]) -> Seq<
    MeshVertex,
> {
    chunk_vertices(
        registry,
        world.chunk_len as int,
        world.chunk(pos),
        world_around(world.entries(), pos),
    )
}

/// Builds the mesh of the chunk at `chunk_pos` after testing that it can
/// be built: that the chunk is loaded, and that its array and those of the
/// loaded chunks around it have the length of a chunk and hold known
/// blocks only.
pub fn try_build_chunk_mesh(world: &VoxelWorld, registry: &Registry, chunk_pos: &[i32; 3]) -> (r:
    Result<Option<ChunkMesh>, MeshError>)
    ensures
        mesh_obstacle(world, registry@, *chunk_pos) matches Some(e) ==> r == Err::<
            Option<ChunkMesh>,
            MeshError,
        >(e),
        mesh_obstacle(world, registry@, *chunk_pos) is None ==> {
            &&& r is Err <==> 4 * (world_vertices(world, registry@, *chunk_pos).len() / 4)
                > u32::MAX + 1
            &&& r matches Err(e) ==> e == MeshError::TooManyVertices
            &&& r matches Ok(None) ==> world_vertices(world, registry@, *chunk_pos).len() == 0
            &&& r matches Ok(Some(mesh)) ==> mesh.vertices@.len() > 0 && mesh.vertices@
                == world_vertices(world, registry@, *chunk_pos) && mesh.indices@ == quad_index_seq(
                mesh.vertices@.len() as int / 4,
            )
        },
{
    let center = match world.get_chunk(chunk_pos) {
        Some(v) => v,
        None => {
            return Err(MeshError::NotLoaded);
        },
    };
    let around = [
        chunk_beside(world, chunk_pos, 0),
        chunk_beside(world, chunk_pos, 1),
        chunk_beside(world, chunk_pos, 2),
        chunk_beside(world, chunk_pos, 3),
        chunk_beside(world, chunk_pos, 4),
        chunk_beside(world, chunk_pos, 5),
    ];
    assert(around_view(around) =~= world_around(world.entries(), *chunk_pos));
    let count = match checked_volume(world.chunk_len) {
        Some(n) => n,
        None => {
            assert(center.len() == center@.len());
            return Err(MeshError::WrongLength);
        },
    };
    if center.len() != count || !lengths_ok(&around, count) {
        return Err(MeshError::WrongLength);
    }
    if !all_below(center, registry.block_count()) || !blocks_ok(&around, registry) {
        return Err(MeshError::UnknownBlock);
    }
    mesh_of(mesh_voxels(registry, world.chunk_len, center, &around))
}

/// Faces that look towards a side where no chunk is loaded are never
/// culled: a voxel whose neighbour in direction `d` would lie in a chunk
/// that is not loaded has its cull flag for `d` clear, and every face of
/// its model is emitted that is culled from `d` or from nowhere.
pub proof fn lemma_unloaded_side_is_shown(
    registry: RegistryView,
    side: int,
    center: Seq<BlockType>,
    around: Seq<Option<Seq<BlockType>>>,
    x: int,
    y: int,
    z: int,
    d: int,
    model: ModelView,
    face: int,
    offset: Seq<usize>,
    model_id: usize,
    block: BlockView,
)
    requires
        0 <= d < 6,
        in_chunk(side, x, y, z),
        !in_chunk(side, x + step(d).0, y + step(d).1, z + step(d).2),
        around[d] is None,
        0 <= face < model.faces.len(),
        model.faces[face].cull is None || model.faces[face].cull == Some(d as usize),
    ensures
        !cull_flag(registry, side, center, around, x, y, z, d),
        !cull_flags(registry, side, center, around, x, y, z)[d],
        emitted_face(
            model,
            face,
            cull_flags(registry, side, center, around, x, y, z),
            offset,
            model_id,
            block,
        ) == face_vertices(
            model.faces[face].vertex_count,
            offset,
            model_id,
            face as usize,
            face_texture(model.faces[face], block),
        ),
{
}

/// A model whose faces are all culled adds no vertex.
pub proof fn lemma_hidden_faces_add_nothing(
    model: ModelView,
    n: nat,
    cull: Seq<bool>,
    offset: Seq<usize>,
    model_id: usize,
    block: BlockView,
)
    requires
        n <= model.faces.len(),
        forall|f: int| 0 <= f < n ==> !face_visible(#[trigger] model.faces[f], cull),
    ensures
        first_faces(model, n, cull, offset, model_id, block) == Seq::<MeshVertex>::empty(),
    decreases n,
{
    if n > 0 {
        lemma_hidden_faces_add_nothing(model, (n - 1) as nat, cull, offset, model_id, block);
        assert(!face_visible(model.faces[n - 1], cull));
    }
}

/// Full occlusion: a voxel whose six neighbours are all known and all have
/// its block's model adds no vertex to the mesh, provided every face of
/// that model names a direction from which it is culled.
pub proof fn lemma_enclosed_voxel_is_hidden(
    registry: RegistryView,
    side: int,
    center: Seq<BlockType>,
    around: Seq<Option<Seq<BlockType>>>,
    x: int,
    y: int,
    z: int,
)
    requires
        registry.wf(),
        0 <= center[local_index(side, x, y, z)] < registry.blocks.len(),
        forall|d: int| 0 <= d < 6 ==> cull_flag(registry, side, center, around, x, y, z, d),
        registry.blocks[center[local_index(side, x, y, z)] as int].model matches Some(m) ==> forall|
            f: int,
        |
            0 <= f < registry.models[m as int].faces.len()
                ==> (#[trigger] registry.models[m as int].faces[f]).cull is Some,
    ensures
        voxel_vertices(registry, side, center, around, x, y, z) == Seq::<MeshVertex>::empty(),
{
    let block = registry.blocks[center[local_index(side, x, y, z)] as int];
    if let Some(m) = block.model {
        let model = registry.models[m as int];
        let cull = cull_flags(registry, side, center, around, x, y, z);
        assert(model.wf());
        assert forall|f: int| 0 <= f < model.faces.len() implies !face_visible(
            #[trigger] model.faces[f],
            cull,
        ) by {
            assert(model.faces[f].wf());
            let c = model.faces[f].cull->0 as int;
            assert(cull_flag(registry, side, center, around, x, y, z, c));
        }
        lemma_hidden_faces_add_nothing(
            model,
            model.faces.len(),
            cull,
            seq![x as usize, y as usize, z as usize],
            m,
            block,
        );
    }
}

/// A chunk none of whose first `n` voxels adds a vertex has no vertex from
/// them.
pub proof fn lemma_silent_voxels_add_nothing(
    registry: RegistryView,
    side: int,
    center: Seq<BlockType>,
    around: Seq<Option<Seq<BlockType>>>,
    n: nat,
)
    requires
        forall|i: int|
            0 <= i < n ==> #[trigger] voxel_vertices(
                registry,
                side,
                center,
                around,
                index_x(side, i),
                index_y(side, i),
                index_z(side, i),
            ) == Seq::<MeshVertex>::empty(),
    ensures
        first_voxels(registry, side, center, around, n) == Seq::<MeshVertex>::empty(),
    decreases n,
{
    if n > 0 {
        lemma_silent_voxels_add_nothing(registry, side, center, around, (n - 1) as nat);
    }
}

/// A chunk all of whose blocks are without a model has an empty mesh.
pub proof fn lemma_modelless_chunk_is_empty(
    registry: RegistryView,
    side: int,
    center: Seq<BlockType>,
    around: Seq<Option<Seq<BlockType>>>,
)
    requires
        center.len() == volume(side),
        forall|i: int|
            0 <= i < center.len() ==> registry.blocks[#[trigger] center[i] as int].model is None,
    ensures
        chunk_vertices(registry, side, center, around) == Seq::<MeshVertex>::empty(),
        quad_index_seq(chunk_vertices(registry, side, center, around).len() as int / 4)
            == Seq::<u32>::empty(),
{
    assert forall|i: int| 0 <= i < center.len() implies #[trigger] voxel_vertices(
        registry,
        side,
        center,
        around,
        index_x(side, i),
        index_y(side, i),
        index_z(side, i),
    ) == Seq::<MeshVertex>::empty() by {
        lemma_index_of_coords(side, i);
    }
    lemma_silent_voxels_add_nothing(registry, side, center, around, center.len());
    assert(quad_index_seq(0) =~= Seq::<u32>::empty());
}

/// What a voxel adds to the mesh depends on its own block and on the six
/// blocks beside it alone: two settings that agree on those give it the
/// same vertices.
pub proof fn lemma_voxel_vertices_are_local(
    registry: RegistryView,
    side: int,
    center1: Seq<BlockType>,
    around1: Seq<Option<Seq<BlockType>>>,
    center2: Seq<BlockType>,
    around2: Seq<Option<Seq<BlockType>>>,
    x: int,
    y: int,
    z: int,
)
    requires
        center1[local_index(side, x, y, z)] == center2[local_index(side, x, y, z)],
        forall|d: int|
            0 <= d < 6 ==> neighbour_block(side, center1, around1, x, y, z, d) == neighbour_block(
                side,
                center2,
                around2,
                x,
                y,
                z,
                d,
            ),
    ensures
        voxel_vertices(registry, side, center1, around1, x, y, z) == voxel_vertices(
            registry,
            side,
            center2,
            around2,
            x,
            y,
            z,
        ),
{
    assert(cull_flags(registry, side, center1, around1, x, y, z) =~= cull_flags(
        registry,
        side,
        center2,
        around2,
        x,
        y,
        z,
    ));
}

/// Whether every face of every model of the registry is a quad.
pub open spec fn all_quads(registry: RegistryView) -> bool {
    forall|m: int, f: int|
        0 <= m < registry.models.len() && 0 <= f < registry.models[m].faces.len()
            ==> (#[trigger] registry.models[m].faces[f]).vertex_count == 4
}

/// The first faces of a model of quads add whole quads.
pub proof fn lemma_faces_add_quads(
    model: ModelView,
    n: nat,
    cull: Seq<bool>,
    offset: Seq<usize>,
    model_id: usize,
    block: BlockView,
)
    requires
        n <= model.faces.len(),
        forall|f: int| 0 <= f < model.faces.len() ==> (#[trigger] model.faces[f]).vertex_count == 4,
    ensures
        first_faces(model, n, cull, offset, model_id, block).len() % 4 == 0,
    decreases n,
{
    if n > 0 {
        lemma_faces_add_quads(model, (n - 1) as nat, cull, offset, model_id, block);
        assert(model.faces[n - 1].vertex_count == 4);
    }
}

/// The first voxels of a chunk add whole quads where all models are made
/// of quads.
pub proof fn lemma_voxels_add_quads(
    registry: RegistryView,
    side: int,
    center: Seq<BlockType>,
    around: Seq<Option<Seq<BlockType>>>,
    n: nat,
)
    requires
        registry.wf(),
        all_quads(registry),
        center.len() == volume(side),
        ids_known(center, registry),
        n <= center.len(),
    ensures
        first_voxels(registry, side, center, around, n).len() % 4 == 0,
    decreases n,
{
    if n > 0 {
        lemma_voxels_add_quads(registry, side, center, around, (n - 1) as nat);
        lemma_index_of_coords(side, n - 1);
        let x = index_x(side, n - 1);
        let y = index_y(side, n - 1);
        let z = index_z(side, n - 1);
        let block = registry.blocks[center[n - 1] as int];
        if let Some(m) = block.model {
            let model = registry.models[m as int];
            assert forall|f: int| 0 <= f < model.faces.len() implies (
            #[trigger] model.faces[f]).vertex_count == 4 by {
                assert(registry.models[m as int].faces[f].vertex_count == 4);
            }
            lemma_faces_add_quads(
                model,
                model.faces.len(),
                cull_flags(registry, side, center, around, x, y, z),
                seq![x as usize, y as usize, z as usize],
                m,
                block,
            );
        }
    }
}

/// Where every face of every model is a quad, a chunk's mesh is made of
/// whole quads: every vertex belongs to a quad and gets its indices.
pub proof fn lemma_mesh_is_whole_quads(
    registry: RegistryView,
    side: int,
    center: Seq<BlockType>,
    around: Seq<Option<Seq<BlockType>>>,
)
    requires
        registry.wf(),
        all_quads(registry),
        center.len() == volume(side),
        ids_known(center, registry),
    ensures
        chunk_vertices(registry, side, center, around).len() % 4 == 0,
        quad_index_seq(chunk_vertices(registry, side, center, around).len() as int / 4).len() * 2
            == chunk_vertices(registry, side, center, around).len() * 3,
{
    lemma_voxels_add_quads(registry, side, center, around, center.len());
}

} // verus!
