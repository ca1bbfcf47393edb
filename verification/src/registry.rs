//! The block and model registry: names to numeric ids, and ids to block and
//! model descriptors.

use crate::table::{name_table_entries, names_get, names_insert, names_new, NameTable};
use crate::terrain::TerrainBlocks;
use crate::voxel_world::BlockType;
use vstd::prelude::*;

verus! {

/// Number of axis directions a face can be culled from.
pub const DIRECTIONS: usize = 6;

/// One face of a model, without its geometry: the texture role it is
/// painted with, the direction from which an equal neighbour hides it, and
/// how many vertices it has.
pub struct Face {
    pub texture: String,
    pub cull: Option<usize>,
    pub vertex_count: usize,
}

/// A `Face` as plain values.
pub struct FaceView {
    pub texture: Seq<char>,
    pub cull: Option<usize>,
    pub vertex_count: usize,
}

impl View for Face {
    type V = FaceView;

    open spec fn view(&self) -> FaceView {
        FaceView { texture: self.texture@, cull: self.cull, vertex_count: self.vertex_count }
    }
}

impl FaceView {
    /// Whether the cull direction, if any, is one of the six.
    pub open spec fn wf(self) -> bool {
        self.cull matches Some(c) ==> c < DIRECTIONS
    }
}

/// The faces of a vector, as plain values.
pub open spec fn faces_view(faces: Seq<Face>) -> Seq<FaceView> {
    faces.map_values(|f: Face| f@)
}

/// A model as read from its definition file.
pub struct ModelDef {
    pub identifier: String,
    pub faces: Vec<Face>,
}

/// A model of the registry: a named sequence of faces.
pub struct Model {
    pub identifier: String,
    pub faces: Vec<Face>,
}

/// A `Model` or `ModelDef` as plain values.
pub struct ModelView {
    pub identifier: Seq<char>,
    pub faces: Seq<FaceView>,
}

impl View for ModelDef {
    type V = ModelView;

    open spec fn view(&self) -> ModelView {
        ModelView { identifier: self.identifier@, faces: faces_view(self.faces@) }
    }
}

impl View for Model {
    type V = ModelView;

    open spec fn view(&self) -> ModelView {
        ModelView { identifier: self.identifier@, faces: faces_view(self.faces@) }
    }
}

impl ModelView {
    /// Whether every face is well formed.
    pub open spec fn wf(self) -> bool {
        forall|i: int| 0 <= i < self.faces.len() ==> (#[trigger] self.faces[i]).wf()
    }
}

/// A block as read from its definition file: its model and its textures by
/// name, the textures as pairs of role and texture name.
pub struct BlockDef {
    pub identifier: String,
    pub model: Option<String>,
    pub textures: Vec<(String, String)>,
}

/// A `BlockDef` as plain values.
pub struct BlockDefView {
    pub identifier: Seq<char>,
    pub model: Option<Seq<char>>,
    pub textures: Seq<(Seq<char>, Seq<char>)>,
}

/// The model name of a definition, as plain values.
pub open spec fn name_view(name: Option<String>) -> Option<Seq<char>> {
    match name {
        Some(n) => Some(n@),
        None => None,
    }
}

/// The texture pairs of a definition, as plain values.
pub open spec fn pairs_view(pairs: Seq<(String, String)>) -> Seq<(Seq<char>, Seq<char>)> {
    pairs.map_values(|p: (String, String)| (p.0@, p.1@))
}

impl View for BlockDef {
    type V = BlockDefView;

    open spec fn view(&self) -> BlockDefView {
        BlockDefView {
            identifier: self.identifier@,
            model: name_view(self.model),
            textures: pairs_view(self.textures@),
        }
    }
}

/// A block of the registry: its model, if it has one, and the texture id
/// of each texture role it defines.
pub struct Block {
    pub identifier: String,
    pub model: Option<usize>,
    pub textures: NameTable,
}

/// A `Block` as plain values.
pub struct BlockView {
    pub identifier: Seq<char>,
    pub model: Option<usize>,
    pub textures: Map<Seq<char>, usize>,
}

impl View for Block {
    type V = BlockView;

    open spec fn view(&self) -> BlockView {
        BlockView {
            identifier: self.identifier@,
            model: self.model,
            textures: name_table_entries(self.textures),
        }
    }
}

impl Block {
    /// The id of the texture that this block shows for the texture role
    /// `role`, where it defines one.
    pub fn texture(&self, role: &str) -> (r: Option<usize>)
        ensures
            r is Some <==> self@.textures.contains_key(role@),
            r matches Some(id) ==> id == self@.textures[role@],
    {
        names_get(&self.textures, role)
    }
}

/// The role whose texture a face falls back to.
pub open spec fn default_role() -> Seq<char> {
    "default"@
}

/// Why a registry could not be assembled from its definitions.
#[derive(Clone, Copy, Debug, PartialEq, Eq, Structural)]
pub enum RegistryError {
    /// A face names a cull direction that is not one of the six.
    CullDirection,
    /// A block names a model that no definition has.
    UnknownModel,
    /// A block names a texture that is not among the textures.
    UnknownTexture,
    /// A block with a model defines no texture for the default role.
    MissingDefaultTexture,
}

/// The ids of the first `n` names of a list: each name gets its place in
/// the list, the last one where a name occurs twice.
pub open spec fn first_ids(names: Seq<Seq<char>>, n: nat) -> Map<Seq<char>, usize>
    decreases n,
{
    if n == 0 {
        Map::empty()
    } else {
        first_ids(names, (n - 1) as nat).insert(names[n - 1], (n - 1) as usize)
    }
}

/// The ids of the names of a list.
pub open spec fn name_ids(names: Seq<Seq<char>>) -> Map<Seq<char>, usize> {
    first_ids(names, names.len())
}

/// An id given to one of the first `n` names is below `n`.
pub proof fn lemma_first_ids_below(names: Seq<Seq<char>>, n: nat, name: Seq<char>)
    requires
        first_ids(names, n).contains_key(name),
    ensures
        first_ids(names, n)[name] < n,
    decreases n,
{
    if n > 0 && names[n - 1] != name {
        lemma_first_ids_below(names, (n - 1) as nat, name);
    }
}

/// The texture ids of the first `n` pairs of role and texture name; `None`
/// where one of those texture names has no id.
pub open spec fn first_textures(
    pairs: Seq<(Seq<char>, Seq<char>)>,
    n: nat,
    texture_ids: Map<Seq<char>, usize>,
) -> Option<Map<Seq<char>, usize>>
    decreases n,
{
    if n == 0 {
        Some(Map::empty())
    } else {
        match first_textures(pairs, (n - 1) as nat, texture_ids) {
            None => None,
            Some(m) => if texture_ids.contains_key(pairs[n - 1].1) {
                Some(m.insert(pairs[n - 1].0, texture_ids[pairs[n - 1].1]))
            } else {
                None
            },
        }
    }
}

/// The model id that a definition's model name stands for.
pub open spec fn resolved_model(
    model: Option<Seq<char>>,
    model_ids: Map<Seq<char>, usize>,
) -> Option<usize> {
    match model {
        Some(name) => Some(model_ids[name]),
        None => None,
    }
}

/// The block that a definition stands for, or the reason why it stands for
/// none. The model name is looked up first, then the texture names in
/// their order, then the default role.
pub open spec fn resolved_block(
    def: BlockDefView,
    texture_ids: Map<Seq<char>, usize>,
    model_ids: Map<Seq<char>, usize>,
) -> Result<BlockView, RegistryError> {
    if def.model is Some && !model_ids.contains_key(def.model->0) {
        Err(RegistryError::UnknownModel)
    } else {
        match first_textures(def.textures, def.textures.len(), texture_ids) {
            None => Err(RegistryError::UnknownTexture),
            Some(textures) => if def.model is Some && !textures.contains_key(default_role()) {
                Err(RegistryError::MissingDefaultTexture)
            } else {
                Ok(
                    BlockView {
                        identifier: def.identifier,
                        model: resolved_model(def.model, model_ids),
                        textures,
                    },
                )
            },
        }
    }
}

/// The blocks that the first `n` definitions stand for, or the reason why
/// the first of them that stands for none does so.
pub open spec fn first_blocks(
    defs: Seq<BlockDefView>,
    n: nat,
    texture_ids: Map<Seq<char>, usize>,
    model_ids: Map<Seq<char>, usize>,
) -> Result<Seq<BlockView>, RegistryError>
    decreases n,
{
    if n == 0 {
        Ok(Seq::empty())
    } else {
        match first_blocks(defs, (n - 1) as nat, texture_ids, model_ids) {
            Err(e) => Err(e),
            Ok(blocks) => match resolved_block(defs[n - 1], texture_ids, model_ids) {
                Err(e) => Err(e),
                Ok(block) => Ok(blocks.push(block)),
            },
        }
    }
}

/// A registry as plain values.
pub struct RegistryView {
    pub texture_ids: Map<Seq<char>, usize>,
    pub model_ids: Map<Seq<char>, usize>,
    pub models: Seq<ModelView>,
    pub block_ids: Map<Seq<char>, usize>,
    pub blocks: Seq<BlockView>,
}

impl RegistryView {
    /// The registry's invariant: cull directions are among the six, every
    /// id that a name or a block leads to is the id of a descriptor, and a
    /// block with a model has a texture for the default role.
    pub open spec fn wf(self) -> bool {
        &&& forall|i: int| 0 <= i < self.models.len() ==> (#[trigger] self.models[i]).wf()
        &&& forall|i: int|
            0 <= i < self.blocks.len() ==> ((#[trigger] self.blocks[i]).model matches Some(m)
                ==> m < self.models.len() && self.blocks[i].textures.contains_key(default_role()))
        &&& forall|name: Seq<char>| #[trigger]
            self.block_ids.contains_key(name) ==> self.block_ids[name] < self.blocks.len()
        &&& forall|name: Seq<char>| #[trigger]
            self.model_ids.contains_key(name) ==> self.model_ids[name] < self.models.len()
    }
}

/// The names of a list of strings.
pub open spec fn names_view(names: Seq<String>) -> Seq<Seq<char>> {
    names.map_values(|s: String| s@)
}

/// The model definitions of a list, as plain values.
pub open spec fn model_defs_view(defs: Seq<ModelDef>) -> Seq<ModelView> {
    defs.map_values(|d: ModelDef| d@)
}

/// The models of a list, as plain values.
pub open spec fn models_view(models: Seq<Model>) -> Seq<ModelView> {
    models.map_values(|m: Model| m@)
}

/// The block definitions of a list, as plain values.
pub open spec fn block_defs_view(defs: Seq<BlockDef>) -> Seq<BlockDefView> {
    defs.map_values(|d: BlockDef| d@)
}

/// The blocks of a list, as plain values.
pub open spec fn blocks_view(blocks: Seq<Block>) -> Seq<BlockView> {
    blocks.map_values(|b: Block| b@)
}

/// The identifiers of a list of models.
pub open spec fn model_names(models: Seq<ModelView>) -> Seq<Seq<char>> {
    models.map_values(|m: ModelView| m.identifier)
}

/// The identifiers of a list of block definitions.
pub open spec fn block_names(defs: Seq<BlockDefView>) -> Seq<Seq<char>> {
    defs.map_values(|d: BlockDefView| d.identifier)
}

/// Whether every model of a list is well formed.
pub open spec fn models_wf(models: Seq<ModelView>) -> bool {
    forall|i: int| 0 <= i < models.len() ==> (#[trigger] models[i]).wf()
}

/// The registry that the definitions stand for, or the reason why they
/// stand for none. Textures get their ids in the order of `texture_names`,
/// models and blocks in the order of their definitions.
pub open spec fn assembled(
    texture_names: Seq<Seq<char>>,
    models: Seq<ModelView>,
    blocks: Seq<BlockDefView>,
) -> Result<RegistryView, RegistryError> {
    if !models_wf(models) {
        Err(RegistryError::CullDirection)
    } else {
        match first_blocks(
            blocks,
            blocks.len(),
            name_ids(texture_names),
            name_ids(model_names(models)),
        ) {
            Err(e) => Err(e),
            Ok(resolved) => Ok(
                RegistryView {
                    texture_ids: name_ids(texture_names),
                    model_ids: name_ids(model_names(models)),
                    models,
                    block_ids: name_ids(block_names(blocks)),
                    blocks: resolved,
                },
            ),
        }
    }
}

/// Where the first `n` definitions all stand for blocks, there are `n`
/// blocks, each the one its definition stands for.
pub proof fn lemma_first_blocks(
    defs: Seq<BlockDefView>,
    n: nat,
    texture_ids: Map<Seq<char>, usize>,
    model_ids: Map<Seq<char>, usize>,
)
    requires
        first_blocks(defs, n, texture_ids, model_ids) is Ok,
    ensures
        first_blocks(defs, n, texture_ids, model_ids)->Ok_0.len() == n,
        forall|i: int|
            0 <= i < n ==> resolved_block(#[trigger] defs[i], texture_ids, model_ids) == Ok::<
                BlockView,
                RegistryError,
            >(first_blocks(defs, n, texture_ids, model_ids)->Ok_0[i]),
    decreases n,
{
    if n > 0 {
        lemma_first_blocks(defs, (n - 1) as nat, texture_ids, model_ids);
    }
}

/// The tables of the registry: names to ids, ids to descriptors.
pub struct Registry {
    texture_name_to_id: NameTable,
    model_name_to_id: NameTable,
    models: Vec<Model>,
    block_name_to_id: NameTable,
    blocks: Vec<Block>,
}

/// Another name of the registry.
pub type AssetRegistry = Registry;

impl Registry {
    /// Every registry is well formed: `build` makes no other.
    #[verifier::type_invariant]
    closed spec fn well_formed(self) -> bool {
        self@.wf()
    }

    /// Makes the registry's invariant known to the caller.
    pub fn known_wf(&self)
        ensures
            self@.wf(),
    {
        proof {
            use_type_invariant(self);
        }
    }
}

impl View for Registry {
    type V = RegistryView;

    closed spec fn view(&self) -> RegistryView {
        RegistryView {
            texture_ids: name_table_entries(self.texture_name_to_id),
            model_ids: name_table_entries(self.model_name_to_id),
            models: models_view(self.models@),
            block_ids: name_table_entries(self.block_name_to_id),
            blocks: blocks_view(self.blocks@),
        }
    }
}

/// Gives each name of a list its place in the list as id.
fn index_names(names: &Vec<String>) -> (table: NameTable)
    ensures
        name_table_entries(table) == name_ids(names_view(names@)),
{
    let mut table = names_new();
    let mut i: usize = 0;
    while i < names.len()
        invariant
            i <= names.len(),
            name_table_entries(table) == first_ids(names_view(names@), i as nat),
        decreases names.len() - i,
    {
        let _ = names_insert(&mut table, names[i].clone(), i);
        i += 1;
    }
    table
}

/// Gives each model definition of a list its place in the list as id.
fn index_models(defs: &Vec<ModelDef>) -> (table: NameTable)
    ensures
        name_table_entries(table) == name_ids(model_names(model_defs_view(defs@))),
{
    let mut table = names_new();
    let mut i: usize = 0;
    while i < defs.len()
        invariant
            i <= defs.len(),
            name_table_entries(table) == first_ids(
                model_names(model_defs_view(defs@)),
                i as nat,
            ),
        decreases defs.len() - i,
    {
        let _ = names_insert(&mut table, defs[i].identifier.clone(), i);
        i += 1;
    }
    table
}

/// Gives each block definition of a list its place in the list as id.
fn index_blocks(defs: &Vec<BlockDef>) -> (table: NameTable)
    ensures
        name_table_entries(table) == name_ids(block_names(block_defs_view(defs@))),
{
    let mut table = names_new();
    let mut i: usize = 0;
    while i < defs.len()
        invariant
            i <= defs.len(),
            name_table_entries(table) == first_ids(
                block_names(block_defs_view(defs@)),
                i as nat,
            ),
        decreases defs.len() - i,
    {
        let _ = names_insert(&mut table, defs[i].identifier.clone(), i);
        i += 1;
    }
    table
}

/// The model of a definition; `None` where one of its faces names a cull
/// direction that is not one of the six.
fn model_of(def: &ModelDef) -> (r: Option<Model>)
    ensures
        r is Some <==> def@.wf(),
        r matches Some(m) ==> m@ == def@,
{
    let mut faces: Vec<Face> = Vec::new();
    let mut j: usize = 0;
    while j < def.faces.len()
        invariant
            j <= def.faces.len(),
            faces.len() == j,
            forall|k: int| 0 <= k < j ==> (#[trigger] faces[k])@ == def.faces[k]@,
            forall|k: int| 0 <= k < j ==> (#[trigger] def@.faces[k]).wf(),
        decreases def.faces.len() - j,
    {
        let face = &def.faces[j];
        assert(def@.faces[j as int] == face@);
        if let Some(c) = face.cull {
            if c >= DIRECTIONS {
                return None;
            }
        }
        faces.push(
            Face {
                texture: face.texture.clone(),
                cull: face.cull,
                vertex_count: face.vertex_count,
            },
        );
        j += 1;
    }
    let model = Model { identifier: def.identifier.clone(), faces };
    assert(model@.faces =~= def@.faces);
    Some(model)
}

/// The block of a definition, its names looked up in the given tables.
fn block_of(def: &BlockDef, texture_ids: &NameTable, model_ids: &NameTable) -> (r: Result<
    Block,
    RegistryError,
>)
    ensures
        r matches Ok(block) ==> resolved_block(
            def@,
            name_table_entries(*texture_ids),
            name_table_entries(*model_ids),
        ) == Ok::<BlockView, RegistryError>(block@),
        r matches Err(e) ==> resolved_block(
            def@,
            name_table_entries(*texture_ids),
            name_table_entries(*model_ids),
        ) == Err::<BlockView, RegistryError>(e),
{
    let model = match &def.model {
        Some(name) => match names_get(model_ids, name.as_str()) {
            Some(id) => Some(id),
            None => {
                return Err(RegistryError::UnknownModel);
            },
        },
        None => None,
    };
    let mut textures = names_new();
    let mut i: usize = 0;
    while i < def.textures.len()
        invariant
            i <= def.textures.len(),
            def@.model is Some ==> name_table_entries(*model_ids).contains_key(def@.model->0),
            first_textures(def@.textures, i as nat, name_table_entries(*texture_ids)) == Some(
                name_table_entries(textures),
            ),
        decreases def.textures.len() - i,
    {
        let pair = &def.textures[i];
        assert(def@.textures[i as int] == (pair.0@, pair.1@));
        match names_get(texture_ids, pair.1.as_str()) {
            Some(id) => {
                let _ = names_insert(&mut textures, pair.0.clone(), id);
            },
            None => {
                proof {
                    lemma_first_textures_failure(
                        def@.textures,
                        (i + 1) as nat,
                        def@.textures.len(),
                        name_table_entries(*texture_ids),
                    );
                }
                return Err(RegistryError::UnknownTexture);
            },
        }
        i += 1;
    }
    if model.is_some() && names_get(&textures, "default").is_none() {
        return Err(RegistryError::MissingDefaultTexture);
    }
    Ok(Block { identifier: def.identifier.clone(), model, textures })
}

impl Registry {
    /// Assembles the registry from the texture names and the model and
    /// block definitions.
    pub fn build(
        texture_names: &Vec<String>,
        model_defs: &Vec<ModelDef>,
        block_defs: &Vec<BlockDef>,
    ) -> (r: Result<Registry, RegistryError>)
        ensures
            r matches Ok(registry) ==> assembled(
                names_view(texture_names@),
                model_defs_view(model_defs@),
                block_defs_view(block_defs@),
            ) == Ok::<RegistryView, RegistryError>(registry@),
            r matches Ok(registry) ==> registry@.wf(),
            r matches Err(e) ==> assembled(
                names_view(texture_names@),
                model_defs_view(model_defs@),
                block_defs_view(block_defs@),
            ) == Err::<RegistryView, RegistryError>(e),
    {
        let ghost names = names_view(texture_names@);
        let ghost mdefs = model_defs_view(model_defs@);
        let ghost bdefs = block_defs_view(block_defs@);
        let texture_name_to_id = index_names(texture_names);
        let block_name_to_id = index_blocks(block_defs);
        let model_name_to_id = index_models(model_defs);

        let mut models: Vec<Model> = Vec::new();
        let mut i: usize = 0;
        while i < model_defs.len()
            invariant
                i <= model_defs.len(),
                models.len() == i,
                mdefs == model_defs_view(model_defs@),
                forall|k: int| 0 <= k < i ==> (#[trigger] models[k])@ == mdefs[k],
                forall|k: int| 0 <= k < i ==> (#[trigger] mdefs[k]).wf(),
            decreases model_defs.len() - i,
        {
            match model_of(&model_defs[i]) {
                Some(model) => {
                    models.push(model);
                },
                None => {
                    assert(!mdefs[i as int].wf());
                    return Err(RegistryError::CullDirection);
                },
            }
            i += 1;
        }
        assert(models_view(models@) =~= mdefs);
        assert(models_wf(mdefs));

        let ghost tids = name_table_entries(texture_name_to_id);
        let ghost mids = name_table_entries(model_name_to_id);
        let mut blocks: Vec<Block> = Vec::new();
        assert(blocks_view(blocks@) =~= Seq::empty());
        let mut i: usize = 0;
        while i < block_defs.len()
            invariant
                i <= block_defs.len(),
                names == names_view(texture_names@),
                mdefs == model_defs_view(model_defs@),
                models_wf(mdefs),
                tids == name_ids(names),
                mids == name_ids(model_names(mdefs)),
                blocks.len() == i,
                bdefs == block_defs_view(block_defs@),
                tids == name_table_entries(texture_name_to_id),
                mids == name_table_entries(model_name_to_id),
                first_blocks(bdefs, i as nat, tids, mids) == Ok::<Seq<BlockView>, RegistryError>(
                    blocks_view(blocks@),
                ),
            decreases block_defs.len() - i,
        {
            match block_of(&block_defs[i], &texture_name_to_id, &model_name_to_id) {
                Ok(block) => {
                    let ghost before = blocks_view(blocks@);
                    assert(bdefs[i as int] == block_defs[i as int]@);
                    blocks.push(block);
                    assert(blocks_view(blocks@) =~= before.push(block@));
                },
                Err(e) => {
                    proof {
                        assert(bdefs[i as int] == block_defs[i as int]@);
                        assert(first_blocks(bdefs, (i + 1) as nat, tids, mids) == Err::<
                            Seq<BlockView>,
                            RegistryError,
                        >(e));
                        lemma_first_blocks_failure(bdefs, (i + 1) as nat, bdefs.len(), tids, mids);
                    }
                    return Err(e);
                },
            }
            i += 1;
        }
        proof {
            let v = RegistryView {
                texture_ids: tids,
                model_ids: mids,
                models: models_view(models@),
                block_ids: name_table_entries(block_name_to_id),
                blocks: blocks_view(blocks@),
            };
            lemma_first_blocks(bdefs, bdefs.len(), tids, mids);
            assert forall|k: int| 0 <= k < v.blocks.len() implies ((
            #[trigger] v.blocks[k]).model matches Some(m) ==> m < v.models.len()
                && v.blocks[k].textures.contains_key(default_role())) by {
                let def = bdefs[k];
                assert(resolved_block(def, tids, mids) == Ok::<BlockView, RegistryError>(
                    v.blocks[k],
                ));
                if def.model is Some {
                    lemma_first_ids_below(model_names(mdefs), mdefs.len(), def.model->0);
                }
            }
            assert forall|name: Seq<char>| #[trigger]
                v.block_ids.contains_key(name) implies v.block_ids[name] < v.blocks.len() by {
                lemma_first_ids_below(block_names(bdefs), bdefs.len(), name);
            }
            assert forall|name: Seq<char>| #[trigger]
                v.model_ids.contains_key(name) implies v.model_ids[name] < v.models.len() by {
                lemma_first_ids_below(model_names(mdefs), mdefs.len(), name);
            }
            assert(v.wf());
        }
        let registry = Registry {
            texture_name_to_id,
            model_name_to_id,
            models,
            block_name_to_id,
            blocks,
        };
        Ok(registry)
    }

    /// The id of the texture called `name`.
    pub fn get_texture_id(&self, name: &str) -> (id: usize)
        requires
            self@.texture_ids.contains_key(name@),
        ensures
            id == self@.texture_ids[name@],
    {
        match names_get(&self.texture_name_to_id, name) {
            Some(id) => id,
            None => vstd::pervasive::unreached(),
        }
    }

    /// The descriptor of the block with id `id`.
    pub fn get_block(&self, id: BlockType) -> (block: &Block)
        requires
            id < self@.blocks.len(),
        ensures
            block@ == self@.blocks[id as int],
    {
        &self.blocks[id]
    }

    /// The id of the block called `name`.
    pub fn get_block_id(&self, name: &str) -> (id: BlockType)
        requires
            self@.block_ids.contains_key(name@),
        ensures
            id == self@.block_ids[name@],
    {
        match names_get(&self.block_name_to_id, name) {
            Some(id) => id,
            None => vstd::pervasive::unreached(),
        }
    }

    /// The descriptor of the model with id `id`.
    pub fn get_model(&self, id: usize) -> (model: &Model)
        requires
            id < self@.models.len(),
        ensures
            model@ == self@.models[id as int],
    {
        &self.models[id]
    }

    /// The id of the model called `name`.
    pub fn get_model_id(&self, name: &str) -> (id: usize)
        requires
            self@.model_ids.contains_key(name@),
        ensures
            id == self@.model_ids[name@],
    {
        match names_get(&self.model_name_to_id, name) {
            Some(id) => id,
            None => vstd::pervasive::unreached(),
        }
    }

    /// The id of the texture called `name`, if there is such a texture.
    pub fn find_texture_id(&self, name: &str) -> (r: Option<usize>)
        ensures
            r is Some <==> self@.texture_ids.contains_key(name@),
            r matches Some(id) ==> id == self@.texture_ids[name@],
    {
        names_get(&self.texture_name_to_id, name)
    }

    /// The id of the block called `name`, if there is such a block.
    pub fn find_block_id(&self, name: &str) -> (r: Option<BlockType>)
        ensures
            r is Some <==> self@.block_ids.contains_key(name@),
            r matches Some(id) ==> id == self@.block_ids[name@],
    {
        names_get(&self.block_name_to_id, name)
    }

    /// The id of the model called `name`, if there is such a model.
    pub fn find_model_id(&self, name: &str) -> (r: Option<usize>)
        ensures
            r is Some <==> self@.model_ids.contains_key(name@),
            r matches Some(id) ==> id == self@.model_ids[name@],
    {
        names_get(&self.model_name_to_id, name)
    }

    /// Number of blocks in the registry.
    pub fn block_count(&self) -> (n: usize)
        ensures
            n == self@.blocks.len(),
    {
        self.blocks.len()
    }

    /// Number of models in the registry.
    pub fn model_count(&self) -> (n: usize)
        ensures
            n == self@.models.len(),
    {
        self.models.len()
    }

    /// The ids of the five blocks that terrain is made of, where the
    /// registry has them all.
    pub fn terrain_blocks(&self) -> (r: Option<TerrainBlocks>)
        ensures
            r is Some <==> self@.block_ids.contains_key("air"@) && self@.block_ids.contains_key(
                "stone"@,
            ) && self@.block_ids.contains_key("grass"@) && self@.block_ids.contains_key("dirt"@)
                && self@.block_ids.contains_key("stone_fence"@),
            r matches Some(b) ==> b.air == self@.block_ids["air"@] && b.stone
                == self@.block_ids["stone"@] && b.grass == self@.block_ids["grass"@] && b.dirt
                == self@.block_ids["dirt"@] && b.stone_fence == self@.block_ids["stone_fence"@],
    {
        let air = self.find_block_id("air");
        let stone = self.find_block_id("stone");
        let grass = self.find_block_id("grass");
        let dirt = self.find_block_id("dirt");
        let stone_fence = self.find_block_id("stone_fence");
        match (air, stone, grass, dirt, stone_fence) {
            (Some(air), Some(stone), Some(grass), Some(dirt), Some(stone_fence)) => Some(
                TerrainBlocks { air, stone, grass, dirt, stone_fence },
            ),
            _ => None,
        }
    }
}

/// Once one of the first texture names has no id, the whole list has no
/// texture ids.
proof fn lemma_first_textures_failure(
    pairs: Seq<(Seq<char>, Seq<char>)>,
    n: nat,
    total: nat,
    texture_ids: Map<Seq<char>, usize>,
)
    requires
        n <= total,
        first_textures(pairs, n, texture_ids) is None,
    ensures
        first_textures(pairs, total, texture_ids) is None,
    decreases total - n,
{
    if n < total {
        lemma_first_textures_failure(pairs, n, (total - 1) as nat, texture_ids);
    }
}

/// Once one of the first definitions stands for no block, the whole list
/// fails for the same reason.
proof fn lemma_first_blocks_failure(
    defs: Seq<BlockDefView>,
    n: nat,
    total: nat,
    texture_ids: Map<Seq<char>, usize>,
    model_ids: Map<Seq<char>, usize>,
)
    requires
        n <= total,
        first_blocks(defs, n, texture_ids, model_ids) is Err,
    ensures
        first_blocks(defs, total, texture_ids, model_ids) == first_blocks(
            defs,
            n,
            texture_ids,
            model_ids,
        ),
    decreases total - n,
{
    if n < total {
        lemma_first_blocks_failure(defs, n, (total - 1) as nat, texture_ids, model_ids);
    }
}

} // verus!
