use bevy_voxels::registry::{BlockDef, Face, ModelDef, Registry, RegistryError};
use bevy_voxels::terrain::TerrainBlocks;

fn face(texture: &str, cull: Option<usize>) -> Face {
    Face { texture: texture.to_string(), cull, vertex_count: 4 }
}

fn cube() -> ModelDef {
    ModelDef {
        identifier: "cube".to_string(),
        faces: vec![
            face("side", Some(0)),
            face("side", Some(1)),
            face("top", Some(2)),
            face("bottom", Some(3)),
            face("side", Some(4)),
            face("side", Some(5)),
        ],
    }
}

fn fence() -> ModelDef {
    ModelDef {
        identifier: "fence".to_string(),
        faces: vec![face("post", None), face("post", None), face("top", Some(2))],
    }
}

fn block(name: &str, model: Option<&str>, textures: &[(&str, &str)]) -> BlockDef {
    BlockDef {
        identifier: name.to_string(),
        model: model.map(|m| m.to_string()),
        textures: textures.iter().map(|(k, v)| (k.to_string(), v.to_string())).collect(),
    }
}

fn texture_names() -> Vec<String> {
    vec!["stone".to_string(), "grass_top".to_string(), "grass_side".to_string(), "dirt".to_string()]
}

fn block_defs() -> Vec<BlockDef> {
    vec![
        block("air", None, &[]),
        block("stone", Some("cube"), &[("default", "stone")]),
        block(
            "grass",
            Some("cube"),
            &[("default", "grass_side"), ("top", "grass_top"), ("bottom", "dirt")],
        ),
        block("dirt", Some("cube"), &[("default", "dirt")]),
        block("stone_fence", Some("fence"), &[("default", "stone")]),
    ]
}

fn registry() -> Registry {
    Registry::build(&texture_names(), &vec![cube(), fence()], &block_defs()).unwrap()
}

#[test]
fn ids_follow_the_order_of_the_definitions() {
    let r = registry();
    assert_eq!(r.get_texture_id("stone"), 0);
    assert_eq!(r.get_texture_id("grass_top"), 1);
    assert_eq!(r.get_texture_id("grass_side"), 2);
    assert_eq!(r.get_texture_id("dirt"), 3);
    assert_eq!(r.get_model_id("cube"), 0);
    assert_eq!(r.get_model_id("fence"), 1);
    assert_eq!(r.get_block_id("air"), 0);
    assert_eq!(r.get_block_id("stone"), 1);
    assert_eq!(r.get_block_id("grass"), 2);
    assert_eq!(r.get_block_id("dirt"), 3);
    assert_eq!(r.get_block_id("stone_fence"), 4);
    assert_eq!(r.block_count(), 5);
    assert_eq!(r.model_count(), 2);
}

#[test]
fn unknown_names_are_not_found() {
    let r = registry();
    assert_eq!(r.find_block_id("stone"), Some(1));
    assert_eq!(r.find_block_id("lava"), None);
    assert_eq!(r.find_model_id("fence"), Some(1));
    assert_eq!(r.find_model_id("slab"), None);
    assert_eq!(r.find_texture_id("dirt"), Some(3));
    assert_eq!(r.find_texture_id("default"), None);
}

#[test]
fn blocks_hold_model_and_texture_ids() {
    let r = registry();
    let air = r.get_block(0);
    assert_eq!(air.identifier, "air");
    assert_eq!(air.model, None);
    assert_eq!(air.texture("default"), None);

    let grass = r.get_block(r.get_block_id("grass"));
    assert_eq!(grass.identifier, "grass");
    assert_eq!(grass.model, Some(0));
    assert_eq!(grass.texture("default"), Some(2));
    assert_eq!(grass.texture("top"), Some(1));
    assert_eq!(grass.texture("bottom"), Some(3));
    assert_eq!(grass.texture("side"), None);

    let fence = r.get_block(4);
    assert_eq!(fence.model, Some(1));
    assert_eq!(fence.texture("default"), Some(0));
}

#[test]
fn models_keep_their_faces() {
    let r = registry();
    let cube = r.get_model(0);
    assert_eq!(cube.identifier, "cube");
    assert_eq!(cube.faces.len(), 6);
    assert_eq!(cube.faces[2].texture, "top");
    assert_eq!(cube.faces[2].cull, Some(2));
    assert_eq!(cube.faces[2].vertex_count, 4);
    let fence = r.get_model(1);
    assert_eq!(fence.faces.len(), 3);
    assert_eq!(fence.faces[0].cull, None);
}

#[test]
fn later_definition_of_a_name_wins() {
    let names = vec!["a".to_string(), "b".to_string(), "a".to_string()];
    let r = Registry::build(&names, &vec![], &vec![]).unwrap();
    assert_eq!(r.get_texture_id("a"), 2);
    assert_eq!(r.get_texture_id("b"), 1);
}

#[test]
fn later_texture_of_a_role_wins() {
    let blocks = vec![block("b", None, &[("default", "stone"), ("default", "dirt")])];
    let r = Registry::build(&texture_names(), &vec![], &blocks).unwrap();
    assert_eq!(r.get_block(0).texture("default"), Some(3));
}

#[test]
fn empty_registry_can_be_built() {
    let r = Registry::build(&vec![], &vec![], &vec![]).unwrap();
    assert_eq!(r.block_count(), 0);
    assert_eq!(r.model_count(), 0);
    assert!(r.terrain_blocks().is_none());
}

#[test]
fn cull_direction_must_be_one_of_six() {
    let bad = ModelDef { identifier: "bad".to_string(), faces: vec![face("side", Some(6))] };
    let r = Registry::build(&texture_names(), &vec![cube(), bad], &block_defs());
    assert_eq!(r.err(), Some(RegistryError::CullDirection));
    let ok = ModelDef { identifier: "ok".to_string(), faces: vec![face("side", Some(5))] };
    assert!(Registry::build(&texture_names(), &vec![cube(), fence(), ok], &block_defs()).is_ok());
}

#[test]
fn model_of_a_block_must_exist() {
    let mut blocks = block_defs();
    blocks.push(block("slab", Some("slab"), &[("default", "stone")]));
    let r = Registry::build(&texture_names(), &vec![cube(), fence()], &blocks);
    assert_eq!(r.err(), Some(RegistryError::UnknownModel));
}

#[test]
fn texture_of_a_block_must_exist() {
    let mut blocks = block_defs();
    blocks.push(block("sand", Some("cube"), &[("default", "sand")]));
    let r = Registry::build(&texture_names(), &vec![cube(), fence()], &blocks);
    assert_eq!(r.err(), Some(RegistryError::UnknownTexture));
}

#[test]
fn block_with_a_model_needs_a_default_texture() {
    let mut blocks = block_defs();
    blocks.push(block("glass", Some("cube"), &[("top", "stone")]));
    let r = Registry::build(&texture_names(), &vec![cube(), fence()], &blocks);
    assert_eq!(r.err(), Some(RegistryError::MissingDefaultTexture));
    let no_model = vec![block("gas", None, &[("top", "stone")])];
    assert!(Registry::build(&texture_names(), &vec![], &no_model).is_ok());
}

#[test]
fn first_failing_block_decides_the_error() {
    let blocks = vec![
        block("a", Some("cube"), &[("default", "sand")]),
        block("b", Some("slab"), &[("default", "stone")]),
    ];
    let r = Registry::build(&texture_names(), &vec![cube()], &blocks);
    assert_eq!(r.err(), Some(RegistryError::UnknownTexture));
    let blocks = vec![
        block("b", Some("slab"), &[("default", "sand")]),
        block("a", Some("cube"), &[("default", "sand")]),
    ];
    let r = Registry::build(&texture_names(), &vec![cube()], &blocks);
    assert_eq!(r.err(), Some(RegistryError::UnknownModel));
}

#[test]
fn terrain_blocks_are_looked_up_by_name() {
    let r = registry();
    let b: TerrainBlocks = r.terrain_blocks().unwrap();
    assert_eq!((b.air, b.stone, b.grass, b.dirt, b.stone_fence), (0, 1, 2, 3, 4));
    let without_fence = &block_defs()[..4];
    let defs: Vec<BlockDef> = without_fence
        .iter()
        .map(|d| BlockDef {
            identifier: d.identifier.clone(),
            model: d.model.clone(),
            textures: d.textures.clone(),
        })
        .collect();
    let r = Registry::build(&texture_names(), &vec![cube(), fence()], &defs).unwrap();
    assert!(r.terrain_blocks().is_none());
}
