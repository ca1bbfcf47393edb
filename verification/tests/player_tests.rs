use bevy_voxels::chunk::{spawn_chunk, Chunk};
use bevy_voxels::grid::{chunk_origin, voxel_to_chunk};
use bevy_voxels::player::{player_break_place_block, touches, Hotbar, TargetBlock};
use bevy_voxels::registry::{BlockDef, Face, ModelDef, Registry};
use bevy_voxels::voxel_world::VoxelWorld;

const AIR: usize = 0;
const STONE: usize = 1;

fn registry() -> Registry {
    let cube = ModelDef {
        identifier: "cube".to_string(),
        faces: vec![Face { texture: "side".to_string(), cull: Some(0), vertex_count: 4 }],
    };
    let blocks = vec![
        BlockDef { identifier: "air".to_string(), model: None, textures: vec![] },
        BlockDef {
            identifier: "stone".to_string(),
            model: Some("cube".to_string()),
            textures: vec![("default".to_string(), "stone".to_string())],
        },
    ];
    Registry::build(&vec!["stone".to_string()], &vec![cube], &blocks).unwrap()
}

fn idle(pos: [i32; 3]) -> Chunk {
    let mut c = spawn_chunk(pos);
    c.needs_loading = false;
    c
}

#[test]
fn voxel_coordinate_splits_by_floor_division() {
    assert_eq!(voxel_to_chunk(0, 32), (0, 0));
    assert_eq!(voxel_to_chunk(31, 32), (0, 31));
    assert_eq!(voxel_to_chunk(32, 32), (1, 0));
    assert_eq!(voxel_to_chunk(100, 32), (3, 4));
    assert_eq!(voxel_to_chunk(-1, 32), (-1, 31));
    assert_eq!(voxel_to_chunk(-32, 32), (-1, 0));
    assert_eq!(voxel_to_chunk(-33, 32), (-2, 31));
    assert_eq!(voxel_to_chunk(i32::MAX, 32), (67108863, 31));
    assert_eq!(voxel_to_chunk(i32::MIN, 32), (-67108864, 0));
    assert_eq!(voxel_to_chunk(i32::MIN, 1), (i32::MIN, 0));
    assert_eq!(voxel_to_chunk(-7, 3), (-3, 2));
}

#[test]
fn hotbar_goes_round() {
    let mut bar = Hotbar { slots: vec![Some(2), Some(3), None], active_slot: 0 };
    assert_eq!(bar.selected(), Some(2));
    bar.scroll(true);
    assert_eq!(bar.active_slot, 1);
    bar.scroll(true);
    assert_eq!(bar.active_slot, 2);
    assert_eq!(bar.selected(), None);
    bar.scroll(true);
    assert_eq!(bar.active_slot, 0);
    bar.scroll(false);
    assert_eq!(bar.active_slot, 2);
    bar.scroll(false);
    assert_eq!(bar.active_slot, 1);
    assert_eq!(bar.selected(), Some(3));
    let mut one = Hotbar { slots: vec![Some(1)], active_slot: 0 };
    one.scroll(true);
    assert_eq!(one.active_slot, 0);
    one.scroll(false);
    assert_eq!(one.active_slot, 0);
}

#[test]
fn edit_touches_the_chunk_and_the_chunks_it_borders_on() {
    let e = [0, 0, 0];
    assert!(touches(&[0, 0, 0], &e, 4, &[1, 1, 1]));
    assert!(!touches(&[1, 0, 0], &e, 4, &[1, 1, 1]));
    assert!(touches(&[-1, 0, 0], &e, 4, &[0, 1, 1]));
    assert!(!touches(&[1, 0, 0], &e, 4, &[0, 1, 1]));
    assert!(touches(&[1, 0, 0], &e, 4, &[3, 1, 1]));
    assert!(touches(&[0, -1, 0], &e, 4, &[1, 0, 1]));
    assert!(touches(&[0, 1, 0], &e, 4, &[1, 3, 1]));
    assert!(touches(&[0, 0, -1], &e, 4, &[1, 1, 0]));
    assert!(touches(&[0, 0, 1], &e, 4, &[1, 1, 3]));
    assert!(!touches(&[1, 1, 0], &e, 4, &[3, 3, 1]));
    assert!(!touches(&[2, 0, 0], &e, 4, &[3, 1, 1]));
    // A chunk of side one borders on all six.
    assert!(touches(&[-1, 0, 0], &e, 1, &[0, 0, 0]));
    assert!(touches(&[1, 0, 0], &e, 1, &[0, 0, 0]));
    // At the edge of the coordinates.
    assert!(!touches(&[i32::MAX, 0, 0], &[i32::MIN, 0, 0], 4, &[0, 1, 1]));
}

#[test]
fn placing_writes_over_air_only() {
    let mut world = VoxelWorld::new(2);
    world.load_chunk(&[0, 0, 0], vec![AIR, STONE, AIR, AIR, AIR, AIR, AIR, AIR]);
    let mut chunks = vec![idle([0, 0, 0]), idle([1, 0, 0])];
    // Over stone: nothing happens.
    assert!(!player_break_place_block(&mut chunks, &mut world, &[0, 0, 0], &[1, 0, 0], 5, false, AIR));
    assert_eq!(world.get_voxel(&[0, 0, 0], 1, 0, 0), Some(STONE));
    assert!(chunks.iter().all(|c| !c.needs_meshing && !c.dirty));
    // Over air.
    assert!(player_break_place_block(&mut chunks, &mut world, &[0, 0, 0], &[1, 1, 0], 5, false, AIR));
    assert_eq!(world.get_voxel(&[0, 0, 0], 1, 1, 0), Some(5));
    assert!(chunks[0].needs_meshing && chunks[0].dirty);
    assert!(chunks[1].needs_meshing && !chunks[1].dirty);
}

#[test]
fn breaking_writes_air_over_anything() {
    let mut world = VoxelWorld::new(4);
    world.load_chunk(&[0, 0, 0], vec![STONE; 64]);
    let mut chunks = vec![idle([0, 0, 0]), idle([1, 0, 0]), idle([0, -1, 0]), idle([0, 0, 1])];
    assert!(player_break_place_block(&mut chunks, &mut world, &[0, 0, 0], &[1, 0, 2], AIR, true, AIR));
    assert_eq!(world.get_voxel(&[0, 0, 0], 1, 0, 2), Some(AIR));
    assert_eq!(world.get_chunk(&[0, 0, 0]).unwrap().iter().filter(|b| **b == AIR).count(), 1);
    let due: Vec<bool> = chunks.iter().map(|c| c.needs_meshing).collect();
    assert_eq!(due, vec![true, false, true, false]);
    let dirty: Vec<bool> = chunks.iter().map(|c| c.dirty).collect();
    assert_eq!(dirty, vec![true, false, false, false]);
}

#[test]
fn edit_of_an_unloaded_chunk_is_dropped() {
    let mut world = VoxelWorld::new(2);
    let mut chunks = vec![idle([0, 0, 0])];
    assert!(!player_break_place_block(&mut chunks, &mut world, &[0, 0, 0], &[0, 0, 0], STONE, false, AIR));
    assert!(!world.is_loaded(&[0, 0, 0]));
    assert!(!chunks[0].needs_meshing && !chunks[0].dirty);
    // Breaking is carried out whatever is there; nothing is written.
    assert!(player_break_place_block(&mut chunks, &mut world, &[0, 0, 0], &[0, 0, 0], AIR, true, AIR));
    assert!(!world.is_loaded(&[0, 0, 0]));
    assert!(chunks[0].needs_meshing && !chunks[0].dirty);
}

#[test]
fn target_follows_the_voxel_aimed_at() {
    let r = registry();
    let mut world = VoxelWorld::new(2);
    world.load_chunk(&[0, 0, 0], vec![AIR, STONE, AIR, AIR, AIR, AIR, AIR, AIR]);
    let mut target =
        TargetBlock { chunk_pos: [0, 0, 0], local_pos: [0, 0, 0], block_id: 0, model_id: None };
    assert!(!target.aim(&world, &r, &[0, 0, 0], &[0, 0, 0]));
    assert!(target.aim(&world, &r, &[0, 0, 0], &[1, 0, 0]));
    assert_eq!(target.local_pos, [1, 0, 0]);
    assert_eq!(target.block_id, STONE);
    assert_eq!(target.model_id, Some(0));
    // A chunk that is not loaded leaves the target as it is.
    assert!(!target.aim(&world, &r, &[7, 0, 0], &[1, 1, 1]));
    assert_eq!(target.chunk_pos, [0, 0, 0]);
    assert_eq!(target.local_pos, [1, 0, 0]);
    assert!(target.aim(&world, &r, &[0, 0, 0], &[0, 1, 0]));
    assert_eq!(target.block_id, AIR);
    assert_eq!(target.model_id, None);
}

#[test]
fn chunk_origin_is_the_coordinate_times_the_side() {
    assert_eq!(chunk_origin(&[0, 0, 0], 32), Some([0, 0, 0]));
    assert_eq!(chunk_origin(&[1, -2, 3], 32), Some([32, -64, 96]));
    assert_eq!(chunk_origin(&[67108863, -67108864, 0], 32), Some([2147483616, i32::MIN, 0]));
    assert_eq!(chunk_origin(&[67108864, 0, 0], 32), None);
    assert_eq!(chunk_origin(&[0, -67108865, 0], 32), None);
    assert_eq!(chunk_origin(&[0, 0, i32::MAX], 2), None);
    assert_eq!(chunk_origin(&[5, 6, 7], 0), Some([0, 0, 0]));
    assert_eq!(chunk_origin(&[0, 0, 0], usize::MAX), Some([0, 0, 0]));
    assert_eq!(chunk_origin(&[1, 0, 0], usize::MAX), None);
    assert_eq!(chunk_origin(&[-1, 0, 0], 0x8000_0000), Some([i32::MIN, 0, 0]));
    assert_eq!(chunk_origin(&[1, 0, 0], 0x8000_0000), None);
}

#[test]
fn voxels_of_a_chunk_split_back_to_it() {
    for c in [-3, -1, 0, 2] {
        let origin = chunk_origin(&[c, c, c], 32).unwrap();
        for local in [0usize, 1, 17, 31] {
            assert_eq!(voxel_to_chunk(origin[0] + local as i32, 32), (c, local));
        }
    }
}

#[test]
fn edit_outside_the_chunk_writes_nothing() {
    let mut world = VoxelWorld::new(2);
    world.load_chunk(&[0, 0, 0], vec![AIR; 8]);
    let mut chunks = vec![idle([0, 0, 0])];
    assert!(!player_break_place_block(
        &mut chunks,
        &mut world,
        &[0, 0, 0],
        &[0, 0, 5],
        STONE,
        false,
        AIR
    ));
    assert!(player_break_place_block(&mut chunks, &mut world, &[0, 0, 0], &[0, 0, 5], AIR, true, AIR));
    assert_eq!(world.get_chunk(&[0, 0, 0]), Some(&vec![AIR; 8]));
    assert!(chunks[0].needs_meshing && !chunks[0].dirty);
}

#[test]
fn no_edit_touches_a_neighbour_of_a_chunk_without_voxels() {
    assert!(touches(&[0, 0, 0], &[0, 0, 0], 0, &[0, 0, 0]));
    assert!(touches(&[-1, 0, 0], &[0, 0, 0], 0, &[0, 0, 0]));
    assert!(!touches(&[1, 0, 0], &[0, 0, 0], 0, &[0, 0, 0]));
}
