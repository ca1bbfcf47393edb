use bevy_voxels::grid::{chunk_volume, local_pos_to_idx};
use bevy_voxels::voxel_world::VoxelWorld;

#[test]
fn index_formula_has_x_fastest() {
    assert_eq!(local_pos_to_idx(32, 0, 0, 0), 0);
    assert_eq!(local_pos_to_idx(32, 1, 0, 0), 1);
    assert_eq!(local_pos_to_idx(32, 0, 1, 0), 32);
    assert_eq!(local_pos_to_idx(32, 0, 0, 1), 1024);
    assert_eq!(local_pos_to_idx(32, 1, 2, 3), 1 + 2 * 32 + 3 * 1024);
    assert_eq!(local_pos_to_idx(32, 31, 31, 31), 32767);
}

#[test]
fn volume_is_the_cube_of_the_side() {
    assert_eq!(chunk_volume(0), 0);
    assert_eq!(chunk_volume(1), 1);
    assert_eq!(chunk_volume(32), 32768);
}

#[test]
fn new_world_holds_no_chunk() {
    let world = VoxelWorld::new(32);
    assert_eq!(world.chunk_len, 32);
    assert!(!world.is_loaded(&[0, 0, 0]));
    assert_eq!(world.get_voxel(&[0, 0, 0], 1, 2, 3), None);
    assert!(world.get_chunk(&[0, 0, 0]).is_none());
    assert_eq!(world.voxels_per_chunk(), 32768);
}

#[test]
fn loaded_chunk_can_be_read() {
    let mut world = VoxelWorld::new(2);
    world.load_chunk(&[1, -2, 3], vec![10, 11, 12, 13, 14, 15, 16, 17]);
    assert!(world.is_loaded(&[1, -2, 3]));
    assert!(!world.is_loaded(&[1, 2, 3]));
    assert_eq!(world.get_voxel(&[1, -2, 3], 0, 0, 0), Some(10));
    assert_eq!(world.get_voxel(&[1, -2, 3], 1, 0, 0), Some(11));
    assert_eq!(world.get_voxel(&[1, -2, 3], 0, 1, 0), Some(12));
    assert_eq!(world.get_voxel(&[1, -2, 3], 0, 0, 1), Some(14));
    assert_eq!(world.get_voxel(&[1, -2, 3], 1, 1, 1), Some(17));
    assert_eq!(world.get_chunk(&[1, -2, 3]), Some(&vec![10, 11, 12, 13, 14, 15, 16, 17]));
    assert_eq!(world.local_pos_to_idx(1, 1, 0), 3);
}

#[test]
fn load_chunk_replaces_the_array() {
    let mut world = VoxelWorld::new(1);
    world.load_chunk(&[0, 0, 0], vec![5]);
    world.load_chunk(&[0, 0, 0], vec![6]);
    assert_eq!(world.get_voxel(&[0, 0, 0], 0, 0, 0), Some(6));
}

#[test]
fn set_voxel_writes_one_place() {
    let mut world = VoxelWorld::new(2);
    world.load_chunk(&[0, 0, 0], vec![0; 8]);
    world.load_chunk(&[1, 0, 0], vec![0; 8]);
    world.set_voxel(&[0, 0, 0], 1, 0, 1, 9);
    assert_eq!(world.get_chunk(&[0, 0, 0]), Some(&vec![0, 0, 0, 0, 0, 9, 0, 0]));
    assert_eq!(world.get_chunk(&[1, 0, 0]), Some(&vec![0; 8]));
}

#[test]
fn set_voxel_on_unloaded_chunk_is_dropped() {
    let mut world = VoxelWorld::new(2);
    world.load_chunk(&[0, 0, 0], vec![0; 8]);
    world.set_voxel(&[5, 5, 5], 1, 1, 1, 9);
    assert!(!world.is_loaded(&[5, 5, 5]));
    assert_eq!(world.get_voxel(&[5, 5, 5], 1, 1, 1), None);
    assert_eq!(world.get_chunk(&[0, 0, 0]), Some(&vec![0; 8]));
}

#[test]
fn unload_chunk_removes_the_array() {
    let mut world = VoxelWorld::new(1);
    world.load_chunk(&[0, 0, 0], vec![5]);
    world.load_chunk(&[0, 1, 0], vec![6]);
    world.unload_chunk(&[0, 0, 0]);
    assert_eq!(world.get_voxel(&[0, 0, 0], 0, 0, 0), None);
    assert_eq!(world.get_voxel(&[0, 1, 0], 0, 0, 0), Some(6));
    world.unload_chunk(&[0, 0, 0]);
    assert!(!world.is_loaded(&[0, 0, 0]));
}

#[test]
fn get_chunk_mut_gives_the_stored_array() {
    let mut world = VoxelWorld::new(1);
    world.load_chunk(&[0, 0, 0], vec![5]);
    assert!(world.get_chunk_mut(&[9, 9, 9]).is_none());
    match world.get_chunk_mut(&[0, 0, 0]) {
        Some(voxels) => {
            assert_eq!(voxels, &vec![5]);
            voxels[0] = 7;
        }
        None => panic!("the chunk is loaded"),
    }
    assert_eq!(world.get_voxel(&[0, 0, 0], 0, 0, 0), Some(7));
}

#[test]
fn find_voxel_reads_any_position() {
    let mut world = VoxelWorld::new(2);
    world.load_chunk(&[0, 0, 0], vec![10, 11, 12, 13, 14, 15, 16, 17]);
    assert_eq!(world.find_voxel(&[0, 0, 0], 1, 1, 0), Some(13));
    assert_eq!(world.find_voxel(&[0, 0, 0], 1, 1, 1), Some(17));
    // No such chunk, no such place.
    assert_eq!(world.find_voxel(&[1, 0, 0], 0, 0, 0), None);
    assert_eq!(world.find_voxel(&[0, 0, 0], 0, 0, 2), None);
    assert_eq!(world.find_voxel(&[0, 0, 0], usize::MAX, usize::MAX, usize::MAX), None);
    // A position beyond the side whose index lies in the array is read
    // by that index, as `get_voxel` reads it.
    assert_eq!(world.find_voxel(&[0, 0, 0], 3, 0, 0), Some(13));
    assert_eq!(world.get_voxel(&[0, 0, 0], 3, 0, 0), Some(13));
}

#[test]
fn put_voxel_says_whether_it_wrote() {
    let mut world = VoxelWorld::new(2);
    world.load_chunk(&[0, 0, 0], vec![0; 8]);
    assert!(world.put_voxel(&[0, 0, 0], 0, 1, 1, 9));
    assert_eq!(world.get_chunk(&[0, 0, 0]), Some(&vec![0, 0, 0, 0, 0, 0, 9, 0]));
    assert!(!world.put_voxel(&[0, 0, 0], 0, 0, 2, 9));
    assert!(!world.put_voxel(&[0, 0, 0], 0, usize::MAX, 0, 9));
    assert!(!world.put_voxel(&[3, 3, 3], 0, 0, 0, 9));
    assert_eq!(world.get_chunk(&[0, 0, 0]), Some(&vec![0, 0, 0, 0, 0, 0, 9, 0]));
    assert!(!world.is_loaded(&[3, 3, 3]));
}
