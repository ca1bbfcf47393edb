use bevy_voxels::chunk::{
    finish_generation, finish_load, finish_meshing, first_due, in_load_region, mark_load_all,
    mark_save_all, mark_unsaved, next_due, record_save, save_bytes, scheduled_save,
    spawn_chunk, unload_chunks, update_membership, Batch, Chunk, Work, BATCH_LIMIT,
    LOAD_RADIUS, MAX_LOAD_RADIUS,
};
use bevy_voxels::codec::CodecError;
use bevy_voxels::terrain::TerrainBlocks;
use bevy_voxels::voxel_world::VoxelWorld;

fn blocks() -> TerrainBlocks {
    TerrainBlocks { air: 0, stone: 1, grass: 2, dirt: 3, stone_fence: 4 }
}

fn flags(c: &Chunk) -> (bool, bool, bool, bool, bool, bool) {
    (
        c.dirty,
        c.needs_loading,
        c.needs_generating,
        c.needs_saving,
        c.needs_unloading,
        c.needs_meshing,
    )
}

/// A batch that has worked on `done` chunks and stands at record `from`.
fn batch(done: usize, from: usize) -> Batch {
    Batch { done, from }
}

fn active(pos: [i32; 3]) -> Chunk {
    Chunk {
        world_pos: pos,
        dirty: false,
        needs_loading: false,
        needs_generating: false,
        needs_saving: false,
        needs_unloading: false,
        needs_meshing: false,
    }
}

#[test]
fn constants_of_the_design() {
    assert_eq!(LOAD_RADIUS, 4);
    assert_eq!(BATCH_LIMIT, 8);
    let side = 2 * MAX_LOAD_RADIUS as u64 + 1;
    assert!(side * side * side <= u32::MAX as u64);
    assert!((side + 2) * (side + 2) * (side + 2) > u32::MAX as u64);
}

#[test]
fn load_region_is_a_cube() {
    let c = [10, -3, 0];
    assert!(in_load_region(&[10, -3, 0], &c, 4));
    assert!(in_load_region(&[14, 1, -4], &c, 4));
    assert!(in_load_region(&[6, -7, 4], &c, 4));
    assert!(!in_load_region(&[15, -3, 0], &c, 4));
    assert!(!in_load_region(&[10, -8, 0], &c, 4));
    assert!(!in_load_region(&[10, -3, 5], &c, 4));
    assert!(in_load_region(&[10, -3, 0], &c, 0));
    assert!(!in_load_region(&[11, -3, 0], &c, 0));
}

#[test]
fn load_region_at_the_edge_of_the_coordinates() {
    let c = [i32::MAX, i32::MIN, 0];
    assert!(in_load_region(&[i32::MAX - 4, i32::MIN + 4, 0], &c, 4));
    assert!(!in_load_region(&[i32::MAX - 5, i32::MIN, 0], &c, 4));
    assert!(!in_load_region(&[i32::MIN, i32::MIN, 0], &c, 4));
}

#[test]
fn spawned_chunk_is_due_for_loading_only() {
    let c = spawn_chunk([1, 2, 3]);
    assert_eq!(c.world_pos, [1, 2, 3]);
    assert_eq!(flags(&c), (false, true, false, false, false, false));
}

#[test]
fn first_membership_spawns_the_whole_region() {
    let mut chunks = vec![];
    update_membership(&mut chunks, &[0, 0, 0], 4);
    assert_eq!(chunks.len(), 729);
    assert_eq!(chunks[0].world_pos, [-4, -4, -4]);
    assert_eq!(chunks[1].world_pos, [-3, -4, -4]);
    assert_eq!(chunks[9].world_pos, [-4, -3, -4]);
    assert_eq!(chunks[81].world_pos, [-4, -4, -3]);
    assert_eq!(chunks[728].world_pos, [4, 4, 4]);
    for c in &chunks {
        assert_eq!(flags(c), (false, true, false, false, false, false));
    }
}

#[test]
fn membership_spawns_in_x_then_y_then_z_order() {
    let mut chunks = vec![];
    update_membership(&mut chunks, &[5, 6, 7], 1);
    let positions: Vec<[i32; 3]> = chunks.iter().map(|c| c.world_pos).collect();
    let mut expected = vec![];
    for z in 6..=8 {
        for y in 5..=7 {
            for x in 4..=6 {
                expected.push([x, y, z]);
            }
        }
    }
    assert_eq!(positions, expected);
}

#[test]
fn membership_twice_changes_nothing() {
    let mut chunks = vec![];
    update_membership(&mut chunks, &[0, 0, 0], 1);
    update_membership(&mut chunks, &[0, 0, 0], 1);
    assert_eq!(chunks.len(), 27);
    for c in &chunks {
        assert_eq!(flags(c), (false, true, false, false, false, false));
    }
}

#[test]
fn membership_retires_chunks_out_of_reach() {
    let mut clean = active([0, 0, 0]);
    clean.needs_meshing = true;
    let mut dirty = active([0, 1, 0]);
    dirty.dirty = true;
    let mut near = active([2, 0, 0]);
    near.dirty = true;
    let mut chunks = vec![clean, dirty, near];
    update_membership(&mut chunks, &[3, 0, 0], 1);
    assert_eq!(chunks.len(), 3 + 26);
    // Out of reach, clean: unloading only, other flags as they were.
    assert_eq!(chunks[0].world_pos, [0, 0, 0]);
    assert_eq!(flags(&chunks[0]), (false, false, false, false, true, true));
    // Out of reach, dirty: saving and unloading.
    assert_eq!(flags(&chunks[1]), (true, false, false, true, true, false));
    // In reach: untouched, and no second record for it.
    assert_eq!(flags(&chunks[2]), (true, false, false, false, false, false));
    assert_eq!(chunks.iter().filter(|c| c.world_pos == [2, 0, 0]).count(), 1);
    assert!(chunks[3..].iter().all(|c| c.needs_loading && !c.needs_unloading));
    assert_eq!(chunks[3].world_pos, [2, -1, -1]);
    assert_eq!(chunks[4].world_pos, [3, -1, -1]);
    assert_eq!(chunks[5].world_pos, [4, -1, -1]);
    assert_eq!(chunks[6].world_pos, [2, 0, -1]);
    // The cell (2, 0, 0) has its record: the next fresh one is (3, 0, 0).
    assert_eq!(chunks[14].world_pos, [4, -1, 0]);
    assert_eq!(chunks[15].world_pos, [3, 0, 0]);
}

#[test]
fn membership_with_radius_zero_wants_one_chunk() {
    let mut chunks = vec![active([1, 1, 1])];
    update_membership(&mut chunks, &[0, 0, 0], 0);
    assert_eq!(chunks.len(), 2);
    assert!(chunks[0].needs_unloading);
    assert_eq!(chunks[1].world_pos, [0, 0, 0]);
}

#[test]
fn membership_at_the_edge_of_the_coordinates() {
    let mut chunks = vec![];
    update_membership(&mut chunks, &[i32::MAX, 0, i32::MIN], 1);
    // Of the 27 cells, those with x beyond the largest coordinate or z
    // below the least are no chunks.
    assert_eq!(chunks.len(), 2 * 3 * 2);
    assert_eq!(chunks[0].world_pos, [i32::MAX - 1, -1, i32::MIN]);
    assert_eq!(chunks[11].world_pos, [i32::MAX, 1, i32::MIN + 1]);
}

#[test]
fn chunk_out_of_reach_is_gone_after_unloading() {
    let mut world = VoxelWorld::new(1);
    let mut chunks = vec![];
    update_membership(&mut chunks, &[0, 0, 0], 1);
    for i in 0..chunks.len() {
        mark_unsaved(&mut chunks, i, &mut Batch::new());
        finish_generation(
            &mut chunks,
            &mut world,
            i,
            &vec![0x3F80_0000],
            &blocks(),
            &mut Batch::new(),
        );
    }
    assert!(world.is_loaded(&[-1, 0, 0]));

    update_membership(&mut chunks, &[1, 0, 0], 1);
    unload_chunks(&mut chunks, &mut world);
    for c in &chunks {
        assert!(in_load_region(&c.world_pos, &[1, 0, 0], 1));
    }
    for z in -1..=1 {
        for y in -1..=1 {
            assert!(!world.is_loaded(&[-1, y, z]));
            assert!(world.is_loaded(&[0, y, z]));
            assert!(world.is_loaded(&[1, y, z]));
            assert!(!world.is_loaded(&[2, y, z]));
        }
    }
    assert_eq!(chunks.len(), 27);
    assert_eq!(chunks.iter().filter(|c| c.needs_loading).count(), 9);
}

#[test]
fn unloading_drops_the_records_that_are_due() {
    let mut world = VoxelWorld::new(1);
    world.load_chunk(&[0, 0, 0], vec![1]);
    world.load_chunk(&[1, 0, 0], vec![2]);
    let mut leaving = active([0, 0, 0]);
    leaving.needs_unloading = true;
    let mut never_loaded = spawn_chunk([5, 5, 5]);
    never_loaded.needs_unloading = true;
    let staying = active([1, 0, 0]);
    let mut chunks = vec![leaving, staying, never_loaded];
    unload_chunks(&mut chunks, &mut world);
    assert_eq!(chunks.len(), 1);
    assert_eq!(chunks[0].world_pos, [1, 0, 0]);
    assert!(!world.is_loaded(&[0, 0, 0]));
    assert_eq!(world.get_voxel(&[1, 0, 0], 0, 0, 0), Some(2));
}

#[test]
fn next_due_is_the_first_record_with_the_work() {
    let mut a = active([0, 0, 0]);
    a.needs_saving = true;
    let mut b = active([1, 0, 0]);
    b.needs_generating = true;
    let mut c = active([2, 0, 0]);
    c.needs_generating = true;
    c.needs_loading = true;
    let chunks = vec![a, b, c];
    let fresh = Batch::new();
    assert_eq!((fresh.done, fresh.from), (0, 0));
    assert_eq!(next_due(&chunks, Work::Saving, &fresh), Some(0));
    assert_eq!(next_due(&chunks, Work::Generating, &fresh), Some(1));
    assert_eq!(next_due(&chunks, Work::Loading, &fresh), Some(2));
    assert_eq!(next_due(&vec![active([0, 0, 0])], Work::Loading, &fresh), None);
    assert_eq!(next_due(&vec![], Work::Saving, &fresh), None);
}

#[test]
fn next_due_looks_from_where_the_batch_stands() {
    let mut chunks: Vec<Chunk> = (0..4).map(|x| active([x, 0, 0])).collect();
    chunks[1].needs_saving = true;
    chunks[3].needs_saving = true;
    assert_eq!(next_due(&chunks, Work::Saving, &batch(0, 0)), Some(1));
    assert_eq!(next_due(&chunks, Work::Saving, &batch(0, 1)), Some(1));
    assert_eq!(next_due(&chunks, Work::Saving, &batch(1, 2)), Some(3));
    assert_eq!(next_due(&chunks, Work::Saving, &batch(2, 4)), None);
    assert_eq!(next_due(&chunks, Work::Saving, &batch(0, usize::MAX)), None);
}

#[test]
fn a_phase_stops_after_more_than_eight_chunks() {
    let chunks = vec![spawn_chunk([0, 0, 0])];
    assert_eq!(next_due(&chunks, Work::Loading, &batch(8, 0)), Some(0));
    assert_eq!(next_due(&chunks, Work::Loading, &batch(9, 0)), None);
    assert_eq!(next_due(&chunks, Work::Loading, &batch(usize::MAX, 0)), None);
}

#[test]
fn generation_phase_works_on_nine_chunks_a_tick() {
    let mut world = VoxelWorld::new(1);
    let mut chunks = vec![];
    update_membership(&mut chunks, &[0, 0, 0], 1);
    for i in 0..chunks.len() {
        mark_unsaved(&mut chunks, i, &mut Batch::new());
    }
    let mut batch = Batch::new();
    while let Some(i) = next_due(&chunks, Work::Generating, &batch) {
        finish_generation(&mut chunks, &mut world, i, &vec![0], &blocks(), &mut batch);
    }
    assert_eq!((batch.done, batch.from), (9, 9));
    assert_eq!(chunks.iter().filter(|c| c.needs_generating).count(), 18);
    assert!(chunks[..9].iter().all(|c| !c.needs_generating && c.needs_meshing && c.dirty));
    assert!(chunks[9..].iter().all(|c| c.needs_generating && !c.needs_meshing && !c.dirty));
}

#[test]
fn generation_installs_the_terrain() {
    let mut world = VoxelWorld::new(2);
    let mut chunks = vec![spawn_chunk([0, 0, 0]), spawn_chunk([3, 2, 1])];
    let mut loading = batch(2, 1);
    mark_unsaved(&mut chunks, 1, &mut loading);
    assert_eq!((loading.done, loading.from), (3, 2));
    assert_eq!(flags(&chunks[1]), (false, false, true, false, false, false));
    let samples: Vec<u32> =
        [1.0f32, 1.0, -1.0, 1.0, 1.0, -1.0, -1.0, -1.0].iter().map(|s| s.to_bits()).collect();
    let mut generating = batch(3, 0);
    finish_generation(&mut chunks, &mut world, 1, &samples, &blocks(), &mut generating);
    assert_eq!((generating.done, generating.from), (4, 2));
    assert_eq!(flags(&chunks[0]), (false, true, false, false, false, false));
    assert_eq!(flags(&chunks[1]), (true, false, false, false, false, true));
    assert_eq!(world.get_chunk(&[3, 2, 1]), Some(&vec![2, 1, 4, 1, 2, 0, 4, 0]));
    assert!(!world.is_loaded(&[0, 0, 0]));
}

#[test]
fn save_all_marks_the_chunks_that_hold_voxels() {
    let mut world = VoxelWorld::new(1);
    world.load_chunk(&[0, 0, 0], vec![1]);
    let mut chunks = vec![active([0, 0, 0]), spawn_chunk([1, 0, 0])];
    mark_save_all(&mut chunks, &world);
    assert_eq!(flags(&chunks[0]), (false, false, false, true, false, false));
    assert_eq!(flags(&chunks[1]), (false, true, false, false, false, false));
}

#[test]
fn load_all_marks_the_chunks_that_hold_voxels() {
    let mut world = VoxelWorld::new(1);
    world.load_chunk(&[0, 0, 0], vec![1]);
    let mut generating = spawn_chunk([1, 0, 0]);
    generating.needs_loading = false;
    generating.needs_generating = true;
    let mut chunks = vec![active([0, 0, 0]), generating];
    mark_load_all(&mut chunks, &world);
    assert_eq!(flags(&chunks[0]), (false, true, false, false, false, false));
    assert_eq!(flags(&chunks[1]), (false, false, true, false, false, false));
}

#[test]
fn autosave_marks_the_dirty_chunks() {
    let mut dirty = active([0, 0, 0]);
    dirty.dirty = true;
    let mut chunks = vec![dirty, active([1, 0, 0])];
    scheduled_save(&mut chunks);
    assert_eq!(flags(&chunks[0]), (true, false, false, true, false, false));
    assert_eq!(flags(&chunks[1]), (false, false, false, false, false, false));
}

#[test]
fn saved_chunk_is_clean() {
    let mut c = active([0, 0, 0]);
    c.dirty = true;
    c.needs_saving = true;
    c.needs_unloading = true;
    let mut chunks = vec![active([1, 1, 1]), c];
    let mut saving = Batch::new();
    record_save(&mut chunks, 1, true, &mut saving);
    assert_eq!((saving.done, saving.from), (1, 2));
    assert_eq!(flags(&chunks[1]), (false, false, false, false, true, false));
    assert_eq!(flags(&chunks[0]), (false, false, false, false, false, false));
}

#[test]
fn failed_save_leaves_the_chunk_dirty() {
    let mut c = active([0, 0, 0]);
    c.dirty = true;
    let mut chunks = vec![c, active([1, 0, 0])];
    chunks[1].dirty = true;
    scheduled_save(&mut chunks);
    let before: Vec<_> = chunks.iter().map(flags).collect();

    // The first write fails, the second succeeds.
    let mut saving = Batch::new();
    assert_eq!(next_due(&chunks, Work::Saving, &saving), Some(0));
    record_save(&mut chunks, 0, false, &mut saving);
    assert_eq!((saving.done, saving.from), (1, 1));
    assert_eq!(flags(&chunks[0]), before[0]);
    assert!(chunks[0].dirty && chunks[0].needs_saving);
    // The phase goes on behind the chunk that failed.
    assert_eq!(next_due(&chunks, Work::Saving, &saving), Some(1));
    record_save(&mut chunks, 1, true, &mut saving);
    assert_eq!(flags(&chunks[1]), (false, false, false, false, false, false));
    assert_eq!(next_due(&chunks, Work::Saving, &saving), None);

    // The next tick, and the next autosave, find the first chunk again.
    scheduled_save(&mut chunks);
    assert_eq!(next_due(&chunks, Work::Saving, &Batch::new()), Some(0));
    assert!(chunks[0].dirty);
}

#[test]
fn failed_saves_use_up_the_batch() {
    let mut chunks: Vec<Chunk> = (0..12).map(|x| active([x, 0, 0])).collect();
    for c in chunks.iter_mut() {
        c.dirty = true;
        c.needs_saving = true;
    }
    let mut saving = Batch::new();
    let mut tried = vec![];
    while let Some(i) = next_due(&chunks, Work::Saving, &saving) {
        tried.push(i);
        record_save(&mut chunks, i, false, &mut saving);
    }
    assert_eq!(tried, vec![0, 1, 2, 3, 4, 5, 6, 7, 8]);
    assert!(chunks.iter().all(|c| c.dirty && c.needs_saving));
}

#[test]
fn save_unload_load_reproduces_the_voxels() {
    let mut world = VoxelWorld::new(2);
    let mut chunks = vec![spawn_chunk([4, 5, 6])];
    mark_unsaved(&mut chunks, 0, &mut Batch::new());
    let samples: Vec<u32> =
        [1.0f32, -1.0, 1.0, 1.0, -1.0, 1.0, -1.0, -1.0].iter().map(|s| s.to_bits()).collect();
    finish_generation(&mut chunks, &mut world, 0, &samples, &blocks(), &mut Batch::new());
    world.set_voxel(&[4, 5, 6], 1, 1, 1, 3);
    let saved: Vec<usize> = world.get_chunk(&[4, 5, 6]).unwrap().clone();

    // Leave the region: the chunk is saved, then unloaded.
    update_membership(&mut chunks, &[100, 0, 0], 0);
    assert_eq!(next_due(&chunks, Work::Saving, &Batch::new()), Some(0));
    let file = save_bytes(&world, &[4, 5, 6]).unwrap();
    record_save(&mut chunks, 0, true, &mut Batch::new());
    unload_chunks(&mut chunks, &mut world);
    assert!(!world.is_loaded(&[4, 5, 6]));
    assert!(chunks.iter().all(|c| c.world_pos != [4, 5, 6]));

    // Come back: the chunk is spawned and loaded from its file.
    update_membership(&mut chunks, &[4, 5, 6], 0);
    unload_chunks(&mut chunks, &mut world);
    assert_eq!(chunks.len(), 1);
    let mut loading = Batch::new();
    let i = next_due(&chunks, Work::Loading, &loading).unwrap();
    assert_eq!(finish_load(&mut chunks, &mut world, i, &file, &mut loading), Ok(()));
    assert_eq!((loading.done, loading.from), (1, 1));
    assert_eq!(world.get_chunk(&[4, 5, 6]), Some(&saved));
    assert_eq!(flags(&chunks[i]), (false, false, false, false, false, true));
}

#[test]
fn loading_replaces_the_voxels_of_an_active_chunk() {
    let mut world = VoxelWorld::new(1);
    world.load_chunk(&[0, 0, 0], vec![1]);
    let file = save_bytes(&world, &[0, 0, 0]).unwrap();
    world.set_voxel(&[0, 0, 0], 0, 0, 0, 2);
    let mut chunks = vec![active([0, 0, 0])];
    mark_load_all(&mut chunks, &world);
    assert_eq!(finish_load(&mut chunks, &mut world, 0, &file, &mut Batch::new()), Ok(()));
    assert_eq!(world.get_voxel(&[0, 0, 0], 0, 0, 0), Some(1));
    assert!(!chunks[0].needs_loading && chunks[0].needs_meshing);
}

#[test]
fn broken_save_file_changes_nothing() {
    let mut world = VoxelWorld::new(2);
    let mut chunks = vec![spawn_chunk([0, 0, 0])];
    let mut loading = batch(5, 0);
    assert_eq!(
        finish_load(&mut chunks, &mut world, 0, &[0xFF, 0xFF], &mut loading),
        Err(CodecError::Decompress)
    );
    // The chunk was worked on, though to no avail.
    assert_eq!((loading.done, loading.from), (6, 1));
    assert!(!world.is_loaded(&[0, 0, 0]));
    assert_eq!(flags(&chunks[0]), (false, true, false, false, false, false));

    let mut small = VoxelWorld::new(1);
    small.load_chunk(&[0, 0, 0], vec![1]);
    let file = save_bytes(&small, &[0, 0, 0]).unwrap();
    assert_eq!(
        finish_load(&mut chunks, &mut world, 0, &file, &mut loading),
        Err(CodecError::Length)
    );
    assert_eq!((loading.done, loading.from), (7, 1));
    assert!(!world.is_loaded(&[0, 0, 0]));
    assert!(chunks[0].needs_loading);
}

#[test]
fn missing_save_file_leads_to_generation() {
    let mut chunks = vec![spawn_chunk([0, 0, 0]), spawn_chunk([1, 0, 0])];
    let mut loading = Batch::new();
    while let Some(i) = next_due(&chunks, Work::Loading, &loading) {
        mark_unsaved(&mut chunks, i, &mut loading);
    }
    assert_eq!(loading.done, 2);
    assert!(chunks.iter().all(|c| !c.needs_loading && c.needs_generating));
    assert_eq!(next_due(&chunks, Work::Generating, &Batch::new()), Some(0));
}

#[test]
fn meshing_is_not_rationed() {
    let mut chunks: Vec<Chunk> = (0..20).map(|x| active([x, 0, 0])).collect();
    for c in chunks.iter_mut().skip(5) {
        c.needs_meshing = true;
    }
    let mut done = 0;
    while let Some(i) = first_due(&chunks, Work::Meshing) {
        assert_eq!(i, 5 + done);
        finish_meshing(&mut chunks, i);
        done += 1;
    }
    assert_eq!(done, 15);
    assert!(chunks.iter().all(|c| !c.needs_meshing));
    assert_eq!(next_due(&chunks, Work::Meshing, &Batch::new()), None);
}

#[test]
fn meshed_chunk_keeps_its_other_flags() {
    let mut c = active([0, 0, 0]);
    c.dirty = true;
    c.needs_meshing = true;
    c.needs_saving = true;
    let mut chunks = vec![c];
    finish_meshing(&mut chunks, 0);
    assert_eq!(flags(&chunks[0]), (true, false, false, true, false, false));
}

#[test]
fn loading_phase_works_on_nine_chunks_a_tick() {
    let mut source = VoxelWorld::new(1);
    source.load_chunk(&[0, 0, 0], vec![3]);
    let file = save_bytes(&source, &[0, 0, 0]).unwrap();

    let mut world = VoxelWorld::new(1);
    let mut chunks = vec![];
    update_membership(&mut chunks, &[0, 0, 0], 1);
    // Every third chunk has no save file, and one file is broken.
    let mut loading = Batch::new();
    let mut missing = 0;
    let mut broken = 0;
    while let Some(i) = next_due(&chunks, Work::Loading, &loading) {
        if i % 3 == 0 {
            mark_unsaved(&mut chunks, i, &mut loading);
            missing += 1;
        } else if i == 4 {
            assert!(finish_load(&mut chunks, &mut world, i, &[1, 2, 3], &mut loading).is_err());
            broken += 1;
        } else {
            finish_load(&mut chunks, &mut world, i, &file, &mut loading).unwrap();
        }
    }
    // Nine chunks were worked on, whatever came of each: the records 0 to 8.
    assert_eq!((loading.done, loading.from), (9, 9));
    assert_eq!((missing, broken), (3, 1));
    assert_eq!(chunks.iter().filter(|c| c.needs_generating).count(), 3);
    assert_eq!(chunks.iter().filter(|c| c.needs_meshing).count(), 5);
    // The broken one and all behind the ninth are still due for loading.
    assert!(chunks[4].needs_loading);
    assert!(chunks[9..].iter().all(|c| c.needs_loading));
    assert_eq!(chunks.iter().filter(|c| c.needs_loading).count(), 18 + 1);
}
