use bevy_voxels::save_file::chunk_file_name;

#[test]
fn file_name_holds_the_three_coordinates() {
    assert_eq!(chunk_file_name(&[0, 0, 0]), "0_0_0.dat");
    assert_eq!(chunk_file_name(&[1, 2, 3]), "1_2_3.dat");
    assert_eq!(chunk_file_name(&[-1, 20, -300]), "-1_20_-300.dat");
    assert_eq!(chunk_file_name(&[10, 100, 1009]), "10_100_1009.dat");
}

#[test]
fn file_name_at_the_edge_of_the_coordinates() {
    assert_eq!(
        chunk_file_name(&[i32::MAX, i32::MIN, 0]),
        "2147483647_-2147483648_0.dat"
    );
}

#[test]
fn file_name_is_what_formatting_gives() {
    for pos in [[7, -8, 9], [123456, -654321, 42], [-10, 10, -100], [99, 101, i32::MIN + 1]] {
        assert_eq!(chunk_file_name(&pos), format!("{}_{}_{}.dat", pos[0], pos[1], pos[2]));
    }
}

#[test]
fn different_chunks_have_different_files() {
    let names: Vec<String> = [[1, 11, 1], [11, 1, 1], [1, 1, 11], [-1, 1, 1], [1, -1, 1]]
        .iter()
        .map(chunk_file_name)
        .collect();
    for i in 0..names.len() {
        for j in 0..i {
            assert_ne!(names[i], names[j]);
        }
    }
}
