use voxel_world::{Dimension3, Space, Voxel};

fn shape(x: usize, y: usize, z: usize) -> Dimension3 {
    Dimension3 { x, y, z }
}

fn generated(x: usize, y: usize, z: usize) -> Voxel {
    if x >= 10 && x % 3 == 0 && y >= 1 && y % 3 == 0 && z >= 1 && z % 5 == 0 {
        Voxel::Red
    } else {
        Voxel::Empty
    }
}

#[test]
fn generated_world_follows_the_lattice_pattern() {
    let sh = shape(13, 5, 7);
    let s = Space::new(sh);
    assert_eq!(s.voxels.shape(), sh);
    assert_eq!(s.voxels.grid().len(), 13 * 5 * 7);
    for z in 0..sh.z {
        for y in 0..sh.y {
            for x in 0..sh.x {
                assert_eq!(s.voxels.get(x, y, z), Ok(generated(x, y, z)));
            }
        }
    }
    assert_eq!(s.voxels.get(12, 3, 5), Ok(Voxel::Red));
    assert_eq!(s.voxels.get(10, 3, 5), Ok(Voxel::Empty));
    assert_eq!(s.voxels.get(12, 3, 0), Ok(Voxel::Empty));
}

#[test]
fn generated_world_has_consistent_occupancy() {
    let sh = shape(13, 5, 7);
    let s = Space::new(sh);
    for z in 0..sh.z {
        for y in 0..sh.y {
            for x in 0..sh.x {
                let expected = if generated(x, y, z) == Voxel::Empty { 1 } else { 0 };
                assert_eq!(s.sdf.get(x, y, z), Ok(expected));
            }
        }
    }
}
