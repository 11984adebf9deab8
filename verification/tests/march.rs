use voxel_world::{DenseBinaryCartesianSDF, DenseGrid, Dimension3, GPUFormat, OutOfBounds, Voxel};

fn shape(x: usize, y: usize, z: usize) -> Dimension3 {
    Dimension3 { x, y, z }
}

#[test]
fn zeros_is_all_zero() {
    let f = DenseBinaryCartesianSDF::zeros(shape(3, 2, 4));
    for z in 0..4 {
        for y in 0..2 {
            for x in 0..3 {
                assert_eq!(f.get(x, y, z), Ok(0));
            }
        }
    }
    assert_eq!(f.get(3, 0, 0), Err(OutOfBounds));
}

#[test]
fn update_marks_exactly_the_empty_cells() {
    let sh = shape(2, 3, 2);
    let mut world: DenseGrid<Voxel> = DenseGrid::fill(sh, Voxel::Empty);
    world.set(0, 0, 0, Voxel::Red).unwrap();
    world.set(1, 2, 1, Voxel::Green).unwrap();
    let mut f = DenseBinaryCartesianSDF::zeros(sh);
    f.update(&world);
    for z in 0..sh.z {
        for y in 0..sh.y {
            for x in 0..sh.x {
                let occupied = (x, y, z) == (0, 0, 0) || (x, y, z) == (1, 2, 1);
                let expected = if occupied { 0 } else { 1 };
                assert_eq!(f.get(x, y, z), Ok(expected));
            }
        }
    }
}

#[test]
fn update_overwrites_previous_contents() {
    let sh = shape(2, 2, 2);
    let mut world: DenseGrid<Voxel> = DenseGrid::fill(sh, Voxel::Blue);
    let mut f = DenseBinaryCartesianSDF::zeros(sh);
    f.update(&world);
    for i in 0..8 {
        assert_eq!(f.gpu_format()[i], 0);
    }
    world = DenseGrid::fill(sh, Voxel::Empty);
    f.update(&world);
    for i in 0..8 {
        assert_eq!(f.gpu_format()[i], 1);
    }
}

#[test]
fn sdf_gpu_format_matches_cells() {
    let sh = shape(3, 1, 1);
    let mut world: DenseGrid<Voxel> = DenseGrid::fill(sh, Voxel::Empty);
    world.set(1, 0, 0, Voxel::Red).unwrap();
    let mut f = DenseBinaryCartesianSDF::zeros(sh);
    f.update(&world);
    let bytes = f.gpu_format();
    assert_eq!(bytes, vec![1, 0, 1]);
}
