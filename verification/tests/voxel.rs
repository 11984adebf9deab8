use voxel_world::Voxel;

#[test]
fn from_color_maps_primaries() {
    assert_eq!(Voxel::from_color((0xff, 0x00, 0x00)), Voxel::Red);
    assert_eq!(Voxel::from_color((0x00, 0xff, 0x00)), Voxel::Green);
    assert_eq!(Voxel::from_color((0x00, 0x00, 0xff)), Voxel::Blue);
}

#[test]
fn from_color_collapses_other_colors_to_empty() {
    assert_eq!(Voxel::from_color((0x00, 0x00, 0x00)), Voxel::Empty);
    assert_eq!(Voxel::from_color((0xff, 0xff, 0xff)), Voxel::Empty);
    assert_eq!(Voxel::from_color((0xff, 0x00, 0x01)), Voxel::Empty);
    assert_eq!(Voxel::from_color((0x12, 0x34, 0x56)), Voxel::Empty);
}

#[test]
fn canonical_ids() {
    assert_eq!(Voxel::Empty.id(), 0);
    assert_eq!(Voxel::Red.id(), 1);
    assert_eq!(Voxel::Blue.id(), 2);
    assert_eq!(Voxel::Green.id(), 3);
}

#[test]
fn is_empty_only_on_empty() {
    assert!(Voxel::Empty.is_empty());
    assert!(!Voxel::Red.is_empty());
    assert!(!Voxel::Green.is_empty());
    assert!(!Voxel::Blue.is_empty());
}

#[test]
fn default_is_empty() {
    assert_eq!(Voxel::default(), Voxel::Empty);
}
