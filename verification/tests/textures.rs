use voxel_terrain::textures::check_texture_dimensions;

#[test]
fn matching_dimensions_are_accepted() {
    let dims = vec![(16, 16), (16, 16), (16, 16)];
    assert!(check_texture_dimensions(&dims).is_ok());
}

#[test]
fn single_image_is_accepted() {
    let dims = vec![(64, 32)];
    assert!(check_texture_dimensions(&dims).is_ok());
}

#[test]
fn first_mismatch_is_reported_exactly() {
    let dims = vec![(16, 16), (16, 16), (32, 16), (8, 8)];
    let err = check_texture_dimensions(&dims).unwrap_err();
    assert_eq!(err.index, 2);
    assert_eq!((err.width, err.height), (32, 16));
    assert_eq!((err.expected_width, err.expected_height), (16, 16));
}

#[test]
fn height_mismatch_is_an_error_too() {
    let dims = vec![(16, 16), (16, 17)];
    let err = check_texture_dimensions(&dims).unwrap_err();
    assert_eq!(err.index, 1);
    assert_eq!((err.width, err.height), (16, 17));
}
