use red_engine2::mesh_index::{append_offset_indices, flip_winding_for_viewmodel, lathe_indices};

#[test]
fn flipping_swaps_the_last_two_corners_of_each_triangle() {
    let mut v = vec![0, 1, 2, 3, 4, 5, 6];
    flip_winding_for_viewmodel(&mut v);
    assert_eq!(v, vec![0, 2, 1, 3, 5, 4, 6]);
    flip_winding_for_viewmodel(&mut v);
    assert_eq!(v, vec![0, 1, 2, 3, 4, 5, 6], "flipping twice restores the winding");
    let mut e: Vec<u32> = Vec::new();
    flip_winding_for_viewmodel(&mut e);
    assert!(e.is_empty());
}

#[test]
fn a_lathe_joins_consecutive_rings_with_two_triangles_per_segment() {
    // Three rings of three vertices (two segments around).
    let ix = lathe_indices(3, 2);
    assert_eq!(
        ix,
        vec![0, 1, 3, 1, 4, 3, 1, 2, 4, 2, 5, 4, 3, 4, 6, 4, 7, 6, 4, 5, 7, 5, 8, 7]
    );
    assert!(ix.iter().all(|&i| i < 9));
    assert!(lathe_indices(1, 8).is_empty(), "one ring makes no surface");
    assert!(lathe_indices(4, 0).is_empty());
    assert_eq!(lathe_indices(5, 24).len(), 6 * 4 * 24);
}

#[test]
fn appended_indices_are_shifted_past_the_existing_vertices() {
    let mut dst = vec![0, 1, 2];
    append_offset_indices(&mut dst, &vec![0, 2, 1, 1, 2, 3], 3);
    assert_eq!(dst, vec![0, 1, 2, 3, 5, 4, 4, 5, 6]);
}
