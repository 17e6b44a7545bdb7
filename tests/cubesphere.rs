use gloom::cubesphere::{
    face_grid, face_index_count, face_indices, FaceOrientation, GridPoint, MeshError,
    MAX_SUBDIVISIONS,
};

#[test]
fn one_subdivision_is_a_single_quad() {
    assert_eq!(face_indices(1).unwrap(), vec![0, 2, 1, 1, 2, 3]);
    assert_eq!(face_grid(1).unwrap().len(), 4);
}

#[test]
fn zero_subdivisions_are_refused() {
    assert_eq!(face_indices(0), Err(MeshError::InvalidSubdivisions));
    assert_eq!(face_grid(0), Err(MeshError::InvalidSubdivisions));
    assert_eq!(face_index_count(0), Err(MeshError::InvalidSubdivisions));
}

#[test]
fn too_many_subdivisions_are_refused() {
    let n = MAX_SUBDIVISIONS + 1;
    assert_eq!(face_indices(n), Err(MeshError::TooManySubdivisions));
    assert_eq!(face_grid(n), Err(MeshError::TooManySubdivisions));
    assert_eq!(face_index_count(n), Err(MeshError::TooManySubdivisions));
    assert_eq!(face_index_count(MAX_SUBDIVISIONS), Ok(6 * 16384 * 16384));
}

#[test]
fn counts_follow_the_subdivisions() {
    for n in [1u32, 2, 3, 7, 16, 64] {
        let grid = face_grid(n).unwrap();
        let idx = face_indices(n).unwrap();
        let verts = ((n + 1) * (n + 1)) as usize;
        assert_eq!(grid.len(), verts);
        assert_eq!(idx.len() / 3, (2 * n * n) as usize);
        assert_eq!(idx.len() % 3, 0);
        assert!(idx.iter().all(|&i| (i as usize) < verts));
        assert_eq!(face_index_count(n), Ok(idx.len() as i32));
    }
}

#[test]
fn grid_runs_row_by_row() {
    let grid = face_grid(2).unwrap();
    assert_eq!(grid[0], GridPoint { col: 0, row: 0 });
    assert_eq!(grid[2], GridPoint { col: 2, row: 0 });
    assert_eq!(grid[4], GridPoint { col: 1, row: 1 });
    assert_eq!(grid[8], GridPoint { col: 2, row: 2 });
}

#[test]
fn second_row_cells_of_a_two_by_two_face() {
    let idx = face_indices(2).unwrap();
    assert_eq!(idx.len(), 24);
    // cell 3: row 1, column 1; corners 4, 5, 7, 8
    assert_eq!(&idx[18..24], &[4, 7, 5, 5, 7, 8]);
}

#[test]
fn every_vertex_is_used() {
    let n = 5u32;
    let idx = face_indices(n).unwrap();
    let verts = ((n + 1) * (n + 1)) as usize;
    let mut seen = vec![false; verts];
    for &i in &idx {
        seen[i as usize] = true;
    }
    assert!(seen.iter().all(|&s| s));
}

#[test]
fn face_axes_point_outward() {
    assert_eq!(FaceOrientation::Top.outward_axis(), (0, 1, 0));
    assert_eq!(FaceOrientation::Bottom.outward_axis(), (0, -1, 0));
    assert_eq!(FaceOrientation::Front.outward_axis(), (0, 0, 1));
    assert_eq!(FaceOrientation::Back.outward_axis(), (0, 0, -1));
    assert_eq!(FaceOrientation::Left.outward_axis(), (1, 0, 0));
    assert_eq!(FaceOrientation::Right.outward_axis(), (-1, 0, 0));
}
