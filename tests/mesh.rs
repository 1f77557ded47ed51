use pathtracer::mesh::{validate_mesh, MeshError};

#[test]
fn valid_mesh_is_accepted() {
    let tris = vec![[0, 1, 2], [2, 1, 3]];
    let ntris = vec![[0, 0, 0], [1, 1, 1]];
    assert_eq!(validate_mesh(4, 2, &tris, &ntris), Ok(()));
}

#[test]
fn empty_mesh_is_accepted() {
    assert_eq!(validate_mesh(0, 0, &vec![], &vec![]), Ok(()));
}

#[test]
fn corner_lists_must_agree() {
    let tris = vec![[0, 1, 2]];
    assert_eq!(validate_mesh(3, 3, &tris, &vec![]), Err(MeshError::CornerCountMismatch));
}

#[test]
fn vertex_index_out_of_range() {
    let tris = vec![[0, 1, 2], [2, 1, 4]];
    let ntris = vec![[0, 0, 0], [0, 0, 9]];
    assert_eq!(
        validate_mesh(4, 1, &tris, &ntris),
        Err(MeshError::VertexIndexOutOfRange { triangle: 1 })
    );
}

#[test]
fn normal_index_out_of_range() {
    let tris = vec![[0, 1, 2], [2, 1, 3]];
    let ntris = vec![[0, 0, 0], [1, 2, 1]];
    assert_eq!(
        validate_mesh(4, 2, &tris, &ntris),
        Err(MeshError::NormalIndexOutOfRange { triangle: 1 })
    );
}

#[test]
fn first_fault_is_reported() {
    let tris = vec![[0, 1, 2], [0, 1, 2], [7, 1, 2]];
    let ntris = vec![[0, 0, 0], [0, 5, 0], [0, 0, 0]];
    assert_eq!(
        validate_mesh(3, 1, &tris, &ntris),
        Err(MeshError::NormalIndexOutOfRange { triangle: 1 })
    );
}
