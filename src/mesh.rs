//! Topology of a triangle mesh: each triangle names three vertex positions and,
//! independently, three vertex normals, by index. A mesh is usable when the
//! two index lists have one entry per triangle and every index is in range.
use vstd::prelude::*;

verus! {

/// Why a mesh's topology is refused.
#[derive(Clone, Copy, Debug, PartialEq, Eq)]
pub enum MeshError {
    /// The position and normal index lists differ in length.
    CornerCountMismatch,
    /// This triangle names a vertex position past the end of the list.
    VertexIndexOutOfRange { triangle: usize },
    /// This triangle names a normal past the end of the list.
    NormalIndexOutOfRange { triangle: usize },
}

/// All three corners of `t` are below `n`.
pub open spec fn corners_below(t: [u32; 3], n: nat) -> bool {
    t@[0] < n && t@[1] < n && t@[2] < n
}

/// Triangle `k` names only existing positions and normals.
pub open spec fn triangle_valid(
    vertex_count: nat,
    normal_count: nat,
    triangles: Seq<[u32; 3]>,
    normal_triangles: Seq<[u32; 3]>,
    k: int,
) -> bool {
    corners_below(triangles[k], vertex_count) && corners_below(normal_triangles[k], normal_count)
}

/// Every triangle before `k` is valid.
pub open spec fn valid_before(
    vertex_count: nat,
    normal_count: nat,
    triangles: Seq<[u32; 3]>,
    normal_triangles: Seq<[u32; 3]>,
    k: int,
) -> bool {
    forall|j: int|
        0 <= j < k ==> #[trigger] triangle_valid(
            vertex_count,
            normal_count,
            triangles,
            normal_triangles,
            j,
        )
}

/// The index lists agree in length and every index is in range.
pub open spec fn mesh_valid(
    vertex_count: nat,
    normal_count: nat,
    triangles: Seq<[u32; 3]>,
    normal_triangles: Seq<[u32; 3]>,
) -> bool {
    triangles.len() == normal_triangles.len() && valid_before(
        vertex_count,
        normal_count,
        triangles,
        normal_triangles,
        triangles.len() as int,
    )
}

fn corners_below_exec(t: &[u32; 3], n: usize) -> (r: bool)
    ensures
        r == corners_below(*t, n as nat),
{
    (t[0] as usize) < n && (t[1] as usize) < n && (t[2] as usize) < n
}

/// Checks a mesh's topology against the number of vertex positions and
/// normals that it holds. Triangles are checked in order, positions before
/// normals; the first fault found is reported.
pub fn validate_mesh(
    vertex_count: usize,
    normal_count: usize,
    triangles: &Vec<[u32; 3]>,
    normal_triangles: &Vec<[u32; 3]>,
) -> (r: Result<(), MeshError>)
    ensures
        r is Ok <==> mesh_valid(vertex_count as nat, normal_count as nat, triangles@, normal_triangles@),
        r == Err::<(), MeshError>(MeshError::CornerCountMismatch) <==> triangles@.len()
            != normal_triangles@.len(),
        forall|k: usize|
            r == Err::<(), MeshError>(MeshError::VertexIndexOutOfRange { triangle: k }) <==> {
                &&& triangles@.len() == normal_triangles@.len()
                &&& k < triangles@.len()
                &&& valid_before(vertex_count as nat, normal_count as nat, triangles@, normal_triangles@, k as int)
                &&& !corners_below(triangles@[k as int], vertex_count as nat)
            },
        forall|k: usize|
            r == Err::<(), MeshError>(MeshError::NormalIndexOutOfRange { triangle: k }) <==> {
                &&& triangles@.len() == normal_triangles@.len()
                &&& k < triangles@.len()
                &&& valid_before(vertex_count as nat, normal_count as nat, triangles@, normal_triangles@, k as int)
                &&& corners_below(triangles@[k as int], vertex_count as nat)
                &&& !corners_below(normal_triangles@[k as int], normal_count as nat)
            },
{
    if triangles.len() != normal_triangles.len() {
        return Err(MeshError::CornerCountMismatch);
    }
    let mut k: usize = 0;
    while k < triangles.len()
        invariant
            k <= triangles@.len(),
            triangles@.len() == normal_triangles@.len(),
            valid_before(vertex_count as nat, normal_count as nat, triangles@, normal_triangles@, k as int),
        decreases triangles@.len() - k,
    {
        if !corners_below_exec(&triangles[k], vertex_count) {
            proof {
                lemma_fault_is_first(vertex_count as nat, normal_count as nat, triangles@, normal_triangles@, k as int);
            }
            return Err(MeshError::VertexIndexOutOfRange { triangle: k });
        }
        if !corners_below_exec(&normal_triangles[k], normal_count) {
            proof {
                lemma_fault_is_first(vertex_count as nat, normal_count as nat, triangles@, normal_triangles@, k as int);
            }
            return Err(MeshError::NormalIndexOutOfRange { triangle: k });
        }
        assert(triangle_valid(vertex_count as nat, normal_count as nat, triangles@, normal_triangles@, k as int));
        k = k + 1;
    }
    proof {
        assert forall|j: int| 0 <= j < triangles@.len() implies corners_below(triangles@[j], vertex_count as nat)
            && corners_below(normal_triangles@[j], normal_count as nat) by {
            assert(triangle_valid(vertex_count as nat, normal_count as nat, triangles@, normal_triangles@, j));
        }
    }
    Ok(())
}

/// Where triangle `k` is the first invalid one, no other triangle is both
/// invalid and preceded by valid ones only.
proof fn lemma_fault_is_first(
    vertex_count: nat,
    normal_count: nat,
    triangles: Seq<[u32; 3]>,
    normal_triangles: Seq<[u32; 3]>,
    k: int,
)
    requires
        0 <= k,
        valid_before(vertex_count, normal_count, triangles, normal_triangles, k),
        !triangle_valid(vertex_count, normal_count, triangles, normal_triangles, k),
    ensures
        forall|j: int|
            0 <= j && j != k ==> !(valid_before(vertex_count, normal_count, triangles, normal_triangles, j)
                && !triangle_valid(vertex_count, normal_count, triangles, normal_triangles, j)),
{
    assert forall|j: int|
        0 <= j && j != k implies !(valid_before(vertex_count, normal_count, triangles, normal_triangles, j)
            && !triangle_valid(vertex_count, normal_count, triangles, normal_triangles, j)) by {
        if j < k {
            assert(triangle_valid(vertex_count, normal_count, triangles, normal_triangles, j));
        } else if valid_before(vertex_count, normal_count, triangles, normal_triangles, j) {
            assert(triangle_valid(vertex_count, normal_count, triangles, normal_triangles, k));
        }
    }
}

} // verus!
