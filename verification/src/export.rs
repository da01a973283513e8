//! Mesh records for the wavefront exporter: every voxel becomes a closed
//! unit cube from a fixed eight-vertex, six-face template. All vertices of a
//! cube precede its faces in the caller's output; face indices are 1-based
//! and offset by eight per cube, deterministic and order-preserving with
//! respect to the input voxel order. Writing the records is the caller's
//! concern.

use vstd::prelude::*;

use crate::types::{VoxelScene, VoxelV};

verus! {

/// The eight corners of the unit cube at a voxel's grid cell.
pub open spec fn cube_vertices_spec(v: VoxelV) -> Seq<(i64, i64, i64)> {
    let x = v.x as i64;
    let y = v.y as i64;
    let z = v.z as i64;
    seq![
        (x, y, z),
        ((x + 1) as i64, y, z),
        ((x + 1) as i64, (y + 1) as i64, z),
        (x, (y + 1) as i64, z),
        (x, y, (z + 1) as i64),
        ((x + 1) as i64, y, (z + 1) as i64),
        ((x + 1) as i64, (y + 1) as i64, (z + 1) as i64),
        (x, (y + 1) as i64, (z + 1) as i64),
    ]
}

/// The vertices of a scene's cubes, eight per voxel, in voxel order.
pub open spec fn obj_vertices_spec(s: Seq<VoxelV>, i: int, acc: Seq<(i64, i64, i64)>) -> Seq<
    (i64, i64, i64),
>
    decreases s.len() - i,
{
    if i < 0 || i >= s.len() {
        acc
    } else {
        obj_vertices_spec(s, i + 1, acc + cube_vertices_spec(s[i]))
    }
}

/// The six quad faces of the cube at position `i`, as 1-based vertex
/// indices offset by eight per preceding cube.
pub open spec fn cube_faces_spec(i: int) -> Seq<(u64, u64, u64, u64)> {
    let b = (1 + 8 * i) as u64;
    seq![
        (b, (b + 1) as u64, (b + 2) as u64, (b + 3) as u64),
        ((b + 4) as u64, (b + 5) as u64, (b + 6) as u64, (b + 7) as u64),
        (b, (b + 1) as u64, (b + 5) as u64, (b + 4) as u64),
        ((b + 2) as u64, (b + 3) as u64, (b + 7) as u64, (b + 6) as u64),
        ((b + 1) as u64, (b + 2) as u64, (b + 6) as u64, (b + 5) as u64),
        (b, (b + 3) as u64, (b + 7) as u64, (b + 4) as u64),
    ]
}

/// The faces of the first `n` cubes, in order.
pub open spec fn obj_faces_spec(n: int, i: int, acc: Seq<(u64, u64, u64, u64)>) -> Seq<
    (u64, u64, u64, u64),
>
    decreases n - i,
{
    if i < 0 || i >= n {
        acc
    } else {
        obj_faces_spec(n, i + 1, acc + cube_faces_spec(i))
    }
}

/// The mesh records of a scene: the cube vertices of every voxel in order,
/// and the 1-based quad faces referring to them.
#[verifier::loop_isolation(false)]
pub fn obj_mesh(scene: &VoxelScene) -> (r: (Vec<(i64, i64, i64)>, Vec<(u64, u64, u64, u64)>))
    requires
        scene.voxels@.len() < 0x1000_0000_0000_0000,
    ensures
        r.0@ == obj_vertices_spec(scene@, 0, Seq::empty()),
        r.1@ == obj_faces_spec(scene@.len() as int, 0, Seq::empty()),
{
    let n = scene.voxels.len();
    let mut vertices: Vec<(i64, i64, i64)> = Vec::new();
    let mut faces: Vec<(u64, u64, u64, u64)> = Vec::new();
    let mut i: usize = 0;
    proof {
        assert(scene@.len() == n);
    }
    while i < n
        invariant
            i <= n,
            n == scene.voxels@.len(),
            n < 0x1000_0000_0000_0000,
            obj_vertices_spec(scene@, 0, Seq::empty()) == obj_vertices_spec(
                scene@,
                i as int,
                vertices@,
            ),
            obj_faces_spec(n as int, 0, Seq::empty()) == obj_faces_spec(
                n as int,
                i as int,
                faces@,
            ),
        decreases n - i,
    {
        let v = &scene.voxels[i];
        proof {
            assert(scene@[i as int] == scene.voxels@[i as int]@);
        }
        let x = v.x as i64;
        let y = v.y as i64;
        let z = v.z as i64;
        let ghost pre_v = vertices@;
        vertices.push((x, y, z));
        vertices.push((x + 1, y, z));
        vertices.push((x + 1, y + 1, z));
        vertices.push((x, y + 1, z));
        vertices.push((x, y, z + 1));
        vertices.push((x + 1, y, z + 1));
        vertices.push((x + 1, y + 1, z + 1));
        vertices.push((x, y + 1, z + 1));
        proof {
            assert(vertices@ =~= pre_v + cube_vertices_spec(scene@[i as int]));
        }
        let b: u64 = 1 + 8 * (i as u64);
        let ghost pre_f = faces@;
        faces.push((b, b + 1, b + 2, b + 3));
        faces.push((b + 4, b + 5, b + 6, b + 7));
        faces.push((b, b + 1, b + 5, b + 4));
        faces.push((b + 2, b + 3, b + 7, b + 6));
        faces.push((b + 1, b + 2, b + 6, b + 5));
        faces.push((b, b + 3, b + 7, b + 4));
        proof {
            assert(faces@ =~= pre_f + cube_faces_spec(i as int));
        }
        i = i + 1;
    }
    (vertices, faces)
}

} // verus!
