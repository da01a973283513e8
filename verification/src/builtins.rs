//! Standalone operations on flattened voxel scenes: translate, rotate and
//! merge. Rotation goes through the one authority for quarter-turn math and
//! normalizes the result back into nonnegative coordinates.

use vstd::prelude::*;

use crate::geom::{parse_axis_spec, rotate_point_spec, wadd, Axis};
use crate::types::{normalize_spec, voxels_view, Voxel, VoxelScene, VoxelV};

verus! {

/// A scene shifted by wrapping offsets.
pub open spec fn translate_spec(s: Seq<VoxelV>, dx: i32, dy: i32, dz: i32) -> Seq<VoxelV> {
    s.map_values(
        |v: VoxelV| VoxelV { x: wadd(v.x, dx), y: wadd(v.y, dy), z: wadd(v.z, dz), color: v.color },
    )
}

/// Translate every voxel of a scene by the given offsets.
pub fn translate(scene: &VoxelScene, dx: i32, dy: i32, dz: i32) -> (r: VoxelScene)
    ensures
        r@ == translate_spec(scene@, dx, dy, dz),
{
    let mut voxels: Vec<Voxel> = Vec::new();
    let n = scene.voxels.len();
    let mut i: usize = 0;
    while i < n
        invariant
            i <= n,
            n == scene.voxels@.len(),
            voxels_view(voxels@) == translate_spec(scene@, dx, dy, dz).subrange(0, i as int),
        decreases n - i,
    {
        let v = &scene.voxels[i];
        let w = Voxel {
            x: v.x.wrapping_add(dx),
            y: v.y.wrapping_add(dy),
            z: v.z.wrapping_add(dz),
            color: v.color.clone(),
        };
        let ghost pre = voxels@;
        voxels.push(w);
        proof {
            crate::types::lemma_voxels_view_push(pre, voxels@.last());
            assert(voxels_view(voxels@) =~= translate_spec(scene@, dx, dy, dz).subrange(
                0,
                i + 1,
            ));
        }
        i = i + 1;
    }
    proof {
        assert(translate_spec(scene@, dx, dy, dz).subrange(0, n as int) =~= translate_spec(
            scene@,
            dx,
            dy,
            dz,
        ));
    }
    VoxelScene { voxels }
}

/// A scene rotated by quarter turns around an axis, before normalization.
pub open spec fn rotate_voxels_spec(s: Seq<VoxelV>, axis: Axis, turns: int) -> Seq<VoxelV> {
    s.map_values(
        |v: VoxelV| {
            let p = rotate_point_spec(v.x, v.y, v.z, axis, turns);
            VoxelV { x: p.0, y: p.1, z: p.2, color: v.color }
        },
    )
}

/// Rotate a scene by 90-degree multiples around a named axis, then shift it
/// back into nonnegative coordinates. An unrecognized axis token is an
/// error, never a silent no-op.
pub fn rotate(scene: &VoxelScene, axis: &str, turns: i32) -> (r: Option<VoxelScene>)
    ensures
        match parse_axis_spec(axis@) {
            Some(a) => r is Some && r->0@ == normalize_spec(
                rotate_voxels_spec(scene@, a, turns as int),
            ),
            None => r is None,
        },
{
    let a = match Axis::parse(axis) {
        Some(a) => a,
        None => {
            return None;
        },
    };
    let mut voxels: Vec<Voxel> = Vec::new();
    let n = scene.voxels.len();
    let mut i: usize = 0;
    while i < n
        invariant
            i <= n,
            n == scene.voxels@.len(),
            voxels_view(voxels@) == rotate_voxels_spec(scene@, a, turns as int).subrange(
                0,
                i as int,
            ),
        decreases n - i,
    {
        let v = &scene.voxels[i];
        let p = crate::geom::rotate_point_90(v.x, v.y, v.z, a, turns);
        let w = Voxel { x: p.0, y: p.1, z: p.2, color: v.color.clone() };
        let ghost pre = voxels@;
        voxels.push(w);
        proof {
            crate::types::lemma_voxels_view_push(pre, voxels@.last());
            assert(voxels_view(voxels@) =~= rotate_voxels_spec(scene@, a, turns as int).subrange(
                0,
                i + 1,
            ));
        }
        i = i + 1;
    }
    proof {
        assert(rotate_voxels_spec(scene@, a, turns as int).subrange(0, n as int)
            =~= rotate_voxels_spec(scene@, a, turns as int));
    }
    let mut rotated = VoxelScene { voxels };
    rotated.normalize();
    Some(rotated)
}

/// The voxels of several scenes, concatenated in order.
pub open spec fn merge_scenes_spec(scenes: Seq<VoxelScene>) -> Seq<VoxelV>
    decreases scenes.len(),
{
    if scenes.len() == 0 {
        Seq::empty()
    } else {
        merge_scenes_spec(scenes.drop_last()) + scenes.last()@
    }
}

/// Merge multiple voxel scenes into one, keeping voxel order.
pub fn merge(scenes: &Vec<VoxelScene>) -> (r: VoxelScene)
    ensures
        r@ == merge_scenes_spec(scenes@),
{
    let mut voxels: Vec<Voxel> = Vec::new();
    let n = scenes.len();
    let mut i: usize = 0;
    proof {
        assert(scenes@.subrange(0, 0) =~= Seq::<VoxelScene>::empty());
    }
    while i < n
        invariant
            i <= n,
            n == scenes@.len(),
            voxels_view(voxels@) == merge_scenes_spec(scenes@.subrange(0, i as int)),
        decreases n - i,
    {
        let vs = crate::types::dup_voxels(&scenes[i].voxels);
        let ghost pre = voxels_view(voxels@);
        let mut k: usize = 0;
        let m = vs.len();
        while k < m
            invariant
                k <= m,
                m == vs@.len(),
                voxels_view(vs@) == scenes@[i as int]@,
                i < scenes@.len(),
                voxels_view(voxels@) == pre + scenes@[i as int]@.subrange(0, k as int),
            decreases m - k,
        {
            let w = vs[k].duplicate();
            let ghost before = voxels@;
            voxels.push(w);
            proof {
                crate::types::lemma_voxels_view_push(before, voxels@.last());
                assert(voxels_view(vs@)[k as int] == vs@[k as int]@);
                assert((pre + scenes@[i as int]@.subrange(0, k as int)).push(w@) =~= pre
                    + scenes@[i as int]@.subrange(0, k + 1));
            }
            k = k + 1;
        }
        proof {
            assert(scenes@[i as int]@.subrange(0, m as int) =~= scenes@[i as int]@);
            let post = scenes@.subrange(0, i + 1);
            assert(post.drop_last() =~= scenes@.subrange(0, i as int));
            assert(post.last() == scenes@[i as int]);
        }
        i = i + 1;
    }
    proof {
        assert(scenes@.subrange(0, n as int) =~= scenes@);
    }
    VoxelScene { voxels }
}

} // verus!
