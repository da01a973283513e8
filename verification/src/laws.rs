//! Laws the scene operations obey, stated over the same models their
//! contracts use: merging is identity-like on a single input and
//! concatenation on two, order changes neither the voxel count nor the
//! multiset, and translations compose by summing offsets while the scene
//! history only grows.

use vstd::prelude::*;
use vstd::seq_lib::{lemma_multiset_commutative, lemma_seq_union_to_multiset_commutative};

use crate::ast::AstV;
use crate::commands::translated_instance;
use crate::geom::{lemma_wadd_assoc, lemma_wadd_comm, wadd};
use crate::runtime::{
    apply_translation_spec, eval_merge_spec, fresh_instance, join_names, kv_num, EvalErrorV, Mode,
};
use crate::types::{
    flatten_instance, flatten_spec, lemma_flatten_concat, InstanceV, ModelV, ValueV, VoxelV,
};

verus! {

/// Merging a single scene is identity-like: the merged model holds exactly
/// that instance's fully resolved voxels, so its voxel multiset equals the
/// source's.
pub proof fn lemma_merge_single(inst: InstanceV)
    ensures
        flatten_spec(seq![inst]) == flatten_instance(inst),
        flatten_spec(seq![inst]).to_multiset() == flatten_instance(inst).to_multiset(),
{
    let s = seq![inst];
    assert(s.drop_last() =~= Seq::<InstanceV>::empty());
    assert(s.last() == inst);
    assert(flatten_spec(Seq::<InstanceV>::empty()) + flatten_instance(inst) =~= flatten_instance(
        inst,
    ));
}

/// Merging two scenes concatenates their fully resolved voxels, in order.
pub proof fn lemma_merge_pair(a: InstanceV, b: InstanceV)
    ensures
        flatten_spec(seq![a, b]) == flatten_instance(a) + flatten_instance(b),
{
    let s = seq![a, b];
    assert(s.drop_last() =~= seq![a]);
    assert(s.last() == b);
    lemma_merge_single(a);
}

/// The order of a two-scene merge changes neither the voxel count nor the
/// voxel multiset, though it may change the order of the list.
pub proof fn lemma_merge_order(a: InstanceV, b: InstanceV)
    ensures
        flatten_spec(seq![a, b]).len() == flatten_spec(seq![b, a]).len(),
        flatten_spec(seq![a, b]).to_multiset() == flatten_spec(seq![b, a]).to_multiset(),
{
    lemma_merge_pair(a, b);
    lemma_merge_pair(b, a);
    lemma_seq_union_to_multiset_commutative(flatten_instance(a), flatten_instance(b));
    lemma_multiset_commutative(flatten_instance(a), flatten_instance(b));
    lemma_multiset_commutative(flatten_instance(b), flatten_instance(a));
    assert(flatten_spec(seq![a, b]).to_multiset() =~= flatten_spec(seq![b, a]).to_multiset());
}

/// Translating twice reaches the same final voxel positions as one
/// translation by the summed offsets.
pub proof fn lemma_translate_compose(
    inst: InstanceV,
    dx1: i32,
    dy1: i32,
    dz1: i32,
    dx2: i32,
    dy2: i32,
    dz2: i32,
)
    ensures
        flatten_instance(translated_instance(translated_instance(inst, dx1, dy1, dz1), dx2, dy2, dz2))
            == flatten_instance(
            translated_instance(inst, wadd(dx1, dx2), wadd(dy1, dy2), wadd(dz1, dz2)),
        ),
{
    let t2 = translated_instance(translated_instance(inst, dx1, dy1, dz1), dx2, dy2, dz2);
    let ts = translated_instance(inst, wadd(dx1, dx2), wadd(dy1, dy2), wadd(dz1, dz2));
    lemma_wadd_assoc(inst.transform.dx, dx1, dx2);
    lemma_wadd_assoc(inst.transform.dy, dy1, dy2);
    lemma_wadd_assoc(inst.transform.dz, dz1, dz2);
    assert(t2.transform == ts.transform);
    assert(flatten_instance(t2) =~= flatten_instance(ts));
}

/// The order of two translations does not matter for the final positions.
pub proof fn lemma_translate_commute(
    inst: InstanceV,
    dx1: i32,
    dy1: i32,
    dz1: i32,
    dx2: i32,
    dy2: i32,
    dz2: i32,
)
    ensures
        flatten_instance(translated_instance(translated_instance(inst, dx1, dy1, dz1), dx2, dy2, dz2))
            == flatten_instance(
            translated_instance(translated_instance(inst, dx2, dy2, dz2), dx1, dy1, dz1),
        ),
{
    lemma_translate_compose(inst, dx1, dy1, dz1, dx2, dy2, dz2);
    lemma_translate_compose(inst, dx2, dy2, dz2, dx1, dy1, dz1);
    lemma_wadd_comm(dx1, dx2);
    lemma_wadd_comm(dy1, dy2);
    lemma_wadd_comm(dz1, dz2);
}

/// Translation is append-only history: the translated instance is appended,
/// every earlier instance is untouched, and the flattened scene grows by
/// exactly the translated instance's voxels.
pub proof fn lemma_translate_history(scene: Seq<InstanceV>, inst: InstanceV)
    ensures
        scene.push(inst).len() == scene.len() + 1,
        forall|j: int| 0 <= j < scene.len() ==> scene.push(inst)[j] == scene[j],
        flatten_spec(scene.push(inst)) == flatten_spec(scene) + flatten_instance(inst),
{
    lemma_flatten_concat(scene, seq![inst]);
    assert(scene + seq![inst] =~= scene.push(inst));
    assert(flatten_spec(seq![inst]) =~= flatten_instance(inst)) by {
        lemma_merge_single(inst);
    }
}

/// Applying translation keyword arguments is exactly a translation by the
/// integers bound to `x`, `y` and `z`, each defaulting to zero.
pub proof fn lemma_apply_translation_as_translated(inst: InstanceV, kvs: Map<Seq<char>, ValueV>)
    ensures
        apply_translation_spec(inst, kvs) == translated_instance(
            inst,
            kv_num(kvs, "x"@),
            kv_num(kvs, "y"@),
            kv_num(kvs, "z"@),
        ),
{
}

/// Translation keyword arguments change only the translation offsets: the
/// model, its voxels and the rotation steps are those of the source
/// instance, which itself is untouched.
pub proof fn lemma_apply_translation_preserves(inst: InstanceV, kvs: Map<Seq<char>, ValueV>)
    ensures
        apply_translation_spec(inst, kvs).model == inst.model,
        apply_translation_spec(inst, kvs).transform.rotations == inst.transform.rotations,
{
}

/// Two successive translations reach the same final voxel positions as one
/// translation by the componentwise sums of their offsets.
pub proof fn lemma_apply_translation_compose(
    inst: InstanceV,
    kvs1: Map<Seq<char>, ValueV>,
    kvs2: Map<Seq<char>, ValueV>,
)
    ensures
        flatten_instance(apply_translation_spec(apply_translation_spec(inst, kvs1), kvs2))
            == flatten_instance(
            translated_instance(
                inst,
                wadd(kv_num(kvs1, "x"@), kv_num(kvs2, "x"@)),
                wadd(kv_num(kvs1, "y"@), kv_num(kvs2, "y"@)),
                wadd(kv_num(kvs1, "z"@), kv_num(kvs2, "z"@)),
            ),
        ),
{
    lemma_apply_translation_as_translated(inst, kvs1);
    lemma_apply_translation_as_translated(apply_translation_spec(inst, kvs1), kvs2);
    lemma_translate_compose(
        inst,
        kv_num(kvs1, "x"@),
        kv_num(kvs1, "y"@),
        kv_num(kvs1, "z"@),
        kv_num(kvs2, "x"@),
        kv_num(kvs2, "y"@),
        kv_num(kvs2, "z"@),
    );
}

/// A translation's result is append-only history: the translated instance
/// keeps its source's model and voxels, the scene grows by exactly that
/// instance, and every earlier instance is untouched.
pub proof fn lemma_eval_translate_history(
    scene: Seq<InstanceV>,
    inst: InstanceV,
    kvs: Map<Seq<char>, ValueV>,
)
    ensures
        ({
            let inst2 = apply_translation_spec(inst, kvs);
            &&& inst2.model == inst.model
            &&& scene.push(inst2).len() == scene.len() + 1
            &&& forall|j: int| 0 <= j < scene.len() ==> scene.push(inst2)[j] == scene[j]
            &&& flatten_spec(scene.push(inst2)) == flatten_spec(scene) + flatten_instance(inst2)
        }),
{
    lemma_translate_history(scene, apply_translation_spec(inst, kvs));
}

/// Once every merge argument is resolved, the merged result is exact: a new
/// model named by joining the source names, holding the in-order
/// concatenation of the resolved instances' fully transform-applied voxels,
/// wrapped in a default-transform instance that is appended to the scene.
pub proof fn lemma_eval_merge_joins(
    args: Seq<AstV>,
    env: Map<Seq<char>, ValueV>,
    scene: Seq<InstanceV>,
    insts: Seq<InstanceV>,
    mode: Mode,
)
    requires
        insts.len() > 0,
    ensures
        ({
            let inst = fresh_instance(
                ModelV { name: join_names(insts), voxels: flatten_spec(insts) },
            );
            eval_merge_spec(args, args.len() as int, env, scene, insts, mode) == Ok::<
                (ValueV, Seq<InstanceV>),
                EvalErrorV,
            >((ValueV::Instance(inst), scene.push(inst)))
        }),
{
}

/// Merging a single resolved instance is identity-like at the evaluator
/// too: the merged model carries that instance's name and exactly its
/// fully resolved voxels.
pub proof fn lemma_eval_merge_single(
    args: Seq<AstV>,
    env: Map<Seq<char>, ValueV>,
    scene: Seq<InstanceV>,
    inst: InstanceV,
    mode: Mode,
)
    ensures
        ({
            let merged = fresh_instance(
                ModelV { name: inst.model.name, voxels: flatten_instance(inst) },
            );
            eval_merge_spec(args, args.len() as int, env, scene, seq![inst], mode) == Ok::<
                (ValueV, Seq<InstanceV>),
                EvalErrorV,
            >((ValueV::Instance(merged), scene.push(merged)))
        }),
{
    lemma_merge_single(inst);
    lemma_eval_merge_joins(args, env, scene, seq![inst], mode);
    assert(join_names(seq![inst]) == inst.model.name);
}

} // verus!
