//! The scene data model: voxels, models, transforms, instances, the scene
//! graph and its flattening, and the runtime values and environments of the
//! evaluator. Every type has a view into a mathematical model; the scene
//! contracts are stated over those views.

use vstd::prelude::*;

use crate::ast::{asts_view, strings_view, AstNode, AstV};
use crate::geom::{rotate_point_spec, wadd, Axis};

verus! {

/// A single voxel: an integer grid position and a 6-hex-digit color string.
#[derive(Debug)]
pub struct Voxel {
    pub x: i32,
    pub y: i32,
    pub z: i32,
    pub color: String,
}

/// The model of a voxel.
pub struct VoxelV {
    pub x: i32,
    pub y: i32,
    pub z: i32,
    pub color: Seq<char>,
}

impl View for Voxel {
    type V = VoxelV;

    open spec fn view(&self) -> VoxelV {
        VoxelV { x: self.x, y: self.y, z: self.z, color: self.color@ }
    }
}

/// The views of a sequence of voxels.
pub open spec fn voxels_view(s: Seq<Voxel>) -> Seq<VoxelV> {
    s.map_values(|v: Voxel| v@)
}

pub broadcast proof fn lemma_voxels_view_push(s: Seq<Voxel>, v: Voxel)
    ensures
        #[trigger] voxels_view(s.push(v)) == voxels_view(s).push(v@),
{
    assert(voxels_view(s.push(v)) =~= voxels_view(s).push(v@));
}

impl Voxel {
    /// A copy of the voxel, equal to it in the model.
    pub fn duplicate(&self) -> (r: Voxel)
        ensures
            r@ == self@,
    {
        Voxel { x: self.x, y: self.y, z: self.z, color: self.color.clone() }
    }
}

/// Holds an entire flattened voxel scene.
#[derive(Debug)]
pub struct VoxelScene {
    pub voxels: Vec<Voxel>,
}

impl View for VoxelScene {
    type V = Seq<VoxelV>;

    open spec fn view(&self) -> Seq<VoxelV> {
        voxels_view(self.voxels@)
    }
}

/// A named model: a collection of voxels in local, untransformed coordinates.
#[derive(Debug)]
pub struct Model {
    pub name: String,
    pub voxels: Vec<Voxel>,
}

/// The model of a `Model`.
pub struct ModelV {
    pub name: Seq<char>,
    pub voxels: Seq<VoxelV>,
}

impl View for Model {
    type V = ModelV;

    open spec fn view(&self) -> ModelV {
        ModelV { name: self.name@, voxels: voxels_view(self.voxels@) }
    }
}

impl Model {
    /// A copy of the model, equal to it in the model of models.
    pub fn duplicate(&self) -> (r: Model)
        ensures
            r@ == self@,
    {
        Model { name: self.name.clone(), voxels: dup_voxels(&self.voxels) }
    }
}

/// A copy of a voxel list, equal to it in the model.
pub fn dup_voxels(v: &Vec<Voxel>) -> (r: Vec<Voxel>)
    ensures
        voxels_view(r@) == voxels_view(v@),
{
    let mut out: Vec<Voxel> = Vec::new();
    let mut i: usize = 0;
    while i < v.len()
        invariant
            i <= v@.len(),
            voxels_view(out@) == voxels_view(v@).subrange(0, i as int),
        decreases v@.len() - i,
    {
        let ghost pre = out@;
        let w = v[i].duplicate();
        out.push(w);
        proof {
            lemma_voxels_view_push(pre, w);
            assert(voxels_view(v@).subrange(0, i as int).push(v@[i as int]@) =~= voxels_view(
                v@,
            ).subrange(0, i + 1));
        }
        i = i + 1;
    }
    proof {
        assert(voxels_view(v@).subrange(0, v@.len() as int) =~= voxels_view(v@));
    }
    out
}

/// An instance's transform: integer translation offsets plus an ordered
/// sequence of (axis, quarter-turn count) rotation steps.
#[derive(Debug)]
pub struct Transform3D {
    pub dx: i32,
    pub dy: i32,
    pub dz: i32,
    pub rotations: Vec<(Axis, i32)>,
}

/// The model of a transform.
pub struct TransformV {
    pub dx: i32,
    pub dy: i32,
    pub dz: i32,
    pub rotations: Seq<(Axis, i32)>,
}

impl View for Transform3D {
    type V = TransformV;

    open spec fn view(&self) -> TransformV {
        TransformV { dx: self.dx, dy: self.dy, dz: self.dz, rotations: self.rotations@ }
    }
}

/// The identity transform.
pub open spec fn identity_transform() -> TransformV {
    TransformV { dx: 0, dy: 0, dz: 0, rotations: Seq::empty() }
}

impl Default for Transform3D {
    /// The identity transform: no translation, no rotation steps.
    fn default() -> (r: Transform3D)
        ensures
            r@ == identity_transform(),
    {
        let r = Transform3D { dx: 0, dy: 0, dz: 0, rotations: Vec::new() };
        proof {
            assert(r@.rotations =~= identity_transform().rotations);
        }
        r
    }
}

impl Transform3D {
    /// A copy of the transform, equal to it in the model.
    pub fn duplicate(&self) -> (r: Transform3D)
        ensures
            r@ == self@,
    {
        let mut rots: Vec<(Axis, i32)> = Vec::new();
        let mut i: usize = 0;
        while i < self.rotations.len()
            invariant
                i <= self.rotations@.len(),
                rots@ == self.rotations@.subrange(0, i as int),
            decreases self.rotations@.len() - i,
        {
            let step = self.rotations[i];
            rots.push(step);
            proof {
                assert(rots@ =~= self.rotations@.subrange(0, i + 1));
            }
            i = i + 1;
        }
        proof {
            assert(self.rotations@.subrange(0, self.rotations@.len() as int) =~= self.rotations@);
        }
        Transform3D { dx: self.dx, dy: self.dy, dz: self.dz, rotations: rots }
    }
}

/// An instance: a model placed in the scene via a transform.
#[derive(Debug)]
pub struct Instance {
    pub model: Model,
    pub transform: Transform3D,
}

/// The model of an instance.
pub struct InstanceV {
    pub model: ModelV,
    pub transform: TransformV,
}

impl View for Instance {
    type V = InstanceV;

    open spec fn view(&self) -> InstanceV {
        InstanceV { model: self.model@, transform: self.transform@ }
    }
}

impl Instance {
    /// A copy of the instance, equal to it in the model.
    pub fn duplicate(&self) -> (r: Instance)
        ensures
            r@ == self@,
    {
        Instance { model: self.model.duplicate(), transform: self.transform.duplicate() }
    }
}

/// The views of a sequence of instances.
pub open spec fn instances_view(s: Seq<Instance>) -> Seq<InstanceV> {
    s.map_values(|i: Instance| i@)
}

pub broadcast proof fn lemma_instances_view_push(s: Seq<Instance>, i: Instance)
    ensures
        #[trigger] instances_view(s.push(i)) == instances_view(s).push(i@),
{
    assert(instances_view(s.push(i)) =~= instances_view(s).push(i@));
}

/// The scene graph: the append-only ordered collection of all instances
/// produced during evaluation.
#[derive(Debug)]
pub struct SceneGraph {
    pub instances: Vec<Instance>,
}

impl View for SceneGraph {
    type V = Seq<InstanceV>;

    open spec fn view(&self) -> Seq<InstanceV> {
        instances_view(self.instances@)
    }
}

/// The rotation steps of a transform applied to a point, in declared order.
pub open spec fn apply_rotations(p: (i32, i32, i32), rots: Seq<(Axis, i32)>) -> (i32, i32, i32)
    decreases rots.len(),
{
    if rots.len() == 0 {
        p
    } else {
        let q = apply_rotations(p, rots.drop_last());
        rotate_point_spec(q.0, q.1, q.2, rots.last().0, rots.last().1 as int)
    }
}

/// One voxel taken to world coordinates: the instance's rotation sequence is
/// applied in declared order, then the translation offset is added.
pub open spec fn transform_voxel(v: VoxelV, t: TransformV) -> VoxelV {
    let p = apply_rotations((v.x, v.y, v.z), t.rotations);
    VoxelV { x: wadd(p.0, t.dx), y: wadd(p.1, t.dy), z: wadd(p.2, t.dz), color: v.color }
}

/// The fully resolved voxels of one instance.
pub open spec fn flatten_instance(inst: InstanceV) -> Seq<VoxelV> {
    inst.model.voxels.map_values(|v: VoxelV| transform_voxel(v, inst.transform))
}

/// The flattened voxel list of a scene: the resolved voxels of every
/// instance, in instance order.
pub open spec fn flatten_spec(instances: Seq<InstanceV>) -> Seq<VoxelV>
    decreases instances.len(),
{
    if instances.len() == 0 {
        Seq::empty()
    } else {
        flatten_spec(instances.drop_last()) + flatten_instance(instances.last())
    }
}

/// Flattening distributes over concatenation of scenes.
pub proof fn lemma_flatten_concat(s1: Seq<InstanceV>, s2: Seq<InstanceV>)
    ensures
        flatten_spec(s1 + s2) == flatten_spec(s1) + flatten_spec(s2),
    decreases s2.len(),
{
    if s2.len() == 0 {
        assert(s1 + s2 =~= s1);
        assert(flatten_spec(s1) + flatten_spec(s2) =~= flatten_spec(s1));
    } else {
        lemma_flatten_concat(s1, s2.drop_last());
        assert((s1 + s2).drop_last() =~= s1 + s2.drop_last());
        assert((s1 + s2).last() == s2.last());
        let a = flatten_spec(s1);
        let b = flatten_spec(s2.drop_last());
        let c = flatten_instance(s2.last());
        assert(a + (b + c) =~= (a + b) + c);
    }
}

/// The resolved voxels of one instance, as executable code.
pub fn resolve_instance(inst: &Instance) -> (r: Vec<Voxel>)
    ensures
        voxels_view(r@) == flatten_instance(inst@),
{
    let mut out: Vec<Voxel> = Vec::new();
    let n = inst.model.voxels.len();
    let mut i: usize = 0;
    while i < n
        invariant
            i <= n,
            n == inst.model.voxels@.len(),
            voxels_view(out@) == flatten_instance(inst@).subrange(0, i as int),
        decreases n - i,
    {
        let v = &inst.model.voxels[i];
        let mut p = (v.x, v.y, v.z);
        let rots = &inst.transform.rotations;
        let mut j: usize = 0;
        while j < rots.len()
            invariant
                j <= rots@.len(),
                p == apply_rotations((v.x, v.y, v.z), rots@.subrange(0, j as int)),
            decreases rots@.len() - j,
        {
            let (axis, turns) = rots[j];
            p = crate::geom::rotate_point_90(p.0, p.1, p.2, axis, turns);
            proof {
                let pre = rots@.subrange(0, j as int);
                let post = rots@.subrange(0, j + 1);
                assert(post.drop_last() =~= pre);
                assert(post.last() == rots@[j as int]);
            }
            j = j + 1;
        }
        proof {
            assert(rots@.subrange(0, rots@.len() as int) =~= rots@);
        }
        let w = Voxel {
            x: p.0.wrapping_add(inst.transform.dx),
            y: p.1.wrapping_add(inst.transform.dy),
            z: p.2.wrapping_add(inst.transform.dz),
            color: v.color.clone(),
        };
        let ghost pre = out@;
        out.push(w);
        proof {
            lemma_voxels_view_push(pre, w);
            assert(w@ == transform_voxel(inst.model.voxels@[i as int]@, inst.transform@));
            assert(flatten_instance(inst@).subrange(0, i as int).push(w@) =~= flatten_instance(
                inst@,
            ).subrange(0, i + 1));
        }
        i = i + 1;
    }
    proof {
        assert(flatten_instance(inst@).subrange(0, n as int) =~= flatten_instance(inst@));
    }
    out
}

impl SceneGraph {
    /// Flatten the scene graph into a raw voxel scene: for every instance in
    /// order, its model's voxels with rotations applied in declared order and
    /// the translation added.
    pub fn flatten(&self) -> (r: VoxelScene)
        ensures
            r@ == flatten_spec(self@),
    {
        let mut voxels: Vec<Voxel> = Vec::new();
        let n = self.instances.len();
        let mut i: usize = 0;
        while i < n
            invariant
                i <= n,
                n == self.instances@.len(),
                voxels_view(voxels@) == flatten_spec(self@.subrange(0, i as int)),
            decreases n - i,
        {
            let mut resolved = resolve_instance(&self.instances[i]);
            let ghost pre = voxels_view(voxels@);
            let ghost add = voxels_view(resolved@);
            let mut k: usize = 0;
            let m = resolved.len();
            proof {
                assert(instances_view(self.instances@)[i as int] == self.instances@[i as int]@);
            }
            while k < m
                invariant
                    k <= m,
                    m == resolved@.len(),
                    voxels_view(resolved@) == add,
                    voxels_view(voxels@) == pre + add.subrange(0, k as int),
                decreases m - k,
            {
                let ghost before = voxels@;
                let w = resolved[k].duplicate();
                voxels.push(w);
                proof {
                    lemma_voxels_view_push(before, w);
                    assert(voxels_view(resolved@)[k as int] == resolved@[k as int]@);
                    assert((pre + add.subrange(0, k as int)).push(w@) =~= pre + add.subrange(
                        0,
                        k + 1,
                    ));
                }
                k = k + 1;
            }
            proof {
                assert(add.subrange(0, m as int) =~= add);
                let subs = self@.subrange(0, i + 1);
                assert(subs.drop_last() =~= self@.subrange(0, i as int));
                assert(subs.last() == self@[i as int]);
            }
            i = i + 1;
        }
        proof {
            assert(self@.subrange(0, n as int) =~= self@);
        }
        VoxelScene { voxels }
    }
}

/// The least coordinates of a nonempty voxel list, per axis.
pub open spec fn min_coords(s: Seq<VoxelV>) -> (i32, i32, i32)
    decreases s.len(),
{
    if s.len() <= 1 {
        (s[0].x, s[0].y, s[0].z)
    } else {
        let m = min_coords(s.drop_last());
        (
            if s.last().x < m.0 {
                s.last().x
            } else {
                m.0
            },
            if s.last().y < m.1 {
                s.last().y
            } else {
                m.1
            },
            if s.last().z < m.2 {
                s.last().z
            } else {
                m.2
            },
        )
    }
}

/// Wrapping difference of two coordinates.
pub open spec fn wsub(a: i32, b: i32) -> i32 {
    vstd::wrapping::i32_specs::wrapping_sub(a, b)
}

/// What normalizing a scene means: when any axis has a negative minimum,
/// every voxel is shifted by the three minima so the least x, y and z
/// become zero; otherwise the scene is unchanged.
pub open spec fn normalize_spec(s: Seq<VoxelV>) -> Seq<VoxelV> {
    if s.len() == 0 {
        s
    } else {
        let m = min_coords(s);
        if m.0 < 0 || m.1 < 0 || m.2 < 0 {
            s.map_values(
                |v: VoxelV| VoxelV {
                    x: wsub(v.x, m.0),
                    y: wsub(v.y, m.1),
                    z: wsub(v.z, m.2),
                    color: v.color,
                },
            )
        } else {
            s
        }
    }
}

impl VoxelScene {
    /// Shift all voxels so that the minimum x, y and z become zero, when any
    /// of them is negative; otherwise leave the scene unchanged.
    pub fn normalize(&mut self)
        ensures
            final(self)@ == normalize_spec(old(self)@),
    {
        let n = self.voxels.len();
        if n == 0 {
            return ;
        }
        let mut min_x = self.voxels[0].x;
        let mut min_y = self.voxels[0].y;
        let mut min_z = self.voxels[0].z;
        let mut i: usize = 1;
        proof {
            assert(voxels_view(self.voxels@).subrange(0, 1) =~= voxels_view(
                self.voxels@,
            ).subrange(0, 1));
        }
        while i < n
            invariant
                1 <= i <= n,
                n == self.voxels@.len(),
                (min_x, min_y, min_z) == min_coords(self@.subrange(0, i as int)),
            decreases n - i,
        {
            let v = &self.voxels[i];
            proof {
                let pre = self@.subrange(0, i as int);
                let post = self@.subrange(0, i + 1);
                assert(post.drop_last() =~= pre);
                assert(post.last() == self@[i as int]);
            }
            if v.x < min_x {
                min_x = v.x;
            }
            if v.y < min_y {
                min_y = v.y;
            }
            if v.z < min_z {
                min_z = v.z;
            }
            i = i + 1;
        }
        proof {
            assert(self@.subrange(0, n as int) =~= self@);
        }
        if min_x < 0 || min_y < 0 || min_z < 0 {
            let ghost orig = self@;
            let mut out: Vec<Voxel> = Vec::new();
            let mut k: usize = 0;
            while k < n
                invariant
                    k <= n,
                    n == self.voxels@.len(),
                    self@ == orig,
                    (min_x, min_y, min_z) == min_coords(orig),
                    min_coords(orig).0 < 0 || min_coords(orig).1 < 0 || min_coords(orig).2 < 0,
                    voxels_view(out@) == normalize_spec(orig).subrange(0, k as int),
                decreases n - k,
            {
                let v = &self.voxels[k];
                let w = Voxel {
                    x: v.x.wrapping_sub(min_x),
                    y: v.y.wrapping_sub(min_y),
                    z: v.z.wrapping_sub(min_z),
                    color: v.color.clone(),
                };
                let ghost pre = out@;
                out.push(w);
                proof {
                    lemma_voxels_view_push(pre, w);
                    assert(voxels_view(self.voxels@)[k as int] == self.voxels@[k as int]@);
                    assert(normalize_spec(orig).subrange(0, k as int).push(w@) =~= normalize_spec(
                        orig,
                    ).subrange(0, k + 1));
                }
                k = k + 1;
            }
            proof {
                assert(normalize_spec(orig).subrange(0, n as int) =~= normalize_spec(orig));
            }
            self.voxels = out;
        }
    }
}

/// A runtime value in the evaluation environment.
#[derive(Debug)]
pub enum Value {
    /// An atom instance: a name plus a string property map.
    Atom { name: String, props: Vec<(String, String)> },
    /// An unevaluated model definition: parameters plus body statements.
    ModelDef { params: Vec<String>, body: Vec<AstNode> },
    /// A fully realized model instance.
    Instance(Instance),
    /// An array of values.
    Array(Vec<Value>),
    /// A string.
    Str(String),
    /// An integer.
    Number(i32),
    /// An identifier value.
    Ident(String),
    /// A key-value map, as produced by keyword arguments.
    KvMap(Vec<(String, Value)>),
}

/// The model of a runtime value.
pub enum ValueV {
    Atom { name: Seq<char>, props: Map<Seq<char>, Seq<char>> },
    ModelDef { params: Seq<Seq<char>>, body: Seq<AstV> },
    Instance(InstanceV),
    Array(Seq<ValueV>),
    Str(Seq<char>),
    Number(i32),
    Ident(Seq<char>),
    KvMap(Map<Seq<char>, ValueV>),
}

/// The map denoted by a sequence of string pairs: later pairs win.
pub open spec fn map_of_pairs(ps: Seq<(Seq<char>, Seq<char>)>) -> Map<Seq<char>, Seq<char>>
    decreases ps.len(),
{
    if ps.len() == 0 {
        Map::empty()
    } else {
        map_of_pairs(ps.drop_last()).insert(ps.last().0, ps.last().1)
    }
}

/// The map denoted by a sequence of value pairs: later pairs win.
pub open spec fn map_of_vals(ps: Seq<(Seq<char>, ValueV)>) -> Map<Seq<char>, ValueV>
    decreases ps.len(),
{
    if ps.len() == 0 {
        Map::empty()
    } else {
        map_of_vals(ps.drop_last()).insert(ps.last().0, ps.last().1)
    }
}

/// The view of a runtime value.
pub open spec fn value_view(v: Value) -> ValueV
    decreases v,
{
    match v {
        Value::Atom { name, props } => ValueV::Atom {
            name: name@,
            props: map_of_pairs(crate::ast::pairs_view(props@)),
        },
        Value::ModelDef { params, body } => ValueV::ModelDef {
            params: strings_view(params@),
            body: asts_view(body@),
        },
        Value::Instance(inst) => ValueV::Instance(inst@),
        Value::Array(vals) => ValueV::Array(values_view(vals@)),
        Value::Str(s) => ValueV::Str(s@),
        Value::Number(n) => ValueV::Number(n),
        Value::Ident(s) => ValueV::Ident(s@),
        Value::KvMap(pairs) => ValueV::KvMap(map_of_vals(val_pairs_view(pairs@))),
    }
}

/// The views of a sequence of values.
pub open spec fn values_view(s: Seq<Value>) -> Seq<ValueV>
    decreases s,
{
    if s.len() == 0 {
        Seq::empty()
    } else {
        values_view(s.drop_last()).push(value_view(s.last()))
    }
}

/// The views of a sequence of name-value pairs.
pub open spec fn val_pairs_view(s: Seq<(String, Value)>) -> Seq<(Seq<char>, ValueV)>
    decreases s,
{
    if s.len() == 0 {
        Seq::empty()
    } else {
        val_pairs_view(s.drop_last()).push((s.last().0@, value_view(s.last().1)))
    }
}

impl View for Value {
    type V = ValueV;

    open spec fn view(&self) -> ValueV {
        value_view(*self)
    }
}

pub broadcast proof fn lemma_values_view_len(s: Seq<Value>)
    ensures
        #[trigger] values_view(s).len() == s.len(),
    decreases s,
{
    if s.len() > 0 {
        lemma_values_view_len(s.drop_last());
    }
}

pub broadcast proof fn lemma_values_view_index(s: Seq<Value>, i: int)
    requires
        0 <= i < s.len(),
    ensures
        #[trigger] values_view(s)[i] == s[i]@,
    decreases s,
{
    lemma_values_view_len(s);
    if s.len() > 0 {
        lemma_values_view_len(s.drop_last());
        if i < s.len() - 1 {
            lemma_values_view_index(s.drop_last(), i);
            assert(s.drop_last()[i] == s[i]);
        }
    }
}

pub broadcast proof fn lemma_values_view_push(s: Seq<Value>, v: Value)
    ensures
        #[trigger] values_view(s.push(v)) == values_view(s).push(v@),
{
    assert(s.push(v).drop_last() =~= s);
    assert(s.push(v).last() == v);
}

pub broadcast proof fn lemma_val_pairs_view_push(s: Seq<(String, Value)>, p: (String, Value))
    ensures
        #[trigger] val_pairs_view(s.push(p)) == val_pairs_view(s).push((p.0@, p.1@)),
{
    assert(s.push(p).drop_last() =~= s);
    assert(s.push(p).last() == p);
}

impl Value {
    /// A structural copy of the value, equal to it in the model.
    pub fn duplicate(&self) -> (r: Value)
        ensures
            r@ == self@,
        decreases *self,
    {
        match self {
            Value::Atom { name, props } => Value::Atom {
                name: name.clone(),
                props: crate::ast::dup_string_pairs(props),
            },
            Value::ModelDef { params, body } => Value::ModelDef {
                params: crate::ast::dup_strings(params),
                body: crate::ast::dup_asts(body),
            },
            Value::Instance(inst) => Value::Instance(inst.duplicate()),
            Value::Array(vals) => Value::Array(dup_values(vals)),
            Value::Str(s) => Value::Str(s.clone()),
            Value::Number(n) => Value::Number(*n),
            Value::Ident(s) => Value::Ident(s.clone()),
            Value::KvMap(pairs) => Value::KvMap(dup_val_pairs(pairs)),
        }
    }
}

fn dup_values(v: &Vec<Value>) -> (r: Vec<Value>)
    ensures
        values_view(r@) == values_view(v@),
    decreases *v,
{
    let mut out: Vec<Value> = Vec::new();
    let mut i: usize = 0;
    while i < v.len()
        invariant
            i <= v@.len(),
            values_view(out@) == values_view(v@.subrange(0, i as int)),
        decreases v@.len() - i,
    {
        let w = v[i].duplicate();
        proof {
            lemma_values_view_push(v@.subrange(0, i as int), v@[i as int]);
            assert(v@.subrange(0, i as int).push(v@[i as int]) =~= v@.subrange(0, i + 1));
            lemma_values_view_push(out@, w);
        }
        out.push(w);
        i = i + 1;
    }
    proof {
        assert(v@.subrange(0, v@.len() as int) =~= v@);
    }
    out
}

fn dup_val_pairs(v: &Vec<(String, Value)>) -> (r: Vec<(String, Value)>)
    ensures
        val_pairs_view(r@) == val_pairs_view(v@),
    decreases *v,
{
    let mut out: Vec<(String, Value)> = Vec::new();
    let mut i: usize = 0;
    while i < v.len()
        invariant
            i <= v@.len(),
            val_pairs_view(out@) == val_pairs_view(v@.subrange(0, i as int)),
        decreases v@.len() - i,
    {
        let k = v[i].0.clone();
        let w = v[i].1.duplicate();
        proof {
            lemma_val_pairs_view_push(v@.subrange(0, i as int), v@[i as int]);
            assert(v@.subrange(0, i as int).push(v@[i as int]) =~= v@.subrange(0, i + 1));
            lemma_val_pairs_view_push(out@, (k, w));
        }
        out.push((k, w));
        i = i + 1;
    }
    proof {
        assert(v@.subrange(0, v@.len() as int) =~= v@);
    }
    out
}

/// An evaluation environment: an ordered list of name-value bindings whose
/// model is the map they denote, later bindings winning. Entering a nested
/// scope copies the environment, so inner bindings never leak outward.
#[derive(Debug)]
pub struct Env {
    pub entries: Vec<(String, Value)>,
}

impl View for Env {
    type V = Map<Seq<char>, ValueV>;

    open spec fn view(&self) -> Map<Seq<char>, ValueV> {
        map_of_vals(val_pairs_view(self.entries@))
    }
}

/// The environment map of a nonempty binding list is the map of all but the
/// last binding, with the last binding inserted.
pub proof fn lemma_map_of_vals_snoc(s: Seq<(String, Value)>)
    requires
        s.len() > 0,
    ensures
        map_of_vals(val_pairs_view(s)) == map_of_vals(val_pairs_view(s.drop_last())).insert(
            s.last().0@,
            s.last().1@,
        ),
{
    let t = s.drop_last();
    assert(t.push(s.last()) =~= s);
    lemma_val_pairs_view_push(t, s.last());
    let q = val_pairs_view(s);
    assert(q == val_pairs_view(t).push((s.last().0@, s.last().1@)));
    assert(q.drop_last() =~= val_pairs_view(t));
    assert(q.len() > 0);
    assert(q.last() == (s.last().0@, s.last().1@));
}

/// Pairwise-distinct names that are all bound in an environment are no more
/// numerous than its bindings.
pub proof fn lemma_distinct_bound_names(entries: Seq<(String, Value)>, names: Seq<Seq<char>>)
    requires
        forall|a: int, b: int| 0 <= a < b < names.len() ==> names[a] != names[b],
        forall|a: int|
            0 <= a < names.len() ==> map_of_vals(val_pairs_view(entries)).contains_key(
                #[trigger] names[a],
            ),
    ensures
        names.len() <= entries.len(),
    decreases entries.len(),
{
    if entries.len() == 0 {
        assert(val_pairs_view(entries) =~= Seq::<(Seq<char>, ValueV)>::empty());
        if names.len() > 0 {
            assert(map_of_vals(val_pairs_view(entries)).contains_key(names[0]));
            assert(false);
        }
    } else {
        lemma_map_of_vals_snoc(entries);
        let t = entries.drop_last();
        let k = entries.last().0@;
        if exists|a: int| 0 <= a < names.len() && names[a] == k {
            let a = choose|a: int| 0 <= a < names.len() && names[a] == k;
            let names2 = names.subrange(0, a) + names.subrange(a + 1, names.len() as int);
            assert(names2.len() == names.len() - 1);
            assert(forall|x: int|
                0 <= x < names2.len() ==> #[trigger] names2[x] == (if x < a {
                    names[x]
                } else {
                    names[x + 1]
                }));
            assert(forall|x: int, y: int| 0 <= x < y < names2.len() ==> names2[x] != names2[y]);
            assert(forall|x: int| 0 <= x < names2.len() ==> names2[x] != k);
            assert(forall|x: int|
                0 <= x < names2.len() ==> map_of_vals(val_pairs_view(t)).contains_key(
                    #[trigger] names2[x],
                ));
            lemma_distinct_bound_names(t, names2);
        } else {
            assert(forall|x: int| 0 <= x < names.len() ==> names[x] != k);
            assert(forall|x: int|
                0 <= x < names.len() ==> map_of_vals(val_pairs_view(t)).contains_key(
                    #[trigger] names[x],
                ));
            lemma_distinct_bound_names(t, names);
        }
    }
}

/// Bindings beyond `i` that never match `k` do not affect lookup of `k`.
proof fn lemma_env_skip(s: Seq<(String, Value)>, k: Seq<char>, i: int)
    requires
        0 <= i <= s.len(),
        forall|j: int| i <= j < s.len() ==> (#[trigger] s[j]).0@ != k,
    ensures
        map_of_vals(val_pairs_view(s)).contains_key(k) <==> map_of_vals(
            val_pairs_view(s.subrange(0, i)),
        ).contains_key(k),
        map_of_vals(val_pairs_view(s)).contains_key(k) ==> map_of_vals(val_pairs_view(s))[k]
            == map_of_vals(val_pairs_view(s.subrange(0, i)))[k],
    decreases s.len() - i,
{
    if i == s.len() {
        assert(s.subrange(0, i) =~= s);
    } else {
        let t = s.drop_last();
        lemma_map_of_vals_snoc(s);
        assert(s.last().0@ != k);
        if i == s.len() - 1 {
            assert(s.subrange(0, i) =~= t);
        } else {
            assert(forall|j: int| i <= j < t.len() ==> (#[trigger] t[j]).0@ != k) by {
                assert(forall|j: int| i <= j < t.len() ==> t[j] == s[j]);
            }
            lemma_env_skip(t, k, i);
            assert(t.subrange(0, i) =~= s.subrange(0, i));
        }
    }
}

/// The value bound to `key` in a list of name-value bindings, if any: the
/// latest binding wins, as in the map the list denotes.
pub fn vals_get<'a>(entries: &'a Vec<(String, Value)>, key: &str) -> (r: Option<&'a Value>)
    ensures
        match r {
            Some(v) => map_of_vals(val_pairs_view(entries@)).contains_key(key@) && v@
                == map_of_vals(val_pairs_view(entries@))[key@],
            None => !map_of_vals(val_pairs_view(entries@)).contains_key(key@),
        },
{
    let n = entries.len();
    let mut i: usize = n;
    while i > 0
        invariant
            i <= n,
            n == entries@.len(),
            forall|j: int| i <= j < n ==> (#[trigger] entries@[j]).0@ != key@,
        decreases i,
    {
        i = i - 1;
        if crate::strutil::str_eq(entries[i].0.as_str(), key) {
            proof {
                lemma_env_skip(entries@, key@, i + 1);
                let post = entries@.subrange(0, i + 1);
                lemma_map_of_vals_snoc(post);
                assert(post.drop_last() =~= entries@.subrange(0, i as int));
                assert(post.last() == entries@[i as int]);
            }
            return Some(&entries[i].1);
        }
    }
    proof {
        lemma_env_skip(entries@, key@, 0);
        assert(entries@.subrange(0, 0) =~= Seq::<(String, Value)>::empty());
        assert(val_pairs_view(Seq::<(String, Value)>::empty()) =~= Seq::<
            (Seq<char>, ValueV),
        >::empty());
    }
    None
}

impl Env {
    /// The empty environment.
    pub fn new() -> (r: Env)
        ensures
            r@ == Map::<Seq<char>, ValueV>::empty(),
    {
        let r = Env { entries: Vec::new() };
        proof {
            assert(val_pairs_view(r.entries@) =~= Seq::<(Seq<char>, ValueV)>::empty());
        }
        r
    }

    /// Bind `name` to `value`, shadowing any earlier binding of that name.
    pub fn insert(&mut self, name: String, value: Value)
        ensures
            final(self)@ == old(self)@.insert(name@, value@),
    {
        let ghost k = name@;
        let ghost v = value@;
        self.entries.push((name, value));
        proof {
            lemma_map_of_vals_snoc(self.entries@);
            assert(self.entries@.drop_last() =~= old(self).entries@);
            assert(self.entries@.last().0@ == k && self.entries@.last().1@ == v);
        }
    }

    /// Whether `name` is bound.
    pub fn contains(&self, name: &str) -> (r: bool)
        ensures
            r == self@.contains_key(name@),
    {
        match self.get(name) {
            Some(_) => true,
            None => false,
        }
    }

    /// The value bound to `name`, if any: the latest binding wins.
    pub fn get(&self, name: &str) -> (r: Option<&Value>)
        ensures
            match r {
                Some(v) => self@.contains_key(name@) && v@ == self@[name@],
                None => !self@.contains_key(name@),
            },
    {
        let n = self.entries.len();
        let mut i: usize = n;
        while i > 0
            invariant
                i <= n,
                n == self.entries@.len(),
                forall|j: int| i <= j < n ==> (#[trigger] self.entries@[j]).0@ != name@,
            decreases i,
        {
            i = i - 1;
            if crate::strutil::str_eq(self.entries[i].0.as_str(), name) {
                proof {
                    lemma_env_skip(self.entries@, name@, i + 1);
                    let post = self.entries@.subrange(0, i + 1);
                    lemma_map_of_vals_snoc(post);
                    assert(post.drop_last() =~= self.entries@.subrange(0, i as int));
                    assert(post.last() == self.entries@[i as int]);
                }
                return Some(&self.entries[i].1);
            }
        }
        proof {
            lemma_env_skip(self.entries@, name@, 0);
            assert(self.entries@.subrange(0, 0) =~= Seq::<(String, Value)>::empty());
            assert(val_pairs_view(Seq::<(String, Value)>::empty())
                =~= Seq::<(Seq<char>, ValueV)>::empty());
        }
        None
    }

    /// A copy of the environment, equal to it in the model: the clone taken
    /// when entering a nested scope.
    pub fn duplicate(&self) -> (r: Env)
        ensures
            r@ == self@,
    {
        Env { entries: dup_val_pairs(&self.entries) }
    }
}

} // verus!
