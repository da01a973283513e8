//! Built-in scene commands: clone, translate and rotate the latest
//! instance, and merge named instances into a new model. Each command
//! mutates the scene graph; reporting is the caller's concern.

use vstd::prelude::*;

use crate::geom::{parse_axis_spec, Axis};
use crate::strutil::{chars_of, parse_i32, parse_i32_spec, str_eq};
use crate::types::{
    flatten_spec, instances_view, Instance, InstanceV, Model, ModelV, SceneGraph, Transform3D,
    TransformV,
};

verus! {

/// The names of the built-in scene commands.
pub fn list_commands() -> (r: Vec<&'static str>)
    ensures
        r@.len() == 5,
        r@[0]@ == "print"@,
        r@[1]@ == "clone"@,
        r@[2]@ == "translate"@,
        r@[3]@ == "rotate"@,
        r@[4]@ == "merge"@,
{
    let mut v: Vec<&'static str> = Vec::new();
    v.push("print");
    v.push("clone");
    v.push("translate");
    v.push("rotate");
    v.push("merge");
    v
}

/// The first instance whose model has the given name, from `i` on.
pub open spec fn find_instance(insts: Seq<InstanceV>, name: Seq<char>, i: int) -> Option<int>
    decreases insts.len() - i,
{
    if i < 0 || i >= insts.len() {
        None
    } else if insts[i].model.name == name {
        Some(i)
    } else {
        find_instance(insts, name, i + 1)
    }
}

/// Find the first instance whose model has the given name.
fn find_instance_exec(scene: &SceneGraph, name: &str) -> (r: Option<usize>)
    ensures
        match r {
            Some(i) => find_instance(scene@, name@, 0) == Some(i as int) && i
                < scene.instances@.len(),
            None => find_instance(scene@, name@, 0) is None,
        },
{
    let n = scene.instances.len();
    let mut i: usize = 0;
    while i < n
        invariant
            i <= n,
            n == scene.instances@.len(),
            scene@.len() == n,
            find_instance(scene@, name@, 0) == find_instance(scene@, name@, i as int),
        decreases n - i,
    {
        proof {
            assert(scene@[i as int] == scene.instances@[i as int]@);
        }
        if str_eq(scene.instances[i].model.name.as_str(), name) {
            return Some(i);
        }
        i = i + 1;
    }
    None
}

/// Clone an instance: with no argument the latest instance, else the first
/// instance of the named model; the copy is appended. Nothing happens on an
/// empty scene or an unknown name.
#[verifier::loop_isolation(false)]
pub fn do_clone(scene: &mut SceneGraph, args: &Vec<String>)
    ensures
        ({
            if args@.len() == 0 {
                if old(scene)@.len() > 0 {
                    final(scene)@ == old(scene)@.push(old(scene)@.last())
                } else {
                    final(scene)@ == old(scene)@
                }
            } else {
                match find_instance(old(scene)@, args@[0]@, 0) {
                    Some(i) => final(scene)@ == old(scene)@.push(old(scene)@[i]),
                    None => final(scene)@ == old(scene)@,
                }
            }
        }),
{
    if args.len() == 0 {
        let n = scene.instances.len();
        if n > 0 {
            proof {
                assert(scene@[n - 1] == scene.instances@[n - 1]@);
            }
            let copy = scene.instances[n - 1].duplicate();
            let ghost pre = scene.instances@;
            scene.instances.push(copy);
            proof {
                crate::types::lemma_instances_view_push(pre, scene.instances@.last());
            }
        }
    } else {
        match find_instance_exec(scene, args[0].as_str()) {
            Some(i) => {
                proof {
                    assert(scene@[i as int] == scene.instances@[i as int]@);
                }
                let copy = scene.instances[i].duplicate();
                let ghost pre = scene.instances@;
                scene.instances.push(copy);
                proof {
                    crate::types::lemma_instances_view_push(pre, scene.instances@.last());
                }
            },
            None => {},
        }
    }
}

/// An instance with offsets added to its translation, wrapping.
pub open spec fn translated_instance(inst: InstanceV, dx: i32, dy: i32, dz: i32) -> InstanceV {
    InstanceV {
        model: inst.model,
        transform: TransformV {
            dx: crate::geom::wadd(inst.transform.dx, dx),
            dy: crate::geom::wadd(inst.transform.dy, dy),
            dz: crate::geom::wadd(inst.transform.dz, dz),
            rotations: inst.transform.rotations,
        },
    }
}

/// The integer an argument denotes, or zero when it does not parse.
pub open spec fn arg_num(s: Seq<char>, default: i32) -> i32 {
    match parse_i32_spec(s) {
        Some(n) => n,
        None => default,
    }
}

fn parse_arg(s: &String, default: i32) -> (r: i32)
    ensures
        r == arg_num(s@, default),
{
    let cs = chars_of(s.as_str());
    match parse_i32(&cs) {
        Some(n) => n,
        None => default,
    }
}

/// Translate the latest instance by three integer offsets; arguments that
/// do not parse count as zero. Nothing happens with fewer than three
/// arguments or on an empty scene.
#[verifier::loop_isolation(false)]
pub fn do_translate(scene: &mut SceneGraph, args: &Vec<String>)
    ensures
        ({
            if args@.len() >= 3 && old(scene)@.len() > 0 {
                final(scene)@ == old(scene)@.update(
                    old(scene)@.len() - 1,
                    translated_instance(
                        old(scene)@.last(),
                        arg_num(args@[0]@, 0),
                        arg_num(args@[1]@, 0),
                        arg_num(args@[2]@, 0),
                    ),
                )
            } else {
                final(scene)@ == old(scene)@
            }
        }),
{
    if args.len() < 3 {
        return ;
    }
    let n = scene.instances.len();
    if n == 0 {
        return ;
    }
    let dx = parse_arg(&args[0], 0);
    let dy = parse_arg(&args[1], 0);
    let dz = parse_arg(&args[2], 0);
    match scene.instances.pop() {
        Some(mut last) => {
            let ghost lastv = last@;
            last.transform.dx = last.transform.dx.wrapping_add(dx);
            last.transform.dy = last.transform.dy.wrapping_add(dy);
            last.transform.dz = last.transform.dz.wrapping_add(dz);
            let ghost pre = scene.instances@;
            scene.instances.push(last);
            proof {
                crate::types::lemma_instances_view_push(pre, scene.instances@.last());
                assert(instances_view(old(scene).instances@.drop_last()) =~= instances_view(
                    old(scene).instances@,
                ).drop_last());
                assert(final(scene)@ =~= old(scene)@.update(
                    old(scene)@.len() - 1,
                    translated_instance(old(scene)@.last(), dx, dy, dz),
                ));
            }
        },
        None => {
            proof {
                assert(false);
            }
        },
    }
}

/// An instance with one rotation step appended.
pub open spec fn rotated_instance(inst: InstanceV, axis: Axis, turns: i32) -> InstanceV {
    InstanceV {
        model: inst.model,
        transform: TransformV {
            dx: inst.transform.dx,
            dy: inst.transform.dy,
            dz: inst.transform.dz,
            rotations: inst.transform.rotations.push((axis, turns)),
        },
    }
}

/// Append a quarter-turn rotation step to the latest instance. The axis is
/// parsed strictly: an unrecognized token applies nothing and reports
/// failure; a turn count that does not parse counts as one.
#[verifier::loop_isolation(false)]
pub fn do_rotate(scene: &mut SceneGraph, args: &Vec<String>) -> (applied: bool)
    ensures
        ({
            if args@.len() >= 2 && old(scene)@.len() > 0 {
                match parse_axis_spec(args@[0]@) {
                    Some(a) => applied && final(scene)@ == old(scene)@.update(
                        old(scene)@.len() - 1,
                        rotated_instance(old(scene)@.last(), a, arg_num(args@[1]@, 1)),
                    ),
                    None => !applied && final(scene)@ == old(scene)@,
                }
            } else {
                !applied && final(scene)@ == old(scene)@
            }
        }),
{
    if args.len() < 2 {
        return false;
    }
    let n = scene.instances.len();
    if n == 0 {
        return false;
    }
    let axis = match Axis::parse(args[0].as_str()) {
        Some(a) => a,
        None => {
            return false;
        },
    };
    let turns = parse_arg(&args[1], 1);
    match scene.instances.pop() {
        Some(mut last) => {
            let ghost lastv = last@;
            last.transform.rotations.push((axis, turns));
            let ghost pre = scene.instances@;
            scene.instances.push(last);
            proof {
                crate::types::lemma_instances_view_push(pre, scene.instances@.last());
                assert(instances_view(old(scene).instances@.drop_last()) =~= instances_view(
                    old(scene).instances@,
                ).drop_last());
                assert(final(scene)@ =~= old(scene)@.update(
                    old(scene)@.len() - 1,
                    rotated_instance(old(scene)@.last(), axis, turns),
                ));
            }
            true
        },
        None => {
            proof {
                assert(false);
            }
            false
        },
    }
}

/// The instances matched by a list of names: for each name in order, the
/// first instance of that model, skipping names that match nothing.
pub open spec fn matched_instances(
    insts: Seq<InstanceV>,
    names: Seq<Seq<char>>,
    k: int,
    acc: Seq<InstanceV>,
) -> Seq<InstanceV>
    decreases names.len() - k,
{
    if k < 0 || k >= names.len() {
        acc
    } else {
        match find_instance(insts, names[k], 0) {
            Some(i) => matched_instances(insts, names, k + 1, acc.push(insts[i])),
            None => matched_instances(insts, names, k + 1, acc),
        }
    }
}

/// Merge the named instances: their fully resolved voxels concatenate into
/// a new model named by joining the matched names, appended as a fresh
/// instance. Nothing happens with fewer than two names or when no name
/// matches.
#[verifier::loop_isolation(false)]
pub fn do_merge(scene: &mut SceneGraph, args: &Vec<String>)
    ensures
        ({
            let matched = matched_instances(
                old(scene)@,
                crate::ast::strings_view(args@),
                0,
                Seq::empty(),
            );
            if args@.len() >= 2 && matched.len() > 0 {
                final(scene)@ == old(scene)@.push(
                    crate::runtime::fresh_instance(
                        ModelV {
                            name: crate::runtime::join_names(matched),
                            voxels: flatten_spec(matched),
                        },
                    ),
                )
            } else {
                final(scene)@ == old(scene)@
            }
        }),
{
    let ghost names = crate::ast::strings_view(args@);
    if args.len() < 2 {
        return ;
    }
    let mut matched: Vec<Instance> = Vec::new();
    proof {
        assert(instances_view(matched@) =~= Seq::<InstanceV>::empty());
    }
    let mut k: usize = 0;
    while k < args.len()
        invariant
            k <= args@.len(),
            scene@ == old(scene)@,
            matched_instances(old(scene)@, names, 0, Seq::empty()) == matched_instances(
                old(scene)@,
                names,
                k as int,
                instances_view(matched@),
            ),
        decreases args@.len() - k,
    {
        match find_instance_exec(scene, args[k].as_str()) {
            Some(i) => {
                proof {
                    assert(scene@[i as int] == scene.instances@[i as int]@);
                }
                let copy = scene.instances[i].duplicate();
                let ghost pre = matched@;
                matched.push(copy);
                proof {
                    crate::types::lemma_instances_view_push(pre, matched@.last());
                }
            },
            None => {},
        }
        k = k + 1;
    }
    if matched.len() == 0 {
        return ;
    }
    let name = crate::runtime::join_names_exec(&matched);
    let voxels = crate::runtime::flatten_instances(&matched);
    let model = Model { name, voxels };
    let inst = Instance { model, transform: Transform3D::default() };
    let ghost pre = scene.instances@;
    scene.instances.push(inst);
    proof {
        crate::types::lemma_instances_view_push(pre, scene.instances@.last());
    }
}

} // verus!
