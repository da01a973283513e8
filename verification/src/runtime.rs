//! The evaluator: walks top-level AST statements against a name environment
//! and a scene graph. Model bodies expand in two passes: the first collects
//! colors, legends and queued layers while emitting explicit placements and
//! loop voxels in order; the second resolves every non-blank glyph of every
//! queued layer to a color and emits its voxel.
//!
//! Two evaluation policies exist. Permissive mode never fails: unresolved
//! colors fall back to a diagnostic default and unresolved glyphs to the
//! deterministic hash color. Strict mode stops at the first unresolved
//! legend entry, atom, color property or color name, or non-ASCII glyph,
//! and reports the model and subject that failed.

use vstd::prelude::*;

use crate::ast::{asts_view, pairs_view, strings_view, AstNode, AstV};
use crate::colors::{default_colors, default_colors_spec, pairs_get, StrMap};
use crate::expand::{default_color_for_symbol, default_color_spec};
use crate::strutil::{i32_dec_spec, i32_to_string, str_eq};
use crate::types::{
    identity_transform, map_of_pairs, map_of_vals, val_pairs_view, values_view, vals_get, Env,
    Instance, InstanceV, Model, ModelV, SceneGraph, Transform3D, Value, ValueV, Voxel, VoxelV,
    voxels_view,
};

verus! {

/// The evaluation policy: permissive substitutes defaults for anything
/// unresolved; strict stops at the first unresolved reference.
#[derive(Debug, Clone, Copy, PartialEq, Eq, Structural)]
pub enum Mode {
    Permissive,
    Strict,
}

/// What failed under strict evaluation.
#[derive(Debug, Clone, Copy, PartialEq, Eq, Structural)]
pub enum ErrorKind {
    /// A glyph with no legend entry and no color entry.
    UnknownGlyph,
    /// A legend entry naming an atom that is not defined.
    UnknownAtom,
    /// An atom without a `color` property.
    AtomWithoutColor,
    /// A color name that is neither built in nor a `#` literal.
    UnknownColorName,
    /// A glyph outside the ASCII range.
    NonAsciiGlyph,
}

/// A strict-mode failure: what failed, in which model, and the glyph, atom
/// or color name that caused it.
#[derive(Debug)]
pub struct EvalError {
    pub kind: ErrorKind,
    pub model: String,
    pub subject: String,
}

/// The model of an evaluation failure.
pub struct EvalErrorV {
    pub kind: ErrorKind,
    pub model: Seq<char>,
    pub subject: Seq<char>,
}

impl View for EvalError {
    type V = EvalErrorV;

    open spec fn view(&self) -> EvalErrorV {
        EvalErrorV { kind: self.kind, model: self.model@, subject: self.subject@ }
    }
}

/// How a value reads as a string: strings and identifiers read as
/// themselves, numbers in decimal, atoms and instances by name, and the
/// structured values by a fixed tag.
pub open spec fn value_to_string_spec(v: ValueV) -> Seq<char> {
    match v {
        ValueV::Str(s) => s,
        ValueV::Ident(s) => s,
        ValueV::Number(n) => i32_dec_spec(n as int),
        ValueV::Atom { name, props } => name,
        ValueV::Instance(inst) => inst.model.name,
        ValueV::ModelDef { params, body } => "<model>"@,
        ValueV::Array(vals) => "<array>"@,
        ValueV::KvMap(m) => "<map>"@,
    }
}

/// Convert a value into a string, as `value_to_string_spec` describes.
pub fn value_to_string(v: &Value) -> (r: String)
    ensures
        r@ == value_to_string_spec(v@),
{
    match v {
        Value::Str(s) => s.clone(),
        Value::Ident(s) => s.clone(),
        Value::Number(n) => i32_to_string(*n),
        Value::Atom { name, props } => name.clone(),
        Value::Instance(inst) => inst.model.name.clone(),
        Value::ModelDef { params, body } => "<model>".to_owned(),
        Value::Array(vals) => "<array>".to_owned(),
        Value::KvMap(m) => "<map>".to_owned(),
    }
}

/// One step of the alias chase: how a bound value reads as the next name.
pub open spec fn chase_next(v: ValueV) -> Seq<char> {
    match v {
        ValueV::Array(vs) => if vs.len() > 0 {
            value_to_string_spec(vs[0])
        } else {
            value_to_string_spec(v)
        },
        _ => value_to_string_spec(v),
    }
}

/// Chasing a referenced color name through the environment until it no
/// longer matches a bound name, or a name comes up a second time: a cyclic
/// chain resolves to the name that would repeat. The allowance only bounds
/// the recursion; it exceeds the bindings any environment the executable
/// code can hold, so the executable chase never reaches it.
pub open spec fn chase_spec(
    name: Seq<char>,
    env: Map<Seq<char>, ValueV>,
    seen: Set<Seq<char>>,
    fuel: nat,
) -> Seq<char>
    decreases fuel,
{
    if fuel == 0 || !env.contains_key(name) || seen.contains(name) {
        name
    } else {
        chase_spec(chase_next(env[name]), env, seen.insert(name), (fuel - 1) as nat)
    }
}

/// The recursion allowance of the chase: more names than any environment
/// the executable code can hold.
pub open spec fn chase_fuel() -> nat {
    0x1_0000_0000_0000_0000
}

/// The set of names a list of strings holds.
pub open spec fn names_set(s: Seq<Seq<char>>) -> Set<Seq<char>>
    decreases s.len(),
{
    if s.len() == 0 {
        Set::empty()
    } else {
        names_set(s.drop_last()).insert(s.last())
    }
}

/// A list's name set holds exactly the names the list holds.
proof fn lemma_names_set_iff(s: Seq<Seq<char>>, k: Seq<char>)
    ensures
        names_set(s).contains(k) <==> exists|i: int| 0 <= i < s.len() && s[i] == k,
    decreases s.len(),
{
    if s.len() > 0 {
        lemma_names_set_iff(s.drop_last(), k);
        if exists|i: int| 0 <= i < s.len() && s[i] == k {
            let i = choose|i: int| 0 <= i < s.len() && s[i] == k;
            if i < s.len() - 1 {
                assert(s.drop_last()[i] == k);
            }
        }
    }
}

/// Pushing a name inserts it into the list's name set.
proof fn lemma_names_set_push(s: Seq<Seq<char>>, x: Seq<char>)
    ensures
        names_set(s.push(x)) == names_set(s).insert(x),
{
    assert(s.push(x).drop_last() =~= s);
    assert(s.push(x).last() == x);
}

/// Whether a name is among the seen names.
#[verifier::loop_isolation(false)]
fn seen_contains(seen: &Vec<String>, name: &str) -> (r: bool)
    ensures
        r == names_set(strings_view(seen@)).contains(name@),
{
    let ghost sv = strings_view(seen@);
    proof {
        lemma_names_set_iff(sv, name@);
    }
    let mut i: usize = 0;
    while i < seen.len()
        invariant
            i <= seen@.len(),
            sv == strings_view(seen@),
            forall|j: int| 0 <= j < i ==> sv[j] != name@,
        decreases seen@.len() - i,
    {
        proof {
            assert(sv[i as int] == seen@[i as int]@);
        }
        if str_eq(seen[i].as_str(), name) {
            return true;
        }
        i = i + 1;
    }
    false
}

/// Follow a color alias through the environment, as `chase_spec` describes:
/// stop at the first unbound name or the first name seen before. The chain
/// visits pairwise-distinct bound names, so it is no longer than the
/// environment's binding list.
#[verifier::loop_isolation(false)]
fn chase_color_name(start: &String, env: &Env) -> (r: String)
    ensures
        r@ == chase_spec(start@, env@, Set::empty(), chase_fuel()),
{
    let mut cur: String = start.clone();
    let mut seen: Vec<String> = Vec::new();
    proof {
        assert(names_set(strings_view(seen@)) =~= Set::<Seq<char>>::empty());
    }
    loop
        invariant
            chase_spec(
                cur@,
                env@,
                names_set(strings_view(seen@)),
                (chase_fuel() - seen@.len()) as nat,
            ) == chase_spec(start@, env@, Set::empty(), chase_fuel()),
            forall|a: int, b: int|
                0 <= a < b < seen@.len() ==> strings_view(seen@)[a] != strings_view(seen@)[b],
            forall|a: int|
                0 <= a < seen@.len() ==> env@.contains_key(#[trigger] strings_view(seen@)[a]),
            seen@.len() <= env.entries@.len(),
        decreases env.entries@.len() - seen@.len(),
    {
        let ghost sv = strings_view(seen@);
        match env.get(cur.as_str()) {
            None => {
                return cur;
            },
            Some(v) => {
                if seen_contains(&seen, cur.as_str()) {
                    return cur;
                }
                proof {
                    lemma_names_set_iff(sv, cur@);
                }
                let next = match v {
                    Value::Array(vs) => {
                        if vs.len() > 0 {
                            proof {
                                crate::types::lemma_values_view_len(vs@);
                                crate::types::lemma_values_view_index(vs@, 0);
                            }
                            value_to_string(&vs[0])
                        } else {
                            proof {
                                crate::types::lemma_values_view_len(vs@);
                            }
                            value_to_string(v)
                        }
                    },
                    _ => value_to_string(v),
                };
                let ghost pre = seen@;
                seen.push(cur.clone());
                proof {
                    crate::ast::lemma_strings_view_push(pre, seen@.last());
                    lemma_names_set_push(sv, cur@);
                    crate::types::lemma_distinct_bound_names(
                        env.entries@,
                        strings_view(seen@),
                    );
                    assert(next@ == chase_next(env@[cur@]));
                    assert(names_set(strings_view(seen@)) == names_set(sv).insert(cur@));
                    assert(seen@.len() == pre.len() + 1);
                    vstd::std_specs::vec::axiom_spec_len(&env.entries);
                    assert(env.entries@.len() <= usize::MAX);
                    assert(pre.len() < chase_fuel());
                    assert(chase_spec(cur@, env@, names_set(sv), (chase_fuel() - pre.len()) as nat)
                        == chase_spec(
                        next@,
                        env@,
                        names_set(strings_view(seen@)),
                        (chase_fuel() - seen@.len()) as nat,
                    ));
                }
                cur = next;
            },
        }
    }
}

/// The metadata of a model body after the first pass: the color table, the
/// glyph-to-atom legend, the queued layers, and the voxels already emitted
/// by explicit placements and loops.
pub struct BodyState {
    pub colors: Map<Seq<char>, Seq<char>>,
    pub legend: Map<Seq<char>, Seq<char>>,
    pub layers: Seq<(usize, Seq<Seq<char>>)>,
    pub voxels: Seq<VoxelV>,
}

/// The first-pass state before any body node is read: the color table is
/// seeded with the built-in named colors.
pub open spec fn body_init() -> BodyState {
    BodyState {
        colors: default_colors_spec(),
        legend: Map::empty(),
        layers: Seq::empty(),
        voxels: Seq::empty(),
    }
}

/// A map extended by a sequence of pairs, in order: later pairs win.
pub open spec fn insert_all(
    m: Map<Seq<char>, Seq<char>>,
    ps: Seq<(Seq<char>, Seq<char>)>,
) -> Map<Seq<char>, Seq<char>>
    decreases ps.len(),
{
    if ps.len() == 0 {
        m
    } else {
        insert_all(m, ps.drop_last()).insert(ps.last().0, ps.last().1)
    }
}

/// The views of a queued-layer list.
pub open spec fn layers_view(s: Seq<(usize, Vec<String>)>) -> Seq<(usize, Seq<Seq<char>>)> {
    s.map_values(|p: (usize, Vec<String>)| (p.0, strings_view(p.1@)))
}

pub broadcast proof fn lemma_layers_view_push(s: Seq<(usize, Vec<String>)>, p: (usize, Vec<String>))
    ensures
        #[trigger] layers_view(s.push(p)) == layers_view(s).push((p.0, strings_view(p.1@))),
{
    assert(layers_view(s.push(p)) =~~= layers_view(s).push((p.0, strings_view(p.1@))));
}

/// Whether a color name may stand as written: it is built in, or it is a
/// `#` literal.
pub open spec fn color_name_ok(c: Seq<char>) -> bool {
    default_colors_spec().contains_key(c) || (c.len() > 0 && c[0] == '#')
}

/// The hex value a color name resolves to against the built-in table,
/// falling back to the name itself as a literal.
pub open spec fn builtin_or_literal(c: Seq<char>) -> Seq<char> {
    if default_colors_spec().contains_key(c) {
        default_colors_spec()[c]
    } else {
        c
    }
}

/// The first pass over a model body from node `i` on: collect colors,
/// legend entries and layers; emit explicit placements and loop voxels in
/// document order. In strict mode an unresolved color name or placement
/// symbol stops evaluation.
pub open spec fn body_pass1_spec(
    name: Seq<char>,
    body: Seq<AstV>,
    i: int,
    env: Map<Seq<char>, ValueV>,
    st: BodyState,
    mode: Mode,
) -> Result<BodyState, EvalErrorV>
    decreases body, 0int, body.len() - i,
{
    if i < 0 || i >= body.len() {
        Ok(st)
    } else {
        match body[i] {
            AstV::ColorDecl { symbol, color } => {
                if mode is Strict && !color_name_ok(color) {
                    Err(EvalErrorV { kind: ErrorKind::UnknownColorName, model: name, subject: color })
                } else {
                    body_pass1_spec(
                        name,
                        body,
                        i + 1,
                        env,
                        BodyState { colors: st.colors.insert(symbol, builtin_or_literal(color)), ..st },
                        mode,
                    )
                }
            },
            AstV::AddColor { symbol, color } => {
                let rn = chase_spec(color, env, Set::empty(), chase_fuel());
                if rn.len() > 0 && rn[0] == '#' {
                    let hex = if rn.len() > 7 {
                        rn.subrange(0, 7)
                    } else {
                        rn
                    };
                    body_pass1_spec(
                        name,
                        body,
                        i + 1,
                        env,
                        BodyState { colors: st.colors.insert(symbol, hex), ..st },
                        mode,
                    )
                } else if mode is Strict && !default_colors_spec().contains_key(rn) {
                    Err(EvalErrorV { kind: ErrorKind::UnknownColorName, model: name, subject: rn })
                } else {
                    body_pass1_spec(
                        name,
                        body,
                        i + 1,
                        env,
                        BodyState { colors: st.colors.insert(symbol, builtin_or_literal(rn)), ..st },
                        mode,
                    )
                }
            },
            AstV::LegendDecl { mappings } => body_pass1_spec(
                name,
                body,
                i + 1,
                env,
                BodyState { legend: insert_all(st.legend, mappings), ..st },
                mode,
            ),
            AstV::LayerDecl { z, rows } => body_pass1_spec(
                name,
                body,
                i + 1,
                env,
                BodyState { layers: st.layers.push((z, rows)), ..st },
                mode,
            ),
            AstV::AddLayer { x, y, z, symbol } => {
                if st.colors.contains_key(symbol) {
                    body_pass1_spec(
                        name,
                        body,
                        i + 1,
                        env,
                        BodyState {
                            voxels: st.voxels.push(
                                VoxelV { x, y, z, color: st.colors[symbol] },
                            ),
                            ..st
                        },
                        mode,
                    )
                } else if mode is Strict {
                    Err(EvalErrorV { kind: ErrorKind::UnknownGlyph, model: name, subject: symbol })
                } else {
                    body_pass1_spec(
                        name,
                        body,
                        i + 1,
                        env,
                        BodyState {
                            voxels: st.voxels.push(VoxelV { x, y, z, color: "#888888"@ }),
                            ..st
                        },
                        mode,
                    )
                }
            },
            AstV::ForRange { var, start, end, body: inner } => {
                let cnt: nat = if end > start {
                    (end - start) as nat
                } else {
                    0
                };
                match for_range_spec(name, var, inner, env, start as int, cnt, Seq::empty(), mode) {
                    Ok(vs) => body_pass1_spec(
                        name,
                        body,
                        i + 1,
                        env,
                        BodyState { voxels: st.voxels + vs, ..st },
                        mode,
                    ),
                    Err(e) => Err(e),
                }
            },
            AstV::ForLoop { var1, var2, iter1, iter2, body: inner } => {
                if env.contains_key(iter1) && env.contains_key(iter2) && env[iter1] is Array
                    && env[iter2] is Array {
                    let vs1 = env[iter1]->Array_0;
                    let vs2 = env[iter2]->Array_0;
                    match for_each_spec(name, var1, var2, inner, env, vs1, vs2, 0, Seq::empty(), mode) {
                        Ok(vs) => body_pass1_spec(
                            name,
                            body,
                            i + 1,
                            env,
                            BodyState { voxels: st.voxels + vs, ..st },
                            mode,
                        ),
                        Err(e) => Err(e),
                    }
                } else {
                    body_pass1_spec(name, body, i + 1, env, st, mode)
                }
            },
            _ => body_pass1_spec(name, body, i + 1, env, st, mode),
        }
    }
}

/// A numeric loop: the inner body expanded once per value from `cur` on,
/// `cnt` times, with the loop variable bound in a copied scope, voxels
/// concatenated in iteration order.
pub open spec fn for_range_spec(
    name: Seq<char>,
    var: Seq<char>,
    inner: Seq<AstV>,
    env: Map<Seq<char>, ValueV>,
    cur: int,
    cnt: nat,
    acc: Seq<VoxelV>,
    mode: Mode,
) -> Result<Seq<VoxelV>, EvalErrorV>
    decreases inner, 2int, cnt,
{
    if cnt == 0 {
        Ok(acc)
    } else {
        let env2 = env.insert(var, ValueV::Number(cur as i32));
        match eval_model_body_spec(name, inner, env2, mode) {
            Ok(vs) => for_range_spec(name, var, inner, env, cur + 1, (cnt - 1) as nat, acc + vs, mode),
            Err(e) => Err(e),
        }
    }
}

/// A paired-array loop: the inner body expanded once per position of the
/// shorter array, both loop variables bound as strings in a copied scope.
pub open spec fn for_each_spec(
    name: Seq<char>,
    var1: Seq<char>,
    var2: Seq<char>,
    inner: Seq<AstV>,
    env: Map<Seq<char>, ValueV>,
    vs1: Seq<ValueV>,
    vs2: Seq<ValueV>,
    k: int,
    acc: Seq<VoxelV>,
    mode: Mode,
) -> Result<Seq<VoxelV>, EvalErrorV>
    decreases inner, 2int, vs1.len() - k,
{
    if k < 0 || k >= vs1.len() || k >= vs2.len() {
        Ok(acc)
    } else {
        let env2 = env.insert(var1, ValueV::Str(value_to_string_spec(vs1[k]))).insert(
            var2,
            ValueV::Str(value_to_string_spec(vs2[k])),
        );
        match eval_model_body_spec(name, inner, env2, mode) {
            Ok(vs) => for_each_spec(name, var1, var2, inner, env, vs1, vs2, k + 1, acc + vs, mode),
            Err(e) => Err(e),
        }
    }
}

/// What color a glyph resolves to: through its legend entry to the atom's
/// `color` property resolved against the built-in table or taken as a
/// literal; else through the color table; else the deterministic fallback.
/// Strict mode stops instead of falling back.
pub open spec fn resolve_glyph_spec(
    name: Seq<char>,
    glyph: Seq<char>,
    colors: Map<Seq<char>, Seq<char>>,
    legend: Map<Seq<char>, Seq<char>>,
    env: Map<Seq<char>, ValueV>,
    mode: Mode,
) -> Result<Seq<char>, EvalErrorV> {
    if legend.contains_key(glyph) {
        let atom = legend[glyph];
        if env.contains_key(atom) && env[atom] is Atom {
            let props = env[atom]->Atom_props;
            if props.contains_key("color"@) {
                let c0 = props["color"@];
                if default_colors_spec().contains_key(c0) {
                    Ok(default_colors_spec()[c0])
                } else if mode is Strict && !(c0.len() > 0 && c0[0] == '#') {
                    Err(EvalErrorV { kind: ErrorKind::UnknownColorName, model: name, subject: c0 })
                } else {
                    Ok(c0)
                }
            } else if mode is Strict {
                Err(EvalErrorV { kind: ErrorKind::AtomWithoutColor, model: name, subject: atom })
            } else {
                Ok("#888888"@)
            }
        } else if mode is Strict {
            Err(EvalErrorV { kind: ErrorKind::UnknownAtom, model: name, subject: atom })
        } else {
            Ok("#888888"@)
        }
    } else if colors.contains_key(glyph) {
        Ok(colors[glyph])
    } else if mode is Strict {
        Err(EvalErrorV { kind: ErrorKind::UnknownGlyph, model: name, subject: glyph })
    } else {
        Ok(default_color_spec(glyph))
    }
}

/// The second pass over one row of a layer: every character except `.` and
/// the space resolves to a color and emits a voxel at its column; non-ASCII
/// glyphs stop strict evaluation. Coordinates beyond the `i32` range emit
/// nothing.
pub open spec fn emit_row_spec(
    name: Seq<char>,
    z: usize,
    y: int,
    row: Seq<char>,
    xi: int,
    colors: Map<Seq<char>, Seq<char>>,
    legend: Map<Seq<char>, Seq<char>>,
    env: Map<Seq<char>, ValueV>,
    acc: Seq<VoxelV>,
    mode: Mode,
) -> Result<Seq<VoxelV>, EvalErrorV>
    decreases row.len() - xi,
{
    if xi < 0 || xi >= row.len() {
        Ok(acc)
    } else {
        let c = row[xi];
        if c == '.' || c == ' ' {
            emit_row_spec(name, z, y, row, xi + 1, colors, legend, env, acc, mode)
        } else if mode is Strict && c as u32 >= 128 {
            Err(EvalErrorV { kind: ErrorKind::NonAsciiGlyph, model: name, subject: seq![c] })
        } else {
            match resolve_glyph_spec(name, seq![c], colors, legend, env, mode) {
                Err(e) => Err(e),
                Ok(color) => {
                    let acc2 = if xi <= i32::MAX && 0 <= y <= i32::MAX && z <= i32::MAX {
                        acc.push(VoxelV { x: xi as i32, y: y as i32, z: z as i32, color })
                    } else {
                        acc
                    };
                    emit_row_spec(name, z, y, row, xi + 1, colors, legend, env, acc2, mode)
                },
            }
        }
    }
}

/// The second pass over the rows of one layer, top row first.
pub open spec fn emit_rows_spec(
    name: Seq<char>,
    z: usize,
    rows: Seq<Seq<char>>,
    yi: int,
    colors: Map<Seq<char>, Seq<char>>,
    legend: Map<Seq<char>, Seq<char>>,
    env: Map<Seq<char>, ValueV>,
    acc: Seq<VoxelV>,
    mode: Mode,
) -> Result<Seq<VoxelV>, EvalErrorV>
    decreases rows.len() - yi,
{
    if yi < 0 || yi >= rows.len() {
        Ok(acc)
    } else {
        match emit_row_spec(name, z, yi, rows[yi], 0, colors, legend, env, acc, mode) {
            Err(e) => Err(e),
            Ok(acc2) => emit_rows_spec(name, z, rows, yi + 1, colors, legend, env, acc2, mode),
        }
    }
}

/// The second pass over every queued layer, in queue order.
pub open spec fn emit_layers_spec(
    name: Seq<char>,
    layers: Seq<(usize, Seq<Seq<char>>)>,
    li: int,
    colors: Map<Seq<char>, Seq<char>>,
    legend: Map<Seq<char>, Seq<char>>,
    env: Map<Seq<char>, ValueV>,
    acc: Seq<VoxelV>,
    mode: Mode,
) -> Result<Seq<VoxelV>, EvalErrorV>
    decreases layers.len() - li,
{
    if li < 0 || li >= layers.len() {
        Ok(acc)
    } else {
        match emit_rows_spec(
            name,
            layers[li].0,
            layers[li].1,
            0,
            colors,
            legend,
            env,
            acc,
            mode,
        ) {
            Err(e) => Err(e),
            Ok(acc2) => emit_layers_spec(name, layers, li + 1, colors, legend, env, acc2, mode),
        }
    }
}

/// What expanding a model body means: the first pass collects metadata and
/// emits placement and loop voxels; the second resolves every queued layer
/// glyph. The result is the voxels of both passes, placements first.
pub open spec fn eval_model_body_spec(
    name: Seq<char>,
    body: Seq<AstV>,
    env: Map<Seq<char>, ValueV>,
    mode: Mode,
) -> Result<Seq<VoxelV>, EvalErrorV>
    decreases body, 1int, 0int,
{
    match body_pass1_spec(name, body, 0, env, body_init(), mode) {
        Err(e) => Err(e),
        Ok(st) => match emit_layers_spec(
            name,
            st.layers,
            0,
            st.colors,
            st.legend,
            env,
            st.voxels,
            mode,
        ) {
            Err(e) => Err(e),
            Ok(vs) => Ok(vs),
        },
    }
}

/// Whether a string starts with the `#` of a hex color literal.
fn starts_with_hash(s: &str) -> (r: bool)
    ensures
        r == (s@.len() > 0 && s@[0] == '#'),
{
    if s.unicode_len() == 0 {
        return false;
    }
    s.get_char(0) == '#'
}

/// The first seven characters of a string, or all of it when shorter.
fn take7(s: &String) -> (r: String)
    ensures
        r@ == if s@.len() > 7 {
            s@.subrange(0, 7)
        } else {
            s@
        },
{
    let cs = crate::strutil::chars_of(s.as_str());
    if cs.len() > 7 {
        let mut t: Vec<char> = Vec::new();
        let mut k: usize = 0;
        while k < 7
            invariant
                k <= 7,
                cs@.len() > 7,
                cs@ == s@,
                t@ == s@.subrange(0, k as int),
            decreases 7 - k,
        {
            let c = cs[k];
            t.push(c);
            proof {
                assert(t@ =~= s@.subrange(0, k + 1));
            }
            k = k + 1;
        }
        crate::strutil::string_from_chars(&t)
    } else {
        s.clone()
    }
}

/// Append the voxels of `src` to `dst`.
fn append_voxels(dst: Vec<Voxel>, src: Vec<Voxel>) -> (r: Vec<Voxel>)
    ensures
        voxels_view(r@) == voxels_view(dst@) + voxels_view(src@),
{
    let mut out = dst;
    let ghost base = out@;
    let mut k: usize = 0;
    proof {
        assert(src@.subrange(0, 0) =~= Seq::<Voxel>::empty());
        assert(voxels_view(Seq::<Voxel>::empty()) =~= Seq::<VoxelV>::empty());
        assert(voxels_view(base) + Seq::<VoxelV>::empty() =~= voxels_view(base));
    }
    while k < src.len()
        invariant
            k <= src@.len(),
            voxels_view(out@) == voxels_view(base) + voxels_view(src@.subrange(0, k as int)),
        decreases src@.len() - k,
    {
        let w = src[k].duplicate();
        let ghost pre = out@;
        out.push(w);
        proof {
            crate::types::lemma_voxels_view_push(pre, out@.last());
            crate::types::lemma_voxels_view_push(src@.subrange(0, k as int), src@[k as int]);
            assert(src@.subrange(0, k as int).push(src@[k as int]) =~= src@.subrange(0, k + 1));
            assert(voxels_view(base) + voxels_view(src@.subrange(0, k as int)).push(
                src@[k as int]@,
            ) =~= (voxels_view(base) + voxels_view(src@.subrange(0, k as int))).push(
                src@[k as int]@,
            ));
        }
        k = k + 1;
    }
    proof {
        assert(src@.subrange(0, src@.len() as int) =~= src@);
    }
    out
}

/// Resolve one glyph to its color, as `resolve_glyph_spec` describes.
fn resolve_glyph(
    name: &str,
    glyph: &String,
    colors: &StrMap,
    legend: &StrMap,
    env: &Env,
    mode: Mode,
) -> (r: Result<String, EvalError>)
    ensures
        ({
            let res = resolve_glyph_spec(name@, glyph@, colors@, legend@, env@, mode);
            match res {
                Ok(c) => r is Ok && r->Ok_0@ == c,
                Err(e) => r is Err && r->Err_0@ == e,
            }
        }),
{
    match legend.get(glyph.as_str()) {
        Some(atom) => {
            match env.get(atom.as_str()) {
                Some(Value::Atom { name: atom_name, props }) => {
                    match pairs_get(props, "color") {
                        Some(c0) => {
                            let builtins = default_colors();
                            match builtins.get(c0.as_str()) {
                                Some(h) => Ok(h.clone()),
                                None => {
                                    if matches!(mode, Mode::Strict) && !starts_with_hash(
                                        c0.as_str(),
                                    ) {
                                        Err(
                                            EvalError {
                                                kind: ErrorKind::UnknownColorName,
                                                model: name.to_owned(),
                                                subject: c0.clone(),
                                            },
                                        )
                                    } else {
                                        Ok(c0.clone())
                                    }
                                },
                            }
                        },
                        None => {
                            if matches!(mode, Mode::Strict) {
                                Err(
                                    EvalError {
                                        kind: ErrorKind::AtomWithoutColor,
                                        model: name.to_owned(),
                                        subject: atom.clone(),
                                    },
                                )
                            } else {
                                Ok("#888888".to_owned())
                            }
                        },
                    }
                },
                _ => {
                    if matches!(mode, Mode::Strict) {
                        Err(
                            EvalError {
                                kind: ErrorKind::UnknownAtom,
                                model: name.to_owned(),
                                subject: atom.clone(),
                            },
                        )
                    } else {
                        Ok("#888888".to_owned())
                    }
                },
            }
        },
        None => {
            match colors.get(glyph.as_str()) {
                Some(c) => Ok(c.clone()),
                None => {
                    if matches!(mode, Mode::Strict) {
                        Err(
                            EvalError {
                                kind: ErrorKind::UnknownGlyph,
                                model: name.to_owned(),
                                subject: glyph.clone(),
                            },
                        )
                    } else {
                        Ok(default_color_for_symbol(glyph.as_str()))
                    }
                },
            }
        },
    }
}

/// Emit the voxels of one row, as `emit_row_spec` describes, extending the
/// voxel list handed in.
#[verifier::rlimit(50)]
#[verifier::loop_isolation(false)]
fn emit_one_row(
    name: &str,
    z: usize,
    yi: usize,
    row_str: &String,
    colors: &StrMap,
    legend: &StrMap,
    env: &Env,
    out: &mut Vec<Voxel>,
    mode: Mode,
) -> (r: Result<(), EvalError>)
    ensures
        ({
            let res = emit_row_spec(
                name@,
                z,
                yi as int,
                row_str@,
                0,
                colors@,
                legend@,
                env@,
                voxels_view(old(out)@),
                mode,
            );
            match res {
                Ok(vs) => r is Ok && voxels_view(final(out)@) == vs,
                Err(e) => r is Err && r->Err_0@ == e,
            }
        }),
{
    let row_chars = crate::strutil::chars_of(row_str.as_str());
    let ghost row = row_str@;
    let ghost acc0 = voxels_view(out@);
    let mut xi: usize = 0;
    while xi < row_chars.len()
        invariant
            xi <= row_chars@.len(),
            row_chars@ == row,
            row == row_str@,
            emit_row_spec(name@, z, yi as int, row, 0, colors@, legend@, env@, acc0, mode)
                == emit_row_spec(
                name@,
                z,
                yi as int,
                row,
                xi as int,
                colors@,
                legend@,
                env@,
                voxels_view(out@),
                mode,
            ),
        decreases row_chars@.len() - xi,
    {
        let c = row_chars[xi];
        if c == '.' || c == ' ' {
            xi = xi + 1;
            continue ;
        }
        if matches!(mode, Mode::Strict) && (c as u32) >= 128 {
            let mut g: Vec<char> = Vec::new();
            g.push(c);
            proof {
                assert(g@ =~= seq![c]);
                assert(row[xi as int] == c);
                assert(emit_row_spec(
                    name@,
                    z,
                    yi as int,
                    row,
                    xi as int,
                    colors@,
                    legend@,
                    env@,
                    voxels_view(out@),
                    mode,
                ) == Err::<Seq<VoxelV>, EvalErrorV>(
                    EvalErrorV {
                        kind: ErrorKind::NonAsciiGlyph,
                        model: name@,
                        subject: seq![c],
                    },
                ));
            }
            let glyph = crate::strutil::string_from_chars(&g);
            let er = EvalError {
                kind: ErrorKind::NonAsciiGlyph,
                model: name.to_owned(),
                subject: glyph,
            };
            return Err(er);
        }
        let mut g: Vec<char> = Vec::new();
        g.push(c);
        proof {
            assert(g@ =~= seq![c]);
            assert(row[xi as int] == c);
        }
        let glyph = crate::strutil::string_from_chars(&g);
        match resolve_glyph(name, &glyph, colors, legend, env, mode) {
            Err(e) => {
                return Err(e);
            },
            Ok(color) => {
                if xi <= 0x7fff_ffffusize && yi <= 0x7fff_ffffusize && z <= 0x7fff_ffffusize {
                    let w = Voxel { x: xi as i32, y: yi as i32, z: z as i32, color };
                    let ghost pre = out@;
                    out.push(w);
                    proof {
                        crate::types::lemma_voxels_view_push(pre, out@.last());
                    }
                }
            },
        }
        xi = xi + 1;
    }
    proof {
        assert(emit_row_spec(
            name@,
            z,
            yi as int,
            row,
            row_chars@.len() as int,
            colors@,
            legend@,
            env@,
            voxels_view(out@),
            mode,
        ) == Ok::<Seq<VoxelV>, EvalErrorV>(voxels_view(out@)));
    }
    Ok(())
}

/// Emit the voxels of every queued layer, as `emit_layers_spec` describes,
/// extending `acc`.
#[verifier::rlimit(50)]
#[verifier::loop_isolation(false)]
pub fn emit_voxels(
    name: &str,
    layers: &Vec<(usize, Vec<String>)>,
    colors: &StrMap,
    legend: &StrMap,
    env: &Env,
    out: &mut Vec<Voxel>,
    mode: Mode,
) -> (r: Result<(), EvalError>)
    ensures
        ({
            let res = emit_layers_spec(
                name@,
                layers_view(layers@),
                0,
                colors@,
                legend@,
                env@,
                voxels_view(old(out)@),
                mode,
            );
            match res {
                Ok(vs) => r is Ok && voxels_view(final(out)@) == vs,
                Err(e) => r is Err && r->Err_0@ == e,
            }
        }),
{
    let ghost lv = layers_view(layers@);
    let ghost acc0 = voxels_view(out@);
    let mut li: usize = 0;
    while li < layers.len()
        invariant
            li <= layers@.len(),
            lv == layers_view(layers@),
            emit_layers_spec(name@, lv, 0, colors@, legend@, env@, acc0, mode)
                == emit_layers_spec(
                name@,
                lv,
                li as int,
                colors@,
                legend@,
                env@,
                voxels_view(out@),
                mode,
            ),
        decreases layers@.len() - li,
    {
        let z = layers[li].0;
        let rows = &layers[li].1;
        let ghost rows_acc0 = voxels_view(out@);
        proof {
            assert(lv[li as int] == (layers@[li as int].0, strings_view(layers@[li as int].1@)));
        }
        let mut yi: usize = 0;
        while yi < rows.len()
            invariant
                yi <= rows@.len(),
                lv == layers_view(layers@),
                li < layers@.len(),
                z == layers@[li as int].0,
                rows@ == layers@[li as int].1@,
                emit_rows_spec(
                    name@,
                    z,
                    strings_view(rows@),
                    0,
                    colors@,
                    legend@,
                    env@,
                    rows_acc0,
                    mode,
                ) == emit_rows_spec(
                    name@,
                    z,
                    strings_view(rows@),
                    yi as int,
                    colors@,
                    legend@,
                    env@,
                    voxels_view(out@),
                    mode,
                ),
            decreases rows@.len() - yi,
        {
            let ghost row = strings_view(rows@)[yi as int];
            proof {
                assert(row == rows@[yi as int]@);
            }
            match emit_one_row(name, z, yi, &rows[yi], colors, legend, env, out, mode) {
                Err(e) => {
                    return Err(e);
                },
                Ok(u) => {
                },
            }
            yi = yi + 1;
        }
        proof {
            assert(emit_rows_spec(
                name@,
                z,
                strings_view(rows@),
                rows@.len() as int,
                colors@,
                legend@,
                env@,
                voxels_view(out@),
                mode,
            ) == Ok::<Seq<VoxelV>, EvalErrorV>(voxels_view(out@)));
            assert(strings_view(rows@).len() == rows@.len());
        }
        li = li + 1;
    }
    proof {
        assert(lv.len() == layers@.len());
        assert(emit_layers_spec(
            name@,
            lv,
            layers@.len() as int,
            colors@,
            legend@,
            env@,
            voxels_view(out@),
            mode,
        ) == Ok::<Seq<VoxelV>, EvalErrorV>(voxels_view(out@)));
    }
    Ok(())
}

/// A numeric loop: expand the inner body once per iteration value, with the
/// loop variable bound in a copied scope, as `for_range_spec` describes.
#[verifier::loop_isolation(false)]
fn eval_for_range(
    name: &str,
    var: &String,
    inner: &Vec<AstNode>,
    env: &Env,
    start: i32,
    end: i32,
    mode: Mode,
) -> (r: Result<Vec<Voxel>, EvalError>)
    ensures
        ({
            let cnt: nat = if end > start {
                (end - start) as nat
            } else {
                0
            };
            let res = for_range_spec(
                name@,
                var@,
                asts_view(inner@),
                env@,
                start as int,
                cnt,
                Seq::empty(),
                mode,
            );
            match res {
                Ok(vs) => r is Ok && voxels_view(r->Ok_0@) == vs,
                Err(e) => r is Err && r->Err_0@ == e,
            }
        }),
    decreases inner@, 2int,
{
    let ghost cnt0: nat = if end > start {
        (end - start) as nat
    } else {
        0
    };
    let mut acc: Vec<Voxel> = Vec::new();
    proof {
        assert(voxels_view(acc@) =~= Seq::<VoxelV>::empty());
    }
    let mut i: i32 = start;
    while i < end
        invariant
            start <= i <= end || (i == start && end <= start),
            for_range_spec(
                name@,
                var@,
                asts_view(inner@),
                env@,
                start as int,
                cnt0,
                Seq::empty(),
                mode,
            ) == for_range_spec(
                name@,
                var@,
                asts_view(inner@),
                env@,
                i as int,
                (if end > i {
                    (end - i) as nat
                } else {
                    0
                }),
                voxels_view(acc@),
                mode,
            ),
        decreases end - i,
    {
        let mut local = env.duplicate();
        local.insert(var.clone(), Value::Number(i));
        proof {
            assert(local@ == env@.insert(var@, ValueV::Number(i)));
            assert((i as int) as i32 == i);
            assert(for_range_spec(
                name@,
                var@,
                asts_view(inner@),
                env@,
                i as int,
                (end - i) as nat,
                voxels_view(acc@),
                mode,
            ) == match eval_model_body_spec(name@, asts_view(inner@), local@, mode) {
                Ok(vs) => for_range_spec(
                    name@,
                    var@,
                    asts_view(inner@),
                    env@,
                    i + 1,
                    (end - i - 1) as nat,
                    voxels_view(acc@) + vs,
                    mode,
                ),
                Err(e) => Err(e),
            });
        }
        match eval_model_body(name, inner, &local, mode) {
            Err(e) => {
                return Err(e);
            },
            Ok(model) => {
                acc = append_voxels(acc, model.voxels);
            },
        }
        i = i + 1;
    }
    proof {
        assert(for_range_spec(
            name@,
            var@,
            asts_view(inner@),
            env@,
            i as int,
            0,
            voxels_view(acc@),
            mode,
        ) == Ok::<Seq<VoxelV>, EvalErrorV>(voxels_view(acc@)));
    }
    Ok(acc)
}

/// A paired-array loop: expand the inner body once per position of the
/// shorter array, as `for_each_spec` describes.
#[verifier::loop_isolation(false)]
fn eval_for_each(
    name: &str,
    var1: &String,
    var2: &String,
    inner: &Vec<AstNode>,
    env: &Env,
    vs1: &Vec<Value>,
    vs2: &Vec<Value>,
    mode: Mode,
) -> (r: Result<Vec<Voxel>, EvalError>)
    ensures
        ({
            let res = for_each_spec(
                name@,
                var1@,
                var2@,
                asts_view(inner@),
                env@,
                values_view(vs1@),
                values_view(vs2@),
                0,
                Seq::empty(),
                mode,
            );
            match res {
                Ok(vs) => r is Ok && voxels_view(r->Ok_0@) == vs,
                Err(e) => r is Err && r->Err_0@ == e,
            }
        }),
    decreases inner@, 2int,
{
    let mut acc: Vec<Voxel> = Vec::new();
    proof {
        assert(voxels_view(acc@) =~= Seq::<VoxelV>::empty());
        crate::types::lemma_values_view_len(vs1@);
        crate::types::lemma_values_view_len(vs2@);
    }
    let mut k: usize = 0;
    while k < vs1.len() && k < vs2.len()
        invariant
            k <= vs1@.len(),
            k <= vs2@.len(),
            for_each_spec(
                name@,
                var1@,
                var2@,
                asts_view(inner@),
                env@,
                values_view(vs1@),
                values_view(vs2@),
                0,
                Seq::empty(),
                mode,
            ) == for_each_spec(
                name@,
                var1@,
                var2@,
                asts_view(inner@),
                env@,
                values_view(vs1@),
                values_view(vs2@),
                k as int,
                voxels_view(acc@),
                mode,
            ),
        decreases vs1@.len() - k,
    {
        proof {
            crate::types::lemma_values_view_len(vs1@);
            crate::types::lemma_values_view_len(vs2@);
            crate::types::lemma_values_view_index(vs1@, k as int);
            crate::types::lemma_values_view_index(vs2@, k as int);
        }
        let a = value_to_string(&vs1[k]);
        let b = value_to_string(&vs2[k]);
        let mut local = env.duplicate();
        local.insert(var1.clone(), Value::Str(a));
        local.insert(var2.clone(), Value::Str(b));
        match eval_model_body(name, inner, &local, mode) {
            Err(e) => {
                return Err(e);
            },
            Ok(model) => {
                acc = append_voxels(acc, model.voxels);
            },
        }
        k = k + 1;
    }
    proof {
        crate::types::lemma_values_view_len(vs1@);
        crate::types::lemma_values_view_len(vs2@);
    }
    Ok(acc)
}

/// The first pass over a model body, as `body_pass1_spec` describes: the
/// color table, the legend, the queued layers, and the voxels emitted by
/// placements and loops.
#[verifier::loop_isolation(false)]
pub fn collect_model_metadata(
    name: &str,
    body: &Vec<AstNode>,
    env: &Env,
    mode: Mode,
) -> (r: Result<(StrMap, StrMap, Vec<(usize, Vec<String>)>, Vec<Voxel>), EvalError>)
    ensures
        ({
            let res = body_pass1_spec(name@, asts_view(body@), 0, env@, body_init(), mode);
            match res {
                Ok(st) => r is Ok && {
                    let out = r->Ok_0;
                    out.0@ == st.colors && out.1@ == st.legend && layers_view(out.2@) == st.layers
                        && voxels_view(out.3@) == st.voxels
                },
                Err(e) => r is Err && r->Err_0@ == e,
            }
        }),
    decreases body@, 0int,
{
    let mut colors = default_colors();
    let mut legend = StrMap::new();
    let mut layers: Vec<(usize, Vec<String>)> = Vec::new();
    let mut voxels: Vec<Voxel> = Vec::new();
    proof {
        assert(layers_view(layers@) =~= Seq::<(usize, Seq<Seq<char>>)>::empty());
        assert(voxels_view(voxels@) =~= Seq::<VoxelV>::empty());
        crate::ast::lemma_asts_view_len(body@);
    }
    let mut i: usize = 0;
    while i < body.len()
        invariant
            i <= body@.len(),
            asts_view(body@).len() == body@.len(),
            body_pass1_spec(name@, asts_view(body@), 0, env@, body_init(), mode)
                == body_pass1_spec(
                name@,
                asts_view(body@),
                i as int,
                env@,
                BodyState {
                    colors: colors@,
                    legend: legend@,
                    layers: layers_view(layers@),
                    voxels: voxels_view(voxels@),
                },
                mode,
            ),
        decreases body@.len() - i,
    {
        proof {
            crate::ast::lemma_asts_view_index(body@, i as int);
        }
        match &body[i] {
            AstNode::ColorDecl { symbol, color } => {
                let builtins = default_colors();
                let known = builtins.contains(color.as_str());
                let literal = starts_with_hash(color.as_str());
                if matches!(mode, Mode::Strict) && !known && !literal {
                    return Err(
                        EvalError {
                            kind: ErrorKind::UnknownColorName,
                            model: name.to_owned(),
                            subject: color.clone(),
                        },
                    );
                }
                let resolved = match builtins.get(color.as_str()) {
                    Some(h) => h.clone(),
                    None => color.clone(),
                };
                colors.insert(symbol.clone(), resolved);
            },
            AstNode::AddColor { symbol, color } => {
                let rn = chase_color_name(color, env);
                if starts_with_hash(rn.as_str()) {
                    let hex = take7(&rn);
                    colors.insert(symbol.clone(), hex);
                } else {
                    let builtins = default_colors();
                    match builtins.get(rn.as_str()) {
                        Some(h) => {
                            let hv = h.clone();
                            colors.insert(symbol.clone(), hv);
                        },
                        None => {
                            if matches!(mode, Mode::Strict) {
                                return Err(
                                    EvalError {
                                        kind: ErrorKind::UnknownColorName,
                                        model: name.to_owned(),
                                        subject: rn,
                                    },
                                );
                            }
                            colors.insert(symbol.clone(), rn);
                        },
                    }
                }
            },
            AstNode::LegendDecl { mappings } => {
                let mut k: usize = 0;
                let ghost legend0 = legend@;
                proof {
                    assert(pairs_view(mappings@).subrange(0, 0) =~= Seq::<
                        (Seq<char>, Seq<char>),
                    >::empty());
                }
                while k < mappings.len()
                    invariant
                        k <= mappings@.len(),
                        legend@ == insert_all(legend0, pairs_view(mappings@).subrange(0, k as int)),
                    decreases mappings@.len() - k,
                {
                    let key = mappings[k].0.clone();
                    let val = mappings[k].1.clone();
                    legend.insert(key, val);
                    proof {
                        let pre = pairs_view(mappings@).subrange(0, k as int);
                        let post = pairs_view(mappings@).subrange(0, k + 1);
                        assert(post.drop_last() =~= pre);
                        assert(post.last() == pairs_view(mappings@)[k as int]);
                    }
                    k = k + 1;
                }
                proof {
                    assert(pairs_view(mappings@).subrange(0, pairs_view(mappings@).len() as int)
                        =~= pairs_view(mappings@));
                    assert(pairs_view(mappings@).len() == mappings@.len());
                }
            },
            AstNode::LayerDecl { z, rows } => {
                let owned_rows = crate::ast::dup_strings(rows);
                let ghost pre = layers@;
                layers.push((*z, owned_rows));
                proof {
                    lemma_layers_view_push(pre, layers@.last());
                }
            },
            AstNode::AddLayer { x, y, z, symbol } => {
                match colors.get(symbol.as_str()) {
                    Some(c) => {
                        let w = Voxel { x: *x, y: *y, z: *z, color: c.clone() };
                        let ghost pre = voxels@;
                        voxels.push(w);
                        proof {
                            crate::types::lemma_voxels_view_push(pre, voxels@.last());
                        }
                    },
                    None => {
                        if matches!(mode, Mode::Strict) {
                            return Err(
                                EvalError {
                                    kind: ErrorKind::UnknownGlyph,
                                    model: name.to_owned(),
                                    subject: symbol.clone(),
                                },
                            );
                        }
                        let w = Voxel { x: *x, y: *y, z: *z, color: "#888888".to_owned() };
                        let ghost pre = voxels@;
                        voxels.push(w);
                        proof {
                            crate::types::lemma_voxels_view_push(pre, voxels@.last());
                        }
                    },
                }
            },
            AstNode::ForRange { var, start, end, body: inner } => {
                match eval_for_range(name, var, inner, env, *start, *end, mode) {
                    Err(e) => {
                        return Err(e);
                    },
                    Ok(vs) => {
                        voxels = append_voxels(voxels, vs);
                    },
                }
            },
            AstNode::ForLoop { var1, var2, iter1, iter2, body: inner } => {
                let a = env.get(iter1.as_str());
                let b = env.get(iter2.as_str());
                match (a, b) {
                    (Some(Value::Array(vs1)), Some(Value::Array(vs2))) => {
                        match eval_for_each(name, var1, var2, inner, env, vs1, vs2, mode) {
                            Err(e) => {
                                return Err(e);
                            },
                            Ok(vs) => {
                                voxels = append_voxels(voxels, vs);
                            },
                        }
                    },
                    _ => {},
                }
            },
            _ => {},
        }
        i = i + 1;
    }
    Ok((colors, legend, layers, voxels))
}

/// The names of the models of a sequence of instances, joined with
/// underscores: how a merged model is named.
pub open spec fn join_names(insts: Seq<InstanceV>) -> Seq<char>
    decreases insts.len(),
{
    if insts.len() == 0 {
        Seq::empty()
    } else if insts.len() == 1 {
        insts[0].model.name
    } else {
        join_names(insts.drop_last()) + seq!['_'] + insts.last().model.name
    }
}

/// An instance built from a model with the identity transform.
pub open spec fn fresh_instance(m: ModelV) -> InstanceV {
    InstanceV { model: m, transform: identity_transform() }
}

/// What instantiating a model body means: the body expands into a concrete
/// model, which is wrapped in a default-transform instance and appended to
/// the scene graph.
pub open spec fn instantiate_model_spec(
    name: Seq<char>,
    body: Seq<AstV>,
    env: Map<Seq<char>, ValueV>,
    scene: Seq<InstanceV>,
    mode: Mode,
) -> Result<(InstanceV, Seq<InstanceV>), EvalErrorV> {
    match eval_model_body_spec(name, body, env, mode) {
        Err(e) => Err(e),
        Ok(vs) => {
            let inst = fresh_instance(ModelV { name, voxels: vs });
            Ok((inst, scene.push(inst)))
        },
    }
}

/// What resolving a value to an instance means: an instance value directly,
/// a bound instance by name, or eager instantiation of a zero-parameter
/// model definition bound to that name; anything else resolves to nothing.
pub open spec fn resolve_to_instance_spec(
    val: ValueV,
    env: Map<Seq<char>, ValueV>,
    scene: Seq<InstanceV>,
    mode: Mode,
) -> Result<(Option<InstanceV>, Seq<InstanceV>), EvalErrorV> {
    match val {
        ValueV::Instance(inst) => Ok((Some(inst), scene)),
        ValueV::Str(name) => {
            if env.contains_key(name) {
                match env[name] {
                    ValueV::Instance(inst) => Ok((Some(inst), scene)),
                    ValueV::ModelDef { params, body } => {
                        if params.len() == 0 {
                            match instantiate_model_spec(name, body, env, scene, mode) {
                                Err(e) => Err(e),
                                Ok((inst, scene2)) => Ok((Some(inst), scene2)),
                            }
                        } else {
                            Ok((None, scene))
                        }
                    },
                    _ => Ok((None, scene)),
                }
            } else {
                Ok((None, scene))
            }
        },
        _ => Ok((None, scene)),
    }
}

/// What translation keyword arguments do to an instance: the integer values
/// bound to `x`, `y` and `z`, each defaulting to zero, are added to the
/// translation offsets; a new instance comes out, the original untouched.
/// The integer a keyword-argument map binds to a key, defaulting to zero.
pub open spec fn kv_num(kvs: Map<Seq<char>, ValueV>, key: Seq<char>) -> i32 {
    if kvs.contains_key(key) && kvs[key] is Number {
        kvs[key]->Number_0
    } else {
        0
    }
}

pub open spec fn apply_translation_spec(inst: InstanceV, kvs: Map<Seq<char>, ValueV>) -> InstanceV {
    InstanceV {
        model: inst.model,
        transform: crate::types::TransformV {
            dx: crate::geom::wadd(inst.transform.dx, kv_num(kvs, "x"@)),
            dy: crate::geom::wadd(inst.transform.dy, kv_num(kvs, "y"@)),
            dz: crate::geom::wadd(inst.transform.dz, kv_num(kvs, "z"@)),
            rotations: inst.transform.rotations,
        },
    }
}

/// What `merge(args...)` means, from argument `k` on with the instances
/// resolved so far: every argument that resolves to an instance contributes
/// its fully resolved voxels; the concatenation becomes a new model named
/// by joining the source names, wrapped in a fresh instance and appended.
/// If no argument resolves, the sentinel `merge_failed` comes back.
pub open spec fn eval_merge_spec(
    args: Seq<AstV>,
    k: int,
    env: Map<Seq<char>, ValueV>,
    scene: Seq<InstanceV>,
    insts: Seq<InstanceV>,
    mode: Mode,
) -> Result<(ValueV, Seq<InstanceV>), EvalErrorV>
    decreases args, 0int, args.len() - k,
{
    if k < 0 || k >= args.len() {
        if insts.len() == 0 {
            Ok((ValueV::Str("merge_failed"@), scene))
        } else {
            let m = ModelV { name: join_names(insts), voxels: crate::types::flatten_spec(insts) };
            let inst = fresh_instance(m);
            Ok((ValueV::Instance(inst), scene.push(inst)))
        }
    } else {
        match eval_expr_spec(args[k], env, scene, mode) {
            Err(e) => Err(e),
            Ok((val, scene1)) => match resolve_to_instance_spec(val, env, scene1, mode) {
                Err(e) => Err(e),
                Ok((opt, scene2)) => match opt {
                    Some(inst) => eval_merge_spec(args, k + 1, env, scene2, insts.push(inst), mode),
                    None => eval_merge_spec(args, k + 1, env, scene2, insts, mode),
                },
            },
        }
    }
}

/// What `translate(instance_expr, {x, y, z})` means: the first argument
/// resolves to an instance, the offsets are added to its transform, and a
/// new instance is appended, leaving the original intact. Anything else
/// yields the sentinel `translate_failed`.
pub open spec fn eval_translate_spec(
    args: Seq<AstV>,
    env: Map<Seq<char>, ValueV>,
    scene: Seq<InstanceV>,
    mode: Mode,
) -> Result<(ValueV, Seq<InstanceV>), EvalErrorV>
    decreases args, 0int, 0int,
{
    if args.len() != 2 {
        Ok((ValueV::Str("translate_failed"@), scene))
    } else {
        match eval_expr_spec(args[0], env, scene, mode) {
            Err(e) => Err(e),
            Ok((v0, s1)) => match eval_expr_spec(args[1], env, s1, mode) {
                Err(e) => Err(e),
                Ok((v1, s2)) => match resolve_to_instance_spec(v0, env, s2, mode) {
                    Err(e) => Err(e),
                    Ok((opt, s3)) => match (opt, v1) {
                        (Some(inst), ValueV::KvMap(kvs)) => {
                            let inst2 = apply_translation_spec(inst, kvs);
                            Ok((ValueV::Instance(inst2), s3.push(inst2)))
                        },
                        _ => Ok((ValueV::Str("translate_failed"@), s3)),
                    },
                },
            },
        }
    }
}

/// Parameter binding for a user model call: each parameter is bound
/// positionally to its evaluated argument, in a scope that grows as the
/// arguments are evaluated.
pub open spec fn bind_params_spec(
    params: Seq<Seq<char>>,
    args: Seq<AstV>,
    k: int,
    local: Map<Seq<char>, ValueV>,
    scene: Seq<InstanceV>,
    mode: Mode,
) -> Result<(Map<Seq<char>, ValueV>, Seq<InstanceV>), EvalErrorV>
    decreases args, 0int, args.len() - k,
{
    if k < 0 || k >= args.len() || k >= params.len() {
        Ok((local, scene))
    } else {
        match eval_expr_spec(args[k], local, scene, mode) {
            Err(e) => Err(e),
            Ok((val, scene1)) => bind_params_spec(
                params,
                args,
                k + 1,
                local.insert(params[k], val),
                scene1,
                mode,
            ),
        }
    }
}

/// What calling a user model means: its parameters are bound positionally
/// to the evaluated arguments in a copied scope, the body expands against
/// that scope, and the result is wrapped and appended as a new instance. A
/// name bound to no model definition yields the sentinel `call_` name.
pub open spec fn eval_model_call_spec(
    name: Seq<char>,
    args: Seq<AstV>,
    env: Map<Seq<char>, ValueV>,
    scene: Seq<InstanceV>,
    mode: Mode,
) -> Result<(ValueV, Seq<InstanceV>), EvalErrorV>
    decreases args, 1int, 0int,
{
    if env.contains_key(name) && env[name] is ModelDef {
        let params = env[name]->ModelDef_params;
        let body = env[name]->ModelDef_body;
        match bind_params_spec(params, args, 0, env, scene, mode) {
            Err(e) => Err(e),
            Ok((local, scene1)) => match eval_model_body_spec(name, body, local, mode) {
                Err(e) => Err(e),
                Ok(vs) => {
                    let inst = fresh_instance(ModelV { name, voxels: vs });
                    Ok((ValueV::Instance(inst), scene1.push(inst)))
                },
            },
        }
    } else {
        Ok((ValueV::Str("call_"@ + name), scene))
    }
}

/// Evaluation of the elements of an array literal, in order.
pub open spec fn eval_args_spec(
    elems: Seq<AstV>,
    k: int,
    env: Map<Seq<char>, ValueV>,
    scene: Seq<InstanceV>,
    acc: Seq<ValueV>,
    mode: Mode,
) -> Result<(Seq<ValueV>, Seq<InstanceV>), EvalErrorV>
    decreases elems, 0int, elems.len() - k,
{
    if k < 0 || k >= elems.len() {
        Ok((acc, scene))
    } else {
        match eval_expr_spec(elems[k], env, scene, mode) {
            Err(e) => Err(e),
            Ok((val, scene1)) => eval_args_spec(elems, k + 1, env, scene1, acc.push(val), mode),
        }
    }
}

/// Evaluation of keyword-argument pairs into a key-value map, in order.
pub open spec fn eval_kvs_spec(
    pairs: Seq<(Seq<char>, AstV)>,
    k: int,
    env: Map<Seq<char>, ValueV>,
    scene: Seq<InstanceV>,
    acc: Map<Seq<char>, ValueV>,
    mode: Mode,
) -> Result<(Map<Seq<char>, ValueV>, Seq<InstanceV>), EvalErrorV>
    decreases pairs, 0int, pairs.len() - k,
{
    if k < 0 || k >= pairs.len() {
        Ok((acc, scene))
    } else {
        match eval_expr_spec(pairs[k].1, env, scene, mode) {
            Err(e) => Err(e),
            Ok((val, scene1)) => eval_kvs_spec(
                pairs,
                k + 1,
                env,
                scene1,
                acc.insert(pairs[k].0, val),
                mode,
            ),
        }
    }
}

/// What evaluating an expression means: identifiers evaluate to their name
/// as a string, literals to themselves, arrays and keyword maps
/// elementwise; calls dispatch on the name to `merge`, `translate` or a
/// user model; statement nodes yield the sentinel `unhandled_expr`.
pub open spec fn eval_expr_spec(
    e: AstV,
    env: Map<Seq<char>, ValueV>,
    scene: Seq<InstanceV>,
    mode: Mode,
) -> Result<(ValueV, Seq<InstanceV>), EvalErrorV>
    decreases e, 2int, 0int,
{
    match e {
        AstV::Ident(name) => Ok((ValueV::Str(name), scene)),
        AstV::StringLit(s) => Ok((ValueV::Str(s), scene)),
        AstV::NumberLit(n) => Ok((ValueV::Number(n), scene)),
        AstV::ArrayLit(elems) => match eval_args_spec(elems, 0, env, scene, Seq::empty(), mode) {
            Err(e2) => Err(e2),
            Ok((vals, scene1)) => Ok((ValueV::Array(vals), scene1)),
        },
        AstV::KVArgs(pairs) => match eval_kvs_spec(pairs, 0, env, scene, Map::empty(), mode) {
            Err(e2) => Err(e2),
            Ok((m, scene1)) => Ok((ValueV::KvMap(m), scene1)),
        },
        AstV::FunctionCall { name, args } => {
            if name == "merge"@ {
                eval_merge_spec(args, 0, env, scene, Seq::empty(), mode)
            } else if name == "translate"@ {
                eval_translate_spec(args, env, scene, mode)
            } else {
                eval_model_call_spec(name, args, env, scene, mode)
            }
        },
        _ => Ok((ValueV::Str("unhandled_expr"@), scene)),
    }
}

/// Instantiate a model definition into a scene instance: the body expands
/// into a concrete model, wrapped in a default-transform instance and
/// appended to the scene graph, as `instantiate_model_spec` describes.
pub fn instantiate_model(
    name: &str,
    body: &Vec<AstNode>,
    env: &Env,
    scene: &mut SceneGraph,
    mode: Mode,
) -> (r: Result<Instance, EvalError>)
    ensures
        ({
            let res = instantiate_model_spec(
                name@,
                asts_view(body@),
                env@,
                old(scene)@,
                mode,
            );
            match res {
                Ok((inst, s)) => r is Ok && r->Ok_0@ == inst && final(scene)@ == s,
                Err(e) => r is Err && r->Err_0@ == e,
            }
        }),
{
    match eval_model_body(name, body, env, mode) {
        Err(e) => Err(e),
        Ok(model) => {
            let inst = Instance { model, transform: Transform3D::default() };
            let copy = inst.duplicate();
            let ghost pre = scene.instances@;
            scene.instances.push(copy);
            proof {
                crate::types::lemma_instances_view_push(pre, scene.instances@.last());
            }
            Ok(inst)
        },
    }
}

/// Try to resolve a value into an instance, as `resolve_to_instance_spec`
/// describes: an instance directly, a bound instance by name, or eager
/// instantiation of a zero-parameter model definition.
pub fn resolve_to_instance(
    val: &Value,
    env: &Env,
    scene: &mut SceneGraph,
    mode: Mode,
) -> (r: Result<Option<Instance>, EvalError>)
    ensures
        ({
            let res = resolve_to_instance_spec(val@, env@, old(scene)@, mode);
            match res {
                Ok((opt, s)) => r is Ok && final(scene)@ == s && (match (r->Ok_0, opt) {
                    (Some(i), Some(iv)) => i@ == iv,
                    (None, None) => true,
                    _ => false,
                }),
                Err(e) => r is Err && r->Err_0@ == e,
            }
        }),
{
    match val {
        Value::Instance(inst) => Ok(Some(inst.duplicate())),
        Value::Str(name) => {
            match env.get(name.as_str()) {
                Some(Value::Instance(inst)) => Ok(Some(inst.duplicate())),
                Some(Value::ModelDef { params, body }) => {
                    proof {
                        assert(strings_view(params@).len() == params@.len());
                    }
                    if params.len() == 0 {
                        match instantiate_model(name.as_str(), body, env, scene, mode) {
                            Err(e) => Err(e),
                            Ok(inst) => Ok(Some(inst)),
                        }
                    } else {
                        Ok(None)
                    }
                },
                _ => Ok(None),
            }
        },
        _ => Ok(None),
    }
}

/// Apply translation keyword arguments to an instance: a new instance with
/// the offsets added, as `apply_translation_spec` describes; the original
/// is untouched.
pub fn apply_translation(inst: &Instance, kvs: &Vec<(String, Value)>) -> (r: Instance)
    ensures
        r@ == apply_translation_spec(inst@, map_of_vals(val_pairs_view(kvs@))),
{
    let dx: i32 = match vals_get(kvs, "x") {
        Some(Value::Number(n)) => *n,
        _ => 0,
    };
    let dy: i32 = match vals_get(kvs, "y") {
        Some(Value::Number(n)) => *n,
        _ => 0,
    };
    let dz: i32 = match vals_get(kvs, "z") {
        Some(Value::Number(n)) => *n,
        _ => 0,
    };
    let mut out = inst.duplicate();
    out.transform.dx = out.transform.dx.wrapping_add(dx);
    out.transform.dy = out.transform.dy.wrapping_add(dy);
    out.transform.dz = out.transform.dz.wrapping_add(dz);
    out
}

/// The names of the instances' models joined with underscores.
pub fn join_names_exec(insts: &Vec<Instance>) -> (r: String)
    ensures
        r@ == join_names(crate::types::instances_view(insts@)),
{
    let ghost iv = crate::types::instances_view(insts@);
    if insts.len() == 0 {
        let s = String::new();
        proof {
            assert(s@ =~= join_names(iv));
        }
        return s;
    }
    let mut s = insts[0].model.name.clone();
    proof {
        assert(iv.subrange(0, 1).len() == 1);
        assert(iv.subrange(0, 1)[0] == iv[0]);
        assert(join_names(iv.subrange(0, 1)) == iv[0].model.name);
    }
    let mut j: usize = 1;
    while j < insts.len()
        invariant
            1 <= j <= insts@.len(),
            iv == crate::types::instances_view(insts@),
            iv.len() == insts@.len(),
            s@ == join_names(iv.subrange(0, j as int)),
        decreases insts@.len() - j,
    {
        s.append("_");
        s.append(insts[j].model.name.as_str());
        proof {
            reveal_strlit("_");
            assert("_"@ =~= seq!['_']);
            let pre = iv.subrange(0, j as int);
            let post = iv.subrange(0, j + 1);
            assert(post.drop_last() =~= pre);
            assert(post.last() == iv[j as int]);
            assert(post.len() >= 2);
            assert(s@ =~= join_names(post));
        }
        j = j + 1;
    }
    proof {
        assert(iv.subrange(0, iv.len() as int) =~= iv);
    }
    s
}

/// The fully resolved voxels of a list of instances, concatenated.
pub fn flatten_instances(insts: &Vec<Instance>) -> (r: Vec<Voxel>)
    ensures
        voxels_view(r@) == crate::types::flatten_spec(crate::types::instances_view(insts@)),
{
    let ghost iv = crate::types::instances_view(insts@);
    let mut out: Vec<Voxel> = Vec::new();
    proof {
        assert(iv.subrange(0, 0) =~= Seq::<InstanceV>::empty());
        assert(voxels_view(out@) =~= crate::types::flatten_spec(iv.subrange(0, 0)));
    }
    let mut j: usize = 0;
    while j < insts.len()
        invariant
            j <= insts@.len(),
            iv == crate::types::instances_view(insts@),
            iv.len() == insts@.len(),
            voxels_view(out@) == crate::types::flatten_spec(iv.subrange(0, j as int)),
        decreases insts@.len() - j,
    {
        let vs = crate::types::resolve_instance(&insts[j]);
        out = append_voxels(out, vs);
        proof {
            let pre = iv.subrange(0, j as int);
            let post = iv.subrange(0, j + 1);
            assert(post.drop_last() =~= pre);
            assert(post.last() == iv[j as int]);
        }
        j = j + 1;
    }
    proof {
        assert(iv.subrange(0, iv.len() as int) =~= iv);
    }
    out
}

#[verifier::loop_isolation(false)]
fn eval_merge_rec(
    args: &Vec<AstNode>,
    k: usize,
    env: &Env,
    scene: &mut SceneGraph,
    insts: Vec<Instance>,
    mode: Mode,
) -> (r: Result<Value, EvalError>)
    requires
        k <= args@.len(),
    ensures
        ({
            let res = eval_merge_spec(
                asts_view(args@),
                k as int,
                env@,
                old(scene)@,
                crate::types::instances_view(insts@),
                mode,
            );
            match res {
                Ok((v, s)) => r is Ok && r->Ok_0@ == v && final(scene)@ == s,
                Err(e) => r is Err && r->Err_0@ == e,
            }
        }),
    decreases *args, 0int, args@.len() - k,
{
    proof {
        crate::ast::lemma_asts_view_len(args@);
    }
    if k >= args.len() {
        if insts.len() == 0 {
            proof {
                assert(crate::types::instances_view(insts@).len() == 0);
            }
            return Ok(Value::Str("merge_failed".to_owned()));
        }
        let name = join_names_exec(&insts);
        let voxels = flatten_instances(&insts);
        let model = Model { name, voxels };
        let inst = Instance { model, transform: Transform3D::default() };
        let copy = inst.duplicate();
        let ghost pre = scene.instances@;
        scene.instances.push(copy);
        proof {
            crate::types::lemma_instances_view_push(pre, scene.instances@.last());
        }
        return Ok(Value::Instance(inst));
    }
    proof {
        crate::ast::lemma_asts_view_index(args@, k as int);
    }
    match eval_expr(&args[k], env, scene, mode) {
        Err(e) => Err(e),
        Ok(val) => {
            match resolve_to_instance(&val, env, scene, mode) {
                Err(e) => Err(e),
                Ok(opt) => {
                    match opt {
                        Some(inst) => {
                            let ghost pre = insts@;
                            let mut insts2 = insts;
                            insts2.push(inst);
                            proof {
                                crate::types::lemma_instances_view_push(pre, insts2@.last());
                            }
                            eval_merge_rec(args, k + 1, env, scene, insts2, mode)
                        },
                        None => eval_merge_rec(args, k + 1, env, scene, insts, mode),
                    }
                },
            }
        },
    }
}

/// The built-in `merge(args...)`: every argument that resolves to an
/// instance contributes its fully resolved voxels; the concatenation
/// becomes a new model named by joining the source names, appended to the
/// scene. If nothing resolves, the sentinel `merge_failed` comes back.
pub fn eval_merge(
    args: &Vec<AstNode>,
    env: &Env,
    scene: &mut SceneGraph,
    mode: Mode,
) -> (r: Result<Value, EvalError>)
    ensures
        ({
            let res = eval_merge_spec(
                asts_view(args@),
                0,
                env@,
                old(scene)@,
                Seq::empty(),
                mode,
            );
            match res {
                Ok((v, s)) => r is Ok && r->Ok_0@ == v && final(scene)@ == s,
                Err(e) => r is Err && r->Err_0@ == e,
            }
        }),
    decreases *args, 1int, 0int,
{
    let insts: Vec<Instance> = Vec::new();
    proof {
        assert(crate::types::instances_view(insts@) =~= Seq::<InstanceV>::empty());
    }
    eval_merge_rec(args, 0, env, scene, insts, mode)
}

/// The built-in `translate(instance_expr, {x, y, z})`: the first argument
/// resolves to an instance, the offsets are added to its transform, and a
/// new instance is appended, leaving the original intact.
pub fn eval_translate(
    args: &Vec<AstNode>,
    env: &Env,
    scene: &mut SceneGraph,
    mode: Mode,
) -> (r: Result<Value, EvalError>)
    ensures
        ({
            let res = eval_translate_spec(asts_view(args@), env@, old(scene)@, mode);
            match res {
                Ok((v, s)) => r is Ok && r->Ok_0@ == v && final(scene)@ == s,
                Err(e) => r is Err && r->Err_0@ == e,
            }
        }),
    decreases *args, 1int, 0int,
{
    proof {
        crate::ast::lemma_asts_view_len(args@);
    }
    if args.len() != 2 {
        return Ok(Value::Str("translate_failed".to_owned()));
    }
    proof {
        crate::ast::lemma_asts_view_index(args@, 0);
        crate::ast::lemma_asts_view_index(args@, 1);
    }
    let v0 = match eval_expr(&args[0], env, scene, mode) {
        Err(e) => {
            return Err(e);
        },
        Ok(v) => v,
    };
    let v1 = match eval_expr(&args[1], env, scene, mode) {
        Err(e) => {
            return Err(e);
        },
        Ok(v) => v,
    };
    let opt = match resolve_to_instance(&v0, env, scene, mode) {
        Err(e) => {
            return Err(e);
        },
        Ok(o) => o,
    };
    match (opt, &v1) {
        (Some(inst), Value::KvMap(kvs)) => {
            let inst2 = apply_translation(&inst, kvs);
            let copy = inst2.duplicate();
            let ghost pre = scene.instances@;
            scene.instances.push(copy);
            proof {
                crate::types::lemma_instances_view_push(pre, scene.instances@.last());
            }
            Ok(Value::Instance(inst2))
        },
        _ => Ok(Value::Str("translate_failed".to_owned())),
    }
}

/// Call a user model: parameters are bound positionally to the evaluated
/// arguments in a copied scope, the body expands against that scope, and
/// the result is wrapped and appended as a new instance.
#[verifier::loop_isolation(false)]
pub fn eval_model_call(
    name: &str,
    args: &Vec<AstNode>,
    env: &Env,
    scene: &mut SceneGraph,
    mode: Mode,
) -> (r: Result<Value, EvalError>)
    ensures
        ({
            let res = eval_model_call_spec(name@, asts_view(args@), env@, old(scene)@, mode);
            match res {
                Ok((v, s)) => r is Ok && r->Ok_0@ == v && final(scene)@ == s,
                Err(e) => r is Err && r->Err_0@ == e,
            }
        }),
    decreases *args, 1int, 0int,
{
    proof {
        crate::ast::lemma_asts_view_len(args@);
    }
    match env.get(name) {
        Some(Value::ModelDef { params, body }) => {
            let ghost pv = strings_view(params@);
            let ghost av = asts_view(args@);
            let mut local = env.duplicate();
            let mut k: usize = 0;
            proof {
                assert(pv.len() == params@.len());
            }
            while k < params.len() && k < args.len()
                invariant
                    k <= params@.len(),
                    k <= args@.len(),
                    bind_params_spec(pv, av, 0, env@, old(scene)@, mode) == bind_params_spec(
                        pv,
                        av,
                        k as int,
                        local@,
                        scene@,
                        mode,
                    ),
                decreases args@.len() - k,
            {
                proof {
                    crate::ast::lemma_asts_view_index(args@, k as int);
                }
                let ghost l0 = local@;
                let ghost s0 = scene@;
                let val = match eval_expr(&args[k], &local, scene, mode) {
                    Err(e) => {
                        return Err(e);
                    },
                    Ok(v) => v,
                };
                let ghost valv = val@;
                local.insert(params[k].clone(), val);
                proof {
                    assert(local@ == l0.insert(pv[k as int], valv));
                    assert(bind_params_spec(pv, av, k as int, l0, s0, mode) == bind_params_spec(
                        pv,
                        av,
                        k + 1,
                        local@,
                        scene@,
                        mode,
                    ));
                }
                k = k + 1;
            }
            proof {
                assert(bind_params_spec(pv, av, k as int, local@, scene@, mode) == Ok::<
                    (Map<Seq<char>, ValueV>, Seq<InstanceV>),
                    EvalErrorV,
                >((local@, scene@)));
            }
            match eval_model_body(name, body, &local, mode) {
                Err(e) => Err(e),
                Ok(model) => {
                    let inst = Instance { model, transform: Transform3D::default() };
                    let copy = inst.duplicate();
                    let ghost pre = scene.instances@;
                    scene.instances.push(copy);
                    proof {
                        crate::types::lemma_instances_view_push(pre, scene.instances@.last());
                    }
                    Ok(Value::Instance(inst))
                },
            }
        },
        _ => {
            let s = "call_".to_owned().concat(name);
            Ok(Value::Str(s))
        },
    }
}

fn eval_args_rec(
    elems: &Vec<AstNode>,
    k: usize,
    env: &Env,
    scene: &mut SceneGraph,
    acc: Vec<Value>,
    mode: Mode,
) -> (r: Result<Vec<Value>, EvalError>)
    requires
        k <= elems@.len(),
    ensures
        ({
            let res = eval_args_spec(
                asts_view(elems@),
                k as int,
                env@,
                old(scene)@,
                values_view(acc@),
                mode,
            );
            match res {
                Ok((vals, s)) => r is Ok && values_view(r->Ok_0@) == vals && final(scene)@ == s,
                Err(e) => r is Err && r->Err_0@ == e,
            }
        }),
    decreases *elems, 0int, elems@.len() - k,
{
    proof {
        crate::ast::lemma_asts_view_len(elems@);
    }
    if k >= elems.len() {
        return Ok(acc);
    }
    proof {
        crate::ast::lemma_asts_view_index(elems@, k as int);
    }
    match eval_expr(&elems[k], env, scene, mode) {
        Err(e) => Err(e),
        Ok(val) => {
            let ghost pre = acc@;
            let mut acc2 = acc;
            acc2.push(val);
            proof {
                crate::types::lemma_values_view_push(pre, acc2@.last());
            }
            eval_args_rec(elems, k + 1, env, scene, acc2, mode)
        },
    }
}

fn eval_kvs_rec(
    pairs: &Vec<(String, AstNode)>,
    k: usize,
    env: &Env,
    scene: &mut SceneGraph,
    acc: Vec<(String, Value)>,
    mode: Mode,
) -> (r: Result<Vec<(String, Value)>, EvalError>)
    requires
        k <= pairs@.len(),
    ensures
        ({
            let res = eval_kvs_spec(
                crate::ast::kvs_view(pairs@),
                k as int,
                env@,
                old(scene)@,
                map_of_vals(val_pairs_view(acc@)),
                mode,
            );
            match res {
                Ok((m, s)) => r is Ok && map_of_vals(val_pairs_view(r->Ok_0@)) == m
                    && final(scene)@ == s,
                Err(e) => r is Err && r->Err_0@ == e,
            }
        }),
    decreases *pairs, 0int, pairs@.len() - k,
{
    proof {
        crate::ast::lemma_kvs_view_len(pairs@);
    }
    if k >= pairs.len() {
        return Ok(acc);
    }
    proof {
        crate::ast::lemma_kvs_view_index(pairs@, k as int);
    }
    match eval_expr(&pairs[k].1, env, scene, mode) {
        Err(e) => Err(e),
        Ok(val) => {
            let key = pairs[k].0.clone();
            let ghost prev = acc@;
            let ghost keyv = key@;
            let ghost valv = val@;
            let mut acc2 = acc;
            acc2.push((key, val));
            proof {
                crate::types::lemma_map_of_vals_snoc(acc2@);
                assert(acc2@.drop_last() =~= prev);
                assert(acc2@.last().0@ == keyv && acc2@.last().1@ == valv);
            }
            eval_kvs_rec(pairs, k + 1, env, scene, acc2, mode)
        },
    }
}

/// Evaluate a single expression into a value, as `eval_expr_spec`
/// describes: instances produced along the way are appended to the scene.
pub fn eval_expr(
    expr: &AstNode,
    env: &Env,
    scene: &mut SceneGraph,
    mode: Mode,
) -> (r: Result<Value, EvalError>)
    ensures
        ({
            let res = eval_expr_spec(expr@, env@, old(scene)@, mode);
            match res {
                Ok((v, s)) => r is Ok && r->Ok_0@ == v && final(scene)@ == s,
                Err(e) => r is Err && r->Err_0@ == e,
            }
        }),
    decreases *expr, 2int, 0int,
{
    match expr {
        AstNode::Ident(name) => Ok(Value::Str(name.clone())),
        AstNode::StringLit(s) => Ok(Value::Str(s.clone())),
        AstNode::NumberLit(n) => Ok(Value::Number(*n)),
        AstNode::ArrayLit(elems) => {
            let acc: Vec<Value> = Vec::new();
            proof {
                assert(values_view(acc@) =~= Seq::<ValueV>::empty());
            }
            match eval_args_rec(elems, 0, env, scene, acc, mode) {
                Err(e) => Err(e),
                Ok(vals) => Ok(Value::Array(vals)),
            }
        },
        AstNode::KVArgs(pairs) => {
            let acc: Vec<(String, Value)> = Vec::new();
            proof {
                assert(val_pairs_view(acc@) =~= Seq::<(Seq<char>, ValueV)>::empty());
            }
            match eval_kvs_rec(pairs, 0, env, scene, acc, mode) {
                Err(e) => Err(e),
                Ok(out) => Ok(Value::KvMap(out)),
            }
        },
        AstNode::FunctionCall { name, args } => {
            if str_eq(name.as_str(), "merge") {
                eval_merge(args, env, scene, mode)
            } else if str_eq(name.as_str(), "translate") {
                eval_translate(args, env, scene, mode)
            } else {
                eval_model_call(name.as_str(), args, env, scene, mode)
            }
        },
        _ => Ok(Value::Str("unhandled_expr".to_owned())),
    }
}

/// Compile a model body into a concrete model, as `eval_model_body_spec`
/// describes: metadata and placements first, then every queued layer.
pub fn eval_model_body(
    model_name: &str,
    body: &Vec<AstNode>,
    env: &Env,
    mode: Mode,
) -> (r: Result<Model, EvalError>)
    ensures
        ({
            let res = eval_model_body_spec(model_name@, asts_view(body@), env@, mode);
            match res {
                Ok(vs) => r is Ok && r->Ok_0@.name == model_name@ && r->Ok_0@.voxels == vs,
                Err(e) => r is Err && r->Err_0@ == e,
            }
        }),
    decreases body@, 1int,
{
    match collect_model_metadata(model_name, body, env, mode) {
        Err(e) => Err(e),
        Ok((colors, legend, layers, voxels)) => {
            let mut vs = voxels;
            match emit_voxels(model_name, &layers, &colors, &legend, env, &mut vs, mode) {
                Err(e) => Err(e),
                Ok(u) => Ok(Model { name: model_name.to_owned(), voxels: vs }),
            }
        },
    }
}

/// What executing the top-level statements from `i` on means, in document
/// order against one environment and one scene graph: atom and model
/// declarations bind values; an assignment evaluates its expression and
/// eagerly instantiates a zero-parameter model referenced by name; a bare
/// identifier naming such a model instantiates it as a side effect; print
/// statements append to the log.
pub open spec fn eval_stmts_spec(
    stmts: Seq<AstV>,
    i: int,
    env: Map<Seq<char>, ValueV>,
    scene: Seq<InstanceV>,
    log: Seq<Seq<char>>,
    mode: Mode,
) -> Result<(Seq<InstanceV>, Seq<Seq<char>>), EvalErrorV>
    decreases stmts.len() - i,
{
    if i < 0 || i >= stmts.len() {
        Ok((scene, log))
    } else {
        match stmts[i] {
            AstV::AtomDecl { name, props } => eval_stmts_spec(
                stmts,
                i + 1,
                env.insert(name, ValueV::Atom { name, props: map_of_pairs(props) }),
                scene,
                log,
                mode,
            ),
            AstV::VoxelDecl { name, params, body } => eval_stmts_spec(
                stmts,
                i + 1,
                env.insert(name, ValueV::ModelDef { params, body }),
                scene,
                log,
                mode,
            ),
            AstV::Assignment { name, expr } => {
                match eval_expr_spec(*expr, env, scene, mode) {
                    Err(e) => Err(e),
                    Ok((val, s1)) => {
                        if val is Str && env.contains_key(val->Str_0) && env[val->Str_0]
                            is ModelDef && env[val->Str_0]->ModelDef_params.len() == 0 {
                            let mname = val->Str_0;
                            let mbody = env[mname]->ModelDef_body;
                            match eval_model_body_spec(mname, mbody, env, mode) {
                                Err(e) => Err(e),
                                Ok(vs) => {
                                    let inst = fresh_instance(
                                        ModelV { name: mname, voxels: vs },
                                    );
                                    eval_stmts_spec(
                                        stmts,
                                        i + 1,
                                        env.insert(name, ValueV::Instance(inst)),
                                        s1.push(inst),
                                        log,
                                        mode,
                                    )
                                },
                            }
                        } else {
                            eval_stmts_spec(stmts, i + 1, env.insert(name, val), s1, log, mode)
                        }
                    },
                }
            },
            AstV::Print { target } => {
                match target {
                    Some(var) => {
                        let msg = if env.contains_key(var) {
                            var + " = "@ + value_to_string_spec(env[var])
                        } else {
                            "unknown identifier "@ + var
                        };
                        eval_stmts_spec(stmts, i + 1, env, scene, log.push(msg), mode)
                    },
                    None => {
                        let msg = "scene has "@ + crate::strutil::nat_dec_spec(scene.len() as int)
                            + " instances"@;
                        eval_stmts_spec(stmts, i + 1, env, scene, log.push(msg), mode)
                    },
                }
            },
            AstV::Ident(id) => {
                if env.contains_key(id) && env[id] is ModelDef && env[id]->ModelDef_params.len()
                    == 0 {
                    let mbody = env[id]->ModelDef_body;
                    match eval_model_body_spec(id, mbody, env, mode) {
                        Err(e) => Err(e),
                        Ok(vs) => {
                            let inst = fresh_instance(ModelV { name: id, voxels: vs });
                            eval_stmts_spec(
                                stmts,
                                i + 1,
                                env,
                                scene.push(inst),
                                log.push("instantiated "@ + id),
                                mode,
                            )
                        },
                    }
                } else {
                    eval_stmts_spec(stmts, i + 1, env, scene, log, mode)
                }
            },
            _ => eval_stmts_spec(stmts, i + 1, env, scene, log, mode),
        }
    }
}

/// Permissive glyph resolution always succeeds.
pub proof fn lemma_resolve_glyph_permissive(
    name: Seq<char>,
    glyph: Seq<char>,
    colors: Map<Seq<char>, Seq<char>>,
    legend: Map<Seq<char>, Seq<char>>,
    env: Map<Seq<char>, ValueV>,
)
    ensures
        resolve_glyph_spec(name, glyph, colors, legend, env, Mode::Permissive) is Ok,
{
}

/// Permissive row emission always succeeds.
pub proof fn lemma_emit_row_permissive(
    name: Seq<char>,
    z: usize,
    y: int,
    row: Seq<char>,
    xi: int,
    colors: Map<Seq<char>, Seq<char>>,
    legend: Map<Seq<char>, Seq<char>>,
    env: Map<Seq<char>, ValueV>,
    acc: Seq<VoxelV>,
)
    ensures
        emit_row_spec(name, z, y, row, xi, colors, legend, env, acc, Mode::Permissive) is Ok,
    decreases row.len() - xi,
{
    if 0 <= xi < row.len() {
        let c = row[xi];
        if c == '.' || c == ' ' {
            lemma_emit_row_permissive(name, z, y, row, xi + 1, colors, legend, env, acc);
        } else {
            lemma_resolve_glyph_permissive(name, seq![c], colors, legend, env);
            let color = resolve_glyph_spec(
                name,
                seq![c],
                colors,
                legend,
                env,
                Mode::Permissive,
            )->Ok_0;
            let acc2 = if xi <= i32::MAX && 0 <= y <= i32::MAX && z <= i32::MAX {
                acc.push(VoxelV { x: xi as i32, y: y as i32, z: z as i32, color })
            } else {
                acc
            };
            lemma_emit_row_permissive(name, z, y, row, xi + 1, colors, legend, env, acc2);
        }
    }
}

/// Permissive layer emission always succeeds.
pub proof fn lemma_emit_rows_permissive(
    name: Seq<char>,
    z: usize,
    rows: Seq<Seq<char>>,
    yi: int,
    colors: Map<Seq<char>, Seq<char>>,
    legend: Map<Seq<char>, Seq<char>>,
    env: Map<Seq<char>, ValueV>,
    acc: Seq<VoxelV>,
)
    ensures
        emit_rows_spec(name, z, rows, yi, colors, legend, env, acc, Mode::Permissive) is Ok,
    decreases rows.len() - yi,
{
    if 0 <= yi < rows.len() {
        lemma_emit_row_permissive(name, z, yi, rows[yi], 0, colors, legend, env, acc);
        let acc2 = emit_row_spec(
            name,
            z,
            yi,
            rows[yi],
            0,
            colors,
            legend,
            env,
            acc,
            Mode::Permissive,
        )->Ok_0;
        lemma_emit_rows_permissive(name, z, rows, yi + 1, colors, legend, env, acc2);
    }
}

/// Permissive emission of every layer always succeeds.
pub proof fn lemma_emit_layers_permissive(
    name: Seq<char>,
    layers: Seq<(usize, Seq<Seq<char>>)>,
    li: int,
    colors: Map<Seq<char>, Seq<char>>,
    legend: Map<Seq<char>, Seq<char>>,
    env: Map<Seq<char>, ValueV>,
    acc: Seq<VoxelV>,
)
    ensures
        emit_layers_spec(name, layers, li, colors, legend, env, acc, Mode::Permissive) is Ok,
    decreases layers.len() - li,
{
    if 0 <= li < layers.len() {
        lemma_emit_rows_permissive(name, layers[li].0, layers[li].1, 0, colors, legend, env, acc);
        let acc2 = emit_rows_spec(
            name,
            layers[li].0,
            layers[li].1,
            0,
            colors,
            legend,
            env,
            acc,
            Mode::Permissive,
        )->Ok_0;
        lemma_emit_layers_permissive(name, layers, li + 1, colors, legend, env, acc2);
    }
}

/// The permissive first pass always succeeds.
pub proof fn lemma_pass1_permissive(
    name: Seq<char>,
    body: Seq<AstV>,
    i: int,
    env: Map<Seq<char>, ValueV>,
    st: BodyState,
)
    ensures
        body_pass1_spec(name, body, i, env, st, Mode::Permissive) is Ok,
    decreases body, 0int, body.len() - i,
{
    if 0 <= i < body.len() {
        match body[i] {
            AstV::ColorDecl { symbol, color } => {
                lemma_pass1_permissive(
                    name,
                    body,
                    i + 1,
                    env,
                    BodyState {
                        colors: st.colors.insert(symbol, builtin_or_literal(color)),
                        ..st
                    },
                );
            },
            AstV::AddColor { symbol, color } => {
                let rn = chase_spec(color, env, Set::empty(), chase_fuel());
                if rn.len() > 0 && rn[0] == '#' {
                    let hex = if rn.len() > 7 {
                        rn.subrange(0, 7)
                    } else {
                        rn
                    };
                    lemma_pass1_permissive(
                        name,
                        body,
                        i + 1,
                        env,
                        BodyState { colors: st.colors.insert(symbol, hex), ..st },
                    );
                } else {
                    lemma_pass1_permissive(
                        name,
                        body,
                        i + 1,
                        env,
                        BodyState {
                            colors: st.colors.insert(symbol, builtin_or_literal(rn)),
                            ..st
                        },
                    );
                }
            },
            AstV::LegendDecl { mappings } => {
                lemma_pass1_permissive(
                    name,
                    body,
                    i + 1,
                    env,
                    BodyState { legend: insert_all(st.legend, mappings), ..st },
                );
            },
            AstV::LayerDecl { z, rows } => {
                lemma_pass1_permissive(
                    name,
                    body,
                    i + 1,
                    env,
                    BodyState { layers: st.layers.push((z, rows)), ..st },
                );
            },
            AstV::AddLayer { x, y, z, symbol } => {
                let color = if st.colors.contains_key(symbol) {
                    st.colors[symbol]
                } else {
                    "#888888"@
                };
                lemma_pass1_permissive(
                    name,
                    body,
                    i + 1,
                    env,
                    BodyState { voxels: st.voxels.push(VoxelV { x, y, z, color }), ..st },
                );
            },
            AstV::ForRange { var, start, end, body: inner } => {
                let cnt: nat = if end > start {
                    (end - start) as nat
                } else {
                    0
                };
                lemma_for_range_permissive(name, var, inner, env, start as int, cnt, Seq::empty());
                let vs = for_range_spec(
                    name,
                    var,
                    inner,
                    env,
                    start as int,
                    cnt,
                    Seq::empty(),
                    Mode::Permissive,
                )->Ok_0;
                lemma_pass1_permissive(
                    name,
                    body,
                    i + 1,
                    env,
                    BodyState { voxels: st.voxels + vs, ..st },
                );
            },
            AstV::ForLoop { var1, var2, iter1, iter2, body: inner } => {
                if env.contains_key(iter1) && env.contains_key(iter2) && env[iter1] is Array
                    && env[iter2] is Array {
                    let vs1 = env[iter1]->Array_0;
                    let vs2 = env[iter2]->Array_0;
                    lemma_for_each_permissive(
                        name,
                        var1,
                        var2,
                        inner,
                        env,
                        vs1,
                        vs2,
                        0,
                        Seq::empty(),
                    );
                    let vs = for_each_spec(
                        name,
                        var1,
                        var2,
                        inner,
                        env,
                        vs1,
                        vs2,
                        0,
                        Seq::empty(),
                        Mode::Permissive,
                    )->Ok_0;
                    lemma_pass1_permissive(
                        name,
                        body,
                        i + 1,
                        env,
                        BodyState { voxels: st.voxels + vs, ..st },
                    );
                } else {
                    lemma_pass1_permissive(name, body, i + 1, env, st);
                }
            },
            _ => {
                lemma_pass1_permissive(name, body, i + 1, env, st);
            },
        }
    }
}

/// Permissive numeric loops always succeed.
pub proof fn lemma_for_range_permissive(
    name: Seq<char>,
    var: Seq<char>,
    inner: Seq<AstV>,
    env: Map<Seq<char>, ValueV>,
    cur: int,
    cnt: nat,
    acc: Seq<VoxelV>,
)
    ensures
        for_range_spec(name, var, inner, env, cur, cnt, acc, Mode::Permissive) is Ok,
    decreases inner, 2int, cnt,
{
    if cnt > 0 {
        let env2 = env.insert(var, ValueV::Number(cur as i32));
        lemma_model_body_permissive(name, inner, env2);
        let vs = eval_model_body_spec(name, inner, env2, Mode::Permissive)->Ok_0;
        lemma_for_range_permissive(name, var, inner, env, cur + 1, (cnt - 1) as nat, acc + vs);
    }
}

/// Permissive paired-array loops always succeed.
pub proof fn lemma_for_each_permissive(
    name: Seq<char>,
    var1: Seq<char>,
    var2: Seq<char>,
    inner: Seq<AstV>,
    env: Map<Seq<char>, ValueV>,
    vs1: Seq<ValueV>,
    vs2: Seq<ValueV>,
    k: int,
    acc: Seq<VoxelV>,
)
    ensures
        for_each_spec(name, var1, var2, inner, env, vs1, vs2, k, acc, Mode::Permissive) is Ok,
    decreases inner, 2int, vs1.len() - k,
{
    if 0 <= k < vs1.len() && k < vs2.len() {
        let env2 = env.insert(var1, ValueV::Str(value_to_string_spec(vs1[k]))).insert(
            var2,
            ValueV::Str(value_to_string_spec(vs2[k])),
        );
        lemma_model_body_permissive(name, inner, env2);
        let vs = eval_model_body_spec(name, inner, env2, Mode::Permissive)->Ok_0;
        lemma_for_each_permissive(name, var1, var2, inner, env, vs1, vs2, k + 1, acc + vs);
    }
}

/// Permissive model-body expansion always succeeds: this is the whole of
/// the permissive policy, which substitutes defaults and never stops.
pub proof fn lemma_model_body_permissive(
    name: Seq<char>,
    body: Seq<AstV>,
    env: Map<Seq<char>, ValueV>,
)
    ensures
        eval_model_body_spec(name, body, env, Mode::Permissive) is Ok,
    decreases body, 1int, 0int,
{
    lemma_pass1_permissive(name, body, 0, env, body_init());
    let st = body_pass1_spec(name, body, 0, env, body_init(), Mode::Permissive)->Ok_0;
    lemma_emit_layers_permissive(name, st.layers, 0, st.colors, st.legend, env, st.voxels);
}

/// Permissive instantiation always succeeds.
pub proof fn lemma_instantiate_permissive(
    name: Seq<char>,
    body: Seq<AstV>,
    env: Map<Seq<char>, ValueV>,
    scene: Seq<InstanceV>,
)
    ensures
        instantiate_model_spec(name, body, env, scene, Mode::Permissive) is Ok,
{
    lemma_model_body_permissive(name, body, env);
}

/// Permissive resolution to an instance always succeeds.
pub proof fn lemma_resolve_permissive(
    val: ValueV,
    env: Map<Seq<char>, ValueV>,
    scene: Seq<InstanceV>,
)
    ensures
        resolve_to_instance_spec(val, env, scene, Mode::Permissive) is Ok,
{
    match val {
        ValueV::Str(name) => {
            if env.contains_key(name) {
                match env[name] {
                    ValueV::ModelDef { params, body } => {
                        if params.len() == 0 {
                            lemma_instantiate_permissive(name, body, env, scene);
                        }
                    },
                    _ => {},
                }
            }
        },
        _ => {},
    }
}

/// Permissive expression evaluation always succeeds.
pub proof fn lemma_eval_expr_permissive(
    e: AstV,
    env: Map<Seq<char>, ValueV>,
    scene: Seq<InstanceV>,
)
    ensures
        eval_expr_spec(e, env, scene, Mode::Permissive) is Ok,
    decreases e, 2int, 0int,
{
    match e {
        AstV::ArrayLit(elems) => {
            lemma_eval_args_permissive(elems, 0, env, scene, Seq::empty());
        },
        AstV::KVArgs(pairs) => {
            lemma_eval_kvs_permissive(pairs, 0, env, scene, Map::empty());
        },
        AstV::FunctionCall { name, args } => {
            if name == "merge"@ {
                lemma_eval_merge_permissive(args, 0, env, scene, Seq::empty());
            } else if name == "translate"@ {
                lemma_eval_translate_permissive(args, env, scene);
            } else {
                lemma_eval_model_call_permissive(name, args, env, scene);
            }
        },
        _ => {},
    }
}

/// Permissive array evaluation always succeeds.
pub proof fn lemma_eval_args_permissive(
    elems: Seq<AstV>,
    k: int,
    env: Map<Seq<char>, ValueV>,
    scene: Seq<InstanceV>,
    acc: Seq<ValueV>,
)
    ensures
        eval_args_spec(elems, k, env, scene, acc, Mode::Permissive) is Ok,
    decreases elems, 0int, elems.len() - k,
{
    if 0 <= k < elems.len() {
        lemma_eval_expr_permissive(elems[k], env, scene);
        let (val, scene1) = eval_expr_spec(elems[k], env, scene, Mode::Permissive)->Ok_0;
        lemma_eval_args_permissive(elems, k + 1, env, scene1, acc.push(val));
    }
}

/// Permissive keyword-argument evaluation always succeeds.
pub proof fn lemma_eval_kvs_permissive(
    pairs: Seq<(Seq<char>, AstV)>,
    k: int,
    env: Map<Seq<char>, ValueV>,
    scene: Seq<InstanceV>,
    acc: Map<Seq<char>, ValueV>,
)
    ensures
        eval_kvs_spec(pairs, k, env, scene, acc, Mode::Permissive) is Ok,
    decreases pairs, 0int, pairs.len() - k,
{
    if 0 <= k < pairs.len() {
        lemma_eval_expr_permissive(pairs[k].1, env, scene);
        let (val, scene1) = eval_expr_spec(pairs[k].1, env, scene, Mode::Permissive)->Ok_0;
        lemma_eval_kvs_permissive(pairs, k + 1, env, scene1, acc.insert(pairs[k].0, val));
    }
}

/// Permissive merging always succeeds.
pub proof fn lemma_eval_merge_permissive(
    args: Seq<AstV>,
    k: int,
    env: Map<Seq<char>, ValueV>,
    scene: Seq<InstanceV>,
    insts: Seq<InstanceV>,
)
    ensures
        eval_merge_spec(args, k, env, scene, insts, Mode::Permissive) is Ok,
    decreases args, 0int, args.len() - k,
{
    if 0 <= k < args.len() {
        lemma_eval_expr_permissive(args[k], env, scene);
        let (val, scene1) = eval_expr_spec(args[k], env, scene, Mode::Permissive)->Ok_0;
        lemma_resolve_permissive(val, env, scene1);
        let (opt, scene2) = resolve_to_instance_spec(val, env, scene1, Mode::Permissive)->Ok_0;
        match opt {
            Some(inst) => {
                lemma_eval_merge_permissive(args, k + 1, env, scene2, insts.push(inst));
            },
            None => {
                lemma_eval_merge_permissive(args, k + 1, env, scene2, insts);
            },
        }
    }
}

/// Permissive translation always succeeds.
pub proof fn lemma_eval_translate_permissive(
    args: Seq<AstV>,
    env: Map<Seq<char>, ValueV>,
    scene: Seq<InstanceV>,
)
    ensures
        eval_translate_spec(args, env, scene, Mode::Permissive) is Ok,
    decreases args, 0int, 0int,
{
    if args.len() == 2 {
        lemma_eval_expr_permissive(args[0], env, scene);
        let (v0, s1) = eval_expr_spec(args[0], env, scene, Mode::Permissive)->Ok_0;
        lemma_eval_expr_permissive(args[1], env, s1);
        let (v1, s2) = eval_expr_spec(args[1], env, s1, Mode::Permissive)->Ok_0;
        lemma_resolve_permissive(v0, env, s2);
    }
}

/// Permissive user-model calls always succeed.
pub proof fn lemma_eval_model_call_permissive(
    name: Seq<char>,
    args: Seq<AstV>,
    env: Map<Seq<char>, ValueV>,
    scene: Seq<InstanceV>,
)
    ensures
        eval_model_call_spec(name, args, env, scene, Mode::Permissive) is Ok,
    decreases args, 1int, 0int,
{
    if env.contains_key(name) && env[name] is ModelDef {
        let params = env[name]->ModelDef_params;
        let body = env[name]->ModelDef_body;
        lemma_bind_params_permissive(params, args, 0, env, scene);
        let (local, scene1) = bind_params_spec(
            params,
            args,
            0,
            env,
            scene,
            Mode::Permissive,
        )->Ok_0;
        lemma_model_body_permissive(name, body, local);
    }
}

/// Permissive parameter binding always succeeds.
pub proof fn lemma_bind_params_permissive(
    params: Seq<Seq<char>>,
    args: Seq<AstV>,
    k: int,
    local: Map<Seq<char>, ValueV>,
    scene: Seq<InstanceV>,
)
    ensures
        bind_params_spec(params, args, k, local, scene, Mode::Permissive) is Ok,
    decreases args, 0int, args.len() - k,
{
    if 0 <= k < args.len() && k < params.len() {
        lemma_eval_expr_permissive(args[k], local, scene);
        let (val, scene1) = eval_expr_spec(args[k], local, scene, Mode::Permissive)->Ok_0;
        lemma_bind_params_permissive(params, args, k + 1, local.insert(params[k], val), scene1);
    }
}

/// Permissive evaluation of a whole program never fails: unresolved names
/// fall back to defaults instead of stopping.
pub proof fn lemma_eval_stmts_permissive(
    stmts: Seq<AstV>,
    i: int,
    env: Map<Seq<char>, ValueV>,
    scene: Seq<InstanceV>,
    log: Seq<Seq<char>>,
)
    ensures
        eval_stmts_spec(stmts, i, env, scene, log, Mode::Permissive) is Ok,
    decreases stmts.len() - i,
{
    if 0 <= i < stmts.len() {
        match stmts[i] {
            AstV::AtomDecl { name, props } => {
                lemma_eval_stmts_permissive(
                    stmts,
                    i + 1,
                    env.insert(name, ValueV::Atom { name, props: map_of_pairs(props) }),
                    scene,
                    log,
                );
            },
            AstV::VoxelDecl { name, params, body } => {
                lemma_eval_stmts_permissive(
                    stmts,
                    i + 1,
                    env.insert(name, ValueV::ModelDef { params, body }),
                    scene,
                    log,
                );
            },
            AstV::Assignment { name, expr } => {
                lemma_eval_expr_permissive(*expr, env, scene);
                let (val, s1) = eval_expr_spec(*expr, env, scene, Mode::Permissive)->Ok_0;
                if val is Str && env.contains_key(val->Str_0) && env[val->Str_0] is ModelDef
                    && env[val->Str_0]->ModelDef_params.len() == 0 {
                    let mname = val->Str_0;
                    let mbody = env[mname]->ModelDef_body;
                    lemma_model_body_permissive(mname, mbody, env);
                    let vs = eval_model_body_spec(mname, mbody, env, Mode::Permissive)->Ok_0;
                    let inst = fresh_instance(ModelV { name: mname, voxels: vs });
                    lemma_eval_stmts_permissive(
                        stmts,
                        i + 1,
                        env.insert(name, ValueV::Instance(inst)),
                        s1.push(inst),
                        log,
                    );
                } else {
                    lemma_eval_stmts_permissive(stmts, i + 1, env.insert(name, val), s1, log);
                }
            },
            AstV::Print { target } => {
                match target {
                    Some(var) => {
                        let msg = if env.contains_key(var) {
                            var + " = "@ + value_to_string_spec(env[var])
                        } else {
                            "unknown identifier "@ + var
                        };
                        lemma_eval_stmts_permissive(stmts, i + 1, env, scene, log.push(msg));
                    },
                    None => {
                        let msg = "scene has "@ + crate::strutil::nat_dec_spec(scene.len() as int)
                            + " instances"@;
                        lemma_eval_stmts_permissive(stmts, i + 1, env, scene, log.push(msg));
                    },
                }
            },
            AstV::Ident(id) => {
                if env.contains_key(id) && env[id] is ModelDef && env[id]->ModelDef_params.len()
                    == 0 {
                    let mbody = env[id]->ModelDef_body;
                    lemma_model_body_permissive(id, mbody, env);
                    let vs = eval_model_body_spec(id, mbody, env, Mode::Permissive)->Ok_0;
                    let inst = fresh_instance(ModelV { name: id, voxels: vs });
                    lemma_eval_stmts_permissive(
                        stmts,
                        i + 1,
                        env,
                        scene.push(inst),
                        log.push("instantiated "@ + id),
                    );
                } else {
                    lemma_eval_stmts_permissive(stmts, i + 1, env, scene, log);
                }
            },
            _ => {
                lemma_eval_stmts_permissive(stmts, i + 1, env, scene, log);
            },
        }
    }
}

/// Evaluate a program under the chosen policy: the final scene graph and
/// the print log, or the first strict-mode failure, exactly as
/// `eval_stmts_spec` describes from an empty environment and scene.
#[verifier::loop_isolation(false)]
#[verifier::rlimit(100)]
pub fn eval_with_mode(ast: &Vec<AstNode>, mode: Mode) -> (r: Result<
    (SceneGraph, Vec<String>),
    EvalError,
>)
    ensures
        ({
            let res = eval_stmts_spec(
                asts_view(ast@),
                0,
                Map::empty(),
                Seq::empty(),
                Seq::empty(),
                mode,
            );
            match res {
                Ok((s, l)) => r is Ok && r->Ok_0.0@ == s && strings_view(r->Ok_0.1@) == l,
                Err(e) => r is Err && r->Err_0@ == e,
            }
        }),
{
    let ghost av = asts_view(ast@);
    let mut env = Env::new();
    let mut scene = SceneGraph { instances: Vec::new() };
    let mut log: Vec<String> = Vec::new();
    proof {
        crate::ast::lemma_asts_view_len(ast@);
        assert(scene@ =~= Seq::<InstanceV>::empty());
        assert(strings_view(log@) =~= Seq::<Seq<char>>::empty());
    }
    let mut i: usize = 0;
    while i < ast.len()
        invariant
            i <= ast@.len(),
            eval_stmts_spec(av, 0, Map::empty(), Seq::empty(), Seq::empty(), mode)
                == eval_stmts_spec(av, i as int, env@, scene@, strings_view(log@), mode),
        decreases ast@.len() - i,
    {
        proof {
            crate::ast::lemma_asts_view_index(ast@, i as int);
        }
        match &ast[i] {
            AstNode::AtomDecl { name, props } => {
                let v = Value::Atom { name: name.clone(), props: crate::ast::dup_string_pairs(props) };
                env.insert(name.clone(), v);
            },
            AstNode::VoxelDecl { name, params, body } => {
                let v = Value::ModelDef {
                    params: crate::ast::dup_strings(params),
                    body: crate::ast::dup_asts(body),
                };
                env.insert(name.clone(), v);
            },
            AstNode::Assignment { name, expr } => {
                let val = match eval_expr(expr, &env, &mut scene, mode) {
                    Err(e) => {
                        return Err(e);
                    },
                    Ok(v) => v,
                };
                let mut auto: Option<(String, Vec<AstNode>)> = None;
                match &val {
                    Value::Str(sname) => {
                        match env.get(sname.as_str()) {
                            Some(Value::ModelDef { params, body }) => {
                                proof {
                                    assert(strings_view(params@).len() == params@.len());
                                }
                                if params.len() == 0 {
                                    auto = Some((sname.clone(), crate::ast::dup_asts(body)));
                                }
                            },
                            _ => {},
                        }
                    },
                    _ => {},
                }
                match auto {
                    Some((mname, mbody)) => {
                        let model = match eval_model_body(mname.as_str(), &mbody, &env, mode) {
                            Err(e) => {
                                return Err(e);
                            },
                            Ok(m) => m,
                        };
                        let inst = Instance { model, transform: Transform3D::default() };
                        let copy = inst.duplicate();
                        let ghost pre = scene.instances@;
                        scene.instances.push(copy);
                        proof {
                            crate::types::lemma_instances_view_push(
                                pre,
                                scene.instances@.last(),
                            );
                        }
                        env.insert(name.clone(), Value::Instance(inst));
                    },
                    None => {
                        env.insert(name.clone(), val);
                    },
                }
            },
            AstNode::Print { target } => {
                match target {
                    Some(var) => {
                        let msg = match env.get(var.as_str()) {
                            Some(v) => {
                                let rendered = value_to_string(v);
                                var.clone().concat(" = ").concat(rendered.as_str())
                            },
                            None => "unknown identifier ".to_owned().concat(var.as_str()),
                        };
                        let ghost pre = log@;
                        log.push(msg);
                        proof {
                            crate::ast::lemma_strings_view_push(pre, log@.last());
                        }
                    },
                    None => {
                        let count = crate::strutil::usize_to_string(scene.instances.len());
                        let msg = "scene has ".to_owned().concat(count.as_str()).concat(
                            " instances",
                        );
                        let ghost pre = log@;
                        log.push(msg);
                        proof {
                            crate::ast::lemma_strings_view_push(pre, log@.last());
                        }
                    },
                }
            },
            AstNode::Ident(id) => {
                let mut auto: Option<Vec<AstNode>> = None;
                match env.get(id.as_str()) {
                    Some(Value::ModelDef { params, body }) => {
                        proof {
                            assert(strings_view(params@).len() == params@.len());
                        }
                        if params.len() == 0 {
                            auto = Some(crate::ast::dup_asts(body));
                        }
                    },
                    _ => {},
                }
                match auto {
                    Some(mbody) => {
                        let model = match eval_model_body(id.as_str(), &mbody, &env, mode) {
                            Err(e) => {
                                return Err(e);
                            },
                            Ok(m) => m,
                        };
                        let inst = Instance { model, transform: Transform3D::default() };
                        let ghost pre = scene.instances@;
                        scene.instances.push(inst);
                        proof {
                            crate::types::lemma_instances_view_push(
                                pre,
                                scene.instances@.last(),
                            );
                        }
                        let msg = "instantiated ".to_owned().concat(id.as_str());
                        let ghost prelog = log@;
                        log.push(msg);
                        proof {
                            crate::ast::lemma_strings_view_push(prelog, log@.last());
                        }
                    },
                    None => {},
                }
            },
            _ => {},
        }
        i = i + 1;
    }
    Ok((scene, log))
}

/// Evaluate a program permissively into a scene graph: the policy that
/// never fails, substituting defaults for anything unresolved.
pub fn eval(ast: Vec<AstNode>) -> (r: SceneGraph)
    ensures
        ({
            let res = eval_stmts_spec(
                asts_view(ast@),
                0,
                Map::empty(),
                Seq::empty(),
                Seq::empty(),
                Mode::Permissive,
            );
            res is Ok && r@ == res->Ok_0.0
        }),
{
    proof {
        lemma_eval_stmts_permissive(
            asts_view(ast@),
            0,
            Map::empty(),
            Seq::empty(),
            Seq::empty(),
        );
    }
    match eval_with_mode(&ast, Mode::Permissive) {
        Ok((scene, log)) => scene,
        Err(e) => {
            proof {
                assert(false);
            }
            vstd::pervasive::unreached()
        },
    }
}

} // verus!
