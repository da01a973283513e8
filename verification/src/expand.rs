//! Layer expansion outside the environment evaluator: the collected-model
//! path that turns declared layers straight into voxels, and the
//! deterministic fallback color for unresolved glyph symbols.

use vstd::prelude::*;

use unicode_segmentation::UnicodeSegmentation;

use crate::ast::{asts_view, strings_view, AstNode, AstV};
use crate::colors::{default_colors, default_colors_spec, StrMap};
use crate::strutil::{chars_of, fnv1a64, fnv1a64_spec, hex6, hex6_spec, str_eq, string_from_chars};
use crate::types::{
    flatten_spec, identity_transform, instances_view, map_of_pairs, Instance, InstanceV, Model,
    ModelV, SceneGraph, Transform3D, Voxel, VoxelScene, VoxelV, voxels_view,
};

verus! {

/// The grapheme clusters of a string, in order: what one drawn symbol of a
/// layer row is. The segmentation depends on the characters alone.
pub uninterp spec fn graphemes_of(s: Seq<char>) -> Seq<Seq<char>>;

/// The grapheme clusters of a row.
/// Relies on unicode_segmentation's `graphemes` with extended clusters: the
/// clusters are nonempty substrings of the input, in order, and their
/// concatenation is the input.
#[verifier::external_body]
fn graphemes(s: &str) -> (r: Vec<String>)
    ensures
        strings_view(r@) == graphemes_of(s@),
        strings_view(r@).flatten() == s@,
        forall|i: int| 0 <= i < r@.len() ==> (#[trigger] r@[i]@).len() > 0,
{
    UnicodeSegmentation::graphemes(s, true).map(|g| g.to_string()).collect()
}

/// The deterministic fallback color of a symbol: a `#` followed by six hex
/// digits of the low 24 bits of the symbol text's hash. The same symbol
/// gives the same color in every run.
pub open spec fn default_color_spec(s: Seq<char>) -> Seq<char> {
    seq!['#'] + hex6_spec(((fnv1a64_spec(s) & 0xffffffu64) as u32))
}

/// The stable pseudo-random color assigned to an unresolved glyph symbol.
pub fn default_color_for_symbol(sym: &str) -> (r: String)
    ensures
        r@ == default_color_spec(sym@),
{
    let cs = chars_of(sym);
    let h = fnv1a64(&cs);
    proof {
        assert((h & 0xffffffu64) <= 0xffffffu64) by (bit_vector);
    }
    let low: u32 = (h & 0xffffffu64) as u32;
    let digits = hex6(low);
    let mut out: Vec<char> = Vec::new();
    out.push('#');
    let mut i: usize = 0;
    proof {
        assert(out@ =~= seq!['#'] + digits@.subrange(0, 0));
    }
    while i < digits.len()
        invariant
            i <= digits@.len(),
            out@ == seq!['#'] + digits@.subrange(0, i as int),
        decreases digits@.len() - i,
    {
        let c = digits[i];
        out.push(c);
        proof {
            assert(out@ =~= seq!['#'] + digits@.subrange(0, i + 1));
        }
        i = i + 1;
    }
    proof {
        assert(digits@.subrange(0, digits@.len() as int) =~= digits@);
    }
    string_from_chars(&out)
}

/// A collected model: its name, its raw per-glyph color entries, and its
/// declared layers, before any expansion.
#[derive(Debug)]
pub struct ModelAst {
    pub name: String,
    pub explicit_colors: StrMap,
    pub layers: Vec<(usize, Vec<String>)>,
}

/// The model of a collected model.
pub struct ModelAstV {
    pub name: Seq<char>,
    pub colors: Map<Seq<char>, Seq<char>>,
    pub layers: Seq<(usize, Seq<Seq<char>>)>,
}

impl View for ModelAst {
    type V = ModelAstV;

    open spec fn view(&self) -> ModelAstV {
        ModelAstV {
            name: self.name@,
            colors: self.explicit_colors@,
            layers: crate::runtime::layers_view(self.layers@),
        }
    }
}

/// The views of a sequence of collected models.
pub open spec fn model_asts_view(s: Seq<ModelAst>) -> Seq<ModelAstV> {
    s.map_values(|m: ModelAst| m@)
}

/// What the AST collects into: the declared models in order, and the
/// command list, which this front end never fills.
#[derive(Debug)]
pub struct CollectedAst {
    pub models: Vec<ModelAst>,
    pub commands: Vec<(String, Vec<String>)>,
}

/// The color entries and layers a model body declares, in order.
pub open spec fn body_meta_spec(
    body: Seq<AstV>,
    i: int,
    colors: Map<Seq<char>, Seq<char>>,
    layers: Seq<(usize, Seq<Seq<char>>)>,
) -> (Map<Seq<char>, Seq<char>>, Seq<(usize, Seq<Seq<char>>)>)
    decreases body.len() - i,
{
    if i < 0 || i >= body.len() {
        (colors, layers)
    } else {
        match body[i] {
            AstV::ColorDecl { symbol, color } => body_meta_spec(
                body,
                i + 1,
                colors.insert(symbol, color),
                layers,
            ),
            AstV::LayerDecl { z, rows } => body_meta_spec(
                body,
                i + 1,
                colors,
                layers.push((z, rows)),
            ),
            _ => body_meta_spec(body, i + 1, colors, layers),
        }
    }
}

/// The collected model of one declaration: its body's color entries and
/// layers, read in order.
pub open spec fn model_of_decl(name: Seq<char>, body: Seq<AstV>) -> ModelAstV {
    let (colors, layers) = body_meta_spec(body, 0, Map::empty(), Seq::empty());
    ModelAstV { name, colors, layers }
}

/// The models a program's top-level nodes collect into: each model
/// declaration contributes one collected model.
pub open spec fn collect_spec(nodes: Seq<AstV>, i: int, models: Seq<ModelAstV>) -> Seq<ModelAstV>
    decreases nodes.len() - i,
{
    if i < 0 || i >= nodes.len() {
        models
    } else {
        match nodes[i] {
            AstV::VoxelDecl { name, params, body } => collect_spec(
                nodes,
                i + 1,
                models.push(model_of_decl(name, body)),
            ),
            _ => collect_spec(nodes, i + 1, models),
        }
    }
}

fn body_meta(body: &Vec<AstNode>) -> (r: (StrMap, Vec<(usize, Vec<String>)>))
    ensures
        ({
            let (colors, layers) = body_meta_spec(
                asts_view(body@),
                0,
                Map::empty(),
                Seq::empty(),
            );
            r.0@ == colors && crate::runtime::layers_view(r.1@) == layers
        }),
{
    let mut colors = StrMap::new();
    let mut layers: Vec<(usize, Vec<String>)> = Vec::new();
    proof {
        crate::ast::lemma_asts_view_len(body@);
        assert(crate::runtime::layers_view(layers@) =~= Seq::<(usize, Seq<Seq<char>>)>::empty());
    }
    let mut i: usize = 0;
    while i < body.len()
        invariant
            i <= body@.len(),
            asts_view(body@).len() == body@.len(),
            body_meta_spec(asts_view(body@), 0, Map::empty(), Seq::empty()) == body_meta_spec(
                asts_view(body@),
                i as int,
                colors@,
                crate::runtime::layers_view(layers@),
            ),
        decreases body@.len() - i,
    {
        proof {
            crate::ast::lemma_asts_view_index(body@, i as int);
        }
        match &body[i] {
            AstNode::ColorDecl { symbol, color } => {
                colors.insert(symbol.clone(), color.clone());
            },
            AstNode::LayerDecl { z, rows } => {
                let owned = crate::ast::dup_strings(rows);
                let ghost pre = layers@;
                layers.push((*z, owned));
                proof {
                    crate::runtime::lemma_layers_view_push(pre, layers@.last());
                }
            },
            _ => {},
        }
        i = i + 1;
    }
    (colors, layers)
}

/// Collect the models a program declares, as `collect_spec` describes; the
/// command list stays empty in this front end.
#[verifier::loop_isolation(false)]
pub fn collect_ast(ast: &Vec<AstNode>) -> (r: CollectedAst)
    ensures
        model_asts_view(r.models@) == collect_spec(asts_view(ast@), 0, Seq::empty()),
        r.commands@.len() == 0,
{
    let mut models: Vec<ModelAst> = Vec::new();
    proof {
        crate::ast::lemma_asts_view_len(ast@);
        assert(model_asts_view(models@) =~= Seq::<ModelAstV>::empty());
    }
    let mut i: usize = 0;
    while i < ast.len()
        invariant
            i <= ast@.len(),
            asts_view(ast@).len() == ast@.len(),
            collect_spec(asts_view(ast@), 0, Seq::empty()) == collect_spec(
                asts_view(ast@),
                i as int,
                model_asts_view(models@),
            ),
        decreases ast@.len() - i,
    {
        proof {
            crate::ast::lemma_asts_view_index(ast@, i as int);
        }
        match &ast[i] {
            AstNode::VoxelDecl { name, params, body } => {
                let (colors, layers) = body_meta(body);
                let m = ModelAst { name: name.clone(), explicit_colors: colors, layers };
                let ghost pre = models@;
                models.push(m);
                proof {
                    assert(model_asts_view(models@) =~= model_asts_view(pre).push(
                        models@.last()@,
                    ));
                }
            },
            _ => {},
        }
        i = i + 1;
    }
    CollectedAst { models, commands: Vec::new() }
}

/// One row of a layer expanded glyph by glyph: each grapheme other than `.`
/// and the space resolves through the model's color entries, then the
/// built-in names, then the deterministic fallback; the result resolves
/// once more through the built-in names. Coordinates beyond the `i32` range
/// emit nothing.
pub open spec fn expand_row_spec(
    z: usize,
    y: int,
    gs: Seq<Seq<char>>,
    x: int,
    colors: Map<Seq<char>, Seq<char>>,
    acc: Seq<VoxelV>,
) -> Seq<VoxelV>
    decreases gs.len() - x,
{
    if x < 0 || x >= gs.len() {
        acc
    } else {
        let g = gs[x];
        if g == "."@ || g == " "@ {
            expand_row_spec(z, y, gs, x + 1, colors, acc)
        } else {
            let raw = if colors.contains_key(g) {
                colors[g]
            } else if default_colors_spec().contains_key(g) {
                default_colors_spec()[g]
            } else {
                default_color_spec(g)
            };
            let hex = if default_colors_spec().contains_key(raw) {
                default_colors_spec()[raw]
            } else {
                raw
            };
            let acc2 = if x <= i32::MAX && 0 <= y <= i32::MAX && z <= i32::MAX {
                acc.push(VoxelV { x: x as i32, y: y as i32, z: z as i32, color: hex })
            } else {
                acc
            };
            expand_row_spec(z, y, gs, x + 1, colors, acc2)
        }
    }
}

/// The rows of one layer expanded in order.
pub open spec fn expand_rows_spec(
    z: usize,
    rows: Seq<Seq<char>>,
    y: int,
    colors: Map<Seq<char>, Seq<char>>,
    acc: Seq<VoxelV>,
) -> Seq<VoxelV>
    decreases rows.len() - y,
{
    if y < 0 || y >= rows.len() {
        acc
    } else {
        let acc2 = expand_row_spec(z, y, graphemes_of(rows[y]), 0, colors, acc);
        expand_rows_spec(z, rows, y + 1, colors, acc2)
    }
}

/// Every layer of a collected model expanded in order.
pub open spec fn expand_layers_rec(
    layers: Seq<(usize, Seq<Seq<char>>)>,
    li: int,
    colors: Map<Seq<char>, Seq<char>>,
    acc: Seq<VoxelV>,
) -> Seq<VoxelV>
    decreases layers.len() - li,
{
    if li < 0 || li >= layers.len() {
        acc
    } else {
        let acc2 = expand_rows_spec(layers[li].0, layers[li].1, 0, colors, acc);
        expand_layers_rec(layers, li + 1, colors, acc2)
    }
}

/// What expanding a collected model means: its layers in order, rows top
/// first, glyphs resolved as `expand_row_spec` describes.
pub open spec fn expand_layers_spec(m: ModelAstV) -> Seq<VoxelV> {
    expand_layers_rec(m.layers, 0, m.colors, Seq::empty())
}

/// Expand a collected model's layers into a concrete model, as
/// `expand_layers_spec` describes.
#[verifier::loop_isolation(false)]
#[verifier::rlimit(100)]
pub fn expand_layers(m: &ModelAst) -> (r: Model)
    ensures
        r@.name == m@.name,
        r@.voxels == expand_layers_spec(m@),
{
    let builtins = default_colors();
    let mut voxels: Vec<Voxel> = Vec::new();
    proof {
        assert(voxels_view(voxels@) =~= Seq::<VoxelV>::empty());
    }
    let ghost lv = crate::runtime::layers_view(m.layers@);
    let mut li: usize = 0;
    while li < m.layers.len()
        invariant
            li <= m.layers@.len(),
            lv == crate::runtime::layers_view(m.layers@),
            builtins@ == default_colors_spec(),
            expand_layers_spec(m@) == expand_layers_rec(
                lv,
                li as int,
                m.explicit_colors@,
                voxels_view(voxels@),
            ),
        decreases m.layers@.len() - li,
    {
        let z = m.layers[li].0;
        let rows = &m.layers[li].1;
        proof {
            assert(lv[li as int] == (m.layers@[li as int].0, strings_view(
                m.layers@[li as int].1@,
            )));
        }
        let mut y: usize = 0;
        while y < rows.len()
            invariant
                y <= rows@.len(),
                li < m.layers@.len(),
                z == m.layers@[li as int].0,
                rows@ == m.layers@[li as int].1@,
                builtins@ == default_colors_spec(),
                lv == crate::runtime::layers_view(m.layers@),
                expand_layers_spec(m@) == expand_layers_rec(
                    lv,
                    li + 1,
                    m.explicit_colors@,
                    expand_rows_spec(
                        z,
                        strings_view(rows@),
                        y as int,
                        m.explicit_colors@,
                        voxels_view(voxels@),
                    ),
                ),
            decreases rows@.len() - y,
        {
            let gs = graphemes(rows[y].as_str());
            let ghost gsv = graphemes_of(rows@[y as int]@);
            proof {
                assert(strings_view(rows@)[y as int] == rows@[y as int]@);
                assert(strings_view(gs@) == gsv);
            }
            let mut x: usize = 0;
            while x < gs.len()
                invariant
                    x <= gs@.len(),
                    strings_view(gs@) == gsv,
                    gsv.len() == gs@.len(),
                    y < rows@.len(),
                    li < m.layers@.len(),
                    z == m.layers@[li as int].0,
                    builtins@ == default_colors_spec(),
                    lv == crate::runtime::layers_view(m.layers@),
                    rows@ == m.layers@[li as int].1@,
                    expand_layers_spec(m@) == expand_layers_rec(
                        lv,
                        li + 1,
                        m.explicit_colors@,
                        expand_rows_spec(
                            z,
                            strings_view(rows@),
                            y + 1,
                            m.explicit_colors@,
                            expand_row_spec(
                                z,
                                y as int,
                                gsv,
                                x as int,
                                m.explicit_colors@,
                                voxels_view(voxels@),
                            ),
                        ),
                    ),
                decreases gs@.len() - x,
            {
                let g = &gs[x];
                proof {
                    assert(gsv[x as int] == gs@[x as int]@);
                }
                if str_eq(g.as_str(), ".") || str_eq(g.as_str(), " ") {
                    x = x + 1;
                    continue ;
                }
                let raw: String = match m.explicit_colors.get(g.as_str()) {
                    Some(c) => c.clone(),
                    None => match builtins.get(g.as_str()) {
                        Some(c) => c.clone(),
                        None => default_color_for_symbol(g.as_str()),
                    },
                };
                let hex: String = match builtins.get(raw.as_str()) {
                    Some(c) => c.clone(),
                    None => raw,
                };
                if x <= 0x7fff_ffffusize && y <= 0x7fff_ffffusize && z <= 0x7fff_ffffusize {
                    let w = Voxel { x: x as i32, y: y as i32, z: z as i32, color: hex };
                    let ghost pre = voxels@;
                    voxels.push(w);
                    proof {
                        crate::types::lemma_voxels_view_push(pre, voxels@.last());
                    }
                }
                x = x + 1;
            }
            y = y + 1;
        }
        proof {
            assert(strings_view(rows@).len() == rows@.len());
        }
        li = li + 1;
    }
    proof {
        assert(lv.len() == m.layers@.len());
    }
    Model { name: m.name.clone(), voxels }
}

/// The scene a program's collected models build: one identity-transform
/// instance per declared model, in declaration order.
pub open spec fn build_scene_spec(nodes: Seq<AstV>) -> Seq<InstanceV> {
    collect_spec(nodes, 0, Seq::empty()).map_values(
        |m: ModelAstV| crate::runtime::fresh_instance(
            ModelV { name: m.name, voxels: expand_layers_spec(m) },
        ),
    )
}

/// Build a scene by collecting and expanding every declared model, as
/// `build_scene_spec` describes.
#[verifier::loop_isolation(false)]
pub fn build_scene(ast: Vec<AstNode>) -> (r: SceneGraph)
    ensures
        r@ == build_scene_spec(asts_view(ast@)),
{
    let collected = collect_ast(&ast);
    let ghost ms = collect_spec(asts_view(ast@), 0, Seq::empty());
    let mut scene = SceneGraph { instances: Vec::new() };
    proof {
        assert(scene@ =~= Seq::<InstanceV>::empty());
        assert(model_asts_view(collected.models@).len() == collected.models@.len());
    }
    let mut i: usize = 0;
    while i < collected.models.len()
        invariant
            i <= collected.models@.len(),
            model_asts_view(collected.models@) == ms,
            ms.len() == collected.models@.len(),
            scene@ == build_scene_spec(asts_view(ast@)).subrange(0, i as int),
        decreases collected.models@.len() - i,
    {
        proof {
            assert(model_asts_view(collected.models@)[i as int] == collected.models@[i as int]@);
        }
        let model = expand_layers(&collected.models[i]);
        let inst = Instance { model, transform: Transform3D::default() };
        let ghost pre = scene.instances@;
        scene.instances.push(inst);
        proof {
            crate::types::lemma_instances_view_push(pre, scene.instances@.last());
            assert(scene@ =~= build_scene_spec(asts_view(ast@)).subrange(0, i + 1));
        }
        i = i + 1;
    }
    proof {
        assert(build_scene_spec(asts_view(ast@)).subrange(
            0,
            build_scene_spec(asts_view(ast@)).len() as int,
        ) =~= build_scene_spec(asts_view(ast@)));
    }
    scene
}

/// Flatten a program all the way to world-space voxels through the
/// collected-model path.
pub fn run(ast: Vec<AstNode>) -> (r: VoxelScene)
    ensures
        r@ == flatten_spec(build_scene_spec(asts_view(ast@))),
{
    let scene_graph = build_scene(ast);
    scene_graph.flatten()
}

} // verus!
