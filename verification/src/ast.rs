//! The abstract syntax tree of the language, together with its
//! mathematical model: every node has a view (`AstV`) whose strings are
//! character sequences, which the parser and evaluator contracts speak of.

use vstd::prelude::*;

verus! {

/// A node of the abstract syntax tree.
///
/// A model body may only contain layer, legend, color, placement and loop
/// nodes; assignments and prints are only legal at program top level.
#[derive(Debug)]
pub enum AstNode {
    /// `atom Name { key = value ... }`: a named bundle of string properties.
    AtomDecl { name: String, props: Vec<(String, String)> },
    /// `voxel Name(params) { body }`: a model declaration; nothing is
    /// expanded until the model is instantiated.
    VoxelDecl { name: String, params: Vec<String>, body: Vec<AstNode> },
    /// `name = expr` at top level.
    Assignment { name: String, expr: Box<AstNode> },
    /// `name(args...)`.
    FunctionCall { name: String, args: Vec<AstNode> },
    /// A bare identifier reference.
    Ident(String),
    /// A quoted string literal.
    StringLit(String),
    /// An integer literal.
    NumberLit(i32),
    /// `[e, e, ...]` or a parenthesized list.
    ArrayLit(Vec<AstNode>),
    /// The keyword arguments of a call, collapsed into one trailing map.
    KVArgs(Vec<(String, AstNode)>),
    /// `legend { glyph = atomName ... }` inside a model body.
    LegendDecl { mappings: Vec<(String, String)> },
    /// `[Layer N] row row ...` inside a model body.
    LayerDecl { z: usize, rows: Vec<String> },
    /// `[Colors] sym: color` entries inside a model body.
    ColorDecl { symbol: String, color: String },
    /// `add Layers(x, y, z) { symbol }`: one explicit voxel placement.
    AddLayer { x: i32, y: i32, z: i32, symbol: String },
    /// `add Colors { sym: color }` entries.
    AddColor { symbol: String, color: String },
    /// `for a, b in arr1, arr2: { body }`: paired-array loop.
    ForLoop { var1: String, var2: String, iter1: String, iter2: String, body: Vec<AstNode> },
    /// `for v in range(start, end): { body }`: numeric loop.
    ForRange { var: String, start: i32, end: i32, body: Vec<AstNode> },
    /// `print [name]`.
    Print { target: Option<String> },
}

/// The mathematical model of an AST node.
pub enum AstV {
    AtomDecl { name: Seq<char>, props: Seq<(Seq<char>, Seq<char>)> },
    VoxelDecl { name: Seq<char>, params: Seq<Seq<char>>, body: Seq<AstV> },
    Assignment { name: Seq<char>, expr: Box<AstV> },
    FunctionCall { name: Seq<char>, args: Seq<AstV> },
    Ident(Seq<char>),
    StringLit(Seq<char>),
    NumberLit(i32),
    ArrayLit(Seq<AstV>),
    KVArgs(Seq<(Seq<char>, AstV)>),
    LegendDecl { mappings: Seq<(Seq<char>, Seq<char>)> },
    LayerDecl { z: usize, rows: Seq<Seq<char>> },
    ColorDecl { symbol: Seq<char>, color: Seq<char> },
    AddLayer { x: i32, y: i32, z: i32, symbol: Seq<char> },
    AddColor { symbol: Seq<char>, color: Seq<char> },
    ForLoop {
        var1: Seq<char>,
        var2: Seq<char>,
        iter1: Seq<char>,
        iter2: Seq<char>,
        body: Seq<AstV>,
    },
    ForRange { var: Seq<char>, start: i32, end: i32, body: Seq<AstV> },
    Print { target: Option<Seq<char>> },
}

/// The views of a sequence of strings.
pub open spec fn strings_view(s: Seq<String>) -> Seq<Seq<char>> {
    s.map_values(|x: String| x@)
}

/// The views of a sequence of string pairs.
pub open spec fn pairs_view(s: Seq<(String, String)>) -> Seq<(Seq<char>, Seq<char>)> {
    s.map_values(|p: (String, String)| (p.0@, p.1@))
}

/// The view of an optional string.
pub open spec fn opt_string_view(o: Option<String>) -> Option<Seq<char>> {
    match o {
        Some(s) => Some(s@),
        None => None,
    }
}

/// The view of an AST node.
pub open spec fn ast_view(n: AstNode) -> AstV
    decreases n,
{
    match n {
        AstNode::AtomDecl { name, props } => AstV::AtomDecl {
            name: name@,
            props: pairs_view(props@),
        },
        AstNode::VoxelDecl { name, params, body } => AstV::VoxelDecl {
            name: name@,
            params: strings_view(params@),
            body: asts_view(body@),
        },
        AstNode::Assignment { name, expr } => AstV::Assignment {
            name: name@,
            expr: Box::new(ast_view(*expr)),
        },
        AstNode::FunctionCall { name, args } => AstV::FunctionCall {
            name: name@,
            args: asts_view(args@),
        },
        AstNode::Ident(s) => AstV::Ident(s@),
        AstNode::StringLit(s) => AstV::StringLit(s@),
        AstNode::NumberLit(k) => AstV::NumberLit(k),
        AstNode::ArrayLit(elems) => AstV::ArrayLit(asts_view(elems@)),
        AstNode::KVArgs(pairs) => AstV::KVArgs(kvs_view(pairs@)),
        AstNode::LegendDecl { mappings } => AstV::LegendDecl { mappings: pairs_view(mappings@) },
        AstNode::LayerDecl { z, rows } => AstV::LayerDecl { z, rows: strings_view(rows@) },
        AstNode::ColorDecl { symbol, color } => AstV::ColorDecl { symbol: symbol@, color: color@ },
        AstNode::AddLayer { x, y, z, symbol } => AstV::AddLayer { x, y, z, symbol: symbol@ },
        AstNode::AddColor { symbol, color } => AstV::AddColor { symbol: symbol@, color: color@ },
        AstNode::ForLoop { var1, var2, iter1, iter2, body } => AstV::ForLoop {
            var1: var1@,
            var2: var2@,
            iter1: iter1@,
            iter2: iter2@,
            body: asts_view(body@),
        },
        AstNode::ForRange { var, start, end, body } => AstV::ForRange {
            var: var@,
            start,
            end,
            body: asts_view(body@),
        },
        AstNode::Print { target } => AstV::Print { target: opt_string_view(target) },
    }
}

/// The views of a sequence of AST nodes.
pub open spec fn asts_view(s: Seq<AstNode>) -> Seq<AstV>
    decreases s,
{
    if s.len() == 0 {
        Seq::empty()
    } else {
        asts_view(s.drop_last()).push(ast_view(s.last()))
    }
}

/// The views of a sequence of keyword-argument pairs.
pub open spec fn kvs_view(s: Seq<(String, AstNode)>) -> Seq<(Seq<char>, AstV)>
    decreases s,
{
    if s.len() == 0 {
        Seq::empty()
    } else {
        kvs_view(s.drop_last()).push((s.last().0@, ast_view(s.last().1)))
    }
}

impl View for AstNode {
    type V = AstV;

    open spec fn view(&self) -> AstV {
        ast_view(*self)
    }
}

pub broadcast proof fn lemma_asts_view_len(s: Seq<AstNode>)
    ensures
        #[trigger] asts_view(s).len() == s.len(),
    decreases s,
{
    if s.len() > 0 {
        lemma_asts_view_len(s.drop_last());
    }
}

pub broadcast proof fn lemma_asts_view_index(s: Seq<AstNode>, i: int)
    requires
        0 <= i < s.len(),
    ensures
        #[trigger] asts_view(s)[i] == s[i]@,
    decreases s,
{
    lemma_asts_view_len(s);
    if s.len() > 0 {
        lemma_asts_view_len(s.drop_last());
        if i < s.len() - 1 {
            lemma_asts_view_index(s.drop_last(), i);
            assert(s.drop_last()[i] == s[i]);
        }
    }
}

pub broadcast proof fn lemma_asts_view_push(s: Seq<AstNode>, n: AstNode)
    ensures
        #[trigger] asts_view(s.push(n)) == asts_view(s).push(n@),
{
    assert(s.push(n).drop_last() =~= s);
    assert(s.push(n).last() == n);
}

pub broadcast proof fn lemma_kvs_view_len(s: Seq<(String, AstNode)>)
    ensures
        #[trigger] kvs_view(s).len() == s.len(),
    decreases s,
{
    if s.len() > 0 {
        lemma_kvs_view_len(s.drop_last());
    }
}

pub broadcast proof fn lemma_kvs_view_index(s: Seq<(String, AstNode)>, i: int)
    requires
        0 <= i < s.len(),
    ensures
        #[trigger] kvs_view(s)[i] == (s[i].0@, s[i].1@),
    decreases s,
{
    lemma_kvs_view_len(s);
    if s.len() > 0 {
        lemma_kvs_view_len(s.drop_last());
        if i < s.len() - 1 {
            lemma_kvs_view_index(s.drop_last(), i);
            assert(s.drop_last()[i] == s[i]);
        }
    }
}

pub broadcast proof fn lemma_kvs_view_push(s: Seq<(String, AstNode)>, p: (String, AstNode))
    ensures
        #[trigger] kvs_view(s.push(p)) == kvs_view(s).push((p.0@, p.1@)),
{
    assert(s.push(p).drop_last() =~= s);
    assert(s.push(p).last() == p);
}

pub broadcast proof fn lemma_strings_view_push(s: Seq<String>, x: String)
    ensures
        #[trigger] strings_view(s.push(x)) == strings_view(s).push(x@),
{
    assert(strings_view(s.push(x)) =~= strings_view(s).push(x@));
}

pub broadcast proof fn lemma_pairs_view_push(s: Seq<(String, String)>, p: (String, String))
    ensures
        #[trigger] pairs_view(s.push(p)) == pairs_view(s).push((p.0@, p.1@)),
{
    assert(pairs_view(s.push(p)) =~= pairs_view(s).push((p.0@, p.1@)));
}

pub fn dup_string_pairs(v: &Vec<(String, String)>) -> (r: Vec<(String, String)>)
    ensures
        pairs_view(r@) == pairs_view(v@),
{
    let mut out: Vec<(String, String)> = Vec::new();
    let mut i: usize = 0;
    while i < v.len()
        invariant
            i <= v@.len(),
            pairs_view(out@) == pairs_view(v@).subrange(0, i as int),
        decreases v@.len() - i,
    {
        let ghost pre = out@;
        let a = v[i].0.clone();
        let b = v[i].1.clone();
        out.push((a, b));
        proof {
            lemma_pairs_view_push(pre, (a, b));
            assert(pairs_view(v@).subrange(0, i as int).push((a@, b@)) =~= pairs_view(
                v@,
            ).subrange(0, i + 1));
        }
        i = i + 1;
    }
    proof {
        assert(pairs_view(v@).subrange(0, v@.len() as int) =~= pairs_view(v@));
    }
    out
}

pub fn dup_strings(v: &Vec<String>) -> (r: Vec<String>)
    ensures
        strings_view(r@) == strings_view(v@),
{
    let mut out: Vec<String> = Vec::new();
    let mut i: usize = 0;
    while i < v.len()
        invariant
            i <= v@.len(),
            strings_view(out@) == strings_view(v@).subrange(0, i as int),
        decreases v@.len() - i,
    {
        let ghost pre = out@;
        let s = v[i].clone();
        out.push(s);
        proof {
            lemma_strings_view_push(pre, s);
            assert(strings_view(v@).subrange(0, i as int).push(s@) =~= strings_view(
                v@,
            ).subrange(0, i + 1));
        }
        i = i + 1;
    }
    proof {
        assert(strings_view(v@).subrange(0, v@.len() as int) =~= strings_view(v@));
    }
    out
}

impl AstNode {
    /// A structural copy of the node, equal to it in the model.
    pub fn duplicate(&self) -> (r: AstNode)
        ensures
            r@ == self@,
        decreases *self,
    {
        match self {
            AstNode::AtomDecl { name, props } => AstNode::AtomDecl {
                name: name.clone(),
                props: dup_string_pairs(props),
            },
            AstNode::VoxelDecl { name, params, body } => AstNode::VoxelDecl {
                name: name.clone(),
                params: dup_strings(params),
                body: dup_asts(body),
            },
            AstNode::Assignment { name, expr } => AstNode::Assignment {
                name: name.clone(),
                expr: Box::new(expr.duplicate()),
            },
            AstNode::FunctionCall { name, args } => AstNode::FunctionCall {
                name: name.clone(),
                args: dup_asts(args),
            },
            AstNode::Ident(s) => AstNode::Ident(s.clone()),
            AstNode::StringLit(s) => AstNode::StringLit(s.clone()),
            AstNode::NumberLit(k) => AstNode::NumberLit(*k),
            AstNode::ArrayLit(elems) => AstNode::ArrayLit(dup_asts(elems)),
            AstNode::KVArgs(pairs) => AstNode::KVArgs(dup_kvs(pairs)),
            AstNode::LegendDecl { mappings } => AstNode::LegendDecl {
                mappings: dup_string_pairs(mappings),
            },
            AstNode::LayerDecl { z, rows } => AstNode::LayerDecl { z: *z, rows: dup_strings(rows) },
            AstNode::ColorDecl { symbol, color } => AstNode::ColorDecl {
                symbol: symbol.clone(),
                color: color.clone(),
            },
            AstNode::AddLayer { x, y, z, symbol } => AstNode::AddLayer {
                x: *x,
                y: *y,
                z: *z,
                symbol: symbol.clone(),
            },
            AstNode::AddColor { symbol, color } => AstNode::AddColor {
                symbol: symbol.clone(),
                color: color.clone(),
            },
            AstNode::ForLoop { var1, var2, iter1, iter2, body } => AstNode::ForLoop {
                var1: var1.clone(),
                var2: var2.clone(),
                iter1: iter1.clone(),
                iter2: iter2.clone(),
                body: dup_asts(body),
            },
            AstNode::ForRange { var, start, end, body } => AstNode::ForRange {
                var: var.clone(),
                start: *start,
                end: *end,
                body: dup_asts(body),
            },
            AstNode::Print { target } => AstNode::Print {
                target: match target {
                    Some(t) => Some(t.clone()),
                    None => None,
                },
            },
        }
    }
}

/// A structural copy of a node list, equal to it in the model.
pub fn dup_asts(v: &Vec<AstNode>) -> (r: Vec<AstNode>)
    ensures
        asts_view(r@) == asts_view(v@),
    decreases *v,
{
    let mut out: Vec<AstNode> = Vec::new();
    let mut i: usize = 0;
    while i < v.len()
        invariant
            i <= v@.len(),
            asts_view(out@) == asts_view(v@.subrange(0, i as int)),
        decreases v@.len() - i,
    {
        let n = v[i].duplicate();
        proof {
            lemma_asts_view_push(v@.subrange(0, i as int), v[i as int]);
            assert(v@.subrange(0, i as int).push(v@[i as int]) =~= v@.subrange(0, i + 1));
            lemma_asts_view_push(out@, n);
        }
        out.push(n);
        i = i + 1;
    }
    proof {
        assert(v@.subrange(0, v@.len() as int) =~= v@);
    }
    out
}

fn dup_kvs(v: &Vec<(String, AstNode)>) -> (r: Vec<(String, AstNode)>)
    ensures
        kvs_view(r@) == kvs_view(v@),
    decreases *v,
{
    let mut out: Vec<(String, AstNode)> = Vec::new();
    let mut i: usize = 0;
    while i < v.len()
        invariant
            i <= v@.len(),
            kvs_view(out@) == kvs_view(v@.subrange(0, i as int)),
        decreases v@.len() - i,
    {
        let k = v[i].0.clone();
        let n = v[i].1.duplicate();
        proof {
            lemma_kvs_view_push(v@.subrange(0, i as int), v@[i as int]);
            assert(v@.subrange(0, i as int).push(v@[i as int]) =~= v@.subrange(0, i + 1));
            lemma_kvs_view_push(out@, (k, n));
        }
        out.push((k, n));
        i = i + 1;
    }
    proof {
        assert(v@.subrange(0, v@.len() as int) =~= v@);
    }
    out
}

} // verus!
