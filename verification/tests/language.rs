use moxi::ast::AstNode;
use moxi::builtins;
use moxi::colors::default_colors;
use moxi::commands;
use moxi::expand;
use moxi::geom::{norm_turns, rotate_point_90, Axis};
use moxi::lexer::{lex, Token};
use moxi::parser::parse;
use moxi::runtime::{
    apply_translation, eval, eval_with_mode, value_to_string, ErrorKind, Mode,
};
use moxi::types::{
    resolve_instance, Instance, Model, SceneGraph, Transform3D, Value, Voxel, VoxelScene,
};
use moxi::voxgrid::parse_voxgrid;

fn run_permissive(src: &str) -> VoxelScene {
    let scene = eval(parse(lex(src)));
    scene.flatten()
}

#[test]
fn lexer_tokens_of_model() {
    let toks = lex("voxel Cube {\n[Layer 0]\nA.\n}");
    assert!(matches!(&toks[0], Token::Keyword(s) if s == "voxel"));
    assert!(matches!(&toks[1], Token::Ident(s) if s == "Cube"));
    assert!(matches!(&toks[2], Token::LBrace));
    assert!(matches!(&toks[3], Token::LBracket));
    assert!(matches!(&toks[4], Token::Ident(s) if s == "Layer"));
    assert!(matches!(&toks[5], Token::NumberLit(0)));
    assert!(matches!(&toks[6], Token::RBracket));
    assert!(matches!(&toks[7], Token::Ident(s) if s == "A."));
    assert!(matches!(&toks[8], Token::RBrace));
    assert!(matches!(&toks[9], Token::EOF));
}

#[test]
fn lexer_numbers_strings_comments() {
    let toks = lex("a = -5 # comment with voxel\nb = 'hi \"there\"'\n");
    assert!(matches!(&toks[0], Token::Ident(s) if s == "a"));
    assert!(matches!(&toks[1], Token::Equals));
    assert!(matches!(&toks[2], Token::NumberLit(-5)));
    assert!(matches!(&toks[3], Token::Ident(s) if s == "b"));
    assert!(matches!(&toks[4], Token::Equals));
    assert!(matches!(&toks[5], Token::StringLit(s) if s == "hi \"there\""));
    assert!(matches!(&toks[6], Token::EOF));
}

#[test]
fn parser_model_declaration() {
    let ast = parse(lex("voxel Cube {\n[Layer 0]\nA.\n[Colors]\nA: red\n}"));
    assert_eq!(ast.len(), 1);
    match &ast[0] {
        AstNode::VoxelDecl { name, params, body } => {
            assert_eq!(name, "Cube");
            assert!(params.is_empty());
            assert_eq!(body.len(), 2);
            assert!(matches!(&body[0], AstNode::LayerDecl { z: 0, rows } if rows == &["A."]));
            assert!(
                matches!(&body[1], AstNode::ColorDecl { symbol, color } if symbol == "A" && color == "red")
            );
        },
        other => panic!("expected a model declaration, got {:?}", other),
    }
}

#[test]
fn parser_call_with_keyword_arguments() {
    let ast = parse(lex("t = translate(m, x = 5, y = 2)"));
    assert_eq!(ast.len(), 1);
    match &ast[0] {
        AstNode::Assignment { name, expr } => {
            assert_eq!(name, "t");
            match expr.as_ref() {
                AstNode::FunctionCall { name, args } => {
                    assert_eq!(name, "translate");
                    assert_eq!(args.len(), 2);
                    assert!(matches!(&args[0], AstNode::Ident(s) if s == "m"));
                    assert!(matches!(&args[1], AstNode::KVArgs(kvs) if kvs.len() == 2));
                },
                other => panic!("expected a call, got {:?}", other),
            }
        },
        other => panic!("expected an assignment, got {:?}", other),
    }
}

#[test]
fn parser_parenthesized_single_collapses() {
    let ast = parse(lex("a = (5)"));
    match &ast[0] {
        AstNode::Assignment { expr, .. } => {
            assert!(matches!(expr.as_ref(), AstNode::NumberLit(5)));
        },
        other => panic!("expected an assignment, got {:?}", other),
    }
}

#[test]
fn single_layer_row_gives_one_voxel() {
    let scene = run_permissive("voxel M {\n[Layer 0]\nA.\n[Colors]\nA: red\n}\nm = M\n");
    assert_eq!(scene.voxels.len(), 1);
    let v = &scene.voxels[0];
    assert_eq!((v.x, v.y, v.z), (0, 0, 0));
    assert_eq!(v.color, "#ff0000");
}

#[test]
fn unknown_glyph_gets_deterministic_color() {
    let src = "voxel M {\n[Layer 0]\nZ\n}\nm = M\n";
    let first = run_permissive(src);
    let second = run_permissive(src);
    assert_eq!(first.voxels.len(), 1);
    let c1 = &first.voxels[0].color;
    let c2 = &second.voxels[0].color;
    assert_eq!(c1, c2);
    assert!(c1.starts_with('#'));
    assert_eq!(c1.len(), 7);
}

#[test]
fn strict_mode_reports_unknown_glyph() {
    let ast = parse(lex("voxel M {\n[Layer 0]\nZ\n}\nm = M\n"));
    let err = eval_with_mode(&ast, Mode::Strict).unwrap_err();
    assert!(matches!(err.kind, ErrorKind::UnknownGlyph));
    assert_eq!(err.subject, "Z");
    assert_eq!(err.model, "M");
}

#[test]
fn strict_mode_reports_unknown_atom() {
    let src = "voxel M {\nlegend { s = stone }\n[Layer 0]\ns\n}\nm = M\n";
    let err = eval_with_mode(&parse(lex(src)), Mode::Strict).unwrap_err();
    assert!(matches!(err.kind, ErrorKind::UnknownAtom));
    assert_eq!(err.subject, "stone");
}

#[test]
fn strict_mode_reports_atom_without_color() {
    let src =
        "atom stone { weight = heavy }\nvoxel M {\nlegend { s = stone }\n[Layer 0]\ns\n}\nm = M\n";
    let err = eval_with_mode(&parse(lex(src)), Mode::Strict).unwrap_err();
    assert!(matches!(err.kind, ErrorKind::AtomWithoutColor));
    assert_eq!(err.subject, "stone");
}

#[test]
fn strict_mode_reports_unknown_color_name() {
    let src = "voxel M {\n[Layer 0]\nA\n[Colors]\nA: turquoise\n}\nm = M\n";
    let err = eval_with_mode(&parse(lex(src)), Mode::Strict).unwrap_err();
    assert!(matches!(err.kind, ErrorKind::UnknownColorName));
    assert_eq!(err.subject, "turquoise");
}

#[test]
fn strict_mode_reports_non_ascii_glyph() {
    let src = "voxel M {\n[Layer 0]\n\u{e9}\n}\nm = M\n";
    let err = eval_with_mode(&parse(lex(src)), Mode::Strict).unwrap_err();
    assert!(matches!(err.kind, ErrorKind::NonAsciiGlyph));
}

#[test]
fn permissive_mode_accepts_what_strict_rejects() {
    let ast = parse(lex("voxel M {\n[Layer 0]\nZ\n}\nm = M\n"));
    assert!(eval_with_mode(&ast, Mode::Strict).is_err());
    let (scene, _log) = eval_with_mode(&ast, Mode::Permissive).unwrap();
    assert_eq!(scene.flatten().voxels.len(), 1);
}

#[test]
fn legend_resolves_atom_color() {
    let src = "atom wood { color = brown }\nvoxel M {\nlegend { w = wood }\n[Layer 0]\nw\n}\nm = M\n";
    let scene = run_permissive(src);
    assert_eq!(scene.voxels.len(), 1);
    assert_eq!(scene.voxels[0].color, "#8b4513");
}

#[test]
fn hex_literal_color_is_kept() {
    // a bare `#` would start a comment, so hex literals reach a color
    // entry through a bound string and the alias chase
    let src = "h = '#abcdef'\nvoxel M {\nadd Colors { A: h }\n[Layer 0]\nA\n}\nm = M\n";
    let scene = run_permissive(src);
    assert_eq!(scene.voxels.len(), 1);
    assert_eq!(scene.voxels[0].color, "#abcdef");
}

#[test]
fn malformed_for_contributes_nothing() {
    // a `for` with nothing after it consumes its tokens but adds no node
    let ast = parse(lex("voxel M {\nfor\n}"));
    match &ast[0] {
        AstNode::VoxelDecl { body, .. } => assert!(body.is_empty()),
        other => panic!("expected a model declaration, got {:?}", other),
    }
    // a range with the wrong number of bounds adds no node either
    let ast2 = parse(lex("voxel M {\nfor i in range(1): { }\n[Layer 0]\nA\n}"));
    match &ast2[0] {
        AstNode::VoxelDecl { body, .. } => {
            for node in body {
                assert!(
                    matches!(
                        node,
                        AstNode::LayerDecl { .. }
                            | AstNode::ColorDecl { .. }
                            | AstNode::AddLayer { .. }
                            | AstNode::AddColor { .. }
                            | AstNode::LegendDecl { .. }
                            | AstNode::ForLoop { .. }
                            | AstNode::ForRange { .. }
                    ),
                    "body node is not a legal body form: {:?}",
                    node
                );
            }
        },
        other => panic!("expected a model declaration, got {:?}", other),
    }
}

#[test]
fn for_range_repeats_placement() {
    let src = "voxel M {\nfor i in range(0, 3): {\nadd Layers(1, 2, 3) { red }\n}\n}\nm = M\n";
    let scene = run_permissive(src);
    assert_eq!(scene.voxels.len(), 3);
    for v in &scene.voxels {
        assert_eq!((v.x, v.y, v.z), (1, 2, 3));
        assert_eq!(v.color, "#ff0000");
    }
}

#[test]
fn merge_concatenates_and_single_is_identity() {
    let src = "voxel A {\n[Layer 0]\nx\n[Colors]\nx: red\n}\nvoxel B {\n[Layer 0]\nyy\n[Colors]\ny: blue\n}\nc = merge(A, B)\n";
    let ast = parse(lex(src));
    let (scene, _log) = eval_with_mode(&ast, Mode::Permissive).unwrap();
    // merge instantiated A and B, then appended the merged instance
    assert_eq!(scene.instances.len(), 3);
    let merged = &scene.instances[2];
    assert_eq!(merged.model.name, "A_B");
    assert_eq!(merged.model.voxels.len(), 3);

    let single = parse(lex(
        "voxel A {\n[Layer 0]\nx\n[Colors]\nx: red\n}\nc = merge(A)\n",
    ));
    let (scene1, _log) = eval_with_mode(&single, Mode::Permissive).unwrap();
    let merged1 = &scene1.instances[1];
    assert_eq!(merged1.model.name, "A");
    assert_eq!(merged1.model.voxels.len(), 1);
}

#[test]
fn translate_appends_and_offsets() {
    let src = "voxel A {\n[Layer 0]\nx\n[Colors]\nx: red\n}\na = A\nb = translate(a, x = 5, z = 2)\n";
    let ast = parse(lex(src));
    let (scene, _log) = eval_with_mode(&ast, Mode::Permissive).unwrap();
    assert_eq!(scene.instances.len(), 2);
    let original = &scene.instances[0];
    let moved = &scene.instances[1];
    assert_eq!(original.transform.dx, 0);
    assert_eq!(moved.transform.dx, 5);
    assert_eq!(moved.transform.dy, 0);
    assert_eq!(moved.transform.dz, 2);
    let flat = scene.flatten();
    assert_eq!(flat.voxels.len(), 2);
    assert_eq!(
        (flat.voxels[1].x, flat.voxels[1].y, flat.voxels[1].z),
        (5, 0, 2)
    );
}

#[test]
fn translate_twice_equals_summed_offsets() {
    let base = Instance {
        model: Model {
            name: "m".to_owned(),
            voxels: vec![Voxel { x: 1, y: 2, z: 3, color: "#ff0000".to_owned() }],
        },
        transform: Transform3D::default(),
    };
    let kv1 = vec![
        ("x".to_owned(), Value::Number(1)),
        ("y".to_owned(), Value::Number(2)),
    ];
    let kv2 = vec![("x".to_owned(), Value::Number(3))];
    let kv_sum = vec![
        ("x".to_owned(), Value::Number(4)),
        ("y".to_owned(), Value::Number(2)),
    ];
    let two_steps = apply_translation(&apply_translation(&base, &kv1), &kv2);
    let one_step = apply_translation(&base, &kv_sum);
    let a = resolve_instance(&two_steps);
    let b = resolve_instance(&one_step);
    assert_eq!(a.len(), b.len());
    for (va, vb) in a.iter().zip(b.iter()) {
        assert_eq!((va.x, va.y, va.z), (vb.x, vb.y, vb.z));
    }
    // the base instance is untouched by either translation
    assert_eq!(base.transform.dx, 0);
    assert_eq!(base.transform.dy, 0);
}

#[test]
fn rotation_sequence_then_translation() {
    let inst = Instance {
        model: Model {
            name: "m".to_owned(),
            voxels: vec![Voxel { x: 1, y: 0, z: 0, color: "#00ff00".to_owned() }],
        },
        transform: Transform3D { dx: 5, dy: 0, dz: 0, rotations: vec![(Axis::Z, 1)] },
    };
    let scene = SceneGraph { instances: vec![inst] };
    let flat = scene.flatten();
    assert_eq!(flat.voxels.len(), 1);
    let v = &flat.voxels[0];
    assert_eq!((v.x, v.y, v.z), (5, 1, 0));
    assert_eq!(v.color, "#00ff00");
}

#[test]
fn four_quarter_turns_are_identity() {
    for axis in [Axis::X, Axis::Y, Axis::Z] {
        assert_eq!(rotate_point_90(3, -4, 5, axis, 4), (3, -4, 5));
        assert_eq!(rotate_point_90(3, -4, 5, axis, 7), rotate_point_90(3, -4, 5, axis, 3));
        assert_eq!(rotate_point_90(3, -4, 5, axis, -1), rotate_point_90(3, -4, 5, axis, 3));
    }
}

#[test]
fn turn_normalization() {
    assert_eq!(norm_turns(0), 0);
    assert_eq!(norm_turns(5), 1);
    assert_eq!(norm_turns(-1), 3);
    assert_eq!(norm_turns(-8), 0);
    assert_eq!(norm_turns(i32::MIN), 0);
}

#[test]
fn axis_parse_is_strict() {
    assert_eq!(Axis::parse("x"), Some(Axis::X));
    assert_eq!(Axis::parse("Y"), Some(Axis::Y));
    assert_eq!(Axis::parse("z"), Some(Axis::Z));
    assert_eq!(Axis::parse("w"), None);
    assert_eq!(Axis::parse("xy"), None);
    assert_eq!(Axis::parse(""), None);
}

#[test]
fn builtin_color_table() {
    let t = default_colors();
    assert_eq!(t.get("red").unwrap(), "#ff0000");
    assert_eq!(t.get("moxi-pink").unwrap(), "#fcb7b7");
    assert!(t.get("turquoise").is_none());
}

#[test]
fn value_rendering() {
    assert_eq!(value_to_string(&Value::Number(42)), "42");
    assert_eq!(value_to_string(&Value::Number(-7)), "-7");
    assert_eq!(value_to_string(&Value::Str("hello".to_owned())), "hello");
    assert_eq!(value_to_string(&Value::Ident("name".to_owned())), "name");
}

#[test]
fn print_statements_fill_the_log() {
    let ast = parse(lex("print foo\nprint\n"));
    let (_scene, log) = eval_with_mode(&ast, Mode::Permissive).unwrap();
    assert_eq!(log.len(), 2);
    assert_eq!(log[0], "unknown identifier foo");
    assert_eq!(log[1], "scene has 0 instances");
}

#[test]
fn bare_identifier_instantiates() {
    let src = "voxel M {\n[Layer 0]\nA\n[Colors]\nA: green\n}\nM\n";
    let ast = parse(lex(src));
    let (scene, log) = eval_with_mode(&ast, Mode::Permissive).unwrap();
    assert_eq!(scene.instances.len(), 1);
    assert_eq!(log.len(), 1);
    assert_eq!(log[0], "instantiated M");
}

#[test]
fn voxgrid_parses_layers_and_colors() {
    let scene = parse_voxgrid("[Layer 0]\nAB\n.A\n[Colors]\nA: red\nB: #00ff00\n");
    assert_eq!(scene.voxels.len(), 3);
    let v0 = &scene.voxels[0];
    assert_eq!((v0.x, v0.y, v0.z), (0, 0, 0));
    assert_eq!(v0.color, "#ff0000");
    let v1 = &scene.voxels[1];
    assert_eq!((v1.x, v1.y, v1.z), (1, 0, 0));
    assert_eq!(v1.color, "#00ff00");
    let v2 = &scene.voxels[2];
    assert_eq!((v2.x, v2.y, v2.z), (1, 1, 0));
}

#[test]
fn voxgrid_unknown_symbol_gets_placeholder() {
    let scene = parse_voxgrid("[Layer 0]\nQ\n");
    assert_eq!(scene.voxels.len(), 1);
    assert_eq!(scene.voxels[0].color, "#888888");
}

#[test]
fn build_scene_expands_collected_models() {
    let ast = parse(lex("voxel M {\n[Layer 0]\nAB\n[Colors]\nA: red\nB: blue\n}\n"));
    let scene = expand::build_scene(ast);
    assert_eq!(scene.instances.len(), 1);
    let model = &scene.instances[0].model;
    assert_eq!(model.name, "M");
    assert_eq!(model.voxels.len(), 2);
    assert_eq!(model.voxels[0].color, "#ff0000");
    assert_eq!(model.voxels[1].color, "#0000ff");
}

#[test]
fn run_flattens_collected_models() {
    let ast = parse(lex("voxel M {\n[Layer 0]\nA\n[Colors]\nA: red\n}\n"));
    let flat = expand::run(ast);
    assert_eq!(flat.voxels.len(), 1);
    assert_eq!(flat.voxels[0].color, "#ff0000");
}

#[test]
fn scene_normalize_shifts_negative_minima() {
    let mut scene = VoxelScene {
        voxels: vec![
            Voxel { x: -1, y: 0, z: 2, color: "#ff0000".to_owned() },
            Voxel { x: 3, y: -2, z: 4, color: "#00ff00".to_owned() },
        ],
    };
    scene.normalize();
    assert_eq!((scene.voxels[0].x, scene.voxels[0].y, scene.voxels[0].z), (0, 2, 0));
    assert_eq!((scene.voxels[1].x, scene.voxels[1].y, scene.voxels[1].z), (4, 0, 2));
}

#[test]
fn builtin_scene_operations() {
    let scene = VoxelScene {
        voxels: vec![Voxel { x: 1, y: 0, z: 0, color: "#ff0000".to_owned() }],
    };
    let moved = builtins::translate(&scene, 1, 2, 3);
    assert_eq!((moved.voxels[0].x, moved.voxels[0].y, moved.voxels[0].z), (2, 2, 3));

    // one quarter turn around z maps (1, 0, 0) to (0, 1, 0); already nonnegative
    let rotated = builtins::rotate(&scene, "z", 1).unwrap();
    assert_eq!(
        (rotated.voxels[0].x, rotated.voxels[0].y, rotated.voxels[0].z),
        (0, 1, 0)
    );
    assert!(builtins::rotate(&scene, "q", 1).is_none());

    let merged = builtins::merge(&vec![scene, moved]);
    assert_eq!(merged.voxels.len(), 2);
}

#[test]
fn scene_commands() {
    let inst = Instance {
        model: Model {
            name: "m".to_owned(),
            voxels: vec![Voxel { x: 0, y: 0, z: 0, color: "#ff0000".to_owned() }],
        },
        transform: Transform3D::default(),
    };
    let mut scene = SceneGraph { instances: vec![inst] };
    commands::do_clone(&mut scene, &Vec::new());
    assert_eq!(scene.instances.len(), 2);

    commands::do_translate(
        &mut scene,
        &vec!["1".to_owned(), "2".to_owned(), "3".to_owned()],
    );
    assert_eq!(scene.instances[1].transform.dx, 1);
    assert_eq!(scene.instances[1].transform.dz, 3);

    assert!(commands::do_rotate(&mut scene, &vec!["z".to_owned(), "1".to_owned()]));
    assert!(!commands::do_rotate(&mut scene, &vec!["q".to_owned(), "1".to_owned()]));
    assert_eq!(scene.instances[1].transform.rotations.len(), 1);

    commands::do_merge(&mut scene, &vec!["m".to_owned(), "m".to_owned()]);
    assert_eq!(scene.instances.len(), 3);
    assert_eq!(scene.instances[2].model.name, "m_m");
    assert_eq!(scene.instances[2].model.voxels.len(), 2);

    let names = commands::list_commands();
    assert_eq!(names, vec!["print", "clone", "translate", "rotate", "merge"]);
}

#[test]
fn fallback_color_differs_from_identity_symbols() {
    // two different symbols hash to different colors, the same symbol to the same
    let a = expand::default_color_for_symbol("Z");
    let b = expand::default_color_for_symbol("Z");
    let c = expand::default_color_for_symbol("Q");
    assert_eq!(a, b);
    assert_ne!(a, c);
}

#[test]
fn color_alias_chain_resolves_to_its_end() {
    // a long alias chain is chased all the way to the built-in name
    let mut src = String::from("a0 = 'red'\n");
    for i in 1..70 {
        src.push_str(&format!("a{} = 'a{}'\n", i, i - 1));
    }
    src.push_str("voxel M {\nadd Colors { X: a69 }\n[Layer 0]\nX\n}\nm = M\n");
    let scene = run_permissive(&src);
    assert_eq!(scene.voxels.len(), 1);
    assert_eq!(scene.voxels[0].color, "#ff0000");
}

#[test]
fn cyclic_color_alias_stops_at_repeat() {
    // a cyclic alias chain stops at the first name that would repeat
    let src = "a = 'b'\nb = 'a'\nvoxel M {\nadd Colors { X: a }\n[Layer 0]\nX\n}\nm = M\n";
    let scene = run_permissive(src);
    assert_eq!(scene.voxels.len(), 1);
    assert_eq!(scene.voxels[0].color, "a");
}

#[test]
fn environment_shadowing_and_scope_isolation() {
    // the loop variable is bound in a copied scope: it does not leak out
    let src = "i = 7\nvoxel M {\nfor i in range(0, 2): {\nadd Layers(0, 0, 0) { red }\n}\n}\nm = M\nprint i\n";
    let ast = parse(lex(src));
    let (scene, log) = eval_with_mode(&ast, Mode::Permissive).unwrap();
    assert_eq!(scene.flatten().voxels.len(), 2);
    assert_eq!(log[0], "i = 7");
}
