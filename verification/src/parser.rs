//! The parser: a recursive-descent pass from the token stream to top-level
//! AST nodes. It never fails on malformed input: unmatched or unexpected
//! tokens are skipped, and a malformed block contributes nothing.
//!
//! Every function mirrors a specification function over token views; the
//! contracts say that the parse result and the index reached are exactly
//! those of the specification.

use vstd::prelude::*;

use crate::ast::{asts_view, kvs_view, pairs_view, strings_view, AstNode, AstV};
use crate::lexer::{tokens_view, Token, TokenV};
use crate::strutil::str_eq;

verus! {

/// The next index a scanning pass continues from, held inside the bounds the
/// callee is known to respect: at least `floor`, at most `len`.
pub open spec fn clamp_idx(j: int, floor: int, len: int) -> int {
    if j < floor {
        if floor > len {
            len
        } else {
            floor
        }
    } else if j > len {
        len
    } else {
        j
    }
}

/// One token consumed if any is left: how an iterator's `next` advances.
pub open spec fn skip1(i: int, len: int) -> int {
    if i < len {
        i + 1
    } else {
        i
    }
}

/// Scan `key = value` pairs until a closing brace: used by atom bodies and
/// legend blocks. A key is consumed, then the next token; only when that is
/// `=` and an identifier follows is a pair recorded.
pub open spec fn scan_eq_pairs_spec(t: Seq<TokenV>, i: int, acc: Seq<(Seq<char>, Seq<char>)>) -> (
    Seq<(Seq<char>, Seq<char>)>,
    int,
)
    decreases t.len() - i, 0int,
{
    if i < 0 || i >= t.len() {
        (acc, if i < 0 {
            0int
        } else {
            t.len() as int
        })
    } else {
        match t[i] {
            TokenV::Ident(key) => {
                if i + 1 < t.len() {
                    match t[i + 1] {
                        TokenV::Equals => {
                            if i + 2 < t.len() {
                                match t[i + 2] {
                                    TokenV::Ident(val) => scan_eq_pairs_spec(
                                        t,
                                        i + 3,
                                        acc.push((key, val)),
                                    ),
                                    _ => scan_eq_pairs_spec(t, i + 3, acc),
                                }
                            } else {
                                (acc, t.len() as int)
                            }
                        },
                        _ => scan_eq_pairs_spec(t, i + 2, acc),
                    }
                } else {
                    (acc, t.len() as int)
                }
            },
            TokenV::RBrace => (acc, i + 1),
            _ => scan_eq_pairs_spec(t, i + 1, acc),
        }
    }
}

fn scan_eq_pairs(toks: &Vec<Token>, i: usize, acc: Vec<(String, String)>) -> (r: (
    Vec<(String, String)>,
    usize,
))
    requires
        i <= toks@.len(),
    ensures
        ({
            let (sacc, sj) = scan_eq_pairs_spec(tokens_view(toks@), i as int, pairs_view(acc@));
            pairs_view(r.0@) == sacc && r.1 as int == sj && i <= r.1 <= toks@.len()
        }),
    decreases toks@.len() - i, 0int,
{
    let n = toks.len();
    proof {
        assert(tokens_view(toks@).len() == toks@.len());
    }
    if i >= n {
        return (acc, n);
    }
    proof {
        assert(tokens_view(toks@)[i as int] == toks@[i as int]@);
    }
    match &toks[i] {
        Token::Ident(key) => {
            if i + 1 < n {
                proof {
                    assert(tokens_view(toks@)[i + 1] == toks@[i + 1]@);
                }
                match &toks[i + 1] {
                    Token::Equals => {
                        if i + 2 < n {
                            proof {
                                assert(tokens_view(toks@)[i + 2] == toks@[i + 2]@);
                            }
                            match &toks[i + 2] {
                                Token::Ident(val) => {
                                    let k = key.clone();
                                    let v = val.clone();
                                    let ghost pre = acc@;
                                    let mut acc2 = acc;
                                    acc2.push((k, v));
                                    proof {
                                        crate::ast::lemma_pairs_view_push(pre, (k, v));
                                    }
                                    scan_eq_pairs(toks, i + 3, acc2)
                                },
                                _ => scan_eq_pairs(toks, i + 3, acc),
                            }
                        } else {
                            (acc, n)
                        }
                    },
                    _ => scan_eq_pairs(toks, i + 2, acc),
                }
            } else {
                (acc, n)
            }
        },
        Token::RBrace => (acc, i + 1),
        _ => scan_eq_pairs(toks, i + 1, acc),
    }
}

/// What parsing `atom Name { key = value ... }` means. The token at `i` (the
/// `atom` keyword) is consumed; a missing name becomes `<missing_atom>`.
pub open spec fn parse_atom_spec(t: Seq<TokenV>, i: int) -> (AstV, int)
    decreases t.len() - i, 1int,
{
    let i1 = i + 1;
    let (name, i2): (Seq<char>, int) = if i1 < t.len() {
        match t[i1] {
            TokenV::Ident(id) => (id, i1 + 1),
            _ => ("<missing_atom>"@, i1 + 1),
        }
    } else {
        ("<missing_atom>"@, skip1(i1, t.len() as int))
    };
    if i2 < t.len() && t[i2] is LBrace {
        let (props, j) = scan_eq_pairs_spec(t, i2 + 1, Seq::empty());
        (AstV::AtomDecl { name, props }, j)
    } else {
        (AstV::AtomDecl { name, props: Seq::empty() }, i2)
    }
}

/// Parse an atom declaration. The index must sit on the `atom` keyword;
/// the result is exactly what `parse_atom_spec` describes.
pub fn parse_atom(toks: &Vec<Token>, i: usize) -> (r: (AstNode, usize))
    requires
        i < toks@.len(),
    ensures
        ({
            let (nv, sj) = parse_atom_spec(tokens_view(toks@), i as int);
            r.0@ == nv && r.1 as int == sj && i < r.1 <= toks@.len()
        }),
{
    let n = toks.len();
    proof {
        assert(tokens_view(toks@).len() == toks@.len());
    }
    let i1 = i + 1;
    let (name, i2): (String, usize) = if i1 < n {
        proof {
            assert(tokens_view(toks@)[i1 as int] == toks@[i1 as int]@);
        }
        match &toks[i1] {
            Token::Ident(id) => (id.clone(), i1 + 1),
            _ => ("<missing_atom>".to_owned(), i1 + 1),
        }
    } else {
        ("<missing_atom>".to_owned(), i1)
    };
    if i2 < n {
        proof {
            assert(tokens_view(toks@)[i2 as int] == toks@[i2 as int]@);
        }
        if matches!(&toks[i2], Token::LBrace) {
            let empty_acc: Vec<(String, String)> = Vec::new();
            proof {
                assert(pairs_view(empty_acc@) =~= Seq::<(Seq<char>, Seq<char>)>::empty());
            }
            let (props, j) = scan_eq_pairs(toks, i2 + 1, empty_acc);
            return (AstNode::AtomDecl { name, props }, j);
        }
    }
    let props: Vec<(String, String)> = Vec::new();
    proof {
        assert(pairs_view(props@) =~= Seq::<(Seq<char>, Seq<char>)>::empty());
    }
    (AstNode::AtomDecl { name, props }, i2)
}

/// What parsing `legend { glyph = atomName ... }` means. The token at `i`
/// (the `legend` identifier) is consumed.
pub open spec fn parse_legend_spec(t: Seq<TokenV>, i: int) -> (AstV, int)
    decreases t.len() - i, 1int,
{
    let i1 = i + 1;
    if i1 < t.len() && t[i1] is LBrace {
        let (mappings, j) = scan_eq_pairs_spec(t, i1 + 1, Seq::empty());
        (AstV::LegendDecl { mappings }, j)
    } else {
        (AstV::LegendDecl { mappings: Seq::empty() }, i1)
    }
}

/// Parse a legend block. The index must sit on the `legend` identifier;
/// the result is exactly what `parse_legend_spec` describes.
pub fn parse_legend(toks: &Vec<Token>, i: usize) -> (r: (AstNode, usize))
    requires
        i < toks@.len(),
    ensures
        ({
            let (nv, sj) = parse_legend_spec(tokens_view(toks@), i as int);
            r.0@ == nv && r.1 as int == sj && i < r.1 <= toks@.len()
        }),
{
    let n = toks.len();
    proof {
        assert(tokens_view(toks@).len() == toks@.len());
    }
    let i1 = i + 1;
    if i1 < n {
        proof {
            assert(tokens_view(toks@)[i1 as int] == toks@[i1 as int]@);
        }
        if matches!(&toks[i1], Token::LBrace) {
            let empty_acc: Vec<(String, String)> = Vec::new();
            proof {
                assert(pairs_view(empty_acc@) =~= Seq::<(Seq<char>, Seq<char>)>::empty());
            }
            let (mappings, j) = scan_eq_pairs(toks, i1 + 1, empty_acc);
            return (AstNode::LegendDecl { mappings }, j);
        }
    }
    let mappings: Vec<(String, String)> = Vec::new();
    proof {
        assert(pairs_view(mappings@) =~= Seq::<(Seq<char>, Seq<char>)>::empty());
    }
    (AstNode::LegendDecl { mappings }, i1)
}

/// What parsing `print [name]` means: the keyword is consumed, and a
/// following identifier, if any, becomes the target.
pub open spec fn parse_print_spec(t: Seq<TokenV>, i: int) -> (AstV, int) {
    let i1 = i + 1;
    if i1 < t.len() {
        match t[i1] {
            TokenV::Ident(id) => (AstV::Print { target: Some(id) }, i1 + 1),
            _ => (AstV::Print { target: None }, i1),
        }
    } else {
        (AstV::Print { target: None }, i1)
    }
}

/// Parse a print statement. The index must sit on the `print` keyword;
/// the result is exactly what `parse_print_spec` describes.
pub fn parse_print(toks: &Vec<Token>, i: usize) -> (r: (AstNode, usize))
    requires
        i < toks@.len(),
    ensures
        ({
            let (nv, sj) = parse_print_spec(tokens_view(toks@), i as int);
            r.0@ == nv && r.1 as int == sj && i < r.1 <= toks@.len()
        }),
{
    let n = toks.len();
    proof {
        assert(tokens_view(toks@).len() == toks@.len());
    }
    let i1 = i + 1;
    if i1 < n {
        proof {
            assert(tokens_view(toks@)[i1 as int] == toks@[i1 as int]@);
        }
        match &toks[i1] {
            Token::Ident(id) => {
                return (AstNode::Print { target: Some(id.clone()) }, i1 + 1);
            },
            _ => {
                return (AstNode::Print { target: None }, i1);
            },
        }
    }
    (AstNode::Print { target: None }, i1)
}

/// A finished argument list: the keyword pairs, if any, collapse into one
/// trailing map argument after the positional arguments.
pub open spec fn finalize_args(elems: Seq<AstV>, kvs: Seq<(Seq<char>, AstV)>) -> Seq<AstV> {
    if kvs.len() > 0 {
        elems.push(AstV::KVArgs(kvs))
    } else {
        elems
    }
}

/// Scan a comma-separated argument list up to its end token: a right
/// parenthesis when `end_paren` holds, else a right bracket. Identifiers,
/// strings and numbers are positional arguments; `key = expr` pairs are
/// collected separately; other tokens are skipped.
pub open spec fn parse_arg_list_spec(
    t: Seq<TokenV>,
    i: int,
    end_paren: bool,
    elems: Seq<AstV>,
    kvs: Seq<(Seq<char>, AstV)>,
) -> (Seq<AstV>, int)
    decreases t.len() - i, 0int,
{
    if i < 0 || i >= t.len() {
        (finalize_args(elems, kvs), if i < 0 {
            0int
        } else {
            t.len() as int
        })
    } else {
        match t[i] {
            TokenV::Ident(id) => {
                if i + 1 < t.len() && t[i + 1] is Equals {
                    let (val, j) = parse_expression_spec(t, i + 2);
                    parse_arg_list_spec(
                        t,
                        clamp_idx(j, i + 2, t.len() as int),
                        end_paren,
                        elems,
                        kvs.push((id, val)),
                    )
                } else {
                    parse_arg_list_spec(t, i + 1, end_paren, elems.push(AstV::Ident(id)), kvs)
                }
            },
            TokenV::StringLit(s) => parse_arg_list_spec(
                t,
                i + 1,
                end_paren,
                elems.push(AstV::StringLit(s)),
                kvs,
            ),
            TokenV::NumberLit(k) => parse_arg_list_spec(
                t,
                i + 1,
                end_paren,
                elems.push(AstV::NumberLit(k)),
                kvs,
            ),
            TokenV::Comma => parse_arg_list_spec(t, i + 1, end_paren, elems, kvs),
            TokenV::RParen => {
                if end_paren {
                    (finalize_args(elems, kvs), i + 1)
                } else {
                    parse_arg_list_spec(t, i + 1, end_paren, elems, kvs)
                }
            },
            TokenV::RBracket => {
                if !end_paren {
                    (finalize_args(elems, kvs), i + 1)
                } else {
                    parse_arg_list_spec(t, i + 1, end_paren, elems, kvs)
                }
            },
            _ => parse_arg_list_spec(t, i + 1, end_paren, elems, kvs),
        }
    }
}

/// What parsing one expression means: an identifier (a call when a
/// parenthesis follows), a literal, a bracketed array, or a parenthesized
/// list that collapses to its single element; anything else is consumed as
/// the identifier `unknown`.
pub open spec fn parse_expression_spec(t: Seq<TokenV>, i: int) -> (AstV, int)
    decreases t.len() - i, 1int,
{
    if i < 0 || i >= t.len() {
        (AstV::Ident("unknown"@), if i < 0 {
            0int
        } else {
            i
        })
    } else {
        match t[i] {
            TokenV::Ident(id) => {
                if i + 1 < t.len() && t[i + 1] is LParen {
                    let (elems, j) = parse_arg_list_spec(
                        t,
                        i + 2,
                        true,
                        Seq::empty(),
                        Seq::empty(),
                    );
                    (AstV::FunctionCall { name: id, args: elems }, j)
                } else {
                    (AstV::Ident(id), i + 1)
                }
            },
            TokenV::StringLit(s) => (AstV::StringLit(s), i + 1),
            TokenV::NumberLit(k) => (AstV::NumberLit(k), i + 1),
            TokenV::LBracket => {
                let (elems, j) = parse_arg_list_spec(t, i + 1, false, Seq::empty(), Seq::empty());
                (AstV::ArrayLit(elems), j)
            },
            TokenV::LParen => {
                let (elems, j) = parse_arg_list_spec(t, i + 1, true, Seq::empty(), Seq::empty());
                if elems.len() == 1 {
                    (elems[0], j)
                } else {
                    (AstV::ArrayLit(elems), j)
                }
            },
            _ => (AstV::Ident("unknown"@), i + 1),
        }
    }
}

fn parse_arg_list_rec(
    toks: &Vec<Token>,
    i: usize,
    end_paren: bool,
    elems: Vec<AstNode>,
    kvs: Vec<(String, AstNode)>,
) -> (r: (Vec<AstNode>, usize))
    requires
        i <= toks@.len(),
    ensures
        ({
            let (selems, sj) = parse_arg_list_spec(
                tokens_view(toks@),
                i as int,
                end_paren,
                asts_view(elems@),
                kvs_view(kvs@),
            );
            asts_view(r.0@) == selems && r.1 as int == sj && i <= r.1 <= toks@.len()
        }),
    decreases toks@.len() - i, 0int,
{
    let n = toks.len();
    proof {
        assert(tokens_view(toks@).len() == toks@.len());
    }
    if i >= n {
        let out = finalize_args_exec(elems, kvs);
        return (out, n);
    }
    proof {
        assert(tokens_view(toks@)[i as int] == toks@[i as int]@);
    }
    match &toks[i] {
        Token::Ident(id) => {
            let mut is_kv = false;
            if i + 1 < n {
                proof {
                    assert(tokens_view(toks@)[i + 1] == toks@[i + 1]@);
                }
                is_kv = matches!(&toks[i + 1], Token::Equals);
            }
            if is_kv {
                let (val, j) = parse_expression(toks, i + 2);
                let k = id.clone();
                let ghost pre = kvs@;
                let mut kvs2 = kvs;
                kvs2.push((k, val));
                proof {
                    crate::ast::lemma_kvs_view_push(pre, kvs2@.last());
                    assert(clamp_idx(j as int, i + 2, toks@.len() as int) == j as int);
                }
                parse_arg_list_rec(toks, j, end_paren, elems, kvs2)
            } else {
                let ghost pre = elems@;
                let mut elems2 = elems;
                elems2.push(AstNode::Ident(id.clone()));
                proof {
                    crate::ast::lemma_asts_view_push(pre, elems2@.last());
                }
                parse_arg_list_rec(toks, i + 1, end_paren, elems2, kvs)
            }
        },
        Token::StringLit(s) => {
            let ghost pre = elems@;
            let mut elems2 = elems;
            elems2.push(AstNode::StringLit(s.clone()));
            proof {
                crate::ast::lemma_asts_view_push(pre, elems2@.last());
            }
            parse_arg_list_rec(toks, i + 1, end_paren, elems2, kvs)
        },
        Token::NumberLit(k) => {
            let ghost pre = elems@;
            let mut elems2 = elems;
            elems2.push(AstNode::NumberLit(*k));
            proof {
                crate::ast::lemma_asts_view_push(pre, elems2@.last());
            }
            parse_arg_list_rec(toks, i + 1, end_paren, elems2, kvs)
        },
        Token::Comma => parse_arg_list_rec(toks, i + 1, end_paren, elems, kvs),
        Token::RParen => {
            if end_paren {
                let out = finalize_args_exec(elems, kvs);
                (out, i + 1)
            } else {
                parse_arg_list_rec(toks, i + 1, end_paren, elems, kvs)
            }
        },
        Token::RBracket => {
            if !end_paren {
                let out = finalize_args_exec(elems, kvs);
                (out, i + 1)
            } else {
                parse_arg_list_rec(toks, i + 1, end_paren, elems, kvs)
            }
        },
        _ => parse_arg_list_rec(toks, i + 1, end_paren, elems, kvs),
    }
}

fn finalize_args_exec(elems: Vec<AstNode>, kvs: Vec<(String, AstNode)>) -> (r: Vec<AstNode>)
    ensures
        asts_view(r@) == finalize_args(asts_view(elems@), kvs_view(kvs@)),
{
    proof {
        crate::ast::lemma_kvs_view_len(kvs@);
    }
    if kvs.len() > 0 {
        let ghost pre = elems@;
        let mut out = elems;
        out.push(AstNode::KVArgs(kvs));
        proof {
            crate::ast::lemma_asts_view_push(pre, out@.last());
        }
        out
    } else {
        elems
    }
}

/// Parse a comma-separated argument list, as used by call parentheses and
/// array brackets: exactly what `parse_arg_list_spec` describes, starting
/// from empty accumulators.
pub fn parse_arg_list(toks: &Vec<Token>, i: usize, end_paren: bool) -> (r: (Vec<AstNode>, usize))
    requires
        i <= toks@.len(),
    ensures
        ({
            let (selems, sj) = parse_arg_list_spec(
                tokens_view(toks@),
                i as int,
                end_paren,
                Seq::empty(),
                Seq::empty(),
            );
            asts_view(r.0@) == selems && r.1 as int == sj && i <= r.1 <= toks@.len()
        }),
    decreases toks@.len() - i, 1int,
{
    let elems: Vec<AstNode> = Vec::new();
    let kvs: Vec<(String, AstNode)> = Vec::new();
    proof {
        assert(asts_view(elems@) =~= Seq::<AstV>::empty());
        assert(kvs_view(kvs@) =~= Seq::<(Seq<char>, AstV)>::empty());
    }
    parse_arg_list_rec(toks, i, end_paren, elems, kvs)
}

/// Parse one expression: exactly what `parse_expression_spec` describes.
pub fn parse_expression(toks: &Vec<Token>, i: usize) -> (r: (AstNode, usize))
    requires
        i <= toks@.len(),
    ensures
        ({
            let (nv, sj) = parse_expression_spec(tokens_view(toks@), i as int);
            r.0@ == nv && r.1 as int == sj && i <= r.1 <= toks@.len()
        }),
    decreases toks@.len() - i, 2int,
{
    let n = toks.len();
    proof {
        assert(tokens_view(toks@).len() == toks@.len());
    }
    if i >= n {
        return (AstNode::Ident("unknown".to_owned()), i);
    }
    proof {
        assert(tokens_view(toks@)[i as int] == toks@[i as int]@);
    }
    match &toks[i] {
        Token::Ident(id) => {
            let mut is_call = false;
            if i + 1 < n {
                proof {
                    assert(tokens_view(toks@)[i + 1] == toks@[i + 1]@);
                }
                is_call = matches!(&toks[i + 1], Token::LParen);
            }
            if is_call {
                let (args, j) = parse_arg_list(toks, i + 2, true);
                (AstNode::FunctionCall { name: id.clone(), args }, j)
            } else {
                (AstNode::Ident(id.clone()), i + 1)
            }
        },
        Token::StringLit(s) => (AstNode::StringLit(s.clone()), i + 1),
        Token::NumberLit(k) => (AstNode::NumberLit(*k), i + 1),
        Token::LBracket => {
            let (elems, j) = parse_arg_list(toks, i + 1, false);
            (AstNode::ArrayLit(elems), j)
        },
        Token::LParen => {
            let (mut elems, j) = parse_arg_list(toks, i + 1, true);
            proof {
                crate::ast::lemma_asts_view_len(elems@);
            }
            if elems.len() == 1 {
                let e = match elems.pop() {
                    Some(e) => e,
                    None => AstNode::Ident("unknown".to_owned()),
                };
                proof {
                    crate::ast::lemma_asts_view_index(elems@.push(e), 0);
                    assert(elems@.push(e)[0] == e);
                }
                (e, j)
            } else {
                (AstNode::ArrayLit(elems), j)
            }
        },
        _ => (AstNode::Ident("unknown".to_owned()), i + 1),
    }
}

/// What parsing `name = expr` means. The identifier is consumed; only when
/// an equals sign follows does an assignment node come out.
pub open spec fn parse_assignment_spec(t: Seq<TokenV>, i: int) -> (Option<AstV>, int)
    decreases t.len() - i, 2int,
{
    if i < 0 || i >= t.len() {
        (None, if i < 0 {
            0int
        } else {
            i
        })
    } else {
        match t[i] {
            TokenV::Ident(name) => {
                if i + 1 < t.len() && t[i + 1] is Equals {
                    let (val, j) = parse_expression_spec(t, i + 2);
                    (Some(AstV::Assignment { name, expr: Box::new(val) }), j)
                } else {
                    (None, i + 1)
                }
            },
            _ => (None, i + 1),
        }
    }
}

/// Parse `name = expr`: exactly what `parse_assignment_spec` describes.
/// `None` means the identifier was not followed by an equals sign.
pub fn parse_assignment(toks: &Vec<Token>, i: usize) -> (r: (Option<AstNode>, usize))
    requires
        i <= toks@.len(),
    ensures
        ({
            let (nv, sj) = parse_assignment_spec(tokens_view(toks@), i as int);
            (match (r.0, nv) {
                (Some(node), Some(v)) => node@ == v,
                (None, None) => true,
                _ => false,
            }) && r.1 as int == sj && i <= r.1 <= toks@.len() && (i < toks@.len() ==> i < r.1)
        }),
{
    let n = toks.len();
    proof {
        assert(tokens_view(toks@).len() == toks@.len());
    }
    if i >= n {
        return (None, i);
    }
    proof {
        assert(tokens_view(toks@)[i as int] == toks@[i as int]@);
    }
    match &toks[i] {
        Token::Ident(name) => {
            let mut is_assign = false;
            if i + 1 < n {
                proof {
                    assert(tokens_view(toks@)[i + 1] == toks@[i + 1]@);
                }
                is_assign = matches!(&toks[i + 1], Token::Equals);
            }
            if is_assign {
                let (val, j) = parse_expression(toks, i + 2);
                (Some(AstNode::Assignment { name: name.clone(), expr: Box::new(val) }), j)
            } else {
                (None, i + 1)
            }
        },
        _ => (None, i + 1),
    }
}

/// Scan a parenthesized parameter list: identifiers separated by commas,
/// ended by a right parenthesis or by any unexpected token.
pub open spec fn scan_params_spec(t: Seq<TokenV>, i: int, acc: Seq<Seq<char>>) -> (
    Seq<Seq<char>>,
    int,
)
    decreases t.len() - i, 0int,
{
    if i < 0 || i >= t.len() {
        (acc, if i < 0 {
            0int
        } else {
            t.len() as int
        })
    } else {
        match t[i] {
            TokenV::Ident(p) => scan_params_spec(t, i + 1, acc.push(p)),
            TokenV::Comma => scan_params_spec(t, i + 1, acc),
            TokenV::RParen => (acc, i + 1),
            _ => (acc, i + 1),
        }
    }
}

fn scan_params(toks: &Vec<Token>, i: usize, acc: Vec<String>) -> (r: (Vec<String>, usize))
    requires
        i <= toks@.len(),
    ensures
        ({
            let (sacc, sj) = scan_params_spec(tokens_view(toks@), i as int, strings_view(acc@));
            strings_view(r.0@) == sacc && r.1 as int == sj && i <= r.1 <= toks@.len()
        }),
    decreases toks@.len() - i, 0int,
{
    let n = toks.len();
    proof {
        assert(tokens_view(toks@).len() == toks@.len());
    }
    if i >= n {
        return (acc, n);
    }
    proof {
        assert(tokens_view(toks@)[i as int] == toks@[i as int]@);
    }
    match &toks[i] {
        Token::Ident(p) => {
            let ghost pre = acc@;
            let mut acc2 = acc;
            acc2.push(p.clone());
            proof {
                crate::ast::lemma_strings_view_push(pre, acc2@.last());
            }
            scan_params(toks, i + 1, acc2)
        },
        Token::Comma => scan_params(toks, i + 1, acc),
        Token::RParen => (acc, i + 1),
        _ => (acc, i + 1),
    }
}

/// Scan the rows of a layer block: bare identifiers, ended without
/// consuming by a bracket, a brace, a structural keyword, or the words
/// `add` and `for`.
pub open spec fn scan_rows_spec(t: Seq<TokenV>, i: int, acc: Seq<Seq<char>>) -> (
    Seq<Seq<char>>,
    int,
)
    decreases t.len() - i, 0int,
{
    if i < 0 || i >= t.len() {
        (acc, if i < 0 {
            0int
        } else {
            t.len() as int
        })
    } else {
        match t[i] {
            TokenV::Ident(row) => {
                if row == "add"@ || row == "for"@ {
                    (acc, i)
                } else {
                    scan_rows_spec(t, i + 1, acc.push(row))
                }
            },
            TokenV::LBracket => (acc, i),
            TokenV::RBrace => (acc, i),
            TokenV::Keyword(w) => (acc, i),
            _ => scan_rows_spec(t, i + 1, acc),
        }
    }
}

fn scan_rows(toks: &Vec<Token>, i: usize, acc: Vec<String>) -> (r: (Vec<String>, usize))
    requires
        i <= toks@.len(),
    ensures
        ({
            let (sacc, sj) = scan_rows_spec(tokens_view(toks@), i as int, strings_view(acc@));
            strings_view(r.0@) == sacc && r.1 as int == sj && i <= r.1 <= toks@.len()
        }),
    decreases toks@.len() - i, 0int,
{
    let n = toks.len();
    proof {
        assert(tokens_view(toks@).len() == toks@.len());
    }
    if i >= n {
        return (acc, n);
    }
    proof {
        assert(tokens_view(toks@)[i as int] == toks@[i as int]@);
    }
    match &toks[i] {
        Token::Ident(row) => {
            if str_eq(row.as_str(), "add") || str_eq(row.as_str(), "for") {
                (acc, i)
            } else {
                let ghost pre = acc@;
                let mut acc2 = acc;
                acc2.push(row.clone());
                proof {
                    crate::ast::lemma_strings_view_push(pre, acc2@.last());
                }
                scan_rows(toks, i + 1, acc2)
            }
        },
        Token::LBracket => (acc, i),
        Token::RBrace => (acc, i),
        Token::Keyword(_) => (acc, i),
        _ => scan_rows(toks, i + 1, acc),
    }
}

/// Scan `sym: color` entries of a `[Colors]` block, ended without consuming
/// by a brace, a bracket or a structural keyword.
pub open spec fn scan_colors_spec(t: Seq<TokenV>, i: int, acc: Seq<AstV>) -> (Seq<AstV>, int)
    decreases t.len() - i, 0int,
{
    if i < 0 || i >= t.len() {
        (acc, if i < 0 {
            0int
        } else {
            t.len() as int
        })
    } else {
        match t[i] {
            TokenV::Ident(sym) => {
                if i + 1 < t.len() {
                    match t[i + 1] {
                        TokenV::Colon => {
                            if i + 2 < t.len() {
                                match t[i + 2] {
                                    TokenV::Ident(color) => scan_colors_spec(
                                        t,
                                        i + 3,
                                        acc.push(AstV::ColorDecl { symbol: sym, color }),
                                    ),
                                    _ => scan_colors_spec(t, i + 3, acc),
                                }
                            } else {
                                (acc, t.len() as int)
                            }
                        },
                        _ => scan_colors_spec(t, i + 2, acc),
                    }
                } else {
                    (acc, t.len() as int)
                }
            },
            TokenV::RBrace => (acc, i),
            TokenV::LBracket => (acc, i),
            TokenV::Keyword(w) => (acc, i),
            _ => scan_colors_spec(t, i + 1, acc),
        }
    }
}

fn scan_colors(toks: &Vec<Token>, i: usize, acc: Vec<AstNode>) -> (r: (Vec<AstNode>, usize))
    requires
        i <= toks@.len(),
    ensures
        ({
            let (sacc, sj) = scan_colors_spec(tokens_view(toks@), i as int, asts_view(acc@));
            asts_view(r.0@) == sacc && r.1 as int == sj && i <= r.1 <= toks@.len()
        }),
    decreases toks@.len() - i, 0int,
{
    let n = toks.len();
    proof {
        assert(tokens_view(toks@).len() == toks@.len());
    }
    if i >= n {
        return (acc, n);
    }
    proof {
        assert(tokens_view(toks@)[i as int] == toks@[i as int]@);
    }
    match &toks[i] {
        Token::Ident(sym) => {
            if i + 1 < n {
                proof {
                    assert(tokens_view(toks@)[i + 1] == toks@[i + 1]@);
                }
                match &toks[i + 1] {
                    Token::Colon => {
                        if i + 2 < n {
                            proof {
                                assert(tokens_view(toks@)[i + 2] == toks@[i + 2]@);
                            }
                            match &toks[i + 2] {
                                Token::Ident(color) => {
                                    let ghost pre = acc@;
                                    let mut acc2 = acc;
                                    acc2.push(
                                        AstNode::ColorDecl {
                                            symbol: sym.clone(),
                                            color: color.clone(),
                                        },
                                    );
                                    proof {
                                        crate::ast::lemma_asts_view_push(pre, acc2@.last());
                                    }
                                    scan_colors(toks, i + 3, acc2)
                                },
                                _ => scan_colors(toks, i + 3, acc),
                            }
                        } else {
                            (acc, n)
                        }
                    },
                    _ => scan_colors(toks, i + 2, acc),
                }
            } else {
                (acc, n)
            }
        },
        Token::RBrace => (acc, i),
        Token::LBracket => (acc, i),
        Token::Keyword(_) => (acc, i),
        _ => scan_colors(toks, i + 1, acc),
    }
}

/// Scan `sym: color` entries of an `add Colors { ... }` block, ended by the
/// closing brace, which is consumed.
pub open spec fn scan_add_colors_spec(t: Seq<TokenV>, i: int, acc: Seq<AstV>) -> (Seq<AstV>, int)
    decreases t.len() - i, 0int,
{
    if i < 0 || i >= t.len() {
        (acc, if i < 0 {
            0int
        } else {
            t.len() as int
        })
    } else {
        match t[i] {
            TokenV::Ident(sym) => {
                if i + 1 < t.len() {
                    match t[i + 1] {
                        TokenV::Colon => {
                            if i + 2 < t.len() {
                                match t[i + 2] {
                                    TokenV::Ident(color) => scan_add_colors_spec(
                                        t,
                                        i + 3,
                                        acc.push(AstV::AddColor { symbol: sym, color }),
                                    ),
                                    _ => scan_add_colors_spec(t, i + 3, acc),
                                }
                            } else {
                                (acc, t.len() as int)
                            }
                        },
                        _ => scan_add_colors_spec(t, i + 2, acc),
                    }
                } else {
                    (acc, t.len() as int)
                }
            },
            TokenV::RBrace => (acc, i + 1),
            _ => scan_add_colors_spec(t, i + 1, acc),
        }
    }
}

fn scan_add_colors(toks: &Vec<Token>, i: usize, acc: Vec<AstNode>) -> (r: (Vec<AstNode>, usize))
    requires
        i <= toks@.len(),
    ensures
        ({
            let (sacc, sj) = scan_add_colors_spec(tokens_view(toks@), i as int, asts_view(acc@));
            asts_view(r.0@) == sacc && r.1 as int == sj && i <= r.1 <= toks@.len()
        }),
    decreases toks@.len() - i, 0int,
{
    let n = toks.len();
    proof {
        assert(tokens_view(toks@).len() == toks@.len());
    }
    if i >= n {
        return (acc, n);
    }
    proof {
        assert(tokens_view(toks@)[i as int] == toks@[i as int]@);
    }
    match &toks[i] {
        Token::Ident(sym) => {
            if i + 1 < n {
                proof {
                    assert(tokens_view(toks@)[i + 1] == toks@[i + 1]@);
                }
                match &toks[i + 1] {
                    Token::Colon => {
                        if i + 2 < n {
                            proof {
                                assert(tokens_view(toks@)[i + 2] == toks@[i + 2]@);
                            }
                            match &toks[i + 2] {
                                Token::Ident(color) => {
                                    let ghost pre = acc@;
                                    let mut acc2 = acc;
                                    acc2.push(
                                        AstNode::AddColor {
                                            symbol: sym.clone(),
                                            color: color.clone(),
                                        },
                                    );
                                    proof {
                                        crate::ast::lemma_asts_view_push(pre, acc2@.last());
                                    }
                                    scan_add_colors(toks, i + 3, acc2)
                                },
                                _ => scan_add_colors(toks, i + 3, acc),
                            }
                        } else {
                            (acc, n)
                        }
                    },
                    _ => scan_add_colors(toks, i + 2, acc),
                }
            } else {
                (acc, n)
            }
        },
        Token::RBrace => (acc, i + 1),
        _ => scan_add_colors(toks, i + 1, acc),
    }
}

/// Scan the numbers of a parenthesized list, ended by a right parenthesis,
/// which is consumed; other tokens are skipped.
pub open spec fn scan_nums_spec(t: Seq<TokenV>, i: int, acc: Seq<i32>) -> (Seq<i32>, int)
    decreases t.len() - i, 0int,
{
    if i < 0 || i >= t.len() {
        (acc, if i < 0 {
            0int
        } else {
            t.len() as int
        })
    } else {
        match t[i] {
            TokenV::NumberLit(k) => scan_nums_spec(t, i + 1, acc.push(k)),
            TokenV::Comma => scan_nums_spec(t, i + 1, acc),
            TokenV::RParen => (acc, i + 1),
            _ => scan_nums_spec(t, i + 1, acc),
        }
    }
}

fn scan_nums(toks: &Vec<Token>, i: usize, acc: Vec<i32>) -> (r: (Vec<i32>, usize))
    requires
        i <= toks@.len(),
    ensures
        ({
            let (sacc, sj) = scan_nums_spec(tokens_view(toks@), i as int, acc@);
            r.0@ == sacc && r.1 as int == sj && i <= r.1 <= toks@.len()
        }),
    decreases toks@.len() - i, 0int,
{
    let n = toks.len();
    proof {
        assert(tokens_view(toks@).len() == toks@.len());
    }
    if i >= n {
        return (acc, n);
    }
    proof {
        assert(tokens_view(toks@)[i as int] == toks@[i as int]@);
    }
    match &toks[i] {
        Token::NumberLit(k) => {
            let mut acc2 = acc;
            acc2.push(*k);
            scan_nums(toks, i + 1, acc2)
        },
        Token::Comma => scan_nums(toks, i + 1, acc),
        Token::RParen => (acc, i + 1),
        _ => scan_nums(toks, i + 1, acc),
    }
}

/// What parsing a `[...]` block inside a model body means: `[Layer N]`
/// followed by rows yields a layer node (a negative layer index yields
/// nothing); `[Colors]` yields the color entries that follow; anything else
/// yields nothing.
pub open spec fn parse_bracket_block_spec(t: Seq<TokenV>, i: int) -> (Seq<AstV>, int)
    decreases t.len() - i, 1int,
{
    let len = t.len() as int;
    let i1 = skip1(i, len);
    if i1 >= len || i < 0 {
        (Seq::empty(), i1)
    } else {
        match t[i1] {
            TokenV::Ident(w) => {
                let i2 = i1 + 1;
                if w == "Layer"@ {
                    if i2 < len {
                        match t[i2] {
                            TokenV::NumberLit(zn) => {
                                let i4 = skip1(i2 + 1, len);
                                let (rows, j) = scan_rows_spec(t, i4, Seq::empty());
                                if zn >= 0 {
                                    (
                                        seq![
                                            AstV::LayerDecl { z: zn as usize, rows },
                                        ],
                                        j,
                                    )
                                } else {
                                    (Seq::empty(), j)
                                }
                            },
                            _ => (Seq::empty(), i2 + 1),
                        }
                    } else {
                        (Seq::empty(), i2)
                    }
                } else if w == "Colors"@ {
                    let i3 = skip1(i2, len);
                    scan_colors_spec(t, i3, Seq::empty())
                } else {
                    (Seq::empty(), i2)
                }
            },
            _ => (Seq::empty(), i1 + 1),
        }
    }
}

/// Parse a `[Layer N]` or `[Colors]` block. The index must sit on the
/// opening bracket; the result is exactly what `parse_bracket_block_spec`
/// describes.
pub fn parse_bracket_block(toks: &Vec<Token>, i: usize) -> (r: (Vec<AstNode>, usize))
    requires
        i < toks@.len(),
    ensures
        ({
            let (nodes, sj) = parse_bracket_block_spec(tokens_view(toks@), i as int);
            asts_view(r.0@) == nodes && r.1 as int == sj && i < r.1 <= toks@.len()
        }),
{
    let n = toks.len();
    proof {
        assert(tokens_view(toks@).len() == toks@.len());
    }
    let i1 = i + 1;
    let empty_nodes: Vec<AstNode> = Vec::new();
    proof {
        assert(asts_view(empty_nodes@) =~= Seq::<AstV>::empty());
    }
    if i1 >= n {
        return (empty_nodes, i1);
    }
    proof {
        assert(tokens_view(toks@)[i1 as int] == toks@[i1 as int]@);
    }
    match &toks[i1] {
        Token::Ident(w) => {
            let i2 = i1 + 1;
            if str_eq(w.as_str(), "Layer") {
                if i2 < n {
                    proof {
                        assert(tokens_view(toks@)[i2 as int] == toks@[i2 as int]@);
                    }
                    match &toks[i2] {
                        Token::NumberLit(zn) => {
                            let i3 = i2 + 1;
                            let i4 = if i3 < n {
                                i3 + 1
                            } else {
                                i3
                            };
                            let empty_rows: Vec<String> = Vec::new();
                            proof {
                                assert(strings_view(empty_rows@) =~= Seq::<Seq<char>>::empty());
                            }
                            let (rows, j) = scan_rows(toks, i4, empty_rows);
                            if *zn >= 0 {
                                let mut nodes = empty_nodes;
                                let node = AstNode::LayerDecl { z: (*zn) as usize, rows };
                                let ghost pre = nodes@;
                                nodes.push(node);
                                proof {
                                    crate::ast::lemma_asts_view_push(pre, nodes@.last());
                                    assert(asts_view(nodes@) =~= Seq::<AstV>::empty().push(
                                        nodes@.last()@,
                                    ));
                                }
                                (nodes, j)
                            } else {
                                (empty_nodes, j)
                            }
                        },
                        _ => (empty_nodes, i2 + 1),
                    }
                } else {
                    (empty_nodes, i2)
                }
            } else if str_eq(w.as_str(), "Colors") {
                let i3 = if i2 < n {
                    i2 + 1
                } else {
                    i2
                };
                scan_colors(toks, i3, empty_nodes)
            } else {
                (empty_nodes, i2)
            }
        },
        _ => (empty_nodes, i1 + 1),
    }
}

/// What parsing `add Layers(x, y, z) { sym }` or `add Colors { ... }` means:
/// a placement node when exactly three numbers are given, or the color
/// entries of the braced block.
pub open spec fn parse_add_spec(t: Seq<TokenV>, i: int) -> (Seq<AstV>, int)
    decreases t.len() - i, 1int,
{
    let len = t.len() as int;
    let i1 = skip1(i, len);
    if i1 >= len || i < 0 {
        (Seq::empty(), i1)
    } else {
        match t[i1] {
            TokenV::Ident(k) => {
                let i2 = i1 + 1;
                if k == "Layers"@ {
                    let numsj: (Seq<i32>, int) = if i2 < len {
                        if t[i2] is LParen {
                            scan_nums_spec(t, i2 + 1, Seq::empty())
                        } else {
                            (Seq::empty(), i2 + 1)
                        }
                    } else {
                        (Seq::empty(), i2)
                    };
                    let nums = numsj.0;
                    let j1 = clamp_idx(numsj.1, i2, len);
                    let symj: (Seq<char>, int) = if j1 < len {
                        if t[j1] is LBrace {
                            let sja: (Seq<char>, int) = if j1 + 1 < len {
                                match t[j1 + 1] {
                                    TokenV::Ident(s) => (s, j1 + 2),
                                    _ => (""@, j1 + 2),
                                }
                            } else {
                                (""@, j1 + 1)
                            };
                            (sja.0, skip1(sja.1, len))
                        } else {
                            (""@, j1 + 1)
                        }
                    } else {
                        (""@, j1)
                    };
                    if nums.len() == 3 {
                        (
                            seq![
                                AstV::AddLayer {
                                    x: nums[0],
                                    y: nums[1],
                                    z: nums[2],
                                    symbol: symj.0,
                                },
                            ],
                            symj.1,
                        )
                    } else {
                        (Seq::empty(), symj.1)
                    }
                } else if k == "Colors"@ {
                    if i2 < len {
                        if t[i2] is LBrace {
                            scan_add_colors_spec(t, i2 + 1, Seq::empty())
                        } else {
                            (Seq::empty(), i2 + 1)
                        }
                    } else {
                        (Seq::empty(), i2)
                    }
                } else {
                    (Seq::empty(), i2)
                }
            },
            _ => (Seq::empty(), i1 + 1),
        }
    }
}

/// Parse an `add Layers` or `add Colors` form. The index must sit on the
/// `add` identifier; the result is exactly what `parse_add_spec` describes.
pub fn parse_add(toks: &Vec<Token>, i: usize) -> (r: (Vec<AstNode>, usize))
    requires
        i < toks@.len(),
    ensures
        ({
            let (nodes, sj) = parse_add_spec(tokens_view(toks@), i as int);
            asts_view(r.0@) == nodes && r.1 as int == sj && i < r.1 <= toks@.len()
        }),
{
    let n = toks.len();
    proof {
        assert(tokens_view(toks@).len() == toks@.len());
    }
    let i1 = i + 1;
    let empty_nodes: Vec<AstNode> = Vec::new();
    proof {
        assert(asts_view(empty_nodes@) =~= Seq::<AstV>::empty());
    }
    if i1 >= n {
        return (empty_nodes, i1);
    }
    proof {
        assert(tokens_view(toks@)[i1 as int] == toks@[i1 as int]@);
    }
    match &toks[i1] {
        Token::Ident(k) => {
            let i2 = i1 + 1;
            if str_eq(k.as_str(), "Layers") {
                let mut nums: Vec<i32> = Vec::new();
                let mut j1: usize = i2;
                if i2 < n {
                    proof {
                        assert(tokens_view(toks@)[i2 as int] == toks@[i2 as int]@);
                    }
                    if matches!(&toks[i2], Token::LParen) {
                        let empty_nums: Vec<i32> = Vec::new();
                        proof {
                            assert(empty_nums@ =~= Seq::<i32>::empty());
                        }
                        let (ns, jj) = scan_nums(toks, i2 + 1, empty_nums);
                        nums = ns;
                        j1 = jj;
                    } else {
                        j1 = i2 + 1;
                    }
                }
                proof {
                    assert(clamp_idx(j1 as int, i2 as int, toks@.len() as int) == j1 as int);
                }
                let mut sym: String = "".to_owned();
                let mut j2: usize = j1;
                if j1 < n {
                    proof {
                        assert(tokens_view(toks@)[j1 as int] == toks@[j1 as int]@);
                    }
                    if matches!(&toks[j1], Token::LBrace) {
                        let mut ja: usize = j1 + 1;
                        if j1 + 1 < n {
                            proof {
                                assert(tokens_view(toks@)[j1 + 1] == toks@[j1 + 1]@);
                            }
                            match &toks[j1 + 1] {
                                Token::Ident(s) => {
                                    sym = s.clone();
                                },
                                _ => {},
                            }
                            ja = j1 + 2;
                        }
                        j2 = if ja < n {
                            ja + 1
                        } else {
                            ja
                        };
                    } else {
                        j2 = j1 + 1;
                    }
                }
                if nums.len() == 3 {
                    let node = AstNode::AddLayer { x: nums[0], y: nums[1], z: nums[2], symbol: sym };
                    let mut nodes = empty_nodes;
                    let ghost pre = nodes@;
                    nodes.push(node);
                    proof {
                        crate::ast::lemma_asts_view_push(pre, nodes@.last());
                        assert(asts_view(nodes@) =~= Seq::<AstV>::empty().push(nodes@.last()@));
                    }
                    (nodes, j2)
                } else {
                    (empty_nodes, j2)
                }
            } else if str_eq(k.as_str(), "Colors") {
                if i2 < n {
                    proof {
                        assert(tokens_view(toks@)[i2 as int] == toks@[i2 as int]@);
                    }
                    if matches!(&toks[i2], Token::LBrace) {
                        scan_add_colors(toks, i2 + 1, empty_nodes)
                    } else {
                        (empty_nodes, i2 + 1)
                    }
                } else {
                    (empty_nodes, i2)
                }
            } else {
                (empty_nodes, i2)
            }
        },
        _ => (empty_nodes, i1 + 1),
    }
}

/// What parsing `for v in range(a, b): { body }` or
/// `for a, b in arr1, arr2: { body }` means: a numeric loop when the word
/// `range` follows with exactly two numbers, else a paired-array loop. A
/// malformed loop head consumes its tokens but contributes nothing.
pub open spec fn parse_for_spec(t: Seq<TokenV>, i: int) -> (Option<AstV>, int)
    decreases t.len() - i, 1int,
{
    let len = t.len() as int;
    let i1 = i + 1;
    let v1: (Seq<char>, int) = if 0 <= i1 && i1 < len {
        match t[i1] {
            TokenV::Ident(v) => (v, i1 + 1),
            _ => (""@, i1 + 1),
        }
    } else {
        (""@, i1)
    };
    let var1 = v1.0;
    let p1 = v1.1;
    let v2: (Seq<char>, int) = if 0 <= p1 && p1 < len && t[p1] is Comma {
        let p2 = p1 + 1;
        if p2 < len {
            match t[p2] {
                TokenV::Ident(v) => (v, p2 + 1),
                _ => (""@, p2 + 1),
            }
        } else {
            (""@, p2)
        }
    } else {
        (""@, p1)
    };
    let var2 = v2.0;
    let p3 = v2.1;
    let p4 = skip1(p3, len);
    if p4 < 0 || p4 >= len {
        (None, p4)
    } else {
        match t[p4] {
            TokenV::Ident(id) => {
                let p5 = p4 + 1;
                if id == "range"@ {
                    let p6 = skip1(p5, len);
                    let numsj = scan_nums_spec(t, p6, Seq::empty());
                    let q1 = clamp_idx(numsj.1, p6, len);
                    let q2 = skip1(q1, len);
                    let q3 = skip1(q2, len);
                    let bodyj = parse_voxel_body_spec(t, q3, Seq::empty());
                    if numsj.0.len() == 2 {
                        (
                            Some(
                                AstV::ForRange {
                                    var: var1,
                                    start: numsj.0[0],
                                    end: numsj.0[1],
                                    body: bodyj.0,
                                },
                            ),
                            bodyj.1,
                        )
                    } else {
                        (None, bodyj.1)
                    }
                } else {
                    let p6 = skip1(p5, len);
                    let it2: (Seq<char>, int) = if p6 < len {
                        match t[p6] {
                            TokenV::Ident(v) => (v, p6 + 1),
                            _ => (""@, p6 + 1),
                        }
                    } else {
                        (""@, p6)
                    };
                    let p8 = skip1(it2.1, len);
                    let p9 = skip1(p8, len);
                    let bodyj = parse_voxel_body_spec(t, p9, Seq::empty());
                    (
                        Some(
                            AstV::ForLoop {
                                var1,
                                var2,
                                iter1: id,
                                iter2: it2.0,
                                body: bodyj.0,
                            },
                        ),
                        bodyj.1,
                    )
                }
            },
            _ => (None, p4 + 1),
        }
    }
}

/// What parsing the inside of a model body's braces means: bracket blocks,
/// `add` forms, legend blocks and loops, gathered in order until the closing
/// brace; unexpected tokens are skipped.
pub open spec fn parse_voxel_body_spec(t: Seq<TokenV>, i: int, acc: Seq<AstV>) -> (Seq<AstV>, int)
    decreases t.len() - i, 2int,
{
    let len = t.len() as int;
    if i < 0 || i >= len {
        (acc, if i < 0 {
            0int
        } else {
            i
        })
    } else {
        match t[i] {
            TokenV::RBrace => (acc, i + 1),
            TokenV::LBracket => {
                let (nodes, j) = parse_bracket_block_spec(t, i);
                parse_voxel_body_spec(t, clamp_idx(j, i + 1, len), acc + nodes)
            },
            TokenV::Ident(w) => {
                if w == "add"@ {
                    let (nodes, j) = parse_add_spec(t, i);
                    parse_voxel_body_spec(t, clamp_idx(j, i + 1, len), acc + nodes)
                } else if w == "legend"@ {
                    let (node, j) = parse_legend_spec(t, i);
                    parse_voxel_body_spec(t, clamp_idx(j, i + 1, len), acc.push(node))
                } else {
                    parse_voxel_body_spec(t, i + 1, acc)
                }
            },
            TokenV::Keyword(w) => {
                if w == "for"@ {
                    let (node, j) = parse_for_spec(t, i);
                    let acc2 = match node {
                        Some(n) => acc.push(n),
                        None => acc,
                    };
                    parse_voxel_body_spec(t, clamp_idx(j, i + 1, len), acc2)
                } else {
                    parse_voxel_body_spec(t, i + 1, acc)
                }
            },
            _ => parse_voxel_body_spec(t, i + 1, acc),
        }
    }
}

/// Append the nodes of `src` to `dst`.
fn append_nodes(dst: Vec<AstNode>, src: Vec<AstNode>) -> (r: Vec<AstNode>)
    ensures
        asts_view(r@) == asts_view(dst@) + asts_view(src@),
{
    let mut out = dst;
    let ghost base = out@;
    let mut k: usize = 0;
    proof {
        assert(src@.subrange(0, 0) =~= Seq::<AstNode>::empty());
        assert(asts_view(Seq::<AstNode>::empty()) =~= Seq::<AstV>::empty());
        assert(asts_view(base) + Seq::<AstV>::empty() =~= asts_view(base));
    }
    while k < src.len()
        invariant
            k <= src@.len(),
            asts_view(out@) == asts_view(base) + asts_view(src@.subrange(0, k as int)),
        decreases src@.len() - k,
    {
        let w = src[k].duplicate();
        let ghost pre = out@;
        out.push(w);
        proof {
            crate::ast::lemma_asts_view_push(pre, out@.last());
            crate::ast::lemma_asts_view_push(src@.subrange(0, k as int), src@[k as int]);
            assert(src@.subrange(0, k as int).push(src@[k as int]) =~= src@.subrange(0, k + 1));
            assert(asts_view(base) + asts_view(src@.subrange(0, k as int)).push(
                src@[k as int]@,
            ) =~= (asts_view(base) + asts_view(src@.subrange(0, k as int))).push(src@[k as int]@));
        }
        k = k + 1;
    }
    proof {
        assert(src@.subrange(0, src@.len() as int) =~= src@);
    }
    out
}

fn parse_voxel_body_rec(toks: &Vec<Token>, i: usize, acc: Vec<AstNode>) -> (r: (
    Vec<AstNode>,
    usize,
))
    requires
        i <= toks@.len(),
    ensures
        ({
            let (sacc, sj) = parse_voxel_body_spec(tokens_view(toks@), i as int, asts_view(acc@));
            asts_view(r.0@) == sacc && r.1 as int == sj && i <= r.1 <= toks@.len()
        }),
    decreases toks@.len() - i, 2int,
{
    let n = toks.len();
    proof {
        assert(tokens_view(toks@).len() == toks@.len());
    }
    if i >= n {
        return (acc, i);
    }
    proof {
        assert(tokens_view(toks@)[i as int] == toks@[i as int]@);
    }
    match &toks[i] {
        Token::RBrace => (acc, i + 1),
        Token::LBracket => {
            let (nodes, j) = parse_bracket_block(toks, i);
            let acc2 = append_nodes(acc, nodes);
            proof {
                assert(clamp_idx(j as int, i + 1, toks@.len() as int) == j as int);
            }
            parse_voxel_body_rec(toks, j, acc2)
        },
        Token::Ident(w) => {
            if str_eq(w.as_str(), "add") {
                let (nodes, j) = parse_add(toks, i);
                let acc2 = append_nodes(acc, nodes);
                proof {
                    assert(clamp_idx(j as int, i + 1, toks@.len() as int) == j as int);
                }
                parse_voxel_body_rec(toks, j, acc2)
            } else if str_eq(w.as_str(), "legend") {
                let (node, j) = parse_legend(toks, i);
                let ghost pre = acc@;
                let mut acc2 = acc;
                acc2.push(node);
                proof {
                    crate::ast::lemma_asts_view_push(pre, acc2@.last());
                    assert(clamp_idx(j as int, i + 1, toks@.len() as int) == j as int);
                }
                parse_voxel_body_rec(toks, j, acc2)
            } else {
                parse_voxel_body_rec(toks, i + 1, acc)
            }
        },
        Token::Keyword(w) => {
            if str_eq(w.as_str(), "for") {
                let (node, j) = parse_for(toks, i);
                proof {
                    assert(clamp_idx(j as int, i + 1, toks@.len() as int) == j as int);
                }
                match node {
                    Some(n) => {
                        let ghost pre = acc@;
                        let mut acc2 = acc;
                        acc2.push(n);
                        proof {
                            crate::ast::lemma_asts_view_push(pre, acc2@.last());
                        }
                        parse_voxel_body_rec(toks, j, acc2)
                    },
                    None => parse_voxel_body_rec(toks, j, acc),
                }
            } else {
                parse_voxel_body_rec(toks, i + 1, acc)
            }
        },
        _ => parse_voxel_body_rec(toks, i + 1, acc),
    }
}

/// Parse everything inside a model body's braces: exactly what
/// `parse_voxel_body_spec` describes, starting from an empty list.
pub fn parse_voxel_body(toks: &Vec<Token>, i: usize) -> (r: (Vec<AstNode>, usize))
    requires
        i <= toks@.len(),
    ensures
        ({
            let (sacc, sj) = parse_voxel_body_spec(tokens_view(toks@), i as int, Seq::empty());
            asts_view(r.0@) == sacc && r.1 as int == sj && i <= r.1 <= toks@.len()
        }),
    decreases toks@.len() - i, 3int,
{
    let acc: Vec<AstNode> = Vec::new();
    proof {
        assert(asts_view(acc@) =~= Seq::<AstV>::empty());
    }
    parse_voxel_body_rec(toks, i, acc)
}

/// Parse a `for` loop inside a model body. The index must sit on the `for`
/// keyword; the result is exactly what `parse_for_spec` describes. `None`
/// means the loop head was malformed and nothing is contributed.
#[verifier::rlimit(100)]
pub fn parse_for(toks: &Vec<Token>, i: usize) -> (r: (Option<AstNode>, usize))
    requires
        i < toks@.len(),
    ensures
        ({
            let (nv, sj) = parse_for_spec(tokens_view(toks@), i as int);
            (match (r.0, nv) {
                (Some(node), Some(v)) => node@ == v,
                (None, None) => true,
                _ => false,
            }) && r.1 as int == sj && i < r.1 <= toks@.len()
        }),
    decreases toks@.len() - i, 1int,
{
    let n = toks.len();
    proof {
        assert(tokens_view(toks@).len() == toks@.len());
    }
    let i1 = i + 1;
    let mut var1: String = "".to_owned();
    let mut p1: usize = i1;
    if i1 < n {
        proof {
            assert(tokens_view(toks@)[i1 as int] == toks@[i1 as int]@);
        }
        match &toks[i1] {
            Token::Ident(v) => {
                var1 = v.clone();
            },
            _ => {},
        }
        p1 = i1 + 1;
    }
    let mut var2: String = "".to_owned();
    let mut p3: usize = p1;
    if p1 < n {
        proof {
            assert(tokens_view(toks@)[p1 as int] == toks@[p1 as int]@);
        }
        if matches!(&toks[p1], Token::Comma) {
            let p2 = p1 + 1;
            p3 = p2;
            if p2 < n {
                proof {
                    assert(tokens_view(toks@)[p2 as int] == toks@[p2 as int]@);
                }
                match &toks[p2] {
                    Token::Ident(v) => {
                        var2 = v.clone();
                    },
                    _ => {},
                }
                p3 = p2 + 1;
            }
        }
    }
    let p4 = if p3 < n {
        p3 + 1
    } else {
        p3
    };
    if p4 >= n {
        return (None, p4);
    }
    proof {
        assert(tokens_view(toks@)[p4 as int] == toks@[p4 as int]@);
    }
    match &toks[p4] {
        Token::Ident(id) => {
            let p5 = p4 + 1;
            if str_eq(id.as_str(), "range") {
                let p6 = if p5 < n {
                    p5 + 1
                } else {
                    p5
                };
                let empty_nums: Vec<i32> = Vec::new();
                proof {
                    assert(empty_nums@ =~= Seq::<i32>::empty());
                }
                let (nums, q1) = scan_nums(toks, p6, empty_nums);
                proof {
                    assert(clamp_idx(q1 as int, p6 as int, toks@.len() as int) == q1 as int);
                }
                let q2 = if q1 < n {
                    q1 + 1
                } else {
                    q1
                };
                let q3 = if q2 < n {
                    q2 + 1
                } else {
                    q2
                };
                let (body, q4) = parse_voxel_body(toks, q3);
                if nums.len() == 2 {
                    (
                        Some(AstNode::ForRange { var: var1, start: nums[0], end: nums[1], body }),
                        q4,
                    )
                } else {
                    (None, q4)
                }
            } else {
                let p6 = if p5 < n {
                    p5 + 1
                } else {
                    p5
                };
                let mut iter2: String = "".to_owned();
                let mut p7: usize = p6;
                if p6 < n {
                    proof {
                        assert(tokens_view(toks@)[p6 as int] == toks@[p6 as int]@);
                    }
                    match &toks[p6] {
                        Token::Ident(v) => {
                            iter2 = v.clone();
                        },
                        _ => {},
                    }
                    p7 = p6 + 1;
                }
                let p8 = if p7 < n {
                    p7 + 1
                } else {
                    p7
                };
                let p9 = if p8 < n {
                    p8 + 1
                } else {
                    p8
                };
                let (body, q) = parse_voxel_body(toks, p9);
                (
                    Some(AstNode::ForLoop { var1, var2, iter1: id.clone(), iter2, body }),
                    q,
                )
            }
        },
        _ => (None, p4 + 1),
    }
}

/// What parsing `voxel Name(params) { body }` means. A missing name becomes
/// `<missing_name>`; the parameter list and body are optional.
pub open spec fn parse_voxel_spec(t: Seq<TokenV>, i: int) -> (AstV, int)
    decreases t.len() - i, 3int,
{
    let len = t.len() as int;
    let i1 = i + 1;
    let nm: (Seq<char>, int) = if 0 <= i1 && i1 < len {
        match t[i1] {
            TokenV::Ident(id) => (id, i1 + 1),
            _ => ("<missing_name>"@, i1 + 1),
        }
    } else {
        ("<missing_name>"@, i1)
    };
    let name = nm.0;
    let p1 = nm.1;
    let ps: (Seq<Seq<char>>, int) = if 0 <= p1 && p1 < len && t[p1] is LParen {
        scan_params_spec(t, p1 + 1, Seq::empty())
    } else {
        (Seq::empty(), p1)
    };
    let params = ps.0;
    let p2 = clamp_idx(ps.1, p1, len);
    if p2 < len && t[p2] is LBrace {
        let (body, p3) = parse_voxel_body_spec(t, p2 + 1, Seq::empty());
        (AstV::VoxelDecl { name, params, body }, p3)
    } else {
        (AstV::VoxelDecl { name, params: params, body: Seq::empty() }, p2)
    }
}

/// Parse a model declaration. The index must sit on the `voxel` keyword;
/// the result is exactly what `parse_voxel_spec` describes.
pub fn parse_voxel(toks: &Vec<Token>, i: usize) -> (r: (AstNode, usize))
    requires
        i < toks@.len(),
    ensures
        ({
            let (nv, sj) = parse_voxel_spec(tokens_view(toks@), i as int);
            r.0@ == nv && r.1 as int == sj && i < r.1 <= toks@.len()
        }),
    decreases toks@.len() - i, 4int,
{
    let n = toks.len();
    proof {
        assert(tokens_view(toks@).len() == toks@.len());
    }
    let i1 = i + 1;
    let mut name: String = "<missing_name>".to_owned();
    let mut p1: usize = i1;
    if i1 < n {
        proof {
            assert(tokens_view(toks@)[i1 as int] == toks@[i1 as int]@);
        }
        match &toks[i1] {
            Token::Ident(id) => {
                name = id.clone();
            },
            _ => {},
        }
        p1 = i1 + 1;
    }
    let mut params: Vec<String> = Vec::new();
    proof {
        assert(strings_view(params@) =~= Seq::<Seq<char>>::empty());
    }
    let mut p2: usize = p1;
    if p1 < n {
        proof {
            assert(tokens_view(toks@)[p1 as int] == toks@[p1 as int]@);
        }
        if matches!(&toks[p1], Token::LParen) {
            let empty_params: Vec<String> = Vec::new();
            proof {
                assert(strings_view(empty_params@) =~= Seq::<Seq<char>>::empty());
            }
            let (ps, pj) = scan_params(toks, p1 + 1, empty_params);
            params = ps;
            p2 = pj;
        }
    }
    proof {
        assert(clamp_idx(p2 as int, p1 as int, toks@.len() as int) == p2 as int);
    }
    if p2 < n {
        proof {
            assert(tokens_view(toks@)[p2 as int] == toks@[p2 as int]@);
        }
        if matches!(&toks[p2], Token::LBrace) {
            let (body, p3) = parse_voxel_body(toks, p2 + 1);
            return (AstNode::VoxelDecl { name, params, body }, p3);
        }
    }
    let body: Vec<AstNode> = Vec::new();
    proof {
        assert(asts_view(body@) =~= Seq::<AstV>::empty());
    }
    (AstNode::VoxelDecl { name, params, body }, p2)
}

/// What parsing a whole program means: top-level `atom`, `voxel` and
/// `print` statements, assignments, and bare identifier statements, in
/// document order; anything else is skipped.
pub open spec fn parse_program_spec(t: Seq<TokenV>, i: int, acc: Seq<AstV>) -> Seq<AstV>
    decreases t.len() - i, 5int,
{
    let len = t.len() as int;
    if i < 0 || i >= len {
        acc
    } else {
        match t[i] {
            TokenV::Keyword(k) => {
                if k == "atom"@ {
                    let (node, j) = parse_atom_spec(t, i);
                    parse_program_spec(t, clamp_idx(j, i + 1, len), acc.push(node))
                } else if k == "voxel"@ {
                    let (node, j) = parse_voxel_spec(t, i);
                    parse_program_spec(t, clamp_idx(j, i + 1, len), acc.push(node))
                } else if k == "print"@ {
                    let (node, j) = parse_print_spec(t, i);
                    parse_program_spec(t, clamp_idx(j, i + 1, len), acc.push(node))
                } else {
                    parse_program_spec(t, i + 1, acc)
                }
            },
            TokenV::Ident(name) => {
                let (opt, j) = parse_assignment_spec(t, i);
                let node = match opt {
                    Some(nd) => nd,
                    None => AstV::Ident(name),
                };
                parse_program_spec(t, clamp_idx(j, i + 1, len), acc.push(node))
            },
            _ => parse_program_spec(t, i + 1, acc),
        }
    }
}

/// Parse a whole program into its top-level AST nodes: exactly what
/// `parse_program_spec` describes. Malformed input never fails; unmatched
/// tokens are skipped.
pub fn parse(tokens: Vec<Token>) -> (r: Vec<AstNode>)
    ensures
        asts_view(r@) == parse_program_spec(tokens_view(tokens@), 0, Seq::empty()),
{
    let toks = tokens;
    let n = toks.len();
    let mut ast: Vec<AstNode> = Vec::new();
    let mut i: usize = 0;
    proof {
        assert(tokens_view(toks@).len() == toks@.len());
        assert(asts_view(ast@) =~= Seq::<AstV>::empty());
    }
    while i < n
        invariant
            i <= n,
            n == toks@.len(),
            parse_program_spec(tokens_view(toks@), 0, Seq::empty()) == parse_program_spec(
                tokens_view(toks@),
                i as int,
                asts_view(ast@),
            ),
        decreases n - i,
    {
        proof {
            assert(tokens_view(toks@)[i as int] == toks@[i as int]@);
        }
        match &toks[i] {
            Token::Keyword(k) => {
                if str_eq(k.as_str(), "atom") {
                    let (node, j) = parse_atom(&toks, i);
                    let ghost pre = ast@;
                    ast.push(node);
                    proof {
                        crate::ast::lemma_asts_view_push(pre, ast@.last());
                        assert(clamp_idx(j as int, i + 1, toks@.len() as int) == j as int);
                    }
                    i = j;
                } else if str_eq(k.as_str(), "voxel") {
                    let (node, j) = parse_voxel(&toks, i);
                    let ghost pre = ast@;
                    ast.push(node);
                    proof {
                        crate::ast::lemma_asts_view_push(pre, ast@.last());
                        assert(clamp_idx(j as int, i + 1, toks@.len() as int) == j as int);
                    }
                    i = j;
                } else if str_eq(k.as_str(), "print") {
                    let (node, j) = parse_print(&toks, i);
                    let ghost pre = ast@;
                    ast.push(node);
                    proof {
                        crate::ast::lemma_asts_view_push(pre, ast@.last());
                        assert(clamp_idx(j as int, i + 1, toks@.len() as int) == j as int);
                    }
                    i = j;
                } else {
                    i = i + 1;
                }
            },
            Token::Ident(name) => {
                let bare = name.clone();
                let (opt, j) = parse_assignment(&toks, i);
                let node = match opt {
                    Some(nd) => nd,
                    None => AstNode::Ident(bare),
                };
                let ghost pre = ast@;
                ast.push(node);
                proof {
                    crate::ast::lemma_asts_view_push(pre, ast@.last());
                    assert(clamp_idx(j as int, i + 1, toks@.len() as int) == j as int);
                }
                i = j;
            },
            _ => {
                i = i + 1;
            },
        }
    }
    ast
}

/// Whether a node may stand in a model body: a layer, color entry,
/// placement, legend or loop; never an assignment, print or bare
/// identifier.
pub open spec fn body_legal(n: AstV) -> bool {
    ||| n is LayerDecl
    ||| n is ColorDecl
    ||| n is AddLayer
    ||| n is AddColor
    ||| n is LegendDecl
    ||| n is ForLoop
    ||| n is ForRange
}

/// A `[Colors]` scan adds only color entries.
proof fn lemma_scan_colors_legal(t: Seq<TokenV>, i: int, acc: Seq<AstV>)
    requires
        forall|k: int| 0 <= k < acc.len() ==> body_legal(#[trigger] acc[k]),
    ensures
        forall|k: int|
            0 <= k < scan_colors_spec(t, i, acc).0.len() ==> body_legal(
                #[trigger] scan_colors_spec(t, i, acc).0[k],
            ),
    decreases t.len() - i,
{
    if 0 <= i < t.len() {
        match t[i] {
            TokenV::Ident(sym) => {
                if i + 1 < t.len() {
                    match t[i + 1] {
                        TokenV::Colon => {
                            if i + 2 < t.len() {
                                match t[i + 2] {
                                    TokenV::Ident(color) => {
                                        let acc2 = acc.push(
                                            AstV::ColorDecl { symbol: sym, color },
                                        );
                                        assert(forall|k: int|
                                            0 <= k < acc2.len() ==> body_legal(
                                                #[trigger] acc2[k],
                                            ));
                                        lemma_scan_colors_legal(t, i + 3, acc2);
                                        assert(scan_colors_spec(t, i, acc) == scan_colors_spec(
                                            t,
                                            i + 3,
                                            acc2,
                                        ));
                                    },
                                    _ => {
                                        lemma_scan_colors_legal(t, i + 3, acc);
                                        assert(scan_colors_spec(t, i, acc) == scan_colors_spec(
                                            t,
                                            i + 3,
                                            acc,
                                        ));
                                    },
                                }
                            } else {
                                assert(scan_colors_spec(t, i, acc).0 == acc);
                            }
                        },
                        _ => {
                            lemma_scan_colors_legal(t, i + 2, acc);
                            assert(scan_colors_spec(t, i, acc) == scan_colors_spec(t, i + 2, acc));
                        },
                    }
                } else {
                    assert(scan_colors_spec(t, i, acc).0 == acc);
                }
            },
            TokenV::RBrace => {
                assert(scan_colors_spec(t, i, acc).0 == acc);
            },
            TokenV::LBracket => {
                assert(scan_colors_spec(t, i, acc).0 == acc);
            },
            TokenV::Keyword(w) => {
                assert(scan_colors_spec(t, i, acc).0 == acc);
            },
            _ => {
                lemma_scan_colors_legal(t, i + 1, acc);
                assert(scan_colors_spec(t, i, acc) == scan_colors_spec(t, i + 1, acc));
            },
        }
    } else {
        assert(scan_colors_spec(t, i, acc).0 == acc);
    }
}

/// An `add Colors` scan adds only color entries.
proof fn lemma_scan_add_colors_legal(t: Seq<TokenV>, i: int, acc: Seq<AstV>)
    requires
        forall|k: int| 0 <= k < acc.len() ==> body_legal(#[trigger] acc[k]),
    ensures
        forall|k: int|
            0 <= k < scan_add_colors_spec(t, i, acc).0.len() ==> body_legal(
                #[trigger] scan_add_colors_spec(t, i, acc).0[k],
            ),
    decreases t.len() - i,
{
    if 0 <= i < t.len() {
        match t[i] {
            TokenV::Ident(sym) => {
                if i + 1 < t.len() {
                    match t[i + 1] {
                        TokenV::Colon => {
                            if i + 2 < t.len() {
                                match t[i + 2] {
                                    TokenV::Ident(color) => {
                                        let acc2 = acc.push(
                                            AstV::AddColor { symbol: sym, color },
                                        );
                                        assert(forall|k: int|
                                            0 <= k < acc2.len() ==> body_legal(
                                                #[trigger] acc2[k],
                                            ));
                                        lemma_scan_add_colors_legal(t, i + 3, acc2);
                                        assert(scan_add_colors_spec(t, i, acc)
                                            == scan_add_colors_spec(t, i + 3, acc2));
                                    },
                                    _ => {
                                        lemma_scan_add_colors_legal(t, i + 3, acc);
                                        assert(scan_add_colors_spec(t, i, acc)
                                            == scan_add_colors_spec(t, i + 3, acc));
                                    },
                                }
                            } else {
                                assert(scan_add_colors_spec(t, i, acc).0 == acc);
                            }
                        },
                        _ => {
                            lemma_scan_add_colors_legal(t, i + 2, acc);
                            assert(scan_add_colors_spec(t, i, acc) == scan_add_colors_spec(
                                t,
                                i + 2,
                                acc,
                            ));
                        },
                    }
                } else {
                    assert(scan_add_colors_spec(t, i, acc).0 == acc);
                }
            },
            TokenV::RBrace => {
                assert(scan_add_colors_spec(t, i, acc).0 == acc);
            },
            _ => {
                lemma_scan_add_colors_legal(t, i + 1, acc);
                assert(scan_add_colors_spec(t, i, acc) == scan_add_colors_spec(t, i + 1, acc));
            },
        }
    } else {
        assert(scan_add_colors_spec(t, i, acc).0 == acc);
    }
}

/// A bracket block yields only layer and color nodes.
proof fn lemma_bracket_block_legal(t: Seq<TokenV>, i: int)
    ensures
        forall|k: int|
            0 <= k < parse_bracket_block_spec(t, i).0.len() ==> body_legal(
                #[trigger] parse_bracket_block_spec(t, i).0[k],
            ),
{
    let len = t.len() as int;
    let i1 = skip1(i, len);
    if !(i1 >= len || i < 0) {
        match t[i1] {
            TokenV::Ident(w) => {
                if w == "Colors"@ {
                    lemma_scan_colors_legal(t, skip1(i1 + 1, len), Seq::empty());
                }
            },
            _ => {},
        }
    }
}

/// An `add` form yields only placement and color nodes.
proof fn lemma_add_legal(t: Seq<TokenV>, i: int)
    ensures
        forall|k: int|
            0 <= k < parse_add_spec(t, i).0.len() ==> body_legal(
                #[trigger] parse_add_spec(t, i).0[k],
            ),
{
    let len = t.len() as int;
    let i1 = skip1(i, len);
    if !(i1 >= len || i < 0) {
        match t[i1] {
            TokenV::Ident(w) => {
                if w == "Colors"@ && i1 + 1 < len && t[i1 + 1] is LBrace {
                    lemma_scan_add_colors_legal(t, i1 + 2, Seq::empty());
                }
            },
            _ => {},
        }
    }
}

/// A parsed loop, when it yields a node at all, yields a loop node.
proof fn lemma_for_legal(t: Seq<TokenV>, i: int)
    ensures
        match parse_for_spec(t, i).0 {
            Some(n) => n is ForRange || n is ForLoop,
            None => true,
        },
{
}

/// Everything a model body parse gathers is body-legal: layers, color
/// entries, placements, legends and loops only. This is the shape the
/// evaluator's model-body expansion relies on; assignments, prints and bare
/// identifiers never reach a body.
pub proof fn lemma_voxel_body_legal(t: Seq<TokenV>, i: int, acc: Seq<AstV>)
    requires
        forall|k: int| 0 <= k < acc.len() ==> body_legal(#[trigger] acc[k]),
    ensures
        forall|k: int|
            0 <= k < parse_voxel_body_spec(t, i, acc).0.len() ==> body_legal(
                #[trigger] parse_voxel_body_spec(t, i, acc).0[k],
            ),
    decreases t.len() - i,
{
    let len = t.len() as int;
    if 0 <= i < len {
        match t[i] {
            TokenV::RBrace => {
                assert(parse_voxel_body_spec(t, i, acc).0 == acc);
            },
            TokenV::LBracket => {
                lemma_bracket_block_legal(t, i);
                let (nodes, j) = parse_bracket_block_spec(t, i);
                let acc2 = acc + nodes;
                assert forall|k: int| 0 <= k < acc2.len() implies body_legal(
                    #[trigger] acc2[k],
                ) by {
                    if k < acc.len() {
                        assert(acc2[k] == acc[k]);
                    } else {
                        assert(acc2[k] == nodes[k - acc.len()]);
                    }
                }
                lemma_voxel_body_legal(t, clamp_idx(j, i + 1, len), acc2);
                assert(parse_voxel_body_spec(t, i, acc) == parse_voxel_body_spec(
                    t,
                    clamp_idx(j, i + 1, len),
                    acc2,
                ));
            },
            TokenV::Ident(w) => {
                if w == "add"@ {
                    lemma_add_legal(t, i);
                    let (nodes, j) = parse_add_spec(t, i);
                    let acc2 = acc + nodes;
                    assert forall|k: int| 0 <= k < acc2.len() implies body_legal(
                        #[trigger] acc2[k],
                    ) by {
                        if k < acc.len() {
                            assert(acc2[k] == acc[k]);
                        } else {
                            assert(acc2[k] == nodes[k - acc.len()]);
                        }
                    }
                    lemma_voxel_body_legal(t, clamp_idx(j, i + 1, len), acc2);
                    assert(parse_voxel_body_spec(t, i, acc) == parse_voxel_body_spec(
                        t,
                        clamp_idx(j, i + 1, len),
                        acc2,
                    ));
                } else if w == "legend"@ {
                    let (node, j) = parse_legend_spec(t, i);
                    let acc2 = acc.push(node);
                    assert(node is LegendDecl);
                    assert(forall|k: int| 0 <= k < acc2.len() ==> body_legal(#[trigger] acc2[k]));
                    lemma_voxel_body_legal(t, clamp_idx(j, i + 1, len), acc2);
                    assert(parse_voxel_body_spec(t, i, acc) == parse_voxel_body_spec(
                        t,
                        clamp_idx(j, i + 1, len),
                        acc2,
                    ));
                } else {
                    lemma_voxel_body_legal(t, i + 1, acc);
                    assert(parse_voxel_body_spec(t, i, acc) == parse_voxel_body_spec(
                        t,
                        i + 1,
                        acc,
                    ));
                }
            },
            TokenV::Keyword(w) => {
                if w == "for"@ {
                    lemma_for_legal(t, i);
                    let (node, j) = parse_for_spec(t, i);
                    let acc2 = match node {
                        Some(n) => acc.push(n),
                        None => acc,
                    };
                    assert(forall|k: int| 0 <= k < acc2.len() ==> body_legal(#[trigger] acc2[k]));
                    lemma_voxel_body_legal(t, clamp_idx(j, i + 1, len), acc2);
                    assert(parse_voxel_body_spec(t, i, acc) == parse_voxel_body_spec(
                        t,
                        clamp_idx(j, i + 1, len),
                        acc2,
                    ));
                } else {
                    lemma_voxel_body_legal(t, i + 1, acc);
                    assert(parse_voxel_body_spec(t, i, acc) == parse_voxel_body_spec(
                        t,
                        i + 1,
                        acc,
                    ));
                }
            },
            _ => {
                lemma_voxel_body_legal(t, i + 1, acc);
                assert(parse_voxel_body_spec(t, i, acc) == parse_voxel_body_spec(t, i + 1, acc));
            },
        }
    } else {
        assert(parse_voxel_body_spec(t, i, acc).0 == acc);
    }
}

/// A parsed model declaration's body holds only body-legal nodes.
pub proof fn lemma_parse_voxel_body_legal(t: Seq<TokenV>, i: int)
    ensures
        parse_voxel_spec(t, i).0 is VoxelDecl,
        forall|k: int|
            0 <= k < parse_voxel_spec(t, i).0->VoxelDecl_body.len() ==> body_legal(
                #[trigger] parse_voxel_spec(t, i).0->VoxelDecl_body[k],
            ),
{
    let len = t.len() as int;
    let i1 = i + 1;
    let nm: (Seq<char>, int) = if 0 <= i1 && i1 < len {
        match t[i1] {
            TokenV::Ident(id) => (id, i1 + 1),
            _ => ("<missing_name>"@, i1 + 1),
        }
    } else {
        ("<missing_name>"@, i1)
    };
    let p1 = nm.1;
    let ps: (Seq<Seq<char>>, int) = if 0 <= p1 && p1 < len && t[p1] is LParen {
        scan_params_spec(t, p1 + 1, Seq::empty())
    } else {
        (Seq::empty(), p1)
    };
    let p2 = clamp_idx(ps.1, p1, len);
    if p2 < len && t[p2] is LBrace {
        lemma_voxel_body_legal(t, p2 + 1, Seq::empty());
    }
}

} // verus!
