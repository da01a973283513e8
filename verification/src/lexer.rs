//! The lexer: source text to a token stream, one character at a time, with
//! no backtracking and no lexical errors. Whitespace flushes the pending
//! buffer; `#` starts a line comment outside string literals; `"` and `'`
//! toggle string-literal mode, each closed only by its own character; any
//! unrecognized character joins the current identifier.

use vstd::prelude::*;

use crate::strutil::{chars_of, parse_i32, parse_i32_spec, str_eq, string_from_chars};

verus! {

/// A lexical token.
#[derive(Debug)]
pub enum Token {
    Ident(String),
    Keyword(String),
    StringLit(String),
    NumberLit(i32),
    LBrace,
    RBrace,
    LBracket,
    RBracket,
    LParen,
    RParen,
    Comma,
    Colon,
    Equals,
    EOF,
}

/// The model of a token.
pub enum TokenV {
    Ident(Seq<char>),
    Keyword(Seq<char>),
    StringLit(Seq<char>),
    NumberLit(i32),
    LBrace,
    RBrace,
    LBracket,
    RBracket,
    LParen,
    RParen,
    Comma,
    Colon,
    Equals,
    EOF,
}

impl View for Token {
    type V = TokenV;

    open spec fn view(&self) -> TokenV {
        match self {
            Token::Ident(s) => TokenV::Ident(s@),
            Token::Keyword(s) => TokenV::Keyword(s@),
            Token::StringLit(s) => TokenV::StringLit(s@),
            Token::NumberLit(n) => TokenV::NumberLit(*n),
            Token::LBrace => TokenV::LBrace,
            Token::RBrace => TokenV::RBrace,
            Token::LBracket => TokenV::LBracket,
            Token::RBracket => TokenV::RBracket,
            Token::LParen => TokenV::LParen,
            Token::RParen => TokenV::RParen,
            Token::Comma => TokenV::Comma,
            Token::Colon => TokenV::Colon,
            Token::Equals => TokenV::Equals,
            Token::EOF => TokenV::EOF,
        }
    }
}

/// The views of a sequence of tokens.
pub open spec fn tokens_view(s: Seq<Token>) -> Seq<TokenV> {
    s.map_values(|t: Token| t@)
}

pub broadcast proof fn lemma_tokens_view_push(s: Seq<Token>, t: Token)
    ensures
        #[trigger] tokens_view(s.push(t)) == tokens_view(s).push(t@),
{
    assert(tokens_view(s.push(t)) =~= tokens_view(s).push(t@));
}

/// Whether a word is one of the reserved keywords.
pub open spec fn is_keyword(w: Seq<char>) -> bool {
    w == "voxel"@ || w == "atom"@ || w == "for"@ || w == "in"@ || w == "print"@
}

/// Flushing the buffer: an empty buffer emits nothing; a buffer that parses
/// as an integer becomes a number token; a reserved word becomes a keyword
/// token; anything else becomes an identifier token.
pub open spec fn flush_spec(buf: Seq<char>, out: Seq<TokenV>) -> Seq<TokenV> {
    if buf.len() == 0 {
        out
    } else {
        match parse_i32_spec(buf) {
            Some(n) => out.push(TokenV::NumberLit(n)),
            None => if is_keyword(buf) {
                out.push(TokenV::Keyword(buf))
            } else {
                out.push(TokenV::Ident(buf))
            },
        }
    }
}

/// The lexer state: emitted tokens, the pending buffer, the open string
/// delimiter if inside a string literal, and whether inside a comment.
pub struct LexStateV {
    pub out: Seq<TokenV>,
    pub buf: Seq<char>,
    pub delim: Option<char>,
    pub comment: bool,
}

/// The state before any character is read.
pub open spec fn lex_init() -> LexStateV {
    LexStateV { out: Seq::empty(), buf: Seq::empty(), delim: None, comment: false }
}

/// One character of lexing.
pub open spec fn lex_step(st: LexStateV, c: char) -> LexStateV {
    if st.comment {
        if c == '\n' {
            LexStateV { comment: false, ..st }
        } else {
            st
        }
    } else if c == '#' && st.delim is None {
        LexStateV { out: flush_spec(st.buf, st.out), buf: Seq::empty(), comment: true, ..st }
    } else if c == '"' || c == '\'' {
        match st.delim {
            Some(d) => {
                if c == d {
                    LexStateV {
                        out: st.out.push(TokenV::StringLit(st.buf)),
                        buf: Seq::empty(),
                        delim: None,
                        ..st
                    }
                } else {
                    LexStateV { buf: st.buf.push(c), ..st }
                }
            },
            None => LexStateV { delim: Some(c), ..st },
        }
    } else if st.delim is Some {
        LexStateV { buf: st.buf.push(c), ..st }
    } else if c == '{' {
        LexStateV { out: flush_spec(st.buf, st.out).push(TokenV::LBrace), buf: Seq::empty(), ..st }
    } else if c == '}' {
        LexStateV { out: flush_spec(st.buf, st.out).push(TokenV::RBrace), buf: Seq::empty(), ..st }
    } else if c == '[' {
        LexStateV {
            out: flush_spec(st.buf, st.out).push(TokenV::LBracket),
            buf: Seq::empty(),
            ..st
        }
    } else if c == ']' {
        LexStateV {
            out: flush_spec(st.buf, st.out).push(TokenV::RBracket),
            buf: Seq::empty(),
            ..st
        }
    } else if c == '(' {
        LexStateV { out: flush_spec(st.buf, st.out).push(TokenV::LParen), buf: Seq::empty(), ..st }
    } else if c == ')' {
        LexStateV { out: flush_spec(st.buf, st.out).push(TokenV::RParen), buf: Seq::empty(), ..st }
    } else if c == ',' {
        LexStateV { out: flush_spec(st.buf, st.out).push(TokenV::Comma), buf: Seq::empty(), ..st }
    } else if c == ':' {
        LexStateV { out: flush_spec(st.buf, st.out).push(TokenV::Colon), buf: Seq::empty(), ..st }
    } else if c == '=' {
        LexStateV { out: flush_spec(st.buf, st.out).push(TokenV::Equals), buf: Seq::empty(), ..st }
    } else if c == '\n' || c == ' ' || c == '\t' {
        LexStateV { out: flush_spec(st.buf, st.out), buf: Seq::empty(), ..st }
    } else {
        LexStateV { buf: st.buf.push(c), ..st }
    }
}

/// The lexer state after reading all of `s`.
pub open spec fn lex_fold(s: Seq<char>) -> LexStateV
    decreases s.len(),
{
    if s.len() == 0 {
        lex_init()
    } else {
        lex_step(lex_fold(s.drop_last()), s.last())
    }
}

/// The token sequence of a source text: the state after every character,
/// with the pending buffer flushed and an end marker appended.
pub open spec fn lex_spec(s: Seq<char>) -> Seq<TokenV> {
    let st = lex_fold(s);
    flush_spec(st.buf, st.out).push(TokenV::EOF)
}

/// Flush the buffer into the token list and clear it.
fn flush(buf: &mut Vec<char>, tokens: &mut Vec<Token>)
    ensures
        tokens_view(final(tokens)@) == flush_spec(old(buf)@, tokens_view(old(tokens)@)),
        final(buf)@ == Seq::<char>::empty(),
{
    if buf.len() == 0 {
        proof {
            assert(buf@ =~= Seq::<char>::empty());
        }
        return ;
    }
    let ghost pre = tokens@;
    match parse_i32(buf) {
        Some(n) => {
            tokens.push(Token::NumberLit(n));
            proof {
                lemma_tokens_view_push(pre, Token::NumberLit(n));
            }
        },
        None => {
            let word = string_from_chars(buf);
            let t = if str_eq(word.as_str(), "voxel") || str_eq(word.as_str(), "atom") || str_eq(
                word.as_str(),
                "for",
            ) || str_eq(word.as_str(), "in") || str_eq(word.as_str(), "print") {
                Token::Keyword(word)
            } else {
                Token::Ident(word)
            };
            let ghost tv = t@;
            tokens.push(t);
            proof {
                lemma_tokens_view_push(pre, tokens@.last());
            }
        },
    }
    buf.clear();
    proof {
        assert(buf@ =~= Seq::<char>::empty());
    }
}

/// Convert source text into a finite token sequence terminated by an end
/// marker, accepting exactly what `lex_spec` describes.
pub fn lex(input: &str) -> (r: Vec<Token>)
    ensures
        tokens_view(r@) == lex_spec(input@),
{
    let cs = chars_of(input);
    let n = cs.len();
    let mut tokens: Vec<Token> = Vec::new();
    let mut buf: Vec<char> = Vec::new();
    let mut delim: Option<char> = None;
    let mut comment: bool = false;
    let mut i: usize = 0;
    proof {
        assert(tokens_view(tokens@) =~= Seq::<TokenV>::empty());
        assert(lex_fold(cs@.subrange(0, 0)) == lex_init()) by {
            assert(cs@.subrange(0, 0) =~= Seq::<char>::empty());
        }
    }
    while i < n
        invariant
            i <= n,
            n == cs@.len(),
            cs@ == input@,
            lex_fold(input@.subrange(0, i as int)) == (LexStateV {
                out: tokens_view(tokens@),
                buf: buf@,
                delim,
                comment,
            }),
        decreases n - i,
    {
        let c = cs[i];
        proof {
            let pre = input@.subrange(0, i as int);
            let post = input@.subrange(0, i + 1);
            assert(post.drop_last() =~= pre);
            assert(post.last() == c);
        }
        if comment {
            if c == '\n' {
                comment = false;
            }
        } else if c == '#' && delim.is_none() {
            flush(&mut buf, &mut tokens);
            comment = true;
        } else if c == '"' || c == '\'' {
            match delim {
                Some(d) => {
                    if c == d {
                        let ghost pre_toks = tokens@;
                        let lit = string_from_chars(&buf);
                        tokens.push(Token::StringLit(lit));
                        buf.clear();
                        delim = None;
                        proof {
                            lemma_tokens_view_push(pre_toks, tokens@.last());
                            assert(buf@ =~= Seq::<char>::empty());
                        }
                    } else {
                        buf.push(c);
                    }
                },
                None => {
                    delim = Some(c);
                },
            }
        } else if delim.is_some() {
            buf.push(c);
        } else if c == '{' {
            flush(&mut buf, &mut tokens);
            let ghost pre_toks = tokens@;
            tokens.push(Token::LBrace);
            proof {
                lemma_tokens_view_push(pre_toks, Token::LBrace);
            }
        } else if c == '}' {
            flush(&mut buf, &mut tokens);
            let ghost pre_toks = tokens@;
            tokens.push(Token::RBrace);
            proof {
                lemma_tokens_view_push(pre_toks, Token::RBrace);
            }
        } else if c == '[' {
            flush(&mut buf, &mut tokens);
            let ghost pre_toks = tokens@;
            tokens.push(Token::LBracket);
            proof {
                lemma_tokens_view_push(pre_toks, Token::LBracket);
            }
        } else if c == ']' {
            flush(&mut buf, &mut tokens);
            let ghost pre_toks = tokens@;
            tokens.push(Token::RBracket);
            proof {
                lemma_tokens_view_push(pre_toks, Token::RBracket);
            }
        } else if c == '(' {
            flush(&mut buf, &mut tokens);
            let ghost pre_toks = tokens@;
            tokens.push(Token::LParen);
            proof {
                lemma_tokens_view_push(pre_toks, Token::LParen);
            }
        } else if c == ')' {
            flush(&mut buf, &mut tokens);
            let ghost pre_toks = tokens@;
            tokens.push(Token::RParen);
            proof {
                lemma_tokens_view_push(pre_toks, Token::RParen);
            }
        } else if c == ',' {
            flush(&mut buf, &mut tokens);
            let ghost pre_toks = tokens@;
            tokens.push(Token::Comma);
            proof {
                lemma_tokens_view_push(pre_toks, Token::Comma);
            }
        } else if c == ':' {
            flush(&mut buf, &mut tokens);
            let ghost pre_toks = tokens@;
            tokens.push(Token::Colon);
            proof {
                lemma_tokens_view_push(pre_toks, Token::Colon);
            }
        } else if c == '=' {
            flush(&mut buf, &mut tokens);
            let ghost pre_toks = tokens@;
            tokens.push(Token::Equals);
            proof {
                lemma_tokens_view_push(pre_toks, Token::Equals);
            }
        } else if c == '\n' || c == ' ' || c == '\t' {
            flush(&mut buf, &mut tokens);
        } else {
            buf.push(c);
        }
        i = i + 1;
    }
    proof {
        assert(input@.subrange(0, n as int) =~= input@);
    }
    flush(&mut buf, &mut tokens);
    let ghost pre_toks = tokens@;
    tokens.push(Token::EOF);
    proof {
        lemma_tokens_view_push(pre_toks, Token::EOF);
    }
    tokens
}

} // verus!
