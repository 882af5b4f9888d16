//! The grammar of Vinyl as spec functions over the tokens: what the parser
//! builds from them, or the error it reports. Each function reads the
//! tokens from a position and gives the tree and the position after it.
//! A branch guarded by a position that did not advance is never taken (every
//! successful read consumes a token); it only makes the definitions total.

use vstd::prelude::*;

use crate::syntax::lexer::{lex_from, SyntaxError, Token};
use crate::syntax::parser::{error_spec, is_upper_ascii, names_primitive, precedence_spec, single_op};
use crate::syntax::tree::{Kind, Tok, Tree};

verus! {

/// A read of one tree: the tree and the position after it.
pub type Parsed = Result<(Tree, int), SyntaxError>;

/// A read of a run of trees appended to those before: all of them and the
/// position after the run.
pub type Items = Result<(Seq<Tree>, int), SyntaxError>;

/// The token at `p` has kind `t`.
pub open spec fn at_tok(toks: Seq<Token>, p: int, t: Tok) -> bool {
    0 <= p < toks.len() && toks[p].kind == t
}

/// A childless tree of kind `k` over the token at `p`.
pub open spec fn leaf_tree(toks: Seq<Token>, p: int, k: Kind) -> Tree {
    Tree { kind: k, start: toks[p].start as int, end: toks[p].end as int, children: Seq::empty() }
}

/// The anonymous token tree of the token at `p`.
pub open spec fn token_tree(toks: Seq<Token>, p: int) -> Tree {
    leaf_tree(toks, p, Kind::Token(toks[p].kind))
}

/// A tree of kind `k` over the tokens `first..last` with children `ch`.
pub open spec fn node_tree(k: Kind, ch: Seq<Tree>, toks: Seq<Token>, first: int, last: int) -> Tree {
    Tree { kind: k, start: toks[first].start as int, end: toks[last - 1].end as int, children: ch }
}

/// Reads the token `t` at `p` after the trees `acc`.
pub open spec fn g_expect(acc: Seq<Tree>, toks: Seq<Token>, len: nat, p: int, t: Tok) -> Items {
    if at_tok(toks, p, t) {
        Ok((acc.push(token_tree(toks, p)), p + 1))
    } else {
        Err(error_spec(len, toks, p))
    }
}

/// `p` lies after `pos` and within the tokens.
pub open spec fn advanced(toks: Seq<Token>, pos: int, p: int) -> bool {
    pos < p <= toks.len()
}

/// The error reported where a read did not advance.
pub open spec fn stuck(len: nat, toks: Seq<Token>, p: int) -> SyntaxError {
    error_spec(len, toks, p)
}

/// The rest of a `::`-separated path from `p`.
pub open spec fn g_path_rest(toks: Seq<Token>, acc: Seq<Tree>, p: int) -> Items
    decreases toks.len() - p,
{
    if p >= 0 && at_tok(toks, p, Tok::ColonColon) && at_tok(toks, p + 1, Tok::Ident) {
        g_path_rest(
            toks,
            acc.push(token_tree(toks, p)).push(leaf_tree(toks, p + 1, Kind::ValueIdentifier)),
            p + 2,
        )
    } else {
        Ok((acc, p))
    }
}

/// An identifier or a `::`-separated path at `pos`, after the trees `acc`.
pub open spec fn g_path(len: nat, toks: Seq<Token>, acc: Seq<Tree>, pos: int) -> Items {
    if !at_tok(toks, pos, Tok::Ident) {
        Err(error_spec(len, toks, pos))
    } else {
        g_path_rest(toks, acc.push(leaf_tree(toks, pos, Kind::ValueIdentifier)), pos + 1)
    }
}

/// Closes a bracketed array type or expression at `p` and builds it.
pub open spec fn g_close(k: Kind, ch: Seq<Tree>, toks: Seq<Token>, len: nat, pos: int, p: int, t: Tok) -> Parsed {
    match g_expect(ch, toks, len, p, t) {
        Err(e) => Err(e),
        Ok((ch2, p2)) => Ok((node_tree(k, ch2, toks, pos, p2), p2)),
    }
}

/// A type at `pos`.
#[verifier::opaque]
pub open spec fn g_type(src: Seq<char>, toks: Seq<Token>, pos: int) -> Parsed
    decreases toks.len() - pos, 20int,
{
    let len = src.len();
    if at_tok(toks, pos, Tok::Ident) {
        let k = if names_primitive(src, toks[pos].start as int, toks[pos].end as int) {
            Kind::PrimitiveType
        } else {
            Kind::TypeIdentifier
        };
        Ok((leaf_tree(toks, pos, k), pos + 1))
    } else if at_tok(toks, pos, Tok::LParen) {
        match g_type_list(src, toks, seq![token_tree(toks, pos)], pos + 1) {
            Err(e) => Err(e),
            Ok((ch, p)) => if advanced(toks, pos, p) {
                g_close(Kind::TupleType, ch, toks, len, pos, p, Tok::RParen)
            } else {
                Err(stuck(len, toks, pos))
            },
        }
    } else if at_tok(toks, pos, Tok::LBracket) {
        match g_type(src, toks, pos + 1) {
            Err(e) => Err(e),
            Ok((t, q)) => if !advanced(toks, pos, q) {
                Err(stuck(len, toks, pos))
            } else {
                let ch = seq![token_tree(toks, pos), t];
                if at_tok(toks, q, Tok::Semi) {
                    match g_expr(src, toks, q + 1, false) {
                        Err(e) => Err(e),
                        Ok((e, q2)) => if advanced(toks, pos, q2) {
                            g_close(Kind::FixedArrayType, ch.push(token_tree(toks, q)).push(e), toks, len, pos, q2, Tok::RBracket)
                        } else {
                            Err(stuck(len, toks, pos))
                        },
                    }
                } else {
                    g_close(Kind::ArrayType, ch, toks, len, pos, q, Tok::RBracket)
                }
            },
        }
    } else if single_op(src, toks, pos, '&') {
        let ch = seq![token_tree(toks, pos)];
        let (ch1, p) = if at_tok(toks, pos + 1, Tok::Mut) {
            (ch.push(token_tree(toks, pos + 1)), pos + 2)
        } else {
            (ch, pos + 1)
        };
        match g_type(src, toks, p) {
            Err(e) => Err(e),
            Ok((t, q)) => Ok((node_tree(Kind::ReferenceType, ch1.push(t), toks, pos, q), q)),
        }
    } else {
        Err(error_spec(len, toks, pos))
    }
}

/// Comma-separated types from `p` up to a closing parenthesis (not read),
/// after the trees `acc`.
pub open spec fn g_type_list(src: Seq<char>, toks: Seq<Token>, acc: Seq<Tree>, p: int) -> Items
    decreases toks.len() - p, 21int,
{
    let len = src.len();
    if at_tok(toks, p, Tok::RParen) || p < 0 {
        Ok((acc, p))
    } else {
        match g_type(src, toks, p) {
            Err(e) => Err(e),
            Ok((t, q)) => if !advanced(toks, p, q) {
                Err(stuck(len, toks, p))
            } else if at_tok(toks, q, Tok::Comma) {
                g_type_list(src, toks, acc.push(t).push(token_tree(toks, q)), q + 1)
            } else if !at_tok(toks, q, Tok::RParen) {
                Err(error_spec(len, toks, q))
            } else {
                g_type_list(src, toks, acc.push(t), q)
            },
        }
    }
}

/// Comma-separated patterns from `p` up to the closing token `close` (not
/// read), after the trees `acc`.
pub open spec fn g_pattern_list(src: Seq<char>, toks: Seq<Token>, acc: Seq<Tree>, p: int, close: Tok) -> Items
    decreases toks.len() - p, 21int,
{
    let len = src.len();
    if at_tok(toks, p, close) || p < 0 {
        Ok((acc, p))
    } else {
        match g_pattern(src, toks, p) {
            Err(e) => Err(e),
            Ok((t, q)) => if !advanced(toks, p, q) {
                Err(stuck(len, toks, p))
            } else if at_tok(toks, q, Tok::Comma) {
                g_pattern_list(src, toks, acc.push(t).push(token_tree(toks, q)), q + 1, close)
            } else if !at_tok(toks, q, close) {
                Err(error_spec(len, toks, q))
            } else {
                g_pattern_list(src, toks, acc.push(t), q, close)
            },
        }
    }
}

/// One field `f` or `f: pattern` of a struct pattern at `p`.
#[verifier::opaque]
pub open spec fn g_field_pattern(src: Seq<char>, toks: Seq<Token>, p: int) -> Parsed
    decreases toks.len() - p, 19int,
{
    if !at_tok(toks, p, Tok::Ident) {
        Err(error_spec(src.len(), toks, p))
    } else {
        let name = leaf_tree(toks, p, Kind::ValueIdentifier);
        if at_tok(toks, p + 1, Tok::Colon) {
            match g_pattern(src, toks, p + 2) {
                Err(e) => Err(e),
                Ok((t, q)) => Ok((node_tree(Kind::FieldPattern, seq![name, token_tree(toks, p + 1), t], toks, p, q), q)),
            }
        } else {
            Ok((node_tree(Kind::FieldPattern, seq![name], toks, p, p + 1), p + 1))
        }
    }
}

/// The fields of a struct pattern from `p` up to the closing brace (not
/// read), after the trees `acc`.
pub open spec fn g_field_patterns(src: Seq<char>, toks: Seq<Token>, acc: Seq<Tree>, p: int) -> Items
    decreases toks.len() - p, 21int,
{
    let len = src.len();
    if at_tok(toks, p, Tok::RBrace) || p < 0 {
        Ok((acc, p))
    } else {
        match g_field_pattern(src, toks, p) {
            Err(e) => Err(e),
            Ok((f, q)) => if !advanced(toks, p, q) {
                Err(stuck(len, toks, p))
            } else if at_tok(toks, q, Tok::Comma) {
                g_field_patterns(src, toks, acc.push(f).push(token_tree(toks, q)), q + 1)
            } else if !at_tok(toks, q, Tok::RBrace) {
                Err(error_spec(len, toks, q))
            } else {
                g_field_patterns(src, toks, acc.push(f), q)
            },
        }
    }
}

/// A pattern at `pos`.
#[verifier::opaque]
pub open spec fn g_pattern(src: Seq<char>, toks: Seq<Token>, pos: int) -> Parsed
    decreases toks.len() - pos, 20int,
{
    let len = src.len();
    if at_tok(toks, pos, Tok::Int) {
        Ok((leaf_tree(toks, pos, Kind::IntegerLiteral), pos + 1))
    } else if at_tok(toks, pos, Tok::Float) {
        Ok((leaf_tree(toks, pos, Kind::FloatLiteral), pos + 1))
    } else if at_tok(toks, pos, Tok::Str) {
        Ok((leaf_tree(toks, pos, Kind::StringLiteral), pos + 1))
    } else if at_tok(toks, pos, Tok::CharLit) {
        Ok((leaf_tree(toks, pos, Kind::CharLiteral), pos + 1))
    } else if at_tok(toks, pos, Tok::True) || at_tok(toks, pos, Tok::False) {
        Ok((leaf_tree(toks, pos, Kind::BoolLiteral), pos + 1))
    } else if single_op(src, toks, pos, '-') && pos + 1 < toks.len() && (at_tok(toks, pos + 1, Tok::Int)
        || at_tok(toks, pos + 1, Tok::Float)) {
        let k = if at_tok(toks, pos + 1, Tok::Int) {
            Kind::IntegerLiteral
        } else {
            Kind::FloatLiteral
        };
        Ok((node_tree(Kind::UnaryExpression, seq![token_tree(toks, pos), leaf_tree(toks, pos + 1, k)], toks, pos, pos + 2), pos + 2))
    } else if at_tok(toks, pos, Tok::LParen) {
        match g_pattern_list(src, toks, seq![token_tree(toks, pos)], pos + 1, Tok::RParen) {
            Err(e) => Err(e),
            Ok((ch, p)) => if advanced(toks, pos, p) {
                g_close(Kind::TuplePattern, ch, toks, len, pos, p, Tok::RParen)
            } else {
                Err(stuck(len, toks, pos))
            },
        }
    } else if at_tok(toks, pos, Tok::Ident) {
        match g_path(len, toks, Seq::empty(), pos) {
            Err(e) => Err(e),
            Ok((ch, p)) => if !advanced(toks, pos, p) {
                Err(stuck(len, toks, pos))
            } else if at_tok(toks, p, Tok::LParen) {
                match g_pattern_list(src, toks, ch.push(token_tree(toks, p)), p + 1, Tok::RParen) {
                    Err(e) => Err(e),
                    Ok((ch1, p1)) => if advanced(toks, pos, p1) {
                        g_close(Kind::TupleStructPattern, ch1, toks, len, pos, p1, Tok::RParen)
                    } else {
                        Err(stuck(len, toks, pos))
                    },
                }
            } else if at_tok(toks, p, Tok::LBrace) {
                match g_field_patterns(src, toks, ch.push(token_tree(toks, p)), p + 1) {
                    Err(e) => Err(e),
                    Ok((ch1, p1)) => if advanced(toks, pos, p1) {
                        g_close(Kind::StructPattern, ch1, toks, len, pos, p1, Tok::RBrace)
                    } else {
                        Err(stuck(len, toks, pos))
                    },
                }
            } else if p == pos + 1 {
                Ok((leaf_tree(toks, pos, Kind::ValueIdentifier), p))
            } else {
                Ok((node_tree(Kind::PathExpression, ch, toks, pos, p), p))
            },
        }
    } else {
        Err(error_spec(len, toks, pos))
    }
}

/// An expression at `pos`; with `no_struct`, a name followed by a brace is
/// not read as a struct literal.
#[verifier::opaque]
pub open spec fn g_expr(src: Seq<char>, toks: Seq<Token>, pos: int, no_struct: bool) -> Parsed
    decreases toks.len() - pos, 30int,
{
    g_binary(src, toks, pos, 1, no_struct)
}

/// Binary operators binding at least as strongly as `min`, left to right.
pub open spec fn g_binary(src: Seq<char>, toks: Seq<Token>, pos: int, min: u8, no_struct: bool) -> Parsed
    decreases toks.len() - pos, 29int,
{
    match g_unary(src, toks, pos, no_struct) {
        Err(e) => Err(e),
        Ok((left, p)) => if advanced(toks, pos, p) {
            g_binary_rest(src, toks, pos, left, p, min, no_struct)
        } else {
            Err(stuck(src.len(), toks, pos))
        },
    }
}

/// The operators after `left` from `p` on, for an expression that starts
/// at `pos`.
pub open spec fn g_binary_rest(
    src: Seq<char>,
    toks: Seq<Token>,
    pos: int,
    left: Tree,
    p: int,
    min: u8,
    no_struct: bool,
) -> Parsed
    decreases toks.len() - p, 29int,
{
    let prec = precedence_spec(src, toks, p);
    if prec == 0 || prec < min || p < 0 || prec >= 11 {
        Ok((left, p))
    } else {
        match g_binary(src, toks, p + 1, (prec + 1) as u8, no_struct) {
            Err(e) => Err(e),
            Ok((right, q)) => if !advanced(toks, p, q) {
                Err(stuck(src.len(), toks, p))
            } else {
                let k = if prec == 1 {
                    Kind::PipeExpression
                } else {
                    Kind::BinaryExpression
                };
                g_binary_rest(src, toks, pos, node_tree(k, seq![left, token_tree(toks, p), right], toks, pos, q), q, min, no_struct)
            },
        }
    }
}

/// Prefix operators `-`, `!`, `&` and `*`.
#[verifier::opaque]
pub open spec fn g_unary(src: Seq<char>, toks: Seq<Token>, pos: int, no_struct: bool) -> Parsed
    decreases toks.len() - pos, 28int,
{
    if single_op(src, toks, pos, '-') || single_op(src, toks, pos, '!') || single_op(src, toks, pos, '&')
        || single_op(src, toks, pos, '*') {
        match g_unary(src, toks, pos + 1, no_struct) {
            Err(e) => Err(e),
            Ok((operand, q)) => Ok((node_tree(Kind::UnaryExpression, seq![token_tree(toks, pos), operand], toks, pos, q), q)),
        }
    } else {
        g_postfix(src, toks, pos, no_struct)
    }
}

/// Calls, field accesses and indexing.
#[verifier::opaque]
pub open spec fn g_postfix(src: Seq<char>, toks: Seq<Token>, pos: int, no_struct: bool) -> Parsed
    decreases toks.len() - pos, 27int,
{
    match g_primary(src, toks, pos, no_struct) {
        Err(e) => Err(e),
        Ok((e, p)) => if advanced(toks, pos, p) {
            g_postfix_rest(src, toks, pos, e, p)
        } else {
            Err(stuck(src.len(), toks, pos))
        },
    }
}

/// The postfix operations after `e` from `p` on, for an expression that
/// starts at `pos`.
pub open spec fn g_postfix_rest(src: Seq<char>, toks: Seq<Token>, pos: int, e: Tree, p: int) -> Parsed
    decreases toks.len() - p, 27int,
{
    let len = src.len();
    if p < 0 {
        Ok((e, p))
    } else if at_tok(toks, p, Tok::LParen) {
        match g_arguments(src, toks, p) {
            Err(x) => Err(x),
            Ok((args, q)) => if advanced(toks, p, q) {
                g_postfix_rest(src, toks, pos, node_tree(Kind::CallExpression, seq![e, args], toks, pos, q), q)
            } else {
                Err(stuck(len, toks, p))
            },
        }
    } else if at_tok(toks, p, Tok::Dot) && (at_tok(toks, p + 1, Tok::Ident) || at_tok(toks, p + 1, Tok::Int)) {
        g_postfix_rest(
            src,
            toks,
            pos,
            node_tree(Kind::FieldExpression, seq![e, token_tree(toks, p), leaf_tree(toks, p + 1, Kind::ValueIdentifier)], toks, pos, p + 2),
            p + 2,
        )
    } else if at_tok(toks, p, Tok::LBracket) {
        match g_expr(src, toks, p + 1, false) {
            Err(x) => Err(x),
            Ok((index, q)) => if !advanced(toks, p, q) {
                Err(stuck(len, toks, p))
            } else {
                match g_expect(seq![e, token_tree(toks, p), index], toks, len, q, Tok::RBracket) {
                    Err(x) => Err(x),
                    Ok((ch, q2)) => g_postfix_rest(src, toks, pos, node_tree(Kind::IndexExpression, ch, toks, pos, q2), q2),
                }
            },
        }
    } else {
        Ok((e, p))
    }
}

/// Comma-separated expressions from `p` up to a closing parenthesis (not
/// read), after the trees `acc`.
pub open spec fn g_argument_list(src: Seq<char>, toks: Seq<Token>, acc: Seq<Tree>, p: int) -> Items
    decreases toks.len() - p, 31int,
{
    let len = src.len();
    if at_tok(toks, p, Tok::RParen) || p < 0 {
        Ok((acc, p))
    } else {
        match g_expr(src, toks, p, false) {
            Err(e) => Err(e),
            Ok((a, q)) => if !advanced(toks, p, q) {
                Err(stuck(len, toks, p))
            } else if at_tok(toks, q, Tok::Comma) {
                g_argument_list(src, toks, acc.push(a).push(token_tree(toks, q)), q + 1)
            } else if !at_tok(toks, q, Tok::RParen) {
                Err(error_spec(len, toks, q))
            } else {
                g_argument_list(src, toks, acc.push(a), q)
            },
        }
    }
}

/// A parenthesized argument list at `pos`.
#[verifier::opaque]
pub open spec fn g_arguments(src: Seq<char>, toks: Seq<Token>, pos: int) -> Parsed
    decreases toks.len() - pos, 25int,
{
    let len = src.len();
    match g_expect(Seq::empty(), toks, len, pos, Tok::LParen) {
        Err(e) => Err(e),
        Ok((ch, p)) => match g_argument_list(src, toks, ch, p) {
            Err(e) => Err(e),
            Ok((ch1, p1)) => if advanced(toks, pos, p1) {
                g_close(Kind::Arguments, ch1, toks, len, pos, p1, Tok::RParen)
            } else {
                Err(stuck(len, toks, pos))
            },
        },
    }
}

/// The rest of a tuple or array after its first element: `, e` repeated
/// up to the closing token `close` (not read), after the trees `acc`.
pub open spec fn g_element_rest(src: Seq<char>, toks: Seq<Token>, acc: Seq<Tree>, p: int, close: Tok) -> Items
    decreases toks.len() - p, 31int,
{
    let len = src.len();
    if at_tok(toks, p, close) || p < 0 {
        Ok((acc, p))
    } else {
        match g_expect(acc, toks, len, p, Tok::Comma) {
            Err(e) => Err(e),
            Ok((acc1, p1)) => if at_tok(toks, p1, close) {
                g_element_rest(src, toks, acc1, p1, close)
            } else {
                match g_expr(src, toks, p1, false) {
                    Err(e) => Err(e),
                    Ok((x, q)) => if advanced(toks, p, q) {
                        g_element_rest(src, toks, acc1.push(x), q, close)
                    } else {
                        Err(stuck(len, toks, p))
                    },
                }
            },
        }
    }
}

/// Literals, names and paths, struct literals, parenthesized and tuple
/// expressions, arrays, `if`, `match` and blocks.
#[verifier::opaque]
pub open spec fn g_primary(src: Seq<char>, toks: Seq<Token>, pos: int, no_struct: bool) -> Parsed
    decreases toks.len() - pos, 26int,
{
    let len = src.len();
    if at_tok(toks, pos, Tok::Int) {
        Ok((leaf_tree(toks, pos, Kind::IntegerLiteral), pos + 1))
    } else if at_tok(toks, pos, Tok::Float) {
        Ok((leaf_tree(toks, pos, Kind::FloatLiteral), pos + 1))
    } else if at_tok(toks, pos, Tok::Str) {
        Ok((leaf_tree(toks, pos, Kind::StringLiteral), pos + 1))
    } else if at_tok(toks, pos, Tok::CharLit) {
        Ok((leaf_tree(toks, pos, Kind::CharLiteral), pos + 1))
    } else if at_tok(toks, pos, Tok::True) || at_tok(toks, pos, Tok::False) {
        Ok((leaf_tree(toks, pos, Kind::BoolLiteral), pos + 1))
    } else if at_tok(toks, pos, Tok::Ident) {
        match g_path(len, toks, Seq::empty(), pos) {
            Err(e) => Err(e),
            Ok((ch, p)) => if !advanced(toks, pos, p) {
                Err(stuck(len, toks, pos))
            } else {
                let head = if p == pos + 1 {
                    leaf_tree(toks, pos, Kind::ValueIdentifier)
                } else {
                    node_tree(Kind::PathExpression, ch, toks, pos, p)
                };
                if !no_struct && at_tok(toks, p, Tok::LBrace) && is_upper_ascii(src[toks[pos].start as int]) {
                    match g_struct_literal_fields(src, toks, p) {
                        Err(e) => Err(e),
                        Ok((fields, q)) => Ok((node_tree(Kind::StructLiteralExpression, seq![head, fields], toks, pos, q), q)),
                    }
                } else {
                    Ok((head, p))
                }
            },
        }
    } else if at_tok(toks, pos, Tok::LParen) {
        let ch = seq![token_tree(toks, pos)];
        if at_tok(toks, pos + 1, Tok::RParen) {
            Ok((node_tree(Kind::UnitLiteral, ch.push(token_tree(toks, pos + 1)), toks, pos, pos + 2), pos + 2))
        } else {
            match g_expr(src, toks, pos + 1, false) {
                Err(e) => Err(e),
                Ok((first, q)) => if !advanced(toks, pos, q) {
                    Err(stuck(len, toks, pos))
                } else if at_tok(toks, q, Tok::RParen) {
                    Ok((node_tree(Kind::ParenthesizedExpression, ch.push(first).push(token_tree(toks, q)), toks, pos, q + 1), q + 1))
                } else {
                    match g_element_rest(src, toks, ch.push(first), q, Tok::RParen) {
                        Err(e) => Err(e),
                        Ok((ch1, p1)) => if advanced(toks, pos, p1) {
                            g_close(Kind::TupleExpression, ch1, toks, len, pos, p1, Tok::RParen)
                        } else {
                            Err(stuck(len, toks, pos))
                        },
                    }
                },
            }
        }
    } else if at_tok(toks, pos, Tok::LBracket) {
        let ch = seq![token_tree(toks, pos)];
        if at_tok(toks, pos + 1, Tok::RBracket) {
            g_close(Kind::ArrayExpression, ch, toks, len, pos, pos + 1, Tok::RBracket)
        } else {
            match g_expr(src, toks, pos + 1, false) {
                Err(e) => Err(e),
                Ok((first, q)) => if !advanced(toks, pos, q) {
                    Err(stuck(len, toks, pos))
                } else if at_tok(toks, q, Tok::Semi) {
                    match g_expr(src, toks, q + 1, false) {
                        Err(e) => Err(e),
                        Ok((count, q2)) => if advanced(toks, pos, q2) {
                            g_close(Kind::ArrayExpression, ch.push(first).push(token_tree(toks, q)).push(count), toks, len, pos, q2, Tok::RBracket)
                        } else {
                            Err(stuck(len, toks, pos))
                        },
                    }
                } else {
                    match g_element_rest(src, toks, ch.push(first), q, Tok::RBracket) {
                        Err(e) => Err(e),
                        Ok((ch1, p1)) => if advanced(toks, pos, p1) {
                            g_close(Kind::ArrayExpression, ch1, toks, len, pos, p1, Tok::RBracket)
                        } else {
                            Err(stuck(len, toks, pos))
                        },
                    }
                },
            }
        }
    } else if at_tok(toks, pos, Tok::If) {
        g_if(src, toks, pos)
    } else if at_tok(toks, pos, Tok::Match) {
        g_match(src, toks, pos)
    } else if at_tok(toks, pos, Tok::LBrace) {
        g_block(src, toks, pos)
    } else {
        Err(error_spec(len, toks, pos))
    }
}

/// The fields `f` or `f: e` of a struct literal from `p` up to the closing
/// brace (not read), after the trees `acc`.
pub open spec fn g_literal_fields(src: Seq<char>, toks: Seq<Token>, acc: Seq<Tree>, p: int) -> Items
    decreases toks.len() - p, 31int,
{
    let len = src.len();
    if at_tok(toks, p, Tok::RBrace) || p < 0 {
        Ok((acc, p))
    } else if !at_tok(toks, p, Tok::Ident) {
        Err(error_spec(len, toks, p))
    } else {
        let acc1 = acc.push(leaf_tree(toks, p, Kind::ValueIdentifier));
        let field: Items = if at_tok(toks, p + 1, Tok::Colon) {
            match g_expr(src, toks, p + 2, false) {
                Err(e) => Err(e),
                Ok((e, q)) => Ok((acc1.push(token_tree(toks, p + 1)).push(e), q)),
            }
        } else {
            Ok((acc1, p + 1))
        };
        match field {
            Err(e) => Err(e),
            Ok((acc2, q)) => if !advanced(toks, p, q) {
                Err(stuck(len, toks, p))
            } else if at_tok(toks, q, Tok::Comma) {
                g_literal_fields(src, toks, acc2.push(token_tree(toks, q)), q + 1)
            } else if !at_tok(toks, q, Tok::RBrace) {
                Err(error_spec(len, toks, q))
            } else {
                g_literal_fields(src, toks, acc2, q)
            },
        }
    }
}

/// The braced field list of a struct literal at `pos`.
#[verifier::opaque]
pub open spec fn g_struct_literal_fields(src: Seq<char>, toks: Seq<Token>, pos: int) -> Parsed
    decreases toks.len() - pos, 24int,
{
    let len = src.len();
    match g_expect(Seq::empty(), toks, len, pos, Tok::LBrace) {
        Err(e) => Err(e),
        Ok((ch, p)) => match g_literal_fields(src, toks, ch, p) {
            Err(e) => Err(e),
            Ok((ch1, p1)) => if advanced(toks, pos, p1) {
                g_close(Kind::StructLiteralFields, ch1, toks, len, pos, p1, Tok::RBrace)
            } else {
                Err(stuck(len, toks, pos))
            },
        },
    }
}

/// The `else if` and `else` branches from `p` on, after the trees `acc`.
pub open spec fn g_else_branches(src: Seq<char>, toks: Seq<Token>, acc: Seq<Tree>, p: int) -> Items
    decreases toks.len() - p, 25int,
{
    let len = src.len();
    if !at_tok(toks, p, Tok::Else) || p < 0 {
        Ok((acc, p))
    } else if at_tok(toks, p + 1, Tok::If) {
        match g_expr(src, toks, p + 2, true) {
            Err(e) => Err(e),
            Ok((c, q)) => if !advanced(toks, p, q) {
                Err(stuck(len, toks, p))
            } else {
                match g_block(src, toks, q) {
                    Err(e) => Err(e),
                    Ok((b, q2)) => if advanced(toks, p, q2) {
                        g_else_branches(src, toks, acc.push(token_tree(toks, p)).push(token_tree(toks, p + 1)).push(c).push(b), q2)
                    } else {
                        Err(stuck(len, toks, p))
                    },
                }
            },
        }
    } else {
        match g_block(src, toks, p + 1) {
            Err(e) => Err(e),
            Ok((b, q)) => Ok((acc.push(token_tree(toks, p)).push(b), q)),
        }
    }
}

/// `if c { .. } else if c { .. } else { .. }` at `pos`.
#[verifier::opaque]
pub open spec fn g_if(src: Seq<char>, toks: Seq<Token>, pos: int) -> Parsed
    decreases toks.len() - pos, 24int,
{
    let len = src.len();
    match g_expect(Seq::empty(), toks, len, pos, Tok::If) {
        Err(e) => Err(e),
        Ok((ch, p)) => match g_expr(src, toks, p, true) {
            Err(e) => Err(e),
            Ok((cond, q)) => if !advanced(toks, pos, q) {
                Err(stuck(len, toks, pos))
            } else {
                match g_block(src, toks, q) {
                    Err(e) => Err(e),
                    Ok((body, q2)) => if !advanced(toks, pos, q2) {
                        Err(stuck(len, toks, pos))
                    } else {
                        match g_else_branches(src, toks, ch.push(cond).push(body), q2) {
                            Err(e) => Err(e),
                            Ok((ch1, p1)) => Ok((node_tree(Kind::IfExpression, ch1, toks, pos, p1), p1)),
                        }
                    },
                }
            },
        },
    }
}

/// The arms of a match from `p` up to the closing brace (not read), after
/// the trees `acc`.
pub open spec fn g_arms(src: Seq<char>, toks: Seq<Token>, acc: Seq<Tree>, p: int) -> Items
    decreases toks.len() - p, 23int,
{
    let len = src.len();
    if at_tok(toks, p, Tok::RBrace) || p < 0 {
        Ok((acc, p))
    } else if at_tok(toks, p, Tok::Comment) {
        g_arms(src, toks, acc.push(leaf_tree(toks, p, Kind::Comment)), p + 1)
    } else {
        match g_arm(src, toks, p) {
            Err(e) => Err(e),
            Ok((arm, q)) => if advanced(toks, p, q) {
                g_arms(src, toks, acc.push(arm), q)
            } else {
                Err(stuck(len, toks, p))
            },
        }
    }
}

/// The head of a match arm at `p`: its pattern and an optional guard.
#[verifier::opaque]
pub open spec fn g_arm_head(src: Seq<char>, toks: Seq<Token>, p: int) -> Items
    decreases toks.len() - p, 21int,
{
    let len = src.len();
    match g_pattern(src, toks, p) {
        Err(e) => Err(e),
        Ok((pat, q1)) => if !advanced(toks, p, q1) {
            Err(stuck(len, toks, p))
        } else if at_tok(toks, q1, Tok::If) {
            match g_expr(src, toks, q1 + 1, false) {
                Err(e) => Err(e),
                Ok((guard, q2)) => Ok((seq![pat, token_tree(toks, q1), guard], q2)),
            }
        } else {
            Ok((seq![pat], q1))
        },
    }
}

/// One match arm at `p`: `pattern (if guard)? => expr ,?`.
#[verifier::opaque]
pub open spec fn g_arm(src: Seq<char>, toks: Seq<Token>, p: int) -> Parsed
    decreases toks.len() - p, 22int,
{
    let len = src.len();
    match g_arm_head(src, toks, p) {
        Err(e) => Err(e),
        Ok((ach, q2)) => if !advanced(toks, p, q2) {
            Err(stuck(len, toks, p))
        } else {
            match g_expect(ach, toks, len, q2, Tok::FatArrow) {
                Err(e) => Err(e),
                Ok((ach1, q3)) => match g_expr(src, toks, q3, false) {
                    Err(e) => Err(e),
                    Ok((value, q4)) => {
                        let ach2 = ach1.push(value);
                        let (ach3, q5) = if at_tok(toks, q4, Tok::Comma) {
                            (ach2.push(token_tree(toks, q4)), q4 + 1)
                        } else {
                            (ach2, q4)
                        };
                        Ok((node_tree(Kind::MatchArm, ach3, toks, p, q5), q5))
                    },
                },
            }
        },
    }
}

/// `match e { arms }` at `pos`.
#[verifier::opaque]
pub open spec fn g_match(src: Seq<char>, toks: Seq<Token>, pos: int) -> Parsed
    decreases toks.len() - pos, 24int,
{
    let len = src.len();
    match g_expect(Seq::empty(), toks, len, pos, Tok::Match) {
        Err(e) => Err(e),
        Ok((ch, p)) => match g_expr(src, toks, p, true) {
            Err(e) => Err(e),
            Ok((scrutinee, q)) => if !advanced(toks, pos, q) {
                Err(stuck(len, toks, pos))
            } else {
                match g_expect(ch.push(scrutinee), toks, len, q, Tok::LBrace) {
                    Err(e) => Err(e),
                    Ok((ch1, p1)) => match g_arms(src, toks, ch1, p1) {
                        Err(e) => Err(e),
                        Ok((ch2, p2)) => if advanced(toks, pos, p2) {
                            g_close(Kind::MatchExpression, ch2, toks, len, pos, p2, Tok::RBrace)
                        } else {
                            Err(stuck(len, toks, pos))
                        },
                    },
                }
            },
        },
    }
}

/// Statements from `p` up to the closing brace (not read), after the trees
/// `acc`.
pub open spec fn g_statements(src: Seq<char>, toks: Seq<Token>, acc: Seq<Tree>, p: int) -> Items
    decreases toks.len() - p, 33int,
{
    if at_tok(toks, p, Tok::RBrace) || p < 0 {
        Ok((acc, p))
    } else {
        match g_statement(src, toks, p) {
            Err(e) => Err(e),
            Ok((s, q)) => if advanced(toks, p, q) {
                g_statements(src, toks, acc.push(s), q)
            } else {
                Err(stuck(src.len(), toks, p))
            },
        }
    }
}

/// `{ statement* }` at `pos`.
#[verifier::opaque]
pub open spec fn g_block(src: Seq<char>, toks: Seq<Token>, pos: int) -> Parsed
    decreases toks.len() - pos, 24int,
{
    let len = src.len();
    match g_expect(Seq::empty(), toks, len, pos, Tok::LBrace) {
        Err(e) => Err(e),
        Ok((ch, p)) => match g_statements(src, toks, ch, p) {
            Err(e) => Err(e),
            Ok((ch1, p1)) => if advanced(toks, pos, p1) {
                g_close(Kind::Block, ch1, toks, len, pos, p1, Tok::RBrace)
            } else {
                Err(stuck(len, toks, pos))
            },
        },
    }
}

/// An optional `: Type` annotation at `pos`, after the trees `acc`.
pub open spec fn g_annotation(src: Seq<char>, toks: Seq<Token>, acc: Seq<Tree>, pos: int) -> Items
    decreases toks.len() - pos, 24int,
{
    if !at_tok(toks, pos, Tok::Colon) || pos < 0 {
        Ok((acc, pos))
    } else {
        match g_type(src, toks, pos + 1) {
            Err(e) => Err(e),
            Ok((t, q)) => Ok((acc.push(node_tree(Kind::TypeAnnotation, seq![token_tree(toks, pos), t], toks, pos, q)), q)),
        }
    }
}

/// `let`: the part after `let` and an optional `mut`, from `p`.
#[verifier::opaque]
pub open spec fn g_let_rest(src: Seq<char>, toks: Seq<Token>, ch: Seq<Tree>, pos: int, p: int) -> Parsed
    decreases toks.len() - p, 31int,
{
    let len = src.len();
    match g_pattern(src, toks, p) {
        Err(e) => Err(e),
        Ok((pat, q)) => if !advanced(toks, p, q) {
            Err(stuck(len, toks, p))
        } else {
            match g_annotation(src, toks, ch.push(pat), q) {
                Err(e) => Err(e),
                Ok((ch1, p1)) => if !(q <= p1 <= toks.len()) {
                    Err(stuck(len, toks, p))
                } else {
                    let valued: Items = if at_tok(toks, p1, Tok::Assign) {
                        match g_expr(src, toks, p1 + 1, false) {
                            Err(e) => Err(e),
                            Ok((value, q2)) => Ok((ch1.push(token_tree(toks, p1)).push(value), q2)),
                        }
                    } else {
                        Ok((ch1, p1))
                    };
                    match valued {
                        Err(e) => Err(e),
                        Ok((ch2, p2)) => match g_expect(ch2, toks, len, p2, Tok::Semi) {
                            Err(e) => Err(e),
                            Ok((ch3, p3)) => Ok((node_tree(Kind::LetDeclaration, ch3, toks, pos, p3), p3)),
                        },
                    }
                },
            }
        },
    }
}

/// An expression statement, an assignment, or a trailing expression at
/// `pos`.
#[verifier::opaque]
pub open spec fn g_expression_statement(src: Seq<char>, toks: Seq<Token>, pos: int) -> Parsed
    decreases toks.len() - pos, 31int,
{
    let len = src.len();
    let block_like = at_tok(toks, pos, Tok::If) || at_tok(toks, pos, Tok::Match) || at_tok(toks, pos, Tok::LBrace);
    match g_expr(src, toks, pos, false) {
        Err(x) => Err(x),
        Ok((e, q)) => if !advanced(toks, pos, q) {
            Err(stuck(len, toks, pos))
        } else if at_tok(toks, q, Tok::Assign) || at_tok(toks, q, Tok::AssignOp) {
            match g_expr(src, toks, q + 1, false) {
                Err(x) => Err(x),
                Ok((value, q2)) => match g_expect(seq![e, token_tree(toks, q), value], toks, len, q2, Tok::Semi) {
                    Err(x) => Err(x),
                    Ok((ch, p)) => Ok((node_tree(Kind::AssignmentStatement, ch, toks, pos, p), p)),
                },
            }
        } else if at_tok(toks, q, Tok::Semi) {
            Ok((node_tree(Kind::ExpressionStatement, seq![e, token_tree(toks, q)], toks, pos, q + 1), q + 1))
        } else if block_like || at_tok(toks, q, Tok::RBrace) {
            Ok((e, q))
        } else {
            Err(error_spec(len, toks, q))
        },
    }
}

/// A statement inside a block at `pos`.
#[verifier::opaque]
pub open spec fn g_statement(src: Seq<char>, toks: Seq<Token>, pos: int) -> Parsed
    decreases toks.len() - pos, 32int,
{
    let len = src.len();
    if at_tok(toks, pos, Tok::Comment) {
        Ok((leaf_tree(toks, pos, Kind::Comment), pos + 1))
    } else if at_tok(toks, pos, Tok::Let) {
        let ch = seq![token_tree(toks, pos)];
        if at_tok(toks, pos + 1, Tok::Mut) {
            g_let_rest(src, toks, ch.push(token_tree(toks, pos + 1)), pos, pos + 2)
        } else {
            g_let_rest(src, toks, ch, pos, pos + 1)
        }
    } else if at_tok(toks, pos, Tok::Return) {
        let ch = seq![token_tree(toks, pos)];
        let valued: Items = if !at_tok(toks, pos + 1, Tok::Semi) && !at_tok(toks, pos + 1, Tok::RBrace) {
            match g_expr(src, toks, pos + 1, false) {
                Err(e) => Err(e),
                Ok((value, q)) => Ok((ch.push(value), q)),
            }
        } else {
            Ok((ch, pos + 1))
        };
        match valued {
            Err(e) => Err(e),
            Ok((ch1, p)) => {
                let (ch2, p2) = if at_tok(toks, p, Tok::Semi) {
                    (ch1.push(token_tree(toks, p)), p + 1)
                } else {
                    (ch1, p)
                };
                Ok((node_tree(Kind::ReturnStatement, ch2, toks, pos, p2), p2))
            },
        }
    } else if at_tok(toks, pos, Tok::While) {
        match g_expr(src, toks, pos + 1, true) {
            Err(e) => Err(e),
            Ok((cond, q)) => if !advanced(toks, pos, q) {
                Err(stuck(len, toks, pos))
            } else {
                match g_block(src, toks, q) {
                    Err(e) => Err(e),
                    Ok((body, q2)) => Ok((node_tree(Kind::WhileStatement, seq![token_tree(toks, pos), cond, body], toks, pos, q2), q2)),
                }
            },
        }
    } else if at_tok(toks, pos, Tok::Loop) {
        match g_block(src, toks, pos + 1) {
            Err(e) => Err(e),
            Ok((body, q)) => Ok((node_tree(Kind::LoopStatement, seq![token_tree(toks, pos), body], toks, pos, q), q)),
        }
    } else if at_tok(toks, pos, Tok::Break) || at_tok(toks, pos, Tok::Continue) {
        let k = if at_tok(toks, pos, Tok::Break) {
            Kind::BreakStatement
        } else {
            Kind::ContinueStatement
        };
        let ch = seq![token_tree(toks, pos)];
        if at_tok(toks, pos + 1, Tok::Semi) {
            Ok((node_tree(k, ch.push(token_tree(toks, pos + 1)), toks, pos, pos + 2), pos + 2))
        } else {
            Ok((node_tree(k, ch, toks, pos, pos + 1), pos + 1))
        }
    } else {
        g_expression_statement(src, toks, pos)
    }
}

/// One parameter `[mut] name [: Type]` at `p`.
#[verifier::opaque]
pub open spec fn g_parameter(src: Seq<char>, toks: Seq<Token>, p: int) -> Parsed {
    let (pch, p1) = if at_tok(toks, p, Tok::Mut) {
        (seq![token_tree(toks, p)], p + 1)
    } else {
        (Seq::empty(), p)
    };
    if !at_tok(toks, p1, Tok::Ident) {
        Err(error_spec(src.len(), toks, p1))
    } else {
        match g_annotation(src, toks, pch.push(leaf_tree(toks, p1, Kind::ValueIdentifier)), p1 + 1) {
            Err(e) => Err(e),
            Ok((pch2, p2)) => Ok((node_tree(Kind::Parameter, pch2, toks, p, p2), p2)),
        }
    }
}

/// Parameters from `p` up to the closing parenthesis (not read), after the
/// trees `acc`.
pub open spec fn g_parameter_list(src: Seq<char>, toks: Seq<Token>, acc: Seq<Tree>, p: int) -> Items
    decreases toks.len() - p,
{
    let len = src.len();
    if at_tok(toks, p, Tok::RParen) || p < 0 {
        Ok((acc, p))
    } else {
        match g_parameter(src, toks, p) {
            Err(e) => Err(e),
            Ok((prm, p2)) => if !advanced(toks, p, p2) {
                Err(stuck(len, toks, p))
            } else {
                let acc1 = acc.push(prm);
                if at_tok(toks, p2, Tok::Comma) {
                    g_parameter_list(src, toks, acc1.push(token_tree(toks, p2)), p2 + 1)
                } else if !at_tok(toks, p2, Tok::RParen) {
                    Err(error_spec(len, toks, p2))
                } else {
                    g_parameter_list(src, toks, acc1, p2)
                }
            },
        }
    }
}

/// `( parameters )` at `pos`.
#[verifier::opaque]
pub open spec fn g_parameters(src: Seq<char>, toks: Seq<Token>, pos: int) -> Parsed {
    let len = src.len();
    match g_expect(Seq::empty(), toks, len, pos, Tok::LParen) {
        Err(e) => Err(e),
        Ok((ch, p)) => match g_parameter_list(src, toks, ch, p) {
            Err(e) => Err(e),
            Ok((ch1, p1)) => g_close(Kind::Parameters, ch1, toks, len, pos, p1, Tok::RParen),
        },
    }
}

/// `fn name(params) [: Type] { .. }` at `pos`.
#[verifier::opaque]
pub open spec fn g_function(src: Seq<char>, toks: Seq<Token>, pos: int) -> Parsed {
    let len = src.len();
    match g_expect(Seq::empty(), toks, len, pos, Tok::Fn) {
        Err(e) => Err(e),
        Ok((ch, p)) => if !at_tok(toks, p, Tok::Ident) {
            Err(error_spec(len, toks, p))
        } else {
            match g_parameters(src, toks, p + 1) {
                Err(e) => Err(e),
                Ok((params, q)) => match g_annotation(src, toks, ch.push(leaf_tree(toks, p, Kind::ValueIdentifier)).push(params), q) {
                    Err(e) => Err(e),
                    Ok((ch2, p2)) => match g_block(src, toks, p2) {
                        Err(e) => Err(e),
                        Ok((body, q2)) => Ok((node_tree(Kind::FunctionDefinition, ch2.push(body), toks, pos, q2), q2)),
                    },
                },
            }
        },
    }
}

/// One field `[public] name: Type` at `p`.
#[verifier::opaque]
pub open spec fn g_field(src: Seq<char>, toks: Seq<Token>, p: int) -> Parsed {
    let len = src.len();
    let (fch, p1) = if at_tok(toks, p, Tok::Public) {
        (seq![token_tree(toks, p)], p + 1)
    } else {
        (Seq::empty(), p)
    };
    if !at_tok(toks, p1, Tok::Ident) {
        Err(error_spec(len, toks, p1))
    } else {
        let fch1 = fch.push(leaf_tree(toks, p1, Kind::ValueIdentifier));
        match g_expect(Seq::empty(), toks, len, p1 + 1, Tok::Colon) {
            Err(e) => Err(e),
            Ok((tch, p2)) => match g_type(src, toks, p2) {
                Err(e) => Err(e),
                Ok((t, q)) => Ok((
                    node_tree(Kind::FieldDefinition, fch1.push(node_tree(Kind::FieldType, tch.push(t), toks, p1 + 1, q)), toks, p, q),
                    q,
                )),
            },
        }
    }
}

/// Fields from `p` up to the closing brace (not read), after the trees
/// `acc`.
pub open spec fn g_fields(src: Seq<char>, toks: Seq<Token>, acc: Seq<Tree>, p: int) -> Items
    decreases toks.len() - p,
{
    let len = src.len();
    if at_tok(toks, p, Tok::RBrace) || p < 0 {
        Ok((acc, p))
    } else {
        match g_field(src, toks, p) {
            Err(e) => Err(e),
            Ok((field, q)) => if !advanced(toks, p, q) {
                Err(stuck(len, toks, p))
            } else {
                let acc1 = acc.push(field);
                if at_tok(toks, q, Tok::Comma) {
                    g_fields(src, toks, acc1.push(token_tree(toks, q)), q + 1)
                } else if !at_tok(toks, q, Tok::RBrace) {
                    Err(error_spec(len, toks, q))
                } else {
                    g_fields(src, toks, acc1, q)
                }
            },
        }
    }
}

/// The start of a named definition at `pos`: its keyword `kw`, its name,
/// and the opening token `open` after the name.
pub open spec fn g_header(toks: Seq<Token>, len: nat, pos: int, kw: Tok, open: Tok) -> Items {
    match g_expect(Seq::empty(), toks, len, pos, kw) {
        Err(e) => Err(e),
        Ok((ch, p)) => if !at_tok(toks, p, Tok::Ident) {
            Err(error_spec(len, toks, p))
        } else {
            g_expect(ch.push(leaf_tree(toks, p, Kind::TypeIdentifier)), toks, len, p + 1, open)
        },
    }
}

/// `struct Name { fields }` at `pos`.
#[verifier::opaque]
pub open spec fn g_struct(src: Seq<char>, toks: Seq<Token>, pos: int) -> Parsed {
    let len = src.len();
    match g_header(toks, len, pos, Tok::Struct, Tok::LBrace) {
        Err(e) => Err(e),
        Ok((ch, p)) => match g_fields(src, toks, ch, p) {
            Err(e) => Err(e),
            Ok((ch1, p1)) => g_close(Kind::StructDefinition, ch1, toks, len, pos, p1, Tok::RBrace),
        },
    }
}

/// One variant `Name`, `Name(T, ..)` or `Name { fields }` at `p`.
#[verifier::opaque]
pub open spec fn g_variant(src: Seq<char>, toks: Seq<Token>, p: int) -> Parsed {
    let len = src.len();
    if !at_tok(toks, p, Tok::Ident) {
        Err(error_spec(len, toks, p))
    } else {
        let vch = seq![leaf_tree(toks, p, Kind::TypeIdentifier)];
        let body: Items = if at_tok(toks, p + 1, Tok::LParen) {
            match g_type_list(src, toks, vch.push(token_tree(toks, p + 1)), p + 2) {
                Err(e) => Err(e),
                Ok((v1, p1)) => g_expect(v1, toks, len, p1, Tok::RParen),
            }
        } else if at_tok(toks, p + 1, Tok::LBrace) {
            match g_fields(src, toks, vch.push(token_tree(toks, p + 1)), p + 2) {
                Err(e) => Err(e),
                Ok((v1, p1)) => g_expect(v1, toks, len, p1, Tok::RBrace),
            }
        } else {
            Ok((vch, p + 1))
        };
        match body {
            Err(e) => Err(e),
            Ok((v2, q)) => Ok((node_tree(Kind::EnumVariant, v2, toks, p, q), q)),
        }
    }
}

/// The variants of an enum from `p` up to the closing brace (not read),
/// after the trees `acc`.
pub open spec fn g_variants(src: Seq<char>, toks: Seq<Token>, acc: Seq<Tree>, p: int) -> Items
    decreases toks.len() - p,
{
    let len = src.len();
    if at_tok(toks, p, Tok::RBrace) || p < 0 {
        Ok((acc, p))
    } else {
        match g_variant(src, toks, p) {
            Err(e) => Err(e),
            Ok((v, q)) => if !advanced(toks, p, q) {
                Err(stuck(len, toks, p))
            } else {
                let acc1 = acc.push(v);
                if at_tok(toks, q, Tok::Comma) {
                    g_variants(src, toks, acc1.push(token_tree(toks, q)), q + 1)
                } else if !at_tok(toks, q, Tok::RBrace) {
                    Err(error_spec(len, toks, q))
                } else {
                    g_variants(src, toks, acc1, q)
                }
            },
        }
    }
}

/// `enum Name { variants }` at `pos`.
#[verifier::opaque]
pub open spec fn g_enum(src: Seq<char>, toks: Seq<Token>, pos: int) -> Parsed {
    let len = src.len();
    match g_header(toks, len, pos, Tok::Enum, Tok::LBrace) {
        Err(e) => Err(e),
        Ok((ch, p)) => match g_variants(src, toks, ch, p) {
            Err(e) => Err(e),
            Ok((ch1, p1)) => g_close(Kind::EnumDefinition, ch1, toks, len, pos, p1, Tok::RBrace),
        },
    }
}

/// `tuple Name (T, ..)` with an optional semicolon, at `pos`.
#[verifier::opaque]
pub open spec fn g_tuple_definition(src: Seq<char>, toks: Seq<Token>, pos: int) -> Parsed {
    let len = src.len();
    match g_header(toks, len, pos, Tok::Tuple, Tok::LParen) {
        Err(e) => Err(e),
        Ok((ch, p)) => match g_type_list(src, toks, ch, p) {
            Err(e) => Err(e),
            Ok((ch1, p1)) => match g_expect(ch1, toks, len, p1, Tok::RParen) {
                Err(e) => Err(e),
                Ok((ch2, p2)) => if at_tok(toks, p2, Tok::Semi) {
                    Ok((node_tree(Kind::TupleDefinition, ch2.push(token_tree(toks, p2)), toks, pos, p2 + 1), p2 + 1))
                } else {
                    Ok((node_tree(Kind::TupleDefinition, ch2, toks, pos, p2), p2))
                },
            },
        },
    }
}

/// `type Name = Type;` at `pos`.
#[verifier::opaque]
pub open spec fn g_type_alias(src: Seq<char>, toks: Seq<Token>, pos: int) -> Parsed {
    let len = src.len();
    match g_header(toks, len, pos, Tok::Type, Tok::Assign) {
        Err(e) => Err(e),
        Ok((ch, p)) => match g_type(src, toks, p) {
            Err(e) => Err(e),
            Ok((t, q)) => g_close(Kind::TypeAliasDefinition, ch.push(t), toks, len, pos, q, Tok::Semi),
        },
    }
}

/// The names of an import group from `p` up to the closing brace (not
/// read), after the trees `acc`.
pub open spec fn g_group_names(toks: Seq<Token>, len: nat, acc: Seq<Tree>, p: int) -> Items
    decreases toks.len() - p,
{
    if at_tok(toks, p, Tok::RBrace) || p < 0 {
        Ok((acc, p))
    } else if !at_tok(toks, p, Tok::Ident) {
        Err(error_spec(len, toks, p))
    } else {
        let acc1 = acc.push(leaf_tree(toks, p, Kind::ValueIdentifier));
        if at_tok(toks, p + 1, Tok::Comma) {
            g_group_names(toks, len, acc1.push(token_tree(toks, p + 1)), p + 2)
        } else if !at_tok(toks, p + 1, Tok::RBrace) {
            Err(error_spec(len, toks, p + 1))
        } else {
            g_group_names(toks, len, acc1, p + 1)
        }
    }
}

/// Closes an import group that opened at `q` after the names read by `g`.
pub open spec fn g_group_close(g: Items, toks: Seq<Token>, len: nat, q: int) -> Parsed {
    match g {
        Err(e) => Err(e),
        Ok((names, p)) => g_close(Kind::ImportGroup, names, toks, len, q, p, Tok::RBrace),
    }
}

/// The braced group `{x, y}` of an import at `q`.
pub open spec fn g_import_group(toks: Seq<Token>, len: nat, q: int) -> Parsed {
    g_group_close(g_group_names(toks, len, seq![token_tree(toks, q)], q + 1), toks, len, q)
}

/// `import a::b::c;` or `import a::b::{x, y};` at `pos`.
#[verifier::opaque]
pub open spec fn g_import(src: Seq<char>, toks: Seq<Token>, pos: int) -> Parsed {
    let len = src.len();
    match g_expect(Seq::empty(), toks, len, pos, Tok::Import) {
        Err(e) => Err(e),
        Ok((ch, p)) => match g_path(len, toks, ch, p) {
            Err(e) => Err(e),
            Ok((ch1, p1)) => {
                let grouped: Items = if at_tok(toks, p1, Tok::ColonColon) && at_tok(toks, p1 + 1, Tok::LBrace) {
                    match g_import_group(toks, len, p1 + 1) {
                        Err(e) => Err(e),
                        Ok((grp, p3)) => Ok((ch1.push(token_tree(toks, p1)).push(grp), p3)),
                    }
                } else {
                    Ok((ch1, p1))
                };
                match grouped {
                    Err(e) => Err(e),
                    Ok((ch2, p4)) => if at_tok(toks, p4, Tok::Semi) {
                        Ok((node_tree(Kind::ImportStatement, ch2.push(token_tree(toks, p4)), toks, pos, p4 + 1), p4 + 1))
                    } else {
                        Ok((node_tree(Kind::ImportStatement, ch2, toks, pos, p4), p4))
                    },
                }
            },
        },
    }
}

/// The parenthesized part of an attribute from `p`, kept as tokens, with
/// `depth` parentheses open; it ends after the parenthesis that closes the
/// first one.
pub open spec fn g_attribute_args(toks: Seq<Token>, len: nat, acc: Seq<Tree>, p: int, depth: int) -> Items
    decreases toks.len() - p,
{
    if p < 0 || p >= toks.len() {
        Err(error_spec(len, toks, p))
    } else {
        let d = if at_tok(toks, p, Tok::LParen) {
            if depth < usize::MAX {
                depth + 1
            } else {
                depth
            }
        } else if at_tok(toks, p, Tok::RParen) && depth > 0 {
            depth - 1
        } else {
            depth
        };
        let acc1 = acc.push(token_tree(toks, p));
        if d == 0 {
            Ok((acc1, p + 1))
        } else {
            g_attribute_args(toks, len, acc1, p + 1, d)
        }
    }
}

/// `@name` or `@name(..)` at `pos`.
#[verifier::opaque]
pub open spec fn g_attribute(toks: Seq<Token>, len: nat, pos: int) -> Parsed {
    match g_expect(Seq::empty(), toks, len, pos, Tok::At) {
        Err(e) => Err(e),
        Ok((ch, p)) => if !at_tok(toks, p, Tok::Ident) {
            Err(error_spec(len, toks, p))
        } else {
            let ch1 = ch.push(leaf_tree(toks, p, Kind::ValueIdentifier));
            if at_tok(toks, p + 1, Tok::LParen) {
                match g_attribute_args(toks, len, ch1, p + 1, 0) {
                    Err(e) => Err(e),
                    Ok((ch2, q)) => Ok((node_tree(Kind::Attribute, ch2, toks, pos, q), q)),
                }
            } else {
                Ok((node_tree(Kind::Attribute, ch1, toks, pos, p + 1), p + 1))
            }
        },
    }
}

/// The top-level item that starts at `p`.
#[verifier::opaque]
pub open spec fn g_item(src: Seq<char>, toks: Seq<Token>, p: int) -> Parsed {
    let len = src.len();
    if at_tok(toks, p, Tok::At) {
        g_attribute(toks, len, p)
    } else if at_tok(toks, p, Tok::Fn) {
        g_function(src, toks, p)
    } else if at_tok(toks, p, Tok::Struct) {
        g_struct(src, toks, p)
    } else if at_tok(toks, p, Tok::Enum) {
        g_enum(src, toks, p)
    } else if at_tok(toks, p, Tok::Tuple) {
        g_tuple_definition(src, toks, p)
    } else if at_tok(toks, p, Tok::Type) {
        g_type_alias(src, toks, p)
    } else if at_tok(toks, p, Tok::Import) {
        g_import(src, toks, p)
    } else {
        Err(error_spec(len, toks, p))
    }
}

/// The top-level children from `p` to the end of the tokens, after the
/// trees `acc`: `public` markers, comments and items.
pub open spec fn g_top_level(src: Seq<char>, toks: Seq<Token>, acc: Seq<Tree>, p: int) -> Items
    decreases toks.len() - p,
{
    if p < 0 || p >= toks.len() {
        Ok((acc, p))
    } else if at_tok(toks, p, Tok::Public) {
        g_top_level(src, toks, acc.push(token_tree(toks, p)), p + 1)
    } else if at_tok(toks, p, Tok::Comment) {
        g_top_level(src, toks, acc.push(leaf_tree(toks, p, Kind::Comment)), p + 1)
    } else {
        match g_item(src, toks, p) {
            Err(e) => Err(e),
            Ok((item, q)) => if advanced(toks, p, q) {
                g_top_level(src, toks, acc.push(item), q)
            } else {
                Err(stuck(src.len(), toks, p))
            },
        }
    }
}

/// The syntax tree of the tokens `toks` of `src`: a source file over the
/// whole text holding the top-level children.
pub open spec fn g_source(src: Seq<char>, toks: Seq<Token>) -> Result<Tree, SyntaxError> {
    match g_top_level(src, toks, Seq::empty(), 0) {
        Err(e) => Err(e),
        Ok((ch, _)) => Ok(Tree { kind: Kind::SourceFile, start: 0, end: src.len() as int, children: ch }),
    }
}

/// The syntax tree of Vinyl source text, or the first error: the lexing
/// error, or the first error of the grammar over the tokens.
pub open spec fn parse_spec(src: Seq<char>) -> Result<Tree, SyntaxError> {
    match lex_from(src, 0) {
        Err(e) => Err(e),
        Ok(toks) => g_source(src, toks),
    }
}

/// `break` and `continue` are distinct statements: a statement read at a
/// `continue` keyword is a `ContinueStatement` and one read at `break` is a
/// `BreakStatement`, each beginning with its keyword token.
pub proof fn law_jump_statements_keep_their_keyword(src: Seq<char>, toks: Seq<Token>, pos: int)
    ensures
        at_tok(toks, pos, Tok::Continue) ==> (g_statement(src, toks, pos) matches Ok((t, _)) && t.kind
            == Kind::ContinueStatement && t.children.len() >= 1 && t.children[0].kind == Kind::Token(Tok::Continue)),
        at_tok(toks, pos, Tok::Break) ==> (g_statement(src, toks, pos) matches Ok((t, _)) && t.kind
            == Kind::BreakStatement && t.children.len() >= 1 && t.children[0].kind == Kind::Token(Tok::Break)),
{
    reveal(g_statement);
}

} // verus!
