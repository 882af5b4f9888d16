//! Recursive-descent parser from tokens to the concrete syntax tree.

use vstd::prelude::*;

use crate::chars::{spells, word_eq};
use crate::syntax::lexer::{lex_from, tokenize, tokens_ok, SyntaxError, SyntaxErrorKind, Token};
use crate::syntax::grammar::{g_annotation, g_argument_list, g_arguments, g_arm, g_arm_head, g_arms, g_attribute, g_attribute_args, g_binary, g_binary_rest, g_block, g_close, g_element_rest, g_else_branches, g_enum, g_expect, g_expr, g_expression_statement, g_field, g_field_pattern, g_field_patterns, g_fields, g_group_close, g_import_group, g_parameter, g_variant, g_function, g_group_names, g_header, g_if, g_import, g_item, g_let_rest, g_literal_fields, g_match, g_parameter_list, g_parameters, g_path, g_path_rest, g_pattern, g_pattern_list, g_postfix, g_postfix_rest, g_primary, g_source, g_statement, g_statements, g_struct, g_struct_literal_fields, g_top_level, g_tuple_definition, g_type, g_type_alias, g_type_list, g_unary, g_variants, advanced, at_tok, stuck, leaf_tree, node_tree, parse_spec, token_tree, Items, Parsed};
use crate::syntax::tree::{bounded, lemma_bounded_intro, lemma_tree_children, tree_of, Kind, Node, Tok, Tree};

verus! {

/// Every node of `s` is bounded by `len`.
pub open spec fn all_bounded(s: Seq<Node>, len: nat) -> bool {
    forall|i: int| 0 <= i < s.len() ==> #[trigger] bounded(s[i], len)
}

/// What every parsing function promises: on success it consumed at least one
/// token and built a bounded node; on failure the error offset lies inside
/// the source.
pub open spec fn parse_ok(
    r: Result<(Node, usize), SyntaxError>,
    pos: int,
    toks: Seq<Token>,
    len: nat,
) -> bool {
    match r {
        Ok((n, p)) => pos < p <= toks.len() && bounded(n, len),
        Err(e) => e.offset <= len && reported_from(e, toks, len, pos),
    }
}

/// The error is the one reported at some token at or after `pos`, or at
/// the end of the source.
pub open spec fn reported_from(e: SyntaxError, toks: Seq<Token>, len: nat, pos: int) -> bool {
    exists|k: int| pos <= k && e == #[trigger] error_spec(len, toks, k)
}

/// The error reported at token `pos`: the token itself when there is one,
/// else the end of the source.
pub open spec fn error_spec(len: nat, toks: Seq<Token>, pos: int) -> SyntaxError {
    if pos < toks.len() {
        SyntaxError { kind: SyntaxErrorKind::UnexpectedToken, offset: toks[pos].start }
    } else {
        SyntaxError { kind: SyntaxErrorKind::UnexpectedEnd, offset: len as usize }
    }
}

/// Node `n` covers the tokens `first..last`: it starts where the first
/// begins and ends where the last ends.
pub open spec fn item_span(n: Node, toks: Seq<Token>, first: int, last: int) -> bool {
    n.start == toks[first].start && n.end == toks[last - 1].end
}

/// The text `s[start..end]` names a primitive type.
pub open spec fn names_primitive(s: Seq<char>, start: int, end: int) -> bool {
    ||| spells(s, start, end, seq!['i', 'n', 't'])
    ||| spells(s, start, end, seq!['i', 'n', 't', '8'])
    ||| spells(s, start, end, seq!['i', 'n', 't', '1', '6'])
    ||| spells(s, start, end, seq!['i', 'n', 't', '3', '2'])
    ||| spells(s, start, end, seq!['i', 'n', 't', '6', '4'])
    ||| spells(s, start, end, seq!['i', 'n', 't', '1', '2', '8'])
    ||| spells(s, start, end, seq!['u', 'i', 'n', 't'])
    ||| spells(s, start, end, seq!['u', 'i', 'n', 't', '8'])
    ||| spells(s, start, end, seq!['u', 'i', 'n', 't', '1', '6'])
    ||| spells(s, start, end, seq!['u', 'i', 'n', 't', '3', '2'])
    ||| spells(s, start, end, seq!['u', 'i', 'n', 't', '6', '4'])
    ||| spells(s, start, end, seq!['u', 'i', 'n', 't', '1', '2', '8'])
    ||| spells(s, start, end, seq!['i', 's', 'i', 'z', 'e'])
    ||| spells(s, start, end, seq!['u', 's', 'i', 'z', 'e'])
    ||| spells(s, start, end, seq!['f', 'l', 'o', 'a', 't'])
    ||| spells(s, start, end, seq!['f', 'l', 'o', 'a', 't', '3', '2'])
    ||| spells(s, start, end, seq!['f', 'l', 'o', 'a', 't', '6', '4'])
    ||| spells(s, start, end, seq!['b', 'o', 'o', 'l'])
    ||| spells(s, start, end, seq!['c', 'h', 'a', 'r'])
    ||| spells(s, start, end, seq!['s', 't', 'r', 'i', 'n', 'g'])
    ||| spells(s, start, end, seq!['u', 'n', 'i', 't'])
}

/// The binding strength of a one-character binary operator `c`.
pub open spec fn one_char_precedence(c: char) -> u8 {
    if c == '*' || c == '/' || c == '%' {
        10
    } else if c == '+' || c == '-' {
        9
    } else if c == '&' {
        7
    } else if c == '^' {
        6
    } else if c == '|' {
        5
    } else if c == '<' || c == '>' {
        4
    } else {
        0
    }
}

/// The binding strength of a two-character binary operator `c d`:
/// comparisons by default.
pub open spec fn two_char_precedence(c: char, d: char) -> u8 {
    if c == '|' && d == '>' {
        1
    } else if c == '|' && d == '|' {
        2
    } else if c == '&' && d == '&' {
        3
    } else if (c == '<' && d == '<') || (c == '>' && d == '>') {
        8
    } else {
        4
    }
}

/// The binding strength of the operator token at `pos`, zero when there is
/// no operator token there.
pub open spec fn precedence_spec(src: Seq<char>, toks: Seq<Token>, pos: int) -> u8 {
    if !(0 <= pos < toks.len() && toks[pos].kind == Tok::Op) {
        0
    } else if toks[pos].end - toks[pos].start == 1 {
        one_char_precedence(src[toks[pos].start as int])
    } else {
        two_char_precedence(src[toks[pos].start as int], src[toks[pos].start + 1])
    }
}

/// The token at `pos` is the one-character operator `c`.
pub open spec fn single_op(src: Seq<char>, toks: Seq<Token>, pos: int, c: char) -> bool {
    &&& 0 <= pos < toks.len()
    &&& toks[pos].kind == Tok::Op
    &&& toks[pos].end - toks[pos].start == 1
    &&& src[toks[pos].start as int] == c
}

/// `c` is an ASCII capital letter.
pub open spec fn is_upper_ascii(c: char) -> bool {
    'A' <= c && c <= 'Z'
}

/// The trees of a run of nodes.
pub open spec fn trees(s: Seq<Node>) -> Seq<Tree> {
    Seq::new(s.len(), |i: int| tree_of(s[i]))
}

/// Appending a node appends its tree.
proof fn lemma_trees_push(s: Seq<Node>, n: Node)
    ensures
        trees(s.push(n)) == trees(s).push(tree_of(n)),
{
    assert(trees(s.push(n)) =~= trees(s).push(tree_of(n)));
}

/// The parse `r` is the read `g` of the grammar: the same tree and end, or
/// the same error.
pub open spec fn res_is(r: Result<(Node, usize), SyntaxError>, g: Parsed) -> bool {
    match r {
        Ok((n, q)) => g == Ok::<(Tree, int), SyntaxError>((tree_of(n), q as int)),
        Err(e) => g == Err::<(Tree, int), SyntaxError>(e),
    }
}

/// A run read `g` after an opening token at `pos`, closed by the token `t`
/// into a node of kind `k`.
pub open spec fn closing(k: Kind, g: Items, toks: Seq<Token>, len: nat, pos: int, t: Tok) -> Parsed {
    match g {
        Err(e) => Err(e),
        Ok((ch, p)) => if advanced(toks, pos, p) {
            g_close(k, ch, toks, len, pos, p, t)
        } else {
            Err(stuck(len, toks, pos))
        },
    }
}

/// The run read into `ch`, ending at `r`, is the read `g` of the grammar.
pub open spec fn items_is(r: Result<usize, SyntaxError>, ch: Seq<Node>, g: Items) -> bool {
    match r {
        Ok(q) => g == Ok::<(Seq<Tree>, int), SyntaxError>((trees(ch), q as int)),
        Err(e) => g == Err::<(Seq<Tree>, int), SyntaxError>(e),
    }
}

/// Whether the token at `pos` exists and has kind `t`.
fn at(toks: &Vec<Token>, pos: usize, t: Tok) -> (b: bool)
    ensures
        b == (pos < toks@.len() && toks@[pos as int].kind == t),
        b ==> pos < toks.len(),
{
    pos < toks.len() && toks[pos].kind == t
}

/// The error for an unexpected token at `pos` (or an unexpected end).
fn error_at(src: &Vec<char>, toks: &Vec<Token>, pos: usize) -> (e: SyntaxError)
    requires
        tokens_ok(toks@, src@.len()),
    ensures
        e.offset <= src@.len(),
        e == error_spec(src@.len(), toks@, pos as int),
{
    if pos < toks.len() {
        SyntaxError { kind: SyntaxErrorKind::UnexpectedToken, offset: toks[pos].start }
    } else {
        SyntaxError { kind: SyntaxErrorKind::UnexpectedEnd, offset: src.len() }
    }
}

/// A childless node of kind `kind` spanning the token at `pos`.
fn leaf_at(src: &Vec<char>, toks: &Vec<Token>, pos: usize, kind: Kind) -> (n: Node)
    requires
        tokens_ok(toks@, src@.len()),
        pos < toks@.len(),
    ensures
        bounded(n, src@.len()),
        n.kind == kind,
        n.start == toks@[pos as int].start,
        n.end == toks@[pos as int].end,
        n.children@.len() == 0,
        tree_of(n) == leaf_tree(toks@, pos as int, kind),
{
    let n = Node::leaf(kind, toks[pos].start, toks[pos].end);
    proof {
        lemma_tree_children(n);
        assert(tree_of(n).children =~= Seq::<Tree>::empty());
    }
    assert(toks@[pos as int].start < toks@[pos as int].end <= src@.len());
    proof {
        lemma_bounded_intro(n, src@.len());
    }
    n
}

/// The anonymous token node for the token at `pos`.
fn token_at(src: &Vec<char>, toks: &Vec<Token>, pos: usize) -> (n: Node)
    requires
        tokens_ok(toks@, src@.len()),
        pos < toks@.len(),
    ensures
        bounded(n, src@.len()),
        n.kind == Kind::Token(toks@[pos as int].kind),
        n.start == toks@[pos as int].start,
        n.end == toks@[pos as int].end,
        n.children@.len() == 0,
        tree_of(n) == token_tree(toks@, pos as int),
{
    leaf_at(src, toks, pos, Kind::Token(toks[pos].kind))
}

/// Appends a bounded node.
fn push_node(ch: &mut Vec<Node>, n: Node, len: Ghost<nat>)
    requires
        all_bounded(old(ch)@, len@),
        bounded(n, len@),
    ensures
        all_bounded(final(ch)@, len@),
        final(ch)@.len() == old(ch)@.len() + 1,
        final(ch)@ == old(ch)@.push(n),
        trees(final(ch)@) == trees(old(ch)@).push(tree_of(n)),
{
    ch.push(n);
    proof {
        lemma_trees_push(old(ch)@, n);
    }
}

/// Appends the token at `pos` when it has kind `t`, returning the position
/// after it; fails otherwise.
fn expect(ch: &mut Vec<Node>, src: &Vec<char>, toks: &Vec<Token>, pos: usize, t: Tok) -> (r: Result<
    usize,
    SyntaxError,
>)
    requires
        tokens_ok(toks@, src@.len()),
        all_bounded(old(ch)@, src@.len()),
    ensures
        all_bounded(final(ch)@, src@.len()),
        r matches Ok(p) ==> p == pos + 1 && p <= toks@.len(),
        r matches Err(e) ==> e.offset <= src@.len() && e == error_spec(src@.len(), toks@, pos as int),
        r is Ok <==> (pos < toks@.len() && toks@[pos as int].kind == t),
        r is Ok ==> final(ch)@.len() == old(ch)@.len() + 1 && final(ch)@.last().kind == Kind::Token(t)
            && final(ch)@.drop_last() == old(ch)@,
        r is Err ==> final(ch)@ == old(ch)@,
        items_is(r, final(ch)@, g_expect(trees(old(ch)@), toks@, src@.len(), pos as int, t)),
{
    if at(toks, pos, t) {
        let n = token_at(src, toks, pos);
        push_node(ch, n, Ghost(src@.len()));
        Ok(pos + 1)
    } else {
        Err(error_at(src, toks, pos))
    }
}

/// A node of kind `kind` over the tokens `first..last` with the given
/// children.
fn finish(kind: Kind, ch: Vec<Node>, src: &Vec<char>, toks: &Vec<Token>, first: usize, last: usize) -> (n:
    Node)
    requires
        tokens_ok(toks@, src@.len()),
        first < last <= toks@.len(),
        all_bounded(ch@, src@.len()),
    ensures
        bounded(n, src@.len()),
        n.kind == kind,
        item_span(n, toks@, first as int, last as int),
        n.children@ == ch@,
        tree_of(n) == node_tree(kind, trees(ch@), toks@, first as int, last as int),
{
    let start = toks[first].start;
    let end = toks[last - 1].end;
    assert(start <= end) by {
        if first < last - 1 {
            assert(toks@[first as int].end <= toks@[last - 1].start);
        }
    }
    let n = Node { kind, start, end, children: ch };
    proof {
        lemma_tree_children(n);
        assert(tree_of(n).children =~= trees(n.children@));
        lemma_bounded_intro(n, src@.len());
    }
    n
}

/// Reads the closing token `t` at `p` and builds the node of kind `kind`
/// over `pos..` with the children `ch` and that token.
#[verifier::rlimit(100)]
#[verifier::spinoff_prover]
fn close_node(kind: Kind, ch: Vec<Node>, src: &Vec<char>, toks: &Vec<Token>, pos: usize, p: usize, t: Tok) -> (r:
    Result<(Node, usize), SyntaxError>)
    requires
        tokens_ok(toks@, src@.len()),
        pos < p,
        all_bounded(ch@, src@.len()),
    ensures
        r matches Ok((n, q)) ==> pos < q <= toks@.len() && bounded(n, src@.len()),
        r matches Err(e) ==> e.offset <= src@.len() && e == error_spec(src@.len(), toks@, p as int),
        res_is(r, g_close(kind, trees(ch@), toks@, src@.len(), pos as int, p as int, t)),
{
    let mut ch = ch;
    let q = expect(&mut ch, src, toks, p, t)?;
    Ok((finish(kind, ch, src, toks, pos, q), q))
}

/// Whether the identifier token at `pos` names a primitive type.
fn is_primitive_name(src: &Vec<char>, toks: &Vec<Token>, pos: usize) -> (b: bool)
    requires
        tokens_ok(toks@, src@.len()),
        pos < toks@.len(),
    ensures
        b == names_primitive(src@, toks@[pos as int].start as int, toks@[pos as int].end as int),
{
    let s = toks[pos].start;
    let e = toks[pos].end;
    word_eq(src, s, e, &['i', 'n', 't']) || word_eq(src, s, e, &['i', 'n', 't', '8'])
        || word_eq(src, s, e, &['i', 'n', 't', '1', '6']) || word_eq(
        src,
        s,
        e,
        &['i', 'n', 't', '3', '2'],
    ) || word_eq(src, s, e, &['i', 'n', 't', '6', '4']) || word_eq(
        src,
        s,
        e,
        &['i', 'n', 't', '1', '2', '8'],
    ) || word_eq(src, s, e, &['u', 'i', 'n', 't']) || word_eq(src, s, e, &['u', 'i', 'n', 't', '8'])
        || word_eq(src, s, e, &['u', 'i', 'n', 't', '1', '6']) || word_eq(
        src,
        s,
        e,
        &['u', 'i', 'n', 't', '3', '2'],
    ) || word_eq(src, s, e, &['u', 'i', 'n', 't', '6', '4']) || word_eq(
        src,
        s,
        e,
        &['u', 'i', 'n', 't', '1', '2', '8'],
    ) || word_eq(src, s, e, &['i', 's', 'i', 'z', 'e']) || word_eq(
        src,
        s,
        e,
        &['u', 's', 'i', 'z', 'e'],
    ) || word_eq(src, s, e, &['f', 'l', 'o', 'a', 't']) || word_eq(
        src,
        s,
        e,
        &['f', 'l', 'o', 'a', 't', '3', '2'],
    ) || word_eq(src, s, e, &['f', 'l', 'o', 'a', 't', '6', '4']) || word_eq(
        src,
        s,
        e,
        &['b', 'o', 'o', 'l'],
    ) || word_eq(src, s, e, &['c', 'h', 'a', 'r']) || word_eq(
        src,
        s,
        e,
        &['s', 't', 'r', 'i', 'n', 'g'],
    ) || word_eq(src, s, e, &['u', 'n', 'i', 't'])
}

/// The binding strength of the binary operator at `pos`, or zero when the
/// token is not a binary operator.
fn binary_precedence(src: &Vec<char>, toks: &Vec<Token>, pos: usize) -> (p: u8)
    requires
        tokens_ok(toks@, src@.len()),
    ensures
        p <= 10,
        p > 0 ==> pos < toks.len(),
        p == precedence_spec(src@, toks@, pos as int),
{
    if !at(toks, pos, Tok::Op) {
        return 0;
    }
    let s = toks[pos].start;
    let e = toks[pos].end;
    let c = src[s];
    if e - s == 1 {
        if c == '*' || c == '/' || c == '%' {
            10
        } else if c == '+' || c == '-' {
            9
        } else if c == '&' {
            7
        } else if c == '^' {
            6
        } else if c == '|' {
            5
        } else if c == '<' || c == '>' {
            4
        } else {
            0
        }
    } else {
        let d = src[s + 1];
        if c == '|' && d == '>' {
            1
        } else if c == '|' && d == '|' {
            2
        } else if c == '&' && d == '&' {
            3
        } else if (c == '<' && d == '<') || (c == '>' && d == '>') {
            8
        } else {
            4
        }
    }
}

/// Whether the operator token at `pos` is the single character `c`.
fn op_is(src: &Vec<char>, toks: &Vec<Token>, pos: usize, c: char) -> (b: bool)
    requires
        tokens_ok(toks@, src@.len()),
    ensures
        b ==> pos < toks.len(),
        b == single_op(src@, toks@, pos as int, c),
{
    at(toks, pos, Tok::Op) && toks[pos].end - toks[pos].start == 1 && src[toks[pos].start] == c
}

/// A type: primitive or named, tuple `(..)`, array `[T]` or `[T; n]`,
/// or reference `&T`.
#[verifier::rlimit(100)]
#[verifier::spinoff_prover]
pub(crate) fn parse_type(src: &Vec<char>, toks: &Vec<Token>, pos: usize) -> (r: Result<
    (Node, usize),
    SyntaxError,
>)
    requires
        tokens_ok(toks@, src@.len()),
    ensures
        parse_ok(r, pos as int, toks@, src@.len()),
        res_is(r, g_type(src@, toks@, pos as int)),
    decreases toks@.len() - pos, 2int,
{
    reveal(g_type);
    if at(toks, pos, Tok::Ident) {
        let kind = if is_primitive_name(src, toks, pos) {
            Kind::PrimitiveType
        } else {
            Kind::TypeIdentifier
        };
        Ok((leaf_at(src, toks, pos, kind), pos + 1))
    } else if at(toks, pos, Tok::LParen) {
        let mut ch: Vec<Node> = Vec::new();
        let mut p = expect(&mut ch, src, toks, pos, Tok::LParen)?;
        assert(trees(ch@) =~= seq![token_tree(toks@, pos as int)]);
        while !at(toks, p, Tok::RParen)
            invariant
                tokens_ok(toks@, src@.len()),
                pos < p <= toks@.len(),
                all_bounded(ch@, src@.len()),
                g_type(src@, toks@, pos as int) == closing(Kind::TupleType, g_type_list(src@, toks@, trees(ch@), p as int), toks@, src@.len(), pos as int, Tok::RParen),
            decreases toks@.len() - p,
        {
                reveal(g_type);
            let (t, q) = parse_type(src, toks, p)?;
            push_node(&mut ch, t, Ghost(src@.len()));
            p = q;
            if at(toks, p, Tok::Comma) {
                p = expect(&mut ch, src, toks, p, Tok::Comma)?;
            } else if !at(toks, p, Tok::RParen) {
                return Err(error_at(src, toks, p));
            }
        }
        close_node(Kind::TupleType, ch, src, toks, pos, p, Tok::RParen)
    } else if at(toks, pos, Tok::LBracket) {
        let mut ch: Vec<Node> = Vec::new();
        assert(trees(ch@) =~= Seq::<Tree>::empty());
        let p = expect(&mut ch, src, toks, pos, Tok::LBracket)?;
        let (t, q) = parse_type(src, toks, p)?;
        push_node(&mut ch, t, Ghost(src@.len()));
        assert(trees(ch@) == seq![token_tree(toks@, pos as int), tree_of(t)]);
        if at(toks, q, Tok::Semi) {
            let p2 = expect(&mut ch, src, toks, q, Tok::Semi)?;
            let (e, q2) = parse_expr(src, toks, p2, false)?;
            push_node(&mut ch, e, Ghost(src@.len()));
            close_node(Kind::FixedArrayType, ch, src, toks, pos, q2, Tok::RBracket)
        } else {
            close_node(Kind::ArrayType, ch, src, toks, pos, q, Tok::RBracket)
        }
    } else if op_is(src, toks, pos, '&') {
        let mut ch: Vec<Node> = Vec::new();
        assert(trees(ch@) =~= Seq::<Tree>::empty());
        push_node(&mut ch, token_at(src, toks, pos), Ghost(src@.len()));
        let mut p = pos + 1;
        if at(toks, p, Tok::Mut) {
            p = expect(&mut ch, src, toks, p, Tok::Mut)?;
        }
        assert(trees(ch@) == (if at_tok(toks@, pos + 1, Tok::Mut) {
            seq![token_tree(toks@, pos as int), token_tree(toks@, pos + 1)]
        } else {
            seq![token_tree(toks@, pos as int)]
        }));
        let (t, q) = parse_type(src, toks, p)?;
        push_node(&mut ch, t, Ghost(src@.len()));
        Ok((finish(Kind::ReferenceType, ch, src, toks, pos, q), q))
    } else {
        Err(error_at(src, toks, pos))
    }
}

/// An identifier or a `::`-separated path; appends its parts to `ch` and
/// returns the position after it.
#[verifier::rlimit(100)]
#[verifier::spinoff_prover]
fn parse_path_into(ch: &mut Vec<Node>, src: &Vec<char>, toks: &Vec<Token>, pos: usize) -> (r: Result<
    usize,
    SyntaxError,
>)
    requires
        tokens_ok(toks@, src@.len()),
        all_bounded(old(ch)@, src@.len()),
    ensures
        all_bounded(final(ch)@, src@.len()),
        r matches Ok(p) ==> pos < p <= toks@.len(),
        r matches Err(e) ==> e.offset <= src@.len() && reported_from(e, toks@, src@.len(), pos as int),
        items_is(r, final(ch)@, g_path(src@.len(), toks@, trees(old(ch)@), pos as int)),
{
    if !at(toks, pos, Tok::Ident) {
        return Err(error_at(src, toks, pos));
    }
    push_node(ch, leaf_at(src, toks, pos, Kind::ValueIdentifier), Ghost(src@.len()));
    let mut p = pos + 1;
    let ghost a0 = trees(ch@);
    while at(toks, p, Tok::ColonColon) && at(toks, p + 1, Tok::Ident)
        invariant
            tokens_ok(toks@, src@.len()),
            pos < p <= toks@.len(),
            all_bounded(ch@, src@.len()),
            g_path_rest(toks@, a0, pos + 1) == g_path_rest(toks@, trees(ch@), p as int),
        decreases toks@.len() - p,
    {
        push_node(ch, token_at(src, toks, p), Ghost(src@.len()));
        push_node(ch, leaf_at(src, toks, p + 1, Kind::ValueIdentifier), Ghost(src@.len()));
        p = p + 2;
    }
    Ok(p)
}

/// One field `f` or `f: pattern` of a struct pattern.
#[verifier::rlimit(100)]
#[verifier::spinoff_prover]
fn parse_field_pattern(src: &Vec<char>, toks: &Vec<Token>, pos: usize) -> (r: Result<(Node, usize), SyntaxError>)
    requires
        tokens_ok(toks@, src@.len()),
    ensures
        parse_ok(r, pos as int, toks@, src@.len()),
        res_is(r, g_field_pattern(src@, toks@, pos as int)),
    decreases toks@.len() - pos, 1int,
{
    reveal(g_field_pattern);
    let mut fch: Vec<Node> = Vec::new();
    assert(trees(fch@) =~= Seq::<Tree>::empty());
    if !at(toks, pos, Tok::Ident) {
        return Err(error_at(src, toks, pos));
    }
    push_node(&mut fch, leaf_at(src, toks, pos, Kind::ValueIdentifier), Ghost(src@.len()));
    let mut p = pos + 1;
    if at(toks, p, Tok::Colon) {
        p = expect(&mut fch, src, toks, p, Tok::Colon)?;
        let (t, q) = parse_pattern(src, toks, p)?;
        push_node(&mut fch, t, Ghost(src@.len()));
        p = q;
        assert(trees(fch@) == seq![leaf_tree(toks@, pos as int, Kind::ValueIdentifier), token_tree(toks@, pos + 1), tree_of(t)]);
    } else {
        assert(trees(fch@) == seq![leaf_tree(toks@, pos as int, Kind::ValueIdentifier)]);
    }
    let n = finish(Kind::FieldPattern, fch, src, toks, pos, p);
    assert(tree_of(n) == node_tree(Kind::FieldPattern, trees(fch@), toks@, pos as int, p as int));
    Ok((n, p))
}

/// A pattern: literal, identifier or path, tuple-struct pattern
/// `Path(p, ..)`, struct pattern `Path { f, g: p }`, tuple pattern `(p, ..)`
/// or a negated number.
#[verifier::rlimit(100)]
#[verifier::spinoff_prover]
pub(crate) fn parse_pattern(src: &Vec<char>, toks: &Vec<Token>, pos: usize) -> (r: Result<
    (Node, usize),
    SyntaxError,
>)
    requires
        tokens_ok(toks@, src@.len()),
    ensures
        parse_ok(r, pos as int, toks@, src@.len()),
        res_is(r, g_pattern(src@, toks@, pos as int)),
    decreases toks@.len() - pos, 2int,
{
    reveal(g_pattern);
    if at(toks, pos, Tok::Int) {
        Ok((leaf_at(src, toks, pos, Kind::IntegerLiteral), pos + 1))
    } else if at(toks, pos, Tok::Float) {
        Ok((leaf_at(src, toks, pos, Kind::FloatLiteral), pos + 1))
    } else if at(toks, pos, Tok::Str) {
        Ok((leaf_at(src, toks, pos, Kind::StringLiteral), pos + 1))
    } else if at(toks, pos, Tok::CharLit) {
        Ok((leaf_at(src, toks, pos, Kind::CharLiteral), pos + 1))
    } else if at(toks, pos, Tok::True) || at(toks, pos, Tok::False) {
        Ok((leaf_at(src, toks, pos, Kind::BoolLiteral), pos + 1))
    } else if op_is(src, toks, pos, '-') && pos + 1 < toks.len() && (at(toks, pos + 1, Tok::Int) || at(toks, pos + 1, Tok::Float)) {
        let mut ch: Vec<Node> = Vec::new();
        assert(trees(ch@) =~= Seq::<Tree>::empty());
        push_node(&mut ch, token_at(src, toks, pos), Ghost(src@.len()));
        let kind = if at(toks, pos + 1, Tok::Int) {
            Kind::IntegerLiteral
        } else {
            Kind::FloatLiteral
        };
        push_node(&mut ch, leaf_at(src, toks, pos + 1, kind), Ghost(src@.len()));
        assert(trees(ch@) == seq![token_tree(toks@, pos as int), leaf_tree(toks@, pos + 1, kind)]);
        Ok((finish(Kind::UnaryExpression, ch, src, toks, pos, pos + 2), pos + 2))
    } else if at(toks, pos, Tok::LParen) {
        let mut ch: Vec<Node> = Vec::new();
        let mut p = expect(&mut ch, src, toks, pos, Tok::LParen)?;
        assert(trees(ch@) =~= seq![token_tree(toks@, pos as int)]);
        while !at(toks, p, Tok::RParen)
            invariant
                tokens_ok(toks@, src@.len()),
                pos < p <= toks@.len(),
                all_bounded(ch@, src@.len()),
                g_pattern(src@, toks@, pos as int) == closing(Kind::TuplePattern, g_pattern_list(src@, toks@, trees(ch@), p as int, Tok::RParen), toks@, src@.len(), pos as int, Tok::RParen),
            decreases toks@.len() - p,
        {
                reveal(g_pattern);
            let (t, q) = parse_pattern(src, toks, p)?;
            push_node(&mut ch, t, Ghost(src@.len()));
            p = q;
            if at(toks, p, Tok::Comma) {
                p = expect(&mut ch, src, toks, p, Tok::Comma)?;
            } else if !at(toks, p, Tok::RParen) {
                return Err(error_at(src, toks, p));
            }
        }
        close_node(Kind::TuplePattern, ch, src, toks, pos, p, Tok::RParen)
    } else if at(toks, pos, Tok::Ident) {
        let mut ch: Vec<Node> = Vec::new();
        assert(trees(ch@) =~= Seq::<Tree>::empty());
        let mut p = parse_path_into(&mut ch, src, toks, pos)?;
        if at(toks, p, Tok::LParen) {
            p = expect(&mut ch, src, toks, p, Tok::LParen)?;
            while !at(toks, p, Tok::RParen)
                invariant
                    tokens_ok(toks@, src@.len()),
                    pos < p <= toks@.len(),
                    all_bounded(ch@, src@.len()),
                    g_pattern(src@, toks@, pos as int) == closing(Kind::TupleStructPattern, g_pattern_list(src@, toks@, trees(ch@), p as int, Tok::RParen), toks@, src@.len(), pos as int, Tok::RParen),
                decreases toks@.len() - p,
            {
                    reveal(g_pattern);
                let (t, q) = parse_pattern(src, toks, p)?;
                push_node(&mut ch, t, Ghost(src@.len()));
                p = q;
                if at(toks, p, Tok::Comma) {
                    p = expect(&mut ch, src, toks, p, Tok::Comma)?;
                } else if !at(toks, p, Tok::RParen) {
                    return Err(error_at(src, toks, p));
                }
            }
            close_node(Kind::TupleStructPattern, ch, src, toks, pos, p, Tok::RParen)
        } else if at(toks, p, Tok::LBrace) {
            p = expect(&mut ch, src, toks, p, Tok::LBrace)?;
            while !at(toks, p, Tok::RBrace)
                invariant
                    tokens_ok(toks@, src@.len()),
                    pos < p <= toks@.len(),
                    all_bounded(ch@, src@.len()),
                    g_pattern(src@, toks@, pos as int) == closing(Kind::StructPattern, g_field_patterns(src@, toks@, trees(ch@), p as int), toks@, src@.len(), pos as int, Tok::RBrace),
                decreases toks@.len() - p,
            {
                    reveal(g_pattern);
                let (f, q) = parse_field_pattern(src, toks, p)?;
                push_node(&mut ch, f, Ghost(src@.len()));
                p = q;
                if at(toks, p, Tok::Comma) {
                    p = expect(&mut ch, src, toks, p, Tok::Comma)?;
                } else if !at(toks, p, Tok::RBrace) {
                    return Err(error_at(src, toks, p));
                }
            }
            close_node(Kind::StructPattern, ch, src, toks, pos, p, Tok::RBrace)
        } else if p == pos + 1 {
            Ok((leaf_at(src, toks, pos, Kind::ValueIdentifier), p))
        } else {
            Ok((finish(Kind::PathExpression, ch, src, toks, pos, p), p))
        }
    } else {
        Err(error_at(src, toks, pos))
    }
}

/// An expression.
#[verifier::rlimit(100)]
#[verifier::spinoff_prover]
pub(crate) fn parse_expr(src: &Vec<char>, toks: &Vec<Token>, pos: usize, no_struct: bool) -> (r: Result<
    (Node, usize),
    SyntaxError,
>)
    requires
        tokens_ok(toks@, src@.len()),
    ensures
        parse_ok(r, pos as int, toks@, src@.len()),
        res_is(r, g_expr(src@, toks@, pos as int, no_struct)),
    decreases toks@.len() - pos, 9int,
{
    reveal(g_expr);
    parse_binary(src, toks, pos, 1, no_struct)
}

/// Binary operators binding at least as strongly as `min`, left to right.
#[verifier::rlimit(100)]
#[verifier::spinoff_prover]
fn parse_binary(src: &Vec<char>, toks: &Vec<Token>, pos: usize, min: u8, no_struct: bool) -> (r:
    Result<(Node, usize), SyntaxError>)
    requires
        tokens_ok(toks@, src@.len()),
        1 <= min <= 11,
    ensures
        parse_ok(r, pos as int, toks@, src@.len()),
        res_is(r, g_binary(src@, toks@, pos as int, min, no_struct)),
    decreases toks@.len() - pos, 8int,
{
    let (mut left, mut p) = parse_unary(src, toks, pos, no_struct)?;
    loop
        invariant
            tokens_ok(toks@, src@.len()),
            pos < p <= toks@.len(),
            bounded(left, src@.len()),
            1 <= min <= 11,
            g_binary(src@, toks@, pos as int, min, no_struct) == g_binary_rest(src@, toks@, pos as int, tree_of(left), p as int, min, no_struct),
        decreases toks@.len() - p,
    {
        let prec = binary_precedence(src, toks, p);
        if prec == 0 || prec < min {
            return Ok((left, p));
        }
        let op = token_at(src, toks, p);
        let (right, q) = parse_binary(src, toks, p + 1, prec + 1, no_struct)?;
        let kind = if prec == 1 {
            Kind::PipeExpression
        } else {
            Kind::BinaryExpression
        };
        let ghost lt = tree_of(left);
        let ghost rt = tree_of(right);
        let mut ch: Vec<Node> = Vec::new();
        assert(trees(ch@) =~= Seq::<Tree>::empty());
        push_node(&mut ch, left, Ghost(src@.len()));
        push_node(&mut ch, op, Ghost(src@.len()));
        push_node(&mut ch, right, Ghost(src@.len()));
        assert(trees(ch@) == seq![lt, token_tree(toks@, p as int), rt]);
        left = finish(kind, ch, src, toks, pos, q);
        p = q;
    }
}

/// Prefix operators `-`, `!`, `&` and `*`.
#[verifier::rlimit(100)]
#[verifier::spinoff_prover]
fn parse_unary(src: &Vec<char>, toks: &Vec<Token>, pos: usize, no_struct: bool) -> (r: Result<
    (Node, usize),
    SyntaxError,
>)
    requires
        tokens_ok(toks@, src@.len()),
    ensures
        parse_ok(r, pos as int, toks@, src@.len()),
        res_is(r, g_unary(src@, toks@, pos as int, no_struct)),
    decreases toks@.len() - pos, 7int,
{
    reveal(g_unary);
    if op_is(src, toks, pos, '-') || op_is(src, toks, pos, '!') || op_is(src, toks, pos, '&')
        || op_is(src, toks, pos, '*') {
        let op = token_at(src, toks, pos);
        let (operand, q) = parse_unary(src, toks, pos + 1, no_struct)?;
        let ghost ot = tree_of(operand);
        let mut ch: Vec<Node> = Vec::new();
        assert(trees(ch@) =~= Seq::<Tree>::empty());
        push_node(&mut ch, op, Ghost(src@.len()));
        push_node(&mut ch, operand, Ghost(src@.len()));
        assert(trees(ch@) == seq![token_tree(toks@, pos as int), ot]);
        Ok((finish(Kind::UnaryExpression, ch, src, toks, pos, q), q))
    } else {
        parse_postfix(src, toks, pos, no_struct)
    }
}

/// Calls `f(..)`, field accesses `e.f` and indexing `e[i]`.
#[verifier::rlimit(100)]
#[verifier::spinoff_prover]
fn parse_postfix(src: &Vec<char>, toks: &Vec<Token>, pos: usize, no_struct: bool) -> (r: Result<
    (Node, usize),
    SyntaxError,
>)
    requires
        tokens_ok(toks@, src@.len()),
    ensures
        parse_ok(r, pos as int, toks@, src@.len()),
        res_is(r, g_postfix(src@, toks@, pos as int, no_struct)),
    decreases toks@.len() - pos, 6int,
{
    reveal(g_postfix);
    let (mut e, mut p) = parse_primary(src, toks, pos, no_struct)?;
    loop
        invariant
            tokens_ok(toks@, src@.len()),
            pos < p <= toks@.len(),
            bounded(e, src@.len()),
            g_postfix(src@, toks@, pos as int, no_struct) == g_postfix_rest(src@, toks@, pos as int, tree_of(e), p as int),
        decreases toks@.len() - p,
    {
            reveal(g_postfix);
        let ghost et = tree_of(e);
        if at(toks, p, Tok::LParen) {
            let (args, q) = parse_arguments(src, toks, p)?;
            let ghost at_ = tree_of(args);
            let mut ch: Vec<Node> = Vec::new();
            assert(trees(ch@) =~= Seq::<Tree>::empty());
            push_node(&mut ch, e, Ghost(src@.len()));
            push_node(&mut ch, args, Ghost(src@.len()));
            assert(trees(ch@) == seq![et, at_]);
            e = finish(Kind::CallExpression, ch, src, toks, pos, q);
            p = q;
        } else if at(toks, p, Tok::Dot) && (at(toks, p + 1, Tok::Ident) || at(toks, p + 1, Tok::Int)) {
            let mut ch: Vec<Node> = Vec::new();
            assert(trees(ch@) =~= Seq::<Tree>::empty());
            push_node(&mut ch, e, Ghost(src@.len()));
            push_node(&mut ch, token_at(src, toks, p), Ghost(src@.len()));
            push_node(&mut ch, leaf_at(src, toks, p + 1, Kind::ValueIdentifier), Ghost(src@.len()));
            assert(trees(ch@) == seq![et, token_tree(toks@, p as int), leaf_tree(toks@, p + 1, Kind::ValueIdentifier)]);
            e = finish(Kind::FieldExpression, ch, src, toks, pos, p + 2);
            p = p + 2;
        } else if at(toks, p, Tok::LBracket) {
            let mut ch: Vec<Node> = Vec::new();
            assert(trees(ch@) =~= Seq::<Tree>::empty());
            push_node(&mut ch, e, Ghost(src@.len()));
            let q = expect(&mut ch, src, toks, p, Tok::LBracket)?;
            let (index, q2) = parse_expr(src, toks, q, false)?;
            let ghost it = tree_of(index);
            push_node(&mut ch, index, Ghost(src@.len()));
            assert(trees(ch@) == seq![et, token_tree(toks@, p as int), it]);
            let q3 = expect(&mut ch, src, toks, q2, Tok::RBracket)?;
            e = finish(Kind::IndexExpression, ch, src, toks, pos, q3);
            p = q3;
        } else {
            return Ok((e, p));
        }
    }
}

/// A parenthesized, comma-separated argument list.
#[verifier::rlimit(100)]
#[verifier::spinoff_prover]
fn parse_arguments(src: &Vec<char>, toks: &Vec<Token>, pos: usize) -> (r: Result<
    (Node, usize),
    SyntaxError,
>)
    requires
        tokens_ok(toks@, src@.len()),
    ensures
        parse_ok(r, pos as int, toks@, src@.len()),
        res_is(r, g_arguments(src@, toks@, pos as int)),
    decreases toks@.len() - pos, 4int,
{
    reveal(g_arguments);
    let mut ch: Vec<Node> = Vec::new();
    assert(trees(ch@) =~= Seq::<Tree>::empty());
    let mut p = expect(&mut ch, src, toks, pos, Tok::LParen)?;
    while !at(toks, p, Tok::RParen)
        invariant
            tokens_ok(toks@, src@.len()),
            pos < p <= toks@.len(),
            all_bounded(ch@, src@.len()),
            g_arguments(src@, toks@, pos as int) == closing(Kind::Arguments, g_argument_list(src@, toks@, trees(ch@), p as int), toks@, src@.len(), pos as int, Tok::RParen),
        decreases toks@.len() - p,
    {
            reveal(g_arguments);
        let (a, q) = parse_expr(src, toks, p, false)?;
        push_node(&mut ch, a, Ghost(src@.len()));
        p = q;
        if at(toks, p, Tok::Comma) {
            p = expect(&mut ch, src, toks, p, Tok::Comma)?;
        } else if !at(toks, p, Tok::RParen) {
            return Err(error_at(src, toks, p));
        }
    }
    close_node(Kind::Arguments, ch, src, toks, pos, p, Tok::RParen)
}

/// Whether the identifier at `pos` starts with an upper-case letter.
fn starts_upper(src: &Vec<char>, toks: &Vec<Token>, pos: usize) -> (b: bool)
    requires
        tokens_ok(toks@, src@.len()),
        pos < toks@.len(),
    ensures
        b == is_upper_ascii(src@[toks@[pos as int].start as int]),
{
    let c = src[toks[pos].start];
    'A' <= c && c <= 'Z'
}

/// A name or path, possibly the head of a struct literal.
#[verifier::rlimit(100)]
#[verifier::spinoff_prover]
fn parse_name_expression(src: &Vec<char>, toks: &Vec<Token>, pos: usize, no_struct: bool) -> (r: Result<
    (Node, usize),
    SyntaxError,
>)
    requires
        tokens_ok(toks@, src@.len()),
        at_tok(toks@, pos as int, Tok::Ident),
    ensures
        parse_ok(r, pos as int, toks@, src@.len()),
        res_is(r, g_primary(src@, toks@, pos as int, no_struct)),
    decreases toks@.len() - pos, 4int,
{
    reveal(g_primary);
    let mut ch: Vec<Node> = Vec::new();
    assert(trees(ch@) =~= Seq::<Tree>::empty());
    let p = parse_path_into(&mut ch, src, toks, pos)?;
    let head = if p == pos + 1 {
        leaf_at(src, toks, pos, Kind::ValueIdentifier)
    } else {
        finish(Kind::PathExpression, ch, src, toks, pos, p)
    };
    if !no_struct && at(toks, p, Tok::LBrace) && starts_upper(src, toks, pos) {
        let ghost ht = tree_of(head);
        let (fields, q) = parse_struct_literal_fields(src, toks, p)?;
        let ghost ft = tree_of(fields);
        let mut sch: Vec<Node> = Vec::new();
        assert(trees(sch@) =~= Seq::<Tree>::empty());
        push_node(&mut sch, head, Ghost(src@.len()));
        push_node(&mut sch, fields, Ghost(src@.len()));
        assert(trees(sch@) == seq![ht, ft]);
        Ok((finish(Kind::StructLiteralExpression, sch, src, toks, pos, q), q))
    } else {
        Ok((head, p))
    }
}

/// A parenthesized expression, the unit literal or a tuple.
#[verifier::rlimit(100)]
#[verifier::spinoff_prover]
fn parse_paren_expression(src: &Vec<char>, toks: &Vec<Token>, pos: usize, no_struct: bool) -> (r: Result<
    (Node, usize),
    SyntaxError,
>)
    requires
        tokens_ok(toks@, src@.len()),
        at_tok(toks@, pos as int, Tok::LParen),
    ensures
        parse_ok(r, pos as int, toks@, src@.len()),
        res_is(r, g_primary(src@, toks@, pos as int, no_struct)),
    decreases toks@.len() - pos, 4int,
{
    reveal(g_primary);
    let mut ch: Vec<Node> = Vec::new();
    assert(trees(ch@) =~= Seq::<Tree>::empty());
    let p = expect(&mut ch, src, toks, pos, Tok::LParen)?;
    assert(trees(ch@) == seq![token_tree(toks@, pos as int)]);
    if at(toks, p, Tok::RParen) {
        return close_node(Kind::UnitLiteral, ch, src, toks, pos, p, Tok::RParen);
    }
    let (first, q) = parse_expr(src, toks, p, false)?;
    push_node(&mut ch, first, Ghost(src@.len()));
    if at(toks, q, Tok::RParen) {
        return close_node(Kind::ParenthesizedExpression, ch, src, toks, pos, q, Tok::RParen);
    }
    let mut p = q;
    while !at(toks, p, Tok::RParen)
        invariant
            tokens_ok(toks@, src@.len()),
            pos < p <= toks@.len(),
            all_bounded(ch@, src@.len()),
            g_primary(src@, toks@, pos as int, no_struct) == closing(Kind::TupleExpression, g_element_rest(src@, toks@, trees(ch@), p as int, Tok::RParen), toks@, src@.len(), pos as int, Tok::RParen),
        decreases toks@.len() - p,
    {
            reveal(g_primary);
        p = expect(&mut ch, src, toks, p, Tok::Comma)?;
        if !at(toks, p, Tok::RParen) {
            let (e, q2) = parse_expr(src, toks, p, false)?;
            push_node(&mut ch, e, Ghost(src@.len()));
            p = q2;
        }
    }
    close_node(Kind::TupleExpression, ch, src, toks, pos, p, Tok::RParen)
}

/// An array `[a, b]` or `[value; count]`.
#[verifier::rlimit(100)]
#[verifier::spinoff_prover]
fn parse_array_expression(src: &Vec<char>, toks: &Vec<Token>, pos: usize, no_struct: bool) -> (r: Result<
    (Node, usize),
    SyntaxError,
>)
    requires
        tokens_ok(toks@, src@.len()),
        at_tok(toks@, pos as int, Tok::LBracket),
    ensures
        parse_ok(r, pos as int, toks@, src@.len()),
        res_is(r, g_primary(src@, toks@, pos as int, no_struct)),
    decreases toks@.len() - pos, 4int,
{
    reveal(g_primary);
    let mut ch: Vec<Node> = Vec::new();
    assert(trees(ch@) =~= Seq::<Tree>::empty());
    let p = expect(&mut ch, src, toks, pos, Tok::LBracket)?;
    assert(trees(ch@) == seq![token_tree(toks@, pos as int)]);
    if at(toks, p, Tok::RBracket) {
        return close_node(Kind::ArrayExpression, ch, src, toks, pos, p, Tok::RBracket);
    }
    let (first, q) = parse_expr(src, toks, p, false)?;
    push_node(&mut ch, first, Ghost(src@.len()));
    if at(toks, q, Tok::Semi) {
        let p2 = expect(&mut ch, src, toks, q, Tok::Semi)?;
        let (count, q2) = parse_expr(src, toks, p2, false)?;
        push_node(&mut ch, count, Ghost(src@.len()));
        return close_node(Kind::ArrayExpression, ch, src, toks, pos, q2, Tok::RBracket);
    }
    let mut p = q;
    while !at(toks, p, Tok::RBracket)
        invariant
            tokens_ok(toks@, src@.len()),
            pos < p <= toks@.len(),
            all_bounded(ch@, src@.len()),
            g_primary(src@, toks@, pos as int, no_struct) == closing(Kind::ArrayExpression, g_element_rest(src@, toks@, trees(ch@), p as int, Tok::RBracket), toks@, src@.len(), pos as int, Tok::RBracket),
        decreases toks@.len() - p,
    {
            reveal(g_primary);
        p = expect(&mut ch, src, toks, p, Tok::Comma)?;
        if !at(toks, p, Tok::RBracket) {
            let (e, q2) = parse_expr(src, toks, p, false)?;
            push_node(&mut ch, e, Ghost(src@.len()));
            p = q2;
        }
    }
    close_node(Kind::ArrayExpression, ch, src, toks, pos, p, Tok::RBracket)
}

/// Literals, names and paths, struct literals, parenthesized and tuple
/// expressions, arrays, `if`, `match` and blocks.
#[verifier::rlimit(100)]
#[verifier::spinoff_prover]
fn parse_primary(src: &Vec<char>, toks: &Vec<Token>, pos: usize, no_struct: bool) -> (r: Result<
    (Node, usize),
    SyntaxError,
>)
    requires
        tokens_ok(toks@, src@.len()),
    ensures
        parse_ok(r, pos as int, toks@, src@.len()),
        res_is(r, g_primary(src@, toks@, pos as int, no_struct)),
    decreases toks@.len() - pos, 5int,
{
    reveal(g_primary);
    if at(toks, pos, Tok::Int) {
        Ok((leaf_at(src, toks, pos, Kind::IntegerLiteral), pos + 1))
    } else if at(toks, pos, Tok::Float) {
        Ok((leaf_at(src, toks, pos, Kind::FloatLiteral), pos + 1))
    } else if at(toks, pos, Tok::Str) {
        Ok((leaf_at(src, toks, pos, Kind::StringLiteral), pos + 1))
    } else if at(toks, pos, Tok::CharLit) {
        Ok((leaf_at(src, toks, pos, Kind::CharLiteral), pos + 1))
    } else if at(toks, pos, Tok::True) || at(toks, pos, Tok::False) {
        Ok((leaf_at(src, toks, pos, Kind::BoolLiteral), pos + 1))
    } else if at(toks, pos, Tok::Ident) {
        parse_name_expression(src, toks, pos, no_struct)
    } else if at(toks, pos, Tok::LParen) {
        parse_paren_expression(src, toks, pos, no_struct)
    } else if at(toks, pos, Tok::LBracket) {
        parse_array_expression(src, toks, pos, no_struct)
    } else if at(toks, pos, Tok::If) {
        parse_if(src, toks, pos)
    } else if at(toks, pos, Tok::Match) {
        parse_match(src, toks, pos)
    } else if at(toks, pos, Tok::LBrace) {
        parse_block(src, toks, pos)
    } else {
        Err(error_at(src, toks, pos))
    }
}

/// The braced field list of a struct literal: `{ f: e, g: e }`.
#[verifier::rlimit(100)]
#[verifier::spinoff_prover]
fn parse_struct_literal_fields(src: &Vec<char>, toks: &Vec<Token>, pos: usize) -> (r: Result<
    (Node, usize),
    SyntaxError,
>)
    requires
        tokens_ok(toks@, src@.len()),
    ensures
        parse_ok(r, pos as int, toks@, src@.len()),
        res_is(r, g_struct_literal_fields(src@, toks@, pos as int)),
    decreases toks@.len() - pos, 3int,
{
    reveal(g_struct_literal_fields);
    let mut ch: Vec<Node> = Vec::new();
    assert(trees(ch@) =~= Seq::<Tree>::empty());
    let mut p = expect(&mut ch, src, toks, pos, Tok::LBrace)?;
    while !at(toks, p, Tok::RBrace)
        invariant
            tokens_ok(toks@, src@.len()),
            pos < p <= toks@.len(),
            all_bounded(ch@, src@.len()),
            g_struct_literal_fields(src@, toks@, pos as int) == closing(Kind::StructLiteralFields, g_literal_fields(src@, toks@, trees(ch@), p as int), toks@, src@.len(), pos as int, Tok::RBrace),
        decreases toks@.len() - p,
    {
            reveal(g_struct_literal_fields);
        if !at(toks, p, Tok::Ident) {
            return Err(error_at(src, toks, p));
        }
        push_node(&mut ch, leaf_at(src, toks, p, Kind::ValueIdentifier), Ghost(src@.len()));
        p = p + 1;
        if at(toks, p, Tok::Colon) {
            p = expect(&mut ch, src, toks, p, Tok::Colon)?;
            let (e, q) = parse_expr(src, toks, p, false)?;
            push_node(&mut ch, e, Ghost(src@.len()));
            p = q;
        }
        if at(toks, p, Tok::Comma) {
            p = expect(&mut ch, src, toks, p, Tok::Comma)?;
        } else if !at(toks, p, Tok::RBrace) {
            return Err(error_at(src, toks, p));
        }
    }
    close_node(Kind::StructLiteralFields, ch, src, toks, pos, p, Tok::RBrace)
}

/// The node of an `if` chain over `pos..` from the read of its children.
pub open spec fn if_node(g: Items, toks: Seq<Token>, pos: int) -> Parsed {
    match g {
        Err(e) => Err(e),
        Ok((ch, p)) => Ok((node_tree(Kind::IfExpression, ch, toks, pos, p), p)),
    }
}

/// `if c { .. } else if c { .. } else { .. }`, with the whole chain as the
/// children of one node.
#[verifier::rlimit(100)]
#[verifier::spinoff_prover]
fn parse_if(src: &Vec<char>, toks: &Vec<Token>, pos: usize) -> (r: Result<(Node, usize), SyntaxError>)
    requires
        tokens_ok(toks@, src@.len()),
    ensures
        parse_ok(r, pos as int, toks@, src@.len()),
        res_is(r, g_if(src@, toks@, pos as int)),
    decreases toks@.len() - pos, 4int,
{
    reveal(g_if);
    let mut ch: Vec<Node> = Vec::new();
    assert(trees(ch@) =~= Seq::<Tree>::empty());
    let p = expect(&mut ch, src, toks, pos, Tok::If)?;
    let (cond, q) = parse_expr(src, toks, p, true)?;
    push_node(&mut ch, cond, Ghost(src@.len()));
    let (body, q2) = parse_block(src, toks, q)?;
    push_node(&mut ch, body, Ghost(src@.len()));
    let mut p = q2;
    loop
        invariant_except_break
            tokens_ok(toks@, src@.len()),
            pos < p <= toks@.len(),
            all_bounded(ch@, src@.len()),
            g_if(src@, toks@, pos as int) == if_node(g_else_branches(src@, toks@, trees(ch@), p as int), toks@, pos as int),
        ensures
            tokens_ok(toks@, src@.len()),
            pos < p <= toks@.len(),
            all_bounded(ch@, src@.len()),
            g_if(src@, toks@, pos as int) == Ok::<(Tree, int), SyntaxError>((node_tree(Kind::IfExpression, trees(ch@), toks@, pos as int, p as int), p as int)),
        decreases toks@.len() - p,
    {
            reveal(g_if);
        if !at(toks, p, Tok::Else) {
            break;
        }
        let p1 = expect(&mut ch, src, toks, p, Tok::Else)?;
        if at(toks, p1, Tok::If) {
            let p2 = expect(&mut ch, src, toks, p1, Tok::If)?;
            let (c, q3) = parse_expr(src, toks, p2, true)?;
            push_node(&mut ch, c, Ghost(src@.len()));
            let (b, q4) = parse_block(src, toks, q3)?;
            push_node(&mut ch, b, Ghost(src@.len()));
            p = q4;
        } else {
            let (b, q3) = parse_block(src, toks, p1)?;
            push_node(&mut ch, b, Ghost(src@.len()));
            p = q3;
            break;
        }
    }
    Ok((finish(Kind::IfExpression, ch, src, toks, pos, p), p))
}

/// The head of a match arm: its pattern and an optional guard, read into
/// the empty `ach`.
#[verifier::rlimit(100)]
#[verifier::spinoff_prover]
fn parse_arm_head_into(ach: &mut Vec<Node>, src: &Vec<char>, toks: &Vec<Token>, pos: usize) -> (r: Result<usize, SyntaxError>)
    requires
        tokens_ok(toks@, src@.len()),
        old(ach)@.len() == 0,
    ensures
        all_bounded(final(ach)@, src@.len()),
        r matches Ok(p) ==> pos < p <= toks@.len(),
        r matches Err(e) ==> e.offset <= src@.len() && reported_from(e, toks@, src@.len(), pos as int),
        items_is(r, final(ach)@, g_arm_head(src@, toks@, pos as int)),
    decreases toks@.len() - pos, 3int,
{
    reveal(g_arm_head);
    assert(trees(ach@) =~= Seq::<Tree>::empty());
    let (pat, q1) = parse_pattern(src, toks, pos)?;
    let ghost pt = tree_of(pat);
    push_node(ach, pat, Ghost(src@.len()));
    if at(toks, q1, Tok::If) {
        let p1 = expect(ach, src, toks, q1, Tok::If)?;
        let (guard, q2) = parse_expr(src, toks, p1, false)?;
        let ghost gt = tree_of(guard);
        push_node(ach, guard, Ghost(src@.len()));
        assert(trees(ach@) == seq![pt, token_tree(toks@, q1 as int), gt]);
        Ok(q2)
    } else {
        assert(trees(ach@) == seq![pt]);
        Ok(q1)
    }
}

/// One arm of a match: `pattern (if guard)? => expr ,?`.
#[verifier::rlimit(100)]
#[verifier::spinoff_prover]
fn parse_arm(src: &Vec<char>, toks: &Vec<Token>, pos: usize) -> (r: Result<(Node, usize), SyntaxError>)
    requires
        tokens_ok(toks@, src@.len()),
    ensures
        parse_ok(r, pos as int, toks@, src@.len()),
        res_is(r, g_arm(src@, toks@, pos as int)),
    decreases toks@.len() - pos, 4int,
{
    reveal(g_arm);
    let mut ach: Vec<Node> = Vec::new();
    let q2 = parse_arm_head_into(&mut ach, src, toks, pos)?;
    let mut p = expect(&mut ach, src, toks, q2, Tok::FatArrow)?;
    let (value, q3) = parse_expr(src, toks, p, false)?;
    push_node(&mut ach, value, Ghost(src@.len()));
    p = q3;
    if at(toks, p, Tok::Comma) {
        p = expect(&mut ach, src, toks, p, Tok::Comma)?;
    }
    Ok((finish(Kind::MatchArm, ach, src, toks, pos, p), p))
}

/// `match e { pattern (if guard)? => expr ,? ... }`.
#[verifier::rlimit(100)]
#[verifier::spinoff_prover]
fn parse_match(src: &Vec<char>, toks: &Vec<Token>, pos: usize) -> (r: Result<(Node, usize), SyntaxError>)
    requires
        tokens_ok(toks@, src@.len()),
    ensures
        parse_ok(r, pos as int, toks@, src@.len()),
        res_is(r, g_match(src@, toks@, pos as int)),
    decreases toks@.len() - pos, 4int,
{
    reveal(g_match);
    let mut ch: Vec<Node> = Vec::new();
    assert(trees(ch@) =~= Seq::<Tree>::empty());
    let p0 = expect(&mut ch, src, toks, pos, Tok::Match)?;
    let (scrutinee, q) = parse_expr(src, toks, p0, true)?;
    push_node(&mut ch, scrutinee, Ghost(src@.len()));
    let mut p = expect(&mut ch, src, toks, q, Tok::LBrace)?;
    while !at(toks, p, Tok::RBrace)
        invariant
            tokens_ok(toks@, src@.len()),
            pos < p <= toks@.len(),
            all_bounded(ch@, src@.len()),
            g_match(src@, toks@, pos as int) == closing(Kind::MatchExpression, g_arms(src@, toks@, trees(ch@), p as int), toks@, src@.len(), pos as int, Tok::RBrace),
        decreases toks@.len() - p,
    {
            reveal(g_match);
        if at(toks, p, Tok::Comment) {
            push_node(&mut ch, leaf_at(src, toks, p, Kind::Comment), Ghost(src@.len()));
            p = p + 1;
        } else {
            let (arm, q1) = parse_arm(src, toks, p)?;
            push_node(&mut ch, arm, Ghost(src@.len()));
            p = q1;
        }
    }
    close_node(Kind::MatchExpression, ch, src, toks, pos, p, Tok::RBrace)
}

/// `{ statement* }`.
#[verifier::rlimit(100)]
#[verifier::spinoff_prover]
pub(crate) fn parse_block(src: &Vec<char>, toks: &Vec<Token>, pos: usize) -> (r: Result<(Node, usize), SyntaxError>)
    requires
        tokens_ok(toks@, src@.len()),
    ensures
        parse_ok(r, pos as int, toks@, src@.len()),
        res_is(r, g_block(src@, toks@, pos as int)),
    decreases toks@.len() - pos, 4int,
{
    reveal(g_block);
    let mut ch: Vec<Node> = Vec::new();
    assert(trees(ch@) =~= Seq::<Tree>::empty());
    let mut p = expect(&mut ch, src, toks, pos, Tok::LBrace)?;
    while !at(toks, p, Tok::RBrace)
        invariant
            tokens_ok(toks@, src@.len()),
            pos < p <= toks@.len(),
            all_bounded(ch@, src@.len()),
            g_block(src@, toks@, pos as int) == closing(Kind::Block, g_statements(src@, toks@, trees(ch@), p as int), toks@, src@.len(), pos as int, Tok::RBrace),
        decreases toks@.len() - p,
    {
            reveal(g_block);
        let (s, q) = parse_statement(src, toks, p)?;
        push_node(&mut ch, s, Ghost(src@.len()));
        p = q;
    }
    close_node(Kind::Block, ch, src, toks, pos, p, Tok::RBrace)
}

/// An optional `: Type` annotation; appends it and returns the position
/// after it.
#[verifier::rlimit(100)]
#[verifier::spinoff_prover]
fn parse_annotation_into(ch: &mut Vec<Node>, src: &Vec<char>, toks: &Vec<Token>, pos: usize) -> (r:
    Result<usize, SyntaxError>)
    requires
        tokens_ok(toks@, src@.len()),
        all_bounded(old(ch)@, src@.len()),
        pos <= toks@.len(),
    ensures
        all_bounded(final(ch)@, src@.len()),
        r matches Ok(p) ==> pos <= p <= toks@.len(),
        r matches Err(e) ==> e.offset <= src@.len() && reported_from(e, toks@, src@.len(), pos as int),
        items_is(r, final(ch)@, g_annotation(src@, toks@, trees(old(ch)@), pos as int)),
    decreases toks@.len() - pos, 3int,
{
    if !at(toks, pos, Tok::Colon) {
        return Ok(pos);
    }
    let mut ach: Vec<Node> = Vec::new();
    assert(trees(ach@) =~= Seq::<Tree>::empty());
    let p = expect(&mut ach, src, toks, pos, Tok::Colon)?;
    let (t, q) = parse_type(src, toks, p)?;
    let ghost tt = tree_of(t);
    push_node(&mut ach, t, Ghost(src@.len()));
    assert(trees(ach@) == seq![token_tree(toks@, pos as int), tt]);
    push_node(ch, finish(Kind::TypeAnnotation, ach, src, toks, pos, q), Ghost(src@.len()));
    Ok(q)
}

/// The rest of a `let` after `let` and an optional `mut`, from `p`, with
/// those tokens in `ch`.
#[verifier::rlimit(100)]
#[verifier::spinoff_prover]
fn parse_let_rest(ch: Vec<Node>, src: &Vec<char>, toks: &Vec<Token>, pos: usize, p: usize) -> (r: Result<
    (Node, usize),
    SyntaxError,
>)
    requires
        tokens_ok(toks@, src@.len()),
        pos < p <= toks@.len(),
        all_bounded(ch@, src@.len()),
    ensures
        parse_ok(r, p as int, toks@, src@.len()),
        res_is(r, g_let_rest(src@, toks@, trees(ch@), pos as int, p as int)),
    decreases toks@.len() - p, 11int,
{
    reveal(g_let_rest);
    let mut ch = ch;
    let (pat, q) = parse_pattern(src, toks, p)?;
    push_node(&mut ch, pat, Ghost(src@.len()));
    let p1 = parse_annotation_into(&mut ch, src, toks, q)?;
    let mut p2 = p1;
    if at(toks, p1, Tok::Assign) {
        p2 = expect(&mut ch, src, toks, p1, Tok::Assign)?;
        let (value, q2) = parse_expr(src, toks, p2, false)?;
        push_node(&mut ch, value, Ghost(src@.len()));
        p2 = q2;
    }
    close_node(Kind::LetDeclaration, ch, src, toks, pos, p2, Tok::Semi)
}

/// An expression statement, an assignment, or a trailing expression.
#[verifier::rlimit(100)]
#[verifier::spinoff_prover]
fn parse_expression_statement(src: &Vec<char>, toks: &Vec<Token>, pos: usize) -> (r: Result<
    (Node, usize),
    SyntaxError,
>)
    requires
        tokens_ok(toks@, src@.len()),
    ensures
        parse_ok(r, pos as int, toks@, src@.len()),
        res_is(r, g_expression_statement(src@, toks@, pos as int)),
    decreases toks@.len() - pos, 11int,
{
    reveal(g_expression_statement);
    let block_like = at(toks, pos, Tok::If) || at(toks, pos, Tok::Match) || at(toks, pos, Tok::LBrace);
    let (e, q) = parse_expr(src, toks, pos, false)?;
    let ghost et = tree_of(e);
    if at(toks, q, Tok::Assign) || at(toks, q, Tok::AssignOp) {
        let mut ch: Vec<Node> = Vec::new();
        assert(trees(ch@) =~= Seq::<Tree>::empty());
        push_node(&mut ch, e, Ghost(src@.len()));
        push_node(&mut ch, token_at(src, toks, q), Ghost(src@.len()));
        let (value, q2) = parse_expr(src, toks, q + 1, false)?;
        let ghost vt = tree_of(value);
        push_node(&mut ch, value, Ghost(src@.len()));
        assert(trees(ch@) == seq![et, token_tree(toks@, q as int), vt]);
        let p = expect(&mut ch, src, toks, q2, Tok::Semi)?;
        Ok((finish(Kind::AssignmentStatement, ch, src, toks, pos, p), p))
    } else if at(toks, q, Tok::Semi) {
        let mut ch: Vec<Node> = Vec::new();
        assert(trees(ch@) =~= Seq::<Tree>::empty());
        push_node(&mut ch, e, Ghost(src@.len()));
        let p = expect(&mut ch, src, toks, q, Tok::Semi)?;
        assert(trees(ch@) == seq![et, token_tree(toks@, q as int)]);
        Ok((finish(Kind::ExpressionStatement, ch, src, toks, pos, p), p))
    } else if block_like || at(toks, q, Tok::RBrace) {
        Ok((e, q))
    } else {
        Err(error_at(src, toks, q))
    }
}

/// A statement inside a block.
#[verifier::rlimit(100)]
#[verifier::spinoff_prover]
fn parse_statement(src: &Vec<char>, toks: &Vec<Token>, pos: usize) -> (r: Result<
    (Node, usize),
    SyntaxError,
>)
    requires
        tokens_ok(toks@, src@.len()),
    ensures
        parse_ok(r, pos as int, toks@, src@.len()),
        res_is(r, g_statement(src@, toks@, pos as int)),
    decreases toks@.len() - pos, 12int,
{
    reveal(g_statement);
    if at(toks, pos, Tok::Comment) {
        Ok((leaf_at(src, toks, pos, Kind::Comment), pos + 1))
    } else if at(toks, pos, Tok::Let) {
        let mut ch: Vec<Node> = Vec::new();
        assert(trees(ch@) =~= Seq::<Tree>::empty());
        let mut p = expect(&mut ch, src, toks, pos, Tok::Let)?;
        assert(trees(ch@) == seq![token_tree(toks@, pos as int)]);
        if at(toks, p, Tok::Mut) {
            p = expect(&mut ch, src, toks, p, Tok::Mut)?;
        }
        parse_let_rest(ch, src, toks, pos, p)
    } else if at(toks, pos, Tok::Return) {
        let mut ch: Vec<Node> = Vec::new();
        assert(trees(ch@) =~= Seq::<Tree>::empty());
        let mut p = expect(&mut ch, src, toks, pos, Tok::Return)?;
        assert(trees(ch@) == seq![token_tree(toks@, pos as int)]);
        if !at(toks, p, Tok::Semi) && !at(toks, p, Tok::RBrace) {
            let (value, q) = parse_expr(src, toks, p, false)?;
            push_node(&mut ch, value, Ghost(src@.len()));
            p = q;
        }
        if at(toks, p, Tok::Semi) {
            p = expect(&mut ch, src, toks, p, Tok::Semi)?;
        }
        Ok((finish(Kind::ReturnStatement, ch, src, toks, pos, p), p))
    } else if at(toks, pos, Tok::While) {
        let mut ch: Vec<Node> = Vec::new();
        assert(trees(ch@) =~= Seq::<Tree>::empty());
        let p = expect(&mut ch, src, toks, pos, Tok::While)?;
        let (cond, q) = parse_expr(src, toks, p, true)?;
        let ghost ct = tree_of(cond);
        push_node(&mut ch, cond, Ghost(src@.len()));
        let (body, q2) = parse_block(src, toks, q)?;
        let ghost bt = tree_of(body);
        push_node(&mut ch, body, Ghost(src@.len()));
        assert(trees(ch@) == seq![token_tree(toks@, pos as int), ct, bt]);
        Ok((finish(Kind::WhileStatement, ch, src, toks, pos, q2), q2))
    } else if at(toks, pos, Tok::Loop) {
        let mut ch: Vec<Node> = Vec::new();
        assert(trees(ch@) =~= Seq::<Tree>::empty());
        let p = expect(&mut ch, src, toks, pos, Tok::Loop)?;
        let (body, q) = parse_block(src, toks, p)?;
        let ghost bt = tree_of(body);
        push_node(&mut ch, body, Ghost(src@.len()));
        assert(trees(ch@) == seq![token_tree(toks@, pos as int), bt]);
        Ok((finish(Kind::LoopStatement, ch, src, toks, pos, q), q))
    } else if at(toks, pos, Tok::Break) || at(toks, pos, Tok::Continue) {
        let kind = if at(toks, pos, Tok::Break) {
            Kind::BreakStatement
        } else {
            Kind::ContinueStatement
        };
        let mut ch: Vec<Node> = Vec::new();
        assert(trees(ch@) =~= Seq::<Tree>::empty());
        push_node(&mut ch, token_at(src, toks, pos), Ghost(src@.len()));
        assert(trees(ch@) == seq![token_tree(toks@, pos as int)]);
        let mut p = pos + 1;
        if at(toks, p, Tok::Semi) {
            p = expect(&mut ch, src, toks, p, Tok::Semi)?;
        }
        Ok((finish(kind, ch, src, toks, pos, p), p))
    } else {
        parse_expression_statement(src, toks, pos)
    }
}

/// A run read `g` closed by the token `t` into a node of kind `k` that
/// starts at `pos`.
pub open spec fn closing_at(k: Kind, g: Items, toks: Seq<Token>, len: nat, pos: int, t: Tok) -> Parsed {
    match g {
        Err(e) => Err(e),
        Ok((ch, p)) => g_close(k, ch, toks, len, pos, p, t),
    }
}

/// One parameter `[mut] name [: Type]`.
#[verifier::rlimit(100)]
#[verifier::spinoff_prover]
fn parse_parameter(src: &Vec<char>, toks: &Vec<Token>, pos: usize) -> (r: Result<(Node, usize), SyntaxError>)
    requires
        tokens_ok(toks@, src@.len()),
    ensures
        parse_ok(r, pos as int, toks@, src@.len()),
        res_is(r, g_parameter(src@, toks@, pos as int)),
{
    reveal(g_parameter);
    let mut pch: Vec<Node> = Vec::new();
    assert(trees(pch@) =~= Seq::<Tree>::empty());
    let mut p = pos;
    if at(toks, pos, Tok::Mut) {
        p = expect(&mut pch, src, toks, pos, Tok::Mut)?;
    }
    assert(trees(pch@) == (if at_tok(toks@, pos as int, Tok::Mut) {
        seq![token_tree(toks@, pos as int)]
    } else {
        Seq::<Tree>::empty()
    }));
    if !at(toks, p, Tok::Ident) {
        return Err(error_at(src, toks, p));
    }
    push_node(&mut pch, leaf_at(src, toks, p, Kind::ValueIdentifier), Ghost(src@.len()));
    let q = parse_annotation_into(&mut pch, src, toks, p + 1)?;
    Ok((finish(Kind::Parameter, pch, src, toks, pos, q), q))
}

/// `( [mut] name [: Type], ... )`.
#[verifier::rlimit(100)]
#[verifier::spinoff_prover]
fn parse_parameters(src: &Vec<char>, toks: &Vec<Token>, pos: usize) -> (r: Result<
    (Node, usize),
    SyntaxError,
>)
    requires
        tokens_ok(toks@, src@.len()),
    ensures
        parse_ok(r, pos as int, toks@, src@.len()),
        res_is(r, g_parameters(src@, toks@, pos as int)),
{
    reveal(g_parameters);
    let mut ch: Vec<Node> = Vec::new();
    assert(trees(ch@) =~= Seq::<Tree>::empty());
    let mut p = expect(&mut ch, src, toks, pos, Tok::LParen)?;
    while !at(toks, p, Tok::RParen)
        invariant
            tokens_ok(toks@, src@.len()),
            pos < p <= toks@.len(),
            all_bounded(ch@, src@.len()),
            g_parameters(src@, toks@, pos as int) == closing_at(Kind::Parameters, g_parameter_list(src@, toks@, trees(ch@), p as int), toks@, src@.len(), pos as int, Tok::RParen),
        decreases toks@.len() - p,
    {
            reveal(g_parameters);
        let (prm, q) = parse_parameter(src, toks, p)?;
        push_node(&mut ch, prm, Ghost(src@.len()));
        p = q;
        if at(toks, p, Tok::Comma) {
            p = expect(&mut ch, src, toks, p, Tok::Comma)?;
        } else if !at(toks, p, Tok::RParen) {
            return Err(error_at(src, toks, p));
        }
    }
    close_node(Kind::Parameters, ch, src, toks, pos, p, Tok::RParen)
}

/// `fn name(params) [: Type] { .. }`.
#[verifier::rlimit(100)]
#[verifier::spinoff_prover]
fn parse_function(src: &Vec<char>, toks: &Vec<Token>, pos: usize) -> (r: Result<
    (Node, usize),
    SyntaxError,
>)
    requires
        tokens_ok(toks@, src@.len()),
    ensures
        parse_ok(r, pos as int, toks@, src@.len()),
        r matches Ok((n, q)) ==> n.kind == Kind::FunctionDefinition && item_span(n, toks@, pos as int, q as int),
        res_is(r, g_function(src@, toks@, pos as int)),
{
    reveal(g_function);
    let mut ch: Vec<Node> = Vec::new();
    assert(trees(ch@) =~= Seq::<Tree>::empty());
    let p = expect(&mut ch, src, toks, pos, Tok::Fn)?;
    if !at(toks, p, Tok::Ident) {
        return Err(error_at(src, toks, p));
    }
    push_node(&mut ch, leaf_at(src, toks, p, Kind::ValueIdentifier), Ghost(src@.len()));
    let (params, q) = parse_parameters(src, toks, p + 1)?;
    push_node(&mut ch, params, Ghost(src@.len()));
    let p2 = parse_annotation_into(&mut ch, src, toks, q)?;
    let (body, q2) = parse_block(src, toks, p2)?;
    push_node(&mut ch, body, Ghost(src@.len()));
    Ok((finish(Kind::FunctionDefinition, ch, src, toks, pos, q2), q2))
}

/// One field `[public] name: Type`.
#[verifier::rlimit(100)]
#[verifier::spinoff_prover]
fn parse_field(src: &Vec<char>, toks: &Vec<Token>, pos: usize) -> (r: Result<(Node, usize), SyntaxError>)
    requires
        tokens_ok(toks@, src@.len()),
    ensures
        parse_ok(r, pos as int, toks@, src@.len()),
        res_is(r, g_field(src@, toks@, pos as int)),
{
    reveal(g_field);
    let mut fch: Vec<Node> = Vec::new();
    assert(trees(fch@) =~= Seq::<Tree>::empty());
    let mut p = pos;
    if at(toks, pos, Tok::Public) {
        p = expect(&mut fch, src, toks, pos, Tok::Public)?;
    }
    assert(trees(fch@) == (if at_tok(toks@, pos as int, Tok::Public) {
        seq![token_tree(toks@, pos as int)]
    } else {
        Seq::<Tree>::empty()
    }));
    if !at(toks, p, Tok::Ident) {
        return Err(error_at(src, toks, p));
    }
    push_node(&mut fch, leaf_at(src, toks, p, Kind::ValueIdentifier), Ghost(src@.len()));
    let type_start = p + 1;
    let mut tch: Vec<Node> = Vec::new();
    assert(trees(tch@) =~= Seq::<Tree>::empty());
    let p2 = expect(&mut tch, src, toks, type_start, Tok::Colon)?;
    let (t, q) = parse_type(src, toks, p2)?;
    push_node(&mut tch, t, Ghost(src@.len()));
    push_node(&mut fch, finish(Kind::FieldType, tch, src, toks, type_start, q), Ghost(src@.len()));
    Ok((finish(Kind::FieldDefinition, fch, src, toks, pos, q), q))
}

/// Fields `[public] name: Type` separated by commas, up to the closing
/// brace (not consumed).
#[verifier::rlimit(100)]
#[verifier::spinoff_prover]
fn parse_fields_into(ch: &mut Vec<Node>, src: &Vec<char>, toks: &Vec<Token>, pos: usize) -> (r:
    Result<usize, SyntaxError>)
    requires
        tokens_ok(toks@, src@.len()),
        all_bounded(old(ch)@, src@.len()),
        pos <= toks@.len(),
    ensures
        all_bounded(final(ch)@, src@.len()),
        r matches Ok(p) ==> pos <= p <= toks@.len(),
        r matches Err(e) ==> e.offset <= src@.len() && reported_from(e, toks@, src@.len(), pos as int),
        items_is(r, final(ch)@, g_fields(src@, toks@, trees(old(ch)@), pos as int)),
{
    let mut p = pos;
    while !at(toks, p, Tok::RBrace)
        invariant
            tokens_ok(toks@, src@.len()),
            pos <= p <= toks@.len(),
            all_bounded(ch@, src@.len()),
            g_fields(src@, toks@, trees(old(ch)@), pos as int) == g_fields(src@, toks@, trees(ch@), p as int),
        decreases toks@.len() - p,
    {
        let (f, q) = parse_field(src, toks, p)?;
        push_node(ch, f, Ghost(src@.len()));
        p = q;
        if at(toks, p, Tok::Comma) {
            p = expect(ch, src, toks, p, Tok::Comma)?;
        } else if !at(toks, p, Tok::RBrace) {
            return Err(error_at(src, toks, p));
        }
    }
    Ok(p)
}

/// The start of a named definition: its keyword `kw`, its name, and the
/// opening token `open`, read into the empty `ch`.
#[verifier::rlimit(100)]
#[verifier::spinoff_prover]
fn parse_header_into(ch: &mut Vec<Node>, src: &Vec<char>, toks: &Vec<Token>, pos: usize, kw: Tok, open: Tok) -> (r: Result<usize, SyntaxError>)
    requires
        tokens_ok(toks@, src@.len()),
        old(ch)@.len() == 0,
    ensures
        all_bounded(final(ch)@, src@.len()),
        r matches Ok(p) ==> pos < p <= toks@.len(),
        r matches Err(e) ==> e.offset <= src@.len() && reported_from(e, toks@, src@.len(), pos as int),
        items_is(r, final(ch)@, g_header(toks@, src@.len(), pos as int, kw, open)),
{
    assert(trees(ch@) =~= Seq::<Tree>::empty());
    let p = expect(ch, src, toks, pos, kw)?;
    if !at(toks, p, Tok::Ident) {
        return Err(error_at(src, toks, p));
    }
    push_node(ch, leaf_at(src, toks, p, Kind::TypeIdentifier), Ghost(src@.len()));
    expect(ch, src, toks, p + 1, open)
}

/// `struct Name { fields }`.
#[verifier::rlimit(100)]
#[verifier::spinoff_prover]
fn parse_struct(src: &Vec<char>, toks: &Vec<Token>, pos: usize) -> (r: Result<(Node, usize), SyntaxError>)
    requires
        tokens_ok(toks@, src@.len()),
    ensures
        parse_ok(r, pos as int, toks@, src@.len()),
        r matches Ok((n, q)) ==> n.kind == Kind::StructDefinition && item_span(n, toks@, pos as int, q as int),
        res_is(r, g_struct(src@, toks@, pos as int)),
{
    reveal(g_struct);
    let mut ch: Vec<Node> = Vec::new();
    let p = parse_header_into(&mut ch, src, toks, pos, Tok::Struct, Tok::LBrace)?;
    let p2 = parse_fields_into(&mut ch, src, toks, p)?;
    close_node(Kind::StructDefinition, ch, src, toks, pos, p2, Tok::RBrace)
}

/// One variant `Name`, `Name(T, ..)` or `Name { fields }`.
#[verifier::rlimit(100)]
#[verifier::spinoff_prover]
fn parse_variant(src: &Vec<char>, toks: &Vec<Token>, pos: usize) -> (r: Result<(Node, usize), SyntaxError>)
    requires
        tokens_ok(toks@, src@.len()),
    ensures
        parse_ok(r, pos as int, toks@, src@.len()),
        res_is(r, g_variant(src@, toks@, pos as int)),
{
    reveal(g_variant);
    if !at(toks, pos, Tok::Ident) {
        return Err(error_at(src, toks, pos));
    }
    let mut vch: Vec<Node> = Vec::new();
    assert(trees(vch@) =~= Seq::<Tree>::empty());
    push_node(&mut vch, leaf_at(src, toks, pos, Kind::TypeIdentifier), Ghost(src@.len()));
    assert(trees(vch@) == seq![leaf_tree(toks@, pos as int, Kind::TypeIdentifier)]);
    let mut p = pos + 1;
    if at(toks, p, Tok::LParen) {
        p = expect(&mut vch, src, toks, p, Tok::LParen)?;
        while !at(toks, p, Tok::RParen)
            invariant
                tokens_ok(toks@, src@.len()),
                pos < p <= toks@.len(),
                all_bounded(vch@, src@.len()),
                g_variant(src@, toks@, pos as int) == closing_at(Kind::EnumVariant, g_type_list(src@, toks@, trees(vch@), p as int), toks@, src@.len(), pos as int, Tok::RParen),
            decreases toks@.len() - p,
        {
                reveal(g_variant);
            let (t, q) = parse_type(src, toks, p)?;
            push_node(&mut vch, t, Ghost(src@.len()));
            p = q;
            if at(toks, p, Tok::Comma) {
                p = expect(&mut vch, src, toks, p, Tok::Comma)?;
            } else if !at(toks, p, Tok::RParen) {
                return Err(error_at(src, toks, p));
            }
        }
        close_node(Kind::EnumVariant, vch, src, toks, pos, p, Tok::RParen)
    } else if at(toks, p, Tok::LBrace) {
        p = expect(&mut vch, src, toks, p, Tok::LBrace)?;
        let p2 = parse_fields_into(&mut vch, src, toks, p)?;
        close_node(Kind::EnumVariant, vch, src, toks, pos, p2, Tok::RBrace)
    } else {
        Ok((finish(Kind::EnumVariant, vch, src, toks, pos, p), p))
    }
}

/// `enum Name { Variant, Variant(T, ..), Variant { fields } }`.
#[verifier::rlimit(100)]
#[verifier::spinoff_prover]
fn parse_enum(src: &Vec<char>, toks: &Vec<Token>, pos: usize) -> (r: Result<(Node, usize), SyntaxError>)
    requires
        tokens_ok(toks@, src@.len()),
    ensures
        parse_ok(r, pos as int, toks@, src@.len()),
        r matches Ok((n, q)) ==> n.kind == Kind::EnumDefinition && item_span(n, toks@, pos as int, q as int),
        res_is(r, g_enum(src@, toks@, pos as int)),
{
    reveal(g_enum);
    let mut ch: Vec<Node> = Vec::new();
    let mut p = parse_header_into(&mut ch, src, toks, pos, Tok::Enum, Tok::LBrace)?;
    while !at(toks, p, Tok::RBrace)
        invariant
            tokens_ok(toks@, src@.len()),
            pos < p <= toks@.len(),
            all_bounded(ch@, src@.len()),
            g_enum(src@, toks@, pos as int) == closing_at(Kind::EnumDefinition, g_variants(src@, toks@, trees(ch@), p as int), toks@, src@.len(), pos as int, Tok::RBrace),
        decreases toks@.len() - p,
    {
            reveal(g_enum);
        let (v, q) = parse_variant(src, toks, p)?;
        push_node(&mut ch, v, Ghost(src@.len()));
        p = q;
        if at(toks, p, Tok::Comma) {
            p = expect(&mut ch, src, toks, p, Tok::Comma)?;
        } else if !at(toks, p, Tok::RBrace) {
            return Err(error_at(src, toks, p));
        }
    }
    close_node(Kind::EnumDefinition, ch, src, toks, pos, p, Tok::RBrace)
}

/// The end of a tuple definition after its type list `g`: the closing
/// parenthesis and an optional semicolon.
pub open spec fn tuple_tail(g: Items, toks: Seq<Token>, len: nat, pos: int) -> Parsed {
    match g {
        Err(e) => Err(e),
        Ok((ch1, p1)) => match g_expect(ch1, toks, len, p1, Tok::RParen) {
            Err(e) => Err(e),
            Ok((ch2, p2)) => if at_tok(toks, p2, Tok::Semi) {
                Ok((node_tree(Kind::TupleDefinition, ch2.push(token_tree(toks, p2)), toks, pos, p2 + 1), p2 + 1))
            } else {
                Ok((node_tree(Kind::TupleDefinition, ch2, toks, pos, p2), p2))
            },
        },
    }
}

/// `tuple Name (T, ..)` with an optional semicolon.
#[verifier::rlimit(100)]
#[verifier::spinoff_prover]
fn parse_tuple_definition(src: &Vec<char>, toks: &Vec<Token>, pos: usize) -> (r: Result<
    (Node, usize),
    SyntaxError,
>)
    requires
        tokens_ok(toks@, src@.len()),
    ensures
        parse_ok(r, pos as int, toks@, src@.len()),
        r matches Ok((n, q)) ==> n.kind == Kind::TupleDefinition && item_span(n, toks@, pos as int, q as int),
        res_is(r, g_tuple_definition(src@, toks@, pos as int)),
{
    reveal(g_tuple_definition);
    let mut ch: Vec<Node> = Vec::new();
    let mut p = parse_header_into(&mut ch, src, toks, pos, Tok::Tuple, Tok::LParen)?;
    while !at(toks, p, Tok::RParen)
        invariant
            tokens_ok(toks@, src@.len()),
            pos < p <= toks@.len(),
            all_bounded(ch@, src@.len()),
            g_tuple_definition(src@, toks@, pos as int) == tuple_tail(g_type_list(src@, toks@, trees(ch@), p as int), toks@, src@.len(), pos as int),
        decreases toks@.len() - p,
    {
            reveal(g_tuple_definition);
        let (t, q) = parse_type(src, toks, p)?;
        push_node(&mut ch, t, Ghost(src@.len()));
        p = q;
        if at(toks, p, Tok::Comma) {
            p = expect(&mut ch, src, toks, p, Tok::Comma)?;
        } else if !at(toks, p, Tok::RParen) {
            return Err(error_at(src, toks, p));
        }
    }
    p = expect(&mut ch, src, toks, p, Tok::RParen)?;
    if at(toks, p, Tok::Semi) {
        p = expect(&mut ch, src, toks, p, Tok::Semi)?;
    }
    Ok((finish(Kind::TupleDefinition, ch, src, toks, pos, p), p))
}

/// `type Name = Type;`.
#[verifier::rlimit(100)]
#[verifier::spinoff_prover]
fn parse_type_alias(src: &Vec<char>, toks: &Vec<Token>, pos: usize) -> (r: Result<
    (Node, usize),
    SyntaxError,
>)
    requires
        tokens_ok(toks@, src@.len()),
    ensures
        parse_ok(r, pos as int, toks@, src@.len()),
        r matches Ok((n, q)) ==> n.kind == Kind::TypeAliasDefinition && item_span(n, toks@, pos as int, q as int),
        res_is(r, g_type_alias(src@, toks@, pos as int)),
{
    reveal(g_type_alias);
    let mut ch: Vec<Node> = Vec::new();
    let p = parse_header_into(&mut ch, src, toks, pos, Tok::Type, Tok::Assign)?;
    let (t, q) = parse_type(src, toks, p)?;
    push_node(&mut ch, t, Ghost(src@.len()));
    close_node(Kind::TypeAliasDefinition, ch, src, toks, pos, q, Tok::Semi)
}

/// The braced group `{x, y}` of an import.
#[verifier::rlimit(100)]
#[verifier::spinoff_prover]
fn parse_import_group(src: &Vec<char>, toks: &Vec<Token>, pos: usize) -> (r: Result<(Node, usize), SyntaxError>)
    requires
        tokens_ok(toks@, src@.len()),
        at_tok(toks@, pos as int, Tok::LBrace),
    ensures
        parse_ok(r, pos as int, toks@, src@.len()),
        res_is(r, g_import_group(toks@, src@.len(), pos as int)),
{
    let mut gch: Vec<Node> = Vec::new();
    assert(trees(gch@) =~= Seq::<Tree>::empty());
    let mut p = expect(&mut gch, src, toks, pos, Tok::LBrace)?;
    assert(trees(gch@) == seq![token_tree(toks@, pos as int)]);
    while !at(toks, p, Tok::RBrace)
        invariant
            tokens_ok(toks@, src@.len()),
            pos < p <= toks@.len(),
            all_bounded(gch@, src@.len()),
            g_import_group(toks@, src@.len(), pos as int) == g_group_close(g_group_names(toks@, src@.len(), trees(gch@), p as int), toks@, src@.len(), pos as int),
        decreases toks@.len() - p,
    {
        if !at(toks, p, Tok::Ident) {
            return Err(error_at(src, toks, p));
        }
        push_node(&mut gch, leaf_at(src, toks, p, Kind::ValueIdentifier), Ghost(src@.len()));
        p = p + 1;
        if at(toks, p, Tok::Comma) {
            p = expect(&mut gch, src, toks, p, Tok::Comma)?;
        } else if !at(toks, p, Tok::RBrace) {
            return Err(error_at(src, toks, p));
        }
    }
    close_node(Kind::ImportGroup, gch, src, toks, pos, p, Tok::RBrace)
}

/// `import a::b::c;` or `import a::b::{x, y};`.
#[verifier::rlimit(100)]
#[verifier::spinoff_prover]
fn parse_import(src: &Vec<char>, toks: &Vec<Token>, pos: usize) -> (r: Result<(Node, usize), SyntaxError>)
    requires
        tokens_ok(toks@, src@.len()),
    ensures
        parse_ok(r, pos as int, toks@, src@.len()),
        r matches Ok((n, q)) ==> n.kind == Kind::ImportStatement && item_span(n, toks@, pos as int, q as int),
        res_is(r, g_import(src@, toks@, pos as int)),
{
    reveal(g_import);
    let mut ch: Vec<Node> = Vec::new();
    assert(trees(ch@) =~= Seq::<Tree>::empty());
    let p0 = expect(&mut ch, src, toks, pos, Tok::Import)?;
    let mut p = parse_path_into(&mut ch, src, toks, p0)?;
    if at(toks, p, Tok::ColonColon) && at(toks, p + 1, Tok::LBrace) {
        let p1 = expect(&mut ch, src, toks, p, Tok::ColonColon)?;
        let (grp, p3) = parse_import_group(src, toks, p1)?;
        push_node(&mut ch, grp, Ghost(src@.len()));
        p = p3;
    }
    if at(toks, p, Tok::Semi) {
        p = expect(&mut ch, src, toks, p, Tok::Semi)?;
    }
    Ok((finish(Kind::ImportStatement, ch, src, toks, pos, p), p))
}

/// The attribute node over `pos..` from the read of its children.
pub open spec fn attr_node(g: Items, toks: Seq<Token>, pos: int) -> Parsed {
    match g {
        Err(e) => Err(e),
        Ok((ch, q)) => Ok((node_tree(Kind::Attribute, ch, toks, pos, q), q)),
    }
}

/// `@name` or `@name(..)`, the parenthesized part kept as tokens.
#[verifier::rlimit(100)]
#[verifier::spinoff_prover]
fn parse_attribute(src: &Vec<char>, toks: &Vec<Token>, pos: usize) -> (r: Result<
    (Node, usize),
    SyntaxError,
>)
    requires
        tokens_ok(toks@, src@.len()),
    ensures
        parse_ok(r, pos as int, toks@, src@.len()),
        r matches Ok((n, q)) ==> n.kind == Kind::Attribute && item_span(n, toks@, pos as int, q as int),
        res_is(r, g_attribute(toks@, src@.len(), pos as int)),
{
    reveal(g_attribute);
    let mut ch: Vec<Node> = Vec::new();
    assert(trees(ch@) =~= Seq::<Tree>::empty());
    let p0 = expect(&mut ch, src, toks, pos, Tok::At)?;
    if !at(toks, p0, Tok::Ident) {
        return Err(error_at(src, toks, p0));
    }
    push_node(&mut ch, leaf_at(src, toks, p0, Kind::ValueIdentifier), Ghost(src@.len()));
    let mut p = p0 + 1;
    if at(toks, p, Tok::LParen) {
        let mut depth: usize = 0;
        loop
            invariant_except_break
                tokens_ok(toks@, src@.len()),
                pos < p <= toks@.len(),
                all_bounded(ch@, src@.len()),
                g_attribute(toks@, src@.len(), pos as int) == attr_node(g_attribute_args(toks@, src@.len(), trees(ch@), p as int, depth as int), toks@, pos as int),
            ensures
                tokens_ok(toks@, src@.len()),
                pos < p <= toks@.len(),
                all_bounded(ch@, src@.len()),
                g_attribute(toks@, src@.len(), pos as int) == Ok::<(Tree, int), SyntaxError>((node_tree(Kind::Attribute, trees(ch@), toks@, pos as int, p as int), p as int)),
            decreases toks@.len() - p,
        {
                reveal(g_attribute);
            if p >= toks.len() {
                return Err(error_at(src, toks, p));
            }
            if at(toks, p, Tok::LParen) {
                depth = depth.saturating_add(1);
            } else if at(toks, p, Tok::RParen) && depth > 0 {
                depth = depth - 1;
            }
            push_node(&mut ch, token_at(src, toks, p), Ghost(src@.len()));
            p = p + 1;
            if depth == 0 {
                break ;
            }
        }
    }
    Ok((finish(Kind::Attribute, ch, src, toks, pos, p), p))
}

/// The kind of the top-level child that a token of kind `t` starts, if any.
pub open spec fn top_kind(t: Tok) -> Option<Kind> {
    match t {
        Tok::Public => Some(Kind::Token(Tok::Public)),
        Tok::Comment => Some(Kind::Comment),
        Tok::At => Some(Kind::Attribute),
        Tok::Fn => Some(Kind::FunctionDefinition),
        Tok::Struct => Some(Kind::StructDefinition),
        Tok::Enum => Some(Kind::EnumDefinition),
        Tok::Tuple => Some(Kind::TupleDefinition),
        Tok::Type => Some(Kind::TypeAliasDefinition),
        Tok::Import => Some(Kind::ImportStatement),
        _ => None,
    }
}

/// The top-level children `ch` tile the tokens before `bounds.last()`:
/// child `j` covers the non-empty run `bounds[j]..bounds[j + 1]`, has the
/// kind its first token starts, and a `public` marker or a comment is a
/// single token.
pub open spec fn tiles(toks: Seq<Token>, ch: Seq<Node>, bounds: Seq<int>) -> bool {
    &&& bounds.len() == ch.len() + 1
    &&& bounds[0] == 0
    &&& bounds.last() <= toks.len()
    &&& forall|j: int| 0 <= j < ch.len() ==> bounds[j] < #[trigger] bounds[j + 1]
    &&& forall|j: int|
        0 <= j < ch.len() ==> top_kind(toks[bounds[j]].kind) == Some((#[trigger] ch[j]).kind)
            && item_span(ch[j], toks, bounds[j], bounds[j + 1])
    &&& forall|j: int|
        0 <= j < ch.len() && ((#[trigger] ch[j]).kind == Kind::Token(Tok::Public) || ch[j].kind
            == Kind::Comment) ==> bounds[j + 1] == bounds[j] + 1
}

/// The top-level item that starts at `pos`.
#[verifier::rlimit(100)]
#[verifier::spinoff_prover]
fn parse_item(src: &Vec<char>, toks: &Vec<Token>, pos: usize) -> (r: Result<(Node, usize), SyntaxError>)
    requires
        tokens_ok(toks@, src@.len()),
        pos < toks@.len(),
    ensures
        parse_ok(r, pos as int, toks@, src@.len()),
        res_is(r, g_item(src@, toks@, pos as int)),
        r matches Ok((n, q)) ==> top_kind(toks@[pos as int].kind) == Some(n.kind) && item_span(n, toks@, pos as int, q as int),
        top_kind(toks@[pos as int].kind) is None ==> r == Err::<(Node, usize), SyntaxError>(error_spec(src@.len(), toks@, pos as int)),
{
    reveal(g_item);
    if at(toks, pos, Tok::At) {
        parse_attribute(src, toks, pos)
    } else if at(toks, pos, Tok::Fn) {
        parse_function(src, toks, pos)
    } else if at(toks, pos, Tok::Struct) {
        parse_struct(src, toks, pos)
    } else if at(toks, pos, Tok::Enum) {
        parse_enum(src, toks, pos)
    } else if at(toks, pos, Tok::Tuple) {
        parse_tuple_definition(src, toks, pos)
    } else if at(toks, pos, Tok::Type) {
        parse_type_alias(src, toks, pos)
    } else if at(toks, pos, Tok::Import) {
        parse_import(src, toks, pos)
    } else {
        Err(error_at(src, toks, pos))
    }
}

/// Parses a whole source: top-level items, `public` markers, attributes
/// and comments.
#[verifier::rlimit(100)]
#[verifier::spinoff_prover]
pub(crate) fn parse_tokens(src: &Vec<char>, toks: &Vec<Token>) -> (r: Result<Node, SyntaxError>)
    requires
        tokens_ok(toks@, src@.len()),
    ensures
        r matches Ok(n) ==> bounded(n, src@.len()) && n.kind == Kind::SourceFile,
        r matches Ok(n) ==> n.start == 0 && n.end == src@.len() && exists|bounds: Seq<int>|
            tiles(toks@, n.children@, bounds) && bounds.last() == toks@.len(),
        toks@.len() == 0 ==> (r matches Ok(n) && n.children@.len() == 0),
        toks@.len() > 0 && top_kind(toks@[0].kind) is None ==> r == Err::<Node, SyntaxError>(
            error_spec(src@.len(), toks@, 0),
        ),
        r matches Err(e) ==> e.offset <= src@.len() && reported_from(e, toks@, src@.len(), 0),
        match r {
            Ok(n) => g_source(src@, toks@) == Ok::<Tree, SyntaxError>(tree_of(n)),
            Err(e) => g_source(src@, toks@) == Err::<Tree, SyntaxError>(e),
        },
{
    let mut ch: Vec<Node> = Vec::new();
    assert(trees(ch@) =~= Seq::<Tree>::empty());
    let mut p: usize = 0;
    let ghost mut bounds: Seq<int> = seq![0];
    while p < toks.len()
        invariant
            tokens_ok(toks@, src@.len()),
            p <= toks@.len(),
            all_bounded(ch@, src@.len()),
            tiles(toks@, ch@, bounds),
            bounds.last() == p,
            p == 0 ==> ch@.len() == 0,
            p > 0 ==> top_kind(toks@[0].kind) is Some,
            g_top_level(src@, toks@, Seq::empty(), 0) == g_top_level(src@, toks@, trees(ch@), p as int),
        decreases toks@.len() - p,
    {
        let ghost old_ch = ch@;
        let ghost old_bounds = bounds;
        if at(toks, p, Tok::Public) {
            push_node(&mut ch, token_at(src, toks, p), Ghost(src@.len()));
            p = p + 1;
        } else if at(toks, p, Tok::Comment) {
            push_node(&mut ch, leaf_at(src, toks, p, Kind::Comment), Ghost(src@.len()));
            p = p + 1;
        } else {
            let (item, q) = parse_item(src, toks, p)?;
            push_node(&mut ch, item, Ghost(src@.len()));
            p = q;
        }
        proof {
            bounds = old_bounds.push(p as int);
            assert(ch@ == old_ch.push(ch@.last()));
            assert(ch@[0] == if old_ch.len() > 0 { old_ch[0] } else { ch@.last() });
            assert forall|j: int| 0 <= j < ch@.len() implies old_bounds.push(p as int)[j] < #[trigger] bounds[j + 1] by {
                if j < old_ch.len() {
                    assert(old_ch[j] == ch@[j]);
                }
            }
            assert(tiles(toks@, ch@, bounds)) by {
                assert forall|j: int| 0 <= j < ch@.len() implies top_kind(toks@[bounds[j]].kind) == Some((#[trigger] ch@[j]).kind)
                    && item_span(ch@[j], toks@, bounds[j], bounds[j + 1]) by {
                    if j < old_ch.len() {
                        assert(old_ch[j] == ch@[j]);
                    }
                }
            }
        }
    }
    let root = Node { kind: Kind::SourceFile, start: 0, end: src.len(), children: ch };
    proof {
        lemma_bounded_intro(root, src@.len());
        lemma_tree_children(root);
        assert(tree_of(root).children =~= trees(root.children@));
    }
    Ok(root)
}

/// What is known of the parse `r` of `src`: a lexing error comes back as
/// it is; otherwise a tree is a `SourceFile` over the whole source whose
/// top-level children tile the tokens (see [`tiles`]), and a parse error is
/// reported at a token or at the end. No tokens parse to an empty file, and
/// a first token that starts no item is the error.
pub open spec fn parse_shape(src: Seq<char>, r: Result<Node, SyntaxError>) -> bool {
    match lex_from(src, 0) {
        Err(e) => r == Err::<Node, SyntaxError>(e),
        Ok(toks) => {
            &&& match r {
                Ok(n) => {
                    &&& bounded(n, src.len())
                    &&& n.kind == Kind::SourceFile
                    &&& n.start == 0
                    &&& n.end == src.len()
                    &&& exists|b: Seq<int>| tiles(toks, n.children@, b) && b.last() == toks.len()
                },
                Err(e) => e.offset <= src.len() && reported_from(e, toks, src.len(), 0),
            }
            &&& toks.len() == 0 ==> (r matches Ok(n) && n.children@.len() == 0)
            &&& toks.len() > 0 && top_kind(toks[0].kind) is None ==> r == Err::<Node, SyntaxError>(
                error_spec(src.len(), toks, 0),
            )
        },
    }
}

/// Parses Vinyl source text into its syntax tree.
pub fn parse(src: &Vec<char>) -> (r: Result<Node, SyntaxError>)
    ensures
        parse_shape(src@, r),
        lex_from(src@, 0) matches Err(e) ==> r == Err::<Node, SyntaxError>(e),
        r matches Ok(n) ==> bounded(n, src@.len()) && n.kind == Kind::SourceFile,
        r matches Err(e) ==> e.offset <= src@.len(),
        match r {
            Ok(n) => parse_spec(src@) == Ok::<Tree, SyntaxError>(tree_of(n)),
            Err(e) => parse_spec(src@) == Err::<Tree, SyntaxError>(e),
        },
{
    let toks = tokenize(src)?;
    parse_tokens(src, &toks)
}

} // verus!
