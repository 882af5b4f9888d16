//! The layout rules of the formatter, stated over the syntax tree: what
//! each kind of node adds to the output, child by child.

use vstd::prelude::*;

use crate::chars::is_whitespace_spec;
use crate::formatter::engine::{emitted, line_feeds};
use crate::syntax::tree::{Kind, Tok, Tree};

verus! {

/// What the formatter holds while it writes: the source, the indentation
/// unit, the output so far and the indentation level.
#[verifier::ext_equal]
pub struct Pen {
    pub src: Seq<char>,
    pub unit: Seq<char>,
    pub out: Seq<char>,
    pub indent: int,
}

/// The state of a walk over the children of one node: the pen, a flag
/// (an `else` seen and not yet used, or a returned value written), the end
/// of the last item kept for blank-line detection, and the indentation
/// the node started at.
#[verifier::ext_equal]
pub struct Walk {
    pub pen: Pen,
    pub flag: bool,
    pub prev: Option<int>,
    pub base: int,
}

/// How the children of a node are laid out.
pub enum Mode {
    Leaf,
    Default,
    FunctionDef,
    FieldDef,
    TupleDef,
    /// A `struct` or `enum`: its keyword text, keyword token and member kind.
    Braced(Seq<char>, Tok, Kind),
    TypeAlias,
    TypeAnnotation,
    ParenList,
    Array,
    StructLiteral,
    StructLiteralFields,
    StructPattern,
    FieldPattern,
    EnumVariant,
    ImportGroup,
    Parameter,
    Block,
    Infix,
    Prefix,
    If,
    While,
    Loop,
    Match,
    MatchArm,
    Import,
    Let,
    Return,
    ExprStmt,
    Assignment,
    Root,
}

/// Writes `text`, indented when it starts a line.
pub open spec fn put(p: Pen, text: Seq<char>) -> Pen {
    Pen { src: p.src, unit: p.unit, out: emitted(p.out, p.unit, p.indent as nat, text), indent: p.indent }
}

/// Ends the line.
pub open spec fn feed(p: Pen) -> Pen {
    Pen { src: p.src, unit: p.unit, out: p.out.push('\n'), indent: p.indent }
}

/// Sets the indentation level.
pub open spec fn indented(p: Pen, level: int) -> Pen {
    Pen { src: p.src, unit: p.unit, out: p.out, indent: level }
}

/// Writes the source text `src[s..e]`.
pub open spec fn put_range(p: Pen, s: int, e: int) -> Pen {
    put(p, p.src.subrange(s, e))
}

/// Writes a node's source text verbatim, when its range lies in the source.
pub open spec fn put_node(p: Pen, n: Tree) -> Pen {
    if n.start <= n.end && n.end <= p.src.len() {
        put_range(p, n.start, n.end)
    } else {
        p
    }
}

/// The first position in `[s, e)` that is not whitespace, or `e`.
pub open spec fn trim_front(src: Seq<char>, s: int, e: int) -> int
    decreases e - s,
{
    if s < e && is_whitespace_spec(src[s]) {
        trim_front(src, s + 1, e)
    } else {
        s
    }
}

/// The end of `[s, e)` without its trailing whitespace.
pub open spec fn trim_back(src: Seq<char>, s: int, e: int) -> int
    decreases e - s,
{
    if s < e && is_whitespace_spec(src[e - 1]) {
        trim_back(src, s, e - 1)
    } else {
        e
    }
}

/// A node's range without surrounding whitespace; `(0, 0)` for a node
/// whose range does not lie in the source.
pub open spec fn trimmed(src: Seq<char>, n: Tree) -> (int, int) {
    if n.start <= n.end && n.end <= src.len() {
        let s = trim_front(src, n.start, n.end);
        (s, trim_back(src, s, n.end))
    } else {
        (0, 0)
    }
}

/// Writes a node's trimmed text when it is not empty.
pub open spec fn put_trimmed(p: Pen, n: Tree) -> Pen {
    let (s, e) = trimmed(p.src, n);
    if s < e {
        put_range(p, s, e)
    } else {
        p
    }
}

/// Adds a blank line when the source between `prev` and `start` holds two
/// or more line feeds.
pub open spec fn gap(p: Pen, prev: Option<int>, start: int) -> Pen {
    if prev matches Some(pv) && start > pv && line_feeds(p.src.subrange(pv, start)) > 1 {
        feed(p)
    } else {
        p
    }
}

/// One more indentation level, as `usize::saturating_add(1)` counts it.
pub open spec fn deeper(level: int) -> int {
    if level < usize::MAX {
        level + 1
    } else {
        usize::MAX as int
    }
}

/// An optional position as an integer.
pub open spec fn opt_int(o: Option<usize>) -> Option<int> {
    match o {
        Some(x) => Some(x as int),
        None => None,
    }
}

/// A walk that starts with `p`.
pub open spec fn begin(p: Pen) -> Walk {
    Walk { pen: p, flag: false, prev: None, base: p.indent }
}

/// The walk with another pen.
pub open spec fn with_pen(w: Walk, p: Pen) -> Walk {
    Walk { pen: p, flag: w.flag, prev: w.prev, base: w.base }
}

/// How a node of each kind is laid out.
pub open spec fn mode_of(k: Kind) -> Mode {
    match k {
        Kind::FunctionDefinition => Mode::FunctionDef,
        Kind::StructDefinition => Mode::Braced(
            seq!['s', 't', 'r', 'u', 'c', 't', ' '],
            Tok::Struct,
            Kind::FieldDefinition,
        ),
        Kind::FieldDefinition => Mode::FieldDef,
        Kind::TupleDefinition => Mode::TupleDef,
        Kind::EnumDefinition => Mode::Braced(seq!['e', 'n', 'u', 'm', ' '], Tok::Enum, Kind::EnumVariant),
        Kind::TypeAliasDefinition => Mode::TypeAlias,
        Kind::Block => Mode::Block,
        Kind::Parameter => Mode::Parameter,
        Kind::Parameters | Kind::Arguments | Kind::TupleType | Kind::ParenthesizedExpression
        | Kind::TupleExpression => Mode::ParenList,
        Kind::TypeAnnotation => Mode::TypeAnnotation,
        Kind::BinaryExpression | Kind::PipeExpression => Mode::Infix,
        Kind::UnaryExpression => Mode::Prefix,
        Kind::IfExpression => Mode::If,
        Kind::WhileStatement => Mode::While,
        Kind::LoopStatement => Mode::Loop,
        Kind::MatchExpression => Mode::Match,
        Kind::MatchArm => Mode::MatchArm,
        Kind::ArrayType | Kind::ArrayExpression => Mode::Array,
        Kind::StructLiteralExpression => Mode::StructLiteral,
        Kind::StructLiteralFields => Mode::StructLiteralFields,
        Kind::StructPattern => Mode::StructPattern,
        Kind::FieldPattern => Mode::FieldPattern,
        Kind::EnumVariant => Mode::EnumVariant,
        Kind::ImportGroup => Mode::ImportGroup,
        Kind::ImportStatement => Mode::Import,
        Kind::LetDeclaration => Mode::Let,
        Kind::ReturnStatement => Mode::Return,
        Kind::ExpressionStatement => Mode::ExprStmt,
        Kind::AssignmentStatement => Mode::Assignment,
        Kind::StringLiteral | Kind::CharLiteral | Kind::IntegerLiteral | Kind::FloatLiteral
        | Kind::BoolLiteral | Kind::UnitLiteral | Kind::PrimitiveType | Kind::Comment => Mode::Leaf,
        _ => Mode::Default,
    }
}

/// Some child of `n` has kind `k`.
pub open spec fn has_child(n: Tree, k: Kind) -> bool {
    exists|j: int| 0 <= j < n.children.len() && (#[trigger] n.children[j]).kind == k
}

/// The pen after laying out node `n` as its kind asks.
pub open spec fn fmt(p: Pen, n: Tree) -> Pen
    decreases n, 3int, 0int,
{
    lay(mode_of(n.kind), p, n)
}

/// The pen after laying out node `n` in mode `m`.
pub open spec fn lay(m: Mode, p: Pen, n: Tree) -> Pen
    decreases n, 2int, 0int,
{
    let len = n.children.len();
    match m {
        Mode::Leaf => put_node(p, n),
        Mode::Default => if len == 0 && n.kind.spec_is_named() {
            put_node(p, n)
        } else {
            walk(m, begin(p), n, 0).pen
        },
        Mode::FunctionDef => walk(m, begin(put(p, seq!['f', 'n', ' '])), n, 0).pen,
        Mode::TupleDef => walk(m, begin(put(p, seq!['t', 'u', 'p', 'l', 'e', ' '])), n, 0).pen,
        Mode::Braced(text, _, _) => walk(m, begin(put(p, text)), n, 0).pen,
        Mode::TypeAlias => walk(m, begin(put(p, seq!['t', 'y', 'p', 'e', ' '])), n, 0).pen,
        Mode::TypeAnnotation => walk(m, begin(put(p, seq![':', ' '])), n, 0).pen,
        Mode::ParenList => put(walk(m, begin(put(p, seq!['('])), n, 0).pen, seq![')']),
        Mode::Array => put(walk(m, begin(put(p, seq!['['])), n, 0).pen, seq![']']),
        Mode::StructLiteralFields => if len <= 2 {
            put(p, seq!['{', '}'])
        } else {
            put(walk(m, begin(put(p, seq!['{', ' '])), n, 0).pen, seq![' ', '}'])
        },
        Mode::ImportGroup => put(walk(m, begin(put(p, seq!['{'])), n, 0).pen, seq!['}']),
        Mode::Block => if len <= 2 {
            put(p, seq!['{', '}'])
        } else {
            let inner = indented(feed(put(p, seq!['{'])), deeper(p.indent));
            put(indented(walk(m, begin(inner), n, 0).pen, p.indent), seq!['}'])
        },
        Mode::If => walk(m, begin(put(p, seq!['i', 'f', ' '])), n, 0).pen,
        Mode::While => walk(m, begin(put(p, seq!['w', 'h', 'i', 'l', 'e', ' '])), n, 0).pen,
        Mode::Loop => walk(m, begin(put(p, seq!['l', 'o', 'o', 'p', ' '])), n, 0).pen,
        Mode::Match => indented(
            walk(m, begin(put(p, seq!['m', 'a', 't', 'c', 'h', ' '])), n, 0).pen,
            p.indent,
        ),
        Mode::Import => walk(m, begin(put(p, seq!['i', 'm', 'p', 'o', 'r', 't', ' '])), n, 0).pen,
        Mode::Let => walk(m, begin(put(p, seq!['l', 'e', 't', ' '])), n, 0).pen,
        Mode::Return => {
            let w = walk(m, begin(put(p, seq!['r', 'e', 't', 'u', 'r', 'n'])), n, 0);
            if w.flag {
                w.pen
            } else {
                put(w.pen, seq![';'])
            }
        },
        _ => walk(m, begin(p), n, 0).pen,
    }
}

/// The walk after the children `n.children[i..]`, laid out in mode `m`.
pub open spec fn walk(m: Mode, w: Walk, n: Tree, i: int) -> Walk
    decreases n, 1int, n.children.len() - i,
{
    if 0 <= i < n.children.len() {
        walk(m, step(m, w, n, i), n, i + 1)
    } else {
        w
    }
}

/// The walk after child `i` of `n`, laid out in mode `m`.
pub open spec fn step(m: Mode, w: Walk, n: Tree, i: int) -> Walk
    decreases n, 0int, 0int,
{
    if !(0 <= i < n.children.len()) {
        w
    } else {
        let c = n.children[i];
        let p = w.pen;
        let len = n.children.len();
        match m {
            Mode::FunctionDef => match c.kind {
                Kind::ValueIdentifier | Kind::TypeIdentifier => with_pen(w, put_node(p, c)),
                Kind::Parameters => with_pen(w, lay(Mode::ParenList, p, c)),
                Kind::TypeAnnotation => with_pen(w, lay(Mode::TypeAnnotation, p, c)),
                Kind::Block => with_pen(w, lay(Mode::Block, put(p, seq![' ']), c)),
                _ => w,
            },
            Mode::FieldDef => if c.kind.spec_is_named() {
                with_pen(w, fmt(p, c))
            } else if c.kind == Kind::Token(Tok::Public) {
                with_pen(w, put(p, seq!['p', 'u', 'b', 'l', 'i', 'c', ' ']))
            } else if c.kind == Kind::Token(Tok::Colon) {
                with_pen(w, put(p, seq![':', ' ']))
            } else {
                w
            },
            Mode::TupleDef => match c.kind {
                Kind::ValueIdentifier | Kind::TypeIdentifier => with_pen(w, put_node(p, c)),
                Kind::Token(Tok::Tuple) => w,
                Kind::Token(Tok::LParen) => with_pen(w, put(p, seq![' ', '('])),
                Kind::Token(Tok::RParen) => with_pen(w, put(p, seq![')'])),
                Kind::Token(Tok::Comma) => with_pen(w, put(p, seq![',', ' '])),
                Kind::Token(_) => with_pen(w, put_node(p, c)),
                _ => with_pen(w, fmt(p, c)),
            },
            Mode::Braced(_, keyword, member) => if c.kind == Kind::Token(Tok::LBrace) {
                with_pen(w, put(p, seq![' ', '{']))
            } else if c.kind == Kind::Token(Tok::RBrace) {
                with_pen(w, put(feed(p), seq!['}']))
            } else if c.kind == Kind::Token(Tok::Comma) {
                with_pen(w, put(p, seq![',']))
            } else if c.kind == Kind::Token(keyword) {
                w
            } else if c.kind == member {
                let q = feed(p);
                with_pen(w, indented(fmt(indented(q, deeper(q.indent)), c), q.indent))
            } else if c.kind.spec_is_named() {
                with_pen(w, fmt(p, c))
            } else {
                with_pen(w, put_trimmed(p, c))
            },
            Mode::TypeAlias => match c.kind {
                Kind::Token(Tok::Type) => w,
                Kind::Token(Tok::Assign) => with_pen(w, put(p, seq![' ', '=', ' '])),
                Kind::Token(Tok::Semi) => with_pen(w, put(p, seq![';'])),
                Kind::Token(_) => with_pen(w, put_node(p, c)),
                _ => with_pen(w, fmt(p, c)),
            },
            Mode::TypeAnnotation => if c.kind.spec_is_named() {
                with_pen(w, fmt(p, c))
            } else {
                w
            },
            Mode::ParenList | Mode::ImportGroup => match c.kind {
                Kind::Token(Tok::Comma) => with_pen(w, put(p, seq![',', ' '])),
                Kind::Token(_) => w,
                _ => with_pen(w, fmt(p, c)),
            },
            Mode::Array => match c.kind {
                Kind::Token(Tok::Semi) => with_pen(w, put(p, seq![';', ' '])),
                Kind::Token(Tok::Comma) => with_pen(w, put(p, seq![',', ' '])),
                Kind::Token(_) => w,
                _ => with_pen(w, fmt(p, c)),
            },
            Mode::StructLiteral => match c.kind {
                Kind::StructLiteralFields => with_pen(w, lay(Mode::StructLiteralFields, put(p, seq![' ']), c)),
                Kind::Token(_) => w,
                _ => with_pen(w, fmt(p, c)),
            },
            Mode::StructLiteralFields => match c.kind {
                Kind::Token(Tok::Comma) => with_pen(w, put(p, seq![',', ' '])),
                Kind::Token(Tok::Colon) => with_pen(w, put(p, seq![':', ' '])),
                Kind::Token(_) => w,
                _ => with_pen(w, fmt(p, c)),
            },
            Mode::StructPattern => match c.kind {
                Kind::Token(Tok::LBrace) => if len > 3 { with_pen(w, put(p, seq![' ', '{', ' '])) } else { with_pen(w, put(p, seq![' ', '{'])) },
                Kind::Token(Tok::RBrace) => if len > 3 { with_pen(w, put(p, seq![' ', '}'])) } else { with_pen(w, put(p, seq!['}'])) },
                Kind::Token(Tok::Comma) => with_pen(w, put(p, seq![',', ' '])),
                Kind::Token(_) => w,
                _ => with_pen(w, fmt(p, c)),
            },
            Mode::FieldPattern => match c.kind {
                Kind::Token(Tok::Colon) => with_pen(w, put(p, seq![':', ' '])),
                Kind::Token(_) => w,
                _ => with_pen(w, fmt(p, c)),
            },
            Mode::EnumVariant => {
                let fields = has_child(n, Kind::FieldDefinition);
                match c.kind {
                    Kind::Token(Tok::LParen) => with_pen(w, put(p, seq!['('])),
                    Kind::Token(Tok::RParen) => with_pen(w, put(p, seq![')'])),
                    Kind::Token(Tok::LBrace) => if fields { with_pen(w, put(p, seq![' ', '{', ' '])) } else { with_pen(w, put(p, seq![' ', '{'])) },
                    Kind::Token(Tok::RBrace) => if fields { with_pen(w, put(p, seq![' ', '}'])) } else { with_pen(w, put(p, seq!['}'])) },
                    Kind::Token(Tok::Comma) => with_pen(w, put(p, seq![',', ' '])),
                    Kind::Token(_) => w,
                    _ => with_pen(w, fmt(p, c)),
                }
            },
            Mode::Parameter => if c.kind == Kind::Token(Tok::Mut) {
                with_pen(w, put(p, seq!['m', 'u', 't', ' ']))
            } else if c.kind.spec_is_named() {
                with_pen(w, fmt(p, c))
            } else {
                w
            },
            Mode::Block => if i == 0 || i == len - 1 {
                w
            } else if c.kind.spec_is_named() || c.kind == Kind::Comment {
                let q = if c.start <= p.src.len() {
                    gap(p, w.prev, c.start)
                } else {
                    p
                };
                Walk { pen: feed(fmt(q, c)), flag: w.flag, prev: Some(c.end), base: w.base }
            } else {
                w
            },
            Mode::Infix => if c.kind.spec_is_named() {
                with_pen(w, fmt(p, c))
            } else {
                let (s, t) = trimmed(p.src, c);
                if s < t {
                    with_pen(w, put(put_range(put(p, seq![' ']), s, t), seq![' ']))
                } else {
                    w
                }
            },
            Mode::If => match c.kind {
                Kind::Token(Tok::If) => w,
                Kind::Token(Tok::Else) => Walk { pen: p, flag: true, prev: w.prev, base: w.base },
                Kind::Block => if w.flag {
                    Walk {
                        pen: lay(Mode::Block, put(p, seq![' ', 'e', 'l', 's', 'e', ' ']), c),
                        flag: false,
                        prev: w.prev,
                        base: w.base,
                    }
                } else {
                    with_pen(w, lay(Mode::Block, put(p, seq![' ']), c))
                },
                Kind::Token(_) => w,
                _ => if w.flag {
                    Walk {
                        pen: fmt(put(p, seq![' ', 'e', 'l', 's', 'e', ' ', 'i', 'f', ' ']), c),
                        flag: false,
                        prev: w.prev,
                        base: w.base,
                    }
                } else {
                    with_pen(w, fmt(p, c))
                },
            },
            Mode::While => match c.kind {
                Kind::Block => with_pen(w, lay(Mode::Block, put(p, seq![' ']), c)),
                Kind::Token(_) => w,
                _ => with_pen(w, fmt(p, c)),
            },
            Mode::Loop => if c.kind.spec_is_named() {
                with_pen(w, lay(Mode::Block, p, c))
            } else {
                w
            },
            Mode::Match => match c.kind {
                Kind::Token(Tok::LBrace) => with_pen(w, indented(feed(put(p, seq![' ', '{'])), deeper(w.base))),
                Kind::Token(Tok::RBrace) => with_pen(w, put(indented(p, w.base), seq!['}'])),
                Kind::MatchArm => with_pen(w, feed(lay(Mode::MatchArm, p, c))),
                Kind::Token(_) => w,
                _ => with_pen(w, fmt(p, c)),
            },
            Mode::MatchArm => match c.kind {
                Kind::Token(Tok::FatArrow) => with_pen(w, put(p, seq![' ', '=', '>', ' '])),
                Kind::Token(Tok::Comma) => w,
                Kind::Token(Tok::If) => with_pen(w, put(p, seq![' ', 'i', 'f', ' '])),
                Kind::Token(_) => with_pen(w, put_node(p, c)),
                _ => with_pen(w, fmt(p, c)),
            },
            Mode::Import => match c.kind {
                Kind::Token(Tok::Import) => w,
                Kind::Token(Tok::Semi) => with_pen(w, put(p, seq![';'])),
                Kind::Token(Tok::ColonColon) => with_pen(w, put(p, seq![':', ':'])),
                Kind::Token(_) => with_pen(w, put_node(p, c)),
                _ => with_pen(w, fmt(p, c)),
            },
            Mode::Let => match c.kind {
                Kind::Token(Tok::Let) => w,
                Kind::Token(Tok::Mut) => with_pen(w, put(p, seq!['m', 'u', 't', ' '])),
                Kind::Token(Tok::Assign) => with_pen(w, put(p, seq![' ', '=', ' '])),
                Kind::Token(Tok::Semi) => with_pen(w, put(p, seq![';'])),
                Kind::Token(_) => with_pen(w, put_node(p, c)),
                _ => with_pen(w, fmt(p, c)),
            },
            Mode::Return => if c.kind.spec_is_named() {
                Walk {
                    pen: put(fmt(put(p, seq![' ']), c), seq![';']),
                    flag: true,
                    prev: w.prev,
                    base: w.base,
                }
            } else {
                w
            },
            Mode::ExprStmt => if c.kind == Kind::Token(Tok::Semi) {
                with_pen(w, put(p, seq![';']))
            } else if c.kind.spec_is_named() {
                with_pen(w, fmt(p, c))
            } else {
                with_pen(w, put_node(p, c))
            },
            Mode::Assignment => if c.kind.spec_is_named() {
                with_pen(w, fmt(p, c))
            } else {
                let (s, t) = trimmed(p.src, c);
                if t - s == 1 && p.src[s] == '=' {
                    with_pen(w, put(p, seq![' ', '=', ' ']))
                } else if s < t && p.src[t - 1] == '=' {
                    with_pen(w, put(put_range(put(p, seq![' ']), s, t), seq![' ']))
                } else if t - s == 1 && p.src[s] == ';' {
                    with_pen(w, put(p, seq![';']))
                } else {
                    with_pen(w, put_range(p, s, t))
                }
            },
            Mode::Root => if c.start > p.src.len() {
                w
            } else if c.kind == Kind::Token(Tok::Public) {
                with_pen(w, put(gap(p, w.prev, c.start), seq!['p', 'u', 'b', 'l', 'i', 'c', ' ']))
            } else if c.kind == Kind::Comment || c.kind == Kind::Attribute {
                Walk {
                    pen: feed(put_node(gap(p, w.prev, c.start), c)),
                    flag: w.flag,
                    prev: Some(c.end),
                    base: w.base,
                }
            } else if c.kind.spec_is_named() {
                let q = fmt(p, c);
                let r = if i + 1 < len {
                    let next = n.children[i + 1].kind;
                    if next == Kind::Token(Tok::Public) || next == Kind::Attribute || next == Kind::Comment
                        || (next == Kind::ImportStatement && c.kind == Kind::ImportStatement) {
                        feed(q)
                    } else {
                        feed(feed(q))
                    }
                } else {
                    q
                };
                Walk { pen: r, flag: w.flag, prev: Some(c.end), base: w.base }
            } else {
                w
            },
            _ => if c.kind.spec_is_named() {
                with_pen(w, fmt(p, c))
            } else {
                with_pen(w, put_node(p, c))
            },
        }
    }
}

} // verus!
