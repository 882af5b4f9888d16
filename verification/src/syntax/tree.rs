//! Concrete syntax tree nodes.

use vstd::prelude::*;

verus! {

/// The kinds of tokens: keywords, punctuation, operators, literals.
#[derive(Debug, Clone, Copy, PartialEq, Eq, Structural)]
pub enum Tok {
    Ident,
    Int,
    Float,
    Str,
    CharLit,
    Comment,
    Fn,
    Public,
    Struct,
    Enum,
    Tuple,
    Type,
    Import,
    Let,
    Mut,
    Return,
    If,
    Else,
    While,
    Loop,
    Match,
    True,
    False,
    Break,
    Continue,
    LParen,
    RParen,
    LBrace,
    RBrace,
    LBracket,
    RBracket,
    Comma,
    Semi,
    Colon,
    ColonColon,
    Assign,
    FatArrow,
    Arrow,
    At,
    Dot,
    /// A binary or prefix operator such as `+`, `==` or `!`.
    Op,
    /// A compound assignment operator such as `+=`.
    AssignOp,
}

/// The kinds of syntax-tree nodes. `Token` nodes are anonymous; every other
/// kind is a named node.
#[derive(Debug, Clone, Copy, PartialEq, Eq, Structural)]
pub enum Kind {
    SourceFile,
    FunctionDefinition,
    StructDefinition,
    FieldDefinition,
    FieldType,
    TupleDefinition,
    EnumDefinition,
    EnumVariant,
    TypeAliasDefinition,
    ImportStatement,
    ImportGroup,
    Attribute,
    Comment,
    Block,
    Parameters,
    Parameter,
    TypeAnnotation,
    PrimitiveType,
    TypeIdentifier,
    ValueIdentifier,
    TupleType,
    ArrayType,
    FixedArrayType,
    ReferenceType,
    LetDeclaration,
    ReturnStatement,
    ExpressionStatement,
    AssignmentStatement,
    WhileStatement,
    LoopStatement,
    BreakStatement,
    ContinueStatement,
    IfExpression,
    MatchExpression,
    MatchArm,
    BinaryExpression,
    PipeExpression,
    UnaryExpression,
    CallExpression,
    Arguments,
    FieldExpression,
    IndexExpression,
    PathExpression,
    ParenthesizedExpression,
    TupleExpression,
    ArrayExpression,
    StructLiteralExpression,
    StructLiteralFields,
    StructPattern,
    FieldPattern,
    TuplePattern,
    TupleStructPattern,
    IntegerLiteral,
    FloatLiteral,
    StringLiteral,
    CharLiteral,
    BoolLiteral,
    UnitLiteral,
    /// An anonymous token.
    Token(Tok),
}

/// A node of the syntax tree: its kind, the character range
/// `[start, end)` of the source it covers, and its children in order.
#[derive(Debug)]
pub struct Node {
    pub kind: Kind,
    pub start: usize,
    pub end: usize,
    pub children: Vec<Node>,
}

impl Kind {
    /// Named nodes are all kinds but anonymous tokens.
    pub open spec fn spec_is_named(self) -> bool {
        !(self is Token)
    }

    /// Whether the kind is a named node kind.
    pub fn is_named(&self) -> (b: bool)
        ensures
            b == self.spec_is_named(),
    {
        match self {
            Kind::Token(_) => false,
            _ => true,
        }
    }

    /// Whether the kind is the anonymous token `t`.
    pub fn is_token(&self, t: Tok) -> (b: bool)
        ensures
            b == (*self == Kind::Token(t)),
    {
        match self {
            Kind::Token(u) => *u == t,
            _ => false,
        }
    }
}

/// A node and all its descendants cover ranges `start <= end <= len`.
pub open spec fn bounded(n: Node, len: nat) -> bool
    decreases n,
{
    &&& n.start <= n.end <= len
    &&& forall|i: int| 0 <= i < n.children@.len() ==> #[trigger] bounded(n.children@[i], len)
}

/// A node whose range lies inside `len` and whose children are bounded is
/// bounded.
pub proof fn lemma_bounded_intro(n: Node, len: nat)
    requires
        n.start <= n.end <= len,
        forall|i: int| 0 <= i < n.children@.len() ==> #[trigger] bounded(n.children@[i], len),
    ensures
        bounded(n, len),
{
    assert(n.start <= n.end <= len);
    assert(forall|i: int| 0 <= i < n.children@.len() ==> bounded(n.children@[i], len));
    reveal_with_fuel(bounded, 1);
    assert(bounded(n, len));
}

impl Node {
    /// A node without children.
    pub fn leaf(kind: Kind, start: usize, end: usize) -> (n: Node)
        ensures
            n.kind == kind,
            n.start == start,
            n.end == end,
            n.children@.len() == 0,
    {
        Node { kind, start, end, children: Vec::new() }
    }
}


/// A syntax tree as a value: kind, character range and children.
pub struct Tree {
    pub kind: Kind,
    pub start: int,
    pub end: int,
    pub children: Seq<Tree>,
}

/// The tree a node stands for.
pub open spec fn tree_of(n: Node) -> Tree
    decreases n,
{
    Tree {
        kind: n.kind,
        start: n.start as int,
        end: n.end as int,
        children: Seq::new(
            n.children@.len(),
            |i: int|
                if 0 <= i < n.children@.len() {
                    tree_of(n.children@[i])
                } else {
                    Tree { kind: n.kind, start: 0, end: 0, children: Seq::empty() }
                },
        ),
    }
}


/// The children of a node's tree are the trees of its children.
pub proof fn lemma_tree_children(n: Node)
    ensures
        tree_of(n).children.len() == n.children@.len(),
        forall|i: int| 0 <= i < n.children@.len() ==> #[trigger] tree_of(n).children[i] == tree_of(n.children@[i]),
        forall|i: int| 0 <= i < n.children@.len() ==> (#[trigger] tree_of(n).children[i]).kind == n.children@[i].kind,
        tree_of(n).kind == n.kind,
        tree_of(n).start == n.start,
        tree_of(n).end == n.end,
{
    assert forall|i: int| 0 <= i < n.children@.len() implies (#[trigger] tree_of(n).children[i]).kind == n.children@[i].kind by {
        assert(tree_of(n).children[i] == tree_of(n.children@[i]));
    }
}

} // verus!
