//! The formatting engine: walks the syntax tree and accumulates normalized
//! output, tracking the current indentation level.

use vstd::prelude::*;

use crate::chars::is_whitespace;
use crate::formatter::rules::{
    begin, deeper, feed, fmt, gap, has_child, indented, lay, mode_of, opt_int, put, put_node, put_range,
    put_trimmed, step, trim_back, trim_front, trimmed, walk, with_pen, Mode, Pen, Walk,
};
use crate::syntax::tree::{lemma_tree_children, tree_of, Kind, Node, Tok};

verus! {

/// `a` is a prefix of `b`.
pub open spec fn prefix(a: Seq<char>, b: Seq<char>) -> bool {
    a.len() <= b.len() && forall|i: int| 0 <= i < a.len() ==> #[trigger] b[i] == a[i]
}

/// `n` copies of the indentation unit.
pub open spec fn indentation(unit: Seq<char>, n: nat) -> Seq<char>
    decreases n,
{
    if n == 0 {
        Seq::empty()
    } else {
        indentation(unit, (n - 1) as nat) + unit
    }
}

/// The output is empty or ends with a line feed: the next text starts a
/// line and gets indented.
pub open spec fn at_line_start(out: Seq<char>) -> bool {
    out.len() == 0 || out.last() == '\n'
}

/// What [`Formatter::emit`] appends: the indentation when a line starts,
/// then the text.
pub open spec fn emitted(out: Seq<char>, unit: Seq<char>, indent: nat, text: Seq<char>) -> Seq<char> {
    if at_line_start(out) {
        out + indentation(unit, indent) + text
    } else {
        out + text
    }
}

/// Number of line feeds in `s`.
pub open spec fn line_feeds(s: Seq<char>) -> nat
    decreases s.len(),
{
    if s.len() == 0 {
        0
    } else {
        line_feeds(s.drop_last()) + if s.last() == '\n' {
            1nat
        } else {
            0nat
        }
    }
}

/// The formatter state.
pub struct Formatter<'a> {
    /// The source being formatted, whose token text is emitted verbatim.
    pub source: &'a Vec<char>,
    /// The formatted output accumulated so far.
    pub output: Vec<char>,
    /// Current indentation level, in units of `indent_str`.
    pub indent: usize,
    /// One level of indentation (e.g. four spaces).
    pub indent_str: Vec<char>,
}

/// Appends every character of `text`.
fn push_all(out: &mut Vec<char>, text: &[char])
    ensures
        final(out)@ == old(out)@ + text@,
{
    let mut i: usize = 0;
    while i < text.len()
        invariant
            i <= text@.len(),
            out@ == old(out)@ + text@.subrange(0, i as int),
        decreases text.len() - i,
    {
        out.push(text[i]);
        i += 1;
        assert(out@ =~= old(out)@ + text@.subrange(0, i as int));
    }
    assert(text@.subrange(0, text@.len() as int) =~= text@);
}

impl<'a> Formatter<'a> {
    /// The formatter only grows its output; indentation, its unit and the
    /// source are as before.
    pub open spec fn extends(self, later: Self) -> bool {
        &&& prefix(self.output@, later.output@)
        &&& later.indent == self.indent
        &&& later.indent_str@ == self.indent_str@
        &&& later.source@ == self.source@
    }

    /// The formatter's state as the layout rules see it.
    pub open spec fn pen(self) -> Pen {
        Pen { src: self.source@, unit: self.indent_str@, out: self.output@, indent: self.indent as int }
    }

    /// A fresh formatter over `source` with the given indentation unit.
    pub fn new(source: &'a Vec<char>, indent_str: Vec<char>) -> (f: Self)
        ensures
            f.source@ == source@,
            f.output@.len() == 0,
            f.indent == 0,
            f.indent_str@ == indent_str@,
    {
        Formatter { source, output: Vec::new(), indent: 0, indent_str }
    }

    /// Appends `text`, first writing `indent` levels of indentation when the
    /// output is at the start of a line.
    pub fn emit(&mut self, text: &[char])
        ensures
            final(self).output@ == emitted(
                old(self).output@,
                old(self).indent_str@,
                old(self).indent as nat,
                text@,
            ),
            final(self).indent == old(self).indent,
            final(self).indent_str@ == old(self).indent_str@,
            final(self).source@ == old(self).source@,
            final(self).pen() == put(old(self).pen(), text@),
            forall|t: Seq<char>| t =~= text@ ==> #[trigger] put(old(self).pen(), t) == final(self).pen(),
    {
        let n = self.output.len();
        if n == 0 || self.output[n - 1] == '\n' {
            let mut k: usize = 0;
            while k < self.indent
                invariant
                    k <= self.indent,
                    self.indent == old(self).indent,
                    self.indent_str@ == old(self).indent_str@,
                    self.source@ == old(self).source@,
                    self.output@ == old(self).output@ + indentation(self.indent_str@, k as nat),
                decreases self.indent - k,
            {
                let unit = self.indent_str.as_slice();
                let mut out = Vec::new();
                std::mem::swap(&mut out, &mut self.output);
                push_all(&mut out, unit);
                self.output = out;
                k += 1;
                assert(self.output@ =~= old(self).output@ + indentation(self.indent_str@, k as nat));
            }
        }
        let mut out = Vec::new();
        std::mem::swap(&mut out, &mut self.output);
        push_all(&mut out, text);
        self.output = out;
    }

    /// Emits the source text `source[start..end]`.
    pub fn emit_range(&mut self, start: usize, end: usize)
        requires
            start <= end <= old(self).source@.len(),
        ensures
            final(self).output@ == emitted(
                old(self).output@,
                old(self).indent_str@,
                old(self).indent as nat,
                old(self).source@.subrange(start as int, end as int),
            ),
            final(self).indent == old(self).indent,
            final(self).indent_str@ == old(self).indent_str@,
            final(self).source@ == old(self).source@,
            final(self).pen() == put_range(old(self).pen(), start as int, end as int),
    {
        let src: &'a Vec<char> = self.source;
        let text = vstd::slice::slice_subrange(src.as_slice(), start, end);
        self.emit(text);
    }

    /// Appends a line feed.
    pub fn newline(&mut self)
        ensures
            final(self).output@ == old(self).output@.push('\n'),
            final(self).indent == old(self).indent,
            final(self).indent_str@ == old(self).indent_str@,
            final(self).source@ == old(self).source@,
            final(self).pen() == feed(old(self).pen()),
    {
        self.output.push('\n');
    }

    /// Adds one blank line when the source between `prev_end` and `start`
    /// holds two or more line feeds.
    pub fn preserve_gap(&mut self, prev_end: Option<usize>, start: usize)
        requires
            start <= old(self).source@.len(),
        ensures
            final(self).output@ == if (prev_end matches Some(prev) && start > prev && line_feeds(
                old(self).source@.subrange(prev as int, start as int),
            ) > 1) {
                old(self).output@.push('\n')
            } else {
                old(self).output@
            },
            final(self).indent == old(self).indent,
            final(self).indent_str@ == old(self).indent_str@,
            final(self).source@ == old(self).source@,
            final(self).pen() == gap(old(self).pen(), opt_int(prev_end), start as int),
    {
        if let Some(prev) = prev_end {
            if start > prev {
                let mut count: usize = 0;
                let mut i = prev;
                while i < start && count <= 1
                    invariant
                        prev <= i <= start <= self.source@.len(),
                        count == line_feeds(self.source@.subrange(prev as int, i as int)),
                    decreases start - i,
                {
                    assert(self.source@.subrange(prev as int, i + 1).drop_last() =~= self.source@.subrange(
                        prev as int,
                        i as int,
                    ));
                    if self.source[i] == '\n' {
                        count = count + 1;
                    }
                    i = i + 1;
                }
                proof {
                    lemma_line_feeds_grow(self.source@, prev as int, i as int, start as int);
                }
                if count > 1 {
                    self.newline();
                }
            }
        }
    }

    /// Emits the node's source text verbatim.
    fn emit_node(&mut self, node: &Node)
        ensures
            old(self).extends(*final(self)),
            final(self).pen() == put_node(old(self).pen(), tree_of(*node)),
    {
        if node.start <= node.end && node.end <= self.source.len() {
            self.emit_range(node.start, node.end);
        }
    }

    /// The node's range with surrounding whitespace removed.
    fn trimmed_range(&self, node: &Node) -> (r: (usize, usize))
        ensures
            r.0 <= r.1 <= self.source@.len(),
            r.0 as int == trimmed(self.source@, tree_of(*node)).0,
            r.1 as int == trimmed(self.source@, tree_of(*node)).1,
    {
        if !(node.start <= node.end && node.end <= self.source.len()) {
            return (0, 0);
        }
        let ghost src = self.source@;
        let mut s = node.start;
        let e0 = node.end;
        while s < e0 && is_whitespace(self.source[s])
            invariant
                node.start <= s <= e0 <= src.len(),
                src == self.source@,
                e0 == node.end,
                trim_front(src, node.start as int, e0 as int) == trim_front(src, s as int, e0 as int),
            decreases e0 - s,
        {
            s = s + 1;
        }
        let mut e = e0;
        while s < e && is_whitespace(self.source[e - 1])
            invariant
                s <= e <= e0 <= src.len(),
                src == self.source@,
                trim_back(src, s as int, e0 as int) == trim_back(src, s as int, e as int),
            decreases e - s,
        {
            e = e - 1;
        }
        (s, e)
    }

    /// Emits the node's trimmed text when it is not empty.
    fn emit_trimmed(&mut self, node: &Node)
        ensures
            old(self).extends(*final(self)),
            final(self).pen() == put_trimmed(old(self).pen(), tree_of(*node)),
    {
        let (s, e) = self.trimmed_range(node);
        if s < e {
            self.emit_range(s, e);
        }
    }

    /// Formats a child node, dispatching on whether it is named.
    fn format_child(&mut self, child: &Node)
        ensures
            old(self).extends(*final(self)),
            final(self).pen() == if child.kind.spec_is_named() {
                fmt(old(self).pen(), tree_of(*child))
            } else {
                put_node(old(self).pen(), tree_of(*child))
            },
        decreases *child, 2int,
    {
        if child.kind.is_named() {
            self.format_node(child);
        } else {
            self.emit_node(child);
        }
    }

    /// Dispatches a named node to its formatter, falling back to
    /// `format_default` for unhandled node kinds.
    pub fn format_node(&mut self, node: &Node)
        ensures
            old(self).extends(*final(self)),
            final(self).pen() == fmt(old(self).pen(), tree_of(*node)),
        decreases *node, 1int,
    {
        match node.kind {
            Kind::FunctionDefinition => self.format_function_def(node),
            Kind::StructDefinition => self.format_braced_members(
                node,
                &['s', 't', 'r', 'u', 'c', 't', ' '],
                Tok::Struct,
                Kind::FieldDefinition,
            ),
            Kind::FieldDefinition => self.format_field_def(node),
            Kind::TupleDefinition => self.format_tuple_def(node),
            Kind::EnumDefinition => self.format_braced_members(
                node,
                &['e', 'n', 'u', 'm', ' '],
                Tok::Enum,
                Kind::EnumVariant,
            ),
            Kind::TypeAliasDefinition => self.format_type_alias(node),
            Kind::Block => self.format_block(node),
            Kind::Parameter => self.format_parameter(node),
            Kind::Parameters | Kind::Arguments | Kind::TupleType | Kind::ParenthesizedExpression
            | Kind::TupleExpression => self.format_paren_list(node),
            Kind::TypeAnnotation => self.format_type_annotation(node),
            Kind::BinaryExpression | Kind::PipeExpression => self.format_infix(node),
            Kind::UnaryExpression => self.format_prefix(node),
            Kind::IfExpression => self.format_if(node),
            Kind::WhileStatement => self.format_while(node),
            Kind::LoopStatement => self.format_loop(node),
            Kind::MatchExpression => self.format_match(node),
            Kind::MatchArm => self.format_match_arm(node),
            Kind::ArrayType | Kind::ArrayExpression => self.format_array(node),
            Kind::StructLiteralExpression => self.format_struct_literal_expression(node),
            Kind::StructLiteralFields => self.format_struct_literal_fields(node),
            Kind::StructPattern => self.format_struct_pattern(node),
            Kind::FieldPattern => self.format_field_pattern(node),
            Kind::EnumVariant => self.format_enum_variant(node),
            Kind::ImportGroup => self.format_import_group(node),
            Kind::ImportStatement => self.format_import(node),
            Kind::LetDeclaration => self.format_let(node),
            Kind::ReturnStatement => self.format_return(node),
            Kind::ExpressionStatement => self.format_expr_stmt(node),
            Kind::AssignmentStatement => self.format_assignment(node),
            Kind::StringLiteral | Kind::CharLiteral | Kind::IntegerLiteral | Kind::FloatLiteral
            | Kind::BoolLiteral | Kind::UnitLiteral | Kind::PrimitiveType => self.emit_node(node),
            Kind::Comment => self.emit_node(node),
            _ => self.format_default(node),
        }
    }

    /// Formats an unrecognized node by recursively formatting its children,
    /// emitting a leaf node's source text verbatim.
    fn format_default(&mut self, node: &Node)
        ensures
            old(self).extends(*final(self)),
            final(self).pen() == lay(Mode::Default, old(self).pen(), tree_of(*node)),
        decreases *node, 0int,
    {
        if node.children.len() == 0 && node.kind.is_named() {
            self.emit_node(node);
            return ;
        }
        let ghost start = *self;
        let ghost w0 = begin(self.pen());
        let mut i: usize = 0;
        while i < node.children.len()
            invariant
                i <= node.children@.len(),
                start.extends(*self),
                w0 == begin(start.pen()),
                walk(Mode::Default, w0, tree_of(*node), 0) == walk(Mode::Default, with_pen(w0, self.pen()), tree_of(*node), i as int),
            decreases node.children.len() - i,
        {
            let ghost w = with_pen(w0, self.pen());
            proof {
                lemma_tree_children(*node);
            }
            self.format_child(&node.children[i]);
            assert(step(Mode::Default, w, tree_of(*node), i as int) == with_pen(w0, self.pen()));
            i += 1;
        }
    }

    /// Formats a `fn` definition: name, parameters, optional return type, and body block.
    fn format_function_def(&mut self, node: &Node)
        ensures
            old(self).extends(*final(self)),
            final(self).pen() == lay(Mode::FunctionDef, old(self).pen(), tree_of(*node)),
        decreases *node, 0int,
    {
        let ghost start = *self;
        self.emit(&['f', 'n', ' ']);
        let ghost w0 = begin(self.pen());
        let mut i: usize = 0;
        while i < node.children.len()
            invariant
                i <= node.children@.len(),
                start.extends(*self),
                walk(Mode::FunctionDef, w0, tree_of(*node), 0) == walk(Mode::FunctionDef, with_pen(w0, self.pen()), tree_of(*node), i as int),
            decreases node.children.len() - i,
        {
            let ghost w = with_pen(w0, self.pen());
            proof {
                lemma_tree_children(*node);
            }
            let child = &node.children[i];
            match child.kind {
                Kind::ValueIdentifier | Kind::TypeIdentifier => self.emit_node(child),
                Kind::Parameters => self.format_paren_list(child),
                Kind::TypeAnnotation => self.format_type_annotation(child),
                Kind::Block => {
                    self.emit(&[' ']);
                    self.format_block(child);
                },
                _ => {},
            }
            assert(step(Mode::FunctionDef, w, tree_of(*node), i as int) == with_pen(w0, self.pen()));
            i += 1;
        }
    }

    /// Formats a struct field, emitting the `public` keyword when present.
    fn format_field_def(&mut self, node: &Node)
        ensures
            old(self).extends(*final(self)),
            final(self).pen() == lay(Mode::FieldDef, old(self).pen(), tree_of(*node)),
        decreases *node, 0int,
    {
        let ghost start = *self;
        let ghost w0 = begin(self.pen());
        let mut i: usize = 0;
        while i < node.children.len()
            invariant
                i <= node.children@.len(),
                start.extends(*self),
                walk(Mode::FieldDef, w0, tree_of(*node), 0) == walk(Mode::FieldDef, with_pen(w0, self.pen()), tree_of(*node), i as int),
            decreases node.children.len() - i,
        {
            let ghost w = with_pen(w0, self.pen());
            proof {
                lemma_tree_children(*node);
            }
            let child = &node.children[i];
            if child.kind.is_named() {
                self.format_node(child);
            } else if child.kind.is_token(Tok::Public) {
                self.emit(&['p', 'u', 'b', 'l', 'i', 'c', ' ']);
            } else if child.kind.is_token(Tok::Colon) {
                self.emit(&[':', ' ']);
            }
            assert(step(Mode::FieldDef, w, tree_of(*node), i as int) == with_pen(w0, self.pen()));
            i += 1;
        }
    }

    /// Formats a tuple type definition.
    fn format_tuple_def(&mut self, node: &Node)
        ensures
            old(self).extends(*final(self)),
            final(self).pen() == lay(Mode::TupleDef, old(self).pen(), tree_of(*node)),
        decreases *node, 0int,
    {
        let ghost start = *self;
        self.emit(&['t', 'u', 'p', 'l', 'e', ' ']);
        let ghost w0 = begin(self.pen());
        let mut i: usize = 0;
        while i < node.children.len()
            invariant
                i <= node.children@.len(),
                start.extends(*self),
                walk(Mode::TupleDef, w0, tree_of(*node), 0) == walk(Mode::TupleDef, with_pen(w0, self.pen()), tree_of(*node), i as int),
            decreases node.children.len() - i,
        {
            let ghost w = with_pen(w0, self.pen());
            proof {
                lemma_tree_children(*node);
            }
            let child = &node.children[i];
            match child.kind {
                Kind::ValueIdentifier | Kind::TypeIdentifier => self.emit_node(child),
                Kind::Token(Tok::Tuple) => {},
                Kind::Token(Tok::LParen) => self.emit(&[' ', '(']),
                Kind::Token(Tok::RParen) => self.emit(&[')']),
                Kind::Token(Tok::Comma) => self.emit(&[',', ' ']),
                Kind::Token(_) => self.emit_node(child),
                _ => self.format_node(child),
            }
            assert(step(Mode::TupleDef, w, tree_of(*node), i as int) == with_pen(w0, self.pen()));
            i += 1;
        }
    }

    /// Formats a `struct` or `enum` definition: each `member` child goes on
    /// its own indented line, with members separated by commas.
    fn format_braced_members(&mut self, node: &Node, keyword_text: &[char], keyword: Tok, member: Kind)
        ensures
            old(self).extends(*final(self)),
            final(self).pen() == lay(Mode::Braced(keyword_text@, keyword, member), old(self).pen(), tree_of(*node)),
        decreases *node, 0int,
    {
        let ghost start = *self;
        self.emit(keyword_text);
        let ghost w0 = begin(self.pen());
        let mut i: usize = 0;
        while i < node.children.len()
            invariant
                i <= node.children@.len(),
                start.extends(*self),
                walk(Mode::Braced(keyword_text@, keyword, member), w0, tree_of(*node), 0) == walk(Mode::Braced(keyword_text@, keyword, member), with_pen(w0, self.pen()), tree_of(*node), i as int),
            decreases node.children.len() - i,
        {
            let ghost w = with_pen(w0, self.pen());
            proof {
                lemma_tree_children(*node);
            }
            let child = &node.children[i];
            if child.kind.is_token(Tok::LBrace) {
                self.emit(&[' ', '{']);
            } else if child.kind.is_token(Tok::RBrace) {
                self.newline();
                self.emit(&['}']);
            } else if child.kind.is_token(Tok::Comma) {
                self.emit(&[',']);
            } else if child.kind.is_token(keyword) {
            } else if child.kind == member {
                self.newline();
                let saved = self.indent;
                self.indent = saved.saturating_add(1);
                self.format_node(child);
                self.indent = saved;
            } else if child.kind.is_named() {
                self.format_node(child);
            } else {
                self.emit_trimmed(child);
            }
            assert(step(Mode::Braced(keyword_text@, keyword, member), w, tree_of(*node), i as int) == with_pen(w0, self.pen()));
            i += 1;
        }
    }

    /// Formats a `type` alias definition.
    fn format_type_alias(&mut self, node: &Node)
        ensures
            old(self).extends(*final(self)),
            final(self).pen() == lay(Mode::TypeAlias, old(self).pen(), tree_of(*node)),
        decreases *node, 0int,
    {
        let ghost start = *self;
        self.emit(&['t', 'y', 'p', 'e', ' ']);
        let ghost w0 = begin(self.pen());
        let mut i: usize = 0;
        while i < node.children.len()
            invariant
                i <= node.children@.len(),
                start.extends(*self),
                walk(Mode::TypeAlias, w0, tree_of(*node), 0) == walk(Mode::TypeAlias, with_pen(w0, self.pen()), tree_of(*node), i as int),
            decreases node.children.len() - i,
        {
            let ghost w = with_pen(w0, self.pen());
            proof {
                lemma_tree_children(*node);
            }
            let child = &node.children[i];
            match child.kind {
                Kind::Token(Tok::Type) => {},
                Kind::Token(Tok::Assign) => self.emit(&[' ', '=', ' ']),
                Kind::Token(Tok::Semi) => self.emit(&[';']),
                Kind::Token(_) => self.emit_node(child),
                _ => self.format_node(child),
            }
            assert(step(Mode::TypeAlias, w, tree_of(*node), i as int) == with_pen(w0, self.pen()));
            i += 1;
        }
    }

    /// Formats a `: Type` annotation.
    fn format_type_annotation(&mut self, node: &Node)
        ensures
            old(self).extends(*final(self)),
            final(self).pen() == lay(Mode::TypeAnnotation, old(self).pen(), tree_of(*node)),
        decreases *node, 0int,
    {
        let ghost start = *self;
        self.emit(&[':', ' ']);
        let ghost w0 = begin(self.pen());
        let mut i: usize = 0;
        while i < node.children.len()
            invariant
                i <= node.children@.len(),
                start.extends(*self),
                walk(Mode::TypeAnnotation, w0, tree_of(*node), 0) == walk(Mode::TypeAnnotation, with_pen(w0, self.pen()), tree_of(*node), i as int),
            decreases node.children.len() - i,
        {
            let ghost w = with_pen(w0, self.pen());
            proof {
                lemma_tree_children(*node);
            }
            let child = &node.children[i];
            if child.kind.is_named() {
                self.format_node(child);
            }
            assert(step(Mode::TypeAnnotation, w, tree_of(*node), i as int) == with_pen(w0, self.pen()));
            i += 1;
        }
    }

    /// Formats a comma-separated list inside parentheses (parameters, arguments, tuple types, parenthesized and tuple expressions).
    fn format_paren_list(&mut self, node: &Node)
        ensures
            old(self).extends(*final(self)),
            final(self).pen() == lay(Mode::ParenList, old(self).pen(), tree_of(*node)),
        decreases *node, 0int,
    {
        let ghost start = *self;
        self.emit(&['(']);
        let ghost w0 = begin(self.pen());
        let mut i: usize = 0;
        while i < node.children.len()
            invariant
                i <= node.children@.len(),
                start.extends(*self),
                walk(Mode::ParenList, w0, tree_of(*node), 0) == walk(Mode::ParenList, with_pen(w0, self.pen()), tree_of(*node), i as int),
            decreases node.children.len() - i,
        {
            let ghost w = with_pen(w0, self.pen());
            proof {
                lemma_tree_children(*node);
            }
            let child = &node.children[i];
            match child.kind {
                Kind::Token(Tok::LParen) | Kind::Token(Tok::RParen) => {},
                Kind::Token(Tok::Comma) => self.emit(&[',', ' ']),
                Kind::Token(_) => {},
                _ => self.format_node(child),
            }
            assert(step(Mode::ParenList, w, tree_of(*node), i as int) == with_pen(w0, self.pen()));
            i += 1;
        }
        self.emit(&[')']);
    }

    /// Formats a bracketed array, either a list `[a, b]` or a fill `[v; s]`, for both values and types.
    fn format_array(&mut self, node: &Node)
        ensures
            old(self).extends(*final(self)),
            final(self).pen() == lay(Mode::Array, old(self).pen(), tree_of(*node)),
        decreases *node, 0int,
    {
        let ghost start = *self;
        self.emit(&['[']);
        let ghost w0 = begin(self.pen());
        let mut i: usize = 0;
        while i < node.children.len()
            invariant
                i <= node.children@.len(),
                start.extends(*self),
                walk(Mode::Array, w0, tree_of(*node), 0) == walk(Mode::Array, with_pen(w0, self.pen()), tree_of(*node), i as int),
            decreases node.children.len() - i,
        {
            let ghost w = with_pen(w0, self.pen());
            proof {
                lemma_tree_children(*node);
            }
            let child = &node.children[i];
            match child.kind {
                Kind::Token(Tok::LBracket) | Kind::Token(Tok::RBracket) => {},
                Kind::Token(Tok::Semi) => self.emit(&[';', ' ']),
                Kind::Token(Tok::Comma) => self.emit(&[',', ' ']),
                Kind::Token(_) => {},
                _ => self.format_node(child),
            }
            assert(step(Mode::Array, w, tree_of(*node), i as int) == with_pen(w0, self.pen()));
            i += 1;
        }
        self.emit(&[']']);
    }

    /// Formats a struct literal inline: `Name { x: 1, y: 2 }`.
    fn format_struct_literal_expression(&mut self, node: &Node)
        ensures
            old(self).extends(*final(self)),
            final(self).pen() == lay(Mode::StructLiteral, old(self).pen(), tree_of(*node)),
        decreases *node, 0int,
    {
        let ghost start = *self;
        let ghost w0 = begin(self.pen());
        let mut i: usize = 0;
        while i < node.children.len()
            invariant
                i <= node.children@.len(),
                start.extends(*self),
                walk(Mode::StructLiteral, w0, tree_of(*node), 0) == walk(Mode::StructLiteral, with_pen(w0, self.pen()), tree_of(*node), i as int),
            decreases node.children.len() - i,
        {
            let ghost w = with_pen(w0, self.pen());
            proof {
                lemma_tree_children(*node);
            }
            let child = &node.children[i];
            match child.kind {
                Kind::StructLiteralFields => {
                    self.emit(&[' ']);
                    self.format_struct_literal_fields(child);
                },
                Kind::Token(_) => {},
                _ => self.format_node(child),
            }
            assert(step(Mode::StructLiteral, w, tree_of(*node), i as int) == with_pen(w0, self.pen()));
            i += 1;
        }
    }

    /// Formats the braces and field pairs of a struct literal inline.
    fn format_struct_literal_fields(&mut self, node: &Node)
        ensures
            old(self).extends(*final(self)),
            final(self).pen() == lay(Mode::StructLiteralFields, old(self).pen(), tree_of(*node)),
        decreases *node, 0int,
    {
        if node.children.len() <= 2 {
            self.emit(&['{', '}']);
            return ;
        }
        let ghost start = *self;
        self.emit(&['{', ' ']);
        let ghost w0 = begin(self.pen());
        let mut i: usize = 0;
        while i < node.children.len()
            invariant
                i <= node.children@.len(),
                start.extends(*self),
                walk(Mode::StructLiteralFields, w0, tree_of(*node), 0) == walk(Mode::StructLiteralFields, with_pen(w0, self.pen()), tree_of(*node), i as int),
            decreases node.children.len() - i,
        {
            let ghost w = with_pen(w0, self.pen());
            proof {
                lemma_tree_children(*node);
            }
            let child = &node.children[i];
            match child.kind {
                Kind::Token(Tok::LBrace) | Kind::Token(Tok::RBrace) => {},
                Kind::Token(Tok::Comma) => self.emit(&[',', ' ']),
                Kind::Token(Tok::Colon) => self.emit(&[':', ' ']),
                Kind::Token(_) => {},
                _ => self.format_node(child),
            }
            assert(step(Mode::StructLiteralFields, w, tree_of(*node), i as int) == with_pen(w0, self.pen()));
            i += 1;
        }
        self.emit(&[' ', '}']);
    }

    /// Formats a struct pattern inline: `Name { x, y: pat }`.
    fn format_struct_pattern(&mut self, node: &Node)
        ensures
            old(self).extends(*final(self)),
            final(self).pen() == lay(Mode::StructPattern, old(self).pen(), tree_of(*node)),
        decreases *node, 0int,
    {
        let ghost start = *self;
        let has_fields = node.children.len() > 3;
        let ghost w0 = begin(self.pen());
        let mut i: usize = 0;
        while i < node.children.len()
            invariant
                i <= node.children@.len(),
                start.extends(*self),
                walk(Mode::StructPattern, w0, tree_of(*node), 0) == walk(Mode::StructPattern, with_pen(w0, self.pen()), tree_of(*node), i as int),
                has_fields == (node.children@.len() > 3),
            decreases node.children.len() - i,
        {
            let ghost w = with_pen(w0, self.pen());
            proof {
                lemma_tree_children(*node);
            }
            let child = &node.children[i];
            match child.kind {
                Kind::Token(Tok::LBrace) => if has_fields {
                    self.emit(&[' ', '{', ' '])
                } else {
                    self.emit(&[' ', '{'])
                },
                Kind::Token(Tok::RBrace) => if has_fields {
                    self.emit(&[' ', '}'])
                } else {
                    self.emit(&['}'])
                },
                Kind::Token(Tok::Comma) => self.emit(&[',', ' ']),
                Kind::Token(_) => {},
                _ => self.format_node(child),
            }
            assert(step(Mode::StructPattern, w, tree_of(*node), i as int) == with_pen(w0, self.pen()));
            i += 1;
        }
    }

    /// Formats a single struct pattern field, padding the colon with spaces.
    fn format_field_pattern(&mut self, node: &Node)
        ensures
            old(self).extends(*final(self)),
            final(self).pen() == lay(Mode::FieldPattern, old(self).pen(), tree_of(*node)),
        decreases *node, 0int,
    {
        let ghost start = *self;
        let ghost w0 = begin(self.pen());
        let mut i: usize = 0;
        while i < node.children.len()
            invariant
                i <= node.children@.len(),
                start.extends(*self),
                walk(Mode::FieldPattern, w0, tree_of(*node), 0) == walk(Mode::FieldPattern, with_pen(w0, self.pen()), tree_of(*node), i as int),
            decreases node.children.len() - i,
        {
            let ghost w = with_pen(w0, self.pen());
            proof {
                lemma_tree_children(*node);
            }
            let child = &node.children[i];
            match child.kind {
                Kind::Token(Tok::Colon) => self.emit(&[':', ' ']),
                Kind::Token(_) => {},
                _ => self.format_node(child),
            }
            assert(step(Mode::FieldPattern, w, tree_of(*node), i as int) == with_pen(w0, self.pen()));
            i += 1;
        }
    }

    /// Formats an enum variant, keeping its tuple payload unspaced and its braced payload spaced: `Variant(int32)` or `Variant { public x:int }`.
    fn format_enum_variant(&mut self, node: &Node)
        ensures
            old(self).extends(*final(self)),
            final(self).pen() == lay(Mode::EnumVariant, old(self).pen(), tree_of(*node)),
        decreases *node, 0int,
    {
        let ghost start = *self;
        let brace_has_fields = has_child_of_kind(node, Kind::FieldDefinition);
        let ghost w0 = begin(self.pen());
        let mut i: usize = 0;
        while i < node.children.len()
            invariant
                i <= node.children@.len(),
                start.extends(*self),
                walk(Mode::EnumVariant, w0, tree_of(*node), 0) == walk(Mode::EnumVariant, with_pen(w0, self.pen()), tree_of(*node), i as int),
                brace_has_fields == has_child(tree_of(*node), Kind::FieldDefinition),
            decreases node.children.len() - i,
        {
            let ghost w = with_pen(w0, self.pen());
            proof {
                lemma_tree_children(*node);
            }
            let child = &node.children[i];
            match child.kind {
                Kind::Token(Tok::LParen) => self.emit(&['(']),
                Kind::Token(Tok::RParen) => self.emit(&[')']),
                Kind::Token(Tok::LBrace) => if brace_has_fields {
                    self.emit(&[' ', '{', ' '])
                } else {
                    self.emit(&[' ', '{'])
                },
                Kind::Token(Tok::RBrace) => if brace_has_fields {
                    self.emit(&[' ', '}'])
                } else {
                    self.emit(&['}'])
                },
                Kind::Token(Tok::Comma) => self.emit(&[',', ' ']),
                Kind::Token(_) => {},
                _ => self.format_node(child),
            }
            assert(step(Mode::EnumVariant, w, tree_of(*node), i as int) == with_pen(w0, self.pen()));
            i += 1;
        }
    }

    /// Formats an import symbol group: `import foo::{a, b}`.
    fn format_import_group(&mut self, node: &Node)
        ensures
            old(self).extends(*final(self)),
            final(self).pen() == lay(Mode::ImportGroup, old(self).pen(), tree_of(*node)),
        decreases *node, 0int,
    {
        let ghost start = *self;
        self.emit(&['{']);
        let ghost w0 = begin(self.pen());
        let mut i: usize = 0;
        while i < node.children.len()
            invariant
                i <= node.children@.len(),
                start.extends(*self),
                walk(Mode::ImportGroup, w0, tree_of(*node), 0) == walk(Mode::ImportGroup, with_pen(w0, self.pen()), tree_of(*node), i as int),
            decreases node.children.len() - i,
        {
            let ghost w = with_pen(w0, self.pen());
            proof {
                lemma_tree_children(*node);
            }
            let child = &node.children[i];
            match child.kind {
                Kind::Token(Tok::LBrace) | Kind::Token(Tok::RBrace) => {},
                Kind::Token(Tok::Comma) => self.emit(&[',', ' ']),
                Kind::Token(_) => {},
                _ => self.format_node(child),
            }
            assert(step(Mode::ImportGroup, w, tree_of(*node), i as int) == with_pen(w0, self.pen()));
            i += 1;
        }
        self.emit(&['}']);
    }

    /// Formats a parameter, emitting the `mut` keyword when present.
    fn format_parameter(&mut self, node: &Node)
        ensures
            old(self).extends(*final(self)),
            final(self).pen() == lay(Mode::Parameter, old(self).pen(), tree_of(*node)),
        decreases *node, 0int,
    {
        let ghost start = *self;
        let ghost w0 = begin(self.pen());
        let mut i: usize = 0;
        while i < node.children.len()
            invariant
                i <= node.children@.len(),
                start.extends(*self),
                walk(Mode::Parameter, w0, tree_of(*node), 0) == walk(Mode::Parameter, with_pen(w0, self.pen()), tree_of(*node), i as int),
            decreases node.children.len() - i,
        {
            let ghost w = with_pen(w0, self.pen());
            proof {
                lemma_tree_children(*node);
            }
            let child = &node.children[i];
            if child.kind.is_token(Tok::Mut) {
                self.emit(&['m', 'u', 't', ' ']);
            } else if child.kind.is_named() {
                self.format_node(child);
            }
            assert(step(Mode::Parameter, w, tree_of(*node), i as int) == with_pen(w0, self.pen()));
            i += 1;
        }
    }

    /// Formats a block, preserving a single blank line between statements.
    fn format_block(&mut self, node: &Node)
        ensures
            old(self).extends(*final(self)),
            final(self).pen() == lay(Mode::Block, old(self).pen(), tree_of(*node)),
        decreases *node, 0int,
    {
        let count = node.children.len();
        if count <= 2 {
            self.emit(&['{', '}']);
            return ;
        }
        let ghost start = *self;
        self.emit(&['{']);
        self.newline();
        let saved = self.indent;
        self.indent = saved.saturating_add(1);
        let ghost w0 = begin(self.pen());
        assert(step(Mode::Block, w0, tree_of(*node), 0) == w0);
        assert(walk(Mode::Block, w0, tree_of(*node), 0) == walk(Mode::Block, w0, tree_of(*node), 1));
        let mut prev_end: Option<usize> = None;
        let mut i: usize = 1;
        while i < count - 1
            invariant
                1 <= i <= count - 1,
                count == node.children@.len(),
                prefix(start.output@, self.output@),
                self.indent == saved.saturating_add(1),
                saved == start.indent,
                self.indent_str@ == start.indent_str@,
                self.source@ == start.source@,
                walk(Mode::Block, w0, tree_of(*node), 0) == walk(
                    Mode::Block,
                    Walk { pen: self.pen(), flag: w0.flag, prev: opt_int(prev_end), base: w0.base },
                    tree_of(*node),
                    i as int,
                ),
            decreases count - 1 - i,
        {
            let ghost w = Walk { pen: self.pen(), flag: w0.flag, prev: opt_int(prev_end), base: w0.base };
            proof {
                lemma_tree_children(*node);
            }
            let child = &node.children[i];
            if child.kind.is_named() || child.kind == Kind::Comment {
                if child.start <= self.source.len() {
                    self.preserve_gap(prev_end, child.start);
                }
                self.format_node(child);
                self.newline();
                prev_end = Some(child.end);
            }
            assert(step(Mode::Block, w, tree_of(*node), i as int) == Walk {
                pen: self.pen(),
                flag: w0.flag,
                prev: opt_int(prev_end),
                base: w0.base,
            });
            i += 1;
        }
        let ghost wl = Walk { pen: self.pen(), flag: w0.flag, prev: opt_int(prev_end), base: w0.base };
        assert(step(Mode::Block, wl, tree_of(*node), i as int) == wl);
        assert(walk(Mode::Block, wl, tree_of(*node), count as int) == wl);
        assert(walk(Mode::Block, wl, tree_of(*node), i as int) == wl);
        self.indent = saved;
        self.emit(&['}']);
    }

    /// Formats a binary or pipe expression, padding operators with spaces.
    fn format_infix(&mut self, node: &Node)
        ensures
            old(self).extends(*final(self)),
            final(self).pen() == lay(Mode::Infix, old(self).pen(), tree_of(*node)),
        decreases *node, 0int,
    {
        let ghost start = *self;
        let ghost w0 = begin(self.pen());
        let mut i: usize = 0;
        while i < node.children.len()
            invariant
                i <= node.children@.len(),
                start.extends(*self),
                walk(Mode::Infix, w0, tree_of(*node), 0) == walk(Mode::Infix, with_pen(w0, self.pen()), tree_of(*node), i as int),
            decreases node.children.len() - i,
        {
            let ghost w = with_pen(w0, self.pen());
            proof {
                lemma_tree_children(*node);
            }
            let child = &node.children[i];
            if child.kind.is_named() {
                self.format_node(child);
            } else {
                let (s, t) = self.trimmed_range(child);
                if s < t {
                    self.emit(&[' ']);
                    self.emit_range(s, t);
                    self.emit(&[' ']);
                }
            }
            assert(step(Mode::Infix, w, tree_of(*node), i as int) == with_pen(w0, self.pen()));
            i += 1;
        }
    }

    /// Formats a unary expression.
    fn format_prefix(&mut self, node: &Node)
        ensures
            old(self).extends(*final(self)),
            final(self).pen() == lay(Mode::Prefix, old(self).pen(), tree_of(*node)),
        decreases *node, 0int,
    {
        let ghost start = *self;
        let ghost w0 = begin(self.pen());
        let mut i: usize = 0;
        while i < node.children.len()
            invariant
                i <= node.children@.len(),
                start.extends(*self),
                walk(Mode::Prefix, w0, tree_of(*node), 0) == walk(Mode::Prefix, with_pen(w0, self.pen()), tree_of(*node), i as int),
            decreases node.children.len() - i,
        {
            let ghost w = with_pen(w0, self.pen());
            proof {
                lemma_tree_children(*node);
            }
            let child = &node.children[i];
            self.format_child(child);
            assert(step(Mode::Prefix, w, tree_of(*node), i as int) == with_pen(w0, self.pen()));
            i += 1;
        }
    }

    /// Formats an if/else-if/else expression.
    fn format_if(&mut self, node: &Node)
        ensures
            old(self).extends(*final(self)),
            final(self).pen() == lay(Mode::If, old(self).pen(), tree_of(*node)),
        decreases *node, 0int,
    {
        let ghost start = *self;
        self.emit(&['i', 'f', ' ']);
        let ghost w0 = begin(self.pen());
        let mut after_else = false;
        let mut i: usize = 0;
        while i < node.children.len()
            invariant
                i <= node.children@.len(),
                start.extends(*self),
                walk(Mode::If, w0, tree_of(*node), 0) == walk(
                    Mode::If,
                    Walk { pen: self.pen(), flag: after_else, prev: w0.prev, base: w0.base },
                    tree_of(*node),
                    i as int,
                ),
            decreases node.children.len() - i,
        {
            let ghost w = Walk { pen: self.pen(), flag: after_else, prev: w0.prev, base: w0.base };
            proof {
                lemma_tree_children(*node);
            }
            let child = &node.children[i];
            match child.kind {
                Kind::Token(Tok::If) => {},
                Kind::Token(Tok::Else) => {
                    after_else = true;
                },
                Kind::Block => {
                    if after_else {
                        self.emit(&[' ', 'e', 'l', 's', 'e', ' ']);
                        after_else = false;
                    } else {
                        self.emit(&[' ']);
                    }
                    self.format_block(child);
                },
                Kind::Token(_) => {},
                _ => {
                    if after_else {
                        self.emit(&[' ', 'e', 'l', 's', 'e', ' ', 'i', 'f', ' ']);
                        after_else = false;
                    }
                    self.format_node(child);
                },
            }
            assert(step(Mode::If, w, tree_of(*node), i as int) == Walk {
                pen: self.pen(),
                flag: after_else,
                prev: w0.prev,
                base: w0.base,
            });
            i += 1;
        }
    }

    /// Formats a `while` loop.
    fn format_while(&mut self, node: &Node)
        ensures
            old(self).extends(*final(self)),
            final(self).pen() == lay(Mode::While, old(self).pen(), tree_of(*node)),
        decreases *node, 0int,
    {
        let ghost start = *self;
        self.emit(&['w', 'h', 'i', 'l', 'e', ' ']);
        let ghost w0 = begin(self.pen());
        let mut i: usize = 0;
        while i < node.children.len()
            invariant
                i <= node.children@.len(),
                start.extends(*self),
                walk(Mode::While, w0, tree_of(*node), 0) == walk(Mode::While, with_pen(w0, self.pen()), tree_of(*node), i as int),
            decreases node.children.len() - i,
        {
            let ghost w = with_pen(w0, self.pen());
            proof {
                lemma_tree_children(*node);
            }
            let child = &node.children[i];
            match child.kind {
                Kind::Token(Tok::While) => {},
                Kind::Block => {
                    self.emit(&[' ']);
                    self.format_block(child);
                },
                Kind::Token(_) => {},
                _ => self.format_node(child),
            }
            assert(step(Mode::While, w, tree_of(*node), i as int) == with_pen(w0, self.pen()));
            i += 1;
        }
    }

    /// Formats an infinite `loop` block.
    fn format_loop(&mut self, node: &Node)
        ensures
            old(self).extends(*final(self)),
            final(self).pen() == lay(Mode::Loop, old(self).pen(), tree_of(*node)),
        decreases *node, 0int,
    {
        let ghost start = *self;
        self.emit(&['l', 'o', 'o', 'p', ' ']);
        let ghost w0 = begin(self.pen());
        let mut i: usize = 0;
        while i < node.children.len()
            invariant
                i <= node.children@.len(),
                start.extends(*self),
                walk(Mode::Loop, w0, tree_of(*node), 0) == walk(Mode::Loop, with_pen(w0, self.pen()), tree_of(*node), i as int),
            decreases node.children.len() - i,
        {
            let ghost w = with_pen(w0, self.pen());
            proof {
                lemma_tree_children(*node);
            }
            let child = &node.children[i];
            if child.kind.is_named() {
                self.format_block(child);
            }
            assert(step(Mode::Loop, w, tree_of(*node), i as int) == with_pen(w0, self.pen()));
            i += 1;
        }
    }

    /// Formats a `match` expression with each arm on its own indented line.
    fn format_match(&mut self, node: &Node)
        ensures
            old(self).extends(*final(self)),
            final(self).pen() == lay(Mode::Match, old(self).pen(), tree_of(*node)),
        decreases *node, 0int,
    {
        let ghost start = *self;
        self.emit(&['m', 'a', 't', 'c', 'h', ' ']);
        let ghost w0 = begin(self.pen());
        let saved = self.indent;
        let mut i: usize = 0;
        while i < node.children.len()
            invariant
                i <= node.children@.len(),
                prefix(start.output@, self.output@),
                self.indent == saved || self.indent == saved.saturating_add(1),
                saved == start.indent,
                w0.base == saved,
                self.indent_str@ == start.indent_str@,
                self.source@ == start.source@,
                walk(Mode::Match, w0, tree_of(*node), 0) == walk(Mode::Match, with_pen(w0, self.pen()), tree_of(*node), i as int),
            decreases node.children.len() - i,
        {
            let ghost w = with_pen(w0, self.pen());
            proof {
                lemma_tree_children(*node);
            }
            let child = &node.children[i];
            match child.kind {
                Kind::Token(Tok::Match) => {},
                Kind::Token(Tok::LBrace) => {
                    self.emit(&[' ', '{']);
                    self.newline();
                    self.indent = saved.saturating_add(1);
                },
                Kind::Token(Tok::RBrace) => {
                    self.indent = saved;
                    self.emit(&['}']);
                },
                Kind::MatchArm => {
                    self.format_node(child);
                    self.newline();
                },
                Kind::Token(_) => {},
                _ => self.format_node(child),
            }
            assert(step(Mode::Match, w, tree_of(*node), i as int) == with_pen(w0, self.pen()));
            i += 1;
        }
        self.indent = saved;
    }

    /// Formats a single match arm, padding the `=>` and any guard `if` with spaces.
    fn format_match_arm(&mut self, node: &Node)
        ensures
            old(self).extends(*final(self)),
            final(self).pen() == lay(Mode::MatchArm, old(self).pen(), tree_of(*node)),
        decreases *node, 0int,
    {
        let ghost start = *self;
        let ghost w0 = begin(self.pen());
        let mut i: usize = 0;
        while i < node.children.len()
            invariant
                i <= node.children@.len(),
                start.extends(*self),
                walk(Mode::MatchArm, w0, tree_of(*node), 0) == walk(Mode::MatchArm, with_pen(w0, self.pen()), tree_of(*node), i as int),
            decreases node.children.len() - i,
        {
            let ghost w = with_pen(w0, self.pen());
            proof {
                lemma_tree_children(*node);
            }
            let child = &node.children[i];
            match child.kind {
                Kind::Token(Tok::FatArrow) => self.emit(&[' ', '=', '>', ' ']),
                Kind::Token(Tok::Comma) => {},
                Kind::Token(Tok::If) => self.emit(&[' ', 'i', 'f', ' ']),
                Kind::Token(_) => self.emit_node(child),
                _ => self.format_node(child),
            }
            assert(step(Mode::MatchArm, w, tree_of(*node), i as int) == with_pen(w0, self.pen()));
            i += 1;
        }
    }

    /// Formats an import statement.
    fn format_import(&mut self, node: &Node)
        ensures
            old(self).extends(*final(self)),
            final(self).pen() == lay(Mode::Import, old(self).pen(), tree_of(*node)),
        decreases *node, 0int,
    {
        let ghost start = *self;
        self.emit(&['i', 'm', 'p', 'o', 'r', 't', ' ']);
        let ghost w0 = begin(self.pen());
        let mut i: usize = 0;
        while i < node.children.len()
            invariant
                i <= node.children@.len(),
                start.extends(*self),
                walk(Mode::Import, w0, tree_of(*node), 0) == walk(Mode::Import, with_pen(w0, self.pen()), tree_of(*node), i as int),
            decreases node.children.len() - i,
        {
            let ghost w = with_pen(w0, self.pen());
            proof {
                lemma_tree_children(*node);
            }
            let child = &node.children[i];
            match child.kind {
                Kind::Token(Tok::Import) => {},
                Kind::Token(Tok::Semi) => self.emit(&[';']),
                Kind::Token(Tok::ColonColon) => self.emit(&[':', ':']),
                Kind::Token(_) => self.emit_node(child),
                _ => self.format_node(child),
            }
            assert(step(Mode::Import, w, tree_of(*node), i as int) == with_pen(w0, self.pen()));
            i += 1;
        }
    }

    /// Formats a `let` declaration, emitting the `mut` keyword when present.
    fn format_let(&mut self, node: &Node)
        ensures
            old(self).extends(*final(self)),
            final(self).pen() == lay(Mode::Let, old(self).pen(), tree_of(*node)),
        decreases *node, 0int,
    {
        let ghost start = *self;
        self.emit(&['l', 'e', 't', ' ']);
        let ghost w0 = begin(self.pen());
        let mut i: usize = 0;
        while i < node.children.len()
            invariant
                i <= node.children@.len(),
                start.extends(*self),
                walk(Mode::Let, w0, tree_of(*node), 0) == walk(Mode::Let, with_pen(w0, self.pen()), tree_of(*node), i as int),
            decreases node.children.len() - i,
        {
            let ghost w = with_pen(w0, self.pen());
            proof {
                lemma_tree_children(*node);
            }
            let child = &node.children[i];
            match child.kind {
                Kind::Token(Tok::Let) => {},
                Kind::Token(Tok::Mut) => self.emit(&['m', 'u', 't', ' ']),
                Kind::Token(Tok::Assign) => self.emit(&[' ', '=', ' ']),
                Kind::Token(Tok::Semi) => self.emit(&[';']),
                Kind::Token(_) => self.emit_node(child),
                _ => self.format_node(child),
            }
            assert(step(Mode::Let, w, tree_of(*node), i as int) == with_pen(w0, self.pen()));
            i += 1;
        }
    }

    /// Formats a return statement, always emitting the trailing semicolon.
    fn format_return(&mut self, node: &Node)
        ensures
            old(self).extends(*final(self)),
            final(self).pen() == lay(Mode::Return, old(self).pen(), tree_of(*node)),
        decreases *node, 0int,
    {
        let ghost start = *self;
        self.emit(&['r', 'e', 't', 'u', 'r', 'n']);
        let ghost w0 = begin(self.pen());
        let mut has_value = false;
        let mut i: usize = 0;
        while i < node.children.len()
            invariant
                i <= node.children@.len(),
                start.extends(*self),
                walk(Mode::Return, w0, tree_of(*node), 0) == walk(
                    Mode::Return,
                    Walk { pen: self.pen(), flag: has_value, prev: w0.prev, base: w0.base },
                    tree_of(*node),
                    i as int,
                ),
            decreases node.children.len() - i,
        {
            let ghost w = Walk { pen: self.pen(), flag: has_value, prev: w0.prev, base: w0.base };
            proof {
                lemma_tree_children(*node);
            }
            let child = &node.children[i];
            if child.kind.is_named() {
                self.emit(&[' ']);
                self.format_node(child);
                self.emit(&[';']);
                has_value = true;
            }
            assert(step(Mode::Return, w, tree_of(*node), i as int) == Walk {
                pen: self.pen(),
                flag: has_value,
                prev: w0.prev,
                base: w0.base,
            });
            i += 1;
        }
        if !has_value {
            self.emit(&[';']);
        }
    }

    /// Formats an expression statement, emitting the trailing semicolon.
    fn format_expr_stmt(&mut self, node: &Node)
        ensures
            old(self).extends(*final(self)),
            final(self).pen() == lay(Mode::ExprStmt, old(self).pen(), tree_of(*node)),
        decreases *node, 0int,
    {
        let ghost start = *self;
        let ghost w0 = begin(self.pen());
        let mut i: usize = 0;
        while i < node.children.len()
            invariant
                i <= node.children@.len(),
                start.extends(*self),
                walk(Mode::ExprStmt, w0, tree_of(*node), 0) == walk(Mode::ExprStmt, with_pen(w0, self.pen()), tree_of(*node), i as int),
            decreases node.children.len() - i,
        {
            let ghost w = with_pen(w0, self.pen());
            proof {
                lemma_tree_children(*node);
            }
            let child = &node.children[i];
            if child.kind.is_token(Tok::Semi) {
                self.emit(&[';']);
            } else {
                self.format_child(child);
            }
            assert(step(Mode::ExprStmt, w, tree_of(*node), i as int) == with_pen(w0, self.pen()));
            i += 1;
        }
    }

    /// Formats an assignment statement, padding the operator with spaces.
    fn format_assignment(&mut self, node: &Node)
        ensures
            old(self).extends(*final(self)),
            final(self).pen() == lay(Mode::Assignment, old(self).pen(), tree_of(*node)),
        decreases *node, 0int,
    {
        let ghost start = *self;
        let ghost w0 = begin(self.pen());
        let mut i: usize = 0;
        while i < node.children.len()
            invariant
                i <= node.children@.len(),
                start.extends(*self),
                walk(Mode::Assignment, w0, tree_of(*node), 0) == walk(Mode::Assignment, with_pen(w0, self.pen()), tree_of(*node), i as int),
            decreases node.children.len() - i,
        {
            let ghost w = with_pen(w0, self.pen());
            proof {
                lemma_tree_children(*node);
            }
            let child = &node.children[i];
            if child.kind.is_named() {
                self.format_node(child);
            } else {
                let (s, t) = self.trimmed_range(child);
                if t - s == 1 && self.source[s] == '=' {
                    self.emit(&[' ', '=', ' ']);
                } else if s < t && self.source[t - 1] == '=' {
                    self.emit(&[' ']);
                    self.emit_range(s, t);
                    self.emit(&[' ']);
                } else if t - s == 1 && self.source[s] == ';' {
                    self.emit(&[';']);
                } else {
                    self.emit_range(s, t);
                }
            }
            assert(step(Mode::Assignment, w, tree_of(*node), i as int) == with_pen(w0, self.pen()));
            i += 1;
        }
    }

    /// Formats the top-level definitions of a source file, separating items
    /// with a blank line while preserving a single blank line where present.
    pub fn format_root(&mut self, node: &Node)
        ensures
            old(self).extends(*final(self)),
            final(self).pen() == lay(Mode::Root, old(self).pen(), tree_of(*node)),
    {
        let ghost start = *self;
        let ghost w0 = begin(self.pen());
        let n = node.children.len();
        let mut i: usize = 0;
        let mut prev_end: Option<usize> = None;
        while i < n
            invariant
                i <= n == node.children@.len(),
                start.extends(*self),
                w0 == begin(start.pen()),
                walk(Mode::Root, w0, tree_of(*node), 0) == walk(
                    Mode::Root,
                    Walk { pen: self.pen(), flag: w0.flag, prev: opt_int(prev_end), base: w0.base },
                    tree_of(*node),
                    i as int,
                ),
            decreases n - i,
        {
            let ghost w = Walk { pen: self.pen(), flag: w0.flag, prev: opt_int(prev_end), base: w0.base };
            proof {
                lemma_tree_children(*node);
            }
            let child = &node.children[i];
            if child.start > self.source.len() {
            } else if child.kind.is_token(Tok::Public) {
                self.preserve_gap(prev_end, child.start);
                self.emit(&['p', 'u', 'b', 'l', 'i', 'c', ' ']);
            } else if child.kind == Kind::Comment || child.kind == Kind::Attribute {
                self.preserve_gap(prev_end, child.start);
                self.emit_node(child);
                self.newline();
                prev_end = Some(child.end);
            } else if child.kind.is_named() {
                self.format_node(child);
                prev_end = Some(child.end);
                if i + 1 < n {
                    let next = node.children[i + 1].kind;
                    if next == Kind::Token(Tok::Public) || next == Kind::Attribute || next == Kind::Comment
                        || (next == Kind::ImportStatement && child.kind == Kind::ImportStatement) {
                        self.newline();
                    } else {
                        self.newline();
                        self.newline();
                    }
                }
            }
            assert(step(Mode::Root, w, tree_of(*node), i as int) == Walk {
                pen: self.pen(),
                flag: w0.flag,
                prev: opt_int(prev_end),
                base: w0.base,
            });
            i += 1;
        }
    }
}

/// Whether some child of `node` has kind `kind`.
fn has_child_of_kind(node: &Node, kind: Kind) -> (b: bool)
    ensures
        b == has_child(tree_of(*node), kind),
{
    proof {
        lemma_tree_children(*node);
    }
    let mut i: usize = 0;
    while i < node.children.len()
        invariant
            i <= node.children@.len(),
            forall|j: int| 0 <= j < i ==> (#[trigger] node.children@[j]).kind != kind,
        decreases node.children.len() - i,
    {
        if node.children[i].kind == kind {
            proof {
                lemma_tree_children(*node);
            }
            assert(tree_of(*node).children[i as int].kind == kind);
            return true;
        }
        i += 1;
    }
    proof {
        lemma_tree_children(*node);
    }
    assert forall|j: int| 0 <= j < tree_of(*node).children.len() implies (#[trigger] tree_of(*node).children[j]).kind
        != kind by {
        assert(node.children@[j].kind != kind);
    }
    false
}

/// Counting line feeds over a longer range gives at least as many.
proof fn lemma_line_feeds_grow(s: Seq<char>, a: int, i: int, b: int)
    requires
        0 <= a <= i <= b <= s.len(),
    ensures
        line_feeds(s.subrange(a, i)) <= line_feeds(s.subrange(a, b)),
    decreases b - i,
{
    if i < b {
        lemma_line_feeds_grow(s, a, i, b - 1);
        assert(s.subrange(a, b).drop_last() =~= s.subrange(a, b - 1));
    }
}

} // verus!
