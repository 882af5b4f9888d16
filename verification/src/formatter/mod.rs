//! A formatter for the Vinyl language, built on the concrete syntax tree.
//!
//! [`format_source`] and [`format_source_with_config`] format a source
//! string; [`format_range`] formats a whole source for a range request.

pub mod engine;
pub mod normalize;
pub mod rules;

use vstd::prelude::*;

use crate::chars::{chars_of, string_from_chars};
use crate::formatter::engine::Formatter;
use crate::formatter::normalize::{finalize, finalize_output};
use crate::formatter::rules::{lay, Mode, Pen};
use crate::syntax::lexer::SyntaxError;
use crate::syntax::grammar::parse_spec;
use crate::syntax::parser::parse;
use crate::syntax::tree::{bounded, tree_of, Kind, Node, Tree};

verus! {

/// Configuration for the formatter.
pub struct FormatterConfig {
    /// Number of spaces used for one level of indentation.
    pub indent_width: usize,
}

impl Default for FormatterConfig {
    fn default() -> (c: Self)
        ensures
            c.indent_width == 4,
    {
        FormatterConfig { indent_width: 4 }
    }
}

/// Errors that can occur while formatting Vinyl source code.
#[derive(Debug, Clone, Copy, PartialEq, Eq, Structural)]
pub enum FormatError {
    /// The source failed to parse.
    Parse(SyntaxError),
}

/// The pen the formatter starts with: nothing written, no indentation,
/// `width` spaces per level.
pub open spec fn start_pen(source: Seq<char>, width: nat) -> Pen {
    Pen { src: source, unit: Seq::new(width, |i: int| ' '), out: Seq::empty(), indent: 0 }
}

/// The formatted text of `source` whose syntax tree is `tree`: the tree
/// laid out from the root, then line endings and trailing whitespace
/// normalized.
pub open spec fn formatted(source: Seq<char>, width: nat, tree: Tree) -> Seq<char> {
    finalize(lay(Mode::Root, start_pen(source, width), tree).out, source)
}

/// What formatting `source` with `width` spaces per level gives: the
/// formatted text of its syntax tree, or the parse error.
pub open spec fn format_spec(source: Seq<char>, width: nat) -> Result<Seq<char>, FormatError> {
    match parse_spec(source) {
        Ok(t) => Ok(formatted(source, width, t)),
        Err(e) => Err(FormatError::Parse(e)),
    }
}

/// The formatting result `r` is `format_spec(source, width)`.
pub open spec fn format_result_is(r: Result<String, FormatError>, source: Seq<char>, width: nat) -> bool {
    match r {
        Ok(s) => format_spec(source, width) == Ok::<Seq<char>, FormatError>(s@),
        Err(e) => format_spec(source, width) == Err::<Seq<char>, FormatError>(e),
    }
}

/// `n` spaces.
fn spaces(n: usize) -> (v: Vec<char>)
    ensures
        v@ == Seq::new(n as nat, |i: int| ' '),
{
    let mut v: Vec<char> = Vec::new();
    let mut i: usize = 0;
    while i < n
        invariant
            i <= n,
            v@ == Seq::new(i as nat, |j: int| ' '),
        decreases n - i,
    {
        v.push(' ');
        i += 1;
        assert(v@ =~= Seq::new(i as nat, |j: int| ' '));
    }
    v
}

/// Formats a source string using the default configuration.
pub fn format_source(source: &str) -> (r: Result<String, FormatError>)
    ensures
        format_result_is(r, source@, 4),
        r matches Err(FormatError::Parse(e)) ==> e.offset <= source@.len(),
{
    format_source_with_config(source, &FormatterConfig::default())
}

/// Formats a source string with a custom configuration: parses it, walks
/// the tree emitting normalized tokens, then normalizes line endings and
/// trailing whitespace, keeping `"\r\n"` line endings when the source uses
/// them.
pub fn format_source_with_config(source: &str, config: &FormatterConfig) -> (r: Result<
    String,
    FormatError,
>)
    ensures
        format_result_is(r, source@, config.indent_width as nat),
        r matches Err(FormatError::Parse(e)) ==> e.offset <= source@.len(),
{
    let chars = chars_of(source);
    let tree = match parse(&chars) {
        Ok(tree) => tree,
        Err(e) => {
            return Err(FormatError::Parse(e));
        },
    };
    Ok(format_tree(source, &tree, config))
}

/// Lays out the syntax tree `tree` of `source` from its root, then
/// normalizes line endings and trailing whitespace; see [`formatted`].
pub fn format_tree(source: &str, tree: &Node, config: &FormatterConfig) -> (r: String)
    ensures
        r@ == formatted(source@, config.indent_width as nat, tree_of(*tree)),
{
    let chars = chars_of(source);
    let mut formatter = Formatter::new(&chars, spaces(config.indent_width));
    assert(formatter.pen() =~= start_pen(source@, config.indent_width as nat));
    formatter.format_root(tree);
    let out = finalize_output(&formatter.output, &chars);
    string_from_chars(&out)
}

/// Formats a byte range of a source string.
///
/// Range formatting is not yet implemented; the whole source is formatted
/// and the range is ignored. The language server and the command line
/// format whole documents.
pub fn format_range(source: &str, config: &FormatterConfig, range: std::ops::Range<usize>) -> (r:
    Result<String, FormatError>)
    ensures
        format_result_is(r, source@, config.indent_width as nat),
        r matches Err(FormatError::Parse(e)) ==> e.offset <= source@.len(),
{
    format_source_with_config(source, config)
}

} // verus!
