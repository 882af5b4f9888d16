//! Splits Vinyl source text into tokens.

use vstd::prelude::*;

use crate::chars::{ident_char, is_digit, is_ident_char, is_whitespace, is_whitespace_spec, spells, word_eq};
use crate::syntax::tree::Tok;

verus! {

/// A token: its kind and the character range `[start, end)` it covers.
#[derive(Debug, Clone, Copy)]
pub struct Token {
    pub kind: Tok,
    pub start: usize,
    pub end: usize,
}

/// Why the source text could not be read as Vinyl.
#[derive(Debug, Clone, Copy, PartialEq, Eq, Structural)]
pub enum SyntaxErrorKind {
    /// A character that starts no token.
    InvalidCharacter,
    /// A string or character literal without its closing quote.
    UnterminatedLiteral,
    /// A token that the grammar does not allow at its position.
    UnexpectedToken,
    /// The source ended where the grammar expects more.
    UnexpectedEnd,
}

/// A syntax error and the character offset at which it was found.
#[derive(Debug, Clone, Copy, PartialEq, Eq, Structural)]
pub struct SyntaxError {
    pub kind: SyntaxErrorKind,
    pub offset: usize,
}

/// Tokens lie inside a source of `len` characters, are not empty, and come
/// in source order without overlapping.
pub open spec fn tokens_ok(toks: Seq<Token>, len: nat) -> bool {
    &&& forall|i: int| 0 <= i < toks.len() ==> (#[trigger] toks[i]).start < toks[i].end <= len
    &&& forall|i: int, j: int|
        0 <= i < j < toks.len() ==> (#[trigger] toks[i]).end <= (#[trigger] toks[j]).start
}

/// The keyword kind that `s[start..end]` spells, or `Ident`.
pub open spec fn keyword_kind(s: Seq<char>, start: int, end: int) -> Tok {
    if spells(s, start, end, seq!['f', 'n']) {
        Tok::Fn
    } else if spells(s, start, end, seq!['p', 'u', 'b', 'l', 'i', 'c']) {
        Tok::Public
    } else if spells(s, start, end, seq!['s', 't', 'r', 'u', 'c', 't']) {
        Tok::Struct
    } else if spells(s, start, end, seq!['e', 'n', 'u', 'm']) {
        Tok::Enum
    } else if spells(s, start, end, seq!['t', 'u', 'p', 'l', 'e']) {
        Tok::Tuple
    } else if spells(s, start, end, seq!['t', 'y', 'p', 'e']) {
        Tok::Type
    } else if spells(s, start, end, seq!['i', 'm', 'p', 'o', 'r', 't']) {
        Tok::Import
    } else if spells(s, start, end, seq!['l', 'e', 't']) {
        Tok::Let
    } else if spells(s, start, end, seq!['m', 'u', 't']) {
        Tok::Mut
    } else if spells(s, start, end, seq!['r', 'e', 't', 'u', 'r', 'n']) {
        Tok::Return
    } else if spells(s, start, end, seq!['i', 'f']) {
        Tok::If
    } else if spells(s, start, end, seq!['e', 'l', 's', 'e']) {
        Tok::Else
    } else if spells(s, start, end, seq!['w', 'h', 'i', 'l', 'e']) {
        Tok::While
    } else if spells(s, start, end, seq!['l', 'o', 'o', 'p']) {
        Tok::Loop
    } else if spells(s, start, end, seq!['m', 'a', 't', 'c', 'h']) {
        Tok::Match
    } else if spells(s, start, end, seq!['t', 'r', 'u', 'e']) {
        Tok::True
    } else if spells(s, start, end, seq!['f', 'a', 'l', 's', 'e']) {
        Tok::False
    } else if spells(s, start, end, seq!['b', 'r', 'e', 'a', 'k']) {
        Tok::Break
    } else if spells(s, start, end, seq!['c', 'o', 'n', 't', 'i', 'n', 'u', 'e']) {
        Tok::Continue
    } else {
        Tok::Ident
    }
}

/// The operator kind and length of a two-character token `c d`, if any.
pub open spec fn two_char_token(c: char, d: char) -> Option<(Tok, int)> {
    if c == ':' && d == ':' {
        Some((Tok::ColonColon, 2))
    } else if c == '=' && d == '>' {
        Some((Tok::FatArrow, 2))
    } else if c == '-' && d == '>' {
        Some((Tok::Arrow, 2))
    } else if (c == '=' || c == '!' || c == '<' || c == '>') && d == '=' {
        Some((Tok::Op, 2))
    } else if (c == '&' && d == '&') || (c == '|' && d == '|') || (c == '|' && d == '>') || (c == '<'
        && d == '<') || (c == '>' && d == '>') {
        Some((Tok::Op, 2))
    } else if (c == '+' || c == '-' || c == '*' || c == '/' || c == '%') && d == '=' {
        Some((Tok::AssignOp, 2))
    } else {
        None
    }
}

/// The kind of a one-character punctuation or operator token `c`, if any.
pub open spec fn one_char_token(c: char) -> Option<Tok> {
    if c == '(' {
        Some(Tok::LParen)
    } else if c == ')' {
        Some(Tok::RParen)
    } else if c == '{' {
        Some(Tok::LBrace)
    } else if c == '}' {
        Some(Tok::RBrace)
    } else if c == '[' {
        Some(Tok::LBracket)
    } else if c == ']' {
        Some(Tok::RBracket)
    } else if c == ',' {
        Some(Tok::Comma)
    } else if c == ';' {
        Some(Tok::Semi)
    } else if c == ':' {
        Some(Tok::Colon)
    } else if c == '=' {
        Some(Tok::Assign)
    } else if c == '@' {
        Some(Tok::At)
    } else if c == '.' {
        Some(Tok::Dot)
    } else if c == '+' || c == '-' || c == '*' || c == '/' || c == '%' || c == '<' || c == '>' || c
        == '!' || c == '&' || c == '|' || c == '^' {
        Some(Tok::Op)
    } else {
        None
    }
}

/// The punctuation or operator token at `pos` and its length: the longest
/// of a two-character and a one-character token.
pub open spec fn punct_token(s: Seq<char>, pos: int) -> Option<(Tok, int)> {
    if pos + 1 < s.len() && two_char_token(s[pos], s[pos + 1]) is Some {
        two_char_token(s[pos], s[pos + 1])
    } else {
        match one_char_token(s[pos]) {
            Some(t) => Some((t, 1)),
            None => None,
        }
    }
}

/// The end of the line comment whose text continues at `i`.
pub open spec fn comment_end(s: Seq<char>, i: int) -> int
    decreases s.len() - i,
{
    if 0 <= i < s.len() && s[i] != '\n' && s[i] != '\r' {
        comment_end(s, i + 1)
    } else {
        i
    }
}

/// The end of the identifier characters from `i`.
pub open spec fn ident_end(s: Seq<char>, i: int) -> int
    decreases s.len() - i,
{
    if 0 <= i < s.len() && is_ident_char(s[i]) {
        ident_end(s, i + 1)
    } else {
        i
    }
}

/// The end of the digits and underscores from `i`.
pub open spec fn digits_end(s: Seq<char>, i: int) -> int
    decreases s.len() - i,
{
    if 0 <= i < s.len() && (is_digit(s[i]) || s[i] == '_') {
        digits_end(s, i + 1)
    } else {
        i
    }
}

/// The kind and end of the number that starts at `pos`: an integer, or a
/// float when a `.` and a digit follow the integer part.
pub open spec fn number_token(s: Seq<char>, pos: int) -> (Tok, int) {
    let e = digits_end(s, pos + 1);
    if e < s.len() - 1 && s[e] == '.' && is_digit(s[e + 1]) {
        (Tok::Float, digits_end(s, e + 1))
    } else {
        (Tok::Int, e)
    }
}

/// The position after the closing `quote` of a literal whose body
/// continues at `i`, skipping escaped characters; `None` when the source
/// ends first.
pub open spec fn closing_quote(s: Seq<char>, i: int, quote: char) -> Option<int>
    decreases s.len() - i,
{
    if i < 0 || i >= s.len() {
        None
    } else if s[i] == '\\' {
        if i + 1 < s.len() {
            closing_quote(s, i + 2, quote)
        } else {
            None
        }
    } else if s[i] == quote {
        Some(i + 1)
    } else {
        closing_quote(s, i + 1, quote)
    }
}

/// The kind and end of the token that starts at `pos`, or the error there.
pub open spec fn token_at(s: Seq<char>, pos: int) -> Result<(Tok, int), SyntaxError> {
    let c = s[pos];
    if c == '/' && pos + 1 < s.len() && s[pos + 1] == '/' {
        Ok((Tok::Comment, comment_end(s, pos + 2)))
    } else if is_ident_char(c) && !is_digit(c) {
        let e = ident_end(s, pos + 1);
        Ok((keyword_kind(s, pos, e), e))
    } else if is_digit(c) {
        Ok(number_token(s, pos))
    } else if c == '"' || c == '\'' {
        match closing_quote(s, pos + 1, c) {
            Some(e) => Ok((if c == '"' { Tok::Str } else { Tok::CharLit }, e)),
            None => Err(SyntaxError { kind: SyntaxErrorKind::UnterminatedLiteral, offset: pos as usize }),
        }
    } else {
        match punct_token(s, pos) {
            Some((t, n)) => Ok((t, pos + n)),
            None => Err(SyntaxError { kind: SyntaxErrorKind::InvalidCharacter, offset: pos as usize }),
        }
    }
}

/// The tokens of `s` from `pos` on, or the first error: whitespace is
/// skipped, and every other character starts the token [`token_at`] reads.
pub open spec fn lex_from(s: Seq<char>, pos: int) -> Result<Seq<Token>, SyntaxError>
    decreases s.len() - pos,
{
    if pos < 0 || pos >= s.len() {
        Ok(Seq::empty())
    } else if is_whitespace_spec(s[pos]) {
        lex_from(s, pos + 1)
    } else {
        match token_at(s, pos) {
            Ok((t, e)) => {
                proof {
                    lemma_token_at_advances(s, pos);
                }
                match lex_from(s, e) {
                    Ok(rest) => Ok(seq![Token { kind: t, start: pos as usize, end: e as usize }] + rest),
                    Err(x) => Err(x),
                }
            },
            Err(x) => Err(x),
        }
    }
}

/// The run ends never lie before where they start.
proof fn lemma_run_ends(s: Seq<char>, i: int)
    requires
        0 <= i,
    ensures
        comment_end(s, i) >= i,
        ident_end(s, i) >= i,
        digits_end(s, i) >= i,
        comment_end(s, i) <= s.len() || comment_end(s, i) == i,
        ident_end(s, i) <= s.len() || ident_end(s, i) == i,
        digits_end(s, i) <= s.len() || digits_end(s, i) == i,
    decreases s.len() - i,
{
    if i < s.len() {
        lemma_run_ends(s, i + 1);
    }
}

/// A closing quote found from `i` lies after `i` and inside the source.
proof fn lemma_closing_quote(s: Seq<char>, i: int, quote: char)
    ensures
        closing_quote(s, i, quote) matches Some(e) ==> i < e <= s.len(),
    decreases s.len() - i,
{
    if 0 <= i < s.len() {
        if s[i] == '\\' {
            if i + 1 < s.len() {
                lemma_closing_quote(s, i + 2, quote);
            }
        } else if s[i] != quote {
            lemma_closing_quote(s, i + 1, quote);
        }
    }
}

/// A token read at `pos` ends after `pos` and inside the source.
pub proof fn lemma_token_at_advances(s: Seq<char>, pos: int)
    requires
        0 <= pos < s.len(),
    ensures
        token_at(s, pos) matches Ok((_, e)) ==> pos < e <= s.len(),
{
    lemma_run_ends(s, pos + 1);
    lemma_run_ends(s, pos + 2);
    lemma_closing_quote(s, pos + 1, s[pos]);
    let e = digits_end(s, pos + 1);
    if 0 <= e {
        lemma_run_ends(s, e + 1);
    }
}

/// The keyword kind that an identifier spells, if any.
fn keyword(src: &Vec<char>, start: usize, end: usize) -> (t: Tok)
    requires
        start <= end <= src.len(),
    ensures
        t == keyword_kind(src@, start as int, end as int),
{
    if word_eq(src, start, end, &['f', 'n']) {
        Tok::Fn
    } else if word_eq(src, start, end, &['p', 'u', 'b', 'l', 'i', 'c']) {
        Tok::Public
    } else if word_eq(src, start, end, &['s', 't', 'r', 'u', 'c', 't']) {
        Tok::Struct
    } else if word_eq(src, start, end, &['e', 'n', 'u', 'm']) {
        Tok::Enum
    } else if word_eq(src, start, end, &['t', 'u', 'p', 'l', 'e']) {
        Tok::Tuple
    } else if word_eq(src, start, end, &['t', 'y', 'p', 'e']) {
        Tok::Type
    } else if word_eq(src, start, end, &['i', 'm', 'p', 'o', 'r', 't']) {
        Tok::Import
    } else if word_eq(src, start, end, &['l', 'e', 't']) {
        Tok::Let
    } else if word_eq(src, start, end, &['m', 'u', 't']) {
        Tok::Mut
    } else if word_eq(src, start, end, &['r', 'e', 't', 'u', 'r', 'n']) {
        Tok::Return
    } else if word_eq(src, start, end, &['i', 'f']) {
        Tok::If
    } else if word_eq(src, start, end, &['e', 'l', 's', 'e']) {
        Tok::Else
    } else if word_eq(src, start, end, &['w', 'h', 'i', 'l', 'e']) {
        Tok::While
    } else if word_eq(src, start, end, &['l', 'o', 'o', 'p']) {
        Tok::Loop
    } else if word_eq(src, start, end, &['m', 'a', 't', 'c', 'h']) {
        Tok::Match
    } else if word_eq(src, start, end, &['t', 'r', 'u', 'e']) {
        Tok::True
    } else if word_eq(src, start, end, &['f', 'a', 'l', 's', 'e']) {
        Tok::False
    } else if word_eq(src, start, end, &['b', 'r', 'e', 'a', 'k']) {
        Tok::Break
    } else if word_eq(src, start, end, &['c', 'o', 'n', 't', 'i', 'n', 'u', 'e']) {
        Tok::Continue
    } else {
        Tok::Ident
    }
}

/// The kind and length of the punctuation or operator token that starts
/// at `pos`, if one does.
fn punct(src: &Vec<char>, pos: usize) -> (r: Option<(Tok, usize)>)
    requires
        pos < src.len(),
    ensures
        r matches Some((_, n)) ==> 1 <= n <= 2 && pos + n <= src.len(),
        match r {
            Some((t, n)) => punct_token(src@, pos as int) == Some((t, n as int)),
            None => punct_token(src@, pos as int) is None,
        },
{
    let c = src[pos];
    if pos + 1 < src.len() {
        let d = src[pos + 1];
        if c == ':' && d == ':' {
            return Some((Tok::ColonColon, 2));
        } else if c == '=' && d == '>' {
            return Some((Tok::FatArrow, 2));
        } else if c == '-' && d == '>' {
            return Some((Tok::Arrow, 2));
        } else if (c == '=' || c == '!' || c == '<' || c == '>') && d == '=' {
            return Some((Tok::Op, 2));
        } else if (c == '&' && d == '&') || (c == '|' && d == '|') || (c == '|' && d == '>') || (
        c == '<' && d == '<') || (c == '>' && d == '>') {
            return Some((Tok::Op, 2));
        } else if (c == '+' || c == '-' || c == '*' || c == '/' || c == '%') && d == '=' {
            return Some((Tok::AssignOp, 2));
        }
    }
    if c == '(' {
        Some((Tok::LParen, 1))
    } else if c == ')' {
        Some((Tok::RParen, 1))
    } else if c == '{' {
        Some((Tok::LBrace, 1))
    } else if c == '}' {
        Some((Tok::RBrace, 1))
    } else if c == '[' {
        Some((Tok::LBracket, 1))
    } else if c == ']' {
        Some((Tok::RBracket, 1))
    } else if c == ',' {
        Some((Tok::Comma, 1))
    } else if c == ';' {
        Some((Tok::Semi, 1))
    } else if c == ':' {
        Some((Tok::Colon, 1))
    } else if c == '=' {
        Some((Tok::Assign, 1))
    } else if c == '@' {
        Some((Tok::At, 1))
    } else if c == '.' {
        Some((Tok::Dot, 1))
    } else if c == '+' || c == '-' || c == '*' || c == '/' || c == '%' || c == '<' || c == '>'
        || c == '!' || c == '&' || c == '|' || c == '^' {
        Some((Tok::Op, 1))
    } else {
        None
    }
}

/// The end of a quoted literal that opens with `quote` at `pos`: the
/// position after the closing quote, or `None` when it is not closed.
fn literal_end(src: &Vec<char>, pos: usize, quote: char) -> (r: Option<usize>)
    requires
        pos < src.len(),
    ensures
        r matches Some(e) ==> pos < e <= src.len(),
        match r {
            Some(e) => closing_quote(src@, pos + 1, quote) == Some(e as int),
            None => closing_quote(src@, pos + 1, quote) is None,
        },
{
    let mut i = pos + 1;
    while i < src.len()
        invariant
            pos < i <= src.len(),
            closing_quote(src@, pos + 1, quote) == closing_quote(src@, i as int, quote),
        decreases src.len() - i,
    {
        let c = src[i];
        if c == '\\' {
            if i + 1 < src.len() {
                i = i + 2;
            } else {
                return None;
            }
        } else if c == quote {
            return Some(i + 1);
        } else {
            i = i + 1;
        }
    }
    None
}

/// Splits `src` into tokens, skipping whitespace; line comments (`//` to the
/// end of the line) become tokens of their own. See [`lex_from`].
pub fn tokenize(src: &Vec<char>) -> (res: Result<Vec<Token>, SyntaxError>)
    ensures
        match res {
            Ok(toks) => lex_from(src@, 0) == Ok::<Seq<Token>, SyntaxError>(toks@),
            Err(e) => lex_from(src@, 0) == Err::<Seq<Token>, SyntaxError>(e),
        },
        res matches Ok(toks) ==> tokens_ok(toks@, src@.len()),
        res matches Err(e) ==> e.offset < src@.len(),
{
    let mut toks: Vec<Token> = Vec::new();
    let mut pos: usize = 0;
    while pos < src.len()
        invariant
            pos <= src.len(),
            tokens_ok(toks@, src@.len()),
            forall|i: int| 0 <= i < toks@.len() ==> #[trigger] toks@[i].end <= pos,
            lex_from(src@, 0) == match lex_from(src@, pos as int) {
                Ok(rest) => Ok(toks@ + rest),
                Err(x) => Err::<Seq<Token>, SyntaxError>(x),
            },
        decreases src.len() - pos,
    {
        let c = src[pos];
        let start = pos;
        let mut kind = Tok::Ident;
        if is_whitespace(c) {
            pos = pos + 1;
            continue;
        } else if c == '/' && pos + 1 < src.len() && src[pos + 1] == '/' {
            let mut e = pos + 2;
            while e < src.len() && src[e] != '\n' && src[e] != '\r'
                invariant
                    pos + 2 <= e <= src.len(),
                    comment_end(src@, pos + 2) == comment_end(src@, e as int),
                decreases src.len() - e,
            {
                e = e + 1;
            }
            kind = Tok::Comment;
            pos = e;
        } else if ident_char(c) && !('0' <= c && c <= '9') {
            let mut e = pos + 1;
            while e < src.len() && ident_char(src[e])
                invariant
                    pos + 1 <= e <= src.len(),
                    ident_end(src@, pos + 1) == ident_end(src@, e as int),
                decreases src.len() - e,
            {
                e = e + 1;
            }
            kind = keyword(src, pos, e);
            pos = e;
        } else if '0' <= c && c <= '9' {
            let mut e = pos + 1;
            while e < src.len() && (('0' <= src[e] && src[e] <= '9') || src[e] == '_')
                invariant
                    pos + 1 <= e <= src.len(),
                    digits_end(src@, pos + 1) == digits_end(src@, e as int),
                decreases src.len() - e,
            {
                e = e + 1;
            }
            kind = Tok::Int;
            if e < src.len() - 1 && src[e] == '.' && '0' <= src[e + 1] && src[e + 1] <= '9' {
                let point = e;
                e = e + 1;
                while e < src.len() && (('0' <= src[e] && src[e] <= '9') || src[e] == '_')
                    invariant
                        point + 1 <= e <= src.len(),
                        digits_end(src@, point + 1) == digits_end(src@, e as int),
                    decreases src.len() - e,
                {
                    e = e + 1;
                }
                kind = Tok::Float;
            }
            pos = e;
        } else if c == '"' || c == '\'' {
            match literal_end(src, pos, c) {
                Some(e) => {
                    kind = if c == '"' {
                        Tok::Str
                    } else {
                        Tok::CharLit
                    };
                    pos = e;
                },
                None => {
                    return Err(SyntaxError { kind: SyntaxErrorKind::UnterminatedLiteral, offset: pos });
                },
            }
        } else {
            match punct(src, pos) {
                Some((t, n)) => {
                    kind = t;
                    pos = pos + n;
                },
                None => {
                    return Err(SyntaxError { kind: SyntaxErrorKind::InvalidCharacter, offset: pos });
                },
            }
        }
        let tok = Token { kind, start, end: pos };
        assert(token_at(src@, start as int) == Ok::<(Tok, int), SyntaxError>((kind, pos as int)));
        let ghost before = toks@;
        toks.push(tok);
        proof {
            if let Ok(rest) = lex_from(src@, pos as int) {
                assert(toks@ + rest =~= before + (seq![tok] + rest));
            }
        }
        assert(tokens_ok(toks@, src@.len())) by {
            assert forall|i: int, j: int| 0 <= i < j < toks@.len() implies #[trigger] toks@[i].end
                <= #[trigger] toks@[j].start by {
                if j == toks@.len() - 1 {
                    assert(toks@[i].end <= start);
                }
            }
        }
    }
    assert(toks@ + Seq::<Token>::empty() =~= toks@);
    Ok(toks)
}

} // verus!
