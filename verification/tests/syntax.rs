use vinyl::formatter::{format_source, format_tree, FormatError, FormatterConfig};
use vinyl::syntax::lexer::{tokenize, SyntaxErrorKind};
use vinyl::syntax::parser::parse;
use vinyl::syntax::tree::{Kind, Node, Tok};

fn chars(s: &str) -> Vec<char> {
    s.chars().collect()
}

fn kinds(s: &str) -> Vec<(Tok, usize, usize)> {
    tokenize(&chars(s)).unwrap().iter().map(|t| (t.kind, t.start, t.end)).collect()
}

#[test]
fn keywords_and_identifiers() {
    assert_eq!(
        kinds("fn fnx public"),
        vec![(Tok::Fn, 0, 2), (Tok::Ident, 3, 6), (Tok::Public, 7, 13)]
    );
}

#[test]
fn numbers_comments_and_literals() {
    assert_eq!(
        kinds("1_000 2.5 3. // note\n\"a\\\"b\" 'c'"),
        vec![
            (Tok::Int, 0, 5),
            (Tok::Float, 6, 9),
            (Tok::Int, 10, 11),
            (Tok::Dot, 11, 12),
            (Tok::Comment, 13, 20),
            (Tok::Str, 21, 27),
            (Tok::CharLit, 28, 31),
        ]
    );
}

#[test]
fn longest_operator_wins() {
    assert_eq!(
        kinds("a::b => -> <= |> += ="),
        vec![
            (Tok::Ident, 0, 1),
            (Tok::ColonColon, 1, 3),
            (Tok::Ident, 3, 4),
            (Tok::FatArrow, 5, 7),
            (Tok::Arrow, 8, 10),
            (Tok::Op, 11, 13),
            (Tok::Op, 14, 16),
            (Tok::AssignOp, 17, 19),
            (Tok::Assign, 20, 21),
        ]
    );
}

#[test]
fn invalid_character_is_reported_where_it_stands() {
    let e = tokenize(&chars("let x = #;")).unwrap_err();
    assert_eq!(e.kind, SyntaxErrorKind::InvalidCharacter);
    assert_eq!(e.offset, 8);
}

#[test]
fn unterminated_literal_is_reported_at_its_quote() {
    let e = tokenize(&chars("x \"abc")).unwrap_err();
    assert_eq!(e.kind, SyntaxErrorKind::UnterminatedLiteral);
    assert_eq!(e.offset, 2);
}

#[test]
fn unexpected_end_and_token() {
    let e = parse(&chars("fn f(")).unwrap_err();
    assert_eq!(e.kind, SyntaxErrorKind::UnexpectedEnd);
    assert_eq!(e.offset, 5);
    let e = parse(&chars("fn ;")).unwrap_err();
    assert_eq!(e.kind, SyntaxErrorKind::UnexpectedToken);
    assert_eq!(e.offset, 3);
}

#[test]
fn format_error_carries_the_syntax_error() {
    match format_source("fn f() { # }") {
        Err(FormatError::Parse(e)) => {
            assert_eq!(e.kind, SyntaxErrorKind::InvalidCharacter);
            assert_eq!(e.offset, 9);
        }
        other => panic!("expected a parse error, got {other:?}"),
    }
}

#[test]
fn parsed_tree_is_a_source_file() {
    let tree = parse(&chars("import math;")).unwrap();
    assert_eq!(tree.kind, Kind::SourceFile);
    assert_eq!(tree.children.len(), 1);
    assert_eq!(tree.children[0].kind, Kind::ImportStatement);
}

#[test]
fn format_tree_lays_out_a_given_tree() {
    let source = "import   math ;";
    let import = Node {
        kind: Kind::ImportStatement,
        start: 0,
        end: 15,
        children: vec![
            Node::leaf(Kind::Token(Tok::Import), 0, 6),
            Node::leaf(Kind::ValueIdentifier, 9, 13),
            Node::leaf(Kind::Token(Tok::Semi), 14, 15),
        ],
    };
    let tree = Node { kind: Kind::SourceFile, start: 0, end: 15, children: vec![import] };
    let config = FormatterConfig { indent_width: 4 };
    assert_eq!(format_tree(source, &tree, &config), "import math;");
}

#[test]
fn format_source_is_format_tree_of_the_parse() {
    let source = "fn f(a:int):int{let x=a;return x;}\n";
    let tree = parse(&chars(source)).unwrap();
    let config = FormatterConfig { indent_width: 2 };
    let expected = "fn f(a: int): int {\n  let x = a;\n  return x;\n}\n";
    assert_eq!(format_tree(source, &tree, &config), expected);
    assert_eq!(vinyl::formatter::format_source_with_config(source, &config).unwrap(), expected);
}

#[test]
fn final_newline_follows_the_source() {
    assert_eq!(format_source("import a;\n\n\n").unwrap(), "import a;\n");
    assert_eq!(format_source("import a;   ").unwrap(), "import a;");
}

#[test]
fn crlf_sources_keep_crlf_everywhere() {
    let out = format_source("import a;\r\nimport b;\n").unwrap();
    assert_eq!(out, "import a;\r\nimport b;\r\n");
}
