use noir_tooling::{
    format_source, lex_source, parse_declaration, AttributeNode, Declaration, ExprNode, LexError,
    ParseError, PatternNode, SourceError, TypeNode, Visibility,
};

fn toks(words: &[&str]) -> Vec<String> {
    words.iter().map(|w| w.to_string()).collect()
}

fn parse(src: &str) -> Result<Declaration, ParseError> {
    parse_declaration(&lex_source(src).expect("the source has tokens"))
}

#[test]
fn words_are_longest_runs_and_other_characters_stand_alone() {
    assert_eq!(lex_source("a_1+b2  c"), Ok(toks(&["a_1", "+", "b2", "c"])));
    assert_eq!(lex_source("x==y"), Ok(toks(&["x", "=", "=", "y"])));
    assert_eq!(lex_source("#[abi ( foo ) ]"), Ok(toks(&["#", "[", "abi", "(", "foo", ")", "]"])));
}

#[test]
fn spaces_tabs_and_line_ends_hold_no_token() {
    assert_eq!(lex_source(""), Ok(toks(&[])));
    assert_eq!(lex_source(" \t\r\n "), Ok(toks(&[])));
    assert_eq!(lex_source("\tglobal\nx\r\n;"), Ok(toks(&["global", "x", ";"])));
}

#[test]
fn a_lone_slash_is_a_token() {
    assert_eq!(lex_source("a / b"), Ok(toks(&["a", "/", "b"])));
    assert_eq!(lex_source("a / *b"), Ok(toks(&["a", "/", "*", "b"])));
    assert_eq!(lex_source("a /"), Ok(toks(&["a", "/"])));
}

#[test]
fn string_literals_are_refused() {
    assert_eq!(lex_source("global s = \"a  b\";"), Err(LexError::StringLiteral));
}

#[test]
fn comments_are_refused() {
    assert_eq!(lex_source("global x = 1; // one"), Err(LexError::Comment));
    assert_eq!(lex_source("global x = /* one */ 1;"), Err(LexError::Comment));
}

#[test]
fn the_leftmost_refused_place_decides_the_error() {
    assert_eq!(lex_source("a // \"b\""), Err(LexError::Comment));
    assert_eq!(lex_source("\"b\" // a"), Err(LexError::StringLiteral));
}

#[test]
fn parses_every_part_of_a_global() {
    let parsed = parse("#[abi(foo)] #[export] pub(crate) comptime mut global x: [Field] = f(1);");
    let expected = Declaration {
        visibility: Visibility::PublicCrate,
        is_comptime: true,
        pattern: PatternNode::MutWrapped(Box::new(PatternNode::Identifier {
            name: "x".to_string(),
            is_mut: false,
        })),
        type_annotation: Some(TypeNode { tokens: toks(&["[", "Field", "]"]) }),
        initializer: Some(ExprNode { tokens: toks(&["f", "(", "1", ")"]) }),
        attributes: vec![
            AttributeNode { tokens: toks(&["abi", "(", "foo", ")"]) },
            AttributeNode { tokens: toks(&["export"]) },
        ],
    };
    assert_eq!(parsed, Ok(expected));
}

#[test]
fn a_semicolon_ends_the_declaration_where_it_first_stands() {
    assert_eq!(parse("global x: [Field; 3] = f(1);"), Err(ParseError::TrailingTokens));
    assert_eq!(parse("global x = { 1; 2 };"), Err(ParseError::TrailingTokens));
}

#[test]
fn parses_type_and_initializer() {
    let parsed = parse("pub global x: Field = a == b;");
    let expected = Declaration {
        visibility: Visibility::Public,
        is_comptime: false,
        pattern: PatternNode::Identifier { name: "x".to_string(), is_mut: false },
        type_annotation: Some(TypeNode { tokens: toks(&["Field"]) }),
        initializer: Some(ExprNode { tokens: toks(&["a", "=", "=", "b"]) }),
        attributes: vec![],
    };
    assert_eq!(parsed, Ok(expected));
}

#[test]
fn parses_type_without_initializer() {
    let parsed = parse("global x: u32;");
    let expected = Declaration {
        visibility: Visibility::Private,
        is_comptime: false,
        pattern: PatternNode::Identifier { name: "x".to_string(), is_mut: false },
        type_annotation: Some(TypeNode { tokens: toks(&["u32"]) }),
        initializer: None,
        attributes: vec![],
    };
    assert_eq!(parsed, Ok(expected));
}

#[test]
fn pub_without_crate_in_parentheses_is_plain_pub() {
    assert_eq!(parse("pub (super) global x;"), Err(ParseError::ExpectedGlobal));
    assert_eq!(parse("pub ( crate ) global x;").map(|d| d.visibility), Ok(Visibility::PublicCrate));
}

#[test]
fn unclosed_attribute_is_an_error() {
    assert_eq!(parse("#[abi global x;"), Err(ParseError::UnclosedAttribute));
}

#[test]
fn empty_attribute_is_an_error() {
    assert_eq!(parse("#[] global x;"), Err(ParseError::EmptyAttribute));
}

#[test]
fn another_keyword_than_global_is_an_error() {
    assert_eq!(parse("let x = 1;"), Err(ParseError::ExpectedGlobal));
    assert_eq!(parse(""), Err(ParseError::ExpectedGlobal));
    assert_eq!(parse("mut pub global x;"), Err(ParseError::ExpectedGlobal));
}

#[test]
fn missing_name_is_an_error() {
    assert_eq!(parse("global 1 = 2;"), Err(ParseError::ExpectedName));
    assert_eq!(parse("global ;"), Err(ParseError::ExpectedName));
    assert_eq!(parse("global"), Err(ParseError::ExpectedName));
}

#[test]
fn missing_semicolon_is_an_error() {
    assert_eq!(parse("global x = 1"), Err(ParseError::MissingSemicolon));
}

#[test]
fn tokens_behind_the_semicolon_are_an_error() {
    assert_eq!(parse("global x = 1; global y = 2;"), Err(ParseError::TrailingTokens));
}

#[test]
fn unexpected_token_behind_the_name_is_an_error() {
    assert_eq!(parse("global x y;"), Err(ParseError::UnexpectedToken));
}

#[test]
fn empty_type_is_an_error() {
    assert_eq!(parse("global x: = 1;"), Err(ParseError::EmptyType));
    assert_eq!(parse("global x: ;"), Err(ParseError::EmptyType));
}

#[test]
fn empty_initializer_is_an_error() {
    assert_eq!(parse("global x = ;"), Err(ParseError::EmptyInitializer));
    assert_eq!(parse("global x: Field = ;"), Err(ParseError::EmptyInitializer));
}

#[test]
fn format_source_reports_lex_and_parse_errors() {
    assert_eq!(format_source("global s = \"x\";", 100), Err(SourceError::Lex(LexError::StringLiteral)));
    assert_eq!(format_source("global x = 1 // c", 100), Err(SourceError::Lex(LexError::Comment)));
    assert_eq!(format_source("let x = 1;", 100), Err(SourceError::Parse(ParseError::ExpectedGlobal)));
    assert_eq!(format_source("global x = 1", 100), Err(SourceError::Parse(ParseError::MissingSemicolon)));
}
