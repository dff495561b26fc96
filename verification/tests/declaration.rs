use noir_tooling::{
    format_attribute, format_expression, format_pattern, format_source, format_type, AttributeNode,
    BindingKeyword, Chunk, ChunkGroup, Declaration, DeclarationFormatter, ExprNode, FormatError,
    Formatter, GroupRenderer, Member, Modifier, PatternNode, PatternNormalizer, TypeNode,
    Visibility,
};

fn toks(words: &[&str]) -> Vec<String> {
    words.iter().map(|w| w.to_string()).collect()
}

fn name(text: &str) -> PatternNode {
    PatternNode::Identifier { name: text.to_string(), is_mut: false }
}

fn global(pattern: PatternNode, ty: Option<&[&str]>, init: Option<&[&str]>) -> Declaration {
    Declaration {
        visibility: Visibility::Private,
        is_comptime: false,
        pattern,
        type_annotation: ty.map(|t| TypeNode { tokens: toks(t) }),
        initializer: init.map(|e| ExprNode { tokens: toks(e) }),
        attributes: vec![],
    }
}

fn written(decl: Declaration, keyword: BindingKeyword, max_width: usize) -> String {
    let group = DeclarationFormatter::format_declaration(decl, keyword).expect("every part is written");
    GroupRenderer::new(max_width).render(&group, 0)
}

#[test]
fn normalize_turns_the_flag_into_a_modifier() {
    let flagged = PatternNode::Identifier { name: "x".to_string(), is_mut: true };
    let (modifier, canonical) = PatternNormalizer::normalize(flagged, BindingKeyword::Global);
    assert_eq!(modifier, Some(Modifier::Mut));
    assert_eq!(canonical, name("x"));
}

#[test]
fn normalize_turns_the_wrapper_into_a_modifier() {
    let wrapped = PatternNode::MutWrapped(Box::new(name("x")));
    let (modifier, canonical) = PatternNormalizer::normalize(wrapped, BindingKeyword::Global);
    assert_eq!(modifier, Some(Modifier::Mut));
    assert_eq!(canonical, name("x"));
}

#[test]
fn normalize_leaves_a_plain_identifier() {
    let (modifier, canonical) = PatternNormalizer::normalize(name("x"), BindingKeyword::Global);
    assert_eq!(modifier, None);
    assert_eq!(canonical, name("x"));
}

#[test]
fn normalize_leaves_a_tuple_of_a_let() {
    let tuple = PatternNode::Tuple(toks(&["(", "a", ",", "b", ")"]));
    let (modifier, canonical) = PatternNormalizer::normalize(tuple, BindingKeyword::Let);
    assert_eq!(modifier, None);
    assert_eq!(canonical, PatternNode::Tuple(toks(&["(", "a", ",", "b", ")"])));
}

#[test]
fn a_global_takes_one_identifier_marked_at_most_once() {
    let wrapped = |inner: PatternNode| PatternNode::MutWrapped(Box::new(inner));
    let flagged = || PatternNode::Identifier { name: "x".to_string(), is_mut: true };
    let tuple = || PatternNode::Tuple(toks(&["(", "a", ")"]));
    for keyword in [BindingKeyword::Global, BindingKeyword::Let] {
        assert!(name("x").is_legal_for(keyword));
        assert!(flagged().is_legal_for(keyword));
        assert!(wrapped(name("x")).is_legal_for(keyword));
        assert!(!wrapped(flagged()).is_legal_for(keyword));
        assert!(!wrapped(wrapped(name("x"))).is_legal_for(keyword));
    }
    assert!(!tuple().is_legal_for(BindingKeyword::Global));
    assert!(!PatternNode::Struct(toks(&["S", "{", "a", "}"])).is_legal_for(BindingKeyword::Global));
    assert!(!PatternNode::Parenthesized(toks(&["(", "a", ")"])).is_legal_for(BindingKeyword::Global));
    assert!(!PatternNode::Interned.is_legal_for(BindingKeyword::Global));
    assert!(!wrapped(tuple()).is_legal_for(BindingKeyword::Global));
    assert!(tuple().is_legal_for(BindingKeyword::Let));
    assert!(wrapped(tuple()).is_legal_for(BindingKeyword::Let));
    assert!(PatternNode::Interned.is_legal_for(BindingKeyword::Let));
    assert!(flagged().carries_mut() && !name("x").carries_mut());
}

#[test]
fn declaration_group_holds_attributes_then_the_body() {
    let mut decl = global(name("x"), Some(&["Field"]), Some(&["1"]));
    decl.attributes = vec![AttributeNode { tokens: toks(&["abi", "(", "foo", ")"]) }];
    let group = DeclarationFormatter::format_declaration(decl, BindingKeyword::Global).unwrap();
    let mut body = ChunkGroup::new();
    body.text(Chunk::new("global x: Field ="));
    body.text(Chunk::new("1;"));
    let mut expected = ChunkGroup::new();
    expected.text(Chunk::hard_break("#[abi(foo)]"));
    expected.group(body);
    assert_eq!(group, expected);
    assert_eq!(group.members.len(), 2);
    assert!(matches!(group.members[1], Member::Group(_)));
}

#[test]
fn modifiers_stand_in_fixed_order_before_the_keyword() {
    let decl = Declaration {
        visibility: Visibility::PublicCrate,
        is_comptime: true,
        pattern: PatternNode::Identifier { name: "x".to_string(), is_mut: true },
        type_annotation: Some(TypeNode { tokens: toks(&["Field"]) }),
        initializer: Some(ExprNode { tokens: toks(&["1"]) }),
        attributes: vec![],
    };
    assert_eq!(written(decl, BindingKeyword::Global, 100), "pub(crate) comptime mut global x: Field = 1;");
}

#[test]
fn declaration_without_type_and_initializer() {
    assert_eq!(written(global(name("x"), None, None), BindingKeyword::Global, 100), "global x;");
    assert_eq!(written(global(name("x"), Some(&["u8"]), None), BindingKeyword::Global, 100), "global x: u8;");
    // Without an initializer there is nothing to break.
    assert_eq!(written(global(name("x"), Some(&["u8"]), None), BindingKeyword::Global, 3), "global x: u8;");
}

#[test]
fn let_declarations_take_the_same_form() {
    let tuple = PatternNode::Tuple(toks(&["(", "a", ",", "b", ")"]));
    assert_eq!(written(global(tuple, None, Some(&["f", "(", ")"])), BindingKeyword::Let, 100), "let (a,b) = f();");
    let wrapped = PatternNode::MutWrapped(Box::new(name("x")));
    assert_eq!(written(global(wrapped, None, Some(&["1"])), BindingKeyword::Let, 100), "mut let x = 1;");
}

#[test]
fn tokens_are_written_without_blanks_but_between_words() {
    let init = ["if", "a", "{", "b", "}", "else", "{", "c", "}"];
    assert_eq!(
        written(global(name("x"), None, Some(&init)), BindingKeyword::Global, 100),
        "global x = if a{b}else{c};"
    );
    let slashes = ["a", "/", "*", "b"];
    assert_eq!(
        written(global(name("x"), None, Some(&slashes)), BindingKeyword::Global, 100),
        "global x = a/ *b;"
    );
}

#[test]
fn too_wide_global_breaks_behind_the_equals_sign() {
    let decl = global(name("x"), Some(&["Field"]), Some(&["1234567890"]));
    // "global x: Field = 1234567890;" is 29 characters wide.
    assert_eq!(written(decl, BindingKeyword::Global, 28), "global x: Field =\n    1234567890;");
    let decl = global(name("x"), Some(&["Field"]), Some(&["1234567890"]));
    assert_eq!(written(decl, BindingKeyword::Global, 29), "global x: Field = 1234567890;");
    assert_eq!(
        format_source("pub global x : Field = 1234567890 ;", 20),
        Ok("pub global x: Field =\n    1234567890;\n".to_string())
    );
}

#[test]
fn attributes_stay_on_their_lines_when_the_body_breaks() {
    let src = "#[a] #[b(c)] global x = 1234567890;";
    assert_eq!(format_source(src, 100), Ok("#[a]\n#[b(c)]\nglobal x = 1234567890;\n".to_string()));
    assert_eq!(format_source(src, 10), Ok("#[a]\n#[b(c)]\nglobal x =\n    1234567890;\n".to_string()));
}

#[test]
fn malformed_attribute_is_reported() {
    let mut decl = global(name("x"), None, None);
    decl.attributes = vec![
        AttributeNode { tokens: toks(&["ok"]) },
        AttributeNode { tokens: toks(&["a", "]", "b"]) },
    ];
    assert_eq!(
        DeclarationFormatter::format_declaration(decl, BindingKeyword::Global),
        Err(FormatError::MalformedAttribute)
    );
    assert_eq!(format_attribute(&AttributeNode { tokens: vec![] }), Err(FormatError::MalformedAttribute));
    assert_eq!(format_attribute(&AttributeNode { tokens: toks(&["a b"]) }), Err(FormatError::MalformedAttribute));
    assert_eq!(format_attribute(&AttributeNode { tokens: toks(&["abi", "(", "x", ")"]) }), Ok(Chunk::hard_break("#[abi(x)]")));
}

#[test]
fn malformed_pattern_is_reported() {
    assert_eq!(
        DeclarationFormatter::format_declaration(global(PatternNode::Interned, None, None), BindingKeyword::Let),
        Err(FormatError::MalformedPattern)
    );
    assert_eq!(
        DeclarationFormatter::format_declaration(global(name("1x"), None, None), BindingKeyword::Global),
        Err(FormatError::MalformedPattern)
    );
    assert_eq!(format_pattern(&PatternNode::Tuple(vec![])), Err(FormatError::MalformedPattern));
    assert_eq!(format_pattern(&name("x_1")), Ok("x_1".to_string()));
    let flagged = PatternNode::Identifier { name: "x".to_string(), is_mut: true };
    assert_eq!(format_pattern(&flagged), Ok("mut x".to_string()));
    assert_eq!(format_pattern(&PatternNode::MutWrapped(Box::new(name("x")))), Ok("mut x".to_string()));
}

#[test]
fn malformed_type_is_reported() {
    assert_eq!(
        DeclarationFormatter::format_declaration(global(name("x"), Some(&["a", "=", "b"]), Some(&["1"])), BindingKeyword::Global),
        Err(FormatError::MalformedType)
    );
    assert_eq!(format_type(&TypeNode { tokens: toks(&["[", "Field", ";", "3", "]"]) }), Err(FormatError::MalformedType));
    assert_eq!(format_type(&TypeNode { tokens: vec![] }), Err(FormatError::MalformedType));
    assert_eq!(format_type(&TypeNode { tokens: toks(&["Foo", "<", "T", ">"]) }), Ok("Foo<T>".to_string()));
}

#[test]
fn malformed_initializer_is_reported() {
    assert_eq!(
        DeclarationFormatter::format_declaration(global(name("x"), None, Some(&["1", ";", "2"])), BindingKeyword::Global),
        Err(FormatError::MalformedInitializer)
    );
    assert_eq!(format_expression(&ExprNode { tokens: toks(&["\""]) }), Err(FormatError::MalformedInitializer));
    assert_eq!(format_expression(&ExprNode { tokens: toks(&["a", "b"]) }), Ok("a b".to_string()));
}

#[test]
fn the_first_malformed_part_decides_the_error() {
    let mut decl = global(PatternNode::Interned, Some(&[]), Some(&[]));
    decl.attributes = vec![AttributeNode { tokens: vec![] }];
    assert_eq!(
        DeclarationFormatter::format_declaration(decl, BindingKeyword::Let),
        Err(FormatError::MalformedAttribute)
    );
    assert_eq!(
        DeclarationFormatter::format_declaration(global(PatternNode::Interned, Some(&[]), Some(&[])), BindingKeyword::Let),
        Err(FormatError::MalformedPattern)
    );
    assert_eq!(
        DeclarationFormatter::format_declaration(global(name("x"), Some(&[]), Some(&[])), BindingKeyword::Let),
        Err(FormatError::MalformedType)
    );
}

#[test]
fn formatter_appends_lines_at_its_indentation() {
    let mut formatter = Formatter::new(100);
    formatter.indent = 1;
    let mut decl = global(name("x"), None, Some(&["1"]));
    decl.attributes = vec![AttributeNode { tokens: toks(&["a"]) }];
    assert_eq!(formatter.format_global(decl), Ok(()));
    assert_eq!(formatter.buffer, "    #[a]\n    global x = 1;\n");
    formatter.max_width = 5;
    assert_eq!(formatter.format_global(global(name("y"), None, Some(&["2"]))), Ok(()));
    assert_eq!(formatter.buffer, "    #[a]\n    global x = 1;\n    global y =\n        2;\n");
    assert_eq!(formatter.indent, 1);
}

#[test]
fn formatter_writes_nothing_of_a_declaration_in_error() {
    let mut formatter = Formatter::new(100);
    assert_eq!(formatter.format_global(global(name("x"), None, None)), Ok(()));
    let mut bad = global(name("y"), None, Some(&[]));
    bad.attributes = vec![AttributeNode { tokens: toks(&["a"]) }];
    assert_eq!(formatter.format_global(bad), Err(FormatError::MalformedInitializer));
    assert_eq!(formatter.buffer, "global x;\n");
}

#[test]
fn chunk_formatter_builds_the_group_that_the_formatter_writes() {
    let formatter = Formatter::new(100);
    let group = formatter.chunk_formatter().format_global(global(name("x"), None, Some(&["1"]))).unwrap();
    assert_eq!(GroupRenderer::new(100).render(&group, 0), "global x = 1;");
}
