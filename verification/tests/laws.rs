use noir_tooling::{
    format_source, lex_source, AttributeNode, BindingKeyword, Declaration, DeclarationFormatter,
    ExprNode, Formatter, GroupRenderer, PatternNode, TypeNode, Visibility,
};

const SOURCES: [&str; 8] = [
    " pub  global  x  =  1  ; ",
    "#[abi ( foo ) ]\n#[ export ] pub ( crate ) comptime mut global x : Field = f ( a , b ) ;",
    "global\tx\r\n:\nu32\n;",
    "mut global counter=0;",
    "global x = a / * b - - c;",
    "global x = a == b;",
    "comptime global LONG_NAME_OF_A_GLOBAL : SomeType < With , Parameters > = some_function ( 1 , 2 , 3 ) ;",
    "global x:Field=if a{b}else{c};",
];

#[test]
fn formatting_is_idempotent() {
    for width in [0, 10, 20, 40, 100] {
        for src in SOURCES {
            let once = format_source(src, width).expect("the source is a global declaration");
            let twice = format_source(&once, width).expect("formatted text is a global declaration");
            assert_eq!(twice, once, "width {width}, source {src:?}");
        }
    }
}

#[test]
fn formatting_keeps_the_tokens() {
    for width in [0, 10, 100] {
        for src in SOURCES {
            let formatted = format_source(src, width).unwrap();
            assert_eq!(lex_source(&formatted), lex_source(src));
        }
    }
}

#[test]
fn formatted_text_ends_with_one_line_end() {
    for src in SOURCES {
        let formatted = format_source(src, 30).unwrap();
        assert!(formatted.ends_with(";\n"));
    }
}

#[test]
fn spacing_of_the_source_does_not_reach_the_output() {
    let expected = format_source("pub comptime mut global x: Field = 1;", 100);
    assert_eq!(expected, Ok("pub comptime mut global x: Field = 1;\n".to_string()));
    let variants = [
        "pub comptime mut global x:Field=1;",
        "   pub comptime mut global x: Field = 1;",
        "pub comptime mut global x: Field = 1;\n\n\n",
        "pub\ncomptime\nmut\nglobal\nx\n:\nField\n=\n1\n;",
        "pub\t\tcomptime \t mut   global\r\nx :Field= 1 ;",
    ];
    for src in variants {
        assert_eq!(format_source(src, 100), expected);
    }
}

#[test]
fn spaces_that_part_words_are_kept_as_one_blank() {
    assert_eq!(format_source("global x = a   as   u8;", 100), Ok("global x = a as u8;\n".to_string()));
    assert_eq!(lex_source("a / / b"), lex_source("a/ /b"));
    assert_eq!(format_source("global x = a / / b;", 100), Ok("global x = a/ /b;\n".to_string()));
}

#[test]
fn tokens_come_in_the_fixed_order() {
    let formatted = format_source("#[a] pub(crate) comptime mut global x: T = v;", 0).unwrap();
    let tokens = lex_source(&formatted).unwrap();
    let expected: Vec<String> = [
        "#", "[", "a", "]", "pub", "(", "crate", ")", "comptime", "mut", "global", "x", ":", "T",
        "=", "v", ";",
    ]
    .iter()
    .map(|t| t.to_string())
    .collect();
    assert_eq!(tokens, expected);
    assert_eq!(tokens.iter().filter(|t| t.as_str() == "mut").count(), 1);
}

#[test]
fn attributes_precede_the_body_whatever_its_layout() {
    let src = "#[first] #[second(arg)] pub global x = 1234567890;";
    let flat = format_source(src, 100).unwrap();
    let broken = format_source(src, 5).unwrap();
    assert_eq!(flat, "#[first]\n#[second(arg)]\npub global x = 1234567890;\n");
    assert_eq!(broken, "#[first]\n#[second(arg)]\npub global x =\n    1234567890;\n");
    let lines = "#[first]\n#[second(arg)]\n";
    assert!(flat.starts_with(lines) && broken.starts_with(lines));
}

#[test]
fn text_of_a_global_built_by_hand_reads_back() {
    let build = || Declaration {
        visibility: Visibility::PublicCrate,
        is_comptime: true,
        pattern: PatternNode::Identifier { name: "total".to_string(), is_mut: true },
        type_annotation: Some(TypeNode { tokens: vec!["u64".to_string()] }),
        initializer: Some(ExprNode {
            tokens: ["a", "+", "b", "/", "/", "c"].iter().map(|t| t.to_string()).collect(),
        }),
        attributes: vec![AttributeNode { tokens: vec!["export".to_string()] }],
    };
    for width in [0, 30, 100] {
        let mut formatter = Formatter::new(width);
        formatter.format_global(build()).unwrap();
        let text = formatter.buffer;
        assert_eq!(format_source(&text, width), Ok(text.clone()));
        let group = DeclarationFormatter::format_declaration(build(), BindingKeyword::Global).unwrap();
        assert_eq!(format!("{}\n", GroupRenderer::new(width).render(&group, 0)), text);
    }
    let mut formatter = Formatter::new(100);
    formatter.format_global(build()).unwrap();
    assert_eq!(formatter.buffer, "#[export]\npub(crate) comptime mut global total: u64 = a+b/ /c;\n");
}
