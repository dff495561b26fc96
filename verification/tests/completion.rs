use noir_tooling::{
    completion_item_with_trigger_parameter_hints_command, keyword_builtin_function, name_matches,
    simple_completion_item, snippet_completion_item, AttributeTarget, CompletionItem,
    CompletionItemKind, FunctionCompletionKind, Keyword, NodeFinder,
};

fn labels(finder: &NodeFinder) -> Vec<&str> {
    finder.completion_items.iter().map(|item| item.label.as_str()).collect()
}

fn attributes(prefix: &str, target: AttributeTarget) -> Vec<String> {
    let mut finder = NodeFinder::new();
    finder.suggest_builtin_attributes(prefix, target);
    finder.completion_items.into_iter().map(|item| item.label).collect()
}

#[test]
fn a_name_matches_what_it_starts_with() {
    assert!(name_matches("assert_eq", ""));
    assert!(name_matches("assert_eq", "ass"));
    assert!(name_matches("assert_eq", "assert_eq"));
    assert!(!name_matches("assert", "assert_eq"));
    assert!(!name_matches("assert_eq", "eq"));
    assert!(!name_matches("assert", "Ass"));
}

#[test]
fn only_assert_and_assert_eq_are_built_in_functions() {
    let named: Vec<Keyword> =
        Keyword::all().into_iter().filter(|k| keyword_builtin_function(k).is_some()).collect();
    assert_eq!(named, vec![Keyword::Assert, Keyword::AssertEq]);
    let assert = keyword_builtin_function(&Keyword::Assert).unwrap();
    assert_eq!((assert.name, assert.parameters, assert.description), ("assert", "${1:predicate}", "fn(T)"));
    let assert_eq = keyword_builtin_function(&Keyword::AssertEq).unwrap();
    assert_eq!(
        (assert_eq.name, assert_eq.parameters, assert_eq.description),
        ("assert_eq", "${1:lhs}, ${2:rhs}", "fn(T, T)")
    );
    assert!(keyword_builtin_function(&Keyword::Global).is_none());
}

#[test]
fn every_keyword_is_listed_once() {
    let all = Keyword::all();
    assert_eq!(all.len(), 37);
    for (i, a) in all.iter().enumerate() {
        for b in &all[i + 1..] {
            assert_ne!(a, b);
        }
    }
    assert!(all.contains(&Keyword::While) && all.contains(&Keyword::As));
}

#[test]
fn functions_complete_to_their_name() {
    let mut finder = NodeFinder::new();
    finder.builtin_functions_completion("as", FunctionCompletionKind::Name);
    let expected = vec![
        CompletionItem {
            label: "assert".to_string(),
            kind: CompletionItemKind::Function,
            description: Some("fn(T)".to_string()),
            insert_text: Some("assert".to_string()),
            is_snippet: true,
            triggers_parameter_hints: true,
        },
        CompletionItem {
            label: "assert_eq".to_string(),
            kind: CompletionItemKind::Function,
            description: Some("fn(T, T)".to_string()),
            insert_text: Some("assert_eq".to_string()),
            is_snippet: true,
            triggers_parameter_hints: true,
        },
    ];
    assert_eq!(finder.completion_items, expected);
}

#[test]
fn functions_complete_to_a_call_with_parameters() {
    let mut finder = NodeFinder::new();
    finder.builtin_functions_completion("assert_", FunctionCompletionKind::NameAndParameters);
    let expected = vec![CompletionItem {
        label: "assert_eq(…)".to_string(),
        kind: CompletionItemKind::Function,
        description: Some("fn(T, T)".to_string()),
        insert_text: Some("assert_eq(${1:lhs}, ${2:rhs})".to_string()),
        is_snippet: true,
        triggers_parameter_hints: true,
    }];
    assert_eq!(finder.completion_items, expected);
    finder.builtin_functions_completion("b", FunctionCompletionKind::Name);
    assert_eq!(finder.completion_items, expected);
}

#[test]
fn truth_values_are_suggested_in_order() {
    let mut finder = NodeFinder::new();
    finder.builtin_values_completion("");
    assert_eq!(labels(&finder), vec!["false", "true"]);
    finder.builtin_values_completion("tr");
    assert_eq!(labels(&finder), vec!["false", "true", "true"]);
    finder.builtin_values_completion("x");
    assert_eq!(finder.completion_items.len(), 3);
    assert_eq!(
        finder.completion_items[2],
        simple_completion_item("true".to_string(), CompletionItemKind::Keyword, Some("bool".to_string()))
    );
}

#[test]
fn primitive_types_are_suggested_with_their_name_as_description() {
    let names: Vec<String> = ["bool", "Field", "FmtStr", "u8"].iter().map(|n| n.to_string()).collect();
    let mut finder = NodeFinder::new();
    finder.builtin_types_completion("F", &names);
    let expected = vec![
        CompletionItem {
            label: "Field".to_string(),
            kind: CompletionItemKind::Struct,
            description: Some("Field".to_string()),
            insert_text: None,
            is_snippet: false,
            triggers_parameter_hints: false,
        },
        CompletionItem {
            label: "FmtStr".to_string(),
            kind: CompletionItemKind::Struct,
            description: Some("FmtStr".to_string()),
            insert_text: None,
            is_snippet: false,
            triggers_parameter_hints: false,
        },
    ];
    assert_eq!(finder.completion_items, expected);
}

#[test]
fn a_module_has_no_attributes() {
    assert_eq!(attributes("", AttributeTarget::Module), Vec::<String>::new());
}

#[test]
fn traits_and_lets_may_allow() {
    assert_eq!(attributes("", AttributeTarget::Trait), vec!["allow(dead_code)"]);
    assert_eq!(attributes("dead", AttributeTarget::Trait), vec!["allow(dead_code)"]);
    assert_eq!(attributes("al", AttributeTarget::Let), vec!["allow(unused_variables)"]);
    assert_eq!(attributes("unused_v", AttributeTarget::Let), vec!["allow(unused_variables)"]);
    assert_eq!(attributes("dead", AttributeTarget::Let), Vec::<String>::new());
}

#[test]
fn structs_and_enums_have_abi() {
    assert_eq!(attributes("a", AttributeTarget::Struct), vec!["abi(…)", "allow(dead_code)"]);
    assert_eq!(attributes("ab", AttributeTarget::Enum), vec!["abi(…)"]);
    let mut finder = NodeFinder::new();
    finder.suggest_builtin_attributes("ab", AttributeTarget::Struct);
    assert_eq!(
        finder.completion_items,
        vec![snippet_completion_item(
            "abi(…)".to_string(),
            CompletionItemKind::Method,
            "abi(${1:name})".to_string(),
            None
        )]
    );
}

#[test]
fn functions_have_all_attributes_in_order() {
    let expected = vec![
        "contract_library_method",
        "deprecated",
        "export",
        "fold",
        "no_predicates",
        "recursive",
        "test",
        "fuzz",
        "varargs",
        "abi(…)",
        "field(…)",
        "foreign(…)",
        "oracle(…)",
        "deprecated(\"...\")",
        "test(should_fail)",
        "test(should_fail_with = \"...\")",
        "fuzz(only_fail_with = \"...\")",
        "fuzz(should_fail)",
        "fuzz(should_fail_with = \"...\")",
        "allow(dead_code)",
    ];
    assert_eq!(attributes("", AttributeTarget::Function), expected);
}

#[test]
fn function_attributes_are_found_by_their_argument() {
    assert_eq!(
        attributes("should_fail", AttributeTarget::Function),
        vec!["test(should_fail)", "test(should_fail_with = \"...\")", "fuzz(should_fail)", "fuzz(should_fail_with = \"...\")"]
    );
    assert_eq!(attributes("only", AttributeTarget::Function), vec!["fuzz(only_fail_with = \"...\")"]);
    assert_eq!(
        attributes("te", AttributeTarget::Function),
        vec!["test", "test(should_fail)", "test(should_fail_with = \"...\")"]
    );
    assert_eq!(attributes("dep", AttributeTarget::Function), vec!["deprecated", "deprecated(\"...\")"]);
    assert_eq!(
        attributes("f", AttributeTarget::Function),
        vec![
            "fold",
            "fuzz",
            "field(…)",
            "foreign(…)",
            "fuzz(only_fail_with = \"...\")",
            "fuzz(should_fail)",
            "fuzz(should_fail_with = \"...\")"
        ]
    );
}

#[test]
fn snippets_of_function_attributes() {
    let mut finder = NodeFinder::new();
    finder.suggest_builtin_attributes("deprecated", AttributeTarget::Function);
    assert_eq!(finder.completion_items.len(), 2);
    assert_eq!(
        finder.completion_items[0],
        simple_completion_item("deprecated".to_string(), CompletionItemKind::Method, None)
    );
    assert_eq!(
        finder.completion_items[1],
        snippet_completion_item(
            "deprecated(\"...\")".to_string(),
            CompletionItemKind::Method,
            "deprecated(\"${1:message}\")".to_string(),
            None
        )
    );
    let mut finder = NodeFinder::new();
    finder.suggest_builtin_attributes("only_fail", AttributeTarget::Function);
    assert_eq!(finder.completion_items[0].insert_text.as_deref(), Some("fuzz(only_fail_with = \"${1:message}\")"));
}

#[test]
fn allow_is_suggested_for_allow_and_for_the_name() {
    let mut finder = NodeFinder::new();
    finder.suggest_allow("dead_code", "all");
    finder.suggest_allow("dead_code", "de");
    finder.suggest_allow("dead_code", "code");
    assert_eq!(labels(&finder), vec!["allow(dead_code)", "allow(dead_code)"]);
    assert_eq!(finder.completion_items[0].kind, CompletionItemKind::Method);
    assert_eq!(finder.completion_items[0].insert_text, None);
}

#[test]
fn attribute_lists_are_filtered_by_prefix() {
    let mut finder = NodeFinder::new();
    finder.suggest_no_arguments_attributes("f", &vec!["fold", "test", "fuzz"]);
    finder.suggest_one_argument_attributes("o", &vec!["abi", "oracle"]);
    assert_eq!(labels(&finder), vec!["fold", "fuzz", "oracle(…)"]);
    assert_eq!(finder.completion_items[2].insert_text.as_deref(), Some("oracle(${1:name})"));
}

#[test]
fn parameter_hints_are_switched_on_and_nothing_else_changes() {
    let item = snippet_completion_item("f(…)".to_string(), CompletionItemKind::Function, "f($1)".to_string(), None);
    let with_hints = completion_item_with_trigger_parameter_hints_command(item.clone());
    assert!(with_hints.triggers_parameter_hints && !item.triggers_parameter_hints);
    assert_eq!(CompletionItem { triggers_parameter_hints: false, ..with_hints }, item);
}
