//! Completion entries for what is built into the language: the functions that are
//! keywords, the two truth values, the primitive types, and the attributes that may
//! stand on an item.
//!
//! An entry is suggested for a name that starts with what was typed so far.

use vstd::prelude::*;
use crate::chunks::option_text;
use crate::lexer::to_chars;

verus! {

/// The keywords of the language.
#[derive(Clone, Copy, Debug, PartialEq, Eq, Structural)]
pub enum Keyword {
    As,
    Assert,
    AssertEq,
    Break,
    CallData,
    Comptime,
    Constrain,
    Continue,
    Contract,
    Crate,
    Dep,
    Else,
    Enum,
    Fn,
    For,
    Global,
    If,
    Impl,
    In,
    Let,
    Loop,
    Match,
    Mod,
    Mut,
    Pub,
    Return,
    ReturnData,
    Struct,
    Super,
    Trait,
    Type,
    Unchecked,
    Unconstrained,
    Unsafe,
    Use,
    Where,
    While,
}

/// What an attribute is attached to.
#[derive(Clone, Copy, Debug, PartialEq, Eq, Structural)]
pub enum AttributeTarget {
    Module,
    Struct,
    Enum,
    Trait,
    Function,
    Let,
}

/// What kind of thing an entry completes to.
#[derive(Clone, Copy, Debug, PartialEq, Eq, Structural)]
pub enum CompletionItemKind {
    Function,
    Keyword,
    Struct,
    Method,
}

/// Whether a function is completed to its name alone or to a call with parameters.
#[derive(Clone, Copy, Debug, PartialEq, Eq, Structural)]
pub enum FunctionCompletionKind {
    Name,
    NameAndParameters,
}

/// One entry of a completion list.
#[derive(Clone, Debug, PartialEq, Eq)]
pub struct CompletionItem {
    /// What the list shows.
    pub label: String,
    pub kind: CompletionItemKind,
    /// What the list shows beside the label.
    pub description: Option<String>,
    /// What is inserted, where that is not the label.
    pub insert_text: Option<String>,
    /// Whether `insert_text` is a snippet with placeholders.
    pub is_snippet: bool,
    /// Whether accepting the entry asks the editor for parameter hints.
    pub triggers_parameter_hints: bool,
}

/// What a [`CompletionItem`] holds, as plain values.
pub struct CompletionItemView {
    pub label: Seq<char>,
    pub kind: CompletionItemKind,
    pub description: Option<Seq<char>>,
    pub insert_text: Option<Seq<char>>,
    pub is_snippet: bool,
    pub triggers_parameter_hints: bool,
}

impl View for CompletionItem {
    type V = CompletionItemView;

    open spec fn view(&self) -> CompletionItemView {
        CompletionItemView {
            label: self.label@,
            kind: self.kind,
            description: option_text(self.description),
            insert_text: option_text(self.insert_text),
            is_snippet: self.is_snippet,
            triggers_parameter_hints: self.triggers_parameter_hints,
        }
    }
}

pub open spec fn items_view(items: Seq<CompletionItem>) -> Seq<CompletionItemView> {
    items.map_values(|i: CompletionItem| i@)
}

/// A function that is built in: its name, its parameters as a snippet, its type.
pub struct BuiltInFunction {
    pub name: &'static str,
    pub parameters: &'static str,
    pub description: &'static str,
}

/// What a [`BuiltInFunction`] holds, as plain values.
pub struct BuiltInFunctionView {
    pub name: Seq<char>,
    pub parameters: Seq<char>,
    pub description: Seq<char>,
}

impl View for BuiltInFunction {
    type V = BuiltInFunctionView;

    open spec fn view(&self) -> BuiltInFunctionView {
        BuiltInFunctionView {
            name: self.name@,
            parameters: self.parameters@,
            description: self.description@,
        }
    }
}

pub open spec fn option_function_view(o: Option<BuiltInFunction>) -> Option<BuiltInFunctionView> {
    match o {
        Some(f) => Some(f@),
        None => None,
    }
}

/// The keywords, each once, in the order in which they are gone through.
pub open spec fn all_keywords() -> Seq<Keyword> {
    seq![
        Keyword::As,
        Keyword::Assert,
        Keyword::AssertEq,
        Keyword::Break,
        Keyword::CallData,
        Keyword::Comptime,
        Keyword::Constrain,
        Keyword::Continue,
        Keyword::Contract,
        Keyword::Crate,
        Keyword::Dep,
        Keyword::Else,
        Keyword::Enum,
        Keyword::Fn,
        Keyword::For,
        Keyword::Global,
        Keyword::If,
        Keyword::Impl,
        Keyword::In,
        Keyword::Let,
        Keyword::Loop,
        Keyword::Match,
        Keyword::Mod,
        Keyword::Mut,
        Keyword::Pub,
        Keyword::Return,
        Keyword::ReturnData,
        Keyword::Struct,
        Keyword::Super,
        Keyword::Trait,
        Keyword::Type,
        Keyword::Unchecked,
        Keyword::Unconstrained,
        Keyword::Unsafe,
        Keyword::Use,
        Keyword::Where,
        Keyword::While,
    ]
}

/// The built-in function that `keyword` names, where it names one.
pub open spec fn builtin_function(keyword: Keyword) -> Option<BuiltInFunctionView> {
    match keyword {
        Keyword::Assert => Some(
            BuiltInFunctionView {
                name: "assert"@,
                parameters: "${1:predicate}"@,
                description: "fn(T)"@,
            },
        ),
        Keyword::AssertEq => Some(
            BuiltInFunctionView {
                name: "assert_eq"@,
                parameters: "${1:lhs}, ${2:rhs}"@,
                description: "fn(T, T)"@,
            },
        ),
        _ => None,
    }
}

/// Whether `name` starts with `prefix`.
pub open spec fn matches_prefix(name: Seq<char>, prefix: Seq<char>) -> bool {
    prefix.is_prefix_of(name)
}

/// An entry that inserts its label.
pub open spec fn simple_item(
    label: Seq<char>,
    kind: CompletionItemKind,
    description: Option<Seq<char>>,
) -> CompletionItemView {
    CompletionItemView {
        label,
        kind,
        description,
        insert_text: None,
        is_snippet: false,
        triggers_parameter_hints: false,
    }
}

/// An entry that inserts a snippet.
pub open spec fn snippet_item(
    label: Seq<char>,
    kind: CompletionItemKind,
    insert_text: Seq<char>,
    description: Option<Seq<char>>,
) -> CompletionItemView {
    CompletionItemView {
        label,
        kind,
        description,
        insert_text: Some(insert_text),
        is_snippet: true,
        triggers_parameter_hints: false,
    }
}

/// `item`, asking for parameter hints when it is accepted.
pub open spec fn with_parameter_hints(item: CompletionItemView) -> CompletionItemView {
    CompletionItemView { triggers_parameter_hints: true, ..item }
}

/// `item` where `wanted` holds, and nothing where it does not.
pub open spec fn item_if(wanted: bool, item: CompletionItemView) -> Seq<CompletionItemView> {
    if wanted {
        seq![item]
    } else {
        Seq::empty()
    }
}

/// The entry of the built-in function `f`.
pub open spec fn function_item(f: BuiltInFunctionView, kind: FunctionCompletionKind)
    -> CompletionItemView {
    let label = match kind {
        FunctionCompletionKind::Name => f.name,
        FunctionCompletionKind::NameAndParameters => f.name + "(…)"@,
    };
    let insert_text = match kind {
        FunctionCompletionKind::Name => f.name,
        FunctionCompletionKind::NameAndParameters => f.name + "("@ + f.parameters + ")"@,
    };
    with_parameter_hints(
        snippet_item(label, CompletionItemKind::Function, insert_text, Some(f.description)),
    )
}

/// The entry of the keyword `k`, where it names a built-in function whose name
/// starts with `prefix`.
pub open spec fn keyword_items(k: Keyword, prefix: Seq<char>, kind: FunctionCompletionKind) -> Seq<
    CompletionItemView,
> {
    match builtin_function(k) {
        Some(f) => item_if(matches_prefix(f.name, prefix), function_item(f, kind)),
        None => Seq::empty(),
    }
}

/// The entries of the built-in functions among `keywords`, in their order.
pub open spec fn builtin_function_items(
    keywords: Seq<Keyword>,
    prefix: Seq<char>,
    kind: FunctionCompletionKind,
) -> Seq<CompletionItemView>
    decreases keywords.len(),
{
    if keywords.len() == 0 {
        Seq::empty()
    } else {
        builtin_function_items(keywords.drop_last(), prefix, kind) + keyword_items(
            keywords.last(),
            prefix,
            kind,
        )
    }
}

/// The entries of the truth values.
pub open spec fn builtin_value_items(prefix: Seq<char>) -> Seq<CompletionItemView> {
    item_if(
        matches_prefix("false"@, prefix),
        simple_item("false"@, CompletionItemKind::Keyword, Some("bool"@)),
    ) + item_if(
        matches_prefix("true"@, prefix),
        simple_item("true"@, CompletionItemKind::Keyword, Some("bool"@)),
    )
}

/// The entry of a primitive type.
pub open spec fn type_item(name: Seq<char>) -> CompletionItemView {
    simple_item(name, CompletionItemKind::Struct, Some(name))
}

/// The entries of the primitive types `names` that start with `prefix`, in their
/// order.
pub open spec fn builtin_type_items(names: Seq<Seq<char>>, prefix: Seq<char>) -> Seq<
    CompletionItemView,
>
    decreases names.len(),
{
    if names.len() == 0 {
        Seq::empty()
    } else {
        builtin_type_items(names.drop_last(), prefix) + item_if(
            matches_prefix(names.last(), prefix),
            type_item(names.last()),
        )
    }
}

/// The entry of an attribute without arguments.
pub open spec fn no_argument_item(name: Seq<char>) -> CompletionItemView {
    simple_item(name, CompletionItemKind::Method, None)
}

/// The entry of an attribute with one argument.
pub open spec fn one_argument_item(name: Seq<char>) -> CompletionItemView {
    snippet_item(name + "(…)"@, CompletionItemKind::Method, name + "(${1:name})"@, None)
}

pub open spec fn no_argument_items(names: Seq<Seq<char>>, prefix: Seq<char>) -> Seq<
    CompletionItemView,
>
    decreases names.len(),
{
    if names.len() == 0 {
        Seq::empty()
    } else {
        no_argument_items(names.drop_last(), prefix) + item_if(
            matches_prefix(names.last(), prefix),
            no_argument_item(names.last()),
        )
    }
}

pub open spec fn one_argument_items(names: Seq<Seq<char>>, prefix: Seq<char>) -> Seq<
    CompletionItemView,
>
    decreases names.len(),
{
    if names.len() == 0 {
        Seq::empty()
    } else {
        one_argument_items(names.drop_last(), prefix) + item_if(
            matches_prefix(names.last(), prefix),
            one_argument_item(names.last()),
        )
    }
}

/// The entry `allow(name)`, suggested for `allow` and for `name`.
pub open spec fn allow_items(name: Seq<char>, prefix: Seq<char>) -> Seq<CompletionItemView> {
    item_if(
        matches_prefix("allow"@, prefix) || matches_prefix(name, prefix),
        simple_item("allow("@ + name + ")"@, CompletionItemKind::Method, None),
    )
}

/// An attribute with an argument of a fixed form, as its own snippet.
pub open spec fn form_item(label: Seq<char>, insert_text: Seq<char>) -> CompletionItemView {
    snippet_item(label, CompletionItemKind::Method, insert_text, None)
}

/// The attributes of a function that take no argument.
pub open spec fn function_attributes() -> Seq<Seq<char>> {
    seq![
        "contract_library_method"@,
        "deprecated"@,
        "export"@,
        "fold"@,
        "no_predicates"@,
        "recursive"@,
        "test"@,
        "fuzz"@,
        "varargs"@,
    ]
}

/// The attributes of a function that take one argument.
pub open spec fn function_argument_attributes() -> Seq<Seq<char>> {
    seq!["abi"@, "field"@, "foreign"@, "oracle"@]
}

/// The entries of the attributes of a function.
pub open spec fn function_attribute_items(prefix: Seq<char>) -> Seq<CompletionItemView> {
    no_argument_items(function_attributes(), prefix) + one_argument_items(
        function_argument_attributes(),
        prefix,
    ) + item_if(
        matches_prefix("deprecated"@, prefix),
        form_item("deprecated(\"...\")"@, "deprecated(\"${1:message}\")"@),
    ) + item_if(
        matches_prefix("test"@, prefix) || matches_prefix("should_fail"@, prefix),
        form_item("test(should_fail)"@, "test(should_fail)"@),
    ) + item_if(
        matches_prefix("test"@, prefix) || matches_prefix("should_fail_with"@, prefix),
        form_item(
            "test(should_fail_with = \"...\")"@,
            "test(should_fail_with = \"${1:message}\")"@,
        ),
    ) + item_if(
        matches_prefix("fuzz"@, prefix) || matches_prefix("only_fail_with"@, prefix),
        form_item(
            "fuzz(only_fail_with = \"...\")"@,
            "fuzz(only_fail_with = \"${1:message}\")"@,
        ),
    ) + item_if(
        matches_prefix("fuzz"@, prefix) || matches_prefix("should_fail"@, prefix),
        form_item("fuzz(should_fail)"@, "fuzz(should_fail)"@),
    ) + item_if(
        matches_prefix("fuzz"@, prefix) || matches_prefix("should_fail_with"@, prefix),
        form_item(
            "fuzz(should_fail_with = \"...\")"@,
            "fuzz(should_fail_with = \"${1:message}\")"@,
        ),
    ) + allow_items("dead_code"@, prefix)
}

/// The entries of the attributes that may stand on `target`.
pub open spec fn attribute_items(target: AttributeTarget, prefix: Seq<char>) -> Seq<
    CompletionItemView,
> {
    match target {
        AttributeTarget::Module => Seq::empty(),
        AttributeTarget::Trait => allow_items("dead_code"@, prefix),
        AttributeTarget::Struct => one_argument_items(seq!["abi"@], prefix) + allow_items(
            "dead_code"@,
            prefix,
        ),
        AttributeTarget::Enum => one_argument_items(seq!["abi"@], prefix) + allow_items(
            "dead_code"@,
            prefix,
        ),
        AttributeTarget::Function => function_attribute_items(prefix),
        AttributeTarget::Let => allow_items("unused_variables"@, prefix),
    }
}

/// The texts of `names`.
pub open spec fn names_view(names: Seq<&'static str>) -> Seq<Seq<char>> {
    names.map_values(|s: &'static str| s@)
}

/// The texts of `names`.
pub open spec fn strings_view(names: Seq<String>) -> Seq<Seq<char>> {
    names.map_values(|s: String| s@)
}

impl Keyword {
    /// Every keyword, once.
    pub fn all() -> (keywords: Vec<Keyword>)
        ensures
            keywords@ == all_keywords(),
    {
        let keywords = vec![
            Keyword::As,
            Keyword::Assert,
            Keyword::AssertEq,
            Keyword::Break,
            Keyword::CallData,
            Keyword::Comptime,
            Keyword::Constrain,
            Keyword::Continue,
            Keyword::Contract,
            Keyword::Crate,
            Keyword::Dep,
            Keyword::Else,
            Keyword::Enum,
            Keyword::Fn,
            Keyword::For,
            Keyword::Global,
            Keyword::If,
            Keyword::Impl,
            Keyword::In,
            Keyword::Let,
            Keyword::Loop,
            Keyword::Match,
            Keyword::Mod,
            Keyword::Mut,
            Keyword::Pub,
            Keyword::Return,
            Keyword::ReturnData,
            Keyword::Struct,
            Keyword::Super,
            Keyword::Trait,
            Keyword::Type,
            Keyword::Unchecked,
            Keyword::Unconstrained,
            Keyword::Unsafe,
            Keyword::Use,
            Keyword::Where,
            Keyword::While,
        ];
        proof {
            assert(keywords@ =~= all_keywords());
        }
        keywords
    }
}

/// Whether `name` starts with `prefix`.
pub fn name_matches(name: &str, prefix: &str) -> (b: bool)
    ensures
        b == matches_prefix(name@, prefix@),
{
    let n = to_chars(name);
    let p = to_chars(prefix);
    if p.len() > n.len() {
        return false;
    }
    let mut i: usize = 0;
    while i < p.len()
        invariant
            i <= p.len(),
            p.len() <= n.len(),
            n@ == name@,
            p@ == prefix@,
            forall|k: int| 0 <= k < i ==> p@[k] == n@[k],
        decreases p.len() - i,
    {
        if p[i] != n[i] {
            proof {
                assert(n@.subrange(0, p@.len() as int)[i as int] == n@[i as int]);
            }
            return false;
        }
        i += 1;
    }
    proof {
        assert(p@ =~= n@.subrange(0, p@.len() as int));
    }
    true
}

/// If a keyword corresponds to a built-in function, returns info about it.
pub fn keyword_builtin_function(keyword: &Keyword) -> (r: Option<BuiltInFunction>)
    ensures
        option_function_view(r) == builtin_function(*keyword),
{
    match keyword {
        Keyword::Assert => Some(
            BuiltInFunction { name: "assert", parameters: "${1:predicate}", description: "fn(T)" },
        ),
        Keyword::AssertEq => Some(
            BuiltInFunction {
                name: "assert_eq",
                parameters: "${1:lhs}, ${2:rhs}",
                description: "fn(T, T)",
            },
        ),
        Keyword::As
        | Keyword::Break
        | Keyword::CallData
        | Keyword::Comptime
        | Keyword::Constrain
        | Keyword::Continue
        | Keyword::Contract
        | Keyword::Crate
        | Keyword::Dep
        | Keyword::Else
        | Keyword::Enum
        | Keyword::Fn
        | Keyword::For
        | Keyword::Global
        | Keyword::If
        | Keyword::Impl
        | Keyword::In
        | Keyword::Let
        | Keyword::Loop
        | Keyword::Match
        | Keyword::Mod
        | Keyword::Mut
        | Keyword::Pub
        | Keyword::Return
        | Keyword::ReturnData
        | Keyword::Struct
        | Keyword::Super
        | Keyword::Trait
        | Keyword::Type
        | Keyword::Unchecked
        | Keyword::Unconstrained
        | Keyword::Unsafe
        | Keyword::Use
        | Keyword::Where
        | Keyword::While => None,
    }
}

/// An entry that inserts its label.
pub fn simple_completion_item(
    label: String,
    kind: CompletionItemKind,
    description: Option<String>,
) -> (item: CompletionItem)
    ensures
        item@ == simple_item(label@, kind, option_text(description)),
{
    CompletionItem {
        label,
        kind,
        description,
        insert_text: None,
        is_snippet: false,
        triggers_parameter_hints: false,
    }
}

/// An entry that inserts a snippet.
pub fn snippet_completion_item(
    label: String,
    kind: CompletionItemKind,
    insert_text: String,
    description: Option<String>,
) -> (item: CompletionItem)
    ensures
        item@ == snippet_item(label@, kind, insert_text@, option_text(description)),
{
    CompletionItem {
        label,
        kind,
        description,
        insert_text: Some(insert_text),
        is_snippet: true,
        triggers_parameter_hints: false,
    }
}

/// `completion_item`, asking for parameter hints when it is accepted.
pub fn completion_item_with_trigger_parameter_hints_command(completion_item: CompletionItem) -> (item:
    CompletionItem)
    ensures
        item@ == with_parameter_hints(completion_item@),
{
    let CompletionItem { label, kind, description, insert_text, is_snippet, triggers_parameter_hints } =
        completion_item;
    CompletionItem {
        label,
        kind,
        description,
        insert_text,
        is_snippet,
        triggers_parameter_hints: true,
    }
}

/// Collects the completion entries for one place in the source.
pub struct NodeFinder {
    pub completion_items: Vec<CompletionItem>,
}

impl View for NodeFinder {
    type V = Seq<CompletionItemView>;

    open spec fn view(&self) -> Seq<CompletionItemView> {
        items_view(self.completion_items@)
    }
}

impl NodeFinder {
    /// A finder that has collected nothing.
    pub fn new() -> (finder: NodeFinder)
        ensures
            finder@ == Seq::<CompletionItemView>::empty(),
    {
        NodeFinder { completion_items: Vec::new() }
    }

    fn suggest(&mut self, wanted: bool, item: CompletionItem)
        ensures
            final(self)@ == old(self)@ + item_if(wanted, item@),
    {
        if wanted {
            proof {
                assert(items_view(self.completion_items@.push(item)) =~= self@ + seq![item@]);
            }
            self.completion_items.push(item);
        } else {
            proof {
                assert(self@ + Seq::<CompletionItemView>::empty() =~= self@);
            }
        }
    }

    /// Suggests the built-in functions whose name starts with `prefix`.
    pub fn builtin_functions_completion(
        &mut self,
        prefix: &str,
        function_completion_kind: FunctionCompletionKind,
    )
        ensures
            final(self)@ == old(self)@ + builtin_function_items(
                all_keywords(),
                prefix@,
                function_completion_kind,
            ),
    {
        let ghost start = self@;
        let keywords = Keyword::all();
        let mut i: usize = 0;
        proof {
            assert(keywords@.take(0) =~= Seq::empty());
            assert(start + Seq::<CompletionItemView>::empty() =~= start);
        }
        while i < keywords.len()
            invariant
                i <= keywords.len(),
                self@ == start + builtin_function_items(
                    keywords@.take(i as int),
                    prefix@,
                    function_completion_kind,
                ),
            decreases keywords.len() - i,
        {
            let ghost before = builtin_function_items(
                keywords@.take(i as int),
                prefix@,
                function_completion_kind,
            );
            proof {
                let next = keywords@.take(i + 1);
                assert(next.drop_last() =~= keywords@.take(i as int));
                assert(next.last() == keywords@[i as int]);
            }
            let ghost added = keyword_items(keywords@[i as int], prefix@, function_completion_kind);
            match keyword_builtin_function(&keywords[i]) {
                Some(func) => {
                    let wanted = name_matches(func.name, prefix);
                    let description = Some(String::from_str(func.description));
                    let mut label = String::from_str(func.name);
                    let mut insert_text = String::from_str(func.name);
                    match function_completion_kind {
                        FunctionCompletionKind::Name => {},
                        FunctionCompletionKind::NameAndParameters => {
                            label.append("(…)");
                            insert_text.append("(");
                            insert_text.append(func.parameters);
                            insert_text.append(")");
                        },
                    }
                    let item = completion_item_with_trigger_parameter_hints_command(
                        snippet_completion_item(
                            label,
                            CompletionItemKind::Function,
                            insert_text,
                            description,
                        ),
                    );
                    self.suggest(wanted, item);
                },
                None => {
                    proof {
                        assert(self@ + Seq::<CompletionItemView>::empty() =~= self@);
                    }
                },
            }
            proof {
                assert(start + before + added =~= start + (before + added));
            }
            i += 1;
        }
        proof {
            assert(keywords@.take(keywords.len() as int) =~= keywords@);
        }
    }

    /// Suggests the truth values that start with `prefix`.
    pub fn builtin_values_completion(&mut self, prefix: &str)
        ensures
            final(self)@ == old(self)@ + builtin_value_items(prefix@),
    {
        let ghost start = self@;
        let first = simple_completion_item(
            String::from_str("false"),
            CompletionItemKind::Keyword,
            Some(String::from_str("bool")),
        );
        self.suggest(name_matches("false", prefix), first);
        let second = simple_completion_item(
            String::from_str("true"),
            CompletionItemKind::Keyword,
            Some(String::from_str("bool")),
        );
        self.suggest(name_matches("true", prefix), second);
        proof {
            assert(self@ =~= start + builtin_value_items(prefix@));
        }
    }

    /// Suggests the primitive types among `names` that start with `prefix`.
    pub fn builtin_types_completion(&mut self, prefix: &str, names: &Vec<String>)
        ensures
            final(self)@ == old(self)@ + builtin_type_items(strings_view(names@), prefix@),
    {
        let ghost start = self@;
        let ghost nv = strings_view(names@);
        let mut i: usize = 0;
        proof {
            assert(nv.take(0) =~= Seq::empty());
            assert(start + Seq::<CompletionItemView>::empty() =~= start);
        }
        while i < names.len()
            invariant
                i <= names.len(),
                nv == strings_view(names@),
                self@ == start + builtin_type_items(nv.take(i as int), prefix@),
            decreases names.len() - i,
        {
            let ghost before = builtin_type_items(nv.take(i as int), prefix@);
            proof {
                let next = nv.take(i + 1);
                assert(next.drop_last() =~= nv.take(i as int));
                assert(next.last() == names@[i as int]@);
            }
            let name = &names[i];
            let item = simple_completion_item(
                name.clone(),
                CompletionItemKind::Struct,
                Some(name.clone()),
            );
            self.suggest(name_matches(name.as_str(), prefix), item);
            proof {
                let added = item_if(matches_prefix(name@, prefix@), type_item(name@));
                assert(start + before + added =~= start + (before + added));
            }
            i += 1;
        }
        proof {
            assert(nv.take(names.len() as int) =~= nv);
        }
    }

    /// Suggests the attributes without arguments among `names` that start with
    /// `prefix`.
    pub fn suggest_no_arguments_attributes(&mut self, prefix: &str, names: &Vec<&'static str>)
        ensures
            final(self)@ == old(self)@ + no_argument_items(names_view(names@), prefix@),
    {
        let ghost start = self@;
        let ghost nv = names_view(names@);
        let mut i: usize = 0;
        proof {
            assert(nv.take(0) =~= Seq::empty());
            assert(start + Seq::<CompletionItemView>::empty() =~= start);
        }
        while i < names.len()
            invariant
                i <= names.len(),
                nv == names_view(names@),
                self@ == start + no_argument_items(nv.take(i as int), prefix@),
            decreases names.len() - i,
        {
            let ghost before = no_argument_items(nv.take(i as int), prefix@);
            proof {
                let next = nv.take(i + 1);
                assert(next.drop_last() =~= nv.take(i as int));
                assert(next.last() == names@[i as int]@);
            }
            let name = names[i];
            let item = simple_completion_item(
                String::from_str(name),
                CompletionItemKind::Method,
                None,
            );
            self.suggest(name_matches(name, prefix), item);
            proof {
                let added = item_if(matches_prefix(name@, prefix@), no_argument_item(name@));
                assert(start + before + added =~= start + (before + added));
            }
            i += 1;
        }
        proof {
            assert(nv.take(names.len() as int) =~= nv);
        }
    }

    /// Suggests the attributes with one argument among `names` that start with
    /// `prefix`.
    pub fn suggest_one_argument_attributes(&mut self, prefix: &str, names: &Vec<&'static str>)
        ensures
            final(self)@ == old(self)@ + one_argument_items(names_view(names@), prefix@),
    {
        let ghost start = self@;
        let ghost nv = names_view(names@);
        let mut i: usize = 0;
        proof {
            assert(nv.take(0) =~= Seq::empty());
            assert(start + Seq::<CompletionItemView>::empty() =~= start);
        }
        while i < names.len()
            invariant
                i <= names.len(),
                nv == names_view(names@),
                self@ == start + one_argument_items(nv.take(i as int), prefix@),
            decreases names.len() - i,
        {
            let ghost before = one_argument_items(nv.take(i as int), prefix@);
            proof {
                let next = nv.take(i + 1);
                assert(next.drop_last() =~= nv.take(i as int));
                assert(next.last() == names@[i as int]@);
            }
            let name = names[i];
            let mut label = String::from_str(name);
            label.append("(…)");
            let mut insert_text = String::from_str(name);
            insert_text.append("(${1:name})");
            let item = snippet_completion_item(
                label,
                CompletionItemKind::Method,
                insert_text,
                None,
            );
            self.suggest(name_matches(name, prefix), item);
            proof {
                let added = item_if(matches_prefix(name@, prefix@), one_argument_item(name@));
                assert(start + before + added =~= start + (before + added));
            }
            i += 1;
        }
        proof {
            assert(nv.take(names.len() as int) =~= nv);
        }
    }

    /// Suggests `allow(name)` where `prefix` starts `allow` or `name`.
    pub fn suggest_allow(&mut self, name: &'static str, prefix: &str)
        ensures
            final(self)@ == old(self)@ + allow_items(name@, prefix@),
    {
        let wanted = name_matches("allow", prefix) || name_matches(name, prefix);
        let mut label = String::from_str("allow(");
        label.append(name);
        label.append(")");
        let item = simple_completion_item(label, CompletionItemKind::Method, None);
        self.suggest(wanted, item);
    }

    fn suggest_form(&mut self, wanted: bool, label: &'static str, insert_text: &'static str)
        ensures
            final(self)@ == old(self)@ + item_if(wanted, form_item(label@, insert_text@)),
    {
        let item = snippet_completion_item(
            String::from_str(label),
            CompletionItemKind::Method,
            String::from_str(insert_text),
            None,
        );
        self.suggest(wanted, item);
    }

    fn suggest_function_attributes(&mut self, prefix: &str)
        ensures
            final(self)@ == old(self)@ + function_attribute_items(prefix@),
    {
        let ghost start = self@;
        let ghost p = prefix@;
        let no_arguments_attributes = vec![
            "contract_library_method",
            "deprecated",
            "export",
            "fold",
            "no_predicates",
            "recursive",
            "test",
            "fuzz",
            "varargs",
        ];
        proof {
            assert(names_view(no_arguments_attributes@) =~= function_attributes());
        }
        self.suggest_no_arguments_attributes(prefix, &no_arguments_attributes);
        let ghost s1 = no_argument_items(function_attributes(), p);
        let one_argument_attributes = vec!["abi", "field", "foreign", "oracle"];
        proof {
            assert(names_view(one_argument_attributes@) =~= function_argument_attributes());
        }
        self.suggest_one_argument_attributes(prefix, &one_argument_attributes);
        let ghost s2 = s1 + one_argument_items(function_argument_attributes(), p);
        proof {
            lemma_items_assoc(start, s1, one_argument_items(function_argument_attributes(), p));
        }
        let deprecated = name_matches("deprecated", prefix);
        let test = name_matches("test", prefix);
        let fuzz = name_matches("fuzz", prefix);
        let should_fail = name_matches("should_fail", prefix);
        let should_fail_with = name_matches("should_fail_with", prefix);
        let only_fail_with = name_matches("only_fail_with", prefix);
        self.suggest_form(deprecated, "deprecated(\"...\")", "deprecated(\"${1:message}\")");
        let ghost a3 = item_if(
            deprecated,
            form_item("deprecated(\"...\")"@, "deprecated(\"${1:message}\")"@),
        );
        let ghost s3 = s2 + a3;
        proof {
            lemma_items_assoc(start, s2, a3);
        }
        self.suggest_form(test || should_fail, "test(should_fail)", "test(should_fail)");
        let ghost a4 = item_if(
            test || should_fail,
            form_item("test(should_fail)"@, "test(should_fail)"@),
        );
        let ghost s4 = s3 + a4;
        proof {
            lemma_items_assoc(start, s3, a4);
        }
        self.suggest_form(
            test || should_fail_with,
            "test(should_fail_with = \"...\")",
            "test(should_fail_with = \"${1:message}\")",
        );
        let ghost a5 = item_if(
            test || should_fail_with,
            form_item(
                "test(should_fail_with = \"...\")"@,
                "test(should_fail_with = \"${1:message}\")"@,
            ),
        );
        let ghost s5 = s4 + a5;
        proof {
            lemma_items_assoc(start, s4, a5);
        }
        self.suggest_form(
            fuzz || only_fail_with,
            "fuzz(only_fail_with = \"...\")",
            "fuzz(only_fail_with = \"${1:message}\")",
        );
        let ghost a6 = item_if(
            fuzz || only_fail_with,
            form_item(
                "fuzz(only_fail_with = \"...\")"@,
                "fuzz(only_fail_with = \"${1:message}\")"@,
            ),
        );
        let ghost s6 = s5 + a6;
        proof {
            lemma_items_assoc(start, s5, a6);
        }
        self.suggest_form(fuzz || should_fail, "fuzz(should_fail)", "fuzz(should_fail)");
        let ghost a7 = item_if(
            fuzz || should_fail,
            form_item("fuzz(should_fail)"@, "fuzz(should_fail)"@),
        );
        let ghost s7 = s6 + a7;
        proof {
            lemma_items_assoc(start, s6, a7);
        }
        self.suggest_form(
            fuzz || should_fail_with,
            "fuzz(should_fail_with = \"...\")",
            "fuzz(should_fail_with = \"${1:message}\")",
        );
        let ghost a8 = item_if(
            fuzz || should_fail_with,
            form_item(
                "fuzz(should_fail_with = \"...\")"@,
                "fuzz(should_fail_with = \"${1:message}\")"@,
            ),
        );
        let ghost s8 = s7 + a8;
        proof {
            lemma_items_assoc(start, s7, a8);
        }
        self.suggest_allow("dead_code", prefix);
        proof {
            lemma_items_assoc(start, s8, allow_items("dead_code"@, p));
            assert(s8 + allow_items("dead_code"@, p) == function_attribute_items(p));
        }
    }

    /// Suggests the attributes that may stand on `target` and that `prefix` starts.
    pub fn suggest_builtin_attributes(&mut self, prefix: &str, target: AttributeTarget)
        ensures
            final(self)@ == old(self)@ + attribute_items(target, prefix@),
    {
        let ghost start = self@;
        match target {
            AttributeTarget::Module => {
                proof {
                    assert(start + Seq::<CompletionItemView>::empty() =~= start);
                }
            },
            AttributeTarget::Trait => {
                self.suggest_allow("dead_code", prefix);
            },
            AttributeTarget::Struct => {
                let names = vec!["abi"];
                proof {
                    assert(names_view(names@) =~= seq!["abi"@]);
                }
                self.suggest_one_argument_attributes(prefix, &names);
                self.suggest_allow("dead_code", prefix);
                proof {
                    assert(self@ =~= start + attribute_items(target, prefix@));
                }
            },
            AttributeTarget::Enum => {
                let names = vec!["abi"];
                proof {
                    assert(names_view(names@) =~= seq!["abi"@]);
                }
                self.suggest_one_argument_attributes(prefix, &names);
                self.suggest_allow("dead_code", prefix);
                proof {
                    assert(self@ =~= start + attribute_items(target, prefix@));
                }
            },
            AttributeTarget::Function => {
                self.suggest_function_attributes(prefix);
            },
            AttributeTarget::Let => {
                self.suggest_allow("unused_variables", prefix);
            },
        }
    }
}

proof fn lemma_items_assoc(
    a: Seq<CompletionItemView>,
    b: Seq<CompletionItemView>,
    c: Seq<CompletionItemView>,
)
    ensures
        a + b + c == a + (b + c),
{
    assert(a + b + c =~= a + (b + c));
}

proof fn lemma_function_items_concat(
    a: Seq<Keyword>,
    b: Seq<Keyword>,
    prefix: Seq<char>,
    kind: FunctionCompletionKind,
)
    ensures
        builtin_function_items(a + b, prefix, kind) == builtin_function_items(a, prefix, kind)
            + builtin_function_items(b, prefix, kind),
    decreases b.len(),
{
    let x = builtin_function_items(a, prefix, kind);
    if b.len() == 0 {
        assert(a + b =~= a);
        assert(x + Seq::<CompletionItemView>::empty() =~= x);
    } else {
        assert((a + b).drop_last() =~= a + b.drop_last());
        assert((a + b).last() == b.last());
        lemma_function_items_concat(a, b.drop_last(), prefix, kind);
        lemma_items_assoc(
            x,
            builtin_function_items(b.drop_last(), prefix, kind),
            keyword_items(b.last(), prefix, kind),
        );
    }
}

proof fn lemma_no_function_items(ks: Seq<Keyword>, prefix: Seq<char>, kind: FunctionCompletionKind)
    requires
        forall|i: int| 0 <= i < ks.len() ==> builtin_function(#[trigger] ks[i]) is None,
    ensures
        builtin_function_items(ks, prefix, kind) == Seq::<CompletionItemView>::empty(),
    decreases ks.len(),
{
    if ks.len() > 0 {
        assert forall|i: int| 0 <= i < ks.drop_last().len() implies builtin_function(
            #[trigger] ks.drop_last()[i],
        ) is None by {
            assert(ks.drop_last()[i] == ks[i]);
        }
        lemma_no_function_items(ks.drop_last(), prefix, kind);
        assert(builtin_function(ks.last()) is None);
        assert(Seq::<CompletionItemView>::empty() + Seq::<CompletionItemView>::empty() =~= Seq::<
            CompletionItemView,
        >::empty());
    }
}

/// Of all keywords only `assert` and `assert_eq` name a built-in function: what is
/// suggested is the entry of the first, then that of the second, each where its
/// name starts with the prefix.
pub proof fn law_builtin_functions(prefix: Seq<char>, kind: FunctionCompletionKind)
    ensures
        builtin_function_items(all_keywords(), prefix, kind) == keyword_items(
            Keyword::Assert,
            prefix,
            kind,
        ) + keyword_items(Keyword::AssertEq, prefix, kind),
{
    let ks = all_keywords();
    let head = seq![Keyword::As];
    let two = seq![Keyword::Assert, Keyword::AssertEq];
    let rest = ks.subrange(3, 37);
    assert(ks =~= head + two + rest);
    assert forall|i: int| 0 <= i < rest.len() implies builtin_function(#[trigger] rest[i])
        is None by {
        assert(rest[i] == ks[i + 3]);
    }
    lemma_no_function_items(head, prefix, kind);
    lemma_no_function_items(rest, prefix, kind);
    lemma_function_items_concat(head + two, rest, prefix, kind);
    lemma_function_items_concat(head, two, prefix, kind);
    let first = keyword_items(Keyword::Assert, prefix, kind);
    let second = keyword_items(Keyword::AssertEq, prefix, kind);
    assert(builtin_function_items(two, prefix, kind) == first + second) by {
        reveal_with_fuel(builtin_function_items, 3);
        assert(two.drop_last() =~= seq![Keyword::Assert]);
        assert(two.drop_last().drop_last() =~= Seq::<Keyword>::empty());
        assert(Seq::<CompletionItemView>::empty() + first =~= first);
    }
    assert(Seq::<CompletionItemView>::empty() + (first + second) + Seq::<
        CompletionItemView,
    >::empty() =~= first + second);
}

/// Every keyword is gone through, and none twice.
pub proof fn law_keywords_listed_once(k: Keyword)
    ensures
        all_keywords().contains(k),
        forall|i: int, j: int|
            0 <= i < j < all_keywords().len() ==> all_keywords()[i] != all_keywords()[j],
{
    let ks = all_keywords();
    let i: int = match k {
        Keyword::As => 0,
        Keyword::Assert => 1,
        Keyword::AssertEq => 2,
        Keyword::Break => 3,
        Keyword::CallData => 4,
        Keyword::Comptime => 5,
        Keyword::Constrain => 6,
        Keyword::Continue => 7,
        Keyword::Contract => 8,
        Keyword::Crate => 9,
        Keyword::Dep => 10,
        Keyword::Else => 11,
        Keyword::Enum => 12,
        Keyword::Fn => 13,
        Keyword::For => 14,
        Keyword::Global => 15,
        Keyword::If => 16,
        Keyword::Impl => 17,
        Keyword::In => 18,
        Keyword::Let => 19,
        Keyword::Loop => 20,
        Keyword::Match => 21,
        Keyword::Mod => 22,
        Keyword::Mut => 23,
        Keyword::Pub => 24,
        Keyword::Return => 25,
        Keyword::ReturnData => 26,
        Keyword::Struct => 27,
        Keyword::Super => 28,
        Keyword::Trait => 29,
        Keyword::Type => 30,
        Keyword::Unchecked => 31,
        Keyword::Unconstrained => 32,
        Keyword::Unsafe => 33,
        Keyword::Use => 34,
        Keyword::Where => 35,
        Keyword::While => 36,
    };
    assert(ks[i] == k);
}

} // verus!
