//! Declarations as the formatter reads them.

use vstd::prelude::*;
use crate::lexer::{all_tokens, tokens_view};
use crate::pattern::{
    normalized, pattern_ok, pattern_tokens, BindingKeyword, PatternNode, PatternView,
};

verus! {

/// Who may see a declaration.
#[derive(Clone, Copy, Debug, PartialEq, Eq, Structural)]
pub enum Visibility {
    Private,
    Public,
    PublicCrate,
}

/// A type annotation, as the tokens it is written with.
#[derive(Debug, PartialEq, Eq)]
pub struct TypeNode {
    pub tokens: Vec<String>,
}

/// An initializer expression, as the tokens it is written with.
#[derive(Debug, PartialEq, Eq)]
pub struct ExprNode {
    pub tokens: Vec<String>,
}

/// An attribute, as the tokens between `#[` and `]`.
#[derive(Debug, PartialEq, Eq)]
pub struct AttributeNode {
    pub tokens: Vec<String>,
}

/// A `let` or `global` declaration. The keyword is no part of it.
#[derive(Debug, PartialEq, Eq)]
pub struct Declaration {
    pub visibility: Visibility,
    pub is_comptime: bool,
    pub pattern: PatternNode,
    pub type_annotation: Option<TypeNode>,
    pub initializer: Option<ExprNode>,
    pub attributes: Vec<AttributeNode>,
}

/// What a [`Declaration`] holds, as plain values.
pub struct DeclarationView {
    pub visibility: Visibility,
    pub is_comptime: bool,
    pub pattern: PatternView,
    pub type_annotation: Option<Seq<Seq<char>>>,
    pub initializer: Option<Seq<Seq<char>>>,
    pub attributes: Seq<Seq<Seq<char>>>,
}

impl View for TypeNode {
    type V = Seq<Seq<char>>;

    open spec fn view(&self) -> Seq<Seq<char>> {
        tokens_view(self.tokens@)
    }
}

impl View for ExprNode {
    type V = Seq<Seq<char>>;

    open spec fn view(&self) -> Seq<Seq<char>> {
        tokens_view(self.tokens@)
    }
}

impl View for AttributeNode {
    type V = Seq<Seq<char>>;

    open spec fn view(&self) -> Seq<Seq<char>> {
        tokens_view(self.tokens@)
    }
}

pub open spec fn attributes_view(attrs: Seq<AttributeNode>) -> Seq<Seq<Seq<char>>> {
    attrs.map_values(|a: AttributeNode| a@)
}

pub open spec fn option_type_view(o: Option<TypeNode>) -> Option<Seq<Seq<char>>> {
    match o {
        Some(t) => Some(t@),
        None => None,
    }
}

pub open spec fn option_expr_view(o: Option<ExprNode>) -> Option<Seq<Seq<char>>> {
    match o {
        Some(e) => Some(e@),
        None => None,
    }
}

impl View for Declaration {
    type V = DeclarationView;

    open spec fn view(&self) -> DeclarationView {
        DeclarationView {
            visibility: self.visibility,
            is_comptime: self.is_comptime,
            pattern: self.pattern@,
            type_annotation: option_type_view(self.type_annotation),
            initializer: option_expr_view(self.initializer),
            attributes: attributes_view(self.attributes@),
        }
    }
}

/// Whether `ts` can be written as an attribute: tokens, at least one, none of them
/// the bracket that would close it early.
pub open spec fn attribute_ok(ts: Seq<Seq<char>>) -> bool {
    ts.len() > 0 && all_tokens(ts) && !ts.contains("]"@)
}

/// Whether `ts` can be written as a type annotation: tokens, at least one, none of
/// them `=` or `;`.
pub open spec fn type_ok(ts: Seq<Seq<char>>) -> bool {
    ts.len() > 0 && all_tokens(ts) && !ts.contains("="@) && !ts.contains(";"@)
}

/// Whether `ts` can be written as an initializer: tokens, at least one, none of
/// them `;`.
pub open spec fn initializer_ok(ts: Seq<Seq<char>>) -> bool {
    ts.len() > 0 && all_tokens(ts) && !ts.contains(";"@)
}

pub open spec fn attributes_ok(attrs: Seq<Seq<Seq<char>>>) -> bool {
    forall|i: int| 0 <= i < attrs.len() ==> attribute_ok(#[trigger] attrs[i])
}

/// Whether every part of `d` has a written form.
pub open spec fn declaration_ok(d: DeclarationView) -> bool {
    &&& attributes_ok(d.attributes)
    &&& pattern_ok(normalized(d.pattern).1)
    &&& (d.type_annotation matches Some(ty) ==> type_ok(ty))
    &&& (d.initializer matches Some(init) ==> initializer_ok(init))
}

/// The tokens of one attribute with its brackets.
pub open spec fn attribute_tokens(a: Seq<Seq<char>>) -> Seq<Seq<char>> {
    seq!["#"@, "["@] + a + seq!["]"@]
}

/// The tokens of all attributes, in order.
pub open spec fn attributes_tokens(attrs: Seq<Seq<Seq<char>>>) -> Seq<Seq<char>>
    decreases attrs.len(),
{
    if attrs.len() == 0 {
        Seq::empty()
    } else {
        attribute_tokens(attrs[0]) + attributes_tokens(attrs.skip(1))
    }
}

pub open spec fn visibility_tokens(v: Visibility) -> Seq<Seq<char>> {
    match v {
        Visibility::Private => Seq::empty(),
        Visibility::Public => seq!["pub"@],
        Visibility::PublicCrate => seq!["pub"@, "("@, "crate"@, ")"@],
    }
}

pub open spec fn flag_tokens(present: bool, word: Seq<char>) -> Seq<Seq<char>> {
    if present {
        seq![word]
    } else {
        Seq::empty()
    }
}

pub open spec fn keyword_token(keyword: BindingKeyword) -> Seq<char> {
    match keyword {
        BindingKeyword::Let => "let"@,
        BindingKeyword::Global => "global"@,
    }
}

pub open spec fn type_tokens(ty: Option<Seq<Seq<char>>>) -> Seq<Seq<char>> {
    match ty {
        Some(ts) => seq![":"@] + ts,
        None => Seq::empty(),
    }
}

pub open spec fn initializer_tokens(init: Option<Seq<Seq<char>>>) -> Seq<Seq<char>> {
    match init {
        Some(ts) => seq!["="@] + ts,
        None => Seq::empty(),
    }
}

/// The modifiers, the keyword and the pattern of `d`, in the order in which they are
/// written: visibility, `comptime`, `mut`, keyword, pattern.
pub open spec fn binding_tokens(d: DeclarationView, keyword: BindingKeyword) -> Seq<Seq<char>> {
    visibility_tokens(d.visibility) + flag_tokens(d.is_comptime, "comptime"@) + flag_tokens(
        normalized(d.pattern).0 is Some,
        "mut"@,
    ) + seq![keyword_token(keyword)] + pattern_tokens(normalized(d.pattern).1)
}

/// The tokens of `d` from its first modifier to its semicolon.
pub open spec fn body_tokens(d: DeclarationView, keyword: BindingKeyword) -> Seq<Seq<char>> {
    binding_tokens(d, keyword) + type_tokens(d.type_annotation) + initializer_tokens(
        d.initializer,
    ) + seq![";"@]
}

/// All tokens of `d`, in the order in which they are written: the attributes, then
/// visibility, `comptime`, `mut`, the keyword, the pattern, the type, the
/// initializer and the semicolon.
pub open spec fn declaration_tokens(d: DeclarationView, keyword: BindingKeyword) -> Seq<
    Seq<char>,
> {
    attributes_tokens(d.attributes) + body_tokens(d, keyword)
}

} // verus!
