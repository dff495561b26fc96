//! Binding patterns, and the one place that decides whether a declaration is `mut`.
//!
//! The marker `mut` reaches a declaration in two shapes: as a flag on an identifier,
//! or as a wrapper around the pattern, which is how `mut global x` is stored. The
//! normalizer turns both into one modifier beside a pattern that carries none.

use vstd::prelude::*;
use crate::lexer::{all_tokens, is_word_token, tokens_view};
use crate::text::is_digit;

verus! {

/// The keyword that opens a declaration.
#[derive(Clone, Copy, Debug, PartialEq, Eq, Structural)]
pub enum BindingKeyword {
    Let,
    Global,
}

/// A modifier that the normalizer takes out of a pattern.
#[derive(Clone, Copy, Debug, PartialEq, Eq, Structural)]
pub enum Modifier {
    Mut,
}

/// A binding pattern. A tuple, a struct pattern and a parenthesized pattern hold the
/// tokens they are written with; an interned pattern has no written form.
#[derive(Debug, PartialEq, Eq)]
pub enum PatternNode {
    Identifier { name: String, is_mut: bool },
    MutWrapped(Box<PatternNode>),
    Tuple(Vec<String>),
    Struct(Vec<String>),
    Parenthesized(Vec<String>),
    Interned,
}

/// What a [`PatternNode`] holds, as plain values.
pub enum PatternView {
    Identifier { name: Seq<char>, is_mut: bool },
    MutWrapped(Box<PatternView>),
    Tuple(Seq<Seq<char>>),
    Struct(Seq<Seq<char>>),
    Parenthesized(Seq<Seq<char>>),
    Interned,
}

pub open spec fn pattern_view(p: PatternNode) -> PatternView
    decreases p,
{
    match p {
        PatternNode::Identifier { name, is_mut } => PatternView::Identifier { name: name@, is_mut },
        PatternNode::MutWrapped(inner) => PatternView::MutWrapped(Box::new(pattern_view(*inner))),
        PatternNode::Tuple(ts) => PatternView::Tuple(tokens_view(ts@)),
        PatternNode::Struct(ts) => PatternView::Struct(tokens_view(ts@)),
        PatternNode::Parenthesized(ts) => PatternView::Parenthesized(tokens_view(ts@)),
        PatternNode::Interned => PatternView::Interned,
    }
}

impl View for PatternNode {
    type V = PatternView;

    open spec fn view(&self) -> PatternView {
        pattern_view(*self)
    }
}

/// Whether `t` is a name: a word that starts with no digit.
pub open spec fn is_identifier(t: Seq<char>) -> bool {
    is_word_token(t) && !is_digit(t[0])
}

/// Whether the top of `p` carries the marker `mut`.
pub open spec fn carries_mut(p: PatternView) -> bool {
    match p {
        PatternView::Identifier { is_mut, .. } => is_mut,
        PatternView::MutWrapped(_) => true,
        _ => false,
    }
}

/// Whether at most one of the flag and the wrapper marks `p` as `mut`.
pub open spec fn single_mut(p: PatternView) -> bool {
    match p {
        PatternView::MutWrapped(inner) => !carries_mut(*inner),
        _ => true,
    }
}

/// Whether `p` may be the pattern of a global: one identifier, marked `mut` at most
/// once.
pub open spec fn legal_global(p: PatternView) -> bool {
    match p {
        PatternView::Identifier { .. } => true,
        PatternView::MutWrapped(inner) => *inner is Identifier && !carries_mut(*inner),
        _ => false,
    }
}

/// Whether `p` may be the pattern of a declaration that `keyword` opens.
pub open spec fn legal_for(p: PatternView, keyword: BindingKeyword) -> bool {
    match keyword {
        BindingKeyword::Global => legal_global(p),
        BindingKeyword::Let => single_mut(p),
    }
}

/// The modifier of `p`, and `p` without it.
pub open spec fn normalized(p: PatternView) -> (Option<Modifier>, PatternView) {
    match p {
        PatternView::Identifier { name, is_mut } => (
            if is_mut {
                Some(Modifier::Mut)
            } else {
                None
            },
            PatternView::Identifier { name, is_mut: false },
        ),
        PatternView::MutWrapped(inner) => (Some(Modifier::Mut), *inner),
        _ => (None, p),
    }
}

/// The tokens that `p` is written with.
pub open spec fn pattern_tokens(p: PatternView) -> Seq<Seq<char>>
    decreases p,
{
    match p {
        PatternView::Identifier { name, is_mut } => if is_mut {
            seq!["mut"@, name]
        } else {
            seq![name]
        },
        PatternView::MutWrapped(inner) => seq!["mut"@] + pattern_tokens(*inner),
        PatternView::Tuple(ts) => ts,
        PatternView::Struct(ts) => ts,
        PatternView::Parenthesized(ts) => ts,
        PatternView::Interned => Seq::empty(),
    }
}

/// Whether `p` has a written form: its names are names, its tokens are tokens, and
/// no part of it is interned.
pub open spec fn pattern_ok(p: PatternView) -> bool
    decreases p,
{
    match p {
        PatternView::Identifier { name, .. } => is_identifier(name),
        PatternView::MutWrapped(inner) => pattern_ok(*inner),
        PatternView::Tuple(ts) => ts.len() > 0 && all_tokens(ts),
        PatternView::Struct(ts) => ts.len() > 0 && all_tokens(ts),
        PatternView::Parenthesized(ts) => ts.len() > 0 && all_tokens(ts),
        PatternView::Interned => false,
    }
}

impl PatternNode {
    /// Whether the top of this pattern carries the marker `mut`.
    pub fn carries_mut(&self) -> (b: bool)
        ensures
            b == carries_mut(self@),
    {
        match self {
            PatternNode::Identifier { name, is_mut } => *is_mut,
            PatternNode::MutWrapped(_) => true,
            _ => false,
        }
    }

    /// Whether this pattern may be that of a declaration that `keyword` opens.
    pub fn is_legal_for(&self, keyword: BindingKeyword) -> (b: bool)
        ensures
            b == legal_for(self@, keyword),
    {
        match self {
            PatternNode::MutWrapped(inner) => {
                let plain = !inner.carries_mut();
                match keyword {
                    BindingKeyword::Let => plain,
                    BindingKeyword::Global => match &**inner {
                        PatternNode::Identifier { name, is_mut } => plain,
                        _ => false,
                    },
                }
            },
            PatternNode::Identifier { name, is_mut } => true,
            _ => match keyword {
                BindingKeyword::Let => true,
                BindingKeyword::Global => false,
            },
        }
    }
}

/// Turns the shapes that mark a pattern as `mut` into one modifier.
pub struct PatternNormalizer {}

impl PatternNormalizer {
    /// The modifier of `pattern`, and `pattern` without it.
    ///
    /// A pattern that is no single identifier cannot stand in a global, and no
    /// pattern is marked twice: such a pattern is not accepted.
    pub fn normalize(pattern: PatternNode, keyword: BindingKeyword) -> (r: (
        Option<Modifier>,
        PatternNode,
    ))
        requires
            legal_for(pattern@, keyword),
        ensures
            r.0 == normalized(pattern@).0,
            r.1@ == normalized(pattern@).1,
            !carries_mut(r.1@),
    {
        match pattern {
            PatternNode::Identifier { name, is_mut } => {
                let modifier = if is_mut {
                    Some(Modifier::Mut)
                } else {
                    None
                };
                (modifier, PatternNode::Identifier { name, is_mut: false })
            },
            PatternNode::MutWrapped(inner) => (Some(Modifier::Mut), *inner),
            PatternNode::Tuple(ts) => (None, PatternNode::Tuple(ts)),
            PatternNode::Struct(ts) => (None, PatternNode::Struct(ts)),
            PatternNode::Parenthesized(ts) => (None, PatternNode::Parenthesized(ts)),
            PatternNode::Interned => (None, PatternNode::Interned),
        }
    }
}

/// A legal pattern gives up its marker whole: what is left carries none, so `mut`
/// is written at most once.
pub proof fn lemma_normalized_is_plain(p: PatternView, keyword: BindingKeyword)
    requires
        legal_for(p, keyword),
    ensures
        !carries_mut(normalized(p).1),
        normalized(p).0 is Some <==> carries_mut(p),
        keyword == BindingKeyword::Global ==> normalized(p).1 is Identifier,
{
}

} // verus!
