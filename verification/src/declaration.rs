//! From a declaration to its chunk group, and from there to text.
//!
//! Each attribute becomes a chunk that ends its line. Behind them stands one group
//! for the rest. Its first chunk holds, in this order and on one line, the
//! visibility, `comptime`, `mut`, the keyword, the pattern, the type behind `: `,
//! and then ` =` where an initializer follows, or `;` where none does. Its second
//! chunk holds the initializer and `;`. So the modifiers can never stand apart from
//! the keyword, and the only place where the declaration may break is behind `=`.

use vstd::prelude::*;
use crate::chunks::{Chunk, ChunkGroup, ChunkView, MemberView};
use crate::lexer::{
    all_token_texts, compact, compact_text, lemma_lex_tokens, lex, lex_source, tokens_view,
    LexError,
};
use crate::parser::{lemma_parse_spells, parse_declaration, parse_tokens, ParseError};
use crate::pattern::{
    legal_for, legal_global, normalized, pattern_ok, pattern_tokens, BindingKeyword, Modifier,
    PatternNode, PatternNormalizer,
};
use crate::render::{render_group, GroupRenderer};
use crate::syntax::{
    attribute_ok, attributes_ok, attributes_view, declaration_ok, initializer_ok, keyword_token,
    type_ok, AttributeNode, Declaration, DeclarationView, ExprNode, TypeNode, Visibility,
};
use crate::text::{indentation, indentation_text, push_newline, push_space};

verus! {

/// Which part of a declaration has no written form.
#[derive(Clone, Copy, Debug, PartialEq, Eq, Structural)]
pub enum FormatError {
    MalformedAttribute,
    MalformedPattern,
    MalformedType,
    MalformedInitializer,
}

/// Why a source text could not be formatted.
#[derive(Clone, Copy, Debug, PartialEq, Eq, Structural)]
pub enum SourceError {
    Lex(LexError),
    Parse(ParseError),
}

/// The visibility as it is written, with the blank behind it.
pub open spec fn visibility_text(v: Visibility) -> Seq<char> {
    match v {
        Visibility::Private => Seq::empty(),
        Visibility::Public => "pub "@,
        Visibility::PublicCrate => "pub(crate) "@,
    }
}

/// What stands before the keyword: the visibility, then `comptime`, then `mut`,
/// each with a blank behind it.
pub open spec fn modifier_prefix(v: Visibility, is_comptime: bool, modifier: Option<Modifier>) -> Seq<
    char,
> {
    visibility_text(v) + (if is_comptime {
        "comptime "@
    } else {
        Seq::empty()
    }) + (if modifier is Some {
        "mut "@
    } else {
        Seq::empty()
    })
}

/// The type annotation as it is written behind the pattern.
pub open spec fn type_text(ty: Option<Seq<Seq<char>>>) -> Seq<char> {
    match ty {
        Some(ts) => ": "@ + compact(ts),
        None => Seq::empty(),
    }
}

/// How the first chunk ends: ` =` before an initializer, `;` without one.
pub open spec fn head_end(init: Option<Seq<Seq<char>>>) -> Seq<char> {
    if init is Some {
        " ="@
    } else {
        ";"@
    }
}

/// The first chunk of the body: all of the declaration up to its initializer.
pub open spec fn head_text(d: DeclarationView, keyword: BindingKeyword) -> Seq<char> {
    modifier_prefix(d.visibility, d.is_comptime, normalized(d.pattern).0) + keyword_token(keyword)
        + seq![' '] + compact(pattern_tokens(normalized(d.pattern).1)) + type_text(
        d.type_annotation,
    ) + head_end(d.initializer)
}

/// The second chunk of the body: the initializer and the semicolon.
pub open spec fn tail_text(init: Seq<Seq<char>>) -> Seq<char> {
    compact(init) + ";"@
}

/// An attribute as it is written.
pub open spec fn attribute_text(a: Seq<Seq<char>>) -> Seq<char> {
    "#["@ + compact(a) + "]"@
}

pub open spec fn plain_chunk(text: Seq<char>) -> MemberView {
    MemberView::Chunk(ChunkView { text, is_hard_break: false, trailing_comment: None })
}

pub open spec fn line_chunk(text: Seq<char>) -> MemberView {
    MemberView::Chunk(ChunkView { text, is_hard_break: true, trailing_comment: None })
}

/// The group of modifiers, keyword, pattern, type and initializer.
pub open spec fn body_group(d: DeclarationView, keyword: BindingKeyword) -> Seq<MemberView> {
    match d.initializer {
        Some(init) => seq![plain_chunk(head_text(d, keyword)), plain_chunk(tail_text(init))],
        None => seq![plain_chunk(head_text(d, keyword))],
    }
}

/// One chunk for each attribute, in order, each ending its line.
pub open spec fn attribute_chunks(attrs: Seq<Seq<Seq<char>>>) -> Seq<MemberView> {
    attrs.map_values(|a: Seq<Seq<char>>| line_chunk(attribute_text(a)))
}

/// The chunk group of a declaration: its attributes, then its body as one group.
pub open spec fn declaration_group(d: DeclarationView, keyword: BindingKeyword) -> Seq<MemberView> {
    attribute_chunks(d.attributes).push(MemberView::Group(body_group(d, keyword)))
}

/// The first part of `d` that has no written form, going through the attributes,
/// the pattern, the type and the initializer in this order.
pub open spec fn format_error(d: DeclarationView) -> Option<FormatError> {
    if !attributes_ok(d.attributes) {
        Some(FormatError::MalformedAttribute)
    } else if !pattern_ok(normalized(d.pattern).1) {
        Some(FormatError::MalformedPattern)
    } else if d.type_annotation is Some && !type_ok(d.type_annotation->Some_0) {
        Some(FormatError::MalformedType)
    } else if d.initializer is Some && !initializer_ok(d.initializer->Some_0) {
        Some(FormatError::MalformedInitializer)
    } else {
        None
    }
}

/// The chunk group of `d`, or the error of the first part that cannot be written.
pub open spec fn formatted(d: DeclarationView, keyword: BindingKeyword) -> Result<
    Seq<MemberView>,
    FormatError,
> {
    match format_error(d) {
        Some(e) => Err(e),
        None => Ok(declaration_group(d, keyword)),
    }
}

/// The lines of a declaration that starts at `level`: the indentation, the
/// rendered group and a line end.
pub open spec fn declaration_text(
    d: DeclarationView,
    keyword: BindingKeyword,
    level: nat,
    max_width: nat,
) -> Seq<char> {
    indentation(level) + render_group(declaration_group(d, keyword), level, max_width) + seq![
        '\n',
    ]
}

/// The global declaration that the text `src` spells.
pub open spec fn source_declaration(src: Seq<char>) -> Result<DeclarationView, SourceError> {
    match lex(src) {
        Err(e) => Err(SourceError::Lex(e)),
        Ok(ts) => match parse_tokens(ts) {
            Err(e) => Err(SourceError::Parse(e)),
            Ok(d) => Ok(d),
        },
    }
}

/// The canonical text of the global declaration that `src` spells.
pub open spec fn formatted_source(src: Seq<char>, max_width: nat) -> Result<Seq<char>, SourceError> {
    match source_declaration(src) {
        Err(e) => Err(e),
        Ok(d) => Ok(declaration_text(d, BindingKeyword::Global, 0, max_width)),
    }
}

/// A declaration has a written form exactly if none of its parts is in error.
pub proof fn lemma_format_error(d: DeclarationView)
    ensures
        format_error(d) is None <==> declaration_ok(d),
{
}

fn contains_token(ts: &Vec<String>, word: &str) -> (b: bool)
    ensures
        b == tokens_view(ts@).contains(word@),
{
    let w = String::from_str(word);
    let mut i: usize = 0;
    while i < ts.len()
        invariant
            i <= ts.len(),
            w@ == word@,
            forall|k: int| 0 <= k < i ==> (#[trigger] tokens_view(ts@)[k]) != word@,
        decreases ts.len() - i,
    {
        if ts[i] == w {
            proof {
                assert(tokens_view(ts@)[i as int] == word@);
            }
            return true;
        }
        i += 1;
    }
    false
}

fn attribute_is_ok(ts: &Vec<String>) -> (b: bool)
    ensures
        b == attribute_ok(tokens_view(ts@)),
{
    ts.len() > 0 && all_token_texts(ts) && !contains_token(ts, "]")
}

fn type_is_ok(ts: &Vec<String>) -> (b: bool)
    ensures
        b == type_ok(tokens_view(ts@)),
{
    ts.len() > 0 && all_token_texts(ts) && !contains_token(ts, "=") && !contains_token(ts, ";")
}

fn initializer_is_ok(ts: &Vec<String>) -> (b: bool)
    ensures
        b == initializer_ok(tokens_view(ts@)),
{
    ts.len() > 0 && all_token_texts(ts) && !contains_token(ts, ";")
}

fn pattern_is_ok(p: &PatternNode) -> (b: bool)
    ensures
        b == pattern_ok(p@),
    decreases p,
{
    match p {
        PatternNode::Identifier { name, is_mut } => crate::parser::is_identifier_text(
            name.as_str(),
        ),
        PatternNode::MutWrapped(inner) => pattern_is_ok(inner),
        PatternNode::Tuple(ts) => ts.len() > 0 && all_token_texts(ts),
        PatternNode::Struct(ts) => ts.len() > 0 && all_token_texts(ts),
        PatternNode::Parenthesized(ts) => ts.len() > 0 && all_token_texts(ts),
        PatternNode::Interned => false,
    }
}

fn push_tokens(ts: &Vec<String>, out: &mut Vec<String>)
    ensures
        tokens_view(final(out)@) == tokens_view(old(out)@) + tokens_view(ts@),
{
    let ghost start = tokens_view(out@);
    let mut i: usize = 0;
    while i < ts.len()
        invariant
            i <= ts.len(),
            tokens_view(out@) == start + tokens_view(ts@).take(i as int),
        decreases ts.len() - i,
    {
        let t = ts[i].clone();
        proof {
            assert(tokens_view(out@.push(t)) =~= tokens_view(out@).push(t@));
            assert(tokens_view(ts@).take(i + 1) =~= tokens_view(ts@).take(i as int).push(t@));
        }
        out.push(t);
        i += 1;
    }
    proof {
        assert(tokens_view(ts@).take(ts.len() as int) =~= tokens_view(ts@));
    }
}

fn push_word(word: &str, out: &mut Vec<String>)
    ensures
        tokens_view(final(out)@) == tokens_view(old(out)@).push(word@),
{
    let t = String::from_str(word);
    proof {
        assert(tokens_view(out@.push(t)) =~= tokens_view(out@).push(t@));
    }
    out.push(t);
}

fn push_pattern_tokens(p: &PatternNode, out: &mut Vec<String>)
    ensures
        tokens_view(final(out)@) == tokens_view(old(out)@) + pattern_tokens(p@),
    decreases p,
{
    match p {
        PatternNode::Identifier { name, is_mut } => {
            if *is_mut {
                push_word("mut", out);
            }
            push_word(name.as_str(), out);
        },
        PatternNode::MutWrapped(inner) => {
            push_word("mut", out);
            push_pattern_tokens(inner, out);
        },
        PatternNode::Tuple(ts) => {
            push_tokens(ts, out);
        },
        PatternNode::Struct(ts) => {
            push_tokens(ts, out);
        },
        PatternNode::Parenthesized(ts) => {
            push_tokens(ts, out);
        },
        PatternNode::Interned => {},
    }
}

/// The written form of an attribute, as a chunk that ends its line.
pub fn format_attribute(attribute: &AttributeNode) -> (r: Result<Chunk, FormatError>)
    ensures
        match r {
            Ok(c) => attribute_ok(attribute@) && MemberView::Chunk(c@) == line_chunk(
                attribute_text(attribute@),
            ),
            Err(e) => !attribute_ok(attribute@) && e == FormatError::MalformedAttribute,
        },
{
    if !attribute_is_ok(&attribute.tokens) {
        return Err(FormatError::MalformedAttribute);
    }
    let mut text = String::from_str("#[");
    let inner = compact_text(&attribute.tokens);
    text.append(inner.as_str());
    text.append("]");
    Ok(Chunk { text, is_hard_break: true, trailing_comment: None })
}

/// The written form of a pattern.
pub fn format_pattern(pattern: &PatternNode) -> (r: Result<String, FormatError>)
    ensures
        match r {
            Ok(text) => pattern_ok(pattern@) && text@ == compact(pattern_tokens(pattern@)),
            Err(e) => !pattern_ok(pattern@) && e == FormatError::MalformedPattern,
        },
{
    if !pattern_is_ok(pattern) {
        return Err(FormatError::MalformedPattern);
    }
    let mut tokens: Vec<String> = Vec::new();
    push_pattern_tokens(pattern, &mut tokens);
    proof {
        assert(tokens_view(Seq::<String>::empty()) + pattern_tokens(pattern@) =~= pattern_tokens(
            pattern@,
        ));
    }
    Ok(compact_text(&tokens))
}

/// The written form of a type annotation.
pub fn format_type(annotation: &TypeNode) -> (r: Result<String, FormatError>)
    ensures
        match r {
            Ok(text) => type_ok(annotation@) && text@ == compact(annotation@),
            Err(e) => !type_ok(annotation@) && e == FormatError::MalformedType,
        },
{
    if !type_is_ok(&annotation.tokens) {
        return Err(FormatError::MalformedType);
    }
    Ok(compact_text(&annotation.tokens))
}

/// The written form of an initializer.
pub fn format_expression(expression: &ExprNode) -> (r: Result<String, FormatError>)
    ensures
        match r {
            Ok(text) => initializer_ok(expression@) && text@ == compact(expression@),
            Err(e) => !initializer_ok(expression@) && e == FormatError::MalformedInitializer,
        },
{
    if !initializer_is_ok(&expression.tokens) {
        return Err(FormatError::MalformedInitializer);
    }
    Ok(compact_text(&expression.tokens))
}

fn format_attributes(attributes: &Vec<AttributeNode>) -> (r: Result<ChunkGroup, FormatError>)
    ensures
        match r {
            Ok(g) => attributes_ok(attributes_view(attributes@)) && g@ == attribute_chunks(
                attributes_view(attributes@),
            ),
            Err(e) => !attributes_ok(attributes_view(attributes@)) && e
                == FormatError::MalformedAttribute,
        },
{
    let ghost av = attributes_view(attributes@);
    let mut group = ChunkGroup::new();
    let mut i: usize = 0;
    proof {
        assert(attribute_chunks(av.take(0)) =~= Seq::empty());
    }
    while i < attributes.len()
        invariant
            i <= attributes.len(),
            av == attributes_view(attributes@),
            forall|k: int| 0 <= k < i ==> attribute_ok(#[trigger] av[k]),
            group@ == attribute_chunks(av.take(i as int)),
        decreases attributes.len() - i,
    {
        proof {
            assert(av[i as int] == attributes@[i as int]@);
        }
        match format_attribute(&attributes[i]) {
            Err(e) => {
                return Err(e);
            },
            Ok(chunk) => {
                proof {
                    assert(attribute_chunks(av.take(i + 1)) =~= attribute_chunks(
                        av.take(i as int),
                    ).push(line_chunk(attribute_text(av[i as int]))));
                }
                group.text(chunk);
            },
        }
        i += 1;
    }
    proof {
        assert(av.take(attributes.len() as int) =~= av);
    }
    Ok(group)
}

fn visibility_prefix(visibility: Visibility, out: &mut String)
    ensures
        final(out)@ == old(out)@ + visibility_text(visibility),
{
    match visibility {
        Visibility::Private => {
            proof {
                assert(out@ + Seq::<char>::empty() =~= out@);
            }
        },
        Visibility::Public => {
            out.append("pub ");
        },
        Visibility::PublicCrate => {
            out.append("pub(crate) ");
        },
    }
}

fn keyword_str(keyword: BindingKeyword) -> (s: &'static str)
    ensures
        s@ == keyword_token(keyword),
{
    match keyword {
        BindingKeyword::Let => "let",
        BindingKeyword::Global => "global",
    }
}

/// Builds the chunk group of a declaration.
pub struct DeclarationFormatter {}

impl DeclarationFormatter {
    /// The chunk group of `decl`, a declaration that `keyword` opens.
    ///
    /// The error of the first part that has no written form comes back as it is.
    /// A pattern that cannot stand behind `keyword` is not accepted.
    pub fn format_declaration(decl: Declaration, keyword: BindingKeyword) -> (r: Result<
        ChunkGroup,
        FormatError,
    >)
        requires
            legal_for(decl.pattern@, keyword),
        ensures
            match r {
                Ok(g) => formatted(decl@, keyword) == Ok::<Seq<MemberView>, FormatError>(g@),
                Err(e) => formatted(decl@, keyword) == Err::<Seq<MemberView>, FormatError>(e),
            },
    {
        let ghost d = decl@;
        let Declaration { visibility, is_comptime, pattern, type_annotation, initializer, attributes } =
            decl;
        let mut group = match format_attributes(&attributes) {
            Ok(g) => g,
            Err(e) => {
                return Err(e);
            },
        };
        let (modifier, canonical) = PatternNormalizer::normalize(pattern, keyword);
        let pattern_text = match format_pattern(&canonical) {
            Ok(t) => t,
            Err(e) => {
                return Err(e);
            },
        };
        let mut head = String::new();
        proof {
            assert(head@ + visibility_text(visibility) =~= visibility_text(visibility));
        }
        visibility_prefix(visibility, &mut head);
        if is_comptime {
            head.append("comptime ");
        }
        if modifier.is_some() {
            head.append("mut ");
        }
        proof {
            assert(head@ =~= modifier_prefix(d.visibility, d.is_comptime, normalized(d.pattern).0));
        }
        head.append(keyword_str(keyword));
        push_space(&mut head);
        head.append(pattern_text.as_str());
        match &type_annotation {
            Some(annotation) => {
                let t = match format_type(annotation) {
                    Ok(t) => t,
                    Err(e) => {
                        return Err(e);
                    },
                };
                head.append(": ");
                head.append(t.as_str());
            },
            None => {},
        }
        proof {
            assert(head@ =~= modifier_prefix(d.visibility, d.is_comptime, normalized(d.pattern).0)
                + keyword_token(keyword) + seq![' '] + compact(
                pattern_tokens(normalized(d.pattern).1),
            ) + type_text(d.type_annotation));
        }
        let mut body = ChunkGroup::new();
        match &initializer {
            Some(expression) => {
                let t = match format_expression(expression) {
                    Ok(t) => t,
                    Err(e) => {
                        return Err(e);
                    },
                };
                head.append(" =");
                let mut tail = t;
                tail.append(";");
                body.text(Chunk { text: head, is_hard_break: false, trailing_comment: None });
                body.text(Chunk { text: tail, is_hard_break: false, trailing_comment: None });
            },
            None => {
                head.append(";");
                body.text(Chunk { text: head, is_hard_break: false, trailing_comment: None });
            },
        }
        proof {
            assert(body@ =~= body_group(d, keyword));
        }
        group.group(body);
        Ok(group)
    }
}

/// Builds the chunk groups that a [`Formatter`] writes.
pub struct ChunkFormatter {}

impl ChunkFormatter {
    /// The chunk group of the global `decl`.
    pub fn format_global(&self, decl: Declaration) -> (r: Result<ChunkGroup, FormatError>)
        requires
            legal_global(decl.pattern@),
        ensures
            match r {
                Ok(g) => formatted(decl@, BindingKeyword::Global) == Ok::<
                    Seq<MemberView>,
                    FormatError,
                >(g@),
                Err(e) => formatted(decl@, BindingKeyword::Global) == Err::<
                    Seq<MemberView>,
                    FormatError,
                >(e),
            },
    {
        DeclarationFormatter::format_declaration(decl, BindingKeyword::Global)
    }
}

/// The text written so far, the indentation of what comes next, and the width that
/// lines should keep to.
pub struct Formatter {
    pub buffer: String,
    pub indent: usize,
    pub max_width: usize,
}

impl Formatter {
    /// A formatter that has written nothing, at indentation 0.
    pub fn new(max_width: usize) -> (f: Formatter)
        ensures
            f.buffer@ == Seq::<char>::empty(),
            f.indent == 0,
            f.max_width == max_width,
    {
        Formatter { buffer: String::new(), indent: 0, max_width }
    }

    pub fn chunk_formatter(&self) -> ChunkFormatter {
        ChunkFormatter {  }
    }

    /// Writes the global `decl` as lines of its own at the current indentation.
    ///
    /// A declaration of which a part has no written form leaves the buffer as it
    /// was: nothing of it is written.
    pub fn format_global(&mut self, decl: Declaration) -> (r: Result<(), FormatError>)
        requires
            legal_global(decl.pattern@),
        ensures
            final(self).indent == old(self).indent,
            final(self).max_width == old(self).max_width,
            match r {
                Ok(_) => format_error(decl@) is None && final(self).buffer@ == old(self).buffer@
                    + declaration_text(
                    decl@,
                    BindingKeyword::Global,
                    old(self).indent as nat,
                    old(self).max_width as nat,
                ),
                Err(e) => format_error(decl@) == Some(e) && final(self).buffer@ == old(
                    self,
                ).buffer@,
            },
    {
        let ghost d = decl@;
        let group = match self.chunk_formatter().format_global(decl) {
            Ok(g) => g,
            Err(e) => {
                return Err(e);
            },
        };
        let renderer = GroupRenderer::new(self.max_width);
        let text = renderer.render(&group, self.indent);
        let lead = indentation_text(self.indent);
        self.buffer.append(lead.as_str());
        self.buffer.append(text.as_str());
        push_newline(&mut self.buffer);
        proof {
            let t = declaration_text(
                d,
                BindingKeyword::Global,
                old(self).indent as nat,
                old(self).max_width as nat,
            );
            assert(self.buffer@ =~= old(self).buffer@ + t);
        }
        Ok(())
    }
}

/// The canonical text of the global declaration that `src` spells, with lines of at
/// most `max_width` characters where the declaration allows it.
pub fn format_source(src: &str, max_width: usize) -> (r: Result<String, SourceError>)
    ensures
        match r {
            Ok(text) => formatted_source(src@, max_width as nat) == Ok::<Seq<char>, SourceError>(
                text@,
            ),
            Err(e) => formatted_source(src@, max_width as nat) == Err::<Seq<char>, SourceError>(e),
        },
{
    let tokens = match lex_source(src) {
        Ok(tokens) => tokens,
        Err(e) => {
            return Err(SourceError::Lex(e));
        },
    };
    let decl = match parse_declaration(&tokens) {
        Ok(d) => d,
        Err(e) => {
            return Err(SourceError::Parse(e));
        },
    };
    proof {
        lemma_lex_tokens(src@);
        lemma_parse_spells(tokens_view(tokens@));
        lemma_format_error(decl@);
    }
    let ghost d = decl@;
    let mut formatter = Formatter::new(max_width);
    match formatter.format_global(decl) {
        Ok(_) => {
            proof {
                assert(formatter.buffer@ =~= declaration_text(
                    d,
                    BindingKeyword::Global,
                    0,
                    max_width as nat,
                ));
            }
            Ok(formatter.buffer)
        },
        Err(_) => vstd::pervasive::unreached(),
    }
}

} // verus!
