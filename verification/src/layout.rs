//! What the text of a declaration looks like, and which tokens it holds.
//!
//! The lemmas of this module unfold the renderer on the chunk group of a
//! declaration, and lex the text that comes out piece by piece.

use vstd::prelude::*;
use crate::chunks::MemberView;
use crate::declaration::{
    attribute_chunks, attribute_text, body_group, declaration_group, head_end, head_text,
    line_chunk, modifier_prefix, plain_chunk, tail_text, type_text, visibility_text,
};
use crate::lexer::{
    all_tokens, compact, is_token, lemma_lex_compact, lemma_lex_concat, lemma_lex_spaces,
    lemma_lex_token, lex, LexError,
};
use crate::pattern::{
    legal_for, normalized, pattern_ok, pattern_tokens, BindingKeyword, Modifier, PatternView,
};
use crate::render::{
    any_forces_break, flat_join, flat_text, forces_break, render_broken, render_group,
    render_member,
};
use crate::syntax::{
    attribute_ok, attribute_tokens, attributes_ok, attributes_tokens, binding_tokens, body_tokens,
    declaration_ok, flag_tokens, initializer_tokens, keyword_token, type_ok, type_tokens,
    initializer_ok, visibility_tokens, DeclarationView, Visibility,
};
use crate::text::{all_space, indentation, is_space, is_word, lemma_indentation, line_break};

verus! {

/// The attributes as lines: each one written, then the break that ends its line.
pub open spec fn attribute_lines(attrs: Seq<Seq<Seq<char>>>, level: nat) -> Seq<char>
    decreases attrs.len(),
{
    if attrs.len() == 0 {
        Seq::empty()
    } else {
        attribute_lines(attrs.drop_last(), level) + attribute_text(attrs.last()) + line_break(
            level,
        )
    }
}

/// The body of a declaration as text: on one line where head, blank and tail are at
/// most `max_width` wide, and else broken behind the head, with the tail one level
/// below.
pub open spec fn body_text(
    d: DeclarationView,
    keyword: BindingKeyword,
    level: nat,
    max_width: nat,
) -> Seq<char> {
    let head = head_text(d, keyword);
    match d.initializer {
        None => head,
        Some(init) => if head.len() + 1 + tail_text(init).len() <= max_width {
            head + seq![' '] + tail_text(init)
        } else {
            head + line_break(level + 1) + tail_text(init)
        },
    }
}

/// Whether any text may follow `a` at once: `a` ends in no word and no slash.
pub open spec fn ends_open(a: Seq<char>) -> bool {
    a.len() == 0 || (!is_word(a.last()) && a.last() != '/')
}

/// Whether `b` may follow any text at once: it starts with no word, slash or star.
pub open spec fn starts_open(b: Seq<char>) -> bool {
    b.len() == 0 || (!is_word(b[0]) && b[0] != '/' && b[0] != '*')
}

pub proof fn lemma_join(a: Seq<char>, b: Seq<char>, ta: Seq<Seq<char>>, tb: Seq<Seq<char>>)
    requires
        lex(a) == Ok::<Seq<Seq<char>>, LexError>(ta),
        lex(b) == Ok::<Seq<Seq<char>>, LexError>(tb),
        ends_open(a) || starts_open(b),
    ensures
        lex(a + b) == Ok::<Seq<Seq<char>>, LexError>(ta + tb),
{
    lemma_lex_concat(a, b);
}

/// Text that ends in spaces lexes as the text before them.
pub proof fn lemma_trailing_spaces(a: Seq<char>, w: Seq<char>)
    requires
        all_space(w),
    ensures
        lex(a + w) == lex(a),
        w.len() > 0 ==> ends_open(a + w),
{
    lemma_lex_spaces(w);
    if w.len() > 0 {
        assert(is_space(w[0]));
        assert((a + w).last() == w.last());
        assert(is_space(w.last()));
    } else {
        assert(a + w =~= a);
    }
    lemma_lex_concat(a, w);
    if let Ok(ta) = lex(a) {
        assert(ta + Seq::<Seq<char>>::empty() =~= ta);
    }
}

/// Text that starts with spaces lexes as the text behind them.
pub proof fn lemma_leading_spaces(w: Seq<char>, b: Seq<char>)
    requires
        all_space(w),
    ensures
        lex(w + b) == lex(b),
{
    lemma_lex_spaces(w);
    if w.len() > 0 {
        assert(is_space(w.last()));
    }
    lemma_lex_concat(w, b);
    if let Ok(tb) = lex(b) {
        assert(Seq::<Seq<char>>::empty() + tb =~= tb);
    }
}

proof fn lemma_line_break_spaces(level: nat)
    ensures
        all_space(line_break(level)),
        line_break(level).len() > 0,
{
    lemma_indentation(level);
    let lb = line_break(level);
    assert forall|i: int| 0 <= i < lb.len() implies is_space(#[trigger] lb[i]) by {
        if i > 0 {
            assert(lb[i] == indentation(level)[i - 1]);
        }
    }
}

proof fn lemma_lex_open_bracket()
    ensures
        lex("#["@) == Ok::<Seq<Seq<char>>, LexError>(seq!["#"@, "["@]),
        ends_open("#["@),
{
    reveal_strlit("#[");
    reveal_strlit("#");
    reveal_strlit("[");
    assert("#["@ =~= "#"@ + "["@);
    lemma_lex_token("#"@);
    lemma_lex_token("["@);
    lemma_join("#"@, "["@, seq!["#"@], seq!["["@]);
    assert(seq!["#"@] + seq!["["@] =~= seq!["#"@, "["@]);
}

proof fn lemma_lex_close_bracket()
    ensures
        lex("]"@) == Ok::<Seq<Seq<char>>, LexError>(seq!["]"@]),
        starts_open("]"@),
{
    reveal_strlit("]");
    lemma_lex_token("]"@);
}

proof fn lemma_lex_semicolon()
    ensures
        lex(";"@) == Ok::<Seq<Seq<char>>, LexError>(seq![";"@]),
        starts_open(";"@),
        ends_open(";"@),
{
    reveal_strlit(";");
    lemma_lex_token(";"@);
}

proof fn lemma_lex_equals()
    ensures
        lex(" ="@) == Ok::<Seq<Seq<char>>, LexError>(seq!["="@]),
        starts_open(" ="@),
        ends_open(" ="@),
{
    reveal_strlit(" =");
    reveal_strlit("=");
    assert(" ="@ =~= seq![' '] + "="@);
    lemma_lex_token("="@);
    lemma_leading_spaces(seq![' '], "="@);
}

proof fn lemma_lex_colon()
    ensures
        lex(": "@) == Ok::<Seq<Seq<char>>, LexError>(seq![":"@]),
        starts_open(": "@),
        ends_open(": "@),
{
    reveal_strlit(": ");
    reveal_strlit(":");
    assert(": "@ =~= ":"@ + seq![' ']);
    lemma_lex_token(":"@);
    lemma_trailing_spaces(":"@, seq![' ']);
}

proof fn lemma_lex_comptime()
    ensures
        lex("comptime "@) == Ok::<Seq<Seq<char>>, LexError>(seq!["comptime"@]),
        ends_open("comptime "@),
{
    reveal_strlit("comptime ");
    reveal_strlit("comptime");
    assert("comptime "@ =~= "comptime"@ + seq![' ']);
    lemma_lex_token("comptime"@);
    lemma_trailing_spaces("comptime"@, seq![' ']);
}

proof fn lemma_lex_mut()
    ensures
        lex("mut "@) == Ok::<Seq<Seq<char>>, LexError>(seq!["mut"@]),
        ends_open("mut "@),
{
    reveal_strlit("mut ");
    reveal_strlit("mut");
    assert("mut "@ =~= "mut"@ + seq![' ']);
    lemma_lex_token("mut"@);
    lemma_trailing_spaces("mut"@, seq![' ']);
}

proof fn lemma_lex_keyword(keyword: BindingKeyword)
    ensures
        lex(keyword_token(keyword)) == Ok::<Seq<Seq<char>>, LexError>(
            seq![keyword_token(keyword)],
        ),
{
    reveal_strlit("let");
    reveal_strlit("global");
    lemma_lex_token(keyword_token(keyword));
}

proof fn lemma_lex_visibility(v: Visibility)
    ensures
        lex(visibility_text(v)) == Ok::<Seq<Seq<char>>, LexError>(visibility_tokens(v)),
        ends_open(visibility_text(v)),
{
    match v {
        Visibility::Private => {},
        Visibility::Public => {
            reveal_strlit("pub ");
            reveal_strlit("pub");
            assert("pub "@ =~= "pub"@ + seq![' ']);
            lemma_lex_token("pub"@);
            lemma_trailing_spaces("pub"@, seq![' ']);
        },
        Visibility::PublicCrate => {
            reveal_strlit("pub(crate) ");
            reveal_strlit("pub");
            reveal_strlit("(");
            reveal_strlit("crate");
            reveal_strlit(")");
            lemma_lex_token("pub"@);
            lemma_lex_token("("@);
            lemma_lex_token("crate"@);
            lemma_lex_token(")"@);
            lemma_join("pub"@, "("@, seq!["pub"@], seq!["("@]);
            lemma_join("pub"@ + "("@, "crate"@, seq!["pub"@] + seq!["("@], seq!["crate"@]);
            lemma_join(
                "pub"@ + "("@ + "crate"@,
                ")"@,
                seq!["pub"@] + seq!["("@] + seq!["crate"@],
                seq![")"@],
            );
            let whole = "pub"@ + "("@ + "crate"@ + ")"@;
            lemma_trailing_spaces(whole, seq![' ']);
            assert("pub(crate) "@ =~= whole + seq![' ']);
            assert(seq!["pub"@] + seq!["("@] + seq!["crate"@] + seq![")"@] =~= visibility_tokens(
                v,
            ));
        },
    }
}

/// The modifiers before the keyword lex to their words, in their order.
proof fn lemma_lex_prefix(v: Visibility, is_comptime: bool, modifier: Option<Modifier>)
    ensures
        lex(modifier_prefix(v, is_comptime, modifier)) == Ok::<Seq<Seq<char>>, LexError>(
            visibility_tokens(v) + flag_tokens(is_comptime, "comptime"@) + flag_tokens(
                modifier is Some,
                "mut"@,
            ),
        ),
        ends_open(modifier_prefix(v, is_comptime, modifier)),
{
    lemma_lex_visibility(v);
    lemma_lex_comptime();
    lemma_lex_mut();
    let a = visibility_text(v);
    let b = if is_comptime {
        "comptime "@
    } else {
        Seq::<char>::empty()
    };
    let c = if modifier is Some {
        "mut "@
    } else {
        Seq::<char>::empty()
    };
    let tb = flag_tokens(is_comptime, "comptime"@);
    let tc = flag_tokens(modifier is Some, "mut"@);
    lemma_join(a, b, visibility_tokens(v), tb);
    assert(ends_open(a + b)) by {
        if b.len() > 0 {
            assert((a + b).last() == b.last());
        } else {
            assert(a + b =~= a);
        }
    }
    lemma_join(a + b, c, visibility_tokens(v) + tb, tc);
    assert(ends_open(a + b + c)) by {
        if c.len() > 0 {
            assert((a + b + c).last() == c.last());
        } else {
            assert(a + b + c =~= a + b);
        }
    }
}

/// A pattern that is left after normalizing and has a written form is written with
/// tokens, at least one.
proof fn lemma_canonical_tokens(p: PatternView, keyword: BindingKeyword)
    requires
        legal_for(p, keyword),
        pattern_ok(normalized(p).1),
    ensures
        all_tokens(pattern_tokens(normalized(p).1)),
        pattern_tokens(normalized(p).1).len() > 0,
{
    let c = normalized(p).1;
    match c {
        PatternView::Identifier { name, is_mut } => {
            assert(!is_mut);
            assert(is_token(name));
            assert(pattern_tokens(c) =~= seq![name]);
        },
        PatternView::MutWrapped(_) => {
            assert(false);
        },
        _ => {},
    }
}

proof fn lemma_lex_type(ty: Option<Seq<Seq<char>>>)
    requires
        ty matches Some(ts) ==> type_ok(ts),
    ensures
        lex(type_text(ty)) == Ok::<Seq<Seq<char>>, LexError>(type_tokens(ty)),
        starts_open(type_text(ty)),
{
    if let Some(ts) = ty {
        lemma_lex_colon();
        lemma_lex_compact(ts);
        lemma_join(": "@, compact(ts), seq![":"@], ts);
        assert((": "@ + compact(ts))[0] == ": "@[0]);
    }
}

/// The head of a declaration lexes to its modifiers, keyword, pattern and type, and
/// the `=` or `;` that ends it.
proof fn lemma_lex_head(d: DeclarationView, keyword: BindingKeyword)
    requires
        declaration_ok(d),
        legal_for(d.pattern, keyword),
    ensures
        lex(head_text(d, keyword)) == Ok::<Seq<Seq<char>>, LexError>(
            binding_tokens(d, keyword) + type_tokens(d.type_annotation) + (if d.initializer
                is Some {
                seq!["="@]
            } else {
                seq![";"@]
            }),
        ),
        ends_open(head_text(d, keyword)),
{
    let modifier = normalized(d.pattern).0;
    let canonical = normalized(d.pattern).1;
    let prefix = modifier_prefix(d.visibility, d.is_comptime, modifier);
    let tp = visibility_tokens(d.visibility) + flag_tokens(d.is_comptime, "comptime"@)
        + flag_tokens(modifier is Some, "mut"@);
    let kw = keyword_token(keyword);
    let pt = pattern_tokens(canonical);
    lemma_lex_prefix(d.visibility, d.is_comptime, modifier);
    lemma_lex_keyword(keyword);
    lemma_canonical_tokens(d.pattern, keyword);
    lemma_lex_compact(pt);
    lemma_lex_type(d.type_annotation);
    lemma_lex_equals();
    lemma_lex_semicolon();
    // prefix, keyword
    lemma_join(prefix, kw, tp, seq![kw]);
    // the blank behind the keyword
    lemma_trailing_spaces(prefix + kw, seq![' ']);
    let s1 = prefix + kw + seq![' '];
    // the pattern
    lemma_join(s1, compact(pt), tp + seq![kw], pt);
    let s2 = s1 + compact(pt);
    // the type
    let tt = type_text(d.type_annotation);
    lemma_join(s2, tt, tp + seq![kw] + pt, type_tokens(d.type_annotation));
    let s3 = s2 + tt;
    // the end
    let end = head_end(d.initializer);
    let te = if d.initializer is Some {
        seq!["="@]
    } else {
        seq![";"@]
    };
    lemma_join(s3, end, tp + seq![kw] + pt + type_tokens(d.type_annotation), te);
    assert(head_text(d, keyword) == s3 + end);
    assert(binding_tokens(d, keyword) == tp + seq![kw] + pt);
    assert((s3 + end).last() == end.last());
}

proof fn lemma_lex_tail(init: Seq<Seq<char>>)
    requires
        initializer_ok(init),
    ensures
        lex(tail_text(init)) == Ok::<Seq<Seq<char>>, LexError>(init + seq![";"@]),
{
    lemma_lex_compact(init);
    lemma_lex_semicolon();
    lemma_join(compact(init), ";"@, init, seq![";"@]);
}

/// The body of a declaration, flat or broken, lexes to its tokens from the first
/// modifier to the semicolon.
pub proof fn lemma_lex_body(d: DeclarationView, keyword: BindingKeyword, level: nat, max_width: nat)
    requires
        declaration_ok(d),
        legal_for(d.pattern, keyword),
    ensures
        lex(body_text(d, keyword, level, max_width)) == Ok::<Seq<Seq<char>>, LexError>(
            body_tokens(d, keyword),
        ),
{
    lemma_lex_head(d, keyword);
    let head = head_text(d, keyword);
    let th = binding_tokens(d, keyword) + type_tokens(d.type_annotation);
    match d.initializer {
        None => {
            assert(initializer_tokens(d.initializer) =~= Seq::empty());
            assert(th + seq![";"@] =~= body_tokens(d, keyword));
        },
        Some(init) => {
            lemma_lex_tail(init);
            let tail = tail_text(init);
            let gap = if head.len() + 1 + tail.len() <= max_width {
                seq![' ']
            } else {
                line_break(level + 1)
            };
            lemma_line_break_spaces(level + 1);
            assert(all_space(gap));
            lemma_trailing_spaces(head, gap);
            lemma_join(head + gap, tail, th + seq!["="@], init + seq![";"@]);
            assert(th + seq!["="@] + (init + seq![";"@]) =~= body_tokens(d, keyword));
        },
    }
}

/// The tokens of all attributes end with those of the last one.
pub proof fn lemma_attributes_tokens_last(attrs: Seq<Seq<Seq<char>>>)
    requires
        attrs.len() > 0,
    ensures
        attributes_tokens(attrs) == attributes_tokens(attrs.drop_last()) + attribute_tokens(
            attrs.last(),
        ),
    decreases attrs.len(),
{
    if attrs.len() == 1 {
        assert(attrs.skip(1) =~= attrs.drop_last());
        assert(attributes_tokens(attrs.skip(1)) =~= Seq::empty());
        assert(attribute_tokens(attrs[0]) + Seq::<Seq<char>>::empty() =~= Seq::<
            Seq<char>,
        >::empty() + attribute_tokens(attrs[0]));
    } else {
        let rest = attrs.skip(1);
        lemma_attributes_tokens_last(rest);
        assert(rest.drop_last() =~= attrs.drop_last().skip(1));
        assert(rest.last() == attrs.last());
        assert(attrs.drop_last()[0] == attrs[0]);
        assert(attribute_tokens(attrs[0]) + (attributes_tokens(rest.drop_last())
            + attribute_tokens(attrs.last())) =~= (attribute_tokens(attrs[0]) + attributes_tokens(
            rest.drop_last(),
        )) + attribute_tokens(attrs.last()));
    }
}

proof fn lemma_lex_attribute(a: Seq<Seq<char>>)
    requires
        attribute_ok(a),
    ensures
        lex(attribute_text(a)) == Ok::<Seq<Seq<char>>, LexError>(attribute_tokens(a)),
{
    lemma_lex_open_bracket();
    lemma_lex_close_bracket();
    lemma_lex_compact(a);
    lemma_join("#["@, compact(a), seq!["#"@, "["@], a);
    lemma_join("#["@ + compact(a), "]"@, seq!["#"@, "["@] + a, seq!["]"@]);
}

/// The attribute lines lex to the tokens of the attributes.
pub proof fn lemma_lex_attribute_lines(attrs: Seq<Seq<Seq<char>>>, level: nat)
    requires
        attributes_ok(attrs),
    ensures
        lex(attribute_lines(attrs, level)) == Ok::<Seq<Seq<char>>, LexError>(
            attributes_tokens(attrs),
        ),
        ends_open(attribute_lines(attrs, level)),
    decreases attrs.len(),
{
    if attrs.len() > 0 {
        let front = attrs.drop_last();
        assert forall|i: int| 0 <= i < front.len() implies attribute_ok(#[trigger] front[i]) by {
            assert(front[i] == attrs[i]);
        }
        lemma_lex_attribute_lines(front, level);
        lemma_attributes_tokens_last(attrs);
        assert(attribute_ok(attrs.last()));
        lemma_lex_attribute(attrs.last());
        let a = attribute_lines(front, level);
        let b = attribute_text(attrs.last());
        lemma_join(a, b, attributes_tokens(front), attribute_tokens(attrs.last()));
        lemma_line_break_spaces(level);
        lemma_trailing_spaces(a + b, line_break(level));
    }
}

/// A member that forces a break makes the members around it force one.
pub proof fn lemma_forces_break_at(ms: Seq<MemberView>, i: int)
    requires
        0 <= i < ms.len(),
        forces_break(ms[i]),
    ensures
        any_forces_break(ms),
    decreases ms.len(),
{
    if i < ms.len() - 1 {
        assert(ms.drop_last()[i] == ms[i]);
        lemma_forces_break_at(ms.drop_last(), i);
    }
}

/// The chunks of the attributes, broken, are the attribute lines without the break
/// that ends the last of them.
proof fn lemma_render_attribute_chunks(attrs: Seq<Seq<Seq<char>>>, level: nat, max_width: nat)
    requires
        attrs.len() > 0,
    ensures
        render_broken(attribute_chunks(attrs), level, max_width) + line_break(level)
            == attribute_lines(attrs, level),
    decreases attrs.len(),
{
    let chunks = attribute_chunks(attrs);
    reveal_with_fuel(render_broken, 2);
    reveal_with_fuel(render_member, 2);
    if attrs.len() == 1 {
        assert(attribute_lines(attrs.drop_last(), level) =~= Seq::empty());
        assert(chunks.len() == 1);
        assert(chunks[0] == line_chunk(attribute_text(attrs[0])));
        assert(render_member(chunks[0], level, max_width) == attribute_text(attrs[0]));
        assert(render_broken(chunks, level, max_width) == attribute_text(attrs[0]));
        assert(attribute_text(attrs[0]) + line_break(level) =~= Seq::<char>::empty()
            + attribute_text(attrs.last()) + line_break(level));
    } else {
        let front = attrs.drop_last();
        lemma_render_attribute_chunks(front, level, max_width);
        assert(chunks.drop_last() =~= attribute_chunks(front));
        assert(chunks[chunks.len() - 2] == line_chunk(attribute_text(attrs[attrs.len() - 2])));
        assert(chunks.last() == line_chunk(attribute_text(attrs.last())));
        assert(chunks.len() >= 2);
        assert(crate::render::continuation_level(chunks[chunks.len() - 2], level) == level);
        assert(render_member(chunks.last(), level, max_width) == attribute_text(attrs.last()));
        assert(render_broken(chunks, level, max_width) == render_broken(
            attribute_chunks(front),
            level,
            max_width,
        ) + line_break(level) + attribute_text(attrs.last()));
    }
}

/// The body group as text.
pub proof fn lemma_render_body(
    d: DeclarationView,
    keyword: BindingKeyword,
    level: nat,
    max_width: nat,
)
    ensures
        render_group(body_group(d, keyword), level, max_width) == body_text(
            d,
            keyword,
            level,
            max_width,
        ),
        !any_forces_break(body_group(d, keyword)),
{
    reveal_with_fuel(flat_join, 3);
    reveal_with_fuel(flat_text, 3);
    reveal_with_fuel(any_forces_break, 3);
    reveal_with_fuel(forces_break, 3);
    reveal_with_fuel(render_broken, 3);
    reveal_with_fuel(render_member, 3);
    let body = body_group(d, keyword);
    let head = head_text(d, keyword);
    let whole = MemberView::Group(body);
    match d.initializer {
        None => {
            assert(body.len() == 1);
            assert(body[0] == plain_chunk(head));
            assert(body.drop_last() =~= Seq::empty());
            assert(!any_forces_break(body));
            assert(flat_join(body) == head);
            assert(render_member(body[0], level, max_width) == head);
            assert(render_broken(body, level, max_width) == head);
            assert(render_member(whole, level, max_width) == head);
        },
        Some(init) => {
            let tail = tail_text(init);
            let front = body.drop_last();
            assert(body.len() == 2);
            assert(front =~= seq![plain_chunk(head)]);
            assert(front.drop_last() =~= Seq::empty());
            assert(body.last() == plain_chunk(tail));
            assert(body[0] == plain_chunk(head));
            assert(front[0] == plain_chunk(head));
            assert(!any_forces_break(front));
            assert(!any_forces_break(body));
            assert(flat_join(front) == head);
            assert(flat_join(body) == head + seq![' '] + tail);
            assert(render_member(body[0], level, max_width) == head);
            assert(render_broken(front, level, max_width) == head);
            assert(crate::render::continuation_level(body[0], level) == level + 1);
            assert(render_member(body.last(), level + 1, max_width) == tail);
            assert(render_broken(body, level, max_width) == head + line_break(level + 1) + tail);
            assert((head + seq![' '] + tail).len() == head.len() + 1 + tail.len());
        },
    }
}

/// The chunk group of a declaration as text: the attribute lines, then the body.
pub proof fn lemma_render_declaration(
    d: DeclarationView,
    keyword: BindingKeyword,
    level: nat,
    max_width: nat,
)
    ensures
        render_group(declaration_group(d, keyword), level, max_width) == attribute_lines(
            d.attributes,
            level,
        ) + body_text(d, keyword, level, max_width),
{
    reveal_with_fuel(flat_join, 2);
    reveal_with_fuel(flat_text, 2);
    reveal_with_fuel(any_forces_break, 2);
    reveal_with_fuel(forces_break, 2);
    reveal_with_fuel(render_broken, 2);
    reveal_with_fuel(render_member, 2);
    lemma_render_body(d, keyword, level, max_width);
    let body = MemberView::Group(body_group(d, keyword));
    let chunks = attribute_chunks(d.attributes);
    let group = declaration_group(d, keyword);
    let text = body_text(d, keyword, level, max_width);
    assert(group.drop_last() =~= chunks);
    assert(group.last() == body);
    if d.attributes.len() == 0 {
        assert(group.len() == 1);
        assert(group[0] == body);
        assert(Seq::<char>::empty() + text =~= text);
    } else {
        assert(forces_break(group[0])) by {
            assert(group[0] == line_chunk(attribute_text(d.attributes[0])));
        }
        lemma_forces_break_at(group, 0);
        lemma_render_attribute_chunks(d.attributes, level, max_width);
        assert(group[group.len() - 2] == line_chunk(
            attribute_text(d.attributes[d.attributes.len() - 1]),
        ));
        assert(render_group(group, level, max_width) == render_broken(chunks, level, max_width)
            + line_break(level) + text);
    }
}

} // verus!
