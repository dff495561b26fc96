//! What holds of lexing, parsing, formatting and rendering taken together.

use vstd::prelude::*;
use crate::declaration::{
    body_group, declaration_group, declaration_text, format_error, formatted_source, head_text,
    source_declaration, SourceError,
};
use crate::layout::{
    attribute_lines, body_text, lemma_join, lemma_leading_spaces, lemma_lex_attribute_lines,
    lemma_lex_body, lemma_render_declaration, lemma_trailing_spaces,
};
use crate::lexer::{
    boundary_ok, lemma_lex_concat, lemma_lex_spaces, lemma_lex_tokens, lex, then_tokens, LexError,
};
use crate::parser::{lemma_parse_spells, parse_tokens};
use crate::pattern::{
    carries_mut, legal_for, lemma_normalized_is_plain, normalized, pattern_tokens, BindingKeyword,
};
use crate::roundtrip::{as_parsed, law_spelled_tokens_parse_back};
use crate::syntax::{
    attributes_tokens, binding_tokens, body_tokens, declaration_tokens, flag_tokens,
    initializer_tokens, keyword_token, type_tokens, visibility_tokens, DeclarationView,
    Visibility,
};
use crate::text::{all_space, indentation, is_space, lemma_indentation};

verus! {

/// Each attribute stands on a line of its own before the body, in the order of the
/// declaration, whether the body is laid out on one line or broken: the text of a
/// declaration is its indentation, its attribute lines, its body and a line end,
/// and the attribute lines do not depend on the width.
pub proof fn law_attributes_precede_body(
    d: DeclarationView,
    keyword: BindingKeyword,
    level: nat,
    max_width: nat,
)
    ensures
        declaration_text(d, keyword, level, max_width) == indentation(level) + attribute_lines(
            d.attributes,
            level,
        ) + body_text(d, keyword, level, max_width) + seq!['\n'],
{
    lemma_render_declaration(d, keyword, level, max_width);
    let a = indentation(level);
    let b = attribute_lines(d.attributes, level);
    let c = body_text(d, keyword, level, max_width);
    assert(a + (b + c) + seq!['\n'] =~= a + b + c + seq!['\n']);
}

/// The text of a declaration holds its tokens in one fixed order, at every width
/// and indentation: the attributes, the visibility, `comptime`, `mut`, the keyword,
/// the pattern, the type behind `:`, the initializer behind `=`, and `;`. The
/// pattern behind the keyword carries no `mut` of its own, so the marker is
/// written once at most; for a global that pattern is the bare name.
pub proof fn law_tokens_in_order(
    d: DeclarationView,
    keyword: BindingKeyword,
    level: nat,
    max_width: nat,
)
    requires
        format_error(d) is None,
        legal_for(d.pattern, keyword),
    ensures
        lex(declaration_text(d, keyword, level, max_width)) == Ok::<Seq<Seq<char>>, LexError>(
            declaration_tokens(d, keyword),
        ),
        declaration_tokens(d, keyword) == attributes_tokens(d.attributes) + (visibility_tokens(
            d.visibility,
        ) + flag_tokens(d.is_comptime, "comptime"@) + flag_tokens(carries_mut(d.pattern), "mut"@)
            + seq![keyword_token(keyword)] + pattern_tokens(normalized(d.pattern).1) + type_tokens(
            d.type_annotation,
        ) + initializer_tokens(d.initializer) + seq![";"@]),
        !carries_mut(normalized(d.pattern).1),
        keyword == BindingKeyword::Global ==> normalized(d.pattern).1 is Identifier
            && pattern_tokens(normalized(d.pattern).1) == seq![
            normalized(d.pattern).1->Identifier_name,
        ],
{
    lemma_normalized_is_plain(d.pattern, keyword);
    law_attributes_precede_body(d, keyword, level, max_width);
    lemma_lex_attribute_lines(d.attributes, level);
    lemma_lex_body(d, keyword, level, max_width);
    let lead = indentation(level);
    let lines = attribute_lines(d.attributes, level);
    let body = body_text(d, keyword, level, max_width);
    lemma_join(lines, body, attributes_tokens(d.attributes), body_tokens(d, keyword));
    lemma_indentation(level);
    lemma_leading_spaces(lead, lines + body);
    assert(all_space(seq!['\n'])) by {
        assert(is_space(seq!['\n'][0]));
    }
    lemma_trailing_spaces(lead + (lines + body), seq!['\n']);
    assert(lead + (lines + body) + seq!['\n'] =~= lead + lines + body + seq!['\n']);
}

/// How often `t` stands in `ts`.
pub open spec fn count_token(ts: Seq<Seq<char>>, t: Seq<char>) -> nat
    decreases ts.len(),
{
    if ts.len() == 0 {
        0
    } else {
        count_token(ts.drop_last(), t) + if ts.last() == t {
            1nat
        } else {
            0nat
        }
    }
}

proof fn lemma_count_concat(a: Seq<Seq<char>>, b: Seq<Seq<char>>, t: Seq<char>)
    ensures
        count_token(a + b, t) == count_token(a, t) + count_token(b, t),
    decreases b.len(),
{
    if b.len() == 0 {
        assert(a + b =~= a);
    } else {
        assert((a + b).drop_last() =~= a + b.drop_last());
        assert((a + b).last() == b.last());
        lemma_count_concat(a, b.drop_last(), t);
    }
}

proof fn lemma_count_one(x: Seq<char>, t: Seq<char>)
    ensures
        count_token(seq![x], t) == if x == t {
            1nat
        } else {
            0nat
        },
        count_token(Seq::empty(), t) == 0,
{
    reveal_with_fuel(count_token, 2);
    assert(seq![x].drop_last() =~= Seq::<Seq<char>>::empty());
    assert(seq![x].last() == x);
}

/// The marker `mut` is written at most once: where the pattern behind the keyword
/// holds no token `mut`, as the name of a global other than `mut` does not, the
/// tokens up to the pattern hold it once if the declaration is marked, and not at
/// all if it is not.
pub proof fn law_mut_written_once(d: DeclarationView, keyword: BindingKeyword)
    requires
        legal_for(d.pattern, keyword),
        count_token(pattern_tokens(normalized(d.pattern).1), "mut"@) == 0,
    ensures
        count_token(binding_tokens(d, keyword), "mut"@) == if carries_mut(d.pattern) {
            1nat
        } else {
            0nat
        },
{
    let m = "mut"@;
    reveal_strlit("mut");
    reveal_strlit("pub");
    reveal_strlit("(");
    reveal_strlit("crate");
    reveal_strlit(")");
    reveal_strlit("comptime");
    reveal_strlit("let");
    reveal_strlit("global");
    lemma_normalized_is_plain(d.pattern, keyword);
    let v = visibility_tokens(d.visibility);
    let c = flag_tokens(d.is_comptime, "comptime"@);
    let f = flag_tokens(normalized(d.pattern).0 is Some, m);
    let k = seq![keyword_token(keyword)];
    let p = pattern_tokens(normalized(d.pattern).1);
    lemma_count_one("pub"@, m);
    lemma_count_one("("@, m);
    lemma_count_one("crate"@, m);
    lemma_count_one(")"@, m);
    lemma_count_one("comptime"@, m);
    lemma_count_one(m, m);
    lemma_count_one(keyword_token(keyword), m);
    assert("pub"@ != m) by {
        assert("pub"@[0] != m[0]);
    }
    assert("("@ != m && ")"@ != m && "crate"@ != m && "comptime"@ != m && "global"@ != m) by {
        assert("("@.len() != m.len());
        assert(")"@.len() != m.len());
        assert("crate"@.len() != m.len());
        assert("comptime"@.len() != m.len());
        assert("global"@.len() != m.len());
    }
    assert("let"@ != m) by {
        assert("let"@[0] != m[0]);
    }
    assert(count_token(v, m) == 0) by {
        match d.visibility {
            Visibility::PublicCrate => {
                assert(v =~= seq!["pub"@] + seq!["("@] + seq!["crate"@] + seq![")"@]);
                lemma_count_concat(seq!["pub"@], seq!["("@], m);
                lemma_count_concat(seq!["pub"@] + seq!["("@], seq!["crate"@], m);
                lemma_count_concat(seq!["pub"@] + seq!["("@] + seq!["crate"@], seq![")"@], m);
            },
            _ => {},
        }
    }
    lemma_count_concat(v, c, m);
    lemma_count_concat(v + c, f, m);
    lemma_count_concat(v + c + f, k, m);
    lemma_count_concat(v + c + f + k, p, m);
}

/// Spaces between two pieces of source change nothing but the place where the
/// tokens of the one end and those of the other begin: whatever the spaces are, and
/// even with none where the two pieces cannot run together, the tokens are those of
/// the first piece followed by those of the second.
pub proof fn law_spaces_separate(a: Seq<char>, w: Seq<char>, b: Seq<char>)
    requires
        all_space(w),
        w.len() > 0 || boundary_ok(a, b),
    ensures
        lex(a + w + b) == then_tokens(lex(a), lex(b)),
{
    lemma_lex_spaces(w);
    if w.len() > 0 {
        assert(is_space(w[0]));
        assert(is_space(w.last()));
        assert((a + w).last() == w.last());
        lemma_lex_concat(a, w);
        lemma_lex_concat(a + w, b);
        if let Ok(ta) = lex(a) {
            assert(ta + Seq::<Seq<char>>::empty() =~= ta);
        }
    } else {
        assert(a + w =~= a);
        lemma_lex_concat(a, b);
    }
}

/// The spacing of the source does not reach the formatted text: two sources that
/// differ only in the spaces, tabs and line ends at one place between tokens, or
/// before the first or behind the last of them, are formatted alike.
pub proof fn law_spacing_is_canonical(
    a: Seq<char>,
    w1: Seq<char>,
    w2: Seq<char>,
    b: Seq<char>,
    max_width: nat,
)
    requires
        all_space(w1),
        all_space(w2),
        w1.len() > 0 && w2.len() > 0 || a.len() == 0 || b.len() == 0,
    ensures
        lex(a + w1 + b) == lex(a + w2 + b),
        formatted_source(a + w1 + b, max_width) == formatted_source(a + w2 + b, max_width),
{
    law_spaces_separate(a, w1, b);
    law_spaces_separate(a, w2, b);
}

/// Sources with the same tokens are formatted alike.
pub proof fn law_tokens_decide(s1: Seq<char>, s2: Seq<char>, max_width: nat)
    requires
        lex(s1) == lex(s2),
    ensures
        formatted_source(s1, max_width) == formatted_source(s2, max_width),
{
}

/// Formatting changes spacing only, and formatting its own output changes nothing:
/// the formatted text holds the tokens of the source, and is its own formatted
/// text.
pub proof fn law_format_is_idempotent(src: Seq<char>, max_width: nat)
    ensures
        formatted_source(src, max_width) matches Ok(out) ==> lex(out) == lex(src)
            && formatted_source(out, max_width) == Ok::<Seq<char>, SourceError>(out),
{
    if let Ok(out) = formatted_source(src, max_width) {
        let ts = lex(src)->Ok_0;
        let d = parse_tokens(ts)->Ok_0;
        lemma_lex_tokens(src);
        lemma_parse_spells(ts);
        law_tokens_in_order(d, BindingKeyword::Global, 0, max_width);
        assert(lex(out) == lex(src));
        law_tokens_decide(out, src, max_width);
    }
}

/// What the formatter writes for a global is a source of that global, and is
/// canonical: the text of a well-formed global, built by parsing or by hand, is
/// parsed back to it, and formatting that text gives the text again.
pub proof fn law_written_global_reads_back(d: DeclarationView, level: nat, max_width: nat)
    requires
        format_error(d) is None,
        legal_for(d.pattern, BindingKeyword::Global),
    ensures
        source_declaration(declaration_text(d, BindingKeyword::Global, level, max_width)) == Ok::<
            DeclarationView,
            SourceError,
        >(as_parsed(d)),
        formatted_source(declaration_text(d, BindingKeyword::Global, 0, max_width), max_width)
            == Ok::<Seq<char>, SourceError>(
            declaration_text(d, BindingKeyword::Global, 0, max_width),
        ),
{
    law_tokens_in_order(d, BindingKeyword::Global, level, max_width);
    law_tokens_in_order(d, BindingKeyword::Global, 0, max_width);
    law_spelled_tokens_parse_back(d);
    let p = as_parsed(d);
    assert(declaration_group(p, BindingKeyword::Global) == declaration_group(
        d,
        BindingKeyword::Global,
    )) by {
        assert(head_text(p, BindingKeyword::Global) == head_text(d, BindingKeyword::Global));
        assert(body_group(p, BindingKeyword::Global) == body_group(d, BindingKeyword::Global));
    }
}

} // verus!
