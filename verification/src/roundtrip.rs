//! Tokens that a declaration spells are parsed back to that declaration.

use vstd::prelude::*;
use crate::parser::{
    find_token, global_pattern, lemma_find_skip, opens_attribute, parse_tokens, split_attributes,
    split_flag, split_visibility, tail_parts, ParseError,
};
use crate::pattern::{
    carries_mut, is_identifier, legal_global, normalized, pattern_tokens, BindingKeyword,
    PatternView,
};
use crate::syntax::{
    attribute_ok, attributes_ok, attributes_tokens, declaration_ok, declaration_tokens,
    flag_tokens, initializer_ok, initializer_tokens, type_ok, type_tokens, visibility_tokens,
    DeclarationView, Visibility,
};

verus! {

/// The words and signs of a declaration differ from each other.
proof fn lemma_words_differ()
    ensures
        "#"@ != "pub"@ && "#"@ != "comptime"@ && "#"@ != "mut"@ && "#"@ != "global"@,
        "pub"@ != "comptime"@ && "pub"@ != "mut"@ && "pub"@ != "global"@,
        "("@ != "comptime"@ && "("@ != "mut"@ && "("@ != "global"@,
        "comptime"@ != "mut"@ && "comptime"@ != "global"@,
        "mut"@ != "global"@,
        ":"@ != "="@ && ":"@ != ";"@ && "="@ != ";"@,
        "["@ != "]"@,
{
    reveal_strlit("#");
    reveal_strlit("pub");
    reveal_strlit("(");
    reveal_strlit("comptime");
    reveal_strlit("mut");
    reveal_strlit("global");
    reveal_strlit(":");
    reveal_strlit("=");
    reveal_strlit(";");
    reveal_strlit("[");
    reveal_strlit("]");
    assert("#"@.len() == 1 && "("@.len() == 1 && "pub"@.len() == 3 && "mut"@.len() == 3
        && "comptime"@.len() == 8 && "global"@.len() == 6);
    assert("pub"@[0] != "mut"@[0]);
    assert(":"@[0] != "="@[0] && ":"@[0] != ";"@[0] && "="@[0] != ";"@[0]);
    assert("["@[0] != "]"@[0]);
}

proof fn lemma_absent(x: Seq<Seq<char>>, t: Seq<char>)
    requires
        !x.contains(t),
    ensures
        forall|j: int| 0 <= j < x.len() ==> (#[trigger] x[j]) != t,
{
    assert forall|j: int| 0 <= j < x.len() implies (#[trigger] x[j]) != t by {
        if x[j] == t {
            assert(x.contains(t));
        }
    }
}

/// The first `t` behind tokens that hold none is found where they end.
proof fn lemma_find_behind(x: Seq<Seq<char>>, t: Seq<char>, y: Seq<Seq<char>>)
    requires
        !x.contains(t),
    ensures
        find_token(x + seq![t] + y, t) == x.len(),
{
    let whole = x + seq![t] + y;
    lemma_absent(x, t);
    assert forall|j: int| 0 <= j < x.len() implies (#[trigger] whole[j]) != t by {
        assert(whole[j] == x[j]);
    }
    lemma_find_skip(whole, t, x.len() as int);
    assert(whole.skip(x.len() as int)[0] == t);
}

/// Tokens that hold no `t` are searched to their end.
proof fn lemma_find_nowhere(x: Seq<Seq<char>>, t: Seq<char>)
    requires
        !x.contains(t),
    ensures
        find_token(x, t) == x.len(),
{
    lemma_absent(x, t);
    lemma_find_skip(x, t, x.len() as int);
    assert(x.skip(x.len() as int).len() == 0);
}

/// The tokens of attributes, followed by tokens that open no attribute, split into
/// those attributes and what follows.
proof fn lemma_attributes_split(attrs: Seq<Seq<Seq<char>>>, rest: Seq<Seq<char>>)
    requires
        attributes_ok(attrs),
        !opens_attribute(rest),
    ensures
        split_attributes(attributes_tokens(attrs) + rest) == Ok::<
            (Seq<Seq<Seq<char>>>, Seq<Seq<char>>),
            ParseError,
        >((attrs, rest)),
    decreases attrs.len(),
{
    let ts = attributes_tokens(attrs) + rest;
    if attrs.len() == 0 {
        assert(ts =~= rest);
        assert(attrs =~= Seq::empty());
    } else {
        let first = attrs[0];
        let more = attrs.skip(1);
        let after = attributes_tokens(more) + rest;
        assert(attribute_ok(first));
        assert forall|i: int| 0 <= i < more.len() implies attribute_ok(#[trigger] more[i]) by {
            assert(more[i] == attrs[i + 1]);
        }
        lemma_attributes_split(more, rest);
        assert(ts =~= seq!["#"@, "["@] + first + seq!["]"@] + after);
        assert(ts[0] == "#"@ && ts[1] == "["@);
        let inner = ts.skip(2);
        assert(inner =~= first + seq!["]"@] + after);
        lemma_find_behind(first, "]"@, after);
        let k = first.len() as int;
        assert(inner.take(k) =~= first);
        assert(inner.skip(k + 1) =~= after);
        assert(seq![first] + more =~= attrs);
    }
}

/// The tokens of a visibility, followed by a modifier or the keyword, split into
/// that visibility and what follows.
proof fn lemma_visibility_split(v: Visibility, rest: Seq<Seq<char>>)
    requires
        rest.len() > 0,
        rest[0] == "comptime"@ || rest[0] == "mut"@ || rest[0] == "global"@,
    ensures
        split_visibility(visibility_tokens(v) + rest).0 == v,
        split_visibility(visibility_tokens(v) + rest).1 == rest,
{
    lemma_words_differ();
    let ts = visibility_tokens(v) + rest;
    match v {
        Visibility::Private => {
            assert(ts =~= rest);
        },
        Visibility::Public => {
            assert(ts[0] == "pub"@);
            assert(ts[1] == rest[0]);
            assert(ts.skip(1) =~= rest);
        },
        Visibility::PublicCrate => {
            assert(ts[0] == "pub"@ && ts[1] == "("@ && ts[2] == "crate"@ && ts[3] == ")"@);
            assert(ts.skip(4) =~= rest);
        },
    }
}

proof fn lemma_flag_split(present: bool, word: Seq<char>, rest: Seq<Seq<char>>)
    requires
        rest.len() > 0,
        rest[0] != word,
    ensures
        split_flag(flag_tokens(present, word) + rest, word).0 == present,
        split_flag(flag_tokens(present, word) + rest, word).1 == rest,
{
    let ts = flag_tokens(present, word) + rest;
    if present {
        assert(ts[0] == word);
        assert(ts.skip(1) =~= rest);
    } else {
        assert(ts =~= rest);
    }
}

/// The tokens of a type and an initializer that are fit to be written, and the
/// semicolon, split into that type and that initializer.
proof fn lemma_tail_split(ty: Option<Seq<Seq<char>>>, init: Option<Seq<Seq<char>>>)
    requires
        ty matches Some(t) ==> type_ok(t),
        init matches Some(e) ==> initializer_ok(e),
    ensures
        tail_parts(type_tokens(ty) + initializer_tokens(init) + seq![";"@]) == Ok::<
            (Option<Seq<Seq<char>>>, Option<Seq<Seq<char>>>),
            ParseError,
        >((ty, init)),
{
    lemma_words_differ();
    let front = type_tokens(ty) + initializer_tokens(init);
    let ts = front + seq![";"@];
    assert(!front.contains(";"@)) by {
        if front.contains(";"@) {
            let j = choose|j: int| 0 <= j < front.len() && front[j] == ";"@;
            let tt = type_tokens(ty);
            if j < tt.len() {
                assert(front[j] == tt[j]);
                if j > 0 {
                    assert(tt[j] == ty->Some_0[j - 1]);
                    assert(ty->Some_0.contains(";"@));
                }
            } else {
                let it = initializer_tokens(init);
                assert(front[j] == it[j - tt.len()]);
                if j - tt.len() > 0 {
                    assert(it[j - tt.len()] == init->Some_0[j - tt.len() - 1]);
                    assert(init->Some_0.contains(";"@));
                }
            }
        }
    }
    assert(ts =~= front + seq![";"@] + Seq::<Seq<char>>::empty());
    lemma_find_behind(front, ";"@, Seq::empty());
    let semi = front.len() as int;
    match ty {
        Some(t) => {
            assert(ts[0] == ":"@);
            let rest = ts.subrange(1, semi);
            assert(rest =~= t + initializer_tokens(init));
            match init {
                Some(e) => {
                    assert(rest =~= t + seq!["="@] + e);
                    lemma_find_behind(t, "="@, e);
                    let eq = t.len() as int;
                    assert(rest.take(eq) =~= t);
                    assert(rest.skip(eq + 1) =~= e);
                },
                None => {
                    assert(rest =~= t);
                    lemma_find_nowhere(t, "="@);
                },
            }
        },
        None => {
            match init {
                Some(e) => {
                    assert(ts[0] == "="@);
                    assert(ts.subrange(1, semi) =~= e);
                },
                None => {
                    assert(front.len() == 0);
                },
            }
        },
    }
}

/// A declaration as the parser gives it back: the marker `mut`, whichever way it
/// was carried, is the wrapper around the name.
pub open spec fn as_parsed(d: DeclarationView) -> DeclarationView {
    DeclarationView {
        pattern: global_pattern(normalized(d.pattern).1->Identifier_name, carries_mut(d.pattern)),
        ..d
    }
}

proof fn lemma_pieces_parse(
    attrs: Seq<Seq<Seq<char>>>,
    v: Visibility,
    c: bool,
    m: bool,
    name: Seq<char>,
    ty: Option<Seq<Seq<char>>>,
    init: Option<Seq<Seq<char>>>,
)
    requires
        attributes_ok(attrs),
        is_identifier(name),
        ty matches Some(t) ==> type_ok(t),
        init matches Some(e) ==> initializer_ok(e),
    ensures
        parse_tokens(
            attributes_tokens(attrs) + (visibility_tokens(v) + (flag_tokens(c, "comptime"@) + (
            flag_tokens(m, "mut"@) + (seq!["global"@] + seq![name] + (type_tokens(ty)
                + initializer_tokens(init) + seq![";"@]))))),
        ) == Ok::<DeclarationView, ParseError>(
            DeclarationView {
                visibility: v,
                is_comptime: c,
                pattern: global_pattern(name, m),
                type_annotation: ty,
                initializer: init,
                attributes: attrs,
            },
        ),
{
    lemma_words_differ();
    let tail = type_tokens(ty) + initializer_tokens(init) + seq![";"@];
    let r4 = seq!["global"@] + seq![name] + tail;
    let r3 = flag_tokens(m, "mut"@) + r4;
    let r2 = flag_tokens(c, "comptime"@) + r3;
    let r1 = visibility_tokens(v) + r2;
    assert(r4[0] == "global"@ && r4[1] == name);
    assert(r3[0] == "mut"@ || r3[0] == "global"@);
    assert(r2[0] == "comptime"@ || r2[0] == "mut"@ || r2[0] == "global"@);
    assert(r1[0] == "pub"@ || r1[0] == r2[0]);
    assert(!opens_attribute(r1));
    lemma_attributes_split(attrs, r1);
    lemma_visibility_split(v, r2);
    lemma_flag_split(c, "comptime"@, r3);
    lemma_flag_split(m, "mut"@, r4);
    lemma_tail_split(ty, init);
    assert(r4.skip(2) =~= tail);
}

/// The tokens that a well-formed global spells are parsed back to that global:
/// parsing undoes the spelling.
pub proof fn law_spelled_tokens_parse_back(d: DeclarationView)
    requires
        declaration_ok(d),
        legal_global(d.pattern),
    ensures
        parse_tokens(declaration_tokens(d, BindingKeyword::Global)) == Ok::<
            DeclarationView,
            ParseError,
        >(as_parsed(d)),
        normalized(as_parsed(d).pattern) == normalized(d.pattern),
{
    let canonical = normalized(d.pattern).1;
    let name = canonical->Identifier_name;
    let is_mut = carries_mut(d.pattern);
    assert(canonical == PatternView::Identifier { name, is_mut: false });
    assert(normalized(d.pattern).0 is Some == is_mut);
    assert(pattern_tokens(canonical) =~= seq![name]);
    lemma_pieces_parse(
        d.attributes,
        d.visibility,
        d.is_comptime,
        is_mut,
        name,
        d.type_annotation,
        d.initializer,
    );
    crate::parser::lemma_regroup(
        visibility_tokens(d.visibility),
        flag_tokens(d.is_comptime, "comptime"@),
        flag_tokens(is_mut, "mut"@),
        seq!["global"@],
        seq![name],
        type_tokens(d.type_annotation),
        initializer_tokens(d.initializer),
        seq![";"@],
    );
}

} // verus!
