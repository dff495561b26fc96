//! From tokens to a global declaration.
//!
//! The tokens of one declaration are, in this order: any number of attributes
//! `#[ .. ]`; `pub` or `pub(crate)`; `comptime`; `mut`; the keyword `global`; a
//! name; `:` and a type; `=` and an initializer; `;`. All but the keyword, the name
//! and the semicolon may be absent. The first `;` ends the declaration and nothing
//! may follow it; the first `=` behind a type ends the type; the first `]` ends an
//! attribute.

use vstd::prelude::*;
use crate::lexer::{all_tokens, is_token, is_token_text, tokens_view};
use crate::pattern::{is_identifier, legal_global, normalized, PatternNode, PatternView};
use crate::syntax::{
    attribute_ok, attribute_tokens, attributes_ok, attributes_tokens, attributes_view,
    declaration_ok, declaration_tokens, flag_tokens, initializer_ok, initializer_tokens,
    option_expr_view, option_type_view, type_ok, type_tokens, visibility_tokens, AttributeNode,
    Declaration, DeclarationView, ExprNode, TypeNode, Visibility,
};
use crate::pattern::BindingKeyword;
use crate::text::{is_digit_char, is_word_char};

verus! {

/// Why a run of tokens is no global declaration.
#[derive(Clone, Copy, Debug, PartialEq, Eq, Structural)]
pub enum ParseError {
    /// `#[` is never closed by `]`.
    UnclosedAttribute,
    /// `#[` is closed at once.
    EmptyAttribute,
    /// Where the keyword `global` should stand, it does not.
    ExpectedGlobal,
    /// No name follows the keyword.
    ExpectedName,
    /// There is no `;` behind the name.
    MissingSemicolon,
    /// Something follows the first `;`.
    TrailingTokens,
    /// What follows the name is neither `:`, `=` nor `;`.
    UnexpectedToken,
    /// Nothing stands between `:` and what ends the type.
    EmptyType,
    /// Nothing stands between `=` and `;`.
    EmptyInitializer,
}

/// The place of the first `t` in `ts`, or the length of `ts` where there is none.
pub open spec fn find_token(ts: Seq<Seq<char>>, t: Seq<char>) -> nat
    decreases ts.len(),
{
    if ts.len() == 0 || ts[0] == t {
        0
    } else {
        1 + find_token(ts.skip(1), t)
    }
}

pub open spec fn opens_attribute(ts: Seq<Seq<char>>) -> bool {
    ts.len() >= 2 && ts[0] == "#"@ && ts[1] == "["@
}

/// `pre` in front of the attributes of `res`.
pub open spec fn with_attributes(
    pre: Seq<Seq<Seq<char>>>,
    res: Result<(Seq<Seq<Seq<char>>>, Seq<Seq<char>>), ParseError>,
) -> Result<(Seq<Seq<Seq<char>>>, Seq<Seq<char>>), ParseError> {
    match res {
        Ok((more, rest)) => Ok((pre + more, rest)),
        Err(e) => Err(e),
    }
}

/// The attributes that `ts` starts with, and what follows them.
pub open spec fn split_attributes(ts: Seq<Seq<char>>) -> Result<
    (Seq<Seq<Seq<char>>>, Seq<Seq<char>>),
    ParseError,
>
    decreases ts.len(),
{
    if opens_attribute(ts) {
        let inner = ts.skip(2);
        let k = find_token(inner, "]"@) as int;
        if k >= inner.len() {
            Err(ParseError::UnclosedAttribute)
        } else if k == 0 {
            Err(ParseError::EmptyAttribute)
        } else {
            with_attributes(seq![inner.take(k)], split_attributes(inner.skip(k + 1)))
        }
    } else {
        Ok((Seq::empty(), ts))
    }
}

/// The visibility that `ts` starts with, and what follows it.
pub open spec fn split_visibility(ts: Seq<Seq<char>>) -> (Visibility, Seq<Seq<char>>) {
    if ts.len() >= 1 && ts[0] == "pub"@ {
        if ts.len() >= 4 && ts[1] == "("@ && ts[2] == "crate"@ && ts[3] == ")"@ {
            (Visibility::PublicCrate, ts.skip(4))
        } else {
            (Visibility::Public, ts.skip(1))
        }
    } else {
        (Visibility::Private, ts)
    }
}

/// Whether `ts` starts with `word`, and what follows it if so.
pub open spec fn split_flag(ts: Seq<Seq<char>>, word: Seq<char>) -> (bool, Seq<Seq<char>>) {
    if ts.len() >= 1 && ts[0] == word {
        (true, ts.skip(1))
    } else {
        (false, ts)
    }
}

/// The type and the initializer in `ts`, which is what follows the name.
pub open spec fn tail_parts(ts: Seq<Seq<char>>) -> Result<
    (Option<Seq<Seq<char>>>, Option<Seq<Seq<char>>>),
    ParseError,
> {
    let semi = find_token(ts, ";"@) as int;
    if semi >= ts.len() {
        Err(ParseError::MissingSemicolon)
    } else if semi + 1 < ts.len() {
        Err(ParseError::TrailingTokens)
    } else if semi == 0 {
        Ok((None, None))
    } else if ts[0] == ":"@ {
        let rest = ts.subrange(1, semi);
        let eq = find_token(rest, "="@) as int;
        if eq == 0 {
            Err(ParseError::EmptyType)
        } else if eq >= rest.len() {
            Ok((Some(rest), None))
        } else if eq + 1 >= rest.len() {
            Err(ParseError::EmptyInitializer)
        } else {
            Ok((Some(rest.take(eq)), Some(rest.skip(eq + 1))))
        }
    } else if ts[0] == "="@ {
        if semi == 1 {
            Err(ParseError::EmptyInitializer)
        } else {
            Ok((None, Some(ts.subrange(1, semi))))
        }
    } else {
        Err(ParseError::UnexpectedToken)
    }
}

/// The pattern of a global `name`, wrapped where `mut` stood before the keyword.
pub open spec fn global_pattern(name: Seq<char>, is_mut: bool) -> PatternView {
    let plain = PatternView::Identifier { name, is_mut: false };
    if is_mut {
        PatternView::MutWrapped(Box::new(plain))
    } else {
        plain
    }
}

/// The declaration that the tokens `ts` spell, or why they spell none.
pub open spec fn parse_tokens(ts: Seq<Seq<char>>) -> Result<DeclarationView, ParseError> {
    match split_attributes(ts) {
        Err(e) => Err(e),
        Ok((attributes, r1)) => {
            let (visibility, r2) = split_visibility(r1);
            let (is_comptime, r3) = split_flag(r2, "comptime"@);
            let (is_mut, r4) = split_flag(r3, "mut"@);
            if !(r4.len() >= 1 && r4[0] == "global"@) {
                Err(ParseError::ExpectedGlobal)
            } else if !(r4.len() >= 2 && is_identifier(r4[1])) {
                Err(ParseError::ExpectedName)
            } else {
                match tail_parts(r4.skip(2)) {
                    Err(e) => Err(e),
                    Ok((type_annotation, initializer)) => Ok(
                        DeclarationView {
                            visibility,
                            is_comptime,
                            pattern: global_pattern(r4[1], is_mut),
                            type_annotation,
                            initializer,
                            attributes,
                        },
                    ),
                }
            }
        },
    }
}

pub proof fn lemma_find_token(ts: Seq<Seq<char>>, t: Seq<char>)
    ensures
        find_token(ts, t) <= ts.len(),
        forall|j: int| 0 <= j < find_token(ts, t) ==> (#[trigger] ts[j]) != t,
        find_token(ts, t) < ts.len() ==> ts[find_token(ts, t) as int] == t,
    decreases ts.len(),
{
    if ts.len() == 0 || ts[0] == t {
    } else {
        let r = ts.skip(1);
        lemma_find_token(r, t);
        assert forall|j: int| 0 <= j < find_token(ts, t) implies (#[trigger] ts[j]) != t by {
            if j > 0 {
                assert(r[j - 1] == ts[j]);
            }
        }
        if find_token(ts, t) < ts.len() {
            assert(r[find_token(r, t) as int] == ts[find_token(ts, t) as int]);
        }
    }
}

/// Where the first `k` tokens differ from `t`, the search goes on behind them.
pub proof fn lemma_find_skip(ts: Seq<Seq<char>>, t: Seq<char>, k: int)
    requires
        0 <= k <= ts.len(),
        forall|j: int| 0 <= j < k ==> (#[trigger] ts[j]) != t,
    ensures
        find_token(ts, t) == k + find_token(ts.skip(k), t),
    decreases k,
{
    if k == 0 {
        assert(ts.skip(0) =~= ts);
    } else {
        let r = ts.skip(1);
        assert forall|j: int| 0 <= j < k - 1 implies (#[trigger] r[j]) != t by {
            assert(r[j] == ts[j + 1]);
        }
        lemma_find_skip(r, t, k - 1);
        assert(r.skip(k - 1) =~= ts.skip(k));
        assert(ts[0] != t);
    }
}

proof fn lemma_sub_tokens(ts: Seq<Seq<char>>, from: int, to: int)
    requires
        all_tokens(ts),
        0 <= from <= to <= ts.len(),
    ensures
        all_tokens(ts.subrange(from, to)),
{
    assert forall|i: int| 0 <= i < to - from implies is_token(#[trigger] ts.subrange(from, to)[i]) by {
        assert(ts.subrange(from, to)[i] == ts[from + i]);
    }
}

/// What `split_attributes` takes off the front are whole attributes, and nothing
/// else is lost.
pub proof fn lemma_split_attributes(ts: Seq<Seq<char>>)
    ensures
        split_attributes(ts) matches Ok((attrs, rest)) ==> {
            &&& ts == attributes_tokens(attrs) + rest
            &&& (all_tokens(ts) ==> attributes_ok(attrs) && all_tokens(rest))
        },
    decreases ts.len(),
{
    if opens_attribute(ts) {
        let inner = ts.skip(2);
        let k = find_token(inner, "]"@) as int;
        lemma_find_token(inner, "]"@);
        if k < inner.len() && k > 0 {
            let after = inner.skip(k + 1);
            lemma_split_attributes(after);
            if let Ok((more, rest)) = split_attributes(after) {
                let first = inner.take(k);
                let attrs = seq![first] + more;
                assert(attrs[0] == first);
                assert(attrs.skip(1) =~= more);
                assert(ts =~= attribute_tokens(first) + after);
                assert(attribute_tokens(first) + (attributes_tokens(more) + rest) =~= (
                attribute_tokens(first) + attributes_tokens(more)) + rest);
                if all_tokens(ts) {
                    lemma_sub_tokens(ts, 2, 2 + k);
                    assert(ts.subrange(2, 2 + k) =~= first);
                    lemma_sub_tokens(ts, 2 + k + 1, ts.len() as int);
                    assert(ts.subrange(2 + k + 1, ts.len() as int) =~= after);
                    assert(!first.contains("]"@)) by {
                        if first.contains("]"@) {
                            let j = choose|j: int| 0 <= j < first.len() && first[j] == "]"@;
                            assert(inner[j] == first[j]);
                        }
                    }
                    assert forall|i: int| 0 <= i < attrs.len() implies attribute_ok(
                        #[trigger] attrs[i],
                    ) by {
                        if i > 0 {
                            assert(attrs[i] == more[i - 1]);
                        }
                    }
                }
            }
        }
    } else {
        assert(Seq::<Seq<char>>::empty() + ts =~= ts);
    }
}

/// The type and the initializer that `tail_parts` finds span all of the tail but its
/// semicolon, and are fit to be written.
pub proof fn lemma_tail_parts(ts: Seq<Seq<char>>)
    ensures
        tail_parts(ts) matches Ok((ty, init)) ==> {
            &&& ts == type_tokens(ty) + initializer_tokens(init) + seq![";"@]
            &&& (all_tokens(ts) ==> (ty matches Some(t) ==> type_ok(t)) && (init matches Some(e)
                ==> initializer_ok(e)))
        },
{
    let semi = find_token(ts, ";"@) as int;
    lemma_find_token(ts, ";"@);
    if let Ok((ty, init)) = tail_parts(ts) {
        assert(semi + 1 == ts.len());
        let out = type_tokens(ty) + initializer_tokens(init) + seq![";"@];
        if semi == 0 {
            assert(ts =~= out);
        } else if ts[0] == ":"@ {
            let rest = ts.subrange(1, semi);
            let eq = find_token(rest, "="@) as int;
            lemma_find_token(rest, "="@);
            assert forall|j: int| 0 <= j < rest.len() implies (#[trigger] rest[j]) != ";"@ by {
                assert(rest[j] == ts[j + 1]);
            }
            if eq >= rest.len() {
                assert(ts =~= out);
                if all_tokens(ts) {
                    lemma_sub_tokens(ts, 1, semi);
                }
            } else {
                let t = rest.take(eq);
                let e = rest.skip(eq + 1);
                assert(rest[eq] == ts[eq + 1]);
                assert(ts =~= out);
                assert forall|j: int| 0 <= j < t.len() implies (#[trigger] t[j]) != ";"@ && t[j]
                    != "="@ by {
                    assert(t[j] == rest[j]);
                }
                assert forall|j: int| 0 <= j < e.len() implies (#[trigger] e[j]) != ";"@ by {
                    assert(e[j] == rest[j + eq + 1]);
                }
                if all_tokens(ts) {
                    lemma_sub_tokens(ts, 1, 1 + eq);
                    assert(ts.subrange(1, 1 + eq) =~= t);
                    lemma_sub_tokens(ts, eq + 2, semi);
                    assert(ts.subrange(eq + 2, semi) =~= e);
                }
            }
        } else {
            let e = ts.subrange(1, semi);
            assert(ts =~= out);
            assert forall|j: int| 0 <= j < e.len() implies (#[trigger] e[j]) != ";"@ by {
                assert(e[j] == ts[j + 1]);
            }
            if all_tokens(ts) {
                lemma_sub_tokens(ts, 1, semi);
            }
        }
    }
}

/// What `split_visibility` takes off the front are the tokens of the visibility.
pub proof fn lemma_split_visibility(ts: Seq<Seq<char>>)
    ensures
        ts == visibility_tokens(split_visibility(ts).0) + split_visibility(ts).1,
        all_tokens(ts) ==> all_tokens(split_visibility(ts).1),
{
    let (v, rest) = split_visibility(ts);
    assert(ts =~= visibility_tokens(v) + rest);
    if all_tokens(ts) {
        lemma_sub_tokens(ts, ts.len() - rest.len(), ts.len() as int);
        assert(ts.subrange(ts.len() - rest.len(), ts.len() as int) =~= rest);
    }
}

/// What `split_flag` takes off the front is the flag's word, where it is there.
pub proof fn lemma_split_flag(ts: Seq<Seq<char>>, word: Seq<char>)
    ensures
        ts == flag_tokens(split_flag(ts, word).0, word) + split_flag(ts, word).1,
        all_tokens(ts) ==> all_tokens(split_flag(ts, word).1),
{
    let (present, rest) = split_flag(ts, word);
    assert(ts =~= flag_tokens(present, word) + rest);
    if all_tokens(ts) {
        lemma_sub_tokens(ts, ts.len() - rest.len(), ts.len() as int);
        assert(ts.subrange(ts.len() - rest.len(), ts.len() as int) =~= rest);
    }
}

/// A declaration that was parsed spells the very tokens it was parsed from, and
/// every part of it is fit to be written.
pub proof fn lemma_parse_spells(ts: Seq<Seq<char>>)
    requires
        all_tokens(ts),
    ensures
        parse_tokens(ts) matches Ok(d) ==> {
            &&& declaration_tokens(d, BindingKeyword::Global) == ts
            &&& declaration_ok(d)
            &&& legal_global(d.pattern)
        },
{
    if let Ok(d) = parse_tokens(ts) {
        lemma_split_attributes(ts);
        let (attributes, r1) = split_attributes(ts)->Ok_0;
        let (visibility, r2) = split_visibility(r1);
        let (is_comptime, r3) = split_flag(r2, "comptime"@);
        let (is_mut, r4) = split_flag(r3, "mut"@);
        lemma_split_visibility(r1);
        lemma_split_flag(r2, "comptime"@);
        lemma_split_flag(r3, "mut"@);
        let name = r4[1];
        let tail = r4.skip(2);
        lemma_sub_tokens(r4, 2, r4.len() as int);
        assert(r4.subrange(2, r4.len() as int) =~= tail);
        lemma_tail_parts(tail);
        lemma_spelling(d, is_mut, r1, r2, r3, r4, tail);
    }
}

/// Eight runs of tokens set side by side, grouped from the left or from the right.
pub proof fn lemma_regroup(
    a: Seq<Seq<char>>,
    b: Seq<Seq<char>>,
    c: Seq<Seq<char>>,
    k: Seq<Seq<char>>,
    n: Seq<Seq<char>>,
    t: Seq<Seq<char>>,
    e: Seq<Seq<char>>,
    s: Seq<Seq<char>>,
)
    ensures
        a + b + c + k + n + t + e + s == a + (b + (c + (k + n + (t + e + s)))),
{
    assert(a + b + c + k + n + t + e + s =~= a + (b + (c + (k + n + (t + e + s)))));
}

proof fn lemma_spelling(
    d: DeclarationView,
    is_mut: bool,
    r1: Seq<Seq<char>>,
    r2: Seq<Seq<char>>,
    r3: Seq<Seq<char>>,
    r4: Seq<Seq<char>>,
    tail: Seq<Seq<char>>,
)
    requires
        r1 == visibility_tokens(d.visibility) + r2,
        r2 == flag_tokens(d.is_comptime, "comptime"@) + r3,
        r3 == flag_tokens(is_mut, "mut"@) + r4,
        r4.len() >= 2,
        r4[0] == "global"@,
        tail == r4.skip(2),
        d.pattern == global_pattern(r4[1], is_mut),
        tail == type_tokens(d.type_annotation) + initializer_tokens(d.initializer) + seq![";"@],
    ensures
        crate::syntax::body_tokens(d, BindingKeyword::Global) == r1,
{
    let name = r4[1];
    assert(normalized(d.pattern).1 == PatternView::Identifier { name, is_mut: false });
    assert(normalized(d.pattern).0 is Some == is_mut);
    let k = seq!["global"@];
    let n = seq![name];
    assert(crate::pattern::pattern_tokens(normalized(d.pattern).1) == n);
    assert(r4 =~= k + n + tail);
    lemma_regroup(
        visibility_tokens(d.visibility),
        flag_tokens(d.is_comptime, "comptime"@),
        flag_tokens(is_mut, "mut"@),
        k,
        n,
        type_tokens(d.type_annotation),
        initializer_tokens(d.initializer),
        seq![";"@],
    );
}

fn text_is(t: &String, word: &str) -> (b: bool)
    ensures
        b == (t@ == word@),
{
    let w = String::from_str(word);
    *t == w
}

/// Whether the token at `i` is `word`.
fn token_is(tokens: &Vec<String>, i: usize, word: &str) -> (b: bool)
    ensures
        b == (i < tokens.len() && tokens_view(tokens@)[i as int] == word@),
{
    i < tokens.len() && text_is(&tokens[i], word)
}

/// The place of the first `word` among the tokens from `from` up to `to`.
fn find_between(tokens: &Vec<String>, from: usize, to: usize, word: &str) -> (k: usize)
    requires
        from <= to <= tokens.len(),
    ensures
        from <= k <= to,
        k - from == find_token(tokens_view(tokens@).subrange(from as int, to as int), word@),
{
    let ghost sub = tokens_view(tokens@).subrange(from as int, to as int);
    let mut k: usize = from;
    while k < to && !text_is(&tokens[k], word)
        invariant
            from <= k <= to,
            to <= tokens.len(),
            sub == tokens_view(tokens@).subrange(from as int, to as int),
            forall|j: int| 0 <= j < k - from ==> (#[trigger] sub[j]) != word@,
        decreases to - k,
    {
        proof {
            assert(sub[k - from] == tokens_view(tokens@)[k as int]);
        }
        k += 1;
    }
    proof {
        lemma_find_skip(sub, word@, k - from);
        let r = sub.skip(k - from);
        if k < to {
            assert(r[0] == tokens_view(tokens@)[k as int]);
        }
        assert(find_token(r, word@) == 0);
    }
    k
}

/// The tokens from `from` up to `to`.
fn copy_range(tokens: &Vec<String>, from: usize, to: usize) -> (r: Vec<String>)
    requires
        from <= to <= tokens.len(),
    ensures
        tokens_view(r@) == tokens_view(tokens@).subrange(from as int, to as int),
{
    let mut r: Vec<String> = Vec::new();
    let mut k: usize = from;
    while k < to
        invariant
            from <= k <= to,
            to <= tokens.len(),
            tokens_view(r@) == tokens_view(tokens@).subrange(from as int, k as int),
        decreases to - k,
    {
        let t = tokens[k].clone();
        proof {
            assert(tokens_view(r@.push(t)) =~= tokens_view(r@).push(t@));
            assert(tokens_view(tokens@).subrange(from as int, k + 1) =~= tokens_view(
                tokens@,
            ).subrange(from as int, k as int).push(tokens_view(tokens@)[k as int]));
        }
        r.push(t);
        k += 1;
    }
    r
}

/// Whether `t` is a name.
pub fn is_identifier_text(t: &str) -> (b: bool)
    ensures
        b == is_identifier(t@),
{
    if !is_token_text(t) {
        return false;
    }
    let c = t.get_char(0);
    is_word_char(c) && !is_digit_char(c)
}

fn parse_attributes(tokens: &Vec<String>) -> (r: Result<(Vec<AttributeNode>, usize), ParseError>)
    ensures
        match r {
            Ok((attrs, i)) => i <= tokens.len() && split_attributes(tokens_view(tokens@)) == Ok::<
                (Seq<Seq<Seq<char>>>, Seq<Seq<char>>),
                ParseError,
            >((attributes_view(attrs@), tokens_view(tokens@).skip(i as int))),
            Err(e) => split_attributes(tokens_view(tokens@)) == Err::<
                (Seq<Seq<Seq<char>>>, Seq<Seq<char>>),
                ParseError,
            >(e),
        },
{
    let ghost tv = tokens_view(tokens@);
    let n = tokens.len();
    let mut attrs: Vec<AttributeNode> = Vec::new();
    let mut i: usize = 0;
    proof {
        assert(tv.skip(0) =~= tv);
        assert(attributes_view(attrs@) =~= Seq::empty());
        if let Ok((more, rest)) = split_attributes(tv) {
            assert(Seq::<Seq<Seq<char>>>::empty() + more =~= more);
        }
    }
    while token_is(tokens, i, "#") && token_is(tokens, i + 1, "[")
        invariant
            tv == tokens_view(tokens@),
            n == tokens.len(),
            i <= n,
            split_attributes(tv) == with_attributes(
                attributes_view(attrs@),
                split_attributes(tv.skip(i as int)),
            ),
        decreases n - i,
    {
        let ghost here = tv.skip(i as int);
        let ghost inner = here.skip(2);
        proof {
            assert(here[0] == tv[i as int]);
            assert(here[1] == tv[i + 1]);
            assert(opens_attribute(here));
            assert(inner =~= tv.subrange(i + 2, n as int));
        }
        let close = find_between(tokens, i + 2, n, "]");
        if close >= n {
            return Err(ParseError::UnclosedAttribute);
        }
        if close == i + 2 {
            return Err(ParseError::EmptyAttribute);
        }
        let body = copy_range(tokens, i + 2, close);
        proof {
            let k = close - (i + 2);
            assert(inner.take(k) =~= tv.subrange(i + 2, close as int));
            assert(inner.skip(k + 1) =~= tv.skip(close + 1));
            let node = AttributeNode { tokens: body };
            assert(attributes_view(attrs@.push(node)) =~= attributes_view(attrs@).push(node@));
            let next = split_attributes(tv.skip(close + 1));
            if let Ok((more, rest)) = next {
                assert(attributes_view(attrs@) + (seq![inner.take(k)] + more) =~= attributes_view(
                    attrs@,
                ).push(node@) + more);
            }
        }
        attrs.push(AttributeNode { tokens: body });
        i = close + 1;
    }
    proof {
        let here = tv.skip(i as int);
        if i < n {
            assert(here[0] == tv[i as int]);
        }
        if i + 1 < n {
            assert(here[1] == tv[i + 1]);
        }
        assert(!opens_attribute(here));
        assert(attributes_view(attrs@) + Seq::<Seq<Seq<char>>>::empty() =~= attributes_view(
            attrs@,
        ));
    }
    Ok((attrs, i))
}

fn parse_visibility(tokens: &Vec<String>, i: usize) -> (r: (Visibility, usize))
    requires
        i <= tokens.len(),
    ensures
        i <= r.1 <= tokens.len(),
        split_visibility(tokens_view(tokens@).skip(i as int)).0 == r.0,
        split_visibility(tokens_view(tokens@).skip(i as int)).1 == tokens_view(tokens@).skip(
            r.1 as int,
        ),
{
    let ghost tv = tokens_view(tokens@);
    let ghost here = tv.skip(i as int);
    proof {
        if i < tokens.len() {
            assert(here[0] == tv[i as int]);
            assert(here.skip(1) =~= tv.skip(i + 1));
        }
        if i + 3 < tokens.len() {
            assert(here[1] == tv[i + 1]);
            assert(here[2] == tv[i + 2]);
            assert(here[3] == tv[i + 3]);
            assert(here.skip(4) =~= tv.skip(i + 4));
        }
    }
    if token_is(tokens, i, "pub") {
        if tokens.len() - i > 3 && token_is(tokens, i + 1, "(") && token_is(tokens, i + 2, "crate")
            && token_is(tokens, i + 3, ")") {
            (Visibility::PublicCrate, i + 4)
        } else {
            (Visibility::Public, i + 1)
        }
    } else {
        (Visibility::Private, i)
    }
}

fn parse_flag(tokens: &Vec<String>, i: usize, word: &str) -> (r: (bool, usize))
    requires
        i <= tokens.len(),
    ensures
        i <= r.1 <= tokens.len(),
        split_flag(tokens_view(tokens@).skip(i as int), word@).0 == r.0,
        split_flag(tokens_view(tokens@).skip(i as int), word@).1 == tokens_view(tokens@).skip(
            r.1 as int,
        ),
{
    let ghost tv = tokens_view(tokens@);
    let ghost here = tv.skip(i as int);
    proof {
        if i < tokens.len() {
            assert(here[0] == tv[i as int]);
            assert(here.skip(1) =~= tv.skip(i + 1));
        }
    }
    if token_is(tokens, i, word) {
        (true, i + 1)
    } else {
        (false, i)
    }
}

fn parse_tail(tokens: &Vec<String>, i: usize) -> (r: Result<
    (Option<TypeNode>, Option<ExprNode>),
    ParseError,
>)
    requires
        i <= tokens.len(),
    ensures
        match r {
            Ok((ty, init)) => tail_parts(tokens_view(tokens@).skip(i as int)) == Ok::<
                (Option<Seq<Seq<char>>>, Option<Seq<Seq<char>>>),
                ParseError,
            >((option_type_view(ty), option_expr_view(init))),
            Err(e) => tail_parts(tokens_view(tokens@).skip(i as int)) == Err::<
                (Option<Seq<Seq<char>>>, Option<Seq<Seq<char>>>),
                ParseError,
            >(e),
        },
{
    let ghost tv = tokens_view(tokens@);
    let ghost here = tv.skip(i as int);
    let n = tokens.len();
    proof {
        assert(here =~= tv.subrange(i as int, n as int));
    }
    let semi = find_between(tokens, i, n, ";");
    if semi >= n {
        return Err(ParseError::MissingSemicolon);
    }
    if semi + 1 < n {
        return Err(ParseError::TrailingTokens);
    }
    if semi == i {
        return Ok((None, None));
    }
    proof {
        assert(here[0] == tv[i as int]);
        assert(here.subrange(1, semi - i) =~= tv.subrange(i + 1, semi as int));
    }
    if token_is(tokens, i, ":") {
        let ghost rest = tv.subrange(i + 1, semi as int);
        let eq = find_between(tokens, i + 1, semi, "=");
        if eq == i + 1 {
            return Err(ParseError::EmptyType);
        }
        if eq >= semi {
            let ty = TypeNode { tokens: copy_range(tokens, i + 1, semi) };
            return Ok((Some(ty), None));
        }
        if eq + 1 >= semi {
            return Err(ParseError::EmptyInitializer);
        }
        let ty = TypeNode { tokens: copy_range(tokens, i + 1, eq) };
        let init = ExprNode { tokens: copy_range(tokens, eq + 1, semi) };
        proof {
            let k = eq - (i + 1);
            assert(rest.take(k) =~= tv.subrange(i + 1, eq as int));
            assert(rest.skip(k + 1) =~= tv.subrange(eq + 1, semi as int));
        }
        Ok((Some(ty), Some(init)))
    } else if token_is(tokens, i, "=") {
        if semi == i + 1 {
            return Err(ParseError::EmptyInitializer);
        }
        let init = ExprNode { tokens: copy_range(tokens, i + 1, semi) };
        Ok((None, Some(init)))
    } else {
        Err(ParseError::UnexpectedToken)
    }
}

/// The global declaration that `tokens` spell.
pub fn parse_declaration(tokens: &Vec<String>) -> (r: Result<Declaration, ParseError>)
    ensures
        match r {
            Ok(d) => parse_tokens(tokens_view(tokens@)) == Ok::<DeclarationView, ParseError>(d@),
            Err(e) => parse_tokens(tokens_view(tokens@)) == Err::<DeclarationView, ParseError>(e),
        },
{
    let ghost tv = tokens_view(tokens@);
    let (attributes, i1) = match parse_attributes(tokens) {
        Ok(found) => found,
        Err(e) => {
            return Err(e);
        },
    };
    let (visibility, i2) = parse_visibility(tokens, i1);
    let (is_comptime, i3) = parse_flag(tokens, i2, "comptime");
    let (is_mut, i4) = parse_flag(tokens, i3, "mut");
    let ghost r4 = tv.skip(i4 as int);
    proof {
        if i4 < tokens.len() {
            assert(r4[0] == tv[i4 as int]);
        }
        if i4 + 1 < tokens.len() {
            assert(r4[1] == tv[i4 + 1]);
            assert(r4.skip(2) =~= tv.skip(i4 + 2));
        }
    }
    if !token_is(tokens, i4, "global") {
        return Err(ParseError::ExpectedGlobal);
    }
    if !(i4 + 1 < tokens.len() && is_identifier_text(tokens[i4 + 1].as_str())) {
        return Err(ParseError::ExpectedName);
    }
    let (type_annotation, initializer) = match parse_tail(tokens, i4 + 2) {
        Ok(found) => found,
        Err(e) => {
            return Err(e);
        },
    };
    let name = tokens[i4 + 1].clone();
    let ghost spelled = global_pattern(name@, is_mut);
    let plain = PatternNode::Identifier { name, is_mut: false };
    let pattern = if is_mut {
        PatternNode::MutWrapped(Box::new(plain))
    } else {
        plain
    };
    proof {
        reveal_with_fuel(crate::pattern::pattern_view, 2);
        assert(pattern@ == spelled);
        assert(r4[1] == tokens_view(tokens@)[i4 + 1]);
    }
    let d = Declaration { visibility, is_comptime, pattern, type_annotation, initializer, attributes };
    proof {
        let (a0, r1) = split_attributes(tv)->Ok_0;
        assert(r1 == tv.skip(i1 as int));
        let (v0, r2) = split_visibility(r1);
        assert(r2 == tv.skip(i2 as int));
        let (c0, r3) = split_flag(r2, "comptime"@);
        assert(r3 == tv.skip(i3 as int));
        let (m0, r4b) = split_flag(r3, "mut"@);
        assert(r4b == r4);
        assert(tail_parts(r4.skip(2)) is Ok);
    }
    Ok(d)
}

} // verus!
