//! Tokens of declaration source.
//!
//! A source text is a run of tokens with spaces between them. A token is a word, the
//! longest run of letters, digits and underscores that starts where it does, or one
//! other character by itself. String literals and comments are no part of what is
//! lexed here: a text that holds a double quote, or a slash followed by a slash or
//! a star, is refused.

use vstd::prelude::*;
use vstd::std_specs::iter::IteratorSpec;
use crate::text::{all_space, all_word, is_space, is_space_char, is_word, is_word_char};

verus! {

/// Why a source text has no tokens.
#[derive(Clone, Copy, Debug, PartialEq, Eq, Structural)]
pub enum LexError {
    /// The text holds a double quote.
    StringLiteral,
    /// The text holds `//` or `/*`.
    Comment,
}

/// Whether `c` is a token by itself.
pub open spec fn is_punct(c: char) -> bool {
    !is_space(c) && !is_word(c) && c != '"'
}

pub open spec fn is_word_token(t: Seq<char>) -> bool {
    t.len() > 0 && all_word(t)
}

pub open spec fn is_punct_token(t: Seq<char>) -> bool {
    t.len() == 1 && is_punct(t[0])
}

/// Whether `t` is the text of one token.
pub open spec fn is_token(t: Seq<char>) -> bool {
    is_word_token(t) || is_punct_token(t)
}

pub open spec fn all_tokens(ts: Seq<Seq<char>>) -> bool {
    forall|i: int| 0 <= i < ts.len() ==> is_token(#[trigger] ts[i])
}

/// The number of word characters that `s` starts with.
pub open spec fn word_len(s: Seq<char>) -> nat
    decreases s.len(),
{
    if s.len() == 0 || !is_word(s[0]) {
        0
    } else {
        1 + word_len(s.skip(1))
    }
}

/// Whether `s` starts as a comment does.
pub open spec fn opens_comment(s: Seq<char>) -> bool {
    s.len() >= 2 && s[0] == '/' && (s[1] == '/' || s[1] == '*')
}

/// The length of the token that `s` starts with; `s` starts with no space.
pub open spec fn token_len(s: Seq<char>) -> nat {
    if is_word(s[0]) {
        word_len(s)
    } else {
        1
    }
}

/// `token` in front of the tokens `rest`, where there are any.
pub open spec fn prepend(token: Seq<char>, rest: Result<Seq<Seq<char>>, LexError>) -> Result<
    Seq<Seq<char>>,
    LexError,
> {
    match rest {
        Ok(ts) => Ok(seq![token] + ts),
        Err(e) => Err(e),
    }
}

/// The tokens of `first` followed by those of `second`; the error of `first`, or
/// else that of `second`, where one of them has none.
pub open spec fn then_tokens(
    first: Result<Seq<Seq<char>>, LexError>,
    second: Result<Seq<Seq<char>>, LexError>,
) -> Result<Seq<Seq<char>>, LexError> {
    match first {
        Err(e) => Err(e),
        Ok(a) => match second {
            Ok(b) => Ok(a + b),
            Err(e) => Err(e),
        },
    }
}

/// The tokens of `s`, or the reason why it has none: that of the leftmost place
/// that is refused.
pub open spec fn lex(s: Seq<char>) -> Result<Seq<Seq<char>>, LexError>
    decreases s.len(),
{
    if s.len() == 0 {
        Ok(Seq::empty())
    } else if is_space(s[0]) {
        lex(s.skip(1))
    } else if s[0] == '"' {
        Err(LexError::StringLiteral)
    } else if opens_comment(s) {
        Err(LexError::Comment)
    } else {
        proof {
            lemma_word_len_bound(s);
        }
        let n = token_len(s) as int;
        prepend(s.take(n), lex(s.skip(n)))
    }
}

/// Whether `b` may follow `a` at once without a token of `a` running into one of
/// `b`: no word meets a word, and no slash meets a slash or a star.
pub open spec fn boundary_ok(a: Seq<char>, b: Seq<char>) -> bool {
    a.len() == 0 || b.len() == 0 || (!(is_word(a.last()) && is_word(b[0])) && !(a.last() == '/' && (
    b[0] == '/' || b[0] == '*')))
}

/// The tokens `ts` as text, with one blank wherever two neighbours would otherwise
/// run into each other, and nothing between the others.
pub open spec fn compact(ts: Seq<Seq<char>>) -> Seq<char>
    decreases ts.len(),
{
    if ts.len() == 0 {
        Seq::empty()
    } else if ts.len() == 1 {
        ts[0]
    } else {
        compact(ts.drop_last()) + gap(ts[ts.len() - 2], ts.last()) + ts.last()
    }
}

/// What stands between the neighbours `a` and `b` in compact text.
pub open spec fn gap(a: Seq<char>, b: Seq<char>) -> Seq<char> {
    if boundary_ok(a, b) {
        Seq::empty()
    } else {
        seq![' ']
    }
}

/// The texts of `ts`.
pub open spec fn tokens_view(ts: Seq<String>) -> Seq<Seq<char>> {
    ts.map_values(|t: String| t@)
}

pub proof fn lemma_word_len_bound(s: Seq<char>)
    ensures
        word_len(s) <= s.len(),
        is_word_token(s.take(word_len(s) as int)) || word_len(s) == 0,
        word_len(s) < s.len() ==> !is_word(s[word_len(s) as int]),
        s.len() > 0 && is_word(s[0]) ==> word_len(s) >= 1,
    decreases s.len(),
{
    if s.len() == 0 || !is_word(s[0]) {
    } else {
        let r = s.skip(1);
        lemma_word_len_bound(r);
        let n = word_len(s) as int;
        assert(n == 1 + word_len(r));
        assert forall|k: int| 0 <= k < n implies is_word(#[trigger] s.take(n)[k]) by {
            if k > 0 {
                assert(r.take(n - 1)[k - 1] == s[k]);
            }
        }
        if n < s.len() {
            assert(r[n - 1] == s[n]);
        }
    }
}

/// A run of `n` word characters that ends the text, or that a character of another
/// kind follows, is the word that the text starts with.
pub proof fn lemma_word_run(s: Seq<char>, n: int)
    requires
        0 <= n <= s.len(),
        forall|k: int| 0 <= k < n ==> is_word(#[trigger] s[k]),
        n == s.len() || !is_word(s[n]),
    ensures
        word_len(s) == n,
    decreases n,
{
    if n > 0 {
        let r = s.skip(1);
        assert forall|k: int| 0 <= k < n - 1 implies is_word(#[trigger] r[k]) by {
            assert(r[k] == s[k + 1]);
        }
        if n < s.len() {
            assert(r[n - 1] == s[n]);
        }
        lemma_word_run(r, n - 1);
    }
}

/// Every token that comes out of `lex` is a word or one other character.
pub proof fn lemma_lex_tokens(s: Seq<char>)
    ensures
        lex(s) matches Ok(ts) ==> all_tokens(ts),
    decreases s.len(),
{
    if s.len() == 0 {
    } else if is_space(s[0]) {
        lemma_lex_tokens(s.skip(1));
    } else if s[0] == '"' || opens_comment(s) {
    } else {
        lemma_word_len_bound(s);
        let n = token_len(s) as int;
        lemma_lex_tokens(s.skip(n));
        if let Ok(rest) = lex(s.skip(n)) {
            let ts = seq![s.take(n)] + rest;
            assert forall|i: int| 0 <= i < ts.len() implies is_token(#[trigger] ts[i]) by {
                if i == 0 {
                    assert(ts[0] == s.take(n));
                    if !is_word(s[0]) {
                        assert(s.take(1)[0] == s[0]);
                    }
                } else {
                    assert(ts[i] == rest[i - 1]);
                }
            }
        }
    }
}

proof fn lemma_word_len_concat(a: Seq<char>, b: Seq<char>)
    requires
        word_len(a) < a.len() || b.len() == 0 || !is_word(b[0]),
    ensures
        word_len(a + b) == word_len(a),
{
    lemma_word_len_bound(a);
    let n = word_len(a) as int;
    let ab = a + b;
    assert forall|k: int| 0 <= k < n implies is_word(#[trigger] ab[k]) by {
        assert(ab[k] == a[k]);
        assert(a.take(n)[k] == a[k]);
    }
    if n < a.len() {
        assert(ab[n] == a[n]);
    } else if b.len() > 0 {
        assert(ab[n] == b[0]);
    }
    lemma_word_run(ab, n);
}

/// The tokens of two texts set side by side are those of the one followed by those
/// of the other, where the place at which they meet joins no two tokens. A text
/// that is refused stays refused whatever follows it.
pub proof fn lemma_lex_concat(a: Seq<char>, b: Seq<char>)
    requires
        lex(a) is Ok ==> boundary_ok(a, b),
    ensures
        lex(a + b) == then_tokens(lex(a), lex(b)),
    decreases a.len(),
{
    let ab = a + b;
    if a.len() == 0 {
        assert(ab =~= b);
        if let Ok(tb) = lex(b) {
            assert(Seq::<Seq<char>>::empty() + tb =~= tb);
        }
    } else if is_space(a[0]) {
        assert(ab[0] == a[0]);
        assert(ab.skip(1) =~= a.skip(1) + b);
        if a.skip(1).len() > 0 {
            assert(a.skip(1).last() == a.last());
        }
        lemma_lex_concat(a.skip(1), b);
    } else if a[0] == '"' {
        assert(ab[0] == a[0]);
    } else if opens_comment(a) {
        assert(ab[0] == a[0]);
        assert(ab[1] == a[1]);
    } else {
        assert(ab[0] == a[0]);
        lemma_word_len_bound(a);
        let n = token_len(a) as int;
        let rest = a.skip(n);
        // The same token opens both texts.
        if a.len() == 1 {
            assert(a.last() == a[0]);
            if b.len() > 0 {
                assert(ab[1] == b[0]);
            }
        } else {
            assert(ab[1] == a[1]);
        }
        assert(!opens_comment(ab));
        if is_word(a[0]) {
            if word_len(a) == a.len() {
                assert(a.last() == a[a.len() - 1]);
                assert(a.take(n)[n - 1] == a[n - 1]);
            }
            lemma_word_len_concat(a, b);
        }
        assert(token_len(ab) == n);
        assert(ab.take(n) =~= a.take(n));
        assert(ab.skip(n) =~= rest + b);
        if rest.len() > 0 {
            assert(rest.last() == a.last());
        }
        lemma_lex_concat(rest, b);
        lemma_word_len_bound(ab);
        match (lex(rest), lex(b)) {
            (Ok(tr), Ok(tb)) => {
                assert(seq![a.take(n)] + (tr + tb) =~= (seq![a.take(n)] + tr) + tb);
            },
            _ => {},
        }
    }
}

/// Spaces hold no token.
pub proof fn lemma_lex_spaces(w: Seq<char>)
    requires
        all_space(w),
    ensures
        lex(w) == Ok::<Seq<Seq<char>>, LexError>(Seq::empty()),
    decreases w.len(),
{
    if w.len() > 0 {
        assert(is_space(w[0]));
        assert forall|i: int| 0 <= i < w.skip(1).len() implies is_space(#[trigger] w.skip(1)[i]) by {
            assert(w.skip(1)[i] == w[i + 1]);
        }
        lemma_lex_spaces(w.skip(1));
    }
}

/// The text of one token lexes to that token.
pub proof fn lemma_lex_token(t: Seq<char>)
    requires
        is_token(t),
    ensures
        lex(t) == Ok::<Seq<Seq<char>>, LexError>(seq![t]),
{
    assert(!is_space(t[0]) && t[0] != '"');
    if is_word(t[0]) {
        assert(is_word_token(t));
        lemma_word_run(t, t.len() as int);
        assert(!opens_comment(t)) by {
            if t.len() >= 2 {
                assert(is_word(t[0]));
            }
        }
    }
    lemma_word_len_bound(t);
    let n = token_len(t) as int;
    assert(n == t.len());
    assert(t.take(n) =~= t);
    assert(t.skip(n).len() == 0);
    assert(lex(t.skip(n)) == Ok::<Seq<Seq<char>>, LexError>(Seq::empty())) by {
        reveal_with_fuel(lex, 2);
    }
    assert(seq![t] + Seq::<Seq<char>>::empty() =~= seq![t]);
    assert(lex(t) == prepend(t.take(n), lex(t.skip(n))));
}

/// Compact text of tokens ends as its last token does, and starts as its first.
pub proof fn lemma_compact_ends(ts: Seq<Seq<char>>)
    requires
        all_tokens(ts),
        ts.len() > 0,
    ensures
        compact(ts).len() > 0,
        compact(ts).last() == ts.last().last(),
        compact(ts)[0] == ts[0][0],
    decreases ts.len(),
{
    if ts.len() > 1 {
        let front = ts.drop_last();
        assert forall|i: int| 0 <= i < front.len() implies is_token(#[trigger] front[i]) by {
            assert(front[i] == ts[i]);
        }
        lemma_compact_ends(front);
        assert(is_token(ts.last()));
        assert(front[0] == ts[0]);
    } else {
        assert(is_token(ts[0]));
    }
}

/// Compact text lexes to the tokens it was made of.
pub proof fn lemma_lex_compact(ts: Seq<Seq<char>>)
    requires
        all_tokens(ts),
    ensures
        lex(compact(ts)) == Ok::<Seq<Seq<char>>, LexError>(ts),
    decreases ts.len(),
{
    if ts.len() == 0 {
        assert(ts =~= Seq::empty());
    } else if ts.len() == 1 {
        assert(is_token(ts[0]));
        lemma_lex_token(ts[0]);
        assert(ts =~= seq![ts[0]]);
    } else {
        let front = ts.drop_last();
        let last = ts.last();
        let prev = ts[ts.len() - 2];
        assert forall|i: int| 0 <= i < front.len() implies is_token(#[trigger] front[i]) by {
            assert(front[i] == ts[i]);
        }
        assert(is_token(last));
        assert(is_token(prev));
        lemma_lex_compact(front);
        lemma_compact_ends(front);
        assert(front.last() == prev);
        lemma_lex_token(last);
        let g = gap(prev, last);
        // The blank, where there is one, and the last token.
        lemma_lex_spaces(g);
        lemma_lex_concat(g, last);
        assert(Seq::<Seq<char>>::empty() + seq![last] =~= seq![last]);
        assert(lex(g + last) == Ok::<Seq<Seq<char>>, LexError>(seq![last]));
        let a = compact(front);
        assert(boundary_ok(a, g + last)) by {
            if boundary_ok(prev, last) {
                assert(g + last =~= last);
                assert(a.last() == prev.last());
            } else {
                assert((g + last)[0] == ' ');
            }
        }
        lemma_lex_concat(a, g + last);
        assert(a + (g + last) =~= compact(ts));
        assert(front + seq![last] =~= ts);
    }
}

proof fn lemma_then_prepend(
    before: Seq<Seq<char>>,
    token: Seq<char>,
    rest: Result<Seq<Seq<char>>, LexError>,
)
    ensures
        then_tokens(Ok(before), prepend(token, rest)) == then_tokens(Ok(before.push(token)), rest),
{
    if let Ok(r) = rest {
        assert(before + (seq![token] + r) =~= before.push(token) + r);
    }
}

/// The characters of `s`.
pub fn to_chars(s: &str) -> (v: Vec<char>)
    ensures
        v@ == s@,
{
    let mut v: Vec<char> = Vec::new();
    let mut it = s.chars();
    loop
        invariant_except_break
            it.obeys_prophetic_iter_laws(),
            it.decrease() is Some,
            v@ + it.remaining() == s@,
        ensures
            v@ == s@,
        decreases it.decrease()->0,
    {
        let ghost before = it.remaining();
        match it.next() {
            Some(c) => {
                proof {
                    assert(v@.push(c) + before.drop_first() =~= v@ + before);
                }
                v.push(c);
            },
            None => {
                proof {
                    assert(v@ + before =~= v@);
                }
                break ;
            },
        }
    }
    v
}

/// The tokens of `src`.
pub fn lex_source(src: &str) -> (r: Result<Vec<String>, LexError>)
    ensures
        match r {
            Ok(tokens) => lex(src@) == Ok::<Seq<Seq<char>>, LexError>(tokens_view(tokens@)),
            Err(e) => lex(src@) == Err::<Seq<Seq<char>>, LexError>(e),
        },
{
    let chars = to_chars(src);
    let n = chars.len();
    let ghost s = src@;
    let mut tokens: Vec<String> = Vec::new();
    let mut i: usize = 0;
    proof {
        assert(s.skip(0) =~= s);
        assert(tokens_view(tokens@) =~= Seq::empty());
        if let Ok(r) = lex(s) {
            assert(Seq::<Seq<char>>::empty() + r =~= r);
        }
    }
    while i < n
        invariant
            chars@ == s,
            s == src@,
            n == s.len(),
            i <= n,
            lex(s) == then_tokens(Ok(tokens_view(tokens@)), lex(s.skip(i as int))),
        decreases n - i,
    {
        let c = chars[i];
        let ghost rest = s.skip(i as int);
        proof {
            assert(rest[0] == s[i as int]);
            if rest.len() >= 2 {
                assert(rest[1] == s[i + 1]);
            }
        }
        if is_space_char(c) {
            proof {
                assert(rest.skip(1) =~= s.skip(i + 1));
            }
            i += 1;
        } else if c == '"' {
            return Err(LexError::StringLiteral);
        } else if c == '/' && i + 1 < n && (chars[i + 1] == '/' || chars[i + 1] == '*') {
            return Err(LexError::Comment);
        } else {
            let mut j: usize = i + 1;
            if is_word_char(c) {
                while j < n && is_word_char(chars[j])
                    invariant
                        i < j <= n,
                        chars@ == s,
                        n == s.len(),
                        forall|k: int| i <= k < j ==> is_word(#[trigger] s[k]),
                    decreases n - j,
                {
                    j += 1;
                }
                proof {
                    assert forall|k: int| 0 <= k < j - i implies is_word(#[trigger] rest[k]) by {
                        assert(rest[k] == s[i + k]);
                    }
                    if j < n {
                        assert(rest[j - i] == s[j as int]);
                    }
                    lemma_word_run(rest, j - i);
                }
            }
            let token = String::from_str(src.substring_char(i, j));
            proof {
                assert(token_len(rest) == j - i);
                assert(rest.take(j - i) =~= s.subrange(i as int, j as int));
                assert(rest.skip(j - i) =~= s.skip(j as int));
                lemma_then_prepend(tokens_view(tokens@), token@, lex(s.skip(j as int)));
                assert(tokens_view(tokens@.push(token)) =~= tokens_view(tokens@).push(token@));
            }
            tokens.push(token);
            i = j;
        }
    }
    proof {
        assert(s.skip(n as int).len() == 0);
        assert(tokens_view(tokens@) + Seq::<Seq<char>>::empty() =~= tokens_view(tokens@));
    }
    Ok(tokens)
}

/// Whether `t` is the text of one token.
pub fn is_token_text(t: &str) -> (b: bool)
    ensures
        b == is_token(t@),
{
    let chars = to_chars(t);
    let n = chars.len();
    if n == 0 {
        return false;
    }
    if !is_word_char(chars[0]) {
        return n == 1 && !is_space_char(chars[0]) && chars[0] != '"';
    }
    let mut i: usize = 1;
    while i < n
        invariant
            chars@ == t@,
            n == chars.len(),
            1 <= i <= n,
            forall|k: int| 0 <= k < i ==> is_word(#[trigger] t@[k]),
        decreases n - i,
    {
        if !is_word_char(chars[i]) {
            return false;
        }
        i += 1;
    }
    true
}

/// Whether every text of `ts` is one token.
pub fn all_token_texts(ts: &Vec<String>) -> (b: bool)
    ensures
        b == all_tokens(tokens_view(ts@)),
{
    let mut i: usize = 0;
    while i < ts.len()
        invariant
            i <= ts.len(),
            forall|k: int| 0 <= k < i ==> is_token(#[trigger] tokens_view(ts@)[k]),
        decreases ts.len() - i,
    {
        if !is_token_text(ts[i].as_str()) {
            proof {
                assert(!is_token(tokens_view(ts@)[i as int]));
            }
            return false;
        }
        i += 1;
    }
    true
}

fn last_char(t: &str) -> (c: char)
    requires
        t@.len() > 0,
    ensures
        c == t@.last(),
{
    let n = t.unicode_len();
    t.get_char(n - 1)
}

/// Whether `b` may follow `a` at once.
fn boundary_is_ok(a: &str, b: &str) -> (r: bool)
    ensures
        r == boundary_ok(a@, b@),
{
    if a.unicode_len() == 0 || b.unicode_len() == 0 {
        return true;
    }
    let x = last_char(a);
    let y = b.get_char(0);
    !(is_word_char(x) && is_word_char(y)) && !(x == '/' && (y == '/' || y == '*'))
}

/// The compact text of `ts`.
pub fn compact_text(ts: &Vec<String>) -> (text: String)
    ensures
        text@ == compact(tokens_view(ts@)),
{
    let ghost tv = tokens_view(ts@);
    let mut out = String::new();
    let mut i: usize = 0;
    proof {
        assert(tv.take(0).len() == 0);
    }
    while i < ts.len()
        invariant
            i <= ts.len(),
            tv == tokens_view(ts@),
            out@ == compact(tv.take(i as int)),
        decreases ts.len() - i,
    {
        proof {
            let p = tv.take(i + 1);
            assert(p.drop_last() =~= tv.take(i as int));
            assert(p.last() == ts@[i as int]@);
            if i > 0 {
                assert(p[p.len() - 2] == ts@[i - 1]@);
            }
        }
        if i > 0 && !boundary_is_ok(ts[i - 1].as_str(), ts[i].as_str()) {
            crate::text::push_space(&mut out);
        }
        out.append(ts[i].as_str());
        i += 1;
    }
    proof {
        assert(tv.take(ts.len() as int) =~= tv);
    }
    out
}

} // verus!
