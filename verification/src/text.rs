//! Character classes and the fixed pieces of layout: blanks, line ends, indentation.

use vstd::prelude::*;

verus! {

/// Whether `c` separates tokens without being one: a blank, a tab or a line end.
pub open spec fn is_space(c: char) -> bool {
    c == ' ' || c == '\t' || c == '\n' || c == '\r'
}

/// Whether `c` may stand in a word: an ASCII letter, a digit or an underscore.
pub open spec fn is_word(c: char) -> bool {
    ('a' <= c && c <= 'z') || ('A' <= c && c <= 'Z') || ('0' <= c && c <= '9') || c == '_'
}

/// Whether `c` is an ASCII digit.
pub open spec fn is_digit(c: char) -> bool {
    '0' <= c && c <= '9'
}

/// Whether every character of `s` is a space in the sense of [`is_space`].
pub open spec fn all_space(s: Seq<char>) -> bool {
    forall|i: int| 0 <= i < s.len() ==> is_space(#[trigger] s[i])
}

/// Whether every character of `s` is a word character.
pub open spec fn all_word(s: Seq<char>) -> bool {
    forall|i: int| 0 <= i < s.len() ==> is_word(#[trigger] s[i])
}

/// The four blanks of one indentation step.
pub open spec fn indent_unit() -> Seq<char> {
    seq![' ', ' ', ' ', ' ']
}

/// The blanks that open a line at indentation `level`.
pub open spec fn indentation(level: nat) -> Seq<char>
    decreases level,
{
    if level == 0 {
        Seq::empty()
    } else {
        indentation((level - 1) as nat) + indent_unit()
    }
}

/// A line end followed by the indentation of the next line.
pub open spec fn line_break(level: nat) -> Seq<char> {
    seq!['\n'] + indentation(level)
}

pub fn is_space_char(c: char) -> (b: bool)
    ensures
        b == is_space(c),
{
    c == ' ' || c == '\t' || c == '\n' || c == '\r'
}

pub fn is_word_char(c: char) -> (b: bool)
    ensures
        b == is_word(c),
{
    (c >= 'a' && c <= 'z') || (c >= 'A' && c <= 'Z') || (c >= '0' && c <= '9') || c == '_'
}

pub fn is_digit_char(c: char) -> (b: bool)
    ensures
        b == is_digit(c),
{
    c >= '0' && c <= '9'
}

/// Indentation is made of blanks only, four for each level.
pub proof fn lemma_indentation(level: nat)
    ensures
        indentation(level).len() == 4 * level,
        all_space(indentation(level)),
    decreases level,
{
    if level > 0 {
        lemma_indentation((level - 1) as nat);
    }
}

pub(crate) fn push_space(out: &mut String)
    ensures
        final(out)@ == old(out)@ + seq![' '],
{
    proof {
        reveal_strlit(" ");
        assert(" "@ =~= seq![' ']);
    }
    out.append(" ");
}

pub(crate) fn push_newline(out: &mut String)
    ensures
        final(out)@ == old(out)@ + seq!['\n'],
{
    proof {
        reveal_strlit("\n");
        assert("\n"@ =~= seq!['\n']);
    }
    out.append("\n");
}

pub(crate) fn push_indent_unit(out: &mut String)
    ensures
        final(out)@ == old(out)@ + indent_unit(),
{
    proof {
        reveal_strlit("    ");
        assert("    "@ =~= indent_unit());
    }
    out.append("    ");
}

/// The text of the indentation at `level`.
pub fn indentation_text(level: usize) -> (s: String)
    ensures
        s@ == indentation(level as nat),
{
    let mut s = String::new();
    let mut i: usize = 0;
    while i < level
        invariant
            i <= level,
            s@ == indentation(i as nat),
        decreases level - i,
    {
        push_indent_unit(&mut s);
        i += 1;
    }
    s
}

/// The indentation one level below `indent`.
pub(crate) fn deeper(indent: &String, Ghost(level): Ghost<nat>) -> (s: String)
    requires
        indent@ == indentation(level),
    ensures
        s@ == indentation(level + 1),
{
    let mut s = indent.clone();
    push_indent_unit(&mut s);
    s
}

} // verus!
