//! Layout of a chunk group against a maximum width.
//!
//! A group that holds no forced break and whose members, set on one line with a
//! blank between neighbours, are at most `max_width` wide is written on that one
//! line. Any other group is broken: its first member stays where the group starts,
//! each later member opens a line of its own. Such a line stands one level below
//! the group, unless the member before it is a chunk that ends its line: then it
//! stands at the group's own level. Members that are groups are laid out by the
//! same rule at the level of their line.

use vstd::prelude::*;
use crate::chunks::{lemma_members_view, member_view, ChunkGroup, ChunkView, Member, MemberView};
use crate::text::{deeper, indentation, indentation_text, line_break, push_newline, push_space};

verus! {

/// Whether the chunk forbids a one-line layout of every group around it.
pub open spec fn chunk_forces_break(c: ChunkView) -> bool {
    c.is_hard_break || c.trailing_comment is Some
}

/// Whether `m` holds a chunk that forces a break, at any depth.
pub open spec fn forces_break(m: MemberView) -> bool
    decreases m,
{
    match m {
        MemberView::Chunk(c) => chunk_forces_break(c),
        MemberView::Group(ms) => any_forces_break(ms),
    }
}

/// Whether one of `ms` forces a break.
pub open spec fn any_forces_break(ms: Seq<MemberView>) -> bool
    decreases ms,
{
    if ms.len() == 0 {
        false
    } else {
        any_forces_break(ms.drop_last()) || forces_break(ms.last())
    }
}

/// The text of `m` on one line.
pub open spec fn flat_text(m: MemberView) -> Seq<char>
    decreases m,
{
    match m {
        MemberView::Chunk(c) => c.text,
        MemberView::Group(ms) => flat_join(ms),
    }
}

/// The members `ms` on one line, a blank between neighbours.
pub open spec fn flat_join(ms: Seq<MemberView>) -> Seq<char>
    decreases ms,
{
    if ms.len() == 0 {
        Seq::empty()
    } else if ms.len() == 1 {
        flat_text(ms[0])
    } else {
        flat_join(ms.drop_last()) + seq![' '] + flat_text(ms.last())
    }
}

/// The width of `m` on one line, in characters.
pub open spec fn flat_width(m: MemberView) -> nat {
    flat_text(m).len()
}

/// Whether `m` is laid out on one line: nothing in it forces a break, and it is at
/// most `max_width` wide. A member of exactly `max_width` stays on one line.
pub open spec fn fits(m: MemberView, max_width: nat) -> bool {
    !forces_break(m) && flat_width(m) <= max_width
}

/// A chunk as it is written: its text, then a blank and its comment if it has one.
pub open spec fn chunk_text(c: ChunkView) -> Seq<char> {
    match c.trailing_comment {
        Some(comment) => c.text + seq![' '] + comment,
        None => c.text,
    }
}

/// The level of the line that follows `prev` in a broken group at `level`.
pub open spec fn continuation_level(prev: MemberView, level: nat) -> nat {
    match prev {
        MemberView::Chunk(c) => if c.is_hard_break {
            level
        } else {
            level + 1
        },
        MemberView::Group(_) => level + 1,
    }
}

/// The text of `m`, which starts on a line at `level`.
pub open spec fn render_member(m: MemberView, level: nat, max_width: nat) -> Seq<char>
    decreases m,
{
    match m {
        MemberView::Chunk(c) => chunk_text(c),
        MemberView::Group(ms) => if fits(m, max_width) {
            flat_text(m)
        } else {
            render_broken(ms, level, max_width)
        },
    }
}

/// The members `ms` of a broken group at `level`, one to a line.
pub open spec fn render_broken(ms: Seq<MemberView>, level: nat, max_width: nat) -> Seq<char>
    decreases ms,
{
    if ms.len() == 0 {
        Seq::empty()
    } else if ms.len() == 1 {
        render_member(ms[0], level, max_width)
    } else {
        let next = continuation_level(ms[ms.len() - 2], level);
        render_broken(ms.drop_last(), level, max_width) + line_break(next) + render_member(
            ms.last(),
            next,
            max_width,
        )
    }
}

/// The text of a whole group that starts on a line at `level`.
pub open spec fn render_group(group: Seq<MemberView>, level: nat, max_width: nat) -> Seq<char> {
    render_member(MemberView::Group(group), level, max_width)
}

/// What one more member adds to a prefix of `ms`.
pub proof fn lemma_prefix_step(ms: Seq<MemberView>, i: int, level: nat, max_width: nat)
    requires
        0 <= i < ms.len(),
    ensures
        any_forces_break(ms.take(i + 1)) == (any_forces_break(ms.take(i)) || forces_break(ms[i])),
        flat_join(ms.take(i + 1)) == if i == 0 {
            flat_text(ms[0])
        } else {
            flat_join(ms.take(i)) + seq![' '] + flat_text(ms[i])
        },
        render_broken(ms.take(i + 1), level, max_width) == if i == 0 {
            render_member(ms[0], level, max_width)
        } else {
            render_broken(ms.take(i), level, max_width) + line_break(
                continuation_level(ms[i - 1], level),
            ) + render_member(ms[i], continuation_level(ms[i - 1], level), max_width)
        },
{
    let p = ms.take(i + 1);
    assert(p.drop_last() =~= ms.take(i));
    assert(p.last() == ms[i]);
    if i > 0 {
        assert(p[p.len() - 2] == ms[i - 1]);
    } else {
        assert(p[0] == ms[0]);
        assert(ms.take(0).len() == 0);
    }
}

/// A prefix forces a break only if the whole does, and is no wider than the whole.
pub proof fn lemma_prefix_monotone(ms: Seq<MemberView>, i: int)
    requires
        0 <= i <= ms.len(),
    ensures
        any_forces_break(ms.take(i)) ==> any_forces_break(ms),
        flat_join(ms.take(i)).len() <= flat_join(ms).len(),
    decreases ms.len() - i,
{
    if i == ms.len() {
        assert(ms.take(i) =~= ms);
    } else {
        lemma_prefix_step(ms, i, 0, 0);
        lemma_prefix_monotone(ms, i + 1);
    }
}

/// The width of `m` on one line, where nothing in it forces a break and that width
/// is at most `budget`.
fn flat_width_within(m: &Member, budget: usize) -> (r: Option<usize>)
    ensures
        r is Some <==> fits(m@, budget as nat),
        r matches Some(w) ==> w == flat_width(m@),
    decreases m,
{
    match m {
        Member::Chunk(c) => {
            if c.is_hard_break || c.trailing_comment.is_some() {
                return None;
            }
            let w = c.text.as_str().unicode_len();
            if w <= budget {
                Some(w)
            } else {
                None
            }
        },
        Member::Group(g) => group_width_within(g, budget),
    }
}

fn group_width_within(g: &ChunkGroup, budget: usize) -> (r: Option<usize>)
    ensures
        r is Some <==> !any_forces_break(g@) && flat_join(g@).len() <= budget,
        r matches Some(w) ==> w == flat_join(g@).len(),
    decreases g,
{
    let n = g.members.len();
    let mut width: usize = 0;
    let mut i: usize = 0;
    proof {
        lemma_members_view(g.members@);
    }
    while i < n
        invariant
            n == g.members.len(),
            i <= n,
            g@.len() == n,
            forall|k: int| 0 <= k < n ==> (#[trigger] g@[k]) == member_view(g.members@[k]),
            !any_forces_break(g@.take(i as int)),
            width == flat_join(g@.take(i as int)).len(),
            width <= budget,
        decreases n - i,
    {
        proof {
            lemma_prefix_step(g@, i as int, 0, 0);
            lemma_prefix_monotone(g@, i as int + 1);
        }
        let sep: usize = if i == 0 {
            0
        } else {
            1
        };
        if budget - width < sep {
            return None;
        }
        let room: usize = budget - width - sep;
        match flat_width_within(&g.members[i], room) {
            None => {
                return None;
            },
            Some(w) => {
                width = width + sep + w;
            },
        }
        i += 1;
    }
    proof {
        assert(g@.take(n as int) =~= g@);
    }
    Some(width)
}

/// Writes `m` on one line.
fn write_flat(m: &Member, out: &mut String)
    ensures
        final(out)@ == old(out)@ + flat_text(m@),
    decreases m,
{
    match m {
        Member::Chunk(c) => {
            out.append(c.text.as_str());
        },
        Member::Group(g) => {
            write_flat_group(g, out);
        },
    }
}

fn write_flat_group(g: &ChunkGroup, out: &mut String)
    ensures
        final(out)@ == old(out)@ + flat_join(g@),
    decreases g,
{
    let ghost start = out@;
    let n = g.members.len();
    let mut i: usize = 0;
    proof {
        lemma_members_view(g.members@);
        assert(g@.take(0).len() == 0);
    }
    while i < n
        invariant
            n == g.members.len(),
            i <= n,
            g@.len() == n,
            forall|k: int| 0 <= k < n ==> (#[trigger] g@[k]) == member_view(g.members@[k]),
            out@ == start + flat_join(g@.take(i as int)),
        decreases n - i,
    {
        proof {
            lemma_prefix_step(g@, i as int, 0, 0);
        }
        if i > 0 {
            push_space(out);
        }
        write_flat(&g.members[i], out);
        i += 1;
    }
    proof {
        assert(g@.take(n as int) =~= g@);
    }
}

/// Writes `m`, which starts on a line at `level`.
fn write_member(
    m: &Member,
    indent: &String,
    Ghost(level): Ghost<nat>,
    max_width: usize,
    out: &mut String,
)
    requires
        indent@ == indentation(level),
    ensures
        final(out)@ == old(out)@ + render_member(m@, level, max_width as nat),
    decreases m, 0nat,
{
    match m {
        Member::Chunk(c) => {
            out.append(c.text.as_str());
            match &c.trailing_comment {
                Some(comment) => {
                    push_space(out);
                    out.append(comment.as_str());
                },
                None => {},
            }
        },
        Member::Group(g) => {
            write_group(g, indent, Ghost(level), max_width, out);
        },
    }
}

fn write_group(
    g: &ChunkGroup,
    indent: &String,
    Ghost(level): Ghost<nat>,
    max_width: usize,
    out: &mut String,
)
    requires
        indent@ == indentation(level),
    ensures
        final(out)@ == old(out)@ + render_group(g@, level, max_width as nat),
    decreases g, 1nat,
{
    match group_width_within(g, max_width) {
        Some(_) => {
            write_flat_group(g, out);
        },
        None => {
            write_broken(g, indent, Ghost(level), max_width, out);
        },
    }
}

fn write_broken(
    g: &ChunkGroup,
    indent: &String,
    Ghost(level): Ghost<nat>,
    max_width: usize,
    out: &mut String,
)
    requires
        indent@ == indentation(level),
    ensures
        final(out)@ == old(out)@ + render_broken(g@, level, max_width as nat),
    decreases g, 0nat,
{
    let ghost start = out@;
    let n = g.members.len();
    let below = deeper(indent, Ghost(level));
    let mut i: usize = 0;
    proof {
        lemma_members_view(g.members@);
        assert(g@.take(0).len() == 0);
    }
    while i < n
        invariant
            n == g.members.len(),
            i <= n,
            g@.len() == n,
            forall|k: int| 0 <= k < n ==> (#[trigger] g@[k]) == member_view(g.members@[k]),
            indent@ == indentation(level),
            below@ == indentation(level + 1),
            out@ == start + render_broken(g@.take(i as int), level, max_width as nat),
        decreases n - i,
    {
        proof {
            lemma_prefix_step(g@, i as int, level, max_width as nat);
        }
        if i == 0 {
            write_member(&g.members[i], indent, Ghost(level), max_width, out);
        } else {
            let same_level = match &g.members[i - 1] {
                Member::Chunk(c) => c.is_hard_break,
                Member::Group(_) => false,
            };
            push_newline(out);
            if same_level {
                out.append(indent.as_str());
                write_member(&g.members[i], indent, Ghost(level), max_width, out);
            } else {
                out.append(below.as_str());
                write_member(&g.members[i], &below, Ghost(level + 1), max_width, out);
            }
        }
        i += 1;
    }
    proof {
        assert(g@.take(n as int) =~= g@);
    }
}

/// Lays out chunk groups against one maximum width.
pub struct GroupRenderer {
    pub max_width: usize,
}

impl GroupRenderer {
    pub fn new(max_width: usize) -> (r: GroupRenderer)
        ensures
            r.max_width == max_width,
    {
        GroupRenderer { max_width }
    }

    /// The text of `group`, which starts on a line at `current_indent`.
    pub fn render(&self, group: &ChunkGroup, current_indent: usize) -> (text: String)
        ensures
            text@ == render_group(group@, current_indent as nat, self.max_width as nat),
    {
        let indent = indentation_text(current_indent);
        let mut out = String::new();
        write_group(group, &indent, Ghost(current_indent as nat), self.max_width, &mut out);
        out
    }
}

} // verus!
