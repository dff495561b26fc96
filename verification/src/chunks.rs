//! Chunks and chunk groups: the tree that a declaration becomes before it is laid out.

use vstd::prelude::*;

verus! {

/// The smallest fragment of formatted text.
///
/// `text` is written as it stands. A chunk with `is_hard_break` ends its line: what
/// follows it starts a new line at the same indentation. A `trailing_comment` is
/// written behind the text, after one blank, and nothing may share its line.
#[derive(Debug, PartialEq, Eq)]
pub struct Chunk {
    pub text: String,
    pub is_hard_break: bool,
    pub trailing_comment: Option<String>,
}

/// One member of a group: a chunk, or a group of its own.
#[derive(Debug, PartialEq, Eq)]
pub enum Member {
    Chunk(Chunk),
    Group(ChunkGroup),
}

/// An ordered sequence of members, laid out as one unit: on one line, or one member
/// to a line.
#[derive(Debug, PartialEq, Eq)]
pub struct ChunkGroup {
    pub members: Vec<Member>,
}

/// What a [`Chunk`] holds, as plain values.
pub struct ChunkView {
    pub text: Seq<char>,
    pub is_hard_break: bool,
    pub trailing_comment: Option<Seq<char>>,
}

/// What a [`Member`] holds; a group is the sequence of its members.
pub enum MemberView {
    Chunk(ChunkView),
    Group(Seq<MemberView>),
}

pub open spec fn option_text(o: Option<String>) -> Option<Seq<char>> {
    match o {
        Some(s) => Some(s@),
        None => None,
    }
}

pub open spec fn member_view(m: Member) -> MemberView
    decreases m,
{
    match m {
        Member::Chunk(c) => MemberView::Chunk(c@),
        Member::Group(g) => MemberView::Group(members_view(g.members@)),
    }
}

pub open spec fn members_view(ms: Seq<Member>) -> Seq<MemberView>
    decreases ms,
{
    if ms.len() == 0 {
        Seq::empty()
    } else {
        members_view(ms.drop_last()).push(member_view(ms.last()))
    }
}

impl View for Chunk {
    type V = ChunkView;

    open spec fn view(&self) -> ChunkView {
        ChunkView {
            text: self.text@,
            is_hard_break: self.is_hard_break,
            trailing_comment: option_text(self.trailing_comment),
        }
    }
}

impl View for Member {
    type V = MemberView;

    open spec fn view(&self) -> MemberView {
        member_view(*self)
    }
}

impl View for ChunkGroup {
    type V = Seq<MemberView>;

    open spec fn view(&self) -> Seq<MemberView> {
        members_view(self.members@)
    }
}

/// The view of a sequence of members is the sequence of their views.
pub proof fn lemma_members_view(ms: Seq<Member>)
    ensures
        members_view(ms).len() == ms.len(),
        forall|i: int| 0 <= i < ms.len() ==> (#[trigger] members_view(ms)[i]) == member_view(ms[i]),
    decreases ms.len(),
{
    if ms.len() > 0 {
        lemma_members_view(ms.drop_last());
    }
}

impl Chunk {
    /// A chunk of plain text.
    pub fn new(text: &str) -> (c: Chunk)
        ensures
            c@ == (ChunkView { text: text@, is_hard_break: false, trailing_comment: None }),
    {
        Chunk { text: String::from_str(text), is_hard_break: false, trailing_comment: None }
    }

    /// A chunk of text that ends its line.
    pub fn hard_break(text: &str) -> (c: Chunk)
        ensures
            c@ == (ChunkView { text: text@, is_hard_break: true, trailing_comment: None }),
    {
        Chunk { text: String::from_str(text), is_hard_break: true, trailing_comment: None }
    }

    /// A chunk of text with a comment behind it.
    pub fn with_trailing_comment(text: &str, comment: &str) -> (c: Chunk)
        ensures
            c@ == (ChunkView {
                text: text@,
                is_hard_break: false,
                trailing_comment: Some(comment@),
            }),
    {
        Chunk {
            text: String::from_str(text),
            is_hard_break: false,
            trailing_comment: Some(String::from_str(comment)),
        }
    }
}

impl ChunkGroup {
    /// A group without members.
    pub fn new() -> (g: ChunkGroup)
        ensures
            g@ == Seq::<MemberView>::empty(),
    {
        ChunkGroup { members: Vec::new() }
    }

    /// Adds `chunk` as the last member.
    pub fn text(&mut self, chunk: Chunk)
        ensures
            final(self)@ == old(self)@.push(MemberView::Chunk(chunk@)),
    {
        self.members.push(Member::Chunk(chunk));
        proof {
            assert(self.members@.drop_last() =~= old(self).members@);
            assert(member_view(self.members@.last()) == MemberView::Chunk(chunk@));
            assert(members_view(self.members@) == members_view(self.members@.drop_last()).push(
                member_view(self.members@.last()),
            ));
        }
    }

    /// Adds `group` as the last member.
    pub fn group(&mut self, group: ChunkGroup)
        ensures
            final(self)@ == old(self)@.push(MemberView::Group(group@)),
    {
        self.members.push(Member::Group(group));
        proof {
            assert(self.members@.drop_last() =~= old(self).members@);
            assert(member_view(self.members@.last()) == MemberView::Group(group@));
            assert(members_view(self.members@) == members_view(self.members@.drop_last()).push(
                member_view(self.members@.last()),
            ));
        }
    }
}

} // verus!
