use noir_tooling::{Chunk, ChunkGroup, GroupRenderer};

fn pair(first: &str, second: &str) -> ChunkGroup {
    let mut group = ChunkGroup::new();
    group.text(Chunk::new(first));
    group.text(Chunk::new(second));
    group
}

#[test]
fn group_that_fits_is_written_on_one_line() {
    let text = GroupRenderer::new(100).render(&pair("global x =", "1;"), 0);
    assert_eq!(text, "global x = 1;");
}

#[test]
fn group_of_exactly_max_width_stays_flat() {
    // "global x = 1;" is 13 characters wide.
    let text = GroupRenderer::new(13).render(&pair("global x =", "1;"), 0);
    assert_eq!(text, "global x = 1;");
}

#[test]
fn group_one_over_max_width_is_broken() {
    let text = GroupRenderer::new(12).render(&pair("global x =", "1;"), 0);
    assert_eq!(text, "global x =\n    1;");
}

#[test]
fn broken_members_stand_one_level_below_the_group() {
    let text = GroupRenderer::new(3).render(&pair("first", "second"), 2);
    assert_eq!(text, "first\n            second");
}

#[test]
fn empty_group_is_empty_text() {
    let text = GroupRenderer::new(0).render(&ChunkGroup::new(), 3);
    assert_eq!(text, "");
}

#[test]
fn single_chunk_is_written_as_it_is_even_if_too_wide() {
    let mut group = ChunkGroup::new();
    group.text(Chunk::new("much too wide"));
    let text = GroupRenderer::new(2).render(&group, 1);
    assert_eq!(text, "much too wide");
}

#[test]
fn hard_break_forces_a_line_at_the_same_level() {
    let mut group = ChunkGroup::new();
    group.text(Chunk::hard_break("#[abi(foo)]"));
    group.text(Chunk::new("global x = 1;"));
    assert_eq!(GroupRenderer::new(100).render(&group, 0), "#[abi(foo)]\nglobal x = 1;");
    assert_eq!(GroupRenderer::new(100).render(&group, 1), "#[abi(foo)]\n    global x = 1;");
}

#[test]
fn trailing_comment_forces_a_break_and_is_written_behind_its_text() {
    let mut group = ChunkGroup::new();
    group.text(Chunk::with_trailing_comment("1 +", "// one"));
    group.text(Chunk::new("2"));
    assert_eq!(GroupRenderer::new(100).render(&group, 0), "1 + // one\n    2");
}

#[test]
fn forced_break_in_a_nested_group_breaks_the_groups_around_it() {
    let mut inner = ChunkGroup::new();
    inner.text(Chunk::hard_break("a"));
    inner.text(Chunk::new("b"));
    let mut outer = ChunkGroup::new();
    outer.text(Chunk::new("x"));
    outer.group(inner);
    outer.text(Chunk::new("y"));
    // The outer group is broken though "x a b y" would fit.
    assert_eq!(GroupRenderer::new(100).render(&outer, 0), "x\n    a\n    b\n    y");
}

#[test]
fn nested_group_decides_for_itself() {
    let mut outer = ChunkGroup::new();
    outer.text(Chunk::new("head ="));
    outer.group(pair("x", "y"));
    // "head = x y" is 10 wide, "x y" is 3 wide.
    assert_eq!(GroupRenderer::new(10).render(&outer, 0), "head = x y");
    assert_eq!(GroupRenderer::new(9).render(&outer, 0), "head =\n    x y");
    assert_eq!(GroupRenderer::new(3).render(&outer, 0), "head =\n    x y");
    assert_eq!(GroupRenderer::new(2).render(&outer, 0), "head =\n    x\n        y");
}

#[test]
fn rendering_twice_gives_the_same_text() {
    let group = pair("global x: Field =", "some_long_initializer;");
    let renderer = GroupRenderer::new(20);
    assert_eq!(renderer.render(&group, 0), renderer.render(&group, 0));
}
