//! What holds of every line and every document.
//!
//! A line that is no heading is kept; a heading gains its link; the anchor is
//! a function of the text; and a second pass over a rewritten heading adds a
//! second link.
use crate::anchor::{anchor_under, SlugPolicy};
use crate::classes::is_space;
use crate::heading::{
    hash_run, heading_level, heading_text, is_heading, lemma_hash_run,
    lemma_hash_run_holds_hashes, lemma_runs_bounded, lemma_space_run,
    lemma_space_run_holds_spaces, text_start,
};
use crate::pieces::joined;
use crate::rewrite::{
    document_rewritten, lines_of, link_suffix, rewritten, rewritten_lines, suffix_opening,
    SuffixStyle,
};
use vstd::prelude::*;

verus! {

/// The line has the shape of a heading with `level` times `#` and the text
/// from place `start` on: the `#` stand first and no further one follows
/// them, white space fills the places from `level` to `start`, and at `start`
/// stands a character that is no white space.
pub open spec fn has_heading_shape(line: Seq<char>, level: int, start: int) -> bool {
    &&& 1 <= level <= 6
    &&& level < start < line.len()
    &&& forall|j: int| 0 <= j < level ==> line[j] == '#'
    &&& line[level] != '#'
    &&& forall|j: int| level <= j < start ==> is_space(#[trigger] line[j])
    &&& !is_space(line[start])
}

/// A line has the shape of a heading in one way at most, and then it is a
/// heading of that level with that text.
pub proof fn shape_makes_a_heading(line: Seq<char>, level: int, start: int)
    requires
        has_heading_shape(line, level, start),
    ensures
        is_heading(line),
        heading_level(line) == level,
        text_start(line) == start,
        heading_text(line) == line.skip(start),
{
    lemma_hash_run(line, level);
    let rest = line.skip(level);
    assert forall|j: int| 0 <= j < start - level implies is_space(#[trigger] rest[j]) by {
        assert(rest[j] == line[level + j]);
    }
    assert(rest[start - level] == line[start]);
    lemma_space_run(rest, start - level);
}

/// Every heading has the shape of one.
pub proof fn heading_has_the_shape(line: Seq<char>)
    requires
        is_heading(line),
    ensures
        has_heading_shape(line, heading_level(line) as int, text_start(line) as int),
{
    let level = heading_level(line) as int;
    let start = text_start(line) as int;
    let rest = line.skip(level);
    lemma_hash_run_holds_hashes(line);
    lemma_runs_bounded(line);
    lemma_runs_bounded(rest);
    lemma_space_run_holds_spaces(rest);
    assert(rest[start - level] == line[start]);
    assert forall|j: int| level <= j < start implies is_space(#[trigger] line[j]) by {
        assert(rest[j - level] == line[j]);
    }
}

/// A line that opens with seven `#` or more is no heading, whatever follows.
pub proof fn seven_hashes_make_no_heading(line: Seq<char>)
    requires
        line.len() >= 7,
        forall|j: int| 0 <= j < 7 ==> line[j] == '#',
    ensures
        !is_heading(line),
{
    if is_heading(line) {
        lemma_runs_bounded(line);
        let level = hash_run(line) as int;
        assert(line[level] == '#');
    }
}

/// A line that does not open with `#`, the empty line among them, is no
/// heading.
pub proof fn line_without_hash_is_no_heading(line: Seq<char>)
    requires
        line.len() == 0 || line[0] != '#',
    ensures
        !is_heading(line),
{
}

/// A line that is no heading comes out exactly as it went in.
pub proof fn other_line_is_kept(line: Seq<char>, policy: SlugPolicy, style: SuffixStyle)
    requires
        !is_heading(line),
    ensures
        rewritten(line, policy, style) == line,
{
}

/// A heading comes out as the `#` it opened with, one blank, its text, and
/// the link to its anchor; the `#` are between one and six.
pub proof fn heading_gains_link(line: Seq<char>, policy: SlugPolicy, style: SuffixStyle)
    requires
        is_heading(line),
    ensures
        rewritten(line, policy, style) == line.take(heading_level(line) as int) + seq![' ']
            + heading_text(line) + link_suffix(style, anchor_under(policy, heading_text(line))),
        1 <= heading_level(line) <= 6,
        forall|j: int| 0 <= j < heading_level(line) ==> line[j] == '#',
        heading_text(line).len() > 0,
        !is_space(heading_text(line)[0]),
{
    lemma_hash_run_holds_hashes(line);
    lemma_runs_bounded(line.skip(hash_run(line) as int));
    assert(line.take(heading_level(line) as int).push(' ') =~= line.take(
        heading_level(line) as int,
    ) + seq![' ']);
}

/// In a rewritten document every line stands in the place it had: a heading
/// with its link, any other line unchanged. The lines are joined by single
/// line feeds.
pub proof fn document_keeps_its_lines(
    content: Seq<char>,
    policy: SlugPolicy,
    style: SuffixStyle,
    i: int,
)
    requires
        0 <= i < lines_of(content).len(),
    ensures
        document_rewritten(content, policy, style) == joined(
            rewritten_lines(lines_of(content), policy, style),
            '\n',
        ),
        rewritten_lines(lines_of(content), policy, style).len() == lines_of(content).len(),
        rewritten_lines(lines_of(content), policy, style)[i] == rewritten(
            lines_of(content)[i],
            policy,
            style,
        ),
        !is_heading(lines_of(content)[i]) ==> rewritten_lines(lines_of(content), policy, style)[i]
            == lines_of(content)[i],
{
}

/// The anchor depends on the policy and the heading's text, and on nothing
/// else: equal texts have equal anchors.
pub proof fn equal_texts_have_equal_anchors(a: Seq<char>, b: Seq<char>, policy: SlugPolicy)
    requires
        a == b,
    ensures
        anchor_under(policy, a) == anchor_under(policy, b),
{
}

/// Rewriting is not idempotent. A rewritten heading is a heading again, of
/// the same level, whose text is the old text with the link behind it; so a
/// second pass adds a second link and the line grows once more.
pub proof fn rewritten_heading_is_a_heading(
    line: Seq<char>,
    policy: SlugPolicy,
    style: SuffixStyle,
)
    requires
        is_heading(line),
    ensures
        is_heading(rewritten(line, policy, style)),
        heading_level(rewritten(line, policy, style)) == heading_level(line),
        heading_text(rewritten(line, policy, style)) == heading_text(line) + link_suffix(
            style,
            anchor_under(policy, heading_text(line)),
        ),
        rewritten(rewritten(line, policy, style), policy, style).len() > rewritten(
            line,
            policy,
            style,
        ).len(),
        rewritten(rewritten(line, policy, style), policy, style) != rewritten(line, policy, style),
{
    let level = heading_level(line) as int;
    let text = heading_text(line);
    let suffix = link_suffix(style, anchor_under(policy, text));
    let once = rewritten(line, policy, style);
    heading_gains_link(line, policy, style);
    assert(once.len() == level + 1 + text.len() + suffix.len());
    assert forall|j: int| 0 <= j < level implies once[j] == '#' by {
        assert(once[j] == line[j]);
    }
    assert(once[level] == ' ');
    lemma_hash_run(once, level);
    let rest = once.skip(level);
    assert(rest[0] == ' ');
    assert(rest[1] == text[0]);
    assert(is_space(rest[0]));
    lemma_space_run(rest, 1);
    assert(text_start(once) == level + 1);
    assert(heading_text(once) =~= text + suffix);
    let twice = rewritten(once, policy, style);
    let again = link_suffix(style, anchor_under(policy, heading_text(once)));
    assert(twice.len() == level + 1 + heading_text(once).len() + again.len());
    assert(again.len() >= suffix_opening(style).len());
    assert(suffix_opening(style).len() > 0) by {
        reveal_strlit(" [chain](#");
        reveal_strlit(" <a href=\"#");
    }
}

} // verus!
