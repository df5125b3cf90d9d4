//! Rewriting lines and whole documents.
//!
//! A heading becomes its `#`, one blank, its text, and a link to its anchor.
//! The link points at the anchor with one hyphen more at its end, which is
//! how the anchors of the rendered page are named. Any other line stays as it
//! is. A document is cut into lines, each line is rewritten, and the lines are
//! joined with single line feeds.
use crate::anchor::{anchor_under, generate_anchor_with, SlugPolicy};
use crate::heading::{heading_level, heading_text, is_heading, split_heading};
use crate::pieces::{joined, lemma_joined_push, lemma_split_push, split_on};
use crate::text::{chars_of, extend_chars, slice_of, string_of};
use vstd::prelude::*;

verus! {

/// The form of the link that a heading gets.
#[derive(Clone, Copy, Debug, PartialEq, Eq, Structural)]
pub enum SuffixStyle {
    /// A Markdown link with the text `chain`.
    MarkdownLink,
    /// An HTML `a` element of the class `header-link` around a link sign.
    HtmlAnchor,
}

/// What stands before the anchor in a link of the given style.
pub open spec fn suffix_opening(style: SuffixStyle) -> Seq<char> {
    match style {
        SuffixStyle::MarkdownLink => " [chain](#"@,
        SuffixStyle::HtmlAnchor => " <a href=\"#"@,
    }
}

/// What stands behind the anchor in a link of the given style.
pub open spec fn suffix_closing(style: SuffixStyle) -> Seq<char> {
    match style {
        SuffixStyle::MarkdownLink => "-)"@,
        SuffixStyle::HtmlAnchor => "-\" class=\"header-link\">\u{1F517}</a>"@,
    }
}

/// The link to `anchor` that is put behind a heading's text.
pub open spec fn link_suffix(style: SuffixStyle, anchor: Seq<char>) -> Seq<char> {
    suffix_opening(style) + anchor + suffix_closing(style)
}

/// What a line becomes.
pub open spec fn rewritten(line: Seq<char>, policy: SlugPolicy, style: SuffixStyle) -> Seq<char> {
    if is_heading(line) {
        line.take(heading_level(line) as int).push(' ') + heading_text(line) + link_suffix(
            style,
            anchor_under(policy, heading_text(line)),
        )
    } else {
        line
    }
}

/// The line without the carriage return at its end, if it has one.
pub open spec fn without_cr(line: Seq<char>) -> Seq<char> {
    if line.len() > 0 && line.last() == '\r' {
        line.drop_last()
    } else {
        line
    }
}

/// Each piece without the carriage return at its end.
pub open spec fn closed_lines(parts: Seq<Seq<char>>) -> Seq<Seq<char>> {
    Seq::new(parts.len(), |i: int| without_cr(parts[i]))
}

/// The lines of a document. A line feed ends a line, and a carriage return
/// just before it goes with it. What follows the last line feed is a line
/// too, unless it is empty.
pub open spec fn lines_of(content: Seq<char>) -> Seq<Seq<char>> {
    let parts = split_on(content, '\n');
    let closed = closed_lines(parts.drop_last());
    if parts.last().len() == 0 {
        closed
    } else {
        closed.push(parts.last())
    }
}

/// Each line rewritten.
pub open spec fn rewritten_lines(
    lines: Seq<Seq<char>>,
    policy: SlugPolicy,
    style: SuffixStyle,
) -> Seq<Seq<char>> {
    Seq::new(lines.len(), |i: int| rewritten(lines[i], policy, style))
}

/// What a document becomes: its lines, each rewritten, with one line feed
/// between neighbours.
pub open spec fn document_rewritten(
    content: Seq<char>,
    policy: SlugPolicy,
    style: SuffixStyle,
) -> Seq<char> {
    joined(rewritten_lines(lines_of(content), policy, style), '\n')
}

/// The link to `anchor` in the given style.
pub fn make_suffix(style: SuffixStyle, anchor: &str) -> (out: Vec<char>)
    ensures
        out@ == link_suffix(style, anchor@),
{
    let (opening, closing) = match style {
        SuffixStyle::MarkdownLink => (" [chain](#", "-)"),
        SuffixStyle::HtmlAnchor => (" <a href=\"#", "-\" class=\"header-link\">\u{1F517}</a>"),
    };
    let mut out = chars_of(opening);
    let middle = chars_of(anchor);
    extend_chars(&mut out, &middle);
    let end = chars_of(closing);
    extend_chars(&mut out, &end);
    out
}

/// Rewrites one line, given as its characters.
pub fn rewrite_line(line: &Vec<char>, policy: SlugPolicy, style: SuffixStyle) -> (out: Vec<char>)
    ensures
        out@ == rewritten(line@, policy, style),
{
    match split_heading(line) {
        Some((level, start)) => {
            let mut out = slice_of(line, 0, level);
            out.push(' ');
            let text = slice_of(line, start, line.len());
            extend_chars(&mut out, &text);
            let text_string = string_of(&text);
            let anchor = generate_anchor_with(policy, text_string.as_str());
            let suffix = make_suffix(style, anchor.as_str());
            extend_chars(&mut out, &suffix);
            out
        },
        None => slice_of(line, 0, line.len()),
    }
}

/// Rewrites one line under the given policy and style.
pub fn process_line_with(line: &str, policy: SlugPolicy, style: SuffixStyle) -> (out: String)
    ensures
        out@ == rewritten(line@, policy, style),
{
    let chars = chars_of(line);
    let done = rewrite_line(&chars, policy, style);
    string_of(&done)
}

/// Rewrites one line: permissive slugs, Markdown links.
pub fn process_line(line: &str) -> (out: String)
    ensures
        out@ == rewritten(line@, SlugPolicy::Permissive, SuffixStyle::MarkdownLink),
{
    process_line_with(line, SlugPolicy::Permissive, SuffixStyle::MarkdownLink)
}

/// Rewrites `line` and puts it behind the lines that `out` holds already.
fn emit_line(
    out: &mut Vec<char>,
    line: &Vec<char>,
    first: bool,
    policy: SlugPolicy,
    style: SuffixStyle,
    Ghost(done): Ghost<Seq<Seq<char>>>,
)
    requires
        old(out)@ == joined(rewritten_lines(done, policy, style), '\n'),
        first ==> done.len() == 0,
        !first ==> done.len() > 0,
    ensures
        final(out)@ == joined(rewritten_lines(done.push(line@), policy, style), '\n'),
{
    proof {
        assert(rewritten_lines(done.push(line@), policy, style) =~= rewritten_lines(
            done,
            policy,
            style,
        ).push(rewritten(line@, policy, style)));
        lemma_joined_push(
            rewritten_lines(done, policy, style),
            rewritten(line@, policy, style),
            '\n',
        );
    }
    let new_line = rewrite_line(line, policy, style);
    if !first {
        out.push('\n');
    }
    extend_chars(out, &new_line);
    proof {
        assert(Seq::<char>::empty() + new_line@ =~= new_line@);
    }
}

/// Rewrites a document under the given policy and style.
pub fn process_markdown_headings_with(
    content: &str,
    policy: SlugPolicy,
    style: SuffixStyle,
) -> (out: String)
    ensures
        out@ == document_rewritten(content@, policy, style),
{
    let s = chars_of(content);
    let mut out: Vec<char> = Vec::new();
    let mut cur: Vec<char> = Vec::new();
    let mut first = true;
    let mut i: usize = 0;
    while i < s.len()
        invariant
            i <= s.len(),
            split_on(s@.take(i as int), '\n').len() >= 1,
            cur@ == split_on(s@.take(i as int), '\n').last(),
            out@ == joined(
                rewritten_lines(
                    closed_lines(split_on(s@.take(i as int), '\n').drop_last()),
                    policy,
                    style,
                ),
                '\n',
            ),
            first == (split_on(s@.take(i as int), '\n').len() == 1),
        decreases s.len() - i,
    {
        let ghost before = split_on(s@.take(i as int), '\n');
        proof {
            lemma_split_push(s@.take(i as int), s@[i as int], '\n');
            assert(s@.take(i + 1) =~= s@.take(i as int).push(s@[i as int]));
        }
        if s[i] == '\n' {
            if cur.len() > 0 && cur[cur.len() - 1] == '\r' {
                cur.pop();
            }
            emit_line(
                &mut out,
                &cur,
                first,
                policy,
                style,
                Ghost(closed_lines(before.drop_last())),
            );
            first = false;
            cur = Vec::new();
            proof {
                assert(before.push(Seq::<char>::empty()).drop_last() =~= before);
                assert(closed_lines(before.drop_last()).push(without_cr(before.last()))
                    =~= closed_lines(before));
            }
        } else {
            cur.push(s[i]);
            proof {
                assert(before.drop_last().push(before.last().push(s@[i as int])).drop_last()
                    =~= before.drop_last());
            }
        }
        i += 1;
    }
    proof {
        assert(s@.take(s.len() as int) =~= s@);
    }
    if cur.len() > 0 {
        emit_line(
            &mut out,
            &cur,
            first,
            policy,
            style,
            Ghost(closed_lines(split_on(s@, '\n').drop_last())),
        );
    }
    string_of(&out)
}

/// Rewrites a document: permissive slugs, Markdown links.
pub fn process_markdown_headings(content: &str) -> (out: String)
    ensures
        out@ == document_rewritten(content@, SlugPolicy::Permissive, SuffixStyle::MarkdownLink),
{
    process_markdown_headings_with(content, SlugPolicy::Permissive, SuffixStyle::MarkdownLink)
}

} // verus!
