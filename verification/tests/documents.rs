use heading_links::anchor::SlugPolicy;
use heading_links::rewrite::{
    process_markdown_headings, process_markdown_headings_with, SuffixStyle,
};

#[test]
fn document_with_headings_and_text() {
    let input = "# Title\n\nSome text.\n## Part: One.\nMore text.";
    let expected =
        "# Title [chain](#title-)\n\nSome text.\n## Part: One. [chain](#part-one-)\nMore text.";
    assert_eq!(process_markdown_headings(input), expected);
}

#[test]
fn document_without_headings_is_unchanged() {
    let input = "one\ntwo\n\nthree";
    assert_eq!(process_markdown_headings(input), input);
}

#[test]
fn empty_document() {
    assert_eq!(process_markdown_headings(""), "");
}

#[test]
fn line_feed_at_the_end_is_not_kept() {
    assert_eq!(process_markdown_headings("a\nb\n"), "a\nb");
    assert_eq!(process_markdown_headings("\n"), "");
    assert_eq!(process_markdown_headings("\n\n"), "\n");
    assert_eq!(process_markdown_headings("# A\n"), "# A [chain](#a-)");
}

#[test]
fn empty_lines_stay() {
    assert_eq!(process_markdown_headings("\n\na\n\n\nb"), "\n\na\n\n\nb");
}

#[test]
fn carriage_returns_before_line_feeds_go() {
    let input = "# Title\r\n\r\nBody text\r\n## Sub: One.\r\n";
    let expected = "# Title [chain](#title-)\n\nBody text\n## Sub: One. [chain](#sub-one-)";
    assert_eq!(process_markdown_headings(input), expected);
}

#[test]
fn carriage_return_without_line_feed_stays() {
    assert_eq!(process_markdown_headings("a\rb"), "a\rb");
    assert_eq!(process_markdown_headings("a\r"), "a\r");
    assert_eq!(process_markdown_headings("a\r\r\nb"), "a\r\nb");
    assert_eq!(process_markdown_headings("# H\r"), "# H\r [chain](#h-)");
}

#[test]
fn headings_with_equal_text_get_equal_anchors() {
    let input = "# Same\ntext\n## Same";
    let expected = "# Same [chain](#same-)\ntext\n## Same [chain](#same-)";
    assert_eq!(process_markdown_headings(input), expected);
}

#[test]
fn document_is_not_stable_under_a_second_pass() {
    let once = process_markdown_headings("# A\nb");
    assert_eq!(once, "# A [chain](#a-)\nb");
    let twice = process_markdown_headings(&once);
    assert_eq!(twice, "# A [chain](#a-) [chain](#a-chain-a-)\nb");
}

#[test]
fn document_in_html_style_with_strict_slugs() {
    let input = "# Foo!!Bar\nx";
    let expected = "# Foo!!Bar <a href=\"#foobar-\" class=\"header-link\">🔗</a>\nx";
    assert_eq!(
        process_markdown_headings_with(input, SlugPolicy::Strict, SuffixStyle::HtmlAnchor),
        expected
    );
}

#[test]
fn default_document_is_permissive_markdown() {
    let input = "# Foo!!Bar\n## B (c)\nplain";
    assert_eq!(
        process_markdown_headings(input),
        process_markdown_headings_with(input, SlugPolicy::Permissive, SuffixStyle::MarkdownLink)
    );
}

#[test]
fn all_levels_in_one_document() {
    let input = "# a\n## b\n### c\n#### d\n##### e\n###### f\n####### g";
    let expected = "# a [chain](#a-)\n## b [chain](#b-)\n### c [chain](#c-)\n#### d [chain](#d-)\n##### e [chain](#e-)\n###### f [chain](#f-)\n####### g";
    assert_eq!(process_markdown_headings(input), expected);
}
