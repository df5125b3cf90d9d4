use heading_links::anchor::SlugPolicy;
use heading_links::heading::{parse_heading, split_heading};
use heading_links::rewrite::{make_suffix, process_line, process_line_with, rewrite_line, SuffixStyle};

fn chars(s: &str) -> Vec<char> {
    s.chars().collect()
}

#[test]
fn heading_of_level_one() {
    assert_eq!(process_line("# Hello World"), "# Hello World [chain](#hello-world-)");
}

#[test]
fn heading_with_colon_and_period() {
    assert_eq!(
        process_line("## Rust: Ownership Model."),
        "## Rust: Ownership Model. [chain](#rust-ownership-model-)"
    );
}

#[test]
fn plain_line_is_unchanged() {
    assert_eq!(process_line("Not a heading"), "Not a heading");
}

#[test]
fn seven_hashes_are_no_heading() {
    assert_eq!(process_line("####### Too many hashes"), "####### Too many hashes");
    assert_eq!(parse_heading("####### Too many hashes"), None);
    assert_eq!(parse_heading("######## Eight"), None);
}

#[test]
fn empty_line_is_unchanged() {
    assert_eq!(process_line(""), "");
}

#[test]
fn six_hashes_are_a_heading() {
    assert_eq!(process_line("###### Six"), "###### Six [chain](#six-)");
    assert_eq!(parse_heading("###### Six"), Some((6, "Six".to_string())));
}

#[test]
fn parse_heading_gives_level_and_text() {
    assert_eq!(parse_heading("# A"), Some((1, "A".to_string())));
    assert_eq!(parse_heading("### Deep dive"), Some((3, "Deep dive".to_string())));
    assert_eq!(parse_heading("##\t \tTabs"), Some((2, "Tabs".to_string())));
    assert_eq!(parse_heading("## Ends in blanks  "), Some((2, "Ends in blanks  ".to_string())));
    assert_eq!(parse_heading("# # nested"), Some((1, "# nested".to_string())));
}

#[test]
fn parse_heading_refuses_what_is_no_heading() {
    assert_eq!(parse_heading(""), None);
    assert_eq!(parse_heading("#"), None);
    assert_eq!(parse_heading("# "), None);
    assert_eq!(parse_heading("#   "), None);
    assert_eq!(parse_heading("#\t"), None);
    assert_eq!(parse_heading("#NoSpace"), None);
    assert_eq!(parse_heading(" # indented"), None);
    assert_eq!(parse_heading("text # later"), None);
    assert_eq!(parse_heading("######"), None);
}

#[test]
fn split_heading_gives_level_and_start_of_text() {
    assert_eq!(split_heading(&chars("# A")), Some((1, 2)));
    assert_eq!(split_heading(&chars("###   Deep")), Some((3, 6)));
    assert_eq!(split_heading(&chars("####### x")), None);
    assert_eq!(split_heading(&chars("plain")), None);
}

#[test]
fn lines_that_are_no_headings_come_back_exactly() {
    for line in ["", " ", "#", "# ", "#\t\t", "#hash", "####### seven", "  ## indented", "a # b", "-- # --"] {
        assert_eq!(process_line(line), line);
        assert_eq!(
            process_line_with(line, SlugPolicy::Strict, SuffixStyle::HtmlAnchor),
            line
        );
    }
}

#[test]
fn white_space_behind_the_hashes_becomes_one_blank() {
    assert_eq!(process_line("#    Wide"), "# Wide [chain](#wide-)");
    assert_eq!(process_line("#\tTab"), "# Tab [chain](#tab-)");
}

#[test]
fn white_space_at_the_end_of_the_text_stays() {
    assert_eq!(process_line("# Trailing  "), "# Trailing   [chain](#trailing-)");
}

#[test]
fn heading_whose_anchor_is_empty() {
    assert_eq!(process_line("# !!!"), "# !!! [chain](#-)");
}

#[test]
fn second_pass_adds_a_second_link() {
    let once = process_line("# A");
    assert_eq!(once, "# A [chain](#a-)");
    let twice = process_line(&once);
    assert_eq!(twice, "# A [chain](#a-) [chain](#a-chain-a-)");
    assert_ne!(once, twice);
}

#[test]
fn html_style_link() {
    assert_eq!(
        process_line_with("# Hello World", SlugPolicy::Permissive, SuffixStyle::HtmlAnchor),
        "# Hello World <a href=\"#hello-world-\" class=\"header-link\">🔗</a>"
    );
}

#[test]
fn strict_policy_in_a_line() {
    assert_eq!(
        process_line_with("## Foo!!Bar", SlugPolicy::Strict, SuffixStyle::MarkdownLink),
        "## Foo!!Bar [chain](#foobar-)"
    );
    assert_eq!(
        process_line_with("## Foo!!Bar", SlugPolicy::Permissive, SuffixStyle::MarkdownLink),
        "## Foo!!Bar [chain](#foo-bar-)"
    );
}

#[test]
fn suffix_by_style() {
    assert_eq!(make_suffix(SuffixStyle::MarkdownLink, "x-y"), chars(" [chain](#x-y-)"));
    assert_eq!(
        make_suffix(SuffixStyle::HtmlAnchor, "x-y"),
        chars(" <a href=\"#x-y-\" class=\"header-link\">🔗</a>")
    );
    assert_eq!(make_suffix(SuffixStyle::MarkdownLink, ""), chars(" [chain](#-)"));
}

#[test]
fn rewrite_line_on_characters() {
    assert_eq!(
        rewrite_line(&chars("# Hi"), SlugPolicy::Permissive, SuffixStyle::MarkdownLink),
        chars("# Hi [chain](#hi-)")
    );
    assert_eq!(
        rewrite_line(&chars("Hi"), SlugPolicy::Permissive, SuffixStyle::MarkdownLink),
        chars("Hi")
    );
}
