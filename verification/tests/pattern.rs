use heading_links::heading::parse_heading;
use heading_links::rewrite::process_line;
use regex::Regex;

/// Level and text of a heading as the usual pattern for headings finds them.
fn by_pattern(line: &str) -> Option<(usize, String)> {
    let pattern = Regex::new(r"^(#{1,6})\s+(.+?)$").unwrap();
    pattern.captures(line).map(|found| {
        (
            found.get(1).unwrap().as_str().chars().count(),
            found.get(2).unwrap().as_str().to_string(),
        )
    })
}

#[test]
fn headings_agree_with_the_pattern() {
    let lines = [
        "# Hello World",
        "## Rust: Ownership Model.",
        "### a",
        "#### Four  words  apart",
        "##### 5",
        "###### Six",
        "#\tTab",
        "#\u{a0}No-break blank",
        "# \t Mixed white space",
        "## Ends in blanks   ",
        "# # nested",
        "# Ünïcödé",
        "# [chain](#x-)",
        "# H\r",
    ];
    for line in lines {
        let found = parse_heading(line);
        assert!(found.is_some());
        assert_eq!(found, by_pattern(line));
    }
}

#[test]
fn other_lines_agree_with_the_pattern() {
    let lines = [
        "",
        " ",
        "#",
        "##",
        "# ",
        "#NoSpace",
        "######",
        "####### Too many hashes",
        "######## Eight",
        " # indented",
        "Not a heading",
        "text # later",
        "-# dash first",
        "#-dash second",
    ];
    for line in lines {
        assert_eq!(parse_heading(line), None);
        assert_eq!(by_pattern(line), None);
        assert_eq!(process_line(line), line);
    }
}

#[test]
fn text_of_white_space_alone_makes_no_heading() {
    // The pattern alone would take the last blank for the text. A heading
    // needs a character that is no white space.
    assert_eq!(by_pattern("#  "), Some((1, " ".to_string())));
    assert_eq!(parse_heading("#  "), None);
    assert_eq!(process_line("#  "), "#  ");
}
