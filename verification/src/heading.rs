//! Which lines are headings.
//!
//! A heading opens with one to six `#`. White space follows, at least one
//! character of it, and after the white space comes the text, which runs to
//! the end of the line and is not empty. Seven `#` or more make no heading.
use crate::classes::{is_space, is_space_char};
use crate::text::{chars_of, slice_of, string_of};
use vstd::prelude::*;

verus! {

/// How many `#` stand at the start of `s`.
pub open spec fn hash_run(s: Seq<char>) -> nat
    decreases s.len(),
{
    if s.len() > 0 && s[0] == '#' {
        1 + hash_run(s.drop_first())
    } else {
        0
    }
}

/// How many characters of white space stand at the start of `s`.
pub open spec fn space_run(s: Seq<char>) -> nat
    decreases s.len(),
{
    if s.len() > 0 && is_space(s[0]) {
        1 + space_run(s.drop_first())
    } else {
        0
    }
}

/// The level of a heading: the number of `#` that the line opens with.
pub open spec fn heading_level(line: Seq<char>) -> nat {
    hash_run(line)
}

/// Where the text begins: behind the `#` and the white space after them.
pub open spec fn text_start(line: Seq<char>) -> nat {
    hash_run(line) + space_run(line.skip(hash_run(line) as int))
}

/// Whether the line is a heading.
pub open spec fn is_heading(line: Seq<char>) -> bool {
    &&& 1 <= heading_level(line) <= 6
    &&& heading_level(line) < text_start(line)
    &&& text_start(line) < line.len()
}

/// The text of a heading: the line from `text_start` on.
pub open spec fn heading_text(line: Seq<char>) -> Seq<char> {
    line.skip(text_start(line) as int)
}

/// A run of `#` that a character other than `#`, or the end, closes has the
/// length `n`.
pub proof fn lemma_hash_run(s: Seq<char>, n: int)
    requires
        0 <= n <= s.len(),
        forall|j: int| 0 <= j < n ==> s[j] == '#',
        n < s.len() ==> s[n] != '#',
    ensures
        hash_run(s) == n,
    decreases n,
{
    if n > 0 {
        let rest = s.drop_first();
        assert forall|j: int| 0 <= j < n - 1 implies rest[j] == '#' by {
            assert(rest[j] == s[j + 1]);
        }
        lemma_hash_run(rest, n - 1);
    }
}

/// A run of white space that another character, or the end, closes has the
/// length `n`.
pub proof fn lemma_space_run(s: Seq<char>, n: int)
    requires
        0 <= n <= s.len(),
        forall|j: int| 0 <= j < n ==> is_space(#[trigger] s[j]),
        n < s.len() ==> !is_space(s[n]),
    ensures
        space_run(s) == n,
    decreases n,
{
    if n > 0 {
        let rest = s.drop_first();
        assert forall|j: int| 0 <= j < n - 1 implies is_space(#[trigger] rest[j]) by {
            assert(rest[j] == s[j + 1]);
        }
        lemma_space_run(rest, n - 1);
    }
}

/// Neither run is longer than the text it stands in, and the character
/// behind the white space is none.
pub proof fn lemma_runs_bounded(s: Seq<char>)
    ensures
        hash_run(s) <= s.len(),
        space_run(s) <= s.len(),
        space_run(s) < s.len() ==> !is_space(s[space_run(s) as int]),
        hash_run(s) < s.len() ==> s[hash_run(s) as int] != '#',
    decreases s.len(),
{
    if s.len() > 0 {
        lemma_runs_bounded(s.drop_first());
        let rest = s.drop_first();
        if space_run(rest) < rest.len() {
            assert(rest[space_run(rest) as int] == s[space_run(rest) as int + 1]);
        }
        if hash_run(rest) < rest.len() {
            assert(rest[hash_run(rest) as int] == s[hash_run(rest) as int + 1]);
        }
    }
}

/// Every character of the run that a line opens with is a `#`.
pub proof fn lemma_hash_run_holds_hashes(s: Seq<char>)
    ensures
        forall|j: int| 0 <= j < hash_run(s) ==> s[j] == '#',
    decreases s.len(),
{
    if s.len() > 0 && s[0] == '#' {
        let rest = s.drop_first();
        lemma_hash_run_holds_hashes(rest);
        lemma_runs_bounded(s);
        assert forall|j: int| 0 <= j < hash_run(s) implies s[j] == '#' by {
            if j > 0 {
                assert(rest[j - 1] == s[j]);
            }
        }
    }
}

/// Every character of the run of white space that a text opens with is
/// white space.
pub proof fn lemma_space_run_holds_spaces(s: Seq<char>)
    ensures
        forall|j: int| 0 <= j < space_run(s) ==> is_space(#[trigger] s[j]),
    decreases s.len(),
{
    if s.len() > 0 && is_space(s[0]) {
        let rest = s.drop_first();
        lemma_space_run_holds_spaces(rest);
        lemma_runs_bounded(s);
        assert forall|j: int| 0 <= j < space_run(s) implies is_space(#[trigger] s[j]) by {
            if j > 0 {
                assert(rest[j - 1] == s[j]);
            }
        }
    }
}

/// Finds the level of a heading and the place where its text begins.
pub fn split_heading(line: &Vec<char>) -> (r: Option<(usize, usize)>)
    ensures
        r is Some <==> is_heading(line@),
        r matches Some((level, start)) ==> level == heading_level(line@) && start == text_start(
            line@,
        ),
{
    let n = line.len();
    let mut level: usize = 0;
    while level < n && line[level] == '#'
        invariant
            level <= n,
            n == line@.len(),
            forall|j: int| 0 <= j < level ==> line@[j] == '#',
        decreases n - level,
    {
        level += 1;
    }
    proof {
        lemma_hash_run(line@, level as int);
    }
    let mut start: usize = level;
    while start < n && is_space_char(line[start])
        invariant
            level <= start <= n,
            n == line@.len(),
            forall|j: int| level <= j < start ==> is_space(#[trigger] line@[j]),
        decreases n - start,
    {
        start += 1;
    }
    proof {
        let rest = line@.skip(level as int);
        assert forall|j: int| 0 <= j < start - level implies is_space(#[trigger] rest[j]) by {
            assert(rest[j] == line@[level + j]);
        }
        if start < n {
            assert(rest[start - level] == line@[start as int]);
        }
        lemma_space_run(rest, start - level);
    }
    if 1 <= level && level <= 6 && level < start && start < n {
        Some((level, start))
    } else {
        None
    }
}

/// Tells whether `line` is a heading, and if so gives its level and its text.
pub fn parse_heading(line: &str) -> (r: Option<(usize, String)>)
    ensures
        r is Some <==> is_heading(line@),
        r matches Some((level, text)) ==> level == heading_level(line@) && text@ == heading_text(
            line@,
        ),
{
    let chars = chars_of(line);
    match split_heading(&chars) {
        Some((level, start)) => {
            let text = slice_of(&chars, start, chars.len());
            Some((level, string_of(&text)))
        },
        None => None,
    }
}

} // verus!
