//! The anchor of a heading: a slug of its text.
//!
//! Two policies make slugs, and a caller names the one it wants.
//!
//! The permissive one puts the text in lower case; letters and digits stay,
//! white space becomes a hyphen, `:` and `.` vanish, and anything else
//! becomes a hyphen too. Then the hyphens are tidied: the text is cut at
//! every hyphen, the empty pieces are thrown away, and the rest is joined
//! with single hyphens.
//!
//! The strict one puts the text in lower case; `a` to `z`, `0` to `9` and the
//! hyphen stay, a blank becomes a hyphen, and anything else vanishes. Then
//! the hyphens at either end are cut off; hyphens that meet inside stay.
use crate::classes::{is_space, is_space_char, unicode_alphanumeric, unicode_lowercase};
use crate::pieces::{
    joined, lemma_joined_push, lemma_nonempty_push, lemma_split_push, nonempty_parts, split_on,
};
use crate::text::{chars_of, extend_chars, slice_of, string_of};
use vstd::prelude::*;

verus! {

/// How a slug is made of a text.
#[derive(Clone, Copy, Debug, PartialEq, Eq, Structural)]
pub enum SlugPolicy {
    /// Letters and digits stay, `:` and `.` vanish, anything else becomes a
    /// hyphen, and runs of hyphens become one.
    Permissive,
    /// Whatever is none of `a` to `z`, `0` to `9`, hyphen or blank vanishes.
    Strict,
}

/// What the permissive policy makes of a character, given whether it is a
/// letter or digit and whether it is white space: itself, a hyphen, or
/// nothing.
pub open spec fn permissive_choice(c: char, alphanumeric: bool, space: bool) -> Option<char> {
    if alphanumeric {
        Some(c)
    } else if space {
        Some('-')
    } else if c == ':' || c == '.' {
        None
    } else {
        Some('-')
    }
}

/// What one character of the lower-case text becomes under the permissive
/// policy.
pub open spec fn permissive_char(c: char) -> Option<char> {
    permissive_choice(c, unicode_alphanumeric(c), is_space(c))
}

/// What one character of the lower-case text becomes under the strict
/// policy: itself, a hyphen, or nothing.
pub open spec fn strict_char(c: char) -> Option<char> {
    if ('a' <= c && c <= 'z') || ('0' <= c && c <= '9') || c == '-' {
        Some(c)
    } else if c == ' ' {
        Some('-')
    } else {
        None
    }
}

/// What one character of the lower-case text becomes.
pub open spec fn slug_char(policy: SlugPolicy, c: char) -> Option<char> {
    match policy {
        SlugPolicy::Permissive => permissive_char(c),
        SlugPolicy::Strict => strict_char(c),
    }
}

/// The text with each character replaced by what `slug_char` makes of it.
pub open spec fn substituted(policy: SlugPolicy, s: Seq<char>) -> Seq<char>
    decreases s.len(),
{
    if s.len() == 0 {
        Seq::<char>::empty()
    } else {
        match slug_char(policy, s.last()) {
            Some(c) => substituted(policy, s.drop_last()).push(c),
            None => substituted(policy, s.drop_last()),
        }
    }
}

/// The text cut at its hyphens, without the empty pieces, joined again with
/// one hyphen between neighbours.
pub open spec fn collapsed(s: Seq<char>) -> Seq<char> {
    joined(nonempty_parts(split_on(s, '-')), '-')
}

/// The text without the hyphens that it opens with.
pub open spec fn trim_start(s: Seq<char>) -> Seq<char>
    decreases s.len(),
{
    if s.len() > 0 && s[0] == '-' {
        trim_start(s.drop_first())
    } else {
        s
    }
}

/// The text without the hyphens that it ends with.
pub open spec fn trim_end(s: Seq<char>) -> Seq<char>
    decreases s.len(),
{
    if s.len() > 0 && s.last() == '-' {
        trim_end(s.drop_last())
    } else {
        s
    }
}

/// The text without the hyphens at either end.
pub open spec fn trimmed(s: Seq<char>) -> Seq<char> {
    trim_end(trim_start(s))
}

/// The hyphens of a substituted text, put in order as the policy has it.
pub open spec fn tidied(policy: SlugPolicy, s: Seq<char>) -> Seq<char> {
    match policy {
        SlugPolicy::Permissive => collapsed(s),
        SlugPolicy::Strict => trimmed(s),
    }
}

/// The slug of a text that is in lower case already.
pub open spec fn slug_of(policy: SlugPolicy, lower: Seq<char>) -> Seq<char> {
    tidied(policy, substituted(policy, lower))
}

/// The anchor of a heading's text under a policy.
pub open spec fn anchor_under(policy: SlugPolicy, text: Seq<char>) -> Seq<char> {
    slug_of(policy, unicode_lowercase(text))
}

/// The anchor of a heading's text under the permissive policy.
pub open spec fn anchor_of(text: Seq<char>) -> Seq<char> {
    anchor_under(SlugPolicy::Permissive, text)
}

/// What the permissive policy makes of `c`, a character of which the caller
/// says whether it is a letter or digit and whether it is white space.
pub fn choose_permissive(c: char, alphanumeric: bool, space: bool) -> (r: Option<char>)
    ensures
        r == permissive_choice(c, alphanumeric, space),
{
    if alphanumeric {
        Some(c)
    } else if space {
        Some('-')
    } else if c == ':' || c == '.' {
        None
    } else {
        Some('-')
    }
}

/// What the strict policy makes of `c`.
pub fn choose_strict(c: char) -> (r: Option<char>)
    ensures
        r == strict_char(c),
{
    if ('a' <= c && c <= 'z') || ('0' <= c && c <= '9') || c == '-' {
        Some(c)
    } else if c == ' ' {
        Some('-')
    } else {
        None
    }
}

/// What `c` becomes in a slug.
pub fn slug_char_of(policy: SlugPolicy, c: char) -> (r: Option<char>)
    ensures
        r == slug_char(policy, c),
{
    match policy {
        SlugPolicy::Permissive => choose_permissive(c, c.is_alphanumeric(), is_space_char(c)),
        SlugPolicy::Strict => choose_strict(c),
    }
}

/// Replaces every character of `s` by what it becomes in a slug.
pub fn substitute(policy: SlugPolicy, s: &Vec<char>) -> (out: Vec<char>)
    ensures
        out@ == substituted(policy, s@),
{
    let mut out: Vec<char> = Vec::new();
    let mut i: usize = 0;
    while i < s.len()
        invariant
            i <= s.len(),
            out@ == substituted(policy, s@.take(i as int)),
        decreases s.len() - i,
    {
        proof {
            assert(s@.take(i + 1).drop_last() =~= s@.take(i as int));
        }
        match slug_char_of(policy, s[i]) {
            Some(c) => out.push(c),
            None => {},
        }
        i += 1;
    }
    proof {
        assert(s@.take(s.len() as int) =~= s@);
    }
    out
}

/// Adds the piece `cur` to the slug under construction, unless it is empty.
/// Returns whether the slug holds a piece afterwards.
fn close_piece(out: &mut Vec<char>, cur: &Vec<char>, any: bool, Ghost(done): Ghost<
    Seq<Seq<char>>,
>) -> (r: bool)
    requires
        old(out)@ == joined(nonempty_parts(done), '-'),
        any == (nonempty_parts(done).len() > 0),
    ensures
        final(out)@ == joined(nonempty_parts(done.push(cur@)), '-'),
        r == (nonempty_parts(done.push(cur@)).len() > 0),
{
    proof {
        lemma_nonempty_push(done, cur@);
        lemma_joined_push(nonempty_parts(done), cur@, '-');
    }
    if cur.len() == 0 {
        any
    } else {
        if any {
            out.push('-');
        }
        extend_chars(out, cur);
        proof {
            assert(Seq::<char>::empty() + cur@ =~= cur@);
        }
        true
    }
}

/// Tidies the hyphens of `s`: none at either end, none doubled.
pub fn collapse_hyphens(s: &Vec<char>) -> (out: Vec<char>)
    ensures
        out@ == collapsed(s@),
{
    let mut out: Vec<char> = Vec::new();
    let mut cur: Vec<char> = Vec::new();
    let mut any = false;
    let mut i: usize = 0;
    while i < s.len()
        invariant
            i <= s.len(),
            split_on(s@.take(i as int), '-').len() >= 1,
            cur@ == split_on(s@.take(i as int), '-').last(),
            out@ == joined(nonempty_parts(split_on(s@.take(i as int), '-').drop_last()), '-'),
            any == (nonempty_parts(split_on(s@.take(i as int), '-').drop_last()).len() > 0),
        decreases s.len() - i,
    {
        let ghost before = split_on(s@.take(i as int), '-');
        proof {
            lemma_split_push(s@.take(i as int), s@[i as int], '-');
            assert(s@.take(i + 1) =~= s@.take(i as int).push(s@[i as int]));
            assert(before.drop_last().push(before.last()) =~= before);
        }
        if s[i] == '-' {
            any = close_piece(&mut out, &cur, any, Ghost(before.drop_last()));
            cur = Vec::new();
            proof {
                assert(before.push(Seq::<char>::empty()).drop_last() =~= before);
            }
        } else {
            cur.push(s[i]);
            proof {
                assert(before.drop_last().push(before.last().push(s@[i as int])).drop_last()
                    =~= before.drop_last());
            }
        }
        i += 1;
    }
    let ghost all = split_on(s@, '-');
    proof {
        assert(s@.take(s.len() as int) =~= s@);
        assert(all.drop_last().push(all.last()) =~= all);
    }
    let _ = close_piece(&mut out, &cur, any, Ghost(all.drop_last()));
    out
}

/// Cuts the hyphens off both ends of `s`.
pub fn trim_hyphens(s: &Vec<char>) -> (out: Vec<char>)
    ensures
        out@ == trimmed(s@),
{
    let n = s.len();
    let mut from: usize = 0;
    proof {
        assert(s@.skip(0) =~= s@);
    }
    while from < n && s[from] == '-'
        invariant
            from <= n,
            n == s@.len(),
            trim_start(s@) == trim_start(s@.skip(from as int)),
        decreases n - from,
    {
        proof {
            assert(s@.skip(from as int).drop_first() =~= s@.skip(from + 1));
        }
        from += 1;
    }
    proof {
        assert(s@.skip(from as int) =~= s@.subrange(from as int, n as int));
    }
    let mut to: usize = n;
    while from < to && s[to - 1] == '-'
        invariant
            from <= to <= n,
            n == s@.len(),
            trim_start(s@) == s@.skip(from as int),
            trim_end(s@.skip(from as int)) == trim_end(s@.subrange(from as int, to as int)),
        decreases to,
    {
        proof {
            assert(s@.subrange(from as int, to as int).drop_last() =~= s@.subrange(
                from as int,
                to - 1,
            ));
        }
        to -= 1;
    }
    slice_of(s, from, to)
}

/// The slug of `lower`, a text that is in lower case already.
pub fn slug(policy: SlugPolicy, lower: &str) -> (out: String)
    ensures
        out@ == slug_of(policy, lower@),
{
    let chars = chars_of(lower);
    let replaced = substitute(policy, &chars);
    let tidy = match policy {
        SlugPolicy::Permissive => collapse_hyphens(&replaced),
        SlugPolicy::Strict => trim_hyphens(&replaced),
    };
    string_of(&tidy)
}

/// The anchor of a heading with the text `heading_text`, under `policy`.
pub fn generate_anchor_with(policy: SlugPolicy, heading_text: &str) -> (out: String)
    ensures
        out@ == anchor_under(policy, heading_text@),
{
    let lower = heading_text.to_lowercase();
    slug(policy, lower.as_str())
}

/// The anchor of a heading with the text `heading_text`, under the
/// permissive policy.
pub fn generate_anchor(heading_text: &str) -> (out: String)
    ensures
        out@ == anchor_of(heading_text@),
{
    generate_anchor_with(SlugPolicy::Permissive, heading_text)
}

} // verus!
