//! What holds of every slug.
//!
//! Collapsing leaves no hyphen at either end and no two side by side, and it
//! touches nothing but hyphens. Trimming cuts hyphens off the ends and
//! nothing else. After the substitution a text holds only what the policy
//! lets through.
use crate::anchor::{
    anchor_under, collapsed, slug_char, substituted, trim_end, trim_start, trimmed, SlugPolicy,
};
use crate::classes::{unicode_alphanumeric, unicode_lowercase};
use crate::pieces::{joined, lemma_split_nonempty, nonempty_parts, split_on};
use vstd::prelude::*;

verus! {

/// No hyphen stands at either end of the text, and no two stand side by side.
pub open spec fn is_tidy(r: Seq<char>) -> bool {
    &&& r.len() > 0 ==> r[0] != '-' && r.last() != '-'
    &&& forall|i: int| 0 <= i < r.len() - 1 ==> !(r[i] == '-' && #[trigger] r[i + 1] == '-')
}

/// The piece holds a character, and none of its characters is a hyphen.
pub open spec fn is_word(p: Seq<char>) -> bool {
    &&& p.len() > 0
    &&& forall|k: int| 0 <= k < p.len() ==> p[k] != '-'
}

/// The pieces of a text cut at its hyphens hold no hyphen.
pub proof fn lemma_split_pieces_hold_no_hyphen(s: Seq<char>)
    ensures
        forall|j: int, k: int|
            0 <= j < split_on(s, '-').len() && 0 <= k < split_on(s, '-')[j].len() ==> split_on(
                s,
                '-',
            )[j][k] != '-',
    decreases s.len(),
{
    if s.len() > 0 {
        lemma_split_pieces_hold_no_hyphen(s.drop_last());
        lemma_split_nonempty(s.drop_last(), '-');
    }
}

/// Of pieces that hold no hyphen, those that are kept are words.
pub proof fn lemma_kept_pieces_are_words(parts: Seq<Seq<char>>)
    requires
        forall|j: int, k: int|
            0 <= j < parts.len() && 0 <= k < parts[j].len() ==> parts[j][k] != '-',
    ensures
        forall|j: int|
            0 <= j < nonempty_parts(parts).len() ==> is_word(#[trigger] nonempty_parts(parts)[j]),
    decreases parts.len(),
{
    if parts.len() > 0 {
        let init = parts.drop_last();
        assert forall|j: int, k: int|
            0 <= j < init.len() && 0 <= k < init[j].len() implies init[j][k] != '-' by {
            assert(init[j] == parts[j]);
        }
        lemma_kept_pieces_are_words(init);
        let last = parts.last();
        assert(last == parts[parts.len() - 1]);
        let kept = nonempty_parts(init);
        assert forall|j: int| 0 <= j < nonempty_parts(parts).len() implies is_word(
            #[trigger] nonempty_parts(parts)[j],
        ) by {
            if j < kept.len() {
                assert(nonempty_parts(parts)[j] == kept[j]);
            } else {
                assert(nonempty_parts(parts)[j] == last);
            }
        }
    }
}

/// Words joined by single hyphens make a tidy text, which is empty only
/// where there is no word.
pub proof fn lemma_joined_words_are_tidy(words: Seq<Seq<char>>)
    requires
        forall|j: int| 0 <= j < words.len() ==> is_word(#[trigger] words[j]),
    ensures
        is_tidy(joined(words, '-')),
        words.len() > 0 ==> joined(words, '-').len() > 0,
    decreases words.len(),
{
    if words.len() == 1 {
        assert(is_word(words[0]));
    } else if words.len() > 1 {
        let init = words.drop_last();
        let last = words.last();
        assert forall|j: int| 0 <= j < init.len() implies is_word(#[trigger] init[j]) by {
            assert(init[j] == words[j]);
        }
        lemma_joined_words_are_tidy(init);
        assert(is_word(words[words.len() - 1]));
        let head = joined(init, '-');
        let r = joined(words, '-');
        let n = head.len() as int;
        assert(r == head.push('-') + last);
        assert(r.len() == n + 1 + last.len());
        assert(r[0] == head[0]);
        assert(r.last() == last.last());
        assert forall|i: int| 0 <= i < r.len() - 1 implies !(r[i] == '-' && #[trigger] r[i + 1]
            == '-') by {
            if i + 1 < n {
                assert(r[i] == head[i]);
                assert(r[i + 1] == head[i + 1]);
            } else if i + 1 == n {
                assert(r[i] == head.last());
            } else {
                assert(r[i + 1] == last[i - n]);
            }
        }
    }
}

/// A text whose hyphens were collapsed is tidy: no hyphen at either end, no
/// two side by side.
pub proof fn collapsed_text_is_tidy(s: Seq<char>)
    ensures
        is_tidy(collapsed(s)),
{
    lemma_split_pieces_hold_no_hyphen(s);
    lemma_kept_pieces_are_words(split_on(s, '-'));
    lemma_joined_words_are_tidy(nonempty_parts(split_on(s, '-')));
}

/// The text without its hyphens.
pub open spec fn without_hyphens(s: Seq<char>) -> Seq<char>
    decreases s.len(),
{
    if s.len() == 0 {
        s
    } else if s.last() == '-' {
        without_hyphens(s.drop_last())
    } else {
        without_hyphens(s.drop_last()).push(s.last())
    }
}

/// The pieces in order with nothing between them.
pub open spec fn concatenated(parts: Seq<Seq<char>>) -> Seq<char>
    decreases parts.len(),
{
    if parts.len() == 0 {
        Seq::<char>::empty()
    } else {
        concatenated(parts.drop_last()) + parts.last()
    }
}

/// Taking the hyphens out of two texts in a row is taking them out of each.
pub proof fn lemma_without_hyphens_add(a: Seq<char>, b: Seq<char>)
    ensures
        without_hyphens(a + b) == without_hyphens(a) + without_hyphens(b),
    decreases b.len(),
{
    if b.len() == 0 {
        assert(a + b =~= a);
        assert(without_hyphens(a) + without_hyphens(b) =~= without_hyphens(a));
    } else {
        lemma_without_hyphens_add(a, b.drop_last());
        assert((a + b).drop_last() =~= a + b.drop_last());
        assert((a + b).last() == b.last());
        if b.last() != '-' {
            assert((without_hyphens(a) + without_hyphens(b.drop_last())).push(b.last())
                =~= without_hyphens(a) + without_hyphens(b.drop_last()).push(b.last()));
        }
    }
}

/// A text that holds no hyphen loses nothing with its hyphens.
pub proof fn lemma_without_hyphens_of_word(p: Seq<char>)
    requires
        forall|k: int| 0 <= k < p.len() ==> p[k] != '-',
    ensures
        without_hyphens(p) == p,
    decreases p.len(),
{
    if p.len() > 0 {
        let init = p.drop_last();
        assert forall|k: int| 0 <= k < init.len() implies init[k] != '-' by {
            assert(init[k] == p[k]);
        }
        lemma_without_hyphens_of_word(init);
        assert(init.push(p.last()) =~= p);
    }
}

/// The pieces of a text cut at its hyphens, put together again, are the text
/// without its hyphens.
pub proof fn lemma_concatenated_split(s: Seq<char>)
    ensures
        concatenated(split_on(s, '-')) == without_hyphens(s),
    decreases s.len(),
{
    if s.len() == 0 {
        let one = seq![Seq::<char>::empty()];
        assert(one.drop_last() =~= Seq::<Seq<char>>::empty());
        assert(concatenated(one.drop_last()) =~= Seq::<char>::empty());
        assert(concatenated(one) =~= Seq::<char>::empty());
    } else {
        let before = split_on(s.drop_last(), '-');
        lemma_concatenated_split(s.drop_last());
        lemma_split_nonempty(s.drop_last(), '-');
        if s.last() == '-' {
            assert(before.push(Seq::<char>::empty()).drop_last() =~= before);
            assert(concatenated(before) + Seq::<char>::empty() =~= concatenated(before));
        } else {
            let grown = before.drop_last().push(before.last().push(s.last()));
            assert(grown.drop_last() =~= before.drop_last());
            assert(concatenated(before.drop_last()) + before.last().push(s.last()) =~= (
            concatenated(before.drop_last()) + before.last()).push(s.last()));
        }
    }
}

/// The empty pieces add nothing to what the pieces make together.
pub proof fn lemma_concatenated_nonempty(parts: Seq<Seq<char>>)
    ensures
        concatenated(nonempty_parts(parts)) == concatenated(parts),
    decreases parts.len(),
{
    if parts.len() > 0 {
        lemma_concatenated_nonempty(parts.drop_last());
        if parts.last().len() == 0 {
            assert(concatenated(parts.drop_last()) + parts.last() =~= concatenated(
                parts.drop_last(),
            ));
        } else {
            assert(nonempty_parts(parts.drop_last()).push(parts.last()).drop_last()
                =~= nonempty_parts(parts.drop_last()));
        }
    }
}

/// Words joined by hyphens are, without the hyphens, the words in a row.
pub proof fn lemma_joined_without_hyphens(words: Seq<Seq<char>>)
    requires
        forall|j: int| 0 <= j < words.len() ==> is_word(#[trigger] words[j]),
    ensures
        without_hyphens(joined(words, '-')) == concatenated(words),
    decreases words.len(),
{
    if words.len() == 1 {
        assert(is_word(words[0]));
        lemma_without_hyphens_of_word(words[0]);
        assert(words.drop_last() =~= Seq::<Seq<char>>::empty());
        assert(concatenated(words.drop_last()) =~= Seq::<char>::empty());
        assert(concatenated(words) =~= words[0]);
    } else if words.len() > 1 {
        let init = words.drop_last();
        let last = words.last();
        assert forall|j: int| 0 <= j < init.len() implies is_word(#[trigger] init[j]) by {
            assert(init[j] == words[j]);
        }
        lemma_joined_without_hyphens(init);
        assert(is_word(words[words.len() - 1]));
        lemma_without_hyphens_of_word(last);
        let head = joined(init, '-');
        lemma_without_hyphens_add(head.push('-'), last);
        assert(head.push('-').drop_last() =~= head);
    }
}

/// Collapsing touches the hyphens only: every other character stays, in its
/// place among the others.
pub proof fn collapsed_text_keeps_what_is_no_hyphen(s: Seq<char>)
    ensures
        without_hyphens(collapsed(s)) == without_hyphens(s),
{
    lemma_split_pieces_hold_no_hyphen(s);
    lemma_kept_pieces_are_words(split_on(s, '-'));
    lemma_joined_without_hyphens(nonempty_parts(split_on(s, '-')));
    lemma_concatenated_nonempty(split_on(s, '-'));
    lemma_concatenated_split(s);
}

/// Under the permissive policy an anchor is tidy, whatever the heading's
/// text.
pub proof fn permissive_anchor_is_tidy(text: Seq<char>)
    ensures
        is_tidy(anchor_under(SlugPolicy::Permissive, text)),
{
    collapsed_text_is_tidy(substituted(SlugPolicy::Permissive, unicode_lowercase(text)));
}

/// Trimming at the start cuts a run of hyphens off and nothing else.
pub proof fn lemma_trim_start(s: Seq<char>)
    ensures
        trim_start(s).len() <= s.len(),
        trim_start(s) == s.skip(s.len() - trim_start(s).len()),
        trim_start(s).len() > 0 ==> trim_start(s)[0] != '-',
        forall|j: int| 0 <= j < s.len() - trim_start(s).len() ==> s[j] == '-',
    decreases s.len(),
{
    if s.len() > 0 && s[0] == '-' {
        let rest = s.drop_first();
        lemma_trim_start(rest);
        let cut = rest.len() - trim_start(rest).len();
        assert(rest.skip(cut) =~= s.skip(cut + 1));
        assert forall|j: int| 0 <= j < cut + 1 implies s[j] == '-' by {
            if j > 0 {
                assert(rest[j - 1] == s[j]);
            }
        }
    } else {
        assert(s.skip(0) =~= s);
    }
}

/// Trimming at the end cuts a run of hyphens off and nothing else.
pub proof fn lemma_trim_end(s: Seq<char>)
    ensures
        trim_end(s).len() <= s.len(),
        trim_end(s) == s.take(trim_end(s).len() as int),
        trim_end(s).len() > 0 ==> trim_end(s).last() != '-',
        forall|j: int| trim_end(s).len() <= j < s.len() ==> s[j] == '-',
    decreases s.len(),
{
    if s.len() > 0 && s.last() == '-' {
        let init = s.drop_last();
        lemma_trim_end(init);
        let keep = trim_end(init).len() as int;
        assert(init.take(keep) =~= s.take(keep));
        assert forall|j: int| keep <= j < s.len() implies s[j] == '-' by {
            if j < init.len() {
                assert(init[j] == s[j]);
            }
        }
    } else {
        assert(s.take(s.len() as int) =~= s);
    }
}

/// A trimmed text is the stretch of the text that is left when the hyphens
/// at both ends are gone: what was cut off is hyphens only, and what is left
/// neither begins nor ends with one.
pub proof fn trimmed_text_has_clean_ends(s: Seq<char>)
    ensures
        trimmed(s).len() <= s.len(),
        trimmed(s).len() > 0 ==> trimmed(s)[0] != '-' && trimmed(s).last() != '-',
        exists|from: int|
            {
                &&& 0 <= from <= s.len() - trimmed(s).len()
                &&& #[trigger] s.subrange(from, from + trimmed(s).len()) == trimmed(s)
                &&& forall|j: int|
                    0 <= j < s.len() && !(from <= j < from + trimmed(s).len()) ==> s[j] == '-'
            },
{
    lemma_trim_start(s);
    let t = trim_start(s);
    lemma_trim_end(t);
    let from = s.len() - t.len();
    let r = trimmed(s);
    assert(r == t.take(r.len() as int));
    if r.len() > 0 {
        assert(r[0] == t[0]);
    }
    assert(s.subrange(from, from + r.len()) =~= r);
    assert forall|j: int| 0 <= j < s.len() && !(from <= j < from + r.len()) implies s[j]
        == '-' by {
        if j >= from {
            assert(t[j - from] == s[j]);
        }
    }
}

/// After the substitution a text holds nothing but what the policy lets
/// through: under the permissive one letters, digits and hyphens; under the
/// strict one `a` to `z`, `0` to `9` and hyphens.
pub proof fn substituted_text_holds_slug_characters(policy: SlugPolicy, s: Seq<char>)
    ensures
        substituted(policy, s).len() <= s.len(),
        forall|i: int|
            0 <= i < substituted(policy, s).len() ==> {
                let c = #[trigger] substituted(policy, s)[i];
                match policy {
                    SlugPolicy::Permissive => c == '-' || unicode_alphanumeric(c),
                    SlugPolicy::Strict => c == '-' || ('a' <= c && c <= 'z') || ('0' <= c && c
                        <= '9'),
                }
            },
    decreases s.len(),
{
    if s.len() > 0 {
        substituted_text_holds_slug_characters(policy, s.drop_last());
        let before = substituted(policy, s.drop_last());
        match slug_char(policy, s.last()) {
            Some(c) => {
                assert forall|i: int| 0 <= i < before.push(c).len() implies {
                    let d = #[trigger] before.push(c)[i];
                    match policy {
                        SlugPolicy::Permissive => d == '-' || unicode_alphanumeric(d),
                        SlugPolicy::Strict => d == '-' || ('a' <= d && d <= 'z') || ('0' <= d && d
                            <= '9'),
                    }
                } by {
                    if i < before.len() {
                        assert(before.push(c)[i] == before[i]);
                    }
                }
            },
            None => {},
        }
    }
}

/// What is left of a text without its hyphens was in the text.
pub proof fn lemma_without_hyphens_within(s: Seq<char>)
    ensures
        forall|i: int|
            0 <= i < without_hyphens(s).len() ==> s.contains(#[trigger] without_hyphens(s)[i]),
    decreases s.len(),
{
    if s.len() > 0 {
        let init = s.drop_last();
        lemma_without_hyphens_within(init);
        assert forall|i: int| 0 <= i < without_hyphens(s).len() implies s.contains(
            #[trigger] without_hyphens(s)[i],
        ) by {
            if i < without_hyphens(init).len() {
                let c = without_hyphens(init)[i];
                assert(init.contains(c));
                let k = choose|k: int| 0 <= k < init.len() && init[k] == c;
                assert(s[k] == c);
            } else {
                assert(s[s.len() - 1] == s.last());
            }
        }
    }
}

/// A character of a text that is no hyphen is still there without the
/// hyphens.
pub proof fn lemma_without_hyphens_keeps(s: Seq<char>, i: int)
    requires
        0 <= i < s.len(),
        s[i] != '-',
    ensures
        without_hyphens(s).contains(s[i]),
    decreases s.len(),
{
    let init = s.drop_last();
    if i == s.len() - 1 {
        assert(without_hyphens(s).last() == s[i]);
        assert(without_hyphens(s)[without_hyphens(s).len() - 1] == s[i]);
    } else {
        lemma_without_hyphens_keeps(init, i);
        assert(init[i] == s[i]);
        let k = choose|k: int|
            0 <= k < without_hyphens(init).len() && without_hyphens(init)[k] == s[i];
        assert(without_hyphens(s)[k] == s[i]);
    }
}

/// Under the permissive policy an anchor holds letters, digits and hyphens,
/// and nothing else.
pub proof fn permissive_anchor_holds_slug_characters(text: Seq<char>)
    ensures
        forall|i: int|
            0 <= i < anchor_under(SlugPolicy::Permissive, text).len() ==> {
                let c = #[trigger] anchor_under(SlugPolicy::Permissive, text)[i];
                c == '-' || unicode_alphanumeric(c)
            },
{
    let replaced = substituted(SlugPolicy::Permissive, unicode_lowercase(text));
    let anchor = anchor_under(SlugPolicy::Permissive, text);
    collapsed_text_keeps_what_is_no_hyphen(replaced);
    lemma_without_hyphens_within(replaced);
    substituted_text_holds_slug_characters(SlugPolicy::Permissive, unicode_lowercase(text));
    assert forall|i: int| 0 <= i < anchor.len() implies {
        let c = #[trigger] anchor[i];
        c == '-' || unicode_alphanumeric(c)
    } by {
        let c = anchor[i];
        if c != '-' {
            lemma_without_hyphens_keeps(anchor, i);
            let k = choose|k: int|
                0 <= k < without_hyphens(anchor).len() && without_hyphens(anchor)[k] == c;
            assert(replaced.contains(without_hyphens(replaced)[k]));
            let m = choose|m: int| 0 <= m < replaced.len() && replaced[m] == c;
            assert(replaced[m] == '-' || unicode_alphanumeric(replaced[m]));
        }
    }
}

/// Under the strict policy an anchor holds `a` to `z`, `0` to `9` and
/// hyphens, and nothing else, and no hyphen stands at either end.
pub proof fn strict_anchor_is_plain(text: Seq<char>)
    ensures
        anchor_under(SlugPolicy::Strict, text).len() > 0 ==> anchor_under(
            SlugPolicy::Strict,
            text,
        )[0] != '-' && anchor_under(SlugPolicy::Strict, text).last() != '-',
        forall|i: int|
            0 <= i < anchor_under(SlugPolicy::Strict, text).len() ==> {
                let c = #[trigger] anchor_under(SlugPolicy::Strict, text)[i];
                c == '-' || ('a' <= c && c <= 'z') || ('0' <= c && c <= '9')
            },
{
    let replaced = substituted(SlugPolicy::Strict, unicode_lowercase(text));
    let anchor = anchor_under(SlugPolicy::Strict, text);
    trimmed_text_has_clean_ends(replaced);
    substituted_text_holds_slug_characters(SlugPolicy::Strict, unicode_lowercase(text));
    let from = choose|from: int|
        {
            &&& 0 <= from <= replaced.len() - trimmed(replaced).len()
            &&& #[trigger] replaced.subrange(from, from + trimmed(replaced).len()) == trimmed(
                replaced,
            )
            &&& forall|j: int|
                0 <= j < replaced.len() && !(from <= j < from + trimmed(replaced).len())
                    ==> replaced[j] == '-'
        };
    assert forall|i: int| 0 <= i < anchor.len() implies {
        let c = #[trigger] anchor[i];
        c == '-' || ('a' <= c && c <= 'z') || ('0' <= c && c <= '9')
    } by {
        assert(anchor[i] == replaced.subrange(from, from + anchor.len())[i]);
        assert(anchor[i] == replaced[from + i]);
    }
}

} // verus!
