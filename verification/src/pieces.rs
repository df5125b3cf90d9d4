//! Splitting a text at a separator and joining pieces with one.
use vstd::prelude::*;

verus! {

/// The pieces of `s` between occurrences of `sep`: one more than there are
/// separators, empty where two separators meet or one stands at an end.
pub open spec fn split_on(s: Seq<char>, sep: char) -> Seq<Seq<char>>
    decreases s.len(),
{
    if s.len() == 0 {
        seq![Seq::<char>::empty()]
    } else {
        let before = split_on(s.drop_last(), sep);
        if s.last() == sep {
            before.push(Seq::<char>::empty())
        } else {
            before.drop_last().push(before.last().push(s.last()))
        }
    }
}

/// The pieces in order with one `sep` between each two neighbours.
pub open spec fn joined(parts: Seq<Seq<char>>, sep: char) -> Seq<char>
    decreases parts.len(),
{
    if parts.len() == 0 {
        Seq::<char>::empty()
    } else if parts.len() == 1 {
        parts[0]
    } else {
        joined(parts.drop_last(), sep).push(sep) + parts.last()
    }
}

/// The pieces that hold at least one character, in order.
pub open spec fn nonempty_parts(parts: Seq<Seq<char>>) -> Seq<Seq<char>>
    decreases parts.len(),
{
    if parts.len() == 0 {
        parts
    } else if parts.last().len() == 0 {
        nonempty_parts(parts.drop_last())
    } else {
        nonempty_parts(parts.drop_last()).push(parts.last())
    }
}

/// A split always yields at least one piece.
pub proof fn lemma_split_nonempty(s: Seq<char>, sep: char)
    ensures
        split_on(s, sep).len() >= 1,
    decreases s.len(),
{
    if s.len() > 0 {
        lemma_split_nonempty(s.drop_last(), sep);
    }
}

/// What one more character does to a split.
pub proof fn lemma_split_push(s: Seq<char>, c: char, sep: char)
    ensures
        split_on(s, sep).len() >= 1,
        c == sep ==> split_on(s.push(c), sep) == split_on(s, sep).push(Seq::<char>::empty()),
        c != sep ==> split_on(s.push(c), sep) == split_on(s, sep).drop_last().push(
            split_on(s, sep).last().push(c),
        ),
{
    lemma_split_nonempty(s, sep);
    assert(s.push(c).drop_last() =~= s);
}

/// What one more piece does to a join.
pub proof fn lemma_joined_push(parts: Seq<Seq<char>>, last: Seq<char>, sep: char)
    ensures
        joined(parts.push(last), sep) == if parts.len() == 0 {
            last
        } else {
            joined(parts, sep).push(sep) + last
        },
{
    assert(parts.push(last).drop_last() =~= parts);
}

/// What one more piece does to the pieces that are kept.
pub proof fn lemma_nonempty_push(parts: Seq<Seq<char>>, last: Seq<char>)
    ensures
        nonempty_parts(parts.push(last)) == if last.len() == 0 {
            nonempty_parts(parts)
        } else {
            nonempty_parts(parts).push(last)
        },
{
    assert(parts.push(last).drop_last() =~= parts);
}

} // verus!
