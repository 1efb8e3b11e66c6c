// SPDX-License-Identifier: BSD-3-Clause
// Copyright 2023, (Feohr) Mohammed Rehaan and the ToadWriter contributors.

//! Counting the words of a text.

use vstd::prelude::*;
use crate::chars::{is_separator, separator};
use crate::text::lemma_chars_fit_in_bytes;

verus! {

/// A word starts at `i` where a character that separates nothing stands there and
/// none stands before it.
pub open spec fn starts_word(s: Seq<char>, i: int) -> bool {
    &&& 0 <= i < s.len()
    &&& !is_separator(s[i])
    &&& (i == 0 || is_separator(s[i - 1]))
}

/// The number of words of `s`: of the places at which a word starts.
pub open spec fn words(s: Seq<char>) -> nat
    decreases s.len(),
{
    if s.len() == 0 {
        0
    } else {
        words(s.drop_last()) + if starts_word(s, s.len() - 1) {
            1nat
        } else {
            0nat
        }
    }
}

/// The places of `s` at which a word starts.
pub open spec fn word_starts(s: Seq<char>) -> Set<int> {
    Set::new(|i: int| starts_word(s, i))
}

/// The number of words of a text is the number of places at which a word starts
/// in it: one for each maximal run of characters that separate nothing.
pub proof fn lemma_words_count_starts(s: Seq<char>)
    ensures
        word_starts(s).finite(),
        words(s) == word_starts(s).len(),
    decreases s.len(),
{
    if s.len() == 0 {
        assert(word_starts(s) =~= Set::<int>::empty());
    } else {
        let front = s.drop_last();
        let last = s.len() - 1;
        lemma_words_count_starts(front);
        assert forall|i: int| i != last implies starts_word(s, i) == starts_word(front, i) by {
            if 0 <= i < last {
                assert(front[i] == s[i]);
                if i > 0 {
                    assert(front[i - 1] == s[i - 1]);
                }
            }
        }
        if starts_word(s, last) {
            assert(word_starts(s) =~= word_starts(front).insert(last));
        } else {
            assert(word_starts(s) =~= word_starts(front));
        }
    }
}

/// Whether a word runs on from the end of `head` into the start of `tail` when
/// the two are put together.
pub open spec fn joined(head: Seq<char>, tail: Seq<char>) -> bool {
    &&& head.len() > 0
    &&& tail.len() > 0
    &&& !is_separator(head.last())
    &&& !is_separator(tail[0])
}

/// The words of two texts put together are the words of the one and the words
/// of the other, less one where a word runs on from the first into the second.
pub proof fn lemma_words_of_sum(head: Seq<char>, tail: Seq<char>)
    ensures
        words(head + tail) + (if joined(head, tail) {
            1nat
        } else {
            0nat
        }) == words(head) + words(tail),
    decreases tail.len(),
{
    let all = head + tail;
    if tail.len() == 0 {
        assert(all =~= head);
    } else {
        let front = tail.drop_last();
        assert(all.drop_last() =~= head + front);
        lemma_words_of_sum(head, front);
        let last = all.len() - 1;
        assert(all[last] == tail.last());
        if front.len() > 0 {
            assert(all[last - 1] == tail[tail.len() - 2]);
            assert(front[0] == tail[0]);
        } else if head.len() > 0 {
            assert(all[last - 1] == head.last());
        }
    }
}

/// A text of separators alone has no word.
pub proof fn lemma_no_words(s: Seq<char>)
    requires
        forall|i: int| 0 <= i < s.len() ==> is_separator(#[trigger] s[i]),
    ensures
        words(s) == 0,
    decreases s.len(),
{
    if s.len() > 0 {
        let front = s.drop_last();
        assert forall|i: int| 0 <= i < front.len() implies is_separator(#[trigger] front[i]) by {
            assert(front[i] == s[i]);
        }
        lemma_no_words(front);
    }
}

/// Counts the words of `text`: the maximal runs of characters that are neither
/// whitespace nor ASCII punctuation.
pub fn word_count(text: &str) -> (count: usize)
    ensures
        count == words(text@),
{
    let limit = text.as_bytes().len();
    proof {
        lemma_chars_fit_in_bytes(text@);
    }
    let mut count: usize = 0;
    let mut in_gap = true;
    for ch in it: text.chars()
        invariant
            text@.len() <= limit,
            it.seq() == text@,
            count <= it.index(),
            count == words(text@.take(it.index() as int)),
            in_gap == (it.index() == 0 || is_separator(text@[it.index() - 1])),
    {
        let ghost i = it.index() as int;
        assert(text@.take(i + 1).drop_last() =~= text@.take(i));
        if separator(ch) {
            in_gap = true;
        } else if in_gap {
            in_gap = false;
            count += 1;
        }
    }
    assert(text@.take(text@.len() as int) =~= text@);
    count
}

} // verus!
