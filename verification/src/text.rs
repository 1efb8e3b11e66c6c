// SPDX-License-Identifier: BSD-3-Clause
// Copyright 2023, (Feohr) Mohammed Rehaan and the ToadWriter contributors.

//! Sequences of characters: trimming, and building strings from characters.

use vstd::prelude::*;
use vstd::utf8::encode_utf8;
use crate::chars::{white_space, NEWLINE};

verus! {

/// The number of characters of `s` that stand before the first `stop`, or the
/// length of `s` where it holds none.
pub open spec fn len_until(s: Seq<char>, stop: char) -> nat
    decreases s.len(),
{
    if s.len() > 0 && s[0] != stop {
        1 + len_until(s.skip(1), stop)
    } else {
        0
    }
}

/// The length of the first line of `s`, its line feed not counted.
pub open spec fn line_len(s: Seq<char>) -> nat {
    len_until(s, NEWLINE)
}

/// What stands before the first `stop` is no longer than the text.
pub proof fn lemma_len_until_fits(s: Seq<char>, stop: char)
    ensures
        len_until(s, stop) <= s.len(),
        len_until(s, stop) < s.len() ==> s[len_until(s, stop) as int] == stop,
        forall|k: int| 0 <= k < len_until(s, stop) ==> #[trigger] s[k] != stop,
    decreases s.len(),
{
    if s.len() > 0 && s[0] != stop {
        let rest = s.skip(1);
        lemma_len_until_fits(rest, stop);
        assert forall|k: int| 0 <= k < len_until(s, stop) implies #[trigger] s[k] != stop by {
            if k > 0 {
                assert(s[k] == rest[k - 1]);
            }
        }
    }
}

/// A text whose first `len` characters are not `stop`, and which ends there or
/// goes on with `stop`, holds `len` characters before the first `stop`.
pub proof fn lemma_len_until(s: Seq<char>, stop: char, len: int)
    requires
        0 <= len <= s.len(),
        forall|k: int| 0 <= k < len ==> #[trigger] s[k] != stop,
        len < s.len() ==> s[len] == stop,
    ensures
        len_until(s, stop) == len,
    decreases len,
{
    if len > 0 {
        let rest = s.skip(1);
        assert forall|k: int| 0 <= k < len - 1 implies #[trigger] rest[k] != stop by {
            assert(s[k + 1] != stop);
        }
        assert(s[0] != stop);
        lemma_len_until(rest, stop, len - 1);
    }
}

/// `s` without the whitespace it starts with.
pub open spec fn trim_start(s: Seq<char>) -> Seq<char>
    decreases s.len(),
{
    if s.len() > 0 && white_space(s[0]) {
        trim_start(s.skip(1))
    } else {
        s
    }
}

/// `s` without the whitespace it ends with.
pub open spec fn trim_end(s: Seq<char>) -> Seq<char>
    decreases s.len(),
{
    if s.len() > 0 && white_space(s.last()) {
        trim_end(s.drop_last())
    } else {
        s
    }
}

/// `s` without the whitespace around it.
pub open spec fn trimmed(s: Seq<char>) -> Seq<char> {
    trim_end(trim_start(s))
}

/// A trimmed sequence is empty, or begins and ends with a character that is not
/// whitespace.
pub open spec fn is_trimmed(s: Seq<char>) -> bool {
    s.len() > 0 ==> !white_space(s[0]) && !white_space(s.last())
}

/// `String::push` appends one character to the string. Not proved.
pub assume_specification[ String::push ](s: &mut String, ch: char)
    ensures
        final(s)@ == old(s)@.push(ch),
;

/// Trimming from the start leaves a suffix of the sequence.
pub proof fn lemma_trim_start_is_suffix(s: Seq<char>)
    ensures
        trim_start(s).len() <= s.len(),
        trim_start(s) == s.skip(s.len() - trim_start(s).len()),
        trim_start(s).len() > 0 ==> !white_space(trim_start(s)[0]),
        forall|i: int| 0 <= i < s.len() - trim_start(s).len() ==> white_space(#[trigger] s[i]),
    decreases s.len(),
{
    if s.len() > 0 && white_space(s[0]) {
        let rest = s.skip(1);
        lemma_trim_start_is_suffix(rest);
        let k = rest.len() - trim_start(rest).len();
        assert(rest.skip(k) =~= s.skip(k + 1));
        assert forall|i: int| 0 <= i < s.len() - trim_start(s).len() implies white_space(
            #[trigger] s[i],
        ) by {
            if i > 0 {
                assert(s[i] == rest[i - 1]);
            }
        }
    } else {
        assert(s.skip(0) =~= s);
    }
}

/// Trimming from the end leaves a prefix of the sequence.
pub proof fn lemma_trim_end_is_prefix(s: Seq<char>)
    ensures
        trim_end(s).len() <= s.len(),
        trim_end(s) == s.take(trim_end(s).len() as int),
        trim_end(s).len() > 0 ==> !white_space(trim_end(s).last()),
        forall|i: int| trim_end(s).len() <= i < s.len() ==> white_space(#[trigger] s[i]),
    decreases s.len(),
{
    if s.len() > 0 && white_space(s.last()) {
        let rest = s.drop_last();
        lemma_trim_end_is_prefix(rest);
        let k = trim_end(rest).len() as int;
        assert(rest.take(k) =~= s.take(k));
        assert forall|i: int| trim_end(s).len() <= i < s.len() implies white_space(
            #[trigger] s[i],
        ) by {
            if i < s.len() - 1 {
                assert(s[i] == rest[i]);
            }
        }
    } else {
        assert(s.take(s.len() as int) =~= s);
    }
}

/// What trimming returns is trimmed, and is a piece of the sequence it was cut
/// from.
pub proof fn lemma_trimmed_is_trimmed(s: Seq<char>)
    ensures
        is_trimmed(trimmed(s)),
        trimmed(s).len() <= s.len(),
        forall|c: char| trimmed(s).contains(c) ==> s.contains(c),
{
    lemma_trim_start_is_suffix(s);
    let t = trim_start(s);
    lemma_trim_end_is_prefix(t);
    let u = trim_end(t);
    if u.len() > 0 {
        assert(u[0] == t[0]);
    }
    assert forall|c: char| u.contains(c) implies s.contains(c) by {
        let i = choose|i: int| 0 <= i < u.len() && u[i] == c;
        assert(t[i] == c);
        assert(s[i + (s.len() - t.len())] == c);
    }
}

/// Trimming changes nothing in a sequence that is trimmed already.
pub proof fn lemma_trimmed_fixpoint(s: Seq<char>)
    requires
        is_trimmed(s),
    ensures
        trimmed(s) == s,
{
}

/// Whitespace put before a sequence does not change what trimming returns.
pub proof fn lemma_trimmed_after_whitespace(c: char, s: Seq<char>)
    requires
        white_space(c),
    ensures
        trimmed(seq![c] + s) == trimmed(s),
{
    assert((seq![c] + s).skip(1) =~= s);
}

/// Whitespace put behind a sequence does not change what trimming returns.
pub proof fn lemma_trimmed_before_whitespace(s: Seq<char>, c: char)
    requires
        white_space(c),
    ensures
        trimmed(s.push(c)) == trimmed(s),
    decreases s.len(),
{
    if s.len() > 0 && white_space(s[0]) {
        assert(s.push(c).skip(1) =~= s.skip(1).push(c));
        lemma_trimmed_before_whitespace(s.skip(1), c);
    } else if s.len() > 0 {
        assert(s.push(c).drop_last() =~= s);
    } else {
        assert(s.push(c).skip(1) =~= s);
    }
}

/// A sequence of characters is no longer than its UTF-8 encoding.
pub proof fn lemma_chars_fit_in_bytes(s: Seq<char>)
    ensures
        s.len() <= encode_utf8(s).len(),
    decreases s.len(),
{
    if s.len() > 0 {
        lemma_chars_fit_in_bytes(s.drop_first());
    }
}

/// The characters of `text`, in order.
pub fn chars_of(text: &str) -> (chars: Vec<char>)
    ensures
        chars@ == text@,
{
    let mut chars: Vec<char> = Vec::new();
    for ch in it: text.chars()
        invariant
            it.seq() == text@,
            chars@ == text@.take(it.index() as int),
    {
        let ghost i = it.index() as int;
        chars.push(ch);
        assert(text@.take(i + 1) =~= text@.take(i).push(text@[i]));
    }
    assert(text@.take(text@.len() as int) =~= text@);
    chars
}

/// The characters of `chars` from `from` up to `to`, as a string.
pub fn string_of(chars: &Vec<char>, from: usize, to: usize) -> (text: String)
    requires
        from <= to <= chars@.len(),
    ensures
        text@ == chars@.subrange(from as int, to as int),
{
    let mut text = String::new();
    let mut at: usize = from;
    assert(chars@.subrange(from as int, from as int) =~= Seq::<char>::empty());
    while at < to
        invariant
            from <= at <= to <= chars@.len(),
            text@ == chars@.subrange(from as int, at as int),
        decreases to - at,
    {
        text.push(chars[at]);
        assert(chars@.subrange(from as int, at as int).push(chars@[at as int]) =~= chars@.subrange(
            from as int,
            at + 1,
        ));
        at += 1;
    }
    text
}

/// The characters of `chars` from `from` up to `to`.
pub fn piece_of(chars: &Vec<char>, from: usize, to: usize) -> (piece: Vec<char>)
    requires
        from <= to <= chars@.len(),
    ensures
        piece@ == chars@.subrange(from as int, to as int),
{
    let mut piece: Vec<char> = Vec::new();
    let mut at: usize = from;
    assert(chars@.subrange(from as int, from as int) =~= Seq::<char>::empty());
    while at < to
        invariant
            from <= at <= to <= chars@.len(),
            piece@ == chars@.subrange(from as int, at as int),
        decreases to - at,
    {
        piece.push(chars[at]);
        assert(chars@.subrange(from as int, at as int).push(chars@[at as int]) =~= chars@.subrange(
            from as int,
            at + 1,
        ));
        at += 1;
    }
    piece
}

/// Where the characters of `chars` from `from` up to `to` begin and end once the
/// whitespace around them is left out.
pub fn trim_bounds(chars: &Vec<char>, from: usize, to: usize) -> (bounds: (usize, usize))
    requires
        from <= to <= chars@.len(),
    ensures
        from <= bounds.0 <= bounds.1 <= to,
        chars@.subrange(bounds.0 as int, bounds.1 as int) == trimmed(
            chars@.subrange(from as int, to as int),
        ),
{
    let ghost piece = chars@.subrange(from as int, to as int);
    let mut first: usize = from;
    assert(piece.skip(0) =~= piece);
    while first < to && chars[first].is_whitespace()
        invariant
            from <= first <= to <= chars@.len(),
            piece == chars@.subrange(from as int, to as int),
            trim_start(piece) == trim_start(piece.skip(first - from)),
        decreases to - first,
    {
        assert(piece.skip(first - from).skip(1) =~= piece.skip(first + 1 - from));
        assert(piece.skip(first - from)[0] == chars@[first as int]);
        first += 1;
    }
    assert(first < to ==> piece.skip(first - from)[0] == chars@[first as int]);
    let mut last: usize = to;
    assert(piece.skip(first - from) =~= chars@.subrange(first as int, to as int));
    while last > first && chars[last - 1].is_whitespace()
        invariant
            from <= first <= last <= to <= chars@.len(),
            trim_start(piece) == chars@.subrange(first as int, to as int),
            trimmed(piece) == trim_end(chars@.subrange(first as int, last as int)),
        decreases last - first,
    {
        assert(chars@.subrange(first as int, last as int).drop_last() =~= chars@.subrange(
            first as int,
            last - 1,
        ));
        last -= 1;
    }
    (first, last)
}

/// The characters of `chars` without the whitespace around them, as a string.
pub fn trim(chars: &Vec<char>) -> (text: String)
    ensures
        text@ == trimmed(chars@),
{
    assert(chars@.subrange(0, chars@.len() as int) =~= chars@);
    let (first, last) = trim_bounds(chars, 0, chars.len());
    string_of(chars, first, last)
}

/// Whether `pattern` stands in `s` at the place `at`.
pub open spec fn matches_at(s: Seq<char>, at: int, pattern: Seq<char>) -> bool {
    &&& 0 <= at
    &&& at + pattern.len() <= s.len()
    &&& s.subrange(at, at + pattern.len()) == pattern
}

/// Whether `pattern` stands somewhere in `s`.
pub open spec fn contains_text(s: Seq<char>, pattern: Seq<char>) -> bool {
    exists|at: int| matches_at(s, at, pattern)
}

/// `s` with `with` in the place of `pattern`, wherever `pattern` stands in it: the
/// places are looked for from the left, and none reaches into another. An empty
/// pattern stands nowhere.
pub open spec fn replaced(s: Seq<char>, pattern: Seq<char>, with: Seq<char>) -> Seq<char>
    decreases s.len(),
{
    if s.len() == 0 || pattern.len() == 0 {
        s
    } else if matches_at(s, 0, pattern) {
        with + replaced(s.skip(pattern.len() as int), pattern, with)
    } else {
        seq![s[0]] + replaced(s.skip(1), pattern, with)
    }
}

/// `s` without `pattern` at its start, as often as it stands there. An empty
/// pattern stands nowhere.
pub open spec fn without_leading(s: Seq<char>, pattern: Seq<char>) -> Seq<char>
    decreases s.len(),
{
    if pattern.len() > 0 && matches_at(s, 0, pattern) {
        without_leading(s.skip(pattern.len() as int), pattern)
    } else {
        s
    }
}

/// A pattern stands at the start of what is left of a text behind `at` where it
/// stands in the text at `at`.
pub proof fn lemma_matches_at_skip(s: Seq<char>, at: int, pattern: Seq<char>)
    requires
        0 <= at <= s.len(),
    ensures
        matches_at(s.skip(at), 0, pattern) == matches_at(s, at, pattern),
{
    if at + pattern.len() <= s.len() {
        assert(s.skip(at).subrange(0, pattern.len() as int) =~= s.subrange(
            at,
            at + pattern.len(),
        ));
    }
}

/// Tells whether the two sequences hold the same characters.
pub fn same_text(a: &Vec<char>, b: &Vec<char>) -> (same: bool)
    ensures
        same == (a@ == b@),
{
    if a.len() != b.len() {
        return false;
    }
    let mut at: usize = 0;
    while at < a.len()
        invariant
            at <= a@.len(),
            a@.len() == b@.len(),
            a@.take(at as int) == b@.take(at as int),
        decreases a@.len() - at,
    {
        if a[at] != b[at] {
            return false;
        }
        assert(a@.take(at + 1) =~= a@.take(at as int).push(a@[at as int]));
        assert(b@.take(at + 1) =~= b@.take(at as int).push(b@[at as int]));
        at += 1;
    }
    assert(a@.take(a@.len() as int) =~= a@);
    assert(b@.take(b@.len() as int) =~= b@);
    true
}

/// Tells whether `pattern` stands in `chars` at the place `at`.
pub fn stands_at(chars: &Vec<char>, at: usize, pattern: &Vec<char>) -> (found: bool)
    ensures
        found == matches_at(chars@, at as int, pattern@),
{
    if at > chars.len() || pattern.len() > chars.len() - at {
        return false;
    }
    let ghost piece = chars@.subrange(at as int, at + pattern@.len());
    let mut done: usize = 0;
    while done < pattern.len()
        invariant
            done <= pattern.len(),
            at + pattern.len() <= chars.len(),
            piece == chars@.subrange(at as int, at + pattern@.len()),
            piece.take(done as int) == pattern@.take(done as int),
        decreases pattern@.len() - done,
    {
        if chars[at + done] != pattern[done] {
            assert(piece[done as int] != pattern@[done as int]);
            return false;
        }
        assert(piece.take(done + 1) =~= piece.take(done as int).push(piece[done as int]));
        assert(pattern@.take(done + 1) =~= pattern@.take(done as int).push(pattern@[done as int]));
        done += 1;
    }
    assert(piece.take(piece.len() as int) =~= piece);
    assert(pattern@.take(pattern@.len() as int) =~= pattern@);
    true
}

/// Tells whether `pattern` stands somewhere in `chars`.
pub fn holds_text(chars: &Vec<char>, pattern: &Vec<char>) -> (found: bool)
    ensures
        found == contains_text(chars@, pattern@),
{
    let mut at: usize = 0;
    while at < chars.len()
        invariant
            at <= chars.len(),
            forall|k: int| 0 <= k < at ==> !matches_at(chars@, k, pattern@),
        decreases chars.len() - at,
    {
        if stands_at(chars, at, pattern) {
            return true;
        }
        at += 1;
    }
    stands_at(chars, at, pattern)
}

/// Writes `with` in the place of `pattern` wherever `pattern` stands in `chars`.
pub fn replace(chars: &Vec<char>, pattern: &Vec<char>, with: &Vec<char>) -> (out: Vec<char>)
    ensures
        out@ == replaced(chars@, pattern@, with@),
{
    let mut out: Vec<char> = Vec::new();
    let mut at: usize = 0;
    assert(chars@.skip(0) =~= chars@);
    while at < chars.len()
        invariant
            at <= chars@.len(),
            replaced(chars@, pattern@, with@) == out@ + replaced(
                chars@.skip(at as int),
                pattern@,
                with@,
            ),
        decreases chars@.len() - at,
    {
        let ghost rest = chars@.skip(at as int);
        let ghost before = out@;
        if pattern.len() > 0 && stands_at(chars, at, pattern) {
            assert(rest.subrange(0, pattern@.len() as int) =~= chars@.subrange(
                at as int,
                at + pattern@.len(),
            ));
            let mut done: usize = 0;
            while done < with.len()
                invariant
                    done <= with@.len(),
                    out@ == before + with@.take(done as int),
                decreases with@.len() - done,
            {
                out.push(with[done]);
                assert(with@.take(done + 1) =~= with@.take(done as int).push(with@[done as int]));
                done += 1;
            }
            assert(with@.take(with@.len() as int) =~= with@);
            assert(rest.skip(pattern@.len() as int) =~= chars@.skip(at + pattern@.len()));
            assert(before + (with@ + replaced(chars@.skip(at + pattern@.len()), pattern@, with@))
                =~= before + with@ + replaced(chars@.skip(at + pattern@.len()), pattern@, with@));
            at += pattern.len();
        } else {
            if pattern.len() > 0 {
                assert(!matches_at(rest, 0, pattern@)) by {
                    if matches_at(rest, 0, pattern@) {
                        assert(rest.subrange(0, pattern@.len() as int) =~= chars@.subrange(
                            at as int,
                            at + pattern@.len(),
                        ));
                    }
                }
                assert(rest.skip(1) =~= chars@.skip(at + 1));
                assert(before + (seq![rest[0]] + replaced(chars@.skip(at + 1), pattern@, with@))
                    =~= before.push(chars@[at as int]) + replaced(
                    chars@.skip(at + 1),
                    pattern@,
                    with@,
                ));
            } else {
                proof {
                    lemma_replaced_nothing(rest, with@);
                    lemma_replaced_nothing(chars@.skip(at + 1), with@);
                }
                assert(before + rest =~= before.push(chars@[at as int]) + chars@.skip(at + 1));
            }
            out.push(chars[at]);
            at += 1;
        }
    }
    assert(chars@.skip(chars@.len() as int) =~= Seq::<char>::empty());
    assert(out@ + Seq::<char>::empty() =~= out@);
    out
}

/// With an empty pattern nothing is replaced.
pub proof fn lemma_replaced_nothing(s: Seq<char>, with: Seq<char>)
    ensures
        replaced(s, Seq::empty(), with) == s,
{
}

} // verus!
