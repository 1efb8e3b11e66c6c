// SPDX-License-Identifier: BSD-3-Clause
// Copyright 2023, (Feohr) Mohammed Rehaan and the ToadWriter contributors.

//! The tokenizer: from the text of a document to its glyphs.
//!
//! [`tokens_of`] says what the glyphs of a text are. [`tokenize`] computes them in
//! one pass, one character at a time, with a machine of five states
//! ([`ScanState`]) that looks at nothing but the class of the next character.

use vstd::prelude::*;
use crate::chars::{blank, is_blank, HEADING, NEWLINE};
use crate::error::TreeError;
use crate::glyph::{body_glyph, heading_glyph, views, Glyph, GlyphView};
use crate::text::{
    lemma_chars_fit_in_bytes, lemma_len_until, lemma_len_until_fits, line_len, trimmed,
};

verus! {

/// The number of markers that `s` starts with.
pub open spec fn marker_run(s: Seq<char>) -> nat
    decreases s.len(),
{
    if s.len() > 0 && s[0] == HEADING {
        1 + marker_run(s.skip(1))
    } else {
        0
    }
}

/// A run of markers and a first line are no longer than the text.
pub proof fn lemma_run_and_line_fit(s: Seq<char>)
    ensures
        marker_run(s) <= s.len(),
        line_len(s) <= s.len(),
    decreases s.len(),
{
    lemma_len_until_fits(s, NEWLINE);
    if s.len() > 0 {
        lemma_run_and_line_fit(s.skip(1));
    }
}

/// The glyphs of the text `s`, in the order of the text.
///
/// - A run of markers opens a title or a heading. Its text is the rest of the
///   line, trimmed; the line feed that ends the line belongs to it. Where the text
///   ends before the line does, the glyph is given if it has any text and dropped
///   if it has none.
/// - Whitespace within a line, outside a heading, is passed over.
/// - Every other character, the line feed too, is one glyph of plain text.
pub open spec fn tokens_of(s: Seq<char>) -> Seq<GlyphView>
    decreases s.len(),
{
    if s.len() == 0 {
        Seq::empty()
    } else if s[0] == HEADING {
        let level = marker_run(s);
        let rest = s.skip(level as int);
        let len = line_len(rest);
        let glyph = heading_glyph(level, rest.take(len as int));
        if len < rest.len() {
            proof {
                lemma_run_and_line_fit(s);
            }
            seq![glyph] + tokens_of(rest.skip(len as int + 1))
        } else if glyph.content.len() > 0 {
            seq![glyph]
        } else {
            Seq::empty()
        }
    } else if is_blank(s[0]) {
        tokens_of(s.skip(1))
    } else {
        seq![body_glyph(s[0])] + tokens_of(s.skip(1))
    }
}

/// The classes of characters that the tokenizer tells apart.
#[derive(Debug, Clone, Copy, PartialEq, Eq, Structural)]
pub enum CharClass {
    /// The marker of titles and headings.
    Marker,
    /// The line feed.
    Newline,
    /// Whitespace within a line.
    Blank,
    /// Anything else.
    Other,
}

/// The class of the character `c`.
pub open spec fn class_of(c: char) -> CharClass {
    if c == HEADING {
        CharClass::Marker
    } else if c == NEWLINE {
        CharClass::Newline
    } else if is_blank(c) {
        CharClass::Blank
    } else {
        CharClass::Other
    }
}

/// Finds the class of the character `c`.
pub fn classify(c: char) -> (class: CharClass)
    ensures
        class == class_of(c),
{
    if c == HEADING {
        CharClass::Marker
    } else if c == NEWLINE {
        CharClass::Newline
    } else if blank(c) {
        CharClass::Blank
    } else {
        CharClass::Other
    }
}

/// The states of the tokenizer.
#[derive(Debug, Clone, Copy, PartialEq, Eq, Structural)]
pub enum ScanState {
    /// Between glyphs: whitespace is passed over, plain text is given out.
    ScanningForMarker,
    /// Inside a run of markers, so many of them read so far.
    InMarkerRun(usize),
    /// Inside the line behind a run of so many markers.
    ConsumingLineContent(usize),
    /// The line behind a run of so many markers has ended: its glyph is due.
    EmitToken(usize),
    /// The text has ended.
    EndOfInput,
}

impl ScanState {
    /// The state that follows `self` on `input`: the class of the next character,
    /// or `None` at the end of the text.
    ///
    /// Once in a line the machine stays in it until the line ends, whatever comes.
    /// The count of a run of markers wraps around at the largest number that a
    /// `usize` holds: only a run that long is taken for a run of none.
    pub open spec fn next(self, input: Option<CharClass>) -> ScanState {
        match self {
            ScanState::ScanningForMarker | ScanState::EmitToken(_) => match input {
                Some(CharClass::Marker) => ScanState::InMarkerRun(1),
                Some(_) => ScanState::ScanningForMarker,
                None => ScanState::EndOfInput,
            },
            ScanState::InMarkerRun(count) => match input {
                Some(CharClass::Marker) => ScanState::InMarkerRun(count.wrapping_add(1)),
                Some(CharClass::Newline) | None => ScanState::EmitToken(count),
                Some(_) => ScanState::ConsumingLineContent(count),
            },
            ScanState::ConsumingLineContent(level) => match input {
                Some(CharClass::Newline) | None => ScanState::EmitToken(level),
                Some(_) => ScanState::ConsumingLineContent(level),
            },
            ScanState::EndOfInput => ScanState::EndOfInput,
        }
    }

    /// Moves the machine on by one character, or by the end of the text.
    pub fn step(self, input: Option<CharClass>) -> (next: ScanState)
        ensures
            next == self.next(input),
    {
        match self {
            ScanState::ScanningForMarker | ScanState::EmitToken(_) => match input {
                Some(CharClass::Marker) => ScanState::InMarkerRun(1),
                Some(_) => ScanState::ScanningForMarker,
                None => ScanState::EndOfInput,
            },
            ScanState::InMarkerRun(count) => match input {
                Some(CharClass::Marker) => ScanState::InMarkerRun(count.wrapping_add(1)),
                Some(CharClass::Newline) | None => ScanState::EmitToken(count),
                Some(_) => ScanState::ConsumingLineContent(count),
            },
            ScanState::ConsumingLineContent(level) => match input {
                Some(CharClass::Newline) | None => ScanState::EmitToken(level),
                Some(_) => ScanState::ConsumingLineContent(level),
            },
            ScanState::EndOfInput => ScanState::EndOfInput,
        }
    }
}

/// Every character of `s` from `from` up to `to` is a marker.
pub open spec fn all_markers(s: Seq<char>, from: int, to: int) -> bool {
    forall|k: int| from <= k < to ==> #[trigger] s[k] == HEADING
}

/// No character of `s` from `from` up to `to` is a line feed.
pub open spec fn no_newline(s: Seq<char>, from: int, to: int) -> bool {
    forall|k: int| from <= k < to ==> #[trigger] s[k] != NEWLINE
}

/// A text that starts with `count` markers and goes on with something else has a
/// marker run of `count`.
pub proof fn lemma_marker_run(s: Seq<char>, count: int)
    requires
        0 <= count <= s.len(),
        all_markers(s, 0, count),
        count < s.len() ==> s[count] != HEADING,
    ensures
        marker_run(s) == count,
    decreases count,
{
    if count > 0 {
        let rest = s.skip(1);
        assert forall|k: int| 0 <= k < count - 1 implies #[trigger] rest[k] == HEADING by {
            assert(s[k + 1] == HEADING);
        }
        assert(s[0] == HEADING);
        lemma_marker_run(rest, count - 1);
    }
}

/// A run of markers is made of markers, and what follows it is none.
pub proof fn lemma_marker_run_fits(s: Seq<char>)
    ensures
        marker_run(s) <= s.len(),
        all_markers(s, 0, marker_run(s) as int),
        marker_run(s) < s.len() ==> s[marker_run(s) as int] != HEADING,
    decreases s.len(),
{
    if s.len() > 0 && s[0] == HEADING {
        let rest = s.skip(1);
        lemma_marker_run_fits(rest);
        assert forall|k: int| 0 <= k < marker_run(s) implies #[trigger] s[k] == HEADING by {
            if k > 0 {
                assert(s[k] == rest[k - 1]);
            }
        }
    }
}

/// A text whose first `len` characters hold no line feed, and which ends there or
/// goes on with one, has a first line of length `len`.
pub proof fn lemma_line_len(s: Seq<char>, len: int)
    requires
        0 <= len <= s.len(),
        no_newline(s, 0, len),
        len < s.len() ==> s[len] == NEWLINE,
    ensures
        line_len(s) == len,
{
    lemma_len_until(s, NEWLINE, len);
}

/// Whitespace within a line, between glyphs, gives no glyph.
pub proof fn lemma_scan_blank(s: Seq<char>, i: int)
    requires
        0 <= i < s.len(),
        class_of(s[i]) == CharClass::Blank,
    ensures
        tokens_of(s.skip(i)) == tokens_of(s.skip(i + 1)),
{
    assert(s.skip(i).skip(1) =~= s.skip(i + 1));
}

/// A line feed or another character of plain text, between glyphs, gives one
/// glyph.
pub proof fn lemma_scan_body(s: Seq<char>, i: int)
    requires
        0 <= i < s.len(),
        class_of(s[i]) == CharClass::Newline || class_of(s[i]) == CharClass::Other,
    ensures
        tokens_of(s.skip(i)) == seq![body_glyph(s[i])] + tokens_of(s.skip(i + 1)),
{
    assert(s.skip(i).skip(1) =~= s.skip(i + 1));
}

/// A heading that a line feed ends: `level` markers from `start`, then the line up
/// to `end`, where the line feed stands.
pub proof fn lemma_scan_heading(s: Seq<char>, start: int, level: int, end: int)
    requires
        0 <= start,
        1 <= level,
        start + level <= end < s.len(),
        all_markers(s, start, start + level),
        s[start + level] != HEADING,
        no_newline(s, start + level, end),
        s[end] == NEWLINE,
    ensures
        tokens_of(s.skip(start)) == seq![
            heading_glyph(level as nat, s.subrange(start + level, end)),
        ] + tokens_of(s.skip(end + 1)),
{
    let t = s.skip(start);
    assert(t[0] == s[start]);
    assert forall|k: int| 0 <= k < level implies #[trigger] t[k] == HEADING by {
        assert(s[start + k] == HEADING);
    }
    lemma_marker_run(t, level);
    let rest = t.skip(level);
    assert(rest =~= s.skip(start + level));
    let len = end - (start + level);
    assert forall|k: int| 0 <= k < len implies #[trigger] rest[k] != NEWLINE by {
        assert(s[start + level + k] != NEWLINE);
    }
    lemma_line_len(rest, len);
    assert(rest.take(len) =~= s.subrange(start + level, end));
    assert(rest.skip(len + 1) =~= s.skip(end + 1));
}

/// A heading that the end of the text cuts short: `level` markers from `start`,
/// then the rest of the text, without a line feed.
pub proof fn lemma_scan_heading_cut(s: Seq<char>, start: int, level: int)
    requires
        0 <= start,
        1 <= level,
        start + level <= s.len(),
        all_markers(s, start, start + level),
        start + level < s.len() ==> s[start + level] != HEADING,
        no_newline(s, start + level, s.len() as int),
    ensures
        tokens_of(s.skip(start)) == if trimmed(s.subrange(start + level, s.len() as int)).len()
            > 0 {
            seq![heading_glyph(level as nat, s.subrange(start + level, s.len() as int))]
        } else {
            Seq::empty()
        },
{
    let t = s.skip(start);
    assert(t[0] == s[start]);
    assert forall|k: int| 0 <= k < level implies #[trigger] t[k] == HEADING by {
        assert(s[start + k] == HEADING);
    }
    lemma_marker_run(t, level);
    let rest = t.skip(level);
    assert(rest =~= s.skip(start + level));
    let len = s.len() - (start + level);
    assert forall|k: int| 0 <= k < len implies #[trigger] rest[k] != NEWLINE by {
        assert(s[start + level + k] != NEWLINE);
    }
    lemma_line_len(rest, len);
    assert(rest.take(len) =~= s.subrange(start + level, s.len() as int));
}

/// What holds while the tokenizer reads `s`, after `i` characters: `out` are the
/// glyphs given so far, `state` is the state of the machine, `line` the text kept
/// back for the heading that began at `start`, if the machine is in one.
spec fn scanned(
    s: Seq<char>,
    i: int,
    state: ScanState,
    start: int,
    line: Seq<char>,
    out: Seq<GlyphView>,
) -> bool {
    &&& 0 <= i <= s.len()
    &&& match state {
        ScanState::ScanningForMarker | ScanState::EmitToken(_) => {
            &&& line.len() == 0
            &&& tokens_of(s) == out + tokens_of(s.skip(i))
        },
        ScanState::InMarkerRun(count) => {
            &&& 0 <= start
            &&& 1 <= count
            &&& start + count == i
            &&& all_markers(s, start, i)
            &&& line.len() == 0
            &&& tokens_of(s) == out + tokens_of(s.skip(start))
        },
        ScanState::ConsumingLineContent(level) => {
            &&& 0 <= start
            &&& 1 <= level
            &&& start + level < i
            &&& all_markers(s, start, start + level)
            &&& s[start + level] != HEADING
            &&& no_newline(s, start + level, i)
            &&& line == s.subrange(start + level, i)
            &&& tokens_of(s) == out + tokens_of(s.skip(start))
        },
        ScanState::EndOfInput => false,
    }
}

/// Reads the text `input` into its glyphs.
///
/// Every text has glyphs: the outcome is never an error.
pub fn tokenize(input: &str) -> (outcome: Result<Vec<Glyph>, TreeError>)
    ensures
        outcome is Ok,
        views(outcome->Ok_0@) == tokens_of(input@),
{
    let limit = input.as_bytes().len();
    proof {
        lemma_chars_fit_in_bytes(input@);
    }
    let mut output: Vec<Glyph> = Vec::new();
    let mut line: Vec<char> = Vec::new();
    let mut state = ScanState::ScanningForMarker;
    let ghost mut start: int = 0;
    proof {
        assert(input@.skip(0) =~= input@);
        assert(views(output@) =~= Seq::<GlyphView>::empty());
        assert(Seq::<GlyphView>::empty() + tokens_of(input@) =~= tokens_of(input@));
    }
    for ch in it: input.chars()
        invariant
            it.seq() == input@,
            input@.len() <= limit,
            scanned(input@, it.index() as int, state, start, line@, views(output@)),
    {
        let ghost s = input@;
        let ghost i = it.index() as int;
        let ghost before = views(output@);
        let ghost was = state;
        assert(ch == s[i]);
        let class = classify(ch);
        state = state.step(Some(class));
        match state {
            ScanState::ScanningForMarker => {
                if class != CharClass::Blank {
                    output.push(Glyph::body(ch));
                    proof {
                        lemma_scan_body(s, i);
                        assert(views(output@) =~= before.push(body_glyph(ch)));
                        assert(before + (seq![body_glyph(ch)] + tokens_of(s.skip(i + 1)))
                            =~= before.push(body_glyph(ch)) + tokens_of(s.skip(i + 1)));
                    }
                } else {
                    proof {
                        lemma_scan_blank(s, i);
                    }
                }
            },
            ScanState::InMarkerRun(_) => {
                proof {
                    if !(was is InMarkerRun) {
                        start = i;
                    }
                }
            },
            ScanState::ConsumingLineContent(_) => {
                line.push(ch);
                proof {
                    assert(line@ =~= s.subrange(i + 1 - line@.len(), i + 1));
                }
            },
            ScanState::EmitToken(level) => {
                match Glyph::heading(level, &line) {
                    Ok(glyph) => {
                        output.push(glyph);
                        proof {
                            lemma_scan_heading(s, start, level as int, i);
                            let g = heading_glyph(level as nat, line@);
                            assert(line@ =~= s.subrange(start + level, i));
                            assert(views(output@) =~= before.push(g));
                            assert(before + (seq![g] + tokens_of(s.skip(i + 1))) =~= before.push(g)
                                + tokens_of(s.skip(i + 1)));
                        }
                    },
                    Err(error) => {
                        return Err(error);
                    },
                }
                line.clear();
            },
            ScanState::EndOfInput => {},
        }
    }
    let ghost s = input@;
    let ghost before = views(output@);
    state = state.step(None);
    if let ScanState::EmitToken(level) = state {
        match Glyph::heading(level, &line) {
            Ok(glyph) => {
                proof {
                    lemma_scan_heading_cut(s, start, level as int);
                    assert(line@ =~= s.subrange(start + level, s.len() as int));
                }
                if !glyph.content().is_empty() {
                    output.push(glyph);
                    proof {
                        let g = heading_glyph(level as nat, line@);
                        assert(views(output@) =~= before.push(g));
                        assert(before + seq![g] =~= before.push(g));
                    }
                } else {
                    proof {
                        assert(before + Seq::<GlyphView>::empty() =~= before);
                    }
                }
            },
            Err(error) => {
                return Err(error);
            },
        }
    } else {
        proof {
            assert(s.skip(s.len() as int) =~= Seq::<char>::empty());
            assert(before + Seq::<GlyphView>::empty() =~= before);
        }
    }
    Ok(output)
}

} // verus!
