// SPDX-License-Identifier: BSD-3-Clause
// Copyright 2023, (Feohr) Mohammed Rehaan and the ToadWriter contributors.

//! What holds of the tokenizer on every text.

use vstd::prelude::*;
use crate::chars::{is_blank, white_space, HEADING, NEWLINE};
use crate::glyph::{body_glyph, heading_glyph, heading_kind, GlyphKind, GlyphView};
use crate::lexer::{
    all_markers, class_of, lemma_marker_run_fits, lemma_run_and_line_fit, lemma_scan_body,
    lemma_scan_heading, lemma_scan_heading_cut, marker_run, no_newline, tokens_of, CharClass,
};
use crate::render::{markers, prefix_of, rendered, rendered_glyph};
use crate::text::{
    is_trimmed, lemma_len_until_fits, lemma_trim_end_is_prefix, lemma_trim_start_is_suffix,
    lemma_trimmed_after_whitespace, lemma_trimmed_before_whitespace, lemma_trimmed_fixpoint,
    lemma_trimmed_is_trimmed, line_len, trim_start, trimmed,
};

verus! {

/// The text of a title or a heading: trimmed, and within one line.
pub open spec fn is_heading_text(text: Seq<char>) -> bool {
    is_trimmed(text) && !text.contains(NEWLINE)
}

/// The glyphs that the tokenizer gives: titles and headings of a level of at least
/// one, whose text is trimmed and within one line, and plain text of one character
/// that is neither a marker nor whitespace within a line. It gives no section.
pub open spec fn well_formed(glyph: GlyphView) -> bool {
    match glyph.kind {
        GlyphKind::Title => is_heading_text(glyph.content),
        GlyphKind::Heading(level) => level >= 1 && is_heading_text(glyph.content),
        GlyphKind::Section => false,
        GlyphKind::Body => {
            &&& glyph.content.len() == 1
            &&& (class_of(glyph.content[0]) == CharClass::Newline || class_of(glyph.content[0])
                == CharClass::Other)
        },
    }
}

/// Every glyph of `glyphs` is one that the tokenizer gives.
pub open spec fn all_well_formed(glyphs: Seq<GlyphView>) -> bool {
    forall|i: int| 0 <= i < glyphs.len() ==> well_formed(#[trigger] glyphs[i])
}

/// The characters that become plain text, as a test on one character.
pub open spec fn kept() -> spec_fn(char) -> bool {
    |c: char| !is_blank(c)
}

/// The glyph of plain text of a character, as a function.
pub open spec fn as_body() -> spec_fn(char) -> GlyphView {
    |c: char| body_glyph(c)
}

/// The text `s` as plain text alone: one glyph for each character that is not
/// whitespace within a line, in the order of the text.
pub open spec fn plain_text(s: Seq<char>) -> Seq<GlyphView> {
    s.filter(kept()).map_values(as_body())
}

/// No character of the first line of a text is a line feed.
pub proof fn lemma_line_has_no_newline(s: Seq<char>)
    ensures
        !s.take(line_len(s) as int).contains(NEWLINE),
{
    lemma_len_until_fits(s, NEWLINE);
}

/// The glyph of a line behind at least one marker is well formed, if the line
/// holds no line feed.
pub proof fn lemma_heading_well_formed(level: nat, line: Seq<char>)
    requires
        level >= 1,
        !line.contains(NEWLINE),
    ensures
        well_formed(heading_glyph(level, line)),
{
    lemma_trimmed_is_trimmed(line);
}

/// The text of a title or a heading is the same whether the line feed that ends
/// its line is taken with the line or left out.
pub proof fn lemma_heading_with_line_feed(level: nat, line: Seq<char>)
    ensures
        heading_glyph(level, line.push(NEWLINE)) == heading_glyph(level, line),
{
    lemma_trimmed_before_whitespace(line, NEWLINE);
}

/// A text without a marker is read as plain text: one glyph for each line feed and
/// for each character that is not whitespace, in the order of the text, and none
/// for the whitespace within the lines.
pub proof fn lemma_tokens_without_markers(s: Seq<char>)
    requires
        !s.contains(HEADING),
    ensures
        tokens_of(s) == plain_text(s),
    decreases s.len(),
{
    if s.len() == 0 {
        assert(s.filter(kept()) =~= Seq::<char>::empty()) by {
            reveal(Seq::filter);
        }
        assert(plain_text(s) =~= Seq::<GlyphView>::empty());
    } else {
        let rest = s.skip(1);
        assert(s[0] != HEADING);
        assert forall|k: int| 0 <= k < rest.len() implies rest[k] != HEADING by {
            assert(rest[k] == s[k + 1]);
        }
        lemma_tokens_without_markers(rest);
        rest.lemma_filter_prepend(s[0], kept());
        assert(seq![s[0]] + rest =~= s);
        if is_blank(s[0]) {
            assert(s.filter(kept()) =~= rest.filter(kept()));
        } else {
            assert(s.filter(kept()) =~= seq![s[0]] + rest.filter(kept()));
            assert(plain_text(s) =~= seq![body_glyph(s[0])] + plain_text(rest));
        }
    }
}

/// A run of markers at the very end of a text, with neither text nor line feed
/// behind it, gives no glyph: what stands before it, here a text without a
/// marker, is read as if the run were not there.
pub proof fn lemma_trailing_marker_run(s: Seq<char>, count: nat)
    requires
        !s.contains(HEADING),
    ensures
        tokens_of(s + markers(count)) == plain_text(s),
    decreases s.len(),
{
    let all = s + markers(count);
    if s.len() == 0 {
        assert(all =~= markers(count));
        lemma_tokens_without_markers(s);
        if count > 0 {
            assert(all.skip(0) =~= all);
            lemma_scan_heading_cut(all, 0, count as int);
            assert(all.subrange(count as int, all.len() as int) =~= Seq::<char>::empty());
        }
    } else {
        let rest = s.skip(1);
        assert(s[0] != HEADING);
        assert forall|k: int| 0 <= k < rest.len() implies rest[k] != HEADING by {
            assert(rest[k] == s[k + 1]);
        }
        lemma_trailing_marker_run(rest, count);
        lemma_tokens_without_markers(s);
        lemma_tokens_without_markers(rest);
        assert(all.skip(1) =~= rest + markers(count));
        assert(all[0] == s[0]);
    }
}

/// What the tokenizer makes of a text that starts with a marker and holds a line
/// feed behind its run of markers: `cut` is where that line feed stands.
proof fn lemma_first_heading(s: Seq<char>) -> (cut: int)
    requires
        s.len() > 0,
        s[0] == HEADING,
        line_len(s.skip(marker_run(s) as int)) < s.len() - marker_run(s),
    ensures
        cut == marker_run(s) + line_len(s.skip(marker_run(s) as int)),
        marker_run(s) <= cut < s.len(),
        s[cut] == NEWLINE,
        all_markers(s, 0, marker_run(s) as int),
        s[marker_run(s) as int] != HEADING,
        no_newline(s, marker_run(s) as int, cut),
        tokens_of(s) == seq![
            heading_glyph(marker_run(s), s.subrange(marker_run(s) as int, cut)),
        ] + tokens_of(s.skip(cut + 1)),
{
    let run = marker_run(s) as int;
    lemma_marker_run_fits(s);
    let rest = s.skip(run);
    lemma_len_until_fits(rest, NEWLINE);
    let cut = run + line_len(rest);
    assert(rest[line_len(rest) as int] == s[cut]);
    assert forall|k: int| run <= k < cut implies #[trigger] s[k] != NEWLINE by {
        assert(rest[k - run] == s[k]);
    }
    assert(s.skip(0) =~= s);
    lemma_scan_heading(s, 0, run, cut);
    cut
}

/// Lines are read each for itself: behind a text that ends with a line feed,
/// what follows is read as if it stood alone.
pub proof fn lemma_tokens_of_lines(head: Seq<char>, tail: Seq<char>)
    requires
        head.len() == 0 || head.last() == NEWLINE,
    ensures
        tokens_of(head + tail) == tokens_of(head) + tokens_of(tail),
    decreases head.len(),
{
    let s = head + tail;
    if head.len() == 0 {
        assert(s =~= tail);
        assert(tokens_of(head) + tokens_of(tail) =~= tokens_of(tail));
    } else if head[0] == HEADING {
        lemma_marker_run_fits(head);
        let run = marker_run(head) as int;
        let rest = head.skip(run);
        lemma_len_until_fits(rest, NEWLINE);
        assert(rest.last() == head.last());
        let cut = lemma_first_heading(head);
        assert forall|k: int| 0 <= k < run implies #[trigger] s[k] == HEADING by {
            assert(s[k] == head[k]);
        }
        assert forall|k: int| run <= k < cut implies #[trigger] s[k] != NEWLINE by {
            assert(s[k] == head[k]);
        }
        assert(s[run] == head[run]);
        assert(s[cut] == head[cut]);
        assert(s.skip(0) =~= s);
        lemma_scan_heading(s, 0, run, cut);
        assert(s.subrange(run, cut) =~= head.subrange(run, cut));
        let next = head.skip(cut + 1);
        assert(s.skip(cut + 1) =~= next + tail);
        if next.len() > 0 {
            assert(next.last() == head.last());
        }
        lemma_tokens_of_lines(next, tail);
        let glyph = heading_glyph(run as nat, head.subrange(run, cut));
        assert(seq![glyph] + (tokens_of(next) + tokens_of(tail)) =~= (seq![glyph] + tokens_of(next))
            + tokens_of(tail));
    } else {
        let next = head.skip(1);
        assert(s.skip(1) =~= next + tail);
        assert(s[0] == head[0]);
        if next.len() > 0 {
            assert(next.last() == head.last());
        }
        lemma_tokens_of_lines(next, tail);
        if !is_blank(head[0]) {
            let glyph = body_glyph(head[0]);
            assert(seq![glyph] + (tokens_of(next) + tokens_of(tail)) =~= (seq![glyph] + tokens_of(
                next,
            )) + tokens_of(tail));
        }
    }
}

/// What is not whitespace, as a test on one character.
pub open spec fn inked() -> spec_fn(char) -> bool {
    |c: char| !white_space(c)
}

/// The ink of a text: its characters that are not whitespace, in their order.
pub open spec fn ink_of(s: Seq<char>) -> Seq<char> {
    s.filter(inked())
}

/// Whitespace at the end of a text adds no ink.
pub proof fn lemma_ink_of_push_whitespace(s: Seq<char>, c: char)
    requires
        white_space(c),
    ensures
        ink_of(s.push(c)) == ink_of(s),
{
    reveal(Seq::filter);
    assert(s.push(c).drop_last() =~= s);
}

/// A text of whitespace alone has no ink.
pub proof fn lemma_ink_of_whitespace(s: Seq<char>)
    requires
        forall|i: int| 0 <= i < s.len() ==> white_space(#[trigger] s[i]),
    ensures
        ink_of(s) == Seq::<char>::empty(),
    decreases s.len(),
{
    if s.len() == 0 {
        reveal(Seq::filter);
    } else {
        let front = s.drop_last();
        assert forall|i: int| 0 <= i < front.len() implies white_space(#[trigger] front[i]) by {
            assert(front[i] == s[i]);
        }
        lemma_ink_of_whitespace(front);
        lemma_ink_of_push_whitespace(front, s.last());
        assert(front.push(s.last()) =~= s);
    }
}

/// Trimming takes no ink away.
pub proof fn lemma_ink_of_trimmed(s: Seq<char>)
    ensures
        ink_of(trimmed(s)) == ink_of(s),
{
    lemma_trim_start_is_suffix(s);
    let middle = trim_start(s);
    let from = s.len() - middle.len();
    lemma_trim_end_is_prefix(middle);
    let to = trimmed(s).len() as int;
    let before = s.take(from);
    let after = middle.skip(to);
    assert(s =~= before + middle);
    assert(middle =~= trimmed(s) + after);
    lemma_ink_of_whitespace(before);
    assert forall|i: int| 0 <= i < after.len() implies white_space(#[trigger] after[i]) by {
        assert(after[i] == middle[to + i]);
    }
    lemma_ink_of_whitespace(after);
    Seq::filter_distributes_over_add(before, middle, inked());
    Seq::filter_distributes_over_add(trimmed(s), after, inked());
    assert(ink_of(before) + ink_of(middle) =~= ink_of(middle));
    assert(ink_of(trimmed(s)) + ink_of(after) =~= ink_of(trimmed(s)));
}

/// The ink of a title or a heading that is written out: that of its markers and
/// that of its text.
proof fn lemma_ink_of_heading(run: nat, line: Seq<char>)
    requires
        run >= 1,
    ensures
        ink_of(rendered_glyph(heading_glyph(run, line))) == ink_of(markers(run)) + ink_of(line),
{
    let glyph = heading_glyph(run, line);
    assert(prefix_of(glyph.kind) == markers(run).push(' '));
    Seq::filter_distributes_over_add(markers(run).push(' '), glyph.content.push(NEWLINE), inked());
    lemma_ink_of_push_whitespace(markers(run), ' ');
    lemma_ink_of_push_whitespace(glyph.content, NEWLINE);
    lemma_ink_of_trimmed(line);
}

/// No ink is lost and none is made: the glyphs of a text, written out, hold the
/// ink of the text in its order. The one thing that can be missing is a run of
/// markers at the very end of the text, with nothing but whitespace behind it;
/// `dropped` is its length, and it is zero for a text that ends with a line feed.
pub proof fn lemma_ink_accounted(s: Seq<char>) -> (dropped: nat)
    ensures
        ink_of(s) == ink_of(rendered(tokens_of(s))) + ink_of(markers(dropped)),
        (s.len() == 0 || s.last() == NEWLINE) ==> dropped == 0,
    decreases s.len(),
{
    assert(markers(0) =~= Seq::<char>::empty());
    lemma_ink_of_whitespace(Seq::<char>::empty());
    if s.len() == 0 {
        assert(rendered(tokens_of(s)) =~= Seq::<char>::empty());
        assert(s =~= Seq::<char>::empty());
        assert(ink_of(s) + ink_of(s) =~= ink_of(s));
        0
    } else if s[0] == HEADING {
        let run = marker_run(s);
        lemma_marker_run_fits(s);
        let rest = s.skip(run as int);
        let len = line_len(rest);
        lemma_len_until_fits(rest, NEWLINE);
        let line = rest.take(len as int);
        let glyph = heading_glyph(run, line);
        assert(s.take(run as int) =~= markers(run));
        assert(s =~= markers(run) + rest);
        Seq::filter_distributes_over_add(markers(run), rest, inked());
        lemma_ink_of_heading(run, line);
        if len < rest.len() {
            let next = rest.skip(len as int + 1);
            let dropped = lemma_ink_accounted(next);
            let glyphs = tokens_of(next);
            assert((seq![glyph] + glyphs).skip(1) =~= glyphs);
            assert(rendered(tokens_of(s)) == rendered_glyph(glyph) + rendered(glyphs));
            Seq::filter_distributes_over_add(rendered_glyph(glyph), rendered(glyphs), inked());
            assert(rest =~= line.push(NEWLINE) + next);
            Seq::filter_distributes_over_add(line.push(NEWLINE), next, inked());
            lemma_ink_of_push_whitespace(line, NEWLINE);
            if next.len() > 0 {
                assert(next.last() == s.last());
            }
            assert(ink_of(markers(run)) + (ink_of(line) + (ink_of(rendered(glyphs)) + ink_of(
                markers(dropped),
            ))) =~= ((ink_of(markers(run)) + ink_of(line)) + ink_of(rendered(glyphs))) + ink_of(
                markers(dropped),
            ));
            dropped
        } else {
            assert(line =~= rest);
            if rest.len() > 0 {
                assert(rest.last() == s.last());
            } else {
                assert(s.last() == s[run - 1]);
            }
            if glyph.content.len() > 0 {
                assert(seq![glyph].skip(1) =~= Seq::<GlyphView>::empty());
                assert(rendered(Seq::<GlyphView>::empty()) =~= Seq::<char>::empty());
                assert(rendered(tokens_of(s)) =~= rendered_glyph(glyph));
                assert(ink_of(s) + Seq::<char>::empty() =~= ink_of(s));
                0
            } else {
                lemma_ink_of_trimmed(line);
                assert(glyph.content =~= Seq::<char>::empty());
                assert(rendered(tokens_of(s)) =~= Seq::<char>::empty());
                assert(ink_of(markers(run)) + Seq::<char>::empty() =~= Seq::<char>::empty()
                    + ink_of(markers(run)));
                run
            }
        }
    } else {
        let next = s.skip(1);
        let dropped = lemma_ink_accounted(next);
        let glyphs = tokens_of(next);
        assert(s =~= seq![s[0]] + next);
        next.lemma_filter_prepend(s[0], inked());
        if next.len() > 0 {
            assert(next.last() == s.last());
        }
        if !is_blank(s[0]) {
            let glyph = body_glyph(s[0]);
            assert((seq![glyph] + glyphs).skip(1) =~= glyphs);
            assert(rendered(tokens_of(s)) == seq![s[0]] + rendered(glyphs));
            rendered(glyphs).lemma_filter_prepend(s[0], inked());
            let first = if inked()(s[0]) {
                seq![s[0]]
            } else {
                Seq::<char>::empty()
            };
            assert(first + (ink_of(rendered(glyphs)) + ink_of(markers(dropped))) =~= (first
                + ink_of(rendered(glyphs))) + ink_of(markers(dropped)));
        } else {
            assert(Seq::<char>::empty() + ink_of(next) =~= ink_of(next));
        }
        dropped
    }
}

/// Every glyph that the tokenizer gives is well formed: no heading has level zero,
/// no glyph is a section, the text of a title or a heading is trimmed and holds no
/// line feed, and plain text comes one character at a time.
pub proof fn lemma_tokens_well_formed(s: Seq<char>)
    ensures
        all_well_formed(tokens_of(s)),
    decreases s.len(),
{
    if s.len() == 0 {
    } else if s[0] == HEADING {
        let level = marker_run(s);
        let rest = s.skip(level as int);
        let len = line_len(rest);
        let line = rest.take(len as int);
        lemma_run_and_line_fit(s);
        lemma_run_and_line_fit(rest);
        lemma_line_has_no_newline(rest);
        lemma_heading_well_formed(level, line);
        if len < rest.len() {
            let tail = tokens_of(rest.skip(len as int + 1));
            lemma_tokens_well_formed(rest.skip(len as int + 1));
            assert forall|i: int| 0 <= i < tokens_of(s).len() implies well_formed(
                #[trigger] tokens_of(s)[i],
            ) by {
                if i > 0 {
                    assert(tokens_of(s)[i] == tail[i - 1]);
                }
            }
        }
    } else {
        let tail = tokens_of(s.skip(1));
        lemma_tokens_well_formed(s.skip(1));
        if !is_blank(s[0]) {
            assert forall|i: int| 0 <= i < tokens_of(s).len() implies well_formed(
                #[trigger] tokens_of(s)[i],
            ) by {
                if i > 0 {
                    assert(tokens_of(s)[i] == tail[i - 1]);
                }
            }
        }
    }
}

/// A well-formed glyph that is written out in front of a text is read back as
/// that glyph, and the text behind it as if it stood alone.
pub proof fn lemma_tokens_of_rendered_glyph(glyph: GlyphView, tail: Seq<char>)
    requires
        well_formed(glyph),
    ensures
        tokens_of(rendered_glyph(glyph) + tail) == seq![glyph] + tokens_of(tail),
{
    let s = rendered_glyph(glyph) + tail;
    assert(s.skip(0) =~= s);
    match glyph.kind {
        GlyphKind::Body => {
            assert(glyph.content =~= seq![glyph.content[0]]);
            lemma_scan_body(s, 0);
            assert(s.skip(1) =~= tail);
        },
        GlyphKind::Section => {},
        _ => {
            let level: nat = match glyph.kind {
                GlyphKind::Heading(level) => level + 1,
                _ => 1,
            };
            assert(prefix_of(glyph.kind) == markers(level).push(' '));
            assert(heading_kind(level) == glyph.kind);
            let end = level + 1 + glyph.content.len();
            assert forall|k: int| level + 1 <= k < end implies #[trigger] s[k] != NEWLINE by {
                assert(s[k] == glyph.content[k - level - 1]);
            }
            lemma_scan_heading(s, 0, level as int, end as int);
            assert(s.subrange(level as int, end as int) =~= seq![' '] + glyph.content);
            lemma_trimmed_after_whitespace(' ', glyph.content);
            lemma_trimmed_fixpoint(glyph.content);
            assert(s.skip(end as int + 1) =~= tail);
        },
    }
}

/// Well-formed glyphs that are written out are read back as they were.
pub proof fn lemma_tokens_of_rendered(glyphs: Seq<GlyphView>)
    requires
        all_well_formed(glyphs),
    ensures
        tokens_of(rendered(glyphs)) == glyphs,
    decreases glyphs.len(),
{
    if glyphs.len() > 0 {
        let rest = glyphs.skip(1);
        assert forall|i: int| 0 <= i < rest.len() implies well_formed(#[trigger] rest[i]) by {
            assert(rest[i] == glyphs[i + 1]);
        }
        lemma_tokens_of_rendered(rest);
        lemma_tokens_of_rendered_glyph(glyphs[0], rendered(rest));
        assert(seq![glyphs[0]] + rest =~= glyphs);
    }
}

/// Reading a text, writing its glyphs out and reading that text again gives the
/// same glyphs.
pub proof fn lemma_tokenize_round_trip(s: Seq<char>)
    ensures
        tokens_of(rendered(tokens_of(s))) == tokens_of(s),
{
    lemma_tokens_well_formed(s);
    lemma_tokens_of_rendered(tokens_of(s));
}

} // verus!
