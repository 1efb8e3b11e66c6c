// SPDX-License-Identifier: BSD-3-Clause
// Copyright 2023, (Feohr) Mohammed Rehaan and the ToadWriter contributors.

//! Writing glyphs back as text.

use vstd::prelude::*;
use vstd::string::StringExecFns;
use crate::chars::{HEADING, NEWLINE, SECTION};
use crate::glyph::{views, Glyph, GlyphKind, GlyphType, GlyphView};

verus! {

/// A run of `count` markers.
pub open spec fn markers(count: nat) -> Seq<char> {
    Seq::new(count, |i: int| HEADING)
}

/// What a glyph is written with before its text: the markers of a title or a
/// heading and a space, the marker of a section and a space, nothing for plain
/// text.
pub open spec fn prefix_of(kind: GlyphKind) -> Seq<char> {
    match kind {
        GlyphKind::Title => markers(1).push(' '),
        GlyphKind::Heading(level) => markers(level + 1).push(' '),
        GlyphKind::Section => seq![SECTION, ' '],
        GlyphKind::Body => Seq::empty(),
    }
}

/// The text of one glyph: plain text as it is; a title, a heading or a section
/// behind its markers and a space, on a line of its own.
pub open spec fn rendered_glyph(glyph: GlyphView) -> Seq<char> {
    match glyph.kind {
        GlyphKind::Body => glyph.content,
        _ => prefix_of(glyph.kind) + glyph.content.push(NEWLINE),
    }
}

/// The text of the glyphs `glyphs`, one after the other.
pub open spec fn rendered(glyphs: Seq<GlyphView>) -> Seq<char>
    decreases glyphs.len(),
{
    if glyphs.len() == 0 {
        Seq::empty()
    } else {
        rendered_glyph(glyphs[0]) + rendered(glyphs.skip(1))
    }
}

/// The text of glyphs with one more at their end is their text with the text of
/// that one at its end.
pub proof fn lemma_rendered_push(glyphs: Seq<GlyphView>, glyph: GlyphView)
    ensures
        rendered(glyphs.push(glyph)) == rendered(glyphs) + rendered_glyph(glyph),
    decreases glyphs.len(),
{
    if glyphs.len() == 0 {
        assert(glyphs.push(glyph).skip(1) =~= Seq::<GlyphView>::empty());
        assert(rendered(Seq::<GlyphView>::empty()) =~= Seq::<char>::empty());
        assert(glyphs.push(glyph)[0] == glyph);
        assert(rendered(glyphs.push(glyph)) =~= rendered_glyph(glyph));
        assert(rendered(glyphs) + rendered_glyph(glyph) =~= rendered_glyph(glyph));
    } else {
        assert(glyphs.push(glyph).skip(1) =~= glyphs.skip(1).push(glyph));
        lemma_rendered_push(glyphs.skip(1), glyph);
        assert(rendered_glyph(glyphs[0]) + (rendered(glyphs.skip(1)) + rendered_glyph(glyph))
            =~= rendered_glyph(glyphs[0]) + rendered(glyphs.skip(1)) + rendered_glyph(glyph));
    }
}

/// Writes `count` markers at the end of `text`.
fn push_markers(text: &mut String, count: usize)
    ensures
        final(text)@ == old(text)@ + markers(count as nat),
{
    let mut done: usize = 0;
    assert(text@ =~= old(text)@ + markers(0));
    while done < count
        invariant
            done <= count,
            text@ == old(text)@ + markers(done as nat),
        decreases count - done,
    {
        text.push(HEADING);
        done += 1;
        assert(text@ =~= old(text)@ + markers(done as nat));
    }
}

/// Writes the glyphs `glyphs` as text: plain text as it is, each title, heading
/// and section on a line of its own behind its markers and a space.
pub fn render(glyphs: &Vec<Glyph>) -> (text: String)
    ensures
        text@ == rendered(views(glyphs@)),
{
    let mut text = String::new();
    let mut at: usize = 0;
    assert(views(glyphs@).take(0) =~= Seq::<GlyphView>::empty());
    while at < glyphs.len()
        invariant
            at <= glyphs.len(),
            text@ == rendered(views(glyphs@).take(at as int)),
        decreases glyphs.len() - at,
    {
        let glyph = &glyphs[at];
        let ghost before = text@;
        let ghost view = glyph@;
        match glyph.kind() {
            GlyphType::Body => {
                text.append(glyph.content());
            },
            GlyphType::Title => {
                push_markers(&mut text, 1);
                text.push(' ');
                text.append(glyph.content());
                text.push(NEWLINE);
            },
            GlyphType::Heading(level) => {
                push_markers(&mut text, level);
                text.push(HEADING);
                text.push(' ');
                text.append(glyph.content());
                text.push(NEWLINE);
                assert(markers(level as nat).push(HEADING) =~= markers((level + 1) as nat));
            },
            GlyphType::Section => {
                text.push(SECTION);
                text.push(' ');
                text.append(glyph.content());
                text.push(NEWLINE);
            },
        }
        proof {
            assert(text@ =~= before + rendered_glyph(view));
            assert(views(glyphs@).take(at + 1) =~= views(glyphs@).take(at as int).push(view));
            lemma_rendered_push(views(glyphs@).take(at as int), view);
        }
        at += 1;
    }
    assert(views(glyphs@).take(glyphs.len() as int) =~= views(glyphs@));
    text
}

} // verus!
