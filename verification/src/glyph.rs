// SPDX-License-Identifier: BSD-3-Clause
// Copyright 2023, (Feohr) Mohammed Rehaan and the ToadWriter contributors.

//! Glyphs: the tokens that a document is read into.

use vstd::prelude::*;
use crate::error::TreeError;
use crate::text::{trim, trimmed};

verus! {

/// What a glyph stands for.
#[derive(Debug, Clone, Copy, PartialEq, Eq, Structural)]
pub enum GlyphType {
    /// The title of the document: a line behind one marker.
    Title,
    /// A section. The tokenizer gives none.
    Section,
    /// A heading and its level, which is one less than the number of its markers.
    Heading(usize),
    /// Plain text.
    Body,
}

/// The kind of a glyph as a mathematical value: a level is a natural number.
pub enum GlyphKind {
    Title,
    Section,
    Heading(nat),
    Body,
}

impl View for GlyphType {
    type V = GlyphKind;

    open spec fn view(&self) -> GlyphKind {
        match *self {
            GlyphType::Title => GlyphKind::Title,
            GlyphType::Section => GlyphKind::Section,
            GlyphType::Heading(level) => GlyphKind::Heading(level as nat),
            GlyphType::Body => GlyphKind::Body,
        }
    }
}

/// One token of a document: its kind and the text that belongs to it.
#[derive(Debug, PartialEq, Eq)]
pub struct Glyph {
    ty: GlyphType,
    content: String,
}

/// A glyph as a mathematical value.
pub struct GlyphView {
    pub kind: GlyphKind,
    pub content: Seq<char>,
}

impl View for Glyph {
    type V = GlyphView;

    closed spec fn view(&self) -> GlyphView {
        GlyphView { kind: self.ty@, content: self.content@ }
    }
}

/// The glyphs of `glyphs` as mathematical values, in the same order.
pub open spec fn views(glyphs: Seq<Glyph>) -> Seq<GlyphView> {
    glyphs.map_values(|g: Glyph| g@)
}

/// The kind of the line behind a run of `level` markers: one marker makes a title,
/// more make a heading one level below their number.
pub open spec fn heading_kind(level: nat) -> GlyphKind
    recommends
        level >= 1,
{
    if level == 1 {
        GlyphKind::Title
    } else {
        GlyphKind::Heading((level - 1) as nat)
    }
}

/// The glyph of the line `line` behind a run of `level` markers.
pub open spec fn heading_glyph(level: nat, line: Seq<char>) -> GlyphView {
    GlyphView { kind: heading_kind(level), content: trimmed(line) }
}

/// The glyph of the single character `c` of plain text.
pub open spec fn body_glyph(c: char) -> GlyphView {
    GlyphView { kind: GlyphKind::Body, content: seq![c] }
}

impl Glyph {
    /// A glyph of kind `ty` with the text `content`.
    pub fn new(ty: GlyphType, content: String) -> (glyph: Glyph)
        ensures
            glyph@ == (GlyphView { kind: ty@, content: content@ }),
    {
        Glyph { ty, content }
    }

    /// The kind of this glyph.
    pub fn kind(&self) -> (ty: GlyphType)
        ensures
            ty@ == self@.kind,
    {
        self.ty
    }

    /// The text of this glyph.
    pub fn content(&self) -> (content: &str)
        ensures
            content@ == self@.content,
    {
        self.content.as_str()
    }

    /// The glyph of the single character `c` of plain text.
    pub fn body(c: char) -> (glyph: Glyph)
        ensures
            glyph@ == body_glyph(c),
    {
        let mut content = String::new();
        content.push(c);
        assert(content@ =~= seq![c]);
        Glyph { ty: GlyphType::Body, content }
    }

    /// The glyph of a line behind a run of `level` markers: a title for one marker,
    /// a heading of level `level - 1` for more, with the text of `line` trimmed. No
    /// markers at all make no heading: that is `TreeError::NullHeading`.
    pub fn heading(level: usize, line: &Vec<char>) -> (outcome: Result<Glyph, TreeError>)
        ensures
            level == 0 ==> outcome == Err::<Glyph, TreeError>(TreeError::NullHeading),
            level > 0 ==> outcome is Ok && outcome->Ok_0@ == heading_glyph(level as nat, line@),
    {
        if level == 0 {
            return Err(TreeError::NullHeading);
        }
        let ty = if level == 1 {
            GlyphType::Title
        } else {
            GlyphType::Heading(level - 1)
        };
        Ok(Glyph { ty, content: trim(line) })
    }
}

} // verus!
