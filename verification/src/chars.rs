// SPDX-License-Identifier: BSD-3-Clause
// Copyright 2023, (Feohr) Mohammed Rehaan and the ToadWriter contributors.

//! Character classes that the segmentation rules are stated over.

use vstd::prelude::*;

verus! {

/// The character whose runs open a title or a heading.
pub const HEADING: char = '#';

/// The character that opens a section.
pub const SECTION: char = '~';

/// The character that ends a line.
pub const NEWLINE: char = '\n';

/// Whether Unicode gives `c` the property `White_Space`: the answer of
/// `char::is_whitespace`, which this crate does not spell out.
pub uninterp spec fn unicode_white_space(c: char) -> bool;

/// Whitespace: the space, the line feed, and whatever else has the Unicode
/// property `White_Space`.
pub open spec fn white_space(c: char) -> bool {
    c == ' ' || c == NEWLINE || unicode_white_space(c)
}

/// `char::is_whitespace` tells whether a character has the Unicode property
/// `White_Space`; its documentation shows the space and the line feed among those
/// that have it. Not proved.
pub assume_specification[ char::is_whitespace ](c: char) -> (b: bool)
    ensures
        b == unicode_white_space(c),
        b == white_space(c),
;

/// The ASCII punctuation characters: `!` to `/`, `:` to `@`, `[` to `` ` `` and
/// `{` to `~`.
pub open spec fn ascii_punctuation(c: char) -> bool {
    ||| 0x21 <= c as u32 <= 0x2F
    ||| 0x3A <= c as u32 <= 0x40
    ||| 0x5B <= c as u32 <= 0x60
    ||| 0x7B <= c as u32 <= 0x7E
}

/// `char::is_ascii_punctuation` is true of the four ASCII ranges that its
/// documentation lists, and of nothing else. Not proved.
pub assume_specification[ char::is_ascii_punctuation ](c: &char) -> (b: bool)
    ensures
        b == ascii_punctuation(*c),
;

/// Whitespace within a line: any whitespace but the line feed.
pub open spec fn is_blank(c: char) -> bool {
    white_space(c) && c != NEWLINE
}

/// Tells whether `c` is whitespace within a line.
pub fn blank(c: char) -> (b: bool)
    ensures
        b == is_blank(c),
{
    c != NEWLINE && c.is_whitespace()
}

/// What separates words: whitespace and ASCII punctuation.
pub open spec fn is_separator(c: char) -> bool {
    white_space(c) || ascii_punctuation(c)
}

/// Tells whether `c` separates words.
pub fn separator(c: char) -> (b: bool)
    ensures
        b == is_separator(c),
{
    c.is_whitespace() || c.is_ascii_punctuation()
}

} // verus!
