// SPDX-License-Identifier: BSD-3-Clause
// Copyright 2023, (Feohr) Mohammed Rehaan and the ToadWriter contributors.

use toadwriter::glyph::{Glyph, GlyphType};
use toadwriter::lexer::tokenize;
use toadwriter::render::render;

fn glyph(ty: GlyphType, text: &str) -> Glyph {
    Glyph::new(ty, text.to_string())
}

#[test]
fn render_each_kind() {
    assert_eq!(render(&vec![glyph(GlyphType::Body, "a")]), "a");
    assert_eq!(render(&vec![glyph(GlyphType::Body, "\n")]), "\n");
    assert_eq!(render(&vec![glyph(GlyphType::Title, "Top")]), "# Top\n");
    assert_eq!(render(&vec![glyph(GlyphType::Heading(1), "One")]), "## One\n");
    assert_eq!(render(&vec![glyph(GlyphType::Heading(3), "Three")]), "#### Three\n");
    assert_eq!(render(&vec![glyph(GlyphType::Heading(0), "None")]), "# None\n");
    assert_eq!(render(&vec![glyph(GlyphType::Section, "Part")]), "~ Part\n");
    assert_eq!(render(&vec![glyph(GlyphType::Title, "")]), "# \n");
    assert_eq!(render(&Vec::new()), "");
}

#[test]
fn render_in_order() {
    let glyphs = vec![
        glyph(GlyphType::Body, "a"),
        glyph(GlyphType::Body, "b"),
        glyph(GlyphType::Title, "Title"),
        glyph(GlyphType::Heading(2), "Head"),
        glyph(GlyphType::Body, "c"),
        glyph(GlyphType::Body, "\n"),
    ];
    assert_eq!(render(&glyphs), "ab# Title\n### Head\nc\n");
}

#[test]
fn written_glyphs_are_read_back() {
    let glyphs = vec![
        glyph(GlyphType::Title, "#not a heading"),
        glyph(GlyphType::Body, "x"),
        glyph(GlyphType::Heading(4), "a  b # c"),
        glyph(GlyphType::Heading(1), ""),
        glyph(GlyphType::Body, "\n"),
        glyph(GlyphType::Body, "~"),
        glyph(GlyphType::Title, "last"),
    ];
    assert_eq!(tokenize(&render(&glyphs)).unwrap(), glyphs);
}

#[test]
fn reading_twice_gives_the_same_glyphs() {
    for text in [
        "",
        "a bc",
        "#Title\n",
        "### Heading\n",
        "a \tb #Title\n ### Head\n c\n",
        "\n            # Title\n            # Heading 1\n            # Heading 2\n            ",
        "#\n##\n###",
        "# # #\n#a#\n",
        "text ## cut short",
        "x ##   ",
        "~ section\r\n# crlf \r\n",
    ] {
        let first = tokenize(text).unwrap();
        let second = tokenize(&render(&first)).unwrap();
        assert_eq!(first, second);
    }
}

#[test]
fn writing_normalizes_whitespace() {
    let first = tokenize("a \tb #Title\n ### Head\n c\n").unwrap();
    assert_eq!(render(&first), "ab# Title\n### Head\nc\n");
}

#[test]
fn lines_are_read_each_for_itself() {
    for (head, tail) in [
        ("", "#a\n"),
        ("\n", "b"),
        ("# Title\n", "## Head"),
        ("a b\n# T\n", "c #"),
        ("##\n", "#"),
        ("# one\n# two\n", "three\n"),
    ] {
        let mut expected = tokenize(head).unwrap();
        expected.extend(tokenize(tail).unwrap());
        assert_eq!(tokenize(&format!("{}{}", head, tail)).unwrap(), expected);
    }
}

#[test]
fn a_text_cut_inside_a_line_is_not_read_in_pieces() {
    let mut pieces = tokenize("# Ti").unwrap();
    pieces.extend(tokenize("tle\n").unwrap());
    assert_ne!(tokenize("# Title\n").unwrap(), pieces);
}

#[test]
fn no_ink_is_lost() {
    let ink = |text: &str| text.chars().filter(|c| !c.is_whitespace()).collect::<String>();
    for text in [
        "",
        "a bc\n",
        "a \tb #Title\n ### Head\n c\n",
        "#  spaced   out  \n",
        "# kept without a line feed",
        "##\n#\n",
    ] {
        assert_eq!(ink(&render(&tokenize(text).unwrap())), ink(text));
    }
    for (text, dropped) in [("#", "#"), ("ab ###  ", "###"), ("# t\n##\t", "##")] {
        let written = ink(&render(&tokenize(text).unwrap()));
        assert_eq!(format!("{}{}", written, dropped), ink(text));
    }
}
