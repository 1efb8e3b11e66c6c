// SPDX-License-Identifier: BSD-3-Clause
// Copyright 2023, (Feohr) Mohammed Rehaan and the ToadWriter contributors.

use toadwriter::error::TreeError;
use toadwriter::glyph::{Glyph, GlyphType};
use toadwriter::lexer::{classify, tokenize, CharClass, ScanState};

fn body(text: &str) -> Glyph {
    Glyph::new(GlyphType::Body, text.to_string())
}

fn title(text: &str) -> Glyph {
    Glyph::new(GlyphType::Title, text.to_string())
}

fn heading(level: usize, text: &str) -> Glyph {
    Glyph::new(GlyphType::Heading(level), text.to_string())
}

#[test]
fn test_title() {
    let test = r#"
            # Title
            # Heading 1
            # Heading 2
            "#;

    assert_eq!(
        vec![
            body("\n"),
            title("Title"),
            title("Heading 1"),
            title("Heading 2"),
        ],
        tokenize(test).unwrap(),
    );
}

#[test]
fn title_line() {
    assert_eq!(tokenize("#Title\n").unwrap(), vec![title("Title")]);
}

#[test]
fn heading_level_is_run_length_less_one() {
    assert_eq!(tokenize("### Heading\n").unwrap(), vec![heading(2, "Heading")]);
    assert_eq!(tokenize("## Heading\n").unwrap(), vec![heading(1, "Heading")]);
    assert_eq!(tokenize("###### x\n").unwrap(), vec![heading(5, "x")]);
}

#[test]
fn body_characters_one_by_one() {
    assert_eq!(tokenize("a bc").unwrap(), vec![body("a"), body("b"), body("c")]);
}

#[test]
fn mixed_body_and_structure() {
    assert_eq!(
        tokenize("a \tb #Title\n ### Head\n c\n").unwrap(),
        vec![
            body("a"),
            body("b"),
            title("Title"),
            heading(2, "Head"),
            body("c"),
            body("\n"),
        ],
    );
}

#[test]
fn empty_text_has_no_glyphs() {
    assert_eq!(tokenize("").unwrap(), Vec::<Glyph>::new());
    assert_eq!(tokenize("  \t ").unwrap(), Vec::<Glyph>::new());
}

#[test]
fn text_without_markers_is_all_body() {
    let text = "x \n\t y\u{a0}z\r\n";
    let expected: Vec<Glyph> = text
        .chars()
        .filter(|c| *c == '\n' || !c.is_whitespace())
        .map(|c| body(&c.to_string()))
        .collect();
    assert_eq!(expected.len(), 5);
    assert_eq!(tokenize(text).unwrap(), expected);
}

#[test]
fn marker_run_at_end_of_input_is_dropped() {
    assert_eq!(tokenize("#").unwrap(), Vec::<Glyph>::new());
    assert_eq!(tokenize("###").unwrap(), Vec::<Glyph>::new());
    assert_eq!(tokenize("ab ##").unwrap(), vec![body("a"), body("b")]);
    assert_eq!(tokenize("#Title\n##").unwrap(), vec![title("Title")]);
}

#[test]
fn heading_cut_short_with_blank_text_is_dropped() {
    assert_eq!(tokenize("##  \t ").unwrap(), Vec::<Glyph>::new());
    assert_eq!(tokenize("a#  ").unwrap(), vec![body("a")]);
}

#[test]
fn heading_cut_short_with_text_is_kept() {
    assert_eq!(tokenize("# Title").unwrap(), vec![title("Title")]);
    assert_eq!(tokenize("x\n## Last one  ").unwrap(), vec![
        body("x"),
        body("\n"),
        heading(1, "Last one"),
    ]);
}

#[test]
fn heading_line_without_text_has_empty_content() {
    assert_eq!(tokenize("#\n").unwrap(), vec![title("")]);
    assert_eq!(tokenize("##  \nb").unwrap(), vec![heading(1, ""), body("b")]);
}

#[test]
fn markers_inside_a_line_are_text() {
    assert_eq!(tokenize("# a # b\n").unwrap(), vec![title("a # b")]);
    assert_eq!(tokenize("## #\n").unwrap(), vec![heading(1, "#")]);
}

#[test]
fn line_feed_of_a_heading_belongs_to_it() {
    assert_eq!(tokenize("#a\n\n").unwrap(), vec![title("a"), body("\n")]);
}

#[test]
fn section_marker_is_plain_text() {
    assert_eq!(tokenize("~s").unwrap(), vec![body("~"), body("s")]);
}

#[test]
fn glyph_accessors() {
    let glyph = heading(3, "Deep");
    assert_eq!(glyph.kind(), GlyphType::Heading(3));
    assert_eq!(glyph.content(), "Deep");
    let glyph = Glyph::body('x');
    assert_eq!(glyph.kind(), GlyphType::Body);
    assert_eq!(glyph.content(), "x");
}

#[test]
fn heading_without_markers_is_null_heading() {
    let line: Vec<char> = " text ".chars().collect();
    assert_eq!(Glyph::heading(0, &line), Err(TreeError::NullHeading));
    assert_eq!(Glyph::heading(1, &line), Ok(title("text")));
    assert_eq!(Glyph::heading(2, &line), Ok(heading(1, "text")));
    assert_eq!(Glyph::heading(7, &Vec::new()), Ok(heading(6, "")));
}

#[test]
fn null_heading_message() {
    assert_eq!(TreeError::NullHeading.message(), "Invalid heading type without a heirarchy");
}

#[test]
fn character_classes() {
    assert_eq!(classify('#'), CharClass::Marker);
    assert_eq!(classify('\n'), CharClass::Newline);
    assert_eq!(classify(' '), CharClass::Blank);
    assert_eq!(classify('\t'), CharClass::Blank);
    assert_eq!(classify('\r'), CharClass::Blank);
    assert_eq!(classify('\u{3000}'), CharClass::Blank);
    assert_eq!(classify('a'), CharClass::Other);
    assert_eq!(classify('~'), CharClass::Other);
    assert_eq!(classify('越'), CharClass::Other);
}

#[test]
fn machine_between_glyphs() {
    let state = ScanState::ScanningForMarker;
    assert_eq!(state.step(Some(CharClass::Marker)), ScanState::InMarkerRun(1));
    assert_eq!(state.step(Some(CharClass::Newline)), ScanState::ScanningForMarker);
    assert_eq!(state.step(Some(CharClass::Blank)), ScanState::ScanningForMarker);
    assert_eq!(state.step(Some(CharClass::Other)), ScanState::ScanningForMarker);
    assert_eq!(state.step(None), ScanState::EndOfInput);
}

#[test]
fn machine_in_marker_run() {
    let state = ScanState::InMarkerRun(2);
    assert_eq!(state.step(Some(CharClass::Marker)), ScanState::InMarkerRun(3));
    assert_eq!(state.step(Some(CharClass::Newline)), ScanState::EmitToken(2));
    assert_eq!(state.step(Some(CharClass::Blank)), ScanState::ConsumingLineContent(2));
    assert_eq!(state.step(Some(CharClass::Other)), ScanState::ConsumingLineContent(2));
    assert_eq!(state.step(None), ScanState::EmitToken(2));
}

#[test]
fn count_of_markers_wraps_around() {
    let state = ScanState::InMarkerRun(usize::MAX);
    assert_eq!(state.step(Some(CharClass::Marker)), ScanState::InMarkerRun(0));
    assert_eq!(ScanState::InMarkerRun(0).step(Some(CharClass::Newline)), ScanState::EmitToken(0));
    assert_eq!(Glyph::heading(0, &Vec::new()), Err(TreeError::NullHeading));
}

#[test]
fn machine_in_line() {
    let state = ScanState::ConsumingLineContent(4);
    assert_eq!(state.step(Some(CharClass::Marker)), ScanState::ConsumingLineContent(4));
    assert_eq!(state.step(Some(CharClass::Blank)), ScanState::ConsumingLineContent(4));
    assert_eq!(state.step(Some(CharClass::Other)), ScanState::ConsumingLineContent(4));
    assert_eq!(state.step(Some(CharClass::Newline)), ScanState::EmitToken(4));
    assert_eq!(state.step(None), ScanState::EmitToken(4));
}

#[test]
fn machine_after_a_glyph_and_at_the_end() {
    let state = ScanState::EmitToken(1);
    assert_eq!(state.step(Some(CharClass::Marker)), ScanState::InMarkerRun(1));
    assert_eq!(state.step(Some(CharClass::Other)), ScanState::ScanningForMarker);
    assert_eq!(state.step(None), ScanState::EndOfInput);
    let state = ScanState::EndOfInput;
    assert_eq!(state.step(Some(CharClass::Marker)), ScanState::EndOfInput);
    assert_eq!(state.step(None), ScanState::EndOfInput);
}
