// SPDX-License-Identifier: BSD-3-Clause
// Copyright 2023, (Feohr) Mohammed Rehaan and the ToadWriter contributors.

use toadwriter::chars::{blank, separator};
use toadwriter::text::trim;
use toadwriter::wordcount::word_count;

#[test]
fn no_words() {
    assert_eq!(word_count(""), 0);
    assert_eq!(word_count("   "), 0);
    assert_eq!(word_count(" \n\t.,;!"), 0);
}

#[test]
fn words_between_whitespace() {
    assert_eq!(word_count("one two  three"), 3);
    assert_eq!(word_count("one"), 1);
    assert_eq!(word_count("  lead and trail \n"), 3);
}

#[test]
fn punctuation_separates_words() {
    assert_eq!(word_count("hello, world!"), 2);
    assert_eq!(word_count("a.b"), 2);
    assert_eq!(word_count("it's"), 2);
    assert_eq!(word_count("#Title\n## Head\n"), 2);
}

#[test]
fn punctuation_outside_ascii_is_part_of_a_word() {
    assert_eq!(word_count("¿qué?"), 1);
    assert_eq!(word_count("a—b"), 1);
    assert_eq!(word_count("«a» b"), 2);
}

#[test]
fn separators() {
    for c in ['!', '/', ':', '@', '[', '`', '{', '~', ' ', '\n', '\t', '\u{a0}'] {
        assert!(separator(c));
    }
    for c in ['0', '9', 'A', 'Z', 'a', 'z', '\u{7f}', 'é', '越'] {
        assert!(!separator(c));
    }
}

#[test]
fn blanks() {
    assert!(blank(' '));
    assert!(blank('\t'));
    assert!(blank('\u{a0}'));
    assert!(!blank('\n'));
    assert!(!blank('a'));
    assert!(!blank('#'));
}

#[test]
fn trimming() {
    let chars = |s: &str| s.chars().collect::<Vec<char>>();
    assert_eq!(trim(&chars("  a b \t\n")), "a b");
    assert_eq!(trim(&chars("a")), "a");
    assert_eq!(trim(&chars("")), "");
    assert_eq!(trim(&chars(" \n ")), "");
    assert_eq!(trim(&chars("\u{a0}x\u{3000}")), "x");
}

#[test]
fn words_of_texts_put_together() {
    for (head, tail, joined) in [
        ("", "", 0),
        ("one", "", 0),
        ("", "two", 0),
        ("one ", "two", 0),
        ("one", " two", 0),
        ("one", "two", 1),
        ("on", "e two", 1),
        ("one,", "two", 0),
        ("a b c", "d e f", 1),
        ("  ", "  ", 0),
    ] {
        assert_eq!(
            word_count(&format!("{}{}", head, tail)) + joined,
            word_count(head) + word_count(tail),
        );
    }
}
