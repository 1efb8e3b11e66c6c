// SPDX-License-Identifier: BSD-3-Clause
// Copyright 2023, (Feohr) Mohammed Rehaan and the ToadWriter contributors.

use toadwriter::buffer::{insert_text, TAB_SIZE};
use toadwriter::text::{
    chars_of, holds_text, piece_of, replace, same_text, stands_at, string_of, trim_bounds,
};

fn chars(text: &str) -> Vec<char> {
    text.chars().collect()
}

fn text(chars: &Vec<char>) -> String {
    chars.iter().collect()
}

#[test]
fn characters_of_a_string() {
    assert_eq!(chars_of(""), Vec::<char>::new());
    assert_eq!(chars_of("a"), vec!['a']);
    assert_eq!(chars_of("héllo 越\n"), vec!['h', 'é', 'l', 'l', 'o', ' ', '越', '\n']);
}

#[test]
fn pieces_and_strings() {
    let all = chars("0123456789");
    assert_eq!(piece_of(&all, 0, 10), all);
    assert_eq!(piece_of(&all, 3, 6), chars("345"));
    assert_eq!(piece_of(&all, 4, 4), chars(""));
    assert_eq!(string_of(&all, 0, 10), "0123456789");
    assert_eq!(string_of(&all, 7, 10), "789");
    assert_eq!(string_of(&all, 10, 10), "");
}

#[test]
fn trimming_within_bounds() {
    let all = chars("ab  cd \t ef");
    assert_eq!(trim_bounds(&all, 0, 11), (0, 11));
    assert_eq!(trim_bounds(&all, 2, 9), (4, 6));
    assert_eq!(trim_bounds(&all, 2, 4), (4, 4));
    assert_eq!(trim_bounds(&all, 6, 9), (9, 9));
    assert_eq!(trim_bounds(&all, 5, 5), (5, 5));
}

#[test]
fn trimming_agrees_with_str_trim() {
    for sample in ["", " ", "a", " a", "a ", "\t\n a b \r\n", "\u{a0}x\u{2003}", "\u{85}y\u{3000} z\u{1680}"] {
        let all = chars(sample);
        let (first, last) = trim_bounds(&all, 0, all.len());
        assert_eq!(string_of(&all, first, last), sample.trim());
    }
}

#[test]
fn same_texts() {
    assert!(same_text(&chars(""), &chars("")));
    assert!(same_text(&chars("abc"), &chars("abc")));
    assert!(!same_text(&chars("abc"), &chars("abd")));
    assert!(!same_text(&chars("abc"), &chars("ab")));
    assert!(!same_text(&chars(""), &chars("a")));
}

#[test]
fn pattern_at_a_place() {
    let all = chars("abcabc");
    assert!(stands_at(&all, 0, &chars("abc")));
    assert!(stands_at(&all, 3, &chars("abc")));
    assert!(!stands_at(&all, 1, &chars("abc")));
    assert!(!stands_at(&all, 4, &chars("abc")));
    assert!(stands_at(&all, 6, &chars("")));
    assert!(!stands_at(&all, 7, &chars("")));
    assert!(!stands_at(&all, usize::MAX, &chars("a")));
    assert!(stands_at(&all, 0, &chars("abcabc")));
    assert!(!stands_at(&all, 0, &chars("abcabca")));
}

#[test]
fn pattern_somewhere() {
    for (all, pattern) in [
        ("", ""),
        ("", "a"),
        ("a", ""),
        ("hello world", "o w"),
        ("hello world", "world"),
        ("hello world", "worlds"),
        ("hello world", "hello"),
        ("aaab", "aab"),
        ("abab", "bb"),
    ] {
        assert_eq!(holds_text(&chars(all), &chars(pattern)), all.contains(pattern));
    }
}

#[test]
fn replacing_agrees_with_str_replace() {
    for (all, pattern, with) in [
        ("", "a", "b"),
        ("a", "a", "b"),
        ("aaa", "a", "bb"),
        ("aaa", "aa", "b"),
        ("aaaa", "aa", "a"),
        ("abcabc", "bc", ""),
        ("abcabc", "abcabc", "x"),
        ("abcabc", "abcabcd", "x"),
        ("@A@@A@", "@A@", "@"),
        ("x@APP_ID@y", "@APP_ID@", "com.example"),
        ("ababa", "aba", "c"),
    ] {
        assert_eq!(text(&replace(&chars(all), &chars(pattern), &chars(with))), all.replace(pattern, with));
    }
}

#[test]
fn replacing_an_empty_pattern_changes_nothing() {
    assert_eq!(replace(&chars("abc"), &chars(""), &chars("x")), chars("abc"));
    assert_eq!(replace(&chars(""), &chars(""), &chars("x")), chars(""));
}

#[test]
fn tabs_become_spaces() {
    assert_eq!(TAB_SIZE, 4);
    assert_eq!(insert_text("\tfn", TAB_SIZE), "    fn");
    assert_eq!(insert_text("a\tb\t", 2), "a  b  ");
    assert_eq!(insert_text("no tabs", 8), "no tabs");
    assert_eq!(insert_text("\t\t", 0), "");
    assert_eq!(insert_text("", 4), "");
    assert_eq!(insert_text("x\ty", 3), "x\ty".replace("\x09", &"\x20".repeat(3)));
}
