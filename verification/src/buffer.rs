// SPDX-License-Identifier: BSD-3-Clause
// Copyright 2023, (Feohr) Mohammed Rehaan and the ToadWriter contributors.

//! The text buffer of a page: what is typed into it.

use vstd::prelude::*;
use crate::text::{chars_of, replace, replaced, string_of};

verus! {

/// The tab character.
pub const TAB: char = '\t';

/// The space character.
pub const SPACE: char = ' ';

/// The number of spaces that stand for a tab where nothing else is asked for.
pub const TAB_SIZE: usize = 4;

/// `count` spaces.
pub open spec fn spaces(count: nat) -> Seq<char> {
    Seq::new(count, |i: int| SPACE)
}

/// `text` with `tab_size` spaces in the place of each tab.
pub open spec fn tabs_expanded(text: Seq<char>, tab_size: nat) -> Seq<char> {
    replaced(text, seq![TAB], spaces(tab_size))
}

/// The text that goes into the buffer when `new_text` is typed: `new_text` with
/// `tab_size` spaces in the place of each tab.
pub fn insert_text(new_text: &str, tab_size: usize) -> (text: String)
    ensures
        text@ == tabs_expanded(new_text@, tab_size as nat),
{
    let mut tab: Vec<char> = Vec::new();
    tab.push(TAB);
    assert(tab@ =~= seq![TAB]);
    let mut with: Vec<char> = Vec::new();
    while with.len() < tab_size
        invariant
            with@.len() <= tab_size,
            with@ == spaces(with@.len()),
        decreases tab_size - with@.len(),
    {
        with.push(SPACE);
        assert(with@ =~= spaces(with@.len()));
    }
    let chars = replace(&chars_of(new_text), &tab, &with);
    assert(chars@.subrange(0, chars@.len() as int) =~= chars@);
    string_of(&chars, 0, chars.len())
}

} // verus!
