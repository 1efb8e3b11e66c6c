// SPDX-License-Identifier: BSD-3-Clause
// Copyright 2023, (Feohr) Mohammed Rehaan and the ToadWriter contributors.

//! Errors of the document tree.

use vstd::prelude::*;

verus! {

/// What can go wrong while the markup of a document is read.
#[derive(Debug, Clone, Copy, PartialEq, Eq, Structural)]
pub enum TreeError {
    /// A heading or title whose run of markers has length zero.
    NullHeading,
}

impl TreeError {
    /// The message shown for this error.
    pub fn message(&self) -> (text: &'static str)
        ensures
            text@ == "Invalid heading type without a heirarchy"@,
    {
        "Invalid heading type without a heirarchy"
    }
}

} // verus!
