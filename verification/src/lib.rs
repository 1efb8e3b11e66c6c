// SPDX-License-Identifier: BSD-3-Clause
// Copyright 2023, (Feohr) Mohammed Rehaan and the ToadWriter contributors.

//! The logic of the ToadWriter word processor: reading the markup of a document
//! into glyphs, counting words, paper sizes, and what the build checks and writes.

pub mod buffer;
pub mod chars;
pub mod config;
pub mod dimensions;
pub mod error;
pub mod glyph;
pub mod gresource;
pub mod laws;
pub mod lexer;
pub mod parse_spdx;
pub mod render;
pub mod text;
pub mod wordcount;
