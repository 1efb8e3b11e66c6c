// SPDX-License-Identifier: BSD-3-Clause
// Copyright 2023, (Feohr) Mohammed Rehaan and the ToadWriter contributors.

//! The license header that every source file starts with, and the check of it.
//!
//! The first two lines of a file that are not empty have to be comments. The first
//! names the license, the second the holders of the copyright.

use vstd::prelude::*;
use vstd::string::StringExecFns;
use crate::chars::NEWLINE;
use crate::text::{
    chars_of, contains_text, holds_text, lemma_len_until, lemma_matches_at_skip, len_until,
    line_len, matches_at, piece_of, same_text, stands_at, string_of, trim_bounds, trimmed,
    without_leading,
};

verus! {

/// The carriage return, which may stand before the line feed that ends a line.
pub const CARRIAGE_RETURN: char = '\r';

/// The character behind which the first comment names the license.
pub const COLON: char = ':';

/// What is wrong with the header of a file.
#[derive(Debug, PartialEq, Eq)]
pub enum SPDXError {
    /// The first two lines that are not empty are not both comments with text.
    SPDXLineNotAdded,
    /// The first comment names another license: the comment.
    IncorrectLicenseType(String),
    /// The second comment does not name the holders of the copyright: the comment.
    IncorrectCopyrightInfo(String),
    /// The first comment does not start as a license line does: the comment.
    ImproperLicenseFormat(String),
}

/// What is wrong with the header of a file, as a mathematical value.
pub enum SPDXFault {
    SPDXLineNotAdded,
    IncorrectLicenseType(Seq<char>),
    IncorrectCopyrightInfo(Seq<char>),
    ImproperLicenseFormat(Seq<char>),
}

impl View for SPDXError {
    type V = SPDXFault;

    open spec fn view(&self) -> SPDXFault {
        match *self {
            SPDXError::SPDXLineNotAdded => SPDXFault::SPDXLineNotAdded,
            SPDXError::IncorrectLicenseType(line) => SPDXFault::IncorrectLicenseType(line@),
            SPDXError::IncorrectCopyrightInfo(line) => SPDXFault::IncorrectCopyrightInfo(line@),
            SPDXError::ImproperLicenseFormat(line) => SPDXFault::ImproperLicenseFormat(line@),
        }
    }
}

/// A file whose header is wrong, and what is wrong with it.
#[derive(Debug, PartialEq, Eq)]
pub struct ParseCommentError {
    file: String,
    error: SPDXError,
}

/// A file whose header is wrong and what is wrong with it, as a mathematical
/// value.
pub struct ParseCommentFault {
    pub file: Seq<char>,
    pub error: SPDXFault,
}

impl View for ParseCommentError {
    type V = ParseCommentFault;

    closed spec fn view(&self) -> ParseCommentFault {
        ParseCommentFault { file: self.file@, error: self.error@ }
    }
}

/// What `{:?}` writes for a string: the string between double quotes, with what
/// cannot stand there as it is written as an escape.
pub uninterp spec fn debug_text(text: Seq<char>) -> Seq<char>;

/// `format!` with `{:?}` writes a string as `str`'s `Debug` does. Not proved.
#[verifier::external_body]
fn quoted(text: &str) -> (out: String)
    ensures
        out@ == debug_text(text@),
{
    format!("{:?}", text)
}

impl SPDXFault {
    /// The message for this fault.
    pub open spec fn message(self) -> Seq<char> {
        match self {
            SPDXFault::SPDXLineNotAdded => {
                "The SPDX license line is not added to the top of your file."@
            },
            SPDXFault::IncorrectLicenseType(line) => {
                "The license type is not correct found "@ + debug_text(line) + "."@
            },
            SPDXFault::IncorrectCopyrightInfo(line) => {
                "Incorrect copyright information found "@ + debug_text(line) + "."@
            },
            SPDXFault::ImproperLicenseFormat(line) => {
                "Improper SPDX license line format. Expected `SPDX-License-Identifier: (licenes type)` but found "@
                    + debug_text(line)
            },
        }
    }
}

impl SPDXError {
    /// The message for this error.
    pub fn message(&self) -> (text: String)
        ensures
            text@ == self@.message(),
    {
        match self {
            SPDXError::SPDXLineNotAdded => {
                String::from_str("The SPDX license line is not added to the top of your file.")
            },
            SPDXError::IncorrectLicenseType(line) => {
                let mut text = String::from_str("The license type is not correct found ");
                text.append(quoted(line.as_str()).as_str());
                text.append(".");
                text
            },
            SPDXError::IncorrectCopyrightInfo(line) => {
                let mut text = String::from_str("Incorrect copyright information found ");
                text.append(quoted(line.as_str()).as_str());
                text.append(".");
                text
            },
            SPDXError::ImproperLicenseFormat(line) => {
                let mut text = String::from_str(
                    "Improper SPDX license line format. Expected `SPDX-License-Identifier: (licenes type)` but found ",
                );
                text.append(quoted(line.as_str()).as_str());
                text
            },
        }
    }
}

impl ParseCommentFault {
    /// The message for this fault: it names the file.
    pub open spec fn message(self) -> Seq<char> {
        "Error while parsing the SPDX comments in ("@ + self.file + ")."@
    }
}

impl ParseCommentError {
    /// The file `file` with the fault `error` in its header.
    pub fn new(file: String, error: SPDXError) -> (fault: Self)
        ensures
            fault@ == (ParseCommentFault { file: file@, error: error@ }),
    {
        Self { file, error }
    }

    /// The name of the file.
    pub fn file(&self) -> (file: &str)
        ensures
            file@ == self@.file,
    {
        self.file.as_str()
    }

    /// What is wrong with the header of the file.
    pub fn error(&self) -> (error: &SPDXError)
        ensures
            error@ == self@.error,
    {
        &self.error
    }

    /// The message for this error: it names the file.
    pub fn message(&self) -> (text: String)
        ensures
            text@ == self@.message(),
    {
        let mut text = String::from_str("Error while parsing the SPDX comments in (");
        text.append(self.file.as_str());
        text.append(").");
        text
    }
}

/// The first line of `s`: what stands before the first line feed, without a
/// carriage return that stands just before that line feed.
pub open spec fn first_line(s: Seq<char>) -> Seq<char> {
    let len = line_len(s);
    if 0 < len < s.len() && s[len - 1] == CARRIAGE_RETURN {
        s.take(len - 1)
    } else {
        s.take(len as int)
    }
}

/// What follows the first line of `s` and the line feed that ends it.
pub open spec fn after_first_line(s: Seq<char>) -> Seq<char> {
    if line_len(s) < s.len() {
        s.skip(line_len(s) as int + 1)
    } else {
        Seq::empty()
    }
}

/// The first `count` lines of `s` that are not empty, in their order; all of
/// them where there are fewer.
pub open spec fn first_lines(s: Seq<char>, count: nat) -> Seq<Seq<char>>
    decreases s.len(),
{
    if count == 0 || s.len() == 0 {
        Seq::empty()
    } else if first_line(s).len() > 0 {
        seq![first_line(s)] + first_lines(after_first_line(s), (count - 1) as nat)
    } else {
        first_lines(after_first_line(s), count)
    }
}

/// The texts of `lines`, in the same order.
pub open spec fn texts(lines: Seq<Vec<char>>) -> Seq<Seq<char>> {
    lines.map_values(|line: Vec<char>| line@)
}

/// Whether `line` is a comment: it starts with two slashes.
pub open spec fn is_comment(line: Seq<char>) -> bool {
    matches_at(line, 0, "//"@)
}

/// The text of the comment `line`: the line without the pairs of slashes it
/// starts with, trimmed.
pub open spec fn comment_of(line: Seq<char>) -> Seq<char> {
    trimmed(without_leading(line, "//"@))
}

/// The texts of the comments among `lines`, in their order.
pub open spec fn comments_of(lines: Seq<Seq<char>>) -> Seq<Seq<char>>
    decreases lines.len(),
{
    if lines.len() == 0 {
        Seq::empty()
    } else if is_comment(lines.last()) {
        comments_of(lines.drop_last()).push(comment_of(lines.last()))
    } else {
        comments_of(lines.drop_last())
    }
}

/// The header of the file `s`: the texts of the comments among its first two
/// lines that are not empty.
pub open spec fn header_of(s: Seq<char>) -> Seq<Seq<char>> {
    comments_of(first_lines(s, 2))
}

/// What stands in `line` behind its first colon, trimmed.
pub open spec fn after_colon(line: Seq<char>) -> Seq<char> {
    let at = len_until(line, COLON);
    if at < line.len() {
        trimmed(line.skip(at as int + 1))
    } else {
        Seq::empty()
    }
}

/// What is wrong with `line` as the comment that names the license, if anything:
/// it has to start as a license line does, and to name the license BSD-3-Clause
/// behind its first colon.
pub open spec fn license_fault(line: Seq<char>) -> Option<SPDXFault> {
    if !matches_at(line, 0, "SPDX-License-Identifier:"@) {
        Some(SPDXFault::ImproperLicenseFormat(line))
    } else if after_colon(line) != "BSD-3-Clause"@ {
        Some(SPDXFault::IncorrectLicenseType(line))
    } else {
        None
    }
}

/// Whether `line` holds each of the words that name the holders of the
/// copyright, wherever in it.
pub open spec fn names_holders(line: Seq<char>) -> bool {
    &&& contains_text(line, "(Feohr)"@)
    &&& contains_text(line, "Mohammed"@)
    &&& contains_text(line, "Rehaan"@)
    &&& contains_text(line, "and"@)
    &&& contains_text(line, "the"@)
    &&& contains_text(line, "ToadWriter"@)
    &&& contains_text(line, "contributors"@)
}

/// What is wrong with `line` as the comment on the copyright, if anything: it has
/// to start with the word Copyright and to name the holders.
pub open spec fn copyright_fault(line: Seq<char>) -> Option<SPDXFault> {
    if !matches_at(line, 0, "Copyright"@) || !names_holders(line) {
        Some(SPDXFault::IncorrectCopyrightInfo(line))
    } else {
        None
    }
}

/// Whether the header `lines` holds its two comments, each with text.
pub open spec fn header_complete(lines: Seq<Seq<char>>) -> bool {
    lines.len() >= 2 && lines[0].len() > 0 && lines[1].len() > 0
}

/// What is wrong with the header of the file `s`, if anything.
pub open spec fn header_fault(s: Seq<char>) -> Option<SPDXFault> {
    let header = header_of(s);
    if !header_complete(header) {
        Some(SPDXFault::SPDXLineNotAdded)
    } else if license_fault(header[0]) is Some {
        license_fault(header[0])
    } else {
        copyright_fault(header[1])
    }
}

/// The outcome of a check of the file `name` in which `fault` was found, if
/// anything was.
pub open spec fn reports(
    outcome: Result<(), ParseCommentError>,
    name: Seq<char>,
    fault: Option<SPDXFault>,
) -> bool {
    match fault {
        None => outcome is Ok,
        Some(error) => outcome is Err && outcome->Err_0@ == (ParseCommentFault {
            file: name,
            error,
        }),
    }
}

/// The first `count` lines of `chars` that are not empty.
pub fn leading_lines(chars: &Vec<char>, count: usize) -> (lines: Vec<Vec<char>>)
    ensures
        texts(lines@) == first_lines(chars@, count as nat),
{
    let mut lines: Vec<Vec<char>> = Vec::new();
    let mut at: usize = 0;
    proof {
        assert(chars@.skip(0) =~= chars@);
        assert(texts(lines@) =~= Seq::<Seq<char>>::empty());
        assert(Seq::<Seq<char>>::empty() + first_lines(chars@, count as nat) =~= first_lines(
            chars@,
            count as nat,
        ));
    }
    while at < chars.len() && lines.len() < count
        invariant
            at <= chars.len(),
            lines.len() <= count,
            first_lines(chars@, count as nat) == texts(lines@) + first_lines(
                chars@.skip(at as int),
                (count - lines.len()) as nat,
            ),
        decreases chars.len() - at,
    {
        let ghost rest = chars@.skip(at as int);
        let ghost before = texts(lines@);
        let mut end: usize = at;
        while end < chars.len() && chars[end] != NEWLINE
            invariant
                at <= end <= chars.len(),
                forall|k: int| at <= k < end ==> #[trigger] chars@[k] != NEWLINE,
            decreases chars.len() - end,
        {
            end += 1;
        }
        proof {
            assert forall|k: int| 0 <= k < end - at implies #[trigger] rest[k] != NEWLINE by {
                assert(chars@[at + k] != NEWLINE);
            }
            lemma_len_until(rest, NEWLINE, end - at);
        }
        let stop = if at < end && end < chars.len() && chars[end - 1] == CARRIAGE_RETURN {
            end - 1
        } else {
            end
        };
        let next = if end < chars.len() {
            end + 1
        } else {
            end
        };
        proof {
            assert(first_line(rest) =~= chars@.subrange(at as int, stop as int));
            assert(after_first_line(rest) =~= chars@.skip(next as int));
        }
        if at < stop {
            lines.push(piece_of(chars, at, stop));
            proof {
                let line = first_line(rest);
                let tail = first_lines(chars@.skip(next as int), (count - lines.len()) as nat);
                assert(texts(lines@) =~= before.push(line));
                assert(before + (seq![line] + tail) =~= before.push(line) + tail);
            }
        }
        at = next;
    }
    proof {
        let tail = first_lines(chars@.skip(at as int), (count - lines.len()) as nat);
        assert(tail =~= Seq::<Seq<char>>::empty());
        assert(texts(lines@) + tail =~= texts(lines@));
    }
    lines
}

/// The text of `line` if it is a comment.
pub fn comment_text(line: &Vec<char>) -> (text: Option<Vec<char>>)
    ensures
        is_comment(line@) <==> text is Some,
        text matches Some(found) ==> found@ == comment_of(line@),
{
    let mark = chars_of("//");
    if !stands_at(line, 0, &mark) {
        return None;
    }
    let mut at: usize = 0;
    assert(line@.skip(0) =~= line@);
    while mark.len() > 0 && stands_at(line, at, &mark)
        invariant
            at <= line.len(),
            mark@ == "//"@,
            without_leading(line@, mark@) == without_leading(line@.skip(at as int), mark@),
        decreases line.len() - at,
    {
        proof {
            lemma_matches_at_skip(line@, at as int, mark@);
            assert(line@.skip(at as int).skip(mark@.len() as int) =~= line@.skip(at + mark@.len()));
        }
        at += mark.len();
    }
    proof {
        lemma_matches_at_skip(line@, at as int, mark@);
        assert(line@.skip(at as int) =~= line@.subrange(at as int, line@.len() as int));
    }
    let (first, last) = trim_bounds(line, at, line.len());
    Some(piece_of(line, first, last))
}

/// The texts of the comments among `lines`.
pub fn comment_texts(lines: &Vec<Vec<char>>) -> (found: Vec<Vec<char>>)
    ensures
        texts(found@) == comments_of(texts(lines@)),
{
    let mut found: Vec<Vec<char>> = Vec::new();
    let mut at: usize = 0;
    proof {
        assert(texts(lines@).take(0) =~= Seq::<Seq<char>>::empty());
        assert(texts(found@) =~= Seq::<Seq<char>>::empty());
    }
    while at < lines.len()
        invariant
            at <= lines.len(),
            texts(found@) == comments_of(texts(lines@).take(at as int)),
        decreases lines.len() - at,
    {
        let ghost before = texts(found@);
        proof {
            let upto = texts(lines@).take(at + 1);
            assert(upto.drop_last() =~= texts(lines@).take(at as int));
            assert(upto.last() == lines@[at as int]@);
        }
        match comment_text(&lines[at]) {
            Some(text) => {
                found.push(text);
                assert(texts(found@) =~= before.push(comment_of(lines@[at as int]@)));
            },
            None => {},
        }
        at += 1;
    }
    assert(texts(lines@).take(lines.len() as int) =~= texts(lines@));
    found
}

/// The two comments of the header `lines`, where it holds two and each has text;
/// else the error that the license line was not added to the file `name`.
pub fn comment_line_empty_check<'a>(name: &str, lines: &'a Vec<Vec<char>>) -> (outcome: Result<
    (&'a Vec<char>, &'a Vec<char>),
    ParseCommentError,
>)
    ensures
        header_complete(texts(lines@)) ==> outcome is Ok && outcome->Ok_0.0@ == lines@[0]@
            && outcome->Ok_0.1@ == lines@[1]@,
        !header_complete(texts(lines@)) ==> outcome is Err && outcome->Err_0@ == (
        ParseCommentFault { file: name@, error: SPDXFault::SPDXLineNotAdded }),
{
    if lines.len() >= 2 {
        let first = &lines[0];
        let second = &lines[1];
        if first.len() > 0 && second.len() > 0 {
            return Ok((first, second));
        }
    }
    Err(ParseCommentError::new(String::from_str(name), SPDXError::SPDXLineNotAdded))
}

/// Checks `line`, the first comment of the file `name`: it has to start as a
/// license line does and to name the license BSD-3-Clause.
pub fn check_first_comment(name: &str, line: &Vec<char>) -> (outcome: Result<
    (),
    ParseCommentError,
>)
    ensures
        reports(outcome, name@, license_fault(line@)),
{
    assert(line@.subrange(0, line@.len() as int) =~= line@);
    if stands_at(line, 0, &chars_of("SPDX-License-Identifier:")) {
        let mut colon: usize = 0;
        while colon < line.len() && line[colon] != COLON
            invariant
                colon <= line.len(),
                forall|k: int| 0 <= k < colon ==> #[trigger] line@[k] != COLON,
            decreases line.len() - colon,
        {
            colon += 1;
        }
        proof {
            lemma_len_until(line@, COLON, colon as int);
        }
        let named = if colon < line.len() {
            assert(line@.skip(colon + 1) =~= line@.subrange(colon + 1, line@.len() as int));
            let (first, last) = trim_bounds(line, colon + 1, line.len());
            piece_of(line, first, last)
        } else {
            Vec::new()
        };
        assert(named@ =~= after_colon(line@));
        if !same_text(&named, &chars_of("BSD-3-Clause")) {
            return Err(
                ParseCommentError::new(
                    String::from_str(name),
                    SPDXError::IncorrectLicenseType(string_of(line, 0, line.len())),
                ),
            );
        }
        return Ok(());
    }
    Err(
        ParseCommentError::new(
            String::from_str(name),
            SPDXError::ImproperLicenseFormat(string_of(line, 0, line.len())),
        ),
    )
}

/// Checks `line`, the second comment of the file `name`: it has to start with the
/// word Copyright and to name the holders of the copyright.
pub fn check_second_comment(name: &str, line: &Vec<char>) -> (outcome: Result<
    (),
    ParseCommentError,
>)
    ensures
        reports(outcome, name@, copyright_fault(line@)),
{
    assert(line@.subrange(0, line@.len() as int) =~= line@);
    if stands_at(line, 0, &chars_of("Copyright")) && holds_text(line, &chars_of("(Feohr)"))
        && holds_text(line, &chars_of("Mohammed")) && holds_text(line, &chars_of("Rehaan"))
        && holds_text(line, &chars_of("and")) && holds_text(line, &chars_of("the")) && holds_text(
        line,
        &chars_of("ToadWriter"),
    ) && holds_text(line, &chars_of("contributors")) {
        return Ok(());
    }
    Err(
        ParseCommentError::new(
            String::from_str(name),
            SPDXError::IncorrectCopyrightInfo(string_of(line, 0, line.len())),
        ),
    )
}

/// Checks the header of the file `name`, whose text is `file`: its first two
/// lines that are not empty have to be comments, the first naming the license
/// BSD-3-Clause, the second the holders of the copyright.
pub fn parse_license_file(file: &str, name: &str) -> (outcome: Result<(), ParseCommentError>)
    ensures
        reports(outcome, name@, header_fault(file@)),
{
    let chars = chars_of(file);
    let lines = comment_texts(&leading_lines(&chars, 2));
    let (first, second) = match comment_line_empty_check(name, &lines) {
        Ok(pair) => pair,
        Err(error) => {
            return Err(error);
        },
    };
    match check_first_comment(name, first) {
        Ok(()) => {},
        Err(error) => {
            return Err(error);
        },
    }
    check_second_comment(name, second)
}

/// What is done with an entry of a directory whose files are checked.
#[derive(Debug, Clone, Copy, PartialEq, Eq, Structural)]
pub enum EntryAction {
    /// The entry is a source file: its header is checked.
    Check,
    /// The entry is a directory: its entries are gone through in turn.
    Descend,
    /// The entry is passed over.
    Skip,
}

/// Whether the directory `name` is left out of the check.
pub open spec fn is_ignored(name: Seq<char>) -> bool {
    ||| name == "target"@
    ||| name == ".."@
    ||| name == "/"@
    ||| name == "docs"@
    ||| name == "data"@
    ||| name == ".git"@
}

/// What is done with an entry: a file with the extension `rs` is checked, a
/// directory that is not left out is gone through, anything else is passed over.
pub open spec fn action_for(is_dir: bool, name: Seq<char>, extension: Seq<char>) -> EntryAction {
    if !is_dir && extension == "rs"@ {
        EntryAction::Check
    } else if is_dir && !is_ignored(name) {
        EntryAction::Descend
    } else {
        EntryAction::Skip
    }
}

/// Tells whether the directory `name` is left out of the check.
pub fn ignored(name: &str) -> (left_out: bool)
    ensures
        left_out == is_ignored(name@),
{
    let name = chars_of(name);
    same_text(&name, &chars_of("target")) || same_text(&name, &chars_of(".."))
        || same_text(&name, &chars_of("/")) || same_text(&name, &chars_of("docs")) || same_text(
        &name,
        &chars_of("data"),
    ) || same_text(&name, &chars_of(".git"))
}

/// Decides what is done with an entry of a directory: `is_dir` tells whether it
/// is a directory itself, `name` is its name and `extension` the extension of
/// its name.
pub fn entry_action(is_dir: bool, name: &str, extension: &str) -> (action: EntryAction)
    ensures
        action == action_for(is_dir, name@, extension@),
{
    if !is_dir && same_text(&chars_of(extension), &chars_of("rs")) {
        EntryAction::Check
    } else if is_dir && !ignored(name) {
        EntryAction::Descend
    } else {
        EntryAction::Skip
    }
}

} // verus!
