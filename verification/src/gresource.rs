// SPDX-License-Identifier: BSD-3-Clause
// Copyright 2023, (Feohr) Mohammed Rehaan and the ToadWriter contributors.

//! Resource files: the names of the application written into their placeholders.

use vstd::prelude::*;
use crate::config::Vars;
use crate::text::{chars_of, replace, replaced, string_of};

verus! {

/// `value` with the names `vars` in the place of their placeholders: first the
/// name of the application for `@APP_NAME@`, then in what that gives its id for
/// `@APP_ID@`, then the path for `@PATH_ID@`, then the base for `@BASE_ID@`.
pub open spec fn substituted(value: Seq<char>, vars: Vars) -> Seq<char> {
    replaced(
        replaced(
            replaced(replaced(value, "@APP_NAME@"@, vars.app_name@), "@APP_ID@"@, vars.app_id@),
            "@PATH_ID@"@,
            vars.path_id@,
        ),
        "@BASE_ID@"@,
        vars.base_id@,
    )
}

/// Writes the names `vars` into the placeholders of `value`.
pub fn parse_attribute_value(value: &str, vars: &Vars) -> (out: String)
    ensures
        out@ == substituted(value@, *vars),
{
    let chars = chars_of(value);
    let chars = replace(&chars, &chars_of("@APP_NAME@"), &chars_of(vars.app_name.as_str()));
    let chars = replace(&chars, &chars_of("@APP_ID@"), &chars_of(vars.app_id.as_str()));
    let chars = replace(&chars, &chars_of("@PATH_ID@"), &chars_of(vars.path_id.as_str()));
    let chars = replace(&chars, &chars_of("@BASE_ID@"), &chars_of(vars.base_id.as_str()));
    assert(chars@.subrange(0, chars@.len() as int) =~= chars@);
    string_of(&chars, 0, chars.len())
}

/// Writes the names `vars` into the placeholders of each of `values`, the values
/// of the attributes of one element.
pub fn parse_attributes(values: &Vec<String>, vars: &Vars) -> (out: Vec<String>)
    ensures
        out@.len() == values@.len(),
        forall|i: int|
            0 <= i < values@.len() ==> (#[trigger] out@[i])@ == substituted(values@[i]@, *vars),
{
    let mut out: Vec<String> = Vec::new();
    let mut at: usize = 0;
    while at < values.len()
        invariant
            at <= values.len(),
            out@.len() == at,
            forall|i: int| 0 <= i < at ==> (#[trigger] out@[i])@ == substituted(values@[i]@, *vars),
        decreases values.len() - at,
    {
        out.push(parse_attribute_value(values[at].as_str(), vars));
        at += 1;
    }
    out
}

/// What a resource file is read as, piece by piece, as far as the placeholders go.
#[derive(Debug, PartialEq, Eq)]
pub enum ResourceEvent {
    /// The start of an element, with the values of its attributes in their order.
    StartElement(Vec<String>),
    /// Text between elements.
    Characters(String),
    /// The end of the file.
    EndDocument,
    /// Anything else: it holds no placeholder.
    Other,
}

/// What is written for the piece `event` of a resource file: the piece with the
/// names `vars` in its placeholders, or nothing at the end of the file, where
/// writing stops.
pub fn as_writer_event(event: ResourceEvent, vars: &Vars) -> (out: Option<ResourceEvent>)
    ensures
        match event {
            ResourceEvent::StartElement(values) => {
                &&& out matches Some(ResourceEvent::StartElement(written))
                &&& written@.len() == values@.len()
                &&& forall|i: int|
                    0 <= i < values@.len() ==> (#[trigger] written@[i])@ == substituted(
                        values@[i]@,
                        *vars,
                    )
            },
            ResourceEvent::Characters(value) => {
                &&& out matches Some(ResourceEvent::Characters(written))
                &&& written@ == substituted(value@, *vars)
            },
            ResourceEvent::EndDocument => out is None,
            ResourceEvent::Other => out == Some(ResourceEvent::Other),
        },
{
    match event {
        ResourceEvent::StartElement(values) => Some(
            ResourceEvent::StartElement(parse_attributes(&values, vars)),
        ),
        ResourceEvent::Characters(value) => Some(
            ResourceEvent::Characters(parse_attribute_value(value.as_str(), vars)),
        ),
        ResourceEvent::EndDocument => None,
        ResourceEvent::Other => Some(ResourceEvent::Other),
    }
}

} // verus!
