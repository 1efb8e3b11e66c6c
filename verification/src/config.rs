// SPDX-License-Identifier: BSD-3-Clause
// Copyright 2023, (Feohr) Mohammed Rehaan and the ToadWriter contributors.

//! The names under which the application goes, and the source of the constants
//! that hold them.

use vstd::prelude::*;
use vstd::string::StringExecFns;

verus! {

/// The names under which the application goes.
#[derive(Debug, PartialEq, Eq)]
pub struct Vars {
    pub app_name: String,
    pub app_id: String,
    pub base_id: String,
    pub path_id: String,
}

/// The configuration of the application.
#[derive(Debug, PartialEq, Eq)]
pub struct Config {
    pub vars: Vars,
}

/// The source of one constant: the attribute that lets it stay unused, then the
/// constant `name` with the text `value`.
pub open spec fn constant_source(name: Seq<char>, value: Seq<char>) -> Seq<char> {
    "#[allow(unused)]\npub(crate) const "@ + name + ": &'static str = \""@ + value + "\";\n"@
}

/// The source of the four constants that hold the names `vars`.
pub open spec fn config_source(vars: Vars) -> Seq<char> {
    "\n            "@ + constant_source("APP_NAME"@, vars.app_name@) + constant_source(
        "APP_ID"@,
        vars.app_id@,
    ) + constant_source("BASE_ID"@, vars.base_id@) + constant_source("PATH_ID"@, vars.path_id@)
}

/// Writes the source of the constant `name` with the text `value` at the end of
/// `text`.
fn push_constant(text: &mut String, name: &str, value: &str)
    ensures
        final(text)@ == old(text)@ + constant_source(name@, value@),
{
    text.append("#[allow(unused)]\npub(crate) const ");
    text.append(name);
    text.append(": &'static str = \"");
    text.append(value);
    text.append("\";\n");
    assert(text@ =~= old(text)@ + constant_source(name@, value@));
}

/// Writes the source of the four constants that hold the names of `config`.
pub fn build_config(config: &Config) -> (source: String)
    ensures
        source@ == config_source(config.vars),
{
    let mut source = String::new();
    source.append("\n            ");
    push_constant(&mut source, "APP_NAME", config.vars.app_name.as_str());
    push_constant(&mut source, "APP_ID", config.vars.app_id.as_str());
    push_constant(&mut source, "BASE_ID", config.vars.base_id.as_str());
    push_constant(&mut source, "PATH_ID", config.vars.path_id.as_str());
    assert(source@ =~= config_source(config.vars));
    source
}

} // verus!
