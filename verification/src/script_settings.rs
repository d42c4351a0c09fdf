//! The settings with which lifecycle scripts run.

use crate::text;
use vstd::prelude::*;

verus! {

/// The settings with which lifecycle scripts run.
#[derive(Debug)]
pub struct ScriptSettings {
    pub node_options: Option<String>,
    pub script_shell: Option<String>,
    pub unsafe_perm: Option<bool>,
    pub shell_emulator: bool,
}

/// A text without the white space around it, unless nothing is left.
pub open spec fn not_blank(s: Seq<char>) -> Option<Seq<char>> {
    if text::trimmed(s).len() == 0 {
        None
    } else {
        Some(text::trimmed(s))
    }
}

/// An optional text without the white space around it, unless nothing is left.
pub open spec fn not_blank_opt(s: Option<String>) -> Option<Seq<char>> {
    match s {
        Some(t) => not_blank(t@),
        None => None,
    }
}

/// `value` without the white space around it, unless nothing is left.
pub fn non_empty_string(value: String) -> (r: Option<String>)
    ensures
        text::view_opt(r) == not_blank(value@),
{
    let trimmed = text::trim(value.as_str());
    if text::to_chars(trimmed.as_str()).len() == 0 {
        None
    } else {
        Some(trimmed)
    }
}

fn non_empty_option(value: Option<String>) -> (r: Option<String>)
    ensures
        text::view_opt(r) == not_blank_opt(value),
{
    match value {
        Some(v) => non_empty_string(v),
        None => None,
    }
}

/// The settings for lifecycle scripts: a blank option or shell is none.
pub fn configure_script_settings(
    node_options: Option<String>,
    script_shell: Option<String>,
    unsafe_perm: Option<bool>,
    shell_emulator: bool,
) -> (r: ScriptSettings)
    ensures
        text::view_opt(r.node_options) == not_blank_opt(node_options),
        text::view_opt(r.script_shell) == not_blank_opt(script_shell),
        r.unsafe_perm == unsafe_perm,
        r.shell_emulator == shell_emulator,
{
    ScriptSettings {
        node_options: non_empty_option(node_options),
        script_shell: non_empty_option(script_shell),
        unsafe_perm,
        shell_emulator,
    }
}

/// A setting counts without the white space around it, and one of white space alone is none.
pub proof fn blank_settings_are_none(a: Seq<char>, s: Seq<char>, b: Seq<char>)
    requires
        forall|i: int| 0 <= i < a.len() ==> text::is_space(#[trigger] a[i]),
        forall|i: int| 0 <= i < b.len() ==> text::is_space(#[trigger] b[i]),
        s.len() > 0 ==> !text::is_space(s[0]) && !text::is_space(s.last()),
    ensures
        s.len() > 0 ==> not_blank(a + s + b) == Some(s),
        s.len() == 0 ==> not_blank(a + s + b) is None,
        not_blank_opt(None) is None,
{
    text::trimming_takes_space_off(a, s, b);
}

} // verus!
