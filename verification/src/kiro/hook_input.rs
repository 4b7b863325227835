//! Reading the input that an agent hands to a hook.
use vstd::prelude::*;

use crate::error::GitAiError;
use crate::json::{Json, JsonView};
use crate::path::{join_path, joined};
use crate::text::same_text;

verus! {

/// The message about a field that has to be there and is not.
pub open spec fn missing_field(key: Seq<char>) -> Seq<char> {
    key + " not found in hook_input"@
}

/// The text under `key`, which has to be there.
pub fn required_str<'a>(data: &'a Json, key: &str) -> (res: Result<&'a str, GitAiError>)
    ensures
        match data@.text_field(key@) {
            Some(text) => res matches Ok(found) && found@ == text,
            None => res matches Err(GitAiError::PresetError(m)) && m@ == missing_field(key@),
        },
{
    match data.get_str(key) {
        Some(text) => Ok(text),
        None => Err(
            GitAiError::PresetError(key.to_string().concat(" not found in hook_input")),
        ),
    }
}

/// The text under `key`, or `default` where there is none.
pub open spec fn text_or(data: JsonView, key: Seq<char>, default: Seq<char>) -> Seq<char> {
    match data.text_field(key) {
        Some(text) => text,
        None => default,
    }
}

/// The text under `key`, or `default` where there is none.
pub fn str_or_default<'a>(data: &'a Json, key: &str, default: &'a str) -> (res: &'a str)
    ensures
        res@ == text_or(data@, key@, default@),
{
    match data.get_str(key) {
        Some(text) => text,
        None => default,
    }
}

/// The shell command that a tool is to run: the text `command` of its input.
pub open spec fn shell_command(data: JsonView) -> Option<Seq<char>> {
    match data.field("tool_input"@) {
        Some(input) => input.text_field("command"@),
        None => None,
    }
}

/// The shell command that a tool is to run.
pub fn bash_command_from_hook_input(data: &Json) -> (res: Option<String>)
    ensures
        res.deep_view() == shell_command(data@),
{
    match data.get("tool_input") {
        Some(input) => match input.get_str("command") {
            Some(command) => Some(command.to_string()),
            None => None,
        },
        None => None,
    }
}

/// The tool of the event only reads. It edits no file.
pub open spec fn only_reads(data: JsonView) -> bool {
    data.text_field("tool_name"@) == Some("fs_read"@)
}

/// The files that a tool edits, seen from `cwd`: the text `file_path` of its input, unless the tool
/// only reads.
pub open spec fn tool_files(data: JsonView, cwd: Seq<char>) -> Seq<Seq<char>> {
    match data.field("tool_input"@) {
        Some(input) => match input.text_field("file_path"@) {
            Some(path) => if only_reads(data) {
                Seq::empty()
            } else {
                seq![joined(cwd, path)]
            },
            None => Seq::empty(),
        },
        None => Seq::empty(),
    }
}

/// The files that a tool edits.
pub fn file_paths_from_tool_input(data: &Json, cwd: &str) -> (res: Vec<String>)
    ensures
        res.deep_view() == tool_files(data@, cwd@),
{
    let mut res: Vec<String> = Vec::new();
    let reads = match data.get_str("tool_name") {
        Some(name) => same_text(name, "fs_read"),
        None => false,
    };
    match data.get("tool_input") {
        Some(input) => match input.get_str("file_path") {
            Some(path) => {
                if !reads {
                    res.push(join_path(cwd, path));
                }
            },
            None => {},
        },
        None => {},
    }
    assert(res.deep_view() =~= tool_files(data@, cwd@));
    res
}

/// The tools of Kiro that run shell commands.
pub open spec fn bash_tool(name: Seq<char>) -> bool {
    name == "execute_bash"@ || name == "shell"@
}

/// Whether a tool of Kiro runs shell commands.
pub fn is_bash_tool(name: &str) -> (res: bool)
    ensures
        res == bash_tool(name@),
{
    same_text(name, "execute_bash") || same_text(name, "shell")
}

} // verus!
