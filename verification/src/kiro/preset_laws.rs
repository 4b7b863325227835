//! What each field of hook input does to the event that is reported.
use vstd::prelude::*;

use crate::error::GitAiError;
use crate::json::JsonView;
use crate::kiro::hook_input::{bash_tool, missing_field, shell_command, text_or};
use crate::kiro::preset::{
    event_context, reports, transcript_of, HookEventView, ParsedHookEvent, PostBashCall,
    PostFileEdit, PreBashCall, PreFileEdit, PresetContext,
};
use crate::path::joined;

verus! {

/// The view of a context holds all its fields.
pub proof fn law_context_view(context: PresetContext)
    ensures
        context@.agent_id.tool == context.agent_id.tool@,
        context@.agent_id.id == context.agent_id.id@,
        context@.agent_id.model == context.agent_id.model@,
        context@.external_session_id == context.external_session_id@,
        context@.trace_id == context.trace_id@,
        context@.cwd == context.cwd@,
        context@.metadata == context.metadata@,
{
}

/// The view of an event holds its kind and all its fields.
pub proof fn law_event_view(
    pre_bash: PreBashCall,
    post_bash: PostBashCall,
    pre_edit: PreFileEdit,
    post_edit: PostFileEdit,
)
    ensures
        ParsedHookEvent::PreBashCall(pre_bash)@ == (HookEventView::PreBashCall {
            context: pre_bash.context@,
            tool_use_id: pre_bash.tool_use_id@,
            command: pre_bash.command.deep_view(),
        }),
        ParsedHookEvent::PostBashCall(post_bash)@ == (HookEventView::PostBashCall {
            context: post_bash.context@,
            tool_use_id: post_bash.tool_use_id@,
            command: post_bash.command.deep_view(),
            stream_source: post_bash.stream_source.deep_view(),
        }),
        ParsedHookEvent::PreFileEdit(pre_edit)@ == (HookEventView::PreFileEdit {
            context: pre_edit.context@,
            file_paths: pre_edit.file_paths.deep_view(),
            dirty_files: pre_edit.dirty_files.deep_view(),
            tool_use_id: pre_edit.tool_use_id.deep_view(),
        }),
        ParsedHookEvent::PostFileEdit(post_edit)@ == (HookEventView::PostFileEdit {
            context: post_edit.context@,
            file_paths: post_edit.file_paths.deep_view(),
            dirty_files: post_edit.dirty_files.deep_view(),
            stream_source: post_edit.stream_source.deep_view(),
            tool_use_id: post_edit.tool_use_id.deep_view(),
        }),
{
}

/// Where there is a text under `cwd` one event is reported, and otherwise the error that names the
/// field.
pub proof fn law_one_event_or_the_missing_field(
    res: Result<Vec<ParsedHookEvent>, GitAiError>,
    data: JsonView,
    trace_id: Seq<char>,
    extracted: Option<Seq<char>>,
)
    requires
        reports(res, data, trace_id, extracted),
    ensures
        data.text_field("cwd"@) is Some ==> (res matches Ok(events) && events@.len() == 1),
        data.text_field("cwd"@) is None ==> (res matches Err(GitAiError::PresetError(message))
            && message@ == "cwd not found in hook_input"@),
{
    reveal_strlit("cwd");
    reveal_strlit(" not found in hook_input");
    reveal_strlit("cwd not found in hook_input");
    assert(missing_field("cwd"@) =~= "cwd not found in hook_input"@);
}

/// The context of the event, whatever its kind: the tool is Kiro; the session is the text under
/// `session_id`, both for the agent and for the event, and unknown without one; the trace, the
/// directory and the transcript are those of the input; the model is what was extracted from a
/// transcript that the input names, and unknown otherwise.
pub proof fn law_context_of_the_event(
    res: Result<Vec<ParsedHookEvent>, GitAiError>,
    data: JsonView,
    trace_id: Seq<char>,
    extracted: Option<Seq<char>>,
)
    requires
        reports(res, data, trace_id, extracted),
        data.text_field("cwd"@) is Some,
    ensures
        ({
            let context = event_context(res->Ok_0@[0]@);
            &&& context.agent_id.tool == "kiro"@
            &&& data.text_field("session_id"@) matches Some(session) ==> context.agent_id.id
                == session && context.external_session_id == session
            &&& data.text_field("session_id"@) is None ==> context.agent_id.id == "unknown"@
                && context.external_session_id == "unknown"@
            &&& context.trace_id == trace_id
            &&& Some(context.cwd) == data.text_field("cwd"@)
            &&& context.metadata.dom() =~= set!["transcript_path"@]
            &&& data.text_field("transcript_path"@) matches Some(path)
                ==> context.metadata["transcript_path"@] == path
            &&& data.text_field("transcript_path"@) is None
                ==> context.metadata["transcript_path"@].len() == 0
            &&& match (data.text_field("transcript_path"@), extracted) {
                (Some(path), Some(model)) => context.agent_id.model == if path.len() > 0 {
                    model
                } else {
                    "unknown"@
                },
                _ => context.agent_id.model == "unknown"@,
            }
        }),
{
}

/// The kind of the event, and what it carries. `preToolUse` gives an event before the tool, any
/// other name, or none, one behind it. The tools `execute_bash` and `shell` give a shell event with
/// the command out of the input of the tool; any other tool, or none, gives a file event.
pub proof fn law_kind_of_the_event(
    res: Result<Vec<ParsedHookEvent>, GitAiError>,
    data: JsonView,
    trace_id: Seq<char>,
    extracted: Option<Seq<char>>,
)
    requires
        reports(res, data, trace_id, extracted),
        data.text_field("cwd"@) is Some,
    ensures
        ({
            let event = res->Ok_0@[0]@;
            let pre = data.text_field("hook_event_name"@) == Some("preToolUse"@);
            let bash = data.text_field("tool_name"@) == Some("execute_bash"@) || data.text_field(
                "tool_name"@,
            ) == Some("shell"@);
            let carried = match data.field("tool_input"@) {
                Some(input) => input.text_field("command"@),
                None => None,
            };
            match event {
                HookEventView::PreBashCall { command, .. } => pre && bash && command == carried,
                HookEventView::PostBashCall { command, stream_source, .. } => !pre && bash
                    && command == carried && stream_source is None,
                HookEventView::PreFileEdit { dirty_files, .. } => pre && !bash && dirty_files
                    is None,
                HookEventView::PostFileEdit { dirty_files, stream_source, .. } => !pre && !bash
                    && dirty_files is None && stream_source is None,
            }
        }),
{
}

/// The call that an event belongs to, whatever its kind: the text under `tool_use_id`, else the one
/// under `toolUseId`, else `kiro`.
pub proof fn law_call_of_the_event(
    res: Result<Vec<ParsedHookEvent>, GitAiError>,
    data: JsonView,
    trace_id: Seq<char>,
    extracted: Option<Seq<char>>,
)
    requires
        reports(res, data, trace_id, extracted),
        data.text_field("cwd"@) is Some,
    ensures
        ({
            let call = match res->Ok_0@[0]@ {
                HookEventView::PreBashCall { tool_use_id, .. } => Some(tool_use_id),
                HookEventView::PostBashCall { tool_use_id, .. } => Some(tool_use_id),
                HookEventView::PreFileEdit { tool_use_id, .. } => tool_use_id,
                HookEventView::PostFileEdit { tool_use_id, .. } => tool_use_id,
            };
            match (data.text_field("tool_use_id"@), data.text_field("toolUseId"@)) {
                (Some(id), _) => call == Some(id),
                (None, Some(id)) => call == Some(id),
                (None, None) => call == Some("kiro"@),
            }
        }),
{
}

/// The files of a file event: the one under `file_path` in the input of the tool, seen from the
/// directory of the event; none where there is no such text, or where the tool is `fs_read`, which
/// only reads. A path that starts with `/` is taken as it is.
pub proof fn law_files_of_the_event(
    res: Result<Vec<ParsedHookEvent>, GitAiError>,
    data: JsonView,
    trace_id: Seq<char>,
    extracted: Option<Seq<char>>,
    input: JsonView,
    path: Seq<char>,
    files: Seq<Seq<char>>,
)
    requires
        reports(res, data, trace_id, extracted),
        data.text_field("cwd"@) is Some,
        match res->Ok_0@[0]@ {
            HookEventView::PreFileEdit { file_paths, .. } => files == file_paths,
            HookEventView::PostFileEdit { file_paths, .. } => files == file_paths,
            _ => false,
        },
    ensures
        files.len() <= 1,
        data.field("tool_input"@) is None ==> files.len() == 0,
        data.text_field("tool_name"@) == Some("fs_read"@) ==> files.len() == 0,
        data.field("tool_input"@) == Some(input) && input.text_field("file_path"@) is None
            ==> files.len() == 0,
        data.field("tool_input"@) == Some(input) && input.text_field("file_path"@) == Some(path)
            && data.text_field("tool_name"@) != Some("fs_read"@) ==> files.len() == 1 && files[0]
            == if path.len() > 0 && path[0] == '/' {
            path
        } else {
            joined(data.text_field("cwd"@)->0, path)
        },
{
}

/// The transcript that an input names is the text under `transcript_path`, and the empty text
/// without one.
pub proof fn law_transcript_of_the_input(data: JsonView)
    ensures
        data.text_field("transcript_path"@) matches Some(path) ==> transcript_of(data) == path,
        data.text_field("transcript_path"@) is None ==> transcript_of(data).len() == 0,
{
}

/// What the fields of hook input hold, one by one: a text under a key, or else the default or the
/// message that it is missing; the command of a tool; and the tools that run shell commands.
pub proof fn law_hook_input_fields(
    data: JsonView,
    key: Seq<char>,
    default: Seq<char>,
    name: Seq<char>,
)
    ensures
        data.text_field(key) matches Some(text) ==> text_or(data, key, default) == text,
        data.text_field(key) is None ==> text_or(data, key, default) == default,
        missing_field(key) == key + " not found in hook_input"@,
        bash_tool(name) <==> name == "execute_bash"@ || name == "shell"@,
        data.field("tool_input"@) is None ==> shell_command(data) is None,
        data.field("tool_input"@) matches Some(input) ==> shell_command(data) == input.text_field(
            "command"@,
        ),
{
}

} // verus!
