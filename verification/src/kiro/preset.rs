//! The events that the Kiro CLI (2.x) hooks report.
//!
//! A hook gets its context as a JSON object. Its core fields are `hook_event_name`, `cwd` and
//! `session_id`; tool events add `tool_name` and `tool_input`. `transcript_path` is not part of the
//! documented payload, so nothing fails where it is missing: the model is then unknown.
use vstd::prelude::*;

use crate::error::GitAiError;
use crate::json::{Json, JsonView};
use crate::json_text::parse_outcome;
use crate::kiro::hook_input::{
    bash_command_from_hook_input, bash_tool, file_paths_from_tool_input, is_bash_tool,
    missing_field, only_reads, required_str, shell_command, str_or_default, text_or, tool_files,
};
use crate::string_map::StringMap;
use crate::text::same_text;

verus! {

/// An agent: the tool, its session, and the model that it uses.
#[derive(Debug)]
pub struct AgentId {
    pub tool: String,
    pub id: String,
    pub model: String,
}

pub struct AgentIdView {
    pub tool: Seq<char>,
    pub id: Seq<char>,
    pub model: Seq<char>,
}

/// Where an event comes from.
pub struct PresetContext {
    pub agent_id: AgentId,
    pub external_session_id: String,
    pub trace_id: String,
    pub cwd: String,
    pub metadata: StringMap<String>,
}

pub struct PresetContextView {
    pub agent_id: AgentIdView,
    pub external_session_id: Seq<char>,
    pub trace_id: Seq<char>,
    pub cwd: Seq<char>,
    pub metadata: Map<Seq<char>, Seq<char>>,
}

impl View for PresetContext {
    type V = PresetContextView;

    open spec fn view(&self) -> PresetContextView {
        PresetContextView {
            agent_id: AgentIdView {
                tool: self.agent_id.tool@,
                id: self.agent_id.id@,
                model: self.agent_id.model@,
            },
            external_session_id: self.external_session_id@,
            trace_id: self.trace_id@,
            cwd: self.cwd@,
            metadata: self.metadata@,
        }
    }
}

/// A shell command is about to run.
pub struct PreBashCall {
    pub context: PresetContext,
    pub tool_use_id: String,
    pub command: Option<String>,
}

/// A shell command has run.
pub struct PostBashCall {
    pub context: PresetContext,
    pub tool_use_id: String,
    pub command: Option<String>,
    pub stream_source: Option<String>,
}

/// Files are about to be edited.
pub struct PreFileEdit {
    pub context: PresetContext,
    pub file_paths: Vec<String>,
    pub dirty_files: Option<StringMap<String>>,
    pub tool_use_id: Option<String>,
}

/// Files have been edited.
pub struct PostFileEdit {
    pub context: PresetContext,
    pub file_paths: Vec<String>,
    pub dirty_files: Option<StringMap<String>>,
    pub stream_source: Option<String>,
    pub tool_use_id: Option<String>,
}

/// What a hook reports.
pub enum ParsedHookEvent {
    PreBashCall(PreBashCall),
    PostBashCall(PostBashCall),
    PreFileEdit(PreFileEdit),
    PostFileEdit(PostFileEdit),
}

/// What an event says.
#[allow(inconsistent_fields)]
pub enum HookEventView {
    PreBashCall {
        context: PresetContextView,
        tool_use_id: Seq<char>,
        command: Option<Seq<char>>,
    },
    PostBashCall {
        context: PresetContextView,
        tool_use_id: Seq<char>,
        command: Option<Seq<char>>,
        stream_source: Option<Seq<char>>,
    },
    PreFileEdit {
        context: PresetContextView,
        file_paths: Seq<Seq<char>>,
        dirty_files: Option<Map<Seq<char>, Seq<char>>>,
        tool_use_id: Option<Seq<char>>,
    },
    PostFileEdit {
        context: PresetContextView,
        file_paths: Seq<Seq<char>>,
        dirty_files: Option<Map<Seq<char>, Seq<char>>>,
        stream_source: Option<Seq<char>>,
        tool_use_id: Option<Seq<char>>,
    },
}

impl View for ParsedHookEvent {
    type V = HookEventView;

    open spec fn view(&self) -> HookEventView {
        match self {
            ParsedHookEvent::PreBashCall(call) => HookEventView::PreBashCall {
                context: call.context@,
                tool_use_id: call.tool_use_id@,
                command: call.command.deep_view(),
            },
            ParsedHookEvent::PostBashCall(call) => HookEventView::PostBashCall {
                context: call.context@,
                tool_use_id: call.tool_use_id@,
                command: call.command.deep_view(),
                stream_source: call.stream_source.deep_view(),
            },
            ParsedHookEvent::PreFileEdit(edit) => HookEventView::PreFileEdit {
                context: edit.context@,
                file_paths: edit.file_paths.deep_view(),
                dirty_files: edit.dirty_files.deep_view(),
                tool_use_id: edit.tool_use_id.deep_view(),
            },
            ParsedHookEvent::PostFileEdit(edit) => HookEventView::PostFileEdit {
                context: edit.context@,
                file_paths: edit.file_paths.deep_view(),
                dirty_files: edit.dirty_files.deep_view(),
                stream_source: edit.stream_source.deep_view(),
                tool_use_id: edit.tool_use_id.deep_view(),
            },
        }
    }
}

/// The transcript that the input names; the empty text where it names none.
pub open spec fn transcript_of(data: JsonView) -> Seq<char> {
    text_or(data, "transcript_path"@, Seq::empty())
}

/// The model: `extracted` from the transcript, where the input names one.
pub open spec fn model_of(data: JsonView, extracted: Option<Seq<char>>) -> Seq<char> {
    if transcript_of(data).len() == 0 {
        "unknown"@
    } else {
        match extracted {
            Some(model) => model,
            None => "unknown"@,
        }
    }
}

/// The context of the event that the input reports.
pub open spec fn context_of(
    data: JsonView,
    cwd: Seq<char>,
    trace_id: Seq<char>,
    extracted: Option<Seq<char>>,
) -> PresetContextView {
    let session_id = text_or(data, "session_id"@, "unknown"@);
    PresetContextView {
        agent_id: AgentIdView { tool: "kiro"@, id: session_id, model: model_of(data, extracted) },
        external_session_id: session_id,
        trace_id,
        cwd,
        metadata: Map::empty().insert("transcript_path"@, transcript_of(data)),
    }
}

/// The identifier of the tool call, which comes under one of two names.
pub open spec fn tool_use_id_of(data: JsonView) -> Seq<char> {
    text_or(data, "tool_use_id"@, text_or(data, "toolUseId"@, "kiro"@))
}

/// The event comes before the tool runs.
pub open spec fn before_tool(data: JsonView) -> bool {
    data.text_field("hook_event_name"@) == Some("preToolUse"@)
}

/// The tool of the event runs shell commands.
pub open spec fn runs_bash(data: JsonView) -> bool {
    match data.text_field("tool_name"@) {
        Some(name) => bash_tool(name),
        None => false,
    }
}

/// The event that the input reports.
pub open spec fn event_of(
    data: JsonView,
    cwd: Seq<char>,
    trace_id: Seq<char>,
    extracted: Option<Seq<char>>,
) -> HookEventView {
    let context = context_of(data, cwd, trace_id, extracted);
    let tool_use_id = tool_use_id_of(data);
    match (before_tool(data), runs_bash(data)) {
        (true, true) => HookEventView::PreBashCall {
            context,
            tool_use_id,
            command: shell_command(data),
        },
        (true, false) => HookEventView::PreFileEdit {
            context,
            file_paths: tool_files(data, cwd),
            dirty_files: None,
            tool_use_id: Some(tool_use_id),
        },
        (false, true) => HookEventView::PostBashCall {
            context,
            tool_use_id,
            command: shell_command(data),
            stream_source: None,
        },
        (false, false) => HookEventView::PostFileEdit {
            context,
            file_paths: tool_files(data, cwd),
            dirty_files: None,
            stream_source: None,
            tool_use_id: Some(tool_use_id),
        },
    }
}

/// `res` is the one event that the input reports, or the error about the missing `cwd`.
pub open spec fn reports(
    res: Result<Vec<ParsedHookEvent>, GitAiError>,
    data: JsonView,
    trace_id: Seq<char>,
    extracted: Option<Seq<char>>,
) -> bool {
    match data.text_field("cwd"@) {
        Some(cwd) => res matches Ok(events) && events@.len() == 1 && events@[0]@ == event_of(
            data,
            cwd,
            trace_id,
            extracted,
        ),
        None => res matches Err(GitAiError::PresetError(m)) && m@ == missing_field("cwd"@),
    }
}

/// The empty text has no characters.
proof fn lemma_empty_text()
    ensures
        ""@ == Seq::<char>::empty(),
{
    reveal_strlit("");
    assert(""@ =~= Seq::<char>::empty());
}

/// The Kiro CLI hooks.
pub struct KiroPreset;

impl KiroPreset {
    /// The transcript from which the model of an event is to be extracted, where the input names
    /// one. Input that cannot be used names none.
    pub fn transcript_path(&self, hook_input: &str) -> (res: Option<String>)
        ensures
            match parse_outcome(hook_input@) {
                Ok(data) => if data.text_field("cwd"@) is Some && transcript_of(data).len() > 0 {
                    res matches Some(path) && path@ == transcript_of(data)
                } else {
                    res is None
                },
                Err(_) => res is None,
            },
    {
        match Json::parse(hook_input) {
            Ok(data) => {
                let path = str_or_default(&data, "transcript_path", "");
                proof {
                    lemma_empty_text();
                }
                if data.get_str("cwd").is_none() || path.is_empty() {
                    None
                } else {
                    Some(path.to_string())
                }
            },
            Err(_) => None,
        }
    }

    /// The event that hook input reports, given as a document. `extracted_model` is the model that
    /// its transcript names.
    pub fn parse_data(&self, data: &Json, trace_id: &str, extracted_model: Option<String>) -> (res:
        Result<Vec<ParsedHookEvent>, GitAiError>)
        ensures
            reports(res, data@, trace_id@, extracted_model.deep_view()),
    {
        let cwd = match required_str(data, "cwd") {
            Ok(cwd) => cwd,
            Err(error) => return Err(error),
        };
        let session_id = str_or_default(data, "session_id", "unknown");
        let tool_use_id = str_or_default(
            data,
            "tool_use_id",
            str_or_default(data, "toolUseId", "kiro"),
        );
        let is_bash = match data.get_str("tool_name") {
            Some(name) => is_bash_tool(name),
            None => false,
        };
        let transcript_path = str_or_default(data, "transcript_path", "");
        proof {
            lemma_empty_text();
        }
        let model: String = if transcript_path.is_empty() {
            "unknown".to_string()
        } else {
            match extracted_model {
                Some(model) => model,
                None => "unknown".to_string(),
            }
        };
        let mut metadata: StringMap<String> = StringMap::new();
        metadata.insert("transcript_path".to_string(), transcript_path.to_string());
        let context = PresetContext {
            agent_id: AgentId { tool: "kiro".to_string(), id: session_id.to_string(), model },
            external_session_id: session_id.to_string(),
            trace_id: trace_id.to_string(),
            cwd: cwd.to_string(),
            metadata,
        };
        let is_pre = match data.get_str("hook_event_name") {
            Some(name) => same_text(name, "preToolUse"),
            None => false,
        };
        let event = if is_pre && is_bash {
            ParsedHookEvent::PreBashCall(
                PreBashCall {
                    context,
                    tool_use_id: tool_use_id.to_string(),
                    command: bash_command_from_hook_input(data),
                },
            )
        } else if is_pre {
            ParsedHookEvent::PreFileEdit(
                PreFileEdit {
                    context,
                    file_paths: file_paths_from_tool_input(data, cwd),
                    dirty_files: None,
                    tool_use_id: Some(tool_use_id.to_string()),
                },
            )
        } else if is_bash {
            ParsedHookEvent::PostBashCall(
                PostBashCall {
                    context,
                    tool_use_id: tool_use_id.to_string(),
                    command: bash_command_from_hook_input(data),
                    stream_source: None,
                },
            )
        } else {
            ParsedHookEvent::PostFileEdit(
                PostFileEdit {
                    context,
                    file_paths: file_paths_from_tool_input(data, cwd),
                    dirty_files: None,
                    stream_source: None,
                    tool_use_id: Some(tool_use_id.to_string()),
                },
            )
        };
        let mut events: Vec<ParsedHookEvent> = Vec::new();
        events.push(event);
        Ok(events)
    }

    /// The event that hook input reports. `extracted_model` is the model that the transcript at
    /// `transcript_path` names.
    pub fn parse(&self, hook_input: &str, trace_id: &str, extracted_model: Option<String>) -> (res:
        Result<Vec<ParsedHookEvent>, GitAiError>)
        ensures
            match parse_outcome(hook_input@) {
                Ok(data) => reports(res, data, trace_id@, extracted_model.deep_view()),
                Err(message) => res matches Err(GitAiError::PresetError(m)) && m@
                    == "Invalid JSON in hook_input: "@ + message,
            },
    {
        match Json::parse(hook_input) {
            Ok(data) => self.parse_data(&data, trace_id, extracted_model),
            Err(message) => Err(
                GitAiError::PresetError(
                    "Invalid JSON in hook_input: ".to_string().concat(message.as_str()),
                ),
            ),
        }
    }
}

/// Of all the fields only `cwd` has to be there: whatever else the input lacks, it reports one
/// event.
pub proof fn law_only_cwd_is_required(
    res: Result<Vec<ParsedHookEvent>, GitAiError>,
    data: JsonView,
    trace_id: Seq<char>,
    extracted: Option<Seq<char>>,
)
    requires
        reports(res, data, trace_id, extracted),
    ensures
        res is Ok <==> data.text_field("cwd"@) is Some,
        res matches Ok(events) ==> events@.len() == 1,
{
}

/// Without a transcript the model is unknown, whatever was extracted; with one it is what was
/// extracted, or else unknown.
pub proof fn law_model_comes_from_the_transcript(data: JsonView, extracted: Option<Seq<char>>)
    ensures
        data.text_field("transcript_path"@) is None ==> model_of(data, extracted) == "unknown"@,
        extracted is None ==> model_of(data, extracted) == "unknown"@,
        data.text_field("transcript_path"@) matches Some(path) ==> path.len() > 0 && extracted
            is Some ==> model_of(data, extracted) == extracted->0,
{
}

/// The context of an event.
pub open spec fn event_context(event: HookEventView) -> PresetContextView {
    match event {
        HookEventView::PreBashCall { context, .. } => context,
        HookEventView::PostBashCall { context, .. } => context,
        HookEventView::PreFileEdit { context, .. } => context,
        HookEventView::PostFileEdit { context, .. } => context,
    }
}

/// A tool that runs shell commands gives a shell event, and any other tool, or none, a file event;
/// `preToolUse` gives an event before, and any other hook, or none, one behind. Either way the
/// context names Kiro, the session, the trace and the directory.
pub proof fn law_event_kinds(
    data: JsonView,
    cwd: Seq<char>,
    trace_id: Seq<char>,
    extracted: Option<Seq<char>>,
)
    ensures
        ({
            let event = event_of(data, cwd, trace_id, extracted);
            &&& runs_bash(data) <==> event is PreBashCall || event is PostBashCall
            &&& before_tool(data) <==> event is PreBashCall || event is PreFileEdit
            &&& event_context(event) == context_of(data, cwd, trace_id, extracted)
            &&& event_context(event).agent_id.tool == "kiro"@
            &&& event_context(event).agent_id.id == event_context(event).external_session_id
            &&& event_context(event).trace_id == trace_id
            &&& event_context(event).cwd == cwd
            &&& data.text_field("session_id"@) is None
                ==> event_context(event).external_session_id == "unknown"@
        }),
{
}

/// A tool that only reads runs no shell command and edits no file: its event is a file event
/// without files.
pub proof fn law_reading_edits_nothing(
    data: JsonView,
    cwd: Seq<char>,
    trace_id: Seq<char>,
    extracted: Option<Seq<char>>,
)
    requires
        only_reads(data),
    ensures
        match event_of(data, cwd, trace_id, extracted) {
            HookEventView::PreFileEdit { file_paths, .. } => file_paths.len() == 0,
            HookEventView::PostFileEdit { file_paths, .. } => file_paths.len() == 0,
            _ => false,
        },
{
    reveal_strlit("fs_read");
    reveal_strlit("execute_bash");
    reveal_strlit("shell");
    assert("fs_read"@.len() == 7);
    assert("execute_bash"@.len() == 12);
    assert("shell"@.len() == 5);
}

} // verus!
