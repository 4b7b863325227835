use std::path::PathBuf;

use git_ai::error::GitAiError;
use git_ai::json::Json;
use git_ai::kiro::preset::{KiroPreset, ParsedHookEvent};
use serde_json::Value;

fn object(members: &[(&str, Value)]) -> Value {
    let mut map = serde_json::Map::new();
    for (key, value) in members {
        map.insert(key.to_string(), value.clone());
    }
    Value::Object(map)
}

fn make_kiro_hook_input(event: &str, tool: &str) -> String {
    object(&[
        ("hook_event_name", Value::from(event)),
        ("session_id", Value::from("sess-kiro-1")),
        ("cwd", Value::from("/workspace/project")),
        ("tool_name", Value::from(tool)),
        (
            "tool_input",
            object(&[("file_path", Value::from("/workspace/project/src/main.rs"))]),
        ),
    ])
    .to_string()
}

fn paths(texts: &[String]) -> Vec<PathBuf> {
    texts.iter().map(PathBuf::from).collect()
}

#[test]
fn test_kiro_pre_file_edit_fs_write() {
    let input = make_kiro_hook_input("preToolUse", "fs_write");
    let events = KiroPreset.parse(&input, "t_test123456789a", None).unwrap();
    assert_eq!(events.len(), 1);
    match &events[0] {
        ParsedHookEvent::PreFileEdit(e) => {
            assert_eq!(e.context.agent_id.tool, "kiro");
            assert_eq!(e.context.external_session_id, "sess-kiro-1");
            assert_eq!(e.context.trace_id, "t_test123456789a");
            assert_eq!(PathBuf::from(&e.context.cwd), PathBuf::from("/workspace/project"));
            assert_eq!(
                paths(&e.file_paths),
                vec![PathBuf::from("/workspace/project/src/main.rs")]
            );
        }
        _ => panic!("Expected PreFileEdit"),
    }
}

#[test]
fn test_kiro_post_file_edit_write_alias() {
    let input = make_kiro_hook_input("postToolUse", "write");
    let events = KiroPreset.parse(&input, "t_test123456789a", None).unwrap();
    assert_eq!(events.len(), 1);
    match &events[0] {
        ParsedHookEvent::PostFileEdit(e) => {
            assert_eq!(e.context.agent_id.tool, "kiro");
            assert_eq!(
                paths(&e.file_paths),
                vec![PathBuf::from("/workspace/project/src/main.rs")]
            );
            assert!(e.stream_source.is_none());
        }
        _ => panic!("Expected PostFileEdit"),
    }
}

#[test]
fn test_kiro_pre_bash_execute_bash() {
    let input = make_kiro_hook_input("preToolUse", "execute_bash");
    let events = KiroPreset.parse(&input, "t_test123456789a", None).unwrap();
    assert_eq!(events.len(), 1);
    match &events[0] {
        ParsedHookEvent::PreBashCall(e) => {
            assert_eq!(e.context.agent_id.tool, "kiro");
            assert_eq!(e.tool_use_id, "kiro");
        }
        _ => panic!("Expected PreBashCall"),
    }
}

#[test]
fn test_kiro_post_bash_shell_alias() {
    let input = make_kiro_hook_input("postToolUse", "shell");
    let events = KiroPreset.parse(&input, "t_test123456789a", None).unwrap();
    assert_eq!(events.len(), 1);
    match &events[0] {
        ParsedHookEvent::PostBashCall(e) => {
            assert_eq!(e.context.agent_id.tool, "kiro");
        }
        _ => panic!("Expected PostBashCall"),
    }
}

#[test]
fn test_kiro_read_tool_is_not_bash() {
    // fs_read must not classify as Bash; it produces a file-edit style event whose file list is
    // empty, which the checkpoint pipeline drops safely.
    let input = make_kiro_hook_input("postToolUse", "fs_read");
    let events = KiroPreset.parse(&input, "t_test123456789a", None).unwrap();
    assert_eq!(events.len(), 1);
    match &events[0] {
        ParsedHookEvent::PostFileEdit(e) => {
            assert_eq!(e.context.agent_id.tool, "kiro");
            assert!(e.file_paths.is_empty());
        }
        _ => panic!("Expected PostFileEdit"),
    }
}

#[test]
fn test_kiro_missing_session_id_falls_back() {
    let input = object(&[
        ("hook_event_name", Value::from("postToolUse")),
        ("cwd", Value::from("/workspace/project")),
        ("tool_name", Value::from("fs_write")),
        (
            "tool_input",
            object(&[("file_path", Value::from("/workspace/project/src/main.rs"))]),
        ),
    ])
    .to_string();
    let events = KiroPreset.parse(&input, "t_test123456789a", None).unwrap();
    match &events[0] {
        ParsedHookEvent::PostFileEdit(e) => {
            assert_eq!(e.context.external_session_id, "unknown");
        }
        _ => panic!("Expected PostFileEdit"),
    }
}

#[test]
fn test_kiro_missing_cwd_is_error() {
    let input = object(&[
        ("hook_event_name", Value::from("postToolUse")),
        ("session_id", Value::from("s1")),
        ("tool_name", Value::from("fs_write")),
        ("tool_input", object(&[("file_path", Value::from("src/main.rs"))])),
    ])
    .to_string();
    assert!(KiroPreset.parse(&input, "t_test123456789a", None).is_err());
}

#[test]
fn missing_cwd_is_named_in_the_error() {
    match KiroPreset.parse("{\"session_id\": \"s1\"}", "t", None) {
        Err(GitAiError::PresetError(message)) => assert_eq!(message, "cwd not found in hook_input"),
        _ => panic!("expected a preset error"),
    }
}

#[test]
fn cwd_that_is_no_text_is_missing() {
    assert!(KiroPreset.parse("{\"cwd\": 5}", "t", None).is_err());
}

#[test]
fn invalid_json_brings_the_message_of_the_parser() {
    match KiroPreset.parse("{", "t", None) {
        Err(GitAiError::PresetError(message)) => assert_eq!(
            message,
            "Invalid JSON in hook_input: EOF while parsing an object at line 1 column 1"
        ),
        _ => panic!("expected a preset error"),
    }
}

#[test]
fn input_with_nothing_but_cwd_is_a_file_event() {
    let events = KiroPreset.parse("{\"cwd\": \"/w\"}", "t", None).unwrap();
    assert_eq!(events.len(), 1);
    match &events[0] {
        ParsedHookEvent::PostFileEdit(e) => {
            assert_eq!(e.context.cwd, "/w");
            assert_eq!(e.context.agent_id.id, "unknown");
            assert_eq!(e.context.agent_id.model, "unknown");
            assert_eq!(e.context.metadata.get("transcript_path").unwrap(), "");
            assert_eq!(e.tool_use_id.as_deref(), Some("kiro"));
            assert!(e.file_paths.is_empty());
            assert!(e.dirty_files.is_none());
        }
        _ => panic!("expected PostFileEdit"),
    }
}

#[test]
fn shell_event_carries_the_command_and_the_call() {
    let input = "{\"cwd\": \"/w\", \"hook_event_name\": \"preToolUse\", \"tool_name\": \"shell\", \
                 \"toolUseId\": \"call-2\", \"tool_input\": {\"command\": \"ls -l\"}}";
    let events = KiroPreset.parse(input, "t", None).unwrap();
    match &events[0] {
        ParsedHookEvent::PreBashCall(e) => {
            assert_eq!(e.command.as_deref(), Some("ls -l"));
            assert_eq!(e.tool_use_id, "call-2");
        }
        _ => panic!("expected PreBashCall"),
    }
    let both = "{\"cwd\": \"/w\", \"tool_name\": \"shell\", \"tool_use_id\": \"call-1\", \
                \"toolUseId\": \"call-2\"}";
    match &KiroPreset.parse(both, "t", None).unwrap()[0] {
        ParsedHookEvent::PostBashCall(e) => {
            assert_eq!(e.tool_use_id, "call-1");
            assert!(e.command.is_none());
        }
        _ => panic!("expected PostBashCall"),
    }
}

#[test]
fn relative_file_is_seen_from_cwd() {
    let input = "{\"cwd\": \"/w\", \"tool_input\": {\"file_path\": \"src/main.rs\"}}";
    match &KiroPreset.parse(input, "t", None).unwrap()[0] {
        ParsedHookEvent::PostFileEdit(e) => assert_eq!(e.file_paths, vec!["/w/src/main.rs"]),
        _ => panic!("expected PostFileEdit"),
    }
}

#[test]
fn model_comes_from_the_transcript_only() {
    let with = "{\"cwd\": \"/w\", \"transcript_path\": \"/t.jsonl\"}";
    let without = "{\"cwd\": \"/w\", \"transcript_path\": \"\"}";
    let model_of = |input: &str, extracted: Option<&str>| {
        let extracted = extracted.map(|m| m.to_string());
        match &KiroPreset.parse(input, "t", extracted).unwrap()[0] {
            ParsedHookEvent::PostFileEdit(e) => e.context.agent_id.model.clone(),
            _ => panic!("expected PostFileEdit"),
        }
    };
    assert_eq!(model_of(with, Some("m-1")), "m-1");
    assert_eq!(model_of(with, None), "unknown");
    assert_eq!(model_of(without, Some("m-1")), "unknown");
    assert_eq!(KiroPreset.transcript_path(with).as_deref(), Some("/t.jsonl"));
    assert!(KiroPreset.transcript_path(without).is_none());
    assert!(KiroPreset.transcript_path("{\"transcript_path\": \"/t.jsonl\"}").is_none());
    assert!(KiroPreset.transcript_path("[").is_none());
}

#[test]
fn documents_can_be_given_directly() {
    let mut data = Json::empty_object();
    data.insert("cwd", Json::string("/w"));
    data.insert("hook_event_name", Json::string("preToolUse"));
    match &KiroPreset.parse_data(&data, "t", None).unwrap()[0] {
        ParsedHookEvent::PreFileEdit(e) => assert_eq!(e.context.trace_id, "t"),
        _ => panic!("expected PreFileEdit"),
    }
}

#[test]
fn reading_tool_edits_no_file() {
    for event in ["preToolUse", "postToolUse"] {
        let input = make_kiro_hook_input(event, "fs_read");
        match &KiroPreset.parse(&input, "t", None).unwrap()[0] {
            ParsedHookEvent::PreFileEdit(e) => assert!(e.file_paths.is_empty()),
            ParsedHookEvent::PostFileEdit(e) => assert!(e.file_paths.is_empty()),
            _ => panic!("expected a file event"),
        }
    }
    let input = make_kiro_hook_input("postToolUse", "some_tool");
    match &KiroPreset.parse(&input, "t", None).unwrap()[0] {
        ParsedHookEvent::PostFileEdit(e) => {
            assert_eq!(e.file_paths, vec!["/workspace/project/src/main.rs"])
        }
        _ => panic!("expected PostFileEdit"),
    }
}
