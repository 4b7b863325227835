use git_ai::error::GitAiError;
use git_ai::json::Json;
use git_ai::kiro::installer::{is_configured, is_git_ai_checkpoint_command, KiroInstaller};
use serde_json::Value;

const BINARY: &str = "/usr/local/bin/git-ai";
const COMMAND: &str = "/usr/local/bin/git-ai checkpoint kiro --hook-input stdin";

fn read_json(text: &str) -> Value {
    serde_json::from_str(text).unwrap()
}

#[test]
fn s1_fresh_install_creates_agent_with_hooks() {
    let written = KiroInstaller::install_hooks_at("", BINARY, None).unwrap();
    assert!(written.is_some(), "should produce a diff");

    let agent = read_json(&written.unwrap());
    assert_eq!(agent.get("name").and_then(|v| v.as_str()).unwrap(), "git-ai");
    for hook_type in &["preToolUse", "postToolUse"] {
        let entries = agent
            .get("hooks")
            .and_then(|h| h.get(*hook_type))
            .and_then(|v| v.as_array())
            .unwrap();
        assert_eq!(entries.len(), 1, "{hook_type}: expected 1 hook");
        assert_eq!(
            entries[0].get("command").and_then(|c| c.as_str()).unwrap(),
            "/usr/local/bin/git-ai checkpoint kiro --hook-input stdin"
        );
        assert_eq!(
            entries[0].get("matcher").and_then(|c| c.as_str()).unwrap(),
            "*"
        );
    }
}

#[test]
fn s2_hook_command_includes_daemon_home_prefix() {
    let written = KiroInstaller::install_hooks_at("", BINARY, Some("/dev/shm/git-ai-daemon"))
        .unwrap()
        .unwrap();
    let agent = read_json(&written);
    let cmd = agent
        .get("hooks")
        .and_then(|h| h.get("preToolUse"))
        .and_then(|v| v.as_array())
        .and_then(|a| a.first())
        .and_then(|e| e.get("command"))
        .and_then(|c| c.as_str())
        .unwrap();
    assert_eq!(
        cmd,
        "GIT_AI_DAEMON_HOME=/dev/shm/git-ai-daemon /usr/local/bin/git-ai checkpoint kiro --hook-input stdin"
    );
}

#[test]
fn s3_idempotent_already_installed() {
    let cmd = "/usr/local/bin/git-ai checkpoint kiro --hook-input stdin";
    let existing = format!(
        "{{\"name\": \"git-ai\", \"description\": \"AI code authorship tracking (git-ai)\", \
         \"hooks\": {{\"preToolUse\": [{{\"command\": \"{cmd}\", \"matcher\": \"*\"}}], \
         \"postToolUse\": [{{\"command\": \"{cmd}\", \"matcher\": \"*\"}}]}}}}"
    );
    let written = KiroInstaller::install_hooks_at(&existing, BINARY, None).unwrap();
    assert!(written.is_none(), "should be idempotent");
}

#[test]
fn s4_preserves_user_agent_fields() {
    let existing = "{\"name\": \"git-ai\", \"description\": \"user custom description\", \
                    \"model\": \"performance\", \
                    \"hooks\": {\"agentSpawn\": [{\"command\": \"echo hi\"}]}}";
    let written = KiroInstaller::install_hooks_at(existing, BINARY, None).unwrap().unwrap();
    let agent = read_json(&written);
    assert_eq!(
        agent.get("description").and_then(|v| v.as_str()).unwrap(),
        "user custom description"
    );
    assert_eq!(agent.get("model").and_then(|v| v.as_str()).unwrap(), "performance");
    let spawn = agent
        .get("hooks")
        .and_then(|h| h.get("agentSpawn"))
        .and_then(|v| v.as_array())
        .unwrap();
    assert_eq!(spawn.len(), 1);
}

#[test]
fn s5_default_agent_not_overwritten_when_set() {
    let existing = "{\"chat\": {\"defaultAgent\": \"my-agent\"}}";
    let written = KiroInstaller::ensure_default_agent(existing).unwrap();
    assert!(written.is_none(), "must not overwrite existing defaultAgent");
}

#[test]
fn s6_default_agent_set_when_unset() {
    let written = KiroInstaller::ensure_default_agent("").unwrap();
    assert!(written.is_some(), "should set defaultAgent when absent");
    let settings = read_json(&written.unwrap());
    assert_eq!(
        settings
            .get("chat")
            .and_then(|c| c.get("defaultAgent"))
            .and_then(|v| v.as_str())
            .unwrap(),
        "git-ai"
    );
}

#[test]
fn s7_uninstall_removes_git_ai_hooks() {
    let cmd = "/usr/local/bin/git-ai checkpoint kiro --hook-input stdin";
    let existing = format!(
        "{{\"name\": \"git-ai\", \"hooks\": {{\"preToolUse\": [\
         {{\"command\": \"{cmd}\", \"matcher\": \"*\"}}, \
         {{\"command\": \"echo user-hook\", \"matcher\": \"fs_write\"}}]}}}}"
    );
    let written = KiroInstaller::uninstall_hooks_at(&existing).unwrap();
    assert!(written.is_some());
    let agent = read_json(&written.unwrap());
    let pre = agent
        .get("hooks")
        .and_then(|h| h.get("preToolUse"))
        .and_then(|v| v.as_array())
        .unwrap();
    assert_eq!(pre.len(), 1, "user hook must be preserved");
    assert_eq!(
        pre[0].get("command").and_then(|c| c.as_str()).unwrap(),
        "echo user-hook"
    );
}

#[test]
fn fresh_install_writes_this_text() {
    let written = KiroInstaller::install_hooks_at(" \n\t", BINARY, Some("")).unwrap().unwrap();
    let expected = format!(
        "{{\n  \"description\": \"AI code authorship tracking (git-ai)\",\n  \"hooks\": {{\n    \
         \"postToolUse\": [\n      {{\n        \"command\": \"{COMMAND}\",\n        \
         \"matcher\": \"*\"\n      }}\n    ],\n    \"preToolUse\": [\n      {{\n        \
         \"command\": \"{COMMAND}\",\n        \"matcher\": \"*\"\n      }}\n    ]\n  }},\n  \
         \"name\": \"git-ai\"\n}}"
    );
    assert_eq!(written, expected);
}

#[test]
fn second_install_changes_nothing() {
    let existing = "{\"timeout\": 30, \"ratio\": 0.5, \"tools\": [\"*\"], \"name\": \"\"}";
    let first = KiroInstaller::install_hooks_at(existing, BINARY, None).unwrap().unwrap();
    assert_eq!(read_json(&first).get("timeout").unwrap(), &Value::from(30));
    assert_eq!(read_json(&first).get("name").unwrap(), "git-ai");
    assert!(KiroInstaller::install_hooks_at(&first, BINARY, None).unwrap().is_none());
    assert!(KiroInstaller::install_hooks_at(&first, "/opt/git-ai", Some("/d")).unwrap().is_none());
}

#[test]
fn installed_hooks_are_checked_and_removed() {
    let user = "{\"hooks\": {\"preToolUse\": [{\"command\": \"echo a\"}], \"postToolUse\": 3}}";
    let installed = KiroInstaller::install_hooks_at(user, BINARY, None).unwrap().unwrap();
    assert!(KiroInstaller.check_hooks(true, false, Some(&installed)).hooks_installed);
    let entries = read_json(&installed)["hooks"]["preToolUse"].clone();
    assert_eq!(entries[0]["command"], "echo a");
    assert_eq!(entries[1]["command"], COMMAND);
    let removed = KiroInstaller::uninstall_hooks_at(&installed).unwrap().unwrap();
    assert!(!KiroInstaller.check_hooks(true, false, Some(&removed)).hooks_installed);
    assert_eq!(read_json(&removed)["hooks"]["preToolUse"].as_array().unwrap().len(), 1);
    assert_eq!(read_json(&removed)["hooks"]["postToolUse"].as_array().unwrap().len(), 0);
    assert!(KiroInstaller::uninstall_hooks_at(&removed).unwrap().is_none());
}

#[test]
fn documents_that_are_no_objects_stay() {
    assert!(KiroInstaller::install_hooks_at("[1]", BINARY, None).unwrap().is_none());
    assert!(KiroInstaller::ensure_default_agent("3").unwrap().is_none());
    assert!(KiroInstaller::ensure_default_agent("{\"chat\": 3}").unwrap().is_none());
    assert!(KiroInstaller::uninstall_hooks_at("[]").unwrap().is_none());
    assert!(KiroInstaller::uninstall_hooks_at("{\"hooks\": 3}").unwrap().is_none());
    let odd = KiroInstaller::install_hooks_at("{\"hooks\": 3}", BINARY, None).unwrap().unwrap();
    assert_eq!(read_json(&odd)["hooks"], 3);
    assert_eq!(read_json(&odd)["name"], "git-ai");
}

#[test]
fn empty_default_agent_counts_as_unset() {
    let existing = "{\"theme\": \"dark\", \"chat\": {\"defaultAgent\": \"\", \"x\": true}}";
    let written = KiroInstaller::ensure_default_agent(existing).unwrap().unwrap();
    let settings = read_json(&written);
    assert_eq!(settings["chat"]["defaultAgent"], "git-ai");
    assert_eq!(settings["chat"]["x"], true);
    assert_eq!(settings["theme"], "dark");
    assert!(KiroInstaller::ensure_default_agent(&written).unwrap().is_none());
}

#[test]
fn text_that_is_no_json_is_an_error() {
    for res in [
        KiroInstaller::install_hooks_at("{", BINARY, None),
        KiroInstaller::ensure_default_agent("{"),
        KiroInstaller::uninstall_hooks_at("{"),
    ] {
        match res {
            Err(GitAiError::JsonError(message)) => {
                assert_eq!(message, "EOF while parsing an object at line 1 column 1")
            }
            _ => panic!("expected a JSON error"),
        }
    }
    match KiroInstaller::uninstall_hooks_at("") {
        Err(GitAiError::JsonError(message)) => {
            assert_eq!(message, "EOF while parsing a value at line 1 column 0")
        }
        _ => panic!("expected a JSON error"),
    }
}

#[test]
fn checks_tell_what_is_there() {
    let none = KiroInstaller.check_hooks(false, false, Some("{}"));
    assert_eq!((none.tool_installed, none.hooks_installed, none.hooks_up_to_date), (false, false, false));
    let fresh = KiroInstaller.check_hooks(false, true, None);
    assert_eq!((fresh.tool_installed, fresh.hooks_installed), (true, false));
    let broken = KiroInstaller.check_hooks(true, true, Some("{"));
    assert_eq!((broken.tool_installed, broken.hooks_installed), (true, false));
    let text = format!("{{\"hooks\": {{\"preToolUse\": [{{\"command\": \"{COMMAND}\"}}]}}}}");
    let full = KiroInstaller.check_hooks(true, false, Some(&text));
    assert_eq!((full.tool_installed, full.hooks_installed, full.hooks_up_to_date), (true, true, true));
}

#[test]
fn paths_lie_in_the_config_directory() {
    assert_eq!(KiroInstaller::agent_config_path("/h/.kiro"), "/h/.kiro/agents/git-ai.json");
    assert_eq!(KiroInstaller::agent_config_path("/h/.kiro/"), "/h/.kiro/agents/git-ai.json");
    assert_eq!(KiroInstaller::cli_settings_path("/h/.kiro"), "/h/.kiro/settings/cli.json");
    assert_eq!(KiroInstaller::cli_settings_path(""), "settings/cli.json");
}

#[test]
fn commands_are_recognised() {
    assert!(is_git_ai_checkpoint_command(COMMAND));
    assert!(is_git_ai_checkpoint_command("GIT_AI_DAEMON_HOME=/d /bin/git-ai checkpoint kiro"));
    assert!(!is_git_ai_checkpoint_command("echo user-hook"));
    assert!(!is_git_ai_checkpoint_command("git-ai status"));
    assert!(!is_git_ai_checkpoint_command("checkpoint"));
    assert!(!is_git_ai_checkpoint_command(""));
    assert_eq!(KiroInstaller::hook_command("g", "s", None), "g s");
    assert_eq!(KiroInstaller::hook_command("g", "s", Some("")), "g s");
    assert_eq!(KiroInstaller::hook_command("g", "s", Some("h")), "GIT_AI_DAEMON_HOME=h g s");
}

#[test]
fn names_of_the_tool() {
    assert_eq!(KiroInstaller.name(), "Kiro");
    assert_eq!(KiroInstaller.id(), "kiro");
    assert_eq!(KiroInstaller.process_names(), vec!["kiro-cli", "kiro"]);
    assert_eq!(
        KiroInstaller.install_hooks(None, Some("d".to_string())).as_deref(),
        Some("d")
    );
    assert_eq!(
        KiroInstaller.install_hooks(Some("a".to_string()), Some("d".to_string())).as_deref(),
        Some("a")
    );
    assert!(KiroInstaller.install_hooks(None, None).is_none());
}

#[test]
fn plans_work_on_documents() {
    let config = Json::empty_object();
    let merged = KiroInstaller::plan_install(&config, COMMAND, COMMAND).unwrap();
    assert!(KiroInstaller::hooks_installed(&merged));
    assert!(KiroInstaller::plan_install(&merged, COMMAND, COMMAND).is_none());
    let stripped = KiroInstaller::plan_uninstall(&merged).unwrap();
    assert!(!KiroInstaller::hooks_installed(&stripped));
    assert!(KiroInstaller::plan_uninstall(&stripped).is_none());
    let settings = KiroInstaller::plan_default_agent(&config).unwrap();
    assert!(KiroInstaller::plan_default_agent(&settings).is_none());
}

#[test]
fn installing_and_uninstalling_restores_the_document() {
    let user = "{\"name\": \"mine\", \"description\": null, \"timeout\": 30, \"hooks\": {\
                \"preToolUse\": [{\"command\": \"echo a\", \"timeout_ms\": 5000}], \
                \"postToolUse\": [], \"agentSpawn\": [1]}}";
    let installed = KiroInstaller::install_hooks_at(user, BINARY, Some("/d")).unwrap().unwrap();
    assert!(KiroInstaller.check_hooks(false, true, Some(&installed)).hooks_up_to_date);
    let removed = KiroInstaller::uninstall_hooks_at(&installed).unwrap().unwrap();
    assert_eq!(read_json(&removed), read_json(user));
    assert!(!KiroInstaller.check_hooks(false, true, Some(&removed)).hooks_installed);
}

#[test]
fn merging_changes_what_is_incomplete() {
    let mut config = Json::empty_object();
    let (merged, changed) = KiroInstaller::merge_hooks_into(&config, COMMAND, COMMAND);
    assert!(changed);
    assert!(!is_configured(&config));
    assert!(is_configured(&merged));
    assert_ne!(merged.pretty().unwrap(), config.pretty().unwrap());
    let (again, changed) = KiroInstaller::merge_hooks_into(&merged, COMMAND, COMMAND);
    assert!(!changed);
    assert_eq!(again.pretty().unwrap(), merged.pretty().unwrap());
    config.insert("hooks", Json::Null);
    assert!(!is_configured(&config));
}

#[test]
fn second_install_keeps_floats_as_they_are_written() {
    let user = "{\"ratio\": 1.1640711209589715e258}";
    let first = KiroInstaller::install_hooks_at(user, BINARY, None).unwrap().unwrap();
    assert!(KiroInstaller::install_hooks_at(&first, BINARY, None).unwrap().is_none());
}

#[test]
fn deepest_config_that_is_read_can_be_written() {
    let user = format!("{{\"x\": {}{}}}", "[".repeat(126), "]".repeat(126));
    let first = KiroInstaller::install_hooks_at(&user, BINARY, None).unwrap().unwrap();
    assert!(KiroInstaller::install_hooks_at(&first, BINARY, None).unwrap().is_none());
}
