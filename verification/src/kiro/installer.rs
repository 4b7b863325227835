//! Installing the git-ai hooks into the configuration of Kiro CLI.
//!
//! Kiro 2.x keeps hooks in agent configs and has no config on disk for its built-in default agent.
//! So the hooks live on an agent of their own, which becomes the default agent where none is set.
use vstd::prelude::*;

use crate::error::GitAiError;
use crate::json::{items_view, lemma_items_push, lemma_items_view, Json, JsonView};
use crate::json_text::{
    depth_limit, lemma_nests_with_field, nests, parse_outcome, printed_text, reread,
};
use crate::path::{join_path, joined};
use crate::text::{blank, contains_text, is_blank, occurs_in};

verus! {

/// The name of the agent that carries the hooks.
pub const KIRO_AGENT_NAME: &'static str = "git-ai";

/// The description of the agent that carries the hooks.
pub const KIRO_AGENT_DESCRIPTION: &'static str = "AI code authorship tracking (git-ai)";

/// The matcher of hooks that fire for every tool.
pub const KIRO_CATCH_ALL_MATCHER: &'static str = "*";

/// What the hook before a tool runs.
pub const KIRO_PRE_TOOL_CMD: &'static str = "checkpoint kiro --hook-input stdin";

/// What the hook behind a tool runs.
pub const KIRO_POST_TOOL_CMD: &'static str = "checkpoint kiro --hook-input stdin";

/// The installer of the Kiro hooks.
pub struct KiroInstaller;

/// A command that makes git-ai record a checkpoint.
pub open spec fn checkpoint_command(command: Seq<char>) -> bool {
    occurs_in("git-ai"@, command) && occurs_in("checkpoint"@, command)
}

/// A hook entry that runs git-ai.
pub open spec fn our_entry(entry: JsonView) -> bool {
    match entry.text_field("command"@) {
        Some(command) => checkpoint_command(command),
        None => false,
    }
}

/// One of the hook entries runs git-ai.
pub open spec fn has_ours(entries: Seq<JsonView>) -> bool {
    exists|i: int| 0 <= i < entries.len() && our_entry(#[trigger] entries[i])
}

/// The entries for a hook type: none where there is no array of them.
pub open spec fn entries_of(hooks: JsonView, hook_type: Seq<char>) -> Seq<JsonView> {
    match hooks.field(hook_type) {
        Some(entries) => match entries.items() {
            Some(items) => items,
            None => Seq::empty(),
        },
        None => Seq::empty(),
    }
}

/// The hook entry that runs `command` for every tool.
pub open spec fn hook_entry(command: Seq<char>) -> JsonView {
    JsonView::empty_object().with_field("command"@, JsonView::Text(command)).with_field(
        "matcher"@,
        JsonView::Text(KIRO_CATCH_ALL_MATCHER@),
    )
}

/// The entries, with one that runs `command` behind them unless one runs git-ai already.
pub open spec fn with_hook(entries: Seq<JsonView>, command: Seq<char>) -> Seq<JsonView> {
    if has_ours(entries) {
        entries
    } else {
        entries.push(hook_entry(command))
    }
}

/// The hooks with git-ai among the entries for a hook type.
pub open spec fn hooks_with(
    hooks: JsonView,
    hook_type: Seq<char>,
    command: Seq<char>,
) -> JsonView {
    hooks.with_field(hook_type, JsonView::Array(with_hook(entries_of(hooks, hook_type), command)))
}

/// The hooks of an agent config: an empty object where there are none.
pub open spec fn hooks_of(config: JsonView) -> JsonView {
    match config.field("hooks"@) {
        Some(hooks) => hooks,
        None => JsonView::empty_object(),
    }
}

/// An agent config with a name: its own, or that of the git-ai agent.
pub open spec fn named(config: JsonView) -> JsonView {
    match config.text_field("name"@) {
        Some(name) => if name.len() == 0 {
            config.with_field("name"@, JsonView::Text(KIRO_AGENT_NAME@))
        } else {
            config
        },
        None => config.with_field("name"@, JsonView::Text(KIRO_AGENT_NAME@)),
    }
}

/// An agent config with a description: its own, or that of the git-ai agent.
pub open spec fn described(config: JsonView) -> JsonView {
    match config.field("description"@) {
        Some(_) => config,
        None => config.with_field(
            "description"@,
            JsonView::Text(KIRO_AGENT_DESCRIPTION@),
        ),
    }
}

/// An agent config with the git-ai hooks in it. A document that is no object is left as it is.
pub open spec fn merged(
    existing: JsonView,
    pre_tool_cmd: Seq<char>,
    post_tool_cmd: Seq<char>,
) -> JsonView {
    let pre = hooks_with(hooks_of(existing), "preToolUse"@, pre_tool_cmd);
    let hooks = hooks_with(pre, "postToolUse"@, post_tool_cmd);
    described(named(existing.with_field("hooks"@, hooks)))
}

/// Whether a command makes git-ai record a checkpoint.
pub fn is_git_ai_checkpoint_command(command: &str) -> (res: bool)
    ensures
        res == checkpoint_command(command@),
{
    contains_text(command, "git-ai") && contains_text(command, "checkpoint")
}

/// Whether a hook entry runs git-ai.
fn is_our_entry(entry: &Json) -> (res: bool)
    ensures
        res == our_entry(entry@),
{
    match entry.get_str("command") {
        Some(command) => is_git_ai_checkpoint_command(command),
        None => false,
    }
}

/// Whether one of the hook entries runs git-ai.
fn any_ours(entries: &Vec<Json>) -> (res: bool)
    ensures
        res == has_ours(items_view(entries@)),
{
    let mut i: usize = 0;
    proof {
        lemma_items_view(entries@);
    }
    while i < entries.len()
        invariant
            i <= entries.len(),
            items_view(entries@).len() == entries@.len(),
            forall|k: int|
                0 <= k < entries@.len() ==> #[trigger] items_view(entries@)[k] == entries@[k]@,
            forall|k: int| 0 <= k < i ==> !our_entry(#[trigger] items_view(entries@)[k]),
        decreases entries.len() - i,
    {
        assert(items_view(entries@)[i as int] == entries@[i as int]@);
        if is_our_entry(&entries[i]) {
            return true;
        }
        i = i + 1;
    }
    false
}

/// Puts git-ai among the entries for a hook type.
fn add_hook(hooks: &mut Json, hook_type: &str, command: &str)
    ensures
        final(hooks)@ == hooks_with(old(hooks)@, hook_type@, command@),
{
    let mut entries: Vec<Json> = match hooks.get(hook_type) {
        Some(value) => match value.clone() {
            Json::Array(items) => items,
            _ => Vec::new(),
        },
        None => Vec::new(),
    };
    assert(items_view(entries@) == entries_of(hooks@, hook_type@));
    if !any_ours(&entries) {
        let mut entry = Json::empty_object();
        entry.insert("command", Json::string(command));
        entry.insert("matcher", Json::string(KIRO_CATCH_ALL_MATCHER));
        proof {
            lemma_items_push(entries@, entry);
        }
        entries.push(entry);
    }
    hooks.insert(hook_type, Json::Array(entries));
}

impl KiroInstaller {
    /// Merges the hooks into an agent config, in which all that the user set stays. The second
    /// part of the result says whether the config changed.
    pub fn merge_hooks_into(existing: &Json, pre_tool_cmd: &str, post_tool_cmd: &str) -> (res: (
        Json,
        bool,
    ))
        ensures
            res.0@ == merged(existing@, pre_tool_cmd@, post_tool_cmd@),
            res.1 <==> res.0@ != existing@,
            res.1 <==> !configured(existing@),
    {
        proof {
            law_merge_changes_what_is_incomplete(existing@, pre_tool_cmd@, post_tool_cmd@);
        }
        let mut hooks = match existing.get("hooks") {
            Some(hooks) => hooks.clone(),
            None => Json::empty_object(),
        };
        add_hook(&mut hooks, "preToolUse", pre_tool_cmd);
        add_hook(&mut hooks, "postToolUse", post_tool_cmd);
        let mut res = existing.clone();
        res.insert("hooks", hooks);
        let has_name = match res.get_str("name") {
            Some(name) => !name.is_empty(),
            None => false,
        };
        if !has_name {
            res.insert("name", Json::string(KIRO_AGENT_NAME));
        }
        if res.get("description").is_none() {
            res.insert("description", Json::string(KIRO_AGENT_DESCRIPTION));
        }
        (res, !is_configured(existing))
    }
}

/// The keys of an agent config are different texts.
pub proof fn lemma_config_keys()
    ensures
        "hooks"@ != "name"@,
        "hooks"@ != "description"@,
        "name"@ != "description"@,
        "preToolUse"@ != "postToolUse"@,
        "command"@ != "matcher"@,
        KIRO_AGENT_NAME@.len() > 0,
{
    reveal_strlit("hooks");
    reveal_strlit("name");
    reveal_strlit("description");
    reveal_strlit("preToolUse");
    reveal_strlit("postToolUse");
    reveal_strlit("command");
    reveal_strlit("matcher");
    reveal_strlit("git-ai");
    assert("hooks"@.len() == 5);
    assert("name"@.len() == 4);
    assert("description"@.len() == 11);
    assert("preToolUse"@.len() == 10);
    assert("postToolUse"@.len() == 11);
    assert("command"@[0] != "matcher"@[0]);
}

/// An agent config in which there is nothing left to install. Of hooks that are no object, nothing
/// can be asked.
pub open spec fn configured(config: JsonView) -> bool {
    config is Object ==> {
        &&& config.field("hooks"@) is Some
        &&& hooks_of(config) is Object ==> has_ours(entries_of(hooks_of(config), "preToolUse"@))
            && has_ours(entries_of(hooks_of(config), "postToolUse"@))
        &&& config.text_field("name"@) matches Some(name) && name.len() > 0
        &&& config.field("description"@) is Some
    }
}

/// Setting a member to what it is changes nothing.
pub proof fn lemma_same_field(document: JsonView, key: Seq<char>, value: JsonView)
    requires
        document is Object ==> document.field(key) == Some(value),
    ensures
        document.with_field(key, value) == document,
{
    match document {
        JsonView::Object(members) => {
            assert(members.insert(key, value) =~= members);
        },
        _ => {},
    }
}

/// Merging changes an agent config exactly where something is left to install.
pub proof fn law_merge_changes_what_is_incomplete(
    existing: JsonView,
    pre_tool_cmd: Seq<char>,
    post_tool_cmd: Seq<char>,
)
    ensures
        merged(existing, pre_tool_cmd, post_tool_cmd) == existing <==> configured(existing),
{
    lemma_config_keys();
    let hooks = hooks_of(existing);
    let pre = hooks_with(hooks, "preToolUse"@, pre_tool_cmd);
    let both = hooks_with(pre, "postToolUse"@, post_tool_cmd);
    let result = merged(existing, pre_tool_cmd, post_tool_cmd);
    if existing is Object {
        if configured(existing) {
            lemma_same_field(
                hooks,
                "preToolUse"@,
                JsonView::Array(
                    with_hook(entries_of(hooks, "preToolUse"@), pre_tool_cmd),
                ),
            );
            lemma_same_field(
                hooks,
                "postToolUse"@,
                JsonView::Array(
                    with_hook(entries_of(hooks, "postToolUse"@), post_tool_cmd),
                ),
            );
            lemma_same_field(existing, "hooks"@, both);
        }
        if result == existing {
            assert(result.field("hooks"@) == Some(both));
            assert(both == hooks);
            if hooks is Object {
                let pre_entries = entries_of(hooks, "preToolUse"@);
                let post_entries = entries_of(hooks, "postToolUse"@);
                assert(both.field("preToolUse"@) == Some(
                    JsonView::Array(with_hook(pre_entries, pre_tool_cmd)),
                ));
                assert(entries_of(pre, "postToolUse"@) == post_entries);
                assert(both.field("postToolUse"@) == Some(
                    JsonView::Array(with_hook(post_entries, post_tool_cmd)),
                ));
                assert(with_hook(pre_entries, pre_tool_cmd) == pre_entries);
                assert(with_hook(post_entries, post_tool_cmd) == post_entries);
                assert(pre_entries.push(hook_entry(pre_tool_cmd)).len() != pre_entries.len());
                assert(post_entries.push(hook_entry(post_tool_cmd)).len() != post_entries.len());
            }
        }
    }
}

/// Whether there is nothing left to install in an agent config.
pub fn is_configured(config: &Json) -> (res: bool)
    ensures
        res == configured(config@),
{
    if !config.is_object() {
        return true;
    }
    let hooks_ready = match config.get("hooks") {
        Some(hooks) => !hooks.is_object() || (any_ours_for(hooks, "preToolUse") && any_ours_for(
            hooks,
            "postToolUse",
        )),
        None => false,
    };
    let has_name = match config.get_str("name") {
        Some(name) => !name.is_empty(),
        None => false,
    };
    hooks_ready && has_name && config.get("description").is_some()
}

/// Whether one of the entries for a hook type runs git-ai.
fn any_ours_for(hooks: &Json, hook_type: &str) -> (res: bool)
    ensures
        res == has_ours(entries_of(hooks@, hook_type@)),
{
    match hooks.get(hook_type) {
        Some(entries) => match entries.as_array() {
            Some(items) => any_ours(items),
            None => false,
        },
        None => false,
    }
}

/// The shell command of a hook. Where the daemon has a home of its own, the command sets it: a
/// hook has no other way to get an environment.
pub open spec fn command_line(
    binary: Seq<char>,
    subcommand: Seq<char>,
    daemon_home: Option<Seq<char>>,
) -> Seq<char> {
    let base = binary + " "@ + subcommand;
    match daemon_home {
        Some(home) => if home.len() == 0 {
            base
        } else {
            "GIT_AI_DAEMON_HOME="@ + home + " "@ + base
        },
        None => base,
    }
}

/// What an optional text says.
pub open spec fn option_view(text: Option<&str>) -> Option<Seq<char>> {
    match text {
        Some(text) => Some(text@),
        None => None,
    }
}

/// The document that the text of a config file stands for: an empty object where the file is
/// blank.
pub open spec fn config_outcome(text: Seq<char>) -> Result<JsonView, Seq<char>> {
    if blank(text) {
        Ok(JsonView::empty_object())
    } else {
        parse_outcome(text)
    }
}

/// Reads the text of a config file.
fn read_config(text: &str) -> (res: Result<Json, GitAiError>)
    ensures
        match config_outcome(text@) {
            Ok(document) => res matches Ok(config) && config@ == document && nests(
                document,
                depth_limit(),
            ),
            Err(message) => res matches Err(GitAiError::JsonError(m)) && m@ == message,
        },
{
    if is_blank(text) {
        Ok(Json::empty_object())
    } else {
        parse_config(text)
    }
}

/// Reads a text that has to be a JSON document.
fn parse_config(text: &str) -> (res: Result<Json, GitAiError>)
    ensures
        match parse_outcome(text@) {
            Ok(document) => res matches Ok(config) && config@ == document && nests(
                document,
                depth_limit(),
            ),
            Err(message) => res matches Err(GitAiError::JsonError(m)) && m@ == message,
        },
{
    match Json::parse(text) {
        Ok(config) => Ok(config),
        Err(message) => Err(GitAiError::JsonError(message)),
    }
}

/// `res` is what becomes of a config file that is to say `change`, where there is a change: the
/// text of the document, in which the document is found again.
pub open spec fn writes(
    res: Result<Option<String>, GitAiError>,
    change: Option<JsonView>,
) -> bool {
    match change {
        None => res == Ok::<Option<String>, GitAiError>(None),
        Some(document) => res matches Ok(Some(written)) && {
            &&& written@ == printed_text(document)
            &&& !blank(written@)
            &&& parse_outcome(written@) == Ok::<JsonView, Seq<char>>(reread(document))
        },
    }
}

/// The text that makes a config file say `change`, where there is a change.
fn write_config(change: Option<Json>) -> (res: Result<Option<String>, GitAiError>)
    requires
        document_view(change) matches Some(document) ==> nests(document, depth_limit()),
    ensures
        writes(res, document_view(change)),
{
    match change {
        None => Ok(None),
        Some(config) => match config.pretty() {
            Ok(text) => Ok(Some(text)),
            Err(message) => Err(GitAiError::JsonError(message)),
        },
    }
}

/// What an optional document says.
pub open spec fn document_view(document: Option<Json>) -> Option<JsonView> {
    match document {
        Some(document) => Some(document@),
        None => None,
    }
}

/// The document where it differs from what was there.
pub open spec fn if_changed(before: JsonView, after: JsonView) -> Option<JsonView> {
    if before == after {
        None
    } else {
        Some(after)
    }
}

/// A default agent is set.
pub open spec fn default_agent_set(settings: JsonView) -> bool {
    match settings.field("chat"@) {
        Some(chat) => match chat.text_field("defaultAgent"@) {
            Some(agent) => agent.len() > 0,
            None => false,
        },
        None => false,
    }
}

/// The settings with the git-ai agent for the default agent. Settings, or chat settings, that are
/// no object are left as they are.
pub open spec fn with_default_agent(settings: JsonView) -> JsonView {
    let chat = match settings.field("chat"@) {
        Some(chat) => chat,
        None => JsonView::empty_object(),
    };
    settings.with_field(
        "chat"@,
        chat.with_field("defaultAgent"@, JsonView::Text(KIRO_AGENT_NAME@)),
    )
}

/// The settings after a default agent was ensured: a default agent that is set stays.
pub open spec fn with_some_default_agent(settings: JsonView) -> JsonView {
    if default_agent_set(settings) {
        settings
    } else {
        with_default_agent(settings)
    }
}

/// The entries that do not run git-ai, in order.
pub open spec fn others(entries: Seq<JsonView>) -> Seq<JsonView>
    decreases entries.len(),
{
    if entries.len() == 0 {
        Seq::empty()
    } else if our_entry(entries.last()) {
        others(entries.drop_last())
    } else {
        others(entries.drop_last()).push(entries.last())
    }
}

/// The hooks without git-ai among the entries for a hook type.
pub open spec fn hooks_without(hooks: JsonView, hook_type: Seq<char>) -> JsonView {
    match hooks.field(hook_type) {
        Some(entries) => match entries.items() {
            Some(items) => hooks.with_field(hook_type, JsonView::Array(others(items))),
            None => hooks,
        },
        None => hooks,
    }
}

/// An agent config without the git-ai hooks.
pub open spec fn unmerged(existing: JsonView) -> JsonView {
    match existing.field("hooks"@) {
        Some(hooks) => existing.with_field(
            "hooks"@,
            hooks_without(hooks_without(hooks, "preToolUse"@), "postToolUse"@),
        ),
        None => existing,
    }
}

/// The hooks before a tool run git-ai.
pub open spec fn installed(config: JsonView) -> bool {
    has_ours(entries_of(hooks_of(config), "preToolUse"@))
}

/// The entries that do not run git-ai, in order.
fn remove_ours(entries: &Vec<Json>) -> (rest: Vec<Json>)
    ensures
        items_view(rest@) == others(items_view(entries@)),
{
    let ghost all = items_view(entries@);
    proof {
        lemma_items_view(entries@);
    }
    let mut rest: Vec<Json> = Vec::new();
    let mut i: usize = 0;
    assert(all.take(0) =~= Seq::empty());
    while i < entries.len()
        invariant
            i <= entries.len(),
            all.len() == entries@.len(),
            forall|k: int| 0 <= k < entries@.len() ==> #[trigger] all[k] == entries@[k]@,
            items_view(rest@) == others(all.take(i as int)),
        decreases entries.len() - i,
    {
        proof {
            assert(all.take(i + 1).drop_last() =~= all.take(i as int));
            assert(all.take(i + 1).last() == entries@[i as int]@);
        }
        if !is_our_entry(&entries[i]) {
            let entry = entries[i].clone();
            proof {
                lemma_items_push(rest@, entry);
            }
            rest.push(entry);
        }
        i = i + 1;
    }
    assert(all.take(i as int) =~= all);
    rest
}

/// Takes git-ai out of the entries for a hook type.
fn strip_hook(hooks: &mut Json, hook_type: &str)
    ensures
        final(hooks)@ == hooks_without(old(hooks)@, hook_type@),
{
    let rest: Option<Vec<Json>> = match hooks.get(hook_type) {
        Some(Json::Array(items)) => Some(remove_ours(items)),
        _ => None,
    };
    match rest {
        Some(rest) => hooks.insert(hook_type, Json::Array(rest)),
        None => {},
    }
}

/// Whether git-ai is there, and whether its hooks are.
#[derive(Clone, Copy, Debug, PartialEq, Eq, Structural)]
pub struct HookCheckResult {
    pub tool_installed: bool,
    pub hooks_installed: bool,
    pub hooks_up_to_date: bool,
}

/// `res` is what installing the hooks makes of the config file of the agent, whose text is
/// `content`.
pub open spec fn installs(
    res: Result<Option<String>, GitAiError>,
    content: Seq<char>,
    binary: Seq<char>,
    daemon_home: Option<Seq<char>>,
) -> bool {
    match config_outcome(content) {
        Ok(existing) => writes(
            res,
            if_changed(
                existing,
                merged(
                    existing,
                    command_line(binary, KIRO_PRE_TOOL_CMD@, daemon_home),
                    command_line(binary, KIRO_POST_TOOL_CMD@, daemon_home),
                ),
            ),
        ),
        Err(message) => res matches Err(GitAiError::JsonError(m)) && m@ == message,
    }
}

/// `res` is what ensuring a default agent makes of the settings file, whose text is `content`.
pub open spec fn sets_default_agent(
    res: Result<Option<String>, GitAiError>,
    content: Seq<char>,
) -> bool {
    match config_outcome(content) {
        Ok(settings) => writes(res, if_changed(settings, with_some_default_agent(settings))),
        Err(message) => res matches Err(GitAiError::JsonError(m)) && m@ == message,
    }
}

/// `res` is what uninstalling the hooks makes of the config file of the agent, whose text is
/// `content`.
pub open spec fn uninstalls(res: Result<Option<String>, GitAiError>, content: Seq<char>) -> bool {
    match parse_outcome(content) {
        Ok(existing) => writes(res, if_changed(existing, unmerged(existing))),
        Err(message) => res matches Err(GitAiError::JsonError(m)) && m@ == message,
    }
}

/// What there is of Kiro and of the hooks.
pub open spec fn checked(
    has_binary: bool,
    has_dotfiles: bool,
    agent_config: Option<Seq<char>>,
) -> HookCheckResult {
    let there = has_binary || has_dotfiles;
    let hooks = there && match agent_config {
        Some(text) => match parse_outcome(text) {
            Ok(config) => installed(config),
            Err(_) => false,
        },
        None => false,
    };
    HookCheckResult { tool_installed: there, hooks_installed: hooks, hooks_up_to_date: hooks }
}

impl KiroInstaller {
    /// The name of the tool.
    pub fn name(&self) -> (res: &'static str)
        ensures
            res@ == "Kiro"@,
    {
        "Kiro"
    }

    /// The identifier of the tool.
    pub fn id(&self) -> (res: &'static str)
        ensures
            res@ == "kiro"@,
    {
        "kiro"
    }

    /// The names under which the tool runs.
    pub fn process_names(&self) -> (res: Vec<&'static str>)
        ensures
            res@.len() == 2,
            res@[0]@ == "kiro-cli"@,
            res@[1]@ == "kiro"@,
    {
        let mut res: Vec<&'static str> = Vec::new();
        res.push("kiro-cli");
        res.push("kiro");
        res
    }

    /// The config file of the agent that carries the hooks: `agents/git-ai.json` in the config
    /// directory of Kiro.
    pub fn agent_config_path(kiro_config_dir: &str) -> (res: String)
        ensures
            res@ == joined(joined(kiro_config_dir@, "agents"@), KIRO_AGENT_NAME@ + ".json"@),
    {
        let agents = join_path(kiro_config_dir, "agents");
        let file = KIRO_AGENT_NAME.to_string().concat(".json");
        join_path(agents.as_str(), file.as_str())
    }

    /// The settings file of Kiro CLI, in which the default agent is set: `settings/cli.json` in
    /// the config directory of Kiro.
    pub fn cli_settings_path(kiro_config_dir: &str) -> (res: String)
        ensures
            res@ == joined(joined(kiro_config_dir@, "settings"@), "cli.json"@),
    {
        let settings = join_path(kiro_config_dir, "settings");
        join_path(settings.as_str(), "cli.json")
    }

    /// The shell command of a hook. `binary` is the path of git-ai as a shell takes it.
    pub fn hook_command(binary: &str, subcommand: &str, daemon_home: Option<&str>) -> (res: String)
        ensures
            res@ == command_line(binary@, subcommand@, option_view(daemon_home)),
    {
        let base = binary.to_string().concat(" ").concat(subcommand);
        match daemon_home {
            Some(home) => {
                if home.is_empty() {
                    base
                } else {
                    "GIT_AI_DAEMON_HOME=".to_string().concat(home).concat(" ").concat(
                        base.as_str(),
                    )
                }
            },
            None => base,
        }
    }

    /// The agent config to write so that the hooks are installed; none where nothing changes.
    pub fn plan_install(existing: &Json, pre_tool_cmd: &str, post_tool_cmd: &str) -> (res: Option<
        Json,
    >)
        ensures
            document_view(res) == if_changed(
                existing@,
                merged(existing@, pre_tool_cmd@, post_tool_cmd@),
            ),
    {
        let (merged, changed) = Self::merge_hooks_into(existing, pre_tool_cmd, post_tool_cmd);
        if changed {
            Some(merged)
        } else {
            None
        }
    }

    /// The text to write to the config file of the agent, whose text is `existing_content`, so
    /// that the hooks are installed; none where nothing changes.
    pub fn install_hooks_at(existing_content: &str, binary: &str, daemon_home: Option<&str>) -> (
        res: Result<Option<String>, GitAiError>)
        ensures
            installs(res, existing_content@, binary@, option_view(daemon_home)),
    {
        let existing = match read_config(existing_content) {
            Ok(existing) => existing,
            Err(error) => return Err(error),
        };
        let pre_cmd = Self::hook_command(binary, KIRO_PRE_TOOL_CMD, daemon_home);
        let post_cmd = Self::hook_command(binary, KIRO_POST_TOOL_CMD, daemon_home);
        proof {
            lemma_merged_nests(existing@, pre_cmd@, post_cmd@);
        }
        write_config(Self::plan_install(&existing, pre_cmd.as_str(), post_cmd.as_str()))
    }

    /// The settings to write so that some default agent is set; none where nothing changes.
    pub fn plan_default_agent(settings: &Json) -> (res: Option<Json>)
        ensures
            document_view(res) == if_changed(settings@, with_some_default_agent(settings@)),
    {
        proof {
            lemma_default_agent(settings@);
        }
        let mut chat = match settings.get("chat") {
            Some(chat) => chat.clone(),
            None => Json::empty_object(),
        };
        let already_set = match chat.get_str("defaultAgent") {
            Some(agent) => !agent.is_empty(),
            None => false,
        };
        if already_set || !settings.is_object() || !chat.is_object() {
            return None;
        }
        chat.insert("defaultAgent", Json::string(KIRO_AGENT_NAME));
        let mut res = settings.clone();
        res.insert("chat", chat);
        Some(res)
    }

    /// The text to write to the settings file, whose text is `existing_content`, so that some
    /// default agent is set; none where nothing changes. A default agent of the user's is kept.
    pub fn ensure_default_agent(existing_content: &str) -> (res: Result<Option<String>, GitAiError>)
        ensures
            sets_default_agent(res, existing_content@),
    {
        match read_config(existing_content) {
            Ok(settings) => {
                proof {
                    lemma_default_agent_nests(settings@);
                }
                write_config(Self::plan_default_agent(&settings))
            },
            Err(error) => Err(error),
        }
    }

    /// The agent config to write so that the hooks are gone; none where nothing changes.
    pub fn plan_uninstall(existing: &Json) -> (res: Option<Json>)
        ensures
            document_view(res) == if_changed(existing@, unmerged(existing@)),
    {
        proof {
            lemma_unmerged(existing@);
        }
        let mut hooks = match existing.get("hooks") {
            Some(hooks) => hooks.clone(),
            None => return None,
        };
        if !any_ours_for(&hooks, "preToolUse") && !any_ours_for(&hooks, "postToolUse") {
            return None;
        }
        strip_hook(&mut hooks, "preToolUse");
        strip_hook(&mut hooks, "postToolUse");
        let mut res = existing.clone();
        res.insert("hooks", hooks);
        Some(res)
    }

    /// The text to write to the config file of the agent, whose text is `existing_content`, so
    /// that the hooks are gone; none where nothing changes.
    pub fn uninstall_hooks_at(existing_content: &str) -> (res: Result<Option<String>, GitAiError>)
        ensures
            uninstalls(res, existing_content@),
    {
        match parse_config(existing_content) {
            Ok(existing) => {
                proof {
                    lemma_unmerged_nests(existing@);
                }
                write_config(Self::plan_uninstall(&existing))
            },
            Err(error) => Err(error),
        }
    }

    /// Whether the hooks before a tool run git-ai.
    pub fn hooks_installed(config: &Json) -> (res: bool)
        ensures
            res == installed(config@),
    {
        match config.get("hooks") {
            Some(hooks) => any_ours_for(hooks, "preToolUse"),
            None => false,
        }
    }

    /// What there is of Kiro and of the hooks. `has_binary` and `has_dotfiles` say whether the
    /// program and its config directory exist, `agent_config` is the text of the config file of
    /// the agent, where it exists. Text that is no JSON document holds no hooks.
    pub fn check_hooks(
        &self,
        has_binary: bool,
        has_dotfiles: bool,
        agent_config: Option<&str>,
    ) -> (res: HookCheckResult)
        ensures
            res == checked(has_binary, has_dotfiles, option_view(agent_config)),
    {
        if !has_binary && !has_dotfiles {
            return HookCheckResult {
                tool_installed: false,
                hooks_installed: false,
                hooks_up_to_date: false,
            };
        }
        let hooks_installed = match agent_config {
            Some(text) => match Json::parse(text) {
                Ok(config) => Self::hooks_installed(&config),
                Err(_) => false,
            },
            None => false,
        };
        HookCheckResult { tool_installed: true, hooks_installed, hooks_up_to_date: hooks_installed }
    }

    /// What an installation reports: the change of the agent config, else that of the settings.
    pub fn install_hooks(
        &self,
        agent_diff: Option<String>,
        default_diff: Option<String>,
    ) -> (res: Option<String>)
        ensures
            res == if agent_diff is Some {
                agent_diff
            } else {
                default_diff
            },
    {
        match agent_diff {
            Some(diff) => Some(diff),
            None => default_diff,
        }
    }
}

/// The git-ai agent becomes the default agent exactly where none is set and the settings are
/// objects.
pub proof fn lemma_default_agent(settings: JsonView)
    ensures
        with_some_default_agent(settings) == settings <==> default_agent_set(settings)
            || !(settings is Object) || (settings.field("chat"@) matches Some(chat) && !(
        chat is Object)),
{
    reveal_strlit("git-ai");
    let chat = match settings.field("chat"@) {
        Some(chat) => chat,
        None => JsonView::empty_object(),
    };
    let set = chat.with_field("defaultAgent"@, JsonView::Text(KIRO_AGENT_NAME@));
    if settings is Object {
        if !(chat is Object) {
            lemma_same_field(settings, "chat"@, set);
        } else if with_default_agent(settings) == settings {
            assert(with_default_agent(settings).field("chat"@) == Some(set));
            assert(set.text_field("defaultAgent"@) == Some(KIRO_AGENT_NAME@));
            assert(KIRO_AGENT_NAME@.len() == 6);
        }
    }
}

/// Without a git-ai entry nothing is taken out; with one, something is.
pub proof fn lemma_others(entries: Seq<JsonView>)
    ensures
        others(entries).len() <= entries.len(),
        has_ours(entries) <==> others(entries).len() < entries.len(),
        !has_ours(entries) ==> others(entries) == entries,
        !has_ours(others(entries)),
    decreases entries.len(),
{
    if entries.len() > 0 {
        let rest = entries.drop_last();
        lemma_others(rest);
        assert(entries[entries.len() - 1] == entries.last());
        assert(forall|i: int| 0 <= i < rest.len() ==> rest[i] == entries[i]);
        if has_ours(rest) {
            let i = choose|i: int| 0 <= i < rest.len() && our_entry(#[trigger] rest[i]);
            assert(our_entry(entries[i]));
        }
        if !has_ours(entries) {
            assert(!our_entry(entries[entries.len() - 1]));
            assert forall|i: int| 0 <= i < rest.len() implies !our_entry(#[trigger] rest[i]) by {
                assert(!our_entry(entries[i]));
            }
            assert(others(entries) =~= entries);
        }
    }
}

/// Uninstalling changes an agent config exactly where an entry runs git-ai.
pub proof fn lemma_unmerged(existing: JsonView)
    ensures
        unmerged(existing) == existing <==> !has_ours(
            entries_of(hooks_of(existing), "preToolUse"@),
        ) && !has_ours(entries_of(hooks_of(existing), "postToolUse"@)),
{
    lemma_config_keys();
    match existing.field("hooks"@) {
        Some(hooks) => {
            let pre_entries = entries_of(hooks, "preToolUse"@);
            let post_entries = entries_of(hooks, "postToolUse"@);
            let pre = hooks_without(hooks, "preToolUse"@);
            let both = hooks_without(pre, "postToolUse"@);
            lemma_others(pre_entries);
            lemma_others(post_entries);
            assert(entries_of(pre, "postToolUse"@) == post_entries);
            assert(entries_of(both, "preToolUse"@) == others(pre_entries));
            assert(entries_of(both, "postToolUse"@) == others(post_entries));
            if !has_ours(pre_entries) {
                assert(pre == hooks) by {
                    if hooks.field("preToolUse"@) matches Some(JsonView::Array(_)) {
                        lemma_same_field(hooks, "preToolUse"@, JsonView::Array(pre_entries));
                    }
                }
                if !has_ours(post_entries) {
                    assert(both == hooks) by {
                        if hooks.field("postToolUse"@) matches Some(JsonView::Array(_)) {
                            lemma_same_field(hooks, "postToolUse"@, JsonView::Array(post_entries));
                        }
                    }
                    lemma_same_field(existing, "hooks"@, both);
                }
            }
            assert(unmerged(existing).field("hooks"@) == Some(both));
        },
        None => {},
    }
}

/// The entries for a hook type nest less deep than the hooks.
proof fn lemma_entries_nest(hooks: JsonView, hook_type: Seq<char>, depth: nat)
    requires
        nests(hooks, depth),
        depth >= 2,
    ensures
        forall|i: int|
            0 <= i < entries_of(hooks, hook_type).len() ==> nests(
                #[trigger] entries_of(hooks, hook_type)[i],
                (depth - 2) as nat,
            ),
{
    match hooks.field(hook_type) {
        Some(entries) => {
            assert(nests(entries, (depth - 1) as nat));
        },
        None => {},
    }
}

/// A hook entry is an object of texts.
proof fn lemma_hook_entry_nests(command: Seq<char>, depth: nat)
    requires
        depth > 0,
    ensures
        nests(hook_entry(command), depth),
{
    let empty = JsonView::empty_object();
    let text = JsonView::Text(command);
    lemma_nests_with_field(empty, "command"@, text, depth);
    lemma_nests_with_field(
        empty.with_field("command"@, text),
        "matcher"@,
        JsonView::Text(KIRO_CATCH_ALL_MATCHER@),
        depth,
    );
}

/// Adding a hook entry leaves the hooks within their depth.
proof fn lemma_hooks_with_nests(
    hooks: JsonView,
    hook_type: Seq<char>,
    command: Seq<char>,
    depth: nat,
)
    requires
        nests(hooks, depth),
        depth >= 3,
    ensures
        nests(hooks_with(hooks, hook_type, command), depth),
{
    let entries = with_hook(entries_of(hooks, hook_type), command);
    lemma_entries_nest(hooks, hook_type, depth);
    lemma_hook_entry_nests(command, (depth - 2) as nat);
    assert(nests(JsonView::Array(entries), (depth - 1) as nat)) by {
        assert forall|i: int| 0 <= i < entries.len() implies nests(
            #[trigger] entries[i],
            (depth - 2) as nat,
        ) by {
            if i < entries_of(hooks, hook_type).len() {
                assert(entries[i] == entries_of(hooks, hook_type)[i]);
            }
        }
    }
    lemma_nests_with_field(hooks, hook_type, JsonView::Array(entries), depth);
}

/// Merging the hooks into a config that could be read leaves one that can be read.
proof fn lemma_merged_nests(
    existing: JsonView,
    pre_tool_cmd: Seq<char>,
    post_tool_cmd: Seq<char>,
)
    requires
        nests(existing, depth_limit()),
    ensures
        nests(merged(existing, pre_tool_cmd, post_tool_cmd), depth_limit()),
{
    let depth = depth_limit();
    let inner = (depth - 1) as nat;
    let hooks = hooks_of(existing);
    let pre = hooks_with(hooks, "preToolUse"@, pre_tool_cmd);
    let both = hooks_with(pre, "postToolUse"@, post_tool_cmd);
    assert(nests(hooks, inner));
    lemma_hooks_with_nests(hooks, "preToolUse"@, pre_tool_cmd, inner);
    lemma_hooks_with_nests(pre, "postToolUse"@, post_tool_cmd, inner);
    let config = existing.with_field("hooks"@, both);
    lemma_nests_with_field(existing, "hooks"@, both, depth);
    lemma_nests_with_field(config, "name"@, JsonView::Text(KIRO_AGENT_NAME@), depth);
    lemma_nests_with_field(
        named(config),
        "description"@,
        JsonView::Text(KIRO_AGENT_DESCRIPTION@),
        depth,
    );
}

/// Setting a default agent in settings that could be read leaves settings that can be read.
proof fn lemma_default_agent_nests(settings: JsonView)
    requires
        nests(settings, depth_limit()),
    ensures
        nests(with_some_default_agent(settings), depth_limit()),
{
    let inner = (depth_limit() - 1) as nat;
    let agent = JsonView::Text(KIRO_AGENT_NAME@);
    let chat = match settings.field("chat"@) {
        Some(chat) => chat,
        None => JsonView::empty_object(),
    };
    assert(nests(chat, inner));
    lemma_nests_with_field(chat, "defaultAgent"@, agent, inner);
    lemma_nests_with_field(
        settings,
        "chat"@,
        chat.with_field("defaultAgent"@, agent),
        depth_limit(),
    );
}

/// Each entry that is left was there.
proof fn lemma_others_among(entries: Seq<JsonView>)
    ensures
        forall|i: int|
            0 <= i < others(entries).len() ==> entries.contains(#[trigger] others(entries)[i]),
    decreases entries.len(),
{
    if entries.len() > 0 {
        let rest = entries.drop_last();
        lemma_others_among(rest);
        assert(entries[entries.len() - 1] == entries.last());
        assert forall|i: int| 0 <= i < others(entries).len() implies entries.contains(
            #[trigger] others(entries)[i],
        ) by {
            if i < others(rest).len() {
                assert(rest.contains(others(rest)[i]));
                let j = rest.index_of(others(rest)[i]);
                assert(entries[j] == rest[j]);
            }
        }
    }
}

/// Taking entries out leaves the hooks within their depth.
proof fn lemma_hooks_without_nests(hooks: JsonView, hook_type: Seq<char>, depth: nat)
    requires
        nests(hooks, depth),
        depth >= 2,
    ensures
        nests(hooks_without(hooks, hook_type), depth),
{
    let entries = entries_of(hooks, hook_type);
    lemma_entries_nest(hooks, hook_type, depth);
    lemma_others_among(entries);
    assert(nests(JsonView::Array(others(entries)), (depth - 1) as nat)) by {
        assert forall|i: int| 0 <= i < others(entries).len() implies nests(
            #[trigger] others(entries)[i],
            (depth - 2) as nat,
        ) by {
            let j = entries.index_of(others(entries)[i]);
            assert(nests(entries[j], (depth - 2) as nat));
        }
    }
    lemma_nests_with_field(hooks, hook_type, JsonView::Array(others(entries)), depth);
}

/// Taking the hooks out of a config that could be read leaves one that can be read.
proof fn lemma_unmerged_nests(existing: JsonView)
    requires
        nests(existing, depth_limit()),
    ensures
        nests(unmerged(existing), depth_limit()),
{
    let inner = (depth_limit() - 1) as nat;
    match existing.field("hooks"@) {
        Some(hooks) => {
            let pre = hooks_without(hooks, "preToolUse"@);
            assert(nests(hooks, inner));
            lemma_hooks_without_nests(hooks, "preToolUse"@, inner);
            lemma_hooks_without_nests(pre, "postToolUse"@, inner);
            lemma_nests_with_field(
                existing,
                "hooks"@,
                hooks_without(pre, "postToolUse"@),
                depth_limit(),
            );
        },
        None => {},
    }
}

} // verus!
