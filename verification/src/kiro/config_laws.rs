//! What installing, uninstalling and checking do to each member of a config, and to its file.
use vstd::prelude::*;

use crate::error::GitAiError;
use crate::json::JsonView;
use crate::json_text::{parse_outcome, printed_text, reread};
use crate::kiro::installer::{
    checked, checkpoint_command, command_line, config_outcome, entries_of, has_ours, hook_entry,
    hooks_of, hooks_with, hooks_without, installed, installs, lemma_config_keys, merged, others,
    our_entry, sets_default_agent, uninstalls, unmerged, with_hook, with_some_default_agent,
    HookCheckResult, KIRO_AGENT_NAME, KIRO_POST_TOOL_CMD, KIRO_PRE_TOOL_CMD,
};
use crate::text::{law_occurs_between, white_space};

verus! {

/// `part` stands in `text`, with something before and behind it.
pub open spec fn holds(text: Seq<char>, part: Seq<char>) -> bool {
    exists|before: Seq<char>, behind: Seq<char>| text == #[trigger] (before + part + behind)
}

/// A hook entry is an object with a command that names `git-ai` and `checkpoint`.
pub open spec fn runs_git_ai(entry: JsonView) -> bool {
    match entry {
        JsonView::Object(members) => members.contains_key("command"@) && match members["command"@] {
            JsonView::Text(command) => holds(command, "git-ai"@) && holds(command, "checkpoint"@),
            _ => false,
        },
        _ => false,
    }
}

/// Ours are the commands that name `git-ai` and `checkpoint`, and the hook entries with such a
/// command.
pub proof fn law_what_is_ours(command: Seq<char>, entry: JsonView)
    ensures
        checkpoint_command(command) <==> holds(command, "git-ai"@) && holds(command, "checkpoint"@),
        our_entry(entry) <==> runs_git_ai(entry),
{
    law_occurs_between("git-ai"@, command);
    law_occurs_between("checkpoint"@, command);
    match entry.text_field("command"@) {
        Some(text) => {
            law_occurs_between("git-ai"@, text);
            law_occurs_between("checkpoint"@, text);
        },
        None => {},
    }
}

/// A list holds one of ours exactly where one of its entries runs git-ai.
pub proof fn law_one_of_ours(entries: Seq<JsonView>)
    ensures
        has_ours(entries) <==> exists|i: int|
            0 <= i < entries.len() && runs_git_ai(#[trigger] entries[i]),
{
    assert forall|i: int| 0 <= i < entries.len() implies our_entry(#[trigger] entries[i])
        == runs_git_ai(entries[i]) by {
        law_what_is_ours(Seq::empty(), entries[i]);
    }
    if exists|i: int| 0 <= i < entries.len() && runs_git_ai(#[trigger] entries[i]) {
        let i = choose|i: int| 0 <= i < entries.len() && runs_git_ai(#[trigger] entries[i]);
        assert(our_entry(entries[i]));
    }
    if has_ours(entries) {
        let i = choose|i: int| 0 <= i < entries.len() && our_entry(#[trigger] entries[i]);
        assert(runs_git_ai(entries[i]));
    }
}

proof fn lemma_others(entries: Seq<JsonView>, stays: spec_fn(JsonView) -> bool)
    requires
        forall|entry: JsonView| #[trigger] stays(entry) <==> !runs_git_ai(entry),
    ensures
        others(entries) == entries.filter(stays),
    decreases entries.len(),
{
    reveal(Seq::filter);
    if entries.len() > 0 {
        lemma_others(entries.drop_last(), stays);
        law_what_is_ours(Seq::empty(), entries.last());
    }
}

/// Of a list of entries all those stay, in order, that do not run git-ai.
pub proof fn law_others_stay(entries: Seq<JsonView>)
    ensures
        others(entries) == entries.filter(|entry: JsonView| !runs_git_ai(entry)),
{
    lemma_others(entries, |entry: JsonView| !runs_git_ai(entry));
}

/// Uninstalling, member by member: of the entries for the two hook types exactly those go that run
/// git-ai, and the others stay in order. All other members, of the hooks and of the config, stay,
/// and so does a config without hooks that are an object.
pub proof fn law_uninstall_exactly(existing: JsonView, key: Seq<char>)
    ensures
        match existing {
            JsonView::Object(members) => if members.contains_key("hooks"@) && members["hooks"@]
                is Object {
                let before = members["hooks"@]->Object_0;
                &&& unmerged(existing) is Object
                &&& unmerged(existing)->Object_0.dom() =~= members.dom()
                &&& key != "hooks"@ && members.contains_key(key) ==> unmerged(
                    existing,
                )->Object_0[key] == members[key]
                &&& unmerged(existing)->Object_0["hooks"@] matches JsonView::Object(after) && {
                    &&& after.dom() =~= before.dom()
                    &&& before.contains_key(key) ==> after[key] == if (key == "preToolUse"@ || key
                        == "postToolUse"@) && before[key] is Array {
                        JsonView::Array(
                            before[key]->Array_0.filter(|entry: JsonView| !runs_git_ai(entry)),
                        )
                    } else {
                        before[key]
                    }
                }
            } else {
                unmerged(existing) == existing
            },
            _ => unmerged(existing) == existing,
        },
{
    lemma_config_keys();
    if existing is Object && existing->Object_0.contains_key("hooks"@) {
        let hooks = existing->Object_0["hooks"@];
        if hooks is Object {
            let before = hooks->Object_0;
            let pre = hooks_without(hooks, "preToolUse"@);
            let both = hooks_without(pre, "postToolUse"@);
            if before.contains_key("preToolUse"@) && before["preToolUse"@] is Array {
                law_others_stay(before["preToolUse"@]->Array_0);
            }
            if before.contains_key("postToolUse"@) && before["postToolUse"@] is Array {
                law_others_stay(before["postToolUse"@]->Array_0);
            }
            assert(unmerged(existing)->Object_0["hooks"@] == both);
            assert(pre->Object_0.dom() =~= before.dom());
            assert(both->Object_0.dom() =~= before.dom());
        } else {
            assert(unmerged(existing)->Object_0 =~= existing->Object_0);
        }
    }
}

/// The entries under a hook type, where there is an array of them.
pub open spec fn array_under(hooks: Map<Seq<char>, JsonView>, hook_type: Seq<char>) -> Seq<
    JsonView,
> {
    if hooks.contains_key(hook_type) && hooks[hook_type] is Array {
        hooks[hook_type]->Array_0
    } else {
        Seq::empty()
    }
}

/// `after` are the entries `before`, with an entry of ours for `command` and every tool behind them
/// where none of them runs git-ai.
pub open spec fn is_completed(
    before: Seq<JsonView>,
    after: JsonView,
    command: Seq<char>,
) -> bool {
    if exists|i: int| 0 <= i < before.len() && runs_git_ai(#[trigger] before[i]) {
        after == JsonView::Array(before)
    } else {
        after == JsonView::Array(
            before.push(
                JsonView::Object(
                    map![
                        "command"@ => JsonView::Text(command),
                        "matcher"@ => JsonView::Text("*"@),
                    ],
                ),
            ),
        )
    }
}

proof fn lemma_is_completed(before: Seq<JsonView>, command: Seq<char>)
    ensures
        is_completed(before, JsonView::Array(with_hook(before, command)), command),
{
    lemma_config_keys();
    law_one_of_ours(before);
    assert(hook_entry(command)->Object_0 =~= map![
        "command"@ => JsonView::Text(command),
        "matcher"@ => JsonView::Text("*"@),
    ]);
}

/// Installing, member by member. A name that is no text or is empty becomes that of the git-ai
/// agent, a missing description comes, and hooks that are an object, or missing, get an entry of
/// ours for each of the two hook types where there is none. All else stays, and so does a config
/// that is no object.
pub proof fn law_install_exactly(
    existing: JsonView,
    pre_tool_cmd: Seq<char>,
    post_tool_cmd: Seq<char>,
    key: Seq<char>,
)
    ensures
        !(existing is Object) ==> merged(existing, pre_tool_cmd, post_tool_cmd) == existing,
        existing matches JsonView::Object(members) ==> {
            &&& merged(existing, pre_tool_cmd, post_tool_cmd) matches JsonView::Object(result)
            &&& result.dom() =~= members.dom().insert("hooks"@).insert("name"@).insert(
                "description"@,
            )
            &&& members.contains_key(key) && key != "hooks"@ && key != "name"@ && key
                != "description"@ ==> result[key] == members[key]
            &&& result["name"@] == if members.contains_key("name"@) && (
            members["name"@] matches JsonView::Text(name) && name.len() > 0) {
                members["name"@]
            } else {
                JsonView::Text("git-ai"@)
            }
            &&& result["description"@] == if members.contains_key("description"@) {
                members["description"@]
            } else {
                JsonView::Text("AI code authorship tracking (git-ai)"@)
            }
            &&& if members.contains_key("hooks"@) && !(members["hooks"@] is Object) {
                result["hooks"@] == members["hooks"@]
            } else {
                let before = if members.contains_key("hooks"@) {
                    members["hooks"@]->Object_0
                } else {
                    Map::empty()
                };
                &&& result["hooks"@] matches JsonView::Object(after)
                &&& after.dom() =~= before.dom().insert("preToolUse"@).insert("postToolUse"@)
                &&& before.contains_key(key) && key != "preToolUse"@ && key != "postToolUse"@
                    ==> after[key] == before[key]
                &&& is_completed(
                    array_under(before, "preToolUse"@),
                    after["preToolUse"@],
                    pre_tool_cmd,
                )
                &&& is_completed(
                    array_under(before, "postToolUse"@),
                    after["postToolUse"@],
                    post_tool_cmd,
                )
            }
        },
{
    lemma_config_keys();
    if existing is Object {
        let members = existing->Object_0;
        let hooks = hooks_of(existing);
        let pre = hooks_with(hooks, "preToolUse"@, pre_tool_cmd);
        let both = hooks_with(pre, "postToolUse"@, post_tool_cmd);
        let result = merged(existing, pre_tool_cmd, post_tool_cmd)->Object_0;
        assert(result["hooks"@] == both);
        assert(result.dom() =~= members.dom().insert("hooks"@).insert("name"@).insert(
            "description"@,
        ));
        if hooks is Object {
            let before = hooks->Object_0;
            assert(entries_of(hooks, "preToolUse"@) =~= array_under(before, "preToolUse"@));
            assert(entries_of(pre, "postToolUse"@) =~= array_under(before, "postToolUse"@));
            lemma_is_completed(array_under(before, "preToolUse"@), pre_tool_cmd);
            lemma_is_completed(array_under(before, "postToolUse"@), post_tool_cmd);
            assert(both->Object_0.dom() =~= before.dom().insert("preToolUse"@).insert(
                "postToolUse"@,
            ));
        }
    }
}

/// A config has the hooks exactly where one of the entries before a tool runs git-ai.
pub proof fn law_installed_exactly(config: JsonView)
    ensures
        installed(config) <==> {
            &&& config matches JsonView::Object(members)
            &&& members.contains_key("hooks"@)
            &&& members["hooks"@] matches JsonView::Object(hooks)
            &&& exists|i: int|
                0 <= i < array_under(hooks, "preToolUse"@).len() && runs_git_ai(
                    #[trigger] array_under(hooks, "preToolUse"@)[i],
                )
        },
{
    law_one_of_ours(entries_of(hooks_of(config), "preToolUse"@));
    match hooks_of(config) {
        JsonView::Object(hooks) => {
            assert(entries_of(hooks_of(config), "preToolUse"@) =~= array_under(
                hooks,
                "preToolUse"@,
            ));
        },
        _ => {},
    }
}

/// Any default agent that a user has set stays, whatever its name: settings whose chat settings
/// have a text that is not empty under `defaultAgent` are left as they are.
pub proof fn law_any_default_agent_stays(settings: JsonView, chat: JsonView, agent: Seq<char>)
    requires
        settings.field("chat"@) == Some(chat),
        chat.text_field("defaultAgent"@) == Some(agent),
        agent.len() > 0,
    ensures
        with_some_default_agent(settings) == settings,
{
}

/// Where no default agent is set, it becomes that of git-ai, and nothing else changes: settings
/// that are no object, or whose chat settings are none, stay as they are.
pub proof fn law_default_agent_is_set_exactly(settings: JsonView, key: Seq<char>)
    requires
        settings.field("chat"@) matches Some(chat) ==> !(chat.text_field(
            "defaultAgent"@,
        ) matches Some(agent) && agent.len() > 0),
    ensures
        !(settings is Object) ==> with_some_default_agent(settings) == settings,
        settings.field("chat"@) matches Some(chat) ==> (!(chat is Object)
            ==> with_some_default_agent(settings) == settings),
        settings matches JsonView::Object(members) ==> {
            let before = if members.contains_key("chat"@) {
                members["chat"@]
            } else {
                JsonView::Object(Map::empty())
            };
            before matches JsonView::Object(chat) ==> with_some_default_agent(settings)
                == JsonView::Object(
                members.insert(
                    "chat"@,
                    JsonView::Object(chat.insert("defaultAgent"@, JsonView::Text("git-ai"@))),
                ),
            )
        },
{
    if settings is Object {
        match settings.field("chat"@) {
            Some(chat) => {
                if !(chat is Object) {
                    assert(with_some_default_agent(settings)->Object_0 =~= settings->Object_0);
                }
            },
            None => {},
        }
    }
}

/// The command of a hook is the binary, a space and the subcommand; a home of the daemon that is
/// not empty is set in front of it.
pub proof fn law_command_of_a_hook(binary: Seq<char>, subcommand: Seq<char>, home: Seq<char>)
    ensures
        command_line(binary, subcommand, None) == binary + " "@ + subcommand,
        home.len() == 0 ==> command_line(binary, subcommand, Some(home)) == binary + " "@
            + subcommand,
        home.len() > 0 ==> command_line(binary, subcommand, Some(home)) == "GIT_AI_DAEMON_HOME="@
            + home + " "@ + (binary + " "@ + subcommand),
        KIRO_PRE_TOOL_CMD@ == "checkpoint kiro --hook-input stdin"@,
        KIRO_POST_TOOL_CMD@ == "checkpoint kiro --hook-input stdin"@,
        KIRO_AGENT_NAME@ == "git-ai"@,
{
}

/// A file of white space alone, or of nothing, stands for an empty object, any other for what its
/// text is parsed to.
pub proof fn law_config_in_a_file(content: Seq<char>)
    ensures
        (forall|i: int| 0 <= i < content.len() ==> white_space(#[trigger] content[i]))
            ==> config_outcome(content) == Ok::<JsonView, Seq<char>>(
            JsonView::Object(Map::empty()),
        ),
        (exists|i: int| 0 <= i < content.len() && !white_space(#[trigger] content[i]))
            ==> config_outcome(content) == parse_outcome(content),
{
}

/// What installing gives for a file: the error of the parser, or nothing where the config is as it
/// should be, or else the text of the config with the hooks.
pub proof fn law_installing_gives(
    res: Result<Option<String>, GitAiError>,
    content: Seq<char>,
    binary: Seq<char>,
    daemon_home: Option<Seq<char>>,
)
    requires
        installs(res, content, binary, daemon_home),
    ensures
        config_outcome(content) matches Err(message) ==> (res matches Err(
            GitAiError::JsonError(text),
        ) && text@ == message),
        config_outcome(content) matches Ok(before) ==> {
            let command = command_line(
                binary,
                "checkpoint kiro --hook-input stdin"@,
                daemon_home,
            );
            let after = merged(before, command, command);
            if after == before {
                res == Ok::<Option<String>, GitAiError>(None)
            } else {
                res matches Ok(Some(written)) && written@ == printed_text(after) && parse_outcome(
                    written@,
                ) == Ok::<JsonView, Seq<char>>(reread(after))
            }
        },
{
}

/// What ensuring a default agent gives for a file: the error of the parser, or nothing where the
/// settings are as they should be, or else the text of the new settings.
pub proof fn law_ensuring_default_agent_gives(
    res: Result<Option<String>, GitAiError>,
    content: Seq<char>,
)
    requires
        sets_default_agent(res, content),
    ensures
        config_outcome(content) matches Err(message) ==> (res matches Err(
            GitAiError::JsonError(text),
        ) && text@ == message),
        config_outcome(content) matches Ok(before) ==> {
            let after = with_some_default_agent(before);
            if after == before {
                res == Ok::<Option<String>, GitAiError>(None)
            } else {
                res matches Ok(Some(written)) && written@ == printed_text(after) && parse_outcome(
                    written@,
                ) == Ok::<JsonView, Seq<char>>(reread(after))
            }
        },
{
}

/// What uninstalling gives for a file: the error of the parser, a blank file included, or nothing
/// where no entry runs git-ai, or else the text of the config without the hooks.
pub proof fn law_uninstalling_gives(res: Result<Option<String>, GitAiError>, content: Seq<char>)
    requires
        uninstalls(res, content),
    ensures
        parse_outcome(content) matches Err(message) ==> (res matches Err(
            GitAiError::JsonError(text),
        ) && text@ == message),
        parse_outcome(content) matches Ok(before) ==> {
            let after = unmerged(before);
            if after == before {
                res == Ok::<Option<String>, GitAiError>(None)
            } else {
                res matches Ok(Some(written)) && written@ == printed_text(after) && parse_outcome(
                    written@,
                ) == Ok::<JsonView, Seq<char>>(reread(after))
            }
        },
{
}

/// What checking answers: the tool is there with its program or its directory; the hooks are there,
/// and up to date, where the tool is there and the config file, if it can be parsed, has them.
pub proof fn law_checking_answers(
    has_binary: bool,
    has_dotfiles: bool,
    text: Seq<char>,
    config: JsonView,
    message: Seq<char>,
)
    ensures
        checked(has_binary, has_dotfiles, None) == (HookCheckResult {
            tool_installed: has_binary || has_dotfiles,
            hooks_installed: false,
            hooks_up_to_date: false,
        }),
        parse_outcome(text) == Err::<JsonView, Seq<char>>(message) ==> checked(
            has_binary,
            has_dotfiles,
            Some(text),
        ) == checked(has_binary, has_dotfiles, None),
        parse_outcome(text) == Ok::<JsonView, Seq<char>>(config) ==> checked(
            has_binary,
            has_dotfiles,
            Some(text),
        ) == (HookCheckResult {
            tool_installed: has_binary || has_dotfiles,
            hooks_installed: (has_binary || has_dotfiles) && installed(config),
            hooks_up_to_date: (has_binary || has_dotfiles) && installed(config),
        }),
{
}

} // verus!
