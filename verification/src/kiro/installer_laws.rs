//! What holds of installing, uninstalling and checking the Kiro hooks together.
use vstd::prelude::*;

use crate::error::GitAiError;
use crate::json::JsonView;
use crate::json_text::{
    has_float, law_without_floats_nothing_changes, lemma_reread_field, lemma_reread_with_field,
    parse_outcome, reread,
};
use crate::kiro::installer::{
    checked, checkpoint_command, command_line, config_outcome, configured, default_agent_set,
    entries_of, has_ours, hook_entry, hooks_of, hooks_with, hooks_without, installed, installs,
    law_merge_changes_what_is_incomplete, lemma_config_keys, lemma_default_agent, lemma_others,
    lemma_unmerged, merged, others, our_entry, sets_default_agent, uninstalls, unmerged, with_hook,
    with_some_default_agent, HookCheckResult, KIRO_AGENT_NAME, KIRO_POST_TOOL_CMD, KIRO_PRE_TOOL_CMD,
};
use crate::text::{blank, occurs_at, occurs_in};

verus! {

/// The entry that runs a checkpoint command is one of ours.
proof fn lemma_hook_entry(command: Seq<char>)
    requires
        checkpoint_command(command),
    ensures
        our_entry(hook_entry(command)),
{
    lemma_config_keys();
    assert(hook_entry(command).text_field("command"@) == Some(command));
}

/// Once a checkpoint command is among the entries, one of them is ours.
proof fn lemma_with_hook(entries: Seq<JsonView>, command: Seq<char>)
    requires
        checkpoint_command(command),
    ensures
        has_ours(with_hook(entries, command)),
{
    lemma_hook_entry(command);
    if !has_ours(entries) {
        let longer = with_hook(entries, command);
        assert(our_entry(longer[entries.len() as int]));
    }
}

/// The members of a merged config, each on its own.
proof fn lemma_merged_fields(
    existing: JsonView,
    pre_tool_cmd: Seq<char>,
    post_tool_cmd: Seq<char>,
)
    requires
        existing is Object,
    ensures
        merged(existing, pre_tool_cmd, post_tool_cmd) is Object,
        merged(existing, pre_tool_cmd, post_tool_cmd).field("hooks"@) == Some(
            hooks_with(
                hooks_with(hooks_of(existing), "preToolUse"@, pre_tool_cmd),
                "postToolUse"@,
                post_tool_cmd,
            ),
        ),
        hooks_of(existing) is Object ==> {
            let hooks = hooks_of(merged(existing, pre_tool_cmd, post_tool_cmd));
            &&& hooks is Object
            &&& hooks.field("preToolUse"@) == Some(
                JsonView::Array(
                    with_hook(entries_of(hooks_of(existing), "preToolUse"@), pre_tool_cmd),
                ),
            )
            &&& hooks.field("postToolUse"@) == Some(
                JsonView::Array(
                    with_hook(entries_of(hooks_of(existing), "postToolUse"@), post_tool_cmd),
                ),
            )
        },
        !(hooks_of(existing) is Object) ==> hooks_of(merged(existing, pre_tool_cmd, post_tool_cmd))
            == hooks_of(existing),
{
    lemma_config_keys();
}

/// Installing twice is installing once: a config that the hooks were merged into is not changed
/// by merging hooks again.
pub proof fn law_install_is_idempotent(
    existing: JsonView,
    pre_tool_cmd: Seq<char>,
    post_tool_cmd: Seq<char>,
    later_pre_tool_cmd: Seq<char>,
    later_post_tool_cmd: Seq<char>,
)
    requires
        checkpoint_command(pre_tool_cmd),
        checkpoint_command(post_tool_cmd),
    ensures
        merged(
            merged(existing, pre_tool_cmd, post_tool_cmd),
            later_pre_tool_cmd,
            later_post_tool_cmd,
        ) == merged(existing, pre_tool_cmd, post_tool_cmd),
{
    let once = merged(existing, pre_tool_cmd, post_tool_cmd);
    lemma_config_keys();
    if existing is Object {
        lemma_merged_fields(existing, pre_tool_cmd, post_tool_cmd);
        lemma_with_hook(entries_of(hooks_of(existing), "preToolUse"@), pre_tool_cmd);
        lemma_with_hook(entries_of(hooks_of(existing), "postToolUse"@), post_tool_cmd);
        assert(configured(once));
    }
    law_merge_changes_what_is_incomplete(once, later_pre_tool_cmd, later_post_tool_cmd);
}

/// Installing keeps what the user set: every other member of the config, a name and a description
/// that are there, and hooks that are no object.
pub proof fn law_install_keeps_user_fields(
    existing: JsonView,
    pre_tool_cmd: Seq<char>,
    post_tool_cmd: Seq<char>,
    key: Seq<char>,
)
    ensures
        key != "hooks"@ && key != "name"@ && key != "description"@ ==> merged(
            existing,
            pre_tool_cmd,
            post_tool_cmd,
        ).field(key) == existing.field(key),
        existing.text_field("name"@) matches Some(name) ==> name.len() > 0 ==> merged(
            existing,
            pre_tool_cmd,
            post_tool_cmd,
        ).text_field("name"@) == Some(name),
        existing.field("description"@) is Some ==> merged(
            existing,
            pre_tool_cmd,
            post_tool_cmd,
        ).field("description"@) == existing.field("description"@),
        existing.field("hooks"@) matches Some(hooks) ==> !(hooks is Object) ==> merged(
            existing,
            pre_tool_cmd,
            post_tool_cmd,
        ).field("hooks"@) == Some(hooks),
{
    lemma_config_keys();
}

/// Installing keeps the user's hooks: hooks of other types are untouched, and the entries that
/// were there stay in front, in order, with at most one behind them.
pub proof fn law_install_keeps_user_hooks(
    existing: JsonView,
    pre_tool_cmd: Seq<char>,
    post_tool_cmd: Seq<char>,
    hook_type: Seq<char>,
)
    requires
        existing is Object,
        hooks_of(existing) is Object,
    ensures
        ({
            let before = hooks_of(existing);
            let after = hooks_of(merged(existing, pre_tool_cmd, post_tool_cmd));
            &&& hook_type != "preToolUse"@ && hook_type != "postToolUse"@ ==> after.field(hook_type)
                == before.field(hook_type)
            &&& entries_of(before, hook_type).is_prefix_of(entries_of(after, hook_type))
            &&& entries_of(after, hook_type).len() <= entries_of(before, hook_type).len() + 1
        }),
{
    lemma_config_keys();
    lemma_merged_fields(existing, pre_tool_cmd, post_tool_cmd);
    let before = entries_of(hooks_of(existing), hook_type);
    let after = entries_of(hooks_of(merged(existing, pre_tool_cmd, post_tool_cmd)), hook_type);
    if hook_type != "preToolUse"@ && hook_type != "postToolUse"@ {
        assert(after == before);
    }
    assert(before =~= after.subrange(0, before.len() as int));
}

/// After installing, the hooks are found, before a tool and behind it; a fresh config gets exactly
/// one entry for each.
pub proof fn law_install_installs(
    existing: JsonView,
    pre_tool_cmd: Seq<char>,
    post_tool_cmd: Seq<char>,
)
    requires
        existing is Object,
        hooks_of(existing) is Object,
        checkpoint_command(pre_tool_cmd),
        checkpoint_command(post_tool_cmd),
    ensures
        installed(merged(existing, pre_tool_cmd, post_tool_cmd)),
        has_ours(
            entries_of(
                hooks_of(merged(existing, pre_tool_cmd, post_tool_cmd)),
                "postToolUse"@,
            ),
        ),
        existing == JsonView::empty_object() ==> {
            let fresh = merged(existing, pre_tool_cmd, post_tool_cmd);
            &&& entries_of(hooks_of(fresh), "preToolUse"@) == seq![hook_entry(pre_tool_cmd)]
            &&& entries_of(hooks_of(fresh), "postToolUse"@) == seq![hook_entry(post_tool_cmd)]
            &&& fresh.text_field("name"@) == Some(KIRO_AGENT_NAME@)
        },
{
    lemma_config_keys();
    lemma_merged_fields(existing, pre_tool_cmd, post_tool_cmd);
    lemma_with_hook(entries_of(hooks_of(existing), "preToolUse"@), pre_tool_cmd);
    lemma_with_hook(entries_of(hooks_of(existing), "postToolUse"@), post_tool_cmd);
    if existing == JsonView::empty_object() {
        let fresh = merged(existing, pre_tool_cmd, post_tool_cmd);
        let none = Seq::<JsonView>::empty();
        assert(!has_ours(none));
        assert(none.push(hook_entry(pre_tool_cmd)) =~= seq![hook_entry(pre_tool_cmd)]);
        assert(none.push(hook_entry(post_tool_cmd)) =~= seq![hook_entry(post_tool_cmd)]);
    }
}

/// The entries for either hook type after uninstalling are those that do not run git-ai.
proof fn lemma_unmerged_entries(existing: JsonView)
    ensures
        entries_of(hooks_of(unmerged(existing)), "preToolUse"@) == others(
            entries_of(hooks_of(existing), "preToolUse"@),
        ),
        entries_of(hooks_of(unmerged(existing)), "postToolUse"@) == others(
            entries_of(hooks_of(existing), "postToolUse"@),
        ),
{
    lemma_config_keys();
    let pre_entries = entries_of(hooks_of(existing), "preToolUse"@);
    let post_entries = entries_of(hooks_of(existing), "postToolUse"@);
    match existing.field("hooks"@) {
        Some(hooks) => {
            let pre = hooks_without(hooks, "preToolUse"@);
            let both = hooks_without(pre, "postToolUse"@);
            assert(entries_of(pre, "postToolUse"@) == post_entries);
            assert(entries_of(both, "preToolUse"@) == others(pre_entries));
            assert(entries_of(both, "postToolUse"@) == others(post_entries));
            assert(unmerged(existing).field("hooks"@) == Some(both));
        },
        None => {
            assert(pre_entries =~= others(pre_entries));
            assert(post_entries =~= others(post_entries));
        },
    }
}

/// After uninstalling no hook entry runs git-ai, and uninstalling again changes nothing.
pub proof fn law_uninstall_removes_ours(existing: JsonView)
    ensures
        !installed(unmerged(existing)),
        !has_ours(entries_of(hooks_of(unmerged(existing)), "preToolUse"@)),
        !has_ours(entries_of(hooks_of(unmerged(existing)), "postToolUse"@)),
        unmerged(unmerged(existing)) == unmerged(existing),
{
    lemma_unmerged_entries(existing);
    lemma_others(entries_of(hooks_of(existing), "preToolUse"@));
    lemma_others(entries_of(hooks_of(existing), "postToolUse"@));
    lemma_unmerged(unmerged(existing));
}

/// Uninstalling keeps everything else: all other members of the config, hooks of other types, and
/// of the entries those that do not run git-ai, in order.
pub proof fn law_uninstall_keeps_the_rest(existing: JsonView, key: Seq<char>)
    ensures
        key != "hooks"@ ==> unmerged(existing).field(key) == existing.field(key),
        key != "preToolUse"@ && key != "postToolUse"@ ==> hooks_of(unmerged(existing)).field(key)
            == hooks_of(existing).field(key),
        entries_of(hooks_of(unmerged(existing)), "preToolUse"@) == others(
            entries_of(hooks_of(existing), "preToolUse"@),
        ),
        entries_of(hooks_of(unmerged(existing)), "postToolUse"@) == others(
            entries_of(hooks_of(existing), "postToolUse"@),
        ),
{
    lemma_config_keys();
    lemma_unmerged_entries(existing);
}

/// One more entry of ours is taken out with the others.
proof fn lemma_others_with_hook(entries: Seq<JsonView>, command: Seq<char>)
    requires
        checkpoint_command(command),
    ensures
        others(with_hook(entries, command)) == others(entries),
{
    lemma_hook_entry(command);
    assert(entries.push(hook_entry(command)).drop_last() =~= entries);
}

/// Uninstalling undoes installing: the entries that were there before, and did not run git-ai, are
/// left.
pub proof fn law_uninstall_undoes_install(
    existing: JsonView,
    pre_tool_cmd: Seq<char>,
    post_tool_cmd: Seq<char>,
)
    requires
        existing is Object,
        hooks_of(existing) is Object,
        checkpoint_command(pre_tool_cmd),
        checkpoint_command(post_tool_cmd),
    ensures
        ({
            let back = hooks_of(unmerged(merged(existing, pre_tool_cmd, post_tool_cmd)));
            let before = hooks_of(existing);
            &&& entries_of(back, "preToolUse"@) == others(entries_of(before, "preToolUse"@))
            &&& entries_of(back, "postToolUse"@) == others(entries_of(before, "postToolUse"@))
            &&& !has_ours(entries_of(before, "preToolUse"@)) ==> entries_of(back, "preToolUse"@)
                == entries_of(before, "preToolUse"@)
            &&& !has_ours(entries_of(before, "postToolUse"@)) ==> entries_of(back, "postToolUse"@)
                == entries_of(before, "postToolUse"@)
        }),
{
    lemma_merged_fields(existing, pre_tool_cmd, post_tool_cmd);
    lemma_unmerged_entries(merged(existing, pre_tool_cmd, post_tool_cmd));
    lemma_others_with_hook(entries_of(hooks_of(existing), "preToolUse"@), pre_tool_cmd);
    lemma_others_with_hook(entries_of(hooks_of(existing), "postToolUse"@), post_tool_cmd);
    lemma_others(entries_of(hooks_of(existing), "preToolUse"@));
    lemma_others(entries_of(hooks_of(existing), "postToolUse"@));
}

/// A config that a user has completed: named and described, with entries for both hook types, none
/// of which runs git-ai.
pub open spec fn complete_without_ours(config: JsonView) -> bool {
    &&& config.text_field("name"@) matches Some(name) && name.len() > 0
    &&& config.field("description"@) is Some
    &&& hooks_of(config).field("preToolUse"@) matches Some(JsonView::Array(entries)) && !has_ours(
        entries,
    )
    &&& hooks_of(config).field("postToolUse"@) matches Some(JsonView::Array(entries)) && !has_ours(
        entries,
    )
}

/// Uninstalling undoes installing altogether where there was nothing to install but the hooks: the
/// config is the one that was there before.
pub proof fn law_uninstall_restores_the_config(
    existing: JsonView,
    pre_tool_cmd: Seq<char>,
    post_tool_cmd: Seq<char>,
)
    requires
        complete_without_ours(existing),
        checkpoint_command(pre_tool_cmd),
        checkpoint_command(post_tool_cmd),
    ensures
        merged(existing, pre_tool_cmd, post_tool_cmd) != existing,
        unmerged(merged(existing, pre_tool_cmd, post_tool_cmd)) == existing,
{
    lemma_config_keys();
    let hooks = hooks_of(existing);
    let pre_entries = entries_of(hooks, "preToolUse"@);
    let post_entries = entries_of(hooks, "postToolUse"@);
    lemma_others_with_hook(pre_entries, pre_tool_cmd);
    lemma_others_with_hook(post_entries, post_tool_cmd);
    lemma_others(pre_entries);
    lemma_others(post_entries);
    law_merge_changes_what_is_incomplete(existing, pre_tool_cmd, post_tool_cmd);
    let pre = hooks_with(hooks, "preToolUse"@, pre_tool_cmd);
    let both = hooks_with(pre, "postToolUse"@, post_tool_cmd);
    let config = existing.with_field("hooks"@, both);
    assert(merged(existing, pre_tool_cmd, post_tool_cmd) == config);
    let stripped = hooks_without(both, "preToolUse"@);
    let back = hooks_without(stripped, "postToolUse"@);
    assert(entries_of(pre, "postToolUse"@) == post_entries);
    assert(both.field("preToolUse"@) == Some(JsonView::Array(with_hook(pre_entries, pre_tool_cmd))));
    assert(both.field("postToolUse"@) == Some(
        JsonView::Array(with_hook(post_entries, post_tool_cmd)),
    ));
    assert(back->Object_0 =~= hooks->Object_0);
    assert(unmerged(config)->Object_0 =~= existing->Object_0);
}

/// A default agent of the user's is never overwritten, and no other member of the settings or of
/// the chat settings is changed.
pub proof fn law_default_agent_is_kept(settings: JsonView, key: Seq<char>)
    ensures
        default_agent_set(settings) ==> with_some_default_agent(settings) == settings,
        key != "chat"@ ==> with_some_default_agent(settings).field(key) == settings.field(key),
        key != "defaultAgent"@ ==> (settings.field("chat"@) matches Some(chat)
            ==> with_some_default_agent(settings).field("chat"@) matches Some(after) && after.field(
            key,
        ) == chat.field(key)),
{
}

/// Where none is set, and the settings are objects, the git-ai agent becomes the default agent;
/// and then a default agent is set.
pub proof fn law_default_agent_becomes_set(settings: JsonView)
    requires
        settings is Object,
        settings.field("chat"@) matches Some(chat) ==> chat is Object,
    ensures
        default_agent_set(with_some_default_agent(settings)),
        !default_agent_set(settings) ==> (with_some_default_agent(settings).field(
            "chat"@,
        ) matches Some(chat) && chat.text_field("defaultAgent"@) == Some(KIRO_AGENT_NAME@)),
{
    lemma_config_keys();
}

/// Ensuring a default agent twice is ensuring it once.
pub proof fn law_default_agent_is_idempotent(settings: JsonView)
    ensures
        with_some_default_agent(with_some_default_agent(settings)) == with_some_default_agent(
            settings,
        ),
{
    lemma_default_agent(settings);
    if settings is Object && !(settings.field("chat"@) matches Some(chat) && !(chat is Object)) {
        law_default_agent_becomes_set(settings);
    }
}

/// What stands in a part of a text stands in the text.
proof fn lemma_occurs_around(needle: Seq<char>, left: Seq<char>, text: Seq<char>, right: Seq<char>)
    requires
        occurs_in(needle, text),
    ensures
        occurs_in(needle, left + text + right),
{
    let at = choose|at: int| #[trigger] occurs_at(needle, text, at);
    let whole = left + text + right;
    assert(whole.subrange(left.len() + at, left.len() + at + needle.len()) =~= text.subrange(
        at,
        at + needle.len(),
    ));
    assert(occurs_at(needle, whole, left.len() + at));
}

/// The commands that are installed for a binary whose path names git-ai are recognised.
pub proof fn law_installed_commands_are_recognised(
    binary: Seq<char>,
    daemon_home: Option<Seq<char>>,
)
    requires
        occurs_in("git-ai"@, binary),
    ensures
        checkpoint_command(command_line(binary, KIRO_PRE_TOOL_CMD@, daemon_home)),
        checkpoint_command(command_line(binary, KIRO_POST_TOOL_CMD@, daemon_home)),
{
    let base = binary + " "@ + KIRO_PRE_TOOL_CMD@;
    assert(occurs_at("checkpoint"@, KIRO_PRE_TOOL_CMD@, 0)) by {
        reveal_strlit("checkpoint");
        reveal_strlit("checkpoint kiro --hook-input stdin");
        assert(KIRO_PRE_TOOL_CMD@.subrange(0, 10) =~= "checkpoint"@);
    }
    let none = Seq::<char>::empty();
    lemma_occurs_around("git-ai"@, none, binary, " "@ + KIRO_PRE_TOOL_CMD@);
    assert(none + binary + (" "@ + KIRO_PRE_TOOL_CMD@) =~= base);
    lemma_occurs_around("checkpoint"@, binary + " "@, KIRO_PRE_TOOL_CMD@, none);
    assert(binary + " "@ + KIRO_PRE_TOOL_CMD@ + none =~= base);
    match daemon_home {
        Some(home) => {
            let prefix = "GIT_AI_DAEMON_HOME="@ + home + " "@;
            lemma_occurs_around("git-ai"@, prefix, base, none);
            lemma_occurs_around("checkpoint"@, prefix, base, none);
            assert(prefix + base + none =~= prefix + base);
        },
        None => {},
    }
}

/// A hook entry that was read back runs git-ai where it did before.
proof fn lemma_reread_entries(entries: Seq<JsonView>)
    ensures
        reread(JsonView::Array(entries)) is Array,
        reread(JsonView::Array(entries))->Array_0.len() == entries.len(),
        forall|i: int|
            0 <= i < entries.len() ==> our_entry(
                #[trigger] reread(JsonView::Array(entries))->Array_0[i],
            ) == our_entry(entries[i]),
        has_ours(reread(JsonView::Array(entries))->Array_0) == has_ours(entries),
{
    let again = reread(JsonView::Array(entries))->Array_0;
    assert forall|i: int| 0 <= i < entries.len() implies our_entry(#[trigger] again[i])
        == our_entry(entries[i]) by {
        assert(again[i] == reread(entries[i]));
        lemma_reread_field(entries[i], "command"@);
    }
    if has_ours(entries) {
        let i = choose|i: int| 0 <= i < entries.len() && our_entry(#[trigger] entries[i]);
        assert(our_entry(again[i]));
    }
    if has_ours(again) {
        let i = choose|i: int| 0 <= i < again.len() && our_entry(#[trigger] again[i]);
        assert(our_entry(entries[i]));
    }
}

/// The hooks of a config that was read back are the hooks, read back.
proof fn lemma_reread_hooks(config: JsonView)
    ensures
        hooks_of(reread(config)) == reread(hooks_of(config)),
{
    lemma_reread_field(config, "hooks"@);
    assert(reread(JsonView::empty_object())->Object_0 =~= Map::empty());
}

/// The entries of hooks that were read back are the entries, read back.
proof fn lemma_reread_entries_of(hooks: JsonView, hook_type: Seq<char>)
    ensures
        entries_of(reread(hooks), hook_type) == reread(
            JsonView::Array(entries_of(hooks, hook_type)),
        )->Array_0,
        has_ours(entries_of(reread(hooks), hook_type)) == has_ours(entries_of(hooks, hook_type)),
{
    lemma_reread_field(hooks, hook_type);
    lemma_reread_entries(entries_of(hooks, hook_type));
    let again = reread(JsonView::Array(entries_of(hooks, hook_type)))->Array_0;
    assert(entries_of(reread(hooks), hook_type) =~= again);
}

/// Reading a config back changes nothing of what is installed in it.
proof fn lemma_reread_config(config: JsonView)
    ensures
        configured(reread(config)) == configured(config),
        installed(reread(config)) == installed(config),
{
    lemma_reread_hooks(config);
    lemma_reread_field(config, "hooks"@);
    lemma_reread_field(config, "name"@);
    lemma_reread_field(config, "description"@);
    lemma_reread_field(hooks_of(config), "preToolUse"@);
    lemma_reread_entries_of(hooks_of(config), "preToolUse"@);
    lemma_reread_entries_of(hooks_of(config), "postToolUse"@);
}

/// Taking our entries out and reading back can be done in either order.
proof fn lemma_reread_others(entries: Seq<JsonView>)
    ensures
        others(reread(JsonView::Array(entries))->Array_0) == reread(
            JsonView::Array(others(entries)),
        )->Array_0,
    decreases entries.len(),
{
    let again = reread(JsonView::Array(entries))->Array_0;
    let left = reread(JsonView::Array(others(entries)))->Array_0;
    if entries.len() == 0 {
        assert(others(again) =~= left);
    } else {
        let rest = entries.drop_last();
        lemma_reread_others(rest);
        lemma_reread_entries(entries);
        assert(again.drop_last() =~= reread(JsonView::Array(rest))->Array_0);
        assert(again.last() == reread(entries.last()));
        assert(our_entry(again[entries.len() - 1]) == our_entry(entries[entries.len() - 1]));
        assert(others(again) =~= left);
    }
}

/// Taking our entries for a hook type out and reading back can be done in either order.
proof fn lemma_reread_hooks_without(hooks: JsonView, hook_type: Seq<char>)
    ensures
        hooks_without(reread(hooks), hook_type) == reread(hooks_without(hooks, hook_type)),
{
    lemma_reread_field(hooks, hook_type);
    match hooks.field(hook_type) {
        Some(JsonView::Array(entries)) => {
            lemma_reread_others(entries);
            lemma_reread_with_field(hooks, hook_type, JsonView::Array(others(entries)));
        },
        _ => {},
    }
}

/// Uninstalling and reading back can be done in either order.
proof fn lemma_reread_unmerged(config: JsonView)
    ensures
        unmerged(reread(config)) == reread(unmerged(config)),
{
    lemma_reread_field(config, "hooks"@);
    match config.field("hooks"@) {
        Some(hooks) => {
            let pre = hooks_without(hooks, "preToolUse"@);
            lemma_reread_hooks_without(hooks, "preToolUse"@);
            lemma_reread_hooks_without(pre, "postToolUse"@);
            lemma_reread_with_field(config, "hooks"@, hooks_without(pre, "postToolUse"@));
        },
        None => {},
    }
}

/// The text of a file after what an operation gave was written to it, where it gave something.
pub open spec fn file_after(before: Seq<char>, res: Result<Option<String>, GitAiError>) -> Seq<
    char,
> {
    match res {
        Ok(Some(written)) => written@,
        _ => before,
    }
}

/// What the config file says once the hooks were installed, and that there is nothing left to
/// install.
proof fn lemma_installed_file(
    content: Seq<char>,
    binary: Seq<char>,
    daemon_home: Option<Seq<char>>,
    res: Result<Option<String>, GitAiError>,
)
    requires
        installs(res, content, binary, daemon_home),
        res is Ok,
        checkpoint_command(command_line(binary, KIRO_PRE_TOOL_CMD@, daemon_home)),
        checkpoint_command(command_line(binary, KIRO_POST_TOOL_CMD@, daemon_home)),
    ensures
        config_outcome(content) is Ok,
        ({
            let pre = command_line(binary, KIRO_PRE_TOOL_CMD@, daemon_home);
            let post = command_line(binary, KIRO_POST_TOOL_CMD@, daemon_home);
            let after = merged(config_outcome(content)->Ok_0, pre, post);
            &&& !blank(file_after(content, res))
            &&& parse_outcome(file_after(content, res)) == Ok::<JsonView, Seq<char>>(
                if res matches Ok(None) {
                    after
                } else {
                    reread(after)
                },
            )
            &&& configured(after)
        }),
{
    let pre = command_line(binary, KIRO_PRE_TOOL_CMD@, daemon_home);
    let post = command_line(binary, KIRO_POST_TOOL_CMD@, daemon_home);
    let existing = config_outcome(content)->Ok_0;
    let after = merged(existing, pre, post);
    law_install_is_idempotent(existing, pre, post, pre, post);
    law_merge_changes_what_is_incomplete(after, pre, post);
    law_merge_changes_what_is_incomplete(existing, pre, post);
}

/// Installing a second time changes nothing, whatever the binary and the home of the daemon are by
/// now: the config file that the first installation left stays as it is.
pub proof fn law_installing_twice_changes_nothing(
    content: Seq<char>,
    binary: Seq<char>,
    daemon_home: Option<Seq<char>>,
    first: Result<Option<String>, GitAiError>,
    later_binary: Seq<char>,
    later_daemon_home: Option<Seq<char>>,
    second: Result<Option<String>, GitAiError>,
)
    requires
        installs(first, content, binary, daemon_home),
        first is Ok,
        checkpoint_command(command_line(binary, KIRO_PRE_TOOL_CMD@, daemon_home)),
        checkpoint_command(command_line(binary, KIRO_POST_TOOL_CMD@, daemon_home)),
        installs(second, file_after(content, first), later_binary, later_daemon_home),
    ensures
        second == Ok::<Option<String>, GitAiError>(None),
        file_after(file_after(content, first), second) == file_after(content, first),
{
    let pre = command_line(binary, KIRO_PRE_TOOL_CMD@, daemon_home);
    let post = command_line(binary, KIRO_POST_TOOL_CMD@, daemon_home);
    lemma_installed_file(content, binary, daemon_home, first);
    lemma_reread_config(merged(config_outcome(content)->Ok_0, pre, post));
    law_merge_changes_what_is_incomplete(
        config_outcome(file_after(content, first))->Ok_0,
        command_line(later_binary, KIRO_PRE_TOOL_CMD@, later_daemon_home),
        command_line(later_binary, KIRO_POST_TOOL_CMD@, later_daemon_home),
    );
}

/// Ensuring a default agent a second time changes nothing: the settings file that the first time
/// left stays as it is.
pub proof fn law_ensuring_default_agent_twice_changes_nothing(
    content: Seq<char>,
    first: Result<Option<String>, GitAiError>,
    second: Result<Option<String>, GitAiError>,
)
    requires
        sets_default_agent(first, content),
        first is Ok,
        sets_default_agent(second, file_after(content, first)),
    ensures
        second == Ok::<Option<String>, GitAiError>(None),
        file_after(file_after(content, first), second) == file_after(content, first),
{
    let settings = config_outcome(content)->Ok_0;
    let after = with_some_default_agent(settings);
    law_default_agent_is_idempotent(settings);
    lemma_default_agent(after);
    lemma_default_agent(reread(after));
    lemma_reread_field(after, "chat"@);
    match after.field("chat"@) {
        Some(chat) => {
            lemma_reread_field(chat, "defaultAgent"@);
        },
        None => {},
    }
}

/// Uninstalling undoes installing: a config file whose config a user had completed says again what
/// it said before. Each of the two times it was written and read, a float may have become another;
/// a config without floats is there again as it was.
pub proof fn law_uninstalling_restores_the_file(
    content: Seq<char>,
    existing: JsonView,
    binary: Seq<char>,
    daemon_home: Option<Seq<char>>,
    first: Result<Option<String>, GitAiError>,
    second: Result<Option<String>, GitAiError>,
)
    requires
        config_outcome(content) == Ok::<JsonView, Seq<char>>(existing),
        complete_without_ours(existing),
        checkpoint_command(command_line(binary, KIRO_PRE_TOOL_CMD@, daemon_home)),
        checkpoint_command(command_line(binary, KIRO_POST_TOOL_CMD@, daemon_home)),
        installs(first, content, binary, daemon_home),
        uninstalls(second, file_after(content, first)),
    ensures
        first matches Ok(Some(_)),
        second matches Ok(Some(_)),
        ({
            let file = file_after(file_after(content, first), second);
            &&& parse_outcome(file) == Ok::<JsonView, Seq<char>>(reread(reread(existing)))
            &&& reread(existing) == existing ==> parse_outcome(file) == Ok::<JsonView, Seq<char>>(
                existing,
            )
            &&& !has_float(existing) ==> parse_outcome(file) == Ok::<JsonView, Seq<char>>(existing)
        }),
{
    let pre = command_line(binary, KIRO_PRE_TOOL_CMD@, daemon_home);
    let post = command_line(binary, KIRO_POST_TOOL_CMD@, daemon_home);
    let after = merged(existing, pre, post);
    law_uninstall_restores_the_config(existing, pre, post);
    lemma_installed_file(content, binary, daemon_home, first);
    lemma_reread_unmerged(after);
    assert(unmerged(reread(after)) == reread(existing));
    lemma_reread_config(after);
    law_uninstall_removes_ours(reread(after));
    if hooks_of(existing) is Object {
        law_install_installs(existing, pre, post);
    }
    if !has_float(existing) {
        law_without_floats_nothing_changes(existing);
    }
}

/// Checking finds the hooks once they were installed, and no longer finds them once they were
/// uninstalled.
pub proof fn law_checking_follows_installing_and_uninstalling(
    content: Seq<char>,
    binary: Seq<char>,
    daemon_home: Option<Seq<char>>,
    first: Result<Option<String>, GitAiError>,
    second: Result<Option<String>, GitAiError>,
    has_binary: bool,
    has_dotfiles: bool,
)
    requires
        config_outcome(content) matches Ok(existing) && existing is Object && hooks_of(
            existing,
        ) is Object,
        checkpoint_command(command_line(binary, KIRO_PRE_TOOL_CMD@, daemon_home)),
        checkpoint_command(command_line(binary, KIRO_POST_TOOL_CMD@, daemon_home)),
        installs(first, content, binary, daemon_home),
        first is Ok,
        has_binary || has_dotfiles,
    ensures
        ({
            let file = file_after(content, first);
            &&& checked(has_binary, has_dotfiles, Some(file)) == (HookCheckResult {
                tool_installed: true,
                hooks_installed: true,
                hooks_up_to_date: true,
            })
            &&& uninstalls(second, file) && second is Ok ==> checked(
                has_binary,
                has_dotfiles,
                Some(file_after(file, second)),
            ) == (HookCheckResult {
                tool_installed: true,
                hooks_installed: false,
                hooks_up_to_date: false,
            })
        }),
{
    let pre = command_line(binary, KIRO_PRE_TOOL_CMD@, daemon_home);
    let post = command_line(binary, KIRO_POST_TOOL_CMD@, daemon_home);
    let existing = config_outcome(content)->Ok_0;
    let after = merged(existing, pre, post);
    lemma_installed_file(content, binary, daemon_home, first);
    law_install_installs(existing, pre, post);
    lemma_reread_config(after);
    let config = parse_outcome(file_after(content, first))->Ok_0;
    law_uninstall_removes_ours(config);
    lemma_reread_config(unmerged(config));
}

} // verus!
