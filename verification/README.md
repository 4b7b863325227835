# git-ai: Kiro support

Verified parts of git-ai, the tool that keeps track of which lines of a repository an AI wrote.

- `src/kiro`: the hooks that Kiro CLI runs: putting them into its configuration and taking them
  out again (`installer`, `installer_laws`), and reading what they report (`preset`,
  `hook_input`).
- `src/authorship`: attributions of lines (`attribution`), carried over diffs (`hunk_shift`) and
  taken from authorship notes (`log`, `rewrite_reset`, `undone`); the working log that is rebuilt
  from them after a backward `git reset` (`working_log`), step by step (`reset_run`).
- `src/json`, `src/json_text`: JSON documents, and their text through `serde_json`.
- `src/string_map`, `src/text`, `src/path`, `src/views`: maps by text, texts, paths, views.

Every function in `src` is verified with Verus. What is believed without proof are the items in
`src/json.rs` and `src/json_text.rs` that call `serde_json`; each says what it claims.

`app` holds the files, the environment, git and the log output around the library.
