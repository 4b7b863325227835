use git_ai::authorship::attribution::LineAttribution;
use git_ai::authorship::hunk_shift::DiffHunk;
use git_ai::authorship::log::{
    AttestationEntry, AuthorshipLog, FileAttestation, HumanRecord, LineRange, PromptRecord,
    SessionRecord,
};
use git_ai::authorship::reset_run::{
    reconstruct_working_log_after_backward_reset, OldLog, ResetAction, ResetEvent, ResetOutcome,
    ResetRun,
};
use git_ai::authorship::undone::{
    blob_requests, changed_blobs, diff_pairs, usable_logs, CommitLog, Note, TreeContent,
};
use git_ai::authorship::working_log::{
    append_checkpoints, blobs_of_checkpoints, supplement, Checkpoint, InitialAttributions,
};
use git_ai::error::GitAiError;
use git_ai::string_map::StringMap;

fn text(t: &str) -> String {
    t.to_string()
}

fn texts(list: &[&str]) -> Vec<String> {
    list.iter().map(|t| t.to_string()).collect()
}

fn pairs(list: &[(&str, &str)]) -> Vec<(String, String)> {
    list.iter().map(|(a, b)| (a.to_string(), b.to_string())).collect()
}

fn lines(start: u32, end: u32, author: &str) -> LineAttribution {
    LineAttribution::new(start, end, author.to_string(), None)
}

fn shape(list: &[LineAttribution]) -> Vec<(u32, u32, String)> {
    list.iter().map(|a| (a.start_line, a.end_line, a.author_id.clone())).collect()
}

fn log_of(path: &str, hash: &str, start: u32, end: u32) -> AuthorshipLog {
    let mut log = AuthorshipLog::new();
    let mut attestation = FileAttestation::new(text(path));
    attestation.add_entry(AttestationEntry::new(text(hash), vec![LineRange::Range(start, end)]));
    log.attestations.push(attestation);
    log.metadata.prompts.insert(text("p"), PromptRecord { record: text(hash) });
    log
}

fn content(treeish: &str, path: &str, content: &str) -> TreeContent {
    TreeContent { treeish: text(treeish), path: text(path), content: text(content) }
}

fn checkpoint(shas: &[&str], record: &str) -> Checkpoint {
    Checkpoint { blob_shas: texts(shas), record: text(record) }
}

fn records(list: &[Checkpoint]) -> Vec<String> {
    list.iter().map(|c| c.record.clone()).collect()
}

fn no_initial() -> InitialAttributions {
    InitialAttributions {
        files: StringMap::new(),
        prompts: StringMap::new(),
        humans: StringMap::new(),
        sessions: StringMap::new(),
        file_blobs: StringMap::new(),
    }
}

fn initial_of(path: &str, author: &str, blob: &str) -> InitialAttributions {
    let mut initial = no_initial();
    initial.files.insert(text(path), vec![lines(1, 2, author)]);
    initial.file_blobs.insert(text(path), text(blob));
    initial.prompts.insert(text("p"), PromptRecord { record: text(author) });
    initial
}

fn step(run: ResetRun, event: ResetEvent) -> (ResetRun, ResetAction) {
    reconstruct_working_log_after_backward_reset(run, event)
}

/// A run that has asked for the notes of the commits.
fn at_notes(commits: &[&str]) -> ResetRun {
    let (run, action) = ResetRun::start("old", "new");
    match action {
        ResetAction::ListCommits { base, tip } => {
            assert_eq!((base.as_str(), tip.as_str()), ("new", "old"))
        }
        _ => panic!("expected ListCommits"),
    }
    let (run, action) = step(run, ResetEvent::Commits(texts(commits)));
    match action {
        ResetAction::ReadNotes { commits: asked } => assert_eq!(asked, commits),
        _ => panic!("expected ReadNotes"),
    }
    run
}

/// A run that has asked for the contents of `f`, which the old tip attributes.
fn at_contents() -> ResetRun {
    let run = at_notes(&["old"]);
    let mut notes = StringMap::new();
    notes.insert(text("old"), Note::Log(log_of("f", "ai", 1, 3)));
    let (run, action) = step(run, ResetEvent::Notes(Ok(notes)));
    match action {
        ResetAction::ReadContents { requests } => {
            assert_eq!(requests, pairs(&[("old", "f"), ("new", "f")]))
        }
        _ => panic!("expected ReadContents"),
    }
    run
}

/// A run that has asked for the working log of the old tip.
fn at_old_log() -> ResetRun {
    let contents = vec![content("old", "f", "x"), content("new", "f", "y")];
    let (run, action) = step(at_contents(), ResetEvent::Contents(Ok(contents)));
    match action {
        ResetAction::WriteInitial(write) => {
            assert_eq!(write.base, "new");
            assert_eq!(
                shape(write.files.get("f").unwrap()),
                vec![(1, 3, text("ai"))]
            );
            assert_eq!(write.file_blobs.get("f").unwrap(), "x");
            assert_eq!(write.prompts.get("p").unwrap().record, "ai");
            assert!(write.humans.is_empty());
            assert!(write.sessions.is_empty());
        }
        _ => panic!("expected WriteInitial"),
    }
    let (run, action) = step(run, ResetEvent::InitialWritten(Ok(())));
    match action {
        ResetAction::ReadOldLog { base } => assert_eq!(base, "old"),
        _ => panic!("expected ReadOldLog"),
    }
    run
}

fn expect_end(run: ResetRun, action: ResetAction, outcome: ResetOutcome) {
    match action {
        ResetAction::DeleteWorkingLog { base } => assert_eq!(base, "old"),
        _ => panic!("expected DeleteWorkingLog"),
    }
    let (_, action) = step(run, ResetEvent::Tried);
    match action {
        ResetAction::Finish(Ok(end)) => assert_eq!(end, outcome),
        _ => panic!("expected Finish"),
    }
}

fn expect_outcome(action: ResetAction, outcome: ResetOutcome) {
    match action {
        ResetAction::Finish(Ok(end)) => assert_eq!(end, outcome),
        _ => panic!("expected Finish"),
    }
}

fn expect_failure(action: ResetAction) {
    match action {
        ResetAction::Finish(Err(GitAiError::Generic(message))) => assert_eq!(message, "no"),
        _ => panic!("expected an error"),
    }
}

fn failure<T>() -> Result<T, GitAiError> {
    Err(GitAiError::Generic(text("no")))
}

#[test]
fn nothing_to_do_without_commits() {
    let (run, _) = ResetRun::start("old", "new");
    let (_, action) = step(run, ResetEvent::Commits(vec![]));
    expect_outcome(action, ResetOutcome::NoCommits);
}

#[test]
fn nothing_to_do_without_readable_notes() {
    let mut notes = StringMap::new();
    notes.insert(text("c1"), Note::Unreadable);
    notes.insert(text("elsewhere"), Note::Log(log_of("f", "ai", 1, 3)));
    let (_, action) = step(at_notes(&["c1", "old"]), ResetEvent::Notes(Ok(notes)));
    expect_outcome(action, ResetOutcome::NoNotes);
}

#[test]
fn nothing_to_do_without_attributions() {
    let mut notes = StringMap::new();
    notes.insert(text("old"), Note::Log(AuthorshipLog::new()));
    let (_, action) = step(at_notes(&["old"]), ResetEvent::Notes(Ok(notes)));
    expect_outcome(action, ResetOutcome::NoAttributions);
}

#[test]
fn old_log_is_deleted_where_nothing_differs() {
    let contents = vec![content("old", "f", "x"), content("new", "f", "x")];
    let (run, action) = step(at_contents(), ResetEvent::Contents(Ok(contents)));
    expect_end(run, action, ResetOutcome::NoDifference);
    let (run, action) = step(at_contents(), ResetEvent::Contents(Ok(vec![])));
    expect_end(run, action, ResetOutcome::NoDifference);
    let empty = vec![content("old", "f", ""), content("new", "f", "x")];
    let (run, action) = step(at_contents(), ResetEvent::Contents(Ok(empty)));
    expect_end(run, action, ResetOutcome::NoDifference);
}

#[test]
fn errors_end_the_run() {
    expect_failure(step(at_notes(&["old"]), ResetEvent::Notes(failure())).1);
    expect_failure(step(at_contents(), ResetEvent::Contents(failure())).1);
    let contents = vec![content("old", "f", "x")];
    let (run, _) = step(at_contents(), ResetEvent::Contents(Ok(contents)));
    expect_failure(step(run, ResetEvent::InitialWritten(failure())).1);
    let mut notes = StringMap::new();
    notes.insert(text("c1"), Note::Log(log_of("f", "ai", 1, 3)));
    let (run, _) = step(at_notes(&["c1"]), ResetEvent::Notes(Ok(notes)));
    expect_failure(step(run, ResetEvent::Diffs(failure())).1);
}

#[test]
fn earlier_commits_are_diffed_against_the_old_tip() {
    let mut notes = StringMap::new();
    notes.insert(text("old"), Note::Log(log_of("f", "late", 4, 4)));
    notes.insert(text("c1"), Note::Log(log_of("f", "early", 1, 3)));
    notes.insert(text("c2"), Note::Unreadable);
    let (run, action) = step(at_notes(&["c1", "c2", "old"]), ResetEvent::Notes(Ok(notes)));
    match action {
        ResetAction::DiffTrees { pairs: asked } => assert_eq!(asked, pairs(&[("c1", "old")])),
        _ => panic!("expected DiffTrees"),
    }
    let mut diff = StringMap::new();
    let hunk = DiffHunk { old_start: 1, old_count: 0, new_start: 2, new_count: 1 };
    diff.insert(text("f"), vec![hunk]);
    let (run, action) = step(run, ResetEvent::Diffs(Ok(vec![diff])));
    assert!(matches!(action, ResetAction::ReadContents { .. }));
    let (_, action) = step(run, ResetEvent::Contents(Ok(vec![content("old", "f", "x")])));
    match action {
        ResetAction::WriteInitial(write) => {
            assert_eq!(
                shape(write.files.get("f").unwrap()),
                vec![(1, 1, text("early")), (3, 3, text("early")), (4, 4, text("late"))]
            );
            assert_eq!(write.prompts.get("p").unwrap().record, "early");
        }
        _ => panic!("expected WriteInitial"),
    }
}

#[test]
fn rebuild_without_an_old_log() {
    let (run, action) = step(at_old_log(), ResetEvent::OldLog(OldLog::Absent));
    expect_end(run, action, ResetOutcome::Rebuilt);
    let (run, action) = step(at_old_log(), ResetEvent::OldLog(OldLog::Unreadable));
    expect_end(run, action, ResetOutcome::Rebuilt);
    let empty = OldLog::Found { initial: no_initial(), checkpoints: vec![] };
    let (run, action) = step(at_old_log(), ResetEvent::OldLog(empty));
    expect_end(run, action, ResetOutcome::Rebuilt);
}

#[test]
fn rebuild_takes_the_old_log_over() {
    let mut initial = initial_of("g", "uncommitted", "sha-g");
    initial.files.insert(text("f"), vec![lines(9, 9, "ignored")]);
    initial.file_blobs.insert(text("f"), text("sha-f"));
    let found = OldLog::Found {
        initial,
        checkpoints: vec![checkpoint(&["s1", "", "s2"], "old-1"), checkpoint(&["s1"], "old-2")],
    };
    let (run, action) = step(at_old_log(), ResetEvent::OldLog(found));
    match action {
        ResetAction::ReadTargetInitial { base } => assert_eq!(base, "new"),
        _ => panic!("expected ReadTargetInitial"),
    }
    let target = initial_of("f", "ai", "sha-t");
    let (run, action) = step(run, ResetEvent::TargetInitial(target));
    match action {
        ResetAction::SupplementInitial { base, copy_blobs, write } => {
            assert_eq!(base, "new");
            assert_eq!(copy_blobs, texts(&["sha-g"]));
            let merged = write.unwrap();
            assert_eq!(shape(merged.files.get("f").unwrap()), vec![(1, 2, text("ai"))]);
            assert_eq!(shape(merged.files.get("g").unwrap()), vec![(1, 2, text("uncommitted"))]);
            assert_eq!(merged.file_blobs.get("f").unwrap(), "sha-t");
            assert_eq!(merged.file_blobs.get("g").unwrap(), "sha-g");
            assert_eq!(merged.prompts.get("p").unwrap().record, "ai");
        }
        _ => panic!("expected SupplementInitial"),
    }
    let (run, action) = step(run, ResetEvent::Tried);
    match action {
        ResetAction::ReadTargetCheckpoints { base } => assert_eq!(base, "new"),
        _ => panic!("expected ReadTargetCheckpoints"),
    }
    let target = vec![checkpoint(&["t"], "new-1")];
    let (run, action) = step(run, ResetEvent::TargetCheckpoints(target));
    match action {
        ResetAction::WriteCheckpoints { base, copy_blobs, checkpoints } => {
            assert_eq!(base, "new");
            assert_eq!(copy_blobs, texts(&["s1", "s2", "s1"]));
            assert_eq!(records(&checkpoints), texts(&["new-1", "old-1", "old-2"]));
        }
        _ => panic!("expected WriteCheckpoints"),
    }
    let (run, action) = step(run, ResetEvent::Tried);
    expect_end(run, action, ResetOutcome::Rebuilt);
}

#[test]
fn checkpoints_alone_are_taken_over() {
    let found = OldLog::Found { initial: no_initial(), checkpoints: vec![checkpoint(&[], "c")] };
    let (_, action) = step(at_old_log(), ResetEvent::OldLog(found));
    assert!(matches!(action, ResetAction::ReadTargetCheckpoints { .. }));
}

#[test]
fn supplement_writes_only_what_was_missing() {
    let mut other = initial_of("f", "old", "sha-o");
    other.humans.insert(text("h"), HumanRecord { record: text("old") });
    let res = supplement(initial_of("f", "new", "sha-n"), &other);
    assert!(res.write.is_none());
    assert!(res.copy_blobs.is_empty());

    other.files.insert(text("g"), vec![]);
    other.sessions.insert(text("s"), SessionRecord { record: text("old") });
    let mut target = initial_of("f", "new", "sha-n");
    target.file_blobs.insert(text("g"), text("sha-left"));
    let res = supplement(target, &other);
    let merged = res.write.unwrap();
    assert!(res.copy_blobs.is_empty());
    assert!(merged.files.get("g").unwrap().is_empty());
    assert_eq!(merged.file_blobs.get("g").unwrap(), "sha-left");
    assert_eq!(merged.humans.get("h").unwrap().record, "old");
    assert_eq!(merged.sessions.get("s").unwrap().record, "old");
    assert_eq!(merged.prompts.get("p").unwrap().record, "new");
}

#[test]
fn checkpoints_are_appended() {
    let merged = append_checkpoints(
        vec![checkpoint(&["a"], "1")],
        vec![checkpoint(&["", "b"], "2"), checkpoint(&[], "3")],
    );
    assert_eq!(records(&merged), texts(&["1", "2", "3"]));
    assert_eq!(blobs_of_checkpoints(&merged), texts(&["a", "b"]));
}

#[test]
fn logs_follow_the_order_of_the_commits() {
    let mut notes = StringMap::new();
    notes.insert(text("b"), Note::Log(AuthorshipLog::new()));
    notes.insert(text("a"), Note::Log(AuthorshipLog::new()));
    notes.insert(text("x"), Note::Unreadable);
    let logs = usable_logs(&texts(&["a", "x", "none", "b"]), &notes);
    let shas: Vec<&str> = logs.iter().map(|l: &CommitLog| l.sha.as_str()).collect();
    assert_eq!(shas, vec!["a", "b"]);
    assert_eq!(diff_pairs(&logs, "b"), pairs(&[("a", "b")]));
    assert_eq!(diff_pairs(&logs, "t"), pairs(&[("a", "t"), ("b", "t")]));
}

#[test]
fn contents_are_compared_file_by_file() {
    let mut files: StringMap<Vec<LineAttribution>> = StringMap::new();
    for path in ["same", "changed", "added", "gone", "empty"] {
        files.insert(text(path), vec![]);
    }
    let requests = blob_requests(&files, "o", "n");
    assert_eq!(requests.len(), 10);
    assert_eq!(requests[2], (text("o"), text("changed")));
    assert_eq!(requests[3], (text("n"), text("changed")));
    let contents = vec![
        content("o", "same", "s"),
        content("n", "same", "s"),
        content("o", "changed", "1"),
        content("n", "changed", "2"),
        content("o", "added", "a"),
        content("n", "gone", "g"),
        content("o", "empty", ""),
        content("n", "empty", "e"),
        content("o", "other", "z"),
    ];
    let blobs = changed_blobs(&files, &contents, "o", "n");
    assert_eq!(blobs.len(), 2);
    assert_eq!(blobs.get("changed").unwrap(), "1");
    assert_eq!(blobs.get("added").unwrap(), "a");
}

#[test]
fn commit_without_a_readable_note_does_not_matter() {
    let notes = || {
        let mut notes = StringMap::new();
        notes.insert(text("x"), Note::Unreadable);
        notes.insert(text("old"), Note::Log(log_of("f", "ai", 1, 3)));
        notes
    };
    for commits in [vec!["old"], vec!["x", "old"], vec!["none", "old", "x"]] {
        let (_, action) = step(at_notes(&commits), ResetEvent::Notes(Ok(notes())));
        match action {
            ResetAction::ReadContents { requests } => {
                assert_eq!(requests, pairs(&[("old", "f"), ("new", "f")]))
            }
            _ => panic!("expected ReadContents"),
        }
    }
}
