use git_ai::authorship::attribution::{overlay, overlay_all, LineAttribution};
use git_ai::authorship::hunk_shift::{apply_hunk_shifts_to_line_attributions, DiffHunk};
use git_ai::authorship::log::{
    AttestationEntry, AuthorshipLog, FileAttestation, HumanRecord, LineRange, PromptRecord,
    SessionRecord,
};
use git_ai::authorship::rewrite_reset::{
    extract_attributions_from_log_shifted, list_commits_in_range,
};
use git_ai::string_map::StringMap;

fn lines(start: u32, end: u32, author: &str) -> LineAttribution {
    LineAttribution::new(start, end, author.to_string(), None)
}

fn shape(list: &[LineAttribution]) -> Vec<(u32, u32, String)> {
    list.iter().map(|a| (a.start_line, a.end_line, a.author_id.clone())).collect()
}

fn hunk(old_start: u32, old_count: u32, new_start: u32, new_count: u32) -> DiffHunk {
    DiffHunk { old_start, old_count, new_start, new_count }
}

fn attested(path: &str, entries: Vec<(&str, Vec<LineRange>)>) -> AuthorshipLog {
    let mut log = AuthorshipLog::new();
    let mut attestation = FileAttestation::new(path.to_string());
    for (hash, ranges) in entries {
        attestation.add_entry(AttestationEntry::new(hash.to_string(), ranges));
    }
    log.attestations.push(attestation);
    log
}

#[test]
fn newer_lines_override() {
    let result = overlay(vec![lines(1, 5, "a"), lines(6, 9, "b")], lines(4, 7, "c"));
    assert_eq!(
        shape(&result),
        vec![(1, 3, "a".to_string()), (8, 9, "b".to_string()), (4, 7, "c".to_string())]
    );
}

#[test]
fn covered_lines_leave_and_others_stay() {
    let existing = vec![lines(2, 3, "a"), lines(8, 9, "b"), lines(1, 1, "c")];
    let result = overlay(existing, lines(2, 4, "n"));
    assert_eq!(
        shape(&result),
        vec![(8, 9, "b".to_string()), (1, 1, "c".to_string()), (2, 4, "n".to_string())]
    );
}

#[test]
fn trimmed_lines_keep_what_they_overrode() {
    let old = LineAttribution::new(1, 3, "a".to_string(), Some("x".to_string()));
    let result = overlay(vec![old], lines(2, 2, "n"));
    assert_eq!(result.len(), 3);
    assert_eq!(result[0].overrode.as_deref(), Some("x"));
    assert_eq!(result[1].overrode.as_deref(), Some("x"));
    assert_eq!((result[1].start_line, result[1].end_line), (3, 3));
    assert!(result[2].overrode.is_none());
}

#[test]
fn last_line_number_does_not_overflow() {
    let max = u32::MAX;
    let result = overlay(vec![lines(0, max, "a")], lines(5, max, "b"));
    assert_eq!(shape(&result), vec![(0, 4, "a".to_string()), (5, max, "b".to_string())]);
    let result = overlay(vec![lines(0, max, "a")], lines(0, max - 1, "b"));
    assert_eq!(shape(&result), vec![(max, max, "a".to_string()), (0, max - 1, "b".to_string())]);
}

#[test]
fn inverted_range_splits_with_an_overlap() {
    let result = overlay(vec![lines(1, 10, "a")], lines(5, 3, "b"));
    assert_eq!(
        shape(&result),
        vec![(1, 4, "a".to_string()), (4, 10, "a".to_string()), (5, 3, "b".to_string())]
    );
}

#[test]
fn last_of_several_decides() {
    let result = overlay_all(vec![lines(1, 9, "a")], vec![lines(2, 6, "b"), lines(4, 4, "c")]);
    assert_eq!(
        shape(&result),
        vec![
            (1, 1, "a".to_string()),
            (7, 9, "a".to_string()),
            (2, 3, "b".to_string()),
            (5, 6, "b".to_string()),
            (4, 4, "c".to_string()),
        ]
    );
    for line in 1..10 {
        let owners = result.iter().filter(|a| a.start_line <= line && line <= a.end_line).count();
        assert_eq!(owners, 1);
    }
}

#[test]
fn hunks_move_and_cut_lines() {
    let moved = |from: u32, to: u32, hunks: Vec<DiffHunk>| {
        shape(&apply_hunk_shifts_to_line_attributions(&vec![lines(from, to, "a")], &hunks))
    };
    let a = || "a".to_string();
    assert_eq!(moved(3, 5, vec![]), vec![(3, 5, a())]);
    assert_eq!(moved(3, 5, vec![hunk(0, 0, 1, 2)]), vec![(5, 7, a())]);
    assert_eq!(moved(3, 5, vec![hunk(3, 0, 4, 1)]), vec![(3, 3, a()), (5, 6, a())]);
    assert_eq!(moved(3, 5, vec![hunk(4, 1, 4, 1)]), vec![(3, 3, a()), (5, 5, a())]);
    assert_eq!(moved(3, 5, vec![hunk(1, 2, 0, 0)]), vec![(1, 3, a())]);
    assert_eq!(moved(3, 5, vec![hunk(2, 5, 2, 1)]), vec![]);
    assert_eq!(moved(3, 5, vec![hunk(6, 1, 6, 9)]), vec![(3, 5, a())]);
    assert_eq!(
        moved(1, 9, vec![hunk(2, 1, 2, 3), hunk(6, 2, 8, 0)]),
        vec![(1, 1, a()), (5, 7, a()), (8, 9, a())]
    );
}

#[test]
fn entries_are_carried_over_the_diff_of_their_file() {
    let log = attested(
        "f.txt",
        vec![("a", vec![LineRange::Range(3, 4)]), ("b", vec![LineRange::Single(9)])],
    );
    let mut diff = StringMap::new();
    diff.insert("f.txt".to_string(), vec![hunk(1, 0, 2, 10)]);
    let mut files = StringMap::new();
    files.insert("f.txt".to_string(), vec![lines(14, 20, "old")]);
    files.insert("g.txt".to_string(), vec![lines(1, 1, "other")]);
    let (mut prompts, mut sessions, mut humans) =
        (StringMap::new(), StringMap::new(), StringMap::new());
    extract_attributions_from_log_shifted(
        &log,
        Some(&diff),
        &mut files,
        &mut prompts,
        &mut sessions,
        &mut humans,
    );
    assert_eq!(
        shape(files.get("f.txt").unwrap()),
        vec![
            (13, 14, "a".to_string()),
            (15, 18, "old".to_string()),
            (20, 20, "old".to_string()),
            (19, 19, "b".to_string()),
        ]
    );
    assert_eq!(shape(files.get("g.txt").unwrap()), vec![(1, 1, "other".to_string())]);
    assert_eq!(files.len(), 2);
}

#[test]
fn diffs_of_other_files_do_not_matter() {
    let log = attested("f.txt", vec![("a", vec![LineRange::Range(3, 4)])]);
    let mut diff = StringMap::new();
    diff.insert("g.txt".to_string(), vec![hunk(1, 0, 2, 10)]);
    diff.insert("f.txt".to_string(), vec![]);
    let mut files = StringMap::new();
    extract_attributions_from_log_shifted(
        &log,
        Some(&diff),
        &mut files,
        &mut StringMap::new(),
        &mut StringMap::new(),
        &mut StringMap::new(),
    );
    assert_eq!(shape(files.get("f.txt").unwrap()), vec![(3, 4, "a".to_string())]);
}

#[test]
fn attestation_without_entries_names_the_file() {
    let mut files = StringMap::new();
    extract_attributions_from_log_shifted(
        &attested("f.txt", vec![]),
        None,
        &mut files,
        &mut StringMap::new(),
        &mut StringMap::new(),
        &mut StringMap::new(),
    );
    assert!(files.get("f.txt").unwrap().is_empty());
}

#[test]
fn first_record_of_a_key_is_kept() {
    let mut log = AuthorshipLog::new();
    let text = |t: &str| t.to_string();
    log.metadata.prompts.insert(text("p"), PromptRecord { record: text("new") });
    log.metadata.prompts.insert(text("q"), PromptRecord { record: text("new") });
    log.metadata.sessions.insert(text("s"), SessionRecord { record: text("new") });
    log.metadata.humans.insert(text("h"), HumanRecord { record: text("new") });
    let (mut prompts, mut sessions, mut humans) =
        (StringMap::new(), StringMap::new(), StringMap::new());
    prompts.insert(text("p"), PromptRecord { record: text("first") });
    sessions.insert(text("s"), SessionRecord { record: text("first") });
    extract_attributions_from_log_shifted(
        &log,
        None,
        &mut StringMap::new(),
        &mut prompts,
        &mut sessions,
        &mut humans,
    );
    assert_eq!(prompts.get("p").unwrap().record, "first");
    assert_eq!(prompts.get("q").unwrap().record, "new");
    assert_eq!(sessions.get("s").unwrap().record, "first");
    assert_eq!(humans.get("h").unwrap().record, "new");
}

#[test]
fn commits_are_the_words_of_a_listing() {
    assert_eq!(list_commits_in_range("c1\nc2\r\n\n c3"), vec!["c1", "c2", "c3"]);
    assert!(list_commits_in_range(" \n").is_empty());
    assert!(list_commits_in_range("").is_empty());
}
