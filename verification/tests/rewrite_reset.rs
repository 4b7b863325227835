use git_ai::authorship::attribution::LineAttribution;
use git_ai::authorship::log::{AttestationEntry, AuthorshipLog, FileAttestation, LineRange};
use git_ai::authorship::rewrite_reset::extract_attributions_from_log_shifted;
use git_ai::string_map::StringMap;

fn log_with_single_entry(file: &str, hash: &str, start: u32, end: u32) -> AuthorshipLog {
    let mut log = AuthorshipLog::new();
    let mut fa = FileAttestation::new(file.to_string());
    fa.add_entry(AttestationEntry::new(
        hash.to_string(),
        vec![LineRange::Range(start, end)],
    ));
    log.attestations.push(fa);
    log
}

/// A range that a later commit puts strictly inside an earlier one splits it into head and tail.
#[test]
fn test_enclosed_range_preserves_head_and_tail() {
    let mut file_attributions: StringMap<Vec<LineAttribution>> = StringMap::new();
    let mut prompts = StringMap::new();
    let mut sessions = StringMap::new();
    let mut humans = StringMap::new();

    let old_log = log_with_single_entry("f.txt", "h_old", 1, 10);
    extract_attributions_from_log_shifted(
        &old_log,
        None,
        &mut file_attributions,
        &mut prompts,
        &mut sessions,
        &mut humans,
    );

    let new_log = log_with_single_entry("f.txt", "ai_new", 4, 6);
    extract_attributions_from_log_shifted(
        &new_log,
        None,
        &mut file_attributions,
        &mut prompts,
        &mut sessions,
        &mut humans,
    );

    let mut attrs = file_attributions.remove("f.txt").expect("f.txt present");
    attrs.sort_by_key(|a| a.start_line);

    assert_eq!(
        attrs.len(),
        3,
        "enclosed AI range must split the human range into head + tail, got: {:?}",
        attrs
    );
    assert_eq!((attrs[0].start_line, attrs[0].end_line), (1, 3));
    assert_eq!(attrs[0].author_id, "h_old");
    assert_eq!((attrs[1].start_line, attrs[1].end_line), (4, 6));
    assert_eq!(attrs[1].author_id, "ai_new");
    assert_eq!((attrs[2].start_line, attrs[2].end_line), (7, 10));
    assert_eq!(attrs[2].author_id, "h_old");
}
