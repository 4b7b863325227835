//! Rebuilding a working log after a backward reset.
//!
//! After `git reset` to an older commit the working tree may still hold the content of the newer
//! one. The attributions of the commits that were undone are collected from their notes, so that
//! the next commit keeps them.
use vstd::prelude::*;

use crate::authorship::attribution::{
    all_valid, credits, each_line_once, last_about, law_last_newer_decides,
    law_overlays_attribute_once, law_overlays_stay_valid, overlaid_all, overlay_all, LineAttribution, LineAttributionView,
};
use crate::authorship::hunk_shift::{
    all_shifted, apply_hunk_shifts_to_line_attributions, law_shift_stays_valid, DiffHunk,
};
use crate::authorship::log::{
    AttestationEntry, AttestationEntryView, AuthorshipLog, FileAttestation, FileAttestationView,
    HumanRecord, LineRange, PromptRecord, SessionRecord,
};
use crate::string_map::StringMap;
use crate::text::{split_words, words_of};
use crate::views::{lemma_push_view, views};

verus! {

/// The attributions of each file.
pub type FileAttributions = Map<Seq<char>, Seq<LineAttributionView>>;

/// The hunks of a diff, for each file that it changes.
pub type FileHunks = Map<Seq<char>, Seq<DiffHunk>>;

/// The lines of one range, attributed to `hash`.
pub open spec fn range_attribution(range: LineRange, hash: Seq<char>) -> LineAttributionView {
    LineAttributionView {
        start_line: range.start(),
        end_line: range.end(),
        author_id: hash,
        overrode: None,
    }
}

/// The attributions that one entry of a file stands for: one for each of its ranges.
pub open spec fn entry_attributions(entry: AttestationEntryView) -> Seq<LineAttributionView> {
    entry.line_ranges.map_values(|range: LineRange| range_attribution(range, entry.hash))
}

/// The attributions that the entries of a file stand for, in order.
pub open spec fn raw_attributions(entries: Seq<AttestationEntryView>) -> Seq<LineAttributionView>
    decreases entries.len(),
{
    if entries.len() == 0 {
        Seq::empty()
    } else {
        raw_attributions(entries.drop_last()) + entry_attributions(entries.last())
    }
}

/// The attributions of the file at `path` carried over its hunks, where there are any.
pub open spec fn carried_over(
    attributions: Seq<LineAttributionView>,
    hunks_by_file: Option<FileHunks>,
    path: Seq<char>,
) -> Seq<LineAttributionView> {
    match hunks_by_file {
        Some(hunks) => if hunks.contains_key(path) && hunks[path].len() > 0 {
            all_shifted(attributions, hunks[path])
        } else {
            attributions
        },
        None => attributions,
    }
}

/// What is attributed in the file at `path`.
pub open spec fn attributed(files: FileAttributions, path: Seq<char>) -> Seq<LineAttributionView> {
    if files.contains_key(path) {
        files[path]
    } else {
        Seq::empty()
    }
}

/// `files` after the attestation of one file is laid over them.
pub open spec fn with_attestation(
    files: FileAttributions,
    attestation: FileAttestationView,
    hunks_by_file: Option<FileHunks>,
) -> FileAttributions {
    files.insert(
        attestation.file_path,
        overlaid_all(
            attributed(files, attestation.file_path),
            carried_over(
                raw_attributions(attestation.entries),
                hunks_by_file,
                attestation.file_path,
            ),
        ),
    )
}

/// `files` after the attestations of a log are laid over them, one after the other.
pub open spec fn with_attestations(
    files: FileAttributions,
    attestations: Seq<FileAttestationView>,
    hunks_by_file: Option<FileHunks>,
) -> FileAttributions
    decreases attestations.len(),
{
    if attestations.len() == 0 {
        files
    } else {
        with_attestation(
            with_attestations(files, attestations.drop_last(), hunks_by_file),
            attestations.last(),
            hunks_by_file,
        )
    }
}

/// Adds the attributions that one entry stands for to `out`.
fn push_entry_attributions(out: &mut Vec<LineAttribution>, entry: &AttestationEntry)
    ensures
        views(final(out)@) == views(old(out)@) + entry_attributions(entry.deep_view()),
{
    let ghost before = views(out@);
    let ghost all = entry_attributions(entry.deep_view());
    let mut i: usize = 0;
    assert(before + all.take(0) =~= before);
    while i < entry.line_ranges.len()
        invariant
            i <= entry.line_ranges.len(),
            all == entry_attributions(entry.deep_view()),
            views(out@) == before + all.take(i as int),
        decreases entry.line_ranges.len() - i,
    {
        let (start, end) = match entry.line_ranges[i] {
            LineRange::Single(line) => (line, line),
            LineRange::Range(start, end) => (start, end),
        };
        let attribution = LineAttribution::new(start, end, entry.hash.clone(), None);
        proof {
            lemma_push_view(out@, attribution);
            assert(attribution.deep_view() == all[i as int]);
            assert(before + all.take(i + 1) =~= (before + all.take(i as int)).push(all[i as int]));
        }
        out.push(attribution);
        i = i + 1;
    }
    assert(all.take(i as int) =~= all);
}

/// The attributions that the entries of a file stand for.
fn collect_raw_attributions(attestation: &FileAttestation) -> (raw: Vec<LineAttribution>)
    ensures
        raw.deep_view() == raw_attributions(attestation.deep_view().entries),
{
    let ghost all = attestation.deep_view().entries;
    let mut raw: Vec<LineAttribution> = Vec::new();
    let mut i: usize = 0;
    while i < attestation.entries.len()
        invariant
            i <= attestation.entries.len(),
            all == attestation.deep_view().entries,
            views(raw@) == raw_attributions(all.take(i as int)),
        decreases attestation.entries.len() - i,
    {
        proof {
            assert(all.take(i + 1).drop_last() =~= all.take(i as int));
        }
        push_entry_attributions(&mut raw, &attestation.entries[i]);
        i = i + 1;
    }
    assert(all.take(i as int) =~= all);
    assert(views(raw@) =~= raw.deep_view());
    raw
}

/// What a map of hunks says, where there is one.
pub open spec fn hunks_view(hunks_by_file: Option<&StringMap<Vec<DiffHunk>>>) -> Option<FileHunks> {
    match hunks_by_file {
        Some(hunks) => Some(hunks@),
        None => None,
    }
}

/// Carries the attributions of the file at `path` over its hunks, where there are any.
fn carry_over(
    attributions: Vec<LineAttribution>,
    hunks_by_file: Option<&StringMap<Vec<DiffHunk>>>,
    path: &str,
) -> (result: Vec<LineAttribution>)
    ensures
        result.deep_view() == carried_over(
            attributions.deep_view(),
            hunks_view(hunks_by_file),
            path@,
        ),
{
    match hunks_by_file {
        Some(all_hunks) => match all_hunks.get(path) {
            Some(hunks) => {
                assert(hunks.deep_view() =~= hunks@);
                if hunks.len() > 0 {
                    apply_hunk_shifts_to_line_attributions(&attributions, hunks)
                } else {
                    attributions
                }
            },
            None => attributions,
        },
        None => attributions,
    }
}

/// Lays the attestations of a log over the attributions collected so far, and takes over the
/// records that are still missing. `hunks_by_file` is the diff from the commit of the log to the
/// commit in whose numbering the attributions are collected.
pub fn extract_attributions_from_log_shifted(
    log: &AuthorshipLog,
    hunks_by_file: Option<&StringMap<Vec<DiffHunk>>>,
    file_attributions: &mut StringMap<Vec<LineAttribution>>,
    prompts: &mut StringMap<PromptRecord>,
    sessions: &mut StringMap<SessionRecord>,
    humans: &mut StringMap<HumanRecord>,
)
    ensures
        final(file_attributions)@ == with_attestations(
            old(file_attributions)@,
            log.deep_view().attestations,
            hunks_view(hunks_by_file),
        ),
        final(prompts)@ == log.deep_view().prompts.union_prefer_right(old(prompts)@),
        final(sessions)@ == log.deep_view().sessions.union_prefer_right(old(sessions)@),
        final(humans)@ == log.deep_view().humans.union_prefer_right(old(humans)@),
{
    let ghost before = file_attributions@;
    let ghost all = log.deep_view().attestations;
    let ghost hunks = hunks_view(hunks_by_file);
    let mut i: usize = 0;
    while i < log.attestations.len()
        invariant
            i <= log.attestations.len(),
            all == log.deep_view().attestations,
            hunks == hunks_view(hunks_by_file),
            file_attributions@ == with_attestations(before, all.take(i as int), hunks),
        decreases log.attestations.len() - i,
    {
        let attestation = &log.attestations[i];
        let ghost here = file_attributions@;
        proof {
            assert(all.take(i + 1).drop_last() =~= all.take(i as int));
            assert(all.take(i + 1).last() == attestation.deep_view());
        }
        let raw = collect_raw_attributions(attestation);
        let carried = carry_over(raw, hunks_by_file, attestation.file_path.as_str());
        let existing = match file_attributions.remove(attestation.file_path.as_str()) {
            Some(existing) => existing,
            None => {
                let none: Vec<LineAttribution> = Vec::new();
                assert(none.deep_view() =~= Seq::<LineAttributionView>::empty());
                none
            },
        };
        let merged = overlay_all(existing, carried);
        file_attributions.insert(attestation.file_path.clone(), merged);
        proof {
            assert(file_attributions@ =~= with_attestation(here, attestation.deep_view(), hunks));
        }
        i = i + 1;
    }
    assert(all.take(i as int) =~= all);
    prompts.add_missing(&log.metadata.prompts);
    sessions.add_missing(&log.metadata.sessions);
    humans.add_missing(&log.metadata.humans);
}

/// The commits that a revision listing names, in the order of the listing. `listing` is what
/// `git rev-list --reverse base..tip` prints: the commits after `base` up to `tip`, the oldest
/// first.
pub fn list_commits_in_range(listing: &str) -> (commits: Vec<String>)
    ensures
        commits.deep_view() == words_of(listing@),
{
    split_words(listing)
}

/// The attestation of a file changes what is attributed in that file, and in no other.
pub proof fn law_attestation_concerns_its_file(
    files: FileAttributions,
    attestation: FileAttestationView,
    hunks_by_file: Option<FileHunks>,
    path: Seq<char>,
)
    ensures
        with_attestation(files, attestation, hunks_by_file).contains_key(attestation.file_path),
        path != attestation.file_path ==> attributed(
            with_attestation(files, attestation, hunks_by_file),
            path,
        ) == attributed(files, path),
        path != attestation.file_path ==> (with_attestation(
            files,
            attestation,
            hunks_by_file,
        ).contains_key(path) <==> files.contains_key(path)),
{
}

/// Later commits override earlier ones: of a line that the attestation of a file is about, its
/// last attribution decides; any other line stays with those who had it.
pub proof fn law_later_attestation_overrides(
    files: FileAttributions,
    attestation: FileAttestationView,
    hunks_by_file: Option<FileHunks>,
    line: int,
    author: Seq<char>,
    overrode: Option<Seq<char>>,
)
    requires
        ranges_valid(attestation),
    ensures
        ({
            let path = attestation.file_path;
            let newer = carried_over(raw_attributions(attestation.entries), hunks_by_file, path);
            let after = attributed(with_attestation(files, attestation, hunks_by_file), path);
            credits(after, line, author, overrode) <==> match last_about(newer, line) {
                Some(last) => last.author_id == author && last.overrode == overrode,
                None => credits(attributed(files, path), line, author, overrode),
            }
        }),
{
    lemma_carried_valid(attestation, hunks_by_file, attestation.file_path);
    law_last_newer_decides(
        attributed(files, attestation.file_path),
        carried_over(
            raw_attributions(attestation.entries),
            hunks_by_file,
            attestation.file_path,
        ),
        line,
        author,
        overrode,
    );
}

/// Every range of the attestation of a file has at least one line.
pub open spec fn ranges_valid(attestation: FileAttestationView) -> bool {
    forall|i: int, j: int|
        0 <= i < attestation.entries.len() && 0 <= j < attestation.entries[i].line_ranges.len()
            ==> (#[trigger] attestation.entries[i].line_ranges[j]).start()
            <= attestation.entries[i].line_ranges[j].end()
}

/// No line of any file is attributed twice.
pub open spec fn lines_once(files: FileAttributions) -> bool {
    forall|path: Seq<char>| #[trigger]
        files.contains_key(path) ==> each_line_once(files[path])
}

proof fn lemma_raw_valid(entries: Seq<AttestationEntryView>)
    requires
        forall|i: int, j: int|
            0 <= i < entries.len() && 0 <= j < entries[i].line_ranges.len() ==> (
            #[trigger] entries[i].line_ranges[j]).start() <= entries[i].line_ranges[j].end(),
    ensures
        all_valid(raw_attributions(entries)),
    decreases entries.len(),
{
    if entries.len() > 0 {
        let rest = entries.drop_last();
        assert(forall|i: int| 0 <= i < rest.len() ==> rest[i] == entries[i]);
        lemma_raw_valid(rest);
        let last = entry_attributions(entries.last());
        assert(all_valid(last)) by {
            assert forall|j: int| 0 <= j < last.len() implies (#[trigger] last[j]).start_line
                <= last[j].end_line by {
                assert(entries[entries.len() - 1].line_ranges[j].start()
                    <= entries[entries.len() - 1].line_ranges[j].end());
            }
        }
    }
}

/// The attributions of a valid attestation are about some lines, carried over hunks too.
pub proof fn lemma_carried_valid(
    attestation: FileAttestationView,
    hunks_by_file: Option<FileHunks>,
    path: Seq<char>,
)
    requires
        ranges_valid(attestation),
    ensures
        all_valid(carried_over(raw_attributions(attestation.entries), hunks_by_file, path)),
{
    lemma_raw_valid(attestation.entries);
    match hunks_by_file {
        Some(hunks) => {
            law_shift_stays_valid(raw_attributions(attestation.entries), hunks[path]);
        },
        None => {},
    }
}

/// The attestation of a file leaves no line attributed twice.
pub proof fn law_attestation_attributes_once(
    files: FileAttributions,
    attestation: FileAttestationView,
    hunks_by_file: Option<FileHunks>,
)
    requires
        lines_once(files),
        ranges_valid(attestation),
    ensures
        lines_once(with_attestation(files, attestation, hunks_by_file)),
{
    let path = attestation.file_path;
    let raw = raw_attributions(attestation.entries);
    lemma_carried_valid(attestation, hunks_by_file, path);
    assert(each_line_once(attributed(files, path)));
    law_overlays_attribute_once(
        attributed(files, path),
        carried_over(raw, hunks_by_file, path),
    );
}

/// A log leaves no line attributed twice.
pub proof fn law_log_attributes_once(
    files: FileAttributions,
    attestations: Seq<FileAttestationView>,
    hunks_by_file: Option<FileHunks>,
)
    requires
        lines_once(files),
        forall|i: int| 0 <= i < attestations.len() ==> ranges_valid(#[trigger] attestations[i]),
    ensures
        lines_once(with_attestations(files, attestations, hunks_by_file)),
    decreases attestations.len(),
{
    if attestations.len() > 0 {
        let rest = attestations.drop_last();
        assert(forall|i: int| 0 <= i < rest.len() ==> rest[i] == attestations[i]);
        law_log_attributes_once(files, rest, hunks_by_file);
        assert(ranges_valid(attestations[attestations.len() - 1]));
        law_attestation_attributes_once(
            with_attestations(files, rest, hunks_by_file),
            attestations.last(),
            hunks_by_file,
        );
    }
}

/// Every attribution of every file is about some lines.
pub open spec fn files_valid(files: FileAttributions) -> bool {
    forall|path: Seq<char>| #[trigger] files.contains_key(path) ==> all_valid(files[path])
}

/// A log leaves no attribution that is about no line.
pub proof fn law_log_stays_valid(
    files: FileAttributions,
    attestations: Seq<FileAttestationView>,
    hunks_by_file: Option<FileHunks>,
)
    requires
        files_valid(files),
        forall|i: int| 0 <= i < attestations.len() ==> ranges_valid(#[trigger] attestations[i]),
    ensures
        files_valid(with_attestations(files, attestations, hunks_by_file)),
    decreases attestations.len(),
{
    if attestations.len() > 0 {
        let rest = attestations.drop_last();
        let last = attestations.last();
        assert(forall|i: int| 0 <= i < rest.len() ==> rest[i] == attestations[i]);
        law_log_stays_valid(files, rest, hunks_by_file);
        assert(ranges_valid(attestations[attestations.len() - 1]));
        lemma_carried_valid(last, hunks_by_file, last.file_path);
        let before = with_attestations(files, rest, hunks_by_file);
        assert(all_valid(attributed(before, last.file_path)));
        law_overlays_stay_valid(
            attributed(before, last.file_path),
            carried_over(raw_attributions(last.entries), hunks_by_file, last.file_path),
        );
    }
}

} // verus!
