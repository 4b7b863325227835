//! What the notes of the undone commits, and the contents of the files, mean for the attributions.
use vstd::prelude::*;

use crate::authorship::attribution::{
    all_valid, credits, last_about, law_last_newer_decides, overlaid_all, LineAttributionView,
};
use crate::authorship::hunk_shift::all_shifted;
use crate::authorship::log::{
    AttestationEntry, AttestationEntryView, AuthorshipLog, AuthorshipLogView, FileAttestation,
    FileAttestationView, HumanRecord, LineRange, PromptRecord, SessionRecord,
};
use crate::authorship::rewrite_reset::{
    attributed, carried_over, entry_attributions, lemma_carried_valid, range_attribution,
    ranges_valid, raw_attributions, with_attestation, with_attestations, FileAttributions, FileHunks,
};
use crate::authorship::undone::{
    collected, content_at, diff_from, differing_blobs, pairs_to, requests_for, usable, Collected,
    CollectedView, CommitLog, CommitLogView, Note, TreeContent, TreeContentView,
};
use crate::views::lemma_flat_step;

verus! {

/// The views of logs hold all that the logs hold.
pub proof fn law_log_views(
    prompt: PromptRecord,
    session: SessionRecord,
    human: HumanRecord,
    entry: AttestationEntry,
    attestation: FileAttestation,
    log: AuthorshipLog,
    commit: CommitLog,
)
    ensures
        prompt.deep_view() == prompt.record@,
        session.deep_view() == session.record@,
        human.deep_view() == human.record@,
        entry.deep_view().hash == entry.hash@,
        entry.deep_view().line_ranges == entry.line_ranges@,
        attestation.deep_view().file_path == attestation.file_path@,
        attestation.deep_view().entries.len() == attestation.entries@.len(),
        forall|i: int|
            #![trigger attestation.deep_view().entries[i]]
            0 <= i < attestation.entries@.len() ==> attestation.deep_view().entries[i]
                == attestation.entries@[i].deep_view(),
        log.deep_view().attestations.len() == log.attestations@.len(),
        forall|i: int|
            #![trigger log.deep_view().attestations[i]]
            0 <= i < log.attestations@.len() ==> log.deep_view().attestations[i]
                == log.attestations@[i].deep_view(),
        log.deep_view().prompts == log.metadata.prompts@,
        log.deep_view().sessions == log.metadata.sessions@,
        log.deep_view().humans == log.metadata.humans@,
        commit.deep_view().sha == commit.sha@,
        commit.deep_view().log == commit.log.deep_view(),
        Note::Log(log).deep_view() == Some(log.deep_view()),
        Note::Unreadable.deep_view() is None,
{
}

/// The views of what was collected, and of contents, hold all that was collected and read.
pub proof fn law_collected_views(all: Collected, content: TreeContent)
    ensures
        all.deep_view().files == all.files@,
        all.deep_view().prompts == all.prompts@,
        all.deep_view().sessions == all.sessions@,
        all.deep_view().humans == all.humans@,
        content.deep_view().treeish == content.treeish@,
        content.deep_view().path == content.path@,
        content.deep_view().content == content.content@,
{
}

/// `line` lies in the range `j` of the entry `i`.
pub open spec fn in_range(attestation: FileAttestationView, i: int, j: int, line: int) -> bool {
    &&& 0 <= i < attestation.entries.len()
    &&& 0 <= j < attestation.entries[i].line_ranges.len()
    &&& match attestation.entries[i].line_ranges[j] {
        LineRange::Single(only) => line == only,
        LineRange::Range(start, end) => start <= line <= end,
    }
}

/// The range `j` of the entry `i` is the last one in which `line` lies.
pub open spec fn in_last_range(
    attestation: FileAttestationView,
    i: int,
    j: int,
    line: int,
) -> bool {
    &&& in_range(attestation, i, j, line)
    &&& forall|later: int, k: int|
        later > i || (later == i && k > j) ==> !#[trigger] in_range(attestation, later, k, line)
}

/// The list attributes `line` to `author`.
pub open spec fn has_author(
    list: Seq<LineAttributionView>,
    line: int,
    author: Seq<char>,
) -> bool {
    exists|i: int|
        #![trigger list[i]]
        0 <= i < list.len() && list[i].start_line <= line <= list[i].end_line && list[i].author_id
            == author
}

proof fn lemma_last_about_add(
    left: Seq<LineAttributionView>,
    right: Seq<LineAttributionView>,
    line: int,
)
    ensures
        last_about(left + right, line) == match last_about(right, line) {
            Some(last) => Some(last),
            None => last_about(left, line),
        },
    decreases right.len(),
{
    if right.len() == 0 {
        assert(left + right =~= left);
    } else {
        lemma_last_about_add(left, right.drop_last(), line);
        assert((left + right).drop_last() =~= left + right.drop_last());
    }
}

/// The last of a list about a line is a member of the list, behind which none is about the line.
proof fn lemma_last_about_at(list: Seq<LineAttributionView>, line: int)
    ensures
        match last_about(list, line) {
            Some(last) => exists|k: int|
                #![trigger list[k]]
                0 <= k < list.len() && list[k] == last && last.start_line <= line <= last.end_line,
            None => forall|k: int|
                #![trigger list[k]]
                0 <= k < list.len() ==> !(list[k].start_line <= line <= list[k].end_line),
        },
    decreases list.len(),
{
    if list.len() > 0 {
        let rest = list.drop_last();
        lemma_last_about_at(rest, line);
        assert(forall|k: int| 0 <= k < rest.len() ==> rest[k] == list[k]);
        assert(list[list.len() - 1] == list.last());
        if !(list.last().start_line <= line <= list.last().end_line) {
            match last_about(rest, line) {
                Some(last) => {
                    let k = choose|k: int|
                        #![trigger rest[k]]
                        0 <= k < rest.len() && rest[k] == last;
                    assert(list[k] == last);
                },
                None => {},
            }
        }
    }
}

/// The last attribution about a line comes from an entry with a range in which the line lies, and
/// there is one wherever there is such an entry.
proof fn lemma_entry_about(attestation: FileAttestationView, i: int, line: int)
    requires
        0 <= i < attestation.entries.len(),
    ensures
        match last_about(entry_attributions(attestation.entries[i]), line) {
            Some(last) => last.author_id == attestation.entries[i].hash && last.overrode is None
                && exists|j: int| #[trigger] in_range(attestation, i, j, line),
            None => forall|j: int| !#[trigger] in_range(attestation, i, j, line),
        },
{
    let entry = attestation.entries[i];
    let list = entry_attributions(entry);
    lemma_last_about_at(list, line);
    assert forall|j: int| 0 <= j < list.len() implies (#[trigger] list[j].start_line <= line
        <= list[j].end_line <==> in_range(attestation, i, j, line)) by {
        assert(list[j] == range_attribution(entry.line_ranges[j], entry.hash));
    }
    match last_about(list, line) {
        Some(last) => {
            let k = choose|k: int| #![trigger list[k]] 0 <= k < list.len() && list[k] == last;
            assert(list[k].start_line <= line <= list[k].end_line);
            assert(in_range(attestation, i, k, line));
        },
        None => {
            assert forall|j: int| !#[trigger] in_range(attestation, i, j, line) by {
                if in_range(attestation, i, j, line) {
                    assert(list[j].start_line <= line <= list[j].end_line);
                }
            }
        },
    }
}

proof fn lemma_entries_about(attestation: FileAttestationView, n: int, line: int)
    requires
        0 <= n <= attestation.entries.len(),
    ensures
        match last_about(raw_attributions(attestation.entries.take(n)), line) {
            Some(last) => exists|i: int, j: int|
                i < n && #[trigger] in_range(attestation, i, j, line) && last.author_id
                    == attestation.entries[i].hash && last.overrode is None && forall|
                    later: int,
                    k: int,
                |
                    i < later < n ==> !#[trigger] in_range(attestation, later, k, line),
            None => forall|i: int, j: int|
                i < n ==> !#[trigger] in_range(attestation, i, j, line),
        },
    decreases n,
{
    let entries = attestation.entries.take(n);
    if n > 0 {
        lemma_entries_about(attestation, n - 1, line);
        lemma_entry_about(attestation, n - 1, line);
        assert(entries.drop_last() =~= attestation.entries.take(n - 1));
        assert(entries.last() == attestation.entries[n - 1]);
        let before = raw_attributions(attestation.entries.take(n - 1));
        let own = entry_attributions(attestation.entries[n - 1]);
        lemma_last_about_add(before, own, line);
        match last_about(own, line) {
            Some(last) => {
                let j = choose|j: int| #[trigger] in_range(attestation, n - 1, j, line);
                assert(in_range(attestation, n - 1, j, line));
            },
            None => {
                match last_about(before, line) {
                    Some(last) => {
                        let (i, j) = choose|i: int, j: int|
                            i < n - 1 && #[trigger] in_range(attestation, i, j, line)
                                && last.author_id == attestation.entries[i].hash && last.overrode
                                is None && forall|later: int, k: int|
                                i < later < n - 1 ==> !#[trigger] in_range(
                                    attestation,
                                    later,
                                    k,
                                    line,
                                );
                        assert forall|later: int, k: int| i < later < n implies !#[trigger] in_range(
                            attestation,
                            later,
                            k,
                            line,
                        ) by {}
                        assert(i < n && in_range(attestation, i, j, line));
                    },
                    None => {},
                }
            },
        }
    }
}

/// Every line of every range of an attestation is attributed, and to the entry whose range is the
/// last that holds it; every other line stays as it was. So in a file that had no attributions
/// exactly the lines of the ranges have an author.
pub proof fn law_every_attested_line_is_attributed(
    files: FileAttributions,
    attestation: FileAttestationView,
    line: int,
    author: Seq<char>,
)
    requires
        ranges_valid(attestation),
    ensures
        ({
            let path = attestation.file_path;
            let after = with_attestations(files, seq![attestation], None);
            &&& after.contains_key(path)
            &&& forall|i: int, j: int| #[trigger]
                in_last_range(attestation, i, j, line) ==> (has_author(after[path], line, author)
                    <==> author == attestation.entries[i].hash)
            &&& (exists|i: int, j: int| #[trigger] in_range(attestation, i, j, line)) ==> exists|
                i: int,
            | 0 <= i < attestation.entries.len() && #[trigger] has_author(
                after[path],
                line,
                attestation.entries[i].hash,
            )
            &&& (forall|i: int, j: int| !#[trigger] in_range(attestation, i, j, line)) ==> (
            has_author(after[path], line, author) <==> files.contains_key(path) && has_author(
                files[path],
                line,
                author,
            ))
        }),
{
    let path = attestation.file_path;
    let entries = attestation.entries;
    let raw = raw_attributions(entries);
    assert(seq![attestation].drop_last() =~= Seq::empty());
    assert(with_attestations(files, Seq::empty(), None) == files);
    let after = with_attestations(files, seq![attestation], None);
    assert(after == with_attestation(files, attestation, None));
    lemma_carried_valid(attestation, None, path);
    lemma_entries_about(attestation, entries.len() as int, line);
    assert(entries.take(entries.len() as int) =~= entries);
    let before = attributed(files, path);
    assert forall|a: Seq<char>| has_author(after[path], line, a) <==> match last_about(raw, line) {
        Some(last) => a == last.author_id,
        None => has_author(before, line, a),
    } by {
        lemma_has_author(before, raw, after[path], line, a);
    }
    assert forall|i: int, j: int| #[trigger] in_last_range(attestation, i, j, line) implies (
    has_author(after[path], line, author) <==> author == entries[i].hash) by {
        assert(in_range(attestation, i, j, line));
        let last = last_about(raw, line)->0;
        let (a, b) = choose|a: int, b: int|
            a < entries.len() && #[trigger] in_range(attestation, a, b, line) && last.author_id
                == entries[a].hash && last.overrode is None && forall|later: int, k: int|
                a < later < entries.len() ==> !#[trigger] in_range(attestation, later, k, line);
        assert(in_range(attestation, a, b, line));
        assert(a <= i);
        assert(i <= a);
    }
    if exists|i: int, j: int| #[trigger] in_range(attestation, i, j, line) {
        let last = last_about(raw, line)->0;
        let (a, b) = choose|a: int, b: int|
            a < entries.len() && #[trigger] in_range(attestation, a, b, line) && last.author_id
                == entries[a].hash && last.overrode is None && forall|later: int, k: int|
                a < later < entries.len() ==> !#[trigger] in_range(attestation, later, k, line);
        assert(has_author(after[path], line, entries[a].hash));
    }
}

proof fn lemma_has_author(
    before: Seq<LineAttributionView>,
    newer: Seq<LineAttributionView>,
    after: Seq<LineAttributionView>,
    line: int,
    author: Seq<char>,
)
    requires
        all_valid(newer),
        after == overlaid_all(before, newer),
    ensures
        has_author(after, line, author) <==> match last_about(newer, line) {
            Some(last) => author == last.author_id,
            None => has_author(before, line, author),
        },
{
    if has_author(after, line, author) {
        let i = choose|i: int|
            #![trigger after[i]]
            0 <= i < after.len() && after[i].start_line <= line <= after[i].end_line
                && after[i].author_id == author;
        assert(credits(after, line, author, after[i].overrode));
        law_last_newer_decides(before, newer, line, author, after[i].overrode);
        if last_about(newer, line) is None {
            assert(credits(before, line, author, after[i].overrode));
        }
    }
    match last_about(newer, line) {
        Some(last) => {
            law_last_newer_decides(before, newer, line, last.author_id, last.overrode);
        },
        None => {
            if has_author(before, line, author) {
                let i = choose|i: int|
                    #![trigger before[i]]
                    0 <= i < before.len() && before[i].start_line <= line <= before[i].end_line
                        && before[i].author_id == author;
                assert(credits(before, line, author, before[i].overrode));
                law_last_newer_decides(before, newer, line, author, before[i].overrode);
            }
        },
    }
}

proof fn lemma_raw(
    entries: Seq<AttestationEntryView>,
    each: spec_fn(AttestationEntryView) -> Seq<LineAttributionView>,
)
    requires
        forall|entry: AttestationEntryView| #[trigger] each(entry) == entry_attributions(entry),
    ensures
        raw_attributions(entries) == entries.map_values(each).flatten(),
    decreases entries.len(),
{
    if entries.len() > 0 {
        lemma_raw(entries.drop_last(), each);
        lemma_flat_step(entries, each);
    }
}

/// An attestation stands for one attribution for each range of each entry, in order, to the hash of
/// the entry; none of them overrode another author.
pub proof fn law_one_attribution_for_each_range(entries: Seq<AttestationEntryView>)
    ensures
        raw_attributions(entries) == entries.map_values(
            |entry: AttestationEntryView|
                Seq::new(
                    entry.line_ranges.len(),
                    |j: int|
                        LineAttributionView {
                            start_line: match entry.line_ranges[j] {
                                LineRange::Single(line) => line as int,
                                LineRange::Range(start, _) => start as int,
                            },
                            end_line: match entry.line_ranges[j] {
                                LineRange::Single(line) => line as int,
                                LineRange::Range(_, end) => end as int,
                            },
                            author_id: entry.hash,
                            overrode: None,
                        },
                ),
        ).flatten(),
{
    let each = |entry: AttestationEntryView|
        Seq::new(
            entry.line_ranges.len(),
            |j: int|
                LineAttributionView {
                    start_line: match entry.line_ranges[j] {
                        LineRange::Single(line) => line as int,
                        LineRange::Range(start, _) => start as int,
                    },
                    end_line: match entry.line_ranges[j] {
                        LineRange::Single(line) => line as int,
                        LineRange::Range(_, end) => end as int,
                    },
                    author_id: entry.hash,
                    overrode: None,
                },
        );
    assert forall|entry: AttestationEntryView| #[trigger] each(entry) == entry_attributions(
        entry,
    ) by {
        assert(each(entry) =~= entry_attributions(entry));
    }
    lemma_raw(entries, each);
}

/// The attributions of a file are carried over the hunks of that file, if the diff has any, and
/// stay as they are otherwise.
pub proof fn law_only_the_hunks_of_a_file_move_it(
    attributions: Seq<LineAttributionView>,
    diff: FileHunks,
    path: Seq<char>,
)
    ensures
        carried_over(attributions, None, path) == attributions,
        !diff.contains_key(path) ==> carried_over(attributions, Some(diff), path) == attributions,
        diff.contains_key(path) && diff[path].len() == 0 ==> carried_over(
            attributions,
            Some(diff),
            path,
        ) == attributions,
        diff.contains_key(path) && diff[path].len() > 0 ==> carried_over(
            attributions,
            Some(diff),
            path,
        ) == all_shifted(attributions, diff[path]),
{
}

/// The files that have attributions after a log are those that had some and those that the log
/// attests.
pub proof fn law_attested_files_are_known(
    files: FileAttributions,
    attestations: Seq<FileAttestationView>,
    hunks_by_file: Option<FileHunks>,
    path: Seq<char>,
)
    ensures
        with_attestations(files, attestations, hunks_by_file).contains_key(path) <==> (
        files.contains_key(path) || exists|i: int|
            0 <= i < attestations.len() && (#[trigger] attestations[i]).file_path == path),
    decreases attestations.len(),
{
    if attestations.len() > 0 {
        let rest = attestations.drop_last();
        law_attested_files_are_known(files, rest, hunks_by_file, path);
        assert(attestations[attestations.len() - 1] == attestations.last());
        assert(forall|i: int| 0 <= i < rest.len() ==> rest[i] == attestations[i]);
        if exists|i: int| 0 <= i < rest.len() && (#[trigger] rest[i]).file_path == path {
            let i = choose|i: int| 0 <= i < rest.len() && (#[trigger] rest[i]).file_path == path;
            assert(attestations[i].file_path == path);
        }
    }
}

proof fn lemma_usable(
    commits: Seq<Seq<char>>,
    notes: Map<Seq<char>, Option<AuthorshipLogView>>,
    readable: spec_fn(Seq<char>) -> bool,
    log_of: spec_fn(Seq<char>) -> CommitLogView,
)
    requires
        forall|sha: Seq<char>| #[trigger]
            readable(sha) <==> notes.contains_key(sha) && notes[sha] is Some,
        forall|sha: Seq<char>| #[trigger]
            log_of(sha) == (CommitLogView { sha, log: notes[sha]->0 }),
    ensures
        usable(commits, notes) == commits.filter(readable).map_values(log_of),
    decreases commits.len(),
{
    reveal(Seq::filter);
    if commits.len() > 0 {
        let rest = commits.drop_last();
        lemma_usable(rest, notes, readable, log_of);
        let sha = commits.last();
        if readable(sha) {
            assert(usable(commits, notes) =~= rest.filter(readable).push(sha).map_values(log_of));
        }
    } else {
        assert(usable(commits, notes) =~= commits.filter(readable).map_values(log_of));
    }
}

/// The logs that can be used are those of the commits whose notes can be read, in the order of the
/// commits.
pub proof fn law_usable_logs(
    commits: Seq<Seq<char>>,
    notes: Map<Seq<char>, Option<AuthorshipLogView>>,
)
    ensures
        usable(commits, notes) == commits.filter(
            |sha: Seq<char>| notes.contains_key(sha) && notes[sha] is Some,
        ).map_values(|sha: Seq<char>| CommitLogView { sha, log: notes[sha]->0 }),
{
    lemma_usable(
        commits,
        notes,
        |sha: Seq<char>| notes.contains_key(sha) && notes[sha] is Some,
        |sha: Seq<char>| CommitLogView { sha, log: notes[sha]->0 },
    );
}

proof fn lemma_pairs(
    logs: Seq<CommitLogView>,
    tip: Seq<char>,
    other: spec_fn(CommitLogView) -> bool,
    pair: spec_fn(CommitLogView) -> (Seq<char>, Seq<char>),
)
    requires
        forall|log: CommitLogView| #[trigger] other(log) <==> log.sha != tip,
        forall|log: CommitLogView| #[trigger] pair(log) == (log.sha, tip),
    ensures
        pairs_to(logs, tip) == logs.filter(other).map_values(pair),
    decreases logs.len(),
{
    reveal(Seq::filter);
    if logs.len() > 0 {
        let rest = logs.drop_last();
        lemma_pairs(rest, tip, other, pair);
        if other(logs.last()) {
            assert(pairs_to(logs, tip) =~= rest.filter(other).push(logs.last()).map_values(pair));
        }
    } else {
        assert(pairs_to(logs, tip) =~= logs.filter(other).map_values(pair));
    }
}

/// Each commit but the tip is compared with the tip, in order.
pub proof fn law_pairs_lead_to_the_tip(logs: Seq<CommitLogView>, tip: Seq<char>)
    ensures
        pairs_to(logs, tip) == logs.filter(|log: CommitLogView| log.sha != tip).map_values(
            |log: CommitLogView| (log.sha, tip),
        ),
{
    lemma_pairs(
        logs,
        tip,
        |log: CommitLogView| log.sha != tip,
        |log: CommitLogView| (log.sha, tip),
    );
}

/// The diff from a commit is the one at the place where the commit stands, for the last time, among
/// the pairs; a commit that is in no pair has none.
pub proof fn law_diff_of_a_commit(
    pairs: Seq<(Seq<char>, Seq<char>)>,
    diffs: Seq<FileHunks>,
    n: int,
    sha: Seq<char>,
)
    requires
        0 <= n <= pairs.len(),
    ensures
        forall|i: int|
            0 <= i < n && (#[trigger] pairs[i]).0 == sha && (forall|j: int|
                i < j < n ==> (#[trigger] pairs[j]).0 != sha) ==> diff_from(pairs, diffs, n, sha)
                == Some(diffs[i]),
        (forall|i: int| 0 <= i < n ==> (#[trigger] pairs[i]).0 != sha) ==> diff_from(
            pairs,
            diffs,
            n,
            sha,
        ) is None,
    decreases n,
{
    if n > 0 {
        law_diff_of_a_commit(pairs, diffs, n - 1, sha);
        assert(pairs[n - 1] == pairs[n - 1]);
    }
}

proof fn lemma_collected(
    logs: Seq<CommitLogView>,
    pairs: Seq<(Seq<char>, Seq<char>)>,
    diffs: Seq<FileHunks>,
    take: spec_fn(CollectedView, CommitLogView) -> CollectedView,
)
    requires
        forall|all: CollectedView, log: CommitLogView| #[trigger]
            take(all, log) == (CollectedView {
                files: with_attestations(
                    all.files,
                    log.log.attestations,
                    diff_from(pairs, diffs, pairs.len() as int, log.sha),
                ),
                prompts: log.log.prompts.union_prefer_right(all.prompts),
                sessions: log.log.sessions.union_prefer_right(all.sessions),
                humans: log.log.humans.union_prefer_right(all.humans),
            }),
    ensures
        collected(logs, pairs, diffs) == logs.fold_left(
            CollectedView {
                files: Map::empty(),
                prompts: Map::empty(),
                sessions: Map::empty(),
                humans: Map::empty(),
            },
            take,
        ),
    decreases logs.len(),
{
    if logs.len() > 0 {
        lemma_collected(logs.drop_last(), pairs, diffs, take);
    }
}

/// The logs are gone through one after the other, the oldest first. The attestations of each are
/// laid over what is there, carried over the diff from its commit; of its records those are taken
/// whose key has none yet.
pub proof fn law_logs_are_collected_in_turn(
    logs: Seq<CommitLogView>,
    pairs: Seq<(Seq<char>, Seq<char>)>,
    diffs: Seq<FileHunks>,
)
    ensures
        collected(logs, pairs, diffs) == logs.fold_left(
            CollectedView {
                files: Map::empty(),
                prompts: Map::empty(),
                sessions: Map::empty(),
                humans: Map::empty(),
            },
            |all: CollectedView, log: CommitLogView|
                CollectedView {
                    files: with_attestations(
                        all.files,
                        log.log.attestations,
                        diff_from(pairs, diffs, pairs.len() as int, log.sha),
                    ),
                    prompts: log.log.prompts.union_prefer_right(all.prompts),
                    sessions: log.log.sessions.union_prefer_right(all.sessions),
                    humans: log.log.humans.union_prefer_right(all.humans),
                },
        ),
{
    lemma_collected(
        logs,
        pairs,
        diffs,
        |all: CollectedView, log: CommitLogView|
            CollectedView {
                files: with_attestations(
                    all.files,
                    log.log.attestations,
                    diff_from(pairs, diffs, pairs.len() as int, log.sha),
                ),
                prompts: log.log.prompts.union_prefer_right(all.prompts),
                sessions: log.log.sessions.union_prefer_right(all.sessions),
                humans: log.log.humans.union_prefer_right(all.humans),
            },
    );
}

/// The entry `i` is the last of the contents for the file at `path` in the commit `treeish`.
pub open spec fn is_read_at(
    contents: Seq<TreeContentView>,
    i: int,
    treeish: Seq<char>,
    path: Seq<char>,
) -> bool {
    &&& 0 <= i < contents.len()
    &&& contents[i].treeish == treeish
    &&& contents[i].path == path
    &&& forall|j: int|
        #![trigger contents[j]]
        i < j < contents.len() ==> contents[j].treeish != treeish || contents[j].path != path
}

/// The content of a file in a commit is that of the last entry for the two; without an entry there
/// is none.
pub proof fn law_content_is_the_last_read(
    contents: Seq<TreeContentView>,
    treeish: Seq<char>,
    path: Seq<char>,
)
    ensures
        forall|i: int| #[trigger]
            is_read_at(contents, i, treeish, path) ==> content_at(contents, treeish, path) == Some(
                contents[i].content,
            ),
        match content_at(contents, treeish, path) {
            Some(content) => exists|i: int| #[trigger]
                is_read_at(contents, i, treeish, path) && contents[i].content == content,
            None => forall|i: int|
                #![trigger contents[i]]
                0 <= i < contents.len() ==> contents[i].treeish != treeish || contents[i].path
                    != path,
        },
    decreases contents.len(),
{
    if contents.len() > 0 {
        let rest = contents.drop_last();
        let end = contents.len() - 1;
        law_content_is_the_last_read(rest, treeish, path);
        assert(contents[end] == contents.last());
        assert(forall|i: int| 0 <= i < rest.len() ==> rest[i] == contents[i]);
        if contents.last().treeish == treeish && contents.last().path == path {
            assert(is_read_at(contents, end, treeish, path));
        } else {
            assert forall|i: int| #[trigger] is_read_at(contents, i, treeish, path) implies
                content_at(contents, treeish, path) == Some(contents[i].content) by {
                assert(is_read_at(rest, i, treeish, path));
            }
            match content_at(rest, treeish, path) {
                Some(content) => {
                    let i = choose|i: int| #[trigger]
                        is_read_at(rest, i, treeish, path) && rest[i].content == content;
                    assert(is_read_at(contents, i, treeish, path));
                },
                None => {},
            }
        }
    }
}

/// The content of a file is kept exactly where the file has attributions, its content in the old
/// tip was read and is not empty, and its content in the new tip was not read or is another text.
pub proof fn law_changed_content_is_kept(
    files: FileAttributions,
    contents: Seq<TreeContentView>,
    old_tip: Seq<char>,
    new_tip: Seq<char>,
    path: Seq<char>,
    content: Seq<char>,
)
    ensures
        differing_blobs(files, contents, old_tip, new_tip).contains_key(path) && differing_blobs(
            files,
            contents,
            old_tip,
            new_tip,
        )[path] == content <==> {
            &&& files.contains_key(path)
            &&& content.len() > 0
            &&& exists|i: int| #[trigger]
                is_read_at(contents, i, old_tip, path) && contents[i].content == content
            &&& !exists|j: int| #[trigger]
                is_read_at(contents, j, new_tip, path) && contents[j].content == content
        },
{
    law_content_is_the_last_read(contents, old_tip, path);
    law_content_is_the_last_read(contents, new_tip, path);
}

/// For each of the files both contents are asked for, first that in the old tip.
pub proof fn law_both_contents_are_asked_for(
    paths: Seq<Seq<char>>,
    old_tip: Seq<char>,
    new_tip: Seq<char>,
)
    ensures
        requests_for(paths, old_tip, new_tip).len() == 2 * paths.len(),
        forall|i: int|
            #![trigger paths[i]]
            0 <= i < paths.len() ==> requests_for(paths, old_tip, new_tip)[2 * i] == (
                old_tip,
                paths[i],
            ) && requests_for(paths, old_tip, new_tip)[2 * i + 1] == (new_tip, paths[i]),
    decreases paths.len(),
{
    if paths.len() > 0 {
        let rest = paths.drop_last();
        law_both_contents_are_asked_for(rest, old_tip, new_tip);
        assert(forall|i: int| 0 <= i < rest.len() ==> rest[i] == paths[i]);
    }
}

} // verus!
