//! What the undone commits of a reset leave behind: their logs, attributions and file contents.
use vstd::prelude::*;

use crate::authorship::attribution::{
    all_valid, credits, last_about, law_last_newer_decides, lemma_overlaid_add, overlaid_all,
    LineAttribution, LineAttributionView,
};
use crate::authorship::hunk_shift::DiffHunk;
use crate::authorship::log::{
    AuthorshipLog, AuthorshipLogView, FileAttestationView, HumanRecord, PromptRecord, SessionRecord,
};
use crate::authorship::rewrite_reset::{
    attributed, carried_over, extract_attributions_from_log_shifted, files_valid, hunks_view,
    law_log_attributes_once, law_log_stays_valid, lemma_carried_valid, lines_once, ranges_valid, raw_attributions,
    with_attestations, FileAttributions, FileHunks,
};
use crate::string_map::{lists_keys, StringMap};
use crate::text::same_text;
use crate::views::{lemma_push_view, views, Duplicate};

verus! {

/// The note of a commit: its authorship log, where the note can be read.
pub enum Note {
    Unreadable,
    Log(AuthorshipLog),
}

impl DeepView for Note {
    type V = Option<AuthorshipLogView>;

    open spec fn deep_view(&self) -> Option<AuthorshipLogView> {
        match self {
            Note::Unreadable => None,
            Note::Log(log) => Some(log.deep_view()),
        }
    }
}

/// A commit with its authorship log.
pub struct CommitLog {
    pub sha: String,
    pub log: AuthorshipLog,
}

pub struct CommitLogView {
    pub sha: Seq<char>,
    pub log: AuthorshipLogView,
}

impl DeepView for CommitLog {
    type V = CommitLogView;

    open spec fn deep_view(&self) -> CommitLogView {
        CommitLogView { sha: self.sha@, log: self.log.deep_view() }
    }
}

/// The log in the note of a commit; nothing where there is no note or it cannot be read.
pub open spec fn noted_log(
    notes: Map<Seq<char>, Option<AuthorshipLogView>>,
    sha: Seq<char>,
) -> Option<AuthorshipLogView> {
    if notes.contains_key(sha) {
        notes[sha]
    } else {
        None
    }
}

/// The commits that have a readable note, with their logs, in order.
pub open spec fn usable(
    commits: Seq<Seq<char>>,
    notes: Map<Seq<char>, Option<AuthorshipLogView>>,
) -> Seq<CommitLogView>
    decreases commits.len(),
{
    if commits.len() == 0 {
        Seq::empty()
    } else {
        let rest = usable(commits.drop_last(), notes);
        match noted_log(notes, commits.last()) {
            Some(log) => rest.push(CommitLogView { sha: commits.last(), log }),
            None => rest,
        }
    }
}

/// The commits that have a readable note, with their logs.
pub fn usable_logs(commits: &Vec<String>, notes: &StringMap<Note>) -> (logs: Vec<CommitLog>)
    ensures
        logs.deep_view() == usable(commits.deep_view(), notes@),
{
    let ghost all = commits.deep_view();
    let mut logs: Vec<CommitLog> = Vec::new();
    let mut i: usize = 0;
    while i < commits.len()
        invariant
            i <= commits.len(),
            all == commits.deep_view(),
            views(logs@) == usable(all.take(i as int), notes@),
        decreases commits.len() - i,
    {
        proof {
            assert(all.take(i + 1).drop_last() =~= all.take(i as int));
            assert(all.take(i + 1).last() == commits@[i as int]@);
        }
        match notes.get(commits[i].as_str()) {
            Some(Note::Log(log)) => {
                let entry = CommitLog { sha: commits[i].clone(), log: log.duplicate() };
                proof {
                    lemma_push_view(logs@, entry);
                }
                logs.push(entry);
            },
            _ => {},
        }
        i = i + 1;
    }
    assert(all.take(i as int) =~= all);
    assert(views(logs@) =~= logs.deep_view());
    logs
}

/// For each commit other than `tip`, the pair of it and `tip`, in order.
pub open spec fn pairs_to(logs: Seq<CommitLogView>, tip: Seq<char>) -> Seq<(Seq<char>, Seq<char>)>
    decreases logs.len(),
{
    if logs.len() == 0 {
        Seq::empty()
    } else if logs.last().sha == tip {
        pairs_to(logs.drop_last(), tip)
    } else {
        pairs_to(logs.drop_last(), tip).push((logs.last().sha, tip))
    }
}

/// The diffs that carry the attributions of the commits into the numbering of `tip`. The tip
/// itself needs none.
pub fn diff_pairs(logs: &Vec<CommitLog>, tip: &str) -> (pairs: Vec<(String, String)>)
    ensures
        pairs.deep_view() == pairs_to(logs.deep_view(), tip@),
{
    let ghost all = logs.deep_view();
    let mut pairs: Vec<(String, String)> = Vec::new();
    let mut i: usize = 0;
    while i < logs.len()
        invariant
            i <= logs.len(),
            all == logs.deep_view(),
            views(pairs@) == pairs_to(all.take(i as int), tip@),
        decreases logs.len() - i,
    {
        proof {
            assert(all.take(i + 1).drop_last() =~= all.take(i as int));
            assert(all.take(i + 1).last() == logs@[i as int].deep_view());
        }
        if !same_text(logs[i].sha.as_str(), tip) {
            let pair = (logs[i].sha.clone(), tip.to_string());
            proof {
                lemma_push_view(pairs@, pair);
            }
            pairs.push(pair);
        }
        i = i + 1;
    }
    assert(all.take(i as int) =~= all);
    assert(views(pairs@) =~= pairs.deep_view());
    pairs
}

/// The diff from `sha`, found where `sha` stands last among the first `n` pairs.
pub open spec fn diff_from(
    pairs: Seq<(Seq<char>, Seq<char>)>,
    diffs: Seq<FileHunks>,
    n: int,
    sha: Seq<char>,
) -> Option<FileHunks>
    decreases n,
{
    if n <= 0 {
        None
    } else if pairs[n - 1].0 == sha {
        Some(diffs[n - 1])
    } else {
        diff_from(pairs, diffs, n - 1, sha)
    }
}

/// The diff from `sha`.
fn find_diff<'a>(
    pairs: &Vec<(String, String)>,
    diffs: &'a Vec<StringMap<Vec<DiffHunk>>>,
    sha: &str,
) -> (hunks: Option<&'a StringMap<Vec<DiffHunk>>>)
    requires
        pairs@.len() <= diffs@.len(),
    ensures
        hunks_view(hunks) == diff_from(
            pairs.deep_view(),
            diffs.deep_view(),
            pairs@.len() as int,
            sha@,
        ),
{
    let mut n: usize = pairs.len();
    while n > 0
        invariant
            n <= pairs.len(),
            pairs@.len() <= diffs@.len(),
            diff_from(pairs.deep_view(), diffs.deep_view(), n as int, sha@) == diff_from(
                pairs.deep_view(),
                diffs.deep_view(),
                pairs@.len() as int,
                sha@,
            ),
        decreases n,
    {
        assert(pairs.deep_view()[n - 1].0 == pairs@[n - 1].0@);
        assert(diffs.deep_view()[n - 1] == diffs@[n - 1]@);
        if same_text(pairs[n - 1].0.as_str(), sha) {
            return Some(&diffs[n - 1]);
        }
        n = n - 1;
    }
    None
}

/// What was collected from the logs of the undone commits.
pub struct Collected {
    pub files: StringMap<Vec<LineAttribution>>,
    pub prompts: StringMap<PromptRecord>,
    pub sessions: StringMap<SessionRecord>,
    pub humans: StringMap<HumanRecord>,
}

pub struct CollectedView {
    pub files: FileAttributions,
    pub prompts: Map<Seq<char>, Seq<char>>,
    pub sessions: Map<Seq<char>, Seq<char>>,
    pub humans: Map<Seq<char>, Seq<char>>,
}

impl DeepView for Collected {
    type V = CollectedView;

    open spec fn deep_view(&self) -> CollectedView {
        CollectedView {
            files: self.files@,
            prompts: self.prompts@,
            sessions: self.sessions@,
            humans: self.humans@,
        }
    }
}

impl CollectedView {
    /// Nothing collected yet.
    pub open spec fn nothing() -> CollectedView {
        CollectedView {
            files: Map::empty(),
            prompts: Map::empty(),
            sessions: Map::empty(),
            humans: Map::empty(),
        }
    }

    /// With one more log: its attributions go over those collected before, its records only where
    /// there is none yet.
    pub open spec fn with_log(
        self,
        log: AuthorshipLogView,
        hunks_by_file: Option<FileHunks>,
    ) -> CollectedView {
        CollectedView {
            files: with_attestations(self.files, log.attestations, hunks_by_file),
            prompts: log.prompts.union_prefer_right(self.prompts),
            sessions: log.sessions.union_prefer_right(self.sessions),
            humans: log.humans.union_prefer_right(self.humans),
        }
    }
}

/// What the logs say together, the oldest first, in the numbering of the commit that the diffs
/// lead to.
pub open spec fn collected(
    logs: Seq<CommitLogView>,
    pairs: Seq<(Seq<char>, Seq<char>)>,
    diffs: Seq<FileHunks>,
) -> CollectedView
    decreases logs.len(),
{
    if logs.len() == 0 {
        CollectedView::nothing()
    } else {
        collected(logs.drop_last(), pairs, diffs).with_log(
            logs.last().log,
            diff_from(pairs, diffs, pairs.len() as int, logs.last().sha),
        )
    }
}

/// Collects what the logs say together. `diffs` holds the diff of each of `pairs`.
pub fn collect_attributions(
    logs: &Vec<CommitLog>,
    pairs: &Vec<(String, String)>,
    diffs: &Vec<StringMap<Vec<DiffHunk>>>,
) -> (result: Collected)
    requires
        pairs@.len() <= diffs@.len(),
    ensures
        result.deep_view() == collected(
            logs.deep_view(),
            pairs.deep_view(),
            diffs.deep_view(),
        ),
{
    let ghost all = logs.deep_view();
    let mut files: StringMap<Vec<LineAttribution>> = StringMap::new();
    let mut prompts: StringMap<PromptRecord> = StringMap::new();
    let mut sessions: StringMap<SessionRecord> = StringMap::new();
    let mut humans: StringMap<HumanRecord> = StringMap::new();
    let mut i: usize = 0;
    while i < logs.len()
        invariant
            i <= logs.len(),
            all == logs.deep_view(),
            pairs@.len() <= diffs@.len(),
            ({
                let so_far = collected(all.take(i as int), pairs.deep_view(), diffs.deep_view());
                &&& files@ == so_far.files
                &&& prompts@ == so_far.prompts
                &&& sessions@ == so_far.sessions
                &&& humans@ == so_far.humans
            }),
        decreases logs.len() - i,
    {
        proof {
            assert(all.take(i + 1).drop_last() =~= all.take(i as int));
            assert(all.take(i + 1).last() == logs@[i as int].deep_view());
        }
        let hunks_by_file = find_diff(pairs, diffs, logs[i].sha.as_str());
        extract_attributions_from_log_shifted(
            &logs[i].log,
            hunks_by_file,
            &mut files,
            &mut prompts,
            &mut sessions,
            &mut humans,
        );
        i = i + 1;
    }
    assert(all.take(i as int) =~= all);
    Collected { files, prompts, sessions, humans }
}

/// The content of a file in a commit.
#[derive(Debug)]
pub struct TreeContent {
    pub treeish: String,
    pub path: String,
    pub content: String,
}

pub struct TreeContentView {
    pub treeish: Seq<char>,
    pub path: Seq<char>,
    pub content: Seq<char>,
}

impl DeepView for TreeContent {
    type V = TreeContentView;

    open spec fn deep_view(&self) -> TreeContentView {
        TreeContentView {
            treeish: self.treeish@,
            path: self.path@,
            content: self.content@,
        }
    }
}

/// The content of the file at `path` in the commit `treeish`, where it was read.
pub open spec fn content_at(
    contents: Seq<TreeContentView>,
    treeish: Seq<char>,
    path: Seq<char>,
) -> Option<Seq<char>>
    decreases contents.len(),
{
    if contents.len() == 0 {
        None
    } else if contents.last().treeish == treeish && contents.last().path == path {
        Some(contents.last().content)
    } else {
        content_at(contents.drop_last(), treeish, path)
    }
}

/// The content of the file at `path` in the commit `treeish`.
fn find_content<'a>(contents: &'a Vec<TreeContent>, treeish: &str, path: &str) -> (content: Option<
    &'a String,
>)
    ensures
        match content {
            Some(content) => content_at(contents.deep_view(), treeish@, path@) == Some(content@),
            None => content_at(contents.deep_view(), treeish@, path@) is None,
        },
{
    let ghost all = contents.deep_view();
    let mut n: usize = contents.len();
    assert(all.take(n as int) =~= all);
    while n > 0
        invariant
            n <= contents.len(),
            all == contents.deep_view(),
            content_at(all.take(n as int), treeish@, path@) == content_at(all, treeish@, path@),
        decreases n,
    {
        proof {
            assert(all.take(n as int).last() == contents@[n - 1].deep_view());
            assert(all.take(n as int).drop_last() =~= all.take(n - 1));
        }
        if same_text(contents[n - 1].treeish.as_str(), treeish) && same_text(
            contents[n - 1].path.as_str(),
            path,
        ) {
            return Some(&contents[n - 1].content);
        }
        n = n - 1;
    }
    None
}

/// For each path, the file in the old tip and in the new one.
pub open spec fn requests_for(
    paths: Seq<Seq<char>>,
    old_tip: Seq<char>,
    new_tip: Seq<char>,
) -> Seq<(Seq<char>, Seq<char>)>
    decreases paths.len(),
{
    if paths.len() == 0 {
        Seq::empty()
    } else {
        requests_for(paths.drop_last(), old_tip, new_tip).push((old_tip, paths.last())).push(
            (new_tip, paths.last()),
        )
    }
}

/// The file contents that decide which attributions are still needed.
pub fn blob_requests(files: &StringMap<Vec<LineAttribution>>, old_tip: &str, new_tip: &str) -> (
    requests: Vec<(String, String)>)
    ensures
        requests.deep_view() == requests_for(files.keys(), old_tip@, new_tip@),
        lists_keys(files.keys(), files@),
{
    let n = files.len();
    let ghost keys = files.keys();
    let mut requests: Vec<(String, String)> = Vec::new();
    let mut i: usize = 0;
    while i < n
        invariant
            i <= n,
            n == keys.len(),
            keys == files.keys(),
            views(requests@) == requests_for(keys.take(i as int), old_tip@, new_tip@),
        decreases n - i,
    {
        let path = files.key_at(i);
        proof {
            assert(keys.take(i + 1).drop_last() =~= keys.take(i as int));
            assert(keys.take(i + 1).last() == path@);
        }
        let old_request = (old_tip.to_string(), path.clone());
        proof {
            lemma_push_view(requests@, old_request);
        }
        requests.push(old_request);
        let new_request = (new_tip.to_string(), path.clone());
        proof {
            lemma_push_view(requests@, new_request);
        }
        requests.push(new_request);
        i = i + 1;
    }
    assert(keys.take(i as int) =~= keys);
    assert(views(requests@) =~= requests.deep_view());
    requests
}

/// The file at `path` has content in the old tip, and other content, or none, in the new one.
pub open spec fn differs(
    contents: Seq<TreeContentView>,
    old_tip: Seq<char>,
    new_tip: Seq<char>,
    path: Seq<char>,
) -> bool {
    match content_at(contents, old_tip, path) {
        Some(content) => content.len() > 0 && content_at(contents, new_tip, path) != Some(content),
        None => false,
    }
}

/// For each of the files that differs between the tips, its content in the old tip.
pub open spec fn differing_blobs(
    files: FileAttributions,
    contents: Seq<TreeContentView>,
    old_tip: Seq<char>,
    new_tip: Seq<char>,
) -> Map<Seq<char>, Seq<char>> {
    Map::new(
        |path: Seq<char>| files.contains_key(path) && differs(contents, old_tip, new_tip, path),
        |path: Seq<char>| content_at(contents, old_tip, path)->0,
    )
}

/// For each of the files that differs between the tips, its content in the old tip.
pub fn changed_blobs(
    files: &StringMap<Vec<LineAttribution>>,
    contents: &Vec<TreeContent>,
    old_tip: &str,
    new_tip: &str,
) -> (blobs: StringMap<String>)
    ensures
        blobs@ == differing_blobs(files@, contents.deep_view(), old_tip@, new_tip@),
{
    let ghost all = contents.deep_view();
    let ghost result = differing_blobs(files@, all, old_tip@, new_tip@);
    let ghost keys = files.keys();
    let ghost mut visited: Set<Seq<char>> = Set::empty();
    let n = files.len();
    let mut blobs: StringMap<String> = StringMap::new();
    let mut i: usize = 0;
    assert(result.restrict(visited) =~= Map::empty());
    while i < n
        invariant
            i <= n,
            n == keys.len(),
            keys == files.keys(),
            all == contents.deep_view(),
            result == differing_blobs(files@, all, old_tip@, new_tip@),
            forall|j: int| 0 <= j < i ==> visited.contains(#[trigger] keys[j]),
            blobs@ == result.restrict(visited),
        decreases n - i,
    {
        let path = files.key_at(i);
        proof {
            visited = visited.insert(path@);
        }
        match find_content(contents, old_tip, path.as_str()) {
            Some(content) => {
                if !content.as_str().is_empty() {
                    let same = match find_content(contents, new_tip, path.as_str()) {
                        Some(other) => *other == *content,
                        None => false,
                    };
                    if !same {
                        blobs.insert(path.clone(), content.clone());
                    }
                }
            },
            None => {},
        }
        assert(blobs@ =~= result.restrict(visited));
        i = i + 1;
    }
    proof {
        assert(lists_keys(keys, files@));
        assert forall|path: Seq<char>| files@.contains_key(path) implies visited.contains(path) by {
            assert(keys.to_set().contains(path));
            assert(keys[keys.index_of(path)] == path);
        }
        assert(result.restrict(visited) =~= result);
    }
    blobs
}

/// The record of the earliest log that has one is kept, and none is lost.
pub proof fn law_first_record_is_kept(
    before: CollectedView,
    log: AuthorshipLogView,
    hunks_by_file: Option<FileHunks>,
    key: Seq<char>,
)
    ensures
        ({
            let after = before.with_log(log, hunks_by_file);
            &&& before.prompts.contains_key(key) ==> after.prompts.contains_key(key)
                && after.prompts[key] == before.prompts[key]
            &&& before.sessions.contains_key(key) ==> after.sessions.contains_key(key)
                && after.sessions[key] == before.sessions[key]
            &&& before.humans.contains_key(key) ==> after.humans.contains_key(key)
                && after.humans[key] == before.humans[key]
            &&& log.prompts.contains_key(key) ==> after.prompts.contains_key(key)
            &&& log.sessions.contains_key(key) ==> after.sessions.contains_key(key)
            &&& log.humans.contains_key(key) ==> after.humans.contains_key(key)
        }),
{
}

/// What the attestations of a log say of the file at `path`, in order.
pub open spec fn said_in(
    attestations: Seq<FileAttestationView>,
    hunks_by_file: Option<FileHunks>,
    path: Seq<char>,
) -> Seq<LineAttributionView>
    decreases attestations.len(),
{
    if attestations.len() == 0 {
        Seq::empty()
    } else {
        let rest = said_in(attestations.drop_last(), hunks_by_file, path);
        if attestations.last().file_path == path {
            rest + carried_over(raw_attributions(attestations.last().entries), hunks_by_file, path)
        } else {
            rest
        }
    }
}

/// What the logs say of the file at `path`, the oldest first.
pub open spec fn said_of(
    logs: Seq<CommitLogView>,
    pairs: Seq<(Seq<char>, Seq<char>)>,
    diffs: Seq<FileHunks>,
    path: Seq<char>,
) -> Seq<LineAttributionView>
    decreases logs.len(),
{
    if logs.len() == 0 {
        Seq::empty()
    } else {
        said_of(logs.drop_last(), pairs, diffs, path) + said_in(
            logs.last().log.attestations,
            diff_from(pairs, diffs, pairs.len() as int, logs.last().sha),
            path,
        )
    }
}

/// The attestations of a log lay what they say of a file, in order, over what was there.
pub proof fn law_log_lays_what_it_says_over(
    files: FileAttributions,
    attestations: Seq<FileAttestationView>,
    hunks_by_file: Option<FileHunks>,
    path: Seq<char>,
)
    ensures
        attributed(with_attestations(files, attestations, hunks_by_file), path) == overlaid_all(
            attributed(files, path),
            said_in(attestations, hunks_by_file, path),
        ),
    decreases attestations.len(),
{
    if attestations.len() > 0 {
        let rest = attestations.drop_last();
        law_log_lays_what_it_says_over(files, rest, hunks_by_file, path);
        if attestations.last().file_path == path {
            lemma_overlaid_add(
                attributed(files, path),
                said_in(rest, hunks_by_file, path),
                carried_over(raw_attributions(attestations.last().entries), hunks_by_file, path),
            );
        }
    }
}

/// What is collected for a file is all that the logs say of it, the oldest first, one attribution
/// laid over the other.
pub proof fn law_collected_is_what_the_logs_say(
    logs: Seq<CommitLogView>,
    pairs: Seq<(Seq<char>, Seq<char>)>,
    diffs: Seq<FileHunks>,
    path: Seq<char>,
)
    ensures
        attributed(collected(logs, pairs, diffs).files, path) == overlaid_all(
            Seq::empty(),
            said_of(logs, pairs, diffs, path),
        ),
    decreases logs.len(),
{
    if logs.len() > 0 {
        let rest = logs.drop_last();
        let attestations = logs.last().log.attestations;
        let hunks_by_file = diff_from(pairs, diffs, pairs.len() as int, logs.last().sha);
        law_collected_is_what_the_logs_say(rest, pairs, diffs, path);
        law_log_lays_what_it_says_over(
            collected(rest, pairs, diffs).files,
            attestations,
            hunks_by_file,
            path,
        );
        lemma_overlaid_add(
            Seq::empty(),
            said_of(rest, pairs, diffs, path),
            said_in(attestations, hunks_by_file, path),
        );
    }
}

/// Every range in every log has at least one line.
pub open spec fn logs_valid(logs: Seq<CommitLogView>) -> bool {
    forall|n: int, i: int|
        0 <= n < logs.len() && 0 <= i < logs[n].log.attestations.len() ==> ranges_valid(
            #[trigger] logs[n].log.attestations[i],
        )
}

/// The logs but the last are valid where all are, and so are the attestations of the last.
proof fn lemma_logs_valid(logs: Seq<CommitLogView>)
    requires
        logs.len() > 0,
        logs_valid(logs),
    ensures
        logs_valid(logs.drop_last()),
        forall|i: int|
            0 <= i < logs.last().log.attestations.len() ==> ranges_valid(
                #[trigger] logs.last().log.attestations[i],
            ),
{
    let rest = logs.drop_last();
    assert(forall|n: int| 0 <= n < rest.len() ==> rest[n] == logs[n]);
    assert forall|i: int| 0 <= i < logs.last().log.attestations.len() implies ranges_valid(
        #[trigger] logs.last().log.attestations[i],
    ) by {
        assert(ranges_valid(logs[logs.len() - 1].log.attestations[i]));
    }
}

/// What valid attestations say is about some lines.
proof fn lemma_said_in_valid(
    attestations: Seq<FileAttestationView>,
    hunks_by_file: Option<FileHunks>,
    path: Seq<char>,
)
    requires
        forall|i: int| 0 <= i < attestations.len() ==> ranges_valid(#[trigger] attestations[i]),
    ensures
        all_valid(said_in(attestations, hunks_by_file, path)),
    decreases attestations.len(),
{
    if attestations.len() > 0 {
        let rest = attestations.drop_last();
        assert(forall|i: int| 0 <= i < rest.len() ==> rest[i] == attestations[i]);
        lemma_said_in_valid(rest, hunks_by_file, path);
        assert(ranges_valid(attestations[attestations.len() - 1]));
        lemma_carried_valid(attestations.last(), hunks_by_file, path);
    }
}

/// What valid logs say is about some lines.
proof fn lemma_said_of_valid(
    logs: Seq<CommitLogView>,
    pairs: Seq<(Seq<char>, Seq<char>)>,
    diffs: Seq<FileHunks>,
    path: Seq<char>,
)
    requires
        logs_valid(logs),
    ensures
        all_valid(said_of(logs, pairs, diffs, path)),
    decreases logs.len(),
{
    if logs.len() > 0 {
        lemma_logs_valid(logs);
        lemma_said_of_valid(logs.drop_last(), pairs, diffs, path);
        lemma_said_in_valid(
            logs.last().log.attestations,
            diff_from(pairs, diffs, pairs.len() as int, logs.last().sha),
            path,
        );
    }
}

/// Later commits override earlier ones: a line goes to the author of the last attribution that any
/// of the logs has for it, and to nobody else.
pub proof fn law_later_commits_override(
    logs: Seq<CommitLogView>,
    pairs: Seq<(Seq<char>, Seq<char>)>,
    diffs: Seq<FileHunks>,
    path: Seq<char>,
    line: int,
    author: Seq<char>,
    overrode: Option<Seq<char>>,
)
    requires
        logs_valid(logs),
    ensures
        credits(
            attributed(collected(logs, pairs, diffs).files, path),
            line,
            author,
            overrode,
        ) <==> (last_about(said_of(logs, pairs, diffs, path), line) matches Some(last)
            && last.author_id == author && last.overrode == overrode),
{
    law_collected_is_what_the_logs_say(logs, pairs, diffs, path);
    lemma_said_of_valid(logs, pairs, diffs, path);
    law_last_newer_decides(
        Seq::empty(),
        said_of(logs, pairs, diffs, path),
        line,
        author,
        overrode,
    );
}

/// However many commits were undone, what is collected from their logs attributes no line twice.
pub proof fn law_collected_lines_once(
    logs: Seq<CommitLogView>,
    pairs: Seq<(Seq<char>, Seq<char>)>,
    diffs: Seq<FileHunks>,
)
    requires
        logs_valid(logs),
    ensures
        lines_once(collected(logs, pairs, diffs).files),
    decreases logs.len(),
{
    if logs.len() > 0 {
        let rest = logs.drop_last();
        lemma_logs_valid(logs);
        law_collected_lines_once(rest, pairs, diffs);
        law_log_attributes_once(
            collected(rest, pairs, diffs).files,
            logs.last().log.attestations,
            diff_from(pairs, diffs, pairs.len() as int, logs.last().sha),
        );
    }
}

/// However many commits were undone, what is collected from their logs holds no attribution that is
/// about no line.
pub proof fn law_collected_stays_valid(
    logs: Seq<CommitLogView>,
    pairs: Seq<(Seq<char>, Seq<char>)>,
    diffs: Seq<FileHunks>,
)
    requires
        logs_valid(logs),
    ensures
        files_valid(collected(logs, pairs, diffs).files),
    decreases logs.len(),
{
    if logs.len() > 0 {
        lemma_logs_valid(logs);
        law_collected_stays_valid(logs.drop_last(), pairs, diffs);
        law_log_stays_valid(
            collected(logs.drop_last(), pairs, diffs).files,
            logs.last().log.attestations,
            diff_from(pairs, diffs, pairs.len() as int, logs.last().sha),
        );
    }
}

/// A commit without a readable note leaves the logs as they are, wherever it stands among the
/// commits, and so all that is made of them.
pub proof fn law_unreadable_commit_changes_nothing(
    before: Seq<Seq<char>>,
    sha: Seq<char>,
    after: Seq<Seq<char>>,
    notes: Map<Seq<char>, Option<AuthorshipLogView>>,
)
    requires
        noted_log(notes, sha) is None,
    ensures
        usable(before.push(sha) + after, notes) == usable(before + after, notes),
    decreases after.len(),
{
    if after.len() == 0 {
        assert(before.push(sha) + after =~= before.push(sha));
        assert(before.push(sha).drop_last() =~= before);
        assert(before + after =~= before);
    } else {
        law_unreadable_commit_changes_nothing(before, sha, after.drop_last(), notes);
        assert((before.push(sha) + after).drop_last() =~= before.push(sha) + after.drop_last());
        assert((before + after).drop_last() =~= before + after.drop_last());
    }
}

} // verus!
