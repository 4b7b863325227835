//! What a rebuild does with each answer, and what becomes of the working logs.
use vstd::prelude::*;

use crate::authorship::hunk_shift::DiffHunk;
use crate::authorship::note_laws::{
    is_read_at, law_both_contents_are_asked_for, law_changed_content_is_kept,
    law_pairs_lead_to_the_tip, law_usable_logs,
};
use crate::authorship::reset_run::{
    follows, OldLog, ResetAction, ResetEvent, ResetOutcome, ResetPhase, ResetRun,
};
use crate::authorship::rewrite_reset::FileAttributions;
use crate::authorship::undone::{
    collected, differing_blobs, requests_for, usable, CommitLogView, Note, TreeContent,
};
use crate::authorship::working_log::{
    checkpoint_blobs, lists_blobs, lists_blobs_of, named_blobs, Checkpoint, CheckpointView,
    InitialAttributions, InitialAttributionsView,
};
use crate::error::GitAiError;
use crate::string_map::{lists_keys, StringMap};
use crate::views::lemma_flat_step;

verus! {

/// The views of working logs hold all that the working logs hold.
pub proof fn law_working_log_views(initial: InitialAttributions, checkpoint: Checkpoint)
    ensures
        initial.deep_view().files == initial.files@,
        initial.deep_view().prompts == initial.prompts@,
        initial.deep_view().humans == initial.humans@,
        initial.deep_view().sessions == initial.sessions@,
        initial.deep_view().file_blobs == initial.file_blobs@,
        checkpoint.deep_view().record == checkpoint.record@,
        checkpoint.deep_view().blob_shas.len() == checkpoint.blob_shas@.len(),
        forall|i: int|
            #![trigger checkpoint.deep_view().blob_shas[i]]
            0 <= i < checkpoint.blob_shas@.len() ==> checkpoint.deep_view().blob_shas[i]
                == checkpoint.blob_shas@[i]@,
{
}

/// A working log is written anew exactly where the other one knows a file that it does not know.
pub proof fn law_missing_files_are_what_counts(
    target: InitialAttributionsView,
    other: InitialAttributionsView,
)
    ensures
        target.lacks_some(other) <==> exists|path: Seq<char>|
            #![trigger other.files.contains_key(path)]
            other.files.contains_key(path) && !target.files.contains_key(path),
{
    if exists|path: Seq<char>|
        #![trigger other.files.contains_key(path)]
        other.files.contains_key(path) && !target.files.contains_key(path) {
        let path = choose|path: Seq<char>|
            #![trigger other.files.contains_key(path)]
            other.files.contains_key(path) && !target.files.contains_key(path);
        assert(target.lacks(other, path));
    }
}

/// A supplemented working log, key by key. What the target has stays. A file that it did not know
/// comes with its attributions and with its blob, a record that it did not know comes as it is, and
/// nothing else comes.
pub proof fn law_supplemented_exactly(
    target: InitialAttributionsView,
    other: InitialAttributionsView,
    key: Seq<char>,
)
    ensures
        ({
            let after = target.supplemented(other);
            let new_file = other.files.contains_key(key) && !target.files.contains_key(key);
            &&& after.files.contains_key(key) <==> target.files.contains_key(key)
                || other.files.contains_key(key)
            &&& target.files.contains_key(key) ==> after.files[key] == target.files[key]
            &&& new_file ==> after.files[key] == other.files[key]
            &&& after.file_blobs.contains_key(key) <==> target.file_blobs.contains_key(key) || (
            new_file && other.file_blobs.contains_key(key))
            &&& new_file && other.file_blobs.contains_key(key) ==> after.file_blobs[key]
                == other.file_blobs[key]
            &&& target.file_blobs.contains_key(key) && !(new_file && other.file_blobs.contains_key(
                key,
            )) ==> after.file_blobs[key] == target.file_blobs[key]
            &&& after.prompts == other.prompts.union_prefer_right(target.prompts)
            &&& after.humans == other.humans.union_prefer_right(target.humans)
            &&& after.sessions == other.sessions.union_prefer_right(target.sessions)
            &&& target.lacking_blobs(other).contains_key(key) <==> new_file
                && other.file_blobs.contains_key(key)
            &&& target.lacking_blobs(other).contains_key(key) ==> target.lacking_blobs(other)[key]
                == other.file_blobs[key]
        }),
{
}

/// The blobs to copy are those of the files that came, one for each.
pub proof fn law_blobs_of_new_files_are_copied(
    shas: Seq<Seq<char>>,
    blobs: Map<Seq<char>, Seq<char>>,
)
    requires
        lists_blobs(shas, blobs),
    ensures
        forall|path: Seq<char>| #[trigger]
            blobs.contains_key(path) ==> shas.contains(blobs[path]),
        forall|i: int| 0 <= i < shas.len() ==> blobs.contains_value(#[trigger] shas[i]),
        shas.len() == blobs.dom().len(),
{
    let paths = choose|paths: Seq<Seq<char>>| #[trigger] lists_blobs_of(shas, paths, blobs);
    assert forall|path: Seq<char>| #[trigger] blobs.contains_key(path) implies shas.contains(
        blobs[path],
    ) by {
        assert(paths.to_set().contains(path));
        let i = paths.index_of(path);
        assert(shas[i] == blobs[path]);
    }
    assert forall|i: int| 0 <= i < shas.len() implies blobs.contains_value(#[trigger] shas[i]) by {
        assert(paths.contains(paths[i]));
        assert(paths.to_set().contains(paths[i]));
        assert(blobs.dom().contains(paths[i]) && blobs[paths[i]] == shas[i]);
    }
    paths.unique_seq_to_set();
}

proof fn lemma_named(shas: Seq<Seq<char>>, named: spec_fn(Seq<char>) -> bool)
    requires
        forall|sha: Seq<char>| #[trigger] named(sha) <==> sha.len() > 0,
    ensures
        named_blobs(shas) == shas.filter(named),
    decreases shas.len(),
{
    reveal(Seq::filter);
    if shas.len() > 0 {
        lemma_named(shas.drop_last(), named);
    }
}

proof fn lemma_checkpoint_blobs(
    checkpoints: Seq<CheckpointView>,
    blobs: spec_fn(CheckpointView) -> Seq<Seq<char>>,
)
    requires
        forall|checkpoint: CheckpointView| #[trigger]
            blobs(checkpoint) == named_blobs(checkpoint.blob_shas),
    ensures
        checkpoint_blobs(checkpoints) == checkpoints.map_values(blobs).flatten(),
    decreases checkpoints.len(),
{
    if checkpoints.len() > 0 {
        lemma_checkpoint_blobs(checkpoints.drop_last(), blobs);
        lemma_flat_step(checkpoints, blobs);
    }
}

/// The blobs of checkpoints are those of all their entries, in order, but for entries without one.
pub proof fn law_blobs_of_checkpoints(checkpoints: Seq<CheckpointView>)
    ensures
        checkpoint_blobs(checkpoints) == checkpoints.map_values(
            |checkpoint: CheckpointView|
                checkpoint.blob_shas.filter(|sha: Seq<char>| sha.len() > 0),
        ).flatten(),
{
    let blobs = |checkpoint: CheckpointView|
        checkpoint.blob_shas.filter(|sha: Seq<char>| sha.len() > 0);
    assert forall|checkpoint: CheckpointView| #[trigger] blobs(checkpoint) == named_blobs(
        checkpoint.blob_shas,
    ) by {
        lemma_named(checkpoint.blob_shas, |sha: Seq<char>| sha.len() > 0);
    }
    lemma_checkpoint_blobs(checkpoints, blobs);
}

/// Each phase takes the answer to what it asked for, and the tips of a run stay what they are.
pub proof fn law_every_answer_is_awaited(
    run: ResetRun,
    next: ResetRun,
    commits: Vec<String>,
    notes: Result<StringMap<Note>, GitAiError>,
    diffs: Vec<StringMap<Vec<DiffHunk>>>,
    error: GitAiError,
    contents: Result<Vec<TreeContent>, GitAiError>,
    written: Result<(), GitAiError>,
    old_log: OldLog,
    initial: InitialAttributions,
    checkpoints: Vec<Checkpoint>,
)
    ensures
        run.phase is ListingCommits ==> run.awaits(ResetEvent::Commits(commits)),
        run.phase is ReadingNotes ==> run.awaits(ResetEvent::Notes(notes)),
        run.phase matches ResetPhase::DiffingTrees { pairs, .. } ==> (diffs@.len() >= pairs@.len()
            ==> run.awaits(ResetEvent::Diffs(Ok(diffs)))),
        run.phase is DiffingTrees ==> run.awaits(ResetEvent::Diffs(Err(error))),
        run.phase is ReadingContents ==> run.awaits(ResetEvent::Contents(contents)),
        run.phase is WritingInitial ==> run.awaits(ResetEvent::InitialWritten(written)),
        run.phase is ReadingOldLog ==> run.awaits(ResetEvent::OldLog(old_log)),
        run.phase is ReadingTargetInitial ==> run.awaits(ResetEvent::TargetInitial(initial)),
        run.phase is SupplementingInitial ==> run.awaits(ResetEvent::Tried),
        run.phase is ReadingTargetCheckpoints ==> run.awaits(
            ResetEvent::TargetCheckpoints(checkpoints),
        ),
        run.phase is WritingCheckpoints ==> run.awaits(ResetEvent::Tried),
        run.phase is DeletingOldLog ==> run.awaits(ResetEvent::Tried),
        run.same_tips(next) <==> run.old_tip@ == next.old_tip@ && run.new_tip@ == next.new_tip@,
{
}

/// An error that an answer brings ends the run, and is what the run ends with.
pub proof fn law_errors_end_the_run(
    run: ResetRun,
    error: GitAiError,
    phase: ResetPhase,
    action: ResetAction,
)
    ensures
        run.phase is ReadingNotes ==> (follows(run, ResetEvent::Notes(Err(error)), phase, action)
            <==> phase is Finished && action == ResetAction::Finish(Err(error))),
        run.phase is DiffingTrees ==> (follows(run, ResetEvent::Diffs(Err(error)), phase, action)
            <==> phase is Finished && action == ResetAction::Finish(Err(error))),
        run.phase is ReadingContents ==> (follows(
            run,
            ResetEvent::Contents(Err(error)),
            phase,
            action,
        ) <==> phase is Finished && action == ResetAction::Finish(Err(error))),
        run.phase is WritingInitial ==> (follows(
            run,
            ResetEvent::InitialWritten(Err(error)),
            phase,
            action,
        ) <==> phase is Finished && action == ResetAction::Finish(Err(error))),
{
}

/// Without commits there is nothing to do; otherwise the notes of exactly these commits are read.
pub proof fn law_notes_of_the_commits_are_read(
    run: ResetRun,
    commits: Vec<String>,
    phase: ResetPhase,
    action: ResetAction,
)
    requires
        run.phase is ListingCommits,
        follows(run, ResetEvent::Commits(commits), phase, action),
    ensures
        commits@.len() == 0 ==> phase is Finished && action == ResetAction::Finish(
            Ok(ResetOutcome::NoCommits),
        ),
        commits@.len() > 0 ==> {
            &&& phase matches ResetPhase::ReadingNotes { commits: kept } && kept.deep_view()
                == commits.deep_view()
            &&& action matches ResetAction::ReadNotes { commits: asked } && asked.deep_view()
                == commits.deep_view()
        },
{
    assert(commits.deep_view().len() == commits@.len());
}

proof fn lemma_requests(
    keys: Seq<Seq<char>>,
    files: FileAttributions,
    asked: Seq<(Seq<char>, Seq<char>)>,
    old_tip: Seq<char>,
    new_tip: Seq<char>,
    path: Seq<char>,
)
    requires
        lists_keys(keys, files),
        asked == requests_for(keys, old_tip, new_tip),
    ensures
        files.contains_key(path) <==> asked.contains((old_tip, path)),
        files.contains_key(path) <==> asked.contains((new_tip, path)),
        asked.len() == 2 * files.dom().len(),
{
    law_both_contents_are_asked_for(keys, old_tip, new_tip);
    keys.unique_seq_to_set();
    if files.contains_key(path) {
        assert(keys.to_set().contains(path));
        let i = keys.index_of(path);
        assert(keys[i] == path);
        assert(asked[2 * i] == (old_tip, path));
        assert(asked[2 * i + 1] == (new_tip, path));
    }
    assert forall|treeish: Seq<char>| #[trigger] asked.contains((treeish, path)) implies
        files.contains_key(path) by {
        let at = asked.index_of((treeish, path));
        let i = at / 2;
        assert(at == 2 * i || at == 2 * i + 1);
        assert(keys[i] == path);
        assert(keys.to_set().contains(path));
    }
}

/// Where no commit has a readable note there is nothing to do. Otherwise the run goes on with the
/// logs in the notes: with the diffs from their commits to the old tip, where a log is not that of
/// the old tip itself, and at once with the contents of the attributed files, where none is.
pub proof fn law_logs_are_taken_from_the_notes(
    run: ResetRun,
    notes: StringMap<Note>,
    phase: ResetPhase,
    action: ResetAction,
    path: Seq<char>,
)
    requires
        run.phase is ReadingNotes,
        follows(run, ResetEvent::Notes(Ok(notes)), phase, action),
    ensures
        ({
            let commits = run.phase->ReadingNotes_commits.deep_view();
            let logs = commits.filter(
                |sha: Seq<char>| notes@.contains_key(sha) && notes@[sha] is Some,
            ).map_values(|sha: Seq<char>| CommitLogView { sha, log: notes@[sha]->0 });
            let pairs = logs.filter(|log: CommitLogView| log.sha != run.old_tip@).map_values(
                |log: CommitLogView| (log.sha, run.old_tip@),
            );
            let all = collected(logs, Seq::empty(), Seq::empty());
            if logs.len() == 0 {
                phase is Finished && action == ResetAction::Finish(Ok(ResetOutcome::NoNotes))
            } else if pairs.len() > 0 {
                &&& phase matches ResetPhase::DiffingTrees { logs: kept, pairs: waiting }
                    && kept.deep_view() == logs && waiting.deep_view() == pairs
                &&& action matches ResetAction::DiffTrees { pairs: asked } && asked.deep_view()
                    == pairs
            } else if all.files =~= Map::empty() {
                phase is Finished && action == ResetAction::Finish(
                    Ok(ResetOutcome::NoAttributions),
                )
            } else {
                &&& phase matches ResetPhase::ReadingContents { collected: kept }
                    && kept.deep_view() == all
                &&& action matches ResetAction::ReadContents { requests } && {
                    let asked = requests.deep_view();
                    &&& all.files.contains_key(path) <==> asked.contains((run.old_tip@, path))
                    &&& all.files.contains_key(path) <==> asked.contains((run.new_tip@, path))
                    &&& asked.len() == 2 * all.files.dom().len()
                }
            }
        }),
{
    let commits = run.phase->ReadingNotes_commits.deep_view();
    law_usable_logs(commits, notes@);
    law_pairs_lead_to_the_tip(usable(commits, notes@), run.old_tip@);
    if phase is ReadingContents {
        lemma_requests(
            phase->ReadingContents_collected.files.keys(),
            phase->ReadingContents_collected.files@,
            action->ReadContents_requests.deep_view(),
            run.old_tip@,
            run.new_tip@,
            path,
        );
    }
}

/// With the diffs the logs are collected; without any attribution there is nothing to do. Otherwise
/// both contents of each attributed file are read, and of no other file.
pub proof fn law_contents_of_attributed_files_are_read(
    run: ResetRun,
    diffs: Vec<StringMap<Vec<DiffHunk>>>,
    phase: ResetPhase,
    action: ResetAction,
    path: Seq<char>,
)
    requires
        run.phase is DiffingTrees,
        follows(run, ResetEvent::Diffs(Ok(diffs)), phase, action),
    ensures
        ({
            let all = collected(
                run.phase->DiffingTrees_logs.deep_view(),
                run.phase->DiffingTrees_pairs.deep_view(),
                diffs.deep_view(),
            );
            if all.files =~= Map::empty() {
                phase is Finished && action == ResetAction::Finish(
                    Ok(ResetOutcome::NoAttributions),
                )
            } else {
                &&& phase matches ResetPhase::ReadingContents { collected: kept }
                    && kept.deep_view() == all
                &&& action matches ResetAction::ReadContents { requests } && {
                    let asked = requests.deep_view();
                    &&& all.files.contains_key(path) <==> asked.contains((run.old_tip@, path))
                    &&& all.files.contains_key(path) <==> asked.contains((run.new_tip@, path))
                    &&& asked.len() == 2 * all.files.dom().len()
                }
            }
        }),
{
    let all = collected(
        run.phase->DiffingTrees_logs.deep_view(),
        run.phase->DiffingTrees_pairs.deep_view(),
        diffs.deep_view(),
    );
    if !(all.files =~= Map::empty()) {
        lemma_requests(
            phase->ReadingContents_collected.files.keys(),
            all.files,
            action->ReadContents_requests.deep_view(),
            run.old_tip@,
            run.new_tip@,
            path,
        );
    }
}

/// What is written for the new tip, and when. A file whose content in the old tip was read, is not
/// empty, and was not found alike in the new tip, is written, with its attributions and with that
/// content; a file whose content was found alike in the new tip, that was not read or is empty, is
/// not written. All records are written. Without a file to write the old working log is deleted.
pub proof fn law_changed_files_are_written(
    run: ResetRun,
    contents: Vec<TreeContent>,
    phase: ResetPhase,
    action: ResetAction,
    path: Seq<char>,
    content: Seq<char>,
)
    requires
        run.phase is ReadingContents,
        follows(run, ResetEvent::Contents(Ok(contents)), phase, action),
    ensures
        ({
            let all = run.phase->ReadingContents_collected;
            let read = contents.deep_view();
            let needed = all.files@.contains_key(path) && content.len() > 0 && (exists|i: int|
                #[trigger]
                is_read_at(read, i, run.old_tip@, path) && read[i].content == content) && !(exists|
                j: int,
            | #[trigger]
                is_read_at(read, j, run.new_tip@, path) && read[j].content == content);
            &&& needed ==> action is WriteInitial
            &&& action matches ResetAction::WriteInitial(write) ==> {
                &&& phase is WritingInitial
                &&& write.base@ == run.new_tip@
                &&& needed <==> write.file_blobs@.contains_key(path) && write.file_blobs@[path]
                    == content
                &&& write.files@.contains_key(path) <==> write.file_blobs@.contains_key(path)
                &&& write.files@.contains_key(path) ==> write.files@[path] == all.files@[path]
                &&& write.prompts@ == all.prompts@
                &&& write.humans@ == all.humans@
                &&& write.sessions@ == all.sessions@
                &&& !(write.files@ =~= Map::empty())
            }
            &&& !(action is WriteInitial) ==> phase == (ResetPhase::DeletingOldLog {
                outcome: ResetOutcome::NoDifference,
            }) && (action matches ResetAction::DeleteWorkingLog { base } && base@ == run.old_tip@)
        }),
{
    let all = run.phase->ReadingContents_collected;
    let blobs = differing_blobs(all.files@, contents.deep_view(), run.old_tip@, run.new_tip@);
    law_changed_content_is_kept(
        all.files@,
        contents.deep_view(),
        run.old_tip@,
        run.new_tip@,
        path,
        content,
    );
    if action is WriteInitial {
        let write = action->WriteInitial_0;
        assert(!(blobs =~= Map::empty()));
        assert(exists|key: Seq<char>| blobs.contains_key(key)) by {
            if forall|key: Seq<char>| !blobs.contains_key(key) {
                assert(blobs =~= Map::empty());
            }
        }
        let key = choose|key: Seq<char>| blobs.contains_key(key);
        assert(write.files@.contains_key(key));
    }
}

/// Once the attributions are written the working log of the old tip is read. What it holds is taken
/// over, first its attributions and then its checkpoints; where it holds nothing, or is not there
/// or not readable, it is deleted and the rebuild is done.
pub proof fn law_old_log_is_taken_over(
    run: ResetRun,
    old_log: OldLog,
    phase: ResetPhase,
    action: ResetAction,
)
    ensures
        run.phase is WritingInitial ==> (follows(
            run,
            ResetEvent::InitialWritten(Ok(())),
            phase,
            action,
        ) ==> phase is ReadingOldLog && (action matches ResetAction::ReadOldLog { base } && base@
            == run.old_tip@)),
        run.phase is ReadingOldLog && follows(run, ResetEvent::OldLog(old_log), phase, action) ==> {
            let done = phase == (ResetPhase::DeletingOldLog { outcome: ResetOutcome::Rebuilt })
                && (action matches ResetAction::DeleteWorkingLog { base } && base@ == run.old_tip@);
            match old_log {
                OldLog::Absent => done,
                OldLog::Unreadable => done,
                OldLog::Found { initial, checkpoints } => if exists|path: Seq<char>|
                    initial.files@.contains_key(path) {
                    &&& phase matches ResetPhase::ReadingTargetInitial {
                        initial: kept,
                        checkpoints: later,
                    } && kept.deep_view() == initial.deep_view() && later.deep_view()
                        == checkpoints.deep_view()
                    &&& action matches ResetAction::ReadTargetInitial { base } && base@
                        == run.new_tip@
                } else if checkpoints@.len() > 0 {
                    &&& phase matches ResetPhase::ReadingTargetCheckpoints { checkpoints: later }
                        && later.deep_view() == checkpoints.deep_view()
                    &&& action matches ResetAction::ReadTargetCheckpoints { base } && base@
                        == run.new_tip@
                } else {
                    done
                },
            }
        },
{
    match old_log {
        OldLog::Found { initial, checkpoints } => {
            assert(checkpoints.deep_view().len() == checkpoints@.len());
            if !(exists|path: Seq<char>| initial.files@.contains_key(path)) {
                assert(initial.files@ =~= Map::empty());
            }
        },
        _ => {},
    }
}

/// The attributions of the new tip are supplemented with those of the old one: the blobs of the
/// files that come are copied, and the whole is written where a file comes. Then the checkpoints
/// follow, where there are any.
pub proof fn law_attributions_are_supplemented(
    run: ResetRun,
    target: InitialAttributions,
    phase: ResetPhase,
    action: ResetAction,
)
    ensures
        run.phase matches ResetPhase::ReadingTargetInitial { initial, checkpoints } ==> (follows(
            run,
            ResetEvent::TargetInitial(target),
            phase,
            action,
        ) ==> {
            let comes = exists|path: Seq<char>|
                #![trigger initial.files@.contains_key(path)]
                initial.files@.contains_key(path) && !target.files@.contains_key(path);
            &&& phase matches ResetPhase::SupplementingInitial { checkpoints: later }
                && later.deep_view() == checkpoints.deep_view()
            &&& action matches ResetAction::SupplementInitial { base, copy_blobs, write } && {
                &&& base@ == run.new_tip@
                &&& comes <==> write is Some
                &&& write matches Some(merged) ==> merged.deep_view()
                    == target.deep_view().supplemented(initial.deep_view())
                &&& lists_blobs(
                    copy_blobs.deep_view(),
                    target.deep_view().lacking_blobs(initial.deep_view()),
                )
            }
        }),
        run.phase matches ResetPhase::SupplementingInitial { checkpoints } ==> (follows(
            run,
            ResetEvent::Tried,
            phase,
            action,
        ) ==> if checkpoints@.len() > 0 {
            &&& phase matches ResetPhase::ReadingTargetCheckpoints { checkpoints: later }
                && later.deep_view() == checkpoints.deep_view()
            &&& action matches ResetAction::ReadTargetCheckpoints { base } && base@ == run.new_tip@
        } else {
            &&& phase == (ResetPhase::DeletingOldLog { outcome: ResetOutcome::Rebuilt })
            &&& action matches ResetAction::DeleteWorkingLog { base } && base@ == run.old_tip@
        }),
{
    match run.phase {
        ResetPhase::ReadingTargetInitial { initial, checkpoints } => {
            law_missing_files_are_what_counts(target.deep_view(), initial.deep_view());
            assert(initial.deep_view().files == initial.files@);
            assert(target.deep_view().files == target.files@);
            assert(target.deep_view().lacks_some(initial.deep_view()) <==> exists|path: Seq<char>|
                #![trigger initial.files@.contains_key(path)]
                initial.files@.contains_key(path) && !target.files@.contains_key(path));
        },
        ResetPhase::SupplementingInitial { checkpoints } => {
            assert(checkpoints.deep_view().len() == checkpoints@.len());
        },
        _ => {},
    }
}

/// No checkpoint is lost: those of the new tip stay in front, and those of the old tip come behind
/// them, with their blobs. Then the old working log is deleted, and the run ends as it was to end.
pub proof fn law_no_checkpoint_is_lost(
    run: ResetRun,
    target: Vec<Checkpoint>,
    phase: ResetPhase,
    action: ResetAction,
)
    ensures
        run.phase matches ResetPhase::ReadingTargetCheckpoints { checkpoints } ==> (follows(
            run,
            ResetEvent::TargetCheckpoints(target),
            phase,
            action,
        ) ==> phase is WritingCheckpoints && (action matches ResetAction::WriteCheckpoints {
            base,
            copy_blobs,
            checkpoints: merged,
        } && {
            &&& base@ == run.new_tip@
            &&& copy_blobs.deep_view() == checkpoint_blobs(checkpoints.deep_view())
            &&& merged@.len() == target@.len() + checkpoints@.len()
            &&& forall|i: int|
                #![trigger merged@[i]]
                0 <= i < target@.len() ==> merged@[i].deep_view() == target@[i].deep_view()
            &&& forall|i: int|
                #![trigger checkpoints@[i]]
                0 <= i < checkpoints@.len() ==> merged@[target@.len() + i].deep_view()
                    == checkpoints@[i].deep_view()
        })),
        run.phase is WritingCheckpoints ==> (follows(run, ResetEvent::Tried, phase, action) ==> {
            &&& phase == (ResetPhase::DeletingOldLog { outcome: ResetOutcome::Rebuilt })
            &&& action matches ResetAction::DeleteWorkingLog { base } && base@ == run.old_tip@
        }),
        run.phase matches ResetPhase::DeletingOldLog { outcome } ==> (follows(
            run,
            ResetEvent::Tried,
            phase,
            action,
        ) ==> phase is Finished && action == ResetAction::Finish(Ok(outcome))),
{
    match run.phase {
        ResetPhase::ReadingTargetCheckpoints { checkpoints } => {
            if follows(run, ResetEvent::TargetCheckpoints(target), phase, action) {
                let merged = action->WriteCheckpoints_checkpoints;
                assert(merged.deep_view() == target.deep_view() + checkpoints.deep_view());
                assert(merged@.len() == merged.deep_view().len());
                assert forall|i: int|
                    #![trigger merged@[i]]
                    0 <= i < target@.len() implies merged@[i].deep_view()
                    == target@[i].deep_view() by {
                    assert(merged.deep_view()[i] == target.deep_view()[i]);
                }
                assert forall|i: int|
                    #![trigger checkpoints@[i]]
                    0 <= i < checkpoints@.len() implies merged@[target@.len() + i].deep_view()
                    == checkpoints@[i].deep_view() by {
                    assert(merged.deep_view()[target@.len() + i] == checkpoints.deep_view()[i]);
                }
            }
        },
        _ => {},
    }
}

} // verus!
