//! The course of a rebuild after a backward reset: which step follows which answer.
//!
//! The run is driven from outside. Each action asks for one thing to be read or written, and the
//! event that answers it leads to the next action, until the run is finished.
use vstd::prelude::*;

use crate::authorship::attribution::{LineAttribution, LineAttributionView};
use crate::authorship::hunk_shift::DiffHunk;
use crate::authorship::log::{HumanRecord, PromptRecord, SessionRecord};
use crate::authorship::rewrite_reset::FileHunks;
use crate::authorship::undone::{
    blob_requests, changed_blobs, collect_attributions, collected, content_at, diff_pairs,
    differing_blobs, differs, law_unreadable_commit_changes_nothing, noted_log, pairs_to,
    requests_for, usable, usable_logs, Collected, CollectedView, CommitLog, CommitLogView, Note,
    TreeContent, TreeContentView,
};
use crate::authorship::working_log::{
    append_checkpoints, blobs_of_checkpoints, checkpoint_blobs, lists_blobs, supplement, Checkpoint,
    CheckpointView, InitialAttributions, InitialAttributionsView,
};
use crate::error::GitAiError;
use crate::string_map::{lists_keys, StringMap};
use crate::views::Duplicate;

verus! {

/// How a run ended.
#[derive(Clone, Copy, Debug, PartialEq, Eq, Structural)]
pub enum ResetOutcome {
    /// There are no commits between the tips.
    NoCommits,
    /// None of the commits has a readable note.
    NoNotes,
    /// The notes attribute nothing.
    NoAttributions,
    /// No attributed file differs between the tips.
    NoDifference,
    /// The working log of the new tip was rebuilt.
    Rebuilt,
}

/// A rebuild on its way. `old_tip` is the commit that was reset from, `new_tip` the one that was
/// reset to.
pub struct ResetRun {
    pub old_tip: String,
    pub new_tip: String,
    pub phase: ResetPhase,
}

/// What a run waits for.
pub enum ResetPhase {
    ListingCommits,
    ReadingNotes { commits: Vec<String> },
    DiffingTrees { logs: Vec<CommitLog>, pairs: Vec<(String, String)> },
    ReadingContents { collected: Collected },
    WritingInitial,
    ReadingOldLog,
    ReadingTargetInitial { initial: InitialAttributions, checkpoints: Vec<Checkpoint> },
    SupplementingInitial { checkpoints: Vec<Checkpoint> },
    ReadingTargetCheckpoints { checkpoints: Vec<Checkpoint> },
    WritingCheckpoints,
    DeletingOldLog { outcome: ResetOutcome },
    Finished,
}

/// The working log of the old tip.
pub enum OldLog {
    Absent,
    Unreadable,
    Found { initial: InitialAttributions, checkpoints: Vec<Checkpoint> },
}

/// The answer to an action.
pub enum ResetEvent {
    /// The commits after the new tip up to the old one, the oldest first.
    Commits(Vec<String>),
    /// The notes of the commits.
    Notes(Result<StringMap<Note>, GitAiError>),
    /// The diff of each of the pairs.
    Diffs(Result<Vec<StringMap<Vec<DiffHunk>>>, GitAiError>),
    /// The contents that exist.
    Contents(Result<Vec<TreeContent>, GitAiError>),
    /// Whether the initial attributions were written.
    InitialWritten(Result<(), GitAiError>),
    /// The working log of the old tip.
    OldLog(OldLog),
    /// The initial attributions of the new tip.
    TargetInitial(InitialAttributions),
    /// The checkpoints of the new tip.
    TargetCheckpoints(Vec<Checkpoint>),
    /// The action was tried; whether it succeeded does not matter.
    Tried,
}

/// The initial attributions to write for a commit. `file_blobs` holds the content of each file.
pub struct InitialWrite {
    pub base: String,
    pub files: StringMap<Vec<LineAttribution>>,
    pub prompts: StringMap<PromptRecord>,
    pub humans: StringMap<HumanRecord>,
    pub file_blobs: StringMap<String>,
    pub sessions: StringMap<SessionRecord>,
}

/// What is to be done next.
pub enum ResetAction {
    ListCommits { base: String, tip: String },
    ReadNotes { commits: Vec<String> },
    DiffTrees { pairs: Vec<(String, String)> },
    ReadContents { requests: Vec<(String, String)> },
    WriteInitial(InitialWrite),
    ReadOldLog { base: String },
    ReadTargetInitial { base: String },
    /// Copy blobs from the old working log, then write the attributions, where there are any.
    SupplementInitial { base: String, copy_blobs: Vec<String>, write: Option<InitialAttributions> },
    ReadTargetCheckpoints { base: String },
    /// Copy blobs from the old working log, then write the checkpoints.
    WriteCheckpoints { base: String, copy_blobs: Vec<String>, checkpoints: Vec<Checkpoint> },
    DeleteWorkingLog { base: String },
    Finish(Result<ResetOutcome, GitAiError>),
}

impl ResetRun {
    /// `event` answers what the run waits for.
    pub open spec fn awaits(self, event: ResetEvent) -> bool {
        match (self.phase, event) {
            (ResetPhase::ListingCommits, ResetEvent::Commits(_)) => true,
            (ResetPhase::ReadingNotes { .. }, ResetEvent::Notes(_)) => true,
            (ResetPhase::DiffingTrees { pairs, .. }, ResetEvent::Diffs(diffs)) => diffs matches Ok(
                diffs,
            ) ==> pairs@.len() <= diffs@.len(),
            (ResetPhase::ReadingContents { .. }, ResetEvent::Contents(_)) => true,
            (ResetPhase::WritingInitial, ResetEvent::InitialWritten(_)) => true,
            (ResetPhase::ReadingOldLog, ResetEvent::OldLog(_)) => true,
            (ResetPhase::ReadingTargetInitial { .. }, ResetEvent::TargetInitial(_)) => true,
            (ResetPhase::SupplementingInitial { .. }, ResetEvent::Tried) => true,
            (ResetPhase::ReadingTargetCheckpoints { .. }, ResetEvent::TargetCheckpoints(_)) => true,
            (ResetPhase::WritingCheckpoints, ResetEvent::Tried) => true,
            (ResetPhase::DeletingOldLog { .. }, ResetEvent::Tried) => true,
            _ => false,
        }
    }

    /// The run goes on for the same tips.
    pub open spec fn same_tips(self, next: ResetRun) -> bool {
        next.old_tip@ == self.old_tip@ && next.new_tip@ == self.new_tip@
    }
}

/// The run is finished with `outcome`.
pub open spec fn finishes(phase: ResetPhase, action: ResetAction, outcome: ResetOutcome) -> bool {
    phase is Finished && action == ResetAction::Finish(Ok(outcome))
}

/// The run is finished with an error.
pub open spec fn fails(phase: ResetPhase, action: ResetAction, error: GitAiError) -> bool {
    phase is Finished && action == ResetAction::Finish(Err(error))
}

/// The working log of the old tip is deleted, as the last thing that the run does.
pub open spec fn deletes_old_log(
    run: ResetRun,
    phase: ResetPhase,
    action: ResetAction,
    outcome: ResetOutcome,
) -> bool {
    &&& phase == ResetPhase::DeletingOldLog { outcome }
    &&& action matches ResetAction::DeleteWorkingLog { base } && base@ == run.old_tip@
}

/// The notes are asked for, where there are commits.
pub open spec fn after_commits(
    commits: Seq<Seq<char>>,
    phase: ResetPhase,
    action: ResetAction,
) -> bool {
    if commits.len() == 0 {
        finishes(phase, action, ResetOutcome::NoCommits)
    } else {
        &&& phase matches ResetPhase::ReadingNotes { commits: waiting } && waiting.deep_view()
            == commits
        &&& action matches ResetAction::ReadNotes { commits: asked } && asked.deep_view() == commits
    }
}

/// Diffs are asked for, where a log is not that of the old tip.
pub open spec fn after_notes(
    run: ResetRun,
    logs: Seq<CommitLogView>,
    phase: ResetPhase,
    action: ResetAction,
) -> bool {
    let wanted = pairs_to(logs, run.old_tip@);
    if logs.len() == 0 {
        finishes(phase, action, ResetOutcome::NoNotes)
    } else if wanted.len() == 0 {
        after_diffs(run, collected(logs, Seq::empty(), Seq::empty()), phase, action)
    } else {
        &&& phase matches ResetPhase::DiffingTrees { logs: waiting, pairs } && waiting.deep_view()
            == logs && pairs.deep_view() == wanted
        &&& action matches ResetAction::DiffTrees { pairs: asked } && asked.deep_view() == wanted
    }
}

/// The contents of the attributed files are asked for, where there are any.
pub open spec fn after_diffs(
    run: ResetRun,
    all: CollectedView,
    phase: ResetPhase,
    action: ResetAction,
) -> bool {
    if all.files == Map::<Seq<char>, Seq<LineAttributionView>>::empty() {
        finishes(phase, action, ResetOutcome::NoAttributions)
    } else {
        &&& phase matches ResetPhase::ReadingContents { collected: waiting } && waiting.deep_view()
            == all && lists_keys(waiting.files.keys(), all.files) && (action matches
            ResetAction::ReadContents { requests } && requests.deep_view() == requests_for(
            waiting.files.keys(),
            run.old_tip@,
            run.new_tip@,
        ))
    }
}

/// What differs between the tips is written for the new tip.
pub open spec fn after_contents(
    run: ResetRun,
    all: CollectedView,
    contents: Seq<TreeContentView>,
    phase: ResetPhase,
    action: ResetAction,
) -> bool {
    let blobs = differing_blobs(all.files, contents, run.old_tip@, run.new_tip@);
    if blobs == Map::<Seq<char>, Seq<char>>::empty() {
        deletes_old_log(run, phase, action, ResetOutcome::NoDifference)
    } else {
        &&& phase is WritingInitial
        &&& action matches ResetAction::WriteInitial(write) && {
            &&& write.base@ == run.new_tip@
            &&& write.files@ == all.files.restrict(blobs.dom())
            &&& write.prompts@ == all.prompts
            &&& write.humans@ == all.humans
            &&& write.file_blobs@ == blobs
            &&& write.sessions@ == all.sessions
        }
    }
}

/// The checkpoints of the old tip are moved over, where there are any.
pub open spec fn before_checkpoints(
    run: ResetRun,
    checkpoints: Seq<CheckpointView>,
    phase: ResetPhase,
    action: ResetAction,
) -> bool {
    if checkpoints.len() == 0 {
        deletes_old_log(run, phase, action, ResetOutcome::Rebuilt)
    } else {
        &&& phase matches ResetPhase::ReadingTargetCheckpoints { checkpoints: waiting }
            && waiting.deep_view() == checkpoints
        &&& action matches ResetAction::ReadTargetCheckpoints { base } && base@ == run.new_tip@
    }
}

/// What follows the working log of the old tip.
pub open spec fn after_old_log(
    run: ResetRun,
    old_log: OldLog,
    phase: ResetPhase,
    action: ResetAction,
) -> bool {
    match old_log {
        OldLog::Found { initial, checkpoints } => if initial.files@ == Map::<
            Seq<char>,
            Seq<LineAttributionView>,
        >::empty() {
            before_checkpoints(run, checkpoints.deep_view(), phase, action)
        } else {
            &&& phase matches ResetPhase::ReadingTargetInitial {
                initial: waiting,
                checkpoints: later,
            } && waiting.deep_view() == initial.deep_view() && later.deep_view()
                == checkpoints.deep_view()
            &&& action matches ResetAction::ReadTargetInitial { base } && base@ == run.new_tip@
        },
        _ => deletes_old_log(run, phase, action, ResetOutcome::Rebuilt),
    }
}

/// The attributions of the new tip are supplemented with those of the old one.
pub open spec fn after_target_initial(
    run: ResetRun,
    initial: InitialAttributionsView,
    checkpoints: Seq<CheckpointView>,
    target: InitialAttributionsView,
    phase: ResetPhase,
    action: ResetAction,
) -> bool {
    &&& phase matches ResetPhase::SupplementingInitial { checkpoints: later } && later.deep_view()
        == checkpoints
    &&& action matches ResetAction::SupplementInitial { base, copy_blobs, write } && {
        &&& base@ == run.new_tip@
        &&& lists_blobs(copy_blobs.deep_view(), target.lacking_blobs(initial))
        &&& match write {
            Some(merged) => target.lacks_some(initial) && merged.deep_view()
                == target.supplemented(initial),
            None => !target.lacks_some(initial),
        }
    }
}

/// The checkpoints of the old tip are written behind those of the new one.
pub open spec fn after_target_checkpoints(
    run: ResetRun,
    checkpoints: Seq<CheckpointView>,
    target: Seq<CheckpointView>,
    phase: ResetPhase,
    action: ResetAction,
) -> bool {
    &&& phase is WritingCheckpoints
    &&& action matches ResetAction::WriteCheckpoints { base, copy_blobs, checkpoints: merged } && {
        &&& base@ == run.new_tip@
        &&& copy_blobs.deep_view() == checkpoint_blobs(checkpoints)
        &&& merged.deep_view() == target + checkpoints
    }
}

/// `phase` and `action` are what follows when `event` reaches `run`.
pub open spec fn follows(
    run: ResetRun,
    event: ResetEvent,
    phase: ResetPhase,
    action: ResetAction,
) -> bool {
    match (run.phase, event) {
        (ResetPhase::ListingCommits, ResetEvent::Commits(commits)) => after_commits(
            commits.deep_view(),
            phase,
            action,
        ),
        (ResetPhase::ReadingNotes { commits }, ResetEvent::Notes(Ok(notes))) => after_notes(
            run,
            usable(commits.deep_view(), notes@),
            phase,
            action,
        ),
        (ResetPhase::ReadingNotes { .. }, ResetEvent::Notes(Err(error))) => fails(
            phase,
            action,
            error,
        ),
        (ResetPhase::DiffingTrees { logs, pairs }, ResetEvent::Diffs(Ok(diffs))) => after_diffs(
            run,
            collected(logs.deep_view(), pairs.deep_view(), diffs.deep_view()),
            phase,
            action,
        ),
        (ResetPhase::DiffingTrees { .. }, ResetEvent::Diffs(Err(error))) => fails(
            phase,
            action,
            error,
        ),
        (ResetPhase::ReadingContents { collected }, ResetEvent::Contents(Ok(contents))) =>
            after_contents(run, collected.deep_view(), contents.deep_view(), phase, action),
        (ResetPhase::ReadingContents { .. }, ResetEvent::Contents(Err(error))) => fails(
            phase,
            action,
            error,
        ),
        (ResetPhase::WritingInitial, ResetEvent::InitialWritten(Ok(_))) => {
            &&& phase is ReadingOldLog
            &&& action matches ResetAction::ReadOldLog { base } && base@ == run.old_tip@
        },
        (ResetPhase::WritingInitial, ResetEvent::InitialWritten(Err(error))) => fails(
            phase,
            action,
            error,
        ),
        (ResetPhase::ReadingOldLog, ResetEvent::OldLog(old_log)) => after_old_log(
            run,
            old_log,
            phase,
            action,
        ),
        (
            ResetPhase::ReadingTargetInitial { initial, checkpoints },
            ResetEvent::TargetInitial(target),
        ) => after_target_initial(
            run,
            initial.deep_view(),
            checkpoints.deep_view(),
            target.deep_view(),
            phase,
            action,
        ),
        (ResetPhase::SupplementingInitial { checkpoints }, ResetEvent::Tried) => before_checkpoints(
            run,
            checkpoints.deep_view(),
            phase,
            action,
        ),
        (
            ResetPhase::ReadingTargetCheckpoints { checkpoints },
            ResetEvent::TargetCheckpoints(target),
        ) => after_target_checkpoints(
            run,
            checkpoints.deep_view(),
            target.deep_view(),
            phase,
            action,
        ),
        (ResetPhase::WritingCheckpoints, ResetEvent::Tried) => deletes_old_log(
            run,
            phase,
            action,
            ResetOutcome::Rebuilt,
        ),
        (ResetPhase::DeletingOldLog { outcome }, ResetEvent::Tried) => finishes(
            phase,
            action,
            outcome,
        ),
        _ => false,
    }
}

impl ResetRun {
    /// Starts a run: the commits that the reset undid are asked for.
    pub fn start(old_tip: &str, new_tip: &str) -> (res: (ResetRun, ResetAction))
        ensures
            res.0.old_tip@ == old_tip@,
            res.0.new_tip@ == new_tip@,
            res.0.phase is ListingCommits,
            res.1 matches ResetAction::ListCommits { base, tip } && base@ == new_tip@ && tip@
                == old_tip@,
    {
        (
            ResetRun {
                old_tip: old_tip.to_string(),
                new_tip: new_tip.to_string(),
                phase: ResetPhase::ListingCommits,
            },
            ResetAction::ListCommits { base: new_tip.to_string(), tip: old_tip.to_string() },
        )
    }

    fn on_commits(&self, commits: Vec<String>) -> (res: (ResetPhase, ResetAction))
        ensures
            after_commits(commits.deep_view(), res.0, res.1),
    {
        if commits.len() == 0 {
            (ResetPhase::Finished, ResetAction::Finish(Ok(ResetOutcome::NoCommits)))
        } else {
            let asked = commits.duplicate();
            (ResetPhase::ReadingNotes { commits }, ResetAction::ReadNotes { commits: asked })
        }
    }

    fn on_notes(&self, commits: &Vec<String>, notes: &StringMap<Note>) -> (res: (
        ResetPhase,
        ResetAction,
    ))
        ensures
            after_notes(*self, usable(commits.deep_view(), notes@), res.0, res.1),
    {
        let logs = usable_logs(commits, notes);
        if logs.len() == 0 {
            return (ResetPhase::Finished, ResetAction::Finish(Ok(ResetOutcome::NoNotes)));
        }
        let pairs = diff_pairs(&logs, self.old_tip.as_str());
        if pairs.len() == 0 {
            let diffs: Vec<StringMap<Vec<DiffHunk>>> = Vec::new();
            proof {
                assert(pairs.deep_view() =~= Seq::empty());
                assert(diffs.deep_view() =~= Seq::<FileHunks>::empty());
            }
            self.on_diffs(&logs, &pairs, &diffs)
        } else {
            let asked = duplicate_pairs(&pairs);
            (ResetPhase::DiffingTrees { logs, pairs }, ResetAction::DiffTrees { pairs: asked })
        }
    }

    fn on_diffs(
        &self,
        logs: &Vec<CommitLog>,
        pairs: &Vec<(String, String)>,
        diffs: &Vec<StringMap<Vec<DiffHunk>>>,
    ) -> (res: (ResetPhase, ResetAction))
        requires
            pairs@.len() <= diffs@.len(),
        ensures
            after_diffs(
                *self,
                collected(logs.deep_view(), pairs.deep_view(), diffs.deep_view()),
                res.0,
                res.1,
            ),
    {
        let collected = collect_attributions(logs, pairs, diffs);
        if collected.files.is_empty() {
            return (ResetPhase::Finished, ResetAction::Finish(Ok(ResetOutcome::NoAttributions)));
        }
        let requests = blob_requests(
            &collected.files,
            self.old_tip.as_str(),
            self.new_tip.as_str(),
        );
        (ResetPhase::ReadingContents { collected }, ResetAction::ReadContents { requests })
    }

    fn delete_old_log(&self, outcome: ResetOutcome) -> (res: (ResetPhase, ResetAction))
        ensures
            deletes_old_log(*self, res.0, res.1, outcome),
    {
        (
            ResetPhase::DeletingOldLog { outcome },
            ResetAction::DeleteWorkingLog { base: self.old_tip.clone() },
        )
    }

    fn on_contents(&self, collected: Collected, contents: &Vec<TreeContent>) -> (res: (
        ResetPhase,
        ResetAction,
    ))
        ensures
            after_contents(*self, collected.deep_view(), contents.deep_view(), res.0, res.1),
    {
        let file_blobs = changed_blobs(
            &collected.files,
            contents,
            self.old_tip.as_str(),
            self.new_tip.as_str(),
        );
        if file_blobs.is_empty() {
            return self.delete_old_log(ResetOutcome::NoDifference);
        }
        let files = collected.files.retain_keys_of(&file_blobs);
        let write = InitialWrite {
            base: self.new_tip.clone(),
            files,
            prompts: collected.prompts,
            humans: collected.humans,
            file_blobs,
            sessions: collected.sessions,
        };
        (ResetPhase::WritingInitial, ResetAction::WriteInitial(write))
    }

    fn move_checkpoints(&self, checkpoints: Vec<Checkpoint>) -> (res: (ResetPhase, ResetAction))
        ensures
            before_checkpoints(*self, checkpoints.deep_view(), res.0, res.1),
    {
        if checkpoints.len() == 0 {
            self.delete_old_log(ResetOutcome::Rebuilt)
        } else {
            (
                ResetPhase::ReadingTargetCheckpoints { checkpoints },
                ResetAction::ReadTargetCheckpoints { base: self.new_tip.clone() },
            )
        }
    }

    fn on_old_log(&self, old_log: OldLog) -> (res: (ResetPhase, ResetAction))
        ensures
            after_old_log(*self, old_log, res.0, res.1),
    {
        match old_log {
            OldLog::Found { initial, checkpoints } => {
                if initial.files.is_empty() {
                    self.move_checkpoints(checkpoints)
                } else {
                    (
                        ResetPhase::ReadingTargetInitial { initial, checkpoints },
                        ResetAction::ReadTargetInitial { base: self.new_tip.clone() },
                    )
                }
            },
            OldLog::Absent => self.delete_old_log(ResetOutcome::Rebuilt),
            OldLog::Unreadable => self.delete_old_log(ResetOutcome::Rebuilt),
        }
    }

    fn on_target_initial(
        &self,
        initial: &InitialAttributions,
        checkpoints: Vec<Checkpoint>,
        target: InitialAttributions,
    ) -> (res: (ResetPhase, ResetAction))
        ensures
            after_target_initial(
                *self,
                initial.deep_view(),
                checkpoints.deep_view(),
                target.deep_view(),
                res.0,
                res.1,
            ),
    {
        let supplemented = supplement(target, initial);
        (
            ResetPhase::SupplementingInitial { checkpoints },
            ResetAction::SupplementInitial {
                base: self.new_tip.clone(),
                copy_blobs: supplemented.copy_blobs,
                write: supplemented.write,
            },
        )
    }

    fn on_target_checkpoints(
        &self,
        checkpoints: Vec<Checkpoint>,
        target: Vec<Checkpoint>,
    ) -> (res: (ResetPhase, ResetAction))
        ensures
            after_target_checkpoints(
                *self,
                checkpoints.deep_view(),
                target.deep_view(),
                res.0,
                res.1,
            ),
    {
        let copy_blobs = blobs_of_checkpoints(&checkpoints);
        (
            ResetPhase::WritingCheckpoints,
            ResetAction::WriteCheckpoints {
                base: self.new_tip.clone(),
                copy_blobs,
                checkpoints: append_checkpoints(target, checkpoints),
            },
        )
    }
}

/// A copy of pairs of texts.
fn duplicate_pairs(pairs: &Vec<(String, String)>) -> (copy: Vec<(String, String)>)
    ensures
        copy.deep_view() == pairs.deep_view(),
{
    let mut copy: Vec<(String, String)> = Vec::new();
    let mut i: usize = 0;
    while i < pairs.len()
        invariant
            i <= pairs.len(),
            copy.len() == i,
            forall|k: int|
                0 <= k < i ==> (#[trigger] copy@[k]).deep_view() == pairs@[k].deep_view(),
        decreases pairs.len() - i,
    {
        copy.push((pairs[i].0.clone(), pairs[i].1.clone()));
        i = i + 1;
    }
    assert(copy.deep_view() =~= pairs.deep_view());
    copy
}

/// The next step of a run: what to wait for, and what to do, now that `event` is here.
pub fn reconstruct_working_log_after_backward_reset(run: ResetRun, event: ResetEvent) -> (res: (
    ResetRun,
    ResetAction,
))
    requires
        run.awaits(event),
    ensures
        run.same_tips(res.0),
        follows(run, event, res.0.phase, res.1),
{
    let ResetRun { old_tip, new_tip, phase } = run;
    let tips = ResetRun { old_tip, new_tip, phase: ResetPhase::Finished };
    let (next, action) = match (phase, event) {
        (ResetPhase::ListingCommits, ResetEvent::Commits(commits)) => tips.on_commits(commits),
        (ResetPhase::ReadingNotes { commits }, ResetEvent::Notes(Ok(notes))) => tips.on_notes(
            &commits,
            &notes,
        ),
        (ResetPhase::DiffingTrees { logs, pairs }, ResetEvent::Diffs(Ok(diffs))) => tips.on_diffs(
            &logs,
            &pairs,
            &diffs,
        ),
        (ResetPhase::ReadingContents { collected }, ResetEvent::Contents(Ok(contents))) =>
            tips.on_contents(collected, &contents),
        (ResetPhase::WritingInitial, ResetEvent::InitialWritten(Ok(_))) => (
            ResetPhase::ReadingOldLog,
            ResetAction::ReadOldLog { base: tips.old_tip.clone() },
        ),
        (ResetPhase::ReadingOldLog, ResetEvent::OldLog(old_log)) => tips.on_old_log(old_log),
        (
            ResetPhase::ReadingTargetInitial { initial, checkpoints },
            ResetEvent::TargetInitial(target),
        ) => tips.on_target_initial(&initial, checkpoints, target),
        (ResetPhase::SupplementingInitial { checkpoints }, ResetEvent::Tried) =>
            tips.move_checkpoints(checkpoints),
        (
            ResetPhase::ReadingTargetCheckpoints { checkpoints },
            ResetEvent::TargetCheckpoints(target),
        ) => tips.on_target_checkpoints(checkpoints, target),
        (ResetPhase::WritingCheckpoints, ResetEvent::Tried) => tips.delete_old_log(
            ResetOutcome::Rebuilt,
        ),
        (ResetPhase::DeletingOldLog { outcome }, ResetEvent::Tried) => (
            ResetPhase::Finished,
            ResetAction::Finish(Ok(outcome)),
        ),
        (_, ResetEvent::Notes(Err(error))) => (
            ResetPhase::Finished,
            ResetAction::Finish(Err(error)),
        ),
        (_, ResetEvent::Diffs(Err(error))) => (
            ResetPhase::Finished,
            ResetAction::Finish(Err(error)),
        ),
        (_, ResetEvent::Contents(Err(error))) => (
            ResetPhase::Finished,
            ResetAction::Finish(Err(error)),
        ),
        (_, ResetEvent::InitialWritten(Err(error))) => (
            ResetPhase::Finished,
            ResetAction::Finish(Err(error)),
        ),
        (_, _) => vstd::pervasive::unreached(),
    };
    (ResetRun { old_tip: tips.old_tip, new_tip: tips.new_tip, phase: next }, action)
}

/// How many steps a run in this phase can still take.
pub open spec fn steps_left(phase: ResetPhase) -> nat {
    match phase {
        ResetPhase::ListingCommits => 11,
        ResetPhase::ReadingNotes { .. } => 10,
        ResetPhase::DiffingTrees { .. } => 9,
        ResetPhase::ReadingContents { .. } => 8,
        ResetPhase::WritingInitial => 7,
        ResetPhase::ReadingOldLog => 6,
        ResetPhase::ReadingTargetInitial { .. } => 5,
        ResetPhase::SupplementingInitial { .. } => 4,
        ResetPhase::ReadingTargetCheckpoints { .. } => 3,
        ResetPhase::WritingCheckpoints => 2,
        ResetPhase::DeletingOldLog { .. } => 1,
        ResetPhase::Finished => 0,
    }
}

/// Every step brings a run nearer to its end, and it ends with `Finish`, not before.
pub proof fn law_run_ends(
    run: ResetRun,
    event: ResetEvent,
    phase: ResetPhase,
    action: ResetAction,
)
    requires
        run.awaits(event),
        follows(run, event, phase, action),
    ensures
        steps_left(phase) < steps_left(run.phase),
        phase is Finished <==> action is Finish,
{
}

/// The working log of the old tip, and no other, is deleted; it is deleted as the last thing that
/// a run does, and then the run succeeds. A run that fails has deleted nothing.
pub proof fn law_delete_comes_last(
    run: ResetRun,
    event: ResetEvent,
    phase: ResetPhase,
    action: ResetAction,
)
    requires
        run.awaits(event),
        follows(run, event, phase, action),
    ensures
        action matches ResetAction::DeleteWorkingLog { base } ==> base@ == run.old_tip@,
        action is DeleteWorkingLog <==> phase is DeletingOldLog,
        run.phase is DeletingOldLog ==> action matches ResetAction::Finish(Ok(_)),
        action matches ResetAction::Finish(Err(_)) ==> !(run.phase is DeletingOldLog),
{
}

/// What is written for the new tip concerns the files whose content in the old tip is not that in
/// the new one: each with its attributions and with its content in the old tip.
pub proof fn law_only_differing_files_are_written(
    run: ResetRun,
    event: ResetEvent,
    phase: ResetPhase,
    action: ResetAction,
    path: Seq<char>,
)
    requires
        run.awaits(event),
        follows(run, event, phase, action),
    ensures
        match (run.phase, event, action) {
            (
                ResetPhase::ReadingContents { collected },
                ResetEvent::Contents(Ok(contents)),
                ResetAction::WriteInitial(write),
            ) => {
                let needed = collected.files@.contains_key(path) && differs(
                    contents.deep_view(),
                    run.old_tip@,
                    run.new_tip@,
                    path,
                );
                &&& write.files@.contains_key(path) <==> needed
                &&& write.file_blobs@.contains_key(path) <==> needed
                &&& needed ==> write.files@[path] == collected.files@[path]
                &&& needed ==> content_at(contents.deep_view(), run.old_tip@, path) == Some(
                    write.file_blobs@[path],
                )
            },
            (_, _, ResetAction::WriteInitial(_)) => false,
            _ => true,
        },
{
}

/// From the notes to the new working log: a run that was told the notes of the undone commits, the
/// diffs that it asked for, if any, and the contents of the files writes for the new tip what the
/// logs in the notes say together in the numbering of the old tip, for the files that differ, and
/// all the records of the logs.
pub proof fn law_rebuild_writes_what_the_notes_say(
    run: ResetRun,
    notes: StringMap<Note>,
    noted: ResetRun,
    noted_action: ResetAction,
    diffs: Vec<StringMap<Vec<DiffHunk>>>,
    diffed: ResetRun,
    diffed_action: ResetAction,
    contents: Vec<TreeContent>,
    phase: ResetPhase,
    write: InitialWrite,
)
    requires
        run.phase is ReadingNotes,
        run.same_tips(noted),
        follows(run, ResetEvent::Notes(Ok(notes)), noted.phase, noted_action),
        if noted.phase is DiffingTrees {
            &&& noted.awaits(ResetEvent::Diffs(Ok(diffs)))
            &&& noted.same_tips(diffed)
            &&& follows(noted, ResetEvent::Diffs(Ok(diffs)), diffed.phase, diffed_action)
        } else {
            diffed == noted
        },
        diffed.phase is ReadingContents,
        follows(diffed, ResetEvent::Contents(Ok(contents)), phase, ResetAction::WriteInitial(write)),
    ensures
        ({
            let commits = run.phase->ReadingNotes_commits.deep_view();
            let logs = usable(commits, notes@);
            let pairs = pairs_to(logs, run.old_tip@);
            let all = collected(
                logs,
                pairs,
                if pairs.len() == 0 {
                    Seq::empty()
                } else {
                    diffs.deep_view()
                },
            );
            let blobs = differing_blobs(all.files, contents.deep_view(), run.old_tip@, run.new_tip@);
            &&& write.base@ == run.new_tip@
            &&& write.files@ == all.files.restrict(blobs.dom())
            &&& write.file_blobs@ == blobs
            &&& write.prompts@ == all.prompts
            &&& write.humans@ == all.humans
            &&& write.sessions@ == all.sessions
        }),
{
    let logs = usable(run.phase->ReadingNotes_commits.deep_view(), notes@);
    if pairs_to(logs, run.old_tip@).len() == 0 {
        assert(pairs_to(logs, run.old_tip@) =~= Seq::empty());
    }
}

/// A commit without a readable note does not matter: a run that waits for the notes of commits, and
/// one that waits for those of the same commits without this one, go on alike.
pub proof fn law_unreadable_commit_does_not_matter(
    run: ResetRun,
    other: ResetRun,
    before: Seq<Seq<char>>,
    sha: Seq<char>,
    after: Seq<Seq<char>>,
    notes: StringMap<Note>,
    phase: ResetPhase,
    action: ResetAction,
)
    requires
        run.same_tips(other),
        run.phase matches ResetPhase::ReadingNotes { commits } && commits.deep_view()
            == before.push(sha) + after,
        other.phase matches ResetPhase::ReadingNotes { commits } && commits.deep_view() == before
            + after,
        noted_log(notes@, sha) is None,
    ensures
        follows(run, ResetEvent::Notes(Ok(notes)), phase, action) <==> follows(
            other,
            ResetEvent::Notes(Ok(notes)),
            phase,
            action,
        ),
{
    law_unreadable_commit_changes_nothing(before, sha, after, notes@);
}

} // verus!
